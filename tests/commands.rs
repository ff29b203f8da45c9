use queuebot::command::{Execution, MemberStep, PageEvent, PageStep};
use queuebot::generator::{merge_members, Member, MemberFilter};
use queuebot::parse::{collect_from_to, parse_prefix_namespaces, HeadingNode, ParseError, Parser};
use queuebot::{Command, CommandStatus, CommandType, OperationStatus};

fn t(s: &str) -> HeadingNode {
    HeadingNode::Text(s.to_string())
}

fn l(s: &str) -> HeadingNode {
    HeadingNode::Link(s.to_string())
}

/// The nodes of `Bot: [[:from]]を[[:t1]]と...<suffix>` after the heading element.
fn heading(prefix: &str, from: &str, to: &[&str], suffix: &str) -> Vec<HeadingNode> {
    let mut v = vec![t(prefix), l(from), t(from), t("を")];
    for (i, c) in to.iter().enumerate() {
        if i > 0 {
            v.push(t("と"));
        }
        v.push(l(c));
        v.push(t(c));
    }
    v.push(t(suffix));
    v
}

const LINK: &str = "プロジェクト:カテゴリ関連/議論/yyyy年/mm月dd日#XYZ";

fn parse(nodes: Vec<HeadingNode>) -> Option<Command> {
    let links = vec!["Category:Name1".to_string(), LINK.to_string(), "User:Example".to_string()];
    Parser::new(nodes, &links, true).expect("heading").parse()
}

#[test]
fn test_parse_success() {
    let c = parse(heading("Bot: ", "Category:Name1", &["Category:Name2"], "へ")).expect("failed to parse command");
    assert!(c.dry_run);
    assert_eq!(c.from, "Category:Name1");
    assert_eq!(c.to, vec!["Category:Name2".to_string()]);
    assert_eq!(c.discussion_link, LINK);
    assert_eq!(c.namespaces, vec![0, 14]);
    assert_eq!(c.command_type, CommandType::Reassignment);

    let five = ["Category:Name2", "Category:Name3", "Category:Name4", "Category:Name5", "Category:Name6"];
    let c = parse(heading("Bot: (記事) ", "Category:Name1", &five, "へ")).expect("failed to parse command");
    assert_eq!(c.to.len(), 5);
    assert_eq!(c.namespaces, vec![0]);

    let c = parse(heading("Bot: (カテゴリ) ", "Category:Name1", &["Category:Name2", "Category:Name3"], "に複製"))
        .expect("failed to parse command");
    assert_eq!(c.command_type, CommandType::Duplicate);
    assert_eq!(c.to, vec!["Category:Name2".to_string(), "Category:Name3".to_string(), "Category:Name1".to_string()]);
    assert_eq!(c.namespaces, vec![14]);

    let c = parse(vec![t("Bot: "), l("Category:Name1"), t("Category:Name1"), t("を除去")]).expect("failed to parse command");
    assert_eq!(c.command_type, CommandType::Remove);
    assert_eq!(c.from, "Category:Name1");
    assert!(c.to.is_empty());
}

#[test]
fn parse_rejects_no_or_too_many_targets() {
    let six = ["Category:2", "Category:3", "Category:4", "Category:5", "Category:6", "Category:7"];
    assert!(parse(heading("Bot: ", "Category:Name1", &six, "へ")).is_none());
    assert!(parse(heading("Bot: ", "Category:Name1", &[], "へ")).is_none());
    let mid = vec![l("Category:A"), t("Category:A"), t("を")];
    assert!(collect_from_to(&mid).is_none());
    assert!(parse(heading("Bot: ", "Category:Name1", &["Name2"], "へ")).is_none());
    assert!(parse(heading("Bot: ", "Category:Name1", &["Category:Name2"], "まで")).is_none());
    assert!(parse(heading("Bot (x): ", "Category:Name1", &["Category:Name2"], "へ")).is_none());
}

#[test]
fn parser_errors() {
    let links = vec![LINK.to_string()];
    assert_eq!(Parser::new(vec![], &links, false).err(), Some(ParseError::MissingPrefix));
    assert_eq!(Parser::new(vec![l("x"), t("へ")], &links, false).err(), Some(ParseError::PrefixNotText));
    assert_eq!(Parser::new(vec![t("Bot: "), l("x")], &links, false).err(), Some(ParseError::SuffixNotText));
    let only_categories = vec!["Category:A".to_string()];
    assert_eq!(
        Parser::new(vec![t("Bot: "), t("へ")], &only_categories, false).err(),
        Some(ParseError::MissingDiscussionLink)
    );
}

#[test]
fn prefix_namespaces() {
    assert_eq!(parse_prefix_namespaces("  Bot: "), Some(vec![0, 14]));
    assert_eq!(parse_prefix_namespaces("Bot: (記事)"), Some(vec![0]));
    assert_eq!(parse_prefix_namespaces("Bot: (カテゴリ) "), Some(vec![14]));
    assert_eq!(parse_prefix_namespaces("Bot"), None);
}

fn ulid(s: &str) -> u128 {
    ulid::Ulid::from_string(s).unwrap().0
}

#[test]
fn summaries() {
    let mut c = Command {
        dry_run: false,
        id: ulid("01HCZ2CQPV5HW8NJAH6V1Z3KG9"),
        from: "Category:A".to_string(),
        to: vec!["Category:B".to_string(), "Category:C".to_string()],
        discussion_link: "P:D".to_string(),
        namespaces: vec![0],
        command_type: CommandType::Reassignment,
    };
    assert_eq!(
        c.summary(),
        "BOT: [[:Category:A]]から[[:Category:B]],[[:Category:C]]へ変更 ([[P:D|議論場所]]) (ID: 01HCZ2CQPV5HW8NJAH6V1Z3KG9)"
    );
    c.command_type = CommandType::Duplicate;
    assert_eq!(
        c.summary(),
        "BOT: [[:Category:A]]を[[:Category:B]],[[:Category:C]]へ複製 ([[P:D|議論場所]]) (ID: 01HCZ2CQPV5HW8NJAH6V1Z3KG9)"
    );
    c.command_type = CommandType::Remove;
    assert_eq!(c.summary(), "BOT: [[:Category:A]]を除去 ([[P:D|議論場所]]) (ID: 01HCZ2CQPV5HW8NJAH6V1Z3KG9)");
    assert_eq!(c.replacers().replacers.rules.len(), 2);
}

/// Drives one page through the decisions with the given outcomes.
fn run_page(ex: &Execution, events: &[PageEvent]) -> OperationStatus {
    for e in events {
        match ex.page_step(*e) {
            PageStep::Finish(s) => return s,
            PageStep::Save | PageStep::Audit { .. } => {}
        }
    }
    panic!("page did not finish");
}

#[test]
fn page_steps() {
    let ex = Execution::new(1, CommandType::Duplicate, false);
    let err = |s: &str| OperationStatus::Error(s.to_string());
    assert_eq!(run_page(&ex, &[PageEvent::FetchFailed]), err("ページの取得中にエラーが発生しました"));
    assert_eq!(run_page(&ex, &[PageEvent::RewriteFailed]), err("カテゴリの変更中にエラーが発生しました"));
    assert_eq!(run_page(&ex, &[PageEvent::Rewritten { changed: false }]), OperationStatus::Skipped);
    assert_eq!(
        run_page(&ex, &[PageEvent::Rewritten { changed: true }, PageEvent::SaveFailed]),
        err("ページの保存に失敗しました")
    );
    assert_eq!(
        run_page(&ex, &[PageEvent::Rewritten { changed: true }, PageEvent::Saved { new_revision: None }]),
        err("新しい版のIDを取得できませんでした")
    );
    assert!(matches!(ex.page_step(PageEvent::Saved { new_revision: Some(9) }), PageStep::Audit { new_revision: 9 }));
    assert_eq!(run_page(&ex, &[PageEvent::AuditFailed]), err("データベースへのオペレーション保存に失敗しました"));
    assert_eq!(run_page(&ex, &[PageEvent::Audited]), OperationStatus::Duplicated);
    let dry = Execution::new(1, CommandType::Remove, true);
    assert_eq!(run_page(&dry, &[PageEvent::Rewritten { changed: true }]), OperationStatus::Removed);
    let re = Execution::new(1, CommandType::Reassignment, false);
    assert_eq!(run_page(&re, &[PageEvent::Audited]), OperationStatus::Done);
}

#[test]
fn emergency_stop_mid_batch() {
    let pages: Vec<Member> = (0..5).map(|i| Member::Page(format!("Page{i}"))).collect();
    let stop_after = 2;
    let mut ex = Execution::new(7, CommandType::Reassignment, false);
    let mut fetched = Vec::new();
    let mut result = None;
    for (n, m) in pages.iter().enumerate() {
        match ex.on_member(n >= stop_after, m) {
            MemberStep::Stop => {
                result = Some(CommandStatus::EmergencyStopped);
                break;
            }
            MemberStep::Ignore => {}
            MemberStep::Process(title) => {
                fetched.push(title.clone());
                ex.record(title, OperationStatus::Done);
            }
        }
    }
    assert_eq!(result, Some(CommandStatus::EmergencyStopped));
    assert_eq!(fetched, vec!["Page0".to_string(), "Page1".to_string()]);
}

#[test]
fn run_endings() {
    let ex = Execution::new(3, CommandType::Reassignment, false);
    assert_eq!(ex.finish(), CommandStatus::CategoryEmpty);

    let mut ex = Execution::new(3, CommandType::Reassignment, false);
    assert!(matches!(ex.on_member(false, &Member::Failed("boom".to_string())), MemberStep::Ignore));
    assert_eq!(ex.finish(), CommandStatus::Skipped);

    let mut ex = Execution::new(3, CommandType::Reassignment, false);
    let _ = ex.on_member(false, &Member::Page("A".to_string()));
    ex.record("A".to_string(), OperationStatus::Skipped);
    ex.record("B".to_string(), OperationStatus::Done);
    ex.record("A".to_string(), OperationStatus::Done);
    assert_eq!(
        ex.finish(),
        CommandStatus::Done {
            id: 3,
            statuses: {
                let mut m = indexmap::IndexMap::new();
                m.insert("A".to_string(), OperationStatus::Done);
                m.insert("B".to_string(), OperationStatus::Done);
                m
            },
        }
    );

    let ex = Execution::new(4, CommandType::Remove, false);
    assert_eq!(
        ex.setup_failed("timeout"),
        CommandStatus::Error {
            id: 4,
            statuses: indexmap::IndexMap::new(),
            message: "コマンドをデータベースに保存できませんでした: timeout".to_string(),
        }
    );
}

#[test]
fn discovery_delivers_each_page_once() {
    let page = |s: &str| Member::Page(s.to_string());
    let arrivals = vec![page("A"), page("B"), Member::Failed("e".to_string()), page("A"), page("C"), page("B")];
    let out = merge_members(&arrivals);
    let titles: Vec<String> = out
        .iter()
        .map(|m| match m {
            Member::Page(t) => t.clone(),
            Member::Failed(e) => format!("!{e}"),
        })
        .collect();
    assert_eq!(titles, vec!["A", "B", "!e", "C"]);

    let mut f = MemberFilter::new();
    assert!(f.let_through(&page("X")));
    assert!(!f.let_through(&page("X")));
    assert!(f.let_through(&Member::Failed("e".to_string())));
    assert!(f.let_through(&Member::Failed("e".to_string())));
}
