use queuebot::document::{CategoryTag, Document, Node, Param, Template};
use queuebot::category_tag::CategoryTagReplacer;
use queuebot::category_of_redirects::{
    replace_internal_complex, replace_internal_single, CategoryOfRedirectsReplacer,
};
use queuebot::image_requested::ImageRequestedReplacer;
use queuebot::params::Edit;
use queuebot::recursion::{get_category_replacers, RecursionReplacer};
use queuebot::replacer::{category_replacers, CategoryReplacer, CategoryReplacerList};
use queuebot::replace_category;

fn text(t: &str) -> Node {
    Node::Text(t.to_string())
}

fn cat(name: &str) -> Node {
    Node::Category(CategoryTag { name: name.to_string(), sort_key: None, origin: None })
}

fn cat_sorted(name: &str, key: &str) -> Node {
    Node::Category(CategoryTag { name: name.to_string(), sort_key: Some(key.to_string()), origin: None })
}

fn param(k: &str, v: &str) -> Param {
    Param { key: k.to_string(), value: v.to_string(), parsed: None, rewritten: None }
}

fn template(name: &str, params: Vec<Param>) -> Node {
    Node::Template(Template { name: name.to_string(), params, origin: None })
}

/// Wikitext of the model, for comparing results: a parameter is written
/// without its key where that key is the next positional number.
fn render(doc: &Document) -> String {
    let mut out = String::new();
    for n in &doc.nodes {
        match n {
            Node::Text(t) => out.push_str(t),
            Node::Link(t) => out.push_str(&format!("[[{t}]]")),
            Node::Category(c) => match &c.sort_key {
                Some(k) => out.push_str(&format!("[[{}|{}]]", c.name, k)),
                None => out.push_str(&format!("[[{}]]", c.name)),
            },
            Node::Template(t) => {
                out.push_str("{{");
                out.push_str(t.name.strip_prefix("Template:").unwrap_or(&t.name));
                let mut n = 0;
                for p in &t.params {
                    if p.key == (n + 1).to_string() && !p.value.contains('=') {
                        n += 1;
                        out.push_str(&format!("|{}", p.value));
                    } else {
                        out.push_str(&format!("|{}={}", p.key, p.value));
                    }
                }
                out.push_str("}}");
            }
        }
    }
    out
}

fn strings(v: &[&str]) -> Vec<String> {
    v.iter().map(|s| s.to_string()).collect()
}

fn tag_replace(from: &str, to: &[&str], nodes: Vec<Node>) -> (String, bool) {
    let mut doc = Document { nodes };
    let r = CategoryTagReplacer::new(from.to_string(), strings(to));
    let changed = r.replace(&mut doc);
    (render(&doc), changed)
}

const REDIRECTS: &str = "Template:リダイレクトの所属カテゴリ";
const IMAGE: &str = "Template:画像提供依頼";

#[test]
fn test_replace_redirect_tag_one() {
    let (out, changed) = tag_replace("Category:Name1", &["Category:Name2"], vec![cat("Category:Name1"), text("\n")]);
    assert!(changed);
    assert_eq!(out, "[[Category:Name2]]\n");
}

#[test]
fn test_replace_redirect_multiple() {
    let (out, changed) = tag_replace(
        "Category:Name1",
        &["Category:Name2", "Category:Name3"],
        vec![cat("Category:Name1"), text("\n")],
    );
    assert!(changed);
    assert_eq!(out, "[[Category:Name2]][[Category:Name3]]\n");
}

#[test]
fn test_remove_redirect_tag() {
    let (out, changed) = tag_replace("Category:Name1", &[], vec![cat("Category:Name1"), text("\n")]);
    assert!(changed);
    assert_eq!(out, "\n");
}

#[test]
fn category_tag_test_replace() {
    // a target that is already tagged is not added twice
    let (out, changed) = tag_replace(
        "Category:Name1",
        &["Category:Name2"],
        vec![cat("Category:Name1"), text("\n"), cat("Category:Name2"), text("\n")],
    );
    assert!(changed);
    assert_eq!(out, "\n[[Category:Name2]]\n");
    // duplication keeps the source, after the new target
    let (out, changed) = tag_replace(
        "Category:東京都の区立図書館",
        &["Category:日本の公共図書館", "Category:東京都の区立図書館"],
        vec![cat("Category:東京都の区立図書館"), text("\n")],
    );
    assert!(changed);
    assert_eq!(out, "[[Category:日本の公共図書館]][[Category:東京都の区立図書館]]\n");
    // duplication where every target is already there changes nothing
    let nodes = vec![
        cat_sorted("Category:日本の公共図書館", "廃ふくいしりつふくい"),
        text("\n"),
        cat("Category:日本の市町村立図書館 (廃止)"),
        text("\n"),
        cat_sorted("Category:福井県の市町村立図書館", "廃ふくいしりつふくい"),
        text("\n"),
    ];
    let (out, changed) = tag_replace(
        "Category:福井県の市町村立図書館",
        &["Category:日本の公共図書館", "Category:福井県の市町村立図書館"],
        nodes,
    );
    assert!(!changed);
    assert_eq!(
        out,
        "[[Category:日本の公共図書館|廃ふくいしりつふくい]]\n[[Category:日本の市町村立図書館 (廃止)]]\n[[Category:福井県の市町村立図書館|廃ふくいしりつふくい]]\n"
    );
}

#[test]
fn duplicate_to_self_keeps_sort_key() {
    let (out, changed) = tag_replace(
        "Category:A",
        &["Category:B", "Category:A"],
        vec![cat_sorted("Category:A", "key"), text("\n")],
    );
    assert!(changed);
    assert_eq!(out, "[[Category:B]][[Category:A|key]]\n");
    let (out, changed) = tag_replace("Category:A", &["Category:A"], vec![cat_sorted("Category:A", "key")]);
    assert!(!changed);
    assert_eq!(out, "[[Category:A|key]]");
}

#[test]
fn absent_reference_changes_nothing() {
    let nodes = vec![
        cat("Category:Other"),
        template(REDIRECTS, vec![param("1", "Category:Other")]),
        template(IMAGE, vec![param("cat", "Other")]),
        text("\n"),
    ];
    let mut doc = Document { nodes };
    let before = render(&doc);
    let list = category_replacers(
        "Category:Xの画像提供依頼".to_string(),
        strings(&["Category:Yの画像提供依頼"]),
    );
    assert_eq!(list.rules.len(), 3);
    assert_eq!(get_category_replacers("Category:X".to_string(), Vec::new()).replacers.rules.len(), 2);
    assert!(!list.replace_all(&mut doc));
    assert_eq!(render(&doc), before);
}

fn redirect_replace(from: &str, to: &[&str], nodes: Vec<Node>) -> (String, bool) {
    let mut doc = Document { nodes };
    let r = CategoryOfRedirectsReplacer::new(from.to_string(), strings(to));
    let changed = r.replace(&mut doc);
    (render(&doc), changed)
}

#[test]
fn test_replace_redirect_category_simple() {
    let (out, changed) = redirect_replace(
        "Category:Name1",
        &["Category:Name2"],
        vec![template(REDIRECTS, vec![param("1", "Category:Name1")]), text("\n")],
    );
    assert!(changed);
    assert_eq!(out, "{{リダイレクトの所属カテゴリ|Category:Name2}}\n");
}

#[test]
fn test_replace_redirect_category_simple_multiline() {
    let (out, changed) = redirect_replace(
        "Category:Name1",
        &["Category:Name2", "Category:Name3"],
        vec![template(REDIRECTS, vec![param("1", "Category:Name1")]), text("\n")],
    );
    assert!(changed);
    assert_eq!(out, "{{リダイレクトの所属カテゴリ|Category:Name2|Category:Name3}}\n");
}

#[test]
fn test_remove_redirect_category_simple() {
    let (out, changed) = redirect_replace(
        "Category:Name1",
        &[],
        vec![template(REDIRECTS, vec![param("1", "Category:Name1")]), text("\n")],
    );
    assert!(changed);
    assert_eq!(out, "\n");
}

#[test]
fn positional_keeps_other_keys_first() {
    let params = vec![param("1", "A"), param("collapse", "yes"), param("2", "B")];
    match replace_internal_single(&params, "A", &strings(&["C", "B"])) {
        Edit::Rewrite(ps) => {
            let kv: Vec<(String, String)> = ps.into_iter().map(|p| (p.key, p.value)).collect();
            assert_eq!(
                kv,
                vec![
                    ("collapse".to_string(), "yes".to_string()),
                    ("1".to_string(), "C".to_string()),
                    ("2".to_string(), "B".to_string()),
                ]
            );
        }
        _ => panic!("expected a rewrite"),
    }
}

fn complex_params() -> Vec<Param> {
    vec![
        param("redirect1", "リダイレクト1"),
        param("1-1", "アニメ作品 こ"),
        param("1-2", "フジテレビ系アニメ"),
        param("redirect2", "リダイレクト2"),
        param("2-1", "テスト"),
    ]
}

#[test]
fn grouped_replace_keeps_target_order() {
    let (out, changed) = redirect_replace(
        "Category:アニメ作品 こ",
        &["Category:アニメ作品 ほげ", "Category:アニメ作品 ふが"],
        vec![template(REDIRECTS, complex_params()), text("\n")],
    );
    assert!(changed);
    assert_eq!(
        out,
        "{{リダイレクトの所属カテゴリ|redirect1=リダイレクト1|1-1=アニメ作品 ほげ|1-2=アニメ作品 ふが|1-3=フジテレビ系アニメ|redirect2=リダイレクト2|2-1=テスト}}\n"
    );
}

#[test]
fn grouped_untouched_group_keeps_its_keys() {
    let params = vec![
        param("redirect1", "R1"),
        param("1-1", "A"),
        param("1-3", "B"),
        param("redirect2", "R2"),
        param("2-1", "X"),
    ];
    let (out, changed) = redirect_replace("Category:X", &["Category:Y"], vec![template(REDIRECTS, params)]);
    assert!(changed);
    assert_eq!(out, "{{リダイレクトの所属カテゴリ|redirect1=R1|1-1=A|1-3=B|redirect2=R2|2-1=Y}}");
}

#[test]
fn test_remove_redirect_category_complex_one() {
    let params = vec![
        param("redirect1", "リダイレクト1"),
        param("1-1", "アニメ作品 こ"),
        param("1-2", "アニメ作品 ほげ"),
    ];
    let (out, changed) = redirect_replace(
        "Category:アニメ作品 こ",
        &[],
        vec![template(REDIRECTS, params), text("\n")],
    );
    assert!(changed);
    assert_eq!(out, "{{リダイレクトの所属カテゴリ|redirect1=リダイレクト1|1-1=アニメ作品 ほげ}}\n");
}

#[test]
fn test_remove_redirect_category_complex_all() {
    let params = vec![param("redirect1", "リダイレクト1"), param("1-1", "アニメ作品 こ")];
    assert!(matches!(
        replace_internal_complex(&params, "Category:アニメ作品 こ", &Vec::new()),
        Edit::Remove
    ));
}

#[test]
fn test_regression_1() {
    let params = vec![
        param("redirect", "東京ミュウミュウ にゅ〜♡"),
        param("1", "2022年のテレビアニメ"),
        param("2", "2023年のテレビアニメ"),
        param("3", "ゆめ太カンパニーのアニメ作品"),
        param("4", "グラフィニカのアニメ作品"),
        param("5", "ポニーキャニオンのアニメ作品"),
        param("6", "テレビ東京の深夜アニメ"),
        param("7", "電通のアニメ作品"),
    ];
    let (_, changed) = redirect_replace(
        "Category:ネコ",
        &["Category:猫"],
        vec![template(REDIRECTS, params), text("\n")],
    );
    assert!(!changed);
}

fn image_doc(cats: &[(&str, &str)]) -> Vec<Node> {
    let mut params = vec![param("1", "各施設外観"), param("date", "2017年7月")];
    for (k, v) in cats {
        params.push(param(k, v));
    }
    vec![template(IMAGE, params), text("\n")]
}

fn image_replace(from: &str, to: &[&str], nodes: Vec<Node>) -> (String, bool) {
    let mut doc = Document { nodes };
    let r = ImageRequestedReplacer::new(from.to_string(), strings(to)).expect("suffixes match");
    let changed = r.replace(&mut doc);
    (render(&doc), changed)
}

#[test]
fn image_requested_test_replace() {
    let (out, changed) = image_replace(
        "Category:伊達市 (北海道)の画像提供依頼",
        &["Category:北海道伊達市の画像提供依頼"],
        image_doc(&[("cat", "伊達市 (北海道)")]),
    );
    assert!(changed);
    assert_eq!(out, "{{画像提供依頼|各施設外観|date=2017年7月|cat=北海道伊達市}}\n");
}

#[test]
fn image_requested_test_add() {
    let (out, changed) = image_replace(
        "Category:伊達市 (北海道)の画像提供依頼",
        &["Category:北海道伊達市の画像提供依頼", "Category:北海道の画像提供依頼"],
        image_doc(&[("cat", "伊達市 (北海道)")]),
    );
    assert!(changed);
    assert_eq!(out, "{{画像提供依頼|各施設外観|date=2017年7月|cat=北海道伊達市|cat2=北海道}}\n");
}

#[test]
fn image_requested_test_duplicate() {
    let (out, changed) = image_replace(
        "Category:北海道伊達市の画像提供依頼",
        &["Category:北海道伊達市の画像提供依頼", "Category:北海道の画像提供依頼"],
        image_doc(&[("cat", "北海道伊達市")]),
    );
    assert!(changed);
    assert_eq!(out, "{{画像提供依頼|各施設外観|date=2017年7月|cat=北海道伊達市|cat2=北海道}}\n");
}

#[test]
fn image_requested_test_remove() {
    let (out, changed) = image_replace(
        "Category:伊達市 (北海道)の画像提供依頼",
        &[],
        image_doc(&[("cat", "伊達市 (北海道)")]),
    );
    assert!(changed);
    assert_eq!(out, "{{画像提供依頼|各施設外観|date=2017年7月}}\n");
}

#[test]
fn image_rule_needs_the_suffix() {
    assert!(ImageRequestedReplacer::new("Category:A".to_string(), Vec::new()).is_none());
    assert!(ImageRequestedReplacer::new(
        "Category:Aの画像提供依頼".to_string(),
        strings(&["Category:B"])
    )
    .is_none());
    let r = ImageRequestedReplacer::new(
        "Category:Aの画像提供依頼".to_string(),
        strings(&["Category:Bの画像提供依頼"]),
    )
    .expect("suffixes match");
    assert_eq!(r.from, "A");
    assert_eq!(r.to, strings(&["B"]));
}

#[test]
fn test_nested_template() {
    let fields = [
        ("国", "日本"),
        ("学校名", "伊達赤十字看護専門学校"),
        ("ふりがな", "だてせきじゅうじかんごせんもんがっこう"),
        ("英称", "The Japanese Red Cross <br />Date School of Nursing"),
        ("学校の略称", ""),
        ("画像", "{{画像募集中|cat=伊達市 (北海道)}}"),
        ("画像説明", ""),
        ("学校設置年", ""),
        ("創立年", "[[1944年]]（[[昭和]]19年）4月"),
        ("学校種別", "私立"),
        ("設置者", "日本赤十字社 社長<br />代理 日本赤十字社 北海道支部長（[[北海道知事]]）"),
        ("郵便番号", "052-0021"),
        ("本部所在地", "北海道伊達市末永町81-12"),
        ("緯度度", ""),
        ("経度度", ""),
        ("学科", "[[看護学科]] 3年制"),
        ("ウェブサイト", "[http://www6.ocn.ne.jp/~datekan/ 公式サイト]"),
    ];
    let outer: Vec<Param> = fields
        .iter()
        .map(|(k, v)| Param {
            key: k.to_string(),
            value: v.to_string(),
            parsed: if *k == "画像" { Some(0) } else { None },
            rewritten: None,
        })
        .collect();
    let inner = Document {
        nodes: vec![template("Template:画像募集中", vec![param("cat", "伊達市 (北海道)")])],
    };
    let mut doc = Document { nodes: vec![template("Template:専修学校", outer), text("\n")] };
    let (changed, rewritten) = replace_category(
        &mut doc,
        &vec![inner],
        "Category:伊達市 (北海道)の画像提供依頼".to_string(),
        strings(&["Category:北海道伊達市の画像提供依頼"]),
    );
    assert!(changed);
    assert_eq!(rewritten.len(), 1);
    assert_eq!(render(&rewritten[0]), "{{画像募集中|cat=北海道伊達市}}");
    let Node::Template(t) = &doc.nodes[0] else { panic!("template expected") };
    assert_eq!(t.params.len(), fields.len());
    for (p, (k, v)) in t.params.iter().zip(fields.iter()) {
        assert_eq!(p.key, *k);
        assert_eq!(p.value, *v);
        assert_eq!(p.rewritten, if *k == "画像" { Some(0) } else { None });
    }
}

#[test]
fn unparsed_parameter_is_left_alone() {
    let outer = vec![Param {
        key: "画像".to_string(),
        value: "{{画像募集中|cat=伊達市 (北海道)}}".to_string(),
        parsed: Some(5),
        rewritten: None,
    }];
    let mut doc = Document { nodes: vec![template("Template:専修学校", outer)] };
    let rules = CategoryReplacerList {
        rules: vec![CategoryReplacer::Image(
            ImageRequestedReplacer::new(
                "Category:伊達市 (北海道)の画像提供依頼".to_string(),
                strings(&["Category:北海道伊達市の画像提供依頼"]),
            )
            .expect("suffixes match"),
        )],
    };
    let r = RecursionReplacer::new(rules);
    let (changed, rewritten) = r.replace(&mut doc, &Vec::new());
    assert!(!changed);
    assert!(rewritten.is_empty());
    assert_eq!(render(&doc), "{{専修学校|画像={{画像募集中|cat=伊達市 (北海道)}}}}");
}
