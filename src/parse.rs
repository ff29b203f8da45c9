//! Commands as operators write them in a section heading, e.g.
//! `Bot: [[:Category:A]]を[[:Category:B]]と[[:Category:C]]へ`.
//!
//! The heading arrives as the sequence of its nodes after the heading
//! element itself: a link is followed by the text it displays.
use vstd::prelude::*;
use vstd::string::*;
use crate::category_of_redirects::{category_ns, CATEGORY_NS};
use crate::command::{Command, CommandType};
use crate::id::fresh_id;
use crate::splice::lemma_drop_last_take;
use crate::text::{has_prefix, lemma_strs_push, same_text, starts_with, strs};

verus! {

/// The largest number of target categories a command may name.
pub const TO_ITEMS_MAX_COUNT: usize = 5;

pub enum HeadingNode {
    Text(String),
    Link(String),
    Other,
}

pub enum HeadingNodeV {
    Text(Seq<char>),
    Link(Seq<char>),
    Other,
}

impl View for HeadingNode {
    type V = HeadingNodeV;

    open spec fn view(&self) -> HeadingNodeV {
        match self {
            HeadingNode::Text(t) => HeadingNodeV::Text(t@),
            HeadingNode::Link(t) => HeadingNodeV::Link(t@),
            HeadingNode::Other => HeadingNodeV::Other,
        }
    }
}

impl HeadingNode {
    pub fn copy(&self) -> (r: HeadingNode)
        ensures
            r@ == self@,
    {
        match self {
            HeadingNode::Text(t) => HeadingNode::Text(t.clone()),
            HeadingNode::Link(t) => HeadingNode::Link(t.clone()),
            HeadingNode::Other => HeadingNode::Other,
        }
    }
}

pub open spec fn heading_view(ns: Seq<HeadingNode>) -> Seq<HeadingNodeV> {
    ns.map_values(|n: HeadingNode| n@)
}

/// Unicode's White_Space characters.
pub open spec fn is_white_space(c: char) -> bool {
    ('\u{9}' <= c && c <= '\u{d}') || c == ' ' || c == '\u{85}' || c == '\u{a0}' || c == '\u{1680}'
        || ('\u{2000}' <= c && c <= '\u{200a}') || c == '\u{2028}' || c == '\u{2029}'
        || c == '\u{202f}' || c == '\u{205f}' || c == '\u{3000}'
}

pub open spec fn trim_start(s: Seq<char>) -> Seq<char>
    decreases s.len(),
{
    if s.len() > 0 && is_white_space(s[0]) { trim_start(s.skip(1)) } else { s }
}

pub open spec fn trim_end(s: Seq<char>) -> Seq<char>
    decreases s.len(),
{
    if s.len() > 0 && is_white_space(s.last()) { trim_end(s.drop_last()) } else { s }
}

/// `s` without leading and trailing white space.
pub open spec fn trimmed(s: Seq<char>) -> Seq<char> {
    trim_end(trim_start(s))
}

/// Relies on `str::trim`: the string without leading and trailing
/// characters of Unicode's White_Space property.
#[verifier::external_body]
fn trim_text(s: &str) -> (r: String)
    ensures
        r@ == trimmed(s@),
{
    s.trim().to_string()
}

/// The namespaces that a command prefix selects: articles and categories,
/// articles only, or categories only.
pub open spec fn prefix_namespaces(prefix: Seq<char>) -> Option<Seq<u32>> {
    let p = trimmed(prefix);
    if p == "Bot:"@ {
        Some(seq![0u32, 14u32])
    } else if p == "Bot: (記事)"@ {
        Some(seq![0u32])
    } else if p == "Bot: (カテゴリ)"@ {
        Some(seq![14u32])
    } else {
        None
    }
}

pub open spec fn is_category_link(n: HeadingNodeV) -> bool {
    n matches HeadingNodeV::Link(t) && has_prefix(t, category_ns())
}

pub open spec fn link_target(n: HeadingNodeV) -> Seq<char> {
    match n {
        HeadingNodeV::Link(t) => t,
        _ => Seq::empty(),
    }
}

pub open spec fn is_separator(n: HeadingNodeV, word: Seq<char>) -> bool {
    n matches HeadingNodeV::Text(t) && trimmed(t) == word
}

/// The targets after `を`: links in groups of three (link, its text, `と`),
/// the last group possibly without the `と`.
pub open spec fn to_list(ns: Seq<HeadingNodeV>) -> Option<Seq<Seq<char>>>
    decreases ns.len(),
{
    if ns.len() == 0 {
        Some(Seq::empty())
    } else if ns.len() < 3 {
        if is_category_link(ns[0]) { Some(seq![link_target(ns[0])]) } else { None }
    } else if is_category_link(ns[0]) && is_separator(ns[2], "と"@) {
        match to_list(ns.skip(3)) {
            Some(rest) => Some(seq![link_target(ns[0])] + rest),
            None => None,
        }
    } else {
        None
    }
}

/// The source and targets of a reassignment or duplication: between one
/// and five targets, each a category.
pub open spec fn from_to(ns: Seq<HeadingNodeV>) -> Option<(Seq<char>, Seq<Seq<char>>)> {
    if ns.len() >= 3 && is_category_link(ns[0]) && is_separator(ns[2], "を"@) {
        match to_list(ns.skip(3)) {
            Some(to) => if 1 <= to.len() <= TO_ITEMS_MAX_COUNT { Some((link_target(ns[0]), to)) } else { None },
            None => None,
        }
    } else {
        None
    }
}

/// The targets as a heading writes them: each a link and its text, joined
/// by `と`.
pub open spec fn target_chunks(ts: Seq<Seq<char>>) -> Seq<HeadingNodeV>
    decreases ts.len(),
{
    if ts.len() == 0 {
        Seq::empty()
    } else if ts.len() == 1 {
        seq![HeadingNodeV::Link(ts[0]), HeadingNodeV::Text(ts[0])]
    } else {
        seq![HeadingNodeV::Link(ts[0]), HeadingNodeV::Text(ts[0]), HeadingNodeV::Text("と"@)] + target_chunks(ts.skip(1))
    }
}

/// The nodes between a command's prefix and suffix: the source, `を`, the targets.
pub open spec fn command_nodes(from: Seq<char>, ts: Seq<Seq<char>>) -> Seq<HeadingNodeV> {
    seq![HeadingNodeV::Link(from), HeadingNodeV::Text(from), HeadingNodeV::Text("を"@)] + target_chunks(ts)
}

proof fn lemma_word_trimmed(w: Seq<char>)
    requires
        w.len() == 1,
        !is_white_space(w[0]),
    ensures
        trimmed(w) == w,
{
    assert(trim_start(w) == w);
    assert(w.last() == w[0]);
    assert(trim_end(w) == w);
}

proof fn lemma_target_chunks(ts: Seq<Seq<char>>)
    requires
        forall|k: int| 0 <= k < ts.len() ==> has_prefix(#[trigger] ts[k], category_ns()),
    ensures
        to_list(target_chunks(ts)) == Some(ts),
    decreases ts.len(),
{
    reveal_strlit("と");
    lemma_word_trimmed("と"@);
    if ts.len() == 0 {
        assert(to_list(target_chunks(ts)) == Some(Seq::<Seq<char>>::empty()));
        assert(ts =~= Seq::<Seq<char>>::empty());
    } else if ts.len() == 1 {
        assert(seq![ts[0]] =~= ts);
    } else {
        let ns = target_chunks(ts);
        assert(forall|k: int| 0 <= k < ts.skip(1).len() ==> #[trigger] ts.skip(1)[k] == ts[k + 1]);
        lemma_target_chunks(ts.skip(1));
        assert(ns.skip(3) =~= target_chunks(ts.skip(1)));
        assert(ns[0] == HeadingNodeV::Link(ts[0]));
        assert(ns[2] == HeadingNodeV::Text("と"@));
        assert(seq![ts[0]] + ts.skip(1) =~= ts);
    }
}

/// A reassignment or duplication names between one and five targets: a
/// heading whose source and targets are categories is accepted exactly when
/// it names that many, and then yields them.
pub proof fn lemma_target_count(from: Seq<char>, ts: Seq<Seq<char>>)
    requires
        has_prefix(from, category_ns()),
        forall|k: int| 0 <= k < ts.len() ==> has_prefix(#[trigger] ts[k], category_ns()),
    ensures
        from_to(command_nodes(from, ts)) == if 1 <= ts.len() <= TO_ITEMS_MAX_COUNT { Some((from, ts)) } else { None },
{
    reveal_strlit("を");
    lemma_word_trimmed("を"@);
    lemma_target_chunks(ts);
    let ns = command_nodes(from, ts);
    assert(ns.skip(3) =~= target_chunks(ts));
    assert(ns[0] == HeadingNodeV::Link(from));
    assert(ns[2] == HeadingNodeV::Text("を"@));
}

/// The namespaces of a command prefix.
pub fn parse_prefix_namespaces(prefix: &str) -> (r: Option<Vec<u32>>)
    ensures
        match r {
            Some(v) => prefix_namespaces(prefix@) == Some(v@),
            None => prefix_namespaces(prefix@) is None,
        },
{
    let p = trim_text(prefix);
    let all = "Bot:";
    let articles = "Bot: (記事)";
    let categories = "Bot: (カテゴリ)";
    if same_text(p.as_str(), all) {
        Some(vec![0u32, 14u32])
    } else if same_text(p.as_str(), articles) {
        Some(vec![0u32])
    } else if same_text(p.as_str(), categories) {
        Some(vec![14u32])
    } else {
        None
    }
}

fn category_link(n: &HeadingNode) -> (r: Option<String>)
    ensures
        match r {
            Some(t) => is_category_link(n@) && t@ == link_target(n@),
            None => !is_category_link(n@),
        },
{
    let ns = CATEGORY_NS;
    proof {
        reveal_strlit("Category:");
    }
    assert(ns@ =~= category_ns());
    match n {
        HeadingNode::Link(t) => if starts_with(t.as_str(), ns) { Some(t.clone()) } else { None },
        _ => None,
    }
}

fn separator(n: &HeadingNode, word: &str) -> (r: bool)
    ensures
        r == is_separator(n@, word@),
{
    match n {
        HeadingNode::Text(t) => {
            let s = trim_text(t.as_str());
            same_text(s.as_str(), word)
        },
        _ => false,
    }
}

fn targets(ns: &Vec<HeadingNode>, start: usize) -> (r: Option<Vec<String>>)
    requires
        start <= ns.len(),
    ensures
        match r {
            Some(v) => to_list(heading_view(ns@).skip(start as int)) == Some(strs(v@)),
            None => to_list(heading_view(ns@).skip(start as int)) is None,
        },
    decreases ns.len() - start,
{
    let ghost rest = heading_view(ns@).skip(start as int);
    let n = ns.len() - start;
    if n == 0 {
        let v: Vec<String> = Vec::new();
        assert(strs(v@) =~= Seq::<Seq<char>>::empty());
        return Some(v);
    }
    assert(rest[0] == ns@[start as int]@);
    let first = match category_link(&ns[start]) {
        Some(t) => t,
        None => {
            return None;
        },
    };
    if n < 3 {
        let v = vec![first];
        assert(strs(v@) =~= seq![link_target(rest[0])]);
        return Some(v);
    }
    assert(rest[2] == ns@[start + 2]@);
    if !separator(&ns[start + 2], "と") {
        return None;
    }
    assert(rest.skip(3) =~= heading_view(ns@).skip(start + 3));
    match targets(ns, start + 3) {
        Some(more) => {
            let mut v = vec![first];
            let mut m = more;
            let ghost mv = strs(m@);
            v.append(&mut m);
            assert(strs(v@) =~= seq![link_target(rest[0])] + mv);
            Some(v)
        },
        None => None,
    }
}

/// The source and targets of a reassignment or duplication, or `None`
/// where the nodes do not spell one (including with no target or with more
/// than [`TO_ITEMS_MAX_COUNT`]).
pub fn collect_from_to(nodes: &Vec<HeadingNode>) -> (r: Option<(String, Vec<String>)>)
    ensures
        match r {
            Some((f, to)) => from_to(heading_view(nodes@)) == Some((f@, strs(to@))),
            None => from_to(heading_view(nodes@)) is None,
        },
        r matches Some((_, to)) ==> 1 <= to.len() <= TO_ITEMS_MAX_COUNT,
{
    let ghost ns = heading_view(nodes@);
    if nodes.len() < 3 {
        return None;
    }
    assert(ns[0] == nodes@[0]@);
    assert(ns[2] == nodes@[2]@);
    let from = match category_link(&nodes[0]) {
        Some(t) => t,
        None => {
            return None;
        },
    };
    if !separator(&nodes[2], "を") {
        return None;
    }
    let to = match targets(nodes, 3) {
        Some(v) => v,
        None => {
            return None;
        },
    };
    if to.len() == 0 || to.len() > TO_ITEMS_MAX_COUNT {
        return None;
    }
    Some((from, to))
}

/// Why a heading could not be read as a command.
#[derive(Debug, PartialEq, Eq)]
pub enum ParseError {
    MissingPrefix,
    PrefixNotText,
    MissingSuffix,
    SuffixNotText,
    MissingDiscussionLink,
}

/// A heading taken apart: its first and last texts, the nodes between
/// them, and the link to the discussion.
pub struct Parser {
    pub prefix: String,
    pub suffix: String,
    pub nodes: Vec<HeadingNode>,
    pub discussion_link: String,
    pub dry_run: bool,
}

/// The first link target that is not a category.
pub open spec fn discussion_of(links: Seq<Seq<char>>) -> Option<Seq<char>>
    decreases links.len(),
{
    if links.len() == 0 {
        None
    } else {
        match discussion_of(links.drop_last()) {
            Some(l) => Some(l),
            None => if !has_prefix(links.last(), category_ns()) { Some(links.last()) } else { None },
        }
    }
}

/// The middle nodes of a heading: all but the first and the last.
pub open spec fn middle(ns: Seq<HeadingNodeV>) -> Seq<HeadingNodeV> {
    ns.subrange(1, ns.len() - 1)
}

impl Parser {
    /// Takes the heading nodes and the section's link targets apart.
    pub fn new(nodes: Vec<HeadingNode>, links: &Vec<String>, dry_run: bool) -> (r: Result<Parser, ParseError>)
        ensures
            nodes.len() == 0 ==> r == Err::<Parser, ParseError>(ParseError::MissingPrefix),
            nodes.len() > 0 && !(nodes@[0]@ is Text) ==> r == Err::<Parser, ParseError>(ParseError::PrefixNotText),
            nodes.len() > 0 && nodes@[0]@ is Text && !(nodes@.last()@ is Text) ==> r == Err::<Parser, ParseError>(ParseError::SuffixNotText),
            nodes.len() > 0 && nodes@[0]@ is Text && nodes@.last()@ is Text && discussion_of(strs(links@)) is None
                ==> r == Err::<Parser, ParseError>(ParseError::MissingDiscussionLink),
            r is Ok <==> nodes.len() > 0 && nodes@[0]@ is Text && nodes@.last()@ is Text && discussion_of(strs(links@)) is Some,
            r matches Ok(p) ==> nodes.len() > 0 && heading_view(p.nodes@) == heading_view(nodes@)
                && HeadingNodeV::Text(p.prefix@) == nodes@[0]@
                && HeadingNodeV::Text(p.suffix@) == nodes@.last()@
                && discussion_of(strs(links@)) == Some(p.discussion_link@)
                && p.dry_run == dry_run,
    {
        if nodes.len() == 0 {
            return Err(ParseError::MissingPrefix);
        }
        let prefix = match &nodes[0] {
            HeadingNode::Text(t) => t.clone(),
            _ => {
                return Err(ParseError::PrefixNotText);
            },
        };
        let suffix = match &nodes[nodes.len() - 1] {
            HeadingNode::Text(t) => t.clone(),
            _ => {
                return Err(ParseError::SuffixNotText);
            },
        };
        let ns = CATEGORY_NS;
        proof {
            reveal_strlit("Category:");
        }
        assert(ns@ =~= category_ns());
        let ghost lv = strs(links@);
        let mut k: usize = 0;
        while k < links.len()
            invariant
                k <= links.len(),
                lv == strs(links@),
                ns@ == category_ns(),
                nodes.len() > 0,
                nodes@[0]@ == HeadingNodeV::Text(prefix@),
                nodes@.last()@ == HeadingNodeV::Text(suffix@),
                discussion_of(lv.take(k as int)) is None,
            decreases links.len() - k,
        {
            proof {
                lemma_drop_last_take(lv, k as int);
            }
            if !starts_with(links[k].as_str(), ns) {
                proof {
                    lemma_discussion_prefix(lv, k + 1);
                }
                let p = Parser { prefix, suffix, nodes, discussion_link: links[k].clone(), dry_run };
                return Ok(p);
            }
            k = k + 1;
        }
        assert(lv.take(links.len() as int) =~= lv);
        Err(ParseError::MissingDiscussionLink)
    }

    fn middle_nodes(&self) -> (r: Option<Vec<HeadingNode>>)
        ensures
            self.nodes.len() >= 2 ==> (r matches Some(v) && heading_view(v@) == middle(heading_view(self.nodes@))),
            self.nodes.len() < 2 ==> r is None,
    {
        if self.nodes.len() < 2 {
            return None;
        }
        let ghost hv = heading_view(self.nodes@);
        let mut out: Vec<HeadingNode> = Vec::new();
        let mut k: usize = 1;
        while k < self.nodes.len() - 1
            invariant
                1 <= k <= self.nodes.len() - 1,
                self.nodes.len() >= 2,
                hv == heading_view(self.nodes@),
                heading_view(out@) == hv.subrange(1, k as int),
            decreases self.nodes.len() - 1 - k,
        {
            let n = self.nodes[k].copy();
            let ghost before = out@;
            let ghost nv = n@;
            out.push(n);
            assert(heading_view(out@) =~= heading_view(before).push(nv));
            assert(heading_view(out@) =~= hv.subrange(1, k + 1));
            k = k + 1;
        }
        Some(out)
    }

    /// A reassignment: `...を...へ`.
    pub fn parse_reassignment(&self) -> (r: Option<Command>)
        ensures
            r is Some <==> prefix_namespaces(self.prefix@) is Some && self.suffix@ == "へ"@
                && self.nodes.len() >= 2 && from_to(middle(heading_view(self.nodes@))) is Some,
            r matches Some(c) ==> c.command_type == CommandType::Reassignment
                && 1 <= c.to.len() <= TO_ITEMS_MAX_COUNT
                && Some(c.namespaces@) == prefix_namespaces(self.prefix@)
                && from_to(middle(heading_view(self.nodes@))) == Some((c.from@, strs(c.to@)))
                && c.discussion_link@ == self.discussion_link@ && c.dry_run == self.dry_run,
    {
        let namespaces = parse_prefix_namespaces(self.prefix.as_str())?;
        if !same_text(self.suffix.as_str(), "へ") {
            return None;
        }
        let mid = match self.middle_nodes() {
            Some(m) => m,
            None => {
                return None;
            },
        };
        let (from, to) = match collect_from_to(&mid) {
            Some(x) => x,
            None => {
                return None;
            },
        };
        Some(Command {
            dry_run: self.dry_run,
            id: fresh_id(),
            from,
            to,
            discussion_link: self.discussion_link.clone(),
            namespaces,
            command_type: CommandType::Reassignment,
        })
    }

    /// A duplication: `...を...に複製`; the source stays among the targets, last.
    pub fn parse_duplicate(&self) -> (r: Option<Command>)
        ensures
            r is Some <==> prefix_namespaces(self.prefix@) is Some && self.suffix@ == "に複製"@
                && self.nodes.len() >= 2 && from_to(middle(heading_view(self.nodes@))) is Some,
            r matches Some(c) ==> c.command_type == CommandType::Duplicate
                && 2 <= c.to.len() <= TO_ITEMS_MAX_COUNT + 1
                && Some(c.namespaces@) == prefix_namespaces(self.prefix@)
                && from_to(middle(heading_view(self.nodes@))) == Some((c.from@, strs(c.to@).drop_last()))
                && strs(c.to@).last() == c.from@
                && c.discussion_link@ == self.discussion_link@ && c.dry_run == self.dry_run,
    {
        let namespaces = parse_prefix_namespaces(self.prefix.as_str())?;
        if !same_text(self.suffix.as_str(), "に複製") {
            return None;
        }
        let mid = match self.middle_nodes() {
            Some(m) => m,
            None => {
                return None;
            },
        };
        let (source, mut dest) = match collect_from_to(&mid) {
            Some(x) => x,
            None => {
                return None;
            },
        };
        let ghost dv = strs(dest@);
        proof {
            lemma_strs_push(dest@, source);
        }
        dest.push(source.clone());
        assert(strs(dest@).drop_last() =~= dv);
        Some(Command {
            dry_run: self.dry_run,
            id: fresh_id(),
            from: source,
            to: dest,
            discussion_link: self.discussion_link.clone(),
            namespaces,
            command_type: CommandType::Duplicate,
        })
    }

    /// A removal: `...を除去`.
    pub fn parse_remove(&self) -> (r: Option<Command>)
        ensures
            r is Some <==> prefix_namespaces(self.prefix@) is Some && self.suffix@ == "を除去"@
                && self.nodes.len() >= 3 && is_category_link(heading_view(self.nodes@)[1]),
            r matches Some(c) ==> c.command_type == CommandType::Remove
                && Some(c.namespaces@) == prefix_namespaces(self.prefix@)
                && c.from@ == link_target(heading_view(self.nodes@)[1]) && c.to@.len() == 0
                && c.discussion_link@ == self.discussion_link@ && c.dry_run == self.dry_run,
    {
        let namespaces = parse_prefix_namespaces(self.prefix.as_str())?;
        if !same_text(self.suffix.as_str(), "を除去") {
            return None;
        }
        let mid = match self.middle_nodes() {
            Some(m) => m,
            None => {
                return None;
            },
        };
        assert(heading_view(mid@).len() == mid@.len());
        if mid.len() == 0 {
            return None;
        }
        assert(heading_view(mid@)[0] == heading_view(self.nodes@)[1]);
        assert(heading_view(mid@)[0] == mid@[0]@);
        let category = match category_link(&mid[0]) {
            Some(c) => c,
            None => {
                return None;
            },
        };
        Some(Command {
            dry_run: self.dry_run,
            id: fresh_id(),
            from: category,
            to: Vec::new(),
            discussion_link: self.discussion_link.clone(),
            namespaces,
            command_type: CommandType::Remove,
        })
    }

    /// The command the heading spells, trying reassignment, duplication and
    /// removal in turn.
    pub fn parse(self) -> (r: Option<Command>)
        ensures
            r is Some <==> prefix_namespaces(self.prefix@) is Some && (
                (self.suffix@ == "へ"@ && self.nodes.len() >= 2 && from_to(middle(heading_view(self.nodes@))) is Some)
                || (self.suffix@ == "に複製"@ && self.nodes.len() >= 2 && from_to(middle(heading_view(self.nodes@))) is Some)
                || (self.suffix@ == "を除去"@ && self.nodes.len() >= 3 && is_category_link(heading_view(self.nodes@)[1]))),
            r matches Some(c) ==> c.discussion_link@ == self.discussion_link@ && c.dry_run == self.dry_run
                && Some(c.namespaces@) == prefix_namespaces(self.prefix@),
            r matches Some(c) ==> (c.command_type == CommandType::Reassignment <==> self.suffix@ == "へ"@)
                && (c.command_type == CommandType::Duplicate <==> self.suffix@ == "に複製"@)
                && (c.command_type == CommandType::Remove <==> self.suffix@ == "を除去"@),
            r matches Some(c) ==> (c.command_type == CommandType::Reassignment ==> 1 <= c.to.len() <= TO_ITEMS_MAX_COUNT
                && from_to(middle(heading_view(self.nodes@))) == Some((c.from@, strs(c.to@)))),
            r matches Some(c) ==> (c.command_type == CommandType::Duplicate ==> 2 <= c.to.len() <= TO_ITEMS_MAX_COUNT + 1
                && from_to(middle(heading_view(self.nodes@))) == Some((c.from@, strs(c.to@).drop_last()))
                && strs(c.to@).last() == c.from@),
            r matches Some(c) ==> (c.command_type == CommandType::Remove ==> c.to@.len() == 0
                && c.from@ == link_target(heading_view(self.nodes@)[1])),
    {
        proof {
            reveal_strlit("へ");
            reveal_strlit("に複製");
            reveal_strlit("を除去");
            assert("へ"@.len() == 1);
            assert("に複製"@.len() == 3);
            assert("を除去"@.len() == 3);
            assert("に複製"@[0] != "を除去"@[0]);
        }
        match self.parse_reassignment() {
            Some(c) => Some(c),
            None => match self.parse_duplicate() {
                Some(c) => Some(c),
                None => self.parse_remove(),
            },
        }
    }
}

pub proof fn lemma_discussion_prefix(l: Seq<Seq<char>>, n: int)
    requires
        0 <= n <= l.len(),
        discussion_of(l.take(n)) is Some,
    ensures
        discussion_of(l) == discussion_of(l.take(n)),
    decreases l.len(),
{
    if l.len() == n {
        assert(l.take(n) =~= l);
    } else {
        assert(l.drop_last().take(n) =~= l.take(n));
        lemma_discussion_prefix(l.drop_last(), n);
    }
}

} // verus!
