//! Rewriting direct category tags (`[[Category:Example]]`).
use vstd::prelude::*;
use crate::document::{
    copy_text, lemma_nodes_insert, lemma_nodes_remove, nodes_view, opt_view, CategoryTag, CategoryTagV, Document,
    Node, NodeV,
};
use crate::splice::{contains_text, fresh, fresh_targets, lemma_drop_last_take, lemma_fresh, lemma_fresh_filter};
use crate::text::{lemma_strs_push, same_text, strs};

verus! {

/// The names of the category tags among `ns`, in order.
pub open spec fn cat_names(ns: Seq<NodeV>) -> Seq<Seq<char>>
    decreases ns.len(),
{
    if ns.len() == 0 {
        Seq::empty()
    } else {
        match ns.last() {
            NodeV::Category(c) => cat_names(ns.drop_last()).push(c.name),
            _ => cat_names(ns.drop_last()),
        }
    }
}

pub open spec fn is_tag_of(n: NodeV, name: Seq<char>) -> bool {
    n matches NodeV::Category(c) && c.name == name
}

/// Index of the first tag of category `name` among `ns`, or -1.
pub open spec fn tag_position(ns: Seq<NodeV>, name: Seq<char>) -> int
    decreases ns.len(),
{
    if ns.len() == 0 {
        -1
    } else {
        let p = tag_position(ns.drop_last(), name);
        if p >= 0 {
            p
        } else if is_tag_of(ns.last(), name) {
            ns.len() - 1
        } else {
            -1
        }
    }
}

pub open spec fn sort_key_of(n: NodeV) -> Option<Seq<char>> {
    match n {
        NodeV::Category(c) => c.sort_key,
        _ => None,
    }
}

/// The tag written for target `t` when `from`'s tag (with sort key `sk`)
/// is replaced: only a tag of `from` itself keeps the sort key.
pub open spec fn new_tag(t: Seq<char>, from: Seq<char>, sk: Option<Seq<char>>) -> NodeV {
    NodeV::Category(CategoryTagV { name: t, sort_key: if t == from { sk } else { None }, origin: None })
}

pub open spec fn new_tags(ts: Seq<Seq<char>>, from: Seq<char>, sk: Option<Seq<char>>) -> Seq<NodeV> {
    ts.map_values(|t: Seq<char>| new_tag(t, from, sk))
}

/// Whether every target already has a tag in `ns` and `from` is one of them:
/// then there is nothing to do.
pub open spec fn already_done(ns: Seq<NodeV>, from: Seq<char>, to: Seq<Seq<char>>) -> bool {
    to.contains(from) && forall|j: int| 0 <= j < to.len() ==> cat_names(ns).contains(#[trigger] to[j])
}

/// The category-tag rule on the nodes `ns`: `None` where it has nothing to
/// do, else the rewritten nodes. The first tag of `from` is taken out and the
/// targets that have no tag elsewhere take its place, in order.
pub open spec fn tag_rule(ns: Seq<NodeV>, from: Seq<char>, to: Seq<Seq<char>>) -> Option<Seq<NodeV>> {
    let i = tag_position(ns, from);
    if already_done(ns, from, to) || i < 0 {
        None
    } else {
        let rest = ns.remove(i);
        let ins = fresh(to, cat_names(rest));
        Some(rest.take(i) + new_tags(ins, from, sort_key_of(ns[i])) + rest.skip(i))
    }
}

pub proof fn lemma_tag_position(ns: Seq<NodeV>, name: Seq<char>)
    ensures
        -1 <= tag_position(ns, name) < ns.len(),
        tag_position(ns, name) >= 0 ==> is_tag_of(ns[tag_position(ns, name)], name),
        tag_position(ns, name) == -1 ==> forall|j: int| 0 <= j < ns.len() ==> !is_tag_of(#[trigger] ns[j], name),
    decreases ns.len(),
{
    if ns.len() > 0 {
        lemma_tag_position(ns.drop_last(), name);
        assert forall|j: int| 0 <= j < ns.len() - 1 implies ns.drop_last()[j] == #[trigger] ns[j] by {}
    }
}

pub proof fn lemma_tag_position_prefix(ns: Seq<NodeV>, n: int, name: Seq<char>)
    requires
        0 <= n <= ns.len(),
        tag_position(ns.take(n), name) >= 0,
    ensures
        tag_position(ns, name) == tag_position(ns.take(n), name),
    decreases ns.len(),
{
    if ns.len() == n {
        assert(ns.take(n) =~= ns);
    } else {
        assert(ns.drop_last().take(n) =~= ns.take(n));
        lemma_tag_position_prefix(ns.drop_last(), n, name);
    }
}

/// The names of the category tags of `nodes`.
pub fn category_names(nodes: &Vec<Node>) -> (r: Vec<String>)
    ensures
        strs(r@) == cat_names(nodes_view(nodes@)),
{
    let ghost ns = nodes_view(nodes@);
    let mut out: Vec<String> = Vec::new();
    let mut k: usize = 0;
    while k < nodes.len()
        invariant
            k <= nodes.len(),
            ns == nodes_view(nodes@),
            strs(out@) == cat_names(ns.take(k as int)),
        decreases nodes.len() - k,
    {
        proof {
            lemma_drop_last_take(ns, k as int);
        }
        match &nodes[k] {
            Node::Category(c) => {
                proof {
                    lemma_strs_push(out@, c.name);
                }
                out.push(c.name.clone());
            },
            _ => {},
        }
        k = k + 1;
    }
    assert(ns.take(nodes.len() as int) =~= ns);
    out
}

fn find_tag(nodes: &Vec<Node>, name: &str) -> (r: Option<usize>)
    ensures
        match r {
            Some(i) => tag_position(nodes_view(nodes@), name@) == i as int,
            None => tag_position(nodes_view(nodes@), name@) == -1,
        },
{
    let ghost ns = nodes_view(nodes@);
    let mut k: usize = 0;
    while k < nodes.len()
        invariant
            k <= nodes.len(),
            ns == nodes_view(nodes@),
            tag_position(ns.take(k as int), name@) == -1,
        decreases nodes.len() - k,
    {
        proof {
            lemma_drop_last_take(ns, k as int);
        }
        match &nodes[k] {
            Node::Category(c) => {
                if same_text(c.name.as_str(), name) {
                    proof {
                        lemma_tag_position_prefix(ns, k + 1, name@);
                    }
                    return Some(k);
                }
            },
            _ => {},
        }
        k = k + 1;
    }
    assert(ns.take(nodes.len() as int) =~= ns);
    None
}

/// Replaces the category tag of `from` by tags of the categories in `to`;
/// with an empty `to` the tag is removed.
pub struct CategoryTagReplacer {
    pub from: String,
    pub to: Vec<String>,
}

impl CategoryTagReplacer {
    pub fn new(from: String, to: Vec<String>) -> (r: CategoryTagReplacer)
        ensures
            r.from@ == from@,
            strs(r.to@) == strs(to@),
    {
        CategoryTagReplacer { from, to }
    }

    /// Applies the rule to `doc` in place; returns whether it changed.
    pub fn replace(&self, doc: &mut Document) -> (changed: bool)
        ensures
            changed == tag_rule(old(doc)@, self.from@, strs(self.to@)) is Some,
            final(doc)@ == match tag_rule(old(doc)@, self.from@, strs(self.to@)) {
                Some(ns) => ns,
                None => old(doc)@,
            },
    {
        let ghost ns = doc@;
        let ghost from = self.from@;
        let ghost to = strs(self.to@);
        let names = category_names(&doc.nodes);
        if contains_text(&self.to, self.from.as_str()) {
            let mut all = true;
            let mut j: usize = 0;
            while j < self.to.len()
                invariant
                    j <= self.to.len(),
                    to == strs(self.to@),
                    strs(names@) == cat_names(ns),
                    all == forall|m: int| 0 <= m < j ==> cat_names(ns).contains(#[trigger] to[m]),
                decreases self.to.len() - j,
            {
                assert(to[j as int] == self.to@[j as int]@);
                if !contains_text(&names, self.to[j].as_str()) {
                    all = false;
                }
                assert(all == forall|m: int| 0 <= m < j + 1 ==> cat_names(ns).contains(#[trigger] to[m]));
                j = j + 1;
            }
            if all {
                return false;
            }
        }
        assert(!already_done(ns, from, to));
        let found = find_tag(&doc.nodes, self.from.as_str());
        let i = match found {
            Some(i) => i,
            None => {
                return false;
            },
        };
        proof {
            lemma_tag_position(ns, from);
        }
        let sk = match &doc.nodes[i] {
            Node::Category(c) => copy_text(&c.sort_key),
            _ => None,
        };
        assert(opt_view(sk) == sort_key_of(ns[i as int]));
        proof {
            lemma_nodes_remove(doc.nodes@, i as int);
        }
        doc.nodes.remove(i);
        let ghost rest = doc@;
        let rest_names = category_names(&doc.nodes);
        let ins = fresh_targets(&self.to, &rest_names);
        let ghost tags = new_tags(strs(ins@), from, sort_key_of(ns[i as int]));
        let mut j: usize = 0;
        while j < ins.len()
            invariant
                j <= ins.len(),
                i <= rest.len(),
                rest.len() + j == doc.nodes.len(),
                tags == new_tags(strs(ins@), from, opt_view(sk)),
                from == self.from@,
                doc@ == rest.take(i as int) + tags.take(j as int) + rest.skip(i as int),
            decreases ins.len() - j,
        {
            let t = ins[j].clone();
            let same = same_text(t.as_str(), self.from.as_str());
            assert(same == (t@ == from));
            let key: Option<String> = if same { copy_text(&sk) } else { None };
            assert(same ==> opt_view(key) == opt_view(sk));
            assert(!same ==> opt_view(key) == None::<Seq<char>>);
            assert(strs(ins@)[j as int] == t@);
            let ghost tv = t@;
            let node = Node::Category(CategoryTag { name: t, sort_key: key, origin: None });
            assert(node@ == new_tag(tv, from, opt_view(sk)));
            assert(tags[j as int] == new_tag(strs(ins@)[j as int], from, opt_view(sk)));
            assert(node@ == tags[j as int]);
            proof {
                lemma_nodes_insert(doc.nodes@, (i + j) as int, node);
            }
            doc.nodes.insert(i + j, node);
            assert(doc@ =~= rest.take(i as int) + tags.take(j + 1) + rest.skip(i as int));
            j = j + 1;
        }
        assert(tags.take(ins.len() as int) =~= tags);
        true
    }
}

pub proof fn lemma_cat_names_absent(ns: Seq<NodeV>, name: Seq<char>)
    requires
        forall|j: int| 0 <= j < ns.len() ==> !is_tag_of(#[trigger] ns[j], name),
    ensures
        !cat_names(ns).contains(name),
    decreases ns.len(),
{
    if ns.len() > 0 {
        assert forall|j: int| 0 <= j < ns.drop_last().len() implies !is_tag_of(#[trigger] ns.drop_last()[j], name) by {
            assert(ns.drop_last()[j] == ns[j]);
        }
        lemma_cat_names_absent(ns.drop_last(), name);
        assert(!is_tag_of(ns[ns.len() - 1], name));
        let prev = cat_names(ns.drop_last());
        if cat_names(ns).contains(name) && cat_names(ns) != prev {
            let j = choose|j: int| 0 <= j < cat_names(ns).len() && cat_names(ns)[j] == name;
            if j < prev.len() {
                assert(prev[j] == name);
            }
        }
    }
}

pub proof fn lemma_cat_names_concat(a: Seq<NodeV>, b: Seq<NodeV>)
    ensures
        cat_names(a + b) == cat_names(a) + cat_names(b),
    decreases b.len(),
{
    if b.len() == 0 {
        assert(a + b =~= a);
        assert(cat_names(b) =~= Seq::<Seq<char>>::empty());
        assert(cat_names(a) + cat_names(b) =~= cat_names(a));
    } else {
        lemma_cat_names_concat(a, b.drop_last());
        assert((a + b).drop_last() =~= a + b.drop_last());
        assert((a + b).last() == b.last());
        match b.last() {
            NodeV::Category(c) => {
                assert(cat_names(a) + cat_names(b) =~= (cat_names(a) + cat_names(b.drop_last())).push(c.name));
            },
            _ => {},
        }
    }
}

pub proof fn lemma_cat_names_new_tags(ts: Seq<Seq<char>>, from: Seq<char>, sk: Option<Seq<char>>)
    ensures
        cat_names(new_tags(ts, from, sk)) == ts,
    decreases ts.len(),
{
    if ts.len() > 0 {
        lemma_cat_names_new_tags(ts.drop_last(), from, sk);
        assert(new_tags(ts, from, sk).drop_last() =~= new_tags(ts.drop_last(), from, sk));
        assert(ts.drop_last().push(ts.last()) =~= ts);
    } else {
        assert(new_tags(ts, from, sk) =~= Seq::<NodeV>::empty());
        assert(ts =~= Seq::<Seq<char>>::empty());
    }
}

/// Where the tag rule rewrites a page, the category names of the result are
/// those before `from`'s tag, then the targets not tagged elsewhere (in
/// `to`'s order), then those after it.
pub proof fn lemma_tag_names(ns: Seq<NodeV>, from: Seq<char>, to: Seq<Seq<char>>)
    ensures
        tag_rule(ns, from, to) matches Some(out) ==> {
            let i = tag_position(ns, from);
            let a = cat_names(ns.take(i));
            let b = cat_names(ns.skip(i + 1));
            cat_names(ns) == a + seq![from] + b && cat_names(out) == a + fresh(to, a + b) + b
        },
{
    let i = tag_position(ns, from);
    if let Some(out) = tag_rule(ns, from, to) {
        lemma_tag_position(ns, from);
        let rest = ns.remove(i);
        let ins = fresh(to, cat_names(rest));
        let tags = new_tags(ins, from, sort_key_of(ns[i]));
        let a = rest.take(i);
        let b = rest.skip(i);
        assert(a =~= ns.take(i));
        assert(b =~= ns.skip(i + 1));
        assert(ns =~= a + seq![ns[i]] + b);
        assert(rest =~= a + b);
        lemma_cat_names_concat(a + seq![ns[i]], b);
        lemma_cat_names_concat(a, seq![ns[i]]);
        lemma_cat_names_concat(a, b);
        lemma_cat_names_concat(a + tags, b);
        lemma_cat_names_concat(a, tags);
        lemma_cat_names_new_tags(ins, from, sort_key_of(ns[i]));
        let one = cat_names(seq![ns[i]]);
        assert(seq![ns[i]].drop_last() =~= Seq::<NodeV>::empty());
        assert(seq![ns[i]].last() == ns[i]);
        assert(cat_names(Seq::<NodeV>::empty()) == Seq::<Seq<char>>::empty());
        match ns[i] {
            NodeV::Category(c) => {
                assert(one == Seq::<Seq<char>>::empty().push(c.name));
            },
            _ => {},
        }
        assert(one =~= seq![from]);
    }
}

/// Duplicating (or moving) a page's one tag of `from` where some target is
/// not tagged yet: the tag's place takes, in `to`'s order, every target not
/// tagged elsewhere; `from` is among them and alone keeps the sort key.
pub proof fn lemma_duplicate_general(ns: Seq<NodeV>, from: Seq<char>, to: Seq<Seq<char>>, missing: Seq<char>)
    requires
        tag_position(ns, from) >= 0,
        !(cat_names(ns.take(tag_position(ns, from))) + cat_names(ns.skip(tag_position(ns, from) + 1))).contains(from),
        to.contains(from),
        to.no_duplicates(),
        to.contains(missing),
        !cat_names(ns).contains(missing),
    ensures
        ({
            let i = tag_position(ns, from);
            let a = cat_names(ns.take(i));
            let b = cat_names(ns.skip(i + 1));
            let ins = to.filter(|t: Seq<char>| !(a + b).contains(t));
            &&& tag_rule(ns, from, to) == Some(ns.take(i) + new_tags(ins, from, sort_key_of(ns[i])) + ns.skip(i + 1))
            &&& ins.contains(from)
            &&& cat_names(tag_rule(ns, from, to)->0) == a + ins + b
        }),
{
    let i = tag_position(ns, from);
    lemma_tag_position(ns, from);
    let j = choose|j: int| 0 <= j < to.len() && to[j] == missing;
    assert(!already_done(ns, from, to));
    lemma_tag_names(ns, from, to);
    let a = cat_names(ns.take(i));
    let b = cat_names(ns.skip(i + 1));
    let rest = ns.remove(i);
    assert(rest =~= ns.take(i) + ns.skip(i + 1));
    lemma_cat_names_concat(ns.take(i), ns.skip(i + 1));
    assert(rest.take(i) =~= ns.take(i));
    assert(rest.skip(i) =~= ns.skip(i + 1));
    lemma_fresh_filter(to, a + b);
    lemma_fresh(to, a + b);
}

/// The tag rule never gives a page two tags of one category: where the
/// page had none twice, the rewritten page has none twice either.
pub proof fn lemma_tags_stay_distinct(ns: Seq<NodeV>, from: Seq<char>, to: Seq<Seq<char>>)
    requires
        cat_names(ns).no_duplicates(),
    ensures
        tag_rule(ns, from, to) matches Some(out) ==> cat_names(out).no_duplicates(),
{
    let i = tag_position(ns, from);
    if let Some(out) = tag_rule(ns, from, to) {
        lemma_tag_position(ns, from);
        let rest = ns.remove(i);
        let ins = fresh(to, cat_names(rest));
        let tags = new_tags(ins, from, sort_key_of(ns[i]));
        let a = rest.take(i);
        let b = rest.skip(i);
        assert(ns =~= a + seq![ns[i]] + b);
        assert(rest =~= a + b);
        lemma_cat_names_concat(a + seq![ns[i]], b);
        lemma_cat_names_concat(a, seq![ns[i]]);
        lemma_cat_names_concat(a, b);
        lemma_cat_names_concat(a + tags, b);
        lemma_cat_names_concat(a, tags);
        lemma_cat_names_new_tags(ins, from, sort_key_of(ns[i]));
        lemma_fresh(to, cat_names(rest));
        let na = cat_names(a);
        let nb = cat_names(b);
        let one = cat_names(seq![ns[i]]);
        assert(seq![ns[i]].drop_last() =~= Seq::<NodeV>::empty());
        assert(seq![ns[i]].last() == ns[i]);
        assert(cat_names(Seq::<NodeV>::empty()) == Seq::<Seq<char>>::empty());
        match ns[i] {
            NodeV::Category(c) => {
                assert(c.name == from);
                assert(one == Seq::<Seq<char>>::empty().push(c.name));
            },
            _ => {},
        }
        assert(one =~= seq![from]);
        assert(cat_names(ns) == na + seq![from] + nb);
        assert(cat_names(rest) == na + nb);
        let r = na + ins + nb;
        assert(cat_names(out) == r);
        assert forall|x: int, y: int| 0 <= x < r.len() && 0 <= y < r.len() && x != y implies r[x] != r[y] by {
            let big = na + seq![from] + nb;
            let in_ins_x = na.len() <= x < na.len() + ins.len();
            let in_ins_y = na.len() <= y < na.len() + ins.len();
            if in_ins_x {
                assert(r[x] == ins[x - na.len()]);
                assert(ins.contains(r[x]));
            }
            if in_ins_y {
                assert(r[y] == ins[y - na.len()]);
                assert(ins.contains(r[y]));
            }
            if !in_ins_x {
                let bx = if x < na.len() { x } else { x - ins.len() + 1 };
                assert(r[x] == big[bx]);
                let rx = if x < na.len() { x } else { x - ins.len() };
                assert((na + nb)[rx] == r[x]);
                assert(cat_names(rest).contains(r[x]));
            }
            if !in_ins_y {
                let by = if y < na.len() { y } else { y - ins.len() + 1 };
                assert(r[y] == big[by]);
                let ry = if y < na.len() { y } else { y - ins.len() };
                assert((na + nb)[ry] == r[y]);
                assert(cat_names(rest).contains(r[y]));
            }
            if !in_ins_x && !in_ins_y {
                let bx = if x < na.len() { x } else { x - ins.len() + 1 };
                let by = if y < na.len() { y } else { y - ins.len() + 1 };
                assert(bx != by);
            }
            if in_ins_x && in_ins_y {
                assert(ins[x - na.len()] != ins[y - na.len()]);
            }
        }
    }
}

/// Removing a category (an empty `to`) detaches its first tag and adds none.
pub proof fn lemma_remove_detaches(ns: Seq<NodeV>, from: Seq<char>)
    requires
        tag_position(ns, from) >= 0,
    ensures
        tag_rule(ns, from, Seq::empty()) == Some(ns.remove(tag_position(ns, from))),
{
    let i = tag_position(ns, from);
    let rest = ns.remove(i);
    assert(!Seq::<Seq<char>>::empty().contains(from));
    assert(fresh(Seq::empty(), cat_names(rest)) == Seq::<Seq<char>>::empty());
    assert(new_tags(Seq::empty(), from, sort_key_of(ns[i])) =~= Seq::<NodeV>::empty());
    lemma_tag_position(ns, from);
    assert(rest.take(i) + Seq::<NodeV>::empty() + rest.skip(i) =~= rest);
}

/// Duplicating a category into itself leaves a page that has its tag as it is.
pub proof fn lemma_duplicate_to_self(ns: Seq<NodeV>, from: Seq<char>)
    requires
        cat_names(ns).contains(from),
    ensures
        tag_rule(ns, from, seq![from]) is None,
{
    assert(seq![from][0] == from);
    assert(already_done(ns, from, seq![from]));
}

/// Duplicating the one tag of `from` into `dest`, which the page lacks:
/// exactly one tag is added, `dest`'s without a sort key, and `from`'s tag
/// stays in place with its sort key.
pub proof fn lemma_duplicate_adds_one(ns: Seq<NodeV>, from: Seq<char>, dest: Seq<char>, i: int)
    requires
        0 <= i < ns.len(),
        is_tag_of(ns[i], from),
        forall|j: int| 0 <= j < ns.len() && j != i ==> !is_tag_of(#[trigger] ns[j], from),
        forall|j: int| 0 <= j < ns.len() ==> !is_tag_of(#[trigger] ns[j], dest),
        dest != from,
    ensures
        tag_rule(ns, from, seq![dest, from]) == Some(ns.take(i) + seq![
            NodeV::Category(CategoryTagV { name: dest, sort_key: None, origin: None }),
            NodeV::Category(CategoryTagV { name: from, sort_key: sort_key_of(ns[i]), origin: None }),
        ] + ns.skip(i + 1)),
{
    let to = seq![dest, from];
    lemma_tag_position(ns, from);
    let p = tag_position(ns, from);
    assert(p == i);
    lemma_cat_names_absent(ns, dest);
    assert(!already_done(ns, from, to)) by {
        assert(to[0] == dest);
    }
    let rest = ns.remove(i);
    assert forall|j: int| 0 <= j < rest.len() implies !is_tag_of(#[trigger] rest[j], from) by {
        if j < i { assert(rest[j] == ns[j]); } else { assert(rest[j] == ns[j + 1]); }
    }
    assert forall|j: int| 0 <= j < rest.len() implies !is_tag_of(#[trigger] rest[j], dest) by {
        if j < i { assert(rest[j] == ns[j]); } else { assert(rest[j] == ns[j + 1]); }
    }
    lemma_cat_names_absent(rest, from);
    lemma_cat_names_absent(rest, dest);
    let names = cat_names(rest);
    assert(to.drop_last() =~= seq![dest]);
    assert(seq![dest].drop_last() =~= Seq::<Seq<char>>::empty());
    assert(fresh(seq![dest].drop_last(), names) == Seq::<Seq<char>>::empty());
    assert(seq![dest].last() == dest);
    assert(!Seq::<Seq<char>>::empty().contains(dest));
    assert(fresh(seq![dest], names) =~= seq![dest]);
    assert(to.last() == from);
    assert(!seq![dest].contains(from)) by {
        if seq![dest].contains(from) {
            assert(seq![dest][0] == from);
        }
    }
    assert(fresh(to, names) =~= seq![dest, from]);
    let tags = new_tags(seq![dest, from], from, sort_key_of(ns[i]));
    assert(tags =~= seq![
        NodeV::Category(CategoryTagV { name: dest, sort_key: None, origin: None }),
        NodeV::Category(CategoryTagV { name: from, sort_key: sort_key_of(ns[i]), origin: None }),
    ]);
    assert(rest.take(i) =~= ns.take(i));
    assert(rest.skip(i) =~= ns.skip(i + 1));
}

} // verus!
