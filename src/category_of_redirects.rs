//! Rewriting the redirect-category template, which lists the categories
//! that redirects to a page belong to, either positionally
//! (`|Category:A|Category:B`) or in groups (`|redirect1=...|1-1=A|1-2=B`).
use vstd::prelude::*;
use vstd::string::*;
use crate::document::{
    lemma_nodes_push, lemma_params_push, nodes_view, params_view, Document, Node, NodeV, Param,
    ParamV, Template, TemplateV,
};
use crate::params::{
    concat_params, kv_same, lookup, lookup_param, numbered, numbered_values, push_numbered,
    same_params, split_numbered, unnumbered, Edit, Outcome,
};
use crate::splice::{find_text, fresh, lemma_drop_last_take, position, splice_at, spliced};
use crate::text::{
    decimal, decimal_text, joined, lemma_strs_push, same_text, strip_prefix, strs, without_prefix,
};

verus! {

/// Name of the redirect-category template.
pub const REDIRECT_TEMPLATE: &'static str = "Template:リダイレクトの所属カテゴリ";

/// Namespace prefix of category references.
pub const CATEGORY_NS: &'static str = "Category:";

/// Number of groups, and of categories in a group, that the grouped form has.
pub const GROUP_LIMIT: usize = 10;

pub open spec fn redirect_word() -> Seq<char> {
    seq!['r', 'e', 'd', 'i', 'r', 'e', 'c', 't']
}

/// `redirect<g>`
pub open spec fn redirect_key(g: nat) -> Seq<char> {
    redirect_word() + decimal(g)
}

/// `<g>-<j>`
pub open spec fn cat_key(g: nat, j: nat) -> Seq<char> {
    decimal(g) + seq!['-'] + decimal(j)
}

pub open spec fn cat_key_upto(k: Seq<char>, g: nat, n: nat) -> bool
    decreases n,
{
    n > 0 && (cat_key_upto(k, g, (n - 1) as nat) || k == cat_key(g, n))
}

pub open spec fn group_key_upto(k: Seq<char>, n: nat) -> bool
    decreases n,
{
    n > 0 && (group_key_upto(k, (n - 1) as nat) || k == redirect_key(n) || cat_key_upto(k, n, 10))
}

/// A key of the grouped form: `redirect<g>` or `<g>-<j>`, with `g` and `j` in `1..=10`.
pub open spec fn is_group_key(k: Seq<char>) -> bool {
    group_key_upto(k, 10)
}

/// The parameters whose key is not a group key, in order.
pub open spec fn ungrouped(ps: Seq<ParamV>) -> Seq<ParamV>
    decreases ps.len(),
{
    if ps.len() == 0 {
        Seq::empty()
    } else if is_group_key(ps.last().key) {
        ungrouped(ps.drop_last())
    } else {
        ungrouped(ps.drop_last()).push(ps.last())
    }
}

/// The categories of group `g`: the values keyed `g-1` to `g-n` that are present.
pub open spec fn group_values(ps: Seq<ParamV>, g: nat, n: nat) -> Seq<Seq<char>>
    decreases n,
{
    if n == 0 {
        Seq::empty()
    } else {
        let prev = group_values(ps, g, (n - 1) as nat);
        match lookup(ps, cat_key(g, n)) {
            Some(v) => prev.push(v),
            None => prev,
        }
    }
}

pub open spec fn group_cats(ps: Seq<ParamV>, g: nat) -> Seq<Seq<char>> {
    group_values(ps, g, 10)
}

/// Whether group `g` is present and lists `from`.
pub open spec fn group_found(ps: Seq<ParamV>, g: nat, from: Seq<char>) -> bool {
    lookup(ps, redirect_key(g)) is Some && position(group_cats(ps, g), from) >= 0
}

pub open spec fn any_found(ps: Seq<ParamV>, n: nat, from: Seq<char>) -> bool
    decreases n,
{
    n > 0 && (any_found(ps, (n - 1) as nat, from) || group_found(ps, n, from))
}

/// The categories of group `g` after the splice.
pub open spec fn new_group(ps: Seq<ParamV>, g: nat, from: Seq<char>, to: Seq<Seq<char>>) -> Seq<Seq<char>> {
    let c = group_cats(ps, g);
    let i = position(c, from);
    if i < 0 { c } else { spliced(c, i, to) }
}

pub open spec fn group_entries(list: Seq<Seq<char>>, g: nat) -> Seq<ParamV> {
    Seq::new(list.len(), |k: int| ParamV { key: cat_key(g, (k + 1) as nat), value: list[k], parsed: None, rewritten: None })
}

/// The entries of group `g` as they stand: `g-1` to `g-n`, those present,
/// under their own keys.
pub open spec fn group_kept(ps: Seq<ParamV>, g: nat, n: nat) -> Seq<ParamV>
    decreases n,
{
    if n == 0 {
        Seq::empty()
    } else {
        let prev = group_kept(ps, g, (n - 1) as nat);
        match lookup(ps, cat_key(g, n)) {
            Some(v) => prev.push(ParamV { key: cat_key(g, n), value: v, parsed: None, rewritten: None }),
            None => prev,
        }
    }
}

/// The parameters written for group `g`: none where the group is absent or
/// its list was emptied by the splice; a group that does not list `from`
/// keeps its keys and values; a spliced group is numbered afresh.
pub open spec fn group_params(ps: Seq<ParamV>, g: nat, from: Seq<char>, to: Seq<Seq<char>>) -> Seq<ParamV> {
    match lookup(ps, redirect_key(g)) {
        None => Seq::empty(),
        Some(r) => {
            let head = seq![ParamV { key: redirect_key(g), value: r, parsed: None, rewritten: None }];
            if !group_found(ps, g, from) {
                head + group_kept(ps, g, 10)
            } else {
                let c = new_group(ps, g, from, to);
                if c.len() == 0 { Seq::empty() } else { head + group_entries(c, g) }
            }
        },
    }
}

pub open spec fn groups_params(ps: Seq<ParamV>, n: nat, from: Seq<char>, to: Seq<Seq<char>>) -> Seq<ParamV>
    decreases n,
{
    if n == 0 {
        Seq::empty()
    } else {
        groups_params(ps, (n - 1) as nat, from, to) + group_params(ps, n, from, to)
    }
}

pub open spec fn category_ns() -> Seq<char> {
    seq!['C', 'a', 't', 'e', 'g', 'o', 'r', 'y', ':']
}

pub open spec fn bare_names(to: Seq<Seq<char>>) -> Seq<Seq<char>> {
    to.map_values(|t: Seq<char>| without_prefix(t, category_ns()))
}

/// The positional form: the numbered values are the category list.
pub open spec fn single_outcome(ps: Seq<ParamV>, from: Seq<char>, to: Seq<Seq<char>>) -> Outcome {
    let cats = numbered_values(ps);
    let i = position(cats, from);
    if i < 0 {
        Outcome::Unchanged
    } else {
        let list = spliced(cats, i, to);
        if list.len() == 0 {
            Outcome::Delete
        } else {
            let out = unnumbered(ps) + numbered(list);
            if kv_same(out, ps) { Outcome::Unchanged } else { Outcome::Replace(out) }
        }
    }
}

/// The grouped form: each group's list is spliced on its own; names are
/// written there without the namespace prefix.
pub open spec fn complex_outcome(ps: Seq<ParamV>, from: Seq<char>, to: Seq<Seq<char>>) -> Outcome {
    let f = without_prefix(from, category_ns());
    let t = bare_names(to);
    if !any_found(ps, 10, f) {
        Outcome::Unchanged
    } else {
        let rep = groups_params(ps, 10, f, t);
        if rep.len() == 0 {
            Outcome::Delete
        } else {
            let out = ungrouped(ps) + rep;
            if kv_same(out, ps) { Outcome::Unchanged } else { Outcome::Replace(out) }
        }
    }
}

/// The grouped form is the one with a `redirect1` parameter.
pub open spec fn redirect_outcome(ps: Seq<ParamV>, from: Seq<char>, to: Seq<Seq<char>>) -> Outcome {
    if lookup(ps, redirect_key(1)) is Some {
        complex_outcome(ps, from, to)
    } else {
        single_outcome(ps, from, to)
    }
}

/// Applies the rule to every redirect-category template among `ns`: the
/// rewritten nodes and whether any template changed.
pub open spec fn redirect_nodes(ns: Seq<NodeV>, from: Seq<char>, to: Seq<Seq<char>>) -> (Seq<NodeV>, bool)
    decreases ns.len(),
{
    if ns.len() == 0 {
        (Seq::empty(), false)
    } else {
        let (prev, ch) = redirect_nodes(ns.drop_last(), from, to);
        match ns.last() {
            NodeV::Template(t) => if t.name == REDIRECT_TEMPLATE@ {
                match redirect_outcome(t.params, from, to) {
                    Outcome::Unchanged => (prev.push(ns.last()), ch),
                    Outcome::Delete => (prev, true),
                    Outcome::Replace(ps) => (prev.push(NodeV::Template(TemplateV { name: t.name, params: ps, origin: t.origin })), true),
                }
            } else {
                (prev.push(ns.last()), ch)
            },
            _ => (prev.push(ns.last()), ch),
        }
    }
}

/// The positional form never leaves an empty list behind: taking out its
/// only category deletes the template, and a rewritten template keeps at
/// least one category after its other parameters.
pub proof fn lemma_single_never_empty(ps: Seq<ParamV>, from: Seq<char>, to: Seq<Seq<char>>)
    ensures
        numbered_values(ps) == seq![from] && to.len() == 0 ==> single_outcome(ps, from, to) == Outcome::Delete,
        single_outcome(ps, from, to) matches Outcome::Replace(out) ==> out.len() > unnumbered(ps).len()
            && out.take(unnumbered(ps).len() as int) == unnumbered(ps),
{
    if numbered_values(ps) == seq![from] && to.len() == 0 {
        let cats = numbered_values(ps);
        assert(cats.drop_last() =~= Seq::<Seq<char>>::empty());
        assert(position(cats.drop_last(), from) == -1);
        assert(cats.last() == from);
        assert(position(cats, from) == 0);
        assert(fresh(to, cats.remove(0)) == Seq::<Seq<char>>::empty());
        assert(spliced(cats, 0, to) =~= Seq::<Seq<char>>::empty());
    }
    if let Outcome::Replace(out) = single_outcome(ps, from, to) {
        let cats = numbered_values(ps);
        let list = spliced(cats, position(cats, from), to);
        assert(out == unnumbered(ps) + numbered(list));
        assert(out.take(unnumbered(ps).len() as int) =~= unnumbered(ps));
    }
}

/// The grouped form never leaves a template without groups: one whose
/// every group is emptied is deleted, so a rewrite keeps at least one group
/// after the other parameters.
pub proof fn lemma_complex_never_empty(ps: Seq<ParamV>, from: Seq<char>, to: Seq<Seq<char>>)
    ensures
        complex_outcome(ps, from, to) matches Outcome::Replace(out) ==> out.len() > ungrouped(ps).len()
            && out.take(ungrouped(ps).len() as int) == ungrouped(ps),
{
    if let Outcome::Replace(out) = complex_outcome(ps, from, to) {
        let rep = groups_params(ps, 10, without_prefix(from, category_ns()), bare_names(to));
        assert(out == ungrouped(ps) + rep);
        assert(out.take(ungrouped(ps).len() as int) =~= ungrouped(ps));
    }
}

/// The redirect-category rule on a document: `None` where nothing changed.
pub open spec fn redirect_rule(ns: Seq<NodeV>, from: Seq<char>, to: Seq<Seq<char>>) -> Option<Seq<NodeV>> {
    if redirect_nodes(ns, from, to).1 { Some(redirect_nodes(ns, from, to).0) } else { None }
}

fn redirect_key_text(g: usize) -> (r: String)
    ensures
        r@ == redirect_key(g as nat),
{
    let w = "redirect";
    proof {
        reveal_strlit("redirect");
    }
    assert(w@ =~= redirect_word());
    let d = decimal_text(g);
    joined(w, d.as_str())
}

fn cat_key_text(g: usize, j: usize) -> (r: String)
    ensures
        r@ == cat_key(g as nat, j as nat),
{
    let dash = "-";
    proof {
        reveal_strlit("-");
    }
    let a = decimal_text(g);
    let mut s = joined(a.as_str(), dash);
    let b = decimal_text(j);
    s.append(b.as_str());
    assert(s@ =~= cat_key(g as nat, j as nat));
    s
}

fn is_group_key_text(k: &str) -> (r: bool)
    ensures
        r == is_group_key(k@),
{
    let mut found = false;
    let mut g: usize = 1;
    while g <= GROUP_LIMIT
        invariant
            1 <= g <= GROUP_LIMIT + 1,
            found == group_key_upto(k@, (g - 1) as nat),
        decreases GROUP_LIMIT + 1 - g,
    {
        let rk = redirect_key_text(g);
        let mut in_group = same_text(k, rk.as_str());
        let mut j: usize = 1;
        let mut cat_found = false;
        while j <= GROUP_LIMIT
            invariant
                1 <= j <= GROUP_LIMIT + 1,
                1 <= g <= GROUP_LIMIT,
                cat_found == cat_key_upto(k@, g as nat, (j - 1) as nat),
            decreases GROUP_LIMIT + 1 - j,
        {
            let ck = cat_key_text(g, j);
            if same_text(k, ck.as_str()) {
                cat_found = true;
            }
            j = j + 1;
        }
        in_group = in_group || cat_found;
        found = found || in_group;
        g = g + 1;
    }
    found
}

fn split_grouped(ps: &Vec<Param>) -> (r: Vec<Param>)
    ensures
        params_view(r@) == ungrouped(params_view(ps@)),
{
    let ghost pv = params_view(ps@);
    let mut others: Vec<Param> = Vec::new();
    let mut k: usize = 0;
    while k < ps.len()
        invariant
            k <= ps.len(),
            pv == params_view(ps@),
            params_view(others@) == ungrouped(pv.take(k as int)),
        decreases ps.len() - k,
    {
        proof {
            lemma_drop_last_take(pv, k as int);
        }
        if !is_group_key_text(ps[k].key.as_str()) {
            let p = ps[k].copy();
            proof {
                lemma_params_push(others@, p);
            }
            others.push(p);
        }
        k = k + 1;
    }
    assert(pv.take(ps.len() as int) =~= pv);
    others
}

fn group_values_of(ps: &Vec<Param>, g: usize) -> (r: Vec<String>)
    ensures
        strs(r@) == group_cats(params_view(ps@), g as nat),
{
    let mut out: Vec<String> = Vec::new();
    let mut j: usize = 1;
    while j <= GROUP_LIMIT
        invariant
            1 <= j <= GROUP_LIMIT + 1,
            strs(out@) == group_values(params_view(ps@), g as nat, (j - 1) as nat),
        decreases GROUP_LIMIT + 1 - j,
    {
        let key = cat_key_text(g, j);
        match lookup_param(ps, key.as_str()) {
            Some(v) => {
                proof {
                    lemma_strs_push(out@, v);
                }
                out.push(v);
            },
            None => {},
        }
        j = j + 1;
    }
    out
}

fn push_group_entries(out: &mut Vec<Param>, list: &Vec<String>, g: usize)
    ensures
        params_view(final(out)@) == params_view(old(out)@) + group_entries(strs(list@), g as nat),
{
    let ghost start = params_view(out@);
    let mut k: usize = 0;
    while k < list.len()
        invariant
            k <= list.len(),
            params_view(out@) == start + group_entries(strs(list@), g as nat).take(k as int),
        decreases list.len() - k,
    {
        let p = Param { key: cat_key_text(g, k + 1), value: list[k].clone(), parsed: None, rewritten: None };
        proof {
            lemma_params_push(out@, p);
        }
        out.push(p);
        assert(params_view(out@) =~= start + group_entries(strs(list@), g as nat).take(k + 1));
        k = k + 1;
    }
    assert(group_entries(strs(list@), g as nat).take(list.len() as int) =~= group_entries(strs(list@), g as nat));
}

fn push_group_kept(out: &mut Vec<Param>, ps: &Vec<Param>, g: usize)
    ensures
        params_view(final(out)@) == params_view(old(out)@) + group_kept(params_view(ps@), g as nat, 10),
{
    let ghost start = params_view(out@);
    let mut j: usize = 1;
    while j <= GROUP_LIMIT
        invariant
            1 <= j <= GROUP_LIMIT + 1,
            params_view(out@) == start + group_kept(params_view(ps@), g as nat, (j - 1) as nat),
        decreases GROUP_LIMIT + 1 - j,
    {
        let key = cat_key_text(g, j);
        match lookup_param(ps, key.as_str()) {
            Some(v) => {
                let p = Param { key, value: v, parsed: None, rewritten: None };
                proof {
                    lemma_params_push(out@, p);
                }
                out.push(p);
                assert(params_view(out@) =~= start + group_kept(params_view(ps@), g as nat, j as nat));
            },
            None => {},
        }
        j = j + 1;
    }
}

/// The positional form.
pub fn replace_internal_single(params: &Vec<Param>, from: &str, to: &Vec<String>) -> (r: Edit)
    ensures
        r@ == single_outcome(params_view(params@), from@, strs(to@)),
{
    let (cats, others) = split_numbered(params);
    let i = match find_text(&cats, from) {
        Some(i) => i,
        None => {
            return Edit::Keep;
        },
    };
    proof {
        crate::splice::lemma_position(strs(cats@), from@);
    }
    let list = splice_at(&cats, i, to);
    if list.len() == 0 {
        return Edit::Remove;
    }
    let mut out = others;
    push_numbered(&mut out, &list);
    if same_params(&out, params) {
        Edit::Keep
    } else {
        Edit::Rewrite(out)
    }
}

/// The grouped form; `from` and `to` are already without the namespace prefix.
fn grouped_edit(params: &Vec<Param>, from: &str, to: &Vec<String>) -> (r: Edit)
    ensures
        r@ == (if !any_found(params_view(params@), 10, from@) {
            Outcome::Unchanged
        } else {
            let rep = groups_params(params_view(params@), 10, from@, strs(to@));
            if rep.len() == 0 {
                Outcome::Delete
            } else {
                let out = ungrouped(params_view(params@)) + rep;
                if kv_same(out, params_view(params@)) { Outcome::Unchanged } else { Outcome::Replace(out) }
            }
        }),
{
    let ghost pv = params_view(params@);
    let mut rep: Vec<Param> = Vec::new();
    let mut found = false;
    let mut g: usize = 1;
    while g <= GROUP_LIMIT
        invariant
            1 <= g <= GROUP_LIMIT + 1,
            pv == params_view(params@),
            found == any_found(pv, (g - 1) as nat, from@),
            params_view(rep@) == groups_params(pv, (g - 1) as nat, from@, strs(to@)),
        decreases GROUP_LIMIT + 1 - g,
    {
        let ghost before = params_view(rep@);
        let rk = redirect_key_text(g);
        match lookup_param(params, rk.as_str()) {
            None => {
                assert(params_view(rep@) =~= before + group_params(pv, g as nat, from@, strs(to@)));
            },
            Some(r) => {
                let cats = group_values_of(params, g);
                let (list, hit) = match find_text(&cats, from) {
                    Some(i) => {
                        proof {
                            crate::splice::lemma_position(strs(cats@), from@);
                        }
                        (splice_at(&cats, i, to), true)
                    },
                    None => (cats, false),
                };
                assert(hit == group_found(pv, g as nat, from@));
                assert(strs(list@) == new_group(pv, g as nat, from@, strs(to@)));
                if hit {
                    found = true;
                }
                if !(hit && list.len() == 0) {
                    let head = Param { key: rk, value: r, parsed: None, rewritten: None };
                    proof {
                        lemma_params_push(rep@, head);
                    }
                    rep.push(head);
                    if hit {
                        push_group_entries(&mut rep, &list, g);
                    } else {
                        push_group_kept(&mut rep, params, g);
                    }
                }
                assert(params_view(rep@) =~= before + group_params(pv, g as nat, from@, strs(to@)));
            },
        }
        g = g + 1;
    }
    if !found {
        return Edit::Keep;
    }
    if rep.len() == 0 {
        return Edit::Remove;
    }
    let others = split_grouped(params);
    let out = concat_params(others, rep);
    if same_params(&out, params) {
        Edit::Keep
    } else {
        Edit::Rewrite(out)
    }
}

fn bare_list(to: &Vec<String>) -> (r: Vec<String>)
    ensures
        strs(r@) == bare_names(strs(to@)),
{
    let ns = CATEGORY_NS;
    proof {
        reveal_strlit("Category:");
    }
    assert(ns@ =~= category_ns());
    let mut out: Vec<String> = Vec::new();
    let mut k: usize = 0;
    while k < to.len()
        invariant
            k <= to.len(),
            ns@ == category_ns(),
            strs(out@) == bare_names(strs(to@)).take(k as int),
        decreases to.len() - k,
    {
        let b = strip_prefix(to[k].as_str(), ns);
        proof {
            lemma_strs_push(out@, b);
        }
        out.push(b);
        assert(strs(out@) =~= bare_names(strs(to@)).take(k + 1));
        k = k + 1;
    }
    assert(bare_names(strs(to@)).take(to.len() as int) =~= bare_names(strs(to@)));
    out
}

/// The grouped form.
pub fn replace_internal_complex(params: &Vec<Param>, from: &str, to: &Vec<String>) -> (r: Edit)
    ensures
        r@ == complex_outcome(params_view(params@), from@, strs(to@)),
{
    let ns = CATEGORY_NS;
    proof {
        reveal_strlit("Category:");
    }
    assert(ns@ =~= category_ns());
    let f = strip_prefix(from, ns);
    let t = bare_list(to);
    grouped_edit(params, f.as_str(), &t)
}

/// Either form, chosen by the presence of `redirect1`.
pub fn redirect_edit(params: &Vec<Param>, from: &str, to: &Vec<String>) -> (r: Edit)
    ensures
        r@ == redirect_outcome(params_view(params@), from@, strs(to@)),
{
    let k1 = redirect_key_text(1);
    match lookup_param(params, k1.as_str()) {
        Some(_) => replace_internal_complex(params, from, to),
        None => replace_internal_single(params, from, to),
    }
}

/// Replaces `from` by `to` in the redirect-category templates; a template
/// whose list becomes empty is removed.
pub struct CategoryOfRedirectsReplacer {
    pub from: String,
    pub to: Vec<String>,
}

impl CategoryOfRedirectsReplacer {
    pub fn new(from: String, to: Vec<String>) -> (r: CategoryOfRedirectsReplacer)
        ensures
            r.from@ == from@,
            strs(r.to@) == strs(to@),
    {
        CategoryOfRedirectsReplacer { from, to }
    }

    /// Applies the rule to `doc` in place; returns whether it changed.
    pub fn replace(&self, doc: &mut Document) -> (changed: bool)
        ensures
            changed == redirect_rule(old(doc)@, self.from@, strs(self.to@)) is Some,
            final(doc)@ == match redirect_rule(old(doc)@, self.from@, strs(self.to@)) {
                Some(ns) => ns,
                None => old(doc)@,
            },
    {
        let ghost ns = doc@;
        let ghost from = self.from@;
        let ghost to = strs(self.to@);
        let name = REDIRECT_TEMPLATE;
        let mut out: Vec<Node> = Vec::new();
        let mut changed = false;
        let mut k: usize = 0;
        while k < doc.nodes.len()
            invariant
                k <= doc.nodes.len(),
                ns == doc@,
                from == self.from@,
                to == strs(self.to@),
                name@ == REDIRECT_TEMPLATE@,
                (nodes_view(out@), changed) == redirect_nodes(ns.take(k as int), from, to),
            decreases doc.nodes.len() - k,
        {
            proof {
                lemma_drop_last_take(ns, k as int);
            }
            assert(ns[k as int] == doc.nodes@[k as int]@);
            match &doc.nodes[k] {
                Node::Template(t) => {
                    if same_text(t.name.as_str(), name) {
                        match redirect_edit(&t.params, self.from.as_str(), &self.to) {
                            Edit::Keep => {
                                let n = doc.nodes[k].copy();
                                proof {
                                    lemma_nodes_push(out@, n);
                                }
                                out.push(n);
                            },
                            Edit::Remove => {
                                changed = true;
                            },
                            Edit::Rewrite(ps) => {
                                let n = Node::Template(Template { name: t.name.clone(), params: ps, origin: t.origin });
                                proof {
                                    lemma_nodes_push(out@, n);
                                }
                                out.push(n);
                                changed = true;
                            },
                        }
                    } else {
                        let n = doc.nodes[k].copy();
                        proof {
                            lemma_nodes_push(out@, n);
                        }
                        out.push(n);
                    }
                },
                _ => {
                    let n = doc.nodes[k].copy();
                    proof {
                        lemma_nodes_push(out@, n);
                    }
                    out.push(n);
                },
            }
            k = k + 1;
        }
        assert(ns.take(doc.nodes.len() as int) =~= ns);
        if changed {
            doc.nodes = out;
        }
        changed
    }
}

} // verus!
