//! Rewriting the image-request templates, whose `cat`, `cat2`, ... parameters
//! name categories without their namespace prefix and their common suffix.
use vstd::prelude::*;
use vstd::string::*;
use crate::category_of_redirects::{category_ns, CATEGORY_NS};
use crate::document::{
    lemma_nodes_push, lemma_params_push, nodes_view, params_view, Document, Node, NodeV, Param,
    ParamV, Template, TemplateV,
};
use crate::params::{concat_params, kv_same, same_params, Edit, Outcome};
use crate::splice::{find_text, lemma_drop_last_take, lemma_position, position, splice_at, spliced};
use crate::text::{
    decimal, decimal_text, ends_with, has_prefix, has_suffix, joined, lemma_strs_push, same_text,
    starts_with, strip_prefix, strip_suffix, strs, without_prefix, without_suffix,
};

verus! {

/// The suffix that every category of image requests carries.
pub const IMAGE_SUFFIX: &'static str = "の画像提供依頼";

pub const IMAGE_TEMPLATE_1: &'static str = "Template:画像提供依頼";

pub const IMAGE_TEMPLATE_2: &'static str = "Template:画像募集中";

pub const IMAGE_TEMPLATE_3: &'static str = "Template:画像改訂依頼";

pub open spec fn is_image_template(name: Seq<char>) -> bool {
    name == IMAGE_TEMPLATE_1@ || name == IMAGE_TEMPLATE_2@ || name == IMAGE_TEMPLATE_3@
}

pub open spec fn cat_word() -> Seq<char> {
    seq!['c', 'a', 't']
}

pub open spec fn is_cat_key(k: Seq<char>) -> bool {
    has_prefix(k, cat_word())
}

/// The values of the `cat...` parameters, in order.
pub open spec fn cat_values(ps: Seq<ParamV>) -> Seq<Seq<char>>
    decreases ps.len(),
{
    if ps.len() == 0 {
        Seq::empty()
    } else if is_cat_key(ps.last().key) {
        cat_values(ps.drop_last()).push(ps.last().value)
    } else {
        cat_values(ps.drop_last())
    }
}

/// The other parameters, in order.
pub open spec fn non_cat(ps: Seq<ParamV>) -> Seq<ParamV>
    decreases ps.len(),
{
    if ps.len() == 0 {
        Seq::empty()
    } else if is_cat_key(ps.last().key) {
        non_cat(ps.drop_last())
    } else {
        non_cat(ps.drop_last()).push(ps.last())
    }
}

/// `cat` for the first entry, `cat<k+1>` for the entry at `k`.
pub open spec fn cat_key_at(k: nat) -> Seq<char> {
    if k == 0 { cat_word() } else { cat_word() + decimal(k + 1) }
}

pub open spec fn cat_entries(list: Seq<Seq<char>>) -> Seq<ParamV> {
    Seq::new(list.len(), |k: int| ParamV { key: cat_key_at(k as nat), value: list[k], parsed: None, rewritten: None })
}

/// The rule on one template's parameters; `from` and `to` are bare names.
pub open spec fn image_outcome(ps: Seq<ParamV>, from: Seq<char>, to: Seq<Seq<char>>) -> Outcome {
    let cats = cat_values(ps);
    let i = position(cats, from);
    if i < 0 {
        Outcome::Unchanged
    } else {
        let out = non_cat(ps) + cat_entries(spliced(cats, i, to));
        if out.len() == 0 {
            Outcome::Delete
        } else if kv_same(out, ps) {
            Outcome::Unchanged
        } else {
            Outcome::Replace(out)
        }
    }
}

/// An image-request template is never left empty: a rewrite that would
/// leave it without parameters deletes it.
pub proof fn lemma_image_never_empty(ps: Seq<ParamV>, from: Seq<char>, to: Seq<Seq<char>>)
    ensures
        image_outcome(ps, from, to) matches Outcome::Replace(out) ==> out.len() > 0,
{
}

/// Applies the rule to every image-request template among `ns`: the
/// rewritten nodes and whether any template changed.
pub open spec fn image_nodes(ns: Seq<NodeV>, from: Seq<char>, to: Seq<Seq<char>>) -> (Seq<NodeV>, bool)
    decreases ns.len(),
{
    if ns.len() == 0 {
        (Seq::empty(), false)
    } else {
        let (prev, ch) = image_nodes(ns.drop_last(), from, to);
        match ns.last() {
            NodeV::Template(t) => if is_image_template(t.name) {
                match image_outcome(t.params, from, to) {
                    Outcome::Unchanged => (prev.push(ns.last()), ch),
                    Outcome::Delete => (prev, true),
                    Outcome::Replace(ps) => (prev.push(NodeV::Template(TemplateV { name: t.name, params: ps, origin: t.origin })), true),
                }
            } else {
                (prev.push(ns.last()), ch)
            },
            _ => (prev.push(ns.last()), ch),
        }
    }
}

/// The image-request rule on a document: `None` where nothing changed.
pub open spec fn image_rule(ns: Seq<NodeV>, from: Seq<char>, to: Seq<Seq<char>>) -> Option<Seq<NodeV>> {
    if image_nodes(ns, from, to).1 { Some(image_nodes(ns, from, to).0) } else { None }
}

/// A category name as the templates write it: without the namespace prefix
/// and without the suffix.
pub open spec fn bare_image_name(s: Seq<char>) -> Seq<char> {
    without_suffix(without_prefix(s, category_ns()), IMAGE_SUFFIX@)
}

/// Whether the rule applies to `from` and `to`: all carry the suffix.
pub open spec fn image_applies(from: Seq<char>, to: Seq<Seq<char>>) -> bool {
    has_suffix(from, IMAGE_SUFFIX@) && forall|j: int| 0 <= j < to.len() ==> has_suffix(#[trigger] to[j], IMAGE_SUFFIX@)
}

fn cat_key_text(k: usize) -> (r: String)
    requires
        k < usize::MAX,
    ensures
        r@ == cat_key_at(k as nat),
{
    let w = "cat";
    proof {
        reveal_strlit("cat");
    }
    assert(w@ =~= cat_word());
    if k == 0 {
        w.to_string()
    } else {
        let d = decimal_text(k + 1);
        joined(w, d.as_str())
    }
}

fn split_cats(ps: &Vec<Param>) -> (r: (Vec<String>, Vec<Param>))
    ensures
        strs(r.0@) == cat_values(params_view(ps@)),
        params_view(r.1@) == non_cat(params_view(ps@)),
{
    let ghost pv = params_view(ps@);
    let w = "cat";
    proof {
        reveal_strlit("cat");
    }
    assert(w@ =~= cat_word());
    let mut cats: Vec<String> = Vec::new();
    let mut others: Vec<Param> = Vec::new();
    let mut k: usize = 0;
    while k < ps.len()
        invariant
            k <= ps.len(),
            pv == params_view(ps@),
            w@ == cat_word(),
            strs(cats@) == cat_values(pv.take(k as int)),
            params_view(others@) == non_cat(pv.take(k as int)),
        decreases ps.len() - k,
    {
        proof {
            lemma_drop_last_take(pv, k as int);
        }
        if starts_with(ps[k].key.as_str(), w) {
            proof {
                lemma_strs_push(cats@, ps@[k as int].value);
            }
            cats.push(ps[k].value.clone());
        } else {
            let p = ps[k].copy();
            proof {
                lemma_params_push(others@, p);
            }
            others.push(p);
        }
        k = k + 1;
    }
    assert(pv.take(ps.len() as int) =~= pv);
    (cats, others)
}

/// The rule on one template's parameters.
pub fn image_edit(params: &Vec<Param>, from: &str, to: &Vec<String>) -> (r: Edit)
    ensures
        r@ == image_outcome(params_view(params@), from@, strs(to@)),
{
    let (cats, others) = split_cats(params);
    let i = match find_text(&cats, from) {
        Some(i) => i,
        None => {
            return Edit::Keep;
        },
    };
    proof {
        lemma_position(strs(cats@), from@);
    }
    let list = splice_at(&cats, i, to);
    let ghost lv = strs(list@);
    let mut entries: Vec<Param> = Vec::new();
    let mut k: usize = 0;
    while k < list.len()
        invariant
            k <= list.len(),
            lv == strs(list@),
            params_view(entries@) == cat_entries(lv).take(k as int),
        decreases list.len() - k,
    {
        let p = Param { key: cat_key_text(k), value: list[k].clone(), parsed: None, rewritten: None };
        proof {
            lemma_params_push(entries@, p);
        }
        entries.push(p);
        assert(params_view(entries@) =~= cat_entries(lv).take(k + 1));
        k = k + 1;
    }
    assert(cat_entries(lv).take(list.len() as int) =~= cat_entries(lv));
    let out = concat_params(others, entries);
    if out.len() == 0 {
        Edit::Remove
    } else if same_params(&out, params) {
        Edit::Keep
    } else {
        Edit::Rewrite(out)
    }
}

fn is_image_template_name(name: &str) -> (r: bool)
    ensures
        r == is_image_template(name@),
{
    same_text(name, IMAGE_TEMPLATE_1) || same_text(name, IMAGE_TEMPLATE_2) || same_text(name, IMAGE_TEMPLATE_3)
}

/// Replaces `from` by `to` in the `cat` parameters of image-request
/// templates. Built only where `from` and every entry of `to` end with the
/// image-request suffix; it holds the bare names.
pub struct ImageRequestedReplacer {
    pub from: String,
    pub to: Vec<String>,
}

impl ImageRequestedReplacer {
    pub fn new(from: String, to: Vec<String>) -> (r: Option<ImageRequestedReplacer>)
        ensures
            r is Some <==> image_applies(from@, strs(to@)),
            r matches Some(x) ==> x.from@ == bare_image_name(from@)
                && strs(x.to@) == strs(to@).map_values(|t: Seq<char>| bare_image_name(t)),
    {
        let suffix = IMAGE_SUFFIX;
        let ns = CATEGORY_NS;
        proof {
            reveal_strlit("Category:");
        }
        assert(ns@ =~= category_ns());
        if !ends_with(from.as_str(), suffix) {
            return None;
        }
        let mut bare: Vec<String> = Vec::new();
        let mut k: usize = 0;
        while k < to.len()
            invariant
                k <= to.len(),
                ns@ == category_ns(),
                suffix@ == IMAGE_SUFFIX@,
                forall|j: int| 0 <= j < k ==> has_suffix(#[trigger] strs(to@)[j], IMAGE_SUFFIX@),
                strs(bare@) == strs(to@).map_values(|t: Seq<char>| bare_image_name(t)).take(k as int),
            decreases to.len() - k,
        {
            assert(strs(to@)[k as int] == to@[k as int]@);
            if !ends_with(to[k].as_str(), suffix) {
                return None;
            }
            let a = strip_prefix(to[k].as_str(), ns);
            let b = strip_suffix(a.as_str(), suffix);
            proof {
                lemma_strs_push(bare@, b);
            }
            bare.push(b);
            assert(strs(bare@) =~= strs(to@).map_values(|t: Seq<char>| bare_image_name(t)).take(k + 1));
            k = k + 1;
        }
        assert(strs(to@).map_values(|t: Seq<char>| bare_image_name(t)).take(to.len() as int)
            =~= strs(to@).map_values(|t: Seq<char>| bare_image_name(t)));
        let a = strip_prefix(from.as_str(), ns);
        let f = strip_suffix(a.as_str(), suffix);
        Some(ImageRequestedReplacer { from: f, to: bare })
    }

    /// Applies the rule to `doc` in place; returns whether it changed.
    pub fn replace(&self, doc: &mut Document) -> (changed: bool)
        ensures
            changed == image_rule(old(doc)@, self.from@, strs(self.to@)) is Some,
            final(doc)@ == match image_rule(old(doc)@, self.from@, strs(self.to@)) {
                Some(ns) => ns,
                None => old(doc)@,
            },
    {
        let ghost ns = doc@;
        let ghost from = self.from@;
        let ghost to = strs(self.to@);
        let mut out: Vec<Node> = Vec::new();
        let mut changed = false;
        let mut k: usize = 0;
        while k < doc.nodes.len()
            invariant
                k <= doc.nodes.len(),
                ns == doc@,
                from == self.from@,
                to == strs(self.to@),
                (nodes_view(out@), changed) == image_nodes(ns.take(k as int), from, to),
            decreases doc.nodes.len() - k,
        {
            proof {
                lemma_drop_last_take(ns, k as int);
            }
            assert(ns[k as int] == doc.nodes@[k as int]@);
            match &doc.nodes[k] {
                Node::Template(t) => {
                    if is_image_template_name(t.name.as_str()) {
                        match image_edit(&t.params, self.from.as_str(), &self.to) {
                            Edit::Keep => {
                                let n = doc.nodes[k].copy();
                                proof {
                                    lemma_nodes_push(out@, n);
                                }
                                out.push(n);
                            },
                            Edit::Remove => {
                                changed = true;
                            },
                            Edit::Rewrite(ps) => {
                                let n = Node::Template(Template { name: t.name.clone(), params: ps, origin: t.origin });
                                proof {
                                    lemma_nodes_push(out@, n);
                                }
                                out.push(n);
                                changed = true;
                            },
                        }
                    } else {
                        let n = doc.nodes[k].copy();
                        proof {
                            lemma_nodes_push(out@, n);
                        }
                        out.push(n);
                    }
                },
                _ => {
                    let n = doc.nodes[k].copy();
                    proof {
                        lemma_nodes_push(out@, n);
                    }
                    out.push(n);
                },
            }
            k = k + 1;
        }
        assert(ns.take(doc.nodes.len() as int) =~= ns);
        if changed {
            doc.nodes = out;
        }
        changed
    }
}

} // verus!
