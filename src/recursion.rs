//! Recursive descent: after the rules have run over a document, every
//! template parameter whose value parsed to a sub-document is rewritten by
//! the same descent.
//!
//! Sub-documents are handed in beside the page, in `parsed`; a parameter
//! points at its own with `Param::parsed`. A parameter that was not parsed,
//! or whose index is out of range, is left as it is. Where a sub-document
//! changed, the descent returns it, in a list of rewritten documents, and
//! marks the parameter with its index there (`Param::rewritten`); turning it
//! back into text is the transcoder's work, outside this library. A
//! rewritten document's own marked parameters point at earlier entries of
//! that list, so the list can be serialized front to back.
use vstd::prelude::*;
use crate::document::{
    lemma_nodes_push, lemma_params_push, nodes_view, params_view, Document, Node, NodeV, Param,
    ParamV, Template, TemplateV,
};
use crate::replacer::{category_replacers, category_rules, chain_apply, CategoryReplacerList, RuleV};
use crate::splice::lemma_drop_last_take;
use crate::text::strs;

verus! {

/// How deep the descent goes into nested parameter values.
pub const MAX_DEPTH: usize = 32;

pub open spec fn docs_view(ds: Seq<Document>) -> Seq<Seq<NodeV>> {
    ds.map_values(|d: Document| d@)
}

pub proof fn lemma_docs_push(ds: Seq<Document>, d: Document)
    ensures
        docs_view(ds.push(d)) == docs_view(ds).push(d@),
{
    assert(docs_view(ds.push(d)) =~= docs_view(ds).push(d@));
}

/// The descent on `ns`: the rules at the top, then every template's
/// parameters, `fuel` levels deep. `acc` holds the documents rewritten so
/// far; the result is the nodes, whether anything changed, and `acc` with
/// the documents rewritten here appended.
pub open spec fn descend(rules: Seq<RuleV>, ns: Seq<NodeV>, sub: Seq<Seq<NodeV>>, fuel: nat, acc: Seq<Seq<NodeV>>) -> (Seq<NodeV>, bool, Seq<Seq<NodeV>>)
    decreases fuel, 2nat, 0nat,
{
    let (top, ch) = chain_apply(rules, ns);
    let (out, ch2, acc2) = descend_nodes(rules, top, sub, fuel, acc);
    (out, ch || ch2, acc2)
}

/// Every template among `ns` with its parameters descended into.
pub open spec fn descend_nodes(rules: Seq<RuleV>, ns: Seq<NodeV>, sub: Seq<Seq<NodeV>>, fuel: nat, acc: Seq<Seq<NodeV>>) -> (Seq<NodeV>, bool, Seq<Seq<NodeV>>)
    decreases fuel, 1nat, ns.len(),
{
    if ns.len() == 0 {
        (Seq::empty(), false, acc)
    } else {
        let (prev, ch, a1) = descend_nodes(rules, ns.drop_last(), sub, fuel, acc);
        match ns.last() {
            NodeV::Template(t) => {
                let (ps, c, a2) = descend_params(rules, t.params, sub, fuel, a1);
                (prev.push(NodeV::Template(TemplateV { name: t.name, params: ps, origin: t.origin })), ch || c, a2)
            },
            _ => (prev.push(ns.last()), ch, a1),
        }
    }
}

/// The parameters with each parsed value descended into. A value whose
/// sub-document changed keeps its key and text and is marked with the
/// index at which the rewritten sub-document is appended.
pub open spec fn descend_params(rules: Seq<RuleV>, ps: Seq<ParamV>, sub: Seq<Seq<NodeV>>, fuel: nat, acc: Seq<Seq<NodeV>>) -> (Seq<ParamV>, bool, Seq<Seq<NodeV>>)
    decreases fuel, 0nat, ps.len(),
{
    if ps.len() == 0 {
        (Seq::empty(), false, acc)
    } else {
        let (prev, ch, a1) = descend_params(rules, ps.drop_last(), sub, fuel, acc);
        let p = ps.last();
        match p.parsed {
            Some(j) => if fuel > 0 && j < sub.len() {
                let (d, c, a2) = descend(rules, sub[j as int], sub, (fuel - 1) as nat, a1);
                if c {
                    (prev.push(ParamV { key: p.key, value: p.value, parsed: p.parsed, rewritten: Some(a2.len() as usize) }), true, a2.push(d))
                } else {
                    (prev.push(p), ch, a2)
                }
            } else {
                (prev.push(p), ch, a1)
            },
            None => (prev.push(p), ch, a1),
        }
    }
}

/// The descent writes parameters back in the order they came, under the
/// keys they had and with their text, and leaves every parameter without a
/// parsed value exactly as it was.
pub proof fn lemma_descend_keeps_params(rules: Seq<RuleV>, ps: Seq<ParamV>, sub: Seq<Seq<NodeV>>, fuel: nat, acc: Seq<Seq<NodeV>>)
    ensures
        descend_params(rules, ps, sub, fuel, acc).0.len() == ps.len(),
        forall|k: int| 0 <= k < ps.len() ==> (#[trigger] descend_params(rules, ps, sub, fuel, acc).0[k]).key == ps[k].key
            && descend_params(rules, ps, sub, fuel, acc).0[k].value == ps[k].value,
        forall|k: int| 0 <= k < ps.len() && ps[k].parsed is None ==> #[trigger] descend_params(rules, ps, sub, fuel, acc).0[k] == ps[k],
    decreases ps.len(),
{
    if ps.len() > 0 {
        lemma_descend_keeps_params(rules, ps.drop_last(), sub, fuel, acc);
        let prev = descend_params(rules, ps.drop_last(), sub, fuel, acc).0;
        let out = descend_params(rules, ps, sub, fuel, acc).0;
        assert forall|k: int| 0 <= k < ps.len() implies (#[trigger] out[k]).key == ps[k].key && out[k].value == ps[k].value by {
            if k < ps.len() - 1 {
                assert(out[k] == prev[k]);
                assert(ps.drop_last()[k] == ps[k]);
            }
        }
        assert forall|k: int| 0 <= k < ps.len() && ps[k].parsed is None implies #[trigger] out[k] == ps[k] by {
            if k < ps.len() - 1 {
                assert(out[k] == prev[k]);
                assert(ps.drop_last()[k] == ps[k]);
            }
        }
    }
}

/// Where the rules find nothing to do on the page nor on any parsed value,
/// the descent changes nothing and rewrites no value.
pub proof fn lemma_descend_quiet(rules: Seq<RuleV>, ns: Seq<NodeV>, sub: Seq<Seq<NodeV>>, fuel: nat, acc: Seq<Seq<NodeV>>)
    requires
        chain_apply(rules, ns) == (ns, false),
        forall|j: int| 0 <= j < sub.len() ==> chain_apply(rules, #[trigger] sub[j]) == (sub[j], false),
    ensures
        descend(rules, ns, sub, fuel, acc) == (ns, false, acc),
    decreases fuel, 2nat, 0nat,
{
    lemma_descend_nodes_quiet(rules, ns, sub, fuel, acc);
}

proof fn lemma_descend_nodes_quiet(rules: Seq<RuleV>, ns: Seq<NodeV>, sub: Seq<Seq<NodeV>>, fuel: nat, acc: Seq<Seq<NodeV>>)
    requires
        forall|j: int| 0 <= j < sub.len() ==> chain_apply(rules, #[trigger] sub[j]) == (sub[j], false),
    ensures
        descend_nodes(rules, ns, sub, fuel, acc) == (ns, false, acc),
    decreases fuel, 1nat, ns.len(),
{
    if ns.len() > 0 {
        lemma_descend_nodes_quiet(rules, ns.drop_last(), sub, fuel, acc);
        match ns.last() {
            NodeV::Template(t) => {
                lemma_descend_params_quiet(rules, t.params, sub, fuel, acc);
                assert(NodeV::Template(TemplateV { name: t.name, params: t.params, origin: t.origin }) == ns.last());
            },
            _ => {},
        }
        assert(ns.drop_last().push(ns.last()) =~= ns);
    }
}

proof fn lemma_descend_params_quiet(rules: Seq<RuleV>, ps: Seq<ParamV>, sub: Seq<Seq<NodeV>>, fuel: nat, acc: Seq<Seq<NodeV>>)
    requires
        forall|j: int| 0 <= j < sub.len() ==> chain_apply(rules, #[trigger] sub[j]) == (sub[j], false),
    ensures
        descend_params(rules, ps, sub, fuel, acc) == (ps, false, acc),
    decreases fuel, 0nat, ps.len(),
{
    if ps.len() > 0 {
        lemma_descend_params_quiet(rules, ps.drop_last(), sub, fuel, acc);
        let p = ps.last();
        match p.parsed {
            Some(j) => {
                if fuel > 0 && j < sub.len() {
                    lemma_descend_quiet(rules, sub[j as int], sub, (fuel - 1) as nat, acc);
                }
            },
            None => {},
        }
        assert(ps.drop_last().push(ps.last()) =~= ps);
    }
}

/// Runs a rule list over a document and, recursively, over the documents
/// that its template parameters hold.
pub struct RecursionReplacer {
    pub replacers: CategoryReplacerList,
}

impl RecursionReplacer {
    pub fn new(replacers: CategoryReplacerList) -> (r: RecursionReplacer)
        ensures
            r.replacers@ == replacers@,
    {
        RecursionReplacer { replacers }
    }

    /// The descent, [`MAX_DEPTH`] levels deep: whether it changed the
    /// document, and the rewritten sub-documents.
    pub fn replace(&self, doc: &mut Document, parsed: &Vec<Document>) -> (r: (bool, Vec<Document>))
        ensures
            (final(doc)@, r.0, docs_view(r.1@)) == descend(self.replacers@, old(doc)@, docs_view(parsed@), MAX_DEPTH as nat, Seq::empty()),
    {
        let mut out: Vec<Document> = Vec::new();
        assert(docs_view(out@) =~= Seq::<Seq<NodeV>>::empty());
        let changed = self.descend_doc(doc, parsed, &mut out, MAX_DEPTH);
        (changed, out)
    }

    fn descend_doc(&self, doc: &mut Document, parsed: &Vec<Document>, out: &mut Vec<Document>, fuel: usize) -> (changed: bool)
        ensures
            (final(doc)@, changed, docs_view(final(out)@)) == descend(self.replacers@, old(doc)@, docs_view(parsed@), fuel as nat, docs_view(old(out)@)),
        decreases fuel, 2nat, 0nat,
    {
        let ch = self.replacers.replace_all(doc);
        let ch2 = self.descend_nodes(doc, parsed, out, fuel);
        ch || ch2
    }

    fn descend_nodes(&self, doc: &mut Document, parsed: &Vec<Document>, out: &mut Vec<Document>, fuel: usize) -> (changed: bool)
        ensures
            (final(doc)@, changed, docs_view(final(out)@)) == descend_nodes(self.replacers@, old(doc)@, docs_view(parsed@), fuel as nat, docs_view(old(out)@)),
        decreases fuel, 1nat, 0nat,
    {
        let ghost ns = doc@;
        let ghost rules = self.replacers@;
        let ghost sub = docs_view(parsed@);
        let ghost acc = docs_view(out@);
        let mut nodes: Vec<Node> = Vec::new();
        let mut changed = false;
        let mut k: usize = 0;
        while k < doc.nodes.len()
            invariant
                k <= doc.nodes.len(),
                ns == doc@,
                rules == self.replacers@,
                sub == docs_view(parsed@),
                (nodes_view(nodes@), changed, docs_view(out@)) == descend_nodes(rules, ns.take(k as int), sub, fuel as nat, acc),
            decreases doc.nodes.len() - k,
        {
            proof {
                lemma_drop_last_take(ns, k as int);
            }
            assert(ns[k as int] == doc.nodes@[k as int]@);
            match &doc.nodes[k] {
                Node::Template(t) => {
                    let (ps, c) = self.descend_params(&t.params, parsed, out, fuel);
                    let n = Node::Template(Template { name: t.name.clone(), params: ps, origin: t.origin });
                    proof {
                        lemma_nodes_push(nodes@, n);
                    }
                    nodes.push(n);
                    changed = changed || c;
                },
                _ => {
                    let n = doc.nodes[k].copy();
                    proof {
                        lemma_nodes_push(nodes@, n);
                    }
                    nodes.push(n);
                },
            }
            k = k + 1;
        }
        assert(ns.take(doc.nodes.len() as int) =~= ns);
        doc.nodes = nodes;
        changed
    }

    fn descend_params(&self, ps: &Vec<Param>, parsed: &Vec<Document>, out: &mut Vec<Document>, fuel: usize) -> (r: (Vec<Param>, bool))
        ensures
            (params_view(r.0@), r.1, docs_view(final(out)@)) == descend_params(self.replacers@, params_view(ps@), docs_view(parsed@), fuel as nat, docs_view(old(out)@)),
        decreases fuel, 0nat, 0nat,
    {
        let ghost pv = params_view(ps@);
        let ghost rules = self.replacers@;
        let ghost sub = docs_view(parsed@);
        let ghost acc = docs_view(out@);
        let mut res: Vec<Param> = Vec::new();
        let mut changed = false;
        let mut k: usize = 0;
        while k < ps.len()
            invariant
                k <= ps.len(),
                pv == params_view(ps@),
                rules == self.replacers@,
                sub == docs_view(parsed@),
                (params_view(res@), changed, docs_view(out@)) == descend_params(rules, pv.take(k as int), sub, fuel as nat, acc),
            decreases ps.len() - k,
        {
            proof {
                lemma_drop_last_take(pv, k as int);
            }
            assert(pv[k as int] == ps@[k as int]@);
            let p = &ps[k];
            let mut done = false;
            match p.parsed {
                Some(j) => {
                    if fuel > 0 && j < parsed.len() {
                        let mut d = parsed[j].copy();
                        assert(sub[j as int] == parsed@[j as int]@);
                        let c = self.descend_doc(&mut d, parsed, out, fuel - 1);
                        if c {
                            let idx = out.len();
                            let np = Param { key: p.key.clone(), value: p.value.clone(), parsed: p.parsed, rewritten: Some(idx) };
                            proof {
                                lemma_params_push(res@, np);
                                lemma_docs_push(out@, d);
                            }
                            out.push(d);
                            res.push(np);
                            changed = true;
                            done = true;
                        }
                    }
                },
                None => {},
            }
            if !done {
                let np = p.copy();
                proof {
                    lemma_params_push(res@, np);
                }
                res.push(np);
            }
            k = k + 1;
        }
        assert(pv.take(ps.len() as int) =~= pv);
        (res, changed)
    }
}

/// The rules for moving pages from `from` to `to`, wrapped in the descent.
pub fn get_category_replacers(from: String, to: Vec<String>) -> (r: RecursionReplacer)
    ensures
        r.replacers@ == category_rules(from@, strs(to@)),
{
    RecursionReplacer::new(category_replacers(from, to))
}

/// Moves the page `doc` (with the parsed sub-documents of its parameters)
/// from category `from` to `to`; an empty `to` removes the category.
/// Returns whether the page changed, and the rewritten sub-documents.
pub fn replace_category(doc: &mut Document, parsed: &Vec<Document>, from: String, to: Vec<String>) -> (r: (bool, Vec<Document>))
    ensures
        (final(doc)@, r.0, docs_view(r.1@)) == descend(category_rules(from@, strs(to@)), old(doc)@, docs_view(parsed@), MAX_DEPTH as nat, Seq::empty()),
{
    let replacer = get_category_replacers(from, to);
    replacer.replace(doc, parsed)
}

} // verus!
