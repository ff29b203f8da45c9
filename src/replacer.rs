//! The closed set of rewrite rules and the chain that applies them in order.
use vstd::prelude::*;
use crate::category_of_redirects::{
    any_found, category_ns, complex_outcome, group_cats, group_values, redirect_nodes,
    redirect_outcome, redirect_rule, single_outcome, CategoryOfRedirectsReplacer,
};
use crate::category_tag::{is_tag_of, lemma_tag_position, tag_rule, CategoryTagReplacer};
use crate::document::{Document, NodeV, ParamV};
use crate::image_requested::{
    bare_image_name, cat_values, image_nodes, image_outcome, image_rule, ImageRequestedReplacer,
};
use crate::params::{lookup, numbered_values, Outcome};
use crate::splice::lemma_position;
use crate::text::{strs, without_prefix};

verus! {

/// One rule, by kind, with the operands it was built with.
pub enum RuleV {
    Tag { from: Seq<char>, to: Seq<Seq<char>> },
    Redirects { from: Seq<char>, to: Seq<Seq<char>> },
    Image { from: Seq<char>, to: Seq<Seq<char>> },
}

/// What one rule does to the nodes `ns`: `None` where it has nothing to do.
pub open spec fn rule_result(r: RuleV, ns: Seq<NodeV>) -> Option<Seq<NodeV>> {
    match r {
        RuleV::Tag { from, to } => tag_rule(ns, from, to),
        RuleV::Redirects { from, to } => redirect_rule(ns, from, to),
        RuleV::Image { from, to } => image_rule(ns, from, to),
    }
}

/// Applies the rules left to right, each to the output of the one before:
/// the final nodes and whether any rule changed something.
pub open spec fn chain_apply(rules: Seq<RuleV>, ns: Seq<NodeV>) -> (Seq<NodeV>, bool)
    decreases rules.len(),
{
    if rules.len() == 0 {
        (ns, false)
    } else {
        let (mid, ch) = chain_apply(rules.drop_last(), ns);
        match rule_result(rules.last(), mid) {
            Some(out) => (out, true),
            None => (mid, ch),
        }
    }
}

/// A rewrite rule.
pub enum CategoryReplacer {
    Tag(CategoryTagReplacer),
    Redirects(CategoryOfRedirectsReplacer),
    Image(ImageRequestedReplacer),
}

impl View for CategoryReplacer {
    type V = RuleV;

    open spec fn view(&self) -> RuleV {
        match self {
            CategoryReplacer::Tag(r) => RuleV::Tag { from: r.from@, to: strs(r.to@) },
            CategoryReplacer::Redirects(r) => RuleV::Redirects { from: r.from@, to: strs(r.to@) },
            CategoryReplacer::Image(r) => RuleV::Image { from: r.from@, to: strs(r.to@) },
        }
    }
}

impl CategoryReplacer {
    /// Applies the rule to `doc` in place; returns whether it changed.
    pub fn replace(&self, doc: &mut Document) -> (changed: bool)
        ensures
            changed == rule_result(self@, old(doc)@) is Some,
            final(doc)@ == match rule_result(self@, old(doc)@) {
                Some(ns) => ns,
                None => old(doc)@,
            },
    {
        match self {
            CategoryReplacer::Tag(r) => r.replace(doc),
            CategoryReplacer::Redirects(r) => r.replace(doc),
            CategoryReplacer::Image(r) => r.replace(doc),
        }
    }
}

/// An ordered list of rules.
pub struct CategoryReplacerList {
    pub rules: Vec<CategoryReplacer>,
}

impl View for CategoryReplacerList {
    type V = Seq<RuleV>;

    open spec fn view(&self) -> Seq<RuleV> {
        self.rules@.map_values(|r: CategoryReplacer| r@)
    }
}

impl CategoryReplacerList {
    /// Applies every rule in order; returns whether any changed the document.
    pub fn replace_all(&self, doc: &mut Document) -> (changed: bool)
        ensures
            (final(doc)@, changed) == chain_apply(self@, old(doc)@),
    {
        let ghost start = doc@;
        let ghost rules = self@;
        let mut changed = false;
        let mut k: usize = 0;
        while k < self.rules.len()
            invariant
                k <= self.rules.len(),
                rules == self@,
                (doc@, changed) == chain_apply(rules.take(k as int), start),
            decreases self.rules.len() - k,
        {
            assert(rules.take(k + 1).drop_last() =~= rules.take(k as int));
            assert(rules.take(k + 1).last() == self.rules@[k as int]@);
            let c = self.rules[k].replace(doc);
            changed = changed || c;
            k = k + 1;
        }
        assert(rules.take(self.rules.len() as int) =~= rules);
        changed
    }
}

/// The rules for moving pages from `from` to `to`: category tags, the
/// redirect-category template, and (where the names allow it) the
/// image-request templates.
pub open spec fn category_rules(from: Seq<char>, to: Seq<Seq<char>>) -> Seq<RuleV> {
    let base = seq![RuleV::Tag { from, to }, RuleV::Redirects { from, to }];
    if crate::image_requested::image_applies(from, to) {
        base.push(RuleV::Image {
            from: crate::image_requested::bare_image_name(from),
            to: to.map_values(|t: Seq<char>| crate::image_requested::bare_image_name(t)),
        })
    } else {
        base
    }
}

/// Builds the rule list of [`category_rules`].
pub fn category_replacers(from: String, to: Vec<String>) -> (r: CategoryReplacerList)
    ensures
        r@ == category_rules(from@, strs(to@)),
{
    let image = ImageRequestedReplacer::new(from.clone(), to.clone());
    let tag = CategoryTagReplacer::new(from.clone(), to.clone());
    let redirects = CategoryOfRedirectsReplacer::new(from, to);
    let mut rules: Vec<CategoryReplacer> = Vec::new();
    rules.push(CategoryReplacer::Tag(tag));
    rules.push(CategoryReplacer::Redirects(redirects));
    match image {
        Some(i) => {
            rules.push(CategoryReplacer::Image(i));
        },
        None => {},
    }
    let r = CategoryReplacerList { rules };
    assert(r@ =~= category_rules(from@, strs(to@)));
    r
}

/// No parameter of any template among `ns` has the value `v`.
pub open spec fn value_absent(ns: Seq<NodeV>, v: Seq<char>) -> bool {
    forall|i: int| 0 <= i < ns.len() ==> match #[trigger] ns[i] {
        NodeV::Template(t) => params_lack(t.params, v),
        _ => true,
    }
}

pub open spec fn params_lack(ps: Seq<ParamV>, v: Seq<char>) -> bool {
    forall|k: int| 0 <= k < ps.len() ==> #[trigger] ps[k].value != v
}

/// `from` occurs nowhere in `ns` where a rule could find it: no tag names
/// it, and no template parameter holds it, with or without the namespace
/// prefix, or in the image-request templates' bare form.
pub open spec fn absent(ns: Seq<NodeV>, from: Seq<char>) -> bool {
    &&& forall|i: int| 0 <= i < ns.len() ==> !is_tag_of(#[trigger] ns[i], from)
    &&& value_absent(ns, from)
    &&& value_absent(ns, without_prefix(from, category_ns()))
    &&& value_absent(ns, bare_image_name(from))
}

proof fn lemma_lack_drop_last(ps: Seq<ParamV>, v: Seq<char>)
    requires
        ps.len() > 0,
        params_lack(ps, v),
    ensures
        params_lack(ps.drop_last(), v),
        ps.last().value != v,
{
    assert forall|k: int| 0 <= k < ps.drop_last().len() implies #[trigger] ps.drop_last()[k].value != v by {
        assert(ps.drop_last()[k] == ps[k]);
    }
}

proof fn lemma_lookup_lacks(ps: Seq<ParamV>, key: Seq<char>, v: Seq<char>)
    requires
        params_lack(ps, v),
    ensures
        lookup(ps, key) != Some(v),
    decreases ps.len(),
{
    if ps.len() > 0 {
        lemma_lack_drop_last(ps, v);
        lemma_lookup_lacks(ps.drop_last(), key, v);
    }
}

proof fn lemma_numbered_lacks(ps: Seq<ParamV>, v: Seq<char>)
    requires
        params_lack(ps, v),
    ensures
        !numbered_values(ps).contains(v),
    decreases ps.len(),
{
    if ps.len() > 0 {
        lemma_lack_drop_last(ps, v);
        lemma_numbered_lacks(ps.drop_last(), v);
        let prev = numbered_values(ps.drop_last());
        if numbered_values(ps).contains(v) && numbered_values(ps) != prev {
            let j = choose|j: int| 0 <= j < numbered_values(ps).len() && numbered_values(ps)[j] == v;
            if j < prev.len() {
                assert(prev[j] == v);
            }
        }
    }
}

proof fn lemma_cat_values_lack(ps: Seq<ParamV>, v: Seq<char>)
    requires
        params_lack(ps, v),
    ensures
        !cat_values(ps).contains(v),
    decreases ps.len(),
{
    if ps.len() > 0 {
        lemma_lack_drop_last(ps, v);
        lemma_cat_values_lack(ps.drop_last(), v);
        let prev = cat_values(ps.drop_last());
        if cat_values(ps).contains(v) && cat_values(ps) != prev {
            let j = choose|j: int| 0 <= j < cat_values(ps).len() && cat_values(ps)[j] == v;
            if j < prev.len() {
                assert(prev[j] == v);
            }
        }
    }
}

proof fn lemma_group_values_lack(ps: Seq<ParamV>, g: nat, n: nat, v: Seq<char>)
    requires
        params_lack(ps, v),
    ensures
        !group_values(ps, g, n).contains(v),
    decreases n,
{
    if n > 0 {
        lemma_group_values_lack(ps, g, (n - 1) as nat, v);
        lemma_lookup_lacks(ps, crate::category_of_redirects::cat_key(g, n), v);
        let prev = group_values(ps, g, (n - 1) as nat);
        if group_values(ps, g, n).contains(v) && group_values(ps, g, n) != prev {
            let j = choose|j: int| 0 <= j < group_values(ps, g, n).len() && group_values(ps, g, n)[j] == v;
            if j < prev.len() {
                assert(prev[j] == v);
            }
        }
    }
}

proof fn lemma_none_found(ps: Seq<ParamV>, n: nat, v: Seq<char>)
    requires
        params_lack(ps, v),
    ensures
        !any_found(ps, n, v),
    decreases n,
{
    if n > 0 {
        lemma_none_found(ps, (n - 1) as nat, v);
        lemma_group_values_lack(ps, n, 10, v);
        lemma_position(group_cats(ps, n), v);
    }
}

proof fn lemma_redirect_unchanged(ns: Seq<NodeV>, from: Seq<char>, to: Seq<Seq<char>>)
    requires
        value_absent(ns, from),
        value_absent(ns, without_prefix(from, category_ns())),
    ensures
        redirect_nodes(ns, from, to) == (ns, false),
    decreases ns.len(),
{
    if ns.len() > 0 {
        assert forall|i: int| 0 <= i < ns.drop_last().len() implies match #[trigger] ns.drop_last()[i] {
            NodeV::Template(t) => params_lack(t.params, from),
            _ => true,
        } by {
            assert(ns.drop_last()[i] == ns[i]);
        }
        assert forall|i: int| 0 <= i < ns.drop_last().len() implies match #[trigger] ns.drop_last()[i] {
            NodeV::Template(t) => params_lack(t.params, without_prefix(from, category_ns())),
            _ => true,
        } by {
            assert(ns.drop_last()[i] == ns[i]);
        }
        lemma_redirect_unchanged(ns.drop_last(), from, to);
        assert(ns.drop_last().push(ns.last()) =~= ns);
        match ns.last() {
            NodeV::Template(t) => {
                assert(ns[ns.len() - 1] == ns.last());
                lemma_numbered_lacks(t.params, from);
                lemma_position(numbered_values(t.params), from);
                lemma_none_found(t.params, 10, without_prefix(from, category_ns()));
                assert(single_outcome(t.params, from, to) == Outcome::Unchanged);
                assert(complex_outcome(t.params, from, to) == Outcome::Unchanged);
                assert(redirect_outcome(t.params, from, to) == Outcome::Unchanged);
            },
            _ => {},
        }
    }
}

proof fn lemma_image_unchanged(ns: Seq<NodeV>, from: Seq<char>, to: Seq<Seq<char>>)
    requires
        value_absent(ns, from),
    ensures
        image_nodes(ns, from, to) == (ns, false),
    decreases ns.len(),
{
    if ns.len() > 0 {
        assert forall|i: int| 0 <= i < ns.drop_last().len() implies match #[trigger] ns.drop_last()[i] {
            NodeV::Template(t) => params_lack(t.params, from),
            _ => true,
        } by {
            assert(ns.drop_last()[i] == ns[i]);
        }
        lemma_image_unchanged(ns.drop_last(), from, to);
        assert(ns.drop_last().push(ns.last()) =~= ns);
        match ns.last() {
            NodeV::Template(t) => {
                assert(ns[ns.len() - 1] == ns.last());
                lemma_cat_values_lack(t.params, from);
                lemma_position(cat_values(t.params), from);
                assert(image_outcome(t.params, from, to) == Outcome::Unchanged);
            },
            _ => {},
        }
    }
}

/// No template among `ns` lists `from` where the redirect-category rule
/// looks: among its numbered values, or (without the namespace prefix)
/// among the categories of one of its ten groups.
pub open spec fn redirect_lacks(ns: Seq<NodeV>, from: Seq<char>) -> bool {
    forall|i: int| 0 <= i < ns.len() ==> match #[trigger] ns[i] {
        NodeV::Template(t) => !numbered_values(t.params).contains(from)
            && forall|g: nat| 1 <= g <= 10 ==> !(#[trigger] group_cats(t.params, g)).contains(without_prefix(from, category_ns())),
        _ => true,
    }
}

/// No template among `ns` has a `cat...` value equal to `bare`.
pub open spec fn image_lacks(ns: Seq<NodeV>, bare: Seq<char>) -> bool {
    forall|i: int| 0 <= i < ns.len() ==> match #[trigger] ns[i] {
        NodeV::Template(t) => !cat_values(t.params).contains(bare),
        _ => true,
    }
}

proof fn lemma_groups_lack(ps: Seq<ParamV>, n: nat, v: Seq<char>)
    requires
        n <= 10,
        forall|g: nat| 1 <= g <= 10 ==> !(#[trigger] group_cats(ps, g)).contains(v),
    ensures
        !any_found(ps, n, v),
    decreases n,
{
    if n > 0 {
        lemma_groups_lack(ps, (n - 1) as nat, v);
        assert(!group_cats(ps, n).contains(v));
        lemma_position(group_cats(ps, n), v);
    }
}

/// The redirect-category rule leaves alone a page whose redirect-category
/// templates do not list `from`.
pub proof fn lemma_redirect_lacks_unchanged(ns: Seq<NodeV>, from: Seq<char>, to: Seq<Seq<char>>)
    requires
        redirect_lacks(ns, from),
    ensures
        redirect_nodes(ns, from, to) == (ns, false),
        redirect_rule(ns, from, to) is None,
    decreases ns.len(),
{
    if ns.len() > 0 {
        assert(redirect_lacks(ns.drop_last(), from)) by {
            assert forall|i: int| 0 <= i < ns.drop_last().len() implies match #[trigger] ns.drop_last()[i] {
                NodeV::Template(t) => !numbered_values(t.params).contains(from)
                    && forall|g: nat| 1 <= g <= 10 ==> !(#[trigger] group_cats(t.params, g)).contains(without_prefix(from, category_ns())),
                _ => true,
            } by {
                assert(ns.drop_last()[i] == ns[i]);
            }
        }
        lemma_redirect_lacks_unchanged(ns.drop_last(), from, to);
        assert(ns.drop_last().push(ns.last()) =~= ns);
        match ns.last() {
            NodeV::Template(t) => {
                assert(ns[ns.len() - 1] == ns.last());
                lemma_position(numbered_values(t.params), from);
                lemma_groups_lack(t.params, 10, without_prefix(from, category_ns()));
                assert(single_outcome(t.params, from, to) == Outcome::Unchanged);
                assert(complex_outcome(t.params, from, to) == Outcome::Unchanged);
                assert(redirect_outcome(t.params, from, to) == Outcome::Unchanged);
            },
            _ => {},
        }
    }
}

/// The image-request rule leaves alone a page none of whose templates has
/// the bare name `bare` among its `cat...` values.
pub proof fn lemma_image_lacks_unchanged(ns: Seq<NodeV>, bare: Seq<char>, to: Seq<Seq<char>>)
    requires
        image_lacks(ns, bare),
    ensures
        image_nodes(ns, bare, to) == (ns, false),
        image_rule(ns, bare, to) is None,
    decreases ns.len(),
{
    if ns.len() > 0 {
        assert(image_lacks(ns.drop_last(), bare)) by {
            assert forall|i: int| 0 <= i < ns.drop_last().len() implies match #[trigger] ns.drop_last()[i] {
                NodeV::Template(t) => !cat_values(t.params).contains(bare),
                _ => true,
            } by {
                assert(ns.drop_last()[i] == ns[i]);
            }
        }
        lemma_image_lacks_unchanged(ns.drop_last(), bare, to);
        assert(ns.drop_last().push(ns.last()) =~= ns);
        match ns.last() {
            NodeV::Template(t) => {
                assert(ns[ns.len() - 1] == ns.last());
                lemma_position(cat_values(t.params), bare);
                assert(image_outcome(t.params, bare, to) == Outcome::Unchanged);
            },
            _ => {},
        }
    }
}

/// A document that does not mention `from` is left as it is: every rule
/// reports nothing to do, and so does the whole chain.
pub proof fn lemma_absent_unchanged(ns: Seq<NodeV>, from: Seq<char>, to: Seq<Seq<char>>)
    requires
        absent(ns, from),
    ensures
        rule_result(RuleV::Tag { from, to }, ns) is None,
        rule_result(RuleV::Redirects { from, to }, ns) is None,
        forall|t: Seq<Seq<char>>| rule_result(RuleV::Image { from: bare_image_name(from), to: t }, ns) is None,
        chain_apply(category_rules(from, to), ns) == (ns, false),
{
    lemma_tag_position(ns, from);
    lemma_redirect_unchanged(ns, from, to);
    assert forall|t: Seq<Seq<char>>| rule_result(RuleV::Image { from: bare_image_name(from), to: t }, ns) is None by {
        lemma_image_unchanged(ns, bare_image_name(from), t);
    }
    let rules = category_rules(from, to);
    let two = seq![RuleV::Tag { from, to }, RuleV::Redirects { from, to }];
    assert(two.drop_last().drop_last() =~= Seq::<RuleV>::empty());
    assert(chain_apply(two.drop_last().drop_last(), ns) == (ns, false));
    assert(two.drop_last().last() == RuleV::Tag { from, to });
    assert(two.drop_last().len() == 1);
    assert(chain_apply(two.drop_last(), ns) == (ns, false));
    assert(two.last() == RuleV::Redirects { from, to });
    assert(chain_apply(two, ns) == (ns, false));
    if rules.len() == 3 {
        assert(rules.drop_last() =~= two);
    }
}

} // verus!
