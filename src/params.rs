//! Operations on a template's ordered parameter list.
use vstd::prelude::*;
use crate::document::{lemma_params_push, params_view, Param, ParamV};
use crate::splice::lemma_drop_last_take;
use crate::text::{decimal, decimal_text, is_numeric, is_numeric_key, lemma_strs_push, same_text, strs};

verus! {

/// What a rule does to one template.
pub enum Outcome {
    Unchanged,
    Delete,
    Replace(Seq<ParamV>),
}

/// The executable counterpart of [`Outcome`].
pub enum Edit {
    Keep,
    Remove,
    Rewrite(Vec<Param>),
}

impl View for Edit {
    type V = Outcome;

    open spec fn view(&self) -> Outcome {
        match self {
            Edit::Keep => Outcome::Unchanged,
            Edit::Remove => Outcome::Delete,
            Edit::Rewrite(ps) => Outcome::Replace(params_view(ps@)),
        }
    }
}

/// Same keys and values in the same order (parse links are not compared).
pub open spec fn kv_same(a: Seq<ParamV>, b: Seq<ParamV>) -> bool {
    a.len() == b.len() && forall|k: int| 0 <= k < a.len() ==> (#[trigger] a[k]).key == b[k].key && a[k].value == b[k].value
}

/// The value of the first parameter with key `key`.
pub open spec fn lookup(ps: Seq<ParamV>, key: Seq<char>) -> Option<Seq<char>>
    decreases ps.len(),
{
    if ps.len() == 0 {
        None
    } else {
        match lookup(ps.drop_last(), key) {
            Some(v) => Some(v),
            None => if ps.last().key == key { Some(ps.last().value) } else { None },
        }
    }
}

/// The values of the parameters whose key is a number, in order.
pub open spec fn numbered_values(ps: Seq<ParamV>) -> Seq<Seq<char>>
    decreases ps.len(),
{
    if ps.len() == 0 {
        Seq::empty()
    } else if is_numeric_key(ps.last().key) {
        numbered_values(ps.drop_last()).push(ps.last().value)
    } else {
        numbered_values(ps.drop_last())
    }
}

/// The parameters whose key is not a number, in order.
pub open spec fn unnumbered(ps: Seq<ParamV>) -> Seq<ParamV>
    decreases ps.len(),
{
    if ps.len() == 0 {
        Seq::empty()
    } else if is_numeric_key(ps.last().key) {
        unnumbered(ps.drop_last())
    } else {
        unnumbered(ps.drop_last()).push(ps.last())
    }
}

/// The list as parameters keyed `1`, `2`, ... in order.
pub open spec fn numbered(list: Seq<Seq<char>>) -> Seq<ParamV> {
    Seq::new(list.len(), |k: int| ParamV { key: decimal((k + 1) as nat), value: list[k], parsed: None, rewritten: None })
}

/// Whether two parameter lists hold the same keys and values in the same order.
pub fn same_params(a: &Vec<Param>, b: &Vec<Param>) -> (r: bool)
    ensures
        r == kv_same(params_view(a@), params_view(b@)),
{
    if a.len() != b.len() {
        return false;
    }
    let mut k: usize = 0;
    while k < a.len()
        invariant
            a.len() == b.len(),
            k <= a.len(),
            forall|j: int| 0 <= j < k ==> (#[trigger] params_view(a@)[j]).key == params_view(b@)[j].key
                && params_view(a@)[j].value == params_view(b@)[j].value,
        decreases a.len() - k,
    {
        if a[k].key != b[k].key || a[k].value != b[k].value {
            assert(params_view(a@)[k as int].key == a@[k as int].key@);
            assert(params_view(b@)[k as int].key == b@[k as int].key@);
            return false;
        }
        assert(params_view(a@)[k as int] == a@[k as int]@);
        assert(params_view(b@)[k as int] == b@[k as int]@);
        k = k + 1;
    }
    true
}

/// The value of the first parameter keyed `key`.
pub fn lookup_param(ps: &Vec<Param>, key: &str) -> (r: Option<String>)
    ensures
        match r {
            Some(v) => lookup(params_view(ps@), key@) == Some(v@),
            None => lookup(params_view(ps@), key@) is None,
        },
{
    let ghost pv = params_view(ps@);
    let mut k: usize = 0;
    while k < ps.len()
        invariant
            k <= ps.len(),
            pv == params_view(ps@),
            lookup(pv.take(k as int), key@) is None,
        decreases ps.len() - k,
    {
        proof {
            lemma_drop_last_take(pv, k as int);
        }
        if same_text(ps[k].key.as_str(), key) {
            proof {
                lemma_lookup_prefix(pv, k + 1, key@);
            }
            return Some(ps[k].value.clone());
        }
        k = k + 1;
    }
    assert(pv.take(ps.len() as int) =~= pv);
    None
}

pub proof fn lemma_lookup_prefix(ps: Seq<ParamV>, n: int, key: Seq<char>)
    requires
        0 <= n <= ps.len(),
        lookup(ps.take(n), key) is Some,
    ensures
        lookup(ps, key) == lookup(ps.take(n), key),
    decreases ps.len(),
{
    if ps.len() == n {
        assert(ps.take(n) =~= ps);
    } else {
        assert(ps.drop_last().take(n) =~= ps.take(n));
        lemma_lookup_prefix(ps.drop_last(), n, key);
    }
}

/// Splits the parameters into the values of the numbered ones and the others.
pub fn split_numbered(ps: &Vec<Param>) -> (r: (Vec<String>, Vec<Param>))
    ensures
        strs(r.0@) == numbered_values(params_view(ps@)),
        params_view(r.1@) == unnumbered(params_view(ps@)),
{
    let ghost pv = params_view(ps@);
    let mut cats: Vec<String> = Vec::new();
    let mut others: Vec<Param> = Vec::new();
    let mut k: usize = 0;
    while k < ps.len()
        invariant
            k <= ps.len(),
            pv == params_view(ps@),
            strs(cats@) == numbered_values(pv.take(k as int)),
            params_view(others@) == unnumbered(pv.take(k as int)),
        decreases ps.len() - k,
    {
        proof {
            lemma_drop_last_take(pv, k as int);
        }
        if is_numeric(ps[k].key.as_str()) {
            proof {
                lemma_strs_push(cats@, ps@[k as int].value);
            }
            cats.push(ps[k].value.clone());
        } else {
            let p = ps[k].copy();
            proof {
                lemma_params_push(others@, p);
            }
            others.push(p);
        }
        k = k + 1;
    }
    assert(pv.take(ps.len() as int) =~= pv);
    (cats, others)
}

/// Appends the list to `out` as parameters keyed `1`, `2`, ...
pub fn push_numbered(out: &mut Vec<Param>, list: &Vec<String>)
    ensures
        params_view(final(out)@) == params_view(old(out)@) + numbered(strs(list@)),
{
    let ghost start = params_view(out@);
    let mut k: usize = 0;
    while k < list.len()
        invariant
            k <= list.len(),
            params_view(out@) == start + numbered(strs(list@)).take(k as int),
        decreases list.len() - k,
    {
        let p = Param { key: decimal_text(k + 1), value: list[k].clone(), parsed: None, rewritten: None };
        proof {
            lemma_params_push(out@, p);
        }
        out.push(p);
        assert(params_view(out@) =~= start + numbered(strs(list@)).take(k + 1));
        k = k + 1;
    }
    assert(numbered(strs(list@)).take(list.len() as int) =~= numbered(strs(list@)));
}

/// `a` followed by `b`.
pub fn concat_params(a: Vec<Param>, b: Vec<Param>) -> (r: Vec<Param>)
    ensures
        params_view(r@) == params_view(a@) + params_view(b@),
{
    let mut out = a;
    let mut rest = b;
    out.append(&mut rest);
    assert(params_view(out@) =~= params_view(a@) + params_view(b@));
    out
}

} // verus!
