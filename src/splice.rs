//! Ordered category lists: locating a reference and splicing targets in
//! its place without creating duplicates.
use vstd::prelude::*;
use crate::text::{lemma_strs_push, same_text, strs};

verus! {

/// The entries of `to`, in order, that are neither in `taken` nor earlier in `to`.
pub open spec fn fresh(to: Seq<Seq<char>>, taken: Seq<Seq<char>>) -> Seq<Seq<char>>
    decreases to.len(),
{
    if to.len() == 0 {
        Seq::empty()
    } else {
        let f = fresh(to.drop_last(), taken);
        if taken.contains(to.last()) || f.contains(to.last()) {
            f
        } else {
            f.push(to.last())
        }
    }
}

/// Index of the first occurrence of `x` in `list`, or -1.
pub open spec fn position(list: Seq<Seq<char>>, x: Seq<char>) -> int
    decreases list.len(),
{
    if list.len() == 0 {
        -1
    } else {
        let p = position(list.drop_last(), x);
        if p >= 0 {
            p
        } else if list.last() == x {
            list.len() - 1
        } else {
            -1
        }
    }
}

/// `list` with its entry at `i` replaced by the fresh entries of `to`.
pub open spec fn spliced(list: Seq<Seq<char>>, i: int, to: Seq<Seq<char>>) -> Seq<Seq<char>> {
    let rest = list.remove(i);
    rest.take(i) + fresh(to, rest) + rest.skip(i)
}

pub proof fn lemma_position(list: Seq<Seq<char>>, x: Seq<char>)
    ensures
        -1 <= position(list, x) < list.len(),
        position(list, x) >= 0 ==> list[position(list, x)] == x,
        position(list, x) >= 0 ==> forall|j: int|
            0 <= j < position(list, x) ==> list[j] != x,
        position(list, x) == -1 <==> !list.contains(x),
    decreases list.len(),
{
    if list.len() > 0 {
        lemma_position(list.drop_last(), x);
        if position(list, x) == -1 {
            assert forall|j: int| 0 <= j < list.len() implies list[j] != x by {
                if j < list.len() - 1 {
                    assert(list.drop_last()[j] == list[j]);
                }
            }
        } else {
            if position(list.drop_last(), x) == -1 {
                assert forall|j: int| 0 <= j < position(list, x) implies list[j] != x by {
                    assert(list.drop_last()[j] == list[j]);
                }
            } else {
                assert forall|j: int| 0 <= j < position(list, x) implies list[j] != x by {
                    assert(list.drop_last()[j] == list[j]);
                }
            }
            assert(list.drop_last().contains(x) ==> list.contains(x)) by {
                if list.drop_last().contains(x) {
                    let j = choose|j: int| 0 <= j < list.drop_last().len() && list.drop_last()[j] == x;
                    assert(list[j] == x);
                }
            }
        }
    }
}

pub proof fn lemma_position_prefix(l: Seq<Seq<char>>, n: int, x: Seq<char>)
    requires
        0 <= n <= l.len(),
        position(l.take(n), x) >= 0,
    ensures
        position(l, x) == position(l.take(n), x),
    decreases l.len(),
{
    if l.len() == n {
        assert(l.take(n) =~= l);
    } else {
        assert(l.drop_last().take(n) =~= l.take(n));
        lemma_position_prefix(l.drop_last(), n, x);
    }
}

pub proof fn lemma_fresh(to: Seq<Seq<char>>, taken: Seq<Seq<char>>)
    ensures
        fresh(to, taken).no_duplicates(),
        forall|x: Seq<char>| #[trigger] fresh(to, taken).contains(x) ==> to.contains(x) && !taken.contains(x),
        forall|x: Seq<char>| to.contains(x) && !taken.contains(x) ==> #[trigger] fresh(to, taken).contains(x),
        fresh(to, taken).len() <= to.len(),
    decreases to.len(),
{
    if to.len() > 0 {
        let f = fresh(to.drop_last(), taken);
        lemma_fresh(to.drop_last(), taken);
        assert forall|x: Seq<char>| #[trigger] fresh(to, taken).contains(x) implies to.contains(x) && !taken.contains(x) by {
            if f.contains(x) {
                let j = choose|j: int| 0 <= j < to.drop_last().len() && to.drop_last()[j] == x;
                assert(to[j] == x);
            } else {
                assert(fresh(to, taken).last() == x);
                assert(to[to.len() - 1] == x);
            }
        }
        assert forall|x: Seq<char>| to.contains(x) && !taken.contains(x) implies #[trigger] fresh(to, taken).contains(x) by {
            let j = choose|j: int| 0 <= j < to.len() && to[j] == x;
            if j < to.len() - 1 {
                assert(to.drop_last()[j] == x);
                assert(f.contains(x));
                if !(taken.contains(to.last()) || f.contains(to.last())) {
                    let k = choose|k: int| 0 <= k < f.len() && f[k] == x;
                    assert(f.push(to.last())[k] == x);
                }
            } else {
                if !(taken.contains(to.last()) || f.contains(to.last())) {
                    assert(f.push(to.last())[f.len() as int] == x);
                }
            }
        }
    }
}

pub proof fn lemma_drop_last_take<A>(s: Seq<A>, k: int)
    requires
        0 <= k < s.len(),
    ensures
        s.take(k + 1).drop_last() == s.take(k),
        s.take(k + 1).last() == s[k],
{
    assert(s.take(k + 1).drop_last() =~= s.take(k));
}

/// Where `to` has no duplicates, its fresh entries are exactly those not
/// in `taken`, in order.
pub proof fn lemma_fresh_filter(to: Seq<Seq<char>>, taken: Seq<Seq<char>>)
    requires
        to.no_duplicates(),
    ensures
        fresh(to, taken) == to.filter(|t: Seq<char>| !taken.contains(t)),
    decreases to.len(),
{
    reveal(Seq::filter);
    if to.len() > 0 {
        let d = to.drop_last();
        assert(d.no_duplicates()) by {
            assert forall|x: int, y: int| 0 <= x < d.len() && 0 <= y < d.len() && x != y implies d[x] != d[y] by {
                assert(d[x] == to[x] && d[y] == to[y]);
            }
        }
        lemma_fresh_filter(d, taken);
        lemma_fresh(d, taken);
        if fresh(d, taken).contains(to.last()) {
            let j = choose|j: int| 0 <= j < d.len() && d[j] == to.last();
            assert(to[j] == to[to.len() - 1]);
        }
    }
}

/// Splicing keeps the order of the entries around the spliced one, inserts
/// only entries of `to`, and never makes a list without duplicates hold one.
pub proof fn lemma_splice_order(list: Seq<Seq<char>>, i: int, to: Seq<Seq<char>>)
    requires
        0 <= i < list.len(),
        list.no_duplicates(),
    ensures
        spliced(list, i, to).take(i) == list.take(i),
        spliced(list, i, to).skip(i + fresh(to, list.remove(i)).len()) == list.skip(i + 1),
        spliced(list, i, to).len() == list.len() - 1 + fresh(to, list.remove(i)).len(),
        forall|j: int| i <= j < i + fresh(to, list.remove(i)).len() ==> to.contains(#[trigger] spliced(list, i, to)[j]),
        spliced(list, i, to).no_duplicates(),
{
    let rest = list.remove(i);
    let f = fresh(to, rest);
    let r = spliced(list, i, to);
    lemma_fresh(to, rest);
    assert(rest.take(i) =~= list.take(i));
    assert(r.take(i) =~= list.take(i));
    assert(rest.skip(i) =~= list.skip(i + 1));
    assert(r.skip(i + f.len()) =~= list.skip(i + 1));
    assert forall|a: int, b: int| 0 <= a < b < rest.len() implies rest[a] != rest[b] by {
        let a2 = if a < i { a } else { a + 1 };
        let b2 = if b < i { b } else { b + 1 };
        assert(rest[a] == list[a2]);
        assert(rest[b] == list[b2]);
    }
    assert forall|j: int| i <= j < i + f.len() implies to.contains(#[trigger] r[j]) by {
        assert(r[j] == f[j - i]);
        assert(f.contains(f[j - i]));
    }
    assert forall|a: int, b: int| 0 <= a < r.len() && 0 <= b < r.len() && a != b implies r[a] != r[b] by {
        let ia = a < i || a >= i + f.len();
        let ib = b < i || b >= i + f.len();
        if ia {
            let ra = if a < i { a } else { a - f.len() };
            assert(r[a] == rest[ra]);
            assert(rest.contains(r[a]));
        }
        if ib {
            let rb = if b < i { b } else { b - f.len() };
            assert(r[b] == rest[rb]);
            assert(rest.contains(r[b]));
        }
        if !ia {
            assert(r[a] == f[a - i]);
            assert(f.contains(r[a]));
        }
        if !ib {
            assert(r[b] == f[b - i]);
            assert(f.contains(r[b]));
        }
    }
}

/// Whether `x` is one of the entries of `list`.
pub fn contains_text(list: &Vec<String>, x: &str) -> (r: bool)
    ensures
        r == strs(list@).contains(x@),
{
    let mut k: usize = 0;
    while k < list.len()
        invariant
            k <= list.len(),
            forall|j: int| 0 <= j < k ==> list@[j]@ != x@,
        decreases list.len() - k,
    {
        if same_text(list[k].as_str(), x) {
            assert(strs(list@)[k as int] == x@);
            return true;
        }
        k = k + 1;
    }
    assert(!strs(list@).contains(x@)) by {
        if strs(list@).contains(x@) {
            let j = choose|j: int| 0 <= j < strs(list@).len() && strs(list@)[j] == x@;
            assert(list@[j]@ == x@);
        }
    }
    false
}

/// The first index at which `x` stands in `list`.
pub fn find_text(list: &Vec<String>, x: &str) -> (r: Option<usize>)
    ensures
        match r {
            Some(i) => position(strs(list@), x@) == i as int,
            None => position(strs(list@), x@) == -1,
        },
{
    let ghost l = strs(list@);
    let mut k: usize = 0;
    while k < list.len()
        invariant
            k <= list.len(),
            l == strs(list@),
            position(l.take(k as int), x@) == -1,
        decreases list.len() - k,
    {
        proof {
            lemma_drop_last_take(l, k as int);
        }
        if same_text(list[k].as_str(), x) {
            assert(strs(list@)[k as int] == x@);
            proof {
                lemma_position_prefix(l, k + 1, x@);
            }
            return Some(k);
        }
        k = k + 1;
    }
    assert(l.take(list.len() as int) == l);
    None
}

/// The entries of `to` that are in neither `taken` nor earlier in `to`.
pub fn fresh_targets(to: &Vec<String>, taken: &Vec<String>) -> (r: Vec<String>)
    ensures
        strs(r@) == fresh(strs(to@), strs(taken@)),
{
    let ghost t = strs(to@);
    let mut out: Vec<String> = Vec::new();
    let mut k: usize = 0;
    while k < to.len()
        invariant
            k <= to.len(),
            t == strs(to@),
            strs(out@) == fresh(t.take(k as int), strs(taken@)),
        decreases to.len() - k,
    {
        proof {
            lemma_drop_last_take(t, k as int);
        }
        let cand = &to[k];
        if !contains_text(taken, cand.as_str()) && !contains_text(&out, cand.as_str()) {
            proof {
                lemma_strs_push(out@, *cand);
            }
            out.push(cand.clone());
            assert(strs(out@) =~= fresh(t.take(k as int), strs(taken@)).push(cand@));
        }
        k = k + 1;
    }
    assert(t.take(to.len() as int) == t);
    out
}

/// `list` with the entry at `i` replaced by the fresh entries of `to`, in order.
pub fn splice_at(list: &Vec<String>, i: usize, to: &Vec<String>) -> (r: Vec<String>)
    requires
        i < list.len(),
    ensures
        strs(r@) == spliced(strs(list@), i as int, strs(to@)),
{
    let mut rest: Vec<String> = Vec::new();
    let mut k: usize = 0;
    while k < list.len()
        invariant
            k <= list.len(),
            i < list.len(),
            strs(rest@) == (if k <= i { strs(list@).take(k as int) } else { strs(list@).remove(i as int).take(k - 1) }),
        decreases list.len() - k,
    {
        if k != i {
            proof {
                lemma_strs_push(rest@, list@[k as int]);
            }
            rest.push(list[k].clone());
        }
        proof {
            if k < i {
                assert(strs(rest@) =~= strs(list@).take(k + 1));
            } else if k > i {
                assert(strs(rest@) =~= strs(list@).remove(i as int).take(k as int));
            } else {
                assert(strs(rest@) =~= strs(list@).remove(i as int).take(k as int));
            }
        }
        k = k + 1;
    }
    let ghost rv = strs(list@).remove(i as int);
    assert(strs(rest@) =~= rv);
    let ins = fresh_targets(to, &rest);
    let mut out: Vec<String> = Vec::new();
    let mut k: usize = 0;
    while k < i
        invariant
            k <= i,
            i <= rest.len(),
            strs(out@) == strs(rest@).take(k as int),
        decreases i - k,
    {
        proof {
            lemma_strs_push(out@, rest@[k as int]);
        }
        out.push(rest[k].clone());
        assert(strs(out@) =~= strs(rest@).take(k + 1));
        k = k + 1;
    }
    let mut k: usize = 0;
    while k < ins.len()
        invariant
            k <= ins.len(),
            strs(out@) == strs(rest@).take(i as int) + strs(ins@).take(k as int),
        decreases ins.len() - k,
    {
        proof {
            lemma_strs_push(out@, ins@[k as int]);
        }
        out.push(ins[k].clone());
        assert(strs(out@) =~= strs(rest@).take(i as int) + strs(ins@).take(k + 1));
        k = k + 1;
    }
    assert(strs(ins@).take(ins.len() as int) =~= strs(ins@));
    let mut k: usize = i;
    while k < rest.len()
        invariant
            i <= k <= rest.len(),
            strs(out@) == strs(rest@).take(i as int) + strs(ins@) + strs(rest@).subrange(i as int, k as int),
        decreases rest.len() - k,
    {
        proof {
            lemma_strs_push(out@, rest@[k as int]);
        }
        out.push(rest[k].clone());
        assert(strs(out@) =~= strs(rest@).take(i as int) + strs(ins@) + strs(rest@).subrange(i as int, k + 1));
        k = k + 1;
    }
    assert(strs(rest@).subrange(i as int, rest.len() as int) =~= strs(rest@).skip(i as int));
    out
}

} // verus!
