//! Merging the two member listings of a category (direct membership and
//! full-text search) into one stream in which each page comes once.
use vstd::prelude::*;
use crate::splice::{contains_text, lemma_drop_last_take};
use crate::text::{lemma_strs_push, strs};

verus! {

/// One item of a member listing: a page title, or an error that the
/// listing reported in its place.
pub enum Member {
    Page(String),
    Failed(String),
}

pub enum MemberV {
    Page(Seq<char>),
    Failed(Seq<char>),
}

impl View for Member {
    type V = MemberV;

    open spec fn view(&self) -> MemberV {
        match self {
            Member::Page(t) => MemberV::Page(t@),
            Member::Failed(e) => MemberV::Failed(e@),
        }
    }
}

impl Member {
    pub fn copy(&self) -> (r: Member)
        ensures
            r@ == self@,
    {
        match self {
            Member::Page(t) => Member::Page(t.clone()),
            Member::Failed(e) => Member::Failed(e.clone()),
        }
    }
}

/// The titles in order of first arrival, each once.
pub open spec fn first_seen(ts: Seq<Seq<char>>) -> Seq<Seq<char>>
    decreases ts.len(),
{
    if ts.len() == 0 {
        Seq::empty()
    } else {
        let prev = first_seen(ts.drop_last());
        if prev.contains(ts.last()) { prev } else { prev.push(ts.last()) }
    }
}

/// The titles among a run of listing items.
pub open spec fn titles(ms: Seq<MemberV>) -> Seq<Seq<char>>
    decreases ms.len(),
{
    if ms.len() == 0 {
        Seq::empty()
    } else {
        match ms.last() {
            MemberV::Page(t) => titles(ms.drop_last()).push(t),
            MemberV::Failed(_) => titles(ms.drop_last()),
        }
    }
}

/// What passes the filter from a run of listing items: every error, and
/// each page the first time it comes.
pub open spec fn delivered(ms: Seq<MemberV>) -> Seq<MemberV>
    decreases ms.len(),
{
    if ms.len() == 0 {
        Seq::empty()
    } else {
        let prev = delivered(ms.drop_last());
        match ms.last() {
            MemberV::Page(t) => if first_seen(titles(ms.drop_last())).contains(t) {
                prev
            } else {
                prev.push(ms.last())
            },
            MemberV::Failed(_) => prev.push(ms.last()),
        }
    }
}

/// Shared by both listings: remembers the pages already passed on.
pub struct MemberFilter {
    seen: Vec<String>,
}

impl View for MemberFilter {
    type V = Seq<Seq<char>>;

    closed spec fn view(&self) -> Seq<Seq<char>> {
        strs(self.seen@)
    }
}

impl MemberFilter {
    pub fn new() -> (r: MemberFilter)
        ensures
            r@ == Seq::<Seq<char>>::empty(),
    {
        let r = MemberFilter { seen: Vec::new() };
        assert(r@ =~= Seq::<Seq<char>>::empty());
        r
    }

    /// Whether `member` goes on: an error always does, a page only the first
    /// time its title comes.
    pub fn let_through(&mut self, member: &Member) -> (pass: bool)
        ensures
            match member@ {
                MemberV::Failed(_) => pass && final(self)@ == old(self)@,
                MemberV::Page(t) => pass == !old(self)@.contains(t)
                    && final(self)@ == if pass { old(self)@.push(t) } else { old(self)@ },
            },
    {
        match member {
            Member::Failed(_) => true,
            Member::Page(t) => {
                if contains_text(&self.seen, t.as_str()) {
                    false
                } else {
                    proof {
                        lemma_strs_push(self.seen@, *t);
                    }
                    self.seen.push(t.clone());
                    true
                }
            },
        }
    }
}

/// Runs a whole arrival order through one filter: the items that go on, in order.
pub fn merge_members(arrivals: &Vec<Member>) -> (r: Vec<Member>)
    ensures
        r@.map_values(|m: Member| m@) == delivered(arrivals@.map_values(|m: Member| m@)),
{
    let ghost ms = arrivals@.map_values(|m: Member| m@);
    let mut filter = MemberFilter::new();
    let mut out: Vec<Member> = Vec::new();
    let mut k: usize = 0;
    while k < arrivals.len()
        invariant
            k <= arrivals.len(),
            ms == arrivals@.map_values(|m: Member| m@),
            filter@ == first_seen(titles(ms.take(k as int))),
            out@.map_values(|m: Member| m@) == delivered(ms.take(k as int)),
        decreases arrivals.len() - k,
    {
        proof {
            lemma_drop_last_take(ms, k as int);
        }
        assert(ms[k as int] == arrivals@[k as int]@);
        let ghost before = out@;
        if filter.let_through(&arrivals[k]) {
            let m = arrivals[k].copy();
            out.push(m);
            assert(out@.map_values(|m: Member| m@) =~= before.map_values(|m: Member| m@).push(m@));
        }
        proof {
            let tk = titles(ms.take(k as int));
            match ms[k as int] {
                MemberV::Page(t) => {
                    assert(titles(ms.take(k + 1)) == tk.push(t));
                    assert(tk.push(t).drop_last() =~= tk);
                },
                MemberV::Failed(_) => {
                    assert(titles(ms.take(k + 1)) == tk);
                },
            }
        }
        k = k + 1;
    }
    assert(ms.take(arrivals.len() as int) =~= ms);
    out
}

pub proof fn lemma_first_seen(ts: Seq<Seq<char>>)
    ensures
        first_seen(ts).no_duplicates(),
        forall|t: Seq<char>| #[trigger] first_seen(ts).contains(t) <==> ts.contains(t),
    decreases ts.len(),
{
    if ts.len() > 0 {
        let prev = first_seen(ts.drop_last());
        lemma_first_seen(ts.drop_last());
        assert forall|t: Seq<char>| #[trigger] first_seen(ts).contains(t) <==> ts.contains(t) by {
            if ts.drop_last().contains(t) {
                let j = choose|j: int| 0 <= j < ts.drop_last().len() && ts.drop_last()[j] == t;
                assert(ts[j] == t);
            }
            if ts.contains(t) && !ts.drop_last().contains(t) {
                let j = choose|j: int| 0 <= j < ts.len() && ts[j] == t;
                if j < ts.len() - 1 {
                    assert(ts.drop_last()[j] == t);
                }
                assert(t == ts.last());
            }
            if !prev.contains(ts.last()) {
                if first_seen(ts).contains(t) && !prev.contains(t) {
                    let j = choose|j: int| 0 <= j < first_seen(ts).len() && first_seen(ts)[j] == t;
                    if j < prev.len() {
                        assert(prev[j] == t);
                    }
                }
                if prev.contains(t) {
                    let j = choose|j: int| 0 <= j < prev.len() && prev[j] == t;
                    assert(first_seen(ts)[j] == t);
                }
                assert(first_seen(ts)[prev.len() as int] == ts.last());
            }
        }
    }
}

/// Each page reaches the consumer exactly once: whatever the order in which
/// the two listings' items arrive, a page that both listings report passes
/// the filter once, and no page passes twice.
pub proof fn lemma_discovery_once(a: Seq<Seq<char>>, b: Seq<Seq<char>>, arrivals: Seq<Seq<char>>, t: Seq<char>)
    requires
        a.contains(t),
        b.contains(t),
        forall|x: Seq<char>| #[trigger] arrivals.contains(x) <==> (a.contains(x) || b.contains(x)),
    ensures
        first_seen(arrivals).contains(t),
        first_seen(arrivals).no_duplicates(),
{
    lemma_first_seen(arrivals);
}

} // verus!
