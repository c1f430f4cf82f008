//! Choosing among samples: the first one that qualifies, or the one with
//! the least or greatest key among those that qualify, the earliest on ties.
//!
//! A key stands for the measured value that decides the choice; two keys
//! compare as the values they stand for.

use vstd::prelude::*;

verus! {

/// A sample that may qualify for the choice, with the key it is ranked by.
#[derive(Clone, Copy, Debug, PartialEq, Eq, Structural)]
pub struct Candidate {
    pub eligible: bool,
    pub key: u64,
}

/// Whether no sample of `c` qualifies.
pub open spec fn none_eligible(c: Seq<Candidate>) -> bool {
    forall|j: int| 0 <= j < c.len() ==> !(#[trigger] c[j]).eligible
}

/// Whether `i` is the first qualifying sample of `c`.
pub open spec fn is_first_eligible(c: Seq<Candidate>, i: int) -> bool {
    &&& 0 <= i < c.len()
    &&& c[i].eligible
    &&& forall|j: int| 0 <= j < i ==> !(#[trigger] c[j]).eligible
}

/// Whether `i` is the qualifying sample of `c` with the least key, the
/// earliest of them on ties.
pub open spec fn is_first_lowest(c: Seq<Candidate>, i: int) -> bool {
    &&& 0 <= i < c.len()
    &&& c[i].eligible
    &&& forall|j: int| 0 <= j < c.len() && (#[trigger] c[j]).eligible ==> c[i].key <= c[j].key
    &&& forall|j: int| 0 <= j < i && (#[trigger] c[j]).eligible ==> c[i].key < c[j].key
}

/// Whether `i` is the qualifying sample of `c` with the greatest key, the
/// earliest of them on ties.
pub open spec fn is_first_highest(c: Seq<Candidate>, i: int) -> bool {
    &&& 0 <= i < c.len()
    &&& c[i].eligible
    &&& forall|j: int| 0 <= j < c.len() && (#[trigger] c[j]).eligible ==> c[j].key <= c[i].key
    &&& forall|j: int| 0 <= j < i && (#[trigger] c[j]).eligible ==> c[j].key < c[i].key
}

/// The first qualifying sample; `None` when none qualifies.
pub fn select_first(c: &Vec<Candidate>) -> (chosen: Option<usize>)
    ensures
        chosen is None <==> none_eligible(c@),
        chosen matches Some(i) ==> is_first_eligible(c@, i as int),
{
    let mut i: usize = 0;
    while i < c.len()
        invariant
            i <= c.len(),
            forall|j: int| 0 <= j < i ==> !(#[trigger] c@[j]).eligible,
        decreases c.len() - i,
    {
        if c[i].eligible {
            return Some(i);
        }
        i = i + 1;
    }
    None
}

/// The qualifying sample with the least key, the earliest of them on ties;
/// `None` when none qualifies.
pub fn select_lowest(c: &Vec<Candidate>) -> (chosen: Option<usize>)
    ensures
        chosen is None <==> none_eligible(c@),
        chosen matches Some(i) ==> is_first_lowest(c@, i as int),
{
    let mut best: Option<usize> = None;
    let mut i: usize = 0;
    while i < c.len()
        invariant
            i <= c.len(),
            best is None <==> (forall|j: int| 0 <= j < i ==> !(#[trigger] c@[j]).eligible),
            best matches Some(b) ==> b < i && is_first_lowest(c@.subrange(0, i as int), b as int),
        decreases c.len() - i,
    {
        let take = match best {
            None => c[i].eligible,
            Some(b) => c[i].eligible && c[i].key < c[b].key,
        };
        proof {
            assert forall|j: int| 0 <= j < i implies c@.subrange(0, i + 1)[j] == c@.subrange(
                0,
                i as int,
            )[j] by {}
        }
        if take {
            best = Some(i);
        }
        i = i + 1;
    }
    proof {
        assert(c@.subrange(0, i as int) =~= c@);
    }
    best
}

/// The qualifying sample with the greatest key, the earliest of them on
/// ties; `None` when none qualifies.
pub fn select_highest(c: &Vec<Candidate>) -> (chosen: Option<usize>)
    ensures
        chosen is None <==> none_eligible(c@),
        chosen matches Some(i) ==> is_first_highest(c@, i as int),
{
    let mut best: Option<usize> = None;
    let mut i: usize = 0;
    while i < c.len()
        invariant
            i <= c.len(),
            best is None <==> (forall|j: int| 0 <= j < i ==> !(#[trigger] c@[j]).eligible),
            best matches Some(b) ==> b < i && is_first_highest(c@.subrange(0, i as int), b as int),
        decreases c.len() - i,
    {
        let take = match best {
            None => c[i].eligible,
            Some(b) => c[i].eligible && c[i].key > c[b].key,
        };
        proof {
            assert forall|j: int| 0 <= j < i implies c@.subrange(0, i + 1)[j] == c@.subrange(
                0,
                i as int,
            )[j] by {}
        }
        if take {
            best = Some(i);
        }
        i = i + 1;
    }
    proof {
        assert(c@.subrange(0, i as int) =~= c@);
    }
    best
}

/// The qualifying sample with the least key, earliest on ties, is one
/// sample: the choice is well defined.
pub proof fn law_first_lowest_unique(c: Seq<Candidate>, i: int, j: int)
    requires
        is_first_lowest(c, i),
        is_first_lowest(c, j),
    ensures
        i == j,
{
    if i < j {
        assert(c[j].key < c[i].key);
    } else if j < i {
        assert(c[i].key < c[j].key);
    }
}

/// The best match never comes before the first hit.
pub proof fn law_best_not_before_first(c: Seq<Candidate>, first: int, best: int)
    requires
        is_first_eligible(c, first),
        is_first_lowest(c, best),
    ensures
        first <= best,
{
    if best < first {
        assert(!c[best].eligible);
    }
}
} // verus!
