//! Deciding the alignment time of an observation window.
//!
//! For every sample of the window the caller tells whether the sun and the
//! summit were within the thresholds of each other, and ranks the sample by
//! their angular separation. The library decides which sample is the
//! alignment and turns its local Japan Standard Time into UNIX time.

use vstd::prelude::*;

use crate::calendar::{jst_unix_time, max_epoch_day, min_epoch_day};
use crate::selection::{is_first_lowest, select_lowest, Candidate};

verus! {

/// The sample chosen as the alignment, and its UNIX time.
#[derive(Clone, Copy, Debug, PartialEq, Eq, Structural)]
pub struct AlignmentChoice {
    pub index: usize,
    pub unix_time: i64,
}

/// Whether the local JST time `local` has a UNIX time in `chrono`'s range.
pub open spec fn jst_convertible(local: int) -> bool {
    min_epoch_day() <= (local - 32400) / 86400 <= max_epoch_day()
}

/// Whether every time of `window` can be shifted to UTC in `i64`.
pub open spec fn window_shiftable(window: Seq<i64>) -> bool {
    forall|i: int| 0 <= i < window.len() ==> i64::MIN + 32400 <= #[trigger] window[i]
}

/// The best match of a window: among the samples within the thresholds, the
/// one with the least angular separation (the earliest on ties), with its
/// UNIX time; `None` when no sample is within the thresholds or the chosen
/// one has no UNIX time in `chrono`'s range.
pub fn choose_best_alignment(window: &Vec<i64>, candidates: &Vec<Candidate>) -> (choice: Option<
    AlignmentChoice,
>)
    requires
        window.len() == candidates.len(),
        window_shiftable(window@),
    ensures
        choice is Some <==> exists|i: int|
            is_first_lowest(candidates@, i) && jst_convertible(#[trigger] window@[i] as int),
        choice matches Some(ch) ==> is_first_lowest(candidates@, ch.index as int)
            && ch.unix_time == window@[ch.index as int] - 32400,
{
    match select_lowest(candidates) {
        None => None,
        Some(i) => {
            let w = window[i];
            match jst_unix_time(w) {
                Some(unix_time) => Some(AlignmentChoice { index: i, unix_time }),
                None => {
                    proof {
                        assert forall|j: int|
                            is_first_lowest(candidates@, j) implies !jst_convertible(
                            #[trigger] window@[j] as int,
                        ) by {
                            crate::selection::law_first_lowest_unique(candidates@, i as int, j);
                        }
                    }
                    None
                },
            }
        },
    }
}

/// The first hit of a window: the earliest sample within the thresholds
/// whose time has a UNIX time in `chrono`'s range, with that UNIX time.
pub fn choose_first_alignment(window: &Vec<i64>, within: &Vec<bool>) -> (choice: Option<
    AlignmentChoice,
>)
    requires
        window.len() == within.len(),
        window_shiftable(window@),
    ensures
        choice is None <==> forall|j: int|
            0 <= j < window.len() ==> !(within@[j] && jst_convertible(#[trigger] window@[j] as int)),
        choice matches Some(ch) ==> ch.index < window.len() && within@[ch.index as int]
            && jst_convertible(window@[ch.index as int] as int) && ch.unix_time == window@[ch.index as int]
            - 32400 && forall|j: int|
            0 <= j < ch.index ==> !(within@[j] && jst_convertible(#[trigger] window@[j] as int)),
{
    let mut i: usize = 0;
    while i < window.len()
        invariant
            window.len() == within.len(),
            window_shiftable(window@),
            i <= window.len(),
            forall|j: int|
                0 <= j < i ==> !(within@[j] && jst_convertible(#[trigger] window@[j] as int)),
        decreases window.len() - i,
    {
        if within[i] {
            let w = window[i];
            assert(i64::MIN + 32400 <= window@[i as int]);
            match jst_unix_time(w) {
                Some(unix_time) => {
                    return Some(AlignmentChoice { index: i, unix_time });
                },
                None => {},
            }
        }
        i = i + 1;
    }
    None
}

} // verus!
