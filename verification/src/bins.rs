//! Grouping samples into azimuth bins.
//!
//! Each sample is a bin key (the azimuth bin it falls into) and the local
//! time at which it was taken. The bins come out ordered by key, each with
//! the times that fell into it, in order and without repetition.

use vstd::prelude::*;

verus! {

/// The times that fell into the bin with key `key`.
#[derive(Clone, Debug)]
pub struct TimeBin {
    pub key: i32,
    pub times: Vec<i64>,
}

/// Whether the values of `s` strictly increase.
pub open spec fn strictly_increasing(s: Seq<i64>) -> bool {
    forall|i: int, j: int| 0 <= i < j < s.len() ==> s[i] < s[j]
}

/// Whether the bins of `b` have strictly increasing keys and each holds a
/// nonempty, strictly increasing list of times.
pub open spec fn bins_well_formed(b: Seq<TimeBin>) -> bool {
    &&& forall|i: int, j: int| 0 <= i < j < b.len() ==> b[i].key < b[j].key
    &&& forall|i: int|
        0 <= i < b.len() ==> (#[trigger] b[i]).times@.len() > 0 && strictly_increasing(
            b[i].times@,
        )
}

/// Whether some bin of `b` has key `key` and holds the time `t`.
pub open spec fn bins_hold(b: Seq<TimeBin>, key: i32, t: i64) -> bool {
    exists|i: int| 0 <= i < b.len() && (#[trigger] b[i]).key == key && b[i].times@.contains(t)
}

/// Puts `t` into the strictly increasing `times`, where it belongs, unless
/// it is there already.
fn insert_time(times: &mut Vec<i64>, t: i64)
    requires
        strictly_increasing(old(times)@),
    ensures
        strictly_increasing(final(times)@),
        final(times)@.contains(t),
        forall|x: i64| final(times)@.contains(x) <==> (old(times)@.contains(x) || x == t),
{
    let mut p: usize = 0;
    while p < times.len() && times[p] < t
        invariant
            times@ == old(times)@,
            p <= times.len(),
            forall|j: int| 0 <= j < p ==> times@[j] < t,
        decreases times.len() - p,
    {
        p = p + 1;
    }
    if p < times.len() && times[p] == t {
        assert(times@[p as int] == t);
        return;
    }
    proof {
        assert(p < times.len() ==> times@[p as int] > t);
    }
    let ghost before = times@;
    times.insert(p, t);
    proof {
        assert(times@ =~= before.insert(p as int, t));
        assert(times@[p as int] == t);
        assert forall|x: i64| times@.contains(x) <==> (before.contains(x) || x == t) by {
            if times@.contains(x) {
                let k = choose|k: int| 0 <= k < times@.len() && times@[k] == x;
                if k < p {
                    assert(before[k] == x);
                } else if k > p {
                    assert(before[k - 1] == x);
                }
            }
            if before.contains(x) {
                let k = choose|k: int| 0 <= k < before.len() && before[k] == x;
                if k < p {
                    assert(times@[k] == x);
                } else {
                    assert(times@[k + 1] == x);
                }
            }
        }
    }
}

/// Puts the sample (`key`, `t`) into the well-formed `bins`.
fn insert_sample(bins: &mut Vec<TimeBin>, key: i32, t: i64)
    requires
        bins_well_formed(old(bins)@),
    ensures
        bins_well_formed(final(bins)@),
        forall|k: i32, x: i64|
            bins_hold(final(bins)@, k, x) <==> (bins_hold(old(bins)@, k, x) || (k == key && x
                == t)),
{
    let mut p: usize = 0;
    while p < bins.len() && bins[p].key < key
        invariant
            bins@ == old(bins)@,
            p <= bins.len(),
            forall|j: int| 0 <= j < p ==> bins@[j].key < key,
        decreases bins.len() - p,
    {
        p = p + 1;
    }
    let ghost before = bins@;
    if p < bins.len() && bins[p].key == key {
        let mut bin = bins.remove(p);
        proof {
            assert(bin == before[p as int]);
            assert(strictly_increasing(bin.times@));
        }
        let ghost old_times = bin.times@;
        insert_time(&mut bin.times, t);
        bins.insert(p, bin);
        proof {
            assert(bins@ =~= before.update(p as int, bin));
            assert(bins_well_formed(bins@)) by {
                assert forall|i: int, j: int| 0 <= i < j < bins@.len() implies bins@[i].key
                    < bins@[j].key by {
                    assert(before[i].key < before[j].key);
                }
                assert forall|i: int| 0 <= i < bins@.len() implies (#[trigger] bins@[i]).times@.len()
                    > 0 && strictly_increasing(bins@[i].times@) by {
                    if i != p {
                        assert(bins@[i] == before[i]);
                    } else {
                        assert(bins@[i].times@.contains(t));
                    }
                }
            }
            assert forall|k: i32, x: i64|
                bins_hold(bins@, k, x) <==> (bins_hold(before, k, x) || (k == key && x
                    == t)) by {
                if bins_hold(bins@, k, x) {
                    let i = choose|i: int|
                        0 <= i < bins@.len() && (#[trigger] bins@[i]).key == k && bins@[i].times@.contains(x);
                    if i != p {
                        assert(before[i] == bins@[i]);
                    } else if x != t {
                        assert(old_times.contains(x));
                        assert(before[i].times@.contains(x));
                    }
                }
                if bins_hold(before, k, x) {
                    let i = choose|i: int|
                        0 <= i < before.len() && (#[trigger] before[i]).key == k && before[i].times@.contains(x);
                    if i != p {
                        assert(before[i] == bins@[i]);
                    } else {
                        assert(bins@[i].times@.contains(x));
                    }
                }
                if k == key && x == t {
                    assert(bins@[p as int].times@.contains(t));
                }
            }
        }
    } else {
        let mut times: Vec<i64> = Vec::new();
        times.push(t);
        let bin = TimeBin { key, times };
        proof {
            assert(bin.times@ =~= seq![t]);
            assert(bin.times@[0] == t);
            assert(p < before.len() ==> before[p as int].key > key) by {
                if p < before.len() {
                    assert(before[p as int].key >= key);
                }
            }
        }
        bins.insert(p, bin);
        proof {
            assert(bins@ =~= before.insert(p as int, bin));
            assert(bins_well_formed(bins@)) by {
                assert forall|i: int, j: int| 0 <= i < j < bins@.len() implies bins@[i].key
                    < bins@[j].key by {
                    if j < p {
                        assert(before[i].key < before[j].key);
                    } else if j == p {
                        assert(before[i].key < key);
                    } else if i < p {
                        assert(bins@[j] == before[j - 1]);
                        if i < j - 1 {
                            assert(before[i].key < before[j - 1].key);
                        }
                    } else if i == p {
                        assert(bins@[j] == before[j - 1]);
                        if p < j - 1 {
                            assert(before[p as int].key < before[j - 1].key);
                        }
                    } else {
                        assert(before[i - 1].key < before[j - 1].key);
                    }
                }
                assert forall|i: int| 0 <= i < bins@.len() implies (#[trigger] bins@[i]).times@.len()
                    > 0 && strictly_increasing(bins@[i].times@) by {
                    if i < p {
                        assert(bins@[i] == before[i]);
                    } else if i > p {
                        assert(bins@[i] == before[i - 1]);
                    }
                }
            }
            assert forall|k: i32, x: i64|
                bins_hold(bins@, k, x) <==> (bins_hold(before, k, x) || (k == key && x
                    == t)) by {
                if bins_hold(bins@, k, x) {
                    let i = choose|i: int|
                        0 <= i < bins@.len() && (#[trigger] bins@[i]).key == k && bins@[i].times@.contains(x);
                    if i < p {
                        assert(before[i] == bins@[i]);
                    } else if i > p {
                        assert(before[i - 1] == bins@[i]);
                    } else {
                        let m = choose|m: int| 0 <= m < bin.times@.len() && bin.times@[m] == x;
                        assert(m == 0);
                    }
                }
                if bins_hold(before, k, x) {
                    let i = choose|i: int|
                        0 <= i < before.len() && (#[trigger] before[i]).key == k && before[i].times@.contains(x);
                    if i < p {
                        assert(before[i] == bins@[i]);
                    } else {
                        assert(before[i] == bins@[i + 1]);
                    }
                }
                if k == key && x == t {
                    assert(bins@[p as int].times@[0] == t);
                    assert(bins@[p as int].times@.contains(t));
                }
            }
        }
    }
}

/// Groups the samples (bin key, local time) into bins ordered by key, each
/// holding its times in increasing order and each time once: a bin holds a
/// time exactly when that sample was given.
pub fn group_by_bin(samples: &Vec<(i32, i64)>) -> (bins: Vec<TimeBin>)
    ensures
        bins_well_formed(bins@),
        forall|k: i32, x: i64| bins_hold(bins@, k, x) <==> samples@.contains((k, x)),
{
    let mut bins: Vec<TimeBin> = Vec::new();
    let mut i: usize = 0;
    while i < samples.len()
        invariant
            i <= samples.len(),
            bins_well_formed(bins@),
            forall|k: i32, x: i64|
                bins_hold(bins@, k, x) <==> samples@.subrange(0, i as int).contains((k, x)),
        decreases samples.len() - i,
    {
        let (key, t) = samples[i];
        insert_sample(&mut bins, key, t);
        proof {
            let prev = samples@.subrange(0, i as int);
            let next = samples@.subrange(0, i + 1);
            assert(next =~= prev.push((key, t)));
            assert forall|k: i32, x: i64| next.contains((k, x)) <==> (prev.contains((k, x)) || (k
                == key && x == t)) by {
                if next.contains((k, x)) {
                    let m = choose|m: int| 0 <= m < next.len() && next[m] == (k, x);
                    if m < i {
                        assert(prev[m] == (k, x));
                    }
                }
                if prev.contains((k, x)) {
                    let m = choose|m: int| 0 <= m < prev.len() && prev[m] == (k, x);
                    assert(next[m] == (k, x));
                }
                if k == key && x == t {
                    assert(next[i as int] == (k, x));
                }
            }
        }
        i = i + 1;
    }
    proof {
        assert(samples@.subrange(0, i as int) =~= samples@);
    }
    bins
}

} // verus!
