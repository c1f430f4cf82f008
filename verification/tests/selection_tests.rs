use dfuji::alignment::{choose_best_alignment, choose_first_alignment, AlignmentChoice};
use dfuji::selection::{select_first, select_highest, select_lowest, Candidate};
use dfuji::window::{observation_step_count, observation_times};

fn c(eligible: bool, key: u64) -> Candidate {
    Candidate { eligible, key }
}

#[test]
fn select_lowest_takes_least_key_among_eligible() {
    let v = vec![c(true, 5), c(false, 1), c(true, 3), c(true, 3), c(true, 4)];
    assert_eq!(select_lowest(&v), Some(2));
    assert_eq!(select_highest(&v), Some(0));
    assert_eq!(select_first(&v), Some(0));
}

#[test]
fn selection_of_nothing_eligible() {
    let v = vec![c(false, 5), c(false, 1)];
    assert_eq!(select_lowest(&v), None);
    assert_eq!(select_highest(&v), None);
    assert_eq!(select_first(&v), None);
    assert_eq!(select_lowest(&Vec::new()), None);
}

#[test]
fn select_highest_keeps_earliest_on_ties() {
    let v = vec![c(false, 9), c(true, 7), c(true, 8), c(true, 8)];
    assert_eq!(select_highest(&v), Some(2));
}

#[test]
fn float_keys_order_as_their_values() {
    // Non-negative separations ranked by their bit patterns.
    let sigmas = [0.15f64, 0.02, 0.3, 0.02, 0.0];
    let within = [true, true, false, true, false];
    let v: Vec<Candidate> = sigmas
        .iter()
        .zip(within.iter())
        .map(|(s, w)| c(*w, s.to_bits()))
        .collect();
    assert_eq!(select_lowest(&v), Some(1));
}

#[test]
fn observation_window_has_241_samples() {
    assert_eq!(observation_step_count(), 240);
    let times = observation_times(1_000_000);
    assert_eq!(times.len(), 241);
    assert_eq!(times[0], 1_000_000 - 7200);
    assert_eq!(times[1], 1_000_000 - 7170);
    assert_eq!(times[240], 1_000_000);
}

#[test]
fn best_alignment_is_least_separation_within_thresholds() {
    let local = 20410 * 86400 + 16 * 3600;
    let window = observation_times(local);
    let mut cands: Vec<Candidate> = window.iter().map(|_| c(false, 0)).collect();
    cands[10] = c(true, 50);
    cands[11] = c(true, 20);
    cands[12] = c(true, 20);
    cands[13] = c(true, 70);
    let best = choose_best_alignment(&window, &cands).unwrap();
    assert_eq!(best.index, 11);
    assert_eq!(best.unix_time, window[11] - 32400);
    let within: Vec<bool> = cands.iter().map(|x| x.eligible).collect();
    let first = choose_first_alignment(&window, &within).unwrap();
    assert_eq!(
        first,
        AlignmentChoice { index: 10, unix_time: window[10] - 32400 }
    );
}

#[test]
fn no_alignment_without_candidates() {
    let window = observation_times(0);
    let cands: Vec<Candidate> = window.iter().map(|_| c(false, 1)).collect();
    assert_eq!(choose_best_alignment(&window, &cands), None);
    let within = vec![false; window.len()];
    assert_eq!(choose_first_alignment(&window, &within), None);
}

#[test]
fn alignment_outside_the_calendar_is_dropped() {
    let window = vec![i64::MAX - 10, 0];
    let cands = vec![c(true, 1), c(true, 2)];
    // The best sample has no UNIX time in range, so there is no alignment.
    assert_eq!(choose_best_alignment(&window, &cands), None);
    // The first hit moves on to the next sample that has one.
    assert_eq!(
        choose_first_alignment(&window, &vec![true, true]),
        Some(AlignmentChoice { index: 1, unix_time: -32400 })
    );
}
