use virtua_grotesk_figures::placement::{Lcg, LCG_INCREMENT, LCG_MULTIPLIER, LCG_SEED};

#[test]
fn generator_matches_its_recurrence() {
    let mut g = Lcg::new();
    let mut state = LCG_SEED;
    for m in [5usize, 8, 1, 1000, 3, 1_000_000] {
        state = state.wrapping_mul(LCG_MULTIPLIER).wrapping_add(LCG_INCREMENT);
        let expected = ((state >> 33) as usize) % m;
        assert_eq!(g.next(m), expected);
    }
}

#[test]
fn draws_stay_below_the_bound() {
    let mut g = Lcg::new();
    for i in 0..1000usize {
        let m = i % 17 + 1;
        assert!(g.next(m) < m);
    }
    assert_eq!(g.next(0), 0);
}

#[test]
fn generator_is_deterministic() {
    let mut a = Lcg::new();
    let mut b = Lcg::new();
    for _ in 0..100 {
        assert_eq!(a.next(12345), b.next(12345));
    }
}

use virtua_grotesk_figures::placement::repair;

/// Candidates as 1-D intervals [x, x + 10); two overlap when they intersect.
fn interval_overlaps(cands: &Vec<Vec<i32>>) -> impl Fn(usize, usize, usize, usize) -> bool + '_ {
    move |i, c, j, d| {
        let a = cands[i][c];
        let b = cands[j][d];
        a < b + 10 && b < a + 10
    }
}

#[test]
fn repair_keeps_annealed_positions_that_clear() {
    let cands = vec![vec![0, 50], vec![20, 70], vec![40, 90]];
    let pick = vec![Some(0), Some(0), Some(0)];
    let ranked = vec![vec![0, 1], vec![0, 1], vec![0, 1]];
    let kept = repair(&vec![0, 1, 2], &pick, &ranked, interval_overlaps(&cands));
    assert_eq!(kept, vec![(0, 0), (1, 0), (2, 0)]);
}

#[test]
fn repair_moves_a_colliding_label_to_its_first_free_candidate() {
    // label 1's pick (at 5) overlaps label 0 (at 0); its ranked candidates
    // are tried cheapest first: 8 overlaps too, 30 is free
    let cands = vec![vec![0], vec![5, 30, 8]];
    let pick = vec![Some(0), Some(0)];
    let ranked = vec![vec![0], vec![0, 2, 1]];
    let kept = repair(&vec![0, 1], &pick, &ranked, interval_overlaps(&cands));
    assert_eq!(kept, vec![(0, 0), (1, 1)]);
}

#[test]
fn repair_drops_a_label_with_no_free_candidate() {
    let cands = vec![vec![0], vec![3, 6], vec![100]];
    let pick = vec![Some(0), Some(1), None];
    let ranked = vec![vec![0], vec![0, 1], vec![0]];
    let kept = repair(&vec![0, 1, 2], &pick, &ranked, interval_overlaps(&cands));
    assert_eq!(kept, vec![(0, 0), (2, 0)]);
}

#[test]
fn repair_follows_the_given_order() {
    // the same two labels; whichever comes first keeps its spot
    let cands = vec![vec![0], vec![5]];
    let pick = vec![Some(0), Some(0)];
    let ranked = vec![vec![0], vec![0]];
    assert_eq!(repair(&vec![1, 0], &pick, &ranked, interval_overlaps(&cands)), vec![(1, 0)]);
    assert_eq!(repair(&vec![0, 1], &pick, &ranked, interval_overlaps(&cands)), vec![(0, 0)]);
}

#[test]
fn kept_labels_never_overlap() {
    let cands: Vec<Vec<i32>> = (0..12).map(|i| vec![i * 7 % 40, i * 13 % 50, i * 3]).collect();
    let pick: Vec<Option<usize>> = (0..12).map(|i| if i % 3 == 0 { None } else { Some(i % 3) }).collect();
    let ranked: Vec<Vec<usize>> = (0..12).map(|_| vec![2, 0, 1]).collect();
    let order: Vec<usize> = (0..12).rev().collect();
    let overlaps = interval_overlaps(&cands);
    let kept = repair(&order, &pick, &ranked, &overlaps);
    for (q, (i, c)) in kept.iter().enumerate() {
        for (j, d) in &kept[..q] {
            assert!(!overlaps(*i, *c, *j, *d));
        }
    }
}

#[test]
fn repair_lets_the_earlier_label_in_order_win_a_conflict() {
    // both labels sit on the same spot; the one visited first keeps it
    let pick = vec![Some(0), Some(0)];
    let ranked = vec![vec![0], vec![0]];
    let always = |_: usize, _: usize, _: usize, _: usize| true;
    assert_eq!(repair(&vec![0, 1], &pick, &ranked, always), vec![(0, 0)]);
    assert_eq!(repair(&vec![1, 0], &pick, &ranked, always), vec![(1, 0)]);
}
