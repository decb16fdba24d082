//! The discrete half of collision-aware label placement.
//!
//! Labels are placed by simulated annealing over candidate positions. The
//! geometry and the costs are the caller's; this module holds the two parts
//! that decide from plain values. The annealer draws its moves from a
//! fixed-seed linear congruential generator (Knuth's MMIX constants), so the
//! picture is the same on every run. The repair pass after annealing keeps
//! labels greedily: a label whose annealed position overlaps a kept label
//! tries its other candidates, cheapest first, and is dropped only when all
//! of them overlap.

use vstd::prelude::*;

verus! {

/// The seed every placement starts from.
pub const LCG_SEED: u64 = 0x9E37_79B9_7F4A_7C15;

/// The multiplier of the generator.
pub const LCG_MULTIPLIER: u64 = 6364136223846793005;

/// The increment of the generator.
pub const LCG_INCREMENT: u64 = 1442695040888963407;

/// The state after one step: `state * a + c`, wrapping at 2^64.
pub open spec fn lcg_step(state: u64) -> u64 {
    vstd::wrapping::u64_specs::wrapping_add(
        vstd::wrapping::u64_specs::wrapping_mul(state, LCG_MULTIPLIER),
        LCG_INCREMENT,
    )
}

/// The draw below `m` from a stepped state: its top 31 bits, modulo `m`
/// (modulo 1 when `m` is 0).
pub open spec fn lcg_draw(stepped: u64, m: usize) -> usize {
    (((stepped >> 33u64) as usize) % (if m == 0 {
        1
    } else {
        m
    })) as usize
}

/// A fixed-seed generator of indices.
pub struct Lcg {
    state: u64,
}

impl Lcg {
    /// The generator's state.
    pub closed spec fn state(&self) -> u64 {
        self.state
    }

    /// A generator at the fixed seed.
    pub fn new() -> (g: Lcg)
        ensures
            g.state() == LCG_SEED,
    {
        Lcg { state: LCG_SEED }
    }

    /// Step the generator and draw an index below `m` (0 when `m` is 0).
    pub fn next(&mut self, m: usize) -> (r: usize)
        ensures
            final(self).state() == lcg_step(old(self).state()),
            r == lcg_draw(final(self).state(), m),
            m > 0 ==> r < m,
            m == 0 ==> r == 0,
    {
        let stepped = self.state.wrapping_mul(LCG_MULTIPLIER).wrapping_add(LCG_INCREMENT);
        self.state = stepped;
        let top = stepped >> 33u64;
        assert(top <= 0x7fff_ffff) by (bit_vector)
            requires
                top == stepped >> 33u64,
        ;
        let modulus = if m == 0 {
            1
        } else {
            m
        };
        (top as usize) % modulus
    }
}

/// Whether candidate `c` of label `i` clears every kept label: the overlap
/// test said no for each of them.
fn clears_kept<F: Fn(usize, usize, usize, usize) -> bool>(
    overlaps: &F,
    i: usize,
    c: usize,
    kept: &Vec<(usize, usize)>,
) -> (free: bool)
    requires
        forall|a: usize, b: usize, d: usize, e: usize| overlaps.requires((a, b, d, e)),
    ensures
        free ==> forall|p: int|
            0 <= p < kept@.len() ==> overlaps.ensures((i, c, kept@[p].0, kept@[p].1), false),
        !free ==> exists|p: int|
            0 <= p < kept@.len() && overlaps.ensures((i, c, kept@[p].0, kept@[p].1), true),
{
    let mut p: usize = 0;
    while p < kept.len()
        invariant
            p <= kept@.len(),
            forall|a: usize, b: usize, d: usize, e: usize| overlaps.requires((a, b, d, e)),
            forall|r: int| 0 <= r < p ==> overlaps.ensures((i, c, kept@[r].0, kept@[r].1), false),
        decreases kept@.len() - p,
    {
        let (j, cj) = kept[p];
        let hit = overlaps(i, c, j, cj);
        if hit {
            assert(overlaps.ensures((i, c, kept@[p as int].0, kept@[p as int].1), true));
            return false;
        }
        p = p + 1;
    }
    true
}

/// Whether candidate `c` of label `i` collides with a kept label before
/// position `upto`.
pub open spec fn blocked<F: Fn(usize, usize, usize, usize) -> bool>(
    overlaps: F,
    i: usize,
    c: usize,
    kept: Seq<(usize, usize)>,
    upto: int,
) -> bool {
    exists|p: int| 0 <= p < upto && #[trigger] overlaps.ensures((i, c, kept[p].0, kept[p].1), true)
}

/// The kept entry `q` sits where the repair pass puts it: at its annealed
/// candidate, or (that one blocked by the labels kept before it) at the
/// first of its ranked candidates that the labels kept before it leave free.
pub open spec fn kept_by_rule<F: Fn(usize, usize, usize, usize) -> bool>(
    overlaps: F,
    pick: Seq<Option<usize>>,
    ranked: Seq<Seq<usize>>,
    kept: Seq<(usize, usize)>,
    q: int,
) -> bool {
    let i = kept[q].0;
    let c = kept[q].1;
    pick[i as int] == Some(c) || ((pick[i as int] matches Some(a) ==> blocked(overlaps, i, a, kept, q))
        && exists|t: int|
        0 <= t < ranked[i as int].len() && #[trigger] ranked[i as int][t] == c && forall|r: int|
            0 <= r < t ==> blocked(overlaps, i, #[trigger] ranked[i as int][r], kept, q))
}

/// The annealed candidate and every ranked candidate of label `i` collide
/// with one of the first `upto` kept labels.
pub open spec fn all_blocked<F: Fn(usize, usize, usize, usize) -> bool>(
    overlaps: F,
    pick: Seq<Option<usize>>,
    ranked: Seq<Seq<usize>>,
    kept: Seq<(usize, usize)>,
    i: usize,
    upto: int,
) -> bool {
    &&& pick[i as int] matches Some(a) ==> blocked(overlaps, i, a, kept, upto)
    &&& forall|t: int|
        0 <= t < ranked[i as int].len() ==> blocked(overlaps, i, #[trigger] ranked[i as int][t], kept, upto)
}

/// `pos` gives, for each kept entry, the position in `order` it was kept
/// from: positions strictly increase, so the kept entries come in the order
/// `order` visits them.
pub open spec fn kept_in_order(order: Seq<usize>, kept: Seq<(usize, usize)>, pos: Seq<int>) -> bool {
    &&& pos.len() == kept.len()
    &&& forall|q: int|
        0 <= q < pos.len() ==> 0 <= #[trigger] pos[q] < order.len() && kept[q].0 == order[pos[q]]
    &&& forall|p: int, q: int| 0 <= p < q < pos.len() ==> #[trigger] pos[p] < #[trigger] pos[q]
}

/// Every position of `order` before `n` that no kept entry comes from lies
/// between the positions of kept entries `q - 1` and `q`, and its label is
/// blocked by the `q` labels kept before it.
pub open spec fn dropped_blocked<F: Fn(usize, usize, usize, usize) -> bool>(
    overlaps: F,
    order: Seq<usize>,
    pick: Seq<Option<usize>>,
    ranked: Seq<Seq<usize>>,
    kept: Seq<(usize, usize)>,
    pos: Seq<int>,
    n: int,
) -> bool {
    forall|k: int, q: int|
        0 <= k < n && 0 <= q <= kept.len() && (q == 0 || pos[q - 1] < k) && (q == kept.len() || k
            < pos[q]) ==> #[trigger] all_blocked(overlaps, pick, ranked, kept, order[k], q)
}

/// The trace of the repair pass: the kept entries come from increasing
/// positions of `order`, and each position between them was dropped with
/// all its candidates blocked by the labels kept before it.
pub open spec fn repair_trace<F: Fn(usize, usize, usize, usize) -> bool>(
    overlaps: F,
    order: Seq<usize>,
    pick: Seq<Option<usize>>,
    ranked: Seq<Seq<usize>>,
    kept: Seq<(usize, usize)>,
    pos: Seq<int>,
) -> bool {
    &&& kept_in_order(order, kept, pos)
    &&& dropped_blocked(overlaps, order, pick, ranked, kept, pos, order.len() as int)
}

proof fn lemma_blocked_grow<F: Fn(usize, usize, usize, usize) -> bool>(
    overlaps: F,
    i: usize,
    c: usize,
    kept: Seq<(usize, usize)>,
    x: (usize, usize),
    upto: int,
    upto2: int,
)
    requires
        blocked(overlaps, i, c, kept, upto),
        upto <= upto2,
        upto <= kept.len(),
    ensures
        blocked(overlaps, i, c, kept.push(x), upto2),
{
    let p = choose|p: int| 0 <= p < upto && #[trigger] overlaps.ensures((i, c, kept[p].0, kept[p].1), true);
    assert(kept.push(x)[p] == kept[p]);
    assert(overlaps.ensures((i, c, kept.push(x)[p].0, kept.push(x)[p].1), true));
}

/// The repair pass: visit the labels in `order` (cheapest annealed position
/// first) and keep each at its annealed candidate `pick[i]` when that clears
/// every label kept so far, else at the first candidate in `ranked[i]`
/// (cheapest first) that does; a label none of whose candidates clears is
/// dropped. `overlaps(i, c, j, d)` says whether candidate `c` of label `i`
/// overlaps candidate `d` of label `j`. The result lists the kept labels and
/// their candidates in the order they were kept.
pub fn repair<F: Fn(usize, usize, usize, usize) -> bool>(
    order: &Vec<usize>,
    pick: &Vec<Option<usize>>,
    ranked: &Vec<Vec<usize>>,
    overlaps: F,
) -> (kept: Vec<(usize, usize)>)
    requires
        pick@.len() == ranked@.len(),
        forall|k: int| 0 <= k < order@.len() ==> #[trigger] order@[k] < pick@.len(),
        forall|a: usize, b: usize, d: usize, e: usize| overlaps.requires((a, b, d, e)),
    ensures
        kept@.len() <= order@.len(),
        forall|p: int, q: int|
            0 <= p < q < kept@.len() ==> overlaps.ensures(
                (kept@[q].0, kept@[q].1, kept@[p].0, kept@[p].1),
                false,
            ),
        forall|q: int|
            0 <= q < kept@.len() ==> #[trigger] kept_by_rule(
                overlaps,
                pick@,
                ranked.deep_view(),
                kept@,
                q,
            ),
        exists|pos: Seq<int>|
            #[trigger] repair_trace(overlaps, order@, pick@, ranked.deep_view(), kept@, pos),
{
    let mut kept: Vec<(usize, usize)> = Vec::new();
    let ghost mut pos: Seq<int> = Seq::empty();
    let mut k: usize = 0;
    while k < order.len()
        invariant
            k <= order@.len(),
            pick@.len() == ranked@.len(),
            forall|m: int| 0 <= m < order@.len() ==> #[trigger] order@[m] < pick@.len(),
            forall|a: usize, b: usize, d: usize, e: usize| overlaps.requires((a, b, d, e)),
            forall|p: int, q: int|
                0 <= p < q < kept@.len() ==> overlaps.ensures(
                    (kept@[q].0, kept@[q].1, kept@[p].0, kept@[p].1),
                    false,
                ),
            forall|q: int|
                0 <= q < kept@.len() ==> #[trigger] kept_by_rule(
                    overlaps,
                    pick@,
                    ranked.deep_view(),
                    kept@,
                    q,
                ),
            kept_in_order(order@, kept@, pos),
            forall|q: int| 0 <= q < pos.len() ==> #[trigger] pos[q] < k,
            dropped_blocked(overlaps, order@, pick@, ranked.deep_view(), kept@, pos, k as int),
        decreases order@.len() - k,
    {
        let i = order[k];
        let ghost old_kept = kept@;
        let ghost old_pos = pos;
        let ghost rv = ranked.deep_view();
        let mut chosen: Option<usize> = None;
        if let Some(a) = pick[i] {
            if clears_kept(&overlaps, i, a, &kept) {
                chosen = Some(a);
            }
        }
        let ghost pick_blocked = match pick@[i as int] {
            Some(a) => chosen is None ==> blocked(overlaps, i, a, kept@, kept@.len() as int),
            None => true,
        };
        assert(pick_blocked);
        let ghost mut found_t: int = -1;
        if chosen.is_none() {
            let cands = &ranked[i];
            let mut t: usize = 0;
            while t < cands.len()
                invariant_except_break
                    chosen is None,
                invariant
                    t <= cands@.len(),
                    cands@ == ranked.deep_view()[i as int],
                    forall|a: usize, b: usize, d: usize, e: usize| overlaps.requires((a, b, d, e)),
                    forall|r: int|
                        0 <= r < t ==> blocked(overlaps, i, #[trigger] cands@[r], kept@, kept@.len() as int),
                ensures
                    chosen is None ==> forall|r: int|
                        0 <= r < cands@.len() ==> blocked(overlaps, i, #[trigger] cands@[r], kept@, kept@.len() as int),
                    chosen matches Some(c) ==> 0 <= found_t < cands@.len() && cands@[found_t] == c
                        && forall|r: int|
                        0 <= r < found_t ==> blocked(overlaps, i, #[trigger] cands@[r], kept@, kept@.len() as int),
                    chosen matches Some(c) ==> forall|p: int|
                        0 <= p < kept@.len() ==> overlaps.ensures((i, c, kept@[p].0, kept@[p].1), false),
                decreases cands@.len() - t,
            {
                if clears_kept(&overlaps, i, cands[t], &kept) {
                    chosen = Some(cands[t]);
                    proof {
                        found_t = t as int;
                    }
                    break;
                }
                t = t + 1;
            }
        }
        match chosen {
            Some(c) => {
                kept.push((i, c));
                proof {
                    let x = (i, c);
                    pos = old_pos.push(k as int);
                    assert(kept@ == old_kept.push(x));
                    assert forall|p: int, q: int| 0 <= p < q < kept@.len() implies overlaps.ensures(
                        (kept@[q].0, kept@[q].1, kept@[p].0, kept@[p].1),
                        false,
                    ) by {
                        if q < old_kept.len() {
                            assert(kept@[q] == old_kept[q] && kept@[p] == old_kept[p]);
                        } else {
                            assert(kept@[p] == old_kept[p]);
                        }
                    }
                    assert forall|q: int| 0 <= q < kept@.len() implies #[trigger] kept_by_rule(
                        overlaps,
                        pick@,
                        rv,
                        kept@,
                        q,
                    ) by {
                        if q < old_kept.len() {
                            assert(kept@[q] == old_kept[q]);
                            assert(kept_by_rule(overlaps, pick@, rv, old_kept, q));
                            let j = old_kept[q].0;
                            if pick@[j as int] != Some(old_kept[q].1) {
                                if let Some(a) = pick@[j as int] {
                                    lemma_blocked_grow(overlaps, j, a, old_kept, x, q, q);
                                }
                                let t = choose|t: int|
                                    0 <= t < rv[j as int].len()
                                        && #[trigger] rv[j as int][t] == old_kept[q].1
                                        && forall|r: int|
                                        0 <= r < t ==> blocked(
                                            overlaps,
                                            j,
                                            #[trigger] rv[j as int][r],
                                            old_kept,
                                            q,
                                        );
                                assert forall|r: int| 0 <= r < t implies blocked(
                                    overlaps,
                                    j,
                                    #[trigger] rv[j as int][r],
                                    kept@,
                                    q,
                                ) by {
                                    lemma_blocked_grow(overlaps, j, rv[j as int][r], old_kept, x, q, q);
                                }
                            }
                        } else {
                            assert(kept@[q] == x);
                            if pick@[i as int] != Some(c) {
                                if let Some(a) = pick@[i as int] {
                                    lemma_blocked_grow(overlaps, i, a, old_kept, x, q, q);
                                }
                                assert forall|r: int| 0 <= r < found_t implies blocked(
                                    overlaps,
                                    i,
                                    #[trigger] rv[i as int][r],
                                    kept@,
                                    q,
                                ) by {
                                    lemma_blocked_grow(overlaps, i, rv[i as int][r], old_kept, x, q, q);
                                }
                                assert(rv[i as int][found_t] == c);
                            }
                        }
                    }
                    assert(kept_in_order(order@, kept@, pos)) by {
                        assert forall|q: int| 0 <= q < pos.len() implies 0 <= #[trigger] pos[q]
                            < order@.len() && kept@[q].0 == order@[pos[q]] by {
                            if q < old_pos.len() {
                                assert(pos[q] == old_pos[q] && kept@[q] == old_kept[q]);
                            }
                        }
                        assert forall|p: int, q: int| 0 <= p < q < pos.len() implies #[trigger] pos[p]
                            < #[trigger] pos[q] by {
                            assert(pos[p] == old_pos[p]);
                            if q < old_pos.len() {
                                assert(pos[q] == old_pos[q]);
                            }
                        }
                    }
                    assert forall|q: int| 0 <= q < pos.len() implies #[trigger] pos[q] < k + 1 by {
                        if q < old_pos.len() {
                            assert(pos[q] == old_pos[q]);
                        }
                    }
                    assert forall|k2: int, q: int|
                        0 <= k2 < k + 1 && 0 <= q <= kept@.len() && (q == 0 || pos[q - 1] < k2) && (q
                            == kept@.len() || k2 < pos[q]) implies #[trigger] all_blocked(
                        overlaps,
                        pick@,
                        rv,
                        kept@,
                        order@[k2],
                        q,
                    ) by {
                        if q == kept@.len() {
                            assert(pos[q - 1] == k);
                        } else {
                            assert(pos[old_pos.len() as int] == k);
                            if q < old_pos.len() {
                                assert(pos[q] == old_pos[q]);
                                assert(old_pos[q] < k);
                            }
                            assert(k2 < k);
                            if q > 0 {
                                assert(pos[q - 1] == old_pos[q - 1]);
                            }
                            assert(all_blocked(overlaps, pick@, rv, old_kept, order@[k2], q));
                            let j = order@[k2];
                            if let Some(a) = pick@[j as int] {
                                lemma_blocked_grow(overlaps, j, a, old_kept, x, q, q);
                            }
                            assert forall|t: int| 0 <= t < rv[j as int].len() implies blocked(
                                overlaps,
                                j,
                                #[trigger] rv[j as int][t],
                                kept@,
                                q,
                            ) by {
                                lemma_blocked_grow(overlaps, j, rv[j as int][t], old_kept, x, q, q);
                            }
                        }
                    }
                }
            },
            None => {
                proof {
                    assert forall|k2: int, q: int|
                        0 <= k2 < k + 1 && 0 <= q <= kept@.len() && (q == 0 || pos[q - 1] < k2) && (q
                            == kept@.len() || k2 < pos[q]) implies #[trigger] all_blocked(
                        overlaps,
                        pick@,
                        rv,
                        kept@,
                        order@[k2],
                        q,
                    ) by {
                        if k2 == k {
                            if q < kept@.len() {
                                assert(pos[q] < k);
                            }
                            assert(q == kept@.len());
                        }
                    }
                }
            },
        }
        k = k + 1;
    }
    proof {
        assert(repair_trace(overlaps, order@, pick@, ranked.deep_view(), kept@, pos));
        assert(kept@.len() <= order@.len()) by {
            if kept@.len() > order@.len() {
                lemma_positions_bound(pos, kept@.len() as int);
            }
        }
    }
    kept
}

/// `n` strictly increasing positions, all in `0..m`, need `n <= m`.
proof fn lemma_positions_bound(pos: Seq<int>, n: int)
    requires
        0 <= n <= pos.len(),
        forall|q: int| 0 <= q < pos.len() ==> 0 <= #[trigger] pos[q],
        forall|p: int, q: int| 0 <= p < q < pos.len() ==> #[trigger] pos[p] < #[trigger] pos[q],
    ensures
        n > 0 ==> pos[n - 1] >= n - 1,
    decreases n,
{
    if n > 1 {
        lemma_positions_bound(pos, n - 1);
        assert(pos[n - 2] < pos[n - 1]);
    }
}

} // verus!
