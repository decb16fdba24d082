//! The arithmetic behind the powers-of-two proof figures: a value's binary
//! cells and trailing zeros, exactness on the rasterizer's 1/64 px grid,
//! the midpoint split of a cubic, and the shade of the share-card grid.

use vstd::prelude::*;

verus! {

/// `2^k`.
pub open spec fn two_to(k: nat) -> nat
    decreases k,
{
    if k == 0 {
        1
    } else {
        2 * two_to((k - 1) as nat)
    }
}

/// `v` shifted right by `k` bits.
pub open spec fn halve(v: nat, k: nat) -> nat
    decreases k,
{
    if k == 0 {
        v
    } else {
        halve(v / 2, (k - 1) as nat)
    }
}

/// Bit `k` of `v`.
pub open spec fn bit_of(v: nat, k: nat) -> nat {
    halve(v, k) % 2
}

/// The low `w` bits of `v` as cells, most significant first.
pub open spec fn cells_of(v: nat, w: nat) -> Seq<u8> {
    Seq::new(w, |b: int| bit_of(v, (w - 1 - b) as nat) as u8)
}

/// The number the cells spell, most significant first.
pub open spec fn cells_value(cells: Seq<u8>) -> nat
    decreases cells.len(),
{
    if cells.len() == 0 {
        0
    } else {
        2 * cells_value(cells.drop_last()) + cells.last() as nat
    }
}

/// The number of trailing zero bits of a nonzero `v`.
pub open spec fn trailing_zero_count(v: nat) -> nat
    decreases v,
{
    if v == 0 || v % 2 == 1 {
        0
    } else {
        1 + trailing_zero_count(v / 2)
    }
}

proof fn lemma_halve_step(v: nat, k: nat)
    ensures
        halve(v, k + 1) == halve(v, k) / 2,
    decreases k,
{
    if k == 0 {
        assert(halve(v, 1) == halve(v / 2, 0));
    } else {
        lemma_halve_step(v / 2, (k - 1) as nat);
        assert(halve(v, k + 1) == halve(v / 2, k));
    }
}

proof fn lemma_two_to_grows(k: nat)
    ensures
        two_to(k) >= k + 1,
    decreases k,
{
    if k > 0 {
        lemma_two_to_grows((k - 1) as nat);
    }
}

/// The binary cells of `value`, `width` of them, most significant first.
pub fn bit_cells(value: u32, width: u32) -> (cells: Vec<u8>)
    ensures
        cells@ == cells_of(value as nat, width as nat),
{
    let mut cells: Vec<u8> = Vec::new();
    let mut b: u32 = 0;
    while b < width
        invariant
            b <= width,
            cells@.len() == b,
        decreases width - b,
    {
        cells.push(0);
        b = b + 1;
    }
    let mut cur = value;
    let mut k: u32 = 0;
    while k < width
        invariant
            k <= width,
            cells@.len() == width,
            cur == halve(value as nat, k as nat),
            forall|j: int| 0 <= j < k ==> #[trigger] cells@[width - 1 - j] == bit_of(value as nat, j as nat) as u8,
        decreases width - k,
    {
        cells.set((width - 1 - k) as usize, (cur % 2) as u8);
        proof {
            lemma_halve_step(value as nat, k as nat);
        }
        cur = cur / 2;
        k = k + 1;
    }
    assert(cells@ =~= cells_of(value as nat, width as nat)) by {
        assert forall|b: int| 0 <= b < width implies cells@[b] == cells_of(value as nat, width as nat)[b] by {
            let j = width - 1 - b;
            assert(cells@[width - 1 - j] == bit_of(value as nat, j as nat) as u8);
        }
    }
    cells
}

/// `u32::trailing_zeros`: the trailing zero bits of `value`, 32 for zero.
pub fn trailing_zeros(value: u32) -> (z: u32)
    ensures
        z == if value == 0 {
            32
        } else {
            trailing_zero_count(value as nat)
        },
{
    if value == 0 {
        return 32;
    }
    let mut cur = value;
    let mut count: u32 = 0;
    assert(two_to(0) == 1);
    while cur % 2 == 0
        invariant
            cur > 0,
            cur * two_to(count as nat) == value,
            trailing_zero_count(value as nat) == count + trailing_zero_count(cur as nat),
        decreases cur,
    {
        proof {
            lemma_two_to_grows((count + 1) as nat);
            assert((cur / 2) * two_to((count + 1) as nat) == cur * two_to(count as nat)) by (nonlinear_arith)
                requires
                    cur % 2 == 0,
                    two_to((count + 1) as nat) == 2 * two_to(count as nat),
            ;
            assert(two_to((count + 1) as nat) <= value) by (nonlinear_arith)
                requires
                    (cur / 2) * two_to((count + 1) as nat) == value,
                    cur / 2 >= 1,
            ;
        }
        cur = cur / 2;
        count = count + 1;
    }
    count
}

proof fn lemma_bit_of_shift(v: nat, k: nat)
    ensures
        bit_of(v, k + 1) == bit_of(v / 2, k),
{
}

/// The cells of the low `w` bits, read back as a number, give `v` less its
/// bits from `w` on: `cells_value(cells_of(v, w)) + (v >> w) * 2^w == v`.
/// So a value below `2^w` is spelled exactly by its cells.
pub proof fn lemma_cells_spell_value(v: nat, w: nat)
    ensures
        cells_value(cells_of(v, w)) + halve(v, w) * two_to(w) == v,
    decreases w,
{
    if w > 0 {
        lemma_cells_spell_value(v / 2, (w - 1) as nat);
        let c = cells_of(v, w);
        assert(c.drop_last() =~= cells_of(v / 2, (w - 1) as nat)) by {
            assert forall|b: int| 0 <= b < w - 1 implies #[trigger] c.drop_last()[b] == cells_of(
                v / 2,
                (w - 1) as nat,
            )[b] by {
                lemma_bit_of_shift(v, (w - 2 - b) as nat);
            }
        }
        assert(c.last() as nat == v % 2);
        let h = halve(v / 2, (w - 1) as nat);
        let t = two_to((w - 1) as nat);
        let val = cells_value(cells_of(v / 2, (w - 1) as nat));
        assert(cells_value(c) == 2 * val + v % 2);
        assert(halve(v, w) == h);
        assert(two_to(w) == 2 * t);
        assert(val + h * t == v / 2);
        assert(h * (2 * t) == 2 * (h * t)) by (nonlinear_arith);
    } else {
        assert(cells_of(v, 0).len() == 0);
        assert(two_to(0) == 1);
        assert(halve(v, 0) == v);
    }
}

/// The trailing zero bits of a nonzero value are zero and the bit above
/// them is one.
pub proof fn lemma_trailing_zero_bits(v: nat)
    requires
        v > 0,
    ensures
        forall|k: nat| k < trailing_zero_count(v) ==> #[trigger] bit_of(v, k) == 0,
        bit_of(v, trailing_zero_count(v)) == 1,
    decreases v,
{
    if v % 2 == 0 {
        lemma_trailing_zero_bits(v / 2);
        assert forall|k: nat| k < trailing_zero_count(v) implies #[trigger] bit_of(v, k) == 0 by {
            if k > 0 {
                lemma_bit_of_shift(v, (k - 1) as nat);
            }
        }
        lemma_bit_of_shift(v, (trailing_zero_count(v) - 1) as nat);
    }
}

/// In the cells of a nonzero value, the last `trailing_zeros` cells are
/// zero and the cell before them is one: the bracket under the trailing
/// zeros spans exactly the zero cells at the end.
pub proof fn lemma_trailing_zero_cells(v: nat, w: nat)
    requires
        v > 0,
    ensures
        forall|k: int| 0 <= k < w && k < trailing_zero_count(v) ==> #[trigger] cells_of(v, w)[w - 1 - k]
            == 0,
        trailing_zero_count(v) < w ==> cells_of(v, w)[w - 1 - trailing_zero_count(v)] == 1,
{
    lemma_trailing_zero_bits(v);
    assert forall|k: int| 0 <= k < w && k < trailing_zero_count(v) implies #[trigger] cells_of(v, w)[w
        - 1 - k] == 0 by {
        assert(bit_of(v, k as nat) == 0);
    }
}

/// Whether coordinate `c` at pixel size `p` on an `em`-unit em lands on the
/// rasterizer's 1/64 px grid: `64·c·p/em` sixty-fourths is a whole number.
pub open spec fn on_pixel_grid(c: int, p: int, em: int) -> bool {
    (64 * c * p) % em == 0
}

/// Whether `64·c·p/em` is a whole number of sixty-fourths of a pixel.
pub fn exact_on_pixel_grid(c: u64, p: u64, em: u64) -> (exact: bool)
    requires
        em > 0,
        64 * c * p <= u64::MAX,
    ensures
        exact == on_pixel_grid(c as int, p as int, em as int),
{
    assert(64 * c * p == 64 * (c * p)) by (nonlinear_arith);
    assert(c * p <= u64::MAX) by (nonlinear_arith)
        requires
            64 * (c * p) <= u64::MAX,
    ;
    let cp = c * p;
    (64 * cp) % em == 0
}

/// On a 1024-unit em every coordinate-size product that is a multiple of
/// 16 lands on the 1/64 px grid, and no other does.
pub proof fn lemma_power_of_two_em(c: nat, p: nat)
    ensures
        on_pixel_grid(c as int, p as int, 1024) <==> (c * p) % 16 == 0,
{
    let x = c * p;
    let q = x / 16;
    let r = x % 16;
    assert(x == 16 * q + r);
    assert(64 * c * p == 64 * x) by (nonlinear_arith)
        requires
            x == c * p,
    ;
    assert(64 * x == 1024 * q + 64 * r);
    assert((1024 * q + 64 * r) % 1024 == 64 * r) by {
        vstd::arithmetic::div_mod::lemma_mod_multiples_vanish(q as int, (64 * r) as int, 1024);
        vstd::arithmetic::div_mod::lemma_small_mod((64 * r) as nat, 1024);
    }
}

/// On a 1000-unit em a coordinate-size product lands on the 1/64 px grid
/// exactly when it is a multiple of 125.
pub proof fn lemma_thousand_em(c: nat, p: nat)
    ensures
        on_pixel_grid(c as int, p as int, 1000) <==> (c * p) % 125 == 0,
{
    let x = c * p;
    assert(64 * c * p == 64 * x) by (nonlinear_arith)
        requires
            x == c * p,
    ;
    let q = x / 125;
    let r = x % 125;
    assert(x == 125 * q + r);
    assert(64 * x == 1000 * (8 * q) + 64 * r);
    assert((1000 * (8 * q) + 64 * r) % 1000 == (64 * r) % 1000) by {
        vstd::arithmetic::div_mod::lemma_mod_multiples_vanish((8 * q) as int, (64 * r) as int, 1000);
    }
    if (64 * r) % 1000 == 0 {
        // 64·r < 8000 is a multiple of 1000 only for r a multiple of 125
        let k = (64 * r) / 1000;
        assert(64 * r == 1000 * k);
        assert(0 <= k < 8);
        assert(r == 0) by {
            assert(8 * r == 125 * k);
            if k == 1 || k == 2 || k == 3 || k == 4 || k == 5 || k == 6 || k == 7 {
                assert((125 * k) % 8 != 0);
                assert((8 * r) % 8 == 0) by {
                    vstd::arithmetic::div_mod::lemma_mod_multiples_basic(r as int, 8);
                }
            }
        }
    }
    if r == 0 {
        assert((64 * r) % 1000 == 0);
    }
}

/// The de Casteljau split of a cubic at `t = 1/2`, every point scaled by 8
/// so the construction stays in whole numbers: the three midpoints of the
/// control polygon, the two midpoints of those, and the split point.
pub open spec fn midpoint_split_eighths(p: Seq<(int, int)>) -> Seq<(int, int)> {
    let (p0, p1, p2, p3) = (p[0], p[1], p[2], p[3]);
    seq![
        (4 * (p0.0 + p1.0), 4 * (p0.1 + p1.1)),
        (4 * (p1.0 + p2.0), 4 * (p1.1 + p2.1)),
        (4 * (p2.0 + p3.0), 4 * (p2.1 + p3.1)),
        (2 * (p0.0 + 2 * p1.0 + p2.0), 2 * (p0.1 + 2 * p1.1 + p2.1)),
        (2 * (p1.0 + 2 * p2.0 + p3.0), 2 * (p1.1 + 2 * p2.1 + p3.1)),
        (p0.0 + 3 * p1.0 + 3 * p2.0 + p3.0, p0.1 + 3 * p1.1 + 3 * p2.1 + p3.1),
    ]
}

/// Whether `m` is the midpoint of `a` and `b`.
pub open spec fn is_midpoint(m: (int, int), a: (int, int), b: (int, int)) -> bool {
    2 * m.0 == a.0 + b.0 && 2 * m.1 == a.1 + b.1
}

/// The midpoint construction of a cubic with integer controls, in eighths
/// of a unit: `[m01, m12, m23, mm0, mm1, split]`.
pub fn midpoint_split(p: [(i64, i64); 4]) -> (r: [(i64, i64); 6])
    requires
        forall|i: int|
            0 <= i < 4 ==> -0x0800_0000_0000_0000 <= #[trigger] p[i].0 <= 0x0800_0000_0000_0000
                && -0x0800_0000_0000_0000 <= p[i].1 <= 0x0800_0000_0000_0000,
    ensures
        r@.map_values(|q: (i64, i64)| (q.0 as int, q.1 as int)) == midpoint_split_eighths(
            p@.map_values(|q: (i64, i64)| (q.0 as int, q.1 as int)),
        ),
{
    let (p0, p1, p2, p3) = (p[0], p[1], p[2], p[3]);
    let r = [
        (4 * (p0.0 + p1.0), 4 * (p0.1 + p1.1)),
        (4 * (p1.0 + p2.0), 4 * (p1.1 + p2.1)),
        (4 * (p2.0 + p3.0), 4 * (p2.1 + p3.1)),
        (2 * (p0.0 + 2 * p1.0 + p2.0), 2 * (p0.1 + 2 * p1.1 + p2.1)),
        (2 * (p1.0 + 2 * p2.0 + p3.0), 2 * (p1.1 + 2 * p2.1 + p3.1)),
        (p0.0 + 3 * p1.0 + 3 * p2.0 + p3.0, p0.1 + 3 * p1.1 + 3 * p2.1 + p3.1),
    ];
    assert(r@.map_values(|q: (i64, i64)| (q.0 as int, q.1 as int)) =~= midpoint_split_eighths(
        p@.map_values(|q: (i64, i64)| (q.0 as int, q.1 as int)),
    ));
    r
}

/// Each level of the construction halves the one before, and the split
/// point is the cubic's point at `t = 1/2` (its Bernstein form
/// `(p0 + 3 p1 + 3 p2 + p3) / 8`, here times 8).
pub proof fn lemma_midpoint_split_levels(p: Seq<(int, int)>)
    requires
        p.len() == 4,
    ensures
        ({
            let e = midpoint_split_eighths(p);
            let c = |i: int| (8 * p[i].0, 8 * p[i].1);
            &&& is_midpoint(e[0], c(0), c(1))
            &&& is_midpoint(e[1], c(1), c(2))
            &&& is_midpoint(e[2], c(2), c(3))
            &&& is_midpoint(e[3], e[0], e[1])
            &&& is_midpoint(e[4], e[1], e[2])
            &&& is_midpoint(e[5], e[3], e[4])
            &&& e[5] == (p[0].0 + 3 * p[1].0 + 3 * p[2].0 + p[3].0, p[0].1 + 3 * p[1].1 + 3 * p[2].1
                + p[3].1)
        }),
{
}

/// The grey level of a share-card grid line at `offset` font units from
/// the grid origin: brightest every 256 units, mid every 64, faint at the
/// other 16-unit lines.
pub open spec fn grid_shade_of(offset: int) -> u8 {
    let u = offset % 256;
    if u == 0 {
        66
    } else if u % 64 == 0 {
        44
    } else {
        24
    }
}

/// The grey level of the grid line at `offset` units from the origin.
pub fn grid_shade(offset: i64) -> (c: u8)
    ensures
        c == grid_shade_of(offset as int),
{
    let u: u64 = if offset >= 0 {
        (offset as u64) % 256
    } else {
        let m = ((-(offset + 1)) as u64) % 256;
        255 - m
    };
    assert(u == (offset as int) % 256) by {
        if offset < 0 {
            let a = -(offset + 1);
            assert(offset == -a - 1);
            let q = a / 256;
            assert(a == 256 * q + a % 256);
            assert(offset == 256 * (-q - 1) + (255 - a % 256));
            vstd::arithmetic::div_mod::lemma_mod_multiples_vanish(-q - 1, 255 - a % 256, 256);
            vstd::arithmetic::div_mod::lemma_small_mod((255 - a % 256) as nat, 256);
        }
    }
    if u == 0 {
        66
    } else if u % 64 == 0 {
        44
    } else {
        24
    }
}

/// The grid shading repeats every 256 units.
pub proof fn lemma_grid_shade_period(offset: int, k: int)
    ensures
        grid_shade_of(offset + 256 * k) == grid_shade_of(offset),
{
    vstd::arithmetic::div_mod::lemma_mod_multiples_vanish(k, offset, 256);
    assert(offset + 256 * k == 256 * k + offset);
}

/// Whether `m` divides `v` (the remainder `v % m` is zero).
pub open spec fn divides(m: int, v: int) -> bool {
    if v >= 0 {
        v % m == 0
    } else {
        (-v) % m == 0
    }
}

/// The ticks of an interpolation axis from `start` to `end` every `step`
/// units: each value, and whether it is a major tick (a multiple of
/// `major`).
pub open spec fn axis_ticks_spec(start: int, end: int, step: int, major: int) -> Seq<(i64, bool)> {
    let count = if start <= end {
        (end - start) / (step as int) + 1
    } else {
        0
    };
    Seq::new(count as nat, |k: int| ((start + k * step) as i64, divides(major, start + k * step)))
}

/// The ticks of an interpolation axis, from `start` up to `end` in steps of
/// `step`; the ticks at multiples of `major` are major.
pub fn axis_ticks(start: i64, end: i64, step: i64, major: i64) -> (ticks: Vec<(i64, bool)>)
    requires
        step > 0,
        major != 0,
        major != -1 || start > i64::MIN,
        end + step <= i64::MAX,
    ensures
        ticks@ == axis_ticks_spec(start as int, end as int, step as int, major as int),
{
    let mut ticks: Vec<(i64, bool)> = Vec::new();
    let mut value = start;
    let ghost mut k: int = 0;
    while value <= end
        invariant
            step > 0,
            major != 0,
            major != -1 || start > i64::MIN,
            end + step <= i64::MAX,
            value >= start,
            value == start + k * step,
            0 <= k,
            start <= end ==> k <= (end - start) / (step as int) + 1,
            start > end ==> k == 0,
            ticks@ =~= axis_ticks_spec(start as int, end as int, step as int, major as int).take(k),
        decreases end + step - value,
    {
        assert(k < (end - start) / (step as int) + 1) by (nonlinear_arith)
            requires
                value == start + k * step,
                value <= end,
                step > 0,
                k >= 0,
        ;
        let is_major = value % major == 0;
        assert(is_major == divides(major as int, start + k * step));
        ticks.push((value, is_major));
        proof {
            k = k + 1;
        }
        value = value + step;
        assert(value == start + k * step) by (nonlinear_arith)
            requires
                value == start + (k - 1) * step + step,
        ;
    }
    assert(k == (if start <= end { (end - start) / (step as int) + 1 } else { 0 })) by (nonlinear_arith)
        requires
            value == start + k * step,
            value > end,
            step > 0,
            k >= 0,
            start <= end ==> k <= (end - start) / (step as int) + 1,
            start > end ==> k == 0,
    ;
    ticks
}

} // verus!
