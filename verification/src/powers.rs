//! Powers-of-two labels: a value as its descending sum of powers of two, and
//! the two-line layout of that sum under a measurement.

use crate::text::{concat, join, join_with};
use vstd::arithmetic::div_mod::{lemma_mod_sub_multiples_vanish, lemma_small_mod, lemma_mod_mod};
use vstd::arithmetic::power2::{lemma2_to64, lemma2_to64_rest, lemma_pow2_pos, lemma_pow2_unfold, pow2};
use vstd::prelude::*;
use vstd::string::*;

verus! {

/// The decimal digit `d` (for `d < 10`).
pub open spec fn digit_char(d: nat) -> char {
    if d == 0 {
        '0'
    } else if d == 1 {
        '1'
    } else if d == 2 {
        '2'
    } else if d == 3 {
        '3'
    } else if d == 4 {
        '4'
    } else if d == 5 {
        '5'
    } else if d == 6 {
        '6'
    } else if d == 7 {
        '7'
    } else if d == 8 {
        '8'
    } else {
        '9'
    }
}

/// The decimal notation of `n`, without leading zeros.
pub open spec fn decimal(n: nat) -> Seq<char>
    decreases n,
{
    if n < 10 {
        seq![digit_char(n)]
    } else {
        decimal(n / 10).push(digit_char(n % 10))
    }
}

/// The decimal notation of a signed value, with a leading `-` when negative.
pub open spec fn signed_decimal(v: int) -> Seq<char> {
    if v < 0 {
        seq!['-'] + decimal((-v) as nat)
    } else {
        decimal(v as nat)
    }
}

fn digit_text(d: u64) -> (s: &'static str)
    requires
        d < 10,
    ensures
        s@ == seq![digit_char(d as nat)],
{
    proof {
        reveal_strlit("0");
        reveal_strlit("1");
        reveal_strlit("2");
        reveal_strlit("3");
        reveal_strlit("4");
        reveal_strlit("5");
        reveal_strlit("6");
        reveal_strlit("7");
        reveal_strlit("8");
        reveal_strlit("9");
    }
    if d == 0 {
        "0"
    } else if d == 1 {
        "1"
    } else if d == 2 {
        "2"
    } else if d == 3 {
        "3"
    } else if d == 4 {
        "4"
    } else if d == 5 {
        "5"
    } else if d == 6 {
        "6"
    } else if d == 7 {
        "7"
    } else if d == 8 {
        "8"
    } else {
        "9"
    }
}

/// The decimal notation of `n`.
pub fn decimal_u64(n: u64) -> (s: String)
    ensures
        s@ == decimal(n as nat),
    decreases n,
{
    if n < 10 {
        digit_text(n).to_owned()
    } else {
        let mut s = decimal_u64(n / 10);
        s.append(digit_text(n % 10));
        s
    }
}

/// The decimal notation of `v`, as `i64::to_string` writes it.
pub fn decimal_i64(v: i64) -> (s: String)
    ensures
        s@ == signed_decimal(v as int),
{
    if v < 0 {
        let magnitude = (0i128 - v as i128) as u64;
        proof {
            reveal_strlit("-");
        }
        let digits = decimal_u64(magnitude);
        concat("-", digits.as_str())
    } else {
        decimal_u64(v as u64)
    }
}

/// Whether bit `k` of the two's complement of `v` is one.
pub open spec fn bit_is_set(v: int, k: nat) -> bool {
    v % (pow2(k + 1) as int) >= pow2(k)
}

/// The powers of two below `pow2(k)` whose bits are set in `v`, largest
/// first.
pub open spec fn power_parts(v: int, k: nat) -> Seq<nat>
    decreases k,
{
    if k == 0 {
        Seq::empty()
    } else {
        let rest = power_parts(v, (k - 1) as nat);
        if bit_is_set(v, (k - 1) as nat) {
            seq![pow2((k - 1) as nat)] + rest
        } else {
            rest
        }
    }
}

proof fn lemma_power_parts_len(v: int, k: nat)
    ensures
        power_parts(v, k).len() <= k,
    decreases k,
{
    if k > 0 {
        lemma_power_parts_len(v, (k - 1) as nat);
    }
}

/// The decimal notation of each part.
pub open spec fn part_texts(parts: Seq<nat>) -> Seq<Seq<char>> {
    parts.map_values(|p: nat| decimal(p))
}

/// The text `p2sum` writes for `v`: the powers of two of bits 62 down to 0
/// of `v`, largest first, joined by `+`.
pub open spec fn p2sum_text(v: int) -> Seq<char> {
    join_with(part_texts(power_parts(v, 63)), seq!['+'])
}

/// The sum of a sequence of naturals.
pub open spec fn sum_of(s: Seq<nat>) -> int
    decreases s.len(),
{
    if s.len() == 0 {
        0
    } else {
        s[0] + sum_of(s.drop_first())
    }
}

proof fn lemma_mod_halves(r: int, b: int)
    requires
        b > 0,
        0 <= r < 2 * b,
    ensures
        r % b == if r >= b {
            r - b
        } else {
            r
        },
{
    if r >= b {
        lemma_mod_sub_multiples_vanish(r, b);
        lemma_small_mod((r - b) as nat, b as nat);
    } else {
        lemma_small_mod(r as nat, b as nat);
    }
}

proof fn lemma_mod_step(v: int, k: nat)
    requires
        k > 0,
    ensures
        pow2(k) == 2 * pow2((k - 1) as nat),
        v % (pow2((k - 1) as nat) as int) == if v % (pow2(k) as int) >= pow2((k - 1) as nat) {
            v % (pow2(k) as int) - pow2((k - 1) as nat)
        } else {
            v % (pow2(k) as int)
        },
{
    let b = pow2((k - 1) as nat) as int;
    lemma_pow2_unfold(k);
    lemma_pow2_pos((k - 1) as nat);
    lemma_mod_mod(v, b, 2);
    assert(b * 2 == pow2(k));
    let r = v % (pow2(k) as int);
    assert(0 <= r < 2 * b);
    lemma_mod_halves(r, b);
}

/// 96 -> "64+32": a value as its descending powers-of-two sum, over bits 62
/// down to 0 of its two's complement; the empty text for 0.
pub fn p2sum(v: i64) -> (s: String)
    ensures
        s@ == p2sum_text(v as int),
{
    let parts = p2_parts(v);
    proof {
        reveal_strlit("+");
        assert("+"@ =~= seq!['+']);
    }
    join(&parts, "+")
}

/// The decimal texts of the powers of two in `v`, largest first.
fn p2_parts(v: i64) -> (parts: Vec<String>)
    ensures
        parts.deep_view() == part_texts(power_parts(v as int, 63)),
{
    let ghost vi = v as int;
    proof {
        lemma2_to64();
        lemma2_to64_rest();
    }
    let mut r: i128 = if v >= 0 {
        v as i128
    } else {
        v as i128 + 0x8000_0000_0000_0000i128
    };
    assert(r == vi % (pow2(63) as int));
    let mut bit: i128 = 0x4000_0000_0000_0000i128;
    let mut k: u32 = 63;
    let mut parts: Vec<String> = Vec::new();
    let ghost mut taken: Seq<nat> = Seq::empty();
    while k > 0
        invariant
            k <= 63,
            r == vi % (pow2(k as nat) as int),
            k > 0 ==> bit == pow2((k - 1) as nat),
            k > 0 ==> bit <= 0x4000_0000_0000_0000i128,
            taken + power_parts(vi, k as nat) == power_parts(vi, 63),
            parts.deep_view() == part_texts(taken),
        decreases k,
    {
        proof {
            lemma_mod_step(vi, k as nat);
            lemma_pow2_pos((k - 1) as nat);
            assert(((k - 1) as nat + 1) as nat == k as nat);
        }
        let ghost before = taken;
        let ghost rest = power_parts(vi, (k - 1) as nat);
        if r >= bit {
            let text = decimal_u64(bit as u64);
            let ghost before_view = parts.deep_view();
            let ghost text_view = text@;
            parts.push(text);
            proof {
                taken = taken.push(pow2((k - 1) as nat));
                assert(power_parts(vi, k as nat) == seq![pow2((k - 1) as nat)] + rest);
                assert(taken + rest =~= before + (seq![pow2((k - 1) as nat)] + rest));
                assert(parts.deep_view() =~= before_view.push(text_view));
                assert(part_texts(taken) =~= part_texts(before).push(decimal(pow2((k - 1) as nat))));
            }
            r = r - bit;
        } else {
            assert(power_parts(vi, k as nat) == rest);
        }
        if k > 1 {
            proof {
                lemma_pow2_unfold((k - 1) as nat);
            }
        }
        bit = bit / 2;
        k = k - 1;
    }
    assert(taken =~= taken + power_parts(vi, 0));
    parts
}

/// The number of one bits in the two's complement of `v`, as
/// `i64::count_ones` gives it: those of bits 62 to 0 and the sign bit.
pub open spec fn ones_count(v: int) -> nat {
    power_parts(v, 63).len() + if v < 0 {
        1nat
    } else {
        0nat
    }
}

/// "96 (64+32)"; pure powers stay bare ("128", not "128 (128)").
pub fn fmt_val(v: i64) -> (s: String)
    ensures
        s@ == if ones_count(v as int) <= 1 {
            signed_decimal(v as int)
        } else {
            signed_decimal(v as int) + " ("@ + p2sum_text(v as int) + ")"@
        },
{
    let parts = p2_parts(v);
    proof {
        lemma_power_parts_len(v as int, 63);
        assert(parts.deep_view().len() == parts@.len());
    }
    let ones = parts.len() + if v < 0 {
        1
    } else {
        0
    };
    let value = decimal_i64(v);
    if ones <= 1 {
        value
    } else {
        proof {
            reveal_strlit("+");
            assert("+"@ =~= seq!['+']);
        }
        let sum = join(&parts, "+");
        let mut s = concat(value.as_str(), " (");
        s.append(sum.as_str());
        s.append(")");
        s
    }
}

/// The lines of the powers-of-two sum under a measurement: with `0 < after`
/// and more than `after` parts, the first `after` parts on one line and `+`
/// with the rest on a second; otherwise the whole sum on one line.
pub open spec fn sum_lines(v: int, after: nat) -> Seq<Seq<char>> {
    let texts = part_texts(power_parts(v, 63));
    if 0 < after < texts.len() {
        seq![
            join_with(texts.take(after as int), seq!['+']),
            seq!['+'] + join_with(texts.skip(after as int), seq!['+']),
        ]
    } else {
        seq![join_with(texts, seq!['+'])]
    }
}

/// The lines of the powers-of-two sum of `value`, broken after
/// `sum_break_after` parts (see `sum_lines`).
pub fn measurement_sum_lines(value: i64, sum_break_after: usize) -> (lines: Vec<String>)
    ensures
        lines.deep_view() == sum_lines(value as int, sum_break_after as nat),
{
    let parts = p2_parts(value);
    proof {
        reveal_strlit("+");
    }
    let mut lines: Vec<String> = Vec::new();
    if sum_break_after > 0 && sum_break_after < parts.len() {
        let mut head: Vec<String> = Vec::new();
        let mut tail: Vec<String> = Vec::new();
        let mut i: usize = 0;
        while i < parts.len()
            invariant
                0 < sum_break_after < parts.len(),
                i <= parts.len(),
                i <= sum_break_after ==> head.deep_view() == parts.deep_view().take(i as int),
                i <= sum_break_after ==> tail.deep_view() == Seq::<Seq<char>>::empty(),
                i > sum_break_after ==> head.deep_view() == parts.deep_view().take(
                    sum_break_after as int,
                ),
                i > sum_break_after ==> tail.deep_view() == parts.deep_view().subrange(
                    sum_break_after as int,
                    i as int,
                ),
            decreases parts.len() - i,
        {
            if i < sum_break_after {
                head.push(parts[i].clone());
                assert(head.deep_view() =~= parts.deep_view().take(i + 1));
            } else {
                tail.push(parts[i].clone());
                assert(tail.deep_view() =~= parts.deep_view().subrange(
                    sum_break_after as int,
                    i + 1,
                ));
            }
            i = i + 1;
        }
        assert(tail.deep_view() =~= parts.deep_view().skip(sum_break_after as int));
        let first = join(&head, "+");
        let rest = join(&tail, "+");
        let second = concat("+", rest.as_str());
        let ghost fv = first@;
        let ghost sv = second@;
        assert("+"@ =~= seq!['+']);
        lines.push(first);
        lines.push(second);
        assert(lines.deep_view() =~= seq![fv, sv]);
    } else {
        let whole = join(&parts, "+");
        let ghost wv = whole@;
        assert("+"@ =~= seq!['+']);
        lines.push(whole);
        assert(lines.deep_view() =~= seq![wv]);
    }
    lines
}

/// The powers of two of `v` below `pow2(k)` add up to `v` modulo `pow2(k)`.
pub proof fn lemma_power_parts_sum(v: int, k: nat)
    ensures
        sum_of(power_parts(v, k)) == v % (pow2(k) as int),
    decreases k,
{
    if k == 0 {
        lemma2_to64();
    } else {
        lemma_power_parts_sum(v, (k - 1) as nat);
        lemma_mod_step(v, k);
        let rest = power_parts(v, (k - 1) as nat);
        assert(((k - 1) as nat + 1) as nat == k);
        if bit_is_set(v, (k - 1) as nat) {
            let parts = seq![pow2((k - 1) as nat)] + rest;
            assert(parts.drop_first() =~= rest);
        }
    }
}

/// The parts are distinct powers of two in descending order, all below
/// `pow2(k)`.
pub proof fn lemma_power_parts_descending(v: int, k: nat)
    ensures
        forall|i: int| 0 <= i < power_parts(v, k).len() ==> power_parts(v, k)[i] < pow2(k),
        forall|i: int, j: int|
            0 <= i < j < power_parts(v, k).len() ==> power_parts(v, k)[i] > power_parts(v, k)[j],
    decreases k,
{
    if k > 0 {
        lemma_power_parts_descending(v, (k - 1) as nat);
        lemma_pow2_unfold(k);
        lemma_pow2_pos((k - 1) as nat);
        let rest = power_parts(v, (k - 1) as nat);
        if bit_is_set(v, (k - 1) as nat) {
            let parts = seq![pow2((k - 1) as nat)] + rest;
            assert forall|i: int, j: int| 0 <= i < j < parts.len() implies parts[i] > parts[j] by {
                if i > 0 {
                    assert(parts[i] == rest[i - 1] && parts[j] == rest[j - 1]);
                } else {
                    assert(parts[j] == rest[j - 1]);
                }
            }
        }
    }
}

/// For a value that is not negative, `p2sum` lists powers of two that add
/// up to the value itself.
pub proof fn lemma_p2sum_adds_up(v: i64)
    requires
        v >= 0,
    ensures
        sum_of(power_parts(v as int, 63)) == v,
{
    lemma_power_parts_sum(v as int, 63);
    lemma2_to64();
    lemma2_to64_rest();
    lemma_small_mod(v as nat, pow2(63));
}

proof fn lemma_join_split(s: Seq<Seq<char>>, sep: Seq<char>, b: int)
    requires
        0 < b < s.len(),
    ensures
        join_with(s.take(b), sep) + sep + join_with(s.skip(b), sep) == join_with(s, sep),
    decreases s.len(),
{
    let n = s.len() as int;
    if b == n - 1 {
        assert(s.take(b) =~= s.drop_last());
        assert(s.skip(b) =~= seq![s.last()]);
    } else {
        lemma_join_split(s.drop_last(), sep, b);
        assert(s.drop_last().take(b) =~= s.take(b));
        assert(s.skip(b).drop_last() =~= s.drop_last().skip(b));
        assert(s.skip(b).last() == s.last());
        assert(join_with(s.skip(b), sep) == join_with(s.skip(b).drop_last(), sep) + sep + s.last());
    }
}

/// The two lines of a broken sum, read one after the other, are the whole
/// sum: the second line's leading `+` joins them.
pub proof fn lemma_sum_lines_rejoin(v: int, after: nat)
    ensures
        sum_lines(v, after).len() == 1 ==> sum_lines(v, after)[0] == p2sum_text(v),
        sum_lines(v, after).len() == 2 ==> sum_lines(v, after)[0] + sum_lines(v, after)[1]
            == p2sum_text(v),
{
    let texts = part_texts(power_parts(v, 63));
    if 0 < after < texts.len() {
        lemma_join_split(texts, seq!['+'], after as int);
        assert(sum_lines(v, after)[0] + sum_lines(v, after)[1] =~= join_with(
            texts.take(after as int),
            seq!['+'],
        ) + seq!['+'] + join_with(texts.skip(after as int), seq!['+']));
    }
}

} // verus!
