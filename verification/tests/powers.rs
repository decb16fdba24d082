use virtua_grotesk_figures::powers::{decimal_i64, decimal_u64, fmt_val, measurement_sum_lines, p2sum};

#[test]
fn p2sum_writes_descending_powers() {
    assert_eq!(p2sum(96), "64+32");
    assert_eq!(p2sum(108), "64+32+8+4");
    assert_eq!(p2sum(1), "1");
    assert_eq!(p2sum(1024), "1024");
    assert_eq!(p2sum(0), "");
    assert_eq!(p2sum(i64::MAX).split('+').count(), 63);
}

#[test]
fn p2sum_of_a_negative_value_uses_bits_below_the_sign() {
    // -1 has every bit set; the sign bit is not part of the sum
    assert_eq!(p2sum(-1).split('+').count(), 63);
    assert!(p2sum(-1).starts_with("4611686018427387904+"));
    assert!(p2sum(-1).ends_with("+2+1"));
}

#[test]
fn fmt_val_keeps_pure_powers_bare() {
    assert_eq!(fmt_val(128), "128");
    assert_eq!(fmt_val(96), "96 (64+32)");
    assert_eq!(fmt_val(100), "100 (64+32+4)");
    assert_eq!(fmt_val(0), "0");
    assert_eq!(fmt_val(1), "1");
}

#[test]
fn fmt_val_of_negative_values() {
    // i64::MIN has only the sign bit
    assert_eq!(fmt_val(i64::MIN), "-9223372036854775808");
    assert!(fmt_val(-2).starts_with("-2 ("));
}

#[test]
fn decimal_text_matches_to_string() {
    for v in [0i64, 7, 10, 99, 100, 4937, -1, -450, i64::MAX, i64::MIN] {
        assert_eq!(decimal_i64(v), v.to_string());
    }
    for v in [0u64, 9, 12345, u64::MAX] {
        assert_eq!(decimal_u64(v), v.to_string());
    }
}

#[test]
fn sum_lines_break_after_the_requested_part() {
    assert_eq!(measurement_sum_lines(108, 2), vec!["64+32", "+8+4"]);
    assert_eq!(measurement_sum_lines(108, 0), vec!["64+32+8+4"]);
    assert_eq!(measurement_sum_lines(96, 2), vec!["64+32"]);
    assert_eq!(measurement_sum_lines(600, 1), vec!["512", "+64+16+8"]);
    assert_eq!(measurement_sum_lines(0, 1), vec![""]);
}

#[test]
fn sum_lines_rejoin_to_the_whole_sum() {
    for (v, after) in [(108i64, 2usize), (536, 2), (600, 3), (432, 1)] {
        let lines = measurement_sum_lines(v, after);
        assert_eq!(lines.concat(), p2sum(v));
    }
}

#[test]
fn p2sum_parts_add_up_and_descend() {
    for v in [1i64, 96, 100, 108, 432, 536, 600, 1023, 123456789] {
        let parts: Vec<i64> = p2sum(v).split('+').map(|p| p.parse().unwrap()).collect();
        assert_eq!(parts.iter().sum::<i64>(), v);
        assert!(parts.windows(2).all(|w| w[0] > w[1]));
        assert!(parts.iter().all(|p| p.count_ones() == 1));
    }
}
