use virtua_grotesk_figures::bits::{
    axis_ticks, bit_cells, exact_on_pixel_grid, grid_shade, midpoint_split, trailing_zeros,
};

#[test]
fn bit_cells_most_significant_first() {
    assert_eq!(bit_cells(96, 7), vec![1, 1, 0, 0, 0, 0, 0]);
    assert_eq!(bit_cells(100, 7), vec![1, 1, 0, 0, 1, 0, 0]);
    assert_eq!(bit_cells(1024, 11), vec![1, 0, 0, 0, 0, 0, 0, 0, 0, 0, 0]);
    assert_eq!(bit_cells(116, 11), vec![0, 0, 0, 0, 1, 1, 1, 0, 1, 0, 0]);
    assert_eq!(bit_cells(5, 0), Vec::<u8>::new());
    // only the low bits fit
    assert_eq!(bit_cells(0b1011, 2), vec![1, 1]);
}

#[test]
fn bit_cells_match_shifts() {
    for value in [1024u32, 768, 576, 96, 116, 0, u32::MAX] {
        let cells = bit_cells(value, 11);
        for (b, cell) in cells.iter().enumerate() {
            assert_eq!(*cell as u32, (value >> (10 - b)) & 1);
        }
    }
}

#[test]
fn trailing_zeros_match_std() {
    for value in [1024u32, 768, 576, 96, 116, 1, 0, 3, u32::MAX, 1 << 31] {
        assert_eq!(trailing_zeros(value), value.trailing_zeros());
    }
    assert_eq!(trailing_zeros(96), 5);
    assert_eq!(trailing_zeros(100), 2);
}

#[test]
fn the_1024_em_grid() {
    let sizes = [12u64, 13, 14, 15, 16, 17, 18];
    for c in [576u64, 116, 96, 88, 64] {
        let row: Vec<bool> = sizes.iter().map(|p| exact_on_pixel_grid(c, *p, 1024)).collect();
        let expected: Vec<bool> = sizes.iter().map(|p| (c * p) % 16 == 0).collect();
        assert_eq!(row, expected);
    }
    assert!(sizes.iter().all(|p| exact_on_pixel_grid(96, *p, 1024)));
    let row_116: Vec<bool> = sizes.iter().map(|p| exact_on_pixel_grid(116, *p, 1024)).collect();
    assert_eq!(row_116, vec![true, false, false, false, true, false, false]);
    assert!(exact_on_pixel_grid(64, 13, 1024));
    assert!(!exact_on_pixel_grid(116, 13, 1024));
}

#[test]
fn the_1000_em_panel_is_inexact_everywhere() {
    let sizes = [12u64, 13, 14, 15, 16, 17, 18];
    for c in [562u64, 116, 96, 88, 64] {
        for p in sizes {
            assert!(!exact_on_pixel_grid(c, p, 1000));
        }
    }
    assert!(exact_on_pixel_grid(125, 8, 1000));
}

#[test]
fn midpoint_construction_in_eighths() {
    let split = midpoint_split([(0, 0), (40, 64), (96, 64), (136, 0)]);
    let units: Vec<(i64, i64)> = split.iter().map(|(x, y)| (x / 8, y / 8)).collect();
    assert_eq!(units, vec![(20, 32), (68, 64), (116, 32), (44, 48), (92, 48), (68, 48)]);
    // every point of the figure's construction lands on the 4-unit grid
    assert!(split.iter().all(|(x, y)| x % 32 == 0 && y % 32 == 0));
}

#[test]
fn midpoint_split_is_the_curve_at_one_half() {
    let p = [(3i64, -5i64), (17, 2), (-4, 9), (11, 1)];
    let s = midpoint_split(p);
    let b = |i: usize| -> f64 {
        let c = |q: (i64, i64)| if i == 0 { q.0 as f64 } else { q.1 as f64 };
        0.125 * c(p[0]) + 0.375 * c(p[1]) + 0.375 * c(p[2]) + 0.125 * c(p[3])
    };
    assert_eq!(s[5].0 as f64 / 8.0, b(0));
    assert_eq!(s[5].1 as f64 / 8.0, b(1));
}

#[test]
fn grid_shades() {
    assert_eq!(grid_shade(0), 66);
    assert_eq!(grid_shade(256), 66);
    assert_eq!(grid_shade(-256), 66);
    assert_eq!(grid_shade(64), 44);
    assert_eq!(grid_shade(-64), 44);
    assert_eq!(grid_shade(-192), 44);
    assert_eq!(grid_shade(16), 24);
    assert_eq!(grid_shade(-16), 24);
    for o in [-1000i64, -17, 3, 48, 320] {
        assert_eq!(grid_shade(o), grid_shade(o + 256 * 7));
        let u = o.rem_euclid(256);
        let expected = if u == 0 { 66 } else if u % 64 == 0 { 44 } else { 24 };
        assert_eq!(grid_shade(o), expected);
    }
}

#[test]
fn interpolation_axis_ticks() {
    let upper = axis_ticks(96, 192, 2, 8);
    assert_eq!(upper.len(), 49);
    assert_eq!(upper[0], (96, true));
    assert_eq!(upper[1], (98, false));
    assert_eq!(upper[48], (192, true));
    assert_eq!(upper.iter().filter(|(_, major)| *major).count(), 13);
    let lower = axis_ticks(90, 180, 5, 10);
    assert_eq!(lower.len(), 19);
    assert_eq!(lower[1], (95, false));
    assert_eq!(lower.iter().filter(|(_, major)| *major).count(), 10);
    assert!(axis_ticks(5, 4, 1, 2).is_empty());
    assert_eq!(axis_ticks(-6, 0, 3, 6), vec![(-6, true), (-3, false), (0, true)]);
    // the end is included only when a step lands on it
    assert_eq!(axis_ticks(0, 7, 3, 100), vec![(0, true), (3, false), (6, false)]);
}

#[test]
fn cells_spell_the_low_bits() {
    for (value, width) in [(96u32, 7u32), (100, 7), (1024, 11), (116, 11), (u32::MAX, 5), (77, 3)] {
        let cells = bit_cells(value, width);
        let spelled = cells.iter().fold(0u64, |acc, c| acc * 2 + *c as u64);
        assert_eq!(spelled, value as u64 % (1u64 << width));
    }
}

#[test]
fn trailing_zero_cells_end_the_row() {
    for value in [1024u32, 768, 576, 96, 116] {
        let cells = bit_cells(value, 11);
        let zeros = trailing_zeros(value) as usize;
        assert!(cells[11 - zeros..].iter().all(|c| *c == 0));
        assert_eq!(cells[11 - zeros - 1], 1);
    }
}
