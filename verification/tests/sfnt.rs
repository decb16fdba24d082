use virtua_grotesk_figures::sfnt::{family_name, family_name_units, find_table, FontNameError};

fn be16(v: u16) -> [u8; 2] {
    v.to_be_bytes()
}

/// A font with one or more dummy tables and a `name` table holding the
/// given (platform, name id, string) records.
fn font(records: &[(u16, u16, &str)], leading_tables: u16) -> Vec<u8> {
    let tables = leading_tables + 1;
    let dir_end = 12 + 16 * tables as usize;
    let mut d = vec![0u8, 1, 0, 0];
    d.extend(be16(tables));
    d.extend([0u8; 6]);
    for i in 0..leading_tables {
        d.extend(b"cmap");
        d.extend([0u8; 4]);
        d.extend((i as u32 * 0).to_be_bytes());
        d.extend([0u8; 4]);
    }
    d.extend(b"name");
    d.extend([0u8; 4]);
    d.extend((dir_end as u32).to_be_bytes());
    d.extend([0u8; 4]);
    assert_eq!(d.len(), dir_end);
    let mut strings: Vec<u8> = Vec::new();
    let mut recs: Vec<u8> = Vec::new();
    for (platform, id, s) in records {
        let bytes: Vec<u8> = s.encode_utf16().flat_map(|u| u.to_be_bytes()).collect();
        recs.extend(be16(*platform));
        recs.extend(be16(1));
        recs.extend(be16(0x409));
        recs.extend(be16(*id));
        recs.extend(be16(bytes.len() as u16));
        recs.extend(be16(strings.len() as u16));
        strings.extend(bytes);
    }
    let string_offset = 6 + recs.len();
    d.extend(be16(0));
    d.extend(be16(records.len() as u16));
    d.extend(be16(string_offset as u16));
    d.extend(recs);
    d.extend(strings);
    d
}

#[test]
fn typographic_family_wins() {
    let f = font(&[(1, 1, "Mac"), (3, 1, "Geist Mono Regular"), (3, 16, "Geist Mono")], 0);
    assert_eq!(family_name(&f).unwrap(), "Geist Mono");
}

#[test]
fn legacy_family_is_the_fallback() {
    let f = font(&[(1, 16, "Mac Typographic"), (3, 1, "Virtua Grotesk")], 2);
    assert_eq!(family_name(&f).unwrap(), "Virtua Grotesk");
}

#[test]
fn code_units_are_big_endian_utf16() {
    let f = font(&[(3, 1, "A\u{e9}\u{1f600}")], 0);
    assert_eq!(family_name_units(&f).unwrap(), vec![0x0041, 0x00e9, 0xd83d, 0xde00]);
    assert_eq!(family_name(&f).unwrap(), "A\u{e9}\u{1f600}");
}

#[test]
fn unpaired_surrogate_is_replaced() {
    let mut f = font(&[(3, 1, "AB")], 0);
    // overwrite "B" with a lone high surrogate
    let n = f.len();
    f[n - 2] = 0xd8;
    f[n - 1] = 0x00;
    assert_eq!(family_name(&f).unwrap(), "A\u{fffd}");
}

#[test]
fn table_directory_lookup() {
    let f = font(&[(3, 1, "X")], 3);
    assert_eq!(find_table(&f, *b"name"), Ok(Some(12 + 16 * 4)));
    assert_eq!(find_table(&f, *b"glyf"), Ok(None));
    assert_eq!(find_table(&[0, 1, 0], *b"name"), Err(FontNameError::Truncated));
}

#[test]
fn missing_pieces_are_errors() {
    let no_name = {
        let mut f = font(&[(3, 1, "X")], 0);
        f[12..16].copy_from_slice(b"post");
        f
    };
    assert_eq!(family_name(&no_name), Err(FontNameError::NoNameTable));
    let no_windows = font(&[(1, 1, "Mac only")], 0);
    assert_eq!(family_name(&no_windows), Err(FontNameError::NoWindowsFamilyName));
    let mut truncated = font(&[(3, 1, "Long family name")], 0);
    truncated.truncate(truncated.len() - 4);
    assert_eq!(family_name(&truncated), Err(FontNameError::Truncated));
    assert_eq!(family_name(&[]), Err(FontNameError::Truncated));
}

#[test]
fn unpaired_surrogates_decode_to_replacement_characters() {
    // a surrogate pair, a lone trailing and a lone leading surrogate
    let units: [u16; 9] = [0xD834, 0xDD1E, 0x006d, 0x0075, 0x0073, 0xDD1E, 0x0069, 0x0063, 0xD834];
    let mut f = font(&[(3, 1, "ABCDEFGHI")], 0);
    let n = f.len();
    for (k, u) in units.iter().enumerate() {
        f[n - 18 + 2 * k..n - 16 + 2 * k].copy_from_slice(&u.to_be_bytes());
    }
    assert_eq!(family_name(&f).unwrap(), "\u{1D11E}mus\u{FFFD}ic\u{FFFD}");
}
