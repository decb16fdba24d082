//! The family name of an OpenType font, read from its `name` table.
//!
//! The table directory lists one 16-byte record per table after a 12-byte
//! header; the `name` table holds 12-byte name records and a string area.
//! The family name is the Windows-platform record (platform 3) with name id
//! 16 (typographic family) if there is one, else name id 1, as UTF-16BE.
//! Every read is checked: a read past the end of the data is an error.

use vstd::prelude::*;

verus! {

/// Why no family name could be read.
#[derive(Clone, Copy, Debug, PartialEq, Eq, Structural)]
pub enum FontNameError {
    /// A read runs past the end of the font data.
    Truncated,
    /// The table directory lists no `name` table.
    NoNameTable,
    /// The `name` table has no Windows family-name record.
    NoWindowsFamilyName,
}

/// Whether `k` bytes can be read at `o`.
pub open spec fn fits(d: Seq<u8>, o: int, k: int) -> bool {
    0 <= o && o + k <= d.len()
}

/// The big-endian 16-bit value at `o`.
pub open spec fn be16(d: Seq<u8>, o: int) -> int {
    d[o] * 256 + d[o + 1]
}

/// The big-endian 32-bit value at `o`.
pub open spec fn be32(d: Seq<u8>, o: int) -> int {
    d[o] * 16777216 + d[o + 1] * 65536 + d[o + 2] * 256 + d[o + 3]
}

/// The offset of the table tagged `tag`, searching directory records `i..n`.
pub open spec fn table_from(d: Seq<u8>, tag: Seq<u8>, n: nat, i: nat) -> Result<Option<nat>, FontNameError>
    decreases n - i,
{
    if i >= n {
        Ok(None)
    } else {
        let r = 12 + 16 * (i as int);
        if !fits(d, r, 4) {
            Err(FontNameError::Truncated)
        } else if d.subrange(r, r + 4) == tag {
            if !fits(d, r + 8, 4) {
                Err(FontNameError::Truncated)
            } else {
                Ok(Some(be32(d, r + 8) as nat))
            }
        } else {
            table_from(d, tag, n, i + 1)
        }
    }
}

/// The offset of the table tagged `tag`, if the directory lists one.
pub open spec fn table_offset(d: Seq<u8>, tag: Seq<u8>) -> Result<Option<nat>, FontNameError> {
    if !fits(d, 4, 2) {
        Err(FontNameError::Truncated)
    } else {
        table_from(d, tag, be16(d, 4) as nat, 0)
    }
}

fn read_u16(d: &[u8], o: u64) -> (r: Option<u64>)
    ensures
        r is None <==> !fits(d@, o as int, 2),
        r matches Some(v) ==> v == be16(d@, o as int),
{
    let n = d.len() as u64;
    if o > n || n - o < 2 {
        return None;
    }
    let o = o as usize;
    Some((d[o] as u64) * 256 + (d[o + 1] as u64))
}

fn read_u32(d: &[u8], o: u64) -> (r: Option<u64>)
    ensures
        r is None <==> !fits(d@, o as int, 4),
        r matches Some(v) ==> v == be32(d@, o as int),
{
    let n = d.len() as u64;
    if o > n || n - o < 4 {
        return None;
    }
    let o = o as usize;
    Some((d[o] as u64) * 16777216 + (d[o + 1] as u64) * 65536 + (d[o + 2] as u64) * 256 + (d[o
        + 3] as u64))
}

/// The offset of the table tagged `tag`: `Ok(None)` when the directory does
/// not list it.
pub fn find_table(d: &[u8], tag: [u8; 4]) -> (r: Result<Option<u64>, FontNameError>)
    ensures
        match r {
            Ok(Some(o)) => table_offset(d@, tag@) == Ok::<Option<nat>, FontNameError>(Some(o as nat)),
            Ok(None) => table_offset(d@, tag@) == Ok::<Option<nat>, FontNameError>(None),
            Err(e) => table_offset(d@, tag@) == Err::<Option<nat>, FontNameError>(e),
        },
        r matches Ok(Some(o)) ==> o < 0x1_0000_0000,
{
    let n = match read_u16(d, 4) {
        None => return Err(FontNameError::Truncated),
        Some(n) => n,
    };
    let mut i: u64 = 0;
    while i < n
        invariant
            n == be16(d@, 4),
            n < 65536,
            fits(d@, 4, 2),
            i <= n,
            table_offset(d@, tag@) == table_from(d@, tag@, n as nat, i as nat),
        decreases n - i,
    {
        let r = 12 + 16 * i;
        let len = d.len() as u64;
        if r > len || len - r < 4 {
            return Err(FontNameError::Truncated);
        }
        let ru = r as usize;
        if d[ru] == tag[0] && d[ru + 1] == tag[1] && d[ru + 2] == tag[2] && d[ru + 3] == tag[3] {
            assert(d@.subrange(r as int, r + 4) =~= tag@);
            return match read_u32(d, r + 8) {
                None => Err(FontNameError::Truncated),
                Some(o) => Ok(Some(o)),
            };
        }
        assert(d@.subrange(r as int, r + 4) != tag@) by {
            let w = d@.subrange(r as int, r + 4);
            if d[ru as int] != tag[0] {
                assert(w[0] != tag@[0]);
            } else if d[ru + 1] != tag[1] {
                assert(w[1] != tag@[1]);
            } else if d[ru + 2] != tag[2] {
                assert(w[2] != tag@[2]);
            } else {
                assert(w[3] != tag@[3]);
            }
        }
        i = i + 1;
    }
    Ok(None)
}

/// The `name` table tag.
pub open spec fn name_tag() -> Seq<u8> {
    seq![0x6eu8, 0x61u8, 0x6du8, 0x65u8]
}

/// The string (offset, byte length) of the first Windows record with name
/// id `want`, searching records `i..count` of the `name` table at `name`.
pub open spec fn record_from(
    d: Seq<u8>,
    name: int,
    count: nat,
    strings: int,
    want: int,
    i: nat,
) -> Result<Option<(int, int)>, FontNameError>
    decreases count - i,
{
    if i >= count {
        Ok(None)
    } else {
        let rec = name + 6 + 12 * (i as int);
        if !fits(d, rec, 2) {
            Err(FontNameError::Truncated)
        } else if be16(d, rec) != 3 {
            record_from(d, name, count, strings, want, i + 1)
        } else if !fits(d, rec + 6, 2) {
            Err(FontNameError::Truncated)
        } else if be16(d, rec + 6) != want {
            record_from(d, name, count, strings, want, i + 1)
        } else if !fits(d, rec + 8, 2) || !fits(d, rec + 10, 2) {
            Err(FontNameError::Truncated)
        } else {
            let len = be16(d, rec + 8);
            let off = strings + be16(d, rec + 10);
            if !fits(d, off, len) {
                Err(FontNameError::Truncated)
            } else {
                Ok(Some((off, len)))
            }
        }
    }
}

/// The big-endian 16-bit code units of `len` bytes at `off`; a trailing odd
/// byte is ignored.
pub open spec fn utf16_units(d: Seq<u8>, off: int, len: int) -> Seq<u16> {
    Seq::new((len / 2) as nat, |k: int| be16(d, off + 2 * k) as u16)
}

/// The code units of the font's Windows family name: name id 16 if the
/// `name` table has it, else name id 1.
pub open spec fn family_units(d: Seq<u8>) -> Result<Seq<u16>, FontNameError> {
    match table_offset(d, name_tag()) {
        Err(e) => Err(e),
        Ok(None) => Err(FontNameError::NoNameTable),
        Ok(Some(at)) => if !fits(d, at as int + 2, 2) || !fits(d, at as int + 4, 2) {
            Err(FontNameError::Truncated)
        } else {
            let name = at as int;
            let count = be16(d, name + 2) as nat;
            let strings = name + be16(d, name + 4);
            match record_from(d, name, count, strings, 16, 0) {
                Err(e) => Err(e),
                Ok(Some((off, len))) => Ok(utf16_units(d, off, len)),
                Ok(None) => match record_from(d, name, count, strings, 1, 0) {
                    Err(e) => Err(e),
                    Ok(Some((off, len))) => Ok(utf16_units(d, off, len)),
                    Ok(None) => Err(FontNameError::NoWindowsFamilyName),
                },
            }
        },
    }
}

fn find_record(d: &[u8], name: u64, count: u64, strings: u64, want: u64) -> (r: Result<
    Option<(u64, u64)>,
    FontNameError,
>)
    requires
        name < 0x1_0000_0000,
        count < 0x1_0000,
        strings < 0x2_0000_0000,
    ensures
        match r {
            Ok(Some((off, len))) => record_from(d@, name as int, count as nat, strings as int, want as int, 0)
                == Ok::<Option<(int, int)>, FontNameError>(Some((off as int, len as int))),
            Ok(None) => record_from(d@, name as int, count as nat, strings as int, want as int, 0)
                == Ok::<Option<(int, int)>, FontNameError>(None),
            Err(e) => record_from(d@, name as int, count as nat, strings as int, want as int, 0)
                == Err::<Option<(int, int)>, FontNameError>(e),
        },
        r matches Ok(Some((off, len))) ==> fits(d@, off as int, len as int) && len < 0x1_0000 && off
            < 0x4_0000_0000,
{
    let mut i: u64 = 0;
    while i < count
        invariant
            name < 0x1_0000_0000,
            count < 0x1_0000,
            strings < 0x2_0000_0000,
            i <= count,
            record_from(d@, name as int, count as nat, strings as int, want as int, 0) == record_from(
                d@,
                name as int,
                count as nat,
                strings as int,
                want as int,
                i as nat,
            ),
        decreases count - i,
    {
        let rec = name + 6 + 12 * i;
        let platform = match read_u16(d, rec) {
            None => return Err(FontNameError::Truncated),
            Some(v) => v,
        };
        if platform == 3 {
            let id = match read_u16(d, rec + 6) {
                None => return Err(FontNameError::Truncated),
                Some(v) => v,
            };
            if id == want {
                let len = match read_u16(d, rec + 8) {
                    None => return Err(FontNameError::Truncated),
                    Some(v) => v,
                };
                let rel = match read_u16(d, rec + 10) {
                    None => return Err(FontNameError::Truncated),
                    Some(v) => v,
                };
                let off = strings + rel;
                let n = d.len() as u64;
                if off > n || n - off < len {
                    return Err(FontNameError::Truncated);
                }
                return Ok(Some((off, len)));
            }
        }
        i = i + 1;
    }
    Ok(None)
}

/// The code units of the font's Windows family name.
pub fn family_name_units(d: &[u8]) -> (r: Result<Vec<u16>, FontNameError>)
    ensures
        match r {
            Ok(units) => family_units(d@) == Ok::<Seq<u16>, FontNameError>(units@),
            Err(e) => family_units(d@) == Err::<Seq<u16>, FontNameError>(e),
        },
{
    let name = match find_table(d, [0x6e, 0x61, 0x6d, 0x65]) {
        Err(e) => return Err(e),
        Ok(None) => return Err(FontNameError::NoNameTable),
        Ok(Some(o)) => o,
    };
    assert([0x6eu8, 0x61u8, 0x6du8, 0x65u8]@ =~= name_tag());
    let count = match read_u16(d, name + 2) {
        None => return Err(FontNameError::Truncated),
        Some(v) => v,
    };
    let rel = match read_u16(d, name + 4) {
        None => return Err(FontNameError::Truncated),
        Some(v) => v,
    };
    let strings = name + rel;
    let found = match find_record(d, name, count, strings, 16) {
        Err(e) => return Err(e),
        Ok(Some(found)) => found,
        Ok(None) => match find_record(d, name, count, strings, 1) {
            Err(e) => return Err(e),
            Ok(Some(found)) => found,
            Ok(None) => return Err(FontNameError::NoWindowsFamilyName),
        },
    };
    let (off, len) = found;
    let mut units: Vec<u16> = Vec::new();
    let mut k: u64 = 0;
    let half = len / 2;
    while k < half
        invariant
            fits(d@, off as int, len as int),
            half == len / 2,
            k <= half,
            len < 0x1_0000,
            off < 0x4_0000_0000,
            units@ =~= utf16_units(d@, off as int, len as int).take(k as int),
        decreases half - k,
    {
        let at = (off + 2 * k) as usize;
        let unit = (d[at] as u16) * 256 + (d[at + 1] as u16);
        units.push(unit);
        assert(units@ =~= utf16_units(d@, off as int, len as int).take(k + 1));
        k = k + 1;
    }
    assert(units@ =~= utf16_units(d@, off as int, len as int));
    Ok(units)
}

/// A leading surrogate: a UTF-16 unit in `0xD800..0xDC00`.
pub open spec fn is_high_surrogate(u: u16) -> bool {
    0xD800 <= u < 0xDC00
}

/// A trailing surrogate: a UTF-16 unit in `0xDC00..0xE000`.
pub open spec fn is_low_surrogate(u: u16) -> bool {
    0xDC00 <= u < 0xE000
}

/// The text of the UTF-16 units `units`, decoded lossily: a leading
/// surrogate followed by a trailing one makes one character above U+FFFF, a
/// surrogate without its partner becomes U+FFFD, and every other unit is the
/// character of that number.
pub open spec fn utf16_lossy(units: Seq<u16>) -> Seq<char>
    decreases units.len(),
{
    if units.len() == 0 {
        Seq::empty()
    } else if units.len() > 1 && is_high_surrogate(units[0]) && is_low_surrogate(units[1]) {
        seq![(0x10000 + (units[0] - 0xD800) * 0x400 + (units[1] - 0xDC00)) as char]
            + utf16_lossy(units.skip(2))
    } else if is_high_surrogate(units[0]) || is_low_surrogate(units[0]) {
        seq!['\u{FFFD}'] + utf16_lossy(units.skip(1))
    } else {
        seq![units[0] as char] + utf16_lossy(units.skip(1))
    }
}

/// `String::from_utf16_lossy`: decodes UTF-16, replacing each unpaired
/// surrogate with U+FFFD, as its documentation says (with the example of a
/// pair, a lone trailing and a lone leading surrogate); the contract states
/// that decoding as `utf16_lossy`.
#[verifier::external_body]
fn from_utf16_lossy(units: &[u16]) -> (s: String)
    ensures
        s@ == utf16_lossy(units@),
{
    String::from_utf16_lossy(units)
}

/// The font's Windows family name (name id 16, else 1), decoded from
/// UTF-16 with invalid data replaced.
pub fn family_name(d: &[u8]) -> (r: Result<String, FontNameError>)
    ensures
        match r {
            Ok(s) => family_units(d@) matches Ok(units) && s@ == utf16_lossy(units),
            Err(e) => family_units(d@) == Err::<Seq<u16>, FontNameError>(e),
        },
{
    match family_name_units(d) {
        Err(e) => Err(e),
        Ok(units) => Ok(from_utf16_lossy(units.as_slice())),
    }
}

/// The position of name record `j` of the `name` table at `name`.
pub open spec fn record_at(name: int, j: int) -> int {
    name + 6 + 12 * j
}

/// Whether name record `j` can be read up to its name id and is a Windows
/// (platform 3) record with name id `want`.
pub open spec fn is_windows_record(d: Seq<u8>, name: int, j: int, want: int) -> bool {
    &&& fits(d, record_at(name, j), 2)
    &&& be16(d, record_at(name, j)) == 3
    &&& fits(d, record_at(name, j) + 6, 2)
    &&& be16(d, record_at(name, j) + 6) == want
}

/// The string (offset, byte length) that name record `j` points at.
pub open spec fn record_string(d: Seq<u8>, name: int, strings: int, j: int) -> (int, int) {
    (strings + be16(d, record_at(name, j) + 10), be16(d, record_at(name, j) + 8))
}

/// The record search from `i` finds the first matching record at or after
/// `i`, in table order, and reports none only when no record from `i` on
/// matches.
proof fn lemma_record_search(
    d: Seq<u8>,
    name: int,
    count: nat,
    strings: int,
    want: int,
    i: nat,
)
    ensures
        record_from(d, name, count, strings, want, i) matches Ok(Some(found)) ==> exists|j: int|
            i <= j < count && #[trigger] is_windows_record(d, name, j, want) && found == record_string(
                d,
                name,
                strings,
                j,
            ) && forall|k: int| i <= k < j ==> !is_windows_record(d, name, k, want),
        record_from(d, name, count, strings, want, i) == Ok::<Option<(int, int)>, FontNameError>(None)
            ==> forall|k: int|
            i <= k < count ==> !is_windows_record(d, name, k, want),
    decreases count - i,
{
    if i < count {
        lemma_record_search(d, name, count, strings, want, i + 1);
        let rec = name + 6 + 12 * (i as int);
        assert(record_at(name, i as int) == rec);
        if fits(d, rec, 2) && be16(d, rec) == 3 && fits(d, rec + 6, 2) && be16(d, rec + 6) == want {
            assert(is_windows_record(d, name, i as int, want));
        }
        match record_from(d, name, count, strings, want, i) {
            Ok(Some(found)) => {
                if is_windows_record(d, name, i as int, want) {
                    assert(found == record_string(d, name, strings, i as int));
                } else {
                    let j = choose|j: int|
                        i + 1 <= j < count && #[trigger] is_windows_record(d, name, j, want) && found
                            == record_string(d, name, strings, j) && forall|k: int|
                            i + 1 <= k < j ==> !is_windows_record(d, name, k, want);
                    assert(forall|k: int| i <= k < j ==> !is_windows_record(d, name, k, want));
                }
            },
            _ => {},
        }
    }
}

/// The family name comes from the first record in table order that fits:
/// the first Windows record with name id 16, or, when no record has that
/// id, the first Windows record with name id 1. Its text is the record's
/// string as UTF-16BE units.
pub proof fn lemma_family_name_is_first_matching_record(d: Seq<u8>)
    requires
        family_units(d) is Ok,
    ensures
        table_offset(d, name_tag()) matches Ok(Some(at)) && ({
            let name = at as int;
            let count = be16(d, name + 2);
            let strings = name + be16(d, name + 4);
            exists|j: int, want: int|
                0 <= j < count && (want == 16 || want == 1) && #[trigger] is_windows_record(
                    d,
                    name,
                    j,
                    want,
                ) && (forall|k: int| 0 <= k < j ==> !is_windows_record(d, name, k, want)) && (want
                    == 1 ==> forall|k: int| 0 <= k < count ==> !is_windows_record(d, name, k, 16))
                    && family_units(d) == Ok::<Seq<u16>, FontNameError>(
                    utf16_units(d, record_string(d, name, strings, j).0, record_string(d, name, strings, j).1),
                )
        }),
{
    let at = table_offset(d, name_tag())->Ok_0->Some_0;
    let name = at as int;
    let count = be16(d, name + 2) as nat;
    let strings = name + be16(d, name + 4);
    lemma_record_search(d, name, count, strings, 16, 0);
    lemma_record_search(d, name, count, strings, 1, 0);
    match record_from(d, name, count, strings, 16, 0) {
        Ok(Some(found)) => {
            let j = choose|j: int|
                0 <= j < count && #[trigger] is_windows_record(d, name, j, 16) && found == record_string(
                    d,
                    name,
                    strings,
                    j,
                ) && forall|k: int| 0 <= k < j ==> !is_windows_record(d, name, k, 16);
            assert(is_windows_record(d, name, j, 16));
        },
        _ => {
            let found = record_from(d, name, count, strings, 1, 0)->Ok_0->Some_0;
            let j = choose|j: int|
                0 <= j < count && #[trigger] is_windows_record(d, name, j, 1) && found == record_string(
                    d,
                    name,
                    strings,
                    j,
                ) && forall|k: int| 0 <= k < j ==> !is_windows_record(d, name, k, 1);
            assert(is_windows_record(d, name, j, 1));
        },
    }
}

/// Whether directory record `j` can be read up to its tag and carries `tag`.
pub open spec fn is_table_record(d: Seq<u8>, tag: Seq<u8>, j: int) -> bool {
    fits(d, 12 + 16 * j, 4) && d.subrange(12 + 16 * j, 12 + 16 * j + 4) == tag
}

proof fn lemma_table_search(d: Seq<u8>, tag: Seq<u8>, n: nat, i: nat)
    ensures
        table_from(d, tag, n, i) matches Ok(Some(at)) ==> exists|j: int|
            i <= j < n && #[trigger] is_table_record(d, tag, j) && fits(d, 12 + 16 * j + 8, 4) && at
                == be32(d, 12 + 16 * j + 8) && forall|k: int| i <= k < j ==> !is_table_record(d, tag, k),
        table_from(d, tag, n, i) == Ok::<Option<nat>, FontNameError>(None) ==> forall|k: int|
            i <= k < n ==> !is_table_record(d, tag, k),
    decreases n - i,
{
    if i < n {
        lemma_table_search(d, tag, n, i + 1);
        match table_from(d, tag, n, i) {
            Ok(Some(at)) => {
                if !is_table_record(d, tag, i as int) {
                    let j = choose|j: int|
                        i + 1 <= j < n && #[trigger] is_table_record(d, tag, j) && fits(d, 12 + 16 * j + 8, 4)
                            && at == be32(d, 12 + 16 * j + 8) && forall|k: int|
                            i + 1 <= k < j ==> !is_table_record(d, tag, k);
                    assert(forall|k: int| i <= k < j ==> !is_table_record(d, tag, k));
                }
            },
            _ => {},
        }
    }
}

/// A table is found at the offset that the first directory record carrying
/// its tag gives, in directory order; it is reported missing only when no
/// record of the directory carries the tag.
pub proof fn lemma_table_is_first_matching_record(d: Seq<u8>, tag: Seq<u8>)
    requires
        fits(d, 4, 2),
    ensures
        table_offset(d, tag) matches Ok(Some(at)) ==> exists|j: int|
            0 <= j < be16(d, 4) && #[trigger] is_table_record(d, tag, j) && at == be32(d, 12 + 16 * j + 8)
                && forall|k: int| 0 <= k < j ==> !is_table_record(d, tag, k),
        table_offset(d, tag) == Ok::<Option<nat>, FontNameError>(None) ==> forall|k: int|
            0 <= k < be16(d, 4) ==> !is_table_record(d, tag, k),
{
    lemma_table_search(d, tag, be16(d, 4) as nat, 0);
}

} // verus!
