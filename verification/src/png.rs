//! Colour-space tagging of rendered PNG files.
//!
//! The renderer emits valid pixel data but no colour-space chunk. The
//! figures are authored in 8-bit sRGB, so right after the IHDR chunk this
//! module inserts an sRGB chunk (relative colorimetric intent) followed by the
//! gAMA and cHRM fallbacks the PNG specification recommends for sRGB. A file
//! that already declares sRGB is left as it is; one that declares another
//! profile (cICP or iCCP) is refused.

use vstd::prelude::*;

verus! {

/// The eight bytes every PNG file starts with.
pub open spec fn png_signature() -> Seq<u8> {
    seq![0x89u8, 0x50u8, 0x4eu8, 0x47u8, 0x0du8, 0x0au8, 0x1au8, 0x0au8]
}

/// Chunk type `IHDR`.
pub open spec fn ihdr_name() -> Seq<u8> {
    seq![0x49u8, 0x48u8, 0x44u8, 0x52u8]
}

/// Chunk type `sRGB`.
pub open spec fn srgb_name() -> Seq<u8> {
    seq![0x73u8, 0x52u8, 0x47u8, 0x42u8]
}

/// Chunk type `gAMA`.
pub open spec fn gama_name() -> Seq<u8> {
    seq![0x67u8, 0x41u8, 0x4du8, 0x41u8]
}

/// Chunk type `cHRM`.
pub open spec fn chrm_name() -> Seq<u8> {
    seq![0x63u8, 0x48u8, 0x52u8, 0x4du8]
}

/// Chunk type `cICP`.
pub open spec fn cicp_name() -> Seq<u8> {
    seq![0x63u8, 0x49u8, 0x43u8, 0x50u8]
}

/// Chunk type `iCCP`.
pub open spec fn iccp_name() -> Seq<u8> {
    seq![0x69u8, 0x43u8, 0x43u8, 0x50u8]
}

/// The big-endian unsigned 32-bit integer at `o`.
pub open spec fn be_u32_at(b: Seq<u8>, o: int) -> int {
    b[o] * 16777216 + b[o + 1] * 65536 + b[o + 2] * 256 + b[o + 3]
}

/// The four big-endian bytes of `x`.
pub open spec fn be_bytes(x: u32) -> Seq<u8> {
    seq![
        (x / 16777216) as u8,
        ((x / 65536) % 256) as u8,
        ((x / 256) % 256) as u8,
        (x % 256) as u8,
    ]
}

/// Where a chunk walk ends.
pub enum ChunkFind {
    /// The chunk spans `start..end`, header and CRC included.
    Found(int, int),
    /// No chunk of that type before the end of the data.
    Missing,
    /// A chunk's declared length runs past the end of the data.
    Truncated,
}

/// Walk the chunks from offset `o`: each is a big-endian length, a four-byte
/// type, the data and a four-byte CRC. The walk stops at the first chunk of
/// type `name`, at a chunk that runs past the end, or when fewer than twelve
/// bytes remain.
pub open spec fn chunk_search(b: Seq<u8>, o: int, name: Seq<u8>) -> ChunkFind
    decreases b.len() - o,
{
    if o < 0 || o + 12 > b.len() {
        ChunkFind::Missing
    } else {
        let end = o + 12 + be_u32_at(b, o);
        if end > b.len() {
            ChunkFind::Truncated
        } else if b.subrange(o + 4, o + 8) == name {
            ChunkFind::Found(o, end)
        } else {
            chunk_search(b, end, name)
        }
    }
}

/// One step of the bitwise CRC-32 register: shift right by one, folding in
/// the reflected IEEE polynomial 0xEDB88320 when a one bit falls out.
pub open spec fn crc_shift(c: u32) -> u32 {
    if c & 1 == 1 {
        (c >> 1u32) ^ 0xEDB8_8320u32
    } else {
        c >> 1u32
    }
}

/// `n` shift steps of the register.
pub open spec fn crc_shifts(c: u32, n: nat) -> u32
    decreases n,
{
    if n == 0 {
        c
    } else {
        crc_shifts(crc_shift(c), (n - 1) as nat)
    }
}

/// The register after `bytes`: it starts with all bits set, and each byte is
/// xored into its low bits and followed by eight shift steps.
pub open spec fn crc_register(bytes: Seq<u8>) -> u32
    decreases bytes.len(),
{
    if bytes.len() == 0 {
        0xFFFF_FFFFu32
    } else {
        crc_shifts(crc_register(bytes.drop_last()) ^ (bytes.last() as u32), 8)
    }
}

/// The CRC-32 (IEEE 802.3, the checksum of PNG and zlib) of `bytes`: the
/// register after all of them, with every bit inverted.
#[verifier::opaque]
pub open spec fn crc32_ieee(bytes: Seq<u8>) -> u32 {
    crc_register(bytes) ^ 0xFFFF_FFFFu32
}

/// `crc32fast::hash`: the CRC-32 (IEEE) checksum of `buf`, which is what the
/// crate's documentation says it computes; the contract states that checksum
/// by its bitwise definition.
#[verifier::external_body]
fn crc32(buf: &[u8]) -> (c: u32)
    ensures
        c == crc32_ieee(buf@),
{
    crc32fast::hash(buf)
}

/// A complete chunk: length, type, data, and the CRC of type and data.
#[verifier::opaque]
pub open spec fn chunk_bytes(name: Seq<u8>, data: Seq<u8>) -> Seq<u8> {
    be_bytes(data.len() as u32) + name + data + be_bytes(crc32_ieee(name + data))
}

/// The sRGB fallback chromaticities: white point, red, green, blue, each as
/// x and y times 100000.
#[verifier::opaque]
pub open spec fn chrm_data() -> Seq<u8> {
    be_bytes(31270) + be_bytes(32900) + be_bytes(64000) + be_bytes(33000) + be_bytes(30000)
        + be_bytes(60000) + be_bytes(15000) + be_bytes(6000)
}

/// The three chunks inserted after IHDR: sRGB with relative colorimetric
/// intent, gAMA 1/2.2 (45455) and cHRM.
#[verifier::opaque]
pub open spec fn srgb_chunks() -> Seq<u8> {
    chunk_bytes(srgb_name(), seq![1u8]) + chunk_bytes(gama_name(), be_bytes(45455)) + chunk_bytes(
        chrm_name(),
        chrm_data(),
    )
}

/// Why a PNG could not be tagged.
#[derive(Debug, Clone, Copy, PartialEq, Eq)]
pub enum PngTagError {
    /// The data does not start with the PNG signature.
    NotPng,
    /// The file already declares a non-sRGB colour profile.
    ForeignProfile,
    /// The file has no IHDR chunk.
    MissingHeader,
    /// A chunk runs past the end of the data.
    TruncatedChunk,
}

/// What tagging `b` gives: an error, `None` when the file already declares
/// sRGB, or the tagged bytes.
pub open spec fn srgb_tagging(b: Seq<u8>) -> Result<Option<Seq<u8>>, PngTagError> {
    if b.len() < 8 || b.subrange(0, 8) != png_signature() {
        Err(PngTagError::NotPng)
    } else {
        match chunk_search(b, 8, cicp_name()) {
            ChunkFind::Truncated => Err(PngTagError::TruncatedChunk),
            ChunkFind::Found(_, _) => Err(PngTagError::ForeignProfile),
            ChunkFind::Missing => match chunk_search(b, 8, iccp_name()) {
                ChunkFind::Truncated => Err(PngTagError::TruncatedChunk),
                ChunkFind::Found(_, _) => Err(PngTagError::ForeignProfile),
                ChunkFind::Missing => match chunk_search(b, 8, srgb_name()) {
                    ChunkFind::Truncated => Err(PngTagError::TruncatedChunk),
                    ChunkFind::Found(_, _) => Ok(None),
                    ChunkFind::Missing => match chunk_search(b, 8, ihdr_name()) {
                        ChunkFind::Truncated => Err(PngTagError::TruncatedChunk),
                        ChunkFind::Missing => Err(PngTagError::MissingHeader),
                        ChunkFind::Found(_, end) => Ok(
                            Some(b.subrange(0, end) + srgb_chunks() + b.subrange(end, b.len() as int)),
                        ),
                    },
                },
            },
        }
    }
}

/// The result of an exec chunk walk.
enum ChunkSpan {
    Found(usize, usize),
    Missing,
    Truncated,
}

fn find_chunk(bytes: &[u8], name: [u8; 4]) -> (r: ChunkSpan)
    ensures
        match r {
            ChunkSpan::Found(s, e) => chunk_search(bytes@, 8, name@) == ChunkFind::Found(
                s as int,
                e as int,
            ),
            ChunkSpan::Missing => chunk_search(bytes@, 8, name@) == ChunkFind::Missing,
            ChunkSpan::Truncated => chunk_search(bytes@, 8, name@) == ChunkFind::Truncated,
        },
        r matches ChunkSpan::Found(s, e) ==> 8 <= s && s + 12 <= e <= bytes@.len(),
{
    let n = bytes.len();
    let mut offset: usize = 8;
    while offset <= n && n - offset >= 12
        invariant
            n == bytes@.len(),
            chunk_search(bytes@, 8, name@) == chunk_search(bytes@, offset as int, name@),
            offset >= 8,
        decreases n - offset,
    {
        let length: u64 = (bytes[offset] as u64) * 16777216 + (bytes[offset + 1] as u64) * 65536
            + (bytes[offset + 2] as u64) * 256 + (bytes[offset + 3] as u64);
        assert(length == be_u32_at(bytes@, offset as int));
        if length > (n - offset - 12) as u64 {
            return ChunkSpan::Truncated;
        }
        let end = offset + 12 + length as usize;
        if bytes[offset + 4] == name[0] && bytes[offset + 5] == name[1] && bytes[offset + 6]
            == name[2] && bytes[offset + 7] == name[3] {
            assert(bytes@.subrange(offset + 4, offset + 8) =~= name@);
            return ChunkSpan::Found(offset, end);
        }
        assert(bytes@.subrange(offset + 4, offset + 8) != name@) by {
            if bytes[offset + 4] != name[0] {
                assert(bytes@.subrange(offset + 4, offset + 8)[0] != name@[0]);
            } else if bytes[offset + 5] != name[1] {
                assert(bytes@.subrange(offset + 4, offset + 8)[1] != name@[1]);
            } else if bytes[offset + 6] != name[2] {
                assert(bytes@.subrange(offset + 4, offset + 8)[2] != name@[2]);
            } else {
                assert(bytes@.subrange(offset + 4, offset + 8)[3] != name@[3]);
            }
        }
        offset = end;
    }
    ChunkSpan::Missing
}

fn push_be(out: &mut Vec<u8>, x: u32)
    ensures
        final(out)@ == old(out)@ + be_bytes(x),
{
    out.push((x / 16777216) as u8);
    out.push(((x / 65536) % 256) as u8);
    out.push(((x / 256) % 256) as u8);
    out.push((x % 256) as u8);
    assert(out@ =~= old(out)@ + be_bytes(x));
}

fn push_all(out: &mut Vec<u8>, bytes: &[u8], from: usize, to: usize)
    requires
        from <= to <= bytes@.len(),
    ensures
        final(out)@ == old(out)@ + bytes@.subrange(from as int, to as int),
{
    let mut i = from;
    while i < to
        invariant
            from <= i <= to <= bytes@.len(),
            out@ == old(out)@ + bytes@.subrange(from as int, i as int),
        decreases to - i,
    {
        out.push(bytes[i]);
        assert(out@ =~= old(out)@ + bytes@.subrange(from as int, i + 1));
        i = i + 1;
    }
}

fn push_chunk(out: &mut Vec<u8>, name: [u8; 4], data: &[u8])
    requires
        data@.len() <= u32::MAX,
    ensures
        final(out)@ == old(out)@ + chunk_bytes(name@, data@),
{
    push_be(out, data.len() as u32);
    let mut named: Vec<u8> = Vec::new();
    push_all(&mut named, name.as_slice(), 0, 4);
    push_all(&mut named, data, 0, data.len());
    assert(named@ =~= name@ + data@);
    push_all(out, name.as_slice(), 0, 4);
    push_all(out, data, 0, data.len());
    let crc = crc32(named.as_slice());
    push_be(out, crc);
    assert(name@.subrange(0, 4) =~= name@);
    assert(data@.subrange(0, data@.len() as int) =~= data@);
    proof {
        reveal(chunk_bytes);
    }
    assert(out@ =~= old(out)@ + chunk_bytes(name@, data@));
}

/// Tag a PNG as sRGB: `Ok(None)` when it already declares sRGB, the tagged
/// bytes otherwise (see `srgb_tagging`).
pub fn tag_png_as_srgb(bytes: &[u8]) -> (r: Result<Option<Vec<u8>>, PngTagError>)
    ensures
        match r {
            Ok(Some(tagged)) => srgb_tagging(bytes@) == Ok::<Option<Seq<u8>>, PngTagError>(
                Some(tagged@),
            ),
            Ok(None) => srgb_tagging(bytes@) == Ok::<Option<Seq<u8>>, PngTagError>(None),
            Err(e) => srgb_tagging(bytes@) == Err::<Option<Seq<u8>>, PngTagError>(e),
        },
{
    let n = bytes.len();
    if n < 8 || bytes[0] != 0x89 || bytes[1] != 0x50 || bytes[2] != 0x4e || bytes[3] != 0x47
        || bytes[4] != 0x0d || bytes[5] != 0x0a || bytes[6] != 0x1a || bytes[7] != 0x0a {
        assert(n < 8 || bytes@.subrange(0, 8) != png_signature()) by {
            if n >= 8 {
                let s = bytes@.subrange(0, 8);
                if bytes[0] != 0x89 {
                    assert(s[0] != png_signature()[0]);
                } else if bytes[1] != 0x50 {
                    assert(s[1] != png_signature()[1]);
                } else if bytes[2] != 0x4e {
                    assert(s[2] != png_signature()[2]);
                } else if bytes[3] != 0x47 {
                    assert(s[3] != png_signature()[3]);
                } else if bytes[4] != 0x0d {
                    assert(s[4] != png_signature()[4]);
                } else if bytes[5] != 0x0a {
                    assert(s[5] != png_signature()[5]);
                } else if bytes[6] != 0x1a {
                    assert(s[6] != png_signature()[6]);
                } else {
                    assert(s[7] != png_signature()[7]);
                }
            }
        }
        return Err(PngTagError::NotPng);
    }
    assert(bytes@.subrange(0, 8) =~= png_signature());
    let cicp: [u8; 4] = [0x63, 0x49, 0x43, 0x50];
    let iccp: [u8; 4] = [0x69, 0x43, 0x43, 0x50];
    let srgb: [u8; 4] = [0x73, 0x52, 0x47, 0x42];
    let ihdr: [u8; 4] = [0x49, 0x48, 0x44, 0x52];
    let gama: [u8; 4] = [0x67, 0x41, 0x4d, 0x41];
    let chrm: [u8; 4] = [0x63, 0x48, 0x52, 0x4d];
    assert(cicp@ =~= cicp_name());
    assert(iccp@ =~= iccp_name());
    assert(srgb@ =~= srgb_name());
    assert(ihdr@ =~= ihdr_name());
    assert(gama@ =~= gama_name());
    assert(chrm@ =~= chrm_name());
    match find_chunk(bytes, cicp) {
        ChunkSpan::Truncated => {
            return Err(PngTagError::TruncatedChunk);
        },
        ChunkSpan::Found(_, _) => {
            return Err(PngTagError::ForeignProfile);
        },
        ChunkSpan::Missing => {},
    }
    match find_chunk(bytes, iccp) {
        ChunkSpan::Truncated => {
            return Err(PngTagError::TruncatedChunk);
        },
        ChunkSpan::Found(_, _) => {
            return Err(PngTagError::ForeignProfile);
        },
        ChunkSpan::Missing => {},
    }
    match find_chunk(bytes, srgb) {
        ChunkSpan::Truncated => {
            return Err(PngTagError::TruncatedChunk);
        },
        ChunkSpan::Found(_, _) => {
            return Ok(None);
        },
        ChunkSpan::Missing => {},
    }
    let ihdr_end = match find_chunk(bytes, ihdr) {
        ChunkSpan::Truncated => {
            return Err(PngTagError::TruncatedChunk);
        },
        ChunkSpan::Missing => {
            return Err(PngTagError::MissingHeader);
        },
        ChunkSpan::Found(_, end) => end,
    };
    let mut tagged: Vec<u8> = Vec::new();
    push_all(&mut tagged, bytes, 0, ihdr_end);
    let relative: [u8; 1] = [1];
    push_chunk(&mut tagged, srgb, relative.as_slice());
    assert(relative@ =~= seq![1u8]);
    let mut gamma: Vec<u8> = Vec::new();
    push_be(&mut gamma, 45455);
    assert(gamma@ =~= be_bytes(45455));
    push_chunk(&mut tagged, gama, gamma.as_slice());
    let mut chromaticities: Vec<u8> = Vec::new();
    push_be(&mut chromaticities, 31270);
    push_be(&mut chromaticities, 32900);
    push_be(&mut chromaticities, 64000);
    push_be(&mut chromaticities, 33000);
    push_be(&mut chromaticities, 30000);
    push_be(&mut chromaticities, 60000);
    push_be(&mut chromaticities, 15000);
    push_be(&mut chromaticities, 6000);
    proof {
        reveal(chrm_data);
    }
    assert(chromaticities@ =~= chrm_data());
    push_chunk(&mut tagged, chrm, chromaticities.as_slice());
    push_all(&mut tagged, bytes, ihdr_end, n);
    proof {
        reveal(srgb_chunks);
    }
    assert(tagged@ =~= bytes@.subrange(0, ihdr_end as int) + srgb_chunks() + bytes@.subrange(
        ihdr_end as int,
        n as int,
    ));
    Ok(Some(tagged))
}

proof fn lemma_found_bounds(b: Seq<u8>, o: int, name: Seq<u8>)
    requires
        chunk_search(b, o, name) is Found,
    ensures
        o <= chunk_search(b, o, name)->Found_0,
        chunk_search(b, o, name)->Found_0 + 12 <= chunk_search(b, o, name)->Found_1 <= b.len(),
    decreases b.len() - o,
{
    let end = o + 12 + be_u32_at(b, o);
    if b.subrange(o + 4, o + 8) != name {
        lemma_found_bounds(b, end, name);
    }
}

/// A walk over data that agrees with `b` from `e` on, moved `d` bytes later,
/// ends where the walk over `b` ends, moved by `d`.
proof fn lemma_search_shift(b: Seq<u8>, t: Seq<u8>, o: int, d: int, e: int, name: Seq<u8>)
    requires
        0 <= d,
        0 <= e <= o,
        t.len() == b.len() + d,
        forall|i: int| e <= i < b.len() ==> t[i + d] == b[i],
    ensures
        chunk_search(t, o + d, name) == match chunk_search(b, o, name) {
            ChunkFind::Found(s, f) => ChunkFind::Found(s + d, f + d),
            other => other,
        },
    decreases b.len() - o,
{
    if o + 12 <= b.len() {
        assert(be_u32_at(t, o + d) == be_u32_at(b, o)) by {
            assert(t[o + d] == b[o]);
            assert(t[o + 1 + d] == b[o + 1]);
            assert(t[o + 2 + d] == b[o + 2]);
            assert(t[o + 3 + d] == b[o + 3]);
        }
        let end = o + 12 + be_u32_at(b, o);
        assert(t.subrange(o + d + 4, o + d + 8) =~= b.subrange(o + 4, o + 8)) by {
            assert forall|i: int| 0 <= i < 4 implies #[trigger] t.subrange(o + d + 4, o + d + 8)[i]
                == b.subrange(o + 4, o + 8)[i] by {
                assert(t[o + 4 + i + d] == b[o + 4 + i]);
            }
        }
        if end <= b.len() && b.subrange(o + 4, o + 8) != name {
            lemma_search_shift(b, t, end, d, e, name);
            assert(end + d == o + d + 12 + be_u32_at(t, o + d));
        }
    }
}

/// A walk over data that agrees with `b` below `e`, where the walk over `b`
/// from `o` finds a chunk of another type ending at `e`, either finds the
/// same chunk of type `n` before `e` or goes on from `e` in both.
proof fn lemma_search_prefix(b: Seq<u8>, t: Seq<u8>, o: int, m: Seq<u8>, n: Seq<u8>, e: int)
    requires
        0 <= o,
        chunk_search(b, o, m) is Found,
        chunk_search(b, o, m)->Found_1 == e,
        m != n,
        e <= t.len(),
        forall|i: int| 0 <= i < e ==> t[i] == b[i],
    ensures
        (chunk_search(b, o, n) == chunk_search(b, e, n) && chunk_search(t, o, n) == chunk_search(
            t,
            e,
            n,
        )) || (chunk_search(b, o, n) is Found && chunk_search(t, o, n) == chunk_search(b, o, n)),
    decreases b.len() - o,
{
    let end = o + 12 + be_u32_at(b, o);
    lemma_found_bounds(b, o, m);
    if b.subrange(o + 4, o + 8) != m {
        lemma_found_bounds(b, end, m);
    }
    assert(end <= e);
    assert(be_u32_at(t, o) == be_u32_at(b, o));
    assert(t.subrange(o + 4, o + 8) =~= b.subrange(o + 4, o + 8));
    if b.subrange(o + 4, o + 8) == m {
    } else if b.subrange(o + 4, o + 8) == n {
    } else {
        lemma_search_prefix(b, t, end, m, n, e);
    }
}

proof fn lemma_window(t: Seq<u8>, o: int, w: Seq<u8>)
    requires
        0 <= o,
        w.len() >= 8,
        o + w.len() <= t.len(),
        t.subrange(o, o + w.len()) == w,
    ensures
        be_u32_at(t, o) == be_u32_at(w, 0),
        t.subrange(o + 4, o + 8) == w.subrange(4, 8),
{
    let v = t.subrange(o, o + w.len());
    assert(t[o] == v[0]);
    assert(t[o + 1] == v[1]);
    assert(t[o + 2] == v[2]);
    assert(t[o + 3] == v[3]);
    assert forall|i: int| 0 <= i < 4 implies #[trigger] t.subrange(o + 4, o + 8)[i] == w.subrange(
        4,
        8,
    )[i] by {
        assert(t[o + 4 + i] == v[4 + i]);
    }
    assert(t.subrange(o + 4, o + 8) =~= w.subrange(4, 8));
}

proof fn lemma_chunk_header(name: Seq<u8>, data: Seq<u8>, len: u32)
    requires
        name.len() == 4,
        data.len() == len,
    ensures
        chunk_bytes(name, data).len() == 12 + len,
        be_u32_at(chunk_bytes(name, data), 0) == len,
        chunk_bytes(name, data).subrange(4, 8) == name,
{
    reveal(chunk_bytes);
    let c = chunk_bytes(name, data);
    assert(c[0] == be_bytes(len)[0]);
    assert(c[1] == be_bytes(len)[1]);
    assert(c[2] == be_bytes(len)[2]);
    assert(c[3] == be_bytes(len)[3]);
    assert(c.subrange(4, 8) =~= name);
}

proof fn lemma_step_chunk(t: Seq<u8>, o: int, c: Seq<u8>, len: int, name: Seq<u8>)
    requires
        0 <= o,
        c.len() == 12 + len,
        0 <= len,
        be_u32_at(c, 0) == len,
        o + c.len() <= t.len(),
        t.subrange(o, o + c.len()) == c,
    ensures
        c.subrange(4, 8) == name ==> chunk_search(t, o, name) == ChunkFind::Found(o, o + 12 + len),
        c.subrange(4, 8) != name ==> chunk_search(t, o, name) == chunk_search(t, o + 12 + len, name),
{
    lemma_window(t, o, c);
}

proof fn lemma_split_inserted(t: Seq<u8>, e: int, c1: Seq<u8>, c2: Seq<u8>, c3: Seq<u8>)
    requires
        0 <= e,
        c1.len() == 13,
        c2.len() == 16,
        c3.len() == 44,
        e + 73 <= t.len(),
        t.subrange(e, e + 73) == c1 + c2 + c3,
    ensures
        t.subrange(e, e + 13) == c1,
        t.subrange(e + 13, e + 29) == c2,
        t.subrange(e + 29, e + 73) == c3,
{
    let w = t.subrange(e, e + 73);
    assert(t.subrange(e, e + 13) =~= c1) by {
        assert forall|i: int| 0 <= i < 13 implies #[trigger] t.subrange(e, e + 13)[i] == c1[i] by {
            assert(w[i] == t[e + i]);
        }
    }
    assert(t.subrange(e + 13, e + 29) =~= c2) by {
        assert forall|i: int| 0 <= i < 16 implies #[trigger] t.subrange(e + 13, e + 29)[i] == c2[i] by {
            assert(w[13 + i] == t[e + 13 + i]);
        }
    }
    assert(t.subrange(e + 29, e + 73) =~= c3) by {
        assert forall|i: int| 0 <= i < 44 implies #[trigger] t.subrange(e + 29, e + 73)[i] == c3[i] by {
            assert(w[29 + i] == t[e + 29 + i]);
        }
    }
}

/// Three consecutive chunks of 1, 4 and 32 data bytes: a walk that reaches
/// them finds the first when it looks for its type, and steps over all three
/// for a type none of them has.
proof fn lemma_walk_three(t: Seq<u8>, e: int, c1: Seq<u8>, c2: Seq<u8>, c3: Seq<u8>, name: Seq<u8>)
    requires
        0 <= e,
        c1.len() == 13,
        c2.len() == 16,
        c3.len() == 44,
        be_u32_at(c1, 0) == 1,
        be_u32_at(c2, 0) == 4,
        be_u32_at(c3, 0) == 32,
        e + 73 <= t.len(),
        t.subrange(e, e + 73) == c1 + c2 + c3,
    ensures
        name == c1.subrange(4, 8) ==> chunk_search(t, e, name) == ChunkFind::Found(e, e + 13),
        name != c1.subrange(4, 8) && name != c2.subrange(4, 8) && name != c3.subrange(4, 8)
            ==> chunk_search(t, e, name) == chunk_search(t, e + 73, name),
{
    lemma_split_inserted(t, e, c1, c2, c3);
    lemma_step_chunk(t, e, c1, 1, name);
    lemma_step_chunk(t, e + 13, c2, 4, name);
    lemma_step_chunk(t, e + 29, c3, 32, name);
}

proof fn lemma_srgb_chunks_split()
    ensures
        srgb_chunks() == chunk_bytes(srgb_name(), seq![1u8]) + chunk_bytes(
            gama_name(),
            be_bytes(45455),
        ) + chunk_bytes(chrm_name(), chrm_data()),
        chunk_bytes(srgb_name(), seq![1u8]).len() == 13,
        chunk_bytes(gama_name(), be_bytes(45455)).len() == 16,
        chunk_bytes(chrm_name(), chrm_data()).len() == 44,
        be_u32_at(chunk_bytes(srgb_name(), seq![1u8]), 0) == 1,
        be_u32_at(chunk_bytes(gama_name(), be_bytes(45455)), 0) == 4,
        be_u32_at(chunk_bytes(chrm_name(), chrm_data()), 0) == 32,
        chunk_bytes(srgb_name(), seq![1u8]).subrange(4, 8) == srgb_name(),
        chunk_bytes(gama_name(), be_bytes(45455)).subrange(4, 8) == gama_name(),
        chunk_bytes(chrm_name(), chrm_data()).subrange(4, 8) == chrm_name(),
{
    reveal(srgb_chunks);
    lemma_chunk_header(srgb_name(), seq![1u8], 1);
    assert(be_bytes(45455).len() == 4);
    lemma_chunk_header(gama_name(), be_bytes(45455), 4);
    assert(chrm_data().len() == 32) by {
        reveal(chrm_data);
    }
    lemma_chunk_header(chrm_name(), chrm_data(), 32);
}

/// The inserted chunks: a walk that reaches them finds the sRGB chunk
/// first, and steps over all three for any other type.
proof fn lemma_search_inserted(t: Seq<u8>, e: int, name: Seq<u8>)
    requires
        0 <= e,
        e + srgb_chunks().len() <= t.len(),
        t.subrange(e, e + srgb_chunks().len()) == srgb_chunks(),
    ensures
        srgb_chunks().len() == 73,
        name == srgb_name() ==> chunk_search(t, e, name) == ChunkFind::Found(e, e + 13),
        name != srgb_name() && name != gama_name() && name != chrm_name() ==> chunk_search(
            t,
            e,
            name,
        ) == chunk_search(t, e + 73, name),
{
    let c1 = chunk_bytes(srgb_name(), seq![1u8]);
    let c2 = chunk_bytes(gama_name(), be_bytes(45455));
    let c3 = chunk_bytes(chrm_name(), chrm_data());
    lemma_srgb_chunks_split();
    lemma_walk_three(t, e, c1, c2, c3, name);
}

/// Tagging is idempotent: a tagged file already declares sRGB, so tagging
/// it again leaves it as it is.
pub proof fn lemma_tagging_idempotent(b: Seq<u8>, t: Seq<u8>)
    requires
        srgb_tagging(b) == Ok::<Option<Seq<u8>>, PngTagError>(Some(t)),
    ensures
        srgb_tagging(t) == Ok::<Option<Seq<u8>>, PngTagError>(None),
{
    let e = chunk_search(b, 8, ihdr_name())->Found_1;
    lemma_found_bounds(b, 8, ihdr_name());
    let x = srgb_chunks();
    let d = x.len() as int;
    assert(t == b.subrange(0, e) + x + b.subrange(e, b.len() as int));
    assert(t.subrange(e, e + d) =~= x);
    assert(forall|i: int| 0 <= i < e ==> t[i] == b[i]);
    assert(forall|i: int| e <= i < b.len() ==> t[i + d] == b[i]);
    assert(t.subrange(0, 8) =~= b.subrange(0, 8));
    lemma_search_inserted(t, e, srgb_name());
    lemma_search_inserted(t, e, cicp_name());
    lemma_search_inserted(t, e, iccp_name());
    assert(srgb_name() != ihdr_name());
    assert(cicp_name() != ihdr_name());
    assert(iccp_name() != ihdr_name());
    assert(cicp_name() != srgb_name() && cicp_name() != gama_name() && cicp_name() != chrm_name());
    assert(iccp_name() != srgb_name() && iccp_name() != gama_name() && iccp_name() != chrm_name());
    lemma_search_prefix(b, t, 8, ihdr_name(), cicp_name(), e);
    lemma_search_prefix(b, t, 8, ihdr_name(), iccp_name(), e);
    lemma_search_prefix(b, t, 8, ihdr_name(), srgb_name(), e);
    lemma_search_shift(b, t, e, d, e, cicp_name());
    lemma_search_shift(b, t, e, d, e, iccp_name());
}

} // verus!
