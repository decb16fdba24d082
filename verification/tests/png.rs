use virtua_grotesk_figures::png::{tag_png_as_srgb, PngTagError};

const SIGNATURE: [u8; 8] = [0x89, b'P', b'N', b'G', b'\r', b'\n', 0x1a, b'\n'];

fn chunk(name: &[u8; 4], data: &[u8]) -> Vec<u8> {
    let mut out = Vec::new();
    out.extend_from_slice(&(data.len() as u32).to_be_bytes());
    out.extend_from_slice(name);
    out.extend_from_slice(data);
    let mut named = name.to_vec();
    named.extend_from_slice(data);
    out.extend_from_slice(&crc32fast::hash(&named).to_be_bytes());
    out
}

fn png(extra: &[Vec<u8>]) -> Vec<u8> {
    let mut b = SIGNATURE.to_vec();
    b.extend(chunk(b"IHDR", &[0, 0, 0, 1, 0, 0, 0, 1, 8, 2, 0, 0, 0]));
    for c in extra {
        b.extend_from_slice(c);
    }
    b.extend(chunk(b"IDAT", &[0x78, 0x9c, 0x63, 0x60, 0x00, 0x00, 0x00, 0x02, 0x00, 0x01]));
    b.extend(chunk(b"IEND", &[]));
    b
}

#[test]
fn untagged_png_gets_srgb_gama_and_chrm_after_ihdr() {
    let input = png(&[]);
    let tagged = tag_png_as_srgb(&input).unwrap().unwrap();
    let ihdr_end = 8 + 12 + 13;
    let mut expected = input[..ihdr_end].to_vec();
    expected.extend(chunk(b"sRGB", &[1]));
    expected.extend(chunk(b"gAMA", &45_455u32.to_be_bytes()));
    let chrm: Vec<u8> = [31_270u32, 32_900, 64_000, 33_000, 30_000, 60_000, 15_000, 6_000]
        .into_iter()
        .flat_map(u32::to_be_bytes)
        .collect();
    expected.extend(chunk(b"cHRM", &chrm));
    expected.extend_from_slice(&input[ihdr_end..]);
    assert_eq!(tagged, expected);
    assert_eq!(tagged.len(), input.len() + 73);
}

#[test]
fn inserted_chunks_carry_correct_crcs() {
    let tagged = tag_png_as_srgb(&png(&[])).unwrap().unwrap();
    let srgb_at = 8 + 12 + 13;
    let srgb = &tagged[srgb_at..srgb_at + 13];
    assert_eq!(&srgb[4..8], b"sRGB");
    assert_eq!(u32::from_be_bytes(srgb[9..13].try_into().unwrap()), crc32fast::hash(b"sRGB\x01"));
}

#[test]
fn tagging_twice_changes_nothing() {
    let tagged = tag_png_as_srgb(&png(&[])).unwrap().unwrap();
    assert_eq!(tag_png_as_srgb(&tagged), Ok(None));
}

#[test]
fn already_srgb_is_left_alone() {
    let input = png(&[chunk(b"sRGB", &[0])]);
    assert_eq!(tag_png_as_srgb(&input), Ok(None));
}

#[test]
fn non_png_is_refused() {
    assert_eq!(tag_png_as_srgb(b"GIF89a.........."), Err(PngTagError::NotPng));
    assert_eq!(tag_png_as_srgb(&SIGNATURE[..7]), Err(PngTagError::NotPng));
}

#[test]
fn foreign_profiles_are_refused() {
    let iccp = png(&[chunk(b"iCCP", b"p\x00\x00xyz")]);
    assert_eq!(tag_png_as_srgb(&iccp), Err(PngTagError::ForeignProfile));
    let cicp = png(&[chunk(b"cICP", &[1, 13, 0, 1])]);
    assert_eq!(tag_png_as_srgb(&cicp), Err(PngTagError::ForeignProfile));
}

#[test]
fn missing_ihdr_is_refused() {
    let mut b = SIGNATURE.to_vec();
    b.extend(chunk(b"IEND", &[]));
    assert_eq!(tag_png_as_srgb(&b), Err(PngTagError::MissingHeader));
    assert_eq!(tag_png_as_srgb(&SIGNATURE), Err(PngTagError::MissingHeader));
}

#[test]
fn truncated_chunk_is_refused() {
    let mut b = png(&[]);
    b.truncate(8 + 12 + 5);
    // the IHDR header now claims 13 data bytes that are not there
    b.extend_from_slice(&[0; 7]);
    assert_eq!(tag_png_as_srgb(&b), Err(PngTagError::TruncatedChunk));
}
