//! Screenshot encoding without extra crates: base64 for the MCP image payload, PNG with stored
//! (uncompressed) deflate blocks, uncompressed TGA, and box-averaged downscaling.

use vstd::prelude::*;

use crate::text::string_of;

verus! {

// ------------------------------------------------------------------------------- base64

/// The standard base64 alphabet: `A`–`Z`, `a`–`z`, `0`–`9`, `+`, `/`.
pub open spec fn b64_char(v: int) -> char {
    if v < 26 {
        (65 + v) as char
    } else if v < 52 {
        (97 + (v - 26)) as char
    } else if v < 62 {
        (48 + (v - 52)) as char
    } else if v == 62 {
        '+'
    } else {
        '/'
    }
}

fn b64_char_exec(v: u32) -> (c: char)
    requires
        v < 64,
    ensures
        c == b64_char(v as int),
{
    if v < 26 {
        let b: u8 = (65 + v) as u8;
        b as char
    } else if v < 52 {
        let b: u8 = (97 + (v - 26)) as u8;
        b as char
    } else if v < 62 {
        let b: u8 = (48 + (v - 52)) as u8;
        b as char
    } else if v == 62 {
        '+'
    } else {
        '/'
    }
}

/// The four 6-bit groups of the 24-bit big-endian number `b0 b1 b2`.
pub open spec fn sextets(b0: u8, b1: u8, b2: u8) -> (int, int, int, int) {
    let n: u32 = ((b0 as u32) << 16) | ((b1 as u32) << 8) | (b2 as u32);
    (((n >> 18) & 63) as int, ((n >> 12) & 63) as int, ((n >> 6) & 63) as int, (n & 63) as int)
}

/// Encoding of one group of three input bytes.
pub open spec fn b64_group(b0: u8, b1: u8, b2: u8) -> Seq<char> {
    let (a, b, c, d) = sextets(b0, b1, b2);
    seq![b64_char(a), b64_char(b), b64_char(c), b64_char(d)]
}

/// Standard base64 (RFC 4648) with `=` padding: each group of three bytes becomes four
/// characters; a final group of one or two bytes is zero-extended and its missing characters
/// are replaced by `=`.
pub open spec fn base64_spec(s: Seq<u8>) -> Seq<char>
    decreases s.len(),
{
    if s.len() == 0 {
        seq![]
    } else if s.len() == 1 {
        b64_group(s[0], 0, 0).take(2) + seq!['=', '=']
    } else if s.len() == 2 {
        b64_group(s[0], s[1], 0).take(3) + seq!['=']
    } else {
        b64_group(s[0], s[1], s[2]) + base64_spec(s.skip(3))
    }
}

/// Base64 turns every started group of three bytes into four characters.
pub proof fn law_base64_length(s: Seq<u8>)
    ensures
        base64_spec(s).len() == 4 * ((s.len() + 2) / 3),
    decreases s.len(),
{
    if s.len() > 2 {
        law_base64_length(s.skip(3));
    }
}

/// Base64 encodes group by group: after a prefix whose length is a multiple of three, the
/// encoding of the whole is the two encodings one after the other.
pub proof fn law_base64_splits(a: Seq<u8>, b: Seq<u8>)
    requires
        a.len() % 3 == 0,
    ensures
        base64_spec(a + b) == base64_spec(a) + base64_spec(b),
    decreases a.len(),
{
    if a.len() == 0 {
        assert(a + b =~= b);
        assert(base64_spec(a) + base64_spec(b) =~= base64_spec(b));
    } else {
        let ab = a + b;
        assert(ab[0] == a[0] && ab[1] == a[1] && ab[2] == a[2]);
        assert(ab.skip(3) =~= a.skip(3) + b);
        law_base64_splits(a.skip(3), b);
        assert(base64_spec(ab) == b64_group(a[0], a[1], a[2]) + base64_spec(a.skip(3) + b));
        assert(base64_spec(a) == b64_group(a[0], a[1], a[2]) + base64_spec(a.skip(3)));
        assert(base64_spec(ab) =~= base64_spec(a) + base64_spec(b));
    }
}

/// The value of a character of the RFC 4648 base64 alphabet: `A`–`Z` are 0–25, `a`–`z` 26–51,
/// `0`–`9` 52–61, `+` 62 and `/` 63.
pub open spec fn b64_value(c: char) -> u32 {
    if 'A' <= c && c <= 'Z' {
        ((c as u32) - 65) as u32
    } else if 'a' <= c && c <= 'z' {
        ((c as u32) - 71) as u32
    } else if '0' <= c && c <= '9' {
        ((c as u32) + 4) as u32
    } else if c == '+' {
        62
    } else if c == '/' {
        63
    } else {
        0
    }
}

/// Three bytes from four base64 characters (RFC 4648 decoding of one group).
pub open spec fn b64_bytes(c0: char, c1: char, c2: char, c3: char) -> Seq<u8> {
    let a = b64_value(c0);
    let b = b64_value(c1);
    let c = b64_value(c2);
    let d = b64_value(c3);
    seq![((a << 2) | (b >> 4)) as u8, (((b & 15) << 4) | (c >> 2)) as u8, (((c & 3) << 6) | d) as u8]
}

/// Standard base64 decoding: four characters give three bytes; a group ending in `==` gives
/// one byte and a group ending in `=` two.
pub open spec fn base64_decode(t: Seq<char>) -> Seq<u8>
    decreases t.len(),
{
    if t.len() < 4 {
        seq![]
    } else if t[2] == '=' {
        b64_bytes(t[0], t[1], 'A', 'A').take(1)
    } else if t[3] == '=' {
        b64_bytes(t[0], t[1], t[2], 'A').take(2)
    } else {
        b64_bytes(t[0], t[1], t[2], t[3]) + base64_decode(t.skip(4))
    }
}

proof fn lemma_b64_value(v: int)
    requires
        0 <= v < 64,
    ensures
        b64_value(b64_char(v)) as int == v,
        b64_char(v) != '=',
{
    let c = b64_char(v);
    if v < 26 {
        assert(c as u32 == 65 + v);
    } else if v < 52 {
        assert(c as u32 == 97 + (v - 26));
    } else if v < 62 {
        assert(c as u32 == 48 + (v - 52));
    }
}

proof fn lemma_group_bits(b0: u8, b1: u8, b2: u8)
    by (bit_vector)
    ensures
        (((((((b0 as u32) << 16) | ((b1 as u32) << 8) | (b2 as u32)) >> 18) & 63) << 2) | (((((b0 as u32) << 16)
            | ((b1 as u32) << 8) | (b2 as u32)) >> 12) & 63) >> 4) as u8 == b0,
        ((((((((b0 as u32) << 16) | ((b1 as u32) << 8) | (b2 as u32)) >> 12) & 63) & 15) << 4) | (((((b0 as u32)
            << 16) | ((b1 as u32) << 8) | (b2 as u32)) >> 6) & 63) >> 2) as u8 == b1,
        ((((((((b0 as u32) << 16) | ((b1 as u32) << 8) | (b2 as u32)) >> 6) & 63) & 3) << 6) | ((((b0 as u32)
            << 16) | ((b1 as u32) << 8) | (b2 as u32)) & 63)) as u8 == b2,
        (((((b0 as u32) << 16) | ((b1 as u32) << 8) | (b2 as u32)) >> 18) & 63) < 64,
        (((((b0 as u32) << 16) | ((b1 as u32) << 8) | (b2 as u32)) >> 12) & 63) < 64,
        (((((b0 as u32) << 16) | ((b1 as u32) << 8) | (b2 as u32)) >> 6) & 63) < 64,
        ((((b0 as u32) << 16) | ((b1 as u32) << 8) | (b2 as u32)) & 63) < 64,
{
}

/// Decoding one encoded group gives its three bytes back.
proof fn lemma_group_decodes(b0: u8, b1: u8, b2: u8)
    ensures
        ({
            let g = b64_group(b0, b1, b2);
            &&& b64_bytes(g[0], g[1], g[2], g[3]) == seq![b0, b1, b2]
            &&& b64_bytes(g[0], g[1], 'A', 'A')[0] == b0
            &&& b64_bytes(g[0], g[1], g[2], 'A')[0] == b0
            &&& b64_bytes(g[0], g[1], g[2], 'A')[1] == b1
            &&& g[0] != '=' && g[1] != '=' && g[2] != '=' && g[3] != '='
        }),
{
    lemma_group_bits(b0, b1, b2);
    let n: u32 = ((b0 as u32) << 16) | ((b1 as u32) << 8) | (b2 as u32);
    let (a, b, c, d) = sextets(b0, b1, b2);
    lemma_b64_value(a);
    lemma_b64_value(b);
    lemma_b64_value(c);
    lemma_b64_value(d);
    let g = b64_group(b0, b1, b2);
    assert(b64_value(g[0]) == ((n >> 18) & 63));
    assert(b64_value(g[1]) == ((n >> 12) & 63));
    assert(b64_value(g[2]) == ((n >> 6) & 63));
    assert(b64_value(g[3]) == (n & 63));
    assert(b64_value('A') == 0);
    assert(b64_bytes(g[0], g[1], g[2], g[3]) =~= seq![b0, b1, b2]);
}

/// Base64 decodes back: the standard (RFC 4648) decoder gives every byte sequence back from
/// its encoding.
pub proof fn law_base64_decodes(s: Seq<u8>)
    ensures
        base64_decode(base64_spec(s)) == s,
    decreases s.len(),
{
    let e = base64_spec(s);
    if s.len() == 0 {
    } else if s.len() == 1 {
        lemma_group_decodes(s[0], 0, 0);
        let g = b64_group(s[0], 0, 0);
        assert(e =~= seq![g[0], g[1], '=', '=']);
        assert(base64_decode(e) =~= s);
    } else if s.len() == 2 {
        lemma_group_decodes(s[0], s[1], 0);
        let g = b64_group(s[0], s[1], 0);
        assert(e =~= seq![g[0], g[1], g[2], '=']);
        assert(base64_decode(e) =~= s);
    } else {
        lemma_group_decodes(s[0], s[1], s[2]);
        law_base64_decodes(s.skip(3));
        let g = b64_group(s[0], s[1], s[2]);
        assert(e == g + base64_spec(s.skip(3)));
        assert(e.skip(4) =~= base64_spec(s.skip(3)));
        assert(e[0] == g[0] && e[1] == g[1] && e[2] == g[2] && e[3] == g[3]);
        assert(base64_decode(e) =~= seq![s[0], s[1], s[2]] + s.skip(3));
        assert(seq![s[0], s[1], s[2]] + s.skip(3) =~= s);
    }
}

/// Standard base64 with padding.
pub fn base64(bytes: &[u8]) -> (r: String)
    ensures
        r@ == base64_spec(bytes@),
{
    let mut out: Vec<char> = Vec::new();
    let mut i: usize = 0;
    assert(bytes@.skip(0) =~= bytes@);
    assert(out@ + base64_spec(bytes@) =~= base64_spec(bytes@));
    while i < bytes.len()
        invariant
            i <= bytes.len(),
            i % 3 == 0 || i == bytes.len(),
            base64_spec(bytes@) == out@ + base64_spec(bytes@.skip(i as int)),
        decreases bytes.len() - i,
    {
        let rest = bytes.len() - i;
        let b0 = bytes[i];
        let b1 = if rest > 1 { bytes[i + 1] } else { 0 };
        let b2 = if rest > 2 { bytes[i + 2] } else { 0 };
        let n: u32 = ((b0 as u32) << 16) | ((b1 as u32) << 8) | (b2 as u32);
        assert(((n >> 18) & 63) < 64 && ((n >> 12) & 63) < 64 && ((n >> 6) & 63) < 64 && (n & 63)
            < 64) by (bit_vector);
        let c0 = b64_char_exec((n >> 18) & 63);
        let c1 = b64_char_exec((n >> 12) & 63);
        let c2 = if rest > 1 { b64_char_exec((n >> 6) & 63) } else { '=' };
        let c3 = if rest > 2 { b64_char_exec(n & 63) } else { '=' };
        let ghost before = out@;
        let ghost tail = bytes@.skip(i as int);
        out.push(c0);
        out.push(c1);
        out.push(c2);
        out.push(c3);
        proof {
            if rest > 2 {
                assert(tail[0] == b0 && tail[1] == b1 && tail[2] == b2);
                assert(tail.skip(3) =~= bytes@.skip(i + 3));
                assert(out@ =~= before + b64_group(b0, b1, b2));
            } else if rest == 2 {
                assert(tail.len() == 2 && tail[0] == b0 && tail[1] == b1);
                assert(out@ =~= before + (b64_group(b0, b1, 0).take(3) + seq!['=']));
                assert(bytes@.skip(bytes.len() as int) =~= Seq::<u8>::empty());
            } else {
                assert(tail.len() == 1 && tail[0] == b0);
                assert(out@ =~= before + (b64_group(b0, 0, 0).take(2) + seq!['=', '=']));
                assert(bytes@.skip(bytes.len() as int) =~= Seq::<u8>::empty());
            }
        }
        i = if rest > 2 { i + 3 } else { bytes.len() };
    }
    assert(bytes@.skip(i as int) =~= Seq::<u8>::empty());
    assert(out@ =~= out@ + base64_spec(Seq::<u8>::empty()));
    string_of(out.as_slice())
}

// ------------------------------------------------------------------------------- checksums

/// One bit step of the reflected CRC-32 (polynomial `0xEDB88320`).
pub open spec fn crc_bit(c: u32) -> u32 {
    if c & 1 == 1 {
        (c >> 1) ^ 0xedb8_8320
    } else {
        c >> 1
    }
}

/// `k` bit steps.
pub open spec fn crc_bits(c: u32, k: nat) -> u32
    decreases k,
{
    if k == 0 {
        c
    } else {
        crc_bits(crc_bit(c), (k - 1) as nat)
    }
}

/// The CRC register after `bytes`, starting from `init`.
pub open spec fn crc_fold(init: u32, bytes: Seq<u8>) -> u32
    decreases bytes.len(),
{
    if bytes.len() == 0 {
        init
    } else {
        crc_bits(crc_fold(init, bytes.drop_last()) ^ (bytes.last() as u32), 8)
    }
}

/// CRC-32 (ISO-HDLC, as used by PNG and zlib's `crc32`).
pub open spec fn crc32_spec(bytes: Seq<u8>) -> u32 {
    !crc_fold(0xffff_ffff, bytes)
}

pub fn crc32(bytes: &[u8]) -> (r: u32)
    ensures
        r == crc32_spec(bytes@),
{
    let mut crc: u32 = 0xffff_ffff;
    let mut i: usize = 0;
    while i < bytes.len()
        invariant
            i <= bytes.len(),
            crc == crc_fold(0xffff_ffff, bytes@.take(i as int)),
        decreases bytes.len() - i,
    {
        crc = crc ^ (bytes[i] as u32);
        let ghost start = crc;
        let mut k: u32 = 0;
        while k < 8
            invariant
                k <= 8,
                crc_bits(crc, (8 - k) as nat) == crc_bits(start, 8),
            decreases 8 - k,
        {
            crc = if crc & 1 == 1 {
                (crc >> 1) ^ 0xedb8_8320
            } else {
                crc >> 1
            };
            k = k + 1;
        }
        proof {
            assert(bytes@.take(i + 1).drop_last() =~= bytes@.take(i as int));
        }
        i = i + 1;
    }
    assert(bytes@.take(bytes.len() as int) =~= bytes@);
    !crc
}

/// Adler-32 running sums `(a, b)` after `bytes`.
pub open spec fn adler_sums(bytes: Seq<u8>) -> (u32, u32)
    decreases bytes.len(),
{
    if bytes.len() == 0 {
        (1, 0)
    } else {
        let (a0, b0) = adler_sums(bytes.drop_last());
        let a = ((a0 + bytes.last()) % 65521) as u32;
        (a, ((b0 + a) % 65521) as u32)
    }
}

/// Adler-32 (the zlib trailer checksum).
pub open spec fn adler32_spec(bytes: Seq<u8>) -> u32 {
    let (a, b) = adler_sums(bytes);
    (b << 16) | a
}

proof fn lemma_adler_bounds(bytes: Seq<u8>)
    ensures
        adler_sums(bytes).0 < 65521,
        adler_sums(bytes).1 < 65521,
    decreases bytes.len(),
{
    if bytes.len() > 0 {
        lemma_adler_bounds(bytes.drop_last());
    }
}

pub fn adler32(bytes: &[u8]) -> (r: u32)
    ensures
        r == adler32_spec(bytes@),
{
    let mut a: u32 = 1;
    let mut b: u32 = 0;
    let mut i: usize = 0;
    while i < bytes.len()
        invariant
            i <= bytes.len(),
            (a, b) == adler_sums(bytes@.take(i as int)),
            a < 65521,
            b < 65521,
        decreases bytes.len() - i,
    {
        a = (a + bytes[i] as u32) % 65521;
        b = (b + a) % 65521;
        proof {
            assert(bytes@.take(i + 1).drop_last() =~= bytes@.take(i as int));
        }
        i = i + 1;
    }
    assert(bytes@.take(bytes.len() as int) =~= bytes@);
    (b << 16) | a
}

// ------------------------------------------------------------------------------- byte order

/// Big-endian bytes of a `u32`.
pub open spec fn be32(x: u32) -> Seq<u8> {
    seq![(x >> 24) as u8, (x >> 16) as u8, (x >> 8) as u8, x as u8]
}

/// Little-endian bytes of a `u16`.
pub open spec fn le16(x: u16) -> Seq<u8> {
    seq![x as u8, (x >> 8) as u8]
}

fn push_be32(out: &mut Vec<u8>, x: u32)
    ensures
        final(out)@ == old(out)@ + be32(x),
{
    out.push((x >> 24) as u8);
    out.push((x >> 16) as u8);
    out.push((x >> 8) as u8);
    out.push(x as u8);
    assert(out@ =~= old(out)@ + be32(x));
}

fn push_le16(out: &mut Vec<u8>, x: u16)
    ensures
        final(out)@ == old(out)@ + le16(x),
{
    out.push(x as u8);
    out.push((x >> 8) as u8);
    assert(out@ =~= old(out)@ + le16(x));
}

fn push_bytes(out: &mut Vec<u8>, b: &[u8])
    ensures
        final(out)@ == old(out)@ + b@,
{
    let mut i: usize = 0;
    while i < b.len()
        invariant
            i <= b.len(),
            out@ == old(out)@ + b@.take(i as int),
        decreases b.len() - i,
    {
        out.push(b[i]);
        i = i + 1;
        assert(out@ =~= old(out)@ + b@.take(i as int));
    }
    assert(b@.take(b@.len() as int) =~= b@);
}

// ------------------------------------------------------------------------------- PNG

/// The eight-byte PNG signature `\x89PNG\r\n\x1a\n`.
pub open spec fn png_signature() -> Seq<u8> {
    seq![0x89u8, 0x50, 0x4e, 0x47, 0x0d, 0x0a, 0x1a, 0x0a]
}

/// One PNG chunk: big-endian length of `data`, the type, the data, and the CRC-32 of type and
/// data.
pub open spec fn chunk_spec(kind: Seq<u8>, data: Seq<u8>) -> Seq<u8> {
    be32(data.len() as u32) + kind + data + be32(crc32_spec(kind + data))
}

/// Append one chunk to `out`.
pub fn chunk(out: &mut Vec<u8>, kind: &[u8; 4], data: &[u8])
    ensures
        final(out)@ == old(out)@ + chunk_spec(kind@, data@),
{
    push_be32(out, data.len() as u32);
    let mut body: Vec<u8> = Vec::new();
    push_bytes(&mut body, kind);
    push_bytes(&mut body, data);
    push_bytes(out, body.as_slice());
    let crc = crc32(body.as_slice());
    push_be32(out, crc);
    assert(out@ =~= old(out)@ + chunk_spec(kind@, data@));
}

/// Scanlines of an 8-bit RGB image for PNG filtering: `data` cut into rows of `stride` bytes
/// (the last one possibly short), each preceded by filter type 0 (None).
pub open spec fn filtered_rows(data: Seq<u8>, stride: nat) -> Seq<u8>
    recommends
        stride > 0,
    decreases data.len(),
{
    if data.len() == 0 || stride == 0 {
        seq![]
    } else if data.len() <= stride {
        seq![0u8] + data
    } else {
        seq![0u8] + data.take(stride as int) + filtered_rows(data.skip(stride as int), stride)
    }
}

/// Deflate "stored" blocks of at most 65535 bytes each; the last block carries `BFINAL`.
pub open spec fn stored_blocks(raw: Seq<u8>) -> Seq<u8>
    decreases raw.len(),
{
    if raw.len() <= 65535 {
        seq![1u8] + le16(raw.len() as u16) + le16(!(raw.len() as u16)) + raw
    } else {
        seq![0u8] + le16(65535) + le16(0) + raw.take(65535) + stored_blocks(raw.skip(65535))
    }
}

/// A zlib stream (CMF `0x78`, FLG `0x01`) of stored deflate blocks holding `raw`, closed by the
/// Adler-32 of `raw`. Empty input is one empty final block.
pub open spec fn zlib_stored(raw: Seq<u8>) -> Seq<u8> {
    seq![0x78u8, 0x01] + (if raw.len() == 0 {
        seq![1u8, 0, 0, 0xff, 0xff]
    } else {
        stored_blocks(raw)
    }) + be32(adler32_spec(raw))
}

/// IHDR payload: width, height, bit depth 8, colour type 2 (truecolour), deflate, no filter,
/// no interlace.
pub open spec fn ihdr(width: usize, height: usize) -> Seq<u8> {
    be32(width as u32) + be32(height as u32) + seq![8u8, 2, 0, 0, 0]
}

/// The whole stored PNG of an RGB raster.
pub open spec fn png_stored_spec(width: usize, height: usize, data: Seq<u8>) -> Seq<u8> {
    png_signature() + chunk_spec(seq![0x49u8, 0x48, 0x44, 0x52], ihdr(width, height))
        + chunk_spec(seq![0x49u8, 0x44, 0x41, 0x54], zlib_stored(filtered_rows(data, (width * 3) as nat)))
        + chunk_spec(seq![0x49u8, 0x45, 0x4e, 0x44], seq![])
}

/// An opaque RGB raster: `width * height * 3` bytes, row-major.
pub struct Rgb {
    pub width: usize,
    pub height: usize,
    /// `width * height * 3` bytes, row-major.
    pub data: Vec<u8>,
}

/// `\x89PNG`: what a PNG file starts with.
pub open spec fn looks_like_png(b: Seq<u8>) -> bool {
    b.len() >= 4 && b[0] == 0x89 && b[1] == 0x50 && b[2] == 0x4e && b[3] == 0x47
}

fn filtered_rows_exec(data: &[u8], stride: usize) -> (raw: Vec<u8>)
    requires
        stride > 0,
    ensures
        raw@ == filtered_rows(data@, stride as nat),
{
    let mut raw: Vec<u8> = Vec::new();
    let mut i: usize = 0;
    assert(data@.skip(0) =~= data@);
    assert(raw@ + filtered_rows(data@, stride as nat) =~= filtered_rows(data@, stride as nat));
    while i < data.len()
        invariant
            stride > 0,
            i <= data.len(),
            filtered_rows(data@, stride as nat) == raw@ + filtered_rows(
                data@.skip(i as int),
                stride as nat,
            ),
        decreases data.len() - i,
    {
        let ghost tail = data@.skip(i as int);
        let ghost before = raw@;
        let end = if data.len() - i > stride {
            i + stride
        } else {
            data.len()
        };
        raw.push(0);
        let mut k: usize = i;
        while k < end
            invariant
                i <= k <= end <= data.len(),
                raw@ == before + seq![0u8] + data@.subrange(i as int, k as int),
            decreases end - k,
        {
            raw.push(data[k]);
            k = k + 1;
            assert(raw@ =~= before + seq![0u8] + data@.subrange(i as int, k as int));
        }
        proof {
            if data.len() - i > stride {
                assert(data@.subrange(i as int, end as int) =~= tail.take(stride as int));
                assert(tail.skip(stride as int) =~= data@.skip(end as int));
                assert(raw@ + filtered_rows(data@.skip(end as int), stride as nat) =~= before
                    + filtered_rows(tail, stride as nat));
            } else {
                assert(data@.subrange(i as int, end as int) =~= tail);
                assert(data@.skip(end as int) =~= Seq::<u8>::empty());
                assert(raw@ + filtered_rows(data@.skip(end as int), stride as nat) =~= before
                    + filtered_rows(tail, stride as nat));
            }
        }
        i = end;
    }
    assert(data@.skip(i as int) =~= Seq::<u8>::empty());
    assert(raw@ + filtered_rows(Seq::<u8>::empty(), stride as nat) =~= raw@);
    raw
}

fn zlib_stored_exec(raw: &[u8]) -> (z: Vec<u8>)
    ensures
        z@ == zlib_stored(raw@),
{
    let mut z: Vec<u8> = Vec::new();
    z.push(0x78);
    z.push(0x01);
    let ghost head = z@;
    if raw.len() == 0 {
        z.push(1);
        z.push(0);
        z.push(0);
        z.push(0xff);
        z.push(0xff);
        assert(z@ =~= head + seq![1u8, 0, 0, 0xff, 0xff]);
    } else {
        let mut j: usize = 0;
        assert(raw@.skip(0) =~= raw@);
        assert(z@ + stored_blocks(raw@) =~= head + stored_blocks(raw@));
        while j < raw.len()
            invariant
                j <= raw.len(),
                j < raw.len() ==> head + stored_blocks(raw@) == z@ + stored_blocks(
                    raw@.skip(j as int),
                ),
                j == raw.len() ==> head + stored_blocks(raw@) == z@,
            decreases raw.len() - j,
        {
            let ghost tail = raw@.skip(j as int);
            let ghost before = z@;
            let rest = raw.len() - j;
            let n: usize = if rest > 65535 {
                65535
            } else {
                rest
            };
            let last = rest <= 65535;
            z.push(if last {
                1
            } else {
                0
            });
            let len16 = n as u16;
            push_le16(&mut z, len16);
            push_le16(&mut z, !len16);
            push_bytes(&mut z, &raw[j..j + n]);
            proof {
                if last {
                    assert(raw@.subrange(j as int, (j + n) as int) =~= tail);
                    assert(z@ =~= before + stored_blocks(tail));
                } else {
                    assert(raw@.subrange(j as int, (j + n) as int) =~= tail.take(65535));
                    assert(tail.skip(65535) =~= raw@.skip(j + n));
                    assert(!(65535u16) == 0u16) by (bit_vector);
                    assert(z@ + stored_blocks(raw@.skip(j + n)) =~= before + stored_blocks(tail));
                }
            }
            j = j + n;
        }
    }
    let a = adler32(raw);
    push_be32(&mut z, a);
    z
}

impl Rgb {
    /// PNG with zlib "stored" (uncompressed) deflate blocks — big, but needs no compressor.
    pub fn png_stored(&self) -> (r: Vec<u8>)
        requires
            self.width > 0,
            self.width * 3 <= usize::MAX,
        ensures
            r@ == png_stored_spec(self.width, self.height, self.data@),
    {
        let stride = self.width * 3;
        let raw = filtered_rows_exec(self.data.as_slice(), stride);
        let z = zlib_stored_exec(raw.as_slice());
        let mut png: Vec<u8> = Vec::new();
        png.push(0x89);
        png.push(0x50);
        png.push(0x4e);
        png.push(0x47);
        png.push(0x0d);
        png.push(0x0a);
        png.push(0x1a);
        png.push(0x0a);
        let mut hdr: Vec<u8> = Vec::new();
        push_be32(&mut hdr, self.width as u32);
        push_be32(&mut hdr, self.height as u32);
        hdr.push(8);
        hdr.push(2);
        hdr.push(0);
        hdr.push(0);
        hdr.push(0);
        assert(hdr@ =~= ihdr(self.width, self.height));
        let ghost sig = png@;
        chunk(&mut png, &[0x49, 0x48, 0x44, 0x52], hdr.as_slice());
        chunk(&mut png, &[0x49, 0x44, 0x41, 0x54], z.as_slice());
        let empty: [u8; 0] = [];
        chunk(&mut png, &[0x49, 0x45, 0x4e, 0x44], &empty);
        proof {
            assert(sig =~= png_signature());
            assert(empty@ =~= Seq::<u8>::empty());
            assert(png@ =~= png_stored_spec(self.width, self.height, self.data@));
        }
        png
    }

    /// PNG bytes: `converted` (what an outside compressor made of this image, e.g. macOS
    /// `sips`) when it is a PNG, else [`Rgb::png_stored`].
    pub fn to_png(&self, converted: Option<Vec<u8>>) -> (r: Vec<u8>)
        requires
            self.width > 0,
            self.width * 3 <= usize::MAX,
        ensures
            match converted {
                Some(b) if looks_like_png(b@) => r@ == b@,
                _ => r@ == png_stored_spec(self.width, self.height, self.data@),
            },
    {
        match converted {
            Some(b) => {
                if b.len() >= 4 && b[0] == 0x89 && b[1] == 0x50 && b[2] == 0x4e && b[3] == 0x47 {
                    b
                } else {
                    self.png_stored()
                }
            },
            None => self.png_stored(),
        }
    }
}


/// A stored PNG is laid out as PNG files are: the signature, the `IHDR` chunk (13 bytes: the
/// width and height first), and the empty `IEND` chunk last.
pub proof fn law_stored_png_layout(width: usize, height: usize, data: Seq<u8>)
    ensures
        ({
            let png = png_stored_spec(width, height, data);
            &&& png.take(8) == png_signature()
            &&& png.subrange(8, 16) == seq![0u8, 0, 0, 13, 0x49, 0x48, 0x44, 0x52]
            &&& png.subrange(16, 24) == be32(width as u32) + be32(height as u32)
            &&& png.subrange(png.len() - 12, png.len() as int) == chunk_spec(seq![0x49u8, 0x45, 0x4e, 0x44], seq![])
        }),
{
    let png = png_stored_spec(width, height, data);
    let hdr = chunk_spec(seq![0x49u8, 0x48, 0x44, 0x52], ihdr(width, height));
    let idat = chunk_spec(seq![0x49u8, 0x44, 0x41, 0x54], zlib_stored(filtered_rows(data, (width * 3) as nat)));
    let iend = chunk_spec(seq![0x49u8, 0x45, 0x4e, 0x44], seq![]);
    assert(ihdr(width, height).len() == 13);
    assert((13u32 >> 24) as u8 == 0 && (13u32 >> 16) as u8 == 0 && (13u32 >> 8) as u8 == 0 && 13u32 as u8 == 13) by (bit_vector);
    assert(be32(13u32) =~= seq![0u8, 0, 0, 13]);
    assert(png =~= png_signature() + hdr + idat + iend);
    assert(png.take(8) =~= png_signature());
    assert(png.subrange(8, 16) =~= seq![0u8, 0, 0, 13, 0x49, 0x48, 0x44, 0x52]);
    assert(png.subrange(16, 24) =~= ihdr(width, height).take(8));
    assert(ihdr(width, height).take(8) =~= be32(width as u32) + be32(height as u32));
    assert(iend.len() == 12);
    assert(png.subrange(png.len() - 12, png.len() as int) =~= iend);
}

proof fn lemma_filtered_rows_len(data: Seq<u8>, s: nat, k: nat)
    requires
        s > 0,
        data.len() == s * k,
    ensures
        filtered_rows(data, s).len() == (s + 1) * k,
    decreases k,
{
    if k == 0 {
        assert(data.len() == 0) by (nonlinear_arith)
            requires
                data.len() == s * k,
                k == 0,
        ;
        assert((s + 1) * k == 0) by (nonlinear_arith)
            requires
                k == 0,
        ;
    } else if k == 1 {
        assert(data.len() == s) by (nonlinear_arith)
            requires
                data.len() == s * k,
                k == 1,
        ;
        assert((s + 1) * k == s + 1) by (nonlinear_arith)
            requires
                k == 1,
        ;
    } else {
        assert(data.len() == s * (k - 1) + s) by (nonlinear_arith)
            requires
                data.len() == s * k,
        ;
        assert(s * (k - 1) >= s) by (nonlinear_arith)
            requires
                k >= 2,
                s > 0,
        ;
        assert(data.skip(s as int).len() == s * ((k - 1) as nat));
        lemma_filtered_rows_len(data.skip(s as int), s, (k - 1) as nat);
        assert((s + 1) * k == (s + 1) * (k - 1) + s + 1) by (nonlinear_arith);
        assert(filtered_rows(data, s) == seq![0u8] + data.take(s as int) + filtered_rows(data.skip(s as int), s));
    }
}

proof fn lemma_stored_blocks_len(raw: Seq<u8>)
    requires
        raw.len() > 0,
    ensures
        stored_blocks(raw).len() == raw.len() + 5 * ((raw.len() + 65534) / 65535),
    decreases raw.len(),
{
    if raw.len() > 65535 {
        lemma_stored_blocks_len(raw.skip(65535));
        assert((raw.len() + 65534) / 65535 == (raw.len() - 65535 + 65534) / 65535 + 1);
    }
}

/// The length of a stored PNG of a `width` x `height` RGB raster: with `n = (3 * width + 1)
/// * height` filtered bytes, `63 + n` plus five bytes per started stored block of 65535
/// bytes (one empty block when there is nothing to store).
pub proof fn law_stored_png_length(width: usize, height: usize, data: Seq<u8>)
    requires
        width >= 1,
        data.len() == 3 * width * height,
    ensures
        ({
            let n = (3 * width + 1) * height;
            png_stored_spec(width, height, data).len() == 63 + n + 5 * (if n == 0 {
                1
            } else {
                (n + 65534) / 65535
            })
        }),
{
    let s = (width * 3) as nat;
    assert(data.len() == s * (height as nat)) by (nonlinear_arith)
        requires
            data.len() == 3 * width * height,
            s == width * 3,
    ;
    lemma_filtered_rows_len(data, s, height as nat);
    let raw = filtered_rows(data, s);
    assert((s + 1) * height == (3 * width + 1) * height) by (nonlinear_arith)
        requires
            s == width * 3,
    ;
    if raw.len() > 0 {
        lemma_stored_blocks_len(raw);
    }
    assert(ihdr(width, height).len() == 13);
}

/// Reading stored deflate blocks back: a header byte (odd = last block), the block's length
/// (little-endian), its complement, then that many bytes; blocks follow one another until the
/// last.
pub open spec fn unstore(z: Seq<u8>) -> Seq<u8>
    decreases z.len(),
{
    if z.len() < 5 {
        seq![]
    } else {
        let n = z[1] as int + z[2] as int * 256;
        if 5 + n >= z.len() {
            z.skip(5)
        } else if z[0] % 2 == 1 {
            z.subrange(5, 5 + n)
        } else {
            z.subrange(5, 5 + n) + unstore(z.skip(5 + n))
        }
    }
}

/// Undoing the filtering of rows of `stride` bytes: drop each row's leading filter byte.
pub open spec fn unfilter(raw: Seq<u8>, stride: nat) -> Seq<u8>
    decreases raw.len(),
{
    if raw.len() == 0 || stride == 0 {
        seq![]
    } else if raw.len() <= stride + 1 {
        raw.skip(1)
    } else {
        raw.subrange(1, stride + 1int) + unfilter(raw.skip(stride + 1int), stride)
    }
}

proof fn lemma_le16(x: u16)
    ensures
        le16(x)[0] as int + le16(x)[1] as int * 256 == x as int,
{
    assert((x as u8) as int + ((x >> 8) as u8) as int * 256 == x as int) by (bit_vector);
}

proof fn lemma_unstore(raw: Seq<u8>)
    ensures
        unstore(stored_blocks(raw)) == raw,
    decreases raw.len(),
{
    let z = stored_blocks(raw);
    if raw.len() <= 65535 {
        let l = raw.len() as u16;
        lemma_le16(l);
        assert(z[1] == le16(l)[0] && z[2] == le16(l)[1]);
        assert(z.skip(5) =~= raw);
        assert(z.subrange(5, 5 + raw.len() as int) =~= raw);
    } else {
        lemma_le16(65535);
        let rest = raw.skip(65535);
        lemma_unstore(rest);
        assert(z[1] == le16(65535)[0] && z[2] == le16(65535)[1]);
        assert(stored_blocks(rest).len() >= 5) by {
            if rest.len() > 65535 {
            }
        }
        assert(z.subrange(5, 65540) =~= raw.take(65535));
        assert(z.skip(65540) =~= stored_blocks(rest));
        assert(raw.take(65535) + rest =~= raw);
    }
}

proof fn lemma_unfilter(data: Seq<u8>, s: nat)
    requires
        s > 0,
    ensures
        unfilter(filtered_rows(data, s), s) == data,
    decreases data.len(),
{
    let raw = filtered_rows(data, s);
    if data.len() == 0 {
    } else if data.len() <= s {
        assert(raw.skip(1) =~= data);
    } else {
        let rest = data.skip(s as int);
        lemma_unfilter(rest, s);
        assert(filtered_rows(rest, s).len() > 0);
        assert(raw.subrange(1, s + 1int) =~= data.take(s as int));
        assert(raw.skip(s + 1int) =~= filtered_rows(rest, s));
        assert(data.take(s as int) + rest =~= data);
    }
}

/// A stored PNG decodes back to its image: the `IDAT` payload is a zlib stream (header `78 01`)
/// whose stored blocks read back to the filtered rows and whose trailer is their Adler-32, and
/// dropping each row's filter byte gives the RGB bytes back.
pub proof fn law_stored_png_decodes(width: usize, data: Seq<u8>)
    requires
        width >= 1,
    ensures
        ({
            let raw = filtered_rows(data, (width * 3) as nat);
            let z = zlib_stored(raw);
            &&& z.take(2) == seq![0x78u8, 0x01]
            &&& unstore(z.subrange(2, z.len() - 4)) == raw
            &&& z.subrange(z.len() - 4, z.len() as int) == be32(adler32_spec(raw))
            &&& unfilter(raw, (width * 3) as nat) == data
        }),
{
    let s = (width * 3) as nat;
    let raw = filtered_rows(data, s);
    let z = zlib_stored(raw);
    lemma_unfilter(data, s);
    let body = if raw.len() == 0 {
        seq![1u8, 0, 0, 0xff, 0xff]
    } else {
        stored_blocks(raw)
    };
    assert(z =~= seq![0x78u8, 0x01] + body + be32(adler32_spec(raw)));
    assert(z.take(2) =~= seq![0x78u8, 0x01]);
    assert(z.subrange(2, z.len() - 4) =~= body);
    assert(z.subrange(z.len() - 4, z.len() as int) =~= be32(adler32_spec(raw)));
    if raw.len() == 0 {
        assert(body.skip(5) =~= raw);
    } else {
        lemma_unstore(raw);
    }
}

// ------------------------------------------------------------------------------- downscale

/// The first source line of target line `i` when `n` target lines cover `s` source lines.
pub open spec fn box_lo(i: int, s: int, n: int) -> int {
    i * s / n
}

/// One past the last source line of target line `i`: the next box's start, at least one line
/// in, at most `s`.
pub open spec fn box_hi(i: int, s: int, n: int) -> int {
    let hi = (i + 1) * s / n;
    let lo = box_lo(i, s, n);
    let m = if hi > lo + 1 { hi } else { lo + 1 };
    if m < s { m } else { s }
}

/// Channel `c` of the RGBA pixels `x0..x1` of row `y` of a `sw`-wide image, summed.
pub open spec fn row_sum(px: Seq<u8>, sw: int, c: int, x0: int, x1: int, y: int) -> int
    decreases x1 - x0,
{
    if x1 <= x0 {
        0
    } else {
        row_sum(px, sw, c, x0, x1 - 1, y) + px[(y * sw + (x1 - 1)) * 4 + c] as int
    }
}

/// Channel `c` of the box `x0..x1` × `y0..y1`, summed.
pub open spec fn box_sum(px: Seq<u8>, sw: int, c: int, x0: int, x1: int, y0: int, y1: int) -> int
    decreases y1 - y0,
{
    if y1 <= y0 {
        0
    } else {
        box_sum(px, sw, c, x0, x1, y0, y1 - 1) + row_sum(px, sw, c, x0, x1, y1 - 1)
    }
}

/// Target pixel `(x, y)`: the average of each of R, G, B over its box, rounded down.
pub open spec fn box_pixel(px: Seq<u8>, sw: int, sh: int, w: int, h: int, x: int, y: int) -> Seq<u8> {
    let x0 = box_lo(x, sw, w);
    let x1 = box_hi(x, sw, w);
    let y0 = box_lo(y, sh, h);
    let y1 = box_hi(y, sh, h);
    let n = (x1 - x0) * (y1 - y0);
    seq![
        (box_sum(px, sw, 0, x0, x1, y0, y1) / n) as u8,
        (box_sum(px, sw, 1, x0, x1, y0, y1) / n) as u8,
        (box_sum(px, sw, 2, x0, x1, y0, y1) / n) as u8,
    ]
}

/// The first `x_end` pixels of target row `y`.
pub open spec fn box_row(px: Seq<u8>, sw: int, sh: int, w: int, h: int, y: int, x_end: int) -> Seq<u8>
    decreases x_end,
{
    if x_end <= 0 {
        Seq::empty()
    } else {
        box_row(px, sw, sh, w, h, y, x_end - 1) + box_pixel(px, sw, sh, w, h, x_end - 1, y)
    }
}

/// The first `y_end` target rows.
pub open spec fn box_image(px: Seq<u8>, sw: int, sh: int, w: int, h: int, y_end: int) -> Seq<u8>
    decreases y_end,
{
    if y_end <= 0 {
        Seq::empty()
    } else {
        box_image(px, sw, sh, w, h, y_end - 1) + box_row(px, sw, sh, w, h, y_end - 1, w)
    }
}

/// Where the boxes of `n` target lines over `s` source lines lie: each non-empty and inside.
proof fn lemma_box_bounds(i: int, s: int, n: int)
    requires
        0 <= i < n,
        0 < n <= s,
    ensures
        0 <= box_lo(i, s, n) < box_hi(i, s, n) <= s,
{
    assert(0 <= i * s) by (nonlinear_arith)
        requires
            0 <= i,
            0 < s,
    ;
    assert(i * s < n * s) by (nonlinear_arith)
        requires
            0 <= i < n,
            0 < s,
    ;
    assert(i * s / n < s) by (nonlinear_arith)
        requires
            0 <= i * s < n * s,
            0 < n,
    ;
    assert(0 <= i * s / n) by (nonlinear_arith)
        requires
            0 <= i * s,
            0 < n,
    ;
}

/// The RGBA pixel `(x, y)` of a `sw` × `sh` image lies inside its bytes.
proof fn lemma_pixel_index(x: int, y: int, c: int, sw: int, sh: int)
    requires
        0 <= x < sw,
        0 <= y < sh,
        0 <= c < 4,
    ensures
        0 <= (y * sw + x) * 4 + c < sw * sh * 4,
        (y * sw + x) * 4 + c == y * sw * 4 + x * 4 + c,
{
    assert(0 <= y * sw) by (nonlinear_arith)
        requires
            0 <= y,
            0 < sw,
    ;
    assert(y * sw + x < sw * sh) by (nonlinear_arith)
        requires
            0 <= x < sw,
            0 <= y < sh,
    ;
    assert((y * sw + x) * 4 + c < sw * sh * 4) by (nonlinear_arith)
        requires
            y * sw + x < sw * sh,
            0 <= c < 4,
    ;
    assert((y * sw + x) * 4 + c == y * sw * 4 + x * 4 + c) by (nonlinear_arith);
}

/// Sum, over the box `x0..x1` × `y0..y1`, of the three colour channels of RGBA pixels.
fn box_sums(px: &[u8], sw: usize, sh: usize, x0: usize, x1: usize, y0: usize, y1: usize) -> (r: (u128, u128, u128))
    requires
        px.len() == sw * sh * 4,
        x0 < x1 <= sw,
        y0 < y1 <= sh,
    ensures
        r.0 == box_sum(px@, sw as int, 0, x0 as int, x1 as int, y0 as int, y1 as int),
        r.1 == box_sum(px@, sw as int, 1, x0 as int, x1 as int, y0 as int, y1 as int),
        r.2 == box_sum(px@, sw as int, 2, x0 as int, x1 as int, y0 as int, y1 as int),
        r.0 <= 255 * (x1 - x0) * (y1 - y0),
        r.1 <= 255 * (x1 - x0) * (y1 - y0),
        r.2 <= 255 * (x1 - x0) * (y1 - y0),
{
    let (mut r, mut g, mut b) = (0u128, 0u128, 0u128);
    let ghost wd = x1 - x0;
    let mut yy: usize = y0;
    while yy < y1
        invariant
            px.len() == sw * sh * 4,
            x0 < x1 <= sw,
            y0 <= yy <= y1 <= sh,
            wd == x1 - x0,
            r == box_sum(px@, sw as int, 0, x0 as int, x1 as int, y0 as int, yy as int),
            g == box_sum(px@, sw as int, 1, x0 as int, x1 as int, y0 as int, yy as int),
            b == box_sum(px@, sw as int, 2, x0 as int, x1 as int, y0 as int, yy as int),
            r <= 255 * wd * (yy - y0),
            g <= 255 * wd * (yy - y0),
            b <= 255 * wd * (yy - y0),
        decreases y1 - yy,
    {
        let (mut rr, mut gg, mut bb) = (0u128, 0u128, 0u128);
        let mut xx: usize = x0;
        while xx < x1
            invariant
                px.len() == sw * sh * 4,
                x0 <= xx <= x1 <= sw,
                y0 <= yy < y1 <= sh,
                rr == row_sum(px@, sw as int, 0, x0 as int, xx as int, yy as int),
                gg == row_sum(px@, sw as int, 1, x0 as int, xx as int, yy as int),
                bb == row_sum(px@, sw as int, 2, x0 as int, xx as int, yy as int),
                rr <= 255 * (xx - x0),
                gg <= 255 * (xx - x0),
                bb <= 255 * (xx - x0),
            decreases x1 - xx,
        {
            proof {
                lemma_pixel_index(xx as int, yy as int, 0, sw as int, sh as int);
                lemma_pixel_index(xx as int, yy as int, 2, sw as int, sh as int);
                assert((yy * sw + xx) * 4 + 2 < sw * sh * 4);
            }
            let i = (yy * sw + xx) * 4;
            rr = rr + px[i] as u128;
            gg = gg + px[i + 1] as u128;
            bb = bb + px[i + 2] as u128;
            xx = xx + 1;
        }
        proof {
            assert(255 * wd * (yy - y0) + 255 * wd == 255 * wd * (yy + 1 - y0)) by (nonlinear_arith);
            assert(255 * wd * (yy - y0) <= 255 * wd * (sh as int)) by (nonlinear_arith)
                requires
                    yy - y0 <= sh,
                    wd >= 0,
            ;
            assert(255 * wd * (sh as int) <= 255 * (sw as int) * (sh as int)) by (nonlinear_arith)
                requires
                    0 <= wd <= sw,
            ;
            assert((sw as int) * (sh as int) <= usize::MAX);
            assert(255 * (usize::MAX as int) + 255 * (usize::MAX as int) < u128::MAX);
            assert(r + rr <= 255 * wd * (yy + 1 - y0));
            assert(g + gg <= 255 * wd * (yy + 1 - y0));
            assert(b + bb <= 255 * wd * (yy + 1 - y0));
            assert(255 * wd * (yy + 1 - y0) <= 255 * ((sw as int) * (sh as int))) by (nonlinear_arith)
                requires
                    0 <= yy + 1 - y0 <= sh,
                    0 <= wd <= sw,
            ;
            assert(r + rr < u128::MAX);
            assert(g + gg < u128::MAX);
            assert(b + bb < u128::MAX);
        }
        r = r + rr;
        g = g + gg;
        b = b + bb;
        yy = yy + 1;
    }
    proof {
        assert(255 * wd * (yy - y0) == 255 * (x1 - x0) * (y1 - y0));
    }
    (r, g, b)
}

impl Rgb {
    /// Box-average the `src_w` × `src_h` RGBA pixels `rgba` (premultiplied alpha, so already
    /// composited on black) down to `width` × `height`: each target pixel is the mean of R, G
    /// and B over the source box it covers, rounded down.
    pub fn box_average(src_w: usize, src_h: usize, rgba: &[u8], width: usize, height: usize) -> (r: Rgb)
        requires
            rgba.len() == src_w * src_h * 4,
            0 < width <= src_w,
            0 < height <= src_h,
            width * src_w <= usize::MAX,
            height * src_h <= usize::MAX,
        ensures
            r.width == width,
            r.height == height,
            r.data@ == box_image(rgba@, src_w as int, src_h as int, width as int, height as int, height as int),
    {
        let mut data: Vec<u8> = Vec::new();
        let mut y: usize = 0;
        while y < height
            invariant
                rgba.len() == src_w * src_h * 4,
                0 < width <= src_w,
                0 < height <= src_h,
                width * src_w <= usize::MAX,
                height * src_h <= usize::MAX,
                y <= height,
                data@ == box_image(rgba@, src_w as int, src_h as int, width as int, height as int, y as int),
            decreases height - y,
        {
            proof {
                lemma_box_bounds(y as int, src_h as int, height as int);
                assert((y + 1) * src_h <= height * src_h) by (nonlinear_arith)
                    requires
                        y + 1 <= height,
                ;
                assert(y * src_h <= (y + 1) * src_h) by (nonlinear_arith);
            }
            let y0 = y * src_h / height;
            let hi = (y + 1) * src_h / height;
            let m = if hi > y0 + 1 { hi } else { y0 + 1 };
            let y1 = if m < src_h { m } else { src_h };
            let ghost start = data@;
            let mut x: usize = 0;
            while x < width
                invariant
                    rgba.len() == src_w * src_h * 4,
                    0 < width <= src_w,
                    0 < height <= src_h,
                    width * src_w <= usize::MAX,
                    y < height,
                    x <= width,
                    y0 == box_lo(y as int, src_h as int, height as int),
                    y1 == box_hi(y as int, src_h as int, height as int),
                    y0 < y1 <= src_h,
                    data@ == start + box_row(rgba@, src_w as int, src_h as int, width as int, height as int, y as int, x as int),
                decreases width - x,
            {
                proof {
                    lemma_box_bounds(x as int, src_w as int, width as int);
                    assert((x + 1) * src_w <= width * src_w) by (nonlinear_arith)
                        requires
                            x + 1 <= width,
                    ;
                    assert(x * src_w <= (x + 1) * src_w) by (nonlinear_arith);
                }
                let x0 = x * src_w / width;
                let hx = (x + 1) * src_w / width;
                let mx = if hx > x0 + 1 { hx } else { x0 + 1 };
                let x1 = if mx < src_w { mx } else { src_w };
                let (r, g, b) = box_sums(rgba, src_w, src_h, x0, x1, y0, y1);
                let ghost area = (x1 - x0) * (y1 - y0);
                proof {
                    assert(area >= 1) by (nonlinear_arith)
                        requires
                            x1 - x0 >= 1,
                            y1 - y0 >= 1,
                            area == (x1 - x0) * (y1 - y0),
                    ;
                    assert(area <= (src_w as int) * (src_h as int)) by (nonlinear_arith)
                        requires
                            0 <= x1 - x0 <= src_w,
                            0 <= y1 - y0 <= src_h,
                            area == (x1 - x0) * (y1 - y0),
                    ;
                    assert((src_w as int) * (src_h as int) <= usize::MAX) by (nonlinear_arith)
                        requires
                            rgba.len() == src_w * src_h * 4,
                    ;
                    assert(255 * (x1 - x0) * (y1 - y0) == 255 * area) by (nonlinear_arith)
                        requires
                            area == (x1 - x0) * (y1 - y0),
                    ;
                }
                let n: u128 = ((x1 - x0) as u128) * ((y1 - y0) as u128);
                proof {
                    assert(r / n <= 255) by (nonlinear_arith)
                        requires
                            r <= 255 * n,
                            n >= 1,
                    ;
                    assert(g / n <= 255) by (nonlinear_arith)
                        requires
                            g <= 255 * n,
                            n >= 1,
                    ;
                    assert(b / n <= 255) by (nonlinear_arith)
                        requires
                            b <= 255 * n,
                            n >= 1,
                    ;
                }
                let ghost before = data@;
                data.push((r / n) as u8);
                data.push((g / n) as u8);
                data.push((b / n) as u8);
                proof {
                    assert(data@ =~= before + box_pixel(rgba@, src_w as int, src_h as int, width as int, height as int, x as int, y as int));
                }
                x = x + 1;
            }
            y = y + 1;
        }
        Rgb { width, height, data }
    }
}

/// Every one of the `n` RGBA pixels of `px` has the colour `rgb` (whatever its alpha).
pub open spec fn uniform(px: Seq<u8>, n: int, rgb: Seq<u8>) -> bool {
    &&& rgb.len() == 3
    &&& forall|i: int, c: int| 0 <= i < n && 0 <= c < 3 ==> #[trigger] px[i * 4 + c] == rgb[c]
}

proof fn lemma_row_sum_uniform(px: Seq<u8>, sw: int, sh: int, c: int, x0: int, x1: int, y: int, rgb: Seq<u8>)
    requires
        uniform(px, sw * sh, rgb),
        0 <= x0 <= x1 <= sw,
        0 <= y < sh,
        0 <= c < 3,
    ensures
        row_sum(px, sw, c, x0, x1, y) == (x1 - x0) * rgb[c],
    decreases x1 - x0,
{
    if x1 > x0 {
        lemma_row_sum_uniform(px, sw, sh, c, x0, x1 - 1, y, rgb);
        lemma_pixel_index(x1 - 1, y, c, sw, sh);
        assert(y * sw + (x1 - 1) < sw * sh) by (nonlinear_arith)
            requires
                0 <= x1 - 1 < sw,
                0 <= y < sh,
        ;
        assert(0 <= y * sw + (x1 - 1)) by (nonlinear_arith)
            requires
                0 <= x1 - 1,
                0 <= y,
                0 <= sw,
        ;
        assert(px[(y * sw + (x1 - 1)) * 4 + c] == rgb[c]);
        assert((x1 - 1 - x0) * rgb[c] + rgb[c] == (x1 - x0) * rgb[c]) by (nonlinear_arith);
    } else {
        assert((x1 - x0) * rgb[c] == 0) by (nonlinear_arith)
            requires
                x1 == x0,
        ;
    }
}

proof fn lemma_box_sum_uniform(px: Seq<u8>, sw: int, sh: int, c: int, x0: int, x1: int, y0: int, y1: int, rgb: Seq<u8>)
    requires
        uniform(px, sw * sh, rgb),
        0 <= x0 <= x1 <= sw,
        0 <= y0 <= y1 <= sh,
        0 <= c < 3,
    ensures
        box_sum(px, sw, c, x0, x1, y0, y1) == (y1 - y0) * ((x1 - x0) * rgb[c]),
    decreases y1 - y0,
{
    if y1 > y0 {
        lemma_box_sum_uniform(px, sw, sh, c, x0, x1, y0, y1 - 1, rgb);
        lemma_row_sum_uniform(px, sw, sh, c, x0, x1, y1 - 1, rgb);
        let v = (x1 - x0) * rgb[c];
        assert((y1 - 1 - y0) * v + v == (y1 - y0) * v) by (nonlinear_arith);
    } else {
        assert((y1 - y0) * ((x1 - x0) * rgb[c]) == 0) by (nonlinear_arith)
            requires
                y1 == y0,
        ;
    }
}

/// A uniformly coloured image stays that colour at every size: each target pixel is the
/// image's colour.
pub proof fn law_uniform_image_stays_uniform(px: Seq<u8>, sw: int, sh: int, w: int, h: int, rgb: Seq<u8>, x: int, y: int)
    requires
        px.len() == sw * sh * 4,
        uniform(px, sw * sh, rgb),
        0 < w <= sw,
        0 < h <= sh,
        0 <= x < w,
        0 <= y < h,
    ensures
        box_pixel(px, sw, sh, w, h, x, y) == rgb,
{
    lemma_box_bounds(x, sw, w);
    lemma_box_bounds(y, sh, h);
    let x0 = box_lo(x, sw, w);
    let x1 = box_hi(x, sw, w);
    let y0 = box_lo(y, sh, h);
    let y1 = box_hi(y, sh, h);
    let n = (x1 - x0) * (y1 - y0);
    assert(n > 0) by (nonlinear_arith)
        requires
            x1 - x0 > 0,
            y1 - y0 > 0,
            n == (x1 - x0) * (y1 - y0),
    ;
    assert forall|c: int| 0 <= c < 3 implies #[trigger] (box_sum(px, sw, c, x0, x1, y0, y1) / n) == rgb[c] by {
        lemma_box_sum_uniform(px, sw, sh, c, x0, x1, y0, y1, rgb);
        let v = rgb[c] as int;
        assert((y1 - y0) * ((x1 - x0) * v) == n * v) by (nonlinear_arith)
            requires
                n == (x1 - x0) * (y1 - y0),
        ;
        assert((n * v) / n == v) by (nonlinear_arith)
            requires
                n > 0,
        ;
    }
    assert(box_pixel(px, sw, sh, w, h, x, y) =~= rgb);
}

/// At full size every box is a single pixel: each target pixel is the source pixel's R, G, B
/// (the alpha byte dropped).
pub proof fn law_full_size_keeps_pixels(px: Seq<u8>, sw: int, sh: int, x: int, y: int)
    requires
        0 <= x < sw,
        0 <= y < sh,
    ensures
        ({
            let i = (y * sw + x) * 4;
            box_pixel(px, sw, sh, sw, sh, x, y) == seq![px[i], px[i + 1], px[i + 2]]
        }),
{
    assert(x * sw / sw == x) by (nonlinear_arith)
        requires
            sw > 0,
    ;
    assert((x + 1) * sw / sw == x + 1) by (nonlinear_arith)
        requires
            sw > 0,
    ;
    assert(y * sh / sh == y) by (nonlinear_arith)
        requires
            sh > 0,
    ;
    assert((y + 1) * sh / sh == y + 1) by (nonlinear_arith)
        requires
            sh > 0,
    ;
    assert(box_lo(x, sw, sw) == x && box_hi(x, sw, sw) == x + 1);
    assert(box_lo(y, sh, sh) == y && box_hi(y, sh, sh) == y + 1);
    let i = (y * sw + x) * 4;
    let x0 = box_lo(x, sw, sw);
    let x1 = box_hi(x, sw, sw);
    let y0 = box_lo(y, sh, sh);
    let y1 = box_hi(y, sh, sh);
    assert((x1 - x0) * (y1 - y0) == 1) by (nonlinear_arith)
        requires
            x1 - x0 == 1,
            y1 - y0 == 1,
    ;
    assert forall|c: int| 0 <= c < 3 implies #[trigger] box_sum(px, sw, c, x0, x1, y0, y1) == px[i + c] as int by {
        assert(row_sum(px, sw, c, x, x, y) == 0);
        assert(box_sum(px, sw, c, x, x + 1, y, y) == 0);
        assert(row_sum(px, sw, c, x, x + 1, y) == px[(y * sw + x) * 4 + c] as int);
    }
    let p = box_pixel(px, sw, sh, sw, sh, x, y);
    assert(p[0] == px[i]);
    assert(p[1] == px[i + 1]);
    assert(p[2] == px[i + 2]);
    assert(p =~= seq![px[i], px[i + 1], px[i + 2]]);
}

// ------------------------------------------------------------------------------- TGA

/// RGB triples in file order B, G, R.
pub open spec fn bgr(data: Seq<u8>) -> Seq<u8>
    decreases data.len(),
{
    if data.len() < 3 {
        seq![]
    } else {
        seq![data[2], data[1], data[0]] + bgr(data.skip(3))
    }
}

/// Uncompressed 24-bit TGA (top-left origin) of an RGB raster: the 12-byte header of image
/// type 2, width and height (little-endian, 16 bit), 24 bits per pixel, descriptor `0x20`,
/// then the pixels as B, G, R.
pub open spec fn tga_rgb_spec(width: usize, height: usize, data: Seq<u8>) -> Seq<u8> {
    seq![0u8, 0, 2, 0, 0, 0, 0, 0, 0, 0, 0, 0] + le16(width as u16) + le16(height as u16) + seq![
        24u8,
        0x20,
    ] + bgr(data)
}

fn push_header(out: &mut Vec<u8>, width: usize, height: usize, bpp: u8, desc: u8)
    ensures
        final(out)@ == old(out)@ + seq![0u8, 0, 2, 0, 0, 0, 0, 0, 0, 0, 0, 0] + le16(width as u16)
            + le16(height as u16) + seq![bpp, desc],
{
    let ghost start = out@;
    out.push(0);
    out.push(0);
    out.push(2);
    let mut k: usize = 0;
    while k < 9
        invariant
            k <= 9,
            out@ == start + seq![0u8, 0, 2] + Seq::new(k as nat, |i: int| 0u8),
        decreases 9 - k,
    {
        out.push(0);
        k = k + 1;
        assert(out@ =~= start + seq![0u8, 0, 2] + Seq::new(k as nat, |i: int| 0u8));
    }
    push_le16(out, width as u16);
    push_le16(out, height as u16);
    out.push(bpp);
    out.push(desc);
    assert(out@ =~= start + seq![0u8, 0, 2, 0, 0, 0, 0, 0, 0, 0, 0, 0] + le16(width as u16) + le16(
        height as u16,
    ) + seq![bpp, desc]);
}

impl Rgb {
    /// The image as an uncompressed 24-bit TGA file (the input format for macOS `sips`).
    pub fn tga(&self) -> (r: Vec<u8>)
        requires
            self.data@.len() % 3 == 0,
        ensures
            r@ == tga_rgb_spec(self.width, self.height, self.data@),
    {
        let mut out: Vec<u8> = Vec::new();
        push_header(&mut out, self.width, self.height, 24, 0x20);
        let ghost head = out@;
        let d = self.data.as_slice();
        let mut i: usize = 0;
        assert(d@.skip(0) =~= d@);
        while i < d.len()
            invariant
                i <= d.len(),
                d@.len() % 3 == 0,
                i % 3 == 0,
                head + bgr(d@) == out@ + bgr(d@.skip(i as int)),
            decreases d.len() - i,
        {
            let ghost tail = d@.skip(i as int);
            let ghost before = out@;
            out.push(d[i + 2]);
            out.push(d[i + 1]);
            out.push(d[i]);
            proof {
                assert(tail.skip(3) =~= d@.skip(i + 3));
                assert(out@ + bgr(d@.skip(i + 3)) =~= before + bgr(tail));
            }
            i = i + 3;
        }
        assert(d@.skip(i as int) =~= Seq::<u8>::empty());
        assert(out@ =~= out@ + bgr(Seq::<u8>::empty()));
        out
    }
}

/// RGBA quadruples in file order B, G, R, A.
pub open spec fn bgra(px: Seq<u8>) -> Seq<u8>
    decreases px.len(),
{
    if px.len() < 4 {
        seq![]
    } else {
        seq![px[2], px[1], px[0], px[3]] + bgra(px.skip(4))
    }
}

/// Uncompressed 32-bit TGA (8 alpha bits, top-left origin) of an RGBA raster.
pub open spec fn tga_rgba_spec(width: usize, height: usize, rgba: Seq<u8>) -> Seq<u8> {
    seq![0u8, 0, 2, 0, 0, 0, 0, 0, 0, 0, 0, 0] + le16(width as u16) + le16(height as u16) + seq![
        32u8,
        0x28,
    ] + bgra(rgba)
}

/// `rgba` (`width * height` pixels, four bytes each) as an uncompressed 32-bit TGA file.
pub fn tga_rgba(width: usize, height: usize, rgba: &[u8]) -> (r: Vec<u8>)
    requires
        rgba@.len() % 4 == 0,
    ensures
        r@ == tga_rgba_spec(width, height, rgba@),
{
    let mut out: Vec<u8> = Vec::new();
    push_header(&mut out, width, height, 32, 0x28);
    let ghost head = out@;
    let mut i: usize = 0;
    assert(rgba@.skip(0) =~= rgba@);
    while i < rgba.len()
        invariant
            i <= rgba.len(),
            rgba@.len() % 4 == 0,
            i % 4 == 0,
            head + bgra(rgba@) == out@ + bgra(rgba@.skip(i as int)),
        decreases rgba.len() - i,
    {
        let ghost tail = rgba@.skip(i as int);
        let ghost before = out@;
        out.push(rgba[i + 2]);
        out.push(rgba[i + 1]);
        out.push(rgba[i]);
        out.push(rgba[i + 3]);
        proof {
            assert(tail.skip(4) =~= rgba@.skip(i + 4));
            assert(out@ + bgra(rgba@.skip(i + 4)) =~= before + bgra(tail));
        }
        i = i + 4;
    }
    assert(rgba@.skip(i as int) =~= Seq::<u8>::empty());
    assert(out@ =~= out@ + bgra(Seq::<u8>::empty()));
    out
}

} // verus!
