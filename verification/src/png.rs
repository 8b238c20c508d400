//! Square pictures as PNG files, without compression.
//!
//! The pictures are small and the files are written once, so the deflate stream only
//! holds stored blocks. Every decoder reads those.
use vstd::prelude::*;

use crate::icon;

verus! {

// ───────────────────────── numbers as bytes ─────────────────────────

pub open spec fn le16(n: u16) -> Seq<u8> {
    seq![(n % 256) as u8, (n / 256 % 256) as u8]
}

pub open spec fn le32(n: u32) -> Seq<u8> {
    seq![
        (n % 256) as u8,
        (n / 0x100 % 256) as u8,
        (n / 0x1_0000 % 256) as u8,
        (n / 0x100_0000 % 256) as u8,
    ]
}

pub open spec fn be32(n: u32) -> Seq<u8> {
    seq![
        (n / 0x100_0000 % 256) as u8,
        (n / 0x1_0000 % 256) as u8,
        (n / 0x100 % 256) as u8,
        (n % 256) as u8,
    ]
}

pub fn push_le16(out: &mut Vec<u8>, n: u16)
    ensures
        final(out)@ == old(out)@ + le16(n),
{
    out.push((n % 256) as u8);
    out.push((n / 256) as u8);
}

pub fn push_le32(out: &mut Vec<u8>, n: u32)
    ensures
        final(out)@ == old(out)@ + le32(n),
{
    out.push((n % 256) as u8);
    out.push((n / 0x100 % 256) as u8);
    out.push((n / 0x1_0000 % 256) as u8);
    out.push((n / 0x100_0000) as u8);
}

fn push_be32(out: &mut Vec<u8>, n: u32)
    ensures
        final(out)@ == old(out)@ + be32(n),
{
    out.push((n / 0x100_0000) as u8);
    out.push((n / 0x1_0000 % 256) as u8);
    out.push((n / 0x100 % 256) as u8);
    out.push((n % 256) as u8);
}

pub fn push_all(out: &mut Vec<u8>, data: &[u8])
    ensures
        final(out)@ == old(out)@ + data@,
{
    let mut i: usize = 0;
    while i < data.len()
        invariant
            i <= data@.len(),
            out@ == old(out)@ + data@.take(i as int),
        decreases data@.len() - i,
    {
        out.push(data[i]);
        i = i + 1;
        assert(data@.take(i as int) == data@.take(i - 1).push(data@[i - 1]));
    }
    assert(data@.take(i as int) == data@);
}

// ───────────────────────── checksums ─────────────────────────

/// The reflected polynomial of the checksum of PNG chunks.
pub const CRC_POLYNOMIAL: u32 = 0xEDB8_8320;

/// One step of the division: the lowest bit decides whether the polynomial is taken off.
pub open spec fn crc_shift(c: u32) -> u32 {
    if c % 2 == 1 {
        (c / 2) ^ CRC_POLYNOMIAL
    } else {
        c / 2
    }
}

pub open spec fn crc_shifts(c: u32, n: nat) -> u32
    decreases n,
{
    if n == 0 {
        c
    } else {
        crc_shift(crc_shifts(c, (n - 1) as nat))
    }
}

/// The remainder after the bytes of `data`, before it is inverted.
pub open spec fn crc_state(data: Seq<u8>) -> u32
    decreases data.len(),
{
    if data.len() == 0 {
        0xFFFF_FFFF
    } else {
        crc_shifts(crc_state(data.drop_last()) ^ (data.last() as u32), 8)
    }
}

/// The checksum of a PNG chunk.
pub open spec fn crc(data: Seq<u8>) -> u32 {
    !crc_state(data)
}

/// The two running sums of Adler-32: of the bytes, starting at one, and of the first sum.
pub open spec fn adler_sums(data: Seq<u8>) -> (int, int)
    decreases data.len(),
{
    if data.len() == 0 {
        (1, 0)
    } else {
        let (a, b) = adler_sums(data.drop_last());
        let a = (a + data.last()) % 65521;
        (a, (b + a) % 65521)
    }
}

/// The checksum of a zlib stream.
pub open spec fn adler(data: Seq<u8>) -> int {
    adler_sums(data).1 * 0x1_0000 + adler_sums(data).0
}

pub fn crc32(data: &[u8]) -> (r: u32)
    ensures
        r == crc(data@),
{
    let mut state: u32 = 0xFFFF_FFFF;
    let mut i: usize = 0;
    while i < data.len()
        invariant
            i <= data@.len(),
            state == crc_state(data@.take(i as int)),
        decreases data@.len() - i,
    {
        let start: u32 = state ^ (data[i] as u32);
        let mut c: u32 = start;
        let mut k: u8 = 0;
        while k < 8
            invariant
                k <= 8,
                c == crc_shifts(start, k as nat),
            decreases 8 - k,
        {
            if c % 2 == 1 {
                c = (c / 2) ^ CRC_POLYNOMIAL;
            } else {
                c = c / 2;
            }
            k = k + 1;
        }
        state = c;
        i = i + 1;
        assert(data@.take(i as int).drop_last() == data@.take(i - 1));
    }
    assert(data@.take(i as int) == data@);
    !state
}

pub fn adler32(data: &[u8]) -> (r: u32)
    ensures
        r == adler(data@),
{
    let mut a: u32 = 1;
    let mut b: u32 = 0;
    let mut i: usize = 0;
    while i < data.len()
        invariant
            i <= data@.len(),
            (a as int, b as int) == adler_sums(data@.take(i as int)),
            a < 65521,
            b < 65521,
        decreases data@.len() - i,
    {
        a = (a + data[i] as u32) % 65521;
        b = (b + a) % 65521;
        i = i + 1;
        assert(data@.take(i as int).drop_last() == data@.take(i - 1));
    }
    assert(data@.take(i as int) == data@);
    b * 0x1_0000 + a
}

// ───────────────────────── stored deflate blocks ─────────────────────────

/// The most that one stored block can hold.
pub const BLOCK: usize = 0xFFFF;

/// One stored block: whether it is the last, its length, the complement of that, and
/// the bytes.
pub open spec fn block(last: bool, data: Seq<u8>) -> Seq<u8> {
    seq![if last { 1u8 } else { 0u8 }] + le16(data.len() as u16) + le16((65535 - data.len()) as u16) + data
}

/// The bytes cut into stored blocks. There is always at least one.
pub open spec fn blocks(data: Seq<u8>) -> Seq<u8>
    decreases data.len(),
{
    if data.len() <= 0xFFFF {
        block(true, data)
    } else {
        block(false, data.take(0xFFFF)) + blocks(data.skip(0xFFFF))
    }
}

/// A zlib stream that holds the bytes uncompressed.
pub open spec fn zlib(data: Seq<u8>) -> Seq<u8> {
    seq![0x78u8, 0x01u8] + blocks(data) + be32(adler(data) as u32)
}

pub fn zlib_stored(data: &[u8]) -> (out: Vec<u8>)
    ensures
        out@ == zlib(data@),
{
    let mut out: Vec<u8> = vec![0x78, 0x01];
    let mut i: usize = 0;
    assert(data@.skip(0) == data@);
    while data.len() - i > BLOCK
        invariant
            i <= data@.len(),
            out@ + blocks(data@.skip(i as int)) == seq![0x78u8, 0x01u8] + blocks(data@),
        decreases data@.len() - i,
    {
        let ghost rest = data@.skip(i as int);
        out.push(0);
        push_le16(&mut out, 0xFFFF);
        push_le16(&mut out, 0);
        let part = vstd::slice::slice_subrange(data, i, i + BLOCK);
        push_all(&mut out, part);
        i = i + BLOCK;
        assert(rest.take(0xFFFF) == part@);
        assert(rest.skip(0xFFFF) == data@.skip(i as int));
        assert(out@ + blocks(data@.skip(i as int)) == seq![0x78u8, 0x01u8] + blocks(data@));
    }
    let part = vstd::slice::slice_subrange(data, i, data.len());
    assert(part@ == data@.skip(i as int));
    out.push(1);
    push_le16(&mut out, (data.len() - i) as u16);
    push_le16(&mut out, 0xFFFF - (data.len() - i) as u16);
    push_all(&mut out, part);
    assert(out@ == seq![0x78u8, 0x01u8] + blocks(data@));
    push_be32(&mut out, adler32(data));
    out
}

proof fn lemma_le16(n: u16)
    ensures
        le16(n)[0] + 256 * le16(n)[1] == n,
{
}

/// Reads stored blocks back: the bytes they hold, and what follows the last one.
pub open spec fn unstored(z: Seq<u8>) -> Option<(Seq<u8>, Seq<u8>)>
    decreases z.len(),
{
    if z.len() < 5 {
        None
    } else {
        let n = z[1] + 256 * z[2];
        let m = z[3] + 256 * z[4];
        if z[0] > 1 || n + m != 65535 || z.len() < 5 + n {
            None
        } else {
            let data = z.subrange(5, 5 + n);
            let rest = z.skip(5 + n);
            if z[0] == 1 {
                Some((data, rest))
            } else {
                match unstored(rest) {
                    Some((more, tail)) => Some((data + more, tail)),
                    None => None,
                }
            }
        }
    }
}

/// The parts of a block, whatever follows.
proof fn lemma_block(last: bool, data: Seq<u8>, rest: Seq<u8>)
    requires
        data.len() <= 0xFFFF,
    ensures
        ({
            let z = block(last, data) + rest;
            let n = z[1] + 256 * z[2];
            &&& z.len() == 5 + data.len() + rest.len()
            &&& z[0] == if last { 1u8 } else { 0u8 }
            &&& n == data.len()
            &&& z[3] + 256 * z[4] == 65535 - n
            &&& z.subrange(5, 5 + n) == data
            &&& z.skip(5 + n) == rest
        }),
{
    let z = block(last, data) + rest;
    let n = data.len() as u16;
    let m = (65535 - data.len()) as u16;
    lemma_le16(n);
    lemma_le16(m);
    assert(z[1] == le16(n)[0] && z[2] == le16(n)[1]);
    assert(z[3] == le16(m)[0] && z[4] == le16(m)[1]);
    assert(z.subrange(5, 5 + data.len() as int) == data);
    assert(z.skip(5 + data.len() as int) == rest);
}

/// What was put into stored blocks comes out of them again, whatever follows.
pub proof fn law_stored_blocks_read_back(data: Seq<u8>, tail: Seq<u8>)
    ensures
        unstored(blocks(data) + tail) == Some((data, tail)),
    decreases data.len(),
{
    if data.len() <= 0xFFFF {
        lemma_block(true, data, tail);
    } else {
        let head = data.take(0xFFFF);
        let more = data.skip(0xFFFF);
        law_stored_blocks_read_back(more, tail);
        lemma_block(false, head, blocks(more) + tail);
        assert(blocks(data) + tail == block(false, head) + (blocks(more) + tail));
        assert(head + more == data);
    }
}

// ───────────────────────── PNG ─────────────────────────

/// A channel of a premultiplied pixel as it was before, rounded to the nearest; nothing
/// is left of the colour where the pixel is transparent.
pub open spec fn unscaled(c: int, a: int) -> int {
    if a == 0 {
        0
    } else {
        icon::at_most((c * 255 + a / 2) / a, 255)
    }
}

/// A pixel as PNG stores it: red, green, blue, alpha, not premultiplied.
pub open spec fn straight(p: u32) -> Seq<u8> {
    let a = icon::alpha_of(p);
    seq![
        unscaled(icon::red_of(p), a) as u8,
        unscaled(icon::green_of(p), a) as u8,
        unscaled(icon::blue_of(p), a) as u8,
        a as u8,
    ]
}

/// The bytes of the first `n` pixels of a row.
pub open spec fn row(px: Seq<u32>, start: int, n: nat) -> Seq<u8>
    decreases n,
{
    if n == 0 {
        Seq::empty()
    } else {
        row(px, start, (n - 1) as nat) + straight(px[start + n - 1])
    }
}

/// The first `n` rows, each behind the byte that says that it is not filtered.
pub open spec fn scan_lines(px: Seq<u32>, size: nat, n: nat) -> Seq<u8>
    decreases n,
{
    if n == 0 {
        Seq::empty()
    } else {
        scan_lines(px, size, (n - 1) as nat) + seq![0u8] + row(px, (n - 1) * size, size)
    }
}

/// A PNG chunk: its length, its kind, its data, and the checksum of both.
pub open spec fn chunk(kind: Seq<u8>, data: Seq<u8>) -> Seq<u8> {
    be32(data.len() as u32) + kind + data + be32(crc(kind + data))
}

pub open spec fn signature() -> Seq<u8> {
    seq![0x89u8, 0x50u8, 0x4Eu8, 0x47u8, 0x0Du8, 0x0Au8, 0x1Au8, 0x0Au8]
}

/// Width, height, eight bits a channel, four channels, and the standard methods.
pub open spec fn header(size: int) -> Seq<u8> {
    be32(size as u32) + be32(size as u32) + seq![8u8, 6u8, 0u8, 0u8, 0u8]
}

/// The kind of the chunk with the header: `IHDR`.
pub open spec fn ihdr() -> Seq<u8> {
    seq![0x49u8, 0x48u8, 0x44u8, 0x52u8]
}

/// The kind of the chunk with the pixels: `IDAT`.
pub open spec fn idat() -> Seq<u8> {
    seq![0x49u8, 0x44u8, 0x41u8, 0x54u8]
}

/// The kind of the chunk at the end: `IEND`.
pub open spec fn iend() -> Seq<u8> {
    seq![0x49u8, 0x45u8, 0x4Eu8, 0x44u8]
}

/// A square picture as an uncompressed PNG.
pub open spec fn png(size: nat, px: Seq<u32>) -> Seq<u8> {
    signature() + chunk(ihdr(), header(size as int)) + chunk(
        idat(),
        zlib(scan_lines(px, size, size)),
    ) + chunk(iend(), Seq::empty())
}

/// An opaque pixel keeps its colour.
pub proof fn law_opaque_pixels_keep_their_colour(p: u32)
    requires
        icon::alpha_of(p) == 255,
    ensures
        straight(p) == seq![
            icon::red_of(p) as u8,
            icon::green_of(p) as u8,
            icon::blue_of(p) as u8,
            255u8,
        ],
{
}

fn unscale(c: u32, a: u32) -> (r: u8)
    requires
        c <= 255,
        a <= 255,
    ensures
        r == unscaled(c as int, a as int),
{
    if a == 0 {
        0
    } else {
        let n: u32 = (c * 255 + a / 2) / a;
        if n < 255 {
            n as u8
        } else {
            255
        }
    }
}

fn png_chunk(out: &mut Vec<u8>, kind: &[u8; 4], data: &[u8])
    ensures
        final(out)@ == old(out)@ + chunk(kind@, data@),
{
    let mut body: Vec<u8> = Vec::new();
    push_all(&mut body, kind.as_slice());
    push_all(&mut body, data);
    push_be32(out, data.len() as u32);
    push_all(out, body.as_slice());
    push_be32(out, crc32(body.as_slice()));
}

/// A square picture, rows from the top, as a PNG file.
pub fn encode_png_rgba(size: usize, px: &[u32]) -> (out: Vec<u8>)
    requires
        size * size <= px@.len(),
    ensures
        out@ == png(size as nat, px@),
{
    let total: usize = px.len();
    let mut raw: Vec<u8> = Vec::new();
    let mut y: usize = 0;
    while y < size
        invariant
            y <= size,
            size * size <= total == px@.len(),
            raw@ == scan_lines(px@, size as nat, y as nat),
        decreases size - y,
    {
        assert(y * size + size <= size * size) by (nonlinear_arith)
            requires
                0 <= y < size,
        ;
        assert(0 <= y * size) by (nonlinear_arith)
            requires
                0 <= y < size,
        ;
        let ghost before = raw@;
        raw.push(0);
        let mut x: usize = 0;
        while x < size
            invariant
                x <= size,
                y < size,
                0 <= y * size,
                y * size + size <= size * size <= total == px@.len(),
                raw@ == before + seq![0u8] + row(px@, y * size, x as nat),
            decreases size - x,
        {
            let p: u32 = px[y * size + x];
            let a: u32 = p / 0x100_0000;
            let ghost done = raw@;
            raw.push(unscale(p / 0x1_0000 % 256, a));
            raw.push(unscale(p / 0x100 % 256, a));
            raw.push(unscale(p % 256, a));
            raw.push(a as u8);
            assert(raw@ == done + straight(p));
            x = x + 1;
        }
        y = y + 1;
    }
    let mut out: Vec<u8> = vec![0x89, 0x50, 0x4E, 0x47, 0x0D, 0x0A, 0x1A, 0x0A];
    let mut head: Vec<u8> = Vec::new();
    push_be32(&mut head, size as u32);
    push_be32(&mut head, size as u32);
    head.push(8);
    head.push(6);
    head.push(0);
    head.push(0);
    head.push(0);
    assert(head@ == header(size as int));
    assert(out@ == signature());
    let kind: [u8; 4] = [0x49, 0x48, 0x44, 0x52];
    assert(kind@ == ihdr());
    png_chunk(&mut out, &kind, head.as_slice());
    let kind: [u8; 4] = [0x49, 0x44, 0x41, 0x54];
    assert(kind@ == idat());
    let stream: Vec<u8> = zlib_stored(raw.as_slice());
    png_chunk(&mut out, &kind, stream.as_slice());
    let kind: [u8; 4] = [0x49, 0x45, 0x4E, 0x44];
    assert(kind@ == iend());
    let nothing: Vec<u8> = Vec::new();
    png_chunk(&mut out, &kind, nothing.as_slice());
    out
}

pub proof fn lemma_row_length(px: Seq<u32>, start: int, n: nat)
    ensures
        row(px, start, n).len() == 4 * n,
    decreases n,
{
    if n > 0 {
        lemma_row_length(px, start, (n - 1) as nat);
    }
}

pub proof fn lemma_scan_length(px: Seq<u32>, size: nat, n: nat)
    ensures
        scan_lines(px, size, n).len() == n * (1 + 4 * size),
    decreases n,
{
    if n > 0 {
        let k = (n - 1) as nat;
        lemma_scan_length(px, size, k);
        lemma_row_length(px, (n - 1) * size, size);
        assert(n * (1 + 4 * size) == k * (1 + 4 * size) + 1 + 4 * size) by (nonlinear_arith)
            requires
                n == k + 1,
        ;
    } else {
        assert(0 * (1 + 4 * size) == 0) by (nonlinear_arith);
    }
}

/// How long a file is whose rows fit into one stored block.
pub proof fn lemma_png_length(size: nat, px: Seq<u32>)
    requires
        size <= 64,
    ensures
        png(size, px).len() == size * (1 + 4 * size) + 68,
        size * (1 + 4 * size) <= 16448,
{
    lemma_scan_length(px, size, size);
    assert(size * (1 + 4 * size) <= 16448) by (nonlinear_arith)
        requires
            0 <= size <= 64,
    ;
}

} // verus!
