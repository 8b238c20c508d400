//! A picture that was written as a PNG file reads back.
use vstd::prelude::*;

use crate::icon;
use crate::icon_laws;
use crate::png;

verus! {

// ───────────────────────── reading a file ─────────────────────────

/// The number of four bytes from `i` on, the highest first.
pub open spec fn be_at(s: Seq<u8>, i: int) -> int {
    s[i] * 0x100_0000 + s[i + 1] * 0x1_0000 + s[i + 2] * 0x100 + s[i + 3]
}

/// The data of the chunk of a kind that begins at `i`, and where it ends. There is none
/// where the file is too short, the kind is another, or the checksum is wrong.
#[verifier::opaque]
pub open spec fn chunk_at(file: Seq<u8>, i: int, kind: Seq<u8>) -> Option<(Seq<u8>, int)> {
    let n = be_at(file, i);
    let end = i + 12 + n;
    if file.len() < i + 12 || file.len() < end || file.subrange(i + 4, i + 8) != kind || be_at(
        file,
        end - 4,
    ) != png::crc(file.subrange(i + 4, end - 4)) {
        None
    } else {
        Some((file.subrange(i + 8, end - 4), end))
    }
}

/// What a zlib stream of stored blocks holds. There is nothing where its header or its
/// checksum is wrong.
pub open spec fn inflated(z: Seq<u8>) -> Option<Seq<u8>> {
    if z.len() < 2 || z[0] != 0x78 || z[1] != 0x01 {
        None
    } else {
        match png::unstored(z.skip(2)) {
            Some((data, tail)) => if tail.len() == 4 && be_at(tail, 0) == png::adler(data) {
                Some(data)
            } else {
                None
            },
            None => None,
        }
    }
}

/// The side and the scan lines of a square picture with four channels of eight bits,
/// in a file of a header, one data chunk, and an end.
pub open spec fn picture_in(file: Seq<u8>) -> Option<(int, Seq<u8>)> {
    if file.len() < 8 || file.take(8) != png::signature() {
        None
    } else {
        match chunk_at(file, 8, png::ihdr()) {
            Some((head, i)) => match chunk_at(file, i, png::idat()) {
                Some((data, j)) => match chunk_at(file, j, png::iend()) {
                    Some((rest, end)) => if head.len() == 13 && be_at(head, 0) == be_at(head, 4)
                        && head.skip(8) == seq![8u8, 6u8, 0u8, 0u8, 0u8] && rest.len() == 0 && end
                        == file.len() && inflated(data) is Some {
                        Some((be_at(head, 0), inflated(data)->0))
                    } else {
                        None
                    },
                    None => None,
                },
                None => None,
            },
            None => None,
        }
    }
}

/// A pixel in scan lines: red, green, blue, alpha.
pub open spec fn pixel_at(lines: Seq<u8>, size: int, x: int, y: int) -> Seq<u8> {
    let at = y * (1 + 4 * size) + 1 + 4 * x;
    lines.subrange(at, at + 4)
}

/// The premultiplied pixel that four channels stand for.
pub open spec fn pixel_of(c: Seq<u8>) -> int {
    icon::premultiplied((c[0], c[1], c[2]), c[3] as int)
}

// ───────────────────────── one pixel ─────────────────────────

/// Taking a channel apart from its alpha and putting it back loses nothing.
proof fn lemma_channel_reads_back(c: int, a: int)
    requires
        0 <= c <= a <= 255,
    ensures
        0 <= png::unscaled(c, a) <= 255,
        icon::scaled(png::unscaled(c, a), a) == c,
{
    if a > 0 {
        let n = c * 255 + a / 2;
        let v = n / a;
        assert(v * a <= n < v * a + a) by (nonlinear_arith)
            requires
                v == n / a,
                a > 0,
        ;
        assert(0 <= v <= 255) by (nonlinear_arith)
            requires
                v * a <= n < v * a + a,
                n == c * 255 + a / 2,
                0 <= c <= a,
                0 < a,
        ;
    } else {
        assert(0 * a == 0) by (nonlinear_arith);
    }
}

/// A premultiplied pixel can be told from the four channels that are stored of it; one
/// that is transparent has no colour left.
pub proof fn law_pixels_read_back(p: u32)
    requires
        icon_laws::is_premultiplied(p),
    ensures
        pixel_of(png::straight(p)) == p,
        png::straight(p)[3] == icon::alpha_of(p),
        icon::alpha_of(p) == 0 ==> png::straight(p) == seq![0u8, 0u8, 0u8, 0u8],
{
    icon::lemma_unpack(p);
    let a = icon::alpha_of(p);
    lemma_channel_reads_back(icon::red_of(p), a);
    lemma_channel_reads_back(icon::green_of(p), a);
    lemma_channel_reads_back(icon::blue_of(p), a);
}

// ───────────────────────── scan lines ─────────────────────────

proof fn lemma_row_pixel(px: Seq<u32>, start: int, n: nat, x: int)
    requires
        0 <= x < n,
    ensures
        png::row(px, start, n).len() == 4 * n,
        png::row(px, start, n).subrange(4 * x, 4 * x + 4) == png::straight(px[start + x]),
    decreases n,
{
    png::lemma_row_length(px, start, n);
    let before = png::row(px, start, (n - 1) as nat);
    png::lemma_row_length(px, start, (n - 1) as nat);
    if x < n - 1 {
        lemma_row_pixel(px, start, (n - 1) as nat, x);
        assert(png::row(px, start, n).subrange(4 * x, 4 * x + 4) == before.subrange(
            4 * x,
            4 * x + 4,
        ));
    } else {
        assert(png::row(px, start, n).subrange(4 * x, 4 * x + 4) == png::straight(px[start + x]));
    }
}

proof fn lemma_line(px: Seq<u32>, size: nat, n: nat, y: int)
    requires
        0 <= y < n,
    ensures
        ({
            let w = 1 + 4 * size;
            &&& 0 <= y * w
            &&& y * w + w <= png::scan_lines(px, size, n).len()
            &&& png::scan_lines(px, size, n).subrange(y * w, y * w + w) == seq![0u8] + png::row(
                px,
                y * size,
                size,
            )
        }),
    decreases n,
{
    let w = 1 + 4 * size;
    let m = (n - 1) as nat;
    let (before, all) = (png::scan_lines(px, size, m), png::scan_lines(px, size, n));
    png::lemma_scan_length(px, size, m);
    png::lemma_scan_length(px, size, n);
    png::lemma_row_length(px, (n - 1) * size, size);
    assert(0 <= y * w && y * w + w <= n * w && (y < m ==> y * w + w <= m * w)) by (nonlinear_arith)
        requires
            0 <= y < n,
            m == n - 1,
            w >= 1,
    ;
    if y < m {
        lemma_line(px, size, m, y);
        assert(all.subrange(y * w, y * w + w) == before.subrange(y * w, y * w + w));
    } else {
        assert(all == before + (seq![0u8] + png::row(px, (n - 1) * size, size)));
        assert(all.subrange(y * w, y * w + w) == seq![0u8] + png::row(px, y * size, size));
    }
}

/// The scan lines of a picture hold every pixel at its place, each line behind the byte
/// that says that it is not filtered.
proof fn lemma_pixels(px: Seq<u32>, size: nat, x: int, y: int)
    requires
        0 <= x < size,
        0 <= y < size,
    ensures
        png::scan_lines(px, size, size)[y * (1 + 4 * size)] == 0,
        pixel_at(png::scan_lines(px, size, size), size as int, x, y) == png::straight(
            px[y * size + x],
        ),
{
    let w = 1 + 4 * size;
    let all = png::scan_lines(px, size, size);
    lemma_line(px, size, size, y);
    lemma_row_pixel(px, y * size, size, x);
    let line = all.subrange(y * w, y * w + w);
    assert(line[0] == all[y * w]);
    assert(line.subrange(1 + 4 * x, 5 + 4 * x) == png::row(px, y * size, size).subrange(
        4 * x,
        4 * x + 4,
    ));
    assert(pixel_at(all, size as int, x, y) == line.subrange(1 + 4 * x, 5 + 4 * x));
}

// ───────────────────────── the file ─────────────────────────

proof fn lemma_be32(n: u32)
    ensures
        png::be32(n).len() == 4,
        be_at(png::be32(n), 0) == n,
{
    let (a, b, c, d) = (n / 0x100_0000, n / 0x1_0000 % 256, n / 0x100 % 256, n % 256);
    assert(n / 0x100 == a * 0x1_0000 + b * 0x100 + c);
    assert(n == a * 0x100_0000 + b * 0x1_0000 + c * 0x100 + d);
    assert(a < 256);
    let s = png::be32(n);
    assert(s[0] == a && s[1] == b && s[2] == c && s[3] == d);
}

/// The four bytes of a number, wherever they stand.
proof fn lemma_be_at(a: Seq<u8>, n: u32, b: Seq<u8>)
    ensures
        be_at(a + png::be32(n) + b, a.len() as int) == n,
{
    lemma_be32(n);
    let s = a + png::be32(n) + b;
    let i = a.len() as int;
    assert(s[i] == png::be32(n)[0]);
    assert(s[i + 1] == png::be32(n)[1]);
    assert(s[i + 2] == png::be32(n)[2]);
    assert(s[i + 3] == png::be32(n)[3]);
}

/// A chunk reads back, whatever stands before and behind it.
proof fn lemma_chunk(a: Seq<u8>, kind: Seq<u8>, data: Seq<u8>, b: Seq<u8>)
    requires
        kind.len() == 4,
        data.len() <= u32::MAX,
    ensures
        chunk_at(a + png::chunk(kind, data) + b, a.len() as int, kind) == Some(
            (data, (a.len() + 12 + data.len()) as int),
        ),
        png::chunk(kind, data).len() == 12 + data.len(),
{
    reveal(chunk_at);
    let n = data.len() as u32;
    let c = png::crc(kind + data);
    let file = a + png::chunk(kind, data) + b;
    let i = a.len() as int;
    let end = i + 12 + data.len();
    lemma_be32(n);
    lemma_be32(c);
    assert(file == a + png::be32(n) + (kind + data + png::be32(c) + b));
    lemma_be_at(a, n, kind + data + png::be32(c) + b);
    assert(file == (a + png::be32(n) + kind + data) + png::be32(c) + b);
    lemma_be_at(a + png::be32(n) + kind + data, c, b);
    assert(file.subrange(i + 4, i + 8) == kind);
    assert(file.subrange(i + 8, end - 4) == data);
    assert(file.subrange(i + 4, end - 4) == kind + data);
}

proof fn lemma_adler(data: Seq<u8>)
    ensures
        0 <= png::adler(data) <= u32::MAX,
{
}

proof fn lemma_zlib(data: Seq<u8>)
    ensures
        inflated(png::zlib(data)) == Some(data),
        png::zlib(data).len() >= data.len(),
{
    let z = png::zlib(data);
    let tail = png::be32(png::adler(data) as u32);
    lemma_adler(data);
    lemma_be32(png::adler(data) as u32);
    assert(z.skip(2) == png::blocks(data) + tail);
    png::law_stored_blocks_read_back(data, tail);
    lemma_blocks_hold(data);
}

proof fn lemma_blocks_hold(data: Seq<u8>)
    ensures
        png::blocks(data).len() >= data.len(),
    decreases data.len(),
{
    if data.len() > 0xFFFF {
        lemma_blocks_hold(data.skip(0xFFFF));
    }
}

proof fn lemma_header(size: u32)
    ensures
        png::header(size as int).len() == 13,
        be_at(png::header(size as int), 0) == size,
        be_at(png::header(size as int), 4) == size,
        png::header(size as int).skip(8) == seq![8u8, 6u8, 0u8, 0u8, 0u8],
{
    let b = png::be32(size);
    let tail = seq![8u8, 6u8, 0u8, 0u8, 0u8];
    let head = png::header(size as int);
    lemma_be32(size);
    assert(head == Seq::<u8>::empty() + b + (b + tail));
    lemma_be_at(Seq::empty(), size, b + tail);
    assert(head == b + b + tail);
    lemma_be_at(b, size, tail);
    assert(head.skip(8) == tail);
}

/// The three chunks of a file, one behind the other.
proof fn lemma_chunks(head: Seq<u8>, z: Seq<u8>)
    requires
        head.len() == 13,
        z.len() <= u32::MAX,
    ensures
        ({
            let file = png::signature() + png::chunk(png::ihdr(), head) + png::chunk(
                png::idat(),
                z,
            ) + png::chunk(png::iend(), Seq::empty());
            let i: int = 33 + 12 + z.len() as int;
            &&& file.len() == i + 12
            &&& file.take(8) == png::signature()
            &&& chunk_at(file, 8, png::ihdr()) == Some((head, 33int))
            &&& chunk_at(file, 33, png::idat()) == Some((z, i))
            &&& chunk_at(file, i, png::iend()) == Some((Seq::<u8>::empty(), i + 12))
        }),
{
    let s = png::signature();
    let e = Seq::<u8>::empty();
    let c1 = png::chunk(png::ihdr(), head);
    let c2 = png::chunk(png::idat(), z);
    let c3 = png::chunk(png::iend(), e);
    lemma_regrouped(s, c1, c2, c3);
    lemma_chunk(s, png::ihdr(), head, c2 + c3);
    lemma_chunk(s + c1, png::idat(), z, c3);
    lemma_chunk(s + c1 + c2, png::iend(), e, e);
}

proof fn lemma_regrouped(s: Seq<u8>, a: Seq<u8>, b: Seq<u8>, c: Seq<u8>)
    ensures
        s + a + b + c == s + a + (b + c),
        s + a + b + c == (s + a + b) + c + Seq::<u8>::empty(),
        (s + a + b + c).take(s.len() as int) == s,
        (s + a + b + c).len() == s.len() + a.len() + b.len() + c.len(),
{
    assert(s + a + b + c == s + a + (b + c));
    assert(s + a + b + c == (s + a + b) + c + Seq::<u8>::empty());
    assert((s + a + b + c).take(s.len() as int) == s);
}

proof fn lemma_file(size: nat, px: Seq<u32>)
    requires
        png::zlib(png::scan_lines(px, size, size)).len() <= u32::MAX,
    ensures
        picture_in(png::png(size, px)) == Some((size as int, png::scan_lines(px, size, size))),
        png::scan_lines(px, size, size).len() == size * (1 + 4 * size),
{
    let lines = png::scan_lines(px, size, size);
    png::lemma_scan_length(px, size, size);
    lemma_zlib(lines);
    assert(size <= size * (1 + 4 * size)) by (nonlinear_arith);
    lemma_header(size as u32);
    lemma_chunks(png::header(size as int), png::zlib(lines));
}

/// Whether the pixel at a place reads back: its line is not filtered, its four channels
/// are those that are stored of it, and if it is premultiplied it follows from them.
pub open spec fn reads_back(lines: Seq<u8>, size: int, px: Seq<u32>, x: int, y: int) -> bool {
    let c = pixel_at(lines, size, x, y);
    let p = px[y * size + x];
    &&& lines[y * (1 + 4 * size)] == 0
    &&& c == png::straight(p)
    &&& icon_laws::is_premultiplied(p) ==> pixel_of(c) == p && c[3] == icon::alpha_of(p)
}

proof fn lemma_reads_back(px: Seq<u32>, size: nat, x: int, y: int)
    requires
        0 <= x < size,
        0 <= y < size,
    ensures
        reads_back(png::scan_lines(px, size, size), size as int, px, x, y),
{
    lemma_pixels(px, size, x, y);
    let p = px[y * size + x];
    if icon_laws::is_premultiplied(p) {
        law_pixels_read_back(p);
    }
}

/// A picture that is written as a file reads back: the file is sound, its checksums are
/// right, it gives the side, and every pixel reads back from its place. The data has to
/// be short enough for the length of its chunk to be written.
pub proof fn law_pictures_read_back(size: nat, px: Seq<u32>)
    requires
        png::zlib(png::scan_lines(px, size, size)).len() <= u32::MAX,
    ensures
        ({
            let lines = png::scan_lines(px, size, size);
            &&& picture_in(png::png(size, px)) == Some((size as int, lines))
            &&& lines.len() == size * (1 + 4 * size)
            &&& forall|x: int, y: int|
                0 <= x < size && 0 <= y < size ==> #[trigger] reads_back(
                    lines,
                    size as int,
                    px,
                    x,
                    y,
                )
        }),
{
    lemma_file(size, px);
    assert forall|x: int, y: int| 0 <= x < size && 0 <= y < size implies #[trigger] reads_back(
        png::scan_lines(px, size, size),
        size as int,
        px,
        x,
        y,
    ) by {
        lemma_reads_back(px, size, x, y);
    }
}

// ───────────────────────── checksums ─────────────────────────

/// The sums of a checksum go on from byte to byte: the first adds the bytes, the second adds
/// the first, and both stay below their modulus.
pub proof fn law_adler_adds_bytes(data: Seq<u8>, next: u8)
    ensures
        ({
            let (a, b) = png::adler_sums(data);
            let (c, d) = png::adler_sums(data.push(next));
            &&& c == (a + next) % 65521
            &&& d == (b + c) % 65521
        }),
        png::adler(data) == png::adler_sums(data).1 * 65536 + png::adler_sums(data).0,
        png::adler(Seq::empty()) == 1,
{
    assert(data.push(next).drop_last() == data);
}

/// A byte goes into the remainder and is shifted out, and every bit that falls out takes the
/// divisor off.
pub proof fn law_crc_divides(data: Seq<u8>, next: u8, c: u32, n: nat)
    ensures
        png::crc_state(data.push(next)) == png::crc_shifts(
            png::crc_state(data) ^ (next as u32),
            8,
        ),
        png::crc_shifts(c, n + 1) == png::crc_shift(png::crc_shifts(c, n)),
        png::crc_shifts(c, 0) == c,
        c % 2 == 0 ==> png::crc_shift(c) * 2 == c,
        c % 2 == 1 ==> png::crc_shift(c) == (c / 2) ^ 0xEDB8_8320u32,
        png::crc(data) == !png::crc_state(data),
        png::crc_state(Seq::empty()) == 0xFFFF_FFFF,
{
    assert(data.push(next).drop_last() == data);
}

} // verus!
