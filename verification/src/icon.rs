//! The tray icon: rasterising it, and encoding it as PNG frames in an `.ico`.
//!
//! A picture is drawn on a grid of 32 by 32 units and scaled as a whole. Pixels are
//! sampled at 16 points each, and the share of points covered is the opacity, so
//! that the alpha channel is right by construction. All geometry is done in
//! thirty-seconds of a pixel, where a grid unit is `size` long: every coordinate is
//! an integer and no test is rounded.
use vstd::prelude::*;

use crate::png;

verus! {

/// What the icon shows.
#[derive(Clone, Copy, Debug, PartialEq, Eq, Structural)]
pub enum Look {
    /// Grey: nothing is held.
    Idle,
    /// Amber: sleep is prevented, the screen may turn off.
    System,
    /// Blue: the screen is kept on, too.
    SystemDisplay,
    /// Blue with a green dot: kept awake by hand.
    Force,
    /// Red with a white slash: paused.
    Paused,
}

/// A colour as red, green, blue.
pub type Rgb = (u8, u8, u8);

pub open spec fn palette_of(look: Look) -> Rgb {
    match look {
        Look::Idle => (160, 160, 160),
        Look::System => (255, 179, 0),
        Look::SystemDisplay | Look::Force => (61, 123, 255),
        Look::Paused => (204, 51, 51),
    }
}

/// The colour of the disc.
pub fn palette(look: Look) -> (r: Rgb)
    ensures
        r == palette_of(look),
{
    match look {
        Look::Idle => (160, 160, 160),
        Look::System => (255, 179, 0),
        Look::SystemDisplay | Look::Force => (61, 123, 255),
        Look::Paused => (204, 51, 51),
    }
}

// ───────────────────────── shapes ─────────────────────────

/// A shape on the 32 by 32 grid.
#[derive(Clone, Copy)]
pub enum Shape {
    /// The points no further than `radius` from a centre.
    Disc { x: u8, y: u8, radius: u8 },
    /// The points no further than `half` from the segment between two points.
    Stroke { ax: u8, ay: u8, bx: u8, by: u8, half: u8 },
}

impl Shape {
    /// Whether the shape lies on the grid.
    pub open spec fn on_grid(self) -> bool {
        match self {
            Shape::Disc { x, y, radius } => x <= 32 && y <= 32 && radius <= 32,
            Shape::Stroke { ax, ay, bx, by, half } => ax <= 32 && ay <= 32 && bx <= 32 && by <= 32
                && half <= 32,
        }
    }
}

pub open spec fn square(n: int) -> int {
    n * n
}

/// The square of the distance between two points.
pub open spec fn distance2(px: int, py: int, qx: int, qy: int) -> int {
    square(px - qx) + square(py - qy)
}

/// Whether a point, in thirty-seconds of a pixel, lies in the shape. The distance to
/// a segment is that to the nearer end where the point lies beyond it, and else the
/// length of the perpendicular, compared without dividing.
pub open spec fn inside(shape: Shape, size: int, px: int, py: int) -> bool {
    match shape {
        Shape::Disc { x, y, radius } => distance2(px, py, x * size, y * size) <= square(
            radius * size,
        ),
        Shape::Stroke { ax, ay, bx, by, half } => {
            let (dx, dy) = ((bx - ax) * size, (by - ay) * size);
            let len2 = square(dx) + square(dy);
            let along = (px - ax * size) * dx + (py - ay * size) * dy;
            let half2 = square(half * size);
            if along <= 0 {
                distance2(px, py, ax * size, ay * size) <= half2
            } else if along >= len2 {
                distance2(px, py, bx * size, by * size) <= half2
            } else {
                distance2(px, py, ax * size, ay * size) * len2 - square(along) <= half2 * len2
            }
        },
    }
}

/// The largest side of an icon; larger ones would not fit into memory.
pub const MAX_SIDE: usize = 0x100_0000;

/// The square of a number that is not too large.
fn squared(n: i128, bound: i128) -> (r: i128)
    requires
        -bound <= n <= bound,
        0 <= bound <= 0x1000_0000_0000_0000,
    ensures
        r == square(n as int),
        0 <= r <= bound * bound,
{
    assert(0 <= n * n <= bound * bound) by (nonlinear_arith)
        requires
            -bound <= n <= bound,
    ;
    assert(bound * bound <= 0x1000_0000_0000_0000 * 0x1000_0000_0000_0000) by (nonlinear_arith)
        requires
            0 <= bound <= 0x1000_0000_0000_0000,
    ;
    n * n
}

fn squared_distance(px: i128, py: i128, qx: i128, qy: i128) -> (r: i128)
    requires
        0 <= px <= 0x2000_0000,
        0 <= py <= 0x2000_0000,
        0 <= qx <= 0x2000_0000,
        0 <= qy <= 0x2000_0000,
    ensures
        r == distance2(px as int, py as int, qx as int, qy as int),
        0 <= r <= 0x1000_0000_0000_0000,
{
    squared(px - qx, 0x2000_0000) + squared(py - qy, 0x2000_0000)
}

/// Whether a point lies in the shape, as `inside` says.
fn is_inside(shape: Shape, size: i128, px: i128, py: i128) -> (r: bool)
    requires
        shape.on_grid(),
        0 <= size <= MAX_SIDE,
        0 <= px <= 32 * size,
        0 <= py <= 32 * size,
    ensures
        r == inside(shape, size as int, px as int, py as int),
{
    match shape {
        Shape::Disc { x, y, radius } => {
            let (x, y, radius) = (x as i128, y as i128, radius as i128);
            assert(0 <= x * size <= 32 * size && 0 <= y * size <= 32 * size && 0 <= radius * size
                <= 32 * size) by (nonlinear_arith)
                requires
                    0 <= x <= 32,
                    0 <= y <= 32,
                    0 <= radius <= 32,
                    0 <= size,
            ;
            squared_distance(px, py, x * size, y * size) <= squared(radius * size, 0x2000_0000)
        },
        Shape::Stroke { ax, ay, bx, by, half } => {
            let (ax, ay, bx, by, half) = (
                ax as i128,
                ay as i128,
                bx as i128,
                by as i128,
                half as i128,
            );
            assert(0 <= ax * size <= 32 * size && 0 <= ay * size <= 32 * size && 0 <= bx * size
                <= 32 * size && 0 <= by * size <= 32 * size && 0 <= half * size <= 32 * size)
                by (nonlinear_arith)
                requires
                    0 <= ax <= 32,
                    0 <= ay <= 32,
                    0 <= bx <= 32,
                    0 <= by <= 32,
                    0 <= half <= 32,
                    0 <= size,
            ;
            assert((bx - ax) * size == bx * size - ax * size) by (nonlinear_arith);
            assert((by - ay) * size == by * size - ay * size) by (nonlinear_arith);
            let dx: i128 = bx * size - ax * size;
            let dy: i128 = by * size - ay * size;
            let len2: i128 = squared(dx, 0x2000_0000) + squared(dy, 0x2000_0000);
            let ex: i128 = px - ax * size;
            let ey: i128 = py - ay * size;
            assert(-0x400_0000_0000_0000 <= ex * dx <= 0x400_0000_0000_0000) by (nonlinear_arith)
                requires
                    -0x2000_0000 <= ex <= 0x2000_0000,
                    -0x2000_0000 <= dx <= 0x2000_0000,
            ;
            assert(-0x400_0000_0000_0000 <= ey * dy <= 0x400_0000_0000_0000) by (nonlinear_arith)
                requires
                    -0x2000_0000 <= ey <= 0x2000_0000,
                    -0x2000_0000 <= dy <= 0x2000_0000,
            ;
            let along: i128 = ex * dx + ey * dy;
            let half2: i128 = squared(half * size, 0x2000_0000);
            if along <= 0 {
                squared_distance(px, py, ax * size, ay * size) <= half2
            } else if along >= len2 {
                squared_distance(px, py, bx * size, by * size) <= half2
            } else {
                let d2: i128 = squared_distance(px, py, ax * size, ay * size);
                assert(0 <= d2 * len2 <= 0x1000_0000_0000_0000 * 0x1000_0000_0000_0000)
                    by (nonlinear_arith)
                    requires
                        0 <= d2 <= 0x1000_0000_0000_0000,
                        0 <= len2 <= 0x1000_0000_0000_0000,
                ;
                assert(0 <= half2 * len2 <= 0x1000_0000_0000_0000 * 0x1000_0000_0000_0000)
                    by (nonlinear_arith)
                    requires
                        0 <= half2 <= 0x1000_0000_0000_0000,
                        0 <= len2 <= 0x1000_0000_0000_0000,
                ;
                d2 * len2 - squared(along, 0x800_0000_0000_0000) <= half2 * len2
            }
        },
    }
}

/// How many of the first `n` sample points of a pixel lie in the shape. A pixel is cut
/// into four by four cells, sampled at their centres.
pub open spec fn hits(shape: Shape, size: int, x: int, y: int, n: nat) -> nat
    decreases n,
{
    if n == 0 {
        0
    } else {
        let k = (n - 1) as nat;
        let inside = inside(shape, size, 32 * x + 8 * (k % 4) + 4, 32 * y + 8 * (k / 4) + 4);
        hits(shape, size, x, y, k) + if inside {
            1nat
        } else {
            0nat
        }
    }
}

/// The opacity of a pixel, of 255: the share of its sample points in the shape.
pub open spec fn coverage(shape: Shape, size: int, x: int, y: int) -> int {
    hits(shape, size, x, y, 16) as int * 255 / 16
}

pub proof fn lemma_hits(shape: Shape, size: int, x: int, y: int, n: nat)
    ensures
        hits(shape, size, x, y, n) <= n,
    decreases n,
{
    if n > 0 {
        lemma_hits(shape, size, x, y, (n - 1) as nat);
    }
}

fn covered(shape: Shape, size: usize, x: usize, y: usize) -> (r: u8)
    requires
        shape.on_grid(),
        size <= MAX_SIDE,
        x < size,
        y < size,
    ensures
        r == coverage(shape, size as int, x as int, y as int),
{
    let mut count: u32 = 0;
    let mut k: u8 = 0;
    while k < 16
        invariant
            k <= 16,
            count == hits(shape, size as int, x as int, y as int, k as nat),
            count <= k,
            shape.on_grid(),
            size <= MAX_SIDE,
            x < size,
            y < size,
        decreases 16 - k,
    {
        let px: i128 = 32 * (x as i128) + 8 * ((k % 4) as i128) + 4;
        let py: i128 = 32 * (y as i128) + 8 * ((k / 4) as i128) + 4;
        if is_inside(shape, size as i128, px, py) {
            count = count + 1;
        }
        k = k + 1;
    }
    (count * 255 / 16) as u8
}

// ───────────────────────── pixels ─────────────────────────

/// A pixel made of its four channels, alpha in the highest byte, then red, green, blue.
/// In little-endian memory this is the order of a 32-bit bitmap.
pub open spec fn pack(a: int, r: int, g: int, b: int) -> int {
    a * 0x100_0000 + r * 0x1_0000 + g * 0x100 + b
}

pub open spec fn alpha_of(p: u32) -> int {
    p as int / 0x100_0000
}

pub open spec fn red_of(p: u32) -> int {
    p as int / 0x1_0000 % 256
}

pub open spec fn green_of(p: u32) -> int {
    p as int / 0x100 % 256
}

pub open spec fn blue_of(p: u32) -> int {
    p as int % 256
}

/// A product of two fractions of 255, rounded to the nearest.
pub open spec fn scaled(c: int, a: int) -> int {
    (c * a + 127) / 255
}

/// A colour at an opacity, each channel scaled by it.
pub open spec fn premultiplied(color: Rgb, a: int) -> int {
    pack(a, scaled(color.0 as int, a), scaled(color.1 as int, a), scaled(color.2 as int, a))
}

pub open spec fn at_most(n: int, limit: int) -> int {
    if n < limit {
        n
    } else {
        limit
    }
}

/// One channel of a pixel laid over another: what the upper one leaves through is the
/// part that its own opacity does not cover.
pub open spec fn blended(s: int, d: int, inv: int) -> int {
    at_most(s + scaled(d, inv), 255)
}

/// A pixel laid over another, both premultiplied.
pub open spec fn laid_over(src: u32, dst: u32) -> int {
    let inv = 255 - alpha_of(src);
    pack(
        blended(alpha_of(src), alpha_of(dst), inv),
        blended(red_of(src), red_of(dst), inv),
        blended(green_of(src), green_of(dst), inv),
        blended(blue_of(src), blue_of(dst), inv),
    )
}

/// The channels of a packed pixel are the ones it was packed from.
pub proof fn lemma_channels(p: u32, a: int, r: int, g: int, b: int)
    requires
        0 <= a <= 255,
        0 <= r <= 255,
        0 <= g <= 255,
        0 <= b <= 255,
        p == pack(a, r, g, b),
    ensures
        alpha_of(p) == a,
        red_of(p) == r,
        green_of(p) == g,
        blue_of(p) == b,
{
    assert(p as int / 0x100 == a * 0x1_0000 + r * 0x100 + g);
    assert(p as int / 0x1_0000 == a * 0x100 + r);
    assert(p as int / 0x100_0000 == a);
}

/// A fraction of a number is no larger than either.
pub proof fn lemma_scaled(c: int, a: int)
    requires
        0 <= c <= 255,
        0 <= a <= 255,
    ensures
        0 <= scaled(c, a) <= a,
        scaled(c, a) <= c,
        scaled(c, 0) == 0,
        scaled(c, 255) == c,
        scaled(0, a) == 0,
{
    assert(0 <= c * a <= 255 * a && c * a <= 255 * c) by (nonlinear_arith)
        requires
            0 <= c <= 255,
            0 <= a <= 255,
    ;
    assert(0 * a == 0 && c * 0 == 0 && c * 255 == 255 * c) by (nonlinear_arith);
}

/// A colour at an opacity, as `premultiplied` says.
pub fn premultiply(color: Rgb, a: u8) -> (p: u32)
    ensures
        p == premultiplied(color, a as int),
{
    proof {
        lemma_scaled(color.0 as int, a as int);
        lemma_scaled(color.1 as int, a as int);
        lemma_scaled(color.2 as int, a as int);
    }
    let a: u32 = a as u32;
    (a * 0x100_0000) + scale(color.0 as u32, a) * 0x1_0000 + scale(color.1 as u32, a) * 0x100
        + scale(color.2 as u32, a)
}

fn scale(c: u32, a: u32) -> (r: u32)
    requires
        c <= 255,
        a <= 255,
    ensures
        r == scaled(c as int, a as int),
{
    assert(0 <= c * a <= 255 * 255) by (nonlinear_arith)
        requires
            c <= 255,
            a <= 255,
    ;
    (c * a + 127) / 255
}

fn blend(s: u32, d: u32, inv: u32) -> (r: u32)
    requires
        s <= 255,
        d <= 255,
        inv <= 255,
    ensures
        r == blended(s as int, d as int, inv as int),
        r <= 255,
{
    proof {
        lemma_scaled(d as int, inv as int);
    }
    let sum: u32 = s + scale(d, inv);
    if sum < 255 {
        sum
    } else {
        255
    }
}

/// A pixel laid over another, as `laid_over` says.
pub fn over(src: u32, dst: u32) -> (p: u32)
    ensures
        p == laid_over(src, dst),
{
    let sa: u32 = src / 0x100_0000;
    if sa == 255 {
        proof {
            lemma_scaled(alpha_of(dst), 0);
            lemma_scaled(red_of(dst), 0);
            lemma_scaled(green_of(dst), 0);
            lemma_scaled(blue_of(dst), 0);
            lemma_unpack(src);
        }
        return src;
    }
    let inv: u32 = 255 - sa;
    blend(sa, dst / 0x100_0000, inv) * 0x100_0000 + blend(
        src / 0x1_0000 % 256,
        dst / 0x1_0000 % 256,
        inv,
    ) * 0x1_0000 + blend(src / 0x100 % 256, dst / 0x100 % 256, inv) * 0x100 + blend(
        src % 256,
        dst % 256,
        inv,
    )
}

/// A pixel is packed from its channels.
pub proof fn lemma_unpack(p: u32)
    ensures
        p == pack(alpha_of(p), red_of(p), green_of(p), blue_of(p)),
        0 <= alpha_of(p) <= 255,
        0 <= red_of(p) <= 255,
        0 <= green_of(p) <= 255,
        0 <= blue_of(p) <= 255,
{
}

// ───────────────────────── painting ─────────────────────────

/// A pixel with a shape of one colour drawn onto it.
pub open spec fn drawn(dst: u32, color: Rgb, shape: Shape, size: int, x: int, y: int) -> u32 {
    laid_over(premultiplied(color, coverage(shape, size, x, y)) as u32, dst) as u32
}

/// The disc that every look has.
pub open spec fn body() -> Shape {
    Shape::Disc { x: 16, y: 16, radius: 10 }
}

/// The dot in the top right of the forced look.
pub open spec fn dot() -> Shape {
    Shape::Disc { x: 24, y: 10, radius: 4 }
}

/// The slash of the paused look, from the bottom left to the top right.
pub open spec fn slash() -> Shape {
    Shape::Stroke { ax: 7, ay: 25, bx: 25, by: 7, half: 2 }
}

/// The pixel of an icon at a place, rows counted from the top.
pub open spec fn painted(look: Look, size: int, x: int, y: int) -> u32 {
    let under = drawn(0, palette_of(look), body(), size, x, y);
    match look {
        Look::Force => drawn(under, (0, 224, 0), dot(), size, x, y),
        Look::Paused => drawn(under, (255, 255, 255), slash(), size, x, y),
        _ => under,
    }
}

/// An icon as its pixels, row by row from the top.
pub open spec fn picture(look: Look, size: int) -> Seq<u32> {
    Seq::new((size * size) as nat, |i: int| painted(look, size, i % size, i / size))
}

pub proof fn lemma_premultiplied(color: Rgb, a: int)
    requires
        0 <= a <= 255,
    ensures
        0 <= premultiplied(color, a) <= u32::MAX,
        ({
            let p = premultiplied(color, a) as u32;
            &&& alpha_of(p) == a
            &&& red_of(p) == scaled(color.0 as int, a)
            &&& green_of(p) == scaled(color.1 as int, a)
            &&& blue_of(p) == scaled(color.2 as int, a)
        }),
{
    lemma_scaled(color.0 as int, a);
    lemma_scaled(color.1 as int, a);
    lemma_scaled(color.2 as int, a);
    lemma_channels(
        premultiplied(color, a) as u32,
        a,
        scaled(color.0 as int, a),
        scaled(color.1 as int, a),
        scaled(color.2 as int, a),
    );
}

pub proof fn lemma_laid_over(src: u32, dst: u32)
    ensures
        0 <= laid_over(src, dst) <= u32::MAX,
        ({
            let p = laid_over(src, dst) as u32;
            let inv = 255 - alpha_of(src);
            &&& alpha_of(p) == blended(alpha_of(src), alpha_of(dst), inv)
            &&& red_of(p) == blended(red_of(src), red_of(dst), inv)
            &&& green_of(p) == blended(green_of(src), green_of(dst), inv)
            &&& blue_of(p) == blended(blue_of(src), blue_of(dst), inv)
        }),
{
    let inv = 255 - alpha_of(src);
    lemma_unpack(src);
    lemma_unpack(dst);
    lemma_scaled(alpha_of(dst), inv);
    lemma_scaled(red_of(dst), inv);
    lemma_scaled(green_of(dst), inv);
    lemma_scaled(blue_of(dst), inv);
    lemma_channels(
        laid_over(src, dst) as u32,
        blended(alpha_of(src), alpha_of(dst), inv),
        blended(red_of(src), red_of(dst), inv),
        blended(green_of(src), green_of(dst), inv),
        blended(blue_of(src), blue_of(dst), inv),
    );
}

/// Drawing nothing onto a pixel leaves it as it is.
pub proof fn lemma_nothing_drawn(color: Rgb, dst: u32)
    ensures
        laid_over(premultiplied(color, 0) as u32, dst) as u32 == dst,
{
    lemma_premultiplied(color, 0);
    lemma_unpack(dst);
    lemma_scaled(color.0 as int, 0);
    lemma_scaled(color.1 as int, 0);
    lemma_scaled(color.2 as int, 0);
    lemma_scaled(alpha_of(dst), 255);
    lemma_scaled(red_of(dst), 255);
    lemma_scaled(green_of(dst), 255);
    lemma_scaled(blue_of(dst), 255);
}

/// Draws a shape of one colour onto every pixel.
fn composite(px: &mut Vec<u32>, size: usize, color: Rgb, shape: Shape)
    requires
        shape.on_grid(),
        size <= MAX_SIDE,
        old(px).len() == size * size,
    ensures
        final(px)@ == Seq::new(
            (size * size) as nat,
            |i: int| drawn(old(px)@[i], color, shape, size as int, i % (size as int), i / (size as int)),
        ),
{
    let total: usize = px.len();
    let mut i: usize = 0;
    while i < total
        invariant
            i <= total,
            total == size * size,
            px.len() == total,
            shape.on_grid(),
            size <= MAX_SIDE,
            old(px).len() == total,
            forall|j: int| i <= j < total ==> px@[j] == old(px)@[j],
            forall|j: int|
                0 <= j < i ==> px@[j] == drawn(
                    old(px)@[j],
                    color,
                    shape,
                    size as int,
                    #[trigger] (j % (size as int)),
                    j / (size as int),
                ),
        decreases total - i,
    {
        assert(size > 0) by (nonlinear_arith)
            requires
                i < size * size,
                0 <= i,
                0 <= size,
        ;
        let x: usize = i % size;
        let y: usize = i / size;
        assert(i / size < size) by (nonlinear_arith)
            requires
                0 <= i < size * size,
                size > 0,
        ;
        let a: u8 = covered(shape, size, x, y);
        let before: u32 = px[i];
        proof {
            lemma_nothing_drawn(color, before);
            lemma_premultiplied(color, a as int);
        }
        if a > 0 {
            let after: u32 = over(premultiply(color, a), before);
            px.set(i, after);
        }
        i = i + 1;
    }
}

/// Rasterises a look into `size` by `size` premultiplied pixels, rows from the top.
pub fn paint(look: Look, size: usize) -> (px: Vec<u32>)
    requires
        size <= MAX_SIDE,
        size * size <= usize::MAX,
    ensures
        px@ == picture(look, size as int),
{
    let mut px: Vec<u32> = blank(size * size);
    composite(&mut px, size, palette(look), Shape::Disc { x: 16, y: 16, radius: 10 });
    match look {
        Look::Force => {
            composite(&mut px, size, (0, 224, 0), Shape::Disc { x: 24, y: 10, radius: 4 });
        },
        Look::Paused => {
            let stroke = Shape::Stroke { ax: 7, ay: 25, bx: 25, by: 7, half: 2 };
            composite(&mut px, size, (255, 255, 255), stroke);
        },
        _ => {},
    }
    px
}

/// So many transparent pixels.
fn blank(n: usize) -> (px: Vec<u32>)
    ensures
        px@ == Seq::new(n as nat, |i: int| 0u32),
{
    let mut px: Vec<u32> = Vec::new();
    let mut i: usize = 0;
    while i < n
        invariant
            i <= n,
            px@ == Seq::new(i as nat, |j: int| 0u32),
        decreases n - i,
    {
        px.push(0);
        i = i + 1;
    }
    px
}

// ───────────────────────── .ico files ─────────────────────────

/// A side as the directory stores it: one byte, in which 256 is written 0.
pub open spec fn side(size: nat) -> u8 {
    if size >= 256 {
        0
    } else {
        size as u8
    }
}

/// A directory entry: both sides, no palette, one plane of 32 bits, and the length and
/// the place of the frame.
pub open spec fn entry(size: nat, length: int, offset: int) -> Seq<u8> {
    seq![side(size), side(size), 0u8, 0u8] + png::le16(1) + png::le16(32) + png::le32(
        length as u32,
    ) + png::le32(offset as u32)
}

/// The first `n` frames, one behind the other.
pub open spec fn joined_frames(frames: Seq<(nat, Seq<u8>)>, n: nat) -> Seq<u8>
    decreases n,
{
    if n == 0 {
        Seq::empty()
    } else {
        joined_frames(frames, (n - 1) as nat) + frames[n - 1].1
    }
}

/// Where a frame begins: behind the directory and the frames before it.
pub open spec fn offset_of(frames: Seq<(nat, Seq<u8>)>, n: nat) -> int {
    6 + 16 * (frames.len() as int) + joined_frames(frames, n).len()
}

/// The first `n` entries of the directory.
pub open spec fn directory(frames: Seq<(nat, Seq<u8>)>, n: nat) -> Seq<u8>
    decreases n,
{
    if n == 0 {
        Seq::empty()
    } else {
        let k = (n - 1) as nat;
        directory(frames, k) + entry(
            frames[k as int].0,
            frames[k as int].1.len() as int,
            offset_of(frames, k),
        )
    }
}

/// An icon file: its header, the directory, and the frames.
pub open spec fn ico(frames: Seq<(nat, Seq<u8>)>) -> Seq<u8> {
    png::le16(0) + png::le16(1) + png::le16(frames.len() as u16) + directory(frames, frames.len())
        + joined_frames(frames, frames.len())
}

pub open spec fn frame_views(frames: Seq<(usize, Vec<u8>)>) -> Seq<(nat, Seq<u8>)> {
    Seq::new(frames.len(), |i: int| (frames[i].0 as nat, frames[i].1@))
}

/// A frame of the product icon: the blue disc.
#[verifier::opaque]
pub open spec fn product_frame(size: nat) -> (nat, Seq<u8>) {
    (size, png::png(size, picture(Look::SystemDisplay, size as int)))
}

/// The frames of the product icon.
pub open spec fn product_frames() -> Seq<(nat, Seq<u8>)> {
    seq![product_frame(16), product_frame(32), product_frame(48), product_frame(64)]
}

proof fn lemma_joined_grows(frames: Seq<(nat, Seq<u8>)>, k: nat, n: nat)
    requires
        k <= n,
    ensures
        joined_frames(frames, k).len() <= joined_frames(frames, n).len(),
    decreases n,
{
    if k < n {
        lemma_joined_grows(frames, k, (n - 1) as nat);
    }
}

proof fn lemma_joined_bound(frames: Seq<(nat, Seq<u8>)>, n: nat)
    requires
        n <= frames.len(),
        forall|i: int| 0 <= i < frames.len() ==> (#[trigger] frames[i]).1.len() <= 16516,
    ensures
        joined_frames(frames, n).len() <= 16516 * n,
    decreases n,
{
    if n > 0 {
        lemma_joined_bound(frames, (n - 1) as nat);
    }
}

/// PNG frames as an icon file.
pub fn encode_ico(frames: &Vec<(usize, Vec<u8>)>) -> (out: Vec<u8>)
    requires
        offset_of(frame_views(frames@), frames@.len()) <= usize::MAX,
    ensures
        out@ == ico(frame_views(frames@)),
{
    let ghost views = frame_views(frames@);
    let count: usize = frames.len();
    let mut out: Vec<u8> = Vec::new();
    png::push_le16(&mut out, 0);
    png::push_le16(&mut out, 1);
    png::push_le16(&mut out, count as u16);
    let ghost head = out@;
    proof {
        lemma_joined_grows(views, 0, count as nat);
    }
    let mut offset: usize = 6 + 16 * count;
    let mut i: usize = 0;
    while i < count
        invariant
            i <= count == frames@.len(),
            views == frame_views(frames@),
            offset == offset_of(views, i as nat),
            offset_of(views, count as nat) <= usize::MAX,
            out@ == head + directory(views, i as nat),
        decreases count - i,
    {
        let length: usize = frames[i].1.len();
        let byte: u8 = if frames[i].0 >= 256 {
            0
        } else {
            frames[i].0 as u8
        };
        let ghost done = out@;
        out.push(byte);
        out.push(byte);
        out.push(0);
        out.push(0);
        png::push_le16(&mut out, 1);
        png::push_le16(&mut out, 32);
        png::push_le32(&mut out, length as u32);
        png::push_le32(&mut out, offset as u32);
        assert(out@ == done + entry(views[i as int].0, length as int, offset as int));
        proof {
            lemma_joined_grows(views, (i + 1) as nat, count as nat);
        }
        offset = offset + length;
        i = i + 1;
    }
    let ghost listed = out@;
    let mut i: usize = 0;
    while i < count
        invariant
            i <= count == frames@.len(),
            views == frame_views(frames@),
            out@ == listed + joined_frames(views, i as nat),
        decreases count - i,
    {
        png::push_all(&mut out, frames[i].1.as_slice());
        i = i + 1;
    }
    out
}

/// One frame of the product icon.
fn product_frame_of(size: usize) -> (r: (usize, Vec<u8>))
    requires
        size <= 64,
    ensures
        (r.0 as nat, r.1@) == product_frame(size as nat),
        r.1@.len() <= 16516,
{
    assert(size * size <= 4096) by (nonlinear_arith)
        requires
            size <= 64,
    ;
    let px: Vec<u32> = paint(Look::SystemDisplay, size);
    proof {
        reveal(product_frame);
        png::lemma_png_length(size as nat, px@);
    }
    (size, png::encode_png_rgba(size, px.as_slice()))
}

/// The icon of the product, the blue disc without marks, in the sizes that are in use.
pub fn product_ico() -> (out: Vec<u8>)
    ensures
        out@ == ico(product_frames()),
{
    let mut frames: Vec<(usize, Vec<u8>)> = Vec::new();
    frames.push(product_frame_of(16));
    frames.push(product_frame_of(32));
    frames.push(product_frame_of(48));
    frames.push(product_frame_of(64));
    assert(frame_views(frames@) == product_frames());
    proof {
        lemma_joined_bound(frame_views(frames@), 4);
    }
    encode_ico(&frames)
}

} // verus!
