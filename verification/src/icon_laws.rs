//! What holds of every icon.
use vstd::prelude::*;

use crate::icon;
use crate::icon::{Look, Rgb, Shape};
use crate::png;

verus! {

// ───────────────────────── channels ─────────────────────────

/// Whether no colour channel of a pixel exceeds its alpha.
pub open spec fn is_premultiplied(p: u32) -> bool {
    &&& icon::red_of(p) <= icon::alpha_of(p)
    &&& icon::green_of(p) <= icon::alpha_of(p)
    &&& icon::blue_of(p) <= icon::alpha_of(p)
}

proof fn lemma_coverage_range(shape: Shape, size: int, x: int, y: int)
    ensures
        0 <= icon::coverage(shape, size, x, y) <= 255,
{
    icon::lemma_hits(shape, size, x, y, 16);
}

proof fn lemma_scaled_monotone(c: int, d: int, a: int)
    requires
        0 <= c <= d,
        0 <= a,
    ensures
        icon::scaled(c, a) <= icon::scaled(d, a),
{
    assert(c * a <= d * a) by (nonlinear_arith)
        requires
            c <= d,
            0 <= a,
    ;
    assert((c * a + 127) / 255 <= (d * a + 127) / 255);
}

proof fn lemma_drawn_premultiplied(dst: u32, color: Rgb, shape: Shape, size: int, x: int, y: int)
    requires
        is_premultiplied(dst),
    ensures
        is_premultiplied(icon::drawn(dst, color, shape, size, x, y)),
{
    let a = icon::coverage(shape, size, x, y);
    lemma_coverage_range(shape, size, x, y);
    icon::lemma_premultiplied(color, a);
    let src = icon::premultiplied(color, a) as u32;
    icon::lemma_laid_over(src, dst);
    icon::lemma_scaled(color.0 as int, a);
    icon::lemma_scaled(color.1 as int, a);
    icon::lemma_scaled(color.2 as int, a);
    icon::lemma_unpack(dst);
    lemma_scaled_monotone(icon::red_of(dst), icon::alpha_of(dst), 255 - a);
    lemma_scaled_monotone(icon::green_of(dst), icon::alpha_of(dst), 255 - a);
    lemma_scaled_monotone(icon::blue_of(dst), icon::alpha_of(dst), 255 - a);
}

/// In every picture, no colour channel of a pixel exceeds its alpha.
pub proof fn law_pictures_are_premultiplied(look: Look, size: int, i: int)
    requires
        0 <= i < size * size,
    ensures
        is_premultiplied(icon::picture(look, size)[i]),
{
    let (x, y) = (i % size, i / size);
    let under = icon::drawn(0, icon::palette_of(look), icon::body(), size, x, y);
    lemma_drawn_premultiplied(0, icon::palette_of(look), icon::body(), size, x, y);
    lemma_drawn_premultiplied(under, (0, 224, 0), icon::dot(), size, x, y);
    lemma_drawn_premultiplied(under, (255, 255, 255), icon::slash(), size, x, y);
}

// ───────────────────────── coverage ─────────────────────────

/// Whether all sample points of a pixel lie in the shape.
spec fn all_inside(shape: Shape, size: int, x: int, y: int) -> bool {
    forall|u: int, v: int|
        4 <= u <= 28 && 4 <= v <= 28 ==> #[trigger] icon::inside(
            shape,
            size,
            32 * x + u,
            32 * y + v,
        )
}

/// Whether none does.
spec fn all_outside(shape: Shape, size: int, x: int, y: int) -> bool {
    forall|u: int, v: int|
        4 <= u <= 28 && 4 <= v <= 28 ==> !#[trigger] icon::inside(
            shape,
            size,
            32 * x + u,
            32 * y + v,
        )
}

proof fn lemma_hits_all(shape: Shape, size: int, x: int, y: int, n: nat)
    requires
        all_inside(shape, size, x, y),
        n <= 16,
    ensures
        icon::hits(shape, size, x, y, n) == n,
    decreases n,
{
    if n > 0 {
        let k = (n - 1) as nat;
        lemma_hits_all(shape, size, x, y, k);
        let (u, v) = (8 * (k % 4) + 4, 8 * (k / 4) + 4);
        assert(icon::inside(shape, size, 32 * x + u, 32 * y + v));
        assert(32 * x + 8 * (k % 4) + 4 == 32 * x + u);
        assert(32 * y + 8 * (k / 4) + 4 == 32 * y + v);
    }
}

proof fn lemma_hits_none(shape: Shape, size: int, x: int, y: int, n: nat)
    requires
        all_outside(shape, size, x, y),
        n <= 16,
    ensures
        icon::hits(shape, size, x, y, n) == 0,
    decreases n,
{
    if n > 0 {
        let k = (n - 1) as nat;
        lemma_hits_none(shape, size, x, y, k);
        let (u, v) = (8 * (k % 4) + 4, 8 * (k / 4) + 4);
        assert(!icon::inside(shape, size, 32 * x + u, 32 * y + v));
        assert(32 * x + 8 * (k % 4) + 4 == 32 * x + u);
        assert(32 * y + 8 * (k / 4) + 4 == 32 * y + v);
    }
}

/// A pixel that the shape covers takes its colour, opaque.
proof fn lemma_covered(dst: u32, color: Rgb, shape: Shape, size: int, x: int, y: int)
    requires
        all_inside(shape, size, x, y),
    ensures
        ({
            let p = icon::drawn(dst, color, shape, size, x, y);
            &&& icon::alpha_of(p) == 255
            &&& icon::red_of(p) == color.0
            &&& icon::green_of(p) == color.1
            &&& icon::blue_of(p) == color.2
        }),
{
    lemma_hits_all(shape, size, x, y, 16);
    icon::lemma_premultiplied(color, 255);
    let src = icon::premultiplied(color, 255) as u32;
    icon::lemma_laid_over(src, dst);
    icon::lemma_scaled(color.0 as int, 255);
    icon::lemma_scaled(color.1 as int, 255);
    icon::lemma_scaled(color.2 as int, 255);
    icon::lemma_unpack(dst);
    icon::lemma_scaled(icon::alpha_of(dst), 0);
    icon::lemma_scaled(icon::red_of(dst), 0);
    icon::lemma_scaled(icon::green_of(dst), 0);
    icon::lemma_scaled(icon::blue_of(dst), 0);
}

/// A pixel that the shape does not touch stays as it is.
proof fn lemma_untouched(dst: u32, color: Rgb, shape: Shape, size: int, x: int, y: int)
    requires
        all_outside(shape, size, x, y),
    ensures
        icon::drawn(dst, color, shape, size, x, y) == dst,
{
    lemma_hits_none(shape, size, x, y, 16);
    icon::lemma_nothing_drawn(color, dst);
}

/// Drawing onto an opaque pixel leaves it opaque.
proof fn lemma_stays_opaque(dst: u32, color: Rgb, shape: Shape, size: int, x: int, y: int)
    requires
        icon::alpha_of(dst) == 255,
    ensures
        icon::alpha_of(icon::drawn(dst, color, shape, size, x, y)) == 255,
{
    let a = icon::coverage(shape, size, x, y);
    lemma_coverage_range(shape, size, x, y);
    icon::lemma_premultiplied(color, a);
    icon::lemma_laid_over(icon::premultiplied(color, a) as u32, dst);
    icon::lemma_scaled(255 - a, 255);
    assert((255 - a) * 255 == 255 * (255 - a));
}

// ───────────────────────── the picture ─────────────────────────

/// A point at least `d` away in one direction lies outside a smaller disc.
proof fn lemma_beyond_disc(shape: Shape, size: int, px: int, py: int)
    requires
        shape is Disc,
        size > 0,
        ({
            let r = shape->radius * size;
            let (dx, dy) = (px - shape->x * size, py - shape->y * size);
            dx > r || dx < -r || dy > r || dy < -r
        }),
    ensures
        !icon::inside(shape, size, px, py),
{
    let r = shape->radius * size;
    let (dx, dy) = (px - shape->x * size, py - shape->y * size);
    assert(r >= 0) by (nonlinear_arith)
        requires
            r == shape->radius * size,
            shape->radius >= 0,
            size > 0,
    ;
    assert(dx * dx + dy * dy > r * r) by (nonlinear_arith)
        requires
            dx > r || dx < -r || dy > r || dy < -r,
            r >= 0,
    ;
}

/// The bottom half and the left half of the forced icon are those of the plain blue
/// disc: the dot is in the top right.
pub proof fn law_dot_sits_in_the_top_right(size: int, x: int, y: int)
    requires
        size > 0,
        0 <= x < size,
        0 <= y < size,
        2 * y >= size || 2 * x + 2 <= size,
    ensures
        icon::painted(Look::Force, size, x, y) == icon::painted(Look::SystemDisplay, size, x, y),
{
    assert forall|u: int, v: int| 4 <= u <= 28 && 4 <= v <= 28 implies !#[trigger] icon::inside(
        icon::dot(),
        size,
        32 * x + u,
        32 * y + v,
    ) by {
        lemma_beyond_disc(icon::dot(), size, 32 * x + u, 32 * y + v);
    }
    let under = icon::drawn(0, icon::palette_of(Look::Force), icon::body(), size, x, y);
    lemma_untouched(under, (0, 224, 0), icon::dot(), size, x, y);
}

/// Whether a pixel is in a corner of the picture.
pub open spec fn is_corner(size: int, x: int, y: int) -> bool {
    (x == 0 || x == size - 1) && (y == 0 || y == size - 1)
}

/// The corners of every picture are transparent, from a side of eight pixels on.
pub proof fn law_corners_are_transparent(look: Look, size: int, x: int, y: int)
    requires
        size >= 8,
        is_corner(size, x, y),
    ensures
        icon::painted(look, size, x, y) == 0,
{
    assert forall|u: int, v: int| 4 <= u <= 28 && 4 <= v <= 28 implies !#[trigger] icon::inside(
        icon::body(),
        size,
        32 * x + u,
        32 * y + v,
    ) by {
        lemma_beyond_disc(icon::body(), size, 32 * x + u, 32 * y + v);
    }
    assert forall|u: int, v: int| 4 <= u <= 28 && 4 <= v <= 28 implies !#[trigger] icon::inside(
        icon::dot(),
        size,
        32 * x + u,
        32 * y + v,
    ) by {
        lemma_beyond_disc(icon::dot(), size, 32 * x + u, 32 * y + v);
    }
    assert forall|u: int, v: int| 4 <= u <= 28 && 4 <= v <= 28 implies !#[trigger] icon::inside(
        icon::slash(),
        size,
        32 * x + u,
        32 * y + v,
    ) by {
        lemma_slash(size, 32 * x + u, 32 * y + v);
        lemma_corner_off_slash(size, x, y, u, v);
    }
    lemma_untouched(0, icon::palette_of(look), icon::body(), size, x, y);
    lemma_untouched(0, (0, 224, 0), icon::dot(), size, x, y);
    lemma_untouched(0, (255, 255, 255), icon::slash(), size, x, y);
}

/// The slash runs at 45 degrees, which makes the distance from it a matter of the sum
/// of the coordinates alone.
proof fn lemma_slash(size: int, px: int, py: int)
    requires
        size > 0,
    ensures
        ({
            let s = size;
            let (ex, ey) = (px - 7 * s, py - 25 * s);
            &&& ex - ey <= 0 ==> icon::inside(icon::slash(), s, px, py) == (ex * ex + ey * ey
                <= 4 * (s * s))
            &&& ex - ey >= 36 * s ==> icon::inside(icon::slash(), s, px, py) == ((px - 25 * s) * (px
                - 25 * s) + (py - 7 * s) * (py - 7 * s) <= 4 * (s * s))
            &&& 0 < ex - ey < 36 * s ==> icon::inside(icon::slash(), s, px, py) == ((ex + ey) * (ex
                + ey) <= 8 * (s * s))
        }),
{
    let s = size;
    let (ex, ey) = (px - 7 * s, py - 25 * s);
    let q = s * s;
    let (dx, dy) = ((25int - 7int) * s, (7int - 25int) * s);
    let len2 = icon::square(dx) + icon::square(dy);
    let along = ex * dx + ey * dy;
    let half2 = icon::square(2int * s);
    assert(dx == 18 * s && dy == -18 * s);
    assert(icon::square(dx) == 324 * q && icon::square(dy) == 324 * q) by (nonlinear_arith)
        requires
            icon::square(dx) == dx * dx,
            icon::square(dy) == dy * dy,
            dx == 18 * s,
            dy == -18 * s,
            q == s * s,
    ;
    assert(half2 == 4 * q) by (nonlinear_arith)
        requires
            half2 == (2 * s) * (2 * s),
            q == s * s,
    ;
    assert(along == 18 * (s * (ex - ey))) by (nonlinear_arith)
        requires
            along == ex * dx + ey * dy,
            dx == 18 * s,
            dy == -18 * s,
    ;
    assert(q > 0) by (nonlinear_arith)
        requires
            q == s * s,
            s > 0,
    ;
    assert(ex - ey <= 0 <==> along <= 0) by (nonlinear_arith)
        requires
            along == 18 * (s * (ex - ey)),
            s > 0,
    ;
    assert(ex - ey >= 36 * s <==> along >= 648 * q) by (nonlinear_arith)
        requires
            along == 18 * (s * (ex - ey)),
            q == s * s,
            s > 0,
    ;
    if 0 < ex - ey < 36 * s {
        let d2 = ex * ex + ey * ey;
        assert(d2 * len2 - along * along == 324 * (q * ((ex + ey) * (ex + ey))))
            by (nonlinear_arith)
            requires
                d2 == ex * ex + ey * ey,
                len2 == 648 * q,
                along == 18 * (s * (ex - ey)),
                q == s * s,
        ;
        let w = (ex + ey) * (ex + ey);
        assert(324 * (q * w) <= half2 * len2 <==> w <= 8 * q) by (nonlinear_arith)
            requires
                half2 == 4 * q,
                len2 == 648 * q,
                q > 0,
        ;
    }
}

proof fn lemma_corner_off_slash(size: int, x: int, y: int, u: int, v: int)
    requires
        size >= 8,
        is_corner(size, x, y),
        4 <= u <= 28,
        4 <= v <= 28,
    ensures
        !icon::inside(icon::slash(), size, 32 * x + u, 32 * y + v),
{
    let s = size;
    let (px, py) = (32 * x + u, 32 * y + v);
    lemma_slash(s, px, py);
    let (ex, ey) = (px - 7 * s, py - 25 * s);
    let (fx, fy) = (px - 25 * s, py - 7 * s);
    if ex - ey <= 0 {
        // the bottom left
        assert(ex < -3 * s);
        assert(ex * ex + ey * ey > 4 * (s * s)) by (nonlinear_arith)
            requires
                ex < -3 * s,
                s > 0,
        ;
    } else if ex - ey >= 36 * s {
        // the top right
        assert(fx > 3 * s);
        assert(fx * fx + fy * fy > 4 * (s * s)) by (nonlinear_arith)
            requires
                fx > 3 * s,
                s > 0,
        ;
    } else {
        let t = ex + ey;
        assert(t > 3 * s || t < -3 * s);
        assert(t * t > 8 * (s * s)) by (nonlinear_arith)
            requires
                t > 3 * s || t < -3 * s,
                s > 0,
        ;
    }
}

/// The pixel in the middle lies in the disc.
proof fn lemma_middle_in_body(size: int)
    requires
        size >= 5,
    ensures
        all_inside(icon::body(), size, size / 2, size / 2),
{
    let m = size / 2;
    assert forall|u: int, v: int| 4 <= u <= 28 && 4 <= v <= 28 implies #[trigger] icon::inside(
        icon::body(),
        size,
        32 * m + u,
        32 * m + v,
    ) by {
        let (dx, dy) = (32 * m + u - 16 * size, 32 * m + v - 16 * size);
        let r = 10 * size;
        assert(dx * dx + dy * dy <= r * r) by (nonlinear_arith)
            requires
                -16 <= dx <= 28,
                -16 <= dy <= 28,
                r >= 50,
        ;
    }
}

/// The middle of every picture is opaque, from a side of five pixels on.
pub proof fn law_the_middle_is_opaque(look: Look, size: int)
    requires
        size >= 5,
    ensures
        icon::alpha_of(icon::painted(look, size, size / 2, size / 2)) == 255,
{
    let m = size / 2;
    lemma_middle_in_body(size);
    lemma_covered(0, icon::palette_of(look), icon::body(), size, m, m);
    let under = icon::drawn(0, icon::palette_of(look), icon::body(), size, m, m);
    lemma_stays_opaque(under, (0, 224, 0), icon::dot(), size, m, m);
    lemma_stays_opaque(under, (255, 255, 255), icon::slash(), size, m, m);
}

/// Where the dot has its middle.
spec fn dot_at(size: int) -> (int, int) {
    (3 * size / 4, 5 * size / 16)
}

proof fn lemma_dot_covers(size: int)
    requires
        size >= 12,
    ensures
        all_inside(icon::dot(), size, dot_at(size).0, dot_at(size).1),
{
    let (x, y) = dot_at(size);
    assert forall|u: int, v: int| 4 <= u <= 28 && 4 <= v <= 28 implies #[trigger] icon::inside(
        icon::dot(),
        size,
        32 * x + u,
        32 * y + v,
    ) by {
        let (dx, dy) = (32 * x + u - 24 * size, 32 * y + v - 10 * size);
        let r = 4 * size;
        assert(dx * dx + dy * dy <= r * r) by (nonlinear_arith)
            requires
                -30 <= dx <= 30,
                -30 <= dy <= 30,
                r >= 48,
        ;
    }
}

proof fn lemma_slash_covers_middle(size: int)
    requires
        size >= 20,
    ensures
        all_inside(icon::slash(), size, size / 2, size / 2),
{
    let m = size / 2;
    assert forall|u: int, v: int| 4 <= u <= 28 && 4 <= v <= 28 implies #[trigger] icon::inside(
        icon::slash(),
        size,
        32 * m + u,
        32 * m + v,
    ) by {
        lemma_slash(size, 32 * m + u, 32 * m + v);
        let (ex, ey) = (32 * m + u - 7 * size, 32 * m + v - 25 * size);
        let t = ex + ey;
        assert(t * t <= 8 * (size * size)) by (nonlinear_arith)
            requires
                -32 <= t <= 56,
                size >= 20,
        ;
    }
}

/// Any two looks differ in some pixel, from a side of 20 pixels on.
pub proof fn law_looks_differ(a: Look, b: Look, size: int)
    requires
        size >= 20,
        a != b,
    ensures
        icon::picture(a, size) != icon::picture(b, size),
{
    let m = size / 2;
    let (x, y) = dot_at(size);
    lemma_middle_in_body(size);
    lemma_dot_covers(size);
    lemma_slash_covers_middle(size);
    lemma_look(a, size);
    lemma_look(b, size);
    lemma_place(size, m, m);
    lemma_place(size, x, y);
    let (i, j) = (m * size + m, y * size + x);
    assert(icon::picture(a, size)[i] == icon::painted(a, size, m, m));
    assert(icon::picture(b, size)[i] == icon::painted(b, size, m, m));
    assert(icon::picture(a, size)[j] == icon::painted(a, size, x, y));
    assert(icon::picture(b, size)[j] == icon::painted(b, size, x, y));
}

proof fn lemma_place(size: int, x: int, y: int)
    requires
        0 <= x < size,
        0 <= y < size,
    ensures
        0 <= y * size + x < size * size,
        (y * size + x) % size == x,
        (y * size + x) / size == y,
{
    vstd::arithmetic::div_mod::lemma_fundamental_div_mod_converse(y * size + x, size, y, x);
    assert(0 <= y * size + x < size * size) by (nonlinear_arith)
        requires
            0 <= x < size,
            0 <= y < size,
    ;
}

/// What tells a look apart: the colour in the middle, and the dot.
proof fn lemma_look(look: Look, size: int)
    requires
        size >= 20,
    ensures
        ({
            let m = size / 2;
            let p = icon::painted(look, size, m, m);
            let q = icon::painted(look, size, dot_at(size).0, dot_at(size).1);
            let c = (icon::red_of(p), icon::green_of(p), icon::blue_of(p));
            let d = (icon::red_of(q), icon::green_of(q), icon::blue_of(q));
            match look {
                Look::Idle => c == (160int, 160int, 160int),
                Look::System => c == (255int, 179int, 0int),
                Look::SystemDisplay => c == (61int, 123int, 255int) && d != (0int, 224int, 0int),
                Look::Force => c == (61int, 123int, 255int) && d == (0int, 224int, 0int),
                Look::Paused => c == (255int, 255int, 255int),
            }
        }),
{
    let m = size / 2;
    let (x, y) = dot_at(size);
    lemma_middle_in_body(size);
    let color = icon::palette_of(look);
    lemma_covered(0, color, icon::body(), size, m, m);
    let under = icon::drawn(0, color, icon::body(), size, m, m);
    match look {
        Look::Force => {
            lemma_dot_covers(size);
            let below = icon::drawn(0, color, icon::body(), size, x, y);
            lemma_covered(below, (0, 224, 0), icon::dot(), size, x, y);
            // the dot leaves the middle alone
            assert forall|u: int, v: int| 4 <= u <= 28 && 4 <= v
                <= 28 implies !#[trigger] icon::inside(
                icon::dot(),
                size,
                32 * m + u,
                32 * m + v,
            ) by {
                lemma_beyond_disc(icon::dot(), size, 32 * m + u, 32 * m + v);
            }
            lemma_untouched(under, (0, 224, 0), icon::dot(), size, m, m);
        },
        Look::Paused => {
            lemma_slash_covers_middle(size);
            lemma_covered(under, (255, 255, 255), icon::slash(), size, m, m);
        },
        Look::SystemDisplay => {
            lemma_blue_only(size, x, y);
        },
        _ => {},
    }
}

/// The plain blue disc has no pixel whose green is the strongest.
proof fn lemma_blue_only(size: int, x: int, y: int)
    ensures
        ({
            let p = icon::painted(Look::SystemDisplay, size, x, y);
            icon::green_of(p) <= icon::blue_of(p)
        }),
{
    let a = icon::coverage(icon::body(), size, x, y);
    lemma_coverage_range(icon::body(), size, x, y);
    let color = icon::palette_of(Look::SystemDisplay);
    icon::lemma_premultiplied(color, a);
    icon::lemma_laid_over(icon::premultiplied(color, a) as u32, 0);
    icon::lemma_scaled(0, 255 - a);
    assert(123 * a <= 255 * a);
    icon::lemma_scaled(123, a);
    icon::lemma_scaled(255, a);
}

// ───────────────────────── the file ─────────────────────────

proof fn lemma_directory_length(frames: Seq<(nat, Seq<u8>)>, n: nat)
    ensures
        icon::directory(frames, n).len() == 16 * n,
    decreases n,
{
    if n > 0 {
        lemma_directory_length(frames, (n - 1) as nat);
    }
}

proof fn lemma_directory_entry(frames: Seq<(nat, Seq<u8>)>, i: nat, n: nat)
    requires
        i < n,
    ensures
        icon::directory(frames, n).subrange(16 * i as int, 16 * i as int + 16) == icon::entry(
            frames[i as int].0,
            frames[i as int].1.len() as int,
            icon::offset_of(frames, i),
        ),
    decreases n,
{
    let k = (n - 1) as nat;
    lemma_directory_length(frames, k);
    lemma_directory_length(frames, n);
    let d = icon::directory(frames, n);
    let last = icon::entry(
        frames[k as int].0,
        frames[k as int].1.len() as int,
        icon::offset_of(frames, k),
    );
    assert(d == icon::directory(frames, k) + last);
    if i < k {
        lemma_directory_entry(frames, i, k);
        assert(d.subrange(16 * i as int, 16 * i as int + 16) == icon::directory(frames, k).subrange(
            16 * i as int,
            16 * i as int + 16,
        ));
    } else {
        assert(d.subrange(16 * i as int, 16 * i as int + 16) == last);
    }
}

proof fn lemma_joined_part(frames: Seq<(nat, Seq<u8>)>, i: nat, n: nat)
    requires
        i < n,
    ensures
        ({
            let from = icon::joined_frames(frames, i).len() as int;
            let to = from + frames[i as int].1.len();
            &&& to <= icon::joined_frames(frames, n).len()
            &&& icon::joined_frames(frames, n).subrange(from, to) == frames[i as int].1
        }),
    decreases n,
{
    let k = (n - 1) as nat;
    let from = icon::joined_frames(frames, i).len() as int;
    let to = from + frames[i as int].1.len();
    let j = icon::joined_frames(frames, n);
    if i < k {
        lemma_joined_part(frames, i, k);
        assert(j.subrange(from, to) == icon::joined_frames(frames, k).subrange(from, to));
    } else {
        assert(j.subrange(from, to) == frames[i as int].1);
    }
}

/// In an icon file, the entry of a frame stands at its place in the directory, and the
/// place and the length it gives are those of the frame.
pub proof fn law_directory_points_at_frames(frames: Seq<(nat, Seq<u8>)>, i: nat)
    requires
        i < frames.len(),
    ensures
        ({
            let file = icon::ico(frames);
            let data = frames[i as int].1;
            let offset = icon::offset_of(frames, i);
            &&& file.subrange(6 + 16 * i as int, 22 + 16 * i as int) == icon::entry(
                frames[i as int].0,
                data.len() as int,
                offset,
            )
            &&& offset + data.len() <= file.len()
            &&& file.subrange(offset, offset + data.len()) == data
        }),
{
    let n = frames.len();
    let file = icon::ico(frames);
    let head = png::le16(0) + png::le16(1) + png::le16(n as u16);
    let directory = icon::directory(frames, n);
    let joined = icon::joined_frames(frames, n);
    lemma_directory_length(frames, n);
    lemma_directory_entry(frames, i, n);
    lemma_joined_part(frames, i, n);
    assert(file == head + directory + joined);
    assert(head.len() == 6);
    assert(file.subrange(6 + 16 * i as int, 22 + 16 * i as int) == directory.subrange(
        16 * i as int,
        16 * i as int + 16,
    ));
    let from = icon::joined_frames(frames, i).len() as int;
    let to = from + frames[i as int].1.len();
    let offset = icon::offset_of(frames, i);
    assert(file.subrange(offset, offset + frames[i as int].1.len()) == joined.subrange(from, to));
}

// ───────────────────────── colours ─────────────────────────

/// What is opaque hides what it is laid over, and what is transparent leaves it.
pub proof fn law_opaque_hides_and_transparent_shows(src: u32, dst: u32)
    ensures
        icon::alpha_of(src) == 255 ==> icon::laid_over(src, dst) == src,
        icon::laid_over(0, dst) == dst,
{
    icon::lemma_unpack(src);
    icon::lemma_unpack(dst);
    icon::lemma_unpack(0);
}

/// A colour keeps its coverage as alpha, is itself where it covers all, and nothing where
/// it covers nothing.
pub proof fn law_colours_are_scaled_by_their_coverage(color: Rgb, a: int)
    requires
        0 <= a <= 255,
    ensures
        icon::alpha_of(icon::premultiplied(color, a) as u32) == a,
        icon::premultiplied(color, 255) == 0xFF00_0000 + color.0 * 0x1_0000 + color.1 * 0x100
            + color.2,
        icon::premultiplied(color, 0) == 0,
        2 * (255 * icon::red_of(icon::premultiplied(color, a) as u32) - color.0 * a) <= 255,
        2 * (color.0 * a - 255 * icon::red_of(icon::premultiplied(color, a) as u32)) <= 255,
        2 * (255 * icon::green_of(icon::premultiplied(color, a) as u32) - color.1 * a) <= 255,
        2 * (color.1 * a - 255 * icon::green_of(icon::premultiplied(color, a) as u32)) <= 255,
        2 * (255 * icon::blue_of(icon::premultiplied(color, a) as u32) - color.2 * a) <= 255,
        2 * (color.2 * a - 255 * icon::blue_of(icon::premultiplied(color, a) as u32)) <= 255,
{
    icon::lemma_premultiplied(color, a);
    icon::lemma_scaled(color.0 as int, a);
    icon::lemma_scaled(color.1 as int, a);
    icon::lemma_scaled(color.2 as int, a);
    assert(color.0 * 0 == 0 && color.1 * 0 == 0 && color.2 * 0 == 0);
}

/// The middle of the icon tells the state: grey where nothing is held, amber where the
/// machine is kept awake, and blue where the screen is, also by force.
pub proof fn law_the_middle_has_the_colour_of_the_state(size: int)
    requires
        size >= 5,
    ensures
        ({
            let p = icon::painted(Look::Idle, size, size / 2, size / 2);
            icon::red_of(p) == 160 && icon::green_of(p) == 160 && icon::blue_of(p) == 160
        }),
        ({
            let p = icon::painted(Look::System, size, size / 2, size / 2);
            icon::red_of(p) == 255 && icon::green_of(p) == 179 && icon::blue_of(p) == 0
        }),
        ({
            let p = icon::painted(Look::SystemDisplay, size, size / 2, size / 2);
            icon::red_of(p) == 61 && icon::green_of(p) == 123 && icon::blue_of(p) == 255
        }),
        icon::palette_of(Look::Force) == icon::palette_of(Look::SystemDisplay),
{
    let m = size / 2;
    lemma_middle_in_body(size);
    lemma_covered(0, icon::palette_of(Look::Idle), icon::body(), size, m, m);
    lemma_covered(0, icon::palette_of(Look::System), icon::body(), size, m, m);
    lemma_covered(0, icon::palette_of(Look::SystemDisplay), icon::body(), size, m, m);
}

/// A pixel whose points all lie in a shape is covered by it, and one of which none does is
/// left free.
pub proof fn law_coverage_follows_the_shape(shape: Shape, size: int, x: int, y: int)
    ensures
        (forall|u: int, v: int|
            4 <= u <= 28 && 4 <= v <= 28 ==> #[trigger] icon::inside(
                shape,
                size,
                32 * x + u,
                32 * y + v,
            )) ==> icon::coverage(shape, size, x, y) == 255,
        (forall|u: int, v: int|
            4 <= u <= 28 && 4 <= v <= 28 ==> !#[trigger] icon::inside(
                shape,
                size,
                32 * x + u,
                32 * y + v,
            )) ==> icon::coverage(shape, size, x, y) == 0,
{
    if all_inside(shape, size, x, y) {
        lemma_hits_all(shape, size, x, y, 16);
    }
    if all_outside(shape, size, x, y) {
        lemma_hits_none(shape, size, x, y, 16);
    }
}

/// The entry of a picture in a file gives its side, its depth, its length and its place.
pub proof fn law_entries_describe_their_pictures(size: nat, length: int, offset: int)
    requires
        0 <= length <= u32::MAX,
        0 <= offset <= u32::MAX,
    ensures
        ({
            let e = icon::entry(size, length, offset);
            &&& e.len() == 16
            &&& size < 256 ==> e[0] == size && e[1] == size
            &&& size >= 256 ==> e[0] == 0 && e[1] == 0
            &&& e[4] + 256 * e[5] == 1
            &&& e[6] + 256 * e[7] == 32
            &&& e[8] + 0x100 * e[9] + 0x1_0000 * e[10] + 0x100_0000 * e[11] == length
            &&& e[12] + 0x100 * e[13] + 0x1_0000 * e[14] + 0x100_0000 * e[15] == offset
        }),
{
}

/// A file of pictures begins with its kind and their number.
pub proof fn law_files_tell_how_many_pictures(frames: Seq<(nat, Seq<u8>)>)
    requires
        frames.len() <= u16::MAX,
    ensures
        ({
            let f = icon::ico(frames);
            &&& f[0] == 0 && f[1] == 0 && f[2] == 1 && f[3] == 0
            &&& f[4] + 256 * f[5] == frames.len()
        }),
{
}

} // verus!
