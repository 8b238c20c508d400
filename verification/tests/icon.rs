use stayawake::icon::{over, paint, premultiply, product_ico, Look};
use stayawake::png::{adler32, crc32, encode_png_rgba, zlib_stored};

const LOOKS: [Look; 5] = [
    Look::Idle,
    Look::System,
    Look::SystemDisplay,
    Look::Force,
    Look::Paused,
];

fn at(px: &[u32], size: usize, x: usize, y: usize) -> u32 {
    px[y * size + x]
}

fn alpha(p: u32) -> u32 {
    p >> 24
}

fn rgb(p: u32) -> (u32, u32, u32) {
    ((p >> 16) & 0xFF, (p >> 8) & 0xFF, p & 0xFF)
}

#[test]
fn painted_pixels_have_nonzero_alpha() {
    for look in LOOKS {
        let px = paint(look, 32);
        assert_eq!(alpha(at(&px, 32, 16, 16)), 255, "{:?} 圆心必须完全不透明", look);
        let opaque = px.iter().filter(|p| alpha(**p) == 255).count();
        let visible = px.iter().filter(|p| alpha(**p) > 0).count();
        assert!(opaque > 200, "{:?} 只有 {} 个不透明像素", look, opaque);
        assert!(visible > 300, "{:?} 可见像素只有 {}", look, visible);
    }
}

#[test]
fn corners_stay_transparent() {
    for look in LOOKS {
        let px = paint(look, 32);
        for (x, y) in [(0, 0), (31, 0), (0, 31), (31, 31)] {
            assert_eq!(
                alpha(at(&px, 32, x, y)),
                0,
                "{:?} 角 ({},{}) 不该有像素",
                look,
                x,
                y
            );
        }
    }
}

#[test]
fn premultiplied_invariant_holds() {
    for look in LOOKS {
        for (i, p) in paint(look, 32).iter().enumerate() {
            let a = alpha(*p);
            let (r, g, b) = rgb(*p);
            assert!(
                r <= a && g <= a && b <= a,
                "{:?} 像素 {} 未预乘: 0x{:08X}",
                look,
                i,
                p
            );
        }
    }
}

#[test]
fn every_look_is_visually_distinct() {
    let all: Vec<Vec<u32>> = LOOKS.iter().map(|l| paint(*l, 32)).collect();
    for i in 0..all.len() {
        for j in (i + 1)..all.len() {
            assert_ne!(all[i], all[j], "{:?} 与 {:?} 画出来一样", LOOKS[i], LOOKS[j]);
        }
    }
}

#[test]
fn body_is_a_centred_disc() {
    let px = paint(Look::Idle, 32);
    let c = 16.0;
    for y in 0..32 {
        for x in 0..32 {
            let (dx, dy) = (x as f32 + 0.5 - c, y as f32 + 0.5 - c);
            let d = (dx * dx + dy * dy).sqrt();
            let a = alpha(at(&px, 32, x, y));
            if d <= 8.0 {
                assert_eq!(a, 255, "({},{}) 距圆心 {:.1} 应实心", x, y, d);
            } else if d >= 12.0 {
                assert_eq!(a, 0, "({},{}) 距圆心 {:.1} 应在圆外", x, y, d);
            }
        }
    }
}

#[test]
fn force_dot_sits_in_the_top_right() {
    let px = paint(Look::Force, 32);
    assert_eq!(alpha(at(&px, 32, 24, 10)), 255, "点心应完全不透明");
    let (r, g, b) = rgb(at(&px, 32, 24, 10));
    assert!(
        g > 150 && r < 60 && b < 60,
        "(24,10) 应是绿点, 得到 {},{},{}",
        r,
        g,
        b
    );

    let greenish = |x: usize, y: usize| {
        let p = at(&px, 32, x, y);
        let (r, g, b) = rgb(p);
        alpha(p) > 0 && g > r && g > b
    };
    let top: usize = (0..16)
        .map(|y| (0..32).filter(|x| greenish(*x, y)).count())
        .sum();
    let bottom: usize = (16..32)
        .map(|y| (0..32).filter(|x| greenish(*x, y)).count())
        .sum();
    assert!(top > 30, "上半部绿点像素只有 {}", top);
    assert_eq!(bottom, 0, "下半部出现 {} 个绿色像素, 上下判定反了", bottom);
}

#[test]
fn paused_has_a_white_slash() {
    let (r, g, b) = rgb(at(&paint(Look::Paused, 32), 32, 16, 16));
    assert!(
        r > 200 && g > 200 && b > 200,
        "圆心应被白斜杠覆盖, 得到 {},{},{}",
        r,
        g,
        b
    );
}

#[test]
fn scales_to_every_size() {
    for size in [16usize, 32, 48, 64] {
        let px = paint(Look::SystemDisplay, size);
        assert_eq!(px.len(), size * size);
        assert_eq!(
            alpha(at(&px, size, size / 2, size / 2)),
            255,
            "{}px 圆心",
            size
        );
        assert_eq!(alpha(at(&px, size, 0, 0)), 0, "{}px 左上角", size);
    }
}

#[test]
fn checksums_match_known_values() {
    assert_eq!(adler32(b"Wikipedia"), 0x11E6_0398);
    assert_eq!(adler32(b""), 1);
    assert_eq!(crc32(b"IEND"), 0xAE42_6082);
    assert_eq!(crc32(b"123456789"), 0xCBF4_3926);
}

#[test]
fn stored_deflate_blocks_are_well_formed() {
    let data = vec![0xABu8; 0x1_0000 + 5];
    let z = zlib_stored(&data);
    assert_eq!(&z[..2], &[0x78, 0x01], "zlib 头");
    assert_eq!(z[2], 0, "第一块不该是 BFINAL");
    let len1 = u16::from_le_bytes([z[3], z[4]]);
    assert_eq!(len1, 0xFFFF);
    assert_eq!(u16::from_le_bytes([z[5], z[6]]), !len1);
    let p = 7 + 0xFFFF;
    assert_eq!(z[p], 1, "最后一块必须是 BFINAL");
    let len2 = u16::from_le_bytes([z[p + 1], z[p + 2]]);
    assert_eq!(len2, 6);
    assert_eq!(u16::from_le_bytes([z[p + 3], z[p + 4]]), !len2);
    let tail = &z[z.len() - 4..];
    assert_eq!(u32::from_be_bytes(tail.try_into().unwrap()), adler32(&data));
}

#[test]
fn png_encoding_unpremultiplies_alpha() {
    let png = encode_png_rgba(1, &[(128u32 << 24) | (128 << 16)]);
    let idat = 8 + 25 + 8;
    let raw = &png[idat + 7..idat + 7 + 5];
    assert_eq!(raw[0], 0, "过滤器 None");
    assert_eq!(raw[1], 255, "R 应还原为 255, 得到 {}", raw[1]);
    assert_eq!((raw[2], raw[3]), (0, 0));
    assert_eq!(raw[4], 128, "alpha 原样保留");

    let clear = encode_png_rgba(1, &[0]);
    assert_eq!(&clear[idat + 7..idat + 7 + 5][1..], &[0, 0, 0, 0]);
}

#[test]
fn product_ico_has_a_sane_directory() {
    let ico = product_ico();
    assert_eq!(u16::from_le_bytes([ico[0], ico[1]]), 0, "reserved");
    assert_eq!(u16::from_le_bytes([ico[2], ico[3]]), 1, "type=icon");
    let count = u16::from_le_bytes([ico[4], ico[5]]) as usize;
    assert_eq!(count, 4);
    for i in 0..count {
        let e = 6 + 16 * i;
        let len = u32::from_le_bytes([ico[e + 8], ico[e + 9], ico[e + 10], ico[e + 11]]) as usize;
        let off = u32::from_le_bytes([ico[e + 12], ico[e + 13], ico[e + 14], ico[e + 15]]) as usize;
        assert!(off + len <= ico.len(), "帧 {} 偏移越界", i);
        assert_eq!(
            &ico[off..off + 4],
            &[0x89, b'P', b'N', b'G'],
            "帧 {} 不是 PNG",
            i
        );
        assert_eq!(ico[e] as usize, 16 * (i + 1));
    }
}

/// The same geometry in floating point, for sides where that is exact.
#[test]
fn the_raster_agrees_with_floating_point() {
    for size in [16usize, 32, 48, 64] {
        let k = size as f32 / 32.0;
        for look in LOOKS {
            let px = paint(look, size);
            for y in 0..size {
                for x in 0..size {
                    let cover = |inside: &dyn Fn(f32, f32) -> bool| {
                        let mut hits = 0u32;
                        for sy in 0..4 {
                            for sx in 0..4 {
                                let fx = x as f32 + (sx as f32 + 0.5) * 0.25;
                                let fy = y as f32 + (sy as f32 + 0.5) * 0.25;
                                if inside(fx, fy) {
                                    hits += 1;
                                }
                            }
                        }
                        (hits * 255 / 16) as u8
                    };
                    let disc = |cx: f32, cy: f32, r: f32| {
                        move |fx: f32, fy: f32| {
                            let (dx, dy) = (fx - cx * k, fy - cy * k);
                            dx * dx + dy * dy <= (r * k) * (r * k)
                        }
                    };
                    let color = match look {
                        Look::Idle => (160, 160, 160),
                        Look::System => (255, 179, 0),
                        Look::SystemDisplay | Look::Force => (61, 123, 255),
                        Look::Paused => (204, 51, 51),
                    };
                    let mut want = over(
                        premultiply(color, cover(&disc(16.0, 16.0, 10.0))),
                        0,
                    );
                    if look == Look::Force {
                        want = over(premultiply((0, 224, 0), cover(&disc(24.0, 10.0, 4.0))), want);
                    }
                    if look == Look::Paused {
                        let (a, b) = ((7.0 * k, 25.0 * k), (25.0 * k, 7.0 * k));
                        let (dx, dy) = (b.0 - a.0, b.1 - a.1);
                        let len2 = dx * dx + dy * dy;
                        let half2 = (2.0 * k) * (2.0 * k);
                        let slash = |fx: f32, fy: f32| {
                            let t = (((fx - a.0) * dx + (fy - a.1) * dy) / len2).clamp(0.0, 1.0);
                            let (ex, ey) = (fx - (a.0 + t * dx), fy - (a.1 + t * dy));
                            ex * ex + ey * ey <= half2
                        };
                        want = over(premultiply((255, 255, 255), cover(&slash)), want);
                    }
                    assert_eq!(at(&px, size, x, y), want, "{:?} {}px ({},{})", look, size, x, y);
                }
            }
        }
    }
}

#[test]
fn blending_is_exact_on_known_values() {
    assert_eq!(premultiply((255, 128, 0), 128), 0x8080_4000);
    assert_eq!(premultiply((1, 2, 3), 0), 0);
    assert_eq!(over(0xFF11_2233, 0xFF44_5566), 0xFF11_2233);
    assert_eq!(over(0, 0x8040_2010), 0x8040_2010);
    assert_eq!(over(0x8080_0000, 0xFF00_00FF), 0xFF80_007F);
}

#[test]
fn an_empty_stream_has_one_block() {
    assert_eq!(
        zlib_stored(&[]),
        vec![0x78, 0x01, 1, 0, 0, 0xFF, 0xFF, 0, 0, 0, 1]
    );
}

/// The rows of every frame, read back from its stored blocks, are those of the picture.
#[test]
fn frames_hold_the_picture() {
    let size = 16usize;
    let px = paint(Look::SystemDisplay, size);
    let png = encode_png_rgba(size, &px);
    let data = &png[8 + 25 + 8 + 7..];
    for y in 0..size {
        let row = &data[y * (1 + 4 * size)..];
        assert_eq!(row[0], 0);
        for x in 0..size {
            let p = at(&px, size, x, y);
            assert_eq!(row[1 + 4 * x + 3] as u32, alpha(p));
            if alpha(p) == 255 {
                let (r, g, b) = rgb(p);
                assert_eq!(
                    (row[1 + 4 * x] as u32, row[2 + 4 * x] as u32, row[3 + 4 * x] as u32),
                    (r, g, b)
                );
            }
        }
    }
}

/// From the four channels that are stored of a premultiplied pixel, the pixel follows.
#[test]
fn stored_channels_give_the_pixel_back() {
    for a in 0..=255u32 {
        let size = 16;
        let px: Vec<u32> = (0..256u32)
            .map(|i| {
                let c = if a == 0 { 0 } else { i % (a + 1) };
                a << 24 | c << 16 | (a - c) << 8 | c / 2
            })
            .collect();
        let file = encode_png_rgba(size, &px);
        // signature, header chunk, start of the data chunk, zlib and block headers
        let lines = &file[8 + 25 + 8 + 2 + 5..];
        for y in 0..size {
            assert_eq!(lines[y * (1 + 4 * size)], 0);
            for x in 0..size {
                let at = y * (1 + 4 * size) + 1 + 4 * x;
                let c = &lines[at..at + 4];
                assert_eq!(c[3] as u32, a);
                assert_eq!(premultiply((c[0], c[1], c[2]), c[3]), px[y * size + x]);
            }
        }
    }
}
