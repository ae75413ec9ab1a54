use engine::drawing::{
    blend_alpha, blit_rect, blit_rect_with_alpha, blit_with_alpha, coverage_to_image, draw_line,
    draw_rectangle, draw_rectangle_unchecked, draw_triangle, draw_vertical, fill_rectangle,
    fill_rectangle_unchecked, mask_to_u32, plot, plot_unchecked,
};
use engine::resource::{Image, ImageResource};
use engine::types::{Color, Rect, Vec2};

fn filled(width: u32, height: u32, pixel: [u8; 4]) -> Image {
    let mut buf: Vec<u8> = Vec::new();
    for _ in 0..(width * height) {
        buf.extend_from_slice(&pixel);
    }
    Image::new(width, height, buf)
}

fn pixel_at(img: &Image, x: u32, y: u32) -> [u8; 4] {
    let w = img.width();
    let buf = img.get_buf();
    let base = (4 * (y * w + x)) as usize;
    [buf[base], buf[base + 1], buf[base + 2], buf[base + 3]]
}

#[test]
fn test_blend_opaque_source_wins() {
    let src = u32::from(Color::new(10, 20, 30, 255));
    let dst = u32::from(Color::new(200, 150, 100, 60));
    assert_eq!(blend_alpha(src, dst), src);
}

#[test]
fn test_blend_transparent_source_keeps_opaque_dst() {
    let src = u32::from(Color::new(10, 20, 30, 0));
    let dst = u32::from(Color::new(200, 150, 100, 255));
    assert_eq!(blend_alpha(src, dst), dst);
}

#[test]
fn test_blend_transparent_source_thins_translucent_dst() {
    // A fully transparent source is not a no-op on a translucent
    // destination: each channel is rescaled by the destination alpha.
    let src = u32::from(Color::new(0, 0, 0, 0));
    let dst = u32::from(Color::new(100, 0, 0, 128));
    let out = blend_alpha(src, dst);
    assert_eq!(out, u32::from(Color::new(50, 0, 0, 128)));
}

#[test]
fn test_blend_half_alpha_exact() {
    // (200,100,50,128) over (60,80,100,255), every product floored.
    let src = u32::from(Color::new(200, 100, 50, 128));
    let dst = u32::from(Color::new(60, 80, 100, 255));
    let out = blend_alpha(src, dst);
    assert_eq!(out, u32::from(Color::new(129, 89, 74, 255)));
}

#[test]
fn test_mask_to_u32_packs_coverage_as_alpha() {
    assert_eq!(mask_to_u32(0xAA, 0xBB, 0xCC, 0xDD), 0xDDCCBBAA_u32);
}

#[test]
fn test_plot_checked_bounds() {
    let mut img = filled(3, 3, [0, 0, 0, 0]);
    let color = Color::new(1, 2, 3, 4);
    plot(1, 2, &mut img, color);
    plot(-1, 0, &mut img, color);
    plot(0, 3, &mut img, color);
    assert_eq!(pixel_at(&img, 1, 2), [1, 2, 3, 4]);
    assert_eq!(pixel_at(&img, 0, 0), [0, 0, 0, 0]);
    assert_eq!(pixel_at(&img, 2, 2), [0, 0, 0, 0]);
}

#[test]
fn test_plot_unchecked_writes_pixel() {
    let mut img = filled(2, 2, [9, 9, 9, 9]);
    plot_unchecked(1, 0, &mut img, Color::new(5, 6, 7, 8));
    assert_eq!(pixel_at(&img, 1, 0), [5, 6, 7, 8]);
    assert_eq!(pixel_at(&img, 0, 0), [9, 9, 9, 9]);
}

#[test]
fn test_draw_line_horizontal_inclusive() {
    let mut img = filled(6, 3, [0, 0, 0, 0]);
    let c = Color::new(7, 7, 7, 255);
    draw_line(Vec2::new(1, 1), Vec2::new(4, 1), &mut img, c);
    for x in 0..6u32 {
        let expect = (1..=4).contains(&x);
        assert_eq!(pixel_at(&img, x, 1) == [7, 7, 7, 255], expect);
        assert_eq!(pixel_at(&img, x, 0), [0, 0, 0, 0]);
        assert_eq!(pixel_at(&img, x, 2), [0, 0, 0, 0]);
    }
}

#[test]
fn test_draw_line_diagonal() {
    let mut img = filled(4, 4, [0, 0, 0, 0]);
    let c = Color::new(1, 1, 1, 255);
    draw_line(Vec2::new(0, 0), Vec2::new(3, 3), &mut img, c);
    for x in 0..4u32 {
        for y in 0..4u32 {
            let expect = x == y;
            assert_eq!(pixel_at(&img, x, y) == [1, 1, 1, 255], expect);
        }
    }
}

#[test]
fn test_draw_line_symmetry() {
    // The same pixel set regardless of endpoint order, including a
    // partially clipped line.
    let cases = [
        (Vec2::new(0, 0), Vec2::new(5, 2)),
        (Vec2::new(4, 1), Vec2::new(1, 6)),
        (Vec2::new(-2, -1), Vec2::new(4, 3)),
        (Vec2::new(3, 3), Vec2::new(3, 3)),
    ];
    let c = Color::new(200, 10, 20, 255);
    for (a, b) in cases.iter() {
        let mut fwd = filled(8, 8, [0, 0, 0, 255]);
        let mut rev = filled(8, 8, [0, 0, 0, 255]);
        draw_line(*a, *b, &mut fwd, c);
        draw_line(*b, *a, &mut rev, c);
        assert_eq!(fwd.get_buf(), rev.get_buf());
    }
}

#[test]
fn test_draw_triangle_matches_three_lines() {
    let (p1, p2, p3) = (Vec2::new(0, 0), Vec2::new(5, 1), Vec2::new(2, 6));
    let c = Color::new(3, 1, 4, 255);
    let mut tri = filled(8, 8, [0, 0, 0, 255]);
    draw_triangle(p1, p2, p3, &mut tri, c);
    let mut lines = filled(8, 8, [0, 0, 0, 255]);
    draw_line(p1, p2, &mut lines, c);
    draw_line(p2, p3, &mut lines, c);
    draw_line(p3, p1, &mut lines, c);
    assert_eq!(tri.get_buf(), lines.get_buf());
}

#[test]
fn test_draw_vertical_stroke() {
    let mut img = filled(3, 5, [0, 0, 0, 0]);
    draw_vertical(Vec2::new(1, 1), 3, &mut img, Color::new(2, 4, 6, 8));
    for y in 0..5u32 {
        let expect = (1..=3).contains(&y);
        assert_eq!(pixel_at(&img, 1, y) == [2, 4, 6, 8], expect);
    }
}

#[test]
fn test_draw_rectangle_outline() {
    let mut img = filled(4, 4, [0, 0, 0, 0]);
    let c = Color::new(9, 8, 7, 6);
    draw_rectangle(Rect::new(Vec2::new(0, 0), 2, 2), &mut img, c);
    let painted = [(0, 0), (1, 0), (2, 0), (0, 1), (2, 1), (0, 2), (1, 2)];
    for x in 0..4u32 {
        for y in 0..4u32 {
            let expect = painted.contains(&(x, y));
            assert_eq!(pixel_at(&img, x, y) == [9, 8, 7, 6], expect, "at {} {}", x, y);
        }
    }
}

#[test]
fn test_draw_rectangle_unchecked_matches_checked() {
    let c = Color::new(5, 5, 5, 5);
    let rect = Rect::new(Vec2::new(1, 1), 2, 2);
    let mut a = filled(5, 5, [0, 0, 0, 0]);
    let mut b = filled(5, 5, [0, 0, 0, 0]);
    draw_rectangle(rect, &mut a, c);
    draw_rectangle_unchecked(rect, &mut b, c);
    assert_eq!(a.get_buf(), b.get_buf());
}

#[test]
fn test_fill_rectangle_block() {
    let mut img = filled(4, 4, [0, 0, 0, 0]);
    let c = Color::new(1, 2, 3, 4);
    fill_rectangle(Rect::new(Vec2::new(1, 1), 2, 2), &mut img, c);
    for x in 0..4u32 {
        for y in 0..4u32 {
            let expect = (1..=2).contains(&x) && (1..=2).contains(&y);
            assert_eq!(pixel_at(&img, x, y) == [1, 2, 3, 4], expect, "at {} {}", x, y);
        }
    }
}

#[test]
fn test_fill_rectangle_clips() {
    // A fill reaching past the right edge paints only the in-bounds part.
    let mut img = filled(3, 3, [0, 0, 0, 0]);
    let c = Color::new(1, 1, 1, 1);
    fill_rectangle(Rect::new(Vec2::new(2, 2), 4, 4), &mut img, c);
    for x in 0..3u32 {
        for y in 0..3u32 {
            let expect = x == 2 && y == 2;
            assert_eq!(pixel_at(&img, x, y) == [1, 1, 1, 1], expect);
        }
    }
}

#[test]
fn test_fill_rectangle_unchecked_matches_checked() {
    let c = Color::new(6, 6, 6, 6);
    let rect = Rect::new(Vec2::new(0, 1), 3, 2);
    let mut a = filled(4, 4, [2, 2, 2, 2]);
    let mut b = filled(4, 4, [2, 2, 2, 2]);
    fill_rectangle(rect, &mut a, c);
    fill_rectangle_unchecked(rect, &mut b, c);
    assert_eq!(a.get_buf(), b.get_buf());
}

#[test]
fn test_blit_rect_copies_sub_rectangle() {
    let mut src_buf: Vec<u8> = Vec::new();
    for i in 0..16u8 {
        src_buf.extend_from_slice(&[i, i, i, 255]);
    }
    let src = Image::new(4, 4, src_buf);
    let mut dst = filled(8, 8, [0, 0, 0, 0]);
    blit_rect(&src, Rect::new(Vec2::new(1, 1), 2, 2), &mut dst, Vec2::new(0, 0));
    // source pixels 5, 6, 9, 10 land at the destination's top-left
    assert_eq!(pixel_at(&dst, 0, 0), [5, 5, 5, 255]);
    assert_eq!(pixel_at(&dst, 1, 0), [6, 6, 6, 255]);
    assert_eq!(pixel_at(&dst, 0, 1), [9, 9, 9, 255]);
    assert_eq!(pixel_at(&dst, 1, 1), [10, 10, 10, 255]);
    assert_eq!(pixel_at(&dst, 2, 0), [0, 0, 0, 0]);
    assert_eq!(pixel_at(&dst, 2, 2), [0, 0, 0, 0]);
}

#[test]
fn test_blit_rect_oversized_is_noop() {
    let src = filled(4, 4, [1, 2, 3, 4]);
    let mut dst = filled(8, 8, [0, 0, 0, 0]);
    let before = dst.get_buf().to_vec();
    blit_rect(&src, Rect::new(Vec2::new(2, 2), 3, 3), &mut dst, Vec2::new(0, 0));
    assert_eq!(dst.get_buf(), &before[..]);
    blit_rect_with_alpha(&src, Rect::new(Vec2::new(0, 3), 1, 2), &mut dst, Vec2::new(0, 0));
    assert_eq!(dst.get_buf(), &before[..]);
}

#[test]
fn test_blit_with_alpha_opaque_copies() {
    let src = filled(2, 2, [10, 20, 30, 255]);
    let mut dst = filled(4, 4, [1, 1, 1, 255]);
    blit_with_alpha(&src, &mut dst, Vec2::new(1, 1));
    for x in 0..4u32 {
        for y in 0..4u32 {
            let inside = (1..=2).contains(&x) && (1..=2).contains(&y);
            if inside {
                assert_eq!(pixel_at(&dst, x, y), [10, 20, 30, 255]);
            } else {
                assert_eq!(pixel_at(&dst, x, y), [1, 1, 1, 255]);
            }
        }
    }
}

#[test]
fn test_blit_with_alpha_transparent_leaves_opaque_dst() {
    let src = filled(2, 2, [10, 20, 30, 0]);
    let mut dst = filled(4, 4, [5, 6, 7, 255]);
    let before = dst.get_buf().to_vec();
    blit_with_alpha(&src, &mut dst, Vec2::new(0, 0));
    assert_eq!(dst.get_buf(), &before[..]);
}

#[test]
fn test_coverage_to_image_tints() {
    let coverage: Vec<u8> = vec![0, 128, 255];
    let img = coverage_to_image(3, 1, &coverage, Color::new(10, 20, 30, 99));
    assert_eq!(img.width(), 3);
    assert_eq!(img.height(), 1);
    assert_eq!(
        img.get_buf(),
        &[10, 20, 30, 0, 10, 20, 30, 128, 10, 20, 30, 255][..]
    );
}

#[test]
fn test_blit_empty_or_offscreen_is_noop() {
    let mut dst = filled(4, 4, [8, 8, 8, 255]);
    let before = dst.get_buf().to_vec();
    let empty = Image::new(0, 0, Vec::new());
    engine::drawing::blit(&empty, &mut dst, Vec2::new(1, 1));
    assert_eq!(dst.get_buf(), &before[..]);
    let src = filled(2, 2, [1, 2, 3, 4]);
    engine::drawing::blit(&src, &mut dst, Vec2::new(100, 100));
    engine::drawing::blit(&src, &mut dst, Vec2::new(-50, 0));
    assert_eq!(dst.get_buf(), &before[..]);
}

#[test]
fn test_blit_rect_oversized_negative_anchor_is_noop() {
    // An oversized rectangle no-ops before its anchor is ever read,
    // even when that anchor is negative.
    let src = filled(4, 4, [1, 2, 3, 4]);
    let mut dst = filled(8, 8, [0, 0, 0, 0]);
    let before = dst.get_buf().to_vec();
    blit_rect(&src, Rect::new(Vec2::new(-1, -1), 6, 6), &mut dst, Vec2::new(0, 0));
    assert_eq!(dst.get_buf(), &before[..]);
}
