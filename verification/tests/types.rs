use engine::types::{Color, Rect, Vec2};

#[test]
fn test_color_from_u32() {
    // The packed word reads r from the least significant byte upward,
    // matching the buffer byte order r, g, b, a.
    let color_u32: u32 = 0x775533FF;
    let color = Color::from(color_u32);
    assert_eq!(color.r, 0xFF, "Red channel incorrect");
    assert_eq!(color.g, 0x33, "Green channel incorrect");
    assert_eq!(color.b, 0x55, "Blue channel incorrect");
    assert_eq!(color.a, 0x77, "Alpha channel incorrect");
}

#[test]
fn test_u32_from_color() {
    let color = Color::new(0x77, 0x55, 0x33, 0xFF);
    let color_u32 = u32::from(color);
    assert_eq!(color_u32, 0xFF335577);
}

#[test]
fn test_rect_simple() {
    let rect = Rect::new(Vec2::new(0, 0), 10, 10);
    let top_left = rect.top_left;
    let top_right = rect.top_right();
    let bottom_left = rect.bottom_left();
    let bottom_right = rect.bottom_right();
    let area = rect.area();
    let width = rect.width;
    let height = rect.height;
    assert_eq!(top_left, Vec2::new(0, 0));
    assert_eq!(top_right, Vec2::new(10, 0));
    assert_eq!(bottom_left, Vec2::new(0, 10));
    assert_eq!(bottom_right, Vec2::new(10, 10));
    assert_eq!(area, 100);
    assert_eq!(width, 10);
    assert_eq!(height, 10);
}

#[test]
fn test_color_round_trip() {
    // Word -> channels -> word and channels -> word -> channels across
    // a spread of 8-bit values on every channel.
    let samples = [0u8, 1, 2, 127, 128, 200, 254, 255];
    for &r in samples.iter() {
        for &a in samples.iter() {
            let c = Color::new(r, r.wrapping_add(13), r.wrapping_add(101), a);
            let w = u32::from(c);
            let back = Color::from(w);
            assert_eq!(back, c);
            assert_eq!(u32::from(back), w);
        }
    }
}

#[test]
fn test_rect_edges() {
    let rect = Rect::new(Vec2::new(3, -2), 4, 7);
    assert_eq!(rect.left(), 3);
    assert_eq!(rect.right(), 7);
    assert_eq!(rect.top(), -2);
    assert_eq!(rect.bottom(), 5);
}

#[test]
fn test_rect_offset() {
    let mut rect = Rect::new(Vec2::new(1, 2), 5, 6);
    rect.offset(Vec2::new(10, -20));
    assert_eq!(rect.top_left, Vec2::new(11, -18));
    rect.offset_x(-1);
    rect.offset_y(3);
    assert_eq!(rect.top_left, Vec2::new(10, -15));
    assert_eq!(rect.width, 5);
    assert_eq!(rect.height, 6);
}

#[test]
fn test_rect_point_intersects() {
    let rect = Rect::new(Vec2::new(0, 0), 10, 10);
    assert!(rect.point_intersects(Vec2::new(0, 0)));
    assert!(rect.point_intersects(Vec2::new(10, 10)));
    assert!(rect.point_intersects(Vec2::new(5, 7)));
    assert!(!rect.point_intersects(Vec2::new(11, 5)));
    assert!(!rect.point_intersects(Vec2::new(5, -1)));
}

#[test]
fn test_rect_intersects() {
    let a = Rect::new(Vec2::new(0, 0), 10, 10);
    let b = Rect::new(Vec2::new(9, 9), 5, 5);
    let c = Rect::new(Vec2::new(10, 0), 3, 3);
    assert!(a.intersects(&b));
    assert!(b.intersects(&a));
    assert!(!a.intersects(&c));
    assert!(!c.intersects(&a));
}

#[test]
fn test_vec2_new() {
    let v = Vec2::new(-4, 9);
    assert_eq!(v.x, -4);
    assert_eq!(v.y, 9);
}

#[test]
fn test_vec2_arithmetic() {
    let a = Vec2::new(3, -4);
    let b = Vec2::new(-1, 10);
    assert_eq!(a + b, Vec2::new(2, 6));
    assert_eq!(a - b, Vec2::new(4, -14));
    assert_eq!(a * 3, Vec2::new(9, -12));
    assert_eq!(b * -2, Vec2::new(2, -20));
}

#[test]
fn test_vec2_scalar_division_truncates_toward_zero() {
    assert_eq!(Vec2::new(7, -7) / 2, Vec2::new(3, -3));
    assert_eq!(Vec2::new(9, -9) / -2, Vec2::new(-4, 4));
    assert_eq!(Vec2::new(1, -1) / 3, Vec2::new(0, 0));
}
