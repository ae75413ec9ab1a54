use engine::drawing::blit;
use engine::resource::{Image, ImageResource};
use engine::types::Vec2;

const SCREEN_WIDTH: u32 = 8;
const SCREEN_HEIGHT: u32 = 8;
const IMAGE_WIDTH: u32 = 4;
const IMAGE_HEIGHT: u32 = 4;

fn filled(width: u32, height: u32, pixel: [u8; 4]) -> Image {
    let mut buf: Vec<u8> = Vec::new();
    for _ in 0..(width * height) {
        buf.extend_from_slice(&pixel);
    }
    Image::new(width, height, buf)
}

fn get_images() -> (Image, Image) {
    // 0xFF000000 and 0xFFCCBBAA as little-endian r, g, b, a bytes
    let screen = filled(SCREEN_WIDTH, SCREEN_HEIGHT, [0, 0, 0, 255]);
    let image = filled(IMAGE_WIDTH, IMAGE_HEIGHT, [170, 187, 204, 255]);
    (screen, image)
}

fn test_blit(x: i32, y: i32) -> Image {
    let (mut screen, image) = get_images();
    let position = Vec2::new(x, y);
    blit(&image, &mut screen, position);
    screen
}

#[test]
fn test_blit_normal() {
    let result = test_blit(0, 0);
    let expected = [
        170, 187, 204, 255, 170, 187, 204, 255, 170, 187, 204, 255, 170, 187, 204, 255, 0, 0, 0,
        255, 0, 0, 0, 255, 0, 0, 0, 255, 0, 0, 0, 255, 170, 187, 204, 255, 170, 187, 204, 255,
        170, 187, 204, 255, 170, 187, 204, 255, 0, 0, 0, 255, 0, 0, 0, 255, 0, 0, 0, 255, 0, 0, 0,
        255, 170, 187, 204, 255, 170, 187, 204, 255, 170, 187, 204, 255, 170, 187, 204, 255, 0, 0,
        0, 255, 0, 0, 0, 255, 0, 0, 0, 255, 0, 0, 0, 255, 170, 187, 204, 255, 170, 187, 204, 255,
        170, 187, 204, 255, 170, 187, 204, 255, 0, 0, 0, 255, 0, 0, 0, 255, 0, 0, 0, 255, 0, 0, 0,
        255, 0, 0, 0, 255, 0, 0, 0, 255, 0, 0, 0, 255, 0, 0, 0, 255, 0, 0, 0, 255, 0, 0, 0, 255,
        0, 0, 0, 255, 0, 0, 0, 255, 0, 0, 0, 255, 0, 0, 0, 255, 0, 0, 0, 255, 0, 0, 0, 255, 0, 0,
        0, 255, 0, 0, 0, 255, 0, 0, 0, 255, 0, 0, 0, 255, 0, 0, 0, 255, 0, 0, 0, 255, 0, 0, 0,
        255, 0, 0, 0, 255, 0, 0, 0, 255, 0, 0, 0, 255, 0, 0, 0, 255, 0, 0, 0, 255, 0, 0, 0, 255,
        0, 0, 0, 255, 0, 0, 0, 255, 0, 0, 0, 255, 0, 0, 0, 255, 0, 0, 0, 255, 0, 0, 0, 255, 0, 0,
        0, 255,
    ] as [u8; 256];
    assert_eq!(*result.get_buf(), expected);
}

#[test]
fn test_blit_top_left_offset() {
    let result = test_blit(-1, -1);
    let expected = [
        170, 187, 204, 255, 170, 187, 204, 255, 170, 187, 204, 255, 0, 0, 0, 255, 0, 0, 0, 255, 0,
        0, 0, 255, 0, 0, 0, 255, 0, 0, 0, 255, 170, 187, 204, 255, 170, 187, 204, 255, 170, 187,
        204, 255, 0, 0, 0, 255, 0, 0, 0, 255, 0, 0, 0, 255, 0, 0, 0, 255, 0, 0, 0, 255, 170, 187,
        204, 255, 170, 187, 204, 255, 170, 187, 204, 255, 0, 0, 0, 255, 0, 0, 0, 255, 0, 0, 0,
        255, 0, 0, 0, 255, 0, 0, 0, 255, 0, 0, 0, 255, 0, 0, 0, 255, 0, 0, 0, 255, 0, 0, 0, 255,
        0, 0, 0, 255, 0, 0, 0, 255, 0, 0, 0, 255, 0, 0, 0, 255, 0, 0, 0, 255, 0, 0, 0, 255, 0, 0,
        0, 255, 0, 0, 0, 255, 0, 0, 0, 255, 0, 0, 0, 255, 0, 0, 0, 255, 0, 0, 0, 255, 0, 0, 0,
        255, 0, 0, 0, 255, 0, 0, 0, 255, 0, 0, 0, 255, 0, 0, 0, 255, 0, 0, 0, 255, 0, 0, 0, 255,
        0, 0, 0, 255, 0, 0, 0, 255, 0, 0, 0, 255, 0, 0, 0, 255, 0, 0, 0, 255, 0, 0, 0, 255, 0, 0,
        0, 255, 0, 0, 0, 255, 0, 0, 0, 255, 0, 0, 0, 255, 0, 0, 0, 255, 0, 0, 0, 255, 0, 0, 0,
        255, 0, 0, 0, 255, 0, 0, 0, 255, 0, 0, 0, 255, 0, 0, 0, 255,
    ] as [u8; 256];
    assert_eq!(*result.get_buf(), expected);
}

#[test]
fn test_blit_top_right_offset() {
    let result = test_blit((SCREEN_WIDTH - 1) as i32, -1);
    let expected = [
        0, 0, 0, 255, 0, 0, 0, 255, 0, 0, 0, 255, 0, 0, 0, 255, 0, 0, 0, 255, 0, 0, 0, 255, 0, 0,
        0, 255, 170, 187, 204, 255, 0, 0, 0, 255, 0, 0, 0, 255, 0, 0, 0, 255, 0, 0, 0, 255, 0, 0,
        0, 255, 0, 0, 0, 255, 0, 0, 0, 255, 170, 187, 204, 255, 0, 0, 0, 255, 0, 0, 0, 255, 0, 0,
        0, 255, 0, 0, 0, 255, 0, 0, 0, 255, 0, 0, 0, 255, 0, 0, 0, 255, 170, 187, 204, 255, 0, 0,
        0, 255, 0, 0, 0, 255, 0, 0, 0, 255, 0, 0, 0, 255, 0, 0, 0, 255, 0, 0, 0, 255, 0, 0, 0,
        255, 0, 0, 0, 255, 0, 0, 0, 255, 0, 0, 0, 255, 0, 0, 0, 255, 0, 0, 0, 255, 0, 0, 0, 255,
        0, 0, 0, 255, 0, 0, 0, 255, 0, 0, 0, 255, 0, 0, 0, 255, 0, 0, 0, 255, 0, 0, 0, 255, 0, 0,
        0, 255, 0, 0, 0, 255, 0, 0, 0, 255, 0, 0, 0, 255, 0, 0, 0, 255, 0, 0, 0, 255, 0, 0, 0,
        255, 0, 0, 0, 255, 0, 0, 0, 255, 0, 0, 0, 255, 0, 0, 0, 255, 0, 0, 0, 255, 0, 0, 0, 255,
        0, 0, 0, 255, 0, 0, 0, 255, 0, 0, 0, 255, 0, 0, 0, 255, 0, 0, 0, 255, 0, 0, 0, 255, 0, 0,
        0, 255, 0, 0, 0, 255,
    ] as [u8; 256];
    assert_eq!(*result.get_buf(), expected);
}

#[test]
fn test_blit_bottom_left_offset() {
    let result = test_blit(-1, (SCREEN_HEIGHT - 1) as i32);
    let expected = [
        0, 0, 0, 255, 0, 0, 0, 255, 0, 0, 0, 255, 0, 0, 0, 255, 0, 0, 0, 255, 0, 0, 0, 255, 0, 0,
        0, 255, 0, 0, 0, 255, 0, 0, 0, 255, 0, 0, 0, 255, 0, 0, 0, 255, 0, 0, 0, 255, 0, 0, 0,
        255, 0, 0, 0, 255, 0, 0, 0, 255, 0, 0, 0, 255, 0, 0, 0, 255, 0, 0, 0, 255, 0, 0, 0, 255,
        0, 0, 0, 255, 0, 0, 0, 255, 0, 0, 0, 255, 0, 0, 0, 255, 0, 0, 0, 255, 0, 0, 0, 255, 0, 0,
        0, 255, 0, 0, 0, 255, 0, 0, 0, 255, 0, 0, 0, 255, 0, 0, 0, 255, 0, 0, 0, 255, 0, 0, 0,
        255, 0, 0, 0, 255, 0, 0, 0, 255, 0, 0, 0, 255, 0, 0, 0, 255, 0, 0, 0, 255, 0, 0, 0, 255,
        0, 0, 0, 255, 0, 0, 0, 255, 0, 0, 0, 255, 0, 0, 0, 255, 0, 0, 0, 255, 0, 0, 0, 255, 0, 0,
        0, 255, 0, 0, 0, 255, 0, 0, 0, 255, 0, 0, 0, 255, 0, 0, 0, 255, 0, 0, 0, 255, 0, 0, 0,
        255, 0, 0, 0, 255, 0, 0, 0, 255, 0, 0, 0, 255, 0, 0, 0, 255, 0, 0, 0, 255, 170, 187, 204,
        255, 170, 187, 204, 255, 170, 187, 204, 255, 0, 0, 0, 255, 0, 0, 0, 255, 0, 0, 0, 255, 0,
        0, 0, 255, 0, 0, 0, 255,
    ] as [u8; 256];
    assert_eq!(*result.get_buf(), expected);
}

#[test]
fn test_blit_bottom_right_offset() {
    let result = test_blit((SCREEN_WIDTH - 1) as i32, (SCREEN_HEIGHT - 1) as i32);
    let expected = [
        0, 0, 0, 255, 0, 0, 0, 255, 0, 0, 0, 255, 0, 0, 0, 255, 0, 0, 0, 255, 0, 0, 0, 255, 0, 0,
        0, 255, 0, 0, 0, 255, 0, 0, 0, 255, 0, 0, 0, 255, 0, 0, 0, 255, 0, 0, 0, 255, 0, 0, 0,
        255, 0, 0, 0, 255, 0, 0, 0, 255, 0, 0, 0, 255, 0, 0, 0, 255, 0, 0, 0, 255, 0, 0, 0, 255,
        0, 0, 0, 255, 0, 0, 0, 255, 0, 0, 0, 255, 0, 0, 0, 255, 0, 0, 0, 255, 0, 0, 0, 255, 0, 0,
        0, 255, 0, 0, 0, 255, 0, 0, 0, 255, 0, 0, 0, 255, 0, 0, 0, 255, 0, 0, 0, 255, 0, 0, 0,
        255, 0, 0, 0, 255, 0, 0, 0, 255, 0, 0, 0, 255, 0, 0, 0, 255, 0, 0, 0, 255, 0, 0, 0, 255,
        0, 0, 0, 255, 0, 0, 0, 255, 0, 0, 0, 255, 0, 0, 0, 255, 0, 0, 0, 255, 0, 0, 0, 255, 0, 0,
        0, 255, 0, 0, 0, 255, 0, 0, 0, 255, 0, 0, 0, 255, 0, 0, 0, 255, 0, 0, 0, 255, 0, 0, 0,
        255, 0, 0, 0, 255, 0, 0, 0, 255, 0, 0, 0, 255, 0, 0, 0, 255, 0, 0, 0, 255, 0, 0, 0, 255,
        0, 0, 0, 255, 0, 0, 0, 255, 0, 0, 0, 255, 0, 0, 0, 255, 0, 0, 0, 255, 0, 0, 0, 255, 170,
        187, 204, 255,
    ] as [u8; 256];
    assert_eq!(*result.get_buf(), expected);
}
