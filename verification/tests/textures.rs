//! Texture construction and sampling, background wrap, color text.

use raycaster::color::RgbColor;
use raycaster::fixed::FP_ONE;
use raycaster::texture::{background_sample, FileTexture, InMemoryTexture, Texture};

fn checkered_bytes(w: usize, h: usize) -> Vec<u8> {
    let mut bytes = Vec::new();
    for i in 0..w * h {
        bytes.push((i % 256) as u8);
        bytes.push((i / 256) as u8);
        bytes.push(7);
        bytes.push(255);
    }
    bytes
}

#[test]
fn file_texture_accepts_matching_bytes() {
    let bytes = checkered_bytes(8, 4);
    let t = FileTexture::from_bytes(8, 4, &bytes).unwrap();
    assert_eq!(t.width, 8);
    assert_eq!(t.height, 4);
    assert_eq!(t.data.len(), 32);
    assert_eq!(t.data[11], RgbColor::rgba(11, 0, 7, 255));
}

#[test]
fn file_texture_rejects_wrong_byte_count() {
    let bytes = checkered_bytes(8, 4);
    assert!(FileTexture::from_bytes(8, 5, &bytes).is_none());
    let mut short = bytes.clone();
    short.pop();
    assert!(FileTexture::from_bytes(8, 4, &short).is_none());
}

#[test]
fn file_texture_rejects_empty_dimensions() {
    let bytes: Vec<u8> = Vec::new();
    assert!(FileTexture::from_bytes(0, 4, &bytes).is_none());
    assert!(FileTexture::from_bytes(4, 0, &bytes).is_none());
}

#[test]
fn texture_dimensions_are_uniform_over_variants() {
    let bytes = checkered_bytes(16, 16);
    let file = Texture::File(FileTexture::from_bytes(16, 16, &bytes).unwrap());
    assert_eq!(file.width(), 16);
    assert_eq!(file.height(), 16);
    let palette = Texture::InMemory(InMemoryTexture {
        width: 2,
        height: 2,
        bitmap: vec![vec![0, 1], vec![1, 0]],
        colors: vec![RgbColor::rgb(0, 0, 0), RgbColor::rgb(255, 255, 255)],
    });
    assert_eq!(palette.width(), 2);
    assert_eq!(palette.height(), 2);
}

#[test]
fn palette_texel_goes_through_the_palette() {
    let palette = Texture::InMemory(InMemoryTexture {
        width: 2,
        height: 2,
        bitmap: vec![vec![0, 1], vec![1, 0]],
        colors: vec![RgbColor::rgb(10, 20, 30), RgbColor::rgb(1, 2, 3)],
    });
    assert_eq!(palette.texel(0, 0), RgbColor::rgb(10, 20, 30));
    assert_eq!(palette.texel(0, 1), RgbColor::rgb(1, 2, 3));
    assert_eq!(palette.texel(1, 0), RgbColor::rgb(1, 2, 3));
}

#[test]
fn file_texel_is_row_major() {
    let bytes = checkered_bytes(8, 4);
    let t = Texture::File(FileTexture::from_bytes(8, 4, &bytes).unwrap());
    assert_eq!(t.texel(1, 3), RgbColor::rgba(11, 0, 7, 255));
}

#[test]
fn background_wraps_one_width_around() {
    let bytes = checkered_bytes(8, 4);
    let bg = FileTexture::from_bytes(8, 4, &bytes).unwrap();
    for y in 0..4 {
        assert_eq!(
            background_sample(&bg, (8 + 3) * FP_ONE, y),
            background_sample(&bg, 3 * FP_ONE, y)
        );
    }
}

#[test]
fn background_sample_rounds_the_offset_up() {
    let bytes = checkered_bytes(8, 4);
    let bg = FileTexture::from_bytes(8, 4, &bytes).unwrap();
    // offset 3 lands exactly on texel column 3; row wraps over the height
    assert_eq!(background_sample(&bg, 3 * FP_ONE, 1), RgbColor::rgba(11, 0, 7, 255));
    // a fractional offset rounds up to the next texel column
    assert_eq!(background_sample(&bg, 3 * FP_ONE + 1, 1), RgbColor::rgba(12, 0, 7, 255));
    // the row wraps with an ordinary remainder
    assert_eq!(background_sample(&bg, 3 * FP_ONE, 5), background_sample(&bg, 3 * FP_ONE, 1));
}

#[test]
fn color_text_lists_all_channels() {
    assert_eq!(RgbColor::rgb(95, 87, 79).to_string(), "rgb(95,87,79,255)");
    assert_eq!(RgbColor::rgba(0, 200, 3, 10).to_string(), "rgb(0,200,3,10)");
    assert_eq!(RgbColor::rgba(255, 255, 255, 255).to_string(), "rgb(255,255,255,255)");
}

#[test]
fn rgb_is_opaque() {
    let c = RgbColor::rgb(1, 2, 3);
    assert_eq!(c.alpha, 255);
    assert_eq!((c.red, c.green, c.blue), (1, 2, 3));
}

#[test]
fn file_texture_dimension_cap_is_the_address_space_bound() {
    // 16384 is accepted; one more would let 4 * w * h overflow a 32-bit
    // address space and is rejected
    let thin = checkered_bytes(16384, 1);
    assert!(FileTexture::from_bytes(16384, 1, &thin).is_some());
    let mut wider = thin.clone();
    wider.extend_from_slice(&[0, 0, 0, 0]);
    assert!(FileTexture::from_bytes(16385, 1, &wider).is_none());
}
