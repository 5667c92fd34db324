use aula_rgb::color::Rgb;
use aula_rgb::effects::import::{
    average_region, decode_gif, decode_still, pixels_from, still_format, DecodeError, Pixels, StillFormat,
};
use aula_rgb::pacing::{due, remaining};

fn image(width: u32, height: u32, rgba: Vec<[u8; 4]>) -> Pixels {
    Pixels { width, height, rgba }
}

#[test]
fn a_region_averages_its_pixels() {
    let img = image(2, 1, vec![[255, 0, 0, 255], [0, 0, 255, 255]]);
    assert_eq!(average_region(&img, 0, 2, 0, 1), Some(Rgb::new(127, 0, 127)));
}

#[test]
fn pixels_are_premultiplied_by_alpha() {
    let img = image(1, 1, vec![[200, 100, 50, 128]]);
    assert_eq!(average_region(&img, 0, 1, 0, 1), Some(Rgb::new(100, 50, 25)));
}

#[test]
fn a_transparent_region_is_unlit() {
    let img = image(2, 2, vec![[255, 255, 255, 0]; 4]);
    assert_eq!(average_region(&img, 0, 2, 0, 2), Some(Rgb::new(0, 0, 0)));
}

#[test]
fn a_solid_image_shows_its_colour_under_every_key() {
    let img = image(4, 3, vec![[12, 200, 99, 255]; 12]);
    for (x0, x1, y0, y1) in [(0, 1, 0, 1), (1, 4, 0, 3), (3, 9, 2, 7), (2, 2, 1, 1)] {
        assert_eq!(average_region(&img, x0, x1, y0, y1), Some(Rgb::new(12, 200, 99)));
    }
}

#[test]
fn an_empty_region_is_widened_to_one_pixel() {
    let img = image(3, 1, vec![[10, 0, 0, 255], [20, 0, 0, 255], [30, 0, 0, 255]]);
    assert_eq!(average_region(&img, 1, 1, 0, 0), Some(Rgb::new(20, 0, 0)));
    assert_eq!(average_region(&img, 2, 0, 0, 0), Some(Rgb::new(30, 0, 0)));
}

#[test]
fn a_region_past_the_edge_is_clipped() {
    let img = image(2, 2, vec![[10, 0, 0, 255], [30, 0, 0, 255], [50, 0, 0, 255], [70, 0, 0, 255]]);
    // Columns 1.. and rows 1.. of a 2×2 image: just the bottom-right pixel.
    assert_eq!(average_region(&img, 1, 40, 1, 40), Some(Rgb::new(70, 0, 0)));
    // The right column only.
    assert_eq!(average_region(&img, 1, 5, 0, 2), Some(Rgb::new(50, 0, 0)));
}

#[test]
fn a_region_outside_the_image_shows_nothing() {
    let img = image(2, 2, vec![[255, 255, 255, 255]; 4]);
    assert_eq!(average_region(&img, 2, 4, 0, 2), None);
    assert_eq!(average_region(&img, 0, 2, 5, 6), None);
    let empty = image(0, 0, Vec::new());
    assert_eq!(average_region(&empty, 0, 1, 0, 1), None);
}

#[test]
fn pacing_waits_out_only_the_rest_of_the_gap() {
    assert_eq!(remaining(None, 5_000, 46_000), 0);
    assert_eq!(remaining(Some(100_000), 130_000, 46_000), 16_000);
    assert_eq!(remaining(Some(100_000), 200_000, 46_000), 0);
    // A clock read before the last write counts as no time passed.
    assert_eq!(remaining(Some(100_000), 90_000, 46_000), 46_000);
    // Waiting out what is left leaves nothing more to wait for.
    let w = remaining(Some(100_000), 130_000, 46_000);
    assert_eq!(remaining(Some(100_000), 130_000 + w, 46_000), 0);

    assert!(due(None, 0, 2_000_000));
    assert!(!due(Some(0), 1_999_999, 2_000_000));
    assert!(due(Some(0), 2_000_000, 2_000_000));
}

fn le32(v: u32) -> [u8; 4] {
    v.to_le_bytes()
}

/// A 2×1 24-bit BMP: a red pixel, then a green one.
fn two_pixel_bmp() -> Vec<u8> {
    let mut b = vec![b'B', b'M'];
    b.extend(le32(62));
    b.extend(le32(0));
    b.extend(le32(54));
    b.extend(le32(40));
    b.extend(le32(2));
    b.extend(le32(1));
    b.extend([1, 0, 24, 0]);
    b.extend(le32(0));
    b.extend(le32(8));
    b.extend(le32(2835));
    b.extend(le32(2835));
    b.extend(le32(0));
    b.extend(le32(0));
    b.extend([0, 0, 255, 0, 255, 0, 0, 0]);
    b
}

#[test]
fn extensions_name_still_formats() {
    assert_eq!(still_format("png"), Some(StillFormat::Png));
    assert_eq!(still_format("jpg"), Some(StillFormat::Jpeg));
    assert_eq!(still_format("jpeg"), Some(StillFormat::Jpeg));
    assert_eq!(still_format("bmp"), Some(StillFormat::Bmp));
    assert_eq!(still_format("webp"), Some(StillFormat::WebP));
    assert_eq!(still_format("tga"), Some(StillFormat::Tga));
    assert_eq!(still_format("gif"), None);
    assert_eq!(still_format("PNG"), None);
}

#[test]
fn pixels_must_make_a_whole_image() {
    let p = pixels_from(2, 1, vec![[1, 2, 3, 4], [5, 6, 7, 8]]).expect("two pixels make 2×1");
    assert_eq!((p.width, p.height, p.rgba.len()), (2, 1, 2));
    assert!(pixels_from(2, 2, vec![[0; 4]; 3]).is_none());
    assert!(pixels_from(0, 5, Vec::new()).is_some());
}

#[test]
fn a_bmp_decodes_to_its_pixels() {
    let px = decode_still(&two_pixel_bmp(), StillFormat::Bmp).expect("a valid BMP");
    assert_eq!((px.width, px.height), (2, 1));
    assert_eq!(px.rgba, vec![[255, 0, 0, 255], [0, 255, 0, 255]]);
    assert_eq!(average_region(&px, 0, 1, 0, 1), Some(Rgb::new(255, 0, 0)));
}

#[test]
fn undecodable_bytes_are_reported() {
    assert!(matches!(decode_still(b"not an image", StillFormat::Png), Err(DecodeError::Unreadable(_))));
    // Right bytes, wrong format: the extension decides, as for a file.
    assert!(matches!(decode_still(&two_pixel_bmp(), StillFormat::Png), Err(DecodeError::Unreadable(_))));
    assert!(matches!(decode_gif(b"GIF? no"), Err(DecodeError::Unreadable(_))));
}

#[test]
fn a_gif_decodes_frame_by_frame() {
    let gif: Vec<u8> = vec![
        0x47, 0x49, 0x46, 0x38, 0x39, 0x61, 0x01, 0x00, 0x01, 0x00, 0x80, 0x00, 0x00, 0xFF, 0x00, 0x00,
        0x00, 0x00, 0x00, 0x21, 0xF9, 0x04, 0x00, 0x0A, 0x00, 0x00, 0x00, 0x2C, 0x00, 0x00, 0x00, 0x00,
        0x01, 0x00, 0x01, 0x00, 0x00, 0x02, 0x02, 0x44, 0x01, 0x00, 0x3B,
    ];
    let frames = decode_gif(&gif).expect("a valid GIF");
    assert_eq!(frames.len(), 1);
    let f = &frames[0];
    assert_eq!((f.pixels.width, f.pixels.height), (1, 1));
    assert_eq!(f.pixels.rgba, vec![[255, 0, 0, 255]]);
    assert_eq!(f.delay_num, 100 * f.delay_den, "ten hundredths of a second");
}
