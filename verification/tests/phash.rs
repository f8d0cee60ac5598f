use image::imageops::FilterType;
use image::{DynamicImage, RgbImage};
use yiffy_corner::phash::{dhash, dhash_of_thumbnail, hamming, PHashError, NEAR_DUPLICATE_DISTANCE};

fn encode_png(img: &DynamicImage) -> Vec<u8> {
    let mut buf = std::io::Cursor::new(Vec::new());
    img.write_to(&mut buf, image::ImageFormat::Png).unwrap();
    buf.into_inner()
}

/// A deterministic low-frequency test image (smooth radial gradient).
fn test_image(width: u32, height: u32) -> DynamicImage {
    let (cx, cy) = (width as f32 * 0.3, height as f32 * 0.6);
    DynamicImage::ImageRgb8(RgbImage::from_fn(width, height, |x, y| {
        let d = ((x as f32 - cx).powi(2) + (y as f32 - cy).powi(2)).sqrt();
        let max = (width.max(height)) as f32;
        let v = (255.0 * (1.0 - (d / max).min(1.0))) as u8;
        image::Rgb([v, (x as f32 / width as f32 * 255.0) as u8, 200 - v / 2])
    }))
}

#[test]
fn hamming_counts_differing_bits() {
    assert_eq!(hamming(0, 0), 0);
    assert_eq!(hamming(0, u64::MAX), 64);
    assert_eq!(hamming(0b1010, 0b0110), 2);
}

#[test]
fn hamming_is_symmetric_and_zero_on_equal_hashes() {
    let a: u64 = 0xDEAD_BEEF_0123_4567;
    let b: u64 = 0x0F0F_F0F0_AAAA_5555;
    assert_eq!(hamming(a, b), hamming(b, a));
    assert_eq!(hamming(a, a), 0);
    assert!(hamming(a, b) <= 64);
}

#[test]
fn same_image_hashes_identically() {
    let bytes = encode_png(&test_image(200, 150));
    assert_eq!(dhash(&bytes).unwrap(), dhash(&bytes).unwrap());
}

#[test]
fn rescaled_image_stays_within_near_duplicate_distance() {
    let original = test_image(400, 300);
    let scaled = original.resize_exact(200, 150, FilterType::Triangle);
    let a = dhash(&encode_png(&original)).unwrap();
    let b = dhash(&encode_png(&scaled)).unwrap();
    assert!(
        hamming(a, b) <= NEAR_DUPLICATE_DISTANCE,
        "rescale drifted {} bits",
        hamming(a, b)
    );
}

#[test]
fn different_images_are_far_apart() {
    let a = dhash(&encode_png(&test_image(200, 150))).unwrap();
    let other = DynamicImage::ImageRgb8(RgbImage::from_fn(200, 150, |x, y| {
        let v = (x as f32 / 200.0 * 255.0) as u8;
        image::Rgb([255 - v, (y as f32 / 150.0 * 255.0) as u8, v])
    }));
    let b = dhash(&encode_png(&other)).unwrap();
    assert!(hamming(a, b) > 10, "only {} bits apart", hamming(a, b));
}

#[test]
fn garbage_bytes_fail_to_decode() {
    assert!(matches!(
        dhash(b"not an image at all"),
        Err(PHashError::Decode(_))
    ));
}

#[test]
fn thumbnail_bits_read_left_darker_than_right() {
    // Every row strictly brightens to the right: every bit is set.
    let mut rising = Vec::new();
    for _y in 0..8u8 {
        for x in 0..9u8 {
            rising.push(x * 10);
        }
    }
    assert_eq!(dhash_of_thumbnail(&rising), u64::MAX);
    // A flat thumbnail has no darker-left pixel: every bit is clear.
    let flat = vec![128u8; 72];
    assert_eq!(dhash_of_thumbnail(&flat), 0);
    // Only the very first pair rises: only the most significant bit is set.
    let mut first = vec![50u8; 72];
    first[1] = 60;
    assert_eq!(dhash_of_thumbnail(&first), 1u64 << 63);
}

#[test]
fn a_uniform_image_hashes_to_zero() {
    let img = DynamicImage::ImageRgb8(RgbImage::from_pixel(32, 32, image::Rgb([90, 90, 90])));
    assert_eq!(dhash(&encode_png(&img)).unwrap(), 0);
}
