use image_dedup::aggregator::Aggregator;
use image_dedup::phash::HASH_BYTES;
use image_dedup::record::ErrorKind;
use image_dedup::worker::{analyze_image, MIN_IMAGE_SIZE};

/// Encodes a small gradient image as BMP bytes, comfortably above the
/// minimum file size.
fn bmp_bytes(width: u32, height: u32) -> Vec<u8> {
    let img = image::RgbaImage::from_fn(width, height, |x, y| {
        image::Rgba([(x * 3) as u8, (y * 5) as u8, ((x + y) * 2) as u8, 255])
    });
    let mut bytes: Vec<u8> = Vec::new();
    image::DynamicImage::ImageRgba8(img)
        .write_to(&mut bytes, image::ImageOutputFormat::Bmp)
        .unwrap();
    bytes
}

#[test]
fn small_files_are_rejected_before_decoding() {
    // A 9 KiB file is below the 10 KiB floor: recorded as TooSmall, not
    // hashed, with the file's size counted.
    let (bytes_read, result) = analyze_image("tiny.png".to_string(), 9 * 1024, Ok(vec![0u8; 9216]));
    assert_eq!(bytes_read, 9 * 1024);
    let failure = result.err().unwrap();
    assert_eq!(failure.path, "tiny.png");
    assert!(matches!(failure.kind, ErrorKind::TooSmall));
}

#[test]
fn corrupt_bytes_give_a_decode_failure() {
    let garbage = vec![0xABu8; 20_000];
    let (bytes_read, result) = analyze_image("broken.jpg".to_string(), 20_000, Ok(garbage));
    assert_eq!(bytes_read, 20_000);
    let failure = result.err().unwrap();
    assert_eq!(failure.path, "broken.jpg");
    assert!(matches!(failure.kind, ErrorKind::Decode(_)));
}

#[test]
fn unreadable_files_give_an_io_failure() {
    let (bytes_read, result) = analyze_image(
        "locked.png".to_string(),
        20_000,
        Err("permission denied".to_string()),
    );
    assert_eq!(bytes_read, 0);
    let failure = result.err().unwrap();
    assert_eq!(failure.path, "locked.png");
    match failure.kind {
        ErrorKind::Io(message) => assert_eq!(message, "permission denied"),
        _ => panic!("expected an io failure"),
    }
}

#[test]
fn valid_images_are_decoded_and_hashed() {
    let bytes = bmp_bytes(64, 64);
    assert!(bytes.len() as u64 >= MIN_IMAGE_SIZE);
    let (bytes_read, result) =
        analyze_image("ok.bmp".to_string(), bytes.len() as u64, Ok(bytes.clone()));
    assert_eq!(bytes_read, bytes.len() as u64);
    let record = result.ok().unwrap();
    assert_eq!(record.path, "ok.bmp");
    assert_eq!(record.hash.bits.len(), HASH_BYTES);
    assert_eq!(record.pixels.width, 64);
    assert_eq!(record.pixels.height, 64);
    assert_eq!(record.pixels.data.len(), 64 * 64 * 4);
}

#[test]
fn identical_images_hash_identically() {
    let bytes = bmp_bytes(64, 64);
    let (_, first) = analyze_image("one.bmp".to_string(), bytes.len() as u64, Ok(bytes.clone()));
    let (_, second) = analyze_image("two.bmp".to_string(), bytes.len() as u64, Ok(bytes));
    let a = first.ok().unwrap();
    let b = second.ok().unwrap();
    assert_eq!(a.hash.bits, b.hash.bits);
    // Fed to the aggregator, they pair up even at the tightest threshold.
    let mut agg = Aggregator::new(1);
    agg.accept(a, 0);
    agg.accept(b, 0);
    assert_eq!(agg.similar_images, vec![(1, 0)]);
}

#[test]
fn hashes_depend_on_content() {
    // A gradient and its transpose differ in many gradient bits; mainly,
    // the hash is not the pixel data handed back.
    let bytes_a = bmp_bytes(64, 64);
    let img_b = image::RgbaImage::from_fn(64, 64, |x, y| {
        image::Rgba([(y * 3) as u8, 0, 0, 255])
    });
    let mut bytes_b: Vec<u8> = Vec::new();
    image::DynamicImage::ImageRgba8(img_b)
        .write_to(&mut bytes_b, image::ImageOutputFormat::Bmp)
        .unwrap();
    let (_, first) = analyze_image("a.bmp".to_string(), bytes_a.len() as u64, Ok(bytes_a));
    let (_, second) = analyze_image("b.bmp".to_string(), bytes_b.len() as u64, Ok(bytes_b));
    let a = first.ok().unwrap();
    let b = second.ok().unwrap();
    assert_eq!(a.hash.bits.len(), HASH_BYTES);
    assert_eq!(b.hash.bits.len(), HASH_BYTES);
    assert_ne!(a.hash.bits, b.hash.bits);
}
