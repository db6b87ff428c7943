use image::{codecs::png::PngEncoder, ExtendedColorType, ImageEncoder};
use red_table::image_source::{check_decoded_size, decode_source, MAX_DECODED_SOURCE_BYTES};
use red_table::inspection::decoded_bytes;

#[test]
fn applies_exif_orientation_during_decode() {
    let mut encoded = Vec::new();
    let mut encoder = PngEncoder::new(&mut encoded);
    // Little-endian TIFF IFD with Orientation=6 (90 degrees clockwise).
    encoder
        .set_exif_metadata(vec![
            0x49, 0x49, 0x2a, 0x00, 0x08, 0x00, 0x00, 0x00, 0x01, 0x00, 0x12, 0x01, 0x03, 0x00,
            0x01, 0x00, 0x00, 0x00, 0x06, 0x00, 0x00, 0x00, 0x00, 0x00, 0x00, 0x00,
        ])
        .unwrap();
    encoder
        .write_image(&[255, 0, 0, 255, 0, 0, 255, 255], 2, 1, ExtendedColorType::Rgba8)
        .unwrap();

    let image = decode_source(&encoded, "png").unwrap();
    assert_eq!((image.width, image.height), (1, 2));
    assert_eq!(decoded_bytes(image.width, image.height, image.bytes_per_pixel), 8);
    assert_eq!(image.pixels, vec![255, 0, 0, 255, 0, 0, 255, 255]);
}

#[test]
fn corrupt_bytes_are_an_error_not_a_panic() {
    assert!(decode_source(b"not an image", "jpg").is_err());
}

#[test]
fn decoded_sizes_over_512_mib_are_refused() {
    assert!(check_decoded_size(MAX_DECODED_SOURCE_BYTES).is_ok());
    assert_eq!(
        check_decoded_size(MAX_DECODED_SOURCE_BYTES + 1),
        Err("decoded image exceeds the 512 MiB source limit".to_string())
    );
    assert_eq!(MAX_DECODED_SOURCE_BYTES, 512 * 1024 * 1024);
}
