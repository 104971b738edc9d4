use image::{ImageBuffer, ImageFormat, Rgb, RgbImage};
use klldap::images::{
    avatar_to_graphql_base64, check_dimensions, check_encoded, check_upload_format, is_valid_avatar_dimensions,
    make_test_avatar_value, make_test_jpeg_bytes, process_avatar_input, validate_stored_avatar_bytes, AvatarError,
    ImageKind, MAX_AVATAR_JPEG_SIZE,
};
use klldap::types::{Avatar, AttributeValue, Cardinality};
use std::io::Cursor;

fn make_test_jpeg(size: u32) -> Vec<u8> {
    let img: RgbImage = ImageBuffer::from_fn(size, size, |x, y| {
        if (x + y) % 2 == 0 {
            Rgb([0, 0, 0])
        } else {
            Rgb([255, 255, 255])
        }
    });
    let mut buf = Vec::new();
    img.write_to(&mut Cursor::new(&mut buf), ImageFormat::Jpeg).unwrap();
    buf
}

fn make_test_png(size: u32) -> Vec<u8> {
    let img: RgbImage = ImageBuffer::from_fn(size, size, |x, y| Rgb([(x % 256) as u8, (y % 256) as u8, 128]));
    let mut buf = Vec::new();
    img.write_to(&mut Cursor::new(&mut buf), ImageFormat::Png).unwrap();
    buf
}

#[test]
fn test_valid_512_jpeg_passes() {
    let jpeg = make_test_jpeg(512);
    let result = process_avatar_input(&jpeg);
    assert!(result.is_ok());
    let out = result.unwrap();
    assert!(!out.is_empty());
    assert!(out.len() < MAX_AVATAR_JPEG_SIZE);
    assert_eq!(&out[0..2], &[0xFF, 0xD8]);
}

#[test]
fn test_png_converts_to_jpeg() {
    let png = make_test_png(512);
    let result = process_avatar_input(&png);
    assert!(result.is_ok());
    let out = result.unwrap();
    assert_eq!(&out[0..2], &[0xFF, 0xD8]);
}

#[test]
fn test_oversized_image_rejected() {
    let jpeg = make_test_jpeg(600);
    let err = process_avatar_input(&jpeg).unwrap_err();
    match err {
        AvatarError::WrongDimensions { width, height } => {
            assert_eq!(width, 600);
            assert_eq!(height, 600);
        }
        _ => panic!("Expected WrongDimensions, got {:?}", err),
    }
}

#[test]
fn test_unsupported_format_rejected() {
    let gif = vec![
        0x47, 0x49, 0x46, 0x38, 0x39, 0x61, 0x01, 0x00, 0x01, 0x00, 0x00, 0x00, 0x00, 0x21, 0xF9, 0x04, 0x01, 0x00,
        0x00, 0x00, 0x00, 0x2C, 0x00, 0x00, 0x00, 0x00, 0x01, 0x00, 0x01, 0x00, 0x00, 0x02, 0x02, 0x4C, 0x01, 0x00,
        0x3B,
    ];
    let err = process_avatar_input(&gif).unwrap_err();
    assert!(matches!(err, AvatarError::UnsupportedFormat));
}

#[test]
fn test_empty_input_returns_empty() {
    let result = process_avatar_input(&[]).unwrap();
    assert!(result.is_empty());
}

#[test]
fn test_validate_stored_accepts_jpeg_and_png() {
    let jpeg = make_test_jpeg(512);
    assert!(validate_stored_avatar_bytes(&jpeg).is_ok());

    let png = make_test_png(512);
    assert!(validate_stored_avatar_bytes(&png).is_ok());
}

#[test]
fn test_processed_output_is_always_valid_for_validate() {
    let png = make_test_png(400);
    let processed = process_avatar_input(&png).unwrap();
    assert!(validate_stored_avatar_bytes(&processed).is_ok());
}

#[test]
fn stored_check_rejects_text() {
    let err = validate_stored_avatar_bytes(b"not a picture at all").unwrap_err();
    match err {
        AvatarError::InvalidImage(m) => assert_eq!(m, "Stored avatar is not a valid JPEG, PNG, or BMP"),
        _ => panic!("unexpected error {:?}", err),
    }
}

#[test]
fn stored_check_accepts_empty() {
    assert!(validate_stored_avatar_bytes(&[]).is_ok());
}

#[test]
fn stored_check_rejects_oversized() {
    let mut big = vec![0xFFu8, 0xD8];
    big.resize(MAX_AVATAR_JPEG_SIZE + 1, 0);
    assert!(matches!(validate_stored_avatar_bytes(&big), Err(AvatarError::TooLarge { size }) if size == MAX_AVATAR_JPEG_SIZE + 1));
}

#[test]
fn dimensions_limit_is_512() {
    assert!(is_valid_avatar_dimensions(512, 512));
    assert!(!is_valid_avatar_dimensions(513, 10));
    assert!(check_dimensions(512, 1).is_ok());
    assert!(matches!(check_dimensions(1, 513), Err(AvatarError::WrongDimensions { width: 1, height: 513 })));
}

#[test]
fn upload_format_decisions() {
    assert!(matches!(check_upload_format(10, Ok(Some(ImageKind::Png))), Ok(ImageKind::Png)));
    assert!(matches!(check_upload_format(10, Ok(Some(ImageKind::Other))), Err(AvatarError::UnsupportedFormat)));
    assert!(matches!(check_upload_format(10, Ok(None)), Err(AvatarError::UnsupportedFormat)));
}

#[test]
fn encoded_size_limit() {
    assert!(matches!(check_encoded(Ok(vec![0xFF, 0xD8, 1])), Ok(v) if v == vec![0xFF, 0xD8, 1]));
    assert!(matches!(check_encoded(Err("bad".to_string())), Err(AvatarError::InvalidImage(m)) if m == "bad"));
    let big = vec![0u8; MAX_AVATAR_JPEG_SIZE + 1];
    assert!(matches!(check_encoded(Ok(big)), Err(AvatarError::TooLarge { .. })));
}

#[test]
fn test_picture_is_a_stored_avatar() {
    let bytes = make_test_jpeg_bytes();
    assert_eq!(bytes.len(), 346);
    assert!(validate_stored_avatar_bytes(&bytes).is_ok());
    match make_test_avatar_value() {
        AttributeValue::Avatar(Cardinality::Singleton(a)) => assert_eq!(a.0, bytes),
        _ => panic!("expected a single avatar"),
    }
}

#[test]
fn avatar_base64_text() {
    assert_eq!(avatar_to_graphql_base64(&[]), "");
    assert_eq!(avatar_to_graphql_base64(&[0xFF, 0xD8, 0xFF]), "/9j/");
}

#[test]
fn avatar_new_reencodes_or_empties() {
    assert!(Avatar::new(Vec::new()).0.is_empty());
    assert!(Avatar::new(b"garbage".to_vec()).0.is_empty());
    let a = Avatar::new(make_test_png(64));
    assert_eq!(&a.0[0..2], &[0xFF, 0xD8]);
}

#[test]
fn avatar_error_texts() {
    assert!(!AvatarError::UnsupportedFormat.to_string().is_empty());
    assert!(AvatarError::WrongDimensions { width: 600, height: 700 }.to_string().contains("600"));
}
