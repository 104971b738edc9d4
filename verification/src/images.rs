//! Avatar pictures: checking stored bytes and turning uploaded images into
//! bounded JPEG pictures.
//!
//! A stored avatar is a JPEG picture of at most 512x512 pixels and 512 KiB.
use vstd::prelude::*;
use crate::text::{copy_str, decimal, push_decimal, push_str};
use crate::types::{AttributeValue, Avatar, Cardinality};

verus! {

/// Largest width and height of an avatar, in pixels.
pub const MAX_AVATAR_SIZE: u32 = 512;

/// The size that uploaded avatars are held to.
pub const TARGET_AVATAR_SIZE: u32 = MAX_AVATAR_SIZE;

/// JPEG quality used when re-encoding uploads.
pub const JPEG_QUALITY: u8 = 82;

/// Largest size of a stored avatar, in bytes (512 KiB).
pub const MAX_AVATAR_JPEG_SIZE: usize = 524288;

/// Largest accepted BMP upload, in bytes (2 MiB): BMP is not compressed.
pub const MAX_BMP_INPUT_SIZE: usize = 2097152;

/// Why an avatar was refused.
#[derive(Clone, Debug, PartialEq, Eq)]
pub enum AvatarError {
    WrongDimensions { width: u32, height: u32 },
    UnsupportedFormat,
    TooLarge { size: usize },
    InvalidImage(String),
}

/// The text of an avatar error.
pub open spec fn avatar_error_text(e: AvatarError) -> Seq<char> {
    match e {
        AvatarError::WrongDimensions { width, height } => "Avatar must be at most 512x512 pixels (got "@
            + decimal(width as nat) + "x"@ + decimal(height as nat) + ")"@,
        AvatarError::UnsupportedFormat => "Unsupported image format. Only JPEG, PNG, or BMP allowed."@,
        AvatarError::TooLarge { size } => "Avatar too large ("@ + decimal(size as nat)
            + " bytes > 512 KiB limit)"@,
        AvatarError::InvalidImage(msg) => "Invalid or corrupted image data: "@ + msg@,
    }
}

impl AvatarError {
    /// The message shown for the error.
    pub fn to_string(&self) -> (r: String)
        ensures
            r@ == avatar_error_text(*self),
    {
        match self {
            AvatarError::WrongDimensions { width, height } => {
                let mut s = copy_str("Avatar must be at most 512x512 pixels (got ");
                push_decimal(&mut s, *width as u64);
                push_str(&mut s, "x");
                push_decimal(&mut s, *height as u64);
                push_str(&mut s, ")");
                s
            },
            AvatarError::UnsupportedFormat => copy_str(
                "Unsupported image format. Only JPEG, PNG, or BMP allowed.",
            ),
            AvatarError::TooLarge { size } => {
                let mut s = copy_str("Avatar too large (");
                push_decimal(&mut s, *size as u64);
                push_str(&mut s, " bytes > 512 KiB limit)");
                s
            },
            AvatarError::InvalidImage(msg) => {
                let mut s = copy_str("Invalid or corrupted image data: ");
                push_str(&mut s, msg.as_str());
                s
            },
        }
    }
}

/// Whether bytes start with the JPEG start-of-image marker.
pub open spec fn starts_as_jpeg(b: Seq<u8>) -> bool {
    b.len() >= 2 && b[0] == 0xFFu8 && b[1] == 0xD8u8
}

/// Whether bytes start with the PNG signature.
pub open spec fn starts_as_png(b: Seq<u8>) -> bool {
    b.len() >= 4 && b[0] == 0x89u8 && b[1] == 0x50u8 && b[2] == 0x4Eu8 && b[3] == 0x47u8
}

/// Whether bytes start with the BMP signature.
pub open spec fn starts_as_bmp(b: Seq<u8>) -> bool {
    b.len() >= 2 && b[0] == 0x42u8 && b[1] == 0x4Du8
}

/// What is decided of stored avatar bytes.
pub enum StoredVerdict {
    Accepted,
    TooLarge(nat),
    NotAPicture,
}

/// The verdict on stored avatar bytes: empty is no picture; otherwise at most
/// 512 KiB, and a JPEG, or (for older data) a PNG or BMP of at least four bytes.
pub open spec fn stored_avatar_verdict(b: Seq<u8>) -> StoredVerdict {
    if b.len() == 0 {
        StoredVerdict::Accepted
    } else if b.len() > MAX_AVATAR_JPEG_SIZE {
        StoredVerdict::TooLarge(b.len())
    } else if starts_as_jpeg(b) {
        StoredVerdict::Accepted
    } else if b.len() >= 4 && (starts_as_png(b) || starts_as_bmp(b)) {
        StoredVerdict::Accepted
    } else {
        StoredVerdict::NotAPicture
    }
}

/// Checks avatar bytes read back from storage.
pub fn validate_stored_avatar_bytes(bytes: &[u8]) -> (r: Result<(), AvatarError>)
    ensures
        match stored_avatar_verdict(bytes@) {
            StoredVerdict::Accepted => r is Ok,
            StoredVerdict::TooLarge(n) => r matches Err(AvatarError::TooLarge { size }) && size == n,
            StoredVerdict::NotAPicture => r matches Err(AvatarError::InvalidImage(m))
                && m@ == "Stored avatar is not a valid JPEG, PNG, or BMP"@,
        },
{
    if bytes.len() == 0 {
        return Ok(());
    }
    if bytes.len() > MAX_AVATAR_JPEG_SIZE {
        return Err(AvatarError::TooLarge { size: bytes.len() });
    }
    if bytes.len() >= 2 && bytes[0] == 0xFFu8 && bytes[1] == 0xD8u8 {
        return Ok(());
    }
    if bytes.len() >= 4 {
        let is_png = bytes[0] == 0x89u8 && bytes[1] == 0x50u8 && bytes[2] == 0x4Eu8 && bytes[3]
            == 0x47u8;
        let is_bmp = bytes[0] == 0x42u8 && bytes[1] == 0x4Du8;
        if is_png || is_bmp {
            return Ok(());
        }
    }
    Err(AvatarError::InvalidImage(copy_str("Stored avatar is not a valid JPEG, PNG, or BMP")))
}

/// Whether a picture of this size may be an avatar.
pub fn is_valid_avatar_dimensions(width: u32, height: u32) -> (r: bool)
    ensures
        r == (width <= TARGET_AVATAR_SIZE && height <= TARGET_AVATAR_SIZE),
{
    width <= TARGET_AVATAR_SIZE && height <= TARGET_AVATAR_SIZE
}

/// The picture formats that uploads may have, and all others.
#[derive(Clone, Copy, Debug, PartialEq, Eq, Structural)]
pub enum ImageKind {
    Jpeg,
    Png,
    Bmp,
    Other,
}

#[verifier::external_type_specification]
#[verifier::external_body]
pub struct ExDynamicImage(image::DynamicImage);

/// Guesses the format from the leading bytes (`image::ImageReader::with_guessed_format`,
/// then `ImageReader::format`). Nothing is stated of the result: the guess also
/// consults format hooks that a program may register at run time.
#[verifier::external_body]
fn guess_image_format(input: &[u8]) -> (r: Result<Option<ImageKind>, String>) {
    match image::ImageReader::new(std::io::Cursor::new(input)).with_guessed_format() {
        Ok(reader) => match reader.format() {
            Some(image::ImageFormat::Jpeg) => Ok(Some(ImageKind::Jpeg)),
            Some(image::ImageFormat::Png) => Ok(Some(ImageKind::Png)),
            Some(image::ImageFormat::Bmp) => Ok(Some(ImageKind::Bmp)),
            Some(_) => Ok(Some(ImageKind::Other)),
            None => Ok(None),
        },
        Err(e) => Err(e.to_string()),
    }
}

/// Decodes a picture (`image::load_from_memory`). Nothing is stated of the result,
/// for the same reason as for the format guess.
#[verifier::external_body]
fn load_image(input: &[u8]) -> (r: Result<image::DynamicImage, String>) {
    match image::load_from_memory(input) {
        Ok(img) => Ok(img),
        Err(e) => Err(e.to_string()),
    }
}

/// The width of a decoded picture (`DynamicImage::width`).
#[verifier::external_body]
fn image_width(img: &image::DynamicImage) -> (r: u32) {
    img.width()
}

/// The height of a decoded picture (`DynamicImage::height`).
#[verifier::external_body]
fn image_height(img: &image::DynamicImage) -> (r: u32) {
    img.height()
}

/// Encodes a picture as JPEG into a new buffer (`JpegEncoder::new_with_quality`, then
/// `encode_image`). The encoder writes the start-of-image marker `FF D8` before
/// anything else, so a successful encoding starts with it.
#[verifier::external_body]
fn encode_jpeg(img: &image::DynamicImage, quality: u8) -> (r: Result<Vec<u8>, String>)
    ensures
        r matches Ok(b) ==> starts_as_jpeg(b@),
{
    let mut buf: Vec<u8> = Vec::new();
    let res = image::codecs::jpeg::JpegEncoder::new_with_quality(&mut buf, quality).encode_image(img);
    match res {
        Ok(()) => Ok(buf),
        Err(e) => Err(e.to_string()),
    }
}

/// The largest upload accepted for a format.
pub open spec fn max_input_size(kind: ImageKind) -> nat {
    if kind == ImageKind::Bmp {
        MAX_BMP_INPUT_SIZE as nat
    } else {
        MAX_AVATAR_JPEG_SIZE as nat
    }
}

/// Decides on an upload from its size and its guessed format: an error from the
/// guess is an invalid image, no format or a format other than JPEG, PNG and BMP is
/// unsupported, and the upload may not exceed the limit of its format.
pub fn check_upload_format(input_len: usize, guess: Result<Option<ImageKind>, String>) -> (r: Result<
    ImageKind,
    AvatarError,
>)
    ensures
        match guess {
            Err(m) => r == Err::<ImageKind, AvatarError>(AvatarError::InvalidImage(m)),
            Ok(None) => r == Err::<ImageKind, AvatarError>(AvatarError::UnsupportedFormat),
            Ok(Some(k)) => if k == ImageKind::Other {
                r == Err::<ImageKind, AvatarError>(AvatarError::UnsupportedFormat)
            } else if input_len > max_input_size(k) {
                r == Err::<ImageKind, AvatarError>(AvatarError::TooLarge { size: input_len })
            } else {
                r == Ok::<ImageKind, AvatarError>(k)
            },
        },
{
    let kind = match guess {
        Err(m) => return Err(AvatarError::InvalidImage(m)),
        Ok(None) => return Err(AvatarError::UnsupportedFormat),
        Ok(Some(k)) => k,
    };
    if kind == ImageKind::Other {
        return Err(AvatarError::UnsupportedFormat);
    }
    let max_input = if kind == ImageKind::Bmp {
        MAX_BMP_INPUT_SIZE
    } else {
        MAX_AVATAR_JPEG_SIZE
    };
    if input_len > max_input {
        return Err(AvatarError::TooLarge { size: input_len });
    }
    Ok(kind)
}

/// Refuses a picture wider or higher than the avatar limit.
pub fn check_dimensions(width: u32, height: u32) -> (r: Result<(), AvatarError>)
    ensures
        if width > TARGET_AVATAR_SIZE || height > TARGET_AVATAR_SIZE {
            r == Err::<(), AvatarError>(AvatarError::WrongDimensions { width, height })
        } else {
            r is Ok
        },
{
    if width > TARGET_AVATAR_SIZE || height > TARGET_AVATAR_SIZE {
        Err(AvatarError::WrongDimensions { width, height })
    } else {
        Ok(())
    }
}

/// Keeps an encoding that fits the stored-avatar limit.
pub fn check_encoded(encoded: Result<Vec<u8>, String>) -> (r: Result<Vec<u8>, AvatarError>)
    ensures
        match encoded {
            Err(m) => r == Err::<Vec<u8>, AvatarError>(AvatarError::InvalidImage(m)),
            Ok(b) => if b@.len() > MAX_AVATAR_JPEG_SIZE {
                r == Err::<Vec<u8>, AvatarError>(AvatarError::TooLarge { size: b.len() })
            } else {
                r == Ok::<Vec<u8>, AvatarError>(b)
            },
        },
{
    match encoded {
        Err(m) => Err(AvatarError::InvalidImage(m)),
        Ok(b) => {
            if b.len() > MAX_AVATAR_JPEG_SIZE {
                Err(AvatarError::TooLarge { size: b.len() })
            } else {
                Ok(b)
            }
        },
    }
}

/// The shape of every avatar that uploads produce: nothing, or a JPEG within the size limit.
pub open spec fn avatar_output_shape(b: Seq<u8>) -> bool {
    b.len() == 0 || (starts_as_jpeg(b) && b.len() <= MAX_AVATAR_JPEG_SIZE)
}

/// Turns an uploaded picture (JPEG, PNG or BMP) into a JPEG avatar of at most
/// 512x512 pixels and 512 KiB; the empty upload stays empty.
pub fn process_avatar_input(input: &[u8]) -> (r: Result<Vec<u8>, AvatarError>)
    ensures
        input@.len() == 0 ==> (r matches Ok(b) && b@.len() == 0),
        input@.len() > 0 ==> (r matches Ok(b) ==> starts_as_jpeg(b@) && b@.len() <= MAX_AVATAR_JPEG_SIZE),
        r matches Ok(b) ==> avatar_output_shape(b@),
        r matches Err(AvatarError::WrongDimensions { width, height }) ==> width > TARGET_AVATAR_SIZE
            || height > TARGET_AVATAR_SIZE,
        r matches Err(AvatarError::TooLarge { size }) ==> size > MAX_AVATAR_JPEG_SIZE,
{
    if input.len() == 0 {
        return Ok(Vec::new());
    }
    let guess = guess_image_format(input);
    match check_upload_format(input.len(), guess) {
        Ok(_) => {},
        Err(e) => return Err(e),
    }
    let img = match load_image(input) {
        Ok(img) => img,
        Err(m) => return Err(AvatarError::InvalidImage(m)),
    };
    match check_dimensions(image_width(&img), image_height(&img)) {
        Ok(()) => {},
        Err(e) => return Err(e),
    }
    let encoded = encode_jpeg(&img, JPEG_QUALITY);
    check_encoded(encoded)
}

/// Every avatar that an upload produces passes the check of stored avatars.
pub proof fn processed_avatar_passes_storage_check(b: Seq<u8>)
    requires
        avatar_output_shape(b),
    ensures
        stored_avatar_verdict(b) == StoredVerdict::Accepted,
{
}

/// The character of a six-bit value in the standard base64 alphabet
/// (`A`-`Z`, `a`-`z`, `0`-`9`, `+`, `/`).
pub open spec fn base64_digit(v: int) -> char {
    if v < 26 {
        (65 + v) as char
    } else if v < 52 {
        (97 + (v - 26)) as char
    } else if v < 62 {
        (48 + (v - 52)) as char
    } else if v == 62 {
        '+'
    } else {
        '/'
    }
}

/// The standard base64 text (with padding) of some bytes: each group of three bytes
/// becomes four characters of six bits each; a last group of one or two bytes is
/// padded with `=`.
pub open spec fn base64_standard(bytes: Seq<u8>) -> Seq<char>
    decreases bytes.len(),
{
    if bytes.len() == 0 {
        Seq::empty()
    } else if bytes.len() == 1 {
        let x = bytes[0] as int;
        seq![base64_digit(x / 4), base64_digit((x % 4) * 16), '=', '=']
    } else if bytes.len() == 2 {
        let (x, y) = (bytes[0] as int, bytes[1] as int);
        seq![base64_digit(x / 4), base64_digit((x % 4) * 16 + y / 16), base64_digit((y % 16) * 4), '=']
    } else {
        let (x, y, z) = (bytes[0] as int, bytes[1] as int, bytes[2] as int);
        seq![
            base64_digit(x / 4),
            base64_digit((x % 4) * 16 + y / 16),
            base64_digit((y % 16) * 4 + z / 64),
            base64_digit(z % 64),
        ] + base64_standard(bytes.subrange(3, bytes.len() as int))
    }
}

/// Encodes bytes as standard base64 with padding
/// (`base64::engine::general_purpose::STANDARD.encode`): four characters for every
/// started group of three bytes.
#[verifier::external_body]
fn base64_encode(bytes: &[u8]) -> (r: String)
    ensures
        r@ == base64_standard(bytes@),
        r@.len() == 4 * ((bytes@.len() + 2) / 3),
{
    base64::Engine::encode(&base64::engine::general_purpose::STANDARD, bytes)
}

/// The base64 text of stored avatar bytes, as the GraphQL API serves it; empty for no picture.
pub fn avatar_to_graphql_base64(jpeg_bytes: &[u8]) -> (r: String)
    ensures
        r@ == (if jpeg_bytes@.len() == 0 {
            Seq::<char>::empty()
        } else {
            base64_standard(jpeg_bytes@)
        }),
{
    if jpeg_bytes.len() == 0 {
        return crate::text::empty_string();
    }
    base64_encode(jpeg_bytes)
}

/// The bytes of a small 64x64 JPEG picture, for tests.
pub open spec fn test_jpeg() -> Seq<u8> {
    seq![
        0xFF, 0xD8, 0xFF, 0xE0, 0x00, 0x10, 0x4A, 0x46, 0x49, 0x46, 0x00, 0x01,
        0x01, 0x00, 0x00, 0x01, 0x00, 0x01, 0x00, 0x00, 0xFF, 0xDB, 0x00, 0x43,
        0x00, 0x08, 0x06, 0x06, 0x07, 0x06, 0x05, 0x08, 0x07, 0x07, 0x07, 0x09,
        0x09, 0x08, 0x0A, 0x0C, 0x14, 0x0D, 0x0C, 0x0B, 0x0B, 0x0C, 0x19, 0x12,
        0x13, 0x0F, 0x14, 0x1D, 0x1A, 0x1F, 0x1E, 0x1D, 0x1A, 0x1C, 0x1C, 0x20,
        0x24, 0x2E, 0x27, 0x20, 0x22, 0x2C, 0x23, 0x1C, 0x1C, 0x28, 0x37, 0x29,
        0x2C, 0x30, 0x31, 0x34, 0x34, 0x34, 0x1F, 0x27, 0x39, 0x3D, 0x38, 0x32,
        0x3C, 0x2E, 0x33, 0x34, 0x32, 0xFF, 0xC0, 0x00, 0x11, 0x08, 0x00, 0x40,
        0x00, 0x40, 0x03, 0x01, 0x22, 0x00, 0x02, 0x11, 0x01, 0x03, 0x11, 0x01,
        0xFF, 0xC4, 0x00, 0x1F, 0x00, 0x00, 0x01, 0x05, 0x01, 0x01, 0x01, 0x01,
        0x01, 0x01, 0x00, 0x00, 0x00, 0x00, 0x00, 0x00, 0x00, 0x00, 0x01, 0x02,
        0x03, 0x04, 0x05, 0x06, 0x07, 0x08, 0x09, 0x0A, 0x0B, 0xFF, 0xC4, 0x00,
        0xB5, 0x10, 0x00, 0x02, 0x01, 0x03, 0x03, 0x02, 0x04, 0x03, 0x05, 0x05,
        0x04, 0x04, 0x00, 0x00, 0x01, 0x7D, 0x01, 0x02, 0x03, 0x00, 0x04, 0x11,
        0x05, 0x12, 0x21, 0x31, 0x41, 0x06, 0x13, 0x51, 0x61, 0x07, 0x22, 0x71,
        0x14, 0x32, 0x81, 0x91, 0xA1, 0x08, 0x23, 0x42, 0xB1, 0xC1, 0x15, 0x52,
        0xD1, 0xF0, 0x24, 0x33, 0x62, 0x72, 0x82, 0x09, 0x0A, 0x16, 0x17, 0x18,
        0x19, 0x1A, 0x25, 0x26, 0x27, 0x28, 0x29, 0x2A, 0x34, 0x35, 0x36, 0x37,
        0x38, 0x39, 0x3A, 0x43, 0x44, 0x45, 0x46, 0x47, 0x48, 0x49, 0x4A, 0x53,
        0x54, 0x55, 0x56, 0x57, 0x58, 0x59, 0x5A, 0x63, 0x64, 0x65, 0x66, 0x67,
        0x68, 0x69, 0x6A, 0x73, 0x74, 0x75, 0x76, 0x77, 0x78, 0x79, 0x7A, 0x83,
        0x84, 0x85, 0x86, 0x87, 0x88, 0x89, 0x8A, 0x92, 0x93, 0x94, 0x95, 0x96,
        0x97, 0x98, 0x99, 0x9A, 0xA2, 0xA3, 0xA4, 0xA5, 0xA6, 0xA7, 0xA8, 0xA9,
        0xAA, 0xB2, 0xB3, 0xB4, 0xB5, 0xB6, 0xB7, 0xB8, 0xB9, 0xBA, 0xC2, 0xC3,
        0xC4, 0xC5, 0xC6, 0xC7, 0xC8, 0xC9, 0xCA, 0xD2, 0xD3, 0xD4, 0xD5, 0xD6,
        0xD7, 0xD8, 0xD9, 0xDA, 0xE1, 0xE2, 0xE3, 0xE4, 0xE5, 0xE6, 0xE7, 0xE8,
        0xE9, 0xEA, 0xF1, 0xF2, 0xF3, 0xF4, 0xF5, 0xF6, 0xF7, 0xF8, 0xF9, 0xFA,
        0xFF, 0xDA, 0x00, 0x0C, 0x03, 0x01, 0x00, 0x02, 0x11, 0x03, 0x11, 0x00,
        0x3F, 0x00, 0xF9, 0xFE, 0x8A, 0x28, 0xA0, 0x0F, 0xFF, 0xD9,
    ]
}

/// A small valid JPEG picture, for tests.
pub fn make_test_jpeg_bytes() -> (r: Vec<u8>)
    ensures
        r@ == test_jpeg(),
{
    let v: Vec<u8> = vec![
        0xFF, 0xD8, 0xFF, 0xE0, 0x00, 0x10, 0x4A, 0x46, 0x49, 0x46, 0x00, 0x01,
        0x01, 0x00, 0x00, 0x01, 0x00, 0x01, 0x00, 0x00, 0xFF, 0xDB, 0x00, 0x43,
        0x00, 0x08, 0x06, 0x06, 0x07, 0x06, 0x05, 0x08, 0x07, 0x07, 0x07, 0x09,
        0x09, 0x08, 0x0A, 0x0C, 0x14, 0x0D, 0x0C, 0x0B, 0x0B, 0x0C, 0x19, 0x12,
        0x13, 0x0F, 0x14, 0x1D, 0x1A, 0x1F, 0x1E, 0x1D, 0x1A, 0x1C, 0x1C, 0x20,
        0x24, 0x2E, 0x27, 0x20, 0x22, 0x2C, 0x23, 0x1C, 0x1C, 0x28, 0x37, 0x29,
        0x2C, 0x30, 0x31, 0x34, 0x34, 0x34, 0x1F, 0x27, 0x39, 0x3D, 0x38, 0x32,
        0x3C, 0x2E, 0x33, 0x34, 0x32, 0xFF, 0xC0, 0x00, 0x11, 0x08, 0x00, 0x40,
        0x00, 0x40, 0x03, 0x01, 0x22, 0x00, 0x02, 0x11, 0x01, 0x03, 0x11, 0x01,
        0xFF, 0xC4, 0x00, 0x1F, 0x00, 0x00, 0x01, 0x05, 0x01, 0x01, 0x01, 0x01,
        0x01, 0x01, 0x00, 0x00, 0x00, 0x00, 0x00, 0x00, 0x00, 0x00, 0x01, 0x02,
        0x03, 0x04, 0x05, 0x06, 0x07, 0x08, 0x09, 0x0A, 0x0B, 0xFF, 0xC4, 0x00,
        0xB5, 0x10, 0x00, 0x02, 0x01, 0x03, 0x03, 0x02, 0x04, 0x03, 0x05, 0x05,
        0x04, 0x04, 0x00, 0x00, 0x01, 0x7D, 0x01, 0x02, 0x03, 0x00, 0x04, 0x11,
        0x05, 0x12, 0x21, 0x31, 0x41, 0x06, 0x13, 0x51, 0x61, 0x07, 0x22, 0x71,
        0x14, 0x32, 0x81, 0x91, 0xA1, 0x08, 0x23, 0x42, 0xB1, 0xC1, 0x15, 0x52,
        0xD1, 0xF0, 0x24, 0x33, 0x62, 0x72, 0x82, 0x09, 0x0A, 0x16, 0x17, 0x18,
        0x19, 0x1A, 0x25, 0x26, 0x27, 0x28, 0x29, 0x2A, 0x34, 0x35, 0x36, 0x37,
        0x38, 0x39, 0x3A, 0x43, 0x44, 0x45, 0x46, 0x47, 0x48, 0x49, 0x4A, 0x53,
        0x54, 0x55, 0x56, 0x57, 0x58, 0x59, 0x5A, 0x63, 0x64, 0x65, 0x66, 0x67,
        0x68, 0x69, 0x6A, 0x73, 0x74, 0x75, 0x76, 0x77, 0x78, 0x79, 0x7A, 0x83,
        0x84, 0x85, 0x86, 0x87, 0x88, 0x89, 0x8A, 0x92, 0x93, 0x94, 0x95, 0x96,
        0x97, 0x98, 0x99, 0x9A, 0xA2, 0xA3, 0xA4, 0xA5, 0xA6, 0xA7, 0xA8, 0xA9,
        0xAA, 0xB2, 0xB3, 0xB4, 0xB5, 0xB6, 0xB7, 0xB8, 0xB9, 0xBA, 0xC2, 0xC3,
        0xC4, 0xC5, 0xC6, 0xC7, 0xC8, 0xC9, 0xCA, 0xD2, 0xD3, 0xD4, 0xD5, 0xD6,
        0xD7, 0xD8, 0xD9, 0xDA, 0xE1, 0xE2, 0xE3, 0xE4, 0xE5, 0xE6, 0xE7, 0xE8,
        0xE9, 0xEA, 0xF1, 0xF2, 0xF3, 0xF4, 0xF5, 0xF6, 0xF7, 0xF8, 0xF9, 0xFA,
        0xFF, 0xDA, 0x00, 0x0C, 0x03, 0x01, 0x00, 0x02, 0x11, 0x03, 0x11, 0x00,
        0x3F, 0x00, 0xF9, 0xFE, 0x8A, 0x28, 0xA0, 0x0F, 0xFF, 0xD9,
    ];
    assert(v@ =~= test_jpeg());
    v
}

/// The test picture as an avatar attribute value.
pub fn make_test_avatar_value() -> (r: AttributeValue)
    ensures
        r matches AttributeValue::Avatar(Cardinality::Singleton(a)) && a.0@ == test_jpeg(),
{
    AttributeValue::Avatar(Cardinality::Singleton(Avatar(make_test_jpeg_bytes())))
}

/// The test picture passes the check of stored avatars.
pub proof fn test_jpeg_passes_storage_check()
    ensures
        stored_avatar_verdict(test_jpeg()) == StoredVerdict::Accepted,
{
    assert(test_jpeg().len() == 346);
}

/// The bytes that a standard base64 text (with padding) decodes to, if it is valid.
pub uninterp spec fn base64_standard_decoded(s: Seq<char>) -> Option<Seq<u8>>;

/// How the base64 decoding error for an invalid text is shown (`Display`).
pub uninterp spec fn base64_error_text(s: Seq<char>) -> Seq<char>;

/// Decodes standard base64 with padding (`base64::engine::general_purpose::STANDARD.decode`),
/// or gives the text of its error.
#[verifier::external_body]
pub(crate) fn base64_decode(s: &str) -> (r: Result<Vec<u8>, String>)
    ensures
        match r {
            Ok(v) => base64_standard_decoded(s@) == Some(v@),
            Err(m) => base64_standard_decoded(s@) is None && m@ == base64_error_text(s@),
        },
{
    match base64::Engine::decode(&base64::engine::general_purpose::STANDARD, s) {
        Ok(v) => Ok(v),
        Err(e) => Err(e.to_string()),
    }
}

impl Avatar {
    /// An avatar from picture bytes, re-encoded as an avatar JPEG; bytes that cannot
    /// be turned into an avatar give the empty avatar.
    pub fn new(bytes: Vec<u8>) -> (r: Avatar)
        ensures
            avatar_output_shape(r.0@),
            bytes@.len() == 0 ==> r.0@.len() == 0,
    {
        match process_avatar_input(bytes.as_slice()) {
            Ok(jpeg) => Avatar(jpeg),
            Err(_) => Avatar(Vec::new()),
        }
    }
}

} // verus!
