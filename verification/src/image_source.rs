//! Decoding source images with the image crate, with their EXIF orientation applied and a limit
//! on the decoded size.

use vstd::prelude::*;

use std::io::Cursor;

use image::{DynamicImage, ImageDecoder, ImageFormat, ImageReader};

use crate::text::{chars_of, string_of};

verus! {

/// The largest decoded size of a source image, in bytes (512 MiB).
pub const MAX_DECODED_SOURCE_BYTES: u64 = 536870912;

/// A decoded image as plain values: its size, the number of channels and bytes of one pixel,
/// and the pixel bytes row by row in the platform's byte order.
pub struct DecodedImage {
    pub width: u32,
    pub height: u32,
    pub channels: u8,
    pub bytes_per_pixel: u8,
    pub pixels: Vec<u8>,
}

/// The plain values of a decoded image.
pub open spec fn image_parts(image: DecodedImage) -> (u32, u32, u8, u8, Seq<u8>) {
    (image.width, image.height, image.channels, image.bytes_per_pixel, image.pixels@)
}

/// Names the decoded size that the image crate reports (`ImageDecoder::total_bytes`) for
/// encoded bytes read with a format hint from an extension, under the reader's default limits
/// (among them a 512 MiB allocation limit), or the error text where it cannot make a decoder.
pub uninterp spec fn decoder_total_bytes(bytes: Seq<u8>, extension: Seq<char>) -> Result<u64, Seq<char>>;

/// The decoded size reported by the image crate's decoder for encoded bytes; the contract only
/// names it.
#[verifier::external_body]
fn decoded_total(bytes: &[u8], extension: &str) -> (out: Result<u64, String>)
    ensures
        match out {
            Ok(total) => decoder_total_bytes(bytes@, extension@) == Ok::<u64, Seq<char>>(total),
            Err(e) => decoder_total_bytes(bytes@, extension@) == Err::<u64, Seq<char>>(e@),
        },
{
    let mut reader = ImageReader::new(Cursor::new(bytes.to_vec()));
    if let Some(format) = ImageFormat::from_extension(extension) {
        reader.set_format(format);
    }
    let reader = reader.with_guessed_format().map_err(|e| e.to_string())?;
    reader.into_decoder().map(|decoder| decoder.total_bytes()).map_err(|e| e.to_string())
}

/// Names the image that the image crate decodes from encoded bytes with a format hint from an
/// extension, under the reader's default limits, after applying its EXIF orientation, as plain
/// values (see `image_parts`), or the error text of the step that failed.
pub uninterp spec fn decoded_image(bytes: Seq<u8>, extension: Seq<char>) -> Result<(u32, u32, u8, u8, Seq<u8>), Seq<char>>;

/// The oriented image that the image crate decodes from encoded bytes; the contract only names it.
#[verifier::external_body]
fn decode_image(bytes: &[u8], extension: &str) -> (out: Result<DecodedImage, String>)
    ensures
        match out {
            Ok(image) => decoded_image(bytes@, extension@) == Ok::<(u32, u32, u8, u8, Seq<u8>), Seq<char>>(image_parts(image)),
            Err(e) => decoded_image(bytes@, extension@) == Err::<(u32, u32, u8, u8, Seq<u8>), Seq<char>>(e@),
        },
{
    let mut reader = ImageReader::new(Cursor::new(bytes.to_vec()));
    if let Some(format) = ImageFormat::from_extension(extension) {
        reader.set_format(format);
    }
    let reader = reader.with_guessed_format().map_err(|e| e.to_string())?;
    let mut decoder = reader.into_decoder().map_err(|e| e.to_string())?;
    let orientation = decoder.orientation().map_err(|e| e.to_string())?;
    let mut image = DynamicImage::from_decoder(decoder).map_err(|e| e.to_string())?;
    image.apply_orientation(orientation);
    let color = image.color();
    Ok(DecodedImage { width: image.width(), height: image.height(), channels: color.channel_count(), bytes_per_pixel: color.bytes_per_pixel(), pixels: image.into_bytes() })
}

/// The message for an image whose decoded size is over the limit.
pub open spec fn size_error() -> Seq<char> {
    "decoded image exceeds the 512 MiB source limit"@
}

/// Accepts a decoded size of at most 512 MiB.
pub fn check_decoded_size(total: u64) -> (out: Result<(), String>)
    ensures
        out is Ok <==> total <= MAX_DECODED_SOURCE_BYTES,
        out matches Err(e) ==> e@ == size_error(),
{
    if total > MAX_DECODED_SOURCE_BYTES {
        let message = chars_of("decoded image exceeds the 512 MiB source limit");
        Err(string_of(message.as_slice()))
    } else {
        Ok(())
    }
}

/// What decoding a source gives: the decoder's error, the size error when the decoder reports
/// more than 512 MiB, or else the decoded image or the error of decoding it.
pub open spec fn decoded_source(bytes: Seq<u8>, extension: Seq<char>) -> Result<(u32, u32, u8, u8, Seq<u8>), Seq<char>> {
    match decoder_total_bytes(bytes, extension) {
        Err(e) => Err(e),
        Ok(total) => if total > MAX_DECODED_SOURCE_BYTES {
            Err(size_error())
        } else {
            decoded_image(bytes, extension)
        },
    }
}

/// Decodes the encoded bytes of a source image whose path has the given extension (empty where
/// it has none): the decoder is asked for the decoded size first, and a size over 512 MiB is
/// refused before any pixel is decoded.
pub fn decode_source(bytes: &[u8], extension: &str) -> (out: Result<DecodedImage, String>)
    ensures
        match (out, decoded_source(bytes@, extension@)) {
            (Ok(image), Ok(parts)) => image_parts(image) == parts,
            (Err(e), Err(m)) => e@ == m,
            _ => false,
        },
{
    let total = match decoded_total(bytes, extension) {
        Ok(total) => total,
        Err(e) => {
            return Err(e);
        },
    };
    match check_decoded_size(total) {
        Ok(()) => {},
        Err(e) => {
            return Err(e);
        },
    }
    decode_image(bytes, extension)
}

} // verus!
