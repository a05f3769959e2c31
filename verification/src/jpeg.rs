//! JPEG images: whether bytes are one, and the same image at another width.
use image::codecs::jpeg::{JpegDecoder, JpegEncoder};
use image::imageops::FilterType;
use image::{ColorType, DynamicImage, GenericImageView, ImageBuffer, ImageDecoder, ImageError};
use std::io::Cursor;
use vstd::prelude::*;

use crate::scale::{height_at, scaled_height, MAX_SIDE};
use crate::scans::{check_scans, scans_are_sound};

verus! {

/// Declares `image::ImageError`, the error of every call into `image`.
#[verifier::external_type_specification]
#[verifier::external_body]
pub struct ExImageError(ImageError);

/// Why an image could not be packaged or resized.
#[derive(Clone, Copy, Debug, PartialEq, Eq, Structural)]
pub enum ImageFault {
    /// The bytes do not begin as a JPEG image does.
    NotJpeg,
    /// The header was read, but the scans are not sound.
    UnsoundScans,
    /// The scans are sound, but the pixels could not be decoded.
    Undecodable,
    /// The pixels of the resized image do not fit in memory.
    TooLarge,
    /// The resized pixels could not be encoded.
    Unencodable,
}

/// The pixels of a decoded JPEG image, row by row: one byte for each grey pixel, three for each
/// coloured one.
pub struct Raster {
    pub width: u32,
    pub height: u32,
    pub rgb: bool,
    pub pixels: Vec<u8>,
}

/// How many bytes a pixel takes.
pub open spec fn channels(rgb: bool) -> nat {
    if rgb {
        3
    } else {
        1
    }
}

impl Raster {
    /// The sides are those of a JPEG image, and the pixels fill the area.
    pub open spec fn wf(&self) -> bool {
        &&& 0 < self.width <= MAX_SIDE
        &&& 0 < self.height <= MAX_SIDE
        &&& self.pixels@.len() == self.width * self.height * channels(self.rgb)
    }
}

/// The width and the height that `image::codecs::jpeg::JpegDecoder` reads from the header of
/// these bytes, or `None` where it refuses them.
pub uninterp spec fn jpeg_header(bytes: Seq<u8>) -> Option<(u32, u32)>;

/// Whether the image that these bytes hold is coloured, and its pixels, as
/// `image::DynamicImage::from_decoder` decodes them; and whether there is anything for which it can
/// refuse them, in what they hold or in the threads that it needs.
pub uninterp spec fn jpeg_pixels(bytes: Seq<u8>) -> (bool, Seq<u8>, bool);

/// The pixels that `image::DynamicImage::resize_exact` gives with the nearest-neighbour filter.
pub uninterp spec fn resized_pixels(
    width: u32,
    height: u32,
    rgb: bool,
    pixels: Seq<u8>,
    new_width: u16,
    new_height: u16,
) -> Seq<u8>;

/// The file that `image::codecs::jpeg::JpegEncoder` writes for these pixels.
pub uninterp spec fn jpeg_file(width: u16, height: u16, rgb: bool, pixels: Seq<u8>) -> Seq<u8>;

/// Reads the header with `image::codecs::jpeg::JpegDecoder::new` and hands out what its
/// `dimensions` gives. Taken on trust: the outcome depends on the bytes alone; fewer than two
/// bytes are refused; and no side is zero or longer than sixteen bits hold.
#[verifier::external_body]
fn read_header(bytes: &[u8]) -> (sides: Result<(u32, u32), ImageError>)
    ensures
        sides is Ok <==> jpeg_header(bytes@) is Some,
        bytes@.len() < 2 ==> sides is Err,
        sides matches Ok(s) ==> jpeg_header(bytes@) == Some(s) && 0 < s.0 <= MAX_SIDE && 0 < s.1
            <= MAX_SIDE,
{
    let decoder = JpegDecoder::new(Cursor::new(bytes))?;
    Ok(decoder.dimensions())
}

/// Decodes with `image::DynamicImage::from_decoder`. Taken on trust: what is decoded has the
/// sides of the header, fills them, and depends on the bytes alone. Nothing is promised of
/// whether decoding succeeds: the decoder starts threads, and the machine may refuse them. The
/// call panics on some files whose scans are not sound, with overflow checks or without.
#[verifier::external_body]
fn decode(bytes: &[u8]) -> (image: Result<Raster, ImageError>)
    requires
        scans_are_sound(bytes@),
    ensures
        image matches Ok(i) ==> i.wf() && jpeg_header(bytes@) == Some((i.width, i.height))
            && jpeg_pixels(bytes@).0 == i.rgb && jpeg_pixels(bytes@).1 == i.pixels@,
        image is Err ==> jpeg_pixels(bytes@).2,
{
    let image = DynamicImage::from_decoder(JpegDecoder::new(Cursor::new(bytes))?)?;
    let (width, height) = image.dimensions();
    let rgb = match image.color() {
        ColorType::L8 => false,
        _ => true,
    };
    Ok(Raster { width, height, rgb, pixels: image.to_bytes() })
}

/// Resizes with `image::DynamicImage::resize_exact` and `FilterType::Nearest`. Taken on trust:
/// the outcome depends on the arguments alone and fills the new sides. The buffers in between,
/// of the old width by the new height and of the new sides, must not be longer than memory can
/// hold: the call panics where they are.
#[verifier::external_body]
fn resize(image: &Raster, new_width: u16, new_height: u16) -> (pixels: Vec<u8>)
    requires
        image.wf(),
        image.width * new_height * channels(image.rgb) <= isize::MAX,
        new_width * new_height * channels(image.rgb) <= isize::MAX,
    ensures
        pixels@ == resized_pixels(
            image.width,
            image.height,
            image.rgb,
            image.pixels@,
            new_width,
            new_height,
        ),
        pixels@.len() == new_width * new_height * channels(image.rgb),
{
    let (width, height, raw) = (image.width, image.height, image.pixels.clone());
    let source = match image.rgb {
        true => DynamicImage::ImageRgb8(ImageBuffer::from_raw(width, height, raw).unwrap()),
        false => DynamicImage::ImageLuma8(ImageBuffer::from_raw(width, height, raw).unwrap()),
    };
    source.resize_exact(new_width.into(), new_height.into(), FilterType::Nearest).to_bytes()
}

/// Encodes with `image::codecs::jpeg::JpegEncoder::encode`, at its default quality. Taken on
/// trust: for sides of sixteen bits, writing to memory succeeds; the file depends on the
/// arguments alone and is not empty; and where no side is zero, its header reads back as these
/// sides.
#[verifier::external_body]
fn encode(
    pixels: &[u8],
    width: u16,
    height: u16,
    rgb: bool,
) -> (file: Result<Vec<u8>, ImageError>)
    requires
        pixels@.len() == width * height * channels(rgb),
    ensures
        file is Ok,
        file matches Ok(f) ==> f@ == jpeg_file(width, height, rgb, pixels@),
        file matches Ok(f) ==> f@.len() > 0,
        file matches Ok(f) ==> (width > 0 && height > 0 ==> jpeg_header(f@) == Some(
            (width as u32, height as u32),
        )),
{
    let color = match rgb {
        true => ColorType::Rgb8,
        false => ColorType::L8,
    };
    let mut cursor = Cursor::new(Vec::new());
    JpegEncoder::new(&mut cursor).encode(pixels, width.into(), height.into(), color)?;
    Ok(cursor.into_inner())
}

/// The height of an image of these sides once it has the new width.
pub open spec fn new_height(sides: (u32, u32), new_width: u16) -> u16 {
    height_at(sides.0 as nat, sides.1 as nat, new_width as nat) as u16
}

/// Whether a buffer that resizing needs is longer than memory can hold, `isize::MAX` bytes.
pub open spec fn too_large(sides: (u32, u32), rgb: bool, new_width: u16) -> bool {
    ||| sides.0 * new_height(sides, new_width) * channels(rgb) > isize::MAX
    ||| new_width * new_height(sides, new_width) * channels(rgb) > isize::MAX
}

/// The file of an image of these sides and pixels at the new width.
pub open spec fn scaled_file(
    sides: (u32, u32),
    rgb: bool,
    pixels: Seq<u8>,
    new_width: u16,
) -> Seq<u8> {
    let height = new_height(sides, new_width);
    jpeg_file(
        new_width,
        height,
        rgb,
        resized_pixels(sides.0, sides.1, rgb, pixels, new_width, height),
    )
}

/// The file of the image in `bytes` at the new width.
pub open spec fn scaled(bytes: Seq<u8>, new_width: u16) -> Seq<u8> {
    scaled_file(
        jpeg_header(bytes).unwrap(),
        jpeg_pixels(bytes).0,
        jpeg_pixels(bytes).1,
        new_width,
    )
}

/// Whether the header of `file` shows the new width, and the height that goes with it for an image
/// of these sides. Nothing is said where one of the two is zero.
pub open spec fn shows_width(file: Seq<u8>, sides: (u32, u32), new_width: u16) -> bool {
    new_width > 0 && new_height(sides, new_width) > 0 ==> jpeg_header(file) == Some(
        (new_width as u32, new_height(sides, new_width) as u32),
    )
}

/// The width and the height of the JPEG image in `bytes`.
pub fn jpeg_dimensions(bytes: &Vec<u8>) -> (sides: Result<(u32, u32), ImageFault>)
    ensures
        sides == (match jpeg_header(bytes@) {
            Some(s) => Ok(s),
            None => Err(ImageFault::NotJpeg),
        }),
        bytes@.len() < 2 ==> sides is Err,
        sides matches Ok(s) ==> 0 < s.0 <= MAX_SIDE && 0 < s.1 <= MAX_SIDE,
{
    match read_header(bytes.as_slice()) {
        Ok(sides) => Ok(sides),
        Err(_) => Err(ImageFault::NotJpeg),
    }
}

/// Lets the bytes through if they begin as a JPEG image does.
pub fn validate_jpeg(bytes: Vec<u8>) -> (checked: Result<Vec<u8>, ImageFault>)
    ensures
        checked == (if jpeg_header(bytes@) is Some {
            Ok(bytes)
        } else {
            Err(ImageFault::NotJpeg)
        }),
        bytes@.len() < 2 ==> checked is Err,
{
    match jpeg_dimensions(&bytes) {
        Ok(_) => Ok(bytes),
        Err(fault) => Err(fault),
    }
}

/// Encodes a decoded image at a new width.
pub fn rescale_raster(image: &Raster, new_width: u16) -> (file: Result<Vec<u8>, ImageFault>)
    requires
        image.wf(),
    ensures
        file is Err <==> too_large((image.width, image.height), image.rgb, new_width),
        file matches Err(fault) ==> fault == ImageFault::TooLarge,
        file matches Ok(f) ==> f@ == scaled_file(
            (image.width, image.height),
            image.rgb,
            image.pixels@,
            new_width,
        ),
        file matches Ok(f) ==> f@.len() > 0 && shows_width(
            f@,
            (image.width, image.height),
            new_width,
        ),
{
    let height: u16 = scaled_height(image.width, image.height, new_width);
    let depth: u64 = if image.rgb {
        3
    } else {
        1
    };
    assert(image.width * height <= 65535 * 65535) by (nonlinear_arith)
        requires
            image.width <= 65535,
            height <= 65535,
    ;
    assert(new_width * height <= 65535 * 65535) by (nonlinear_arith)
        requires
            new_width <= 65535,
            height <= 65535,
    ;
    let through: u64 = image.width as u64 * height as u64 * depth;
    let area: u64 = new_width as u64 * height as u64 * depth;
    if through > isize::MAX as u64 || area > isize::MAX as u64 {
        return Err(ImageFault::TooLarge);
    }
    let pixels = resize(image, new_width, height);
    match encode(pixels.as_slice(), new_width, height, image.rgb) {
        Ok(file) => Ok(file),
        Err(_) => Err(ImageFault::Unencodable),
    }
}

/// Whether `file` is the file of the JPEG image in `bytes` at the new width.
pub open spec fn is_resized(file: Seq<u8>, bytes: Seq<u8>, new_width: u16) -> bool {
    &&& jpeg_header(bytes) is Some
    &&& scans_are_sound(bytes)
    &&& !too_large(jpeg_header(bytes).unwrap(), jpeg_pixels(bytes).0, new_width)
    &&& file == scaled(bytes, new_width)
    &&& file.len() > 0
    &&& shows_width(file, jpeg_header(bytes).unwrap(), new_width)
}

/// Whether this is what comes of resizing the image in `bytes`: the file of the image at the new
/// width; or a fault, which is `NotJpeg` if, and only if, the bytes do not begin as a JPEG image
/// does, `UnsoundScans` if, and only if, they do but the scans are not sound, `TooLarge` only if the
/// image is, and `Undecodable` only if the decoder refuses the bytes. Where decoding succeeds,
/// `rescale_raster` tells the rest.
pub open spec fn resizes(
    outcome: Result<Vec<u8>, ImageFault>,
    bytes: Seq<u8>,
    new_width: u16,
) -> bool {
    match outcome {
        Ok(file) => is_resized(file@, bytes, new_width),
        Err(ImageFault::NotJpeg) => jpeg_header(bytes) is None,
        Err(ImageFault::UnsoundScans) => jpeg_header(bytes) is Some && !scans_are_sound(bytes),
        Err(ImageFault::Undecodable) => {
            &&& jpeg_header(bytes) is Some
            &&& scans_are_sound(bytes)
            &&& jpeg_pixels(bytes).2
        },
        Err(ImageFault::TooLarge) => {
            &&& jpeg_header(bytes) is Some
            &&& scans_are_sound(bytes)
            &&& too_large(jpeg_header(bytes).unwrap(), jpeg_pixels(bytes).0, new_width)
        },
        Err(ImageFault::Unencodable) => false,
    }
}

/// Encodes the image in `bytes` at a new width. The height follows the width.
pub fn rescale(bytes: &Vec<u8>, new_width: u16) -> (file: Result<Vec<u8>, ImageFault>)
    ensures
        resizes(file, bytes@, new_width),
{
    match jpeg_dimensions(bytes) {
        Err(fault) => Err(fault),
        Ok(_) => {
            if !check_scans(bytes) {
                return Err(ImageFault::UnsoundScans);
            }
            match decode(bytes.as_slice()) {
                Err(_) => Err(ImageFault::Undecodable),
                Ok(image) => rescale_raster(&image, new_width),
            }
        },
    }
}

/// An image that the decoder does not refuse is resized: the file is that of its pixels, resized to
/// the new width and to the height that goes with it, and its header shows these sides. Only where
/// the pixels on the way, three bytes for each of a coloured image and one of a grey one, do not fit
/// in memory, the outcome is that it is too large.
pub proof fn law_what_is_decoded_is_resized(
    outcome: Result<Vec<u8>, ImageFault>,
    bytes: Seq<u8>,
    width: u32,
    height: u32,
    new_width: u16,
    new_height: u16,
)
    requires
        resizes(outcome, bytes, new_width),
        jpeg_header(bytes) == Some((width, height)),
        scans_are_sound(bytes),
        !jpeg_pixels(bytes).2,
        new_height == height_at(width as nat, height as nat, new_width as nat),
    ensures
        ({
            let (rgb, pixels, _) = jpeg_pixels(bytes);
            let depth: int = if rgb {
                3
            } else {
                1
            };
            if width * new_height * depth > isize::MAX || new_width * new_height * depth
                > isize::MAX {
                outcome == Err::<Vec<u8>, ImageFault>(ImageFault::TooLarge)
            } else {
                outcome matches Ok(file) && file@ == jpeg_file(
                    new_width,
                    new_height,
                    rgb,
                    resized_pixels(width, height, rgb, pixels, new_width, new_height),
                ) && file@.len() > 0 && (new_width > 0 && new_height > 0 ==> jpeg_header(file@)
                    == Some((new_width as u32, new_height as u32)))
            }
        }),
{
}

/// Whatever came of resizing an image: a file is that of the image's pixels, and a fault says why.
pub proof fn law_resizing_says_why(
    outcome: Result<Vec<u8>, ImageFault>,
    bytes: Seq<u8>,
    new_width: u16,
)
    requires
        resizes(outcome, bytes, new_width),
    ensures
        outcome == Err::<Vec<u8>, ImageFault>(ImageFault::NotJpeg) <==> jpeg_header(bytes) is None,
        outcome == Err::<Vec<u8>, ImageFault>(ImageFault::UnsoundScans) <==> jpeg_header(
            bytes,
        ) is Some && !scans_are_sound(bytes),
        outcome == Err::<Vec<u8>, ImageFault>(ImageFault::Undecodable) ==> jpeg_pixels(bytes).2,
        outcome != Err::<Vec<u8>, ImageFault>(ImageFault::Unencodable),
        outcome matches Ok(file) ==> {
            let (width, height) = jpeg_header(bytes).unwrap();
            let (rgb, pixels, _) = jpeg_pixels(bytes);
            let new_height = height_at(width as nat, height as nat, new_width as nat) as u16;
            &&& file@ == jpeg_file(
                new_width,
                new_height,
                rgb,
                resized_pixels(width, height, rgb, pixels, new_width, new_height),
            )
            &&& new_width > 0 && new_height > 0 ==> jpeg_header(file@) == Some(
                (new_width as u32, new_height as u32),
            )
        },
{
}

/// A raster holds three bytes for each pixel of a coloured image and one for each of a grey one, and
/// its sides have sixteen bits.
pub proof fn law_raster_is_filled(raster: Raster)
    ensures
        raster.wf() <==> 0 < raster.width <= 65535 && 0 < raster.height <= 65535
            && raster.pixels@.len() == raster.width * raster.height * (if raster.rgb {
            3int
        } else {
            1
        }),
{
}

} // verus!
