use image::codecs::jpeg::{JpegDecoder, JpegEncoder};
use image::imageops::FilterType;
use image::{ColorType, DynamicImage};
use mjpeg_proxy::jpeg::{
    jpeg_dimensions, rescale, rescale_raster, validate_jpeg, ImageFault, Raster,
};

fn pixels(width: u32, height: u32, channels: u32) -> Vec<u8> {
    let mut pixels = Vec::new();
    for i in 0..width * height * channels {
        pixels.push((i * 37 % 251) as u8);
    }
    pixels
}

fn sample(width: u32, height: u32, rgb: bool) -> Vec<u8> {
    let mut file = Vec::new();
    let (channels, color) = if rgb { (3, ColorType::Rgb8) } else { (1, ColorType::L8) };
    JpegEncoder::new(&mut file).encode(&pixels(width, height, channels), width, height, color).unwrap();
    file
}

fn resized_by_hand(file: &[u8], width: u32, height: u32) -> Vec<u8> {
    let image = DynamicImage::from_decoder(JpegDecoder::new(file).unwrap()).unwrap();
    let small = image.resize_exact(width, height, FilterType::Nearest);
    let mut out = Vec::new();
    JpegEncoder::new(&mut out).encode(&small.to_bytes(), width, height, small.color()).unwrap();
    out
}

#[test]
fn dimensions_are_read() {
    assert_eq!(jpeg_dimensions(&sample(17, 9, true)), Ok((17, 9)));
    assert_eq!(jpeg_dimensions(&sample(8, 33, false)), Ok((8, 33)));
}

#[test]
fn what_is_no_jpeg_is_refused() {
    assert_eq!(jpeg_dimensions(&vec![]), Err(ImageFault::NotJpeg));
    assert_eq!(jpeg_dimensions(&vec![0xff]), Err(ImageFault::NotJpeg));
    assert_eq!(jpeg_dimensions(&b"not an image".to_vec()), Err(ImageFault::NotJpeg));
    assert_eq!(rescale(&vec![], 10), Err(ImageFault::NotJpeg));
}

#[test]
fn a_jpeg_passes_validation_unchanged() {
    let file = sample(16, 16, true);
    assert_eq!(validate_jpeg(file.clone()), Ok(file));
    assert_eq!(validate_jpeg(vec![]), Err(ImageFault::NotJpeg));
    assert_eq!(validate_jpeg(vec![1, 2, 3]), Err(ImageFault::NotJpeg));
}

#[test]
fn bytes_after_the_image_do_not_matter_to_validation() {
    let mut file = sample(16, 16, true);
    file.extend_from_slice(b"\r\n");
    assert_eq!(validate_jpeg(file.clone()), Ok(file));
}

#[test]
fn an_image_is_resized_as_the_image_crate_does() {
    for rgb in [true, false] {
        let file = sample(40, 30, rgb);
        assert_eq!(rescale(&file, 20).unwrap(), resized_by_hand(&file, 20, 15));
        assert_eq!(rescale(&file, 61).unwrap(), resized_by_hand(&file, 61, 45));
    }
}

#[test]
fn a_resized_image_has_the_width_that_was_asked_for() {
    let file = sample(64, 48, true);
    for width in [1u16, 2, 31, 64, 100] {
        let small = rescale(&file, width).unwrap();
        let (w, h) = jpeg_dimensions(&small).unwrap_or((0, 0));
        if width >= 2 {
            assert_eq!((w, h), (width as u32, 48 * width as u32 / 64));
        } else {
            assert_eq!((w, h), (0, 0));
        }
    }
}

#[test]
fn a_header_without_pixels_cannot_be_resized() {
    let mut file = sample(64, 48, true);
    file.truncate(file.len() / 2);
    file.truncate(200);
    assert_eq!(jpeg_dimensions(&file), Ok((64, 48)));
    assert_eq!(rescale(&file, 10), Err(ImageFault::Undecodable));
}

#[test]
fn decoded_pixels_are_resized() {
    let raster = Raster { width: 8, height: 4, rgb: false, pixels: pixels(8, 4, 1) };
    let file = rescale_raster(&raster, 4).unwrap();
    assert_eq!(jpeg_dimensions(&file), Ok((4, 2)));
    let colour = Raster { width: 8, height: 4, rgb: true, pixels: pixels(8, 4, 3) };
    let larger = rescale_raster(&colour, 16).unwrap();
    assert_eq!(jpeg_dimensions(&larger), Ok((16, 8)));
}
