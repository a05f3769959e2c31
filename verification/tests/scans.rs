use image::codecs::jpeg::{JpegDecoder, JpegEncoder};
use image::imageops::FilterType;
use image::{ColorType, DynamicImage};
use mjpeg_proxy::jpeg::{jpeg_dimensions, rescale, ImageFault};
use mjpeg_proxy::scans::check_scans;

fn sample() -> Vec<u8> {
    let mut file = Vec::new();
    let pixels: Vec<u8> = (0..32 * 16 * 3).map(|i| (i * 7 % 256) as u8).collect();
    JpegEncoder::new(&mut file).encode(&pixels, 32, 16, ColorType::Rgb8).unwrap();
    file
}

fn segment(code: u8, body: &[u8]) -> Vec<u8> {
    let length = body.len() + 2;
    let mut bytes = vec![0xFF, code, (length / 256) as u8, (length % 256) as u8];
    bytes.extend_from_slice(body);
    bytes
}

fn scan(components: &[u8], start: u8, end: u8, step: u8) -> Vec<u8> {
    let mut body = vec![components.len() as u8];
    for name in components {
        body.push(*name);
        body.push(0);
    }
    body.extend_from_slice(&[start, end, step]);
    let mut bytes = segment(0xDA, &body);
    bytes.extend_from_slice(&[0, 0x12, 0xFF, 0x00, 0x34, 0xFF, 0xD0, 0x56]);
    bytes
}

fn frame(code: u8, width: u16, height: u16, factors: &[u8]) -> Vec<u8> {
    let mut body = vec![8];
    body.extend_from_slice(&height.to_be_bytes());
    body.extend_from_slice(&width.to_be_bytes());
    body.push(factors.len() as u8);
    for (i, byte) in factors.iter().enumerate() {
        body.extend_from_slice(&[i as u8 + 1, *byte, 0]);
    }
    segment(code, &body)
}

fn tables(class: u8, symbols: &[u8]) -> Vec<u8> {
    let mut body = vec![class * 16];
    body.extend_from_slice(&[0; 15]);
    body.push(symbols.len() as u8);
    body.extend_from_slice(symbols);
    segment(0xC4, &body)
}

fn image_of(segments: &[Vec<u8>]) -> Vec<u8> {
    let mut bytes = vec![0xFF, 0xD8];
    for segment in segments {
        bytes.extend_from_slice(segment);
    }
    bytes.extend_from_slice(&[0xFF, 0xD9]);
    bytes
}

fn before_scan(file: &[u8], extra: &[u8]) -> Vec<u8> {
    let place = file.windows(2).position(|pair| pair == [0xFF, 0xDA]).unwrap();
    let mut bytes = file[..place].to_vec();
    bytes.extend_from_slice(extra);
    bytes.extend_from_slice(&file[place..]);
    bytes
}

#[test]
fn an_ordinary_file_is_sound() {
    assert!(check_scans(&sample()));
    assert!(check_scans(&vec![]));
    assert!(check_scans(&b"no image".to_vec()));
}

#[test]
fn a_component_that_comes_back_before_new_ones_is_refused() {
    let file = before_scan(&sample(), &scan(&[1], 0, 63, 0));
    assert_eq!(jpeg_dimensions(&file), Ok((32, 16)));
    assert!(!check_scans(&file));
    assert_eq!(rescale(&file, 16), Err(ImageFault::UnsoundScans));
    let file = before_scan(&sample(), &scan(&[1, 2], 0, 63, 0));
    assert!(!check_scans(&file));
    assert_eq!(rescale(&file, 16), Err(ImageFault::UnsoundScans));
}

#[test]
fn components_that_come_back_after_new_ones_are_decoded() {
    for extra in [scan(&[3], 0, 63, 0), scan(&[1, 2, 3], 0, 63, 0)] {
        let file = before_scan(&sample(), &extra);
        assert!(check_scans(&file));
        let small = rescale(&file, 16).unwrap();
        assert_eq!(jpeg_dimensions(&small), Ok((16, 8)));
    }
}

#[test]
fn each_component_may_have_a_scan_of_its_own() {
    let sequential = frame(0xC0, 32, 16, &[0x22, 0x11, 0x11]);
    let apart = [scan(&[1], 0, 63, 0), scan(&[2], 0, 63, 0), scan(&[3], 0, 63, 0)].concat();
    assert!(check_scans(&image_of(&[sequential.clone(), apart.clone()])));
    assert!(check_scans(&image_of(&[sequential.clone(), apart, scan(&[1, 2, 3], 0, 63, 0)])));
    let mixed = [scan(&[2], 0, 63, 0), scan(&[2, 3], 0, 63, 0)].concat();
    assert!(!check_scans(&image_of(&[sequential, mixed.clone()])));
    assert!(check_scans(&image_of(&[frame(0xC2, 32, 16, &[0x22, 0x11, 0x11]), mixed])));
}

#[test]
fn what_is_inside_a_segment_is_no_scan() {
    let hidden = [scan(&[1], 0, 63, 0), scan(&[1, 2, 3], 0, 63, 0)].concat();
    let file = before_scan(&sample(), &segment(0xE1, &hidden));
    assert!(check_scans(&file));
    assert!(rescale(&file, 16).is_ok());
}

#[test]
fn what_follows_the_end_is_no_scan() {
    let mut file = sample();
    file.extend_from_slice(&scan(&[1], 0, 63, 0));
    file.extend_from_slice(&scan(&[1, 2, 3], 0, 63, 0));
    assert!(check_scans(&file));
}

#[test]
fn blocks_near_the_largest_sides_cannot_be_counted() {
    let alone = |width: u16, height: u16, factors: &[u8], name: u8| {
        check_scans(&image_of(&[frame(0xC0, width, height, factors), scan(&[name], 0, 63, 0)]))
    };
    assert!(alone(8, 65528, &[0x11], 1));
    assert!(!alone(8, 65529, &[0x11], 1));
    assert!(!alone(8, 65535, &[0x22, 0x11, 0x11], 1));
    assert!(alone(8, 65535, &[0x22, 0x11, 0x11], 2));
    assert!(alone(65535, 8, &[0x11], 1));
    assert!(!alone(65535, 8, &[0x31], 1));
    assert!(alone(65528, 8, &[0x31], 1));
    assert!(alone(65535, 8, &[0x41, 0x31, 0x31], 2));
    let together = [frame(0xC0, 8, 65535, &[0x11, 0x11, 0x11]), scan(&[1, 2, 3], 0, 63, 0)];
    assert!(check_scans(&image_of(&together)));
}

fn refined(bits: u8, first: u8, second: u8) -> Vec<u8> {
    image_of(&[
        frame(0xC2, 32, 16, &[0x11]),
        tables(0, &[0x0F]),
        tables(1, &[0x01, bits]),
        scan(&[1], 0, 0, 0),
        scan(&[1], 1, 63, first),
        scan(&[1], 1, 63, second),
    ])
}

#[test]
fn a_refined_coefficient_has_sixteen_bits() {
    assert!(check_scans(&refined(10, 0x02, 0x21)));
    assert!(check_scans(&refined(10, 0x05, 0x54)));
    assert!(check_scans(&refined(13, 0x02, 0x21)));
    assert!(check_scans(&refined(1, 0x0D, 0xDC)));
    assert!(!check_scans(&refined(14, 0x02, 0x21)));
    assert!(!check_scans(&refined(15, 0x01, 0x10)));
    assert!(check_scans(&refined(15, 0x01, 0x01)));
    assert!(!check_scans(&refined(10, 0x0D, 0xDC)));
}

#[test]
fn only_the_table_of_the_scan_and_its_coefficients_count() {
    let start = [frame(0xC2, 32, 16, &[0x11, 0x11, 0x11]), tables(1, &[0x0F])].concat();
    let first = scan(&[1], 1, 63, 0x05);
    let refining = |name: u8| scan(&[name], 1, 63, 0x54);
    assert!(!check_scans(&image_of(&[start.clone(), first.clone(), refining(1)])));
    assert!(check_scans(&image_of(&[start.clone(), first.clone(), refining(2)])));
    let other = tables(1, &[0x0A]);
    assert!(check_scans(&image_of(&[start.clone(), other.clone(), first, refining(1)])));
    let bands = [
        scan(&[1], 1, 5, 0x05),
        scan(&[1], 6, 63, 0x05),
        scan(&[1], 1, 5, 0x54),
        scan(&[1], 6, 63, 0x54),
        scan(&[1], 1, 63, 0x43),
        scan(&[1], 1, 63, 0x32),
        scan(&[1], 1, 63, 0x21),
        scan(&[1], 1, 63, 0x10),
    ]
    .concat();
    assert!(check_scans(&image_of(&[start, other, bands])));
}

#[test]
fn a_progressive_file_is_resized() {
    let data = |header: Vec<u8>, byte: u8| {
        let mut bytes = header[..header.len() - 8].to_vec();
        bytes.push(byte);
        bytes
    };
    let codes = |class: u8, count: u8, symbols: &[u8]| {
        let mut body = vec![class * 16, 0, count];
        body.extend_from_slice(&[0; 14]);
        body.extend_from_slice(symbols);
        segment(0xC4, &body)
    };
    let mut quantisation = vec![0];
    quantisation.extend_from_slice(&[1; 64]);
    let file = image_of(&[
        segment(0xDB, &quantisation),
        frame(0xC2, 8, 8, &[0x11]),
        codes(0, 1, &[0]),
        codes(1, 3, &[0x00, 0x01, 0x0A]),
        data(scan(&[1], 0, 0, 0x00), 0x3F),
        data(scan(&[1], 1, 63, 0x05), 0x67),
        data(scan(&[1], 1, 63, 0x54), 0x3F),
        data(scan(&[1], 1, 63, 0x43), 0x1F),
        data(scan(&[1], 1, 63, 0x32), 0x1F),
        data(scan(&[1], 1, 63, 0x21), 0x1F),
        data(scan(&[1], 1, 63, 0x10), 0x1F),
    ]);
    assert!(check_scans(&file));
    let image = DynamicImage::from_decoder(JpegDecoder::new(&file[..]).unwrap()).unwrap();
    assert_ne!(image.to_bytes()[0], image.to_bytes()[7]);
    let small = image.resize_exact(4, 4, FilterType::Nearest);
    let mut by_hand = Vec::new();
    JpegEncoder::new(&mut by_hand).encode(&small.to_bytes(), 4, 4, ColorType::L8).unwrap();
    assert_eq!(rescale(&file, 4), Ok(by_hand));
}
