use image::codecs::jpeg::JpegEncoder;
use image::ColorType;
use mjpeg_proxy::frame::{frame, package_jpegs, response_head};
use mjpeg_proxy::jpeg::{rescale, ImageFault};

fn sample(width: u32, height: u32) -> Vec<u8> {
    let mut file = Vec::new();
    let pixels = vec![120u8; (width * height) as usize];
    JpegEncoder::new(&mut file).encode(&pixels, width, height, ColorType::L8).unwrap();
    file
}

fn framed(image: &[u8]) -> Vec<u8> {
    let mut bytes = format!(
        "--BoundaryString\r\nContent-type: image/jpeg\r\nContent-Length: {}\r\n\r\n",
        image.len()
    )
    .into_bytes();
    bytes.extend_from_slice(image);
    bytes.extend_from_slice(b"\r\n");
    bytes
}

#[test]
fn the_head_of_the_response() {
    let head = "HTTP/1.0 200 OK\r\nServer: Motion/4.1.1\r\nConnection: close\r\nMax-Age: 0\r\nExpires: 0\r\nCache-Control: no-cache, private\r\nPragma: no-cache\r\nContent-Type: multipart/x-mixed-replace; boundary=BoundaryString\r\n\r\n";
    assert_eq!(response_head(), head.as_bytes().to_vec());
}

#[test]
fn a_part_is_header_image_and_line_break() {
    assert_eq!(
        frame(&vec![1, 2, 3]),
        b"--BoundaryString\r\nContent-type: image/jpeg\r\nContent-Length: 3\r\n\r\n\x01\x02\x03\r\n".to_vec()
    );
    let long = vec![7u8; 12345];
    assert_eq!(frame(&long), framed(&long));
}

#[test]
fn without_a_width_anything_is_packaged() {
    assert_eq!(package_jpegs(vec![], None), Ok(framed(&[])));
    assert_eq!(package_jpegs(vec![5, 6], None), Ok(framed(&[5, 6])));
}

#[test]
fn an_image_of_the_right_width_is_packaged_as_it_is() {
    let file = sample(24, 10);
    assert_eq!(package_jpegs(file.clone(), Some(24)), Ok(framed(&file)));
}

#[test]
fn an_image_of_another_width_is_resized_and_packaged() {
    let file = sample(24, 10);
    let small = rescale(&file, 12).unwrap();
    assert_ne!(small, file);
    assert_eq!(package_jpegs(file, Some(12)), Ok(framed(&small)));
}

#[test]
fn what_cannot_be_resized_is_not_packaged() {
    assert_eq!(package_jpegs(vec![], Some(12)), Err(ImageFault::NotJpeg));
    let mut file = sample(24, 10);
    file.truncate(file.len() - 12);
    assert_eq!(package_jpegs(file.clone(), Some(24)), Ok(framed(&file)));
    file.truncate(100);
    assert_eq!(package_jpegs(file, Some(12)), Err(ImageFault::Undecodable));
}
