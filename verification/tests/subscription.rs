use image::codecs::jpeg::JpegEncoder;
use image::ColorType;
use mjpeg_proxy::frame::{frame, response_head};
use mjpeg_proxy::jpeg::{jpeg_dimensions, rescale, ImageFault};
use mjpeg_proxy::last_image::{prepare_last_image, set_last_image, LastImage};
use mjpeg_proxy::subscription::{ClientStream, Delivery, Subscription};

fn sample(width: u32, height: u32) -> Vec<u8> {
    let mut file = Vec::new();
    let pixels = vec![33u8; (width * height) as usize];
    JpegEncoder::new(&mut file).encode(&pixels, width, height, ColorType::L8).unwrap();
    file
}

fn written(delivery: Delivery) -> Vec<u8> {
    match delivery {
        Delivery::Write(bytes) => bytes,
        Delivery::Receive => panic!("nothing is to be written"),
        Delivery::Close(_) | Delivery::End => panic!("the response ends"),
    }
}

#[test]
fn a_subscription_begins_with_the_last_image() {
    let mut last = LastImage::new();
    set_last_image(&mut last, vec![4, 5]);
    let mut subscription = Subscription::new();
    assert_eq!(subscription.next(&last), Some(vec![4, 5]));
    assert_eq!(subscription.next(&last), None);
    set_last_image(&mut last, vec![6]);
    assert_eq!(subscription.next(&last), None);
}

#[test]
fn a_client_gets_the_head_then_the_last_image_then_new_ones() {
    let mut last = LastImage::new();
    set_last_image(&mut last, vec![1]);
    let (mut stream, head) = ClientStream::open(None);
    assert_eq!(head, response_head());
    assert_eq!(written(stream.next(&mut last)), frame(&vec![1]));
    assert!(matches!(stream.next(&mut last), Delivery::Receive));
    assert_eq!(written(stream.deliver(vec![2, 3])), frame(&vec![2, 3]));
    assert!(matches!(stream.next(&mut last), Delivery::Receive));
}

#[test]
fn before_the_first_image_a_client_gets_an_empty_part() {
    let (mut stream, _) = ClientStream::open(None);
    assert_eq!(written(stream.next(&mut LastImage::new())), frame(&vec![]));
}

#[test]
fn before_the_first_image_there_is_no_width() {
    let (mut stream, _) = ClientStream::open(Some(10));
    assert!(matches!(stream.next(&mut LastImage::new()), Delivery::Close(ImageFault::NotJpeg)));
}

#[test]
fn a_client_gets_the_width_it_asked_for() {
    let (stream, _) = ClientStream::open(Some(8));
    let image = sample(16, 12);
    let small = rescale(&image, 8).unwrap();
    assert_eq!(jpeg_dimensions(&small), Ok((8, 6)));
    assert_eq!(written(stream.deliver(image)), frame(&small));
    assert_eq!(written(stream.deliver(small.clone())), frame(&small));
}

#[test]
fn an_image_that_cannot_be_resized_ends_the_response() {
    let (stream, _) = ClientStream::open(Some(8));
    let mut image = sample(16, 12);
    image.truncate(120);
    assert!(matches!(stream.deliver(image), Delivery::Close(ImageFault::Undecodable)));
}

#[test]
fn the_last_image_is_resized_once_for_a_width() {
    let mut last = LastImage::new();
    set_last_image(&mut last, sample(16, 12));
    let small = rescale(&sample(16, 12), 8).unwrap();
    for _ in 0..3 {
        let (mut stream, _) = ClientStream::open(Some(8));
        assert_eq!(written(stream.next(&mut last)), frame(&small));
    }
    assert_eq!(prepare_last_image(&mut last, 8), Ok(small));
    set_last_image(&mut last, sample(20, 10));
    let (mut stream, _) = ClientStream::open(Some(8));
    assert_eq!(written(stream.next(&mut last)), frame(&rescale(&sample(20, 10), 8).unwrap()));
    let (mut stream, _) = ClientStream::open(Some(20));
    assert_eq!(written(stream.next(&mut last)), frame(&sample(20, 10)));
}

#[test]
fn images_are_sent_in_order() {
    let mut last = LastImage::new();
    set_last_image(&mut last, vec![1]);
    let (mut stream, _) = ClientStream::open(None);
    let mut sent = written(stream.next(&mut last));
    for image in [vec![2], vec![3], vec![3]] {
        assert!(matches!(stream.next(&mut last), Delivery::Receive));
        sent.extend_from_slice(&written(stream.relay(image)));
    }
    let parts = [frame(&vec![1]), frame(&vec![2]), frame(&vec![3]), frame(&vec![3])];
    assert_eq!(sent, parts.concat());
}

#[test]
fn an_empty_message_ends_the_response_of_a_width() {
    let (stream, _) = ClientStream::open(Some(8));
    assert!(matches!(stream.relay(vec![]), Delivery::End));
    assert_eq!(written(stream.relay(vec![7])), frame(&vec![7]));
    let (stream, _) = ClientStream::open(None);
    assert_eq!(written(stream.relay(vec![])), frame(&vec![]));
}
