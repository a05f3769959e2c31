use image::codecs::jpeg::JpegEncoder;
use image::ColorType;
use mjpeg_proxy::clients::Wakeup;
use mjpeg_proxy::frame::{frame, package_jpegs};
use mjpeg_proxy::jpeg::{jpeg_dimensions, ImageFault};
use mjpeg_proxy::last_image::{set_last_image, LastImage};
use mjpeg_proxy::queue::{main_queue_name, scaled_queue_name};
use mjpeg_proxy::scaler::{
    get_scaler, return_scaler, scaler_ended, RunAction, RunStep, ScaledSource, ScalerFault, Scalers,
};
use mjpeg_proxy::subscription::{ClientStream, Delivery, Subscription};

fn sample(width: u32, height: u32) -> Vec<u8> {
    let mut file = Vec::new();
    let pixels = vec![200u8; (width * height * 3) as usize];
    JpegEncoder::new(&mut file).encode(&pixels, width, height, ColorType::Rgb8).unwrap();
    file
}

#[test]
fn test_scalers() {
    let mut scalers = Scalers::new();
    let scaler1 = get_scaler(&mut scalers, 1, Ok(())).unwrap();
    assert_eq!(scaler1.queue_name, "inproc://scale1");
    assert!(scaler1.fresh);
}

#[test]
fn clients_of_one_width_share_a_source() {
    let mut scalers = Scalers::new();
    assert!(!scalers.has(320));
    assert_eq!(scalers.clients_of(320), 0);
    assert!(get_scaler(&mut scalers, 320, Ok(())).unwrap().fresh);
    assert!(!get_scaler(&mut scalers, 320, Ok(())).unwrap().fresh);
    assert!(get_scaler(&mut scalers, 640, Ok(())).unwrap().fresh);
    assert_eq!(scalers.clients_of(320), 2);
    assert_eq!(scalers.clients_of(640), 1);
    assert_eq!(return_scaler(&mut scalers, Some(320)), Ok(()));
    assert_eq!(return_scaler(&mut scalers, Some(320)), Ok(()));
    assert_eq!(scalers.clients_of(320), 0);
    assert!(scalers.has(320));
    assert!(!get_scaler(&mut scalers, 320, Ok(())).unwrap().fresh);
}

#[test]
fn a_queue_that_cannot_be_opened_makes_no_source() {
    let mut scalers = Scalers::new();
    let refused = get_scaler(&mut scalers, 320, Err(ScalerFault::Unavailable));
    assert!(matches!(refused, Err(ScalerFault::Unavailable)));
    assert!(!scalers.has(320));
    get_scaler(&mut scalers, 320, Ok(())).unwrap();
    assert!(get_scaler(&mut scalers, 320, Err(ScalerFault::Unavailable)).is_ok());
    assert_eq!(scalers.clients_of(320), 2);
}

#[test]
fn a_source_that_is_not_there_cannot_be_given_back() {
    let mut scalers = Scalers::new();
    assert_eq!(return_scaler(&mut scalers, None), Ok(()));
    assert_eq!(return_scaler(&mut scalers, Some(7)), Err(ScalerFault::Unknown));
}

#[test]
fn queues_are_apart() {
    assert_eq!(main_queue_name(), "inproc://jpegs");
    assert_eq!(scaled_queue_name(12), "inproc://scale12");
    assert_eq!(ClientStream::open(None).0.queue_name(), main_queue_name());
    assert_eq!(ClientStream::open(Some(12)).0.queue_name(), "inproc://scale12");
    assert_eq!(ScaledSource::queue_name(0), "inproc://scale0");
    assert_eq!(ScaledSource::queue_name(65535), "inproc://scale65535");
    for width in 0..1000u16 {
        assert_ne!(ScaledSource::queue_name(width), ScaledSource::queue_name(width + 1));
        assert_ne!(ScaledSource::queue_name(width), main_queue_name());
    }
}

#[test]
fn a_source_counts_its_clients() {
    let mut source = ScaledSource::new(50);
    assert_eq!(source.width, 50);
    assert_eq!(source.client_connected(), Wakeup::Everyone);
    assert_eq!(source.client_count.get(), 1);
    assert_eq!(source.client_disconnected(), Wakeup::Nobody);
    assert_eq!(source.client_count.get(), 0);
}

#[test]
fn without_clients_a_source_subscribes_anew() {
    let mut last = LastImage::new();
    set_last_image(&mut last, sample(32, 16));
    let mut source = Subscription::new();
    assert_eq!(ScaledSource::inner_run(&mut source, 1), RunAction::Proceed);
    let first = ScaledSource::next_scaled(&mut source, &mut last, 16).unwrap().unwrap();
    assert_eq!(jpeg_dimensions(&first), Ok((16, 8)));
    assert_eq!(ScaledSource::inner_run(&mut source, 3), RunAction::Proceed);
    assert_eq!(ScaledSource::next_scaled(&mut source, &mut last, 16), None);
    assert_eq!(ScaledSource::inner_run(&mut source, 0), RunAction::Resubscribe);
    assert!(ScaledSource::next_scaled(&mut source, &mut last, 16).is_some());
}

#[test]
fn a_source_cannot_resize_what_is_no_image() {
    assert_eq!(ScaledSource::resize_image(vec![], 10), Err(ImageFault::NotJpeg));
    let mut source = Subscription::new();
    let first = ScaledSource::next_scaled(&mut source, &mut LastImage::new(), 10);
    assert_eq!(first, Some(Err(ImageFault::NotJpeg)));
}

#[test]
fn clients_of_a_width_share_a_file() {
    let mut last = LastImage::new();
    let image = sample(40, 20);
    let file = ScaledSource::received_scaled(&mut last, image.clone(), 10).unwrap();
    for _ in 0..3 {
        let (stream, _) = ClientStream::open(Some(10));
        match stream.relay(file.clone()) {
            Delivery::Write(bytes) => {
                assert_eq!(bytes, frame(&file));
                assert_eq!(Ok(bytes), package_jpegs(image.clone(), Some(10)));
            }
            _ => panic!("the image is to be written"),
        }
    }
}

#[test]
fn an_image_of_the_width_is_handed_on_as_it_is() {
    let mut last = LastImage::new();
    set_last_image(&mut last, sample(40, 20));
    let mut source = Subscription::new();
    assert_eq!(ScaledSource::next_scaled(&mut source, &mut last, 40), Some(Ok(sample(40, 20))));
    assert_eq!(ScaledSource::received_scaled(&mut last, sample(40, 30), 40), Ok(sample(40, 30)));
}

#[test]
fn a_source_that_has_ended_is_started_again() {
    let mut scalers = Scalers::new();
    scaler_ended(&mut scalers, 9);
    assert!(!scalers.has(9));
    assert!(get_scaler(&mut scalers, 9, Ok(())).unwrap().fresh);
    assert!(scalers.runs(9));
    scaler_ended(&mut scalers, 9);
    assert!(scalers.has(9) && !scalers.runs(9));
    assert_eq!(scalers.clients_of(9), 1);
    assert!(get_scaler(&mut scalers, 9, Err(ScalerFault::Unavailable)).is_err());
    assert!(get_scaler(&mut scalers, 9, Ok(())).unwrap().fresh);
    assert!(!get_scaler(&mut scalers, 9, Ok(())).unwrap().fresh);
    assert_eq!(scalers.clients_of(9), 3);
}

#[test]
fn packaging_frames_the_resized() {
    let image = sample(40, 20);
    let small = ScaledSource::resize_image(image.clone(), 10).unwrap();
    assert_eq!(package_jpegs(image, Some(10)), package_jpegs(small, None));
    let damaged = sample(40, 20)[..100].to_vec();
    assert_eq!(ScaledSource::resize_image(damaged.clone(), 10), Err(ImageFault::Undecodable));
    assert_eq!(package_jpegs(damaged, Some(10)), Err(ImageFault::Undecodable));
}

#[test]
fn what_is_received_is_resized() {
    let mut last = LastImage::new();
    set_last_image(&mut last, sample(40, 20));
    let other = sample(80, 80);
    let small = ScaledSource::received_scaled(&mut last, other.clone(), 10).unwrap();
    assert_eq!(Ok(small), ScaledSource::resize_image(other, 10));
    let small = ScaledSource::received_scaled(&mut last, sample(40, 20), 10).unwrap();
    assert_eq!(Ok(small.clone()), ScaledSource::resize_image(sample(40, 20), 10));
    let mut source = Subscription::new();
    assert_eq!(ScaledSource::next_scaled(&mut source, &mut last, 10), Some(Ok(small)));
    let none = ScaledSource::received_scaled(&mut last, vec![1], 10);
    assert_eq!(none, Err(ImageFault::NotJpeg));
}

#[test]
fn a_run_sends_files_and_ends_with_a_fault() {
    assert!(matches!(ScaledSource::after_image(Ok(vec![1, 2])), RunStep::Send(file) if file == [1, 2]));
    let ended = ScaledSource::after_image(Err(ImageFault::Undecodable));
    assert!(matches!(ended, RunStep::End(ImageFault::Undecodable)));
}
