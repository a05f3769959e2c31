use image::codecs::jpeg::JpegEncoder;
use image::ColorType;
use mjpeg_proxy::feed::{Feed, FeedAction, PAUSE_SECONDS};
use mjpeg_proxy::frame::frame;
use mjpeg_proxy::last_image::{get_last_image, LastImage};

fn sample() -> Vec<u8> {
    let mut file = Vec::new();
    JpegEncoder::new(&mut file).encode(&[9u8; 64], 8, 8, ColorType::L8).unwrap();
    file
}

fn with_line_break(image: &[u8]) -> Vec<u8> {
    let mut bytes = image.to_vec();
    bytes.extend_from_slice(b"\r\n");
    bytes
}

fn reading() -> Feed {
    let (feed, action) = Feed::start();
    assert_eq!(action, FeedAction::Connect);
    let (feed, action) = feed.connected("BoundaryString".to_string());
    assert_eq!(action, FeedAction::ReadChunk);
    feed
}

#[test]
fn without_clients_there_is_one_image_in_each_pause() {
    assert_eq!(PAUSE_SECONDS, 30);
    let mut last = LastImage::new();
    let (feed, _) = Feed::start().0.failed();
    assert_eq!(feed.clients(0).1, FeedAction::Pause(30));
    let mut feed = reading();
    for _ in 0..3 {
        let (next, action) = feed.chunk(&frame(&sample()));
        assert_eq!(action, FeedAction::Publish);
        assert_eq!(next.outgoing(), Some(&with_line_break(&sample())));
        let (next, action) = next.published(&mut last, 0);
        assert_eq!(action, FeedAction::CountClients);
        assert_eq!(get_last_image(&last), with_line_break(&sample()));
        let (next, action) = next.clients(0);
        assert_eq!(action, FeedAction::Pause(30));
        assert_eq!(next.outgoing(), None);
        let (next, action) = next.resumed();
        assert_eq!(action, FeedAction::Connect);
        let (next, action) = next.connected("BoundaryString".to_string());
        assert_eq!(action, FeedAction::ReadChunk);
        feed = next;
    }
}

#[test]
fn with_clients_images_follow_each_other() {
    let mut last = LastImage::new();
    let mut feed = reading();
    for _ in 0..3 {
        let stream = frame(&sample());
        let (next, action) = feed.chunk(&stream[..90].to_vec());
        assert_eq!(action, FeedAction::ReadChunk);
        let (next, action) = next.chunk(&stream[90..].to_vec());
        assert_eq!(action, FeedAction::Publish);
        let (next, action) = next.published(&mut last, 2);
        assert_eq!(action, FeedAction::ReadChunk);
        feed = next;
    }
}

#[test]
fn a_failure_is_followed_by_a_connection() {
    let (feed, action) = Feed::start().0.failed();
    assert_eq!(action, FeedAction::CountClients);
    let (feed, action) = feed.clients(1);
    assert_eq!(action, FeedAction::Connect);
    let (feed, _) = feed.connected("BoundaryString".to_string());
    let (feed, action) = feed.failed();
    assert_eq!(action, FeedAction::CountClients);
    let (feed, action) = feed.clients(0);
    assert_eq!(action, FeedAction::Pause(30));
    assert_eq!(feed.resumed().1, FeedAction::Connect);
    let (feed, action) = reading().chunk(&frame(&sample()));
    assert_eq!(action, FeedAction::Publish);
    assert_eq!(feed.failed().1, FeedAction::CountClients);
}

#[test]
fn what_is_no_image_ends_the_round() {
    assert_eq!(reading().chunk(&frame(&vec![1, 2, 3])).1, FeedAction::CountClients);
    assert_eq!(reading().chunk(&b"no header".to_vec()).1, FeedAction::CountClients);
}

#[test]
fn a_boundary_that_makes_no_pattern_ends_the_round() {
    assert_eq!(Feed::start().0.connected("(".to_string()).1, FeedAction::CountClients);
}

#[test]
fn a_stream_ends_between_parts_or_within_one() {
    assert_eq!(reading().stream_end().1, FeedAction::CountClients);
    let (feed, _) = reading().chunk(&frame(&sample())[..90].to_vec());
    let (feed, action) = feed.stream_end();
    assert_eq!(action, FeedAction::CountClients);
    assert_eq!(feed.clients(1).1, FeedAction::Connect);
}

#[test]
fn a_bad_length_ends_the_round_and_an_impossible_one_the_fetching() {
    let header = |length: &str| {
        format!("--BoundaryString\r\nContent-type: image/jpeg\r\nContent-Length: {}\r\n\r\n", length)
            .into_bytes()
    };
    assert_eq!(reading().chunk(&header("99999999999999999999999")).1, FeedAction::CountClients);
    assert_eq!(reading().chunk(&header(&format!("{}", usize::MAX))).1, FeedAction::Stop);
}
