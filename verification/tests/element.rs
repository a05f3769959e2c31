use mjpeg_proxy::element::{open_element, ElementReader, ReadFault};
use mjpeg_proxy::frame::frame;

fn reader(boundary: &str) -> ElementReader {
    match ElementReader::new(boundary.to_string()) {
        Ok(reader) => reader,
        Err(_) => panic!("the boundary makes no pattern"),
    }
}

fn part(boundary: &str, length: &str, body: &[u8]) -> Vec<u8> {
    let mut bytes = format!(
        "--{}\r\nContent-type: image/jpeg\r\nContent-Length: {}\r\n\r\n",
        boundary, length
    )
    .into_bytes();
    bytes.extend_from_slice(body);
    bytes
}

#[test]
fn a_part_in_one_chunk() {
    let mut r = reader("foo");
    assert_eq!(r.read_element(&part("foo", "3", b"abc\r\n")), Ok(Some(b"abc\r\n".to_vec())));
}

#[test]
fn a_part_in_several_chunks() {
    let mut r = reader("foo");
    assert_eq!(r.read_element(&part("foo", "6", b"a")), Ok(None));
    assert_eq!(r.read_element(&b"bcd".to_vec()), Ok(None));
    assert_eq!(r.read_element(&vec![]), Ok(None));
    assert_eq!(r.read_element(&b"ef\r\n--".to_vec()), Ok(Some(b"abcdef\r\n".to_vec())));
}

#[test]
fn what_follows_a_part_is_kept_for_the_next() {
    let mut r = reader("foo");
    let second = part("foo", "2", b"yz\r\n");
    let mut stream = part("foo", "1", b"x\r\n");
    stream.extend_from_slice(&second[..20]);
    assert_eq!(r.read_element(&stream), Ok(Some(b"x\r\n".to_vec())));
    assert_eq!(r.read_element(&second[20..].to_vec()), Ok(Some(b"yz\r\n".to_vec())));
}

#[test]
fn a_part_that_is_there_already_waits_for_a_chunk() {
    let mut r = reader("foo");
    let mut stream = part("foo", "1", b"x\r\n");
    stream.extend_from_slice(&part("foo", "1", b"y\r\n"));
    assert_eq!(r.read_element(&stream), Ok(Some(b"x\r\n".to_vec())));
    assert_eq!(r.read_element(&vec![]), Ok(Some(b"y\r\n".to_vec())));
}

#[test]
fn without_a_header_the_part_is_empty_and_all_is_kept() {
    let mut r = reader("foo");
    let stream = part("foo", "3", b"abc\r\n");
    assert_eq!(r.read_element(&stream[..10].to_vec()), Ok(Some(vec![])));
    assert_eq!(r.read_element(&stream[10..].to_vec()), Ok(Some(b"abc\r\n".to_vec())));
    assert_eq!(reader("foo").read_element(&part("bar", "3", b"abc\r\n")), Ok(Some(vec![])));
}

#[test]
fn bytes_that_are_no_text_follow_the_header() {
    let mut r = reader("foo");
    let body = [255u8, 216, 0, 195, 40, 128, 13, 10];
    assert_eq!(r.read_element(&part("foo", "6", &body)), Ok(Some(body.to_vec())));
}

#[test]
fn white_space_in_the_header_may_vary() {
    let stream = b"--foo\r\nContent-type: image/jpeg\r\n \tContent-Length:   2\r\n\r\nab\r\n".to_vec();
    assert_eq!(reader("foo").read_element(&stream), Ok(Some(b"ab\r\n".to_vec())));
}

#[test]
fn a_header_further_on_takes_its_length_from_the_start() {
    let mut stream = b"#".to_vec();
    stream.extend_from_slice(&part("foo", "2", b"ab\r\n"));
    assert_eq!(reader("foo").read_element(&stream), Ok(Some(b"\nab\r".to_vec())));
}

#[test]
fn a_boundary_is_a_pattern() {
    assert_eq!(reader("f.o").read_element(&part("fxo", "1", b"a\r\n")), Ok(Some(b"a\r\n".to_vec())));
    assert_eq!(reader("f.o").read_element(&part("fo", "1", b"a\r\n")), Ok(Some(vec![])));
}

#[test]
fn a_boundary_that_makes_no_pattern_is_refused() {
    assert!(matches!(ElementReader::new("(".to_string()), Err(ReadFault::BadPattern)));
    assert!(matches!(ElementReader::new("*[".to_string()), Err(ReadFault::BadPattern)));
    assert!(!ReadFault::BadPattern.is_fatal());
}

#[test]
fn a_length_that_is_no_number_ends_the_round() {
    let fault = Err(ReadFault::BadLength);
    assert_eq!(reader("foo").read_element(&part("foo", "99999999999999999999999", b"")), fault);
    assert_eq!(reader("foo").read_element(&part("foo", "\u{663}", b"")), Err(ReadFault::BadLength));
    assert!(!ReadFault::BadLength.is_fatal());
}

#[test]
fn a_length_without_room_for_the_line_break_is_fatal() {
    let most = format!("{}", usize::MAX);
    assert_eq!(reader("foo").read_element(&part("foo", &most, b"")), Err(ReadFault::NoRoom));
    let fits = format!("{}", usize::MAX - 2);
    assert_eq!(reader("foo").read_element(&part("foo", &fits, b"")), Ok(None));
    assert!(ReadFault::NoRoom.is_fatal());
}

#[test]
fn a_match_without_a_length_is_fatal() {
    assert_eq!(reader("x|y").read_element(&b"--x".to_vec()), Err(ReadFault::NoLength));
    assert!(ReadFault::NoLength.is_fatal());
}

#[test]
fn a_header_longer_than_what_was_read_is_fatal() {
    let mut stream = b"--".to_vec();
    stream.extend_from_slice(&[255; 40]);
    stream.extend_from_slice(b"\r\nContent-type: image/jpeg\r\nContent-Length: 1\r\n\r\n");
    assert_eq!(reader("(?s).*").read_element(&stream), Err(ReadFault::Overrun));
    assert!(ReadFault::Overrun.is_fatal());
}

#[test]
fn what_a_search_means() {
    let found = |header: &str, digits: &str| Some((header.to_string(), Some(digits.to_string())));
    assert_eq!(open_element(&None, 10), Ok(None));
    assert_eq!(open_element(&found("abcd", "7"), 10), Ok(Some((4, 9))));
    assert_eq!(open_element(&found("\u{fffd}", "7"), 3), Ok(Some((3, 9))));
    assert_eq!(open_element(&found("\u{fffd}", "7"), 2), Err(ReadFault::Overrun));
    assert_eq!(open_element(&found("abcd", ""), 10), Err(ReadFault::BadLength));
    assert_eq!(open_element(&Some(("abcd".to_string(), None)), 10), Err(ReadFault::NoLength));
}

#[test]
fn an_own_part_is_read_back_however_it_is_cut() {
    let image: Vec<u8> = (0..=255u8).rev().collect();
    let mut stream = frame(&image);
    stream.extend_from_slice(b"rest");
    let mut expected = image.clone();
    expected.extend_from_slice(b"\r\n");
    let header = stream.len() - 4 - expected.len();
    for first in header..stream.len() {
        for step in [1usize, 7, 300] {
            let mut r = reader("BoundaryString");
            let mut got = r.read_element(&stream[..first].to_vec()).unwrap();
            let mut at = first;
            while got.is_none() {
                let end = usize::min(at + step, stream.len());
                got = r.read_element(&stream[at..end].to_vec()).unwrap();
                at = end;
            }
            assert_eq!(got, Some(expected.clone()));
        }
    }
}

#[test]
fn a_long_boundary_is_found() {
    let boundary = "b".repeat(300000);
    let mut r = reader(&boundary);
    assert_eq!(r.read_element(&part(&boundary, "3", b"abc")), Ok(None));
    assert_eq!(r.read_element(&b"\r\n".to_vec()), Ok(Some(b"abc\r\n".to_vec())));
}
