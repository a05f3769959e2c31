use mjpeg_proxy::frame::response_head;
use mjpeg_proxy::multipart::{get_boundary_separator, HeaderFault};

fn boundary(content_type: &str) -> Option<String> {
    get_boundary_separator(Some(content_type.as_bytes().to_vec())).unwrap()
}

#[test]
fn a_boundary_is_found() {
    assert_eq!(boundary("multipart/x-mixed-replace; boundary=foo"), Some("foo".to_string()));
    assert_eq!(boundary("multipart/x-mixed-replace;boundary=--foo-bar"), Some("--foo-bar".to_string()));
    assert_eq!(boundary("multipart/x-mixed-replace; boundary=\"a b\""), Some("\"a b\"".to_string()));
    assert_eq!(boundary("boundary=x=boundary=y"), Some("x=boundary=y".to_string()));
}

#[test]
fn a_boundary_ends_at_a_semicolon() {
    assert_eq!(boundary("multipart/mixed; boundary=foo; charset=utf-8"), Some("foo".to_string()));
    assert_eq!(boundary("a;b; xboundary=1;boundary=2"), Some("1".to_string()));
    assert_eq!(boundary("a; boundary=; boundary=late"), Some("late".to_string()));
}

#[test]
fn there_may_be_no_boundary() {
    assert_eq!(get_boundary_separator(None), Ok(None));
    assert_eq!(boundary(""), None);
    assert_eq!(boundary("text/html"), None);
    assert_eq!(boundary("multipart/mixed; boundary="), None);
    assert_eq!(boundary(";;;"), None);
    assert_eq!(boundary("multipart/mixed; Boundary=foo"), None);
}

#[test]
fn a_field_that_is_no_text_is_refused() {
    assert_eq!(get_boundary_separator(Some(vec![200])), Err(HeaderFault::NotText));
    assert_eq!(get_boundary_separator(Some(b"boundary=a\n".to_vec())), Err(HeaderFault::NotText));
    assert_eq!(get_boundary_separator(Some(vec![127])), Err(HeaderFault::NotText));
    assert_eq!(boundary("boundary=a\tb"), Some("a\tb".to_string()));
}

#[test]
fn the_own_boundary_is_found() {
    let head = String::from_utf8(response_head()).unwrap();
    let at = head.find("Content-Type: ").unwrap() + "Content-Type: ".len();
    let field = &head[at..head.len() - 4];
    assert_eq!(boundary(field), Some("BoundaryString".to_string()));
}
