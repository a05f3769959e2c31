use mjpeg_proxy::request::{listen_port, query_width, request_width, RequestFault, PORT};

#[test]
fn a_width_is_asked_for() {
    assert_eq!(request_width("/?width=640"), Ok(Some(640)));
    assert_eq!(request_width("/cam-1/stream_2?width=0"), Ok(Some(0)));
    assert_eq!(request_width("/?a=b&width=65535&width=1"), Ok(Some(65535)));
    assert_eq!(request_width("/?w%69dth=%31%30"), Ok(Some(10)));
    assert_eq!(request_width("/?width=%2B7"), Ok(Some(7)));
}

#[test]
fn every_width_can_be_asked_for() {
    for width in 0..=65535u16 {
        assert_eq!(request_width(&format!("/?width={}", width)), Ok(Some(width)));
    }
}

#[test]
fn no_width_is_asked_for() {
    assert_eq!(request_width("/"), Ok(None));
    assert_eq!(request_width(""), Ok(None));
    assert_eq!(request_width("/?height=3"), Ok(None));
    assert_eq!(request_width("/?Width=3"), Ok(None));
    assert_eq!(request_width("/#?width=3"), Ok(None));
}

#[test]
fn a_width_that_is_no_number_is_refused() {
    assert_eq!(request_width("/?width="), Err(RequestFault::BadWidth));
    assert_eq!(request_width("/?width=abc"), Err(RequestFault::BadWidth));
    assert_eq!(request_width("/?width=-1"), Err(RequestFault::BadWidth));
    assert_eq!(request_width("/?width=65536"), Err(RequestFault::BadWidth));
    assert_eq!(request_width("/?width=+7"), Err(RequestFault::BadWidth));
    assert_eq!(request_width("/?width=x&width=1"), Err(RequestFault::BadWidth));
}

#[test]
fn a_target_that_makes_no_url_is_refused() {
    assert_eq!(request_width(":port"), Err(RequestFault::BadUrl));
    assert_eq!(request_width(" space"), Err(RequestFault::BadUrl));
}

#[test]
fn a_query_is_searched_for_the_first_width() {
    let pair = |name: &str, value: &str| (name.to_string(), value.to_string());
    assert_eq!(query_width(&vec![]), Ok(None));
    assert_eq!(query_width(&vec![pair("x", "1"), pair("width", "2"), pair("width", "y")]), Ok(Some(2)));
    assert_eq!(query_width(&vec![pair("width", "y"), pair("width", "2")]), Err(RequestFault::BadWidth));
}

#[test]
fn the_port_to_listen_on() {
    assert_eq!(listen_port(None), Some(8888));
    assert_eq!(listen_port(None), Some(PORT));
    assert_eq!(listen_port(Some("80")), Some(80));
    assert_eq!(listen_port(Some("65536")), None);
    assert_eq!(listen_port(Some("http")), None);
}
