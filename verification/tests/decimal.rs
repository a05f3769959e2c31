use mjpeg_proxy::decimal::{parse_u16, parse_unsigned, parse_usize, write_decimal};

#[test]
fn numerals_are_written_as_the_standard_library_writes_them() {
    for n in [0u64, 7, 9, 10, 99, 100, 65535, 65536, 1_000_000_007, u64::MAX] {
        assert_eq!(write_decimal(n), n.to_string());
    }
}

#[test]
fn numerals_are_read_as_the_standard_library_reads_them() {
    let texts = [
        "", "+", "-", "0", "+0", "00042", "+42", "-1", "-0", "++1", "1+", " 1", "1 ", "12a", "65535",
        "65536", "655350", "99999999999999999999999", "\u{663}", "1\u{663}", "\u{1f600}", "6 5",
        "18446744073709551615", "18446744073709551616",
    ];
    for text in texts {
        assert_eq!(parse_u16(text), text.parse::<u16>().ok());
        assert_eq!(parse_usize(text), text.parse::<usize>().ok());
        assert_eq!(parse_unsigned(text, u64::MAX), text.parse::<u64>().ok());
    }
}

#[test]
fn a_number_is_bounded() {
    assert_eq!(parse_unsigned("255", 255), Some(255));
    assert_eq!(parse_unsigned("256", 255), None);
    assert_eq!(parse_unsigned("1", 0), None);
    assert_eq!(parse_unsigned("000", 0), Some(0));
}

#[test]
fn what_is_written_is_read_back() {
    let mut n: u64 = 0;
    while n <= 70000 {
        let expected = if n <= 65535 { Some(n as u16) } else { None };
        assert_eq!(parse_u16(&write_decimal(n)), expected);
        n += 7;
    }
}
