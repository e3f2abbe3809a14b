use whatports::number::{decimal_string, parse_port};

#[test]
fn parses_like_u16_from_str() {
    let cases = ["0", "80", "+80", "65535", "65536", "", "+", "-1", "-0", "1 ", " 1", "00080", "99999999999", "8a", "++1"];
    for c in cases {
        assert_eq!(parse_port(c), c.parse::<u16>().ok(), "input {:?}", c);
    }
}

#[test]
fn writes_like_to_string() {
    assert_eq!(decimal_string(0), "0");
    assert_eq!(decimal_string(7), "7");
    assert_eq!(decimal_string(80), "80");
    assert_eq!(decimal_string(65535), "65535");
}

#[test]
fn every_port_number_reads_back() {
    for n in 0..=u16::MAX {
        let s = decimal_string(n);
        assert_eq!(s, n.to_string());
        assert_eq!(parse_port(&s), Some(n));
    }
}
