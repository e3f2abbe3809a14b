use whatports::detect::{client_action, request_method, sniff_method, white_space, ClientAction, Peek};

#[test]
fn recognises_request_methods() {
    for m in ["GET", "POST", "PUT", "DELETE", "HEAD", "OPTIONS", "PATCH", "TRACE", "CONNECT"] {
        let line = format!("{} / HTTP/1.1\r\n", m);
        assert_eq!(request_method(&line).as_deref(), Some(m));
    }
}

#[test]
fn ignores_leading_white_space_and_needs_a_whole_word() {
    assert_eq!(request_method(" \t\r\nGET /").as_deref(), Some("GET"));
    assert_eq!(request_method("GET").as_deref(), Some("GET"));
    assert_eq!(request_method("GETX /"), None);
    assert_eq!(request_method("get /"), None);
    assert_eq!(request_method(""), None);
    assert_eq!(request_method("   "), None);
    assert_eq!(request_method("\u{a0}POST x").as_deref(), Some("POST"));
    assert_eq!(request_method("PUT\u{3000}x").as_deref(), Some("PUT"));
}

#[test]
fn agrees_with_char_is_whitespace() {
    for u in 0u32..0x3100 {
        if let Some(c) = char::from_u32(u) {
            assert_eq!(white_space(c), c.is_whitespace(), "code point {:#x}", u);
        }
    }
}

#[test]
fn agrees_with_split_whitespace() {
    let samples = ["HEAD  /x", "\u{85}DELETE", "SSH-2.0-OpenSSH", "\u{2028}TRACE\u{2029}", "x y"];
    for s in samples {
        let word = s.split_whitespace().next().unwrap_or("");
        let methods = ["GET", "POST", "PUT", "DELETE", "HEAD", "OPTIONS", "PATCH", "TRACE", "CONNECT"];
        let expected = if methods.contains(&word) { Some(word.to_string()) } else { None };
        assert_eq!(request_method(s), expected, "{:?}", s);
    }
}

#[test]
fn sniffs_the_first_bytes() {
    assert_eq!(sniff_method(b"GET / HTTP/1.1\r\nHo").as_deref(), Some("GET"));
    assert_eq!(sniff_method(b"\xffGET / HTTP/1.1"), None);
    assert_eq!(sniff_method(b"OPTIONS \xff\xfe").as_deref(), Some("OPTIONS"));
    assert_eq!(sniff_method(b"\x16\x03\x01\x02\x00"), None);
}

#[test]
fn decides_what_to_do_with_a_client() {
    assert!(matches!(client_action(Peek::Data(b"POST /x".to_vec())), ClientAction::ServeHttp(m) if m == "POST"));
    assert!(matches!(client_action(Peek::Data(b"hello".to_vec())), ClientAction::SendBanner));
    assert!(matches!(client_action(Peek::Data(Vec::new())), ClientAction::Closed));
    assert!(matches!(client_action(Peek::Failed), ClientAction::Failed));
    assert!(matches!(client_action(Peek::TimedOut), ClientAction::BannerAfterTimeout));
}
