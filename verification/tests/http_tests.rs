use whatports::http::{
    example_port, example_port_from, fill_template, http_text, page_reply, route, FileRead, Reply, Route,
};
use whatports::report::ClientInfo;

fn client(port: &str) -> ClientInfo {
    ClientInfo {
        ip: "198.51.100.7".to_string(),
        srcport: "40000".to_string(),
        port: port.to_string(),
        protocol: "TCP".to_string(),
    }
}

fn headers(r: &Reply) -> Vec<(&str, &str)> {
    r.headers.iter().map(|(a, b)| (a.as_str(), b.as_str())).collect()
}

fn text(route: Route) -> Reply {
    match route {
        Route::Text(r) => r,
        other => panic!("expected a text reply, got {:?}", other),
    }
}

#[test]
fn text_replies_declare_their_type_only_when_nonempty() {
    let r = http_text("hi", None);
    assert_eq!(r.status, 200);
    assert_eq!(r.body, "hi");
    assert_eq!(headers(&r), vec![("Access-Control-Allow-Origin", "*"), ("Content-Type", "text/plain")]);
    let e = http_text("", Some(404));
    assert_eq!(e.status, 404);
    assert_eq!(e.body, "");
    assert_eq!(headers(&e), vec![("Access-Control-Allow-Origin", "*")]);
}

#[test]
fn other_methods_are_refused_on_every_path() {
    for path in ["/", "/raw", "/json", "/ping", "/nope"] {
        let r = text(route("POST", path, None, &client("80")));
        assert_eq!(r.status, 405);
        assert_eq!(r.body, "");
    }
    assert_eq!(text(route("get", "/raw", None, &client("80"))).status, 405);
}

#[test]
fn root_serves_the_page_to_browsers_and_text_to_others() {
    match route("GET", "/", Some("text/html,application/xhtml+xml"), &client("80")) {
        Route::File { path, content_type, templated } => {
            assert_eq!(path, "public/index.html");
            assert_eq!(content_type, "text/html");
            assert!(templated);
        }
        other => panic!("{:?}", other),
    }
    let r = text(route("GET", "/", Some("*/*"), &client("80")));
    assert_eq!(r.status, 200);
    assert_eq!(r.body, "TCP Port 80 is open for IP 198.51.100.7 (source port 40000)\r\n");
    let r = text(route("GET", "/", None, &client("80")));
    assert_eq!(r.status, 200);
}

#[test]
fn serves_static_files_untemplated() {
    match route("GET", "/script.js", None, &client("1")) {
        Route::File { path, content_type, templated } => {
            assert_eq!(path, "public/script.js");
            assert_eq!(content_type, "application/javascript");
            assert!(!templated);
        }
        other => panic!("{:?}", other),
    }
    match route("GET", "/bootstrap.min.css", None, &client("1")) {
        Route::File { path, content_type, templated } => {
            assert_eq!(path, "public/bootstrap.min.css");
            assert_eq!(content_type, "text/css");
            assert!(!templated);
        }
        other => panic!("{:?}", other),
    }
    match route("GET", "/index.html", None, &client("1")) {
        Route::File { templated, .. } => assert!(templated),
        other => panic!("{:?}", other),
    }
}

#[test]
fn answers_raw_json_ping_and_unknown_paths() {
    let raw = text(route("GET", "/raw", None, &client("22")));
    assert_eq!(raw.body, "TCP Port 22 is open for IP 198.51.100.7 (source port 40000)\r\n");
    assert_eq!(headers(&raw), vec![("Access-Control-Allow-Origin", "*"), ("Content-Type", "text/plain")]);
    let json = text(route("GET", "/json", None, &client("22")));
    assert_eq!(json.body, "{\"protocol\":\"TCP\",\"port\":\"22\",\"ip\":\"198.51.100.7\",\"srcport\":\"40000\"}");
    let ping = text(route("GET", "/ping", None, &client("22")));
    assert_eq!(ping.status, 204);
    assert_eq!(ping.body, "");
    let missing = text(route("GET", "/favicon.ico", None, &client("22")));
    assert_eq!(missing.status, 404);
}

#[test]
fn fills_in_the_page() {
    let page = "Port {{port}} from {{ip}} via {{protocol}}; try {{example_port}}. {{port}}{{port}} {{unknown}} {{po";
    let filled = fill_template(page, &client("443"), "1234");
    assert_eq!(filled, "Port 443 from 198.51.100.7 via TCP; try 1234. 443443 {{unknown}} {{po");
}

#[test]
fn fills_in_like_str_replace() {
    let page = "{{ip}}{{ip}} {{{ip}}} {{port}}";
    let c = ClientInfo { ip: "{{port}}".to_string(), srcport: "1".to_string(), port: "9".to_string(), protocol: "UDP".to_string() };
    let expected = page
        .replace("{{port}}", &c.port)
        .replace("{{ip}}", &c.ip)
        .replace("{{protocol}}", &c.protocol)
        .replace("{{example_port}}", "5");
    assert_eq!(fill_template(page, &c, "5"), expected);
}

#[test]
fn a_page_without_placeholders_is_unchanged() {
    let page = "<html>{ {port} }</html>";
    assert_eq!(fill_template(page, &client("1"), "2"), page);
}

#[test]
fn example_port_follows_the_clients_port() {
    assert_eq!(example_port_from("8080", 4321), "8080");
    assert_eq!(example_port_from("80", 4321), "4321");
    assert_eq!(example_port_from("80", 0), "1");
    assert_eq!(example_port_from("unknown", 7), "unknown");
}

#[test]
fn example_port_uses_the_clock_in_big_endian_order() {
    let millis: u128 = 0x1_0000_0000_1234;
    let low = 0x1234u16;
    assert_eq!(example_port("80", millis), low.to_be().to_string());
    assert!(example_port("80", millis) == "4660" || example_port("80", millis) == "13330");
    assert_eq!(example_port("80", 0x1_0000), "1");
    assert_eq!(example_port("25", millis), "25");
}

#[test]
fn file_replies() {
    let missing = page_reply("text/html", FileRead::Missing);
    assert_eq!(missing.status, 404);
    assert_eq!(missing.body, "");
    assert_eq!(headers(&missing), vec![("Access-Control-Allow-Origin", "*")]);
    let broken = page_reply("text/html", FileRead::Unreadable);
    assert_eq!(broken.status, 500);
    let page = page_reply(
        "text/html",
        FileRead::Page { text: "p={{port}} e={{example_port}}".to_string(), client: client("80"), example: "5".to_string() },
    );
    assert_eq!(page.status, 200);
    assert_eq!(page.body, "p=80 e=5");
    assert_eq!(headers(&page), vec![("Content-Type", "text/html")]);
    let stream = page_reply("text/css", FileRead::Stream);
    assert_eq!(stream.status, 200);
    assert_eq!(stream.body, "");
    assert_eq!(headers(&stream), vec![("Content-Type", "text/css")]);
}
