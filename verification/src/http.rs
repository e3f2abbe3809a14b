//! HTTP side of the server: which answer each request gets, the text
//! responses, and the pages that are filled in with the client's details.

use vstd::prelude::*;
use crate::number::{decimal, decimal_string, law_decimal_parse_roundtrip, parse_u16};
use crate::report::{ClientInfo, json_report, json_text, open_line, text_report};
use crate::text::{
    differs_at, lemma_no_match_without_char, lemma_replace_front, lemma_replace_keeps_prefix,
    no_match_in, chars_of, contains_chars, contains_text, replace_all, replace_chars, same_text, string_of,
};

verus! {

pub const STATUS_OK: u16 = 200;
pub const STATUS_NO_CONTENT: u16 = 204;
pub const STATUS_NOT_FOUND: u16 = 404;
pub const STATUS_METHOD_NOT_ALLOWED: u16 = 405;
pub const STATUS_INTERNAL_SERVER_ERROR: u16 = 500;

/// A complete HTTP response: status code, headers in order, and body text.
#[derive(Debug)]
pub struct Reply {
    pub status: u16,
    pub headers: Vec<(String, String)>,
    pub body: String,
}

/// The headers as pairs of character sequences.
pub open spec fn header_views(h: Seq<(String, String)>) -> Seq<(Seq<char>, Seq<char>)> {
    h.map_values(|p: (String, String)| (p.0@, p.1@))
}

/// The headers of a text response: anyone may read it, and a non-empty
/// body is declared as plain text.
pub open spec fn text_headers(body: Seq<char>) -> Seq<(Seq<char>, Seq<char>)> {
    if body.len() == 0 {
        seq![("Access-Control-Allow-Origin"@, "*"@)]
    } else {
        seq![("Access-Control-Allow-Origin"@, "*"@), ("Content-Type"@, "text/plain"@)]
    }
}

/// `r` is the text response with `status` and `body`.
pub open spec fn is_text_reply(r: Reply, status: u16, body: Seq<char>) -> bool {
    &&& r.status == status
    &&& r.body@ == body
    &&& header_views(r.headers@) == text_headers(body)
}

fn header(name: &str, value: &str) -> (h: (String, String))
    ensures
        h.0@ == name@,
        h.1@ == value@,
{
    (String::from_str(name), String::from_str(value))
}

/// The text response with `text` as body and `status` (200 when `None`).
pub fn http_text(text: &str, status: Option<u16>) -> (r: Reply)
    ensures
        is_text_reply(
            r,
            match status {
                Some(s) => s,
                None => STATUS_OK,
            },
            text@,
        ),
{
    let status = match status {
        Some(s) => s,
        None => STATUS_OK,
    };
    let mut headers: Vec<(String, String)> = Vec::new();
    headers.push(header("Access-Control-Allow-Origin", "*"));
    if !text.is_empty() {
        headers.push(header("Content-Type", "text/plain"));
    }
    let r = Reply { status, headers, body: String::from_str(text) };
    assert(header_views(r.headers@) =~= text_headers(text@));
    r
}

/// The response that carries a served file's content: status 200 and the
/// file's content type as the only header.
pub fn file_reply(content_type: &str, body: String) -> (r: Reply)
    ensures
        r.status == STATUS_OK,
        header_views(r.headers@) == seq![("Content-Type"@, content_type@)],
        r.body == body,
{
    let mut headers: Vec<(String, String)> = Vec::new();
    headers.push(header("Content-Type", content_type));
    let r = Reply { status: STATUS_OK, headers, body };
    assert(header_views(r.headers@) =~= seq![("Content-Type"@, content_type@)]);
    r
}

/// What a request is answered with.
#[derive(Debug)]
pub enum Route {
    /// A text response.
    Text(Reply),
    /// The file at `path`, served as `content_type`; when `templated`, its
    /// text is first filled in with the client's details.
    File { path: String, content_type: String, templated: bool },
}

/// `Route` with the response reduced to status and body (its headers follow
/// from the body) and the texts as character sequences.
pub enum RouteView {
    Text(u16, Seq<char>),
    File(Seq<char>, Seq<char>, bool),
}

pub open spec fn route_view_of(r: Route) -> RouteView {
    match r {
        Route::Text(reply) => RouteView::Text(reply.status, reply.body@),
        Route::File { path, content_type, templated } => RouteView::File(
            path@,
            content_type@,
            templated,
        ),
    }
}

/// The request's `Accept` header (if any) asks for HTML.
pub open spec fn accepts_html(accept: Option<Seq<char>>) -> bool {
    match accept {
        Some(h) => contains_text(h, "text/html"@),
        None => false,
    }
}

/// The answer to a request with `method`, `path` and `Accept` header.
pub open spec fn route_spec(
    method: Seq<char>,
    path: Seq<char>,
    accept: Option<Seq<char>>,
    c: ClientInfo,
) -> RouteView {
    if method != "GET"@ {
        RouteView::Text(STATUS_METHOD_NOT_ALLOWED, Seq::empty())
    } else if path == "/"@ {
        if accepts_html(accept) {
            RouteView::File("public/index.html"@, "text/html"@, true)
        } else {
            RouteView::Text(STATUS_OK, open_line(c) + "\r\n"@)
        }
    } else if path == "/index.html"@ {
        RouteView::File("public/index.html"@, "text/html"@, true)
    } else if path == "/script.js"@ {
        RouteView::File("public/script.js"@, "application/javascript"@, false)
    } else if path == "/bootstrap.min.css"@ {
        RouteView::File("public/bootstrap.min.css"@, "text/css"@, false)
    } else if path == "/raw"@ {
        RouteView::Text(STATUS_OK, open_line(c) + "\r\n"@)
    } else if path == "/json"@ {
        RouteView::Text(STATUS_OK, json_text(c))
    } else if path == "/ping"@ {
        RouteView::Text(STATUS_NO_CONTENT, Seq::empty())
    } else {
        RouteView::Text(STATUS_NOT_FOUND, Seq::empty())
    }
}

/// A file answer is one of the three files the server has, each with its
/// own content type: the page as HTML (filled in), the script as JavaScript
/// and the style sheet as CSS (both sent as they are).
pub open spec fn serves_known_file(v: RouteView) -> bool {
    match v {
        RouteView::File(p, ct, t) => {
            ||| (p == "public/index.html"@ && ct == "text/html"@ && t)
            ||| (p == "public/script.js"@ && ct == "application/javascript"@ && !t)
            ||| (p == "public/bootstrap.min.css"@ && ct == "text/css"@ && !t)
        },
        RouteView::Text(..) => true,
    }
}

/// Any method other than exactly `GET` is refused with 405 and an empty
/// body, whatever the path and headers.
pub proof fn law_only_get_is_served(
    method: Seq<char>,
    path: Seq<char>,
    accept: Option<Seq<char>>,
    c: ClientInfo,
)
    requires
        method != "GET"@,
    ensures
        route_spec(method, path, accept, c) == RouteView::Text(405, Seq::<char>::empty()),
{
}

/// `/index.html` is always the page, filled in and served as `text/html`,
/// whatever the `Accept` header; `/` gives the same page to clients that
/// accept HTML.
pub proof fn law_index_page_is_html(accept: Option<Seq<char>>, c: ClientInfo)
    ensures
        route_spec("GET"@, "/index.html"@, accept, c) == RouteView::File(
            "public/index.html"@,
            "text/html"@,
            true,
        ),
        accepts_html(accept) ==> route_spec("GET"@, "/"@, accept, c) == RouteView::File(
            "public/index.html"@,
            "text/html"@,
            true,
        ),
{
    proof_strs_differ();
}

/// Every file answer names one of the three files with its own content type.
pub proof fn law_files_have_their_content_types(
    method: Seq<char>,
    path: Seq<char>,
    accept: Option<Seq<char>>,
    c: ClientInfo,
)
    ensures
        serves_known_file(route_spec(method, path, accept, c)),
{
}

/// `/ping` is answered 204 with an empty body, `/raw` and `/json` with the
/// text and JSON reports, and an unknown path with 404.
pub proof fn law_text_paths(accept: Option<Seq<char>>, c: ClientInfo, path: Seq<char>)
    ensures
        route_spec("GET"@, "/ping"@, accept, c) == RouteView::Text(204, Seq::<char>::empty()),
        route_spec("GET"@, "/raw"@, accept, c) == RouteView::Text(200, open_line(c) + "\r\n"@),
        route_spec("GET"@, "/json"@, accept, c) == RouteView::Text(200, json_text(c)),
        path != "/"@ && path != "/index.html"@ && path != "/script.js"@ && path
            != "/bootstrap.min.css"@ && path != "/raw"@ && path != "/json"@ && path != "/ping"@
            ==> route_spec("GET"@, path, accept, c) == RouteView::Text(404, Seq::<char>::empty()),
{
    proof_strs_differ();
}

proof fn proof_strs_differ()
    ensures
        "/index.html"@ != "/"@,
        "/ping"@ != "/"@,
        "/ping"@ != "/index.html"@,
        "/ping"@ != "/script.js"@,
        "/ping"@ != "/bootstrap.min.css"@,
        "/ping"@ != "/raw"@,
        "/ping"@ != "/json"@,
        "/raw"@ != "/"@,
        "/raw"@ != "/index.html"@,
        "/raw"@ != "/script.js"@,
        "/raw"@ != "/bootstrap.min.css"@,
        "/json"@ != "/"@,
        "/json"@ != "/index.html"@,
        "/json"@ != "/script.js"@,
        "/json"@ != "/bootstrap.min.css"@,
        "/json"@ != "/raw"@,
{
    reveal_strlit("/");
    reveal_strlit("/index.html");
    reveal_strlit("/script.js");
    reveal_strlit("/bootstrap.min.css");
    reveal_strlit("/raw");
    reveal_strlit("/json");
    reveal_strlit("/ping");
    assert("/index.html"@.len() != "/"@.len());
    assert("/ping"@.len() != "/"@.len());
    assert("/ping"@.len() != "/index.html"@.len());
    assert("/ping"@.len() != "/script.js"@.len());
    assert("/ping"@.len() != "/bootstrap.min.css"@.len());
    assert("/ping"@[1] != "/raw"@[1]);
    assert("/ping"@[1] != "/json"@[1]);
    assert("/raw"@.len() != "/"@.len());
    assert("/raw"@.len() != "/index.html"@.len());
    assert("/raw"@.len() != "/script.js"@.len());
    assert("/raw"@.len() != "/bootstrap.min.css"@.len());
    assert("/json"@.len() != "/"@.len());
    assert("/json"@.len() != "/index.html"@.len());
    assert("/json"@.len() != "/script.js"@.len());
    assert("/json"@.len() != "/bootstrap.min.css"@.len());
    assert("/json"@.len() != "/raw"@.len());
}

/// A text response's headers are those of `http_text` for its body.
pub open spec fn route_headers_ok(r: Route) -> bool {
    match r {
        Route::Text(reply) => header_views(reply.headers@) == text_headers(reply.body@),
        Route::File { .. } => true,
    }
}

fn file_route(path: &str, content_type: &str, templated: bool) -> (r: Route)
    ensures
        route_view_of(r) == RouteView::File(path@, content_type@, templated),
{
    Route::File {
        path: String::from_str(path),
        content_type: String::from_str(content_type),
        templated,
    }
}

fn empty_route(status: u16) -> (r: Route)
    ensures
        route_view_of(r) == RouteView::Text(status, Seq::<char>::empty()),
        route_headers_ok(r),
{
    proof {
        reveal_strlit("");
        assert(""@ =~= Seq::<char>::empty());
    }
    Route::Text(http_text("", Some(status)))
}

fn text_route(body: String) -> (r: Route)
    ensures
        route_view_of(r) == RouteView::Text(STATUS_OK, body@),
        route_headers_ok(r),
{
    Route::Text(http_text(body.as_str(), None))
}

/// Whether an `Accept` header value asks for HTML.
pub fn wants_html(accept: Option<&str>) -> (r: bool)
    ensures
        r == accepts_html(
            match accept {
                Some(h) => Some(h@),
                None => None,
            },
        ),
{
    match accept {
        Some(h) => {
            let hv = chars_of(h);
            let pv = chars_of("text/html");
            contains_chars(&hv, &pv)
        },
        None => false,
    }
}

/// Decides how to answer an HTTP request from its method, its path, the
/// value of its `Accept` header, and the client's details.
pub fn route(method: &str, path: &str, accept: Option<&str>, c: &ClientInfo) -> (r: Route)
    ensures
        route_view_of(r) == route_spec(
            method@,
            path@,
            match accept {
                Some(h) => Some(h@),
                None => None,
            },
            *c,
        ),
        route_headers_ok(r),
        method@ != "GET"@ ==> route_view_of(r) == RouteView::Text(405, Seq::<char>::empty()),
        method@ == "GET"@ && path@ == "/index.html"@ ==> route_view_of(r) == RouteView::File(
            "public/index.html"@,
            "text/html"@,
            true,
        ),
        serves_known_file(route_view_of(r)),
{
    proof {
        proof_strs_differ();
    }
    if !same_text(method, "GET") {
        empty_route(STATUS_METHOD_NOT_ALLOWED)
    } else if same_text(path, "/") {
        if wants_html(accept) {
            file_route("public/index.html", "text/html", true)
        } else {
            text_route(text_report(c))
        }
    } else if same_text(path, "/index.html") {
        file_route("public/index.html", "text/html", true)
    } else if same_text(path, "/script.js") {
        file_route("public/script.js", "application/javascript", false)
    } else if same_text(path, "/bootstrap.min.css") {
        file_route("public/bootstrap.min.css", "text/css", false)
    } else if same_text(path, "/raw") {
        text_route(text_report(c))
    } else if same_text(path, "/json") {
        text_route(json_report(c))
    } else if same_text(path, "/ping") {
        empty_route(STATUS_NO_CONTENT)
    } else {
        empty_route(STATUS_NOT_FOUND)
    }
}

/// The page text with the client's details put in place of `{{port}}`,
/// `{{ip}}`, `{{protocol}}` and `{{example_port}}`, in that order.
pub open spec fn filled_page(content: Seq<char>, c: ClientInfo, example_port: Seq<char>) -> Seq<char> {
    let a = replace_all(content, "{{port}}"@, c.port@);
    let b = replace_all(a, "{{ip}}"@, c.ip@);
    let d = replace_all(b, "{{protocol}}"@, c.protocol@);
    replace_all(d, "{{example_port}}"@, example_port)
}

/// Fills in a page's placeholders with the client's details.
pub fn fill_template(content: &str, c: &ClientInfo, example_port: &str) -> (r: String)
    ensures
        r@ == filled_page(content@, *c, example_port@),
{
    proof {
        reveal_strlit("{{port}}");
        reveal_strlit("{{ip}}");
        reveal_strlit("{{protocol}}");
        reveal_strlit("{{example_port}}");
    }
    let text = chars_of(content);
    let a = replace_chars(&text, &chars_of("{{port}}"), &chars_of(c.port.as_str()));
    let b = replace_chars(&a, &chars_of("{{ip}}"), &chars_of(c.ip.as_str()));
    let d = replace_chars(&b, &chars_of("{{protocol}}"), &chars_of(c.protocol.as_str()));
    let e = replace_chars(&d, &chars_of("{{example_port}}"), &chars_of(example_port));
    string_of(&e)
}

proof fn lemma_placeholder_chars()
    ensures
        "{{port}}"@ == seq!['{', '{', 'p', 'o', 'r', 't', '}', '}'],
        "{{ip}}"@ == seq!['{', '{', 'i', 'p', '}', '}'],
        "{{protocol}}"@ == seq!['{', '{', 'p', 'r', 'o', 't', 'o', 'c', 'o', 'l', '}', '}'],
        "{{example_port}}"@ == seq![
            '{', '{', 'e', 'x', 'a', 'm', 'p', 'l', 'e', '_', 'p', 'o', 'r', 't', '}', '}',
        ],
{
    reveal_strlit("{{port}}");
    reveal_strlit("{{ip}}");
    reveal_strlit("{{protocol}}");
    reveal_strlit("{{example_port}}");
    assert("{{port}}"@ =~= seq!['{', '{', 'p', 'o', 'r', 't', '}', '}']);
    assert("{{ip}}"@ =~= seq!['{', '{', 'i', 'p', '}', '}']);
    assert("{{protocol}}"@ =~= seq!['{', '{', 'p', 'r', 'o', 't', 'o', 'c', 'o', 'l', '}', '}']);
    assert("{{example_port}}"@ =~= seq![
        '{', '{', 'e', 'x', 'a', 'm', 'p', 'l', 'e', '_', 'p', 'o', 'r', 't', '}', '}',
    ]);
}

/// A placeholder `a` cannot hold the start of another placeholder `from`:
/// both open with `{{`, `a` has no other `{`, and they differ at position `d`.
proof fn lemma_placeholders_apart(a: Seq<char>, from: Seq<char>, d: int)
    requires
        a.len() >= 3,
        from.len() >= 3,
        a[0] == '{' && a[1] == '{',
        from[0] == '{' && from[1] == '{',
        forall|k: int| 2 <= k < a.len() ==> a[k] != '{',
        2 <= d < a.len() && d < from.len() && a[d] != from[d],
    ensures
        no_match_in(a, from),
{
    assert forall|i: int| 0 <= i < a.len() implies #[trigger] differs_at(a, from, i) by {
        if i == 0 {
            assert(a[0 + d] != from[d]);
        } else if i == 1 {
            assert(a[1int + 1] != from[1]);
        } else {
            assert(a[i + 0] != from[0]);
        }
    }
}

/// `s` holds no `{`.
pub open spec fn brace_free(s: Seq<char>) -> bool {
    forall|i: int| 0 <= i < s.len() ==> s[i] != '{'
}

proof fn lemma_brace_free_no_match(a: Seq<char>)
    requires
        brace_free(a),
    ensures
        no_match_in(a, "{{port}}"@),
        no_match_in(a, "{{ip}}"@),
        no_match_in(a, "{{protocol}}"@),
        no_match_in(a, "{{example_port}}"@),
{
    lemma_placeholder_chars();
    lemma_no_match_without_char(a, "{{port}}"@, '{');
    lemma_no_match_without_char(a, "{{ip}}"@, '{');
    lemma_no_match_without_char(a, "{{protocol}}"@, '{');
    lemma_no_match_without_char(a, "{{example_port}}"@, '{');
}

/// Text without `{` passes through the page unchanged: filling in
/// `p + q` gives `p` followed by the filled-in `q`.
pub proof fn law_fill_keeps_plain_text(p: Seq<char>, q: Seq<char>, c: ClientInfo, e: Seq<char>)
    requires
        brace_free(p),
    ensures
        filled_page(p + q, c, e) == p + filled_page(q, c, e),
{
    lemma_placeholder_chars();
    lemma_brace_free_no_match(p);
    let r1 = replace_all(q, "{{port}}"@, c.port@);
    let r2 = replace_all(r1, "{{ip}}"@, c.ip@);
    let r3 = replace_all(r2, "{{protocol}}"@, c.protocol@);
    lemma_replace_keeps_prefix(p, q, "{{port}}"@, c.port@);
    lemma_replace_keeps_prefix(p, r1, "{{ip}}"@, c.ip@);
    lemma_replace_keeps_prefix(p, r2, "{{protocol}}"@, c.protocol@);
    lemma_replace_keeps_prefix(p, r3, "{{example_port}}"@, e);
}

/// Every `{{example_port}}` is replaced: a page that opens with it opens,
/// once filled in, with the example port, and the rest is filled in alike.
pub proof fn law_fill_example_port(q: Seq<char>, c: ClientInfo, e: Seq<char>)
    ensures
        filled_page("{{example_port}}"@ + q, c, e) == e + filled_page(q, c, e),
{
    lemma_placeholder_chars();
    let p4 = "{{example_port}}"@;
    lemma_placeholders_apart(p4, "{{port}}"@, 2);
    lemma_placeholders_apart(p4, "{{ip}}"@, 2);
    lemma_placeholders_apart(p4, "{{protocol}}"@, 2);
    let r1 = replace_all(q, "{{port}}"@, c.port@);
    let r2 = replace_all(r1, "{{ip}}"@, c.ip@);
    let r3 = replace_all(r2, "{{protocol}}"@, c.protocol@);
    lemma_replace_keeps_prefix(p4, q, "{{port}}"@, c.port@);
    lemma_replace_keeps_prefix(p4, r1, "{{ip}}"@, c.ip@);
    lemma_replace_keeps_prefix(p4, r2, "{{protocol}}"@, c.protocol@);
    lemma_replace_front(r3, p4, e);
}

/// Every `{{port}}` is replaced by the client's port (when the port text
/// itself holds no `{`).
pub proof fn law_fill_port(q: Seq<char>, c: ClientInfo, e: Seq<char>)
    requires
        brace_free(c.port@),
    ensures
        filled_page("{{port}}"@ + q, c, e) == c.port@ + filled_page(q, c, e),
{
    lemma_placeholder_chars();
    lemma_brace_free_no_match(c.port@);
    let r1 = replace_all(q, "{{port}}"@, c.port@);
    let r2 = replace_all(r1, "{{ip}}"@, c.ip@);
    let r3 = replace_all(r2, "{{protocol}}"@, c.protocol@);
    lemma_replace_front(q, "{{port}}"@, c.port@);
    lemma_replace_keeps_prefix(c.port@, r1, "{{ip}}"@, c.ip@);
    lemma_replace_keeps_prefix(c.port@, r2, "{{protocol}}"@, c.protocol@);
    lemma_replace_keeps_prefix(c.port@, r3, "{{example_port}}"@, e);
}

/// Every `{{ip}}` is replaced by the client's address (when the address
/// text itself holds no `{`).
pub proof fn law_fill_ip(q: Seq<char>, c: ClientInfo, e: Seq<char>)
    requires
        brace_free(c.ip@),
    ensures
        filled_page("{{ip}}"@ + q, c, e) == c.ip@ + filled_page(q, c, e),
{
    lemma_placeholder_chars();
    lemma_brace_free_no_match(c.ip@);
    let p2 = "{{ip}}"@;
    lemma_placeholders_apart(p2, "{{port}}"@, 2);
    let r1 = replace_all(q, "{{port}}"@, c.port@);
    let r2 = replace_all(r1, "{{ip}}"@, c.ip@);
    let r3 = replace_all(r2, "{{protocol}}"@, c.protocol@);
    lemma_replace_keeps_prefix(p2, q, "{{port}}"@, c.port@);
    lemma_replace_front(r1, p2, c.ip@);
    lemma_replace_keeps_prefix(c.ip@, r2, "{{protocol}}"@, c.protocol@);
    lemma_replace_keeps_prefix(c.ip@, r3, "{{example_port}}"@, e);
}

/// Every `{{protocol}}` is replaced by the client's protocol (when the
/// protocol text itself holds no `{`).
pub proof fn law_fill_protocol(q: Seq<char>, c: ClientInfo, e: Seq<char>)
    requires
        brace_free(c.protocol@),
    ensures
        filled_page("{{protocol}}"@ + q, c, e) == c.protocol@ + filled_page(q, c, e),
{
    lemma_placeholder_chars();
    lemma_brace_free_no_match(c.protocol@);
    let p3 = "{{protocol}}"@;
    lemma_placeholders_apart(p3, "{{port}}"@, 3);
    lemma_placeholders_apart(p3, "{{ip}}"@, 2);
    let r1 = replace_all(q, "{{port}}"@, c.port@);
    let r2 = replace_all(r1, "{{ip}}"@, c.ip@);
    let r3 = replace_all(r2, "{{protocol}}"@, c.protocol@);
    lemma_replace_keeps_prefix(p3, q, "{{port}}"@, c.port@);
    lemma_replace_keeps_prefix(p3, r1, "{{ip}}"@, c.ip@);
    lemma_replace_front(r2, p3, c.protocol@);
    lemma_replace_keeps_prefix(c.protocol@, r3, "{{example_port}}"@, e);
}

/// The empty page stays empty.
pub proof fn law_fill_empty(c: ClientInfo, e: Seq<char>)
    ensures
        filled_page(Seq::empty(), c, e) == Seq::<char>::empty(),
{
    lemma_placeholder_chars();
}

/// `x` with its two bytes exchanged.
pub open spec fn swap_bytes(x: u16) -> u16 {
    ((x % 256) * 256 + x / 256) as u16
}

/// The low 16 bits of a millisecond clock reading.
pub open spec fn clock_bits(millis: u128) -> u16 {
    (millis % 65536) as u16
}

/// The example port shown on the page: for a client that reached port 80,
/// the number `value` (1 in place of 0); otherwise the client's own port.
pub open spec fn example_port_text(client_port: Seq<char>, value: u16) -> Seq<char> {
    if client_port == "80"@ {
        decimal(
            if value == 0 {
                1
            } else {
                value as nat
            },
        )
    } else {
        client_port
    }
}

/// A text reply always lets any origin read it, and declares plain text
/// exactly when it has a body.
pub proof fn law_text_reply_headers(body: Seq<char>)
    ensures
        text_headers(body)[0] == ("Access-Control-Allow-Origin"@, "*"@),
        body.len() == 0 ==> text_headers(body).len() == 1,
        body.len() > 0 ==> text_headers(body).len() == 2 && text_headers(body)[1] == (
            "Content-Type"@,
            "text/plain"@,
        ),
{
}

/// A client that came in on port 80 is shown a clock-drawn port, never 0,
/// written in decimal; any other client is shown its own port text.
pub proof fn law_example_port(client_port: Seq<char>, value: u16)
    ensures
        client_port != "80"@ ==> example_port_text(client_port, value) == client_port,
        value > 0 ==> parse_u16(example_port_text("80"@, value)) == Some(value),
        parse_u16(example_port_text("80"@, 0)) == Some(1u16),
{
    law_decimal_parse_roundtrip(value);
    law_decimal_parse_roundtrip(1);
}

/// Exchanging the two bytes twice gives the value back.
pub proof fn law_swap_bytes_twice(x: u16)
    ensures
        swap_bytes(swap_bytes(x)) == x,
{
    let lo = x % 256;
    let hi = x / 256;
    assert(x == hi * 256 + lo);
    assert(swap_bytes(x) == lo * 256 + hi);
    assert((lo * 256 + hi) % 256 == hi && (lo * 256 + hi) / 256 == lo) by (nonlinear_arith)
        requires
            0 <= lo < 256,
            0 <= hi < 256,
    ;
}

/// `u16::to_be`: the value itself on a big-endian target, the value with its
/// two bytes exchanged on a little-endian one.
#[verifier::external_body]
fn to_big_endian(x: u16) -> (r: u16)
    ensures
        r == x || r == swap_bytes(x),
{
    x.to_be()
}

/// The example port for a client, given the number to show when it came in
/// on port 80.
pub fn example_port_from(client_port: &str, value: u16) -> (r: String)
    ensures
        r@ == example_port_text(client_port@, value),
{
    if same_text(client_port, "80") {
        let v = if value < 1 {
            1
        } else {
            value
        };
        decimal_string(v)
    } else {
        String::from_str(client_port)
    }
}

/// The example port for a client, drawn from a millisecond clock reading
/// when it came in on port 80: the low 16 bits of the reading in big-endian
/// byte order. Which of the two byte orders that is depends on the target.
pub fn example_port(client_port: &str, millis: u128) -> (r: String)
    ensures
        r@ == example_port_text(client_port@, clock_bits(millis)) || r@ == example_port_text(
            client_port@,
            swap_bytes(clock_bits(millis)),
        ),
{
    let low = (millis % 65536) as u16;
    let value = to_big_endian(low);
    example_port_from(client_port, value)
}

/// What reading a file to serve gave.
#[derive(Debug)]
pub enum FileRead {
    /// The file could not be opened.
    Missing,
    /// The file was opened but its text could not be read.
    Unreadable,
    /// The file's text, to be filled in with `client`'s details and `example` as example port.
    Page { text: String, client: ClientInfo, example: String },
    /// The file is sent as it is, streamed after the response head.
    Stream,
}

/// The response for a file of `content_type`, given what reading it gave: a
/// missing file is answered 404, an unreadable page 500, and otherwise 200
/// with the content type as only header and the filled-in page as body
/// (empty when the file is streamed).
pub fn page_reply(content_type: &str, read: FileRead) -> (r: Reply)
    ensures
        match read {
            FileRead::Missing => is_text_reply(r, STATUS_NOT_FOUND, Seq::empty()),
            FileRead::Unreadable => is_text_reply(r, STATUS_INTERNAL_SERVER_ERROR, Seq::empty()),
            FileRead::Page { text, client, example } => r.status == STATUS_OK && header_views(
                r.headers@,
            ) == seq![("Content-Type"@, content_type@)] && r.body@ == filled_page(
                text@,
                client,
                example@,
            ),
            FileRead::Stream => r.status == STATUS_OK && header_views(r.headers@) == seq![
                ("Content-Type"@, content_type@),
            ] && r.body@ == Seq::<char>::empty(),
        },
{
    proof {
        reveal_strlit("");
        assert(""@ =~= Seq::<char>::empty());
    }
    match read {
        FileRead::Missing => http_text("", Some(STATUS_NOT_FOUND)),
        FileRead::Unreadable => http_text("", Some(STATUS_INTERNAL_SERVER_ERROR)),
        FileRead::Page { text, client, example } => file_reply(
            content_type,
            fill_template(text.as_str(), &client, example.as_str()),
        ),
        FileRead::Stream => file_reply(content_type, String::new()),
    }
}

} // verus!
