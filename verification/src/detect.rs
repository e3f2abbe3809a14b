//! Telling HTTP clients from others by the first bytes they send, and what
//! to do with a new TCP connection.

use vstd::prelude::*;
use vstd::utf8::{decode_utf8, valid_utf8};
use crate::text::{chars_of, same_chars, slice_of, string_of};

verus! {

/// The Unicode `White_Space` property, which `char::is_whitespace` tests.
pub open spec fn is_white_space(c: char) -> bool {
    let u = c as u32;
    ||| 0x9 <= u <= 0xD
    ||| u == 0x20
    ||| u == 0x85
    ||| u == 0xA0
    ||| u == 0x1680
    ||| 0x2000 <= u <= 0x200A
    ||| u == 0x2028
    ||| u == 0x2029
    ||| u == 0x202F
    ||| u == 0x205F
    ||| u == 0x3000
}

/// Among ASCII characters exactly tab, line feed, vertical tab, form feed,
/// carriage return and space are white space.
pub proof fn law_ascii_white_space(c: char)
    requires
        (c as u32) < 128,
    ensures
        is_white_space(c) <==> (c == '\t' || c == '\n' || c == '\x0B' || c == '\x0C' || c == '\r'
            || c == ' '),
{
}

/// Whether `c` is white space, as `char::is_whitespace` says.
pub fn white_space(c: char) -> (r: bool)
    ensures
        r == is_white_space(c),
{
    let u = c as u32;
    (0x9 <= u && u <= 0xD) || u == 0x20 || u == 0x85 || u == 0xA0 || u == 0x1680 || (0x2000 <= u
        && u <= 0x200A) || u == 0x2028 || u == 0x2029 || u == 0x202F || u == 0x205F || u == 0x3000
}

/// `s` without its leading white space.
pub open spec fn skip_white(s: Seq<char>) -> Seq<char>
    decreases s.len(),
{
    if s.len() > 0 && is_white_space(s[0]) {
        skip_white(s.drop_first())
    } else {
        s
    }
}

/// The characters of `s` up to its first white space.
pub open spec fn take_word(s: Seq<char>) -> Seq<char>
    decreases s.len(),
{
    if s.len() == 0 || is_white_space(s[0]) {
        Seq::empty()
    } else {
        seq![s[0]] + take_word(s.drop_first())
    }
}

/// The first white-space separated word of `s`, empty when there is none:
/// what `s.split_whitespace().next().unwrap_or("")` gives.
pub open spec fn first_word(s: Seq<char>) -> Seq<char> {
    take_word(skip_white(s))
}

proof fn lemma_skip_white(s: Seq<char>, i: int)
    requires
        0 <= i <= s.len(),
        forall|j: int| 0 <= j < i ==> is_white_space(#[trigger] s[j]),
        i == s.len() || !is_white_space(s[i]),
    ensures
        skip_white(s) == s.subrange(i, s.len() as int),
    decreases i,
{
    if i > 0 {
        assert forall|j: int| 0 <= j < i - 1 implies is_white_space(#[trigger] s.drop_first()[j]) by {
            assert(s.drop_first()[j] == s[j + 1]);
        }
        lemma_skip_white(s.drop_first(), i - 1);
        assert(s.drop_first().subrange(i - 1, s.len() - 1) =~= s.subrange(i, s.len() as int));
    } else {
        assert(s.subrange(0, s.len() as int) =~= s);
    }
}

proof fn lemma_take_word(s: Seq<char>, i: int)
    requires
        0 <= i <= s.len(),
        forall|j: int| 0 <= j < i ==> !is_white_space(#[trigger] s[j]),
        i == s.len() || is_white_space(s[i]),
    ensures
        take_word(s) == s.subrange(0, i),
    decreases i,
{
    if i > 0 {
        assert forall|j: int| 0 <= j < i - 1 implies !is_white_space(#[trigger] s.drop_first()[j]) by {
            assert(s.drop_first()[j] == s[j + 1]);
        }
        lemma_take_word(s.drop_first(), i - 1);
        assert(seq![s[0]] + s.drop_first().subrange(0, i - 1) =~= s.subrange(0, i));
    } else {
        assert(s.subrange(0, 0) =~= Seq::<char>::empty());
    }
}

/// The first white-space separated word of the characters `v`.
pub fn first_word_of(v: &Vec<char>) -> (w: Vec<char>)
    ensures
        w@ == first_word(v@),
{
    let n = v.len();
    let mut i: usize = 0;
    while i < n && white_space(v[i])
        invariant
            i <= n,
            n == v.len(),
            forall|j: int| 0 <= j < i ==> is_white_space(#[trigger] v@[j]),
        decreases n - i,
    {
        i = i + 1;
    }
    proof {
        lemma_skip_white(v@, i as int);
    }
    let mut k: usize = i;
    while k < n && !white_space(v[k])
        invariant
            i <= k <= n,
            n == v.len(),
            forall|j: int| i <= j < k ==> !is_white_space(#[trigger] v@[j]),
        decreases n - k,
    {
        k = k + 1;
    }
    let ghost rest = v@.subrange(i as int, n as int);
    proof {
        assert forall|j: int| 0 <= j < k - i implies !is_white_space(#[trigger] rest[j]) by {
            assert(rest[j] == v@[j + i]);
        }
        lemma_take_word(rest, k - i);
        assert(rest.subrange(0, k - i) =~= v@.subrange(i as int, k as int));
    }
    slice_of(v, i, k)
}

/// White space before the first word does not matter: prefixing any run of
/// white space leaves the first word, and so the detected method, unchanged.
pub proof fn law_leading_white_space_is_skipped(w: Seq<char>, s: Seq<char>)
    requires
        forall|i: int| 0 <= i < w.len() ==> is_white_space(#[trigger] w[i]),
    ensures
        first_word(w + s) == first_word(s),
    decreases w.len(),
{
    if w.len() > 0 {
        assert((w + s)[0] == w[0]);
        assert((w + s).drop_first() =~= w.drop_first() + s);
        assert forall|i: int| 0 <= i < w.drop_first().len() implies is_white_space(#[trigger] w.drop_first()[i]) by {
            assert(w.drop_first()[i] == w[i + 1]);
        }
        law_leading_white_space_is_skipped(w.drop_first(), s);
    } else {
        assert(w + s =~= s);
    }
}

/// The request methods the server recognises as the start of HTTP traffic.
pub open spec fn is_http_method(w: Seq<char>) -> bool {
    ||| w == "GET"@
    ||| w == "POST"@
    ||| w == "PUT"@
    ||| w == "DELETE"@
    ||| w == "HEAD"@
    ||| w == "OPTIONS"@
    ||| w == "PATCH"@
    ||| w == "TRACE"@
    ||| w == "CONNECT"@
}

/// Exactly nine words count as request methods: GET, POST, PUT, DELETE,
/// HEAD, OPTIONS, PATCH, TRACE and CONNECT; any other word, such as `PRI`
/// or `get`, does not.
pub proof fn law_the_nine_request_methods(w: Seq<char>)
    ensures
        is_http_method(w) <==> (w == "GET"@ || w == "POST"@ || w == "PUT"@ || w == "DELETE"@ || w
            == "HEAD"@ || w == "OPTIONS"@ || w == "PATCH"@ || w == "TRACE"@ || w == "CONNECT"@),
{
}

/// The first word is what follows the leading white space up to the next
/// white space: it holds no white space, and after it the text ends or
/// continues with white space.
pub proof fn law_first_word_is_a_word(s: Seq<char>)
    ensures
        forall|i: int| 0 <= i < first_word(s).len() ==> !is_white_space(#[trigger] first_word(s)[i]),
        skip_white(s).len() == 0 || !is_white_space(skip_white(s)[0]),
        first_word(s).len() <= skip_white(s).len(),
        skip_white(s).subrange(0, first_word(s).len() as int) == first_word(s),
        first_word(s).len() == skip_white(s).len() || is_white_space(
            skip_white(s)[first_word(s).len() as int],
        ),
        exists|k: int| 0 <= k <= s.len() && skip_white(s) == s.subrange(k, s.len() as int)
            && forall|j: int| 0 <= j < k ==> is_white_space(#[trigger] s[j]),
{
    lemma_skip_white_shape(s);
    lemma_take_word_shape(skip_white(s));
}

proof fn lemma_skip_white_shape(s: Seq<char>)
    ensures
        skip_white(s).len() == 0 || !is_white_space(skip_white(s)[0]),
        exists|k: int| 0 <= k <= s.len() && skip_white(s) == s.subrange(k, s.len() as int)
            && forall|j: int| 0 <= j < k ==> is_white_space(#[trigger] s[j]),
    decreases s.len(),
{
    if s.len() > 0 && is_white_space(s[0]) {
        lemma_skip_white_shape(s.drop_first());
        let k = choose|k: int| 0 <= k <= s.drop_first().len() && skip_white(s.drop_first())
            == s.drop_first().subrange(k, s.drop_first().len() as int) && forall|j: int|
            0 <= j < k ==> is_white_space(#[trigger] s.drop_first()[j]);
        assert(s.drop_first().subrange(k, s.drop_first().len() as int) =~= s.subrange(k + 1, s.len() as int));
        assert forall|j: int| 0 <= j < k + 1 implies is_white_space(#[trigger] s[j]) by {
            if j > 0 {
                assert(s[j] == s.drop_first()[j - 1]);
            }
        }
    } else {
        assert(s.subrange(0, s.len() as int) =~= s);
    }
}

proof fn lemma_take_word_shape(t: Seq<char>)
    ensures
        forall|i: int| 0 <= i < take_word(t).len() ==> !is_white_space(#[trigger] take_word(t)[i]),
        take_word(t).len() <= t.len(),
        t.subrange(0, take_word(t).len() as int) == take_word(t),
        take_word(t).len() == t.len() || is_white_space(t[take_word(t).len() as int]),
    decreases t.len(),
{
    if t.len() > 0 && !is_white_space(t[0]) {
        let r = t.drop_first();
        lemma_take_word_shape(r);
        let w = take_word(t);
        assert(w == seq![t[0]] + take_word(r));
        assert forall|i: int| 0 <= i < w.len() implies !is_white_space(#[trigger] w[i]) by {
            if i > 0 {
                assert(w[i] == take_word(r)[i - 1]);
            }
        }
        assert(t.subrange(0, w.len() as int) =~= seq![t[0]] + r.subrange(0, take_word(r).len() as int));
        if w.len() < t.len() {
            assert(t[w.len() as int] == r[take_word(r).len() as int]);
        }
    } else {
        assert(t.subrange(0, 0) =~= Seq::<char>::empty());
    }
}

/// Whether the word `w` is one of the recognised request methods.
pub fn http_method(w: &Vec<char>) -> (r: bool)
    ensures
        r == is_http_method(w@),
{
    same_chars(w, &chars_of("GET")) || same_chars(w, &chars_of("POST")) || same_chars(
        w,
        &chars_of("PUT"),
    ) || same_chars(w, &chars_of("DELETE")) || same_chars(w, &chars_of("HEAD")) || same_chars(
        w,
        &chars_of("OPTIONS"),
    ) || same_chars(w, &chars_of("PATCH")) || same_chars(w, &chars_of("TRACE")) || same_chars(
        w,
        &chars_of("CONNECT"),
    )
}

/// The request method that opens `text`, if its first word is one.
pub fn request_method(text: &str) -> (r: Option<String>)
    ensures
        match r {
            Some(m) => is_http_method(first_word(text@)) && m@ == first_word(text@),
            None => !is_http_method(first_word(text@)),
        },
        forall|m: String| r == Some(m) ==> (m@ == "GET"@ || m@ == "POST"@ || m@ == "PUT"@ || m@ == "DELETE"@ || m@ == "HEAD"@
                || m@ == "OPTIONS"@ || m@ == "PATCH"@ || m@ == "TRACE"@ || m@ == "CONNECT"@),
{
    let v = chars_of(text);
    let w = first_word_of(&v);
    if http_method(&w) {
        Some(string_of(&w))
    } else {
        None
    }
}

/// The text that `String::from_utf8_lossy` makes of `bytes`.
pub uninterp spec fn utf8_lossy(bytes: Seq<u8>) -> Seq<char>;

/// `String::from_utf8_lossy`: the text of `bytes`, with each invalid UTF-8
/// sequence replaced by U+FFFD. Of valid UTF-8 it claims that the text is
/// the decoded bytes; the replacement rule for invalid input is left to the
/// name `utf8_lossy`.
#[verifier::external_body]
fn lossy_text(bytes: &[u8]) -> (s: String)
    ensures
        s@ == utf8_lossy(bytes@),
        valid_utf8(bytes@) ==> s@ == decode_utf8(bytes@),
{
    String::from_utf8_lossy(bytes).into_owned()
}

/// The method of the request that `bytes` (the first bytes a client sent)
/// begin, if their first word, read as lossy UTF-8, is a request method.
pub fn sniff_method(bytes: &[u8]) -> (r: Option<String>)
    ensures
        match r {
            Some(m) => is_http_method(first_word(utf8_lossy(bytes@))) && m@ == first_word(
                utf8_lossy(bytes@),
            ),
            None => !is_http_method(first_word(utf8_lossy(bytes@))),
        },
        forall|m: String| r == Some(m) ==> (m@ == "GET"@ || m@ == "POST"@ || m@ == "PUT"@ || m@ == "DELETE"@ || m@ == "HEAD"@
                || m@ == "OPTIONS"@ || m@ == "PATCH"@ || m@ == "TRACE"@ || m@ == "CONNECT"@),
{
    let text = lossy_text(bytes);
    request_method(text.as_str())
}

/// How waiting for a new TCP client's first bytes ended.
#[derive(Debug)]
pub enum Peek {
    /// These bytes arrived (possibly none: the client closed the connection).
    Data(Vec<u8>),
    /// Reading failed.
    Failed,
    /// Nothing arrived in time.
    TimedOut,
}

/// What to do with a new TCP client.
#[derive(Debug)]
pub enum ClientAction {
    /// Serve HTTP; the request starts with this method.
    ServeHttp(String),
    /// The client sent something else: write the banner.
    SendBanner,
    /// The client closed the connection before sending anything.
    Closed,
    /// Reading from the client failed.
    Failed,
    /// The client sent nothing in time: write the banner.
    BannerAfterTimeout,
}

/// Decides what to do with a new TCP client from the first bytes it sent.
pub fn client_action(peek: Peek) -> (a: ClientAction)
    ensures
        match peek {
            Peek::Data(b) => if b@.len() == 0 {
                a is Closed
            } else if is_http_method(first_word(utf8_lossy(b@))) {
                a matches ClientAction::ServeHttp(m) && m@ == first_word(utf8_lossy(b@))
            } else {
                a is SendBanner
            },
            Peek::Failed => a is Failed,
            Peek::TimedOut => a is BannerAfterTimeout,
        },
        forall|m: String| a == ClientAction::ServeHttp(m) ==> (m@ == "GET"@ || m@ == "POST"@ || m@ == "PUT"@ || m@ == "DELETE"@ || m@ == "HEAD"@
                || m@ == "OPTIONS"@ || m@ == "PATCH"@ || m@ == "TRACE"@ || m@ == "CONNECT"@),
{
    match peek {
        Peek::Data(b) => {
            if b.len() == 0 {
                ClientAction::Closed
            } else {
                match sniff_method(b.as_slice()) {
                    Some(m) => ClientAction::ServeHttp(m),
                    None => ClientAction::SendBanner,
                }
            }
        },
        Peek::Failed => ClientAction::Failed,
        Peek::TimedOut => ClientAction::BannerAfterTimeout,
    }
}

} // verus!
