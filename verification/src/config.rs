//! Listener specifications given on the command line:
//! `[ip-address]:start_port[-end_port][:mapped_port]`.
//!
//! An argument is first split into its address text, port text and optional
//! mapped-port text; the address is then read by the application (it is an
//! IP address in std's syntax); last, the port text becomes a `PortRange`.

use vstd::prelude::*;
use crate::text::{
    chars_of, count_char, count_in, find_char, find_in, lemma_count_char, lemma_count_two, lemma_find_char,
    lemma_rfind_char, rfind_char, rfind_in, slice_of, string_of, lacks, lemma_count_concat,
    lemma_count_lacking, lemma_find_after, lemma_rfind_before,
};
use crate::number::{
    all_digits, decimal, is_digit, law_decimal_has_no_leading_zero, law_decimal_parse_roundtrip,
    parse_port_chars, parse_u16,
};

verus! {

/// Why a listener specification was refused.
#[derive(Debug)]
pub enum ConfigError {
    /// The argument does not have the expected shape; the program prints its usage line.
    Usage,
    /// The address text is not an IP address.
    InvalidIp(String),
    /// A single port that is not a 16-bit number (the whole port text).
    InvalidPort(String),
    /// The first port of a range is not a 16-bit number.
    InvalidStartPort(String),
    /// The last port of a range is not a 16-bit number.
    InvalidEndPort(String),
    /// A range starts or ends at port 0.
    ZeroInRange,
    /// A range whose start lies after its end.
    StartAfterEnd,
    /// The mapped port is not a 16-bit number.
    InvalidMappedPort(String),
    /// A mapped port was given for a range of more than one port.
    MappingOnRange,
}

/// `ConfigError` with its texts as character sequences.
pub enum ConfigErrorView {
    Usage,
    InvalidIp(Seq<char>),
    InvalidPort(Seq<char>),
    InvalidStartPort(Seq<char>),
    InvalidEndPort(Seq<char>),
    ZeroInRange,
    StartAfterEnd,
    InvalidMappedPort(Seq<char>),
    MappingOnRange,
}

impl View for ConfigError {
    type V = ConfigErrorView;

    open spec fn view(&self) -> ConfigErrorView {
        match self {
            ConfigError::Usage => ConfigErrorView::Usage,
            ConfigError::InvalidIp(s) => ConfigErrorView::InvalidIp(s@),
            ConfigError::InvalidPort(s) => ConfigErrorView::InvalidPort(s@),
            ConfigError::InvalidStartPort(s) => ConfigErrorView::InvalidStartPort(s@),
            ConfigError::InvalidEndPort(s) => ConfigErrorView::InvalidEndPort(s@),
            ConfigError::ZeroInRange => ConfigErrorView::ZeroInRange,
            ConfigError::StartAfterEnd => ConfigErrorView::StartAfterEnd,
            ConfigError::InvalidMappedPort(s) => ConfigErrorView::InvalidMappedPort(s@),
            ConfigError::MappingOnRange => ConfigErrorView::MappingOnRange,
        }
    }
}

/// The text of the error, as the program reports it (`program` is its name,
/// used by the usage line).
pub open spec fn error_text(e: ConfigErrorView, program: Seq<char>) -> Seq<char> {
    match e {
        ConfigErrorView::Usage => "Usage: "@ + program
            + " [ip-address]:start_port[-end_port][:mapped_port]..."@,
        ConfigErrorView::InvalidIp(s) => "Invalid IP address: "@ + s,
        ConfigErrorView::InvalidPort(s) => "Invalid port: "@ + s,
        ConfigErrorView::InvalidStartPort(s) => "Invalid start port: "@ + s,
        ConfigErrorView::InvalidEndPort(s) => "Invalid end port: "@ + s,
        ConfigErrorView::ZeroInRange => "Port ranges must be between 1 and 65535."@,
        ConfigErrorView::StartAfterEnd => "Start port must be less than or equal to end port."@,
        ConfigErrorView::InvalidMappedPort(s) => "Invalid mapped port: "@ + s,
        ConfigErrorView::MappingOnRange => "Port mapping can only be used for single ports, not ranges."@,
    }
}

fn prefixed(prefix: &str, s: &String) -> (r: String)
    ensures
        r@ == prefix@ + s@,
{
    let mut r = String::from_str(prefix);
    r.append(s.as_str());
    r
}

impl ConfigError {
    /// The text reported for this error; `program` is the program's name.
    pub fn describe(&self, program: &str) -> (r: String)
        ensures
            r@ == error_text(self@, program@),
    {
        match self {
            ConfigError::Usage => {
                let mut r = String::from_str("Usage: ");
                r.append(program);
                r.append(" [ip-address]:start_port[-end_port][:mapped_port]...");
                r
            },
            ConfigError::InvalidIp(s) => prefixed("Invalid IP address: ", s),
            ConfigError::InvalidPort(s) => prefixed("Invalid port: ", s),
            ConfigError::InvalidStartPort(s) => prefixed("Invalid start port: ", s),
            ConfigError::InvalidEndPort(s) => prefixed("Invalid end port: ", s),
            ConfigError::ZeroInRange => String::from_str("Port ranges must be between 1 and 65535."),
            ConfigError::StartAfterEnd => String::from_str(
                "Start port must be less than or equal to end port.",
            ),
            ConfigError::InvalidMappedPort(s) => prefixed("Invalid mapped port: ", s),
            ConfigError::MappingOnRange => String::from_str(
                "Port mapping can only be used for single ports, not ranges.",
            ),
        }
    }
}

/// The three texts of a listener specification.
#[derive(Debug)]
pub struct ListenSpec {
    /// The address, without surrounding brackets.
    pub ip_text: String,
    /// `start` or `start-end`.
    pub port_spec: String,
    /// The port to report in place of the real one, if given.
    pub mapped_port: Option<String>,
}

pub open spec fn opt_view(o: Option<String>) -> Option<Seq<char>> {
    match o {
        Some(s) => Some(s@),
        None => None,
    }
}

/// The address text with one pair of surrounding brackets removed.
pub open spec fn strip_brackets(s: Seq<char>) -> Seq<char> {
    if s.len() >= 2 && s[0] == '[' && s[s.len() - 1] == ']' {
        s.subrange(1, s.len() - 1)
    } else {
        s
    }
}

/// How an argument splits into address, port text and mapped-port text:
/// - `[addr]:ports` or `[addr]:ports:mapped` when it starts with `[`;
/// - `addr:ports:mapped` when it holds exactly two colons;
/// - otherwise `addr:ports`, split at the last colon.
/// `None` where the program prints its usage line.
pub open spec fn split_listen_arg_spec(a: Seq<char>) -> Option<
    (Seq<char>, Seq<char>, Option<Seq<char>>),
> {
    if a.len() > 0 && a[0] == '[' {
        let r = a.subrange(1, a.len() as int);
        match find_char(r, ']') {
            None => None,
            Some(k) => {
                let raw = r.subrange(0, k);
                let rest = r.subrange(k + 1, r.len() as int);
                if rest.len() == 0 || rest[0] != ':' {
                    None
                } else {
                    let sm = rest.subrange(1, rest.len() as int);
                    match find_char(sm, ':') {
                        None => Some((strip_brackets(raw), sm, None)),
                        Some(m) => {
                            let after = sm.subrange(m + 1, sm.len() as int);
                            if count_char(after, ':') > 0 {
                                None
                            } else {
                                Some((strip_brackets(raw), sm.subrange(0, m), Some(after)))
                            }
                        },
                    }
                }
            },
        }
    } else if count_char(a, ':') == 2 {
        let i = find_char(a, ':').unwrap();
        let j = rfind_char(a, ':').unwrap();
        Some(
            (
                strip_brackets(a.subrange(0, i)),
                a.subrange(i + 1, j),
                Some(a.subrange(j + 1, a.len() as int)),
            ),
        )
    } else {
        match rfind_char(a, ':') {
            None => None,
            Some(k) => Some((strip_brackets(a.subrange(0, k)), a.subrange(k + 1, a.len() as int), None)),
        }
    }
}

fn strip_brackets_exec(v: &Vec<char>) -> (r: Vec<char>)
    ensures
        r@ == strip_brackets(v@),
{
    let n = v.len();
    if n >= 2 && v[0] == '[' && v[n - 1] == ']' {
        slice_of(v, 1, n - 1)
    } else {
        slice_of(v, 0, n)
    }
}

fn listen_spec(raw: &Vec<char>, ports: &Vec<char>, mapped: Option<&Vec<char>>) -> (l: ListenSpec)
    ensures
        l.ip_text@ == strip_brackets(raw@),
        l.port_spec@ == ports@,
        opt_view(l.mapped_port) == (match mapped {
            Some(m) => Some(m@),
            None => None,
        }),
{
    let ip = strip_brackets_exec(raw);
    ListenSpec {
        ip_text: string_of(&ip),
        port_spec: string_of(ports),
        mapped_port: match mapped {
            Some(m) => Some(string_of(m)),
            None => None,
        },
    }
}

/// Splits a listener argument into its texts; `Err(Usage)` exactly where
/// the program prints its usage line.
pub fn split_listen_arg(arg: &str) -> (r: Result<ListenSpec, ConfigError>)
    ensures
        match r {
            Ok(l) => split_listen_arg_spec(arg@) == Some(
                (l.ip_text@, l.port_spec@, opt_view(l.mapped_port)),
            ),
            Err(e) => split_listen_arg_spec(arg@) is None && e@ == ConfigErrorView::Usage,
        },
{
    let a = chars_of(arg);
    let n = a.len();
    if n > 0 && a[0] == '[' {
        let r = slice_of(&a, 1, n);
        match find_in(&r, ']') {
            None => Err(ConfigError::Usage),
            Some(k) => {
                let raw = slice_of(&r, 0, k);
                let rest = slice_of(&r, k + 1, r.len());
                if rest.len() == 0 || rest[0] != ':' {
                    return Err(ConfigError::Usage);
                }
                let sm = slice_of(&rest, 1, rest.len());
                match find_in(&sm, ':') {
                    None => Ok(listen_spec(&raw, &sm, None)),
                    Some(m) => {
                        let after = slice_of(&sm, m + 1, sm.len());
                        if count_in(&after, ':') > 0 {
                            Err(ConfigError::Usage)
                        } else {
                            let ports = slice_of(&sm, 0, m);
                            Ok(listen_spec(&raw, &ports, Some(&after)))
                        }
                    },
                }
            },
        }
    } else if count_in(&a, ':') == 2 {
        proof {
            lemma_count_char(a@, ':');
            lemma_find_char(a@, ':');
            lemma_rfind_char(a@, ':');
            lemma_count_two(a@, ':');
        }
        let i = find_in(&a, ':').unwrap();
        let j = rfind_in(&a, ':').unwrap();
        let raw = slice_of(&a, 0, i);
        let ports = slice_of(&a, i + 1, j);
        let mapped = slice_of(&a, j + 1, n);
        Ok(listen_spec(&raw, &ports, Some(&mapped)))
    } else {
        match rfind_in(&a, ':') {
            None => Err(ConfigError::Usage),
            Some(k) => {
                let raw = slice_of(&a, 0, k);
                let ports = slice_of(&a, k + 1, n);
                Ok(listen_spec(&raw, &ports, None))
            },
        }
    }
}

/// The ports that one listener specification asks for.
#[derive(Clone, Copy, Debug, PartialEq, Eq)]
pub struct PortRange {
    /// First port listened on.
    pub start_port: u16,
    /// Last port listened on (inclusive).
    pub end_port: u16,
    /// The port reported to clients in place of the real one.
    pub mapped_port: Option<u16>,
}

/// What the port text (`start` or `start-end`) and the optional mapped-port
/// text give, checked in the program's order: the ports are read first
/// (a range must not touch port 0), then the range must not be reversed,
/// then the mapped port is read and is only allowed for a single port.
pub open spec fn port_range_spec(p: Seq<char>, mapped: Option<Seq<char>>) -> Result<
    (u16, u16, Option<u16>),
    ConfigErrorView,
> {
    let ends: Result<(u16, u16), ConfigErrorView> = if count_char(p, '-') == 0 {
        match parse_u16(p) {
            Some(x) => Ok((x, x)),
            None => Err(ConfigErrorView::InvalidPort(p)),
        }
    } else if count_char(p, '-') == 1 {
        let k = find_char(p, '-').unwrap();
        let a = p.subrange(0, k);
        let b = p.subrange(k + 1, p.len() as int);
        match parse_u16(a) {
            None => Err(ConfigErrorView::InvalidStartPort(a)),
            Some(s) => match parse_u16(b) {
                None => Err(ConfigErrorView::InvalidEndPort(b)),
                Some(e) => if s == 0 || e == 0 {
                    Err(ConfigErrorView::ZeroInRange)
                } else {
                    Ok((s, e))
                },
            },
        }
    } else {
        Err(ConfigErrorView::Usage)
    };
    match ends {
        Err(e) => Err(e),
        Ok((s, e)) => if s > e {
            Err(ConfigErrorView::StartAfterEnd)
        } else {
            match mapped {
                None => Ok((s, e, None)),
                Some(m) => match parse_u16(m) {
                    None => Err(ConfigErrorView::InvalidMappedPort(m)),
                    Some(mp) => if s != e {
                        Err(ConfigErrorView::MappingOnRange)
                    } else {
                        Ok((s, e, Some(mp)))
                    },
                },
            }
        },
    }
}

/// The view of an optional borrowed text.
pub open spec fn opt_str_view(o: Option<&str>) -> Option<Seq<char>> {
    match o {
        Some(s) => Some(s@),
        None => None,
    }
}

/// Reads the port text and the optional mapped-port text of a listener
/// specification into a `PortRange`, or the first error the program reports.
pub fn parse_port_range(port_spec: &str, mapped_port: Option<&str>) -> (r: Result<PortRange, ConfigError>)
    ensures
        match r {
            Ok(pr) => port_range_spec(port_spec@, opt_str_view(mapped_port)) == Ok::<
                (u16, u16, Option<u16>),
                ConfigErrorView,
            >((pr.start_port, pr.end_port, pr.mapped_port)),
            Err(e) => port_range_spec(port_spec@, opt_str_view(mapped_port)) == Err::<
                (u16, u16, Option<u16>),
                ConfigErrorView,
            >(e@),
        },
{
    let p = chars_of(port_spec);
    let dashes = count_in(&p, '-');
    let start: u16;
    let end: u16;
    if dashes == 0 {
        match parse_port_chars(&p) {
            Some(x) => {
                start = x;
                end = x;
            },
            None => {
                return Err(ConfigError::InvalidPort(string_of(&p)));
            },
        }
    } else if dashes == 1 {
        proof {
            lemma_count_char(p@, '-');
        }
        let k = find_in(&p, '-').unwrap();
        let a = slice_of(&p, 0, k);
        let b = slice_of(&p, k + 1, p.len());
        match parse_port_chars(&a) {
            None => {
                return Err(ConfigError::InvalidStartPort(string_of(&a)));
            },
            Some(s) => match parse_port_chars(&b) {
                None => {
                    return Err(ConfigError::InvalidEndPort(string_of(&b)));
                },
                Some(e) => {
                    if s == 0 || e == 0 {
                        return Err(ConfigError::ZeroInRange);
                    }
                    start = s;
                    end = e;
                },
            },
        }
    } else {
        return Err(ConfigError::Usage);
    }
    if start > end {
        return Err(ConfigError::StartAfterEnd);
    }
    match mapped_port {
        None => Ok(PortRange { start_port: start, end_port: end, mapped_port: None }),
        Some(m) => {
            let mv = chars_of(m);
            match parse_port_chars(&mv) {
                None => Err(ConfigError::InvalidMappedPort(string_of(&mv))),
                Some(mp) => {
                    if start != end {
                        Err(ConfigError::MappingOnRange)
                    } else {
                        Ok(PortRange { start_port: start, end_port: end, mapped_port: Some(mp) })
                    }
                },
            }
        },
    }
}

/// Every accepted specification is well-formed: its range is not reversed,
/// a range of several ports does not touch port 0, and a mapped port comes
/// only with a single port.
pub proof fn law_accepted_ranges_are_well_formed(p: Seq<char>, mapped: Option<Seq<char>>)
    ensures
        port_range_spec(p, mapped) matches Ok((s, e, m)) ==> {
            &&& s <= e
            &&& (s != e ==> s != 0)
            &&& (m is Some ==> s == e)
        },
{
}

proof fn lemma_decimal_lacks(n: nat, c: char)
    requires
        !is_digit(c),
    ensures
        lacks(decimal(n), c),
        count_char(decimal(n), c) == 0,
{
    law_decimal_has_no_leading_zero(n);
    assert forall|i: int| 0 <= i < decimal(n).len() implies decimal(n)[i] != c by {
        assert(is_digit(decimal(n)[i]));
    }
    lemma_count_lacking(decimal(n), c);
}

/// The port text `start-end` written in decimal.
pub open spec fn range_text(s: u16, e: u16) -> Seq<char> {
    decimal(s as nat) + seq!['-'] + decimal(e as nat)
}

proof fn lemma_range_text(s: u16, e: u16)
    ensures
        count_char(range_text(s, e), '-') == 1,
        find_char(range_text(s, e), '-') == Some(decimal(s as nat).len() as int),
        range_text(s, e).subrange(0, decimal(s as nat).len() as int) == decimal(s as nat),
        range_text(s, e).subrange(decimal(s as nat).len() as int + 1, range_text(s, e).len() as int)
            == decimal(e as nat),
{
    let a = decimal(s as nat);
    let b = decimal(e as nat);
    let t = range_text(s, e);
    lemma_decimal_lacks(s as nat, '-');
    lemma_decimal_lacks(e as nat, '-');
    lemma_count_concat(a, seq!['-'], '-');
    lemma_count_concat(a + seq!['-'], b, '-');
    assert(count_char(seq!['-'], '-') == 1) by {
        assert(seq!['-'].drop_last() =~= Seq::<char>::empty());
        assert(count_char(Seq::<char>::empty(), '-') == 0);
        assert(seq!['-'].last() == '-');
    }
    assert(t =~= a + (seq!['-'] + b));
    lemma_find_after(a, seq!['-'] + b, '-');
    assert(t.subrange(0, a.len() as int) =~= a);
    assert(t.subrange(a.len() as int + 1, t.len() as int) =~= b);
}

/// A single port written in decimal listens on that port alone, with or
/// without a mapped port written in decimal.
pub proof fn law_single_port(n: u16, m: u16)
    ensures
        port_range_spec(decimal(n as nat), None) == Ok::<(u16, u16, Option<u16>), ConfigErrorView>(
            (n, n, None),
        ),
        port_range_spec(decimal(n as nat), Some(decimal(m as nat))) == Ok::<
            (u16, u16, Option<u16>),
            ConfigErrorView,
        >((n, n, Some(m))),
{
    lemma_decimal_lacks(n as nat, '-');
    law_decimal_parse_roundtrip(n);
    law_decimal_parse_roundtrip(m);
}

/// `start-end` with `1 <= start <= end` listens on exactly those ports; a
/// mapped port is refused for more than one port.
pub proof fn law_port_range(s: u16, e: u16, m: u16)
    requires
        1 <= s <= e,
    ensures
        port_range_spec(range_text(s, e), None) == Ok::<(u16, u16, Option<u16>), ConfigErrorView>(
            (s, e, None),
        ),
        s < e ==> port_range_spec(range_text(s, e), Some(decimal(m as nat))) == Err::<
            (u16, u16, Option<u16>),
            ConfigErrorView,
        >(ConfigErrorView::MappingOnRange),
{
    lemma_range_text(s, e);
    law_decimal_parse_roundtrip(s);
    law_decimal_parse_roundtrip(e);
    law_decimal_parse_roundtrip(m);
}

/// A reversed range is refused, and so is a range that starts or ends at 0.
pub proof fn law_bad_ranges(s: u16, e: u16)
    ensures
        1 <= e < s ==> port_range_spec(range_text(s, e), None) == Err::<
            (u16, u16, Option<u16>),
            ConfigErrorView,
        >(ConfigErrorView::StartAfterEnd),
        s == 0 || e == 0 ==> port_range_spec(range_text(s, e), None) == Err::<
            (u16, u16, Option<u16>),
            ConfigErrorView,
        >(ConfigErrorView::ZeroInRange),
{
    lemma_range_text(s, e);
    law_decimal_parse_roundtrip(s);
    law_decimal_parse_roundtrip(e);
}

proof fn lemma_count_one(c: char)
    ensures
        count_char(seq![c], c) == 1,
{
    assert(seq![c].drop_last() =~= Seq::<char>::empty());
    assert(count_char(Seq::<char>::empty(), c) == 0);
    assert(seq![c].last() == c);
}

/// `address:ports`, with no colon in either part and an address that does
/// not open with `[`, splits into exactly these two parts.
pub proof fn law_split_address_and_ports(ip: Seq<char>, ports: Seq<char>)
    requires
        lacks(ip, ':'),
        lacks(ports, ':'),
        ip.len() == 0 || ip[0] != '[',
    ensures
        split_listen_arg_spec(ip + seq![':'] + ports) == Some((ip, ports, None::<Seq<char>>)),
{
    let a = ip + seq![':'] + ports;
    let k = ip.len() as int;
    assert(a[k] == ':');
    lemma_count_lacking(ip, ':');
    lemma_count_lacking(ports, ':');
    lemma_count_one(':');
    lemma_count_concat(ip, seq![':'], ':');
    lemma_count_concat(ip + seq![':'], ports, ':');
    lemma_rfind_before(ip + seq![':'], ports, ':');
    assert(a.subrange(0, k) =~= ip);
    assert(a.subrange(k + 1, a.len() as int) =~= ports);
}

/// `address:ports:mapped`, with no colon in any part and an address that
/// does not open with `[`, splits into exactly these three parts.
pub proof fn law_split_with_mapped_port(ip: Seq<char>, ports: Seq<char>, m: Seq<char>)
    requires
        lacks(ip, ':'),
        lacks(ports, ':'),
        lacks(m, ':'),
        ip.len() == 0 || ip[0] != '[',
    ensures
        split_listen_arg_spec(ip + seq![':'] + ports + seq![':'] + m) == Some((ip, ports, Some(m))),
{
    let a = ip + seq![':'] + ports + seq![':'] + m;
    let i = ip.len() as int;
    let j = ip.len() as int + 1 + ports.len();
    assert(a[i] == ':');
    lemma_count_lacking(ip, ':');
    lemma_count_lacking(ports, ':');
    lemma_count_lacking(m, ':');
    lemma_count_one(':');
    lemma_count_concat(ip, seq![':'], ':');
    lemma_count_concat(ip + seq![':'], ports, ':');
    lemma_count_concat(ip + seq![':'] + ports, seq![':'], ':');
    lemma_count_concat(ip + seq![':'] + ports + seq![':'], m, ':');
    assert(a =~= ip + (seq![':'] + ports + seq![':'] + m));
    lemma_find_after(ip, seq![':'] + ports + seq![':'] + m, ':');
    lemma_rfind_before(ip + seq![':'] + ports + seq![':'], m, ':');
    assert(a.subrange(0, i) =~= ip);
    assert(a.subrange(i + 1, j) =~= ports);
    assert(a.subrange(j + 1, a.len() as int) =~= m);
}

/// `[address]:ports` and `[address]:ports:mapped`, with no `]` in the
/// address and no colon in the other parts, split into exactly these parts.
pub proof fn law_split_bracketed_address(ip: Seq<char>, ports: Seq<char>, m: Seq<char>)
    requires
        lacks(ip, ']'),
        lacks(ports, ':'),
        lacks(m, ':'),
    ensures
        split_listen_arg_spec(seq!['['] + ip + seq![']', ':'] + ports) == Some(
            (ip, ports, None::<Seq<char>>),
        ),
        split_listen_arg_spec(seq!['['] + ip + seq![']', ':'] + ports + seq![':'] + m) == Some(
            (ip, ports, Some(m)),
        ),
{
    let k = ip.len() as int;
    assert(strip_brackets(ip) == ip) by {
        if ip.len() >= 2 {
            assert(ip[ip.len() - 1] != ']');
        }
    }
    // without a mapped port
    let a = seq!['['] + ip + seq![']', ':'] + ports;
    let r = a.subrange(1, a.len() as int);
    assert(r =~= ip + (seq![']', ':'] + ports));
    lemma_find_after(ip, seq![']', ':'] + ports, ']');
    let rest = r.subrange(k + 1, r.len() as int);
    assert(rest =~= seq![':'] + ports);
    let sm = rest.subrange(1, rest.len() as int);
    assert(sm =~= ports);
    lemma_find_char(ports, ':');
    assert(r.subrange(0, k) =~= ip);
    // with a mapped port
    let a2 = seq!['['] + ip + seq![']', ':'] + ports + seq![':'] + m;
    let r2 = a2.subrange(1, a2.len() as int);
    assert(r2 =~= ip + (seq![']', ':'] + ports + seq![':'] + m));
    lemma_find_after(ip, seq![']', ':'] + ports + seq![':'] + m, ']');
    let rest2 = r2.subrange(k + 1, r2.len() as int);
    assert(rest2 =~= seq![':'] + ports + seq![':'] + m);
    let sm2 = rest2.subrange(1, rest2.len() as int);
    assert(sm2 =~= ports + (seq![':'] + m));
    lemma_find_after(ports, seq![':'] + m, ':');
    let after = sm2.subrange(ports.len() as int + 1, sm2.len() as int);
    assert(after =~= m);
    lemma_count_lacking(m, ':');
    assert(sm2.subrange(0, ports.len() as int) =~= ports);
    assert(r2.subrange(0, k) =~= ip);
}

/// An argument without a colon that does not open with `[` is refused.
pub proof fn law_split_needs_a_colon(a: Seq<char>)
    requires
        lacks(a, ':'),
        a.len() == 0 || a[0] != '[',
    ensures
        split_listen_arg_spec(a) is None,
{
    lemma_count_lacking(a, ':');
    lemma_rfind_char(a, ':');
}

} // verus!
