//! What a client is told: who it is, which port it reached, over which
//! protocol, and the texts that carry this back to it.

use vstd::prelude::*;
use crate::number::{decimal, decimal_string};
use crate::portmap::{PortMap, SockKey};

verus! {

/// What the server reports about one connection or datagram.
#[derive(Clone, Debug)]
pub struct ClientInfo {
    /// The client's IP address, or `unknown`.
    pub ip: String,
    /// The client's source port, or `unknown`.
    pub srcport: String,
    /// The port the client reached (the mapped one where a mapping exists), or `unknown`.
    pub port: String,
    /// `TCP` or `UDP`.
    pub protocol: String,
}

/// The transport a client used.
#[derive(Clone, Copy, Debug, PartialEq, Eq)]
pub enum Protocol {
    Tcp,
    Udp,
}

pub open spec fn protocol_name(p: Protocol) -> Seq<char> {
    match p {
        Protocol::Tcp => "TCP"@,
        Protocol::Udp => "UDP"@,
    }
}

/// The port reported for a socket whose local address is `local` (`None`
/// when the address could not be read): its mapped port if the table has
/// one, else its own port.
pub open spec fn reported_port_text(map: Map<SockKey, u16>, local: Option<SockKey>) -> Seq<char> {
    match local {
        None => "unknown"@,
        Some(k) => if map.contains_key(k) {
            decimal(map[k] as nat)
        } else {
            decimal(k.port as nat)
        },
    }
}

/// The port reported for a socket whose local address is `local`.
pub fn reported_port(map: &PortMap, local: Option<SockKey>) -> (r: String)
    ensures
        r@ == reported_port_text(map@, local),
        forall|k: SockKey| local == Some(k) && map@.contains_key(k) ==> r@ == decimal(map@[k] as nat),
        forall|k: SockKey| local == Some(k) && !map@.contains_key(k) ==> r@ == decimal(k.port as nat),
        local is None ==> r@ == "unknown"@,
{
    match local {
        None => String::from_str("unknown"),
        Some(k) => match map.get(&k) {
            Some(p) => decimal_string(p),
            None => decimal_string(k.port),
        },
    }
}

/// Describes a client: `peer_ip` is the text of its address and `peer_port`
/// its port, each `None` when the peer address could not be read; `local`
/// is the address of the socket it reached.
pub fn describe_client(
    protocol: Protocol,
    peer_ip: Option<String>,
    peer_port: Option<u16>,
    local: Option<SockKey>,
    map: &PortMap,
) -> (c: ClientInfo)
    ensures
        c.ip@ == (match peer_ip {
            Some(s) => s@,
            None => "unknown"@,
        }),
        c.srcport@ == (match peer_port {
            Some(p) => decimal(p as nat),
            None => "unknown"@,
        }),
        c.port@ == reported_port_text(map@, local),
        forall|k: SockKey| local == Some(k) && map@.contains_key(k) ==> c.port@ == decimal(map@[k] as nat),
        forall|k: SockKey| local == Some(k) && !map@.contains_key(k) ==> c.port@ == decimal(k.port as nat),
        c.protocol@ == protocol_name(protocol),
{
    let ip = match peer_ip {
        Some(s) => s,
        None => String::from_str("unknown"),
    };
    let srcport = match peer_port {
        Some(p) => decimal_string(p),
        None => String::from_str("unknown"),
    };
    let protocol = match protocol {
        Protocol::Tcp => String::from_str("TCP"),
        Protocol::Udp => String::from_str("UDP"),
    };
    ClientInfo { ip, srcport, port: reported_port(map, local), protocol }
}

/// A socket with an entry in the table, of either IP version, reports its
/// entry; a socket without one reports its own port; an unreadable local
/// address reports `unknown`.
pub proof fn law_reported_port(map: Map<SockKey, u16>, k: SockKey)
    ensures
        map.contains_key(k) ==> reported_port_text(map, Some(k)) == decimal(map[k] as nat),
        !map.contains_key(k) ==> reported_port_text(map, Some(k)) == decimal(k.port as nat),
        reported_port_text(map, None) == "unknown"@,
{
}

/// `<protocol> Port <port> is open for IP <ip> (source port <srcport>)`
pub open spec fn open_line(c: ClientInfo) -> Seq<char> {
    c.protocol@ + " Port "@ + c.port@ + " is open for IP "@ + c.ip@ + " (source port "@ + c.srcport@
        + ")"@
}

fn append_open_line(out: &mut String, c: &ClientInfo)
    ensures
        final(out)@ == old(out)@ + open_line(*c),
{
    out.append(c.protocol.as_str());
    out.append(" Port ");
    out.append(c.port.as_str());
    out.append(" is open for IP ");
    out.append(c.ip.as_str());
    out.append(" (source port ");
    out.append(c.srcport.as_str());
    out.append(")");
    assert(final(out)@ =~= old(out)@ + open_line(*c));
}

/// The reports read, word for word, `<protocol> Port <port> is open for IP
/// <ip> (source port <srcport>)`: as a banner between a blank line and two
/// line ends, as text with one line end, and as a JSON object of four
/// string fields.
pub proof fn law_report_formats(c: ClientInfo)
    ensures
        "\r\n"@ + open_line(c) + "\r\n\r\n"@ == "\r\n"@ + c.protocol@ + " Port "@ + c.port@
            + " is open for IP "@ + c.ip@ + " (source port "@ + c.srcport@ + ")\r\n\r\n"@,
        open_line(c) + "\r\n"@ == c.protocol@ + " Port "@ + c.port@ + " is open for IP "@ + c.ip@
            + " (source port "@ + c.srcport@ + ")\r\n"@,
        json_text(c) == "{\"protocol\":\""@ + c.protocol@ + "\",\"port\":\""@ + c.port@
            + "\",\"ip\":\""@ + c.ip@ + "\",\"srcport\":\""@ + c.srcport@ + "\"}"@,
{
    reveal_strlit(")");
    reveal_strlit("\r\n");
    reveal_strlit("\r\n\r\n");
    reveal_strlit(")\r\n\r\n");
    reveal_strlit(")\r\n");
    let pre = c.protocol@ + " Port "@ + c.port@ + " is open for IP "@ + c.ip@ + " (source port "@ + c.srcport@;
    assert(pre + ")"@ + "\r\n\r\n"@ =~= pre + ")\r\n\r\n"@);
    assert(pre + ")"@ + "\r\n"@ =~= pre + ")\r\n"@);
    assert("\r\n"@ + (pre + ")"@) + "\r\n\r\n"@ =~= "\r\n"@ + pre + ")\r\n\r\n"@);
}

/// The banner written to a raw TCP connection or sent back to a UDP datagram.
pub fn socket_banner(c: &ClientInfo) -> (r: String)
    ensures
        r@ == "\r\n"@ + open_line(*c) + "\r\n\r\n"@,
{
    let mut r = String::from_str("\r\n");
    append_open_line(&mut r, c);
    r.append("\r\n\r\n");
    r
}

/// The plain-text report served over HTTP.
pub fn text_report(c: &ClientInfo) -> (r: String)
    ensures
        r@ == open_line(*c) + "\r\n"@,
{
    let mut r = String::new();
    append_open_line(&mut r, c);
    assert(r@ =~= open_line(*c));
    r.append("\r\n");
    r
}

/// `{"protocol":"…","port":"…","ip":"…","srcport":"…"}` with the fields
/// inserted as they are.
pub open spec fn json_text(c: ClientInfo) -> Seq<char> {
    "{\"protocol\":\""@ + c.protocol@ + "\",\"port\":\""@ + c.port@ + "\",\"ip\":\""@ + c.ip@
        + "\",\"srcport\":\""@ + c.srcport@ + "\"}"@
}

/// The JSON report served over HTTP.
pub fn json_report(c: &ClientInfo) -> (r: String)
    ensures
        r@ == json_text(*c),
{
    let mut r = String::from_str("{\"protocol\":\"");
    r.append(c.protocol.as_str());
    r.append("\",\"port\":\"");
    r.append(c.port.as_str());
    r.append("\",\"ip\":\"");
    r.append(c.ip.as_str());
    r.append("\",\"srcport\":\"");
    r.append(c.srcport.as_str());
    r.append("\"}");
    r
}

} // verus!
