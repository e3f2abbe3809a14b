use whatports::portmap::{IpKey, PortMap, SockKey};
use whatports::report::{describe_client, json_report, reported_port, socket_banner, text_report, ClientInfo, Protocol};

fn key(port: u16) -> SockKey {
    SockKey { ip: IpKey::V4(0), port, flowinfo: 0, scope_id: 0 }
}

fn client() -> ClientInfo {
    ClientInfo {
        ip: "203.0.113.5".to_string(),
        srcport: "50000".to_string(),
        port: "8080".to_string(),
        protocol: "TCP".to_string(),
    }
}

#[test]
fn reports_mapped_or_own_port() {
    let mut m = PortMap::new();
    m.insert_if_absent(key(80), 8080);
    assert_eq!(reported_port(&m, Some(key(80))), "8080");
    assert_eq!(reported_port(&m, Some(key(81))), "81");
    assert_eq!(reported_port(&m, None), "unknown");
}

#[test]
fn describes_clients() {
    let m = PortMap::new();
    let c = describe_client(Protocol::Udp, Some("::1".to_string()), Some(5353), Some(key(53)), &m);
    assert_eq!(c.ip, "::1");
    assert_eq!(c.srcport, "5353");
    assert_eq!(c.port, "53");
    assert_eq!(c.protocol, "UDP");
    let d = describe_client(Protocol::Tcp, None, None, None, &m);
    assert_eq!(d.ip, "unknown");
    assert_eq!(d.srcport, "unknown");
    assert_eq!(d.port, "unknown");
    assert_eq!(d.protocol, "TCP");
}

#[test]
fn formats_the_banner() {
    assert_eq!(
        socket_banner(&client()),
        "\r\nTCP Port 8080 is open for IP 203.0.113.5 (source port 50000)\r\n\r\n"
    );
}

#[test]
fn formats_the_text_report() {
    assert_eq!(text_report(&client()), "TCP Port 8080 is open for IP 203.0.113.5 (source port 50000)\r\n");
}

#[test]
fn formats_the_json_report() {
    assert_eq!(
        json_report(&client()),
        "{\"protocol\":\"TCP\",\"port\":\"8080\",\"ip\":\"203.0.113.5\",\"srcport\":\"50000\"}"
    );
}
