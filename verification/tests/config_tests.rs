use whatports::config::{parse_port_range, split_listen_arg, ConfigError, ListenSpec, PortRange};

fn split(arg: &str) -> ListenSpec {
    match split_listen_arg(arg) {
        Ok(l) => l,
        Err(e) => panic!("{} refused: {:?}", arg, e),
    }
}

fn is_usage(arg: &str) -> bool {
    matches!(split_listen_arg(arg), Err(ConfigError::Usage))
}

#[test]
fn splits_plain_ipv4_address_and_port() {
    let l = split("0.0.0.0:80");
    assert_eq!(l.ip_text, "0.0.0.0");
    assert_eq!(l.port_spec, "80");
    assert!(l.mapped_port.is_none());
}

#[test]
fn splits_bracketed_ipv6_range() {
    let l = split("[::1]:8080-8090");
    assert_eq!(l.ip_text, "::1");
    assert_eq!(l.port_spec, "8080-8090");
    assert!(l.mapped_port.is_none());
}

#[test]
fn splits_bracketed_address_with_mapped_port() {
    let l = split("[::]:80:8080");
    assert_eq!(l.ip_text, "::");
    assert_eq!(l.port_spec, "80");
    assert_eq!(l.mapped_port.as_deref(), Some("8080"));
}

#[test]
fn splits_two_colons_into_three_parts() {
    let l = split("1.2.3.4:80:8080");
    assert_eq!(l.ip_text, "1.2.3.4");
    assert_eq!(l.port_spec, "80");
    assert_eq!(l.mapped_port.as_deref(), Some("8080"));
}

#[test]
fn splits_unbracketed_ipv6_at_last_colon() {
    let l = split("fe80::1:2:443");
    assert_eq!(l.ip_text, "fe80::1:2");
    assert_eq!(l.port_spec, "443");
    assert!(l.mapped_port.is_none());
}

#[test]
fn keeps_empty_address_text() {
    let l = split(":80");
    assert_eq!(l.ip_text, "");
    assert_eq!(l.port_spec, "80");
}

#[test]
fn strips_brackets_in_three_part_form() {
    let l = split("[1.2.3.4]:80");
    assert_eq!(l.ip_text, "1.2.3.4");
}

#[test]
fn refuses_malformed_arguments() {
    assert!(is_usage("[::1]"));
    assert!(is_usage("[::1:80"));
    assert!(is_usage("[::1]80"));
    assert!(is_usage("[::1]:80:1:2"));
    assert!(is_usage("[[::1]]:80"));
    assert!(is_usage("noport"));
    assert!(is_usage(""));
}

fn range(spec: &str, mapped: Option<&str>) -> Result<PortRange, ConfigError> {
    parse_port_range(spec, mapped)
}

#[test]
fn reads_single_ports_and_ranges() {
    assert_eq!(range("80", None).unwrap(), PortRange { start_port: 80, end_port: 80, mapped_port: None });
    assert_eq!(range("0", None).unwrap(), PortRange { start_port: 0, end_port: 0, mapped_port: None });
    assert_eq!(range("+443", None).unwrap(), PortRange { start_port: 443, end_port: 443, mapped_port: None });
    assert_eq!(range("1-65535", None).unwrap(), PortRange { start_port: 1, end_port: 65535, mapped_port: None });
    assert_eq!(range("80", Some("8080")).unwrap(), PortRange { start_port: 80, end_port: 80, mapped_port: Some(8080) });
    assert_eq!(range("7-7", Some("0")).unwrap(), PortRange { start_port: 7, end_port: 7, mapped_port: Some(0) });
}

#[test]
fn reports_each_port_error() {
    assert!(matches!(range("abc", None), Err(ConfigError::InvalidPort(s)) if s == "abc"));
    assert!(matches!(range("", None), Err(ConfigError::InvalidPort(s)) if s == ""));
    assert!(matches!(range("65536", None), Err(ConfigError::InvalidPort(s)) if s == "65536"));
    assert!(matches!(range("a-10", None), Err(ConfigError::InvalidStartPort(s)) if s == "a"));
    assert!(matches!(range("10-", None), Err(ConfigError::InvalidEndPort(s)) if s == ""));
    assert!(matches!(range("0-10", None), Err(ConfigError::ZeroInRange)));
    assert!(matches!(range("10-0", None), Err(ConfigError::ZeroInRange)));
    assert!(matches!(range("90-80", None), Err(ConfigError::StartAfterEnd)));
    assert!(matches!(range("1-2-3", None), Err(ConfigError::Usage)));
    assert!(matches!(range("80", Some("x")), Err(ConfigError::InvalidMappedPort(s)) if s == "x"));
    assert!(matches!(range("80-81", Some("8080")), Err(ConfigError::MappingOnRange)));
}

#[test]
fn checks_in_the_programs_order() {
    // a reversed range is reported before a bad mapped port
    assert!(matches!(range("9-8", Some("x")), Err(ConfigError::StartAfterEnd)));
    // a bad mapped port is reported before a mapping on a range
    assert!(matches!(range("8-9", Some("x")), Err(ConfigError::InvalidMappedPort(_))));
    // the start port is read before the end port
    assert!(matches!(range("a-b", None), Err(ConfigError::InvalidStartPort(s)) if s == "a"));
}

#[test]
fn accepted_ranges_are_well_formed() {
    for spec in ["0", "5", "1-9", "9-1", "3-3", "0-4", "x", "1-2-3"] {
        for mapped in [None, Some("7")] {
            if let Ok(r) = range(spec, mapped) {
                assert!(r.start_port <= r.end_port);
                assert!(r.start_port == r.end_port || r.start_port != 0);
                assert!(r.mapped_port.is_none() || r.start_port == r.end_port);
            }
        }
    }
}

#[test]
fn describes_errors() {
    assert_eq!(ConfigError::InvalidIp("x".to_string()).describe("prog"), "Invalid IP address: x");
    assert_eq!(ConfigError::InvalidPort("p".to_string()).describe("prog"), "Invalid port: p");
    assert_eq!(ConfigError::InvalidStartPort("a".to_string()).describe("prog"), "Invalid start port: a");
    assert_eq!(ConfigError::InvalidEndPort("b".to_string()).describe("prog"), "Invalid end port: b");
    assert_eq!(ConfigError::ZeroInRange.describe("prog"), "Port ranges must be between 1 and 65535.");
    assert_eq!(
        ConfigError::StartAfterEnd.describe("prog"),
        "Start port must be less than or equal to end port."
    );
    assert_eq!(ConfigError::InvalidMappedPort("m".to_string()).describe("prog"), "Invalid mapped port: m");
    assert_eq!(
        ConfigError::MappingOnRange.describe("prog"),
        "Port mapping can only be used for single ports, not ranges."
    );
    assert_eq!(
        ConfigError::Usage.describe("whatports"),
        "Usage: whatports [ip-address]:start_port[-end_port][:mapped_port]..."
    );
}
