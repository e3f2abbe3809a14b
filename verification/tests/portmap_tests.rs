use whatports::portmap::{Config, IpKey, PortMap, SockKey};

fn key(ip: IpKey, port: u16) -> SockKey {
    SockKey { ip, port, flowinfo: 0, scope_id: 0 }
}

const LOCAL: IpKey = IpKey::V4(0x7f00_0001);

fn config(start: u16, end: u16, mapped: Option<u16>, ip: IpKey) -> Config {
    Config { start_port: start, end_port: end, mapped_port: mapped, listener_ip: ip }
}

#[test]
fn empty_table_has_no_entries() {
    let m = PortMap::new();
    assert_eq!(m.get(&key(LOCAL, 80)), None);
}

#[test]
fn insert_if_absent_keeps_the_first_value() {
    let mut m = PortMap::new();
    assert!(m.insert_if_absent(key(LOCAL, 80), 8080));
    assert!(!m.insert_if_absent(key(LOCAL, 80), 9090));
    assert_eq!(m.get(&key(LOCAL, 80)), Some(8080));
    assert_eq!(m.get(&key(LOCAL, 81)), None);
}

#[test]
fn only_mapped_configurations_add_entries() {
    let cs = vec![config(80, 80, Some(8080), LOCAL), config(90, 95, None, LOCAL)];
    let mut m = PortMap::new();
    let added = m.extend_with(&cs);
    assert_eq!(added, vec![key(LOCAL, 80)]);
    assert_eq!(m.get(&key(LOCAL, 80)), Some(8080));
    assert_eq!(m.get(&key(LOCAL, 90)), None);
}

#[test]
fn first_configuration_wins() {
    let cs = vec![config(80, 80, Some(1000), LOCAL), config(80, 80, Some(2000), LOCAL)];
    let mut m = PortMap::new();
    let added = m.extend_with(&cs);
    assert_eq!(added.len(), 1);
    assert_eq!(m.get(&key(LOCAL, 80)), Some(1000));
}

#[test]
fn addresses_are_kept_apart() {
    let v6 = IpKey::V6(1);
    let cs = vec![config(80, 80, Some(1000), LOCAL), config(80, 80, Some(2000), v6)];
    let mut m = PortMap::new();
    m.extend_with(&cs);
    assert_eq!(m.get(&key(LOCAL, 80)), Some(1000));
    assert_eq!(m.get(&key(v6, 80)), Some(2000));
    assert_eq!(m.get(&SockKey { ip: v6, port: 80, flowinfo: 0, scope_id: 3 }), None);
}

#[test]
fn second_pass_changes_nothing() {
    let cs = vec![config(80, 80, Some(1000), LOCAL), config(443, 443, Some(8443), LOCAL)];
    let mut m = PortMap::new();
    let first = m.extend_with(&cs);
    assert_eq!(first.len(), 2);
    let second = m.extend_with(&cs);
    assert!(second.is_empty());
    assert_eq!(m.get(&key(LOCAL, 80)), Some(1000));
    assert_eq!(m.get(&key(LOCAL, 443)), Some(8443));
}

#[test]
fn mapped_range_covers_every_port_up_to_the_top() {
    let cs = vec![config(65534, 65535, Some(1), LOCAL), config(5, 4, Some(2), LOCAL)];
    let mut m = PortMap::new();
    let added = m.extend_with(&cs);
    assert_eq!(added, vec![key(LOCAL, 65534), key(LOCAL, 65535)]);
    assert_eq!(m.get(&key(LOCAL, 5)), None);
}
