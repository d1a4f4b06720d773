use joker::addr::{parse_ip, parse_port, IpAddress, SocketAddress};
use joker::errors::JokerError;
use joker::registry::RegistryState;

fn addr(a: u8, b: u8, c: u8, d: u8, port: u16) -> SocketAddress {
    SocketAddress { ip: IpAddress::V4(a, b, c, d), port }
}

#[test]
fn parse_ip_accepts_dotted_quads() {
    assert_eq!(parse_ip(b"127.0.0.1"), Some(IpAddress::V4(127, 0, 0, 1)));
    assert_eq!(parse_ip(b"0.0.0.0"), Some(IpAddress::V4(0, 0, 0, 0)));
    assert_eq!(
        parse_ip(b"255.255.255.255"),
        Some(IpAddress::V4(255, 255, 255, 255))
    );
    assert_eq!(parse_ip(b"10.20.30.40"), Some(IpAddress::V4(10, 20, 30, 40)));
}

#[test]
fn parse_ip_rejects_bad_text() {
    assert_eq!(parse_ip(b""), None);
    assert_eq!(parse_ip(b"1.2.3"), None);
    assert_eq!(parse_ip(b"1.2.3.4.5"), None);
    assert_eq!(parse_ip(b"256.0.0.1"), None);
    assert_eq!(parse_ip(b"01.0.0.1"), None);
    assert_eq!(parse_ip(b"1.2.3."), None);
    assert_eq!(parse_ip(b".1.2.3"), None);
    assert_eq!(parse_ip(b"a.b.c.d"), None);
    assert_eq!(parse_ip(b"1..2.3"), None);
    assert_eq!(parse_ip(b"1234.0.0.1"), None);
}

#[test]
fn parse_ip_accepts_ipv6() {
    assert_eq!(
        parse_ip(b"1:2:3:4:5:6:7:8"),
        Some(IpAddress::V6(1, 2, 3, 4, 5, 6, 7, 8))
    );
    assert_eq!(parse_ip(b"::"), Some(IpAddress::V6(0, 0, 0, 0, 0, 0, 0, 0)));
    assert_eq!(parse_ip(b"::1"), Some(IpAddress::V6(0, 0, 0, 0, 0, 0, 0, 1)));
    assert_eq!(parse_ip(b"1::"), Some(IpAddress::V6(1, 0, 0, 0, 0, 0, 0, 0)));
    assert_eq!(
        parse_ip(b"2001:db8::8a2e:370:7334"),
        Some(IpAddress::V6(0x2001, 0xdb8, 0, 0, 0, 0x8a2e, 0x370, 0x7334))
    );
    assert_eq!(
        parse_ip(b"fe80::1:0:0:2"),
        Some(IpAddress::V6(0xfe80, 0, 0, 0, 1, 0, 0, 2))
    );
    assert_eq!(
        parse_ip(b"::1:2:3:4:5:6:7"),
        Some(IpAddress::V6(0, 1, 2, 3, 4, 5, 6, 7))
    );
    assert_eq!(
        parse_ip(b"1:2:3:4:5:6:7::"),
        Some(IpAddress::V6(1, 2, 3, 4, 5, 6, 7, 0))
    );
    assert_eq!(
        parse_ip(b"ABCD:ef01:0:0:0:0:0:1"),
        Some(IpAddress::V6(0xabcd, 0xef01, 0, 0, 0, 0, 0, 1))
    );
}

#[test]
fn parse_ip_accepts_embedded_dotted_quad_tail() {
    assert_eq!(
        parse_ip(b"::ffff:192.0.2.1"),
        Some(IpAddress::V6(0, 0, 0, 0, 0, 0xffff, 0xc000, 0x0201))
    );
    assert_eq!(
        parse_ip(b"::1.2.3.4"),
        Some(IpAddress::V6(0, 0, 0, 0, 0, 0, 0x0102, 0x0304))
    );
    assert_eq!(
        parse_ip(b"1:2:3:4:5:6:1.2.3.4"),
        Some(IpAddress::V6(1, 2, 3, 4, 5, 6, 0x0102, 0x0304))
    );
    assert_eq!(parse_ip(b"1:2:3:4:5:6:7:1.2.3.4"), None);
    assert_eq!(parse_ip(b"1.2.3.4::"), None);
    assert_eq!(parse_ip(b"::1.2.3.4:5"), None);
    assert_eq!(parse_ip(b"::256.0.0.1"), None);
}

#[test]
fn parse_ip_rejects_bad_ipv6() {
    assert_eq!(parse_ip(b":"), None);
    assert_eq!(parse_ip(b":::"), None);
    assert_eq!(parse_ip(b"1:2:3:4:5:6:7"), None);
    assert_eq!(parse_ip(b"1:2:3:4:5:6:7:8:9"), None);
    assert_eq!(parse_ip(b"::1:2:3:4:5:6:7:8"), None);
    assert_eq!(parse_ip(b"1::2::3"), None);
    assert_eq!(parse_ip(b"1:::2"), None);
    assert_eq!(parse_ip(b"12345::"), None);
    assert_eq!(parse_ip(b"g::"), None);
    assert_eq!(parse_ip(b"1:2"), None);
    assert_eq!(parse_ip(b"::g"), None);
}

#[test]
fn parse_port_reads_decimal_text() {
    assert_eq!(parse_port(b"0"), Some(0));
    assert_eq!(parse_port(b"9000"), Some(9000));
    assert_eq!(parse_port(b"65535"), Some(65535));
    assert_eq!(parse_port(b"0080"), Some(80));
    assert_eq!(parse_port(b""), None);
    assert_eq!(parse_port(b"65536"), None);
    assert_eq!(parse_port(b"12a"), None);
    assert_eq!(parse_port(b"-1"), None);
    assert_eq!(parse_port(b"999999999999999999999"), None);
    assert_eq!(parse_port(b"+80"), Some(80));
    assert_eq!(parse_port(b"+0"), Some(0));
    assert_eq!(parse_port(b"+"), None);
    assert_eq!(parse_port(b"++80"), None);
    assert_eq!(parse_port(b"8+0"), None);
}

#[test]
fn add_registers_fresh_daemon() {
    let mut reg = RegistryState::new();
    assert_eq!(reg.add(b"west", b"127.0.0.1", b"9000"), Ok(()));
    assert_eq!(reg.find_addr(b"west"), Some(addr(127, 0, 0, 1, 9000)));
    assert!(reg.current().is_none());
}

#[test]
fn add_is_idempotent_first_write_wins() {
    let mut reg = RegistryState::new();
    assert_eq!(reg.add(b"west", b"127.0.0.1", b"9000"), Ok(()));
    assert_eq!(reg.add(b"west", b"10.0.0.5", b"1234"), Ok(()));
    assert_eq!(reg.find_addr(b"west"), Some(addr(127, 0, 0, 1, 9000)));
    assert_eq!(reg.daemons.len(), 1);
}

#[test]
fn add_accepts_ipv6_and_signed_port() {
    let mut reg = RegistryState::new();
    assert_eq!(reg.add(b"six", b"::1", b"+9000"), Ok(()));
    assert_eq!(
        reg.find_addr(b"six"),
        Some(SocketAddress { ip: IpAddress::V6(0, 0, 0, 0, 0, 0, 0, 1), port: 9000 })
    );
}

#[test]
fn add_rejects_invalid_ip() {
    let mut reg = RegistryState::new();
    assert_eq!(reg.add(b"west", b"256.0.0.1", b"9000"), Err(JokerError::InvalidAddress));
    assert_eq!(reg.add(b"west", b"host", b"9000"), Err(JokerError::InvalidAddress));
    assert!(reg.daemons.is_empty());
}

#[test]
fn add_rejects_invalid_port() {
    let mut reg = RegistryState::new();
    assert_eq!(reg.add(b"west", b"127.0.0.1", b"65536"), Err(JokerError::InvalidAddress));
    assert_eq!(reg.add(b"west", b"127.0.0.1", b""), Err(JokerError::InvalidAddress));
    assert!(reg.daemons.is_empty());
}

#[test]
fn add_parses_address_even_for_a_known_name() {
    let mut reg = RegistryState::new();
    assert_eq!(reg.add(b"west", b"127.0.0.1", b"9000"), Ok(()));
    assert_eq!(reg.add(b"west", b"not-an-ip", b"9000"), Err(JokerError::InvalidAddress));
    assert_eq!(reg.find_addr(b"west"), Some(addr(127, 0, 0, 1, 9000)));
}

#[test]
fn checkout_unknown_daemon_changes_nothing() {
    let mut reg = RegistryState::new();
    assert_eq!(reg.add(b"west", b"127.0.0.1", b"9000"), Ok(()));
    assert_eq!(reg.checkout(b"east"), Err(JokerError::UnknownDaemon));
    assert!(reg.current().is_none());
    assert_eq!(reg.find_addr(b"west"), Some(addr(127, 0, 0, 1, 9000)));
}

#[test]
fn checkout_sets_active_daemon() {
    let mut reg = RegistryState::new();
    assert_eq!(reg.add(b"west", b"127.0.0.1", b"9000"), Ok(()));
    assert_eq!(reg.add(b"east", b"10.1.2.3", b"80"), Ok(()));
    assert_eq!(reg.checkout(b"east"), Ok(()));
    let active = reg.current().expect("active daemon should be set");
    assert_eq!(active.name, b"east".to_vec());
    assert_eq!(active.addr, addr(10, 1, 2, 3, 80));
}

#[test]
fn checkout_keeps_previous_active_on_failure() {
    let mut reg = RegistryState::new();
    assert_eq!(reg.add(b"west", b"127.0.0.1", b"9000"), Ok(()));
    assert_eq!(reg.checkout(b"west"), Ok(()));
    assert_eq!(reg.checkout(b"north"), Err(JokerError::UnknownDaemon));
    let active = reg.current().expect("active daemon should remain");
    assert_eq!(active.name, b"west".to_vec());
}

#[test]
fn error_messages_are_fixed_text() {
    assert_eq!(
        JokerError::UnknownDaemon.message(),
        "no daemon of that name is registered"
    );
    assert_eq!(
        JokerError::InvalidAddress.message(),
        "the ip address or port does not parse"
    );
    assert_eq!(
        JokerError::ConfigCorrupt.message(),
        "the daemon registry holds bytes that do not parse"
    );
    assert_eq!(
        JokerError::ConfigUnavailable.message(),
        "the daemon registry is missing or unreadable"
    );
    assert_eq!(
        JokerError::ConfigUnwritable.message(),
        "the daemon registry could not be written"
    );
}

#[test]
fn reserved_commands() {
    assert_eq!(joker::daemon_trace(), Ok(()));
    let containers = vec![b"box".to_vec()];
    assert_eq!(joker::get_logs(&containers), Err(JokerError::NotImplemented));
}
