use joker::addr::{IpAddress, SocketAddress};
use joker::errors::JokerError;
use joker::registry::{DaemonRecord, RegistryState};
use joker::store::{decode_state, encode_state};

fn record(name: &[u8], a: u8, b: u8, c: u8, d: u8, port: u16) -> DaemonRecord {
    DaemonRecord {
        name: name.to_vec(),
        addr: SocketAddress { ip: IpAddress::V4(a, b, c, d), port },
    }
}

#[test]
fn round_trip_empty_registry() {
    let reg = RegistryState::new();
    let image = encode_state(&reg);
    let back = decode_state(&image).expect("a fresh registry's image should decode");
    assert_eq!(back, reg);
}

#[test]
fn round_trip_populated_registry() {
    let mut reg = RegistryState::new();
    assert_eq!(reg.add(b"west", b"127.0.0.1", b"9000"), Ok(()));
    assert_eq!(reg.add(b"east", b"10.1.2.3", b"80"), Ok(()));
    assert_eq!(reg.checkout(b"west"), Ok(()));
    let image = encode_state(&reg);
    let back = decode_state(&image).expect("the image should decode");
    assert_eq!(back, reg);
}

#[test]
fn round_trip_keeps_raw_byte_names() {
    let mut reg = RegistryState::new();
    reg.daemons.push(record(&[0xff, 0x00, b'/'], 1, 2, 3, 4, 5));
    reg.active_daemon = Some(record(b"", 9, 8, 7, 6, 65535));
    let image = encode_state(&reg);
    let back = decode_state(&image).expect("raw names should decode");
    assert_eq!(back, reg);
}

#[test]
fn add_then_load_resolves_to_given_address() {
    let mut reg = RegistryState::new();
    assert_eq!(reg.add(b"west", b"127.0.0.1", b"9000"), Ok(()));
    let back = decode_state(&encode_state(&reg)).expect("image should decode");
    assert_eq!(
        back.find_addr(b"west"),
        Some(SocketAddress { ip: IpAddress::V4(127, 0, 0, 1), port: 9000 })
    );
}

#[test]
fn checkout_then_load_keeps_active() {
    let mut reg = RegistryState::new();
    assert_eq!(reg.add(b"west", b"127.0.0.1", b"9000"), Ok(()));
    assert_eq!(reg.checkout(b"west"), Ok(()));
    let back = decode_state(&encode_state(&reg)).expect("image should decode");
    let active = back.current().expect("active daemon should survive the trip");
    assert_eq!(active.name, b"west".to_vec());
    assert_eq!(active.addr.port, 9000);
}

#[test]
fn round_trip_ipv6_record() {
    let mut reg = RegistryState::new();
    assert_eq!(reg.add(b"six", b"2001:db8::1", b"443"), Ok(()));
    assert_eq!(reg.add(b"four", b"10.0.0.1", b"80"), Ok(()));
    assert_eq!(reg.checkout(b"six"), Ok(()));
    let back = decode_state(&encode_state(&reg)).expect("the image should decode");
    assert_eq!(back, reg);
    assert_eq!(
        back.find_addr(b"six"),
        Some(SocketAddress {
            ip: IpAddress::V6(0x2001, 0xdb8, 0, 0, 0, 0, 0, 1),
            port: 443,
        })
    );
}

#[test]
fn decode_rejects_garbage() {
    assert_eq!(decode_state(b""), Err(JokerError::ConfigCorrupt));
    assert_eq!(decode_state(b"short"), Err(JokerError::ConfigCorrupt));
    assert_eq!(decode_state(&[0xff; 32]), Err(JokerError::ConfigCorrupt));
}

#[test]
fn decode_rejects_truncated_image() {
    let mut reg = RegistryState::new();
    assert_eq!(reg.add(b"west", b"127.0.0.1", b"9000"), Ok(()));
    let image = encode_state(&reg);
    for cut in 0..image.len() {
        assert_eq!(decode_state(&image[..cut]), Err(JokerError::ConfigCorrupt));
    }
}

#[test]
fn decode_rejects_trailing_bytes() {
    let reg = RegistryState::new();
    let mut image = encode_state(&reg);
    image.push(0);
    assert_eq!(decode_state(&image), Err(JokerError::ConfigCorrupt));
}

#[test]
fn decode_rejects_bad_active_tag() {
    let reg = RegistryState::new();
    let mut image = encode_state(&reg);
    let last = image.len() - 1;
    image[last] = 2;
    assert_eq!(decode_state(&image), Err(JokerError::ConfigCorrupt));
}

#[test]
fn decode_rejects_count_beyond_records() {
    let mut image = joker::wire::le64_bytes(5);
    image.push(0);
    assert_eq!(decode_state(&image), Err(JokerError::ConfigCorrupt));
}

#[test]
fn decode_rejects_name_length_beyond_image() {
    let mut image = joker::wire::le64_bytes(1);
    image.extend_from_slice(&joker::wire::le64_bytes(100));
    image.extend_from_slice(b"shortname");
    assert_eq!(decode_state(&image), Err(JokerError::ConfigCorrupt));
}

#[test]
fn decode_rejects_duplicate_names() {
    let reg = RegistryState {
        daemons: vec![record(b"west", 1, 2, 3, 4, 5), record(b"west", 9, 9, 9, 9, 9)],
        active_daemon: None,
    };
    let image = encode_state(&reg);
    assert_eq!(decode_state(&image), Err(JokerError::ConfigCorrupt));
}
