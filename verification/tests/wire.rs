use joker::errors::JokerError;
use joker::wire::{artifact_frames, artifact_name, le64_bytes, le64_value, manifest_path,
    ArtifactFrame};

#[test]
fn le64_bytes_little_endian() {
    assert_eq!(le64_bytes(0), vec![0, 0, 0, 0, 0, 0, 0, 0]);
    assert_eq!(le64_bytes(5), vec![5, 0, 0, 0, 0, 0, 0, 0]);
    assert_eq!(le64_bytes(1000), vec![0xe8, 0x03, 0, 0, 0, 0, 0, 0]);
    assert_eq!(le64_bytes(0x0102030405060708), vec![8, 7, 6, 5, 4, 3, 2, 1]);
    assert_eq!(le64_bytes(u64::MAX), vec![0xff; 8]);
}

#[test]
fn le64_value_reads_back() {
    for n in [0u64, 1, 5, 1000, 0xdead_beef, u64::MAX] {
        assert_eq!(le64_value(&le64_bytes(n)), n);
    }
}

#[test]
fn artifact_name_is_final_segment() {
    assert_eq!(artifact_name(b"a.bin"), Ok(b"a.bin".to_vec()));
    assert_eq!(artifact_name(b"dir/a.bin"), Ok(b"a.bin".to_vec()));
    assert_eq!(artifact_name(b"/x/y/z.bin"), Ok(b"z.bin".to_vec()));
}

#[test]
fn artifact_name_rejects_empty_final_segment() {
    assert_eq!(artifact_name(b""), Err(JokerError::MalformedPath));
    assert_eq!(artifact_name(b"dir/"), Err(JokerError::MalformedPath));
    assert_eq!(artifact_name(b"/"), Err(JokerError::MalformedPath));
}

#[test]
fn manifest_path_appends_fixed_suffix() {
    assert_eq!(manifest_path(b"a.bin"), b"a.bin.joker".to_vec());
    assert_eq!(manifest_path(b"dir/a.bin"), b"dir/a.bin.joker".to_vec());
}

#[test]
fn artifact_frames_exact_layout() {
    let name = b"hello".to_vec();
    let payload = vec![0xabu8; 1000];
    let manifest = vec![0x7fu8; 20];
    let frame = ArtifactFrame { name: name.clone(), payload: payload.clone(), manifest: manifest.clone() };
    let wire = artifact_frames(&frame);
    assert_eq!(wire.len(), 8 + 5 + 8 + 1000 + 8 + 20);
    assert_eq!(wire.len(), 1049);
    assert_eq!(&wire[0..8], &le64_bytes(5)[..]);
    assert_eq!(&wire[8..13], &name[..]);
    assert_eq!(&wire[13..21], &le64_bytes(1000)[..]);
    assert_eq!(&wire[21..1021], &payload[..]);
    assert_eq!(&wire[1021..1029], &le64_bytes(20)[..]);
    assert_eq!(&wire[1029..1049], &manifest[..]);
}

#[test]
fn artifact_frames_empty_fields() {
    let frame = ArtifactFrame { name: b"n".to_vec(), payload: Vec::new(), manifest: Vec::new() };
    let wire = artifact_frames(&frame);
    assert_eq!(wire.len(), 8 + 1 + 8 + 8);
    assert_eq!(&wire[0..8], &le64_bytes(1)[..]);
    assert_eq!(wire[8], b'n');
    assert_eq!(&wire[9..17], &le64_bytes(0)[..]);
    assert_eq!(&wire[17..25], &le64_bytes(0)[..]);
}
