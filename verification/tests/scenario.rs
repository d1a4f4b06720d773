//! The end-to-end flow: register a daemon, switch to it, and ship one
//! artifact, checking the exact byte stream a listening daemon would read.

use joker::errors::JokerError;
use joker::registry::RegistryState;
use joker::ship::{ShipEvent, ShipPhase, ShipProgress};
use joker::store::{decode_state, encode_state};
use joker::wire::{artifact_frames, artifact_name, le64_bytes, manifest_path, ArtifactFrame};

#[test]
fn add_checkout_run_produces_exact_frames() {
    // add "west" --ip 127.0.0.1 --port 9000, then checkout "west"; the
    // registry survives a save/load between the two commands.
    let mut reg = RegistryState::new();
    assert_eq!(reg.add(b"west", b"127.0.0.1", b"9000"), Ok(()));
    let mut reg = decode_state(&encode_state(&reg)).expect("saved registry should load");
    assert_eq!(reg.checkout(b"west"), Ok(()));
    let reg = decode_state(&encode_state(&reg)).expect("saved registry should load");
    let active = reg.current().expect("checkout should set the active daemon");
    assert_eq!(active.name, b"west".to_vec());
    assert_eq!(active.addr.port, 9000);

    // run a.bin: one connection, then name, payload and manifest frames.
    let payload = b"\x7fELF-payload".to_vec();
    let manifest = b"entry = \"a.bin\"\nmem\n".to_vec();
    let mut progress = ShipProgress::start(1);
    progress.step(ShipEvent::Connected);

    let name = artifact_name(b"a.bin").expect("the path has a final segment");
    assert_eq!(name, b"a.bin".to_vec());
    assert_eq!(manifest_path(b"a.bin"), b"a.bin.joker".to_vec());
    let wire = artifact_frames(&ArtifactFrame {
        name: name.clone(),
        payload: payload.clone(),
        manifest: manifest.clone(),
    });
    progress.step(ShipEvent::ArtifactSent);
    assert_eq!(progress.phase, ShipPhase::Sent);

    // What the stub server reads from its single accepted connection.
    let mut expected = Vec::new();
    expected.extend_from_slice(&le64_bytes(5));
    expected.extend_from_slice(b"a.bin");
    expected.extend_from_slice(&le64_bytes(payload.len() as u64));
    expected.extend_from_slice(&payload);
    expected.extend_from_slice(&le64_bytes(manifest.len() as u64));
    expected.extend_from_slice(&manifest);
    assert_eq!(wire, expected);
}

#[test]
fn run_missing_artifact_fails_after_connecting() {
    // The connection is opened before any artifact file is read, so a
    // missing file aborts mid-batch; nothing already sent is undone.
    let mut progress = ShipProgress::start(2);
    progress.step(ShipEvent::Connected);
    progress.step(ShipEvent::ArtifactSent);
    progress.step(ShipEvent::ArtifactMissing);
    assert_eq!(progress.phase, ShipPhase::Failed);
    assert_eq!(progress.failure, Some(JokerError::ArtifactUnreadable));
    assert_eq!(progress.sent, 1);
}
