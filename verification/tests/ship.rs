use joker::errors::JokerError;
use joker::ship::{ShipEvent, ShipPhase, ShipProgress};

#[test]
fn refused_connection_fails_whole_batch() {
    let mut p = ShipProgress::start(2);
    assert_eq!(p.phase, ShipPhase::Connecting);
    p.step(ShipEvent::ConnectRefused);
    assert_eq!(p.phase, ShipPhase::Failed);
    assert_eq!(p.failure, Some(JokerError::ConnectionFailed));
    assert_eq!(p.sent, 0);
}

#[test]
fn full_batch_reaches_sent() {
    let mut p = ShipProgress::start(2);
    p.step(ShipEvent::Connected);
    assert_eq!(p.phase, ShipPhase::Sending);
    p.step(ShipEvent::ArtifactSent);
    assert_eq!(p.phase, ShipPhase::Sending);
    assert_eq!(p.sent, 1);
    p.step(ShipEvent::ArtifactSent);
    assert_eq!(p.phase, ShipPhase::Sent);
    assert_eq!(p.sent, 2);
    assert_eq!(p.failure, None);
}

#[test]
fn empty_batch_is_done_after_connect() {
    let mut p = ShipProgress::start(0);
    p.step(ShipEvent::Connected);
    assert_eq!(p.phase, ShipPhase::Sent);
    assert_eq!(p.sent, 0);
}

#[test]
fn missing_artifact_aborts_mid_batch_without_rollback() {
    let mut p = ShipProgress::start(3);
    p.step(ShipEvent::Connected);
    p.step(ShipEvent::ArtifactSent);
    p.step(ShipEvent::ArtifactMissing);
    assert_eq!(p.phase, ShipPhase::Failed);
    assert_eq!(p.failure, Some(JokerError::ArtifactUnreadable));
    assert_eq!(p.sent, 1);
}

#[test]
fn failure_events_map_to_their_errors() {
    for (ev, err) in [
        (ShipEvent::PathRejected, JokerError::MalformedPath),
        (ShipEvent::ArtifactMissing, JokerError::ArtifactUnreadable),
        (ShipEvent::ManifestMissing, JokerError::ManifestUnreadable),
        (ShipEvent::SocketBroken, JokerError::TransferInterrupted),
    ] {
        let mut p = ShipProgress::start(1);
        p.step(ShipEvent::Connected);
        p.step(ev);
        assert_eq!(p.phase, ShipPhase::Failed);
        assert_eq!(p.failure, Some(err));
    }
}
