//! The per-invocation state machine of the artifact shipper.
//!
//! One `run` goes: connect once, then send each artifact's three frames in
//! order, then done. The driver performs the connection, the file reads and
//! the socket writes, and reports each outcome as an event; this machine
//! decides what follows. Any failure aborts the whole batch — there is no
//! retry transition — and artifacts already fully written stay written: a
//! partially sent batch is a real observable outcome that the receiving
//! daemon must tolerate.

use vstd::prelude::*;
use crate::errors::JokerError;

verus! {

/// The phase of one `run` invocation.
#[derive(Clone, Copy, Debug, PartialEq, Eq, Structural)]
pub enum ShipPhase {
    Connecting,
    Sending,
    Sent,
    Failed,
}

/// One outcome the driver reports: the single connection attempt's result,
/// one artifact fully written, or the failure that stopped it.
#[derive(Clone, Copy, Debug, PartialEq, Eq, Structural)]
pub enum ShipEvent {
    Connected,
    ConnectRefused,
    PathRejected,
    ArtifactMissing,
    ManifestMissing,
    SocketBroken,
    ArtifactSent,
}

/// The error a failure event maps to; progress events map to none.
pub open spec fn spec_event_error(ev: ShipEvent) -> Option<JokerError> {
    match ev {
        ShipEvent::Connected => None,
        ShipEvent::ArtifactSent => None,
        ShipEvent::ConnectRefused => Some(JokerError::ConnectionFailed),
        ShipEvent::PathRejected => Some(JokerError::MalformedPath),
        ShipEvent::ArtifactMissing => Some(JokerError::ArtifactUnreadable),
        ShipEvent::ManifestMissing => Some(JokerError::ManifestUnreadable),
        ShipEvent::SocketBroken => Some(JokerError::TransferInterrupted),
    }
}

/// The progress of one batch: the phase, how many artifacts are fully sent,
/// the batch size, and the failure that ended it, if one did.
#[derive(Clone, Copy, Debug, PartialEq, Eq)]
pub struct ShipProgress {
    pub phase: ShipPhase,
    pub sent: usize,
    pub total: usize,
    pub failure: Option<JokerError>,
}

/// What one event makes of the progress: a failure event fails the batch on
/// the spot and keeps the sent count; `Connected` starts sending (an empty
/// batch is already done); `ArtifactSent` counts one more and finishes after
/// the last.
pub open spec fn spec_step(p: ShipProgress, ev: ShipEvent) -> ShipProgress {
    match spec_event_error(ev) {
        Some(e) => ShipProgress { phase: ShipPhase::Failed, failure: Some(e), ..p },
        None => match ev {
            ShipEvent::Connected => ShipProgress {
                phase: if p.total == 0 {
                    ShipPhase::Sent
                } else {
                    ShipPhase::Sending
                },
                ..p
            },
            _ => ShipProgress {
                phase: if p.sent + 1 == p.total {
                    ShipPhase::Sent
                } else {
                    ShipPhase::Sending
                },
                sent: (p.sent + 1) as usize,
                ..p
            },
        },
    }
}

impl ShipProgress {
    /// The phase always agrees with the counters: nothing is sent before the
    /// connection, a finished batch is fully sent, sending is mid-batch, and
    /// only a failed batch carries a failure.
    pub open spec fn wf(self) -> bool {
        match self.phase {
            ShipPhase::Connecting => self.sent == 0 && self.failure is None,
            ShipPhase::Sending => self.sent < self.total && self.failure is None,
            ShipPhase::Sent => self.sent == self.total && self.failure is None,
            ShipPhase::Failed => self.failure is Some,
        }
    }

    /// Starts a batch of `total` artifacts: one connection attempt comes
    /// first, nothing is sent yet.
    pub fn start(total: usize) -> (r: ShipProgress)
        ensures
            r.wf(),
            r == (ShipProgress {
                phase: ShipPhase::Connecting,
                sent: 0,
                total: total,
                failure: None,
            }),
    {
        ShipProgress { phase: ShipPhase::Connecting, sent: 0, total, failure: None }
    }

    /// Feeds one reported outcome into the machine, exactly as `spec_step`
    /// describes. The connection outcome is expected while connecting, the
    /// others while sending; a finished or failed batch takes no event.
    pub fn step(&mut self, ev: ShipEvent)
        requires
            old(self).wf(),
            old(self).phase == ShipPhase::Connecting || old(self).phase == ShipPhase::Sending,
            old(self).phase == ShipPhase::Connecting <==> (ev == ShipEvent::Connected || ev
                == ShipEvent::ConnectRefused),
        ensures
            *final(self) == spec_step(*old(self), ev),
            final(self).wf(),
    {
        match ev {
            ShipEvent::Connected => {
                if self.total == 0 {
                    self.phase = ShipPhase::Sent;
                } else {
                    self.phase = ShipPhase::Sending;
                }
            },
            ShipEvent::ArtifactSent => {
                self.sent = self.sent + 1;
                if self.sent == self.total {
                    self.phase = ShipPhase::Sent;
                } else {
                    self.phase = ShipPhase::Sending;
                }
            },
            ShipEvent::ConnectRefused => {
                self.phase = ShipPhase::Failed;
                self.failure = Some(JokerError::ConnectionFailed);
            },
            ShipEvent::PathRejected => {
                self.phase = ShipPhase::Failed;
                self.failure = Some(JokerError::MalformedPath);
            },
            ShipEvent::ArtifactMissing => {
                self.phase = ShipPhase::Failed;
                self.failure = Some(JokerError::ArtifactUnreadable);
            },
            ShipEvent::ManifestMissing => {
                self.phase = ShipPhase::Failed;
                self.failure = Some(JokerError::ManifestUnreadable);
            },
            ShipEvent::SocketBroken => {
                self.phase = ShipPhase::Failed;
                self.failure = Some(JokerError::TransferInterrupted);
            },
        }
    }
}

/// A refused connection fails the whole batch with `ConnectionFailed`
/// before a single byte of any artifact was written.
pub proof fn lemma_refused_connection_sends_nothing(p: ShipProgress)
    requires
        p.wf(),
        p.phase == ShipPhase::Connecting,
    ensures
        spec_step(p, ShipEvent::ConnectRefused).phase == ShipPhase::Failed,
        spec_step(p, ShipEvent::ConnectRefused).failure == Some(JokerError::ConnectionFailed),
        spec_step(p, ShipEvent::ConnectRefused).sent == 0,
{
}

/// A failure mid-batch aborts with exactly the reported error and rolls
/// nothing back: every artifact already fully sent stays counted as sent.
pub proof fn lemma_midstream_failure_keeps_earlier(p: ShipProgress, ev: ShipEvent)
    requires
        p.wf(),
        p.phase == ShipPhase::Sending,
        spec_event_error(ev) is Some,
    ensures
        spec_step(p, ev).phase == ShipPhase::Failed,
        spec_step(p, ev).failure == spec_event_error(ev),
        spec_step(p, ev).sent == p.sent,
{
}

} // verus!
