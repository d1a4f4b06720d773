use vstd::prelude::*;

verus! {

/// The closed set of failures a command can report.
///
/// Registry storage failures: `ConfigUnavailable`, `ConfigCorrupt`,
/// `ConfigUnwritable`. Registry logic failures: `InvalidAddress`,
/// `UnknownDaemon`. Shipper failures: `ConnectionFailed`, `MalformedPath`,
/// `ArtifactUnreadable`, `ManifestUnreadable`, `TransferInterrupted`.
/// `NotImplemented` is reported by commands that are reserved but not yet
/// available, so that they fail loudly instead of silently doing nothing.
#[derive(Clone, Copy, Debug, PartialEq, Eq, Structural)]
pub enum JokerError {
    ConfigUnavailable,
    ConfigCorrupt,
    ConfigUnwritable,
    InvalidAddress,
    UnknownDaemon,
    ConnectionFailed,
    MalformedPath,
    ArtifactUnreadable,
    ManifestUnreadable,
    TransferInterrupted,
    NotImplemented,
}

impl JokerError {
    /// The one-line human-readable explanation for this failure.
    pub open spec fn spec_message(self) -> Seq<char> {
        match self {
            JokerError::ConfigUnavailable => "the daemon registry is missing or unreadable"@,
            JokerError::ConfigCorrupt => "the daemon registry holds bytes that do not parse"@,
            JokerError::ConfigUnwritable => "the daemon registry could not be written"@,
            JokerError::InvalidAddress => "the ip address or port does not parse"@,
            JokerError::UnknownDaemon => "no daemon of that name is registered"@,
            JokerError::ConnectionFailed => "the active daemon did not accept a connection"@,
            JokerError::MalformedPath => "the artifact path has no final segment"@,
            JokerError::ArtifactUnreadable => "the artifact file is missing or unreadable"@,
            JokerError::ManifestUnreadable => "the manifest file is missing or unreadable"@,
            JokerError::TransferInterrupted => "the connection broke while sending"@,
            JokerError::NotImplemented => "this command is reserved but not implemented"@,
        }
    }

    /// Renders the explanation; the text is exactly `spec_message`.
    pub fn message(&self) -> (r: String)
        ensures
            r@ == self.spec_message(),
    {
        match self {
            JokerError::ConfigUnavailable => "the daemon registry is missing or unreadable".to_owned(),
            JokerError::ConfigCorrupt => "the daemon registry holds bytes that do not parse".to_owned(),
            JokerError::ConfigUnwritable => "the daemon registry could not be written".to_owned(),
            JokerError::InvalidAddress => "the ip address or port does not parse".to_owned(),
            JokerError::UnknownDaemon => "no daemon of that name is registered".to_owned(),
            JokerError::ConnectionFailed => "the active daemon did not accept a connection".to_owned(),
            JokerError::MalformedPath => "the artifact path has no final segment".to_owned(),
            JokerError::ArtifactUnreadable => "the artifact file is missing or unreadable".to_owned(),
            JokerError::ManifestUnreadable => "the manifest file is missing or unreadable".to_owned(),
            JokerError::TransferInterrupted => "the connection broke while sending".to_owned(),
            JokerError::NotImplemented => "this command is reserved but not implemented".to_owned(),
        }
    }
}

} // verus!
