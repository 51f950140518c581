use vstd::prelude::*;

verus! {

/// Why a command was not accepted.
#[derive(Clone, Copy, Debug, PartialEq, Eq, Structural)]
pub enum Error {
    /// The target session is unknown or was already removed.
    SessionNotFound,
    /// The protocol is not open on the target session.
    ProtocolNotOpen,
    /// The target queue has no room left.
    QueueFull,
    /// The service is closing or has shut down.
    ServiceClosed,
    /// The target session is closing or closed.
    SessionClosed,
    /// The transport could not listen on or dial an address.
    TransportError,
}

impl Error {
    /// True of the failures after which the same command may succeed later.
    pub open spec fn spec_is_transient(self) -> bool {
        self == Error::QueueFull
    }

    /// True of the failures after which the same command may succeed later:
    /// only a full queue drains; a closed or removed target stays so.
    #[verifier::when_used_as_spec(spec_is_transient)]
    pub fn is_transient(self) -> (r: bool)
        ensures
            r == self.spec_is_transient(),
    {
        match self {
            Error::QueueFull => true,
            _ => false,
        }
    }

    /// A short description for people.
    pub fn describe(self) -> (text: String)
        ensures
            text@ == match self {
                Error::SessionNotFound => "session not found"@,
                Error::ProtocolNotOpen => "protocol not open on the session"@,
                Error::QueueFull => "queue is full"@,
                Error::ServiceClosed => "service is closed"@,
                Error::SessionClosed => "session is closed"@,
                Error::TransportError => "transport failure"@,
            },
    {
        match self {
            Error::SessionNotFound => "session not found".to_owned(),
            Error::ProtocolNotOpen => "protocol not open on the session".to_owned(),
            Error::QueueFull => "queue is full".to_owned(),
            Error::ServiceClosed => "service is closed".to_owned(),
            Error::SessionClosed => "session is closed".to_owned(),
            Error::TransportError => "transport failure".to_owned(),
        }
    }
}

} // verus!
