use vstd::prelude::*;
use crate::registry::Capability;

verus! {

/// A server-side event that this client recognises but does not act on.
///
/// It is reported to the caller rather than dropped, so that the caller can
/// decide whether the session may go on.
#[derive(Clone, Copy, Debug, PartialEq, Eq)]
pub enum UnhandledEvent {
    /// The server withdrew a global that this client has bound.
    GlobalRemoved { name: u32 },
    /// A window-state event on the toplevel (size hint, close, bounds).
    ToplevelState,
    /// The server released a buffer; reuse tracking is not implemented.
    BufferRelease,
}

/// Everything that stops a session.
#[derive(Clone, Copy, Debug, PartialEq, Eq)]
pub enum SessionError {
    /// The backing memory of a buffer could not be sized or mapped.
    Allocation,
    /// A required global was never advertised by the server.
    MissingCapability(Capability),
    /// An event or a request came while the surface was in a state that does
    /// not allow it.
    ProtocolSequence,
    /// A recognised event that the session does not implement.
    Unhandled(UnhandledEvent),
}

impl SessionError {
    /// Whether the session must stop. Everything stops it but the events
    /// that leave the window usable when ignored: toplevel state changes
    /// and buffer releases.
    pub fn is_fatal(&self) -> (r: bool)
        ensures
            r <==> !(*self == SessionError::Unhandled(UnhandledEvent::ToplevelState)
                || *self == SessionError::Unhandled(UnhandledEvent::BufferRelease)),
    {
        match self {
            SessionError::Unhandled(UnhandledEvent::ToplevelState) => false,
            SessionError::Unhandled(UnhandledEvent::BufferRelease) => false,
            _ => true,
        }
    }

    /// The phase of the session that the error belongs to, for messages.
    pub fn phase(&self) -> (r: &'static str)
        ensures
            (self is Allocation) ==> r@ == "allocation"@,
            (self is MissingCapability) ==> r@ == "binding"@,
            (self is ProtocolSequence || self is Unhandled) ==> r@ == "handshake"@,
    {
        proof {
            reveal_strlit("allocation");
            reveal_strlit("binding");
            reveal_strlit("handshake");
        }
        match self {
            SessionError::Allocation => "allocation",
            SessionError::MissingCapability(_) => "binding",
            SessionError::ProtocolSequence => "handshake",
            SessionError::Unhandled(_) => "handshake",
        }
    }
}

} // verus!
