//! The closed error taxonomy of the service.
//!
//! Handler-level failures are values of [`ChatError`]; the dispatcher turns
//! them into a private error response to the requesting connection and never
//! lets them escape further. The other failure kinds of the service are
//! policies rather than values, and so carry no variant here: a malformed
//! inbound frame is dropped at the decode boundary with the connection left
//! open, a transport failure on a send becomes a reported-failed identifier
//! that the sweep removes and cascades about, and a failure to render one
//! response is fatal to that one delivery attempt alone.

use vstd::prelude::*;
use vstd::string::StringExecFns;

verus! {

/// Everything that can go wrong while handling one client request.
///
/// `ClientNotFound` and `RoomNotFound` mean the referenced identifier is not
/// currently registered; `NameNotSet` means the requesting connection has not
/// set a display name yet, which name-dependent requests demand.
#[derive(Clone, Copy, PartialEq, Eq, Structural, Debug)]
pub enum ChatError {
    ClientNotFound,
    RoomNotFound,
    NameNotSet,
}

impl ChatError {
    /// The wire text of this error, as carried by an error response.
    pub open spec fn text(self) -> Seq<char> {
        match self {
            ChatError::ClientNotFound => "Client not found"@,
            ChatError::RoomNotFound => "Room not found"@,
            ChatError::NameNotSet => "Nickname not set"@,
        }
    }

    /// Renders the error for the private error response sent to the requester.
    pub fn message(&self) -> (r: String)
        ensures
            r@ == self.text(),
    {
        match self {
            ChatError::ClientNotFound => String::from_str("Client not found"),
            ChatError::RoomNotFound => String::from_str("Room not found"),
            ChatError::NameNotSet => String::from_str("Nickname not set"),
        }
    }
}

} // verus!
