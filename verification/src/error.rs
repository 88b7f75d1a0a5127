//! Error kinds of the fabric.

use vstd::prelude::*;

verus! {

/// What can go wrong in a session.
#[derive(Clone, Copy, PartialEq, Eq, Structural, Debug)]
pub enum FabricError {
    /// Connect, read, write or timeout failure on a connection.
    Transport,
    /// A frame or a body that cannot be read.
    Decode,
    /// A message that is not allowed in the receiver's current state.
    Protocol,
    /// Discovery ended without a worker of some role.
    NoWorkers,
    /// A scene primitive that cannot be rendered.
    SceneInvalid,
}

impl FabricError {
    /// Short description, for logs and for the error message sent to a client.
    pub fn message(self) -> (s: &'static str)
        ensures
            self == FabricError::Transport ==> s@ == "transport failure"@,
            self == FabricError::Decode ==> s@ == "malformed message"@,
            self == FabricError::Protocol ==> s@ == "message not allowed in this state"@,
            self == FabricError::NoWorkers ==> s@ == "no workers discovered"@,
            self == FabricError::SceneInvalid ==> s@ == "invalid scene"@,
    {
        match self {
            FabricError::Transport => "transport failure",
            FabricError::Decode => "malformed message",
            FabricError::Protocol => "message not allowed in this state",
            FabricError::NoWorkers => "no workers discovered",
            FabricError::SceneInvalid => "invalid scene",
        }
    }
}

} // verus!
