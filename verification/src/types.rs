use vstd::prelude::*;

verus! {

/// The one step of user setup that the server reports to a client.
#[derive(Debug, PartialEq, Eq, Structural, Clone, Copy)]
pub enum UserSetupType {
    UsernameConfirmed,
}

/// The closed set of message kinds.
#[derive(Debug, PartialEq, Eq, Structural, Clone, Copy)]
pub enum MessageType {
    /// A notice written by the server itself.
    SystemInfo,
    /// A step of the username handshake; the message text carries the name.
    UserSetup(UserSetupType),
    /// Ordinary chat text written by a user.
    User,
    /// A command line for the server.
    Command,
}

impl MessageType {
    /// Whether two kinds are the same kind.
    pub fn same(self, other: MessageType) -> (r: bool)
        ensures
            r == (self == other),
    {
        self == other
    }
}

} // verus!
