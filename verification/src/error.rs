use vstd::prelude::*;

verus! {

/// Everything that can go wrong in the client.
#[derive(Debug, PartialEq, Eq)]
pub enum Error {
    /// The first byte of a packet names no packet type.
    InvalidPacketId(u8),
    /// A packet without a type byte, or a message packet without a body.
    IncompletePacket(),
    /// The body of a binary packet is not valid base64.
    InvalidBase64(),
    /// The url could not be parsed or is too large to be handled.
    InvalidUrl(),
    /// The url's scheme is none of `http`, `https`, `ws`, `wss`.
    InvalidUrlScheme(String),
    /// A packet was to be sent while the socket was not connected.
    IllegalActionBeforeOpen(),
    /// The server did not offer a websocket upgrade.
    IllegalWebsocketUpgrade(),
    /// The transport failed, with the transport's message.
    Transport(String),
}

impl Error {
    /// A copy of the error.
    pub fn clone_error(&self) -> (e: Error)
        ensures
            e == *self,
    {
        match self {
            Error::InvalidPacketId(b) => Error::InvalidPacketId(*b),
            Error::IncompletePacket() => Error::IncompletePacket(),
            Error::InvalidBase64() => Error::InvalidBase64(),
            Error::InvalidUrl() => Error::InvalidUrl(),
            Error::InvalidUrlScheme(s) => Error::InvalidUrlScheme(s.clone()),
            Error::IllegalActionBeforeOpen() => Error::IllegalActionBeforeOpen(),
            Error::IllegalWebsocketUpgrade() => Error::IllegalWebsocketUpgrade(),
            Error::Transport(s) => Error::Transport(s.clone()),
        }
    }
}

} // verus!
