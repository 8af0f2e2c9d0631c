//! Peer-to-peer messages between a lapp and the gossipsub service.

use vstd::prelude::*;

verus! {

/// A peer-to-peer request of a lapp.
pub enum Message {
    Dial(String),
    AddAddress(String),
    Text { peer_id: String, msg: String },
    Close,
}

/// What kind of peer-to-peer failure happened.
#[derive(Debug, Clone, Copy, PartialEq, Eq, Structural)]
pub enum ErrorKind {
    GossipsubPublishError,
    ParsePeerIdError,
    DialError,
    WrongMultiaddr,
    Other,
}

/// A peer-to-peer failure as the lapp hears of it.
pub struct Error {
    pub message: String,
    pub kind: ErrorKind,
}

/// What the peer-to-peer service tells a lapp.
pub enum MessageIn {
    Text { peer_id: String, msg: String },
    Response { id: String, result: Result<(), Error> },
}

/// A peer-to-peer request with the id under which the lapp hears back.
pub struct MessageOut {
    pub id: String,
    pub msg: Message,
}

} // verus!
