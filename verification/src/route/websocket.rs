//! Websocket messages between a lapp and its clients.

use vstd::prelude::*;

verus! {

/// A websocket message.
pub enum Message {
    Text(String),
    Binary(Vec<u8>),
    Close,
}

impl Message {
    pub fn new_text(msg: String) -> (r: Self)
        ensures
            r == Message::Text(msg),
    {
        Message::Text(msg)
    }
}

/// What the websocket service tells a lapp.
pub enum MessageIn {
    Message(Message),
    Response { id: String, result: Result<(), String> },
    Timeout,
    Error(String),
}

/// A websocket message a lapp sends, with the id under which it hears back.
pub struct MessageOut {
    pub id: String,
    pub msg: Message,
}

} // verus!
