//! Messages that lapps exchange with the server's services.

use vstd::prelude::*;

pub mod codec;
pub mod gossipsub;
pub mod http;
pub mod websocket;

verus! {

/// Where a lapp sends a message.
pub enum Route {
    Http(http::Message),
    Websocket(websocket::MessageOut),
    Gossipsub(gossipsub::MessageOut),
}

} // verus!
