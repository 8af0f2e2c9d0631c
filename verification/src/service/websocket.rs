//! Decisions of the websocket service that links a client to a lapp.

use vstd::prelude::*;

use crate::route::websocket::{Message, MessageIn, MessageOut};

verus! {

/// A message for the websocket service of a lapp.
pub struct WsServiceMessage(pub MessageOut);

/// A frame of the websocket connection.
pub enum Frame {
    Text(String),
    Binary(Vec<u8>),
    Ping(Vec<u8>),
    Pong(Vec<u8>),
    Close,
}

/// What follows a frame from the client: what the lapp is told, whether
/// the client showed it is alive, whether the service stops.
pub struct FrameOutcome {
    pub to_lapp: Option<MessageIn>,
    pub alive: bool,
    pub stop: bool,
}

/// Seconds between two pings to the client: a ping goes out every second.
pub fn heartbeat_interval_secs() -> (r: u64)
    ensures
        r == 1,
{
    1
}

/// Nanoseconds without an answer of the client after which it is dropped.
pub fn client_timeout_nanos() -> (r: u128)
    ensures
        r == 10_000_000_000,
{
    10_000_000_000
}

/// Handles a frame from the client: text, binary data and a close go to the
/// lapp, a close and a read error stop the service, ping and pong show that
/// the client is alive.
pub fn handle_ws_message(msg: Result<Frame, String>) -> (r: FrameOutcome)
    ensures
        match msg {
            Ok(Frame::Text(t)) => r.to_lapp == Some(MessageIn::Message(Message::Text(t))) && !r.alive && !r.stop,
            Ok(Frame::Binary(b)) => r.to_lapp == Some(MessageIn::Message(Message::Binary(b))) && !r.alive && !r.stop,
            Ok(Frame::Close) => r.to_lapp == Some(MessageIn::Message(Message::Close)) && !r.alive && r.stop,
            Ok(Frame::Ping(_)) => r.to_lapp is None && r.alive && !r.stop,
            Ok(Frame::Pong(_)) => r.to_lapp is None && r.alive && !r.stop,
            Err(_) => r.to_lapp is None && !r.alive && r.stop,
        },
{
    match msg {
        Ok(Frame::Text(text)) => FrameOutcome { to_lapp: Some(MessageIn::Message(Message::Text(text))), alive: false, stop: false },
        Ok(Frame::Binary(bin)) => FrameOutcome { to_lapp: Some(MessageIn::Message(Message::Binary(bin))), alive: false, stop: false },
        Ok(Frame::Close) => FrameOutcome { to_lapp: Some(MessageIn::Message(Message::Close)), alive: false, stop: true },
        Ok(Frame::Ping(_)) => FrameOutcome { to_lapp: None, alive: true, stop: false },
        Ok(Frame::Pong(_)) => FrameOutcome { to_lapp: None, alive: true, stop: false },
        Err(_) => FrameOutcome { to_lapp: None, alive: false, stop: true },
    }
}

/// What to do at a heartbeat.
#[derive(Debug, Clone, Copy, PartialEq, Eq, Structural)]
pub enum HeartbeatAction {
    /// Tell the lapp the client timed out and stop.
    Timeout,
    /// Send a ping to the client.
    Ping,
}

/// The client is dropped once it stayed silent for longer than the timeout.
pub fn handle_heartbeat(elapsed_nanos: u128) -> (r: HeartbeatAction)
    ensures
        r == if elapsed_nanos > 10_000_000_000 { HeartbeatAction::Timeout } else { HeartbeatAction::Ping },
{
    if elapsed_nanos > client_timeout_nanos() {
        HeartbeatAction::Timeout
    } else {
        HeartbeatAction::Ping
    }
}

/// The frame that carries a lapp's message to the client, and the id to answer.
pub fn handle_service_message(msg: MessageOut) -> (r: (String, Frame))
    ensures
        r.0 == msg.id,
        r.1 == match msg.msg {
            Message::Text(t) => Frame::Text(t),
            Message::Binary(b) => Frame::Binary(b),
            Message::Close => Frame::Close,
        },
{
    let MessageOut { id, msg } = msg;
    let frame = match msg {
        Message::Text(text) => Frame::Text(text),
        Message::Binary(bin) => Frame::Binary(bin),
        Message::Close => Frame::Close,
    };
    (id, frame)
}

/// What follows sending a frame to the client: what the lapp hears (the
/// answer to its message where it has an id, else only a failure), and
/// whether the service goes on, which it does only where the frame went out.
/// A ping at a heartbeat is sent without an id.
pub fn ws_send_report(id: Option<String>, result: Result<(), String>) -> (r: (Option<MessageIn>, bool))
    ensures
        r.1 == (result is Ok),
        r.0 == match id {
            Some(id) => Some(MessageIn::Response { id, result }),
            None => match result {
                Ok(_) => None,
                Err(e) => Some(MessageIn::Error(e)),
            },
        },
{
    let go_on = result.is_ok();
    let report = match id {
        Some(id) => Some(MessageIn::Response { id, result }),
        None => match result {
            Ok(()) => None,
            Err(err) => Some(MessageIn::Error(err)),
        },
    };
    (report, go_on)
}

} // verus!
