use laplace::route::codec::{
    p2p_message_in_from_slice, p2p_message_in_to_vec, routes_from_slice, routes_to_vec, ws_message_in_from_slice,
    ws_message_in_to_vec,
};
use laplace::route::gossipsub::{
    Error as P2pError, ErrorKind, Message as P2pMessage, MessageIn as P2pIn, MessageOut as P2pOut,
};
use laplace::route::http::Message as HttpMessage;
use laplace::route::websocket::{Message as WsMessage, MessageIn as WsIn, MessageOut as WsOut};
use laplace::route::Route;
use laplace::wire::WireError;

fn cat(parts: Vec<Vec<u8>>) -> Vec<u8> {
    parts.into_iter().flatten().collect()
}

fn sample_routes() -> Vec<Route> {
    vec![
        Route::Http(HttpMessage::new("page".to_string())),
        Route::Websocket(WsOut { id: "w1".to_string(), msg: WsMessage::Binary(vec![9, 8]) }),
        Route::Gossipsub(P2pOut {
            id: "g1".to_string(),
            msg: P2pMessage::Text { peer_id: "peer".to_string(), msg: "hi".to_string() },
        }),
        Route::Gossipsub(P2pOut { id: "g2".to_string(), msg: P2pMessage::Dial("peer2".to_string()) }),
        Route::Websocket(WsOut { id: "w2".to_string(), msg: WsMessage::Close }),
    ]
}

#[test]
fn routes_bytes_match_borsh_layout() {
    let bytes = routes_to_vec(&sample_routes()).unwrap();
    let expected = cat(vec![
        borsh::to_vec(&5u32).unwrap(),
        borsh::to_vec(&(0u8, "page".to_string())).unwrap(),
        borsh::to_vec(&(1u8, "w1".to_string(), 1u8, vec![9u8, 8])).unwrap(),
        borsh::to_vec(&(2u8, "g1".to_string(), 2u8, "peer".to_string(), "hi".to_string())).unwrap(),
        borsh::to_vec(&(2u8, "g2".to_string(), 0u8, "peer2".to_string())).unwrap(),
        borsh::to_vec(&(1u8, "w2".to_string(), 2u8)).unwrap(),
    ]);
    assert_eq!(bytes, expected);
}

#[test]
fn routes_roundtrip() {
    let bytes = routes_to_vec(&sample_routes()).unwrap();
    let routes = routes_from_slice(&bytes).unwrap();
    assert_eq!(routes.len(), 5);
    assert!(matches!(&routes[0], Route::Http(m) if m.body == "page"));
    assert!(matches!(&routes[1], Route::Websocket(m) if m.id == "w1" && matches!(&m.msg, WsMessage::Binary(b) if *b == vec![9, 8])));
    assert!(matches!(&routes[2], Route::Gossipsub(m) if m.id == "g1"
        && matches!(&m.msg, P2pMessage::Text { peer_id, msg } if peer_id == "peer" && msg == "hi")));
    assert!(matches!(&routes[3], Route::Gossipsub(m) if matches!(&m.msg, P2pMessage::Dial(p) if p == "peer2")));
    assert!(matches!(&routes[4], Route::Websocket(m) if matches!(m.msg, WsMessage::Close)));
}

#[test]
fn empty_routes() {
    assert_eq!(routes_to_vec(&vec![]).unwrap(), vec![0, 0, 0, 0]);
    assert!(routes_from_slice(&[0, 0, 0, 0]).unwrap().is_empty());
}

#[test]
fn bad_routes_are_invalid() {
    assert!(matches!(routes_from_slice(&[]), Err(WireError::InvalidData)));
    assert!(matches!(routes_from_slice(&[1, 0, 0, 0]), Err(WireError::InvalidData)));
    assert!(matches!(routes_from_slice(&[1, 0, 0, 0, 3]), Err(WireError::InvalidData)));
    assert!(matches!(routes_from_slice(&[0, 0, 0, 0, 0]), Err(WireError::InvalidData)));
    let bad_utf8 = cat(vec![borsh::to_vec(&1u32).unwrap(), vec![0, 1, 0, 0, 0, 0xff]]);
    assert!(matches!(routes_from_slice(&bad_utf8), Err(WireError::InvalidData)));
}

#[test]
fn websocket_notices_match_borsh_layout() {
    let text = WsIn::Message(WsMessage::Text("hey".to_string()));
    assert_eq!(ws_message_in_to_vec(&text).unwrap(), borsh::to_vec(&(0u8, 0u8, "hey".to_string())).unwrap());
    let ok = WsIn::Response { id: "1".to_string(), result: Ok(()) };
    assert_eq!(ws_message_in_to_vec(&ok).unwrap(), borsh::to_vec(&(1u8, "1".to_string(), 1u8)).unwrap());
    let failed = WsIn::Response { id: "2".to_string(), result: Err("gone".to_string()) };
    assert_eq!(
        ws_message_in_to_vec(&failed).unwrap(),
        borsh::to_vec(&(1u8, "2".to_string(), 0u8, "gone".to_string())).unwrap()
    );
    assert_eq!(ws_message_in_to_vec(&WsIn::Timeout).unwrap(), vec![2]);
    assert_eq!(
        ws_message_in_to_vec(&WsIn::Error("e".to_string())).unwrap(),
        borsh::to_vec(&(3u8, "e".to_string())).unwrap()
    );
}

#[test]
fn websocket_notices_roundtrip() {
    let failed = WsIn::Response { id: "2".to_string(), result: Err("gone".to_string()) };
    let bytes = ws_message_in_to_vec(&failed).unwrap();
    assert!(matches!(ws_message_in_from_slice(&bytes).unwrap(),
        WsIn::Response { id, result: Err(e) } if id == "2" && e == "gone"));
    let bytes = ws_message_in_to_vec(&WsIn::Message(WsMessage::Close)).unwrap();
    assert!(matches!(ws_message_in_from_slice(&bytes).unwrap(), WsIn::Message(WsMessage::Close)));
    assert!(matches!(ws_message_in_from_slice(&[2, 0]), Err(WireError::InvalidData)));
    assert!(matches!(ws_message_in_from_slice(&[4]), Err(WireError::InvalidData)));
}

#[test]
fn p2p_notices_match_borsh_layout() {
    let text = P2pIn::Text { peer_id: "p".to_string(), msg: "m".to_string() };
    assert_eq!(p2p_message_in_to_vec(&text).unwrap(), borsh::to_vec(&(0u8, "p".to_string(), "m".to_string())).unwrap());
    let ok = P2pIn::Response { id: "1".to_string(), result: Ok(()) };
    assert_eq!(p2p_message_in_to_vec(&ok).unwrap(), borsh::to_vec(&(1u8, "1".to_string(), 1u8)).unwrap());
    let failed = P2pIn::Response {
        id: "2".to_string(),
        result: Err(P2pError { message: "no".to_string(), kind: ErrorKind::WrongMultiaddr }),
    };
    assert_eq!(
        p2p_message_in_to_vec(&failed).unwrap(),
        borsh::to_vec(&(1u8, "2".to_string(), 0u8, "no".to_string(), 3u8)).unwrap()
    );
}

#[test]
fn p2p_notices_roundtrip() {
    let failed = P2pIn::Response {
        id: "2".to_string(),
        result: Err(P2pError { message: "no".to_string(), kind: ErrorKind::Other }),
    };
    let bytes = p2p_message_in_to_vec(&failed).unwrap();
    match p2p_message_in_from_slice(&bytes).unwrap() {
        P2pIn::Response { id, result: Err(e) } => {
            assert_eq!(id, "2");
            assert_eq!(e.message, "no");
            assert_eq!(e.kind, ErrorKind::Other);
        },
        _ => panic!("expected a failed response"),
    }
    let bad_kind = borsh::to_vec(&(1u8, "2".to_string(), 0u8, "no".to_string(), 5u8)).unwrap();
    assert!(matches!(p2p_message_in_from_slice(&bad_kind), Err(WireError::InvalidData)));
}
