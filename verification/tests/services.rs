use laplace::route::gossipsub::{ErrorKind, Message as P2pMessage, MessageIn as P2pIn, MessageOut as P2pOut};
use laplace::route::http::Message as HttpMessage;
use laplace::route::websocket::{Message as WsMessage, MessageIn as WsIn, MessageOut as WsOut};
use laplace::route::Route;
use laplace::service::gossipsub::{
    answer_requests, gossip_to_lapp, p2p_outcome, p2p_reply, p2p_result, DialPlan, Error as P2pError, P2pOutcome, PeerBook,
};
use laplace::error::ServerError;
use laplace::manager::LappsManager;
use laplace::service::lapp::{process_routes, service_result, RouteAction, ServiceAction, ServiceEvent, ServiceState};
use laplace::service::websocket::{
    client_timeout_nanos, handle_heartbeat, handle_service_message, handle_ws_message, heartbeat_interval_secs,
    ws_send_report, Frame, HeartbeatAction,
};
use laplace::service::Addr;

fn ws_out(id: &str, text: &str) -> WsOut {
    WsOut { id: id.to_string(), msg: WsMessage::new_text(text.to_string()) }
}

fn p2p_out(id: &str) -> P2pOut {
    P2pOut { id: id.to_string(), msg: P2pMessage::Close }
}

#[test]
fn addr_names_its_lapp() {
    assert_eq!(String::from(Addr::Lapp("notes".to_string())), "notes");
    let addr = Addr::Lapp("chat".to_string());
    assert_eq!(addr.as_lapp_name(), "chat");
    assert_eq!(addr.into_lapp_name(), "chat");
}

#[test]
fn route_messages() {
    assert_eq!(HttpMessage::new("b".to_string()).body, "b");
    assert!(matches!(WsMessage::new_text("t".to_string()), WsMessage::Text(t) if t == "t"));
}

#[test]
fn routes_go_where_connections_are() {
    let routes = vec![
        Route::Http(HttpMessage::new("x".to_string())),
        Route::Websocket(ws_out("1", "hi")),
        Route::Gossipsub(p2p_out("2")),
    ];
    let actions = process_routes(routes, true, false);
    assert_eq!(actions.len(), 3);
    assert!(matches!(&actions[0], RouteAction::UnexpectedHttp(m) if m.body == "x"));
    assert!(matches!(&actions[1], RouteAction::SendWebsocket(m) if m.id == "1"));
    assert!(matches!(&actions[2], RouteAction::GossipsubMissing(m) if m.id == "2"));

    let actions = process_routes(vec![Route::Websocket(ws_out("3", "a")), Route::Gossipsub(p2p_out("4"))], false, true);
    assert!(matches!(&actions[0], RouteAction::WebsocketMissing(m) if m.id == "3"));
    assert!(matches!(&actions[1], RouteAction::SendGossipsub(m) if m.id == "4"));
    assert!(process_routes(vec![], true, true).is_empty());
}

#[test]
fn lapp_service_steps() {
    let state = ServiceState::new(true);
    assert!(state.running && !state.has_websocket && !state.has_gossipsub);
    let (state, action) = state.step(ServiceEvent::NewWebsocket);
    assert_eq!(action, ServiceAction::Connect);
    assert!(state.has_websocket && !state.has_gossipsub);
    let (state, action) = state.step(ServiceEvent::Websocket);
    assert_eq!(action, ServiceAction::RouteWebsocket);
    assert!(state.has_websocket);
    let (state, action) = state.step(ServiceEvent::NewGossipsub);
    assert_eq!(action, ServiceAction::Connect);
    assert!(state.has_websocket && state.has_gossipsub);
    assert_eq!(state.step(ServiceEvent::Http).1, ServiceAction::ProcessHttp);
    assert_eq!(state.step(ServiceEvent::Gossipsub).1, ServiceAction::RouteGossipsub);
    let (stopped, action) = state.step(ServiceEvent::Stop);
    assert_eq!(action, ServiceAction::Stop);
    assert!(!stopped.running);
    assert_eq!(stopped.step(ServiceEvent::Http), (stopped, ServiceAction::Ignore));
}

#[test]
fn lapp_service_without_instance_handles_nothing() {
    let state = ServiceState::new(false);
    for event in [ServiceEvent::Http, ServiceEvent::NewWebsocket, ServiceEvent::Gossipsub, ServiceEvent::Stop] {
        assert_eq!(state.step(event), (state, ServiceAction::Ignore));
    }
}

#[test]
fn lapp_service_start_results() {
    assert!(service_result(Some(Ok(())), "chat").is_ok());
    assert!(matches!(service_result(Some(Err(ServerError::LappNotFound("x".to_string()))), "chat"),
        Err(ServerError::LappNotFound(n)) if n == "x"));
    match service_result(None, "chat") {
        Err(ServerError::LappInitError(text)) => assert_eq!(text, "Lapp service for lapp \"chat\" is dropped"),
        other => panic!("unexpected {other:?}"),
    }
    assert_eq!(LappsManager::started_sender(Ok(()), 7u8).unwrap(), 7);
    assert!(matches!(LappsManager::started_sender(Err(ServerError::ResultNotParsed), 7u8), Err(ServerError::ResultNotParsed)));
}

#[test]
fn websocket_frames() {
    let out = handle_ws_message(Ok(Frame::Text("hi".to_string())));
    assert!(matches!(out.to_lapp, Some(WsIn::Message(WsMessage::Text(t))) if t == "hi"));
    assert!(!out.alive && !out.stop);
    let out = handle_ws_message(Ok(Frame::Binary(vec![1, 2])));
    assert!(matches!(out.to_lapp, Some(WsIn::Message(WsMessage::Binary(b))) if b == vec![1, 2]));
    let out = handle_ws_message(Ok(Frame::Ping(vec![])));
    assert!(out.to_lapp.is_none() && out.alive && !out.stop);
    let out = handle_ws_message(Ok(Frame::Pong(vec![])));
    assert!(out.to_lapp.is_none() && out.alive && !out.stop);
    let out = handle_ws_message(Ok(Frame::Close));
    assert!(matches!(out.to_lapp, Some(WsIn::Message(WsMessage::Close))));
    assert!(out.stop);
    let out = handle_ws_message(Err("broken".to_string()));
    assert!(out.to_lapp.is_none() && out.stop);
}

#[test]
fn websocket_heartbeat() {
    assert_eq!(heartbeat_interval_secs(), 1);
    assert_eq!(client_timeout_nanos(), 10_000_000_000);
    assert_eq!(handle_heartbeat(10_000_000_000), HeartbeatAction::Ping);
    assert_eq!(handle_heartbeat(10_000_000_001), HeartbeatAction::Timeout);
    assert_eq!(handle_heartbeat(0), HeartbeatAction::Ping);
}

#[test]
fn websocket_messages_to_client() {
    let (id, frame) = handle_service_message(ws_out("7", "hello"));
    assert_eq!(id, "7");
    assert!(matches!(frame, Frame::Text(t) if t == "hello"));
    let (_, frame) = handle_service_message(WsOut { id: "8".to_string(), msg: WsMessage::Close });
    assert!(matches!(frame, Frame::Close));
}

#[test]
fn websocket_send_reports() {
    let (report, go_on) = ws_send_report(Some("1".to_string()), Ok(()));
    assert!(go_on);
    assert!(matches!(report, Some(WsIn::Response { id, result: Ok(()) }) if id == "1"));
    let (report, go_on) = ws_send_report(Some("2".to_string()), Err("e".to_string()));
    assert!(!go_on);
    assert!(matches!(report, Some(WsIn::Response { id, result: Err(e) }) if id == "2" && e == "e"));
    let (report, go_on) = ws_send_report(None, Ok(()));
    assert!(report.is_none() && go_on);
    let (report, go_on) = ws_send_report(None, Err("x".to_string()));
    assert!(!go_on);
    assert!(matches!(report, Some(WsIn::Error(e)) if e == "x"));
}

#[test]
fn peer_book_records_discoveries() {
    let mut book = PeerBook::new();
    assert!(book.first_address("p1").is_none());
    book.discovered("p1".to_string(), "/ip4/10.0.0.1/tcp/4001".to_string());
    book.discovered("p1".to_string(), "/ip4/10.0.0.2/tcp/4001".to_string());
    book.discovered("p1".to_string(), "/ip4/10.0.0.1/tcp/4001".to_string());
    book.discovered("p2".to_string(), "/ip4/10.0.0.3/tcp/4001".to_string());
    assert_eq!(book.first_address("p1").unwrap(), "/ip4/10.0.0.1/tcp/4001");
    assert_eq!(book.first_address("p2").unwrap(), "/ip4/10.0.0.3/tcp/4001");
    book.expired("p1");
    assert!(book.first_address("p1").is_none());
    assert_eq!(book.first_address("p2").unwrap(), "/ip4/10.0.0.3/tcp/4001");
    book.expired("none");
    assert!(book.first_address("p2").is_some());
}

#[test]
fn dial_plans() {
    let mut book = PeerBook::new();
    book.discovered("p1".to_string(), "/ip4/10.0.0.1/tcp/4001".to_string());
    let ports = vec![4001u16, 4002];
    match book.plan_dial(Ok("p1".to_string()), &ports) {
        DialPlan::Dial { address, ports } => {
            assert_eq!(address, "/ip4/10.0.0.1/tcp/4001");
            assert_eq!(ports, vec![4001, 4002]);
        },
        _ => panic!("expected a dial"),
    }
    assert!(matches!(book.plan_dial(Ok("p9".to_string()), &ports), DialPlan::NoAddress));
    assert!(matches!(book.plan_dial(Err("bad id".to_string()), &ports), DialPlan::BadPeerId(e) if e == "bad id"));
}

#[test]
fn gossip_reaches_lapp_on_its_topic() {
    assert!(matches!(
        gossip_to_lapp(true, "p1".to_string(), "hello".to_string()),
        Some(P2pIn::Text { peer_id, msg }) if peer_id == "p1" && msg == "hello"
    ));
    assert!(gossip_to_lapp(false, "p1".to_string(), "hello".to_string()).is_none());
}

#[test]
fn p2p_replies() {
    let (reply, stop) = p2p_reply("1".to_string(), Ok(false));
    assert!(!stop);
    assert!(matches!(reply, P2pIn::Response { id, result: Ok(()) } if id == "1"));
    let (reply, stop) = p2p_reply("2".to_string(), Ok(true));
    assert!(stop);
    assert!(matches!(reply, P2pIn::Response { result: Ok(()), .. }));
    let (reply, stop) = p2p_reply("3".to_string(), Err(P2pError::DialError("no addresses".to_string())));
    assert!(!stop);
    match reply {
        P2pIn::Response { id, result: Err(e) } => {
            assert_eq!(id, "3");
            assert_eq!(e.message, "Dial error: no addresses");
            assert_eq!(e.kind, ErrorKind::DialError);
        },
        _ => panic!("expected an error response"),
    }
}

#[test]
fn p2p_error_kinds_and_messages() {
    let cases = [
        (P2pError::GossipsubPublishError("a".to_string()), ErrorKind::GossipsubPublishError, "Gossipsub publish error: a"),
        (P2pError::ParsePeerIdError("b".to_string()), ErrorKind::ParsePeerIdError, "Parse peer ID error: b"),
        (P2pError::WrongMultiaddr("c".to_string()), ErrorKind::WrongMultiaddr, "Wrong multiaddr: c"),
        (P2pError::Io("d".to_string()), ErrorKind::Other, "I/O error: d"),
        (P2pError::NoiseError("e".to_string()), ErrorKind::Other, "Noise error: e"),
    ];
    for (error, kind, message) in cases {
        assert_eq!(error.to_string(), message);
        let wasm = error.into_wasm_error();
        assert_eq!(wasm.kind, kind);
        assert_eq!(wasm.message, message);
    }
}

#[test]
fn p2p_request_outcomes() {
    let dial = DialPlan::Dial { address: "/ip4/1.2.3.4/tcp/1".to_string(), ports: vec![1] };
    assert_eq!(p2p_outcome(&P2pMessage::Close, None, false, false), P2pOutcome::Stop);
    let text = P2pMessage::Text { peer_id: "p".to_string(), msg: "m".to_string() };
    assert_eq!(p2p_outcome(&text, None, false, true), P2pOutcome::Continue);
    assert_eq!(p2p_outcome(&text, None, false, false), P2pOutcome::Failed(ErrorKind::GossipsubPublishError));
    let d = P2pMessage::Dial("p".to_string());
    assert_eq!(p2p_outcome(&d, Some(&dial), false, true), P2pOutcome::Continue);
    assert_eq!(p2p_outcome(&d, Some(&dial), false, false), P2pOutcome::Failed(ErrorKind::DialError));
    assert_eq!(p2p_outcome(&d, Some(&DialPlan::NoAddress), false, true), P2pOutcome::Failed(ErrorKind::DialError));
    assert_eq!(
        p2p_outcome(&d, Some(&DialPlan::BadPeerId("x".to_string())), false, true),
        P2pOutcome::Failed(ErrorKind::ParsePeerIdError)
    );
    let add = P2pMessage::AddAddress("nope".to_string());
    assert_eq!(p2p_outcome(&add, None, false, true), P2pOutcome::Failed(ErrorKind::WrongMultiaddr));
    assert_eq!(p2p_outcome(&add, None, true, true), P2pOutcome::Continue);
    assert_eq!(p2p_outcome(&add, None, true, false), P2pOutcome::Failed(ErrorKind::DialError));
}

#[test]
fn p2p_outcome_results() {
    assert!(matches!(p2p_result(P2pOutcome::Stop, String::new()), Ok(true)));
    assert!(matches!(p2p_result(P2pOutcome::Continue, String::new()), Ok(false)));
    let e = p2p_result(P2pOutcome::Failed(ErrorKind::WrongMultiaddr), "bad".to_string()).unwrap_err();
    assert_eq!(e.to_string(), "Wrong multiaddr: bad");
    let e = p2p_result(P2pOutcome::Failed(ErrorKind::ParsePeerIdError), "id".to_string()).unwrap_err();
    assert_eq!(e.into_wasm_error().kind, ErrorKind::ParsePeerIdError);
}

#[test]
fn p2p_requests_answered_until_close() {
    let requests = vec![
        ("1".to_string(), Ok(false)),
        ("2".to_string(), Err(P2pError::DialError("no".to_string()))),
        ("3".to_string(), Ok(true)),
        ("4".to_string(), Ok(false)),
    ];
    let answers = answer_requests(requests);
    assert_eq!(answers.len(), 3);
    assert!(matches!(&answers[0], P2pIn::Response { id, result: Ok(()) } if id == "1"));
    assert!(matches!(&answers[1], P2pIn::Response { id, result: Err(e) } if id == "2" && e.kind == ErrorKind::DialError));
    assert!(matches!(&answers[2], P2pIn::Response { id, result: Ok(()) } if id == "3"));
    assert_eq!(answer_requests(vec![("a".to_string(), Ok(false))]).len(), 1);
    assert!(answer_requests(vec![]).is_empty());
}

#[test]
fn peer_book_events() {
    let mut book = PeerBook::new();
    book.discovered_all(vec![
        ("p1".to_string(), "/a".to_string()),
        ("p2".to_string(), "/b".to_string()),
        ("p1".to_string(), "/c".to_string()),
        ("p1".to_string(), "/a".to_string()),
    ]);
    assert_eq!(book.first_address("p1").unwrap(), "/a");
    assert_eq!(book.first_address("p2").unwrap(), "/b");
    book.expired_all(&vec!["p1".to_string(), "p9".to_string()]);
    assert!(book.first_address("p1").is_none());
    assert_eq!(book.first_address("p2").unwrap(), "/b");
}
