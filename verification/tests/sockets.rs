//! WebSockets: frames held and captured, the registry, and a worker's sockets.
use cells::engine_api::WsTarget;
use cells::websocket;
use cells::websocket::{
    Connected, EgressPolicy, EventSockets, Polled, PromiseState,
};
use cells::ws_flush::{Verdict, WsFlushState};
use cells::ws_frames::WsOut;
use cells::ws_registry;
use cells::ws_registry::{
    DeclinedUpgrade, OutboundWsOpen, WebSocketService, WsChannel, WsIn, WsPull, WsPullSendState,
};

type Service = WebSocketService<&'static str, &'static str, &'static str>;

fn service() -> Service {
    WebSocketService::new()
}

fn frame(t: &str) -> WsOut {
    WsOut::Text(t.into())
}

fn shown(frames: &[(u64, WsOut)]) -> Vec<(u64, String)> {
    frames
        .iter()
        .map(|(id, out)| {
            let text = match out {
                WsOut::Text(t) => t.clone(),
                WsOut::Binary(b) => format!("{} bytes", b.len()),
                WsOut::Close(code, reason) => format!("close {code} {reason}"),
            };
            (*id, text)
        })
        .collect()
}

fn row(id: u64, t: &str) -> (u64, String) {
    (id, t.to_string())
}

#[test]
fn held_frames_leave_in_order() {
    let mut state = WsFlushState::new();
    let (first, now) = state.emit_or_defer(vec![(1, frame("a")), (2, frame("x"))], true);
    assert!(now.is_empty());
    let (second, now) = state.emit_or_defer(vec![(1, frame("b"))], true);
    assert!(now.is_empty());
    let (none, now) = state.emit_or_defer(vec![(1, frame("c")), (3, frame("y"))], false);
    assert!(none.is_none());
    assert_eq!(shown(&now), [row(3, "y")]);
    assert_eq!(state.held_count(1), 3);
    assert!(!state.flushed(1));
    let sent = state.release(second.unwrap(), Verdict::Released);
    assert!(sent.is_empty());
    let sent = state.release(first.unwrap(), Verdict::Released);
    let to_one: Vec<String> =
        shown(&sent).into_iter().filter(|f| f.0 == 1).map(|f| f.1).collect();
    assert_eq!(to_one, ["a", "b", "c"]);
    assert!(state.all_flushed());
}

#[test]
fn refused_frames_close_their_socket() {
    let mut state = WsFlushState::new();
    let (guard, _) = state.emit_or_defer(vec![(1, frame("a"))], true);
    let sent = shown(&state.release(guard.unwrap(), Verdict::Refused));
    assert_eq!(sent.len(), 1);
    assert!(sent[0].1.starts_with("close "));
    let (guard, _) = state.emit_or_defer(vec![(2, frame("a"))], true);
    state.abandon(guard.unwrap());
    assert!(state.flushed(2));
}

#[test]
fn early_frames_wait_for_their_output() {
    let mut service = service();
    let id = ws_registry::ws_next_id(&mut service);
    ws_registry::ws_accept(&mut service, id, "cell", vec!["t".into()]);
    let (_, sent) = ws_registry::ws_send(&mut service, vec![(id, frame("early"))], false);
    assert!(sent.is_empty());
    let pending = ws_registry::ws_register(&mut service, id, "out");
    assert_eq!(pending.len(), 1);
    let (_, sent) = ws_registry::ws_send(&mut service, vec![(id, frame("late"))], false);
    assert_eq!(shown(&sent), [row(id, "late")]);
    assert_eq!(ws_registry::ws_hibernatable(&service, id), Some(true));
    ws_registry::ws_unregister(&mut service, id);
    assert_eq!(ws_registry::ws_hibernatable(&service, id), None);
}

#[test]
fn regular_sockets_are_counted() {
    let mut service = service();
    ws_registry::ws_accept_regular(&mut service, 1, "cell");
    ws_registry::ws_accept_regular(&mut service, 2, "cell");
    assert!(ws_registry::has_regular_websocket(&service, "cell"));
    ws_registry::ws_accept(&mut service, 1, "cell", vec![]);
    assert!(ws_registry::has_regular_websocket(&service, "cell"));
    ws_registry::ws_unregister(&mut service, 2);
    assert!(!ws_registry::has_regular_websocket(&service, "cell"));
    assert!(ws_registry::ws_channel(&service, 1) == WsChannel::Hibernatable);
    assert!(ws_registry::ws_channel(&service, 9) == WsChannel::Own);
}

#[test]
fn auto_responses_answer_for_the_cell() {
    let mut service = service();
    ws_registry::ws_accept(&mut service, 1, "cell", vec![]);
    assert_eq!(websocket::ws_auto_response_get(&service, "cell"), "null");
    ws_registry::ws_auto_response_set(&mut service, "cell", Some(("ping".into(), "pong".into())));
    assert_eq!(websocket::ws_auto_response_get(&service, "cell"), "[\"ping\",\"pong\"]");
    assert_eq!(
        ws_registry::ws_auto_response(&mut service, "cell", 1, "ping", 77),
        Some("pong".to_string())
    );
    assert_eq!(ws_registry::ws_auto_response_ts(&service, 1), Some(77));
    assert_eq!(ws_registry::ws_auto_response(&mut service, "cell", 1, "hello", 78), None);
}

#[test]
fn scopes_are_closed_together() {
    let mut service = service();
    for id in [1, 2, 3] {
        ws_registry::ws_accept(&mut service, id, if id == 3 { "other" } else { "cell" }, vec![]);
        ws_registry::ws_register(&mut service, id, "out");
    }
    let sent = ws_registry::ws_close_scope(&mut service, "cell", 1012, "restart");
    let mut closed = shown(&sent);
    closed.sort();
    assert_eq!(closed, [row(1, "close 1012 restart"), row(2, "close 1012 restart")]);
}

#[test]
fn polled_events_are_framed() {
    assert_eq!(WsPull::Text("hi".into()).encode(), [0, b'h', b'i']);
    assert_eq!(WsPull::Binary(vec![9]).encode(), [1, 9]);
    let close = WsPull::Close(1006, "gone".into(), false).encode();
    assert_eq!(close[0], 3);
    assert!(matches!(ws_registry::pull_of(WsIn::Binary(vec![1])), WsPull::Binary(b) if b == [1]));
    let mut state = WsPullSendState::new();
    assert!(state.send(WsPull::Close(1000, String::new(), true)).is_ok());
    assert!(state.send(WsPull::Text("late".into())).is_err());
}

#[test]
fn missing_queues_read_as_abnormal_closes() {
    assert!(matches!(
        websocket::next_event(Polled::Unregistered),
        WsPull::Close(1006, reason, false) if reason == "socket is not registered"
    ));
    assert!(matches!(
        websocket::next_event(Polled::Ended),
        WsPull::Close(1006, reason, false) if reason.is_empty()
    ));
    assert!(matches!(
        websocket::next_event(Polled::Event(WsPull::Text("t".into()))),
        WsPull::Text(t) if t == "t"
    ));
}

#[test]
fn handlers_capture_what_they_send() {
    let mut service = service();
    ws_registry::ws_accept(&mut service, 1, "cell", vec![]);
    ws_registry::ws_register(&mut service, 1, "out");
    let mut event: EventSockets<u8> = EventSockets::new();
    let mut touched = vec![];
    event.ws_capture_begin();
    assert!(websocket::is_captured(&service, &event, 1));
    for text in ["a", "b"] {
        assert!(websocket::ws_emit(
            &mut service,
            &mut event,
            &mut touched,
            5,
            1,
            frame(text),
            true
        )
        .is_none());
    }
    assert_eq!(touched, [5]);
    assert!(event.ws_capture_flush(PromiseState::Pending).is_none());
    event.ws_capture_set_promise(8);
    assert_eq!(event.deciding(), Some(&8));
    assert!(event.ws_capture_flush(PromiseState::Fulfilled).is_none());
    let flushed = event.ws_capture_flush(PromiseState::Pending).unwrap();
    assert_eq!(shown(&flushed), [row(1, "a"), row(1, "b")]);
    websocket::ws_emit(&mut service, &mut event, &mut touched, 5, 1, frame("c"), true);
    assert_eq!(shown(&event.ws_capture_take()), [row(1, "c")]);
    assert!(event.ws_capture_take().is_empty());
}

#[test]
fn failed_handlers_lose_what_they_sent() {
    let mut service = service();
    ws_registry::ws_accept(&mut service, 1, "cell", vec![]);
    let mut event: EventSockets<u8> = EventSockets::new();
    let mut touched = vec![];
    event.ws_capture_begin();
    websocket::ws_emit(&mut service, &mut event, &mut touched, 5, 1, frame("a"), true);
    event.ws_capture_set_promise(8);
    assert!(event.ws_capture_flush(PromiseState::Rejected).is_none());
    assert!(event.ws_capture_take().is_empty());
    event.ws_capture_begin();
    event.ws_capture_discard();
    assert!(event.captures.is_empty());
}

#[test]
fn own_sockets_are_not_captured() {
    let mut service = service();
    ws_registry::ws_register_outbound(&mut service, 1, "cell");
    ws_registry::ws_register(&mut service, 1, "out");
    let mut event: EventSockets<u8> = EventSockets::new();
    let mut touched = vec![];
    event.ws_capture_begin();
    let (guard, sent) = websocket::ws_emit(
        &mut service,
        &mut event,
        &mut touched,
        5,
        1,
        frame("a"),
        false,
    )
    .unwrap();
    assert!(guard.is_none());
    assert_eq!(shown(&sent), [row(1, "a")]);
    assert!(touched.is_empty());
}

#[test]
fn requests_close_the_sockets_they_opened() {
    let mut service = service();
    let mut event: EventSockets<u8> = EventSockets::new();
    let mut touched = vec![];
    websocket::prepare_worker_websocket_handoff(&mut service, &mut event, 1, "rx", "tx");
    websocket::prepare_worker_websocket_handoff(&mut service, &mut event, 2, "rx", "tx");
    assert_eq!(event.opened, [1, 2]);
    assert_eq!(
        websocket::transfer_worker_websocket_handoff(&mut service, &mut event, 1),
        Some("tx")
    );
    assert_eq!(websocket::transfer_worker_websocket_handoff(&mut service, &mut event, 1), None);
    assert_eq!(event.opened, [2]);
    ws_registry::ws_register(&mut service, 2, "out");
    let (_, sent) = websocket::ws_close_request_socket(
        &mut service,
        &mut event,
        &mut touched,
        5,
        2,
        false,
    )
    .unwrap();
    assert_eq!(shown(&sent), [row(2, "close 1001 request ended")]);
    assert!(!ws_registry::ws_pull_registered(&service, 2));
    assert_eq!(ws_registry::ws_hibernatable(&service, 2), None);
}

#[test]
fn egress_decides_on_outbound_sockets() {
    assert_eq!(
        websocket::check_egress(EgressPolicy::Deny),
        Err("This worker is not permitted to access the internet via global functions."
            .to_string())
    );
    assert_eq!(
        websocket::connect_request(
            EgressPolicy::Broker,
            1,
            String::new(),
            "ws://x".into(),
            vec![]
        )
        .err(),
        Some("A globalOutbound Fetcher cannot broker WebSockets in celld.".to_string())
    );
    let asked = websocket::connect_request(
        EgressPolicy::Allow,
        1,
        "cell".into(),
        "ws://x".into(),
        vec!["p".into()],
    )
    .ok()
    .unwrap();
    assert!(!asked.pull && !asked.want_response);
}

#[test]
fn upgrades_name_their_protocols() {
    let headers = vec![
        ("X".to_string(), "1".to_string()),
        ("Sec-WebSocket-Protocol".to_string(), " a, b ,,c".to_string()),
        ("sec-websocket-protocol".to_string(), "later".to_string()),
    ];
    assert_eq!(websocket::upgrade_protocols(&headers), ["a", "b", "", "c"]);
    assert!(websocket::upgrade_protocols(&vec![]).is_empty());
    let request = websocket::upgrade_request(
        EgressPolicy::Allow,
        3,
        String::new(),
        "wss://x".into(),
        headers,
    )
    .ok()
    .unwrap();
    assert!(request.pull && request.want_response);
    assert_eq!(request.protocols.len(), 4);
}

#[test]
fn handed_over_lists_are_read() {
    let asked = websocket::upgrade_text(
        EgressPolicy::Allow,
        3,
        "cell".into(),
        "wss://x".into(),
        "[[\"Sec-WebSocket-Protocol\",\"a, b\"],[\"X\",\"\\u0031\"]]",
    )
    .ok()
    .unwrap();
    assert_eq!(asked.headers[1], ("X".to_string(), "1".to_string()));
    assert_eq!(asked.protocols, ["a", "b"]);
    assert!(!asked.pull && asked.want_response);
    let asked = websocket::connect_text(
        EgressPolicy::Allow,
        4,
        String::new(),
        "ws://x".into(),
        "[\"p\",\"q\"]",
    )
    .ok()
    .unwrap();
    assert_eq!(asked.protocols, ["p", "q"]);
    assert!(asked.pull && !asked.want_response && asked.headers.is_empty());
}

#[test]
fn unreadable_lists_are_refused() {
    let upgrade = |policy, text: &str| {
        websocket::upgrade_text(policy, 3, "cell".into(), "wss://x".into(), text).err().unwrap()
    };
    assert!(upgrade(EgressPolicy::Allow, "[[\"a\"]]")
        .starts_with("websocket: the upgrade headers are not a name/value list: "));
    assert_eq!(
        upgrade(EgressPolicy::Deny, "not a list"),
        "This worker is not permitted to access the internet via global functions."
    );
    let connect =
        websocket::connect_text(EgressPolicy::Allow, 4, "cell".into(), "ws://x".into(), "{}");
    assert!(connect
        .err()
        .unwrap()
        .starts_with("websocket: the subprotocol list is not a JSON array: "));
    let mut service = service();
    let accepted = websocket::accept_text(&mut service, 1, "cell", "[1]");
    assert!(accepted.unwrap_err().starts_with("websocket: the tag list is not a JSON array: "));
    assert!(ws_registry::ws_channel(&service, 1) == WsChannel::Own);
    assert_eq!(websocket::accept_text(&mut service, 1, "cell", "[\"t\"]"), Ok(()));
    assert!(ws_registry::ws_channel(&service, 1) == WsChannel::Hibernatable);
}

#[test]
fn connections_are_answered() {
    let open = || OutboundWsOpen { protocol: Some("p".into()), declined: None };
    assert_eq!(websocket::connect_reply(Connected::Opened(open())), Ok("p".to_string()));
    assert_eq!(
        websocket::upgrade_reply(Connected::Opened(open())),
        Ok("{\"protocol\":\"p\",\"upgraded\":true}".to_string())
    );
    let declined = OutboundWsOpen {
        protocol: None,
        declined: Some(DeclinedUpgrade {
            status: 404,
            headers: vec![("a".into(), "b".into())],
            body: vec![1, 255],
        }),
    };
    assert_eq!(
        websocket::upgrade_reply(Connected::Opened(declined)),
        Ok("{\"body\":[1,255],\"headers\":[[\"a\",\"b\"]],\"status\":404,\"upgraded\":false}"
            .to_string())
    );
    assert_eq!(
        websocket::bind_reply(Connected::Failed("x".into())),
        Err("WebSocket bind failed: x".to_string())
    );
    assert_eq!(
        websocket::connect_reply(Connected::Failed("x".into())),
        Err("WebSocket connection failed: x".to_string())
    );
    assert_eq!(
        websocket::upgrade_reply(Connected::Dropped("x".into())),
        Err("WebSocket connector dropped: x".to_string())
    );
    assert_eq!(
        websocket::upgrade_reply(Connected::Unsent),
        Err("no outbound WebSocket channel".to_string())
    );
}

#[test]
fn sockets_are_bound_to_targets() {
    let mut service = service();
    let mut event: EventSockets<u8> = EventSockets::new();
    let target = WsTarget { id: 9, scope: "cell".into(), tunnel: None };
    let request = websocket::bind_target(&mut service, &mut event, 4, target, "", "rx");
    assert_eq!(request.scope, "cell");
    assert!(request.pull);
    assert_eq!(event.opened, [4]);
    assert!(ws_registry::ws_pull_registered(&service, 4));
    websocket::adopt_pull(&mut service, &mut event, 5, "rx");
    assert_eq!(event.opened, [4, 5]);
}

#[test]
fn a_cells_sockets_are_listed() {
    let mut service = service();
    ws_registry::ws_accept(&mut service, 2, "cell", vec!["t".into()]);
    ws_registry::ws_accept(&mut service, 1, "cell", vec![]);
    ws_registry::ws_accept(&mut service, 3, "other", vec!["t".into()]);
    ws_registry::ws_accept_regular(&mut service, 4, "cell");
    ws_registry::ws_attachment_set(&mut service, 2, vec![7]);
    assert_eq!(
        websocket::ws_list(&service, "cell", None),
        "[{\"attachment\":null,\"id\":1,\"tags\":[]},\
         {\"attachment\":[7],\"id\":2,\"tags\":[\"t\"]}]"
    );
    assert_eq!(
        websocket::ws_list(&service, "cell", Some("t")),
        "[{\"attachment\":[7],\"id\":2,\"tags\":[\"t\"]}]"
    );
}

#[test]
fn workers_hand_over_socket_ids() {
    assert_eq!(websocket::socket_id(Some(-1)), u64::MAX);
    assert_eq!(websocket::socket_id(Some(i64::MIN)), 1 << 63);
    assert_eq!(websocket::socket_id(Some(5)), 5);
    assert_eq!(websocket::socket_id(None), 0);
    assert_eq!(websocket::close_code(None), 1000);
    assert_eq!(websocket::close_code(Some(65537)), 1);
    assert_eq!(
        websocket::unreadable("tag list is not a JSON array", "x"),
        "websocket: the tag list is not a JSON array: x"
    );
}
