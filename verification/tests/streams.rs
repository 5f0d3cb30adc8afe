//! HTTP streams: who holds a source, when it expires, and what reads answer.
use cells::engine_api::{HttpResponse, HttpResponseWebSocket, WsTarget};
use cells::http_streams;
use cells::http_streams::{
    CloseStep, DomainClock, HttpSourceLeaseMode, HttpStreamActivityError, HttpStreamActivityKind,
    HttpStreamIds, HttpStreamState, HttpStreamTermination, HttpStreamTerminationReason,
    HttpSweepWait, HttpTeeSendOutcome, HttpTransferredEvent, RequestBodyGuard, SourcePoll, TeeStep,
    HTTP_STREAM_IDLE_TIMEOUT_MS, HTTP_STREAM_REGISTRATION_CLOSED,
};

type State = HttpStreamState<&'static str, &'static str>;

fn now(ms: u64) -> DomainClock {
    DomainClock::Now(ms)
}

fn registered(state: &mut State, ids: &mut HttpStreamIds, at: u64) -> u64 {
    state.register_source(ids, "source", now(at)).0.unwrap()
}

#[test]
fn a_source_is_read_and_read_again() {
    let mut state = State::new();
    let mut ids = HttpStreamIds::new();
    let id = registered(&mut state, &mut ids, 0);
    let (lease, source) = state.checkout_source(id, now(1)).result.unwrap();
    let busy = state.checkout_source(id, now(1)).result.err().unwrap();
    assert_eq!(busy, format!("HTTP stream {id} source is checked out"));
    let done = state.complete_pull(lease, source, Ok(Some(vec![1, 2])), now(2));
    assert!(matches!(done.answer, Ok(Some(bytes)) if bytes == [1, 2]));
    let (lease, source) = state.checkout_source(id, now(3)).result.unwrap();
    let done = state.complete_pull(lease, source, Ok(None), now(4));
    assert!(matches!(done.answer, Ok(None)));
}

#[test]
fn idle_sources_expire() {
    let mut state = State::new();
    let mut ids = HttpStreamIds::new();
    let id = registered(&mut state, &mut ids, 0);
    let late = state.checkout_source(id, now(HTTP_STREAM_IDLE_TIMEOUT_MS)).result.err().unwrap();
    assert_eq!(late, format!("HTTP stream {id} expired after 60 seconds of inactivity"));
    let gone = state.checkout_source(99, now(0)).result.err().unwrap();
    assert_eq!(gone, "HTTP stream 99 expired or is not registered");
    let other = registered(&mut state, &mut ids, 0);
    let (wait, drain) = state.sweep_step(now(HTTP_STREAM_IDLE_TIMEOUT_MS));
    assert!(matches!(wait, HttpSweepWait::Notification | HttpSweepWait::Exit));
    assert_eq!(drain.sources.len(), 1);
    assert_eq!(drain.sources[0].0, other);
}

#[test]
fn claimed_sources_wait_for_their_claims() {
    let mut state = State::new();
    let mut ids = HttpStreamIds::new();
    let id = registered(&mut state, &mut ids, 0);
    let (claim, _) = state.claim(id, now(1));
    let mut guard = RequestBodyGuard::of(claim);
    let refused = guard.take_stream(&mut state, id + 1, now(2)).err().unwrap();
    assert_eq!(
        refused,
        format!("body stream {} does not match ownership claim {id}", id + 1)
    );
    let (out, unspent) =
        guard.take_stream(&mut state, id, now(HTTP_STREAM_IDLE_TIMEOUT_MS * 2)).ok().unwrap();
    assert!(out.result.is_ok());
    assert!(unspent.is_none());
    assert_eq!(
        guard.take_stream(&mut state, id, now(3)).err(),
        Some(format!("body stream {id} is not registered"))
    );
    assert!(guard.disarm().is_none());
}

#[test]
fn the_last_claim_cancels() {
    let mut state = State::new();
    let mut ids = HttpStreamIds::new();
    let id = registered(&mut state, &mut ids, 0);
    let (claim, _) = state.claim(id, now(1));
    let (_, drain) = state.release_claim(claim.unwrap());
    assert_eq!(drain.sources.len(), 1);
    assert!(state.checkout_source(id, now(2)).result.is_err());
}

#[test]
fn closed_services_take_nothing() {
    let mut state = State::new();
    let mut ids = HttpStreamIds::new();
    registered(&mut state, &mut ids, 0);
    let drain = state.close();
    assert_eq!(drain.sources.len(), 1);
    let (id, _) = state.register_source(&mut ids, "source", now(0));
    assert_eq!(id, None);
    let (id, _) = state.register_body_stream(&mut ids, "source", now(0));
    assert_eq!(id, Err(HTTP_STREAM_REGISTRATION_CLOSED.to_string()));
    let mut open = State::new();
    assert_eq!(open.register_body_stream(&mut ids, "source", now(0)).0, Ok(4));
}

#[test]
fn writers_are_active_one_close_at_a_time() {
    let mut state = State::new();
    let mut ids = HttpStreamIds::new();
    let id = state.register_response_pair(&mut ids, "rx", "tx", now(0)).0.unwrap();
    let (close, _) = state.begin_activity(id, HttpStreamActivityKind::Close, now(1));
    let close = close.ok().unwrap();
    let (second, _) = state.begin_activity(id, HttpStreamActivityKind::Close, now(1));
    assert!(matches!(second, Err(HttpStreamActivityError::Closing)));
    state.abandon_activity(close);
    let (write, _) = state.begin_activity(id, HttpStreamActivityKind::Write, now(2));
    assert_eq!(state.finish_activity(write.ok().unwrap(), false, now(3)), None);
    let (close, _) = state.begin_activity(id, HttpStreamActivityKind::Close, now(4));
    assert_eq!(state.finish_activity(close.ok().unwrap(), true, now(5)), Some("tx"));
    let (gone, _) = state.begin_activity(id, HttpStreamActivityKind::Write, now(6));
    assert!(matches!(gone, Err(HttpStreamActivityError::Gone)));
}

#[test]
fn transferred_sources_end_with_their_lease() {
    let mut state = State::new();
    let mut ids = HttpStreamIds::new();
    let id = registered(&mut state, &mut ids, 0);
    let (lease, _) = state.checkout_transfer(id, None, now(1)).result.unwrap();
    assert!(lease.mode == HttpSourceLeaseMode::Transfer);
    let event = state.poll_event(lease, SourcePoll::Chunk(vec![1]), now(2));
    assert!(matches!(event, Some(HttpTransferredEvent::Chunk(bytes)) if bytes == [1]));
    state.cancel_source(id);
    let event = state.poll_event(lease, SourcePoll::Chunk(vec![2]), now(3));
    assert!(matches!(event, Some(HttpTransferredEvent::Terminated(_))));
}

#[test]
fn the_first_end_stands() {
    let mut end = HttpStreamTermination::new();
    assert!(end.poll_reason().is_none());
    end.commit(HttpStreamTerminationReason::Finished);
    end.commit(HttpStreamTerminationReason::Cancelled);
    assert!(end.reason() == HttpStreamTerminationReason::Finished);
}

#[test]
fn tees_go_on_while_a_branch_is_open() {
    assert!(matches!(
        http_streams::reserve_http_tee_send(Some(true), HttpStreamTerminationReason::Live),
        HttpTeeSendOutcome::Sent
    ));
    let kept = http_streams::fan_out_http_tee_item(
        HttpTeeSendOutcome::Sent,
        HttpTeeSendOutcome::BranchClosed,
    );
    assert_eq!(kept, Some((true, false)));
    let event = HttpTransferredEvent::Chunk(vec![]);
    assert!(matches!(http_streams::tee_step(Some(&event), kept), TeeStep::Continue));
    let end = HttpTransferredEvent::End;
    assert!(matches!(http_streams::tee_step(Some(&end), None), TeeStep::Finish));
    let mut state = State::new();
    let mut ids = HttpStreamIds::new();
    let tee = state.prepare_http_stream_tee(&mut ids, "a", "b", now(0), now(0));
    assert_eq!(tee.branches, Ok((1, 2)));
}

#[test]
fn drains_are_disposed_in_order() {
    let mut state = State::new();
    let mut ids = HttpStreamIds::new();
    for _ in 0..3 {
        registered(&mut state, &mut ids, 0);
    }
    let drain = state.close().disposal_order();
    let order: Vec<u64> = drain.sources.iter().map(|entry| entry.0).collect();
    assert_eq!(order, [1, 2, 3]);
    let mut first: Option<u8> = None;
    assert_eq!(http_streams::retain_first_http_cleanup_panic(&mut first, Err(1)), None);
    assert_eq!(http_streams::retain_first_http_cleanup_panic(&mut first, Err(2)), Some(2));
    assert_eq!(first, Some(1));
}

#[test]
fn response_streams_close_after_their_error() {
    assert!(http_streams::response_stream_close("", false) == CloseStep::PublishFinished);
    assert!(http_streams::response_stream_close("x", false) == CloseStep::SendErrorFirst);
    assert!(http_streams::response_stream_close("x", true) == CloseStep::CancelPair);
    assert!(http_streams::response_stream_write(None).is_err());
    assert_eq!(http_streams::response_stream_write(Some(vec![1])), Ok(vec![1]));
}

fn response(
    body: Vec<u8>,
    stream: Option<&'static str>,
) -> HttpResponse<&'static str, &'static str> {
    HttpResponse {
        status: 200,
        body,
        stream,
        headers: vec![("a".into(), "b".into())],
        websocket: Some(HttpResponseWebSocket::Cell(WsTarget {
            id: 4,
            scope: "cell".into(),
            tunnel: None,
        })),
        write_position: None,
        observed_position: None,
    }
}

#[test]
fn responses_are_encoded_for_isolates() {
    let mut state = State::new();
    let mut ids = HttpStreamIds::new();
    let mut encode = |body: Vec<u8>, stream, target, clock| {
        http_streams::encode_http_response(
            response(body, stream),
            target,
            &mut state,
            &mut ids,
            clock,
        )
        .0
    };
    assert_eq!(
        encode(b"hi".to_vec(), None, false, now(0)),
        Ok("{\"body\":\"hi\",\"headers\":[[\"a\",\"b\"]],\"status\":200}".to_string())
    );
    assert_eq!(
        encode(vec![255], None, false, now(0)),
        Ok("{\"bodyBytes\":[255],\"headers\":[[\"a\",\"b\"]],\"status\":200}".to_string())
    );
    assert_eq!(
        encode(vec![], Some("s"), true, now(0)),
        Ok("{\"headers\":[[\"a\",\"b\"]],\"status\":200,\"streamId\":1,\
            \"wsTarget\":{\"id\":4,\"scope\":\"cell\"}}"
            .to_string())
    );
    assert_eq!(
        encode(vec![], Some("s"), false, DomainClock::Lost),
        Err(HTTP_STREAM_REGISTRATION_CLOSED.to_string())
    );
}
