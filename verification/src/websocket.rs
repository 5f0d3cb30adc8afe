//! WebSockets inside an isolate: what a worker asks of its sockets, and the
//! frames that wait until the handler that sent them may be heard.
//!
//! A socket outlives the event that opened it. Frames that a handler sends are
//! captured while it runs, and leave when it suspends or returns.
use vstd::prelude::*;
#[allow(unused_imports)]
use vstd::string::*;

use crate::engine_api::WsTarget;
use crate::json;
#[allow(unused_imports)]
use crate::json::{Json, JsonView};
#[allow(unused_imports)]
use crate::maps;
#[allow(unused_imports)]
use crate::text;
#[allow(unused_imports)]
use crate::ws_flush;
use crate::ws_flush::WsFlushGuard;
#[allow(unused_imports)]
use crate::ws_frames;
use crate::ws_frames::WsOut;
use crate::ws_registry;
#[allow(unused_imports)]
use crate::ws_registry::{
    DeclinedUpgrade, MetaView, OutboundWsOpen, RegistryView, WebSocketService, WsChannel, WsMeta,
    WsPull,
};

verus! {

// ---- what a worker hands over --------------------------------------------

/// A socket's id from what a worker hands over.
pub fn socket_id(value: Option<i64>) -> (r: u64)
    ensures
        r == (match value {
            Some(n) if n >= 0 => n as int,
            Some(n) => n + 18446744073709551616,
            None => 0int,
        }),
{
    match value {
        Some(n) => if n >= 0 {
            n as u64
        } else {
            18446744073709551615 - (-(n + 1)) as u64
        },
        None => 0,
    }
}

/// A close code from what a worker hands over: its last 16 bits, and 1000
/// where there is none.
pub fn close_code(value: Option<u32>) -> (r: u16)
    ensures
        r == (match value {
            Some(n) => n as int % 65536,
            None => 1000int,
        }),
{
    match value {
        Some(n) => (n % 65536) as u16,
        None => 1000,
    }
}

/// The error of a list that a worker hands over and that cannot be read.
pub fn unreadable(what: &str, error: &str) -> (r: String)
    ensures
        r@ == "websocket: the "@ + what@ + ": "@ + error@,
{
    let mut r = text::join3("websocket: the ", what, ": ");
    r.append(error);
    r
}

// ---- captured frames -----------------------------------------------------

/// How far a handler is.
#[derive(Clone, Copy, Debug, PartialEq, Eq, Structural)]
pub enum PromiseState {
    Pending,
    Fulfilled,
    Rejected,
}

/// The frames that a handler has sent. `H` is its promise, which is there once
/// the handler has returned it.
pub struct WsCapture<H> {
    pub frames: Vec<(u64, WsOut)>,
    pub promise: Option<H>,
}

/// What an event holds of sockets: those it opened, and the captures of the
/// handlers it runs, the innermost last.
pub struct EventSockets<H> {
    pub opened: Vec<u64>,
    pub captures: Vec<WsCapture<H>>,
}

impl<H> EventSockets<H> {
    pub fn new() -> (r: Self)
        ensures
            r.opened@ == Seq::<u64>::empty(),
            r.captures@ == Seq::<WsCapture<H>>::empty(),
    {
        EventSockets { opened: Vec::new(), captures: Vec::new() }
    }

    /// The captures around the innermost one.
    pub open spec fn outer(&self) -> Seq<WsCapture<H>> {
        self.captures@.drop_last()
    }

    /// Accounts a socket to the event that opened it.
    pub fn ws_track_request_socket(&mut self, id: u64)
        ensures
            final(self).opened@ == old(self).opened@.push(id),
            final(self).captures == old(self).captures,
    {
        self.opened.push(id);
    }

    /// Begins to capture what a handler sends.
    pub fn ws_capture_begin(&mut self)
        ensures
            final(self).opened == old(self).opened,
            final(self).captures@.len() == old(self).captures@.len() + 1,
            final(self).outer() == old(self).captures@,
            final(self).captures@.last().frames@ == Seq::<(u64, WsOut)>::empty(),
            final(self).captures@.last().promise is None,
    {
        self.captures.push(WsCapture { frames: Vec::new(), promise: None });
        assert(self.outer() =~= old(self).captures@);
    }

    /// Notes the promise that the handler has returned.
    pub fn ws_capture_set_promise(&mut self, promise: H)
        requires
            old(self).captures@.len() > 0,
        ensures
            final(self).opened == old(self).opened,
            final(self).captures@.len() == old(self).captures@.len(),
            final(self).outer() == old(self).outer(),
            final(self).captures@.last().frames@ == old(self).captures@.last().frames@,
            final(self).captures@.last().promise == Some(promise),
    {
        let ghost before = self.captures@;
        match self.captures.pop() {
            Some(capture) => {
                self.captures.push(WsCapture { frames: capture.frames, promise: Some(promise) });
            },
            None => {},
        }
        assert(self.outer() =~= before.drop_last());
    }

    /// Ends the innermost capture, and answers what it holds.
    pub fn ws_capture_take(&mut self) -> (r: Vec<(u64, WsOut)>)
        ensures
            final(self).opened == old(self).opened,
            if old(self).captures@.len() > 0 {
                &&& r@ == old(self).captures@.last().frames@
                &&& final(self).captures@ == old(self).outer()
            } else {
                &&& r@ == Seq::<(u64, WsOut)>::empty()
                &&& final(self).captures@ == old(self).captures@
            },
    {
        match self.captures.pop() {
            Some(capture) => capture.frames,
            None => Vec::new(),
        }
    }

    /// Ends the innermost capture, and drops what it holds.
    pub fn ws_capture_discard(&mut self)
        ensures
            final(self).opened == old(self).opened,
            final(self).captures@ == (if old(self).captures@.len() > 0 {
                old(self).outer()
            } else {
                old(self).captures@
            }),
    {
        let _ = self.captures.pop();
    }

    /// The promise that decides what becomes of what was captured so far.
    pub fn deciding(&self) -> (r: Option<&H>)
        ensures
            match r {
                Some(promise) => self.captures@.len() > 0 && self.captures@.last().promise == Some(
                    *promise,
                ),
                None => self.captures@.len() == 0 || self.captures@.last().promise is None,
            },
    {
        if self.captures.len() == 0 {
            return None;
        }
        match &self.captures[self.captures.len() - 1].promise {
            Some(promise) => Some(promise),
            None => None,
        }
    }

    /// Whether what was captured so far leaves.
    pub open spec fn flushes(&self, state: PromiseState) -> bool {
        &&& self.captures@.len() > 0
        &&& self.captures@.last().promise is Some
        &&& state == PromiseState::Pending
        &&& self.captures@.last().frames@.len() > 0
    }

    /// Releases what a handler that is suspended has sent so far. `state` is
    /// that of its promise. A handler that has returned leaves its frames to
    /// what follows it, and one that has failed loses them. The capture stays.
    pub fn ws_capture_flush(&mut self, state: PromiseState) -> (r: Option<Vec<(u64, WsOut)>>)
        ensures
            final(self).opened == old(self).opened,
            final(self).captures@.len() == old(self).captures@.len(),
            old(self).captures@.len() > 0 ==> final(self).outer() == old(self).outer(),
            old(self).captures@.len() > 0 ==> final(self).captures@.last().promise == old(
                self,
            ).captures@.last().promise,
            match r {
                Some(frames) => {
                    &&& old(self).flushes(state)
                    &&& frames@ == old(self).captures@.last().frames@
                    &&& final(self).captures@.last().frames@ == Seq::<(u64, WsOut)>::empty()
                },
                None => {
                    &&& !old(self).flushes(state)
                    &&& old(self).captures@.len() > 0 ==> final(self).captures@.last().frames@ == (
                    if old(self).captures@.last().promise is Some && state
                        == PromiseState::Rejected {
                        Seq::<(u64, WsOut)>::empty()
                    } else {
                        old(self).captures@.last().frames@
                    })
                },
            },
    {
        let ghost before = self.captures@;
        if self.deciding().is_none() {
            return None;
        }
        match state {
            PromiseState::Fulfilled => {
                return None;
            },
            PromiseState::Rejected => {
                match self.captures.pop() {
                    Some(capture) => {
                        self.captures.push(
                            WsCapture { frames: Vec::new(), promise: capture.promise },
                        );
                    },
                    None => {},
                }
                assert(self.outer() =~= before.drop_last());
                return None;
            },
            PromiseState::Pending => {},
        }
        match self.captures.pop() {
            Some(capture) => {
                if capture.frames.len() == 0 {
                    self.captures.push(capture);
                    assert(self.outer() =~= before.drop_last());
                    return None;
                }
                self.captures.push(WsCapture { frames: Vec::new(), promise: capture.promise });
                assert(self.outer() =~= before.drop_last());
                Some(capture.frames)
            },
            None => None,
        }
    }
}

/// Whether sending a batch leaves a service with a result: what
/// [`ws_registry::ws_send`] promises.
pub open spec fn sends<T, P, Q>(
    before: WebSocketService<T, P, Q>,
    after: WebSocketService<T, P, Q>,
    frames: Seq<(u64, WsOut)>,
    gated: bool,
    r: (Option<WsFlushGuard>, Vec<(u64, WsOut)>),
) -> bool {
    let end = ws_flush::Batch::start(before.flush.queues(), before.flush.next_token).with_all(
        frames,
        gated,
    );
    &&& after.next_id == before.next_id
    &&& after.auto_responses == before.auto_responses
    &&& after.pull == before.pull
    &&& after.flush.queues() == end.queues
    &&& after.flush.next_token == end.next_token
    &&& after.flush.flushes@ == ws_flush::counted(before.flush.flushes@, end.segments)
    &&& after.registry@ == before.registry@.emitted(end.direct)
    &&& r.1@ == before.registry@.passes(end.direct)
    &&& match r.0 {
        Some(guard) => guard.segments@ == end.segments && gated && frames.len() > 0,
        None => end.segments.len() == 0 && (!gated || frames.len() == 0),
    }
}

/// Whether a frame is captured: a handler runs, and the socket's messages are
/// the host's to push.
pub open spec fn captured<T, P, Q, H>(
    service: WebSocketService<T, P, Q>,
    event: EventSockets<H>,
    id: u64,
) -> bool {
    event.captures@.len() > 0 && service.registry@.hibernatable(id)
}

/// Whether a frame is captured, so that no gate decides on it yet.
pub fn is_captured<T, P, Q, H>(
    service: &WebSocketService<T, P, Q>,
    event: &EventSockets<H>,
    id: u64,
) -> (r: bool)
    ensures
        r == captured(*service, *event, id),
{
    event.captures.len() > 0 && ws_registry::ws_channel(service, id) == WsChannel::Hibernatable
}

/// The events whose captures received a frame in this turn, each once.
pub open spec fn touched_by(touched: Seq<u64>, event_id: u64) -> Seq<u64> {
    if touched.contains(event_id) {
        touched
    } else {
        touched.push(event_id)
    }
}

fn touch(touched: &mut Vec<u64>, event_id: u64)
    ensures
        final(touched)@ == touched_by(old(touched)@, event_id),
{
    let mut i: usize = 0;
    while i < touched.len()
        invariant
            i <= touched@.len(),
            touched@ == old(touched)@,
            forall|k: int| 0 <= k < i ==> touched@[k] != event_id,
        decreases touched.len() - i,
    {
        if touched[i] == event_id {
            assert(touched@[i as int] == event_id);
            return ;
        }
        i = i + 1;
    }
    touched.push(event_id);
}

/// Sends one frame of an event. It is captured, and the event noted as touched;
/// or else it is sent or held behind its gate.
pub fn ws_emit<T, P, Q, H>(
    service: &mut WebSocketService<T, P, Q>,
    event: &mut EventSockets<H>,
    touched: &mut Vec<u64>,
    event_id: u64,
    id: u64,
    out: WsOut,
    gated: bool,
) -> (r: Option<(Option<WsFlushGuard>, Vec<(u64, WsOut)>)>)
    requires
        old(service).wf(),
        old(service).flush.has_room(),
    ensures
        final(service).wf(),
        final(event).opened == old(event).opened,
        match r {
            None => {
                &&& captured(*old(service), *old(event), id)
                &&& *final(service) == *old(service)
                &&& final(event).captures@.len() == old(event).captures@.len()
                &&& final(event).outer() == old(event).outer()
                &&& final(event).captures@.last().promise == old(event).captures@.last().promise
                &&& final(event).captures@.last().frames@ == old(
                    event,
                ).captures@.last().frames@.push((id, out))
                &&& final(touched)@ == touched_by(old(touched)@, event_id)
            },
            Some(sent) => {
                &&& !captured(*old(service), *old(event), id)
                &&& *final(event) == *old(event)
                &&& *final(touched) == *old(touched)
                &&& sends(*old(service), *final(service), seq![(id, out)], gated, sent)
            },
        },
{
    if is_captured(service, event, id) {
        let ghost before = event.captures@;
        match event.captures.pop() {
            Some(capture) => {
                let mut frames = capture.frames;
                frames.push((id, out));
                event.captures.push(WsCapture { frames, promise: capture.promise });
            },
            None => {},
        }
        assert(event.outer() =~= before.drop_last());
        touch(touched, event_id);
        return None;
    }
    let mut frames: Vec<(u64, WsOut)> = Vec::new();
    frames.push((id, out));
    assert(frames@ =~= seq![(id, out)]);
    Some(ws_registry::ws_send(service, frames, gated))
}

// ---- the sockets of a request --------------------------------------------

/// Prepares a socket that a worker hands over: an isolate polls its queue, and
/// the sending end waits for whoever takes the socket. Answers the end that
/// waited before.
pub fn prepare_worker_websocket_handoff<T, P, Q, H>(
    service: &mut WebSocketService<T, P, Q>,
    event: &mut EventSockets<H>,
    id: u64,
    receiver: Q,
    inbound: P,
) -> (r: Option<P>)
    requires
        old(service).wf(),
    ensures
        final(service).wf(),
        final(service).pull@ == old(service).pull@.insert(id, receiver),
        final(service).next_id == old(service).next_id,
        final(service).auto_responses == old(service).auto_responses,
        final(service).flush == old(service).flush,
        final(service).registry@ == (RegistryView {
            metadata: if old(service).registry@.metadata.contains_key(id) {
                old(service).registry@.metadata
            } else {
                old(service).registry@.metadata.insert(
                    id,
                    ws_registry::blank_meta(""@, false, Seq::empty()),
                )
            },
            worker_handoffs: old(service).registry@.worker_handoffs.insert(id, inbound),
            ..old(service).registry@
        }),
        final(event).opened@ == old(event).opened@.push(id),
        final(event).captures == old(event).captures,
        match r {
            Some(inbound) => {
                &&& old(service).registry@.worker_handoffs.contains_key(id)
                &&& old(service).registry@.worker_handoffs[id] == inbound
            },
            None => !old(service).registry@.worker_handoffs.contains_key(id),
        },
{
    ws_registry::ws_pull_register(service, id, receiver);
    ws_registry::ws_register_outbound(service, id, "");
    event.ws_track_request_socket(id);
    service.registry.worker_handoffs.insert(id, inbound)
}

fn without(opened: &mut Vec<u64>, id: u64)
    ensures
        final(opened)@ == others(old(opened)@, id),
{
    let ghost all = opened@;
    let mut kept: Vec<u64> = Vec::new();
    let mut i: usize = 0;
    assert(all.take(0) =~= Seq::<u64>::empty());
    while i < opened.len()
        invariant
            i <= opened@.len(),
            opened@ == all,
            kept@ == others(all.take(i as int), id),
        decreases opened.len() - i,
    {
        proof {
            assert(all.take(i + 1).drop_last() =~= all.take(i as int));
            assert(all.take(i + 1).last() == all[i as int]);
        }
        if opened[i] != id {
            kept.push(opened[i]);
        }
        i = i + 1;
    }
    assert(all.take(i as int) =~= all);
    *opened = kept;
}

/// The ids but one, in order.
pub open spec fn others(ids: Seq<u64>, id: u64) -> Seq<u64>
    decreases ids.len(),
{
    if ids.len() == 0 {
        seq![]
    } else if ids.last() == id {
        others(ids.drop_last(), id)
    } else {
        others(ids.drop_last(), id).push(ids.last())
    }
}

/// Takes a socket that a worker hands over. It then no longer ends with the
/// request that opened it.
pub fn transfer_worker_websocket_handoff<T, P, Q, H>(
    service: &mut WebSocketService<T, P, Q>,
    event: &mut EventSockets<H>,
    id: u64,
) -> (r: Option<P>)
    requires
        old(service).wf(),
    ensures
        final(service).wf(),
        final(service).same_but_registry(old(service)),
        final(service).registry@ == (RegistryView {
            worker_handoffs: old(service).registry@.worker_handoffs.remove(id),
            ..old(service).registry@
        }),
        final(event).captures == old(event).captures,
        match r {
            Some(inbound) => {
                &&& old(service).registry@.worker_handoffs.contains_key(id)
                &&& old(service).registry@.worker_handoffs[id] == inbound
                &&& final(event).opened@ == others(old(event).opened@, id)
            },
            None => {
                &&& !old(service).registry@.worker_handoffs.contains_key(id)
                &&& final(event).opened == old(event).opened
            },
        },
{
    match service.registry.worker_handoffs.remove(id) {
        Some(inbound) => {
            without(&mut event.opened, id);
            Some(inbound)
        },
        None => None,
    }
}

/// A socket that was handed over is not among those that end with the request.
pub proof fn handed_over_socket_stays_open(opened: Seq<u64>, id: u64)
    ensures
        !others(opened, id).contains(id),
        forall|other: u64|
            other != id ==> (#[trigger] others(opened, id).contains(other) <==> opened.contains(
                other,
            )),
    decreases opened.len(),
{
    if opened.len() > 0 {
        let rest = opened.drop_last();
        let last = opened.last();
        handed_over_socket_stays_open(rest, id);
        let kept = others(rest, id);
        assert(opened =~= rest.push(last));
        assert forall|x: u64| rest.push(last).contains(x) <==> rest.contains(x) || x == last by {
            if rest.contains(x) {
                let i = choose|i: int| 0 <= i < rest.len() && rest[i] == x;
                assert(rest.push(last)[i] == x);
            }
            if x == last {
                assert(rest.push(last)[rest.len() as int] == x);
            }
        }
        assert forall|x: u64| kept.push(last).contains(x) <==> kept.contains(x) || x == last by {
            if kept.contains(x) {
                let i = choose|i: int| 0 <= i < kept.len() && kept[i] == x;
                assert(kept.push(last)[i] == x);
            }
            if x == last {
                assert(kept.push(last)[kept.len() as int] == x);
            }
        }
        assert forall|other: u64| other != id implies (#[trigger] others(opened, id).contains(
            other,
        ) <==> opened.contains(other)) by {
            assert(kept.contains(other) <==> rest.contains(other));
            assert(rest.push(last).contains(other) <==> rest.contains(other) || other == last);
            assert(kept.push(last).contains(other) <==> kept.contains(other) || other == last);
        }
    }
}

/// Whether the close of a request's socket is sent: it has an output.
pub open spec fn closes<T, P, Q>(service: WebSocketService<T, P, Q>, id: u64) -> bool {
    service.registry@.outputs.contains_key(id)
}

/// The service without the handover of a socket.
pub open spec fn drops_handoff<T, P, Q>(
    before: WebSocketService<T, P, Q>,
    after: WebSocketService<T, P, Q>,
    id: u64,
) -> bool {
    &&& after.same_but_registry(&before)
    &&& after.regular_counts == before.regular_counts
    &&& after.registry@ == (RegistryView {
        worker_handoffs: before.registry@.worker_handoffs.remove(id),
        ..before.registry@
    })
}

/// The service without a socket.
pub open spec fn forgets<T, P, Q>(
    before: WebSocketService<T, P, Q>,
    after: WebSocketService<T, P, Q>,
    id: u64,
) -> bool {
    &&& after.pull@ == before.pull@.remove(id)
    &&& after.next_id == before.next_id
    &&& after.auto_responses == before.auto_responses
    &&& after.flush == before.flush
    &&& after.registry@ == (RegistryView {
        outputs: before.registry@.outputs.remove(id),
        metadata: before.registry@.metadata.remove(id),
        ..before.registry@
    })
}

/// Closes one socket that a finished request opened and nobody took. The close
/// frame ends the connection, so it is sent before the socket is forgotten.
pub fn ws_close_request_socket<T, P, Q, H>(
    service: &mut WebSocketService<T, P, Q>,
    event: &mut EventSockets<H>,
    touched: &mut Vec<u64>,
    event_id: u64,
    id: u64,
    gated: bool,
) -> (r: Option<(Option<WsFlushGuard>, Vec<(u64, WsOut)>)>)
    requires
        old(service).wf(),
        old(service).flush.has_room(),
    ensures
        final(service).wf(),
        final(event).opened == old(event).opened,
        exists|dropped: WebSocketService<T, P, Q>, emitted: WebSocketService<T, P, Q>|
            {
                &&& #[trigger] drops_handoff(*old(service), dropped, id)
                &&& #[trigger] forgets(emitted, *final(service), id)
                &&& match r {
                    Some(sent) => {
                        &&& closes(*old(service), id)
                        &&& !captured(*old(service), *old(event), id)
                        &&& *final(event) == *old(event)
                        &&& *final(touched) == *old(touched)
                        &&& exists|out: WsOut|
                            {
                                &&& #[trigger] request_ended(out)
                                &&& sends(dropped, emitted, seq![(id, out)], gated, sent)
                            }
                    },
                    None => {
                        &&& emitted == dropped
                        &&& if closes(*old(service), id) {
                            &&& captured(*old(service), *old(event), id)
                            &&& final(event).outer() == old(event).outer()
                            &&& final(event).captures@.len() == old(event).captures@.len()
                            &&& final(event).captures@.last().promise == old(
                                event,
                            ).captures@.last().promise
                            &&& final(event).captures@.last().frames@.drop_last() == old(
                                event,
                            ).captures@.last().frames@
                            &&& final(event).captures@.last().frames@.len() == old(
                                event,
                            ).captures@.last().frames@.len() + 1
                            &&& final(event).captures@.last().frames@.last().0 == id
                            &&& request_ended(final(event).captures@.last().frames@.last().1)
                            &&& final(touched)@ == touched_by(old(touched)@, event_id)
                        } else {
                            &&& *final(event) == *old(event)
                            &&& *final(touched) == *old(touched)
                        }
                    },
                }
            },
{
    let handoff = service.registry.worker_handoffs.remove(id);
    let ghost dropped = *service;
    let r = if service.registry.outputs.contains(id) {
        let out = WsOut::Close(1001, String::from_str("request ended"));
        assert(request_ended(out));
        let ghost frames = event.captures@.last().frames@;
        let r = ws_emit(service, event, touched, event_id, id, out, gated);
        assert(frames.push((id, out)).drop_last() =~= frames);
        r
    } else {
        None
    };
    let ghost emitted = *service;
    ws_registry::ws_pull_unregister(service, id);
    ws_registry::ws_unregister(service, id);
    assert(drops_handoff(*old(service), dropped, id));
    assert(forgets(emitted, *service, id));
    r
}

/// The frame that ends the sockets of a request.
pub open spec fn request_ended(out: WsOut) -> bool {
    out matches WsOut::Close(code, reason) && code == 1001 && reason@ == "request ended"@
}

// ---- outbound sockets ----------------------------------------------------

/// Whether a worker may reach the network by itself.
#[derive(Clone, Copy, Debug, PartialEq, Eq, Structural)]
pub enum EgressPolicy {
    Allow,
    Deny,
    /// Another worker answers for it.
    Broker,
}

/// The refusal of a policy that lets no socket out.
pub open spec fn egress_refusal(policy: EgressPolicy) -> Seq<char> {
    if policy == EgressPolicy::Deny {
        "This worker is not permitted to access the internet via global functions."@
    } else {
        "A globalOutbound Fetcher cannot broker WebSockets in celld."@
    }
}

/// Whether a worker may open a socket.
pub fn check_egress(policy: EgressPolicy) -> (r: Result<(), String>)
    ensures
        match policy {
            EgressPolicy::Allow => r is Ok,
            EgressPolicy::Deny => r is Err && r->Err_0@
                == "This worker is not permitted to access the internet via global functions."@,
            EgressPolicy::Broker => r is Err && r->Err_0@
                == "A globalOutbound Fetcher cannot broker WebSockets in celld."@,
        },
{
    match policy {
        EgressPolicy::Allow => Ok(()),
        EgressPolicy::Deny => Err(
            String::from_str(
                "This worker is not permitted to access the internet via global functions.",
            ),
        ),
        EgressPolicy::Broker => Err(
            String::from_str("A globalOutbound Fetcher cannot broker WebSockets in celld."),
        ),
    }
}

/// What the host's connector is asked for. A socket with `pull` is polled by
/// the isolate itself.
pub struct OutboundWsReq {
    pub scope: String,
    pub id: u64,
    pub url: String,
    pub protocols: Vec<String>,
    pub pull: bool,
    pub headers: Vec<(String, String)>,
    pub want_response: bool,
    pub target: Option<WsTarget>,
}

/// Where the first header that names subprotocols is.
pub open spec fn protocol_header(headers: Seq<(String, String)>) -> Option<Seq<char>>
    decreases headers.len(),
{
    if headers.len() == 0 {
        None
    } else if text::lower(headers[0].0@) == text::lower("sec-websocket-protocol"@) {
        Some(headers[0].1@)
    } else {
        protocol_header(headers.skip(1))
    }
}

/// The subprotocols that headers name.
pub open spec fn named_protocols(headers: Seq<(String, String)>) -> Seq<Seq<char>> {
    match protocol_header(headers) {
        Some(value) => text::pieces(value, ',').map_values(|p: Seq<char>| text::trimmed(p)),
        None => seq![],
    }
}

/// The subprotocols that headers name.
pub fn upgrade_protocols(headers: &Vec<(String, String)>) -> (r: Vec<String>)
    ensures
        text::texts(r@) == named_protocols(headers@),
{
    let mut i: usize = 0;
    assert(headers@.skip(0) =~= headers@);
    while i < headers.len()
        invariant
            i <= headers@.len(),
            protocol_header(headers@) == protocol_header(headers@.skip(i as int)),
        decreases headers.len() - i,
    {
        assert(headers@.skip(i as int).skip(1) =~= headers@.skip(i + 1));
        assert(headers@.skip(i as int)[0] == headers@[i as int]);
        if text::eq_ignore_ascii_case(headers[i].0.as_str(), "sec-websocket-protocol") {
            let raw = text::split(headers[i].1.as_str(), ',');
            let ghost pieces = text::pieces(headers@[i as int].1@, ',');
            let mut out: Vec<String> = Vec::new();
            let mut k: usize = 0;
            while k < raw.len()
                invariant
                    k <= raw@.len(),
                    text::texts(raw@) == pieces,
                    out@.len() == k,
                    forall|j: int|
                        0 <= j < k ==> (#[trigger] out@[j])@ == text::trimmed(raw@[j]@),
                decreases raw.len() - k,
            {
                out.push(text::trim(raw[k].as_str()));
                k = k + 1;
            }
            proof {
                assert forall|j: int| 0 <= j < raw@.len() implies #[trigger] text::texts(out@)[j]
                    == text::trimmed(pieces[j]) by {
                    assert(text::texts(raw@)[j] == raw@[j]@);
                    assert(out@[j]@ == text::trimmed(raw@[j]@));
                }
                assert(text::texts(raw@).len() == raw@.len());
                assert(text::texts(out@) =~= pieces.map_values(
                    |p: Seq<char>| text::trimmed(p),
                ));
            }
            return out;
        }
        i = i + 1;
    }
    let none: Vec<String> = Vec::new();
    assert(text::texts(none@) =~= seq![]);
    none
}

fn is_empty(t: &str) -> (r: bool)
    ensures
        r == (t@.len() == 0),
{
    proof {
        reveal_strlit("");
        assert(t@.len() == 0 ==> t@ =~= ""@);
    }
    text::same(t, "")
}

/// What a `fetch` that asks for an upgrade asks of the connector. The isolate
/// polls the socket where no cell does.
pub fn upgrade_request(
    policy: EgressPolicy,
    id: u64,
    cell: String,
    url: String,
    headers: Vec<(String, String)>,
) -> (r: Result<OutboundWsReq, String>)
    ensures
        r is Ok <==> policy == EgressPolicy::Allow,
        match r {
            Ok(request) => {
                &&& request.scope == cell
                &&& request.id == id
                &&& request.url == url
                &&& text::texts(request.protocols@) == named_protocols(headers@)
                &&& request.pull == (cell@.len() == 0)
                &&& request.headers == headers
                &&& request.want_response
                &&& request.target is None
            },
            Err(error) => error@ == (if policy == EgressPolicy::Deny {
                "This worker is not permitted to access the internet via global functions."@
            } else {
                "A globalOutbound Fetcher cannot broker WebSockets in celld."@
            }),
        },
{
    match check_egress(policy) {
        Err(error) => {
            return Err(error);
        },
        Ok(_) => {},
    }
    let protocols = upgrade_protocols(&headers);
    let pull = is_empty(cell.as_str());
    Ok(
        OutboundWsReq {
            scope: cell,
            id,
            url,
            protocols,
            pull,
            headers,
            want_response: true,
            target: None,
        },
    )
}

/// What a new `WebSocket` asks of the connector.
pub fn connect_request(
    policy: EgressPolicy,
    id: u64,
    cell: String,
    url: String,
    protocols: Vec<String>,
) -> (r: Result<OutboundWsReq, String>)
    ensures
        r is Ok <==> policy == EgressPolicy::Allow,
        match r {
            Ok(request) => {
                &&& request.scope == cell
                &&& request.id == id
                &&& request.url == url
                &&& request.protocols == protocols
                &&& request.pull == (cell@.len() == 0)
                &&& request.headers@.len() == 0
                &&& !request.want_response
                &&& request.target is None
            },
            Err(error) => error@ == (if policy == EgressPolicy::Deny {
                "This worker is not permitted to access the internet via global functions."@
            } else {
                "A globalOutbound Fetcher cannot broker WebSockets in celld."@
            }),
        },
{
    match check_egress(policy) {
        Err(error) => {
            return Err(error);
        },
        Ok(_) => {},
    }
    let pull = is_empty(cell.as_str());
    Ok(
        OutboundWsReq {
            scope: cell,
            id,
            url,
            protocols,
            pull,
            headers: Vec::new(),
            want_response: false,
            target: None,
        },
    )
}

/// What a `fetch` that asks for an upgrade asks of the connector, from the
/// headers as the worker hands them over. A list that cannot be read is
/// refused: the subprotocols are read out of it.
pub fn upgrade_text(policy: EgressPolicy, id: u64, cell: String, url: String, headers: &str) -> (r:
    Result<OutboundWsReq, String>)
    ensures
        if policy != EgressPolicy::Allow {
            r is Err && r->Err_0@ == egress_refusal(policy)
        } else {
            match json::parsed_pairs(headers@) {
                Ok(pairs) => r matches Ok(request) && {
                    &&& request.scope == cell
                    &&& request.id == id
                    &&& request.url == url
                    &&& json::pairs_view(Ok(request.headers)) == json::parsed_pairs(headers@)
                    &&& text::texts(request.protocols@) == named_protocols(request.headers@)
                    &&& request.pull == (cell@.len() == 0)
                    &&& request.want_response
                    &&& request.target is None
                },
                Err(error) => r is Err && r->Err_0@ == "websocket: the "@
                    + "upgrade headers are not a name/value list"@ + ": "@ + error,
            }
        },
{
    match check_egress(policy) {
        Err(error) => {
            return Err(error);
        },
        Ok(_) => {},
    }
    match json::parse_pairs(headers) {
        Ok(headers) => upgrade_request(policy, id, cell, url, headers),
        Err(error) => Err(
            unreadable("upgrade headers are not a name/value list", error.as_str()),
        ),
    }
}

/// What a new `WebSocket` asks of the connector, from the subprotocols as the
/// worker hands them over.
pub fn connect_text(policy: EgressPolicy, id: u64, cell: String, url: String, protocols: &str) -> (r:
    Result<OutboundWsReq, String>)
    ensures
        if policy != EgressPolicy::Allow {
            r is Err && r->Err_0@ == egress_refusal(policy)
        } else {
            match json::parsed_texts(protocols@) {
                Ok(list) => r matches Ok(request) && {
                    &&& request.scope == cell
                    &&& request.id == id
                    &&& request.url == url
                    &&& text::texts(request.protocols@) == list
                    &&& request.pull == (cell@.len() == 0)
                    &&& request.headers@.len() == 0
                    &&& !request.want_response
                    &&& request.target is None
                },
                Err(error) => r is Err && r->Err_0@ == "websocket: the "@
                    + "subprotocol list is not a JSON array"@ + ": "@ + error,
            }
        },
{
    match check_egress(policy) {
        Err(error) => {
            return Err(error);
        },
        Ok(_) => {},
    }
    match json::parse_texts(protocols) {
        Ok(protocols) => connect_request(policy, id, cell, url, protocols),
        Err(error) => Err(unreadable("subprotocol list is not a JSON array", error.as_str())),
    }
}

/// Accepts a socket as hibernatable under the tags that the worker hands over.
/// With a list that cannot be read it is not accepted: the worker could not
/// find it again by its tags.
pub fn accept_text<T, P, Q>(
    service: &mut WebSocketService<T, P, Q>,
    id: u64,
    cell: &str,
    tags: &str,
) -> (r: Result<(), String>)
    requires
        old(service).wf(),
    ensures
        final(service).wf(),
        match json::parsed_texts(tags@) {
            Ok(list) => {
                &&& r is Ok
                &&& final(service).same_but_registry(old(service))
                &&& final(service).registry@ == old(service).registry@.accepted(id, cell@, list)
            },
            Err(error) => {
                &&& r is Err && r->Err_0@ == "websocket: the "@
                    + "tag list is not a JSON array"@ + ": "@ + error
                &&& *final(service) == *old(service)
            },
        },
{
    match json::parse_texts(tags) {
        Ok(tags) => {
            ws_registry::ws_accept(service, id, cell, tags);
            Ok(())
        },
        Err(error) => Err(unreadable("tag list is not a JSON array", error.as_str())),
    }
}

/// Registers the queue of a socket that the isolate polls itself, and accounts
/// the socket to the event.
pub fn adopt_pull<T, P, Q, H>(
    service: &mut WebSocketService<T, P, Q>,
    event: &mut EventSockets<H>,
    id: u64,
    receiver: Q,
)
    requires
        old(service).wf(),
    ensures
        final(service).wf(),
        final(service).pull@ == old(service).pull@.insert(id, receiver),
        final(service).registry == old(service).registry,
        final(service).regular_counts == old(service).regular_counts,
        final(service).auto_responses == old(service).auto_responses,
        final(service).next_id == old(service).next_id,
        final(service).flush == old(service).flush,
        final(event).opened@ == old(event).opened@.push(id),
        final(event).captures == old(event).captures,
{
    ws_registry::ws_pull_register(service, id, receiver);
    event.ws_track_request_socket(id);
}

/// Joins a socket of this isolate to one of a cell in another. Its queue is
/// polled here, and it ends with the event where no cell holds it.
pub fn bind_target<T, P, Q, H>(
    service: &mut WebSocketService<T, P, Q>,
    event: &mut EventSockets<H>,
    id: u64,
    target: WsTarget,
    cell: &str,
    receiver: Q,
) -> (r: OutboundWsReq)
    requires
        old(service).wf(),
    ensures
        final(service).wf(),
        final(service).pull@ == old(service).pull@.insert(id, receiver),
        final(service).next_id == old(service).next_id,
        final(service).auto_responses == old(service).auto_responses,
        final(service).flush == old(service).flush,
        final(service).registry@ == (if old(service).registry@.metadata.contains_key(id) {
            old(service).registry@
        } else {
            RegistryView {
                metadata: old(service).registry@.metadata.insert(
                    id,
                    ws_registry::blank_meta(cell@, false, Seq::empty()),
                ),
                ..old(service).registry@
            }
        }),
        final(event).captures == old(event).captures,
        final(event).opened@ == (if cell@.len() == 0 {
            old(event).opened@.push(id)
        } else {
            old(event).opened@
        }),
        r.scope@ == target.scope@,
        r.id == id,
        r.url@ == ""@,
        r.protocols@.len() == 0,
        r.pull,
        r.headers@.len() == 0,
        !r.want_response,
        r.target == Some(target),
{
    ws_registry::ws_pull_register(service, id, receiver);
    if is_empty(cell) {
        event.ws_track_request_socket(id);
    }
    ws_registry::ws_register_outbound(service, id, cell);
    OutboundWsReq {
        scope: target.scope.clone(),
        id,
        url: String::from_str(""),
        protocols: Vec::new(),
        pull: true,
        headers: Vec::new(),
        want_response: false,
        target: Some(target),
    }
}

/// What came of a request to the connector.
pub enum Connected {
    /// There is no connector.
    Unsent,
    Opened(OutboundWsOpen),
    Failed(String),
    /// The connector went away without an answer.
    Dropped(String),
}

/// The error of a request to the connector. `what` says what failed.
pub open spec fn connect_error(what: Seq<char>, connected: Connected) -> Seq<char> {
    match connected {
        Connected::Failed(error) => "WebSocket "@ + what + " failed: "@ + error@,
        Connected::Dropped(error) => "WebSocket connector dropped: "@ + error@,
        _ => "no outbound WebSocket channel"@,
    }
}

fn opened(what: &str, connected: Connected) -> (r: Result<OutboundWsOpen, String>)
    ensures
        match r {
            Ok(open) => connected == Connected::Opened(open),
            Err(error) => connected !is Opened && error@ == connect_error(what@, connected),
        },
{
    match connected {
        Connected::Unsent => Err(String::from_str("no outbound WebSocket channel")),
        Connected::Opened(open) => Ok(open),
        Connected::Failed(error) => {
            let mut text = text::join3("WebSocket ", what, " failed: ");
            text.append(error.as_str());
            Err(text)
        },
        Connected::Dropped(error) => Err(
            text::join("WebSocket connector dropped: ", error.as_str()),
        ),
    }
}

/// What an upgrade is answered: an upgraded socket, or the ordinary response
/// that the server sent instead.
pub open spec fn upgrade_view(open: OutboundWsOpen) -> JsonView {
    match open.declined {
        Some(declined) => JsonView::Object(
            seq![
                ("upgraded"@, JsonView::Bool(false)),
                ("status"@, json::number(declined.status as int)),
                ("headers"@, json::pair_list(declined.headers@)),
                ("body"@, json::byte_list(declined.body@)),
            ],
        ),
        None => JsonView::Object(
            seq![
                ("upgraded"@, JsonView::Bool(true)),
                ("protocol"@, JsonView::Text(chosen_protocol(open))),
            ],
        ),
    }
}

/// The subprotocol of an open socket; none is empty.
pub open spec fn chosen_protocol(open: OutboundWsOpen) -> Seq<char> {
    match open.protocol {
        Some(protocol) => protocol@,
        None => ""@,
    }
}

/// What an upgrade is answered.
pub fn upgrade_reply(connected: Connected) -> (r: Result<String, String>)
    ensures
        match connected {
            Connected::Opened(open) => r is Ok && r->Ok_0@ == json::printed_json(
                upgrade_view(open),
            ),
            _ => r is Err && r->Err_0@ == connect_error("upgrade"@, connected),
        },
{
    match opened("upgrade", connected) {
        Err(error) => Err(error),
        Ok(open) => {
            let mut members = json::Members::new();
            match &open.declined {
                Some(declined) => {
                    members.put("upgraded", Json::Bool(false));
                    members.put("status", json::unsigned(declined.status as u64));
                    members.put("headers", json::of_pairs(&declined.headers));
                    members.put("body", json::of_bytes(declined.body.as_slice()));
                },
                None => {
                    members.put("upgraded", Json::Bool(true));
                    members.put(
                        "protocol",
                        match &open.protocol {
                            Some(protocol) => json::string(protocol.as_str()),
                            None => json::string(""),
                        },
                    );
                },
            }
            assert(members@ =~= upgrade_view(open)->Object_0);
            Ok(json::json_text(&members.object()))
        },
    }
}

/// What a new `WebSocket` is answered: the subprotocol.
pub fn connect_reply(connected: Connected) -> (r: Result<String, String>)
    ensures
        match connected {
            Connected::Opened(open) => r is Ok && r->Ok_0@ == chosen_protocol(open),
            _ => r is Err && r->Err_0@ == connect_error("connection"@, connected),
        },
{
    match opened("connection", connected) {
        Err(error) => Err(error),
        Ok(open) => match open.protocol {
            Some(protocol) => Ok(protocol),
            None => Ok(String::from_str("")),
        },
    }
}

/// What a joined socket is answered: nothing.
pub fn bind_reply(connected: Connected) -> (r: Result<String, String>)
    ensures
        match connected {
            Connected::Opened(_) => r is Ok && r->Ok_0@ == ""@,
            _ => r is Err && r->Err_0@ == connect_error("bind"@, connected),
        },
{
    match opened("bind", connected) {
        Err(error) => Err(error),
        Ok(_) => Ok(String::from_str("")),
    }
}

/// What a worker that polls a socket is handed. A queue that is not there, or
/// that nobody sends on any more, reads as an abnormal close.
pub enum Polled {
    Unregistered,
    Event(WsPull),
    Ended,
}

/// The next event of a socket that a worker polls.
pub fn next_event(polled: Polled) -> (r: WsPull)
    ensures
        match polled {
            Polled::Event(event) => r == event,
            Polled::Unregistered => r matches WsPull::Close(code, reason, clean) && code == 1006
                && reason@ == "socket is not registered"@ && !clean,
            Polled::Ended => r matches WsPull::Close(code, reason, clean) && code == 1006
                && reason@ == ""@ && !clean,
        },
{
    match polled {
        Polled::Event(event) => event,
        Polled::Unregistered => WsPull::Close(
            1006,
            String::from_str("socket is not registered"),
            false,
        ),
        Polled::Ended => WsPull::Close(1006, String::from_str(""), false),
    }
}

// ---- a cell's sockets ----------------------------------------------------

/// Whether a socket is listed: it is the cell's, the host pushes its messages,
/// and it has the tag, where one is asked for.
pub open spec fn is_listed(meta: MetaView, cell: Seq<char>, tag: Option<Seq<char>>) -> bool {
    &&& meta.hibernatable
    &&& meta.scope == cell
    &&& match tag {
        Some(tag) => meta.tags.contains(tag),
        None => true,
    }
}

/// A socket as it is listed.
pub open spec fn socket_row(id: u64, meta: MetaView) -> JsonView {
    JsonView::Object(
        seq![
            ("id"@, json::number(id as int)),
            ("tags"@, json::text_list(meta.tags)),
            (
                "attachment"@,
                match meta.attachment {
                    Some(bytes) => json::byte_list(bytes),
                    None => JsonView::Null,
                },
            ),
        ],
    )
}

/// The listed sockets among some.
pub open spec fn socket_rows(
    metadata: Map<u64, MetaView>,
    ids: Seq<u64>,
    cell: Seq<char>,
    tag: Option<Seq<char>>,
) -> Seq<JsonView>
    decreases ids.len(),
{
    if ids.len() == 0 {
        seq![]
    } else {
        let before = socket_rows(metadata, ids.drop_last(), cell, tag);
        if is_listed(metadata[ids.last()], cell, tag) {
            before.push(socket_row(ids.last(), metadata[ids.last()]))
        } else {
            before
        }
    }
}

fn has_tag(tags: &Vec<String>, tag: &str) -> (r: bool)
    ensures
        r == text::texts(tags@).contains(tag@),
{
    let mut i: usize = 0;
    while i < tags.len()
        invariant
            i <= tags@.len(),
            forall|k: int| 0 <= k < i ==> (#[trigger] text::texts(tags@)[k]) != tag@,
        decreases tags.len() - i,
    {
        assert(text::texts(tags@)[i as int] == tags@[i as int]@);
        if text::same(tags[i].as_str(), tag) {
            return true;
        }
        i = i + 1;
    }
    false
}

fn write_row(id: u64, meta: &WsMeta) -> (r: Json)
    ensures
        r@ == socket_row(id, meta@),
{
    let mut members = json::Members::new();
    members.put("id", json::unsigned(id));
    members.put("tags", json::of_texts(&meta.tags));
    members.put(
        "attachment",
        match &meta.attachment {
            Some(bytes) => json::of_bytes(bytes.as_slice()),
            None => Json::Null,
        },
    );
    assert(members@ =~= socket_row(id, meta@)->Object_0);
    members.object()
}

/// The sockets of a cell, by ascending id.
pub fn ws_list<T, P, Q>(service: &WebSocketService<T, P, Q>, cell: &str, tag: Option<&str>) -> (r:
    String)
    ensures
        r@ == json::printed_json(
            JsonView::List(
                socket_rows(
                    service.registry@.metadata,
                    maps::ascending_ids(service.registry@.metadata.dom()),
                    cell@,
                    match tag {
                        Some(tag) => Some(tag@),
                        None => None,
                    },
                ),
            ),
        ),
{
    let ids = service.registry.metadata.ids();
    let ghost metadata = service.registry@.metadata;
    let ghost wanted = match tag {
        Some(tag) => Some(tag@),
        None => None,
    };
    assert(metadata.dom() =~= service.registry.metadata@.dom());
    let mut rows: Vec<Json> = Vec::new();
    let mut i: usize = 0;
    assert(ids@.take(0) =~= Seq::<u64>::empty());
    assert(json::views(rows@) =~= seq![]);
    while i < ids.len()
        invariant
            i <= ids@.len(),
            maps::lists(ids@, service.registry.metadata@.dom()),
            metadata == service.registry@.metadata,
            wanted == (match tag {
                Some(tag) => Some(tag@),
                None => None,
            }),
            json::views(rows@) == socket_rows(metadata, ids@.take(i as int), cell@, wanted),
        decreases ids.len() - i,
    {
        proof {
            assert(ids@.take(i + 1).drop_last() =~= ids@.take(i as int));
            assert(ids@.take(i + 1).last() == ids@[i as int]);
            assert(ids@.contains(ids@[i as int]));
        }
        let ghost before = rows@;
        match service.registry.metadata.get(ids[i]) {
            Some(meta) => {
                assert(metadata[ids@[i as int]] == meta@);
                let tagged = match tag {
                    Some(tag) => has_tag(&meta.tags, tag),
                    None => true,
                };
                if meta.hibernatable && text::same(meta.scope.as_str(), cell) && tagged {
                    rows.push(write_row(ids[i], meta));
                    assert(json::views(rows@) =~= json::views(before).push(rows@.last()@));
                }
            },
            None => {},
        }
        i = i + 1;
    }
    assert(ids@.take(i as int) =~= ids@);
    json::json_text(&json::list(rows))
}

/// The auto-response of a cell: its request and its response, or nothing.
pub fn ws_auto_response_get<T, P, Q>(service: &WebSocketService<T, P, Q>, cell: &str) -> (r: String)
    ensures
        r@ == (if service.auto_responses@.contains_key(cell@) {
            json::printed_json(
                JsonView::List(
                    seq![
                        JsonView::Text(service.auto_responses@[cell@].0@),
                        JsonView::Text(service.auto_responses@[cell@].1@),
                    ],
                ),
            )
        } else {
            "null"@
        }),
{
    match service.auto_responses.get(cell) {
        Some(pair) => {
            let mut items: Vec<Json> = Vec::new();
            items.push(json::string(pair.0.as_str()));
            items.push(json::string(pair.1.as_str()));
            assert(json::views(items@) =~= seq![
                JsonView::Text(service.auto_responses@[cell@].0@),
                JsonView::Text(service.auto_responses@[cell@].1@),
            ]);
            json::json_text(&json::list(items))
        },
        None => String::from_str("null"),
    }
}

// ---- laws ----------------------------------------------------------------

/// An upgrade is answered with whether the server upgraded: with the
/// subprotocol where it did, and with its status, its headers and its body,
/// each under its own name, where it did not.
pub proof fn upgrades_are_answered(open: OutboundWsOpen)
    ensures
        match open.declined {
            Some(declined) => {
                &&& upgrade_view(open).member("upgraded"@) == Some(JsonView::Bool(false))
                &&& upgrade_view(open).member("status"@) == Some(
                    json::number(declined.status as int),
                )
                &&& upgrade_view(open).member("headers"@) == Some(
                    json::pair_list(declined.headers@),
                )
                &&& upgrade_view(open).member("body"@) == Some(json::byte_list(declined.body@))
                &&& upgrade_view(open).member("protocol"@) is None
            },
            None => {
                &&& upgrade_view(open).member("upgraded"@) == Some(JsonView::Bool(true))
                &&& upgrade_view(open).member("status"@) is None
                &&& open.protocol matches Some(protocol) ==> upgrade_view(open).member(
                    "protocol"@,
                ) == Some(JsonView::Text(protocol@))
                &&& open.protocol is None ==> upgrade_view(open).member("protocol"@) == Some(
                    JsonView::Text(""@),
                )
            },
        },
{
    reveal_strlit("upgraded");
    reveal_strlit("status");
    reveal_strlit("headers");
    reveal_strlit("body");
    reveal_strlit("protocol");
    assert("upgraded"@.len() == 8 && "status"@.len() == 6 && "headers"@.len() == 7);
    assert("body"@.len() == 4 && "protocol"@.len() == 8);
    assert("upgraded"@[0] == 'u' && "protocol"@[0] == 'p');
    let members = upgrade_view(open)->Object_0;
    json::a_member_is_found(members, 0);
    json::a_member_is_found(members, 1);
    if open.declined is Some {
        json::a_member_is_found(members, 2);
        json::a_member_is_found(members, 3);
        json::no_member_is_made_up(members, "protocol"@);
    } else {
        json::no_member_is_made_up(members, "status"@);
    }
}

/// A socket is listed with its id, its tags and what is attached to it, each
/// under its own name.
pub proof fn sockets_are_told(id: u64, meta: MetaView)
    ensures
        socket_row(id, meta).member("id"@) == Some(json::number(id as int)),
        socket_row(id, meta).member("tags"@) == Some(json::text_list(meta.tags)),
        match meta.attachment {
            Some(bytes) => socket_row(id, meta).member("attachment"@) == Some(
                json::byte_list(bytes),
            ),
            None => socket_row(id, meta).member("attachment"@) == Some(JsonView::Null),
        },
{
    reveal_strlit("id");
    reveal_strlit("tags");
    reveal_strlit("attachment");
    assert("id"@.len() == 2 && "tags"@.len() == 4 && "attachment"@.len() == 10);
    let members = socket_row(id, meta)->Object_0;
    json::a_member_is_found(members, 0);
    json::a_member_is_found(members, 1);
    json::a_member_is_found(members, 2);
}

/// How many of the sockets are a cell's, pushed by the host, and have the tag
/// where one is asked for.
pub open spec fn listed_count(
    metadata: Map<u64, MetaView>,
    ids: Seq<u64>,
    cell: Seq<char>,
    tag: Option<Seq<char>>,
) -> nat
    decreases ids.len(),
{
    if ids.len() == 0 {
        0
    } else {
        let meta = metadata[ids.last()];
        let before = listed_count(metadata, ids.drop_last(), cell, tag);
        if meta.scope == cell && meta.hibernatable && (tag is Some ==> meta.tags.contains(
            tag->Some_0,
        )) {
            before + 1
        } else {
            before
        }
    }
}

/// A cell's sockets are listed in the order of their ids: every one whose
/// messages the host pushes and that has the tag, where one is asked for, and no
/// other.
pub proof fn cells_list_their_sockets(
    metadata: Map<u64, MetaView>,
    ids: Seq<u64>,
    cell: Seq<char>,
    tag: Option<Seq<char>>,
)
    ensures
        socket_rows(metadata, ids, cell, tag).len() == listed_count(metadata, ids, cell, tag),
        forall|i: int|
            0 <= i < ids.len() && metadata[#[trigger] ids[i]].scope == cell
                && metadata[ids[i]].hibernatable && (tag is Some ==> metadata[ids[i]].tags.contains(
                tag->Some_0,
            )) ==> socket_rows(metadata, ids, cell, tag)[listed_count(
                metadata,
                ids.take(i),
                cell,
                tag,
            ) as int] == socket_row(ids[i], metadata[ids[i]]),
    decreases ids.len(),
{
    if ids.len() > 0 {
        let fewer = ids.drop_last();
        cells_list_their_sockets(metadata, fewer, cell, tag);
        let rows = socket_rows(metadata, ids, cell, tag);
        let before = socket_rows(metadata, fewer, cell, tag);
        assert forall|i: int|
            0 <= i < ids.len() && metadata[#[trigger] ids[i]].scope == cell
                && metadata[ids[i]].hibernatable && (tag is Some ==> metadata[ids[i]].tags.contains(
                tag->Some_0,
            )) implies rows[listed_count(metadata, ids.take(i), cell, tag) as int] == socket_row(
            ids[i],
            metadata[ids[i]],
        ) by {
            if i < fewer.len() {
                assert(fewer[i] == ids[i]);
                assert(fewer.take(i) =~= ids.take(i));
                lemma_listed_before(metadata, fewer, cell, tag, i);
                assert(before[listed_count(metadata, ids.take(i), cell, tag) as int] == socket_row(
                    ids[i],
                    metadata[ids[i]],
                ));
            } else {
                assert(ids.take(i) =~= fewer);
            }
        }
    }
}

proof fn lemma_listed_before(
    metadata: Map<u64, MetaView>,
    ids: Seq<u64>,
    cell: Seq<char>,
    tag: Option<Seq<char>>,
    i: int,
)
    requires
        0 <= i < ids.len(),
        metadata[ids[i]].scope == cell,
        metadata[ids[i]].hibernatable,
        tag is Some ==> metadata[ids[i]].tags.contains(tag->Some_0),
    ensures
        listed_count(metadata, ids.take(i), cell, tag) < listed_count(metadata, ids, cell, tag),
    decreases ids.len(),
{
    let fewer = ids.drop_last();
    if i < fewer.len() {
        assert(fewer[i] == ids[i]);
        assert(fewer.take(i) =~= ids.take(i));
        lemma_listed_before(metadata, fewer, cell, tag, i);
    } else {
        assert(ids.take(i) =~= fewer);
    }
}

/// The subprotocols that a request names are those of its first header of that
/// name, whatever the name's case: the values between its commas, without white
/// space round them. A request without such a header names none.
pub proof fn first_protocol_header_counts(headers: Seq<(String, String)>, i: int)
    requires
        0 <= i < headers.len(),
        text::lower(headers[i].0@) == "sec-websocket-protocol"@,
        forall|k: int|
            0 <= k < i ==> text::lower((#[trigger] headers[k]).0@) != "sec-websocket-protocol"@,
    ensures
        protocol_header(headers) == Some(headers[i].1@),
        named_protocols(headers).len() == text::pieces(headers[i].1@, ',').len(),
        forall|k: int|
            0 <= k < named_protocols(headers).len() ==> #[trigger] named_protocols(headers)[k]
                == text::trimmed(text::pieces(headers[i].1@, ',')[k]),
    decreases headers.len(),
{
    reveal_strlit("sec-websocket-protocol");
    assert(text::lower("sec-websocket-protocol"@) =~= "sec-websocket-protocol"@);
    if i > 0 {
        assert(text::lower(headers[0].0@) != "sec-websocket-protocol"@);
        let rest = headers.skip(1);
        assert(rest[i - 1] == headers[i]);
        assert forall|k: int| 0 <= k < i - 1 implies text::lower((#[trigger] rest[k]).0@)
            != "sec-websocket-protocol"@ by {
            assert(rest[k] == headers[k + 1]);
        }
        first_protocol_header_counts(rest, i - 1);
    }
}

/// A socket that was forgotten has no output, no queue and nothing known of it,
/// and no other socket changes.
pub proof fn forgotten_sockets_are_gone<T, P, Q>(
    before: WebSocketService<T, P, Q>,
    after: WebSocketService<T, P, Q>,
    id: u64,
    other: u64,
)
    requires
        forgets(before, after, id),
        other != id,
    ensures
        !after.registry@.outputs.contains_key(id),
        !after.registry@.metadata.contains_key(id),
        !after.pull@.contains_key(id),
        after.registry@.outputs.contains_key(other) == before.registry@.outputs.contains_key(other),
        after.registry@.metadata.contains_key(other) == before.registry@.metadata.contains_key(
            other,
        ),
        before.registry@.metadata.contains_key(other) ==> after.registry@.metadata[other]
            == before.registry@.metadata[other],
        after.pull@.contains_key(other) == before.pull@.contains_key(other),
        after.registry@.worker_handoffs == before.registry@.worker_handoffs,
{
}

/// An event is among those that received a frame once it did, once only, and
/// none that was is forgotten.
pub proof fn touched_events_are_kept(touched: Seq<u64>, event_id: u64, other: u64)
    ensures
        touched_by(touched, event_id).contains(event_id),
        touched.contains(other) ==> touched_by(touched, event_id).contains(other),
        touched_by(touched, event_id).contains(other) ==> touched.contains(other) || other
            == event_id,
        touched.no_duplicates() ==> touched_by(touched, event_id).no_duplicates(),
        touched_by(touched_by(touched, event_id), event_id) == touched_by(touched, event_id),
{
    let after = touched_by(touched, event_id);
    if !touched.contains(event_id) {
        assert(after[touched.len() as int] == event_id);
        if touched.contains(other) {
            let i = choose|i: int| 0 <= i < touched.len() && touched[i] == other;
            assert(after[i] == other);
        }
        if after.contains(other) && other != event_id {
            let i = choose|i: int| 0 <= i < after.len() && after[i] == other;
            assert(touched[i] == other);
        }
    }
}

/// A batch that is gated is answered with the guard that it waits under, and any
/// other is not; what is passed on at once goes to sockets that have an output,
/// and no socket comes or goes by it.
pub proof fn sends_pass_on_or_wait<T, P, Q>(
    before: WebSocketService<T, P, Q>,
    after: WebSocketService<T, P, Q>,
    frames: Seq<(u64, WsOut)>,
    gated: bool,
    r: (Option<WsFlushGuard>, Vec<(u64, WsOut)>),
)
    requires
        sends(before, after, frames, gated, r),
    ensures
        gated && frames.len() > 0 ==> r.0 is Some,
        !gated ==> r.0 is None,
        frames.len() == 0 ==> r.0 is None,
        after.registry@.outputs == before.registry@.outputs,
        after.registry@.metadata.dom() == before.registry@.metadata.dom(),
        after.next_id == before.next_id,
        forall|i: int|
            0 <= i < r.1@.len() ==> before.registry@.outputs.contains_key((#[trigger] r.1@[i]).0),
{
    let end = ws_flush::Batch::start(before.flush.queues(), before.flush.next_token).with_all(
        frames,
        gated,
    );
    assert(after.registry@.metadata.dom() =~= before.registry@.metadata.dom());
    lemma_within(end.direct, before.registry@.outputs.dom());
}

proof fn lemma_within(frames: Seq<(u64, WsOut)>, ids: Set<u64>)
    ensures
        forall|i: int|
            0 <= i < ws_frames::frames_within(frames, ids).len() ==> ids.contains(
                (#[trigger] ws_frames::frames_within(frames, ids)[i]).0,
            ),
    decreases frames.len(),
{
    if frames.len() > 0 {
        lemma_within(frames.drop_last(), ids);
        let before = ws_frames::frames_within(frames.drop_last(), ids);
        let all = ws_frames::frames_within(frames, ids);
        assert forall|i: int| 0 <= i < all.len() implies ids.contains((#[trigger] all[i]).0) by {
            if i < before.len() {
                assert(all[i] == before[i]);
            }
        }
    }
}

/// A socket that a request opened and nobody took is closed where it has an
/// output, with the code for a peer that goes away; a handover of it is dropped,
/// and no other is.
pub proof fn request_sockets_are_closed<T, P, Q>(
    before: WebSocketService<T, P, Q>,
    after: WebSocketService<T, P, Q>,
    id: u64,
    other: u64,
    out: WsOut,
)
    requires
        drops_handoff(before, after, id),
        other != id,
    ensures
        !after.registry@.worker_handoffs.contains_key(id),
        after.registry@.worker_handoffs.contains_key(other)
            == before.registry@.worker_handoffs.contains_key(other),
        after.registry@.outputs == before.registry@.outputs,
        after.registry@.metadata == before.registry@.metadata,
        closes(before, id) <==> before.registry@.outputs.contains_key(id),
        request_ended(out) ==> out is Close && out->Close_0 == 1001 && out->Close_1@
            == "request ended"@,
{
}

/// A request to the connector that failed says so with the connector's own
/// words, and one that the connector dropped is told apart from it; without a
/// connector there is no channel.
pub proof fn failed_connections_say_why(what: Seq<char>, connected: Connected)
    ensures
        connected matches Connected::Failed(error) ==> {
            let words = connect_error(what, connected);
            &&& text::has_prefix(words, "WebSocket "@ + what + " failed: "@)
            &&& words.skip(words.len() - connected->Failed_0@.len()) == connected->Failed_0@
        },
        connected matches Connected::Dropped(error) ==> {
            let words = connect_error(what, connected);
            &&& text::has_prefix(words, "WebSocket connector dropped: "@)
            &&& words.skip(words.len() - connected->Dropped_0@.len()) == connected->Dropped_0@
        },
        connected is Unsent ==> connect_error(what, connected) == "no outbound WebSocket channel"@,
        egress_refusal(EgressPolicy::Deny) != egress_refusal(EgressPolicy::Broker),
{
    let words = connect_error(what, connected);
    reveal_strlit("This worker is not permitted to access the internet via global functions.");
    reveal_strlit("A globalOutbound Fetcher cannot broker WebSockets in celld.");
    match connected {
        Connected::Failed(error) => {
            let head = "WebSocket "@ + what + " failed: "@;
            assert(words.subrange(0, head.len() as int) =~= head);
            assert(words.skip(words.len() - error@.len()) =~= error@);
        },
        Connected::Dropped(error) => {
            let head = "WebSocket connector dropped: "@;
            assert(words.subrange(0, head.len() as int) =~= head);
            assert(words.skip(words.len() - error@.len()) =~= error@);
        },
        _ => {},
    }
    assert(egress_refusal(EgressPolicy::Deny)[0] == 'T');
    assert(egress_refusal(EgressPolicy::Broker)[0] == 'A');
}

/// A frame is captured exactly where a handler runs and the host pushes the
/// socket's messages. What a handler has sent so far leaves exactly where its
/// promise still waits and it has sent anything.
pub proof fn running_handlers_capture<T, P, Q, H>(
    service: WebSocketService<T, P, Q>,
    event: EventSockets<H>,
    id: u64,
    state: PromiseState,
)
    ensures
        event.captures@.len() == 0 ==> !captured(service, event, id) && !event.flushes(state),
        captured(service, event, id) ==> service.registry@.metadata.contains_key(id)
            && service.registry@.metadata[id].hibernatable,
        event.captures@.len() > 0 && service.registry@.metadata.contains_key(id)
            && service.registry@.metadata[id].hibernatable ==> captured(service, event, id),
        event.flushes(state) ==> state == PromiseState::Pending
            && event.captures@.last().frames@.len() > 0,
        event.captures@.len() > 0 && event.captures@.last().promise is Some
            && event.captures@.last().frames@.len() > 0 ==> event.flushes(PromiseState::Pending)
            && !event.flushes(PromiseState::Fulfilled) && !event.flushes(PromiseState::Rejected),
{
}

} // verus!
