//! The WebSocket registry: the sockets an instance holds, where their frames
//! go, and the queues that isolates poll themselves.
//!
//! A socket's output channel (`T`), the sending end of an isolate's queue
//! (`P`) and its receiving end (`Q`) stay open. An operation that sends
//! answers the frames to hand to the channels, in order.
use vstd::prelude::*;
#[allow(unused_imports)]
use vstd::string::*;

use crate::json;
#[allow(unused_imports)]
use crate::json::JsonView;
use crate::maps::{IdMap, TextMap};
#[allow(unused_imports)]
use crate::text;
#[allow(unused_imports)]
use crate::ws_flush;
use crate::ws_flush::{Verdict, WsFlushGuard, WsFlushState};
#[allow(unused_imports)]
use crate::ws_frames;
use crate::ws_frames::WsOut;

verus! {

/// The ordinary response a server sent instead of upgrading.
pub struct DeclinedUpgrade {
    pub status: u16,
    pub headers: Vec<(String, String)>,
    pub body: Vec<u8>,
}

/// What an outbound handshake produced.
pub struct OutboundWsOpen {
    pub protocol: Option<String>,
    pub declined: Option<DeclinedUpgrade>,
}

/// The result of delivering one message to a cell's handler.
pub struct WsDispatch {
    pub frames: Vec<(u64, WsOut)>,
    pub write_position: Option<u64>,
    pub observed_position: Option<u64>,
}

/// One inbound frame of a client.
pub enum WsIn {
    Text(String),
    Binary(Vec<u8>),
}

/// One inbound event on a socket that an isolate polls itself.
pub enum WsPull {
    Open(String),
    Text(String),
    Binary(Vec<u8>),
    Close(u16, String, bool),
}

/// The most bytes that waiting frames of one polled queue are charged for.
pub const WS_PULL_QUEUE_MAX_BYTES: usize = 1048576;

pub const WS_PULL_TAG_TEXT: u8 = 0;

pub const WS_PULL_TAG_BINARY: u8 = 1;

pub const WS_PULL_TAG_OPEN: u8 = 2;

pub const WS_PULL_TAG_CLOSE: u8 = 3;

/// A client's frame as the event an isolate polls.
pub fn pull_of(frame: WsIn) -> (r: WsPull)
    ensures
        r == (match frame {
            WsIn::Text(text) => WsPull::Text(text),
            WsIn::Binary(bytes) => WsPull::Binary(bytes),
        }),
{
    match frame {
        WsIn::Text(text) => WsPull::Text(text),
        WsIn::Binary(bytes) => WsPull::Binary(bytes),
    }
}

/// The body of a close event: its code, its reason and whether it was clean.
pub open spec fn close_json(code: u16, reason: Seq<char>, was_clean: bool) -> JsonView {
    JsonView::Object(
        seq![
            ("code"@, JsonView::Int(code as int)),
            ("reason"@, JsonView::Text(reason)),
            ("wasClean"@, JsonView::Bool(was_clean)),
        ],
    )
}

impl WsPull {
    pub open spec fn tag(self) -> u8 {
        match self {
            WsPull::Text(_) => WS_PULL_TAG_TEXT,
            WsPull::Binary(_) => WS_PULL_TAG_BINARY,
            WsPull::Open(_) => WS_PULL_TAG_OPEN,
            WsPull::Close(_, _, _) => WS_PULL_TAG_CLOSE,
        }
    }

    pub open spec fn body(self) -> Seq<u8> {
        match self {
            WsPull::Text(text) => vstd::utf8::encode_utf8(text@),
            WsPull::Binary(bytes) => bytes@,
            WsPull::Open(protocol) => vstd::utf8::encode_utf8(protocol@),
            WsPull::Close(code, reason, was_clean) => vstd::utf8::encode_utf8(
                json::printed_json(close_json(code, reason@, was_clean)),
            ),
        }
    }

    /// The event as the byte frame an isolate receives: a tag, then a body.
    pub fn encode(self) -> (framed: Vec<u8>)
        ensures
            framed@ == seq![self.tag()] + self.body(),
    {
        match self {
            WsPull::Text(text) => framed(WS_PULL_TAG_TEXT, text.as_str().as_bytes()),
            WsPull::Binary(bytes) => framed(WS_PULL_TAG_BINARY, bytes.as_slice()),
            WsPull::Open(protocol) => framed(WS_PULL_TAG_OPEN, protocol.as_str().as_bytes()),
            WsPull::Close(code, reason, was_clean) => {
                let mut members = json::Members::new();
                members.put("code", json::Json::Int(code as i64));
                members.put("reason", json::Json::Text(reason));
                members.put("wasClean", json::Json::Bool(was_clean));
                assert(members@ =~= close_json(code, reason@, was_clean)->Object_0);
                let body = json::json_text(&members.object());
                framed(WS_PULL_TAG_CLOSE, body.as_str().as_bytes())
            },
        }
    }

    /// How many bytes an event carries.
    pub open spec fn payload_len(self) -> nat {
        match self {
            WsPull::Open(text) | WsPull::Text(text) => vstd::utf8::encode_utf8(text@).len(),
            WsPull::Binary(bytes) => bytes@.len(),
            WsPull::Close(_, reason, _) => vstd::utf8::encode_utf8(reason@).len(),
        }
    }

    /// What an event is charged for in its queue: its own size and what it
    /// carries.
    pub fn queue_bytes(&self, own_size: usize) -> (r: usize)
        ensures
            r == (if own_size + self.payload_len() > usize::MAX {
                usize::MAX
            } else {
                (own_size + self.payload_len()) as usize
            }),
    {
        let payload: usize = match self {
            WsPull::Open(text) => text.as_str().as_bytes().len(),
            WsPull::Text(text) => text.as_str().as_bytes().len(),
            WsPull::Binary(bytes) => bytes.len(),
            WsPull::Close(_, reason, _) => reason.as_str().as_bytes().len(),
        };
        own_size.saturating_add(payload)
    }
}

fn framed(tag: u8, body: &[u8]) -> (r: Vec<u8>)
    ensures
        r@ == seq![tag] + body@,
{
    let mut r: Vec<u8> = Vec::new();
    r.push(tag);
    r.extend_from_slice(body);
    assert(r@ =~= seq![tag] + body@);
    r
}

/// How much room a frame reserves: an oversized one reserves the whole budget,
/// so that it enters an empty queue only.
pub fn permit_bytes(bytes: usize) -> (r: u32)
    ensures
        r == (if bytes <= WS_PULL_QUEUE_MAX_BYTES {
            bytes as int
        } else {
            WS_PULL_QUEUE_MAX_BYTES as int
        }),
{
    if bytes <= WS_PULL_QUEUE_MAX_BYTES {
        bytes as u32
    } else {
        WS_PULL_QUEUE_MAX_BYTES as u32
    }
}

/// The order of a polled queue's frames against its one terminal frame.
#[derive(Clone, Copy, Debug, PartialEq, Eq, Structural)]
pub struct WsPullSendState {
    pub terminal_sent: bool,
    pub receiver_closed: bool,
}

impl WsPullSendState {
    pub fn new() -> (r: Self)
        ensures
            !r.terminal_sent,
            !r.receiver_closed,
    {
        WsPullSendState { terminal_sent: false, receiver_closed: false }
    }

    pub fn is_closed(&self) -> (r: bool)
        ensures
            r == (self.terminal_sent || self.receiver_closed),
    {
        self.terminal_sent || self.receiver_closed
    }

    /// Sends one frame. A close takes the terminal place; a frame that is
    /// refused, because a close went before it or nobody receives, comes back.
    pub fn send(&mut self, frame: WsPull) -> (r: Result<WsPull, WsPull>)
        ensures
            r == (if old(self).terminal_sent || old(self).receiver_closed {
                Err::<WsPull, WsPull>(frame)
            } else {
                Ok(frame)
            }),
            final(self).terminal_sent == (old(self).terminal_sent || frame is Close),
            final(self).receiver_closed == old(self).receiver_closed,
    {
        let terminal = match &frame {
            WsPull::Close(_, _, _) => true,
            _ => false,
        };
        let refused = self.terminal_sent || self.receiver_closed;
        if terminal {
            self.terminal_sent = true;
        }
        if refused {
            Err(frame)
        } else {
            Ok(frame)
        }
    }

    /// Receives one frame; a close ends the receiver with it.
    pub fn receive(&mut self, frame: &WsPull)
        ensures
            final(self).receiver_closed == (old(self).receiver_closed || *frame is Close),
            final(self).terminal_sent == old(self).terminal_sent,
    {
        match frame {
            WsPull::Close(_, _, _) => {
                self.receiver_closed = true;
            },
            _ => {},
        }
    }
}

/// What one more send does to a queue's state.
pub open spec fn sent_state(state: WsPullSendState, frame: WsPull) -> WsPullSendState {
    WsPullSendState { terminal_sent: state.terminal_sent || frame is Close, ..state }
}

/// A queue holds one close at most, and nothing enters behind it.
pub proof fn nothing_follows_a_close(state: WsPullSendState, close: WsPull, later: WsPull)
    requires
        close is Close,
    ensures
        sent_state(state, close).terminal_sent,
        sent_state(sent_state(state, close), later) == sent_state(state, close),
{
}

/// What is known of one socket.
pub struct WsMeta {
    pub scope: String,
    pub hibernatable: bool,
    pub tags: Vec<String>,
    pub attachment: Option<Vec<u8>>,
    /// Frames sent before the socket's output is there.
    pub pending: Vec<WsOut>,
    /// When the socket was last answered with the cell's auto-response, in
    /// milliseconds of the wall clock.
    pub auto_response_at: Option<u64>,
}

#[verifier::ext_equal]
pub struct MetaView {
    pub scope: Seq<char>,
    pub hibernatable: bool,
    pub tags: Seq<Seq<char>>,
    pub attachment: Option<Seq<u8>>,
    pub pending: Seq<WsOut>,
    pub auto_response_at: Option<u64>,
}

impl View for WsMeta {
    type V = MetaView;

    open spec fn view(&self) -> MetaView {
        MetaView {
            scope: self.scope@,
            hibernatable: self.hibernatable,
            tags: text::texts(self.tags@),
            attachment: match self.attachment {
                Some(bytes) => Some(bytes@),
                None => None,
            },
            pending: self.pending@,
            auto_response_at: self.auto_response_at,
        }
    }
}

/// A socket nothing is known of but its scope and kind.
pub open spec fn blank_meta(scope: Seq<char>, hibernatable: bool, tags: Seq<Seq<char>>) -> MetaView {
    MetaView {
        scope,
        hibernatable,
        tags,
        attachment: None,
        pending: Seq::empty(),
        auto_response_at: None,
    }
}

impl WsMeta {
    fn blank(scope: &str, hibernatable: bool, tags: Vec<String>) -> (r: WsMeta)
        ensures
            r@ == blank_meta(scope@, hibernatable, text::texts(tags@)),
    {
        let r = WsMeta {
            scope: String::from_str(scope),
            hibernatable,
            tags,
            attachment: None,
            pending: Vec::new(),
            auto_response_at: None,
        };
        assert(r@.pending =~= Seq::empty());
        r
    }
}

/// The sockets of an instance.
pub struct WsRegistry<T, P> {
    pub outputs: IdMap<T>,
    pub metadata: IdMap<WsMeta>,
    pub worker_handoffs: IdMap<P>,
}

#[verifier::ext_equal]
pub struct RegistryView<T, P> {
    pub outputs: Map<u64, T>,
    pub metadata: Map<u64, MetaView>,
    pub worker_handoffs: Map<u64, P>,
}

impl<T, P> View for WsRegistry<T, P> {
    type V = RegistryView<T, P>;

    open spec fn view(&self) -> RegistryView<T, P> {
        RegistryView {
            outputs: self.outputs@,
            metadata: self.metadata@.map_values(|m: WsMeta| m@),
            worker_handoffs: self.worker_handoffs@,
        }
    }
}

impl<T, P> RegistryView<T, P> {
    /// The registry after a batch was handed to it: a socket with an output
    /// passes its frames on, one without keeps them, and an unknown one drops
    /// them.
    pub open spec fn emitted(self, frames: Seq<(u64, WsOut)>) -> Self {
        RegistryView {
            metadata: Map::new(
                |id: u64| self.metadata.contains_key(id),
                |id: u64|
                    if self.outputs.contains_key(id) {
                        self.metadata[id]
                    } else {
                        MetaView {
                            pending: self.metadata[id].pending + ws_frames::frames_of(frames, id),
                            ..self.metadata[id]
                        }
                    },
            ),
            ..self
        }
    }

    /// What of a batch goes to outputs, in order.
    pub open spec fn passes(self, frames: Seq<(u64, WsOut)>) -> Seq<(u64, WsOut)> {
        ws_frames::frames_within(frames, self.outputs.dom())
    }

    /// The registry with an output for a socket; what was pending left.
    pub open spec fn with_output(self, id: u64, tx: T) -> Self {
        RegistryView {
            outputs: self.outputs.insert(id, tx),
            metadata: if self.metadata.contains_key(id) {
                self.metadata.insert(id, MetaView { pending: Seq::empty(), ..self.metadata[id] })
            } else {
                self.metadata
            },
            ..self
        }
    }

    pub open spec fn hibernatable(self, id: u64) -> bool {
        self.metadata.contains_key(id) && self.metadata[id].hibernatable
    }
}

impl<T, P> WsRegistry<T, P> {
    pub fn new() -> (r: Self)
        ensures
            r@.outputs == Map::<u64, T>::empty(),
            r@.metadata == Map::<u64, MetaView>::empty(),
            r@.worker_handoffs == Map::<u64, P>::empty(),
    {
        let r = WsRegistry {
            outputs: IdMap::new(),
            metadata: IdMap::new(),
            worker_handoffs: IdMap::new(),
        };
        assert(r@.metadata =~= Map::<u64, MetaView>::empty());
        r
    }

    /// Gives a socket its output, and answers the frames that waited for it.
    pub fn register(&mut self, id: u64, tx: T) -> (pending: Vec<WsOut>)
        ensures
            final(self)@ == old(self)@.with_output(id, tx),
            pending@ == (if old(self)@.metadata.contains_key(id) {
                old(self)@.metadata[id].pending
            } else {
                Seq::empty()
            }),
    {
        let ghost view = self@;
        let mut pending: Vec<WsOut> = Vec::new();
        if let Some(mut meta) = self.metadata.remove(id) {
            pending = meta.pending;
            meta.pending = Vec::new();
            assert(meta.pending@ =~= Seq::empty());
            self.metadata.insert(id, meta);
        }
        self.outputs.insert(id, tx);
        assert(self@ =~= view.with_output(id, tx));
        pending
    }

    fn unregister(&mut self, id: u64) -> (r: Option<WsMeta>)
        ensures
            final(self)@ == (RegistryView {
                outputs: old(self)@.outputs.remove(id),
                metadata: old(self)@.metadata.remove(id),
                ..old(self)@
            }),
            match r {
                Some(meta) => old(self)@.metadata.contains_key(id) && old(self)@.metadata[id]
                    == meta@,
                None => !old(self)@.metadata.contains_key(id),
            },
    {
        let ghost view = self@;
        self.outputs.remove(id);
        let r = self.metadata.remove(id);
        assert(self@.metadata =~= view.metadata.remove(id));
        r
    }

    /// Hands one frame on; the frame comes back where its output sends it.
    pub fn emit(&mut self, id: u64, out: WsOut) -> (r: Option<WsOut>)
        ensures
            final(self)@ == old(self)@.emitted(seq![(id, out)]),
            r == (if old(self)@.outputs.contains_key(id) {
                Some(out)
            } else {
                None
            }),
    {
        let ghost view = self@;
        proof {
            reveal_with_fuel(ws_frames::frames_of, 2);
            assert(seq![(id, out)].drop_last() =~= Seq::empty());
        }
        if self.outputs.contains(id) {
            assert(self@ =~= view.emitted(seq![(id, out)])) by {
                assert forall|other: u64| #[trigger] view.metadata.contains_key(other)
                    && !view.outputs.contains_key(other) implies view.metadata[other]
                    == view.emitted(seq![(id, out)]).metadata[other] by {
                    assert(ws_frames::frames_of(seq![(id, out)], other) =~= Seq::empty());
                    assert(view.metadata[other].pending + Seq::<WsOut>::empty()
                        =~= view.metadata[other].pending);
                }
            }
            return Some(out);
        }
        if let Some(mut meta) = self.metadata.remove(id) {
            meta.pending.push(out);
            self.metadata.insert(id, meta);
        }
        proof {
            assert forall|other: u64| #[trigger] view.metadata.contains_key(other) implies self@.metadata[other]
                =~= view.emitted(seq![(id, out)]).metadata[other] by {
                if other == id {
                    assert(ws_frames::frames_of(seq![(id, out)], id) =~= seq![out]);
                    assert(view.metadata[id].pending + seq![out] =~= view.metadata[id].pending.push(
                        out,
                    ));
                } else {
                    assert(ws_frames::frames_of(seq![(id, out)], other) =~= Seq::empty());
                    assert(view.metadata[other].pending + Seq::<WsOut>::empty()
                        =~= view.metadata[other].pending);
                }
            }
            assert(self@ =~= view.emitted(seq![(id, out)]));
        }
        None
    }

    /// Hands a batch on, and answers what its outputs send, in order.
    pub fn emit_frames(&mut self, frames: Vec<(u64, WsOut)>) -> (sent: Vec<(u64, WsOut)>)
        ensures
            final(self)@ == old(self)@.emitted(frames@),
            sent@ == old(self)@.passes(frames@),
    {
        let ghost view = self@;
        let ghost all = frames@;
        let mut sent: Vec<(u64, WsOut)> = Vec::new();
        proof {
            assert(all.take(0) =~= Seq::empty());
            assert(self@ =~= view.emitted(all.take(0))) by {
                assert forall|id: u64| #[trigger] view.metadata.contains_key(id) implies view.metadata[id]
                    =~= view.emitted(all.take(0)).metadata[id] by {
                    assert(view.metadata[id].pending + ws_frames::frames_of(all.take(0), id)
                        =~= view.metadata[id].pending);
                }
            }
        }
        for frame in iter: frames
            invariant
                iter.seq() == all,
                self@ == view.emitted(all.take(iter.index())),
                sent@ == view.passes(all.take(iter.index())),
        {
            let (id, out) = frame;
            let ghost i = iter.index();
            let ghost before = self@;
            let passed = self.emit(id, out);
            proof {
                assert(all.take(i + 1).drop_last() =~= all.take(i));
                assert(all.take(i + 1).last() == (id, out));
                assert forall|other: u64| #[trigger] view.metadata.contains_key(other) implies self@.metadata[other]
                    =~= view.emitted(all.take(i + 1)).metadata[other] by {
                    assert(all.take(i) + seq![(id, out)] =~= all.take(i + 1));
                    ws_frames::lemma_frames_of_concat(all.take(i), seq![(id, out)], other);
                    assert(before.metadata[other] == view.emitted(all.take(i)).metadata[other]);
                    assert(view.metadata[other].pending + (ws_frames::frames_of(all.take(i), other)
                        + ws_frames::frames_of(seq![(id, out)], other)) =~= (
                    view.metadata[other].pending + ws_frames::frames_of(all.take(i), other))
                        + ws_frames::frames_of(seq![(id, out)], other));
                }
                assert(self@ =~= view.emitted(all.take(i + 1)));
            }
            if let Some(out) = passed {
                sent.push((id, out));
            }
        }
        assert(all.take(all.len() as int) =~= all);
        sent
    }
}

/// Frames that were sent before a socket had its output leave first: the
/// output gets what was pending, then what follows, in order.
pub proof fn pending_frames_leave_first<T, P>(
    view: RegistryView<T, P>,
    id: u64,
    early: Seq<(u64, WsOut)>,
    late: Seq<(u64, WsOut)>,
    tx: T,
)
    requires
        view.metadata.contains_key(id),
        !view.outputs.contains_key(id),
    ensures
        view.emitted(early).metadata[id].pending == view.metadata[id].pending + ws_frames::frames_of(
            early,
            id,
        ),
        view.emitted(early).with_output(id, tx).metadata[id].pending.len() == 0,
        ws_frames::frames_of(view.emitted(early).with_output(id, tx).passes(late), id)
            == ws_frames::frames_of(late, id),
{
    let after = view.emitted(early).with_output(id, tx);
    lemma_within_keeps(late, after.outputs.dom(), id);
}

proof fn lemma_within_keeps(frames: Seq<(u64, WsOut)>, ids: Set<u64>, id: u64)
    requires
        ids.contains(id),
    ensures
        ws_frames::frames_of(ws_frames::frames_within(frames, ids), id) == ws_frames::frames_of(
            frames,
            id,
        ),
    decreases frames.len(),
{
    if frames.len() > 0 {
        lemma_within_keeps(frames.drop_last(), ids, id);
        let rest = ws_frames::frames_within(frames.drop_last(), ids);
        if ids.contains(frames.last().0) {
            assert(rest.push(frames.last()).drop_last() =~= rest);
        }
    }
}

// ---- regular sockets -----------------------------------------------------

/// Whether a socket is a regular one of the scope.
pub open spec fn regular(metadata: Map<u64, MetaView>, id: u64, scope: Seq<char>) -> bool {
    metadata.contains_key(id) && !metadata[id].hibernatable && metadata[id].scope == scope
}

/// The regular sockets of a scope.
pub open spec fn regulars(metadata: Map<u64, MetaView>, scope: Seq<char>) -> Set<u64> {
    metadata.dom().filter(|id: u64| regular(metadata, id, scope))
}

/// The counts are those of the regular sockets, and no count is zero.
pub open spec fn counts_regulars(
    counts: Map<Seq<char>, usize>,
    metadata: Map<u64, MetaView>,
) -> bool {
    forall|scope: Seq<char>|
        {
            &&& #[trigger] counts.contains_key(scope) <==> regulars(metadata, scope).len() > 0
            &&& counts.contains_key(scope) ==> counts[scope] == regulars(metadata, scope).len()
        }
}

proof fn lemma_regulars_change(
    before: Map<u64, MetaView>,
    after: Map<u64, MetaView>,
    id: u64,
    scope: Seq<char>,
)
    requires
        before.dom().finite(),
        forall|other: u64|
            other != id ==> #[trigger] regular(before, other, scope) == regular(
                after,
                other,
                scope,
            ),
    ensures
        regulars(before, scope).finite(),
        regulars(after, scope) == (if regular(after, id, scope) {
            regulars(before, scope).insert(id)
        } else {
            regulars(before, scope).remove(id)
        }),
{
    let a = regulars(before, scope);
    let b = regulars(after, scope);
    assert(a.subset_of(before.dom()));
    vstd::set_lib::lemma_len_subset(a, before.dom());
    assert forall|x: u64| b.contains(x) == (if regular(after, id, scope) {
        a.insert(id)
    } else {
        a.remove(id)
    }).contains(x) by {
        if x != id {
            assert(regular(before, x, scope) == regular(after, x, scope));
        }
    }
    assert(b =~= (if regular(after, id, scope) {
        a.insert(id)
    } else {
        a.remove(id)
    }));
}

/// Counts one more regular socket of a scope.
fn increment_regular_ws(counts: &mut TextMap<usize>, scope: &str)
    requires
        old(counts)@.contains_key(scope@) ==> old(counts)@[scope@] < usize::MAX,
    ensures
        final(counts)@ == old(counts)@.insert(
            scope@,
            if old(counts)@.contains_key(scope@) {
                (old(counts)@[scope@] + 1) as usize
            } else {
                1
            },
        ),
{
    let count: usize = match counts.get(scope) {
        Some(count) => *count,
        None => 0,
    };
    counts.insert(String::from_str(scope), count + 1);
}

/// Counts one regular socket of a scope fewer, and forgets a scope that has
/// none left.
fn decrement_regular_ws(counts: &mut TextMap<usize>, scope: &str)
    ensures
        final(counts)@ == (if !old(counts)@.contains_key(scope@) {
            old(counts)@
        } else if old(counts)@[scope@] <= 1 {
            old(counts)@.remove(scope@)
        } else {
            old(counts)@.insert(scope@, (old(counts)@[scope@] - 1) as usize)
        }),
{
    let count: usize = match counts.get(scope) {
        Some(count) => *count,
        None => {
            return ;
        },
    };
    let left = count.saturating_sub(1);
    if left == 0 {
        counts.remove(scope);
    } else {
        counts.insert(String::from_str(scope), left);
    }
}

/// Every piece of one instance's WebSocket state. A socket's id is allocated
/// here, so it names a socket only within one instance.
pub struct WebSocketService<T, P, Q> {
    pub registry: WsRegistry<T, P>,
    pub regular_counts: TextMap<usize>,
    pub next_id: u64,
    pub auto_responses: TextMap<(String, String)>,
    pub pull: IdMap<Q>,
    pub flush: WsFlushState,
}

impl<T, P, Q> WebSocketService<T, P, Q> {
    /// The regular counts are exact, and what can leave a queue has left.
    pub open spec fn wf(&self) -> bool {
        &&& counts_regulars(self.regular_counts@, self.registry@.metadata)
        &&& self.flush.wf()
    }

    /// The parts that a socket operation does not touch.
    pub open spec fn same_but_registry(&self, other: &Self) -> bool {
        &&& self.next_id == other.next_id
        &&& self.auto_responses == other.auto_responses
        &&& self.pull == other.pull
        &&& self.flush == other.flush
    }

    pub fn new() -> (r: Self)
        ensures
            r.wf(),
            r.next_id == 1,
            r.registry@.metadata == Map::<u64, MetaView>::empty(),
            r.registry@.outputs == Map::<u64, T>::empty(),
            r.auto_responses@ == Map::<Seq<char>, (String, String)>::empty(),
            r.pull@ == Map::<u64, Q>::empty(),
    {
        let r: Self = WebSocketService {
            registry: WsRegistry::new(),
            regular_counts: TextMap::new(),
            next_id: 1,
            auto_responses: TextMap::new(),
            pull: IdMap::new(),
            flush: WsFlushState::new(),
        };
        proof {
            assert forall|scope: Seq<char>|
                {
                    &&& #[trigger] r.regular_counts@.contains_key(scope) <==> regulars(
                        r.registry@.metadata,
                        scope,
                    ).len() > 0
                    &&& r.regular_counts@.contains_key(scope) ==> r.regular_counts@[scope]
                        == regulars(r.registry@.metadata, scope).len()
                } by {
                assert(regulars(r.registry@.metadata, scope) =~= Set::empty());
            }
        }
        r
    }
}

/// The next socket id of an instance.
pub fn ws_next_id<T, P, Q>(service: &mut WebSocketService<T, P, Q>) -> (id: u64)
    requires
        old(service).wf(),
    ensures
        final(service).wf(),
        id == old(service).next_id,
        final(service).next_id == (if id == u64::MAX {
            0
        } else {
            (id + 1) as u64
        }),
        final(service).registry == old(service).registry,
        final(service).regular_counts == old(service).regular_counts,
        final(service).auto_responses == old(service).auto_responses,
        final(service).pull == old(service).pull,
        final(service).flush == old(service).flush,
{
    let id = service.next_id;
    service.next_id = if id == u64::MAX {
        0
    } else {
        id + 1
    };
    id
}

/// Registers the queue an isolate polls for a socket.
pub fn ws_pull_register<T, P, Q>(service: &mut WebSocketService<T, P, Q>, id: u64, rx: Q)
    requires
        old(service).wf(),
    ensures
        final(service).wf(),
        final(service).pull@ == old(service).pull@.insert(id, rx),
        final(service).registry == old(service).registry,
        final(service).regular_counts == old(service).regular_counts,
        final(service).auto_responses == old(service).auto_responses,
        final(service).next_id == old(service).next_id,
        final(service).flush == old(service).flush,
{
    service.pull.insert(id, rx);
}

pub fn ws_pull_unregister<T, P, Q>(service: &mut WebSocketService<T, P, Q>, id: u64)
    requires
        old(service).wf(),
    ensures
        final(service).wf(),
        final(service).pull@ == old(service).pull@.remove(id),
        final(service).registry == old(service).registry,
        final(service).regular_counts == old(service).regular_counts,
        final(service).auto_responses == old(service).auto_responses,
        final(service).next_id == old(service).next_id,
        final(service).flush == old(service).flush,
{
    service.pull.remove(id);
}

/// Whether a queue is still held for a socket.
pub fn ws_pull_registered<T, P, Q>(service: &WebSocketService<T, P, Q>, id: u64) -> (r: bool)
    ensures
        r == service.pull@.contains_key(id),
{
    service.pull.contains(id)
}

/// Whether a scope has a regular socket.
pub fn has_regular_websocket<T, P, Q>(service: &WebSocketService<T, P, Q>, scope: &str) -> (r: bool)
    requires
        service.wf(),
    ensures
        r == (exists|id: u64| #[trigger] regular(service.registry@.metadata, id, scope@)),
{
    let r = match service.regular_counts.get(scope) {
        Some(count) => *count > 0,
        None => false,
    };
    proof {
        let metadata = service.registry@.metadata;
        let set = regulars(metadata, scope@);
        service.registry.metadata.lemma_finite();
        assert(metadata.dom() =~= service.registry.metadata@.dom());
        assert(set.subset_of(metadata.dom()));
        vstd::set_lib::lemma_len_subset(set, metadata.dom());
        assert(service.regular_counts@.contains_key(scope@) == service.regular_counts@.contains_key(
            scope@,
        ));
        if r {
            let id = set.choose();
            assert(set.contains(id));
            assert(regular(metadata, id, scope@));
        }
        if exists|id: u64| #[trigger] regular(metadata, id, scope@) {
            let id = choose|id: u64| #[trigger] regular(metadata, id, scope@);
            assert(set.contains(id));
            assert(set.len() > 0);
        }
    }
    r
}

/// Whether a socket is hibernatable; `None` where it is not registered.
pub fn ws_hibernatable<T, P, Q>(service: &WebSocketService<T, P, Q>, id: u64) -> (r: Option<bool>)
    ensures
        r == (if service.registry@.metadata.contains_key(id) {
            Some(service.registry@.metadata[id].hibernatable)
        } else {
            None
        }),
{
    match service.registry.metadata.get(id) {
        Some(meta) => Some(meta.hibernatable),
        None => None,
    }
}

/// By which channel a socket's frames leave.
#[derive(Clone, Copy, Debug, PartialEq, Eq, Structural)]
pub enum WsChannel {
    /// The host pushes the socket's messages and captures its output.
    Hibernatable,
    /// The isolate opened the socket and polls it itself.
    Own,
}

pub fn ws_channel<T, P, Q>(service: &WebSocketService<T, P, Q>, id: u64) -> (r: WsChannel)
    ensures
        r == (if service.registry@.hibernatable(id) {
            WsChannel::Hibernatable
        } else {
            WsChannel::Own
        }),
{
    match service.registry.metadata.get(id) {
        Some(meta) => if meta.hibernatable {
            WsChannel::Hibernatable
        } else {
            WsChannel::Own
        },
        None => WsChannel::Own,
    }
}

/// Gives a socket its output, and answers what waited for it.
pub fn ws_register<T, P, Q>(service: &mut WebSocketService<T, P, Q>, id: u64, tx: T) -> (pending: Vec<
    WsOut,
>)
    requires
        old(service).wf(),
    ensures
        final(service).wf(),
        final(service).registry@ == old(service).registry@.with_output(id, tx),
        final(service).same_but_registry(old(service)),
        pending@ == (if old(service).registry@.metadata.contains_key(id) {
            old(service).registry@.metadata[id].pending
        } else {
            Seq::empty()
        }),
{
    let ghost before = service.registry@.metadata;
    let pending = service.registry.register(id, tx);
    proof {
        assert(before.dom() =~= service.registry@.metadata.dom());
        lemma_same_regulars(before, service.registry@.metadata, service.regular_counts@);
    }
    pending
}

/// Counts stay exact where no socket changes its scope or kind.
proof fn lemma_same_regulars(
    before: Map<u64, MetaView>,
    after: Map<u64, MetaView>,
    counts: Map<Seq<char>, usize>,
)
    requires
        counts_regulars(counts, before),
        before.dom() == after.dom(),
        forall|id: u64| #[trigger]
            before.contains_key(id) ==> before[id].scope == after[id].scope
                && before[id].hibernatable == after[id].hibernatable,
    ensures
        counts_regulars(counts, after),
{
    assert forall|scope: Seq<char>|
        {
            &&& #[trigger] counts.contains_key(scope) <==> regulars(after, scope).len() > 0
            &&& counts.contains_key(scope) ==> counts[scope] == regulars(after, scope).len()
        } by {
        assert forall|id: u64| regulars(before, scope).contains(id) == regulars(
            after,
            scope,
        ).contains(id) by {
            assert(before.contains_key(id) == after.contains_key(id));
        }
        assert(regulars(before, scope) =~= regulars(after, scope));
    }
}

/// Registers a socket that the cell opened itself, unless it is known.
pub fn ws_register_outbound<T, P, Q>(
    service: &mut WebSocketService<T, P, Q>,
    id: u64,
    scope: &str,
)
    requires
        old(service).wf(),
    ensures
        final(service).wf(),
        final(service).same_but_registry(old(service)),
        final(service).registry@ == (if old(service).registry@.metadata.contains_key(id) {
            old(service).registry@
        } else {
            RegistryView {
                metadata: old(service).registry@.metadata.insert(
                    id,
                    blank_meta(scope@, false, Seq::empty()),
                ),
                ..old(service).registry@
            }
        }),
{
    let ghost before = service.registry@;
    if service.registry.metadata.contains(id) {
        return ;
    }
    let tags: Vec<String> = Vec::new();
    assert(text::texts(tags@) =~= Seq::empty());
    service.registry.metadata.insert(id, WsMeta::blank(scope, false, tags));
    let ghost after = service.registry@;
    proof {
        assert(after.metadata =~= before.metadata.insert(
            id,
            blank_meta(scope@, false, Seq::empty()),
        ));
        service.registry.metadata.lemma_len();
        service.registry.metadata.lemma_finite();
        assert(after.metadata.dom() =~= service.registry.metadata@.dom());
        lemma_counts_inserted(before.metadata, after.metadata, id, service.regular_counts@);
        let set = regulars(after.metadata, scope@);
        assert(set.subset_of(after.metadata.dom()));
        vstd::set_lib::lemma_len_subset(set, after.metadata.dom());
    }
    increment_regular_ws(&mut service.regular_counts, scope);
}

/// What the counts owe after a new regular socket.
proof fn lemma_counts_inserted(
    before: Map<u64, MetaView>,
    after: Map<u64, MetaView>,
    id: u64,
    counts: Map<Seq<char>, usize>,
)
    requires
        counts_regulars(counts, before),
        after.dom().finite(),
        !before.contains_key(id),
        after == before.insert(id, after[id]),
        !after[id].hibernatable,
    ensures
        ({
            let scope = after[id].scope;
            let count = regulars(after, scope).len();
            let was: nat = if counts.contains_key(scope) {
                counts[scope] as nat
            } else {
                0
            };
            &&& count == was + 1
            &&& count <= usize::MAX ==> counts_regulars(
                counts.insert(scope, count as usize),
                after,
            )
        }),
{
    assert(before.dom() =~= after.dom().remove(id));
    let scope = after[id].scope;
    assert forall|s: Seq<char>| #[trigger]
        regulars(after, s) == (if s == scope {
            regulars(before, s).insert(id)
        } else {
            regulars(before, s)
        }) by {
        assert forall|other: u64| other != id implies #[trigger] regular(before, other, s)
            == regular(after, other, s) by {}
        lemma_regulars_change(before, after, id, s);
        assert(!regulars(before, s).contains(id));
        if s != scope {
            assert(regulars(before, s).remove(id) =~= regulars(before, s));
        }
    }
    assert(regulars(after, scope) == regulars(before, scope).insert(id));
    lemma_regulars_change(before, before, id, scope);
    assert(!regulars(before, scope).contains(id));
    assert(counts.contains_key(scope) == counts.contains_key(scope));
    let count = regulars(after, scope).len();
    if count <= usize::MAX {
        let new = counts.insert(scope, count as usize);
        assert forall|s: Seq<char>|
            {
                &&& #[trigger] new.contains_key(s) <==> regulars(after, s).len() > 0
                &&& new.contains_key(s) ==> new[s] == regulars(after, s).len()
            } by {
            assert(counts.contains_key(s) == counts.contains_key(s));
        }
    }
}

/// What the counts owe after a regular socket is gone or is none any longer.
proof fn lemma_counts_removed(
    before: Map<u64, MetaView>,
    after: Map<u64, MetaView>,
    id: u64,
    counts: Map<Seq<char>, usize>,
)
    requires
        counts_regulars(counts, before),
        before.dom().finite(),
        before.contains_key(id),
        !before[id].hibernatable,
        forall|s: Seq<char>| !#[trigger] regular(after, id, s),
        forall|other: u64|
            other != id ==> #[trigger] before.contains_key(other) == after.contains_key(other),
        forall|other: u64|
            other != id && #[trigger] before.contains_key(other) ==> before[other] == after[other],
    ensures
        ({
            let scope = before[id].scope;
            &&& counts.contains_key(scope)
            &&& counts_regulars(
                if counts[scope] <= 1 {
                    counts.remove(scope)
                } else {
                    counts.insert(scope, (counts[scope] - 1) as usize)
                },
                after,
            )
        }),
{
    let scope = before[id].scope;
    assert forall|s: Seq<char>| #[trigger]
        regulars(after, s) == (if s == scope {
            regulars(before, s).remove(id)
        } else {
            regulars(before, s)
        }) && regulars(before, s).finite() by {
        assert forall|other: u64| other != id implies #[trigger] regular(before, other, s)
            == regular(after, other, s) by {
            assert(before.contains_key(other) == after.contains_key(other));
        }
        assert(!regular(after, id, s));
        lemma_regulars_change(before, after, id, s);
        if s != scope {
            assert(!regulars(before, s).contains(id));
            assert(regulars(before, s).remove(id) =~= regulars(before, s));
        }
    }
    assert(regulars(after, scope) == regulars(before, scope).remove(id));
    assert(regular(before, id, scope));
    assert(regulars(before, scope).contains(id));
    assert(regulars(before, scope).len() > 0);
    assert(counts.contains_key(scope));
    let new = if counts[scope] <= 1 {
        counts.remove(scope)
    } else {
        counts.insert(scope, (counts[scope] - 1) as usize)
    };
    assert forall|s: Seq<char>|
        {
            &&& #[trigger] new.contains_key(s) <==> regulars(after, s).len() > 0
            &&& new.contains_key(s) ==> new[s] == regulars(after, s).len()
        } by {
        assert(regulars(after, s).len() == regulars(after, s).len());
        assert(counts.contains_key(s) == counts.contains_key(s));
    }
}

/// Counts stay exact where the socket that changes is no regular one before
/// or after.
proof fn lemma_counts_kept(
    before: Map<u64, MetaView>,
    after: Map<u64, MetaView>,
    id: u64,
    counts: Map<Seq<char>, usize>,
)
    requires
        counts_regulars(counts, before),
        forall|s: Seq<char>| !#[trigger] regular(before, id, s),
        forall|s: Seq<char>| !#[trigger] regular(after, id, s),
        forall|other: u64|
            other != id ==> #[trigger] before.contains_key(other) == after.contains_key(other),
        forall|other: u64|
            other != id && #[trigger] before.contains_key(other) ==> before[other] == after[other],
    ensures
        counts_regulars(counts, after),
{
    assert forall|s: Seq<char>|
        {
            &&& #[trigger] counts.contains_key(s) <==> regulars(after, s).len() > 0
            &&& counts.contains_key(s) ==> counts[s] == regulars(after, s).len()
        } by {
        assert forall|x: u64| regulars(before, s).contains(x) == regulars(after, s).contains(x) by {
            if x == id {
                assert(!regular(before, id, s));
                assert(!regular(after, id, s));
            } else {
                assert(before.contains_key(x) == after.contains_key(x));
            }
        }
        assert(regulars(before, s) =~= regulars(after, s));
    }
}

/// Forgets a socket.
pub fn ws_unregister<T, P, Q>(service: &mut WebSocketService<T, P, Q>, id: u64)
    requires
        old(service).wf(),
    ensures
        final(service).wf(),
        final(service).same_but_registry(old(service)),
        final(service).registry@ == (RegistryView {
            outputs: old(service).registry@.outputs.remove(id),
            metadata: old(service).registry@.metadata.remove(id),
            ..old(service).registry@
        }),
{
    let ghost before = service.registry@.metadata;
    proof {
        service.registry.metadata.lemma_finite();
        assert(before.dom() =~= service.registry.metadata@.dom());
    }
    let meta = service.registry.unregister(id);
    let ghost after = service.registry@.metadata;
    match meta {
        Some(meta) => {
            if !meta.hibernatable {
                proof {
                    lemma_counts_removed(before, after, id, service.regular_counts@);
                }
                decrement_regular_ws(&mut service.regular_counts, meta.scope.as_str());
            } else {
                proof {
                    lemma_counts_kept(before, after, id, service.regular_counts@);
                }
            }
        },
        None => {
            proof {
                lemma_counts_kept(before, after, id, service.regular_counts@);
            }
        },
    }
}

impl<T, P> RegistryView<T, P> {
    /// The registry after a socket was accepted as hibernatable.
    pub open spec fn accepted(self, id: u64, scope: Seq<char>, tags: Seq<Seq<char>>) -> Self {
        RegistryView {
            metadata: self.metadata.insert(
                id,
                if self.metadata.contains_key(id) {
                    MetaView { scope, hibernatable: true, tags, ..self.metadata[id] }
                } else {
                    blank_meta(scope, true, tags)
                },
            ),
            ..self
        }
    }
}

/// Accepts a socket as hibernatable under its tags. A regular one that turns
/// hibernatable is no longer counted.
pub fn ws_accept<T, P, Q>(
    service: &mut WebSocketService<T, P, Q>,
    id: u64,
    scope: &str,
    tags: Vec<String>,
)
    requires
        old(service).wf(),
    ensures
        final(service).wf(),
        final(service).same_but_registry(old(service)),
        final(service).registry@ == old(service).registry@.accepted(id, scope@, text::texts(tags@)),
{
    let ghost before = service.registry@.metadata;
    proof {
        service.registry.metadata.lemma_finite();
        assert(before.dom() =~= service.registry.metadata@.dom());
    }
    match service.registry.metadata.remove(id) {
        Some(meta) => {
            let was_regular = !meta.hibernatable;
            let was_scope = meta.scope;
            service.registry.metadata.insert(
                id,
                WsMeta {
                    scope: String::from_str(scope),
                    hibernatable: true,
                    tags,
                    attachment: meta.attachment,
                    pending: meta.pending,
                    auto_response_at: meta.auto_response_at,
                },
            );
            let ghost after = service.registry@.metadata;
            assert(after =~= before.insert(id, after[id]));
            if was_regular {
                proof {
                    lemma_counts_removed(before, after, id, service.regular_counts@);
                }
                decrement_regular_ws(&mut service.regular_counts, was_scope.as_str());
            } else {
                proof {
                    lemma_counts_kept(before, after, id, service.regular_counts@);
                }
            }
        },
        None => {
            service.registry.metadata.insert(id, WsMeta::blank(scope, true, tags));
            let ghost after = service.registry@.metadata;
            assert(after =~= before.insert(id, after[id]));
            proof {
                lemma_counts_kept(before, after, id, service.regular_counts@);
            }
        },
    }
}

/// Accepts a socket as a regular one, unless it is known.
pub fn ws_accept_regular<T, P, Q>(service: &mut WebSocketService<T, P, Q>, id: u64, scope: &str)
    requires
        old(service).wf(),
    ensures
        final(service).wf(),
        final(service).same_but_registry(old(service)),
        final(service).registry@ == (if old(service).registry@.metadata.contains_key(id) {
            old(service).registry@
        } else {
            RegistryView {
                metadata: old(service).registry@.metadata.insert(
                    id,
                    blank_meta(scope@, false, Seq::empty()),
                ),
                ..old(service).registry@
            }
        }),
{
    ws_register_outbound(service, id, scope)
}

/// Keeps a socket's attachment, where the socket is known.
pub fn ws_attachment_set<T, P, Q>(
    service: &mut WebSocketService<T, P, Q>,
    id: u64,
    attachment: Vec<u8>,
)
    requires
        old(service).wf(),
    ensures
        final(service).wf(),
        final(service).same_but_registry(old(service)),
        final(service).regular_counts == old(service).regular_counts,
        final(service).registry@ == (if old(service).registry@.metadata.contains_key(id) {
            RegistryView {
                metadata: old(service).registry@.metadata.insert(
                    id,
                    MetaView {
                        attachment: Some(attachment@),
                        ..old(service).registry@.metadata[id]
                    },
                ),
                ..old(service).registry@
            }
        } else {
            old(service).registry@
        }),
{
    let ghost before = service.registry@.metadata;
    if let Some(mut meta) = service.registry.metadata.remove(id) {
        meta.attachment = Some(attachment);
        service.registry.metadata.insert(id, meta);
        let ghost after = service.registry@.metadata;
        proof {
            assert(after =~= before.insert(id, after[id]));
            assert(before.dom() =~= after.dom());
            lemma_same_regulars(before, after, service.regular_counts@);
        }
    } else {
        assert(service.registry@.metadata =~= before);
    }
}

// ---- auto-responses ------------------------------------------------------

/// The reply to a message that a scope's auto-response matches.
pub open spec fn auto_reply<T, P, Q>(
    service: &WebSocketService<T, P, Q>,
    scope: Seq<char>,
    id: u64,
    message: Seq<char>,
) -> Option<Seq<char>> {
    if service.auto_responses@.contains_key(scope) && service.auto_responses@[scope].0@ == message
        && service.registry@.hibernatable(id) {
        Some(service.auto_responses@[scope].1@)
    } else {
        None
    }
}

/// Answers a message that matches the scope's auto-response, and stamps the
/// socket; the message then never reaches the cell. Only hibernatable sockets
/// take part.
pub fn ws_auto_response<T, P, Q>(
    service: &mut WebSocketService<T, P, Q>,
    scope: &str,
    id: u64,
    message: &str,
    wall_ms: u64,
) -> (r: Option<String>)
    requires
        old(service).wf(),
    ensures
        final(service).wf(),
        final(service).same_but_registry(old(service)),
        match r {
            Some(reply) => auto_reply(old(service), scope@, id, message@) == Some(reply@),
            None => auto_reply(old(service), scope@, id, message@) is None,
        },
        final(service).registry@ == (if r is Some {
            RegistryView {
                metadata: old(service).registry@.metadata.insert(
                    id,
                    MetaView {
                        auto_response_at: Some(wall_ms),
                        ..old(service).registry@.metadata[id]
                    },
                ),
                ..old(service).registry@
            }
        } else {
            old(service).registry@
        }),
{
    let ghost before = service.registry@.metadata;
    let reply = match service.auto_responses.get(scope) {
        Some(pair) => {
            if !text::same(pair.0.as_str(), message) {
                return None;
            }
            pair.1.clone()
        },
        None => {
            return None;
        },
    };
    let hibernatable = match service.registry.metadata.get(id) {
        Some(meta) => meta.hibernatable,
        None => false,
    };
    if !hibernatable {
        return None;
    }
    if let Some(mut meta) = service.registry.metadata.remove(id) {
        meta.auto_response_at = Some(wall_ms);
        service.registry.metadata.insert(id, meta);
    }
    let ghost after = service.registry@.metadata;
    proof {
        assert(after =~= before.insert(id, after[id]));
        assert(before.dom() =~= after.dom());
        lemma_same_regulars(before, after, service.regular_counts@);
    }
    Some(reply)
}

/// Sets a scope's auto-response, or takes it away.
pub fn ws_auto_response_set<T, P, Q>(
    service: &mut WebSocketService<T, P, Q>,
    scope: &str,
    pair: Option<(String, String)>,
)
    requires
        old(service).wf(),
    ensures
        final(service).wf(),
        final(service).registry == old(service).registry,
        final(service).regular_counts == old(service).regular_counts,
        final(service).next_id == old(service).next_id,
        final(service).pull == old(service).pull,
        final(service).flush == old(service).flush,
        final(service).auto_responses@ == (match pair {
            Some(pair) => old(service).auto_responses@.insert(scope@, pair),
            None => old(service).auto_responses@.remove(scope@),
        }),
{
    match pair {
        Some(pair) => {
            service.auto_responses.insert(String::from_str(scope), pair);
        },
        None => {
            service.auto_responses.remove(scope);
        },
    }
}

/// When a socket was last answered automatically.
pub fn ws_auto_response_ts<T, P, Q>(service: &WebSocketService<T, P, Q>, id: u64) -> (r: Option<u64>)
    ensures
        r == (if service.registry@.metadata.contains_key(id) {
            service.registry@.metadata[id].auto_response_at
        } else {
            None
        }),
{
    match service.registry.metadata.get(id) {
        Some(meta) => meta.auto_response_at,
        None => None,
    }
}

// ---- sending -------------------------------------------------------------

/// Sends a batch on its sockets, or holds it behind its gate; answers the
/// flush it opened and the frames to put on the wire now, in order.
pub fn ws_send<T, P, Q>(
    service: &mut WebSocketService<T, P, Q>,
    frames: Vec<(u64, WsOut)>,
    gated: bool,
) -> (r: (Option<WsFlushGuard>, Vec<(u64, WsOut)>))
    requires
        old(service).wf(),
        old(service).flush.has_room(),
    ensures
        final(service).wf(),
        final(service).next_id == old(service).next_id,
        final(service).auto_responses == old(service).auto_responses,
        final(service).pull == old(service).pull,
        ({
            let end = ws_flush::Batch::start(
                old(service).flush.queues(),
                old(service).flush.next_token,
            ).with_all(frames@, gated);
            &&& final(service).flush.queues() == end.queues
            &&& final(service).flush.next_token == end.next_token
            &&& final(service).flush.flushes@ == ws_flush::counted(
                old(service).flush.flushes@,
                end.segments,
            )
            &&& final(service).registry@ == old(service).registry@.emitted(end.direct)
            &&& r.1@ == old(service).registry@.passes(end.direct)
            &&& match r.0 {
                Some(guard) => guard.segments@ == end.segments && gated && frames@.len() > 0,
                None => end.segments.len() == 0 && (!gated || frames@.len() == 0),
            }
        }),
{
    let ghost before = service.registry@.metadata;
    let (guard, direct) = service.flush.emit_or_defer(frames, gated);
    let sent = service.registry.emit_frames(direct);
    proof {
        assert(before.dom() =~= service.registry@.metadata.dom());
        lemma_same_regulars(before, service.registry@.metadata, service.regular_counts@);
    }
    (guard, sent)
}

/// Releases a batch that a cell's own barrier let go. It joins the queue of a
/// socket that still holds frames, so that it cannot overtake them.
pub fn ws_emit_batch<T, P, Q>(
    service: &mut WebSocketService<T, P, Q>,
    frames: Vec<(u64, WsOut)>,
) -> (sent: Vec<(u64, WsOut)>)
    requires
        old(service).wf(),
    ensures
        final(service).wf(),
        final(service).next_id == old(service).next_id,
        final(service).auto_responses == old(service).auto_responses,
        final(service).pull == old(service).pull,
        final(service).flush.flushes@ == old(service).flush.flushes@,
        ({
            let end = ws_flush::Batch::start(
                old(service).flush.queues(),
                old(service).flush.next_token,
            ).with_all(frames@, false);
            &&& final(service).flush.queues() == end.queues
            &&& final(service).flush.next_token == end.next_token
            &&& final(service).registry@ == old(service).registry@.emitted(end.direct)
            &&& sent@ == old(service).registry@.passes(end.direct)
        }),
{
    let ghost before = service.registry@.metadata;
    let direct = service.flush.emit_released(frames);
    let sent = service.registry.emit_frames(direct);
    proof {
        assert(before.dom() =~= service.registry@.metadata.dom());
        lemma_same_regulars(before, service.registry@.metadata, service.regular_counts@);
    }
    sent
}

/// Gives a flush its verdict, and answers the frames to put on the wire now.
pub fn ws_release<T, P, Q>(
    service: &mut WebSocketService<T, P, Q>,
    guard: WsFlushGuard,
    verdict: Verdict,
) -> (sent: Vec<(u64, WsOut)>)
    requires
        old(service).wf(),
    ensures
        final(service).wf(),
        final(service).next_id == old(service).next_id,
        final(service).auto_responses == old(service).auto_responses,
        final(service).pull == old(service).pull,
        final(service).flush.queues() == ws_flush::answered(
            old(service).flush.queues(),
            guard.segments@,
            verdict,
        ),
        final(service).flush.flushes@ == ws_flush::uncounted(
            old(service).flush.flushes@,
            guard.segments@,
        ),
        exists|sending: Seq<(u64, WsOut)>|
            {
                &&& #[trigger] ws_flush::answer_sends(
                    old(service).flush.queues(),
                    guard.segments@,
                    verdict,
                    sending,
                )
                &&& final(service).registry@ == old(service).registry@.emitted(sending)
                &&& sent@ == old(service).registry@.passes(sending)
            },
{
    let ghost before = service.registry@.metadata;
    let sending = service.flush.release(guard, verdict);
    let ghost all = sending@;
    let sent = service.registry.emit_frames(sending);
    proof {
        assert(before.dom() =~= service.registry@.metadata.dom());
        lemma_same_regulars(before, service.registry@.metadata, service.regular_counts@);
        assert(ws_flush::answer_sends(
            old(service).flush.queues(),
            guard.segments@,
            verdict,
            all,
        ));
    }
    sent
}

/// How many frames are held for a socket.
pub fn ws_deferred_count<T, P, Q>(service: &WebSocketService<T, P, Q>, id: u64) -> (r: usize)
    requires
        ws_flush::held_of(service.flush.queues(), id).len() <= usize::MAX,
    ensures
        r == ws_flush::held_of(service.flush.queues(), id).len(),
{
    service.flush.held_count(id)
}

/// Closes one socket; answers the close where the socket's output sends it.
pub fn ws_close<T, P, Q>(
    service: &mut WebSocketService<T, P, Q>,
    id: u64,
    code: u16,
    reason: &str,
) -> (r: Option<WsOut>)
    requires
        old(service).wf(),
    ensures
        final(service).wf(),
        final(service).same_but_registry(old(service)),
        exists|close: WsOut|
            {
                &&& close matches WsOut::Close(c, t) && c == code && t@ == reason@
                &&& final(service).registry@ == #[trigger] old(service).registry@.emitted(
                    seq![(id, close)],
                )
                &&& r == (if old(service).registry@.outputs.contains_key(id) {
                    Some(close)
                } else {
                    None
                })
            },
{
    let ghost before = service.registry@.metadata;
    let close = WsOut::Close(code, String::from_str(reason));
    let ghost sent = close;
    let r = service.registry.emit(id, close);
    proof {
        assert(before.dom() =~= service.registry@.metadata.dom());
        lemma_same_regulars(before, service.registry@.metadata, service.regular_counts@);
        assert(sent matches WsOut::Close(c, t) && c == code && t@ == reason@);
    }
    r
}

/// The sockets of a scope, lowest id first.
pub open spec fn sockets_of(metadata: Map<u64, MetaView>, scope: Seq<char>) -> Set<u64> {
    metadata.dom().filter(|id: u64| metadata[id].scope == scope)
}

/// Whether a batch is one close for each of the sockets, in order.
pub open spec fn closes_each(
    frames: Seq<(u64, WsOut)>,
    ids: Seq<u64>,
    code: u16,
    reason: Seq<char>,
) -> bool {
    &&& frames.len() == ids.len()
    &&& forall|i: int|
        0 <= i < ids.len() ==> (#[trigger] frames[i]).0 == ids[i] && (frames[i].1 matches WsOut::Close(
            c,
            t,
        ) && c == code && t@ == reason)
}

/// Breaks a cell: closes every socket of its scope and takes its auto-response
/// away, since a reset cell is a new actor.
pub fn ws_close_scope<T, P, Q>(
    service: &mut WebSocketService<T, P, Q>,
    scope: &str,
    code: u16,
    reason: &str,
) -> (sent: Vec<(u64, WsOut)>)
    requires
        old(service).wf(),
    ensures
        final(service).wf(),
        final(service).next_id == old(service).next_id,
        final(service).pull == old(service).pull,
        final(service).flush == old(service).flush,
        final(service).auto_responses@ == old(service).auto_responses@.remove(scope@),
        exists|closes: Seq<(u64, WsOut)>, ids: Seq<u64>|
            {
                &&& crate::maps::lists(ids, sockets_of(old(service).registry@.metadata, scope@))
                &&& #[trigger] closes_each(closes, ids, code, reason@)
                &&& final(service).registry@ == old(service).registry@.emitted(closes)
                &&& sent@ == old(service).registry@.passes(closes)
            },
{
    let ghost view = service.registry@;
    let ghost set = sockets_of(view.metadata, scope@);
    service.auto_responses.remove(scope);
    let all = service.registry.metadata.ids();
    let mut closes: Vec<(u64, WsOut)> = Vec::new();
    let ghost mut chosen: Seq<u64> = Seq::empty();
    let mut i: usize = 0;
    while i < all.len()
        invariant
            i <= all.len(),
            view == service.registry@,
            set == sockets_of(view.metadata, scope@),
            crate::maps::lists(all@, service.registry.metadata@.dom()),
            closes_each(closes@, chosen, code, reason@),
            crate::maps::ascending(chosen),
            forall|k: int| 0 <= k < chosen.len() ==> set.contains(#[trigger] chosen[k]),
            forall|k: int|
                0 <= k < i && set.contains(#[trigger] all@[k]) ==> chosen.contains(all@[k]),
            forall|k: int|
                0 <= k < chosen.len() ==> exists|j: int|
                    0 <= j < i && #[trigger] all@[j] == #[trigger] chosen[k],
        decreases all.len() - i,
    {
        let id = all[i];
        let ghost before = chosen;
        assert(all@.to_set().contains(id));
        if let Some(meta) = service.registry.metadata.get(id) {
            if text::same(meta.scope.as_str(), scope) {
                proof {
                    assert forall|k: int| 0 <= k < chosen.len() implies #[trigger] chosen[k] < id by {
                        let j = choose|j: int| 0 <= j < i && #[trigger] all@[j] == chosen[k];
                        assert(all@[j] < all@[i as int]);
                    }
                    chosen = chosen.push(id);
                    assert(chosen[before.len() as int] == id);
                }
                closes.push((id, WsOut::Close(code, String::from_str(reason))));
            }
        }
        i = i + 1;
        proof {
            assert forall|k: int| 0 <= k < i && set.contains(#[trigger] all@[k]) implies chosen.contains(
                all@[k],
            ) by {
                if k < i - 1 {
                    let m = choose|m: int| 0 <= m < before.len() && before[m] == all@[k];
                    assert(chosen[m] == all@[k]);
                }
            }
        }
    }
    proof {
        assert forall|id: u64| chosen.to_set().contains(id) == set.contains(id) by {
            if set.contains(id) {
                assert(all@.to_set().contains(id));
                let k = choose|k: int| 0 <= k < all@.len() && all@[k] == id;
                assert(chosen.contains(all@[k]));
            }
            if chosen.contains(id) {
                let k = choose|k: int| 0 <= k < chosen.len() && chosen[k] == id;
                assert(set.contains(chosen[k]));
            }
        }
        assert(chosen.to_set() =~= set);
    }
    let ghost batch = closes@;
    let sent = service.registry.emit_frames(closes);
    proof {
        assert(view.metadata.dom() =~= service.registry@.metadata.dom());
        lemma_same_regulars(view.metadata, service.registry@.metadata, service.regular_counts@);
        assert(closes_each(batch, chosen, code, reason@));
    }
    sent
}

// ---- laws ----------------------------------------------------------------

/// A close event's body says its code, its reason and whether it was clean, each
/// under its own name.
pub proof fn closes_are_told(code: u16, reason: Seq<char>, was_clean: bool)
    ensures
        close_json(code, reason, was_clean).member("code"@) == Some(JsonView::Int(code as int)),
        close_json(code, reason, was_clean).member("reason"@) == Some(JsonView::Text(reason)),
        close_json(code, reason, was_clean).member("wasClean"@) == Some(JsonView::Bool(was_clean)),
{
    reveal_strlit("code");
    reveal_strlit("reason");
    reveal_strlit("wasClean");
    assert("code"@.len() == 4 && "reason"@.len() == 6 && "wasClean"@.len() == 8);
    let members = close_json(code, reason, was_clean)->Object_0;
    json::a_member_is_found(members, 0);
    json::a_member_is_found(members, 1);
    json::a_member_is_found(members, 2);
}

/// The kinds of events are told apart by their tags, and what an event is
/// charged for is what it carries: but for a close, whose body says more than
/// its reason, that is its body.
pub proof fn events_are_told_apart(a: WsPull, b: WsPull)
    ensures
        a.tag() == b.tag() <==> (a is Text <==> b is Text) && (a is Binary <==> b is Binary) && (
        a is Open <==> b is Open) && (a is Close <==> b is Close),
        a is Text <==> a.tag() == 0,
        a is Binary <==> a.tag() == 1,
        a is Open <==> a.tag() == 2,
        a is Close <==> a.tag() == 3,
        a !is Close ==> a.payload_len() == a.body().len(),
        a matches WsPull::Close(_, reason, _) ==> a.payload_len() == vstd::utf8::encode_utf8(
            a->Close_1@,
        ).len(),
        a matches WsPull::Binary(bytes) ==> a.body() == a->Binary_0@,
{
}

/// A socket that was accepted is one whose messages the host pushes, of the
/// scope and with the tags it was accepted under; what was attached to it and
/// what waits for its output stays. No other socket changes.
pub proof fn accepted_sockets_hibernate<T, P>(
    view: RegistryView<T, P>,
    id: u64,
    other: u64,
    scope: Seq<char>,
    tags: Seq<Seq<char>>,
)
    requires
        other != id,
    ensures
        ({
            let after = view.accepted(id, scope, tags);
            &&& after.hibernatable(id)
            &&& after.metadata[id].scope == scope && after.metadata[id].tags == tags
            &&& forall|s: Seq<char>| !(#[trigger] regular(after.metadata, id, s))
            &&& view.metadata.contains_key(id) ==> after.metadata[id].pending
                == view.metadata[id].pending && after.metadata[id].attachment
                == view.metadata[id].attachment && after.metadata[id].auto_response_at
                == view.metadata[id].auto_response_at
            &&& !view.metadata.contains_key(id) ==> after.metadata[id].pending.len() == 0
                && after.metadata[id].attachment is None
            &&& after.metadata.contains_key(other) == view.metadata.contains_key(other)
            &&& view.metadata.contains_key(other) ==> after.metadata[other]
                == view.metadata[other]
            &&& after.outputs == view.outputs && after.worker_handoffs == view.worker_handoffs
        }),
{
}

/// A message is answered by the host exactly where it is the one that the scope
/// has an answer to and the socket is one whose messages the host pushes; the
/// answer is that of the scope.
pub proof fn known_messages_are_answered<T, P, Q>(
    service: WebSocketService<T, P, Q>,
    scope: Seq<char>,
    id: u64,
    message: Seq<char>,
)
    ensures
        auto_reply(&service, scope, id, message) is Some ==> {
            &&& service.auto_responses@.contains_key(scope)
            &&& service.auto_responses@[scope].0@ == message
            &&& service.auto_responses@[scope].1@ == auto_reply(&service, scope, id, message)->0
            &&& service.registry@.metadata.contains_key(id)
            &&& service.registry@.metadata[id].hibernatable
        },
        service.auto_responses@.contains_key(scope) && service.registry@.metadata.contains_key(id)
            && service.registry@.metadata[id].hibernatable ==> auto_reply(
            &service,
            scope,
            id,
            service.auto_responses@[scope].0@,
        ) == Some(service.auto_responses@[scope].1@),
{
}

/// A frame to a socket with an output is passed on and kept nowhere; one to a
/// socket without is kept with it; one to a socket that nobody knows is dropped.
pub proof fn frames_go_or_wait<T, P>(view: RegistryView<T, P>, id: u64, out: WsOut)
    ensures
        ({
            let frames = seq![(id, out)];
            let after = view.emitted(frames);
            &&& view.outputs.contains_key(id) ==> view.passes(frames) == frames && after.metadata
                == view.metadata
            &&& !view.outputs.contains_key(id) ==> view.passes(frames).len() == 0
            &&& !view.outputs.contains_key(id) && view.metadata.contains_key(id)
                ==> after.metadata[id].pending == view.metadata[id].pending.push(out)
            &&& !view.metadata.contains_key(id) ==> after.metadata == view.metadata
            &&& after.outputs == view.outputs
        }),
{
    let frames = seq![(id, out)];
    let after = view.emitted(frames);
    reveal_with_fuel(ws_frames::frames_of, 2);
    reveal_with_fuel(ws_frames::frames_within, 2);
    assert(frames.drop_last() =~= Seq::<(u64, WsOut)>::empty());
    assert(ws_frames::frames_of(frames, id) =~= seq![out]);
    assert forall|other: u64| other != id implies #[trigger] ws_frames::frames_of(frames, other)
        =~= Seq::<WsOut>::empty() by {}
    if view.outputs.contains_key(id) {
        assert(view.passes(frames) =~= frames);
    }
    assert forall|other: u64|
        view.metadata.contains_key(other) && other != id implies #[trigger] after.metadata[other]
        == view.metadata[other] by {
        assert(view.metadata[other].pending + Seq::<WsOut>::empty()
            =~= view.metadata[other].pending);
        assert(after.metadata[other] =~= view.metadata[other]);
    }
    if view.outputs.contains_key(id) || !view.metadata.contains_key(id) {
        assert(after.metadata =~= view.metadata);
    }
    if !view.outputs.contains_key(id) && view.metadata.contains_key(id) {
        assert(view.metadata[id].pending + seq![out] =~= view.metadata[id].pending.push(out));
    }
}

/// A cell that breaks has every socket of its scope closed, each once, with the
/// code and the reason, and no socket of another scope.
pub proof fn broken_cells_close_their_sockets(
    metadata: Map<u64, MetaView>,
    scope: Seq<char>,
    frames: Seq<(u64, WsOut)>,
    ids: Seq<u64>,
    code: u16,
    reason: Seq<char>,
    id: u64,
)
    requires
        crate::maps::lists(ids, sockets_of(metadata, scope)),
        closes_each(frames, ids, code, reason),
        metadata.contains_key(id),
    ensures
        metadata[id].scope == scope ==> exists|i: int|
            {
                &&& 0 <= i < frames.len()
                &&& (#[trigger] frames[i]).0 == id
                &&& frames[i].1 is Close && frames[i].1->Close_0 == code && frames[i].1->Close_1@
                    == reason
            },
        metadata[id].scope != scope ==> forall|i: int|
            0 <= i < frames.len() ==> (#[trigger] frames[i]).0 != id,
        forall|i: int, j: int|
            0 <= i < j < frames.len() ==> (#[trigger] frames[i]).0 != (#[trigger] frames[j]).0,
{
    let set = sockets_of(metadata, scope);
    if metadata[id].scope == scope {
        assert(set.contains(id));
        assert(ids.to_set().contains(id));
        let i = choose|i: int| 0 <= i < ids.len() && ids[i] == id;
        assert(frames[i].0 == id);
    } else {
        assert forall|i: int| 0 <= i < frames.len() implies (#[trigger] frames[i]).0 != id by {
            assert(ids.to_set().contains(ids[i]));
            assert(set.contains(ids[i]));
        }
    }
    assert forall|i: int, j: int| 0 <= i < j < frames.len() implies (#[trigger] frames[i]).0 != (
    #[trigger] frames[j]).0 by {
        assert(ids[i] < ids[j]);
    }
}

} // verus!
