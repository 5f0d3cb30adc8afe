//! Frames held behind output gates: one ordered queue of segments for each
//! socket, and the flushes that will release them.
use vstd::prelude::*;
#[allow(unused_imports)]
use vstd::string::*;

use crate::maps::IdMap;
use crate::ws_frames::WsOut;
#[allow(unused_imports)]
use crate::ws_frames;

verus! {

/// Why a socket is closed whose held frames cannot be proved.
pub const UNPROVEN_CLOSE_CODE: u16 = 1011;

pub const UNPROVEN_CLOSE_REASON: &'static str =
    "celld could not prove the write behind this message durable";

/// What a gate answered.
#[derive(Clone, Copy, Debug, PartialEq, Eq, Structural)]
pub enum Verdict {
    Released,
    Refused,
}

/// The frames of one flush inside a socket's queue. Every flush has a verdict
/// of its own, so releasing a whole queue on an earlier one would send frames
/// before their own proof.
pub struct WsSegment {
    pub token: u64,
    pub frames: Vec<WsOut>,
    pub settled: Option<Verdict>,
}

#[verifier::ext_equal]
pub struct SegmentView {
    pub token: u64,
    pub frames: Seq<WsOut>,
    pub settled: Option<Verdict>,
}

impl View for WsSegment {
    type V = SegmentView;

    open spec fn view(&self) -> SegmentView {
        SegmentView { token: self.token, frames: self.frames@, settled: self.settled }
    }
}

/// A queue as it is reasoned about.
pub open spec fn queue_view(queue: Seq<WsSegment>) -> Seq<SegmentView> {
    Seq::new(queue.len(), |i: int| queue[i]@)
}

/// The queues of all sockets.
pub type Queues = Map<u64, Seq<SegmentView>>;

/// All frames that a queue holds, in order.
pub open spec fn held(queue: Seq<SegmentView>) -> Seq<WsOut>
    decreases queue.len(),
{
    if queue.len() == 0 {
        Seq::empty()
    } else {
        held(queue.drop_last()) + queue.last().frames
    }
}

/// The frames a socket holds.
pub open spec fn held_of(queues: Queues, id: u64) -> Seq<WsOut> {
    if queues.contains_key(id) {
        held(queues[id])
    } else {
        Seq::empty()
    }
}

/// How many segments at the front of a queue are released.
pub open spec fn released_len(queue: Seq<SegmentView>) -> nat
    decreases queue.len(),
{
    if queue.len() > 0 && queue[0].settled == Some(Verdict::Released) {
        1 + released_len(queue.skip(1))
    } else {
        0
    }
}

/// The close that ends a socket whose frames cannot be proved.
pub open spec fn is_unproven_close(out: WsOut) -> bool {
    out matches WsOut::Close(code, reason) && code == UNPROVEN_CLOSE_CODE && reason@
        == UNPROVEN_CLOSE_REASON@
}

/// A queue from its first segment on that is not released.
pub open spec fn unreleased(queue: Seq<SegmentView>) -> Seq<SegmentView> {
    queue.skip(released_len(queue) as int)
}

/// Whether the first segment that is not released was refused.
pub open spec fn refused(queue: Seq<SegmentView>) -> bool {
    unreleased(queue).len() > 0 && unreleased(queue)[0].settled == Some(Verdict::Refused)
}

/// The queues after one socket's settled prefix left.
pub open spec fn drained(queues: Queues, id: u64) -> Queues {
    if !queues.contains_key(id) {
        queues
    } else if refused(queues[id]) || unreleased(queues[id]).len() == 0 {
        queues.remove(id)
    } else {
        queues.insert(id, unreleased(queues[id]))
    }
}

/// What draining a socket sends: the frames of the released segments in front,
/// and, where the next one was refused, a close in place of the rest.
pub open spec fn drain_sends(queues: Queues, id: u64, sent: Seq<WsOut>) -> bool {
    if !queues.contains_key(id) {
        sent.len() == 0
    } else {
        let out = held(queues[id].take(released_len(queues[id]) as int));
        if refused(queues[id]) {
            &&& sent.len() == out.len() + 1
            &&& sent.drop_last() == out
            &&& is_unproven_close(sent.last())
        } else {
            sent == out
        }
    }
}

/// The queue with the first segment of the token settled.
pub open spec fn settle(queue: Seq<SegmentView>, token: u64, verdict: Verdict) -> Seq<SegmentView>
    decreases queue.len(),
{
    if queue.len() == 0 {
        queue
    } else if queue[0].token == token {
        queue.update(0, SegmentView { settled: Some(verdict), ..queue[0] })
    } else {
        seq![queue[0]] + settle(queue.skip(1), token, verdict)
    }
}

/// The queues with one segment settled.
pub open spec fn settled(queues: Queues, id: u64, token: u64, verdict: Verdict) -> Queues {
    if queues.contains_key(id) {
        queues.insert(id, settle(queues[id], token, verdict))
    } else {
        queues
    }
}

/// The queues after a flush was answered: each of its segments settled and its
/// socket drained, in order.
pub open spec fn answered(queues: Queues, segments: Seq<(u64, u64)>, verdict: Verdict) -> Queues
    decreases segments.len(),
{
    if segments.len() == 0 {
        queues
    } else {
        let (id, token) = segments.last();
        drained(
            settled(answered(queues, segments.drop_last(), verdict), id, token, verdict),
            id,
        )
    }
}

/// What answering a flush sends.
pub open spec fn answer_sends(
    queues: Queues,
    segments: Seq<(u64, u64)>,
    verdict: Verdict,
    sent: Seq<(u64, WsOut)>,
) -> bool
    decreases segments.len(),
{
    if segments.len() == 0 {
        sent.len() == 0
    } else {
        let (id, token) = segments.last();
        let before = settled(answered(queues, segments.drop_last(), verdict), id, token, verdict);
        exists|earlier: Seq<(u64, WsOut)>, now: Seq<WsOut>|
            {
                &&& answer_sends(queues, segments.drop_last(), verdict, earlier)
                &&& #[trigger] drain_sends(before, id, now)
                &&& sent == #[trigger] (earlier + ws_frames::addressed(id, now))
            }
    }
}

/// No queue is empty, and the segment in front of each is not settled: what
/// could leave has left.
pub open spec fn waiting(queues: Queues) -> bool {
    forall|id: u64| #[trigger]
        queues.contains_key(id) ==> queues[id].len() > 0 && queues[id][0].settled is None
}

/// A batch on its way: what is queued, what goes out directly, and which
/// segments the batch opened.
pub struct Batch {
    pub queues: Queues,
    pub next_token: u64,
    pub mine: Set<u64>,
    pub direct: Seq<(u64, WsOut)>,
    pub segments: Seq<(u64, u64)>,
}

pub open spec fn token_after(token: u64) -> u64 {
    if token == u64::MAX {
        0
    } else {
        (token + 1) as u64
    }
}

/// The queue with a frame more in its last segment.
pub open spec fn extended(queue: Seq<SegmentView>, out: WsOut) -> Seq<SegmentView> {
    queue.update(
        queue.len() - 1,
        SegmentView { frames: queue.last().frames.push(out), ..queue.last() },
    )
}

impl Batch {
    pub open spec fn start(queues: Queues, next_token: u64) -> Batch {
        Batch {
            queues,
            next_token,
            mine: Set::empty(),
            direct: Seq::empty(),
            segments: Seq::empty(),
        }
    }

    /// The batch after one more frame. The first frame of a socket opens its
    /// segment, or goes out directly where nothing is queued and no gate
    /// holds it; later ones join that segment.
    pub open spec fn with(self, id: u64, out: WsOut, gated: bool) -> Batch {
        if self.mine.contains(id) {
            Batch { queues: self.queues.insert(id, extended(self.queues[id], out)), ..self }
        } else if !gated && !self.queues.contains_key(id) {
            Batch {
                next_token: token_after(self.next_token),
                direct: self.direct.push((id, out)),
                ..self
            }
        } else {
            let queue = if self.queues.contains_key(id) {
                self.queues[id]
            } else {
                Seq::empty()
            };
            let segment = SegmentView {
                token: self.next_token,
                frames: seq![out],
                settled: if gated {
                    None
                } else {
                    Some(Verdict::Released)
                },
            };
            Batch {
                queues: self.queues.insert(id, queue.push(segment)),
                next_token: token_after(self.next_token),
                mine: self.mine.insert(id),
                segments: if gated {
                    self.segments.push((id, self.next_token))
                } else {
                    self.segments
                },
                ..self
            }
        }
    }

    /// The batch after several frames.
    pub open spec fn with_all(self, frames: Seq<(u64, WsOut)>, gated: bool) -> Batch
        decreases frames.len(),
    {
        if frames.len() == 0 {
            self
        } else {
            self.with_all(frames.drop_last(), gated).with(
                frames.last().0,
                frames.last().1,
                gated,
            )
        }
    }
}

/// A frame added to the last segment of a queue is added to what it holds.
proof fn lemma_extended(queue: Seq<SegmentView>, out: WsOut)
    requires
        queue.len() > 0,
    ensures
        held(extended(queue, out)) == held(queue).push(out),
{
    assert(extended(queue, out).drop_last() =~= queue.drop_last());
    assert(held(extended(queue, out)) =~= held(queue).push(out));
}

proof fn lemma_pushed(queue: Seq<SegmentView>, segment: SegmentView)
    ensures
        held(queue.push(segment)) == held(queue) + segment.frames,
{
    assert(queue.push(segment).drop_last() =~= queue);
}

/// What a batch leaves behind of the sockets it reached.
proof fn lemma_batch(start: Batch, frames: Seq<(u64, WsOut)>, gated: bool, id: u64)
    requires
        start.mine == Set::<u64>::empty(),
        start.direct.len() == 0,
        start.segments.len() == 0,
        waiting(start.queues),
    ensures
        ({
            let end = start.with_all(frames, gated);
            let was = start.queues.contains_key(id);
            &&& waiting(end.queues)
            &&& end.mine.contains(id) ==> end.queues.contains_key(id)
            &&& (gated || was) ==> {
                &&& ws_frames::frames_of(end.direct, id).len() == 0
                &&& held_of(end.queues, id) == held_of(start.queues, id) + ws_frames::frames_of(
                    frames,
                    id,
                )
            }
            &&& !gated && !was ==> {
                &&& !end.queues.contains_key(id)
                &&& !end.mine.contains(id)
                &&& ws_frames::frames_of(end.direct, id) == ws_frames::frames_of(frames, id)
            }
            &&& !gated ==> end.segments.len() == 0
            &&& gated ==> (end.mine.contains(id) <==> exists|i: int|
                0 <= i < end.segments.len() && #[trigger] end.segments[i].0 == id)
            &&& forall|i: int, j: int|
                0 <= i < j < end.segments.len() ==> #[trigger] end.segments[i].0
                    != #[trigger] end.segments[j].0
        }),
    decreases frames.len(),
{
    if frames.len() == 0 {
        assert(ws_frames::frames_of(frames, id) =~= Seq::empty());
        assert(held_of(start.queues, id) =~= held_of(start.queues, id)
            + ws_frames::frames_of(frames, id));
        assert(start.direct =~= Seq::empty());
        return ;
    }
    let before = start.with_all(frames.drop_last(), gated);
    lemma_batch(start, frames.drop_last(), gated, id);
    let (at, out) = frames.last();
    lemma_batch(start, frames.drop_last(), gated, at);
    let end = before.with(at, out, gated);
    assert(end == start.with_all(frames, gated));
    if before.mine.contains(at) {
        lemma_extended(before.queues[at], out);
        if id == at {
            assert(held_of(end.queues, id) =~= held_of(start.queues, id) + ws_frames::frames_of(
                frames,
                id,
            ));
        }
    } else if !gated && !before.queues.contains_key(at) {
        assert(end.direct.drop_last() =~= before.direct);
        if start.queues.contains_key(at) {
            assert(held_of(before.queues, at) == held_of(start.queues, at) + ws_frames::frames_of(
                frames.drop_last(),
                at,
            ));
            lemma_some_held(start, frames.drop_last(), gated, at);
        }
    } else {
        let queue = if before.queues.contains_key(at) {
            before.queues[at]
        } else {
            Seq::empty()
        };
        lemma_pushed(queue, end.queues[at].last());
        assert(end.queues[at].drop_last() =~= queue);
        if id == at {
            assert(held_of(end.queues, id) =~= held_of(start.queues, id) + ws_frames::frames_of(
                frames,
                id,
            ));
        }
        if !gated && !start.queues.contains_key(at) {
            assert(false);
        }
        if gated {
            assert forall|i: int, j: int| 0 <= i < j < end.segments.len() implies #[trigger] end.segments[i].0
                != #[trigger] end.segments[j].0 by {
                if j == before.segments.len() {
                    assert(before.segments[i].0 == end.segments[i].0);
                } else {
                    assert(before.segments[i].0 != before.segments[j].0);
                }
            }
            assert(end.segments[before.segments.len() as int].0 == at);
            if before.mine.contains(id) {
                let i = choose|i: int|
                    0 <= i < before.segments.len() && #[trigger] before.segments[i].0 == id;
                assert(end.segments[i].0 == id);
            }
            if exists|i: int| 0 <= i < end.segments.len() && #[trigger] end.segments[i].0 == id {
                let i = choose|i: int|
                    0 <= i < end.segments.len() && #[trigger] end.segments[i].0 == id;
                if i < before.segments.len() {
                    assert(before.segments[i].0 == id);
                }
            }
        }
    }
}

/// A batch takes no queue away.
proof fn lemma_some_held(start: Batch, frames: Seq<(u64, WsOut)>, gated: bool, id: u64)
    requires
        start.queues.contains_key(id),
    ensures
        start.with_all(frames, gated).queues.contains_key(id),
    decreases frames.len(),
{
    if frames.len() > 0 {
        lemma_some_held(start, frames.drop_last(), gated, id);
    }
}

/// Per-socket order: what a batch sends on a socket directly, followed by what
/// the socket then holds, is what the socket held before, followed by the
/// batch's own frames for it. A frame goes out directly only on a socket that
/// held nothing, so none overtakes another.
pub proof fn batch_keeps_order(
    queues: Queues,
    next_token: u64,
    frames: Seq<(u64, WsOut)>,
    gated: bool,
    id: u64,
)
    requires
        waiting(queues),
    ensures
        ({
            let end = Batch::start(queues, next_token).with_all(frames, gated);
            &&& ws_frames::frames_of(end.direct, id) + held_of(end.queues, id) == held_of(queues, id)
                + ws_frames::frames_of(frames, id)
            &&& ws_frames::frames_of(end.direct, id).len() > 0 ==> !queues.contains_key(id)
            &&& waiting(end.queues)
        }),
{
    let start = Batch::start(queues, next_token);
    lemma_batch(start, frames, gated, id);
    let end = start.with_all(frames, gated);
    if gated || queues.contains_key(id) {
        assert(ws_frames::frames_of(end.direct, id) =~= Seq::empty());
    }
    assert(ws_frames::frames_of(end.direct, id) + held_of(end.queues, id) =~= held_of(queues, id)
        + ws_frames::frames_of(frames, id));
}

/// A batch that no gate holds opens no flush, and one that a gate holds opens
/// exactly one segment on each socket it reaches.
pub proof fn one_segment_per_socket(
    queues: Queues,
    next_token: u64,
    frames: Seq<(u64, WsOut)>,
    gated: bool,
)
    requires
        waiting(queues),
    ensures
        ({
            let segments = Batch::start(queues, next_token).with_all(frames, gated).segments;
            &&& !gated ==> segments.len() == 0
            &&& gated && frames.len() > 0 ==> segments.len() > 0
            &&& forall|i: int, j: int|
                0 <= i < j < segments.len() ==> #[trigger] segments[i].0 != #[trigger] segments[j].0
        }),
    decreases frames.len(),
{
    let start = Batch::start(queues, next_token);
    lemma_batch(start, frames, gated, 0);
    if gated && frames.len() > 0 {
        let before = start.with_all(frames.drop_last(), gated);
        let id = frames.last().0;
        lemma_batch(start, frames.drop_last(), gated, id);
    }
}

proof fn lemma_held_split(queue: Seq<SegmentView>, n: int)
    requires
        0 <= n <= queue.len(),
    ensures
        held(queue.take(n)) + held(queue.skip(n)) == held(queue),
    decreases queue.len() - n,
{
    if n == queue.len() {
        assert(queue.take(n) =~= queue);
        assert(queue.skip(n) =~= Seq::empty());
        assert(held(queue.take(n)) + held(queue.skip(n)) =~= held(queue));
    } else {
        let rest = queue.skip(n);
        assert(rest.drop_last() =~= queue.drop_last().skip(n));
        assert(queue.take(n) =~= queue.drop_last().take(n));
        lemma_held_split(queue.drop_last(), n);
        assert(held(queue.take(n)) + held(rest) =~= held(queue));
    }
}

proof fn lemma_released_len(queue: Seq<SegmentView>)
    ensures
        released_len(queue) <= queue.len(),
        forall|i: int|
            0 <= i < released_len(queue) ==> (#[trigger] queue[i]).settled == Some(
                Verdict::Released,
            ),
        released_len(queue) < queue.len() ==> queue[released_len(queue) as int].settled != Some(
            Verdict::Released,
        ),
    decreases queue.len(),
{
    if queue.len() > 0 && queue[0].settled == Some(Verdict::Released) {
        lemma_released_len(queue.skip(1));
        assert forall|i: int| 0 <= i < released_len(queue) implies (#[trigger] queue[i]).settled
            == Some(Verdict::Released) by {
            if i > 0 {
                assert(queue.skip(1)[i - 1] == queue[i]);
            }
        }
    }
}

/// Draining a socket keeps its order and passes no segment that still waits:
/// it sends whole segments that were all released, from the front; what it
/// does not send stays queued in order, or, where a gate refused the next
/// segment, is dropped for a close.
pub proof fn drain_keeps_order(queues: Queues, id: u64, sent: Seq<WsOut>)
    requires
        drain_sends(queues, id, sent),
    ensures
        !(queues.contains_key(id) && refused(queues[id])) ==> sent + held_of(drained(queues, id), id)
            == held_of(queues, id),
        queues.contains_key(id) && refused(queues[id]) ==> {
            &&& held_of(drained(queues, id), id).len() == 0
            &&& sent.len() > 0 && is_unproven_close(sent.last())
            &&& sent.drop_last() + held(unreleased(queues[id])) == held(queues[id])
        },
        queues.contains_key(id) ==> forall|i: int|
            0 <= i < released_len(queues[id]) ==> (#[trigger] queues[id][i]).settled == Some(
                Verdict::Released,
            ),
        forall|other: u64|
            other != id ==> held_of(drained(queues, id), other) == #[trigger] held_of(
                queues,
                other,
            ),
{
    if queues.contains_key(id) {
        lemma_released_len(queues[id]);
        lemma_held_split(queues[id], released_len(queues[id]) as int);
        if !refused(queues[id]) {
            assert(sent + held_of(drained(queues, id), id) =~= held_of(queues, id));
        }
    } else {
        assert(sent =~= Seq::empty());
        assert(sent + held_of(drained(queues, id), id) =~= held_of(queues, id));
    }
}

proof fn lemma_settle(queue: Seq<SegmentView>, token: u64, verdict: Verdict)
    ensures
        settle(queue, token, verdict).len() == queue.len(),
        held(settle(queue, token, verdict)) == held(queue),
        forall|i: int|
            0 <= i < queue.len() ==> (#[trigger] settle(queue, token, verdict)[i]).frames
                == queue[i].frames && settle(queue, token, verdict)[i].token == queue[i].token,
    decreases queue.len(),
{
    if queue.len() > 0 {
        let after = settle(queue, token, verdict);
        if queue[0].token != token {
            lemma_settle(queue.skip(1), token, verdict);
        }
        assert(after.len() == queue.len());
        assert forall|i: int| 0 <= i < queue.len() implies (#[trigger] after[i]).frames
            == queue[i].frames && after[i].token == queue[i].token by {
            if queue[0].token != token && i > 0 {
                assert(after[i] == settle(queue.skip(1), token, verdict)[i - 1]);
                assert(queue.skip(1)[i - 1] == queue[i]);
            }
        }
        lemma_same_frames(queue, after);
    }
}

proof fn lemma_same_frames(a: Seq<SegmentView>, b: Seq<SegmentView>)
    requires
        a.len() == b.len(),
        forall|i: int| 0 <= i < a.len() ==> (#[trigger] b[i]).frames == a[i].frames,
    ensures
        held(a) == held(b),
    decreases a.len(),
{
    if a.len() > 0 {
        assert forall|i: int| 0 <= i < a.drop_last().len() implies (#[trigger] b.drop_last()[i]).frames
            == a.drop_last()[i].frames by {
            assert(b[i].frames == a[i].frames);
        }
        lemma_same_frames(a.drop_last(), b.drop_last());
        assert(b[b.len() - 1].frames == a[a.len() - 1].frames);
    }
}

proof fn lemma_drained_waits(queues: Queues, id: u64)
    requires
        forall|other: u64| #[trigger]
            queues.contains_key(other) && other != id ==> queues[other].len() > 0
                && queues[other][0].settled is None,
    ensures
        waiting(drained(queues, id)),
{
    if queues.contains_key(id) {
        lemma_released_len(queues[id]);
        let rest = unreleased(queues[id]);
        if rest.len() > 0 {
            assert(rest[0] == queues[id][released_len(queues[id]) as int]);
            match rest[0].settled {
                Some(Verdict::Released) => {},
                Some(Verdict::Refused) => {},
                None => {},
            }
        }
    }
    assert forall|other: u64| #[trigger] drained(queues, id).contains_key(other) implies drained(
        queues,
        id,
    )[other].len() > 0 && drained(queues, id)[other][0].settled is None by {
        if other != id {
            assert(queues.contains_key(other));
        }
    }
}

/// Answering a flush leaves nothing behind that could leave: no queue is empty
/// and each waits for the verdict of its front.
pub proof fn answer_leaves_waiting(queues: Queues, segments: Seq<(u64, u64)>, verdict: Verdict)
    requires
        waiting(queues),
    ensures
        waiting(answered(queues, segments, verdict)),
    decreases segments.len(),
{
    if segments.len() > 0 {
        answer_leaves_waiting(queues, segments.drop_last(), verdict);
        let (id, token) = segments.last();
        lemma_drained_waits(
            settled(answered(queues, segments.drop_last(), verdict), id, token, verdict),
            id,
        );
    }
}

/// A released flush loses no frame and reorders none: on every socket whose
/// queue holds no refused segment, what the answer sends, followed by what is
/// then held, is what was held before.
pub proof fn released_flush_keeps_order(
    queues: Queues,
    segments: Seq<(u64, u64)>,
    sent: Seq<(u64, WsOut)>,
    id: u64,
)
    requires
        answer_sends(queues, segments, Verdict::Released, sent),
        queues.contains_key(id) ==> forall|i: int|
            0 <= i < queues[id].len() ==> (#[trigger] queues[id][i]).settled != Some(
                Verdict::Refused,
            ),
    ensures
        ws_frames::frames_of(sent, id) + held_of(
            answered(queues, segments, Verdict::Released),
            id,
        ) == held_of(queues, id),
{
    lemma_released_flush(queues, segments, sent, id);
}

proof fn lemma_released_flush(
    queues: Queues,
    segments: Seq<(u64, u64)>,
    sent: Seq<(u64, WsOut)>,
    id: u64,
)
    requires
        answer_sends(queues, segments, Verdict::Released, sent),
        unrefused(queues, id),
    ensures
        unrefused(answered(queues, segments, Verdict::Released), id),
        ws_frames::frames_of(sent, id) + held_of(
            answered(queues, segments, Verdict::Released),
            id,
        ) == held_of(queues, id),
    decreases segments.len(),
{
    let verdict = Verdict::Released;
    if segments.len() == 0 {
        assert(ws_frames::frames_of(sent, id) =~= Seq::empty());
        assert(ws_frames::frames_of(sent, id) + held_of(queues, id) =~= held_of(queues, id));
    } else {
        let (at, token) = segments.last();
        let between = answered(queues, segments.drop_last(), verdict);
        let before = settled(between, at, token, verdict);
        let (earlier, now) = choose|earlier: Seq<(u64, WsOut)>, now: Seq<WsOut>|
            {
                &&& answer_sends(queues, segments.drop_last(), verdict, earlier)
                &&& #[trigger] drain_sends(before, at, now)
                &&& sent == #[trigger] (earlier + ws_frames::addressed(at, now))
            };
        lemma_released_flush(queues, segments.drop_last(), earlier, id);
        lemma_settled_unrefused(between, at, token, id);
        if between.contains_key(at) {
            lemma_settle(between[at], token, verdict);
        }
        drain_keeps_order(before, at, now);
        ws_frames::lemma_frames_of_concat(earlier, ws_frames::addressed(at, now), id);
        ws_frames::lemma_addressed(at, now, id);
        if before.contains_key(at) {
            lemma_released_len(before[at]);
        }
        let end = answered(queues, segments, verdict);
        assert(end == drained(before, at));
        if id == at {
            assert(!(before.contains_key(id) && refused(before[id])));
            assert(held_of(before, id) == held_of(between, id));
            assert(ws_frames::frames_of(sent, id) + held_of(end, id) =~= ws_frames::frames_of(
                earlier,
                id,
            ) + (now + held_of(end, id)));
        } else {
            assert(held_of(before, id) == held_of(between, id));
            assert(ws_frames::frames_of(sent, id) + held_of(end, id) =~= ws_frames::frames_of(
                earlier,
                id,
            ) + held_of(between, id));
        }
    }
}

/// No segment of a socket's queue was refused.
spec fn unrefused(queues: Queues, id: u64) -> bool {
    queues.contains_key(id) ==> forall|i: int|
        0 <= i < queues[id].len() ==> (#[trigger] queues[id][i]).settled != Some(Verdict::Refused)
}

proof fn lemma_settled_unrefused(queues: Queues, at: u64, token: u64, id: u64)
    requires
        unrefused(queues, id),
    ensures
        unrefused(settled(queues, at, token, Verdict::Released), id),
{
    if at == id && queues.contains_key(id) {
        lemma_settle_unrefused(queues[id], token);
    }
}

proof fn lemma_settle_unrefused(queue: Seq<SegmentView>, token: u64)
    requires
        forall|i: int|
            0 <= i < queue.len() ==> (#[trigger] queue[i]).settled != Some(Verdict::Refused),
    ensures
        forall|i: int|
            0 <= i < queue.len() ==> (#[trigger] settle(queue, token, Verdict::Released)[i]).settled
                != Some(Verdict::Refused),
        settle(queue, token, Verdict::Released).len() == queue.len(),
    decreases queue.len(),
{
    if queue.len() > 0 && queue[0].token != token {
        assert forall|i: int| 0 <= i < queue.skip(1).len() implies (#[trigger] queue.skip(1)[i]).settled
            != Some(Verdict::Refused) by {
            assert(queue[i + 1].settled != Some(Verdict::Refused));
        }
        lemma_settle_unrefused(queue.skip(1), token);
        let after = settle(queue, token, Verdict::Released);
        assert forall|i: int| 0 <= i < queue.len() implies (#[trigger] after[i]).settled != Some(
            Verdict::Refused,
        ) by {
            if i > 0 {
                assert(after[i] == settle(queue.skip(1), token, Verdict::Released)[i - 1]);
            }
        }
    }
}

// ---- the state -----------------------------------------------------------

/// The frames one instance holds, and how many flushes hold frames for each
/// socket.
pub struct WsFlushState {
    pub deferred: IdMap<Vec<WsSegment>>,
    pub flushes: IdMap<usize>,
    pub next_token: u64,
}

/// The segments one flush holds, as (socket, token).
pub struct WsFlushGuard {
    pub segments: Vec<(u64, u64)>,
}

/// The counts with one more flush on each socket of the segments.
pub open spec fn counted(flushes: Map<u64, usize>, segments: Seq<(u64, u64)>) -> Map<u64, usize>
    decreases segments.len(),
{
    if segments.len() == 0 {
        flushes
    } else {
        let before = counted(flushes, segments.drop_last());
        let id = segments.last().0;
        before.insert(
            id,
            if before.contains_key(id) {
                (before[id] + 1) as usize
            } else {
                1
            },
        )
    }
}

/// The counts with one flush fewer on each socket of the segments.
pub open spec fn uncounted(flushes: Map<u64, usize>, segments: Seq<(u64, u64)>) -> Map<u64, usize>
    decreases segments.len(),
{
    if segments.len() == 0 {
        flushes
    } else {
        let before = uncounted(flushes, segments.drop_last());
        let id = segments.last().0;
        if !before.contains_key(id) {
            before
        } else if before[id] == 1 {
            before.remove(id)
        } else {
            before.insert(id, (before[id] - 1) as usize)
        }
    }
}

/// Every count is positive.
pub open spec fn positive(flushes: Map<u64, usize>) -> bool {
    forall|id: u64| #[trigger] flushes.contains_key(id) ==> flushes[id] > 0
}

impl WsFlushState {
    pub open spec fn queues(&self) -> Queues {
        self.deferred@.map_values(|queue: Vec<WsSegment>| queue_view(queue@))
    }

    pub open spec fn wf(&self) -> bool {
        waiting(self.queues()) && positive(self.flushes@)
    }

    /// One more flush can be counted on every socket.
    pub open spec fn has_room(&self) -> bool {
        forall|id: u64| #[trigger]
            self.flushes@.contains_key(id) ==> self.flushes@[id] < usize::MAX
    }

    pub fn new() -> (state: Self)
        ensures
            state.wf(),
            state.queues() == Queues::empty(),
            state.flushes@ == Map::<u64, usize>::empty(),
            state.next_token == 0,
    {
        let state = WsFlushState {
            deferred: IdMap::new(),
            flushes: IdMap::new(),
            next_token: 0,
        };
        assert(state.queues() =~= Queues::empty());
        state
    }

    fn take_token(&mut self) -> (token: u64)
        ensures
            token == old(self).next_token,
            final(self).next_token == token_after(old(self).next_token),
            final(self).deferred == old(self).deferred,
            final(self).flushes == old(self).flushes,
    {
        let token = self.next_token;
        self.next_token = if token == u64::MAX {
            0
        } else {
            token + 1
        };
        token
    }

    /// Queues a batch; answers the segments it opened and what goes out now.
    fn queue_batch(&mut self, frames: Vec<(u64, WsOut)>, gated: bool) -> (r: (
        Vec<(u64, u64)>,
        Vec<(u64, WsOut)>,
    ))
        requires
            old(self).wf(),
        ensures
            final(self).wf(),
            final(self).flushes == old(self).flushes,
            ({
                let end = Batch::start(old(self).queues(), old(self).next_token).with_all(
                    frames@,
                    gated,
                );
                &&& final(self).queues() == end.queues
                &&& final(self).next_token == end.next_token
                &&& r.0@ == end.segments
                &&& r.1@ == end.direct
            }),
    {
        let ghost start = Batch::start(self.queues(), self.next_token);
        let ghost all = frames@;
        let mut direct: Vec<(u64, WsOut)> = Vec::new();
        let mut mine: IdMap<bool> = IdMap::new();
        let mut segments: Vec<(u64, u64)> = Vec::new();
        assert(mine@.dom() =~= Set::<u64>::empty());
        assert(all.take(0) =~= Seq::empty());
        for frame in iter: frames
            invariant
                iter.seq() == all,
                start == Batch::start(old(self).queues(), old(self).next_token),
                waiting(start.queues),
                self.flushes == old(self).flushes,
                ({
                    let now = start.with_all(all.take(iter.index()), gated);
                    &&& self.queues() == now.queues
                    &&& self.next_token == now.next_token
                    &&& mine@.dom() == now.mine
                    &&& direct@ == now.direct
                    &&& segments@ == now.segments
                }),
        {
            let (id, out) = frame;
            let ghost i = iter.index();
            let ghost before = start.with_all(all.take(i), gated);
            proof {
                lemma_batch(start, all.take(i), gated, id);
                assert(all.take(i + 1).drop_last() =~= all.take(i));
                assert(all.take(i + 1).last() == (id, out));
            }
            let ghost now = before.with(id, out, gated);
            let ghost queues = self.queues();
            if mine.contains(id) {
                if let Some(mut queue) = self.deferred.remove(id) {
                    let ghost was = queue@;
                    if let Some(mut segment) = queue.pop() {
                        let ghost last = segment@;
                        segment.frames.push(out);
                        queue.push(segment);
                        proof {
                            assert(queue_view(queue@) =~= extended(queue_view(was), out));
                        }
                    }
                    self.deferred.insert(id, queue);
                }
                assert(self.queues() =~= now.queues);
            } else {
                let token = self.take_token();
                let queued = self.deferred.contains(id);
                if !gated && !queued {
                    direct.push((id, out));
                    assert(self.queues() =~= now.queues);
                } else {
                    let mut queue = match self.deferred.remove(id) {
                        Some(queue) => queue,
                        None => Vec::new(),
                    };
                    let ghost was = queue_view(queue@);
                    let mut held_frames: Vec<WsOut> = Vec::new();
                    held_frames.push(out);
                    let settled = if gated {
                        None
                    } else {
                        Some(Verdict::Released)
                    };
                    queue.push(WsSegment { token, frames: held_frames, settled });
                    proof {
                        assert(held_frames@ =~= seq![out]);
                        assert(queue_view(queue@) =~= was.push(now.queues[id].last()));
                        if !queues.contains_key(id) {
                            assert(was =~= Seq::empty());
                        }
                    }
                    self.deferred.insert(id, queue);
                    mine.insert(id, true);
                    if gated {
                        segments.push((id, token));
                    }
                    assert(self.queues() =~= now.queues);
                    assert(mine@.dom() =~= now.mine);
                }
            }
        }
        proof {
            assert(all.take(all.len() as int) =~= all);
            one_segment_per_socket(start.queues, start.next_token, all, gated);
            lemma_batch(start, all, gated, 0);
        }
        (segments, direct)
    }

    /// Sends a batch on its sockets, or holds each frame behind its socket's
    /// gate. Answers the flush that the batch started, if it started one, and
    /// the frames that go out now, in order.
    pub fn emit_or_defer(&mut self, frames: Vec<(u64, WsOut)>, gated: bool) -> (r: (
        Option<WsFlushGuard>,
        Vec<(u64, WsOut)>,
    ))
        requires
            old(self).wf(),
            old(self).has_room(),
        ensures
            final(self).wf(),
            ({
                let end = Batch::start(old(self).queues(), old(self).next_token).with_all(
                    frames@,
                    gated,
                );
                &&& final(self).queues() == end.queues
                &&& final(self).next_token == end.next_token
                &&& r.1@ == end.direct
                &&& match r.0 {
                    Some(guard) => guard.segments@ == end.segments && gated && frames@.len() > 0,
                    None => end.segments.len() == 0 && (!gated || frames@.len() == 0),
                }
                &&& final(self).flushes@ == counted(old(self).flushes@, end.segments)
            }),
    {
        let ghost start = Batch::start(self.queues(), self.next_token);
        let ghost all = frames@;
        let (segments, direct) = self.queue_batch(frames, gated);
        proof {
            one_segment_per_socket(start.queues, start.next_token, all, gated);
        }
        if segments.len() == 0 {
            return (None, direct);
        }
        self.count_in(&segments);
        (Some(WsFlushGuard { segments }), direct)
    }

    fn count_in(&mut self, segments: &Vec<(u64, u64)>)
        requires
            old(self).wf(),
            old(self).has_room(),
            forall|i: int, j: int|
                0 <= i < j < segments@.len() ==> #[trigger] segments@[i].0
                    != #[trigger] segments@[j].0,
        ensures
            final(self).wf(),
            final(self).flushes@ == counted(old(self).flushes@, segments@),
            final(self).deferred == old(self).deferred,
            final(self).next_token == old(self).next_token,
    {
        let mut i: usize = 0;
        assert(segments@.take(0) =~= Seq::empty());
        while i < segments.len()
            invariant
                i <= segments.len(),
                positive(self.flushes@),
                old(self).has_room(),
                self.deferred == old(self).deferred,
                self.next_token == old(self).next_token,
                self.flushes@ == counted(old(self).flushes@, segments@.take(i as int)),
                forall|a: int, b: int|
                    0 <= a < b < segments@.len() ==> #[trigger] segments@[a].0
                        != #[trigger] segments@[b].0,
            decreases segments.len() - i,
        {
            let id = segments[i].0;
            proof {
                assert(segments@.take(i as int + 1).drop_last() =~= segments@.take(i as int));
                lemma_counted_elsewhere(old(self).flushes@, segments@.take(i as int), id);
            }
            let count: usize = match self.flushes.get(id) {
                Some(count) => *count,
                None => 0,
            };
            self.flushes.insert(id, count + 1);
            i = i + 1;
        }
        assert(segments@.take(i as int) =~= segments@);
    }

    fn count_out(&mut self, segments: &Vec<(u64, u64)>)
        requires
            old(self).wf(),
        ensures
            final(self).wf(),
            final(self).flushes@ == uncounted(old(self).flushes@, segments@),
            final(self).deferred == old(self).deferred,
            final(self).next_token == old(self).next_token,
    {
        let mut i: usize = 0;
        assert(segments@.take(0) =~= Seq::empty());
        while i < segments.len()
            invariant
                i <= segments.len(),
                positive(self.flushes@),
                self.deferred == old(self).deferred,
                self.next_token == old(self).next_token,
                self.flushes@ == uncounted(old(self).flushes@, segments@.take(i as int)),
            decreases segments.len() - i,
        {
            let id = segments[i].0;
            proof {
                assert(segments@.take(i as int + 1).drop_last() =~= segments@.take(i as int));
            }
            let count: usize = match self.flushes.get(id) {
                Some(count) => *count,
                None => 0,
            };
            if count == 1 {
                self.flushes.remove(id);
            } else if count > 1 {
                self.flushes.insert(id, count - 1);
            }
            i = i + 1;
        }
        assert(segments@.take(i as int) =~= segments@);
    }

    /// Sends what a socket's queue can release.
    fn drain_settled(&mut self, id: u64, sending: &mut Vec<(u64, WsOut)>)
        ensures
            final(self).queues() == drained(old(self).queues(), id),
            final(self).flushes == old(self).flushes,
            final(self).next_token == old(self).next_token,
            exists|now: Seq<WsOut>| #[trigger]
                drain_sends(old(self).queues(), id, now) && final(sending)@ == old(sending)@
                    + ws_frames::addressed(id, now),
    {
        let ghost queues = self.queues();
        let mut queue = match self.deferred.remove(id) {
            Some(queue) => queue,
            None => {
                proof {
                    assert(self.queues() =~= queues);
                    assert(drain_sends(queues, id, Seq::empty()));
                    assert(sending@ =~= old(sending)@ + ws_frames::addressed(id, Seq::empty()));
                }
                return ;
            },
        };
        let ghost all = queue_view(queue@);
        let ghost n: int = 0;
        let ghost mut gone: Seq<WsOut> = Seq::empty();
        proof {
            lemma_released_len(all);
            assert(all.take(0) =~= Seq::empty());
            assert(all.skip(0) =~= all);
            assert(sending@ =~= old(sending)@ + ws_frames::addressed(id, gone));
        }
        let ghost mut taken: int = 0;
        while queue.len() > 0 && queue[0].settled == Some(Verdict::Released)
            invariant
                0 <= taken <= released_len(all) <= all.len(),
                queue_view(queue@) == all.skip(taken),
                gone == held(all.take(taken)),
                sending@ == old(sending)@ + ws_frames::addressed(id, gone),
                forall|i: int|
                    0 <= i < released_len(all) ==> (#[trigger] all[i]).settled == Some(
                        Verdict::Released,
                    ),
                released_len(all) < all.len() ==> all[released_len(all) as int].settled != Some(
                    Verdict::Released,
                ),
            decreases queue.len(),
        {
            let ghost front = queue_view(queue@)[0];
            proof {
                assert(queue_view(queue@).len() == queue@.len());
                assert(all.skip(taken).len() > 0);
                assert(all.skip(taken)[0] == all[taken]);
                assert(front == queue@[0]@);
                assert(front == all[taken]);
                assert(taken < released_len(all));
            }
            let ghost was = queue@;
            let segment = queue.remove(0);
            proof {
                assert forall|i: int| 0 <= i < queue@.len() implies queue_view(queue@)[i]
                    == all.skip(taken + 1)[i] by {
                    assert(queue_view(was)[i + 1] == all.skip(taken)[i + 1]);
                }
                assert(queue_view(was).len() == all.skip(taken).len());
                assert(queue_view(queue@) =~= all.skip(taken + 1));
            }
            let ghost frames = segment.frames@;
            let ghost base = sending@;
            for frame in iter: segment.frames
                invariant
                    iter.seq() == frames,
                    sending@ == base + ws_frames::addressed(id, frames.take(iter.index())),
            {
                let ghost i = iter.index();
                sending.push((id, frame));
                assert(sending@ =~= base + ws_frames::addressed(id, frames.take(i + 1)));
            }
            proof {
                assert(frames.take(frames.len() as int) =~= frames);
                assert(all.take(taken + 1).drop_last() =~= all.take(taken));
                assert(sending@ =~= old(sending)@ + ws_frames::addressed(id, gone + frames));
                gone = gone + frames;
                taken = taken + 1;
            }
        }
        proof {
            if taken < released_len(all) {
                assert(queue_view(queue@)[0] == all[taken]);
                assert(false);
            }
            assert(taken == released_len(all));
        }
        let is_refused = queue.len() > 0 && queue[0].settled == Some(Verdict::Refused);
        proof {
            if queue@.len() > 0 {
                assert(queue_view(queue@)[0] == queue@[0]@);
            }
            assert(is_refused == refused(all));
        }
        if is_refused {
            let close = WsOut::Close(UNPROVEN_CLOSE_CODE, String::from_str(UNPROVEN_CLOSE_REASON));
            let ghost last = close;
            sending.push((id, close));
            proof {
                let now = gone.push(last);
                assert(now.drop_last() =~= gone);
                assert(drain_sends(queues, id, now));
                assert(sending@ =~= old(sending)@ + ws_frames::addressed(id, now));
                assert(self.queues() =~= drained(queues, id));
            }
        } else {
            assert(drain_sends(queues, id, gone));
            if queue.len() == 0 {
                assert(self.queues() =~= drained(queues, id));
            } else {
                self.deferred.insert(id, queue);
                assert(self.queues() =~= drained(queues, id));
            }
        }
    }

    fn settle_segment(&mut self, id: u64, token: u64, verdict: Verdict)
        ensures
            final(self).queues() == settled(old(self).queues(), id, token, verdict),
            final(self).flushes == old(self).flushes,
            final(self).next_token == old(self).next_token,
    {
        let ghost queues = self.queues();
        if let Some(mut queue) = self.deferred.remove(id) {
            let ghost all = queue_view(queue@);
            let mut i: usize = 0;
            assert(all.skip(0) =~= all);
            assert(settle(all, token, verdict) =~= all.take(0) + settle(
                all.skip(0),
                token,
                verdict,
            ));
            while i < queue.len() && queue[i].token != token
                invariant
                    i <= queue.len(),
                    queue_view(queue@) == all,
                    settle(all, token, verdict) == all.take(i as int) + settle(
                        all.skip(i as int),
                        token,
                        verdict,
                    ),
                decreases queue.len() - i,
            {
                proof {
                    let rest = all.skip(i as int);
                    assert(rest[0] == queue@[i as int]@);
                    assert(rest.skip(1) =~= all.skip(i as int + 1));
                    assert(all.take(i as int) + (seq![rest[0]] + settle(
                        rest.skip(1),
                        token,
                        verdict,
                    )) =~= all.take(i as int + 1) + settle(
                        all.skip(i as int + 1),
                        token,
                        verdict,
                    ));
                }
                i = i + 1;
            }
            if i < queue.len() {
                let mut segment = queue.remove(i);
                segment.settled = Some(verdict);
                queue.insert(i, segment);
                proof {
                    assert(all.skip(i as int)[0] == all[i as int]);
                    assert(queue_view(queue@) =~= settle(all, token, verdict));
                }
            } else {
                assert(all.skip(i as int) =~= Seq::empty());
                assert(all.take(i as int) =~= all);
                assert(queue_view(queue@) =~= settle(all, token, verdict));
            }
            self.deferred.insert(id, queue);
        }
        assert(self.queues() =~= settled(queues, id, token, verdict));
    }

    /// Settles every segment that a flush holds, counts the flush out, and
    /// answers the frames that go out now, in order. A refused
    /// segment closes its socket: a peer can see a truncated stream, and not a
    /// silently incomplete one.
    pub fn release(&mut self, guard: WsFlushGuard, verdict: Verdict) -> (sending: Vec<(u64, WsOut)>)
        requires
            old(self).wf(),
        ensures
            final(self).wf(),
            final(self).queues() == answered(old(self).queues(), guard.segments@, verdict),
            final(self).flushes@ == uncounted(old(self).flushes@, guard.segments@),
            final(self).next_token == old(self).next_token,
            answer_sends(old(self).queues(), guard.segments@, verdict, sending@),
    {
        let ghost queues = self.queues();
        let segments = guard.segments;
        let mut sending: Vec<(u64, WsOut)> = Vec::new();
        let mut i: usize = 0;
        assert(segments@.take(0) =~= Seq::empty());
        while i < segments.len()
            invariant
                i <= segments.len(),
                queues == old(self).queues(),
                waiting(queues),
                positive(self.flushes@),
                self.flushes == old(self).flushes,
                self.next_token == old(self).next_token,
                self.queues() == answered(queues, segments@.take(i as int), verdict),
                answer_sends(queues, segments@.take(i as int), verdict, sending@),
            decreases segments.len() - i,
        {
            let (id, token) = segments[i];
            let ghost done = segments@.take(i as int);
            let ghost earlier = sending@;
            self.settle_segment(id, token, verdict);
            let ghost before = self.queues();
            self.drain_settled(id, &mut sending);
            proof {
                let more = segments@.take(i as int + 1);
                assert(more.drop_last() =~= done);
                assert(more.last() == (id, token));
                let now = choose|now: Seq<WsOut>| #[trigger]
                    drain_sends(before, id, now) && sending@ == earlier + ws_frames::addressed(
                        id,
                        now,
                    );
                assert(drain_sends(before, id, now));
                assert(sending@ == earlier + ws_frames::addressed(id, now));
                assert(answer_sends(queues, more, verdict, sending@));
            }
            i = i + 1;
        }
        proof {
            assert(segments@.take(i as int) =~= segments@);
            answer_leaves_waiting(queues, segments@, verdict);
        }
        self.count_out(&segments);
        sending
    }

    /// A flush that ended without a verdict is counted out; what it held
    /// stays queued.
    pub fn abandon(&mut self, guard: WsFlushGuard)
        requires
            old(self).wf(),
        ensures
            final(self).wf(),
            final(self).queues() == old(self).queues(),
            final(self).flushes@ == uncounted(old(self).flushes@, guard.segments@),
            final(self).next_token == old(self).next_token,
    {
        self.count_out(&guard.segments);
    }

    /// Sends a batch that no gate holds, or queues it behind what its sockets
    /// hold; answers the frames that go out now, in order.
    pub fn emit_released(&mut self, frames: Vec<(u64, WsOut)>) -> (direct: Vec<(u64, WsOut)>)
        requires
            old(self).wf(),
        ensures
            final(self).wf(),
            ({
                let end = Batch::start(old(self).queues(), old(self).next_token).with_all(
                    frames@,
                    false,
                );
                &&& final(self).queues() == end.queues
                &&& final(self).next_token == end.next_token
                &&& direct@ == end.direct
                &&& final(self).flushes == old(self).flushes
            }),
    {
        let (segments, direct) = self.queue_batch(frames, false);
        direct
    }

    /// How many frames a socket holds.
    pub fn held_count(&self, id: u64) -> (r: usize)
        requires
            held_of(self.queues(), id).len() <= usize::MAX,
        ensures
            r == held_of(self.queues(), id).len(),
    {
        match self.deferred.get(id) {
            Some(queue) => {
                let ghost all = queue_view(queue@);
                let mut total: usize = 0;
                let mut i: usize = 0;
                assert(all.take(0) =~= Seq::empty());
                while i < queue.len()
                    invariant
                        i <= queue.len(),
                        all == queue_view(queue@),
                        held(all).len() <= usize::MAX,
                        total == held(all.take(i as int)).len(),
                    decreases queue.len() - i,
                {
                    proof {
                        assert(all.take(i as int + 1).drop_last() =~= all.take(i as int));
                        assert(all.take(i as int + 1).last() == queue@[i as int]@);
                        lemma_held_split(all, i as int + 1);
                    }
                    total = total + queue[i].frames.len();
                    i = i + 1;
                }
                assert(all.take(i as int) =~= all);
                total
            },
            None => 0,
        }
    }

    /// Whether no flush holds frames for the socket.
    pub fn flushed(&self, id: u64) -> (r: bool)
        ensures
            r == !self.flushes@.contains_key(id),
    {
        !self.flushes.contains(id)
    }

    /// Whether no flush holds frames at all.
    pub fn all_flushed(&self) -> (r: bool)
        ensures
            r == (self.flushes@ == Map::<u64, usize>::empty()),
    {
        self.flushes.is_empty()
    }
}

proof fn lemma_counted_elsewhere(flushes: Map<u64, usize>, segments: Seq<(u64, u64)>, id: u64)
    requires
        forall|i: int| 0 <= i < segments.len() ==> (#[trigger] segments[i]).0 != id,
    ensures
        counted(flushes, segments).contains_key(id) == flushes.contains_key(id),
        flushes.contains_key(id) ==> counted(flushes, segments)[id] == flushes[id],
    decreases segments.len(),
{
    if segments.len() > 0 {
        assert(segments[segments.len() - 1].0 != id);
        assert forall|i: int| 0 <= i < segments.drop_last().len() implies (
        #[trigger] segments.drop_last()[i]).0 != id by {
            assert(segments[i].0 != id);
        }
        lemma_counted_elsewhere(flushes, segments.drop_last(), id);
    }
}

/// A flush that is counted in and then out leaves the counts as they were.
pub proof fn flush_counts_balance(flushes: Map<u64, usize>, segments: Seq<(u64, u64)>, id: u64)
    requires
        positive(flushes),
        forall|i: int, j: int|
            0 <= i < j < segments.len() ==> #[trigger] segments[i].0 != #[trigger] segments[j].0,
        forall|i: u64| #[trigger] flushes.contains_key(i) ==> flushes[i] < usize::MAX,
    ensures
        ({
            let after = uncounted(counted(flushes, segments), segments);
            &&& after.contains_key(id) == flushes.contains_key(id)
            &&& flushes.contains_key(id) ==> after[id] == flushes[id]
        }),
{
    lemma_counted_at(flushes, segments, id);
    lemma_uncounted_at(counted(flushes, segments), segments, id);
}

spec fn has_segment(segments: Seq<(u64, u64)>, id: u64) -> bool {
    exists|i: int| 0 <= i < segments.len() && #[trigger] segments[i].0 == id
}

proof fn lemma_has_segment(segments: Seq<(u64, u64)>, id: u64)
    requires
        segments.len() > 0,
        forall|i: int, j: int|
            0 <= i < j < segments.len() ==> #[trigger] segments[i].0 != #[trigger] segments[j].0,
    ensures
        has_segment(segments, id) == (has_segment(segments.drop_last(), id) || segments.last().0
            == id),
        segments.last().0 == id ==> !has_segment(segments.drop_last(), id),
        forall|i: int, j: int|
            0 <= i < j < segments.drop_last().len() ==> #[trigger] segments.drop_last()[i].0
                != #[trigger] segments.drop_last()[j].0,
{
    let rest = segments.drop_last();
    assert forall|i: int, j: int| 0 <= i < j < rest.len() implies #[trigger] rest[i].0
        != #[trigger] rest[j].0 by {
        assert(segments[i].0 != segments[j].0);
    }
    assert(segments[segments.len() - 1] == segments.last());
    if has_segment(rest, id) {
        let i = choose|i: int| 0 <= i < rest.len() && #[trigger] rest[i].0 == id;
        assert(segments[i].0 == id);
        assert(segments[i].0 != segments[segments.len() - 1].0);
    }
    if has_segment(segments, id) && segments.last().0 != id {
        let i = choose|i: int| 0 <= i < segments.len() && #[trigger] segments[i].0 == id;
        assert(rest[i].0 == id);
    }
}

proof fn lemma_counted_at(flushes: Map<u64, usize>, segments: Seq<(u64, u64)>, id: u64)
    requires
        positive(flushes),
        forall|i: int, j: int|
            0 <= i < j < segments.len() ==> #[trigger] segments[i].0 != #[trigger] segments[j].0,
        forall|i: u64| #[trigger] flushes.contains_key(i) ==> flushes[i] < usize::MAX,
    ensures
        ({
            let after = counted(flushes, segments);
            let was: int = if flushes.contains_key(id) {
                flushes[id] as int
            } else {
                0
            };
            if has_segment(segments, id) {
                after.contains_key(id) && after[id] == was + 1
            } else {
                after.contains_key(id) == flushes.contains_key(id) && (after.contains_key(id)
                    ==> after[id] == flushes[id])
            }
        }),
    decreases segments.len(),
{
    if segments.len() > 0 {
        lemma_has_segment(segments, id);
        lemma_counted_at(flushes, segments.drop_last(), id);
    }
}

proof fn lemma_uncounted_at(flushes: Map<u64, usize>, segments: Seq<(u64, u64)>, id: u64)
    requires
        forall|i: int, j: int|
            0 <= i < j < segments.len() ==> #[trigger] segments[i].0 != #[trigger] segments[j].0,
        flushes.contains_key(id) ==> flushes[id] > 0,
    ensures
        ({
            let after = uncounted(flushes, segments);
            if has_segment(segments, id) && flushes.contains_key(id) {
                if flushes[id] == 1 {
                    !after.contains_key(id)
                } else {
                    after.contains_key(id) && after[id] == flushes[id] - 1
                }
            } else {
                after.contains_key(id) == flushes.contains_key(id) && (after.contains_key(id)
                    ==> after[id] == flushes[id])
            }
        }),
    decreases segments.len(),
{
    if segments.len() > 0 {
        lemma_has_segment(segments, id);
        lemma_uncounted_at(flushes, segments.drop_last(), id);
    }
}

/// A socket whose frames cannot be proved is closed as by an error of the
/// server.
pub proof fn unproven_sockets_are_closed(out: WsOut)
    requires
        is_unproven_close(out),
    ensures
        out is Close && out->Close_0 == 1011,
{
}

} // verus!
