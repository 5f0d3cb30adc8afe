//! WebSocket frames and the order of a batch of them.
use vstd::prelude::*;

verus! {

/// Outbound WebSocket traffic of a cell.
pub enum WsOut {
    Text(String),
    Binary(Vec<u8>),
    Close(u16, String),
}

/// The frames of a batch that go to one socket, in order.
pub open spec fn frames_of(frames: Seq<(u64, WsOut)>, id: u64) -> Seq<WsOut>
    decreases frames.len(),
{
    if frames.len() == 0 {
        Seq::empty()
    } else if frames.last().0 == id {
        frames_of(frames.drop_last(), id).push(frames.last().1)
    } else {
        frames_of(frames.drop_last(), id)
    }
}

/// The frames of a batch that go to the sockets in a set, in order.
pub open spec fn frames_within(frames: Seq<(u64, WsOut)>, ids: Set<u64>) -> Seq<(u64, WsOut)>
    decreases frames.len(),
{
    if frames.len() == 0 {
        Seq::empty()
    } else if ids.contains(frames.last().0) {
        frames_within(frames.drop_last(), ids).push(frames.last())
    } else {
        frames_within(frames.drop_last(), ids)
    }
}

/// A batch followed by another goes to each socket in that order.
pub proof fn lemma_frames_of_concat(a: Seq<(u64, WsOut)>, b: Seq<(u64, WsOut)>, id: u64)
    ensures
        frames_of(a + b, id) == frames_of(a, id) + frames_of(b, id),
    decreases b.len(),
{
    if b.len() == 0 {
        assert(a + b =~= a);
        assert(frames_of(b, id) =~= Seq::empty());
    } else {
        assert((a + b).drop_last() =~= a + b.drop_last());
        lemma_frames_of_concat(a, b.drop_last(), id);
        assert((a + b).last() == b.last());
        assert(frames_of(a + b, id) =~= frames_of(a, id) + frames_of(b, id));
    }
}

/// Frames for one socket, paired with its id.
pub open spec fn addressed(id: u64, frames: Seq<WsOut>) -> Seq<(u64, WsOut)> {
    Seq::new(frames.len(), |i: int| (id, frames[i]))
}

pub proof fn lemma_addressed(id: u64, frames: Seq<WsOut>, other: u64)
    ensures
        frames_of(addressed(id, frames), other) == (if other == id {
            frames
        } else {
            Seq::empty()
        }),
    decreases frames.len(),
{
    if frames.len() > 0 {
        assert(addressed(id, frames).drop_last() =~= addressed(id, frames.drop_last()));
        lemma_addressed(id, frames.drop_last(), other);
        assert(frames.drop_last().push(frames.last()) =~= frames);
    } else {
        assert(frames =~= Seq::empty());
        assert(addressed(id, frames) =~= Seq::empty());
    }
}

} // verus!
