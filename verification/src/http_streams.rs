//! The HTTP stream registry: request and response bodies that cross the host
//! boundary by id rather than by value.
//!
//! The registry is a plain value. What a source or a response writer is stays
//! open (`S` and `W`), and so does where the time comes from: every operation
//! that needs it takes a reading of its Domain's clock. What an operation
//! throws out of the registry it answers in a drain, so that the caller runs
//! foreign destructors after its lock is gone.
use vstd::prelude::*;
#[allow(unused_imports)]
use vstd::string::*;

#[allow(unused_imports)]
use crate::engine_api::{HttpResponse, HttpResponseWebSocket, WsTarget};
use crate::json;
#[allow(unused_imports)]
use crate::json::{Json, JsonView};
use crate::maps;
use crate::maps::IdMap;
#[allow(unused_imports)]
use crate::text;

verus! {

/// What a read resolves with at the end of a stream.
pub const HTTP_STREAM_DONE: &'static str = "__celld_http_stream_end__";

pub const HTTP_STREAM_IDLE_TIMEOUT_MS: u64 = 60_000;

pub const HTTP_STREAM_REGISTRATION_CLOSED: &'static str = "the HTTP stream service is closed";

pub const HTTP_TEE_BRANCH_CAPACITY: usize = 16;

pub const RESPONSE_STREAM_CONSUMER_CANCELED: &'static str = "response stream consumer canceled";

pub const RESPONSE_STREAM_CLOSE_IN_PROGRESS: &'static str =
    "response stream close is already in progress";

/// Why a stream ended; `Live` while it has not.
#[derive(Clone, Copy, Debug, PartialEq, Eq, Structural)]
pub enum HttpStreamTerminationReason {
    Live,
    Finished,
    Cancelled,
    Expired,
}

impl HttpStreamTerminationReason {
    /// The reason a stored code stands for.
    pub fn from_u8(value: u8) -> (r: Self)
        requires
            value <= 3,
        ensures
            r == (match value {
                0u8 => HttpStreamTerminationReason::Live,
                1u8 => HttpStreamTerminationReason::Finished,
                2u8 => HttpStreamTerminationReason::Cancelled,
                _ => HttpStreamTerminationReason::Expired,
            }),
    {
        if value == 0 {
            HttpStreamTerminationReason::Live
        } else if value == 1 {
            HttpStreamTerminationReason::Finished
        } else if value == 2 {
            HttpStreamTerminationReason::Cancelled
        } else {
            HttpStreamTerminationReason::Expired
        }
    }
}

/// The end of one stream, which is decided once.
#[derive(Clone, Copy, Debug, PartialEq, Eq, Structural)]
pub struct HttpStreamTermination {
    pub reason: HttpStreamTerminationReason,
}

impl HttpStreamTermination {
    /// The termination that a commit leaves: the first reason stays.
    pub open spec fn committed(self, reason: HttpStreamTerminationReason) -> Self {
        if self.reason == HttpStreamTerminationReason::Live {
            HttpStreamTermination { reason }
        } else {
            self
        }
    }

    pub fn new() -> (r: Self)
        ensures
            r.reason == HttpStreamTerminationReason::Live,
    {
        HttpStreamTermination { reason: HttpStreamTerminationReason::Live }
    }

    pub fn reason(&self) -> (r: HttpStreamTerminationReason)
        ensures
            r == self.reason,
    {
        self.reason
    }

    /// Commits a reason unless one stands already.
    pub fn commit(&mut self, reason: HttpStreamTerminationReason)
        ensures
            *final(self) == old(self).committed(reason),
    {
        if self.reason == HttpStreamTerminationReason::Live {
            self.reason = reason;
        }
    }

    /// The reason to answer a waiter with; `None` keeps it waiting.
    pub fn poll_reason(&self) -> (r: Option<HttpStreamTerminationReason>)
        ensures
            r == (if self.reason == HttpStreamTerminationReason::Live {
                None::<HttpStreamTerminationReason>
            } else {
                Some(self.reason)
            }),
    {
        if self.reason == HttpStreamTerminationReason::Live {
            None
        } else {
            Some(self.reason)
        }
    }
}

/// A reason that was committed never changes: whatever is committed after it,
/// the first one stands.
pub proof fn first_reason_stands(
    termination: HttpStreamTermination,
    first: HttpStreamTerminationReason,
    later: HttpStreamTerminationReason,
)
    requires
        first != HttpStreamTerminationReason::Live,
    ensures
        termination.committed(first).committed(later) == termination.committed(first),
{
}

/// What a source is checked out for.
#[derive(Clone, Copy, Debug, PartialEq, Eq, Structural)]
pub enum HttpSourceLeaseMode {
    Pull,
    Transfer,
}

/// A source in its slot, or the lease it is out on.
pub enum HttpStreamSourceSlot<S> {
    Available(S),
    Leased { token: u64, mode: HttpSourceLeaseMode },
}

/// One registered stream.
pub struct HttpStreamEntry<S> {
    pub generation: u64,
    pub deadline_ms: u64,
    pub source: HttpStreamSourceSlot<S>,
    pub termination: HttpStreamTermination,
    /// Request contexts that can still read this source.
    pub owners: usize,
    pub active_writes: usize,
    pub active_closes: usize,
    pub closing: bool,
}

impl<S> HttpStreamEntry<S> {
    /// A stream as it is registered.
    pub open spec fn fresh(generation: u64, deadline_ms: u64, source: S) -> Self {
        HttpStreamEntry {
            generation,
            deadline_ms,
            source: HttpStreamSourceSlot::Available(source),
            termination: HttpStreamTermination { reason: HttpStreamTerminationReason::Live },
            owners: 0,
            active_writes: 0,
            active_closes: 0,
            closing: false,
        }
    }

    /// Nobody holds the source, owns the stream or writes to it.
    pub open spec fn idle(self) -> bool {
        &&& self.source is Available
        &&& self.owners == 0
        &&& self.active_writes == 0
        &&& self.active_closes == 0
    }

    pub open spec fn due(self, now_ms: u64) -> bool {
        self.idle() && now_ms >= self.deadline_ms
    }

    /// The entry with its end committed.
    pub open spec fn ended(self, reason: HttpStreamTerminationReason) -> Self {
        HttpStreamEntry { termination: self.termination.committed(reason), ..self }
    }

    /// Whether the slot is out on this very lease.
    pub open spec fn leased_to(self, generation: u64, token: u64, mode: HttpSourceLeaseMode) -> bool {
        &&& self.generation == generation
        &&& self.source == HttpStreamSourceSlot::<S>::Leased { token, mode }
    }

    pub fn new(generation: u64, deadline_ms: u64, source: S) -> (entry: Self)
        ensures
            entry == Self::fresh(generation, deadline_ms, source),
    {
        HttpStreamEntry {
            generation,
            deadline_ms,
            source: HttpStreamSourceSlot::Available(source),
            termination: HttpStreamTermination::new(),
            owners: 0,
            active_writes: 0,
            active_closes: 0,
            closing: false,
        }
    }

    pub fn is_expiry_eligible(&self) -> (r: bool)
        ensures
            r == self.idle(),
    {
        let available = match &self.source {
            HttpStreamSourceSlot::Available(_) => true,
            HttpStreamSourceSlot::Leased { .. } => false,
        };
        available && self.owners == 0 && self.active_writes == 0 && self.active_closes == 0
    }

    pub fn is_due(&self, now_ms: u64) -> (r: bool)
        ensures
            r == self.due(now_ms),
    {
        self.is_expiry_eligible() && now_ms >= self.deadline_ms
    }

    fn is_leased_to(&self, generation: u64, token: u64, mode: HttpSourceLeaseMode) -> (r: bool)
        ensures
            r == self.leased_to(generation, token, mode),
    {
        match &self.source {
            HttpStreamSourceSlot::Available(_) => false,
            HttpStreamSourceSlot::Leased { token: current, mode: current_mode } => self.generation
                == generation && *current == token && *current_mode == mode,
        }
    }
}

/// A reading of the clock of the Domain that owns the registry.
#[derive(Clone, Copy, Debug, PartialEq, Eq, Structural)]
pub enum DomainClock {
    /// No Domain is bound.
    Unbound,
    Now(u64),
    /// The bound Domain is gone.
    Lost,
}

/// What left the registry in one operation.
pub struct HttpStreamDrain<S, W> {
    pub sources: Vec<(u64, HttpStreamEntry<S>)>,
    pub detached_sources: Vec<(u64, S)>,
    pub response_writers: Vec<(u64, W)>,
}

impl<S, W> HttpStreamDrain<S, W> {
    pub fn new() -> (drain: Self)
        ensures
            drain.is_empty_drain(),
    {
        HttpStreamDrain {
            sources: Vec::new(),
            detached_sources: Vec::new(),
            response_writers: Vec::new(),
        }
    }

    pub open spec fn is_empty_drain(self) -> bool {
        &&& self.sources@.len() == 0
        &&& self.detached_sources@.len() == 0
        &&& self.response_writers@.len() == 0
    }

    /// Whether no entry and no writer left.
    pub fn is_empty(&self) -> (r: bool)
        ensures
            r == (self.sources@.len() == 0 && self.response_writers@.len() == 0),
    {
        self.sources.len() == 0 && self.response_writers.len() == 0
    }

    /// The drain after the streams `ids` left `view` for `reason`, in order.
    pub open spec fn took(
        self,
        before: Self,
        view: StreamsView<S, W>,
        ids: Seq<u64>,
        reason: HttpStreamTerminationReason,
    ) -> bool {
        &&& self.sources@ == before.sources@ + view.entries_of(ids, reason)
        &&& self.response_writers@ == before.response_writers@ + view.writers_of(ids)
        &&& self.detached_sources@ == before.detached_sources@
    }
}

/// The registry as it is reasoned about.
pub struct StreamsView<S, W> {
    pub closed: bool,
    pub next_generation: u64,
    pub next_token: u64,
    pub sweeper_running: bool,
    pub sources: Map<u64, HttpStreamEntry<S>>,
    pub response_writers: Map<u64, W>,
    /// How the streams ended whose source was still out on a lease, by the
    /// token of that lease.
    pub ended: Map<u64, HttpStreamTermination>,
}

/// The number after `sequence`; zero is never handed out again.
pub open spec fn next_number(sequence: u64) -> u64 {
    if sequence == u64::MAX {
        1
    } else {
        (sequence + 1) as u64
    }
}

/// The deadline of a stream that was active at `now_ms`.
pub open spec fn idle_deadline(now_ms: u64) -> u64 {
    if now_ms + HTTP_STREAM_IDLE_TIMEOUT_MS > u64::MAX {
        u64::MAX
    } else {
        (now_ms + HTTP_STREAM_IDLE_TIMEOUT_MS) as u64
    }
}

impl<S, W> StreamsView<S, W> {
    /// Every response writer has its stream.
    pub open spec fn paired(self) -> bool {
        self.response_writers.dom().subset_of(self.sources.dom())
    }

    pub open spec fn with_entry(self, id: u64, entry: HttpStreamEntry<S>) -> Self {
        StreamsView { sources: self.sources.insert(id, entry), ..self }
    }

    /// The registry without one stream, ended for `reason`.
    pub open spec fn without(self, id: u64, reason: HttpStreamTerminationReason) -> Self {
        if self.sources.contains_key(id) {
            StreamsView {
                sources: self.sources.remove(id),
                response_writers: self.response_writers.remove(id),
                ended: match self.sources[id].source {
                    HttpStreamSourceSlot::Available(_) => self.ended,
                    HttpStreamSourceSlot::Leased { token, .. } => self.ended.insert(
                        token,
                        self.sources[id].termination.committed(reason),
                    ),
                },
                ..self
            }
        } else {
            self
        }
    }

    /// The registry without each of the streams, taken in order.
    pub open spec fn without_each(self, ids: Seq<u64>, reason: HttpStreamTerminationReason) -> Self
        decreases ids.len(),
    {
        if ids.len() == 0 {
            self
        } else {
            self.without_each(ids.drop_last(), reason).without(ids.last(), reason)
        }
    }

    pub open spec fn entries_of(self, ids: Seq<u64>, reason: HttpStreamTerminationReason) -> Seq<
        (u64, HttpStreamEntry<S>),
    > {
        Seq::new(ids.len(), |i: int| (ids[i], self.sources[ids[i]].ended(reason)))
    }

    /// The writers that the streams have, in order.
    pub open spec fn writers_of(self, ids: Seq<u64>) -> Seq<(u64, W)>
        decreases ids.len(),
    {
        if ids.len() == 0 {
            Seq::empty()
        } else if self.response_writers.contains_key(ids.last()) {
            self.writers_of(ids.drop_last()).push((ids.last(), self.response_writers[ids.last()]))
        } else {
            self.writers_of(ids.drop_last())
        }
    }

    pub open spec fn all_ids(self) -> Seq<u64> {
        maps::ascending_ids(self.sources.dom())
    }

    /// The registry after it closed: every stream cancelled, lowest id first.
    pub open spec fn shut(self) -> Self {
        StreamsView {
            closed: true,
            sweeper_running: false,
            ..self.without_each(self.all_ids(), HttpStreamTerminationReason::Cancelled)
        }
    }

    /// How the stream behind a lease ended, as the lease sees it.
    pub open spec fn lease_reason(self, token: u64) -> HttpStreamTerminationReason {
        if self.ended.contains_key(token) {
            self.ended[token].reason
        } else {
            HttpStreamTerminationReason::Live
        }
    }

    /// The registry that keeps no end for a token: its lease was settled, or is
    /// new.
    pub open spec fn settled(self, token: u64) -> Self {
        StreamsView { ended: self.ended.remove(token), ..self }
    }

    pub open spec fn leased_to(self, lease: HttpSourceLease) -> bool {
        self.sources.contains_key(lease.stream_id) && self.sources[lease.stream_id].leased_to(
            lease.generation,
            lease.token,
            lease.mode,
        )
    }
}

/// The registry.
pub struct HttpStreamState<S, W> {
    pub closed: bool,
    pub next_generation: u64,
    pub next_token: u64,
    pub sweeper_running: bool,
    pub sources: IdMap<HttpStreamEntry<S>>,
    pub response_writers: IdMap<W>,
    pub ended: IdMap<HttpStreamTermination>,
}

impl<S, W> View for HttpStreamState<S, W> {
    type V = StreamsView<S, W>;

    open spec fn view(&self) -> StreamsView<S, W> {
        StreamsView {
            closed: self.closed,
            next_generation: self.next_generation,
            next_token: self.next_token,
            sweeper_running: self.sweeper_running,
            sources: self.sources@,
            response_writers: self.response_writers@,
            ended: self.ended@,
        }
    }
}

/// The right to one checked-out source.
#[derive(Clone, Copy, Debug, PartialEq, Eq, Structural)]
pub struct HttpSourceLease {
    pub stream_id: u64,
    pub generation: u64,
    pub token: u64,
    pub mode: HttpSourceLeaseMode,
}

/// A request context's share in a stream.
#[derive(Clone, Copy, Debug, PartialEq, Eq, Structural)]
pub struct HttpStreamClaim {
    pub stream_id: u64,
    pub generation: u64,
}

/// Hands out stream ids. One counter serves every registry of a process: a
/// counter in each could reuse an id, and a stale caller could then read an
/// unrelated stream.
pub struct HttpStreamIds {
    pub next: u64,
}

/// The id after `id`; the counter wraps.
pub open spec fn id_after(id: u64) -> u64 {
    if id == u64::MAX {
        0
    } else {
        (id + 1) as u64
    }
}

impl HttpStreamIds {
    pub fn new() -> (ids: Self)
        ensures
            ids.next == 1,
    {
        HttpStreamIds { next: 1 }
    }

    pub fn allocate(&mut self) -> (id: u64)
        ensures
            id == old(self).next,
            final(self).next == id_after(old(self).next),
    {
        let id = self.next;
        self.next = if id == u64::MAX {
            0
        } else {
            id + 1
        };
        id
    }
}

proof fn lemma_without_keeps_pairs<S, W>(
    view: StreamsView<S, W>,
    id: u64,
    reason: HttpStreamTerminationReason,
)
    requires
        view.paired(),
    ensures
        view.without(id, reason).paired(),
{
}

/// Removing several streams removes exactly those, and keeps the writers
/// paired.
proof fn lemma_without_each<S, W>(
    view: StreamsView<S, W>,
    ids: Seq<u64>,
    reason: HttpStreamTerminationReason,
)
    ensures
        view.without_each(ids, reason).sources == view.sources.remove_keys(ids.to_set()),
        view.paired() ==> view.without_each(ids, reason).paired(),
        view.without_each(ids, reason).closed == view.closed,
        view.without_each(ids, reason).sweeper_running == view.sweeper_running,
        view.without_each(ids, reason).next_generation == view.next_generation,
        view.without_each(ids, reason).next_token == view.next_token,
    decreases ids.len(),
{
    if ids.len() == 0 {
        assert(view.sources.remove_keys(ids.to_set()) =~= view.sources);
    } else {
        lemma_without_each(view, ids.drop_last(), reason);
        assert forall|id: u64| ids.to_set().contains(id) == (ids.drop_last().to_set().contains(id)
            || id == ids.last()) by {
            if ids.contains(id) && id != ids.last() {
                let i = choose|i: int| 0 <= i < ids.len() && ids[i] == id;
                assert(ids.drop_last()[i] == id);
            }
            if ids.drop_last().contains(id) {
                let i = choose|i: int| 0 <= i < ids.drop_last().len() && ids.drop_last()[i] == id;
                assert(ids[i] == id);
            }
            assert(ids[ids.len() - 1] == ids.last());
        }
        let each = view.without_each(ids.drop_last(), reason);
        assert(each.without(ids.last(), reason).sources =~= view.sources.remove_keys(ids.to_set()));
        if view.paired() {
            lemma_without_keeps_pairs(each, ids.last(), reason);
        }
    }
}

/// Closing leaves no stream and no writer behind, and a second close changes
/// nothing.
pub proof fn closing_empties<S, W>(view: StreamsView<S, W>)
    requires
        view.paired(),
        view.sources.dom().finite(),
    ensures
        view.shut().closed,
        !view.shut().sweeper_running,
        view.shut().sources == Map::<u64, HttpStreamEntry<S>>::empty(),
        view.shut().response_writers == Map::<u64, W>::empty(),
        view.shut().paired(),
        view.shut().shut() == view.shut(),
{
    maps::lemma_finite_lists(view.sources.dom());
    lemma_without_each(view, view.all_ids(), HttpStreamTerminationReason::Cancelled);
    let shut = view.shut();
    assert(shut.sources =~= Map::<u64, HttpStreamEntry<S>>::empty());
    assert(shut.response_writers.dom() =~= Set::empty());
    assert(shut.response_writers =~= Map::<u64, W>::empty());
    assert(shut.sources.dom() =~= Set::<u64>::empty());
    let none = Seq::<u64>::empty();
    assert(none.to_set() =~= Set::<u64>::empty());
    assert(maps::lists(none, shut.sources.dom()));
    maps::lemma_lists_unique(shut.all_ids(), none, shut.sources.dom());
    assert(shut.without_each(none, HttpStreamTerminationReason::Cancelled) == shut);
}

/// What a registration came to.
pub struct Registered<S, W> {
    pub accepted: bool,
    /// The caller starts the sweeper.
    pub start_sweeper: bool,
    /// The caller wakes the running sweeper.
    pub notify: bool,
    pub drain: HttpStreamDrain<S, W>,
}

/// A source handed out, or why it was not.
pub struct CheckedOut<S, W> {
    pub result: Result<(HttpSourceLease, S), String>,
    pub drain: HttpStreamDrain<S, W>,
}

/// "HTTP stream N expired after 60 seconds of inactivity".
pub open spec fn expired_message(stream_id: u64) -> Seq<char> {
    "HTTP stream "@ + text::decimal(stream_id as nat)
        + " expired after 60 seconds of inactivity"@
}

/// "HTTP stream N expired or is not registered".
pub open spec fn unknown_message(stream_id: u64) -> Seq<char> {
    "HTTP stream "@ + text::decimal(stream_id as nat) + " expired or is not registered"@
}

/// "HTTP stream N source is checked out".
pub open spec fn busy_message(stream_id: u64) -> Seq<char> {
    "HTTP stream "@ + text::decimal(stream_id as nat) + " source is checked out"@
}

fn stream_message(stream_id: u64, what: &str) -> (r: String)
    ensures
        r@ == "HTTP stream "@ + text::decimal(stream_id as nat) + what@,
{
    let mut r = String::from_str("HTTP stream ");
    r.append(text::decimal_text(stream_id).as_str());
    r.append(what);
    r
}

pub fn expired_error(stream_id: u64) -> (r: String)
    ensures
        r@ == expired_message(stream_id),
{
    stream_message(stream_id, " expired after 60 seconds of inactivity")
}

pub fn unknown_error(stream_id: u64) -> (r: String)
    ensures
        r@ == unknown_message(stream_id),
{
    stream_message(stream_id, " expired or is not registered")
}

/// What a read or a poll answers: a chunk, the end, or an error.
pub type PullAnswer = Result<Option<Vec<u8>>, String>;

/// A read's answer as it is reasoned about.
pub open spec fn pull_view(answer: PullAnswer) -> Result<Option<Seq<u8>>, Seq<char>> {
    match answer {
        Ok(Some(bytes)) => Ok(Some(bytes@)),
        Ok(None) => Ok(None),
        Err(error) => Err(error@),
    }
}

/// What a reader is told of a stream that ended under it.
pub open spec fn termination_answer(stream_id: u64, reason: HttpStreamTerminationReason) -> Result<
    Option<Seq<u8>>,
    Seq<char>,
> {
    match reason {
        HttpStreamTerminationReason::Finished | HttpStreamTerminationReason::Cancelled => Ok(None),
        HttpStreamTerminationReason::Expired => Err(expired_message(stream_id)),
        HttpStreamTerminationReason::Live => Err(unknown_message(stream_id)),
    }
}

pub fn termination_result(stream_id: u64, reason: HttpStreamTerminationReason) -> (r: PullAnswer)
    ensures
        pull_view(r) == termination_answer(stream_id, reason),
{
    match reason {
        HttpStreamTerminationReason::Finished | HttpStreamTerminationReason::Cancelled => Ok(None),
        HttpStreamTerminationReason::Expired => Err(expired_error(stream_id)),
        HttpStreamTerminationReason::Live => Err(unknown_error(stream_id)),
    }
}

impl<S, W> StreamsView<S, W> {
    /// The registry after a failed clock reading: a lost Domain closes it.
    pub open spec fn clocked(self, clock: DomainClock) -> Self {
        if clock == DomainClock::Lost {
            self.shut()
        } else {
            self
        }
    }

    /// The registry with a new stream in it.
    pub open spec fn registered(self, id: u64, source: S, writer: Option<W>, now_ms: u64) -> Self {
        let cleared = self.without(id, HttpStreamTerminationReason::Cancelled);
        StreamsView {
            next_generation: next_number(cleared.next_generation),
            sweeper_running: true,
            sources: cleared.sources.insert(
                id,
                HttpStreamEntry::fresh(cleared.next_generation, idle_deadline(now_ms), source),
            ),
            response_writers: match writer {
                Some(w) => cleared.response_writers.insert(id, w),
                None => cleared.response_writers,
            },
            ..cleared
        }
    }

    /// Whether the stream is there and due at the reading.
    pub open spec fn due_at(self, id: u64, clock: DomainClock) -> bool {
        clock is Now && self.sources.contains_key(id) && self.sources[id].due(clock->Now_0)
    }

    /// The registry after a claim.
    pub open spec fn claimed(self, id: u64, clock: DomainClock) -> Self {
        if self.closed {
            self
        } else if clock !is Now {
            self.clocked(clock)
        } else if self.due_at(id, clock) {
            self.without(id, HttpStreamTerminationReason::Expired)
        } else if self.sources.contains_key(id) {
            let entry = self.sources[id];
            self.with_entry(id, HttpStreamEntry {
                owners: more(entry.owners),
                ..entry
            })
        } else {
            self
        }
    }

    /// Whether a claim is granted.
    pub open spec fn claimable(self, id: u64, clock: DomainClock) -> bool {
        !self.closed && clock is Now && self.sources.contains_key(id) && !self.due_at(id, clock)
    }

    pub open spec fn current(self, id: u64, generation: u64) -> bool {
        self.sources.contains_key(id) && self.sources[id].generation == generation
    }

    /// The registry after a claim was given back.
    pub open spec fn released(self, claim: HttpStreamClaim) -> Self {
        if self.current(claim.stream_id, claim.generation) {
            let entry = self.sources[claim.stream_id];
            let owners = fewer(entry.owners);
            let kept = self.with_entry(claim.stream_id, HttpStreamEntry { owners, ..entry });
            if owners == 0 && entry.source is Available {
                kept.without(claim.stream_id, HttpStreamTerminationReason::Cancelled)
            } else {
                kept
            }
        } else {
            self
        }
    }

    /// Whether a checkout at the reading finds the source in its slot.
    pub open spec fn available(
        self,
        id: u64,
        claim_generation: Option<u64>,
        clock: DomainClock,
    ) -> bool {
        &&& self.claimable(id, clock)
        &&& self.claim_holds(id, claim_generation)
        &&& self.sources[id].source is Available
    }

    pub open spec fn claim_holds(self, id: u64, claim_generation: Option<u64>) -> bool {
        match claim_generation {
            Some(generation) => self.sources[id].generation == generation && self.sources[id].owners
                > 0,
            None => true,
        }
    }

    /// The registry after a checkout.
    pub open spec fn checked_out(
        self,
        id: u64,
        mode: HttpSourceLeaseMode,
        claim_generation: Option<u64>,
        clock: DomainClock,
    ) -> Self {
        if self.closed {
            self
        } else if clock !is Now {
            self.clocked(clock)
        } else if self.due_at(id, clock) {
            self.without(id, HttpStreamTerminationReason::Expired)
        } else if !self.sources.contains_key(id) {
            self
        } else {
            let numbered = StreamsView { next_token: next_number(self.next_token), ..self };
            if self.available(id, claim_generation, clock) {
                let entry = self.sources[id];
                numbered.settled(self.next_token).with_entry(id, HttpStreamEntry {
                    source: HttpStreamSourceSlot::Leased { token: self.next_token, mode },
                    owners: if claim_generation is Some {
                        fewer(entry.owners)
                    } else {
                        entry.owners
                    },
                    ..entry
                })
            } else {
                numbered
            }
        }
    }

    /// Why a checkout fails.
    pub open spec fn checkout_error(
        self,
        id: u64,
        claim_generation: Option<u64>,
        clock: DomainClock,
    ) -> Seq<char> {
        if self.closed || clock !is Now {
            unknown_message(id)
        } else if self.due_at(id, clock) {
            expired_message(id)
        } else if !self.sources.contains_key(id) || !self.claim_holds(id, claim_generation) {
            unknown_message(id)
        } else {
            busy_message(id)
        }
    }
}

/// One more, as far as the count goes.
pub open spec fn more(count: usize) -> usize {
    if count == usize::MAX {
        count
    } else {
        (count + 1) as usize
    }
}

/// One fewer, never below none.
pub open spec fn fewer(count: usize) -> usize {
    if count == 0 {
        count
    } else {
        (count - 1) as usize
    }
}

impl<S, W> HttpStreamState<S, W> {
    /// A response writer is there only while its stream is.
    pub open spec fn wf(&self) -> bool {
        self@.paired()
    }

    /// The empty registry.
    pub fn new() -> (state: Self)
        ensures
            state.wf(),
            state@ == (StreamsView::<S, W> {
                closed: false,
                next_generation: 1,
                next_token: 1,
                sweeper_running: false,
                sources: Map::empty(),
                response_writers: Map::empty(),
                ended: Map::empty(),
            }),
    {
        HttpStreamState {
            closed: false,
            next_generation: 1,
            next_token: 1,
            sweeper_running: false,
            sources: IdMap::new(),
            response_writers: IdMap::new(),
            ended: IdMap::new(),
        }
    }

    fn next_sequence(sequence: &mut u64) -> (value: u64)
        ensures
            value == *old(sequence),
            *final(sequence) == next_number(*old(sequence)),
    {
        let value = *sequence;
        *sequence = if value == u64::MAX {
            1
        } else {
            value + 1
        };
        value
    }

    fn remove_locked(
        &mut self,
        stream_id: u64,
        reason: HttpStreamTerminationReason,
        drain: &mut HttpStreamDrain<S, W>,
    ) -> (found: bool)
        requires
            old(self).wf(),
        ensures
            final(self).wf(),
            found == old(self)@.sources.contains_key(stream_id),
            final(self)@ == old(self)@.without(stream_id, reason),
            found ==> final(drain).took(*old(drain), old(self)@, seq![stream_id], reason),
            !found ==> *final(drain) == *old(drain),
    {
        let mut entry = match self.sources.remove(stream_id) {
            Some(entry) => entry,
            None => {
                assert(self@.sources =~= old(self)@.sources);
                return false;
            },
        };
        entry.termination.commit(reason);
        match &entry.source {
            HttpStreamSourceSlot::Available(_) => {},
            HttpStreamSourceSlot::Leased { token, .. } => {
                self.ended.insert(*token, entry.termination);
            },
        }
        let writer = self.response_writers.remove(stream_id);
        let ghost view = old(self)@;
        proof {
            reveal_with_fuel(StreamsView::writers_of, 2);
            let ids = seq![stream_id];
            assert(ids.drop_last() =~= Seq::<u64>::empty());
            assert(view.entries_of(ids, reason) =~= seq![(stream_id, entry)]);
        }
        if let Some(writer) = writer {
            drain.response_writers.push((stream_id, writer));
        } else {
            assert(self@.response_writers =~= view.response_writers.remove(stream_id));
        }
        drain.sources.push((stream_id, entry));
        proof {
            lemma_without_keeps_pairs(view, stream_id, reason);
            assert(drain.sources@ =~= old(drain).sources@ + view.entries_of(seq![stream_id], reason));
            assert(drain.response_writers@ =~= old(drain).response_writers@ + view.writers_of(
                seq![stream_id],
            ));
            assert(self@.sources =~= view.without(stream_id, reason).sources);
            assert(self@.ended =~= view.without(stream_id, reason).ended);
        }
        true
    }

    /// Removes streams of the registry in the given order.
    fn remove_each(
        &mut self,
        ids: &Vec<u64>,
        reason: HttpStreamTerminationReason,
        drain: &mut HttpStreamDrain<S, W>,
    )
        requires
            old(self).wf(),
            maps::ascending(ids@),
            ids@.to_set().subset_of(old(self)@.sources.dom()),
        ensures
            final(self).wf(),
            final(self)@ == old(self)@.without_each(ids@, reason),
            final(drain).took(*old(drain), old(self)@, ids@, reason),
    {
        let ghost view = self@;
        let mut i: usize = 0;
        proof {
            assert(ids@.take(0) =~= Seq::<u64>::empty());
            assert(view.entries_of(ids@.take(0), reason) =~= Seq::empty());
        }
        while i < ids.len()
            invariant
                i <= ids.len(),
                view == old(self)@,
                maps::ascending(ids@),
                ids@.to_set().subset_of(view.sources.dom()),
                self.wf(),
                self@ == view.without_each(ids@.take(i as int), reason),
                drain.took(*old(drain), view, ids@.take(i as int), reason),
            decreases ids.len() - i,
        {
            let ghost done = ids@.take(i as int);
            let ghost id = ids@[i as int];
            let ghost between = self@;
            let ghost drained = *drain;
            self.remove_locked(ids[i], reason, drain);
            i = i + 1;
            proof {
                let more = ids@.take(i as int);
                assert(more.drop_last() =~= done);
                assert(more.last() == id);
                lemma_without_each(view, done, reason);
                assert(ids@.to_set().contains(id));
                assert(!done.to_set().contains(id)) by {
                    if done.contains(id) {
                        let k = choose|k: int| 0 <= k < done.len() && done[k] == id;
                        assert(ids@[k] < ids@[i - 1]);
                    }
                }
                assert(between.sources.contains_key(id));
                assert(between.sources[id] == view.sources[id]);
                lemma_writers_stay(view, done, reason, id);
                reveal_with_fuel(StreamsView::writers_of, 2);
                assert(seq![id].drop_last() =~= Seq::<u64>::empty());
                assert(drain.sources@ =~= old(drain).sources@ + view.entries_of(more, reason));
                assert(drain.response_writers@ =~= old(drain).response_writers@ + view.writers_of(
                    more,
                ));
            }
        }
        assert(ids@.take(i as int) =~= ids@);
    }

    fn close_locked(&mut self, drain: &mut HttpStreamDrain<S, W>)
        requires
            old(self).wf(),
        ensures
            final(self).wf(),
            final(self)@ == old(self)@.shut(),
            final(drain).took(
                *old(drain),
                old(self)@,
                old(self)@.all_ids(),
                HttpStreamTerminationReason::Cancelled,
            ),
    {
        let ids = self.sources.ids();
        let ghost view = self@;
        self.remove_each(&ids, HttpStreamTerminationReason::Cancelled, drain);
        proof {
            lemma_without_each(view, view.all_ids(), HttpStreamTerminationReason::Cancelled);
        }
        self.closed = true;
        self.sweeper_running = false;
    }

    /// The reading an operation may go on with; a lost Domain closes the
    /// registry.
    fn registration_clock(&mut self, clock: DomainClock, drain: &mut HttpStreamDrain<S, W>) -> (r:
        Option<u64>)
        requires
            old(self).wf(),
        ensures
            final(self).wf(),
            final(self)@ == old(self)@.clocked(clock),
            r == (match clock {
                DomainClock::Now(now_ms) => Some(now_ms),
                _ => None::<u64>,
            }),
            clock == DomainClock::Lost ==> final(drain).took(
                *old(drain),
                old(self)@,
                old(self)@.all_ids(),
                HttpStreamTerminationReason::Cancelled,
            ),
            clock != DomainClock::Lost ==> *final(drain) == *old(drain),
    {
        match clock {
            DomainClock::Unbound => None,
            DomainClock::Now(now_ms) => Some(now_ms),
            DomainClock::Lost => {
                self.close_locked(drain);
                None
            },
        }
    }
}

/// Removing other streams leaves a stream's writer where it is.
proof fn lemma_writers_stay<S, W>(
    view: StreamsView<S, W>,
    ids: Seq<u64>,
    reason: HttpStreamTerminationReason,
    id: u64,
)
    requires
        !ids.to_set().contains(id),
    ensures
        view.without_each(ids, reason).response_writers.contains_key(id)
            == view.response_writers.contains_key(id),
        view.response_writers.contains_key(id) ==> view.without_each(
            ids,
            reason,
        ).response_writers[id] == view.response_writers[id],
    decreases ids.len(),
{
    if ids.len() > 0 {
        assert(ids[ids.len() - 1] == ids.last());
        assert(ids.to_set().contains(ids.last()));
        assert(!ids.drop_last().to_set().contains(id)) by {
            if ids.drop_last().contains(id) {
                let i = choose|i: int| 0 <= i < ids.drop_last().len() && ids.drop_last()[i] == id;
                assert(ids[i] == id);
            }
        }
        lemma_writers_stay(view, ids.drop_last(), reason, id);
    }
}

// ---- registering, claiming and checking out ------------------------------

impl<S, W> HttpStreamDrain<S, W> {
    /// The drain is exactly the streams `ids` of `view`, ended for `reason`.
    pub open spec fn holds(
        self,
        view: StreamsView<S, W>,
        ids: Seq<u64>,
        reason: HttpStreamTerminationReason,
    ) -> bool {
        &&& self.sources@ == view.entries_of(ids, reason)
        &&& self.response_writers@ == view.writers_of(ids)
        &&& self.detached_sources@.len() == 0
    }

    /// What a rejected candidate adds to what the registry threw out.
    pub open spec fn holds_rejected(
        self,
        view: StreamsView<S, W>,
        ids: Seq<u64>,
        id: u64,
        source: S,
        writer: Option<W>,
    ) -> bool {
        let reason = HttpStreamTerminationReason::Cancelled;
        &&& self.sources@ == view.entries_of(ids, reason).push(
            (id, HttpStreamEntry::fresh(0, 0, source).ended(reason)),
        )
        &&& self.response_writers@ == (match writer {
            Some(w) => view.writers_of(ids).push((id, w)),
            None => view.writers_of(ids),
        })
        &&& self.detached_sources@.len() == 0
    }
}

impl<S, W> StreamsView<S, W> {
    /// The stream alone, where it is registered.
    pub open spec fn just(self, id: u64) -> Seq<u64> {
        if self.sources.contains_key(id) {
            seq![id]
        } else {
            Seq::empty()
        }
    }

    /// What a lost clock throws out.
    pub open spec fn lost_ids(self, clock: DomainClock) -> Seq<u64> {
        if clock == DomainClock::Lost {
            self.all_ids()
        } else {
            Seq::empty()
        }
    }

    /// What an operation that reads the clock for one stream throws out: the
    /// stream if it is due, everything if the clock is lost.
    pub open spec fn swept_ids(self, id: u64, clock: DomainClock) -> Seq<u64> {
        if self.closed {
            Seq::empty()
        } else if self.due_at(id, clock) {
            seq![id]
        } else {
            self.lost_ids(clock)
        }
    }

    /// Why `swept_ids` left.
    pub open spec fn swept_reason(self, clock: DomainClock) -> HttpStreamTerminationReason {
        if clock == DomainClock::Lost {
            HttpStreamTerminationReason::Cancelled
        } else {
            HttpStreamTerminationReason::Expired
        }
    }
}

impl<S, W> StreamsView<S, W> {
    /// Whether a candidate is taken at the reading.
    pub open spec fn accepts(self, clock: DomainClock) -> bool {
        !self.closed && clock is Now
    }

    /// The registry after a candidate was offered to it.
    pub open spec fn offered(self, id: u64, source: S, writer: Option<W>, clock: DomainClock) -> Self {
        if self.closed {
            self
        } else {
            match clock {
                DomainClock::Now(now_ms) => self.registered(id, source, writer, now_ms),
                _ => self.clocked(clock),
            }
        }
    }
}

impl<S, W> Registered<S, W> {
    /// What offering a candidate to `view` comes to. The candidate itself is
    /// thrown out where it is rejected.
    pub open spec fn of(
        self,
        view: StreamsView<S, W>,
        id: u64,
        source: S,
        writer: Option<W>,
        clock: DomainClock,
    ) -> bool {
        &&& self.accepted == view.accepts(clock)
        &&& self.start_sweeper == (self.accepted && !view.sweeper_running)
        &&& self.notify == (self.accepted && view.sweeper_running)
        &&& self.accepted ==> self.drain.holds(
            view,
            view.just(id),
            HttpStreamTerminationReason::Cancelled,
        )
        &&& !self.accepted ==> self.drain.holds_rejected(
            view,
            if view.closed {
                Seq::empty()
            } else {
                view.lost_ids(clock)
            },
            id,
            source,
            writer,
        )
    }
}

impl<S, W> CheckedOut<S, W> {
    /// What checking a source of `view` out comes to.
    pub open spec fn of(
        self,
        view: StreamsView<S, W>,
        id: u64,
        mode: HttpSourceLeaseMode,
        claim_generation: Option<u64>,
        clock: DomainClock,
    ) -> bool {
        &&& self.result is Ok <==> view.available(id, claim_generation, clock)
        &&& self.result matches Ok((lease, source)) ==> {
            &&& lease == HttpSourceLease {
                stream_id: id,
                generation: view.sources[id].generation,
                token: view.next_token,
                mode,
            }
            &&& view.sources[id].source == HttpStreamSourceSlot::Available(source)
        }
        &&& self.result matches Err(error) ==> error@ == view.checkout_error(
            id,
            claim_generation,
            clock,
        )
        &&& self.drain.holds(view, view.swept_ids(id, clock), view.swept_reason(clock))
    }
}

proof fn lemma_nothing_taken<S, W>(
    view: StreamsView<S, W>,
    drain: HttpStreamDrain<S, W>,
    reason: HttpStreamTerminationReason,
)
    requires
        drain.is_empty_drain(),
    ensures
        drain.holds(view, Seq::empty(), reason),
{
    assert(drain.sources@ =~= view.entries_of(Seq::empty(), reason));
    assert(drain.response_writers@ =~= view.writers_of(Seq::empty()));
}

proof fn lemma_took_from_empty<S, W>(
    view: StreamsView<S, W>,
    empty: HttpStreamDrain<S, W>,
    drain: HttpStreamDrain<S, W>,
    ids: Seq<u64>,
    reason: HttpStreamTerminationReason,
)
    requires
        empty.is_empty_drain(),
        drain.took(empty, view, ids, reason),
    ensures
        drain.holds(view, ids, reason),
{
    assert(drain.sources@ =~= view.entries_of(ids, reason));
    assert(drain.response_writers@ =~= view.writers_of(ids));
}

impl<S, W> HttpStreamState<S, W> {
    /// Registers a source, and the response writer that feeds it, under an
    /// id. A stream that has the id already is cancelled; a closed registry
    /// and an unreadable clock reject the candidate, which goes to the drain.
    pub fn register(
        &mut self,
        stream_id: u64,
        source: S,
        writer: Option<W>,
        clock: DomainClock,
    ) -> (r: Registered<S, W>)
        requires
            old(self).wf(),
        ensures
            final(self).wf(),
            r.of(old(self)@, stream_id, source, writer, clock),
            final(self)@ == old(self)@.offered(stream_id, source, writer, clock),
    {
        let ghost view = self@;
        let mut drain: HttpStreamDrain<S, W> = HttpStreamDrain::new();
        let ghost empty = drain;
        proof {
            lemma_nothing_taken(view, drain, HttpStreamTerminationReason::Cancelled);
        }
        let now = if self.closed {
            None
        } else {
            self.registration_clock(clock, &mut drain)
        };
        match now {
            Some(now_ms) => {
                let found = self.remove_locked(
                    stream_id,
                    HttpStreamTerminationReason::Cancelled,
                    &mut drain,
                );
                proof {
                    if found {
                        lemma_took_from_empty(
                            view,
                            empty,
                            drain,
                            seq![stream_id],
                            HttpStreamTerminationReason::Cancelled,
                        );
                    }
                }
                let mut next: u64 = self.next_generation;
                let generation = Self::next_sequence(&mut next);
                self.next_generation = next;
                let deadline_ms = now_ms.saturating_add(HTTP_STREAM_IDLE_TIMEOUT_MS);
                self.sources.insert(stream_id, HttpStreamEntry::new(generation, deadline_ms, source));
                if let Some(writer) = writer {
                    self.response_writers.insert(stream_id, writer);
                }
                let start_sweeper = !self.sweeper_running;
                self.sweeper_running = true;
                Registered { accepted: true, start_sweeper, notify: !start_sweeper, drain }
            },
            None => {
                proof {
                    if !view.closed && clock == DomainClock::Lost {
                        lemma_took_from_empty(
                            view,
                            empty,
                            drain,
                            view.all_ids(),
                            HttpStreamTerminationReason::Cancelled,
                        );
                    }
                }
                let mut rejected = HttpStreamEntry::new(0, 0, source);
                rejected.termination.commit(HttpStreamTerminationReason::Cancelled);
                drain.sources.push((stream_id, rejected));
                if let Some(writer) = writer {
                    drain.response_writers.push((stream_id, writer));
                }
                Registered { accepted: false, start_sweeper: false, notify: false, drain }
            },
        }
    }

    /// Registers a source under a new id.
    pub fn register_source(&mut self, ids: &mut HttpStreamIds, source: S, clock: DomainClock) -> (r:
        (Option<u64>, Registered<S, W>))
        requires
            old(self).wf(),
        ensures
            final(self).wf(),
            final(ids).next == id_after(old(ids).next),
            r.0 == (if old(self)@.accepts(clock) {
                Some(old(ids).next)
            } else {
                None
            }),
            r.1.of(old(self)@, old(ids).next, source, None, clock),
            final(self)@ == old(self)@.offered(old(ids).next, source, None, clock),
    {
        let stream_id = ids.allocate();
        let registered = self.register(stream_id, source, None, clock);
        let id = if registered.accepted {
            Some(stream_id)
        } else {
            None
        };
        (id, registered)
    }

    /// Hands a request body to an isolate as a stream, which goes by its id.
    pub fn register_body_stream(
        &mut self,
        ids: &mut HttpStreamIds,
        stream: S,
        clock: DomainClock,
    ) -> (r: (Result<u64, String>, Registered<S, W>))
        requires
            old(self).wf(),
        ensures
            final(self).wf(),
            final(ids).next == id_after(old(ids).next),
            r.1.of(old(self)@, old(ids).next, stream, None, clock),
            final(self)@ == old(self)@.offered(old(ids).next, stream, None, clock),
            if old(self)@.accepts(clock) {
                r.0 == Ok::<u64, String>(old(ids).next)
            } else {
                r.0 is Err && r.0->Err_0@ == HTTP_STREAM_REGISTRATION_CLOSED@
            },
    {
        let (id, registered) = self.register_source(ids, stream, clock);
        match id {
            Some(id) => (Ok(id), registered),
            None => (Err(String::from_str(HTTP_STREAM_REGISTRATION_CLOSED)), registered),
        }
    }

    /// Registers both ends of a response stream under a new id.
    pub fn register_response_pair(
        &mut self,
        ids: &mut HttpStreamIds,
        receiver: S,
        writer: W,
        clock: DomainClock,
    ) -> (r: (Option<u64>, Registered<S, W>))
        requires
            old(self).wf(),
        ensures
            final(self).wf(),
            final(ids).next == id_after(old(ids).next),
            r.0 == (if old(self)@.accepts(clock) {
                Some(old(ids).next)
            } else {
                None
            }),
            r.1.of(old(self)@, old(ids).next, receiver, Some(writer), clock),
            final(self)@ == old(self)@.offered(old(ids).next, receiver, Some(writer), clock),
    {
        let stream_id = ids.allocate();
        let registered = self.register(stream_id, receiver, Some(writer), clock);
        let id = if registered.accepted {
            Some(stream_id)
        } else {
            None
        };
        (id, registered)
    }

    /// Reads the clock for one stream: throws the stream out if it is due.
    /// Answers whether the operation may go on with the stream as it stands.
    fn sweep_one(&mut self, stream_id: u64, clock: DomainClock, drain: &mut HttpStreamDrain<S, W>) -> (r:
        bool)
        requires
            old(self).wf(),
            !old(self)@.closed,
            old(drain).is_empty_drain(),
        ensures
            final(self).wf(),
            r == (clock is Now && !old(self)@.due_at(stream_id, clock)),
            final(self)@ == (if old(self)@.due_at(stream_id, clock) {
                old(self)@.without(stream_id, HttpStreamTerminationReason::Expired)
            } else {
                old(self)@.clocked(clock)
            }),
            final(drain).holds(
                old(self)@,
                old(self)@.swept_ids(stream_id, clock),
                old(self)@.swept_reason(clock),
            ),
            r ==> final(drain).is_empty_drain(),
    {
        let ghost view = self@;
        let ghost empty = *drain;
        proof {
            lemma_nothing_taken(view, *drain, view.swept_reason(clock));
        }
        let now_ms = match self.registration_clock(clock, drain) {
            Some(now_ms) => now_ms,
            None => {
                proof {
                    if clock == DomainClock::Lost {
                        lemma_took_from_empty(
                            view,
                            empty,
                            *drain,
                            view.all_ids(),
                            HttpStreamTerminationReason::Cancelled,
                        );
                    }
                }
                return false;
            },
        };
        let due = match self.sources.get(stream_id) {
            Some(entry) => entry.is_due(now_ms),
            None => false,
        };
        if due {
            self.remove_locked(stream_id, HttpStreamTerminationReason::Expired, drain);
            proof {
                lemma_took_from_empty(
                    view,
                    empty,
                    *drain,
                    seq![stream_id],
                    HttpStreamTerminationReason::Expired,
                );
            }
        }
        !due
    }

    /// Takes a share in a stream. An entry that is due expires instead.
    pub fn claim(&mut self, stream_id: u64, clock: DomainClock) -> (r: (
        Option<HttpStreamClaim>,
        HttpStreamDrain<S, W>,
    ))
        requires
            old(self).wf(),
        ensures
            final(self).wf(),
            final(self)@ == old(self)@.claimed(stream_id, clock),
            r.0 == (if old(self)@.claimable(stream_id, clock) {
                Some(
                    HttpStreamClaim {
                        stream_id,
                        generation: old(self)@.sources[stream_id].generation,
                    },
                )
            } else {
                None
            }),
            r.1.holds(
                old(self)@,
                old(self)@.swept_ids(stream_id, clock),
                old(self)@.swept_reason(clock),
            ),
    {
        let ghost view = self@;
        let mut drain: HttpStreamDrain<S, W> = HttpStreamDrain::new();
        if self.closed {
            proof {
                lemma_nothing_taken(view, drain, view.swept_reason(clock));
            }
            return (None, drain);
        }
        if !self.sweep_one(stream_id, clock, &mut drain) {
            return (None, drain);
        }
        match self.sources.remove(stream_id) {
            Some(mut entry) => {
                entry.owners = entry.owners.saturating_add(1);
                let generation = entry.generation;
                self.sources.insert(stream_id, entry);
                assert(self@.sources =~= view.claimed(stream_id, clock).sources);
                (Some(HttpStreamClaim { stream_id, generation }), drain)
            },
            None => {
                assert(self@.sources =~= view.sources);
                (None, drain)
            },
        }
    }

    /// Gives a share back. A stream in its slot that nobody owns any longer
    /// is cancelled; a source that is out stays registered, so that its
    /// reader can publish its result.
    pub fn release_claim(&mut self, claim: HttpStreamClaim) -> (r: (bool, HttpStreamDrain<S, W>))
        requires
            old(self).wf(),
        ensures
            final(self).wf(),
            final(self)@ == old(self)@.released(claim),
            r.0 == old(self)@.current(claim.stream_id, claim.generation),
            ({
                let view = old(self)@;
                let entry = view.sources[claim.stream_id];
                let kept = view.with_entry(claim.stream_id, HttpStreamEntry {
                    owners: fewer(entry.owners),
                    ..entry
                });
                r.1.holds(
                    kept,
                    if r.0 && fewer(entry.owners) == 0 && entry.source is Available {
                        seq![claim.stream_id]
                    } else {
                        Seq::empty()
                    },
                    HttpStreamTerminationReason::Cancelled,
                )
            }),
    {
        let ghost view = self@;
        let stream_id = claim.stream_id;
        let mut drain: HttpStreamDrain<S, W> = HttpStreamDrain::new();
        let ghost empty = drain;
        let ghost kept = view.with_entry(
            stream_id,
            HttpStreamEntry {
                owners: fewer(view.sources[stream_id].owners),
                ..view.sources[stream_id]
            },
        );
        proof {
            lemma_nothing_taken(kept, drain, HttpStreamTerminationReason::Cancelled);
        }
        let current = match self.sources.get(stream_id) {
            Some(entry) => entry.generation == claim.generation,
            None => false,
        };
        if !current {
            return (false, drain);
        }
        match self.sources.remove(stream_id) {
            Some(mut entry) => {
                entry.owners = entry.owners.saturating_sub(1);
                let remove = entry.owners == 0 && match &entry.source {
                    HttpStreamSourceSlot::Available(_) => true,
                    HttpStreamSourceSlot::Leased { .. } => false,
                };
                self.sources.insert(stream_id, entry);
                assert(self@.sources =~= kept.sources);
                if remove {
                    self.remove_locked(
                        stream_id,
                        HttpStreamTerminationReason::Cancelled,
                        &mut drain,
                    );
                    proof {
                        lemma_took_from_empty(
                            kept,
                            empty,
                            drain,
                            seq![stream_id],
                            HttpStreamTerminationReason::Cancelled,
                        );
                    }
                }
            },
            None => {},
        }
        (true, drain)
    }

    /// Takes a source out of its slot. A claim must name the stream's
    /// generation and be one of its shares; a granted checkout spends it.
    pub fn checkout(
        &mut self,
        stream_id: u64,
        mode: HttpSourceLeaseMode,
        claim_generation: Option<u64>,
        clock: DomainClock,
    ) -> (r: CheckedOut<S, W>)
        requires
            old(self).wf(),
        ensures
            final(self).wf(),
            final(self)@ == old(self)@.checked_out(stream_id, mode, claim_generation, clock),
            r.of(old(self)@, stream_id, mode, claim_generation, clock),
    {
        let ghost view = self@;
        let mut drain: HttpStreamDrain<S, W> = HttpStreamDrain::new();
        if self.closed {
            proof {
                lemma_nothing_taken(view, drain, view.swept_reason(clock));
            }
            return CheckedOut { result: Err(unknown_error(stream_id)), drain };
        }
        if !self.sweep_one(stream_id, clock, &mut drain) {
            let error = match clock {
                DomainClock::Now(_) => expired_error(stream_id),
                _ => unknown_error(stream_id),
            };
            return CheckedOut { result: Err(error), drain };
        }
        match self.sources.remove(stream_id) {
            None => {
                assert(self@.sources =~= view.sources);
                CheckedOut { result: Err(unknown_error(stream_id)), drain }
            },
            Some(entry) => {
                let mut next: u64 = self.next_token;
                let token = Self::next_sequence(&mut next);
                self.next_token = next;
                let refused = match claim_generation {
                    Some(generation) => generation != entry.generation || entry.owners == 0,
                    None => false,
                };
                if refused {
                    self.sources.insert(stream_id, entry);
                    assert(self@.sources =~= view.sources);
                    return CheckedOut { result: Err(unknown_error(stream_id)), drain };
                }
                let generation = entry.generation;
                let owners: usize = if claim_generation.is_some() {
                    entry.owners.saturating_sub(1)
                } else {
                    entry.owners
                };
                match entry.source {
                    HttpStreamSourceSlot::Available(source) => {
                        self.sources.insert(
                            stream_id,
                            HttpStreamEntry {
                                generation,
                                deadline_ms: entry.deadline_ms,
                                source: HttpStreamSourceSlot::Leased { token, mode },
                                termination: entry.termination,
                                owners,
                                active_writes: entry.active_writes,
                                active_closes: entry.active_closes,
                                closing: entry.closing,
                            },
                        );
                        assert(self@.sources =~= view.checked_out(
                            stream_id,
                            mode,
                            claim_generation,
                            clock,
                        ).sources);
                        self.ended.remove(token);
                        let lease = HttpSourceLease { stream_id, generation, token, mode };
                        CheckedOut { result: Ok((lease, source)), drain }
                    },
                    HttpStreamSourceSlot::Leased { token: held, mode: held_mode } => {
                        self.sources.insert(
                            stream_id,
                            HttpStreamEntry {
                                generation,
                                deadline_ms: entry.deadline_ms,
                                source: HttpStreamSourceSlot::Leased {
                                    token: held,
                                    mode: held_mode,
                                },
                                termination: entry.termination,
                                owners: entry.owners,
                                active_writes: entry.active_writes,
                                active_closes: entry.active_closes,
                                closing: entry.closing,
                            },
                        );
                        assert(self@.sources =~= view.sources);
                        CheckedOut {
                            result: Err(stream_message(stream_id, " source is checked out")),
                            drain,
                        }
                    },
                }
            },
        }
    }

    /// Checks a source out for one read.
    pub fn checkout_source(&mut self, stream_id: u64, clock: DomainClock) -> (r: CheckedOut<S, W>)
        requires
            old(self).wf(),
        ensures
            final(self).wf(),
            final(self)@ == old(self)@.checked_out(
                stream_id,
                HttpSourceLeaseMode::Pull,
                None,
                clock,
            ),
            r.of(old(self)@, stream_id, HttpSourceLeaseMode::Pull, None, clock),
    {
        self.checkout(stream_id, HttpSourceLeaseMode::Pull, None, clock)
    }

    /// Checks a source out for good: its consumer polls it directly.
    pub fn checkout_transfer(
        &mut self,
        stream_id: u64,
        claim_generation: Option<u64>,
        clock: DomainClock,
    ) -> (r: CheckedOut<S, W>)
        requires
            old(self).wf(),
        ensures
            final(self).wf(),
            final(self)@ == old(self)@.checked_out(
                stream_id,
                HttpSourceLeaseMode::Transfer,
                claim_generation,
                clock,
            ),
            r.of(old(self)@, stream_id, HttpSourceLeaseMode::Transfer, claim_generation, clock),
    {
        self.checkout(stream_id, HttpSourceLeaseMode::Transfer, claim_generation, clock)
    }
}

/// A source is handed to one holder at a time: right after a granted checkout
/// another one of the same stream is refused, at any clock reading.
pub proof fn one_holder_at_a_time<S, W>(
    view: StreamsView<S, W>,
    id: u64,
    mode: HttpSourceLeaseMode,
    claim: Option<u64>,
    clock: DomainClock,
    later_claim: Option<u64>,
    later: DomainClock,
)
    requires
        view.available(id, claim, clock),
    ensures
        !view.checked_out(id, mode, claim, clock).available(id, later_claim, later),
{
}

/// A claimed stream does not expire: however late it is looked at, it is not
/// due while a claim is out.
pub proof fn claimed_stream_does_not_expire<S, W>(
    view: StreamsView<S, W>,
    id: u64,
    clock: DomainClock,
    later: DomainClock,
)
    requires
        view.claimable(id, clock),
    ensures
        !view.claimed(id, clock).due_at(id, later),
{
}

// ---- settling a lease ----------------------------------------------------

/// What a completed read came to.
pub struct PullCompleted<S, W> {
    pub answer: PullAnswer,
    pub drain: HttpStreamDrain<S, W>,
}

impl<S, W> PullCompleted<S, W> {
    /// What the reader is answered and what leaves the registry when a read of
    /// `view` ends with `result`.
    pub open spec fn completes(
        self,
        view: StreamsView<S, W>,
        lease: HttpSourceLease,
        source: S,
        result: Result<Option<Seq<u8>>, Seq<char>>,
        clock: DomainClock,
    ) -> bool {
        let ids = view.pull_drained(lease, result, clock);
        let reason = if result is Ok && result->Ok_0 is Some {
            HttpStreamTerminationReason::Cancelled
        } else {
            HttpStreamTerminationReason::Finished
        };
        &&& pull_view(self.answer) == view.pull_answer(lease, result, clock)
        &&& self.drain.sources@ == view.entries_of(ids, reason)
        &&& self.drain.response_writers@ == view.writers_of(ids)
        &&& self.drain.detached_sources@ == (if view.pull_restores(lease, result, clock) {
            Seq::empty()
        } else {
            seq![(lease.stream_id, source)]
        })
    }
}

impl<S, W> StreamsView<S, W> {
    /// Whether a read that ends now still speaks for its stream.
    pub open spec fn pull_counts(self, lease: HttpSourceLease) -> bool {
        &&& self.lease_reason(lease.token) == HttpStreamTerminationReason::Live
        &&& self.leased_to(HttpSourceLease { mode: HttpSourceLeaseMode::Pull, ..lease })
    }

    /// The registry after a read ended with `result`.
    pub open spec fn pulled(
        self,
        lease: HttpSourceLease,
        source: S,
        result: Result<Option<Seq<u8>>, Seq<char>>,
        clock: DomainClock,
    ) -> Self {
        let after = if !self.pull_counts(lease) {
            self
        } else if !(result is Ok && result->Ok_0 is Some) {
            self.without(lease.stream_id, HttpStreamTerminationReason::Finished)
        } else if clock !is Now {
            self.shut()
        } else {
            self.with_entry(lease.stream_id, HttpStreamEntry {
                source: HttpStreamSourceSlot::Available(source),
                deadline_ms: idle_deadline(clock->Now_0),
                ..self.sources[lease.stream_id]
            })
        };
        after.settled(lease.token)
    }

    /// What the reader is answered.
    pub open spec fn pull_answer(
        self,
        lease: HttpSourceLease,
        result: Result<Option<Seq<u8>>, Seq<char>>,
        clock: DomainClock,
    ) -> Result<Option<Seq<u8>>, Seq<char>> {
        if !self.pull_counts(lease) {
            termination_answer(lease.stream_id, self.lease_reason(lease.token))
        } else if result is Ok && result->Ok_0 is Some && clock !is Now {
            Ok(None)
        } else {
            result
        }
    }

    /// Which streams leave when a read ends.
    pub open spec fn pull_drained(
        self,
        lease: HttpSourceLease,
        result: Result<Option<Seq<u8>>, Seq<char>>,
        clock: DomainClock,
    ) -> Seq<u64> {
        if !self.pull_counts(lease) {
            Seq::empty()
        } else if !(result is Ok && result->Ok_0 is Some) {
            seq![lease.stream_id]
        } else if clock !is Now {
            self.all_ids()
        } else {
            Seq::empty()
        }
    }

    /// Whether the source of an ended read is back in its slot.
    pub open spec fn pull_restores(
        self,
        lease: HttpSourceLease,
        result: Result<Option<Seq<u8>>, Seq<char>>,
        clock: DomainClock,
    ) -> bool {
        self.pull_counts(lease) && result is Ok && result->Ok_0 is Some && clock is Now
    }

    /// The registry after a lease was given up for `requested`.
    pub open spec fn lease_finished(
        self,
        lease: HttpSourceLease,
        requested: HttpStreamTerminationReason,
    ) -> Self {
        if self.leased_to(lease) {
            self.without(lease.stream_id, requested).settled(lease.token)
        } else {
            self.settled(lease.token)
        }
    }

    /// The reason that won when a lease was given up for `requested`.
    pub open spec fn winning_reason(
        self,
        lease: HttpSourceLease,
        requested: HttpStreamTerminationReason,
    ) -> HttpStreamTerminationReason {
        let reason = if self.leased_to(lease) {
            self.sources[lease.stream_id].termination.committed(requested).reason
        } else {
            self.lease_reason(lease.token)
        };
        if reason == HttpStreamTerminationReason::Live {
            HttpStreamTerminationReason::Cancelled
        } else {
            reason
        }
    }

    /// What a transferred source's progress comes to.
    pub open spec fn transfer_outcome(self, lease: HttpSourceLease, clock: DomainClock) -> Result<
        (),
        HttpStreamTerminationReason,
    > {
        if self.lease_reason(lease.token) != HttpStreamTerminationReason::Live {
            Err(self.lease_reason(lease.token))
        } else if !self.leased_to(
            HttpSourceLease { mode: HttpSourceLeaseMode::Transfer, ..lease },
        ) {
            Err(HttpStreamTerminationReason::Live)
        } else if clock !is Now {
            Err(HttpStreamTerminationReason::Cancelled)
        } else {
            Ok(())
        }
    }

    /// The registry after a transferred source made progress.
    pub open spec fn transferred(self, lease: HttpSourceLease, clock: DomainClock) -> Self {
        if self.transfer_outcome(lease, clock) is Ok {
            self.with_entry(lease.stream_id, HttpStreamEntry {
                deadline_ms: idle_deadline(clock->Now_0),
                ..self.sources[lease.stream_id]
            })
        } else {
            self
        }
    }
}

impl<S, W> HttpStreamState<S, W> {
    /// How the stream behind a lease ended, as far as it has.
    pub fn lease_termination(&self, lease: HttpSourceLease) -> (r: HttpStreamTerminationReason)
        ensures
            r == self@.lease_reason(lease.token),
    {
        match self.ended.get(lease.token) {
            Some(termination) => termination.reason(),
            None => HttpStreamTerminationReason::Live,
        }
    }

    fn lease_matches(&self, lease: HttpSourceLease) -> (r: bool)
        ensures
            r == self@.leased_to(lease),
    {
        match self.sources.get(lease.stream_id) {
            Some(entry) => entry.is_leased_to(lease.generation, lease.token, lease.mode),
            None => false,
        }
    }

    /// Ends a read. While the lease still stands a chunk puts the source back
    /// and renews the stream's deadline, and an end or an error finishes the
    /// stream; otherwise the reader learns how the stream ended.
    pub fn complete_pull(
        &mut self,
        lease: HttpSourceLease,
        source: S,
        result: PullAnswer,
        clock: DomainClock,
    ) -> (r: PullCompleted<S, W>)
        requires
            old(self).wf(),
        ensures
            final(self).wf(),
            final(self)@ == old(self)@.pulled(lease, source, pull_view(result), clock),
            r.completes(old(self)@, lease, source, pull_view(result), clock),
    {
        let ghost view = self@;
        let ghost outcome = pull_view(result);
        let mut drain: HttpStreamDrain<S, W> = HttpStreamDrain::new();
        let ghost empty = drain;
        proof {
            lemma_nothing_taken(view, drain, HttpStreamTerminationReason::Cancelled);
            lemma_nothing_taken(view, drain, HttpStreamTerminationReason::Finished);
        }
        let reason = self.lease_termination(lease);
        let matches = self.lease_matches(
            HttpSourceLease {
                stream_id: lease.stream_id,
                generation: lease.generation,
                token: lease.token,
                mode: HttpSourceLeaseMode::Pull,
            },
        );
        if reason != HttpStreamTerminationReason::Live || !matches {
            self.ended.remove(lease.token);
            drain.detached_sources.push((lease.stream_id, source));
            assert(drain.detached_sources@ =~= seq![(lease.stream_id, source)]);
            return PullCompleted { answer: termination_result(lease.stream_id, reason), drain };
        }
        let chunk = match &result {
            Ok(Some(_)) => true,
            _ => false,
        };
        if !chunk {
            self.remove_locked(
                lease.stream_id,
                HttpStreamTerminationReason::Finished,
                &mut drain,
            );
            proof {
                lemma_took_from_empty(
                    view,
                    empty,
                    drain,
                    seq![lease.stream_id],
                    HttpStreamTerminationReason::Finished,
                );
            }
            self.ended.remove(lease.token);
            drain.detached_sources.push((lease.stream_id, source));
            assert(drain.detached_sources@ =~= seq![(lease.stream_id, source)]);
            return PullCompleted { answer: result, drain };
        }
        match clock {
            DomainClock::Now(now_ms) => {
                if let Some(entry) = self.sources.remove(lease.stream_id) {
                    self.sources.insert(
                        lease.stream_id,
                        HttpStreamEntry {
                            generation: entry.generation,
                            deadline_ms: now_ms.saturating_add(HTTP_STREAM_IDLE_TIMEOUT_MS),
                            source: HttpStreamSourceSlot::Available(source),
                            termination: entry.termination,
                            owners: entry.owners,
                            active_writes: entry.active_writes,
                            active_closes: entry.active_closes,
                            closing: entry.closing,
                        },
                    );
                }
                self.ended.remove(lease.token);
                assert(self@.sources =~= view.pulled(lease, source, outcome, clock).sources);
                assert(drain.detached_sources@ =~= Seq::empty());
                PullCompleted { answer: result, drain }
            },
            _ => {
                self.close_locked(&mut drain);
                proof {
                    lemma_took_from_empty(
                        view,
                        empty,
                        drain,
                        view.all_ids(),
                        HttpStreamTerminationReason::Cancelled,
                    );
                }
                self.ended.remove(lease.token);
                drain.detached_sources.push((lease.stream_id, source));
                assert(drain.detached_sources@ =~= seq![(lease.stream_id, source)]);
                PullCompleted { answer: Ok(None), drain }
            },
        }
    }

    /// Settles a read: with what the source gave, or, where the stream ended
    /// first, with how it ended.
    pub fn settle_http_stream_read(
        &mut self,
        lease: HttpSourceLease,
        source: S,
        next: Option<PullAnswer>,
        clock: DomainClock,
    ) -> (r: PullCompleted<S, W>)
        requires
            old(self).wf(),
        ensures
            final(self).wf(),
            ({
                let result = match next {
                    Some(result) => pull_view(result),
                    None => termination_answer(
                        lease.stream_id,
                        old(self)@.lease_reason(lease.token),
                    ),
                };
                &&& final(self)@ == old(self)@.pulled(lease, source, result, clock)
                &&& r.completes(old(self)@, lease, source, result, clock)
            }),
    {
        let result = match next {
            Some(result) => result,
            None => termination_result(lease.stream_id, self.lease_termination(lease)),
        };
        self.complete_pull(lease, source, result, clock)
    }

    /// Renews the deadline of a transferred source that gave a chunk.
    pub fn transferred_activity(&mut self, lease: HttpSourceLease, clock: DomainClock) -> (r: Result<
        (),
        HttpStreamTerminationReason,
    >)
        requires
            old(self).wf(),
        ensures
            final(self).wf(),
            r == old(self)@.transfer_outcome(lease, clock),
            final(self)@ == old(self)@.transferred(lease, clock),
    {
        let ghost view = self@;
        let reason = self.lease_termination(lease);
        if reason != HttpStreamTerminationReason::Live {
            return Err(reason);
        }
        let matches = self.lease_matches(
            HttpSourceLease {
                stream_id: lease.stream_id,
                generation: lease.generation,
                token: lease.token,
                mode: HttpSourceLeaseMode::Transfer,
            },
        );
        if !matches {
            return Err(reason);
        }
        match clock {
            DomainClock::Now(now_ms) => {
                if let Some(mut entry) = self.sources.remove(lease.stream_id) {
                    entry.deadline_ms = now_ms.saturating_add(HTTP_STREAM_IDLE_TIMEOUT_MS);
                    self.sources.insert(lease.stream_id, entry);
                }
                assert(self@.sources =~= view.transferred(lease, clock).sources);
                Ok(())
            },
            _ => Err(HttpStreamTerminationReason::Cancelled),
        }
    }

    /// Gives a lease up. The stream it still holds leaves for `requested`
    /// unless a reason was committed before; answers the reason that won.
    pub fn finish_lease(
        &mut self,
        lease: HttpSourceLease,
        requested: HttpStreamTerminationReason,
    ) -> (r: (HttpStreamTerminationReason, HttpStreamDrain<S, W>))
        requires
            old(self).wf(),
        ensures
            final(self).wf(),
            final(self)@ == old(self)@.lease_finished(lease, requested),
            r.0 == old(self)@.winning_reason(lease, requested),
            r.0 != HttpStreamTerminationReason::Live,
            r.1.holds(
                old(self)@,
                if old(self)@.leased_to(lease) {
                    seq![lease.stream_id]
                } else {
                    Seq::empty()
                },
                requested,
            ),
    {
        let ghost view = self@;
        let mut drain: HttpStreamDrain<S, W> = HttpStreamDrain::new();
        let ghost empty = drain;
        proof {
            lemma_nothing_taken(view, drain, requested);
        }
        if self.lease_matches(lease) {
            self.remove_locked(lease.stream_id, requested, &mut drain);
            proof {
                lemma_took_from_empty(view, empty, drain, seq![lease.stream_id], requested);
            }
        }
        let reason = self.lease_termination(lease);
        self.ended.remove(lease.token);
        let winning = if reason == HttpStreamTerminationReason::Live {
            HttpStreamTerminationReason::Cancelled
        } else {
            reason
        };
        (winning, drain)
    }

    /// Gives a lease up that nothing came of.
    pub fn cancel_lease(&mut self, lease: HttpSourceLease) -> (drain: HttpStreamDrain<S, W>)
        requires
            old(self).wf(),
        ensures
            final(self).wf(),
            final(self)@ == old(self)@.lease_finished(
                lease,
                HttpStreamTerminationReason::Cancelled,
            ),
            drain.holds(
                old(self)@,
                if old(self)@.leased_to(lease) {
                    seq![lease.stream_id]
                } else {
                    Seq::empty()
                },
                HttpStreamTerminationReason::Cancelled,
            ),
    {
        self.finish_lease(lease, HttpStreamTerminationReason::Cancelled).1
    }

    /// Cancels a stream, if it is registered.
    pub fn cancel_source(&mut self, stream_id: u64) -> (drain: HttpStreamDrain<S, W>)
        requires
            old(self).wf(),
        ensures
            final(self).wf(),
            final(self)@ == old(self)@.without(stream_id, HttpStreamTerminationReason::Cancelled),
            drain.holds(
                old(self)@,
                old(self)@.just(stream_id),
                HttpStreamTerminationReason::Cancelled,
            ),
    {
        let ghost view = self@;
        let mut drain: HttpStreamDrain<S, W> = HttpStreamDrain::new();
        let ghost empty = drain;
        proof {
            lemma_nothing_taken(view, drain, HttpStreamTerminationReason::Cancelled);
        }
        let found = self.remove_locked(
            stream_id,
            HttpStreamTerminationReason::Cancelled,
            &mut drain,
        );
        proof {
            if found {
                lemma_took_from_empty(
                    view,
                    empty,
                    drain,
                    seq![stream_id],
                    HttpStreamTerminationReason::Cancelled,
                );
            }
        }
        drain
    }

    /// Closes the registry, and cancels every stream in it.
    pub fn close(&mut self) -> (drain: HttpStreamDrain<S, W>)
        requires
            old(self).wf(),
        ensures
            final(self).wf(),
            final(self)@ == old(self)@.shut(),
            drain.holds(
                old(self)@,
                old(self)@.all_ids(),
                HttpStreamTerminationReason::Cancelled,
            ),
    {
        let ghost view = self@;
        let mut drain: HttpStreamDrain<S, W> = HttpStreamDrain::new();
        let ghost empty = drain;
        self.close_locked(&mut drain);
        proof {
            lemma_took_from_empty(
                view,
                empty,
                drain,
                view.all_ids(),
                HttpStreamTerminationReason::Cancelled,
            );
        }
        drain
    }

    /// The owner of the sweeper is gone: an open registry closes. One that
    /// was closed already is left to whoever closed it.
    pub fn owner_lost(&mut self) -> (drain: HttpStreamDrain<S, W>)
        requires
            old(self).wf(),
        ensures
            final(self).wf(),
            final(self)@ == (if old(self)@.closed {
                old(self)@
            } else {
                old(self)@.shut()
            }),
            drain.holds(
                old(self)@,
                if old(self)@.closed {
                    Seq::empty()
                } else {
                    old(self)@.all_ids()
                },
                HttpStreamTerminationReason::Cancelled,
            ),
    {
        if self.closed {
            let drain: HttpStreamDrain<S, W> = HttpStreamDrain::new();
            proof {
                lemma_nothing_taken(self@, drain, HttpStreamTerminationReason::Cancelled);
            }
            drain
        } else {
            self.close()
        }
    }

    /// Refuses further registrations and leaves what is registered in place.
    pub fn quarantine(&mut self)
        requires
            old(self).wf(),
        ensures
            final(self).wf(),
            final(self)@ == (StreamsView { closed: true, ..old(self)@ }),
    {
        self.closed = true;
    }
}

/// A read that is interrupted after the stream ended reports that end; what
/// the source gave meanwhile is not seen.
pub proof fn ended_stream_answers_its_end<S, W>(
    view: StreamsView<S, W>,
    lease: HttpSourceLease,
    reason: HttpStreamTerminationReason,
    result: Result<Option<Seq<u8>>, Seq<char>>,
    clock: DomainClock,
)
    requires
        view.leased_to(lease),
        view.sources[lease.stream_id].termination.reason == HttpStreamTerminationReason::Live,
        reason != HttpStreamTerminationReason::Live,
    ensures
        view.without(lease.stream_id, reason).pull_answer(lease, result, clock)
            == termination_answer(lease.stream_id, reason),
{
}

/// A read that gives a chunk leaves the stream as checkout found it, but for
/// its deadline: the next checkout is granted at any time before it.
pub proof fn read_then_read<S, W>(
    view: StreamsView<S, W>,
    id: u64,
    source: S,
    next_source: S,
    bytes: Seq<u8>,
    at: u64,
    done: u64,
    later: u64,
)
    requires
        view.available(id, None, DomainClock::Now(at)),
        later < idle_deadline(done),
    ensures
        ({
            let lease = HttpSourceLease {
                stream_id: id,
                generation: view.sources[id].generation,
                token: view.next_token,
                mode: HttpSourceLeaseMode::Pull,
            };
            let out = view.checked_out(id, HttpSourceLeaseMode::Pull, None, DomainClock::Now(at));
            let back = out.pulled(lease, next_source, Ok(Some(bytes)), DomainClock::Now(done));
            &&& out.pull_answer(lease, Ok(Some(bytes)), DomainClock::Now(done)) == Ok::<
                Option<Seq<u8>>,
                Seq<char>,
            >(Some(bytes))
            &&& back.available(id, None, DomainClock::Now(later))
            &&& back.sources[id].source == HttpStreamSourceSlot::Available(next_source)
        }),
{
}

// ---- activity of response writers ----------------------------------------

#[derive(Clone, Copy, Debug, PartialEq, Eq, Structural)]
pub enum HttpStreamActivityKind {
    Write,
    Close,
}

#[derive(Clone, Copy, Debug, PartialEq, Eq, Structural)]
pub enum HttpStreamActivityError {
    Closed,
    Gone,
    Closing,
}

impl HttpStreamActivityError {
    /// What a writer is told.
    pub fn write_message(self) -> (r: &'static str)
        ensures
            r@ == (match self {
                HttpStreamActivityError::Closed => HTTP_STREAM_REGISTRATION_CLOSED@,
                _ => RESPONSE_STREAM_CONSUMER_CANCELED@,
            }),
    {
        match self {
            HttpStreamActivityError::Closed => HTTP_STREAM_REGISTRATION_CLOSED,
            HttpStreamActivityError::Gone | HttpStreamActivityError::Closing =>
            RESPONSE_STREAM_CONSUMER_CANCELED,
        }
    }

    /// How a close that could not begin answers: a writer that is gone is
    /// closed already, and a second close does not race the first.
    pub fn close_answer(self) -> (r: Result<(), String>)
        ensures
            match self {
                HttpStreamActivityError::Closed => r is Err && r->Err_0@
                    == HTTP_STREAM_REGISTRATION_CLOSED@,
                HttpStreamActivityError::Gone => r is Ok,
                HttpStreamActivityError::Closing => r is Err && r->Err_0@
                    == RESPONSE_STREAM_CLOSE_IN_PROGRESS@,
            },
    {
        match self {
            HttpStreamActivityError::Closed => Err(String::from_str(HTTP_STREAM_REGISTRATION_CLOSED)),
            HttpStreamActivityError::Gone => Ok(()),
            HttpStreamActivityError::Closing => Err(
                String::from_str(RESPONSE_STREAM_CLOSE_IN_PROGRESS),
            ),
        }
    }
}

/// The right to one write or close in progress.
#[derive(Clone, Copy, Debug, PartialEq, Eq, Structural)]
pub struct HttpStreamActivityLease {
    pub stream_id: u64,
    pub generation: u64,
    pub kind: HttpStreamActivityKind,
}

impl<S> HttpStreamEntry<S> {
    /// The entry with one more activity.
    pub open spec fn begun(self, kind: HttpStreamActivityKind) -> Self {
        match kind {
            HttpStreamActivityKind::Write => HttpStreamEntry {
                active_writes: more(self.active_writes),
                ..self
            },
            HttpStreamActivityKind::Close => HttpStreamEntry {
                active_closes: more(self.active_closes),
                closing: true,
                ..self
            },
        }
    }

    /// The entry with one activity fewer.
    pub open spec fn over(self, kind: HttpStreamActivityKind) -> Self {
        match kind {
            HttpStreamActivityKind::Write => HttpStreamEntry {
                active_writes: fewer(self.active_writes),
                ..self
            },
            HttpStreamActivityKind::Close => HttpStreamEntry {
                active_closes: fewer(self.active_closes),
                closing: false,
                ..self
            },
        }
    }

    fn end_activity(&mut self, kind: HttpStreamActivityKind)
        ensures
            *final(self) == old(self).over(kind),
    {
        match kind {
            HttpStreamActivityKind::Write => {
                self.active_writes = self.active_writes.saturating_sub(1);
            },
            HttpStreamActivityKind::Close => {
                self.active_closes = self.active_closes.saturating_sub(1);
                self.closing = false;
            },
        }
    }
}

impl<S, W> StreamsView<S, W> {
    /// Whether an activity begins, and why not.
    pub open spec fn activity_outcome(self, id: u64, clock: DomainClock) -> Result<
        u64,
        HttpStreamActivityError,
    > {
        if self.closed || clock == DomainClock::Lost {
            Err(HttpStreamActivityError::Closed)
        } else if clock !is Now || self.due_at(id, clock) || !self.response_writers.contains_key(
            id,
        ) || !self.sources.contains_key(id) {
            Err(HttpStreamActivityError::Gone)
        } else if self.sources[id].closing {
            Err(HttpStreamActivityError::Closing)
        } else {
            Ok(self.sources[id].generation)
        }
    }

    /// The registry after an activity was asked for.
    pub open spec fn activity_begun(
        self,
        id: u64,
        kind: HttpStreamActivityKind,
        clock: DomainClock,
    ) -> Self {
        if self.closed {
            self
        } else if self.due_at(id, clock) {
            self.without(id, HttpStreamTerminationReason::Expired)
        } else if self.activity_outcome(id, clock) is Ok {
            self.with_entry(id, self.sources[id].begun(kind))
        } else {
            self.clocked(clock)
        }
    }

    /// The registry after an activity succeeded.
    pub open spec fn activity_finished(
        self,
        lease: HttpStreamActivityLease,
        remove_writer: bool,
        clock: DomainClock,
    ) -> Self {
        if self.current(lease.stream_id, lease.generation) {
            let over = self.sources[lease.stream_id].over(lease.kind);
            let entry = match clock {
                DomainClock::Now(now_ms) => HttpStreamEntry {
                    deadline_ms: idle_deadline(now_ms),
                    ..over
                },
                _ => over,
            };
            StreamsView {
                response_writers: if remove_writer {
                    self.response_writers.remove(lease.stream_id)
                } else {
                    self.response_writers
                },
                ..self.with_entry(lease.stream_id, entry)
            }
        } else {
            self
        }
    }

    /// The registry after an activity was dropped.
    pub open spec fn activity_abandoned(self, lease: HttpStreamActivityLease) -> Self {
        if self.current(lease.stream_id, lease.generation) {
            self.with_entry(
                lease.stream_id,
                self.sources[lease.stream_id].over(lease.kind),
            )
        } else {
            self
        }
    }

    /// The entry a cancelled activity throws out.
    pub open spec fn cancelled_entry(self, lease: HttpStreamActivityLease) -> HttpStreamEntry<S> {
        HttpStreamEntry {
            closing: self.sources[lease.stream_id].closing,
            ..self.sources[lease.stream_id].over(lease.kind)
        }
    }

    pub open spec fn activity_cancelled(self, lease: HttpStreamActivityLease) -> Self {
        if self.current(lease.stream_id, lease.generation) {
            self.with_entry(lease.stream_id, self.cancelled_entry(lease)).without(
                lease.stream_id,
                HttpStreamTerminationReason::Cancelled,
            )
        } else {
            self
        }
    }
}

impl<S, W> HttpStreamState<S, W> {
    fn is_current(&self, stream_id: u64, generation: u64) -> (r: bool)
        ensures
            r == self@.current(stream_id, generation),
    {
        match self.sources.get(stream_id) {
            Some(entry) => entry.generation == generation,
            None => false,
        }
    }

    /// Begins a write to or a close of a response stream.
    pub fn begin_activity(
        &mut self,
        stream_id: u64,
        kind: HttpStreamActivityKind,
        clock: DomainClock,
    ) -> (r: (Result<HttpStreamActivityLease, HttpStreamActivityError>, HttpStreamDrain<S, W>))
        requires
            old(self).wf(),
        ensures
            final(self).wf(),
            final(self)@ == old(self)@.activity_begun(stream_id, kind, clock),
            r.0 == (match old(self)@.activity_outcome(stream_id, clock) {
                Ok(generation) => Ok::<HttpStreamActivityLease, HttpStreamActivityError>(
                    HttpStreamActivityLease { stream_id, generation, kind },
                ),
                Err(error) => Err(error),
            }),
            r.1.holds(
                old(self)@,
                old(self)@.swept_ids(stream_id, clock),
                old(self)@.swept_reason(clock),
            ),
    {
        let ghost view = self@;
        let mut drain: HttpStreamDrain<S, W> = HttpStreamDrain::new();
        if self.closed {
            proof {
                lemma_nothing_taken(view, drain, view.swept_reason(clock));
            }
            return (Err(HttpStreamActivityError::Closed), drain);
        }
        if !self.sweep_one(stream_id, clock, &mut drain) {
            let error = match clock {
                DomainClock::Lost => HttpStreamActivityError::Closed,
                _ => HttpStreamActivityError::Gone,
            };
            return (Err(error), drain);
        }
        if !self.response_writers.contains(stream_id) {
            return (Err(HttpStreamActivityError::Gone), drain);
        }
        match self.sources.remove(stream_id) {
            None => {
                assert(self@.sources =~= view.sources);
                (Err(HttpStreamActivityError::Gone), drain)
            },
            Some(mut entry) => {
                if entry.closing {
                    self.sources.insert(stream_id, entry);
                    assert(self@.sources =~= view.sources);
                    return (Err(HttpStreamActivityError::Closing), drain);
                }
                match kind {
                    HttpStreamActivityKind::Write => {
                        entry.active_writes = entry.active_writes.saturating_add(1);
                    },
                    HttpStreamActivityKind::Close => {
                        entry.active_closes = entry.active_closes.saturating_add(1);
                        entry.closing = true;
                    },
                }
                let generation = entry.generation;
                self.sources.insert(stream_id, entry);
                assert(self@.sources =~= view.activity_begun(stream_id, kind, clock).sources);
                (Ok(HttpStreamActivityLease { stream_id, generation, kind }), drain)
            },
        }
    }

    /// Ends an activity that succeeded: it renews the deadline, and a close
    /// takes the writer away.
    pub fn finish_activity(
        &mut self,
        lease: HttpStreamActivityLease,
        remove_writer: bool,
        clock: DomainClock,
    ) -> (removed: Option<W>)
        requires
            old(self).wf(),
        ensures
            final(self).wf(),
            final(self)@ == old(self)@.activity_finished(lease, remove_writer, clock),
            removed == (if old(self)@.current(lease.stream_id, lease.generation) && remove_writer
                && old(self)@.response_writers.contains_key(lease.stream_id) {
                Some(old(self)@.response_writers[lease.stream_id])
            } else {
                None
            }),
    {
        let ghost view = self@;
        if !self.is_current(lease.stream_id, lease.generation) {
            return None;
        }
        if let Some(mut entry) = self.sources.remove(lease.stream_id) {
            entry.end_activity(lease.kind);
            match clock {
                DomainClock::Now(now_ms) => {
                    entry.deadline_ms = now_ms.saturating_add(HTTP_STREAM_IDLE_TIMEOUT_MS);
                },
                _ => {},
            }
            self.sources.insert(lease.stream_id, entry);
        }
        assert(self@.sources =~= view.activity_finished(lease, remove_writer, clock).sources);
        if remove_writer {
            self.response_writers.remove(lease.stream_id)
        } else {
            None
        }
    }

    /// Ends an activity that was dropped: the deadline of the last success
    /// counts again.
    pub fn abandon_activity(&mut self, lease: HttpStreamActivityLease)
        requires
            old(self).wf(),
        ensures
            final(self).wf(),
            final(self)@ == old(self)@.activity_abandoned(lease),
    {
        let ghost view = self@;
        if !self.is_current(lease.stream_id, lease.generation) {
            return ;
        }
        if let Some(mut entry) = self.sources.remove(lease.stream_id) {
            entry.end_activity(lease.kind);
            self.sources.insert(lease.stream_id, entry);
        }
        assert(self@.sources =~= view.activity_abandoned(lease).sources);
    }

    /// Ends an activity whose consumer is gone, and the stream with it.
    pub fn cancel_activity_pair(&mut self, lease: HttpStreamActivityLease) -> (drain:
        HttpStreamDrain<S, W>)
        requires
            old(self).wf(),
        ensures
            final(self).wf(),
            final(self)@ == old(self)@.activity_cancelled(lease),
            drain.holds(
                old(self)@.with_entry(lease.stream_id, old(self)@.cancelled_entry(lease)),
                if old(self)@.current(lease.stream_id, lease.generation) {
                    seq![lease.stream_id]
                } else {
                    Seq::empty()
                },
                HttpStreamTerminationReason::Cancelled,
            ),
    {
        let ghost view = self@;
        let ghost changed = view.with_entry(lease.stream_id, view.cancelled_entry(lease));
        let mut drain: HttpStreamDrain<S, W> = HttpStreamDrain::new();
        let ghost empty = drain;
        proof {
            lemma_nothing_taken(changed, drain, HttpStreamTerminationReason::Cancelled);
        }
        if !self.is_current(lease.stream_id, lease.generation) {
            return drain;
        }
        if let Some(mut entry) = self.sources.remove(lease.stream_id) {
            match lease.kind {
                HttpStreamActivityKind::Write => {
                    entry.active_writes = entry.active_writes.saturating_sub(1);
                },
                HttpStreamActivityKind::Close => {
                    entry.active_closes = entry.active_closes.saturating_sub(1);
                },
            }
            self.sources.insert(lease.stream_id, entry);
        }
        assert(self@.sources =~= changed.sources);
        self.remove_locked(
            lease.stream_id,
            HttpStreamTerminationReason::Cancelled,
            &mut drain,
        );
        proof {
            lemma_took_from_empty(
                changed,
                empty,
                drain,
                seq![lease.stream_id],
                HttpStreamTerminationReason::Cancelled,
            );
        }
        drain
    }

    /// The writer to watch for a close.
    pub fn writer_close_watch(&self, stream_id: u64) -> (r: Option<&W>)
        ensures
            match r {
                Some(w) => !self@.closed && self@.response_writers.contains_key(stream_id)
                    && self@.response_writers[stream_id] == *w,
                None => self@.closed || !self@.response_writers.contains_key(stream_id),
            },
    {
        if self.closed {
            None
        } else {
            self.response_writers.get(stream_id)
        }
    }
}

/// A stream does not expire under a write or a close in progress.
pub proof fn active_stream_does_not_expire<S, W>(
    view: StreamsView<S, W>,
    id: u64,
    kind: HttpStreamActivityKind,
    clock: DomainClock,
    later: DomainClock,
)
    requires
        view.activity_outcome(id, clock) is Ok,
    ensures
        !view.activity_begun(id, kind, clock).due_at(id, later),
{
}

/// While a close is in progress no other write or close begins.
pub proof fn one_close_at_a_time<S, W>(
    view: StreamsView<S, W>,
    id: u64,
    clock: DomainClock,
    now_ms: u64,
)
    requires
        view.activity_outcome(id, clock) is Ok,
    ensures
        view.activity_begun(id, HttpStreamActivityKind::Close, clock).activity_outcome(
            id,
            DomainClock::Now(now_ms),
        ) == Err::<u64, HttpStreamActivityError>(HttpStreamActivityError::Closing),
{
}

/// An activity that began and was dropped leaves the registry as it was.
pub proof fn abandoned_activity_leaves_no_trace<S, W>(
    view: StreamsView<S, W>,
    id: u64,
    kind: HttpStreamActivityKind,
    clock: DomainClock,
)
    requires
        view.activity_outcome(id, clock) is Ok,
        view.sources[id].active_writes < usize::MAX,
        view.sources[id].active_closes < usize::MAX,
    ensures
        ({
            let lease = HttpStreamActivityLease {
                stream_id: id,
                generation: view.activity_outcome(id, clock)->Ok_0,
                kind,
            };
            view.activity_begun(id, kind, clock).activity_abandoned(lease) == view
        }),
{
    let lease = HttpStreamActivityLease {
        stream_id: id,
        generation: view.activity_outcome(id, clock)->Ok_0,
        kind,
    };
    assert(view.activity_begun(id, kind, clock).activity_abandoned(lease).sources =~= view.sources);
}

// ---- sweeping ------------------------------------------------------------

/// What the sweeper waits for.
#[derive(Clone, Copy, Debug, PartialEq, Eq, Structural)]
pub enum HttpSweepWait {
    Deadline(u64),
    Notification,
    Exit,
}

impl<S, W> StreamsView<S, W> {
    /// The streams that are due, lowest id first.
    pub open spec fn due_ids(self, now_ms: u64) -> Seq<u64> {
        maps::ascending_ids(self.sources.dom().filter(|id: u64| self.sources[id].due(now_ms)))
    }

    /// The registry after one sweep.
    pub open spec fn swept(self, clock: DomainClock) -> Self {
        if self.closed {
            StreamsView { sweeper_running: false, ..self }
        } else {
            match clock {
                DomainClock::Now(now_ms) => {
                    let kept = self.without_each(
                        self.due_ids(now_ms),
                        HttpStreamTerminationReason::Expired,
                    );
                    if kept.sources == Map::<u64, HttpStreamEntry<S>>::empty() {
                        StreamsView { sweeper_running: false, ..kept }
                    } else {
                        kept
                    }
                },
                _ => self.shut(),
            }
        }
    }

    /// Whether `deadline_ms` is the earliest deadline of an idle stream.
    pub open spec fn earliest_deadline(self, deadline_ms: u64) -> bool {
        &&& exists|id: u64| #[trigger]
            self.sources.contains_key(id) && self.sources[id].idle()
                && self.sources[id].deadline_ms == deadline_ms
        &&& forall|id: u64| #[trigger]
            self.sources.contains_key(id) && self.sources[id].idle() ==> deadline_ms
                <= self.sources[id].deadline_ms
    }

    pub open spec fn any_idle(self) -> bool {
        exists|id: u64| #[trigger] self.sources.contains_key(id) && self.sources[id].idle()
    }
}

impl<S, W> HttpStreamState<S, W> {
    /// One sweep: expires what is due, and says what to wait for next. A
    /// sweeper that finds nothing left ends.
    pub fn sweep_step(&mut self, clock: DomainClock) -> (r: (HttpSweepWait, HttpStreamDrain<S, W>))
        requires
            old(self).wf(),
        ensures
            final(self).wf(),
            final(self)@ == old(self)@.swept(clock),
            r.0 == HttpSweepWait::Exit <==> {
                ||| old(self)@.closed
                ||| clock !is Now
                ||| final(self)@.sources == Map::<u64, HttpStreamEntry<S>>::empty()
            },
            r.0 matches HttpSweepWait::Deadline(deadline_ms) ==> {
                &&& final(self)@.earliest_deadline(deadline_ms)
                &&& deadline_ms > clock->Now_0
            },
            r.0 == HttpSweepWait::Notification ==> !final(self)@.any_idle(),
            r.1.holds(
                old(self)@,
                if old(self)@.closed {
                    Seq::empty()
                } else {
                    match clock {
                        DomainClock::Now(now_ms) => old(self)@.due_ids(now_ms),
                        _ => old(self)@.all_ids(),
                    }
                },
                if clock is Now {
                    HttpStreamTerminationReason::Expired
                } else {
                    HttpStreamTerminationReason::Cancelled
                },
            ),
    {
        let ghost view = self@;
        let mut drain: HttpStreamDrain<S, W> = HttpStreamDrain::new();
        let ghost empty = drain;
        if self.closed {
            self.sweeper_running = false;
            proof {
                lemma_nothing_taken(view, drain, HttpStreamTerminationReason::Expired);
                lemma_nothing_taken(view, drain, HttpStreamTerminationReason::Cancelled);
            }
            return (HttpSweepWait::Exit, drain);
        }
        let now_ms = match clock {
            DomainClock::Now(now_ms) => now_ms,
            _ => {
                let drain = self.close();
                return (HttpSweepWait::Exit, drain);
            },
        };
        let due = self.due(now_ms);
        self.remove_each(&due, HttpStreamTerminationReason::Expired, &mut drain);
        proof {
            lemma_took_from_empty(
                view,
                empty,
                drain,
                due@,
                HttpStreamTerminationReason::Expired,
            );
            lemma_without_each(view, due@, HttpStreamTerminationReason::Expired);
        }
        if self.sources.is_empty() {
            self.sweeper_running = false;
            return (HttpSweepWait::Exit, drain);
        }
        let ghost kept = self@;
        let ids = self.sources.ids();
        let mut earliest: Option<u64> = None;
        let mut i: usize = 0;
        while i < ids.len()
            invariant
                i <= ids.len(),
                self@ == kept,
                maps::lists(ids@, kept.sources.dom()),
                match earliest {
                    Some(d) => {
                        &&& exists|id: u64| #[trigger]
                            kept.sources.contains_key(id) && kept.sources[id].idle()
                                && kept.sources[id].deadline_ms == d
                        &&& forall|k: int|
                            0 <= k < i && kept.sources[#[trigger] ids@[k]].idle() ==> d
                                <= kept.sources[ids@[k]].deadline_ms
                    },
                    None => forall|k: int| 0 <= k < i ==> !kept.sources[#[trigger] ids@[k]].idle(),
                },
            decreases ids.len() - i,
        {
            let id = ids[i];
            assert(ids@.to_set().contains(id));
            if let Some(entry) = self.sources.get(id) {
                if entry.is_expiry_eligible() {
                    let better = match earliest {
                        Some(d) => entry.deadline_ms < d,
                        None => true,
                    };
                    if better {
                        earliest = Some(entry.deadline_ms);
                    }
                }
            }
            i = i + 1;
        }
        proof {
            assert forall|id: u64| #[trigger] kept.sources.contains_key(id) implies exists|k: int|
                0 <= k < ids@.len() && #[trigger] ids@[k] == id by {
                assert(ids@.to_set().contains(id));
            }
        }
        match earliest {
            Some(deadline_ms) => {
                proof {
                    let id = choose|id: u64| #[trigger]
                        kept.sources.contains_key(id) && kept.sources[id].idle()
                            && kept.sources[id].deadline_ms == deadline_ms;
                    assert(kept.sources[id] == view.sources[id]);
                    assert(!due@.to_set().contains(id));
                }
                (HttpSweepWait::Deadline(deadline_ms), drain)
            },
            None => (HttpSweepWait::Notification, drain),
        }
    }

    fn due(&self, now_ms: u64) -> (out: Vec<u64>)
        ensures
            out@ == self@.due_ids(now_ms),
            maps::lists(
                out@,
                self@.sources.dom().filter(|id: u64| self@.sources[id].due(now_ms)),
            ),
    {
        let ids = self.sources.ids();
        let mut out: Vec<u64> = Vec::new();
        let mut i: usize = 0;
        let ghost set = self@.sources.dom().filter(|id: u64| self@.sources[id].due(now_ms));
        while i < ids.len()
            invariant
                i <= ids.len(),
                maps::lists(ids@, self@.sources.dom()),
                set == self@.sources.dom().filter(|id: u64| self@.sources[id].due(now_ms)),
                maps::ascending(out@),
                forall|k: int| 0 <= k < out@.len() ==> set.contains(#[trigger] out@[k]),
                forall|k: int|
                    0 <= k < i && set.contains(#[trigger] ids@[k]) ==> out@.contains(ids@[k]),
                forall|k: int|
                    0 <= k < out@.len() ==> exists|j: int|
                        0 <= j < i && #[trigger] ids@[j] == #[trigger] out@[k],
            decreases ids.len() - i,
        {
            let id = ids[i];
            let ghost before = out@;
            assert(ids@.to_set().contains(id));
            if let Some(entry) = self.sources.get(id) {
                if entry.is_due(now_ms) {
                    proof {
                        assert forall|k: int| 0 <= k < out@.len() implies #[trigger] out@[k] < id by {
                            let j = choose|j: int| 0 <= j < i && #[trigger] ids@[j] == out@[k];
                            assert(ids@[j] < ids@[i as int]);
                        }
                    }
                    out.push(id);
                    assert(out@[before.len() as int] == id);
                }
            }
            i = i + 1;
            proof {
                assert forall|k: int|
                    0 <= k < i && set.contains(#[trigger] ids@[k]) implies out@.contains(ids@[k]) by {
                    if k < i - 1 {
                        let m = choose|m: int| 0 <= m < before.len() && before[m] == ids@[k];
                        assert(out@[m] == ids@[k]);
                    }
                }
            }
        }
        proof {
            assert forall|id: u64| out@.to_set().contains(id) == set.contains(id) by {
                if set.contains(id) {
                    assert(ids@.to_set().contains(id));
                    let k = choose|k: int| 0 <= k < ids@.len() && ids@[k] == id;
                    assert(out@.contains(ids@[k]));
                }
                if out@.contains(id) {
                    let k = choose|k: int| 0 <= k < out@.len() && out@[k] == id;
                    assert(set.contains(out@[k]));
                }
            }
            assert(out@.to_set() =~= set);
            maps::lemma_lists_unique(out@, self@.due_ids(now_ms), set);
        }
        out
    }
}

// ---- disposing of a drain ------------------------------------------------

/// Items in ascending order of their id.
pub open spec fn in_id_order<T>(items: Seq<(u64, T)>) -> bool {
    forall|i: int, j: int| 0 <= i <= j < items.len() ==> items[i].0 <= items[j].0
}

fn by_id<T>(mut items: Vec<(u64, T)>) -> (out: Vec<(u64, T)>)
    ensures
        in_id_order(out@),
        out@.to_multiset() == items@.to_multiset(),
{
    let ghost all = items@;
    let mut out: Vec<(u64, T)> = Vec::new();
    proof {
        broadcast use vstd::seq_lib::group_to_multiset_ensures;

        assert(out@.to_multiset().add(items@.to_multiset()) =~= all.to_multiset());
    }
    while items.len() > 0
        invariant
            in_id_order(out@),
            out@.to_multiset().add(items@.to_multiset()) == all.to_multiset(),
        decreases items.len(),
    {
        let ghost rest = items@;
        if let Some(item) = items.pop() {
            let ghost before = out@;
            let mut at: usize = 0;
            while at < out.len() && out[at].0 < item.0
                invariant
                    at <= out.len(),
                    forall|k: int| 0 <= k < at ==> out@[k].0 < item.0,
                decreases out.len() - at,
            {
                at = at + 1;
            }
            out.insert(at, item);
            proof {
                broadcast use vstd::seq_lib::group_to_multiset_ensures;

                assert(rest =~= items@.push(item));
                assert(out@.to_multiset() =~= before.to_multiset().insert(item));
                assert(rest.to_multiset() =~= items@.to_multiset().insert(item));
                assert(out@.to_multiset().add(items@.to_multiset()) =~= before.to_multiset().add(
                    rest.to_multiset(),
                ));
            }
        }
    }
    proof {
        broadcast use vstd::seq_lib::group_to_multiset_ensures;

        assert(items@ =~= Seq::<(u64, T)>::empty());
        assert(out@.to_multiset() =~= all.to_multiset());
    }
    out
}

impl<S, W> HttpStreamDrain<S, W> {
    /// The drain in the order it is disposed of: by id in each of its parts,
    /// so that wakes and destructors run in a reproducible order.
    pub fn disposal_order(self) -> (r: Self)
        ensures
            in_id_order(r.sources@),
            in_id_order(r.detached_sources@),
            in_id_order(r.response_writers@),
            r.sources@.to_multiset() == self.sources@.to_multiset(),
            r.detached_sources@.to_multiset() == self.detached_sources@.to_multiset(),
            r.response_writers@.to_multiset() == self.response_writers@.to_multiset(),
    {
        HttpStreamDrain {
            sources: by_id(self.sources),
            detached_sources: by_id(self.detached_sources),
            response_writers: by_id(self.response_writers),
        }
    }
}

/// Keeps the first failure of a cleanup; a later one is handed back for the
/// caller to leak, since its own destructor can fail.
pub fn retain_first_http_cleanup_panic<P>(first: &mut Option<P>, result: Result<(), P>) -> (leaked:
    Option<P>)
    ensures
        match result {
            Ok(_) => *final(first) == *old(first) && leaked is None,
            Err(payload) => match *old(first) {
                None => *final(first) == Some(payload) && leaked is None,
                Some(_) => *final(first) == *old(first) && leaked == Some(payload),
            },
        },
{
    match result {
        Ok(_) => None,
        Err(payload) => {
            if first.is_none() {
                *first = Some(payload);
                None
            } else {
                Some(payload)
            }
        },
    }
}

// ---- transferred sources -------------------------------------------------

/// What polling the source itself gave.
pub enum SourcePoll {
    Chunk(Vec<u8>),
    Error(String),
    End,
    Pending,
}

/// What a transferred stream saw.
pub enum HttpTransferredEvent {
    Chunk(Vec<u8>),
    Error(String),
    End,
    Terminated(HttpStreamTerminationReason),
}

/// What a consumer of a stream is handed: an item, or the end.
pub type StreamItem = Option<Result<Vec<u8>, String>>;

pub open spec fn item_view(item: StreamItem) -> Option<Result<Seq<u8>, Seq<char>>> {
    match item {
        None => None,
        Some(Ok(bytes)) => Some(Ok(bytes@)),
        Some(Err(error)) => Some(Err(error@)),
    }
}

/// What the consumer of a stream that ended for `reason` is handed.
pub open spec fn terminated_item(stream_id: u64, reason: HttpStreamTerminationReason) -> Option<
    Result<Seq<u8>, Seq<char>>,
> {
    match termination_answer(stream_id, reason) {
        Ok(None) => None,
        Ok(Some(bytes)) => Some(Ok(bytes)),
        Err(error) => Some(Err(error)),
    }
}

pub fn transferred_termination_poll(stream_id: u64, reason: HttpStreamTerminationReason) -> (r:
    StreamItem)
    ensures
        item_view(r) == terminated_item(stream_id, reason),
{
    match termination_result(stream_id, reason) {
        Ok(None) => None,
        Ok(Some(bytes)) => Some(Ok(bytes)),
        Err(error) => Some(Err(error)),
    }
}

impl<S, W> StreamsView<S, W> {
    /// What a polled source amounts to: a chunk counts only while the lease
    /// stands, and a source with nothing to give is asked again whether its
    /// stream ended meanwhile.
    pub open spec fn event_of(
        self,
        lease: HttpSourceLease,
        polled: SourcePoll,
        clock: DomainClock,
    ) -> Option<HttpTransferredEvent> {
        match polled {
            SourcePoll::Chunk(bytes) => match self.transfer_outcome(lease, clock) {
                Ok(_) => Some(HttpTransferredEvent::Chunk(bytes)),
                Err(reason) => Some(HttpTransferredEvent::Terminated(reason)),
            },
            SourcePoll::Error(error) => Some(HttpTransferredEvent::Error(error)),
            SourcePoll::End => Some(HttpTransferredEvent::End),
            SourcePoll::Pending => if self.lease_reason(lease.token)
                == HttpStreamTerminationReason::Live {
                None
            } else {
                Some(HttpTransferredEvent::Terminated(self.lease_reason(lease.token)))
            },
        }
    }

    /// The reason a consumer asks its lease to end for on an event.
    pub open spec fn event_reason(event: HttpTransferredEvent) -> HttpStreamTerminationReason {
        match event {
            HttpTransferredEvent::Terminated(reason) => reason,
            _ => HttpStreamTerminationReason::Finished,
        }
    }

    /// What a consumer is handed on an event.
    pub open spec fn item_of(self, lease: HttpSourceLease, event: HttpTransferredEvent) -> Option<
        Result<Seq<u8>, Seq<char>>,
    > {
        let winning = self.winning_reason(lease, Self::event_reason(event));
        match event {
            HttpTransferredEvent::Chunk(bytes) => Some(Ok(bytes@)),
            HttpTransferredEvent::Error(error) if winning == HttpStreamTerminationReason::Finished =>
            Some(Err(error@)),
            _ => terminated_item(lease.stream_id, winning),
        }
    }
}

impl<S, W> HttpStreamState<S, W> {
    /// Turns what a transferred source gave into an event; `None` keeps the
    /// consumer waiting. A stream that ended before is not polled at all.
    pub fn poll_event(&mut self, lease: HttpSourceLease, polled: SourcePoll, clock: DomainClock) -> (r:
        Option<HttpTransferredEvent>)
        requires
            old(self).wf(),
        ensures
            final(self).wf(),
            r == old(self)@.event_of(lease, polled, clock),
            final(self)@ == (if polled is Chunk {
                old(self)@.transferred(lease, clock)
            } else {
                old(self)@
            }),
    {
        match polled {
            SourcePoll::Chunk(bytes) => match self.transferred_activity(lease, clock) {
                Ok(_) => Some(HttpTransferredEvent::Chunk(bytes)),
                Err(reason) => Some(HttpTransferredEvent::Terminated(reason)),
            },
            SourcePoll::Error(error) => Some(HttpTransferredEvent::Error(error)),
            SourcePoll::End => Some(HttpTransferredEvent::End),
            SourcePoll::Pending => {
                let reason = self.lease_termination(lease);
                if reason == HttpStreamTerminationReason::Live {
                    None
                } else {
                    Some(HttpTransferredEvent::Terminated(reason))
                }
            },
        }
    }

    /// Hands an event to the consumer of a transferred stream. Every event
    /// but a chunk ends the lease; a source's own error is seen only where it
    /// is what ended the stream.
    pub fn poll_next(&mut self, lease: HttpSourceLease, event: HttpTransferredEvent) -> (r: (
        StreamItem,
        HttpStreamDrain<S, W>,
    ))
        requires
            old(self).wf(),
        ensures
            final(self).wf(),
            item_view(r.0) == old(self)@.item_of(lease, event),
            final(self)@ == (if event is Chunk {
                old(self)@
            } else {
                old(self)@.lease_finished(lease, StreamsView::<S, W>::event_reason(event))
            }),
            r.1.holds(
                old(self)@,
                if event !is Chunk && old(self)@.leased_to(lease) {
                    seq![lease.stream_id]
                } else {
                    Seq::empty()
                },
                StreamsView::<S, W>::event_reason(event),
            ),
    {
        match event {
            HttpTransferredEvent::Chunk(bytes) => {
                let drain: HttpStreamDrain<S, W> = HttpStreamDrain::new();
                proof {
                    lemma_nothing_taken(self@, drain, StreamsView::<S, W>::event_reason(event));
                }
                (Some(Ok(bytes)), drain)
            },
            HttpTransferredEvent::Error(error) => {
                let (winning, drain) = self.finish_lease(
                    lease,
                    HttpStreamTerminationReason::Finished,
                );
                if winning == HttpStreamTerminationReason::Finished {
                    (Some(Err(error)), drain)
                } else {
                    (transferred_termination_poll(lease.stream_id, winning), drain)
                }
            },
            HttpTransferredEvent::End => {
                let (winning, drain) = self.finish_lease(
                    lease,
                    HttpStreamTerminationReason::Finished,
                );
                (transferred_termination_poll(lease.stream_id, winning), drain)
            },
            HttpTransferredEvent::Terminated(reason) => {
                let (winning, drain) = self.finish_lease(lease, reason);
                (transferred_termination_poll(lease.stream_id, winning), drain)
            },
        }
    }
}

/// A consumer of a transferred stream never sees more of it after its stream
/// was cancelled: a chunk that arrives then is turned into the end.
pub proof fn cancelled_transfer_gives_no_chunk<S, W>(
    view: StreamsView<S, W>,
    lease: HttpSourceLease,
    polled: SourcePoll,
    clock: DomainClock,
)
    requires
        view.leased_to(lease),
        view.sources[lease.stream_id].termination.reason == HttpStreamTerminationReason::Live,
    ensures
        ({
            let cancelled = view.without(lease.stream_id, HttpStreamTerminationReason::Cancelled);
            &&& !(cancelled.event_of(lease, polled, clock) matches Some(
                HttpTransferredEvent::Chunk(_),
            ))
            &&& cancelled.event_of(lease, polled, clock) matches Some(event)
                ==> cancelled.item_of(lease, event) is None
        }),
{
}

// ---- tee -----------------------------------------------------------------

/// What became of one item offered to one branch of a tee.
#[derive(Clone, Copy, Debug, PartialEq, Eq, Structural)]
pub enum HttpTeeSendOutcome {
    Sent,
    BranchClosed,
    SourceTerminated,
}

/// Whether an item goes out on a branch: a reservation of room (`Some(true)`;
/// `Some(false)` where the branch is closed, `None` where the source ended
/// first) counts only while the source still lives.
pub fn reserve_http_tee_send(
    reservation: Option<bool>,
    reason: HttpStreamTerminationReason,
) -> (r: HttpTeeSendOutcome)
    ensures
        r == (if reason != HttpStreamTerminationReason::Live || reservation is None {
            HttpTeeSendOutcome::SourceTerminated
        } else if reservation == Some(true) {
            HttpTeeSendOutcome::Sent
        } else {
            HttpTeeSendOutcome::BranchClosed
        }),
{
    if reason != HttpStreamTerminationReason::Live {
        return HttpTeeSendOutcome::SourceTerminated;
    }
    match reservation {
        Some(true) => HttpTeeSendOutcome::Sent,
        Some(false) => HttpTeeSendOutcome::BranchClosed,
        None => HttpTeeSendOutcome::SourceTerminated,
    }
}

/// What offering one item to both branches came to; `None` where the source
/// ended. The second branch is asked only where the first did not end it.
pub fn fan_out_http_tee_item(first: HttpTeeSendOutcome, second: HttpTeeSendOutcome) -> (r: Option<
    (bool, bool),
>)
    ensures
        r == (if first == HttpTeeSendOutcome::SourceTerminated || second
            == HttpTeeSendOutcome::SourceTerminated {
            None::<(bool, bool)>
        } else {
            Some((first == HttpTeeSendOutcome::Sent, second == HttpTeeSendOutcome::Sent))
        }),
{
    if first == HttpTeeSendOutcome::SourceTerminated {
        return None;
    }
    if second == HttpTeeSendOutcome::SourceTerminated {
        return None;
    }
    Some((first == HttpTeeSendOutcome::Sent, second == HttpTeeSendOutcome::Sent))
}

/// What a tee does next.
#[derive(Clone, Copy, Debug, PartialEq, Eq, Structural)]
pub enum TeeStep {
    /// Polls the source again.
    Continue,
    /// Ends the source's lease as finished, then ends.
    Finish,
    /// Ends and drops the lease.
    Stop,
}

/// What a tee does after an event of its source (`None` where both branches
/// closed first) and what came of handing the event's item out.
pub fn tee_step(event: Option<&HttpTransferredEvent>, sent: Option<(bool, bool)>) -> (r: TeeStep)
    ensures
        r == (match event {
            None => TeeStep::Stop,
            Some(HttpTransferredEvent::Chunk(_)) => if sent matches Some((first, second)) && (first || second) {
                TeeStep::Continue
            } else {
                TeeStep::Stop
            },
            Some(HttpTransferredEvent::Error(_)) => if sent is Some {
                TeeStep::Finish
            } else {
                TeeStep::Stop
            },
            Some(HttpTransferredEvent::End) => TeeStep::Finish,
            Some(HttpTransferredEvent::Terminated(_)) => TeeStep::Stop,
        }),
{
    match event {
        None => TeeStep::Stop,
        Some(HttpTransferredEvent::Chunk(_)) => match sent {
            Some((first, second)) => if first || second {
                TeeStep::Continue
            } else {
                TeeStep::Stop
            },
            None => TeeStep::Stop,
        },
        Some(HttpTransferredEvent::Error(_)) => if sent.is_some() {
            TeeStep::Finish
        } else {
            TeeStep::Stop
        },
        Some(HttpTransferredEvent::End) => TeeStep::Finish,
        Some(HttpTransferredEvent::Terminated(_)) => TeeStep::Stop,
    }
}

/// The two branches of a tee, or why there are none, with what left the
/// registry on the way.
pub struct PreparedTee<S, W> {
    pub branches: Result<(u64, u64), &'static str>,
    pub first: Registered<S, W>,
    pub second: Option<Registered<S, W>>,
    pub cancelled: Option<HttpStreamDrain<S, W>>,
}

impl<S, W> HttpStreamState<S, W> {
    /// Registers both branches of a tee. Where the second is refused the
    /// first goes again, so that a tee has two branches or none.
    pub fn prepare_http_stream_tee(
        &mut self,
        ids: &mut HttpStreamIds,
        first: S,
        second: S,
        clock: DomainClock,
        second_clock: DomainClock,
    ) -> (r: PreparedTee<S, W>)
        requires
            old(self).wf(),
        ensures
            final(self).wf(),
            ({
                let view = old(self)@;
                let id1 = old(ids).next;
                let id2 = id_after(id1);
                let one = view.offered(id1, first, None, clock);
                let two = one.offered(id2, second, None, second_clock);
                let both = view.accepts(clock) && one.accepts(second_clock);
                &&& r.branches == (if both {
                    Ok::<(u64, u64), &'static str>((id1, id2))
                } else {
                    Err(HTTP_STREAM_REGISTRATION_CLOSED)
                })
                &&& r.first.of(view, id1, first, None, clock)
                &&& final(self)@ == (if !view.accepts(clock) {
                    one
                } else if both {
                    two
                } else {
                    two.without(id1, HttpStreamTerminationReason::Cancelled)
                })
                &&& r.second is Some <==> view.accepts(clock)
                &&& r.second matches Some(registered) ==> registered.of(
                    one,
                    id2,
                    second,
                    None,
                    second_clock,
                )
                &&& r.cancelled is Some <==> view.accepts(clock) && !both
                &&& r.cancelled matches Some(drain) ==> drain.holds(
                    two,
                    two.just(id1),
                    HttpStreamTerminationReason::Cancelled,
                )
            }),
    {
        let (id1, registered1) = self.register_source(ids, first, clock);
        let id1 = match id1 {
            Some(id) => id,
            None => {
                return PreparedTee {
                    branches: Err(HTTP_STREAM_REGISTRATION_CLOSED),
                    first: registered1,
                    second: None,
                    cancelled: None,
                };
            },
        };
        let (id2, registered2) = self.register_source(ids, second, second_clock);
        match id2 {
            Some(id2) => PreparedTee {
                branches: Ok((id1, id2)),
                first: registered1,
                second: Some(registered2),
                cancelled: None,
            },
            None => {
                let cancelled = self.cancel_source(id1);
                PreparedTee {
                    branches: Err(HTTP_STREAM_REGISTRATION_CLOSED),
                    first: registered1,
                    second: Some(registered2),
                    cancelled: Some(cancelled),
                }
            },
        }
    }
}

// ---- request bodies ------------------------------------------------------

/// Why a claimed body cannot be taken as `stream_id`.
pub open spec fn body_claim_error(claim: Option<HttpStreamClaim>, stream_id: u64) -> Option<
    Seq<char>,
> {
    match claim {
        None => Some(
            "body stream "@ + text::decimal(stream_id as nat) + " is not registered"@,
        ),
        Some(claim) => if claim.stream_id != stream_id {
            Some(
                "body stream "@ + text::decimal(stream_id as nat)
                    + " does not match ownership claim "@ + text::decimal(claim.stream_id as nat),
            )
        } else {
            None
        },
    }
}

/// Reclaims a streamed request body if its dispatch fails before the target
/// takes it over.
pub struct RequestBodyGuard {
    pub claim: Option<HttpStreamClaim>,
}

impl RequestBodyGuard {
    /// Guards the body that a claim was granted on, if one was.
    pub fn of(claim: Option<HttpStreamClaim>) -> (r: Self)
        ensures
            r.claim == claim,
    {
        RequestBodyGuard { claim }
    }

    /// Ends the guard; the claim it held is released.
    pub fn disarm(&mut self) -> (released: Option<HttpStreamClaim>)
        ensures
            released == old(self).claim,
            final(self).claim is None,
    {
        self.claim.take()
    }

    /// Spends the claim on the body's source. A claim on another stream is
    /// kept; a claim whose checkout fails is handed back to be released.
    pub fn take_stream<S, W>(
        &mut self,
        state: &mut HttpStreamState<S, W>,
        stream_id: u64,
        clock: DomainClock,
    ) -> (r: Result<(CheckedOut<S, W>, Option<HttpStreamClaim>), String>)
        requires
            old(state).wf(),
        ensures
            final(state).wf(),
            match r {
                Err(error) => {
                    &&& body_claim_error(old(self).claim, stream_id) == Some(error@)
                    &&& final(self).claim == old(self).claim
                    &&& final(state)@ == old(state)@
                },
                Ok((out, unspent)) => {
                    &&& body_claim_error(old(self).claim, stream_id) is None
                    &&& final(self).claim is None
                    &&& final(state)@ == old(state)@.checked_out(
                        stream_id,
                        HttpSourceLeaseMode::Transfer,
                        Some(old(self).claim->0.generation),
                        clock,
                    )
                    &&& out.of(
                        old(state)@,
                        stream_id,
                        HttpSourceLeaseMode::Transfer,
                        Some(old(self).claim->0.generation),
                        clock,
                    )
                    &&& unspent == (if out.result is Ok {
                        None
                    } else {
                        old(self).claim
                    })
                },
            },
    {
        let claim = match self.claim {
            None => {
                let mut error = String::from_str("body stream ");
                error.append(text::decimal_text(stream_id).as_str());
                error.append(" is not registered");
                return Err(error);
            },
            Some(claim) => claim,
        };
        if claim.stream_id != stream_id {
            let mut error = String::from_str("body stream ");
            error.append(text::decimal_text(stream_id).as_str());
            error.append(" does not match ownership claim ");
            error.append(text::decimal_text(claim.stream_id).as_str());
            return Err(error);
        }
        self.claim = None;
        let out = state.checkout_transfer(stream_id, Some(claim.generation), clock);
        let unspent = match &out.result {
            Ok(_) => None,
            Err(_) => Some(claim),
        };
        Ok((out, unspent))
    }
}

/// A claim that is spent on a checkout, or given back, leaves the count of
/// owners as it was before.
pub proof fn claim_is_spent_once<S, W>(view: StreamsView<S, W>, id: u64, clock: DomainClock)
    requires
        view.claimable(id, clock),
        view.sources[id].owners < usize::MAX,
        view.sources[id].owners > 0 || view.sources[id].source !is Available,
    ensures
        ({
            let claim = HttpStreamClaim { stream_id: id, generation: view.sources[id].generation };
            view.claimed(id, clock).released(claim) == view
        }),
{
    let claim = HttpStreamClaim { stream_id: id, generation: view.sources[id].generation };
    assert(view.claimed(id, clock).released(claim).sources =~= view.sources);
}

/// The only claim on an idle stream, given back, cancels the stream.
pub proof fn last_claim_cancels<S, W>(view: StreamsView<S, W>, id: u64, clock: DomainClock)
    requires
        view.claimable(id, clock),
        view.sources[id].owners == 0,
        view.sources[id].source is Available,
    ensures
        !view.claimed(id, clock).released(
            HttpStreamClaim { stream_id: id, generation: view.sources[id].generation },
        ).sources.contains_key(id),
{
}

/// The decision of one response-stream write: the bytes to send, or the
/// message that refuses a chunk that is no byte view.
pub fn response_stream_write(bytes: Option<Vec<u8>>) -> (r: Result<Vec<u8>, String>)
    ensures
        match bytes {
            Some(b) => r == Ok::<Vec<u8>, String>(b),
            None => r is Err && r->Err_0@
                == "response stream chunks must be ArrayBuffer views"@,
        },
{
    match bytes {
        Some(b) => Ok(b),
        None => Err(String::from_str("response stream chunks must be ArrayBuffer views")),
    }
}

/// What a response-stream close does once it began: the producer's watch is
/// published at once where there is no error, and only after the error was
/// queued where there is one.
#[derive(Clone, Copy, Debug, PartialEq, Eq, Structural)]
pub enum CloseStep {
    PublishFinished,
    SendErrorFirst,
    /// The consumer is gone: the pair is cancelled and the close succeeds.
    CancelPair,
}

pub fn response_stream_close(error: &str, send_failed: bool) -> (r: CloseStep)
    ensures
        r == (if error@.len() == 0 {
            CloseStep::PublishFinished
        } else if send_failed {
            CloseStep::CancelPair
        } else {
            CloseStep::SendErrorFirst
        }),
{
    if error.is_empty() {
        CloseStep::PublishFinished
    } else if send_failed {
        CloseStep::CancelPair
    } else {
        CloseStep::SendErrorFirst
    }
}

// ---- a response on its way into an isolate -------------------------------

/// `std::str::from_utf8`: the text that bytes encode, where they are UTF-8.
#[verifier::external_body]
fn utf8_text(bytes: &[u8]) -> (r: Option<String>)
    ensures
        match r {
            Some(t) => vstd::utf8::valid_utf8(bytes@) && t@ == vstd::utf8::decode_utf8(bytes@),
            None => !vstd::utf8::valid_utf8(bytes@),
        },
{
    std::str::from_utf8(bytes).ok().map(|t| t.to_string())
}

/// A socket that an answer hands over, as JSON.
pub open spec fn target_view(target: WsTarget) -> JsonView {
    JsonView::Object(
        seq![
            ("id"@, json::number(target.id as int)),
            ("scope"@, JsonView::Text(target.scope@)),
        ] + (match target.tunnel {
            Some(tunnel) => seq![("tunnel"@, json::number(tunnel as int))],
            None => seq![],
        }),
    )
}

/// The members of a response that its body follows.
pub open spec fn response_head<B, K>(response: HttpResponse<B, K>, ws_target: bool) -> Seq<
    (Seq<char>, JsonView),
> {
    seq![
        ("status"@, json::number(response.status as int)),
        ("headers"@, json::pair_list(response.headers@)),
    ] + (if ws_target {
        seq![
            (
                "wsTarget"@,
                match response.websocket {
                    Some(HttpResponseWebSocket::Cell(target)) => target_view(target),
                    _ => JsonView::Null,
                },
            ),
        ]
    } else {
        seq![]
    })
}

/// A body that is not streamed: a text where it is one, else its bytes.
pub open spec fn whole_body(body: Seq<u8>) -> (Seq<char>, JsonView) {
    if vstd::utf8::valid_utf8(body) {
        ("body"@, JsonView::Text(vstd::utf8::decode_utf8(body)))
    } else {
        ("bodyBytes"@, json::byte_list(body))
    }
}

fn write_target(target: &WsTarget) -> (r: Json)
    ensures
        r@ == target_view(*target),
{
    let mut members = json::Members::new();
    members.put("id", json::unsigned(target.id));
    members.put("scope", json::string(target.scope.as_str()));
    if let Some(tunnel) = target.tunnel {
        members.put("tunnel", json::unsigned(tunnel));
    }
    assert(members@ =~= target_view(*target)->Object_0);
    members.object()
}

/// A response as an isolate reads it. A streamed body is registered and goes
/// by its id, which fails where the service takes no more streams; any other
/// is part of the answer.
pub fn encode_http_response<S, W, K>(
    response: HttpResponse<S, K>,
    ws_target: bool,
    service: &mut HttpStreamState<S, W>,
    ids: &mut HttpStreamIds,
    clock: DomainClock,
) -> (r: (Result<String, String>, Option<Registered<S, W>>))
    requires
        old(service).wf(),
    ensures
        final(service).wf(),
        match response.stream {
            Some(stream) => {
                let id = old(ids).next;
                &&& final(ids).next == id_after(id)
                &&& final(service)@ == old(service)@.offered(id, stream, None, clock)
                &&& r.1 is Some && r.1->Some_0.of(old(service)@, id, stream, None, clock)
                &&& if old(service)@.accepts(clock) {
                    r.0 is Ok && r.0->Ok_0@ == json::printed_json(
                        JsonView::Object(
                            response_head(response, ws_target).push(
                                ("streamId"@, json::number(id as int)),
                            ),
                        ),
                    )
                } else {
                    r.0 is Err && r.0->Err_0@ == HTTP_STREAM_REGISTRATION_CLOSED@
                }
            },
            None => {
                &&& *final(ids) == *old(ids)
                &&& *final(service) == *old(service)
                &&& r.1 is None
                &&& r.0 is Ok && r.0->Ok_0@ == json::printed_json(
                    JsonView::Object(
                        response_head(response, ws_target).push(whole_body(response.body@)),
                    ),
                )
            },
        },
{
    let mut members = json::Members::new();
    members.put("status", json::unsigned(response.status as u64));
    members.put("headers", json::of_pairs(&response.headers));
    if ws_target {
        members.put(
            "wsTarget",
            match &response.websocket {
                Some(HttpResponseWebSocket::Cell(target)) => write_target(target),
                _ => Json::Null,
            },
        );
    }
    assert(members@ =~= response_head(response, ws_target));
    match response.stream {
        Some(stream) => {
            let (id, registered) = service.register_source(ids, stream, clock);
            match id {
                None => (
                    Err(String::from_str(HTTP_STREAM_REGISTRATION_CLOSED)),
                    Some(registered),
                ),
                Some(id) => {
                    members.put("streamId", json::unsigned(id));
                    (Ok(json::json_text(&members.object())), Some(registered))
                },
            }
        },
        None => {
            match utf8_text(response.body.as_slice()) {
                Some(t) => members.put("body", json::string(t.as_str())),
                None => members.put("bodyBytes", json::of_bytes(response.body.as_slice())),
            }
            (Ok(json::json_text(&members.object())), None)
        },
    }
}

// ---- laws ----------------------------------------------------------------

/// A stream that an open service is offered can be read for a minute, and is
/// due from then on while nobody touches it; what is read is the source that
/// was offered. It is a new stream: a claim on an earlier one of the same id
/// does not hold of it, and the earlier one is gone.
pub proof fn offered_stream_can_be_read<S, W>(
    view: StreamsView<S, W>,
    id: u64,
    source: S,
    writer: Option<W>,
    now_ms: u64,
    later_ms: u64,
)
    requires
        !view.closed,
        now_ms + 60_000 <= u64::MAX,
    ensures
        ({
            let after = view.offered(id, source, writer, DomainClock::Now(now_ms));
            &&& view.accepts(DomainClock::Now(now_ms))
            &&& after.available(id, None, DomainClock::Now(later_ms)) <==> later_ms < now_ms + 60_000
            &&& after.due_at(id, DomainClock::Now(later_ms)) <==> later_ms >= now_ms + 60_000
            &&& after.sources[id].source == HttpStreamSourceSlot::Available(source)
            &&& after.sources[id].termination.reason == HttpStreamTerminationReason::Live
            &&& after.sources[id].generation == view.next_generation
            &&& after.next_generation != view.next_generation
            &&& after.sweeper_running
            &&& writer matches Some(w) ==> after.response_writers.contains_key(id)
                && after.response_writers[id] == w
            &&& writer is None && view.paired() ==> !after.response_writers.contains_key(id)
        }),
{
}

/// A service that is closed, or that has no clock to go by, takes no stream; one
/// whose clock was lost closes, and every stream it had is gone.
pub proof fn closed_service_takes_nothing<S, W>(
    view: StreamsView<S, W>,
    id: u64,
    source: S,
    writer: Option<W>,
    clock: DomainClock,
)
    requires
        view.closed || clock !is Now,
        view.sources.dom().finite(),
    ensures
        ({
            let after = view.offered(id, source, writer, clock);
            &&& !view.accepts(clock)
            &&& view.closed ==> after == view
            &&& clock == DomainClock::Unbound ==> after == view
            &&& !view.closed && clock == DomainClock::Lost ==> after.closed && forall|other: u64|
                !(#[trigger] after.sources.contains_key(other))
        }),
{
    if !view.closed && clock == DomainClock::Lost {
        lemma_shut(view);
    }
}

proof fn lemma_shut<S, W>(view: StreamsView<S, W>)
    requires
        view.sources.dom().finite(),
    ensures
        view.shut().closed,
        forall|id: u64| !(#[trigger] view.shut().sources.contains_key(id)),
{
    let reason = HttpStreamTerminationReason::Cancelled;
    lemma_without_each(view, view.all_ids(), reason);
    maps::lemma_finite_lists(view.sources.dom());
    assert forall|id: u64| !(#[trigger] view.shut().sources.contains_key(id)) by {
        if view.sources.contains_key(id) {
            assert(view.all_ids().to_set().contains(id));
        }
    }
}

/// A checkout that fails says why: the source is out while another holder has
/// it, the stream expired where it was due, and else it is not known.
pub proof fn failed_checkout_says_why<S, W>(
    view: StreamsView<S, W>,
    id: u64,
    mode: HttpSourceLeaseMode,
    claim: Option<u64>,
    at_ms: u64,
    later_ms: u64,
)
    ensures
        view.available(id, claim, DomainClock::Now(at_ms)) ==> view.checked_out(
            id,
            mode,
            claim,
            DomainClock::Now(at_ms),
        ).checkout_error(id, None, DomainClock::Now(later_ms)) == busy_message(id),
        view.closed ==> view.checkout_error(id, claim, DomainClock::Now(at_ms)) == unknown_message(
            id,
        ),
        !view.closed && view.due_at(id, DomainClock::Now(at_ms)) ==> view.checkout_error(
            id,
            claim,
            DomainClock::Now(at_ms),
        ) == expired_message(id) && !view.checked_out(
            id,
            mode,
            claim,
            DomainClock::Now(at_ms),
        ).sources.contains_key(id),
        !view.closed && !view.sources.contains_key(id) ==> view.checkout_error(
            id,
            claim,
            DomainClock::Now(at_ms),
        ) == unknown_message(id) && view.checked_out(id, mode, claim, DomainClock::Now(at_ms))
            == view,
        busy_message(id) != unknown_message(id),
        busy_message(id) != expired_message(id),
        expired_message(id) != unknown_message(id),
{
    reveal_strlit("HTTP stream ");
    reveal_strlit(" expired after 60 seconds of inactivity");
    reveal_strlit(" expired or is not registered");
    reveal_strlit(" source is checked out");
    assert(busy_message(id).len() != unknown_message(id).len());
    assert(busy_message(id).len() != expired_message(id).len());
    assert(expired_message(id).len() != unknown_message(id).len());
}

/// A read that ends with a chunk is answered with it; one that ends with the
/// source's end or its error is answered with that, and the stream is gone. One
/// that ends when there is no clock to go by is answered with the end where it
/// gave a chunk, and the service closes.
pub proof fn reads_are_answered<S, W>(
    view: StreamsView<S, W>,
    lease: HttpSourceLease,
    source: S,
    bytes: Seq<u8>,
    error: Seq<char>,
    now_ms: u64,
    clock: DomainClock,
)
    requires
        view.leased_to(lease),
        lease.mode == HttpSourceLeaseMode::Pull,
        view.lease_reason(lease.token) == HttpStreamTerminationReason::Live,
        now_ms + 60_000 <= u64::MAX,
        clock !is Now,
    ensures
        ({
            let id = lease.stream_id;
            let now = DomainClock::Now(now_ms);
            let kept = view.pulled(lease, source, Ok(Some(bytes)), now);
            let done = view.pulled(lease, source, Ok(None), now);
            let failed = view.pulled(lease, source, Err(error), now);
            &&& view.pull_answer(lease, Ok(Some(bytes)), now) == Ok::<Option<Seq<u8>>, Seq<char>>(
                Some(bytes),
            )
            &&& kept.sources.contains_key(id)
            &&& kept.sources[id].source == HttpStreamSourceSlot::Available(source)
            &&& kept.sources[id].deadline_ms == now_ms + 60_000
            &&& kept.sources[id].owners == view.sources[id].owners
            &&& view.pull_answer(lease, Ok(None), now) == Ok::<Option<Seq<u8>>, Seq<char>>(None)
            &&& !done.sources.contains_key(id) && !done.response_writers.contains_key(id)
            &&& view.pull_answer(lease, Err(error), now) == Err::<Option<Seq<u8>>, Seq<char>>(error)
            &&& !failed.sources.contains_key(id)
            &&& view.pull_answer(lease, Ok(Some(bytes)), clock) == Ok::<
                Option<Seq<u8>>,
                Seq<char>,
            >(None)
            &&& view.pulled(lease, source, Ok(Some(bytes)), clock).closed
            &&& !kept.ended.contains_key(lease.token) && !done.ended.contains_key(lease.token)
        }),
{
    lemma_without_each(view, view.all_ids(), HttpStreamTerminationReason::Cancelled);
}

/// What is done to one stream touches no other.
pub proof fn other_streams_are_left_alone<S, W>(
    view: StreamsView<S, W>,
    id: u64,
    other: u64,
    mode: HttpSourceLeaseMode,
    claim: Option<u64>,
    source: S,
    writer: Option<W>,
    result: Result<Option<Seq<u8>>, Seq<char>>,
    kind: HttpStreamActivityKind,
    generation: u64,
    token: u64,
    remove_writer: bool,
    now_ms: u64,
)
    requires
        other != id,
    ensures
        ({
            let now = DomainClock::Now(now_ms);
            let lease = HttpSourceLease { stream_id: id, generation, token, mode };
            let activity = HttpStreamActivityLease { stream_id: id, generation, kind };
            let held = HttpStreamClaim { stream_id: id, generation };
            &&& view.keeps(view.offered(id, source, writer, now), other)
            &&& view.keeps(view.claimed(id, now), other)
            &&& view.keeps(view.released(held), other)
            &&& view.keeps(view.checked_out(id, mode, claim, now), other)
            &&& view.keeps(view.pulled(lease, source, result, now), other)
            &&& view.keeps(view.lease_finished(lease, HttpStreamTerminationReason::Finished), other)
            &&& view.keeps(view.transferred(lease, now), other)
            &&& view.keeps(view.activity_begun(id, kind, now), other)
            &&& view.keeps(view.activity_finished(activity, remove_writer, now), other)
            &&& view.keeps(view.activity_abandoned(activity), other)
            &&& view.keeps(view.activity_cancelled(activity), other)
        }),
{
}

impl<S, W> StreamsView<S, W> {
    /// Whether a stream and its writer are the same in two registries.
    pub open spec fn keeps(self, after: Self, id: u64) -> bool {
        &&& after.sources.contains_key(id) == self.sources.contains_key(id)
        &&& self.sources.contains_key(id) ==> after.sources[id] == self.sources[id]
        &&& after.response_writers.contains_key(id) == self.response_writers.contains_key(id)
        &&& self.response_writers.contains_key(id) ==> after.response_writers[id]
            == self.response_writers[id]
        &&& after.closed == self.closed
    }
}

/// A reader of a stream that ended is given no chunk; it is told of an error
/// only where the stream expired, or is not known.
pub proof fn ended_streams_give_no_chunk(stream_id: u64, reason: HttpStreamTerminationReason)
    ensures
        !(termination_answer(stream_id, reason) matches Ok(Some(_))),
        reason == HttpStreamTerminationReason::Finished || reason
            == HttpStreamTerminationReason::Cancelled <==> termination_answer(stream_id, reason) is Ok,
        reason == HttpStreamTerminationReason::Expired ==> termination_answer(stream_id, reason)
            == Err::<Option<Seq<u8>>, Seq<char>>(expired_message(stream_id)),
        terminated_item(stream_id, reason) is None <==> termination_answer(stream_id, reason) is Ok,
{
}

/// While a transferred source is out on its lease, its consumer is handed what
/// it gives: each chunk, its error, or its end, and waits where it gives
/// nothing. A chunk renews the stream's minute.
pub proof fn transferred_items_are_passed_on<S, W>(
    view: StreamsView<S, W>,
    lease: HttpSourceLease,
    bytes: Vec<u8>,
    error: String,
    now_ms: u64,
)
    requires
        view.leased_to(lease),
        lease.mode == HttpSourceLeaseMode::Transfer,
        view.lease_reason(lease.token) == HttpStreamTerminationReason::Live,
        view.sources[lease.stream_id].termination.reason == HttpStreamTerminationReason::Live,
        now_ms + 60_000 <= u64::MAX,
    ensures
        ({
            let now = DomainClock::Now(now_ms);
            let after = view.transferred(lease, now);
            let chunk = view.event_of(lease, SourcePoll::Chunk(bytes), now);
            let failed = view.event_of(lease, SourcePoll::Error(error), now);
            let ended = view.event_of(lease, SourcePoll::End, now);
            &&& chunk is Some && view.item_of(lease, chunk->Some_0) == Some(
                Ok::<Seq<u8>, Seq<char>>(bytes@),
            )
            &&& failed is Some && view.item_of(lease, failed->Some_0) == Some(
                Err::<Seq<u8>, Seq<char>>(error@),
            )
            &&& ended is Some && view.item_of(lease, ended->Some_0) is None
            &&& view.event_of(lease, SourcePoll::Pending, now) is None
            &&& after.leased_to(lease)
            &&& after.sources[lease.stream_id].deadline_ms == now_ms + 60_000
            &&& !view.lease_finished(
                lease,
                HttpStreamTerminationReason::Finished,
            ).sources.contains_key(lease.stream_id)
        }),
{
}

/// A write or a close that began and succeeded leaves as many in progress as
/// there were before it, and renews the stream's minute; a close takes the
/// writer with it and a write does not. One that was cancelled takes the stream
/// with it.
pub proof fn finished_activity_is_over<S, W>(
    view: StreamsView<S, W>,
    id: u64,
    kind: HttpStreamActivityKind,
    remove_writer: bool,
    at_ms: u64,
    now_ms: u64,
)
    requires
        view.activity_outcome(id, DomainClock::Now(at_ms)) is Ok,
        view.sources[id].active_writes < usize::MAX,
        view.sources[id].active_closes < usize::MAX,
        now_ms + 60_000 <= u64::MAX,
    ensures
        ({
            let lease = HttpStreamActivityLease {
                stream_id: id,
                generation: view.sources[id].generation,
                kind,
            };
            let begun = view.activity_begun(id, kind, DomainClock::Now(at_ms));
            let after = begun.activity_finished(lease, remove_writer, DomainClock::Now(now_ms));
            &&& begun.sources[id].active_writes + begun.sources[id].active_closes
                == view.sources[id].active_writes + view.sources[id].active_closes + 1
            &&& begun.sources[id].closing == (kind == HttpStreamActivityKind::Close)
            &&& after.sources.contains_key(id)
            &&& after.sources[id].active_writes == view.sources[id].active_writes
            &&& after.sources[id].active_closes == view.sources[id].active_closes
            &&& !after.sources[id].closing
            &&& after.sources[id].deadline_ms == now_ms + 60_000
            &&& after.response_writers.contains_key(id) <==> !remove_writer
            &&& !begun.activity_cancelled(lease).sources.contains_key(id)
            &&& !begun.activity_cancelled(lease).response_writers.contains_key(id)
        }),
{
}

/// A sweep takes the streams that are due, and those alone; the sweeper ends
/// where no stream is left.
pub proof fn sweep_takes_what_is_due<S, W>(view: StreamsView<S, W>, now_ms: u64, id: u64)
    requires
        !view.closed,
        view.sources.dom().finite(),
    ensures
        ({
            let after = view.swept(DomainClock::Now(now_ms));
            &&& after.sources.contains_key(id) <==> view.sources.contains_key(id) && !(
            view.sources[id].source is Available && view.sources[id].owners == 0
                && view.sources[id].active_writes == 0 && view.sources[id].active_closes == 0
                && view.sources[id].deadline_ms <= now_ms)
            &&& after.sources.contains_key(id) ==> after.sources[id] == view.sources[id]
            &&& after.sources.contains_key(id) ==> after.sweeper_running == view.sweeper_running
            &&& after.sources == Map::<u64, HttpStreamEntry<S>>::empty() ==> !after.sweeper_running
            &&& !after.closed
        }),
{
    let due = view.sources.dom().filter(|i: u64| view.sources[i].due(now_ms));
    let ids = view.due_ids(now_ms);
    assert(due.subset_of(view.sources.dom()));
    vstd::set_lib::lemma_set_subset_finite(view.sources.dom(), due);
    maps::lemma_finite_lists(due);
    lemma_without_each(view, ids, HttpStreamTerminationReason::Expired);
    assert(ids.to_set() == due);
}

/// A body can be taken by a claim on that very stream, and by no other.
pub proof fn bodies_are_taken_by_their_claim(claim: Option<HttpStreamClaim>, stream_id: u64)
    ensures
        body_claim_error(claim, stream_id) is None <==> (claim matches Some(held) && held.stream_id
            == stream_id),
{
}

/// A response is answered with its status and its headers, in order, and with
/// the socket that it hands over where one is asked about; and then with its
/// body: by the id of its stream, as a text, or as the bytes of what is none.
pub proof fn responses_are_answered<B, K>(response: HttpResponse<B, K>, ws_target: bool, id: u64)
    ensures
        ({
            let head = response_head(response, ws_target);
            let streamed = JsonView::Object(head.push(("streamId"@, json::number(id as int))));
            let whole = JsonView::Object(head.push(whole_body(response.body@)));
            let answers = |answer: JsonView| {
                &&& answer.member("status"@) == Some(json::number(response.status as int))
                &&& answer.member("headers"@) == Some(json::pair_list(response.headers@))
                &&& ws_target ==> match response.websocket {
                    Some(HttpResponseWebSocket::Cell(target)) => answer.member("wsTarget"@) == Some(
                        target_view(target),
                    ),
                    _ => answer.member("wsTarget"@) == Some(JsonView::Null),
                }
                &&& !ws_target ==> answer.member("wsTarget"@) is None
            };
            &&& answers(streamed)
            &&& answers(whole)
            &&& streamed.member("streamId"@) == Some(json::number(id as int))
            &&& streamed.member("body"@) is None && streamed.member("bodyBytes"@) is None
            &&& whole.member("streamId"@) is None
            &&& vstd::utf8::valid_utf8(response.body@) ==> whole.member("body"@) == Some(
                JsonView::Text(vstd::utf8::decode_utf8(response.body@)),
            ) && whole.member("bodyBytes"@) is None
            &&& !vstd::utf8::valid_utf8(response.body@) ==> whole.member("bodyBytes"@) == Some(
                json::byte_list(response.body@),
            ) && whole.member("body"@) is None
        }),
{
    reveal_strlit("status");
    reveal_strlit("headers");
    reveal_strlit("wsTarget");
    reveal_strlit("streamId");
    reveal_strlit("body");
    reveal_strlit("bodyBytes");
    assert("status"@.len() == 6 && "headers"@.len() == 7 && "body"@.len() == 4);
    assert("wsTarget"@.len() == 8 && "streamId"@.len() == 8 && "bodyBytes"@.len() == 9);
    assert("wsTarget"@[0] == 'w' && "streamId"@[0] == 's');
    let head = response_head(response, ws_target);
    let streamed = head.push(("streamId"@, json::number(id as int)));
    let whole = head.push(whole_body(response.body@));
    let n = head.len() as int;
    assert(head[0].0 == "status"@ && head[1].0 == "headers"@);
    if ws_target {
        assert(head[2].0 == "wsTarget"@);
        json::a_member_is_found(streamed, 2);
        json::a_member_is_found(whole, 2);
    } else {
        json::no_member_is_made_up(streamed, "wsTarget"@);
        json::no_member_is_made_up(whole, "wsTarget"@);
    }
    json::a_member_is_found(streamed, 0);
    json::a_member_is_found(streamed, 1);
    json::a_member_is_found(whole, 0);
    json::a_member_is_found(whole, 1);
    json::a_member_is_found(streamed, n);
    json::a_member_is_found(whole, n);
    json::no_member_is_made_up(streamed, "body"@);
    json::no_member_is_made_up(streamed, "bodyBytes"@);
    json::no_member_is_made_up(whole, "streamId"@);
    if vstd::utf8::valid_utf8(response.body@) {
        json::no_member_is_made_up(whole, "bodyBytes"@);
    } else {
        json::no_member_is_made_up(whole, "body"@);
    }
}

/// A socket that an answer hands over is told by its id, its cell and, where
/// there is one, its tunnel, each under its own name.
pub proof fn targets_are_answered(target: WsTarget)
    ensures
        target_view(target).member("id"@) == Some(json::number(target.id as int)),
        target_view(target).member("scope"@) == Some(JsonView::Text(target.scope@)),
        target_view(target).member("tunnel"@) == (match target.tunnel {
            Some(tunnel) => Some(json::number(tunnel as int)),
            None => None,
        }),
{
    reveal_strlit("id");
    reveal_strlit("scope");
    reveal_strlit("tunnel");
    assert("id"@.len() == 2 && "scope"@.len() == 5 && "tunnel"@.len() == 6);
    let members = target_view(target)->Object_0;
    json::a_member_is_found(members, 0);
    json::a_member_is_found(members, 1);
    if target.tunnel is Some {
        json::a_member_is_found(members, 2);
    } else {
        json::no_member_is_made_up(members, "tunnel"@);
    }
}

/// A source is never lost: when a read ends, it is back in its slot, or is
/// handed out with what left the service. It is back exactly where the read gave
/// a chunk and still spoke for its stream.
pub proof fn sources_are_not_lost<S, W>(
    completed: PullCompleted<S, W>,
    view: StreamsView<S, W>,
    lease: HttpSourceLease,
    source: S,
    result: Result<Option<Seq<u8>>, Seq<char>>,
    clock: DomainClock,
)
    requires
        completed.completes(view, lease, source, result, clock),
    ensures
        ({
            let after = view.pulled(lease, source, result, clock);
            let back = view.pull_counts(lease) && clock is Now && result is Ok && result->Ok_0
                is Some;
            &&& back ==> after.sources[lease.stream_id].source
                == HttpStreamSourceSlot::Available(source) && completed.drain.detached_sources@.len()
                == 0 && completed.drain.sources@.len() == 0
            &&& !back ==> completed.drain.detached_sources@ == seq![(lease.stream_id, source)]
            &&& view.pull_counts(lease) && !(result is Ok && result->Ok_0 is Some) ==> {
                &&& completed.drain.sources@.len() == 1
                &&& completed.drain.sources@[0].0 == lease.stream_id
                &&& view.sources[lease.stream_id].termination.reason
                    == HttpStreamTerminationReason::Live
                    ==> completed.drain.sources@[0].1.termination.reason
                    == HttpStreamTerminationReason::Finished
            }
            &&& !view.pull_counts(lease) ==> completed.drain.sources@.len() == 0
            &&& pull_view(completed.answer) == view.pull_answer(lease, result, clock)
        }),
{
}

/// The sweeper waits for the deadline that comes first of the streams that
/// nobody holds: none of those is due before it, and one is then.
pub proof fn sweeper_waits_for_the_first_deadline<S, W>(
    view: StreamsView<S, W>,
    deadline_ms: u64,
    id: u64,
    now_ms: u64,
)
    requires
        view.earliest_deadline(deadline_ms),
    ensures
        view.any_idle(),
        view.due_at(id, DomainClock::Now(now_ms)) ==> now_ms >= deadline_ms,
        now_ms >= deadline_ms ==> exists|due: u64| #[trigger]
            view.sources.contains_key(due) && view.due_at(due, DomainClock::Now(now_ms)),
{
    let first = choose|first: u64| #[trigger]
        view.sources.contains_key(first) && view.sources[first].idle()
            && view.sources[first].deadline_ms == deadline_ms;
    assert(view.sources.contains_key(first));
    if now_ms >= deadline_ms {
        assert(view.due_at(first, DomainClock::Now(now_ms)));
    }
}

/// A failure of a stream is told by the stream's id.
pub proof fn stream_failures_name_the_stream(stream_id: u64)
    ensures
        ({
            let head = "HTTP stream "@ + text::decimal(stream_id as nat);
            &&& text::has_prefix(expired_message(stream_id), head)
            &&& text::has_prefix(unknown_message(stream_id), head)
            &&& text::has_prefix(busy_message(stream_id), head)
        }),
{
    let head = "HTTP stream "@ + text::decimal(stream_id as nat);
    assert(expired_message(stream_id).subrange(0, head.len() as int) =~= head);
    assert(unknown_message(stream_id).subrange(0, head.len() as int) =~= head);
    assert(busy_message(stream_id).subrange(0, head.len() as int) =~= head);
}

/// A checkout by a claim spends the claim and one without spends none; the
/// source is then out on a lease of its own, which no earlier lease is, and
/// whose stream has not ended.
pub proof fn checkouts_spend_their_claim<S, W>(
    view: StreamsView<S, W>,
    id: u64,
    mode: HttpSourceLeaseMode,
    now_ms: u64,
)
    requires
        view.available(id, None, DomainClock::Now(now_ms)),
        view.sources[id].owners > 0,
    ensures
        ({
            let now = DomainClock::Now(now_ms);
            let generation = view.sources[id].generation;
            let spent = view.checked_out(id, mode, Some(generation), now);
            let unspent = view.checked_out(id, mode, None, now);
            let lease = HttpSourceLease { stream_id: id, generation, token: view.next_token, mode };
            &&& view.available(id, Some(generation), now)
            &&& forall|other: u64|
                other != generation ==> !(#[trigger] view.available(id, Some(other), now))
            &&& spent.sources[id].owners + 1 == view.sources[id].owners
            &&& unspent.sources[id].owners == view.sources[id].owners
            &&& spent.leased_to(lease) && unspent.leased_to(lease)
            &&& spent.next_token != view.next_token
            &&& spent.lease_reason(view.next_token) == HttpStreamTerminationReason::Live
            &&& spent.sources[id].deadline_ms == view.sources[id].deadline_ms
        }),
{
}

/// A service that is closed, or lost its clock, refuses a writer as closed; one
/// whose stream is not there, or is due, as gone; and a stream that is being
/// closed refuses as closing.
pub proof fn refused_writers_are_told_why<S, W>(view: StreamsView<S, W>, id: u64, now_ms: u64)
    ensures
        view.closed ==> view.activity_outcome(id, DomainClock::Now(now_ms)) == Err::<
            u64,
            HttpStreamActivityError,
        >(HttpStreamActivityError::Closed),
        view.activity_outcome(id, DomainClock::Lost) == Err::<u64, HttpStreamActivityError>(
            HttpStreamActivityError::Closed,
        ),
        !view.closed && (!view.sources.contains_key(id) || !view.response_writers.contains_key(id)
            || view.due_at(id, DomainClock::Now(now_ms))) ==> view.activity_outcome(
            id,
            DomainClock::Now(now_ms),
        ) == Err::<u64, HttpStreamActivityError>(HttpStreamActivityError::Gone),
        !view.closed && view.sources.contains_key(id) && view.response_writers.contains_key(id)
            && !view.due_at(id, DomainClock::Now(now_ms)) ==> view.activity_outcome(
            id,
            DomainClock::Now(now_ms),
        ) == (if view.sources[id].closing {
            Err::<u64, HttpStreamActivityError>(HttpStreamActivityError::Closing)
        } else {
            Ok(view.sources[id].generation)
        }),
{
}

/// A stream that ends while its source is out on a lease leaves its end for the
/// lease: the holder learns the first reason that was given, and a lease that is
/// settled leaves nothing behind.
pub proof fn leases_learn_how_their_stream_ended<S, W>(
    view: StreamsView<S, W>,
    lease: HttpSourceLease,
    reason: HttpStreamTerminationReason,
    requested: HttpStreamTerminationReason,
)
    requires
        view.leased_to(lease),
        view.sources[lease.stream_id].termination.reason == HttpStreamTerminationReason::Live,
        reason != HttpStreamTerminationReason::Live,
        requested != HttpStreamTerminationReason::Live,
    ensures
        ({
            let ended = view.without(lease.stream_id, reason);
            &&& ended.lease_reason(lease.token) == reason
            &&& ended.winning_reason(lease, requested) == reason
            &&& view.winning_reason(lease, requested) == requested
            &&& ended.lease_finished(lease, requested).lease_reason(lease.token)
                == HttpStreamTerminationReason::Live
            &&& view.winning_reason(lease, HttpStreamTerminationReason::Live)
                == HttpStreamTerminationReason::Cancelled
        }),
{
}

} // verus!
