//! Types and helpers that the cell runtimes and the host share: request ids,
//! Durable Object ids, the positions answers are gated on, and the shapes of
//! queue traffic.
use vstd::prelude::*;
#[allow(unused_imports)]
use vstd::string::*;

use crate::digests;
use crate::maps::TextMap;
#[allow(unused_imports)]
use crate::text;

verus! {

// ---- request ids ---------------------------------------------------------

pub type RequestId = u128;

/// A process's source of request ids: a random prefix drawn once, and a count.
pub struct RequestIds {
    pub prefix: Option<u64>,
    pub next: u64,
}

/// `getrandom::fill` on eight bytes: a number of the system's random source,
/// or none where the source is unavailable. Nothing is promised of the number.
#[verifier::external_body]
fn random_prefix() -> (r: Option<u64>) {
    let mut bytes = [0; 8];
    getrandom::fill(&mut bytes).ok().map(|_| u64::from_ne_bytes(bytes))
}

/// The id with the prefix in its upper half and the count in its lower one.
pub open spec fn id_of(prefix: u64, sequence: u64) -> nat {
    (prefix * 0x1_0000_0000_0000_0000 + sequence) as nat
}

pub fn request_id_of(prefix: u64, sequence: u64) -> (r: RequestId)
    ensures
        r == id_of(prefix, sequence),
{
    (prefix as u128) * 0x1_0000_0000_0000_0000 + sequence as u128
}

/// Ids of one process differ as long as its count does.
pub proof fn request_ids_differ(prefix: u64, a: u64, b: u64)
    requires
        a != b,
    ensures
        id_of(prefix, a) != id_of(prefix, b),
{
}

impl RequestIds {
    pub fn new() -> (r: Self)
        ensures
            r.prefix is None,
            r.next == 1,
    {
        RequestIds { prefix: None, next: 1 }
    }
}

/// Allocates an id. The first one draws the process's prefix; `None` where the
/// random source is unavailable, and then nothing is spent.
pub fn next_do_request_id(ids: &mut RequestIds) -> (r: Option<RequestId>)
    ensures
        match r {
            Some(id) => {
                &&& final(ids).prefix is Some
                &&& old(ids).prefix is Some ==> final(ids).prefix == old(ids).prefix
                &&& id == id_of(final(ids).prefix->0, old(ids).next)
                &&& final(ids).next == (if old(ids).next == u64::MAX {
                    0
                } else {
                    (old(ids).next + 1) as u64
                })
            },
            None => old(ids).prefix is None && *final(ids) == *old(ids),
        },
{
    let prefix: u64 = match ids.prefix {
        Some(prefix) => prefix,
        None => match random_prefix() {
            Some(prefix) => prefix,
            None => {
                return None;
            },
        },
    };
    ids.prefix = Some(prefix);
    let sequence = ids.next;
    ids.next = if sequence == u64::MAX {
        0
    } else {
        sequence + 1
    };
    Some(request_id_of(prefix, sequence))
}

/// Allocates an id for an ingress or service-binding request.
pub fn next_request_id(ids: &mut RequestIds) -> (r: Option<RequestId>)
    ensures
        match r {
            Some(id) => {
                &&& final(ids).prefix is Some
                &&& old(ids).prefix is Some ==> final(ids).prefix == old(ids).prefix
                &&& id == id_of(final(ids).prefix->0, old(ids).next)
                &&& final(ids).next == (if old(ids).next == u64::MAX {
                    0
                } else {
                    (old(ids).next + 1) as u64
                })
            },
            None => old(ids).prefix is None && *final(ids) == *old(ids),
        },
{
    next_do_request_id(ids)
}

/// The lowest `width` hexadecimal digits of a number.
pub open spec fn hex_numeral(n: nat, width: nat) -> Seq<char>
    decreases width,
{
    if width == 0 {
        Seq::empty()
    } else {
        hex_numeral(n / 16, (width - 1) as nat).push(text::digit_char(n % 16))
    }
}

/// The number a row of hexadecimal digits writes.
pub open spec fn hex_number(s: Seq<char>) -> Option<nat>
    decreases s.len(),
{
    if s.len() == 0 {
        Some(0)
    } else {
        match (hex_number(s.drop_last()), text::hex_value(s.last())) {
            (Some(high), Some(low)) => Some(high * 16 + low),
            _ => None,
        }
    }
}

/// What reading a hexadecimal numeral gives: an optional plus sign, then one
/// digit or more, of a number of 128 bits.
pub open spec fn hex_reading(s: Seq<char>) -> Option<nat> {
    let digits = if s.len() > 0 && s[0] == '+' {
        s.skip(1)
    } else {
        s
    };
    if digits.len() == 0 {
        None
    } else {
        match hex_number(digits) {
            Some(n) => if n <= u128::MAX {
                Some(n)
            } else {
                None
            },
            None => None,
        }
    }
}

/// A request id as text: 32 hexadecimal digits.
pub fn request_id_string(request_id: RequestId) -> (r: String)
    ensures
        r@ == hex_numeral(request_id as nat, 32),
{
    let mut reversed: Vec<char> = Vec::new();
    let mut rest: u128 = request_id;
    let mut i: usize = 0;
    while i < 32
        invariant
            i <= 32,
            reversed@.len() == i,
            hex_numeral(request_id as nat, 32) == hex_numeral(rest as nat, (32 - i) as nat)
                + reversed@.reverse(),
        decreases 32 - i,
    {
        let ghost before = reversed@;
        let ghost was: u128 = rest;
        reversed.push(text::digit_to_char((rest % 16) as u8));
        rest = rest / 16;
        proof {
            assert(reversed@.reverse() =~= seq![text::digit_char((was % 16) as nat)]
                + before.reverse());
            assert(hex_numeral(was as nat, (32 - i) as nat) =~= hex_numeral(
                rest as nat,
                (32 - i - 1) as nat,
            ).push(text::digit_char((was % 16) as nat)));
            assert(hex_numeral(request_id as nat, 32) =~= hex_numeral(
                rest as nat,
                (32 - i - 1) as nat,
            ) + reversed@.reverse());
        }
        i = i + 1;
    }
    assert(hex_numeral(rest as nat, 0) =~= Seq::empty());
    let mut out = String::new();
    let mut k: usize = reversed.len();
    while k > 0
        invariant
            k <= reversed.len(),
            out@ == reversed@.reverse().subrange(0, reversed.len() - k),
        decreases k,
    {
        k = k - 1;
        out.push(reversed[k]);
        assert(out@ =~= reversed@.reverse().subrange(0, reversed.len() - k));
    }
    assert(out@ =~= hex_numeral(request_id as nat, 32));
    out
}

proof fn lemma_hex_number_grows(s: Seq<char>, i: int)
    requires
        0 <= i <= s.len(),
    ensures
        hex_number(s) is Some ==> hex_number(s.take(i)) is Some && hex_number(s.take(i))->0
            <= hex_number(s)->0,
    decreases s.len(),
{
    if i == s.len() {
        assert(s.take(i) =~= s);
    } else {
        assert(s.drop_last().take(i) =~= s.take(i));
        lemma_hex_number_grows(s.drop_last(), i);
    }
}

/// Reads a request id.
pub fn parse_request_id(value: &str) -> (r: Option<RequestId>)
    ensures
        match r {
            Some(id) => hex_reading(value@) == Some(id as nat),
            None => hex_reading(value@) is None,
        },
{
    read_hex(value)
}

/// Reads a hexadecimal numeral.
pub fn read_hex(value: &str) -> (r: Option<u128>)
    ensures
        match r {
            Some(n) => hex_reading(value@) == Some(n as nat),
            None => hex_reading(value@) is None,
        },
{
    let chars = text::chars_of(value);
    let from: usize = if chars.len() > 0 && chars[0] == '+' {
        1
    } else {
        0
    };
    let ghost digits = value@.skip(from as int);
    assert(from == 0 ==> digits =~= value@);
    if from == chars.len() {
        return None;
    }
    let mut total: u128 = 0;
    let mut i: usize = from;
    assert(digits.take(0) =~= Seq::empty());
    while i < chars.len()
        invariant
            from <= i <= chars.len(),
            chars@ == value@,
            digits == value@.skip(from as int),
            hex_reading(value@) == (match hex_number(digits) {
                Some(n) => if n <= u128::MAX {
                    Some(n)
                } else {
                    None
                },
                None => None::<nat>,
            }),
            hex_number(digits.take(i - from)) == Some(total as nat),
        decreases chars.len() - i,
    {
        let ghost k = i - from;
        proof {
            assert(digits.take(k + 1).drop_last() =~= digits.take(k));
            assert(digits.take(k + 1).last() == chars@[i as int]);
            lemma_hex_number_grows(digits, k + 1);
        }
        let d: u8 = match text::hex_digit_value(chars[i]) {
            Some(d) => d,
            None => {
                return None;
            },
        };
        if total > (u128::MAX - d as u128) / 16 {
            return None;
        }
        total = total * 16 + d as u128;
        i = i + 1;
    }
    assert(digits.take(i - from) =~= digits);
    Some(total)
}

pub(crate) proof fn lemma_hex_numeral(n: nat, width: nat)
    ensures
        hex_numeral(n, width).len() == width,
        n < vstd::arithmetic::power::pow(16, width) ==> hex_number(hex_numeral(n, width)) == Some(n),
        forall|i: int| 0 <= i < width ==> text::hex_value(#[trigger] hex_numeral(n, width)[i]) is Some,
    decreases width,
{
    vstd::arithmetic::power::lemma_pow0(16);
    if width > 0 {
        let low = (width - 1) as nat;
        lemma_hex_numeral(n / 16, low);
        vstd::arithmetic::power::lemma_pow1(16);
        vstd::arithmetic::power::lemma_pow_adds(16, low, 1);
        let s = hex_numeral(n, width);
        assert(s.drop_last() =~= hex_numeral(n / 16, low));
        assert(text::hex_value(text::digit_char(n % 16)) == Some(n % 16));
        if n < vstd::arithmetic::power::pow(16, width) {
            assert(n / 16 < vstd::arithmetic::power::pow(16, low)) by (nonlinear_arith)
                requires
                    n < vstd::arithmetic::power::pow(16, width),
                    vstd::arithmetic::power::pow(16, width) == vstd::arithmetic::power::pow(
                        16,
                        low,
                    ) * 16,
            ;
        }
    }
}

/// A request id reads back from its text.
pub proof fn request_id_reads_back(id: u128)
    ensures
        hex_numeral(id as nat, 32).len() == 32,
        hex_reading(hex_numeral(id as nat, 32)) == Some(id as nat),
{
    assert(vstd::arithmetic::power::pow(16, 32) == 0x1_0000_0000_0000_0000_0000_0000_0000_0000) by {
        reveal_with_fuel(vstd::arithmetic::power::pow, 33);
    }
    lemma_hex_numeral(id as nat, 32);
    let s = hex_numeral(id as nat, 32);
    assert(text::hex_value(s[0]) is Some);
    assert(s[0] != '+');
}

// ---- answers and their positions -----------------------------------------

/// A socket an answer hands over.
pub struct WsTarget {
    pub id: u64,
    pub scope: String,
    /// A parked tunnel on the calling node.
    pub tunnel: Option<u64>,
}

/// The WebSocket that owns a response; a Worker's own socket stays open (`K`).
pub enum HttpResponseWebSocket<K> {
    Cell(WsTarget),
    Worker(K),
}

/// A response of a cell or a Worker; its streamed body stays open (`B`).
pub struct HttpResponse<B, K> {
    pub status: u16,
    pub body: Vec<u8>,
    pub stream: Option<B>,
    pub headers: Vec<(String, String)>,
    pub websocket: Option<HttpResponseWebSocket<K>>,
    /// The cell's committed-write position after the handler ran.
    pub write_position: Option<u64>,
    /// What a handler that wrote nothing observed above the cell's published
    /// baseline.
    pub observed_position: Option<u64>,
}

/// An RPC payload that crosses the host boundary.
pub enum RpcData {
    Json(String),
    V8(Vec<u8>),
}

/// What a Durable Object method returned.
pub struct RpcOutcome {
    pub data: RpcData,
    pub write_position: Option<u64>,
    pub observed_position: Option<u64>,
}

/// An answer that the output gate holds: it reports the position its writes
/// reached, and the position it observed where it wrote nothing.
pub trait GatedAnswer {
    spec fn written(&self) -> Option<u64>;

    spec fn observed(&self) -> Option<u64>;

    fn write_position(&self) -> (r: Option<u64>)
        ensures
            r == self.written(),
    ;

    fn observed_position(&self) -> (r: Option<u64>)
        ensures
            r == self.observed(),
    ;
}

impl<B, K> GatedAnswer for HttpResponse<B, K> {
    open spec fn written(&self) -> Option<u64> {
        self.write_position
    }

    open spec fn observed(&self) -> Option<u64> {
        self.observed_position
    }

    fn write_position(&self) -> (r: Option<u64>) {
        self.write_position
    }

    fn observed_position(&self) -> (r: Option<u64>) {
        self.observed_position
    }
}

impl GatedAnswer for RpcOutcome {
    open spec fn written(&self) -> Option<u64> {
        self.write_position
    }

    open spec fn observed(&self) -> Option<u64> {
        self.observed_position
    }

    fn write_position(&self) -> (r: Option<u64>) {
        self.write_position
    }

    fn observed_position(&self) -> (r: Option<u64>) {
        self.observed_position
    }
}

/// A handler that failed inside its turn, with the positions that turn sampled
/// from the cell. A commit it made before is as real as one of a handler that
/// succeeded, and its message can quote what it read.
pub struct FailedInTurn {
    pub write_position: Option<u64>,
    pub observed_position: Option<u64>,
    pub source: Box<HandlerError>,
}

/// Why a handler gave no answer.
pub enum HandlerError {
    /// The words of a failure outside any turn.
    Message(String),
    InTurn(FailedInTurn),
}

impl HandlerError {
    /// The handler's own words.
    pub open spec fn words(self) -> Seq<char>
        decreases self,
    {
        match self {
            HandlerError::Message(message) => message@,
            HandlerError::InTurn(failed) => failed.source.words(),
        }
    }

    /// The handler's own words, whatever wraps them.
    pub fn message(&self) -> (r: String)
        ensures
            r@ == self.words(),
        decreases self,
    {
        match self {
            HandlerError::Message(message) => message.clone(),
            HandlerError::InTurn(failed) => failed.source.message(),
        }
    }
}

/// Attaches the positions a failing handler's turn sampled, where it has
/// either.
pub fn fail_in_turn_error(error: HandlerError, positions: (Option<u64>, Option<u64>)) -> (r:
    HandlerError)
    ensures
        r == failed_at(error, positions),
        r.words() == error.words(),
        positions == (None::<u64>, None::<u64>) ==> r == error,
        positions != (None::<u64>, None::<u64>) ==> r == HandlerError::InTurn(
            FailedInTurn {
                write_position: positions.0,
                observed_position: positions.1,
                source: Box::new(error),
            },
        ),
{
    let (write_position, observed_position) = positions;
    if write_position.is_none() && observed_position.is_none() {
        return error;
    }
    HandlerError::InTurn(
        FailedInTurn { write_position, observed_position, source: Box::new(error) },
    )
}

/// The position a failed handler committed before it failed, where it did.
pub fn failed_write_position(error: &HandlerError) -> (r: Option<u64>)
    ensures
        r == (match error {
            HandlerError::Message(_) => None,
            HandlerError::InTurn(failed) => failed.write_position,
        }),
{
    match error {
        HandlerError::Message(_) => None,
        HandlerError::InTurn(failed) => failed.write_position,
    }
}

/// What an answer asks of the output gate.
#[derive(Clone, Copy, Debug, PartialEq, Eq, Structural)]
pub struct GateTicket {
    pub write_position: Option<u64>,
    pub observed_position: Option<u64>,
}

/// The ticket an answer takes through the output gate.
pub open spec fn ticket_of<T: GatedAnswer>(result: Result<T, HandlerError>) -> Option<GateTicket> {
    match result {
        Ok(answer) => Some(
            GateTicket {
                write_position: answer.written(),
                observed_position: answer.observed(),
            },
        ),
        Err(HandlerError::InTurn(failed)) => Some(
            GateTicket {
                write_position: failed.write_position,
                observed_position: failed.observed_position,
            },
        ),
        Err(HandlerError::Message(_)) => None,
    }
}

/// The error of a handler whose turn sampled these positions.
pub open spec fn failed_at(
    error: HandlerError,
    positions: (Option<u64>, Option<u64>),
) -> HandlerError {
    if positions == (None::<u64>, None::<u64>) {
        error
    } else {
        HandlerError::InTurn(
            FailedInTurn {
                write_position: positions.0,
                observed_position: positions.1,
                source: Box::new(error),
            },
        )
    }
}

/// Nothing that a handler wrote or read is revealed before it is durable: an
/// answer waits for the position it wrote at and for the one it observed, and so
/// does a failure, whatever it was, once its turn sampled either. The words of a
/// failure are the handler's own. Only a failure outside any turn is not gated.
pub proof fn answers_wait_for_what_they_reveal<T: GatedAnswer>(
    answer: T,
    error: HandlerError,
    written: Option<u64>,
    observed: Option<u64>,
)
    ensures
        ticket_of(Ok::<T, HandlerError>(answer)) matches Some(ticket) && ticket.write_position
            == answer.written() && ticket.observed_position == answer.observed(),
        written is Some || observed is Some ==> (ticket_of(
            Err::<T, HandlerError>(failed_at(error, (written, observed))),
        ) matches Some(ticket) && ticket.write_position == written && ticket.observed_position
            == observed),
        failed_at(error, (written, observed)).words() == error.words(),
        error is Message ==> ticket_of(
            Err::<T, HandlerError>(failed_at(error, (None, None))),
        ) is None,
{
    reveal_with_fuel(HandlerError::words, 2);
}

/// The ticket an answer takes through the output gate. A success always takes
/// one, and so does a failure raised inside a turn; a failure raised outside a
/// turn reveals nothing of the cell and takes none.
pub fn answer_ticket<T: GatedAnswer>(result: &Result<T, HandlerError>) -> (r: Option<GateTicket>)
    ensures
        r == ticket_of(*result),
        r == (match result {
            Ok(answer) => Some(
                GateTicket {
                    write_position: answer.written(),
                    observed_position: answer.observed(),
                },
            ),
            Err(HandlerError::InTurn(failed)) => Some(
                GateTicket {
                    write_position: failed.write_position,
                    observed_position: failed.observed_position,
                },
            ),
            Err(HandlerError::Message(_)) => None,
        }),
{
    match result {
        Ok(answer) => Some(
            GateTicket {
                write_position: answer.write_position(),
                observed_position: answer.observed_position(),
            },
        ),
        Err(HandlerError::InTurn(failed)) => Some(
            GateTicket {
                write_position: failed.write_position,
                observed_position: failed.observed_position,
            },
        ),
        Err(HandlerError::Message(_)) => None,
    }
}

// ---- request bodies ------------------------------------------------------

/// How a request body reaches the isolate: a small one as bytes, any other by
/// the id of its stream.
pub enum RequestBody {
    Bytes(Vec<u8>),
    Stream(u64),
}

impl RequestBody {
    /// The bytes already in hand.
    pub open spec fn held(self) -> Seq<u8> {
        match self {
            RequestBody::Bytes(bytes) => bytes@,
            RequestBody::Stream(_) => Seq::empty(),
        }
    }

    pub fn bytes(&self) -> (r: Vec<u8>)
        ensures
            r@ == self.held(),
    {
        match self {
            RequestBody::Bytes(bytes) => {
                let r = bytes.clone();
                assert(r@ =~= bytes@);
                r
            },
            RequestBody::Stream(_) => {
                let r: Vec<u8> = Vec::new();
                assert(r@ =~= Seq::empty());
                r
            },
        }
    }

    pub fn stream_id(&self) -> (r: Option<u64>)
        ensures
            r == (match self {
                RequestBody::Bytes(_) => None,
                RequestBody::Stream(id) => Some(*id),
            }),
    {
        match self {
            RequestBody::Bytes(_) => None,
            RequestBody::Stream(id) => Some(*id),
        }
    }

    /// The whole body, where it is in hand.
    pub fn into_held_bytes(self) -> (r: Option<Vec<u8>>)
        ensures
            r == (match self {
                RequestBody::Bytes(bytes) => Some(bytes),
                RequestBody::Stream(_) => None,
            }),
    {
        match self {
            RequestBody::Bytes(bytes) => Some(bytes),
            RequestBody::Stream(_) => None,
        }
    }
}

// ---- Durable Object ids --------------------------------------------------

pub const D1_CLASS: &'static str = "__D1Database";

pub const KV_CLASS: &'static str = "__KvNamespace";

pub const QUEUE_CLASS: &'static str = "__Queue";

/// One namespace of the whole fleet for D1 databases: several Workers can bind
/// one, and renaming a Worker must not rename it. This string and the two
/// below are addresses.
pub const D1_NAMESPACE_KEY: &'static str = "cells:v1:d1:__D1Database";

pub const KV_NAMESPACE_KEY: &'static str = "cells:v1:kv:__KvNamespace";

pub const QUEUE_NAMESPACE_KEY: &'static str = "cells:v1:queue:__Queue";

/// The namespace key that every script shares for a class, if the class is
/// shared.
pub open spec fn shared_key(class_name: Seq<char>) -> Option<Seq<char>> {
    if class_name == D1_CLASS@ {
        Some(D1_NAMESPACE_KEY@)
    } else if class_name == KV_CLASS@ {
        Some(KV_NAMESPACE_KEY@)
    } else if class_name == QUEUE_CLASS@ {
        Some(QUEUE_NAMESPACE_KEY@)
    } else {
        None
    }
}

pub fn shared_namespace_key(class_name: &str) -> (r: Option<&'static str>)
    ensures
        match r {
            Some(key) => shared_key(class_name@) == Some(key@),
            None => shared_key(class_name@) is None,
        },
{
    if text::same(class_name, D1_CLASS) {
        Some(D1_NAMESPACE_KEY)
    } else if text::same(class_name, KV_CLASS) {
        Some(KV_NAMESPACE_KEY)
    } else if text::same(class_name, QUEUE_CLASS) {
        Some(QUEUE_NAMESPACE_KEY)
    } else {
        None
    }
}

/// The key a class's ids are derived from: one for the fleet where the class
/// is shared, else one of the script that exports it.
pub open spec fn namespace_key_of(script_name: Seq<char>, class_name: Seq<char>) -> Seq<char> {
    match shared_key(class_name) {
        Some(key) => key,
        None => "cells:v1:"@ + text::decimal(vstd::utf8::encode_utf8(script_name).len()) + ":"@
            + script_name + ":"@ + class_name,
    }
}

pub fn namespace_key(script_name: &str, class_name: &str) -> (r: String)
    ensures
        r@ == namespace_key_of(script_name@, class_name@),
{
    match shared_namespace_key(class_name) {
        Some(shared) => String::from_str(shared),
        None => {
            let mut key = String::from_str("cells:v1:");
            let length: usize = script_name.as_bytes().len();
            key.append(text::decimal_text(length as u64).as_str());
            key.append(":");
            key.append(script_name);
            key.append(":");
            key.append(class_name);
            key
        },
    }
}

/// The id that a name has in a namespace. The first half is the start of the
/// name's HMAC under the namespace's key, the second that of the first half's.
pub open spec fn id_for_name(namespace_key: Seq<char>, name: Seq<char>) -> Seq<u8> {
    let key = digests::digest_of(
        digests::Algorithm::Sha256,
        vstd::utf8::encode_utf8(namespace_key),
    );
    let first = digests::hmac_of(key, vstd::utf8::encode_utf8(name)).take(16);
    first + digests::hmac_of(key, first).take(16)
}

/// The most derived ids that are kept; a full cache is emptied whole.
pub const DO_ID_CACHE_MAX: usize = 4096;

/// The ids that were derived already. Deriving is a pure function of its
/// inputs, so the cache changes no answer.
pub struct DoIdCache {
    keys: TextMap<Vec<u8>>,
    ids: TextMap<TextMap<Vec<u8>>>,
    count: usize,
}

impl DoIdCache {
    /// What is kept is what would be derived.
    pub closed spec fn wf(&self) -> bool {
        &&& self.count <= DO_ID_CACHE_MAX
        &&& forall|namespace: Seq<char>| #[trigger]
            self.keys@.contains_key(namespace) ==> self.keys@[namespace]@ == digests::digest_of(
                digests::Algorithm::Sha256,
                vstd::utf8::encode_utf8(namespace),
            ) && self.keys@[namespace]@.len() == 32
        &&& forall|namespace: Seq<char>, name: Seq<char>|
            self.ids@.contains_key(namespace) && #[trigger] self.ids@[namespace]@.contains_key(name)
                ==> self.ids@[namespace]@[name]@ == id_for_name(namespace, name)
                && self.ids@[namespace]@[name]@.len() == 32
    }

    pub fn new() -> (cache: Self)
        ensures
            cache.wf(),
    {
        DoIdCache { keys: TextMap::new(), ids: TextMap::new(), count: 0 }
    }

    /// The key of a namespace.
    fn key_of(&mut self, namespace_key: &str) -> (r: Vec<u8>)
        requires
            old(self).wf(),
        ensures
            final(self).wf(),
            r@ == digests::digest_of(
                digests::Algorithm::Sha256,
                vstd::utf8::encode_utf8(namespace_key@),
            ),
            r@.len() == 32,
            final(self).ids == old(self).ids,
            final(self).count == old(self).count,
    {
        if let Some(key) = self.keys.get(namespace_key) {
            let r = key.clone();
            assert(r@ =~= key@);
            return r;
        }
        let key = digests::sha256(namespace_key.as_bytes());
        let kept = key.clone();
        assert(kept@ =~= key@);
        self.keys.insert(String::from_str(namespace_key), kept);
        key
    }
}

/// The first 16 bytes of a digest.
fn first_half(bytes: &Vec<u8>) -> (r: Vec<u8>)
    requires
        bytes@.len() == 32,
    ensures
        r@ == bytes@.take(16),
        r@.len() == 16,
{
    let mut r: Vec<u8> = Vec::new();
    let mut i: usize = 0;
    while i < 16
        invariant
            i <= 16,
            bytes@.len() == 32,
            r@ == bytes@.take(i as int),
        decreases 16 - i,
    {
        r.push(bytes[i]);
        i = i + 1;
        assert(r@ =~= bytes@.take(i as int));
    }
    r
}

/// Derives the id of a name without a cache.
pub fn derive_id(key: &Vec<u8>, name: &str) -> (r: Vec<u8>)
    ensures
        r@.len() == 32,
        ({
            let first = digests::hmac_of(key@, vstd::utf8::encode_utf8(name@)).take(16);
            r@ == first + digests::hmac_of(key@, first).take(16)
        }),
{
    let mut id = first_half(&digests::hmac_sha256(key.as_slice(), name.as_bytes()));
    let ghost first = id@;
    let mut second = first_half(&digests::hmac_sha256(key.as_slice(), id.as_slice()));
    id.append(&mut second);
    id
}

/// The id of a name in a namespace.
pub fn durable_object_id_for_name(cache: &mut DoIdCache, namespace_key: &str, name: &str) -> (r: Vec<
    u8,
>)
    requires
        old(cache).wf(),
    ensures
        final(cache).wf(),
        r@ == id_for_name(namespace_key@, name@),
        r@.len() == 32,
{
    if let Some(names) = cache.ids.get(namespace_key) {
        if let Some(id) = names.get(name) {
            let r = id.clone();
            assert(r@ =~= id@);
            assert(cache.ids@[namespace_key@]@.contains_key(name@));
            return r;
        }
    }
    let key = cache.key_of(namespace_key);
    let id = derive_id(&key, name);
    if cache.count >= DO_ID_CACHE_MAX {
        cache.ids = TextMap::new();
        cache.count = 0;
    }
    let ghost before = cache.ids@;
    let mut names = match cache.ids.remove(namespace_key) {
        Some(names) => names,
        None => TextMap::new(),
    };
    let kept = id.clone();
    assert(kept@ =~= id@);
    let ghost was = names@;
    names.insert(String::from_str(name), kept);
    cache.ids.insert(String::from_str(namespace_key), names);
    cache.count = cache.count + 1;
    proof {
        assert forall|n: Seq<char>, m: Seq<char>|
            cache.ids@.contains_key(n) && #[trigger] cache.ids@[n]@.contains_key(m) implies cache.ids@[n]@[m]@
            == id_for_name(n, m) && cache.ids@[n]@[m]@.len() == 32 by {
            if n == namespace_key@ {
                if m != name@ {
                    assert(was.contains_key(m));
                    assert(before[n]@.contains_key(m));
                }
            } else {
                assert(before.contains_key(n));
                assert(before[n]@.contains_key(m));
            }
        }
    }
    id
}

/// An id as text: two hexadecimal digits for each of its bytes.
pub fn durable_object_id_hex(bytes: &Vec<u8>) -> (r: String)
    ensures
        r@ == text::hex_of(bytes@),
{
    text::hex_text(bytes.as_slice())
}

/// What decoding the text of an id gives: 64 hexadecimal digits, of either
/// case, are 32 bytes.
pub open spec fn decoded_id(value: Seq<char>) -> Option<Seq<u8>> {
    if value.len() == 64 && forall|i: int|
        0 <= i < 64 ==> text::hex_value(#[trigger] value[i]) is Some {
        Some(
            Seq::new(
                32,
                |i: int|
                    (text::hex_value(value[2 * i])->0 * 16 + text::hex_value(
                        value[2 * i + 1],
                    )->0) as u8,
            ),
        )
    } else {
        None
    }
}

/// Decodes the text of an id.
pub fn decode_durable_object_id(value: &str) -> (r: Option<Vec<u8>>)
    ensures
        match r {
            Some(id) => decoded_id(value@) == Some(id@),
            None => decoded_id(value@) is None,
        },
{
    let chars = text::chars_of(value);
    if chars.len() != 64 {
        return None;
    }
    let mut out: Vec<u8> = Vec::new();
    let mut i: usize = 0;
    while i < 32
        invariant
            i <= 32,
            chars@ == value@,
            chars@.len() == 64,
            out@.len() == i,
            forall|k: int| 0 <= k < 2 * i ==> text::hex_value(#[trigger] value@[k]) is Some,
            forall|k: int|
                0 <= k < i ==> #[trigger] out@[k] == (text::hex_value(value@[2 * k])->0 * 16
                    + text::hex_value(value@[2 * k + 1])->0) as u8,
        decreases 32 - i,
    {
        let high: u8 = match text::hex_digit_value(chars[2 * i]) {
            Some(high) => high,
            None => {
                assert(text::hex_value(value@[2 * i as int]) is None);
                return None;
            },
        };
        let low: u8 = match text::hex_digit_value(chars[2 * i + 1]) {
            Some(low) => low,
            None => {
                assert(text::hex_value(value@[2 * i as int + 1]) is None);
                return None;
            },
        };
        out.push(high * 16 + low);
        i = i + 1;
    }
    assert(out@ =~= decoded_id(value@)->0);
    Some(out)
}

/// An id decodes from its own text.
pub proof fn id_text_decodes(id: Seq<u8>)
    requires
        id.len() == 32,
    ensures
        decoded_id(text::hex_of(id)) == Some(id),
{
    let s = text::hex_of(id);
    assert forall|i: int| 0 <= i < 64 implies text::hex_value(#[trigger] s[i]) is Some by {
        assert(id[i / 2] / 16 < 16 && id[i / 2] % 16 < 16);
    }
    assert forall|i: int| 0 <= i < 32 implies decoded_id(s)->0[i] == id[i] by {
        assert((2 * i) / 2 == i && (2 * i + 1) / 2 == i);
        assert((2 * i) % 2 == 0 && (2 * i + 1) % 2 == 1);
        assert(text::hex_value(s[2 * i]) == Some((id[i] / 16) as nat));
        assert(text::hex_value(s[2 * i + 1]) == Some((id[i] % 16) as nat));
        assert((id[i] / 16) * 16 + id[i] % 16 == id[i]);
    }
    assert(decoded_id(s)->0 =~= id);
}

/// The scope of a cell of a class: the class and the id's text.
pub open spec fn scope_of(class: Seq<char>, namespace_key: Seq<char>, name: Seq<char>) -> Seq<char> {
    class + ":"@ + text::hex_of(id_for_name(namespace_key, name))
}

fn cell_scope(cache: &mut DoIdCache, class: &str, namespace_key: &str, name: &str) -> (r: String)
    requires
        old(cache).wf(),
    ensures
        final(cache).wf(),
        r@ == scope_of(class@, namespace_key@, name@),
{
    let id = durable_object_id_for_name(cache, namespace_key, name);
    let hex = durable_object_id_hex(&id);
    text::join3(class, ":", hex.as_str())
}

/// The scope a D1 database lives at.
pub fn d1_cell_scope(cache: &mut DoIdCache, database_identity: &str) -> (r: String)
    requires
        old(cache).wf(),
    ensures
        final(cache).wf(),
        r@ == scope_of(D1_CLASS@, D1_NAMESPACE_KEY@, database_identity@),
{
    cell_scope(cache, D1_CLASS, D1_NAMESPACE_KEY, database_identity)
}

/// The scope a shard of a KV namespace lives at, by the shard's cell name.
pub fn kv_cell_scope(cache: &mut DoIdCache, cell_name: &str) -> (r: String)
    requires
        old(cache).wf(),
    ensures
        final(cache).wf(),
        r@ == scope_of(KV_CLASS@, KV_NAMESPACE_KEY@, cell_name@),
{
    cell_scope(cache, KV_CLASS, KV_NAMESPACE_KEY, cell_name)
}

/// The scope a queue's broker lives at, by the queue's cell name.
pub fn queue_cell_scope(cache: &mut DoIdCache, cell_name: &str) -> (r: String)
    requires
        old(cache).wf(),
    ensures
        final(cache).wf(),
        r@ == scope_of(QUEUE_CLASS@, QUEUE_NAMESPACE_KEY@, cell_name@),
{
    cell_scope(cache, QUEUE_CLASS, QUEUE_NAMESPACE_KEY, cell_name)
}

/// The scope a workflow's instance lives at, by the class of the script's
/// workflows.
pub fn workflow_cell_scope_for_test(
    cache: &mut DoIdCache,
    script_name: &str,
    class: &str,
    workflow_name: &str,
    instance_id: &str,
) -> (r: String)
    requires
        old(cache).wf(),
    ensures
        final(cache).wf(),
        r@ == scope_of(
            class@,
            namespace_key_of(script_name@, class@),
            workflow_name@ + "/"@ + instance_id@,
        ),
{
    let namespace = namespace_key(script_name, class);
    let name = text::join3(workflow_name, "/", instance_id);
    cell_scope(cache, class, namespace.as_str(), name.as_str())
}

proof fn lemma_longer_encoding(a: Seq<char>, b: Seq<char>)
    requires
        a.len() <= b.len(),
        b.take(a.len() as int) == a,
    ensures
        vstd::utf8::encode_utf8(a).len() <= vstd::utf8::encode_utf8(b).len(),
        a.len() < b.len() ==> vstd::utf8::encode_utf8(a).len() < vstd::utf8::encode_utf8(b).len(),
    decreases a.len(),
{
    if a.len() > 0 {
        assert(b.drop_first().take(a.drop_first().len() as int) =~= a.drop_first());
        assert(a[0] == b[0]);
        lemma_longer_encoding(a.drop_first(), b.drop_first());
    }
}

/// Two rows of digits that end at the first colon of one text are the same.
proof fn lemma_first_colon(a: Seq<char>, b: Seq<char>, x: Seq<char>, y: Seq<char>)
    requires
        text::all_digits(a),
        text::all_digits(b),
        a + ":"@ + x == b + ":"@ + y,
    ensures
        a == b,
        x == y,
{
    reveal_strlit(":");
    let s = a + ":"@ + x;
    let t = b + ":"@ + y;
    if a.len() < b.len() {
        assert(s[a.len() as int] == ':');
        assert(t[a.len() as int] == b[a.len() as int]);
        assert(text::is_digit(b[a.len() as int]));
    }
    if b.len() < a.len() {
        assert(t[b.len() as int] == ':');
        assert(s[b.len() as int] == a[b.len() as int]);
        assert(text::is_digit(a[b.len() as int]));
    }
    assert(s.take(a.len() as int) =~= a);
    assert(t.take(b.len() as int) =~= b);
    assert(s.skip(a.len() as int + 1) =~= x);
    assert(t.skip(b.len() as int + 1) =~= y);
}

/// A class that is not shared has cells of its own in each script: different
/// scripts or classes never derive their ids from one key.
pub proof fn namespaces_are_apart(
    script_a: Seq<char>,
    class_a: Seq<char>,
    script_b: Seq<char>,
    class_b: Seq<char>,
)
    requires
        shared_key(class_a) is None,
        shared_key(class_b) is None,
        namespace_key_of(script_a, class_a) == namespace_key_of(script_b, class_b),
    ensures
        script_a == script_b,
        class_a == class_b,
{
    reveal_strlit("cells:v1:");
    reveal_strlit(":");
    let na = vstd::utf8::encode_utf8(script_a).len();
    let nb = vstd::utf8::encode_utf8(script_b).len();
    text::lemma_decimal(na);
    text::lemma_decimal(nb);
    let ka = namespace_key_of(script_a, class_a);
    let kb = namespace_key_of(script_b, class_b);
    let ra = text::decimal(na) + ":"@ + (script_a + ":"@ + class_a);
    let rb = text::decimal(nb) + ":"@ + (script_b + ":"@ + class_b);
    let head = "cells:v1:"@.len() as int;
    assert(ka.skip(head) =~= ra);
    assert(kb.skip(head) =~= rb);
    lemma_first_colon(
        text::decimal(na),
        text::decimal(nb),
        script_a + ":"@ + class_a,
        script_b + ":"@ + class_b,
    );
    assert(na == nb);
    let s = script_a + ":"@ + class_a;
    let t = script_b + ":"@ + class_b;
    if script_a.len() <= script_b.len() {
        assert(script_b.take(script_a.len() as int) =~= t.take(script_a.len() as int));
        assert(s.take(script_a.len() as int) =~= script_a);
        lemma_longer_encoding(script_a, script_b);
    } else {
        assert(script_a.take(script_b.len() as int) =~= s.take(script_b.len() as int));
        assert(t.take(script_b.len() as int) =~= script_b);
        lemma_longer_encoding(script_b, script_a);
    }
    assert(s.take(script_a.len() as int) =~= script_a);
    assert(t.take(script_b.len() as int) =~= script_b);
    assert(s.skip(script_a.len() as int + 1) =~= class_a);
    assert(t.skip(script_b.len() as int + 1) =~= class_b);
}

/// The replication stream of a facet: one level under its root for each name
/// of its path.
pub open spec fn facet_of(root: Seq<char>, names: Seq<Seq<char>>) -> Seq<char>
    decreases names.len(),
{
    if names.len() == 0 {
        root
    } else {
        facet_of(root, names.drop_last()) + "/facets/"@ + text::hex_of(
            digests::digest_of(
                digests::Algorithm::Sha256,
                vstd::utf8::encode_utf8(names.last()),
            ).take(16),
        )
    }
}

pub fn facet_cell(root: &str, names: &Vec<String>) -> (r: String)
    ensures
        r@ == facet_of(root@, text::texts(names@)),
{
    let mut cell = String::from_str(root);
    let mut i: usize = 0;
    let ghost all = text::texts(names@);
    assert(all.take(0) =~= Seq::empty());
    while i < names.len()
        invariant
            i <= names.len(),
            all == text::texts(names@),
            cell@ == facet_of(root@, all.take(i as int)),
        decreases names.len() - i,
    {
        proof {
            assert(all.take(i as int + 1).drop_last() =~= all.take(i as int));
            assert(all.take(i as int + 1).last() == names@[i as int]@);
        }
        let digest = digests::sha256(names[i].as_str().as_bytes());
        let half = first_half(&digest);
        cell.append("/facets/");
        cell.append(text::hex_text(half.as_slice()).as_str());
        i = i + 1;
    }
    assert(all.take(i as int) =~= all);
    cell
}

/// A facet lies below every facet on its path: the stream of a longer path
/// begins with that of the shorter one and a slash.
pub proof fn facets_nest(root: Seq<char>, names: Seq<Seq<char>>, n: int)
    requires
        0 <= n < names.len(),
    ensures
        text::has_prefix(facet_of(root, names), facet_of(root, names.take(n)) + "/"@),
    decreases names.len(),
{
    reveal_strlit("/facets/");
    reveal_strlit("/");
    let whole = facet_of(root, names);
    let above = facet_of(root, names.drop_last());
    if n == names.len() - 1 {
        assert(names.take(n) =~= names.drop_last());
        assert(whole.subrange(0, above.len() as int + 1) =~= above + "/"@);
    } else {
        assert(names.drop_last().take(n) =~= names.take(n));
        facets_nest(root, names.drop_last(), n);
        let prefix = facet_of(root, names.take(n)) + "/"@;
        assert(whole.subrange(0, prefix.len() as int) =~= above.subrange(0, prefix.len() as int));
    }
}

// ---- queues --------------------------------------------------------------

/// How a producer encoded a message body.
#[derive(Clone, Copy, Debug, PartialEq, Eq, Structural)]
pub enum QueueContentType {
    Text,
    Bytes,
    Json,
    V8,
}

impl QueueContentType {
    pub open spec fn name(self) -> Seq<char> {
        match self {
            QueueContentType::Text => "text"@,
            QueueContentType::Bytes => "bytes"@,
            QueueContentType::Json => "json"@,
            QueueContentType::V8 => "v8"@,
        }
    }

    pub fn as_str(self) -> (r: &'static str)
        ensures
            r@ == self.name(),
    {
        match self {
            QueueContentType::Text => "text",
            QueueContentType::Bytes => "bytes",
            QueueContentType::Json => "json",
            QueueContentType::V8 => "v8",
        }
    }

    /// What a name stands for.
    pub open spec fn named(name: Seq<char>) -> Option<QueueContentType> {
        if name == "text"@ {
            Some(QueueContentType::Text)
        } else if name == "bytes"@ {
            Some(QueueContentType::Bytes)
        } else if name == "json"@ {
            Some(QueueContentType::Json)
        } else if name == "v8"@ {
            Some(QueueContentType::V8)
        } else {
            None
        }
    }

    /// Reads the name of a content type.
    pub fn from_name(name: &str) -> (r: Option<QueueContentType>)
        ensures
            r == Self::named(name@),
    {
        if text::same(name, "text") {
            Some(QueueContentType::Text)
        } else if text::same(name, "bytes") {
            Some(QueueContentType::Bytes)
        } else if text::same(name, "json") {
            Some(QueueContentType::Json)
        } else if text::same(name, "v8") {
            Some(QueueContentType::V8)
        } else {
            None
        }
    }
}

/// A content type reads back from its name.
pub proof fn content_type_reads_back(content_type: QueueContentType)
    ensures
        QueueContentType::named(content_type.name()) == Some(content_type),
{
    reveal_strlit("text");
    reveal_strlit("bytes");
    reveal_strlit("json");
    reveal_strlit("v8");
    assert("text"@.len() == 4 && "bytes"@.len() == 5 && "json"@.len() == 4 && "v8"@.len() == 2);
    assert("text"@[0] == 't' && "json"@[0] == 'j');
}

/// A content type has the name that its senders write, and no other name is
/// one.
pub proof fn content_types_are_named(name: Seq<char>)
    ensures
        QueueContentType::named(name) == Some(QueueContentType::Text) <==> name == "text"@,
        QueueContentType::named(name) == Some(QueueContentType::Bytes) <==> name == "bytes"@,
        QueueContentType::named(name) == Some(QueueContentType::Json) <==> name == "json"@,
        QueueContentType::named(name) == Some(QueueContentType::V8) <==> name == "v8"@,
{
    content_type_reads_back(QueueContentType::Text);
    content_type_reads_back(QueueContentType::Bytes);
    content_type_reads_back(QueueContentType::Json);
    content_type_reads_back(QueueContentType::V8);
}

/// One message handed from a queue to its consumer.
pub struct QueueMessage {
    pub id: String,
    pub timestamp_ms: i64,
    pub body: Vec<u8>,
    pub content_type: QueueContentType,
    pub attempts: u16,
}

/// One leased batch; what a queue measured of itself stays open (`M`).
pub struct QueueBatch<M> {
    pub queue: String,
    pub messages: Vec<QueueMessage>,
    pub metrics: M,
}

/// The retry of a whole batch that a handler asked for.
pub struct QueueRetryBatch {
    pub retry: bool,
    pub delay_seconds: Option<i32>,
}

/// The retry of one message that a handler asked for.
pub struct QueueRetryMessage {
    pub msg_id: String,
    pub delay_seconds: Option<i32>,
}

/// How a queue handler itself completed.
#[derive(Clone, Copy, Debug, PartialEq, Eq, Structural)]
pub enum QueueOutcome {
    Completed,
    Exception,
}

/// A handler's outcome and the settlements it made before.
pub struct QueueDispatchResult {
    pub outcome: QueueOutcome,
    pub error: Option<String>,
    pub ack_all: bool,
    pub retry_batch: QueueRetryBatch,
    pub explicit_acks: Vec<String>,
    pub retry_messages: Vec<QueueRetryMessage>,
}

// ---- admission -----------------------------------------------------------

/// An event that was refused before application code started.
pub struct CellOverloaded;

/// The promise boundary keeps an error's words only; this mark keeps other
/// words from passing for a refusal.
pub const CELL_OVERLOAD_ERROR_MARKER: &'static str =
    "celld-internal-cell-overload-7ec38c64-12d7-4ddc-9e77-b63f9dc14130";

impl CellOverloaded {
    pub fn message(&self) -> (r: String)
        ensures
            r@ == "cell overload: admission refused ("@ + CELL_OVERLOAD_ERROR_MARKER@ + ")"@,
    {
        text::join3("cell overload: admission refused (", CELL_OVERLOAD_ERROR_MARKER, ")")
    }
}

/// Why the policy refuses a request.
#[derive(Clone, Copy, Debug, PartialEq, Eq, Structural)]
pub enum Refusal {
    NodeFull,
    NodePressured,
}

/// Refused by policy, which a caller may retry elsewhere, or a fault.
pub enum AdmitError {
    Refused(Refusal),
    Build(String),
}

impl AdmitError {
    pub fn message(&self) -> (r: String)
        ensures
            r@ == (match self {
                AdmitError::Refused(Refusal::NodeFull) =>
                "node is at its stateless request limit"@,
                AdmitError::Refused(Refusal::NodePressured) => "node is shedding load"@,
                AdmitError::Build(error) => "isolate could not be started: "@ + error@,
            }),
    {
        match self {
            AdmitError::Refused(Refusal::NodeFull) => String::from_str(
                "node is at its stateless request limit",
            ),
            AdmitError::Refused(Refusal::NodePressured) => String::from_str(
                "node is shedding load",
            ),
            AdmitError::Build(error) => text::join(
                "isolate could not be started: ",
                error.as_str(),
            ),
        }
    }
}

/// How many milliseconds a request may wait for a free slot: as configured,
/// where zero refuses at once, or one second.
pub fn admission_wait(configured: Option<u64>) -> (r: u64)
    ensures
        r == (match configured {
            Some(ms) => ms,
            None => 1000,
        }),
{
    match configured {
        Some(ms) => ms,
        None => 1000,
    }
}

/// How many seconds a handler may run, once that is settled for the process.
pub struct HandlerBudget {
    pub seconds: Option<u64>,
}

/// The budget: the one that was settled, or else as configured, or five
/// minutes.
pub open spec fn budget_of(settled: Option<u64>, configured: Option<u64>) -> u64 {
    match settled {
        Some(seconds) => seconds,
        None => match configured {
            Some(seconds) => seconds,
            None => 300,
        },
    }
}

impl HandlerBudget {
    pub fn new() -> (r: Self)
        ensures
            r.seconds is None,
    {
        HandlerBudget { seconds: None }
    }
}

/// How many seconds a handler may run. The first answer is kept.
pub fn handler_budget(budget: &mut HandlerBudget, configured: Option<u64>) -> (r: u64)
    requires
        old(budget).seconds is None ==> configured != Some(0u64),
    ensures
        r == budget_of(old(budget).seconds, configured),
        final(budget).seconds == Some(r),
{
    let seconds: u64 = match budget.seconds {
        Some(seconds) => seconds,
        None => match configured {
            Some(seconds) => seconds,
            None => 300,
        },
    };
    budget.seconds = Some(seconds);
    seconds
}

/// The first answer stands for the process, whatever is configured later.
pub proof fn first_budget_stands(settled: Option<u64>, first: Option<u64>, later: Option<u64>)
    ensures
        budget_of(Some(budget_of(settled, first)), later) == budget_of(settled, first),
{
}

/// A count of releases that are made to fail.
pub struct InjectedFailures {
    pub remaining: i64,
}

/// Whether the next release of a generation swap fails; each call spends one.
pub fn injected_swap_release_failure(failures: &mut InjectedFailures) -> (r: bool)
    ensures
        r == (old(failures).remaining > 0),
        final(failures).remaining == (if old(failures).remaining == i64::MIN {
            i64::MAX
        } else {
            (old(failures).remaining - 1) as i64
        }),
{
    let was = failures.remaining;
    failures.remaining = if was == i64::MIN {
        i64::MAX
    } else {
        was - 1
    };
    was > 0
}

// ---- configuration -------------------------------------------------------

/// Per-worker compatibility switches, all off unless a deployment says so.
#[derive(Clone, Copy, Debug, PartialEq, Eq, Structural)]
pub struct Compat {
    pub delete_all_deletes_alarm: bool,
    pub js_rpc: bool,
    pub fetcher_get_put_delete: bool,
    pub sqlite_vec: bool,
    pub websocket_standard_binary_type: bool,
    pub queue_json_messages: bool,
}

impl Default for Compat {
    fn default() -> (r: Self)
        ensures
            r == (Compat {
                delete_all_deletes_alarm: false,
                js_rpc: false,
                fetcher_get_put_delete: false,
                sqlite_vec: false,
                websocket_standard_binary_type: false,
                queue_json_messages: false,
            }),
    {
        Compat {
            delete_all_deletes_alarm: false,
            js_rpc: false,
            fetcher_get_put_delete: false,
            sqlite_vec: false,
            websocket_standard_binary_type: false,
            queue_json_messages: false,
        }
    }
}

/// A workflow binding keeps its three names apart.
pub struct WorkflowBinding {
    pub environment: String,
    pub workflow: String,
    pub class: String,
}

/// One queue producer binding of a Worker.
pub struct QueueBinding {
    pub environment: String,
    pub queue: String,
    pub delivery_delay: u32,
}

/// One pool's isolates by state.
#[derive(Clone, Copy, Debug, PartialEq, Eq, Structural)]
pub struct PoolCensus {
    pub live: usize,
    pub live_empty: usize,
    pub retiring: usize,
    pub freed: usize,
    pub cells: usize,
    pub requests: usize,
    pub turns: usize,
    pub heap_bytes: u64,
    pub external_bytes: u64,
}

/// A request id holds the process's prefix and its count, and both can be read
/// from it.
pub proof fn request_ids_hold_both_parts(prefix: u64, sequence: u64)
    ensures
        id_of(prefix, sequence) / 0x1_0000_0000_0000_0000 == prefix,
        id_of(prefix, sequence) % 0x1_0000_0000_0000_0000 == sequence,
{
}

/// The classes that the whole fleet shares are the databases', the key-value
/// namespaces' and the queues'. Each has one key, whatever the script, which
/// ends with the class; no script's own class has that key.
pub proof fn shared_classes_have_one_key(
    class: Seq<char>,
    script: Seq<char>,
    other_script: Seq<char>,
    other_class: Seq<char>,
)
    requires
        shared_key(class) is Some,
    ensures
        class == "__D1Database"@ || class == "__KvNamespace"@ || class == "__Queue"@,
        namespace_key_of(script, class) == namespace_key_of(other_script, class),
        ({
            let key = namespace_key_of(script, class);
            &&& key.len() > class.len()
            &&& key.skip(key.len() - class.len()) == class
            &&& key[key.len() - class.len() - 1] == ':'
        }),
        shared_key(other_class) is None ==> namespace_key_of(other_script, other_class)
            != namespace_key_of(script, class),
{
    reveal_strlit("__D1Database");
    reveal_strlit("__KvNamespace");
    reveal_strlit("__Queue");
    reveal_strlit("cells:v1:d1:__D1Database");
    reveal_strlit("cells:v1:kv:__KvNamespace");
    reveal_strlit("cells:v1:queue:__Queue");
    reveal_strlit("cells:v1:");
    let key = namespace_key_of(script, class);
    assert(key.skip(key.len() - class.len()) =~= class);
    if shared_key(other_class) is None {
        let count = vstd::utf8::encode_utf8(other_script).len();
        text::lemma_decimal(count);
        let own = namespace_key_of(other_script, other_class);
        assert(own[9] == text::decimal(count)[0]);
        assert(text::is_digit(own[9]));
        assert(key[9] == 'd' || key[9] == 'k' || key[9] == 'q');
    }
}

/// The shared classes are shared.
pub proof fn shared_classes_are_shared(class: Seq<char>)
    ensures
        shared_key(class) is Some <==> class == "__D1Database"@ || class == "__KvNamespace"@ || class
            == "__Queue"@,
{
}

/// A cell's scope is its class and its id: the id reads back from what follows
/// the class.
pub proof fn scopes_hold_the_id(class: Seq<char>, namespace_key: Seq<char>, name: Seq<char>)
    ensures
        ({
            let scope = scope_of(class, namespace_key, name);
            let id = id_for_name(namespace_key, name);
            &&& text::has_prefix(scope, class + ":"@)
            &&& id.len() == 32 ==> decoded_id(scope.skip(class.len() as int + 1)) == Some(id)
        }),
{
    reveal_strlit(":");
    let id = id_for_name(namespace_key, name);
    let scope = scope_of(class, namespace_key, name);
    assert(scope.subrange(0, class.len() as int + 1) =~= class + ":"@);
    assert(scope.skip(class.len() as int + 1) =~= text::hex_of(id));
    if id.len() == 32 {
        id_text_decodes(id);
    }
}

/// An id vouches for itself: whoever has the namespace's key can tell from its
/// first half what its second half must be.
pub proof fn ids_vouch_for_themselves(namespace_key: Seq<char>, name: Seq<char>)
    ensures
        ({
            let key = digests::digest_of(
                digests::Algorithm::Sha256,
                vstd::utf8::encode_utf8(namespace_key),
            );
            let id = id_for_name(namespace_key, name);
            digests::hmac_of(key, vstd::utf8::encode_utf8(name)).len() >= 16 ==> {
                &&& id.take(16) == digests::hmac_of(key, vstd::utf8::encode_utf8(name)).take(16)
                &&& id.skip(16) == digests::hmac_of(key, id.take(16)).take(16)
            }
        }),
{
    let key = digests::digest_of(
        digests::Algorithm::Sha256,
        vstd::utf8::encode_utf8(namespace_key),
    );
    let id = id_for_name(namespace_key, name);
    let whole = digests::hmac_of(key, vstd::utf8::encode_utf8(name));
    if whole.len() >= 16 {
        assert(id.take(16) =~= whole.take(16));
        assert(id.skip(16) =~= digests::hmac_of(key, whole.take(16)).take(16));
    }
}

/// A handler may run for as long as was settled first; where nothing was, as
/// configured, and five minutes where nothing is.
pub proof fn budgets_are_settled_or_configured(settled: Option<u64>, configured: Option<u64>)
    ensures
        settled matches Some(seconds) ==> budget_of(settled, configured) == seconds,
        settled is None && configured is Some ==> budget_of(settled, configured)
            == configured->Some_0,
        settled is None && configured is None ==> budget_of(settled, configured) == 5 * 60,
{
}

} // verus!
