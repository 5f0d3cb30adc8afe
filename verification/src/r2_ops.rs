//! What a worker asks of R2: reads, writes, and uploads in numbered parts.
use vstd::prelude::*;
#[allow(unused_imports)]
use vstd::string::*;

use crate::http_streams::HTTP_STREAM_REGISTRATION_CLOSED;
use crate::json;
#[allow(unused_imports)]
use crate::json::{Json, JsonView};
use crate::maps::IdMap;
use crate::r2_store;
#[allow(unused_imports)]
use crate::r2_store::{BlobMeta, Envelope, EnvelopeView, PutRequest};
use crate::text;

verus! {

/// For how many milliseconds nobody touches a write before it is given up.
pub const IDLE_MS: u64 = 3600000;

/// How many bytes of parts may wait for the parts in front of them.
pub const PART_BACKLOG: usize = 268435456;

// ---- what a worker hands over --------------------------------------------

/// The number of a write from what a worker hands over: anything but a natural
/// number is none.
pub fn handle(value: Option<i64>) -> (r: u64)
    ensures
        r == (match value {
            Some(n) if n > 0 => n as int,
            _ => 0int,
        }),
{
    match value {
        Some(n) => if n > 0 {
            n as u64
        } else {
            0
        },
        None => 0,
    }
}

/// The number of a part from what a worker hands over: its last 32 bits.
pub fn part_number(value: Option<i64>) -> (r: u32)
    ensures
        r == (match value {
            Some(n) if n > 0 => n as int % 4294967296,
            _ => 0int,
        }),
{
    (handle(value) % 4294967296) as u32
}

/// The body of a write, which must be bytes.
pub fn put_body(bytes: Option<Vec<u8>>) -> (r: Result<Vec<u8>, String>)
    ensures
        match bytes {
            Some(bytes) => r == Ok::<Vec<u8>, String>(bytes),
            None => r is Err && r->Err_0@ == "R2 put: the body must be an ArrayBuffer view"@,
        },
{
    match bytes {
        Some(bytes) => Ok(bytes),
        None => Err(String::from_str("R2 put: the body must be an ArrayBuffer view")),
    }
}

/// A piece of a body, which must be bytes.
pub fn put_chunk(bytes: Option<Vec<u8>>) -> (r: Result<Vec<u8>, String>)
    ensures
        match bytes {
            Some(bytes) => r == Ok::<Vec<u8>, String>(bytes),
            None => r is Err && r->Err_0@ == "R2 put: a body chunk must be an ArrayBuffer view"@,
        },
{
    match bytes {
        Some(bytes) => Ok(bytes),
        None => Err(String::from_str("R2 put: a body chunk must be an ArrayBuffer view")),
    }
}

/// A part of an upload, which must be bytes.
pub fn part_body(upload_id: u64, number: u32, bytes: Option<Vec<u8>>) -> (r: Result<
    Vec<u8>,
    String,
>)
    ensures
        match bytes {
            Some(bytes) => r == Ok::<Vec<u8>, String>(bytes),
            None => r is Err && r->Err_0@ == "R2 multipart part "@ + text::decimal(number as nat)
                + " of upload "@ + text::decimal(upload_id as nat)
                + " must be an ArrayBuffer view"@,
        },
{
    match bytes {
        Some(bytes) => Ok(bytes),
        None => {
            let mut error = text::join3(
                "R2 multipart part ",
                text::decimal_text(number as u64).as_str(),
                " of upload ",
            );
            error.append(text::decimal_text(upload_id).as_str());
            error.append(" must be an ArrayBuffer view");
            Err(error)
        },
    }
}

/// The error of options that cannot be read. `what` says whose they are.
pub fn invalid(what: &str, error: &str) -> (r: String)
    ensures
        r@ == "invalid R2 "@ + what@ + ": "@ + error@,
{
    let mut r = text::join3("invalid R2 ", what, ": ");
    r.append(error);
    r
}

/// Where the objects lie that a worker lists to be deleted.
pub fn delete_list(bucket_name: &str, keys: &str) -> (r: Result<Vec<String>, String>)
    ensures
        match json::parsed_texts(keys@) {
            Ok(list) => {
                &&& r is Ok
                &&& r->Ok_0@.len() == list.len()
                &&& forall|i: int|
                    0 <= i < list.len() ==> (#[trigger] r->Ok_0@[i])@ == "r2/"@ + bucket_name@ + "/"@
                        + list[i]
            },
            Err(error) => r is Err && r->Err_0@ == "invalid R2 "@ + "delete key list"@ + ": "@
                + error,
        },
{
    match json::parse_texts(keys) {
        Ok(keys) => {
            let r = r2_store::delete_keys(bucket_name, &keys);
            assert forall|i: int| 0 <= i < r@.len() implies (#[trigger] r@[i])@ == "r2/"@
                + bucket_name@ + "/"@ + text::texts(keys@)[i] by {
                assert(text::texts(keys@)[i] == keys@[i]@);
            }
            Ok(r)
        },
        Err(error) => Err(invalid("delete key list", error.as_str())),
    }
}

/// The parts that a worker names for a completion.
pub fn claimed_parts(claimed: &str) -> (r: Result<Vec<u32>, String>)
    ensures
        match json::parsed_numbers(claimed@) {
            Ok(numbers) => r is Ok && r->Ok_0@ == numbers,
            Err(error) => r is Err && r->Err_0@ == "invalid R2 "@ + "multipart part list"@ + ": "@
                + error,
        },
{
    match json::parse_numbers(claimed) {
        Ok(numbers) => Ok(numbers),
        Err(error) => Err(invalid("multipart part list", error.as_str())),
    }
}

/// The error of a streaming write that is not open.
pub fn put_not_open(put_id: u64) -> (r: String)
    ensures
        r@ == "R2 streaming write "@ + text::decimal(put_id as nat) + " is not open"@,
{
    text::join3("R2 streaming write ", text::decimal_text(put_id).as_str(), " is not open")
}

/// The error of an upload that is not open.
pub fn upload_not_open(upload_id: u64) -> (r: String)
    ensures
        r@ == "R2 multipart upload "@ + text::decimal(upload_id as nat) + " is not open"@,
{
    text::join3("R2 multipart upload ", text::decimal_text(upload_id).as_str(), " is not open")
}

/// The error of an upload that the bucket did not complete or abort. `what`
/// says which.
pub fn upload_failed(what: &str, upload_id: u64, error: &str) -> (r: String)
    ensures
        r@ == "R2 multipart "@ + what@ + " of upload "@ + text::decimal(upload_id as nat) + ": "@
            + error@,
{
    let mut r = text::join3("R2 multipart ", what, " of upload ");
    r.append(text::decimal_text(upload_id).as_str());
    r.append(": ");
    r.append(error);
    r
}

// ---- what a worker is answered -------------------------------------------

/// What the bucket found of an object.
pub enum BlobRead {
    Missing,
    /// It is there, and not what was asked for.
    Unmet { meta: BlobMeta, envelope: Envelope },
    /// It is there. `stream_id` is the stream that its bytes are read from,
    /// where one could be registered.
    Hit { meta: BlobMeta, envelope: Envelope, range: (u64, u64), stream_id: Option<u64> },
}

/// What a look at an object is answered.
pub open spec fn head_view(object: Option<JsonView>) -> JsonView {
    match object {
        None => JsonView::Object(seq![("state"@, JsonView::Text("miss"@))]),
        Some(object) => JsonView::Object(
            seq![("state"@, JsonView::Text("hit"@)), ("object"@, object)],
        ),
    }
}

/// What a look at an object is answered.
pub fn head_reply(key: &str, found: Option<(&BlobMeta, &Envelope)>) -> (r: String)
    ensures
        r@ == json::printed_json(
            head_view(
                match found {
                    None => None,
                    Some((meta, envelope)) => Some(
                        r2_store::object_view(key@, *meta, envelope@, None),
                    ),
                },
            ),
        ),
{
    let mut members = json::Members::new();
    match found {
        None => {
            members.put("state", json::string("miss"));
            assert(members@ =~= head_view(None)->Object_0);
        },
        Some((meta, envelope)) => {
            members.put("state", json::string("hit"));
            members.put("object", r2_store::object_json(key, meta, envelope, None));
            assert(members@ =~= head_view(
                Some(r2_store::object_view(key@, *meta, envelope@, None)),
            )->Object_0);
        },
    }
    json::json_text(&members.object())
}

/// What a read of an object is answered, or its error where its bytes cannot
/// be streamed.
pub open spec fn get_view(key: Seq<char>, read: BlobRead) -> Result<JsonView, Seq<char>> {
    match read {
        BlobRead::Missing => Ok(head_view(None)),
        BlobRead::Unmet { meta, envelope } => Ok(
            JsonView::Object(
                seq![
                    ("state"@, JsonView::Text("unmet"@)),
                    ("object"@, r2_store::object_view(key, meta, envelope@, None)),
                ],
            ),
        ),
        BlobRead::Hit { meta, envelope, range, stream_id } => match stream_id {
            None => Err("R2 get: "@ + HTTP_STREAM_REGISTRATION_CLOSED@),
            Some(stream_id) => Ok(
                JsonView::Object(
                    seq![
                        ("state"@, JsonView::Text("hit"@)),
                        ("object"@, r2_store::object_view(key, meta, envelope@, Some(range))),
                        ("streamId"@, json::number(stream_id as int)),
                    ],
                ),
            ),
        },
    }
}

/// What a read of an object is answered.
pub fn get_reply(key: &str, read: &BlobRead) -> (r: Result<String, String>)
    ensures
        match get_view(key@, *read) {
            Ok(view) => r is Ok && r->Ok_0@ == json::printed_json(view),
            Err(error) => r is Err && r->Err_0@ == error,
        },
{
    let mut members = json::Members::new();
    match read {
        BlobRead::Missing => {
            return Ok(head_reply(key, None));
        },
        BlobRead::Unmet { meta, envelope } => {
            members.put("state", json::string("unmet"));
            members.put("object", r2_store::object_json(key, meta, envelope, None));
        },
        BlobRead::Hit { meta, envelope, range, stream_id } => match stream_id {
            None => {
                return Err(text::join("R2 get: ", HTTP_STREAM_REGISTRATION_CLOSED));
            },
            Some(stream_id) => {
                members.put("state", json::string("hit"));
                members.put("object", r2_store::object_json(key, meta, envelope, Some(*range)));
                members.put("streamId", json::unsigned(*stream_id));
            },
        },
    }
    assert(members@ =~= get_view(key@, *read)->Ok_0->Object_0);
    Ok(json::json_text(&members.object()))
}

/// A look at an object and a read of it are answered with how it stands: it is
/// missing, or is there with its metadata, or, of a read, is there and not what
/// was asked for. A read of one that is there says which part of it is read
/// and by which stream, and fails where there is none.
pub proof fn reads_are_answered(key: Seq<char>, read: BlobRead, object: Option<JsonView>)
    ensures
        head_view(object).member("state"@) == Some(
            JsonView::Text(
                if object is Some {
                    "hit"@
                } else {
                    "miss"@
                },
            ),
        ),
        head_view(object).member("object"@) == object,
        get_view(key, read) is Err <==> (read matches BlobRead::Hit { stream_id, .. } && stream_id
            is None),
        get_view(key, read) matches Ok(answer) ==> match read {
            BlobRead::Missing => {
                &&& answer.member("state"@) == Some(JsonView::Text("miss"@))
                &&& answer.member("object"@) is None
                &&& answer.member("streamId"@) is None
            },
            BlobRead::Unmet { meta, envelope } => {
                &&& answer.member("state"@) == Some(JsonView::Text("unmet"@))
                &&& answer.member("object"@) == Some(
                    r2_store::object_view(key, meta, envelope@, None),
                )
                &&& answer.member("streamId"@) is None
            },
            BlobRead::Hit { meta, envelope, range, stream_id } => {
                &&& answer.member("state"@) == Some(JsonView::Text("hit"@))
                &&& answer.member("object"@) == Some(
                    r2_store::object_view(key, meta, envelope@, Some(range)),
                )
                &&& stream_id matches Some(id)
                &&& answer.member("streamId"@) == Some(json::number(id as int))
            },
        },
{
    reveal_strlit("state");
    reveal_strlit("object");
    reveal_strlit("streamId");
    assert("state"@.len() == 5 && "object"@.len() == 6 && "streamId"@.len() == 8);
    let looked = head_view(object)->Object_0;
    json::a_member_is_found(looked, 0);
    if object is Some {
        json::a_member_is_found(looked, 1);
    } else {
        json::no_member_is_made_up(looked, "object"@);
    }
    if let Ok(answer) = get_view(key, read) {
        let members = answer->Object_0;
        json::a_member_is_found(members, 0);
        match read {
            BlobRead::Missing => {
                json::no_member_is_made_up(members, "object"@);
                json::no_member_is_made_up(members, "streamId"@);
            },
            BlobRead::Unmet { meta, envelope } => {
                json::a_member_is_found(members, 1);
                json::no_member_is_made_up(members, "streamId"@);
            },
            BlobRead::Hit { meta, envelope, range, stream_id } => {
                json::a_member_is_found(members, 1);
                json::a_member_is_found(members, 2);
            },
        }
    }
}

/// What a part of an upload is answered.
pub fn part_reply(number: u32) -> (r: String)
    ensures
        r@ == json::printed_json(
            JsonView::Object(seq![("partNumber"@, json::number(number as int))]),
        ),
{
    let mut members = json::Members::new();
    members.put("partNumber", json::unsigned(number as u64));
    assert(members@ =~= seq![("partNumber"@, json::number(number as int))]);
    json::json_text(&members.object())
}

// ---- idle writes ---------------------------------------------------------

/// Whether nobody touched a write for too long.
pub open spec fn idle(touched: u64, now: u64) -> bool {
    now - touched >= IDLE_MS
}

/// A write that may be given up: its number, whether nobody works on it just
/// now, and when it was last touched.
pub struct Standing {
    pub id: u64,
    pub free: bool,
    pub touched: u64,
}

pub open spec fn stale_ids(standing: Seq<Standing>, now: u64) -> Seq<u64>
    decreases standing.len(),
{
    if standing.len() == 0 {
        seq![]
    } else {
        let before = stale_ids(standing.drop_last(), now);
        if standing.last().free && idle(standing.last().touched, now) {
            before.push(standing.last().id)
        } else {
            before
        }
    }
}

/// The writes to give up: those that nobody works on and that were left idle.
pub fn reap(standing: &Vec<Standing>, now: u64) -> (r: Vec<u64>)
    ensures
        r@ == stale_ids(standing@, now),
{
    let mut r: Vec<u64> = Vec::new();
    let mut i: usize = 0;
    assert(standing@.take(0) =~= Seq::<Standing>::empty());
    while i < standing.len()
        invariant
            i <= standing@.len(),
            r@ == stale_ids(standing@.take(i as int), now),
        decreases standing.len() - i,
    {
        proof {
            assert(standing@.take(i + 1).drop_last() =~= standing@.take(i as int));
            assert(standing@.take(i + 1).last() == standing@[i as int]);
        }
        let at = standing[i].touched;
        if standing[i].free && now >= at && now - at >= IDLE_MS {
            r.push(standing[i].id);
        }
        i = i + 1;
    }
    assert(standing@.take(i as int) =~= standing@);
    r
}

// ---- uploads in numbered parts -------------------------------------------

/// An upload in numbered parts. The bucket takes the parts in ascending order,
/// so a part that runs ahead is held until those before it are there.
pub struct UploadEntry {
    pub bucket_name: String,
    pub key: String,
    pub flushed: Vec<u32>,
    pub pending: IdMap<Vec<u8>>,
    pub held: usize,
    pub envelope: Envelope,
    pub written: u64,
    pub touched: u64,
}

/// How many bytes the parts hold together.
pub open spec fn byte_total(parts: Map<u64, Vec<u8>>) -> nat
    decreases parts.dom().len(),
    when parts.dom().finite()
{
    if parts.dom().len() == 0 {
        0
    } else {
        let id = parts.dom().choose();
        parts[id]@.len() + byte_total(parts.remove(id))
    }
}

proof fn lemma_remove_part(parts: Map<u64, Vec<u8>>, id: u64)
    requires
        parts.dom().finite(),
        parts.contains_key(id),
    ensures
        byte_total(parts) == parts[id]@.len() + byte_total(parts.remove(id)),
    decreases parts.dom().len(),
{
    assert(parts.dom().contains(id));
    let first = parts.dom().choose();
    assert(parts.dom().contains(first));
    if first != id {
        lemma_remove_part(parts.remove(first), id);
        lemma_remove_part(parts.remove(id), first);
        assert(parts.remove(first).remove(id) =~= parts.remove(id).remove(first));
    }
}

proof fn lemma_insert_part(parts: Map<u64, Vec<u8>>, id: u64, bytes: Vec<u8>)
    requires
        parts.dom().finite(),
    ensures
        byte_total(parts.insert(id, bytes)) + (if parts.contains_key(id) {
            parts[id]@.len()
        } else {
            0
        }) == byte_total(parts) + bytes@.len(),
{
    lemma_remove_part(parts.insert(id, bytes), id);
    if parts.contains_key(id) {
        lemma_remove_part(parts, id);
        assert(parts.insert(id, bytes).remove(id) =~= parts.remove(id));
    } else {
        assert(parts.insert(id, bytes).remove(id) =~= parts);
    }
}

/// What a completion asks for next.
pub enum CompleteAction {
    /// Write the part.
    Put { number: u32, part: Vec<u8> },
    /// Complete the upload.
    Close,
    /// Give the upload up.
    Refuse { error: String },
}

/// Numbers as a list shows them.
pub open spec fn number_list(numbers: Seq<u32>) -> Seq<char> {
    "["@ + number_row(numbers) + "]"@
}

pub open spec fn number_row(numbers: Seq<u32>) -> Seq<char>
    decreases numbers.len(),
{
    if numbers.len() == 0 {
        seq![]
    } else if numbers.len() == 1 {
        text::decimal(numbers[0] as nat)
    } else {
        number_row(numbers.drop_last()) + ", "@ + text::decimal(numbers.last() as nat)
    }
}

fn show_numbers(numbers: &Vec<u32>) -> (r: String)
    ensures
        r@ == number_list(numbers@),
{
    let mut row = String::new();
    let mut i: usize = 0;
    assert(numbers@.take(0) =~= Seq::<u32>::empty());
    while i < numbers.len()
        invariant
            i <= numbers@.len(),
            row@ == number_row(numbers@.take(i as int)),
        decreases numbers.len() - i,
    {
        let ghost upto = numbers@.take(i + 1);
        assert(upto.drop_last() =~= numbers@.take(i as int));
        assert(upto.last() == numbers@[i as int]);
        if i > 0 {
            row.append(", ");
        } else {
            assert(row@ =~= Seq::<char>::empty());
        }
        let ghost before = row@;
        row.append(text::decimal_text(numbers[i] as u64).as_str());
        assert(i == 0 ==> row@ =~= text::decimal(numbers@[0] as nat));
        i = i + 1;
    }
    assert(numbers@.take(i as int) =~= numbers@);
    let mut r = String::from_str("[");
    r.append(row.as_str());
    r.append("]");
    r
}

/// The error of a part that the bucket did not take.
pub open spec fn part_error(number: u32, of: Seq<char>, error: Seq<char>) -> Seq<char> {
    "R2 multipart part "@ + text::decimal(number as nat) + " of "@ + of + ": "@ + error
}

/// The error of a part that was written already.
pub open spec fn rewrite_error(upload_id: u64, number: u32) -> Seq<char> {
    "R2 multipart part "@ + text::decimal(number as nat) + " of upload "@ + text::decimal(
        upload_id as nat,
    )
        + " was already handed to the object store, which appends parts and cannot rewrite one: celld replaces a part that is still waiting its turn, not one already written. Send the replacement before the part in front of it, or open the upload again"@
}

/// The error of a part that runs too far ahead.
pub open spec fn backlog_error(upload_id: u64, held: usize, next: nat) -> Seq<char> {
    "R2 multipart upload "@ + text::decimal(upload_id as nat) + " is holding "@ + text::decimal(
        held as nat,
    ) + " bytes of parts waiting for part "@ + text::decimal(next)
        + ": celld hands parts to the object store in ascending order, so upload the parts in front of the ones running ahead"@
}

/// The error of a completion that rewrites what was written.
pub open spec fn order_error(upload_id: u64, claimed: Seq<u32>, flushed: Seq<u32>) -> Seq<char> {
    "R2 multipart complete of upload "@ + text::decimal(upload_id as nat) + " names "@
        + number_list(claimed)
        + ", which does not start with the parts already written in order ("@ + number_list(
        flushed,
    )
        + "); celld hands parts to the object store as they arrive, so a completion may add to that order but not rewrite it"@
}

/// The error of a completion that names a part nobody sent.
pub open spec fn absent_error(upload_id: u64, number: u32) -> Seq<char> {
    "R2 multipart complete of upload "@ + text::decimal(upload_id as nat) + " names part "@
        + text::decimal(number as nat) + ", which was never uploaded"@
}

impl UploadEntry {
    /// What is the same whatever parts come.
    pub open spec fn same_upload(&self, other: &Self) -> bool {
        &&& self.bucket_name == other.bucket_name
        &&& self.key == other.key
        &&& self.envelope == other.envelope
    }

    /// What holds of every upload: what is held is what the waiting parts hold,
    /// and it is within bounds.
    pub open spec fn wf(&self) -> bool {
        &&& self.pending@.dom().finite()
        &&& self.held == byte_total(self.pending@)
        &&& self.held <= PART_BACKLOG
    }

    /// What holds until the upload is completed: the parts that were written
    /// are the first ones, in order.
    pub open spec fn in_order(&self) -> bool {
        forall|i: int| 0 <= i < self.flushed@.len() ==> #[trigger] self.flushed@[i] == i + 1
    }

    /// The part that is written next.
    pub open spec fn next_number(&self) -> nat {
        if self.flushed@.len() == 0 {
            1
        } else {
            (self.flushed@.last() + 1) as nat
        }
    }

    /// A new upload.
    pub fn begin(bucket_name: String, key: String, envelope: Envelope, now: u64) -> (r: Self)
        ensures
            r.wf(),
            r.in_order(),
            r.bucket_name == bucket_name,
            r.key == key,
            r.envelope == envelope,
            r.flushed@ == Seq::<u32>::empty(),
            r.pending@ == Map::<u64, Vec<u8>>::empty(),
            r.written == 0,
            r.touched == now,
    {
        UploadEntry {
            bucket_name,
            key,
            flushed: Vec::new(),
            pending: IdMap::new(),
            held: 0,
            envelope,
            written: 0,
            touched: now,
        }
    }

    /// The part that is written next.
    pub fn next(&self) -> (r: u32)
        requires
            self.next_number() <= u32::MAX,
        ensures
            r == self.next_number(),
    {
        if self.flushed.len() == 0 {
            1
        } else {
            self.flushed[self.flushed.len() - 1] + 1
        }
    }

    fn has_flushed(&self, number: u32) -> (r: bool)
        ensures
            r == self.flushed@.contains(number),
    {
        let mut i: usize = 0;
        while i < self.flushed.len()
            invariant
                i <= self.flushed@.len(),
                forall|k: int| 0 <= k < i ==> self.flushed@[k] != number,
            decreases self.flushed.len() - i,
        {
            if self.flushed[i] == number {
                assert(self.flushed@[i as int] == number);
                return true;
            }
            i = i + 1;
        }
        false
    }

    /// How many bytes a part that comes again gives back.
    pub open spec fn replaced(&self, number: u32) -> nat {
        if self.pending@.contains_key(number as u64) {
            self.pending@[number as u64]@.len()
        } else {
            0
        }
    }

    /// Holds a part until its turn comes. One that waits already is replaced;
    /// one that was written already, or runs too far ahead, is refused.
    pub fn part(&mut self, upload_id: u64, number: u32, bytes: Vec<u8>, now: u64) -> (r: Result<
        (),
        String,
    >)
        requires
            old(self).wf(),
            old(self).next_number() <= u32::MAX,
        ensures
            final(self).wf(),
            final(self).same_upload(old(self)),
            final(self).flushed == old(self).flushed,
            final(self).written == old(self).written,
            final(self).touched == now,
            match r {
                Ok(_) => {
                    &&& !old(self).flushed@.contains(number)
                    &&& old(self).held - old(self).replaced(number) + bytes@.len()
                        <= PART_BACKLOG
                    &&& final(self).pending@ == old(self).pending@.insert(number as u64, bytes)
                },
                Err(error) => {
                    &&& final(self).pending@ == old(self).pending@
                    &&& error@ == (if old(self).flushed@.contains(number) {
                        rewrite_error(upload_id, number)
                    } else {
                        backlog_error(upload_id, old(self).held, old(self).next_number())
                    })
                    &&& old(self).flushed@.contains(number) || old(self).held - old(self).replaced(
                        number,
                    ) + bytes@.len() > PART_BACKLOG
                },
            },
    {
        self.touched = now;
        if self.has_flushed(number) {
            let mut error = text::join3(
                "R2 multipart part ",
                text::decimal_text(number as u64).as_str(),
                " of upload ",
            );
            error.append(text::decimal_text(upload_id).as_str());
            error.append(
                " was already handed to the object store, which appends parts and cannot rewrite one: celld replaces a part that is still waiting its turn, not one already written. Send the replacement before the part in front of it, or open the upload again",
            );
            return Err(error);
        }
        let replaced: usize = match self.pending.get(number as u64) {
            Some(waiting) => waiting.len(),
            None => 0,
        };
        proof {
            if self.pending@.contains_key(number as u64) {
                lemma_remove_part(self.pending@, number as u64);
            }
            lemma_insert_part(self.pending@, number as u64, bytes);
        }
        let kept: usize = self.held - replaced;
        if bytes.len() > PART_BACKLOG - kept {
            let mut error = text::join3(
                "R2 multipart upload ",
                text::decimal_text(upload_id).as_str(),
                " is holding ",
            );
            error.append(text::decimal_text(self.held as u64).as_str());
            error.append(" bytes of parts waiting for part ");
            error.append(text::decimal_text(self.next() as u64).as_str());
            error.append(
                ": celld hands parts to the object store in ascending order, so upload the parts in front of the ones running ahead",
            );
            return Err(error);
        }
        self.held = kept + bytes.len();
        let _ = self.pending.insert(number as u64, bytes);
        Ok(())
    }

    fn take(&mut self, number: u32) -> (r: Option<Vec<u8>>)
        requires
            old(self).wf(),
            old(self).written + old(self).held <= u64::MAX,
        ensures
            final(self).wf(),
            final(self).same_upload(old(self)),
            final(self).flushed == old(self).flushed,
            final(self).touched == old(self).touched,
            final(self).written + final(self).held == old(self).written + old(self).held,
            final(self).pending@ == old(self).pending@.remove(number as u64),
            match r {
                Some(part) => {
                    &&& old(self).pending@.contains_key(number as u64)
                    &&& old(self).pending@[number as u64] == part
                    &&& final(self).written == old(self).written + part@.len()
                },
                None => {
                    &&& !old(self).pending@.contains_key(number as u64)
                    &&& final(self).written == old(self).written
                },
            },
    {
        proof {
            if self.pending@.contains_key(number as u64) {
                lemma_remove_part(self.pending@, number as u64);
            } else {
                assert(self.pending@.remove(number as u64) =~= self.pending@);
            }
        }
        match self.pending.remove(number as u64) {
            Some(part) => {
                self.held = self.held - part.len();
                self.written = self.written + part.len() as u64;
                Some(part)
            },
            None => None,
        }
    }

    /// The next part, where it is there: it is now to be written.
    pub fn drain(&mut self) -> (r: Option<(u32, Vec<u8>)>)
        requires
            old(self).wf(),
            old(self).written + old(self).held <= u64::MAX,
            old(self).next_number() <= u32::MAX,
        ensures
            final(self).wf(),
            final(self).same_upload(old(self)),
            final(self).flushed == old(self).flushed,
            final(self).touched == old(self).touched,
            final(self).written + final(self).held == old(self).written + old(self).held,
            final(self).pending@ == old(self).pending@.remove(old(self).next_number() as u64),
            match r {
                Some((number, part)) => {
                    &&& number == old(self).next_number()
                    &&& old(self).pending@.contains_key(number as u64)
                    &&& old(self).pending@[number as u64] == part
                    &&& final(self).written == old(self).written + part@.len()
                },
                None => {
                    &&& !old(self).pending@.contains_key(old(self).next_number() as u64)
                    &&& final(self).written == old(self).written
                },
            },
    {
        let number = self.next();
        match self.take(number) {
            Some(part) => Some((number, part)),
            None => None,
        }
    }

    /// What becomes of a part that was handed to the bucket as its turn came.
    pub fn drained(&mut self, number: u32, failed: Option<String>) -> (r: Result<(), String>)
        ensures
            old(self).wf() ==> final(self).wf(),
            old(self).in_order() && number == old(self).next_number() ==> final(self).in_order(),
            final(self).same_upload(old(self)),
            final(self).pending == old(self).pending,
            final(self).held == old(self).held,
            final(self).written == old(self).written,
            final(self).touched == old(self).touched,
            match failed {
                None => r is Ok && final(self).flushed@ == old(self).flushed@.push(number),
                Some(error) => {
                    &&& r is Err && r->Err_0@ == part_error(number, old(self).key@, error@)
                    &&& final(self).flushed@ == old(self).flushed@
                },
            },
    {
        match failed {
            None => {
                self.flushed.push(number);
                Ok(())
            },
            Some(error) => {
                let mut r = text::join3(
                    "R2 multipart part ",
                    text::decimal_text(number as u64).as_str(),
                    " of ",
                );
                r.append(self.key.as_str());
                r.append(": ");
                r.append(error.as_str());
                Err(r)
            },
        }
    }

    fn starts(&self, claimed: &Vec<u32>) -> (r: bool)
        ensures
            r == self.flushed@.is_prefix_of(claimed@),
    {
        if claimed.len() < self.flushed.len() {
            return false;
        }
        let mut i: usize = 0;
        while i < self.flushed.len()
            invariant
                i <= self.flushed@.len() <= claimed@.len(),
                forall|k: int| 0 <= k < i ==> self.flushed@[k] == claimed@[k],
            decreases self.flushed.len() - i,
        {
            if self.flushed[i] != claimed[i] {
                assert(claimed@.subrange(0, self.flushed@.len() as int)[i as int]
                    == claimed@[i as int]);
                return false;
            }
            i = i + 1;
        }
        assert(self.flushed@ =~= claimed@.subrange(0, self.flushed@.len() as int));
        true
    }

    /// What a completion asks for next. It names the parts in their order,
    /// which begins with those that were written; each of the others must be
    /// waiting, and is written as it is named.
    pub fn complete(&mut self, upload_id: u64, claimed: &Vec<u32>) -> (r: CompleteAction)
        requires
            old(self).wf(),
            old(self).written + old(self).held <= u64::MAX,
        ensures
            final(self).wf(),
            final(self).same_upload(old(self)),
            final(self).flushed == old(self).flushed,
            final(self).touched == old(self).touched,
            final(self).written + final(self).held == old(self).written + old(self).held,
            r is Close <==> old(self).flushed@ == claimed@,
            match r {
                CompleteAction::Close => {
                    &&& final(self).pending@ == old(self).pending@
                    &&& final(self).written == old(self).written
                },
                CompleteAction::Put { number, part } => {
                    &&& old(self).flushed@.is_prefix_of(claimed@)
                    &&& old(self).flushed@.len() < claimed@.len()
                    &&& number == claimed@[old(self).flushed@.len() as int]
                    &&& old(self).pending@.contains_key(number as u64)
                    &&& old(self).pending@[number as u64] == part
                    &&& final(self).pending@ == old(self).pending@.remove(number as u64)
                    &&& final(self).written == old(self).written + part@.len()
                },
                CompleteAction::Refuse { error } => {
                    &&& final(self).pending@ == old(self).pending@
                    &&& final(self).written == old(self).written
                    &&& if old(self).flushed@.is_prefix_of(claimed@) {
                        let number = claimed@[old(self).flushed@.len() as int];
                        &&& !old(self).pending@.contains_key(number as u64)
                        &&& error@ == absent_error(upload_id, number)
                    } else {
                        error@ == order_error(upload_id, claimed@, old(self).flushed@)
                    }
                },
            },
    {
        if !self.starts(claimed) {
            let mut error = text::join3(
                "R2 multipart complete of upload ",
                text::decimal_text(upload_id).as_str(),
                " names ",
            );
            error.append(show_numbers(claimed).as_str());
            error.append(", which does not start with the parts already written in order (");
            error.append(show_numbers(&self.flushed).as_str());
            error.append(
                "); celld hands parts to the object store as they arrive, so a completion may add to that order but not rewrite it",
            );
            return CompleteAction::Refuse { error };
        }
        if self.flushed.len() == claimed.len() {
            assert(claimed@.subrange(0, self.flushed@.len() as int) =~= claimed@);
            return CompleteAction::Close;
        }
        let number: u32 = claimed[self.flushed.len()];
        let ghost before = self.pending@;
        match self.take(number) {
            Some(part) => CompleteAction::Put { number, part },
            None => {
                assert(before.remove(number as u64) =~= before);
                let mut error = text::join3(
                    "R2 multipart complete of upload ",
                    text::decimal_text(upload_id).as_str(),
                    " names part ",
                );
                error.append(text::decimal_text(number as u64).as_str());
                error.append(", which was never uploaded");
                CompleteAction::Refuse { error }
            },
        }
    }

    /// What becomes of a part that was handed to the bucket as a completion
    /// named it.
    pub fn completed_part(&mut self, upload_id: u64, number: u32, failed: Option<String>) -> (r:
        Result<(), String>)
        ensures
            old(self).wf() ==> final(self).wf(),
            final(self).same_upload(old(self)),
            final(self).pending == old(self).pending,
            final(self).held == old(self).held,
            final(self).written == old(self).written,
            final(self).touched == old(self).touched,
            match failed {
                None => r is Ok && final(self).flushed@ == old(self).flushed@.push(number),
                Some(error) => {
                    &&& r is Err && r->Err_0@ == part_error(
                        number,
                        "upload "@ + text::decimal(upload_id as nat),
                        error@,
                    )
                    &&& final(self).flushed@ == old(self).flushed@
                },
            },
    {
        match failed {
            None => {
                self.flushed.push(number);
                Ok(())
            },
            Some(error) => {
                let mut r = text::join3(
                    "R2 multipart part ",
                    text::decimal_text(number as u64).as_str(),
                    " of ",
                );
                r.append(
                    text::join("upload ", text::decimal_text(upload_id).as_str()).as_str(),
                );
                r.append(": ");
                r.append(error.as_str());
                Err(r)
            },
        }
    }

    /// What a completed upload is answered, from what the bucket says of it.
    pub fn completed(&self, etag: Option<String>, version: Option<String>, now: i64) -> (r: String)
        ensures
            r@ == json::printed_json(
                r2_store::object_view(
                    self.key@,
                    BlobMeta { size: self.written, etag, version, uploaded_ms: now },
                    self.envelope@,
                    None,
                ),
            ),
    {
        let meta = BlobMeta { size: self.written, etag, version, uploaded_ms: now };
        json::json_text(&r2_store::object_json(self.key.as_str(), &meta, &self.envelope, None))
    }
}

/// A part that the completion names next extends what was written towards it:
/// once the upload may be completed, what was written is what was named.
pub proof fn completion_follows_the_claim(flushed: Seq<u32>, claimed: Seq<u32>)
    requires
        flushed.is_prefix_of(claimed),
        flushed.len() < claimed.len(),
    ensures
        flushed.push(claimed[flushed.len() as int]).is_prefix_of(claimed),
{
    let next = flushed.push(claimed[flushed.len() as int]);
    assert forall|i: int| 0 <= i < flushed.len() implies flushed[i] == claimed[i] by {
        assert(claimed.subrange(0, flushed.len() as int)[i] == claimed[i]);
    }
    assert(next =~= claimed.subrange(0, next.len() as int));
}

/// A write is given up exactly where nobody works on it and nobody touched it
/// for an hour; what is worked on, or was touched since, stands.
pub proof fn idle_writes_are_given_up(standing: Seq<Standing>, now: u64, id: u64)
    ensures
        stale_ids(standing, now).contains(id) <==> exists|i: int|
            {
                &&& 0 <= i < standing.len()
                &&& (#[trigger] standing[i]).id == id
                &&& standing[i].free
                &&& standing[i].touched + 60 * 60 * 1000 <= now
            },
    decreases standing.len(),
{
    if standing.len() > 0 {
        let fewer = standing.drop_last();
        let before = stale_ids(fewer, now);
        idle_writes_are_given_up(fewer, now, id);
        let last = standing.last();
        if last.free && idle(last.touched, now) {
            let all = before.push(last.id);
            if before.contains(id) {
                let k = choose|k: int| 0 <= k < before.len() && before[k] == id;
                assert(all[k] == id);
            }
            if last.id == id {
                assert(all[before.len() as int] == id);
            }
            if all.contains(id) && last.id != id {
                let k = choose|k: int| 0 <= k < all.len() && all[k] == id;
                assert(before[k] == id);
            }
        }
        if before.contains(id) {
            let i = choose|i: int|
                {
                    &&& 0 <= i < fewer.len()
                    &&& (#[trigger] fewer[i]).id == id
                    &&& fewer[i].free
                    &&& fewer[i].touched + 60 * 60 * 1000 <= now
                };
            assert(standing[i] == fewer[i]);
        }
        if exists|i: int|
            {
                &&& 0 <= i < standing.len()
                &&& (#[trigger] standing[i]).id == id
                &&& standing[i].free
                &&& standing[i].touched + 60 * 60 * 1000 <= now
            } {
            let i = choose|i: int|
                {
                    &&& 0 <= i < standing.len()
                    &&& (#[trigger] standing[i]).id == id
                    &&& standing[i].free
                    &&& standing[i].touched + 60 * 60 * 1000 <= now
                };
            if i < fewer.len() {
                assert(fewer[i] == standing[i]);
            } else {
                assert(standing[i] == last);
            }
        }
        if last.id == id && last.free && idle(last.touched, now) {
            assert(standing[standing.len() - 1].id == id);
        }
    }
}

/// While an upload is written in order, the part that is next is the one after
/// as many as were written, and writing it keeps the order.
pub proof fn parts_are_written_in_turn(entry: UploadEntry, after: UploadEntry)
    requires
        entry.in_order(),
        entry.next_number() <= u32::MAX,
        after.flushed@ == entry.flushed@.push(entry.next_number() as u32),
    ensures
        entry.next_number() == entry.flushed@.len() + 1,
        after.in_order(),
        after.next_number() == entry.next_number() + 1,
        !entry.flushed@.contains(entry.next_number() as u32),
{
    if entry.flushed@.len() > 0 {
        assert(entry.flushed@[entry.flushed@.len() - 1] == entry.flushed@.len());
    }
    assert forall|i: int| 0 <= i < after.flushed@.len() implies #[trigger] after.flushed@[i] == i
        + 1 by {
        if i < entry.flushed@.len() {
            assert(after.flushed@[i] == entry.flushed@[i]);
        }
    }
    if entry.flushed@.contains(entry.next_number() as u32) {
        let i = choose|i: int|
            0 <= i < entry.flushed@.len() && entry.flushed@[i] == entry.next_number() as u32;
        assert(entry.flushed@[i] == i + 1);
    }
}

/// What a new upload is kept with: what the write asks for, without checksums.
pub fn upload_envelope(request: PutRequest) -> (r: Envelope)
    ensures
        r@ == r2_store::envelope_of(request, seq![]),
{
    let checksums: Vec<(String, String)> = Vec::new();
    assert(r2_store::pair_views(checksums@) =~= seq![]);
    Envelope {
        custom: request.custom,
        http: request.http,
        checksums,
        storage_class: request.storage_class,
    }
}

/// The number that an upload is open under, where its id is one.
pub fn upload_number(upload_id: &str) -> (r: Option<u64>)
    ensures
        match r {
            Some(n) => text::parse_unsigned(upload_id@) == Some(n as nat),
            None => text::parse_unsigned(upload_id@) is None || text::parse_unsigned(
                upload_id@,
            )->0 > u64::MAX,
        },
{
    text::parse_u64(upload_id)
}

/// Whether an upload can be gone on with: it must be open here, for the same
/// key and binding.
pub fn resume(entry: Option<&UploadEntry>, bucket_name: &str, key: &str, upload_id: &str) -> (r: Result<
    String,
    String,
>)
    ensures
        match entry {
            Some(entry) if entry.bucket_name@ == bucket_name@ && entry.key@ == key@ => r is Ok
                && r->Ok_0@ == upload_id@,
            Some(_) => r is Err && r->Err_0@ == "R2 multipart upload "@ + upload_id@
                + " was opened for another key or binding"@,
            None => r is Err && r->Err_0@ == "R2 multipart upload "@ + upload_id@
                + " is not open on this node: celld can resume an upload within the node that created it, not across nodes or restarts"@,
        },
{
    match entry {
        Some(entry) => if text::same(entry.bucket_name.as_str(), bucket_name) && text::same(
            entry.key.as_str(),
            key,
        ) {
            Ok(String::from_str(upload_id))
        } else {
            Err(
                text::join3(
                    "R2 multipart upload ",
                    upload_id,
                    " was opened for another key or binding",
                ),
            )
        },
        None => Err(
            text::join3(
                "R2 multipart upload ",
                upload_id,
                " is not open on this node: celld can resume an upload within the node that created it, not across nodes or restarts",
            ),
        ),
    }
}

/// A part that comes again in place of a waiting one is charged for itself
/// alone: what it replaces is given back.
pub proof fn replaced_parts_are_given_back(
    entry: UploadEntry,
    number: u32,
    bytes: Vec<u8>,
    after: UploadEntry,
)
    requires
        entry.wf(),
        after.wf(),
        after.pending@ == entry.pending@.insert(number as u64, bytes),
    ensures
        after.held + entry.replaced(number) == entry.held + bytes@.len(),
        !entry.pending@.contains_key(number as u64) ==> after.held == entry.held + bytes@.len(),
        entry.pending@.contains_key(number as u64) ==> after.held + entry.pending@[number as u64]@.len()
            == entry.held + bytes@.len(),
{
    lemma_insert_part(entry.pending@, number as u64, bytes);
}

/// Numbers are shown in their order, between brackets and with a comma and a
/// space between each two.
pub proof fn numbers_are_shown_in_order(numbers: Seq<u32>, next: u32)
    ensures
        number_list(seq![]) == "[]"@,
        number_list(seq![next]) == "["@ + text::decimal(next as nat) + "]"@,
        numbers.len() > 0 ==> number_row(numbers.push(next)) == number_row(numbers) + ", "@
            + text::decimal(next as nat),
{
    reveal_strlit("[");
    reveal_strlit("]");
    reveal_strlit("[]");
    assert(number_list(seq![]) =~= "[]"@);
    assert(number_row(seq![next]) == text::decimal(next as nat));
    assert(numbers.push(next).drop_last() =~= numbers);
}

/// What an upload is to does not change while it goes on.
pub proof fn uploads_stay_what_they_are(a: UploadEntry, b: UploadEntry)
    requires
        a.same_upload(&b),
    ensures
        a.bucket_name@ == b.bucket_name@,
        a.key@ == b.key@,
        a.envelope@ == b.envelope@,
{
}

/// What waits of an upload is no more than a quarter of a gibibyte.
pub proof fn uploads_hold_a_bounded_backlog(entry: UploadEntry)
    requires
        entry.wf(),
    ensures
        entry.held <= 256 * 1024 * 1024,
        byte_total(entry.pending@) == entry.held,
        PART_BACKLOG == 256 * 1024 * 1024,
{
}

/// A refused part or completion is told by its upload and its number; one whose
/// order was wrong names the parts that it claimed before those that were
/// written.
pub proof fn refusals_name_their_parts(
    upload_id: u64,
    number: u32,
    held: usize,
    next: nat,
    claimed: Seq<u32>,
    flushed: Seq<u32>,
    of: Seq<char>,
    error: Seq<char>,
)
    ensures
        text::has_prefix(
            part_error(number, of, error),
            "R2 multipart part "@ + text::decimal(number as nat) + " of "@ + of,
        ),
        part_error(number, of, error).skip(part_error(number, of, error).len() - error.len())
            == error,
        text::has_prefix(
            rewrite_error(upload_id, number),
            "R2 multipart part "@ + text::decimal(number as nat) + " of upload "@ + text::decimal(
                upload_id as nat,
            ) + " was already handed to the object store"@,
        ),
        text::has_prefix(
            backlog_error(upload_id, held, next),
            "R2 multipart upload "@ + text::decimal(upload_id as nat) + " is holding "@
                + text::decimal(held as nat) + " bytes of parts waiting for part "@ + text::decimal(
                next,
            ),
        ),
        text::has_prefix(
            order_error(upload_id, claimed, flushed),
            "R2 multipart complete of upload "@ + text::decimal(upload_id as nat) + " names "@
                + number_list(claimed)
                + ", which does not start with the parts already written in order ("@ + number_list(
                flushed,
            ),
        ),
        text::has_prefix(
            absent_error(upload_id, number),
            "R2 multipart complete of upload "@ + text::decimal(upload_id as nat) + " names part "@
                + text::decimal(number as nat),
        ),
{
    let a = part_error(number, of, error);
    let head = "R2 multipart part "@ + text::decimal(number as nat) + " of "@ + of;
    assert(a.subrange(0, head.len() as int) =~= head);
    assert(a.skip(a.len() - error.len()) =~= error);
    reveal_strlit(" was already handed to the object store");
    reveal_strlit(
        " was already handed to the object store, which appends parts and cannot rewrite one: celld replaces a part that is still waiting its turn, not one already written. Send the replacement before the part in front of it, or open the upload again",
    );
    let b = rewrite_error(upload_id, number);
    let head = "R2 multipart part "@ + text::decimal(number as nat) + " of upload "@
        + text::decimal(upload_id as nat) + " was already handed to the object store"@;
    assert(b.subrange(0, head.len() as int) =~= head);
    let c = backlog_error(upload_id, held, next);
    let head = "R2 multipart upload "@ + text::decimal(upload_id as nat) + " is holding "@
        + text::decimal(held as nat) + " bytes of parts waiting for part "@ + text::decimal(next);
    assert(c.subrange(0, head.len() as int) =~= head);
    let d = order_error(upload_id, claimed, flushed);
    let head = "R2 multipart complete of upload "@ + text::decimal(upload_id as nat) + " names "@
        + number_list(claimed) + ", which does not start with the parts already written in order ("@
        + number_list(flushed);
    assert(d.subrange(0, head.len() as int) =~= head);
    let e = absent_error(upload_id, number);
    let head = "R2 multipart complete of upload "@ + text::decimal(upload_id as nat)
        + " names part "@ + text::decimal(number as nat);
    assert(e.subrange(0, head.len() as int) =~= head);
}

} // verus!
