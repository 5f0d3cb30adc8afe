//! The Queue cell's requests to the host: the policy questions it asks, the
//! answers it is given, the settings it reads and the batches it dispatches.
use vstd::prelude::*;
#[allow(unused_imports)]
use vstd::string::*;

use crate::engine_api::{QueueBatch, QueueContentType, QueueMessage};
use crate::generation;
use crate::generation::GenerationId;
use crate::host_channels::{QueueDispatchReq, QueueLeaseRef};
use crate::json;
#[allow(unused_imports)]
use crate::json::{Json, JsonView};
#[allow(unused_imports)]
use crate::text;

verus! {

// ---- reading -------------------------------------------------------------

/// Whether a result and its error's words are the ones stated.
pub open spec fn gives<T>(r: Result<T, String>, stated: Result<T, Seq<char>>) -> bool {
    match (r, stated) {
        (Ok(value), Ok(expected)) => value == expected,
        (Err(error), Err(words)) => error@ == words,
        _ => false,
    }
}

/// A whole number that a request must hold.
pub open spec fn integer_of(value: JsonView, name: Seq<char>) -> Result<i64, Seq<char>> {
    match value.member(name) {
        Some(JsonView::Int(n)) => Ok(n as i64),
        _ => Err("Queue policy input has no integer "@ + name),
    }
}

fn integer(value: &Json, name: &str) -> (r: Result<i64, String>)
    ensures
        gives(r, integer_of(value@, name@)),
{
    match value.get(name) {
        Some(member) => match member.as_i64() {
            Some(n) => Ok(n),
            None => Err(text::join("Queue policy input has no integer ", name)),
        },
        None => Err(text::join("Queue policy input has no integer ", name)),
    }
}

/// A whole number that a request may hold.
pub open spec fn optional_integer_of(value: JsonView, name: Seq<char>) -> Result<
    Option<i64>,
    Seq<char>,
> {
    match value.member(name) {
        None => Ok(None),
        Some(JsonView::Null) => Ok(None),
        Some(JsonView::Int(n)) => Ok(Some(n as i64)),
        Some(_) => Err("Queue policy input "@ + name + " is not an integer"@),
    }
}

fn optional_integer(value: &Json, name: &str) -> (r: Result<Option<i64>, String>)
    ensures
        gives(r, optional_integer_of(value@, name@)),
{
    match value.get(name) {
        None => Ok(None),
        Some(member) => {
            if member.is_null() {
                return Ok(None);
            }
            match member.as_i64() {
                Some(n) => Ok(Some(n)),
                None => Err(text::join3("Queue policy input ", name, " is not an integer")),
            }
        },
    }
}

/// A small number that a request must hold.
pub open spec fn small_of(value: JsonView, name: Seq<char>, words: Seq<char>) -> Result<
    u16,
    Seq<char>,
> {
    match integer_of(value, name) {
        Ok(n) => if 0 <= n <= u16::MAX {
            Ok(n as u16)
        } else {
            Err(words)
        },
        Err(error) => Err(error),
    }
}

fn small(value: &Json, name: &str, words: &str) -> (r: Result<u16, String>)
    ensures
        gives(r, small_of(value@, name@, words@)),
{
    match integer(value, name) {
        Ok(n) => if 0 <= n && n <= 65535 {
            Ok(n as u16)
        } else {
            Err(String::from_str(words))
        },
        Err(error) => Err(error),
    }
}

/// A count that a request must hold.
pub open spec fn count_of(value: JsonView, name: Seq<char>, words: Seq<char>) -> Result<
    usize,
    Seq<char>,
> {
    match integer_of(value, name) {
        Ok(n) => if 0 <= n <= usize::MAX {
            Ok(n as usize)
        } else {
            Err(words)
        },
        Err(error) => Err(error),
    }
}

fn count(value: &Json, name: &str, words: &str) -> (r: Result<usize, String>)
    ensures
        gives(r, count_of(value@, name@, words@)),
{
    match integer(value, name) {
        Ok(n) => if 0 <= n && n as u64 <= usize::MAX as u64 {
            Ok(n as usize)
        } else {
            Err(String::from_str(words))
        },
        Err(error) => Err(error),
    }
}

/// A number of seconds that a request may hold.
pub open spec fn seconds_of(value: JsonView, name: Seq<char>, words: Seq<char>) -> Result<
    Option<u32>,
    Seq<char>,
> {
    match optional_integer_of(value, name) {
        Ok(None) => Ok(None),
        Ok(Some(n)) => if 0 <= n <= u32::MAX {
            Ok(Some(n as u32))
        } else {
            Err(words)
        },
        Err(error) => Err(error),
    }
}

fn seconds(value: &Json, name: &str, words: &str) -> (r: Result<Option<u32>, String>)
    ensures
        gives(r, seconds_of(value@, name@, words@)),
{
    match optional_integer(value, name) {
        Ok(None) => Ok(None),
        Ok(Some(n)) => if 0 <= n && n <= 4294967295 {
            Ok(Some(n as u32))
        } else {
            Err(String::from_str(words))
        },
        Err(error) => Err(error),
    }
}

/// A truth value that a request must hold.
pub open spec fn flag_of(value: JsonView, name: Seq<char>, words: Seq<char>) -> Result<
    bool,
    Seq<char>,
> {
    match value.member(name) {
        Some(JsonView::Bool(b)) => Ok(b),
        _ => Err(words),
    }
}

fn flag(value: &Json, name: &str, words: &str) -> (r: Result<bool, String>)
    ensures
        gives(r, flag_of(value@, name@, words@)),
{
    match value.get(name) {
        Some(member) => match member.as_bool() {
            Some(b) => Ok(b),
            None => Err(String::from_str(words)),
        },
        None => Err(String::from_str(words)),
    }
}

/// A text that a request must hold.
pub open spec fn text_of(value: JsonView, name: Seq<char>, words: Seq<char>) -> Result<
    Seq<char>,
    Seq<char>,
> {
    match value.member(name) {
        Some(JsonView::Text(t)) => Ok(t),
        _ => Err(words),
    }
}

fn text_member<'a>(value: &'a Json, name: &str, words: &str) -> (r: Result<&'a str, String>)
    ensures
        match r {
            Ok(t) => text_of(value@, name@, words@) == Ok::<Seq<char>, Seq<char>>(t@),
            Err(error) => text_of(value@, name@, words@) == Err::<Seq<char>, Seq<char>>(error@),
        },
{
    match value.get(name) {
        Some(member) => match member.as_str() {
            Some(t) => Ok(t),
            None => Err(String::from_str(words)),
        },
        None => Err(String::from_str(words)),
    }
}

/// A number from zero up that a request must hold as text.
pub open spec fn written_unsigned(
    value: JsonView,
    name: Seq<char>,
    missing: Seq<char>,
    invalid: Seq<char>,
) -> Result<u64, Seq<char>> {
    match text_of(value, name, missing) {
        Err(error) => Err(error),
        Ok(t) => match text::parse_unsigned(t) {
            Some(n) => if n <= u64::MAX {
                Ok(n as u64)
            } else {
                Err(invalid)
            },
            None => Err(invalid),
        },
    }
}

fn read_unsigned(value: &Json, name: &str, missing: &str, invalid: &str) -> (r: Result<u64, String>)
    ensures
        gives(r, written_unsigned(value@, name@, missing@, invalid@)),
{
    match text_member(value, name, missing) {
        Err(error) => Err(error),
        Ok(t) => match text::parse_u64(t) {
            Some(n) => Ok(n),
            None => Err(String::from_str(invalid)),
        },
    }
}

/// A whole number that a request must hold as text.
pub open spec fn written_signed(
    value: JsonView,
    name: Seq<char>,
    missing: Seq<char>,
    invalid: Seq<char>,
) -> Result<i64, Seq<char>> {
    match text_of(value, name, missing) {
        Err(error) => Err(error),
        Ok(t) => match text::parse_signed(t) {
            Some(n) => if i64::MIN <= n <= i64::MAX {
                Ok(n as i64)
            } else {
                Err(invalid)
            },
            None => Err(invalid),
        },
    }
}

fn read_signed(value: &Json, name: &str, missing: &str, invalid: &str) -> (r: Result<i64, String>)
    ensures
        gives(r, written_signed(value@, name@, missing@, invalid@)),
{
    match text_member(value, name, missing) {
        Err(error) => Err(error),
        Ok(t) => match text::parse_i64(t) {
            Some(n) => Ok(n),
            None => Err(String::from_str(invalid)),
        },
    }
}

/// A list that a request must hold.
pub open spec fn list_of(value: JsonView, name: Seq<char>, words: Seq<char>) -> Result<
    Seq<JsonView>,
    Seq<char>,
> {
    match value.member(name) {
        Some(JsonView::List(items)) => Ok(items),
        _ => Err(words),
    }
}

fn list_member<'a>(value: &'a Json, name: &str, words: &str) -> (r: Result<&'a Vec<Json>, String>)
    ensures
        match r {
            Ok(items) => list_of(value@, name@, words@) == Ok::<Seq<JsonView>, Seq<char>>(
                json::views(items@),
            ),
            Err(error) => list_of(value@, name@, words@) == Err::<Seq<JsonView>, Seq<char>>(error@),
        },
{
    match value.get(name) {
        Some(member) => match member.as_array() {
            Some(items) => Ok(items),
            None => Err(String::from_str(words)),
        },
        None => Err(String::from_str(words)),
    }
}

/// What reading the items of a list in order gives: all of them, or the first
/// error.
pub open spec fn all_of<T>(items: Seq<JsonView>, read: spec_fn(JsonView) -> Result<T, Seq<char>>) -> Result<
    Seq<T>,
    Seq<char>,
>
    decreases items.len(),
{
    if items.len() == 0 {
        Ok(seq![])
    } else {
        match all_of(items.drop_last(), read) {
            Err(error) => Err(error),
            Ok(values) => match read(items.last()) {
                Err(error) => Err(error),
                Ok(value) => Ok(values.push(value)),
            },
        }
    }
}

proof fn lemma_first_error<T>(
    items: Seq<JsonView>,
    read: spec_fn(JsonView) -> Result<T, Seq<char>>,
    i: int,
)
    requires
        0 <= i <= items.len(),
        all_of(items.take(i), read) is Err,
    ensures
        all_of(items, read) == all_of(items.take(i), read),
    decreases items.len() - i,
{
    if i == items.len() {
        assert(items.take(i) =~= items);
    } else {
        assert(items.take(i + 1).drop_last() =~= items.take(i));
        lemma_first_error(items, read, i + 1);
    }
}

// ---- the questions -------------------------------------------------------

/// One failed message whose retry is asked about.
#[derive(Clone, Copy, Debug, PartialEq, Eq)]
pub struct RetryEntry {
    pub attempt: u16,
    pub max_retries: u16,
    pub explicit_seconds: Option<u32>,
    pub configured_seconds: Option<u32>,
}

/// One lease that ran out.
#[derive(Clone, Copy, Debug, PartialEq, Eq)]
pub struct ExpiryEntry {
    pub prior_failures: u16,
    pub max_retries: u16,
    pub configured_seconds: Option<u32>,
    pub purge_on_settle: bool,
}

/// One message that could be leased.
#[derive(Clone, Copy, Debug, PartialEq, Eq)]
pub struct BatchRow {
    pub seq: i64,
    pub visible_at: i64,
    pub lease_generation: u64,
    pub leased_until: Option<i64>,
    pub purge_on_settle: bool,
}

/// One message that is to be purged.
#[derive(Clone, Copy, Debug, PartialEq, Eq)]
pub struct PurgeRow {
    pub seq: i64,
    pub lease_id_present: bool,
    pub leased_until: Option<i64>,
}

/// One message of a lease.
pub struct LeaseMember {
    pub seq: i64,
    pub message_id: String,
    pub generation: u64,
}

pub struct LeaseMemberView {
    pub seq: i64,
    pub message_id: Seq<char>,
    pub generation: u64,
}

impl View for LeaseMember {
    type V = LeaseMemberView;

    open spec fn view(&self) -> LeaseMemberView {
        LeaseMemberView {
            seq: self.seq,
            message_id: self.message_id@,
            generation: self.generation,
        }
    }
}

/// A policy question of a Queue cell.
#[allow(inconsistent_fields)]
pub enum PolicyRequest {
    /// When the next alarm is due.
    Rearm {
        now: i64,
        batch_deadline: Option<i64>,
        earliest_visible: Option<i64>,
        earliest_lease_expiry: Option<i64>,
        next_sweep: Option<i64>,
    },
    /// Whether another lease fits.
    Capacity { active: usize, maximum: u16 },
    /// When failed messages are retried.
    Retries { now: i64, entries: Vec<RetryEntry> },
    /// What becomes of leases that ran out.
    Expiry { now: i64, entries: Vec<ExpiryEntry> },
    /// Which messages are leased next.
    Batch { now: i64, max_batch_size: usize, rows: Vec<BatchRow> },
    /// Whether a settlement is of the current lease.
    Settlement { current: Vec<LeaseMember>, submitted: Vec<LeaseMember> },
    /// Which messages a purge deletes.
    Purge { now: i64, rows: Vec<PurgeRow> },
}

#[allow(inconsistent_fields)]
pub enum PolicyRequestView {
    Rearm {
        now: i64,
        batch_deadline: Option<i64>,
        earliest_visible: Option<i64>,
        earliest_lease_expiry: Option<i64>,
        next_sweep: Option<i64>,
    },
    Capacity { active: usize, maximum: u16 },
    Retries { now: i64, entries: Seq<RetryEntry> },
    Expiry { now: i64, entries: Seq<ExpiryEntry> },
    Batch { now: i64, max_batch_size: usize, rows: Seq<BatchRow> },
    Settlement { current: Seq<LeaseMemberView>, submitted: Seq<LeaseMemberView> },
    Purge { now: i64, rows: Seq<PurgeRow> },
}

pub open spec fn member_views(members: Seq<LeaseMember>) -> Seq<LeaseMemberView> {
    members.map_values(|m: LeaseMember| m@)
}

impl View for PolicyRequest {
    type V = PolicyRequestView;

    open spec fn view(&self) -> PolicyRequestView {
        match self {
            PolicyRequest::Rearm {
                now,
                batch_deadline,
                earliest_visible,
                earliest_lease_expiry,
                next_sweep,
            } => PolicyRequestView::Rearm {
                now: *now,
                batch_deadline: *batch_deadline,
                earliest_visible: *earliest_visible,
                earliest_lease_expiry: *earliest_lease_expiry,
                next_sweep: *next_sweep,
            },
            PolicyRequest::Capacity { active, maximum } => PolicyRequestView::Capacity {
                active: *active,
                maximum: *maximum,
            },
            PolicyRequest::Retries { now, entries } => PolicyRequestView::Retries {
                now: *now,
                entries: entries@,
            },
            PolicyRequest::Expiry { now, entries } => PolicyRequestView::Expiry {
                now: *now,
                entries: entries@,
            },
            PolicyRequest::Batch { now, max_batch_size, rows } => PolicyRequestView::Batch {
                now: *now,
                max_batch_size: *max_batch_size,
                rows: rows@,
            },
            PolicyRequest::Settlement { current, submitted } => PolicyRequestView::Settlement {
                current: member_views(current@),
                submitted: member_views(submitted@),
            },
            PolicyRequest::Purge { now, rows } => PolicyRequestView::Purge {
                now: *now,
                rows: rows@,
            },
        }
    }
}

/// What a failed message's entry reads as.
pub open spec fn retry_entry(value: JsonView) -> Result<RetryEntry, Seq<char>> {
    match small_of(value, "attempt"@, "Queue retry attempt is out of range"@) {
        Err(error) => Err(error),
        Ok(attempt) => match small_of(value, "maxRetries"@, "Queue maxRetries is out of range"@) {
            Err(error) => Err(error),
            Ok(max_retries) => match seconds_of(value, "explicitSeconds"@, "Queue retry explicitSeconds is out of range"@) {
                Err(error) => Err(error),
                Ok(explicit_seconds) => match seconds_of(value, "configuredSeconds"@, "Queue retry configuredSeconds is out of range"@) {
                    Err(error) => Err(error),
                    Ok(configured_seconds) => Ok(RetryEntry { attempt, max_retries, explicit_seconds, configured_seconds }),
                },
            },
        },
    }
}

fn read_retry_entry(value: &Json) -> (r: Result<RetryEntry, String>)
    ensures
        gives(r, retry_entry(value@)),
{
    let attempt = match small(value, "attempt", "Queue retry attempt is out of range") {
        Ok(value) => value,
        Err(error) => {
            return Err(error);
        },
    };
    let max_retries = match small(value, "maxRetries", "Queue maxRetries is out of range") {
        Ok(value) => value,
        Err(error) => {
            return Err(error);
        },
    };
    let explicit_seconds = match seconds(value, "explicitSeconds", "Queue retry explicitSeconds is out of range") {
        Ok(value) => value,
        Err(error) => {
            return Err(error);
        },
    };
    let configured_seconds = match seconds(value, "configuredSeconds", "Queue retry configuredSeconds is out of range") {
        Ok(value) => value,
        Err(error) => {
            return Err(error);
        },
    };
    Ok(RetryEntry { attempt, max_retries, explicit_seconds, configured_seconds })
}

fn read_retry_entries(items: &Vec<Json>) -> (r: Result<Vec<RetryEntry>, String>)
    ensures
        match r {
            Ok(values) => all_of(json::views(items@), |v: JsonView| retry_entry(v)) == Ok::<Seq<RetryEntry>, Seq<char>>(values@),
            Err(error) => all_of(json::views(items@), |v: JsonView| retry_entry(v)) == Err::<Seq<RetryEntry>, Seq<char>>(
                error@,
            ),
        },
{
    let ghost read = |v: JsonView| retry_entry(v);
    let ghost all = json::views(items@);
    let mut values: Vec<RetryEntry> = Vec::new();
    let mut i: usize = 0;
    assert(all.take(0) =~= Seq::<JsonView>::empty());
    assert(values@ =~= Seq::<RetryEntry>::empty());
    while i < items.len()
        invariant
            i <= items@.len(),
            all == json::views(items@),
            read == (|v: JsonView| retry_entry(v)),
            all_of(all.take(i as int), read) == Ok::<Seq<RetryEntry>, Seq<char>>(values@),
        decreases items.len() - i,
    {
        proof {
            assert(all.take(i + 1).drop_last() =~= all.take(i as int));
            assert(all.take(i + 1).last() == items@[i as int]@);
        }
        let ghost before = values@;
        match read_retry_entry(&items[i]) {
            Ok(value) => {
                values.push(value);
                assert(values@ =~= before.push(value));
            },
            Err(error) => {
                proof {
                    lemma_first_error(all, read, i + 1);
                }
                return Err(error);
            },
        }
        i = i + 1;
    }
    assert(all.take(i as int) =~= all);
    Ok(values)
}

/// What the entry of a lease that ran out reads as.
pub open spec fn expiry_entry(value: JsonView) -> Result<ExpiryEntry, Seq<char>> {
    match small_of(value, "priorFailures"@, "Queue priorFailures is out of range"@) {
        Err(error) => Err(error),
        Ok(prior_failures) => match small_of(value, "maxRetries"@, "Queue maxRetries is out of range"@) {
            Err(error) => Err(error),
            Ok(max_retries) => match seconds_of(value, "configuredSeconds"@, "Queue retry delay is out of range"@) {
                Err(error) => Err(error),
                Ok(configured_seconds) => match flag_of(value, "purgeOnSettle"@, "Queue expiry has no purgeOnSettle"@) {
                    Err(error) => Err(error),
                    Ok(purge_on_settle) => Ok(ExpiryEntry { prior_failures, max_retries, configured_seconds, purge_on_settle }),
                },
            },
        },
    }
}

fn read_expiry_entry(value: &Json) -> (r: Result<ExpiryEntry, String>)
    ensures
        gives(r, expiry_entry(value@)),
{
    let prior_failures = match small(value, "priorFailures", "Queue priorFailures is out of range") {
        Ok(value) => value,
        Err(error) => {
            return Err(error);
        },
    };
    let max_retries = match small(value, "maxRetries", "Queue maxRetries is out of range") {
        Ok(value) => value,
        Err(error) => {
            return Err(error);
        },
    };
    let configured_seconds = match seconds(value, "configuredSeconds", "Queue retry delay is out of range") {
        Ok(value) => value,
        Err(error) => {
            return Err(error);
        },
    };
    let purge_on_settle = match flag(value, "purgeOnSettle", "Queue expiry has no purgeOnSettle") {
        Ok(value) => value,
        Err(error) => {
            return Err(error);
        },
    };
    Ok(ExpiryEntry { prior_failures, max_retries, configured_seconds, purge_on_settle })
}

fn read_expiry_entries(items: &Vec<Json>) -> (r: Result<Vec<ExpiryEntry>, String>)
    ensures
        match r {
            Ok(values) => all_of(json::views(items@), |v: JsonView| expiry_entry(v)) == Ok::<Seq<ExpiryEntry>, Seq<char>>(values@),
            Err(error) => all_of(json::views(items@), |v: JsonView| expiry_entry(v)) == Err::<Seq<ExpiryEntry>, Seq<char>>(
                error@,
            ),
        },
{
    let ghost read = |v: JsonView| expiry_entry(v);
    let ghost all = json::views(items@);
    let mut values: Vec<ExpiryEntry> = Vec::new();
    let mut i: usize = 0;
    assert(all.take(0) =~= Seq::<JsonView>::empty());
    assert(values@ =~= Seq::<ExpiryEntry>::empty());
    while i < items.len()
        invariant
            i <= items@.len(),
            all == json::views(items@),
            read == (|v: JsonView| expiry_entry(v)),
            all_of(all.take(i as int), read) == Ok::<Seq<ExpiryEntry>, Seq<char>>(values@),
        decreases items.len() - i,
    {
        proof {
            assert(all.take(i + 1).drop_last() =~= all.take(i as int));
            assert(all.take(i + 1).last() == items@[i as int]@);
        }
        let ghost before = values@;
        match read_expiry_entry(&items[i]) {
            Ok(value) => {
                values.push(value);
                assert(values@ =~= before.push(value));
            },
            Err(error) => {
                proof {
                    lemma_first_error(all, read, i + 1);
                }
                return Err(error);
            },
        }
        i = i + 1;
    }
    assert(all.take(i as int) =~= all);
    Ok(values)
}

/// What the row of a message that could be leased reads as.
pub open spec fn batch_row(value: JsonView) -> Result<BatchRow, Seq<char>> {
    match written_unsigned(value, "leaseGeneration"@, "Queue row has no leaseGeneration"@, "Queue leaseGeneration is invalid"@) {
        Err(error) => Err(error),
        Ok(lease_generation) => match integer_of(value, "seq"@) {
            Err(error) => Err(error),
            Ok(seq) => match integer_of(value, "visibleAt"@) {
                Err(error) => Err(error),
                Ok(visible_at) => match optional_integer_of(value, "leasedUntil"@) {
                    Err(error) => Err(error),
                    Ok(leased_until) => match flag_of(value, "purgeOnSettle"@, "Queue row has no purgeOnSettle"@) {
                        Err(error) => Err(error),
                        Ok(purge_on_settle) => Ok(BatchRow { lease_generation, seq, visible_at, leased_until, purge_on_settle }),
                    },
                },
            },
        },
    }
}

fn read_batch_row(value: &Json) -> (r: Result<BatchRow, String>)
    ensures
        gives(r, batch_row(value@)),
{
    let lease_generation = match read_unsigned(value, "leaseGeneration", "Queue row has no leaseGeneration", "Queue leaseGeneration is invalid") {
        Ok(value) => value,
        Err(error) => {
            return Err(error);
        },
    };
    let seq = match integer(value, "seq") {
        Ok(value) => value,
        Err(error) => {
            return Err(error);
        },
    };
    let visible_at = match integer(value, "visibleAt") {
        Ok(value) => value,
        Err(error) => {
            return Err(error);
        },
    };
    let leased_until = match optional_integer(value, "leasedUntil") {
        Ok(value) => value,
        Err(error) => {
            return Err(error);
        },
    };
    let purge_on_settle = match flag(value, "purgeOnSettle", "Queue row has no purgeOnSettle") {
        Ok(value) => value,
        Err(error) => {
            return Err(error);
        },
    };
    Ok(BatchRow { lease_generation, seq, visible_at, leased_until, purge_on_settle })
}

fn read_batch_rows(items: &Vec<Json>) -> (r: Result<Vec<BatchRow>, String>)
    ensures
        match r {
            Ok(values) => all_of(json::views(items@), |v: JsonView| batch_row(v)) == Ok::<Seq<BatchRow>, Seq<char>>(values@),
            Err(error) => all_of(json::views(items@), |v: JsonView| batch_row(v)) == Err::<Seq<BatchRow>, Seq<char>>(
                error@,
            ),
        },
{
    let ghost read = |v: JsonView| batch_row(v);
    let ghost all = json::views(items@);
    let mut values: Vec<BatchRow> = Vec::new();
    let mut i: usize = 0;
    assert(all.take(0) =~= Seq::<JsonView>::empty());
    assert(values@ =~= Seq::<BatchRow>::empty());
    while i < items.len()
        invariant
            i <= items@.len(),
            all == json::views(items@),
            read == (|v: JsonView| batch_row(v)),
            all_of(all.take(i as int), read) == Ok::<Seq<BatchRow>, Seq<char>>(values@),
        decreases items.len() - i,
    {
        proof {
            assert(all.take(i + 1).drop_last() =~= all.take(i as int));
            assert(all.take(i + 1).last() == items@[i as int]@);
        }
        let ghost before = values@;
        match read_batch_row(&items[i]) {
            Ok(value) => {
                values.push(value);
                assert(values@ =~= before.push(value));
            },
            Err(error) => {
                proof {
                    lemma_first_error(all, read, i + 1);
                }
                return Err(error);
            },
        }
        i = i + 1;
    }
    assert(all.take(i as int) =~= all);
    Ok(values)
}

/// What the row of a message that is to be purged reads as.
pub open spec fn purge_row(value: JsonView) -> Result<PurgeRow, Seq<char>> {
    match written_signed(value, "seq"@, "Queue purge row has no sequence"@, "Queue purge sequence is invalid"@) {
        Err(error) => Err(error),
        Ok(seq) => match flag_of(value, "leaseIdPresent"@, "Queue purge row has no lease state"@) {
            Err(error) => Err(error),
            Ok(lease_id_present) => match optional_integer_of(value, "leasedUntil"@) {
                Err(error) => Err(error),
                Ok(leased_until) => Ok(PurgeRow { seq, lease_id_present, leased_until }),
            },
        },
    }
}

fn read_purge_row(value: &Json) -> (r: Result<PurgeRow, String>)
    ensures
        gives(r, purge_row(value@)),
{
    let seq = match read_signed(value, "seq", "Queue purge row has no sequence", "Queue purge sequence is invalid") {
        Ok(value) => value,
        Err(error) => {
            return Err(error);
        },
    };
    let lease_id_present = match flag(value, "leaseIdPresent", "Queue purge row has no lease state") {
        Ok(value) => value,
        Err(error) => {
            return Err(error);
        },
    };
    let leased_until = match optional_integer(value, "leasedUntil") {
        Ok(value) => value,
        Err(error) => {
            return Err(error);
        },
    };
    Ok(PurgeRow { seq, lease_id_present, leased_until })
}

fn read_purge_rows(items: &Vec<Json>) -> (r: Result<Vec<PurgeRow>, String>)
    ensures
        match r {
            Ok(values) => all_of(json::views(items@), |v: JsonView| purge_row(v)) == Ok::<Seq<PurgeRow>, Seq<char>>(values@),
            Err(error) => all_of(json::views(items@), |v: JsonView| purge_row(v)) == Err::<Seq<PurgeRow>, Seq<char>>(
                error@,
            ),
        },
{
    let ghost read = |v: JsonView| purge_row(v);
    let ghost all = json::views(items@);
    let mut values: Vec<PurgeRow> = Vec::new();
    let mut i: usize = 0;
    assert(all.take(0) =~= Seq::<JsonView>::empty());
    assert(values@ =~= Seq::<PurgeRow>::empty());
    while i < items.len()
        invariant
            i <= items@.len(),
            all == json::views(items@),
            read == (|v: JsonView| purge_row(v)),
            all_of(all.take(i as int), read) == Ok::<Seq<PurgeRow>, Seq<char>>(values@),
        decreases items.len() - i,
    {
        proof {
            assert(all.take(i + 1).drop_last() =~= all.take(i as int));
            assert(all.take(i + 1).last() == items@[i as int]@);
        }
        let ghost before = values@;
        match read_purge_row(&items[i]) {
            Ok(value) => {
                values.push(value);
                assert(values@ =~= before.push(value));
            },
            Err(error) => {
                proof {
                    lemma_first_error(all, read, i + 1);
                }
                return Err(error);
            },
        }
        i = i + 1;
    }
    assert(all.take(i as int) =~= all);
    Ok(values)
}

/// What a lease's member reads as.
pub open spec fn lease_member(value: JsonView) -> Result<LeaseMemberView, Seq<char>> {
    match written_signed(value, "seq"@, "Queue settlement member has no seq"@, "Queue settlement sequence is invalid"@) {
        Err(error) => Err(error),
        Ok(seq) => match text_of(value, "messageId"@, "Queue settlement member has no messageId"@) {
            Err(error) => Err(error),
            Ok(message_id) => match written_unsigned(value, "generation"@, "Queue settlement member has no generation"@, "Queue settlement generation is invalid"@) {
                Err(error) => Err(error),
                Ok(generation) => Ok(LeaseMemberView { seq, message_id, generation }),
            },
        },
    }
}

fn read_lease_member(value: &Json) -> (r: Result<LeaseMember, String>)
    ensures
        match r {
            Ok(member) => lease_member(value@) == Ok::<LeaseMemberView, Seq<char>>(member@),
            Err(error) => lease_member(value@) == Err::<LeaseMemberView, Seq<char>>(error@),
        },
{
    let seq = match read_signed(value, "seq", "Queue settlement member has no seq", "Queue settlement sequence is invalid") {
        Ok(value) => value,
        Err(error) => {
            return Err(error);
        },
    };
    let message_id = match text_member(value, "messageId", "Queue settlement member has no messageId") {
        Ok(value) => value,
        Err(error) => {
            return Err(error);
        },
    };
    let generation = match read_unsigned(value, "generation", "Queue settlement member has no generation", "Queue settlement generation is invalid") {
        Ok(value) => value,
        Err(error) => {
            return Err(error);
        },
    };
    Ok(LeaseMember { seq, message_id: String::from_str(message_id), generation })
}

fn read_lease_members(items: &Vec<Json>) -> (r: Result<Vec<LeaseMember>, String>)
    ensures
        match r {
            Ok(values) => all_of(json::views(items@), |v: JsonView| lease_member(v)) == Ok::<Seq<LeaseMemberView>, Seq<char>>(member_views(values@)),
            Err(error) => all_of(json::views(items@), |v: JsonView| lease_member(v)) == Err::<Seq<LeaseMemberView>, Seq<char>>(
                error@,
            ),
        },
{
    let ghost read = |v: JsonView| lease_member(v);
    let ghost all = json::views(items@);
    let mut values: Vec<LeaseMember> = Vec::new();
    let mut i: usize = 0;
    assert(all.take(0) =~= Seq::<JsonView>::empty());
    assert(member_views(values@) =~= Seq::<LeaseMemberView>::empty());
    while i < items.len()
        invariant
            i <= items@.len(),
            all == json::views(items@),
            read == (|v: JsonView| lease_member(v)),
            all_of(all.take(i as int), read) == Ok::<Seq<LeaseMemberView>, Seq<char>>(member_views(values@)),
        decreases items.len() - i,
    {
        proof {
            assert(all.take(i + 1).drop_last() =~= all.take(i as int));
            assert(all.take(i + 1).last() == items@[i as int]@);
        }
        let ghost before = values@;
        match read_lease_member(&items[i]) {
            Ok(value) => {
                values.push(value);
                assert(member_views(values@) =~= member_views(before).push(value@));
            },
            Err(error) => {
                proof {
                    lemma_first_error(all, read, i + 1);
                }
                return Err(error);
            },
        }
        i = i + 1;
    }
    assert(all.take(i as int) =~= all);
    Ok(values)
}

/// What the question when the next alarm is due reads as.
pub open spec fn rearm_request(value: JsonView) -> Result<PolicyRequestView, Seq<char>> {
    match integer_of(value, "now"@) {
        Err(error) => Err(error),
        Ok(now) => match optional_integer_of(value, "batchDeadline"@) {
            Err(error) => Err(error),
            Ok(batch_deadline) => match optional_integer_of(value, "earliestVisible"@) {
                Err(error) => Err(error),
                Ok(earliest_visible) => match optional_integer_of(value, "earliestLeaseExpiry"@) {
                    Err(error) => Err(error),
                    Ok(earliest_lease_expiry) => match optional_integer_of(value, "nextSweep"@) {
                        Err(error) => Err(error),
                        Ok(next_sweep) => Ok(PolicyRequestView::Rearm { now, batch_deadline, earliest_visible, earliest_lease_expiry, next_sweep }),
                    },
                },
            },
        },
    }
}

fn read_rearm(value: &Json) -> (r: Result<PolicyRequest, String>)
    ensures
        match r {
            Ok(request) => rearm_request(value@) == Ok::<PolicyRequestView, Seq<char>>(request@),
            Err(error) => rearm_request(value@) == Err::<PolicyRequestView, Seq<char>>(error@),
        },
{
    let now = match integer(value, "now") {
        Ok(value) => value,
        Err(error) => {
            return Err(error);
        },
    };
    let batch_deadline = match optional_integer(value, "batchDeadline") {
        Ok(value) => value,
        Err(error) => {
            return Err(error);
        },
    };
    let earliest_visible = match optional_integer(value, "earliestVisible") {
        Ok(value) => value,
        Err(error) => {
            return Err(error);
        },
    };
    let earliest_lease_expiry = match optional_integer(value, "earliestLeaseExpiry") {
        Ok(value) => value,
        Err(error) => {
            return Err(error);
        },
    };
    let next_sweep = match optional_integer(value, "nextSweep") {
        Ok(value) => value,
        Err(error) => {
            return Err(error);
        },
    };
    Ok(PolicyRequest::Rearm { now, batch_deadline, earliest_visible, earliest_lease_expiry, next_sweep })
}

/// What the question whether another lease fits reads as.
pub open spec fn capacity_request(value: JsonView) -> Result<PolicyRequestView, Seq<char>> {
    match count_of(value, "active"@, "Queue active concurrency is out of range"@) {
        Err(error) => Err(error),
        Ok(active) => match small_of(value, "maximum"@, "Queue max concurrency is out of range"@) {
            Err(error) => Err(error),
            Ok(maximum) => Ok(PolicyRequestView::Capacity { active, maximum }),
        },
    }
}

fn read_capacity(value: &Json) -> (r: Result<PolicyRequest, String>)
    ensures
        match r {
            Ok(request) => capacity_request(value@) == Ok::<PolicyRequestView, Seq<char>>(request@),
            Err(error) => capacity_request(value@) == Err::<PolicyRequestView, Seq<char>>(error@),
        },
{
    let active = match count(value, "active", "Queue active concurrency is out of range") {
        Ok(value) => value,
        Err(error) => {
            return Err(error);
        },
    };
    let maximum = match small(value, "maximum", "Queue max concurrency is out of range") {
        Ok(value) => value,
        Err(error) => {
            return Err(error);
        },
    };
    Ok(PolicyRequest::Capacity { active, maximum })
}

/// What the question when failed messages are retried reads as.
pub open spec fn retries_request(value: JsonView) -> Result<PolicyRequestView, Seq<char>> {
    match integer_of(value, "now"@) {
        Err(error) => Err(error),
        Ok(now) => match list_of(value, "entries"@, "Queue retry policy has no entries"@) {
            Err(error) => Err(error),
            Ok(items) => match all_of(items, |v: JsonView| retry_entry(v)) {
                Err(error) => Err(error),
                Ok(entries) => Ok(PolicyRequestView::Retries { now, entries }),
            },
        },
    }
}

fn read_retries(value: &Json) -> (r: Result<PolicyRequest, String>)
    ensures
        match r {
            Ok(request) => retries_request(value@) == Ok::<PolicyRequestView, Seq<char>>(request@),
            Err(error) => retries_request(value@) == Err::<PolicyRequestView, Seq<char>>(error@),
        },
{
    let now = match integer(value, "now") {
        Ok(value) => value,
        Err(error) => {
            return Err(error);
        },
    };
    let items = match list_member(value, "entries", "Queue retry policy has no entries") {
        Ok(value) => value,
        Err(error) => {
            return Err(error);
        },
    };
    let entries = match read_retry_entries(items) {
        Ok(value) => value,
        Err(error) => {
            return Err(error);
        },
    };
    Ok(PolicyRequest::Retries { now, entries })
}

/// What the question what becomes of leases that ran out reads as.
pub open spec fn expiry_request(value: JsonView) -> Result<PolicyRequestView, Seq<char>> {
    match integer_of(value, "now"@) {
        Err(error) => Err(error),
        Ok(now) => match list_of(value, "entries"@, "Queue expiry policy has no entries"@) {
            Err(error) => Err(error),
            Ok(items) => match all_of(items, |v: JsonView| expiry_entry(v)) {
                Err(error) => Err(error),
                Ok(entries) => Ok(PolicyRequestView::Expiry { now, entries }),
            },
        },
    }
}

fn read_expiry(value: &Json) -> (r: Result<PolicyRequest, String>)
    ensures
        match r {
            Ok(request) => expiry_request(value@) == Ok::<PolicyRequestView, Seq<char>>(request@),
            Err(error) => expiry_request(value@) == Err::<PolicyRequestView, Seq<char>>(error@),
        },
{
    let now = match integer(value, "now") {
        Ok(value) => value,
        Err(error) => {
            return Err(error);
        },
    };
    let items = match list_member(value, "entries", "Queue expiry policy has no entries") {
        Ok(value) => value,
        Err(error) => {
            return Err(error);
        },
    };
    let entries = match read_expiry_entries(items) {
        Ok(value) => value,
        Err(error) => {
            return Err(error);
        },
    };
    Ok(PolicyRequest::Expiry { now, entries })
}

/// What the question which messages are leased next reads as.
pub open spec fn batch_request(value: JsonView) -> Result<PolicyRequestView, Seq<char>> {
    match integer_of(value, "now"@) {
        Err(error) => Err(error),
        Ok(now) => match count_of(value, "maxBatchSize"@, "Queue maxBatchSize is out of range"@) {
            Err(error) => Err(error),
            Ok(max_batch_size) => match list_of(value, "rows"@, "Queue batch policy has no rows"@) {
                Err(error) => Err(error),
                Ok(items) => match all_of(items, |v: JsonView| batch_row(v)) {
                    Err(error) => Err(error),
                    Ok(rows) => Ok(PolicyRequestView::Batch { now, max_batch_size, rows }),
                },
            },
        },
    }
}

fn read_batch(value: &Json) -> (r: Result<PolicyRequest, String>)
    ensures
        match r {
            Ok(request) => batch_request(value@) == Ok::<PolicyRequestView, Seq<char>>(request@),
            Err(error) => batch_request(value@) == Err::<PolicyRequestView, Seq<char>>(error@),
        },
{
    let now = match integer(value, "now") {
        Ok(value) => value,
        Err(error) => {
            return Err(error);
        },
    };
    let max_batch_size = match count(value, "maxBatchSize", "Queue maxBatchSize is out of range") {
        Ok(value) => value,
        Err(error) => {
            return Err(error);
        },
    };
    let items = match list_member(value, "rows", "Queue batch policy has no rows") {
        Ok(value) => value,
        Err(error) => {
            return Err(error);
        },
    };
    let rows = match read_batch_rows(items) {
        Ok(value) => value,
        Err(error) => {
            return Err(error);
        },
    };
    Ok(PolicyRequest::Batch { now, max_batch_size, rows })
}

/// What the question whether a settlement is of the current lease reads as.
pub open spec fn settlement_request(value: JsonView) -> Result<PolicyRequestView, Seq<char>> {
    match list_of(value, "current"@, "Queue settlement policy has no current"@) {
        Err(error) => Err(error),
        Ok(first) => match all_of(first, |v: JsonView| lease_member(v)) {
            Err(error) => Err(error),
            Ok(current) => match list_of(value, "submitted"@, "Queue settlement policy has no submitted"@) {
                Err(error) => Err(error),
                Ok(second) => match all_of(second, |v: JsonView| lease_member(v)) {
                    Err(error) => Err(error),
                    Ok(submitted) => Ok(PolicyRequestView::Settlement { current, submitted }),
                },
            },
        },
    }
}

fn read_settlement(value: &Json) -> (r: Result<PolicyRequest, String>)
    ensures
        match r {
            Ok(request) => settlement_request(value@) == Ok::<PolicyRequestView, Seq<char>>(request@),
            Err(error) => settlement_request(value@) == Err::<PolicyRequestView, Seq<char>>(error@),
        },
{
    let first = match list_member(value, "current", "Queue settlement policy has no current") {
        Ok(value) => value,
        Err(error) => {
            return Err(error);
        },
    };
    let current = match read_lease_members(first) {
        Ok(value) => value,
        Err(error) => {
            return Err(error);
        },
    };
    let second = match list_member(value, "submitted", "Queue settlement policy has no submitted") {
        Ok(value) => value,
        Err(error) => {
            return Err(error);
        },
    };
    let submitted = match read_lease_members(second) {
        Ok(value) => value,
        Err(error) => {
            return Err(error);
        },
    };
    Ok(PolicyRequest::Settlement { current, submitted })
}

/// What the question which messages a purge deletes reads as.
pub open spec fn purge_request(value: JsonView) -> Result<PolicyRequestView, Seq<char>> {
    match integer_of(value, "now"@) {
        Err(error) => Err(error),
        Ok(now) => match list_of(value, "rows"@, "Queue purge policy has no rows"@) {
            Err(error) => Err(error),
            Ok(items) => match all_of(items, |v: JsonView| purge_row(v)) {
                Err(error) => Err(error),
                Ok(rows) => Ok(PolicyRequestView::Purge { now, rows }),
            },
        },
    }
}

fn read_purge(value: &Json) -> (r: Result<PolicyRequest, String>)
    ensures
        match r {
            Ok(request) => purge_request(value@) == Ok::<PolicyRequestView, Seq<char>>(request@),
            Err(error) => purge_request(value@) == Err::<PolicyRequestView, Seq<char>>(error@),
        },
{
    let now = match integer(value, "now") {
        Ok(value) => value,
        Err(error) => {
            return Err(error);
        },
    };
    let items = match list_member(value, "rows", "Queue purge policy has no rows") {
        Ok(value) => value,
        Err(error) => {
            return Err(error);
        },
    };
    let rows = match read_purge_rows(items) {
        Ok(value) => value,
        Err(error) => {
            return Err(error);
        },
    };
    Ok(PolicyRequest::Purge { now, rows })
}

/// What a policy question reads as, by its operation.
pub open spec fn policy_request(value: JsonView) -> Result<PolicyRequestView, Seq<char>> {
    match value.member("op"@) {
        Some(JsonView::Text(op)) => {
            if op == "rearm"@ {
                rearm_request(value)
            } else if op == "capacity"@ {
                capacity_request(value)
            } else if op == "retries"@ {
                retries_request(value)
            } else if op == "expiry"@ {
                expiry_request(value)
            } else if op == "batch"@ {
                batch_request(value)
            } else if op == "settlement"@ {
                settlement_request(value)
            } else if op == "purge"@ {
                purge_request(value)
            } else {
                Err("unknown Queue policy operation "@ + generation::quoted(op))
            }
        },
        _ => Err("Queue policy input has no op"@),
    }
}

/// Reads a policy question.
pub fn run(value: &Json) -> (r: Result<PolicyRequest, String>)
    ensures
        match r {
            Ok(request) => policy_request(value@) == Ok::<PolicyRequestView, Seq<char>>(request@),
            Err(error) => policy_request(value@) == Err::<PolicyRequestView, Seq<char>>(error@),
        },
{
    let op = match text_member(value, "op", "Queue policy input has no op") {
        Ok(op) => op,
        Err(error) => {
            return Err(error);
        },
    };
    if text::same(op, "rearm") {
        read_rearm(value)
    } else if text::same(op, "capacity") {
        read_capacity(value)
    } else if text::same(op, "retries") {
        read_retries(value)
    } else if text::same(op, "expiry") {
        read_expiry(value)
    } else if text::same(op, "batch") {
        read_batch(value)
    } else if text::same(op, "settlement") {
        read_settlement(value)
    } else if text::same(op, "purge") {
        read_purge(value)
    } else {
        Err(text::join("unknown Queue policy operation ", generation::quote(op).as_str()))
    }
}

// ---- what the questions say ----------------------------------------------

/// Whether a value holds a whole number under a name.
pub open spec fn says(value: JsonView, name: Seq<char>, n: int) -> bool {
    value.member(name) == Some(JsonView::Int(n))
}

/// Whether a value holds a whole number under a name, or none: no such member,
/// or a null.
pub open spec fn may_say(value: JsonView, name: Seq<char>, n: Option<int>) -> bool {
    match n {
        Some(n) => value.member(name) == Some(JsonView::Int(n)),
        None => value.member(name) is None || value.member(name) == Some(JsonView::Null),
    }
}

/// Whether a value holds, under a name, a text that writes a whole number.
pub open spec fn writes(value: JsonView, name: Seq<char>, n: int) -> bool {
    value.member(name) matches Some(JsonView::Text(t)) && text::parse_signed(t) == Some(n)
}

/// Whether a value holds, under a name, a text that writes a number without a
/// minus sign.
pub open spec fn writes_unsigned(value: JsonView, name: Seq<char>, n: nat) -> bool {
    value.member(name) matches Some(JsonView::Text(t)) && text::parse_unsigned(t) == Some(n)
}

proof fn lemma_number(value: Json, name: Seq<char>)
    ensures
        value@.member(name) matches Some(JsonView::Int(n)) ==> i64::MIN <= n <= i64::MAX,
{
    if value@.member(name) is Some {
        let member = json::lemma_member_value(value, name);
        assert(member@ is Int ==> member is Int);
    }
}

proof fn lemma_items(value: Json, name: Seq<char>, i: int) -> (item: Json)
    requires
        value@.member(name) matches Some(JsonView::List(items)) && 0 <= i < items.len(),
    ensures
        value@.member(name) matches Some(JsonView::List(items)) && items[i] == item@,
{
    let member = json::lemma_member_value(value, name);
    assert(member is List);
    member->List_0@[i]
}

proof fn lemma_all_read<T>(
    items: Seq<JsonView>,
    read: spec_fn(JsonView) -> Result<T, Seq<char>>,
    values: Seq<T>,
)
    ensures
        all_of(items, read) == Ok::<Seq<T>, Seq<char>>(values) <==> {
            &&& items.len() == values.len()
            &&& forall|i: int|
                0 <= i < items.len() ==> read(#[trigger] items[i]) == Ok::<T, Seq<char>>(values[i])
        },
    decreases items.len(),
{
    if items.len() == 0 {
        if values.len() == 0 {
            assert(values =~= Seq::<T>::empty());
        }
    } else {
        let before = items.drop_last();
        if all_of(items, read) == Ok::<Seq<T>, Seq<char>>(values) {
            let earlier = all_of(before, read)->Ok_0;
            lemma_all_read(before, read, earlier);
            assert forall|i: int| 0 <= i < items.len() implies read(#[trigger] items[i]) == Ok::<
                T,
                Seq<char>,
            >(values[i]) by {
                if i < before.len() {
                    assert(before[i] == items[i]);
                }
            }
        }
        if items.len() == values.len() && forall|i: int|
            0 <= i < items.len() ==> read(#[trigger] items[i]) == Ok::<T, Seq<char>>(values[i]) {
            assert forall|i: int| 0 <= i < before.len() implies read(#[trigger] before[i]) == Ok::<
                T,
                Seq<char>,
            >(values.drop_last()[i]) by {
                assert(before[i] == items[i]);
            }
            lemma_all_read(before, read, values.drop_last());
            assert(read(items[items.len() - 1]) == Ok::<T, Seq<char>>(values.last()));
            assert(values.drop_last().push(values.last()) =~= values);
        }
    }
}

proof fn lemma_operations_differ()
    ensures
        "rearm"@ != "capacity"@,
        "rearm"@ != "retries"@,
        "rearm"@ != "expiry"@,
        "rearm"@ != "batch"@,
        "rearm"@ != "settlement"@,
        "rearm"@ != "purge"@,
        "capacity"@ != "retries"@,
        "capacity"@ != "expiry"@,
        "capacity"@ != "batch"@,
        "capacity"@ != "settlement"@,
        "capacity"@ != "purge"@,
        "retries"@ != "expiry"@,
        "retries"@ != "batch"@,
        "retries"@ != "settlement"@,
        "retries"@ != "purge"@,
        "expiry"@ != "batch"@,
        "expiry"@ != "settlement"@,
        "expiry"@ != "purge"@,
        "batch"@ != "settlement"@,
        "batch"@ != "purge"@,
        "settlement"@ != "purge"@,
{
    reveal_strlit("rearm");
    reveal_strlit("capacity");
    reveal_strlit("retries");
    reveal_strlit("expiry");
    reveal_strlit("batch");
    reveal_strlit("settlement");
    reveal_strlit("purge");
    assert("rearm"@.len() == 5 && "capacity"@.len() == 8 && "retries"@.len() == 7);
    assert("expiry"@.len() == 6 && "settlement"@.len() == 10);
    assert("rearm"@[0] == 'r' && "batch"@[0] == 'b' && "purge"@[0] == 'p');
}

/// A request asks when the next alarm is due exactly where it names that
/// operation and holds the time and, where there are any, the deadline of the
/// batch, the earliest message, the earliest lease to run out and the next
/// sweep, each under its own name; it asks with those.
pub proof fn rearm_question_is_its_members(
    value: Json,
    now: i64,
    batch_deadline: Option<i64>,
    earliest_visible: Option<i64>,
    earliest_lease_expiry: Option<i64>,
    next_sweep: Option<i64>,
)
    ensures
        policy_request(value@) == Ok::<PolicyRequestView, Seq<char>>(
            PolicyRequestView::Rearm {
                now,
                batch_deadline,
                earliest_visible,
                earliest_lease_expiry,
                next_sweep,
            },
        ) <==> {
            &&& value@.member("op"@) == Some(JsonView::Text("rearm"@))
            &&& says(value@, "now"@, now as int)
            &&& may_say(value@, "batchDeadline"@, whole(batch_deadline))
            &&& may_say(value@, "earliestVisible"@, whole(earliest_visible))
            &&& may_say(value@, "earliestLeaseExpiry"@, whole(earliest_lease_expiry))
            &&& may_say(value@, "nextSweep"@, whole(next_sweep))
        },
{
    lemma_operations_differ();
    lemma_number(value, "now"@);
    lemma_number(value, "batchDeadline"@);
    lemma_number(value, "earliestVisible"@);
    lemma_number(value, "earliestLeaseExpiry"@);
    lemma_number(value, "nextSweep"@);
}

/// A request asks whether another lease fits exactly where it names that
/// operation and holds how many there are and how many there may be, each
/// under its own name; it asks with those.
pub proof fn capacity_question_is_its_members(value: Json, active: usize, maximum: u16)
    ensures
        policy_request(value@) == Ok::<PolicyRequestView, Seq<char>>(
            PolicyRequestView::Capacity { active, maximum },
        ) <==> {
            &&& value@.member("op"@) == Some(JsonView::Text("capacity"@))
            &&& says(value@, "active"@, active as int)
            &&& says(value@, "maximum"@, maximum as int)
        },
{
    lemma_operations_differ();
    lemma_number(value, "active"@);
    lemma_number(value, "maximum"@);
}

/// A whole number that may be missing.
pub open spec fn whole(n: Option<i64>) -> Option<int> {
    match n {
        Some(n) => Some(n as int),
        None => None,
    }
}

/// A number of seconds that may be missing.
pub open spec fn whole_seconds(n: Option<u32>) -> Option<int> {
    match n {
        Some(n) => Some(n as int),
        None => None,
    }
}

/// A request asks when failed messages are retried exactly where it names that
/// operation and holds the time and a list of entries, each of which holds its
/// attempt, the most retries, and the seconds that were asked for and that are
/// configured, each under its own name; it asks with those, in order.
pub proof fn retries_question_is_its_members(value: Json, now: i64, entries: Seq<RetryEntry>)
    ensures
        policy_request(value@) == Ok::<PolicyRequestView, Seq<char>>(
            PolicyRequestView::Retries { now, entries },
        ) <==> {
            &&& value@.member("op"@) == Some(JsonView::Text("retries"@))
            &&& says(value@, "now"@, now as int)
            &&& value@.member("entries"@) matches Some(JsonView::List(items))
            &&& items.len() == entries.len()
            &&& forall|i: int|
                0 <= i < items.len() ==> {
                    let item = #[trigger] items[i];
                    &&& says(item, "attempt"@, entries[i].attempt as int)
                    &&& says(item, "maxRetries"@, entries[i].max_retries as int)
                    &&& may_say(
                        item,
                        "explicitSeconds"@,
                        whole_seconds(entries[i].explicit_seconds),
                    )
                    &&& may_say(
                        item,
                        "configuredSeconds"@,
                        whole_seconds(entries[i].configured_seconds),
                    )
                }
        },
{
    lemma_operations_differ();
    lemma_number(value, "now"@);
    if let Some(JsonView::List(items)) = value@.member("entries"@) {
        lemma_all_read(items, |v: JsonView| retry_entry(v), entries);
        assert forall|i: int| 0 <= i < items.len() && items.len() == entries.len() implies (
        retry_entry(#[trigger] items[i]) == Ok::<RetryEntry, Seq<char>>(entries[i]) <==> {
            &&& says(items[i], "attempt"@, entries[i].attempt as int)
            &&& says(items[i], "maxRetries"@, entries[i].max_retries as int)
            &&& may_say(items[i], "explicitSeconds"@, whole_seconds(entries[i].explicit_seconds))
            &&& may_say(
                items[i],
                "configuredSeconds"@,
                whole_seconds(entries[i].configured_seconds),
            )
        }) by {
            let item = lemma_items(value, "entries"@, i);
            lemma_number(item, "attempt"@);
            lemma_number(item, "maxRetries"@);
            lemma_number(item, "explicitSeconds"@);
            lemma_number(item, "configuredSeconds"@);
        }
    }
}

/// A request asks what becomes of leases that ran out exactly where it names
/// that operation and holds the time and a list of entries, each of which holds
/// its earlier failures, the most retries, the configured seconds and whether
/// it is purged, each under its own name; it asks with those, in order.
pub proof fn expiry_question_is_its_members(value: Json, now: i64, entries: Seq<ExpiryEntry>)
    ensures
        policy_request(value@) == Ok::<PolicyRequestView, Seq<char>>(
            PolicyRequestView::Expiry { now, entries },
        ) <==> {
            &&& value@.member("op"@) == Some(JsonView::Text("expiry"@))
            &&& says(value@, "now"@, now as int)
            &&& value@.member("entries"@) matches Some(JsonView::List(items))
            &&& items.len() == entries.len()
            &&& forall|i: int|
                0 <= i < items.len() ==> {
                    let item = #[trigger] items[i];
                    &&& says(item, "priorFailures"@, entries[i].prior_failures as int)
                    &&& says(item, "maxRetries"@, entries[i].max_retries as int)
                    &&& may_say(
                        item,
                        "configuredSeconds"@,
                        whole_seconds(entries[i].configured_seconds),
                    )
                    &&& item.member("purgeOnSettle"@) == Some(
                        JsonView::Bool(entries[i].purge_on_settle),
                    )
                }
        },
{
    lemma_operations_differ();
    lemma_number(value, "now"@);
    if let Some(JsonView::List(items)) = value@.member("entries"@) {
        lemma_all_read(items, |v: JsonView| expiry_entry(v), entries);
        assert forall|i: int| 0 <= i < items.len() && items.len() == entries.len() implies (
        expiry_entry(#[trigger] items[i]) == Ok::<ExpiryEntry, Seq<char>>(entries[i]) <==> {
            &&& says(items[i], "priorFailures"@, entries[i].prior_failures as int)
            &&& says(items[i], "maxRetries"@, entries[i].max_retries as int)
            &&& may_say(
                items[i],
                "configuredSeconds"@,
                whole_seconds(entries[i].configured_seconds),
            )
            &&& items[i].member("purgeOnSettle"@) == Some(
                JsonView::Bool(entries[i].purge_on_settle),
            )
        }) by {
            let item = lemma_items(value, "entries"@, i);
            lemma_number(item, "priorFailures"@);
            lemma_number(item, "maxRetries"@);
            lemma_number(item, "configuredSeconds"@);
        }
    }
}

/// A request asks which messages are leased next exactly where it names that
/// operation and holds the time, the size of a batch and a list of rows, each
/// of which holds its number in the queue, when it is visible, how often it was
/// leased, until when it is leased and whether it is purged, each under its own
/// name; it asks with those, in order.
pub proof fn batch_question_is_its_members(
    value: Json,
    now: i64,
    max_batch_size: usize,
    rows: Seq<BatchRow>,
)
    ensures
        policy_request(value@) == Ok::<PolicyRequestView, Seq<char>>(
            PolicyRequestView::Batch { now, max_batch_size, rows },
        ) <==> {
            &&& value@.member("op"@) == Some(JsonView::Text("batch"@))
            &&& says(value@, "now"@, now as int)
            &&& says(value@, "maxBatchSize"@, max_batch_size as int)
            &&& value@.member("rows"@) matches Some(JsonView::List(items))
            &&& items.len() == rows.len()
            &&& forall|i: int|
                0 <= i < items.len() ==> {
                    let item = #[trigger] items[i];
                    &&& says(item, "seq"@, rows[i].seq as int)
                    &&& says(item, "visibleAt"@, rows[i].visible_at as int)
                    &&& writes_unsigned(item, "leaseGeneration"@, rows[i].lease_generation as nat)
                    &&& may_say(item, "leasedUntil"@, whole(rows[i].leased_until))
                    &&& item.member("purgeOnSettle"@) == Some(
                        JsonView::Bool(rows[i].purge_on_settle),
                    )
                }
        },
{
    lemma_operations_differ();
    lemma_number(value, "now"@);
    lemma_number(value, "maxBatchSize"@);
    if let Some(JsonView::List(items)) = value@.member("rows"@) {
        lemma_all_read(items, |v: JsonView| batch_row(v), rows);
        assert forall|i: int| 0 <= i < items.len() && items.len() == rows.len() implies (batch_row(
            #[trigger] items[i],
        ) == Ok::<BatchRow, Seq<char>>(rows[i]) <==> {
            &&& says(items[i], "seq"@, rows[i].seq as int)
            &&& says(items[i], "visibleAt"@, rows[i].visible_at as int)
            &&& writes_unsigned(items[i], "leaseGeneration"@, rows[i].lease_generation as nat)
            &&& may_say(items[i], "leasedUntil"@, whole(rows[i].leased_until))
            &&& items[i].member("purgeOnSettle"@) == Some(JsonView::Bool(rows[i].purge_on_settle))
        }) by {
            let item = lemma_items(value, "rows"@, i);
            lemma_number(item, "seq"@);
            lemma_number(item, "visibleAt"@);
            lemma_number(item, "leasedUntil"@);
        }
    }
}

/// A request asks whether a settlement is of the current lease exactly where
/// it names that operation and holds the lease's members and the submitted
/// ones, each of which holds its number in the queue, its message's id and how
/// often it was leased, each under its own name; it asks with those, in order.
pub proof fn settlement_question_is_its_members(
    value: Json,
    current: Seq<LeaseMemberView>,
    submitted: Seq<LeaseMemberView>,
)
    ensures
        policy_request(value@) == Ok::<PolicyRequestView, Seq<char>>(
            PolicyRequestView::Settlement { current, submitted },
        ) <==> {
            &&& value@.member("op"@) == Some(JsonView::Text("settlement"@))
            &&& holds_members(value@, "current"@, current)
            &&& holds_members(value@, "submitted"@, submitted)
        },
{
    lemma_operations_differ();
    lemma_lease_members(value@, "current"@, current);
    lemma_lease_members(value@, "submitted"@, submitted);
}

/// Whether a value holds, under a name, a list of a lease's members.
pub open spec fn holds_members(
    value: JsonView,
    name: Seq<char>,
    members: Seq<LeaseMemberView>,
) -> bool {
    &&& value.member(name) matches Some(JsonView::List(items))
    &&& items.len() == members.len()
    &&& forall|i: int|
        0 <= i < items.len() ==> {
            let item = #[trigger] items[i];
            &&& writes(item, "seq"@, members[i].seq as int)
            &&& item.member("messageId"@) == Some(JsonView::Text(members[i].message_id))
            &&& writes_unsigned(item, "generation"@, members[i].generation as nat)
        }
}

proof fn lemma_lease_members(value: JsonView, name: Seq<char>, members: Seq<LeaseMemberView>)
    ensures
        holds_members(value, name, members) <==> (value.member(name) matches Some(
            JsonView::List(items),
        ) && all_of(items, |v: JsonView| lease_member(v)) == Ok::<
            Seq<LeaseMemberView>,
            Seq<char>,
        >(members)),
{
    if let Some(JsonView::List(items)) = value.member(name) {
        lemma_all_read(items, |v: JsonView| lease_member(v), members);
        assert forall|i: int| 0 <= i < items.len() && items.len() == members.len() implies (
        lease_member(#[trigger] items[i]) == Ok::<LeaseMemberView, Seq<char>>(members[i]) <==> {
            &&& writes(items[i], "seq"@, members[i].seq as int)
            &&& items[i].member("messageId"@) == Some(JsonView::Text(members[i].message_id))
            &&& writes_unsigned(items[i], "generation"@, members[i].generation as nat)
        }) by {}
    }
}

/// A request asks which messages a purge deletes exactly where it names that
/// operation and holds the time and a list of rows, each of which holds its
/// number in the queue, whether a lease has it and until when it is leased,
/// each under its own name; it asks with those, in order.
pub proof fn purge_question_is_its_members(value: Json, now: i64, rows: Seq<PurgeRow>)
    ensures
        policy_request(value@) == Ok::<PolicyRequestView, Seq<char>>(
            PolicyRequestView::Purge { now, rows },
        ) <==> {
            &&& value@.member("op"@) == Some(JsonView::Text("purge"@))
            &&& says(value@, "now"@, now as int)
            &&& value@.member("rows"@) matches Some(JsonView::List(items))
            &&& items.len() == rows.len()
            &&& forall|i: int|
                0 <= i < items.len() ==> {
                    let item = #[trigger] items[i];
                    &&& writes(item, "seq"@, rows[i].seq as int)
                    &&& item.member("leaseIdPresent"@) == Some(
                        JsonView::Bool(rows[i].lease_id_present),
                    )
                    &&& may_say(item, "leasedUntil"@, whole(rows[i].leased_until))
                }
        },
{
    lemma_operations_differ();
    lemma_number(value, "now"@);
    if let Some(JsonView::List(items)) = value@.member("rows"@) {
        lemma_all_read(items, |v: JsonView| purge_row(v), rows);
        assert forall|i: int| 0 <= i < items.len() && items.len() == rows.len() implies (purge_row(
            #[trigger] items[i],
        ) == Ok::<PurgeRow, Seq<char>>(rows[i]) <==> {
            &&& writes(items[i], "seq"@, rows[i].seq as int)
            &&& items[i].member("leaseIdPresent"@) == Some(JsonView::Bool(rows[i].lease_id_present))
            &&& may_say(items[i], "leasedUntil"@, whole(rows[i].leased_until))
        }) by {
            let item = lemma_items(value, "rows"@, i);
            lemma_number(item, "leasedUntil"@);
        }
    }
}

// ---- the answers ---------------------------------------------------------

/// What becomes of a lease that ran out.
#[derive(Clone, Copy, Debug, PartialEq, Eq)]
pub enum ExpiredLeaseAction {
    RetryAt(i64),
    Exhausted,
    DeletePurged,
}

/// When one failed message is retried, and whether it has been retried enough.
#[derive(Clone, Copy, Debug, PartialEq, Eq)]
pub struct RetryResult {
    pub at: i64,
    pub exhausted: bool,
}

/// One lease that ran out: the attempt that it was, and what becomes of it.
#[derive(Clone, Copy, Debug, PartialEq, Eq)]
pub struct ExpiryResult {
    pub attempt: u16,
    pub action: ExpiredLeaseAction,
}

/// One message that is leased.
#[derive(Clone, Copy, Debug, PartialEq, Eq)]
pub struct PlannedLease {
    pub seq: i64,
    pub generation: u64,
    pub reclaimed: bool,
}

/// The answer to a policy question.
pub enum PolicyReply {
    Rearm(Option<i64>),
    Capacity(bool),
    Retries(Vec<RetryResult>),
    Expiry(Vec<ExpiryResult>),
    Batch { leases: Vec<PlannedLease>, delete_purged: Vec<i64> },
    Settlement(bool),
    Purge { delete: Vec<i64>, mark_for_settle: Vec<i64> },
}

pub open spec fn retry_json(result: RetryResult) -> JsonView {
    JsonView::Object(
        seq![
            ("at"@, JsonView::Int(result.at as int)),
            ("exhausted"@, JsonView::Bool(result.exhausted)),
        ],
    )
}

pub open spec fn action_json(action: ExpiredLeaseAction) -> JsonView {
    match action {
        ExpiredLeaseAction::RetryAt(at) => JsonView::Object(
            seq![("kind"@, JsonView::Text("retry"@)), ("at"@, JsonView::Int(at as int))],
        ),
        ExpiredLeaseAction::Exhausted => JsonView::Object(
            seq![("kind"@, JsonView::Text("exhausted"@))],
        ),
        ExpiredLeaseAction::DeletePurged => JsonView::Object(
            seq![("kind"@, JsonView::Text("delete-purged"@))],
        ),
    }
}

pub open spec fn expiry_json(result: ExpiryResult) -> JsonView {
    JsonView::Object(
        seq![
            ("attempt"@, JsonView::Int(result.attempt as int)),
            ("action"@, action_json(result.action)),
        ],
    )
}

pub open spec fn lease_json(lease: PlannedLease) -> JsonView {
    JsonView::Object(
        seq![
            ("seq"@, JsonView::Int(lease.seq as int)),
            ("generation"@, JsonView::Text(text::decimal(lease.generation as nat))),
            ("reclaimed"@, JsonView::Bool(lease.reclaimed)),
        ],
    )
}

pub open spec fn number_json(n: i64) -> JsonView {
    JsonView::Int(n as int)
}

pub open spec fn numeral_json(n: i64) -> JsonView {
    JsonView::Text(text::signed_decimal(n as int))
}

/// The answer as it is written.
pub open spec fn reply_json(reply: PolicyReply) -> JsonView {
    match reply {
        PolicyReply::Rearm(at) => match at {
            Some(at) => JsonView::Int(at as int),
            None => JsonView::Null,
        },
        PolicyReply::Capacity(fits) => JsonView::Bool(fits),
        PolicyReply::Retries(results) => JsonView::List(
            results@.map_values(|r: RetryResult| retry_json(r)),
        ),
        PolicyReply::Expiry(results) => JsonView::List(
            results@.map_values(|r: ExpiryResult| expiry_json(r)),
        ),
        PolicyReply::Batch { leases, delete_purged } => JsonView::Object(
            seq![
                ("leases"@, JsonView::List(leases@.map_values(|l: PlannedLease| lease_json(l)))),
                (
                    "deletePurged"@,
                    JsonView::List(delete_purged@.map_values(|n: i64| number_json(n))),
                ),
            ],
        ),
        PolicyReply::Settlement(matches) => JsonView::Bool(matches),
        PolicyReply::Purge { delete, mark_for_settle } => JsonView::Object(
            seq![
                ("delete"@, JsonView::List(delete@.map_values(|n: i64| numeral_json(n)))),
                (
                    "markForSettle"@,
                    JsonView::List(mark_for_settle@.map_values(|n: i64| numeral_json(n))),
                ),
            ],
        ),
    }
}

fn write_retry(item: RetryResult) -> (r: Json)
    ensures
        r@ == retry_json(item),
{
    let mut members = json::Members::new();
    members.put("at", Json::Int(item.at));
    members.put("exhausted", Json::Bool(item.exhausted));
    assert(members@ =~= retry_json(item)->Object_0);
    members.object()
}

fn write_retries(items: &Vec<RetryResult>) -> (r: Json)
    ensures
        r@ == JsonView::List(items@.map_values(|v: RetryResult| retry_json(v))),
{
    let mut out: Vec<Json> = Vec::new();
    let mut i: usize = 0;
    while i < items.len()
        invariant
            i <= items@.len(),
            out@.len() == i,
            forall|k: int| 0 <= k < i ==> (#[trigger] out@[k])@ == retry_json(items@[k]),
        decreases items.len() - i,
    {
        out.push(write_retry(items[i]));
        i = i + 1;
    }
    assert(json::views(out@) =~= items@.map_values(|v: RetryResult| retry_json(v)));
    json::list(out)
}

fn write_action(action: ExpiredLeaseAction) -> (r: Json)
    ensures
        r@ == action_json(action),
{
    let mut members = json::Members::new();
    match action {
        ExpiredLeaseAction::RetryAt(at) => {
            members.put("kind", json::string("retry"));
            members.put("at", Json::Int(at));
        },
        ExpiredLeaseAction::Exhausted => {
            members.put("kind", json::string("exhausted"));
        },
        ExpiredLeaseAction::DeletePurged => {
            members.put("kind", json::string("delete-purged"));
        },
    }
    assert(members@ =~= action_json(action)->Object_0);
    members.object()
}

fn write_expiry(item: ExpiryResult) -> (r: Json)
    ensures
        r@ == expiry_json(item),
{
    let mut members = json::Members::new();
    members.put("attempt", Json::Int(item.attempt as i64));
    members.put("action", write_action(item.action));
    assert(members@ =~= expiry_json(item)->Object_0);
    members.object()
}

fn write_expiries(items: &Vec<ExpiryResult>) -> (r: Json)
    ensures
        r@ == JsonView::List(items@.map_values(|v: ExpiryResult| expiry_json(v))),
{
    let mut out: Vec<Json> = Vec::new();
    let mut i: usize = 0;
    while i < items.len()
        invariant
            i <= items@.len(),
            out@.len() == i,
            forall|k: int| 0 <= k < i ==> (#[trigger] out@[k])@ == expiry_json(items@[k]),
        decreases items.len() - i,
    {
        out.push(write_expiry(items[i]));
        i = i + 1;
    }
    assert(json::views(out@) =~= items@.map_values(|v: ExpiryResult| expiry_json(v)));
    json::list(out)
}

fn write_lease(item: PlannedLease) -> (r: Json)
    ensures
        r@ == lease_json(item),
{
    let mut members = json::Members::new();
    members.put("seq", Json::Int(item.seq));
    members.put("generation", Json::Text(text::decimal_text(item.generation)));
    members.put("reclaimed", Json::Bool(item.reclaimed));
    assert(members@ =~= lease_json(item)->Object_0);
    members.object()
}

fn write_leases(items: &Vec<PlannedLease>) -> (r: Json)
    ensures
        r@ == JsonView::List(items@.map_values(|v: PlannedLease| lease_json(v))),
{
    let mut out: Vec<Json> = Vec::new();
    let mut i: usize = 0;
    while i < items.len()
        invariant
            i <= items@.len(),
            out@.len() == i,
            forall|k: int| 0 <= k < i ==> (#[trigger] out@[k])@ == lease_json(items@[k]),
        decreases items.len() - i,
    {
        out.push(write_lease(items[i]));
        i = i + 1;
    }
    assert(json::views(out@) =~= items@.map_values(|v: PlannedLease| lease_json(v)));
    json::list(out)
}

fn write_number(item: i64) -> (r: Json)
    ensures
        r@ == number_json(item),
{
    Json::Int(item)
}

fn write_numbers(items: &Vec<i64>) -> (r: Json)
    ensures
        r@ == JsonView::List(items@.map_values(|v: i64| number_json(v))),
{
    let mut out: Vec<Json> = Vec::new();
    let mut i: usize = 0;
    while i < items.len()
        invariant
            i <= items@.len(),
            out@.len() == i,
            forall|k: int| 0 <= k < i ==> (#[trigger] out@[k])@ == number_json(items@[k]),
        decreases items.len() - i,
    {
        out.push(write_number(items[i]));
        i = i + 1;
    }
    assert(json::views(out@) =~= items@.map_values(|v: i64| number_json(v)));
    json::list(out)
}

fn write_numeral(item: i64) -> (r: Json)
    ensures
        r@ == numeral_json(item),
{
    Json::Text(text::signed_decimal_text(item))
}

fn write_numerals(items: &Vec<i64>) -> (r: Json)
    ensures
        r@ == JsonView::List(items@.map_values(|v: i64| numeral_json(v))),
{
    let mut out: Vec<Json> = Vec::new();
    let mut i: usize = 0;
    while i < items.len()
        invariant
            i <= items@.len(),
            out@.len() == i,
            forall|k: int| 0 <= k < i ==> (#[trigger] out@[k])@ == numeral_json(items@[k]),
        decreases items.len() - i,
    {
        out.push(write_numeral(items[i]));
        i = i + 1;
    }
    assert(json::views(out@) =~= items@.map_values(|v: i64| numeral_json(v)));
    json::list(out)
}

/// Writes the answer to a policy question.
pub fn write_reply(reply: &PolicyReply) -> (r: Json)
    ensures
        r@ == reply_json(*reply),
{
    match reply {
        PolicyReply::Rearm(at) => match at {
            Some(at) => Json::Int(*at),
            None => Json::Null,
        },
        PolicyReply::Capacity(fits) => Json::Bool(*fits),
        PolicyReply::Retries(results) => write_retries(results),
        PolicyReply::Expiry(results) => write_expiries(results),
        PolicyReply::Batch { leases, delete_purged } => {
            let mut members = json::Members::new();
            members.put("leases", write_leases(leases));
            members.put("deletePurged", write_numbers(delete_purged));
            assert(members@ =~= reply_json(*reply)->Object_0);
            members.object()
        },
        PolicyReply::Settlement(matches) => Json::Bool(*matches),
        PolicyReply::Purge { delete, mark_for_settle } => {
            let mut members = json::Members::new();
            members.put("delete", write_numerals(delete));
            members.put("markForSettle", write_numerals(mark_for_settle));
            assert(members@ =~= reply_json(*reply)->Object_0);
            members.object()
        },
    }
}

/// Whether a reply is one to the question: of its operation, and with one
/// result for each entry. Only the planning of a batch can fail.
pub open spec fn replies_to(request: PolicyRequest, outcome: Result<PolicyReply, String>) -> bool {
    match request {
        PolicyRequest::Rearm { .. } => outcome matches Ok(PolicyReply::Rearm(_)),
        PolicyRequest::Capacity { .. } => outcome matches Ok(PolicyReply::Capacity(_)),
        PolicyRequest::Retries { entries, .. } => outcome matches Ok(PolicyReply::Retries(results))
            && results@.len() == entries@.len(),
        PolicyRequest::Expiry { entries, .. } => outcome matches Ok(PolicyReply::Expiry(results))
            && results@.len() == entries@.len(),
        PolicyRequest::Batch { .. } => match outcome {
            Ok(reply) => reply is Batch,
            Err(_) => true,
        },
        PolicyRequest::Settlement { .. } => outcome matches Ok(PolicyReply::Settlement(_)),
        PolicyRequest::Purge { .. } => outcome matches Ok(PolicyReply::Purge { .. }),
    }
}

/// What a policy question is answered, from what the policy says to it: the
/// reply, or why its batch could not be planned. A reply to another question
/// is none.
pub fn answer(request: &PolicyRequest, outcome: Result<PolicyReply, String>) -> (r: Option<
    Result<Json, String>,
>)
    ensures
        match r {
            Some(Ok(value)) => {
                &&& replies_to(*request, outcome)
                &&& outcome matches Ok(reply) && value@ == reply_json(reply)
            },
            Some(Err(error)) => replies_to(*request, outcome) && outcome == Err::<
                PolicyReply,
                String,
            >(error),
            None => !replies_to(*request, outcome),
        },
{
    let fits = match (request, &outcome) {
        (PolicyRequest::Rearm { .. }, Ok(PolicyReply::Rearm(_))) => true,
        (PolicyRequest::Capacity { .. }, Ok(PolicyReply::Capacity(_))) => true,
        (PolicyRequest::Retries { entries, .. }, Ok(PolicyReply::Retries(results))) => results.len()
            == entries.len(),
        (PolicyRequest::Expiry { entries, .. }, Ok(PolicyReply::Expiry(results))) => results.len()
            == entries.len(),
        (PolicyRequest::Batch { .. }, Ok(PolicyReply::Batch { .. })) => true,
        (PolicyRequest::Batch { .. }, Err(_)) => true,
        (PolicyRequest::Settlement { .. }, Ok(PolicyReply::Settlement(_))) => true,
        (PolicyRequest::Purge { .. }, Ok(PolicyReply::Purge { .. })) => true,
        _ => false,
    };
    if !fits {
        return None;
    }
    match outcome {
        Ok(reply) => Some(Ok(write_reply(&reply))),
        Err(error) => Some(Err(error)),
    }
}

// ---- what the answers say ------------------------------------------------

/// Whether a list holds as many items as there are results, and each says of
/// its result when the message is retried and whether it has been enough.
pub open spec fn tells_retries(value: JsonView, results: Seq<RetryResult>) -> bool {
    &&& value matches JsonView::List(items)
    &&& items.len() == results.len()
    &&& forall|i: int|
        0 <= i < items.len() ==> {
            let item = #[trigger] items[i];
            &&& says(item, "at"@, results[i].at as int)
            &&& item.member("exhausted"@) == Some(JsonView::Bool(results[i].exhausted))
        }
}

/// Whether a list holds as many items as there are results, and each says of
/// its result which attempt it was, and whether the message is retried and
/// when, has been retried enough, or is deleted.
pub open spec fn tells_expiries(value: JsonView, results: Seq<ExpiryResult>) -> bool {
    &&& value matches JsonView::List(items)
    &&& items.len() == results.len()
    &&& forall|i: int|
        0 <= i < items.len() ==> {
            let item = #[trigger] items[i];
            &&& says(item, "attempt"@, results[i].attempt as int)
            &&& item.member("action"@) matches Some(action)
            &&& match results[i].action {
                ExpiredLeaseAction::RetryAt(at) => {
                    &&& action.member("kind"@) == Some(JsonView::Text("retry"@))
                    &&& says(action, "at"@, at as int)
                },
                ExpiredLeaseAction::Exhausted => {
                    &&& action.member("kind"@) == Some(JsonView::Text("exhausted"@))
                    &&& action.member("at"@) is None
                },
                ExpiredLeaseAction::DeletePurged => {
                    &&& action.member("kind"@) == Some(JsonView::Text("delete-purged"@))
                    &&& action.member("at"@) is None
                },
            }
        }
}

/// Whether a list holds as many items as there are leases, and each says of its
/// lease the message's number, how often it was leased, as text, and whether
/// another lease had it.
pub open spec fn tells_leases(value: Option<JsonView>, leases: Seq<PlannedLease>) -> bool {
    &&& value matches Some(JsonView::List(items))
    &&& items.len() == leases.len()
    &&& forall|i: int|
        0 <= i < items.len() ==> {
            let item = #[trigger] items[i];
            &&& says(item, "seq"@, leases[i].seq as int)
            &&& writes_unsigned(item, "generation"@, leases[i].generation as nat)
            &&& item.member("reclaimed"@) == Some(JsonView::Bool(leases[i].reclaimed))
        }
}

/// Whether a list holds these numbers.
pub open spec fn tells_numbers(value: Option<JsonView>, numbers: Seq<i64>) -> bool {
    &&& value matches Some(JsonView::List(items))
    &&& items.len() == numbers.len()
    &&& forall|i: int|
        0 <= i < items.len() ==> #[trigger] items[i] == JsonView::Int(numbers[i] as int)
}

/// Whether a list holds texts that write these numbers.
pub open spec fn tells_numerals(value: Option<JsonView>, numbers: Seq<i64>) -> bool {
    &&& value matches Some(JsonView::List(items))
    &&& items.len() == numbers.len()
    &&& forall|i: int|
        0 <= i < items.len() ==> ((#[trigger] items[i]) matches JsonView::Text(t)
            && text::parse_signed(t) == Some(numbers[i] as int))
}

/// An answer says what the policy says, each thing under its own name and in
/// its order.
pub proof fn answers_say_what_the_policy_says(reply: PolicyReply)
    ensures
        match reply {
            PolicyReply::Rearm(Some(at)) => reply_json(reply) == JsonView::Int(at as int),
            PolicyReply::Rearm(None) => reply_json(reply) == JsonView::Null,
            PolicyReply::Capacity(fits) => reply_json(reply) == JsonView::Bool(fits),
            PolicyReply::Retries(results) => tells_retries(reply_json(reply), results@),
            PolicyReply::Expiry(results) => tells_expiries(reply_json(reply), results@),
            PolicyReply::Batch { leases, delete_purged } => {
                &&& tells_leases(reply_json(reply).member("leases"@), leases@)
                &&& tells_numbers(reply_json(reply).member("deletePurged"@), delete_purged@)
            },
            PolicyReply::Settlement(matches) => reply_json(reply) == JsonView::Bool(matches),
            PolicyReply::Purge { delete, mark_for_settle } => {
                &&& tells_numerals(reply_json(reply).member("delete"@), delete@)
                &&& tells_numerals(reply_json(reply).member("markForSettle"@), mark_for_settle@)
            },
        },
{
    match reply {
        PolicyReply::Retries(results) => {
            reveal_strlit("at");
            reveal_strlit("exhausted");
            assert("at"@.len() == 2 && "exhausted"@.len() == 9);
            let items = reply_json(reply)->List_0;
            assert forall|i: int| 0 <= i < items.len() implies {
                let item = #[trigger] items[i];
                &&& says(item, "at"@, results@[i].at as int)
                &&& item.member("exhausted"@) == Some(JsonView::Bool(results@[i].exhausted))
            } by {
                let members = items[i]->Object_0;
                json::a_member_is_found(members, 0);
                json::a_member_is_found(members, 1);
            }
        },
        PolicyReply::Expiry(results) => {
            reveal_strlit("attempt");
            reveal_strlit("action");
            reveal_strlit("kind");
            reveal_strlit("at");
            assert("attempt"@.len() == 7 && "action"@.len() == 6);
            assert("kind"@.len() == 4 && "at"@.len() == 2);
            let items = reply_json(reply)->List_0;
            assert forall|i: int| 0 <= i < items.len() implies {
                let item = #[trigger] items[i];
                &&& says(item, "attempt"@, results@[i].attempt as int)
                &&& item.member("action"@) == Some(action_json(results@[i].action))
            } by {
                let members = items[i]->Object_0;
                json::a_member_is_found(members, 0);
                json::a_member_is_found(members, 1);
            }
            assert forall|i: int| 0 <= i < items.len() implies match results@[i].action {
                ExpiredLeaseAction::RetryAt(at) => {
                    let action = (#[trigger] items[i]).member("action"@)->Some_0;
                    &&& action.member("kind"@) == Some(JsonView::Text("retry"@))
                    &&& says(action, "at"@, at as int)
                },
                ExpiredLeaseAction::Exhausted => {
                    let action = items[i].member("action"@)->Some_0;
                    &&& action.member("kind"@) == Some(JsonView::Text("exhausted"@))
                    &&& action.member("at"@) is None
                },
                ExpiredLeaseAction::DeletePurged => {
                    let action = items[i].member("action"@)->Some_0;
                    &&& action.member("kind"@) == Some(JsonView::Text("delete-purged"@))
                    &&& action.member("at"@) is None
                },
            } by {
                let action = action_json(results@[i].action);
                assert(items[i].member("action"@) == Some(action));
                let members = action->Object_0;
                json::a_member_is_found(members, 0);
                if results@[i].action is RetryAt {
                    json::a_member_is_found(members, 1);
                } else {
                    json::no_member_is_made_up(members, "at"@);
                }
            }
        },
        PolicyReply::Batch { leases, delete_purged } => {
            reveal_strlit("leases");
            reveal_strlit("deletePurged");
            reveal_strlit("seq");
            reveal_strlit("generation");
            reveal_strlit("reclaimed");
            assert("leases"@.len() == 6 && "deletePurged"@.len() == 12);
            assert("seq"@.len() == 3 && "generation"@.len() == 10 && "reclaimed"@.len() == 9);
            let members = reply_json(reply)->Object_0;
            json::a_member_is_found(members, 0);
            json::a_member_is_found(members, 1);
            let items = members[0].1->List_0;
            assert forall|i: int| 0 <= i < items.len() implies {
                let item = #[trigger] items[i];
                &&& says(item, "seq"@, leases@[i].seq as int)
                &&& writes_unsigned(item, "generation"@, leases@[i].generation as nat)
                &&& item.member("reclaimed"@) == Some(JsonView::Bool(leases@[i].reclaimed))
            } by {
                let parts = items[i]->Object_0;
                json::a_member_is_found(parts, 0);
                json::a_member_is_found(parts, 1);
                json::a_member_is_found(parts, 2);
                text::decimal_reads_back(leases@[i].generation as nat);
            }
        },
        PolicyReply::Purge { delete, mark_for_settle } => {
            reveal_strlit("delete");
            reveal_strlit("markForSettle");
            assert("delete"@.len() == 6 && "markForSettle"@.len() == 13);
            let members = reply_json(reply)->Object_0;
            json::a_member_is_found(members, 0);
            json::a_member_is_found(members, 1);
            lemma_numerals(delete@);
            lemma_numerals(mark_for_settle@);
        },
        _ => {},
    }
}

proof fn lemma_numerals(numbers: Seq<i64>)
    ensures
        tells_numerals(
            Some(JsonView::List(numbers.map_values(|n: i64| numeral_json(n)))),
            numbers,
        ),
{
    let items = numbers.map_values(|n: i64| numeral_json(n));
    assert forall|i: int| 0 <= i < items.len() implies ((#[trigger] items[i]) matches JsonView::Text(
        t,
    ) && text::parse_signed(t) == Some(numbers[i] as int)) by {
        text::signed_decimal_reads_back(numbers[i] as int);
    }
}

/// A question is answered by a reply to the same operation only, and one about
/// several messages by a reply with a result for each. The planning of a batch
/// may fail; nothing else may.
pub proof fn questions_are_answered_in_kind(
    request: PolicyRequest,
    outcome: Result<PolicyReply, String>,
)
    requires
        replies_to(request, outcome),
    ensures
        outcome is Err ==> request is Batch,
        outcome matches Ok(reply) ==> {
            &&& reply is Rearm <==> request is Rearm
            &&& reply is Capacity <==> request is Capacity
            &&& reply is Retries <==> request is Retries
            &&& reply is Expiry <==> request is Expiry
            &&& reply is Batch <==> request is Batch
            &&& reply is Settlement <==> request is Settlement
            &&& reply is Purge <==> request is Purge
            &&& (request matches PolicyRequest::Retries { entries, .. }) ==> (
            reply matches PolicyReply::Retries(results) && results@.len()
                == request->Retries_entries@.len())
            &&& (request matches PolicyRequest::Expiry { entries, .. }) ==> (
            reply matches PolicyReply::Expiry(results) && results@.len()
                == request->Expiry_entries@.len())
        },
{
}

// ---- dispatch ------------------------------------------------------------

/// One message as a Queue cell sends it.
pub struct QueueWireMessage {
    pub id: String,
    pub timestamp_ms: i64,
    pub body_base64: String,
    pub content_type: String,
    pub attempts: u16,
}

/// A batch as a Queue cell sends it; what the queue measured of itself stays
/// open (`M`).
pub struct QueueDispatchEnvelope<M> {
    pub lease_id: String,
    pub leases: Vec<QueueLeaseRef>,
    pub messages: Vec<QueueWireMessage>,
    pub metrics: M,
}

/// What the standard base64 alphabet's decoder reads a text as.
pub uninterp spec fn base64_bytes(text: Seq<char>) -> Option<Seq<u8>>;

/// `base64::engine::general_purpose::STANDARD.decode`: the bytes that a text
/// in the standard alphabet with its padding stands for, or that it is no such
/// text, which is a function of the text.
#[verifier::external_body]
fn decode_base64(text: &str) -> (r: Option<Vec<u8>>)
    ensures
        match r {
            Some(bytes) => base64_bytes(text@) == Some(bytes@),
            None => base64_bytes(text@) is None,
        },
{
    base64::Engine::decode(&base64::engine::general_purpose::STANDARD, text).ok()
}

/// What a message's parts come to.
pub open spec fn message_of(wire: QueueWireMessage, body: Option<Seq<u8>>) -> Result<
    (QueueContentType, Seq<u8>),
    Seq<char>,
> {
    match QueueContentType::named(wire.content_type@) {
        None => Err("invalid Queue content type "@ + generation::quoted(wire.content_type@)),
        Some(content_type) => match body {
            None => Err("invalid Queue message body"@),
            Some(bytes) => Ok((content_type, bytes)),
        },
    }
}

/// Whether a message is the one that was sent.
pub open spec fn carries(
    message: QueueMessage,
    wire: QueueWireMessage,
    content_type: QueueContentType,
    body: Seq<u8>,
) -> bool {
    &&& message.id == wire.id
    &&& message.timestamp_ms == wire.timestamp_ms
    &&& message.body@ == body
    &&& message.content_type == content_type
    &&& message.attempts == wire.attempts
}

/// Makes a message of its parts. `body` is what its text decodes to.
pub fn take_message(wire: QueueWireMessage, body: Option<Vec<u8>>) -> (r: Result<
    QueueMessage,
    String,
>)
    ensures
        ({
            let bytes = match body {
                Some(bytes) => Some(bytes@),
                None => None,
            };
            match message_of(wire, bytes) {
                Ok((content_type, bytes)) => r matches Ok(message) && carries(
                    message,
                    wire,
                    content_type,
                    bytes,
                ),
                Err(words) => r matches Err(error) && error@ == words,
            }
        }),
{
    let content_type = match QueueContentType::from_name(wire.content_type.as_str()) {
        Some(content_type) => content_type,
        None => {
            return Err(
                text::join(
                    "invalid Queue content type ",
                    generation::quote(wire.content_type.as_str()).as_str(),
                ),
            );
        },
    };
    match body {
        None => Err(String::from_str("invalid Queue message body")),
        Some(body) => Ok(
            QueueMessage {
                id: wire.id,
                timestamp_ms: wire.timestamp_ms,
                body,
                content_type,
                attempts: wire.attempts,
            },
        ),
    }
}

/// Whether each message has its lease.
pub open spec fn leases_match(wires: Seq<QueueWireMessage>, leases: Seq<QueueLeaseRef>) -> bool {
    &&& wires.len() == leases.len()
    &&& forall|i: int|
        0 <= i < wires.len() ==> (#[trigger] wires[i]).id@ == leases[i].message_id@
}

/// What one sent message comes to.
pub open spec fn sent_message(wire: QueueWireMessage) -> Result<
    (QueueContentType, Seq<u8>),
    Seq<char>,
> {
    message_of(wire, base64_bytes(wire.body_base64@))
}

/// Whether the first `n` messages can be taken.
pub open spec fn all_good(wires: Seq<QueueWireMessage>, n: int) -> bool {
    forall|i: int| 0 <= i < n ==> sent_message(#[trigger] wires[i]) is Ok
}

/// A batch's messages, as they were sent.
pub open spec fn carries_all(messages: Seq<QueueMessage>, wires: Seq<QueueWireMessage>) -> bool {
    &&& messages.len() == wires.len()
    &&& forall|i: int|
        0 <= i < wires.len() ==> (sent_message(#[trigger] wires[i]) matches Ok((
            content_type,
            body,
        )) && carries(messages[i], wires[i], content_type, body))
}

/// Takes a batch on its way to the script that consumes it. Every message must
/// have a content type that is known, a body that decodes, and its lease.
pub fn dispatch_request<M>(
    generation: GenerationId,
    scope: String,
    script: String,
    queue: String,
    envelope: QueueDispatchEnvelope<M>,
) -> (r: Result<QueueDispatchReq<M>, String>)
    ensures
        match r {
            Ok(request) => {
                &&& request.generation == generation
                &&& request.scope == scope
                &&& request.script == script
                &&& request.lease_id == envelope.lease_id
                &&& request.leases == envelope.leases
                &&& request.batch.queue == queue
                &&& request.batch.metrics == envelope.metrics
                &&& carries_all(request.batch.messages@, envelope.messages@)
                &&& leases_match(envelope.messages@, envelope.leases@)
            },
            Err(error) => {
                let wires = envelope.messages@;
                ||| all_good(wires, wires.len() as int) && !leases_match(wires, envelope.leases@)
                    && error@ == "a Queue dispatch must carry one matching lease per message"@
                ||| exists|i: int|
                    0 <= i < wires.len() && all_good(wires, i) && sent_message(#[trigger] wires[i])
                        == Err::<(QueueContentType, Seq<u8>), Seq<char>>(error@)
            },
        },
{
    let QueueDispatchEnvelope { lease_id, leases, messages: wires, metrics } = envelope;
    let ghost sent = wires@;
    let mut messages: Vec<QueueMessage> = Vec::new();
    for wire in iter: wires
        invariant
            iter.seq() == sent,
            messages@.len() == iter.index(),
            all_good(sent, iter.index() as int),
            sent == envelope.messages@,
            forall|i: int|
                0 <= i < messages@.len() ==> (sent_message(#[trigger] sent[i]) matches Ok((
                    content_type,
                    body,
                )) && carries(messages@[i], sent[i], content_type, body)),
    {
        let ghost at = iter.index() as int;
        let body = decode_base64(wire.body_base64.as_str());
        match take_message(wire, body) {
            Ok(message) => {
                messages.push(message);
            },
            Err(error) => {
                assert(sent_message(sent[at]) == Err::<(QueueContentType, Seq<u8>), Seq<char>>(
                    error@,
                ));
                return Err(error);
            },
        }
    }
    let mut matching = messages.len() == leases.len();
    let mut i: usize = 0;
    while matching && i < messages.len()
        invariant
            messages@.len() == sent.len(),
            i <= messages@.len(),
            matching ==> messages@.len() == leases@.len(),
            forall|k: int| 0 <= k < sent.len() ==> (#[trigger] messages@[k]).id == sent[k].id,
            matching ==> forall|k: int|
                0 <= k < i ==> (#[trigger] sent[k]).id@ == leases@[k].message_id@,
            !matching ==> !leases_match(sent, leases@),
        decreases messages.len() - i,
    {
        assert(messages@[i as int].id == sent[i as int].id);
        matching = text::same(messages[i].id.as_str(), leases[i].message_id.as_str());
        i = i + 1;
    }
    if !matching {
        return Err(
            String::from_str("a Queue dispatch must carry one matching lease per message"),
        );
    }
    Ok(
        QueueDispatchReq {
            scope,
            generation,
            script,
            lease_id,
            leases,
            batch: QueueBatch { queue, messages, metrics },
        },
    )
}

/// A message is taken exactly where its content type is one that is known and
/// its body decodes, and is then the one that was sent.
pub proof fn messages_are_taken_as_sent(wire: QueueWireMessage)
    ensures
        sent_message(wire) matches Ok((content_type, body)) ==> {
            &&& wire.content_type@ == content_type.name()
            &&& base64_bytes(wire.body_base64@) == Some(body)
        },
        sent_message(wire) is Ok <==> {
            &&& base64_bytes(wire.body_base64@) is Some
            &&& wire.content_type@ == "text"@ || wire.content_type@ == "bytes"@
                || wire.content_type@ == "json"@ || wire.content_type@ == "v8"@
        },
{
    crate::engine_api::content_types_are_named(wire.content_type@);
}

// ---- settings ------------------------------------------------------------

/// Durations and sizes that a test sets in place of the configured ones.
pub struct QueueOverrides {
    pub lease_duration: Option<i64>,
    pub batch_timeout: Option<i64>,
    pub retention: Option<i64>,
    pub sweep_batch: Option<usize>,
}

impl QueueOverrides {
    /// Nothing is set.
    pub fn none() -> (r: Self)
        ensures
            r == (QueueOverrides {
                lease_duration: None,
                batch_timeout: None,
                retention: None,
                sweep_batch: None,
            }),
    {
        QueueOverrides {
            lease_duration: None,
            batch_timeout: None,
            retention: None,
            sweep_batch: None,
        }
    }
}

pub fn set_queue_lease_duration_for_test(overrides: &mut QueueOverrides, duration: Option<i64>)
    ensures
        *final(overrides) == (QueueOverrides { lease_duration: duration, ..*old(overrides) }),
{
    overrides.lease_duration = duration;
}

pub fn set_queue_batch_timeout_for_test(overrides: &mut QueueOverrides, duration: Option<i64>)
    ensures
        *final(overrides) == (QueueOverrides { batch_timeout: duration, ..*old(overrides) }),
{
    overrides.batch_timeout = duration;
}

pub fn set_queue_retention_for_test(overrides: &mut QueueOverrides, duration: Option<i64>)
    ensures
        *final(overrides) == (QueueOverrides { retention: duration, ..*old(overrides) }),
{
    overrides.retention = duration;
}

pub fn set_queue_sweep_batch_for_test(overrides: &mut QueueOverrides, rows: Option<usize>)
    ensures
        *final(overrides) == (QueueOverrides { sweep_batch: rows, ..*old(overrides) }),
{
    overrides.sweep_batch = rows;
}

/// A value, unless another is set in its place.
pub open spec fn effective(value: int, set: Option<i64>) -> int {
    match set {
        Some(n) => n as int,
        None => value,
    }
}

/// How long a batch may wait to fill: a batch that does not wait never does.
pub open spec fn effective_batch_timeout(value: int, set: Option<i64>) -> int {
    if value == 0 {
        0
    } else {
        effective(value, set)
    }
}

/// A consumer's settings.
pub struct ConsumerSettings {
    pub queue: String,
    pub script: String,
    pub max_batch_size: u16,
    pub max_batch_timeout: u16,
    pub max_retries: u16,
    pub dead_letter_queue: Option<String>,
    pub max_concurrency: Option<u16>,
    pub retry_delay: Option<u32>,
}

/// The bounds that queues are held to.
#[derive(Clone, Copy, Debug, PartialEq, Eq)]
pub struct QueueLimits {
    pub max_message_bytes: u64,
    pub max_batch_bytes: u64,
    pub max_batch_messages: u64,
    pub producer_group_ms: u64,
    pub max_concurrency: u64,
    pub max_delay_seconds: u64,
    pub retention_ms: i64,
    pub sweep_batch_rows: usize,
}

pub open spec fn optional_member(name: Seq<char>, value: Option<JsonView>) -> Seq<
    (Seq<char>, JsonView),
> {
    match value {
        Some(value) => seq![(name, value)],
        None => seq![],
    }
}

/// A consumer's settings as they are written.
pub open spec fn consumer_json(consumer: ConsumerSettings, overrides: QueueOverrides) -> JsonView {
    JsonView::Object(
        seq![
            ("script"@, JsonView::Text(consumer.script@)),
            ("maxBatchSize"@, JsonView::Int(consumer.max_batch_size as int)),
            (
                "maxBatchTimeoutMs"@,
                JsonView::Int(
                    effective_batch_timeout(
                        consumer.max_batch_timeout * 1000,
                        overrides.batch_timeout,
                    ),
                ),
            ),
            ("maxRetries"@, JsonView::Int(consumer.max_retries as int)),
        ] + optional_member(
            "deadLetterQueue"@,
            match consumer.dead_letter_queue {
                Some(queue) => Some(JsonView::Text(queue@)),
                None => None,
            },
        ) + optional_member(
            "maxConcurrency"@,
            match consumer.max_concurrency {
                Some(limit) => Some(JsonView::Int(limit as int)),
                None => None,
            },
        ) + optional_member(
            "retryDelaySeconds"@,
            match consumer.retry_delay {
                Some(delay) => Some(JsonView::Int(delay as int)),
                None => None,
            },
        ),
    )
}

/// The bounds as they are written.
pub open spec fn limits_json(limits: QueueLimits, overrides: QueueOverrides) -> JsonView {
    JsonView::Object(
        seq![
            ("maxMessageBytes"@, json::number(limits.max_message_bytes as int)),
            ("maxBatchBytes"@, json::number(limits.max_batch_bytes as int)),
            ("maxBatchMessages"@, json::number(limits.max_batch_messages as int)),
            ("producerGroupMs"@, json::number(limits.producer_group_ms as int)),
            ("maxConcurrency"@, json::number(limits.max_concurrency as int)),
            ("maxDelaySeconds"@, json::number(limits.max_delay_seconds as int)),
            (
                "retentionMs"@,
                JsonView::Int(effective(limits.retention_ms as int, overrides.retention)),
            ),
            (
                "sweepBatchRows"@,
                json::number(
                    match overrides.sweep_batch {
                        Some(rows) => rows as int,
                        None => limits.sweep_batch_rows as int,
                    },
                ),
            ),
        ],
    )
}

/// Whether a consumer of the same queue is registered again later.
pub open spec fn registered_again(consumers: Seq<ConsumerSettings>, i: int) -> bool {
    exists|j: int| i < j < consumers.len() && (#[trigger] consumers[j]).queue@ == consumers[i].queue@
}

/// The settings of the consumers by queue, of the first `n` registrations: a
/// queue that is registered again has the last one.
pub open spec fn catalog_members(
    consumers: Seq<ConsumerSettings>,
    overrides: QueueOverrides,
    n: nat,
) -> Seq<(Seq<char>, JsonView)>
    decreases n,
{
    if n == 0 {
        seq![]
    } else {
        let before = catalog_members(consumers, overrides, (n - 1) as nat);
        if registered_again(consumers, n - 1) {
            before
        } else {
            before.push(
                (consumers[n - 1].queue@, consumer_json(consumers[n - 1], overrides)),
            )
        }
    }
}

/// A Queue cell's settings as they are written. `lease_ms` is how long a lease
/// lasts.
pub open spec fn config_json(
    consumers: Seq<ConsumerSettings>,
    lease_ms: i64,
    limits: QueueLimits,
    overrides: QueueOverrides,
) -> JsonView {
    JsonView::Object(
        seq![
            (
                "consumers"@,
                JsonView::Object(catalog_members(consumers, overrides, consumers.len())),
            ),
            (
                "leaseDurationMs"@,
                JsonView::Int(effective(lease_ms as int, overrides.lease_duration)),
            ),
            ("limits"@, limits_json(limits, overrides)),
        ],
    )
}

fn effective_value(value: i64, set: Option<i64>) -> (r: i64)
    ensures
        r == effective(value as int, set),
{
    match set {
        Some(n) => n,
        None => value,
    }
}

fn write_consumer(consumer: &ConsumerSettings, overrides: &QueueOverrides) -> (r: Json)
    ensures
        r@ == consumer_json(*consumer, *overrides),
{
    let mut members = json::Members::new();
    members.put("script", json::string(consumer.script.as_str()));
    members.put("maxBatchSize", Json::Int(consumer.max_batch_size as i64));
    let wait: i64 = consumer.max_batch_timeout as i64 * 1000;
    let wait: i64 = if wait == 0 {
        0
    } else {
        effective_value(wait, overrides.batch_timeout)
    };
    members.put("maxBatchTimeoutMs", Json::Int(wait));
    members.put("maxRetries", Json::Int(consumer.max_retries as i64));
    if let Some(queue) = &consumer.dead_letter_queue {
        members.put("deadLetterQueue", json::string(queue.as_str()));
    }
    if let Some(limit) = consumer.max_concurrency {
        members.put("maxConcurrency", Json::Int(limit as i64));
    }
    if let Some(delay) = consumer.retry_delay {
        members.put("retryDelaySeconds", Json::Int(delay as i64));
    }
    assert(members@ =~= consumer_json(*consumer, *overrides)->Object_0);
    members.object()
}

fn write_limits(limits: &QueueLimits, overrides: &QueueOverrides) -> (r: Json)
    ensures
        r@ == limits_json(*limits, *overrides),
{
    let mut members = json::Members::new();
    members.put("maxMessageBytes", json::unsigned(limits.max_message_bytes));
    members.put("maxBatchBytes", json::unsigned(limits.max_batch_bytes));
    members.put("maxBatchMessages", json::unsigned(limits.max_batch_messages));
    members.put("producerGroupMs", json::unsigned(limits.producer_group_ms));
    members.put("maxConcurrency", json::unsigned(limits.max_concurrency));
    members.put("maxDelaySeconds", json::unsigned(limits.max_delay_seconds));
    members.put(
        "retentionMs",
        Json::Int(effective_value(limits.retention_ms, overrides.retention)),
    );
    let rows: usize = match overrides.sweep_batch {
        Some(rows) => rows,
        None => limits.sweep_batch_rows,
    };
    members.put("sweepBatchRows", json::unsigned(rows as u64));
    assert(members@ =~= limits_json(*limits, *overrides)->Object_0);
    members.object()
}

fn is_registered_again(consumers: &Vec<ConsumerSettings>, i: usize) -> (r: bool)
    requires
        i < consumers@.len(),
    ensures
        r == registered_again(consumers@, i as int),
{
    let count: usize = consumers.len();
    let mut j: usize = i + 1;
    while j < count
        invariant
            count == consumers@.len(),
            i < j <= count,
            forall|k: int|
                i < k < j ==> (#[trigger] consumers@[k]).queue@ != consumers@[i as int].queue@,
        decreases count - j,
    {
        if text::same(consumers[j].queue.as_str(), consumers[i].queue.as_str()) {
            return true;
        }
        j = j + 1;
    }
    false
}

/// A queue has one entry: names do not repeat, whatever was registered.
pub proof fn queues_have_one_entry(
    consumers: Seq<ConsumerSettings>,
    overrides: QueueOverrides,
    n: nat,
    i: int,
    j: int,
)
    requires
        n <= consumers.len(),
        0 <= i < j < catalog_members(consumers, overrides, n).len(),
    ensures
        catalog_members(consumers, overrides, n)[i].0 != catalog_members(consumers, overrides, n)[j].0,
    decreases n,
{
    let before = catalog_members(consumers, overrides, (n - 1) as nat);
    if j < before.len() {
        queues_have_one_entry(consumers, overrides, (n - 1) as nat, i, j);
    } else {
        lemma_kept_registration(consumers, overrides, (n - 1) as nat, i);
        let k = choose|k: int|
            0 <= k < n - 1 && !registered_again(consumers, k) && (#[trigger] consumers[k]).queue@
                == before[i].0;
        assert(consumers[n - 1].queue@ != consumers[k].queue@);
    }
}

proof fn lemma_kept_registration(
    consumers: Seq<ConsumerSettings>,
    overrides: QueueOverrides,
    n: nat,
    i: int,
)
    requires
        n <= consumers.len(),
        0 <= i < catalog_members(consumers, overrides, n).len(),
    ensures
        exists|k: int|
            0 <= k < n && !registered_again(consumers, k) && (#[trigger] consumers[k]).queue@
                == catalog_members(consumers, overrides, n)[i].0,
    decreases n,
{
    let before = catalog_members(consumers, overrides, (n - 1) as nat);
    if i < before.len() {
        lemma_kept_registration(consumers, overrides, (n - 1) as nat, i);
        let k = choose|k: int|
            0 <= k < n - 1 && !registered_again(consumers, k) && (#[trigger] consumers[k]).queue@
                == before[i].0;
        assert(consumers[k].queue@ == catalog_members(consumers, overrides, n)[i].0);
    } else {
        assert(consumers[n - 1].queue@ == catalog_members(consumers, overrides, n)[i].0);
    }
}

/// Writes a Queue cell's settings: the consumers by queue, how long a lease
/// lasts, and the bounds.
pub fn consumer_config(
    consumers: &Vec<ConsumerSettings>,
    lease_ms: i64,
    limits: &QueueLimits,
    overrides: &QueueOverrides,
) -> (r: Json)
    ensures
        r@ == config_json(consumers@, lease_ms, *limits, *overrides),
{
    let mut catalog = json::Members::new();
    let mut i: usize = 0;
    assert(catalog@ =~= catalog_members(consumers@, *overrides, 0));
    while i < consumers.len()
        invariant
            i <= consumers@.len(),
            catalog@ == catalog_members(consumers@, *overrides, i as nat),
        decreases consumers.len() - i,
    {
        if !is_registered_again(consumers, i) {
            catalog.put(consumers[i].queue.as_str(), write_consumer(&consumers[i], overrides));
        }
        i = i + 1;
        assert(catalog@ =~= catalog_members(consumers@, *overrides, i as nat));
    }
    let mut members = json::Members::new();
    members.put("consumers", catalog.object());
    members.put(
        "leaseDurationMs",
        Json::Int(effective_value(lease_ms, overrides.lease_duration)),
    );
    members.put("limits", write_limits(limits, overrides));
    assert(members@ =~= config_json(consumers@, lease_ms, *limits, *overrides)->Object_0);
    members.object()
}

/// Whether a consumer's entry says this of it.
pub open spec fn tells_consumer(
    entry: JsonView,
    consumer: ConsumerSettings,
    overrides: QueueOverrides,
) -> bool {
    &&& entry.member("script"@) == Some(JsonView::Text(consumer.script@))
    &&& says(entry, "maxBatchSize"@, consumer.max_batch_size as int)
    &&& says(entry, "maxRetries"@, consumer.max_retries as int)
    &&& says(
        entry,
        "maxBatchTimeoutMs"@,
        if consumer.max_batch_timeout == 0 {
            0
        } else {
            match overrides.batch_timeout {
                Some(ms) => ms as int,
                None => consumer.max_batch_timeout * 1000,
            }
        },
    )
    &&& entry.member("deadLetterQueue"@) == (match consumer.dead_letter_queue {
        Some(queue) => Some(JsonView::Text(queue@)),
        None => None,
    })
    &&& entry.member("maxConcurrency"@) == (match consumer.max_concurrency {
        Some(limit) => Some(JsonView::Int(limit as int)),
        None => None,
    })
    &&& entry.member("retryDelaySeconds"@) == (match consumer.retry_delay {
        Some(delay) => Some(JsonView::Int(delay as int)),
        None => None,
    })
}

proof fn lemma_consumer_names()
    ensures
        "script"@.len() == 6,
        "maxBatchSize"@.len() == 12,
        "maxBatchTimeoutMs"@.len() == 17,
        "maxBatchTimeoutMs"@[0] == 'm',
        "maxRetries"@.len() == 10,
        "deadLetterQueue"@.len() == 15,
        "maxConcurrency"@.len() == 14,
        "retryDelaySeconds"@.len() == 17,
        "retryDelaySeconds"@[0] == 'r',
{
    reveal_strlit("script");
    reveal_strlit("maxBatchSize");
    reveal_strlit("maxBatchTimeoutMs");
    reveal_strlit("maxRetries");
    reveal_strlit("deadLetterQueue");
    reveal_strlit("maxConcurrency");
    reveal_strlit("retryDelaySeconds");
}

/// A consumer's settings are written with its script, the sizes, waits and
/// retries that it was given, the wait in milliseconds, and, where there are
/// any, where its dead letters go, how many batches it takes at a time and how
/// long it waits before a retry, each under its own name. A wait that is set in
/// place of the configured one does not make a batch wait that does not.
pub proof fn consumers_are_written(consumer: ConsumerSettings, overrides: QueueOverrides)
    ensures
        tells_consumer(consumer_json(consumer, overrides), consumer, overrides),
{
    lemma_consumer_names();
    let members = consumer_json(consumer, overrides)->Object_0;
    assert(members[0].0 == "script"@ && members[1].0 == "maxBatchSize"@);
    assert(members[2].0 == "maxBatchTimeoutMs"@ && members[3].0 == "maxRetries"@);
    json::a_member_is_found(members, 0);
    json::a_member_is_found(members, 1);
    json::a_member_is_found(members, 2);
    json::a_member_is_found(members, 3);
    let queued: int = if consumer.dead_letter_queue is Some {
        1
    } else {
        0
    };
    let limited: int = if consumer.max_concurrency is Some {
        1
    } else {
        0
    };
    if consumer.dead_letter_queue is Some {
        assert(members[4].0 == "deadLetterQueue"@);
        json::a_member_is_found(members, 4);
    } else {
        json::no_member_is_made_up(members, "deadLetterQueue"@);
    }
    if consumer.max_concurrency is Some {
        assert(members[4 + queued].0 == "maxConcurrency"@);
        json::a_member_is_found(members, 4 + queued);
    } else {
        json::no_member_is_made_up(members, "maxConcurrency"@);
    }
    if consumer.retry_delay is Some {
        assert(members[4 + queued + limited].0 == "retryDelaySeconds"@);
        json::a_member_is_found(members, 4 + queued + limited);
    } else {
        json::no_member_is_made_up(members, "retryDelaySeconds"@);
    }
}

/// A Queue cell's bounds are written each under its own name; what is kept and
/// how much is swept at once are what is set in place of them, where anything
/// is.
pub proof fn limits_are_written(limits: QueueLimits, overrides: QueueOverrides)
    ensures
        ({
            let value = limits_json(limits, overrides);
            &&& value.member("maxMessageBytes"@) == Some(
                json::number(limits.max_message_bytes as int),
            )
            &&& value.member("maxBatchBytes"@) == Some(json::number(limits.max_batch_bytes as int))
            &&& value.member("maxBatchMessages"@) == Some(
                json::number(limits.max_batch_messages as int),
            )
            &&& value.member("producerGroupMs"@) == Some(
                json::number(limits.producer_group_ms as int),
            )
            &&& value.member("maxConcurrency"@) == Some(json::number(limits.max_concurrency as int))
            &&& value.member("maxDelaySeconds"@) == Some(
                json::number(limits.max_delay_seconds as int),
            )
            &&& says(
                value,
                "retentionMs"@,
                match overrides.retention {
                    Some(ms) => ms as int,
                    None => limits.retention_ms as int,
                },
            )
            &&& value.member("sweepBatchRows"@) == Some(
                json::number(
                    match overrides.sweep_batch {
                        Some(rows) => rows as int,
                        None => limits.sweep_batch_rows as int,
                    },
                ),
            )
        }),
{
    reveal_strlit("maxMessageBytes");
    reveal_strlit("maxBatchBytes");
    reveal_strlit("maxBatchMessages");
    reveal_strlit("producerGroupMs");
    reveal_strlit("maxConcurrency");
    reveal_strlit("maxDelaySeconds");
    reveal_strlit("retentionMs");
    reveal_strlit("sweepBatchRows");
    assert("maxMessageBytes"@.len() == 15 && "producerGroupMs"@.len() == 15);
    assert("maxDelaySeconds"@.len() == 15 && "maxBatchBytes"@.len() == 13);
    assert("maxMessageBytes"@[3] == 'M' && "maxDelaySeconds"@[3] == 'D');
    assert("producerGroupMs"@[3] == 'd' && "maxBatchMessages"@.len() == 16);
    assert("maxConcurrency"@.len() == 14 && "sweepBatchRows"@.len() == 14);
    assert("maxConcurrency"@[0] == 'm' && "sweepBatchRows"@[0] == 's');
    assert("retentionMs"@.len() == 11);
    let members = limits_json(limits, overrides)->Object_0;
    json::a_member_is_found(members, 0);
    json::a_member_is_found(members, 1);
    json::a_member_is_found(members, 2);
    json::a_member_is_found(members, 3);
    json::a_member_is_found(members, 4);
    json::a_member_is_found(members, 5);
    json::a_member_is_found(members, 6);
    json::a_member_is_found(members, 7);
}

/// A Queue cell's settings hold how long a lease lasts, the bounds, and under
/// the name of each queue that has a consumer the settings of the one that was
/// registered last for it.
pub proof fn settings_are_written(
    consumers: Seq<ConsumerSettings>,
    lease_ms: i64,
    limits: QueueLimits,
    overrides: QueueOverrides,
    i: int,
)
    requires
        0 <= i < consumers.len(),
        forall|j: int| i < j < consumers.len() ==> (#[trigger] consumers[j]).queue@
            != consumers[i].queue@,
    ensures
        ({
            let value = config_json(consumers, lease_ms, limits, overrides);
            &&& says(
                value,
                "leaseDurationMs"@,
                match overrides.lease_duration {
                    Some(ms) => ms as int,
                    None => lease_ms as int,
                },
            )
            &&& value.member("limits"@) == Some(limits_json(limits, overrides))
            &&& value.member("consumers"@) matches Some(entries)
            &&& entries.member(consumers[i].queue@) matches Some(entry)
            &&& tells_consumer(entry, consumers[i], overrides)
        }),
{
    reveal_strlit("consumers");
    reveal_strlit("leaseDurationMs");
    reveal_strlit("limits");
    assert("consumers"@.len() == 9 && "leaseDurationMs"@.len() == 15 && "limits"@.len() == 6);
    let members = config_json(consumers, lease_ms, limits, overrides)->Object_0;
    json::a_member_is_found(members, 0);
    json::a_member_is_found(members, 1);
    json::a_member_is_found(members, 2);
    assert(!registered_again(consumers, i));
    let n = consumers.len();
    let entries = catalog_members(consumers, overrides, n);
    let k = lemma_last_registration_is_kept(consumers, overrides, n, i);
    assert forall|j: int| 0 <= j < k implies (#[trigger] entries[j]).0 != entries[k].0 by {
        queues_have_one_entry(consumers, overrides, n, j, k);
    }
    json::a_member_is_found(entries, k);
    consumers_are_written(consumers[i], overrides);
}

proof fn lemma_last_registration_is_kept(
    consumers: Seq<ConsumerSettings>,
    overrides: QueueOverrides,
    n: nat,
    i: int,
) -> (k: int)
    requires
        0 <= i < n <= consumers.len(),
        !registered_again(consumers, i),
    ensures
        0 <= k < catalog_members(consumers, overrides, n).len(),
        catalog_members(consumers, overrides, n)[k] == (
            consumers[i].queue@,
            consumer_json(consumers[i], overrides),
        ),
    decreases n,
{
    if i == n - 1 {
        catalog_members(consumers, overrides, (n - 1) as nat).len() as int
    } else {
        lemma_last_registration_is_kept(consumers, overrides, (n - 1) as nat, i)
    }
}

/// A batch that is dispatched carries every message as it was sent, in order:
/// its id, when it was sent, how often it was tried, its content type and what
/// its body decodes to; and each of its leases is of the message in its place.
pub proof fn batches_carry_their_messages(
    messages: Seq<QueueMessage>,
    wires: Seq<QueueWireMessage>,
    leases: Seq<QueueLeaseRef>,
    i: int,
)
    requires
        carries_all(messages, wires),
        leases_match(wires, leases),
        0 <= i < messages.len(),
    ensures
        messages.len() == wires.len(),
        leases.len() == messages.len(),
        messages[i].id@ == wires[i].id@,
        messages[i].timestamp_ms == wires[i].timestamp_ms,
        messages[i].attempts == wires[i].attempts,
        messages[i].content_type.name() == wires[i].content_type@,
        base64_bytes(wires[i].body_base64@) == Some(messages[i].body@),
        leases[i].message_id@ == messages[i].id@,
{
    assert(sent_message(wires[i]) is Ok);
    messages_are_taken_as_sent(wires[i]);
    assert(wires[i].id@ == leases[i].message_id@);
}

/// A question that lacks what it must hold is refused by the name of what is
/// missing, and one of an operation that is not known by the operation.
pub proof fn unreadable_questions_are_told(value: JsonView, name: Seq<char>, op: Seq<char>)
    ensures
        !(value.member(name) matches Some(JsonView::Int(_))) ==> integer_of(value, name) == Err::<
            i64,
            Seq<char>,
        >("Queue policy input has no integer "@ + name),
        !(value.member("op"@) matches Some(JsonView::Text(_))) ==> policy_request(value) == Err::<
            PolicyRequestView,
            Seq<char>,
        >("Queue policy input has no op"@),
        value.member("op"@) == Some(JsonView::Text(op)) && op != "rearm"@ && op != "capacity"@ && op
            != "retries"@ && op != "expiry"@ && op != "batch"@ && op != "settlement"@ && op
            != "purge"@ ==> policy_request(value) == Err::<PolicyRequestView, Seq<char>>(
            "unknown Queue policy operation "@ + generation::quoted(op),
        ),
{
}

} // verus!
