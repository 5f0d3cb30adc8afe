//! The KV namespace's host side: the requests for large values, which live in
//! the fleet's bucket, and the limits that the cell and the binding read.
use vstd::prelude::*;
#[allow(unused_imports)]
use vstd::string::*;

use crate::json;
#[allow(unused_imports)]
use crate::json::{Json, JsonView};
#[allow(unused_imports)]
use crate::maps;
use crate::maps::TextMap;
#[allow(unused_imports)]
use crate::text;

verus! {

// ---- requests ------------------------------------------------------------

/// A request for large values.
pub enum BlobRequest {
    /// The reference that a value of this digest will have.
    Prepare { digest: String },
    /// The bytes a reference stands for.
    Get { reference: String },
    /// Bytes to be kept under a reference.
    Put { reference: String, bytes: Vec<u8> },
    /// The references that are in use; the rest may go. An entry that is no
    /// text is `None`.
    Sweep { live: Vec<Option<String>> },
}

pub enum BlobRequestView {
    Prepare { digest: Seq<char> },
    Get { reference: Seq<char> },
    Put { reference: Seq<char>, bytes: Seq<u8> },
    Sweep { live: Seq<Option<Seq<char>>> },
}

pub open spec fn optional_text(value: JsonView) -> Option<Seq<char>> {
    match value {
        JsonView::Text(t) => Some(t),
        _ => None,
    }
}

pub open spec fn live_views(live: Seq<Option<String>>) -> Seq<Option<Seq<char>>> {
    live.map_values(
        |t: Option<String>|
            match t {
                Some(t) => Some(t@),
                None => None,
            },
    )
}

impl View for BlobRequest {
    type V = BlobRequestView;

    open spec fn view(&self) -> BlobRequestView {
        match self {
            BlobRequest::Prepare { digest } => BlobRequestView::Prepare { digest: digest@ },
            BlobRequest::Get { reference } => BlobRequestView::Get { reference: reference@ },
            BlobRequest::Put { reference, bytes } => BlobRequestView::Put {
                reference: reference@,
                bytes: bytes@,
            },
            BlobRequest::Sweep { live } => BlobRequestView::Sweep { live: live_views(live@) },
        }
    }
}

/// A text that a request must hold.
pub open spec fn field_of(request: JsonView, name: Seq<char>) -> Result<Seq<char>, Seq<char>> {
    match request.member(name) {
        Some(JsonView::Text(t)) => Ok(t),
        _ => Err("request has no "@ + name),
    }
}

fn field(request: &Json, name: &str) -> (r: Result<String, String>)
    ensures
        match r {
            Ok(t) => field_of(request@, name@) == Ok::<Seq<char>, Seq<char>>(t@),
            Err(error) => field_of(request@, name@) == Err::<Seq<char>, Seq<char>>(error@),
        },
{
    match request.get(name) {
        Some(member) => match member.as_str() {
            Some(t) => Ok(String::from_str(t)),
            None => Err(text::join("request has no ", name)),
        },
        None => Err(text::join("request has no ", name)),
    }
}

/// What a request reads as. `value` is the bytes beside it.
pub open spec fn blob_request(request: JsonView, value: Option<Seq<u8>>) -> Result<
    BlobRequestView,
    Seq<char>,
> {
    match field_of(request, "mode"@) {
        Err(error) => Err(error),
        Ok(mode) => if mode == "prepare"@ {
            match field_of(request, "digest"@) {
                Ok(digest) => Ok(BlobRequestView::Prepare { digest }),
                Err(error) => Err(error),
            }
        } else if mode == "get"@ {
            match field_of(request, "reference"@) {
                Ok(reference) => Ok(BlobRequestView::Get { reference }),
                Err(error) => Err(error),
            }
        } else if mode == "put"@ {
            match (value, field_of(request, "reference"@)) {
                (None, _) => Err("request has no byte view"@),
                (Some(_), Err(error)) => Err(error),
                (Some(bytes), Ok(reference)) => Ok(BlobRequestView::Put { reference, bytes }),
            }
        } else if mode == "sweep"@ {
            match request.member("live"@) {
                Some(JsonView::List(items)) => Ok(
                    BlobRequestView::Sweep {
                        live: items.map_values(|v: JsonView| optional_text(v)),
                    },
                ),
                _ => Err("request has no live blob reference list"@),
            }
        } else {
            Err("unknown mode "@ + mode)
        },
    }
}

/// What the text of a request reads as.
pub open spec fn blob_request_text(request: Seq<char>, value: Option<Seq<u8>>) -> Result<
    BlobRequestView,
    Seq<char>,
> {
    match json::parsed_json(request) {
        Err(error) => Err("invalid request: "@ + error),
        Ok(request) => blob_request(request, value),
    }
}

/// The bytes beside a request, as they are reasoned about.
pub open spec fn beside(value: Option<Vec<u8>>) -> Option<Seq<u8>> {
    match value {
        Some(bytes) => Some(bytes@),
        None => None,
    }
}

/// Reads a request that was parsed.
pub fn take_request(request: &Json, value: Option<Vec<u8>>) -> (r: Result<BlobRequest, String>)
    ensures
        match r {
            Ok(taken) => blob_request(request@, beside(value)) == Ok::<
                BlobRequestView,
                Seq<char>,
            >(taken@),
            Err(error) => blob_request(request@, beside(value)) == Err::<
                BlobRequestView,
                Seq<char>,
            >(error@),
        },
{
    let mode = match field(request, "mode") {
        Ok(mode) => mode,
        Err(error) => {
            return Err(error);
        },
    };
    let mode = mode.as_str();
    if text::same(mode, "prepare") {
        match field(request, "digest") {
            Ok(digest) => Ok(BlobRequest::Prepare { digest }),
            Err(error) => Err(error),
        }
    } else if text::same(mode, "get") {
        match field(request, "reference") {
            Ok(reference) => Ok(BlobRequest::Get { reference }),
            Err(error) => Err(error),
        }
    } else if text::same(mode, "put") {
        match value {
            None => Err(String::from_str("request has no byte view")),
            Some(bytes) => match field(request, "reference") {
                Ok(reference) => Ok(BlobRequest::Put { reference, bytes }),
                Err(error) => Err(error),
            },
        }
    } else if text::same(mode, "sweep") {
        match request.get("live") {
            None => Err(String::from_str("request has no live blob reference list")),
            Some(member) => match member.as_array() {
                None => Err(String::from_str("request has no live blob reference list")),
                Some(items) => {
                    let mut live: Vec<Option<String>> = Vec::new();
                    let mut i: usize = 0;
                    while i < items.len()
                        invariant
                            i <= items@.len(),
                            live@.len() == i,
                            forall|k: int|
                                0 <= k < i ==> (match #[trigger] live@[k] {
                                    Some(t) => Some(t@),
                                    None => None,
                                }) == optional_text(items@[k]@),
                        decreases items.len() - i,
                    {
                        let entry = match items[i].as_str() {
                            Some(t) => Some(String::from_str(t)),
                            None => None,
                        };
                        live.push(entry);
                        i = i + 1;
                    }
                    assert(live_views(live@) =~= json::views(items@).map_values(
                        |v: JsonView| optional_text(v),
                    ));
                    Ok(BlobRequest::Sweep { live })
                },
            },
        }
    } else {
        Err(text::join("unknown mode ", mode))
    }
}

/// Reads a request.
pub fn run(request: &str, value: Option<Vec<u8>>) -> (r: Result<BlobRequest, String>)
    ensures
        match r {
            Ok(taken) => blob_request_text(request@, beside(value)) == Ok::<
                BlobRequestView,
                Seq<char>,
            >(taken@),
            Err(error) => blob_request_text(request@, beside(value)) == Err::<
                BlobRequestView,
                Seq<char>,
            >(error@),
        },
{
    match json::parse_json(request) {
        Err(error) => Err(text::join("invalid request: ", error.as_str())),
        Ok(parsed) => take_request(&parsed, value),
    }
}

/// A request asks for what it names: for the reference of a digest, for the
/// bytes of a reference, to keep the bytes beside it under a reference, or to
/// sweep all but the references of a list; the digest, the reference and the
/// list are those it holds under their names.
pub proof fn requests_ask_for_what_they_name(
    request: JsonView,
    value: Option<Seq<u8>>,
    t: Seq<char>,
    bytes: Seq<u8>,
    live: Seq<Option<Seq<char>>>,
)
    ensures
        blob_request(request, value) == Ok::<BlobRequestView, Seq<char>>(
            BlobRequestView::Prepare { digest: t },
        ) <==> {
            &&& request.member("mode"@) == Some(JsonView::Text("prepare"@))
            &&& request.member("digest"@) == Some(JsonView::Text(t))
        },
        blob_request(request, value) == Ok::<BlobRequestView, Seq<char>>(
            BlobRequestView::Get { reference: t },
        ) <==> {
            &&& request.member("mode"@) == Some(JsonView::Text("get"@))
            &&& request.member("reference"@) == Some(JsonView::Text(t))
        },
        blob_request(request, value) == Ok::<BlobRequestView, Seq<char>>(
            BlobRequestView::Put { reference: t, bytes },
        ) <==> {
            &&& request.member("mode"@) == Some(JsonView::Text("put"@))
            &&& request.member("reference"@) == Some(JsonView::Text(t))
            &&& value == Some(bytes)
        },
        blob_request(request, value) == Ok::<BlobRequestView, Seq<char>>(
            BlobRequestView::Sweep { live },
        ) <==> {
            &&& request.member("mode"@) == Some(JsonView::Text("sweep"@))
            &&& request.member("live"@) matches Some(JsonView::List(items))
            &&& items.len() == live.len()
            &&& forall|i: int|
                0 <= i < items.len() ==> live[i] == (match #[trigger] items[i] {
                    JsonView::Text(t) => Some(t),
                    _ => None,
                })
        },
{
    reveal_strlit("prepare");
    reveal_strlit("get");
    reveal_strlit("put");
    reveal_strlit("sweep");
    assert("prepare"@.len() == 7 && "get"@.len() == 3 && "sweep"@.len() == 5);
    assert("get"@[0] == 'g' && "put"@[0] == 'p');
    if let Some(JsonView::List(items)) = request.member("live"@) {
        let read = items.map_values(|v: JsonView| optional_text(v));
        if items.len() == live.len() && forall|i: int|
            0 <= i < items.len() ==> live[i] == (match #[trigger] items[i] {
                JsonView::Text(t) => Some(t),
                _ => None,
            }) {
            assert forall|i: int| 0 <= i < live.len() implies live[i] == read[i] by {
                assert(read[i] == optional_text(items[i]));
            }
            assert(read =~= live);
        }
        if read == live {
            assert forall|i: int| 0 <= i < items.len() implies live[i] == (
            match #[trigger] items[i] {
                JsonView::Text(t) => Some(t),
                _ => None,
            }) by {
                assert(read[i] == optional_text(items[i]));
            }
        }
    }
}

// ---- authority -----------------------------------------------------------

/// Whether an activation may read a reference: none of a later ownership.
pub fn check_readable(readable: bool) -> (r: Result<(), String>)
    ensures
        r is Ok <==> readable,
        r matches Err(error) ==> error@ == "a KV row references a later ownership epoch"@,
{
    if readable {
        Ok(())
    } else {
        Err(String::from_str("a KV row references a later ownership epoch"))
    }
}

/// Whether an activation may write under a reference: its own alone.
pub fn check_writable(writable: bool) -> (r: Result<(), String>)
    ensures
        r is Ok <==> writable,
        r matches Err(error) ==> error@ == "a new KV blob must use the active ownership epoch"@,
{
    if writable {
        Ok(())
    } else {
        Err(String::from_str("a new KV blob must use the active ownership epoch"))
    }
}

/// What an entry of a sweep's list was found to be.
pub enum LiveEntry {
    /// It is no text.
    NotText,
    /// It is no reference, for this reason.
    Malformed(String),
    /// It is of a later ownership than the activation's.
    Later,
    /// It is of the first format, whose values no sweep collects.
    Legacy,
    /// It is a reference, in the form it is compared in.
    Reference(String),
}

/// What is wrong with an entry.
pub open spec fn live_error(entry: LiveEntry) -> Option<Seq<char>> {
    match entry {
        LiveEntry::NotText => Some("the live blob reference list contains a non-string"@),
        LiveEntry::Malformed(error) => Some(error@),
        LiveEntry::Later => Some("the live blob reference list contains a later epoch"@),
        LiveEntry::Legacy => None,
        LiveEntry::Reference(_) => None,
    }
}

/// Whether a reference is in the list.
pub open spec fn is_live(entries: Seq<LiveEntry>, reference: Seq<char>) -> bool {
    exists|i: int|
        0 <= i < entries.len() && ((#[trigger] entries[i]) matches LiveEntry::Reference(t) && t@
            == reference)
}

/// The references that are in use, or the first entry that is wrong.
pub fn live_references(entries: &Vec<LiveEntry>) -> (r: Result<TextMap<bool>, String>)
    ensures
        match r {
            Ok(live) => {
                &&& forall|i: int|
                    0 <= i < entries@.len() ==> live_error(#[trigger] entries@[i]) is None
                &&& forall|reference: Seq<char>| #[trigger]
                    live@.contains_key(reference) <==> is_live(entries@, reference)
            },
            Err(error) => exists|i: int|
                {
                    &&& 0 <= i < entries@.len()
                    &&& live_error(#[trigger] entries@[i]) == Some(error@)
                    &&& forall|k: int| 0 <= k < i ==> live_error(#[trigger] entries@[k]) is None
                },
        },
{
    let mut live: TextMap<bool> = TextMap::new();
    let mut i: usize = 0;
    while i < entries.len()
        invariant
            i <= entries@.len(),
            forall|k: int| 0 <= k < i ==> live_error(#[trigger] entries@[k]) is None,
            forall|reference: Seq<char>| #[trigger]
                live@.contains_key(reference) <==> is_live(entries@.take(i as int), reference),
        decreases entries.len() - i,
    {
        let ghost before = live@;
        match &entries[i] {
            LiveEntry::NotText => {
                return Err(
                    String::from_str("the live blob reference list contains a non-string"),
                );
            },
            LiveEntry::Malformed(error) => {
                return Err(error.clone());
            },
            LiveEntry::Later => {
                return Err(
                    String::from_str("the live blob reference list contains a later epoch"),
                );
            },
            LiveEntry::Legacy => {},
            LiveEntry::Reference(t) => {
                live.insert(t.clone(), true);
            },
        }
        proof {
            let now = entries@.take(i + 1);
            let was = entries@.take(i as int);
            assert forall|reference: Seq<char>| #[trigger]
                live@.contains_key(reference) <==> is_live(now, reference) by {
                if is_live(was, reference) {
                    let k = choose|k: int|
                        0 <= k < was.len() && ((#[trigger] was[k]) matches LiveEntry::Reference(t)
                            && t@ == reference);
                    assert(now[k] == was[k]);
                }
                if is_live(now, reference) {
                    let k = choose|k: int|
                        0 <= k < now.len() && ((#[trigger] now[k]) matches LiveEntry::Reference(t)
                            && t@ == reference);
                    if k < i {
                        assert(was[k] == now[k]);
                    }
                }
                assert(now[i as int] == entries@[i as int]);
                assert(before.contains_key(reference) == is_live(was, reference));
            }
        }
        i = i + 1;
    }
    assert(entries@.take(i as int) =~= entries@);
    Ok(live)
}

/// The part of a listed key after the prefix that was listed.
pub fn listed_suffix(key: &str, prefix: &str) -> (r: Result<String, String>)
    ensures
        match r {
            Ok(suffix) => text::has_prefix(key@, prefix@) && suffix@ == key@.skip(
                prefix@.len() as int,
            ),
            Err(error) => !text::has_prefix(key@, prefix@) && error@
                == "the KV blob listing returned a key outside its prefix"@,
        },
{
    match text::strip_prefix(key, prefix) {
        Some(suffix) => Ok(suffix),
        None => Err(String::from_str("the KV blob listing returned a key outside its prefix")),
    }
}

/// What the name of a listed value says: whether the activation may collect
/// the value, and its reference in the form it is compared in.
pub struct ListedBlob {
    pub collectable: bool,
    pub reference: String,
}

/// The keys that a sweep deletes: those the activation may collect and whose
/// references are not in use. A key outside the prefix, or whose name cannot
/// be read, stops the sweep before anything is deleted; the first such key
/// says why.
pub open spec fn doomed_keys(
    keys: Seq<String>,
    prefix: Seq<char>,
    names: Seq<Result<ListedBlob, String>>,
    live: Set<Seq<char>>,
) -> Result<Seq<Seq<char>>, Seq<char>>
    decreases keys.len(),
{
    if keys.len() == 0 {
        Ok(seq![])
    } else {
        match doomed_keys(keys.drop_last(), prefix, names, live) {
            Err(error) => Err(error),
            Ok(rest) => {
                let key = keys.last()@;
                if !text::has_prefix(key, prefix) {
                    Err("the KV blob listing returned a key outside its prefix"@)
                } else {
                    match names[keys.len() - 1] {
                        Err(error) => Err(error@),
                        Ok(blob) => if blob.collectable && !live.contains(blob.reference@) {
                            Ok(rest.push(key))
                        } else {
                            Ok(rest)
                        },
                    }
                }
            },
        }
    }
}

/// The keys that a sweep deletes, from the whole listing and what each key's
/// name says.
pub fn doomed(
    keys: &Vec<String>,
    prefix: &str,
    names: &Vec<Result<ListedBlob, String>>,
    live: &TextMap<bool>,
) -> (r: Result<Vec<String>, String>)
    requires
        names@.len() == keys@.len(),
    ensures
        match r {
            Ok(out) => doomed_keys(keys@, prefix@, names@, live@.dom()) == Ok::<
                Seq<Seq<char>>,
                Seq<char>,
            >(maps::views(out@)),
            Err(error) => doomed_keys(keys@, prefix@, names@, live@.dom()) == Err::<
                Seq<Seq<char>>,
                Seq<char>,
            >(error@),
        },
{
    let mut out: Vec<String> = Vec::new();
    let mut i: usize = 0;
    assert(keys@.take(0) =~= Seq::<String>::empty());
    assert(maps::views(out@) =~= Seq::<Seq<char>>::empty());
    while i < keys.len()
        invariant
            i <= keys@.len(),
            names@.len() == keys@.len(),
            doomed_keys(keys@.take(i as int), prefix@, names@, live@.dom()) == Ok::<
                Seq<Seq<char>>,
                Seq<char>,
            >(maps::views(out@)),
        decreases keys.len() - i,
    {
        let ghost before = out@;
        proof {
            assert(keys@.take(i + 1).drop_last() =~= keys@.take(i as int));
            assert(keys@.take(i + 1).last() == keys@[i as int]);
        }
        if let Err(error) = listed_suffix(keys[i].as_str(), prefix) {
            proof {
                lemma_first_error(keys@, prefix@, names@, live@.dom(), i + 1);
            }
            return Err(error);
        }
        match &names[i] {
            Err(error) => {
                proof {
                    lemma_first_error(keys@, prefix@, names@, live@.dom(), i + 1);
                }
                return Err(error.clone());
            },
            Ok(blob) => {
                if blob.collectable && !live.contains(blob.reference.as_str()) {
                    out.push(keys[i].clone());
                    assert(maps::views(out@) =~= maps::views(before).push(keys@[i as int]@));
                }
            },
        }
        i = i + 1;
    }
    assert(keys@.take(i as int) =~= keys@);
    Ok(out)
}

proof fn lemma_first_error(
    keys: Seq<String>,
    prefix: Seq<char>,
    names: Seq<Result<ListedBlob, String>>,
    live: Set<Seq<char>>,
    n: int,
)
    requires
        0 <= n <= keys.len(),
        doomed_keys(keys.take(n), prefix, names, live) is Err,
    ensures
        doomed_keys(keys, prefix, names, live) == doomed_keys(keys.take(n), prefix, names, live),
    decreases keys.len() - n,
{
    if n < keys.len() {
        assert(keys.take(n + 1).drop_last() =~= keys.take(n));
        lemma_first_error(keys, prefix, names, live, n + 1);
    } else {
        assert(keys.take(n) =~= keys);
    }
}

/// One malformed key in the listing, and the sweep deletes nothing.
pub proof fn malformed_listing_deletes_nothing(
    keys: Seq<String>,
    prefix: Seq<char>,
    names: Seq<Result<ListedBlob, String>>,
    live: Set<Seq<char>>,
    i: int,
)
    requires
        0 <= i < keys.len(),
        names.len() == keys.len(),
        !text::has_prefix(keys[i]@, prefix) || names[i] is Err,
    ensures
        doomed_keys(keys, prefix, names, live) is Err,
{
    let some = keys.take(i + 1);
    assert(some.last() == keys[i]);
    assert(doomed_keys(some, prefix, names, live) is Err);
    lemma_first_error(keys, prefix, names, live, i + 1);
}

/// A value that is in use is never deleted, nor one that the activation may
/// not collect.
pub proof fn sweep_spares_live_values(
    keys: Seq<String>,
    prefix: Seq<char>,
    names: Seq<Result<ListedBlob, String>>,
    live: Set<Seq<char>>,
    key: Seq<char>,
)
    requires
        doomed_keys(keys, prefix, names, live) matches Ok(doomed) && doomed.contains(key),
    ensures
        exists|i: int|
            0 <= i < keys.len() && (#[trigger] keys[i])@ == key && (names[i] matches Ok(blob)
                && blob.collectable && !live.contains(blob.reference@)),
    decreases keys.len(),
{
    if keys.len() > 0 {
        let before = keys.drop_last();
        let rest = doomed_keys(before, prefix, names, live)->Ok_0;
        let all = doomed_keys(keys, prefix, names, live)->Ok_0;
        let at = choose|at: int| 0 <= at < all.len() && all[at] == key;
        if at < rest.len() {
            assert(rest[at] == key);
            sweep_spares_live_values(before, prefix, names, live, key);
            let i = choose|i: int|
                0 <= i < before.len() && (#[trigger] before[i])@ == key && (names[i] matches Ok(
                    blob,
                ) && blob.collectable && !live.contains(blob.reference@));
            assert(keys[i]@ == key);
        } else {
            assert(keys[keys.len() - 1]@ == key);
        }
    }
}

/// A sweep of a listing that reads well deletes every value that the activation
/// may collect and that is not in use.
pub proof fn sweep_takes_what_is_not_live(
    keys: Seq<String>,
    prefix: Seq<char>,
    names: Seq<Result<ListedBlob, String>>,
    live: Set<Seq<char>>,
)
    requires
        names.len() >= keys.len(),
        forall|i: int|
            0 <= i < keys.len() ==> text::has_prefix((#[trigger] keys[i])@, prefix) && names[i] is Ok,
    ensures
        doomed_keys(keys, prefix, names, live) matches Ok(doomed) && forall|i: int|
            0 <= i < keys.len() && names[i]->Ok_0.collectable && !live.contains(
                names[i]->Ok_0.reference@,
            ) ==> doomed.contains((#[trigger] keys[i])@),
    decreases keys.len(),
{
    if keys.len() > 0 {
        let before = keys.drop_last();
        assert forall|i: int| 0 <= i < before.len() implies text::has_prefix(
            (#[trigger] before[i])@,
            prefix,
        ) && names[i] is Ok by {
            assert(before[i] == keys[i]);
        }
        sweep_takes_what_is_not_live(before, prefix, names, live);
        assert(text::has_prefix(keys[keys.len() - 1]@, prefix));
        let rest = doomed_keys(before, prefix, names, live)->Ok_0;
        let all = doomed_keys(keys, prefix, names, live)->Ok_0;
        assert forall|i: int|
            0 <= i < keys.len() && names[i]->Ok_0.collectable && !live.contains(
                names[i]->Ok_0.reference@,
            ) implies all.contains((#[trigger] keys[i])@) by {
            if i < before.len() {
                assert(before[i] == keys[i]);
                assert(rest.contains(keys[i]@));
                let k = choose|k: int| 0 <= k < rest.len() && rest[k] == keys[i]@;
                assert(all[k] == keys[i]@);
            } else {
                assert(all[all.len() - 1] == keys[i]@);
            }
        }
    }
}

// ---- answers -------------------------------------------------------------

/// What a request came to.
pub enum BlobReply {
    Bytes(Vec<u8>),
    Json(Json),
}

fn one_member(name: &str, value: Json) -> (r: Json)
    ensures
        r@ == JsonView::Object(seq![(name@, value@)]),
{
    let mut members = json::Members::new();
    members.put(name, value);
    assert(members@ =~= seq![(name@, value@)]);
    members.object()
}

/// The answer to a preparation.
pub fn prepared(reference: &str) -> (r: Json)
    ensures
        r@ == JsonView::Object(seq![("reference"@, JsonView::Text(reference@))]),
{
    one_member("reference", json::string(reference))
}

/// The answer to a reading: the bytes, or that there are none.
pub fn read_reply(bytes: Option<Vec<u8>>) -> (r: BlobReply)
    ensures
        match bytes {
            Some(bytes) => r == BlobReply::Bytes(bytes),
            None => r matches BlobReply::Json(json) && json@ == JsonView::Object(
                seq![("found"@, JsonView::Bool(false))],
            ),
        },
{
    match bytes {
        Some(bytes) => BlobReply::Bytes(bytes),
        None => BlobReply::Json(one_member("found", Json::Bool(false))),
    }
}

/// The answer to a writing.
pub fn written() -> (r: Json)
    ensures
        r@ == JsonView::Object(seq![("ok"@, JsonView::Bool(true))]),
{
    one_member("ok", Json::Bool(true))
}

/// The answer to a sweep: how many values went, unless some refused to.
pub fn swept(doomed: usize, gone: usize) -> (r: Result<Json, String>)
    ensures
        if doomed == gone {
            r matches Ok(json) && json@ == JsonView::Object(
                seq![("removed"@, json::number(gone as int))],
            )
        } else {
            r matches Err(error) && error@ == text::decimal(
                if doomed > gone {
                    (doomed - gone) as nat
                } else {
                    0
                },
            ) + " blob(s) refused deletion"@
        },
{
    if doomed == gone {
        Ok(one_member("removed", json::unsigned(gone as u64)))
    } else {
        let left: usize = doomed.saturating_sub(gone);
        Err(
            text::join(text::decimal_text(left as u64).as_str(), " blob(s) refused deletion"),
        )
    }
}

// ---- limits --------------------------------------------------------------

/// What one entry of the test settings says of a setting: its value, or
/// nothing.
pub open spec fn knob_entry(entry: Seq<char>, name: Seq<char>) -> Option<Seq<char>> {
    let bare = text::trimmed(entry);
    if text::has_prefix(bare, name) {
        let rest = bare.skip(name.len() as int);
        if rest.len() == 0 {
            Some(rest)
        } else if rest[0] == '=' {
            Some(rest.skip(1))
        } else {
            None
        }
    } else {
        None
    }
}

/// What the first entry that speaks of a setting says.
pub open spec fn knob_in(entries: Seq<Seq<char>>, name: Seq<char>) -> Option<Seq<char>>
    decreases entries.len(),
{
    if entries.len() == 0 {
        None
    } else {
        match knob_entry(entries[0], name) {
            Some(value) => Some(value),
            None => knob_in(entries.skip(1), name),
        }
    }
}

/// What the test settings say of a setting: entries apart by commas.
pub open spec fn knob_of(knobs: Seq<char>, name: Seq<char>) -> Option<Seq<char>> {
    knob_in(text::pieces(knobs, ','), name)
}

fn read_knob(entry: &str, name: &str) -> (r: Option<String>)
    ensures
        match r {
            Some(value) => knob_entry(entry@, name@) == Some(value@),
            None => knob_entry(entry@, name@) is None,
        },
{
    let bare = text::trim(entry);
    match text::strip_prefix(bare.as_str(), name) {
        None => None,
        Some(rest) => {
            proof {
                reveal_strlit("");
                reveal_strlit("=");
            }
            if text::same(rest.as_str(), "") {
                return Some(rest);
            }
            let ghost first = rest@;
            proof {
                if first.len() == 0 {
                    assert(first =~= ""@);
                }
            }
            match text::strip_prefix(rest.as_str(), "=") {
                Some(value) => {
                    assert(first.subrange(0, 1)[0] == first[0]);
                    Some(value)
                },
                None => {
                    proof {
                        if first[0] == '=' {
                            assert(first.subrange(0, 1) =~= seq!['=']);
                            assert("="@ =~= seq!['=']);
                        }
                    }
                    None
                },
            }
        },
    }
}

fn knob(knobs: &str, name: &str) -> (r: Option<String>)
    ensures
        match r {
            Some(value) => knob_of(knobs@, name@) == Some(value@),
            None => knob_of(knobs@, name@) is None,
        },
{
    let entries = text::split(knobs, ',');
    let ghost all = text::texts(entries@);
    let mut i: usize = 0;
    assert(all.skip(0) =~= all);
    while i < entries.len()
        invariant
            i <= entries@.len(),
            all == text::texts(entries@),
            all == text::pieces(knobs@, ','),
            knob_in(all, name@) == knob_in(all.skip(i as int), name@),
        decreases entries.len() - i,
    {
        assert(all.skip(i as int).skip(1) =~= all.skip(i + 1));
        assert(all.skip(i as int)[0] == entries@[i as int]@);
        if let Some(value) = read_knob(entries[i].as_str(), name) {
            return Some(value);
        }
        i = i + 1;
    }
    None
}

/// A setting in milliseconds: a positive number, or the default.
pub open spec fn knob_ms(knobs: Seq<char>, name: Seq<char>, default: i64) -> i64 {
    match knob_of(knobs, name) {
        None => default,
        Some(value) => match text::parse_signed(value) {
            Some(n) => if 0 < n <= i64::MAX {
                n as i64
            } else {
                default
            },
            None => default,
        },
    }
}

fn read_ms(knobs: &str, name: &str, default: i64) -> (r: i64)
    ensures
        r == knob_ms(knobs@, name@, default),
{
    match knob(knobs, name) {
        None => default,
        Some(value) => match text::parse_i64(value.as_str()) {
            Some(n) => if n > 0 {
                n
            } else {
                default
            },
            None => default,
        },
    }
}

/// The bounds that KV values are held to.
#[derive(Clone, Copy, Debug, PartialEq, Eq)]
pub struct KvLimits {
    pub max_key_bytes: u64,
    pub max_value_bytes: u64,
    pub max_inline_value_bytes: u64,
    pub max_metadata_bytes: u64,
    pub max_bulk_keys: u64,
    pub max_list_limit: u64,
    pub sweep_batch_rows: u64,
    pub min_expiration_ttl_ms: i64,
}

/// The bounds and the test settings as they are written.
pub open spec fn limits_json(bounds: KvLimits, knobs: Seq<char>) -> JsonView {
    JsonView::Object(
        seq![
            ("maxKeyBytes"@, json::number(bounds.max_key_bytes as int)),
            ("maxValueBytes"@, json::number(bounds.max_value_bytes as int)),
            ("maxInlineValueBytes"@, json::number(bounds.max_inline_value_bytes as int)),
            ("maxMetadataBytes"@, json::number(bounds.max_metadata_bytes as int)),
            ("maxBulkKeys"@, json::number(bounds.max_bulk_keys as int)),
            ("maxListLimit"@, json::number(bounds.max_list_limit as int)),
            ("sweepBatchRows"@, json::number(bounds.sweep_batch_rows as int)),
            (
                "minExpirationTtlMs"@,
                JsonView::Int(
                    knob_ms(knobs, "min-ttl-ms"@, bounds.min_expiration_ttl_ms) as int,
                ),
            ),
            ("blobSweepMs"@, JsonView::Int(knob_ms(knobs, "blob-sweep-ms"@, 60000) as int)),
            ("sweepDisabled"@, JsonView::Bool(knob_of(knobs, "no-sweep"@) is Some)),
            ("failAfterBlobWrite"@, JsonView::Bool(knob_of(knobs, "fail-after-blob"@) is Some)),
            ("raceSweepPut"@, JsonView::Bool(knob_of(knobs, "race-sweep-put"@) is Some)),
            ("legacySchema"@, JsonView::Bool(knob_of(knobs, "legacy-schema"@) is Some)),
        ],
    )
}

/// Writes the bounds and the test settings.
pub fn limits(bounds: &KvLimits, knobs: &str) -> (r: Json)
    ensures
        r@ == limits_json(*bounds, knobs@),
{
    let mut members = json::Members::new();
    members.put("maxKeyBytes", json::unsigned(bounds.max_key_bytes));
    members.put("maxValueBytes", json::unsigned(bounds.max_value_bytes));
    members.put("maxInlineValueBytes", json::unsigned(bounds.max_inline_value_bytes));
    members.put("maxMetadataBytes", json::unsigned(bounds.max_metadata_bytes));
    members.put("maxBulkKeys", json::unsigned(bounds.max_bulk_keys));
    members.put("maxListLimit", json::unsigned(bounds.max_list_limit));
    members.put("sweepBatchRows", json::unsigned(bounds.sweep_batch_rows));
    members.put(
        "minExpirationTtlMs",
        Json::Int(read_ms(knobs, "min-ttl-ms", bounds.min_expiration_ttl_ms)),
    );
    members.put("blobSweepMs", Json::Int(read_ms(knobs, "blob-sweep-ms", 60000)));
    members.put("sweepDisabled", Json::Bool(knob(knobs, "no-sweep").is_some()));
    members.put("failAfterBlobWrite", Json::Bool(knob(knobs, "fail-after-blob").is_some()));
    members.put("raceSweepPut", Json::Bool(knob(knobs, "race-sweep-put").is_some()));
    members.put("legacySchema", Json::Bool(knob(knobs, "legacy-schema").is_some()));
    assert(members@ =~= limits_json(*bounds, knobs@)->Object_0);
    members.object()
}

/// An entry of the test settings speaks of a setting exactly where, but for
/// white space round it, it is the setting's name alone, or the name and its
/// value with an equals sign between them.
pub proof fn entries_speak_of_one_setting(entry: Seq<char>, name: Seq<char>, value: Seq<char>)
    ensures
        knob_entry(entry, name) == Some(value) <==> {
            ||| text::trimmed(entry) == name && value.len() == 0
            ||| text::trimmed(entry) == name + seq!['='] + value
        },
{
    let bare = text::trimmed(entry);
    if knob_entry(entry, name) == Some(value) {
        assert(bare =~= name + bare.skip(name.len() as int));
        let rest = bare.skip(name.len() as int);
        if rest.len() == 0 {
            assert(bare =~= name);
        } else {
            assert(rest =~= seq!['='] + value);
            assert(bare =~= name + seq!['='] + value);
        }
    }
    if bare == name && value.len() == 0 {
        assert(bare.subrange(0, name.len() as int) =~= name);
        assert(bare.skip(name.len() as int) =~= value);
    }
    if bare == name + seq!['='] + value {
        assert(bare.subrange(0, name.len() as int) =~= name);
        let rest = bare.skip(name.len() as int);
        assert(rest[0] == '=');
        assert(rest.skip(1) =~= value);
    }
}

/// The first entry that speaks of a setting counts; where none does, it is not
/// set.
pub proof fn first_entry_counts(knobs: Seq<char>, name: Seq<char>)
    ensures
        match knob_of(knobs, name) {
            Some(value) => exists|i: int|
                {
                    &&& 0 <= i < text::pieces(knobs, ',').len()
                    &&& knob_entry(#[trigger] text::pieces(knobs, ',')[i], name) == Some(value)
                    &&& forall|k: int|
                        0 <= k < i ==> knob_entry(#[trigger] text::pieces(knobs, ',')[k], name) is None
                },
            None => forall|i: int|
                0 <= i < text::pieces(knobs, ',').len() ==> knob_entry(
                    #[trigger] text::pieces(knobs, ',')[i],
                    name,
                ) is None,
        },
{
    lemma_knob_in(text::pieces(knobs, ','), name);
}

proof fn lemma_knob_in(entries: Seq<Seq<char>>, name: Seq<char>)
    ensures
        match knob_in(entries, name) {
            Some(value) => exists|i: int|
                {
                    &&& 0 <= i < entries.len()
                    &&& knob_entry(#[trigger] entries[i], name) == Some(value)
                    &&& forall|k: int| 0 <= k < i ==> knob_entry(#[trigger] entries[k], name) is None
                },
            None => forall|i: int|
                0 <= i < entries.len() ==> knob_entry(#[trigger] entries[i], name) is None,
        },
    decreases entries.len(),
{
    if entries.len() > 0 && knob_entry(entries[0], name) is None {
        let rest = entries.skip(1);
        lemma_knob_in(rest, name);
        match knob_in(rest, name) {
            Some(value) => {
                let i = choose|i: int|
                    {
                        &&& 0 <= i < rest.len()
                        &&& knob_entry(#[trigger] rest[i], name) == Some(value)
                        &&& forall|k: int| 0 <= k < i ==> knob_entry(#[trigger] rest[k], name) is None
                    };
                assert(rest[i] == entries[i + 1]);
                assert forall|k: int| 0 <= k < i + 1 implies knob_entry(
                    #[trigger] entries[k],
                    name,
                ) is None by {
                    if k > 0 {
                        assert(rest[k - 1] == entries[k]);
                    }
                }
            },
            None => {
                assert forall|i: int| 0 <= i < entries.len() implies knob_entry(
                    #[trigger] entries[i],
                    name,
                ) is None by {
                    if i > 0 {
                        assert(rest[i - 1] == entries[i]);
                    }
                }
            },
        }
    }
}

/// The bounds are written each under its own name. The shortest time to live
/// and the time between sweeps are what the test settings say, where that is a
/// positive number, and else the bound and a minute; the other test settings
/// are told apart by their names.
pub proof fn bounds_are_written(bounds: KvLimits, knobs: Seq<char>)
    ensures
        ({
            let value = limits_json(bounds, knobs);
            &&& value.member("maxKeyBytes"@) == Some(json::number(bounds.max_key_bytes as int))
            &&& value.member("maxValueBytes"@) == Some(json::number(bounds.max_value_bytes as int))
            &&& value.member("maxInlineValueBytes"@) == Some(
                json::number(bounds.max_inline_value_bytes as int),
            )
            &&& value.member("maxMetadataBytes"@) == Some(
                json::number(bounds.max_metadata_bytes as int),
            )
            &&& value.member("maxBulkKeys"@) == Some(json::number(bounds.max_bulk_keys as int))
            &&& value.member("maxListLimit"@) == Some(json::number(bounds.max_list_limit as int))
            &&& value.member("sweepBatchRows"@) == Some(
                json::number(bounds.sweep_batch_rows as int),
            )
            &&& value.member("minExpirationTtlMs"@) == Some(
                JsonView::Int(
                    match positive(knob_of(knobs, "min-ttl-ms"@)) {
                        Some(ms) => ms,
                        None => bounds.min_expiration_ttl_ms as int,
                    },
                ),
            )
            &&& value.member("blobSweepMs"@) == Some(
                JsonView::Int(
                    match positive(knob_of(knobs, "blob-sweep-ms"@)) {
                        Some(ms) => ms,
                        None => 60000int,
                    },
                ),
            )
            &&& value.member("sweepDisabled"@) == Some(
                JsonView::Bool(knob_of(knobs, "no-sweep"@) is Some),
            )
            &&& value.member("failAfterBlobWrite"@) == Some(
                JsonView::Bool(knob_of(knobs, "fail-after-blob"@) is Some),
            )
            &&& value.member("raceSweepPut"@) == Some(
                JsonView::Bool(knob_of(knobs, "race-sweep-put"@) is Some),
            )
            &&& value.member("legacySchema"@) == Some(
                JsonView::Bool(knob_of(knobs, "legacy-schema"@) is Some),
            )
        }),
{
    reveal_strlit("maxKeyBytes");
    reveal_strlit("maxValueBytes");
    reveal_strlit("maxInlineValueBytes");
    reveal_strlit("maxMetadataBytes");
    reveal_strlit("maxBulkKeys");
    reveal_strlit("maxListLimit");
    reveal_strlit("sweepBatchRows");
    reveal_strlit("minExpirationTtlMs");
    reveal_strlit("blobSweepMs");
    reveal_strlit("sweepDisabled");
    reveal_strlit("failAfterBlobWrite");
    reveal_strlit("raceSweepPut");
    reveal_strlit("legacySchema");
    assert("maxKeyBytes"@.len() == 11 && "maxBulkKeys"@.len() == 11 && "blobSweepMs"@.len() == 11);
    assert("maxKeyBytes"@[3] == 'K' && "maxBulkKeys"@[3] == 'B' && "blobSweepMs"@[3] == 'b');
    assert("maxValueBytes"@.len() == 13 && "sweepDisabled"@.len() == 13);
    assert("maxValueBytes"@[0] == 'm' && "sweepDisabled"@[0] == 's');
    assert("maxInlineValueBytes"@.len() == 19 && "maxMetadataBytes"@.len() == 16);
    assert("maxListLimit"@.len() == 12 && "raceSweepPut"@.len() == 12 && "legacySchema"@.len()
        == 12);
    assert("maxListLimit"@[0] == 'm' && "raceSweepPut"@[0] == 'r' && "legacySchema"@[0] == 'l');
    assert("sweepBatchRows"@.len() == 14);
    assert("minExpirationTtlMs"@.len() == 18 && "failAfterBlobWrite"@.len() == 18);
    assert("minExpirationTtlMs"@[0] == 'm' && "failAfterBlobWrite"@[0] == 'f');
    let members = limits_json(bounds, knobs)->Object_0;
    assert forall|i: int, j: int| 0 <= i < j < members.len() implies (#[trigger] members[i]).0 != (
    #[trigger] members[j]).0 by {}
    json::a_member_is_found(members, 0);
    json::a_member_is_found(members, 1);
    json::a_member_is_found(members, 2);
    json::a_member_is_found(members, 3);
    json::a_member_is_found(members, 4);
    json::a_member_is_found(members, 5);
    json::a_member_is_found(members, 6);
    json::a_member_is_found(members, 7);
    json::a_member_is_found(members, 8);
    json::a_member_is_found(members, 9);
    json::a_member_is_found(members, 10);
    json::a_member_is_found(members, 11);
    json::a_member_is_found(members, 12);
}

/// The positive number that a text writes, where it does and it fits.
pub open spec fn positive(value: Option<Seq<char>>) -> Option<int> {
    match value {
        Some(t) => match text::parse_signed(t) {
            Some(n) if 0 < n <= i64::MAX => Some(n),
            _ => None,
        },
        None => None,
    }
}

/// An entry of a sweep's list stops the sweep exactly where it is no text, does
/// not read as a reference, or is of a later ownership; a reference is in use
/// exactly where the list holds it.
pub proof fn live_lists_are_checked(entries: Seq<LiveEntry>, i: int, reference: Seq<char>)
    requires
        0 <= i < entries.len(),
    ensures
        live_error(entries[i]) is Some <==> entries[i] is NotText || entries[i] is Malformed
            || entries[i] is Later,
        entries[i] matches LiveEntry::Malformed(why) ==> live_error(entries[i]) == Some(
            entries[i]->Malformed_0@,
        ),
        entries[i] matches LiveEntry::Reference(t) ==> is_live(entries, entries[i]->Reference_0@),
        is_live(entries, reference) ==> exists|k: int|
            0 <= k < entries.len() && (#[trigger] entries[k]) is Reference
                && entries[k]->Reference_0@ == reference,
{
    if entries[i] is Reference {
        assert(entries[i] matches LiveEntry::Reference(t) && t@ == entries[i]->Reference_0@);
    }
    if is_live(entries, reference) {
        let k = choose|k: int|
            0 <= k < entries.len() && ((#[trigger] entries[k]) matches LiveEntry::Reference(t) && t@
                == reference);
        assert(entries[k] is Reference);
    }
}

/// A request whose text is no JSON is refused; any other is read as the value
/// that its text is.
pub proof fn requests_are_read_from_their_text(request: Seq<char>, value: Option<Seq<u8>>)
    ensures
        json::parsed_json(request) is Err ==> blob_request_text(request, value) is Err,
        json::parsed_json(request) matches Ok(read) ==> blob_request_text(request, value)
            == blob_request(json::parsed_json(request)->Ok_0, value),
{
}

} // verus!
