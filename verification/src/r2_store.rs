//! R2 objects in the fleet's bucket: their names and metadata, the checks on
//! what is written, and the answers that requests are given.
use vstd::prelude::*;
#[allow(unused_imports)]
use vstd::string::*;

use crate::digests;
#[allow(unused_imports)]
use crate::digests::Algorithm;
#[allow(unused_imports)]
use crate::engine_api;
use crate::json;
#[allow(unused_imports)]
use crate::json::{Json, JsonView};
#[allow(unused_imports)]
use crate::maps;
use crate::maps::TextMap;
use crate::r2_record;
#[allow(unused_imports)]
use crate::text;

verus! {

/// How many objects a listing answers at most.
pub const LIST_LIMIT: usize = 1000;

/// How many objects' metadata a listing reads at once.
pub const LIST_HEADS: usize = 16;

/// How many bytes of a streamed body make one part.
pub const STREAM_PART: usize = 8388608;

/// The metadata that an object's envelope is kept under.
pub const ENVELOPE: &'static str = "celld-r2";

/// Where an object lies in the fleet's bucket.
pub fn blob_key(bucket_name: &str, key: &str) -> (r: String)
    ensures
        r@ == "r2/"@ + bucket_name@ + "/"@ + key@,
{
    let mut r = text::join3("r2/", bucket_name, "/");
    r.append(key);
    r
}

pub open spec fn no_store_words() -> Seq<char> {
    "R2 bindings need a fleet bucket: start celld with --bucket (or CELLD_BUCKET)"@
}

/// The error where no bucket was installed.
pub fn no_store() -> (r: String)
    ensures
        r@ == no_store_words(),
{
    String::from_str("R2 bindings need a fleet bucket: start celld with --bucket (or CELLD_BUCKET)")
}

// ---- names and values ----------------------------------------------------

pub open spec fn pair_views(pairs: Seq<(String, String)>) -> Seq<(Seq<char>, Seq<char>)> {
    pairs.map_values(|p: (String, String)| (p.0@, p.1@))
}

/// The value of the first pair with a name.
pub open spec fn value_of(pairs: Seq<(Seq<char>, Seq<char>)>, name: Seq<char>) -> Option<Seq<char>>
    decreases pairs.len(),
{
    if pairs.len() == 0 {
        None
    } else if pairs[0].0 == name {
        Some(pairs[0].1)
    } else {
        value_of(pairs.skip(1), name)
    }
}

fn find<'a>(pairs: &'a Vec<(String, String)>, name: &str) -> (r: Option<&'a str>)
    ensures
        match r {
            Some(value) => value_of(pair_views(pairs@), name@) == Some(value@),
            None => value_of(pair_views(pairs@), name@) is None,
        },
{
    let mut i: usize = 0;
    let ghost all = pair_views(pairs@);
    assert(all.skip(0) =~= all);
    while i < pairs.len()
        invariant
            i <= pairs@.len(),
            all == pair_views(pairs@),
            value_of(all, name@) == value_of(all.skip(i as int), name@),
        decreases pairs.len() - i,
    {
        assert(all.skip(i as int).skip(1) =~= all.skip(i + 1));
        assert(all.skip(i as int)[0] == all[i as int]);
        if text::same(pairs[i].0.as_str(), name) {
            return Some(pairs[i].1.as_str());
        }
        i = i + 1;
    }
    None
}

fn copy_pairs(pairs: &Vec<(String, String)>) -> (r: Vec<(String, String)>)
    ensures
        pair_views(r@) == pair_views(pairs@),
{
    let mut r: Vec<(String, String)> = Vec::new();
    let mut i: usize = 0;
    while i < pairs.len()
        invariant
            i <= pairs@.len(),
            r@.len() == i,
            forall|k: int|
                0 <= k < i ==> (#[trigger] r@[k]).0@ == pairs@[k].0@ && r@[k].1@ == pairs@[k].1@,
        decreases pairs.len() - i,
    {
        r.push((pairs[i].0.clone(), pairs[i].1.clone()));
        i = i + 1;
    }
    assert(pair_views(r@) =~= pair_views(pairs@));
    r
}

pub open spec fn optional(t: Option<String>) -> Option<Seq<char>> {
    match t {
        Some(t) => Some(t@),
        None => None,
    }
}

fn copy_text(t: &Option<String>) -> (r: Option<String>)
    ensures
        optional(r) == optional(*t),
{
    match t {
        Some(t) => Some(t.clone()),
        None => None,
    }
}

// ---- metadata ------------------------------------------------------------

/// The HTTP metadata of an object.
pub struct HttpMeta {
    pub content_type: Option<String>,
    pub content_language: Option<String>,
    pub content_disposition: Option<String>,
    pub content_encoding: Option<String>,
    pub cache_control: Option<String>,
    pub cache_expiry: Option<i64>,
}

pub struct HttpMetaView {
    pub content_type: Option<Seq<char>>,
    pub content_language: Option<Seq<char>>,
    pub content_disposition: Option<Seq<char>>,
    pub content_encoding: Option<Seq<char>>,
    pub cache_control: Option<Seq<char>>,
    pub cache_expiry: Option<i64>,
}

impl View for HttpMeta {
    type V = HttpMetaView;

    open spec fn view(&self) -> HttpMetaView {
        HttpMetaView {
            content_type: optional(self.content_type),
            content_language: optional(self.content_language),
            content_disposition: optional(self.content_disposition),
            content_encoding: optional(self.content_encoding),
            cache_control: optional(self.cache_control),
            cache_expiry: self.cache_expiry,
        }
    }
}

/// What an object's envelope holds; its names are in the order of text.
pub struct Envelope {
    pub custom: Vec<(String, String)>,
    pub http: HttpMeta,
    pub checksums: Vec<(String, String)>,
    pub storage_class: Option<String>,
}

pub struct EnvelopeView {
    pub custom: Seq<(Seq<char>, Seq<char>)>,
    pub http: HttpMetaView,
    pub checksums: Seq<(Seq<char>, Seq<char>)>,
    pub storage_class: Option<Seq<char>>,
}

impl View for Envelope {
    type V = EnvelopeView;

    open spec fn view(&self) -> EnvelopeView {
        EnvelopeView {
            custom: pair_views(self.custom@),
            http: self.http@,
            checksums: pair_views(self.checksums@),
            storage_class: optional(self.storage_class),
        }
    }
}

/// The attributes that the bucket keeps with an object.
pub struct BlobAttributes {
    pub content_type: Option<String>,
    pub content_language: Option<String>,
    pub content_disposition: Option<String>,
    pub content_encoding: Option<String>,
    pub cache_control: Option<String>,
    pub metadata: Vec<(String, String)>,
}

pub struct AttributesView {
    pub content_type: Option<Seq<char>>,
    pub content_language: Option<Seq<char>>,
    pub content_disposition: Option<Seq<char>>,
    pub content_encoding: Option<Seq<char>>,
    pub cache_control: Option<Seq<char>>,
    pub metadata: Seq<(Seq<char>, Seq<char>)>,
}

impl View for BlobAttributes {
    type V = AttributesView;

    open spec fn view(&self) -> AttributesView {
        AttributesView {
            content_type: optional(self.content_type),
            content_language: optional(self.content_language),
            content_disposition: optional(self.content_disposition),
            content_encoding: optional(self.content_encoding),
            cache_control: optional(self.cache_control),
            metadata: pair_views(self.metadata@),
        }
    }
}

/// Whether a list holds each name of another once, in the order of text, with
/// the value it was given last.
pub open spec fn collects(
    listed: Seq<(Seq<char>, Seq<char>)>,
    given: Seq<(Seq<char>, Seq<char>)>,
) -> bool {
    &&& forall|i: int, j: int|
        0 <= i < j < listed.len() ==> text::text_less(
            (#[trigger] listed[i]).0,
            (#[trigger] listed[j]).0,
        )
    &&& forall|i: int|
        0 <= i < listed.len() ==> last_value(given, (#[trigger] listed[i]).0) == Some(listed[i].1)
    &&& forall|i: int|
        #![trigger given[i]]
        0 <= i < given.len() ==> lists_name(listed, given[i].0)
}

pub open spec fn lists_name(listed: Seq<(Seq<char>, Seq<char>)>, name: Seq<char>) -> bool {
    exists|j: int| 0 <= j < listed.len() && (#[trigger] listed[j]).0 == name
}

/// The value that a name was given last.
pub open spec fn last_value(given: Seq<(Seq<char>, Seq<char>)>, name: Seq<char>) -> Option<
    Seq<char>,
>
    decreases given.len(),
{
    if given.len() == 0 {
        None
    } else if given.last().0 == name {
        Some(given.last().1)
    } else {
        last_value(given.drop_last(), name)
    }
}

fn collect(given: &Vec<(String, String)>) -> (r: Vec<(String, String)>)
    ensures
        collects(pair_views(r@), pair_views(given@)),
{
    let ghost all = pair_views(given@);
    let mut map: TextMap<String> = TextMap::new();
    let mut i: usize = 0;
    assert(all.take(0) =~= Seq::<(Seq<char>, Seq<char>)>::empty());
    while i < given.len()
        invariant
            i <= given@.len(),
            all == pair_views(given@),
            forall|name: Seq<char>| #[trigger]
                map@.contains_key(name) <==> last_value(all.take(i as int), name) is Some,
            forall|name: Seq<char>| #[trigger]
                map@.contains_key(name) ==> last_value(all.take(i as int), name) == Some(
                    map@[name]@,
                ),
        decreases given.len() - i,
    {
        proof {
            assert(all.take(i + 1).drop_last() =~= all.take(i as int));
            assert(all.take(i + 1).last() == (given@[i as int].0@, given@[i as int].1@));
        }
        map.insert(given[i].0.clone(), given[i].1.clone());
        i = i + 1;
    }
    assert(all.take(i as int) =~= all);
    let keys = map.keys();
    let mut r: Vec<(String, String)> = Vec::new();
    let mut k: usize = 0;
    while k < keys.len()
        invariant
            k <= keys@.len(),
            r@.len() == k,
            maps::views(keys@).to_set() == map@.dom(),
            forall|a: int|
                0 <= a < k ==> (#[trigger] r@[a]).0@ == keys@[a]@ && map@.contains_key(keys@[a]@)
                    && r@[a].1@ == map@[keys@[a]@]@,
        decreases keys.len() - k,
    {
        proof {
            assert(maps::views(keys@)[k as int] == keys@[k as int]@);
            assert(maps::views(keys@).to_set().contains(keys@[k as int]@));
        }
        let value = map.at(keys[k].as_str()).clone();
        r.push((keys[k].clone(), value));
        k = k + 1;
    }
    proof {
        let listed = pair_views(r@);
        assert forall|i: int, j: int| 0 <= i < j < listed.len() implies text::text_less(
            (#[trigger] listed[i]).0,
            (#[trigger] listed[j]).0,
        ) by {
            assert(text::text_less(keys@[i]@, keys@[j]@));
        }
        assert forall|i: int| 0 <= i < listed.len() implies last_value(
            all,
            (#[trigger] listed[i]).0,
        ) == Some(listed[i].1) by {
            assert(r@[i].0@ == keys@[i]@);
        }
        assert forall|i: int|
            #![trigger all[i]]
            0 <= i < all.len() implies lists_name(listed, all[i].0) by {
            lemma_last_value(all, i);
            let name = all[i].0;
            assert(map@.contains_key(name));
            assert(maps::views(keys@).to_set().contains(name));
            let j = choose|j: int|
                0 <= j < maps::views(keys@).len() && maps::views(keys@)[j] == name;
            assert(keys@[j]@ == name);
            assert(listed[j].0 == name);
        }
    }
    r
}

proof fn lemma_last_value(given: Seq<(Seq<char>, Seq<char>)>, i: int)
    requires
        0 <= i < given.len(),
    ensures
        last_value(given, given[i].0) is Some,
    decreases given.len(),
{
    if given.last().0 != given[i].0 {
        assert(given.drop_last()[i] == given[i]);
        lemma_last_value(given.drop_last(), i);
    }
}

/// Whether an envelope is what an object's attributes say. `stored` is what
/// the envelope's own metadata reads as; where there is none, every metadata
/// is the user's. What HTTP knows of is kept by the bucket itself.
pub open spec fn reads(
    envelope: EnvelopeView,
    attributes: AttributesView,
    stored: Option<EnvelopeView>,
) -> bool {
    &&& envelope.http.content_type == attributes.content_type
    &&& envelope.http.content_language == attributes.content_language
    &&& envelope.http.content_disposition == attributes.content_disposition
    &&& envelope.http.content_encoding == attributes.content_encoding
    &&& envelope.http.cache_control == attributes.cache_control
    &&& match stored {
        Some(stored) => {
            &&& envelope.custom == stored.custom
            &&& envelope.checksums == stored.checksums
            &&& envelope.storage_class == stored.storage_class
            &&& envelope.http.cache_expiry == stored.http.cache_expiry
        },
        None => {
            &&& collects(envelope.custom, attributes.metadata)
            &&& envelope.checksums.len() == 0
            &&& envelope.storage_class is None
            &&& envelope.http.cache_expiry is None
        },
    }
}

impl Envelope {
    /// The text under which an object's attributes keep its record.
    pub fn stored(attributes: &BlobAttributes) -> (r: Option<&str>)
        ensures
            match r {
                Some(value) => attributes@.record() == Some(value@),
                None => attributes@.record() is None,
            },
    {
        find(&attributes.metadata, ENVELOPE)
    }

    /// What an object's attributes say. `stored` is what the text of the
    /// record reads as, where there is one and it does.
    pub fn read(attributes: &BlobAttributes, stored: Option<Envelope>) -> (r: Self)
        ensures
            reads(
                r@,
                attributes@,
                match stored {
                    Some(stored) => Some(stored@),
                    None => None,
                },
            ),
    {
        let (custom, checksums, storage_class, cache_expiry) = match stored {
            Some(stored) => (
                stored.custom,
                stored.checksums,
                stored.storage_class,
                stored.http.cache_expiry,
            ),
            None => (collect(&attributes.metadata), Vec::new(), None, None),
        };
        Envelope {
            custom,
            http: HttpMeta {
                content_type: copy_text(&attributes.content_type),
                content_language: copy_text(&attributes.content_language),
                content_disposition: copy_text(&attributes.content_disposition),
                content_encoding: copy_text(&attributes.content_encoding),
                cache_control: copy_text(&attributes.cache_control),
                cache_expiry,
            },
            checksums,
            storage_class,
        }
    }

    /// The attributes that an object is kept with.
    pub fn write(&self) -> (r: BlobAttributes)
        ensures
            self@.kept_in(r@),
    {
        let text = r2_record::text_of(self);
        let ghost written = text@;
        let mut metadata: Vec<(String, String)> = Vec::new();
        metadata.push((String::from_str(ENVELOPE), text));
        assert(pair_views(metadata@) =~= seq![(ENVELOPE@, written)]);
        BlobAttributes {
            content_type: copy_text(&self.http.content_type),
            content_language: copy_text(&self.http.content_language),
            content_disposition: copy_text(&self.http.content_disposition),
            content_encoding: copy_text(&self.http.content_encoding),
            cache_control: copy_text(&self.http.cache_control),
            metadata,
        }
    }
}

impl AttributesView {
    /// The text of the record, if there is one.
    pub open spec fn record(self) -> Option<Seq<char>> {
        value_of(self.metadata, ENVELOPE@)
    }
}

/// Whether names are in the order of text, each once.
pub open spec fn ordered(pairs: Seq<(Seq<char>, Seq<char>)>) -> bool {
    forall|i: int, j: int|
        0 <= i < j < pairs.len() ==> text::text_less(
            (#[trigger] pairs[i]).0,
            (#[trigger] pairs[j]).0,
        )
}

impl EnvelopeView {
    /// The user's metadata and the checksums hold each name once, in the order
    /// of text.
    pub open spec fn wf(self) -> bool {
        ordered(self.custom) && ordered(self.checksums)
    }

    /// Whether these are the attributes that an object is kept with: its
    /// record in ASCII under one name, and what HTTP knows of beside it.
    pub open spec fn kept_in(self, attributes: AttributesView) -> bool {
        &&& attributes.content_type == self.http.content_type
        &&& attributes.content_language == self.http.content_language
        &&& attributes.content_disposition == self.http.content_disposition
        &&& attributes.content_encoding == self.http.content_encoding
        &&& attributes.cache_control == self.http.cache_control
        &&& attributes.metadata == seq![(ENVELOPE@, json::ascii(self.text()))]
    }
}

/// What a read gives back is what was written: the record's text is all that
/// is to be read, it is ASCII, and where it reads as the record that it was
/// written from, no part of the envelope is lost or changed.
pub proof fn envelope_reads_back(
    envelope: EnvelopeView,
    attributes: AttributesView,
    stored: Option<EnvelopeView>,
    read: EnvelopeView,
)
    requires
        envelope.kept_in(attributes),
        stored == Some(envelope),
        reads(read, attributes, stored),
    ensures
        attributes.record() == Some(json::ascii(envelope.text())),
        forall|i: int|
            0 <= i < json::ascii(envelope.text()).len() ==> ((#[trigger] json::ascii(
                envelope.text(),
            )[i]) as nat) < 128,
        read == envelope,
{
    reveal_with_fuel(value_of, 2);
    assert(attributes.metadata[0].0 == ENVELOPE@);
    json::ascii_is_ascii(envelope.text());
}

/// What is read has its names in order, where the record has.
pub proof fn read_envelope_is_ordered(
    envelope: EnvelopeView,
    attributes: AttributesView,
    stored: Option<EnvelopeView>,
)
    requires
        reads(envelope, attributes, stored),
        stored matches Some(record) ==> record.wf(),
    ensures
        envelope.wf(),
{
}

// ---- objects -------------------------------------------------------------

/// What the bucket knows of an object.
pub struct BlobMeta {
    pub size: u64,
    pub etag: Option<String>,
    pub version: Option<String>,
    pub uploaded_ms: i64,
}

pub open spec fn text_or_null(t: Option<Seq<char>>) -> JsonView {
    match t {
        Some(t) => JsonView::Text(t),
        None => JsonView::Null,
    }
}

pub open spec fn present(name: Seq<char>, t: Option<Seq<char>>) -> Seq<(Seq<char>, JsonView)> {
    match t {
        Some(t) => seq![(name, JsonView::Text(t))],
        None => seq![],
    }
}

/// The HTTP metadata as it is answered: what there is of it.
pub open spec fn http_json(http: HttpMetaView) -> JsonView {
    JsonView::Object(
        present("contentType"@, http.content_type) + present(
            "contentLanguage"@,
            http.content_language,
        ) + present("contentDisposition"@, http.content_disposition) + present(
            "contentEncoding"@,
            http.content_encoding,
        ) + present("cacheControl"@, http.cache_control) + (match http.cache_expiry {
            Some(at) => seq![("cacheExpiry"@, JsonView::Int(at as int))],
            None => seq![],
        }),
    )
}

pub open spec fn pairs_json(pairs: Seq<(Seq<char>, Seq<char>)>) -> JsonView {
    JsonView::Object(pairs.map_values(|p: (Seq<char>, Seq<char>)| (p.0, JsonView::Text(p.1))))
}

/// An object as it is answered.
pub open spec fn object_view(
    key: Seq<char>,
    meta: BlobMeta,
    envelope: EnvelopeView,
    range: Option<(u64, u64)>,
) -> JsonView {
    JsonView::Object(
        seq![
            ("key"@, JsonView::Text(key)),
            ("size"@, json::number(meta.size as int)),
            (
                "version"@,
                text_or_null(
                    match meta.version {
                        Some(version) => Some(version@),
                        None => optional(meta.etag),
                    },
                ),
            ),
            ("etag"@, text_or_null(optional(meta.etag))),
            ("uploaded"@, JsonView::Int(meta.uploaded_ms as int)),
            ("http"@, http_json(envelope.http)),
            ("custom"@, pairs_json(envelope.custom)),
            ("checksums"@, pairs_json(envelope.checksums)),
            (
                "storageClass"@,
                JsonView::Text(
                    match envelope.storage_class {
                        Some(class) => class,
                        None => "Standard"@,
                    },
                ),
            ),
        ] + (match range {
            Some((offset, length)) => seq![
                (
                    "range"@,
                    JsonView::Object(
                        seq![
                            ("offset"@, json::number(offset as int)),
                            ("length"@, json::number(length as int)),
                        ],
                    ),
                ),
            ],
            None => seq![],
        }),
    )
}

fn write_text(t: &Option<String>) -> (r: Json)
    ensures
        r@ == text_or_null(optional(*t)),
{
    match t {
        Some(t) => json::string(t.as_str()),
        None => Json::Null,
    }
}

fn put_present(members: &mut json::Members, name: &str, t: &Option<String>)
    ensures
        final(members)@ == old(members)@ + present(name@, optional(*t)),
{
    match t {
        Some(t) => {
            members.put(name, json::string(t.as_str()));
            assert(members@ =~= old(members)@ + present(name@, Some(t@)));
        },
        None => {
            assert(members@ =~= old(members)@ + present(name@, None));
        },
    }
}

fn write_http(http: &HttpMeta) -> (r: Json)
    ensures
        r@ == http_json(http@),
{
    let mut members = json::Members::new();
    put_present(&mut members, "contentType", &http.content_type);
    put_present(&mut members, "contentLanguage", &http.content_language);
    put_present(&mut members, "contentDisposition", &http.content_disposition);
    put_present(&mut members, "contentEncoding", &http.content_encoding);
    put_present(&mut members, "cacheControl", &http.cache_control);
    if let Some(at) = http.cache_expiry {
        members.put("cacheExpiry", Json::Int(at));
    }
    assert(members@ =~= http_json(http@)->Object_0);
    members.object()
}

fn write_pairs(pairs: &Vec<(String, String)>) -> (r: Json)
    ensures
        r@ == pairs_json(pair_views(pairs@)),
{
    let mut members = json::Members::new();
    let mut i: usize = 0;
    while i < pairs.len()
        invariant
            i <= pairs@.len(),
            members@.len() == i,
            forall|k: int|
                0 <= k < i ==> #[trigger] members@[k] == (
                    pairs@[k].0@,
                    JsonView::Text(pairs@[k].1@),
                ),
        decreases pairs.len() - i,
    {
        members.put(pairs[i].0.as_str(), json::string(pairs[i].1.as_str()));
        i = i + 1;
    }
    assert(members@ =~= pairs_json(pair_views(pairs@))->Object_0);
    members.object()
}

/// An object as it is answered. `envelope` is what its attributes say.
pub fn object_json(key: &str, meta: &BlobMeta, envelope: &Envelope, range: Option<(u64, u64)>) -> (r:
    Json)
    ensures
        r@ == object_view(key@, *meta, envelope@, range),
{
    let mut members = json::Members::new();
    members.put("key", json::string(key));
    members.put("size", json::unsigned(meta.size));
    members.put(
        "version",
        match &meta.version {
            Some(version) => json::string(version.as_str()),
            None => write_text(&meta.etag),
        },
    );
    members.put("etag", write_text(&meta.etag));
    members.put("uploaded", Json::Int(meta.uploaded_ms));
    members.put("http", write_http(&envelope.http));
    members.put("custom", write_pairs(&envelope.custom));
    members.put("checksums", write_pairs(&envelope.checksums));
    members.put(
        "storageClass",
        match &envelope.storage_class {
            Some(class) => json::string(class.as_str()),
            None => json::string("Standard"),
        },
    );
    if let Some((offset, length)) = range {
        let mut bounds = json::Members::new();
        bounds.put("offset", json::unsigned(offset));
        bounds.put("length", json::unsigned(length));
        assert(bounds@ =~= seq![
            ("offset"@, json::number(offset as int)),
            ("length"@, json::number(length as int)),
        ]);
        members.put("range", bounds.object());
    }
    assert(members@ =~= object_view(key@, *meta, envelope@, range)->Object_0);
    members.object()
}

// ---- conditions and ranges -----------------------------------------------

/// What a request asks of an object before it is read or written.
pub struct Conditional {
    pub etag_matches: Option<String>,
    pub etag_does_not_match: Option<String>,
    pub uploaded_before: Option<i64>,
    pub uploaded_after: Option<i64>,
}

/// What the bucket is asked.
pub struct BlobConditions {
    pub if_match: Option<String>,
    pub if_none_match: Option<String>,
    pub uploaded_before_ms: Option<i64>,
    pub uploaded_after_ms: Option<i64>,
}

/// What the bucket is asked; where a request asks nothing, it is nothing.
pub fn blob_conditions(conditional: Option<Conditional>) -> (r: BlobConditions)
    ensures
        match conditional {
            Some(conditional) => r == (BlobConditions {
                if_match: conditional.etag_matches,
                if_none_match: conditional.etag_does_not_match,
                uploaded_before_ms: conditional.uploaded_before,
                uploaded_after_ms: conditional.uploaded_after,
            }),
            None => r == (BlobConditions {
                if_match: None,
                if_none_match: None,
                uploaded_before_ms: None,
                uploaded_after_ms: None,
            }),
        },
{
    match conditional {
        Some(conditional) => BlobConditions {
            if_match: conditional.etag_matches,
            if_none_match: conditional.etag_does_not_match,
            uploaded_before_ms: conditional.uploaded_before,
            uploaded_after_ms: conditional.uploaded_after,
        },
        None => BlobConditions {
            if_match: None,
            if_none_match: None,
            uploaded_before_ms: None,
            uploaded_after_ms: None,
        },
    }
}

/// The part of an object that a request asks for.
#[derive(Clone, Copy, Debug, PartialEq, Eq)]
pub struct Range {
    pub offset: Option<u64>,
    pub length: Option<u64>,
    pub suffix: Option<u64>,
}

/// The part of an object that the bucket is asked for.
#[derive(Clone, Copy, Debug, PartialEq, Eq, Structural)]
pub enum BlobRange {
    Whole,
    From(u64),
    Bounded { offset: u64, length: u64 },
    Suffix(u64),
}

/// The part of an object that the bucket is asked for.
pub open spec fn asked_part(range: Option<Range>) -> BlobRange {
    match range {
        None => BlobRange::Whole,
        Some(range) => match (range.suffix, range.offset, range.length) {
            (Some(suffix), _, _) => BlobRange::Suffix(suffix),
            (None, Some(offset), Some(length)) => BlobRange::Bounded { offset, length },
            (None, None, Some(length)) => BlobRange::Bounded { offset: 0, length },
            (None, Some(offset), None) => BlobRange::From(offset),
            (None, None, None) => BlobRange::Whole,
        },
    }
}

/// The smaller of two numbers.
pub open spec fn smaller(a: int, b: int) -> int {
    if a < b {
        a
    } else {
        b
    }
}

/// What a bucket gives of an object for a part.
pub open spec fn given_part(bytes: Seq<u8>, part: BlobRange) -> Seq<u8> {
    let end = bytes.len() as int;
    match part {
        BlobRange::Whole => bytes,
        BlobRange::From(offset) => bytes.skip(smaller(offset as int, end)),
        BlobRange::Bounded { offset, length } => bytes.subrange(
            smaller(offset as int, end),
            smaller(offset + length, end),
        ),
        BlobRange::Suffix(count) => bytes.skip(end - smaller(count as int, end)),
    }
}

/// A request is given the part of an object that it asks for: its last bytes,
/// where it says how many; else what begins at the offset it names, or at the
/// start, and is no longer than it says; and the whole where it says nothing.
pub proof fn requests_are_given_their_part(bytes: Seq<u8>, range: Option<Range>)
    ensures
        ({
            let given = given_part(bytes, asked_part(range));
            match range {
                None => given == bytes,
                Some(asked) => if asked.suffix is Some {
                    &&& given.len() == smaller(asked.suffix->Some_0 as int, bytes.len() as int)
                    &&& given == bytes.skip(bytes.len() - given.len())
                } else {
                    let from = match asked.offset {
                        Some(offset) => smaller(offset as int, bytes.len() as int),
                        None => 0,
                    };
                    &&& given.len() == (match asked.length {
                        Some(length) => smaller(length as int, bytes.len() - from),
                        None => bytes.len() - from,
                    })
                    &&& given == bytes.subrange(from, from + given.len())
                },
            }
        }),
{
    let given = given_part(bytes, asked_part(range));
    if let Some(asked) = range {
        if asked.suffix is None {
            let from = match asked.offset {
                Some(offset) => smaller(offset as int, bytes.len() as int),
                None => 0,
            };
            assert(given =~= bytes.subrange(from, from + given.len()));
        }
    }
}

/// The part of an object that the bucket is asked for: the last bytes, where a
/// request says how many; else from the offset on, as many as it says.
pub fn blob_range(range: Option<Range>) -> (r: BlobRange)
    ensures
        r == asked_part(range),
        r == (match range {
            None => BlobRange::Whole,
            Some(range) => match (range.suffix, range.offset, range.length) {
                (Some(suffix), _, _) => BlobRange::Suffix(suffix),
                (None, Some(offset), Some(length)) => BlobRange::Bounded { offset, length },
                (None, None, Some(length)) => BlobRange::Bounded { offset: 0, length },
                (None, Some(offset), None) => BlobRange::From(offset),
                (None, None, None) => BlobRange::Whole,
            },
        }),
{
    match range {
        None => BlobRange::Whole,
        Some(range) => match (range.suffix, range.offset, range.length) {
            (Some(suffix), _, _) => BlobRange::Suffix(suffix),
            (None, Some(offset), Some(length)) => BlobRange::Bounded { offset, length },
            (None, None, Some(length)) => BlobRange::Bounded { offset: 0, length },
            (None, Some(offset), None) => BlobRange::From(offset),
            (None, None, None) => BlobRange::Whole,
        },
    }
}

// ---- checksums -----------------------------------------------------------

/// The name of a checksum.
pub open spec fn checksum_name(algorithm: Algorithm) -> Seq<char> {
    match algorithm {
        Algorithm::Md5 => "md5"@,
        Algorithm::Sha1 => "sha1"@,
        Algorithm::Sha256 => "sha256"@,
        Algorithm::Sha384 => "sha384"@,
        Algorithm::Sha512 => "sha512"@,
    }
}

/// The checksums that are being taken of a body.
pub struct Digests {
    md5: Option<digests::RunningDigest>,
    sha1: Option<digests::RunningDigest>,
    sha256: Option<digests::RunningDigest>,
    sha384: Option<digests::RunningDigest>,
    sha512: Option<digests::RunningDigest>,
}

spec fn one_takes(slot: Option<digests::RunningDigest>, algorithm: Algorithm, bytes: Seq<u8>) -> bool {
    match slot {
        Some(digest) => digests::running(digest) == (algorithm, bytes),
        None => true,
    }
}

/// A checksum of a body by its name, where it is taken.
pub open spec fn checksum(taken: Set<Algorithm>, a: Algorithm, bytes: Seq<u8>) -> Seq<
    (Seq<char>, Seq<char>),
> {
    if taken.contains(a) {
        seq![(checksum_name(a), text::hex_of(digests::digest_of(a, bytes)))]
    } else {
        seq![]
    }
}

/// The checksums of a body by their names, in the order of the names.
pub open spec fn checksums(taken: Set<Algorithm>, bytes: Seq<u8>) -> Seq<(Seq<char>, Seq<char>)> {
    checksum(taken, Algorithm::Md5, bytes) + checksum(taken, Algorithm::Sha1, bytes) + checksum(
        taken,
        Algorithm::Sha256,
        bytes,
    ) + checksum(taken, Algorithm::Sha384, bytes) + checksum(taken, Algorithm::Sha512, bytes)
}

/// The checksums that are taken of a body: those that the caller asserts, and
/// MD5 where it is wanted anyway.
pub open spec fn wanted_checksums(asserted: Seq<(Seq<char>, Seq<char>)>, md5: bool) -> Set<
    Algorithm,
> {
    Set::new(
        |a: Algorithm|
            (md5 && a == Algorithm::Md5) || value_of(asserted, checksum_name(a)) is Some,
    )
}

impl Digests {
    /// Whether these are the checksums of a body so far.
    pub closed spec fn takes(&self, bytes: Seq<u8>) -> bool {
        &&& one_takes(self.md5, Algorithm::Md5, bytes)
        &&& one_takes(self.sha1, Algorithm::Sha1, bytes)
        &&& one_takes(self.sha256, Algorithm::Sha256, bytes)
        &&& one_takes(self.sha384, Algorithm::Sha384, bytes)
        &&& one_takes(self.sha512, Algorithm::Sha512, bytes)
    }

    /// Which checksums are taken.
    pub closed spec fn taken(&self) -> Set<Algorithm> {
        Set::new(
            |a: Algorithm|
                match a {
                    Algorithm::Md5 => self.md5 is Some,
                    Algorithm::Sha1 => self.sha1 is Some,
                    Algorithm::Sha256 => self.sha256 is Some,
                    Algorithm::Sha384 => self.sha384 is Some,
                    Algorithm::Sha512 => self.sha512 is Some,
                },
        )
    }

    /// Starts the checksums that a caller asserts.
    pub fn wanted(asserted: &Vec<(String, String)>, md5: bool) -> (r: Self)
        ensures
            r.takes(Seq::empty()),
            r.taken() == wanted_checksums(pair_views(asserted@), md5),
    {
        let r = Digests {
            md5: start_if(Algorithm::Md5, md5 || find(asserted, "md5").is_some()),
            sha1: start_if(Algorithm::Sha1, find(asserted, "sha1").is_some()),
            sha256: start_if(Algorithm::Sha256, find(asserted, "sha256").is_some()),
            sha384: start_if(Algorithm::Sha384, find(asserted, "sha384").is_some()),
            sha512: start_if(Algorithm::Sha512, find(asserted, "sha512").is_some()),
        };
        assert(r.taken() =~= wanted_checksums(pair_views(asserted@), md5));
        r
    }

    /// Takes in more of the body.
    pub fn update(&mut self, bytes: &[u8])
        ensures
            final(self).taken() == old(self).taken(),
            forall|before: Seq<u8>| #[trigger]
                old(self).takes(before) ==> final(self).takes(before + bytes@),
    {
        if let Some(digest) = &mut self.md5 {
            digests::feed(digest, bytes);
        }
        if let Some(digest) = &mut self.sha1 {
            digests::feed(digest, bytes);
        }
        if let Some(digest) = &mut self.sha256 {
            digests::feed(digest, bytes);
        }
        if let Some(digest) = &mut self.sha384 {
            digests::feed(digest, bytes);
        }
        if let Some(digest) = &mut self.sha512 {
            digests::feed(digest, bytes);
        }
        assert(self.taken() =~= old(self).taken());
    }

    /// Leaves MD5 out.
    pub fn drop_md5(&mut self)
        ensures
            final(self).taken() == old(self).taken().remove(Algorithm::Md5),
            forall|bytes: Seq<u8>| #[trigger] old(self).takes(bytes) ==> final(self).takes(bytes),
    {
        self.md5 = None;
        assert(self.taken() =~= old(self).taken().remove(Algorithm::Md5));
    }

    /// The checksums of the body, by name.
    pub fn finish(self) -> (r: Vec<(String, String)>)
        ensures
            forall|bytes: Seq<u8>| #[trigger]
                self.takes(bytes) ==> pair_views(r@) == checksums(self.taken(), bytes),
    {
        let ghost taken = self.taken();
        let ghost given = self;
        let mut out: Vec<(String, String)> = Vec::new();
        finish_one(&mut out, "md5", self.md5);
        finish_one(&mut out, "sha1", self.sha1);
        finish_one(&mut out, "sha256", self.sha256);
        finish_one(&mut out, "sha384", self.sha384);
        finish_one(&mut out, "sha512", self.sha512);
        proof {
            assert forall|bytes: Seq<u8>| #[trigger] given.takes(bytes) implies pair_views(out@)
                == checksums(taken, bytes) by {
                assert(pair_views(out@) =~= checksums(taken, bytes));
            }
        }
        out
    }
}

fn start_if(algorithm: Algorithm, wanted: bool) -> (r: Option<digests::RunningDigest>)
    ensures
        r is Some <==> wanted,
        one_takes(r, algorithm, Seq::empty()),
{
    if wanted {
        Some(digests::start(algorithm))
    } else {
        None
    }
}

spec fn finished_one(name: Seq<char>, slot: Option<digests::RunningDigest>) -> Seq<
    (Seq<char>, Seq<char>),
> {
    match slot {
        Some(digest) => seq![
            (
                name,
                text::hex_of(
                    digests::digest_of(digests::running(digest).0, digests::running(digest).1),
                ),
            ),
        ],
        None => seq![],
    }
}

fn finish_one(out: &mut Vec<(String, String)>, name: &str, slot: Option<digests::RunningDigest>)
    ensures
        pair_views(final(out)@) == pair_views(old(out)@) + finished_one(name@, slot),
{
    let ghost before = out@;
    match slot {
        Some(digest) => {
            let ghost given = digest;
            let bytes = digests::finish(digest);
            out.push((String::from_str(name), text::hex_text(bytes.as_slice())));
            assert(pair_views(out@) =~= pair_views(before) + finished_one(name@, slot));
        },
        None => {
            assert(pair_views(out@) =~= pair_views(before) + finished_one(name@, slot));
        },
    }
}

/// What is wrong with one asserted checksum.
pub open spec fn checksum_error(
    name: Seq<char>,
    claimed: Seq<char>,
    computed: Seq<(Seq<char>, Seq<char>)>,
) -> Option<Seq<char>> {
    let claimed = text::lower(text::trimmed(claimed));
    match value_of(computed, name) {
        None => Some("R2 put: celld cannot check a "@ + name + " checksum"@),
        Some(actual) => if actual == claimed {
            None
        } else {
            Some(
                "R2 put: the "@ + name + " checksum of the body is "@ + actual + ", not the "@
                    + claimed + " the caller asserted"@,
            )
        },
    }
}

/// Whether a body's checksums are the ones that the caller asserts, or the
/// first that is not.
pub fn verify(asserted: &Vec<(String, String)>, computed: &Vec<(String, String)>) -> (r: Result<
    (),
    String,
>)
    ensures
        verifies(pair_views(asserted@), pair_views(computed@), r),
{
    let ghost all = pair_views(asserted@);
    let ghost known = pair_views(computed@);
    let mut i: usize = 0;
    while i < asserted.len()
        invariant
            i <= asserted@.len(),
            all == pair_views(asserted@),
            known == pair_views(computed@),
            forall|k: int|
                0 <= k < i ==> checksum_error((#[trigger] all[k]).0, all[k].1, known) is None,
        decreases asserted.len() - i,
    {
        assert(all[i as int] == (asserted@[i as int].0@, asserted@[i as int].1@));
        let name = asserted[i].0.as_str();
        let bare = text::trim(asserted[i].1.as_str());
        let claimed = text::to_ascii_lowercase(bare.as_str());
        match find(computed, name) {
            None => {
                return Err(text::join3("R2 put: celld cannot check a ", name, " checksum"));
            },
            Some(actual) => {
                if !text::same(actual, claimed.as_str()) {
                    let mut error = text::join3(
                        "R2 put: the ",
                        name,
                        " checksum of the body is ",
                    );
                    error.append(actual);
                    error.append(", not the ");
                    error.append(claimed.as_str());
                    error.append(" the caller asserted");
                    return Err(error);
                }
            },
        }
        i = i + 1;
    }
    Ok(())
}

/// Whether checking a body's checksums comes to a result.
pub open spec fn verifies(
    asserted: Seq<(Seq<char>, Seq<char>)>,
    computed: Seq<(Seq<char>, Seq<char>)>,
    r: Result<(), String>,
) -> bool {
    match r {
        Ok(_) => forall|i: int|
            0 <= i < asserted.len() ==> checksum_error(
                (#[trigger] asserted[i]).0,
                asserted[i].1,
                computed,
            ) is None,
        Err(error) => exists|i: int|
            {
                &&& 0 <= i < asserted.len()
                &&& checksum_error((#[trigger] asserted[i]).0, asserted[i].1, computed) == Some(
                    error@,
                )
                &&& forall|k: int|
                    0 <= k < i ==> checksum_error(
                        (#[trigger] asserted[k]).0,
                        asserted[k].1,
                        computed,
                    ) is None
            },
    }
}

// ---- one write -----------------------------------------------------------

/// What a write asks for; its names are in the order of text.
pub struct PutRequest {
    pub http: HttpMeta,
    pub custom: Vec<(String, String)>,
    pub storage_class: Option<String>,
    pub only_if: Option<Conditional>,
    pub verify: Vec<(String, String)>,
}

/// What a write is kept with: what it asks for, and checksums.
pub open spec fn envelope_of(
    request: PutRequest,
    checksums: Seq<(Seq<char>, Seq<char>)>,
) -> EnvelopeView {
    EnvelopeView {
        custom: pair_views(request.custom@),
        http: request.http@,
        checksums,
        storage_class: optional(request.storage_class),
    }
}

impl PutRequest {
    /// The names are in the order of text, each once.
    pub open spec fn wf(self) -> bool {
        ordered(pair_views(self.custom@)) && ordered(pair_views(self.verify@))
    }
}

proof fn lemma_extends(
    pairs: Seq<(Seq<char>, Seq<char>)>,
    more: Seq<(Seq<char>, Seq<char>)>,
    name: Seq<char>,
    next: Seq<char>,
)
    requires
        ordered(pairs),
        forall|i: int| 0 <= i < pairs.len() ==> text::text_less((#[trigger] pairs[i]).0, name),
        more.len() <= 1,
        more.len() == 1 ==> more[0].0 == name,
        text::text_less(name, next),
    ensures
        ordered(pairs + more),
        forall|i: int|
            0 <= i < (pairs + more).len() ==> text::text_less(
                (#[trigger] (pairs + more)[i]).0,
                next,
            ),
{
    let all = pairs + more;
    assert forall|i: int| 0 <= i < all.len() implies text::text_less(
        (#[trigger] all[i]).0,
        next,
    ) by {
        if i < pairs.len() {
            assert(all[i] == pairs[i]);
            text::text_less_transitive(pairs[i].0, name, next);
        }
    }
    assert forall|i: int, j: int| 0 <= i < j < all.len() implies text::text_less(
        (#[trigger] all[i]).0,
        (#[trigger] all[j]).0,
    ) by {
        assert(all[i] == pairs[i]);
        if j < pairs.len() {
            assert(all[j] == pairs[j]);
        }
    }
}

proof fn lemma_less_at(a: Seq<char>, b: Seq<char>, k: int)
    requires
        0 <= k < a.len(),
        k < b.len(),
        forall|i: int| 0 <= i < k ==> a[i] == b[i],
        a[k] < b[k],
    ensures
        text::text_less(a, b),
    decreases k,
{
    if k > 0 {
        assert(a[0] == b[0]);
        assert forall|i: int| 0 <= i < k - 1 implies a.skip(1)[i] == b.skip(1)[i] by {
            assert(a[i + 1] == b[i + 1]);
        }
        lemma_less_at(a.skip(1), b.skip(1), k - 1);
    }
}

proof fn lemma_checksums_are_ordered(taken: Set<Algorithm>, bytes: Seq<u8>)
    ensures
        ordered(checksums(taken, bytes)),
{
    reveal_strlit("md5");
    reveal_strlit("sha1");
    reveal_strlit("sha256");
    reveal_strlit("sha384");
    reveal_strlit("sha512");
    reveal_strlit("t");
    lemma_less_at("md5"@, "sha1"@, 0);
    lemma_less_at("sha1"@, "sha256"@, 3);
    lemma_less_at("sha256"@, "sha384"@, 3);
    lemma_less_at("sha384"@, "sha512"@, 3);
    lemma_less_at("sha512"@, "t"@, 0);
    let none = Seq::<(Seq<char>, Seq<char>)>::empty();
    let a = checksum(taken, Algorithm::Md5, bytes);
    let b = checksum(taken, Algorithm::Sha1, bytes);
    let c = checksum(taken, Algorithm::Sha256, bytes);
    let d = checksum(taken, Algorithm::Sha384, bytes);
    let e = checksum(taken, Algorithm::Sha512, bytes);
    assert(none + a =~= a);
    lemma_extends(none, a, "md5"@, "sha1"@);
    lemma_extends(a, b, "sha1"@, "sha256"@);
    lemma_extends(a + b, c, "sha256"@, "sha384"@);
    lemma_extends(a + b + c, d, "sha384"@, "sha512"@);
    lemma_extends(a + b + c + d, e, "sha512"@, "t"@);
}

/// What a write is kept with has its names in order, where the request has.
pub proof fn written_envelope_is_ordered(request: PutRequest, body: Seq<u8>)
    requires
        request.wf(),
    ensures
        envelope_of(request, once_checksums(request, body)).wf(),
        envelope_of(request, pair_views(request.verify@)).wf(),
{
    lemma_checksums_are_ordered(wanted_checksums(pair_views(request.verify@), true), body);
}

/// The checksums of a body that is written at once.
pub open spec fn once_checksums(request: PutRequest, body: Seq<u8>) -> Seq<(Seq<char>, Seq<char>)> {
    checksums(wanted_checksums(pair_views(request.verify@), true), body)
}

/// Whether something was asked of an object before it was written.
pub open spec fn asked(only_if: Option<Conditional>) -> BlobConditions {
    match only_if {
        Some(conditional) => BlobConditions {
            if_match: conditional.etag_matches,
            if_none_match: conditional.etag_does_not_match,
            uploaded_before_ms: conditional.uploaded_before,
            uploaded_after_ms: conditional.uploaded_after,
        },
        None => BlobConditions {
            if_match: None,
            if_none_match: None,
            uploaded_before_ms: None,
            uploaded_after_ms: None,
        },
    }
}

/// What a body that is written at once is kept with, and what is asked of the
/// object before; or the checksum that is not the one the caller asserts.
pub fn put_once(body: &[u8], request: PutRequest) -> (r: Result<(Envelope, BlobConditions), String>)
    ensures
        match r {
            Ok((envelope, conditions)) => {
                &&& verifies(
                    pair_views(request.verify@),
                    once_checksums(request, body@),
                    Ok(()),
                )
                &&& envelope@ == envelope_of(request, once_checksums(request, body@))
                &&& conditions == asked(request.only_if)
            },
            Err(error) => verifies(
                pair_views(request.verify@),
                once_checksums(request, body@),
                Err(error),
            ),
        },
{
    let mut digests = Digests::wanted(&request.verify, true);
    digests.update(body);
    assert(Seq::<u8>::empty() + body@ =~= body@);
    let checksums = digests.finish();
    match verify(&request.verify, &checksums) {
        Err(error) => Err(error),
        Ok(_) => Ok(
            (
                Envelope {
                    custom: request.custom,
                    http: request.http,
                    checksums,
                    storage_class: request.storage_class,
                },
                blob_conditions(request.only_if),
            ),
        ),
    }
}

/// What a write is answered. `stored` is the object, where it was written.
pub open spec fn put_view(stored: Option<JsonView>) -> JsonView {
    match stored {
        None => JsonView::Object(seq![("stored"@, JsonView::Bool(false))]),
        Some(object) => JsonView::Object(
            seq![("stored"@, JsonView::Bool(true)), ("object"@, object)],
        ),
    }
}

/// What a write is answered.
pub fn put_reply(key: &str, stored: Option<(&BlobMeta, &Envelope)>) -> (r: String)
    ensures
        r@ == json::printed_json(
            put_view(
                match stored {
                    None => None,
                    Some((meta, envelope)) => Some(object_view(key@, *meta, envelope@, None)),
                },
            ),
        ),
{
    let mut members = json::Members::new();
    match stored {
        None => {
            members.put("stored", Json::Bool(false));
            assert(members@ =~= put_view(None)->Object_0);
        },
        Some((meta, envelope)) => {
            members.put("stored", Json::Bool(true));
            members.put("object", object_json(key, meta, envelope, None));
            assert(members@ =~= put_view(
                Some(object_view(key@, *meta, envelope@, None)),
            )->Object_0);
        },
    }
    json::json_text(&members.object())
}

// ---- what is answered of what was written --------------------------------

/// Whether an object holds a text under a name, or no such member.
pub open spec fn shows(object: JsonView, name: Seq<char>, t: Option<Seq<char>>) -> bool {
    object.member(name) == (match t {
        Some(t) => Some(JsonView::Text(t)),
        None => None,
    })
}

/// Whether an object's members are these names with these values, in order.
pub open spec fn lists_pairs(object: Option<JsonView>, pairs: Seq<(Seq<char>, Seq<char>)>) -> bool {
    &&& object matches Some(JsonView::Object(members))
    &&& members.len() == pairs.len()
    &&& forall|i: int|
        0 <= i < pairs.len() ==> (#[trigger] members[i]).0 == pairs[i].0 && members[i].1
            == JsonView::Text(pairs[i].1)
}

proof fn lemma_object_members(
    key: Seq<char>,
    meta: BlobMeta,
    envelope: EnvelopeView,
    range: Option<(u64, u64)>,
)
    ensures
        ({
            let members = object_view(key, meta, envelope, range)->Object_0;
            &&& object_view(key, meta, envelope, range) == JsonView::Object(members)
            &&& members.len() == (if range is Some {
                10int
            } else {
                9int
            })
            &&& forall|i: int, j: int|
                0 <= i < j < members.len() ==> (#[trigger] members[i]).0 != (
                #[trigger] members[j]).0
            &&& forall|i: int|
                0 <= i < members.len() ==> object_view(key, meta, envelope, range).member(
                    (#[trigger] members[i]).0,
                ) == Some(members[i].1)
        }),
{
    reveal_strlit("key");
    reveal_strlit("size");
    reveal_strlit("version");
    reveal_strlit("etag");
    reveal_strlit("uploaded");
    reveal_strlit("http");
    reveal_strlit("custom");
    reveal_strlit("checksums");
    reveal_strlit("storageClass");
    reveal_strlit("range");
    let members = object_view(key, meta, envelope, range)->Object_0;
    assert("size"@[0] == 's' && "etag"@[0] == 'e' && "http"@[0] == 'h');
    assert("key"@.len() == 3 && "version"@.len() == 7 && "uploaded"@.len() == 8);
    assert("custom"@.len() == 6 && "checksums"@.len() == 9 && "storageClass"@.len() == 12);
    assert("range"@.len() == 5);
    assert forall|i: int, j: int| 0 <= i < j < members.len() implies (#[trigger] members[i]).0 != (
    #[trigger] members[j]).0 by {}
    assert forall|i: int| 0 <= i < members.len() implies object_view(
        key,
        meta,
        envelope,
        range,
    ).member((#[trigger] members[i]).0) == Some(members[i].1) by {
        json::a_member_is_found(members, i);
    }
}

/// An object is answered under its own name, with what the bucket knows of it
/// and what it is kept with, each under a name of its own: the user's metadata
/// and the checksums name by name, the storage class or the standard one, and
/// the part that was read where only a part was.
pub proof fn object_is_answered(
    key: Seq<char>,
    meta: BlobMeta,
    envelope: EnvelopeView,
    range: Option<(u64, u64)>,
)
    ensures
        ({
            let answer = object_view(key, meta, envelope, range);
            &&& answer.member("key"@) == Some(JsonView::Text(key))
            &&& answer.member("size"@) == Some(json::number(meta.size as int))
            &&& answer.member("uploaded"@) == Some(JsonView::Int(meta.uploaded_ms as int))
            &&& match meta.etag {
                Some(etag) => answer.member("etag"@) == Some(JsonView::Text(etag@)),
                None => answer.member("etag"@) == Some(JsonView::Null),
            }
            &&& match (meta.version, meta.etag) {
                (Some(version), _) => answer.member("version"@) == Some(JsonView::Text(version@)),
                (None, Some(etag)) => answer.member("version"@) == Some(JsonView::Text(etag@)),
                (None, None) => answer.member("version"@) == Some(JsonView::Null),
            }
            &&& lists_pairs(answer.member("custom"@), envelope.custom)
            &&& lists_pairs(answer.member("checksums"@), envelope.checksums)
            &&& match envelope.storage_class {
                Some(class) => answer.member("storageClass"@) == Some(JsonView::Text(class)),
                None => answer.member("storageClass"@) == Some(JsonView::Text("Standard"@)),
            }
            &&& answer.member("http"@) matches Some(http)
            &&& shows(http, "contentType"@, envelope.http.content_type)
            &&& shows(http, "contentLanguage"@, envelope.http.content_language)
            &&& shows(http, "contentDisposition"@, envelope.http.content_disposition)
            &&& shows(http, "contentEncoding"@, envelope.http.content_encoding)
            &&& shows(http, "cacheControl"@, envelope.http.cache_control)
            &&& http.member("cacheExpiry"@) == (match envelope.http.cache_expiry {
                Some(at) => Some(JsonView::Int(at as int)),
                None => None,
            })
            &&& match range {
                Some((offset, length)) => {
                    &&& answer.member("range"@) matches Some(part)
                    &&& part.member("offset"@) == Some(json::number(offset as int))
                    &&& part.member("length"@) == Some(json::number(length as int))
                },
                None => answer.member("range"@) is None,
            }
        }),
{
    let answer = object_view(key, meta, envelope, range);
    let members = answer->Object_0;
    lemma_object_members(key, meta, envelope, range);
    assert(members[0].0 == "key"@ && members[1].0 == "size"@ && members[2].0 == "version"@);
    assert(members[3].0 == "etag"@ && members[4].0 == "uploaded"@ && members[5].0 == "http"@);
    assert(members[6].0 == "custom"@ && members[7].0 == "checksums"@);
    assert(members[8].0 == "storageClass"@);
    lemma_http_members(envelope.http);
    match range {
        Some((offset, length)) => {
            assert(members[9].0 == "range"@);
            reveal_strlit("offset");
            reveal_strlit("length");
            let part = members[9].1->Object_0;
            assert("offset"@[0] == 'o' && "length"@[0] == 'l');
            json::a_member_is_found(part, 0);
            json::a_member_is_found(part, 1);
        },
        None => {
            reveal_strlit("key");
            reveal_strlit("size");
            reveal_strlit("version");
            reveal_strlit("etag");
            reveal_strlit("uploaded");
            reveal_strlit("http");
            reveal_strlit("custom");
            reveal_strlit("checksums");
            reveal_strlit("storageClass");
            reveal_strlit("range");
            assert forall|j: int| 0 <= j < members.len() implies (#[trigger] members[j]).0
                != "range"@ by {
                assert(members[j].0.len() != 5);
            }
            json::no_member_is_made_up(members, "range"@);
        },
    }
}

proof fn lemma_http_names()
    ensures
        "contentType"@ != "contentLanguage"@,
        "contentType"@ != "contentDisposition"@,
        "contentType"@ != "contentEncoding"@,
        "contentType"@ != "cacheControl"@,
        "contentType"@ != "cacheExpiry"@,
        "contentLanguage"@ != "contentDisposition"@,
        "contentLanguage"@ != "contentEncoding"@,
        "contentLanguage"@ != "cacheControl"@,
        "contentLanguage"@ != "cacheExpiry"@,
        "contentDisposition"@ != "contentEncoding"@,
        "contentDisposition"@ != "cacheControl"@,
        "contentDisposition"@ != "cacheExpiry"@,
        "contentEncoding"@ != "cacheControl"@,
        "contentEncoding"@ != "cacheExpiry"@,
        "cacheControl"@ != "cacheExpiry"@,
{
    reveal_strlit("contentType");
    reveal_strlit("contentLanguage");
    reveal_strlit("contentDisposition");
    reveal_strlit("contentEncoding");
    reveal_strlit("cacheControl");
    reveal_strlit("cacheExpiry");
    assert("contentType"@.len() == 11 && "cacheExpiry"@.len() == 11);
    assert("contentLanguage"@.len() == 15 && "contentEncoding"@.len() == 15);
    assert("contentDisposition"@.len() == 18 && "cacheControl"@.len() == 12);
    assert("contentType"@[1] == 'o' && "cacheExpiry"@[1] == 'a');
    assert("contentLanguage"@[7] == 'L' && "contentEncoding"@[7] == 'E');
}

proof fn lemma_joined_members(
    a: Seq<(Seq<char>, JsonView)>,
    b: Seq<(Seq<char>, JsonView)>,
    name: Seq<char>,
)
    ensures
        JsonView::Object(a + b).member(name) == (match JsonView::Object(a).member(name) {
            Some(value) => Some(value),
            None => JsonView::Object(b).member(name),
        }),
    decreases a.len(),
{
    if a.len() == 0 {
        assert(a + b =~= b);
    } else {
        assert((a + b).skip(1) =~= a.skip(1) + b);
        lemma_joined_members(a.skip(1), b, name);
    }
}

proof fn lemma_http_members(http: HttpMetaView)
    ensures
        shows(http_json(http), "contentType"@, http.content_type),
        shows(http_json(http), "contentLanguage"@, http.content_language),
        shows(http_json(http), "contentDisposition"@, http.content_disposition),
        shows(http_json(http), "contentEncoding"@, http.content_encoding),
        shows(http_json(http), "cacheControl"@, http.cache_control),
        http_json(http).member("cacheExpiry"@) == (match http.cache_expiry {
            Some(at) => Some(JsonView::Int(at as int)),
            None => None,
        }),
{
    lemma_http_names();
    let a = present("contentType"@, http.content_type);
    let b = present("contentLanguage"@, http.content_language);
    let c = present("contentDisposition"@, http.content_disposition);
    let d = present("contentEncoding"@, http.content_encoding);
    let e = present("cacheControl"@, http.cache_control);
    let f: Seq<(Seq<char>, JsonView)> = match http.cache_expiry {
        Some(at) => seq![("cacheExpiry"@, JsonView::Int(at as int))],
        None => seq![],
    };
    assert forall|name: Seq<char>| #[trigger]
        http_json(http).member(name) == one_of(
            a,
            name,
            one_of(b, name, one_of(c, name, one_of(d, name, one_of(e, name, one_of(f, name, None))))),
        ) by {
        lemma_joined_members(a + b + c + d + e, f, name);
        lemma_joined_members(a + b + c + d, e, name);
        lemma_joined_members(a + b + c, d, name);
        lemma_joined_members(a + b, c, name);
        lemma_joined_members(a, b, name);
        reveal_with_fuel(json::first_member, 2);
    }
}

/// The value of a list's only member, where it has the name.
spec fn one_of(members: Seq<(Seq<char>, JsonView)>, name: Seq<char>, other: Option<JsonView>) -> Option<
    JsonView,
> {
    if members.len() > 0 && members[0].0 == name {
        Some(members[0].1)
    } else {
        other
    }
}

/// Whether an object holds, under a checksum's name, that checksum of a body
/// where it was taken, and nothing where it was not.
pub open spec fn shows_checksum(
    object: JsonView,
    name: Seq<char>,
    algorithm: Algorithm,
    taken: bool,
    body: Seq<u8>,
) -> bool {
    object.member(name) == (if taken {
        Some(JsonView::Text(text::hex_of(digests::digest_of(algorithm, body))))
    } else {
        None
    })
}

/// What was written is what is answered. An object that is written at once, is
/// kept with its record and is read by that record is answered with the user's
/// metadata, the HTTP metadata and the storage class that the write asked for,
/// and with the checksums of its body: MD5, and each that the write asserted.
pub proof fn written_object_is_answered(
    request: PutRequest,
    body: Seq<u8>,
    attributes: AttributesView,
    envelope: EnvelopeView,
    key: Seq<char>,
    meta: BlobMeta,
    range: Option<(u64, u64)>,
)
    requires
        request.wf(),
        envelope_of(request, once_checksums(request, body)).kept_in(attributes),
        reads(envelope, attributes, Some(envelope_of(request, once_checksums(request, body)))),
    ensures
        ({
            let answer = object_view(key, meta, envelope, range);
            let asserted = pair_views(request.verify@);
            &&& answer.member("key"@) == Some(JsonView::Text(key))
            &&& answer.member("custom"@) matches Some(JsonView::Object(custom))
            &&& custom.len() == request.custom@.len()
            &&& forall|i: int|
                0 <= i < custom.len() ==> (#[trigger] custom[i]).0 == request.custom@[i].0@
                    && custom[i].1 == JsonView::Text(request.custom@[i].1@)
            &&& answer.member("checksums"@) matches Some(sums)
            &&& shows_checksum(sums, "md5"@, Algorithm::Md5, true, body)
            &&& shows_checksum(
                sums,
                "sha1"@,
                Algorithm::Sha1,
                lists_name(asserted, "sha1"@),
                body,
            )
            &&& shows_checksum(
                sums,
                "sha256"@,
                Algorithm::Sha256,
                lists_name(asserted, "sha256"@),
                body,
            )
            &&& shows_checksum(
                sums,
                "sha384"@,
                Algorithm::Sha384,
                lists_name(asserted, "sha384"@),
                body,
            )
            &&& shows_checksum(
                sums,
                "sha512"@,
                Algorithm::Sha512,
                lists_name(asserted, "sha512"@),
                body,
            )
            &&& forall|name: Seq<char>|
                name != "md5"@ && name != "sha1"@ && name != "sha256"@ && name != "sha384"@ && name
                    != "sha512"@ ==> (#[trigger] sums.member(name)) is None
            &&& answer.member("http"@) matches Some(http)
            &&& shows(http, "contentType"@, optional(request.http.content_type))
            &&& shows(http, "contentLanguage"@, optional(request.http.content_language))
            &&& shows(http, "contentDisposition"@, optional(request.http.content_disposition))
            &&& shows(http, "contentEncoding"@, optional(request.http.content_encoding))
            &&& shows(http, "cacheControl"@, optional(request.http.cache_control))
            &&& http.member("cacheExpiry"@) == (match request.http.cache_expiry {
                Some(at) => Some(JsonView::Int(at as int)),
                None => None,
            })
            &&& request.storage_class matches Some(class) ==> answer.member("storageClass"@)
                == Some(JsonView::Text(class@))
        }),
{
    object_is_answered(key, meta, envelope, range);
    let answer = object_view(key, meta, envelope, range);
    let custom = answer.member("custom"@)->Some_0->Object_0;
    assert forall|i: int| 0 <= i < custom.len() implies (#[trigger] custom[i]).0
        == request.custom@[i].0@ && custom[i].1 == JsonView::Text(request.custom@[i].1@) by {
        assert(pair_views(request.custom@)[i] == (
            request.custom@[i].0@,
            request.custom@[i].1@,
        ));
    }
    let asserted = pair_views(request.verify@);
    let taken = wanted_checksums(asserted, true);
    lemma_shown_checksums(taken, body, envelope.checksums, answer.member("checksums"@)->Some_0);
    lemma_named_value(asserted, "sha1"@);
    lemma_named_value(asserted, "sha256"@);
    lemma_named_value(asserted, "sha384"@);
    lemma_named_value(asserted, "sha512"@);
}

proof fn lemma_named_value(pairs: Seq<(Seq<char>, Seq<char>)>, name: Seq<char>)
    ensures
        value_of(pairs, name) is Some <==> lists_name(pairs, name),
    decreases pairs.len(),
{
    if pairs.len() > 0 {
        let rest = pairs.skip(1);
        lemma_named_value(rest, name);
        if lists_name(rest, name) {
            let j = choose|j: int| 0 <= j < rest.len() && (#[trigger] rest[j]).0 == name;
            assert(pairs[j + 1].0 == name);
        }
        if lists_name(pairs, name) {
            let j = choose|j: int| 0 <= j < pairs.len() && (#[trigger] pairs[j]).0 == name;
            if j > 0 {
                assert(rest[j - 1].0 == name);
            }
        }
    }
}

/// The member of a checksum, where it is taken.
spec fn sum_member(taken: Set<Algorithm>, a: Algorithm, body: Seq<u8>) -> Seq<
    (Seq<char>, JsonView),
> {
    if taken.contains(a) {
        seq![(checksum_name(a), JsonView::Text(text::hex_of(digests::digest_of(a, body))))]
    } else {
        seq![]
    }
}

proof fn lemma_shown_checksums(
    taken: Set<Algorithm>,
    body: Seq<u8>,
    listed: Seq<(Seq<char>, Seq<char>)>,
    object: JsonView,
)
    requires
        listed == checksums(taken, body),
        lists_pairs(Some(object), listed),
    ensures
        shows_checksum(object, "md5"@, Algorithm::Md5, taken.contains(Algorithm::Md5), body),
        shows_checksum(object, "sha1"@, Algorithm::Sha1, taken.contains(Algorithm::Sha1), body),
        shows_checksum(
            object,
            "sha256"@,
            Algorithm::Sha256,
            taken.contains(Algorithm::Sha256),
            body,
        ),
        shows_checksum(
            object,
            "sha384"@,
            Algorithm::Sha384,
            taken.contains(Algorithm::Sha384),
            body,
        ),
        shows_checksum(
            object,
            "sha512"@,
            Algorithm::Sha512,
            taken.contains(Algorithm::Sha512),
            body,
        ),
        forall|name: Seq<char>|
            name != "md5"@ && name != "sha1"@ && name != "sha256"@ && name != "sha384"@ && name
                != "sha512"@ ==> (#[trigger] object.member(name)) is None,
{
    reveal_strlit("md5");
    reveal_strlit("sha1");
    reveal_strlit("sha256");
    reveal_strlit("sha384");
    reveal_strlit("sha512");
    assert("md5"@.len() == 3 && "sha1"@.len() == 4);
    assert("sha256"@[3] == '2' && "sha384"@[3] == '3' && "sha512"@[3] == '5');
    let a = sum_member(taken, Algorithm::Md5, body);
    let b = sum_member(taken, Algorithm::Sha1, body);
    let c = sum_member(taken, Algorithm::Sha256, body);
    let d = sum_member(taken, Algorithm::Sha384, body);
    let e = sum_member(taken, Algorithm::Sha512, body);
    assert(object->Object_0 =~= a + b + c + d + e);
    assert forall|name: Seq<char>| #[trigger]
        object.member(name) == one_of(
            a,
            name,
            one_of(b, name, one_of(c, name, one_of(d, name, one_of(e, name, None)))),
        ) by {
        lemma_joined_members(a + b + c + d, e, name);
        lemma_joined_members(a + b + c, d, name);
        lemma_joined_members(a + b, c, name);
        lemma_joined_members(a, b, name);
        reveal_with_fuel(json::first_member, 2);
    }
}

/// A body that was written in parts is kept with the checksums that the write
/// asserted, and is answered with those; else it is answered as any other.
pub proof fn streamed_object_is_answered(
    request: PutRequest,
    attributes: AttributesView,
    envelope: EnvelopeView,
    key: Seq<char>,
    meta: BlobMeta,
    range: Option<(u64, u64)>,
)
    requires
        envelope_of(request, pair_views(request.verify@)).kept_in(attributes),
        reads(envelope, attributes, Some(envelope_of(request, pair_views(request.verify@)))),
    ensures
        ({
            let answer = object_view(key, meta, envelope, range);
            &&& lists_pairs(answer.member("custom"@), pair_views(request.custom@))
            &&& lists_pairs(answer.member("checksums"@), pair_views(request.verify@))
            &&& request.storage_class matches Some(class) ==> answer.member("storageClass"@)
                == Some(JsonView::Text(class@))
        }),
{
    object_is_answered(key, meta, envelope, range);
}

/// A write is answered with whether the object was written, and with the
/// object where it was.
pub proof fn write_is_answered(stored: Option<JsonView>)
    ensures
        put_view(stored).member("stored"@) == Some(JsonView::Bool(stored is Some)),
        put_view(stored).member("object"@) == stored,
{
    reveal_strlit("stored");
    reveal_strlit("object");
    assert("stored"@[0] == 's' && "object"@[0] == 'o');
    reveal_with_fuel(json::first_member, 3);
}

/// The algorithm that a checksum's name stands for.
pub open spec fn algorithm_named(name: Seq<char>) -> Option<Algorithm> {
    if name == "md5"@ {
        Some(Algorithm::Md5)
    } else if name == "sha1"@ {
        Some(Algorithm::Sha1)
    } else if name == "sha256"@ {
        Some(Algorithm::Sha256)
    } else if name == "sha384"@ {
        Some(Algorithm::Sha384)
    } else if name == "sha512"@ {
        Some(Algorithm::Sha512)
    } else {
        None
    }
}

/// A body is written exactly where every checksum that the caller asserts is
/// one of the body, in hexadecimal digits of either case and but for white
/// space round them, by an algorithm that is known.
pub proof fn asserted_checksums_are_held_to(request: PutRequest, body: Seq<u8>)
    ensures
        verifies(pair_views(request.verify@), once_checksums(request, body), Ok(())) <==> forall|
            i: int,
        |
            0 <= i < request.verify@.len() ==> (algorithm_named(
                (#[trigger] request.verify@[i]).0@,
            ) matches Some(algorithm) && text::hex_of(digests::digest_of(algorithm, body))
                == text::lower(text::trimmed(request.verify@[i].1@))),
{
    let asserted = pair_views(request.verify@);
    let computed = once_checksums(request, body);
    assert forall|i: int| 0 <= i < asserted.len() implies (checksum_error(
        (#[trigger] asserted[i]).0,
        asserted[i].1,
        computed,
    ) is None <==> (algorithm_named(request.verify@[i].0@) matches Some(algorithm) && text::hex_of(
        digests::digest_of(algorithm, body),
    ) == text::lower(text::trimmed(request.verify@[i].1@)))) by {
        let name = asserted[i].0;
        assert(name == request.verify@[i].0@ && asserted[i].1 == request.verify@[i].1@);
        assert(lists_name(asserted, name));
        lemma_named_value(asserted, name);
        lemma_computed(wanted_checksums(asserted, true), body, name);
        if let Some(algorithm) = algorithm_named(name) {
            assert(checksum_name(algorithm) == name);
        }
    }
    assert forall|i: int| 0 <= i < asserted.len() implies (#[trigger] asserted[i]).0
        == request.verify@[i].0@ by {}
    if verifies(asserted, computed, Ok(())) {
        assert forall|i: int| 0 <= i < request.verify@.len() implies (algorithm_named(
            (#[trigger] request.verify@[i]).0@,
        ) matches Some(algorithm) && text::hex_of(digests::digest_of(algorithm, body))
            == text::lower(text::trimmed(request.verify@[i].1@))) by {
            assert(checksum_error(asserted[i].0, asserted[i].1, computed) is None);
        }
    }
}

proof fn lemma_computed(taken: Set<Algorithm>, body: Seq<u8>, name: Seq<char>)
    ensures
        value_of(checksums(taken, body), name) == (match algorithm_named(name) {
            Some(algorithm) => if taken.contains(algorithm) {
                Some(text::hex_of(digests::digest_of(algorithm, body)))
            } else {
                None
            },
            None => None,
        }),
{
    reveal_strlit("md5");
    reveal_strlit("sha1");
    reveal_strlit("sha256");
    reveal_strlit("sha384");
    reveal_strlit("sha512");
    assert("md5"@.len() == 3 && "sha1"@.len() == 4);
    assert("sha256"@[3] == '2' && "sha384"@[3] == '3' && "sha512"@[3] == '5');
    let a = checksum(taken, Algorithm::Md5, body);
    let b = checksum(taken, Algorithm::Sha1, body);
    let c = checksum(taken, Algorithm::Sha256, body);
    let d = checksum(taken, Algorithm::Sha384, body);
    let e = checksum(taken, Algorithm::Sha512, body);
    lemma_joined_values(a + b + c + d, e, name);
    lemma_joined_values(a + b + c, d, name);
    lemma_joined_values(a + b, c, name);
    lemma_joined_values(a, b, name);
    reveal_with_fuel(value_of, 2);
}

proof fn lemma_joined_values(
    a: Seq<(Seq<char>, Seq<char>)>,
    b: Seq<(Seq<char>, Seq<char>)>,
    name: Seq<char>,
)
    ensures
        value_of(a + b, name) == (match value_of(a, name) {
            Some(value) => Some(value),
            None => value_of(b, name),
        }),
    decreases a.len(),
{
    if a.len() == 0 {
        assert(a + b =~= b);
    } else {
        assert((a + b).skip(1) =~= a.skip(1) + b);
        lemma_joined_values(a.skip(1), b, name);
    }
}

// ---- a write in parts ----------------------------------------------------

/// A body that is being written as it comes. `U` is the bucket's upload.
pub struct PutStream<U> {
    pub bucket_name: String,
    pub key: String,
    pub request: PutRequest,
    pub digests: Digests,
    pub buffered: Vec<u8>,
    pub size: u64,
    pub upload: Option<U>,
    pub touched: u64,
}

/// What to do with the bytes of a body that is being written.
pub enum PartAction {
    /// Nothing: there are too few.
    Wait,
    /// Start an upload, kept with the envelope, and write the part to it.
    Begin { envelope: Envelope, part: Vec<u8> },
    /// Write the part.
    Put { part: Vec<u8> },
    /// Give the write up.
    Refuse { error: String },
}

/// What ends a body that is being written.
pub enum FinishAction<U> {
    /// Write it at once.
    Once { bucket_name: String, key: String, body: Vec<u8>, request: PutRequest },
    /// Write the last part, where there is one, and close the upload.
    Close { upload: U, last: Option<Vec<u8>> },
}

/// The error of a part that the bucket did not take.
pub open spec fn part_error(key: Seq<char>, error: Seq<char>) -> Seq<char> {
    "R2 put of "@ + key + ": "@ + error
}

/// The error of a condition on a body that is too large to be written at once.
pub open spec fn conditional_stream_error(key: Seq<char>) -> Seq<char> {
    "R2 put of "@ + key
        + ": celld cannot apply `onlyIf` to a streamed body larger than 8388608 bytes, because it is written as a multipart upload and a multipart completion takes no precondition"@
}

/// A request that asks for nothing.
fn no_request() -> (r: PutRequest)
    ensures
        asks_nothing(r),
{
    let r = PutRequest {
        http: HttpMeta {
            content_type: None,
            content_language: None,
            content_disposition: None,
            content_encoding: None,
            cache_control: None,
            cache_expiry: None,
        },
        custom: Vec::new(),
        storage_class: None,
        only_if: None,
        verify: Vec::new(),
    };
    r
}

pub open spec fn asks_nothing(request: PutRequest) -> bool {
    &&& request.http@ == (HttpMetaView {
        content_type: None,
        content_language: None,
        content_disposition: None,
        content_encoding: None,
        cache_control: None,
        cache_expiry: None,
    })
    &&& request.custom@.len() == 0
    &&& request.storage_class is None
    &&& request.only_if is None
    &&& request.verify@.len() == 0
}

/// Starts a write of a body as it comes.
pub fn open_put<U>(bucket_name: String, key: String, request: PutRequest, now: u64) -> (r: PutStream<
    U,
>)
    ensures
        r.bucket_name == bucket_name,
        r.key == key,
        r.request == request,
        r.digests.takes(Seq::empty()),
        r.digests.taken() == wanted_checksums(pair_views(request.verify@), true),
        r.buffered@ == Seq::<u8>::empty(),
        r.size == 0,
        r.upload is None,
        r.touched == now,
{
    let digests = Digests::wanted(&request.verify, true);
    PutStream {
        bucket_name,
        key,
        request,
        digests,
        buffered: Vec::new(),
        size: 0,
        upload: None,
        touched: now,
    }
}

fn append(to: &mut Vec<u8>, bytes: &[u8])
    ensures
        final(to)@ == old(to)@ + bytes@,
{
    let ghost before = to@;
    let mut i: usize = 0;
    while i < bytes.len()
        invariant
            i <= bytes@.len(),
            to@ == before + bytes@.take(i as int),
        decreases bytes.len() - i,
    {
        to.push(bytes[i]);
        assert(bytes@.take(i + 1) =~= bytes@.take(i as int).push(bytes@[i as int]));
        i = i + 1;
    }
    assert(bytes@.take(i as int) =~= bytes@);
}

impl<U> PutStream<U> {
    /// What is the same however the body comes.
    pub open spec fn same_write(&self, other: &Self) -> bool {
        &&& self.bucket_name == other.bucket_name
        &&& self.key == other.key
        &&& self.request == other.request
        &&& self.touched == other.touched
    }

    /// Takes more of the body in. The parts it makes up are then due.
    pub fn push(&mut self, chunk: &[u8])
        requires
            old(self).size + chunk@.len() <= u64::MAX,
        ensures
            final(self).same_write(old(self)),
            final(self).upload == old(self).upload,
            final(self).size == old(self).size + chunk@.len(),
            final(self).buffered@ == old(self).buffered@ + chunk@,
            final(self).digests.taken() == old(self).digests.taken(),
            forall|before: Seq<u8>| #[trigger]
                old(self).digests.takes(before) ==> final(self).digests.takes(before + chunk@),
    {
        self.digests.update(chunk);
        self.size = self.size + chunk.len() as u64;
        append(&mut self.buffered, chunk);
    }

    /// The part that is due, where more than one is at hand. The first starts
    /// the upload, and from then on MD5 is taken only where the caller asserts
    /// it. A part leaves the buffer, whatever becomes of it.
    pub fn part(&mut self) -> (r: PartAction)
        ensures
            final(self).same_write(old(self)),
            final(self).upload == old(self).upload,
            final(self).size == old(self).size,
            forall|bytes: Seq<u8>| #[trigger]
                old(self).digests.takes(bytes) ==> final(self).digests.takes(bytes),
            final(self).digests.taken() == (if r is Begin && value_of(
                pair_views(old(self).request.verify@),
                "md5"@,
            ) is None {
                old(self).digests.taken().remove(Algorithm::Md5)
            } else {
                old(self).digests.taken()
            }),
            r is Wait <==> old(self).buffered@.len() <= STREAM_PART,
            final(self).buffered@ == (if r is Wait {
                old(self).buffered@
            } else {
                old(self).buffered@.skip(STREAM_PART as int)
            }),
            r is Put <==> old(self).buffered@.len() > STREAM_PART && old(self).upload is Some,
            match r {
                PartAction::Wait => true,
                PartAction::Refuse { error } => {
                    &&& old(self).upload is None && old(self).request.only_if is Some
                    &&& error@ == conditional_stream_error(old(self).key@)
                },
                PartAction::Begin { envelope, part } => {
                    &&& old(self).upload is None && old(self).request.only_if is None
                    &&& envelope@ == envelope_of(
                        old(self).request,
                        pair_views(old(self).request.verify@),
                    )
                    &&& part@ == old(self).buffered@.take(STREAM_PART as int)
                },
                PartAction::Put { part } => part@ == old(self).buffered@.take(STREAM_PART as int),
            },
    {
        if self.buffered.len() <= STREAM_PART {
            return PartAction::Wait;
        }
        let ghost all = self.buffered@;
        let rest = self.buffered.split_off(STREAM_PART);
        let mut part: Vec<u8> = Vec::new();
        std::mem::swap(&mut part, &mut self.buffered);
        self.buffered = rest;
        assert(part@ =~= all.take(STREAM_PART as int));
        assert(self.buffered@ =~= all.skip(STREAM_PART as int));
        if self.upload.is_some() {
            return PartAction::Put { part };
        }
        if self.request.only_if.is_some() {
            let mut error = String::from_str("R2 put of ");
            error.append(self.key.as_str());
            error.append(
                ": celld cannot apply `onlyIf` to a streamed body larger than 8388608 bytes, because it is written as a multipart upload and a multipart completion takes no precondition",
            );
            return PartAction::Refuse { error };
        }
        if find(&self.request.verify, "md5").is_none() {
            self.digests.drop_md5();
        }
        PartAction::Begin { envelope: self.envelope(), part }
    }

    /// Keeps the upload that was started.
    pub fn begun(&mut self, upload: U)
        ensures
            final(self).same_write(old(self)),
            final(self).upload == Some(upload),
            final(self).size == old(self).size,
            final(self).buffered == old(self).buffered,
            final(self).digests == old(self).digests,
    {
        self.upload = Some(upload);
    }

    /// Ends the body. One that was never written in parts is written at once;
    /// what is left of any other is its last part.
    pub fn finish(&mut self) -> (r: FinishAction<U>)
        ensures
            final(self).digests == old(self).digests,
            final(self).size == old(self).size,
            final(self).touched == old(self).touched,
            final(self).upload is None,
            final(self).buffered@ == Seq::<u8>::empty(),
            match r {
                FinishAction::Once { bucket_name, key, body, request } => {
                    &&& old(self).upload is None
                    &&& bucket_name == old(self).bucket_name
                    &&& key == old(self).key
                    &&& body@ == old(self).buffered@
                    &&& request == old(self).request
                    &&& final(self).bucket_name@ == ""@
                    &&& final(self).key@ == ""@
                    &&& asks_nothing(final(self).request)
                },
                FinishAction::Close { upload, last } => {
                    &&& old(self).upload == Some(upload)
                    &&& final(self).same_write(old(self))
                    &&& match last {
                        Some(last) => last@ == old(self).buffered@ && last@.len() > 0,
                        None => old(self).buffered@.len() == 0,
                    }
                },
            },
    {
        let mut upload: Option<U> = None;
        std::mem::swap(&mut upload, &mut self.upload);
        let mut left: Vec<u8> = Vec::new();
        std::mem::swap(&mut left, &mut self.buffered);
        match upload {
            None => {
                let mut bucket_name = String::from_str("");
                std::mem::swap(&mut bucket_name, &mut self.bucket_name);
                let mut key = String::from_str("");
                std::mem::swap(&mut key, &mut self.key);
                let mut request = no_request();
                std::mem::swap(&mut request, &mut self.request);
                FinishAction::Once { bucket_name, key, body: left, request }
            },
            Some(upload) => {
                let last = if left.len() == 0 {
                    None
                } else {
                    Some(left)
                };
                FinishAction::Close { upload, last }
            },
        }
    }

    /// Whether an upload may be completed once its last part was handed over,
    /// or the error that it is given up with: the part's own, or else the
    /// checksum that is not the one the caller asserts.
    pub fn check(&mut self, failed: Option<String>) -> (r: Result<(), String>)
        ensures
            final(self).same_write(old(self)),
            final(self).upload == old(self).upload,
            final(self).size == old(self).size,
            final(self).buffered == old(self).buffered,
            final(self).digests.taken() == Set::<Algorithm>::empty(),
            match failed {
                Some(error) => r is Err && r->Err_0@ == part_error(old(self).key@, error@),
                None => forall|bytes: Seq<u8>| #[trigger]
                    old(self).digests.takes(bytes) ==> verifies(
                        pair_views(old(self).request.verify@),
                        checksums(old(self).digests.taken(), bytes),
                        r,
                    ),
            },
    {
        let mut digests = Digests { md5: None, sha1: None, sha256: None, sha384: None, sha512: None };
        assert(digests.taken() =~= Set::<Algorithm>::empty());
        std::mem::swap(&mut digests, &mut self.digests);
        let computed = digests.finish();
        match failed {
            Some(error) => {
                let mut text = text::join3("R2 put of ", self.key.as_str(), ": ");
                text.append(error.as_str());
                Err(text)
            },
            None => verify(&self.request.verify, &computed),
        }
    }

    /// What the bucket now holds, from what it says of the completed upload.
    pub fn completed(&self, etag: Option<String>, version: Option<String>, now: i64) -> (r: (
        BlobMeta,
        Envelope,
    ))
        ensures
            r.0 == (BlobMeta { size: self.size, etag, version, uploaded_ms: now }),
            r.1@ == envelope_of(self.request, pair_views(self.request.verify@)),
    {
        (BlobMeta { size: self.size, etag, version, uploaded_ms: now }, self.envelope())
    }

    /// What the body is kept with: the checksums are the ones that the caller
    /// asserts.
    fn envelope(&self) -> (r: Envelope)
        ensures
            r@ == envelope_of(self.request, pair_views(self.request.verify@)),
    {
        Envelope {
            custom: copy_pairs(&self.request.custom),
            http: HttpMeta {
                content_type: copy_text(&self.request.http.content_type),
                content_language: copy_text(&self.request.http.content_language),
                content_disposition: copy_text(&self.request.http.content_disposition),
                content_encoding: copy_text(&self.request.http.content_encoding),
                cache_control: copy_text(&self.request.http.cache_control),
                cache_expiry: self.request.http.cache_expiry,
            },
            checksums: copy_pairs(&self.request.verify),
            storage_class: copy_text(&self.request.storage_class),
        }
    }
}

// ---- deleting and listing ------------------------------------------------

/// Where objects lie in the fleet's bucket.
pub fn delete_keys(bucket_name: &str, keys: &Vec<String>) -> (r: Vec<String>)
    ensures
        r@.len() == keys@.len(),
        forall|i: int|
            0 <= i < keys@.len() ==> (#[trigger] r@[i])@ == "r2/"@ + bucket_name@ + "/"@
                + keys@[i]@,
{
    let mut r: Vec<String> = Vec::new();
    let mut i: usize = 0;
    while i < keys.len()
        invariant
            i <= keys@.len(),
            r@.len() == i,
            forall|k: int|
                0 <= k < i ==> (#[trigger] r@[k])@ == "r2/"@ + bucket_name@ + "/"@ + keys@[k]@,
        decreases keys.len() - i,
    {
        r.push(blob_key(bucket_name, keys[i].as_str()));
        i = i + 1;
    }
    r
}

/// Whether a deletion took every key.
pub fn delete(gone: usize, keys: usize) -> (r: Result<(), String>)
    ensures
        match r {
            Ok(_) => gone == keys,
            Err(error) => gone != keys && error@ == "R2 delete removed "@ + text::decimal(
                gone as nat,
            ) + " of "@ + text::decimal(keys as nat) + " keys; the rest failed"@,
        },
{
    if gone == keys {
        return Ok(());
    }
    let mut error = text::join3(
        "R2 delete removed ",
        text::decimal_text(gone as u64).as_str(),
        " of ",
    );
    error.append(text::decimal_text(keys as u64).as_str());
    error.append(" keys; the rest failed");
    Err(error)
}

/// What a listing asks for.
pub struct ListRequest {
    pub prefix: String,
    pub cursor: Option<String>,
    pub start_after: Option<String>,
    pub limit: Option<i64>,
    pub delimiter: Option<String>,
}

/// What the bucket is asked for.
pub struct PageQuery {
    pub prefix: String,
    pub after: Option<String>,
    pub limit: usize,
    pub delimiter: Option<String>,
}

/// What a listing begins after: the cursor, or else where it asks to start.
pub open spec fn list_after(request: ListRequest) -> Option<Seq<char>> {
    match request.cursor {
        Some(cursor) if cursor@.len() > 0 => Some(cursor@),
        _ => match request.start_after {
            Some(after) if after@.len() > 0 => Some(after@),
            _ => None,
        },
    }
}

fn not_empty(t: &Option<String>) -> (r: Option<&str>)
    ensures
        match r {
            Some(r) => *t is Some && r@ == (*t)->Some_0@ && r@.len() > 0,
            None => *t is None || (*t)->Some_0@.len() == 0,
        },
{
    match t {
        Some(t) => {
            if text::same(t.as_str(), "") {
                proof {
                    reveal_strlit("");
                }
                None
            } else {
                proof {
                    reveal_strlit("");
                    assert(t@.len() == 0 ==> t@ =~= ""@);
                }
                Some(t.as_str())
            }
        },
        None => None,
    }
}

/// The page that a listing asks the bucket for.
pub fn list_query(bucket_name: &str, request: ListRequest) -> (r: PageQuery)
    ensures
        r.prefix@ == "r2/"@ + bucket_name@ + "/"@ + request.prefix@,
        optional(r.after) == (match list_after(request) {
            Some(after) => Some("r2/"@ + bucket_name@ + "/"@ + after),
            None => None,
        }),
        r.limit == (match request.limit {
            Some(limit) if 0 < limit < LIST_LIMIT => limit as int,
            _ => LIST_LIMIT as int,
        }),
        r.delimiter == request.delimiter,
{
    let limit: usize = match request.limit {
        Some(limit) => if 0 < limit && limit < 1000 {
            limit as usize
        } else {
            LIST_LIMIT
        },
        None => LIST_LIMIT,
    };
    let after = match not_empty(&request.cursor) {
        Some(cursor) => Some(blob_key(bucket_name, cursor)),
        None => match not_empty(&request.start_after) {
            Some(after) => Some(blob_key(bucket_name, after)),
            None => None,
        },
    };
    PageQuery {
        prefix: blob_key(bucket_name, request.prefix.as_str()),
        after,
        limit,
        delimiter: request.delimiter,
    }
}

/// An object's name from where it lies.
pub open spec fn unscoped(bucket_name: Seq<char>, key: Seq<char>) -> Seq<char> {
    let scope = "r2/"@ + bucket_name + "/"@ + ""@;
    if text::has_prefix(key, scope) {
        key.skip(scope.len() as int)
    } else {
        key
    }
}

/// An object's name from where it lies.
pub fn unscope(bucket_name: &str, key: &str) -> (r: String)
    ensures
        r@ == unscoped(bucket_name@, key@),
{
    match text::strip_prefix(key, blob_key(bucket_name, "").as_str()) {
        Some(rest) => rest,
        None => String::from_str(key),
    }
}

/// An object is listed under the name it was written by.
pub proof fn listed_name_is_the_key(bucket_name: Seq<char>, key: Seq<char>)
    ensures
        unscoped(bucket_name, "r2/"@ + bucket_name + "/"@ + key) == key,
{
    reveal_strlit("");
    let scope = "r2/"@ + bucket_name + "/"@ + ""@;
    let full = "r2/"@ + bucket_name + "/"@ + key;
    assert(full.subrange(0, scope.len() as int) =~= scope);
    assert(full.skip(scope.len() as int) =~= key);
}

/// A page of a listing.
pub struct Page {
    pub objects: Vec<(String, BlobMeta)>,
    pub prefixes: Vec<String>,
    pub truncated: bool,
    pub cursor: Option<String>,
}

/// The objects of a page as they are answered, without their metadata.
pub open spec fn plain_objects(bucket_name: Seq<char>, objects: Seq<(String, BlobMeta)>) -> Seq<
    JsonView,
> {
    objects.map_values(
        |o: (String, BlobMeta)|
            object_view(unscoped(bucket_name, o.0@), o.1, no_envelope(), None),
    )
}

pub open spec fn no_envelope() -> EnvelopeView {
    EnvelopeView {
        custom: seq![],
        http: HttpMetaView {
            content_type: None,
            content_language: None,
            content_disposition: None,
            content_encoding: None,
            cache_control: None,
            cache_expiry: None,
        },
        checksums: seq![],
        storage_class: None,
    }
}

/// The first `n` objects of a page with their metadata: one that is gone by now
/// is left out, and one that cannot be read fails the listing.
pub open spec fn read_objects(
    bucket_name: Seq<char>,
    objects: Seq<(String, BlobMeta)>,
    heads: Seq<Result<Option<(BlobMeta, Envelope)>, String>>,
    n: nat,
) -> Result<Seq<JsonView>, Seq<char>>
    decreases n,
{
    if n == 0 {
        Ok(seq![])
    } else {
        match read_objects(bucket_name, objects, heads, (n - 1) as nat) {
            Err(error) => Err(error),
            Ok(before) => match heads[n - 1] {
                Err(error) => Err(error@),
                Ok(None) => Ok(before),
                Ok(Some((meta, envelope))) => Ok(
                    before.push(
                        object_view(
                            unscoped(bucket_name, objects[n - 1].0@),
                            meta,
                            envelope@,
                            None,
                        ),
                    ),
                ),
            },
        }
    }
}

proof fn lemma_failed(
    bucket_name: Seq<char>,
    objects: Seq<(String, BlobMeta)>,
    heads: Seq<Result<Option<(BlobMeta, Envelope)>, String>>,
    at: nat,
    n: nat,
)
    requires
        at <= n,
        read_objects(bucket_name, objects, heads, at) is Err,
    ensures
        read_objects(bucket_name, objects, heads, n) == read_objects(
            bucket_name,
            objects,
            heads,
            at,
        ),
    decreases n - at,
{
    if at < n {
        lemma_failed(bucket_name, objects, heads, at, (n - 1) as nat);
    }
}

/// How many objects of a page were looked at.
pub open spec fn looked_at(objects: nat, heads: nat) -> nat {
    if objects < heads {
        objects
    } else {
        heads
    }
}

/// What a listing answers.
pub open spec fn page_view(bucket_name: Seq<char>, page: Page, objects: Seq<JsonView>) -> JsonView {
    JsonView::Object(
        seq![
            ("objects"@, JsonView::List(objects)),
            (
                "prefixes"@,
                JsonView::List(
                    page.prefixes@.map_values(
                        |p: String| JsonView::Text(unscoped(bucket_name, p@)),
                    ),
                ),
            ),
            ("truncated"@, JsonView::Bool(page.truncated)),
            (
                "cursor"@,
                match page.cursor {
                    Some(cursor) => JsonView::Text(unscoped(bucket_name, cursor@)),
                    None => JsonView::Null,
                },
            ),
        ],
    )
}

fn list_plain(bucket_name: &str, objects: &Vec<(String, BlobMeta)>) -> (r: Vec<Json>)
    ensures
        json::views(r@) == plain_objects(bucket_name@, objects@),
{
    let none = Envelope {
        custom: Vec::new(),
        http: HttpMeta {
            content_type: None,
            content_language: None,
            content_disposition: None,
            content_encoding: None,
            cache_control: None,
            cache_expiry: None,
        },
        checksums: Vec::new(),
        storage_class: None,
    };
    assert(none@.custom =~= no_envelope().custom);
    assert(none@.checksums =~= no_envelope().checksums);
    let mut r: Vec<Json> = Vec::new();
    let mut i: usize = 0;
    while i < objects.len()
        invariant
            i <= objects@.len(),
            r@.len() == i,
            none@ == no_envelope(),
            forall|k: int|
                0 <= k < i ==> (#[trigger] r@[k])@ == object_view(
                    unscoped(bucket_name@, objects@[k].0@),
                    objects@[k].1,
                    no_envelope(),
                    None,
                ),
        decreases objects.len() - i,
    {
        let key = unscope(bucket_name, objects[i].0.as_str());
        r.push(object_json(key.as_str(), &objects[i].1, &none, None));
        i = i + 1;
    }
    assert(json::views(r@) =~= plain_objects(bucket_name@, objects@));
    r
}

fn list_read(
    bucket_name: &str,
    objects: &Vec<(String, BlobMeta)>,
    heads: &Vec<Result<Option<(BlobMeta, Envelope)>, String>>,
) -> (r: Result<Vec<Json>, String>)
    ensures
        ({
            let all = read_objects(
                bucket_name@,
                objects@,
                heads@,
                looked_at(objects@.len(), heads@.len()),
            );
            match r {
                Ok(r) => all == Ok::<_, Seq<char>>(json::views(r@)),
                Err(error) => all == Err::<Seq<JsonView>, _>(error@),
            }
        }),
{
    let mut r: Vec<Json> = Vec::new();
    let mut i: usize = 0;
    assert(json::views(r@) =~= seq![]);
    while i < objects.len() && i < heads.len()
        invariant
            i <= objects@.len(),
            i <= heads@.len(),
            read_objects(bucket_name@, objects@, heads@, i as nat) == Ok::<_, Seq<char>>(
                json::views(r@),
            ),
        decreases objects.len() - i,
    {
        let ghost before = r@;
        match &heads[i] {
            Err(error) => {
                proof {
                    lemma_failed(
                        bucket_name@,
                        objects@,
                        heads@,
                        (i + 1) as nat,
                        looked_at(objects@.len(), heads@.len()),
                    );
                }
                return Err(error.clone());
            },
            Ok(None) => {},
            Ok(Some(found)) => {
                let key = unscope(bucket_name, objects[i].0.as_str());
                r.push(object_json(key.as_str(), &found.0, &found.1, None));
                assert(json::views(r@) =~= json::views(before).push(r@.last()@));
            },
        }
        i = i + 1;
    }
    Ok(r)
}

/// What a listing answers. `heads` is what was found of each object, where the
/// listing asks for the metadata.
pub fn list(
    bucket_name: &str,
    page: &Page,
    heads: Option<Vec<Result<Option<(BlobMeta, Envelope)>, String>>>,
) -> (r: Result<Json, String>)
    ensures
        match heads {
            None => r is Ok && r->Ok_0@ == page_view(
                bucket_name@,
                *page,
                plain_objects(bucket_name@, page.objects@),
            ),
            Some(heads) => match read_objects(
                bucket_name@,
                page.objects@,
                heads@,
                looked_at(page.objects@.len(), heads@.len()),
            ) {
                Ok(objects) => r is Ok && r->Ok_0@ == page_view(bucket_name@, *page, objects),
                Err(error) => r is Err && r->Err_0@ == error,
            },
        },
{
    let objects = match heads {
        None => list_plain(bucket_name, &page.objects),
        Some(heads) => match list_read(bucket_name, &page.objects, &heads) {
            Ok(objects) => objects,
            Err(error) => {
                return Err(error);
            },
        },
    };
    let mut prefixes: Vec<Json> = Vec::new();
    let mut i: usize = 0;
    while i < page.prefixes.len()
        invariant
            i <= page.prefixes@.len(),
            prefixes@.len() == i,
            forall|k: int|
                0 <= k < i ==> (#[trigger] prefixes@[k])@ == JsonView::Text(
                    unscoped(bucket_name@, page.prefixes@[k]@),
                ),
        decreases page.prefixes.len() - i,
    {
        prefixes.push(Json::Text(unscope(bucket_name, page.prefixes[i].as_str())));
        i = i + 1;
    }
    let mut members = json::Members::new();
    let ghost listed = json::views(objects@);
    members.put("objects", json::list(objects));
    proof {
        assert(json::views(prefixes@) =~= page.prefixes@.map_values(
            |p: String| JsonView::Text(unscoped(bucket_name@, p@)),
        ));
    }
    members.put("prefixes", json::list(prefixes));
    members.put("truncated", Json::Bool(page.truncated));
    members.put(
        "cursor",
        match &page.cursor {
            Some(cursor) => Json::Text(unscope(bucket_name, cursor.as_str())),
            None => Json::Null,
        },
    );
    assert(members@ =~= page_view(bucket_name@, *page, listed)->Object_0);
    Ok(members.object())
}

/// A page of a listing is answered with its objects, the names that others
/// begin with, whether more follow and where they do, each under its own name,
/// and the names without the bucket's own part.
pub proof fn pages_are_answered(bucket_name: Seq<char>, page: Page, objects: Seq<JsonView>)
    ensures
        ({
            let answer = page_view(bucket_name, page, objects);
            &&& answer.member("objects"@) == Some(JsonView::List(objects))
            &&& answer.member("truncated"@) == Some(JsonView::Bool(page.truncated))
            &&& match page.cursor {
                Some(cursor) => answer.member("cursor"@) == Some(
                    JsonView::Text(unscoped(bucket_name, cursor@)),
                ),
                None => answer.member("cursor"@) == Some(JsonView::Null),
            }
            &&& answer.member("prefixes"@) matches Some(JsonView::List(prefixes))
            &&& prefixes.len() == page.prefixes@.len()
            &&& forall|i: int|
                0 <= i < prefixes.len() ==> #[trigger] prefixes[i] == JsonView::Text(
                    unscoped(bucket_name, page.prefixes@[i]@),
                )
        }),
{
    reveal_strlit("objects");
    reveal_strlit("prefixes");
    reveal_strlit("truncated");
    reveal_strlit("cursor");
    assert("objects"@.len() == 7 && "prefixes"@.len() == 8);
    assert("truncated"@.len() == 9 && "cursor"@.len() == 6);
    let members = page_view(bucket_name, page, objects)->Object_0;
    json::a_member_is_found(members, 0);
    json::a_member_is_found(members, 1);
    json::a_member_is_found(members, 2);
    json::a_member_is_found(members, 3);
}

/// An object of a page is listed under the name that it was written by, with
/// what the bucket knows of it and without metadata of its own.
pub proof fn listed_objects_are_answered(
    bucket_name: Seq<char>,
    objects: Seq<(String, BlobMeta)>,
    i: int,
    key: Seq<char>,
)
    requires
        0 <= i < objects.len(),
        objects[i].0@ == "r2/"@ + bucket_name + "/"@ + key,
    ensures
        plain_objects(bucket_name, objects).len() == objects.len(),
        ({
            let answer = plain_objects(bucket_name, objects)[i];
            &&& answer.member("key"@) == Some(JsonView::Text(key))
            &&& answer.member("size"@) == Some(json::number(objects[i].1.size as int))
            &&& answer.member("uploaded"@) == Some(JsonView::Int(objects[i].1.uploaded_ms as int))
            &&& lists_pairs(answer.member("custom"@), seq![])
            &&& lists_pairs(answer.member("checksums"@), seq![])
            &&& answer.member("storageClass"@) == Some(JsonView::Text("Standard"@))
        }),
{
    listed_name_is_the_key(bucket_name, key);
    object_is_answered(key, objects[i].1, no_envelope(), None);
}

/// A listing that reads metadata answers the objects that are still there, in
/// their order, each with what was found of it, and none that is gone; it fails
/// exactly where one could not be read, with the first such error.
pub proof fn listed_metadata_is_answered(
    bucket_name: Seq<char>,
    objects: Seq<(String, BlobMeta)>,
    heads: Seq<Result<Option<(BlobMeta, Envelope)>, String>>,
    n: nat,
)
    requires
        n <= objects.len(),
        n <= heads.len(),
    ensures
        match read_objects(bucket_name, objects, heads, n) {
            Ok(listed) => {
                &&& forall|i: int| 0 <= i < n ==> (#[trigger] heads[i]) is Ok
                &&& listed.len() == still_there(heads, n)
                &&& forall|i: int|
                    0 <= i < n ==> ((#[trigger] heads[i]) matches Ok(Some((meta, envelope)))
                        ==> listed[still_there(heads, i as nat) as int] == object_view(
                        unscoped(bucket_name, objects[i].0@),
                        meta,
                        envelope@,
                        None,
                    ))
            },
            Err(error) => exists|i: int|
                {
                    &&& 0 <= i < n
                    &&& (#[trigger] heads[i]) matches Err(words) && words@ == error
                    &&& forall|k: int| 0 <= k < i ==> (#[trigger] heads[k]) is Ok
                },
        },
    decreases n,
{
    if n > 0 {
        let m = (n - 1) as nat;
        listed_metadata_is_answered(bucket_name, objects, heads, m);
        match read_objects(bucket_name, objects, heads, m) {
            Err(error) => {
                let i = choose|i: int|
                    {
                        &&& 0 <= i < m
                        &&& (#[trigger] heads[i]) matches Err(words) && words@ == error
                        &&& forall|k: int| 0 <= k < i ==> (#[trigger] heads[k]) is Ok
                    };
                assert(heads[i] is Err);
            },
            Ok(before) => {
                if heads[n - 1] is Err {
                    assert(forall|k: int| 0 <= k < n - 1 ==> (#[trigger] heads[k]) is Ok);
                } else {
                    let listed = read_objects(bucket_name, objects, heads, n)->Ok_0;
                    assert forall|i: int| 0 <= i < n implies ((#[trigger] heads[i]) matches Ok(Some(
                        (meta, envelope),
                    )) ==> listed[still_there(heads, i as nat) as int] == object_view(
                        unscoped(bucket_name, objects[i].0@),
                        meta,
                        envelope@,
                        None,
                    )) by {
                        if i < n - 1 && heads[i] matches Ok(Some(_)) {
                            lemma_counted(heads, i as nat, m);
                        }
                    }
                }
            },
        }
    }
}

/// How many of the first `n` objects are still there.
pub open spec fn still_there(
    heads: Seq<Result<Option<(BlobMeta, Envelope)>, String>>,
    n: nat,
) -> nat
    decreases n,
{
    if n == 0 {
        0
    } else {
        let before = still_there(heads, (n - 1) as nat);
        if heads[n - 1] matches Ok(Some(_)) {
            before + 1
        } else {
            before
        }
    }
}

proof fn lemma_counted(
    heads: Seq<Result<Option<(BlobMeta, Envelope)>, String>>,
    i: nat,
    n: nat,
)
    requires
        i < n <= heads.len(),
        heads[i as int] matches Ok(Some(_)),
    ensures
        still_there(heads, i) < still_there(heads, n),
    decreases n,
{
    if i < n - 1 {
        lemma_counted(heads, i, (n - 1) as nat);
    }
}

/// Whether an object of this tag and age meets what a request asks.
pub open spec fn meets(conditional: Conditional, etag: Seq<char>, uploaded_ms: int) -> bool {
    &&& conditional.etag_matches matches Some(wanted) ==> etag == wanted@
    &&& conditional.etag_does_not_match matches Some(unwanted) ==> etag != unwanted@
    &&& conditional.uploaded_before matches Some(at) ==> uploaded_ms < at
    &&& conditional.uploaded_after matches Some(at) ==> uploaded_ms > at
}

/// Whether an object of this tag and age is what the bucket is asked for.
pub open spec fn admits(conditions: BlobConditions, etag: Seq<char>, uploaded_ms: int) -> bool {
    &&& conditions.if_match matches Some(wanted) ==> etag == wanted@
    &&& conditions.if_none_match matches Some(unwanted) ==> etag != unwanted@
    &&& conditions.uploaded_before_ms matches Some(at) ==> uploaded_ms < at
    &&& conditions.uploaded_after_ms matches Some(at) ==> uploaded_ms > at
}

/// The bucket admits exactly the objects that meet what a request asks, and
/// every object where it asks nothing.
pub proof fn conditions_are_handed_on(
    only_if: Option<Conditional>,
    etag: Seq<char>,
    uploaded_ms: int,
)
    ensures
        admits(asked(only_if), etag, uploaded_ms) <==> (only_if matches Some(conditional)
            ==> meets(conditional, etag, uploaded_ms)),
{
}

/// A listing that goes on begins after its cursor, whatever it asked to start
/// after; an empty text is no place to begin after.
pub proof fn listings_go_on(request: ListRequest)
    ensures
        request.cursor matches Some(cursor) && cursor@.len() > 0 ==> list_after(request) == Some(
            request.cursor->Some_0@,
        ),
        (request.cursor is None || request.cursor->Some_0@.len() == 0) && (
        request.start_after is None || request.start_after->Some_0@.len() == 0) ==> list_after(
            request,
        ) is None,
        (request.cursor is None || request.cursor->Some_0@.len() == 0) && request.start_after is Some
            && request.start_after->Some_0@.len() > 0 ==> list_after(request) == Some(
            request.start_after->Some_0@,
        ),
{
}

/// The record that the bucket keeps holds the user's metadata, the checksums,
/// the HTTP metadata and the storage class, each under its own name; what there
/// is none of does not stand, but for the HTTP metadata.
pub proof fn records_hold_their_parts(envelope: EnvelopeView) -> (members: Seq<
    (Seq<char>, Seq<char>),
>)
    ensures
        envelope.text() == json::object_text(members),
        value_of(members, "custom"@) == (if envelope.custom.len() == 0 {
            None
        } else {
            Some(r2_record::pairs_text(envelope.custom))
        }),
        value_of(members, "http"@) == Some(envelope.http.text()),
        value_of(members, "checksums"@) == (if envelope.checksums.len() == 0 {
            None
        } else {
            Some(r2_record::pairs_text(envelope.checksums))
        }),
        value_of(members, "storageClass"@) == (match envelope.storage_class {
            Some(class) => Some(json::printed_json(JsonView::Text(class))),
            None => None,
        }),
{
    reveal_strlit("custom");
    reveal_strlit("http");
    reveal_strlit("checksums");
    reveal_strlit("storageClass");
    assert("custom"@.len() == 6 && "http"@.len() == 4);
    assert("checksums"@.len() == 9 && "storageClass"@.len() == 12);
    let a = r2_record::pairs_member("custom"@, envelope.custom);
    let b = seq![("http"@, envelope.http.text())];
    let c = r2_record::pairs_member("checksums"@, envelope.checksums);
    let d = r2_record::text_member("storageClass"@, envelope.storage_class);
    lemma_four_values(a, b, c, d, "custom"@);
    lemma_four_values(a, b, c, d, "http"@);
    lemma_four_values(a, b, c, d, "checksums"@);
    lemma_four_values(a, b, c, d, "storageClass"@);
    reveal_with_fuel(value_of, 2);
    a + b + c + d
}

proof fn lemma_four_values(
    a: Seq<(Seq<char>, Seq<char>)>,
    b: Seq<(Seq<char>, Seq<char>)>,
    c: Seq<(Seq<char>, Seq<char>)>,
    d: Seq<(Seq<char>, Seq<char>)>,
    name: Seq<char>,
)
    ensures
        value_of(a + b + c + d, name) == (match value_of(a, name) {
            Some(value) => Some(value),
            None => match value_of(b, name) {
                Some(value) => Some(value),
                None => match value_of(c, name) {
                    Some(value) => Some(value),
                    None => value_of(d, name),
                },
            },
        }),
{
    lemma_joined_values(a + b + c, d, name);
    lemma_joined_values(a + b, c, name);
    lemma_joined_values(a, b, name);
}

/// The HTTP metadata of a record stands each under its own name, where it is
/// there.
pub proof fn records_hold_http_metadata(http: HttpMetaView) -> (members: Seq<
    (Seq<char>, Seq<char>),
>)
    ensures
        http.text() == json::object_text(members),
        value_of(members, "contentType"@) == printed(http.content_type),
        value_of(members, "contentLanguage"@) == printed(http.content_language),
        value_of(members, "contentDisposition"@) == printed(http.content_disposition),
        value_of(members, "contentEncoding"@) == printed(http.content_encoding),
        value_of(members, "cacheControl"@) == printed(http.cache_control),
        value_of(members, "cacheExpiry"@) == (match http.cache_expiry {
            Some(at) => Some(text::signed_decimal(at as int)),
            None => None,
        }),
{
    lemma_http_names();
    let a = r2_record::text_member("contentType"@, http.content_type);
    let b = r2_record::text_member("contentLanguage"@, http.content_language);
    let c = r2_record::text_member("contentDisposition"@, http.content_disposition);
    let d = r2_record::text_member("contentEncoding"@, http.content_encoding);
    let e = r2_record::text_member("cacheControl"@, http.cache_control);
    let f = r2_record::number_member("cacheExpiry"@, http.cache_expiry);
    let all = a + b + c + d + e + f;
    assert forall|name: Seq<char>| #[trigger]
        value_of(all, name) == one_value(
            a,
            name,
            one_value(
                b,
                name,
                one_value(c, name, one_value(d, name, one_value(e, name, one_value(f, name, None)))),
            ),
        ) by {
        lemma_joined_values(a + b + c + d + e, f, name);
        lemma_joined_values(a + b + c + d, e, name);
        lemma_four_values(a, b, c, d, name);
        reveal_with_fuel(value_of, 2);
    }
    all
}

/// A text as JSON writes it, where there is one.
pub open spec fn printed(t: Option<Seq<char>>) -> Option<Seq<char>> {
    match t {
        Some(t) => Some(json::printed_json(JsonView::Text(t))),
        None => None,
    }
}

/// The value of a list's only pair, where it has the name.
spec fn one_value(
    pairs: Seq<(Seq<char>, Seq<char>)>,
    name: Seq<char>,
    other: Option<Seq<char>>,
) -> Option<Seq<char>> {
    if pairs.len() > 0 && pairs[0].0 == name {
        Some(pairs[0].1)
    } else {
        other
    }
}

/// As many objects are looked at as there are both in the page and among what
/// was found.
pub proof fn listings_look_at_each_object(objects: nat, heads: nat)
    ensures
        looked_at(objects, heads) <= objects,
        looked_at(objects, heads) <= heads,
        looked_at(objects, heads) == objects || looked_at(objects, heads) == heads,
{
}

/// A write that goes on is to the same object of the same bucket, with what it
/// asked for; only a write that was handed over asks for nothing any more.
pub proof fn writes_go_on_as_they_began<U>(a: PutStream<U>, b: PutStream<U>, request: PutRequest)
    ensures
        a.same_write(&b) ==> a.bucket_name@ == b.bucket_name@ && a.key@ == b.key@ && a.request
            == b.request && a.touched == b.touched,
        asks_nothing(request) ==> {
            &&& request.custom@.len() == 0 && request.verify@.len() == 0
            &&& request.storage_class is None && request.only_if is None
            &&& request.http.content_type is None && request.http.content_language is None
            &&& request.http.content_disposition is None && request.http.content_encoding is None
            &&& request.http.cache_control is None && request.http.cache_expiry is None
        },
{
}

/// A body is written in parts of eight mebibytes, a page lists a thousand objects
/// at most and reads the metadata of sixteen at once; a condition that such a
/// body cannot be held to is refused with the size.
pub proof fn sizes_are_as_told(key: Seq<char>)
    ensures
        STREAM_PART == 8 * 1024 * 1024,
        LIST_LIMIT == 1000,
        LIST_HEADS == 16,
        conditional_stream_error(key) == "R2 put of "@ + key
            + ": celld cannot apply `onlyIf` to a streamed body larger than "@ + text::decimal(
            STREAM_PART as nat,
        )
            + " bytes, because it is written as a multipart upload and a multipart completion takes no precondition"@,
{
    reveal_strlit("R2 put of ");
    reveal_strlit(": celld cannot apply `onlyIf` to a streamed body larger than ");
    reveal_strlit(
        " bytes, because it is written as a multipart upload and a multipart completion takes no precondition",
    );
    reveal_strlit(
        ": celld cannot apply `onlyIf` to a streamed body larger than 8388608 bytes, because it is written as a multipart upload and a multipart completion takes no precondition",
    );
    reveal_with_fuel(text::decimal, 8);
    assert(text::decimal(8388608) =~= seq!['8', '3', '8', '8', '6', '0', '8']);
    assert(conditional_stream_error(key) =~= "R2 put of "@ + key
        + ": celld cannot apply `onlyIf` to a streamed body larger than "@ + text::decimal(8388608)
        + " bytes, because it is written as a multipart upload and a multipart completion takes no precondition"@);
}

/// A checksum is taken exactly where the caller asserts it, but for MD5, which
/// is taken where it is wanted anyway too.
pub proof fn asserted_checksums_are_taken(
    asserted: Seq<(Seq<char>, Seq<char>)>,
    md5: bool,
    algorithm: Algorithm,
)
    ensures
        wanted_checksums(asserted, md5).contains(algorithm) <==> {
            ||| lists_name(asserted, checksum_name(algorithm))
            ||| md5 && algorithm == Algorithm::Md5
        },
{
    lemma_named_value(asserted, checksum_name(algorithm));
}

/// A checksum that is not the body's is refused with the body's own before the
/// one that was claimed; one that nobody takes is refused by its name.
pub proof fn wrong_checksums_are_told(
    name: Seq<char>,
    claimed: Seq<char>,
    computed: Seq<(Seq<char>, Seq<char>)>,
)
    ensures
        match value_of(computed, name) {
            None => checksum_error(name, claimed, computed) == Some(
                "R2 put: celld cannot check a "@ + name + " checksum"@,
            ),
            Some(actual) => {
                let wanted = text::lower(text::trimmed(claimed));
                &&& actual == wanted <==> checksum_error(name, claimed, computed) is None
                &&& actual != wanted ==> (checksum_error(name, claimed, computed) matches Some(words)
                    && text::has_prefix(
                    words,
                    "R2 put: the "@ + name + " checksum of the body is "@ + actual + ", not the "@
                        + wanted,
                ))
            },
        },
{
    if let Some(actual) = value_of(computed, name) {
        let wanted = text::lower(text::trimmed(claimed));
        let head = "R2 put: the "@ + name + " checksum of the body is "@ + actual + ", not the "@
            + wanted;
        if actual != wanted {
            let words = checksum_error(name, claimed, computed)->Some_0;
            assert(words.subrange(0, head.len() as int) =~= head);
        }
    }
}

} // verus!
