//! The record of an R2 object: the text that the bucket keeps as the object's
//! metadata.
use vstd::prelude::*;
#[allow(unused_imports)]
use vstd::string::*;

use crate::json;
#[allow(unused_imports)]
use crate::json::JsonView;
#[allow(unused_imports)]
use crate::r2_store::{pair_views, Envelope, EnvelopeView, HttpMeta, HttpMetaView};
#[allow(unused_imports)]
use crate::text;

verus! {

/// A member that stands only where there is a text for it.
pub open spec fn text_member(name: Seq<char>, value: Option<Seq<char>>) -> Seq<
    (Seq<char>, Seq<char>),
> {
    match value {
        Some(t) => seq![(name, json::printed_json(JsonView::Text(t)))],
        None => seq![],
    }
}

/// A member that stands only where there is a number for it.
pub open spec fn number_member(name: Seq<char>, value: Option<i64>) -> Seq<
    (Seq<char>, Seq<char>),
> {
    match value {
        Some(n) => seq![(name, text::signed_decimal(n as int))],
        None => seq![],
    }
}

/// Names and their values as an object's text.
pub open spec fn pairs_text(pairs: Seq<(Seq<char>, Seq<char>)>) -> Seq<char> {
    json::object_text(
        pairs.map_values(
            |p: (Seq<char>, Seq<char>)| (p.0, json::printed_json(JsonView::Text(p.1))),
        ),
    )
}

/// A member that stands only where there are names.
pub open spec fn pairs_member(name: Seq<char>, pairs: Seq<(Seq<char>, Seq<char>)>) -> Seq<
    (Seq<char>, Seq<char>),
> {
    if pairs.len() == 0 {
        seq![]
    } else {
        seq![(name, pairs_text(pairs))]
    }
}

impl HttpMetaView {
    pub open spec fn text(self) -> Seq<char> {
        json::object_text(
            text_member("contentType"@, self.content_type) + text_member(
                "contentLanguage"@,
                self.content_language,
            ) + text_member("contentDisposition"@, self.content_disposition) + text_member(
                "contentEncoding"@,
                self.content_encoding,
            ) + text_member("cacheControl"@, self.cache_control) + number_member(
                "cacheExpiry"@,
                self.cache_expiry,
            ),
        )
    }
}

impl EnvelopeView {
    /// The record's text.
    pub open spec fn text(self) -> Seq<char> {
        json::object_text(
            pairs_member("custom"@, self.custom) + seq![("http"@, self.http.text())]
                + pairs_member("checksums"@, self.checksums) + text_member(
                "storageClass"@,
                self.storage_class,
            ),
        )
    }
}

fn write_pairs(pairs: &Vec<(String, String)>) -> (r: String)
    ensures
        r@ == pairs_text(pair_views(pairs@)),
{
    let ghost all = pair_views(pairs@);
    let ghost wanted = all.map_values(
        |p: (Seq<char>, Seq<char>)| (p.0, json::printed_json(JsonView::Text(p.1))),
    );
    let mut object = json::ObjectText::new();
    let mut i: usize = 0;
    assert(object@ =~= wanted.take(0));
    while i < pairs.len()
        invariant
            i <= pairs@.len(),
            object.wf(),
            all == pair_views(pairs@),
            wanted == all.map_values(
                |p: (Seq<char>, Seq<char>)| (p.0, json::printed_json(JsonView::Text(p.1))),
            ),
            object@ == wanted.take(i as int),
        decreases pairs.len() - i,
    {
        let value = json::json_text(&json::string(pairs[i].1.as_str()));
        object.put(pairs[i].0.as_str(), value.as_str());
        assert(all[i as int] == (pairs@[i as int].0@, pairs@[i as int].1@));
        i = i + 1;
        assert(object@ =~= wanted.take(i as int));
    }
    assert(wanted.take(i as int) =~= wanted);
    object.finish()
}

fn put_pairs(object: &mut json::ObjectText, name: &str, pairs: &Vec<(String, String)>)
    requires
        old(object).wf(),
    ensures
        final(object).wf(),
        final(object)@ == old(object)@ + pairs_member(name@, pair_views(pairs@)),
{
    if pairs.len() > 0 {
        let written = write_pairs(pairs);
        object.put(name, written.as_str());
    }
    assert(object@ =~= old(object)@ + pairs_member(name@, pair_views(pairs@)));
}

fn write_http(http: &HttpMeta) -> (r: String)
    ensures
        r@ == http@.text(),
{
    let mut object = json::ObjectText::new();
    object.put_text("contentType", &http.content_type);
    object.put_text("contentLanguage", &http.content_language);
    object.put_text("contentDisposition", &http.content_disposition);
    object.put_text("contentEncoding", &http.content_encoding);
    object.put_text("cacheControl", &http.cache_control);
    if let Some(n) = http.cache_expiry {
        let written = text::signed_decimal_text(n);
        object.put("cacheExpiry", written.as_str());
    }
    assert(object@ =~= text_member("contentType"@, http@.content_type) + text_member(
        "contentLanguage"@,
        http@.content_language,
    ) + text_member("contentDisposition"@, http@.content_disposition) + text_member(
        "contentEncoding"@,
        http@.content_encoding,
    ) + text_member("cacheControl"@, http@.cache_control) + number_member(
        "cacheExpiry"@,
        http@.cache_expiry,
    ));
    object.finish()
}

/// The record's text in ASCII: the bucket's metadata takes no other
/// characters. The user's metadata and the checksums stand only where there
/// are any, and what is not set does not stand.
pub fn text_of(envelope: &Envelope) -> (r: String)
    ensures
        r@ == json::ascii(envelope@.text()),
{
    let mut object = json::ObjectText::new();
    put_pairs(&mut object, "custom", &envelope.custom);
    let http = write_http(&envelope.http);
    object.put("http", http.as_str());
    put_pairs(&mut object, "checksums", &envelope.checksums);
    object.put_text("storageClass", &envelope.storage_class);
    assert(object@ =~= pairs_member("custom"@, envelope@.custom) + seq![
        ("http"@, envelope@.http.text()),
    ] + pairs_member("checksums"@, envelope@.checksums) + text_member(
        "storageClass"@,
        envelope@.storage_class,
    ));
    let text = object.finish();
    json::ascii_json(text.as_str())
}

} // verus!
