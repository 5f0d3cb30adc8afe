//! R2 objects, their metadata, and uploads in parts.
use cells::digests::Algorithm;
use cells::http_streams::HTTP_STREAM_REGISTRATION_CLOSED;
use cells::r2_ops;
use cells::r2_ops::{BlobRead, CompleteAction, Standing, UploadEntry};
use cells::r2_store;
use cells::r2_store::{
    BlobAttributes, BlobMeta, BlobRange, Conditional, Digests, Envelope, FinishAction, HttpMeta,
    ListRequest, Page, PartAction, PutRequest, PutStream, Range,
};
use sha2::Digest;

fn pairs(items: &[(&str, &str)]) -> Vec<(String, String)> {
    items.iter().map(|(a, b)| (a.to_string(), b.to_string())).collect()
}

fn no_http() -> HttpMeta {
    HttpMeta {
        content_type: None,
        content_language: None,
        content_disposition: None,
        content_encoding: None,
        cache_control: None,
        cache_expiry: None,
    }
}

fn request(verify: &[(&str, &str)]) -> PutRequest {
    PutRequest {
        http: no_http(),
        custom: pairs(&[("a", "1")]),
        storage_class: None,
        only_if: None,
        verify: pairs(verify),
    }
}

fn envelope() -> Envelope {
    Envelope {
        custom: pairs(&[("a", "1")]),
        http: HttpMeta { content_type: Some("text/plain".into()), ..no_http() },
        checksums: pairs(&[("md5", "00")]),
        storage_class: None,
    }
}

fn meta() -> BlobMeta {
    BlobMeta { size: 5, etag: Some("e".into()), version: None, uploaded_ms: 9 }
}

fn hex(bytes: &[u8]) -> String {
    bytes.iter().map(|byte| format!("{byte:02x}")).collect()
}

#[test]
fn objects_lie_under_their_bucket() {
    assert_eq!(r2_store::blob_key("b", "k/x"), "r2/b/k/x");
    assert_eq!(r2_store::unscope("b", "r2/b/k/x"), "k/x");
    assert_eq!(r2_store::unscope("b", "r2/c/k"), "r2/c/k");
    assert_eq!(
        r2_store::no_store(),
        "R2 bindings need a fleet bucket: start celld with --bucket (or CELLD_BUCKET)"
    );
}

fn stored(attributes: &BlobAttributes) -> &str {
    let (name, text) = &attributes.metadata[0];
    assert_eq!(name, "celld-r2");
    text
}

fn texts(value: &serde_json::Value) -> Vec<(String, String)> {
    let members = value.as_object().into_iter().flatten();
    members.map(|(name, value)| (name.clone(), value.as_str().unwrap().to_string())).collect()
}

#[test]
fn envelopes_read_back() {
    let mut full = envelope();
    full.custom = pairs(&[("a", "\u{e9}\u{1F600}\"\n"), ("\u{fc}", "")]);
    full.http.cache_expiry = Some(-7);
    full.storage_class = Some("Standard".into());
    let written = full.write();
    assert_eq!(written.content_type.as_deref(), Some("text/plain"));
    let text = Envelope::stored(&written).unwrap();
    assert!(text.is_ascii());
    assert!(text.contains("\\u00e9\\ud83d\\ude00"));
    let value: serde_json::Value = serde_json::from_str(text).unwrap();
    let parsed = Envelope {
        custom: texts(&value["custom"]),
        http: HttpMeta { cache_expiry: value["http"]["cacheExpiry"].as_i64(), ..no_http() },
        checksums: texts(&value["checksums"]),
        storage_class: value["storageClass"].as_str().map(String::from),
    };
    let read = Envelope::read(&written, Some(parsed));
    assert_eq!(read.custom, full.custom);
    assert_eq!(read.checksums, full.checksums);
    assert_eq!(read.storage_class, full.storage_class);
    assert_eq!(read.http.content_type, full.http.content_type);
    assert_eq!(read.http.cache_expiry, Some(-7));
}

#[test]
fn records_keep_the_order_of_their_fields() {
    assert_eq!(
        stored(&envelope().write()),
        "{\"custom\":{\"a\":\"1\"},\"http\":{\"contentType\":\"text/plain\"},\
         \"checksums\":{\"md5\":\"00\"}}"
    );
    let bare = Envelope {
        custom: vec![],
        http: no_http(),
        checksums: vec![],
        storage_class: Some("S".into()),
    };
    assert_eq!(stored(&bare.write()), "{\"http\":{},\"storageClass\":\"S\"}");
    let full = Envelope {
        custom: pairs(&[("a", "1"), ("b", "2")]),
        http: HttpMeta {
            content_type: Some("t".into()),
            content_language: Some("l".into()),
            content_disposition: Some("d".into()),
            content_encoding: Some("e".into()),
            cache_control: Some("c".into()),
            cache_expiry: Some(5),
        },
        checksums: vec![],
        storage_class: None,
    };
    assert_eq!(
        stored(&full.write()),
        "{\"custom\":{\"a\":\"1\",\"b\":\"2\"},\"http\":{\"contentType\":\"t\",\
         \"contentLanguage\":\"l\",\"contentDisposition\":\"d\",\"contentEncoding\":\"e\",\
         \"cacheControl\":\"c\",\"cacheExpiry\":5}}"
    );
}

#[test]
fn foreign_metadata_is_the_users() {
    let attributes = BlobAttributes {
        content_type: None,
        content_language: Some("de".into()),
        content_disposition: None,
        content_encoding: None,
        cache_control: None,
        metadata: pairs(&[("b", "1"), ("a", "2"), ("b", "3")]),
    };
    assert_eq!(Envelope::stored(&attributes), None);
    let read = Envelope::read(&attributes, None);
    assert_eq!(read.custom, pairs(&[("a", "2"), ("b", "3")]));
    assert_eq!(read.http.content_language.as_deref(), Some("de"));
    assert!(read.checksums.is_empty());
}

#[test]
fn objects_are_written_as_json() {
    let object = r2_store::object_json("k", &meta(), &envelope(), Some((1, 2)));
    assert_eq!(object.get("key").and_then(|t| t.as_str()), Some("k"));
    assert_eq!(object.get("version").and_then(|t| t.as_str()), Some("e"));
    assert_eq!(object.get("storageClass").and_then(|t| t.as_str()), Some("Standard"));
    assert_eq!(
        object.get("range").and_then(|r| r.get("length")).and_then(|n| n.as_i64()),
        Some(2)
    );
    assert_eq!(
        object.get("http").and_then(|h| h.get("contentType")).and_then(|t| t.as_str()),
        Some("text/plain")
    );
}

#[test]
fn ranges_and_conditions_are_mapped() {
    assert_eq!(r2_store::blob_range(None), BlobRange::Whole);
    let range = |offset, length, suffix| Some(Range { offset, length, suffix });
    assert_eq!(r2_store::blob_range(range(Some(3), Some(4), Some(5))), BlobRange::Suffix(5));
    assert_eq!(
        r2_store::blob_range(range(None, Some(4), None)),
        BlobRange::Bounded { offset: 0, length: 4 }
    );
    assert_eq!(r2_store::blob_range(range(Some(3), None, None)), BlobRange::From(3));
    let conditions = r2_store::blob_conditions(Some(Conditional {
        etag_matches: Some("m".into()),
        etag_does_not_match: None,
        uploaded_before: Some(1),
        uploaded_after: None,
    }));
    assert_eq!(conditions.if_match.as_deref(), Some("m"));
    assert_eq!(conditions.uploaded_before_ms, Some(1));
    assert!(r2_store::blob_conditions(None).if_match.is_none());
}

#[test]
fn checksums_are_those_of_the_hash_crates() {
    let body = b"hello world";
    let mut digests = Digests::wanted(
        &pairs(&[("sha1", ""), ("sha256", ""), ("sha384", ""), ("sha512", "")]),
        true,
    );
    digests.update(&body[..5]);
    digests.update(&body[5..]);
    let computed = digests.finish();
    let names: Vec<&str> = computed.iter().map(|(name, _)| name.as_str()).collect();
    assert_eq!(names, ["md5", "sha1", "sha256", "sha384", "sha512"]);
    assert_eq!(computed[0].1, "5eb63bbbe01eeed093cb22bb8f5acdc3");
    assert_eq!(computed[1].1, hex(&sha1::Sha1::digest(body)));
    assert_eq!(computed[2].1, hex(&sha2::Sha256::digest(body)));
    assert_eq!(computed[3].1, hex(&sha2::Sha384::digest(body)));
    assert_eq!(computed[4].1, hex(&sha2::Sha512::digest(body)));
    let _ = Algorithm::Md5;
}

#[test]
fn asserted_checksums_are_verified() {
    let md5 = "5eb63bbbe01eeed093cb22bb8f5acdc3";
    let (stored, conditions) =
        r2_store::put_once(b"hello world", request(&[("md5", &format!(" {} ", md5.to_uppercase()))]))
            .ok()
            .unwrap();
    assert_eq!(stored.checksums, pairs(&[("md5", md5)]));
    assert!(conditions.if_match.is_none());
    assert_eq!(
        r2_store::put_once(b"hello world", request(&[("md5", "00")])).err(),
        Some(format!(
            "R2 put: the md5 checksum of the body is {md5}, not the 00 the caller asserted"
        ))
    );
    assert_eq!(
        r2_store::put_once(b"", request(&[("crc", "00")])).err(),
        Some("R2 put: celld cannot check a crc checksum".to_string())
    );
}

#[test]
fn writes_are_answered() {
    assert_eq!(r2_store::put_reply("k", None), "{\"stored\":false}");
    let stored = r2_store::put_reply("k", Some((&meta(), &envelope())));
    assert!(stored.contains("\"stored\":true"));
    assert!(stored.contains("\"key\":\"k\""));
}

#[test]
fn small_streams_are_written_at_once() {
    let mut put: PutStream<u8> =
        r2_store::open_put("b".into(), "k".into(), request(&[]), 1);
    put.push(b"abc");
    put.push(b"def");
    assert!(matches!(put.part(), PartAction::Wait));
    assert_eq!(put.size, 6);
    match put.finish() {
        FinishAction::Once { bucket_name, key, body, .. } => {
            assert_eq!((bucket_name.as_str(), key.as_str()), ("b", "k"));
            assert_eq!(body, b"abcdef");
        }
        FinishAction::Close { .. } => panic!("nothing was uploaded"),
    }
}

#[test]
fn large_streams_go_up_in_parts() {
    let part = r2_store::STREAM_PART;
    let mut put: PutStream<u8> =
        r2_store::open_put("b".into(), "k".into(), request(&[]), 1);
    let body: Vec<u8> = (0..part + 10).map(|i| (i % 251) as u8).collect();
    put.push(&body);
    match put.part() {
        PartAction::Begin { part: first, .. } => assert_eq!(first, body[..part]),
        _ => panic!("the first part begins the upload"),
    }
    put.begun(9);
    assert!(matches!(put.part(), PartAction::Wait));
    match put.finish() {
        FinishAction::Close { upload, last } => {
            assert_eq!(upload, 9);
            assert_eq!(last, Some(body[part..].to_vec()));
        }
        FinishAction::Once { .. } => panic!("an upload was begun"),
    }
    assert_eq!(put.check(None), Ok(()));
    let (meta, _) = put.completed(Some("e".into()), None, 4);
    assert_eq!(meta.size, (part + 10) as u64);
}

#[test]
fn large_streams_are_checked_and_take_no_conditions() {
    let part = r2_store::STREAM_PART;
    let body = vec![7u8; part + 1];
    let mut asked = request(&[]);
    asked.only_if = Some(Conditional {
        etag_matches: Some("e".into()),
        etag_does_not_match: None,
        uploaded_before: None,
        uploaded_after: None,
    });
    let mut put: PutStream<u8> = r2_store::open_put("b".into(), "k".into(), asked, 1);
    put.push(&body);
    match put.part() {
        PartAction::Refuse { error } => {
            assert!(error.starts_with("R2 put of k: celld cannot apply `onlyIf`"));
            assert!(error.contains("8388608 bytes"));
        }
        _ => panic!("a condition on parts is refused"),
    }
    let sha = hex(&sha2::Sha256::digest(&body));
    let mut put: PutStream<u8> =
        r2_store::open_put("b".into(), "k".into(), request(&[("sha256", &sha)]), 1);
    put.push(&body);
    assert!(matches!(put.part(), PartAction::Begin { .. }));
    put.begun(1);
    put.finish();
    assert_eq!(put.check(None), Ok(()));
    let mut put: PutStream<u8> =
        r2_store::open_put("b".into(), "k".into(), request(&[("sha256", "00")]), 1);
    put.push(&body);
    put.part();
    put.begun(1);
    put.finish();
    assert!(put.check(None).err().unwrap().contains("sha256 checksum of the body is"));
    let mut put: PutStream<u8> = r2_store::open_put("b".into(), "k".into(), request(&[]), 1);
    assert_eq!(put.check(Some("gone".into())), Err("R2 put of k: gone".to_string()));
}

#[test]
fn deletions_are_counted() {
    assert_eq!(
        r2_store::delete_keys("b", &vec!["x".to_string(), "y".to_string()]),
        ["r2/b/x", "r2/b/y"]
    );
    assert_eq!(r2_store::delete(2, 2), Ok(()));
    assert_eq!(
        r2_store::delete(1, 2),
        Err("R2 delete removed 1 of 2 keys; the rest failed".to_string())
    );
}

#[test]
fn listings_are_scoped() {
    let ask = |cursor: Option<&str>, start_after: Option<&str>, limit: Option<i64>| {
        r2_store::list_query(
            "b",
            ListRequest {
                prefix: "p".into(),
                cursor: cursor.map(|t| t.to_string()),
                start_after: start_after.map(|t| t.to_string()),
                limit,
                delimiter: None,
            },
        )
    };
    let query = ask(Some("c"), Some("s"), Some(5));
    assert_eq!(query.prefix, "r2/b/p");
    assert_eq!(query.after.as_deref(), Some("r2/b/c"));
    assert_eq!(query.limit, 5);
    assert_eq!(ask(Some(""), Some("s"), None).after.as_deref(), Some("r2/b/s"));
    assert_eq!(ask(None, Some(""), None).after, None);
    assert_eq!(ask(None, None, Some(-1)).limit, 1000);
    assert_eq!(ask(None, None, Some(5000)).limit, 1000);
}

fn page() -> Page {
    Page {
        objects: vec![("r2/b/k".into(), meta()), ("r2/b/l".into(), meta())],
        prefixes: vec!["r2/b/dir/".into()],
        truncated: true,
        cursor: Some("r2/b/l".into()),
    }
}

#[test]
fn pages_are_answered() {
    let plain = r2_store::list("b", &page(), None).ok().unwrap();
    assert_eq!(plain.get("objects").unwrap().as_array().unwrap().len(), 2);
    assert_eq!(plain.get("prefixes").unwrap().as_array().unwrap()[0].as_str(), Some("dir/"));
    assert_eq!(plain.get("cursor").and_then(|t| t.as_str()), Some("l"));
    let heads = vec![Ok(None), Ok(Some((meta(), envelope())))];
    let read = r2_store::list("b", &page(), Some(heads)).ok().unwrap();
    let objects = read.get("objects").unwrap().as_array().unwrap();
    assert_eq!(objects.len(), 1);
    assert_eq!(objects[0].get("key").and_then(|t| t.as_str()), Some("l"));
    let failing = vec![Ok(None), Err("denied".to_string())];
    assert_eq!(r2_store::list("b", &page(), Some(failing)).err(), Some("denied".to_string()));
}

#[test]
fn reads_are_answered() {
    assert_eq!(r2_ops::head_reply("k", None), "{\"state\":\"miss\"}");
    assert!(r2_ops::head_reply("k", Some((&meta(), &envelope()))).contains("\"state\":\"hit\""));
    assert_eq!(r2_ops::get_reply("k", &BlobRead::Missing), Ok("{\"state\":\"miss\"}".to_string()));
    let unmet = BlobRead::Unmet { meta: meta(), envelope: envelope() };
    assert!(r2_ops::get_reply("k", &unmet).unwrap().contains("\"state\":\"unmet\""));
    let hit = |stream_id| BlobRead::Hit {
        meta: meta(),
        envelope: envelope(),
        range: (0, 5),
        stream_id,
    };
    assert!(r2_ops::get_reply("k", &hit(Some(3))).unwrap().contains("\"streamId\":3"));
    assert_eq!(
        r2_ops::get_reply("k", &hit(None)),
        Err(format!("R2 get: {HTTP_STREAM_REGISTRATION_CLOSED}"))
    );
}

#[test]
fn workers_hand_over_bytes_and_numbers() {
    assert_eq!(r2_ops::handle(Some(-1)), 0);
    assert_eq!(r2_ops::handle(None), 0);
    assert_eq!(r2_ops::part_number(Some(4294967298)), 2);
    assert_eq!(r2_ops::put_body(Some(vec![1])), Ok(vec![1]));
    assert!(r2_ops::put_body(None).is_err());
    assert!(r2_ops::put_chunk(None).is_err());
    assert_eq!(
        r2_ops::part_body(3, 2, None),
        Err("R2 multipart part 2 of upload 3 must be an ArrayBuffer view".to_string())
    );
    assert_eq!(r2_ops::invalid("get options", "x"), "invalid R2 get options: x");
    assert_eq!(r2_ops::put_not_open(4), "R2 streaming write 4 is not open");
    assert_eq!(r2_ops::upload_not_open(4), "R2 multipart upload 4 is not open");
    assert_eq!(r2_ops::part_reply(2), "{\"partNumber\":2}");
    assert_eq!(
        r2_ops::upload_failed("abort", 1, "x"),
        "R2 multipart abort of upload 1: x"
    );
}

#[test]
fn idle_writes_are_reaped() {
    let standing = vec![
        Standing { id: 1, free: true, touched: 0 },
        Standing { id: 2, free: false, touched: 0 },
        Standing { id: 3, free: true, touched: 1 },
    ];
    assert_eq!(r2_ops::reap(&standing, 3_600_000), [1]);
    assert!(r2_ops::reap(&standing, 0).is_empty());
}

fn upload() -> UploadEntry {
    UploadEntry::begin("b".into(), "k".into(), envelope(), 0)
}

#[test]
fn parts_are_written_in_order() {
    let mut upload = upload();
    assert_eq!(upload.part(7, 2, vec![2; 3], 1), Ok(()));
    assert!(upload.drain().is_none());
    assert_eq!(upload.held, 3);
    assert_eq!(upload.part(7, 2, vec![9; 4], 2), Ok(()));
    assert_eq!(upload.held, 4);
    assert_eq!(upload.part(7, 1, vec![1; 2], 3), Ok(()));
    assert_eq!(upload.drain(), Some((1, vec![1; 2])));
    assert_eq!(upload.drained(1, None), Ok(()));
    assert_eq!(upload.drain(), Some((2, vec![9; 4])));
    assert_eq!(
        upload.drained(2, Some("slow down".into())),
        Err("R2 multipart part 2 of k: slow down".to_string())
    );
    assert_eq!(upload.held, 0);
    assert_eq!(upload.written, 6);
    assert_eq!(upload.next(), 2);
    let again = upload.part(7, 1, vec![1], 4).err().unwrap();
    assert!(again.starts_with(
        "R2 multipart part 1 of upload 7 was already handed to the object store"
    ));
}

#[test]
fn parts_that_run_ahead_are_bounded() {
    let mut upload = upload();
    upload.part(7, 2, vec![0; r2_ops::PART_BACKLOG], 1).unwrap();
    let refused = upload.part(7, 3, vec![0], 1).err().unwrap();
    assert!(refused.starts_with(
        "R2 multipart upload 7 is holding 268435456 bytes of parts waiting for part 1:"
    ));
    assert_eq!(upload.part(7, 2, vec![0], 1), Ok(()));
    assert_eq!(upload.held, 1);
}

#[test]
fn uploads_complete_as_claimed() {
    let mut upload = upload();
    upload.part(7, 1, vec![1], 1).unwrap();
    upload.part(7, 4, vec![4, 4], 1).unwrap();
    let (first, _) = upload.drain().unwrap();
    upload.drained(first, None).unwrap();
    match upload.complete(7, &vec![2]) {
        CompleteAction::Refuse { error } => assert!(error.starts_with(
            "R2 multipart complete of upload 7 names [2], which does not start with the parts \
             already written in order ([1]);"
        )),
        _ => panic!("what was written cannot be rewritten"),
    }
    match upload.complete(7, &vec![1, 3]) {
        CompleteAction::Refuse { error } => assert_eq!(
            error,
            "R2 multipart complete of upload 7 names part 3, which was never uploaded"
        ),
        _ => panic!("a part must have come"),
    }
    match upload.complete(7, &vec![1, 4]) {
        CompleteAction::Put { number, part } => {
            assert_eq!((number, part), (4, vec![4, 4]));
        }
        _ => panic!("the waiting part is written"),
    }
    assert_eq!(
        upload.completed_part(7, 4, Some("x".into())),
        Err("R2 multipart part 4 of upload 7: x".to_string())
    );
    assert_eq!(upload.completed_part(7, 4, None), Ok(()));
    assert!(matches!(upload.complete(7, &vec![1, 4]), CompleteAction::Close));
    let reply = upload.completed(Some("e".into()), None, 1);
    assert!(reply.contains("\"size\":3"));
}

#[test]
fn uploads_are_resumed_where_they_are_open() {
    let upload = upload();
    assert_eq!(r2_ops::resume(Some(&upload), "b", "k", "7"), Ok("7".to_string()));
    assert_eq!(
        r2_ops::resume(Some(&upload), "b", "other", "7"),
        Err("R2 multipart upload 7 was opened for another key or binding".to_string())
    );
    assert!(r2_ops::resume(None, "b", "k", "7")
        .err()
        .unwrap()
        .starts_with("R2 multipart upload 7 is not open on this node:"));
    assert_eq!(r2_ops::upload_number("12"), Some(12));
    assert_eq!(r2_ops::upload_number("x"), None);
    assert!(r2_ops::upload_envelope(request(&[("md5", "0")])).checksums.is_empty());
}

#[test]
fn handed_over_keys_and_parts_are_read() {
    assert_eq!(
        r2_ops::delete_list("b", "[\"k\",\"d\\/e\"]"),
        Ok(vec!["r2/b/k".to_string(), "r2/b/d/e".to_string()])
    );
    assert!(r2_ops::delete_list("b", "\"k\"")
        .unwrap_err()
        .starts_with("invalid R2 delete key list: "));
    assert_eq!(r2_ops::claimed_parts("[1, 2,3]"), Ok(vec![1, 2, 3]));
    assert!(r2_ops::claimed_parts("[-1]")
        .unwrap_err()
        .starts_with("invalid R2 multipart part list: "));
}
