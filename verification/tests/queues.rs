//! Queue policy requests, dispatches and settings; values kept as blobs.
use cells::json;
use cells::json::Json;
use cells::kv_blob;
use cells::kv_blob::{BlobReply, BlobRequest, KvLimits, ListedBlob, LiveEntry};
use cells::queue_policy;
use cells::queue_policy::{
    ConsumerSettings, ExpiredLeaseAction, ExpiryResult, PlannedLease, PolicyReply, PolicyRequest,
    QueueDispatchEnvelope, QueueLimits, QueueOverrides, QueueWireMessage, RetryResult,
};
use cells::host_channels::QueueLeaseRef;

fn object(members: Vec<(&str, Json)>) -> Json {
    Json::Object(members.into_iter().map(|(name, value)| (name.to_string(), value)).collect())
}

fn text(t: &str) -> Json {
    json::string(t)
}

fn refused(request: Json) -> String {
    match queue_policy::run(&request) {
        Err(error) => error,
        Ok(_) => panic!("the request is refused"),
    }
}

#[test]
fn rearm_requests_are_read() {
    let request = object(vec![
        ("op", text("rearm")),
        ("now", Json::Int(5)),
        ("batchDeadline", Json::Null),
        ("earliestVisible", Json::Int(7)),
    ]);
    assert!(matches!(
        queue_policy::run(&request),
        Ok(PolicyRequest::Rearm {
            now: 5,
            batch_deadline: None,
            earliest_visible: Some(7),
            earliest_lease_expiry: None,
            next_sweep: None,
        })
    ));
    assert_eq!(
        refused(object(vec![("op", text("rearm"))])),
        "Queue policy input has no integer now"
    );
    assert_eq!(
        refused(object(vec![
            ("op", text("rearm")),
            ("now", Json::Int(5)),
            ("nextSweep", text("soon"))
        ])),
        "Queue policy input nextSweep is not an integer"
    );
}

#[test]
fn operations_are_known_by_name() {
    assert_eq!(refused(object(vec![])), "Queue policy input has no op");
    assert_eq!(
        refused(object(vec![("op", text("a\"b\n"))])),
        "unknown Queue policy operation \"a\\\"b\\n\""
    );
}

#[test]
fn capacities_are_in_range() {
    let ask = |active: i64, maximum: i64| {
        queue_policy::run(&object(vec![
            ("op", text("capacity")),
            ("active", Json::Int(active)),
            ("maximum", Json::Int(maximum)),
        ]))
    };
    assert!(matches!(ask(2, 10), Ok(PolicyRequest::Capacity { active: 2, maximum: 10 })));
    assert_eq!(ask(-1, 10).err(), Some("Queue active concurrency is out of range".to_string()));
    assert_eq!(ask(0, 65536).err(), Some("Queue max concurrency is out of range".to_string()));
}

#[test]
fn retries_and_expiries_are_read() {
    let entry = object(vec![
        ("attempt", Json::Int(1)),
        ("maxRetries", Json::Int(3)),
        ("explicitSeconds", Json::Int(9)),
    ]);
    let request = object(vec![
        ("op", text("retries")),
        ("now", Json::Int(0)),
        ("entries", Json::List(vec![entry])),
    ]);
    match queue_policy::run(&request) {
        Ok(PolicyRequest::Retries { now: 0, entries }) => {
            assert_eq!(entries.len(), 1);
            assert_eq!(entries[0].explicit_seconds, Some(9));
            assert_eq!(entries[0].configured_seconds, None);
        }
        _ => panic!("retries are read"),
    }
    let bad = object(vec![
        ("attempt", Json::Int(1)),
        ("maxRetries", Json::Int(3)),
        ("explicitSeconds", Json::Int(-9)),
    ]);
    assert_eq!(
        refused(object(vec![
            ("op", text("retries")),
            ("now", Json::Int(0)),
            ("entries", Json::List(vec![bad]))
        ])),
        "Queue retry explicitSeconds is out of range"
    );
    assert_eq!(
        refused(object(vec![("op", text("retries")), ("now", Json::Int(0))])),
        "Queue retry policy has no entries"
    );
    let lease = object(vec![("priorFailures", Json::Int(0)), ("maxRetries", Json::Int(3))]);
    assert_eq!(
        refused(object(vec![
            ("op", text("expiry")),
            ("now", Json::Int(0)),
            ("entries", Json::List(vec![lease]))
        ])),
        "Queue expiry has no purgeOnSettle"
    );
}

#[test]
fn batches_settlements_and_purges_are_read() {
    let row = object(vec![
        ("leaseGeneration", text("18446744073709551615")),
        ("seq", Json::Int(1)),
        ("visibleAt", Json::Int(2)),
        ("purgeOnSettle", Json::Bool(true)),
    ]);
    let batch = object(vec![
        ("op", text("batch")),
        ("now", Json::Int(0)),
        ("maxBatchSize", Json::Int(4)),
        ("rows", Json::List(vec![row])),
    ]);
    match queue_policy::run(&batch) {
        Ok(PolicyRequest::Batch { now: 0, max_batch_size: 4, rows }) => {
            assert_eq!(rows[0].lease_generation, u64::MAX);
            assert!(rows[0].purge_on_settle);
        }
        _ => panic!("a batch is read"),
    }
    let member = object(vec![
        ("seq", text("7")),
        ("messageId", text("m")),
        ("generation", text("x")),
    ]);
    assert_eq!(
        refused(object(vec![
            ("op", text("settlement")),
            ("current", Json::List(vec![member])),
            ("submitted", Json::List(vec![]))
        ])),
        "Queue settlement generation is invalid"
    );
    let purge = object(vec![
        ("op", text("purge")),
        ("now", Json::Int(0)),
        (
            "rows",
            Json::List(vec![object(vec![
                ("seq", text("-3")),
                ("leaseIdPresent", Json::Bool(false)),
            ])]),
        ),
    ]);
    match queue_policy::run(&purge) {
        Ok(PolicyRequest::Purge { now: 0, rows }) => assert_eq!(rows[0].seq, -3),
        _ => panic!("a purge is read"),
    }
}

#[test]
fn replies_are_written() {
    assert!(queue_policy::write_reply(&PolicyReply::Rearm(None)).is_null());
    assert_eq!(
        queue_policy::write_reply(&PolicyReply::Capacity(true)).as_bool(),
        Some(true)
    );
    let retries = queue_policy::write_reply(&PolicyReply::Retries(vec![RetryResult {
        at: 9,
        exhausted: false,
    }]));
    let first = &retries.as_array().unwrap()[0];
    assert_eq!(first.get("at").and_then(|at| at.as_i64()), Some(9));
    let expiry = queue_policy::write_reply(&PolicyReply::Expiry(vec![ExpiryResult {
        attempt: 2,
        action: ExpiredLeaseAction::RetryAt(5),
    }]));
    let action = expiry.as_array().unwrap()[0].get("action").unwrap();
    assert_eq!(action.get("kind").and_then(|kind| kind.as_str()), Some("retry"));
    let batch = queue_policy::write_reply(&PolicyReply::Batch {
        leases: vec![PlannedLease { seq: 1, generation: 2, reclaimed: false }],
        delete_purged: vec![4],
    });
    let lease = &batch.get("leases").unwrap().as_array().unwrap()[0];
    assert_eq!(lease.get("generation").and_then(|g| g.as_str()), Some("2"));
    let purge = queue_policy::write_reply(&PolicyReply::Purge {
        delete: vec![-1],
        mark_for_settle: vec![],
    });
    assert_eq!(purge.get("delete").unwrap().as_array().unwrap()[0].as_str(), Some("-1"));
}

fn envelope(content_type: &str, body: &str, lease: &str) -> QueueDispatchEnvelope<u8> {
    QueueDispatchEnvelope {
        lease_id: "l".into(),
        leases: vec![QueueLeaseRef { message_id: lease.into(), seq: 1, generation: 2 }],
        messages: vec![QueueWireMessage {
            id: "m".into(),
            timestamp_ms: 3,
            body_base64: body.into(),
            content_type: content_type.into(),
            attempts: 1,
        }],
        metrics: 7,
    }
}

fn dispatch(content_type: &str, body: &str, lease: &str) -> Result<Vec<u8>, String> {
    queue_policy::dispatch_request(
        1,
        "scope".into(),
        "script".into(),
        "queue".into(),
        envelope(content_type, body, lease),
    )
    .map(|request| {
        assert_eq!(request.batch.queue, "queue");
        assert_eq!(request.batch.metrics, 7);
        request.batch.messages[0].body.clone()
    })
}

#[test]
fn dispatches_decode_their_messages() {
    assert_eq!(dispatch("text", "aGk=", "m"), Ok(b"hi".to_vec()));
    assert_eq!(dispatch("xml", "aGk=", "m"), Err("invalid Queue content type \"xml\"".into()));
    assert_eq!(dispatch("text", "!", "m"), Err("invalid Queue message body".into()));
    assert_eq!(
        dispatch("text", "aGk=", "other"),
        Err("a Queue dispatch must carry one matching lease per message".into())
    );
}

#[test]
fn consumer_settings_are_written() {
    let limits = QueueLimits {
        max_message_bytes: 1,
        max_batch_bytes: 2,
        max_batch_messages: 3,
        producer_group_ms: 4,
        max_concurrency: 5,
        max_delay_seconds: 6,
        retention_ms: 7,
        sweep_batch_rows: 8,
    };
    let consumer = ConsumerSettings {
        queue: "q".into(),
        script: "s".into(),
        max_batch_size: 10,
        max_batch_timeout: 5,
        max_retries: 3,
        dead_letter_queue: Some("dead".into()),
        max_concurrency: None,
        retry_delay: None,
    };
    let mut overrides = QueueOverrides::none();
    let plain = queue_policy::consumer_config(&vec![consumer], 1000, &limits, &overrides);
    let q = plain.get("consumers").unwrap().get("q").unwrap();
    assert_eq!(q.get("maxBatchTimeoutMs").and_then(|ms| ms.as_i64()), Some(5000));
    assert_eq!(q.get("deadLetterQueue").and_then(|t| t.as_str()), Some("dead"));
    assert!(q.get("retryDelaySeconds").is_none());
    assert_eq!(plain.get("leaseDurationMs").and_then(|ms| ms.as_i64()), Some(1000));
    queue_policy::set_queue_lease_duration_for_test(&mut overrides, Some(1));
    queue_policy::set_queue_retention_for_test(&mut overrides, Some(2));
    queue_policy::set_queue_sweep_batch_for_test(&mut overrides, Some(3));
    queue_policy::set_queue_batch_timeout_for_test(&mut overrides, Some(4));
    let short = queue_policy::consumer_config(&vec![], 1000, &limits, &overrides);
    assert_eq!(short.get("leaseDurationMs").and_then(|ms| ms.as_i64()), Some(1));
    let limits = short.get("limits").unwrap();
    assert_eq!(limits.get("retentionMs").and_then(|ms| ms.as_i64()), Some(2));
    assert_eq!(limits.get("sweepBatchRows").and_then(|n| n.as_i64()), Some(3));
}

#[test]
fn a_queue_registered_twice_keeps_the_last() {
    let limits = QueueLimits {
        max_message_bytes: 1,
        max_batch_bytes: 2,
        max_batch_messages: 3,
        producer_group_ms: 4,
        max_concurrency: 5,
        max_delay_seconds: 6,
        retention_ms: 7,
        sweep_batch_rows: 8,
    };
    let consumer = |queue: &str, script: &str| ConsumerSettings {
        queue: queue.into(),
        script: script.into(),
        max_batch_size: 10,
        max_batch_timeout: 5,
        max_retries: 3,
        dead_letter_queue: None,
        max_concurrency: None,
        retry_delay: None,
    };
    let registered = vec![consumer("q", "first"), consumer("p", "other"), consumer("q", "last")];
    let overrides = QueueOverrides::none();
    let config = queue_policy::consumer_config(&registered, 1000, &limits, &overrides);
    let consumers = config.get("consumers").unwrap();
    let script = |queue: &str| {
        consumers.get(queue).and_then(|c| c.get("script")).and_then(|t| t.as_str())
    };
    assert_eq!(script("q"), Some("last"));
    assert_eq!(script("p"), Some("other"));
    assert!(matches!(consumers, Json::Object(members) if members.len() == 2));
}

#[test]
fn blob_requests_are_read() {
    assert!(matches!(
        kv_blob::run("{\"mode\":\"prepare\",\"digest\":\"d\"}", None),
        Ok(BlobRequest::Prepare { digest }) if digest == "d"
    ));
    assert!(matches!(
        kv_blob::run("{\"mode\":\"put\",\"reference\":\"r\"}", Some(vec![1])),
        Ok(BlobRequest::Put { reference, bytes }) if reference == "r" && bytes == [1]
    ));
    let refused = |request: &str| kv_blob::run(request, None).err().unwrap();
    assert_eq!(refused("{\"mode\":\"put\",\"reference\":\"r\"}"), "request has no byte view");
    assert_eq!(refused("{\"mode\":\"get\"}"), "request has no reference");
    assert_eq!(refused("{}"), "request has no mode");
    assert_eq!(refused("{\"mode\":\"sweep\"}"), "request has no live blob reference list");
    assert_eq!(refused("{\"mode\":\"other\"}"), "unknown mode other");
    assert!(refused("{").starts_with("invalid request: "));
}

#[test]
fn sweeps_spare_live_blobs() {
    let live = kv_blob::live_references(&vec![
        LiveEntry::Legacy,
        LiveEntry::Reference("kept".into()),
    ])
    .ok()
    .unwrap();
    let keys: Vec<String> = vec!["p/kept".into(), "p/old".into(), "p/new".into()];
    let name = |collectable: bool, reference: &str| {
        Ok(ListedBlob { collectable, reference: reference.to_string() })
    };
    let names = vec![name(true, "kept"), name(true, "old"), name(false, "new")];
    assert_eq!(kv_blob::doomed(&keys, "p/", &names, &live), Ok(vec!["p/old".to_string()]));
    let names = vec![name(true, "kept"), name(true, "old"), Err("bad name".to_string())];
    assert_eq!(kv_blob::doomed(&keys, "p/", &names, &live), Err("bad name".to_string()));
    assert_eq!(
        kv_blob::doomed(&keys, "q/", &names, &live),
        Err("the KV blob listing returned a key outside its prefix".to_string())
    );
    assert_eq!(
        kv_blob::live_references(&vec![LiveEntry::NotText]).err(),
        Some("the live blob reference list contains a non-string".to_string())
    );
    assert_eq!(
        kv_blob::live_references(&vec![LiveEntry::Later]).err(),
        Some("the live blob reference list contains a later epoch".to_string())
    );
    assert_eq!(
        kv_blob::live_references(&vec![LiveEntry::Malformed("bad".into())]).err(),
        Some("bad".to_string())
    );
    assert_eq!(kv_blob::listed_suffix("p/x", "p/"), Ok("x".to_string()));
    assert!(kv_blob::listed_suffix("q/x", "p/").is_err());
}

#[test]
fn blob_replies_and_errors() {
    assert_eq!(
        kv_blob::check_readable(false),
        Err("a KV row references a later ownership epoch".to_string())
    );
    assert_eq!(
        kv_blob::check_writable(false),
        Err("a new KV blob must use the active ownership epoch".to_string())
    );
    assert_eq!(kv_blob::check_writable(true), Ok(()));
    assert!(matches!(kv_blob::read_reply(Some(vec![1])), BlobReply::Bytes(bytes) if bytes == [1]));
    match kv_blob::read_reply(None) {
        BlobReply::Json(reply) => {
            assert_eq!(reply.get("found").and_then(|found| found.as_bool()), Some(false))
        }
        BlobReply::Bytes(_) => panic!("a missing blob has no bytes"),
    }
    assert_eq!(kv_blob::swept(3, 1).err(), Some("2 blob(s) refused deletion".to_string()));
    let swept = kv_blob::swept(3, 3).ok().unwrap();
    assert_eq!(swept.get("removed").and_then(|n| n.as_i64()), Some(3));
    let prepared = kv_blob::prepared("ref");
    assert_eq!(prepared.get("reference").and_then(|t| t.as_str()), Some("ref"));
    assert_eq!(kv_blob::written().get("ok").and_then(|ok| ok.as_bool()), Some(true));
}

#[test]
fn kv_limits_take_knobs() {
    let bounds = KvLimits {
        max_key_bytes: 512,
        max_value_bytes: 2,
        max_inline_value_bytes: 3,
        max_metadata_bytes: 4,
        max_bulk_keys: 5,
        max_list_limit: 6,
        sweep_batch_rows: 7,
        min_expiration_ttl_ms: 60000,
    };
    let plain = kv_blob::limits(&bounds, "");
    assert_eq!(plain.get("maxKeyBytes").and_then(|n| n.as_i64()), Some(512));
    assert_eq!(plain.get("minExpirationTtlMs").and_then(|n| n.as_i64()), Some(60000));
    assert_eq!(plain.get("blobSweepMs").and_then(|n| n.as_i64()), Some(60000));
    assert_eq!(plain.get("sweepDisabled").and_then(|b| b.as_bool()), Some(false));
    let tuned = kv_blob::limits(&bounds, "min-ttl-ms=5, no-sweep ,blob-sweep-ms=-1");
    assert_eq!(tuned.get("minExpirationTtlMs").and_then(|n| n.as_i64()), Some(5));
    assert_eq!(tuned.get("blobSweepMs").and_then(|n| n.as_i64()), Some(60000));
    assert_eq!(tuned.get("sweepDisabled").and_then(|b| b.as_bool()), Some(true));
}

#[test]
fn questions_take_their_own_replies() {
    let capacity = PolicyRequest::Capacity { active: 2, maximum: 10 };
    assert!(matches!(
        queue_policy::answer(&capacity, Ok(PolicyReply::Capacity(true))),
        Some(Ok(value)) if value.as_bool() == Some(true)
    ));
    assert!(queue_policy::answer(&capacity, Ok(PolicyReply::Settlement(true))).is_none());
    assert!(queue_policy::answer(&capacity, Err("x".into())).is_none());
    let batch = PolicyRequest::Batch { now: 0, max_batch_size: 4, rows: vec![] };
    assert!(matches!(
        queue_policy::answer(&batch, Err("no plan".into())),
        Some(Err(error)) if error == "no plan"
    ));
    let retries = PolicyRequest::Retries { now: 0, entries: vec![] };
    assert!(queue_policy::answer(&retries, Ok(PolicyReply::Retries(vec![]))).is_some());
    let result = RetryResult { at: 1, exhausted: false };
    assert!(queue_policy::answer(&retries, Ok(PolicyReply::Retries(vec![result]))).is_none());
}
