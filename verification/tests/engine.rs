//! Identities, answers and the queue's wire types.
use cells::engine_api;
use cells::engine_api::{
    AdmitError, CellOverloaded, Compat, DoIdCache, GatedAnswer, HandlerError, HttpResponse,
    InjectedFailures, QueueContentType, Refusal, RequestBody, RequestIds, RpcData, RpcOutcome,
};
use cells::host_channels;
use cells::host_channels::HostStores;
use hmac::Mac;
use sha2::Digest;

#[test]
fn request_ids_read_back() {
    let mut ids = RequestIds::new();
    let first = engine_api::next_request_id(&mut ids).unwrap();
    let second = engine_api::next_do_request_id(&mut ids).unwrap();
    assert_ne!(first, second);
    let text = engine_api::request_id_string(first);
    assert_eq!(text.len(), 32);
    assert_eq!(engine_api::parse_request_id(&text), Some(first));
    assert_eq!(engine_api::parse_request_id("+ff"), Some(255));
    assert_eq!(engine_api::parse_request_id(""), None);
    assert_eq!(engine_api::parse_request_id("zz000000000000000000000000000000"), None);
    assert_eq!(engine_api::read_hex("fF"), Some(255));
    assert_eq!(engine_api::read_hex("g"), None);
    assert_eq!(
        engine_api::request_id_string(engine_api::request_id_of(1, 2)),
        "00000000000000010000000000000002"
    );
}

#[test]
fn object_ids_are_derived_from_names() {
    let mut cache = DoIdCache::new();
    let key = engine_api::namespace_key("worker", "Room");
    let id = engine_api::durable_object_id_for_name(&mut cache, &key, "lobby");
    assert_eq!(id.len(), 32);
    assert_eq!(engine_api::durable_object_id_for_name(&mut cache, &key, "lobby"), id);
    assert_ne!(engine_api::durable_object_id_for_name(&mut cache, &key, "attic"), id);
    let other = engine_api::namespace_key("worker", "Lobby");
    assert_ne!(engine_api::durable_object_id_for_name(&mut cache, &other, "lobby"), id);
    let text = engine_api::durable_object_id_hex(&id);
    assert_eq!(text.len(), 64);
    assert_eq!(engine_api::decode_durable_object_id(&text), Some(id));
    assert_eq!(engine_api::decode_durable_object_id("00"), None);
    assert_eq!(engine_api::decode_durable_object_id(&"z".repeat(64)), None);
}

#[test]
fn object_ids_rest_on_the_hash_crates() {
    let mut cache = DoIdCache::new();
    let namespace = engine_api::namespace_key("worker", "Room");
    let id = engine_api::durable_object_id_for_name(&mut cache, &namespace, "lobby");
    let key = sha2::Sha256::digest(namespace.as_bytes());
    let mut mac = <hmac::Hmac<sha2::Sha256> as hmac::Mac>::new_from_slice(&key).unwrap();
    mac.update(b"lobby");
    let first = mac.finalize().into_bytes();
    assert_eq!(id[..16], first[..16]);
    let mut check = <hmac::Hmac<sha2::Sha256> as hmac::Mac>::new_from_slice(&key).unwrap();
    check.update(&first[..16]);
    let second = check.finalize().into_bytes();
    assert_eq!(id[16..], second[..16]);
}

#[test]
fn namespaces_are_apart() {
    assert_ne!(engine_api::namespace_key("ab", "c"), engine_api::namespace_key("a", "bc"));
    assert_eq!(engine_api::shared_namespace_key("Room"), None);
}

#[test]
fn facets_are_named_under_their_root() {
    let one = engine_api::facet_cell("root", &vec!["a".to_string()]);
    let two = engine_api::facet_cell("root", &vec!["a".to_string(), "b".to_string()]);
    assert!(one.starts_with("root"));
    assert_eq!(engine_api::facet_cell(&one, &vec!["b".to_string()]), two);
    assert_eq!(engine_api::facet_cell("root", &Vec::new()), "root");
}

#[test]
fn content_types_read_back() {
    for name in ["text", "bytes", "json", "v8"] {
        let kind = QueueContentType::from_name(name).unwrap();
        assert_eq!(kind.as_str(), name);
    }
    assert!(QueueContentType::from_name("xml").is_none());
}

#[test]
fn failed_turns_keep_their_position() {
    let failed = engine_api::fail_in_turn_error(
        HandlerError::Message("boom".into()),
        (Some(4), Some(3)),
    );
    assert_eq!(engine_api::failed_write_position(&failed), Some(4));
    assert_eq!(failed.message(), "boom");
    assert_eq!(
        engine_api::failed_write_position(&HandlerError::Message("boom".into())),
        None
    );
    let ticket = engine_api::answer_ticket::<RpcOutcome>(&Err(failed)).unwrap();
    assert_eq!(ticket.write_position, Some(4));
    assert!(engine_api::answer_ticket::<RpcOutcome>(&Err(HandlerError::Message("x".into())))
        .is_none());
    let answered = Ok(RpcOutcome {
        data: RpcData::Json("1".into()),
        write_position: None,
        observed_position: Some(2),
    });
    let ticket = engine_api::answer_ticket(&answered).unwrap();
    assert_eq!(ticket.observed_position, Some(2));
}

#[test]
fn bodies_are_held_or_streamed() {
    assert_eq!(RequestBody::Bytes(vec![1, 2]).bytes(), vec![1, 2]);
    assert_eq!(RequestBody::Bytes(vec![1]).stream_id(), None);
    assert_eq!(RequestBody::Stream(5).stream_id(), Some(5));
    assert_eq!(RequestBody::Stream(5).into_held_bytes(), None);
    assert_eq!(RequestBody::Bytes(vec![9]).into_held_bytes(), Some(vec![9]));
}

#[test]
fn refusals_have_their_texts() {
    assert_eq!(
        AdmitError::Refused(Refusal::NodeFull).message(),
        "node is at its stateless request limit"
    );
    assert_eq!(AdmitError::Refused(Refusal::NodePressured).message(), "node is shedding load");
    assert_eq!(
        AdmitError::Build("no memory".into()).message(),
        "isolate could not be started: no memory"
    );
    assert!(!CellOverloaded.message().is_empty());
}

#[test]
fn injected_failures_run_out() {
    let mut failures = InjectedFailures { remaining: 1 };
    assert!(engine_api::injected_swap_release_failure(&mut failures));
    assert!(!engine_api::injected_swap_release_failure(&mut failures));
}

#[test]
fn defaults_are_compatible() {
    let compat = Compat::default();
    assert!(!compat.sqlite_vec);
    let response: HttpResponse<u8, u8> = HttpResponse {
        status: 200,
        body: vec![],
        stream: None,
        headers: vec![],
        websocket: None,
        write_position: Some(1),
        observed_position: None,
    };
    assert_eq!(response.write_position(), Some(1));
}

#[test]
fn stores_are_installed_once() {
    let mut stores: HostStores<u8> = HostStores::new();
    assert!(host_channels::kv_blob_store(&stores).is_err());
    assert_eq!(stores.r2_store().err(), Some(cells::r2_store::no_store()));
    host_channels::set_kv_blob_store(&mut stores, 1);
    host_channels::set_r2_store(&mut stores, 2);
    assert_eq!(host_channels::kv_blob_store(&stores), Ok(&1));
    assert_eq!(stores.r2_store(), Ok(&2));
}
