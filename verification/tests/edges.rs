//! Small answers at the edges: refusals, settings, names and accessors.
use cells::cell_runtime;
use cells::cell_runtime::Generations;
use cells::engine_api;
use cells::engine_api::{DoIdCache, HandlerBudget};
use cells::facet_streams;
use cells::generation::{
    CellClass, ClassKind, DeploymentGraph, GenerationBuild, LoadedDeployment, StartedScript,
};
use cells::http_proxy::{RequestHeader, ResponseHeader, Session, Version};
use cells::http_streams::{
    DomainClock, HttpStreamIds, HttpStreamState, HttpStreamTerminationReason,
};
use cells::json::Json;
use cells::ltx_repl;
use cells::ltx_repl::CellSync;
use cells::maps::TextMap;
use cells::storage;
use cells::storage::{Cells, SqlValue};
use cells::ws_flush::Verdict;
use cells::ws_frames::WsOut;
use cells::ws_registry;
use cells::ws_registry::WebSocketService;

type Sockets = WebSocketService<&'static str, &'static str, &'static str>;

fn text(out: &WsOut) -> String {
    match out {
        WsOut::Text(t) => t.clone(),
        WsOut::Binary(b) => format!("{} bytes", b.len()),
        WsOut::Close(code, reason) => format!("close {code} {reason}"),
    }
}

#[test]
fn gated_frames_wait_and_later_ones_queue_behind() {
    let mut sockets = Sockets::new();
    ws_registry::ws_accept(&mut sockets, 1, "cell", vec![]);
    ws_registry::ws_register(&mut sockets, 1, "out");
    let (guard, sent) =
        ws_registry::ws_send(&mut sockets, vec![(1, WsOut::Text("a".into()))], true);
    assert!(sent.is_empty());
    assert_eq!(ws_registry::ws_deferred_count(&sockets, 1), 1);
    let sent = ws_registry::ws_emit_batch(&mut sockets, vec![(1, WsOut::Text("b".into()))]);
    assert!(sent.is_empty());
    assert_eq!(ws_registry::ws_deferred_count(&sockets, 1), 2);
    let sent = ws_registry::ws_release(&mut sockets, guard.unwrap(), Verdict::Released);
    let texts: Vec<String> = sent.iter().map(|(_, out)| text(out)).collect();
    assert_eq!(texts, ["a", "b"]);
    assert_eq!(ws_registry::ws_deferred_count(&sockets, 1), 0);
    let close = ws_registry::ws_close(&mut sockets, 1, 1000, "done").unwrap();
    assert_eq!(text(&close), "close 1000 done");
    assert!(ws_registry::ws_close(&mut sockets, 2, 1000, "done").is_none());
}

#[test]
fn quarantined_streams_take_no_registration() {
    let mut state: HttpStreamState<u8, u8> = HttpStreamState::new();
    let mut ids = HttpStreamIds::new();
    state.quarantine();
    assert_eq!(state.register_source(&mut ids, 1, DomainClock::Now(0)).0, None);
    let reasons = [
        HttpStreamTerminationReason::Live,
        HttpStreamTerminationReason::Finished,
        HttpStreamTerminationReason::Cancelled,
        HttpStreamTerminationReason::Expired,
    ];
    for (value, reason) in reasons.iter().enumerate() {
        assert_eq!(HttpStreamTerminationReason::from_u8(value as u8), *reason);
    }
}

#[test]
fn sessions_change_their_request_and_response() {
    let header = RequestHeader {
        method: "GET".to_string(),
        uri: "/a".to_string(),
        version: 1u8,
        headers: http::HeaderMap::new(),
    };
    let mut session: Session<u8, u8> = Session::new(header, 0);
    session.req_header_mut().set_uri("/b".to_string());
    assert_eq!(session.req_header().uri, "/b");
    assert_eq!(session.req_header().method, "GET");
    let mut response = ResponseHeader::build(201, None).ok().unwrap();
    assert_eq!(response.version, Version::Http11);
    response.insert_header("x-a", "1").ok().unwrap();
    session.write_response_header(response);
    session.set_keepalive(Some(3));
    let built = session.build_response();
    assert_eq!(built.status, 201);
    assert_eq!(built.headers.len(), 1);
    assert_eq!(built.headers.get("x-a").unwrap(), "1");
}

#[test]
fn replicas_lie_under_their_cell() {
    assert_eq!(ltx_repl::epochs_path("p/", "c"), "p/cells/c/ltx");
    assert_eq!(ltx_repl::seal_key("p/", "c", 3), "p/cells/c/ltx/e3.seal.json");
    assert_eq!(ltx_repl::snapshot_path("c", 3, true), "c/ltx/e3/db.hibernated");
    assert_eq!(ltx_repl::snapshot_path("c", 3, false), "c/ltx/e3/db.evicted");
    assert_eq!(ltx_repl::restore_error("c", 1, 9, "gone"), "restore c e1@9: gone");
    let (mut sync, _) = CellSync::activated(Some(0), Some(4));
    assert!(sync.maybe_queue_compaction(4));
    sync.queue_refused();
    assert!(sync.maybe_queue_compaction(4));
    assert!(facet_streams::check_restored("a", "a").is_ok());
    assert_eq!(
        facet_streams::check_restored("b", "a").unwrap_err(),
        "replication restored b instead of a"
    );
}

#[test]
fn cells_and_alarms_have_their_answers() {
    let generations = Generations { current: 5, draining: vec![3, 4] };
    assert_eq!(*generations.draining_generations(), [3, 4]);
    assert_eq!(cell_runtime::check_scope("s".into(), true), Ok("s".to_string()));
    assert!(cell_runtime::check_scope("s".into(), false).is_err());
    assert!(cell_runtime::alarm_covered(false, None, false));
    assert!(cell_runtime::alarm_covered(true, Some(true), true));
    assert!(!cell_runtime::alarm_covered(true, Some(true), false));
    assert!(!cell_runtime::alarm_covered(true, None, true));
    assert_eq!(cell_runtime::durable_streams(vec!["f".into()], "c"), ["f", "c"]);
    assert_eq!(cell_runtime::arm_gate_error("x"), "setAlarm wake entry: x");
    assert_eq!(engine_api::admission_wait(None), 1000);
    assert_eq!(engine_api::admission_wait(Some(0)), 0);
    let mut budget = HandlerBudget::new();
    assert_eq!(engine_api::handler_budget(&mut budget, None), 300);
    assert_eq!(engine_api::handler_budget(&mut budget, Some(7)), 300);
    assert_eq!(engine_api::handler_budget(&mut HandlerBudget::new(), Some(7)), 7);
}

#[test]
fn scopes_of_built_in_classes_differ() {
    let mut cache = DoIdCache::new();
    let scopes = [
        engine_api::d1_cell_scope(&mut cache, "x"),
        engine_api::kv_cell_scope(&mut cache, "x"),
        engine_api::queue_cell_scope(&mut cache, "x"),
        engine_api::workflow_cell_scope_for_test(&mut cache, "s", "Flow", "w", "i"),
    ];
    for (i, scope) in scopes.iter().enumerate() {
        assert_eq!(scope.rsplit(':').next().unwrap().len(), 64);
        assert!(scopes[..i].iter().all(|other| other != scope));
    }
    let namespace = engine_api::namespace_key("s", "Flow");
    let id = engine_api::durable_object_id_for_name(&mut cache, &namespace, "w/i");
    assert!(scopes[3].ends_with(&engine_api::durable_object_id_hex(&id)));
}

#[test]
fn json_binds_as_sql() {
    assert!(matches!(storage::json_to_sql(&Json::Null), SqlValue::Null));
    assert!(matches!(storage::json_to_sql(&Json::Bool(true)), SqlValue::Integer(1)));
    assert!(matches!(storage::json_to_sql(&Json::Int(-4)), SqlValue::Integer(-4)));
    assert!(matches!(
        storage::json_to_sql(&Json::Text("t".into())),
        SqlValue::Text(t) if t == "t"
    ));
    assert!(matches!(storage::json_to_sql(&Json::List(vec![])), SqlValue::Null));
    let bytes = Json::Object(vec![(
        "__celld_bytes".to_string(),
        Json::List(vec![Json::Int(1), Json::Int(255)]),
    )]);
    assert!(matches!(storage::json_to_sql(&bytes), SqlValue::Blob(b) if b == [1, 255]));
}

#[test]
fn pragmas_are_set_on_open_cells() {
    let mut cells: Cells<u8> = Cells::new();
    assert_eq!(
        storage::set_query_only_for_test(&cells, "s", true).err(),
        Some("no db for s".to_string())
    );
    storage::open(&mut cells, "s");
    let update = storage::set_query_only_for_test(&cells, "s", true).ok().unwrap();
    assert_eq!((update.name.to_string(), update.value), ("query_only".to_string(), 1));
    let update = storage::set_max_page_count_for_test(&cells, "s", 9).ok().unwrap();
    assert_eq!((update.name.to_string(), update.value), ("max_page_count".to_string(), 9));
    let update = storage::set_cache_size_for_test(&cells, "s", -2).ok().unwrap();
    assert_eq!((update.name.to_string(), update.value), ("cache_size".to_string(), -2));
    assert_eq!(storage::sql_statement_cache_stats(&cells, "s"), (0, 0, 0));
}

#[test]
fn generations_know_their_reserved_classes() {
    let deployment: LoadedDeployment<u8> = LoadedDeployment {
        script_name: "main".into(),
        version: "1".into(),
        prefix: "main/1".into(),
        services: vec![],
        do_classes: vec![
            CellClass { name: "Room".to_string(), kind: ClassKind::User },
            CellClass { name: "Cron".to_string(), kind: ClassKind::User },
        ],
        queue_bindings: vec![],
        queue_consumers: vec![],
        crons: vec![],
        fence_image: None,
        rest: 0,
    };
    let build: GenerationBuild<u8, u8, u8, u8, u8> =
        GenerationBuild::begin(3, DeploymentGraph::single(deployment), "Cron").ok().unwrap();
    let script = StartedScript { config: 1, pool: 2, assets: Some(6), containers: vec![] };
    let build = build.add_script(script).ok().unwrap();
    let mut pools: TextMap<u8> = TextMap::new();
    for script in build.cell_scripts() {
        pools.insert(script, 9);
    }
    let served = build.build(pools);
    assert_eq!(served.ingress_assets(), Some(&6));
    assert_eq!(served.reserved_classes(), ["Cron"]);
}
