//! Deployment graphs, generations, cells and their facets.
use cells::cell_runtime;
use cells::cell_runtime::{ArmGate, CellScope, CleanReloadMarker, Generations, Resolved, WakeEntryService};
use cells::engine_api::QueueBinding;
use cells::facet_streams;
use cells::facet_streams::{FacetStreams, OpenStep, RestoreSpec, RootStop, StopAction};
use cells::generation;
use cells::generation::{
    BuildError, CellClass, ClassKind, ConsumerAction, ConsumerAttachment, DeploymentGraph,
    GenerationBuild, GraphError, GraphWalk, LoadedDeployment, QueueConsumer, StartedScript,
    WalkAction,
};
use cells::maps::TextMap;

fn deployment(script: &str, services: &[&str]) -> LoadedDeployment<u8> {
    LoadedDeployment {
        script_name: script.into(),
        version: "1".into(),
        prefix: format!("{script}/1"),
        services: services.iter().map(|name| name.to_string()).collect(),
        do_classes: vec![],
        queue_bindings: vec![],
        queue_consumers: vec![],
        crons: vec![],
        fence_image: None,
        rest: 0,
    }
}

fn consuming(script: &str, queue: &str) -> LoadedDeployment<u8> {
    LoadedDeployment {
        queue_consumers: vec![QueueConsumer { queue: queue.into(), dead_letter_queue: None }],
        ..deployment(script, &[])
    }
}

#[test]
fn services_are_loaded_once() {
    let mut walk = GraphWalk::start(deployment("main", &["a", "b", "a"]));
    assert!(matches!(walk.next_action(), WalkAction::LoadService(name) if name == "a"));
    assert!(walk.service_loaded("a", deployment("a", &["b", "main"])).is_ok());
    assert!(matches!(walk.next_action(), WalkAction::LoadService(name) if name == "b"));
    let wrong = walk.service_loaded("b", deployment("c", &[])).err().unwrap();
    assert_eq!(wrong.message(), "service pointer b resolved script c");
    assert!(walk.service_loaded("b", deployment("b", &[])).is_ok());
    assert!(matches!(walk.next_action(), WalkAction::Done));
    let graph = walk.finish();
    let hosted: Vec<&str> = graph.cohosted.iter().map(|d| d.script_name.as_str()).collect();
    assert_eq!(hosted, ["a", "b"]);
}

fn binding(script: &str, queues: &[&str]) -> LoadedDeployment<u8> {
    let mut loaded = deployment(script, &[]);
    loaded.queue_bindings = queues
        .iter()
        .map(|queue| QueueBinding {
            environment: "Q".into(),
            queue: queue.to_string(),
            delivery_delay: 0,
        })
        .collect();
    loaded
}

fn attachment(script: &str, prefix: &str) -> Option<ConsumerAttachment> {
    Some(ConsumerAttachment {
        script_name: script.into(),
        version: "1".into(),
        prefix: prefix.into(),
    })
}

#[test]
fn queues_find_their_consumers() {
    let mut walk = GraphWalk::start(binding("main", &["q"]));
    assert!(matches!(walk.next_action(), WalkAction::FindConsumer(name) if name == "q"));
    assert!(matches!(
        walk.consumer_found("q", attachment("worker", "worker/1")),
        Ok(ConsumerAction::Load(found)) if found.script_name == "worker"
    ));
    let twice = walk.consumer_loaded("q", binding("main", &[])).err().unwrap();
    assert_eq!(twice.message(), "script \"main\" was loaded twice");
    assert!(walk.consumer_loaded("q", consuming("worker", "q")).is_ok());
    assert!(matches!(walk.next_action(), WalkAction::Done));
    let graph = walk.finish();
    assert_eq!(graph.cohosted.len(), 1);
    assert_eq!(graph.cohosted[0].script_name, "worker");

    let mut walk = GraphWalk::start(binding("main", &["q"]));
    assert!(matches!(walk.next_action(), WalkAction::FindConsumer(_)));
    assert!(matches!(walk.consumer_found("q", None), Ok(ConsumerAction::Resolved)));
    assert!(matches!(walk.next_action(), WalkAction::Done));
    assert!(walk.finish().cohosted.is_empty());
}

#[test]
fn attachments_are_checked_against_what_is_loaded() {
    let main = || LoadedDeployment {
        queue_consumers: vec![QueueConsumer { queue: "q".into(), dead_letter_queue: None }],
        ..binding("main", &["q"])
    };
    let mut walk = GraphWalk::start(main());
    assert!(matches!(walk.next_action(), WalkAction::FindConsumer(name) if name == "q"));
    let unattached = walk.consumer_found("q", None).err().unwrap();
    assert!(matches!(unattached, GraphError::NoAttachment { .. }));
    assert!(unattached.message().contains("has no active consumer attachment"));
    let other = walk.consumer_found("q", attachment("worker", "worker/1")).err().unwrap();
    assert!(matches!(other, GraphError::OtherConsumer { .. }));
    let moved = walk.consumer_found("q", attachment("main", "main/2")).err().unwrap();
    assert!(matches!(moved, GraphError::OtherDeployment { .. }));
    assert!(matches!(
        walk.consumer_found("q", attachment("main", "main/1")),
        Ok(ConsumerAction::Resolved)
    ));
    assert!(matches!(walk.next_action(), WalkAction::Done));

    let mut walk = GraphWalk::start(binding("main", &["q"]));
    assert!(matches!(walk.next_action(), WalkAction::FindConsumer(_)));
    let idle = walk.consumer_found("q", attachment("main", "main/1")).err().unwrap();
    assert!(matches!(idle, GraphError::NotConsumed { .. }));
}

#[test]
fn a_queue_has_one_consumer() {
    let graph = DeploymentGraph { primary: consuming("a", "q"), cohosted: vec![consuming("b", "q")] };
    let error = generation::queue_catalog(&graph).err().unwrap();
    assert_eq!(error.message(), "queue \"q\" is consumed by both a and b");
    let single = DeploymentGraph::single(consuming("a", "q"));
    assert_eq!(generation::queue_catalog(&single).ok().unwrap().len(), 1);
}

type Build = GenerationBuild<u8, u8, u8, u8, u8>;

fn started() -> StartedScript<u8, u8, u8, u8> {
    StartedScript { config: 1, pool: 2, assets: None, containers: vec![] }
}

fn exporting(script: &str, classes: &[(&str, ClassKind)]) -> LoadedDeployment<u8> {
    LoadedDeployment {
        do_classes: classes
            .iter()
            .map(|(name, kind)| CellClass { name: name.to_string(), kind: *kind })
            .collect(),
        ..deployment(script, &[])
    }
}

#[test]
fn user_classes_belong_to_one_script() {
    let room = [("Room", ClassKind::User)];
    let graph = DeploymentGraph {
        primary: exporting("main", &room),
        cohosted: vec![exporting("other", &room)],
    };
    let build: Build = GenerationBuild::begin(3, graph, "Cron").ok().unwrap();
    let build = build.add_script(started()).ok().unwrap();
    let shared = build.add_script(started()).err().unwrap();
    assert_eq!(
        shared.message(),
        "Durable Object class Room is exported by more than one co-hosted script"
    );
    let both = [("Room", ClassKind::User), ("Room", ClassKind::User)];
    let single = DeploymentGraph::single(exporting("main", &both));
    let build: Build = GenerationBuild::begin(3, single, "Cron").ok().unwrap();
    let twice = build.add_script(started()).err().unwrap();
    assert!(matches!(twice, BuildError::DuplicateClass { class } if class == "Room"));
    let twin = DeploymentGraph {
        primary: deployment("main", &[]),
        cohosted: vec![deployment("main", &[])],
    };
    let build: Build = GenerationBuild::begin(3, twin, "Cron").ok().unwrap();
    let twin = build.add_script(started()).ok().unwrap().add_script(started()).err().unwrap();
    assert!(matches!(twin, BuildError::DuplicateScript { script } if script == "main"));
}

#[test]
fn builds_refuse_shared_queues() {
    let graph =
        DeploymentGraph { primary: consuming("a", "q"), cohosted: vec![consuming("b", "q")] };
    let refused: Result<Build, BuildError> = GenerationBuild::begin(3, graph, "Cron");
    assert_eq!(
        refused.err().unwrap().message(),
        "queue \"q\" is consumed by both a and b"
    );
}

#[test]
fn generations_serve_their_scripts() {
    let mut main = exporting("main", &[("Room", ClassKind::User)]);
    main.crons = vec!["* * * * *".into()];
    let mut other = consuming("other", "q");
    other.crons = vec!["0 0 * * *".into()];
    let graph = DeploymentGraph { primary: main, cohosted: vec![other] };
    let build: Build = GenerationBuild::begin(3, graph, "Cron").ok().unwrap();
    let start = build.next_script().unwrap();
    assert_eq!(start.script_name, "main");
    assert_eq!(start.crons, ["* * * * *"]);
    assert_eq!(start.catalog.len(), 1);
    assert_eq!(start.catalog[0].queue, "q");
    let build = build.add_script(started()).ok().unwrap();
    let start = build.next_script().unwrap();
    assert_eq!(start.script_name, "other");
    assert!(start.crons.is_empty());
    let build = build.add_script(started()).ok().unwrap();
    assert!(build.next_script().is_none());
    assert_eq!(build.cell_scripts(), ["main"]);
    let mut pools = TextMap::new();
    pools.insert("main".to_string(), 9u8);
    let served = build.build(pools);
    assert_eq!(served.id(), 3);
    assert_eq!(served.script_name(), "main");
    assert_eq!(served.cron_script(), Some("main"));
    assert!(served.has_cell_classes());
    assert_eq!(served.cell_config("Room"), Some(&1));
    assert_eq!(served.cell_config("None"), None);
    assert_eq!(served.service("other"), Some(&2));
    assert_eq!(served.cell_isolates("main"), Some(&9));
    assert!(generation::is_drained(&vec![true], &vec![true, true]));
    assert!(!generation::is_drained(&vec![true], &vec![false]));
}

#[test]
fn cohosted_crons_do_not_run() {
    let mut other = deployment("other", &[]);
    other.crons = vec!["0 0 * * *".into()];
    let graph = DeploymentGraph { primary: deployment("main", &[]), cohosted: vec![other] };
    let build: Build = GenerationBuild::begin(3, graph, "Cron").ok().unwrap();
    let build = build.add_script(started()).ok().unwrap().add_script(started()).ok().unwrap();
    assert!(build.cell_scripts().is_empty());
    let served = build.build(TextMap::<u8>::new());
    assert_eq!(served.cron_script(), None);
    assert!(!served.has_cell_classes());
}

#[test]
fn intervals_have_defaults() {
    assert_eq!(generation::poll_interval(None), 30);
    assert_eq!(generation::poll_interval(Some(5)), 5);
    assert_eq!(generation::max_age(None), 60);
}

#[test]
fn cells_resolve_their_generation() {
    let generations = Generations { current: 5, draining: vec![3, 4] };
    assert!(matches!(generations.generation_by_id(5), Resolved::Current));
    assert!(matches!(generations.generation_by_id(4), Resolved::Draining(1)));
    assert!(matches!(generations.generation_by_id(9), Resolved::Current));
    assert_eq!(generations.next_generation_id(), 6);
}

#[test]
fn scopes_are_composed() {
    assert!(matches!(
        cell_runtime::cell_scope("Room:a", true, None),
        Ok(CellScope::Scope(scope)) if scope == "Room:a"
    ));
    assert!(matches!(
        cell_runtime::cell_scope("a", true, Some("Room")),
        Ok(CellScope::Composed(scope)) if scope == "Room:a"
    ));
    assert_eq!(
        cell_runtime::cell_scope("a", true, None).err(),
        Some("a bare cell id requires exactly one configured Durable Object class".to_string())
    );
    assert!(cell_runtime::cell_scope("../a", false, None).is_err());
    assert_eq!(
        cell_runtime::require_cell_scope_name_max(100, 200),
        Err("the data filesystem supports 100-byte names, but celld requires 200".to_string())
    );
    assert_eq!(cell_runtime::db_path("c", 7, true), "c/ltx/e7/db.sqlite");
    assert_eq!(cell_runtime::db_path("c", 7, false), "c/ltx/e1/db.sqlite");
}

#[test]
fn reload_markers_name_their_node() {
    let marker = cell_runtime::write_clean_reload_marker("node", "g1");
    assert_eq!(
        cell_runtime::take_clean_reload_generation(Some(marker), "node"),
        Some("g1".to_string())
    );
    let marker = CleanReloadMarker { node: "node".into(), generation: "g1".into() };
    assert_eq!(cell_runtime::take_clean_reload_generation(Some(marker), "other"), None);
    let mut service: WakeEntryService<u8, u8> = WakeEntryService::new();
    assert!(cell_runtime::forget_wake_entry(&service).is_none());
    cell_runtime::set_arm_gate(&mut service, ArmGate { bucket: 1, flusher: 2 });
    cell_runtime::set_arm_gate(&mut service, ArmGate { bucket: 3, flusher: 4 });
    assert_eq!(cell_runtime::forget_wake_entry(&service), Some(&2));
    assert!(service.launch_arm_gate(false).is_none());
    assert!(service.launch_arm_gate(true).is_some());
}

#[test]
fn facets_stop_after_their_root() {
    let mut facets: FacetStreams<u8> = FacetStreams::new();
    facets.register("root", RestoreSpec { epoch: 4, resume_local: false, rest: 0 });
    assert!(facets.is_open("root", 3, "f").is_err());
    assert!(matches!(
        facets.open("root", 4, "root.f", true, false),
        Ok(OpenStep::Restore { resume_local: false })
    ));
    facets.opened("root", 4, "root.f").unwrap();
    facets.opened("root", 4, "root.g").unwrap();
    assert_eq!(facets.is_open("root", 4, "root.f"), Ok(true));
    assert_eq!(facets.resident("root", 4), ["root.f", "root.g"]);
    let (stop, action) = RootStop::begin(&mut facets, "root", 4, true);
    assert!(matches!(action, StopAction::StopRoot));
    assert!(facets.open("root", 4, "root.h", true, false).is_err());
    let (stop, action) = stop.root_stopped(&mut facets, true);
    assert!(matches!(action, StopAction::StopFacet(name) if name == "root.f"));
    let (stop, action) = stop.facet_stopped(&mut facets, false);
    let wait = match action {
        StopAction::RetryFacet(name, wait) => {
            assert_eq!(name, "root.f");
            wait
        }
        _ => panic!("a facet that does not stop is tried again"),
    };
    assert!(facet_streams::next_stop_delay(wait) >= wait);
    let (stop, action) = stop.facet_stopped(&mut facets, true);
    assert!(matches!(action, StopAction::StopFacet(name) if name == "root.g"));
    let (_, action) = stop.facet_stopped(&mut facets, true);
    assert!(matches!(action, StopAction::Done));
    assert!(facets.resident("root", 4).is_empty());
}
