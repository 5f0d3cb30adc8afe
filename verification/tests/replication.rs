//! Replication: seals, activation, uploads and compaction.
use cells::ltx_repl;
use cells::ltx_repl::{
    ActivationOptions, ActivationStart, AfterSync, CellSync, CompactionOutcome, EpochSeal,
    EvictStep, KeptSnapshot, LocalCell, LocalFiles, RemoteRestore, RemoteStage, RemoteStep,
    SealRead, SealStep, SealWrite, SyncWait,
};

#[test]
fn paths_name_their_epoch() {
    assert_eq!(ltx_repl::db_path("c", 3), "c/ltx/e3/db.sqlite");
    assert_eq!(ltx_repl::replica_path("p/", "c", 3), "p/cells/c/ltx/e3");
    assert_eq!(ltx_repl::epoch_of_name("e12"), Some(12));
    assert_eq!(ltx_repl::epoch_of_name("x12"), None);
    let names = vec!["e2".to_string(), "e10".to_string(), "other".to_string()];
    assert_eq!(ltx_repl::highest_nonempty_epoch(&names), Some(10));
    assert_eq!(ltx_repl::highest_nonempty_epoch(&vec![]), None);
}

#[test]
fn seals_fix_one_cut() {
    assert!(matches!(
        ltx_repl::seal_read("c", 1, SealRead::Found(Ok(9))),
        SealStep::Answer(Ok(9))
    ));
    assert!(matches!(ltx_repl::seal_read("c", 1, SealRead::Missing), SealStep::Plan));
    assert!(matches!(
        ltx_repl::seal_planned("c", 1, 4, Ok(vec![3, 8, 5])),
        SealStep::Create(EpochSeal { max_txid: 8, sealed_by_epoch: 4 })
    ));
    assert!(matches!(
        ltx_repl::seal_planned("c", 1, 4, Ok(vec![])),
        SealStep::Answer(Err(error)) if error == "seal target c e1 is empty"
    ));
    let seal = EpochSeal { max_txid: 8, sealed_by_epoch: 4 };
    assert_eq!(seal.text(), "{\"max_txid\":8,\"sealed_by_epoch\":4}");
    assert!(matches!(
        ltx_repl::seal_written("c", 1, seal, SealWrite::Created),
        SealStep::Answer(Ok(8))
    ));
    assert!(matches!(
        ltx_repl::seal_written("c", 1, seal, SealWrite::AlreadyExists),
        SealStep::Reread
    ));
    assert_eq!(ltx_repl::seal_reread("c", 1, Ok(Ok(6))), Ok(6));
    assert!(ltx_repl::seal_reread("c", 1, Err("x".into())).is_err());
}

fn files() -> LocalFiles {
    LocalFiles {
        database: false,
        evicted: false,
        hibernated: false,
        previous_evicted: true,
        previous_hibernated: false,
    }
}

#[test]
fn activations_start_from_what_is_newest() {
    let options = |fresh, resume_local, previous_reusable| ActivationOptions {
        epoch: 5,
        fresh,
        resume_local,
        previous_reusable,
    };
    assert_eq!(
        ltx_repl::activate("c", options(false, true, false), files(), "db").err(),
        Some("clean reload database is missing: db".to_string())
    );
    assert!(matches!(
        ltx_repl::activate("c", options(true, false, true), files(), "db"),
        Ok(ActivationStart::Empty)
    ));
    assert!(matches!(
        ltx_repl::activate("c", options(false, false, false), files(), "db"),
        Ok(ActivationStart::Remote(restore))
            if restore.cell == "c" && restore.epoch == 5 && restore.stage == RemoteStage::Listing
    ));
    assert!(matches!(
        ltx_repl::activate("c", options(false, false, true), files(), "db"),
        Ok(ActivationStart::Snapshot(KeptSnapshot { epoch: 4, legacy: false }))
    ));
}

fn epochs() -> Vec<String> {
    vec!["e2".into(), "e3".into(), "e10".into(), "other".into()]
}

#[test]
fn restores_read_to_the_seal() {
    let mut restore = RemoteRestore::begin("c", 11);
    assert!(matches!(restore.listed(&epochs()), RemoteStep::ReadSeal { from: 10 }));
    assert!(matches!(
        restore.read(SealRead::Found(Ok(7))),
        RemoteStep::Restore { from: 10, cap: 7 }
    ));

    let mut restore = RemoteRestore::begin("c", 11);
    restore.listed(&epochs());
    assert!(matches!(restore.read(SealRead::Missing), RemoteStep::Plan { from: 10 }));
    assert!(matches!(
        restore.planned(Ok(vec![4, 9, 6])),
        RemoteStep::Create { from: 10, seal: EpochSeal { max_txid: 9, sealed_by_epoch: 11 } }
    ));
    assert!(matches!(
        restore.written(SealWrite::Created),
        RemoteStep::Restore { from: 10, cap: 9 }
    ));
}

#[test]
fn restores_keep_to_another_activations_seal() {
    let mut restore = RemoteRestore::begin("c", 11);
    restore.listed(&epochs());
    restore.read(SealRead::Missing);
    restore.planned(Ok(vec![4, 9, 6]));
    assert!(matches!(
        restore.written(SealWrite::AlreadyExists),
        RemoteStep::Reread { from: 10 }
    ));
    assert!(matches!(
        restore.reread(Ok(Ok(6))),
        RemoteStep::Restore { from: 10, cap: 6 }
    ));
    assert_eq!(restore.stage, RemoteStage::Over);
}

#[test]
fn restores_stop_at_their_errors() {
    let mut restore = RemoteRestore::begin("c", 11);
    assert!(matches!(restore.listed(&vec!["other".into()]), RemoteStep::Nothing));
    let mut restore = RemoteRestore::begin("c", 11);
    restore.listed(&epochs());
    assert!(matches!(
        restore.read(SealRead::Failed("gone".into())),
        RemoteStep::Fail(error) if error.ends_with("c e10: gone")
    ));
    let mut restore = RemoteRestore::begin("c", 11);
    restore.listed(&epochs());
    restore.read(SealRead::Missing);
    assert!(matches!(
        restore.planned(Ok(vec![])),
        RemoteStep::Fail(error) if error == "seal target c e10 is empty"
    ));
    let mut restore = RemoteRestore::begin("c", 11);
    restore.listed(&epochs());
    restore.read(SealRead::Missing);
    restore.planned(Ok(vec![1]));
    assert!(matches!(
        restore.written(SealWrite::Failed("full".into())),
        RemoteStep::Fail(error) if error == "seal c e10: full"
    ));
}

#[test]
fn uploads_cover_what_they_captured() {
    let (mut sync, _) = CellSync::activated(None, None);
    let first = sync.take_ticket();
    assert!(sync.is_dirty());
    assert!(sync.claim());
    assert!(!sync.claim());
    let captured = sync.begin_sync();
    let second = sync.take_ticket();
    sync.finish_sync(captured, Some(7));
    assert!(sync.is_durable(first));
    assert!(!sync.is_durable(second));
    assert!(matches!(sync.after_sync(true), AfterSync::Again));
    assert!(matches!(sync.after_sync(false), AfterSync::BackOff));
    let captured = sync.begin_sync();
    sync.finish_sync(captured, None);
    assert!(!sync.is_durable(second));
    sync.finish_sync(captured, Some(8));
    assert!(matches!(sync.after_sync(true), AfterSync::Rest));
    sync.release();
    assert!(!sync.claim());
    sync.take_ticket();
    assert!(sync.claim());
}

#[test]
fn durability_is_awaited() {
    assert_eq!(
        ltx_repl::await_durable("c", 2, None).err(),
        Some("ltx cell not resident: c epoch 2".to_string())
    );
    let (sync, _) = CellSync::activated(None, None);
    let (ticket, sync) = ltx_repl::await_durable("c", 2, Some(sync)).ok().unwrap();
    assert_eq!(ltx_repl::durability_answer(&sync, ticket, 5, false, "c", 2), None);
    assert_eq!(
        ltx_repl::durability_answer(&sync, ticket, 5, true, "c", 2),
        Some(Err("ltx durability timed out for c epoch 2".to_string()))
    );
    assert!(matches!(ltx_repl::sync_wait(Some(true)), SyncWait::Durable));
    assert!(matches!(ltx_repl::sync_wait(None), SyncWait::Unsupported));
}

#[test]
fn one_compaction_runs_at_a_time() {
    let (mut sync, queued) = CellSync::activated(Some(0), Some(4));
    assert!(!queued);
    assert!(!sync.maybe_queue_compaction(3));
    assert!(sync.maybe_queue_compaction(4));
    assert!(!sync.maybe_queue_compaction(9));
    assert!(sync.begin_compaction());
    sync.compact_cell(CompactionOutcome::Compacted(4));
    assert!(sync.maybe_queue_compaction(9));
    sync.cancel_compaction();
    assert!(!sync.begin_compaction());
    assert!(ltx_repl::compaction_pause_ms(100) <= ltx_repl::compaction_pause_ms(10_000));
}

#[test]
fn evictions_keep_a_snapshot_if_asked() {
    let kept = ltx_repl::evict(true);
    assert!(matches!(kept[0], EvictStep::KeepSnapshot));
    assert!(ltx_repl::evict(false).iter().all(|step| !matches!(step, EvictStep::KeepSnapshot)));
    assert_eq!(
        ltx_repl::close_for_reload("db", false),
        Err("resident database is missing: db".to_string())
    );
}

fn cell(id: &str, epoch: u64) -> LocalCell {
    LocalCell { id: id.into(), epoch }
}

#[test]
fn local_cells_are_listed_and_pruned() {
    let found = ltx_repl::local_cells(vec![cell("b", 1), cell("a", 2), cell("a", 1), cell("b", 1)]);
    let shown: Vec<(String, u64)> = found.iter().map(|c| (c.id.clone(), c.epoch)).collect();
    assert_eq!(
        shown,
        [("a".to_string(), 1), ("a".to_string(), 2), ("b".to_string(), 1)]
    );
    let keep = vec![cell("a", 2)];
    let stale = ltx_repl::stale_cells(found, &keep);
    assert_eq!(stale.len(), 2);
    assert_eq!(ltx_repl::check_inventory(&keep, &vec![cell("a", 2)]), Ok(()));
    assert_eq!(
        ltx_repl::check_inventory(&keep, &vec![]),
        Err("clean reload inventory mismatch after pruning: expected 1, found 0".to_string())
    );
}

#[test]
fn settings_have_bounds_and_defaults() {
    assert!(matches!(ltx_repl::compaction_config(false, None, None), Ok(None)));
    let config = ltx_repl::compaction_config(true, None, None).ok().unwrap().unwrap();
    assert_eq!((config.min_txids, config.concurrency), (256, 2));
    assert_eq!(
        ltx_repl::compaction_config(true, Some(1), None).err(),
        Some("CELLD_LTX_COMPACTION_MIN_TXIDS must be at least 2".to_string())
    );
    assert_eq!(
        ltx_repl::compaction_config(true, None, Some(0)).err(),
        Some("CELLD_LTX_COMPACTIONS must be positive".to_string())
    );
    assert_eq!(ltx_repl::credential(Some(""), Some("env")), "env");
    assert_eq!(ltx_repl::credential(Some("managed"), Some("env")), "managed");
    assert_eq!(ltx_repl::credential(None, None), "");
    assert!(ltx_repl::force_path_style(Some("http://x")));
    assert!(!ltx_repl::force_path_style(None));
}
