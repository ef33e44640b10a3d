use folder_organizer::actions::RuleActionResult;
use folder_organizer::config::{AppConfig, WatchedFolder};
use folder_organizer::models::ScheduledDeletion;
use folder_organizer::rules::{FileCandidate, Location};
use folder_organizer::commands::find_folder;
use folder_organizer::scan::{
    owning_folder, revoke_schedule, scan_activity, schedule_deletion, EvalOutcome,
};
use folder_organizer::schedule::{DeletionQueue, Selector};
use folder_organizer::scheduler::{
    begin_prune, daily_tick, log_cutoff, maintenance_interval, maintenance_sleep_seconds,
    next_prune_step, process_due_deletions, settle_due, storage_cap_bytes, DueEvent, Probe,
    PruneAction, PruneEvent, PruneStage, PRUNE_BATCH, UNDO_DAYS,
};

const DAY: i64 = 86400;

fn candidate(path: &str, name: &str) -> FileCandidate {
    FileCandidate {
        path: path.to_string(),
        file_name: name.to_string(),
        location: Location { components: Vec::new(), canonical: None },
    }
}

fn entry(id: &str, path: &str, rule: &str, scheduled_at: i64, delete_after: i64) -> ScheduledDeletion {
    ScheduledDeletion {
        id: id.to_string(),
        file_path: path.to_string(),
        folder_id: "f1".to_string(),
        rule_name: rule.to_string(),
        file_name: "name".to_string(),
        extension: None,
        size_bytes: Some(1),
        scheduled_at,
        delete_after,
    }
}

fn paths_of(q: &DeletionQueue) -> Vec<String> {
    (0..q.len()).map(|i| q.get(i).file_path.clone()).collect()
}

fn probe(path: &str, event: DueEvent) -> Probe {
    Probe { file_path: path.to_string(), event }
}

#[test]
fn scheduling_twice_keeps_one_row_and_the_first_time() {
    let mut q = DeletionQueue::new();
    let file = candidate("/d/old.log", "old.log");
    let first = schedule_deletion(&mut q, &file, "f1", "logs", 7, Some(42), 1_000);
    assert!(matches!(first, EvalOutcome::Scheduled { newly_inserted: true, .. }));
    let second = schedule_deletion(&mut q, &file, "f1", "logs", 7, Some(42), 5_000);
    assert!(matches!(second, EvalOutcome::Scheduled { newly_inserted: false, .. }));
    assert_eq!(q.len(), 1);
    assert_eq!(q.get(0).delete_after, 1_000 + 7 * DAY);
    assert_eq!(q.get(0).scheduled_at, 1_000);
}

#[test]
fn a_second_scheduling_is_a_no_op_at_any_time() {
    let mut q = DeletionQueue::new();
    let file = candidate("/d/old.log", "old.log");
    schedule_deletion(&mut q, &file, "f1", "logs", 7, None, 1_000);
    let again = schedule_deletion(&mut q, &file, "f1", "logs", u32::MAX, Some(9), i64::MAX);
    assert!(matches!(again, EvalOutcome::Scheduled { newly_inserted: false, .. }));
    assert_eq!(q.len(), 1);
    assert_eq!((q.get(0).scheduled_at, q.get(0).delete_after), (1_000, 1_000 + 7 * DAY));
    assert_eq!(q.get(0).size_bytes, None);
}

#[test]
fn a_schedule_records_the_file() {
    let mut q = DeletionQueue::new();
    let file = candidate("/d/old.tar.gz", "old.tar.gz");
    let outcome = schedule_deletion(&mut q, &file, "f9", "archives", 30, None, -5);
    match outcome {
        EvalOutcome::Scheduled { file_path, file_name, rule_name, newly_inserted } => {
            assert_eq!(file_path, "/d/old.tar.gz");
            assert_eq!(file_name, "old.tar.gz");
            assert_eq!(rule_name, "archives");
            assert!(newly_inserted);
        }
        other => panic!("expected a schedule, got {:?}", other),
    }
    let e = q.get(0);
    assert_eq!(e.file_path, "/d/old.tar.gz");
    assert_eq!(e.folder_id, "f9");
    assert_eq!(e.rule_name, "archives");
    assert_eq!(e.file_name, "old.tar.gz");
    assert_eq!(e.extension.as_deref(), Some("gz"));
    assert_eq!(e.size_bytes, None);
    assert_eq!(e.scheduled_at, -5);
    assert_eq!(e.delete_after, -5 + 30 * DAY);
    assert!(!e.id.is_empty());
}

#[test]
fn zero_days_is_due_at_once() {
    let mut q = DeletionQueue::new();
    schedule_deletion(&mut q, &candidate("/d/a", "a"), "f1", "r", 0, None, 777);
    assert_eq!(q.get_due_deletions(777).len(), 1);
}

#[test]
fn ids_are_fresh() {
    let mut q = DeletionQueue::new();
    schedule_deletion(&mut q, &candidate("/d/a", "a"), "f1", "r", 1, None, 0);
    schedule_deletion(&mut q, &candidate("/d/b", "b"), "f1", "r", 1, None, 0);
    assert_ne!(q.get(0).id, q.get(1).id);
    assert_eq!(q.get(0).id.len(), 36);
}

#[test]
fn due_boundary_is_inclusive() {
    let mut q = DeletionQueue::new();
    assert!(q.upsert(entry("1", "/at", "r", 0, 100)));
    assert!(q.upsert(entry("2", "/after", "r", 0, 101)));
    assert!(q.upsert(entry("3", "/before", "r", 0, 99)));
    let due: Vec<String> = q.get_due_deletions(100).into_iter().map(|e| e.file_path).collect();
    assert_eq!(due, vec!["/before".to_string(), "/at".to_string()]);
    assert!(q.get_due_deletions(98).is_empty());
    assert_eq!(q.get_due_deletions(101).len(), 3);
}

#[test]
fn upsert_keeps_the_first_schedule_of_a_path() {
    let mut q = DeletionQueue::new();
    assert!(q.upsert(entry("1", "/a", "r", 0, 100)));
    assert!(!q.upsert(entry("2", "/a", "other", 50, 900)));
    assert_eq!(q.len(), 1);
    assert_eq!(q.get(0).id, "1");
    assert_eq!(q.get(0).delete_after, 100);
    assert!(q.is_file_scheduled("/a"));
    assert!(!q.is_file_scheduled("/A"));
}

#[test]
fn removal_by_path_id_and_rule() {
    let mut q = DeletionQueue::new();
    q.upsert(entry("1", "/a", "r1", 0, 1));
    q.upsert(entry("2", "/b", "r2", 0, 2));
    q.upsert(entry("3", "/c", "r1", 0, 3));
    q.upsert(entry("4", "/d", "r3", 0, 4));
    assert!(q.remove_scheduled_deletion_by_path("/b"));
    assert!(!q.remove_scheduled_deletion_by_path("/b"));
    assert_eq!(paths_of(&q), vec!["/a", "/c", "/d"]);
    assert_eq!(q.cancel_scheduled_deletion("4"), 1);
    assert_eq!(q.cancel_scheduled_deletion("nope"), 0);
    assert_eq!(paths_of(&q), vec!["/a", "/c"]);
    let sel = Selector::Rule { folder_id: "f1".to_string(), rule_name: "r1".to_string() };
    assert_eq!(q.remove(&sel), 2);
    assert_eq!(q.len(), 0);
}

#[test]
fn removal_by_rule_needs_the_folder_too() {
    let mut q = DeletionQueue::new();
    q.upsert(entry("1", "/a", "r1", 0, 1));
    let sel = Selector::Rule { folder_id: "other".to_string(), rule_name: "r1".to_string() };
    assert_eq!(q.remove(&sel), 0);
    assert_eq!(q.len(), 1);
}

#[test]
fn reschedule_counts_from_the_first_scheduling() {
    let mut q = DeletionQueue::new();
    q.upsert(entry("1", "/a", "r1", 1_000, 1_000 + 7 * DAY));
    q.upsert(entry("2", "/b", "r2", 2_000, 2_000 + 7 * DAY));
    q.upsert(entry("3", "/c", "r1", i64::MAX - 10, i64::MAX));
    q.reschedule("f1", "r1", 2);
    assert_eq!(q.get(0).delete_after, 1_000 + 2 * DAY);
    assert_eq!(q.get(1).delete_after, 2_000 + 7 * DAY);
    assert_eq!(q.get(2).delete_after, i64::MAX);
    assert_eq!(q.get(2).scheduled_at, i64::MAX - 10);
}

#[test]
fn a_vanished_file_takes_its_schedule_silently() {
    let e = entry("1", "/a", "r", 0, 10);
    let o = settle_due(&e, DueEvent::Missing, 50);
    assert_eq!(o.file_path, "/a");
    assert!(o.remove_schedule);
    assert!(!o.deleted);
    assert!(o.activity.is_none());
    assert!(o.undo.is_none());
}

#[test]
fn a_deleted_file_leaves_a_log_line_and_an_undo_record() {
    let e = entry("1", "/a", "r", 0, 10);
    let o = settle_due(&e, DueEvent::Trashed, 50);
    assert!(o.remove_schedule);
    assert!(o.deleted);
    let a = o.activity.unwrap();
    assert_eq!(a.file_path, "/a");
    assert_eq!(a.file_name, "name");
    assert_eq!(a.action, "auto_delete");
    assert_eq!(a.rule_name.as_deref(), Some("r"));
    assert_eq!(a.folder_id.as_deref(), Some("f1"));
    assert_eq!(a.timestamp, 50);
    assert_eq!(a.result, "success");
    assert_eq!(a.details.as_deref(), Some("File sent to Recycle Bin"));
    let u = o.undo.unwrap();
    assert_eq!(u.original_path, "/a");
    assert_eq!(u.current_path, None);
    assert_eq!(u.action, "auto_delete");
    assert_eq!(u.timestamp, 50);
    assert_eq!(u.expires_at, 50 + 7 * DAY);
    assert_eq!(UNDO_DAYS, 7);
    assert!(!u.restored);
    assert_ne!(u.id, a.id);
}

#[test]
fn a_failed_deletion_keeps_its_schedule() {
    let e = entry("1", "/a", "r", 0, 10);
    let o = settle_due(&e, DueEvent::TrashFailed, 50);
    assert!(!o.remove_schedule);
    assert!(!o.deleted);
    let a = o.activity.unwrap();
    assert_eq!(a.result, "error");
    assert_eq!(a.details.as_deref(), Some("Failed to delete file"));
    assert!(o.undo.is_none());
}

#[test]
fn due_deletions_come_earliest_first() {
    let mut q = DeletionQueue::new();
    q.upsert(entry("1", "/five", "r", 0, 5));
    q.upsert(entry("2", "/three", "r", 0, 3));
    q.upsert(entry("3", "/later", "r", 0, 11));
    q.upsert(entry("4", "/four", "r", 0, 4));
    let due: Vec<i64> = q.get_due_deletions(10).iter().map(|e| e.delete_after).collect();
    assert_eq!(due, vec![3, 4, 5]);
    let all: Vec<i64> = q.get_scheduled_deletions().iter().map(|e| e.delete_after).collect();
    assert_eq!(all, vec![3, 4, 5, 11]);
    // The queue itself keeps the order in which the schedules were made.
    assert_eq!(paths_of(&q), vec!["/five", "/three", "/later", "/four"]);
}

#[test]
fn listings_keep_every_field() {
    let mut q = DeletionQueue::new();
    q.upsert(entry("1", "/b", "r1", 7, 9));
    q.upsert(entry("2", "/a", "r2", 1, 2));
    let all = q.get_scheduled_deletions();
    assert_eq!(all.len(), 2);
    assert_eq!((all[0].id.as_str(), all[0].file_path.as_str()), ("2", "/a"));
    assert_eq!((all[0].rule_name.as_str(), all[0].scheduled_at, all[0].delete_after), ("r2", 1, 2));
    assert_eq!((all[1].id.as_str(), all[1].file_path.as_str()), ("1", "/b"));
    assert_eq!(all[1].size_bytes, Some(1));
    let same: Vec<i64> = {
        let mut q = DeletionQueue::new();
        q.upsert(entry("1", "/x", "r", 0, 5));
        q.upsert(entry("2", "/y", "r", 0, 5));
        q.get_due_deletions(5).iter().map(|e| e.delete_after).collect()
    };
    assert_eq!(same, vec![5, 5]);
}

#[test]
fn processing_counts_only_deleted_files() {
    let mut q = DeletionQueue::new();
    q.upsert(entry("1", "/gone", "r", 0, 10));
    q.upsert(entry("2", "/ok", "r", 0, 10));
    q.upsert(entry("3", "/stuck", "r", 0, 10));
    q.upsert(entry("4", "/later", "r", 0, 11));
    let found = vec![
        probe("/gone", DueEvent::Missing),
        probe("/ok", DueEvent::Trashed),
        probe("/stuck", DueEvent::TrashFailed),
    ];
    let (outcomes, count) = process_due_deletions(&mut q, &found, 10);
    assert_eq!(count, 1);
    assert_eq!(outcomes.len(), 3);
    assert_eq!(paths_of(&q), vec!["/stuck", "/later"]);
    // The one that failed is tried again.
    assert_eq!(q.get_due_deletions(10).len(), 1);
}

#[test]
fn a_whole_pass_settles_every_due_deletion() {
    let mut q = DeletionQueue::new();
    q.upsert(entry("1", "/gone", "r", 0, 10));
    q.upsert(entry("2", "/ok", "r", 0, 10));
    q.upsert(entry("3", "/stuck", "r", 0, 10));
    q.upsert(entry("4", "/later", "r", 0, 11));
    q.upsert(entry("5", "/ok2", "r", 0, 9));
    let found: Vec<Probe> = q
        .get_due_deletions(10)
        .iter()
        .map(|e| {
            let event = match e.file_path.as_str() {
                "/gone" => DueEvent::Missing,
                "/stuck" => DueEvent::TrashFailed,
                _ => DueEvent::Trashed,
            };
            probe(&e.file_path, event)
        })
        .collect();
    assert_eq!(found.len(), 4);
    let (outcomes, count) = process_due_deletions(&mut q, &found, 10);
    assert_eq!(count, 2);
    assert_eq!(outcomes.len(), 4);
    let of = |path: &str| outcomes.iter().find(|o| o.file_path == path).unwrap();
    assert!(of("/gone").activity.is_none());
    assert!(of("/gone").remove_schedule);
    assert_eq!(of("/ok").undo.as_ref().unwrap().original_path, "/ok");
    assert_eq!(of("/stuck").activity.as_ref().unwrap().result, "error");
    assert!(!of("/stuck").remove_schedule);
    assert_eq!(of("/ok2").activity.as_ref().unwrap().file_path, "/ok2");
    assert_eq!(paths_of(&q), vec!["/stuck", "/later"]);
    let (outcomes, count) = process_due_deletions(&mut q, &Vec::new(), 10);
    assert_eq!((outcomes.len(), count), (0, 0));
    assert_eq!(q.len(), 2);
}

#[test]
fn a_pass_at_the_very_second_processes_the_schedule() {
    let mut q = DeletionQueue::new();
    q.upsert(entry("1", "/now", "r", 0, 500));
    let (outcomes, count) =
        process_due_deletions(&mut q, &vec![probe("/now", DueEvent::Trashed)], 500);
    assert_eq!(count, 1);
    assert_eq!(outcomes.len(), 1);
    assert!(outcomes[0].deleted);
    assert!(outcomes[0].undo.is_some());
    assert_eq!(q.len(), 0);
}

#[test]
fn a_pass_one_second_early_leaves_the_schedule_alone() {
    let mut q = DeletionQueue::new();
    q.upsert(entry("1", "/soon", "r", 3, 501));
    // Even if its file was looked at, a schedule that is not yet due stays.
    let (outcomes, count) =
        process_due_deletions(&mut q, &vec![probe("/soon", DueEvent::Trashed)], 500);
    assert_eq!(count, 0);
    assert!(outcomes.is_empty());
    assert_eq!(q.len(), 1);
    let e = q.get(0);
    assert_eq!((e.id.as_str(), e.file_path.as_str()), ("1", "/soon"));
    assert_eq!((e.scheduled_at, e.delete_after), (3, 501));
    assert!(q.get_due_deletions(500).is_empty());
}

#[test]
fn a_due_schedule_that_was_not_looked_at_stays() {
    let mut q = DeletionQueue::new();
    q.upsert(entry("1", "/a", "r", 0, 1));
    q.upsert(entry("2", "/b", "r", 0, 1));
    let found = vec![probe("/b", DueEvent::Missing), probe("/b", DueEvent::TrashFailed)];
    let (outcomes, count) = process_due_deletions(&mut q, &found, 10);
    assert_eq!(count, 0);
    assert_eq!(outcomes.len(), 1);
    assert_eq!(outcomes[0].file_path, "/b");
    // Of two answers for one path the first counts.
    assert!(outcomes[0].remove_schedule);
    assert_eq!(paths_of(&q), vec!["/a"]);
}

#[test]
fn a_schedule_that_could_not_be_written_is_taken_back() {
    let mut q = DeletionQueue::new();
    q.upsert(entry("0", "/other", "r", 0, 1));
    let file = candidate("/d/a.log", "a.log");
    let outcome = schedule_deletion(&mut q, &file, "f1", "logs", 7, None, 100);
    assert_eq!(q.len(), 2);
    let revoked = revoke_schedule(&mut q, outcome);
    assert!(matches!(revoked, EvalOutcome::Scheduled { newly_inserted: false, .. }));
    assert_eq!(paths_of(&q), vec!["/other"]);
    assert!(scan_activity(&revoked, "f1", 100).0.is_none());
    // A schedule that was there before is not taken back.
    let again = schedule_deletion(&mut q, &candidate("/other", "other"), "f1", "r", 7, None, 100);
    let kept = revoke_schedule(&mut q, again);
    assert!(matches!(kept, EvalOutcome::Scheduled { newly_inserted: false, .. }));
    assert_eq!(paths_of(&q), vec!["/other"]);
    assert!(matches!(revoke_schedule(&mut q, EvalOutcome::NoMatch), EvalOutcome::NoMatch));
}

#[test]
fn schedules_of_vanished_files_are_dropped() {
    let mut q = DeletionQueue::new();
    q.upsert(entry("1", "/a", "r", 0, 1));
    q.upsert(entry("2", "/b", "r", 0, 2));
    q.upsert(entry("3", "/c", "r", 0, 3));
    let dropped = q.forget_missing(&vec![false, true, false]);
    assert_eq!(dropped, vec!["/a".to_string(), "/c".to_string()]);
    assert_eq!(paths_of(&q), vec!["/b"]);
    assert!(q.forget_missing(&vec![true]).is_empty());
    assert_eq!(q.len(), 1);
}

#[test]
fn maintenance_runs_at_least_every_minute() {
    assert_eq!(maintenance_interval(0), 1);
    assert_eq!(maintenance_interval(1), 1);
    assert_eq!(maintenance_interval(5), 5);
    assert_eq!(maintenance_sleep_seconds(0), 60);
    assert_eq!(maintenance_sleep_seconds(5), 300);
    assert_eq!(maintenance_sleep_seconds(u32::MAX), u32::MAX as u64 * 60);
}

#[test]
fn daily_pass_runs_once_from_its_hour_on() {
    assert_eq!(daily_tick(2, 3, None, 100), (false, None));
    assert_eq!(daily_tick(3, 3, None, 100), (true, Some(100)));
    assert_eq!(daily_tick(4, 3, Some(100), 100), (false, Some(100)));
    assert_eq!(daily_tick(23, 3, Some(100), 100), (false, Some(100)));
    assert_eq!(daily_tick(2, 3, Some(100), 101), (false, Some(100)));
    assert_eq!(daily_tick(3, 3, Some(100), 101), (true, Some(101)));
    assert_eq!(daily_tick(0, 0, Some(365), 1), (true, Some(1)));
}

#[test]
fn cutoff_and_cap() {
    assert_eq!(log_cutoff(100 * DAY, 30), 70 * DAY);
    assert_eq!(log_cutoff(5, 0), 5);
    assert_eq!(storage_cap_bytes(0), None);
    assert_eq!(storage_cap_bytes(1), Some(1024 * 1024));
    assert_eq!(storage_cap_bytes(2048), Some(2048 * 1024 * 1024));
    assert_eq!(storage_cap_bytes(u32::MAX), Some(u32::MAX as u64 * 1024 * 1024));
}

#[test]
fn a_store_under_its_cap_is_left_alone() {
    let (s, a) = next_prune_step(begin_prune(), PruneEvent::Measured(10), 10);
    assert_eq!(s.stage, PruneStage::Done);
    assert_eq!(a, PruneAction::Stop);
    let (s, a) = next_prune_step(begin_prune(), PruneEvent::Measured(10), 0);
    assert_eq!(s.stage, PruneStage::Done);
    assert_eq!(a, PruneAction::Stop);
    assert_eq!(s.deleted, 0);
}

#[test]
fn pruning_takes_the_log_first_then_undo_then_reclaims() {
    let max = 100;
    let mut s = begin_prune();
    let mut trace = Vec::new();
    let events = [
        PruneEvent::Measured(500),
        PruneEvent::Measured(500),
        PruneEvent::Deleted(500),
        PruneEvent::Measured(400),
        PruneEvent::Deleted(20),
        PruneEvent::Measured(300),
        PruneEvent::Deleted(0),
        PruneEvent::Measured(300),
        PruneEvent::Deleted(7),
        PruneEvent::Measured(90),
    ];
    for e in events {
        let (next, action) = next_prune_step(s, e, max);
        s = next;
        trace.push(action);
    }
    assert_eq!(
        trace,
        vec![
            PruneAction::Measure,
            PruneAction::DeleteOldestActivity(500),
            PruneAction::Measure,
            PruneAction::DeleteOldestActivity(500),
            PruneAction::Measure,
            PruneAction::DeleteOldestActivity(500),
            PruneAction::Measure,
            PruneAction::DeleteOldestUndo(500),
            PruneAction::Measure,
            PruneAction::Vacuum,
        ]
    );
    assert_eq!(PRUNE_BATCH, 500);
    assert_eq!(s.stage, PruneStage::Done);
    assert_eq!(s.deleted, 527);
    let (s, a) = next_prune_step(s, PruneEvent::Measured(1000), max);
    assert_eq!(a, PruneAction::Stop);
    assert_eq!(s.deleted, 527);
}

#[test]
fn pruning_stops_when_nothing_is_left() {
    let mut s = begin_prune();
    for e in [PruneEvent::Measured(9), PruneEvent::Measured(9), PruneEvent::Deleted(0)] {
        s = next_prune_step(s, e, 1).0;
    }
    assert_eq!(s.stage, PruneStage::Undo);
    let (s, a) = next_prune_step(s, PruneEvent::Measured(9), 1);
    assert_eq!(a, PruneAction::DeleteOldestUndo(500));
    let (s, a) = next_prune_step(s, PruneEvent::Deleted(0), 1);
    assert_eq!(a, PruneAction::Vacuum);
    assert_eq!(s.stage, PruneStage::Done);
}

#[test]
fn pruned_count_does_not_overflow() {
    let mut s = begin_prune();
    s.stage = PruneStage::Activity;
    s.deleted = u64::MAX - 1;
    let (s, _) = next_prune_step(s, PruneEvent::Deleted(5), 1);
    assert_eq!(s.deleted, u64::MAX);
}

fn result(success: bool) -> RuleActionResult {
    RuleActionResult {
        file_path: "/in/a.pdf".to_string(),
        file_name: "a.pdf".to_string(),
        action: if success { "moved".to_string() } else { "move".to_string() },
        rule_name: "pdf".to_string(),
        success,
        details: Some("Moved to /out/a.pdf".to_string()),
    }
}

#[test]
fn scan_logs_moves_as_they_went() {
    let (line, counted) = scan_activity(&EvalOutcome::Action(result(true)), "f1", 99);
    let a = line.unwrap();
    assert!(counted);
    assert_eq!(a.file_path, "/in/a.pdf");
    assert_eq!(a.file_name, "a.pdf");
    assert_eq!(a.action, "moved");
    assert_eq!(a.rule_name.as_deref(), Some("pdf"));
    assert_eq!(a.folder_id.as_deref(), Some("f1"));
    assert_eq!(a.timestamp, 99);
    assert_eq!(a.result, "success");
    assert_eq!(a.details.as_deref(), Some("Moved to /out/a.pdf"));
    let (line, counted) = scan_activity(&EvalOutcome::Action(result(false)), "f1", 99);
    assert!(counted);
    assert_eq!(line.unwrap().result, "error");
}

#[test]
fn scan_logs_a_schedule_only_when_it_is_new() {
    let scheduled = |fresh: bool| EvalOutcome::Scheduled {
        file_path: "/in/a.tmp".to_string(),
        file_name: "a.tmp".to_string(),
        rule_name: "tmp".to_string(),
        newly_inserted: fresh,
    };
    let (line, counted) = scan_activity(&scheduled(true), "f1", 5);
    assert!(counted);
    let a = line.unwrap();
    assert_eq!(a.action, "scheduled");
    assert_eq!(a.result, "success");
    assert_eq!(a.details.as_deref(), Some("File scheduled for deletion"));
    assert_eq!(a.rule_name.as_deref(), Some("tmp"));
    let (line, counted) = scan_activity(&scheduled(false), "f1", 5);
    assert!(counted);
    assert!(line.is_none());
    let (line, counted) = scan_activity(&EvalOutcome::NoMatch, "f1", 5);
    assert!(!counted);
    assert!(line.is_none());
}

fn watched(id: &str, path: &str, enabled: bool) -> WatchedFolder {
    WatchedFolder {
        id: id.to_string(),
        path: path.to_string(),
        enabled,
        rules: Vec::new(),
        whitelist: Vec::new(),
        watch_subdirectories: false,
    }
}

#[test]
fn folders_are_found_by_id_and_by_parent_directory() {
    let mut config = AppConfig::default();
    config.folders.push(watched("a", "/x", false));
    config.folders.push(watched("b", "/x", true));
    config.folders.push(watched("b", "/y", true));
    assert_eq!(find_folder(&config, "b"), Some(1));
    assert_eq!(find_folder(&config, "c"), None);
    assert_eq!(owning_folder(&config, "/x"), Some(1));
    assert_eq!(owning_folder(&config, "/y"), Some(2));
    assert_eq!(owning_folder(&config, "/z"), None);
    assert_eq!(owning_folder(&config, "/x/sub"), None);
}
