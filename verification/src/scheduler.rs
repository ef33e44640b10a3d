//! The deletion scheduler and the maintenance loop: what happens to a
//! deletion that is due, when the daily pass runs, and how the store is
//! kept under its cap.

use vstd::prelude::*;
use crate::ids::new_id;
use crate::models::{opt_text, ActivityLogEntry, Schedule, ScheduledDeletion, UndoEntry};
use crate::scan::{days, logs, result_word};
use crate::schedule::{
    distinct_paths, due_upto, has_path, holds, is_due, is_due_list, present_only, schedules_of,
    DeletionQueue,
};
use crate::text::same_text;

verus! {

/// For how many days a deletion can be undone.
pub const UNDO_DAYS: u32 = 7;

/// How many rows one pruning step deletes.
pub const PRUNE_BATCH: u32 = 500;

/// What was found when a due deletion was tried.
#[derive(Debug, Clone, Copy)]
pub enum DueEvent {
    /// The file is gone already.
    Missing,
    /// The file was sent to the recycle bin.
    Trashed,
    /// The file is there and could not be deleted.
    TrashFailed,
}

/// What follows from a due deletion.
#[derive(Debug, Clone)]
pub struct DueOutcome {
    /// The file that the schedule was for.
    pub file_path: String,
    /// Whether the schedule leaves the queue. One that failed stays, to be
    /// tried again.
    pub remove_schedule: bool,
    /// Whether a file was deleted.
    pub deleted: bool,
    pub activity: Option<ActivityLogEntry>,
    pub undo: Option<UndoEntry>,
}

/// Whether an undo record is the one for a deletion at `now`.
pub open spec fn undo_for(u: UndoEntry, e: Schedule, now: i64) -> bool {
    &&& u.original_path@ == e.file_path
    &&& u.current_path is None
    &&& u.action@ == "auto_delete"@
    &&& u.timestamp == now
    &&& u.expires_at == now + days(UNDO_DAYS)
    &&& !u.restored
}

/// The outcome of a due deletion. A file that is gone takes its schedule
/// with it, silently. A deleted file leaves a log line and an undo record
/// that lasts seven days. A failure leaves a log line and the schedule.
pub open spec fn settles(o: DueOutcome, e: Schedule, event: DueEvent, now: i64) -> bool {
    &&& o.file_path@ == e.file_path
    &&& settles_as(o, e, event, now)
}

/// The outcome of a due deletion, but for the path it names.
pub open spec fn settles_as(o: DueOutcome, e: Schedule, event: DueEvent, now: i64) -> bool {
    match event {
        DueEvent::Missing => o.remove_schedule && !o.deleted && o.activity is None && o.undo is None,
        DueEvent::Trashed => {
            &&& o.remove_schedule
            &&& o.deleted
            &&& o.activity matches Some(a) && logs(
                a,
                e.file_path,
                e.file_name,
                "auto_delete"@,
                e.rule_name,
                e.folder_id,
                now,
                "success"@,
                Some("File sent to Recycle Bin"@),
            )
            &&& o.undo matches Some(u) && undo_for(u, e, now)
        },
        DueEvent::TrashFailed => {
            &&& !o.remove_schedule
            &&& !o.deleted
            &&& o.activity matches Some(a) && logs(
                a,
                e.file_path,
                e.file_name,
                "auto_delete"@,
                e.rule_name,
                e.folder_id,
                now,
                "error"@,
                Some("Failed to delete file"@),
            )
            &&& o.undo is None
        },
    }
}

fn deletion_line(entry: &ScheduledDeletion, now: i64, success: bool) -> (a: ActivityLogEntry)
    ensures
        logs(
            a,
            entry@.file_path,
            entry@.file_name,
            "auto_delete"@,
            entry@.rule_name,
            entry@.folder_id,
            now,
            result_word(success),
            Some(
                if success {
                    "File sent to Recycle Bin"@
                } else {
                    "Failed to delete file"@
                },
            ),
        ),
{
    let word = if success {
        String::from_str("success")
    } else {
        String::from_str("error")
    };
    let details = if success {
        String::from_str("File sent to Recycle Bin")
    } else {
        String::from_str("Failed to delete file")
    };
    ActivityLogEntry {
        id: new_id(),
        file_path: entry.file_path.clone(),
        file_name: entry.file_name.clone(),
        action: String::from_str("auto_delete"),
        rule_name: Some(entry.rule_name.clone()),
        folder_id: Some(entry.folder_id.clone()),
        timestamp: now,
        result: word,
        details: Some(details),
    }
}

/// Decide what follows from a due deletion.
pub fn settle_due(entry: &ScheduledDeletion, event: DueEvent, now: i64) -> (o: DueOutcome)
    requires
        now + days(UNDO_DAYS) <= i64::MAX,
    ensures
        settles(o, entry@, event, now),
{
    match event {
        DueEvent::Missing => DueOutcome {
            file_path: entry.file_path.clone(),
            remove_schedule: true,
            deleted: false,
            activity: None,
            undo: None,
        },
        DueEvent::Trashed => {
            let undo = UndoEntry {
                id: new_id(),
                original_path: entry.file_path.clone(),
                current_path: None,
                action: String::from_str("auto_delete"),
                timestamp: now,
                expires_at: now + (UNDO_DAYS as i64) * 86400,
                restored: false,
            };
            DueOutcome {
                file_path: entry.file_path.clone(),
                remove_schedule: true,
                deleted: true,
                activity: Some(deletion_line(entry, now, true)),
                undo: Some(undo),
            }
        },
        DueEvent::TrashFailed => DueOutcome {
            file_path: entry.file_path.clone(),
            remove_schedule: false,
            deleted: false,
            activity: Some(deletion_line(entry, now, false)),
            undo: None,
        },
    }
}

/// What was found when the file of a schedule was looked at.
#[derive(Debug, Clone)]
pub struct Probe {
    pub file_path: String,
    pub event: DueEvent,
}

/// What was found for a path: the event of the first probe of it among the
/// first `n`, if there is one.
pub open spec fn event_for(found: Seq<Probe>, path: Seq<char>, n: nat) -> Option<DueEvent>
    decreases n,
{
    if n == 0 || n > found.len() {
        None
    } else {
        match event_for(found, path, (n - 1) as nat) {
            Some(e) => Some(e),
            None => if found[n - 1].file_path@ == path {
                Some(found[n - 1].event)
            } else {
                None
            },
        }
    }
}

/// What was found for the file of a schedule, if it was looked at.
pub open spec fn found_for(found: Seq<Probe>, e: Schedule) -> Option<DueEvent> {
    event_for(found, e.file_path, found.len())
}

/// Whether a pass at `now` processes a schedule: it is due, and its file
/// was looked at. A schedule that is not yet due is never processed.
pub open spec fn processed(e: Schedule, found: Seq<Probe>, now: i64) -> bool {
    is_due(e, now) && found_for(found, e) is Some
}

/// Whether a schedule leaves the queue in a pass: it is processed, and its
/// deletion did not fail.
pub open spec fn leaves(e: Schedule, found: Seq<Probe>, now: i64) -> bool {
    processed(e, found, now) && !(found_for(found, e) matches Some(DueEvent::TrashFailed))
}

/// The queue after a pass, as far as its first `n` schedules go: those that
/// do not leave, in their order and as they were.
pub open spec fn after_pass(q: Seq<Schedule>, found: Seq<Probe>, now: i64, n: nat) -> Seq<Schedule>
    decreases n,
{
    if n == 0 || n > q.len() {
        Seq::empty()
    } else if leaves(q[n - 1], found, now) {
        after_pass(q, found, now, (n - 1) as nat)
    } else {
        after_pass(q, found, now, (n - 1) as nat).push(q[n - 1])
    }
}

/// Whether an outcome is that of a schedule of the queue which the pass
/// processes.
pub open spec fn outcome_of(o: DueOutcome, q: Seq<Schedule>, found: Seq<Probe>, now: i64) -> bool {
    exists|m: int| 0 <= m < q.len() && processed(q[m], found, now) && settled_by(o, q[m], found, now)
}

/// Whether an outcome settles a schedule by what was found for its file.
pub open spec fn settled_by(o: DueOutcome, e: Schedule, found: Seq<Probe>, now: i64) -> bool {
    match found_for(found, e) {
        Some(ev) => settles(o, e, ev, now),
        None => false,
    }
}

/// Whether some outcome among the first `n` is for this path.
pub open spec fn has_outcome(outs: Seq<DueOutcome>, path: Seq<char>, n: int) -> bool {
    exists|k: int| 0 <= k < n && k < outs.len() && outs[k].file_path@ == path
}

/// No two outcomes are for the same path.
pub open spec fn distinct_outcomes(outs: Seq<DueOutcome>) -> bool {
    forall|a: int, b: int| 0 <= a < b < outs.len() ==> outs[a].file_path@ != outs[b].file_path@
}

/// How many of the first `n` outcomes say that a file was deleted.
pub open spec fn deleted_count(outs: Seq<DueOutcome>, n: nat) -> nat
    decreases n,
{
    if n == 0 || n > outs.len() {
        0
    } else if outs[n - 1].deleted {
        deleted_count(outs, (n - 1) as nat) + 1
    } else {
        deleted_count(outs, (n - 1) as nat)
    }
}

/// What a pass gives: one outcome for each schedule that it processes, and
/// none for any other.
pub open spec fn pass_outcomes(
    outs: Seq<DueOutcome>,
    q: Seq<Schedule>,
    found: Seq<Probe>,
    now: i64,
) -> bool {
    &&& distinct_outcomes(outs)
    &&& forall|k: int| 0 <= k < outs.len() ==> #[trigger] outcome_of(outs[k], q, found, now)
    &&& forall|m: int|
        0 <= m < q.len() && processed(q[m], found, now) ==> #[trigger] has_outcome(
            outs,
            q[m].file_path,
            outs.len() as int,
        )
}

proof fn lemma_event_stays(found: Seq<Probe>, path: Seq<char>, n: nat, m: nat)
    requires
        n <= m <= found.len(),
        event_for(found, path, n) is Some,
    ensures
        event_for(found, path, m) == event_for(found, path, n),
    decreases m - n,
{
    if n < m {
        lemma_event_stays(found, path, n, (m - 1) as nat);
    }
}

/// What was found for a path, if its file was looked at.
fn find_event(found: &Vec<Probe>, path: &str) -> (r: Option<DueEvent>)
    ensures
        r == event_for(found@, path@, found@.len()),
{
    let mut i: usize = 0;
    while i < found.len()
        invariant
            i <= found@.len(),
            event_for(found@, path@, i as nat) is None,
        decreases found.len() - i,
    {
        if same_text(found[i].file_path.as_str(), path) {
            proof {
                lemma_event_stays(found@, path@, (i + 1) as nat, found@.len());
            }
            return Some(found[i].event);
        }
        i = i + 1;
    }
    None
}

fn failed(event: DueEvent) -> (r: bool)
    ensures
        r == (event is TrashFailed),
{
    match event {
        DueEvent::TrashFailed => true,
        _ => false,
    }
}

/// Whether the first `n` flags say of each schedule that it does not leave.
pub open spec fn stay_flags(stays: Seq<bool>, q: Seq<Schedule>, found: Seq<Probe>, now: i64, n: int) -> bool {
    forall|k: int| 0 <= k < n ==> #[trigger] stays[k] == !leaves(q[k], found, now)
}

proof fn lemma_flags_give_pass(
    stays: Seq<bool>,
    q: Seq<Schedule>,
    found: Seq<Probe>,
    now: i64,
    n: nat,
)
    requires
        n <= q.len(),
        stays.len() == q.len(),
        stay_flags(stays, q, found, now, n as int),
    ensures
        present_only(q, stays, n) == after_pass(q, found, now, n),
    decreases n,
{
    if n > 0 {
        lemma_flags_give_pass(stays, q, found, now, (n - 1) as nat);
        assert(stays[n - 1] == !leaves(q[n - 1], found, now));
    }
}

proof fn lemma_deleted_count_bound(outs: Seq<DueOutcome>, n: nat)
    requires
        n <= outs.len(),
    ensures
        deleted_count(outs, n) <= n,
    decreases n,
{
    if n > 0 {
        lemma_deleted_count_bound(outs, (n - 1) as nat);
    }
}

proof fn lemma_deleted_count_push(outs: Seq<DueOutcome>, o: DueOutcome, n: nat)
    requires
        n <= outs.len(),
    ensures
        deleted_count(outs.push(o), n) == deleted_count(outs, n),
    decreases n,
{
    if n > 0 {
        lemma_deleted_count_push(outs, o, (n - 1) as nat);
        assert(outs.push(o)[n - 1] == outs[n - 1]);
    }
}

/// Whether the outcomes are those of the first `i` schedules of a due list.
pub open spec fn outcomes_upto(
    outs: Seq<DueOutcome>,
    due: Seq<Schedule>,
    q: Seq<Schedule>,
    found: Seq<Probe>,
    now: i64,
    i: int,
) -> bool {
    &&& outs.len() <= i
    &&& distinct_outcomes(outs)
    &&& forall|k: int| 0 <= k < outs.len() ==> #[trigger] outcome_of(outs[k], q, found, now)
    &&& forall|k: int| 0 <= k < outs.len() ==> #[trigger] path_among(due, outs[k].file_path@, i)
    &&& forall|j: int|
        0 <= j < i && found_for(found, due[j]) is Some ==> #[trigger] has_outcome(
            outs,
            due[j].file_path,
            outs.len() as int,
        )
}

/// Whether one of the first `n` schedules is for this path.
pub open spec fn path_among(due: Seq<Schedule>, path: Seq<char>, n: int) -> bool {
    exists|j: int| 0 <= j < n && j < due.len() && due[j].file_path == path
}

/// One more schedule of the due list was looked for; it had no probe.
proof fn lemma_outcomes_skip(
    outs: Seq<DueOutcome>,
    due: Seq<Schedule>,
    q: Seq<Schedule>,
    found: Seq<Probe>,
    now: i64,
    i: int,
)
    requires
        0 <= i < due.len(),
        outcomes_upto(outs, due, q, found, now, i),
        found_for(found, due[i]) is None,
    ensures
        outcomes_upto(outs, due, q, found, now, i + 1),
{
    assert forall|k: int| 0 <= k < outs.len() implies #[trigger] path_among(
        due,
        outs[k].file_path@,
        i + 1,
    ) by {
        assert(path_among(due, outs[k].file_path@, i));
        let j = choose|j: int| 0 <= j < i && j < due.len() && due[j].file_path == outs[k].file_path@;
        assert(due[j].file_path == outs[k].file_path@);
    }
    assert forall|j: int| 0 <= j < i + 1 && found_for(found, due[j]) is Some implies #[trigger] has_outcome(
        outs,
        due[j].file_path,
        outs.len() as int,
    ) by {
        assert(j < i);
    }
}

/// One more schedule of the due list was settled.
proof fn lemma_outcomes_push(
    outs: Seq<DueOutcome>,
    o: DueOutcome,
    ev: DueEvent,
    due: Seq<Schedule>,
    q: Seq<Schedule>,
    found: Seq<Probe>,
    now: i64,
    i: int,
)
    requires
        0 <= i < due.len(),
        is_due_list(due, q, now),
        outcomes_upto(outs, due, q, found, now, i),
        found_for(found, due[i]) == Some(ev),
        settles(o, due[i], ev, now),
    ensures
        outcomes_upto(outs.push(o), due, q, found, now, i + 1),
{
    let after = outs.push(o);
    assert(is_due(due[i], now));
    assert(holds(q, due[i], q.len() as int));
    let m = choose|m: int| 0 <= m < q.len() && m < q.len() && q[m] == due[i];
    assert(processed(q[m], found, now) && settled_by(o, q[m], found, now));
    assert(outcome_of(o, q, found, now));
    assert forall|k: int| 0 <= k < after.len() implies #[trigger] outcome_of(
        after[k],
        q,
        found,
        now,
    ) by {
        if k < outs.len() {
            assert(after[k] == outs[k]);
            assert(outcome_of(outs[k], q, found, now));
        }
    }
    assert forall|k: int| 0 <= k < after.len() implies #[trigger] path_among(
        due,
        after[k].file_path@,
        i + 1,
    ) by {
        if k < outs.len() {
            assert(after[k] == outs[k]);
            assert(path_among(due, outs[k].file_path@, i));
            let j = choose|j: int|
                0 <= j < i && j < due.len() && due[j].file_path == outs[k].file_path@;
            assert(due[j].file_path == after[k].file_path@);
        } else {
            assert(due[i].file_path == after[k].file_path@);
        }
    }
    assert forall|a: int, b: int| 0 <= a < b < after.len() implies after[a].file_path@
        != after[b].file_path@ by {
        if b < outs.len() {
            assert(after[a] == outs[a] && after[b] == outs[b]);
        } else {
            assert(after[a] == outs[a]);
            assert(path_among(due, outs[a].file_path@, i));
            let j = choose|j: int|
                0 <= j < i && j < due.len() && due[j].file_path == outs[a].file_path@;
            assert(due[j].file_path != due[i].file_path);
        }
    }
    assert forall|j: int| 0 <= j < i + 1 && found_for(found, due[j]) is Some implies #[trigger] has_outcome(
        after,
        due[j].file_path,
        after.len() as int,
    ) by {
        if j < i {
            assert(has_outcome(outs, due[j].file_path, outs.len() as int));
            let k = choose|k: int|
                0 <= k < outs.len() && k < outs.len() && outs[k].file_path@ == due[j].file_path;
            assert(after[k].file_path@ == due[j].file_path);
        } else {
            assert(after[outs.len() as int].file_path@ == due[j].file_path);
        }
    }
}

/// The outcomes of a whole due list are those of the pass.
proof fn lemma_outcomes_done(
    outs: Seq<DueOutcome>,
    due: Seq<Schedule>,
    q: Seq<Schedule>,
    found: Seq<Probe>,
    now: i64,
)
    requires
        is_due_list(due, q, now),
        outcomes_upto(outs, due, q, found, now, due.len() as int),
    ensures
        pass_outcomes(outs, q, found, now),
{
    assert forall|m: int| 0 <= m < q.len() && processed(q[m], found, now) implies #[trigger] has_outcome(
        outs,
        q[m].file_path,
        outs.len() as int,
    ) by {
        assert(holds(due, q[m], due.len() as int));
        let j = choose|j: int| 0 <= j < due.len() && j < due.len() && due[j] == q[m];
        assert(has_outcome(outs, due[j].file_path, outs.len() as int));
    }
}

/// Process the due deletions: each schedule that is due at `now` and whose
/// file was looked at (`found` says what became of it) is settled. One that
/// did not fail leaves the queue. A schedule that is not yet due stays as
/// it is, whatever `found` says of its file. Gives one outcome for each
/// schedule that was processed, and the number of files deleted.
pub fn process_due_deletions(queue: &mut DeletionQueue, found: &Vec<Probe>, now: i64) -> (r: (
    Vec<DueOutcome>,
    u32,
))
    requires
        old(queue).wf(),
        old(queue)@.len() <= u32::MAX,
        now + days(UNDO_DAYS) <= i64::MAX,
    ensures
        final(queue).wf(),
        final(queue)@ == after_pass(old(queue)@, found@, now, old(queue)@.len()),
        pass_outcomes(r.0@, old(queue)@, found@, now),
        r.1 == deleted_count(r.0@, r.0@.len()),
{
    let ghost q = queue@;
    let due = queue.get_due_deletions(now);
    let ghost listed = schedules_of(due@);
    let mut outcomes: Vec<DueOutcome> = Vec::new();
    let mut count: u32 = 0;
    let mut i: usize = 0;
    proof {
        lemma_due_count(q, now, q.len());
    }
    while i < due.len()
        invariant
            i <= due@.len(),
            due@.len() <= u32::MAX,
            listed == schedules_of(due@),
            is_due_list(listed, q, now),
            now + days(UNDO_DAYS) <= i64::MAX,
            outcomes_upto(outcomes@, listed, q, found@, now, i as int),
            count == deleted_count(outcomes@, outcomes@.len()),
        decreases due.len() - i,
    {
        match find_event(found, due[i].file_path.as_str()) {
            Some(ev) => {
                let o = settle_due(&due[i], ev, now);
                proof {
                    lemma_outcomes_push(outcomes@, o, ev, listed, q, found@, now, i as int);
                    lemma_deleted_count_bound(outcomes@, outcomes@.len());
                    lemma_deleted_count_push(outcomes@, o, outcomes@.len());
                }
                if o.deleted {
                    count = count + 1;
                }
                outcomes.push(o);
            },
            None => {
                proof {
                    lemma_outcomes_skip(outcomes@, listed, q, found@, now, i as int);
                }
            },
        }
        i = i + 1;
    }
    proof {
        lemma_outcomes_done(outcomes@, listed, q, found@, now);
    }
    let mut stays: Vec<bool> = Vec::new();
    let mut k: usize = 0;
    while k < queue.len()
        invariant
            k <= queue@.len(),
            queue@ == q,
            queue.wf(),
            stays@.len() == k,
            stay_flags(stays@, q, found@, now, k as int),
        decreases queue@.len() - k,
    {
        let e = queue.get(k);
        let stay = if e.delete_after <= now {
            match find_event(found, e.file_path.as_str()) {
                Some(ev) => failed(ev),
                None => true,
            }
        } else {
            true
        };
        let ghost before = stays@;
        stays.push(stay);
        proof {
            assert forall|j: int| 0 <= j < k + 1 implies #[trigger] stays@[j] == !leaves(
                q[j],
                found@,
                now,
            ) by {
                if j < k {
                    assert(stays@[j] == before[j]);
                }
            }
        }
        k = k + 1;
    }
    proof {
        lemma_flags_give_pass(stays@, q, found@, now, q.len());
    }
    queue.forget_missing(&stays);
    (outcomes, count)
}

/// No more schedules are due than there are.
proof fn lemma_due_count(q: Seq<Schedule>, now: i64, n: nat)
    requires
        n <= q.len(),
    ensures
        due_upto(q, now, n).len() <= n,
    decreases n,
{
    if n > 0 {
        lemma_due_count(q, now, (n - 1) as nat);
    }
}

/// What stays after a pass comes from the queue, and a schedule stays
/// exactly if it does not leave.
pub proof fn lemma_after_pass(q: Seq<Schedule>, found: Seq<Probe>, now: i64, n: nat)
    requires
        n <= q.len(),
    ensures
        forall|k: int|
            0 <= k < after_pass(q, found, now, n).len() ==> #[trigger] holds(
                q,
                after_pass(q, found, now, n)[k],
                n as int,
            ),
        forall|k: int|
            0 <= k < after_pass(q, found, now, n).len() ==> !leaves(
                #[trigger] after_pass(q, found, now, n)[k],
                found,
                now,
            ),
        forall|m: int|
            0 <= m < n && !leaves(q[m], found, now) ==> #[trigger] holds(
                after_pass(q, found, now, n),
                q[m],
                after_pass(q, found, now, n).len() as int,
            ),
    decreases n,
{
    if n > 0 {
        let prev = after_pass(q, found, now, (n - 1) as nat);
        let cur = after_pass(q, found, now, n);
        lemma_after_pass(q, found, now, (n - 1) as nat);
        assert forall|k: int| 0 <= k < cur.len() implies #[trigger] holds(q, cur[k], n as int) by {
            if k < prev.len() {
                assert(holds(q, prev[k], n - 1));
                let m = choose|m: int| 0 <= m < n - 1 && m < q.len() && q[m] == prev[k];
                assert(q[m] == cur[k]);
            } else {
                assert(q[n - 1] == cur[k]);
            }
        }
        assert forall|k: int| 0 <= k < cur.len() implies !leaves(#[trigger] cur[k], found, now) by {
            if k < prev.len() {
                assert(cur[k] == prev[k]);
            }
        }
        assert forall|m: int| 0 <= m < n && !leaves(q[m], found, now) implies #[trigger] holds(
            cur,
            q[m],
            cur.len() as int,
        ) by {
            if m < n - 1 {
                assert(holds(prev, q[m], prev.len() as int));
                let k = choose|k: int| 0 <= k < prev.len() && k < prev.len() && prev[k] == q[m];
                assert(cur[k] == q[m]);
            } else {
                assert(cur[prev.len() as int] == q[m]);
            }
        }
    }
}

/// The due boundary of a pass. A schedule that is due at the very second of
/// the pass, and whose file was sent to the bin or is gone, leaves the
/// queue. A schedule that is due one second later stays in the queue as it
/// is, and the pass makes no outcome for it: nothing is logged and no undo
/// record written.
pub proof fn lemma_pass_boundary(
    q: Seq<Schedule>,
    found: Seq<Probe>,
    now: i64,
    outs: Seq<DueOutcome>,
    m: int,
)
    requires
        distinct_paths(q),
        0 <= m < q.len(),
        pass_outcomes(outs, q, found, now),
    ensures
        q[m].delete_after == now && found_for(found, q[m]) is Some && !(found_for(found, q[m])
            matches Some(DueEvent::TrashFailed)) ==> !has_path(
            after_pass(q, found, now, q.len()),
            q[m].file_path,
        ),
        q[m].delete_after == now + 1 ==> holds(
            after_pass(q, found, now, q.len()),
            q[m],
            after_pass(q, found, now, q.len()).len() as int,
        ) && !has_outcome(outs, q[m].file_path, outs.len() as int),
{
    let after = after_pass(q, found, now, q.len());
    lemma_after_pass(q, found, now, q.len());
    if leaves(q[m], found, now) && has_path(after, q[m].file_path) {
        let k = choose|k: int| 0 <= k < after.len() && #[trigger] after[k].file_path == q[m].file_path;
        assert(holds(q, after[k], q.len() as int));
        let j = choose|j: int| 0 <= j < q.len() && j < q.len() && q[j] == after[k];
        if j != m {
            if j < m {
                assert(q[j].file_path != q[m].file_path);
            } else {
                assert(q[m].file_path != q[j].file_path);
            }
        }
        assert(!leaves(after[k], found, now));
    }
    if q[m].delete_after == now + 1 {
        assert(!leaves(q[m], found, now));
        if has_outcome(outs, q[m].file_path, outs.len() as int) {
            let k = choose|k: int|
                0 <= k < outs.len() && k < outs.len() && outs[k].file_path@ == q[m].file_path;
            assert(outcome_of(outs[k], q, found, now));
            let j = choose|j: int|
                0 <= j < q.len() && processed(q[j], found, now) && settled_by(
                    outs[k],
                    q[j],
                    found,
                    now,
                );
            if j < m {
                assert(q[j].file_path != q[m].file_path);
            } else if m < j {
                assert(q[m].file_path != q[j].file_path);
            }
        }
    }
}

/// Minutes between two maintenance runs: the configured interval, and at
/// least one.
pub fn maintenance_interval(scan_interval_minutes: u32) -> (m: u32)
    ensures
        m >= 1,
        m == if scan_interval_minutes < 1 {
            1
        } else {
            scan_interval_minutes
        },
{
    if scan_interval_minutes < 1 {
        1
    } else {
        scan_interval_minutes
    }
}

/// Seconds to sleep between two maintenance runs.
pub fn maintenance_sleep_seconds(scan_interval_minutes: u32) -> (s: u64)
    ensures
        s == 60 * (if scan_interval_minutes < 1 {
            1
        } else {
            scan_interval_minutes as int
        }),
{
    (maintenance_interval(scan_interval_minutes) as u64) * 60
}

/// Whether the daily deletion pass runs now: the hour has come and the pass
/// has not run today.
pub open spec fn daily_pass_due(
    current_hour: u32,
    deletion_hour: u32,
    last_day: Option<u32>,
    today: u32,
) -> bool {
    current_hour >= deletion_hour && last_day != Some(today)
}

/// Decide whether the daily deletion pass runs now, and give the marker of
/// the last day it ran: today if it runs, else the marker as it was.
pub fn daily_tick(current_hour: u32, deletion_hour: u32, last_day: Option<u32>, today: u32) -> (r: (
    bool,
    Option<u32>,
))
    ensures
        r.0 == daily_pass_due(current_hour, deletion_hour, last_day, today),
        r.1 == if r.0 {
            Some(today)
        } else {
            last_day
        },
{
    let run = current_hour >= deletion_hour && match last_day {
        Some(d) => d != today,
        None => true,
    };
    if run {
        (true, Some(today))
    } else {
        (false, last_day)
    }
}

/// The pass runs at most once a day: after a tick that ran, no later tick
/// of the same day runs, whatever the hour.
pub proof fn lemma_once_a_day(
    current_hour: u32,
    deletion_hour: u32,
    last_day: Option<u32>,
    today: u32,
    later_hour: u32,
)
    requires
        daily_pass_due(current_hour, deletion_hour, last_day, today),
    ensures
        !daily_pass_due(later_hour, deletion_hour, Some(today), today),
{
}

/// Log lines older than this are pruned: `retention_days` days before now.
pub fn log_cutoff(now: i64, retention_days: u32) -> (cutoff: i64)
    requires
        now - days(retention_days) >= i64::MIN,
    ensures
        cutoff == now - days(retention_days),
{
    now - (retention_days as i64) * 86400
}

/// The storage cap in bytes, or `None` where there is none (0 MB).
pub fn storage_cap_bytes(max_storage_mb: u32) -> (cap: Option<u64>)
    ensures
        max_storage_mb == 0 ==> cap is None,
        max_storage_mb > 0 ==> cap == Some((max_storage_mb as int * 1024 * 1024) as u64),
        max_storage_mb > 0 ==> max_storage_mb as int * 1024 * 1024 <= u64::MAX,
{
    if max_storage_mb == 0 {
        None
    } else {
        Some((max_storage_mb as u64) * 1024 * 1024)
    }
}

/// Where pruning stands.
#[derive(Debug, Clone, Copy, PartialEq, Eq, Structural)]
pub enum PruneStage {
    /// Nothing was measured yet.
    Start,
    /// Activity log rows are being deleted.
    Activity,
    /// Undo rows are being deleted.
    Undo,
    /// Pruning is over.
    Done,
}

/// The state of pruning: the stage, and the rows deleted so far.
#[derive(Debug, Clone, Copy)]
pub struct PruneState {
    pub stage: PruneStage,
    pub deleted: u64,
}

/// What the store reported.
#[derive(Debug, Clone, Copy)]
pub enum PruneEvent {
    /// The store has this size in bytes.
    Measured(u64),
    /// The last step deleted this many rows.
    Deleted(u64),
}

/// What to do next.
#[derive(Debug, Clone, Copy, PartialEq, Eq, Structural)]
pub enum PruneAction {
    /// Measure the store.
    Measure,
    /// Delete the oldest rows of the activity log, up to this many.
    DeleteOldestActivity(u32),
    /// Delete the oldest undo rows, up to this many.
    DeleteOldestUndo(u32),
    /// Reclaim the space, then stop.
    Vacuum,
    /// Stop.
    Stop,
}

/// A sum that stays at the largest value where it would pass it.
pub open spec fn capped_sum(a: u64, b: u64) -> u64 {
    if a + b <= u64::MAX {
        (a + b) as u64
    } else {
        u64::MAX
    }
}

/// One step of pruning. While the store is over its cap, the oldest rows of
/// the activity log go, a batch at a time; when none is left, the oldest
/// undo rows; when the store is under the cap or nothing is left, the
/// space is reclaimed. A store that starts under its cap, or has no cap,
/// is left alone.
pub open spec fn prune_step(state: PruneState, event: PruneEvent, max_bytes: u64) -> (
    PruneState,
    PruneAction,
) {
    match (state.stage, event) {
        (PruneStage::Start, PruneEvent::Measured(size)) => if max_bytes == 0 || size <= max_bytes {
            (PruneState { stage: PruneStage::Done, deleted: state.deleted }, PruneAction::Stop)
        } else {
            (PruneState { stage: PruneStage::Activity, deleted: state.deleted }, PruneAction::Measure)
        },
        (PruneStage::Activity, PruneEvent::Measured(size)) => if size <= max_bytes {
            (PruneState { stage: PruneStage::Undo, deleted: state.deleted }, PruneAction::Measure)
        } else {
            (state, PruneAction::DeleteOldestActivity(PRUNE_BATCH))
        },
        (PruneStage::Activity, PruneEvent::Deleted(n)) => if n == 0 {
            (PruneState { stage: PruneStage::Undo, deleted: state.deleted }, PruneAction::Measure)
        } else {
            (
                PruneState { stage: PruneStage::Activity, deleted: capped_sum(state.deleted, n) },
                PruneAction::Measure,
            )
        },
        (PruneStage::Undo, PruneEvent::Measured(size)) => if size <= max_bytes {
            (PruneState { stage: PruneStage::Done, deleted: state.deleted }, PruneAction::Vacuum)
        } else {
            (state, PruneAction::DeleteOldestUndo(PRUNE_BATCH))
        },
        (PruneStage::Undo, PruneEvent::Deleted(n)) => if n == 0 {
            (PruneState { stage: PruneStage::Done, deleted: state.deleted }, PruneAction::Vacuum)
        } else {
            (
                PruneState { stage: PruneStage::Undo, deleted: capped_sum(state.deleted, n) },
                PruneAction::Measure,
            )
        },
        (PruneStage::Start, PruneEvent::Deleted(_)) => (state, PruneAction::Measure),
        (PruneStage::Done, _) => (state, PruneAction::Stop),
    }
}

fn add_capped(a: u64, b: u64) -> (r: u64)
    ensures
        r == capped_sum(a, b),
{
    if a <= u64::MAX - b {
        a + b
    } else {
        u64::MAX
    }
}

/// The state in which pruning begins; its first action is to measure.
pub fn begin_prune() -> (s: PruneState)
    ensures
        s.stage == PruneStage::Start,
        s.deleted == 0,
{
    PruneState { stage: PruneStage::Start, deleted: 0 }
}

/// Decide the next step of pruning from the state and what the store
/// reported.
pub fn next_prune_step(state: PruneState, event: PruneEvent, max_bytes: u64) -> (r: (
    PruneState,
    PruneAction,
))
    ensures
        r == prune_step(state, event, max_bytes),
{
    match state.stage {
        PruneStage::Start => match event {
            PruneEvent::Measured(size) => if max_bytes == 0 || size <= max_bytes {
                (PruneState { stage: PruneStage::Done, deleted: state.deleted }, PruneAction::Stop)
            } else {
                (
                    PruneState { stage: PruneStage::Activity, deleted: state.deleted },
                    PruneAction::Measure,
                )
            },
            PruneEvent::Deleted(_) => (state, PruneAction::Measure),
        },
        PruneStage::Activity => match event {
            PruneEvent::Measured(size) => if size <= max_bytes {
                (PruneState { stage: PruneStage::Undo, deleted: state.deleted }, PruneAction::Measure)
            } else {
                (state, PruneAction::DeleteOldestActivity(PRUNE_BATCH))
            },
            PruneEvent::Deleted(n) => if n == 0 {
                (PruneState { stage: PruneStage::Undo, deleted: state.deleted }, PruneAction::Measure)
            } else {
                (
                    PruneState { stage: PruneStage::Activity, deleted: add_capped(state.deleted, n) },
                    PruneAction::Measure,
                )
            },
        },
        PruneStage::Undo => match event {
            PruneEvent::Measured(size) => if size <= max_bytes {
                (PruneState { stage: PruneStage::Done, deleted: state.deleted }, PruneAction::Vacuum)
            } else {
                (state, PruneAction::DeleteOldestUndo(PRUNE_BATCH))
            },
            PruneEvent::Deleted(n) => if n == 0 {
                (PruneState { stage: PruneStage::Done, deleted: state.deleted }, PruneAction::Vacuum)
            } else {
                (
                    PruneState { stage: PruneStage::Undo, deleted: add_capped(state.deleted, n) },
                    PruneAction::Measure,
                )
            },
        },
        PruneStage::Done => (state, PruneAction::Stop),
    }
}

} // verus!
