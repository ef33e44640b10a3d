//! From a candidate file to what is done with it: the rule that takes it,
//! the move or the schedule that follows, and the line for the activity log.

use vstd::prelude::*;
use crate::actions::{MoveRequest, RuleActionResult};
use crate::config::{Action, AppConfig, Rule, WatchedFolder};
use crate::ids::new_id;
use crate::models::{opt_text, ActivityLogEntry, Schedule, ScheduledDeletion};
use crate::naming::{split_point, stem_len};
use crate::rules::{match_file, rule_takes, whitelisted, FileCandidate, FolderPaths};
use crate::schedule::{has_path, kept, upserted, DeletionQueue, Pick};
use crate::text::{chars_of, same_text, string_of};

verus! {

/// What is to be done with a file.
#[derive(Debug, Clone)]
pub enum Plan {
    /// No rule takes the file: it is left alone.
    NoMatch,
    /// Rule `rule_index` moves the file into `destination`.
    Move { rule_index: usize, request: MoveRequest, destination: String },
    /// Rule `rule_index` schedules the file for deletion.
    Delete { rule_index: usize, rule_name: String, after_days: u32 },
}

/// The rule that takes the file: the first in order that does, if the
/// folder's whitelist lets the file through at all.
pub open spec fn winner(
    file: FileCandidate,
    folder: WatchedFolder,
    paths: FolderPaths,
    i: int,
) -> bool {
    &&& !whitelisted(file.file_name@, folder.whitelist@)
    &&& 0 <= i < folder.rules@.len()
    &&& rule_takes(file, folder, paths, i)
    &&& forall|j: int| 0 <= j < i ==> !rule_takes(file, folder, paths, j)
}

/// Whether no rule takes the file.
pub open spec fn unmatched(file: FileCandidate, folder: WatchedFolder, paths: FolderPaths) -> bool {
    whitelisted(file.file_name@, folder.whitelist@) || forall|j: int|
        0 <= j < folder.rules@.len() ==> !rule_takes(file, folder, paths, j)
}

/// Evaluate a single file against a folder's rules, in priority order, and
/// say what the winning rule asks for.
pub fn plan_file(file: &FileCandidate, folder: &WatchedFolder, paths: &FolderPaths) -> (plan: Plan)
    requires
        paths.destinations@.len() == folder.rules@.len(),
    ensures
        match plan {
            Plan::NoMatch => unmatched(*file, *folder, *paths),
            Plan::Move { rule_index, request, destination } => {
                &&& winner(*file, *folder, *paths, rule_index as int)
                &&& folder.rules@[rule_index as int].action matches Action::Move { destination: d }
                &&& destination@ == d@
                &&& request.file_path@ == file.path@
                &&& request.file_name@ == file.file_name@
                &&& request.rule_name@ == folder.rules@[rule_index as int].name@
            },
            Plan::Delete { rule_index, rule_name, after_days } => {
                &&& winner(*file, *folder, *paths, rule_index as int)
                &&& folder.rules@[rule_index as int].action matches Action::Delete { after_days: n }
                &&& after_days == n
                &&& rule_name@ == folder.rules@[rule_index as int].name@
            },
        },
{
    match match_file(file, folder, paths) {
        None => Plan::NoMatch,
        Some(m) => {
            let rule = &folder.rules[m.rule_index];
            match &rule.action {
                Action::Move { destination } => Plan::Move {
                    rule_index: m.rule_index,
                    request: MoveRequest {
                        file_path: file.path.clone(),
                        file_name: file.file_name.clone(),
                        rule_name: rule.name.clone(),
                    },
                    destination: destination.clone(),
                },
                Action::Delete { after_days } => Plan::Delete {
                    rule_index: m.rule_index,
                    rule_name: rule.name.clone(),
                    after_days: *after_days,
                },
            }
        },
    }
}

/// The extension of a file name without its `.`, if it has one.
pub open spec fn extension_of(name: Seq<char>) -> Option<Seq<char>> {
    if stem_len(name) < name.len() {
        Some(name.subrange(stem_len(name) + 1, name.len() as int))
    } else {
        None
    }
}

/// The extension of a file name.
pub fn extension(file_name: &str) -> (r: Option<String>)
    ensures
        opt_text(r) == extension_of(file_name@),
{
    let chars = chars_of(file_name);
    let at = split_point(chars.as_slice());
    if at < chars.len() {
        Some(string_of(chars.as_slice(), at + 1, chars.len()))
    } else {
        None
    }
}

/// The seconds in a number of days.
pub open spec fn days(n: u32) -> int {
    n as int * 86400
}

/// What evaluating one file came to.
#[derive(Debug, Clone)]
pub enum EvalOutcome {
    /// A move was tried; this is how it went.
    Action(RuleActionResult),
    /// The file is scheduled for deletion.
    Scheduled { file_path: String, file_name: String, rule_name: String, newly_inserted: bool },
    /// No rule took the file.
    NoMatch,
}

/// The schedule that `schedule_deletion` makes, but for its id.
pub open spec fn schedule_for(
    s: Schedule,
    file: FileCandidate,
    folder_id: Seq<char>,
    rule_name: Seq<char>,
    after_days: u32,
    size_bytes: Option<i64>,
    now: i64,
) -> bool {
    &&& s.file_path == file.path@
    &&& s.folder_id == folder_id
    &&& s.rule_name == rule_name
    &&& s.file_name == file.file_name@
    &&& s.extension == extension_of(file.file_name@)
    &&& s.size_bytes == size_bytes
    &&& s.scheduled_at == now
    &&& s.delete_after == now + days(after_days)
}

/// Schedule a file for deletion `after_days` days from `now`. The file is
/// not touched. If it is scheduled already, nothing changes, whenever the
/// second scheduling comes: neither a second schedule is made nor the first
/// one's time reset.
pub fn schedule_deletion(
    queue: &mut DeletionQueue,
    file: &FileCandidate,
    folder_id: &str,
    rule_name: &str,
    after_days: u32,
    size_bytes: Option<i64>,
    now: i64,
) -> (outcome: EvalOutcome)
    requires
        old(queue).wf(),
        !has_path(old(queue)@, file.path@) ==> now + days(after_days) <= i64::MAX,
    ensures
        final(queue).wf(),
        has_path(old(queue)@, file.path@) ==> final(queue)@ == old(queue)@,
        !has_path(old(queue)@, file.path@) ==> exists|s: Schedule|
            schedule_for(s, *file, folder_id@, rule_name@, after_days, size_bytes, now)
                && final(queue)@ == #[trigger] upserted(old(queue)@, s) && final(queue)@ == old(queue)@.push(s),
        outcome matches EvalOutcome::Scheduled { file_path, file_name, rule_name: name, newly_inserted }
            && file_path@ == file.path@ && file_name@ == file.file_name@ && name@ == rule_name@
            && newly_inserted == !has_path(old(queue)@, file.path@),
{
    let inserted = if queue.is_file_scheduled(file.path.as_str()) {
        false
    } else {
        let entry = ScheduledDeletion {
            id: new_id(),
            file_path: file.path.clone(),
            folder_id: String::from_str(folder_id),
            rule_name: String::from_str(rule_name),
            file_name: file.file_name.clone(),
            extension: extension(file.file_name.as_str()),
            size_bytes,
            scheduled_at: now,
            delete_after: now + (after_days as i64) * 86400,
        };
        let ghost s = entry@;
        let inserted = queue.upsert(entry);
        proof {
            assert(schedule_for(s, *file, folder_id@, rule_name@, after_days, size_bytes, now));
            assert(final(queue)@ == upserted(old(queue)@, s));
        }
        inserted
    };
    EvalOutcome::Scheduled {
        file_path: file.path.clone(),
        file_name: file.file_name.clone(),
        rule_name: String::from_str(rule_name),
        newly_inserted: inserted,
    }
}

/// Take back a schedule that could not be written to the store. Where the
/// outcome says that the schedule was new, the queue loses it again and the
/// outcome no longer calls it new, so that nothing is logged for it.
/// Another outcome is handed back as it is.
pub fn revoke_schedule(queue: &mut DeletionQueue, outcome: EvalOutcome) -> (r: EvalOutcome)
    requires
        old(queue).wf(),
    ensures
        final(queue).wf(),
        match outcome {
            EvalOutcome::Scheduled { file_path, file_name, rule_name, newly_inserted } => {
                &&& r matches EvalOutcome::Scheduled {
                    file_path: path,
                    file_name: name,
                    rule_name: rule,
                    newly_inserted: fresh,
                } && path@ == file_path@ && name@ == file_name@ && rule@ == rule_name@ && !fresh
                &&& final(queue)@ == if newly_inserted {
                    kept(old(queue)@, Pick::Path(file_path@), old(queue)@.len())
                } else {
                    old(queue)@
                }
            },
            _ => r == outcome && final(queue)@ == old(queue)@,
        },
{
    match outcome {
        EvalOutcome::Scheduled { file_path, file_name, rule_name, newly_inserted } => {
            if newly_inserted {
                queue.remove_scheduled_deletion_by_path(file_path.as_str());
            }
            EvalOutcome::Scheduled { file_path, file_name, rule_name, newly_inserted: false }
        },
        other => other,
    }
}

/// Whether a line of the log says this, whatever its id.
pub open spec fn logs(
    a: ActivityLogEntry,
    file_path: Seq<char>,
    file_name: Seq<char>,
    action: Seq<char>,
    rule_name: Seq<char>,
    folder_id: Seq<char>,
    timestamp: i64,
    result: Seq<char>,
    details: Option<Seq<char>>,
) -> bool {
    &&& a.file_path@ == file_path
    &&& a.file_name@ == file_name
    &&& a.action@ == action
    &&& opt_text(a.rule_name) == Some(rule_name)
    &&& opt_text(a.folder_id) == Some(folder_id)
    &&& a.timestamp == timestamp
    &&& a.result@ == result
    &&& opt_text(a.details) == details
}

/// The word for how an action went.
pub open spec fn result_word(success: bool) -> Seq<char> {
    if success {
        "success"@
    } else {
        "error"@
    }
}

/// Whether an outcome counts as a processed file: a rule took the file.
pub open spec fn counts(outcome: EvalOutcome) -> bool {
    !(outcome is NoMatch)
}

/// What a scan writes to the log for an outcome: a move as it went, a
/// schedule only when it is new, and nothing where no rule took the file.
pub open spec fn scan_log(
    line: Option<ActivityLogEntry>,
    outcome: EvalOutcome,
    folder_id: Seq<char>,
    now: i64,
) -> bool {
    match outcome {
        EvalOutcome::Action(r) => line matches Some(a) && logs(
            a,
            r.file_path@,
            r.file_name@,
            r.action@,
            r.rule_name@,
            folder_id,
            now,
            result_word(r.success),
            opt_text(r.details),
        ),
        EvalOutcome::Scheduled { file_path, file_name, rule_name, newly_inserted } => if newly_inserted {
            line matches Some(a) && logs(
                a,
                file_path@,
                file_name@,
                "scheduled"@,
                rule_name@,
                folder_id,
                now,
                "success"@,
                Some("File scheduled for deletion"@),
            )
        } else {
            line is None
        },
        EvalOutcome::NoMatch => line is None,
    }
}

fn copy_opt(s: &Option<String>) -> (r: Option<String>)
    ensures
        opt_text(r) == opt_text(*s),
{
    match s {
        Some(t) => Some(t.clone()),
        None => None,
    }
}

/// The line that a scan writes to the activity log for an outcome, and
/// whether the file counts as processed.
pub fn scan_activity(outcome: &EvalOutcome, folder_id: &str, now: i64) -> (r: (
    Option<ActivityLogEntry>,
    bool,
))
    ensures
        scan_log(r.0, *outcome, folder_id@, now),
        r.1 == counts(*outcome),
{
    match outcome {
        EvalOutcome::Action(result) => {
            let word = if result.success {
                String::from_str("success")
            } else {
                String::from_str("error")
            };
            let line = ActivityLogEntry {
                id: new_id(),
                file_path: result.file_path.clone(),
                file_name: result.file_name.clone(),
                action: result.action.clone(),
                rule_name: Some(result.rule_name.clone()),
                folder_id: Some(String::from_str(folder_id)),
                timestamp: now,
                result: word,
                details: copy_opt(&result.details),
            };
            (Some(line), true)
        },
        EvalOutcome::Scheduled { file_path, file_name, rule_name, newly_inserted } => {
            if *newly_inserted {
                let line = ActivityLogEntry {
                    id: new_id(),
                    file_path: file_path.clone(),
                    file_name: file_name.clone(),
                    action: String::from_str("scheduled"),
                    rule_name: Some(rule_name.clone()),
                    folder_id: Some(String::from_str(folder_id)),
                    timestamp: now,
                    result: String::from_str("success"),
                    details: Some(String::from_str("File scheduled for deletion")),
                };
                (Some(line), true)
            } else {
                (None, true)
            }
        },
        EvalOutcome::NoMatch => (None, false),
    }
}

/// Whether one of the first `n` rules asks for subdirectories.
pub open spec fn any_rule_recursive(rules: Seq<Rule>, n: int) -> bool {
    exists|i: int| 0 <= i < n && i < rules.len() && (#[trigger] rules[i]).match_subdirectories
}

/// Whether a scan of the folder goes into subdirectories: when the folder
/// or any of its rules asks for it.
pub fn needs_recursive(folder: &WatchedFolder) -> (r: bool)
    ensures
        r == (folder.watch_subdirectories || any_rule_recursive(
            folder.rules@,
            folder.rules@.len() as int,
        )),
{
    if folder.watch_subdirectories {
        return true;
    }
    let mut i: usize = 0;
    while i < folder.rules.len()
        invariant
            i <= folder.rules@.len(),
            !any_rule_recursive(folder.rules@, i as int),
        decreases folder.rules.len() - i,
    {
        if folder.rules[i].match_subdirectories {
            return true;
        }
        i = i + 1;
    }
    false
}

/// The watched folder that a changed file belongs to: the first enabled
/// folder whose path is the file's parent directory.
pub fn owning_folder(config: &AppConfig, parent: &str) -> (r: Option<usize>)
    ensures
        match r {
            Some(i) => i < config.folders@.len() && config.folders@[i as int].enabled
                && config.folders@[i as int].path@ == parent@ && forall|j: int|
                0 <= j < i ==> !((#[trigger] config.folders@[j]).enabled && config.folders@[j].path@
                    == parent@),
            None => forall|j: int|
                0 <= j < config.folders@.len() ==> !((#[trigger] config.folders@[j]).enabled
                    && config.folders@[j].path@ == parent@),
        },
{
    let mut i: usize = 0;
    while i < config.folders.len()
        invariant
            i <= config.folders@.len(),
            forall|j: int|
                0 <= j < i ==> !((#[trigger] config.folders@[j]).enabled && config.folders@[j].path@
                    == parent@),
        decreases config.folders.len() - i,
    {
        if config.folders[i].enabled && same_text(config.folders[i].path.as_str(), parent) {
            return Some(i);
        }
        i = i + 1;
    }
    None
}

} // verus!
