//! The records that the engine writes and reads. Times are seconds since
//! the Unix epoch, UTC.

use vstd::prelude::*;

verus! {

/// One line of the activity log.
#[derive(Debug, Clone)]
pub struct ActivityLogEntry {
    pub id: String,
    pub file_path: String,
    pub file_name: String,
    pub action: String,
    pub rule_name: Option<String>,
    pub folder_id: Option<String>,
    pub timestamp: i64,
    pub result: String,
    pub details: Option<String>,
}

/// A file known to the index, with what is pending for it.
#[derive(Debug, Clone)]
pub struct FileIndexEntry {
    pub id: String,
    pub file_path: String,
    pub folder_id: String,
    pub file_name: String,
    pub extension: Option<String>,
    pub size_bytes: Option<i64>,
    pub first_seen: i64,
    pub last_modified: Option<i64>,
    pub pending_action: Option<String>,
    pub scheduled_at: Option<i64>,
}

/// A deletion that can still be undone.
#[derive(Debug, Clone)]
pub struct UndoEntry {
    pub id: String,
    pub original_path: String,
    pub current_path: Option<String>,
    pub action: String,
    pub timestamp: i64,
    pub expires_at: i64,
    pub restored: bool,
}

/// When a rule was created and when it last fired.
#[derive(Debug, Clone)]
pub struct RuleMetadata {
    pub rule_id: String,
    pub folder_id: String,
    pub created_at: i64,
    pub last_triggered_at: Option<i64>,
}

/// How often a rule ran.
#[derive(Debug, Clone)]
pub struct RuleExecutionStats {
    pub rule_name: String,
    pub last_executed: Option<i64>,
    pub executions_this_week: u32,
}

/// A file that will be deleted once `delete_after` has come.
#[derive(Debug, Clone)]
pub struct ScheduledDeletion {
    pub id: String,
    /// The key: no two schedules share a path.
    pub file_path: String,
    pub folder_id: String,
    pub rule_name: String,
    pub file_name: String,
    pub extension: Option<String>,
    pub size_bytes: Option<i64>,
    /// When the file was first scheduled.
    pub scheduled_at: i64,
    /// When the file is due.
    pub delete_after: i64,
}

/// The number of rows of a table.
#[derive(Debug, Clone)]
pub struct TableStats {
    pub table_name: String,
    pub row_count: u64,
}

/// One page of a table, as text.
#[derive(Debug, Clone)]
pub struct TableQueryResult {
    pub columns: Vec<String>,
    pub rows: Vec<Vec<String>>,
    pub total: u64,
}

/// Sizes on disk and row counts.
#[derive(Debug, Clone)]
pub struct DbStats {
    pub db_size_bytes: u64,
    pub trash_size_bytes: u64,
    pub tables: Vec<TableStats>,
}

/// An optional text as a mathematical value.
pub open spec fn opt_text(s: Option<String>) -> Option<Seq<char>> {
    match s {
        Some(t) => Some(t@),
        None => None,
    }
}

/// A schedule as a mathematical value.
pub struct Schedule {
    pub id: Seq<char>,
    pub file_path: Seq<char>,
    pub folder_id: Seq<char>,
    pub rule_name: Seq<char>,
    pub file_name: Seq<char>,
    pub extension: Option<Seq<char>>,
    pub size_bytes: Option<i64>,
    pub scheduled_at: i64,
    pub delete_after: i64,
}

impl View for ScheduledDeletion {
    type V = Schedule;

    open spec fn view(&self) -> Schedule {
        Schedule {
            id: self.id@,
            file_path: self.file_path@,
            folder_id: self.folder_id@,
            rule_name: self.rule_name@,
            file_name: self.file_name@,
            extension: opt_text(self.extension),
            size_bytes: self.size_bytes,
            scheduled_at: self.scheduled_at,
            delete_after: self.delete_after,
        }
    }
}

fn copy_text(s: &Option<String>) -> (r: Option<String>)
    ensures
        opt_text(r) == opt_text(*s),
{
    match s {
        Some(t) => Some(t.clone()),
        None => None,
    }
}

impl ScheduledDeletion {
    /// A copy with the same contents.
    pub fn duplicate(&self) -> (r: ScheduledDeletion)
        ensures
            r@ == self@,
    {
        ScheduledDeletion {
            id: self.id.clone(),
            file_path: self.file_path.clone(),
            folder_id: self.folder_id.clone(),
            rule_name: self.rule_name.clone(),
            file_name: self.file_name.clone(),
            extension: copy_text(&self.extension),
            size_bytes: self.size_bytes,
            scheduled_at: self.scheduled_at,
            delete_after: self.delete_after,
        }
    }
}

} // verus!
