//! Carrying out a move, step by step, and the record of how it went.

use vstd::prelude::*;
use crate::naming::{numbered, numbered_name};

verus! {

/// What became of one file under one rule.
#[derive(Debug, Clone)]
pub struct RuleActionResult {
    pub file_path: String,
    pub file_name: String,
    pub action: String,
    pub rule_name: String,
    pub success: bool,
    pub details: Option<String>,
}

/// The file and rule that a move is for.
#[derive(Debug, Clone)]
pub struct MoveRequest {
    pub file_path: String,
    pub file_name: String,
    pub rule_name: String,
}

/// What happened last while a file was being moved.
#[derive(Debug, Clone)]
pub enum MoveEvent {
    /// Nothing yet.
    Begin,
    /// The destination directory exists now.
    DirCreated,
    /// The destination directory could not be created.
    DirFailed { error: String },
    /// The name tried as number `tried` exists at the destination.
    Taken { tried: u64 },
    /// The name tried as number `tried` is free at the destination.
    Free { tried: u64 },
    /// The file was renamed to `target`.
    Renamed { target: String },
    /// Renaming failed.
    RenameFailed { error: String },
    /// The file was copied to `target`.
    Copied { target: String },
    /// Renaming failed and then copying failed.
    CopyFailed { rename_error: String, copy_error: String },
}

/// What to do next while a file is being moved.
#[derive(Debug, Clone)]
pub enum MoveAction {
    /// Create the destination directory with its parents.
    CreateDir,
    /// Ask the file system whether `name` exists at the destination, and
    /// answer with `Taken` or `Free` of this `number`.
    Probe { name: String, number: u64 },
    /// Rename the file to this name in the destination.
    Rename { name: String },
    /// Copy the file to the name last tried.
    Copy,
    /// The move is over; delete the source first if `remove_source`.
    Finish { result: RuleActionResult, remove_source: bool },
}

/// Whether a record says this of the request.
pub open spec fn records(
    r: RuleActionResult,
    req: MoveRequest,
    action: Seq<char>,
    success: bool,
    details: Seq<char>,
) -> bool {
    &&& r.file_path@ == req.file_path@
    &&& r.file_name@ == req.file_name@
    &&& r.rule_name@ == req.rule_name@
    &&& r.action@ == action
    &&& r.success == success
    &&& r.details matches Some(d) && d@ == details
}

/// The step that follows an event. The file's own name is tried first at
/// the destination, then the names with a counter from 1 on, until the file
/// system says that one is free. A move is tried as a rename first and as a
/// copy if that fails; it has failed only if both did.
pub open spec fn follows(a: MoveAction, req: MoveRequest, event: MoveEvent) -> bool {
    match event {
        MoveEvent::Begin => a is CreateDir,
        MoveEvent::DirCreated => a matches MoveAction::Probe { name, number } && number == 0
            && name@ == numbered(req.file_name@, 0),
        MoveEvent::Taken { tried } => a matches MoveAction::Probe { name, number } && number
            == tried + 1 && name@ == numbered(req.file_name@, (tried + 1) as nat),
        MoveEvent::Free { tried } => a matches MoveAction::Rename { name } && name@ == numbered(
            req.file_name@,
            tried as nat,
        ),
        MoveEvent::DirFailed { error } => a matches MoveAction::Finish { result, remove_source }
            && !remove_source && records(
            result,
            req,
            "move"@,
            false,
            "Failed to create destination: "@ + error@,
        ),
        MoveEvent::Renamed { target } => a matches MoveAction::Finish { result, remove_source }
            && !remove_source && records(result, req, "moved"@, true, "Moved to "@ + target@),
        MoveEvent::RenameFailed { error } => a is Copy,
        MoveEvent::Copied { target } => a matches MoveAction::Finish { result, remove_source }
            && remove_source && records(result, req, "moved"@, true, "Moved to "@ + target@),
        MoveEvent::CopyFailed { rename_error, copy_error } => a matches MoveAction::Finish {
            result,
            remove_source,
        } && !remove_source && records(
            result,
            req,
            "move"@,
            false,
            "Move failed: "@ + rename_error@ + ", copy failed: "@ + copy_error@,
        ),
    }
}

fn record(req: &MoveRequest, action: &str, success: bool, details: String) -> (r: RuleActionResult)
    ensures
        records(r, *req, action@, success, details@),
{
    RuleActionResult {
        file_path: req.file_path.clone(),
        file_name: req.file_name.clone(),
        action: String::from_str(action),
        rule_name: req.rule_name.clone(),
        success,
        details: Some(details),
    }
}

/// Decide the next step of a move from what happened last.
pub fn next_move_action(req: &MoveRequest, event: &MoveEvent) -> (a: MoveAction)
    requires
        event matches MoveEvent::Taken { tried } ==> tried < u64::MAX,
    ensures
        follows(a, *req, *event),
{
    match event {
        MoveEvent::Begin => MoveAction::CreateDir,
        MoveEvent::DirCreated => MoveAction::Probe {
            name: numbered_name(req.file_name.as_str(), 0),
            number: 0,
        },
        MoveEvent::Taken { tried } => MoveAction::Probe {
            name: numbered_name(req.file_name.as_str(), *tried + 1),
            number: *tried + 1,
        },
        MoveEvent::Free { tried } => MoveAction::Rename {
            name: numbered_name(req.file_name.as_str(), *tried),
        },
        MoveEvent::DirFailed { error } => {
            let mut details = String::from_str("Failed to create destination: ");
            details.append(error.as_str());
            MoveAction::Finish { result: record(req, "move", false, details), remove_source: false }
        },
        MoveEvent::Renamed { target } => {
            let mut details = String::from_str("Moved to ");
            details.append(target.as_str());
            MoveAction::Finish { result: record(req, "moved", true, details), remove_source: false }
        },
        MoveEvent::RenameFailed { .. } => MoveAction::Copy,
        MoveEvent::Copied { target } => {
            let mut details = String::from_str("Moved to ");
            details.append(target.as_str());
            MoveAction::Finish { result: record(req, "moved", true, details), remove_source: true }
        },
        MoveEvent::CopyFailed { rename_error, copy_error } => {
            let mut details = String::from_str("Move failed: ");
            details.append(rename_error.as_str());
            details.append(", copy failed: ");
            details.append(copy_error.as_str());
            MoveAction::Finish { result: record(req, "move", false, details), remove_source: false }
        },
    }
}

} // verus!
