//! The configuration that the engine works on: watched folders, their rules,
//! and the condition tree and action of each rule.

use vstd::prelude::*;

verus! {

/// A condition tree as a mathematical value.
pub enum Cond {
    Glob(Seq<char>),
    Regex(Seq<char>),
    And(Seq<Cond>),
    Or(Seq<Cond>),
    Not(Box<Cond>),
    Always,
}

/// Condition tree: composable file matchers.
#[derive(Debug)]
pub enum Condition {
    /// Wildcard pattern with `*` and `?`, case-insensitive.
    Glob { pattern: String },
    /// Regular expression, searched anywhere in the name.
    Regex { pattern: String },
    /// All sub-conditions must match.
    And { conditions: Vec<Condition> },
    /// Any sub-condition must match.
    Or { conditions: Vec<Condition> },
    /// Negates the inner condition.
    Not { condition: Box<Condition> },
    /// Always matches.
    Always,
}

/// The tree that a condition stands for.
pub open spec fn model(c: Condition) -> Cond
    decreases c,
{
    match c {
        Condition::Glob { pattern } => Cond::Glob(pattern@),
        Condition::Regex { pattern } => Cond::Regex(pattern@),
        Condition::And { conditions } => Cond::And(model_all(conditions@)),
        Condition::Or { conditions } => Cond::Or(model_all(conditions@)),
        Condition::Not { condition } => Cond::Not(Box::new(model(*condition))),
        Condition::Always => Cond::Always,
    }
}

/// The trees of a sequence of conditions, in order.
pub open spec fn model_all(cs: Seq<Condition>) -> Seq<Cond>
    decreases cs,
{
    Seq::new(
        cs.len(),
        |i: int|
            if 0 <= i < cs.len() {
                model(cs[i])
            } else {
                Cond::Always
            },
    )
}

impl View for Condition {
    type V = Cond;

    open spec fn view(&self) -> Cond {
        model(*self)
    }
}

/// A copy of a condition tree.
pub fn clone_condition(c: &Condition) -> (r: Condition)
    ensures
        r@ == c@,
    decreases c,
{
    match c {
        Condition::Glob { pattern } => Condition::Glob { pattern: pattern.clone() },
        Condition::Regex { pattern } => Condition::Regex { pattern: pattern.clone() },
        Condition::And { conditions } => Condition::And { conditions: clone_conditions(conditions) },
        Condition::Or { conditions } => Condition::Or { conditions: clone_conditions(conditions) },
        Condition::Not { condition } => Condition::Not {
            condition: Box::new(clone_condition(condition)),
        },
        Condition::Always => Condition::Always,
    }
}

/// Copies of a list of condition trees, in order.
pub fn clone_conditions(cs: &Vec<Condition>) -> (r: Vec<Condition>)
    ensures
        model_all(r@) == model_all(cs@),
    decreases cs,
{
    let mut out: Vec<Condition> = Vec::new();
    let mut i: usize = 0;
    while i < cs.len()
        invariant
            i <= cs.len(),
            out@.len() == i,
            forall|j: int| 0 <= j < i ==> model(#[trigger] out@[j]) == model(cs@[j]),
        decreases cs.len() - i,
    {
        out.push(clone_condition(&cs[i]));
        i = i + 1;
    }
    proof {
        assert(model_all(out@) =~= model_all(cs@));
    }
    out
}

impl Clone for Condition {
    fn clone(&self) -> (r: Self)
        ensures
            r@ == self@,
    {
        clone_condition(self)
    }
}

/// What to do with a file whose rule matched.
#[derive(Debug)]
pub enum Action {
    /// Move the file into the destination directory.
    Move { destination: String },
    /// Delete the file once this many days have passed.
    Delete { after_days: u32 },
}

/// An action as a mathematical value.
pub enum ActionModel {
    Move(Seq<char>),
    Delete(u32),
}

impl View for Action {
    type V = ActionModel;

    open spec fn view(&self) -> ActionModel {
        match self {
            Action::Move { destination } => ActionModel::Move(destination@),
            Action::Delete { after_days } => ActionModel::Delete(*after_days),
        }
    }
}

impl Clone for Action {
    fn clone(&self) -> (r: Self)
        ensures
            r@ == self@,
    {
        match self {
            Action::Move { destination } => Action::Move { destination: destination.clone() },
            Action::Delete { after_days } => Action::Delete { after_days: *after_days },
        }
    }
}

/// The texts of a list of strings, in order.
pub open spec fn texts(v: Seq<String>) -> Seq<Seq<char>> {
    Seq::new(v.len(), |i: int| v[i]@)
}

/// A copy of a list of strings.
pub fn copy_texts(v: &Vec<String>) -> (r: Vec<String>)
    ensures
        texts(r@) == texts(v@),
{
    let mut out: Vec<String> = Vec::new();
    let mut i: usize = 0;
    while i < v.len()
        invariant
            i <= v.len(),
            out@.len() == i,
            forall|j: int| 0 <= j < i ==> (#[trigger] out@[j])@ == v@[j]@,
        decreases v.len() - i,
    {
        out.push(v[i].clone());
        i = i + 1;
    }
    proof {
        assert(texts(out@) =~= texts(v@));
    }
    out
}

/// A rule as a mathematical value.
pub struct RuleModel {
    pub id: Seq<char>,
    pub name: Seq<char>,
    pub description: Seq<char>,
    pub enabled: bool,
    pub condition: Cond,
    pub condition_text: Seq<char>,
    pub action: ActionModel,
    pub whitelist: Seq<Seq<char>>,
    pub match_subdirectories: bool,
}

/// A rule combines a condition tree with an action. Within a folder the
/// rules form an ordered sequence: the first that matches wins.
#[derive(Debug)]
pub struct Rule {
    pub id: String,
    pub name: String,
    pub description: String,
    pub enabled: bool,
    pub condition: Condition,
    /// Human-readable text form of `condition`.
    pub condition_text: String,
    pub action: Action,
    /// Glob patterns for files that this rule skips.
    pub whitelist: Vec<String>,
    /// Match against the path below the watched folder, not the base name.
    pub match_subdirectories: bool,
}

impl View for Rule {
    type V = RuleModel;

    open spec fn view(&self) -> RuleModel {
        RuleModel {
            id: self.id@,
            name: self.name@,
            description: self.description@,
            enabled: self.enabled,
            condition: self.condition@,
            condition_text: self.condition_text@,
            action: self.action@,
            whitelist: texts(self.whitelist@),
            match_subdirectories: self.match_subdirectories,
        }
    }
}

impl Clone for Rule {
    fn clone(&self) -> (r: Self)
        ensures
            r@ == self@,
    {
        Rule {
            id: self.id.clone(),
            name: self.name.clone(),
            description: self.description.clone(),
            enabled: self.enabled,
            condition: clone_condition(&self.condition),
            condition_text: self.condition_text.clone(),
            action: self.action.clone(),
            whitelist: copy_texts(&self.whitelist),
            match_subdirectories: self.match_subdirectories,
        }
    }
}

impl Rule {
    /// The id of the rule, unique within its folder.
    pub fn id(&self) -> (r: &str)
        ensures
            r@ == self.id@,
    {
        self.id.as_str()
    }

    /// Whether the rule takes part in matching.
    pub fn is_enabled(&self) -> (r: bool)
        ensures
            r == self.enabled,
    {
        self.enabled
    }
}

/// A folder under watch, with its rules in priority order.
#[derive(Debug, Clone)]
pub struct WatchedFolder {
    pub id: String,
    pub path: String,
    pub enabled: bool,
    pub rules: Vec<Rule>,
    /// Glob patterns for files that are never processed in this folder.
    pub whitelist: Vec<String>,
    pub watch_subdirectories: bool,
}

/// Settings of the engine and of the application round it.
#[derive(Debug, Clone)]
pub struct AppSettings {
    /// Minutes between maintenance runs.
    pub scan_interval_minutes: u32,
    pub start_with_os: bool,
    pub minimize_to_tray: bool,
    pub notifications_enabled: bool,
    /// Days to keep activity log entries.
    pub log_retention_days: u32,
    /// Maximum size of the store in MB; 0 means no limit.
    pub max_storage_mb: u32,
    /// Root directory for sorted files.
    pub default_sort_root: String,
    /// Hour of the day, 0 to 23, from which scheduled deletions run.
    pub deletion_time_hour: u32,
}

/// Where sorted files go unless a rule says otherwise.
pub fn default_sort_root() -> (r: String)
    ensures
        r@ == "D:\\sorted"@,
{
    String::from_str("D:\\sorted")
}

/// The cap of the store, in MB, of a new installation.
pub fn default_max_storage_mb() -> (r: u32)
    ensures
        r == 2048,
{
    2048
}

/// The hour from which the daily deletion pass runs, of a new installation.
pub fn default_deletion_time_hour() -> (r: u32)
    ensures
        r == 3,
{
    3
}

/// The settings of a new installation: maintenance every five minutes, a
/// log of thirty days, a store of at most 2048 MB, deletions from three
/// o'clock at night.
pub open spec fn default_settings(s: AppSettings) -> bool {
    &&& s.scan_interval_minutes == 5
    &&& !s.start_with_os
    &&& s.minimize_to_tray
    &&& s.notifications_enabled
    &&& s.log_retention_days == 30
    &&& s.max_storage_mb == 2048
    &&& s.default_sort_root@ == "D:\\sorted"@
    &&& s.deletion_time_hour == 3
}

impl Default for AppSettings {
    fn default() -> (r: Self)
        ensures
            default_settings(r),
    {
        AppSettings {
            scan_interval_minutes: 5,
            start_with_os: false,
            minimize_to_tray: true,
            notifications_enabled: true,
            log_retention_days: 30,
            max_storage_mb: default_max_storage_mb(),
            default_sort_root: default_sort_root(),
            deletion_time_hour: default_deletion_time_hour(),
        }
    }
}

/// The whole configuration: the watched folders and the settings.
#[derive(Debug, Clone)]
pub struct AppConfig {
    pub folders: Vec<WatchedFolder>,
    pub settings: AppSettings,
}

impl Default for AppConfig {
    fn default() -> (r: Self)
        ensures
            r.folders@.len() == 0,
            default_settings(r.settings),
    {
        AppConfig { folders: Vec::new(), settings: AppSettings::default() }
    }
}

/// A reference to a rule: the folder it lives in and its id.
#[derive(Debug, Clone)]
pub struct RuleSource {
    pub folder_id: String,
    pub rule_id: String,
}

} // verus!
