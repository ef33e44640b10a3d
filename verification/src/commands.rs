//! Edits of the configuration: folders and their rules.

use vstd::prelude::*;
use crate::condition::{message, parse};
use crate::config::{
    Action, ActionModel, AppConfig, Condition, Rule, RuleModel, RuleSource, WatchedFolder,
};
use crate::parser::parse_text;
use crate::printer::{text, to_text};
use crate::ids::new_id;
use crate::text::same_text;

verus! {

/// Why an edit was refused.
#[derive(Debug)]
pub enum ConfigError {
    FolderNotFound,
    RuleNotFound,
    AlreadyWatched,
    SourceFolderNotFound { folder_id: String },
    SourceRuleNotFound { rule_id: String, folder_id: String },
    TargetFolderNotFound,
}

/// The message of each refusal.
pub open spec fn refusal(e: ConfigError) -> Seq<char> {
    match e {
        ConfigError::FolderNotFound => "Folder not found"@,
        ConfigError::RuleNotFound => "Rule not found"@,
        ConfigError::AlreadyWatched => "Folder is already being watched"@,
        ConfigError::SourceFolderNotFound { folder_id } => "Source folder "@ + folder_id@
            + " not found"@,
        ConfigError::SourceRuleNotFound { rule_id, folder_id } => "Rule "@ + rule_id@
            + " not found in folder "@ + folder_id@,
        ConfigError::TargetFolderNotFound => "Target folder not found"@,
    }
}

impl ConfigError {
    /// The message of this refusal.
    pub fn message(&self) -> (m: String)
        ensures
            m@ == refusal(*self),
    {
        match self {
            ConfigError::FolderNotFound => String::from_str("Folder not found"),
            ConfigError::RuleNotFound => String::from_str("Rule not found"),
            ConfigError::AlreadyWatched => String::from_str("Folder is already being watched"),
            ConfigError::SourceFolderNotFound { folder_id } => {
                let mut m = String::from_str("Source folder ");
                m.append(folder_id.as_str());
                m.append(" not found");
                m
            },
            ConfigError::SourceRuleNotFound { rule_id, folder_id } => {
                let mut m = String::from_str("Rule ");
                m.append(rule_id.as_str());
                m.append(" not found in folder ");
                m.append(folder_id.as_str());
                m
            },
            ConfigError::TargetFolderNotFound => String::from_str("Target folder not found"),
        }
    }
}

/// Whether folder `i` is the first with this id.
pub open spec fn folder_at(fs: Seq<WatchedFolder>, id: Seq<char>, i: int) -> bool {
    &&& 0 <= i < fs.len()
    &&& fs[i].id@ == id
    &&& forall|j: int| 0 <= j < i ==> (#[trigger] fs[j]).id@ != id
}

/// Whether no folder has this id.
pub open spec fn no_folder(fs: Seq<WatchedFolder>, id: Seq<char>) -> bool {
    forall|j: int| 0 <= j < fs.len() ==> (#[trigger] fs[j]).id@ != id
}

/// Whether rule `i` is the first with this id.
pub open spec fn rule_at(rs: Seq<Rule>, id: Seq<char>, i: int) -> bool {
    &&& 0 <= i < rs.len()
    &&& rs[i].id@ == id
    &&& forall|j: int| 0 <= j < i ==> (#[trigger] rs[j]).id@ != id
}

/// Whether no rule has this id.
pub open spec fn no_rule(rs: Seq<Rule>, id: Seq<char>) -> bool {
    forall|j: int| 0 <= j < rs.len() ==> (#[trigger] rs[j]).id@ != id
}

/// Whether two configurations differ in folder `i` at most.
pub open spec fn others_same(old: AppConfig, new: AppConfig, i: int) -> bool {
    &&& new.settings == old.settings
    &&& new.folders@.len() == old.folders@.len()
    &&& forall|j: int|
        0 <= j < old.folders@.len() && j != i ==> #[trigger] new.folders@[j] == old.folders@[j]
}

/// Whether two folders differ in their rules at most.
pub open spec fn same_but_rules(old: WatchedFolder, new: WatchedFolder) -> bool {
    &&& new.id == old.id
    &&& new.path == old.path
    &&& new.enabled == old.enabled
    &&& new.whitelist == old.whitelist
    &&& new.watch_subdirectories == old.watch_subdirectories
}

fn folder_index(folders: &Vec<WatchedFolder>, folder_id: &str) -> (r: Option<usize>)
    ensures
        match r {
            Some(i) => folder_at(folders@, folder_id@, i as int),
            None => no_folder(folders@, folder_id@),
        },
{
    let mut i: usize = 0;
    while i < folders.len()
        invariant
            i <= folders@.len(),
            forall|j: int| 0 <= j < i ==> (#[trigger] folders@[j]).id@ != folder_id@,
        decreases folders.len() - i,
    {
        if same_text(folders[i].id.as_str(), folder_id) {
            return Some(i);
        }
        i = i + 1;
    }
    None
}

/// The position of the first folder with this id.
pub fn find_folder(config: &AppConfig, folder_id: &str) -> (r: Option<usize>)
    ensures
        match r {
            Some(i) => folder_at(config.folders@, folder_id@, i as int),
            None => no_folder(config.folders@, folder_id@),
        },
{
    folder_index(&config.folders, folder_id)
}

fn rule_index(rules: &Vec<Rule>, rule_id: &str) -> (r: Option<usize>)
    ensures
        match r {
            Some(i) => rule_at(rules@, rule_id@, i as int),
            None => no_rule(rules@, rule_id@),
        },
{
    let mut i: usize = 0;
    while i < rules.len()
        invariant
            i <= rules@.len(),
            forall|j: int| 0 <= j < i ==> (#[trigger] rules@[j]).id@ != rule_id@,
        decreases rules.len() - i,
    {
        if same_text(rules[i].id.as_str(), rule_id) {
            return Some(i);
        }
        i = i + 1;
    }
    None
}

/// Whether some folder has this path.
pub open spec fn path_watched(fs: Seq<WatchedFolder>, path: Seq<char>) -> bool {
    exists|j: int| 0 <= j < fs.len() && (#[trigger] fs[j]).path@ == path
}

/// Whether a folder is a new one for this path: enabled, without rules.
pub open spec fn fresh_folder(f: WatchedFolder, path: Seq<char>) -> bool {
    &&& f.path@ == path
    &&& f.enabled
    &&& f.rules@.len() == 0
    &&& f.whitelist@.len() == 0
    &&& !f.watch_subdirectories
}

/// Put a folder under watch, with a new id. A path that is watched already
/// is refused. Gives the position of the new folder.
pub fn add_watched_folder(config: &mut AppConfig, path: &str) -> (r: Result<usize, ConfigError>)
    ensures
        match r {
            Ok(i) => {
                &&& !path_watched(old(config).folders@, path@)
                &&& i == old(config).folders@.len()
                &&& final(config).settings == old(config).settings
                &&& final(config).folders@.len() == i + 1
                &&& final(config).folders@.subrange(0, i as int) == old(config).folders@
                &&& fresh_folder(final(config).folders@[i as int], path@)
            },
            Err(e) => e is AlreadyWatched && path_watched(old(config).folders@, path@) && *final(config) == *old(config),
        },
{
    let mut k: usize = 0;
    while k < config.folders.len()
        invariant
            k <= config.folders@.len(),
            *config == *old(config),
            forall|j: int| 0 <= j < k ==> (#[trigger] config.folders@[j]).path@ != path@,
        decreases config.folders.len() - k,
    {
        if same_text(config.folders[k].path.as_str(), path) {
            return Err(ConfigError::AlreadyWatched);
        }
        k = k + 1;
    }
    let folder = WatchedFolder {
        id: new_id(),
        path: String::from_str(path),
        enabled: true,
        rules: Vec::new(),
        whitelist: Vec::new(),
        watch_subdirectories: false,
    };
    let at = config.folders.len();
    config.folders.push(folder);
    proof {
        assert(config.folders@.subrange(0, at as int) =~= old(config).folders@);
    }
    Ok(at)
}

/// The folders among the first `n` whose id is not `id`, in their order.
pub open spec fn folders_without(fs: Seq<WatchedFolder>, id: Seq<char>, n: nat) -> Seq<WatchedFolder>
    decreases n,
{
    if n == 0 || n > fs.len() {
        Seq::empty()
    } else if fs[n - 1].id@ == id {
        folders_without(fs, id, (n - 1) as nat)
    } else {
        folders_without(fs, id, (n - 1) as nat).push(fs[n - 1])
    }
}

/// Take every folder with this id out of the configuration.
pub fn remove_watched_folder(config: &mut AppConfig, folder_id: &str)
    ensures
        final(config).settings == old(config).settings,
        final(config).folders@ == folders_without(
            old(config).folders@,
            folder_id@,
            old(config).folders@.len(),
        ),
{
    let ghost before = config.folders@;
    let mut out: Vec<WatchedFolder> = Vec::new();
    let ghost mut k: int = 0;
    while config.folders.len() > 0
        invariant
            config.settings == old(config).settings,
            before == old(config).folders@,
            0 <= k <= before.len(),
            config.folders@ == before.subrange(k, before.len() as int),
            out@ == folders_without(before, folder_id@, k as nat),
        decreases config.folders.len(),
    {
        let f = config.folders.remove(0);
        proof {
            assert(f == before[k]);
            assert(config.folders@ =~= before.subrange(k + 1, before.len() as int));
        }
        if !same_text(f.id.as_str(), folder_id) {
            out.push(f);
        }
        proof {
            k = k + 1;
        }
    }
    config.folders = out;
}

/// Enable or disable the first folder with this id. Where there is none,
/// nothing changes.
pub fn toggle_watched_folder(config: &mut AppConfig, folder_id: &str, enabled: bool)
    ensures
        no_folder(old(config).folders@, folder_id@) ==> *final(config) == *old(config),
        forall|i: int|
            folder_at(old(config).folders@, folder_id@, i) ==> others_same(
                *old(config),
                *final(config),
                i,
            ) && final(config).folders@[i] == (WatchedFolder {
                enabled,
                ..old(config).folders@[i]
            }),
{
    match folder_index(&config.folders, folder_id) {
        None => {},
        Some(i) => {
            let mut folder = config.folders.remove(i);
            folder.enabled = enabled;
            config.folders.insert(i, folder);
        },
    }
}

/// Turn the watching of subdirectories on or off for the first folder with
/// this id. Where there is none, nothing changes.
pub fn toggle_watch_subdirectories(config: &mut AppConfig, folder_id: &str, enabled: bool)
    ensures
        no_folder(old(config).folders@, folder_id@) ==> *final(config) == *old(config),
        forall|i: int|
            folder_at(old(config).folders@, folder_id@, i) ==> others_same(
                *old(config),
                *final(config),
                i,
            ) && final(config).folders@[i] == (WatchedFolder {
                watch_subdirectories: enabled,
                ..old(config).folders@[i]
            }),
{
    match folder_index(&config.folders, folder_id) {
        None => {},
        Some(i) => {
            let mut folder = config.folders.remove(i);
            folder.watch_subdirectories = enabled;
            config.folders.insert(i, folder);
        },
    }
}

/// The whitelist of the first folder with this id.
pub fn get_folder_whitelist<'a>(config: &'a AppConfig, folder_id: &str) -> (r: Result<
    &'a Vec<String>,
    ConfigError,
>)
    ensures
        match r {
            Ok(w) => exists|i: int|
                folder_at(config.folders@, folder_id@, i) && *w == config.folders@[i].whitelist,
            Err(e) => e is FolderNotFound && no_folder(config.folders@, folder_id@),
        },
{
    match folder_index(&config.folders, folder_id) {
        None => Err(ConfigError::FolderNotFound),
        Some(i) => Ok(&config.folders[i].whitelist),
    }
}

/// Replace the whitelist of the first folder with this id.
pub fn set_folder_whitelist(config: &mut AppConfig, folder_id: &str, whitelist: Vec<String>) -> (r:
    Result<(), ConfigError>)
    ensures
        match r {
            Ok(_) => exists|i: int|
                folder_at(old(config).folders@, folder_id@, i) && others_same(
                    *old(config),
                    *final(config),
                    i,
                ) && final(config).folders@[i] == (WatchedFolder {
                    whitelist,
                    ..old(config).folders@[i]
                }),
            Err(e) => e is FolderNotFound && no_folder(old(config).folders@, folder_id@) && *final(config) == *old(config),
        },
{
    match folder_index(&config.folders, folder_id) {
        None => Err(ConfigError::FolderNotFound),
        Some(i) => {
            let mut folder = config.folders.remove(i);
            folder.whitelist = whitelist;
            config.folders.insert(i, folder);
            proof {
                assert(folder_at(old(config).folders@, folder_id@, i as int));
                assert(others_same(*old(config), *config, i as int));
            }
            Ok(())
        },
    }
}

/// The rules of the first folder with this id, in priority order.
pub fn get_rules<'a>(config: &'a AppConfig, folder_id: &str) -> (r: Result<&'a Vec<Rule>, ConfigError>)
    ensures
        match r {
            Ok(rules) => exists|i: int|
                folder_at(config.folders@, folder_id@, i) && *rules == config.folders@[i].rules,
            Err(e) => e is FolderNotFound && no_folder(config.folders@, folder_id@),
        },
{
    match folder_index(&config.folders, folder_id) {
        None => Err(ConfigError::FolderNotFound),
        Some(i) => Ok(&config.folders[i].rules),
    }
}

/// Put a rule at the end of the rules of the first folder with this id: it
/// gets the lowest priority.
pub fn add_rule(config: &mut AppConfig, folder_id: &str, rule: Rule) -> (r: Result<(), ConfigError>)
    ensures
        match r {
            Ok(_) => exists|i: int|
                folder_at(old(config).folders@, folder_id@, i) && others_same(
                    *old(config),
                    *final(config),
                    i,
                ) && same_but_rules(old(config).folders@[i], final(config).folders@[i]) && final(config).folders@[i].rules@ == old(config).folders@[i].rules@.push(rule),
            Err(e) => e is FolderNotFound && no_folder(old(config).folders@, folder_id@) && *final(config) == *old(config),
        },
{
    match folder_index(&config.folders, folder_id) {
        None => Err(ConfigError::FolderNotFound),
        Some(i) => {
            let mut folder = config.folders.remove(i);
            folder.rules.push(rule);
            config.folders.insert(i, folder);
            proof {
                assert(folder_at(old(config).folders@, folder_id@, i as int));
                assert(others_same(*old(config), *config, i as int));
                assert(same_but_rules(old(config).folders@[i as int], config.folders@[i as int]));
            }
            Ok(())
        },
    }
}

/// Give a rule a new condition tree, and the text that mirrors it.
pub fn set_condition(rule: &mut Rule, condition: Condition)
    ensures
        final(rule)@ == (RuleModel {
            condition: condition@,
            condition_text: text(condition@),
            ..old(rule)@
        }),
{
    rule.condition_text = to_text(&condition);
    rule.condition = condition;
}

/// Give a rule a new condition text, and the tree that it parses to. A text
/// that does not parse is refused with its message, and the rule stays as
/// it is.
pub fn set_condition_text(rule: &mut Rule, condition_text: &str) -> (r: Result<(), String>)
    ensures
        match parse_text(condition_text@) {
            Ok(c) => r is Ok && final(rule)@ == (RuleModel {
                condition: c,
                condition_text: condition_text@,
                ..old(rule)@
            }),
            Err(e) => r matches Err(m) && m@ == message(e) && *final(rule) == *old(rule),
        },
{
    match parse(condition_text) {
        Ok(condition) => {
            rule.condition = condition;
            rule.condition_text = String::from_str(condition_text);
            Ok(())
        },
        Err(m) => Err(m),
    }
}

/// What a changed rule means for the deletions that it scheduled.
#[derive(Debug, Clone, Copy)]
pub struct Reconcile {
    /// The schedules of the rule get this number of days.
    pub update_days: Option<u32>,
    /// The schedules made under the rule's old name are dropped.
    pub remove_old: bool,
}

/// How the schedules follow a rule that changed. A delete rule with another
/// number of days moves its schedules; one with another condition or name
/// drops them, to be made anew by the next scan. A delete rule that became
/// a move rule drops them. A move rule had none.
pub open spec fn reconciled(old_rule: RuleModel, new_rule: RuleModel) -> (Option<u32>, bool) {
    match (old_rule.action, new_rule.action) {
        (ActionModel::Delete(o), ActionModel::Delete(n)) => (
            if o != n {
                Some(n)
            } else {
                None
            },
            old_rule.condition_text != new_rule.condition_text || old_rule.name != new_rule.name,
        ),
        (ActionModel::Delete(_), ActionModel::Move(_)) => (None, true),
        _ => (None, false),
    }
}

/// Decide how the schedules follow a rule that changed.
pub fn reconcile(old_rule: &Rule, new_rule: &Rule) -> (r: Reconcile)
    ensures
        (r.update_days, r.remove_old) == reconciled(old_rule@, new_rule@),
{
    match &old_rule.action {
        Action::Delete { after_days: old_days } => match &new_rule.action {
            Action::Delete { after_days: new_days } => {
                let update_days = if *old_days != *new_days {
                    Some(*new_days)
                } else {
                    None
                };
                let remove_old = old_rule.condition_text != new_rule.condition_text || old_rule.name
                    != new_rule.name;
                Reconcile { update_days, remove_old }
            },
            Action::Move { .. } => Reconcile { update_days: None, remove_old: true },
        },
        Action::Move { .. } => Reconcile { update_days: None, remove_old: false },
    }
}

/// Replace the first rule that has the id of `rule`, in the first folder
/// with this id, and say how the schedules follow.
pub fn update_rule(config: &mut AppConfig, folder_id: &str, rule: Rule) -> (r: Result<
    Reconcile,
    ConfigError,
>)
    ensures
        match r {
            Ok(rec) => exists|i: int, k: int|
                {
                    &&& folder_at(old(config).folders@, folder_id@, i)
                    &&& #[trigger] rule_at(old(config).folders@[i].rules@, rule.id@, k)
                    &&& others_same(*old(config), *final(config), i)
                    &&& same_but_rules(old(config).folders@[i], final(config).folders@[i])
                    &&& final(config).folders@[i].rules@ == old(config).folders@[i].rules@.update(
                        k,
                        rule,
                    )
                    &&& (rec.update_days, rec.remove_old) == reconciled(
                        old(config).folders@[i].rules@[k]@,
                        rule@,
                    )
                },
            Err(e) => {
                &&& *final(config) == *old(config)
                &&& e is FolderNotFound <==> no_folder(old(config).folders@, folder_id@)
                &&& e is RuleNotFound <==> exists|i: int|
                    folder_at(old(config).folders@, folder_id@, i) && no_rule(
                        old(config).folders@[i].rules@,
                        rule.id@,
                    )
                &&& e is FolderNotFound || e is RuleNotFound
            },
        },
{
    let i = match folder_index(&config.folders, folder_id) {
        None => { return Err(ConfigError::FolderNotFound); },
        Some(i) => i,
    };
    let k = match rule_index(&config.folders[i].rules, rule.id.as_str()) {
        None => {
            proof {
                assert(folder_at(config.folders@, folder_id@, i as int));
            }
            return Err(ConfigError::RuleNotFound);
        },
        Some(k) => k,
    };
    let rec = reconcile(&config.folders[i].rules[k], &rule);
    let ghost before = config.folders@[i as int].rules@;
    let mut folder = config.folders.remove(i);
    let _old = folder.rules.remove(k);
    folder.rules.insert(k, rule);
    proof {
        assert(folder.rules@ =~= before.update(k as int, rule));
    }
    config.folders.insert(i, folder);
    proof {
        assert(rule_at(old(config).folders@[i as int].rules@, rule.id@, k as int));
    }
    Ok(rec)
}

/// The rules among the first `n` whose id is not `id`, in their order.
pub open spec fn rules_without(rs: Seq<Rule>, id: Seq<char>, n: nat) -> Seq<Rule>
    decreases n,
{
    if n == 0 || n > rs.len() {
        Seq::empty()
    } else if rs[n - 1].id@ == id {
        rules_without(rs, id, (n - 1) as nat)
    } else {
        rules_without(rs, id, (n - 1) as nat).push(rs[n - 1])
    }
}

/// Take every rule with this id out of the first folder with this id.
pub fn delete_rule(config: &mut AppConfig, folder_id: &str, rule_id: &str) -> (r: Result<
    (),
    ConfigError,
>)
    ensures
        match r {
            Ok(_) => exists|i: int|
                folder_at(old(config).folders@, folder_id@, i) && others_same(
                    *old(config),
                    *final(config),
                    i,
                ) && same_but_rules(old(config).folders@[i], final(config).folders@[i]) && final(config).folders@[i].rules@ == rules_without(
                    old(config).folders@[i].rules@,
                    rule_id@,
                    old(config).folders@[i].rules@.len(),
                ),
            Err(e) => e is FolderNotFound && no_folder(old(config).folders@, folder_id@) && *final(config) == *old(config),
        },
{
    let i = match folder_index(&config.folders, folder_id) {
        None => { return Err(ConfigError::FolderNotFound); },
        Some(i) => i,
    };
    let mut folder = config.folders.remove(i);
    let ghost before = folder.rules@;
    let ghost original = folder;
    let mut out: Vec<Rule> = Vec::new();
    let ghost mut k: int = 0;
    while folder.rules.len() > 0
        invariant
            same_but_rules(original, folder),
            0 <= k <= before.len(),
            folder.rules@ == before.subrange(k, before.len() as int),
            out@ == rules_without(before, rule_id@, k as nat),
        decreases folder.rules.len(),
    {
        let rule = folder.rules.remove(0);
        proof {
            assert(rule == before[k]);
            assert(folder.rules@ =~= before.subrange(k + 1, before.len() as int));
        }
        if !same_text(rule.id.as_str(), rule_id) {
            out.push(rule);
        }
        proof {
            k = k + 1;
        }
    }
    folder.rules = out;
    config.folders.insert(i, folder);
    proof {
        assert(before.subrange(0, before.len() as int) =~= before);
        assert(folder_at(old(config).folders@, folder_id@, i as int));
        assert(others_same(*old(config), *config, i as int));
        assert(same_but_rules(old(config).folders@[i as int], config.folders@[i as int]));
    }
    Ok(())
}

/// The rule that an id names among the rules of a folder: the first with
/// that id.
pub open spec fn named_rule(rs: Seq<Rule>, id: Seq<char>) -> Option<RuleModel> {
    if exists|k: int| rule_at(rs, id, k) {
        Some(rs[choose|k: int| rule_at(rs, id, k)]@)
    } else {
        None
    }
}

/// The rules that the first `n` ids name, in the order of the ids. An id
/// that names no rule is passed over; an id that comes twice gives its rule
/// twice.
pub open spec fn reordered(rs: Seq<Rule>, ids: Seq<String>, n: nat) -> Seq<RuleModel>
    decreases n,
{
    if n == 0 || n > ids.len() {
        Seq::empty()
    } else {
        match named_rule(rs, ids[n - 1]@) {
            Some(r) => reordered(rs, ids, (n - 1) as nat).push(r),
            None => reordered(rs, ids, (n - 1) as nat),
        }
    }
}

/// The rules of a list as mathematical values.
pub open spec fn rule_models(rs: Seq<Rule>) -> Seq<RuleModel> {
    Seq::new(rs.len(), |i: int| rs[i]@)
}

proof fn lemma_named_rule(rs: Seq<Rule>, id: Seq<char>, k: int)
    requires
        rule_at(rs, id, k),
    ensures
        named_rule(rs, id) == Some(rs[k]@),
{
    let c = choose|c: int| rule_at(rs, id, c);
    assert(rule_at(rs, id, c));
    if c < k {
        assert(rs[c].id@ != id);
    }
    if k < c {
        assert(rs[k].id@ != id);
    }
}

proof fn lemma_unnamed_rule(rs: Seq<Rule>, id: Seq<char>)
    requires
        no_rule(rs, id),
    ensures
        named_rule(rs, id) is None,
{
    if exists|k: int| rule_at(rs, id, k) {
        let c = choose|c: int| rule_at(rs, id, c);
        assert(rs[c].id@ != id);
    }
}

/// Give the rules of the first folder with this id a new order: that of
/// `rule_ids`. A rule that the list leaves out is dropped.
pub fn reorder_rules(config: &mut AppConfig, folder_id: &str, rule_ids: &Vec<String>) -> (r: Result<
    (),
    ConfigError,
>)
    ensures
        match r {
            Ok(_) => exists|i: int|
                folder_at(old(config).folders@, folder_id@, i) && others_same(
                    *old(config),
                    *final(config),
                    i,
                ) && same_but_rules(old(config).folders@[i], final(config).folders@[i])
                    && rule_models(final(config).folders@[i].rules@) == reordered(
                    old(config).folders@[i].rules@,
                    rule_ids@,
                    rule_ids@.len(),
                ),
            Err(e) => e is FolderNotFound && no_folder(old(config).folders@, folder_id@) && *final(config) == *old(config),
        },
{
    let i = match folder_index(&config.folders, folder_id) {
        None => { return Err(ConfigError::FolderNotFound); },
        Some(i) => i,
    };
    let mut folder = config.folders.remove(i);
    let ghost before = folder.rules@;
    let mut out: Vec<Rule> = Vec::new();
    let mut k: usize = 0;
    proof {
        assert(rule_models(out@) =~= reordered(before, rule_ids@, 0));
    }
    while k < rule_ids.len()
        invariant
            k <= rule_ids@.len(),
            folder.rules@ == before,
            rule_models(out@) == reordered(before, rule_ids@, k as nat),
        decreases rule_ids.len() - k,
    {
        let ghost prev = rule_models(out@);
        match rule_index(&folder.rules, rule_ids[k].as_str()) {
            Some(at) => {
                proof {
                    lemma_named_rule(before, rule_ids@[k as int]@, at as int);
                }
                out.push(folder.rules[at].clone());
                proof {
                    assert(rule_models(out@) =~= prev.push(before[at as int]@));
                }
            },
            None => {
                proof {
                    lemma_unnamed_rule(before, rule_ids@[k as int]@);
                }
            },
        }
        k = k + 1;
    }
    folder.rules = out;
    config.folders.insert(i, folder);
    proof {
        assert(folder_at(old(config).folders@, folder_id@, i as int));
        assert(others_same(*old(config), *config, i as int));
        assert(same_but_rules(old(config).folders@[i as int], config.folders@[i as int]));
    }
    Ok(())
}

/// Whether a reference names a rule: its folder is there, and in the first
/// folder with that id a rule with the rule id.
pub open spec fn resolves(fs: Seq<WatchedFolder>, src: RuleSource) -> bool {
    exists|fi: int, ri: int|
        folder_at(fs, src.folder_id@, fi) && #[trigger] rule_at(fs[fi].rules@, src.rule_id@, ri)
}

/// Whether a rule is a copy of another under a new id.
pub open spec fn same_but_id(copy: RuleModel, original: RuleModel) -> bool {
    copy == (RuleModel { id: copy.id, ..original })
}

/// Whether `copy` is a copy, under a new id, of the rule that `src` names.
pub open spec fn copy_of(fs: Seq<WatchedFolder>, src: RuleSource, copy: RuleModel) -> bool {
    exists|fi: int, ri: int|
        folder_at(fs, src.folder_id@, fi) && #[trigger] rule_at(fs[fi].rules@, src.rule_id@, ri)
            && same_but_id(copy, fs[fi].rules@[ri]@)
}

/// Copy rules from other folders to the end of the rules of the target
/// folder, in the order of `sources`. Each copy gets a new id. If one source
/// names no rule, or the target is not there, nothing is copied. Gives the
/// number of rules copied.
pub fn copy_rules_to_folder(
    config: &mut AppConfig,
    target_folder_id: &str,
    sources: &Vec<RuleSource>,
) -> (r: Result<usize, ConfigError>)
    ensures
        match r {
            Ok(n) => {
                &&& n == sources@.len()
                &&& forall|k: int| 0 <= k < sources@.len() ==> resolves(
                    old(config).folders@,
                    #[trigger] sources@[k],
                )
                &&& exists|t: int|
                    {
                        &&& folder_at(old(config).folders@, target_folder_id@, t)
                        &&& others_same(*old(config), *final(config), t)
                        &&& same_but_rules(old(config).folders@[t], final(config).folders@[t])
                        &&& final(config).folders@[t].rules@.len() == old(config).folders@[t].rules@.len()
                            + n
                        &&& final(config).folders@[t].rules@.subrange(
                            0,
                            old(config).folders@[t].rules@.len() as int,
                        ) == old(config).folders@[t].rules@
                        &&& forall|k: int|
                            0 <= k < n ==> copy_of(
                                old(config).folders@,
                                sources@[k],
                                #[trigger] final(config).folders@[t].rules@[old(config).folders@[t].rules@.len() + k]@,
                            )
                    }
            },
            Err(e) => {
                &&& *final(config) == *old(config)
                &&& match e {
                    ConfigError::SourceFolderNotFound { folder_id } => exists|k: int|
                        {
                            &&& 0 <= k < sources@.len()
                            &&& forall|j: int|
                                0 <= j < k ==> resolves(old(config).folders@, #[trigger] sources@[j])
                            &&& no_folder(old(config).folders@, (#[trigger] sources@[k]).folder_id@)
                            &&& folder_id@ == sources@[k].folder_id@
                        },
                    ConfigError::SourceRuleNotFound { rule_id, folder_id } => exists|k: int|
                        {
                            &&& 0 <= k < sources@.len()
                            &&& forall|j: int|
                                0 <= j < k ==> resolves(old(config).folders@, #[trigger] sources@[j])
                            &&& !no_folder(old(config).folders@, (#[trigger] sources@[k]).folder_id@)
                            &&& !resolves(old(config).folders@, sources@[k])
                            &&& folder_id@ == sources@[k].folder_id@
                            &&& rule_id@ == sources@[k].rule_id@
                        },
                    ConfigError::TargetFolderNotFound => no_folder(
                        old(config).folders@,
                        target_folder_id@,
                    ) && forall|k: int|
                        0 <= k < sources@.len() ==> resolves(
                            old(config).folders@,
                            #[trigger] sources@[k],
                        ),
                    _ => false,
                }
            },
        },
{
    let mut copies: Vec<Rule> = Vec::new();
    let mut k: usize = 0;
    while k < sources.len()
        invariant
            k <= sources@.len(),
            *config == *old(config),
            copies@.len() == k,
            forall|j: int| 0 <= j < k ==> resolves(config.folders@, #[trigger] sources@[j]),
            forall|j: int|
                0 <= j < k ==> copy_of(config.folders@, sources@[j], (#[trigger] copies@[j])@),
        decreases sources.len() - k,
    {
        let src = &sources[k];
        let fi = match folder_index(&config.folders, src.folder_id.as_str()) {
            None => {
                return Err(ConfigError::SourceFolderNotFound { folder_id: src.folder_id.clone() });
            },
            Some(fi) => fi,
        };
        let ri = match rule_index(&config.folders[fi].rules, src.rule_id.as_str()) {
            None => {
                proof {
                    let fs = config.folders@;
                    assert(fs[fi as int].id@ == src.folder_id@);
                    if resolves(fs, *src) {
                        let (a, b): (int, int) = choose|a: int, b: int|
                            folder_at(fs, src.folder_id@, a) && #[trigger] rule_at(
                                fs[a].rules@,
                                src.rule_id@,
                                b,
                            );
                        if a < fi {
                            assert(fs[a].id@ != src.folder_id@);
                        }
                        if fi < a {
                            assert(fs[fi as int].id@ != src.folder_id@);
                        }
                        assert(fs[fi as int].rules@[b].id@ != src.rule_id@);
                    }
                }
                return Err(
                    ConfigError::SourceRuleNotFound {
                        rule_id: src.rule_id.clone(),
                        folder_id: src.folder_id.clone(),
                    },
                );
            },
            Some(ri) => ri,
        };
        let original = &config.folders[fi].rules[ri];
        let mut copy = original.clone();
        copy.id = new_id();
        proof {
            assert(rule_at(config.folders@[fi as int].rules@, src.rule_id@, ri as int));
            assert(same_but_id(copy@, config.folders@[fi as int].rules@[ri as int]@));
        }
        copies.push(copy);
        k = k + 1;
    }
    let t = match folder_index(&config.folders, target_folder_id) {
        None => { return Err(ConfigError::TargetFolderNotFound); },
        Some(t) => t,
    };
    let count = copies.len();
    let mut folder = config.folders.remove(t);
    let ghost before = folder.rules@;
    let ghost original = folder;
    let ghost made = copies@;
    let mut j: usize = 0;
    while j < copies.len()
        invariant
            j <= copies@.len(),
            copies@ == made,
            same_but_rules(original, folder),
            folder.rules@.len() == before.len() + j,
            folder.rules@.subrange(0, before.len() as int) == before,
            forall|m: int| 0 <= m < j ==> (#[trigger] folder.rules@[before.len() + m])@ == made[m]@,
        decreases copies.len() - j,
    {
        let ghost prev = folder.rules@;
        folder.rules.push(copies[j].clone());
        proof {
            assert(folder.rules@.subrange(0, before.len() as int) =~= prev.subrange(
                0,
                before.len() as int,
            ));
            assert forall|m: int| 0 <= m < j + 1 implies (#[trigger] folder.rules@[before.len()
                + m])@ == made[m]@ by {
                if m < j {
                    assert(folder.rules@[before.len() + m] == prev[before.len() + m]);
                }
            }
        }
        j = j + 1;
    }
    proof {
        assert(before.subrange(0, before.len() as int) =~= before);
    }
    config.folders.insert(t, folder);
    proof {
        assert(folder_at(old(config).folders@, target_folder_id@, t as int));
        assert(others_same(*old(config), *config, t as int));
        assert(same_but_rules(old(config).folders@[t as int], config.folders@[t as int]));
        assert forall|m: int| 0 <= m < count implies copy_of(
            old(config).folders@,
            sources@[m],
            #[trigger] config.folders@[t as int].rules@[before.len() + m]@,
        ) by {
            assert(config.folders@[t as int].rules@[before.len() + m]@ == made[m]@);
        }
    }
    Ok(count)
}

} // verus!
