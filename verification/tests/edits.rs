use folder_organizer::commands::{
    add_rule, add_watched_folder, copy_rules_to_folder, delete_rule, get_folder_whitelist,
    get_rules, reconcile, remove_watched_folder, reorder_rules, set_condition,
    set_condition_text, set_folder_whitelist, toggle_watch_subdirectories,
    toggle_watched_folder, update_rule, ConfigError,
};
use folder_organizer::condition::to_text;
use folder_organizer::config::{
    default_deletion_time_hour, default_max_storage_mb, default_sort_root, Action, AppConfig,
    AppSettings, Condition, Rule, RuleSource,
};

fn rule(id: &str, name: &str, action: Action) -> Rule {
    Rule {
        id: id.to_string(),
        name: name.to_string(),
        description: "d".to_string(),
        enabled: true,
        condition: Condition::Glob { pattern: "*.x".to_string() },
        condition_text: "*.x".to_string(),
        action,
        whitelist: vec!["keep".to_string()],
        match_subdirectories: true,
    }
}

fn delete(days: u32) -> Action {
    Action::Delete { after_days: days }
}

fn moving() -> Action {
    Action::Move { destination: "/out".to_string() }
}

fn config_with(paths: &[&str]) -> AppConfig {
    let mut config = AppConfig::default();
    for p in paths {
        add_watched_folder(&mut config, p).unwrap();
    }
    config
}

fn ids(config: &AppConfig, folder: usize) -> Vec<String> {
    config.folders[folder].rules.iter().map(|r| r.id.clone()).collect()
}

#[test]
fn defaults() {
    let s = AppSettings::default();
    assert_eq!(s.scan_interval_minutes, 5);
    assert!(!s.start_with_os);
    assert!(s.minimize_to_tray);
    assert!(s.notifications_enabled);
    assert_eq!(s.log_retention_days, 30);
    assert_eq!(s.max_storage_mb, 2048);
    assert_eq!(s.default_sort_root, r"D:\sorted");
    assert_eq!(s.deletion_time_hour, 3);
    assert_eq!(default_sort_root(), r"D:\sorted");
    assert_eq!(default_max_storage_mb(), 2048);
    assert_eq!(default_deletion_time_hour(), 3);
    let c = AppConfig::default();
    assert!(c.folders.is_empty());
    assert_eq!(c.settings.deletion_time_hour, 3);
}

#[test]
fn new_folders_are_enabled_and_empty() {
    let mut config = AppConfig::default();
    assert_eq!(add_watched_folder(&mut config, "/a").unwrap(), 0);
    assert_eq!(add_watched_folder(&mut config, "/b").unwrap(), 1);
    let f = &config.folders[1];
    assert_eq!(f.path, "/b");
    assert!(f.enabled);
    assert!(f.rules.is_empty());
    assert!(f.whitelist.is_empty());
    assert!(!f.watch_subdirectories);
    assert_ne!(config.folders[0].id, config.folders[1].id);
}

#[test]
fn a_watched_path_is_refused() {
    let mut config = config_with(&["/a"]);
    let err = add_watched_folder(&mut config, "/a").unwrap_err();
    assert!(matches!(err, ConfigError::AlreadyWatched));
    assert_eq!(err.message(), "Folder is already being watched");
    assert_eq!(config.folders.len(), 1);
}

#[test]
fn folders_are_removed_by_id() {
    let mut config = config_with(&["/a", "/b", "/c"]);
    let id = config.folders[1].id.clone();
    remove_watched_folder(&mut config, &id);
    let paths: Vec<&str> = config.folders.iter().map(|f| f.path.as_str()).collect();
    assert_eq!(paths, vec!["/a", "/c"]);
    remove_watched_folder(&mut config, "nope");
    assert_eq!(config.folders.len(), 2);
}

#[test]
fn toggles_change_one_folder() {
    let mut config = config_with(&["/a", "/b"]);
    let id = config.folders[1].id.clone();
    toggle_watched_folder(&mut config, &id, false);
    assert!(config.folders[0].enabled);
    assert!(!config.folders[1].enabled);
    toggle_watch_subdirectories(&mut config, &id, true);
    assert!(!config.folders[0].watch_subdirectories);
    assert!(config.folders[1].watch_subdirectories);
    assert_eq!(config.folders[1].path, "/b");
    toggle_watched_folder(&mut config, "nope", false);
    assert!(config.folders[0].enabled);
}

#[test]
fn folder_whitelist_is_replaced_whole() {
    let mut config = config_with(&["/a"]);
    let id = config.folders[0].id.clone();
    set_folder_whitelist(&mut config, &id, vec!["*.part".to_string()]).unwrap();
    assert_eq!(get_folder_whitelist(&config, &id).unwrap(), &vec!["*.part".to_string()]);
    let err = set_folder_whitelist(&mut config, "nope", Vec::new()).unwrap_err();
    assert_eq!(err.message(), "Folder not found");
    assert!(matches!(get_folder_whitelist(&config, "nope"), Err(ConfigError::FolderNotFound)));
}

#[test]
fn rules_are_added_at_the_end() {
    let mut config = config_with(&["/a"]);
    let id = config.folders[0].id.clone();
    add_rule(&mut config, &id, rule("r1", "one", moving())).unwrap();
    add_rule(&mut config, &id, rule("r2", "two", moving())).unwrap();
    assert_eq!(ids(&config, 0), vec!["r1", "r2"]);
    assert_eq!(get_rules(&config, &id).unwrap().len(), 2);
    assert!(matches!(
        add_rule(&mut config, "nope", rule("r3", "three", moving())),
        Err(ConfigError::FolderNotFound)
    ));
    assert!(matches!(get_rules(&config, "nope"), Err(ConfigError::FolderNotFound)));
}

#[test]
fn update_replaces_the_rule_in_place() {
    let mut config = config_with(&["/a"]);
    let id = config.folders[0].id.clone();
    add_rule(&mut config, &id, rule("r1", "one", delete(7))).unwrap();
    add_rule(&mut config, &id, rule("r2", "two", moving())).unwrap();
    let rec = update_rule(&mut config, &id, rule("r1", "renamed", delete(3))).unwrap();
    assert_eq!(rec.update_days, Some(3));
    assert!(rec.remove_old);
    assert_eq!(ids(&config, 0), vec!["r1", "r2"]);
    assert_eq!(config.folders[0].rules[0].name, "renamed");
    let err = update_rule(&mut config, &id, rule("r9", "x", moving())).unwrap_err();
    assert_eq!(err.message(), "Rule not found");
    let err = update_rule(&mut config, "nope", rule("r1", "x", moving())).unwrap_err();
    assert_eq!(err.message(), "Folder not found");
    assert_eq!(config.folders[0].rules[0].name, "renamed");
}

#[test]
fn schedules_follow_a_changed_rule() {
    let same = reconcile(&rule("r", "n", delete(7)), &rule("r", "n", delete(7)));
    assert_eq!((same.update_days, same.remove_old), (None, false));
    let days = reconcile(&rule("r", "n", delete(7)), &rule("r", "n", delete(1)));
    assert_eq!((days.update_days, days.remove_old), (Some(1), false));
    let renamed = reconcile(&rule("r", "n", delete(7)), &rule("r", "m", delete(7)));
    assert_eq!((renamed.update_days, renamed.remove_old), (None, true));
    let mut other_text = rule("r", "n", delete(7));
    other_text.condition_text = "*.y".to_string();
    let text = reconcile(&rule("r", "n", delete(7)), &other_text);
    assert_eq!((text.update_days, text.remove_old), (None, true));
    let to_move = reconcile(&rule("r", "n", delete(7)), &rule("r", "n", moving()));
    assert_eq!((to_move.update_days, to_move.remove_old), (None, true));
    let from_move = reconcile(&rule("r", "n", moving()), &rule("r", "m", delete(7)));
    assert_eq!((from_move.update_days, from_move.remove_old), (None, false));
    let moves = reconcile(&rule("r", "n", moving()), &rule("r", "m", moving()));
    assert_eq!((moves.update_days, moves.remove_old), (None, false));
}

#[test]
fn condition_and_text_are_kept_in_step() {
    let mut r = rule("r", "n", moving());
    set_condition_text(&mut r, "*.pdf AND NOT *draft*").unwrap();
    assert_eq!(r.condition_text, "*.pdf AND NOT *draft*");
    assert_eq!(to_text(&r.condition), "*.pdf AND NOT *draft*");
    let err = set_condition_text(&mut r, "(*.pdf").unwrap_err();
    assert_eq!(err, "Missing closing parenthesis");
    assert_eq!(r.condition_text, "*.pdf AND NOT *draft*");
    set_condition(
        &mut r,
        Condition::Not { condition: Box::new(Condition::Glob { pattern: "*.tmp".to_string() }) },
    );
    assert_eq!(r.condition_text, "NOT *.tmp");
    assert!(matches!(r.condition, Condition::Not { .. }));
    assert_eq!(r.name, "n");
}

#[test]
fn rules_are_deleted_by_id() {
    let mut config = config_with(&["/a"]);
    let id = config.folders[0].id.clone();
    for r in ["r1", "r2", "r3"] {
        add_rule(&mut config, &id, rule(r, r, moving())).unwrap();
    }
    delete_rule(&mut config, &id, "r2").unwrap();
    assert_eq!(ids(&config, 0), vec!["r1", "r3"]);
    delete_rule(&mut config, &id, "nope").unwrap();
    assert_eq!(ids(&config, 0), vec!["r1", "r3"]);
    assert!(matches!(delete_rule(&mut config, "nope", "r1"), Err(ConfigError::FolderNotFound)));
}

#[test]
fn reordering_follows_the_list_of_ids() {
    let mut config = config_with(&["/a"]);
    let id = config.folders[0].id.clone();
    for r in ["r1", "r2", "r3"] {
        add_rule(&mut config, &id, rule(r, r, moving())).unwrap();
    }
    let order: Vec<String> = ["r3", "nope", "r1"].iter().map(|s| s.to_string()).collect();
    reorder_rules(&mut config, &id, &order).unwrap();
    assert_eq!(ids(&config, 0), vec!["r3", "r1"]);
    assert_eq!(config.folders[0].rules[0].name, "r3");
    assert_eq!(config.folders[0].rules[0].whitelist, vec!["keep".to_string()]);
    assert!(matches!(
        reorder_rules(&mut config, "nope", &order),
        Err(ConfigError::FolderNotFound)
    ));
}

#[test]
fn copies_get_new_ids() {
    let mut config = config_with(&["/a", "/b"]);
    let a = config.folders[0].id.clone();
    let b = config.folders[1].id.clone();
    add_rule(&mut config, &a, rule("r1", "one", delete(7))).unwrap();
    add_rule(&mut config, &a, rule("r2", "two", moving())).unwrap();
    add_rule(&mut config, &b, rule("r0", "zero", moving())).unwrap();
    let sources = vec![
        RuleSource { folder_id: a.clone(), rule_id: "r2".to_string() },
        RuleSource { folder_id: a.clone(), rule_id: "r1".to_string() },
    ];
    assert_eq!(copy_rules_to_folder(&mut config, &b, &sources).unwrap(), 2);
    let names: Vec<&str> = config.folders[1].rules.iter().map(|r| r.name.as_str()).collect();
    assert_eq!(names, vec!["zero", "two", "one"]);
    let copy = &config.folders[1].rules[2];
    assert_ne!(copy.id, "r1");
    assert!(!copy.id.is_empty());
    assert!(matches!(copy.action, Action::Delete { after_days: 7 }));
    assert_eq!(copy.condition_text, "*.x");
    assert!(copy.match_subdirectories);
    assert_eq!(ids(&config, 0), vec!["r1", "r2"]);
}

#[test]
fn a_bad_source_copies_nothing() {
    let mut config = config_with(&["/a", "/b"]);
    let a = config.folders[0].id.clone();
    let b = config.folders[1].id.clone();
    add_rule(&mut config, &a, rule("r1", "one", moving())).unwrap();
    let good = RuleSource { folder_id: a.clone(), rule_id: "r1".to_string() };
    let no_rule = RuleSource { folder_id: a.clone(), rule_id: "r9".to_string() };
    let no_folder = RuleSource { folder_id: "zz".to_string(), rule_id: "r1".to_string() };
    let err = copy_rules_to_folder(&mut config, &b, &vec![good.clone(), no_rule]).unwrap_err();
    assert_eq!(err.message(), format!("Rule r9 not found in folder {}", a));
    let err = copy_rules_to_folder(&mut config, &b, &vec![no_folder, good.clone()]).unwrap_err();
    assert_eq!(err.message(), "Source folder zz not found");
    let err = copy_rules_to_folder(&mut config, "nope", &vec![good]).unwrap_err();
    assert_eq!(err.message(), "Target folder not found");
    assert!(config.folders[1].rules.is_empty());
    assert_eq!(copy_rules_to_folder(&mut config, &b, &Vec::new()).unwrap(), 0);
}
