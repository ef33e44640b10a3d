use folder_organizer::actions::{next_move_action, MoveAction, MoveEvent, MoveRequest};
use folder_organizer::condition::parse;
use folder_organizer::config::{Action, Condition, Rule, WatchedFolder};
use folder_organizer::naming::{decimal_string, numbered_name, split_point};
use folder_organizer::rules::{
    is_file_in_dir, is_whitelisted, match_file, relative_target, starts_with, FileCandidate,
    FolderPaths, Location,
};
use folder_organizer::scan::{extension, needs_recursive, plan_file, Plan};

fn strings(items: &[&str]) -> Vec<String> {
    items.iter().map(|s| s.to_string()).collect()
}

fn location(parts: &[&str]) -> Location {
    Location { components: strings(parts), canonical: None }
}

fn rule(name: &str, text: &str, action: Action) -> Rule {
    Rule {
        id: format!("id-{}", name),
        name: name.to_string(),
        description: String::new(),
        enabled: true,
        condition: parse(text).unwrap(),
        condition_text: text.to_string(),
        action,
        whitelist: Vec::new(),
        match_subdirectories: false,
    }
}

fn move_to(dest: &str) -> Action {
    Action::Move { destination: dest.to_string() }
}

fn folder(rules: Vec<Rule>) -> WatchedFolder {
    WatchedFolder {
        id: "f1".to_string(),
        path: "/home/u/Downloads".to_string(),
        enabled: true,
        rules,
        whitelist: Vec::new(),
        watch_subdirectories: false,
    }
}

fn file(name: &str) -> FileCandidate {
    FileCandidate {
        path: format!("/home/u/Downloads/{}", name),
        file_name: name.to_string(),
        location: location(&["/", "home", "u", "Downloads", name]),
    }
}

fn paths(n: usize) -> FolderPaths {
    FolderPaths {
        root: strings(&["/", "home", "u", "Downloads"]),
        destinations: (0..n).map(|_| location(&["/", "sorted"])).collect(),
    }
}

#[test]
fn whitelist_matches_any_pattern_ignoring_case() {
    let list = strings(&["*.part", "desktop.ini"]);
    assert!(is_whitelisted("movie.PART", &list));
    assert!(is_whitelisted("Desktop.INI", &list));
    assert!(!is_whitelisted("movie.mkv", &list));
    assert!(!is_whitelisted("movie.part", &Vec::new()));
}

#[test]
fn first_matching_rule_wins() {
    let f = folder(vec![
        rule("docs", "*.doc", move_to("/sorted/docs")),
        rule("pdf", "*.pdf", move_to("/sorted/pdf")),
        rule("all", "*", Action::Delete { after_days: 3 }),
    ]);
    let m = match_file(&file("a.pdf"), &f, &paths(3)).unwrap();
    assert_eq!(m.rule_index, 1);
    assert_eq!(m.target, "a.pdf");
    let m = match_file(&file("a.txt"), &f, &paths(3)).unwrap();
    assert_eq!(m.rule_index, 2);
}

#[test]
fn no_rule_leaves_the_file_alone() {
    let f = folder(vec![rule("pdf", "*.pdf", move_to("/sorted"))]);
    assert!(match_file(&file("a.txt"), &f, &paths(1)).is_none());
    assert!(match_file(&file("a.txt"), &folder(Vec::new()), &paths(0)).is_none());
    assert!(matches!(plan_file(&file("a.txt"), &f, &paths(1)), Plan::NoMatch));
}

#[test]
fn disabled_rules_are_skipped() {
    let mut first = rule("first", "*.pdf", move_to("/a"));
    first.enabled = false;
    let f = folder(vec![first, rule("second", "*.pdf", move_to("/b"))]);
    assert_eq!(match_file(&file("a.pdf"), &f, &paths(2)).unwrap().rule_index, 1);
}

#[test]
fn rule_whitelist_skips_only_that_rule() {
    let mut first = rule("first", "*.pdf", move_to("/a"));
    first.whitelist = strings(&["keep*"]);
    let f = folder(vec![first, rule("second", "*.pdf", move_to("/b"))]);
    assert_eq!(match_file(&file("KEEP.pdf"), &f, &paths(2)).unwrap().rule_index, 1);
    assert_eq!(match_file(&file("other.pdf"), &f, &paths(2)).unwrap().rule_index, 0);
}

#[test]
fn folder_whitelist_short_circuits_every_rule() {
    let mut f = folder(vec![rule("all", "*", Action::Delete { after_days: 0 })]);
    f.whitelist = strings(&["*.keep"]);
    assert!(match_file(&file("a.KEEP"), &f, &paths(1)).is_none());
    assert!(match_file(&file("a.txt"), &f, &paths(1)).is_some());
}

#[test]
fn files_already_at_the_destination_are_skipped() {
    let f = folder(vec![
        rule("pdf", "*.pdf", move_to("/home/u/Downloads/pdf")),
        rule("all", "*", Action::Delete { after_days: 1 }),
    ]);
    let p = FolderPaths {
        root: strings(&["/", "home", "u", "Downloads"]),
        destinations: vec![location(&["/", "home", "u", "Downloads", "pdf"]), location(&[])],
    };
    let inside = FileCandidate {
        path: "/home/u/Downloads/pdf/a.pdf".to_string(),
        file_name: "a.pdf".to_string(),
        location: location(&["/", "home", "u", "Downloads", "pdf", "a.pdf"]),
    };
    assert_eq!(match_file(&inside, &f, &p).unwrap().rule_index, 1);
    assert_eq!(match_file(&file("a.pdf"), &f, &p).unwrap().rule_index, 0);
}

#[test]
fn delete_rules_have_no_destination_to_skip() {
    let f = folder(vec![rule("all", "*", Action::Delete { after_days: 1 })]);
    let p = FolderPaths {
        root: strings(&["/", "home", "u", "Downloads"]),
        destinations: vec![location(&["/", "home"])],
    };
    assert_eq!(match_file(&file("a.pdf"), &f, &p).unwrap().rule_index, 0);
}

#[test]
fn canonical_paths_decide_where_both_are_known() {
    let file = Location {
        components: strings(&["link", "a.pdf"]),
        canonical: Some(strings(&["/", "data", "pdf", "a.pdf"])),
    };
    let dir = Location {
        components: strings(&["/", "sorted"]),
        canonical: Some(strings(&["/", "data", "pdf"])),
    };
    assert!(is_file_in_dir(&file, &dir));
    let unknown = Location { components: strings(&["/", "sorted"]), canonical: None };
    assert!(!is_file_in_dir(&file, &unknown));
    let plain = Location { components: strings(&["link"]), canonical: None };
    assert!(is_file_in_dir(&file, &plain));
}

#[test]
fn prefix_is_by_whole_components() {
    assert!(starts_with(&strings(&["a", "b", "c"]), &strings(&["a", "b"])));
    assert!(starts_with(&strings(&["a"]), &strings(&[])));
    assert!(!starts_with(&strings(&["a", "bc"]), &strings(&["a", "b"])));
    assert!(!starts_with(&strings(&["a"]), &strings(&["a", "b"])));
    assert!(starts_with(&strings(&["a", "b"]), &strings(&["a", "b"])));
}

#[test]
fn subdirectory_rules_match_the_relative_path() {
    let mut r = rule("nested", "sub/*.pdf", move_to("/sorted"));
    r.match_subdirectories = true;
    let f = folder(vec![r]);
    let nested = FileCandidate {
        path: "/home/u/Downloads/sub/a.pdf".to_string(),
        file_name: "a.pdf".to_string(),
        location: location(&["/", "home", "u", "Downloads", "sub", "a.pdf"]),
    };
    let m = match_file(&nested, &f, &paths(1)).unwrap();
    assert_eq!(m.target, "sub/a.pdf");
    assert!(match_file(&file("a.pdf"), &f, &paths(1)).is_none());
}

#[test]
fn folder_flag_also_asks_for_the_relative_path() {
    let mut f = folder(vec![rule("nested", "sub/*", move_to("/sorted"))]);
    f.watch_subdirectories = true;
    let nested = FileCandidate {
        path: "/home/u/Downloads/sub/a.pdf".to_string(),
        file_name: "a.pdf".to_string(),
        location: location(&["/", "home", "u", "Downloads", "sub", "a.pdf"]),
    };
    assert_eq!(match_file(&nested, &f, &paths(1)).unwrap().target, "sub/a.pdf");
}

#[test]
fn relative_path_uses_forward_slashes() {
    let f = FileCandidate {
        path: r"C:\Users\u\Downloads\a\b\c.txt".to_string(),
        file_name: "c.txt".to_string(),
        location: location(&["C:", "Users", "u", "Downloads", "a", "b", "c.txt"]),
    };
    assert_eq!(relative_target(&f, &strings(&["C:", "Users", "u", "Downloads"])), "a/b/c.txt");
    // Not below the root: the whole path, with its separators normalised.
    assert_eq!(relative_target(&f, &strings(&["D:", "x"])), "C:/Users/u/Downloads/a/b/c.txt");
    let odd = FileCandidate {
        path: "/r/a\\b".to_string(),
        file_name: "a\\b".to_string(),
        location: location(&["/", "r", "a\\b"]),
    };
    assert_eq!(relative_target(&odd, &strings(&["/", "r"])), "a/b");
}

#[test]
fn plan_says_what_the_winner_asks_for() {
    let f = folder(vec![
        rule("pdf", "*.pdf", move_to("/sorted/pdf")),
        rule("old", "*.tmp", Action::Delete { after_days: 7 }),
    ]);
    match plan_file(&file("a.pdf"), &f, &paths(2)) {
        Plan::Move { rule_index, request, destination } => {
            assert_eq!(rule_index, 0);
            assert_eq!(destination, "/sorted/pdf");
            assert_eq!(request.file_path, "/home/u/Downloads/a.pdf");
            assert_eq!(request.file_name, "a.pdf");
            assert_eq!(request.rule_name, "pdf");
        }
        other => panic!("expected a move, got {:?}", other),
    }
    match plan_file(&file("a.tmp"), &f, &paths(2)) {
        Plan::Delete { rule_index, rule_name, after_days } => {
            assert_eq!(rule_index, 1);
            assert_eq!(rule_name, "old");
            assert_eq!(after_days, 7);
        }
        other => panic!("expected a deletion, got {:?}", other),
    }
}

#[test]
fn scans_go_deep_when_folder_or_rule_asks() {
    let mut f = folder(vec![rule("a", "*", move_to("/x")), rule("b", "*", move_to("/y"))]);
    assert!(!needs_recursive(&f));
    f.rules[1].match_subdirectories = true;
    assert!(needs_recursive(&f));
    f.rules[1].match_subdirectories = false;
    f.watch_subdirectories = true;
    assert!(needs_recursive(&f));
}

/// The name that a move settles on at a destination that holds `taken`.
fn settled_name(file_name: &str, taken: &[&str]) -> String {
    let req = MoveRequest {
        file_path: format!("/in/{}", file_name),
        file_name: file_name.to_string(),
        rule_name: "r".to_string(),
    };
    let mut event = MoveEvent::DirCreated;
    loop {
        match next_move_action(&req, &event) {
            MoveAction::Probe { name, number } => {
                event = if taken.contains(&name.as_str()) {
                    MoveEvent::Taken { tried: number }
                } else {
                    MoveEvent::Free { tried: number }
                };
            }
            MoveAction::Rename { name } => return name,
            other => panic!("unexpected step {:?}", other),
        }
    }
}

#[test]
fn move_collision_gets_a_counter() {
    assert_eq!(settled_name("report.pdf", &["report.pdf"]), "report (1).pdf");
    assert_eq!(settled_name("report.pdf", &["report.pdf", "report (1).pdf"]), "report (2).pdf");
}

#[test]
fn free_name_is_kept() {
    assert_eq!(settled_name("report.pdf", &[]), "report.pdf");
    assert_eq!(settled_name("report.pdf", &["report (1).pdf", "other"]), "report.pdf");
}

#[test]
fn counter_takes_the_first_gap() {
    let taken = ["a.txt", "a (1).txt", "a (3).txt", "a (2).TXT"];
    assert_eq!(settled_name("a.txt", &taken), "a (2).txt");
}

#[test]
fn counter_goes_past_nine() {
    let mut taken = vec!["a.txt".to_string()];
    for n in 1..=11 {
        taken.push(format!("a ({}).txt", n));
    }
    let names: Vec<&str> = taken.iter().map(|s| s.as_str()).collect();
    assert_eq!(settled_name("a.txt", &names), "a (12).txt");
}

#[test]
fn counter_goes_before_the_last_extension() {
    assert_eq!(settled_name("a.tar.gz", &["a.tar.gz"]), "a.tar (1).gz");
    assert_eq!(settled_name("README", &["README"]), "README (1)");
    assert_eq!(settled_name(".bashrc", &[".bashrc"]), ".bashrc (1)");
    assert_eq!(settled_name("a.", &["a."]), "a (1).");
}

#[test]
fn names_by_number() {
    assert_eq!(numbered_name("report.pdf", 0), "report.pdf");
    assert_eq!(numbered_name("report.pdf", 1), "report (1).pdf");
    assert_eq!(numbered_name("report.pdf", 10), "report (10).pdf");
    assert_eq!(numbered_name("x", u64::MAX), format!("x ({})", u64::MAX));
}

#[test]
fn split_point_follows_the_last_dot() {
    let at = |s: &str| split_point(&s.chars().collect::<Vec<char>>());
    assert_eq!(at("report.pdf"), 6);
    assert_eq!(at("a.tar.gz"), 5);
    assert_eq!(at("README"), 6);
    assert_eq!(at(".bashrc"), 7);
    assert_eq!(at("..x"), 1);
    assert_eq!(at(".."), 2);
    assert_eq!(at(""), 0);
}

#[test]
fn stem_and_extension_agree_with_the_standard_library() {
    for name in ["report.pdf", "a.tar.gz", "README", ".bashrc", "a.", "..x", ".a.b", "é.ü"] {
        let p = std::path::Path::new(name);
        let at = split_point(&name.chars().collect::<Vec<char>>());
        let stem: String = name.chars().take(at).collect();
        assert_eq!(stem, p.file_stem().unwrap().to_str().unwrap(), "{}", name);
        assert_eq!(
            extension(name),
            p.extension().map(|e| e.to_str().unwrap().to_string()),
            "{}",
            name
        );
    }
}

#[test]
fn decimal_form() {
    assert_eq!(decimal_string(0), "0");
    assert_eq!(decimal_string(7), "7");
    assert_eq!(decimal_string(10), "10");
    assert_eq!(decimal_string(12345), "12345");
    assert_eq!(decimal_string(u128::MAX), u128::MAX.to_string());
}

fn request() -> MoveRequest {
    MoveRequest {
        file_path: "/in/report.pdf".to_string(),
        file_name: "report.pdf".to_string(),
        rule_name: "pdf".to_string(),
    }
}

#[test]
fn a_move_begins_with_the_directory() {
    assert!(matches!(next_move_action(&request(), &MoveEvent::Begin), MoveAction::CreateDir));
}

#[test]
fn a_move_asks_for_each_name_before_it_renames() {
    match next_move_action(&request(), &MoveEvent::DirCreated) {
        MoveAction::Probe { name, number } => {
            assert_eq!((name.as_str(), number), ("report.pdf", 0));
        }
        other => panic!("expected a probe, got {:?}", other),
    }
    match next_move_action(&request(), &MoveEvent::Taken { tried: 0 }) {
        MoveAction::Probe { name, number } => {
            assert_eq!((name.as_str(), number), ("report (1).pdf", 1));
        }
        other => panic!("expected a probe, got {:?}", other),
    }
    match next_move_action(&request(), &MoveEvent::Taken { tried: 41 }) {
        MoveAction::Probe { name, number } => {
            assert_eq!((name.as_str(), number), ("report (42).pdf", 42));
        }
        other => panic!("expected a probe, got {:?}", other),
    }
    match next_move_action(&request(), &MoveEvent::Free { tried: 0 }) {
        MoveAction::Rename { name } => assert_eq!(name, "report.pdf"),
        other => panic!("expected a rename, got {:?}", other),
    }
    match next_move_action(&request(), &MoveEvent::Free { tried: 2 }) {
        MoveAction::Rename { name } => assert_eq!(name, "report (2).pdf"),
        other => panic!("expected a rename, got {:?}", other),
    }
}

#[test]
fn a_failed_rename_falls_back_to_a_copy() {
    let event = MoveEvent::RenameFailed { error: "cross-device link".to_string() };
    assert!(matches!(next_move_action(&request(), &event), MoveAction::Copy));
}

#[test]
fn a_move_ends_with_a_record() {
    let check = |event: MoveEvent, action: &str, success: bool, details: &str, remove: bool| {
        match next_move_action(&request(), &event) {
            MoveAction::Finish { result, remove_source } => {
                assert_eq!(result.file_path, "/in/report.pdf");
                assert_eq!(result.file_name, "report.pdf");
                assert_eq!(result.rule_name, "pdf");
                assert_eq!(result.action, action);
                assert_eq!(result.success, success);
                assert_eq!(result.details.as_deref(), Some(details));
                assert_eq!(remove_source, remove);
            }
            other => panic!("expected the end, got {:?}", other),
        }
    };
    check(
        MoveEvent::DirFailed { error: "denied".to_string() },
        "move",
        false,
        "Failed to create destination: denied",
        false,
    );
    check(
        MoveEvent::Renamed { target: "/out/report.pdf".to_string() },
        "moved",
        true,
        "Moved to /out/report.pdf",
        false,
    );
    check(
        MoveEvent::Copied { target: "/out/report.pdf".to_string() },
        "moved",
        true,
        "Moved to /out/report.pdf",
        true,
    );
    check(
        MoveEvent::CopyFailed { rename_error: "exdev".to_string(), copy_error: "full".to_string() },
        "move",
        false,
        "Move failed: exdev, copy failed: full",
        false,
    );
}

#[test]
fn rule_getters() {
    let mut r = rule("n", "*", move_to("/x"));
    assert_eq!(r.id(), "id-n");
    assert!(r.is_enabled());
    r.enabled = false;
    assert!(!r.is_enabled());
    assert!(matches!(r.clone().condition, Condition::Always));
}
