use fsorg::actions::{Actions, PlanError};
use fsorg::configurations::Configurations;
use fsorg::engine::{get_config_file_path, Engine, Entry};
use fsorg::mover::{MoveEvent, MoveStep};
use fsorg::paths::join;

fn s(x: &str) -> String {
    x.to_string()
}

fn pairs(a: &Actions) -> Vec<(String, String)> {
    (0..a.len())
        .map(|i| {
            let (x, y) = a.action(i);
            (x.clone(), y.clone())
        })
        .collect()
}

fn sample_engine() -> Engine {
    let mut engine = Engine::new(None);
    engine.change_destination_directory(s("out"));
    assert!(engine.add_rule("(?i)\\.jpg$", "Images"));
    assert!(engine.add_rule("(?i)\\.txt$", "Documents"));
    engine
}

/// Drives one move through the step machine with the given reports.
fn drive(events: &[MoveEvent]) -> (Vec<MoveStep>, Option<bool>) {
    let mut step = MoveStep::start();
    let mut seen = vec![step];
    for e in events {
        step = step.next(*e);
        seen.push(step);
    }
    (seen, step.outcome())
}

#[test]
fn scenario_jpg_txt_xyz() {
    let engine = sample_engine();
    let listing = vec![Entry::File(s("a.jpg")), Entry::File(s("b.txt")), Entry::File(s("c.xyz"))];
    let mut actions = engine.generate_actions(Some((s("/src"), listing)));
    assert_eq!(
        pairs(&actions),
        vec![
            (s("/src/a.jpg"), s("out/Images/a.jpg")),
            (s("/src/b.txt"), s("out/Documents/b.txt")),
        ]
    );
    assert_eq!(actions.get_total_files_scanned(), 3);
    assert_eq!(actions.get_total_files_skipped(), 1);
    actions.execute_actions(&vec![true, true]);
    assert_eq!(actions.get_total_files_moved(), 2);
    assert_eq!(actions.get_total_files_skipped(), 1);
    assert_eq!(actions.get_total_files_errors(), 0);
    assert_eq!(actions.get_total_files_scanned(), 3);
}

#[test]
fn scan_and_execute_accounts_for_every_file() {
    let engine = sample_engine();
    let listing = vec![
        Entry::File(s("a.jpg")),
        Entry::Other,
        Entry::NonTextName,
        Entry::File(s("b.TXT")),
        Entry::File(s("notes")),
        Entry::File(s("c.JPG")),
    ];
    let mut actions = engine.generate_actions(Some((s("/home/me/in"), listing)));
    assert_eq!(actions.len(), 3);
    assert_eq!(actions.get_total_files_scanned(), 5);
    assert_eq!(actions.get_total_files_skipped(), 1);
    assert_eq!(actions.get_total_files_errors(), 1);
    actions.execute_actions(&vec![true, false, true]);
    let moved = actions.get_total_files_moved();
    let total = moved + actions.get_total_files_skipped() + actions.get_total_files_errors();
    assert_eq!(moved, 2);
    assert_eq!(actions.get_total_files_errors(), 2);
    assert_eq!(total, actions.get_total_files_scanned());
}

#[test]
fn unreadable_listing_gives_empty_plan() {
    let engine = sample_engine();
    let actions = engine.generate_actions(None);
    assert_eq!(actions.len(), 0);
    assert_eq!(actions.get_total_files_scanned(), 0);
    assert_eq!(actions.get_total_files_skipped(), 0);
    assert_eq!(actions.get_total_files_errors(), 0);
    assert_eq!(actions.get_total_files_moved(), 0);
}

#[test]
fn empty_directory_gives_empty_plan() {
    let engine = sample_engine();
    let actions = engine.generate_actions(Some((s("/src"), vec![Entry::Other])));
    assert_eq!(actions.len(), 0);
    assert_eq!(actions.get_total_files_scanned(), 0);
}

#[test]
fn first_matching_rule_wins() {
    let mut c = Configurations::new();
    assert!(c.add_dynamic_rule("\\.tar\\.gz$", "Archives"));
    assert!(c.add_dynamic_rule("\\.gz$", "Compressed"));
    assert!(c.add_dynamic_rule("^backup", "Backups"));
    assert_eq!(c.retrieve_destination_directory("x.tar.gz"), Some(s("./Archives")));
    assert_eq!(c.retrieve_destination_directory("x.gz"), Some(s("./Compressed")));
    assert_eq!(c.retrieve_destination_directory("backup.tar.gz"), Some(s("./Archives")));
    assert_eq!(c.retrieve_destination_directory("backup.zip"), Some(s("./Backups")));
    assert_eq!(c.retrieve_destination_directory("photo.png"), None);
}

#[test]
fn invalid_pattern_is_refused() {
    let mut c = Configurations::new();
    assert!(!c.add_dynamic_rule("(unclosed", "X"));
    assert!(c.view_rules().is_empty());
    assert!(!c.delete_dynamic_rule("(unclosed"));
    assert_eq!(c.get_version(), &s("0.1.0"));
}

#[test]
fn matching_searches_the_whole_name() {
    let mut c = Configurations::new();
    assert!(c.add_dynamic_rule("^a", "A"));
    assert!(c.add_dynamic_rule("(?i)\\.jpg$", "Images"));
    assert_eq!(c.retrieve_destination_directory("ba"), None);
    assert_eq!(c.retrieve_destination_directory("ab"), Some(s("./A")));
    assert_eq!(c.retrieve_destination_directory("X.JPG"), Some(s("./Images")));
    assert_eq!(c.retrieve_destination_directory("x.jpg.txt"), None);
}

#[test]
fn adding_a_known_pattern_replaces_its_destination() {
    let mut c = Configurations::new();
    assert!(c.add_dynamic_rule("a$", "A"));
    assert!(c.add_dynamic_rule("b$", "B"));
    assert!(c.add_dynamic_rule("a$", "Z"));
    assert_eq!(c.view_rules(), vec![(s("a$"), s("Z")), (s("b$"), s("B"))]);
    assert_eq!(c.retrieve_destination_directory("xa"), Some(s("./Z")));
}

#[test]
fn deleting_a_rule_removes_only_it() {
    let mut c = Configurations::new();
    c.set_destination_directory(s("/dst"));
    assert!(c.add_dynamic_rule("a$", "A"));
    assert!(c.add_dynamic_rule("b$", "B"));
    assert!(c.delete_dynamic_rule("a$"));
    assert_eq!(c.view_rules(), vec![(s("b$"), s("B"))]);
    assert_eq!(c.retrieve_destination_directory("xa"), None);
    assert_eq!(c.retrieve_destination_directory("xb"), Some(s("/dst/B")));
    assert!(c.delete_dynamic_rule("zzz"));
    assert_eq!(c.view_rules(), vec![(s("b$"), s("B"))]);
}

#[test]
fn loaded_rules_replace_current_ones() {
    let mut c = Configurations::new();
    assert!(c.add_dynamic_rule("a$", "A"));
    let loaded = vec![(s("\\.md$"), s("Notes")), (s("("), s("Broken")), (s("\\.md$"), s("Docs"))];
    assert!(!c.load_configurations(s("rules.json"), Some(loaded)));
    assert_eq!(c.view_rules(), vec![(s("\\.md$"), s("Docs")), (s("("), s("Broken"))]);
    assert_eq!(c.get_configuration_file(), &s("rules.json"));
    assert_eq!(c.retrieve_destination_directory("a.md"), Some(s("./Docs")));
    assert_eq!(c.retrieve_destination_directory("xa"), None);
}

#[test]
fn missing_rules_file_seeds_defaults() {
    let mut engine = Engine::new(Some(s("/home/me")));
    assert_eq!(engine.get_config_file(), &s("/home/me/.fsorg.json"));
    assert!(engine.load_configurations(None));
    let rules = engine.retrieve_rules();
    assert_eq!(rules.len(), 7);
    assert_eq!(rules[0].1, s("Images"));
    assert_eq!(rules[6].1, s("Code"));
    let c = engine.get_configurations();
    assert_eq!(c.retrieve_destination_directory("Holiday.JPEG"), Some(s("./Images")));
    assert_eq!(c.retrieve_destination_directory("main.rs"), Some(s("./Code")));
    assert_eq!(c.retrieve_destination_directory("a.tar.gz"), Some(s("./Archives")));
    assert_eq!(c.retrieve_destination_directory("README"), None);
}

#[test]
fn config_file_path_under_home() {
    assert_eq!(get_config_file_path(Some(s("/home/me"))), Some(s("/home/me/.fsorg.json")));
    assert_eq!(get_config_file_path(Some(s("/home/me/"))), Some(s("/home/me/.fsorg.json")));
    assert_eq!(get_config_file_path(None), None);
    assert_eq!(Engine::new(None).get_config_file(), &s("fsorg.json"));
}

#[test]
fn engine_directories() {
    let mut engine = Engine::new(None);
    assert_eq!(engine.get_configurations().get_working_directory(), &s("."));
    engine.change_working_directory(s("/tmp/in"));
    engine.change_configurations(s("/etc/rules.json"));
    assert_eq!(engine.get_configurations().get_working_directory(), &s("/tmp/in"));
    assert_eq!(engine.get_config_file(), &s("/etc/rules.json"));
    assert!(engine.add_rule("x$", "X"));
    assert!(engine.delete_rule("x$"));
    assert!(engine.retrieve_rules().is_empty());
}

#[test]
fn joining_paths() {
    assert_eq!(join("out", "Images"), s("out/Images"));
    assert_eq!(join("out/", "Images"), s("out/Images"));
    assert_eq!(join("", "Images"), s("Images"));
    assert_eq!(join("out", "/abs/dir"), s("/abs/dir"));
    assert_eq!(join("out", ""), s("out/"));
}

#[test]
fn export_writes_one_quoted_line_per_move() {
    let mut a = Actions::new();
    a.add_action(s("/src/a.jpg"), s("out/Images/a.jpg"));
    a.add_action(s("/src/b c.txt"), s("out/Documents/b c.txt"));
    assert_eq!(
        a.export_actions(),
        s("\"/src/a.jpg\" -> \"out/Images/a.jpg\"\n\"/src/b c.txt\" -> \"out/Documents/b c.txt\"\n")
    );
    assert_eq!(Actions::new().export_actions(), s(""));
}

#[test]
fn import_of_export_gives_the_same_plan() {
    let mut a = Actions::new();
    a.add_action(s("/src/a.jpg"), s("out/Images/a.jpg"));
    a.add_action(s("/src/b c.txt"), s("out/x->y/b c.txt"));
    a.add_action(s(""), s("ünïcødé/é"));
    let back = Actions::from(&a.export_actions()).unwrap();
    assert_eq!(pairs(&back), pairs(&a));
    assert_eq!(back.get_total_files_scanned(), 0);
    assert_eq!(back.get_total_files_moved(), 0);
    assert_eq!(back.get_total_files_skipped(), 0);
    assert_eq!(back.get_total_files_errors(), 0);
    assert_eq!(pairs(&Actions::from("").unwrap()), vec![]);
}

#[test]
fn import_trims_and_splits_at_first_arrow() {
    let text = "a -> b\r\n  \"c\"->\"d -> e\"  \nf->g";
    let back = Actions::from(text).unwrap();
    assert_eq!(
        pairs(&back),
        vec![(s("a"), s("b")), (s("c"), s("d -> e")), (s("f"), s("g"))]
    );
}

#[test]
fn import_refuses_a_line_without_arrow() {
    assert_eq!(
        Actions::from("\"a\" -> \"b\"\nno arrow here\n\"c\" -> \"d\"\n").err(),
        Some(PlanError::MalformedLine(2))
    );
    assert_eq!(Actions::from("\"a\" -> \"b\"\n\n").err(), Some(PlanError::MalformedLine(2)));
    assert_eq!(Actions::from("a - > b").err(), Some(PlanError::MalformedLine(1)));
}

#[test]
fn cross_device_rename_falls_back_to_copy_and_remove() {
    let (seen, outcome) = drive(&[
        MoveEvent::Succeeded,
        MoveEvent::CrossesDevices,
        MoveEvent::Succeeded,
        MoveEvent::Succeeded,
    ]);
    assert_eq!(
        seen,
        vec![
            MoveStep::EnsureParent,
            MoveStep::Rename,
            MoveStep::Copy,
            MoveStep::RemoveSource,
            MoveStep::Done(true)
        ]
    );
    assert_eq!(outcome, Some(true));
    let mut a = Actions::new();
    a.add_action(s("/mnt/a/x"), s("/mnt/b/x"));
    a.execute_actions(&vec![outcome.unwrap()]);
    assert_eq!(a.get_total_files_moved(), 1);
    assert_eq!(a.get_total_files_errors(), 0);
}

#[test]
fn failed_copy_or_remove_is_an_error() {
    let (_, copy_failed) = drive(&[MoveEvent::Succeeded, MoveEvent::CrossesDevices, MoveEvent::Failed]);
    assert_eq!(copy_failed, Some(false));
    let (_, remove_failed) = drive(&[
        MoveEvent::Succeeded,
        MoveEvent::CrossesDevices,
        MoveEvent::Succeeded,
        MoveEvent::Failed,
    ]);
    assert_eq!(remove_failed, Some(false));
    let (_, rename_failed) = drive(&[MoveEvent::Succeeded, MoveEvent::Failed]);
    assert_eq!(rename_failed, Some(false));
    let (_, plain) = drive(&[MoveEvent::Succeeded, MoveEvent::Succeeded]);
    assert_eq!(plain, Some(true));
    let (_, unfinished) = drive(&[MoveEvent::Succeeded]);
    assert_eq!(unfinished, None);
}

#[test]
fn parent_creation_failure_affects_only_its_move() {
    let (seen, outcome) = drive(&[MoveEvent::Failed]);
    assert_eq!(seen, vec![MoveStep::EnsureParent, MoveStep::Done(false)]);
    assert_eq!(outcome, Some(false));
    assert_eq!(MoveStep::Done(false).next(MoveEvent::Succeeded), MoveStep::Done(false));
    let engine = sample_engine();
    let listing = vec![Entry::File(s("a.jpg")), Entry::File(s("b.txt")), Entry::File(s("c.jpg"))];
    let mut actions = engine.generate_actions(Some((s("/src"), listing)));
    actions.execute_actions(&vec![true, outcome.unwrap(), true]);
    assert_eq!(actions.get_total_files_moved(), 2);
    assert_eq!(actions.get_total_files_errors(), 1);
}
