use brandelier::server::preset_dir;
use brandelier::server::preset_file_name;
use brandelier::server::preset_names;
use brandelier::server::startup_needs_zero;
use brandelier::server::DisableAction;
use brandelier::server::DisableAllCtrl;

#[test]
fn preset_kinds_map_to_directories() {
    assert_eq!(preset_dir("position"), Some("presets/position"));
    assert_eq!(preset_dir("brightness"), Some("presets/brightness"));
    assert_eq!(preset_dir("wave"), Some("presets/wave"));
    assert_eq!(preset_dir("groups"), None);
    assert_eq!(preset_dir("Wave"), None);
    assert_eq!(preset_dir(""), None);
}

#[test]
fn preset_names_must_be_plain() {
    assert_eq!(preset_file_name("evening").as_deref(), Some("evening.json"));
    assert_eq!(preset_file_name("slow wave 2").as_deref(), Some("slow wave 2.json"));
    assert_eq!(preset_file_name(""), None);
    assert_eq!(preset_file_name("../etc"), None);
    assert_eq!(preset_file_name("a/b"), None);
    assert_eq!(preset_file_name("a\\b"), None);
    assert_eq!(preset_file_name("x.json"), None);
}

#[test]
fn startup_zero_unless_positions_were_saved_at_rest() {
    assert!(startup_needs_zero(true, false));
    assert!(startup_needs_zero(false, true));
    assert!(!startup_needs_zero(false, false));
}

#[test]
fn disable_signal_toggles_on_rising_edges_only() {
    let mut ctrl = DisableAllCtrl::new();
    assert_eq!(ctrl.observe(false), DisableAction::Nothing);
    assert_eq!(ctrl.observe(true), DisableAction::Enter);
    ctrl.enter();
    assert_eq!(ctrl.observe(true), DisableAction::Nothing);
    assert_eq!(ctrl.observe(false), DisableAction::Nothing);
    assert_eq!(ctrl.observe(true), DisableAction::Restore);
    assert!(ctrl.restore());
    assert!(!ctrl.disabled);
    assert!(!ctrl.restore());
}

fn owned(names: &[&str]) -> Vec<String> {
    names.iter().map(|n| n.to_string()).collect()
}

#[test]
fn preset_listing_keeps_json_files_sorted_without_ending() {
    let files = owned(&["wave.json", "notes.txt", "Evening.json", "dawn.json", "json", "a.json.bak"]);
    assert_eq!(preset_names(&files), owned(&["Evening", "dawn", "wave"]));
}

#[test]
fn preset_listing_of_no_files_is_empty() {
    assert!(preset_names(&Vec::new()).is_empty());
    assert!(preset_names(&owned(&["readme.md", "x.JSON"])).is_empty());
}

#[test]
fn preset_listing_orders_prefixes_first_and_keeps_repeats() {
    let files = owned(&["ab.json", "a.json", ".json", "b.json", "a.json", "é.json", "z.json"]);
    assert_eq!(preset_names(&files), owned(&["", "a", "a", "ab", "b", "z", "é"]));
}
