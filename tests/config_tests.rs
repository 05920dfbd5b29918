use gptree::config::{
    load_or_create_global_config, load_or_create_project_config, migrate_config, parse_config,
    serialize_config, update_previous_files,
};
use gptree::models::{Config, CONFIG_VERSION};

fn sample() -> Config {
    let mut c = Config::defaults();
    c.use_git_ignore = false;
    c.include_file_types = ".rs,.toml".to_string();
    c.exclude_file_types = vec![".log".to_string(), ".tmp".to_string()];
    c.output_file = "out: file.txt".to_string();
    c.line_numbers = true;
    c.show_ignored_in_tree = true;
    c.previous_files = vec!["src/a.rs".to_string(), "b.rs".to_string()];
    c
}

fn same(a: &Config, b: &Config) -> bool {
    a.version == b.version
        && a.use_git_ignore == b.use_git_ignore
        && a.include_file_types == b.include_file_types
        && a.exclude_file_types == b.exclude_file_types
        && a.output_file == b.output_file
        && a.save_output_file == b.save_output_file
        && a.output_file_locally == b.output_file_locally
        && a.copy_to_clipboard == b.copy_to_clipboard
        && a.safe_mode == b.safe_mode
        && a.store_files_chosen == b.store_files_chosen
        && a.line_numbers == b.line_numbers
        && a.show_ignored_in_tree == b.show_ignored_in_tree
        && a.show_default_ignored_in_tree == b.show_default_ignored_in_tree
        && a.previous_files == b.previous_files
        && a.last_directory == b.last_directory
}

#[test]
fn unknown_key_dropped_missing_key_defaults() {
    let c = parse_config("# comment\nunknownKey: 42\nlineNumbers: true\n");
    assert!(c.line_numbers);
    assert!(c.safe_mode);
    assert!(c.use_git_ignore);
    assert_eq!(c.include_file_types, "*");
    assert_eq!(c.output_file, "gptree_output.txt");
    assert_eq!(c.version, CONFIG_VERSION);
}

#[test]
fn booleans_are_true_only_for_true() {
    let c = parse_config("safeMode: True\nuseGitIgnore: yes\ncopyToClipboard:   true  \r\n");
    assert!(!c.safe_mode);
    assert!(!c.use_git_ignore);
    assert!(c.copy_to_clipboard);
}

#[test]
fn lists_are_split_and_trimmed() {
    let c = parse_config("excludeFileTypes:  .log , .tmp,\npreviousFiles:\n");
    assert_eq!(
        c.exclude_file_types,
        vec![".log".to_string(), ".tmp".to_string(), "".to_string()]
    );
    assert!(c.previous_files.is_empty());
}

#[test]
fn value_keeps_colons_after_the_first() {
    let c = parse_config("outputFile: C:/out.txt\nversion: 1\nversion: abc\n");
    assert_eq!(c.output_file, "C:/out.txt");
    assert_eq!(c.version, 1);
}

#[test]
fn version_parses_like_u32() {
    assert_eq!(parse_config("version: +7").version, 7);
    assert_eq!(parse_config("version: 4294967296").version, CONFIG_VERSION);
    assert_eq!(parse_config("version: 4294967295").version, u32::MAX);
    assert_eq!(parse_config("version: -1").version, CONFIG_VERSION);
}

#[test]
fn project_round_trip() {
    let c = sample();
    let text = serialize_config(&c, false);
    let back = parse_config(&text);
    assert!(same(&c, &back));
}

#[test]
fn global_round_trip_keeps_last_directory() {
    let mut c = sample();
    c.previous_files = Vec::new();
    c.last_directory = Some("/home/u/proj".to_string());
    let text = serialize_config(&c, true);
    assert!(!text.contains("previousFiles"));
    let back = parse_config(&text);
    assert!(same(&c, &back));
}

#[test]
fn serialized_form_is_canonical() {
    let text = serialize_config(&Config::defaults(), false);
    assert!(text.starts_with("# GPTree Local Config\nversion: 2\n# Whether to use .gitignore\nuseGitIgnore: true\n"));
    assert!(text.ends_with("previousFiles: \n"));
    assert_eq!(text.lines().count(), 28);
}

#[test]
fn migration_from_zero() {
    let mut c = sample();
    c.version = 0;
    let m = migrate_config(c.clone(), false);
    assert_eq!(m.version, 2);
    assert!(m.previous_files.is_empty());
    assert!(!m.show_ignored_in_tree);
    let g = migrate_config(c, true);
    assert_eq!(g.previous_files.len(), 2);
}

#[test]
fn migration_is_idempotent_and_keeps_current() {
    let mut c = sample();
    c.version = 1;
    let once = migrate_config(c.clone(), false);
    let twice = migrate_config(once.clone(), false);
    assert!(same(&once, &twice));
    assert!(once.version >= c.version);
    let current = migrate_config(sample(), false);
    assert!(same(&current, &sample()));
    let mut future = sample();
    future.version = 9;
    assert_eq!(migrate_config(future, false).version, 9);
}

#[test]
fn project_config_created_and_rewritten() {
    let (c, text) = load_or_create_project_config(None);
    assert!(same(&c, &Config::defaults()));
    assert_eq!(text, serialize_config(&c, false));
    let (c2, text2) = load_or_create_project_config(Some("version: 0\npreviousFiles: a,b\n"));
    assert_eq!(c2.version, 2);
    assert!(c2.previous_files.is_empty());
    assert_eq!(text2, serialize_config(&c2, false));
}

#[test]
fn global_config_written_only_when_changed() {
    let (_, w) = load_or_create_global_config(None);
    assert!(w.is_some());
    let current = serialize_config(&Config::defaults(), true);
    let (_, w2) = load_or_create_global_config(Some(&current));
    assert!(w2.is_none());
    let (c3, w3) = load_or_create_global_config(Some("version: 1\nshowIgnoredInTree: true\n"));
    assert!(!c3.show_ignored_in_tree);
    assert!(w3.is_some());
}

#[test]
fn previous_files_stored_relative_to_root() {
    let selected = vec![
        "/proj/src/a.rs".to_string(),
        "/elsewhere/b.rs".to_string(),
        "/proj/c.rs".to_string(),
    ];
    let text = update_previous_files("safeMode: false\n", &selected, "/proj");
    let c = parse_config(&text);
    assert_eq!(c.previous_files, vec!["src/a.rs".to_string(), "c.rs".to_string()]);
    assert!(!c.safe_mode);
}
