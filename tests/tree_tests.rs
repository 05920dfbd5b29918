use gptree::filter::{is_default_ignored, TreeFilter};
use gptree::models::{DirectoryItem, FsEntry};
use gptree::patterns::{mark_ignored_by_patterns, IgnorePatterns};
use gptree::tree::{generate_tree_structure, get_directory_tree};

fn file(name: &str) -> FsEntry {
    FsEntry {
        name: name.to_string(),
        is_dir: false,
        is_file: true,
        ignored_by_pattern: false,
        children: Vec::new(),
    }
}

fn dir(name: &str, children: Vec<FsEntry>) -> FsEntry {
    FsEntry {
        name: name.to_string(),
        is_dir: true,
        is_file: false,
        ignored_by_pattern: false,
        children,
    }
}

fn filter(types: &str, exclude: &[&str], excluded_dirs: &[&str]) -> TreeFilter {
    let ex: Vec<String> = exclude.iter().map(|s| s.to_string()).collect();
    let dirs: Vec<String> = excluded_dirs.iter().map(|s| s.to_string()).collect();
    TreeFilter::new(false, false, types, &ex, &dirs)
}

fn leaves(item: &DirectoryItem, out: &mut Vec<String>) {
    for c in &item.children {
        if c.is_dir {
            if !c.is_excluded_by_config {
                leaves(c, out);
            }
        } else {
            out.push(c.path.clone());
        }
    }
}

#[test]
fn default_ignored_directory_never_appears() {
    let root = dir("proj", vec![file("a.txt"), dir(".git", vec![file("x")])]);
    let f = filter("*", &[], &[]);
    let t = generate_tree_structure("/tmp/proj", &root, &f);
    assert_eq!(t.tree_text, ".\n└── a.txt");
    assert_eq!(t.file_list, vec!["/tmp/proj/a.txt".to_string()]);
    assert!(!t.tree_text.contains(".git"));
}

#[test]
fn default_ignored_shown_when_asked() {
    let root = dir("proj", vec![file("a.txt"), dir(".git", vec![file("x")])]);
    let f = TreeFilter::new(false, true, "*", &Vec::new(), &Vec::new());
    let t = generate_tree_structure("/tmp/proj", &root, &f);
    assert_eq!(t.tree_text, ".\n├── .git/\n│   └── x\n└── a.txt");
    assert_eq!(
        t.file_list,
        vec!["/tmp/proj/.git/x".to_string(), "/tmp/proj/a.txt".to_string()]
    );
}

#[test]
fn excluded_extension_is_dropped() {
    let root = dir("p", vec![file("app.log"), file("app.txt")]);
    let f = filter("*", &[".log"], &[]);
    let t = generate_tree_structure("/r", &root, &f);
    assert_eq!(t.file_list, vec!["/r/app.txt".to_string()]);
    assert_eq!(t.tree_text, ".\n└── app.txt");
}

#[test]
fn include_list_keeps_only_listed_extensions_case_insensitively() {
    let root = dir("p", vec![file("A.TXT"), file("b.rs"), file("Makefile")]);
    let f = filter(" .txt , .Md", &[], &[]);
    let t = generate_tree_structure("/r", &root, &f);
    assert_eq!(t.file_list, vec!["/r/A.TXT".to_string()]);
}

#[test]
fn files_without_extension_only_under_include_all() {
    let root = dir("p", vec![file("Makefile"), file(".bashrc")]);
    let all = generate_tree_structure("/r", &root, &filter("*", &[], &[]));
    assert_eq!(all.file_list.len(), 2);
    let some = generate_tree_structure("/r", &root, &filter(".rs", &[], &[]));
    assert!(some.file_list.is_empty());
}

#[test]
fn directories_first_then_names() {
    let root = dir(
        "p",
        vec![
            file("b.txt"),
            dir("z", vec![file("inner.txt")]),
            file("B.txt"),
            dir("a", vec![file("x.txt"), file("w.txt")]),
        ],
    );
    let t = generate_tree_structure("/r", &root, &filter("*", &[], &[]));
    assert_eq!(
        t.tree_text,
        ".\n├── a/\n│   ├── w.txt\n│   └── x.txt\n├── z/\n│   └── inner.txt\n├── B.txt\n└── b.txt"
    );
    assert_eq!(
        t.file_list,
        vec![
            "/r/a/w.txt".to_string(),
            "/r/a/x.txt".to_string(),
            "/r/z/inner.txt".to_string(),
            "/r/B.txt".to_string(),
            "/r/b.txt".to_string(),
        ]
    );
}

#[test]
fn file_list_follows_tree_text_order() {
    let root = dir(
        "p",
        vec![
            dir("src", vec![file("main.rs"), dir("util", vec![file("a.rs")])]),
            file("README.md"),
        ],
    );
    let t = generate_tree_structure("/r", &root, &filter("*", &[], &[]));
    let mut last = 0;
    for f in &t.file_list {
        let name = f.rsplit('/').next().unwrap();
        let pos = t.tree_text[last..].find(name).unwrap() + last;
        assert!(pos >= last);
        last = pos;
    }
    let tree = get_directory_tree("/r", &root, &filter("*", &[], &[]));
    let mut l = Vec::new();
    leaves(&tree, &mut l);
    assert_eq!(l, t.file_list);
}

#[test]
fn explicit_exclusion_drops_in_text_and_flags_in_tree() {
    let root = dir(
        "p",
        vec![dir("build", vec![file("out.bin")]), file("main.rs")],
    );
    let f = filter("*", &[], &["build"]);
    let t = generate_tree_structure("/r", &root, &f);
    assert_eq!(t.tree_text, ".\n└── main.rs");
    let tree = get_directory_tree("/r", &root, &f);
    assert_eq!(tree.name, "r");
    assert_eq!(tree.children.len(), 2);
    assert!(tree.children[0].is_excluded_by_config);
    assert_eq!(tree.children[0].path, "/r/build");
    assert!(!tree.children[1].is_dir);
}

#[test]
fn empty_directories_are_left_out_of_the_selectable_tree() {
    let root = dir("p", vec![dir("empty", vec![]), file("a.txt")]);
    let tree = get_directory_tree("/r/", &root, &filter("*", &[], &[]));
    assert_eq!(tree.children.len(), 1);
    assert_eq!(tree.children[0].name, "a.txt");
    assert_eq!(tree.children[0].path, "/r/a.txt");
    let t = generate_tree_structure("/r/", &root, &filter("*", &[], &[]));
    assert_eq!(t.tree_text, ".\n├── empty/\n└── a.txt");
}

#[test]
fn root_name_falls_back_to_dot() {
    let root = dir("p", vec![]);
    let f = filter("*", &[], &[]);
    assert_eq!(get_directory_tree("/", &root, &f).name, ".");
    assert_eq!(get_directory_tree("/a/b/", &root, &f).name, "b");
    assert_eq!(get_directory_tree("a/..", &root, &f).name, ".");
}

#[test]
fn default_ignore_checks_every_component() {
    assert!(is_default_ignored("/x/.git"));
    assert!(is_default_ignored("/x/.git/objects/ab"));
    assert!(is_default_ignored("/x/__pycache__/m.pyc"));
    assert!(!is_default_ignored("/x/.github/workflows"));
    assert!(!is_default_ignored("/x/src/main.rs"));
}

#[test]
fn ignore_patterns_mark_and_hide_entries() {
    let gi = IgnorePatterns::new("/r", "\u{feff}*.log\r\n# comment\ntarget/\n");
    let root = dir(
        "p",
        vec![file("a.log"), file("a.rs"), dir("target", vec![file("t.rs")])],
    );
    let marked = mark_ignored_by_patterns("/r", &root, &Some(gi));
    assert!(marked.children[0].ignored_by_pattern);
    assert!(!marked.children[1].ignored_by_pattern);
    assert!(marked.children[2].ignored_by_pattern);
    let t = generate_tree_structure("/r", &marked, &filter("*", &[], &[]));
    assert_eq!(t.tree_text, ".\n└── a.rs");
    let shown = TreeFilter::new(true, false, "*", &Vec::new(), &Vec::new());
    let all = generate_tree_structure("/r", &marked, &shown);
    assert_eq!(all.file_list.len(), 3);
}

#[test]
fn no_patterns_mark_nothing() {
    let mut root = dir("p", vec![file("a.log")]);
    root.children[0].ignored_by_pattern = true;
    let marked = mark_ignored_by_patterns("/r", &root, &None);
    assert!(!marked.children[0].ignored_by_pattern);
    assert_eq!(marked.children[0].name, "a.log");
}

#[test]
fn patterns_below_root_only_apply_relative_to_their_directory() {
    let gi = IgnorePatterns::new("/r", "/build\n");
    let root = FsEntry {
        name: "r".to_string(),
        is_dir: true,
        is_file: false,
        ignored_by_pattern: false,
        children: vec![
            dir("build", vec![]),
            dir("src", vec![dir("build", vec![file("x.rs")])]),
        ],
    };
    let marked = mark_ignored_by_patterns("/r", &root, &Some(gi));
    assert!(marked.children[0].ignored_by_pattern);
    assert!(!marked.children[1].children[0].ignored_by_pattern);
}
