use gptree::models::{AppError, CommandResult, Config, FsEntry, SAFE_MODE_MAX_FILES, SAFE_MODE_MAX_LENGTH};
use gptree::output::{
    add_line_numbers, check_safe_mode, combine_files_with_structure, estimate_tokens,
    output_file_path,
};

fn file(name: &str) -> FsEntry {
    FsEntry {
        name: name.to_string(),
        is_dir: false,
        is_file: true,
        ignored_by_pattern: false,
        children: Vec::new(),
    }
}

#[test]
fn twelve_lines_pad_to_two() {
    let content: Vec<String> = (1..=12).map(|i| format!("line {}", i)).collect();
    let mut text = content.join("\n");
    text = text.replacen("line 1\n", "first line\n", 1);
    let out = add_line_numbers(&text);
    let lines: Vec<&str> = out.lines().collect();
    assert_eq!(lines.len(), 12);
    assert_eq!(lines[0], " 1 | first line");
    assert_eq!(lines[8], " 9 | line 9");
    assert_eq!(lines[11], "12 | line 12");
}

#[test]
fn line_numbers_edge_cases() {
    assert_eq!(add_line_numbers(""), "");
    assert_eq!(add_line_numbers("a\n"), "1 | a");
    assert_eq!(add_line_numbers("a\r\nb"), "1 | a\n2 | b");
    assert_eq!(add_line_numbers("\n\n"), "1 | \n2 | ");
}

#[test]
fn token_estimate_is_bytes_over_four() {
    assert_eq!(estimate_tokens("abcdefghi"), 2);
    assert_eq!(estimate_tokens("é"), 0);
    assert_eq!(estimate_tokens("éé"), 1);
}

#[test]
fn safe_mode_file_count_cap() {
    let sizes = vec![Some(10u64); SAFE_MODE_MAX_FILES];
    assert!(check_safe_mode(SAFE_MODE_MAX_FILES, &sizes).is_ok());
    let more = vec![Some(10u64); SAFE_MODE_MAX_FILES + 1];
    match check_safe_mode(SAFE_MODE_MAX_FILES + 1, &more) {
        Err(AppError::SafeMode(m)) => assert_eq!(m, "Safe mode: Too many files selected (31 > 30)"),
        _ => panic!("expected a safe-mode error"),
    }
}

#[test]
fn safe_mode_byte_cap() {
    let one = vec![Some(SAFE_MODE_MAX_LENGTH as u64 + 1)];
    match check_safe_mode(1, &one) {
        Err(e) => assert_eq!(
            e.message(),
            "Safe mode error: Safe mode: Combined file size too large (> 100000 bytes)"
        ),
        Ok(()) => panic!("expected a safe-mode error"),
    }
    let exact = vec![Some(60_000u64), None, Some(40_000u64)];
    assert!(check_safe_mode(3, &exact).is_ok());
    let over = vec![Some(60_000u64), Some(40_001u64)];
    assert!(check_safe_mode(2, &over).is_err());
    let huge = vec![Some(u64::MAX), Some(u64::MAX)];
    assert!(check_safe_mode(2, &huge).is_err());
}

#[test]
fn combined_output_layout() {
    let root = FsEntry {
        name: "p".to_string(),
        is_dir: true,
        is_file: false,
        ignored_by_pattern: false,
        children: vec![file("a.txt"), file("b.txt")],
    };
    let mut config = Config::defaults();
    config.line_numbers = true;
    let selected = vec!["/p/b.txt".to_string(), "/p/gone.txt".to_string(), "/p/a.txt".to_string()];
    let sizes = vec![Some(4u64), None, Some(12u64)];
    let contents = vec![Some("bbb\n".to_string()), None, Some("hello world!".to_string())];
    let out = combine_files_with_structure("/p", &root, &config, &selected, &Vec::new(), &sizes, &contents)
        .ok()
        .unwrap();
    assert_eq!(out.tree_structure, ".\n├── a.txt\n└── b.txt");
    assert_eq!(
        out.combined_content,
        "# Project Directory Structure:\n.\n├── a.txt\n└── b.txt\n\n# BEGIN FILE CONTENTS\n\n# File: b.txt\n\n1 | bbb\n\n# File: a.txt\n\n1 | hello world!"
    );
    assert_eq!(out.file_details.len(), 2);
    assert_eq!(out.file_details[0].path, "b.txt");
    assert_eq!(out.file_details[0].tokens, 1);
    assert_eq!(out.file_details[1].path, "a.txt");
    assert_eq!(out.file_details[1].tokens, 4);
    assert_eq!(out.token_estimate, 5);
    assert!(out.saved_path.is_none());
}

#[test]
fn combined_output_safe_mode_rejects() {
    let root = FsEntry {
        name: "p".to_string(),
        is_dir: true,
        is_file: false,
        ignored_by_pattern: false,
        children: vec![],
    };
    let config = Config::defaults();
    let selected = vec!["/p/big".to_string()];
    let r = combine_files_with_structure(
        "/p",
        &root,
        &config,
        &selected,
        &Vec::new(),
        &vec![Some(200_000u64)],
        &vec![Some("x".to_string())],
    );
    assert!(matches!(r, Err(AppError::SafeMode(_))));
    let mut off = Config::defaults();
    off.safe_mode = false;
    let ok = combine_files_with_structure(
        "/p",
        &root,
        &off,
        &selected,
        &Vec::new(),
        &vec![Some(200_000u64)],
        &vec![Some("x".to_string())],
    );
    assert!(ok.is_ok());
}

#[test]
fn output_path_choice() {
    let mut c = Config::defaults();
    assert_eq!(output_file_path(&c, "/p", Some("/docs")), Some("/p/gptree_output.txt".to_string()));
    c.output_file_locally = false;
    assert_eq!(output_file_path(&c, "/p", Some("/docs")), Some("/docs/gptree_output.txt".to_string()));
    assert_eq!(output_file_path(&c, "/p", None), Some("/p/gptree_output.txt".to_string()));
    c.save_output_file = false;
    assert_eq!(output_file_path(&c, "/p", None), None);
}

#[test]
fn error_messages() {
    assert_eq!(AppError::Io("x".to_string()).message(), "IO error: x");
    assert_eq!(AppError::Config("y".to_string()).message(), "Config error: y");
    assert_eq!(AppError::PathNotFound("z".to_string()).message(), "Path not found: z");
    assert_eq!(AppError::Json("j".to_string()).message(), "JSON error: j");
}

#[test]
fn command_result_envelopes() {
    let ok = CommandResult::success(5u32);
    assert!(ok.success);
    assert_eq!(ok.data, Some(5));
    assert!(ok.error.is_none());
    let bad: CommandResult<u32> = CommandResult::error("No directory selected".to_string());
    assert!(!bad.success);
    assert!(bad.data.is_none());
    assert_eq!(bad.error, Some("No directory selected".to_string()));
}
