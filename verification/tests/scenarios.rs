use gdiff::diff_view::{split_lines, DiffDoc, DiffRow};
use gdiff::git::{commit, detect_language, parse_ahead_behind, parse_porcelain, FileStatus};
use gdiff::highlight::Engine;
use gdiff::theme::{
    ghostty_purple, parse_hex, rgb, BundledChrome, BundledTheme, BundledTokens, Catalog,
};

#[test]
fn split_trailing_newline() {
    assert_eq!(split_lines("a\nb\n"), vec!["a", "b"]);
    assert_eq!(split_lines("a\nb"), vec!["a", "b"]);
    assert!(split_lines("").is_empty());
}

#[test]
fn builds_insert_delete() {
    let theme = ghostty_purple();
    let engine = Engine::new();
    let doc = DiffDoc::build("hello\n", "hello\nworld\n", "a.txt", &theme, &engine);
    assert!(doc
        .rows
        .iter()
        .any(|r| matches!(r, DiffRow::RightOnly { .. })));
    assert_eq!(doc.hunk_starts().len(), 1);
}

#[test]
fn porcelain_unstaged_modified() {
    let entries = parse_porcelain(" M src/main.rs");
    assert_eq!(entries.len(), 1);
    assert_eq!(entries[0].index, ' ');
    assert_eq!(entries[0].work, 'M');
    assert_eq!(entries[0].path, "src/main.rs");
    assert!(!entries[0].untracked_dir);
}

#[test]
fn porcelain_staged_and_unstaged() {
    let entries = parse_porcelain("MM foo.txt");
    assert_eq!(entries[0].index, 'M');
    assert_eq!(entries[0].work, 'M');
}

#[test]
fn porcelain_rename() {
    let entries = parse_porcelain("R  old.rs -> new.rs");
    assert_eq!(entries[0].index, 'R');
    assert_eq!(entries[0].path, "new.rs");
    assert_eq!(FileStatus::from_code('R'), FileStatus::Renamed);
}

#[test]
fn porcelain_untracked_dir() {
    let entries = parse_porcelain("?? dest/");
    assert!(entries[0].untracked_dir);
    assert_eq!(entries[0].path, "dest/");
}

#[test]
fn porcelain_untracked_file() {
    let entries = parse_porcelain("?? new.txt");
    assert!(!entries[0].untracked_dir);
    assert_eq!(entries[0].work, '?');
}

#[test]
fn porcelain_two_char_added_deleted() {
    let entries = parse_porcelain("AD gone.txt");
    assert_eq!(entries[0].index, 'A');
    assert_eq!(entries[0].work, 'D');
}

#[test]
fn language_map() {
    assert_eq!(detect_language("a.rs"), "rust");
    assert_eq!(detect_language("Foo.CS"), "csharp");
    assert_eq!(detect_language("x.tsx"), "typescript");
    assert_eq!(detect_language("noext"), "plaintext");
}

#[test]
fn fingerprint_entries_to_files() {
    let raw = "M  staged.rs\n M work.rs\n?? dest/\n";
    let entries = parse_porcelain(raw);
    assert_eq!(entries.len(), 3);
    let mut files = Vec::new();
    for e in entries {
        if e.untracked_dir {
            continue;
        }
        if e.index != ' ' && e.index != '?' {
            files.push((e.path.clone(), FileStatus::from_code(e.index), true));
        }
        if e.work != ' ' {
            files.push((e.path, FileStatus::from_code(e.work), false));
        }
    }
    assert_eq!(
        files,
        vec![
            ("staged.rs".to_string(), FileStatus::Modified, true),
            ("work.rs".to_string(), FileStatus::Modified, false),
        ]
    );
}

#[test]
fn empty_commit_message_rejected() {
    let err = commit("   ").unwrap_err();
    assert!(err.contains("empty"));
}

#[test]
fn parse_tracking_counts() {
    assert_eq!(parse_ahead_behind(""), (0, 0, false));
    assert_eq!(parse_ahead_behind("2\t3"), (3, 2, true));
    assert_eq!(parse_ahead_behind("0 0"), (0, 0, true));
}

#[test]
fn unknown_theme_falls_back() {
    let mut cat = Catalog::new();
    cat.insert("absent".to_string(), plain_scheme("Absent"));
    cat.insert("paper-light".to_string(), plain_scheme("Paper"));
    let t = cat.resolve("does-not-exist", |_| true, |c, _| c);
    assert_eq!(t.id, "default");
}

#[test]
fn parse_hex_variants() {
    assert_eq!(parse_hex("#ff00aa"), Some(rgb(0xff, 0x00, 0xaa)));
    assert_eq!(parse_hex("228a96"), Some(rgb(0x22, 0x8a, 0x96)));
}

fn plain_scheme(name: &str) -> BundledTheme {
    BundledTheme {
        name: name.to_string(),
        editor_bg: "#1e1e1e".to_string(),
        editor_fg: "#d4d4d4".to_string(),
        chrome: BundledChrome {
            line_numbers: None,
            gutter: None,
            caret: None,
            caret_row: None,
            selection: None,
            added: None,
            deleted: None,
            modified: None,
            separator: None,
        },
        tokens: BundledTokens {
            keyword: None,
            string: None,
            number: None,
            comment: None,
            function: None,
            type_token: None,
            operator: None,
        },
    }
}
