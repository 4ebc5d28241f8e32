use gdiff::config::{set_diff_mode, set_theme, start_side_by_side, start_theme, Config};
use gdiff::diff_view::{cell_background, cell_marks, split_lines, DiffDoc, DiffRow, LineKind};
use gdiff::explorer::Explorer;
use gdiff::git::{
    commit, decode_bytes, git_outcome, decode_git_bytes, default_editor_command, detect_language, discard_files,
    editor_command_line, get_changed_files, get_file_diff, get_repo_info, has_commits,
    needs_head, parse_ahead_behind, parse_porcelain, powershell_command, push, revision_spec,
    stage_all, stage_files, tree_level, unstage_files, ChangedFile, DirEntry, FileStatus, Platform,
    RepoInfo, Version,
};
use gdiff::highlight::Engine;
use gdiff::parse::syntax_for;
use gdiff::text::decimal;
use gdiff::session::{
    branch_label, commit_label, discard_prompt, files_changed_label, fingerprint,
    picked_label, placeholder, push_label, tracking_label, Job, Msg, Session,
};
use gdiff::theme::{
    ghostty_purple, github_dark, parse_hex, picker_items, rgb, with_alpha, BundledChrome,
    BundledTheme, BundledTokens, Catalog, Color, Shade, ThemeGroup, TokenAttr,
};
use gdiff::watcher::{contains_seg, is_noise, Received, WatchState, WatchStep};

fn strings(v: &[&str]) -> Vec<String> {
    v.iter().map(|s| s.to_string()).collect()
}

fn file(path: &str, status: FileStatus, staged: bool) -> ChangedFile {
    ChangedFile { path: path.to_string(), status, staged }
}

fn info(path: &str) -> RepoInfo {
    get_repo_info(path, "main".to_string(), None, "0\t1")
}

fn left_numbers(doc: &DiffDoc) -> Vec<usize> {
    doc.rows
        .iter()
        .filter_map(|r| match r {
            DiffRow::Both { left, .. } | DiffRow::LeftOnly { left } => Some(left.no),
            DiffRow::RightOnly { .. } => None,
        })
        .collect()
}

fn right_numbers(doc: &DiffDoc) -> Vec<usize> {
    doc.rows
        .iter()
        .filter_map(|r| match r {
            DiffRow::Both { right, .. } | DiffRow::RightOnly { right } => Some(right.no),
            DiffRow::LeftOnly { .. } => None,
        })
        .collect()
}

// --- hex colours -----------------------------------------------------------

#[test]
fn hex_leading_hash_does_not_matter() {
    assert_eq!(parse_hex("#abc"), parse_hex("abc"));
    assert_eq!(parse_hex("##228a96"), parse_hex("#228a96"));
    assert_eq!(parse_hex("228a96"), Some(rgb(0x22, 0x8a, 0x96)));
}

#[test]
fn hex_short_form_doubles_digits() {
    assert_eq!(parse_hex("abc"), parse_hex("aabbcc"));
    assert_eq!(parse_hex("#f0a"), Some(rgb(0xff, 0x00, 0xaa)));
}

#[test]
fn hex_rejects_other_lengths_and_digits() {
    assert_eq!(parse_hex(""), None);
    assert_eq!(parse_hex("#"), None);
    assert_eq!(parse_hex("#abcd"), None);
    assert_eq!(parse_hex("#gggggg"), None);
    assert_eq!(parse_hex("  #010203  "), Some(rgb(1, 2, 3)));
}

#[test]
fn alpha_is_replaced() {
    let c = with_alpha(rgb(1, 2, 3), 9);
    assert_eq!((c.r, c.g, c.b, c.a), (1, 2, 3, 9));
}

// --- lines and rows -------------------------------------------------------------

#[test]
fn lines_rejoin_to_the_text() {
    for text in ["a\nb\n", "a\nb", "", "\n", "a\n\nb\n\n", "solo"] {
        let lines = split_lines(text);
        let mut back = lines.join("\n");
        if text.ends_with('\n') {
            back.push('\n');
        }
        assert_eq!(back, text);
        assert!(lines.iter().all(|l| !l.contains('\n')));
    }
}

#[test]
fn rows_show_every_line_once_in_order() {
    let theme = ghostty_purple();
    let engine = Engine::new();
    let old = "one\ntwo\nthree\nfour\n";
    let new = "zero\none\nthree\nfour!\nfive\n";
    let doc = DiffDoc::build(old, new, "notes.txt", &theme, &engine);
    assert_eq!(left_numbers(&doc), vec![1, 2, 3, 4]);
    assert_eq!(right_numbers(&doc), vec![1, 2, 3, 4, 5]);
}

#[test]
fn rows_of_identical_texts_are_context() {
    let theme = github_dark();
    let engine = Engine::new();
    let doc = DiffDoc::build("a\nb\n", "a\nb\n", "x.txt", &theme, &engine);
    assert_eq!(doc.rows.len(), 2);
    assert!(doc.rows.iter().all(|r| matches!(
        r,
        DiffRow::Both { left, right } if left.kind == LineKind::Context && right.kind == LineKind::Context
    )));
    assert!(doc.hunk_starts().is_empty());
}

#[test]
fn hunks_start_after_unchanged_rows() {
    let theme = ghostty_purple();
    let engine = Engine::new();
    let doc = DiffDoc::build("a\nb\nc\nd\ne\n", "a\nB\nc\nd\nE\n", "x.txt", &theme, &engine);
    assert_eq!(doc.hunk_starts(), vec![1, 4]);
}

#[test]
fn highlighted_rust_keeps_text() {
    let theme = ghostty_purple();
    let engine = Engine::new();
    let doc = DiffDoc::build("", "fn main() {}\n", "main.rs", &theme, &engine);
    assert_eq!(doc.rows.len(), 1);
    match &doc.rows[0] {
        DiffRow::RightOnly { right } => {
            let text: String = right.spans.iter().map(|s| s.text.as_str()).collect();
            assert_eq!(text.trim_end_matches('\n'), "fn main() {}");
            assert_eq!(right.kind, LineKind::Insert);
            assert_eq!(right.no, 1);
        }
        _ => panic!("expected an inserted row"),
    }
}

// --- file tree ------------------------------------------------------------------

#[test]
fn tree_lists_directories_first_then_names_ignoring_case() {
    let entries = vec![
        DirEntry { name: "zeta.txt".into(), is_dir: false },
        DirEntry { name: "Alpha.txt".into(), is_dir: false },
        DirEntry { name: "src".into(), is_dir: true },
        DirEntry { name: "target".into(), is_dir: true },
        DirEntry { name: "Docs".into(), is_dir: true },
        DirEntry { name: ".git".into(), is_dir: true },
        DirEntry { name: "beta.txt".into(), is_dir: false },
    ];
    let items = tree_level("", &entries);
    let names: Vec<&str> = items.iter().map(|i| i.name.as_str()).collect();
    assert_eq!(names, vec!["Docs", "src", "Alpha.txt", "beta.txt", "zeta.txt"]);
    let nested = tree_level("src/app", &entries);
    assert_eq!(nested[0].path, "src/app/Docs");
    assert!(nested[0].is_dir);
    assert!(!nested[2].is_dir);
}

#[test]
fn tree_orders_by_unicode_lower_case() {
    let entries = vec![
        DirEntry { name: "Éclair".into(), is_dir: false },
        DirEntry { name: "éa".into(), is_dir: false },
    ];
    let items = tree_level("", &entries);
    assert_eq!(items[0].name, "éa");
    assert_eq!(items[1].name, "Éclair");
}

// --- git commands and parsing ------------------------------------------------

#[test]
fn commit_trims_message() {
    assert_eq!(commit("  fix it \n").unwrap(), strings(&["commit", "-m", "fix it"]));
    assert_eq!(commit("\t\n").unwrap_err(), "Commit message is empty");
}

#[test]
fn push_without_and_with_upstream() {
    let p = push("");
    assert_eq!(p.args, strings(&["push", "-u", "origin", "HEAD"]));
    assert_eq!(p.summary, "Pushed and set upstream to origin");
    let p = push("origin/main");
    assert_eq!(p.args, strings(&["push"]));
    assert_eq!(p.summary, "Pushed to origin/main");
}

#[test]
fn staging_arguments() {
    let paths = strings(&["a.rs", "b c.rs"]);
    assert_eq!(stage_files(&paths).unwrap(), strings(&["add", "--", "a.rs", "b c.rs"]));
    assert_eq!(stage_files(&Vec::new()), None);
    assert_eq!(stage_all(), strings(&["add", "-A"]));
    assert_eq!(unstage_files(&paths, true).unwrap(), strings(&["reset", "HEAD", "--", "a.rs", "b c.rs"]));
    assert_eq!(unstage_files(&paths, false).unwrap(), strings(&["rm", "--cached", "--", "a.rs", "b c.rs"]));
    assert_eq!(discard_files(&paths).unwrap(), strings(&["checkout", "--", "a.rs", "b c.rs"]));
    assert_eq!(discard_files(&Vec::new()), None);
    assert!(has_commits("abc123"));
    assert!(!has_commits(""));
}

#[test]
fn ahead_behind_counts() {
    assert_eq!(parse_ahead_behind(""), (0, 0, false));
    assert_eq!(parse_ahead_behind("  \n"), (0, 0, false));
    assert_eq!(parse_ahead_behind("4\t7\n"), (7, 4, true));
    assert_eq!(parse_ahead_behind("x 7"), (7, 0, true));
    assert_eq!(parse_ahead_behind("99999999999 1"), (1, 0, true));
}

#[test]
fn repo_info_names_and_branch() {
    let i = get_repo_info("/home/me/proj", "".to_string(), Some("abc1234".to_string()), "1\t2");
    assert_eq!(i.repo_name, "proj");
    assert_eq!(i.branch, "abc1234");
    assert_eq!((i.ahead, i.behind, i.has_upstream), (2, 1, true));
    let i = get_repo_info("/home/me/proj", "dev".to_string(), None, "");
    assert_eq!(i.branch, "dev");
    assert!(!i.has_upstream);
}

#[test]
fn changed_files_expand_untracked_dirs() {
    let entries = parse_porcelain("M  staged.rs\nMM both.rs\n?? dest/\n D gone.rs\n");
    let listings = vec![None, None, Some(strings(&["dest/a.txt", "dest/b/c.txt"])), None];
    let files = get_changed_files(&entries, &listings);
    let got: Vec<(String, FileStatus, bool)> =
        files.iter().map(|f| (f.path.clone(), f.status, f.staged)).collect();
    assert_eq!(
        got,
        vec![
            ("staged.rs".to_string(), FileStatus::Modified, true),
            ("both.rs".to_string(), FileStatus::Modified, true),
            ("both.rs".to_string(), FileStatus::Modified, false),
            ("dest/a.txt".to_string(), FileStatus::Added, false),
            ("dest/b/c.txt".to_string(), FileStatus::Added, false),
            ("gone.rs".to_string(), FileStatus::Deleted, false),
        ]
    );
}

#[test]
fn file_diff_sides() {
    let d = get_file_diff("x.py", true, "h".into(), "i".into(), "w".into());
    assert_eq!((d.original.as_str(), d.modified.as_str(), d.language.as_str()), ("h", "i", "python"));
    let d = get_file_diff("x.py", false, "h".into(), "i".into(), "w".into());
    assert_eq!((d.original.as_str(), d.modified.as_str()), ("i", "w"));
    let d = get_file_diff("x.py", false, "h".into(), "".into(), "w".into());
    assert_eq!((d.original.as_str(), d.modified.as_str()), ("h", "w"));
    assert!(needs_head(true, "i"));
    assert!(needs_head(false, ""));
    assert!(!needs_head(false, "i"));
    assert_eq!(revision_spec("a/b.rs", Version::Head).unwrap(), "HEAD:a/b.rs");
    assert_eq!(revision_spec("a/b.rs", Version::Staged).unwrap(), ":a/b.rs");
    assert_eq!(revision_spec("a/b.rs", Version::Working), None);
}

#[test]
fn decoding_replaces_bad_bytes_and_refuses_binary() {
    assert_eq!(decode_bytes(b"plain text"), "plain text");
    assert_eq!(decode_bytes(&[b'a', 0xff, b'b']), "a\u{fffd}b");
    assert_eq!(decode_bytes(&[b'a', 0, b'b']), "(binary file)");
    assert_eq!(decode_git_bytes(&[]), "");
}

#[test]
fn languages_ignore_case_of_extension() {
    assert_eq!(detect_language("SRC/MAIN.RS"), "rust");
    assert_eq!(detect_language("a/b.Json"), "json");
    assert_eq!(detect_language(".bashrc"), "plaintext");
    assert_eq!(detect_language("Dockerfile"), "plaintext");
    assert_eq!(detect_language("x.DOCKERFILE"), "dockerfile");
}

#[test]
fn editor_command_lines() {
    let c = editor_command_line("/r/a.txt", Some("code {file} --wait"), Platform::Other).unwrap();
    assert_eq!(c.program, "code");
    assert_eq!(c.args, strings(&["/r/a.txt", "--wait"]));
    let c = editor_command_line("/r/a.txt", Some("  "), Platform::MacOs).unwrap();
    assert_eq!(c.program, "open");
    assert_eq!(c.args, strings(&["-a", "Zed", "/r/a.txt"]));
    let c = editor_command_line("/r/a.txt", Some("vim"), Platform::Other).unwrap();
    assert_eq!(c.program, "vim");
    assert_eq!(c.args, strings(&["/r/a.txt"]));
    assert_eq!(default_editor_command(Platform::Windows), "notepad.exe {file}");
    assert_eq!(default_editor_command(Platform::Other), "xdg-open {file}");
}

#[test]
fn editor_placeholder_is_replaced_inside_words() {
    let c = editor_command_line("/r/a.txt", Some("code --goto={file}:1"), Platform::Other).unwrap();
    assert_eq!(c.program, "code");
    assert_eq!(c.args, strings(&["--goto=/r/a.txt:1"]));
    let c = editor_command_line("/r/a.txt", Some("ed {file} {file}"), Platform::Other).unwrap();
    assert_eq!(c.args, strings(&["/r/a.txt", "/r/a.txt"]));
    assert!(editor_command_line("", Some("{file}"), Platform::Other).is_none());
}

#[test]
fn powershell_quotes_arguments() {
    let cmd = powershell_command("C:\\Program Files\\ed.exe", &strings(&["it's.txt", "b"]));
    assert_eq!(cmd, "Start-Process -FilePath 'C:\\Program Files\\ed.exe' -ArgumentList 'it''s.txt', 'b'");
    assert_eq!(powershell_command("n.exe", &Vec::new()), "Start-Process -FilePath 'n.exe'");
}

// --- settings and themes --------------------------------------------------------

#[test]
fn settings_read_back_what_was_written() {
    let mut cfg = Config::empty();
    assert_eq!(start_theme(&cfg), "default");
    assert!(start_side_by_side(&cfg));
    set_theme(&mut cfg, "absent");
    set_diff_mode(&mut cfg, false);
    assert_eq!(start_theme(&cfg), "absent");
    assert!(!start_side_by_side(&cfg));
    set_theme(&mut cfg, "");
    assert_eq!(start_theme(&cfg), "default");
    assert!(!start_side_by_side(&cfg));
}

#[test]
fn catalog_lists_builtins_first() {
    let cat = Catalog::new();
    let list = cat.list();
    assert_eq!(list.len(), 2);
    assert_eq!(list[0].id, "default");
    assert_eq!(list[1].id, "github-dark");
    assert_eq!(cat.display_name("github-dark"), "GitHub Dark");
    assert_eq!(cat.display_name("nope"), "nope");
}

// --- session ------------------------------------------------------------------------

fn session() -> Session {
    Session::new("/repo".to_string(), &info("/repo"), &Config::empty())
}

#[test]
fn refresh_asked_meanwhile_is_sent_after() {
    let mut s = session();
    let first = s.request_refresh();
    assert!(matches!(first, Some(Job::Refresh { token: 2, .. })));
    assert!(s.request_refresh().is_none());
    assert!(s.refresh_again);
    let out = s.handle_files(vec![file("a.rs", FileStatus::Modified, false)], info("/repo"));
    assert!(matches!(out.jobs.last(), Some(Job::Refresh { .. })));
    assert!(s.refresh_in_flight);
    assert!(!s.refresh_again);
}

#[test]
fn selection_follows_its_file_across_refresh() {
    let mut s = session();
    let theme = ghostty_purple();
    let engine = Engine::new();
    let _ = s.handle_msg(
        Msg::Files {
            files: vec![
                file("a.rs", FileStatus::Modified, false),
                file("b.rs", FileStatus::Modified, false),
            ],
            info: info("/repo"),
            token: 2,
        },
        &theme,
        &engine,
    );
    let _ = s.select_index(1);
    let out = s.handle_files(
        vec![
            file("new.rs", FileStatus::Added, true),
            file("a.rs", FileStatus::Modified, false),
            file("b.rs", FileStatus::Modified, false),
        ],
        info("/repo"),
    );
    assert_eq!(s.selected, Some(2));
    assert!(matches!(&out.jobs[0], Job::LoadDiff { path, staged: false, .. } if path == "b.rs"));
}

#[test]
fn empty_commit_message_sets_status() {
    let mut s = session();
    assert!(s.request_commit(false).is_none());
    assert_eq!(s.status.as_deref(), Some("Commit message is empty"));
    s.commit_message = "msg".into();
    assert!(s.request_commit(false).is_none());
    assert_eq!(s.status.as_deref(), Some("Nothing to commit"));
}

#[test]
fn fingerprints_tell_lists_apart() {
    let a = vec![file("a", FileStatus::Modified, true), file("b", FileStatus::Added, false)];
    assert_eq!(fingerprint(&a), "a:modified:true\nb:added:false");
    assert_eq!(fingerprint(&Vec::new()), "");
}

// --- watcher ------------------------------------------------------------------------

#[test]
fn watcher_ignores_noise() {
    assert!(is_noise(&Vec::new()));
    assert!(is_noise(&strings(&["/r/.git/objects/ab/cd", "/r/x/.DS_Store"])));
    assert!(!is_noise(&strings(&["/r/.git/objects/ab", "/r/src/main.rs"])));
    assert!(contains_seg("/a/node_modules/b", "/node_modules/"));
    let mut w = WatchState::new("/r".to_string());
    w.on_fs_event(Some(&strings(&["/r/.git/logs/HEAD"])));
    assert!(!w.take_dirty());
    w.on_fs_event(Some(&strings(&["/r/src/lib.rs"])));
    w.on_fs_event(None);
    assert!(w.take_dirty());
    assert!(!w.take_dirty());
    match w.on_received(Received::SetRepo("/s".to_string())) {
        WatchStep::Rewatch { old, new } => assert_eq!((old.as_str(), new.as_str()), ("/r", "/s")),
        _ => panic!("expected a rewatch"),
    }
    assert!(matches!(w.on_received(Received::Shutdown), WatchStep::Stop));
    assert!(matches!(w.on_received(Received::Timeout), WatchStep::Continue));
}

// --- bundled themes -----------------------------------------------------------------

fn bundled(name: &str, bg: &str) -> BundledTheme {
    BundledTheme {
        name: name.to_string(),
        editor_bg: bg.to_string(),
        editor_fg: "d4d4d4".to_string(),
        chrome: BundledChrome {
            line_numbers: Some("#858585".to_string()),
            gutter: None,
            caret: Some("#aeafad".to_string()),
            caret_row: None,
            selection: Some("#264f78".to_string()),
            added: None,
            deleted: Some("f44747".to_string()),
            modified: None,
            separator: None,
        },
        tokens: BundledTokens {
            keyword: Some(TokenAttr {
                foreground: Some("#569cd6".to_string()),
                font_type: Some("1".to_string()),
            }),
            string: None,
            number: None,
            comment: Some(TokenAttr {
                foreground: Some("#6a9955".to_string()),
                font_type: Some("2".to_string()),
            }),
            function: None,
            type_token: None,
            operator: None,
        },
    }
}

fn white_or_black(_c: Color, s: Shade) -> Color {
    if s.lighten {
        rgb(255, 255, 255)
    } else {
        rgb(0, 0, 0)
    }
}

#[test]
fn bundled_scheme_becomes_a_theme() {
    let mut cat = Catalog::new();
    cat.insert("absent".to_string(), bundled("Absent (rainglow)", "#1e1e1e"));
    let t = cat.resolve("absent", |_| true, white_or_black);
    assert_eq!(t.id, "absent");
    assert_eq!(t.name, "Absent");
    assert!(t.is_dark);
    assert_eq!(t.editor_bg, rgb(0x1e, 0x1e, 0x1e));
    assert_eq!(t.editor_fg, rgb(0xd4, 0xd4, 0xd4));
    assert_eq!(t.accent, rgb(0x56, 0x9c, 0xd6));
    assert_eq!(t.text_muted, rgb(0x85, 0x85, 0x85));
    assert_eq!(t.border, rgb(255, 255, 255));
    assert_eq!(t.bg_panel, rgb(0, 0, 0));
    assert_eq!(t.bg_panel_hover, rgb(255, 255, 255));
    assert_eq!(t.bg_control, rgb(255, 255, 255));
    assert_eq!(t.bg_selected, rgb(0x26, 0x4f, 0x78));
    assert_eq!(t.status_deleted, rgb(0xf4, 0x47, 0x47));
    assert_eq!(t.status_added, rgb(0x3f, 0xb9, 0x50));
    assert_eq!(t.status_renamed, t.status_modified);
    assert_eq!(t.inserted_line, with_alpha(rgb(0x3f, 0xb9, 0x50), 32));
    assert!(t.tokens.keyword.bold && !t.tokens.keyword.italic);
    assert!(t.tokens.comment.italic && !t.tokens.comment.bold);
    assert_eq!(t.tokens.comment.color, rgb(0x6a, 0x99, 0x55));
    assert_eq!(t.tokens.string.color, t.status_added);
}

#[test]
fn light_scheme_shades_the_other_way() {
    let mut cat = Catalog::new();
    cat.insert("paper-light".to_string(), bundled("Paper", "nonsense"));
    let t = cat.resolve("paper-light", |_| false, white_or_black);
    assert!(!t.is_dark);
    assert_eq!(t.editor_bg, rgb(0x1e, 0x1e, 0x1e));
    assert_eq!(t.bg_panel, rgb(255, 255, 255));
    assert_eq!(t.border, rgb(0, 0, 0));
    assert_eq!(t.status_added, rgb(0x1a, 0x7f, 0x37));
    let list = cat.list();
    assert_eq!(list.len(), 3);
    assert_eq!(list[2].id, "paper-light");
    assert_eq!(list[2].group, ThemeGroup::Light);
    assert_eq!(cat.display_name("paper-light"), "Paper");
}

#[test]
fn builtin_and_unknown_ids_resolve() {
    let cat = Catalog::new();
    assert_eq!(cat.resolve("github-dark", |_| true, white_or_black).name, "GitHub Dark");
    assert_eq!(cat.resolve("default", |_| true, white_or_black).name, "Ghostty Purple");
    assert_eq!(cat.resolve("nope", |_| true, white_or_black).id, "default");
}

#[test]
fn picker_filters_by_group_and_text() {
    let mut cat = Catalog::new();
    cat.insert("absent".to_string(), bundled("Absent", "#000"));
    cat.insert("paper-light".to_string(), bundled("Paper", "#fff"));
    let list = cat.list();
    assert_eq!(picker_items(&list, ThemeGroup::Builtin, ""), vec![0, 1]);
    assert_eq!(picker_items(&list, ThemeGroup::Builtin, "GIT"), vec![1]);
    assert_eq!(picker_items(&list, ThemeGroup::Dark, "abs"), vec![2]);
    assert_eq!(picker_items(&list, ThemeGroup::Light, "abs"), Vec::<usize>::new());
    assert_eq!(picker_items(&list, ThemeGroup::Light, "LIGHT"), vec![3]);
}

// --- labels -------------------------------------------------------------------------

#[test]
fn labels_read_as_the_window_shows_them() {
    assert_eq!(decimal(0), "0");
    assert_eq!(decimal(1234567890), "1234567890");
    assert_eq!(decimal(u64::MAX), u64::MAX.to_string());
    assert_eq!(files_changed_label(1), "1 file changed");
    assert_eq!(files_changed_label(0), "0 files changed");
    assert_eq!(files_changed_label(12), "12 files changed");
    assert_eq!(push_label(true, 3), "Pushing…");
    assert_eq!(push_label(false, 3), "Push (3)");
    assert_eq!(push_label(false, 0), "Push");
    assert_eq!(commit_label(false), "Commit");
    assert_eq!(commit_label(true), "Committing…");
    assert_eq!(discard_prompt(&strings(&["a.rs"])), "Discard changes to a.rs?");
    assert_eq!(discard_prompt(&strings(&["a", "b"])), "Discard changes to 2 files?");
    assert_eq!(picked_label(4), "4 selected");
    assert_eq!(branch_label(""), "—");
    assert_eq!(branch_label("main"), "main");
    assert_eq!(tracking_label(0, 0), None);
    assert_eq!(tracking_label(2, 0).unwrap(), "↑2 ↓0");
    assert_eq!(placeholder(true), "Loading diff…");
}

#[test]
fn groups_and_discard_buttons() {
    let mut s = session();
    s.files = vec![
        file("a", FileStatus::Modified, true),
        file("b", FileStatus::Added, false),
        file("c", FileStatus::Deleted, false),
    ];
    assert_eq!(s.group_indices(true), vec![0]);
    assert_eq!(s.group_indices(false), vec![1, 2]);
    assert!(!s.discardable(0));
    assert!(!s.discardable(1));
    assert!(s.discardable(2));
    assert!(!s.discardable(3));
    s.ask_discard(1);
    assert!(s.pending_discard.is_none());
    s.ask_discard(2);
    assert_eq!(s.pending_discard.clone().unwrap(), strings(&["c"]));
    match s.close_discard(true) {
        Some(Job::Discard { paths, .. }) => assert_eq!(paths, strings(&["c"])),
        _ => panic!("expected a discard"),
    }
    assert!(s.pending_discard.is_none());
}

#[test]
fn picked_files_are_staged_together() {
    let mut s = session();
    s.files = vec![
        file("a", FileStatus::Modified, false),
        file("b", FileStatus::Modified, true),
        file("c", FileStatus::Modified, false),
    ];
    let _ = s.click_file(0, false, false);
    let _ = s.click_file(2, false, true);
    assert_eq!(s.multi.len(), 3);
    match s.stage_picked() {
        Some(Job::Stage { paths, .. }) => {
            let mut p = paths.clone();
            p.sort();
            assert_eq!(p, strings(&["a", "c"]));
        }
        _ => panic!("expected a stage"),
    }
    assert!(s.multi.is_empty());
    let _ = s.click_file(1, true, false);
    let _ = s.click_file(1, true, false);
    assert!(s.multi.is_empty());
}

// --- icon ---------------------------------------------------------------------------

#[test]
fn icon_decodes_png_bytes() {
    let mut img = image::RgbaImage::new(2, 1);
    img.put_pixel(0, 0, image::Rgba([1, 2, 3, 4]));
    img.put_pixel(1, 0, image::Rgba([5, 6, 7, 8]));
    let mut png: Vec<u8> = Vec::new();
    img.write_to(&mut std::io::Cursor::new(&mut png), image::ImageFormat::Png).unwrap();
    let icon = gdiff::icon::load_icon(&png);
    assert_eq!((icon.width, icon.height), (2, 1));
    assert_eq!(icon.rgba, vec![1, 2, 3, 4, 5, 6, 7, 8]);
    let bad = gdiff::icon::load_icon(b"not an image");
    assert!(bad.rgba.is_empty());
    assert_eq!((bad.width, bad.height), (0, 0));
}

// --- whole file tree ----------------------------------------------------------------

fn disk(name: &str, is_dir: bool, entries: Vec<gdiff::git::DiskEntry>) -> gdiff::git::DiskEntry {
    gdiff::git::DiskEntry { name: name.to_string(), is_dir, entries }
}

#[test]
fn file_tree_nests_sorted_levels() {
    let root = vec![
        disk("README.md", false, vec![]),
        disk("src", true, vec![disk("main.rs", false, vec![]), disk("bin", true, vec![]), disk("a", true, vec![disk("B.rs", false, vec![])])]),
        disk("target", true, vec![disk("debug", true, vec![])]),
        disk("Docs", true, vec![]),
    ];
    let tree = gdiff::git::get_file_tree(&root);
    let names: Vec<&str> = tree.iter().map(|n| n.name.as_str()).collect();
    assert_eq!(names, vec!["Docs", "src", "README.md"]);
    let src = &tree[1];
    assert_eq!(src.path, "src");
    let inner: Vec<&str> = src.children.iter().map(|n| n.path.as_str()).collect();
    assert_eq!(inner, vec!["src/a", "src/main.rs"]);
    assert_eq!(src.children[0].children[0].path, "src/a/B.rs");
    assert!(tree[2].children.is_empty());
    assert!(gdiff::git::is_skipped("node_modules"));
    assert!(!gdiff::git::is_skipped("src"));
}

#[test]
fn counts_read_back() {
    for (ahead, behind) in [(0u32, 0u32), (3, 2), (u32::MAX, 7), (10, u32::MAX)] {
        let printed = format!("{}\t{}", decimal(behind as u64), decimal(ahead as u64));
        assert_eq!(parse_ahead_behind(&printed), (ahead, behind, true));
    }
}

#[test]
fn highlighter_gives_one_list_per_line() {
    let engine = Engine::new();
    let theme = ghostty_purple();
    for text in ["a\nb\n", "a\nb", "", "\n\n", "let x = 1;\nfn f() {}\n"] {
        let hi = engine.highlight("t.rs", text, &theme.tokens);
        let lines = split_lines(text);
        assert_eq!(hi.len(), lines.len());
        for (spans, line) in hi.iter().zip(lines.iter()) {
            let joined: String = spans.iter().map(|s| s.text.as_str()).collect();
            assert_eq!(&joined, line);
        }
    }
}

// --- opening a window ---------------------------------------------------------------

#[test]
fn start_resolves_theme_and_asks_refresh_then_tree() {
    let mut cat = Catalog::new();
    cat.insert("absent".to_string(), bundled("Absent", "#1e1e1e"));
    let cfg = Config {
        theme: Some("absent".to_string()),
        editor_command: Some("code {file}".to_string()),
        side_by_side: Some(false),
    };
    let (s, theme, jobs) =
        Session::start("/repo".to_string(), &info("/repo"), &cfg, &cat, |_| true, white_or_black);
    assert_eq!(s.theme_id, "absent");
    assert_eq!(theme.id, "absent");
    assert_eq!(theme.name, "Absent");
    assert!(!s.side_by_side);
    assert_eq!(s.editor_command.as_deref(), Some("code {file}"));
    assert!(s.selected.is_none());
    assert_eq!(s.refresh_token, 2);
    assert!(s.refresh_in_flight);
    assert_eq!(jobs.len(), 2);
    assert!(matches!(&jobs[0], Job::Refresh { repo, token: 2 } if repo == "/repo"));
    assert!(matches!(&jobs[1], Job::LoadTree { repo } if repo == "/repo"));

    let (s, theme, _) = Session::start(
        "/repo".to_string(),
        &info("/repo"),
        &Config::empty(),
        &cat,
        |_| true,
        white_or_black,
    );
    assert_eq!(s.theme_id, "default");
    assert_eq!(theme.name, "Ghostty Purple");
    assert!(s.side_by_side);
}

// --- watcher passes -----------------------------------------------------------------

fn event(paths: &[&str]) -> Option<Vec<String>> {
    Some(strings(paths))
}

#[test]
fn watcher_pass_tells_at_most_once() {
    let mut w = WatchState::new("/r".to_string());
    let noise = vec![event(&["/r/.git/objects/ab"]), None, event(&[])];
    let (step, notify) = w.pass(Received::Timeout, &noise);
    assert!(matches!(step, WatchStep::Continue));
    assert!(!notify);
    let changes = vec![event(&["/r/a.rs"]), event(&["/r/b.rs"]), event(&["/r/x/.DS_Store"])];
    let (_, notify) = w.pass(Received::Timeout, &changes);
    assert!(notify);
    assert!(!w.dirty);
    let (_, notify) = w.pass(Received::Timeout, &Vec::new());
    assert!(!notify);
    let (step, notify) = w.pass(Received::SetRepo("/s".to_string()), &changes);
    assert!(matches!(step, WatchStep::Rewatch { .. }));
    assert!(notify);
    assert_eq!(w.repo, "/s");
    let (step, notify) = w.pass(Received::Shutdown, &changes);
    assert!(matches!(step, WatchStep::Stop));
    assert!(!notify);
    let (step, notify) = w.pass(Received::Disconnected, &changes);
    assert!(matches!(step, WatchStep::Stop));
    assert!(!notify);
}

#[test]
fn watcher_move_forgets_pending_change() {
    let mut w = WatchState::new("/r".to_string());
    w.on_fs_event(Some(&strings(&["/r/a.rs"])));
    let (_, notify) = w.pass(Received::SetRepo("/s".to_string()), &Vec::new());
    assert!(!notify);
    w.on_fs_event(Some(&strings(&["/s/a.rs"])));
    let (_, notify) = w.pass(Received::Timeout, &Vec::new());
    assert!(notify);
}

// --- gutter -------------------------------------------------------------------------

#[test]
fn largest_line_number_sizes_gutter() {
    let doc = DiffDoc { rows: Vec::new() };
    assert_eq!(doc.max_line_number(), 1);
    let theme = ghostty_purple();
    let engine = Engine::new();
    let original: String = (1..=9).map(|i| format!("line {i}\n")).collect();
    let modified: String = (1..=12).map(|i| format!("line {i}\n")).collect();
    let doc = DiffDoc::build(&original, &modified, "a.txt", &theme, &engine);
    assert_eq!(doc.max_line_number(), 12);
    assert_eq!(decimal(doc.max_line_number() as u64).len(), 2);
    let doc = DiffDoc::build(&modified, "x\n", "a.txt", &theme, &engine);
    assert_eq!(doc.max_line_number(), 12);
}

// --- explorer -----------------------------------------------------------------------

#[test]
fn explorer_loads_tree_once_and_folds_dirs() {
    let mut e = Explorer::new();
    assert!(e.open);
    assert!(e.toggle(&"/r".to_string()).is_none());
    assert!(!e.open);
    match e.toggle(&"/r".to_string()) {
        Some(Job::LoadTree { repo }) => assert_eq!(repo, "/r"),
        _ => panic!("expected a tree load"),
    }
    e.tree = Some(Vec::new());
    assert!(e.toggle(&"/r".to_string()).is_none());
    assert!(e.toggle(&"/r".to_string()).is_none());
    assert!(!e.is_expanded("src"));
    e.toggle_dir("src");
    e.toggle_dir("src/a");
    assert!(e.is_expanded("src"));
    assert!(e.is_expanded("src/a"));
    e.toggle_dir("src");
    assert!(!e.is_expanded("src"));
    assert!(e.is_expanded("src/a"));
    e.forget();
    assert!(e.tree.is_none());
    assert!(!e.is_expanded("src/a"));
    assert!(e.open);
}

// --- decoding and languages ---------------------------------------------------------

#[test]
fn some_bytes_never_decode_to_nothing() {
    assert_eq!(decode_bytes(&[0xff]), "\u{FFFD}");
    assert_eq!(decode_git_bytes(&[0xc3]), "\u{FFFD}");
    assert_eq!(decode_git_bytes(&[]), "");
    assert_eq!(decode_bytes(&[b'a', 0]), "(binary file)");
}

#[test]
fn extension_case_does_not_change_language() {
    for (p, q) in [("a.Rs", "b/a.rs"), ("X.DOCKERFILE", "y.dockerfile"), ("noext", "Makefile")] {
        assert_eq!(detect_language(p), detect_language(q));
    }
    assert_eq!(detect_language("Makefile"), "plaintext");
}

#[test]
fn rows_number_every_line_of_both_texts() {
    let theme = ghostty_purple();
    let engine = Engine::new();
    let original = "a\r\nb\r\nc\r\nd\r\n";
    let modified = "a\r\nB\r\nc\r\nd\r\ne\r\n";
    let doc = DiffDoc::build(original, modified, "t.txt", &theme, &engine);
    assert_eq!(left_numbers(&doc), vec![1, 2, 3, 4]);
    assert_eq!(right_numbers(&doc), vec![1, 2, 3, 4, 5]);
    let doc = DiffDoc::build("", "x\ny", "t.txt", &theme, &engine);
    assert_eq!(left_numbers(&doc), Vec::<usize>::new());
    assert_eq!(right_numbers(&doc), vec![1, 2]);
}

#[test]
fn context_rows_show_the_same_line() {
    let theme = ghostty_purple();
    let engine = Engine::new();
    let original = "one\ntwo\nthree\nfour\nfive\n";
    let modified = "zero\none\nTWO\nthree\nfive\nsix\n";
    let doc = DiffDoc::build(original, modified, "t.txt", &theme, &engine);
    let old_lines = split_lines(original);
    let new_lines = split_lines(modified);
    let mut context = 0;
    for row in &doc.rows {
        if let DiffRow::Both { left, right } = row {
            if left.kind == LineKind::Context {
                assert_eq!(right.kind, LineKind::Context);
                assert_eq!(old_lines[left.no - 1], new_lines[right.no - 1]);
                context += 1;
            }
        }
    }
    assert_eq!(context, 3);
}

// --- syntaxes -----------------------------------------------------------------------

#[test]
fn syntax_follows_extension_then_name_then_plain_text() {
    let engine = Engine::new();
    assert_eq!(syntax_for(&engine, "src/main.rs").name(), "Rust");
    assert_eq!(syntax_for(&engine, "a.py").name(), "Python");
    assert_eq!(syntax_for(&engine, "notes.unknownext").name(), "Plain Text");
    assert_eq!(syntax_for(&engine, "Makefile").name(), "Plain Text");
}

#[test]
fn default_syntax_names_are_unique() {
    let set = syntect::parsing::SyntaxSet::load_defaults_newlines();
    let mut names: Vec<&str> = set.syntaxes().iter().map(|s| s.name.as_str()).collect();
    let n = names.len();
    names.sort();
    names.dedup();
    assert_eq!(names.len(), n);
    assert!(names.contains(&"Plain Text"));
}

#[test]
fn comments_are_coloured_by_syntax() {
    let engine = Engine::new();
    let theme = ghostty_purple();
    let comment = theme.tokens.comment.color;
    assert_ne!(comment, theme.tokens.default.color);
    let hi = engine.highlight("a.rs", "// hi\nfn main() {}\n", &theme.tokens);
    assert!(hi[0].iter().any(|s| s.color == comment && s.text.contains("hi")));
    let hi = engine.highlight("a.unknownext", "// hi\n", &theme.tokens);
    assert!(hi[0].iter().all(|s| s.color == theme.tokens.default.color));
}

// --- git runs -----------------------------------------------------------------------

#[test]
fn git_run_outcomes() {
    let args = strings(&["commit", "-m", "x"]);
    assert_eq!(git_outcome(true, b"done \n", b"warn", &args), Ok("done".to_string()));
    assert_eq!(git_outcome(true, b"  ", b"", &args), Ok("".to_string()));
    assert_eq!(git_outcome(false, b"out", b"  fatal: no\n", &args), Err("fatal: no".to_string()));
    assert_eq!(git_outcome(false, b"out", b" \n", &args), Err("git commit -m x failed".to_string()));
    assert_eq!(git_outcome(false, b"", b"", &Vec::new()), Err("git  failed".to_string()));
}

#[test]
fn cells_are_marked_by_kind() {
    let t = ghostty_purple();
    assert_eq!(cell_background(Some(LineKind::Delete), &t), t.removed_line);
    assert_eq!(cell_background(Some(LineKind::Insert), &t), t.inserted_line);
    assert_eq!(cell_background(Some(LineKind::Context), &t), t.editor_bg);
    assert_eq!(cell_background(None, &t), t.editor_bg);
    let m = cell_marks(LineKind::Delete, &t);
    assert_eq!((m.stripe, m.prefix, m.prefix_color), (Some(t.status_deleted), "-", t.status_deleted));
    let m = cell_marks(LineKind::Insert, &t);
    assert_eq!((m.stripe, m.prefix, m.prefix_color), (Some(t.status_added), "+", t.status_added));
    let m = cell_marks(LineKind::Context, &t);
    assert_eq!((m.stripe, m.prefix, m.prefix_color), (None, " ", t.text_muted));
}

#[test]
fn catalog_lists_schemes_by_id() {
    let mut cat = Catalog::new();
    cat.insert("zeta".to_string(), bundled("Zeta", "#000"));
    cat.insert("alpha-light".to_string(), bundled("Alpha", "#fff"));
    cat.insert("mid-contrast".to_string(), bundled("Mid", "#000"));
    let ids: Vec<String> = cat.list().into_iter().map(|t| t.id).collect();
    assert_eq!(ids, strings(&["default", "github-dark", "alpha-light", "mid-contrast", "zeta"]));
}

#[test]
fn clicks_and_arrows_load_the_chosen_diff() {
    let mut s = session();
    s.files = vec![
        file("a", FileStatus::Modified, false),
        file("b", FileStatus::Added, true),
    ];
    let t0 = s.refresh_token;
    match s.click_file(1, false, false) {
        Some(Job::LoadDiff { path, staged, token, .. }) => {
            assert_eq!((path.as_str(), staged, token), ("b", true, t0 + 1))
        }
        _ => panic!("expected a diff load"),
    }
    assert_eq!(s.selected, Some(1));
    assert!(s.loading_diff);
    match s.key_up() {
        Some(Job::LoadDiff { path, token, .. }) => assert_eq!((path.as_str(), token), ("a", t0 + 2)),
        _ => panic!("expected a diff load"),
    }
    assert_eq!(s.selected, Some(0));
    match s.key_down() {
        Some(Job::LoadDiff { path, token, .. }) => assert_eq!((path.as_str(), token), ("b", t0 + 3)),
        _ => panic!("expected a diff load"),
    }
    assert_eq!(s.selected, Some(1));
    assert_eq!(s.refresh_token, t0 + 3);
    assert!(s.click_file(5, false, false).is_none());
    assert_eq!(s.selected, Some(1));
    assert_eq!(s.refresh_token, t0 + 3);
}

#[test]
fn asking_to_discard_changes_nothing_else() {
    let mut s = session();
    s.files = vec![file("a", FileStatus::Modified, false)];
    s.selected = Some(0);
    s.ask_discard(0);
    assert_eq!(s.pending_discard, Some(strings(&["a"])));
    assert_eq!(s.selected, Some(0));
    assert_eq!(s.files.len(), 1);
}

#[test]
fn equal_texts_give_only_context_rows() {
    let theme = ghostty_purple();
    let engine = Engine::new();
    for text in ["a\nb\nc\n", "x\ry\n", "", "one line"] {
        let doc = DiffDoc::build(text, text, "t.txt", &theme, &engine);
        for row in &doc.rows {
            match row {
                DiffRow::Both { left, right } => {
                    assert_eq!(left.kind, LineKind::Context);
                    assert_eq!(right.kind, LineKind::Context);
                }
                _ => panic!("expected context only"),
            }
        }
    }
}
