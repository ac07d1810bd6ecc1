use std::path::Path;
use fast::fastcd::format::{fmt_permissions, fmt_readonly_permissions, fmt_size, format_modified};
use fast::fastcd::path::{file_name, join_path, parent_path};
use fast::fastcd::state::{PreviewContent, NORMAL_STATUS, PREVIEW_STATUS, too_large};
use fast::fastcd::{entry_label, make_entry, sort_entries, vscroll, AppState, DirEntry, Target};

fn entry(name: &str, is_dir: bool) -> DirEntry {
    DirEntry { name: name.to_string(), is_dir, size: String::new(), permission: "rwxr-xr-x".to_string() }
}

fn float_size(bytes: u64) -> String {
    if bytes < 1024 {
        format!("{} B", bytes)
    } else if bytes < 1024 * 1024 {
        format!("{:.1} KB", bytes as f64 / 1024.0)
    } else if bytes < 1024 * 1024 * 1024 {
        format!("{:.1} MB", bytes as f64 / (1024.0 * 1024.0))
    } else {
        format!("{:.1} GB", bytes as f64 / (1024.0 * 1024.0 * 1024.0))
    }
}

#[test]
fn fmt_size_small_values() {
    assert_eq!(fmt_size(0), "0 B");
    assert_eq!(fmt_size(1), "1 B");
    assert_eq!(fmt_size(1023), "1023 B");
}

#[test]
fn fmt_size_units() {
    assert_eq!(fmt_size(1024), "1.0 KB");
    assert_eq!(fmt_size(1536), "1.5 KB");
    assert_eq!(fmt_size(1024 * 1024), "1.0 MB");
    assert_eq!(fmt_size(5 * 1024 * 1024 * 1024), "5.0 GB");
    assert_eq!(fmt_size(1024 * 1024 - 1), "1024.0 KB");
}

#[test]
fn fmt_size_ties_round_to_even() {
    // 1280 / 1024 = 1.25 exactly: the tie goes to the even digit
    assert_eq!(fmt_size(1280), "1.2 KB");
    assert_eq!(fmt_size(1280), format!("{:.1} KB", 1280f64 / 1024.0));
    // 1.75 KB rounds up to the even digit 8
    assert_eq!(fmt_size(1792), "1.8 KB");
    assert_eq!(fmt_size(1024 * 1024 * 5 / 4), "1.2 MB");
    assert_eq!(fmt_size(1024 * 1024 * 1024 / 4 * 5), "1.2 GB");
    assert_eq!(fmt_size(1024 * 1024 * 1024 / 4 * 7), "1.8 GB");
}

#[test]
fn fmt_size_agrees_with_float_formatting() {
    let mut samples: Vec<u64> = vec![
        1024, 1075, 1126, 1127, 1177, 1178, 10_000, 99_999, 123_456, 1_048_575, 1_048_576, 1_100_000,
        52_428_800, 1_073_741_823, 1_073_741_824, 1_181_116_006, 1_234_567_890_123, u64::MAX,
        u64::MAX - 1, 1 << 53, (1 << 53) + 1, 9_007_199_254_740_993,
    ];
    // ties of the rounding at one decimal: x.x5 in each unit
    for k in 0..200u64 {
        samples.push(1024 * k + 51);
        samples.push(1024 * k + 52);
        samples.push(1024 * 1024 * k + 1024 * 1024 / 20);
        samples.push(1024 * 1024 * 1024 * k + 1024 * 1024 * 1024 / 20);
        samples.push(1024 * k * 5 + 512);
        samples.push(k * 7919 + 1024);
    }
    let mut x: u64 = 0x2545F4914F6CDD1D;
    for _ in 0..5000 {
        x ^= x << 13;
        x ^= x >> 7;
        x ^= x << 17;
        samples.push(x >> (x % 64));
    }
    for b in samples {
        assert_eq!(fmt_size(b), float_size(b), "size {}", b);
    }
}

#[test]
fn fmt_permissions_bits() {
    assert_eq!(fmt_permissions(0o755), "rwxr-xr-x");
    assert_eq!(fmt_permissions(0o644), "rw-r--r--");
    assert_eq!(fmt_permissions(0o100600), "rw-------");
    assert_eq!(fmt_permissions(0), "---------");
    assert_eq!(fmt_permissions(0o777), "rwxrwxrwx");
}

#[test]
fn fmt_readonly_permissions_both() {
    assert_eq!(fmt_readonly_permissions(true), "r--------");
    assert_eq!(fmt_readonly_permissions(false), "rw-rw-rw-");
}

#[test]
fn format_modified_values() {
    assert_eq!(format_modified(0), "1970-01-01 00:00");
    // one day, one hour and one minute
    assert_eq!(format_modified(86400 + 3600 + 60), "1970-01-02 01:01");
    // day 364 of the first 365-day block: month 13, day 5
    assert_eq!(format_modified(364 * 86400), "1970-13-05 00:00");
    assert_eq!(format_modified(365 * 86400 + 23 * 3600 + 59 * 60 + 59), "1971-01-01 23:59");
    let s: u64 = 1_700_000_000;
    let (mins, hours, days) = ((s % 3600) / 60, (s % 86400) / 3600, s / 86400);
    let (year, doy) = (1970 + days / 365, days % 365);
    let expected = format!("{}-{:02}-{:02} {:02}:{:02}", year, doy / 30 + 1, doy % 30 + 1, hours, mins);
    assert_eq!(format_modified(s), expected);
}

#[test]
fn paths_join_and_split() {
    assert_eq!(join_path("/home/u", "docs", false), "/home/u/docs");
    assert_eq!(join_path("/home/u/", "docs", false), "/home/u/docs");
    assert_eq!(join_path("/", "etc", false), "/etc");
    assert_eq!(join_path("/home/u", "/etc", false), "/etc");
    assert_eq!(join_path("/home/u", "", false), "/home/u/");
    assert_eq!(parent_path("/home/u/docs", false), Some("/home/u".to_string()));
    assert_eq!(parent_path("/home", false), Some("/".to_string()));
    assert_eq!(parent_path("/", false), None);
    assert_eq!(parent_path("docs", false), Some("".to_string()));
    assert_eq!(file_name("/home/u/docs", false), Some("docs".to_string()));
    assert_eq!(file_name("/home/u/docs/", false), Some("docs".to_string()));
    assert_eq!(file_name("/", false), None);
}

#[test]
fn unix_paths_match_std() {
    let cases = [
        "", "/", "//", "a", "a/", "/a", "/a/", "/a/b", "/a//b/", "a/b/c", ".", "./", "./a", "/.", "/./", "/a/.", "/a/./",
        "/a/./b", "a/./b/c", "a/..", "/a/../b", "..", "../a", "...", "a/.../", "/a/b/./.", "a//./b", "a/.b", ".a",
    ];
    for c in cases {
        let p = Path::new(c);
        assert_eq!(parent_path(c, false), p.parent().map(|q| q.to_string_lossy().to_string()), "parent of {:?}", c);
        assert_eq!(file_name(c, false), p.file_name().map(|q| q.to_string_lossy().to_string()), "file name of {:?}", c);
        for n in ["x", "/y", "", ".", "x/y"] {
            assert_eq!(join_path(c, n, false), p.join(n).to_string_lossy().to_string(), "{:?} joined with {:?}", c, n);
        }
    }
}

#[test]
fn windows_paths() {
    assert_eq!(join_path("C:\\Users", "me", true), "C:\\Users\\me");
    assert_eq!(join_path("C:\\Users\\", "me", true), "C:\\Users\\me");
    assert_eq!(join_path("C:/a", "b", true), "C:/a\\b");
    assert_eq!(join_path("C:", "x", true), "C:x");
    assert_eq!(join_path("C:\\a", "D:\\b", true), "D:\\b");
    assert_eq!(join_path("C:\\a", "\\b", true), "C:\\b");
    assert_eq!(parent_path("C:\\Users\\me", true), Some("C:\\Users".to_string()));
    assert_eq!(parent_path("C:\\Users", true), Some("C:\\".to_string()));
    assert_eq!(parent_path("C:/Users/me/", true), Some("C:/Users".to_string()));
    assert_eq!(parent_path("C:\\", true), None);
    assert_eq!(parent_path("C:", true), None);
    assert_eq!(parent_path("C:x", true), Some("C:".to_string()));
    assert_eq!(file_name("C:\\Users\\me\\", true), Some("me".to_string()));
    assert_eq!(file_name("C:\\", true), None);
    assert_eq!(file_name("C:x", true), Some("x".to_string()));
    // without the Windows flag a backslash is an ordinary character
    assert_eq!(parent_path("C:\\Users", false), Some("".to_string()));
}

#[test]
fn windows_browser_paths() {
    let mut app = AppState::new("C:\\Users".to_string(), true);
    app.supply(vec![entry("me", true)]);
    assert_eq!(pending_of(&app), Some(("C:\\Users\\me".to_string(), 1, None, false)));
    app.supply(vec![]);
    app.on_left();
    assert_eq!(app.current_dir, "C:\\");
    assert_eq!(pending_of(&app), Some(("C:\\".to_string(), 0, Some("Users".to_string()), true)));
    app.supply(vec![entry("Users", true)]);
    app.supply(vec![]);
    app.on_left();
    assert_eq!(app.current_dir, "C:\\");
    assert!(app.pending.is_none());
}

#[test]
fn make_entry_sizes() {
    let d = make_entry("src".to_string(), true, 4096, "rwxr-xr-x".to_string());
    assert_eq!(d.size, "");
    assert!(d.is_dir);
    let f = make_entry("a.txt".to_string(), false, 2048, "rw-r--r--".to_string());
    assert_eq!(f.size, "2.0 KB");
    assert_eq!(f.name, "a.txt");
    assert_eq!(f.permission, "rw-r--r--");
}

#[test]
fn sort_entries_dirs_first_case_insensitive() {
    let es = vec![entry("b.txt", false), entry("Zeta", true), entry("A.txt", false), entry("alpha", true), entry("a.txt", false)];
    let sorted = sort_entries(es);
    let names: Vec<&str> = sorted.iter().map(|e| e.name.as_str()).collect();
    // stable: "A.txt" stays before "a.txt"
    assert_eq!(names, vec!["alpha", "Zeta", "A.txt", "a.txt", "b.txt"]);
}

#[test]
fn labels_and_scroll() {
    assert_eq!(entry_label(&entry("docs", true)), "▶ docs");
    assert_eq!(entry_label(&entry("a.txt", false)), "  a.txt");
    assert_eq!(vscroll(0, 10), 0);
    assert_eq!(vscroll(9, 10), 0);
    assert_eq!(vscroll(15, 10), 6);
    assert_eq!(vscroll(5, 0), 5);
    assert_eq!(vscroll(5, 1), 5);
}

#[test]
fn preview_limit() {
    assert!(!too_large(1_048_576));
    assert!(too_large(1_048_577));
}

fn pending_of(app: &AppState) -> Option<(String, u8, Option<String>, bool)> {
    app.pending.as_ref().map(|f| match &f.target {
        Target::Col0 { select, follow } => (f.path.clone(), 0, select.clone(), *follow),
        Target::Col1 => (f.path.clone(), 1, None, false),
        Target::Col2 => (f.path.clone(), 2, None, false),
    })
}

#[test]
fn start_and_supply_protocol() {
    let mut app = AppState::new("/home/u".to_string(), false);
    assert_eq!(app.status, NORMAL_STATUS);
    assert_eq!(pending_of(&app), Some(("/home/u".to_string(), 0, None, true)));
    app.supply(vec![entry("docs", true), entry("notes.txt", false)]);
    assert_eq!(app.selected, [0, 0, 0]);
    assert_eq!(pending_of(&app), Some(("/home/u/docs".to_string(), 1, None, false)));
    app.supply(vec![entry("work", true)]);
    assert_eq!(pending_of(&app), Some(("/home/u/docs/work".to_string(), 2, None, false)));
    app.supply(vec![entry("x", false)]);
    assert!(app.pending.is_none());
    assert_eq!(app.entries[0].len(), 2);
    assert_eq!(app.entries[1].len(), 1);
    assert_eq!(app.entries[2].len(), 1);
}

#[test]
fn file_row_requests_nothing_further() {
    let mut app = AppState::new("/tmp".to_string(), false);
    app.supply(vec![entry("a.txt", false)]);
    assert!(app.pending.is_none());
    assert!(app.entries[1].is_empty());
}

fn filled_app() -> AppState {
    let mut app = AppState::new("/home/u".to_string(), false);
    app.supply(vec![entry("docs", true), entry("music", true), entry("notes.txt", false)]);
    app.supply(vec![entry("work", true), entry("play", true)]);
    app.supply(vec![entry("deep", true), entry("file.rs", false)]);
    assert!(app.pending.is_none());
    app
}

#[test]
fn moving_down_refills_columns() {
    let mut app = filled_app();
    app.on_down();
    assert_eq!(app.selected[0], 1);
    assert!(app.entries[1].is_empty());
    assert_eq!(pending_of(&app), Some(("/home/u/music".to_string(), 1, None, false)));
    app.supply(vec![]);
    assert!(app.pending.is_none());
    app.on_up();
    assert_eq!(app.selected[0], 0);
    assert_eq!(pending_of(&app), Some(("/home/u/docs".to_string(), 1, None, false)));
}

#[test]
fn focus_right_and_enter_directory() {
    let mut app = filled_app();
    app.on_right();
    assert_eq!(app.focus_col, 1);
    app.on_right();
    assert_eq!(app.focus_col, 2);
    app.on_right();
    assert_eq!(app.current_dir, "/home/u/docs/work/deep");
    assert_eq!(app.focus_col, 0);
    assert_eq!(app.status, "→ /home/u/docs/work/deep");
    assert_eq!(pending_of(&app), Some(("/home/u/docs/work/deep".to_string(), 0, None, true)));
}

#[test]
fn focus_right_on_file_does_nothing() {
    let mut app = filled_app();
    app.focus_col = 2;
    app.selected[2] = 1;
    app.on_right();
    assert_eq!(app.current_dir, "/home/u");
    assert_eq!(app.focus_col, 2);
}

#[test]
fn navigate_left_goes_to_parent_and_highlights_child() {
    let mut app = filled_app();
    app.on_left();
    assert_eq!(app.current_dir, "/home");
    assert_eq!(app.status, "← /home");
    assert_eq!(pending_of(&app), Some(("/home".to_string(), 0, Some("u".to_string()), true)));
    app.supply(vec![entry("a", true), entry("u", true)]);
    assert_eq!(app.selected[0], 1);
    assert_eq!(pending_of(&app), Some(("/home/u".to_string(), 1, None, false)));
}

#[test]
fn navigate_left_at_root_stays() {
    let mut app = AppState::new("/".to_string(), false);
    app.supply(vec![]);
    app.on_left();
    assert_eq!(app.current_dir, "/");
    assert!(app.pending.is_none());
}

#[test]
fn exit_paths_by_focus() {
    let mut app = filled_app();
    assert_eq!(app.exit_path(), "/home/u/docs");
    app.focus_col = 1;
    assert_eq!(app.exit_path(), "/home/u/docs/work");
    app.focus_col = 2;
    assert_eq!(app.exit_path(), "/home/u/docs/work/deep");
    app.selected[2] = 1;
    assert_eq!(app.exit_path(), "/home/u/docs/work");
    app.focus_col = 0;
    app.selected[0] = 2;
    assert_eq!(app.exit_path(), "/home/u");
}

#[test]
fn preview_protocol() {
    let mut app = filled_app();
    app.focus_col = 1;
    let target = app.preview_target().unwrap();
    assert_eq!(target, "/home/u/docs/work");
    app.enter_preview(target, PreviewContent::Text("line one\r\nline two\n".to_string()));
    assert!(app.preview_mode);
    assert_eq!(app.preview_lines, vec!["line one".to_string(), "line two".to_string()]);
    assert_eq!(app.preview_file, "work");
    assert_eq!(app.current_dir, "/home/u/docs");
    assert_eq!(app.status, PREVIEW_STATUS);
    assert_eq!(pending_of(&app), Some(("/home/u/docs".to_string(), 0, Some("work".to_string()), false)));
    app.supply(vec![entry("play", true), entry("work", true)]);
    assert_eq!(app.selected[0], 1);
    assert!(app.pending.is_none());
    app.on_down();
    assert_eq!(app.preview_scroll, 1);
    app.on_down();
    assert_eq!(app.preview_scroll, 1);
    app.on_up();
    assert_eq!(app.preview_scroll, 0);
    app.on_left();
    assert!(!app.preview_mode);
    assert_eq!(app.status, NORMAL_STATUS);
    assert_eq!(pending_of(&app), Some(("/home/u/docs/work".to_string(), 1, None, false)));
}

#[test]
fn preview_contents() {
    let mut app = filled_app();
    app.enter_preview("/home/u/big.bin".to_string(), PreviewContent::TooLarge(2_000_000));
    assert_eq!(app.preview_lines, vec!["[file too large: 2000000 bytes]".to_string()]);
    app.enter_preview("/home/u/x".to_string(), PreviewContent::Unreadable);
    assert_eq!(app.preview_lines, vec!["[binary or unreadable file]".to_string()]);
    app.enter_preview("/home/u/docs".to_string(), PreviewContent::Listing(vec![entry("a", true), entry("b", false)]));
    assert_eq!(app.preview_lines, vec!["▶ a".to_string(), "  b".to_string()]);
}

#[test]
fn mouse_scrolling() {
    let mut app = filled_app();
    let lines: Vec<String> = (0..10).map(|i| i.to_string()).collect();
    app.preview_mode = true;
    app.preview_lines = lines;
    app.on_scroll_down();
    assert_eq!(app.preview_scroll, 3);
    app.on_scroll_down();
    app.on_scroll_down();
    assert_eq!(app.preview_scroll, 9);
    app.on_scroll_down();
    assert_eq!(app.preview_scroll, 9);
    app.on_scroll_up();
    assert_eq!(app.preview_scroll, 6);
    app.preview_scroll = 1;
    app.on_scroll_up();
    assert_eq!(app.preview_scroll, 0);
    app.preview_mode = false;
    app.on_scroll_down();
    assert_eq!(app.preview_scroll, 0);
}

#[test]
fn reset_goes_back_to_start() {
    let mut app = filled_app();
    app.on_right();
    app.on_right();
    app.on_right();
    app.reset();
    assert_eq!(app.current_dir, "/home/u");
    assert_eq!(app.status, "reset → /home/u");
    assert_eq!(pending_of(&app), Some(("/home/u".to_string(), 0, None, true)));
}

#[test]
fn meta_line_of_highlight() {
    let mut app = AppState::new("/home/u".to_string(), false);
    let mut f = entry("notes.txt", false);
    f.size = "1.5 KB".to_string();
    f.permission = "rw-r--r--".to_string();
    app.supply(vec![f]);
    assert_eq!(app.meta_path(), Some("/home/u/notes.txt".to_string()));
    assert_eq!(app.meta_line("2024-01-02 03:04"), "  rw-r--r--  │  1.5 KB  │  2024-01-02 03:04  │  notes.txt");
    let empty = AppState::new("/x".to_string(), false);
    assert_eq!(empty.meta_path(), None);
    assert_eq!(empty.meta_line("?"), "");
}
