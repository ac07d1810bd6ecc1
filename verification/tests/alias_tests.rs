use fast::alias::{alias_action, alias_row, is_word, AliasAction, Aliases, Picker, ALIAS_INIT};

fn args(words: &[&str]) -> Vec<String> {
    words.iter().map(|w| w.to_string()).collect()
}

fn pair(a: &str, b: &str) -> (String, String) {
    (a.to_string(), b.to_string())
}

#[test]
fn load_alias_text() {
    let a = Aliases::load("gs\tgit status\n  ll \t ls -la \nbroken\n\tnoname\nempty\t  \nx\tfirst\nx\tsecond\r\n");
    assert_eq!(a.len(), 3);
    assert_eq!(a.get("gs"), Some("git status".to_string()));
    assert_eq!(a.get("ll"), Some("ls -la".to_string()));
    assert_eq!(a.get("x"), Some("second".to_string()));
    assert_eq!(a.get("broken"), None);
    assert_eq!(a.get("empty"), None);
    assert!(Aliases::load("").is_empty());
}

#[test]
fn command_keeps_later_tabs() {
    let a = Aliases::load("t\tcut -f1\t-d,\n");
    assert_eq!(a.get("t"), Some("cut -f1\t-d,".to_string()));
}

#[test]
fn save_sorted_lines() {
    let mut a = Aliases::new();
    assert_eq!(a.save(), "\n");
    a.insert("zz".to_string(), "echo z".to_string());
    a.insert("ab".to_string(), "echo a".to_string());
    a.insert("Ab".to_string(), "echo A".to_string());
    assert_eq!(a.save(), "Ab\techo A\nab\techo a\nzz\techo z\n");
}

#[test]
fn alias_save_then_load_round_trip() {
    let mut a = Aliases::new();
    a.insert("gs".to_string(), "git status".to_string());
    a.insert("b".to_string(), "cargo build --release".to_string());
    let back = Aliases::load(&a.save());
    assert_eq!(back.sorted(), a.sorted());
}

#[test]
fn add_then_run_gives_the_command() {
    let mut a = Aliases::load("gs\tgit status\n");
    a.insert("gs".to_string(), "git status -sb".to_string());
    a.insert("new".to_string(), "make".to_string());
    let back = Aliases::load(&a.save());
    assert_eq!(back.get("gs"), Some("git status -sb".to_string()));
    assert_eq!(back.get("new"), Some("make".to_string()));
    assert_eq!(back.len(), 2);
}

#[test]
fn remove_alias() {
    let mut a = Aliases::load("a\t1\nb\t2\n");
    assert!(a.remove("a"));
    assert!(!a.remove("a"));
    assert_eq!(a.get("a"), None);
    assert_eq!(a.sorted(), vec![pair("b", "2")]);
}

#[test]
fn listing_rows() {
    assert_eq!(alias_row("gs", "git status"), format!("{:<20}  {}", "gs", "git status"));
    let long = "a_very_long_alias_name_here";
    assert_eq!(alias_row(long, "x"), format!("{:<20}  {}", long, "x"));
    assert_eq!(alias_row("é", "ü"), format!("{:<20}  {}", "é", "ü"));
}

#[test]
fn words() {
    assert!(is_word(&"add".to_string(), "add"));
    assert!(!is_word(&"adds".to_string(), "add"));
}

#[test]
fn alias_command_line_actions() {
    match alias_action(&args(&["add", "gs", "git", "status"])) {
        AliasAction::Add { name, cmd } => {
            assert_eq!(name, "gs");
            assert_eq!(cmd, "git status");
        }
        _ => panic!("expected add"),
    }
    assert!(matches!(alias_action(&args(&["add", "gs"])), AliasAction::AddUsage));
    assert!(matches!(alias_action(&args(&["add", "g\ts", "x"])), AliasAction::BadName));
    assert!(matches!(alias_action(&args(&["add", "gs", "a\nb"])), AliasAction::BadCommand));
    assert!(matches!(alias_action(&args(&["add", "gs", "a\0b"])), AliasAction::BadCommand));
    match alias_action(&args(&["rm", "gs"])) {
        AliasAction::Remove { name } => assert_eq!(name, "gs"),
        _ => panic!("expected rm"),
    }
    assert!(matches!(alias_action(&args(&["rm"])), AliasAction::RemoveUsage));
    assert!(matches!(alias_action(&args(&["list", "extra"])), AliasAction::List));
    match alias_action(&args(&["run", "gs"])) {
        AliasAction::Run { name } => assert_eq!(name, "gs"),
        _ => panic!("expected run"),
    }
    assert!(matches!(alias_action(&args(&["run"])), AliasAction::RunUsage));
    assert!(matches!(alias_action(&args(&[])), AliasAction::Pick));
    assert!(matches!(alias_action(&args(&["--init"])), AliasAction::Init));
    assert!(matches!(alias_action(&args(&["--init", "bash"])), AliasAction::Init));
    assert!(matches!(alias_action(&args(&["init"])), AliasAction::Pick));
}

#[test]
fn picker_sorts_and_filters() {
    let mut p = Picker::new(vec![pair("zz", "echo Z"), pair("gs", "git status"), pair("ab", "GIT add")]);
    assert_eq!(p.all, vec![pair("ab", "GIT add"), pair("gs", "git status"), pair("zz", "echo Z")]);
    assert_eq!(p.matches, vec![0, 1, 2]);
    assert_eq!(p.selected_cmd(), Some("GIT add"));
    p.type_char('g');
    p.type_char('I');
    assert_eq!(p.matches, vec![0, 1]);
    p.down();
    assert_eq!(p.selected_cmd(), Some("git status"));
    p.down();
    assert_eq!(p.cursor, 1);
    p.type_char('q');
    assert_eq!(p.selected_cmd(), None);
    p.backspace();
    p.backspace();
    p.backspace();
    assert_eq!(p.filter, "");
    assert_eq!(p.matches, vec![0, 1, 2]);
    p.up();
    assert_eq!(p.cursor, 0);
    p.type_char('Z');
    assert_eq!(p.matches, vec![2]);
}

#[test]
fn alias_init_text() {
    assert!(ALIAS_INIT.contains("f() {"));
    assert!(ALIAS_INIT.contains("fast alias run"));
    assert!(ALIAS_INIT.ends_with('\n'));
}
