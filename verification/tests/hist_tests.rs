use fast::hist::{
    add_command, dirs_match, hist_action, load_all, load_hist, record_overflows, save_all, Entry, HistAction, Picker,
    HIST_INIT, MAX_PER_DIR,
};

fn e(dir: &str, count: usize, cmd: &str) -> Entry {
    Entry { dir: dir.to_string(), count, cmd: cmd.to_string() }
}

fn triples(es: &[Entry]) -> Vec<(String, usize, String)> {
    es.iter().map(|x| (x.dir.clone(), x.count, x.cmd.clone())).collect()
}

fn args(words: &[&str]) -> Vec<String> {
    words.iter().map(|w| w.to_string()).collect()
}

#[test]
fn load_parses_lines() {
    let text = "/home/u\t3\tls -la\n\n  /tmp \t 12 \t make all \r\nbad line\n/x\tNaN\tcmd\n/y\t1\t\n/z\t2\tcut -f1\t-d,\n";
    let es = load_all(text);
    assert_eq!(
        triples(&es),
        vec![
            ("/home/u".to_string(), 3, "ls -la".to_string()),
            ("/tmp".to_string(), 12, "make all".to_string()),
            ("/z".to_string(), 2, "cut -f1\t-d,".to_string()),
        ]
    );
    assert!(load_all("").is_empty());
}

#[test]
fn load_rejects_signs_and_overflow() {
    assert!(load_all("/a\t-1\tx\n").is_empty());
    assert_eq!(triples(&load_all("/a\t+4\tx\n")), vec![("/a".to_string(), 4, "x".to_string())]);
    assert!(load_all("/a\t99999999999999999999999\tx\n").is_empty());
    assert!(load_all("/a\t\tx\n").is_empty());
}

#[test]
fn save_format() {
    assert_eq!(save_all(&vec![]), "\n");
    let es = vec![e("/a", 1, "ls"), e("/b", 20, "cargo test")];
    assert_eq!(save_all(&es), "/a\t1\tls\n/b\t20\tcargo test\n");
}

#[test]
fn hist_save_then_load_round_trip() {
    let es = vec![e("/a", 1, "ls"), e("/b dir", 20, "echo\thi"), e("C:\\x", 7, "dir /w")];
    let back = load_all(&save_all(&es));
    assert_eq!(triples(&back), triples(&es));
}

#[test]
fn directory_comparison() {
    assert!(dirs_match("/home/u", "/home/u", false));
    assert!(!dirs_match("/home/U", "/home/u", false));
    assert!(dirs_match("C:\\Users\\Me", "c:\\users\\me", true));
    assert!(!dirs_match("C:\\Users\\Mé", "c:\\users\\mÉ", true));
    assert!(!dirs_match("/a", "/ab", true));
}

#[test]
fn history_of_a_directory_sorted() {
    let es = vec![e("/a", 1, "zz"), e("/b", 9, "other"), e("/a", 5, "make"), e("/a", 5, "cargo"), e("/a", 2, "ls")];
    assert_eq!(load_hist(&es, "/a", false), vec!["cargo", "make", "ls", "zz"]);
    assert_eq!(load_hist(&es, "/c", false), Vec::<String>::new());
    assert_eq!(load_hist(&es, "/B", true), vec!["other"]);
}

#[test]
fn add_increments_existing() {
    let mut es = vec![e("/a", 1, "ls"), e("/b", 1, "ls")];
    add_command(&mut es, "  ls  ", "/b", false);
    // the file stays sorted by count, most used first
    assert_eq!(triples(&es), vec![("/b".to_string(), 2, "ls".to_string()), ("/a".to_string(), 1, "ls".to_string())]);
}

#[test]
fn add_appends_new_and_ignores_blank() {
    let mut es = vec![e("/a", 1, "ls")];
    add_command(&mut es, "   ", "/a", false);
    assert_eq!(es.len(), 1);
    add_command(&mut es, "make", "/a", false);
    assert_eq!(triples(&es), vec![("/a".to_string(), 1, "ls".to_string()), ("/a".to_string(), 1, "make".to_string())]);
}

#[test]
fn add_case_insensitive_directory_on_windows() {
    let mut es = vec![e("C:\\Work", 4, "build")];
    add_command(&mut es, "build", "c:\\work", true);
    assert_eq!(triples(&es), vec![("C:\\Work".to_string(), 5, "build".to_string())]);
}

#[test]
fn add_drops_least_used_when_full() {
    let mut es: Vec<Entry> = Vec::new();
    for i in 0..MAX_PER_DIR {
        es.push(e("/a", 10 + i, &format!("cmd{}", i)));
    }
    es.insert(3, e("/other", 1, "x"));
    // two least-used candidates with equal counts: the first one leaves
    es[10].count = 2;
    es[20].count = 2;
    let dropped = es[10].cmd.clone();
    add_command(&mut es, "new", "/a", false);
    assert_eq!(es.len(), MAX_PER_DIR + 1);
    assert!(es.iter().all(|x| x.cmd != dropped));
    assert!(es.iter().any(|x| x.count == 2));
    let last = es.last().unwrap();
    assert_eq!((last.dir.as_str(), last.count, last.cmd.as_str()), ("/a", 1, "new"));
    let per_dir = es.iter().filter(|x| x.dir == "/a").count();
    assert_eq!(per_dir, MAX_PER_DIR);
}

#[test]
fn cap_holds_over_many_records() {
    let mut es: Vec<Entry> = Vec::new();
    for i in 0..120 {
        add_command(&mut es, &format!("c{}", i), "/d", false);
        let n = es.iter().filter(|x| x.dir == "/d").count();
        assert!(n <= MAX_PER_DIR);
    }
    assert_eq!(es.len(), MAX_PER_DIR);
}

#[test]
fn picker_filters_case_insensitively() {
    let mut p = Picker::new(vec!["Cargo build".to_string(), "ls".to_string(), "cargo test".to_string()]);
    assert_eq!(p.matches, vec![0, 1, 2]);
    assert_eq!(p.selected(), Some("Cargo build"));
    p.down();
    p.down();
    p.down();
    assert_eq!(p.cursor, 2);
    p.up();
    assert_eq!(p.selected(), Some("ls"));
    for c in "CAR".chars() {
        p.type_char(c);
    }
    assert_eq!(p.filter, "CAR");
    assert_eq!(p.matches, vec![0, 2]);
    assert_eq!(p.cursor, 0);
    p.type_char('x');
    assert!(p.matches.is_empty());
    assert_eq!(p.selected(), None);
    p.backspace();
    assert_eq!(p.matches, vec![0, 2]);
    p.down();
    assert_eq!(p.selected(), Some("cargo test"));
}

#[test]
fn hist_command_line_actions() {
    match hist_action(&args(&["--add", "git", "commit", "-m", "x y"])) {
        HistAction::Record { cmd } => assert_eq!(cmd, "git commit -m x y"),
        _ => panic!("expected a record"),
    }
    assert!(matches!(hist_action(&args(&["--add"])), HistAction::Ignore));
    assert!(matches!(hist_action(&args(&[])), HistAction::Pick));
    assert!(matches!(hist_action(&args(&["--init"])), HistAction::Init));
    assert!(matches!(hist_action(&args(&["--inits"])), HistAction::Pick));
}

#[test]
fn recording_keeps_file_sorted_by_count() {
    let mut es = vec![e("/d", 1, "a"), e("/d", 1, "b")];
    add_command(&mut es, "b", "/d", false);
    assert_eq!(triples(&es), vec![("/d".to_string(), 2, "b".to_string()), ("/d".to_string(), 1, "a".to_string())]);
    // a new command goes after the others of equal count
    add_command(&mut es, "c", "/e", false);
    assert_eq!(
        triples(&es),
        vec![
            ("/d".to_string(), 2, "b".to_string()),
            ("/d".to_string(), 1, "a".to_string()),
            ("/e".to_string(), 1, "c".to_string()),
        ]
    );
    // an unsorted file is sorted by the next recording, equal counts kept in order
    let mut es = vec![e("/d", 1, "x"), e("/d", 3, "y"), e("/f", 1, "z"), e("/d", 2, "w")];
    add_command(&mut es, "x", "/d", false);
    assert_eq!(es.iter().map(|x| x.cmd.as_str()).collect::<Vec<_>>(), vec!["y", "x", "w", "z"]);
    let counts: Vec<usize> = es.iter().map(|x| x.count).collect();
    assert!(counts.windows(2).all(|w| w[0] >= w[1]));
}

#[test]
fn recording_counts_per_directory() {
    // k entries and a new command: min(k + 1, 50) afterwards
    for k in [0usize, 1, 49, 50] {
        let mut es: Vec<Entry> = (0..k).map(|i| e("/d", 5, &format!("c{}", i))).collect();
        es.push(e("/other", 9, "x"));
        add_command(&mut es, "new", "/d", false);
        let n = es.iter().filter(|x| x.dir == "/d").count();
        assert_eq!(n, std::cmp::min(k + 1, MAX_PER_DIR));
        assert_eq!(es.len(), std::cmp::min(k + 1, MAX_PER_DIR) + 1);
    }
    // a known command keeps the number
    let mut es = vec![e("/d", 1, "a"), e("/d", 1, "b")];
    add_command(&mut es, "a", "/d", false);
    assert_eq!(es.len(), 2);
}

#[test]
fn recording_overflow_check() {
    let es = vec![e("/d", usize::MAX, "a"), e("/d", 3, "b"), e("/D", usize::MAX, "b")];
    assert!(record_overflows(&es, " a ", "/d", false));
    assert!(!record_overflows(&es, "b", "/d", false));
    assert!(!record_overflows(&es, "c", "/d", false));
    assert!(!record_overflows(&es, "   ", "/d", false));
    // on Windows "/D" matches "/d", but the first matching entry for "b" is the count-3 one
    assert!(!record_overflows(&es, "b", "/d", true));
}

#[test]
fn hist_init_text() {
    assert!(HIST_INIT.contains("fast hist --add"));
    assert!(HIST_INIT.ends_with('\n'));
}
