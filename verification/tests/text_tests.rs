use fast::sort::{lex_less, push_codes, stable_sort_order};
use fast::text::{
    chars_of, contains_chars, decimal_string, find_char, join_words, lower_contains, parse_usize, popped, pushed,
    split_lines, string_of, to_lowercase, trim_str,
};

fn cv(s: &str) -> Vec<char> {
    s.chars().collect()
}

fn lines_of(s: &str) -> Vec<String> {
    split_lines(&cv(s)).iter().map(|l| l.iter().collect()).collect()
}

#[test]
fn chars_and_strings() {
    assert_eq!(chars_of("héllo"), vec!['h', 'é', 'l', 'l', 'o']);
    assert_eq!(string_of(&['a', 'ü']), "aü");
    assert_eq!(pushed(&"ab".to_string(), 'c'), "abc");
    assert_eq!(popped(&"abc".to_string()), "ab");
    assert_eq!(popped(&String::new()), "");
}

#[test]
fn trimming_matches_std() {
    for s in ["", "  ", " a ", "\t x y \r\n", "\u{3000}wide\u{a0}", "no"] {
        assert_eq!(trim_str(s), s.trim(), "{:?}", s);
    }
}

#[test]
fn lines_match_std() {
    for s in ["", "a", "a\n", "a\nb", "a\r\nb\r\n", "\n\n", "x\r", "a\rb\n", "\r\n"] {
        let expected: Vec<String> = s.lines().map(|l| l.to_string()).collect();
        assert_eq!(lines_of(s), expected, "{:?}", s);
    }
}

#[test]
fn integer_parsing_matches_std() {
    for s in ["0", "42", "+7", "-1", "", "+", "1a", " 1", "007", "18446744073709551615", "18446744073709551616"] {
        assert_eq!(parse_usize(&cv(s)), s.parse::<usize>().ok(), "{:?}", s);
    }
}

#[test]
fn decimal_text() {
    assert_eq!(decimal_string(0), "0");
    assert_eq!(decimal_string(1234567890), "1234567890");
    assert_eq!(decimal_string(u64::MAX), u64::MAX.to_string());
}

#[test]
fn searching() {
    assert_eq!(find_char(&cv("a\tb\tc"), 0, '\t'), Some(1));
    assert_eq!(find_char(&cv("a\tb\tc"), 2, '\t'), Some(3));
    assert_eq!(find_char(&cv("abc"), 0, '\t'), None);
    assert!(contains_chars(&cv("cargo build"), &cv("go b")));
    assert!(contains_chars(&cv("x"), &cv("")));
    assert!(!contains_chars(&cv("ab"), &cv("abc")));
    assert!(lower_contains("Cargo BUILD", &cv("build")));
    assert!(!lower_contains("Cargo", &cv("B")));
    assert_eq!(to_lowercase("ÀB"), "àb");
}

#[test]
fn joining_words() {
    let args: Vec<String> = ["add", "gs", "git", "status"].iter().map(|s| s.to_string()).collect();
    assert_eq!(join_words(&args, 2), "git status");
    assert_eq!(join_words(&args, 4), "");
    assert_eq!(join_words(&args, 0), "add gs git status");
}

#[test]
fn lexicographic_order() {
    assert!(lex_less(&[1, 2], &[1, 3]));
    assert!(lex_less(&[1], &[1, 0]));
    assert!(!lex_less(&[1, 0], &[1]));
    assert!(!lex_less(&[2], &[2]));
    let mut key = vec![9];
    push_codes(&mut key, &['a', 'é']);
    assert_eq!(key, vec![9, 97, 233]);
}

#[test]
fn stable_order_of_keys() {
    let keys = vec![vec![2], vec![1, 5], vec![2], vec![1], vec![0, 9]];
    assert_eq!(stable_sort_order(&keys), vec![4, 3, 1, 0, 2]);
    assert_eq!(stable_sort_order(&vec![]), Vec::<usize>::new());
}
