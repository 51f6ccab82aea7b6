use warnalyzer::order::Precedence;
use warnalyzer::text::chars_of;
use warnalyzer::text::contains;
use warnalyzer::text::decimal_string;
use warnalyzer::text::order_text;
use warnalyzer::text::same_text;
use warnalyzer::text::starts_with;

fn std_order(a: &str, b: &str) -> Precedence {
    if a < b {
        Precedence::Before
    } else if a == b {
        Precedence::Same
    } else {
        Precedence::After
    }
}

#[test]
fn decimal_string_writes_numerals() {
    assert_eq!(decimal_string(0), "0");
    assert_eq!(decimal_string(7), "7");
    assert_eq!(decimal_string(10), "10");
    assert_eq!(decimal_string(4294967295), "4294967295");
    assert_eq!(decimal_string(u64::MAX), "18446744073709551615");
}

#[test]
fn decimal_string_agrees_with_display() {
    let samples: Vec<u64> = vec![0, 1, 9, 10, 11, 99, 100, 101, 12345, 1 << 32, u64::MAX - 1];
    for n in samples {
        assert_eq!(decimal_string(n), format!("{}", n));
    }
}

#[test]
fn chars_of_gives_every_character() {
    assert_eq!(chars_of(""), Vec::<char>::new());
    assert_eq!(chars_of("a_b"), vec!['a', '_', 'b']);
    assert_eq!(chars_of("é∑"), vec!['é', '∑']);
}

#[test]
fn order_text_is_lexicographic() {
    assert_eq!(order_text("", ""), Precedence::Same);
    assert_eq!(order_text("", "a"), Precedence::Before);
    assert_eq!(order_text("a", ""), Precedence::After);
    assert_eq!(order_text("abc", "abd"), Precedence::Before);
    assert_eq!(order_text("abd", "abc"), Precedence::After);
    assert_eq!(order_text("ab", "abc"), Precedence::Before);
    assert_eq!(order_text("Function", "Function"), Precedence::Same);
    assert_eq!(order_text("Z", "a"), Precedence::Before);
}

#[test]
fn order_text_agrees_with_the_order_of_strings() {
    let samples = vec!["", "a", "ab", "abc", "b", "B", "é", "z", "∑", "😀", "a😀", "aé", "_x", "Local"];
    for a in samples.iter() {
        for b in samples.iter() {
            assert_eq!(order_text(a, b), std_order(a, b), "{:?} against {:?}", a, b);
        }
    }
}

#[test]
fn same_text_tells_equal_texts() {
    assert!(same_text("Local", "Local"));
    assert!(same_text("", ""));
    assert!(!same_text("Local", "Locals"));
    assert!(!same_text("local", "Local"));
}

#[test]
fn starts_with_finds_a_prefix() {
    assert!(starts_with("_tmp", "_"));
    assert!(starts_with("_", "_"));
    assert!(starts_with("abc", ""));
    assert!(!starts_with("tmp_", "_"));
    assert!(!starts_with("", "_"));
    assert!(!starts_with("a", "ab"));
}

#[test]
fn contains_finds_a_substring() {
    assert!(contains("/home/u/.cargo/git/checkouts/x", ".cargo/git/"));
    assert!(contains("abc", ""));
    assert!(contains("", ""));
    assert!(contains("abc", "abc"));
    assert!(contains("xabc", "abc"));
    assert!(contains("abcx", "abc"));
    assert!(!contains("ab", "abc"));
    assert!(!contains("", "a"));
    assert!(!contains("/home/u/.cargo/gi/t", ".cargo/git/"));
}

#[test]
fn contains_agrees_with_the_search_of_strings() {
    let hays = vec!["", "a", "aa", "aab", "abab", "baba", "ééa", "xyz"];
    let needles = vec!["", "a", "ab", "ba", "aab", "é", "éa", "z", "zz"];
    for h in hays.iter() {
        for n in needles.iter() {
            assert_eq!(contains(h, n), h.contains(n), "{:?} in {:?}", n, h);
        }
    }
}
