use jadegate::text::{
    begins_with, chars_of, count_occurrences, decimal_text, finishes_with, has_occurrence,
    matches_at, same_text,
};

fn chars(s: &str) -> Vec<char> {
    s.chars().collect()
}

#[test]
fn decimal_of_small_and_large_numbers() {
    assert_eq!(decimal_text(0), "0");
    assert_eq!(decimal_text(7), "7");
    assert_eq!(decimal_text(10), "10");
    assert_eq!(decimal_text(300_001), "300001");
    assert_eq!(decimal_text(u64::MAX), "18446744073709551615");
}

#[test]
fn characters_are_unicode_scalars() {
    assert_eq!(chars_of("aé✓"), vec!['a', 'é', '✓']);
    assert_eq!(chars_of(""), Vec::<char>::new());
}

#[test]
fn occurrences_overlap() {
    assert_eq!(count_occurrences(&chars("aaaa"), &chars("aa")), 3);
    assert_eq!(count_occurrences(&chars("__import__import__"), &chars("__import__")), 2);
    assert_eq!(count_occurrences(&chars("abc"), &chars("abcd")), 0);
    assert_eq!(count_occurrences(&chars(""), &chars("a")), 0);
    assert_eq!(count_occurrences(&chars("abc"), &chars("")), 3);
}

#[test]
fn search_finds_first_last_and_none() {
    assert!(has_occurrence(&chars("hello world"), &chars("hello")));
    assert!(has_occurrence(&chars("hello world"), &chars("world")));
    assert!(has_occurrence(&chars("hello world"), &chars("o w")));
    assert!(!has_occurrence(&chars("hello world"), &chars("worlds")));
    assert!(has_occurrence(&chars(""), &chars("")));
    assert!(!has_occurrence(&chars(""), &chars("a")));
}

#[test]
fn match_at_a_position() {
    assert!(matches_at(&chars("abcdef"), &chars("cd"), 2));
    assert!(!matches_at(&chars("abcdef"), &chars("cd"), 3));
    assert!(!matches_at(&chars("abcdef"), &chars("ef"), 5));
    assert!(matches_at(&chars("abcdef"), &chars(""), 6));
    assert!(!matches_at(&chars("abcdef"), &chars(""), 7));
    assert!(!matches_at(&chars("abc"), &chars("abcd"), usize::MAX));
}

#[test]
fn prefix_and_suffix() {
    assert!(begins_with(&chars("127.0.0.1"), &chars("127.")));
    assert!(!begins_with(&chars("1127.0.0.1"), &chars("127.")));
    assert!(finishes_with(&chars("api.example.com"), &chars(".example.com")));
    assert!(!finishes_with(&chars("example.com"), &chars(".example.com")));
    assert!(finishes_with(&chars("x"), &chars("")));
}

#[test]
fn same_text_compares_characters() {
    assert!(same_text("strict", "strict"));
    assert!(!same_text("strict", "Strict"));
    assert!(!same_text("strict", "stric"));
    assert!(same_text("", ""));
}
