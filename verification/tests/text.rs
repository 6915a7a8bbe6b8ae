use bookfinder::split::{join_strings, normalize_whitespace, split_chars, split_words};
use bookfinder::text::{find_chars, trim_chars};

fn cs(s: &str) -> Vec<char> {
    s.chars().collect()
}

fn st(v: &[char]) -> String {
    v.iter().collect()
}

#[test]
fn trimming_twice_is_trimming_once() {
    let once = trim_chars(&cs("\u{a0}\t one two \u{3000}\n"));
    assert_eq!(st(&once), "one two");
    assert_eq!(trim_chars(&once), once);
    assert_eq!(st(&trim_chars(&cs("   "))), "");
}

#[test]
fn whitespace_is_normalised() {
    assert_eq!(st(&normalize_whitespace(&cs("  a \n\t b   c "))), "a b c");
    assert_eq!(st(&normalize_whitespace(&cs(""))), "");
    let words = split_words(&cs(" x  yy z"));
    assert_eq!(words, vec![cs("x"), cs("yy"), cs("z")]);
}

#[test]
fn splitting_and_joining() {
    assert_eq!(split_chars(&cs("a|b||c"), '|'), vec![cs("a"), cs("b"), cs(""), cs("c")]);
    assert_eq!(split_chars(&cs(""), '|'), vec![cs("")]);
    let parts = vec!["a".to_string(), "b".to_string(), "c".to_string()];
    assert_eq!(st(&join_strings(&parts, ", ")), "a, b, c");
    assert_eq!(st(&join_strings(&vec![], ", ")), "");
}

#[test]
fn finding_the_first_occurrence() {
    assert_eq!(find_chars(&cs("x?md5=1&ads.php?md5=2"), &cs("md5=")), Some(2));
    assert_eq!(find_chars(&cs("abc"), &cs("abcd")), None);
    assert_eq!(find_chars(&cs("abc"), &cs("")), Some(0));
}
