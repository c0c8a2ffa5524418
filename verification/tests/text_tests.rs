use gid::text::{i64_to_dec, sort_strings, split_slash, str_eq, str_lex_le, u64_to_dec};

#[test]
fn decimal_rendering_of_unsigned_numbers() {
    assert_eq!(u64_to_dec(0), "0");
    assert_eq!(u64_to_dec(7), "7");
    assert_eq!(u64_to_dec(10), "10");
    assert_eq!(u64_to_dec(12034), "12034");
    assert_eq!(u64_to_dec(u64::MAX), "18446744073709551615");
}

#[test]
fn decimal_rendering_of_signed_numbers() {
    assert_eq!(i64_to_dec(0), "0");
    assert_eq!(i64_to_dec(42), "42");
    assert_eq!(i64_to_dec(-1), "-1");
    assert_eq!(i64_to_dec(-905), "-905");
    assert_eq!(i64_to_dec(i64::MAX), "9223372036854775807");
    assert_eq!(i64_to_dec(i64::MIN), "-9223372036854775808");
}

#[test]
fn string_equality_by_characters() {
    assert!(str_eq("", ""));
    assert!(str_eq("abc", "abc"));
    assert!(!str_eq("abc", "abd"));
    assert!(!str_eq("abc", "abcd"));
    assert!(str_eq("naïve", "naïve"));
}

#[test]
fn lexicographic_order_matches_std() {
    let cases = [
        ("", ""),
        ("", "a"),
        ("a", ""),
        ("abc", "abd"),
        ("abd", "abc"),
        ("ab", "abc"),
        ("abc", "ab"),
        ("Z", "a"),
        ("10", "9"),
    ];
    for (a, b) in cases {
        assert_eq!(str_lex_le(a, b), a <= b, "ordering of {:?} and {:?}", a, b);
    }
}

#[test]
fn sorting_matches_std_sort() {
    let lines: Vec<String> = ["pear", "apple", "Banana", "apple", "10", "2", ""]
        .iter()
        .map(|s| String::from(*s))
        .collect();
    let mut expected = lines.clone();
    expected.sort();
    assert_eq!(sort_strings(lines), expected);
}

#[test]
fn splitting_a_url_into_segments() {
    let segs = split_slash("https://github.com/k-nasa/gid/issues/28");
    assert_eq!(
        segs,
        vec!["https:", "", "github.com", "k-nasa", "gid", "issues", "28"]
    );
    assert_eq!(split_slash(""), vec![""]);
    assert_eq!(split_slash("a/"), vec!["a", ""]);
    assert_eq!(split_slash("/a"), vec!["", "a"]);
}
