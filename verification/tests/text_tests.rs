use nemoscene::text::{
    ends_with, find_char, parse_usize, rfind_char, split_string, starts_with, str_eq, str_lt,
    u64_to_string,
};

#[test]
fn decimal_rendering() {
    assert_eq!(u64_to_string(0), "0");
    assert_eq!(u64_to_string(7), "7");
    assert_eq!(u64_to_string(10), "10");
    assert_eq!(u64_to_string(1337), "1337");
    assert_eq!(u64_to_string(u64::MAX), "18446744073709551615");
}

#[test]
fn decimal_parsing() {
    assert_eq!(parse_usize("0"), Some(0));
    assert_eq!(parse_usize("1337"), Some(1337));
    assert_eq!(parse_usize(""), None);
    assert_eq!(parse_usize("12a"), None);
    assert_eq!(parse_usize("-3"), None);
    assert_eq!(parse_usize("99999999999999999999999999"), None);
}

#[test]
fn comparisons() {
    assert!(str_eq("abc", "abc"));
    assert!(!str_eq("abc", "abd"));
    assert!(!str_eq("abc", "ab"));
    assert!(str_lt("abc", "abd"));
    assert!(str_lt("ab", "abc"));
    assert!(!str_lt("abc", "abc"));
    assert!(!str_lt("b", "abc"));
}

#[test]
fn prefixes_and_suffixes() {
    assert!(starts_with("data/u/config/b", "data/u/"));
    assert!(!starts_with("data", "data/u"));
    assert!(ends_with("data/u/config/bundle", "/bundle"));
    assert!(!ends_with("bundle", "/bundle"));
}

#[test]
fn searching() {
    assert_eq!(find_char("a=b=c", '='), Some(1));
    assert_eq!(find_char("abc", '='), None);
    assert_eq!(rfind_char("a=b=c", '='), Some(3));
    assert_eq!(rfind_char("abc", '='), None);
}

#[test]
fn splitting() {
    assert_eq!(split_string("a&b&&c", '&'), vec!["a", "b", "", "c"]);
    assert_eq!(split_string("abc", '&'), vec!["abc"]);
    assert_eq!(split_string("", '&'), vec![""]);
    assert_eq!(split_string("/bundle/u/x", '/'), vec!["", "bundle", "u", "x"]);
}
