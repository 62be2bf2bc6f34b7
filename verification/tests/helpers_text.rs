use solrcopy::helpers::{
    append, append_all, contains_any, ends_with_any, find_text_between, find_text_from,
    get_filename, lpad, lpad_0, lpad_with, pad, pad_0, pad_with, parse_u64, remove_whitespace,
    replace, replace_solr_date, solr_query, starts_with_any, str_eq, to_ascii_lower,
    to_ascii_upper, trim_str, u64_to_string, with_prefix, with_suffix,
};

#[test]
fn check_solr_query() {
    let query = "hello world";
    assert_eq!(solr_query(query), "hello%20world");
}

#[test]
fn check_solr_query_operators() {
    assert_eq!(solr_query("a or b and c not d"), "a%20OR%20b%20AND%20c%20NOT%20d");
}

#[test]
fn check_replace_solr_date() {
    let query = "started in {hello}";
    assert_eq!(
        replace_solr_date(query, "{hello}", "2025-01-01"),
        "started in 2025-01-01T00:00:00Z"
    );
}

#[test]
fn check_replace_full_timestamp() {
    assert_eq!(
        replace_solr_date("at {b}", "{b}", "2025-01-01T10:20:30"),
        "at 2025-01-01T10:20:30Z"
    );
}

#[test]
fn check_get_filename() {
    assert_eq!(get_filename("test.txt"), Ok("test.txt".to_string()));
    assert_eq!(get_filename("/tmp/out/test.txt"), Ok("test.txt".to_string()));
    assert_eq!(get_filename("/tmp/out/"), Err(()));
    assert_eq!(get_filename(""), Err(()));
}

#[test]
fn check_starts_with_any() {
    let ok = vec!["true", "test"];
    let s1: &str = "test";
    assert_eq!(starts_with_any(s1, &ok), true);
    let s2: String = String::from("test");
    assert_eq!(starts_with_any(s2.as_str(), &ok), true);
}

#[test]
fn check_contains_any() {
    let patterns = vec!["foo", "bar", "baz"];
    let s1 = "hello foo world";
    assert_eq!(contains_any(s1, &patterns), true);

    let s2 = "hello world";
    assert_eq!(contains_any(s2, &patterns), false);

    let s3 = "barista";
    assert_eq!(contains_any(s3, &patterns), true);

    let s4 = "";
    assert_eq!(contains_any(s4, &patterns), false);

    let s5 = "bazooka";
    assert_eq!(contains_any(s5, &patterns), true);
}

#[test]
fn check_ends_with_any() {
    let patterns = vec![".rs", ".txt", ".md"];
    let s1 = "file.rs";
    assert_eq!(ends_with_any(s1, &patterns), true);

    let s2 = "document.pdf";
    assert_eq!(ends_with_any(s2, &patterns), false);

    let s3 = "notes.md";
    assert_eq!(ends_with_any(s3, &patterns), true);

    let s4 = "";
    assert_eq!(ends_with_any(s4, &patterns), false);
}

#[test]
fn check_find_text_from() {
    let s = "hello world, hello universe";
    assert_eq!(find_text_from(s, "hello", 6), Some(" world".to_string()));
    assert_eq!(find_text_from(s, "bye", 0), None);
    assert_eq!(find_text_from(s, "world", -5), Some(", hello uni".to_string()));
    assert_eq!(find_text_from(s, "hello", 100), Some(" world, hello universe".to_string()));
    assert_eq!(find_text_from(s, "hello", 1), Some(" ".to_string()));
}

#[test]
fn check_find_text_between() {
    let s = "foo [bar] baz";
    assert_eq!(find_text_between(s, "[", "]"), Some("bar".to_string()));
    let s2 = "no brackets here";
    assert_eq!(find_text_between(s2, "[", "]"), None);
    let s3 = "[start] middle [end]";
    assert_eq!(find_text_between(s3, "[", "]"), Some("start] middle [end".to_string()));
    let s4 = "prefix [content]";
    assert_eq!(find_text_between(s4, "[", "]"), Some("content".to_string()));
}

#[test]
fn check_append() {
    let s = "abc";
    assert_eq!(append(s, "def"), "abcdef");
    let s2 = "";
    assert_eq!(append(s2, "xyz"), "xyz");
    let s3 = "foo";
    assert_eq!(append(s3, ""), "foo");
}

#[test]
fn check_append_all() {
    let s = "x";
    let arr = vec!["a", "b", "c"];
    assert_eq!(append_all(s, &arr), "xabc");
    let arr2: Vec<&str> = vec![];
    assert_eq!(append_all(s, &arr2), "x");
}

#[test]
fn check_with_prefix() {
    let s = "bar";
    assert_eq!(with_prefix(s, "foo"), "foobar");
    let s2 = "";
    assert_eq!(with_prefix(s2, "pre"), "");
}

#[test]
fn check_with_suffix() {
    let s = "foo";
    assert_eq!(with_suffix(s, "bar"), "foobar");
    let s2 = "";
    assert_eq!(with_suffix(s2, "suf"), "");
}

#[test]
fn check_pad() {
    let s = "42";
    assert_eq!(pad(s, 5), "42   ");
    let s2 = "hello";
    assert_eq!(pad(s2, 3), "hello");
    let s3 = "";
    assert_eq!(pad(s3, 4), "    ");
}

#[test]
fn check_pad_0() {
    let s = "7";
    assert_eq!(pad_0(s, 3), "700");
    let s2 = "abc";
    assert_eq!(pad_0(s2, 2), "abc");
    let s3 = "";
    assert_eq!(pad_0(s3, 2), "00");
}

#[test]
fn check_pad_with() {
    let s = "hi";
    assert_eq!(pad_with(s, 4, '_'), "hi__");
    let s2 = "test";
    assert_eq!(pad_with(s2, 2, 'x'), "test");
    let s3 = "";
    assert_eq!(pad_with(s3, 3, 'z'), "zzz");
}

#[test]
fn check_pad_left() {
    let s = "42";
    assert_eq!(lpad(s, 5), "   42");
    let s2 = "hello";
    assert_eq!(lpad(s2, 3), "hello");
    let s3 = "";
    assert_eq!(lpad(s3, 4), "    ");
}

#[test]
fn check_pad_0_left() {
    let s = "7";
    assert_eq!(lpad_0(s, 3), "007");
    let s2 = "abc";
    assert_eq!(lpad_0(s2, 2), "abc");
    let s3 = "";
    assert_eq!(lpad_0(s3, 2), "00");
}

#[test]
fn check_pad_left_with() {
    let s = "hi";
    assert_eq!(lpad_with(s, 4, '_'), "__hi");
    let s2 = "test";
    assert_eq!(lpad_with(s2, 2, 'x'), "test");
    let s3 = "";
    assert_eq!(lpad_with(s3, 3, 'z'), "zzz");
}

#[test]
fn check_remove_whitespace() {
    let s = " a b c ";
    assert_eq!(remove_whitespace(s), "abc");
    let s2 = "no_whitespace";
    assert_eq!(remove_whitespace(s2), "no_whitespace");
    let s3 = "   ";
    assert_eq!(remove_whitespace(s3), "");
    let s4 = "";
    assert_eq!(remove_whitespace(s4), "");
    let s5 = "a\tb\nc";
    assert_eq!(remove_whitespace(s5), "abc");
}

#[test]
fn check_replace() {
    assert_eq!(replace("aXbXc", "X", "--"), "a--b--c");
    assert_eq!(replace("none here", "X", "-"), "none here");
    assert_eq!(replace("aaa", "aa", "b"), "ba");
}

#[test]
fn check_case_and_trim() {
    assert_eq!(to_ascii_upper("3kb"), "3KB");
    assert_eq!(to_ascii_lower("10 MB"), "10 mb");
    assert_eq!(trim_str("  x y\t"), "x y");
    assert!(str_eq("same", "same"));
    assert!(!str_eq("same", "other"));
}

#[test]
fn check_u64_to_string() {
    assert_eq!(u64_to_string(0), "0");
    assert_eq!(u64_to_string(46), "46");
    assert_eq!(u64_to_string(1000000000000), "1000000000000");
    assert_eq!(u64_to_string(u64::MAX), "18446744073709551615");
}

#[test]
fn check_parse_u64() {
    assert_eq!(parse_u64("0"), Some(0));
    assert_eq!(parse_u64("18446744073709551615"), Some(u64::MAX));
    assert_eq!(parse_u64("18446744073709551616"), None);
    assert_eq!(parse_u64(""), None);
    assert_eq!(parse_u64("12a"), None);
}
