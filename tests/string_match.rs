use plunder::parse::string_match;

#[test]
fn test_string_match() {
    let haystack = ". , . , . , . ,".chars().collect::<Vec<_>>();
    let key1 = ".";
    let key2 = " ,";

    let m1 = string_match(&haystack, 0, key1, false);
    assert_eq!(m1, Some(0));

    let m2 = string_match(&haystack, m1.unwrap() + 1, key2, false);
    assert_eq!(m2, Some(2));

    let m3 = string_match(&haystack, m2.unwrap() + 1, key2, false);
    assert_eq!(m3, None);

    let m4 = string_match(&haystack, m2.unwrap() + 1, key1, false);
    assert_eq!(m4, None);

    let m5 = string_match(&haystack, m2.unwrap() + 2, key1, false);
    assert_eq!(m5, Some(4));

    let m6 = string_match(&haystack, 13, key2, false);
    assert_eq!(m6, Some(haystack.len() - 1));

    let m7 = string_match(&haystack, 14, key2, false);
    assert_eq!(m7, None);
}

#[test]
fn string_match_empty_needle_never_matches() {
    let haystack = "abc".chars().collect::<Vec<_>>();
    assert_eq!(string_match(&haystack, 0, "", false), None);
}

#[test]
fn string_match_past_the_end() {
    let haystack = "abc".chars().collect::<Vec<_>>();
    assert_eq!(string_match(&haystack, 2, "cd", false), None);
    assert_eq!(string_match(&haystack, 7, "c", false), None);
    assert_eq!(string_match(&haystack, 1, "bc", false), Some(2));
}
