use rawshift::model_match::{contains, find_exact, find_loose};

fn names() -> Vec<Vec<u8>> {
    ["ILCE-7RM5", "ILCE-7M4", "iPhone 13 Pro"].iter().map(|s| s.as_bytes().to_vec()).collect()
}

#[test]
fn contains_finds_substrings() {
    assert!(contains(b"Sony ILCE-7RM5", b"ILCE-7RM5"));
    assert!(contains(b"abc", b""));
    assert!(!contains(b"ab", b"abc"));
    assert!(!contains(b"ILCE-7M4", b"7RM"));
}

#[test]
fn exact_lookup_takes_the_equal_name() {
    assert_eq!(find_exact(&names(), b"ILCE-7M4"), Some(1));
    assert_eq!(find_exact(&names(), b"ILCE-7M"), None);
}

#[test]
fn loose_lookup_matches_either_way() {
    assert_eq!(find_loose(&names(), b"Sony ILCE-7RM5"), Some(0));
    assert_eq!(find_loose(&names(), b"13 Pro"), Some(2));
    assert_eq!(find_loose(&names(), b"Canon"), None);
}
