use bevy_svg::text::{split_at_char, str_eq, trim_matches_char};

#[test]
fn trimming_and_splitting() {
    assert_eq!(trim_matches_char(";;a;b;;", ';'), "a;b");
    assert_eq!(trim_matches_char(";;;", ';'), "");
    assert_eq!(split_at_char("a;b;;c", ';'), vec!["a", "b", "", "c"]);
    assert_eq!(split_at_char("", ':'), vec![""]);
    assert_eq!(split_at_char("k:v", ':'), vec!["k", "v"]);
}

#[test]
fn string_equality() {
    assert!(str_eq("abc", "abc"));
    assert!(!str_eq("abc", "abd"));
    assert!(!str_eq("abc", "ab"));
}

