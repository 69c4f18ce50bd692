use pr0dl::text::{
    characters, decimal_text, ends_with, parse_u64, segment, spaces_to_plus, string_of, trim,
};

#[test]
fn decimal_numbers() {
    for n in [0, 7, 10, 42, 100, 909, 1_000_000, u64::MAX - 1, u64::MAX] {
        assert_eq!(decimal_text(n), format!("{n}"));
    }
}

#[test]
fn numbers_are_read_back() {
    for n in [0, 9, 10, 120, 4_294_967_296, u64::MAX] {
        assert_eq!(parse_u64(&decimal_text(n)), Some(n));
    }
}

#[test]
fn numbers_parse_as_in_the_standard_library() {
    let cases = [
        "", "0", "00012", "+5", "+", "++5", "-5", "-0", " 5", "5 ", "5.0", "1_000", "abc", "12a", "٣",
        "18446744073709551615", "18446744073709551616", "99999999999999999999999", "99999999999999999999999x",
        "+18446744073709551615", "Wed, 21 Oct 2015 07:28:00 GMT",
    ];
    for text in cases {
        assert_eq!(parse_u64(text), text.parse::<u64>().ok(), "{text:?}");
    }
}

#[test]
fn trimming_knows_all_white_space() {
    for c in '\0'..=char::MAX {
        let chars = vec![c, 'x', c, 'y', c];
        let text: String = chars.iter().collect();
        assert_eq!(trim(&chars), text.trim(), "{c:?}");
    }
}

#[test]
fn trimming_leaves_nothing_of_white_space() {
    assert_eq!(trim(&vec![]), "");
    assert_eq!(trim(&vec![' ', '\t', '\r', '\u{3000}']), "");
    assert_eq!(trim(&vec![' ', ' ', 'a', ' ']), "a");
}

#[test]
fn suffixes() {
    assert!(ends_with("clip.mp4", ".mp4"));
    assert!(ends_with(".mp4", ".mp4"));
    assert!(ends_with("ä", ""));
    assert!(ends_with("xäö", "äö"));
    assert!(!ends_with("mp4", ".mp4"));
    assert!(!ends_with("clip.mp4 ", ".mp4"));
    assert!(!ends_with("clip.MP4", ".mp4"));
}

#[test]
fn last_segments() {
    assert_eq!(segment("https://host/a/b.jpg"), "b.jpg");
    assert_eq!(segment("https://host/a/"), "");
    assert_eq!(segment("plain"), "plain");
    assert_eq!(segment(""), "");
    assert_eq!(segment("/ä/ö"), "ö");
}

#[test]
fn spaces_become_plus_signs() {
    assert_eq!(spaces_to_plus("landscape photography"), "landscape+photography");
    assert_eq!(spaces_to_plus("  a+b\t"), "++a+b\t");
    assert_eq!(spaces_to_plus(""), "");
}

#[test]
fn strings_of_characters() {
    let chars = characters("aäb↓");
    assert_eq!(chars, vec!['a', 'ä', 'b', '↓']);
    assert_eq!(string_of(&chars, 1, 4), "äb↓");
    assert_eq!(string_of(&chars, 2, 2), "");
}
