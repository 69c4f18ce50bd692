use pr0dl::file_names::{filename_of, is_part_file};
use pr0dl::media::media_url;

#[test]
fn file_names_follow_the_last_slash() {
    assert_eq!(filename_of("https://img.pr0gramm.com/2024/01/02/abc.jpg", 7), "abc.jpg");
    assert_eq!(filename_of("abc.jpg", 7), "abc.jpg");
    assert_eq!(filename_of("https://host/a?b/c", 0), "c");
}

#[test]
fn urls_without_a_name_are_numbered() {
    assert_eq!(filename_of("https://host/dir/", 0), "file_0");
    assert_eq!(filename_of("", 12), "file_12");
}

#[test]
fn file_names_hold_no_slash() {
    for url in ["a/b/c", "///", "/", "a//", "x"] {
        let name = filename_of(url, 3);
        assert!(!name.is_empty() && !name.contains('/'), "{url}");
    }
}

#[test]
fn a_medium_keeps_its_name_on_either_server() {
    assert_eq!(filename_of(&media_url("2024/x.mp4"), 1), "x.mp4");
    assert_eq!(filename_of(&media_url("2024/x.png"), 1), "x.png");
    assert_eq!(filename_of(&media_url("x.png"), 1), "x.png");
}

#[test]
fn part_files() {
    assert!(is_part_file("a.jpg.part"));
    assert!(is_part_file("..part"));
    assert!(is_part_file("ä.part"));
    assert!(!is_part_file(".part"));
    assert!(!is_part_file("part"));
    assert!(!is_part_file("a.jpg"));
    assert!(!is_part_file("a.part.jpg"));
    assert!(!is_part_file("a.PART"));
}

#[test]
fn part_files_agree_with_path_extensions() {
    for name in ["a.part", ".part", "..part", "a.b.part", "part", "a.partx", "a.part.", " .part"] {
        let path = std::path::Path::new("dir").join(name);
        let expected = path.extension().and_then(|e| e.to_str()) == Some("part");
        assert_eq!(is_part_file(name), expected, "{name}");
    }
}
