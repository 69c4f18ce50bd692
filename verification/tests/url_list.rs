use pr0dl::url_list::{read_url_file, write_urls};

fn strings(texts: &[&str]) -> Vec<String> {
    texts.iter().map(|t| t.to_string()).collect()
}

#[test]
fn one_url_per_line() {
    assert_eq!(write_urls(&strings(&["https://a/1", "https://b/2"])), "https://a/1\nhttps://b/2\n");
    assert_eq!(write_urls(&vec![]), "");
}

#[test]
fn lines_are_trimmed_and_empty_ones_dropped() {
    let text = "\n  https://a/1\r\n\t\n\u{3000}\nhttps://b/2 x \n\nhttps://c/3";
    assert_eq!(read_url_file(text), strings(&["https://a/1", "https://b/2 x", "https://c/3"]));
}

#[test]
fn empty_list_files() {
    assert_eq!(read_url_file(""), strings(&[]));
    assert_eq!(read_url_file("\n\r\n  \n"), strings(&[]));
}

#[test]
fn reading_agrees_with_the_lines_of_the_standard_library() {
    for text in ["a", "a\n", "a\nb", "a\r\nb\r\n", "\r", "a\rb\n", "\n\na\n \nb c\n", "x\u{85}\n\u{a0}y\n"] {
        let expected: Vec<String> =
            text.lines().map(|l| l.trim().to_owned()).filter(|l| !l.is_empty()).collect();
        assert_eq!(read_url_file(text), expected, "{text:?}");
    }
}

#[test]
fn written_lists_are_read_back() {
    let urls = strings(&["https://a/1.jpg", "https://b/2 3.mp4", "x", "x"]);
    assert_eq!(read_url_file(&write_urls(&urls)), urls);
}

#[test]
fn rewritten_lists_keep_their_urls() {
    let urls = read_url_file(" a \r\n\n b\nc\t");
    assert_eq!(urls, strings(&["a", "b", "c"]));
    assert_eq!(read_url_file(&write_urls(&urls)), urls);
}
