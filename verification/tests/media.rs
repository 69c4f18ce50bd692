use pr0dl::media::media_url;
use pr0dl::url_list::{read_url_file, write_urls};

#[test]
fn videos_are_on_the_video_server() {
    assert_eq!(media_url("2024/a.mp4"), "https://vid.pr0gramm.com/2024/a.mp4");
    assert_eq!(media_url("2024/a.webm"), "https://vid.pr0gramm.com/2024/a.webm");
}

#[test]
fn everything_else_is_on_the_image_server() {
    assert_eq!(media_url("2024/a.jpg"), "https://img.pr0gramm.com/2024/a.jpg");
    assert_eq!(media_url("a.MP4"), "https://img.pr0gramm.com/a.MP4");
    assert_eq!(media_url("mp4"), "https://img.pr0gramm.com/mp4");
    assert_eq!(media_url(""), "https://img.pr0gramm.com/");
}

#[test]
fn media_urls_can_stand_in_a_list() {
    let urls = vec![media_url("a b.jpg"), media_url(""), media_url("c.webm")];
    assert_eq!(read_url_file(&write_urls(&urls)), urls);
}
