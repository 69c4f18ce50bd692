//! Where the medium of an item is to be had.

use crate::text::{
    ends_with, has_suffix, is_white_space, last_segment, law_last_segment_after_slash,
    law_suffix_is_what_a_text_ends_in,
};
use crate::url_list::is_list_entry;
use vstd::prelude::*;
use vstd::string::*;

verus! {

pub const IMG_CDN: &'static str = "https://img.pr0gramm.com/";

pub const VID_CDN: &'static str = "https://vid.pr0gramm.com/";

/// Whether the path is that of a video.
pub open spec fn is_video(image_path: Seq<char>) -> bool {
    has_suffix(image_path, ".mp4"@) || has_suffix(image_path, ".webm"@)
}

/// The URL of a medium: videos and images have servers of their own.
pub open spec fn media_address(image_path: Seq<char>) -> Seq<char> {
    if is_video(image_path) {
        VID_CDN@ + image_path
    } else {
        IMG_CDN@ + image_path
    }
}

/// The URL of a medium.
pub fn media_url(image_path: &str) -> (url: String)
    ensures
        url@ == media_address(image_path@),
{
    let mut url = if ends_with(image_path, ".mp4") || ends_with(image_path, ".webm") {
        VID_CDN.to_owned()
    } else {
        IMG_CDN.to_owned()
    };
    url.append(image_path);
    url
}

proof fn lemma_servers()
    ensures
        IMG_CDN@.len() == 25,
        VID_CDN@.len() == 25,
        IMG_CDN@[0] == 'h',
        VID_CDN@[0] == 'h',
        IMG_CDN@.last() == '/',
        VID_CDN@.last() == '/',
        !IMG_CDN@.contains('\n'),
        !VID_CDN@.contains('\n'),
{
    reveal_strlit("https://img.pr0gramm.com/");
    reveal_strlit("https://vid.pr0gramm.com/");
}

/// A medium keeps the last segment of its path in its URL, whichever server it
/// is on.
pub proof fn law_media_url_keeps_the_last_segment(image_path: Seq<char>)
    ensures
        last_segment(media_address(image_path)) == last_segment(image_path),
{
    lemma_servers();
    let server = if is_video(image_path) {
        VID_CDN@
    } else {
        IMG_CDN@
    };
    assert(server =~= server.drop_last().push('/'));
    law_last_segment_after_slash(server.drop_last(), image_path);
}

/// A media URL can stand in a list file, where its path holds no newline and
/// ends in no white space.
pub proof fn law_media_url_is_a_list_entry(image_path: Seq<char>)
    requires
        !image_path.contains('\n'),
        image_path.len() > 0 ==> !is_white_space(image_path.last()),
    ensures
        is_list_entry(media_address(image_path)),
{
    lemma_servers();
    let server = if is_video(image_path) {
        VID_CDN@
    } else {
        IMG_CDN@
    };
    let url = media_address(image_path);
    assert(url == server + image_path);
    assert(url[0] == server[0]);
    if image_path.len() > 0 {
        assert(url.last() == image_path.last());
    } else {
        assert(url =~= server);
    }
    if url.contains('\n') {
        let i = choose|i: int| 0 <= i < url.len() && url[i] == '\n';
        if i < server.len() {
            assert(server[i] == '\n');
        } else {
            assert(image_path[i - server.len()] == '\n');
        }
    }
}

/// Paths in `.mp4` or `.webm`, whatever comes before, are on the video server.
pub proof fn law_videos_are_on_the_video_server(base: Seq<char>)
    ensures
        media_address(base + ".mp4"@) == "https://vid.pr0gramm.com/"@ + base + ".mp4"@,
        media_address(base + ".webm"@) == "https://vid.pr0gramm.com/"@ + base + ".webm"@,
{
    law_suffix_is_what_a_text_ends_in(base, ".mp4"@);
    law_suffix_is_what_a_text_ends_in(base, ".webm"@);
    assert(VID_CDN@ + (base + ".mp4"@) =~= VID_CDN@ + base + ".mp4"@);
    assert(VID_CDN@ + (base + ".webm"@) =~= VID_CDN@ + base + ".webm"@);
}

/// Every other path is on the image server.
pub proof fn law_other_media_are_on_the_image_server(image_path: Seq<char>)
    requires
        forall|base: Seq<char>| image_path != #[trigger] (base + ".mp4"@),
        forall|base: Seq<char>| image_path != #[trigger] (base + ".webm"@),
    ensures
        media_address(image_path) == "https://img.pr0gramm.com/"@ + image_path,
{
    law_suffix_is_what_a_text_ends_in(image_path, ".mp4"@);
    law_suffix_is_what_a_text_ends_in(image_path, ".webm"@);
}

/// The URL of a medium is that of a server with the whole path behind it, so
/// different paths have different URLs.
pub proof fn law_media_urls_differ(a: Seq<char>, b: Seq<char>)
    ensures
        media_address(a).len() == 25 + a.len(),
        media_address(a).skip(25) == a,
        media_address(a) == media_address(b) ==> a == b,
{
    lemma_servers();
    assert(media_address(a).skip(25) =~= a);
    assert(media_address(b).skip(25) =~= b);
}

} // verus!
