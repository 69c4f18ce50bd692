//! Where the file of a URL goes.

use crate::text::{
    decimal, decimal_text, ends_with, has_suffix, is_digit, last_segment, law_decimal_is_read_back,
    law_last_segment_after_slash, law_last_segment_is_all_that_follows_the_last_slash,
    law_last_segment_is_the_longest_tail_without_slash, law_suffix_is_what_a_text_ends_in, segment,
};
use vstd::prelude::*;
use vstd::string::*;

verus! {

/// The name of the file that the `idx`-th URL is saved as: what follows its
/// last slash, or a numbered name where nothing does.
pub open spec fn file_name(url: Seq<char>, idx: nat) -> Seq<char> {
    let last = last_segment(url);
    if last.len() > 0 {
        last
    } else {
        "file_"@ + decimal(idx)
    }
}

/// The name of a file while it is being written.
pub open spec fn part_name(filename: Seq<char>) -> Seq<char> {
    filename + ".part"@
}

/// Whether a file of this name is an incomplete download: its extension, which
/// needs something before it, is `part`.
pub open spec fn is_part_name(name: Seq<char>) -> bool {
    has_suffix(name, ".part"@) && name.len() > ".part"@.len()
}

/// The name of the file that the `idx`-th URL is saved as.
pub fn filename_of(url: &str, idx: usize) -> (filename: String)
    ensures
        filename@ == file_name(url@, idx as nat),
        !filename@.contains('/'),
        url@.len() > 0 && url@.last() != '/' ==> {
            &&& 0 < filename@.len() <= url@.len()
            &&& url@ == url@.take(url@.len() - filename@.len()) + filename@
            &&& filename@.len() == url@.len() || url@[url@.len() - filename@.len() - 1] == '/'
        },
        url@.len() == 0 || url@.last() == '/' ==> filename@ == "file_"@ + decimal(idx as nat),
{
    proof {
        law_file_name_is_one_segment(url@, idx as nat);
        if url@.len() > 0 && url@.last() != '/' {
            law_file_name_is_the_tail_of_the_url(url@, idx as nat);
        }
    }
    let last = segment(url);
    if !last.as_str().is_empty() {
        last
    } else {
        let mut numbered = "file_".to_owned();
        numbered.append(decimal_text(idx as u64).as_str());
        numbered
    }
}

/// Whether a file left in the download directory is an incomplete download,
/// which is removed before the downloads start.
pub fn is_part_file(name: &str) -> (yes: bool)
    ensures
        yes == is_part_name(name@),
        yes <==> name@.len() > 5 && name@.skip(name@.len() - 5) == ".part"@,
{
    proof {
        reveal_strlit(".part");
    }
    ends_with(name, ".part") && name.unicode_len() > ".part".unicode_len()
}

/// A file name is never empty and never leads out of the download directory
/// by a slash.
pub proof fn law_file_name_is_one_segment(url: Seq<char>, idx: nat)
    ensures
        file_name(url, idx).len() > 0,
        !file_name(url, idx).contains('/'),
{
    law_last_segment_is_the_longest_tail_without_slash(url);
    law_decimal_is_read_back(idx);
    reveal_strlit("file_");
    let numbered = "file_"@ + decimal(idx);
    if numbered.contains('/') {
        let i = choose|i: int| 0 <= i < numbered.len() && numbered[i] == '/';
        if i >= 5 {
            assert(is_digit(decimal(idx)[i - 5]));
        }
    }
}

/// What precedes a slash of a URL does not change its file name.
pub proof fn law_file_name_ignores_what_precedes_a_slash(
    base: Seq<char>,
    rest: Seq<char>,
    idx: nat,
)
    ensures
        file_name(base.push('/') + rest, idx) == file_name(rest, idx),
{
    law_last_segment_after_slash(base, rest);
}

/// Whatever an interrupted download leaves behind is recognised as incomplete.
pub proof fn law_part_files_are_recognised(url: Seq<char>, idx: nat)
    ensures
        is_part_name(part_name(file_name(url, idx))),
{
    law_file_name_is_one_segment(url, idx);
    let name = part_name(file_name(url, idx));
    assert(name.skip(name.len() - ".part"@.len()) =~= ".part"@);
}

/// The file of a URL that does not end in a slash is saved under all that follows
/// the last slash of the URL.
pub proof fn law_file_name_is_the_tail_of_the_url(url: Seq<char>, idx: nat)
    requires
        url.len() > 0,
        url.last() != '/',
    ensures
        ({
            let name = file_name(url, idx);
            let start = url.len() - name.len();
            &&& !name.contains('/')
            &&& 0 <= start < url.len()
            &&& url == url.take(start) + name
            &&& start == 0 || url[start - 1] == '/'
        }),
{
    law_last_segment_is_the_longest_tail_without_slash(url);
    law_suffix_is_what_a_text_ends_in(url, last_segment(url));
}

/// A URL that ends in a slash, or is empty, has its number for a name, and two of
/// them never have the same.
pub proof fn law_nameless_urls_are_numbered(a: Seq<char>, i: nat, b: Seq<char>, j: nat)
    requires
        a.len() == 0 || a.last() == '/',
        b.len() == 0 || b.last() == '/',
    ensures
        file_name(a, i) == "file_"@ + decimal(i),
        i != j ==> file_name(a, i) != file_name(b, j),
{
    law_decimal_is_read_back(i);
    law_decimal_is_read_back(j);
    if file_name(a, i) == file_name(b, j) {
        assert(decimal(i) =~= file_name(a, i).skip("file_"@.len() as int));
        assert(decimal(j) =~= file_name(b, j).skip("file_"@.len() as int));
    }
}

/// URLs that differ behind their last slash are saved under different names.
pub proof fn law_file_names_differ_where_the_last_segments_do(
    base: Seq<char>,
    a: Seq<char>,
    i: nat,
    other: Seq<char>,
    b: Seq<char>,
    j: nat,
)
    requires
        a.len() > 0,
        b.len() > 0,
        !a.contains('/'),
        !b.contains('/'),
        a != b,
    ensures
        file_name(base.push('/') + a, i) == a,
        file_name(base.push('/') + a, i) != file_name(other.push('/') + b, j),
{
    law_last_segment_is_all_that_follows_the_last_slash(base, a);
    law_last_segment_is_all_that_follows_the_last_slash(other, b);
}

/// Only incomplete downloads are recognised as such: a name that is recognised is
/// that of some file with `.part` behind it.
pub proof fn law_only_part_files_are_recognised(name: Seq<char>)
    ensures
        is_part_name(name) <==> name.len() > 5 && name[name.len() - 5] == '.' && name[name.len() - 4]
            == 'p' && name[name.len() - 3] == 'a' && name[name.len() - 2] == 'r' && name[name.len()
            - 1] == 't',
        is_part_name(name) ==> name == part_name(name.take(name.len() - 5)),
{
    reveal_strlit(".part");
    law_suffix_is_what_a_text_ends_in(name, ".part"@);
    if name.len() > 5 {
        let tail = name.skip(name.len() - 5);
        assert(tail[0] == name[name.len() - 5] && tail[1] == name[name.len() - 4] && tail[2]
            == name[name.len() - 3] && tail[3] == name[name.len() - 2] && tail[4] == name[name.len()
            - 1]);
        if name[name.len() - 5] == '.' && name[name.len() - 4] == 'p' && name[name.len() - 3] == 'a'
            && name[name.len() - 2] == 'r' && name[name.len() - 1] == 't' {
            assert(tail =~= ".part"@);
        }
    }
}

/// The name of an incomplete download gives back that of the file.
pub proof fn law_part_name_gives_back_the_file_name(filename: Seq<char>)
    ensures
        part_name(filename).len() == filename.len() + 5,
        part_name(filename).take(filename.len() as int) == filename,
        part_name(filename).skip(filename.len() as int) == ".part"@,
        filename.len() > 0 ==> is_part_name(part_name(filename)),
{
    reveal_strlit(".part");
    assert(part_name(filename).take(filename.len() as int) =~= filename);
    assert(part_name(filename).skip(filename.len() as int) =~= ".part"@);
}

} // verus!
