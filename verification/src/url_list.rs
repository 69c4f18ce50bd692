//! The URL list file: one URL per line.

use crate::text::{
    characters, is_white_space, law_trimming_takes_white_space_off_the_ends, texts, trim, trimmed,
    trimmed_end, trimmed_start,
};
use vstd::prelude::*;
use vstd::string::*;

verus! {

/// The lines of `text`: the parts between its newlines, before the first and
/// after the last one.
pub open spec fn lines(text: Seq<char>) -> Seq<Seq<char>>
    decreases text.len(),
{
    if text.len() == 0 {
        seq![seq![]]
    } else {
        let before = lines(text.drop_last());
        if text.last() == '\n' {
            before.push(seq![])
        } else {
            before.drop_last().push(before.last().push(text.last()))
        }
    }
}

/// What the lines hold once trimmed, without those that hold nothing.
pub open spec fn entries(lines: Seq<Seq<char>>) -> Seq<Seq<char>> {
    lines.map_values(|line: Seq<char>| trimmed(line)).filter(|entry: Seq<char>| entry.len() > 0)
}

/// The URLs that the list file `text` holds.
pub open spec fn listed_urls(text: Seq<char>) -> Seq<Seq<char>> {
    entries(lines(text))
}

/// The list file that holds `urls`.
pub open spec fn url_list(urls: Seq<Seq<char>>) -> Seq<char>
    decreases urls.len(),
{
    if urls.len() == 0 {
        seq![]
    } else {
        url_list(urls.drop_last()) + urls.last() + seq!['\n']
    }
}

/// A URL that can stand in a list file: not empty, on one line, with no white
/// space at either end.
pub open spec fn is_list_entry(url: Seq<char>) -> bool {
    &&& url.len() > 0
    &&& !url.contains('\n')
    &&& !is_white_space(url[0])
    &&& !is_white_space(url.last())
}

/// The content of a list file that holds `urls`, each on a line of its own.
pub fn write_urls(urls: &Vec<String>) -> (content: String)
    ensures
        content@ == url_list(texts(urls@)),
{
    let mut content = String::new();
    let mut i: usize = 0;
    while i < urls.len()
        invariant
            i <= urls@.len(),
            content@ == url_list(texts(urls@).take(i as int)),
        decreases urls@.len() - i,
    {
        content.append(urls[i].as_str());
        content.push('\n');
        proof {
            let longer = texts(urls@).take(i + 1);
            assert(longer.drop_last() =~= texts(urls@).take(i as int));
            assert(content@ =~= url_list(longer));
        }
        i = i + 1;
    }
    assert(texts(urls@).take(i as int) =~= texts(urls@));
    content
}

proof fn lemma_entries_push(lines: Seq<Seq<char>>, line: Seq<char>)
    ensures
        entries(lines.push(line)) == if trimmed(line).len() > 0 {
            entries(lines).push(trimmed(line))
        } else {
            entries(lines)
        },
{
    reveal(Seq::filter);
    let trim_line = |line: Seq<char>| trimmed(line);
    assert(lines.push(line).map_values(trim_line).drop_last() =~= lines.map_values(trim_line));
}

fn push_entry(urls: &mut Vec<String>, line: &Vec<char>, Ghost(before): Ghost<Seq<Seq<char>>>)
    requires
        texts(old(urls)@) == entries(before),
    ensures
        texts(final(urls)@) == entries(before.push(line@)),
{
    proof {
        lemma_entries_push(before, line@);
    }
    let entry = trim(line);
    if !entry.as_str().is_empty() {
        urls.push(entry);
    }
    assert(texts(urls@) =~= entries(before.push(line@)));
}

/// The URLs that a list file with the content `text` holds: its lines, trimmed,
/// without the empty ones.
pub fn read_url_file(text: &str) -> (urls: Vec<String>)
    ensures
        texts(urls@) == listed_urls(text@),
{
    let chars = characters(text);
    let mut urls: Vec<String> = Vec::new();
    let mut line: Vec<char> = Vec::new();
    let mut i: usize = 0;
    assert(texts(urls@) =~= entries(lines(seq![]).drop_last())) by {
        reveal(Seq::filter);
        assert(lines(seq![]).drop_last().len() == 0);
    }
    assert(line@ =~= lines(seq![]).last());
    while i < chars.len()
        invariant
            i <= chars@.len(),
            lines(chars@.take(i as int)).len() > 0,
            texts(urls@) == entries(lines(chars@.take(i as int)).drop_last()),
            line@ == lines(chars@.take(i as int)).last(),
        decreases chars@.len() - i,
    {
        let c = chars[i];
        let ghost before = lines(chars@.take(i as int));
        assert(chars@.take(i + 1).drop_last() =~= chars@.take(i as int));
        if c == '\n' {
            push_entry(&mut urls, &line, Ghost(before.drop_last()));
            line = Vec::new();
            assert(before.drop_last().push(before.last()) =~= before);
            assert(lines(chars@.take(i + 1)).drop_last() =~= before);
            assert(line@ =~= lines(chars@.take(i + 1)).last());
        } else {
            line.push(c);
            assert(lines(chars@.take(i + 1)).drop_last() =~= before.drop_last());
        }
        i = i + 1;
    }
    assert(chars@.take(i as int) =~= text@);
    push_entry(&mut urls, &line, Ghost(lines(text@).drop_last()));
    assert(lines(text@).drop_last().push(lines(text@).last()) =~= lines(text@));
    urls
}

proof fn lemma_lines_len(text: Seq<char>)
    ensures
        lines(text).len() > 0,
    decreases text.len(),
{
    if text.len() > 0 {
        lemma_lines_len(text.drop_last());
    }
}

/// Characters that hold no newline continue the last line.
proof fn lemma_lines_continue(text: Seq<char>, more: Seq<char>)
    requires
        !more.contains('\n'),
    ensures
        lines(text + more) == lines(text).drop_last().push(lines(text).last() + more),
    decreases more.len(),
{
    lemma_lines_len(text);
    if more.len() == 0 {
        assert(text + more =~= text);
        assert(lines(text).last() + more =~= lines(text).last());
        assert(lines(text).drop_last().push(lines(text).last()) =~= lines(text));
    } else {
        let less = more.drop_last();
        assert(!less.contains('\n')) by {
            if less.contains('\n') {
                let i = choose|i: int| 0 <= i < less.len() && less[i] == '\n';
                assert(more[i] == '\n');
            }
        }
        assert(more.last() != '\n') by {
            assert(more[more.len() - 1] == more.last());
        }
        lemma_lines_continue(text, less);
        assert((text + more).drop_last() =~= text + less);
        assert(lines(text).last() + more =~= (lines(text).last() + less).push(more.last()));
        assert(lines(text + less).drop_last() =~= lines(text).drop_last());
    }
}

proof fn lemma_lines_of_list(urls: Seq<Seq<char>>)
    requires
        forall|i: int| 0 <= i < urls.len() ==> is_list_entry(#[trigger] urls[i]),
    ensures
        lines(url_list(urls)) == urls.push(seq![]),
    decreases urls.len(),
{
    if urls.len() == 0 {
        assert(lines(url_list(urls)) =~= urls.push(seq![]));
    } else {
        let less = urls.drop_last();
        let url = urls.last();
        assert forall|i: int| 0 <= i < less.len() implies is_list_entry(#[trigger] less[i]) by {
            assert(less[i] == urls[i]);
        }
        lemma_lines_of_list(less);
        assert(is_list_entry(urls[urls.len() - 1]));
        lemma_lines_continue(url_list(less), url);
        let text = url_list(less) + url;
        assert(lines(text) =~= less.push(url)) by {
            assert(less.push(seq![]).drop_last() =~= less);
            assert(less.push(seq![]).last() + url =~= url);
        }
        assert(less.push(url) =~= urls);
        assert((text + seq!['\n']).drop_last() =~= text);
    }
}

proof fn lemma_trimmed_entry(url: Seq<char>)
    requires
        is_list_entry(url),
    ensures
        trimmed(url) == url,
{
}

proof fn lemma_entries_of_entries(urls: Seq<Seq<char>>)
    requires
        forall|i: int| 0 <= i < urls.len() ==> is_list_entry(#[trigger] urls[i]),
    ensures
        entries(urls) == urls,
    decreases urls.len(),
{
    reveal(Seq::filter);
    if urls.len() == 0 {
        assert(entries(urls) =~= urls);
    } else {
        let less = urls.drop_last();
        assert forall|i: int| 0 <= i < less.len() implies is_list_entry(#[trigger] less[i]) by {
            assert(less[i] == urls[i]);
        }
        lemma_entries_of_entries(less);
        assert(is_list_entry(urls[urls.len() - 1]));
        lemma_trimmed_entry(urls.last());
        lemma_entries_push(less, urls.last());
        assert(less.push(urls.last()) =~= urls);
    }
}

/// A list file gives back the URLs that were written to it, in their order.
pub proof fn law_read_gives_back_what_was_written(urls: Seq<Seq<char>>)
    requires
        forall|i: int| 0 <= i < urls.len() ==> is_list_entry(#[trigger] urls[i]),
    ensures
        listed_urls(url_list(urls)) == urls,
{
    lemma_lines_of_list(urls);
    lemma_entries_of_entries(urls);
    lemma_entries_push(urls, seq![]);
    assert(trimmed(seq![]) =~= seq![]);
}

proof fn lemma_lines_hold_no_newline(text: Seq<char>)
    ensures
        forall|i: int| 0 <= i < lines(text).len() ==> !(#[trigger] lines(text)[i]).contains('\n'),
    decreases text.len(),
{
    if text.len() > 0 {
        let less = text.drop_last();
        lemma_lines_len(less);
        lemma_lines_hold_no_newline(less);
        let before = lines(less);
        assert forall|i: int| 0 <= i < lines(text).len() implies !(#[trigger] lines(
            text,
        )[i]).contains('\n') by {
            if text.last() != '\n' && i == before.len() - 1 {
                let line = lines(text)[i];
                assert(line == before[i].push(text.last()));
                if line.contains('\n') {
                    let j = choose|j: int| 0 <= j < line.len() && line[j] == '\n';
                    assert(before[i][j] == '\n');
                }
            } else if i < before.len() {
                assert(lines(text)[i] == before[i]);
            }
        }
    }
}

proof fn lemma_trimmed_start(text: Seq<char>)
    ensures
        trimmed_start(text).len() <= text.len(),
        trimmed_start(text) == text.skip(text.len() - trimmed_start(text).len()),
        trimmed_start(text).len() > 0 ==> !is_white_space(trimmed_start(text)[0]),
    decreases text.len(),
{
    if text.len() > 0 && is_white_space(text[0]) {
        lemma_trimmed_start(text.skip(1));
    }
    assert(trimmed_start(text) =~= text.skip(text.len() - trimmed_start(text).len()));
}

proof fn lemma_trimmed_end(text: Seq<char>)
    ensures
        trimmed_end(text).len() <= text.len(),
        trimmed_end(text) == text.take(trimmed_end(text).len() as int),
        trimmed_end(text).len() > 0 ==> !is_white_space(trimmed_end(text).last()),
    decreases text.len(),
{
    if text.len() > 0 && is_white_space(text.last()) {
        lemma_trimmed_end(text.drop_last());
    }
    assert(trimmed_end(text) =~= text.take(trimmed_end(text).len() as int));
}

proof fn lemma_trimmed_line_is_entry(line: Seq<char>)
    requires
        !line.contains('\n'),
        trimmed(line).len() > 0,
    ensures
        is_list_entry(trimmed(line)),
{
    let rest = trimmed_start(line);
    lemma_trimmed_start(line);
    lemma_trimmed_end(rest);
    let entry = trimmed(line);
    assert(entry[0] == rest[0]);
    if entry.contains('\n') {
        let i = choose|i: int| 0 <= i < entry.len() && entry[i] == '\n';
        assert(line[line.len() - rest.len() + i] == '\n');
    }
}

proof fn lemma_entries_are_entries(lines: Seq<Seq<char>>)
    requires
        forall|i: int| 0 <= i < lines.len() ==> !(#[trigger] lines[i]).contains('\n'),
    ensures
        forall|i: int| 0 <= i < entries(lines).len() ==> is_list_entry(#[trigger] entries(lines)[i]),
    decreases lines.len(),
{
    reveal(Seq::filter);
    if lines.len() > 0 {
        let less = lines.drop_last();
        assert forall|i: int| 0 <= i < less.len() implies !(#[trigger] less[i]).contains('\n') by {
            assert(less[i] == lines[i]);
        }
        lemma_entries_are_entries(less);
        lemma_entries_push(less, lines.last());
        assert(less.push(lines.last()) =~= lines);
        assert(!lines[lines.len() - 1].contains('\n'));
        if trimmed(lines.last()).len() > 0 {
            lemma_trimmed_line_is_entry(lines.last());
            assert forall|i: int| 0 <= i < entries(lines).len() implies is_list_entry(
                #[trigger] entries(lines)[i],
            ) by {
                if i < entries(less).len() {
                    assert(entries(lines)[i] == entries(less)[i]);
                }
            }
        }
    }
}

/// Every URL that is read from a list file, whatever the file holds, can stand
/// in one.
pub proof fn law_read_gives_list_entries(text: Seq<char>)
    ensures
        forall|i: int|
            0 <= i < listed_urls(text).len() ==> is_list_entry(#[trigger] listed_urls(text)[i]),
{
    lemma_lines_hold_no_newline(text);
    lemma_entries_are_entries(lines(text));
}

/// Writing what was read, and reading that, gives the same URLs.
pub proof fn law_rewriting_a_list_keeps_its_urls(text: Seq<char>)
    ensures
        listed_urls(url_list(listed_urls(text))) == listed_urls(text),
{
    law_read_gives_list_entries(text);
    law_read_gives_back_what_was_written(listed_urls(text));
}

proof fn lemma_lines_behind_a_line(first: Seq<char>, rest: Seq<char>)
    requires
        !first.contains('\n'),
    ensures
        lines(first.push('\n') + rest) == seq![first] + lines(rest),
    decreases rest.len(),
{
    let text = first.push('\n') + rest;
    if rest.len() == 0 {
        lemma_lines_continue(seq![], first);
        assert(seq![] + first =~= first);
        assert(lines(seq![]).drop_last() =~= seq![]);
        assert(lines(first) =~= seq![first]);
        assert(text =~= first.push('\n'));
        assert(text.drop_last() =~= first);
        assert(lines(text) =~= seq![first] + lines(rest));
    } else {
        let less = rest.drop_last();
        lemma_lines_behind_a_line(first, less);
        lemma_lines_len(less);
        assert(text.drop_last() =~= first.push('\n') + less);
        assert(lines(text) =~= seq![first] + lines(rest));
    }
}

proof fn lemma_entries_of_two_parts(first: Seq<Seq<char>>, second: Seq<Seq<char>>)
    ensures
        entries(first + second) == entries(first) + entries(second),
    decreases second.len(),
{
    reveal(Seq::filter);
    if second.len() == 0 {
        assert(first + second =~= first);
        assert(entries(first + second) =~= entries(first) + entries(second));
    } else {
        let less = second.drop_last();
        lemma_entries_of_two_parts(first, less);
        lemma_entries_push(first + less, second.last());
        lemma_entries_push(less, second.last());
        assert((first + less).push(second.last()) =~= first + second);
        assert(less.push(second.last()) =~= second);
        assert(entries(first + second) =~= entries(first) + entries(second));
    }
}

/// A list file is read line by line: what one line gives does not depend on the
/// others.
pub proof fn law_list_is_read_line_by_line(first: Seq<char>, rest: Seq<char>)
    requires
        !first.contains('\n'),
    ensures
        listed_urls(first.push('\n') + rest) == listed_urls(first) + listed_urls(rest),
{
    lemma_lines_behind_a_line(first, rest);
    lemma_lines_continue(seq![], first);
    assert(seq![] + first =~= first);
    assert(lines(seq![]).drop_last() =~= seq![]);
    assert(lines(first) =~= seq![first]);
    lemma_entries_of_two_parts(seq![first], lines(rest));
}

/// A line gives what it holds between the white space at its ends, and a line of
/// white space gives nothing.
pub proof fn law_line_gives_what_it_holds(before: Seq<char>, url: Seq<char>, after: Seq<char>)
    requires
        !(before + url + after).contains('\n'),
        forall|i: int| 0 <= i < before.len() ==> is_white_space(#[trigger] before[i]),
        forall|i: int| 0 <= i < after.len() ==> is_white_space(#[trigger] after[i]),
        url.len() > 0 ==> !is_white_space(url[0]) && !is_white_space(url.last()),
    ensures
        url.len() > 0 ==> listed_urls(before + url + after) == seq![url],
        url.len() == 0 ==> listed_urls(before + url + after) == Seq::<Seq<char>>::empty(),
{
    reveal(Seq::filter);
    let line = before + url + after;
    lemma_lines_continue(seq![], line);
    assert(seq![] + line =~= line);
    assert(lines(seq![]).drop_last() =~= seq![]);
    let none = Seq::<Seq<char>>::empty();
    assert(lines(line) =~= none.push(line));
    law_trimming_takes_white_space_off_the_ends(before, url, after);
    lemma_entries_push(none, line);
    assert(entries(none) =~= none);
    assert(none.push(url) =~= seq![url]);
}

/// A list file holds each URL and a newline, in the order of the URLs, and
/// nothing else.
pub proof fn law_list_holds_each_url_and_a_newline(
    first: Seq<Seq<char>>,
    url: Seq<char>,
    rest: Seq<Seq<char>>,
)
    ensures
        url_list(seq![]) == Seq::<char>::empty(),
        url_list(seq![url]) == url.push('\n'),
        url_list(first + rest) == url_list(first) + url_list(rest),
    decreases rest.len(),
{
    let one = seq![url];
    assert(one.drop_last() =~= seq![]);
    assert(url_list(one.drop_last()) == Seq::<char>::empty());
    assert(url_list(one) =~= url.push('\n'));
    if rest.len() == 0 {
        assert(first + rest =~= first);
        assert(url_list(first) + url_list(rest) =~= url_list(first));
    } else {
        law_list_holds_each_url_and_a_newline(first, url, rest.drop_last());
        assert((first + rest).drop_last() =~= first + rest.drop_last());
        assert(url_list(first + rest) =~= url_list(first) + url_list(rest));
    }
}

} // verus!
