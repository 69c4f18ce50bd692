//! Text as sequences of characters: decimal numbers, white space, path
//! segments.

use vstd::arithmetic::div_mod::lemma_div_denominator;
use vstd::arithmetic::power::{lemma_pow_positive, pow};
use vstd::prelude::*;
use vstd::string::*;

verus! {

/// The character of the decimal digit `d`.
pub open spec fn digit(d: nat) -> char
    recommends
        d < 10,
{
    (('0' as nat) + d) as char
}

/// `n` in decimal, without leading zeros.
pub open spec fn decimal(n: nat) -> Seq<char>
    decreases n,
{
    if n < 10 {
        seq![digit(n)]
    } else {
        decimal(n / 10).push(digit(n % 10))
    }
}

pub open spec fn is_digit(c: char) -> bool {
    '0' <= c <= '9'
}

pub open spec fn all_digits(text: Seq<char>) -> bool {
    forall|i: int| 0 <= i < text.len() ==> is_digit(#[trigger] text[i])
}

/// The number that the decimal digits `text` stand for.
pub open spec fn digits_value(text: Seq<char>) -> nat
    decreases text.len(),
{
    if text.len() == 0 {
        0
    } else {
        digits_value(text.drop_last()) * 10 + (text.last() as nat - '0' as nat) as nat
    }
}

/// `text` without one leading plus sign.
pub open spec fn without_plus(text: Seq<char>) -> Seq<char> {
    if text.len() > 0 && text[0] == '+' {
        text.skip(1)
    } else {
        text
    }
}

/// The number that `text` denotes: an optional plus sign, then one or more
/// digits, of a value that fits in 64 bits.
pub open spec fn parsed_u64(text: Seq<char>) -> Option<u64> {
    let digits = without_plus(text);
    if digits.len() > 0 && all_digits(digits) && digits_value(digits) <= u64::MAX {
        Some(digits_value(digits) as u64)
    } else {
        None
    }
}

/// Unicode's `White_Space` property.
pub open spec fn is_white_space(c: char) -> bool {
    ||| '\u{9}' <= c <= '\u{d}'
    ||| c == ' '
    ||| c == '\u{85}'
    ||| c == '\u{a0}'
    ||| c == '\u{1680}'
    ||| '\u{2000}' <= c <= '\u{200a}'
    ||| c == '\u{2028}'
    ||| c == '\u{2029}'
    ||| c == '\u{202f}'
    ||| c == '\u{205f}'
    ||| c == '\u{3000}'
}

/// `text` without the white space at its start.
pub open spec fn trimmed_start(text: Seq<char>) -> Seq<char>
    decreases text.len(),
{
    if text.len() > 0 && is_white_space(text[0]) {
        trimmed_start(text.skip(1))
    } else {
        text
    }
}

/// `text` without the white space at its end.
pub open spec fn trimmed_end(text: Seq<char>) -> Seq<char>
    decreases text.len(),
{
    if text.len() > 0 && is_white_space(text.last()) {
        trimmed_end(text.drop_last())
    } else {
        text
    }
}

/// `text` without the white space at either end.
pub open spec fn trimmed(text: Seq<char>) -> Seq<char> {
    trimmed_end(trimmed_start(text))
}

pub open spec fn has_suffix(text: Seq<char>, suffix: Seq<char>) -> bool {
    &&& suffix.len() <= text.len()
    &&& text.skip(text.len() - suffix.len()) == suffix
}

/// What follows the last slash of `text`; all of `text` where it has none.
pub open spec fn last_segment(text: Seq<char>) -> Seq<char>
    decreases text.len(),
{
    if text.len() == 0 || text.last() == '/' {
        seq![]
    } else {
        last_segment(text.drop_last()).push(text.last())
    }
}

/// `text` with every space turned into a plus sign.
pub open spec fn plus_for_space(text: Seq<char>) -> Seq<char> {
    text.map_values(|c: char| if c == ' ' { '+' } else { c })
}

/// The texts that `strings` hold.
pub open spec fn texts(strings: Seq<String>) -> Seq<Seq<char>> {
    strings.map_values(|s: String| s@)
}

/// [`String::push`] appends its argument to the string.
pub assume_specification[ String::push ](text: &mut String, ch: char)
    ensures
        final(text)@ == old(text)@.push(ch),
;

fn digit_char(d: u8) -> (c: char)
    requires
        d < 10,
    ensures
        c == digit(d as nat),
{
    (48 + d) as char
}

pub fn decimal_text(n: u64) -> (text: String)
    ensures
        text@ == decimal(n as nat),
        text@.len() > 0,
        forall|i: int| 0 <= i < text@.len() ==> '0' <= #[trigger] text@[i] <= '9',
    decreases n,
{
    let mut text = if n < 10 {
        String::new()
    } else {
        decimal_text(n / 10)
    };
    text.push(digit_char((n % 10) as u8));
    proof {
        law_decimal_is_read_back(n as nat);
        assert forall|i: int| 0 <= i < text@.len() implies '0' <= #[trigger] text@[i] <= '9' by {
            assert(is_digit(decimal(n as nat)[i]));
        }
    }
    text
}

/// The characters of `text`.
pub fn characters(text: &str) -> (chars: Vec<char>)
    ensures
        chars@ == text@,
{
    let mut chars: Vec<char> = Vec::new();
    for c in it: text.chars()
        invariant
            it.seq() == text@,
            chars@ == text@.take(it.index() as int),
    {
        chars.push(c);
    }
    assert(text@.take(text@.len() as int) =~= text@);
    chars
}

/// The characters of `chars` from `start` up to `end`, as a string.
pub fn string_of(chars: &Vec<char>, start: usize, end: usize) -> (text: String)
    requires
        start <= end <= chars@.len(),
    ensures
        text@ == chars@.subrange(start as int, end as int),
{
    let mut text = String::new();
    let mut i: usize = start;
    while i < end
        invariant
            start <= i <= end <= chars@.len(),
            text@ == chars@.subrange(start as int, i as int),
        decreases end - i,
    {
        text.push(chars[i]);
        i = i + 1;
    }
    text
}

proof fn lemma_digits_value_prefix(text: Seq<char>, n: int)
    requires
        0 <= n <= text.len(),
    ensures
        digits_value(text.take(n)) <= digits_value(text),
    decreases text.len() - n,
{
    if n < text.len() {
        lemma_digits_value_prefix(text, n + 1);
        assert(text.take(n + 1).drop_last() =~= text.take(n));
    } else {
        assert(text.take(n) =~= text);
    }
}

/// Parses an unsigned number: an optional plus sign and decimal digits.
pub fn parse_u64(text: &str) -> (number: Option<u64>)
    ensures
        number == parsed_u64(text@),
{
    let chars = characters(text);
    let start: usize = if chars.len() > 0 && chars[0] == '+' {
        1
    } else {
        0
    };
    let ghost digits = without_plus(text@);
    assert(digits =~= chars@.skip(start as int));
    if chars.len() == start {
        return None;
    }
    let mut value: u64 = 0;
    let mut i: usize = start;
    while i < chars.len()
        invariant
            start <= i <= chars@.len(),
            digits == without_plus(text@),
            digits == chars@.skip(start as int),
            all_digits(digits.take(i - start)),
            value == digits_value(digits.take(i - start)),
        decreases chars@.len() - i,
    {
        let c = chars[i];
        assert(digits[i - start] == c);
        if c < '0' || c > '9' {
            assert(!is_digit(digits[i - start]));
            return None;
        }
        let d: u64 = c as u64 - 48;
        let ghost longer = digits.take(i - start + 1);
        proof {
            assert(longer.drop_last() =~= digits.take(i - start));
            assert(digits_value(longer) == value * 10 + d);
            lemma_digits_value_prefix(digits, i - start + 1);
        }
        if value > u64::MAX / 10 || value * 10 > u64::MAX - d {
            return None;
        }
        value = value * 10 + d;
        i = i + 1;
    }
    assert(digits.take(i - start) =~= digits);
    Some(value)
}

fn white_space(c: char) -> (yes: bool)
    ensures
        yes == is_white_space(c),
{
    ('\u{9}' <= c && c <= '\u{d}') || c == ' ' || c == '\u{85}' || c == '\u{a0}' || c == '\u{1680}'
        || ('\u{2000}' <= c && c <= '\u{200a}') || c == '\u{2028}' || c == '\u{2029}' || c
        == '\u{202f}' || c == '\u{205f}' || c == '\u{3000}'
}

/// The text `chars` without the white space at either end.
pub fn trim(chars: &Vec<char>) -> (text: String)
    ensures
        text@ == trimmed(chars@),
{
    let mut start: usize = 0;
    assert(chars@.skip(0) =~= chars@);
    while start < chars.len() && white_space(chars[start])
        invariant
            start <= chars@.len(),
            trimmed_start(chars@.skip(start as int)) == trimmed_start(chars@),
        decreases chars@.len() - start,
    {
        assert(chars@.skip(start as int).skip(1) =~= chars@.skip(start + 1));
        start = start + 1;
    }
    let ghost rest = chars@.skip(start as int);
    assert(trimmed_start(chars@) == rest);
    let mut end: usize = chars.len();
    assert(chars@.subrange(start as int, end as int) =~= rest);
    while start < end && white_space(chars[end - 1])
        invariant
            start <= end <= chars@.len(),
            trimmed_end(chars@.subrange(start as int, end as int)) == trimmed_end(rest),
        decreases end,
    {
        assert(chars@.subrange(start as int, end as int).drop_last() =~= chars@.subrange(
            start as int,
            end - 1,
        ));
        end = end - 1;
    }
    string_of(chars, start, end)
}

pub fn ends_with(text: &str, suffix: &str) -> (yes: bool)
    ensures
        yes == has_suffix(text@, suffix@),
        yes <==> suffix@.len() <= text@.len() && text@ == text@.take(
            text@.len() - suffix@.len(),
        ) + suffix@,
{
    proof {
        law_suffix_is_what_a_text_ends_in(text@, suffix@);
        if suffix@.len() <= text@.len() {
            law_suffix_is_what_a_text_ends_in(text@.take(text@.len() - suffix@.len()), suffix@);
        }
    }
    let len = text.unicode_len();
    let tail_len = suffix.unicode_len();
    if tail_len > len {
        return false;
    }
    let tail = text.substring_char(len - tail_len, len).to_owned();
    assert(tail@ =~= text@.skip(text@.len() - suffix@.len()));
    tail == suffix.to_owned()
}

/// What follows the last slash of `text`.
pub fn segment(text: &str) -> (last: String)
    ensures
        last@ == last_segment(text@),
        !last@.contains('/'),
        text@ == text@.take(text@.len() - last@.len()) + last@,
        last@.len() == text@.len() || text@[text@.len() - last@.len() - 1] == '/',
{
    proof {
        law_last_segment_is_the_longest_tail_without_slash(text@);
        law_suffix_is_what_a_text_ends_in(text@, last_segment(text@));
    }
    let mut last = String::new();
    for c in it: text.chars()
        invariant
            it.seq() == text@,
            last@ == last_segment(text@.take(it.index() as int)),
    {
        assert(text@.take(it.index() + 1).drop_last() =~= text@.take(it.index() as int));
        if c == '/' {
            last = String::new();
        } else {
            last.push(c);
        }
    }
    assert(text@.take(text@.len() as int) =~= text@);
    last
}

/// `text` with every space turned into a plus sign.
pub fn spaces_to_plus(text: &str) -> (out: String)
    ensures
        out@ == plus_for_space(text@),
        out@.len() == text@.len(),
        forall|i: int|
            0 <= i < text@.len() ==> #[trigger] out@[i] == if text@[i] == ' ' {
                '+'
            } else {
                text@[i]
            },
{
    let mut out = String::new();
    for c in it: text.chars()
        invariant
            it.seq() == text@,
            out@ == plus_for_space(text@.take(it.index() as int)),
    {
        out.push(if c == ' ' { '+' } else { c });
        assert(out@ =~= plus_for_space(text@.take(it.index() + 1)));
    }
    assert(text@.take(text@.len() as int) =~= text@);
    out
}

/// Decimal digits are read back as the number that they were written for.
pub proof fn law_decimal_is_read_back(n: nat)
    ensures
        decimal(n).len() > 0,
        all_digits(decimal(n)),
        digits_value(decimal(n)) == n,
        n <= u64::MAX ==> parsed_u64(decimal(n)) == Some(n as u64),
    decreases n,
{
    if n >= 10 {
        law_decimal_is_read_back(n / 10);
        assert(decimal(n).drop_last() =~= decimal(n / 10));
    } else {
        assert(decimal(n).drop_last() =~= seq![]);
        assert(digits_value(seq![]) == 0);
    }
    assert(is_digit(decimal(n)[0]));
}

/// The last segment does not depend on what precedes a slash.
pub proof fn law_last_segment_after_slash(base: Seq<char>, rest: Seq<char>)
    ensures
        last_segment(base.push('/') + rest) == last_segment(rest),
    decreases rest.len(),
{
    let text = base.push('/') + rest;
    if rest.len() == 0 {
        assert(text =~= base.push('/'));
    } else {
        law_last_segment_after_slash(base, rest.drop_last());
        assert(text.drop_last() =~= base.push('/') + rest.drop_last());
    }
}

/// The last segment is free of slashes, and all that follows the last one.
pub proof fn law_last_segment_is_the_longest_tail_without_slash(text: Seq<char>)
    ensures
        !last_segment(text).contains('/'),
        has_suffix(text, last_segment(text)),
        last_segment(text).len() < text.len() ==> text[text.len() - last_segment(text).len() - 1]
            == '/',
    decreases text.len(),
{
    let last = last_segment(text);
    if text.len() > 0 && text.last() != '/' {
        let before = last_segment(text.drop_last());
        law_last_segment_is_the_longest_tail_without_slash(text.drop_last());
        assert(text.drop_last().skip(text.len() - 1 - before.len()) == before);
        assert forall|i: int| 0 <= i < before.len() implies before[i] == text[text.len()
            - last.len() + i] by {
            assert(text.drop_last().skip(text.len() - 1 - before.len())[i] == before[i]);
        }
        if last.contains('/') {
            let i = choose|i: int| 0 <= i < last.len() && last[i] == '/';
            assert(before[i] == '/');
        }
    }
    assert(text.skip(text.len() - last.len()) =~= last);
}

/// The decimal digits of a number are its own, place by place, and there is no
/// leading zero.
pub proof fn law_decimal_has_the_digits_of_the_number(n: nat)
    ensures
        decimal(n).len() > 0,
        n < pow(10, decimal(n).len()),
        decimal(n).len() > 1 ==> pow(10, (decimal(n).len() - 1) as nat) <= n,
        forall|i: int|
            0 <= i < decimal(n).len() ==> #[trigger] decimal(n)[i] as int == '0' as int + (n as int
                / pow(10, (decimal(n).len() - 1 - i) as nat)) % 10,
    decreases n,
{
    reveal(pow);
    let len = decimal(n).len();
    assert(pow(10, 0) == 1);
    if n < 10 {
        assert(pow(10, 1) == 10 * pow(10, 0));
        assert(len == 1);
        assert(n as int / 1 == n);
        assert(decimal(n)[0] as int == '0' as int + (n as int / pow(10, 0)) % 10);
    } else {
        let tens = n / 10;
        law_decimal_has_the_digits_of_the_number(tens);
        assert(decimal(tens).len() == len - 1);
        assert(pow(10, len) == 10 * pow(10, (len - 1) as nat));
        if len > 2 {
            assert(pow(10, (len - 1) as nat) == 10 * pow(10, (len - 2) as nat));
        } else {
            assert(pow(10, 1) == 10 * pow(10, 0));
        }
        assert forall|i: int| 0 <= i < len implies #[trigger] decimal(n)[i] as int == '0' as int + (
        n as int / pow(10, (len - 1 - i) as nat)) % 10 by {
            if i < len - 1 {
                let e = (len - 2 - i) as nat;
                assert(decimal(n)[i] == decimal(tens)[i]);
                lemma_pow_positive(10, e);
                lemma_div_denominator(n as int, 10, pow(10, e));
                assert(pow(10, (len - 1 - i) as nat) == 10 * pow(10, e));
            }
        }
    }
}

/// Digits without a leading zero are the decimal digits of the number that they
/// stand for.
pub proof fn law_digits_are_those_of_their_value(text: Seq<char>)
    requires
        text.len() > 0,
        forall|i: int| 0 <= i < text.len() ==> '0' <= #[trigger] text[i] <= '9',
        text.len() > 1 ==> text[0] != '0',
    ensures
        decimal(digits_value(text)) == text,
    decreases text.len(),
{
    let less = text.drop_last();
    assert('0' <= text[text.len() - 1] <= '9');
    if text.len() == 1 {
        assert(digits_value(less) == 0);
        assert(decimal(digits_value(text)) =~= text);
    } else {
        assert forall|i: int| 0 <= i < less.len() implies '0' <= #[trigger] less[i] <= '9' by {
            assert(less[i] == text[i]);
        }
        law_digits_are_those_of_their_value(less);
        let tens = digits_value(less);
        if tens == 0 {
            assert(decimal(0)[0] == '0');
            assert(less[0] == text[0]);
        }
        assert(digits_value(text) / 10 == tens);
        assert(less.push(text.last()) =~= text);
    }
}

/// Leading zeros do not change the number that digits stand for.
pub proof fn law_leading_zero_changes_no_value(text: Seq<char>)
    ensures
        digits_value(seq!['0'] + text) == digits_value(text),
    decreases text.len(),
{
    let longer = seq!['0'] + text;
    if text.len() == 0 {
        assert(longer.drop_last() =~= seq![]);
        assert(digits_value(seq![]) == 0);
    } else {
        law_leading_zero_changes_no_value(text.drop_last());
        assert(longer.drop_last() =~= seq!['0'] + text.drop_last());
    }
}

/// `n` in decimal behind `zeros` zeros.
pub open spec fn padded(zeros: nat, n: nat) -> Seq<char> {
    Seq::new(zeros, |i: int| '0') + decimal(n)
}

proof fn lemma_padded(zeros: nat, n: nat)
    ensures
        padded(zeros, n).len() > 0,
        all_digits(padded(zeros, n)),
        digits_value(padded(zeros, n)) == n,
    decreases zeros,
{
    law_decimal_is_read_back(n);
    if zeros == 0 {
        assert(padded(zeros, n) =~= decimal(n));
    } else {
        let fewer = (zeros - 1) as nat;
        lemma_padded(fewer, n);
        law_leading_zero_changes_no_value(padded(fewer, n));
        assert(padded(zeros, n) =~= seq!['0'] + padded(fewer, n));
    }
}

/// A number in decimal is parsed, with leading zeros and with a plus sign too.
pub proof fn law_number_is_parsed(zeros: nat, n: u64)
    ensures
        parsed_u64(padded(zeros, n as nat)) == Some(n),
        parsed_u64(seq!['+'] + padded(zeros, n as nat)) == Some(n),
{
    let text = padded(zeros, n as nat);
    lemma_padded(zeros, n as nat);
    assert(is_digit(text[0]));
    assert((seq!['+'] + text).skip(1) =~= text);
}

proof fn lemma_digits_are_padded(text: Seq<char>) -> (zeros: nat)
    requires
        text.len() > 0,
        all_digits(text),
    ensures
        text == padded(zeros, digits_value(text)),
    decreases text.len(),
{
    assert(forall|i: int| 0 <= i < text.len() ==> is_digit(#[trigger] text[i]));
    if text.len() == 1 || text[0] != '0' {
        law_digits_are_those_of_their_value(text);
        assert(text =~= padded(0, digits_value(text)));
        0
    } else {
        let rest = text.skip(1);
        assert forall|i: int| 0 <= i < rest.len() implies is_digit(#[trigger] rest[i]) by {
            assert(rest[i] == text[i + 1]);
        }
        let zeros = lemma_digits_are_padded(rest);
        law_leading_zero_changes_no_value(rest);
        assert(text =~= seq!['0'] + rest);
        assert(text =~= padded(zeros + 1, digits_value(text)));
        zeros + 1
    }
}

/// Nothing is parsed but a number in decimal, with or without leading zeros and
/// a plus sign.
pub proof fn law_only_numbers_are_parsed(text: Seq<char>)
    requires
        parsed_u64(text) is Some,
    ensures
        exists|zeros: nat|
            text == #[trigger] padded(zeros, parsed_u64(text)->0 as nat) || text == seq!['+']
                + padded(zeros, parsed_u64(text)->0 as nat),
{
    let digits = without_plus(text);
    let zeros = lemma_digits_are_padded(digits);
    assert(digits == padded(zeros, parsed_u64(text)->0 as nat));
    if digits != text {
        assert(text =~= seq!['+'] + digits);
    }
}

/// Trimming takes the white space off both ends, and nothing else.
pub proof fn law_trimming_takes_white_space_off_the_ends(
    before: Seq<char>,
    text: Seq<char>,
    after: Seq<char>,
)
    requires
        forall|i: int| 0 <= i < before.len() ==> is_white_space(#[trigger] before[i]),
        forall|i: int| 0 <= i < after.len() ==> is_white_space(#[trigger] after[i]),
        text.len() > 0 ==> !is_white_space(text[0]) && !is_white_space(text.last()),
    ensures
        trimmed(before + text + after) == text,
{
    let whole = before + text + after;
    if text.len() > 0 {
        lemma_trimmed_start_behind(before, text + after);
        assert(before + (text + after) =~= whole);
        assert((text + after)[0] == text[0]);
        lemma_trimmed_end_before(text, after);
    } else {
        assert forall|i: int| 0 <= i < whole.len() implies is_white_space(#[trigger] whole[i]) by {
            if i < before.len() {
                assert(whole[i] == before[i]);
            } else {
                assert(whole[i] == after[i - before.len()]);
            }
        }
        lemma_trimmed_start_behind(whole, seq![]);
        assert(whole + seq![] =~= whole);
        assert(text =~= seq![]);
    }
}

proof fn lemma_trimmed_start_behind(before: Seq<char>, text: Seq<char>)
    requires
        forall|i: int| 0 <= i < before.len() ==> is_white_space(#[trigger] before[i]),
    ensures
        trimmed_start(before + text) == trimmed_start(text),
    decreases before.len(),
{
    if before.len() > 0 {
        let rest = before.skip(1);
        assert forall|i: int| 0 <= i < rest.len() implies is_white_space(#[trigger] rest[i]) by {
            assert(rest[i] == before[i + 1]);
        }
        lemma_trimmed_start_behind(rest, text);
        assert((before + text)[0] == before[0]);
        assert((before + text).skip(1) =~= rest + text);
    } else {
        assert(before + text =~= text);
    }
}

proof fn lemma_trimmed_end_before(text: Seq<char>, after: Seq<char>)
    requires
        forall|i: int| 0 <= i < after.len() ==> is_white_space(#[trigger] after[i]),
    ensures
        trimmed_end(text + after) == trimmed_end(text),
    decreases after.len(),
{
    if after.len() > 0 {
        let less = after.drop_last();
        assert forall|i: int| 0 <= i < less.len() implies is_white_space(#[trigger] less[i]) by {
            assert(less[i] == after[i]);
        }
        lemma_trimmed_end_before(text, less);
        assert((text + after).last() == after[after.len() - 1]);
        assert((text + after).drop_last() =~= text + less);
    } else {
        assert(text + after =~= text);
    }
}

/// A text has as suffixes just what it ends in.
pub proof fn law_suffix_is_what_a_text_ends_in(text: Seq<char>, suffix: Seq<char>)
    ensures
        has_suffix(text + suffix, suffix),
        has_suffix(text, suffix) ==> suffix.len() <= text.len() && text == text.take(
            text.len() - suffix.len(),
        ) + suffix,
{
    assert((text + suffix).skip(text.len() as int) =~= suffix);
    if has_suffix(text, suffix) {
        let cut = text.len() - suffix.len();
        assert(text =~= text.take(cut) + text.skip(cut));
    }
}

/// What holds no slash is its own last segment, alone and behind a slash.
pub proof fn law_last_segment_is_all_that_follows_the_last_slash(base: Seq<char>, rest: Seq<char>)
    requires
        !rest.contains('/'),
    ensures
        last_segment(rest) == rest,
        last_segment(base.push('/') + rest) == rest,
    decreases rest.len(),
{
    law_last_segment_after_slash(base, rest);
    if rest.len() > 0 {
        let less = rest.drop_last();
        assert(rest[rest.len() - 1] == rest.last());
        assert(!less.contains('/')) by {
            if less.contains('/') {
                let i = choose|i: int| 0 <= i < less.len() && less[i] == '/';
                assert(rest[i] == '/');
            }
        }
        law_last_segment_is_all_that_follows_the_last_slash(base, less);
        assert(less.push(rest.last()) =~= rest);
    } else {
        assert(last_segment(rest) =~= rest);
    }
}

/// Place by place the text stays as it is, but for its spaces, which become plus
/// signs.
pub proof fn law_only_spaces_become_plus_signs(text: Seq<char>)
    ensures
        plus_for_space(text).len() == text.len(),
        forall|i: int|
            0 <= i < text.len() && text[i] != ' ' ==> #[trigger] plus_for_space(text)[i] == text[i],
        forall|i: int|
            0 <= i < text.len() && text[i] == ' ' ==> #[trigger] plus_for_space(text)[i] == '+',
{
}

/// The texts of strings are theirs, one by one.
pub proof fn law_texts_are_those_of_the_strings(strings: Seq<String>)
    ensures
        texts(strings).len() == strings.len(),
        forall|i: int| 0 <= i < strings.len() ==> #[trigger] texts(strings)[i] == strings[i]@,
{
}

} // verus!
