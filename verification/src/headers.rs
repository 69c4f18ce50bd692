//! HTTP header maps: what this crate takes from the header types of `reqwest`.

use reqwest::header::{HeaderMap, HeaderValue, InvalidHeaderValue, ToStrError};
use vstd::prelude::*;
use vstd::utf8::encode_utf8;

verus! {

/// Declares [`reqwest::header::HeaderMap`].
#[verifier::external_type_specification]
#[verifier::external_body]
#[verifier::reject_recursive_types(T)]
pub struct ExHeaderMap<T>(reqwest::header::HeaderMap<T>);

/// Declares [`reqwest::header::HeaderValue`].
#[verifier::external_type_specification]
#[verifier::external_body]
pub struct ExHeaderValue(reqwest::header::HeaderValue);

/// Declares [`reqwest::header::InvalidHeaderValue`].
#[verifier::external_type_specification]
#[verifier::external_body]
pub struct ExInvalidHeaderValue(reqwest::header::InvalidHeaderValue);

/// Declares [`reqwest::header::ToStrError`].
#[verifier::external_type_specification]
#[verifier::external_body]
pub struct ExToStrError(reqwest::header::ToStrError);

/// What a header map holds: for each name, in lower case, its values in the
/// order in which they were added.
pub uninterp spec fn header_entries(headers: HeaderMap) -> Map<Seq<char>, Seq<Seq<u8>>>;

/// The bytes that a header value holds.
pub uninterp spec fn header_bytes(value: HeaderValue) -> Seq<u8>;

/// The entries of an empty header map.
pub open spec fn no_headers() -> Map<Seq<char>, Seq<Seq<u8>>> {
    Map::empty()
}

/// A character that a header value may hold: a tab, or anything from the space
/// on but DEL.
pub open spec fn is_header_char(c: char) -> bool {
    c == '\t' || (c >= ' ' && c != '\x7f')
}

pub open spec fn is_header_text(text: Seq<char>) -> bool {
    forall|i: int| 0 <= i < text.len() ==> is_header_char(#[trigger] text[i])
}

/// A header name that stands for itself: lower-case letters and hyphens.
pub open spec fn is_header_name(name: Seq<char>) -> bool {
    &&& 0 < name.len() <= 64
    &&& forall|i: int|
        0 <= i < name.len() ==> (#[trigger] name[i] == '-' || 'a' <= name[i] <= 'z')
}

/// Bytes that read as text: printable ASCII and tabs.
pub open spec fn is_visible(bytes: Seq<u8>) -> bool {
    forall|i: int| 0 <= i < bytes.len() ==> (#[trigger] bytes[i] == 9 || 32 <= bytes[i] < 127)
}

/// ASCII bytes as characters.
pub open spec fn ascii_text(bytes: Seq<u8>) -> Seq<char> {
    bytes.map_values(|b: u8| b as char)
}

/// The text of the first value under `name`, where there is one and it reads
/// as text.
pub open spec fn header_text(entries: Map<Seq<char>, Seq<Seq<u8>>>, name: Seq<char>) -> Option<
    Seq<char>,
> {
    if entries.contains_key(name) && is_visible(entries[name][0]) {
        Some(ascii_text(entries[name][0]))
    } else {
        None
    }
}

/// [`HeaderMap::new`] makes a map without headers.
pub assume_specification[ HeaderMap::new ]() -> (headers: HeaderMap)
    ensures
        header_entries(headers) == no_headers(),
;

/// [`HeaderValue::from_str`] takes a text just when each of its bytes may stand
/// in a header, and then holds its UTF-8 bytes. Every byte of a character
/// beyond ASCII may.
pub assume_specification[ HeaderValue::from_str ](src: &str) -> (parsed: Result<
    HeaderValue,
    InvalidHeaderValue,
>)
    ensures
        parsed is Ok <==> is_header_text(src@),
        parsed matches Ok(value) ==> header_bytes(value) == encode_utf8(src@),
;

/// [`HeaderValue::to_str`] gives the value as text just when all of its bytes
/// are printable ASCII or tabs.
pub assume_specification[ HeaderValue::to_str ](value: &HeaderValue) -> (text: Result<
    &str,
    ToStrError,
>)
    ensures
        text is Ok <==> is_visible(header_bytes(*value)),
        text matches Ok(t) ==> t@ == ascii_text(header_bytes(*value)),
;

/// Calls [`HeaderMap::insert`]: afterwards `name` has this one value, whatever
/// it had before, and the other names have what they had. The call panics on
/// a name that is no header name, and where the table would grow past its
/// limit, which takes many thousands of names.
#[verifier::external_body]
pub(crate) fn insert_header(headers: &mut HeaderMap, name: &'static str, value: HeaderValue)
    requires
        is_header_name(name@),
        header_entries(*old(headers)).dom().finite(),
        header_entries(*old(headers)).dom().len() < 1000,
    ensures
        header_entries(*final(headers)) == header_entries(*old(headers)).insert(
            name@,
            seq![header_bytes(value)],
        ),
{
    headers.insert(name, value);
}

/// Calls [`HeaderMap::contains_key`], which tells whether the map has a value
/// under `name`.
#[verifier::external_body]
pub(crate) fn has_header(headers: &HeaderMap, name: &str) -> (present: bool)
    requires
        is_header_name(name@),
    ensures
        present == header_entries(*headers).contains_key(name@),
{
    headers.contains_key(name)
}

/// Calls [`HeaderMap::get`], which gives the first value under `name`, where
/// there is one.
#[verifier::external_body]
pub(crate) fn get_header<'a>(headers: &'a HeaderMap, name: &str) -> (found: Option<&'a HeaderValue>)
    requires
        is_header_name(name@),
    ensures
        found is Some <==> header_entries(*headers).contains_key(name@),
        found matches Some(value) ==> header_entries(*headers)[name@].len() > 0
            && header_bytes(*value) == header_entries(*headers)[name@][0],
{
    headers.get(name)
}

/// The text of the first value under `name`, where it reads as text.
pub fn header_str<'a>(headers: &'a HeaderMap, name: &str) -> (text: Option<&'a str>)
    requires
        is_header_name(name@),
    ensures
        text is Some <==> header_text(header_entries(*headers), name@) is Some,
        text matches Some(t) ==> header_text(header_entries(*headers), name@) == Some(t@),
{
    match get_header(headers, name) {
        Some(value) => match value.to_str() {
            Ok(text) => Some(text),
            Err(_) => None,
        },
        None => None,
    }
}

/// A header has a text just where its first value is printable ASCII, and then
/// the text is that value, byte by byte.
pub proof fn law_header_text_is_the_first_value(
    entries: Map<Seq<char>, Seq<Seq<u8>>>,
    name: Seq<char>,
)
    ensures
        header_text(entries, name) is Some <==> entries.contains_key(name) && (forall|i: int|
            0 <= i < entries[name][0].len() ==> (#[trigger] entries[name][0][i] == 9 || 32
                <= entries[name][0][i] < 127)),
        header_text(entries, name) matches Some(text) ==> text.len() == entries[name][0].len() && (
        forall|i: int|
            0 <= i < text.len() ==> #[trigger] text[i] as int == entries[name][0][i] as int),
{
}

} // verus!
