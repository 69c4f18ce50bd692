//! From the options of a command to the client that serves it.

use crate::api::{client_headers, cookie_text, ClientError, Pr0grammClient};
use crate::headers::{header_entries, is_header_text};
use crate::text::{decimal, law_only_spaces_become_plus_signs, plus_for_space, spaces_to_plus};
use vstd::prelude::*;
use vstd::string::*;

verus! {

/// The text of an option, empty where it is not given.
pub open spec fn text_or_empty(option: Option<String>) -> Seq<char> {
    match option {
        Some(text) => text@,
        None => seq![],
    }
}

/// The query that selects the posts of a user, the favourites of a user, or the
/// posts with certain tags. A user goes before tags, and without either all
/// posts are selected.
pub open spec fn selection(user: Option<String>, tags: Option<String>, favourites: bool) -> Seq<
    char,
> {
    match (user, tags) {
        (Some(u), _) => if favourites {
            "&user="@ + u@ + "&collection=favoriten&self=true"@
        } else {
            "&user="@ + u@
        },
        (None, Some(t)) => "&tags="@ + plus_for_space(t@),
        (None, None) => seq![],
    }
}

/// The query that selects what the options ask for.
pub fn build_arg(user: Option<String>, tags: Option<String>, favourites: bool) -> (arg: String)
    ensures
        arg@ == selection(user, tags, favourites),
{
    if let Some(u) = user {
        let mut arg = "&user=".to_owned();
        arg.append(u.as_str());
        if favourites {
            arg.append("&collection=favoriten&self=true");
        }
        arg
    } else if let Some(t) = tags {
        let mut arg = "&tags=".to_owned();
        arg.append(spaces_to_plus(t.as_str()).as_str());
        arg
    } else {
        String::new()
    }
}

fn or_empty(option: Option<String>) -> (text: String)
    ensures
        text@ == text_or_empty(option),
{
    match option {
        Some(text) => text,
        None => String::new(),
    }
}

/// The client that fetches the URLs that the options ask for. A session cookie
/// that is not given is sent empty.
pub fn fetch_urls(
    user: Option<String>,
    tags: Option<String>,
    favourites: bool,
    flags: u8,
    pp: Option<String>,
    me: Option<String>,
) -> (client: Result<Pr0grammClient, ClientError>)
    ensures
        client is Ok <==> is_header_text(cookie_text(text_or_empty(pp), text_or_empty(me))),
        client matches Ok(c) ==> {
            &&& header_entries(c.headers) == client_headers(
                cookie_text(text_or_empty(pp), text_or_empty(me)),
            )
            &&& c.flags@ == decimal(flags as nat)
            &&& c.arg@ == selection(user, tags, favourites)
        },
        client matches Err(e) ==> e == ClientError::InvalidCookie,
{
    Pr0grammClient::new(flags, build_arg(user, tags, favourites), or_empty(pp), or_empty(me))
}

/// No space of the tags reaches the query.
pub proof fn law_tags_are_sent_without_spaces(tags: Seq<char>)
    ensures
        plus_for_space(tags).len() == tags.len(),
        !plus_for_space(tags).contains(' '),
{
}

/// Place by place the tags reach the query as they were given, but for their
/// spaces.
pub proof fn law_tags_reach_the_query(tags: String, favourites: bool)
    ensures
        ({
            let arg = selection(None, Some(tags), favourites);
            &&& arg.len() == 6 + tags@.len()
            &&& arg.take(6) == "&tags="@
            &&& forall|i: int|
                0 <= i < tags@.len() ==> (#[trigger] tags@[i] != ' ' ==> arg[6 + i] == tags@[i]) && (
                tags@[i] == ' ' ==> arg[6 + i] == '+')
        }),
{
    reveal_strlit("&tags=");
    law_only_spaces_become_plus_signs(tags@);
    let arg = selection(None, Some(tags), favourites);
    assert(arg.take(6) =~= "&tags="@);
    assert forall|i: int| 0 <= i < tags@.len() implies (#[trigger] tags@[i] != ' ' ==> arg[6 + i]
        == tags@[i]) && (tags@[i] == ' ' ==> arg[6 + i] == '+') by {
        assert(arg[6 + i] == plus_for_space(tags@)[i]);
    }
}

/// A user reaches the query as given, whatever the tags; the favourites are
/// asked for by what follows.
pub proof fn law_user_reaches_the_query(user: String, tags: Option<String>)
    ensures
        ({
            let posts = selection(Some(user), tags, false);
            &&& posts.len() == 6 + user@.len()
            &&& posts.take(6) == "&user="@
            &&& posts.skip(6) == user@
            &&& selection(Some(user), tags, true) == posts + "&collection=favoriten&self=true"@
        }),
{
    reveal_strlit("&user=");
    let posts = selection(Some(user), tags, false);
    assert(posts.take(6) =~= "&user="@);
    assert(posts.skip(6) =~= user@);
}

/// Without a user and tags nothing restricts the posts.
pub proof fn law_all_posts_without_user_and_tags(favourites: bool)
    ensures
        selection(None, None, favourites).len() == 0,
{
}

/// An option that is given has its own text, one that is not has none.
pub proof fn law_option_text(text: String)
    ensures
        text_or_empty(Some(text)) == text@,
        text_or_empty(None).len() == 0,
{
}

} // verus!
