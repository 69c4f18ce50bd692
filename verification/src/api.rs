//! The item API: what is asked of it, page by page, and the media URLs that its
//! replies give.

use crate::headers::{header_entries, insert_header, is_header_name, is_header_text, no_headers};
use crate::media::{law_media_url_is_a_list_entry, media_address, media_url};
use crate::retry::{
    backoff, busy, is_busy, is_success, law_backoff_is_exponential, next_delay, success,
};
use crate::text::{decimal, decimal_text, is_white_space, law_decimal_is_read_back, texts};
use crate::url_list::{is_list_entry, law_read_gives_back_what_was_written, listed_urls, url_list};
use reqwest::header::{HeaderMap, HeaderValue};
use vstd::arithmetic::power2::pow2;
use vstd::prelude::*;
use vstd::string::*;
use vstd::utf8::encode_utf8;

verus! {

pub const BASE_URL: &'static str = "https://pr0gramm.com/api/items/get";

pub const USER_AGENT: &'static str =
    "Mozilla/5.0 (X11; Linux x86_64; rv:108.0) Gecko/20100101 Firefox/108.0";

pub const ACCEPT: &'static str = "application/json, text/javascript, */*; q=0.01";

pub const REQUESTED_WITH: &'static str = "XMLHttpRequest";

pub const REFERER: &'static str = "https://pr0gramm.com/";

/// How often a page is tried.
pub const MAX_RETRIES: u32 = 6;

/// The delay after the first failed attempt, in seconds.
pub const FIRST_DELAY_SECS: u64 = 2;

/// The longest delay, in seconds.
pub const MAX_DELAY_SECS: u64 = 120;

// ---------------------------------------------------------------------------
// Items and their media

#[derive(Debug)]
pub struct Item {
    pub id: u64,
    /// The path of the medium, below the server that has media of its kind.
    pub image: String,
}

/// One page of items.
#[derive(Debug)]
pub struct ApiResponse {
    pub items: Vec<Item>,
}

pub struct ItemView {
    pub id: u64,
    pub image: Seq<char>,
}

impl View for Item {
    type V = ItemView;

    open spec fn view(&self) -> ItemView {
        ItemView { id: self.id, image: self.image@ }
    }
}

impl View for ApiResponse {
    type V = Seq<ItemView>;

    open spec fn view(&self) -> Seq<ItemView> {
        self.items@.map_values(|item: Item| item@)
    }
}

/// The URLs of the media on a page, in the order of its items.
pub open spec fn media_addresses(page: Seq<ItemView>) -> Seq<Seq<char>> {
    page.map_values(|item: ItemView| media_address(item.image))
}

// ---------------------------------------------------------------------------
// How far a fetch has come

/// Persisted after every page so we can resume if interrupted.
#[derive(Debug)]
pub struct FetchState {
    /// The id of the last item that was seen: the next page starts behind it.
    pub older_id: Option<u64>,
    /// The URLs collected so far.
    pub urls: Vec<String>,
}

pub struct FetchStateView {
    pub older_id: Option<u64>,
    pub urls: Seq<Seq<char>>,
}

impl View for FetchState {
    type V = FetchStateView;

    open spec fn view(&self) -> FetchStateView {
        FetchStateView { older_id: self.older_id, urls: texts(self.urls@) }
    }
}

/// The state before the first page.
pub open spec fn initial_state() -> FetchStateView {
    FetchStateView { older_id: None, urls: seq![] }
}

/// The id of the last item on a page.
pub open spec fn last_id(page: Seq<ItemView>) -> Option<u64> {
    if page.len() > 0 {
        Some(page.last().id)
    } else {
        None
    }
}

/// The state after one page more. An empty page keeps the place, so that the
/// last checkpoint of a fetch can be resumed from like any other.
pub open spec fn page_added(state: FetchStateView, page: Seq<ItemView>) -> FetchStateView {
    FetchStateView {
        older_id: if page.len() > 0 {
            last_id(page)
        } else {
            state.older_id
        },
        urls: state.urls + media_addresses(page),
    }
}

impl Default for FetchState {
    fn default() -> (state: Self)
        ensures
            state@ == initial_state(),
            state.older_id is None,
            state.urls@.len() == 0,
    {
        let state = FetchState { older_id: None, urls: Vec::new() };
        assert(texts(state.urls@) =~= seq![]);
        state
    }
}

impl FetchState {
    /// The state to start from: what an earlier fetch left, where the state
    /// file could be read and understood, else a fresh one. The file is read,
    /// and its JSON turned into `stored`, outside this library; nothing is
    /// stated of that here.
    pub fn load(stored: Option<FetchState>) -> (state: FetchState)
        ensures
            state@ == match stored {
                Some(s) => s@,
                None => initial_state(),
            },
    {
        match stored {
            Some(state) => state,
            None => FetchState::default(),
        }
    }

    /// Collects the URLs of one page more, and moves behind its last item, where
    /// it has one.
    pub fn add_page(&mut self, response: &ApiResponse)
        ensures
            final(self)@ == page_added(old(self)@, response@),
            final(self).urls@.len() == old(self).urls@.len() + response.items@.len(),
            forall|i: int|
                0 <= i < old(self).urls@.len() ==> (#[trigger] final(self).urls@[i])@ == old(
                    self,
                ).urls@[i]@,
            forall|i: int|
                0 <= i < response.items@.len() ==> final(self).urls@[old(self).urls@.len() + i]@
                    == media_address((#[trigger] response.items@[i]).image@),
            final(self).older_id == if response.items@.len() > 0 {
                Some(response.items@[response.items@.len() - 1].id)
            } else {
                old(self).older_id
            },
    {
        let ghost page = response@;
        let ghost before = texts(self.urls@);
        let mut i: usize = 0;
        assert(texts(self.urls@) =~= before + media_addresses(page.take(0)));
        while i < response.items.len()
            invariant
                i <= response.items@.len(),
                page == response@,
                self.older_id == old(self).older_id,
                texts(self.urls@) == before + media_addresses(page.take(i as int)),
            decreases response.items@.len() - i,
        {
            let ghost collected = texts(self.urls@);
            let url = media_url(response.items[i].image.as_str());
            self.urls.push(url);
            assert(texts(self.urls@) =~= collected.push(url@));
            assert(media_addresses(page.take(i + 1)) =~= media_addresses(
                page.take(i as int),
            ).push(url@));
            assert(texts(self.urls@) =~= before + media_addresses(page.take(i + 1)));
            i = i + 1;
        }
        assert(page.take(i as int) =~= page);
        if response.items.len() > 0 {
            self.older_id = Some(response.items[response.items.len() - 1].id);
        }
        proof {
            let after = texts(self.urls@);
            assert forall|i: int| 0 <= i < before.len() implies (#[trigger] self.urls@[i])@ == old(
                self,
            ).urls@[i]@ by {
                assert(after[i] == before[i]);
            }
            assert forall|i: int| 0 <= i < page.len() implies self.urls@[before.len() + i]@
                == media_address((#[trigger] response.items@[i]).image@) by {
                assert(after[before.len() + i] == media_addresses(page)[i]);
            }
        }
    }
}

// ---------------------------------------------------------------------------
// The client

/// Why no client could be made.
#[derive(Clone, Copy, Debug, PartialEq, Eq)]
pub enum ClientError {
    /// The session cookies hold what no header may.
    InvalidCookie,
}

/// What the client sends with every request, and what it asks for.
pub struct Pr0grammClient {
    pub headers: HeaderMap,
    /// The content flags, in decimal.
    pub flags: String,
    /// The rest of the query.
    pub arg: String,
}

/// The `Cookie` header with the session cookies.
pub open spec fn cookie_text(pp_cookie: Seq<char>, me_cookie: Seq<char>) -> Seq<char> {
    "pp="@ + pp_cookie + "; me="@ + me_cookie
}

/// The headers of every request, with the cookies `cookie`.
pub open spec fn client_headers(cookie: Seq<char>) -> Map<Seq<char>, Seq<Seq<u8>>> {
    no_headers().insert("user-agent"@, seq![encode_utf8(USER_AGENT@)]).insert(
        "accept"@,
        seq![encode_utf8(ACCEPT@)],
    ).insert("x-requested-with"@, seq![encode_utf8(REQUESTED_WITH@)]).insert(
        "referer"@,
        seq![encode_utf8(REFERER@)],
    ).insert("cookie"@, seq![encode_utf8(cookie)])
}

/// The query for the page behind the item `older_id`.
pub open spec fn page_query(flags: Seq<char>, arg: Seq<char>, older_id: Option<u64>) -> Seq<char> {
    let query = "flags="@ + flags + arg;
    match older_id {
        Some(id) => "older="@ + decimal(id as nat) + "&"@ + query,
        None => query,
    }
}

/// The URL of the page behind the item `older_id`.
pub open spec fn page_address(flags: Seq<char>, arg: Seq<char>, older_id: Option<u64>) -> Seq<
    char,
> {
    BASE_URL@ + "?"@ + page_query(flags, arg, older_id)
}

fn put_header(headers: &mut HeaderMap, name: &'static str, value: &str) -> (done: Result<
    (),
    ClientError,
>)
    requires
        is_header_name(name@),
        header_entries(*old(headers)).dom().finite(),
        header_entries(*old(headers)).dom().len() < 1000,
    ensures
        done is Ok <==> is_header_text(value@),
        done is Ok ==> header_entries(*final(headers)) == header_entries(*old(headers)).insert(
            name@,
            seq![encode_utf8(value@)],
        ),
{
    match HeaderValue::from_str(value) {
        Ok(value) => {
            insert_header(headers, name, value);
            Ok(())
        },
        Err(_) => Err(ClientError::InvalidCookie),
    }
}

impl Pr0grammClient {
    /// A client for the content that `flags` and `arg` select, with the session
    /// cookies `pp_cookie` and `me_cookie`.
    pub fn new(flags: u8, arg: String, pp_cookie: String, me_cookie: String) -> (client: Result<
        Self,
        ClientError,
    >)
        ensures
            client is Ok <==> is_header_text(cookie_text(pp_cookie@, me_cookie@)),
            client matches Ok(c) ==> {
                &&& header_entries(c.headers) == client_headers(
                    cookie_text(pp_cookie@, me_cookie@),
                )
                &&& c.flags@ == decimal(flags as nat)
                &&& c.arg@ == arg@
            },
            client matches Err(e) ==> e == ClientError::InvalidCookie,
    {
        let mut cookie = "pp=".to_owned();
        cookie.append(pp_cookie.as_str());
        cookie.append("; me=");
        cookie.append(me_cookie.as_str());
        proof {
            reveal_strlit("user-agent");
            reveal_strlit("accept");
            reveal_strlit("x-requested-with");
            reveal_strlit("referer");
            reveal_strlit("cookie");
        }
        let mut headers = HeaderMap::new();
        assert(is_header_text(USER_AGENT@)) by {
            reveal_strlit("Mozilla/5.0 (X11; Linux x86_64; rv:108.0) Gecko/20100101 Firefox/108.0");
        }
        let _ = put_header(&mut headers, "user-agent", USER_AGENT);
        assert(is_header_text(ACCEPT@)) by {
            reveal_strlit("application/json, text/javascript, */*; q=0.01");
        }
        let _ = put_header(&mut headers, "accept", ACCEPT);
        assert(is_header_text(REQUESTED_WITH@)) by {
            reveal_strlit("XMLHttpRequest");
        }
        let _ = put_header(&mut headers, "x-requested-with", REQUESTED_WITH);
        assert(is_header_text(REFERER@)) by {
            reveal_strlit("https://pr0gramm.com/");
        }
        let _ = put_header(&mut headers, "referer", REFERER);
        match put_header(&mut headers, "cookie", cookie.as_str()) {
            Ok(_) => Ok(Pr0grammClient { headers, flags: decimal_text(flags as u64), arg }),
            Err(e) => Err(e),
        }
    }

    /// The URL of the page behind the item `older_id`, or of the first page.
    pub fn page_url(&self, older_id: Option<u64>) -> (url: String)
        ensures
            url@ == page_address(self.flags@, self.arg@, older_id),
    {
        let mut url = BASE_URL.to_owned();
        url.append("?");
        if let Some(id) = older_id {
            url.append("older=");
            url.append(decimal_text(id).as_str());
            url.append("&");
        }
        url.append("flags=");
        url.append(self.flags.as_str());
        url.append(self.arg.as_str());
        assert(url@ =~= page_address(self.flags@, self.arg@, older_id));
        url
    }
}

// ---------------------------------------------------------------------------
// One page

/// Why a page could not be fetched.
#[derive(Clone, Copy, Debug, PartialEq, Eq)]
pub enum PageError {
    /// Every attempt met a busy server.
    ExceededRetries,
    /// No reply came to a request.
    Transport,
    /// The server refused with this status code.
    Status(u16),
}

/// What follows a request.
#[derive(Clone, Copy, Debug, PartialEq, Eq)]
pub enum PageStep {
    /// The body holds the page.
    Decode,
    /// The page cannot be had.
    Failed(PageError),
    /// After `wait_secs` seconds comes the next attempt, if any is left;
    /// `retry` counts the failed ones.
    Retry { wait_secs: u64, retry: u32 },
}

/// Whether the request is repeated: the reply has the status code of a busy
/// server. `None` stands for no reply.
pub open spec fn is_busy_reply(reply: Option<u16>) -> bool {
    reply matches Some(status) && is_busy(status)
}

/// What follows a request that was answered with the status code `reply`, when
/// `attempt` attempts have failed and the delay is `delay`.
pub open spec fn page_step(reply: Option<u16>, attempt: u32, delay: u64) -> PageStep {
    match reply {
        Some(status) => if is_busy(status) {
            PageStep::Retry { wait_secs: delay, retry: (attempt + 1) as u32 }
        } else if !is_success(status) {
            PageStep::Failed(PageError::Status(status))
        } else {
            PageStep::Decode
        },
        None => PageStep::Failed(PageError::Transport),
    }
}

/// The delay after `attempt` failed attempts.
pub open spec fn page_delay(attempt: nat) -> nat {
    backoff(FIRST_DELAY_SECS as nat, MAX_DELAY_SECS as nat, attempt)
}

/// The fetching of one page, with exponential backoff on a busy server.
pub struct PageFetch {
    /// The item behind which the page starts.
    pub older_id: Option<u64>,
    /// How many attempts have failed.
    pub attempt: u32,
    /// The delay after the next failure, in seconds.
    pub delay_secs: u64,
}

impl PageFetch {
    pub open spec fn wf(&self) -> bool {
        &&& self.attempt <= MAX_RETRIES
        &&& self.delay_secs == page_delay(self.attempt as nat)
    }

    /// The URL to request next, or the error where no attempt is left.
    pub fn next_request(&self, client: &Pr0grammClient) -> (request: Result<String, PageError>)
        ensures
            request is Ok <==> self.attempt < MAX_RETRIES,
            request matches Ok(url) ==> url@ == page_address(
                client.flags@,
                client.arg@,
                self.older_id,
            ),
            request matches Err(e) ==> e == PageError::ExceededRetries,
    {
        if self.attempt < MAX_RETRIES {
            Ok(client.page_url(self.older_id))
        } else {
            Err(PageError::ExceededRetries)
        }
    }

    /// Takes note of the status code of a reply, or that none came, and says
    /// what follows.
    pub fn on_reply(&mut self, reply: Option<u16>) -> (step: PageStep)
        requires
            old(self).wf(),
            old(self).attempt < MAX_RETRIES,
        ensures
            final(self).wf(),
            final(self).older_id == old(self).older_id,
            step == page_step(reply, old(self).attempt, old(self).delay_secs),
            final(self).attempt == old(self).attempt + if is_busy_reply(reply) {
                1int
            } else {
                0int
            },
    {
        let status: u16 = match reply {
            Some(status) => status,
            None => return PageStep::Failed(PageError::Transport),
        };
        if busy(status) {
            let wait_secs = self.delay_secs;
            self.attempt = self.attempt + 1;
            self.delay_secs = next_delay(wait_secs, MAX_DELAY_SECS);
            PageStep::Retry { wait_secs, retry: self.attempt }
        } else if !success(status) {
            PageStep::Failed(PageError::Status(status))
        } else {
            PageStep::Decode
        }
    }
}

// ---------------------------------------------------------------------------
// All pages

/// The fetching of all pages.
pub struct UrlFetch {
    /// What the state file holds once a page is done.
    pub state: FetchState,
    /// The page that is being fetched.
    pub page: PageFetch,
}

impl UrlFetch {
    pub open spec fn wf(&self) -> bool {
        &&& self.page.wf()
        &&& self.page.older_id == self.state.older_id
    }

    /// How many URLs an earlier fetch has left, where it has left any.
    pub fn resumed_with(&self) -> (count: Option<usize>)
        ensures
            count == if self.state.urls@.len() > 0 {
                Some(self.state.urls@.len() as usize)
            } else {
                None::<usize>
            },
    {
        if self.state.urls.len() > 0 {
            Some(self.state.urls.len())
        } else {
            None
        }
    }

    /// Takes in a page. The new state is to be saved; where the page was empty
    /// all URLs are there, else the next page is up.
    pub fn on_page(&mut self, response: &ApiResponse) -> (complete: bool)
        ensures
            final(self).wf(),
            final(self).page.attempt == 0,
            final(self).state@ == page_added(old(self).state@, response@),
            complete == (response@.len() == 0),
            complete == (response.items@.len() == 0),
            final(self).page.older_id == final(self).state.older_id,
            final(self).page.delay_secs == 2,
            final(self).state.older_id == if response.items@.len() > 0 {
                Some(response.items@[response.items@.len() - 1].id)
            } else {
                old(self).state.older_id
            },
            final(self).state.urls@.len() == old(self).state.urls@.len() + response.items@.len(),
            forall|i: int|
                0 <= i < response.items@.len() ==> final(self).state.urls@[old(
                    self,
                ).state.urls@.len() + i]@ == media_address((#[trigger] response.items@[i]).image@),
    {
        self.state.add_page(response);
        self.page = start_page(self.state.older_id);
        response.items.len() == 0
    }

    /// The URLs that were collected, of the media in the order of the items.
    pub fn into_urls(self) -> (urls: Vec<String>)
        ensures
            urls == self.state.urls,
    {
        self.state.urls
    }
}

fn start_page(older_id: Option<u64>) -> (page: PageFetch)
    ensures
        page.wf(),
        page.older_id == older_id,
        page.attempt == 0,
        page.delay_secs == 2,
{
    PageFetch { older_id, attempt: 0, delay_secs: FIRST_DELAY_SECS }
}

impl Pr0grammClient {
    /// Starts to fetch all media URLs, where an earlier fetch left off if its
    /// state is `stored`.
    pub fn fetch_all_urls(&self, stored: Option<FetchState>) -> (fetch: UrlFetch)
        ensures
            fetch.wf(),
            fetch.page.attempt == 0,
            fetch.page.delay_secs == 2,
            fetch.page.older_id == fetch.state.older_id,
            fetch.state@ == match stored {
                Some(s) => s@,
                None => initial_state(),
            },
    {
        let state = FetchState::load(stored);
        let page = self.fetch_page_with_retry(state.older_id);
        UrlFetch { state, page }
    }

    /// Starts to fetch the page behind the item `older_id`.
    pub fn fetch_page_with_retry(&self, older_id: Option<u64>) -> (page: PageFetch)
        ensures
            page.wf(),
            page.older_id == older_id,
            page.attempt == 0,
            page.delay_secs == 2,
    {
        start_page(older_id)
    }
}

// ---------------------------------------------------------------------------
// Laws

/// What becomes of a page whose attempts from now on are answered with the
/// status codes `replies`, when `attempt` of them have failed: `Ok` where a reply
/// holds the page, `None` where more replies decide.
pub open spec fn page_result(attempt: nat, replies: Seq<Option<u16>>) -> Option<
    Result<(), PageError>,
>
    decreases replies.len(),
{
    if attempt >= MAX_RETRIES {
        Some(Err(PageError::ExceededRetries))
    } else if replies.len() == 0 {
        None
    } else {
        match page_step(replies[0], attempt as u32, page_delay(attempt) as u64) {
            PageStep::Decode => Some(Ok(())),
            PageStep::Failed(e) => Some(Err(e)),
            PageStep::Retry { .. } => page_result(attempt + 1, replies.skip(1)),
        }
    }
}

/// A page is tried a limited number of times: whatever the replies are, the
/// last attempt that is left decides.
pub proof fn law_every_page_is_decided(attempt: nat, replies: Seq<Option<u16>>)
    requires
        attempt + replies.len() >= MAX_RETRIES,
    ensures
        page_result(attempt, replies) is Some,
    decreases replies.len(),
{
    if attempt < MAX_RETRIES && is_busy_reply(replies[0]) {
        law_every_page_is_decided(attempt + 1, replies.skip(1));
    }
}

/// The first attempt that does not meet a busy server decides: the page is there
/// where the reply is a success, and is not to be had where it is not or where
/// none comes.
pub proof fn law_first_final_reply_decides(attempt: nat, replies: Seq<Option<u16>>, k: int)
    requires
        0 <= k < replies.len(),
        attempt + k < MAX_RETRIES,
        !is_busy_reply(replies[k]),
        forall|i: int| 0 <= i < k ==> is_busy_reply(#[trigger] replies[i]),
    ensures
        page_result(attempt, replies) == Some(
            match replies[k] {
                Some(status) => if is_success(status) {
                    Ok::<(), PageError>(())
                } else {
                    Err(PageError::Status(status))
                },
                None => Err(PageError::Transport),
            },
        ),
    decreases replies.len(),
{
    if k > 0 {
        assert(is_busy_reply(replies[0]));
        let rest = replies.skip(1);
        assert(rest[k - 1] == replies[k]);
        assert forall|i: int| 0 <= i < k - 1 implies is_busy_reply(#[trigger] rest[i]) by {
            assert(rest[i] == replies[i + 1]);
        }
        law_first_final_reply_decides(attempt + 1, rest, k - 1);
    }
}

/// Retries are exceeded just when the server is busy at every attempt that was
/// left.
pub proof fn law_exceeded_when_always_busy(attempt: nat, replies: Seq<Option<u16>>)
    requires
        attempt <= MAX_RETRIES,
    ensures
        (page_result(attempt, replies) == Some(Err::<(), PageError>(PageError::ExceededRetries)))
            <==> (attempt + replies.len() >= MAX_RETRIES && (forall|i: int|
            0 <= i < MAX_RETRIES - attempt ==> is_busy_reply(#[trigger] replies[i]))),
    decreases replies.len(),
{
    if attempt < MAX_RETRIES && replies.len() > 0 && is_busy_reply(replies[0]) {
        let rest = replies.skip(1);
        law_exceeded_when_always_busy(attempt + 1, rest);
        assert(forall|i: int| 0 <= i < replies.len() - 1 ==> #[trigger] rest[i] == replies[i + 1]);
        assert forall|i: int|
            0 <= i < MAX_RETRIES - attempt && attempt + replies.len() >= MAX_RETRIES && (forall|
                j: int,
            |
                0 <= j < MAX_RETRIES - attempt - 1 ==> is_busy_reply(
                    #[trigger] rest[j],
                )) implies is_busy_reply(#[trigger] replies[i]) by {
            if i > 0 {
                assert(rest[i - 1] == replies[i]);
            }
        }
    }
}

/// The state after `pages` pages from `state` on, where the server answers the
/// request for the page behind an item with the page that `server` gives.
pub open spec fn fetched(
    server: spec_fn(Option<u64>) -> Seq<ItemView>,
    state: FetchStateView,
    pages: nat,
) -> FetchStateView
    decreases pages,
{
    if pages == 0 {
        state
    } else {
        let before = fetched(server, state, (pages - 1) as nat);
        page_added(before, server(before.older_id))
    }
}

/// Whether a fetch from `state` on is complete after `pages` pages: the last
/// one is the first that is empty.
pub open spec fn complete_after(
    server: spec_fn(Option<u64>) -> Seq<ItemView>,
    state: FetchStateView,
    pages: nat,
) -> bool {
    &&& pages > 0
    &&& server(fetched(server, state, (pages - 1) as nat).older_id).len() == 0
    &&& forall|k: nat|
        k < pages - 1 ==> server(#[trigger] fetched(server, state, k).older_id).len() > 0
}

proof fn lemma_fetched_in_two_parts(
    server: spec_fn(Option<u64>) -> Seq<ItemView>,
    state: FetchStateView,
    first: nat,
    second: nat,
)
    ensures
        fetched(server, fetched(server, state, first), second) == fetched(
            server,
            state,
            first + second,
        ),
    decreases second,
{
    if second > 0 {
        lemma_fetched_in_two_parts(server, state, first, (second - 1) as nat);
    }
}

/// How many pages a fetch of `pages` pages asks for once it is taken up again:
/// those that it had not seen, and the empty one again where it had seen all.
pub open spec fn pages_left(pages: nat, interrupted_after: nat) -> nat {
    if interrupted_after < pages {
        (pages - interrupted_after) as nat
    } else {
        1
    }
}

/// A fetch that is interrupted after any page, the empty one at the end among
/// them, and taken up again from the state that was saved then, completes with
/// the same URLs as one that is not interrupted.
pub proof fn law_resumed_fetch_gives_the_same_urls(
    server: spec_fn(Option<u64>) -> Seq<ItemView>,
    state: FetchStateView,
    pages: nat,
    interrupted_after: nat,
)
    requires
        complete_after(server, state, pages),
        interrupted_after <= pages,
    ensures
        ({
            let saved = fetched(server, state, interrupted_after);
            let left = pages_left(pages, interrupted_after);
            &&& complete_after(server, saved, left)
            &&& fetched(server, saved, left).urls == fetched(server, state, pages).urls
        }),
{
    let saved = fetched(server, state, interrupted_after);
    let left = pages_left(pages, interrupted_after);
    if interrupted_after == pages {
        let before = fetched(server, state, (pages - 1) as nat);
        law_empty_page_changes_nothing(before, server(before.older_id));
        law_empty_page_changes_nothing(saved, server(saved.older_id));
        assert(fetched(server, saved, 0) == saved);
        assert(fetched(server, saved, 1) == saved);
    } else {
        lemma_fetched_in_two_parts(server, state, interrupted_after, left);
        lemma_fetched_in_two_parts(server, state, interrupted_after, (left - 1) as nat);
        assert forall|k: nat| k < left - 1 implies server(
            #[trigger] fetched(server, saved, k).older_id,
        ).len() > 0 by {
            lemma_fetched_in_two_parts(server, state, interrupted_after, k);
            assert(server(fetched(server, state, interrupted_after + k).older_id).len() > 0);
        }
    }
}

/// What has been collected stays: later pages only add behind it.
pub proof fn law_collected_urls_stay(
    server: spec_fn(Option<u64>) -> Seq<ItemView>,
    state: FetchStateView,
    pages: nat,
)
    ensures
        state.urls.len() <= fetched(server, state, pages).urls.len(),
        fetched(server, state, pages).urls.take(state.urls.len() as int) == state.urls,
    decreases pages,
{
    if pages > 0 {
        law_collected_urls_stay(server, state, (pages - 1) as nat);
        let before = fetched(server, state, (pages - 1) as nat).urls;
        let after = fetched(server, state, pages).urls;
        assert(after.take(state.urls.len() as int) =~= before.take(state.urls.len() as int));
    } else {
        assert(state.urls.take(state.urls.len() as int) =~= state.urls);
    }
}

/// The empty page at the end adds no URL and keeps the place.
pub proof fn law_empty_page_changes_nothing(state: FetchStateView, page: Seq<ItemView>)
    requires
        page.len() == 0,
    ensures
        page_added(state, page) == state,
{
    assert(state.urls + media_addresses(page) =~= state.urls);
}

/// Different pages have different URLs, so no checkpoint asks for the page of
/// another.
pub proof fn law_page_urls_differ(
    flags: Seq<char>,
    arg: Seq<char>,
    a: Option<u64>,
    b: Option<u64>,
)
    requires
        page_address(flags, arg, a) == page_address(flags, arg, b),
    ensures
        a == b,
{
    let base = BASE_URL@ + "?"@;
    let query_a = page_query(flags, arg, a);
    let query_b = page_query(flags, arg, b);
    assert(query_a =~= page_address(flags, arg, a).skip(base.len() as int));
    assert(query_b =~= page_address(flags, arg, b).skip(base.len() as int));
    reveal_strlit("older=");
    reveal_strlit("flags=");
    reveal_strlit("&");
    match (a, b) {
        (Some(i), Some(j)) => {
            let rest = "flags="@ + flags + arg;
            assert(query_a.len() == 7 + decimal(i as nat).len() + rest.len());
            assert(query_b.len() == 7 + decimal(j as nat).len() + rest.len());
            assert(decimal(i as nat) =~= query_a.subrange(6, 6int + decimal(i as nat).len()));
            assert(decimal(j as nat) =~= query_b.subrange(6, 6int + decimal(j as nat).len()));
            law_decimal_is_read_back(i as nat);
            law_decimal_is_read_back(j as nat);
        },
        (Some(_), None) => {
            assert(query_a[0] == 'o');
            assert(query_b[0] == 'f');
        },
        (None, Some(_)) => {
            assert(query_a[0] == 'f');
            assert(query_b[0] == 'o');
        },
        (None, None) => {},
    }
}

/// The URL of every item of every page that was fetched is among the URLs,
/// behind those of the pages before, in the place that the item has on its page.
pub proof fn law_every_item_is_collected(
    server: spec_fn(Option<u64>) -> Seq<ItemView>,
    state: FetchStateView,
    pages: nat,
    page: nat,
    item: int,
)
    requires
        page < pages,
        0 <= item < server(fetched(server, state, page).older_id).len(),
    ensures
        ({
            let before = fetched(server, state, page);
            let place = before.urls.len() + item;
            &&& place < fetched(server, state, pages).urls.len()
            &&& fetched(server, state, pages).urls[place] == media_address(
                server(before.older_id)[item].image,
            )
        }),
{
    let before = fetched(server, state, page);
    let after = fetched(server, state, page + 1);
    let urls = fetched(server, state, pages).urls;
    let left = (pages - page - 1) as nat;
    lemma_fetched_in_two_parts(server, state, page + 1, left);
    law_collected_urls_stay(server, after, left);
    let place = before.urls.len() + item;
    assert(after.urls[place] == media_address(server(before.older_id)[item].image));
    assert(urls.take(after.urls.len() as int)[place] == urls[place]);
}

/// Whether the URLs of a page can stand in a list file: no path holds a newline
/// or ends in white space.
pub open spec fn is_listable(page: Seq<ItemView>) -> bool {
    forall|i: int|
        0 <= i < page.len() ==> !(#[trigger] page[i]).image.contains('\n') && (
        page[i].image.len() > 0 ==> !is_white_space(page[i].image.last()))
}

proof fn lemma_fetched_urls_are_list_entries(
    server: spec_fn(Option<u64>) -> Seq<ItemView>,
    pages: nat,
)
    requires
        forall|older_id: Option<u64>| is_listable(#[trigger] server(older_id)),
    ensures
        forall|i: int|
            0 <= i < fetched(server, initial_state(), pages).urls.len() ==> is_list_entry(
                #[trigger] fetched(server, initial_state(), pages).urls[i],
            ),
    decreases pages,
{
    if pages > 0 {
        lemma_fetched_urls_are_list_entries(server, (pages - 1) as nat);
        let before = fetched(server, initial_state(), (pages - 1) as nat);
        let page = server(before.older_id);
        let urls = fetched(server, initial_state(), pages).urls;
        assert forall|i: int| 0 <= i < urls.len() implies is_list_entry(#[trigger] urls[i]) by {
            if i < before.urls.len() {
                assert(urls[i] == before.urls[i]);
            } else {
                let item = page[i - before.urls.len()];
                assert(urls[i] == media_address(item.image));
                law_media_url_is_a_list_entry(item.image);
            }
        }
    }
}

/// The URLs of a fetch, written to a list file, are read from it for the
/// download unchanged and in their order.
pub proof fn law_fetched_list_is_downloaded(
    server: spec_fn(Option<u64>) -> Seq<ItemView>,
    pages: nat,
)
    requires
        forall|older_id: Option<u64>| is_listable(#[trigger] server(older_id)),
    ensures
        listed_urls(url_list(fetched(server, initial_state(), pages).urls)) == fetched(
            server,
            initial_state(),
            pages,
        ).urls,
{
    lemma_fetched_urls_are_list_entries(server, pages);
    law_read_gives_back_what_was_written(fetched(server, initial_state(), pages).urls);
}

/// A page is what its items are, one by one.
pub proof fn law_page_is_its_items(response: ApiResponse)
    ensures
        response@.len() == response.items@.len(),
        forall|i: int|
            0 <= i < response.items@.len() ==> (#[trigger] response@[i]).id == response.items@[i].id
                && response@[i].image == response.items@[i].image@,
{
}

/// A page adds the URL of each of its items, one by one and in their order,
/// behind those that are there, and the next page starts behind its last item.
pub proof fn law_page_is_collected_and_left_behind(state: FetchStateView, page: Seq<ItemView>)
    ensures
        page_added(state, page).urls.len() == state.urls.len() + page.len(),
        forall|i: int|
            0 <= i < state.urls.len() ==> #[trigger] page_added(state, page).urls[i]
                == state.urls[i],
        forall|i: int|
            0 <= i < page.len() ==> page_added(state, page).urls[state.urls.len() + i]
                == media_address(#[trigger] page[i].image),
        page.len() > 0 ==> page_added(state, page).older_id == Some(page[page.len() - 1].id),
        page.len() == 0 ==> page_added(state, page).older_id == state.older_id,
{
    assert forall|i: int| 0 <= i < page.len() implies page_added(state, page).urls[state.urls.len()
        + i] == media_address(#[trigger] page[i].image) by {
        assert(page_added(state, page).urls[state.urls.len() + i] == media_addresses(page)[i]);
    }
}

/// A fetch starts with the first page and without URLs.
pub proof fn law_fetch_starts_with_nothing()
    ensures
        initial_state().older_id is None,
        initial_state().urls.len() == 0,
{
}

/// Whether the ids of the items fall, from the newest item to the oldest.
pub open spec fn is_newest_first(items: Seq<ItemView>) -> bool {
    forall|i: int, j: int|
        0 <= i < j < items.len() ==> (#[trigger] items[i]).id > (#[trigger] items[j]).id
}

/// Whether `page` holds the items from `from` up to `to` of those that the server
/// has, which are the first ones with an id below `older_id`: at least one, where
/// there is any.
pub open spec fn is_answer(
    items: Seq<ItemView>,
    older_id: Option<u64>,
    page: Seq<ItemView>,
    from: int,
    to: int,
) -> bool {
    &&& 0 <= from <= to <= items.len()
    &&& page == items.subrange(from, to)
    &&& from < items.len() ==> from < to
    &&& forall|i: int|
        0 <= i < items.len() ==> (i < from <==> (older_id matches Some(id)
            && #[trigger] items[i].id >= id))
}

/// Whether the server answers every request from `items`.
pub open spec fn serves(
    server: spec_fn(Option<u64>) -> Seq<ItemView>,
    items: Seq<ItemView>,
) -> bool {
    forall|older_id: Option<u64>|
        #![trigger server(older_id)]
        exists|from: int, to: int|
            #[trigger] is_answer(items, older_id, server(older_id), from, to)
}

/// Whether a fetch has come to the item at `place`: the URLs are those of the
/// items before it, and the next page starts behind the last one of these.
spec fn has_come_to(items: Seq<ItemView>, state: FetchStateView, place: int) -> bool {
    &&& 0 <= place <= items.len()
    &&& state.urls == media_addresses(items.take(place))
    &&& state.older_id == if place == 0 {
        None
    } else {
        Some(items[place - 1].id)
    }
}

proof fn lemma_page_moves_on(
    server: spec_fn(Option<u64>) -> Seq<ItemView>,
    items: Seq<ItemView>,
    state: FetchStateView,
    place: int,
) -> (next: int)
    requires
        is_newest_first(items),
        serves(server, items),
        has_come_to(items, state, place),
    ensures
        has_come_to(items, page_added(state, server(state.older_id)), next),
        next == place + server(state.older_id).len(),
        place < items.len() ==> next > place,
{
    let page = server(state.older_id);
    let (from, to) = choose|from: int, to: int| is_answer(items, state.older_id, page, from, to);
    assert(is_answer(items, state.older_id, page, from, to));
    if place > 0 {
        assert(items[place - 1].id >= state.older_id->0);
        assert(from >= place);
    }
    if from > place {
        assert(items[place].id >= state.older_id->0);
        assert(items[place - 1].id > items[place].id);
    }
    assert(from == place);
    law_page_is_collected_and_left_behind(state, page);
    let after = page_added(state, page);
    assert(after.urls =~= media_addresses(items.take(to))) by {
        assert forall|i: int| 0 <= i < to implies after.urls[i] == media_addresses(
            items.take(to),
        )[i] by {
            if i < place {
                assert(after.urls[i] == state.urls[i]);
                assert(items.take(place)[i] == items.take(to)[i]);
            } else {
                assert(page[i - place].image == items[i].image);
                assert(after.urls[state.urls.len() + (i - place)] == media_address(
                    page[i - place].image,
                ));
            }
        }
    }
    if page.len() > 0 {
        assert(page[page.len() - 1] == items[to - 1]);
    }
    to
}

proof fn lemma_place_after(
    server: spec_fn(Option<u64>) -> Seq<ItemView>,
    items: Seq<ItemView>,
    pages: nat,
) -> (place: int)
    requires
        is_newest_first(items),
        serves(server, items),
    ensures
        has_come_to(items, fetched(server, initial_state(), pages), place),
        place >= pages || place == items.len(),
    decreases pages,
{
    if pages == 0 {
        assert(initial_state().urls =~= media_addresses(items.take(0)));
        0
    } else {
        let before = lemma_place_after(server, items, (pages - 1) as nat);
        lemma_page_moves_on(
            server,
            items,
            fetched(server, initial_state(), (pages - 1) as nat),
            before,
        )
    }
}

/// A complete fetch from a server that has its items newest first, and answers
/// with any number of the next ones, collects the URL of every item, in their
/// order and each once.
pub proof fn law_complete_fetch_collects_every_item_once(
    server: spec_fn(Option<u64>) -> Seq<ItemView>,
    items: Seq<ItemView>,
    pages: nat,
)
    requires
        is_newest_first(items),
        serves(server, items),
        complete_after(server, initial_state(), pages),
    ensures
        fetched(server, initial_state(), pages).urls.len() == items.len(),
        forall|i: int|
            0 <= i < items.len() ==> #[trigger] fetched(server, initial_state(), pages).urls[i]
                == media_address(items[i].image),
{
    let before = fetched(server, initial_state(), (pages - 1) as nat);
    let place = lemma_place_after(server, items, (pages - 1) as nat);
    let next = lemma_page_moves_on(server, items, before, place);
    assert(next == place);
    assert(items.take(next) =~= items);
}

/// Such a fetch is complete after one page more than there are items at the
/// latest.
pub proof fn law_fetch_comes_to_an_end(
    server: spec_fn(Option<u64>) -> Seq<ItemView>,
    items: Seq<ItemView>,
)
    requires
        is_newest_first(items),
        serves(server, items),
    ensures
        exists|pages: nat|
            pages <= items.len() + 1 && #[trigger] complete_after(server, initial_state(), pages),
{
    let place = lemma_place_after(server, items, items.len());
    let state = fetched(server, initial_state(), items.len());
    let next = lemma_page_moves_on(server, items, state, place);
    lemma_first_empty_page(server, items.len());
}

proof fn lemma_first_empty_page(server: spec_fn(Option<u64>) -> Seq<ItemView>, pages: nat)
    requires
        server(fetched(server, initial_state(), pages).older_id).len() == 0,
    ensures
        exists|n: nat| n <= pages + 1 && #[trigger] complete_after(server, initial_state(), n),
    decreases pages,
{
    if forall|k: nat|
        k < pages ==> server(#[trigger] fetched(server, initial_state(), k).older_id).len() > 0 {
        assert(complete_after(server, initial_state(), pages + 1));
    } else {
        let k = choose|k: nat|
            k < pages && server(#[trigger] fetched(server, initial_state(), k).older_id).len() == 0;
        lemma_first_empty_page(server, k);
    }
}

/// Every request asks the item API for the content flags and the selection, and
/// for what is behind an item where one is given.
pub proof fn law_page_url_asks_for_the_page(flags: Seq<char>, arg: Seq<char>, id: u64)
    ensures
        page_address(flags, arg, None) == "https://pr0gramm.com/api/items/get?flags="@ + flags
            + arg,
        page_address(flags, arg, Some(id)) == "https://pr0gramm.com/api/items/get?older="@
            + decimal(id as nat) + "&flags="@ + flags + arg,
{
    reveal_strlit("https://pr0gramm.com/api/items/get");
    reveal_strlit("https://pr0gramm.com/api/items/get?flags=");
    reveal_strlit("https://pr0gramm.com/api/items/get?older=");
    reveal_strlit("?");
    reveal_strlit("flags=");
    reveal_strlit("older=");
    reveal_strlit("&");
    reveal_strlit("&flags=");
    let base = BASE_URL@ + "?"@;
    assert(base + "flags="@ =~= "https://pr0gramm.com/api/items/get?flags="@);
    assert(base + "older="@ =~= "https://pr0gramm.com/api/items/get?older="@);
    assert("&"@ + "flags="@ =~= "&flags="@);
    assert(page_address(flags, arg, None) =~= base + "flags="@ + flags + arg);
    assert(page_address(flags, arg, Some(id)) =~= base + "older="@ + decimal(id as nat) + ("&"@
        + "flags="@) + flags + arg);
}

/// Both session cookies reach the server whole.
pub proof fn law_cookies_reach_the_server(pp: Seq<char>, me: Seq<char>)
    ensures
        ({
            let text = cookie_text(pp, me);
            let end = 3 + pp.len() as int;
            &&& text.len() == 8 + pp.len() + me.len()
            &&& text.take(3) == "pp="@
            &&& text.subrange(3, end) == pp
            &&& text.subrange(end, end + 5) == "; me="@
            &&& text.skip(end + 5) == me
        }),
{
    reveal_strlit("pp=");
    reveal_strlit("; me=");
    let text = cookie_text(pp, me);
    let end = 3 + pp.len() as int;
    assert(text.take(3) =~= "pp="@);
    assert(text.subrange(3, end) =~= pp);
    assert(text.subrange(end, end + 5) =~= "; me="@);
    assert(text.skip(end + 5) =~= me);
}

/// Every request has the same five headers, whatever the cookies, each with one
/// value.
pub proof fn law_every_request_has_five_headers(cookie: Seq<char>)
    ensures
        forall|name: Seq<char>|
            #[trigger] client_headers(cookie).contains_key(name) <==> name == "user-agent"@ || name
                == "accept"@ || name == "x-requested-with"@ || name == "referer"@ || name
                == "cookie"@,
        client_headers(cookie)["user-agent"@] == seq![
            encode_utf8(
                "Mozilla/5.0 (X11; Linux x86_64; rv:108.0) Gecko/20100101 Firefox/108.0"@,
            ),
        ],
        client_headers(cookie)["accept"@] == seq![
            encode_utf8("application/json, text/javascript, */*; q=0.01"@),
        ],
        client_headers(cookie)["x-requested-with"@] == seq![encode_utf8("XMLHttpRequest"@)],
        client_headers(cookie)["referer"@] == seq![encode_utf8("https://pr0gramm.com/"@)],
        client_headers(cookie)["cookie"@] == seq![encode_utf8(cookie)],
{
    reveal_strlit("user-agent");
    reveal_strlit("accept");
    reveal_strlit("x-requested-with");
    reveal_strlit("referer");
    reveal_strlit("cookie");
    assert("user-agent"@[0] == 'u' && "accept"@[0] == 'a' && "x-requested-with"@[0] == 'x'
        && "referer"@[0] == 'r' && "cookie"@[0] == 'c');
}

/// What follows a request: after a busy server the delay and another attempt,
/// after a success the page, and else an error that says why.
pub proof fn law_reply_decides_what_follows(status: u16, attempt: u32, delay: u64)
    requires
        attempt < u32::MAX,
    ensures
        page_step(None, attempt, delay) == PageStep::Failed(PageError::Transport),
        status == 429 || status / 100 == 5 ==> page_step(Some(status), attempt, delay) == (
        PageStep::Retry { wait_secs: delay, retry: (attempt + 1) as u32 }),
        status / 100 == 2 ==> page_step(Some(status), attempt, delay) == PageStep::Decode,
        status != 429 && status / 100 != 5 && status / 100 != 2 ==> page_step(
            Some(status),
            attempt,
            delay,
        ) == PageStep::Failed(PageError::Status(status)),
        is_busy_reply(Some(status)) <==> status == 429 || status / 100 == 5,
        !is_busy_reply(None),
{
}

/// The delays between the attempts at a page are two seconds, then four, then
/// eight and so on, up to two minutes.
pub proof fn law_page_delays_start_at_two_seconds(attempt: nat)
    ensures
        page_delay(attempt) == if 2 * pow2(attempt) <= 120 {
            2 * pow2(attempt)
        } else {
            120
        },
{
    law_backoff_is_exponential(2, 120, attempt);
}

/// A page is tried six times: retries are exceeded just when the server was busy
/// at each of the first six attempts.
pub proof fn law_page_is_tried_six_times(replies: Seq<Option<u16>>)
    ensures
        (page_result(0, replies) == Some(Err::<(), PageError>(PageError::ExceededRetries))) <==> (
        replies.len() >= 6 && (forall|i: int|
            0 <= i < 6 ==> (#[trigger] replies[i] matches Some(status) && (status == 429 || status
                / 100 == 5)))),
{
    law_exceeded_when_always_busy(0, replies);
    assert(forall|i: int|
        is_busy_reply(#[trigger] replies[i]) <==> (replies[i] matches Some(status) && (status == 429
            || status / 100 == 5)));
}

} // verus!
