use pr0dl::api::{
    ApiResponse, ClientError, FetchState, Item, PageError, PageStep, Pr0grammClient,
};
use pr0dl::url_list::{read_url_file, write_urls};

fn client(flags: u8, arg: &str) -> Pr0grammClient {
    Pr0grammClient::new(flags, arg.to_string(), "P".to_string(), "M".to_string()).unwrap()
}

fn page(items: &[(u64, &str)]) -> ApiResponse {
    let items = items.iter().map(|(id, image)| Item { id: *id, image: image.to_string() }).collect();
    ApiResponse { items }
}

/// Answers with the items below `older_id`, two at a time.
fn serve(older_id: Option<u64>) -> ApiResponse {
    let all = [(9, "9.jpg"), (7, "7.mp4"), (5, "5.png"), (4, "4.webm"), (2, "2.jpg")];
    let behind: Vec<(u64, &str)> = all
        .into_iter()
        .filter(|(id, _)| older_id.map_or(true, |older| *id < older))
        .take(2)
        .collect();
    page(&behind)
}

fn fetch(stored: Option<FetchState>, max_pages: usize) -> (FetchState, bool) {
    let mut fetch = client(1, "").fetch_all_urls(stored);
    for _ in 0..max_pages {
        if fetch.on_page(&serve(fetch.state.older_id)) {
            return (fetch.state, true);
        }
    }
    (fetch.state, false)
}

#[test]
fn headers_of_every_request() {
    let client = client(31, "&user=x");
    let get = |name: &str| client.headers.get(name).unwrap().to_str().unwrap().to_string();
    assert_eq!(client.headers.len(), 5);
    assert_eq!(
        get("user-agent"),
        "Mozilla/5.0 (X11; Linux x86_64; rv:108.0) Gecko/20100101 Firefox/108.0"
    );
    assert_eq!(get("accept"), "application/json, text/javascript, */*; q=0.01");
    assert_eq!(get("x-requested-with"), "XMLHttpRequest");
    assert_eq!(get("referer"), "https://pr0gramm.com/");
    assert_eq!(get("cookie"), "pp=P; me=M");
    assert_eq!(client.flags, "31");
    assert_eq!(client.arg, "&user=x");
}

#[test]
fn cookies_that_no_header_may_hold() {
    for bad in ["a\nb", "\r", "\0", "\u{7f}", "x\u{1f}"] {
        let first = Pr0grammClient::new(1, String::new(), bad.to_string(), String::new());
        assert_eq!(first.err(), Some(ClientError::InvalidCookie), "{bad:?}");
        let second = Pr0grammClient::new(1, String::new(), String::new(), bad.to_string());
        assert_eq!(second.err(), Some(ClientError::InvalidCookie), "{bad:?}");
    }
}

#[test]
fn cookies_that_a_header_may_hold() {
    for good in ["", "a b", "\t", "~", "%7B\"x\"", "ä€\u{80}"] {
        let client = Pr0grammClient::new(1, String::new(), good.to_string(), String::new()).unwrap();
        let expected = format!("pp={good}; me=");
        assert_eq!(client.headers.get("cookie").unwrap().as_bytes(), expected.as_bytes());
    }
}

#[test]
fn page_urls() {
    assert_eq!(
        client(31, "&user=Ryodari").page_url(None),
        "https://pr0gramm.com/api/items/get?flags=31&user=Ryodari"
    );
    assert_eq!(
        client(1, "&tags=a+b").page_url(Some(1234)),
        "https://pr0gramm.com/api/items/get?older=1234&flags=1&tags=a+b"
    );
    assert_eq!(
        client(255, "").page_url(Some(u64::MAX)),
        "https://pr0gramm.com/api/items/get?older=18446744073709551615&flags=255"
    );
}

#[test]
fn different_pages_have_different_urls() {
    let client = client(1, "&user=1");
    let ids = [None, Some(0), Some(1), Some(10), Some(11)];
    for a in ids {
        for b in ids {
            assert_eq!(client.page_url(a) == client.page_url(b), a == b);
        }
    }
}

#[test]
fn a_fresh_state() {
    let state = FetchState::load(None);
    assert_eq!((state.older_id, state.urls.len()), (None, 0));
    let state = FetchState::default();
    assert_eq!((state.older_id, state.urls.len()), (None, 0));
}

#[test]
fn a_stored_state() {
    let stored = FetchState { older_id: Some(3), urls: vec!["u".to_string()] };
    let state = FetchState::load(Some(stored));
    assert_eq!((state.older_id, state.urls), (Some(3), vec!["u".to_string()]));
}

#[test]
fn pages_are_collected_in_order() {
    let mut state = FetchState::default();
    state.add_page(&page(&[(9, "a.jpg"), (7, "b.mp4")]));
    assert_eq!(state.older_id, Some(7));
    assert_eq!(
        state.urls,
        vec!["https://img.pr0gramm.com/a.jpg", "https://vid.pr0gramm.com/b.mp4"]
    );
    state.add_page(&page(&[]));
    assert_eq!(state.older_id, Some(7));
    assert_eq!(state.urls.len(), 2);
}

#[test]
fn a_fetch_ends_with_an_empty_page() {
    let (state, complete) = fetch(None, 10);
    assert!(complete);
    assert_eq!(
        state.urls,
        vec![
            "https://img.pr0gramm.com/9.jpg",
            "https://vid.pr0gramm.com/7.mp4",
            "https://img.pr0gramm.com/5.png",
            "https://vid.pr0gramm.com/4.webm",
            "https://img.pr0gramm.com/2.jpg",
        ]
    );
    assert_eq!(read_url_file(&write_urls(&state.urls)), state.urls);
}

#[test]
fn an_interrupted_fetch_resumes() {
    let (whole, _) = fetch(None, 10);
    for pages in 0..5 {
        let (saved, complete) = fetch(None, pages);
        assert_eq!(complete, pages == 4);
        let resumed = client(1, "").fetch_all_urls(Some(FetchState {
            older_id: saved.older_id,
            urls: saved.urls.clone(),
        }));
        let expected = if saved.urls.is_empty() { None } else { Some(saved.urls.len()) };
        assert_eq!(resumed.resumed_with(), expected);
        let (state, complete) = fetch(Some(saved), 10);
        assert!(complete);
        assert_eq!(state.urls, whole.urls);
    }
}

#[test]
fn the_last_checkpoint_keeps_its_place() {
    let (saved, complete) = fetch(None, 4);
    assert!(complete);
    assert_eq!((saved.older_id, saved.urls.len()), (Some(2), 5));
    let (state, complete) = fetch(Some(saved), 1);
    assert!(complete);
    assert_eq!((state.older_id, state.urls.len()), (Some(2), 5));
}

#[test]
fn a_fetch_without_items_stays_at_the_start() {
    let mut fetch = client(1, "").fetch_all_urls(None);
    assert!(fetch.on_page(&page(&[])));
    assert_eq!((fetch.state.older_id, fetch.state.urls.len()), (None, 0));
}

#[test]
fn a_fetch_hands_out_its_urls() {
    let mut fetch = client(1, "").fetch_all_urls(None);
    assert!(!fetch.on_page(&page(&[(1, "x")])));
    assert_eq!(fetch.page.older_id, Some(1));
    assert_eq!(fetch.into_urls(), vec!["https://img.pr0gramm.com/x"]);
}

#[test]
fn busy_servers_are_asked_again_after_growing_delays() {
    let client = client(1, "");
    let mut page = client.fetch_page_with_retry(Some(8));
    for (k, wait) in [2, 4, 8, 16, 32, 64].into_iter().enumerate() {
        assert_eq!(page.next_request(&client), Ok(client.page_url(Some(8))));
        let status = if k % 2 == 0 { 429 } else { 503 };
        let retry = k as u32 + 1;
        assert_eq!(page.on_reply(Some(status)), PageStep::Retry { wait_secs: wait, retry });
    }
    assert_eq!(page.next_request(&client), Err(PageError::ExceededRetries));
}

#[test]
fn refused_pages_are_not_asked_for_again() {
    let client = client(1, "");
    let mut page = client.fetch_page_with_retry(None);
    assert_eq!(page.on_reply(Some(500)), PageStep::Retry { wait_secs: 2, retry: 1 });
    assert_eq!(page.on_reply(Some(403)), PageStep::Failed(PageError::Status(403)));
    assert_eq!(page.on_reply(Some(301)), PageStep::Failed(PageError::Status(301)));
}

#[test]
fn pages_without_a_reply_are_not_asked_for_again() {
    let mut page = client(1, "").fetch_page_with_retry(None);
    assert_eq!(page.on_reply(None), PageStep::Failed(PageError::Transport));
    assert_eq!((page.attempt, page.delay_secs), (0, 2));
}

#[test]
fn successful_replies_hold_the_page() {
    let client = client(1, "");
    let mut page = client.fetch_page_with_retry(None);
    assert_eq!(page.on_reply(Some(429)), PageStep::Retry { wait_secs: 2, retry: 1 });
    assert_eq!(page.on_reply(Some(200)), PageStep::Decode);
}
