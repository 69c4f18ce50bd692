use pr0dl::download_file::{
    format_active, AttemptEvent, DownloadError, DownloadOutcome, FileDownload, FileStart, FileStep,
};
use reqwest::header::{HeaderMap, HeaderValue, RETRY_AFTER};

fn download() -> FileDownload {
    FileDownload::new("https://img.pr0gramm.com/x/a.jpg".to_string(), 4)
}

fn strings(texts: &[&str]) -> Vec<String> {
    texts.iter().map(|t| t.to_string()).collect()
}

fn retry_after(value: &[u8]) -> HeaderMap {
    let mut headers = HeaderMap::new();
    headers.insert(RETRY_AFTER, HeaderValue::from_bytes(value).unwrap());
    headers
}

#[test]
fn status_line_of_active_files() {
    assert_eq!(format_active(&strings(&[])), "");
    assert_eq!(format_active(&strings(&["a"])), "↓ a");
    assert_eq!(format_active(&strings(&["a", "b"])), "↓ a  ↓ b");
    assert_eq!(format_active(&strings(&["a", "b", "c"])), "↓ a  ↓ b  (+1)");
    assert_eq!(format_active(&vec!["n".to_string(); 14]), "↓ n  ↓ n  (+12)");
}

#[test]
fn a_new_download() {
    let d = download();
    assert_eq!(d.url, "https://img.pr0gramm.com/x/a.jpg");
    assert_eq!(d.filename, "a.jpg");
    assert_eq!(d.part, "a.jpg.part");
    assert_eq!((d.attempt, d.delay_secs), (0, 5));
    assert_eq!(FileDownload::new("https://h/".to_string(), 4).part, "file_4.part");
}

#[test]
fn a_file_in_its_place_is_skipped() {
    let mut active = strings(&["z"]);
    assert_eq!(
        download().begin(true, &mut active),
        FileStart::Finished(DownloadOutcome::Skipped)
    );
    assert_eq!(active, strings(&["z"]));
}

#[test]
fn a_file_under_way_is_active_until_it_is_finished() {
    let d = download();
    let mut active = strings(&["z", "y"]);
    let start = d.begin(false, &mut active);
    assert_eq!(start, FileStart::Active { status: "↓ z  ↓ y  (+1)".to_string() });
    assert_eq!(active, strings(&["z", "y", "a.jpg"]));
    assert_eq!(d.finish(&mut active), "↓ z  ↓ y");
    assert_eq!(active, strings(&["z", "y"]));
}

#[test]
fn finishing_takes_every_file_of_that_name_off() {
    let mut active = strings(&["a.jpg", "b", "a.jpg"]);
    assert_eq!(download().finish(&mut active), "↓ b");
    assert_eq!(active, strings(&["b"]));
}

#[test]
fn successful_replies_are_stored() {
    let d = download();
    assert_eq!(d.on_reply(200, &HeaderMap::new()), None);
    assert_eq!(d.on_reply(206, &retry_after(b"9")), None);
}

#[test]
fn refusals_end_the_download() {
    let mut d = download();
    let event = d.on_reply(404, &retry_after(b"9")).unwrap();
    assert_eq!(event, AttemptEvent::Rejected { status: 404 });
    assert_eq!(d.on_event(event), FileStep::Finished(Err(DownloadError::Status(404))));
    assert_eq!(d.on_reply(302, &HeaderMap::new()), Some(AttemptEvent::Rejected { status: 302 }));
}

#[test]
fn busy_servers_may_say_how_long_to_wait() {
    let mut d = download();
    let event = d.on_reply(429, &retry_after(b"17")).unwrap();
    assert_eq!(event, AttemptEvent::Busy { wait_secs: 17, retry_after: true });
    assert_eq!(
        d.on_event(event),
        FileStep::Retry { wait_secs: 17, discard_part: false, block_all: true }
    );
    assert_eq!((d.attempt, d.delay_secs), (1, 19));
    let event = d.on_reply(503, &retry_after(b"299")).unwrap();
    d.on_event(event);
    assert_eq!(d.delay_secs, 300);
}

#[test]
fn waiting_times_that_are_no_number_are_estimated() {
    let d = download();
    for value in [&b"Wed, 21 Oct 2015 07:28:00 GMT"[..], b"", b"-3", b"\xff", b" 3", b"3\t"] {
        assert_eq!(
            d.on_reply(500, &retry_after(value)),
            Some(AttemptEvent::Busy { wait_secs: 5, retry_after: true }),
            "{value:?}"
        );
    }
    assert_eq!(
        d.on_reply(599, &HeaderMap::new()),
        Some(AttemptEvent::Busy { wait_secs: 5, retry_after: false })
    );
}

#[test]
fn the_first_of_several_waiting_times_counts() {
    let mut headers = retry_after(b"1");
    headers.append(RETRY_AFTER, HeaderValue::from_static("2"));
    assert_eq!(
        download().on_reply(429, &headers),
        Some(AttemptEvent::Busy { wait_secs: 1, retry_after: true })
    );
}

#[test]
fn very_long_waiting_times_are_kept() {
    let mut d = download();
    let event = d.on_reply(429, &retry_after(b"18446744073709551615")).unwrap();
    assert_eq!(event, AttemptEvent::Busy { wait_secs: u64::MAX, retry_after: true });
    d.on_event(event);
    assert_eq!(d.delay_secs, 300);
}

#[test]
fn a_waiting_time_of_nothing_leaves_a_short_delay() {
    let mut d = download();
    d.on_event(AttemptEvent::Busy { wait_secs: 0, retry_after: true });
    assert_eq!(d.delay_secs, 2);
}

#[test]
fn failures_back_off_exponentially() {
    let events = [
        AttemptEvent::NetworkError,
        AttemptEvent::Incomplete,
        AttemptEvent::Busy { wait_secs: 20, retry_after: false },
    ];
    let mut d = download();
    let mut waits = Vec::new();
    for k in 0..8 {
        assert_eq!(d.next_attempt(), Ok(k + 1));
        let delay = d.delay_secs;
        waits.push(delay);
        let event = events[k as usize % 3];
        let step = d.on_event(event);
        let expected = match event {
            AttemptEvent::Busy { wait_secs, .. } => {
                FileStep::Retry { wait_secs, discard_part: false, block_all: true }
            }
            AttemptEvent::Incomplete => {
                FileStep::Retry { wait_secs: delay, discard_part: true, block_all: false }
            }
            _ => FileStep::Retry { wait_secs: delay, discard_part: false, block_all: false },
        };
        assert_eq!(step, expected);
    }
    assert_eq!(waits, vec![5, 10, 20, 40, 80, 160, 300, 300]);
    assert_eq!(d.next_attempt(), Err(DownloadError::ExhaustedRetries));
}

#[test]
fn stored_files_are_saved() {
    let mut d = download();
    d.on_event(AttemptEvent::NetworkError);
    assert_eq!(
        d.on_event(AttemptEvent::Stored),
        FileStep::Finished(Ok(DownloadOutcome::Saved))
    );
    assert_eq!((d.attempt, d.delay_secs), (1, 10));
}

#[test]
fn a_part_file_that_cannot_be_made_ends_the_download() {
    assert_eq!(
        download().on_event(AttemptEvent::CreateFailed),
        FileStep::Finished(Err(DownloadError::CreatePart))
    );
}
