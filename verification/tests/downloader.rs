use pr0dl::download_file::{DownloadError, DownloadOutcome, FileStart};
use pr0dl::downloader::{DownloadStats, Downloader};
use pr0dl::url_list::read_url_file;

fn urls() -> Vec<String> {
    ["https://h/a.jpg", "https://h/", "https://h/c.mp4", "https://h/d.png"]
        .iter()
        .map(|u| u.to_string())
        .collect()
}

#[test]
fn a_run_has_one_job_per_url() {
    let downloader = Downloader::new(3);
    assert_eq!(downloader.concurrency, 3);
    let run = downloader.download_all(urls());
    let names: Vec<&str> = run.jobs.iter().map(|j| j.filename.as_str()).collect();
    assert_eq!(names, vec!["a.jpg", "file_1", "c.mp4", "d.png"]);
    assert_eq!(run.total, 4);
    assert_eq!(run.stats, DownloadStats::default());
    assert!(run.failed_list().is_none());
}

#[test]
fn results_are_counted_and_failed_urls_kept() {
    let all = urls();
    let mut run = Downloader::new(1).download_all(urls());
    run.record(all[2].clone(), Err(DownloadError::Status(404)));
    run.record(all[0].clone(), Ok(DownloadOutcome::Saved));
    run.record(all[1].clone(), Err(DownloadError::ExhaustedRetries));
    run.record(all[3].clone(), Ok(DownloadOutcome::Skipped));
    assert_eq!(run.stats, DownloadStats { succeeded: 1, skipped: 1, failed: 2 });
    assert_eq!(run.failed, vec![all[2].clone(), all[1].clone()]);
    let list = run.failed_list().unwrap();
    assert_eq!(list, "https://h/c.mp4\nhttps://h/\n");
    assert_eq!(read_url_file(&list), run.failed);
}

#[test]
fn a_run_without_failures_leaves_no_list() {
    let mut run = Downloader::new(1).download_all(vec!["https://h/a".to_string()]);
    run.record("https://h/a".to_string(), Ok(DownloadOutcome::Saved));
    assert!(run.failed_list().is_none());
}

#[test]
fn counts_in_words() {
    let stats = DownloadStats { succeeded: 12, skipped: 0, failed: 3 };
    assert_eq!(stats.summary(), "12 downloaded, 0 skipped, 3 failed");
}

#[test]
fn results_in_another_order_leave_the_same_outcome() {
    let all = urls();
    let results = [
        Ok(DownloadOutcome::Saved),
        Err(DownloadError::ExhaustedRetries),
        Err(DownloadError::Status(404)),
        Ok(DownloadOutcome::Skipped),
    ];
    let mut one = Downloader::new(1).download_all(urls());
    for i in [0, 1, 2, 3] {
        one.record(all[i].clone(), results[i]);
    }
    let mut four = Downloader::new(4).download_all(urls());
    for i in [2, 3, 1, 0] {
        four.record(all[i].clone(), results[i]);
    }
    assert_eq!(one.stats, DownloadStats { succeeded: 1, skipped: 1, failed: 2 });
    assert_eq!(four.stats, one.stats);
    assert_eq!(one.failed, vec![all[1].clone(), all[2].clone()]);
    assert_eq!(four.failed, vec![all[2].clone(), all[1].clone()]);
    let mut lines = read_url_file(&one.failed_list().unwrap());
    let mut other_lines = read_url_file(&four.failed_list().unwrap());
    lines.sort();
    other_lines.sort();
    assert_eq!(lines, other_lines);
}

#[test]
fn a_second_run_skips_every_file() {
    let all = urls();
    let mut in_place: Vec<String> = Vec::new();
    let mut first = Downloader::new(2).download_all(urls());
    for i in 0..all.len() {
        in_place.push(first.jobs[i].filename.clone());
        first.record(all[i].clone(), Ok(DownloadOutcome::Saved));
    }
    assert_eq!(first.stats, DownloadStats { succeeded: 4, skipped: 0, failed: 0 });

    let mut second = Downloader::new(2).download_all(urls());
    let mut active: Vec<String> = Vec::new();
    for i in 0..all.len() {
        let exists = in_place.contains(&second.jobs[i].filename);
        match second.jobs[i].begin(exists, &mut active) {
            FileStart::Finished(outcome) => second.record(all[i].clone(), Ok(outcome)),
            FileStart::Active { .. } => panic!("nothing is left to download"),
        }
    }
    assert!(active.is_empty());
    assert_eq!(second.stats, DownloadStats { succeeded: 0, skipped: 4, failed: 0 });
    assert!(second.failed_list().is_none());
}
