//! Downloading the files of a URL list, and what is left to retry.

use crate::download_file::{
    file_result, AttemptEvent, DownloadError, DownloadOutcome, FileDownload,
};
use crate::file_names::{
    file_name, is_part_name, law_file_name_is_the_tail_of_the_url, law_nameless_urls_are_numbered,
    law_only_part_files_are_recognised,
};
use crate::text::{decimal, decimal_text, is_digit, law_decimal_is_read_back, texts};
use crate::url_list::{
    is_list_entry, law_read_gives_back_what_was_written, law_read_gives_list_entries, listed_urls,
    url_list, write_urls,
};
use vstd::prelude::*;
use vstd::string::*;

verus! {

/// How long a download may take, in seconds.
pub const TIMEOUT_SECS: u64 = 60;

/// How many files were downloaded, were there already, and were given up.
#[derive(Clone, Copy, Debug, PartialEq, Eq)]
pub struct DownloadStats {
    pub succeeded: usize,
    pub skipped: usize,
    pub failed: usize,
}

impl Default for DownloadStats {
    fn default() -> (stats: Self)
        ensures
            stats.succeeded == 0,
            stats.skipped == 0,
            stats.failed == 0,
    {
        DownloadStats { succeeded: 0, skipped: 0, failed: 0 }
    }
}

/// The counts in words.
pub open spec fn summary_text(succeeded: nat, skipped: nat, failed: nat) -> Seq<char> {
    decimal(succeeded) + " downloaded, "@ + decimal(skipped) + " skipped, "@ + decimal(failed)
        + " failed"@
}

impl DownloadStats {
    /// The counts in words.
    pub fn summary(&self) -> (text: String)
        ensures
            text@ == summary_text(self.succeeded as nat, self.skipped as nat, self.failed as nat),
    {
        let mut text = decimal_text(self.succeeded as u64);
        text.append(" downloaded, ");
        text.append(decimal_text(self.skipped as u64).as_str());
        text.append(" skipped, ");
        text.append(decimal_text(self.failed as u64).as_str());
        text.append(" failed");
        text
    }
}

/// What has been recorded of a run: the counts, and the URLs that failed in the
/// order in which they did.
pub struct Tally {
    pub succeeded: nat,
    pub skipped: nat,
    pub failed: Seq<Seq<char>>,
}

/// The result for one URL.
pub type FileRecord = (Seq<char>, Result<DownloadOutcome, DownloadError>);

pub open spec fn empty_tally() -> Tally {
    Tally { succeeded: 0, skipped: 0, failed: seq![] }
}

/// A tally and one result more.
pub open spec fn tally_with(tally: Tally, record: FileRecord) -> Tally {
    match record.1 {
        Ok(DownloadOutcome::Saved) => Tally { succeeded: tally.succeeded + 1, ..tally },
        Ok(DownloadOutcome::Skipped) => Tally { skipped: tally.skipped + 1, ..tally },
        Err(_) => Tally { failed: tally.failed.push(record.0), ..tally },
    }
}

/// The tally of a run that has recorded `records`.
pub open spec fn tally_of(records: Seq<FileRecord>) -> Tally
    decreases records.len(),
{
    if records.len() == 0 {
        empty_tally()
    } else {
        tally_with(tally_of(records.drop_last()), records.last())
    }
}

/// A run over a list of URLs.
pub struct DownloadRun {
    /// The files, in the order of their URLs.
    pub jobs: Vec<FileDownload>,
    /// How many URLs there are.
    pub total: usize,
    pub stats: DownloadStats,
    /// The URLs that failed, in the order in which they did.
    pub failed: Vec<String>,
}

impl DownloadRun {
    pub open spec fn tally(&self) -> Tally {
        Tally {
            succeeded: self.stats.succeeded as nat,
            skipped: self.stats.skipped as nat,
            failed: texts(self.failed@),
        }
    }

    /// How many results have been recorded.
    pub open spec fn recorded(&self) -> int {
        self.stats.succeeded + self.stats.skipped + self.stats.failed
    }

    pub open spec fn wf(&self) -> bool {
        &&& self.stats.failed == self.failed@.len()
        &&& self.recorded() <= self.total
    }

    /// Records the result for one URL.
    pub fn record(&mut self, url: String, result: Result<DownloadOutcome, DownloadError>)
        requires
            old(self).wf(),
            old(self).recorded() < old(self).total,
        ensures
            final(self).wf(),
            final(self).tally() == tally_with(old(self).tally(), (url@, result)),
            final(self).stats.succeeded == old(self).stats.succeeded + if result == Ok::<
                DownloadOutcome,
                DownloadError,
            >(DownloadOutcome::Saved) {
                1int
            } else {
                0int
            },
            final(self).stats.skipped == old(self).stats.skipped + if result == Ok::<
                DownloadOutcome,
                DownloadError,
            >(DownloadOutcome::Skipped) {
                1int
            } else {
                0int
            },
            final(self).stats.failed == old(self).stats.failed + if result is Err {
                1int
            } else {
                0int
            },
            final(self).failed@ == if result is Err {
                old(self).failed@.push(url)
            } else {
                old(self).failed@
            },
            final(self).recorded() == old(self).recorded() + 1,
            final(self).total == old(self).total,
            final(self).jobs == old(self).jobs,
    {
        match result {
            Ok(DownloadOutcome::Saved) => {
                self.stats.succeeded = self.stats.succeeded + 1;
            },
            Ok(DownloadOutcome::Skipped) => {
                self.stats.skipped = self.stats.skipped + 1;
            },
            Err(_) => {
                self.stats.failed = self.stats.failed + 1;
                self.failed.push(url);
                assert(texts(self.failed@) =~= texts(old(self).failed@).push(url@));
            },
        }
    }

    /// What to write into the list of failed URLs; `None` where none failed,
    /// and a list that an earlier run left is to be removed.
    pub fn failed_list(&self) -> (content: Option<String>)
        ensures
            content is Some <==> self.failed@.len() > 0,
            content matches Some(text) ==> text@ == url_list(texts(self.failed@)),
    {
        if self.failed.len() > 0 {
            Some(write_urls(&self.failed))
        } else {
            None
        }
    }
}

/// How a list of URLs is downloaded.
pub struct Downloader {
    /// How many files are downloaded at a time.
    pub concurrency: usize,
}

impl Downloader {
    pub fn new(concurrency: usize) -> (downloader: Self)
        ensures
            downloader.concurrency == concurrency,
    {
        Downloader { concurrency }
    }

    /// Starts a run over `urls`: one download for each, in their order, and
    /// nothing recorded yet.
    pub fn download_all(&self, urls: Vec<String>) -> (run: DownloadRun)
        ensures
            run.wf(),
            run.tally() == empty_tally(),
            run.recorded() == 0,
            run.total == urls@.len(),
            run.jobs@.len() == urls@.len(),
            forall|i: int|
                0 <= i < urls@.len() ==> (#[trigger] run.jobs@[i]).wf() && run.jobs@[i].is_fresh(
                    urls@[i]@,
                    i as nat,
                ),
            run.stats.succeeded == 0,
            run.stats.skipped == 0,
            run.stats.failed == 0,
            run.failed@.len() == 0,
            forall|i: int|
                0 <= i < urls@.len() ==> (#[trigger] run.jobs@[i]).url@ == urls@[i]@
                    && run.jobs@[i].filename@ == file_name(urls@[i]@, i as nat)
                    && run.jobs@[i].attempt == 0,
    {
        let mut jobs: Vec<FileDownload> = Vec::new();
        let mut i: usize = 0;
        while i < urls.len()
            invariant
                i <= urls@.len(),
                jobs@.len() == i,
                forall|j: int|
                    0 <= j < i ==> (#[trigger] jobs@[j]).wf() && jobs@[j].is_fresh(
                        urls@[j]@,
                        j as nat,
                    ),
            decreases urls@.len() - i,
        {
            jobs.push(FileDownload::new(urls[i].clone(), i));
            i = i + 1;
        }
        let run = DownloadRun {
            jobs,
            total: urls.len(),
            stats: DownloadStats::default(),
            failed: Vec::new(),
        };
        assert(run.tally().failed =~= seq![]);
        run
    }
}

/// Every URL of a run is counted once.
pub proof fn law_every_url_is_counted_once(records: Seq<FileRecord>)
    ensures
        tally_of(records).succeeded + tally_of(records).skipped + tally_of(records).failed.len()
            == records.len(),
    decreases records.len(),
{
    if records.len() > 0 {
        law_every_url_is_counted_once(records.drop_last());
    }
}

/// The URLs on the list of failed ones are those whose download failed, in the
/// order in which they did.
pub proof fn law_failed_urls_are_those_that_failed(records: Seq<FileRecord>)
    ensures
        tally_of(records).failed == records.filter(|r: FileRecord| r.1 is Err).map_values(
            |r: FileRecord| r.0,
        ),
    decreases records.len(),
{
    reveal(Seq::filter);
    let failed = |r: FileRecord| r.1 is Err;
    let url = |r: FileRecord| r.0;
    if records.len() > 0 {
        law_failed_urls_are_those_that_failed(records.drop_last());
    }
    assert(tally_of(records).failed =~= records.filter(failed).map_values(url));
}

/// Downloading from the list of failed URLs retries just those that failed.
pub proof fn law_failed_list_can_be_retried(records: Seq<FileRecord>)
    requires
        forall|i: int| 0 <= i < records.len() ==> is_list_entry((#[trigger] records[i]).0),
    ensures
        listed_urls(url_list(tally_of(records).failed)) == tally_of(records).failed,
{
    lemma_failed_are_entries(records);
    law_read_gives_back_what_was_written(tally_of(records).failed);
}

/// Where the URLs of a run come from a list file, whatever it holds, those that
/// fail can be retried from the list of failed URLs.
pub proof fn law_failed_urls_of_a_list_can_be_retried(text: Seq<char>, records: Seq<FileRecord>)
    requires
        forall|i: int|
            0 <= i < records.len() ==> listed_urls(text).contains((#[trigger] records[i]).0),
    ensures
        listed_urls(url_list(tally_of(records).failed)) == tally_of(records).failed,
{
    law_read_gives_list_entries(text);
    law_failed_list_can_be_retried(records);
}

proof fn lemma_failed_are_entries(records: Seq<FileRecord>)
    requires
        forall|i: int| 0 <= i < records.len() ==> is_list_entry((#[trigger] records[i]).0),
    ensures
        forall|i: int|
            0 <= i < tally_of(records).failed.len() ==> is_list_entry(
                #[trigger] tally_of(records).failed[i],
            ),
    decreases records.len(),
{
    if records.len() > 0 {
        let less = records.drop_last();
        assert forall|i: int| 0 <= i < less.len() implies is_list_entry(
            (#[trigger] less[i]).0,
        ) by {
            assert(less[i] == records[i]);
        }
        lemma_failed_are_entries(less);
        assert(is_list_entry(records[records.len() - 1].0));
        assert forall|i: int| 0 <= i < tally_of(records).failed.len() implies is_list_entry(
            #[trigger] tally_of(records).failed[i],
        ) by {
            if i < tally_of(less).failed.len() {
                assert(tally_of(records).failed[i] == tally_of(less).failed[i]);
            }
        }
    }
}

/// Whether two tallies count the same, and the same URLs failed, as often, in
/// whatever order.
pub open spec fn same_outcome(s: Tally, t: Tally) -> bool {
    &&& s.succeeded == t.succeeded
    &&& s.skipped == t.skipped
    &&& s.failed.to_multiset() == t.failed.to_multiset()
}

/// The order in which the results come in, and so how many files are downloaded
/// at a time, changes neither the counts nor which URLs fail.
pub proof fn law_order_of_results_leaves_the_outcome(a: Seq<FileRecord>, b: Seq<FileRecord>)
    requires
        a.to_multiset() == b.to_multiset(),
    ensures
        tally_of(a).succeeded == tally_of(b).succeeded,
        tally_of(a).skipped == tally_of(b).skipped,
        tally_of(a).failed.to_multiset() == tally_of(b).failed.to_multiset(),
        tally_of(a).failed.len() == tally_of(b).failed.len(),
    decreases a.len(),
{
    broadcast use vstd::seq_lib::group_to_multiset_ensures;

    if a.len() == 0 {
        assert(b.len() == b.to_multiset().len());
        assert(a.len() == a.to_multiset().len());
    } else {
        let last = a.last();
        let end = a.len() - 1;
        assert(a[end] == last);
        assert(a.remove(end) =~= a.drop_last());
        assert(a.to_multiset().count(last) > 0);
        assert(b.to_multiset().count(last) > 0);
        let i = choose|i: int| 0 <= i < b.len() && b[i] == last;
        law_order_of_results_leaves_the_outcome(a.drop_last(), b.remove(i));
        lemma_tally_in_any_place(b, i);
        lemma_same_outcome_with(tally_of(a.drop_last()), tally_of(b.remove(i)), last);
    }
    assert(tally_of(a).failed.len() == tally_of(a).failed.to_multiset().len());
    assert(tally_of(b).failed.len() == tally_of(b).failed.to_multiset().len());
}

/// Whatever the order in which the results come in, the list of failed URLs
/// holds the same lines.
pub proof fn law_order_of_results_leaves_the_failed_list(a: Seq<FileRecord>, b: Seq<FileRecord>)
    requires
        a.to_multiset() == b.to_multiset(),
        forall|i: int| 0 <= i < a.len() ==> is_list_entry((#[trigger] a[i]).0),
    ensures
        listed_urls(url_list(tally_of(a).failed)).to_multiset() == listed_urls(
            url_list(tally_of(b).failed),
        ).to_multiset(),
{
    broadcast use vstd::seq_lib::group_to_multiset_ensures;

    assert forall|i: int| 0 <= i < b.len() implies is_list_entry((#[trigger] b[i]).0) by {
        assert(b.contains(b[i]));
        assert(b.to_multiset().count(b[i]) > 0);
        assert(a.to_multiset().count(b[i]) > 0);
        assert(a.contains(b[i]));
    }
    law_order_of_results_leaves_the_outcome(a, b);
    law_failed_list_can_be_retried(a);
    law_failed_list_can_be_retried(b);
}

/// A result may be recorded at any place among the others.
proof fn lemma_tally_in_any_place(records: Seq<FileRecord>, i: int)
    requires
        0 <= i < records.len(),
    ensures
        same_outcome(
            tally_of(records),
            tally_with(tally_of(records.remove(i)), records[i]),
        ),
    decreases records.len(),
{
    let less = records.drop_last();
    let last = records.last();
    if i == records.len() - 1 {
        assert(records.remove(i) =~= less);
    } else {
        lemma_tally_in_any_place(less, i);
        assert(records.remove(i).drop_last() =~= less.remove(i));
        assert(records.remove(i).last() == last);
        let rest = tally_of(less.remove(i));
        lemma_same_outcome_with(tally_of(less), tally_with(rest, records[i]), last);
        lemma_records_commute(rest, records[i], last);
    }
}

proof fn lemma_same_outcome_with(s: Tally, t: Tally, record: FileRecord)
    requires
        same_outcome(s, t),
    ensures
        same_outcome(tally_with(s, record), tally_with(t, record)),
{
    broadcast use vstd::seq_lib::group_to_multiset_ensures;

}

proof fn lemma_records_commute(tally: Tally, r: FileRecord, q: FileRecord)
    ensures
        same_outcome(tally_with(tally_with(tally, r), q), tally_with(tally_with(tally, q), r)),
{
    broadcast use vstd::seq_lib::group_to_multiset_ensures;

    let failed = tally.failed.to_multiset();
    assert(failed.insert(r.0).insert(q.0) =~= failed.insert(q.0).insert(r.0));
}

/// A run that skips every file downloads none, and none fails.
pub proof fn law_run_that_skips_every_file(records: Seq<FileRecord>)
    requires
        forall|i: int|
            0 <= i < records.len() ==> (#[trigger] records[i]).1 == Ok::<
                DownloadOutcome,
                DownloadError,
            >(DownloadOutcome::Skipped),
    ensures
        tally_of(records).succeeded == 0,
        tally_of(records).skipped == records.len(),
        tally_of(records).failed == Seq::<Seq<char>>::empty(),
    decreases records.len(),
{
    if records.len() > 0 {
        let less = records.drop_last();
        assert forall|i: int| 0 <= i < less.len() implies (#[trigger] less[i]).1 == Ok::<
            DownloadOutcome,
            DownloadError,
        >(DownloadOutcome::Skipped) by {
            assert(less[i] == records[i]);
        }
        law_run_that_skips_every_file(less);
        assert(records[records.len() - 1] == records.last());
    }
}

/// Whether every file that was saved or skipped is among `files`, the names in
/// the download directory. `records` are the results in the order of the URLs.
pub open spec fn are_in_place(records: Seq<FileRecord>, files: Set<Seq<char>>) -> bool {
    forall|i: int|
        0 <= i < records.len() && (#[trigger] records[i]).1 is Ok ==> files.contains(
            file_name(records[i].0, i as nat),
        )
}

/// The names that are left in the download directory once the incomplete
/// downloads have been removed.
pub open spec fn cleaned(files: Set<Seq<char>>) -> Set<Seq<char>> {
    files.filter(|name: Seq<char>| !is_part_name(name))
}

/// Downloading a list again after a run in which no URL failed skips every file,
/// whatever the attempts would have ended with. `files` are the names in the
/// download directory after that run; no file is named like an incomplete
/// download, which would be removed in between.
pub proof fn law_second_run_skips_every_file(
    first: Seq<FileRecord>,
    files: Set<Seq<char>>,
    events: Seq<Seq<AttemptEvent>>,
    second: Seq<FileRecord>,
)
    requires
        tally_of(first).failed.len() == 0,
        are_in_place(first, files),
        forall|i: int|
            0 <= i < first.len() ==> !is_part_name(file_name((#[trigger] first[i]).0, i as nat)),
        second.len() == first.len(),
        events.len() == first.len(),
        forall|i: int|
            0 <= i < second.len() ==> (#[trigger] second[i]).0 == first[i].0 && Some(second[i].1)
                == file_result(
                cleaned(files).contains(file_name(second[i].0, i as nat)),
                events[i],
            ),
    ensures
        tally_of(second).succeeded == 0,
        tally_of(second).skipped == first.len(),
        tally_of(second).failed == Seq::<Seq<char>>::empty(),
{
    lemma_no_failure_among(first);
    assert forall|i: int| 0 <= i < second.len() implies (#[trigger] second[i]).1 == Ok::<
        DownloadOutcome,
        DownloadError,
    >(DownloadOutcome::Skipped) by {
        assert(first[i].1 is Ok);
        assert(cleaned(files).contains(file_name(first[i].0, i as nat)));
    }
    law_run_that_skips_every_file(second);
}

proof fn lemma_no_failure_among(records: Seq<FileRecord>)
    requires
        tally_of(records).failed.len() == 0,
    ensures
        forall|i: int| 0 <= i < records.len() ==> (#[trigger] records[i]).1 is Ok,
    decreases records.len(),
{
    if records.len() > 0 {
        let less = records.drop_last();
        lemma_no_failure_among(less);
        assert forall|i: int| 0 <= i < records.len() implies (#[trigger] records[i]).1 is Ok by {
            if i < less.len() {
                assert(less[i] == records[i]);
            }
        }
    }
}

/// Each count is that of the results of its kind.
pub proof fn law_counts_are_those_of_the_results(records: Seq<FileRecord>)
    ensures
        tally_of(records).succeeded == records.filter(
            |r: FileRecord| r.1 == Ok::<DownloadOutcome, DownloadError>(DownloadOutcome::Saved),
        ).len(),
        tally_of(records).skipped == records.filter(
            |r: FileRecord| r.1 == Ok::<DownloadOutcome, DownloadError>(DownloadOutcome::Skipped),
        ).len(),
        tally_of(records).failed.len() == records.filter(|r: FileRecord| r.1 is Err).len(),
    decreases records.len(),
{
    reveal(Seq::filter);
    if records.len() > 0 {
        law_counts_are_those_of_the_results(records.drop_last());
    }
}

/// The summary gives the three counts, and nothing that depends on more than
/// them.
pub proof fn law_summary_gives_the_counts(succeeded: nat, skipped: nat, failed: nat)
    ensures
        ({
            let text = summary_text(succeeded, skipped, failed);
            let first = decimal(succeeded).len() as int;
            let second = first + 13 + decimal(skipped).len();
            &&& text.len() == second + 10 + decimal(failed).len() + 7
            &&& text.take(first) == decimal(succeeded)
            &&& text.subrange(first, first + 13) == " downloaded, "@
            &&& text.subrange(first + 13, second) == decimal(skipped)
            &&& text.subrange(second, second + 10) == " skipped, "@
            &&& text.subrange(second + 10, text.len() - 7) == decimal(failed)
            &&& text.skip(text.len() - 7) == " failed"@
        }),
{
    reveal_strlit(" downloaded, ");
    reveal_strlit(" skipped, ");
    reveal_strlit(" failed");
    let text = summary_text(succeeded, skipped, failed);
    let first = decimal(succeeded).len() as int;
    let second = first + 13 + decimal(skipped).len();
    assert(text.take(first) =~= decimal(succeeded));
    assert(text.subrange(first, first + 13) =~= " downloaded, "@);
    assert(text.subrange(first + 13, second) =~= decimal(skipped));
    assert(text.subrange(second, second + 10) =~= " skipped, "@);
    assert(text.subrange(second + 10, text.len() - 7) =~= decimal(failed));
    assert(text.skip(text.len() - 7) =~= " failed"@);
}

/// Cleaning the download directory removes just the files whose names end in
/// `.part` with something before it; every other file stays.
pub proof fn law_cleaning_removes_only_part_files(files: Set<Seq<char>>, name: Seq<char>)
    ensures
        cleaned(files).contains(name) ==> files.contains(name),
        files.contains(name) && (name.len() <= 5 || name.skip(name.len() - 5) != ".part"@)
            ==> cleaned(files).contains(name),
        name.len() > 5 && name.skip(name.len() - 5) == ".part"@ ==> !cleaned(files).contains(name),
{
    reveal_strlit(".part");
    law_only_part_files_are_recognised(name);
    if name.len() > 5 {
        let tail = name.skip(name.len() - 5);
        assert(tail[0] == name[name.len() - 5] && tail[1] == name[name.len() - 4] && tail[2]
            == name[name.len() - 3] && tail[3] == name[name.len() - 2] && tail[4] == name[name.len()
            - 1]);
        if is_part_name(name) {
            assert(tail =~= ".part"@);
        }
    }
}

/// Downloading a list again after a run in which no URL failed skips every file,
/// where no URL ends in `.part`.
pub proof fn law_second_run_skips_what_does_not_end_in_part(
    first: Seq<FileRecord>,
    files: Set<Seq<char>>,
    events: Seq<Seq<AttemptEvent>>,
    second: Seq<FileRecord>,
)
    requires
        tally_of(first).failed.len() == 0,
        are_in_place(first, files),
        forall|i: int|
            0 <= i < first.len() ==> (#[trigger] first[i]).0.len() < 5 || first[i].0.skip(
                first[i].0.len() - 5,
            ) != ".part"@,
        second.len() == first.len(),
        events.len() == first.len(),
        forall|i: int|
            0 <= i < second.len() ==> (#[trigger] second[i]).0 == first[i].0 && Some(second[i].1)
                == file_result(
                cleaned(files).contains(file_name(second[i].0, i as nat)),
                events[i],
            ),
    ensures
        tally_of(second).succeeded == 0,
        tally_of(second).skipped == first.len(),
        tally_of(second).failed == Seq::<Seq<char>>::empty(),
{
    assert forall|i: int| 0 <= i < first.len() implies !is_part_name(
        file_name((#[trigger] first[i]).0, i as nat),
    ) by {
        lemma_file_of_url_is_no_part_file(first[i].0, i as nat);
    }
    law_second_run_skips_every_file(first, files, events, second);
}

proof fn lemma_file_of_url_is_no_part_file(url: Seq<char>, idx: nat)
    requires
        url.len() < 5 || url.skip(url.len() - 5) != ".part"@,
    ensures
        !is_part_name(file_name(url, idx)),
{
    reveal_strlit(".part");
    let name = file_name(url, idx);
    law_only_part_files_are_recognised(name);
    if is_part_name(name) {
        if url.len() > 0 && url.last() != '/' {
            law_file_name_is_the_tail_of_the_url(url, idx);
            let start = url.len() - name.len();
            assert(url.skip(url.len() - 5) =~= ".part"@) by {
                assert forall|k: int| 0 <= k < name.len() implies #[trigger] name[k] == url[start
                    + k] by {
                    assert((url.take(start) + name)[start + k] == name[k]);
                }
            }
        } else {
            law_nameless_urls_are_numbered(url, idx, url, idx);
            law_decimal_is_read_back(idx);
            let digits = decimal(idx);
            assert(is_digit(digits[digits.len() - 1]));
            assert(name[name.len() - 1] == digits[digits.len() - 1]);
        }
    }
}

/// A download may take a minute.
pub proof fn law_download_may_take_a_minute()
    ensures
        TIMEOUT_SECS == 60,
{
}

} // verus!
