//! The download of one file: when an attempt is repeated, after which delay, and
//! what becomes of the file.

use crate::file_names::{file_name, filename_of, part_name};
use crate::headers::{
    ascii_text, has_header, header_entries, header_str, header_text, is_header_name, is_visible,
};
use crate::rate_limit::{block_end, held_back, later, law_block_is_honoured};
use crate::retry::{
    backoff, busy, doubled, is_busy, is_success, law_backoff_is_exponential, next_delay, success,
};
use crate::text::{
    decimal, decimal_text, is_digit, law_decimal_is_read_back, law_number_is_parsed,
    law_only_numbers_are_parsed, padded, parse_u64, parsed_u64, texts,
};
use reqwest::header::HeaderMap;
use vstd::arithmetic::power2::pow2;
use vstd::prelude::*;
use vstd::string::*;

verus! {

/// How often a file is tried.
pub const MAX_RETRIES: u32 = 8;

/// The delay after the first failed attempt, in seconds.
pub const FIRST_DELAY_SECS: u64 = 5;

/// The longest delay that is not the server's own, in seconds.
pub const MAX_DELAY_SECS: u64 = 300;

/// What is added to the server's own waiting time for the next delay, in
/// seconds.
pub const RETRY_AFTER_BUFFER_SECS: u64 = 2;

/// The status line: the first two names, and how many more there are.
pub open spec fn active_text(names: Seq<Seq<char>>) -> Seq<char> {
    if names.len() == 0 {
        seq![]
    } else if names.len() == 1 {
        "↓ "@ + names[0]
    } else if names.len() == 2 {
        "↓ "@ + names[0] + "  ↓ "@ + names[1]
    } else {
        "↓ "@ + names[0] + "  ↓ "@ + names[1] + "  (+"@ + decimal((names.len() - 2) as nat)
            + ")"@
    }
}

/// The status line for the files that are being downloaded.
pub fn format_active(names: &[String]) -> (line: String)
    ensures
        line@ == active_text(texts(names@)),
{
    let mut line = String::new();
    if names.len() == 0 {
        return line;
    }
    line.append("↓ ");
    line.append(names[0].as_str());
    assert(line@ =~= "↓ "@ + texts(names@)[0]);
    if names.len() == 1 {
        return line;
    }
    line.append("  ↓ ");
    line.append(names[1].as_str());
    if names.len() == 2 {
        return line;
    }
    line.append("  (+");
    line.append(decimal_text((names.len() - 2) as u64).as_str());
    line.append(")");
    line
}

/// What became of a file that needs no retry.
#[derive(Clone, Copy, Debug, PartialEq, Eq)]
pub enum DownloadOutcome {
    /// Downloaded and moved to its place.
    Saved,
    /// Already in its place.
    Skipped,
}

/// Why a file was given up.
#[derive(Clone, Copy, Debug, PartialEq, Eq)]
pub enum DownloadError {
    /// Every attempt failed.
    ExhaustedRetries,
    /// The server refused with this status code.
    Status(u16),
    /// The file for the incomplete download could not be made.
    CreatePart,
}

/// How an attempt at a file ended.
#[derive(Clone, Copy, Debug, PartialEq, Eq)]
pub enum AttemptEvent {
    /// No reply came.
    NetworkError,
    /// The server asked for a later attempt. `wait_secs` is how long to wait,
    /// `retry_after` whether the reply had a `Retry-After` header.
    Busy { wait_secs: u64, retry_after: bool },
    /// The server refused with this status code.
    Rejected { status: u16 },
    /// The file for the incomplete download could not be made.
    CreateFailed,
    /// The body did not arrive, or was not written, or not moved to its place.
    Incomplete,
    /// The body was written and moved to its place.
    Stored,
}

/// What follows an attempt.
#[derive(Clone, Copy, Debug, PartialEq, Eq)]
pub enum FileStep {
    /// The file is done with.
    Finished(Result<DownloadOutcome, DownloadError>),
    /// After `wait_secs` seconds comes the next attempt, if any is left. Before
    /// the wait the incomplete file is removed, where `discard_part` says so,
    /// and all workers are blocked for as long, where `block_all` does.
    Retry { wait_secs: u64, discard_part: bool, block_all: bool },
}

/// What comes before the first attempt at a file.
#[derive(Debug, PartialEq, Eq)]
pub enum FileStart {
    /// No attempt is needed.
    Finished(DownloadOutcome),
    /// The file is under way; `status` is the new status line.
    Active { status: String },
}

/// The waiting time that the headers of a reply give: the number in the
/// `Retry-After` header, or `delay` where no number stands there.
pub open spec fn retry_wait(entries: Map<Seq<char>, Seq<Seq<u8>>>, delay: u64) -> u64 {
    match header_text(entries, "retry-after"@) {
        Some(text) => match parsed_u64(text) {
            Some(secs) => secs,
            None => delay,
        },
        None => delay,
    }
}

/// How the attempt ends with the head of a reply; `None` where the body is
/// still to be stored.
pub open spec fn reply_event(
    status: u16,
    entries: Map<Seq<char>, Seq<Seq<u8>>>,
    delay: u64,
) -> Option<AttemptEvent> {
    if is_busy(status) {
        Some(
            AttemptEvent::Busy {
                wait_secs: retry_wait(entries, delay),
                retry_after: entries.contains_key("retry-after"@),
            },
        )
    } else if !is_success(status) {
        Some(AttemptEvent::Rejected { status })
    } else {
        None
    }
}

/// What follows an attempt that ended so, at a time when the delay is `delay`.
pub open spec fn file_step(event: AttemptEvent, delay: u64) -> FileStep {
    match event {
        AttemptEvent::NetworkError => FileStep::Retry {
            wait_secs: delay,
            discard_part: false,
            block_all: false,
        },
        AttemptEvent::Busy { wait_secs, .. } => FileStep::Retry {
            wait_secs,
            discard_part: false,
            block_all: true,
        },
        AttemptEvent::Rejected { status } => FileStep::Finished(Err(DownloadError::Status(status))),
        AttemptEvent::CreateFailed => FileStep::Finished(Err(DownloadError::CreatePart)),
        AttemptEvent::Incomplete => FileStep::Retry {
            wait_secs: delay,
            discard_part: true,
            block_all: false,
        },
        AttemptEvent::Stored => FileStep::Finished(Ok(DownloadOutcome::Saved)),
    }
}

/// The delay after an attempt: the server's own waiting time and a buffer where
/// it gave one, else twice the delay before; never more than the maximum. An
/// attempt that is not repeated leaves it.
pub open spec fn delay_after(event: AttemptEvent, delay: nat) -> nat {
    match event {
        AttemptEvent::Busy { wait_secs, retry_after: true } => {
            if wait_secs + RETRY_AFTER_BUFFER_SECS <= MAX_DELAY_SECS {
                (wait_secs + RETRY_AFTER_BUFFER_SECS) as nat
            } else {
                MAX_DELAY_SECS as nat
            }
        },
        AttemptEvent::NetworkError
        | AttemptEvent::Busy { .. }
        | AttemptEvent::Incomplete => doubled(delay, MAX_DELAY_SECS as nat),
        _ => delay,
    }
}

/// The download of one file.
pub struct FileDownload {
    pub url: String,
    /// The name under which it is saved.
    pub filename: String,
    /// Its name while it is being written.
    pub part: String,
    /// How many attempts have failed.
    pub attempt: u32,
    /// The delay after the next failure, in seconds.
    pub delay_secs: u64,
}

impl FileDownload {
    pub open spec fn wf(&self) -> bool {
        &&& self.part@ == part_name(self.filename@)
        &&& self.attempt <= MAX_RETRIES
        &&& RETRY_AFTER_BUFFER_SECS <= self.delay_secs <= MAX_DELAY_SECS
    }

    /// The download of the `idx`-th URL, before any attempt.
    pub open spec fn is_fresh(&self, url: Seq<char>, idx: nat) -> bool {
        &&& self.url@ == url
        &&& self.filename@ == file_name(url, idx)
        &&& self.part@ == part_name(file_name(url, idx))
        &&& self.attempt == 0
        &&& self.delay_secs == FIRST_DELAY_SECS
    }

    /// The names and the URL stay.
    pub open spec fn same_file(&self, other: &FileDownload) -> bool {
        &&& self.url == other.url
        &&& self.filename == other.filename
        &&& self.part == other.part
    }

    /// The download of the `idx`-th URL.
    pub fn new(url: String, idx: usize) -> (download: FileDownload)
        ensures
            download.wf(),
            download.is_fresh(url@, idx as nat),
            download.url@ == url@,
            download.filename@ == file_name(url@, idx as nat),
            download.part@ == download.filename@ + ".part"@,
            download.attempt == 0,
            download.delay_secs == 5,
    {
        let filename = filename_of(url.as_str(), idx);
        let mut part = filename.clone();
        part.append(".part");
        FileDownload { url, filename, part, attempt: 0, delay_secs: FIRST_DELAY_SECS }
    }

    /// Skips a file that is in its place already; puts any other on the list of
    /// active files.
    pub fn begin(&self, dest_exists: bool, active: &mut Vec<String>) -> (start: FileStart)
        ensures
            dest_exists ==> start == FileStart::Finished(DownloadOutcome::Skipped) && final(active)@
                == old(active)@,
            !dest_exists ==> texts(final(active)@) == texts(old(active)@).push(self.filename@) && (
            start matches FileStart::Active { status } && status@ == active_text(
                texts(old(active)@).push(self.filename@),
            )),
    {
        if dest_exists {
            return FileStart::Finished(DownloadOutcome::Skipped);
        }
        active.push(self.filename.clone());
        assert(texts(active@) =~= texts(old(active)@).push(self.filename@));
        FileStart::Active { status: format_active(active.as_slice()) }
    }

    /// The number of the next attempt, from one on, or the error where none is
    /// left.
    pub fn next_attempt(&self) -> (number: Result<u32, DownloadError>)
        ensures
            number == if self.attempt < MAX_RETRIES {
                Ok::<u32, DownloadError>((self.attempt + 1) as u32)
            } else {
                Err(DownloadError::ExhaustedRetries)
            },
    {
        if self.attempt < MAX_RETRIES {
            Ok(self.attempt + 1)
        } else {
            Err(DownloadError::ExhaustedRetries)
        }
    }

    /// How the attempt ends with the head of a reply; `None` where the body is
    /// to be stored.
    pub fn on_reply(&self, status: u16, headers: &HeaderMap) -> (event: Option<AttemptEvent>)
        ensures
            event == reply_event(status, header_entries(*headers), self.delay_secs),
    {
        if busy(status) {
            proof {
                reveal_strlit("retry-after");
                assert(is_header_name("retry-after"@));
            }
            let retry_after = has_header(headers, "retry-after");
            let wait_secs: u64 = match header_str(headers, "retry-after") {
                Some(text) => match parse_u64(text) {
                    Some(secs) => secs,
                    None => self.delay_secs,
                },
                None => self.delay_secs,
            };
            Some(AttemptEvent::Busy { wait_secs, retry_after })
        } else if !success(status) {
            Some(AttemptEvent::Rejected { status })
        } else {
            None
        }
    }

    /// Takes note of how an attempt ended, and says what follows.
    pub fn on_event(&mut self, event: AttemptEvent) -> (step: FileStep)
        requires
            old(self).wf(),
            old(self).attempt < MAX_RETRIES,
        ensures
            final(self).wf(),
            final(self).same_file(old(self)),
            step == file_step(event, old(self).delay_secs),
            event matches AttemptEvent::Busy { wait_secs, .. } ==> step == (FileStep::Retry {
                wait_secs,
                discard_part: false,
                block_all: true,
            }),
            event is NetworkError ==> step == (FileStep::Retry {
                wait_secs: old(self).delay_secs,
                discard_part: false,
                block_all: false,
            }),
            event is Incomplete ==> step == (FileStep::Retry {
                wait_secs: old(self).delay_secs,
                discard_part: true,
                block_all: false,
            }),
            event matches AttemptEvent::Rejected { status } ==> step == FileStep::Finished(
                Err(DownloadError::Status(status)),
            ),
            event is CreateFailed ==> step == FileStep::Finished(Err(DownloadError::CreatePart)),
            event is Stored ==> step == FileStep::Finished(Ok(DownloadOutcome::Saved)),
            final(self).attempt == old(self).attempt + if step is Retry {
                1int
            } else {
                0int
            },
            final(self).delay_secs == delay_after(event, old(self).delay_secs as nat),
    {
        let delay_secs = self.delay_secs;
        match event {
            AttemptEvent::NetworkError => {
                self.attempt = self.attempt + 1;
                self.delay_secs = next_delay(delay_secs, MAX_DELAY_SECS);
                FileStep::Retry { wait_secs: delay_secs, discard_part: false, block_all: false }
            },
            AttemptEvent::Busy { wait_secs, retry_after } => {
                self.attempt = self.attempt + 1;
                self.delay_secs =
                if retry_after {
                    if wait_secs <= MAX_DELAY_SECS - RETRY_AFTER_BUFFER_SECS {
                        wait_secs + RETRY_AFTER_BUFFER_SECS
                    } else {
                        MAX_DELAY_SECS
                    }
                } else {
                    next_delay(delay_secs, MAX_DELAY_SECS)
                };
                FileStep::Retry { wait_secs, discard_part: false, block_all: true }
            },
            AttemptEvent::Rejected { status } => FileStep::Finished(
                Err(DownloadError::Status(status)),
            ),
            AttemptEvent::CreateFailed => FileStep::Finished(Err(DownloadError::CreatePart)),
            AttemptEvent::Incomplete => {
                self.attempt = self.attempt + 1;
                self.delay_secs = next_delay(delay_secs, MAX_DELAY_SECS);
                FileStep::Retry { wait_secs: delay_secs, discard_part: true, block_all: false }
            },
            AttemptEvent::Stored => FileStep::Finished(Ok(DownloadOutcome::Saved)),
        }
    }

    /// Takes the file off the list of active files, and gives the new status
    /// line.
    pub fn finish(&self, active: &mut Vec<String>) -> (status: String)
        ensures
            texts(final(active)@) == without_name(texts(old(active)@), self.filename@),
            status@ == active_text(without_name(texts(old(active)@), self.filename@)),
    {
        let mut kept: Vec<String> = Vec::new();
        let ghost names = texts(active@);
        let mut i: usize = 0;
        assert(texts(kept@) =~= without_name(names.take(0), self.filename@)) by {
            reveal(Seq::filter);
        }
        while i < active.len()
            invariant
                i <= active@.len(),
                active@ == old(active)@,
                names == texts(active@),
                texts(kept@) == without_name(names.take(i as int), self.filename@),
            decreases active@.len() - i,
        {
            let name = active[i].clone();
            proof {
                reveal(Seq::filter);
                assert(names.take(i + 1).drop_last() =~= names.take(i as int));
                assert(name@ == names[i as int]);
            }
            if name != self.filename {
                kept.push(name);
            }
            assert(texts(kept@) =~= without_name(names.take(i + 1), self.filename@));
            i = i + 1;
        }
        assert(names.take(i as int) =~= names);
        *active = kept;
        format_active(active.as_slice())
    }
}

/// `names` without every occurrence of `name`.
pub open spec fn without_name(names: Seq<Seq<char>>, name: Seq<char>) -> Seq<Seq<char>> {
    names.filter(|n: Seq<char>| n != name)
}

/// Whether an attempt that ended so is repeated.
pub open spec fn is_repeated(event: AttemptEvent) -> bool {
    event is NetworkError || event is Busy || event is Incomplete
}

/// What becomes of a file whose attempts from now on end with `events`, when
/// `attempt` of them have failed and the delay is `delay`; `None` where more
/// events decide.
pub open spec fn run_result(attempt: nat, delay: u64, events: Seq<AttemptEvent>) -> Option<
    Result<DownloadOutcome, DownloadError>,
>
    decreases events.len(),
{
    if attempt >= MAX_RETRIES {
        Some(Err(DownloadError::ExhaustedRetries))
    } else if events.len() == 0 {
        None
    } else {
        match file_step(events[0], delay) {
            FileStep::Finished(result) => Some(result),
            FileStep::Retry { .. } => run_result(
                attempt + 1,
                delay_after(events[0], delay as nat) as u64,
                events.skip(1),
            ),
        }
    }
}

/// What becomes of a file in a run whose attempts at it end with `events`. One
/// that is in its place already is skipped, and no attempt is made.
pub open spec fn file_result(in_place: bool, events: Seq<AttemptEvent>) -> Option<
    Result<DownloadOutcome, DownloadError>,
> {
    if in_place {
        Some(Ok(DownloadOutcome::Skipped))
    } else {
        run_result(0, FIRST_DELAY_SECS, events)
    }
}

/// The delay after a run of attempts that ended with `events`.
pub open spec fn delay_after_all(events: Seq<AttemptEvent>) -> nat
    decreases events.len(),
{
    if events.len() == 0 {
        FIRST_DELAY_SECS as nat
    } else {
        delay_after(events.last(), delay_after_all(events.drop_last()))
    }
}

/// Whether the attempt at `k` decides the run: it is one of those that are
/// made, it is not repeated, and all before it are.
pub open spec fn decided_at(attempt: nat, events: Seq<AttemptEvent>, k: int) -> bool {
    &&& 0 <= k < events.len()
    &&& attempt + k < MAX_RETRIES
    &&& !is_repeated(events[k])
    &&& forall|i: int| 0 <= i < k ==> is_repeated(#[trigger] events[i])
}

/// A file is tried a limited number of times: whatever the attempts end with,
/// the last one that is left decides.
pub proof fn law_every_file_is_decided(attempt: nat, delay: u64, events: Seq<AttemptEvent>)
    requires
        attempt + events.len() >= MAX_RETRIES,
    ensures
        run_result(attempt, delay, events) is Some,
    decreases events.len(),
{
    if attempt < MAX_RETRIES && file_step(events[0], delay) is Retry {
        law_every_file_is_decided(
            attempt + 1,
            delay_after(events[0], delay as nat) as u64,
            events.skip(1),
        );
    }
}

/// The first attempt that is not repeated decides what becomes of the file.
pub proof fn law_first_final_attempt_decides(
    attempt: nat,
    delay: u64,
    events: Seq<AttemptEvent>,
    k: int,
)
    requires
        decided_at(attempt, events, k),
    ensures
        run_result(attempt, delay, events) == Some(
            match events[k] {
                AttemptEvent::Rejected { status } => Err(DownloadError::Status(status)),
                AttemptEvent::CreateFailed => Err(DownloadError::CreatePart),
                _ => Ok::<DownloadOutcome, DownloadError>(DownloadOutcome::Saved),
            },
        ),
    decreases events.len(),
{
    if k > 0 {
        assert(is_repeated(events[0]));
        let rest = events.skip(1);
        assert(rest[k - 1] == events[k]);
        assert forall|i: int| 0 <= i < k - 1 implies is_repeated(#[trigger] rest[i]) by {
            assert(rest[i] == events[i + 1]);
        }
        law_first_final_attempt_decides(
            attempt + 1,
            delay_after(events[0], delay as nat) as u64,
            rest,
            k - 1,
        );
    }
}

/// A file is given up for want of attempts just when every attempt that was
/// left has been repeated.
pub proof fn law_exhausted_when_all_attempts_repeat(
    attempt: nat,
    delay: u64,
    events: Seq<AttemptEvent>,
)
    requires
        attempt <= MAX_RETRIES,
    ensures
        (run_result(attempt, delay, events) == Some(
            Err::<DownloadOutcome, DownloadError>(DownloadError::ExhaustedRetries),
        )) <==> (attempt + events.len() >= MAX_RETRIES && (forall|i: int|
            0 <= i < MAX_RETRIES - attempt ==> is_repeated(#[trigger] events[i]))),
    decreases events.len(),
{
    if attempt < MAX_RETRIES && events.len() > 0 {
        let rest = events.skip(1);
        if is_repeated(events[0]) {
            law_exhausted_when_all_attempts_repeat(
                attempt + 1,
                delay_after(events[0], delay as nat) as u64,
                rest,
            );
            assert(forall|i: int|
                0 <= i < events.len() - 1 ==> #[trigger] rest[i] == events[i + 1]);
            assert forall|i: int|
                0 <= i < MAX_RETRIES - attempt && attempt + events.len() >= MAX_RETRIES && (
                forall|j: int| 0 <= j < MAX_RETRIES - attempt - 1 ==> is_repeated(#[trigger] rest[j])) implies is_repeated(
            #[trigger] events[i]) by {
                if i > 0 {
                    assert(rest[i - 1] == events[i]);
                }
            }
        }
    }
}

/// A file is saved just when an attempt stores it and all before that one are
/// repeated.
pub proof fn law_saved_when_an_attempt_stores(attempt: nat, delay: u64, events: Seq<AttemptEvent>)
    requires
        attempt <= MAX_RETRIES,
    ensures
        (run_result(attempt, delay, events) == Some(
            Ok::<DownloadOutcome, DownloadError>(DownloadOutcome::Saved),
        )) <==> (exists|k: int|
            #[trigger] decided_at(attempt, events, k) && events[k] is Stored),
    decreases events.len(),
{
    let saved = run_result(attempt, delay, events) == Some(
        Ok::<DownloadOutcome, DownloadError>(DownloadOutcome::Saved),
    );
    if exists|k: int| #[trigger] decided_at(attempt, events, k) && events[k] is Stored {
        let k = choose|k: int| #[trigger] decided_at(attempt, events, k) && events[k] is Stored;
        law_first_final_attempt_decides(attempt, delay, events, k);
    }
    if saved {
        if is_repeated(events[0]) {
            let rest = events.skip(1);
            law_saved_when_an_attempt_stores(
                attempt + 1,
                delay_after(events[0], delay as nat) as u64,
                rest,
            );
            let k = choose|k: int|
                #[trigger] decided_at(attempt + 1, rest, k) && rest[k] is Stored;
            assert(events[k + 1] == rest[k]);
            assert forall|i: int| 0 <= i < k + 1 implies is_repeated(#[trigger] events[i]) by {
                if i > 0 {
                    assert(rest[i - 1] == events[i]);
                }
            }
            assert(decided_at(attempt, events, k + 1));
        } else {
            assert(decided_at(attempt, events, 0));
        }
    }
}

/// Without a waiting time of the server's own the delay grows exponentially
/// from its first value up to the maximum.
pub proof fn law_delay_backs_off(events: Seq<AttemptEvent>)
    requires
        forall|i: int|
            0 <= i < events.len() ==> is_repeated(#[trigger] events[i]) && !(events[i] matches AttemptEvent::Busy {
                retry_after: true,
                ..
            }),
    ensures
        delay_after_all(events) == backoff(
            FIRST_DELAY_SECS as nat,
            MAX_DELAY_SECS as nat,
            events.len(),
        ),
    decreases events.len(),
{
    if events.len() > 0 {
        let less = events.drop_last();
        assert forall|i: int| 0 <= i < less.len() implies is_repeated(#[trigger] less[i]) && !(
        less[i] matches AttemptEvent::Busy { retry_after: true, .. }) by {
            assert(less[i] == events[i]);
        }
        law_delay_backs_off(less);
        assert(is_repeated(events[events.len() - 1]));
    }
}

/// No delay ever exceeds the maximum, whatever the server asks for.
pub proof fn law_delay_is_bounded(events: Seq<AttemptEvent>)
    ensures
        RETRY_AFTER_BUFFER_SECS <= delay_after_all(events) <= MAX_DELAY_SECS,
    decreases events.len(),
{
    if events.len() > 0 {
        law_delay_is_bounded(events.drop_last());
    }
}

/// A file that has been put on the list of active files and taken off again
/// leaves the list as it was, where it was not on it before.
pub proof fn law_finish_undoes_begin(names: Seq<Seq<char>>, name: Seq<char>)
    requires
        !names.contains(name),
    ensures
        without_name(names.push(name), name) == names,
{
    reveal(Seq::filter);
    assert(names.push(name).drop_last() =~= names);
    lemma_without_absent_name(names, name);
}

proof fn lemma_without_absent_name(names: Seq<Seq<char>>, name: Seq<char>)
    requires
        !names.contains(name),
    ensures
        without_name(names, name) == names,
    decreases names.len(),
{
    reveal(Seq::filter);
    if names.len() > 0 {
        let less = names.drop_last();
        assert(names[names.len() - 1] == names.last());
        assert(!less.contains(name)) by {
            if less.contains(name) {
                let i = choose|i: int| 0 <= i < less.len() && less[i] == name;
                assert(names[i] == name);
            }
        }
        lemma_without_absent_name(less, name);
        assert(less.push(names.last()) =~= names);
    }
}

/// A file that is finished is no longer on the list of active files.
pub proof fn law_finished_file_is_not_active(names: Seq<Seq<char>>, name: Seq<char>)
    ensures
        !without_name(names, name).contains(name),
{
    broadcast use vstd::seq_lib::group_filter_ensures;

}

/// Whether the bytes are those of the ASCII text `text`.
pub open spec fn spells(bytes: Seq<u8>, text: Seq<char>) -> bool {
    &&& bytes.len() == text.len()
    &&& forall|i: int| 0 <= i < text.len() ==> #[trigger] bytes[i] as int == text[i] as int
}

proof fn lemma_spelled_number_is_read(
    entries: Map<Seq<char>, Seq<Seq<u8>>>,
    delay: u64,
    zeros: nat,
    n: u64,
)
    requires
        entries.contains_key("retry-after"@),
        spells(entries["retry-after"@][0], padded(zeros, n as nat)) || spells(
            entries["retry-after"@][0],
            seq!['+'] + padded(zeros, n as nat),
        ),
    ensures
        retry_wait(entries, delay) == n,
{
    let bytes = entries["retry-after"@][0];
    let text = if spells(bytes, padded(zeros, n as nat)) {
        padded(zeros, n as nat)
    } else {
        seq!['+'] + padded(zeros, n as nat)
    };
    law_number_is_parsed(zeros, n);
    law_decimal_is_read_back(n as nat);
    assert forall|i: int| 0 <= i < text.len() implies text[i] == '+' || '0' <= #[trigger] text[i]
        <= '9' by {
        let start = text.len() - decimal(n as nat).len();
        if i >= start {
            assert(is_digit(decimal(n as nat)[i - start]));
            assert(text[i] == decimal(n as nat)[i - start]);
        }
    }
    assert forall|i: int| 0 <= i < bytes.len() implies (#[trigger] bytes[i] == 9 || 32 <= bytes[i]
        < 127) by {
        assert(bytes[i] as int == text[i] as int);
    }
    assert(is_visible(bytes));
    assert(ascii_text(bytes) =~= text);
}

/// A busy server that says how long to wait is waited for just as long, however
/// long that is, and by all workers.
pub proof fn law_waiting_time_of_the_server_is_kept(
    status: u16,
    entries: Map<Seq<char>, Seq<Seq<u8>>>,
    delay: u64,
    zeros: nat,
    n: u64,
)
    requires
        status == 429 || status / 100 == 5,
        entries.contains_key("retry-after"@),
        spells(entries["retry-after"@][0], padded(zeros, n as nat)) || spells(
            entries["retry-after"@][0],
            seq!['+'] + padded(zeros, n as nat),
        ),
    ensures
        reply_event(status, entries, delay) matches Some(event) && event == (AttemptEvent::Busy {
            wait_secs: n,
            retry_after: true,
        }) && file_step(event, delay) == (FileStep::Retry {
            wait_secs: n,
            discard_part: false,
            block_all: true,
        }),
{
    lemma_spelled_number_is_read(entries, delay, zeros, n);
}

/// A busy server that does not say how long to wait, or not in a number, is
/// waited for as long as the delay has become, and by all workers.
pub proof fn law_without_a_waiting_time_the_delay_is_kept(
    status: u16,
    entries: Map<Seq<char>, Seq<Seq<u8>>>,
    delay: u64,
)
    requires
        status == 429 || status / 100 == 5,
        entries.contains_key("retry-after"@) ==> forall|zeros: nat, n: u64|
            !spells(entries["retry-after"@][0], #[trigger] padded(zeros, n as nat)) && !spells(
                entries["retry-after"@][0],
                seq!['+'] + padded(zeros, n as nat),
            ),
    ensures
        reply_event(status, entries, delay) matches Some(event) && event == (AttemptEvent::Busy {
            wait_secs: delay,
            retry_after: entries.contains_key("retry-after"@),
        }) && file_step(event, delay) == (FileStep::Retry {
            wait_secs: delay,
            discard_part: false,
            block_all: true,
        }),
{
    match header_text(entries, "retry-after"@) {
        Some(text) => {
            if parsed_u64(text) is Some {
                law_only_numbers_are_parsed(text);
                let n = parsed_u64(text)->0;
                let zeros = choose|zeros: nat|
                    text == #[trigger] padded(zeros, n as nat) || text == seq!['+'] + padded(
                        zeros,
                        n as nat,
                    );
                assert(spells(entries["retry-after"@][0], text));
                assert(padded(zeros, n as nat) == padded(zeros, n as nat));
            }
        },
        None => {},
    }
}

/// A reply that is not that of a busy server ends the download where it is no
/// success, and else brings the body.
pub proof fn law_other_replies_are_final(
    status: u16,
    entries: Map<Seq<char>, Seq<Seq<u8>>>,
    delay: u64,
)
    requires
        status != 429,
        status / 100 != 5,
    ensures
        reply_event(status, entries, delay) == if status / 100 == 2 {
            None::<AttemptEvent>
        } else {
            Some(AttemptEvent::Rejected { status })
        },
{
}

/// Once a busy server has asked for `n` seconds at the moment `now`, no worker
/// sends a request before they have passed, whatever the moment at which it is
/// about to.
pub proof fn law_no_worker_asks_before_the_waiting_time_is_over(
    status: u16,
    entries: Map<Seq<char>, Seq<Seq<u8>>>,
    delay: u64,
    zeros: nat,
    n: u64,
    before: Option<u128>,
    now: u128,
    moment: u128,
)
    requires
        status == 429 || status / 100 == 5,
        entries.contains_key("retry-after"@),
        spells(entries["retry-after"@][0], padded(zeros, n as nat)),
        now + n * 1_000_000_000 <= u128::MAX,
    ensures
        ({
            &&& reply_event(status, entries, delay) matches Some(event)
            &&& file_step(event, delay) matches FileStep::Retry { wait_secs, block_all, .. }
            &&& block_all
            &&& moment + held_back(Some(later(before, block_end(now, wait_secs))), moment) >= now
                + n * 1_000_000_000
        }),
{
    law_waiting_time_of_the_server_is_kept(status, entries, delay, zeros, n);
    law_block_is_honoured(before, now, n, moment);
}

/// An attempt without a reply, or whose body was not stored, is repeated after
/// the delay, by this worker alone; an incomplete file is removed first.
pub proof fn law_failed_attempt_waits_for_the_delay(delay: u64)
    ensures
        file_step(AttemptEvent::NetworkError, delay) == (FileStep::Retry {
            wait_secs: delay,
            discard_part: false,
            block_all: false,
        }),
        file_step(AttemptEvent::Incomplete, delay) == (FileStep::Retry {
            wait_secs: delay,
            discard_part: true,
            block_all: false,
        }),
{
}

/// A refusal, a file that cannot be made and a file that was stored end the
/// download, whatever the delay.
pub proof fn law_other_attempts_end_the_download(status: u16, delay: u64)
    ensures
        file_step(AttemptEvent::Rejected { status }, delay) == FileStep::Finished(
            Err(DownloadError::Status(status)),
        ),
        file_step(AttemptEvent::CreateFailed, delay) == FileStep::Finished(
            Err(DownloadError::CreatePart),
        ),
        file_step(AttemptEvent::Stored, delay) == FileStep::Finished(Ok(DownloadOutcome::Saved)),
{
}

/// The delay after an attempt: two seconds more than the server asked for, where
/// it did, else twice what it was, in both cases at most five minutes; and what
/// it was, where the attempt is not repeated.
pub proof fn law_delay_after_an_attempt(event: AttemptEvent, delay: nat)
    ensures
        event matches AttemptEvent::Busy { wait_secs, retry_after: true } ==> {
            &&& delay_after(event, delay) <= 300
            &&& delay_after(event, delay) == 300 || delay_after(event, delay) == wait_secs + 2
            &&& delay_after(event, delay) <= wait_secs + 2
        },
        event is NetworkError || event is Incomplete || (event matches AttemptEvent::Busy {
            retry_after: false,
            ..
        }) ==> {
            &&& delay_after(event, delay) <= 300
            &&& delay_after(event, delay) == 300 || delay_after(event, delay) == delay + delay
            &&& delay_after(event, delay) <= delay + delay
        },
        event is Rejected || event is CreateFailed || event is Stored ==> delay_after(event, delay)
            == delay,
{
}

/// Without a waiting time of the server's own the delays are five seconds, then
/// ten, then twenty and so on, up to five minutes.
pub proof fn law_delays_start_at_five_seconds(events: Seq<AttemptEvent>)
    requires
        forall|i: int|
            0 <= i < events.len() ==> (#[trigger] events[i] is NetworkError || events[i] is Incomplete
                || (events[i] matches AttemptEvent::Busy { retry_after: false, .. })),
    ensures
        delay_after_all(events) == if 5 * pow2(events.len()) <= 300 {
            5 * pow2(events.len())
        } else {
            300
        },
{
    law_delay_backs_off(events);
    law_backoff_is_exponential(5, 300, events.len());
}

/// A file is tried eight times: it is given up for want of attempts just when
/// the first eight have all met a busy server, no reply or an incomplete body.
pub proof fn law_file_is_tried_eight_times(events: Seq<AttemptEvent>)
    ensures
        (run_result(0, FIRST_DELAY_SECS, events) == Some(
            Err::<DownloadOutcome, DownloadError>(DownloadError::ExhaustedRetries),
        )) <==> (events.len() >= 8 && (forall|i: int|
            0 <= i < 8 ==> (#[trigger] events[i] is NetworkError || events[i] is Busy
                || events[i] is Incomplete))),
{
    law_exhausted_when_all_attempts_repeat(0, FIRST_DELAY_SECS, events);
    assert(forall|i: int|
        is_repeated(#[trigger] events[i]) <==> events[i] is NetworkError || events[i] is Busy
            || events[i] is Incomplete);
}

/// The status line names a file alone, two side by side, and of more only the
/// first two and how many there are besides.
pub proof fn law_status_line_names_two_files(a: Seq<char>, b: Seq<char>, more: Seq<Seq<char>>)
    ensures
        active_text(seq![]).len() == 0,
        active_text(seq![a]) == "↓ "@ + a,
        active_text(seq![a, b]) == active_text(seq![a]) + "  "@ + active_text(seq![b]),
        more.len() > 0 ==> active_text(seq![a, b] + more) == active_text(seq![a, b]) + "  (+"@
            + decimal(more.len()) + ")"@,
{
    reveal_strlit("↓ ");
    reveal_strlit("  ↓ ");
    reveal_strlit("  ");
    assert("  ↓ "@ =~= "  "@ + "↓ "@);
    assert(active_text(seq![a, b]) =~= active_text(seq![a]) + "  "@ + active_text(seq![b]));
    assert((seq![a, b] + more)[0] == a);
    assert((seq![a, b] + more)[1] == b);
}

/// Taking a file off the list of active files leaves all others, in their order.
pub proof fn law_finish_leaves_other_files(
    first: Seq<Seq<char>>,
    rest: Seq<Seq<char>>,
    name: Seq<char>,
    other: Seq<char>,
)
    ensures
        without_name(seq![], name).len() == 0,
        without_name(seq![name], name).len() == 0,
        other != name ==> without_name(seq![other], name) == seq![other],
        without_name(first + rest, name) == without_name(first, name) + without_name(rest, name),
    decreases rest.len(),
{
    reveal(Seq::filter);
    reveal_with_fuel(Seq::filter, 3);
    assert(seq![name].drop_last() =~= seq![]);
    assert(seq![other].drop_last() =~= seq![]);
    assert(other != name ==> without_name(seq![other], name) =~= seq![other]);
    if rest.len() == 0 {
        assert(first + rest =~= first);
        assert(without_name(first, name) + without_name(rest, name) =~= without_name(first, name));
    } else {
        law_finish_leaves_other_files(first, rest.drop_last(), name, other);
        assert((first + rest).drop_last() =~= first + rest.drop_last());
        assert(without_name(first + rest, name) =~= without_name(first, name) + without_name(
            rest,
            name,
        ));
    }
}

} // verus!
