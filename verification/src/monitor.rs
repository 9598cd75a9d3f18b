//! Following a running game and the log it writes.

use vstd::prelude::*;

use crate::bytes::copy_range;
use crate::game_log::{log_identity, monitor_path_changed};
#[allow(unused_imports)]
use crate::game_log::{followed_view, identity_text, is_path_change};
use crate::path::FilePath;
#[allow(unused_imports)]
use crate::path::opt_path;
use crate::text::same_text;
#[allow(unused_imports)]
use crate::text::opt_text;

verus! {

/// The most that one reading of the log takes in, in bytes.
pub const MAX_READING: u64 = 1048576;

/// What is remembered of the log that was read last.
pub struct LogPosition {
    /// The process that the log belongs to.
    pub process_pid: Option<u32>,
    /// The identity of the log.
    pub log_identity: Option<String>,
    /// How much of the log was taken in.
    pub log_offset: u64,
}

/// A log file as it stands.
pub struct LogFile {
    /// How its path reads.
    pub path: String,
    /// Its length in bytes.
    pub len: u64,
    /// The second in which it was created, where that is known.
    pub created: Option<u64>,
}

/// What looking for the log came to.
pub enum LogLookup {
    /// The game has no log yet.
    Missing,
    /// There is a log, but nothing can be learned of it.
    Unreadable,
    /// There is a log.
    Found(LogFile),
}

/// What was seen of a log.
pub struct LogObservation {
    /// The identity of the log.
    pub identity: String,
    /// How much of the log is now taken in.
    pub len: u64,
    /// The new bytes.
    pub bytes: Vec<u8>,
}

/// What one look at the log of a running game came to.
pub enum LogReading {
    /// The game has no log yet.
    Missing,
    /// The log could not be read.
    Unreadable,
    /// The log was seen.
    Seen(LogObservation),
}

/// What is to be done about the log of a running game.
pub enum ReadingPlan {
    /// Nothing has to be read.
    Settled(LogReading),
    /// `requested` bytes are to be read from `offset` on.
    Read { identity: String, offset: u64, requested: u64 },
}

/// What reading the log came to.
pub enum ReadOutcome {
    /// The log could not be opened or read.
    Failed,
    /// These bytes were read. Of a reading from the start of the log, `keep` says from where on
    /// they belong to this session; with none of them belonging to it there is no such place.
    Bytes { bytes: Vec<u8>, keep: Option<usize> },
}

/// [`LogReading`] with its contents as sequences.
pub enum ReadingView {
    Missing,
    Unreadable,
    Seen { identity: Seq<char>, len: u64, bytes: Seq<u8> },
}

/// [`ReadingPlan`] with its contents as sequences.
pub enum PlanView {
    Settled(ReadingView),
    Read { identity: Seq<char>, offset: u64, requested: u64 },
}

impl View for LogReading {
    type V = ReadingView;

    open spec fn view(&self) -> ReadingView {
        match self {
            LogReading::Missing => ReadingView::Missing,
            LogReading::Unreadable => ReadingView::Unreadable,
            LogReading::Seen(seen) => ReadingView::Seen {
                identity: seen.identity@,
                len: seen.len,
                bytes: seen.bytes@,
            },
        }
    }
}

impl View for ReadingPlan {
    type V = PlanView;

    open spec fn view(&self) -> PlanView {
        match self {
            ReadingPlan::Settled(reading) => PlanView::Settled(reading@),
            ReadingPlan::Read { identity, offset, requested } => PlanView::Read {
                identity: identity@,
                offset: *offset,
                requested: *requested,
            },
        }
    }
}

/// Where to read on: where the last reading ended if this is the same log and it has not shrunk,
/// and otherwise at its start.
pub open spec fn resume_offset(position: LogPosition, identity: Seq<char>, len: u64) -> u64 {
    if opt_text(position.log_identity) == Some(identity) && len >= position.log_offset {
        position.log_offset
    } else {
        0
    }
}

/// What is to be done about the log of the running process `pid`.
///
/// A process that was not followed before is only registered: what its log already holds is not
/// news. A log that has not grown has nothing to read.
pub open spec fn planned(position: LogPosition, pid: u32, lookup: LogLookup) -> PlanView {
    match lookup {
        LogLookup::Missing => PlanView::Settled(ReadingView::Missing),
        LogLookup::Unreadable => PlanView::Settled(ReadingView::Unreadable),
        LogLookup::Found(file) => {
            let identity = identity_text(file.path@, file.created);
            let offset = resume_offset(position, identity, file.len);
            if position.process_pid != Some(pid) {
                PlanView::Settled(
                    ReadingView::Seen { identity, len: file.len, bytes: Seq::empty() },
                )
            } else if file.len == offset {
                PlanView::Settled(ReadingView::Seen { identity, len: offset, bytes: Seq::empty() })
            } else {
                let rest = (file.len - offset) as u64;
                PlanView::Read {
                    identity,
                    offset,
                    requested: if rest < MAX_READING {
                        rest
                    } else {
                        MAX_READING
                    },
                }
            }
        },
    }
}

/// Decides what to do about the log of the running process `pid`.
pub fn plan_log_reading(position: &LogPosition, pid: u32, lookup: &LogLookup) -> (plan: ReadingPlan)
    ensures
        plan@ == planned(*position, pid, *lookup),
{
    match lookup {
        LogLookup::Missing => ReadingPlan::Settled(LogReading::Missing),
        LogLookup::Unreadable => ReadingPlan::Settled(LogReading::Unreadable),
        LogLookup::Found(file) => {
            let identity = log_identity(file.path.as_str(), file.created);
            let same_process = match position.process_pid {
                Some(known) => known == pid,
                None => false,
            };
            if !same_process {
                return ReadingPlan::Settled(
                    LogReading::Seen(
                        LogObservation { identity, len: file.len, bytes: Vec::new() },
                    ),
                );
            }
            let same_log = match &position.log_identity {
                Some(known) => same_text(known.as_str(), identity.as_str()),
                None => false,
            };
            let offset: u64 = if same_log && file.len >= position.log_offset {
                position.log_offset
            } else {
                0
            };
            if file.len == offset {
                return ReadingPlan::Settled(
                    LogReading::Seen(LogObservation { identity, len: offset, bytes: Vec::new() }),
                );
            }
            let rest: u64 = file.len - offset;
            let requested: u64 = if rest < MAX_READING {
                rest
            } else {
                MAX_READING
            };
            ReadingPlan::Read { identity, offset, requested }
        },
    }
}

/// What was seen of a log of `len` bytes, given what reading it from `offset` came to.
///
/// A reading from the start means that the log is another one under the same process, and what it
/// holds of earlier sessions is left out. Where all of it is from an earlier session the whole log
/// counts as taken in, also what lies beyond this reading.
pub open spec fn reading_result(
    identity: Seq<char>,
    offset: u64,
    len: u64,
    outcome: ReadOutcome,
) -> ReadingView {
    match outcome {
        ReadOutcome::Failed => ReadingView::Unreadable,
        ReadOutcome::Bytes { bytes, keep } => {
            let end = (offset + bytes@.len()) as u64;
            if offset != 0 {
                ReadingView::Seen { identity, len: end, bytes: bytes@ }
            } else {
                match keep {
                    Some(keep) => ReadingView::Seen { identity, len: end, bytes: bytes@.skip(keep as int) },
                    None => ReadingView::Seen { identity, len, bytes: Seq::empty() },
                }
            }
        },
    }
}

/// Whether reading at `offset` in a log of `len` bytes can have come to `outcome`.
pub open spec fn is_possible(offset: u64, len: u64, outcome: ReadOutcome) -> bool {
    outcome matches ReadOutcome::Bytes { bytes, keep } ==> offset + bytes@.len() <= len && (offset == 0
        && keep is Some ==> keep->0 <= bytes@.len())
}

/// Turns what reading the log came to into what was seen of it, and the new bytes by themselves.
pub fn finish_log_reading(identity: String, offset: u64, len: u64, outcome: ReadOutcome) -> (result: (
    LogReading,
    Vec<u8>,
))
    requires
        is_possible(offset, len, outcome),
    ensures
        result.0@ == reading_result(identity@, offset, len, outcome),
        result.1@ == (match result.0@ {
            ReadingView::Seen { bytes, .. } => bytes,
            _ => Seq::empty(),
        }),
{
    match outcome {
        ReadOutcome::Failed => (LogReading::Unreadable, Vec::new()),
        ReadOutcome::Bytes { bytes, keep } => {
            let end: u64 = offset + bytes.len() as u64;
            if offset != 0 {
                let news = copy_range(bytes.as_slice(), 0, bytes.len());
                assert(news@ == bytes@);
                return (LogReading::Seen(LogObservation { identity, len: end, bytes }), news);
            }
            match keep {
                Some(keep) => {
                    let kept = copy_range(bytes.as_slice(), keep, bytes.len());
                    let news = copy_range(bytes.as_slice(), keep, bytes.len());
                    assert(kept@ == bytes@.skip(keep as int));
                    (LogReading::Seen(LogObservation { identity, len: end, bytes: kept }), news)
                },
                None => (
                    LogReading::Seen(LogObservation { identity, len, bytes: Vec::new() }),
                    Vec::new(),
                ),
            }
        },
    }
}

/// A planned reading asks for something, for no more than the log holds, and for at most
/// [`MAX_READING`]; what comes of it never counts more of the log as taken in than there is, and
/// never less than before while the log is the same and has not shrunk.
pub proof fn law_reading_stays_within_the_log(
    position: LogPosition,
    pid: u32,
    file: LogFile,
    outcome: ReadOutcome,
)
    requires
        planned(position, pid, LogLookup::Found(file)) is Read,
        is_possible(
            planned(position, pid, LogLookup::Found(file))->offset,
            file.len,
            outcome,
        ),
    ensures
        ({
            let plan = planned(position, pid, LogLookup::Found(file));
            let result = reading_result(plan->Read_identity, plan->offset, file.len, outcome);
            &&& 0 < plan->requested <= MAX_READING
            &&& plan->offset + plan->requested <= file.len
            &&& result matches ReadingView::Seen { len, .. } ==> plan->offset <= len <= file.len
        }),
{
}

/// Two readings one after the other, the second planned from where the first ended in the same
/// log, take in consecutive bytes: nothing is skipped and nothing is read twice, and there is a
/// second one exactly if the log holds more than was taken in, whether it has grown since or was too
/// long for one reading. The exception is a log that is all from an earlier session, which is passed
/// over whole.
pub proof fn law_readings_are_consecutive(
    position: LogPosition,
    next: LogPosition,
    pid: u32,
    file: LogFile,
    grown: LogFile,
    outcome: ReadOutcome,
)
    requires
        planned(position, pid, LogLookup::Found(file)) is Read,
        outcome is Bytes,
        planned(position, pid, LogLookup::Found(file))->offset != 0 || outcome->keep is Some,
        is_possible(
            planned(position, pid, LogLookup::Found(file))->offset,
            file.len,
            outcome,
        ),
        grown.path@ == file.path@,
        grown.created == file.created,
        grown.len >= file.len,
        next.process_pid == Some(pid),
        opt_text(next.log_identity) == Some(identity_text(file.path@, file.created)),
        ({
            let plan = planned(position, pid, LogLookup::Found(file));
            let result = reading_result(plan->Read_identity, plan->offset, file.len, outcome);
            result matches ReadingView::Seen { len, .. } && next.log_offset == len
        }),
    ensures
        ({
            let first = planned(position, pid, LogLookup::Found(file));
            let second = planned(next, pid, LogLookup::Found(grown));
            let end = first->offset + outcome->bytes@.len();
            &&& second is Read == (grown.len > end)
            &&& second is Read ==> second->offset == end
        }),
{
}

/// A log that is all from an earlier session stays passed over: of what it held when it was looked
/// at, also beyond the bytes that were read, nothing is ever read as news. Only what is added to it
/// later is.
pub proof fn law_stale_log_stays_passed_over(
    position: LogPosition,
    next: LogPosition,
    pid: u32,
    file: LogFile,
    later: LogFile,
    bytes: Vec<u8>,
)
    requires
        planned(position, pid, LogLookup::Found(file)) is Read,
        planned(position, pid, LogLookup::Found(file))->offset == 0,
        later.path@ == file.path@,
        later.created == file.created,
        later.len >= file.len,
        next.process_pid == Some(pid),
        opt_text(next.log_identity) == Some(identity_text(file.path@, file.created)),
        reading_result(
            identity_text(file.path@, file.created),
            0,
            file.len,
            ReadOutcome::Bytes { bytes, keep: None },
        ) matches ReadingView::Seen { len, .. } && next.log_offset == len,
    ensures
        ({
            let plan = planned(next, pid, LogLookup::Found(later));
            &&& plan matches PlanView::Read { offset, .. } ==> offset == file.len
            &&& plan is Read == (later.len > file.len)
            &&& plan matches PlanView::Settled(reading) ==> (reading matches ReadingView::Seen {
                bytes,
                ..
            } && bytes.len() == 0)
        }),
{
}

/// A process that is met for the first time is only registered, whatever its log holds.
pub proof fn law_new_process_brings_no_news(position: LogPosition, pid: u32, file: LogFile)
    requires
        position.process_pid != Some(pid),
    ensures
        planned(position, pid, LogLookup::Found(file)) == PlanView::Settled(
            ReadingView::Seen {
                identity: identity_text(file.path@, file.created),
                len: file.len,
                bytes: Seq::empty(),
            },
        ),
{
}

/// A running game, told apart from an earlier one that had the same process number.
#[derive(Clone, Copy, Debug, PartialEq, Eq, Structural)]
pub struct GameProcess {
    pub pid: u32,
    pub instance: u64,
}

/// What the monitor has made known so far.
pub struct MonitorTrack {
    /// The game that was last announced.
    pub announced: Option<GameProcess>,
    /// The process and the log that are followed.
    pub resolution: Option<(u32, Option<FilePath>)>,
    /// The last log that was found. It outlives the game, so that a report can still hold it.
    pub last_log: Option<FilePath>,
}

impl MonitorTrack {
    /// Nothing is known yet.
    pub fn new() -> (track: Self)
        ensures
            track.announced is None,
            track.resolution is None,
            track.last_log is None,
    {
        MonitorTrack { announced: None, resolution: None, last_log: None }
    }

    /// Whether a game that was followed until now is lost: none runs any more.
    pub fn is_lost(&self, process: Option<GameProcess>) -> (lost: bool)
        ensures
            lost == (process is None && self.resolution is Some),
    {
        process.is_none() && self.resolution.is_some()
    }

    /// Takes note of the game that runs now, if one does. Says whether a game is to be announced:
    /// one runs, and it is not the one announced before. Where none runs, none is followed any more.
    pub fn observe_process(&mut self, process: Option<GameProcess>) -> (announce: bool)
        ensures
            announce == (process is Some && process != old(self).announced),
            final(self).announced == process,
            process is None ==> final(self).resolution is None,
            process is Some ==> final(self).resolution == old(self).resolution,
            final(self).last_log == old(self).last_log,
    {
        let announce = match (process, self.announced) {
            (None, _) => false,
            (Some(_), None) => true,
            (Some(now), Some(before)) => now != before,
        };
        self.announced = process;
        if process.is_none() {
            self.resolution = None;
        }
        announce
    }

    /// Takes note of where the log of the process is now. Says whether that is a change; only then
    /// is the new resolution followed, and its log, if there is one, remembered.
    pub fn observe_log(&mut self, pid: u32, path: Option<FilePath>) -> (changed: bool)
        ensures
            changed == is_path_change(followed_view(old(self).resolution), pid, opt_path(path)),
            final(self).announced == old(self).announced,
            changed ==> followed_view(final(self).resolution) == Some((pid, opt_path(path))),
            changed ==> opt_path(final(self).last_log) == (if path is Some {
                opt_path(path)
            } else {
                opt_path(old(self).last_log)
            }),
            !changed ==> final(self).resolution == old(self).resolution && final(self).last_log == old(
                self,
            ).last_log,
    {
        let changed = monitor_path_changed(self.resolution.as_ref(), pid, path.as_ref());
        if changed {
            if let Some(found) = &path {
                self.last_log = Some(found.clone());
            }
            self.resolution = Some((pid, path));
        }
        changed
    }
}

/// A game that was lost and comes back is a change, even under the same process number and with the
/// same log: once nothing is followed, whatever is found is new.
pub proof fn law_returning_game_is_a_change(track: MonitorTrack, pid: u32, path: Option<Seq<u8>>)
    requires
        track.resolution is None,
    ensures
        is_path_change(followed_view(track.resolution), pid, path),
{
}

/// How the log monitor fares.
#[derive(Clone, Copy, Debug, PartialEq, Eq, Structural)]
pub enum LogMonitorDiagnostic {
    Ready,
    Unavailable,
    ReadFailed,
}

/// What is recorded of the log monitor.
pub enum LogMonitorNote {
    Ready,
    Idle(String),
    Failed(String),
}

/// What is recorded of the log monitor for each way it can fare.
pub fn log_monitor_note(diagnostic: LogMonitorDiagnostic) -> (note: LogMonitorNote)
    ensures
        match diagnostic {
            LogMonitorDiagnostic::Ready => note is Ready,
            LogMonitorDiagnostic::Unavailable => note matches LogMonitorNote::Idle(message)
                && message@ == "Waiting for Warframe"@,
            LogMonitorDiagnostic::ReadFailed => note matches LogMonitorNote::Failed(message)
                && message@ == "EE.log could not be read"@,
        },
{
    match diagnostic {
        LogMonitorDiagnostic::Ready => LogMonitorNote::Ready,
        LogMonitorDiagnostic::Unavailable => LogMonitorNote::Idle(
            "Waiting for Warframe".to_owned(),
        ),
        LogMonitorDiagnostic::ReadFailed => LogMonitorNote::Failed(
            "EE.log could not be read".to_owned(),
        ),
    }
}

/// How long the monitor waits before it looks again, in milliseconds: hardly at all while rewards
/// are being chosen.
pub fn poll_interval_ms(reward_window_open: bool) -> (interval: u64)
    ensures
        interval == (if reward_window_open {
            10u64
        } else {
            100u64
        }),
{
    if reward_window_open {
        10
    } else {
        100
    }
}

/// What a reading delivers as news: the bytes of what was seen.
pub open spec fn news_of(seen: ReadingView) -> Seq<u8> {
    match seen {
        ReadingView::Seen { bytes, .. } => bytes,
        _ => Seq::empty(),
    }
}

/// Every byte that belongs to this session is delivered, once and in its place. Of a reading from
/// the start those are the bytes from where the session begins in it, be that its very first byte or
/// its end; of a reading on, all of them. The log counts as taken in up to the end of the reading.
pub proof fn law_session_is_delivered_whole(
    identity: Seq<char>,
    offset: u64,
    len: u64,
    bytes: Vec<u8>,
    keep: Option<usize>,
)
    requires
        is_possible(offset, len, ReadOutcome::Bytes { bytes, keep }),
        offset != 0 || keep is Some,
    ensures
        ({
            let seen = reading_result(identity, offset, len, ReadOutcome::Bytes { bytes, keep });
            let from: int = if offset == 0 {
                keep->0 as int
            } else {
                0
            };
            &&& seen is Seen
            &&& seen->Seen_identity == identity
            &&& seen->Seen_len == offset + bytes@.len()
            &&& news_of(seen).len() == bytes@.len() - from
            &&& forall|j: int|
                0 <= j < bytes@.len() - from ==> #[trigger] news_of(seen)[j] == bytes@[from + j]
        }),
{
}

/// A log without a byte of this session delivers nothing and counts as taken in whole; one that
/// could not be read delivers nothing and says so.
pub proof fn law_nothing_else_is_delivered(
    identity: Seq<char>,
    offset: u64,
    len: u64,
    bytes: Vec<u8>,
)
    ensures
        reading_result(identity, offset, len, ReadOutcome::Failed) is Unreadable,
        news_of(reading_result(identity, offset, len, ReadOutcome::Failed)).len() == 0,
        ({
            let seen = reading_result(identity, 0, len, ReadOutcome::Bytes { bytes, keep: None });
            seen is Seen && seen->Seen_identity == identity && seen->Seen_len == len && news_of(
                seen,
            ).len() == 0
        }),
{
}

/// One of several readings of a log, one after the other.
pub struct Reading {
    pub offset: u64,
    pub bytes: Vec<u8>,
    pub keep: Option<usize>,
}

/// Whether these are readings of `content`, each going on where the one before it ended, and each
/// with a byte of this session if it is from the start.
pub open spec fn are_consecutive(readings: Seq<Reading>, content: Seq<u8>) -> bool {
    &&& content.len() <= u64::MAX
    &&& forall|i: int|
        0 <= i < readings.len() ==> {
            let r = #[trigger] readings[i];
            &&& r.bytes@.len() > 0
            &&& r.offset + r.bytes@.len() <= content.len()
            &&& r.bytes@ == content.subrange(r.offset as int, r.offset + r.bytes@.len())
            &&& r.offset == 0 ==> r.keep is Some && r.keep->0 <= r.bytes@.len()
        }
    &&& forall|i: int, j: int|
        0 <= i && j == i + 1 && j < readings.len() ==> (#[trigger] readings[j]).offset == (
        #[trigger] readings[i]).offset + readings[i].bytes@.len()
}

/// The news of these readings, one after the other.
pub open spec fn delivered(identity: Seq<char>, len: u64, readings: Seq<Reading>) -> Seq<u8>
    decreases readings.len(),
{
    if readings.len() == 0 {
        Seq::empty()
    } else {
        let r = readings.last();
        delivered(identity, len, readings.drop_last()) + news_of(
            reading_result(
                identity,
                r.offset,
                len,
                ReadOutcome::Bytes { bytes: r.bytes, keep: r.keep },
            ),
        )
    }
}

/// What readings deliver one after the other is the log itself, from where the session begins in the
/// first of them to where the last one ends: nothing is left out, repeated or out of place.
pub proof fn law_readings_deliver_the_log(
    identity: Seq<char>,
    len: u64,
    readings: Seq<Reading>,
    content: Seq<u8>,
)
    requires
        readings.len() > 0,
        are_consecutive(readings, content),
        len == content.len(),
    ensures
        ({
            let first = readings[0];
            let begin = first.offset + (if first.offset == 0 {
                first.keep->0 as int
            } else {
                0
            });
            let end = readings.last().offset + readings.last().bytes@.len();
            begin <= end && delivered(identity, len, readings) == content.subrange(begin, end)
        }),
    decreases readings.len(),
{
    let init = readings.drop_last();
    let r = readings.last();
    let outcome = ReadOutcome::Bytes { bytes: r.bytes, keep: r.keep };
    let first = readings[0];
    assert(readings[readings.len() - 1] == r);
    law_session_is_delivered_whole(identity, r.offset, len, r.bytes, r.keep);
    let news = news_of(reading_result(identity, r.offset, len, outcome));
    if init.len() == 0 {
        assert(delivered(identity, len, init) =~= Seq::empty());
        let from: int = if r.offset == 0 {
            r.keep->0 as int
        } else {
            0
        };
        assert(delivered(identity, len, readings) =~= content.subrange(
            r.offset + from,
            r.offset + r.bytes@.len(),
        )) by {
            assert forall|j: int| 0 <= j < news.len() implies #[trigger] news[j] == content[r.offset
                + from + j] by {
                assert(news[j] == r.bytes@[from + j]);
            }
        }
    } else {
        assert forall|i: int| 0 <= i < init.len() implies #[trigger] init[i] == readings[i] by {}
        assert(are_consecutive(init, content)) by {
            assert forall|i: int, j: int|
                0 <= i && j == i + 1 && j < init.len() implies (#[trigger] init[j]).offset == (
            #[trigger] init[i]).offset + init[i].bytes@.len() by {
                assert(readings[j].offset == readings[i].offset + readings[i].bytes@.len());
            }
        }
        law_readings_deliver_the_log(identity, len, init, content);
        let p = readings[readings.len() - 2];
        assert(init.last() == p);
        assert(r.offset == p.offset + p.bytes@.len());
        assert(init[0] == first);
        let begin = first.offset + (if first.offset == 0 {
            first.keep->0 as int
        } else {
            0
        });
        let mid = r.offset as int;
        let end = r.offset + r.bytes@.len();
        assert(news =~= content.subrange(mid, end)) by {
            assert forall|j: int| 0 <= j < news.len() implies #[trigger] news[j] == content[mid + j] by {
                assert(news[j] == r.bytes@[j]);
            }
        }
        assert(delivered(identity, len, readings) =~= content.subrange(begin, end));
    }
}

/// What is done about a log that is there: a process that was not followed is registered with all
/// that its log holds; a followed one has its log read exactly if there is something it has not
/// taken in. That is read from where the last reading of the same log ended, and from its start if
/// the log is another one or has shrunk, and as far as it goes but at most [`MAX_READING`] bytes.
pub proof fn law_plan_reads_what_is_new(position: LogPosition, pid: u32, file: LogFile)
    ensures
        ({
            let plan = planned(position, pid, LogLookup::Found(file));
            let known = position.process_pid == Some(pid);
            let same = position.log_identity is Some && position.log_identity->0@ == identity_text(
                file.path@,
                file.created,
            );
            let goes_on = same && file.len >= position.log_offset;
            &&& !known ==> (plan matches PlanView::Settled(
                ReadingView::Seen { identity, len, bytes },
            ) && identity == identity_text(file.path@, file.created) && len == file.len
                && bytes.len() == 0)
            &&& known && goes_on ==> (plan is Read <==> file.len > position.log_offset)
            &&& known && !goes_on ==> (plan is Read <==> file.len > 0)
            &&& known && !(plan is Read) ==> (plan matches PlanView::Settled(
                ReadingView::Seen { identity, len, bytes },
            ) && identity == identity_text(file.path@, file.created) && len == file.len
                && bytes.len() == 0)
            &&& plan matches PlanView::Read { identity, offset, requested } ==> {
                &&& identity == identity_text(file.path@, file.created)
                &&& goes_on ==> offset == position.log_offset
                &&& !goes_on ==> offset == 0
                &&& requested <= MAX_READING
                &&& requested == file.len - offset || requested == MAX_READING
                &&& offset + requested <= file.len
            }
        }),
        planned(position, pid, LogLookup::Missing) == PlanView::Settled(ReadingView::Missing),
        planned(position, pid, LogLookup::Unreadable) == PlanView::Settled(ReadingView::Unreadable),
{
}

} // verus!
