//! Task orchestration: the decisions of the match and write tasks.
//!
//! The tasks themselves (network, file writes, worker threads) run outside;
//! each decision they make between two pieces of outside work is a function
//! here: what a plan item means for the report, what a write result means
//! for the track, which phase ends a task, how the storage probe is judged.

use vstd::prelude::*;
use crate::cmd::dto::{count_state, states_of};
use crate::domain::lyrics::{has_text_line, Lyrics};
use crate::domain::plan::{
    actions, count_action, is_write_spec, WriteAction, WriteOutcome, WritePlan, WritePlanItem,
};
use crate::domain::track::{match_grade, opt_text, LyricsPresence, Track, TrackState};
use crate::domain::candidate::{
    copy_text, displayable_spec, meta_of_candidate, opt_seq, same_candidate, secs_of, Grade,
    SearchQuery, Scored,
};
use crate::domain::score::{decide, decide_spec};
use crate::domain::plan::MatchResult;
use crate::domain::plan::{summarises, MatchSummary};
use crate::infra::events::TrackUpdated;
use crate::pipeline::store::{grade_state, same_file, with_first, with_state, TrackStore};
use crate::infra::config::{SaveTarget, Settings};
use crate::infra::error::{user_message_spec, AppError};
use crate::infra::events::{LogEvent, Phase, ProgressEvent};
use crate::domain::candidate::{provider_key_spec, ProviderId};
use crate::text::{chars_of, push_str_vec, string_of};

verus! {

/// Least time between two progress events, in milliseconds.
pub const PROGRESS_THROTTLE_MS: u64 = 100;

/// Emits a progress event only when enough time has passed since the last one.
/// Times are milliseconds on a monotonic clock read by the caller.
pub struct Throttle {
    /// When an event last went out (`None`: never).
    pub last_ms: Option<u64>,
}

impl Throttle {
    pub fn new() -> (r: Self)
        ensures
            r.last_ms is None,
    {
        Throttle { last_ms: None }
    }

    /// Whether an event at `now_ms` may go out; if so, it counts as the last one.
    pub fn allow(&mut self, now_ms: u64) -> (r: bool)
        ensures
            r == throttle_allows(old(self).last_ms, now_ms),
            final(self).last_ms == if r {
                Some(now_ms)
            } else {
                old(self).last_ms
            },
    {
        let ok = match self.last_ms {
            None => true,
            Some(last) => now_ms >= last && now_ms - last >= PROGRESS_THROTTLE_MS,
        };
        if ok {
            self.last_ms = Some(now_ms);
        }
        ok
    }
}

/// Whether an event at `now` may go out after the last one that did: the
/// first always may, later ones once the interval has passed.
pub open spec fn throttle_allows(last: Option<u64>, now: u64) -> bool {
    match last {
        None => true,
        Some(l) => now >= l && now - l >= PROGRESS_THROTTLE_MS,
    }
}

/// Once an event has gone out at `first`, the next one to go out comes at
/// least the throttle interval later.
pub proof fn lemma_throttle_spacing(first: u64, next: u64)
    requires
        throttle_allows(Some(first), next),
    ensures
        next >= first + PROGRESS_THROTTLE_MS,
{
}

pub open spec fn state_key_spec(s: TrackState) -> Seq<char> {
    match s {
        TrackState::Idle => "idle"@,
        TrackState::Matching => "matching"@,
        TrackState::Matched => "matched"@,
        TrackState::Confirm => "confirm"@,
        TrackState::Writing => "writing"@,
        TrackState::Done => "done"@,
        TrackState::Failed => "failed"@,
        TrackState::Skip => "skip"@,
    }
}

/// State to the front end's key.
pub fn state_key(state: TrackState) -> (r: &'static str)
    ensures
        r@ == state_key_spec(state),
{
    match state {
        TrackState::Idle => "idle",
        TrackState::Matching => "matching",
        TrackState::Matched => "matched",
        TrackState::Confirm => "confirm",
        TrackState::Writing => "writing",
        TrackState::Done => "done",
        TrackState::Failed => "failed",
        TrackState::Skip => "skip",
    }
}

/// Writes in parallel: eight on a solid-state drive, two otherwise (a spinning
/// disk seeks back and forth under parallel writes). `ssd` is the probe's
/// verdict on a sample file, when there was a sample.
pub fn write_concurrency(ssd: Option<bool>) -> (r: usize)
    ensures
        r == if ssd == Some(true) {
            8usize
        } else {
            2usize
        },
{
    match ssd {
        Some(true) => 8,
        _ => 2,
    }
}

/// Outcome of a match task.
#[derive(Clone, Debug, Default)]
pub struct MatchReport {
    pub total: usize,
    pub matched: usize,
    pub confirm: usize,
    pub failed: usize,
    pub skipped: usize,
    pub cancelled: bool,
    /// Every lyric source was down, so the task stopped before any search
    /// (see `sources_verdict`).
    pub sources_down: bool,
}

/// One failed write and why.
#[derive(Clone, Debug)]
pub struct FailureItem {
    pub title: String,
    pub reason: String,
}

/// Outcome of a write task, with skips counted by reason.
#[derive(Clone, Debug)]
pub struct WriteReport {
    pub total: usize,
    pub ok: usize,
    pub failed: usize,
    pub skipped: usize,
    pub locked: usize,
    pub skipped_existing: usize,
    pub skipped_unsupported: usize,
    pub skipped_no_match: usize,
    pub bytes_delta: i64,
    pub target: String,
    pub failures: Vec<FailureItem>,
    pub cancelled: bool,
}

/// An event sink that drops everything.
#[derive(Clone, Copy, Debug)]
pub struct NullSink;



/// The warning logged for a source that did not answer the availability check.
pub fn source_down_notice(id: ProviderId) -> (r: LogEvent)
    ensures
        r.level@ == "warn"@,
        r.message@ == provider_key_spec(id) + " 暂时无法访问，本次匹配会跳过该来源"@,
{
    let mut m = chars_of(id.as_str());
    push_str_vec(&mut m, " 暂时无法访问，本次匹配会跳过该来源");
    LogEvent { level: "warn".to_owned(), message: string_of(&m) }
}

/// A match task's start once the sources were checked: with none up, the
/// task stops at once, and this gives its report (every source down), its
/// final progress (failed, all counts zero) and its error line; with any up,
/// the task goes on.
pub fn sources_verdict(total: usize, n_up: usize) -> (r: Option<(MatchReport, ProgressEvent, LogEvent)>)
    ensures
        r is Some <==> n_up == 0,
        r matches Some((rep, ev, log)) ==> {
            &&& rep.total == total && rep.matched == 0 && rep.confirm == 0 && rep.failed == 0
            &&& rep.skipped == 0 && !rep.cancelled && rep.sources_down
            &&& ev == (ProgressEvent::Progress {
                phase: Phase::Failed,
                done: 0,
                total,
                ok: 0,
                warn: 0,
                err: 0,
                skip: 0,
            })
            &&& log.level@ == "err"@
            &&& log.message@ == "网络不可用或歌词服务暂时无法访问，请稍后重试"@
        },
{
    if n_up > 0 {
        return None;
    }
    let mut report = MatchReport::new(total);
    report.sources_down = true;
    let ev = ProgressEvent::Progress {
        phase: Phase::Failed,
        done: 0,
        total,
        ok: 0,
        warn: 0,
        err: 0,
        skip: 0,
    };
    let log = LogEvent { level: "err".to_owned(), message: "网络不可用或歌词服务暂时无法访问，请稍后重试".to_owned() };
    Some((report, ev, log))
}


/// `n` in decimal followed by `tail`.
pub open spec fn counted(n: usize, tail: Seq<char>) -> Seq<char> {
    crate::text::dec_digits(n as nat) + tail
}

/// The skip reasons a write summary names, in order.
pub open spec fn skip_reasons(r: WriteReport) -> Seq<Seq<char>> {
    let a: Seq<Seq<char>> = if r.skipped_existing > 0 {
        seq![counted(r.skipped_existing, " 首已有歌词"@)]
    } else {
        seq![]
    };
    let b = if r.locked > 0 {
        a.push(counted(r.locked, " 首正被其他程序使用"@))
    } else {
        a
    };
    let c = if r.skipped_unsupported > 0 {
        b.push(counted(r.skipped_unsupported, " 首格式不支持"@))
    } else {
        b
    };
    if r.skipped_no_match > 0 {
        c.push(counted(r.skipped_no_match, " 首还没匹配"@))
    } else {
        c
    }
}

/// The one-sentence summary of a write task: level and message.
pub open spec fn summary_spec(r: WriteReport) -> (Seq<char>, Seq<char>) {
    if r.cancelled {
        ("warn"@, "已停止，本次保存了 "@ + counted(r.ok, " 首"@))
    } else {
        let why = skip_reasons(r);
        let skip_part = if r.skipped == 0 {
            Seq::<char>::empty()
        } else if why.len() == 0 {
            "，"@ + counted(r.skipped, " 首跳过"@)
        } else {
            "，"@ + counted(r.skipped, " 首跳过（"@) + crate::domain::candidate::join_with(why, "、"@)
                + "）"@
        };
        let fail_part = if r.failed > 0 {
            "，"@ + counted(r.failed, " 首失败"@)
        } else {
            Seq::<char>::empty()
        };
        (
            if r.failed > 0 {
                "warn"@
            } else {
                "ok"@
            },
            counted(r.ok, " 首保存成功"@) + skip_part + fail_part,
        )
    }
}

fn counted_text(n: usize, tail: &str) -> (r: String)
    ensures
        r@ == counted(n, tail@),
{
    let mut v = crate::text::decimal(n as u64);
    push_str_vec(&mut v, tail);
    string_of(&v)
}

/// The summary line logged when a write task ends: how many were saved,
/// how many skipped and why, how many failed.
pub fn write_summary(r: &WriteReport) -> (e: LogEvent)
    ensures
        (e.level@, e.message@) == summary_spec(*r),
{
    if r.cancelled {
        let mut m = chars_of("已停止，本次保存了 ");
        push_str_vec(&mut m, counted_text(r.ok, " 首").as_str());
        return LogEvent { level: "warn".to_owned(), message: string_of(&m) };
    }
    let mut why: Vec<String> = Vec::new();
    if r.skipped_existing > 0 {
        why.push(counted_text(r.skipped_existing, " 首已有歌词"));
    }
    if r.locked > 0 {
        why.push(counted_text(r.locked, " 首正被其他程序使用"));
    }
    if r.skipped_unsupported > 0 {
        why.push(counted_text(r.skipped_unsupported, " 首格式不支持"));
    }
    if r.skipped_no_match > 0 {
        why.push(counted_text(r.skipped_no_match, " 首还没匹配"));
    }
    assert(why.deep_view() =~= skip_reasons(*r));
    let mut m = chars_of(counted_text(r.ok, " 首保存成功").as_str());
    if r.skipped > 0 {
        push_str_vec(&mut m, "，");
        if why.len() == 0 {
            push_str_vec(&mut m, counted_text(r.skipped, " 首跳过").as_str());
        } else {
            push_str_vec(&mut m, counted_text(r.skipped, " 首跳过（").as_str());
            push_str_vec(&mut m, crate::domain::candidate::join_strings(&why, "、").as_str());
            push_str_vec(&mut m, "）");
        }
    }
    if r.failed > 0 {
        push_str_vec(&mut m, "，");
        push_str_vec(&mut m, counted_text(r.failed, " 首失败").as_str());
    }
    let level = if r.failed > 0 {
        "warn".to_owned()
    } else {
        "ok".to_owned()
    };
    let e = LogEvent { level, message: string_of(&m) };
    assert(e.message@ =~= summary_spec(*r).1);
    e
}

/// The phase a finished task reports.
pub fn final_phase(cancelled: bool) -> (r: Phase)
    ensures
        r == if cancelled {
            Phase::Cancelled
        } else {
            Phase::Done
        },
{
    if cancelled {
        Phase::Cancelled
    } else {
        Phase::Done
    }
}

/// Counts for the status bar: (written, to confirm, not found, skipped).
pub fn count_states(tracks: &[Track]) -> (r: (usize, usize, usize, usize))
    ensures
        r.0 == count_state(states_of(tracks@), TrackState::Done),
        r.1 == count_state(states_of(tracks@), TrackState::Confirm),
        r.2 == count_state(states_of(tracks@), TrackState::Failed),
        r.3 == count_state(states_of(tracks@), TrackState::Skip),
{
    let ghost states = states_of(tracks@);
    let mut c: (usize, usize, usize, usize) = (0, 0, 0, 0);
    let mut i: usize = 0;
    while i < tracks.len()
        invariant
            i <= tracks@.len(),
            states == states_of(tracks@),
            states.len() == tracks@.len(),
            c.0 == count_state(states.take(i as int), TrackState::Done),
            c.1 == count_state(states.take(i as int), TrackState::Confirm),
            c.2 == count_state(states.take(i as int), TrackState::Failed),
            c.3 == count_state(states.take(i as int), TrackState::Skip),
            c.0 + c.1 + c.2 + c.3 <= i,
        decreases tracks.len() - i,
    {
        assert(states.take(i + 1).drop_last() == states.take(i as int));
        assert(states.take(i + 1).last() == tracks@[i as int].state);
        match tracks[i].state {
            TrackState::Done => {
                c.0 = c.0 + 1;
            },
            TrackState::Confirm => {
                c.1 = c.1 + 1;
            },
            TrackState::Failed => {
                c.2 = c.2 + 1;
            },
            TrackState::Skip => {
                c.3 = c.3 + 1;
            },
            _ => {},
        }
        i = i + 1;
    }
    assert(states.take(tracks@.len() as int) == states);
    c
}

/// How one match attempt ended.
#[derive(Clone, Copy, Debug, PartialEq, Eq, Structural)]
pub enum OneOutcome {
    Matched,
    Confirm,
    Failed,
    Skipped,
}

/// What a finished attempt sets on its track, when the attempt ended before
/// scoring: no candidate left, an instrumental, nothing usable, or an error
/// while fetching. `None`: the lyrics are usable and the score decides.
pub open spec fn fetch_verdict_spec(found: bool, fetched: Result<Lyrics, AppError>) -> Option<
    (OneOutcome, TrackState, Seq<char>),
> {
    if !found {
        Some((OneOutcome::Failed, TrackState::Failed, "没有找到歌词，可以试试手动搜索"@))
    } else {
        match fetched {
            Ok(l) => if l.is_instrumental {
                Some((OneOutcome::Skipped, TrackState::Skip, "纯音乐，无需歌词"@))
            } else if !has_text_line(l.lines.deep_view()) {
                Some((OneOutcome::Failed, TrackState::Failed, "这个来源没有可用的歌词"@))
            } else {
                None
            },
            Err(e) => Some((OneOutcome::Failed, TrackState::Failed, user_message_spec(e))),
        }
    }
}

/// The verdict on a fetch; `found` says whether any candidate was left.
pub fn fetch_verdict(found: bool, fetched: &Result<Lyrics, AppError>) -> (r: Option<
    (OneOutcome, TrackState, String),
>)
    ensures
        match fetch_verdict_spec(found, *fetched) {
            None => r is None,
            Some((o, st, m)) => r matches Some((o2, st2, m2)) && o2 == o && st2 == st && m2@ == m,
        },
{
    if !found {
        return Some((OneOutcome::Failed, TrackState::Failed, "没有找到歌词，可以试试手动搜索".to_owned()));
    }
    match fetched {
        Ok(l) => {
            if l.is_instrumental {
                Some((OneOutcome::Skipped, TrackState::Skip, "纯音乐，无需歌词".to_owned()))
            } else if !l.has_content() {
                Some((OneOutcome::Failed, TrackState::Failed, "这个来源没有可用的歌词".to_owned()))
            } else {
                None
            }
        },
        Err(e) => Some((OneOutcome::Failed, TrackState::Failed, e.user_message())),
    }
}

impl MatchReport {
    /// A fresh report for `total` requested tracks.
    pub fn new(total: usize) -> (r: Self)
        ensures
            r.total == total && r.matched == 0 && r.confirm == 0 && r.failed == 0 && r.skipped
                == 0 && !r.cancelled && !r.sources_down,
    {
        MatchReport {
            total,
            matched: 0,
            confirm: 0,
            failed: 0,
            skipped: 0,
            cancelled: false,
            sources_down: false,
        }
    }

    /// Counts one finished attempt.
    pub fn count(&mut self, o: OneOutcome)
        requires
            old(self).matched < usize::MAX,
            old(self).confirm < usize::MAX,
            old(self).failed < usize::MAX,
            old(self).skipped < usize::MAX,
        ensures
            final(self).matched == old(self).matched + if o == OneOutcome::Matched {
                1int
            } else {
                0
            },
            final(self).confirm == old(self).confirm + if o == OneOutcome::Confirm {
                1int
            } else {
                0
            },
            final(self).failed == old(self).failed + if o == OneOutcome::Failed {
                1int
            } else {
                0
            },
            final(self).skipped == old(self).skipped + if o == OneOutcome::Skipped {
                1int
            } else {
                0
            },
            final(self).total == old(self).total,
            final(self).cancelled == old(self).cancelled,
            final(self).sources_down == old(self).sources_down,
    {
        match o {
            OneOutcome::Matched => {
                self.matched = self.matched + 1;
            },
            OneOutcome::Confirm => {
                self.confirm = self.confirm + 1;
            },
            OneOutcome::Failed => {
                self.failed = self.failed + 1;
            },
            OneOutcome::Skipped => {
                self.skipped = self.skipped + 1;
            },
        }
    }

    /// Adds a worker's counts.
    pub fn absorb(&mut self, local: &MatchReport)
        requires
            old(self).matched + local.matched <= usize::MAX,
            old(self).confirm + local.confirm <= usize::MAX,
            old(self).failed + local.failed <= usize::MAX,
            old(self).skipped + local.skipped <= usize::MAX,
        ensures
            final(self).matched == old(self).matched + local.matched,
            final(self).confirm == old(self).confirm + local.confirm,
            final(self).failed == old(self).failed + local.failed,
            final(self).skipped == old(self).skipped + local.skipped,
            final(self).total == old(self).total,
            final(self).cancelled == old(self).cancelled,
            final(self).sources_down == old(self).sources_down,
    {
        self.matched = self.matched + local.matched;
        self.confirm = self.confirm + local.confirm;
        self.failed = self.failed + local.failed;
        self.skipped = self.skipped + local.skipped;
    }
}

/// What a skipped track shows, by the reason it was skipped.
pub open spec fn skip_message_spec(a: WriteAction) -> Option<Seq<char>> {
    match a {
        WriteAction::SkipLocked => Some("这个文件正被其他程序使用，已跳过"@),
        WriteAction::SkipExistingLyrics => Some("歌曲里已经有歌词，按你的设置跳过"@),
        WriteAction::SkipUnsupportedFormat => Some("这种格式不支持保存歌词，已跳过"@),
        WriteAction::SkipNoMatch => Some("还没有匹配到歌词，先点「开始匹配」"@),
        _ => None,
    }
}

/// The sentence for a skip; writes have none.
pub fn skip_message(a: WriteAction) -> (r: Option<&'static str>)
    ensures
        match skip_message_spec(a) {
            Some(m) => r matches Some(x) && x@ == m,
            None => r is None,
        },
{
    match a {
        WriteAction::SkipLocked => Some("这个文件正被其他程序使用，已跳过"),
        WriteAction::SkipExistingLyrics => Some("歌曲里已经有歌词，按你的设置跳过"),
        WriteAction::SkipUnsupportedFormat => Some("这种格式不支持保存歌词，已跳过"),
        WriteAction::SkipNoMatch => Some("还没有匹配到歌词，先点「开始匹配」"),
        _ => None,
    }
}

/// `[title] message`, the form of every per-song log line.
pub open spec fn titled(title: Seq<char>, msg: Seq<char>) -> Seq<char> {
    "["@ + title + "] "@ + msg
}

fn titled_line(title: &str, msg: &str) -> (r: String)
    ensures
        r@ == titled(title@, msg@),
{
    let mut v = chars_of("[");
    push_str_vec(&mut v, title);
    push_str_vec(&mut v, "] ");
    push_str_vec(&mut v, msg);
    string_of(&v)
}

/// What the interface is told about a skipped track.
pub struct SkipNotice {
    pub track_id: u64,
    /// The message set on the track (its state becomes skipped).
    pub message: String,
    /// The warning logged.
    pub log: LogEvent,
}

pub open spec fn notice_ok(n: SkipNotice, it: WritePlanItem) -> bool {
    skip_message_spec(it.action) matches Some(m) && n.track_id == it.track_id && n.message@ == m
        && n.log.level@ == "warn"@ && n.log.message@ == titled(it.title@, m)
}

/// The skipped items of a plan, in order.
pub open spec fn skipped_items(items: Seq<WritePlanItem>) -> Seq<WritePlanItem>
    decreases items.len(),
{
    if items.len() == 0 {
        Seq::empty()
    } else if skip_message_spec(items.last().action) is Some {
        skipped_items(items.drop_last()).push(items.last())
    } else {
        skipped_items(items.drop_last())
    }
}

/// The titles of the locked items, in order.
pub open spec fn locked_titles(items: Seq<WritePlanItem>) -> Seq<Seq<char>>
    decreases items.len(),
{
    if items.len() == 0 {
        Seq::empty()
    } else if items.last().action == WriteAction::SkipLocked {
        locked_titles(items.drop_last()).push(items.last().title@)
    } else {
        locked_titles(items.drop_last())
    }
}

pub open spec fn failure_view(f: FailureItem) -> (Seq<char>, Seq<char>) {
    (f.title@, f.reason@)
}

pub open spec fn failures_view(fs: Seq<FailureItem>) -> Seq<(Seq<char>, Seq<char>)> {
    fs.map_values(|f: FailureItem| failure_view(f))
}

pub open spec fn locked_failures(items: Seq<WritePlanItem>) -> Seq<(Seq<char>, Seq<char>)> {
    locked_titles(items).map_values(|t: Seq<char>| (t, "正被其他程序使用"@))
}

proof fn lemma_skipped_len(items: Seq<WritePlanItem>)
    ensures
        skipped_items(items).len() == items.len() - count_writes_of(items),
        count_writes_of(items) <= items.len(),
    decreases items.len(),
{
    if items.len() > 0 {
        lemma_skipped_len(items.drop_last());
    }
}

pub open spec fn count_writes_of(items: Seq<WritePlanItem>) -> nat
    decreases items.len(),
{
    if items.len() == 0 {
        0
    } else {
        count_writes_of(items.drop_last()) + if skip_message_spec(items.last().action) is None {
            1nat
        } else {
            0nat
        }
    }
}

proof fn lemma_count_action_bound(s: Seq<WriteAction>, a: WriteAction)
    ensures
        count_action(s, a) <= s.len(),
    decreases s.len(),
{
    if s.len() > 0 {
        lemma_count_action_bound(s.drop_last(), a);
    }
}

impl WriteReport {
    /// A fresh report for `total` requested tracks saved to `target`.
    pub fn new(total: usize, target: SaveTarget) -> (r: Self)
        ensures
            r.total == total,
            r.ok == 0 && r.failed == 0 && r.skipped == 0 && r.locked == 0,
            r.skipped_existing == 0 && r.skipped_unsupported == 0 && r.skipped_no_match == 0,
            r.bytes_delta == 0,
            r.target@ == match target {
                SaveTarget::File => "file"@,
                SaveTarget::Sidecar => "sidecar"@,
            },
            r.failures@.len() == 0,
            !r.cancelled,
    {
        WriteReport {
            total,
            ok: 0,
            failed: 0,
            skipped: 0,
            locked: 0,
            skipped_existing: 0,
            skipped_unsupported: 0,
            skipped_no_match: 0,
            bytes_delta: 0,
            target: target.as_str().to_owned(),
            failures: Vec::new(),
            cancelled: false,
        }
    }

    /// Counts the skips of a plan by reason before any file is touched, and
    /// says what each skipped track shows. Locked files are also listed as
    /// failures, since the user can free them and try again.
    pub fn count_skips(&mut self, items: &[WritePlanItem]) -> (r: Vec<SkipNotice>)
        requires
            old(self).skipped + items@.len() <= usize::MAX,
            old(self).locked + items@.len() <= usize::MAX,
            old(self).skipped_existing + items@.len() <= usize::MAX,
            old(self).skipped_unsupported + items@.len() <= usize::MAX,
            old(self).skipped_no_match + items@.len() <= usize::MAX,
        ensures
            final(self).skipped == old(self).skipped + skipped_items(items@).len(),
            final(self).locked == old(self).locked + count_action(
                actions(items@),
                WriteAction::SkipLocked,
            ),
            final(self).skipped_existing == old(self).skipped_existing + count_action(
                actions(items@),
                WriteAction::SkipExistingLyrics,
            ),
            final(self).skipped_unsupported == old(self).skipped_unsupported + count_action(
                actions(items@),
                WriteAction::SkipUnsupportedFormat,
            ),
            final(self).skipped_no_match == old(self).skipped_no_match + count_action(
                actions(items@),
                WriteAction::SkipNoMatch,
            ),
            failures_view(final(self).failures@) == failures_view(old(self).failures@)
                + locked_failures(items@),
            final(self).total == old(self).total,
            final(self).ok == old(self).ok,
            final(self).failed == old(self).failed,
            final(self).bytes_delta == old(self).bytes_delta,
            final(self).target@ == old(self).target@,
            final(self).cancelled == old(self).cancelled,
            r@.len() == skipped_items(items@).len(),
            forall|k: int|
                0 <= k < r@.len() ==> notice_ok(#[trigger] r@[k], skipped_items(items@)[k]),
    {
        let ghost s0 = *self;
        let mut notes: Vec<SkipNotice> = Vec::new();
        let mut i: usize = 0;
        while i < items.len()
            invariant
                i <= items@.len(),
                s0.skipped + items@.len() <= usize::MAX,
                s0.locked + items@.len() <= usize::MAX,
                s0.skipped_existing + items@.len() <= usize::MAX,
                s0.skipped_unsupported + items@.len() <= usize::MAX,
                s0.skipped_no_match + items@.len() <= usize::MAX,
                self.skipped == s0.skipped + skipped_items(items@.take(i as int)).len(),
                self.locked == s0.locked + count_action(
                    actions(items@.take(i as int)),
                    WriteAction::SkipLocked,
                ),
                self.skipped_existing == s0.skipped_existing + count_action(
                    actions(items@.take(i as int)),
                    WriteAction::SkipExistingLyrics,
                ),
                self.skipped_unsupported == s0.skipped_unsupported + count_action(
                    actions(items@.take(i as int)),
                    WriteAction::SkipUnsupportedFormat,
                ),
                self.skipped_no_match == s0.skipped_no_match + count_action(
                    actions(items@.take(i as int)),
                    WriteAction::SkipNoMatch,
                ),
                failures_view(self.failures@) == failures_view(s0.failures@) + locked_failures(
                    items@.take(i as int),
                ),
                self.total == s0.total,
                self.ok == s0.ok,
                self.failed == s0.failed,
                self.bytes_delta == s0.bytes_delta,
                self.target@ == s0.target@,
                self.cancelled == s0.cancelled,
                notes@.len() == skipped_items(items@.take(i as int)).len(),
                forall|k: int|
                    0 <= k < notes@.len() ==> notice_ok(
                        #[trigger] notes@[k],
                        skipped_items(items@.take(i as int))[k],
                    ),
            decreases items.len() - i,
        {
            let ghost pre = items@.take(i as int);
            let ghost cur = items@.take(i + 1);
            assert(cur.drop_last() == pre);
            assert(cur.last() == items@[i as int]);
            assert(actions(cur).drop_last() == actions(pre));
            assert(actions(cur).last() == items@[i as int].action);
            proof {
                lemma_skipped_len(pre);
                lemma_count_action_bound(actions(pre), WriteAction::SkipLocked);
                lemma_count_action_bound(actions(pre), WriteAction::SkipExistingLyrics);
                lemma_count_action_bound(actions(pre), WriteAction::SkipUnsupportedFormat);
                lemma_count_action_bound(actions(pre), WriteAction::SkipNoMatch);
            }
            let item = &items[i];
            match skip_message(item.action) {
                None => {},
                Some(msg) => {
                    match item.action {
                        WriteAction::SkipLocked => {
                            self.locked = self.locked + 1;
                            let ghost fb = self.failures@;
                            self.failures.push(
                                FailureItem {
                                    title: item.title.clone(),
                                    reason: "正被其他程序使用".to_owned(),
                                },
                            );
                            assert(failures_view(self.failures@) =~= failures_view(fb).push(
                                (item.title@, "正被其他程序使用"@),
                            ));
                            assert(locked_failures(cur) =~= locked_failures(pre).push(
                                (item.title@, "正被其他程序使用"@),
                            ));
                        },
                        WriteAction::SkipExistingLyrics => {
                            self.skipped_existing = self.skipped_existing + 1;
                        },
                        WriteAction::SkipUnsupportedFormat => {
                            self.skipped_unsupported = self.skipped_unsupported + 1;
                        },
                        WriteAction::SkipNoMatch => {
                            self.skipped_no_match = self.skipped_no_match + 1;
                        },
                        _ => {},
                    }
                    self.skipped = self.skipped + 1;
                    let log = LogEvent { level: "warn".to_owned(), message: titled_line(
                        item.title.as_str(),
                        msg,
                    ) };
                    notes.push(
                        SkipNotice { track_id: item.track_id, message: msg.to_owned(), log },
                    );
                },
            }
            proof {
                if item.action != WriteAction::SkipLocked {
                    assert(locked_failures(cur) =~= locked_failures(pre));
                }
            }
            i = i + 1;
        }
        assert(items@.take(items@.len() as int) == items@);
        notes
    }

    /// Adds a worker's counts and failures.
    pub fn absorb(&mut self, local: WriteReport)
        requires
            old(self).ok + local.ok <= usize::MAX,
            old(self).failed + local.failed <= usize::MAX,
            old(self).skipped + local.skipped <= usize::MAX,
            old(self).locked + local.locked <= usize::MAX,
            i64::MIN <= old(self).bytes_delta + local.bytes_delta <= i64::MAX,
        ensures
            final(self).ok == old(self).ok + local.ok,
            final(self).failed == old(self).failed + local.failed,
            final(self).skipped == old(self).skipped + local.skipped,
            final(self).locked == old(self).locked + local.locked,
            final(self).bytes_delta == old(self).bytes_delta + local.bytes_delta,
            failures_view(final(self).failures@) == failures_view(old(self).failures@)
                + failures_view(local.failures@),
            final(self).total == old(self).total,
            final(self).skipped_existing == old(self).skipped_existing,
            final(self).skipped_unsupported == old(self).skipped_unsupported,
            final(self).skipped_no_match == old(self).skipped_no_match,
            final(self).target@ == old(self).target@,
            final(self).cancelled == old(self).cancelled,
    {
        self.ok = self.ok + local.ok;
        self.failed = self.failed + local.failed;
        self.skipped = self.skipped + local.skipped;
        self.locked = self.locked + local.locked;
        self.bytes_delta = self.bytes_delta + local.bytes_delta;
        let ghost fb = self.failures@;
        let mut more = local.failures;
        self.failures.append(&mut more);
        assert(failures_view(self.failures@) =~= failures_view(fb) + failures_view(
            local.failures@,
        ));
    }
}

/// Lyrics found in a track after a successful write: a sidecar write adds
/// the `.lrc` to what the tags had (read as both), a file write adds the
/// embedded lyrics to an existing `.lrc`.
pub fn presence_after_write(target: SaveTarget, before: LyricsPresence) -> (r: LyricsPresence)
    ensures
        r == match target {
            SaveTarget::Sidecar => LyricsPresence::Both,
            SaveTarget::File => match before {
                LyricsPresence::SidecarLrc => LyricsPresence::Both,
                _ => LyricsPresence::EmbeddedTag,
            },
        },
{
    match target {
        SaveTarget::Sidecar => LyricsPresence::Both,
        SaveTarget::File => match before {
            LyricsPresence::SidecarLrc => LyricsPresence::Both,
            _ => LyricsPresence::EmbeddedTag,
        },
    }
}

/// What a finished write does to its track: written (mark done), or set to
/// this state with this message.
pub enum WriteStep {
    Done,
    Mark { state: TrackState, message: String },
}

/// How the write of one song ended, as the worker saw it.
pub enum WriteResult {
    /// Written; `shown_name` is the sidecar's file name when one was made.
    Written { outcome: WriteOutcome, shown_name: Option<String> },
    Failed(AppError),
    /// The worker thread itself broke down.
    Crashed,
}

pub open spec fn write_log_spec(title: Seq<char>, res: WriteResult) -> Option<(Seq<char>, Seq<char>)> {
    match res {
        WriteResult::Written { shown_name, .. } => Some(
            (
                "ok"@,
                match shown_name {
                    Some(n) => titled(title, "已生成 "@ + n@),
                    None => titled(title, "歌词已保存到歌曲文件"@),
                },
            ),
        ),
        WriteResult::Failed(AppError::FileLocked { .. }) => Some(
            ("warn"@, titled(title, "这个文件正被其他程序使用，已跳过"@)),
        ),
        WriteResult::Failed(e) => Some(("err"@, titled(title, user_message_spec(e)))),
        WriteResult::Crashed => None,
    }
}

impl WriteReport {
    /// Records how one write ended. A file found locked only now (it passed
    /// the plan's probe) is a skip, not a failure; the race is allowed.
    /// Returns what to do with the track and the log line, if any.
    pub fn record_write(&mut self, title: &str, res: WriteResult) -> (r: (WriteStep, Option<LogEvent>))
        requires
            old(self).ok < usize::MAX,
            old(self).failed < usize::MAX,
            old(self).locked < usize::MAX,
            old(self).skipped < usize::MAX,
            res matches WriteResult::Written { outcome, .. } ==> i64::MIN <= old(self).bytes_delta
                + outcome.bytes_delta <= i64::MAX,
        ensures
            final(self).ok + final(self).failed + final(self).skipped == old(self).ok + old(
                self,
            ).failed + old(self).skipped + 1,
            match write_log_spec(title@, res) {
                None => r.1 is None,
                Some((lv, m)) => r.1 matches Some(e) && e.level@ == lv && e.message@ == m,
            },
            match res {
                WriteResult::Written { outcome, .. } => {
                    &&& r.0 is Done
                    &&& final(self).ok == old(self).ok + 1
                    &&& final(self).bytes_delta == old(self).bytes_delta + outcome.bytes_delta
                    &&& final(self).failed == old(self).failed
                    &&& final(self).locked == old(self).locked
                    &&& final(self).skipped == old(self).skipped
                    &&& failures_view(final(self).failures@) == failures_view(old(self).failures@)
                },
                WriteResult::Failed(AppError::FileLocked { .. }) => {
                    &&& r.0 matches WriteStep::Mark { state, message } && state == TrackState::Skip
                        && message@ == "这个文件正被其他程序使用，已跳过"@
                    &&& final(self).locked == old(self).locked + 1
                    &&& final(self).skipped == old(self).skipped + 1
                    &&& final(self).ok == old(self).ok
                    &&& final(self).failed == old(self).failed
                    &&& final(self).bytes_delta == old(self).bytes_delta
                    &&& failures_view(final(self).failures@) == failures_view(old(self).failures@).push(
                        (title@, "正被其他程序使用"@),
                    )
                },
                WriteResult::Failed(e) => {
                    &&& r.0 matches WriteStep::Mark { state, message } && state == TrackState::Failed
                        && message@ == user_message_spec(e)
                    &&& final(self).failed == old(self).failed + 1
                    &&& final(self).ok == old(self).ok
                    &&& final(self).locked == old(self).locked
                    &&& final(self).skipped == old(self).skipped
                    &&& final(self).bytes_delta == old(self).bytes_delta
                    &&& failures_view(final(self).failures@) == failures_view(old(self).failures@).push(
                        (title@, user_message_spec(e)),
                    )
                },
                WriteResult::Crashed => {
                    &&& r.0 matches WriteStep::Mark { state, message } && state == TrackState::Failed
                        && message@ == "写入时出错，已跳过"@
                    &&& final(self).failed == old(self).failed + 1
                    &&& final(self).ok == old(self).ok
                    &&& final(self).locked == old(self).locked
                    &&& final(self).skipped == old(self).skipped
                    &&& final(self).bytes_delta == old(self).bytes_delta
                    &&& failures_view(final(self).failures@) == failures_view(old(self).failures@)
                },
            },
            final(self).total == old(self).total,
            final(self).skipped_existing == old(self).skipped_existing,
            final(self).skipped_unsupported == old(self).skipped_unsupported,
            final(self).skipped_no_match == old(self).skipped_no_match,
            final(self).target@ == old(self).target@,
            final(self).cancelled == old(self).cancelled,
    {
        match res {
            WriteResult::Written { outcome, shown_name } => {
                self.ok = self.ok + 1;
                self.bytes_delta = self.bytes_delta + outcome.bytes_delta;
                let msg = match shown_name {
                    Some(n) => {
                        let mut v = chars_of("已生成 ");
                        push_str_vec(&mut v, n.as_str());
                        let m = string_of(&v);
                        titled_line(title, m.as_str())
                    },
                    None => titled_line(title, "歌词已保存到歌曲文件"),
                };
                (WriteStep::Done, Some(LogEvent { level: "ok".to_owned(), message: msg }))
            },
            WriteResult::Failed(AppError::FileLocked { .. }) => {
                self.locked = self.locked + 1;
                self.skipped = self.skipped + 1;
                let msg = "这个文件正被其他程序使用，已跳过";
                let log = LogEvent { level: "warn".to_owned(), message: titled_line(title, msg) };
                let ghost fb = self.failures@;
                self.failures.push(
                    FailureItem { title: title.to_owned(), reason: "正被其他程序使用".to_owned() },
                );
                assert(failures_view(self.failures@) =~= failures_view(fb).push(
                    (title@, "正被其他程序使用"@),
                ));
                (WriteStep::Mark { state: TrackState::Skip, message: msg.to_owned() }, Some(log))
            },
            WriteResult::Failed(e) => {
                self.failed = self.failed + 1;
                let msg = e.user_message();
                let log = LogEvent { level: "err".to_owned(), message: titled_line(title, msg.as_str()) };
                let ghost fb = self.failures@;
                self.failures.push(FailureItem { title: title.to_owned(), reason: msg.clone() });
                assert(failures_view(self.failures@) =~= failures_view(fb).push(
                    (title@, user_message_spec(e)),
                ));
                (WriteStep::Mark { state: TrackState::Failed, message: msg }, Some(log))
            },
            WriteResult::Crashed => {
                self.failed = self.failed + 1;
                (
                    WriteStep::Mark {
                        state: TrackState::Failed,
                        message: "写入时出错，已跳过".to_owned(),
                    },
                    None,
                )
            },
        }
    }
}


/// Files smaller than this are not probed (the probe needs room to seek).
pub const SSD_PROBE_MIN_BYTES: u64 = 1048576;

/// Random reads made by the storage probe.
pub const SSD_PROBE_READS: usize = 12;

/// Bytes read at each probe offset.
pub const SSD_PROBE_READ_BYTES: u64 = 4096;

/// Median read latency, in nanoseconds, below which the drive counts as solid
/// state: spinning disks take 5–15 ms per random read, solid-state drives
/// 0.05–0.3 ms, an order of magnitude apart either way.
pub const SSD_LATENCY_LINE_NS: u64 = 1000000;

pub const PROBE_SEED: u64 = 0x9E37_79B9_7F4A_7C15;

/// One xorshift step (13, 7, 17).
pub open spec fn xorshift(s: u64) -> u64 {
    let a = s ^ (s << 13u64);
    let b = a ^ (a >> 7u64);
    b ^ (b << 17u64)
}

/// The seed after `n` steps.
pub open spec fn seed_after(n: nat) -> u64
    decreases n,
{
    if n == 0 {
        PROBE_SEED
    } else {
        xorshift(seed_after((n - 1) as nat))
    }
}

/// Where the storage probe reads in a file of `len` bytes: pseudo-random
/// offsets from a fixed xorshift sequence, so no random source is needed.
pub fn probe_offsets(len: u64) -> (r: Vec<u64>)
    requires
        len >= SSD_PROBE_MIN_BYTES,
    ensures
        r@.len() == SSD_PROBE_READS,
        forall|i: int|
            0 <= i < SSD_PROBE_READS ==> #[trigger] r@[i] == seed_after((i + 1) as nat) % (len
                - SSD_PROBE_READ_BYTES) as u64,
{
    let span = len - SSD_PROBE_READ_BYTES;
    let mut seed: u64 = PROBE_SEED;
    let mut out: Vec<u64> = Vec::new();
    let mut i: usize = 0;
    while i < SSD_PROBE_READS
        invariant
            i <= SSD_PROBE_READS,
            span == len - SSD_PROBE_READ_BYTES,
            span > 0,
            seed == seed_after(i as nat),
            out@.len() == i,
            forall|k: int|
                0 <= k < i ==> #[trigger] out@[k] == seed_after((k + 1) as nat) % span,
        decreases SSD_PROBE_READS - i,
    {
        seed = seed ^ (seed << 13u64);
        seed = seed ^ (seed >> 7u64);
        seed = seed ^ (seed << 17u64);
        assert(seed == seed_after((i + 1) as nat));
        out.push(seed % span);
        i = i + 1;
    }
    out
}

/// How many of the samples are below `line`.
pub open spec fn count_below(s: Seq<u64>, line: u64) -> nat
    decreases s.len(),
{
    if s.len() == 0 {
        0
    } else {
        count_below(s.drop_last(), line) + if s.last() < line {
            1nat
        } else {
            0nat
        }
    }
}

/// The probe's verdict on the read latencies (nanoseconds): whether the
/// median, the middle sample once sorted, is below the line. The sample at
/// index `n / 2` of the sorted list is below it exactly when more than half
/// of the samples are.
pub fn judged_solid_state(samples_ns: &[u64]) -> (r: bool)
    ensures
        r == (count_below(samples_ns@, SSD_LATENCY_LINE_NS) > samples_ns@.len() / 2),
{
    let mut below: usize = 0;
    let mut i: usize = 0;
    while i < samples_ns.len()
        invariant
            i <= samples_ns@.len(),
            below == count_below(samples_ns@.take(i as int), SSD_LATENCY_LINE_NS),
            below <= i,
        decreases samples_ns.len() - i,
    {
        assert(samples_ns@.take(i + 1).drop_last() == samples_ns@.take(i as int));
        if samples_ns[i] < SSD_LATENCY_LINE_NS {
            below = below + 1;
        }
        i = i + 1;
    }
    assert(samples_ns@.take(samples_ns@.len() as int) == samples_ns@);
    below > samples_ns.len() / 2
}


/// The skips of a plan, counted by reason, add up to all its skips: every
/// skip has exactly one reason to show the user.
pub proof fn lemma_skip_reasons_add_up(items: Seq<WritePlanItem>)
    ensures
        skipped_items(items).len() == count_action(actions(items), WriteAction::SkipLocked)
            + count_action(actions(items), WriteAction::SkipExistingLyrics) + count_action(
            actions(items),
            WriteAction::SkipUnsupportedFormat,
        ) + count_action(actions(items), WriteAction::SkipNoMatch),
    decreases items.len(),
{
    if items.len() > 0 {
        lemma_skip_reasons_add_up(items.drop_last());
        assert(actions(items).drop_last() == actions(items.drop_last()));
        assert(actions(items).last() == items.last().action);
    }
}

/// The update sent for a track: its state key, and its match and score only
/// when the match may be shown (so a failed retry clears the old one).
pub fn track_updated(t: &Track) -> (r: TrackUpdated)
    ensures
        r.track_id == t.id.0,
        r.state@ == state_key_spec(t.state),
        opt_seq(r.message) == opt_seq(t.message),
        r.existing_lyrics == t.existing_lyrics,
        displayable_spec(t.state, match_grade(t.matched)) ==> (r.score == Some(t.matched->0.score)
            && (r.matched matches Some(s) && summarises(s, t.matched->0))),
        !displayable_spec(t.state, match_grade(t.matched)) ==> r.score is None && r.matched is None,
{
    let (score, matched) = match t.displayable_match() {
        Some(m) => (Some(m.score), Some(MatchSummary::from_result(m))),
        None => (None, None),
    };
    TrackUpdated {
        track_id: t.id.0,
        state: state_key(t.state).to_owned(),
        score,
        message: copy_text(&t.message),
        existing_lyrics: t.existing_lyrics,
        matched,
    }
}

/// The ids, in order, that a match run works on: those in the library and
/// not yet written (finished songs are not matched again).
pub open spec fn match_targets(store: TrackStore, ids: Seq<u64>) -> Seq<u64>
    decreases ids.len(),
{
    if ids.len() == 0 {
        Seq::empty()
    } else {
        let r = match_targets(store, ids.drop_last());
        let id = ids.last();
        match store.slot(id) {
            Some(p) => if store.tracks_view()[p].state != TrackState::Done {
                r.push(id)
            } else {
                r
            },
            None => r,
        }
    }
}

/// The query a match run searches a track by: its shown title and artist
/// and its length in whole seconds.
pub open spec fn query_for(q: SearchQuery, t: Track) -> bool {
    &&& q.title@ == match t.meta.title {
        Some(x) => x@,
        None => "未知标题"@,
    }
    &&& q.artist@ == opt_text(t.meta.artist)
    &&& q.duration_secs == crate::domain::candidate::secs_of(t.duration_ms)
}

/// The work list of a match run: each target with its query.
pub fn collect_targets(store: &TrackStore, ids: &[u64]) -> (r: Vec<(u64, SearchQuery)>)
    requires
        store.wf(),
    ensures
        r@.len() == match_targets(*store, ids@).len(),
        forall|k: int|
            0 <= k < r@.len() ==> (#[trigger] r@[k]).0 == match_targets(*store, ids@)[k] && (
            store.slot(r@[k].0) matches Some(p) && query_for(r@[k].1, store.tracks_view()[p])),
{
    let mut out: Vec<(u64, SearchQuery)> = Vec::new();
    let mut i: usize = 0;
    while i < ids.len()
        invariant
            i <= ids@.len(),
            store.wf(),
            out@.len() == match_targets(*store, ids@.take(i as int)).len(),
            forall|k: int|
                0 <= k < out@.len() ==> (#[trigger] out@[k]).0 == match_targets(
                    *store,
                    ids@.take(i as int),
                )[k] && (store.slot(out@[k].0) matches Some(p) && query_for(
                    out@[k].1,
                    store.tracks_view()[p],
                )),
        decreases ids@.len() - i,
    {
        assert(ids@.take(i + 1).drop_last() == ids@.take(i as int));
        assert(ids@.take(i + 1).last() == ids@[i as int]);
        let id = ids[i];
        match store.get(id) {
            Some(t) => {
                if t.state != TrackState::Done {
                    let q = SearchQuery::from_meta(&t.meta, t.duration_ms);
                    out.push((id, q));
                }
            },
            None => {},
        }
        i = i + 1;
    }
    assert(ids@.take(ids@.len() as int) == ids@);
    out
}

pub open spec fn grade_outcome(g: Grade) -> OneOutcome {
    match g {
        Grade::Auto => OneOutcome::Matched,
        Grade::Confirm => OneOutcome::Confirm,
        Grade::Rejected => OneOutcome::Failed,
    }
}

/// Records how one match attempt ended on its track. `shortlist` is the
/// short list, best first (the best already enriched); `fetched` the lyrics
/// fetch for the best. An attempt that ended before scoring sets the
/// verdict's state and message. Otherwise the best becomes the match,
/// graded by its score, and the track takes the state of that grade (a
/// match to confirm says so).
pub fn finish_match(
    store: &mut TrackStore,
    id: u64,
    shortlist: Vec<Scored>,
    fetched: Result<Lyrics, AppError>,
) -> (r: OneOutcome)
    requires
        old(store).wf(),
    ensures
        final(store).wf(),
        final(store).root_view() == old(store).root_view(),
        final(store).tracks_view().len() == old(store).tracks_view().len(),
        match fetch_verdict_spec(shortlist@.len() > 0, fetched) {
            Some((o, st, m)) => {
                &&& r == o
                &&& final(store).tracks_view() == match old(store).slot(id) {
                    Some(p) => old(store).tracks_view().update(
                        p,
                        with_state(
                            old(store).tracks_view()[p],
                            st,
                            final(store).tracks_view()[p].message,
                        ),
                    ),
                    None => old(store).tracks_view(),
                }
                &&& old(store).slot(id) matches Some(p) ==> final(store).tracks_view()[p].message
                    matches Some(x) && x@ == m
            },
            None => {
                let best = shortlist@[0];
                let g = decide_spec(best.score);
                &&& r == grade_outcome(g)
                &&& match old(store).slot(id) {
                    Some(p) => {
                        let t = final(store).tracks_view()[p];
                        &&& forall|i: int|
                            0 <= i < old(store).tracks_view().len() && i != p ==> final(store).tracks_view()[i]
                                == old(store).tracks_view()[i]
                        &&& same_file(t, old(store).tracks_view()[p])
                        &&& t.matched matches Some(m) && same_candidate(m.candidate, best.candidate)
                            && fetched == Ok::<Lyrics, AppError>(m.lyrics) && meta_of_candidate(
                            m.metadata,
                            best.candidate,
                        ) && opt_seq(m.cover_url) == opt_seq(best.candidate.cover_url) && m.grade
                            == g && m.score == best.score
                        &&& t.candidates@ == with_first(shortlist@, best.score, best.candidate.provider)
                        &&& t.candidate_pick == 0
                        &&& t.state == grade_state(g)
                        &&& (if g == Grade::Confirm {
                            t.message matches Some(x) && x@ == "找到几个可能的歌词，需要你确认一下"@
                        } else {
                            t.message is None
                        })
                    },
                    None => final(store).tracks_view() == old(store).tracks_view(),
                }
            },
        },
{
    proof {
        store.lemma_slot(id);
    }
    match fetch_verdict(shortlist.len() > 0, &fetched) {
        Some((o, st, m)) => {
            store.set_state(id, st, Some(m));
            return o;
        },
        None => {},
    }
    let lyrics = match fetched {
        Ok(l) => l,
        Err(_) => {
            return OneOutcome::Failed;
        },
    };
    let best = &shortlist[0];
    let grade = decide(best.score);
    let message = grade.state_message();
    let candidate = best.candidate.duplicate();
    let metadata = best.candidate.to_meta();
    let cover_url = copy_text(&best.candidate.cover_url);
    let score = best.score;
    let result = MatchResult { candidate, lyrics, metadata, cover_url, grade, score };
    let state = grade.state();
    store.apply_match(id, result, shortlist);
    store.set_state(id, state, message);
    match grade {
        Grade::Auto => OneOutcome::Matched,
        Grade::Confirm => OneOutcome::Confirm,
        Grade::Rejected => OneOutcome::Failed,
    }
}

/// The cover to download before writing a track: only when covers are to be
/// embedded, the file has none, and the match carries a cover URL. A failed
/// download does not stop the lyrics.
pub fn cover_to_fetch(settings: &Settings, t: &Track) -> (r: Option<String>)
    ensures
        match (settings.write.embed_cover, t.meta.has_cover, t.matched) {
            (true, false, Some(m)) => opt_seq(r) == opt_seq(m.cover_url),
            _ => r is None,
        },
{
    if !settings.write.embed_cover || t.meta.has_cover {
        return None;
    }
    match &t.matched {
        Some(m) => copy_text(&m.cover_url),
        None => None,
    }
}

/// The ids of a plan's entries that will be written, in order.
pub open spec fn write_ids(items: Seq<WritePlanItem>) -> Seq<u64>
    decreases items.len(),
{
    if items.len() == 0 {
        Seq::empty()
    } else if is_write_spec(items.last().action) {
        write_ids(items.drop_last()).push(items.last().track_id)
    } else {
        write_ids(items.drop_last())
    }
}

/// The tracks a write run works on: the planned writes, in plan order.
pub fn write_targets(plan: &WritePlan) -> (r: Vec<u64>)
    ensures
        r@ == write_ids(plan.items@),
{
    let mut out: Vec<u64> = Vec::new();
    let mut i: usize = 0;
    while i < plan.items.len()
        invariant
            i <= plan.items@.len(),
            out@ == write_ids(plan.items@.take(i as int)),
        decreases plan.items@.len() - i,
    {
        assert(plan.items@.take(i + 1).drop_last() == plan.items@.take(i as int));
        assert(plan.items@.take(i + 1).last() == plan.items@[i as int]);
        if plan.items[i].action.is_write() {
            out.push(plan.items[i].track_id);
        }
        i = i + 1;
    }
    assert(plan.items@.take(plan.items@.len() as int) == plan.items@);
    out
}


/// Every planned song is either announced as a skip or handed to the writer,
/// never both: with one `record_write` per written song after `count_skips`,
/// a finished run has `ok + failed + skipped` equal to the songs planned.
pub proof fn lemma_write_run_covers_plan(items: Seq<WritePlanItem>)
    ensures
        skipped_items(items).len() + write_ids(items).len() == items.len(),
    decreases items.len(),
{
    if items.len() > 0 {
        lemma_write_run_covers_plan(items.drop_last());
    }
}


/// The lines logged when a write task starts: what is about to be saved
/// where, and, when covers are embedded, that covers come too.
pub fn write_start_log(n: usize, target: SaveTarget, embed_cover: bool) -> (r: Vec<LogEvent>)
    ensures
        r@.len() == if embed_cover { 2int } else { 1int },
        r@[0].level@ == "info"@,
        r@[0].message@ == match target {
            SaveTarget::File => "开始把歌词保存到 "@ + counted(n, " 首歌里…"@),
            SaveTarget::Sidecar => "开始为 "@ + counted(n, " 首歌生成 .lrc 文件…"@),
        },
        embed_cover ==> r@[1].level@ == "info"@ && r@[1].message@ == "同时会下载并保存专辑封面"@,
{
    let mut m = match target {
        SaveTarget::File => chars_of("开始把歌词保存到 "),
        SaveTarget::Sidecar => chars_of("开始为 "),
    };
    let tail = match target {
        SaveTarget::File => counted_text(n, " 首歌里…"),
        SaveTarget::Sidecar => counted_text(n, " 首歌生成 .lrc 文件…"),
    };
    push_str_vec(&mut m, tail.as_str());
    let mut r: Vec<LogEvent> = Vec::new();
    r.push(LogEvent { level: "info".to_owned(), message: string_of(&m) });
    if embed_cover {
        r.push(LogEvent { level: "info".to_owned(), message: "同时会下载并保存专辑封面".to_owned() });
    }
    r
}

} // verus!
