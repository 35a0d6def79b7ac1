//! Time-context text: compact durations, fixed-width UTC timestamps, the
//! refresh-interval rule and the injected message text.

use vstd::prelude::*;
use vstd::string::StringExecFns;
use crate::num::{decimal, push_u64, push_u64_padded, zero_pad};
use crate::text::push_str;

verus! {

/// Plugin source tag of injected time-context messages.
pub const PLUGIN_SOURCE: &'static str = "time-context";

/// Compact whole-second text of an elapsed millisecond count: days, hours and
/// minutes when non-zero, then seconds, as `1d 1h 1m 1s`.
pub open spec fn duration_text(elapsed_ms: u64) -> Seq<char> {
    let s = elapsed_ms as nat / 1000;
    let d = s / 86_400;
    let h = (s % 86_400) / 3600;
    let m = (s % 3600) / 60;
    let sec = s % 60;
    (if d > 0 { decimal(d) + "d "@ } else { Seq::empty() })
        + (if h > 0 { decimal(h) + "h "@ } else { Seq::empty() })
        + (if m > 0 { decimal(m) + "m "@ } else { Seq::empty() })
        + decimal(sec) + "s"@
}

/// Format an elapsed millisecond count as compact whole-second units.
pub fn format_duration(elapsed_ms: u64) -> (r: String)
    ensures
        r@ == duration_text(elapsed_ms),
{
    let mut seconds = elapsed_ms / 1000;
    let days = seconds / 86_400;
    seconds = seconds % 86_400;
    let hours = seconds / 3600;
    seconds = seconds % 3600;
    let minutes = seconds / 60;
    seconds = seconds % 60;
    assert(hours == ((elapsed_ms as nat / 1000) % 86_400) / 3600);
    assert(minutes == ((elapsed_ms as nat / 1000) % 3600) / 60) by (nonlinear_arith)
        requires
            minutes == (((elapsed_ms as nat / 1000) % 86_400) % 3600) / 60;
    assert(seconds == (elapsed_ms as nat / 1000) % 60) by (nonlinear_arith)
        requires
            seconds == (((elapsed_ms as nat / 1000) % 86_400) % 3600) % 60;
    let mut r = String::new();
    if days > 0 {
        push_u64(&mut r, days);
        push_str(&mut r, "d ");
    }
    if hours > 0 {
        push_u64(&mut r, hours);
        push_str(&mut r, "h ");
    }
    if minutes > 0 {
        push_u64(&mut r, minutes);
        push_str(&mut r, "m ");
    }
    push_u64(&mut r, seconds);
    push_str(&mut r, "s");
    assert(r@ =~= duration_text(elapsed_ms));
    r
}

/// Gregorian leap year.
pub open spec fn is_leap(year: int) -> bool {
    year % 4 == 0 && (year % 100 != 0 || year % 400 == 0)
}

/// Days in `year`.
pub open spec fn year_len(year: int) -> nat {
    if is_leap(year) { 366 } else { 365 }
}

/// Days from 1970-01-01 to the first day of `year`.
pub open spec fn days_before_year(year: int) -> nat
    decreases year - 1970,
{
    if year <= 1970 {
        0
    } else {
        days_before_year(year - 1) + year_len(year - 1)
    }
}

/// Days in `month` (1 to 12) of `year`.
pub open spec fn month_len(year: int, month: int) -> nat {
    if month == 2 {
        if is_leap(year) { 29 } else { 28 }
    } else if month == 4 || month == 6 || month == 9 || month == 11 {
        30
    } else {
        31
    }
}

/// Days from the first of the year to the first of `month`.
pub open spec fn days_before_month(year: int, month: int) -> nat
    decreases month,
{
    if month <= 1 {
        0
    } else {
        days_before_month(year, month - 1) + month_len(year, month - 1)
    }
}

/// `(year, month, day)` is the calendar date `days` days after 1970-01-01.
pub open spec fn is_civil(days: nat, year: int, month: int, day: int) -> bool {
    &&& year >= 1970
    &&& 1 <= month <= 12
    &&& 1 <= day <= month_len(year, month)
    &&& days == days_before_year(year) + days_before_month(year, month) + day - 1
}

proof fn lemma_year_of_months(year: int)
    ensures
        days_before_month(year, 12) + month_len(year, 12) == year_len(year),
{
    reveal_with_fuel(days_before_month, 13);
}

proof fn lemma_months_mono(year: int, a: int, b: int)
    requires
        1 <= a <= b <= 13,
    ensures
        days_before_month(year, a) + (b - a) * 28 <= days_before_month(year, b),
    decreases b - a,
{
    if a < b {
        lemma_months_mono(year, a, b - 1);
    }
}

proof fn lemma_years_mono(a: int, b: int)
    requires
        1970 <= a <= b,
    ensures
        days_before_year(a) + (b - a) * 365 <= days_before_year(b),
    decreases b - a,
{
    if a < b {
        lemma_years_mono(a, b - 1);
    }
}

proof fn lemma_civil_unique(days: nat, y1: int, m1: int, d1: int, y2: int, m2: int, d2: int)
    requires
        is_civil(days, y1, m1, d1),
        is_civil(days, y2, m2, d2),
    ensures
        y1 == y2 && m1 == m2 && d1 == d2,
{
    lemma_year_of_months(y1);
    lemma_year_of_months(y2);
    lemma_months_mono(y1, m1, 12);
    lemma_months_mono(y2, m2, 12);
    if y1 < y2 {
        lemma_years_mono(y1 + 1, y2);
        assert(false);
    } else if y2 < y1 {
        lemma_years_mono(y2 + 1, y1);
        assert(false);
    }
    if m1 < m2 {
        lemma_months_mono(y1, m1 + 1, m2);
        assert(false);
    } else if m2 < m1 {
        lemma_months_mono(y1, m2 + 1, m1);
        assert(false);
    }
}

/// The calendar date `days` days after 1970-01-01.
pub open spec fn civil_of(days: nat) -> (int, int, int) {
    choose|ymd: (int, int, int)| is_civil(days, ymd.0, ymd.1, ymd.2)
}

fn is_leap_year(year: i32) -> (r: bool)
    requires
        year >= 0,
    ensures
        r == is_leap(year as int),
{
    year % 4 == 0 && (year % 100 != 0 || year % 400 == 0)
}

fn month_days(year: i32, month: u32) -> (r: u64)
    requires
        year >= 0,
        1 <= month <= 12,
    ensures
        r == month_len(year as int, month as int),
{
    if month == 2 {
        if is_leap_year(year) { 29 } else { 28 }
    } else if month == 4 || month == 6 || month == 9 || month == 11 {
        30
    } else {
        31
    }
}

/// The calendar date `days` days after 1970-01-01 (the year stays within
/// `i32` for every `u64` count of whole days of `u64` milliseconds).
fn civil_from_days(days: u64) -> (r: (i32, u32, u32))
    requires
        days <= 213_503_982_335u64,
    ensures
        is_civil(days as nat, r.0 as int, r.1 as int, r.2 as int),
{
    let mut rem: u64 = days;
    let mut year: i32 = 1970;
    loop
        invariant
            1970 <= year,
            days <= 213_503_982_335u64,
            rem as int == days as int - days_before_year(year as int),
            (year - 1970) * 365 <= days as int,
        ensures
            1970 <= year,
            rem as int == days as int - days_before_year(year as int),
            rem < year_len(year as int),
        decreases rem,
    {
        let year_days: u64 = if is_leap_year(year) { 366 } else { 365 };
        if rem < year_days {
            break;
        }
        rem = rem - year_days;
        proof {
            lemma_years_mono(1970, year + 1);
        }
        year = year + 1;
    }
    let mut month: u32 = 1;
    proof {
        lemma_year_of_months(year as int);
    }
    loop
        invariant
            1970 <= year,
            1 <= month <= 12,
            rem as int + days_before_month(year as int, month as int) + days_before_year(year as int) == days as int,
            rem as int + days_before_month(year as int, month as int) < year_len(year as int),
            days_before_month(year as int, 12) + month_len(year as int, 12) == year_len(year as int),
        ensures
            1 <= month <= 12,
            rem as int + days_before_month(year as int, month as int) + days_before_year(year as int) == days as int,
            rem < month_len(year as int, month as int),
        decreases 12 - month,
    {
        let month_len_days = month_days(year, month);
        if rem < month_len_days {
            break;
        }
        rem = rem - month_len_days;
        if month == 12 {
            assert(false);
        }
        month = month + 1;
    }
    (year, month, (rem + 1) as u32)
}

/// `YYYY-MM-DD HH:MM:SS UTC` of epoch milliseconds.
pub open spec fn timestamp_text(ms: u64) -> Seq<char> {
    let secs = ms as nat / 1000;
    let (y, mo, d) = civil_of(secs / 86_400);
    let rem = secs % 86_400;
    zero_pad(decimal(y as nat), 4) + "-"@ + zero_pad(decimal(mo as nat), 2) + "-"@ + zero_pad(decimal(d as nat), 2)
        + " "@ + zero_pad(decimal(rem / 3600), 2) + ":"@ + zero_pad(decimal((rem % 3600) / 60), 2) + ":"@
        + zero_pad(decimal(rem % 60), 2) + " UTC"@
}

/// Format epoch milliseconds as `YYYY-MM-DD HH:MM:SS UTC`.
pub fn format_utc_timestamp(ms: u64) -> (r: String)
    ensures
        r@ == timestamp_text(ms),
{
    let secs = ms / 1000;
    let days = secs / 86_400;
    let rem = secs % 86_400;
    let (year, month, day) = civil_from_days(days);
    proof {
        let c = civil_of(days as nat);
        assert(is_civil(days as nat, year as int, month as int, day as int));
        lemma_civil_unique(days as nat, year as int, month as int, day as int, c.0, c.1, c.2);
    }
    let mut r = String::new();
    push_u64_padded(&mut r, year as u64, 4);
    push_str(&mut r, "-");
    push_u64_padded(&mut r, month as u64, 2);
    push_str(&mut r, "-");
    push_u64_padded(&mut r, day as u64, 2);
    push_str(&mut r, " ");
    push_u64_padded(&mut r, rem / 3600, 2);
    push_str(&mut r, ":");
    push_u64_padded(&mut r, (rem % 3600) / 60, 2);
    push_str(&mut r, ":");
    push_u64_padded(&mut r, rem % 60, 2);
    push_str(&mut r, " UTC");
    r
}

/// Whether a refresh interval suppresses this injection: a positive interval,
/// a known non-negative last injection time, and less than the interval
/// elapsed since it (with the clock not behind it).
pub open spec fn skip_spec(now_ms: u64, last: Option<i64>, interval: Option<u64>) -> bool {
    match (interval, last) {
        (Some(iv), Some(l)) => iv != 0 && l >= 0 && now_ms >= l && now_ms - l < iv,
        _ => false,
    }
}

/// Whether the refresh interval suppresses an injection at `now_ms`.
pub fn should_skip_interval(now_ms: u64, last: Option<i64>, interval: Option<u64>) -> (r: bool)
    ensures
        r == skip_spec(now_ms, last, interval),
{
    let interval = match interval {
        Some(iv) => iv,
        None => return false,
    };
    if interval == 0 {
        return false;
    }
    let last = match last {
        Some(l) => l,
        None => return false,
    };
    if last < 0 {
        return false;
    }
    let last = last as u64;
    now_ms >= last && now_ms - last < interval
}

/// Milliseconds from `previous` to `now_ms`: zero for a negative `previous`
/// or a clock behind it.
pub open spec fn elapsed_spec(now_ms: u64, previous: i64) -> u64 {
    if previous < 0 || now_ms < previous { 0 } else { (now_ms - previous) as u64 }
}

/// Milliseconds elapsed since `previous`.
pub fn elapsed_ms(now_ms: u64, previous: i64) -> (r: u64)
    ensures
        r == elapsed_spec(now_ms, previous),
{
    if previous < 0 {
        return 0;
    }
    let p = previous as u64;
    if now_ms >= p { now_ms - p } else { 0 }
}

/// The injected text: the sampled time for this turn and step, then the time
/// elapsed since the preceding model-visible message (first step) or step
/// context (later steps), or `unavailable`.
pub open spec fn injection_text(now_ms: u64, turn: u64, step: u64, previous: Option<i64>) -> Seq<char> {
    "Time sampled while preparing turn "@ + decimal(turn as nat) + ", step "@ + decimal(step as nat) + ": "@
        + timestamp_text(now_ms) + "\nElapsed since the preceding "@
        + (if step == 1 { "model-visible message"@ } else { "step context"@ }) + ": "@
        + (match previous {
            None => "unavailable"@,
            Some(p) => duration_text(elapsed_spec(now_ms, p)),
        }) + "."@
}

/// Render the injected time-context text.
pub fn render_text(now_ms: u64, turn: u64, step: u64, previous: Option<i64>) -> (r: String)
    ensures
        r@ == injection_text(now_ms, turn, step, previous),
{
    let mut r = String::new();
    push_str(&mut r, "Time sampled while preparing turn ");
    push_u64(&mut r, turn);
    push_str(&mut r, ", step ");
    push_u64(&mut r, step);
    push_str(&mut r, ": ");
    let ts = format_utc_timestamp(now_ms);
    push_str(&mut r, ts.as_str());
    push_str(&mut r, "\nElapsed since the preceding ");
    if step == 1 {
        push_str(&mut r, "model-visible message");
    } else {
        push_str(&mut r, "step context");
    }
    push_str(&mut r, ": ");
    match previous {
        None => push_str(&mut r, "unavailable"),
        Some(p) => {
            let d = format_duration(elapsed_ms(now_ms, p));
            push_str(&mut r, d.as_str());
        },
    }
    push_str(&mut r, ".");
    assert(r@ =~= injection_text(now_ms, turn, step, previous));
    r
}

/// The session events the time context reads.
#[derive(Clone, Copy, Debug, PartialEq, Eq)]
pub enum TimelineEvent {
    /// A turn started.
    TurnStart { turn: u64 },
    /// A step of a turn started.
    StepStart { turn: u64, step: u64 },
    /// A user message at `time`; `time_context` marks one this plugin injected.
    UserMessage { time: i64, time_context: bool },
    /// An assistant message at `time`.
    AssistantMessage { time: i64 },
    /// A tool result at `time`.
    ToolResult { time: i64 },
    /// Any other event.
    Other,
}

/// The current turn and last step of that turn, after `events`.
pub open spec fn turn_and_step(events: Seq<TimelineEvent>) -> (u64, u64)
    decreases events.len(),
{
    if events.len() == 0 {
        (0, 0)
    } else {
        let (t, s) = turn_and_step(events.drop_last());
        match events.last() {
            TimelineEvent::TurnStart { turn } => (turn, 0),
            TimelineEvent::StepStart { turn, step } => if turn == t { (t, step) } else { (t, s) },
            _ => (t, s),
        }
    }
}

/// Time of the newest injected time-context message.
pub open spec fn last_injection(events: Seq<TimelineEvent>) -> Option<i64>
    decreases events.len(),
{
    if events.len() == 0 {
        None
    } else {
        match events.last() {
            TimelineEvent::UserMessage { time, time_context } => if time_context { Some(time) } else { last_injection(events.drop_last()) },
            _ => last_injection(events.drop_last()),
        }
    }
}

/// Time of the newest model-visible message: user, assistant or tool result.
pub open spec fn last_message(events: Seq<TimelineEvent>) -> Option<i64>
    decreases events.len(),
{
    if events.len() == 0 {
        None
    } else {
        match events.last() {
            TimelineEvent::UserMessage { time, .. } => Some(time),
            TimelineEvent::AssistantMessage { time } => Some(time),
            TimelineEvent::ToolResult { time } => Some(time),
            _ => last_message(events.drop_last()),
        }
    }
}

/// Time of the newest injected message within turn `turn`: the search stops
/// at that turn's start.
pub open spec fn last_step_context(events: Seq<TimelineEvent>, turn: u64) -> Option<i64>
    decreases events.len(),
{
    if events.len() == 0 {
        None
    } else {
        match events.last() {
            TimelineEvent::TurnStart { turn: t } => if t == turn { None } else { last_step_context(events.drop_last(), turn) },
            TimelineEvent::UserMessage { time, time_context } => if time_context { Some(time) } else { last_step_context(events.drop_last(), turn) },
            _ => last_step_context(events.drop_last(), turn),
        }
    }
}

/// What one pre-step injection reads from the session.
#[derive(Clone, Copy, Debug, PartialEq, Eq)]
pub struct InjectionView {
    /// Current turn.
    pub turn: u64,
    /// The step about to run (last step plus one).
    pub step: u64,
    /// Time of the newest injected time-context message.
    pub last_injection: Option<i64>,
    /// Baseline time for the elapsed text.
    pub previous: Option<i64>,
}

/// The injection view of a session's events.
pub open spec fn view_spec(events: Seq<TimelineEvent>) -> InjectionView {
    let (turn, last) = turn_and_step(events);
    let step = (last + 1) as u64;
    InjectionView {
        turn,
        step,
        last_injection: last_injection(events),
        previous: if step == 1 { last_message(events) } else { last_step_context(events, turn) },
    }
}

/// An event that is no time-context injection and starts no turn or step: an
/// ordinary user, assistant or tool-result message, or anything else.
pub open spec fn is_ordinary(e: TimelineEvent) -> bool {
    match e {
        TimelineEvent::TurnStart { .. } => false,
        TimelineEvent::StepStart { .. } => false,
        TimelineEvent::UserMessage { time_context, .. } => !time_context,
        _ => true,
    }
}

/// The elapsed baseline of a later step (step > 1) is the newest time-context
/// injection of the current turn: an ordinary message after it changes
/// neither the step nor the baseline, a new injection becomes the baseline,
/// and a turn without injections has none. The first step of a turn measures
/// from the newest message of any kind.
pub proof fn law_later_step_baseline_is_step_context(events: Seq<TimelineEvent>, e: TimelineEvent, time: i64)
    ensures
        is_ordinary(e) ==> view_spec(events.push(e)).turn == view_spec(events).turn
            && view_spec(events.push(e)).step == view_spec(events).step,
        is_ordinary(e) && view_spec(events).step > 1 ==> view_spec(events.push(e)).previous == view_spec(events).previous,
        view_spec(events).step > 1 ==> view_spec(events.push(TimelineEvent::UserMessage { time, time_context: true })).previous
            == Some(time),
        view_spec(events).step == 1 && is_ordinary(e) && e != TimelineEvent::Other
            ==> view_spec(events.push(e)).previous is Some,
        view_spec(events).step == 1 ==> view_spec(events.push(TimelineEvent::AssistantMessage { time })).previous == Some(time),
        ({
            let (t, s) = turn_and_step(events);
            let fresh = events.push(TimelineEvent::TurnStart { turn: t }).push(TimelineEvent::StepStart { turn: t, step: 1 }).push(e);
            is_ordinary(e) ==> view_spec(fresh).step == 2 && view_spec(fresh).previous is None
        }),
{
    let pushed = events.push(e);
    assert(pushed.drop_last() =~= events);
    let inj = events.push(TimelineEvent::UserMessage { time, time_context: true });
    assert(inj.drop_last() =~= events);
    let am = events.push(TimelineEvent::AssistantMessage { time });
    assert(am.drop_last() =~= events);
    let (t, s) = turn_and_step(events);
    let a = events.push(TimelineEvent::TurnStart { turn: t });
    let b = a.push(TimelineEvent::StepStart { turn: t, step: 1 });
    let c = b.push(e);
    assert(a.drop_last() =~= events);
    assert(b.drop_last() =~= a);
    assert(c.drop_last() =~= b);
    if is_ordinary(e) {
        assert(turn_and_step(a) == (t, 0u64));
        assert(turn_and_step(b) == (t, 1u64));
        assert(turn_and_step(c) == (t, 1u64));
        assert(last_step_context(a, t) is None);
        assert(last_step_context(b, t) is None);
        assert(last_step_context(c, t) is None);
    }
}

/// The refresh interval is measured from the newest injection: a new
/// injection becomes the one measured from and any other event leaves it; a
/// missing or zero interval, or no earlier injection, never suppresses; and a
/// suppressed injection is one less than the interval after the last, which
/// stays suppressed for any earlier time not before the last.
pub proof fn law_refresh_measured_from_last_injection(
    events: Seq<TimelineEvent>,
    e: TimelineEvent,
    time: i64,
    now: u64,
    earlier: u64,
    last: Option<i64>,
    interval: Option<u64>,
)
    ensures
        view_spec(events.push(TimelineEvent::UserMessage { time, time_context: true })).last_injection == Some(time),
        is_ordinary(e) || e is TurnStart || e is StepStart ==> view_spec(events.push(e)).last_injection == view_spec(events).last_injection,
        (interval is None || interval == Some(0u64) || last is None) ==> !skip_spec(now, last, interval),
        skip_spec(now, last, interval) ==> last->0 >= 0 && last->0 <= now && now - last->0 < interval->0,
        skip_spec(now, last, interval) && last->0 <= earlier <= now ==> skip_spec(earlier, last, interval),
{
    let inj = events.push(TimelineEvent::UserMessage { time, time_context: true });
    assert(inj.drop_last() =~= events);
    let pushed = events.push(e);
    assert(pushed.drop_last() =~= events);
}

/// Elapsed time is shown in whole seconds: the milliseconds below a second
/// never change the text, and under a minute it is the seconds alone.
pub proof fn law_elapsed_whole_seconds(ms: u64)
    ensures
        duration_text(ms) == duration_text((ms / 1000 * 1000) as u64),
        ms < 60_000 ==> duration_text(ms) == decimal((ms / 1000) as nat) + "s"@,
{
    let w = (ms / 1000 * 1000) as u64;
    assert(w as nat / 1000 == ms as nat / 1000) by (nonlinear_arith)
        requires w == ms / 1000 * 1000;
}

fn turn_step_of(events: &[TimelineEvent]) -> (r: (u64, u64))
    ensures
        r == turn_and_step(events@),
{
    let mut turn: u64 = 0;
    let mut step: u64 = 0;
    let mut i: usize = 0;
    while i < events.len()
        invariant
            0 <= i <= events.len(),
            (turn, step) == turn_and_step(events@.take(i as int)),
        decreases events.len() - i,
    {
        assert(events@.take(i + 1).drop_last() =~= events@.take(i as int));
        match events[i] {
            TimelineEvent::TurnStart { turn: t } => {
                turn = t;
                step = 0;
            },
            TimelineEvent::StepStart { turn: t, step: s } => {
                if t == turn {
                    step = s;
                }
            },
            _ => {},
        }
        i = i + 1;
    }
    assert(events@.take(events.len() as int) =~= events@);
    (turn, step)
}

fn scan_back(events: &[TimelineEvent], mode: u8, turn: u64) -> (r: Option<i64>)
    requires
        mode <= 2,
    ensures
        mode == 0 ==> r == last_injection(events@),
        mode == 1 ==> r == last_message(events@),
        mode == 2 ==> r == last_step_context(events@, turn),
{
    let mut i: usize = events.len();
    assert(events@.take(events.len() as int) =~= events@);
    while i > 0
        invariant
            0 <= i <= events.len(),
            mode <= 2,
            mode == 0 ==> last_injection(events@) == last_injection(events@.take(i as int)),
            mode == 1 ==> last_message(events@) == last_message(events@.take(i as int)),
            mode == 2 ==> last_step_context(events@, turn) == last_step_context(events@.take(i as int), turn),
        decreases i,
    {
        let ghost pre = events@.take(i as int);
        assert(pre.drop_last() =~= events@.take(i - 1));
        assert(pre.last() == events@[i - 1]);
        match events[i - 1] {
            TimelineEvent::TurnStart { turn: t } => {
                if mode == 2 && t == turn {
                    return None;
                }
            },
            TimelineEvent::UserMessage { time, time_context } => {
                if mode == 1 || time_context {
                    return Some(time);
                }
            },
            TimelineEvent::AssistantMessage { time } => {
                if mode == 1 {
                    return Some(time);
                }
            },
            TimelineEvent::ToolResult { time } => {
                if mode == 1 {
                    return Some(time);
                }
            },
            _ => {},
        }
        i = i - 1;
    }
    None
}

/// The injection view of a session's events: its turn, the next step, the
/// newest injection, and the baseline for the elapsed text.
pub fn injection_view(events: &[TimelineEvent]) -> (r: InjectionView)
    requires
        turn_and_step(events@).1 < u64::MAX,
    ensures
        r == view_spec(events@),
{
    let (turn, last) = turn_step_of(events);
    let step = last + 1;
    let last_injection = scan_back(events, 0, turn);
    let previous = if step == 1 { scan_back(events, 1, turn) } else { scan_back(events, 2, turn) };
    InjectionView { turn, step, last_injection, previous }
}

/// The text injected before a step, or `None`: nothing is injected for a step
/// without messages or while the refresh interval suppresses it.
pub fn injection_for(message_count: usize, view: &InjectionView, now_ms: u64, refresh_interval_ms: Option<u64>) -> (r: Option<String>)
    ensures
        (message_count == 0 || skip_spec(now_ms, view.last_injection, refresh_interval_ms)) ==> r is None,
        !(message_count == 0 || skip_spec(now_ms, view.last_injection, refresh_interval_ms)) ==>
            (r matches Some(t) && t@ == injection_text(now_ms, view.turn, view.step, view.previous)),
{
    if message_count == 0 {
        return None;
    }
    if should_skip_interval(now_ms, view.last_injection, refresh_interval_ms) {
        return None;
    }
    Some(render_text(now_ms, view.turn, view.step, view.previous))
}

/// Configuration failure of the time-context plugin; its text is the message.
#[derive(Clone, Debug, Eq, PartialEq)]
pub struct ConfigError {
    message: String,
}

impl ConfigError {
    /// The message.
    pub closed spec fn view(&self) -> Seq<char> {
        self.message@
    }

    fn new(message: &str) -> (r: Self)
        ensures
            r.view() == message@,
    {
        ConfigError { message: String::from_str(message) }
    }

    /// The message.
    pub fn to_string(&self) -> (r: String)
        ensures
            r@ == self.view(),
    {
        self.message.clone()
    }
}

/// Time-context plugin configuration.
#[derive(Clone, Debug, PartialEq, Eq)]
pub struct TimeContextConfig {
    /// IANA time zone name; `None` means UTC.
    pub time_zone: Option<String>,
    /// Minimum milliseconds between injections; `None` or zero injects every step.
    pub refresh_interval_ms: Option<u64>,
}

impl Default for TimeContextConfig {
    fn default() -> (r: Self)
        ensures
            r.time_zone is None && r.refresh_interval_ms is None,
    {
        TimeContextConfig { time_zone: None, refresh_interval_ms: None }
    }
}

/// One configuration field as read from the plugin's JSON object.
#[derive(Clone, Debug, PartialEq, Eq)]
pub enum ConfigField {
    /// The key is absent.
    Absent,
    /// A JSON string.
    Text(String),
    /// A non-negative integer (an integral, non-negative, in-range JSON number).
    Count(u64),
    /// Any other JSON value, including negative and fractional numbers.
    Invalid,
}

/// Key `k` is not a configuration key, and every key before it is.
pub open spec fn is_first_unknown(keys: Seq<String>, k: int) -> bool {
    !(keys[k]@ == "timeZone"@ || keys[k]@ == "refreshIntervalMs"@)
        && forall|j: int| 0 <= j < k ==> (#[trigger] keys[j]@ == "timeZone"@ || keys[j]@ == "refreshIntervalMs"@)
}

/// What resolving the configuration object's fields gives: the first unknown
/// key fails; with known keys only, the two fields decide as listed.
pub open spec fn fields_resolved(keys: Seq<String>, time_zone: ConfigField, refresh_interval_ms: ConfigField,
    r: Result<TimeContextConfig, ConfigError>) -> bool {
    &&& (forall|k: int| 0 <= k < keys.len() && is_first_unknown(keys, k) ==>
            (r matches Err(e) && e.view() == "TimeContextConfig: unknown key \""@ + (#[trigger] keys[k])@ + "\""@))
    &&& (forall|k: int| 0 <= k < keys.len() ==> (#[trigger] keys[k]@ == "timeZone"@ || keys[k]@ == "refreshIntervalMs"@)) ==> (
            match (time_zone, refresh_interval_ms) {
                (ConfigField::Absent, ConfigField::Absent) => r matches Ok(c) && c.time_zone is None && c.refresh_interval_ms is None,
                (ConfigField::Text(z), ConfigField::Absent) => r matches Ok(c) && c.time_zone == Some(z) && c.refresh_interval_ms is None,
                (ConfigField::Absent, ConfigField::Count(n)) => r matches Ok(c) && c.time_zone is None && c.refresh_interval_ms == Some(n),
                (ConfigField::Text(z), ConfigField::Count(n)) => r matches Ok(c) && c.time_zone == Some(z) && c.refresh_interval_ms == Some(n),
                (ConfigField::Absent, _) | (ConfigField::Text(_), _) => r matches Err(e)
                    && e.view() == "time-context: refreshIntervalMs must be a non-negative safe integer"@,
                _ => r matches Err(e) && e.view() == "TimeContextConfig.timeZone must be a string"@,
            })
}

/// Resolve the configuration: every key must be `timeZone` or
/// `refreshIntervalMs` (the first other key fails), `timeZone` must be a
/// string, and `refreshIntervalMs` a non-negative safe integer.
pub fn resolve_fields(keys: &[String], time_zone: ConfigField, refresh_interval_ms: ConfigField) -> (r: Result<TimeContextConfig, ConfigError>)
    ensures
        fields_resolved(keys@, time_zone, refresh_interval_ms, r),
{
    let mut i: usize = 0;
    while i < keys.len()
        invariant
            0 <= i <= keys.len(),
            forall|k: int| 0 <= k < i ==> (#[trigger] keys@[k]@ == "timeZone"@ || keys@[k]@ == "refreshIntervalMs"@),
        decreases keys.len() - i,
    {
        let k = crate::text::chars_of(keys[i].as_str());
        let a = crate::text::chars_of("timeZone");
        let b = crate::text::chars_of("refreshIntervalMs");
        if !crate::text::chars_eq(k.as_slice(), a.as_slice()) && !crate::text::chars_eq(k.as_slice(), b.as_slice()) {
            let mut m = String::new();
            push_str(&mut m, "TimeContextConfig: unknown key \"");
            push_str(&mut m, keys[i].as_str());
            push_str(&mut m, "\"");
            proof {
                assert(is_first_unknown(keys@, i as int));
                assert forall|k2: int| 0 <= k2 < keys.len() && is_first_unknown(keys@, k2) implies k2 == i by {
                    if k2 < i {
                    } else if k2 > i {
                        assert(keys@[i as int]@ == "timeZone"@ || keys@[i as int]@ == "refreshIntervalMs"@);
                    }
                }
            }
            return Err(ConfigError { message: m });
        }
        i = i + 1;
    }
    let zone = match time_zone {
        ConfigField::Absent => None,
        ConfigField::Text(z) => Some(z),
        _ => return Err(ConfigError::new("TimeContextConfig.timeZone must be a string")),
    };
    let refresh = match refresh_interval_ms {
        ConfigField::Absent => None,
        ConfigField::Count(n) => Some(n),
        _ => return Err(ConfigError::new("time-context: refreshIntervalMs must be a non-negative safe integer")),
    };
    Ok(TimeContextConfig { time_zone: zone, refresh_interval_ms: refresh })
}

/// The JSON shape of the plugin's configuration value.
#[derive(Clone, Copy, Debug, PartialEq, Eq)]
pub enum ConfigShape {
    /// `null` or no configuration: every field takes its default.
    Null,
    /// An object, read field by field.
    Object,
    /// Any other JSON value.
    Other,
}

/// Resolve the configuration value: `null` gives the default, an object is
/// read by [`resolve_fields`], anything else fails.
pub fn resolve_config_value(shape: ConfigShape, keys: &[String], time_zone: ConfigField, refresh_interval_ms: ConfigField)
    -> (r: Result<TimeContextConfig, ConfigError>)
    ensures
        shape == ConfigShape::Null ==> (r matches Ok(c) && c.time_zone is None && c.refresh_interval_ms is None),
        shape == ConfigShape::Object ==> fields_resolved(keys@, time_zone, refresh_interval_ms, r),
        shape == ConfigShape::Other ==> (r matches Err(e) && e.view() == "TimeContextConfig: config must be an object"@),
{
    match shape {
        ConfigShape::Null => Ok(TimeContextConfig { time_zone: None, refresh_interval_ms: None }),
        ConfigShape::Object => resolve_fields(keys, time_zone, refresh_interval_ms),
        ConfigShape::Other => Err(ConfigError::new("TimeContextConfig: config must be an object")),
    }
}

} // verus!
