//! Decisions of the local bash PTY session: bounded output buffers,
//! stdin-wait evidence, readiness polling, prompt tracking, scrollback pages
//! and configuration.

use vstd::prelude::*;
use vstd::string::StringExecFns;
use crate::text::{char_utf8_len, chars_of, string_from_chars, utf8_len, utf8_total};
use crate::words::{join_pieces, split_char, split_on, views};
use crate::terminal::{TerminalError, TerminalErrorCode, TerminalReadRequest, TerminalReadResult, TerminalSessionStatus,
    TerminalSignal, TerminalWaitReason, sat_add, sat_sub};
use crate::inspector::SubprocessTerminalSignal;
use crate::subprocess::{EnvEntry, SubprocessOutcome};
use crate::sanitize::CONTROLLED_PROMPT;
use crate::num::{push_i64, signed_decimal};
use crate::text::push_str;

verus! {

/// The suffix `t[start..]` fits in `max` UTF-8 bytes.
pub open spec fn suffix_fits(t: Seq<char>, start: int, max: nat) -> bool {
    utf8_total(t.subrange(start, t.len() as int)) <= max
}

/// `start` begins the longest suffix of `t` that fits in `max` bytes.
pub open spec fn is_tail_start(t: Seq<char>, max: nat, start: int) -> bool {
    0 <= start <= t.len() && suffix_fits(t, start, max) && (start == 0 || !suffix_fits(t, start - 1, max))
}

/// The longest suffix of `t` within `max` UTF-8 bytes, and whether anything was cut.
pub open spec fn utf8_tail_spec(t: Seq<char>, max: nat) -> (Seq<char>, bool) {
    if utf8_total(t) <= max {
        (t, false)
    } else {
        let start = choose|s: int| is_tail_start(t, max, s);
        (t.subrange(start, t.len() as int), true)
    }
}

proof fn lemma_suffix_step(t: Seq<char>, i: int)
    requires
        0 <= i < t.len(),
    ensures
        utf8_total(t.subrange(i, t.len() as int)) == utf8_len(t[i]) + utf8_total(t.subrange(i + 1, t.len() as int)),
{
    assert(t.subrange(i, t.len() as int).drop_first() =~= t.subrange(i + 1, t.len() as int));
}

proof fn lemma_suffix_mono(t: Seq<char>, a: int, b: int, max: nat)
    requires
        0 <= a <= b <= t.len(),
        suffix_fits(t, a, max),
    ensures
        suffix_fits(t, b, max),
    decreases b - a,
{
    if a < b {
        lemma_suffix_step(t, a);
        lemma_suffix_mono(t, a + 1, b, max);
    }
}

proof fn lemma_tail_start_unique(t: Seq<char>, max: nat, s1: int, s2: int)
    requires
        is_tail_start(t, max, s1),
        is_tail_start(t, max, s2),
    ensures
        s1 == s2,
{
    if s1 < s2 {
        lemma_suffix_mono(t, s1, s2 - 1, max);
    } else if s2 < s1 {
        lemma_suffix_mono(t, s2, s1 - 1, max);
    }
}

/// The longest suffix of `text` within `max_bytes` UTF-8 bytes, with whether
/// anything was cut.
pub fn utf8_tail(text: &[char], max_bytes: usize) -> (r: (Vec<char>, bool))
    ensures
        (r.0@, r.1) == utf8_tail_spec(text@, max_bytes as nat),
{
    let n = text.len();
    let mut start: usize = n;
    let mut bytes: usize = 0;
    assert(text@.subrange(n as int, n as int) =~= Seq::<char>::empty());
    while start > 0
        invariant
            0 <= start <= n,
            n == text.len(),
            bytes as nat == utf8_total(text@.subrange(start as int, n as int)),
            bytes <= max_bytes,
        ensures
            0 <= start <= n,
            bytes as nat == utf8_total(text@.subrange(start as int, n as int)),
            bytes <= max_bytes,
            start == 0 || bytes + utf8_len(text@[start - 1]) > max_bytes,
        decreases start,
    {
        let next = char_utf8_len(text[start - 1]);
        proof {
            lemma_suffix_step(text@, start - 1);
        }
        if next > max_bytes - bytes {
            break;
        }
        bytes = bytes + next;
        start = start - 1;
    }
    proof {
        assert(text@.subrange(0, n as int) =~= text@);
        if start > 0 {
            lemma_suffix_step(text@, start - 1);
        }
        assert(is_tail_start(text@, max_bytes as nat, start as int));
    }
    if start == 0 {
        return (crate::text::copy_range(text, 0, n), false);
    }
    proof {
        let c = choose|s: int| is_tail_start(text@, max_bytes as nat, s);
        lemma_tail_start_unique(text@, max_bytes as nat, start as int, c);
        if utf8_total(text@) <= max_bytes {
            lemma_suffix_mono(text@, 0, start - 1, max_bytes as nat);
        }
    }
    (crate::text::copy_range(text, start, n), true)
}

/// The lines of `v` after the first `skip`, joined back with newlines.
pub open spec fn drop_lines(v: Seq<char>, skip: int) -> Seq<char> {
    let pieces = split_on(v, '\n');
    crate::text::join(pieces.subrange(skip, pieces.len() as int), seq!['\n'])
}

/// The buffer after appending `text`: the newest `max_lines` lines when capped,
/// then the newest `max_bytes` bytes; `dropped` records any cut.
pub open spec fn append_spec(value: Seq<char>, dropped: bool, max_bytes: nat, max_lines: Option<usize>, text: Seq<char>)
    -> (Seq<char>, bool) {
    if text.len() == 0 {
        (value, dropped)
    } else {
        let v1 = value + text;
        let count = split_on(v1, '\n').len();
        let (v2, d2) = match max_lines {
            Some(ml) => if count > ml { (drop_lines(v1, count - ml), true) } else { (v1, dropped) },
            None => (v1, dropped),
        };
        let (tail, cut) = utf8_tail_spec(v2, max_bytes);
        (tail, d2 || cut)
    }
}

/// Text bounded by bytes and optionally by lines, remembering whether output
/// was dropped since it was last consumed.
pub struct BoundedTextBuffer {
    value: Vec<char>,
    dropped: bool,
    max_bytes: usize,
    max_lines: Option<usize>,
}

impl BoundedTextBuffer {
    /// Text, dropped flag, byte cap and line cap.
    pub closed spec fn view(&self) -> (Seq<char>, bool, nat, Option<usize>) {
        (self.value@, self.dropped, self.max_bytes as nat, self.max_lines)
    }

    /// An empty buffer.
    pub fn new(max_bytes: usize, max_lines: Option<usize>) -> (r: Self)
        ensures
            r.view() == (Seq::<char>::empty(), false, max_bytes as nat, max_lines),
    {
        BoundedTextBuffer { value: Vec::new(), dropped: false, max_bytes, max_lines }
    }

    /// Append text, keeping the newest lines and bytes within the caps.
    pub fn append(&mut self, text: &str)
        ensures
            ({
                let (v, d) = append_spec(old(self).view().0, old(self).view().1, old(self).view().2, old(self).view().3, text@);
                final(self).view() == (v, d, old(self).view().2, old(self).view().3)
            }),
    {
        let t = chars_of(text);
        if t.len() == 0 {
            return;
        }
        let mut v1 = Vec::new();
        v1.append(&mut self.value.clone());
        let mut tc = t.clone();
        let ghost old_value = self.value@;
        assert(v1@ == old_value);
        v1.append(&mut tc);
        let mut d2 = self.dropped;
        let v2 = match self.max_lines {
            Some(ml) => {
                let pieces = split_char(v1.as_slice(), '\n');
                let count = pieces.len();
                if count > ml {
                    d2 = true;
                    join_pieces(&pieces, count - ml, count, '\n')
                } else {
                    v1
                }
            },
            None => v1,
        };
        let (tail, cut) = utf8_tail(v2.as_slice(), self.max_bytes);
        self.value = tail;
        self.dropped = d2 || cut;
    }

    /// Take the text and the dropped flag, leaving the buffer empty and clean.
    pub fn consume(&mut self) -> (r: (String, bool))
        ensures
            r.0@ == old(self).view().0,
            r.1 == old(self).view().1,
            final(self).view() == (Seq::<char>::empty(), false, old(self).view().2, old(self).view().3),
    {
        let text = string_from_chars(self.value.as_slice());
        let truncated = self.dropped;
        self.value = Vec::new();
        self.dropped = false;
        (text, truncated)
    }

    /// The text and the dropped flag.
    pub fn snapshot(&self) -> (r: (String, bool))
        ensures
            r.0@ == self.view().0,
            r.1 == self.view().1,
    {
        (string_from_chars(self.value.as_slice()), self.dropped)
    }

    /// Whether the buffer holds no text.
    pub fn is_empty(&self) -> (r: bool)
        ensures
            r == (self.view().0.len() == 0),
    {
        self.value.len() == 0
    }
}

/// After an append the buffer holds at most its byte cap, unless it already
/// held more and nothing was appended.
pub proof fn law_append_stays_within_byte_cap(value: Seq<char>, dropped: bool, max_bytes: nat, max_lines: Option<usize>, text: Seq<char>)
    requires
        text.len() > 0,
    ensures
        utf8_total(append_spec(value, dropped, max_bytes, max_lines, text).0) <= max_bytes,
{
    let v1 = value + text;
    let count = split_on(v1, '\n').len();
    let v2 = match max_lines {
        Some(ml) => if count > ml { drop_lines(v1, count - ml) } else { v1 },
        None => v1,
    };
    if utf8_total(v2) > max_bytes {
        lemma_tail_exists(v2, max_bytes);
    }
}

proof fn lemma_tail_exists(t: Seq<char>, max: nat)
    ensures
        exists|s: int| is_tail_start(t, max, s),
    decreases t.len(),
{
    assert(t.subrange(t.len() as int, t.len() as int) =~= Seq::<char>::empty());
    lemma_tail_exists_from(t, max, t.len() as int);
}

proof fn lemma_tail_exists_from(t: Seq<char>, max: nat, s: int)
    requires
        0 <= s <= t.len(),
        suffix_fits(t, s, max),
    ensures
        exists|s2: int| is_tail_start(t, max, s2),
    decreases s,
{
    if s == 0 || !suffix_fits(t, s - 1, max) {
        assert(is_tail_start(t, max, s));
    } else {
        lemma_tail_exists_from(t, max, s - 1);
    }
}

/// Evidence that the foreground group waits on stdin because of this send: a
/// wait by the group that was in the foreground before the write counts only
/// after that group has left the wait once.
pub struct StdinWaitEvidence {
    initial_pgid: Option<i32>,
    left_wait: bool,
}

/// Evidence state after recording the foreground seen before the write.
pub open spec fn evidence_after_initial(foreground: Option<(i32, bool)>) -> (Option<i32>, bool) {
    match foreground {
        Some((p, waiting)) => (Some(p), !waiting),
        None => (None::<i32>, true),
    }
}

/// One observation of group `pgid` (waiting or not): the new evidence state
/// and whether the observation is stdin-wait evidence.
pub open spec fn accept_step(ev: (Option<i32>, bool), pgid: i32, waiting: bool) -> ((Option<i32>, bool), bool) {
    if ev.0 != Some(pgid) {
        (ev, waiting)
    } else {
        ((ev.0, ev.1 || !waiting), waiting && ev.1)
    }
}

impl StdinWaitEvidence {
    /// The foreground group seen before the write, and whether it has left its wait.
    pub closed spec fn view(&self) -> (Option<i32>, bool) {
        (self.initial_pgid, self.left_wait)
    }

    /// Evidence before the foreground is known.
    pub fn new() -> (r: Self)
        ensures
            r.view() == evidence_after_initial(None),
    {
        StdinWaitEvidence { initial_pgid: None, left_wait: true }
    }

    /// Record the foreground before the write: its group, and whether it was
    /// already waiting (an unknown foreground counts as having left).
    pub fn set_initial(&mut self, foreground: Option<(i32, bool)>)
        ensures
            final(self).view() == evidence_after_initial(foreground),
    {
        match foreground {
            Some((p, waiting)) => {
                self.initial_pgid = Some(p);
                self.left_wait = !waiting;
            },
            None => {
                self.initial_pgid = None;
                self.left_wait = true;
            },
        }
    }

    /// Whether an observed wait of group `pgid` is evidence: any wait of
    /// another group is; the initial group's wait is once it has left.
    pub fn accepts(&mut self, pgid: i32, waiting: bool) -> (r: bool)
        ensures
            (final(self).view(), r) == accept_step(old(self).view(), pgid, waiting),
    {
        let same = match self.initial_pgid {
            Some(p) => p == pgid,
            None => false,
        };
        if !same {
            return waiting;
        }
        if !waiting {
            self.left_wait = true;
        }
        waiting && self.left_wait
    }
}

/// A wait that the foreground group already showed before the write is not
/// stdin evidence, nor is its leaving the wait; its next wait is. A wait by
/// any other group is evidence at once.
pub proof fn law_stale_wait_needs_departure(pgid: i32, other: i32)
    requires
        other != pgid,
    ensures
        ({
            let e0 = evidence_after_initial(Some((pgid, true)));
            let (e1, a1) = accept_step(e0, pgid, true);
            let (e2, a2) = accept_step(e1, pgid, false);
            let (e3, a3) = accept_step(e2, pgid, true);
            !a1 && !a2 && a3 && accept_step(e0, other, true).1
        }),
{
}

/// The evidence state after the foreground group `pgid` was seen with the
/// waiting flags `waits`, one per poll, starting from `ev`.
pub open spec fn evidence_run(ev: (Option<i32>, bool), pgid: i32, waits: Seq<bool>) -> (Option<i32>, bool)
    decreases waits.len(),
{
    if waits.len() == 0 {
        ev
    } else {
        accept_step(evidence_run(ev, pgid, waits.drop_last()), pgid, waits.last()).0
    }
}

/// Whether poll `k` of such a run is stdin-wait evidence.
pub open spec fn accepted_in_run(ev: (Option<i32>, bool), pgid: i32, waits: Seq<bool>, k: int) -> bool {
    accept_step(evidence_run(ev, pgid, waits.take(k)), pgid, waits[k]).1
}

proof fn lemma_evidence_run(pgid: i32, waits: Seq<bool>)
    ensures
        evidence_run(evidence_after_initial(Some((pgid, true))), pgid, waits)
            == (Some(pgid), exists|j: int| 0 <= j < waits.len() && !#[trigger] waits[j]),
    decreases waits.len(),
{
    if waits.len() > 0 {
        let w = waits.drop_last();
        lemma_evidence_run(pgid, w);
        if exists|j: int| 0 <= j < w.len() && !#[trigger] w[j] {
            let j = choose|j: int| 0 <= j < w.len() && !#[trigger] w[j];
            assert(!waits[j]);
        }
        if !waits.last() {
            assert(!waits[waits.len() - 1]);
        }
        if exists|j: int| 0 <= j < waits.len() && !#[trigger] waits[j] {
            let j = choose|j: int| 0 <= j < waits.len() && !#[trigger] waits[j];
            if j < w.len() {
                assert(!w[j]);
            }
        }
    }
}

/// Over any number of polls that all see the group that was already waiting
/// before the write: no poll is stdin-wait evidence while the group keeps
/// waiting, and every wait after it has once left the wait is evidence.
/// Without prompt output such evidence is what settles a send as a stdin read
/// (once the send is old enough), and an unknown foreground never does.
pub proof fn law_stale_wait_over_polls(pgid: i32, waits: Seq<bool>, k: int, inputs: ReadinessInputs, shell: Option<i32>, fg: Foreground, accepted: bool)
    requires
        0 <= k < waits.len(),
    ensures
        accepted_in_run(evidence_after_initial(Some((pgid, true))), pgid, waits, k)
            == (waits[k] && exists|j: int| 0 <= j < k && !#[trigger] waits[j]),
        !inputs.prompt_seen ==> (readiness_spec(inputs, shell, fg, accepted) == Readiness::Settle(TerminalWaitReason::StdinRead)
            <==> inputs.elapsed_ms >= inputs.exact_probe_after_ms && accepted),
        readiness_spec(inputs, shell, None, false) != Readiness::Settle(TerminalWaitReason::StdinRead),
{
    let t = waits.take(k);
    lemma_evidence_run(pgid, t);
    if exists|j: int| 0 <= j < t.len() && !#[trigger] t[j] {
        let j = choose|j: int| 0 <= j < t.len() && !#[trigger] t[j];
        assert(!waits[j]);
    }
    if exists|j: int| 0 <= j < k && !#[trigger] waits[j] {
        let j = choose|j: int| 0 <= j < k && !#[trigger] waits[j];
        assert(!t[j]);
    }
}

/// Group and waiting state of the foreground process, when known.
pub type Foreground = Option<(i32, bool)>;

/// What one readiness poll concludes.
#[derive(Clone, Copy, Debug, PartialEq, Eq)]
pub enum Readiness {
    /// The send settles with this reason.
    Settle(TerminalWaitReason),
    /// Keep polling.
    Continue,
}

/// The timings and flags one readiness poll reads.
#[derive(Clone, Copy, Debug)]
pub struct ReadinessInputs {
    /// The controlled prompt marker was seen since the write.
    pub prompt_seen: bool,
    /// The prompt text itself followed the marker.
    pub prompt_text_seen: bool,
    /// Milliseconds since the last output.
    pub idle_ms: u64,
    /// Milliseconds since the send started.
    pub elapsed_ms: u64,
    /// Output exists, or the session is past startup.
    pub startup_has_output: bool,
    /// Poll interval.
    pub poll_interval_ms: u64,
    /// Minimum send age before stdin-wait evidence settles it.
    pub exact_probe_after_ms: u64,
    /// Silence that infers idleness.
    pub idle_silence_ms: u64,
    /// Extra silence required after a prompt marker.
    pub handoff_grace_ms: u64,
}

/// The group of a known foreground.
pub open spec fn fg_group(fg: Foreground) -> i32 {
    match fg {
        Some((p, _)) => p,
        None => 0,
    }
}

/// The shell group learned from a poll: the first foreground seen after a prompt.
pub open spec fn learned_shell(inputs: ReadinessInputs, shell_pgid: Option<i32>, fg: Foreground) -> Option<i32> {
    if inputs.prompt_seen && shell_pgid is None && fg is Some { Some(fg_group(fg)) } else { shell_pgid }
}

/// `a + b`, capped at the largest `u64`.
pub open spec fn sat_add_u64(a: u64, b: u64) -> u64 {
    if a + b <= u64::MAX { (a + b) as u64 } else { u64::MAX }
}

/// One readiness poll: a prompt with its text, quiet for a poll interval while
/// the shell's own group holds the foreground, is a stdin read; so is
/// accepted stdin-wait evidence once the send is old enough; enough silence
/// (plus the handoff grace after a prompt) is inferred idleness.
pub open spec fn readiness_spec(inputs: ReadinessInputs, shell: Option<i32>, fg: Foreground, accepted: bool) -> Readiness {
    if inputs.prompt_seen && inputs.prompt_text_seen && inputs.idle_ms >= inputs.poll_interval_ms
        && fg is Some && shell == Some(fg_group(fg)) {
        Readiness::Settle(TerminalWaitReason::StdinRead)
    } else if inputs.elapsed_ms >= inputs.exact_probe_after_ms && accepted {
        Readiness::Settle(TerminalWaitReason::StdinRead)
    } else if inputs.startup_has_output && inputs.idle_ms >= sat_add_u64(inputs.idle_silence_ms,
        if inputs.prompt_seen { inputs.handoff_grace_ms } else { 0 }) {
        Readiness::Settle(TerminalWaitReason::InferredIdle)
    } else {
        Readiness::Continue
    }
}

/// Decide one readiness poll, learning the shell group and consulting the
/// stdin-wait evidence for the observed foreground.
pub fn poll_readiness(inputs: &ReadinessInputs, fg: Foreground, shell_pgid: &mut Option<i32>, evidence: &mut StdinWaitEvidence)
    -> (r: Readiness)
    ensures
        *final(shell_pgid) == learned_shell(*inputs, *old(shell_pgid), fg),
        ({
            let shell = learned_shell(*inputs, *old(shell_pgid), fg);
            let prompt_ready = inputs.prompt_seen && inputs.prompt_text_seen && inputs.idle_ms >= inputs.poll_interval_ms
                && fg is Some && shell == Some(fg_group(fg));
            &&& prompt_ready ==> r == Readiness::Settle(TerminalWaitReason::StdinRead) && final(evidence).view() == old(evidence).view()
            &&& !prompt_ready && !(inputs.startup_has_output && fg is Some) ==> final(evidence).view() == old(evidence).view()
                && r == readiness_spec(*inputs, shell, fg, false)
            &&& !prompt_ready && inputs.startup_has_output && fg is Some ==> ({
                let waiting = match fg { Some((_, w)) => w, None => false };
                let (ev1, accepted) = accept_step(old(evidence).view(), fg_group(fg), waiting);
                r == readiness_spec(*inputs, shell, fg, accepted) && final(evidence).view() == ev1
            })
        }),
{
    if inputs.prompt_seen && shell_pgid.is_none() {
        match fg {
            Some((p, _)) => {
                *shell_pgid = Some(p);
            },
            None => {},
        }
    }
    if inputs.prompt_seen && inputs.prompt_text_seen && inputs.idle_ms >= inputs.poll_interval_ms {
        match (fg, *shell_pgid) {
            (Some((p, _)), Some(shell)) => {
                if p == shell {
                    return Readiness::Settle(TerminalWaitReason::StdinRead);
                }
            },
            _ => {},
        }
    }
    let accepted = if inputs.startup_has_output {
        match fg {
            Some((p, waiting)) => evidence.accepts(p, waiting),
            None => false,
        }
    } else {
        false
    };
    if inputs.elapsed_ms >= inputs.exact_probe_after_ms && accepted {
        return Readiness::Settle(TerminalWaitReason::StdinRead);
    }
    let grace: u64 = if inputs.prompt_seen { inputs.handoff_grace_ms } else { 0 };
    let threshold: u64 = if inputs.idle_silence_ms <= u64::MAX - grace { inputs.idle_silence_ms + grace } else { u64::MAX };
    if inputs.startup_has_output && inputs.idle_ms >= threshold {
        return Readiness::Settle(TerminalWaitReason::InferredIdle);
    }
    Readiness::Continue
}

/// Prompt evidence gathered from output since the last write.
pub struct PromptTracker {
    seen: bool,
    text_seen: bool,
    tail: Vec<char>,
}

/// The prompt tail after output whose text after a prompt marker is `chunk`:
/// characters are kept up to one more than the prompt's length, and a longer
/// tail becomes a sentinel that never equals the prompt.
pub open spec fn next_tail(tail: Seq<char>, chunk: Seq<char>) -> Seq<char> {
    let remaining = sat_sub(CONTROLLED_PROMPT@.len() + 1, tail.len());
    if chunk.len() > remaining {
        CONTROLLED_PROMPT@ + seq!['\0']
    } else {
        tail + chunk
    }
}

impl PromptTracker {
    /// Marker seen, prompt text seen, and the text after the marker.
    pub closed spec fn view(&self) -> (bool, bool, Seq<char>) {
        (self.seen, self.text_seen, self.tail@)
    }

    /// No prompt evidence.
    pub fn new() -> (r: Self)
        ensures
            r.view() == (false, false, Seq::<char>::empty()),
    {
        PromptTracker { seen: false, text_seen: false, tail: Vec::new() }
    }

    /// Forget the evidence, as each write does.
    pub fn reset(&mut self)
        ensures
            final(self).view() == (false, false, Seq::<char>::empty()),
    {
        self.seen = false;
        self.text_seen = false;
        self.tail = Vec::new();
    }

    /// Record sanitized output: a prompt marker restarts the tail; after a
    /// marker, the text that follows it extends the tail, and the prompt text
    /// is seen when the tail is exactly the controlled prompt.
    pub fn observe(&mut self, prompt: bool, prompt_tail: Option<&str>)
        ensures
            ({
                let (seen0, text0, tail0) = old(self).view();
                let seen1 = seen0 || prompt;
                let tail1 = if prompt { Seq::<char>::empty() } else { tail0 };
                match prompt_tail {
                    Some(t) => if seen1 {
                        let tail2 = next_tail(tail1, t@);
                        final(self).view() == (seen1, tail2 == CONTROLLED_PROMPT@, tail2)
                    } else {
                        final(self).view() == (seen1, text0, tail1)
                    },
                    None => final(self).view() == (seen1, text0, tail1),
                }
            }),
    {
        if prompt {
            self.seen = true;
            self.tail = Vec::new();
        }
        if self.seen {
            match prompt_tail {
                Some(t) => {
                    let chunk = chars_of(t);
                    let limit: usize = 6;
                    proof {
                        reveal_strlit("dsh> ");
                    }
                    let remaining: usize = if self.tail.len() <= limit { limit - self.tail.len() } else { 0 };
                    if chunk.len() > remaining {
                        let mut sentinel = chars_of(CONTROLLED_PROMPT);
                        sentinel.push('\0');
                        self.tail = sentinel;
                    } else {
                        let mut c2 = chunk.clone();
                        self.tail.append(&mut c2);
                    }
                    let p = chars_of(CONTROLLED_PROMPT);
                    self.text_seen = crate::text::chars_eq(self.tail.as_slice(), p.as_slice());
                },
                None => {},
            }
        }
    }

    /// Whether a prompt marker was seen since the last write.
    pub fn seen(&self) -> (r: bool)
        ensures
            r == self.view().0,
    {
        self.seen
    }

    /// Whether the prompt text followed the marker.
    pub fn text_seen(&self) -> (r: bool)
        ensures
            r == self.view().1,
    {
        self.text_seen
    }
}

/// One backward page of bash scrollback: no lines for empty text; an empty
/// page when the count is zero or the offset reaches past the retained lines;
/// otherwise up to `count` lines ending `offset` lines before the newest,
/// bounded to the newest `max_read` bytes.
pub open spec fn bash_page(text: Seq<char>, dropped: bool, offset: Option<usize>, count: Option<usize>, max_read: nat)
    -> (Seq<char>, nat, usize, usize, bool) {
    let lines = if text.len() == 0 { Seq::<Seq<char>>::empty() } else { split_on(text, '\n') };
    let total = lines.len();
    let off = match offset { Some(o) => o, None => 0usize };
    let cnt = match count { Some(c) => c, None => 500usize };
    if cnt == 0 || off >= total {
        (Seq::empty(), total, off, off, dropped)
    } else {
        let end = (total - off) as nat;
        let start = sat_sub(end, cnt as nat);
        let requested = crate::text::join(lines.subrange(start as int, end as int), seq!['\n']);
        let (bounded, cut) = utf8_tail_spec(requested, max_read);
        let returned: nat = if bounded.len() == 0 { 0 } else { split_on(bounded, '\n').len() };
        (bounded, total, off, sat_add(off, returned), dropped || cut)
    }
}

/// Read one page of bash scrollback.
pub fn page_scrollback(text: &str, dropped: bool, request: &TerminalReadRequest, max_read_bytes: usize) -> (r: TerminalReadResult)
    ensures
        ({
            let p = bash_page(text@, dropped, request.view().0, request.view().1, max_read_bytes as nat);
            r.view() == (p.0, p.1 as usize, p.2, p.3, p.4)
        }),
{
    let t = chars_of(text);
    let lines: Vec<Vec<char>> = if t.len() == 0 { Vec::new() } else { split_char(t.as_slice(), '\n') };
    proof {
        if t.len() == 0 {
            assert(views(lines@) =~= Seq::<Seq<char>>::empty());
        }
    }
    let total = lines.len();
    let offset: usize = match request.offset() { Some(o) => o, None => 0 };
    let count: usize = match request.count() { Some(c) => c, None => 500 };
    if count == 0 || offset >= total {
        proof {
            reveal_strlit("");
        }
        return TerminalReadResult::new("", total, offset, offset, dropped);
    }
    let end = total - offset;
    let start: usize = if end >= count { end - count } else { 0 };
    let requested = join_pieces(&lines, start, end, '\n');
    let (bounded, cut) = utf8_tail(requested.as_slice(), max_read_bytes);
    let returned: usize = if bounded.len() == 0 { 0 } else { split_char(bounded.as_slice(), '\n').len() };
    let line_end: usize = if returned <= usize::MAX - offset { offset + returned } else { usize::MAX };
    let s = string_from_chars(bounded.as_slice());
    TerminalReadResult::new(s.as_str(), total, offset, line_end, dropped || cut)
}

/// A send that cannot start: the reason and status it settles with at once.
pub open spec fn admission_spec(closing: bool, status: TerminalSessionStatus, has_active: bool)
    -> Option<(TerminalWaitReason, TerminalSessionStatus)> {
    if closing {
        Some((TerminalWaitReason::SessionExit, TerminalSessionStatus::Exited { exit_code: None, signal: None }))
    } else if status is Exited {
        Some((TerminalWaitReason::SessionExit, status))
    } else if has_active {
        Some((TerminalWaitReason::Timeout, TerminalSessionStatus::Running))
    } else {
        None
    }
}

/// Whether a new send may start; otherwise how it settles immediately: a
/// closing or exited session answers `SessionExit`, a busy one `Timeout`.
pub fn send_admission(closing: bool, status: &TerminalSessionStatus, has_active: bool)
    -> (r: Option<(TerminalWaitReason, TerminalSessionStatus)>)
    ensures
        r == admission_spec(closing, *status, has_active),
{
    if closing {
        return Some((TerminalWaitReason::SessionExit, TerminalSessionStatus::Exited { exit_code: None, signal: None }));
    }
    match status {
        TerminalSessionStatus::Exited { .. } => Some((TerminalWaitReason::SessionExit, status.duplicate())),
        TerminalSessionStatus::Running => if has_active {
            Some((TerminalWaitReason::Timeout, TerminalSessionStatus::Running))
        } else {
            None
        },
    }
}

/// The outcome of the startup send: exit or timeout fail the spawn; a ready
/// shell yields its greeting.
pub fn startup_outcome(reason: TerminalWaitReason, viewport: &str) -> (r: Result<String, TerminalError>)
    ensures
        reason == TerminalWaitReason::SessionExit ==> (r matches Err(e)
            && e.view() == ("PTY shell exited during startup"@, TerminalErrorCode::NoBackend)),
        reason == TerminalWaitReason::Timeout ==> (r matches Err(e)
            && e.view() == ("PTY shell did not reach readiness before startup timeout"@, TerminalErrorCode::NoBackend)),
        (reason == TerminalWaitReason::StdinRead || reason == TerminalWaitReason::InferredIdle) ==> (r matches Ok(m) && m@ == viewport@),
{
    match reason {
        TerminalWaitReason::SessionExit => Err(TerminalError::new("PTY shell exited during startup", TerminalErrorCode::NoBackend)),
        TerminalWaitReason::Timeout => Err(TerminalError::new("PTY shell did not reach readiness before startup timeout", TerminalErrorCode::NoBackend)),
        _ => Ok(String::from_str(viewport)),
    }
}

/// The session status once the PTY child ends: its exit facts, with the
/// signal number as text, or no facts when waiting failed.
pub fn exit_status(outcome: Option<SubprocessOutcome>) -> (r: TerminalSessionStatus)
    ensures
        match outcome {
            Some(o) => r matches TerminalSessionStatus::Exited { exit_code, signal } && exit_code == o.exit_code
                && match (o.signal, signal) {
                    (Some(n), Some(t)) => t@ == signed_decimal(n as int),
                    (None, None) => true,
                    _ => false,
                },
            None => r == TerminalSessionStatus::Exited { exit_code: None, signal: None },
        },
{
    match outcome {
        Some(o) => {
            let signal = match o.signal {
                Some(n) => {
                    let mut s = String::new();
                    push_i64(&mut s, n as i64);
                    Some(s)
                },
                None => None,
            };
            TerminalSessionStatus::Exited { exit_code: o.exit_code, signal }
        },
        None => TerminalSessionStatus::Exited { exit_code: None, signal: None },
    }
}

/// The foreground-group signal for a model-facing terminal signal.
pub fn map_signal(signal: TerminalSignal) -> (r: SubprocessTerminalSignal)
    ensures
        r == (match signal {
            TerminalSignal::Sigint => SubprocessTerminalSignal::Sigint,
            TerminalSignal::Sigterm => SubprocessTerminalSignal::Sigterm,
            TerminalSignal::Sigkill => SubprocessTerminalSignal::Sigkill,
            TerminalSignal::Sigtstp => SubprocessTerminalSignal::Sigtstp,
            TerminalSignal::Sighup => SubprocessTerminalSignal::Sighup,
        }),
{
    match signal {
        TerminalSignal::Sigint => SubprocessTerminalSignal::Sigint,
        TerminalSignal::Sigterm => SubprocessTerminalSignal::Sigterm,
        TerminalSignal::Sigkill => SubprocessTerminalSignal::Sigkill,
        TerminalSignal::Sigtstp => SubprocessTerminalSignal::Sigtstp,
        TerminalSignal::Sighup => SubprocessTerminalSignal::Sighup,
    }
}

/// Largest integer a JSON number holds exactly.
pub const MAX_SAFE_INTEGER: u64 = 9_007_199_254_740_991;

/// One configuration value as read from the plugin's JSON object.
#[derive(Clone, Debug, PartialEq, Eq)]
pub enum BashConfigValue {
    /// The key is absent.
    Absent,
    /// JSON `null`.
    Null,
    /// A JSON string.
    Text(String),
    /// A JSON number that fits `u64`.
    UInt(u64),
    /// A JSON number that fits `i64` but not `u64`.
    Int(i64),
    /// A JSON array of strings.
    StrList(Vec<String>),
    /// Any other JSON value.
    Other,
}

/// The configuration fields, one per key.
#[derive(Clone, Debug)]
pub struct BashConfigFields {
    pub backend_type: BashConfigValue,
    pub shell_path: BashConfigValue,
    pub shell_args: BashConfigValue,
    pub rows: BashConfigValue,
    pub cols: BashConfigValue,
    pub scrollback_lines: BashConfigValue,
    pub scrollback_max_bytes: BashConfigValue,
    pub max_read_bytes: BashConfigValue,
    pub poll_interval_ms: BashConfigValue,
    pub exact_probe_after_ms: BashConfigValue,
    pub idle_silence_ms: BashConfigValue,
    pub handoff_grace_ms: BashConfigValue,
    pub timeout_ms: BashConfigValue,
    pub dispose_grace_ms: BashConfigValue,
}

/// Validated bash backend configuration.
#[derive(Clone, Debug, PartialEq, Eq)]
pub struct ResolvedConfig {
    pub backend_type: String,
    pub shell_path: String,
    pub shell_args: Vec<String>,
    pub rows: u16,
    pub cols: u16,
    pub scrollback_lines: usize,
    pub scrollback_max_bytes: usize,
    pub max_read_bytes: usize,
    pub poll_interval_ms: u64,
    pub exact_probe_after_ms: u64,
    pub idle_silence_ms: u64,
    pub handoff_grace_ms: u64,
    pub timeout_ms: u64,
    pub dispose_grace_ms: u64,
}

/// A string field: absent or null takes the default, a string is kept, anything else fails.
pub open spec fn string_field(v: BashConfigValue, default: Seq<char>) -> Option<Seq<char>> {
    match v {
        BashConfigValue::Absent | BashConfigValue::Null => Some(default),
        BashConfigValue::Text(t) => Some(t@),
        _ => None,
    }
}

/// A positive safe integer field: absent or null takes the default; otherwise
/// it must be an integer in `1..=MAX_SAFE_INTEGER`.
pub open spec fn positive_field(v: BashConfigValue, default: u64) -> Option<u64> {
    match v {
        BashConfigValue::Absent | BashConfigValue::Null => Some(default),
        BashConfigValue::UInt(n) => if n == 0 || n > MAX_SAFE_INTEGER { None } else { Some(n) },
        _ => None,
    }
}

/// `"terminal-bash: <key> must be a positive safe integer"`.
pub open spec fn msg_positive(key: Seq<char>) -> Seq<char> {
    "terminal-bash: "@ + key + " must be a positive safe integer"@
}

fn string_value(v: &BashConfigValue, default: &str, key: &str) -> (r: Result<String, String>)
    ensures
        match string_field(*v, default@) {
            Some(t) => r matches Ok(s) && s@ == t,
            None => r matches Err(m) && m@ == "terminal-bash: "@ + key@ + " must be a string"@,
        },
{
    match v {
        BashConfigValue::Absent | BashConfigValue::Null => Ok(String::from_str(default)),
        BashConfigValue::Text(t) => Ok(t.clone()),
        _ => {
            let mut m = String::new();
            push_str(&mut m, "terminal-bash: ");
            push_str(&mut m, key);
            push_str(&mut m, " must be a string");
            Err(m)
        },
    }
}

fn positive_value(v: &BashConfigValue, default: u64, key: &str) -> (r: Result<u64, String>)
    ensures
        match positive_field(*v, default) {
            Some(n) => r == Ok::<u64, String>(n),
            None => r matches Err(m) && m@ == msg_positive(key@),
        },
{
    let ok = match v {
        BashConfigValue::Absent | BashConfigValue::Null => Some(default),
        BashConfigValue::UInt(n) => if *n == 0 || *n > MAX_SAFE_INTEGER { None } else { Some(*n) },
        _ => None,
    };
    match ok {
        Some(n) => Ok(n),
        None => {
            let mut m = String::new();
            push_str(&mut m, "terminal-bash: ");
            push_str(&mut m, key);
            push_str(&mut m, " must be a positive safe integer");
            Err(m)
        },
    }
}

/// The character views of strings.
pub open spec fn strs(v: Seq<String>) -> Seq<Seq<char>> {
    Seq::new(v.len(), |i: int| v[i]@)
}

/// The configuration a resolved value stands for.
pub open spec fn config_view(c: ResolvedConfig) -> (Seq<char>, Seq<char>, Seq<Seq<char>>, Seq<u64>) {
    (c.backend_type@, c.shell_path@, strs(c.shell_args@), seq![c.rows as u64, c.cols as u64, c.scrollback_lines as u64,
        c.scrollback_max_bytes as u64, c.max_read_bytes as u64, c.poll_interval_ms, c.exact_probe_after_ms,
        c.idle_silence_ms, c.handoff_grace_ms, c.timeout_ms, c.dispose_grace_ms])
}

/// The number fields in key order with their names and defaults.
pub open spec fn number_fields(f: BashConfigFields) -> Seq<(BashConfigValue, Seq<char>, u64)> {
    seq![
        (f.rows, "rows"@, 40u64),
        (f.cols, "cols"@, 160u64),
        (f.scrollback_lines, "scrollbackLines"@, 10_000u64),
        (f.scrollback_max_bytes, "scrollbackMaxBytes"@, 4_194_304u64),
        (f.max_read_bytes, "maxReadBytes"@, 262_144u64),
        (f.poll_interval_ms, "pollIntervalMs"@, 50u64),
        (f.exact_probe_after_ms, "exactProbeAfterMs"@, 150u64),
        (f.idle_silence_ms, "idleSilenceMs"@, 3_000u64),
        (f.handoff_grace_ms, "handoffGraceMs"@, 500u64),
        (f.timeout_ms, "timeoutMs"@, 30_000u64),
        (f.dispose_grace_ms, "disposeGraceMs"@, 3_000u64)
    ]
}

/// The first number field (in key order) that is not a positive safe integer.
pub open spec fn first_bad_number(f: BashConfigFields) -> Option<int> {
    let nf = number_fields(f);
    if exists|k: int| 0 <= k < 11 && positive_field(nf[k].0, nf[k].2) is None {
        Some(choose|k: int| 0 <= k < 11 && positive_field(nf[k].0, nf[k].2) is None
            && forall|j: int| 0 <= j < k ==> positive_field(#[trigger] nf[j].0, nf[j].2) is Some)
    } else {
        None
    }
}

/// The value of number field `k` (in key order), once every number field is valid.
pub open spec fn number_value(f: BashConfigFields, k: int) -> u64 {
    positive_field(number_fields(f)[k].0, number_fields(f)[k].2)->0
}

/// Every field has its type and the resolved values fit their sizes and agree:
/// rows and columns fit `u16`, byte and line counts fit `usize`, backend type
/// and shell path are non-empty, reads fit retention, and the handoff grace
/// covers one poll.
pub open spec fn config_ok(f: BashConfigFields) -> bool {
    &&& string_field(f.backend_type, "shell"@) is Some
    &&& string_field(f.shell_path, "/bin/bash"@) is Some
    &&& (f.shell_args is Absent || f.shell_args is StrList)
    &&& first_bad_number(f) is None
    &&& number_value(f, 0) <= 65_535 && number_value(f, 1) <= 65_535
    &&& number_value(f, 2) <= usize::MAX && number_value(f, 3) <= usize::MAX && number_value(f, 4) <= usize::MAX
    &&& string_field(f.backend_type, "shell"@)->0.len() > 0
    &&& string_field(f.shell_path, "/bin/bash"@)->0.len() > 0
    &&& number_value(f, 4) <= number_value(f, 3)
    &&& number_value(f, 8) >= number_value(f, 5)
}

/// The first rule the configuration breaks, as its message: the fields' types
/// in key order, then rows and columns within `u16`, the byte and line counts
/// within `usize`, non-empty backend type and shell path, reads within
/// retention, and a handoff grace of at least one poll.
pub open spec fn config_error(f: BashConfigFields) -> Option<Seq<char>> {
    if string_field(f.backend_type, "shell"@) is None {
        Some("terminal-bash: "@ + "backendType"@ + " must be a string"@)
    } else if string_field(f.shell_path, "/bin/bash"@) is None {
        Some("terminal-bash: "@ + "shellPath"@ + " must be a string"@)
    } else if !(f.shell_args is Absent || f.shell_args is StrList) {
        Some("terminal-bash: shellArgs must be an array of strings"@)
    } else if first_bad_number(f) is Some {
        Some(msg_positive(number_fields(f)[first_bad_number(f)->0].1))
    } else if number_value(f, 0) > 65_535 {
        Some(msg_positive("rows"@))
    } else if number_value(f, 1) > 65_535 {
        Some(msg_positive("cols"@))
    } else if number_value(f, 2) > usize::MAX {
        Some(msg_positive("scrollbackLines"@))
    } else if number_value(f, 3) > usize::MAX {
        Some(msg_positive("scrollbackMaxBytes"@))
    } else if number_value(f, 4) > usize::MAX {
        Some(msg_positive("maxReadBytes"@))
    } else if string_field(f.backend_type, "shell"@)->0.len() == 0 {
        Some("terminal-bash: backendType must be non-empty"@)
    } else if string_field(f.shell_path, "/bin/bash"@)->0.len() == 0 {
        Some("terminal-bash: shellPath must be non-empty"@)
    } else if number_value(f, 4) > number_value(f, 3) {
        Some("terminal-bash: maxReadBytes must not exceed scrollbackMaxBytes"@)
    } else if number_value(f, 8) < number_value(f, 5) {
        Some("terminal-bash: handoffGraceMs must be at least pollIntervalMs so one readiness poll runs inside the grace window"@)
    } else {
        None
    }
}

/// The size messages spelled out.
proof fn lemma_size_messages()
    ensures
        msg_positive("rows"@) == "terminal-bash: rows must be a positive safe integer"@,
        msg_positive("cols"@) == "terminal-bash: cols must be a positive safe integer"@,
        msg_positive("scrollbackLines"@) == "terminal-bash: scrollbackLines must be a positive safe integer"@,
        msg_positive("scrollbackMaxBytes"@) == "terminal-bash: scrollbackMaxBytes must be a positive safe integer"@,
        msg_positive("maxReadBytes"@) == "terminal-bash: maxReadBytes must be a positive safe integer"@,
{
    reveal_strlit("terminal-bash: ");
    reveal_strlit(" must be a positive safe integer");
    reveal_strlit("rows");
    reveal_strlit("cols");
    reveal_strlit("scrollbackLines");
    reveal_strlit("scrollbackMaxBytes");
    reveal_strlit("maxReadBytes");
    reveal_strlit("terminal-bash: rows must be a positive safe integer");
    reveal_strlit("terminal-bash: cols must be a positive safe integer");
    reveal_strlit("terminal-bash: scrollbackLines must be a positive safe integer");
    reveal_strlit("terminal-bash: scrollbackMaxBytes must be a positive safe integer");
    reveal_strlit("terminal-bash: maxReadBytes must be a positive safe integer");
    assert(msg_positive("rows"@) =~= "terminal-bash: rows must be a positive safe integer"@);
    assert(msg_positive("cols"@) =~= "terminal-bash: cols must be a positive safe integer"@);
    assert(msg_positive("scrollbackLines"@) =~= "terminal-bash: scrollbackLines must be a positive safe integer"@);
    assert(msg_positive("scrollbackMaxBytes"@) =~= "terminal-bash: scrollbackMaxBytes must be a positive safe integer"@);
    assert(msg_positive("maxReadBytes"@) =~= "terminal-bash: maxReadBytes must be a positive safe integer"@);
}

/// Resolve the field values of the bash backend configuration, with their
/// defaults, checking each field's type in key order and then the size and
/// consistency rules.
pub fn resolve_bash_fields(f: &BashConfigFields) -> (r: Result<ResolvedConfig, String>)
    ensures
        config_ok(*f) <==> r is Ok,
        match r {
            Ok(_) => config_error(*f) is None,
            Err(m) => config_error(*f) == Some(m@),
        },
        string_field(f.backend_type, "shell"@) is None ==> (r matches Err(m) && m@ == "terminal-bash: "@ + "backendType"@ + " must be a string"@),
        string_field(f.backend_type, "shell"@) is Some && string_field(f.shell_path, "/bin/bash"@) is None ==>
            (r matches Err(m) && m@ == "terminal-bash: "@ + "shellPath"@ + " must be a string"@),
        r matches Ok(c) ==> ({
            let nf = number_fields(*f);
            &&& string_field(f.backend_type, "shell"@) == Some(c.backend_type@)
            &&& string_field(f.shell_path, "/bin/bash"@) == Some(c.shell_path@)
            &&& (match f.shell_args {
                BashConfigValue::Absent => strs(c.shell_args@) == seq!["--noprofile"@, "--norc"@, "-i"@],
                BashConfigValue::StrList(l) => strs(c.shell_args@) == strs(l@),
                _ => false,
            })
            &&& forall|k: int| 0 <= k < 11 ==> positive_field(#[trigger] nf[k].0, nf[k].2) == Some(config_view(c).3[k])
            &&& c.backend_type@.len() > 0 && c.shell_path@.len() > 0
            &&& c.max_read_bytes <= c.scrollback_max_bytes
            &&& c.handoff_grace_ms >= c.poll_interval_ms
        }),
        (string_field(f.backend_type, "shell"@) is Some && string_field(f.shell_path, "/bin/bash"@) is Some
            && (f.shell_args is Absent || f.shell_args is StrList)) ==> (
            match first_bad_number(*f) {
                Some(k) => r matches Err(m) && m@ == msg_positive(number_fields(*f)[k].1),
                None => true,
            }),
{
    let backend_type = match string_value(&f.backend_type, "shell", "backendType") {
        Ok(v) => v,
        Err(m) => return Err(m),
    };
    let shell_path = match string_value(&f.shell_path, "/bin/bash", "shellPath") {
        Ok(v) => v,
        Err(m) => return Err(m),
    };
    let shell_args: Vec<String> = match &f.shell_args {
        BashConfigValue::Absent => {
            let mut a: Vec<String> = Vec::new();
            a.push(String::from_str("--noprofile"));
            a.push(String::from_str("--norc"));
            a.push(String::from_str("-i"));
            assert(strs(a@) =~= seq!["--noprofile"@, "--norc"@, "-i"@]);
            a
        },
        BashConfigValue::StrList(l) => {
            let mut a: Vec<String> = Vec::new();
            let mut i: usize = 0;
            while i < l.len()
                invariant
                    0 <= i <= l.len(),
                    a@.len() == i,
                    forall|k: int| 0 <= k < i ==> (#[trigger] a@[k])@ == l@[k]@,
                decreases l.len() - i,
            {
                let item = l[i].clone();
                a.push(item);
                i = i + 1;
            }
            assert(strs(a@) =~= strs(l@));
            a
        },
        _ => return Err(String::from_str("terminal-bash: shellArgs must be an array of strings")),
    };
    let ghost nf = number_fields(*f);
    let rows = match positive_value(&f.rows, 40, "rows") { Ok(v) => v, Err(m) => { proof { assert(first_bad_number(*f) == Some(0int)) by { lemma_first_bad(*f, 0); } } return Err(m) } };
    let cols = match positive_value(&f.cols, 160, "cols") { Ok(v) => v, Err(m) => { proof { lemma_first_bad(*f, 1); } return Err(m) } };
    let scrollback_lines = match positive_value(&f.scrollback_lines, 10_000, "scrollbackLines") { Ok(v) => v, Err(m) => { proof { lemma_first_bad(*f, 2); } return Err(m) } };
    let scrollback_max_bytes = match positive_value(&f.scrollback_max_bytes, 4_194_304, "scrollbackMaxBytes") { Ok(v) => v, Err(m) => { proof { lemma_first_bad(*f, 3); } return Err(m) } };
    let max_read_bytes = match positive_value(&f.max_read_bytes, 262_144, "maxReadBytes") { Ok(v) => v, Err(m) => { proof { lemma_first_bad(*f, 4); } return Err(m) } };
    let poll_interval_ms = match positive_value(&f.poll_interval_ms, 50, "pollIntervalMs") { Ok(v) => v, Err(m) => { proof { lemma_first_bad(*f, 5); } return Err(m) } };
    let exact_probe_after_ms = match positive_value(&f.exact_probe_after_ms, 150, "exactProbeAfterMs") { Ok(v) => v, Err(m) => { proof { lemma_first_bad(*f, 6); } return Err(m) } };
    let idle_silence_ms = match positive_value(&f.idle_silence_ms, 3_000, "idleSilenceMs") { Ok(v) => v, Err(m) => { proof { lemma_first_bad(*f, 7); } return Err(m) } };
    let handoff_grace_ms = match positive_value(&f.handoff_grace_ms, 500, "handoffGraceMs") { Ok(v) => v, Err(m) => { proof { lemma_first_bad(*f, 8); } return Err(m) } };
    let timeout_ms = match positive_value(&f.timeout_ms, 30_000, "timeoutMs") { Ok(v) => v, Err(m) => { proof { lemma_first_bad(*f, 9); } return Err(m) } };
    let dispose_grace_ms = match positive_value(&f.dispose_grace_ms, 3_000, "disposeGraceMs") { Ok(v) => v, Err(m) => { proof { lemma_first_bad(*f, 10); } return Err(m) } };
    proof {
        assert forall|k: int| 0 <= k < 11 implies positive_field(#[trigger] nf[k].0, nf[k].2) is Some by {
            if k == 0 {} else if k == 1 {} else if k == 2 {} else if k == 3 {} else if k == 4 {} else if k == 5 {}
            else if k == 6 {} else if k == 7 {} else if k == 8 {} else if k == 9 {} else {}
        }
        assert(first_bad_number(*f) is None);
        assert(number_value(*f, 0) == rows && number_value(*f, 1) == cols && number_value(*f, 2) == scrollback_lines);
        assert(number_value(*f, 3) == scrollback_max_bytes && number_value(*f, 4) == max_read_bytes);
        assert(number_value(*f, 5) == poll_interval_ms && number_value(*f, 8) == handoff_grace_ms);
    }
    proof {
        lemma_size_messages();
    }
    if rows > 65_535 {
        return Err(String::from_str("terminal-bash: rows must be a positive safe integer"));
    }
    if cols > 65_535 {
        return Err(String::from_str("terminal-bash: cols must be a positive safe integer"));
    }
    if scrollback_lines > usize::MAX as u64 {
        return Err(String::from_str("terminal-bash: scrollbackLines must be a positive safe integer"));
    }
    if scrollback_max_bytes > usize::MAX as u64 {
        return Err(String::from_str("terminal-bash: scrollbackMaxBytes must be a positive safe integer"));
    }
    if max_read_bytes > usize::MAX as u64 {
        return Err(String::from_str("terminal-bash: maxReadBytes must be a positive safe integer"));
    }
    if backend_type.as_str().unicode_len() == 0 {
        return Err(String::from_str("terminal-bash: backendType must be non-empty"));
    }
    if shell_path.as_str().unicode_len() == 0 {
        return Err(String::from_str("terminal-bash: shellPath must be non-empty"));
    }
    if max_read_bytes > scrollback_max_bytes {
        return Err(String::from_str("terminal-bash: maxReadBytes must not exceed scrollbackMaxBytes"));
    }
    if handoff_grace_ms < poll_interval_ms {
        return Err(String::from_str(
            "terminal-bash: handoffGraceMs must be at least pollIntervalMs so one readiness poll runs inside the grace window"));
    }
    let c = ResolvedConfig {
        backend_type,
        shell_path,
        shell_args,
        rows: rows as u16,
        cols: cols as u16,
        scrollback_lines: scrollback_lines as usize,
        scrollback_max_bytes: scrollback_max_bytes as usize,
        max_read_bytes: max_read_bytes as usize,
        poll_interval_ms,
        exact_probe_after_ms,
        idle_silence_ms,
        handoff_grace_ms,
        timeout_ms,
        dispose_grace_ms,
    };
    proof {
        let cv = config_view(c).3;
        assert forall|k: int| 0 <= k < 11 implies positive_field(#[trigger] nf[k].0, nf[k].2) == Some(cv[k]) by {
            if k == 0 {} else if k == 1 {} else if k == 2 {} else if k == 3 {} else if k == 4 {} else if k == 5 {}
            else if k == 6 {} else if k == 7 {} else if k == 8 {} else if k == 9 {} else {}
        }
    }
    Ok(c)
}

proof fn lemma_first_bad(f: BashConfigFields, k: int)
    requires
        0 <= k < 11,
        positive_field(number_fields(f)[k].0, number_fields(f)[k].2) is None,
        forall|j: int| 0 <= j < k ==> positive_field(#[trigger] number_fields(f)[j].0, number_fields(f)[j].2) is Some,
    ensures
        first_bad_number(f) == Some(k),
{
    let nf = number_fields(f);
    let c = choose|c: int| 0 <= c < 11 && positive_field(nf[c].0, nf[c].2) is None
        && forall|j: int| 0 <= j < c ==> positive_field(#[trigger] nf[j].0, nf[j].2) is Some;
    assert(0 <= k < 11 && positive_field(nf[k].0, nf[k].2) is None
        && forall|j: int| 0 <= j < k ==> positive_field(#[trigger] nf[j].0, nf[j].2) is Some);
    if c < k {
        assert(positive_field(nf[c].0, nf[c].2) is Some);
    } else if c > k {
        assert(positive_field(nf[k].0, nf[k].2) is Some);
    }
}

/// The keys the bash backend configuration accepts.
pub open spec fn bash_config_keys() -> Seq<Seq<char>> {
    seq!["backendType"@, "shellPath"@, "shellArgs"@, "rows"@, "cols"@, "scrollbackLines"@, "scrollbackMaxBytes"@,
        "maxReadBytes"@, "pollIntervalMs"@, "exactProbeAfterMs"@, "idleSilenceMs"@, "handoffGraceMs"@, "timeoutMs"@,
        "disposeGraceMs"@]
}

fn known_key(key: &[char]) -> (r: bool)
    ensures
        r == bash_config_keys().contains(key@),
{
    let names: [&str; 14] = ["backendType", "shellPath", "shellArgs", "rows", "cols", "scrollbackLines", "scrollbackMaxBytes",
        "maxReadBytes", "pollIntervalMs", "exactProbeAfterMs", "idleSilenceMs", "handoffGraceMs", "timeoutMs",
        "disposeGraceMs"];
    let ghost ks = bash_config_keys();
    assert(forall|k: int| 0 <= k < 14 ==> #[trigger] names@[k]@ == ks[k]);
    let mut i: usize = 0;
    while i < 14
        invariant
            0 <= i <= 14,
            ks == bash_config_keys(),
            names@.len() == 14,
            forall|k: int| 0 <= k < 14 ==> #[trigger] names@[k]@ == ks[k],
            forall|k: int| 0 <= k < i ==> ks[k] != key@,
        decreases 14 - i,
    {
        let n = chars_of(names[i]);
        if crate::text::chars_eq(key, n.as_slice()) {
            assert(ks[i as int] == key@);
            return true;
        }
        i = i + 1;
    }
    false
}

/// Check the configuration object's keys, in order: the first key that is not
/// a bash backend key fails.
pub fn check_bash_config_keys(keys: &[String]) -> (r: Result<(), String>)
    ensures
        r is Ok <==> forall|k: int| 0 <= k < keys.len() ==> bash_config_keys().contains(#[trigger] keys@[k]@),
        r matches Err(m) ==> exists|k: int| 0 <= k < keys.len() && !bash_config_keys().contains(#[trigger] keys@[k]@)
            && (forall|j: int| 0 <= j < k ==> bash_config_keys().contains(#[trigger] keys@[j]@))
            && m@ == "TerminalBashConfig: unknown key \""@ + keys@[k]@ + "\""@,
{
    let mut i: usize = 0;
    while i < keys.len()
        invariant
            0 <= i <= keys.len(),
            forall|k: int| 0 <= k < i ==> bash_config_keys().contains(#[trigger] keys@[k]@),
        decreases keys.len() - i,
    {
        let k = chars_of(keys[i].as_str());
        if !known_key(k.as_slice()) {
            let mut m = String::new();
            push_str(&mut m, "TerminalBashConfig: unknown key \"");
            push_str(&mut m, keys[i].as_str());
            push_str(&mut m, "\"");
            return Err(m);
        }
        i = i + 1;
    }
    Ok(())
}

/// The program and arguments that start the shell.
pub fn shell_argv(config: &ResolvedConfig) -> (r: Vec<String>)
    ensures
        strs(r@) == seq![config.shell_path@] + strs(config.shell_args@),
{
    let mut argv: Vec<String> = Vec::new();
    argv.push(config.shell_path.clone());
    let mut i: usize = 0;
    while i < config.shell_args.len()
        invariant
            0 <= i <= config.shell_args.len(),
            argv@.len() == i + 1,
            argv@[0]@ == config.shell_path@,
            forall|k: int| 0 <= k < i ==> (#[trigger] argv@[k + 1])@ == config.shell_args@[k]@,
        decreases config.shell_args.len() - i,
    {
        argv.push(config.shell_args[i].clone());
        i = i + 1;
    }
    assert(strs(argv@) =~= seq![config.shell_path@] + strs(config.shell_args@)) by {
        assert forall|k: int| 0 <= k < argv@.len() implies strs(argv@)[k] == (seq![config.shell_path@] + strs(config.shell_args@))[k] by {
            if k > 0 {
                assert(argv@[(k - 1) + 1]@ == config.shell_args@[k - 1]@);
            }
        }
    }
    argv
}

fn env_pair(key: &str, value: &str) -> (r: EnvEntry)
    ensures
        r.key@ == key@,
        r.value matches Some(v) && v@ == value@,
{
    EnvEntry { key: String::from_str(key), value: Some(String::from_str(value)) }
}

/// The environment overlay of a bash session: a dumb terminal, `cat` pagers,
/// the controlled prompt with its exit-status marker, and the owning session
/// and PTY ids.
pub fn child_environment(owner: &str, session_id: &str) -> (r: Vec<EnvEntry>)
    ensures
        r@.len() == 9,
        r@[0].key@ == "TERM"@ && r@[0].value->0@ == "dumb"@,
        r@[3].key@ == "PS1"@ && r@[3].value->0@ == CONTROLLED_PROMPT@,
        r@[7].key@ == "DSH_SESSION_ID"@ && r@[7].value->0@ == owner@,
        r@[8].key@ == "DSH_PTY_SESSION_ID"@ && r@[8].value->0@ == session_id@,
        forall|k: int| 0 <= k < 9 ==> (#[trigger] r@[k]).value is Some,
{
    let mut env: Vec<EnvEntry> = Vec::new();
    env.push(env_pair("TERM", "dumb"));
    env.push(env_pair("PAGER", "cat"));
    env.push(env_pair("GIT_PAGER", "cat"));
    env.push(env_pair("PS1", CONTROLLED_PROMPT));
    env.push(env_pair("PROMPT_COMMAND", "printf \"\x1b]133;D;%s\x07\" \"$?\""));
    env.push(env_pair("BASH_SILENCE_DEPRECATION_WARNING", "1"));
    env.push(env_pair("DSH_SHELL", "1"));
    env.push(env_pair("DSH_SESSION_ID", owner));
    env.push(env_pair("DSH_PTY_SESSION_ID", session_id));
    env
}

} // verus!
