//! Process-table inspection for PTY foreground groups, stdin waits and
//! teardown identity: Linux reads `/proc`, macOS reads `ps`. Every decision is
//! a verified function of the text and bytes those sources return.

use std::sync::Arc;
use vstd::prelude::*;
use vstd::string::StringExecFns;
use crate::num::{parse_i32, parse_i64, parse_hex_i64_signed, parse_hex_u64, parse_int_spec, push_i64, signed_decimal};
use crate::subprocess::SubprocessError;
use crate::tree::{is_process_tree, process_tree};
use crate::text::{char_utf8_len, chars_of, push_chars, push_str, string_from_chars, utf8_len};
use crate::words::{
    find_first, find_last, first_index, is_unicode_whitespace, last_index, split_char, split_on,
    split_whitespace, tokens, trim, trim_start, trimmed, views,
};

verus! {

#[verifier::external_type_specification]
#[verifier::external_body]
pub struct ExIoError(std::io::Error);

/// PID plus start identity, preventing teardown escalation after PID reuse.
#[derive(Clone, Debug, PartialEq, Eq)]
pub struct ProcessIdentity {
    pid: i32,
    started: String,
}

impl ProcessIdentity {
    /// The pid and start fence.
    pub closed spec fn view(&self) -> (i32, Seq<char>) {
        (self.pid, self.started@)
    }

    /// A pid plus start-identity fence: Linux starttime ticks or macOS `lstart` text.
    pub fn new(pid: i32, started: &str) -> (r: Self)
        ensures
            r.view() == (pid, started@),
    {
        ProcessIdentity { pid, started: String::from_str(started) }
    }

    /// A pid plus start-identity fence from an owned string.
    pub fn from_parts(pid: i32, started: String) -> (r: Self)
        ensures
            r.view() == (pid, started@),
    {
        ProcessIdentity { pid, started }
    }

    /// OS process id.
    pub fn pid(&self) -> (r: i32)
        ensures
            r == self.view().0,
    {
        self.pid
    }

    /// Start identity fence.
    pub fn started(&self) -> (r: &str)
        ensures
            r@ == self.view().1,
    {
        self.started.as_str()
    }
}

/// Signals a terminal foreground group may receive.
#[derive(Clone, Copy, Debug, Eq, PartialEq)]
pub enum SubprocessTerminalSignal {
    /// `SIGINT`
    Sigint,
    /// `SIGTERM`
    Sigterm,
    /// `SIGKILL`
    Sigkill,
    /// `SIGTSTP`
    Sigtstp,
    /// `SIGHUP`
    Sighup,
}

/// Escalation signals sent to one identity, never to a whole group.
#[derive(Clone, Copy, Debug, Eq, PartialEq)]
pub enum TermKill {
    /// `SIGTERM`
    Sigterm,
    /// `SIGKILL`
    Sigkill,
}

/// POSIX name of a terminal signal.
pub fn terminal_signal_name(signal: SubprocessTerminalSignal) -> (r: &'static str)
    ensures
        r@ == (match signal {
            SubprocessTerminalSignal::Sigint => "SIGINT"@,
            SubprocessTerminalSignal::Sigterm => "SIGTERM"@,
            SubprocessTerminalSignal::Sigkill => "SIGKILL"@,
            SubprocessTerminalSignal::Sigtstp => "SIGTSTP"@,
            SubprocessTerminalSignal::Sighup => "SIGHUP"@,
        }),
{
    match signal {
        SubprocessTerminalSignal::Sigint => "SIGINT",
        SubprocessTerminalSignal::Sigterm => "SIGTERM",
        SubprocessTerminalSignal::Sigkill => "SIGKILL",
        SubprocessTerminalSignal::Sigtstp => "SIGTSTP",
        SubprocessTerminalSignal::Sighup => "SIGHUP",
    }
}

/// POSIX name of an escalation signal.
pub fn term_kill_name(signal: TermKill) -> (r: &'static str)
    ensures
        r@ == (match signal {
            TermKill::Sigterm => "SIGTERM"@,
            TermKill::Sigkill => "SIGKILL"@,
        }),
{
    match signal {
        TermKill::Sigterm => "SIGTERM",
        TermKill::Sigkill => "SIGKILL",
    }
}

/// Fields used from Linux `/proc/<pid>/stat`.
#[derive(Clone, Debug, PartialEq, Eq)]
pub struct ProcStat {
    pid: i32,
    parent_pid: i32,
    pgrp: i32,
    session: i32,
    state: char,
    tpgid: i32,
    started: String,
}

/// The parsed fields of one stat line.
pub struct ProcStatView {
    pub pid: i32,
    pub parent_pid: i32,
    pub pgrp: i32,
    pub session: i32,
    pub state: char,
    pub tpgid: i32,
    pub started: Seq<char>,
}

impl ProcStat {
    /// The parsed fields.
    pub closed spec fn view(&self) -> ProcStatView {
        ProcStatView {
            pid: self.pid,
            parent_pid: self.parent_pid,
            pgrp: self.pgrp,
            session: self.session,
            state: self.state,
            tpgid: self.tpgid,
            started: self.started@,
        }
    }

    /// Process id from the stat prefix.
    pub fn pid(&self) -> (r: i32)
        ensures
            r == self.view().pid,
    {
        self.pid
    }

    /// Parent pid (`ppid`).
    pub fn parent_pid(&self) -> (r: i32)
        ensures
            r == self.view().parent_pid,
    {
        self.parent_pid
    }

    /// Process-group id (`pgrp`).
    pub fn pgrp(&self) -> (r: i32)
        ensures
            r == self.view().pgrp,
    {
        self.pgrp
    }

    /// Session id.
    pub fn session(&self) -> (r: i32)
        ensures
            r == self.view().session,
    {
        self.session
    }

    /// Single-character run state (`R`, `S`, `Z`, ...).
    pub fn state(&self) -> (r: char)
        ensures
            r == self.view().state,
    {
        self.state
    }

    /// Foreground process-group id of the controlling terminal; `-1` without one.
    pub fn tpgid(&self) -> (r: i32)
        ensures
            r == self.view().tpgid,
    {
        self.tpgid
    }

    /// Starttime ticks.
    pub fn started(&self) -> (r: &str)
        ensures
            r@ == self.view().started,
    {
        self.started.as_str()
    }
}

/// The decimal `i32` that `s` denotes, as `str::parse::<i32>` reads it.
pub open spec fn i32_of(s: Seq<char>) -> Option<int> {
    parse_int_spec(s, 10, true, i32::MIN as int, i32::MAX as int)
}

/// The text after the `)` at `close`, as `text.get(close + 2..)` gives it in
/// bytes: empty when that offset is past the end or inside a character,
/// that is unless a single-byte character follows the `)`.
pub open spec fn after_close(t: Seq<char>, close: int) -> Seq<char> {
    if close + 1 < t.len() && utf8_len(t[close + 1]) == 1 {
        t.subrange(close + 2, t.len() as int)
    } else {
        Seq::empty()
    }
}

/// The stat fields that `t` holds: the pid before the first `(`, then after the
/// last `)` the whitespace-separated state (one single-byte character), ppid,
/// pgrp, session, tpgid (sixth word) and starttime (twentieth word).
pub open spec fn proc_stat_spec(t: Seq<char>) -> Option<ProcStatView> {
    match (first_index(t, '('), last_index(t, ')')) {
        (Some(open), Some(close)) => {
            if open == 0 || close <= open {
                None
            } else {
                let pid = i32_of(trim(t.subrange(0, open)));
                let rest = tokens(trim(after_close(t, close)));
                if rest.len() < 20 || rest[0].len() != 1 || utf8_len(rest[0][0]) != 1 {
                    None
                } else {
                    match (pid, i32_of(rest[1]), i32_of(rest[2]), i32_of(rest[3]), i32_of(rest[5])) {
                        (Some(p), Some(pp), Some(g), Some(s), Some(tp)) => Some(ProcStatView {
                            pid: p as i32,
                            parent_pid: pp as i32,
                            pgrp: g as i32,
                            session: s as i32,
                            state: rest[0][0],
                            tpgid: tp as i32,
                            started: rest[19],
                        }),
                        _ => None,
                    }
                }
            }
        },
        _ => None,
    }
}

/// Parse `/proc/<pid>/stat`, including a parenthesized command that may hold
/// spaces and parentheses.
pub fn parse_proc_stat(text: &str) -> (r: Option<ProcStat>)
    ensures
        match r {
            Some(p) => proc_stat_spec(text@) == Some(p.view()),
            None => proc_stat_spec(text@) is None,
        },
{
    let t = chars_of(text);
    let open = match find_first(t.as_slice(), '(') {
        Some(o) => o,
        None => return None,
    };
    let close = match find_last(t.as_slice(), ')') {
        Some(c) => c,
        None => return None,
    };
    if open == 0 || close <= open {
        return None;
    }
    let head = crate::text::copy_range(t.as_slice(), 0, open);
    let pid_text = trimmed(head.as_slice());
    let after: Vec<char> = if close + 1 < t.len() && char_utf8_len(t[close + 1]) == 1 {
        crate::text::copy_range(t.as_slice(), close + 2, t.len())
    } else {
        Vec::new()
    };
    proof {
        assert(after@ == after_close(t@, close as int));
    }
    let rest_text = trimmed(after.as_slice());
    let rest = split_whitespace(rest_text.as_slice());
    proof {
        assert(views(rest@) == tokens(trim(after_close(t@, close as int))));
        assert(forall|k: int| 0 <= k < rest.len() ==> views(rest@)[k] == #[trigger] rest@[k]@);
    }
    if rest.len() < 20 || rest[0].len() != 1 || char_utf8_len(rest[0][0]) != 1 {
        return None;
    }
    let pid = match parse_i32(pid_text.as_slice()) {
        Some(v) => v,
        None => return None,
    };
    let parent_pid = match parse_i32(rest[1].as_slice()) {
        Some(v) => v,
        None => return None,
    };
    let pgrp = match parse_i32(rest[2].as_slice()) {
        Some(v) => v,
        None => return None,
    };
    let session = match parse_i32(rest[3].as_slice()) {
        Some(v) => v,
        None => return None,
    };
    let tpgid = match parse_i32(rest[5].as_slice()) {
        Some(v) => v,
        None => return None,
    };
    let started = string_from_chars(rest[19].as_slice());
    Some(ProcStat { pid, parent_pid, pgrp, session, state: rest[0][0], tpgid, started })
}

/// Every character of `s` is an ASCII digit and there is at least one.
pub open spec fn is_numeric(s: Seq<char>) -> bool {
    s.len() > 0 && forall|i: int| 0 <= i < s.len() ==> '0' <= #[trigger] s[i] && s[i] <= '9'
}

fn is_numeric_name(name: &[char]) -> (r: bool)
    ensures
        r == is_numeric(name@),
{
    if name.len() == 0 {
        return false;
    }
    let mut i: usize = 0;
    while i < name.len()
        invariant
            0 <= i <= name.len(),
            forall|k: int| 0 <= k < i ==> '0' <= #[trigger] name@[k] && name@[k] <= '9',
        decreases name.len() - i,
    {
        if !('0' <= name[i] && name[i] <= '9') {
            return false;
        }
        i = i + 1;
    }
    true
}

/// The pid a `/proc` entry name denotes: all digits and within `i32`.
pub open spec fn pid_of_name(n: Seq<char>) -> Option<int> {
    if is_numeric(n) { i32_of(n) } else { None }
}

/// The pids of the numeric entry names, in order.
pub open spec fn pids_of_names(names: Seq<Seq<char>>) -> Seq<i32>
    decreases names.len(),
{
    if names.len() == 0 {
        Seq::empty()
    } else {
        let p = pids_of_names(names.drop_last());
        match pid_of_name(names.last()) {
            Some(v) => p.push(v as i32),
            None => p,
        }
    }
}

/// The character views of strings.
pub open spec fn strings_view(v: Seq<String>) -> Seq<Seq<char>> {
    Seq::new(v.len(), |i: int| v[i]@)
}

/// The pids named by directory entries, skipping names that are not
/// all-digit or do not fit `i32`.
pub fn numeric_pids(names: &[String]) -> (r: Vec<i32>)
    ensures
        r@ == pids_of_names(strings_view(names@)),
{
    let mut r: Vec<i32> = Vec::new();
    let mut i: usize = 0;
    while i < names.len()
        invariant
            0 <= i <= names.len(),
            r@ == pids_of_names(strings_view(names@.take(i as int))),
        decreases names.len() - i,
    {
        assert(strings_view(names@.take(i + 1)).drop_last() =~= strings_view(names@.take(i as int)));
        assert(strings_view(names@.take(i + 1)).last() == names@[i as int]@);
        let n = chars_of(names[i].as_str());
        if is_numeric_name(n.as_slice()) {
            match parse_i32(n.as_slice()) {
                Some(v) => r.push(v),
                None => {},
            }
        }
        i = i + 1;
    }
    assert(names@.take(names.len() as int) =~= names@);
    r
}

/// A state that no longer executes: zombie or dead.
pub open spec fn is_quiescent(state: char) -> bool {
    state == 'Z' || state == 'X' || state == 'x'
}

fn is_quiescent_state(state: char) -> (r: bool)
    ensures
        r == is_quiescent(state),
{
    state == 'Z' || state == 'X' || state == 'x'
}

/// The views of parsed stat records.
pub open spec fn stats_view(v: Seq<ProcStat>) -> Seq<ProcStatView> {
    Seq::new(v.len(), |i: int| v[i].view())
}

/// Whether group `pgid` has an executing member among `stats`: `Some(true)`
/// when one member is not quiescent, `Some(false)` when all members are,
/// `None` when no record belongs to the group.
pub open spec fn group_liveness(pgid: i32, stats: Seq<ProcStatView>) -> Option<bool> {
    if exists|i: int| 0 <= i < stats.len() && #[trigger] stats[i].pgrp == pgid && !is_quiescent(stats[i].state) {
        Some(true)
    } else if exists|i: int| 0 <= i < stats.len() && #[trigger] stats[i].pgrp == pgid {
        Some(false)
    } else {
        None
    }
}

/// Live-member presence of group `pgid` among parsed stat records.
pub fn group_has_live_members(pgid: i32, stats: &[ProcStat]) -> (r: Option<bool>)
    ensures
        r == group_liveness(pgid, stats_view(stats@)),
{
    let ghost sv = stats_view(stats@);
    let mut matched = false;
    let mut i: usize = 0;
    while i < stats.len()
        invariant
            0 <= i <= stats.len(),
            sv == stats_view(stats@),
            matched <==> exists|k: int| 0 <= k < i && #[trigger] sv[k].pgrp == pgid,
            forall|k: int| 0 <= k < i && #[trigger] sv[k].pgrp == pgid ==> is_quiescent(sv[k].state),
        decreases stats.len() - i,
    {
        assert(sv[i as int] == stats[i as int].view());
        if stats[i].pgrp == pgid {
            if !is_quiescent_state(stats[i].state) {
                assert(sv[i as int].pgrp == pgid && !is_quiescent(sv[i as int].state));
                return Some(true);
            }
            matched = true;
            assert(sv[i as int].pgrp == pgid);
        } else {
            assert(sv[i as int].pgrp != pgid);
        }
        i = i + 1;
    }
    if matched { Some(false) } else { None }
}

/// `s` with a leading `0x` or `0X` removed.
pub open spec fn strip_hex_prefix(s: Seq<char>) -> Seq<char> {
    if s.len() >= 2 && s[0] == '0' && (s[1] == 'x' || s[1] == 'X') { s.subrange(2, s.len() as int) } else { s }
}

/// The hexadecimal `i64` of a syscall argument: `i64` first, then a `u64`
/// reinterpreted as two's complement.
pub open spec fn hex_arg(s: Seq<char>) -> Option<int> {
    let body = strip_hex_prefix(s);
    match parse_int_spec(body, 16, true, i64::MIN as int, i64::MAX as int) {
        Some(v) => Some(v),
        None => match parse_int_spec(body, 16, false, 0, u64::MAX as int) {
            Some(u) => Some(if u > i64::MAX as int { u - 0x1_0000_0000_0000_0000int } else { u }),
            None => None,
        },
    }
}

/// Parse one hexadecimal syscall argument, with or without `0x`.
pub fn parse_hex_i64(text: &[char]) -> (r: Option<i64>)
    ensures
        match r {
            Some(v) => hex_arg(text@) == Some(v as int),
            None => hex_arg(text@) is None,
        },
{
    let body = if text.len() >= 2 && text[0] == '0' && (text[1] == 'x' || text[1] == 'X') {
        crate::text::copy_range(text, 2, text.len())
    } else {
        crate::text::copy_range(text, 0, text.len())
    };
    assert(text@.subrange(0, text.len() as int) =~= text@);
    match parse_hex_i64_signed(body.as_slice()) {
        Some(v) => Some(v),
        None => match parse_hex_u64(body.as_slice()) {
            Some(u) => {
                if u > 0x7fff_ffff_ffff_ffffu64 {
                    Some(-((0xffff_ffff_ffff_ffffu64 - u) as i64) - 1)
                } else {
                    Some(u as i64)
                }
            },
            None => None,
        },
    }
}

/// A syscall in progress: its number and up to six arguments.
#[derive(Clone, Debug)]
pub struct SyscallInfo {
    /// Syscall number.
    pub number: i64,
    /// Raw arguments, at most six.
    pub args: Vec<i64>,
}

/// The arguments of a syscall line: the words after the number, at most six.
pub open spec fn arg_words(toks: Seq<Seq<char>>) -> Seq<Seq<char>> {
    toks.subrange(1, if toks.len() < 7 { toks.len() as int } else { 7 })
}

/// The syscall that `/proc/<pid>/task/<tid>/syscall` reports: `None` while
/// running, when not blocked in a syscall (`-1 ...`), or when malformed.
pub open spec fn syscall_spec(t: Seq<char>) -> Option<(int, Seq<int>)> {
    let tt = trim(t);
    if tt == "running"@ || (tt.len() >= 3 && tt.subrange(0, 3) == "-1 "@) {
        None
    } else {
        let toks = tokens(tt);
        if toks.len() == 0 {
            None
        } else {
            match parse_int_spec(toks[0], 10, true, i64::MIN as int, i64::MAX as int) {
                None => None,
                Some(n) => {
                    let words = arg_words(toks);
                    if forall|k: int| 0 <= k < words.len() ==> #[trigger] hex_arg(words[k]) is Some {
                        Some((n, Seq::new(words.len(), |k: int| hex_arg(words[k])->0)))
                    } else {
                        None
                    }
                },
            }
        }
    }
}

fn equals_text(a: &[char], b: &str) -> (r: bool)
    ensures
        r == (a@ == b@),
{
    let bv = chars_of(b);
    crate::text::chars_eq(a, bv.as_slice())
}

/// Parse the text of `/proc/<pid>/task/<tid>/syscall`.
#[verifier::loop_isolation(false)]
pub fn parse_syscall(text: &str) -> (r: Option<SyscallInfo>)
    ensures
        match r {
            Some(info) => syscall_spec(text@) == Some((info.number as int, Seq::new(info.args@.len(), |k: int| info.args@[k] as int))),
            None => syscall_spec(text@) is None,
        },
{
    let t = chars_of(text);
    let tt = trimmed(t.as_slice());
    if equals_text(tt.as_slice(), "running") {
        return None;
    }
    if tt.len() >= 3 {
        let head = crate::text::copy_range(tt.as_slice(), 0, 3);
        if equals_text(head.as_slice(), "-1 ") {
            return None;
        }
    }
    let toks = split_whitespace(tt.as_slice());
    proof {
        assert(forall|k: int| 0 <= k < toks.len() ==> views(toks@)[k] == #[trigger] toks@[k]@);
    }
    if toks.len() == 0 {
        return None;
    }
    let number = match parse_i64(toks[0].as_slice()) {
        Some(n) => n,
        None => return None,
    };
    let ghost words = arg_words(tokens(tt@));
    let end: usize = if toks.len() < 7 { toks.len() } else { 7 };
    let mut args: Vec<i64> = Vec::new();
    let mut k: usize = 1;
    while k < end
        invariant
            1 <= k <= end,
            end <= toks.len(),
            end == (if toks.len() < 7 { toks.len() } else { 7 }),
            views(toks@) == tokens(tt@),
            words == arg_words(tokens(tt@)),
            args.len() == k - 1,
            forall|m: int| 0 <= m < k - 1 ==> hex_arg(#[trigger] words[m]) == Some(args@[m] as int),
        decreases end - k,
    {
        assert(words[k - 1] == toks@[k as int]@);
        match parse_hex_i64(toks[k].as_slice()) {
            Some(v) => args.push(v),
            None => {
                assert(!(hex_arg(words[k - 1]) is Some));
                return None;
            },
        }
        k = k + 1;
    }
    assert(Seq::new(args@.len(), |m: int| args@[m] as int) =~= Seq::new(words.len(), |m: int| hex_arg(words[m])->0));
    Some(SyscallInfo { number, args })
}

/// Syscall numbers of one architecture that can wait on stdin.
#[derive(Clone, Copy, Debug)]
pub struct SyscallTable {
    /// `read`
    pub read: i64,
    /// `select`, where the architecture has it.
    pub select: Option<i64>,
    /// `pselect6`
    pub pselect: i64,
    /// `poll`, where the architecture has it.
    pub poll: Option<i64>,
    /// `ppoll`
    pub ppoll: i64,
    /// `epoll_wait`, where the architecture has it.
    pub epoll_wait: Option<i64>,
    /// `epoll_pwait`
    pub epoll_pwait: i64,
}

/// The x86_64 table.
pub open spec fn x86_64_table() -> SyscallTable {
    SyscallTable { read: 0, select: Some(23), pselect: 270, poll: Some(7), ppoll: 271, epoll_wait: Some(232), epoll_pwait: 281 }
}

/// The aarch64 table.
pub open spec fn aarch64_table() -> SyscallTable {
    SyscallTable { read: 63, select: None, pselect: 72, poll: None, ppoll: 73, epoll_wait: None, epoll_pwait: 22 }
}

/// The table for an architecture name: `x86_64`/`x64` or `aarch64`/`arm64`.
pub open spec fn table_for(arch: Seq<char>) -> Option<SyscallTable> {
    if arch == "x86_64"@ || arch == "x64"@ {
        Some(x86_64_table())
    } else if arch == "aarch64"@ || arch == "arm64"@ {
        Some(aarch64_table())
    } else {
        None
    }
}

/// The stdin-wait syscall table of an architecture.
pub fn syscall_table(arch: &str) -> (r: Option<SyscallTable>)
    ensures
        r == table_for(arch@),
{
    let a = chars_of(arch);
    if equals_text(a.as_slice(), "x86_64") || equals_text(a.as_slice(), "x64") {
        Some(SyscallTable { read: 0, select: Some(23), pselect: 270, poll: Some(7), ppoll: 271, epoll_wait: Some(232), epoll_pwait: 281 })
    } else if equals_text(a.as_slice(), "aarch64") || equals_text(a.as_slice(), "arm64") {
        Some(SyscallTable { read: 63, select: None, pselect: 72, poll: None, ppoll: 73, epoll_wait: None, epoll_pwait: 22 })
    } else {
        None
    }
}

/// What it takes to decide whether a blocked syscall waits on stdin.
#[derive(Clone, Copy, Debug, PartialEq, Eq)]
pub enum StdinProbe {
    /// The syscall alone decides.
    Decided(bool),
    /// Read the first byte of the `fd_set` at this address.
    FdSet(i64),
    /// Read the `pollfd` array at this address with this many entries.
    Poll(i64, i64),
    /// Read the fdinfo of this epoll descriptor.
    Epoll(i64),
}

/// Argument `i` of a syscall, zero when absent.
pub open spec fn arg_at(args: Seq<i64>, i: int) -> i64 {
    if i < args.len() { args[i] } else { 0 }
}

/// The probe for a syscall: `read` waits on stdin when its fd is 0;
/// `select`/`pselect6` with `nfds >= 1` need the read set; `poll`/`ppoll`
/// with at least one entry need the array; `epoll_wait`/`epoll_pwait` with
/// `maxevents >= 1` need the epoll fdinfo; anything else is no wait.
pub open spec fn probe_spec(number: i64, args: Seq<i64>, table: SyscallTable) -> StdinProbe {
    let a0 = arg_at(args, 0);
    let a1 = arg_at(args, 1);
    let a2 = arg_at(args, 2);
    if number == table.read {
        StdinProbe::Decided(a0 == 0)
    } else if table.select == Some(number) || number == table.pselect {
        if a0 >= 1 { StdinProbe::FdSet(a1) } else { StdinProbe::Decided(false) }
    } else if table.poll == Some(number) || number == table.ppoll {
        if a1 >= 1 { StdinProbe::Poll(a0, a1) } else { StdinProbe::Decided(false) }
    } else if table.epoll_wait == Some(number) || number == table.epoll_pwait {
        if a2 >= 1 { StdinProbe::Epoll(a0) } else { StdinProbe::Decided(false) }
    } else {
        StdinProbe::Decided(false)
    }
}

fn syscall_arg(args: &Vec<i64>, index: usize) -> (r: i64)
    ensures
        r == arg_at(args@, index as int),
{
    if index < args.len() { args[index] } else { 0 }
}

fn opt_eq(a: Option<i64>, b: i64) -> (r: bool)
    ensures
        r == (a == Some(b)),
{
    match a {
        Some(x) => x == b,
        None => false,
    }
}

/// The probe that decides whether `syscall` waits on stdin.
pub fn stdin_probe(syscall: &SyscallInfo, table: SyscallTable) -> (r: StdinProbe)
    ensures
        r == probe_spec(syscall.number, syscall.args@, table),
{
    let a0 = syscall_arg(&syscall.args, 0);
    let a1 = syscall_arg(&syscall.args, 1);
    let a2 = syscall_arg(&syscall.args, 2);
    let n = syscall.number;
    if n == table.read {
        StdinProbe::Decided(a0 == 0)
    } else if opt_eq(table.select, n) || n == table.pselect {
        if a0 >= 1 { StdinProbe::FdSet(a1) } else { StdinProbe::Decided(false) }
    } else if opt_eq(table.poll, n) || n == table.ppoll {
        if a1 >= 1 { StdinProbe::Poll(a0, a1) } else { StdinProbe::Decided(false) }
    } else if opt_eq(table.epoll_wait, n) || n == table.epoll_pwait {
        if a2 >= 1 { StdinProbe::Epoll(a0) } else { StdinProbe::Decided(false) }
    } else {
        StdinProbe::Decided(false)
    }
}

/// Whether the first byte of an `fd_set` has bit 0 (fd 0) set; an empty read
/// counts as zero.
pub fn fd_set_has_fd0(memory: &[u8]) -> (r: bool)
    ensures
        r == (memory.len() > 0 && memory@[0] % 2 == 1),
{
    memory.len() > 0 && memory[0] % 2 == 1
}

/// The `pollfd` entry at `k` asks for fd 0 (`fd` bytes all zero) with `POLLIN`
/// (bit 0 of the little-endian `events`).
pub open spec fn poll_entry_is_stdin(m: Seq<u8>, k: int) -> bool {
    0 <= k && 8 * k + 8 <= m.len() && m[8 * k] == 0 && m[8 * k + 1] == 0 && m[8 * k + 2] == 0
        && m[8 * k + 3] == 0 && m[8 * k + 4] % 2 == 1
}

/// Whether a `pollfd` array, read as whole 8-byte entries, polls stdin for input.
pub fn poll_array_has_stdin(memory: &[u8]) -> (r: bool)
    ensures
        r == exists|k: int| poll_entry_is_stdin(memory@, k),
{
    let mut offset: usize = 0;
    while offset <= memory.len() && memory.len() - offset >= 8
        invariant
            offset % 8 == 0,
            offset <= memory.len(),
            forall|k: int| 0 <= k < offset / 8 ==> !poll_entry_is_stdin(memory@, k),
        decreases memory.len() - offset,
    {
        if memory[offset] == 0 && memory[offset + 1] == 0 && memory[offset + 2] == 0 && memory[offset + 3] == 0
            && memory[offset + 4] % 2 == 1 {
            assert(poll_entry_is_stdin(memory@, (offset / 8) as int));
            return true;
        }
        offset = offset + 8;
    }
    assert forall|k: int| !poll_entry_is_stdin(memory@, k) by {
        if 0 <= k && k < offset / 8 {
        }
    }
    false
}

/// Bytes to read for a `pollfd` array of `count` entries: at most 1024 entries
/// of 8 bytes.
pub fn poll_read_length(count: i64) -> (r: usize)
    requires
        count > 0,
    ensures
        r == 8 * (if count < 1024 { count } else { 1024 }),
{
    let capped: i64 = if count < 1024 { count } else { 1024 };
    (capped as usize) * 8
}

/// An fdinfo line `tfd: 0 ...` naming fd 0 as a target of the epoll set.
pub open spec fn tfd_line_is_stdin(line: Seq<char>) -> bool {
    let t = trim(line);
    if t.len() >= 4 && t.subrange(0, 4) == "tfd:"@ {
        let after = t.subrange(4, t.len() as int);
        if after.len() > 0 && is_unicode_whitespace(after[0]) {
            let rest = crate::words::trim_start(after);
            rest.len() > 0 && rest[0] == '0' && (rest.len() == 1 || {
                let ch = rest[1];
                !(('0' <= ch && ch <= '9') || ('a' <= ch && ch <= 'z') || ('A' <= ch && ch <= 'Z')) && ch != '_'
            })
        } else {
            false
        }
    } else {
        false
    }
}

/// Whether one fdinfo line names fd 0 as an epoll target.
pub fn tfd_is_stdin(line: &[char]) -> (r: bool)
    ensures
        r == tfd_line_is_stdin(line@),
{
    let t = trimmed(line);
    if t.len() < 4 {
        return false;
    }
    let head = crate::text::copy_range(t.as_slice(), 0, 4);
    if !equals_text(head.as_slice(), "tfd:") {
        return false;
    }
    let after = crate::text::copy_range(t.as_slice(), 4, t.len());
    if after.len() == 0 || !crate::words::is_whitespace_char(after[0]) {
        return false;
    }
    let rest = trim_start_copy(after.as_slice());
    if rest.len() == 0 || rest[0] != '0' {
        return false;
    }
    if rest.len() == 1 {
        return true;
    }
    let ch = rest[1];
    !(('0' <= ch && ch <= '9') || ('a' <= ch && ch <= 'z') || ('A' <= ch && ch <= 'Z')) && ch != '_'
}

fn trim_start_copy(s: &[char]) -> (r: Vec<char>)
    ensures
        r@ == crate::words::trim_start(s@),
{
    let n = s.len();
    let mut i: usize = 0;
    assert(s@.subrange(0, n as int) =~= s@);
    while i < n && crate::words::is_whitespace_char(s[i])
        invariant
            0 <= i <= n,
            n == s.len(),
            crate::words::trim_start(s@) == crate::words::trim_start(s@.subrange(i as int, n as int)),
        decreases n - i,
    {
        assert(s@.subrange(i as int, n as int).drop_first() =~= s@.subrange(i + 1, n as int));
        i = i + 1;
    }
    crate::text::copy_range(s, i, n)
}

/// Whether an epoll fdinfo text lists fd 0 among its targets.
pub fn fdinfo_has_stdin(text: &str) -> (r: bool)
    ensures
        r == exists|k: int| 0 <= k < split_on(text@, '\n').len() && tfd_line_is_stdin(#[trigger] split_on(text@, '\n')[k]),
{
    let t = chars_of(text);
    let lines = split_char(t.as_slice(), '\n');
    let ghost ls = split_on(text@, '\n');
    let mut i: usize = 0;
    while i < lines.len()
        invariant
            0 <= i <= lines.len(),
            views(lines@) == ls,
            ls == split_on(text@, '\n'),
            forall|k: int| 0 <= k < i ==> !tfd_line_is_stdin(#[trigger] ls[k]),
        decreases lines.len() - i,
    {
        assert(ls[i as int] == lines@[i as int]@);
        if tfd_is_stdin(lines[i].as_slice()) {
            return true;
        }
        i = i + 1;
    }
    false
}

/// One row of the process table: pid, parent pid and start identity.
#[derive(Clone, Debug, PartialEq, Eq)]
pub struct ProcessTreeEntry {
    /// Process id.
    pub pid: i32,
    /// Parent process id.
    pub parent_pid: i32,
    /// Start identity fence.
    pub started: String,
}

/// The words of `toks` from `from` on, joined by single spaces.
fn join_words(toks: &Vec<Vec<char>>, from: usize) -> (r: Vec<char>)
    requires
        from <= toks.len(),
    ensures
        r@ == crate::text::join(views(toks@).subrange(from as int, toks.len() as int), " "@),
{
    let mut out: Vec<char> = Vec::new();
    let mut k: usize = from;
    let ghost vs = views(toks@);
    assert(vs.subrange(from as int, from as int) =~= Seq::<Seq<char>>::empty());
    while k < toks.len()
        invariant
            from <= k <= toks.len(),
            vs == views(toks@),
            out@ == crate::text::join(vs.subrange(from as int, k as int), " "@),
        decreases toks.len() - k,
    {
        let ghost before = vs.subrange(from as int, k as int);
        let ghost after = vs.subrange(from as int, k + 1);
        assert(after.drop_last() =~= before);
        assert(after.last() == toks@[k as int]@);
        if k > from {
            out.push(' ');
        }
        let ghost mid = out@;
        let mut m: usize = 0;
        while m < toks[k].len()
            invariant
                0 <= m <= toks@[k as int].len(),
                k < toks.len(),
                out@ == mid + toks@[k as int]@.subrange(0, m as int),
            decreases toks@[k as int].len() - m,
        {
            out.push(toks[k][m]);
            m = m + 1;
            assert(out@ =~= mid + toks@[k as int]@.subrange(0, m as int));
        }
        assert(toks@[k as int]@.subrange(0, m as int) =~= toks@[k as int]@);
        proof {
            reveal_strlit(" ");
            if k > from {
                assert(out@ =~= crate::text::join(before, " "@) + " "@ + after.last());
            } else {
                assert(before.len() == 0);
                assert(out@ =~= after.last());
            }
        }
        k = k + 1;
    }
    r_identity(out)
}

fn r_identity(v: Vec<char>) -> (r: Vec<char>)
    ensures
        r@ == v@,
{
    v
}

/// The row that one `ps -axo pid=,ppid=,lstart=` line describes: pid, parent
/// pid, then the remaining words joined by single spaces as the start fence.
pub open spec fn ps_line_spec(line: Seq<char>) -> Option<(int, int, Seq<char>)> {
    let toks = tokens(trim(line));
    if toks.len() < 3 {
        None
    } else {
        match (i32_of(toks[0]), i32_of(toks[1])) {
            (Some(p), Some(pp)) => Some((p, pp, crate::text::join(toks.subrange(2, toks.len() as int), " "@))),
            _ => None,
        }
    }
}

/// Parse one `ps` row.
pub fn parse_ps_line(line: &str) -> (r: Option<ProcessTreeEntry>)
    ensures
        match r {
            Some(e) => ps_line_spec(line@) == Some((e.pid as int, e.parent_pid as int, e.started@)),
            None => ps_line_spec(line@) is None,
        },
{
    let l = chars_of(line);
    let t = trimmed(l.as_slice());
    let toks = split_whitespace(t.as_slice());
    proof {
        assert(forall|k: int| 0 <= k < toks.len() ==> views(toks@)[k] == #[trigger] toks@[k]@);
    }
    if toks.len() < 3 {
        return None;
    }
    let pid = match parse_i32(toks[0].as_slice()) {
        Some(v) => v,
        None => return None,
    };
    let parent_pid = match parse_i32(toks[1].as_slice()) {
        Some(v) => v,
        None => return None,
    };
    let started = join_words(&toks, 2);
    Some(ProcessTreeEntry { pid, parent_pid, started: string_from_chars(started.as_slice()) })
}

/// The foreground group that `ps -o tpgid= -p <pid>` printed, when positive.
pub open spec fn tpgid_text_spec(text: Seq<char>) -> Option<int> {
    match i32_of(trim(text)) {
        Some(v) => if v > 0 { Some(v) } else { None },
        None => None,
    }
}

/// Parse the positive foreground group id that `ps` printed.
pub fn parse_tpgid_text(text: &str) -> (r: Option<i32>)
    ensures
        match r {
            Some(v) => tpgid_text_spec(text@) == Some(v as int),
            None => tpgid_text_spec(text@) is None,
        },
{
    let t = chars_of(text);
    let tt = trimmed(t.as_slice());
    match parse_i32(tt.as_slice()) {
        Some(v) => if v > 0 { Some(v) } else { None },
        None => None,
    }
}

/// `/proc/<pid>` followed by `tail`.
pub open spec fn proc_path_spec(pid: int, tail: Seq<char>) -> Seq<char> {
    "/proc/"@ + signed_decimal(pid) + tail
}

/// Build `/proc/<pid><tail>`.
pub fn proc_path(pid: i64, tail: &str) -> (r: String)
    ensures
        r@ == proc_path_spec(pid as int, tail@),
{
    let mut s = String::new();
    push_str(&mut s, "/proc/");
    push_i64(&mut s, pid);
    push_str(&mut s, tail);
    s
}

/// The view of a list of borrowed texts.
pub open spec fn arg_views(args: Seq<&str>) -> Seq<Seq<char>> {
    Seq::new(args.len(), |k: int| args[k]@)
}

/// The names in a directory listing, or `None` when the listing failed.
pub open spec fn listing_view(r: Result<Vec<String>, std::io::Error>) -> Option<Seq<Seq<char>>> {
    match r {
        Ok(v) => Some(strings_view(v@)),
        Err(_) => None,
    }
}

/// The text of a read or a run, or `None` when it failed.
pub open spec fn text_view(r: Result<String, std::io::Error>) -> Option<Seq<char>> {
    match r {
        Ok(t) => Some(t@),
        Err(_) => None,
    }
}

/// Filesystem, process-table and signal operations one inspector uses.
/// Implementations decide what the host returns; the relations below name
/// those answers, and an implementation that states nothing of them leaves
/// them open.
pub trait ProcessInspectorInternals: Send + Sync {
    /// `r` is an answer to reading the file at `path` (`None`: the read failed).
    closed spec fn file_text(&self, path: Seq<char>, r: Option<Seq<char>>) -> bool {
        true
    }

    /// `r` is an answer to listing the directory at `path` (`None`: the listing failed).
    closed spec fn dir_names(&self, path: Seq<char>, r: Option<Seq<Seq<char>>>) -> bool {
        true
    }

    /// `r` is an answer to opening `path` (`None`: the open failed).
    closed spec fn opens(&self, path: Seq<char>, r: Option<i32>) -> bool {
        true
    }

    /// `r` is an answer to reading `len` bytes of `fd` at `position`: the count
    /// and the buffer afterwards (`None`: the read failed).
    closed spec fn reads_at(&self, fd: i32, position: u64, len: nat, r: Option<(nat, Seq<u8>)>) -> bool {
        true
    }

    /// `r` is the stdout of running `file` with `args` (`None`: the run failed).
    closed spec fn runs(&self, file: Seq<char>, args: Seq<Seq<char>>, r: Option<Seq<char>>) -> bool {
        true
    }

    /// Read one file as UTF-8 text.
    fn read_file(&self, path: &str) -> (r: Result<String, std::io::Error>)
        ensures
            self.file_text(path@, text_view(r)),
    ;

    /// List directory entry names (not full paths).
    fn read_dir(&self, path: &str) -> (r: Result<Vec<String>, std::io::Error>)
        ensures
            self.dir_names(path@, listing_view(r)),
    ;

    /// Open a file for positioned reads of `/proc/<pid>/mem`.
    fn open(&self, path: &str) -> (r: Result<i32, std::io::Error>)
        ensures
            self.opens(path@, match r {
                Ok(fd) => Some(fd),
                Err(_) => None,
            }),
    ;

    /// Read `buffer.len()` bytes at `position`, like `pread`; returns the count.
    /// A mutable slice keeps its length.
    fn read(&self, fd: i32, buffer: &mut [u8], position: u64) -> (r: Result<usize, std::io::Error>)
        ensures
            final(buffer)@.len() == old(buffer)@.len(),
            self.reads_at(fd, position, old(buffer)@.len(), match r {
                Ok(n) => Some((n as nat, final(buffer)@)),
                Err(_) => None,
            }),
    ;

    /// Close a descriptor from `open`. Missing fds are ignored.
    fn close(&self, fd: i32);

    /// Run `file` with `args` and return its UTF-8 stdout.
    fn exec(&self, file: &str, args: &[&str]) -> (r: Result<String, std::io::Error>)
        ensures
            self.runs(file@, arg_views(args@), text_view(r)),
    ;

    /// Deliver `signal` (a POSIX name) to `pid`; a negative pid is a process group.
    fn kill(&self, pid: i32, signal: &str);
}

/// Platform process-table inspection for terminal readiness, signals and teardown.
pub trait ProcessInspector: Send + Sync {
    /// Foreground process-group id for a terminal shell pid, when positive.
    fn foreground_pgid(&self, shell_pid: i32) -> Option<i32>;

    /// Whether any member of `pgid` is proven to wait on stdin.
    fn is_stdin_waiting(&self, pgid: i32) -> bool;

    /// `root_pid` and its transitive descendants, children first.
    fn process_tree(&self, root_pid: i32) -> Vec<ProcessIdentity>;

    /// Current members of one process session, where the platform exposes them.
    fn process_session(&self, session_id: i32) -> Vec<ProcessIdentity>;

    /// Whether the exact identity remains a non-quiescent process.
    fn is_alive(&self, identity: &ProcessIdentity) -> bool;

    /// Send `signal` to the process group `pgid`.
    fn signal_group(&self, pgid: i32, signal: SubprocessTerminalSignal)
        requires
            pgid != i32::MIN,
    ;

    /// Send `SIGTERM` or `SIGKILL` to `identity` while it is alive.
    fn signal_process(&self, identity: &ProcessIdentity, signal: TermKill);
}

/// The rows of `ps` output lines that parse, in order.
pub open spec fn ps_rows_spec(lines: Seq<Seq<char>>) -> Seq<(int, int, Seq<char>)>
    decreases lines.len(),
{
    if lines.len() == 0 {
        Seq::empty()
    } else {
        let p = ps_rows_spec(lines.drop_last());
        match ps_line_spec(lines.last()) {
            Some(row) => p.push(row),
            None => p,
        }
    }
}

/// The process table `ps -axo pid=,ppid=,lstart=` output `text` describes.
pub open spec fn ps_table_spec(text: Seq<char>) -> Seq<(int, int, Seq<char>)> {
    ps_rows_spec(split_on(text, '\n'))
}

/// Process-table rows as pid, parent pid and start fence.
pub open spec fn entry_views(rows: Seq<ProcessTreeEntry>) -> Seq<(int, int, Seq<char>)> {
    Seq::new(rows.len(), |k: int| (rows[k].pid as int, rows[k].parent_pid as int, rows[k].started@))
}

/// Identities as pid and start fence.
pub open spec fn identity_views(v: Seq<ProcessIdentity>) -> Seq<(i32, Seq<char>)> {
    Seq::new(v.len(), |k: int| v[k].view())
}

/// The members of session `session_id` among `(pid, stat)` reads, in order.
pub open spec fn session_members(reads: Seq<(i32, ProcStatView)>, session_id: i32) -> Seq<(i32, Seq<char>)>
    decreases reads.len(),
{
    if reads.len() == 0 {
        Seq::empty()
    } else {
        let p = session_members(reads.drop_last(), session_id);
        if reads.last().1.session == session_id {
            p.push((reads.last().0, reads.last().1.started))
        } else {
            p
        }
    }
}

/// The pids a `/proc` listing names (none when the listing failed).
pub open spec fn listed_pids(listing: Option<Seq<Seq<char>>>) -> Seq<i32> {
    match listing {
        Some(names) => pids_of_names(names),
        None => Seq::empty(),
    }
}

/// `texts[k]` is an answer of `h` to reading `/proc/<pids[k]>/stat`, for each `k`.
pub open spec fn reads_stats<I: ProcessInspectorInternals>(h: I, pids: Seq<i32>, texts: Seq<Option<Seq<char>>>) -> bool {
    &&& texts.len() == pids.len()
    &&& forall|k: int| 0 <= k < pids.len() ==> #[trigger] h.file_text(proc_path_spec(pids[k] as int, "/stat"@), texts[k])
}

/// A Linux foreground answer: what the shell's `stat` text, as `h` answers
/// the read of `/proc/<shell_pid>/stat`, gives.
pub open spec fn linux_foreground<I: ProcessInspectorInternals>(h: I, shell_pid: i32, r: Option<i32>) -> bool {
    exists|t: Option<Seq<char>>| #[trigger] h.file_text(proc_path_spec(shell_pid as int, "/stat"@), t) && r == foreground_of_read(t)
}

/// The group id a `ps -o tpgid= -p <pid>` run printed, when it ran and printed one.
pub open spec fn tpgid_of_output(out: Option<Seq<char>>) -> Option<i32> {
    match out {
        Some(t) => match tpgid_text_spec(t) {
            Some(v) => Some(v as i32),
            None => None,
        },
        None => None,
    }
}

/// The arguments of the `ps` run that prints the terminal group of `pid`.
pub open spec fn ps_tpgid_args(pid: i32) -> Seq<Seq<char>> {
    seq!["-o"@, "tpgid="@, "-p"@, signed_decimal(pid as int)]
}

/// A macOS foreground answer: what `h`'s run of `ps -o tpgid= -p <shell_pid>` printed.
pub open spec fn mac_foreground<I: ProcessInspectorInternals>(h: I, shell_pid: i32, r: Option<i32>) -> bool {
    exists|out: Option<Seq<char>>|
        #[trigger] h.runs("/bin/ps"@, ps_tpgid_args(shell_pid), out)
            && r == tpgid_of_output(out)
}

/// A Linux stdin-wait answer: none without a syscall table; otherwise what the
/// numeric entries of `h`'s `/proc` listing answer, asked in listing order
/// until one waits.
pub open spec fn linux_waiting<I: ProcessInspectorInternals>(h: I, table: Option<SyscallTable>, pgid: i32, r: bool) -> bool {
    match table {
        None => !r,
        Some(t) => exists|listing: Option<Seq<Seq<char>>>| #[trigger] h.dir_names("/proc"@, listing)
            && members_answer(h, pgid, listed_pids(listing), t, r),
    }
}

/// A Linux process tree: the tree of `root_pid` in the table of the readable
/// stat records of the numeric entries of `h`'s `/proc` listing, each read
/// once, in listing order.
pub open spec fn linux_tree<I: ProcessInspectorInternals>(h: I, root_pid: i32, r: Seq<ProcessIdentity>) -> bool {
    exists|listing: Option<Seq<Seq<char>>>, texts: Seq<Option<Seq<char>>>, rows: Seq<ProcessTreeEntry>|
        #![trigger h.dir_names("/proc"@, listing), reads_stats(h, listed_pids(listing), texts), is_process_tree(rows, root_pid, r)]
        h.dir_names("/proc"@, listing) && reads_stats(h, listed_pids(listing), texts)
            && entry_views(rows) == tree_rows(stat_reads(listed_pids(listing), texts))
            && is_process_tree(rows, root_pid, r)
}

/// The arguments of the `ps` run that lists the process table.
pub open spec fn ps_table_args() -> Seq<Seq<char>> {
    seq!["-axo"@, "pid=,ppid=,lstart="@]
}

/// The table a `ps -axo pid=,ppid=,lstart=` run printed (empty when it failed).
pub open spec fn ps_table_of(out: Option<Seq<char>>) -> Seq<(int, int, Seq<char>)> {
    match out {
        Some(t) => ps_table_spec(t),
        None => Seq::empty(),
    }
}

/// `rows` is the table `h`'s run of `ps -axo pid=,ppid=,lstart=` describes.
pub open spec fn mac_table<I: ProcessInspectorInternals>(h: I, rows: Seq<ProcessTreeEntry>) -> bool {
    exists|out: Option<Seq<char>>| #[trigger] h.runs("/bin/ps"@, ps_table_args(), out) && entry_views(rows) == ps_table_of(out)
}

/// A macOS process tree: the tree of `root_pid` in the table `h`'s `ps` run describes.
pub open spec fn mac_tree<I: ProcessInspectorInternals>(h: I, root_pid: i32, r: Seq<ProcessIdentity>) -> bool {
    exists|rows: Seq<ProcessTreeEntry>| #[trigger] mac_table(h, rows) && is_process_tree(rows, root_pid, r)
}

/// A Linux session listing: the members of `session_id` among the readable
/// stat records of the numeric entries of `h`'s `/proc` listing, each read
/// once, in listing order.
pub open spec fn linux_session<I: ProcessInspectorInternals>(h: I, session_id: i32, r: Seq<ProcessIdentity>) -> bool {
    exists|listing: Option<Seq<Seq<char>>>, texts: Seq<Option<Seq<char>>>|
        #![trigger h.dir_names("/proc"@, listing), reads_stats(h, listed_pids(listing), texts)]
        h.dir_names("/proc"@, listing) && reads_stats(h, listed_pids(listing), texts)
            && identity_views(r) == session_members(stat_reads(listed_pids(listing), texts), session_id)
}

/// A Linux liveness answer: what the pid's `stat` text, as `h` answers the read, shows.
pub open spec fn linux_alive<I: ProcessInspectorInternals>(h: I, identity: (i32, Seq<char>), r: bool) -> bool {
    exists|t: Option<Seq<char>>| #[trigger] h.file_text(proc_path_spec(identity.0 as int, "/stat"@), t)
        && r == stat_shows_alive(identity, stat_of_read(t))
}

/// A macOS liveness answer: whether the table `h`'s `ps` run describes lists the identity.
pub open spec fn mac_alive<I: ProcessInspectorInternals>(h: I, identity: (i32, Seq<char>), r: bool) -> bool {
    exists|rows: Seq<ProcessTreeEntry>| #[trigger] mac_table(h, rows) && r == table_lists(rows, identity)
}

/// A Linux group-liveness answer: the decision over `h`'s `/proc` listing and
/// its answers to reading the `stat` file of each numeric entry, in listing order.
pub open spec fn linux_group_liveness<I: ProcessInspectorInternals>(h: I, pgid: i32, r: Option<bool>) -> bool {
    exists|listing: Option<Seq<Seq<char>>>, texts: Seq<Option<Seq<char>>>|
        #![trigger h.dir_names("/proc"@, listing), reads_stats(h, listed_pids(listing), texts)]
        h.dir_names("/proc"@, listing) && reads_stats(h, listed_pids(listing), texts)
            && r == group_liveness_of_reads(pgid, listing, texts)
}

fn numeric_entries<I: ProcessInspectorInternals>(internals: &I, path: &str) -> (r: Vec<i32>)
    ensures
        exists|listing: Option<Seq<Seq<char>>>| #[trigger] internals.dir_names(path@, listing) && r@ == listed_pids(listing),
{
    let answer = internals.read_dir(path);
    let ghost listing = listing_view(answer);
    match answer {
        Ok(entries) => {
            let r = numeric_pids(entries.as_slice());
            assert(internals.dir_names(path@, listing) && r@ == listed_pids(listing));
            r
        },
        Err(_) => {
            let r: Vec<i32> = Vec::new();
            assert(internals.dir_names(path@, listing) && r@ == listed_pids(listing));
            r
        },
    }
}

/// The text of one file read: `None` where the read failed.
pub open spec fn read_view(t: Option<String>) -> Option<Seq<char>> {
    match t {
        Some(t) => Some(t@),
        None => None,
    }
}

/// Texts read, one per file: `None` where the read failed.
pub open spec fn text_reads(v: Seq<Option<String>>) -> Seq<Option<Seq<char>>> {
    Seq::new(v.len(), |k: int| read_view(v[k]))
}

/// The stat record a read `stat` text holds, if it was read and parses.
pub open spec fn stat_of_read(text: Option<Seq<char>>) -> Option<ProcStatView> {
    match text {
        Some(t) => proc_stat_spec(t),
        None => None,
    }
}

/// `(pid, stat)` for each of `pids` whose `stat` text was read and parses, in order.
pub open spec fn stat_reads(pids: Seq<i32>, texts: Seq<Option<Seq<char>>>) -> Seq<(i32, ProcStatView)>
    decreases texts.len(),
{
    if texts.len() == 0 {
        Seq::empty()
    } else {
        let p = stat_reads(pids.drop_last(), texts.drop_last());
        match stat_of_read(texts.last()) {
            Some(st) => p.push((pids.last(), st)),
            None => p,
        }
    }
}

/// Process-table rows (pid, parent pid, start fence) of `(pid, stat)` reads.
pub open spec fn tree_rows(reads: Seq<(i32, ProcStatView)>) -> Seq<(int, int, Seq<char>)> {
    Seq::new(reads.len(), |k: int| (reads[k].0 as int, reads[k].1.parent_pid as int, reads[k].1.started))
}

/// The foreground group a shell's read `stat` text names: its positive `tpgid`.
pub open spec fn foreground_of_read(text: Option<Seq<char>>) -> Option<i32> {
    match stat_of_read(text) {
        Some(st) => if st.tpgid > 0 { Some(st.tpgid) } else { None },
        None => None,
    }
}

/// The decision of the Linux `foreground_pgid` over the shell's `stat` text
/// (`None` when the read failed).
pub fn foreground_from_read(stat_text: &Option<String>) -> (r: Option<i32>)
    ensures
        r == foreground_of_read(read_view(*stat_text)),
{
    match stat_text {
        Some(text) => match parse_proc_stat(text.as_str()) {
            Some(stat) => if stat.tpgid > 0 { Some(stat.tpgid) } else { None },
            None => None,
        },
        None => None,
    }
}

/// The decision of the Linux `is_alive` over the pid's `stat` text (`None`
/// when the read failed).
pub fn alive_from_read(identity: &ProcessIdentity, stat_text: &Option<String>) -> (r: bool)
    ensures
        r == stat_shows_alive(identity.view(), stat_of_read(read_view(*stat_text))),
{
    let stat = match stat_text {
        Some(text) => parse_proc_stat(text.as_str()),
        None => None,
    };
    alive_by_stat(identity, &stat)
}

proof fn lemma_stat_reads_step(pids: Seq<i32>, texts: Seq<Option<Seq<char>>>, i: int)
    requires
        0 <= i < texts.len(),
        pids.len() == texts.len(),
    ensures
        stat_reads(pids.take(i + 1), texts.take(i + 1)) == match stat_of_read(texts[i]) {
            Some(st) => stat_reads(pids.take(i), texts.take(i)).push((pids[i], st)),
            None => stat_reads(pids.take(i), texts.take(i)),
        },
{
    assert(pids.take(i + 1).drop_last() =~= pids.take(i));
    assert(texts.take(i + 1).drop_last() =~= texts.take(i));
}

/// The decision of the Linux `process_session` over what it read: for each of
/// `pids` in listing order, its `stat` text (`None` when the read failed). The
/// members are the readable records of session `session_id`, in that order.
pub fn session_from_reads(session_id: i32, pids: &[i32], stat_texts: &[Option<String>]) -> (r: Vec<ProcessIdentity>)
    requires
        pids@.len() == stat_texts@.len(),
    ensures
        identity_views(r@) == session_members(stat_reads(pids@, text_reads(stat_texts@)), session_id),
{
    let ghost texts = text_reads(stat_texts@);
    let mut members: Vec<ProcessIdentity> = Vec::new();
    let mut i: usize = 0;
    while i < pids.len()
        invariant
            0 <= i <= pids@.len(),
            pids@.len() == stat_texts@.len(),
            texts == text_reads(stat_texts@),
            identity_views(members@) == session_members(stat_reads(pids@.take(i as int), texts.take(i as int)), session_id),
        decreases pids.len() - i,
    {
        proof {
            lemma_stat_reads_step(pids@, texts, i as int);
        }
        let ghost before = members@;
        let ghost prev = stat_reads(pids@.take(i as int), texts.take(i as int));
        match &stat_texts[i] {
            Some(text) => match parse_proc_stat(text.as_str()) {
                Some(stat) => {
                    let ghost read = (pids@[i as int], stat.view());
                    assert(prev.push(read).drop_last() =~= prev);
                    if stat.session == session_id {
                        members.push(ProcessIdentity { pid: pids[i], started: stat.started });
                        assert(identity_views(members@) =~= identity_views(before).push((read.0, read.1.started)));
                    }
                },
                None => {},
            },
            None => {},
        }
        i = i + 1;
    }
    assert(pids@.take(pids@.len() as int) =~= pids@);
    assert(texts.take(texts.len() as int) =~= texts);
    members
}

/// The decision of the Linux `process_tree` over what it read: for each of
/// `pids` in listing order, its `stat` text (`None` when the read failed). The
/// result is the tree of `root_pid` in the table of the readable records.
pub fn tree_from_reads(root_pid: i32, pids: &[i32], stat_texts: &[Option<String>]) -> (r: Vec<ProcessIdentity>)
    requires
        pids@.len() == stat_texts@.len(),
    ensures
        exists|rows: Seq<ProcessTreeEntry>| entry_views(rows) == tree_rows(stat_reads(pids@, text_reads(stat_texts@)))
            && #[trigger] is_process_tree(rows, root_pid, r@),
{
    let ghost texts = text_reads(stat_texts@);
    let mut entries: Vec<ProcessTreeEntry> = Vec::new();
    let mut i: usize = 0;
    while i < pids.len()
        invariant
            0 <= i <= pids@.len(),
            pids@.len() == stat_texts@.len(),
            texts == text_reads(stat_texts@),
            entry_views(entries@) == tree_rows(stat_reads(pids@.take(i as int), texts.take(i as int))),
        decreases pids.len() - i,
    {
        proof {
            lemma_stat_reads_step(pids@, texts, i as int);
        }
        let ghost before = entries@;
        let ghost prev = stat_reads(pids@.take(i as int), texts.take(i as int));
        match &stat_texts[i] {
            Some(text) => match parse_proc_stat(text.as_str()) {
                Some(stat) => {
                    let ghost read = (pids@[i as int], stat.view());
                    entries.push(ProcessTreeEntry { pid: pids[i], parent_pid: stat.parent_pid, started: stat.started });
                    proof {
                        let grown = prev.push(read);
                        assert(entry_views(before).len() == before.len());
                        assert(tree_rows(prev).len() == prev.len());
                        assert(before.len() == prev.len());
                        assert forall|k: int| 0 <= k < entries@.len() implies #[trigger] entry_views(entries@)[k] == tree_rows(grown)[k] by {
                            if k < before.len() {
                                assert(entries@[k] == before[k]);
                                assert(grown[k] == prev[k]);
                                assert(entry_views(before)[k] == tree_rows(prev)[k]);
                            }
                        }
                        assert(entry_views(entries@) =~= tree_rows(grown));
                    }
                },
                None => {},
            },
            None => {},
        }
        i = i + 1;
    }
    assert(pids@.take(pids@.len() as int) =~= pids@);
    assert(texts.take(texts.len() as int) =~= texts);
    let r = process_tree(entries.as_slice(), root_pid);
    assert(is_process_tree(entries@, root_pid, r@));
    r
}

/// Reads `/proc/<pid>/stat`; `None` when the read fails.
fn read_stat_text<I: ProcessInspectorInternals>(internals: &I, pid: i32) -> (r: Option<String>)
    ensures
        internals.file_text(proc_path_spec(pid as int, "/stat"@), read_view(r)),
{
    let path = proc_path(pid as i64, "/stat");
    let answer = internals.read_file(path.as_str());
    let ghost t = text_view(answer);
    match answer {
        Ok(text) => Some(text),
        Err(_) => None,
    }
}

/// Reads the `stat` text of each of `pids`, in order.
fn read_stat_texts<I: ProcessInspectorInternals>(internals: &I, pids: &[i32]) -> (r: Vec<Option<String>>)
    ensures
        reads_stats(*internals, pids@, text_reads(r@)),
{
    let mut texts: Vec<Option<String>> = Vec::new();
    let mut i: usize = 0;
    while i < pids.len()
        invariant
            0 <= i <= pids@.len(),
            texts@.len() == i,
            forall|k: int| 0 <= k < i ==> #[trigger] internals.file_text(proc_path_spec(pids@[k] as int, "/stat"@), read_view(texts@[k])),
        decreases pids.len() - i,
    {
        let t = read_stat_text(internals, pids[i]);
        texts.push(t);
        i = i + 1;
    }
    assert forall|k: int| 0 <= k < pids@.len() implies #[trigger] internals.file_text(proc_path_spec(pids@[k] as int, "/stat"@), text_reads(texts@)[k]) by {
        assert(text_reads(texts@)[k] == read_view(texts@[k]));
    }
    texts
}

/// The stat records that the readable, parseable texts among `texts` hold, in order.
pub open spec fn readable_stats(texts: Seq<Option<Seq<char>>>) -> Seq<ProcStatView>
    decreases texts.len(),
{
    if texts.len() == 0 {
        Seq::empty()
    } else {
        let p = readable_stats(texts.drop_last());
        match texts.last() {
            Some(t) => match proc_stat_spec(t) {
                Some(st) => p.push(st),
                None => p,
            },
            None => p,
        }
    }
}

/// Group liveness from a `/proc` listing and the stat texts of its numeric
/// entries: `None` when the listing failed, otherwise [`group_liveness`] over
/// the stat records of the texts that were read and parse.
pub open spec fn group_liveness_of_reads(
    pgid: i32,
    listing: Option<Seq<Seq<char>>>,
    texts: Seq<Option<Seq<char>>>,
) -> Option<bool> {
    match listing {
        None => None,
        Some(_) => group_liveness(pgid, readable_stats(texts)),
    }
}

/// The decision of [`linux_process_group_has_live_members`] over what it read:
/// the `/proc` listing (`None` when it failed) and, for each numeric entry in
/// listing order, the text of its `stat` file (`None` when that read failed).
pub fn group_liveness_from_reads(process_group_id: i32, listing: Option<&[String]>, stat_texts: &[Option<String>])
    -> (r: Option<bool>)
    requires
        listing matches Some(names) ==> stat_texts@.len() == pids_of_names(strings_view(names@)).len(),
    ensures
        r == group_liveness_of_reads(
            process_group_id,
            match listing {
                Some(names) => Some(strings_view(names@)),
                None => None,
            },
            text_reads(stat_texts@),
        ),
{
    if listing.is_none() {
        return None;
    }
    let mut stats: Vec<ProcStat> = Vec::new();
    let mut i: usize = 0;
    while i < stat_texts.len()
        invariant
            0 <= i <= stat_texts.len(),
            stats_view(stats@) == readable_stats(text_reads(stat_texts@).take(i as int)),
        decreases stat_texts.len() - i,
    {
        let ghost before = stats_view(stats@);
        let ghost prefix = text_reads(stat_texts@).take(i as int + 1);
        assert(prefix.drop_last() =~= text_reads(stat_texts@).take(i as int));
        match &stat_texts[i] {
            Some(text) => {
                match parse_proc_stat(text.as_str()) {
                    Some(stat) => {
                        stats.push(stat);
                        assert(stats_view(stats@) =~= before.push(stat.view()));
                    },
                    None => {},
                }
            },
            None => {},
        }
        i = i + 1;
    }
    assert(text_reads(stat_texts@).take(stat_texts@.len() as int) =~= text_reads(stat_texts@));
    group_has_live_members(process_group_id, stats.as_slice())
}

/// Report whether a Linux process group has an executing member: `Some(false)`
/// when only zombie or dead entries match, `None` when `/proc` is unreadable or
/// no readable stat matches. It lists `/proc`, reads the `stat` file of each
/// numeric entry in listing order, and decides by [`group_liveness_from_reads`].
pub fn linux_process_group_has_live_members<I: ProcessInspectorInternals>(process_group_id: i32, internals: &I)
    -> (r: Option<bool>)
    ensures
        linux_group_liveness(*internals, process_group_id, r),
{
    let answer = internals.read_dir("/proc");
    let ghost listing = listing_view(answer);
    let entries = match answer {
        Ok(entries) => entries,
        Err(_) => {
            let texts: Vec<Option<String>> = Vec::new();
            let r = group_liveness_from_reads(process_group_id, None, texts.as_slice());
            assert(reads_stats(*internals, listed_pids(listing), text_reads(texts@)));
            assert(internals.dir_names("/proc"@, listing));
            return r;
        },
    };
    let pids = numeric_pids(entries.as_slice());
    let texts = read_stat_texts(internals, pids.as_slice());
    let r = group_liveness_from_reads(process_group_id, Some(entries.as_slice()), texts.as_slice());
    assert(listing == Some(strings_view(entries@)));
    assert(reads_stats(*internals, listed_pids(listing), text_reads(texts@)));
    assert(internals.dir_names("/proc"@, listing));
    r
}

/// The bytes read of a `pollfd` array of `count` entries: at most 1024 entries of 8 bytes.
pub open spec fn poll_bytes(count: i64) -> nat {
    (8 * (if count < 1024 { count as int } else { 1024 })) as nat
}

/// The bytes of an optional buffer.
pub open spec fn bytes_view(m: Option<Vec<u8>>) -> Option<Seq<u8>> {
    match m {
        Some(v) => Some(v@),
        None => None,
    }
}

/// The bytes a positioned read kept: the buffer cut to the count read.
pub open spec fn kept_bytes(buf: Seq<u8>, n: nat) -> Seq<u8> {
    if n <= buf.len() { buf.subrange(0, n as int) } else { buf }
}

/// `m` is what reading `len` bytes of `/proc/<pid>/mem` at `address` through
/// `h` gives: `None` when the open or the read failed.
pub open spec fn mem_answer<I: ProcessInspectorInternals>(h: I, pid: i32, address: i64, len: nat, m: Option<Seq<u8>>) -> bool {
    exists|fd: Option<i32>| #[trigger] h.opens(proc_path_spec(pid as int, "/mem"@), fd) && match fd {
        None => m is None,
        Some(f) => exists|rr: Option<(nat, Seq<u8>)>| #[trigger] h.reads_at(f, address as u64, len, rr) && m == match rr {
            Some(got) => Some(kept_bytes(got.1, got.0)),
            None => None,
        },
    }
}

/// An `fd_set` whose first byte has bit 0 (fd 0) set.
pub open spec fn fd_set_spec(m: Seq<u8>) -> bool {
    m.len() > 0 && m[0] % 2 == 1
}

/// A `pollfd` array with an entry for fd 0 asking for input.
pub open spec fn poll_spec(m: Seq<u8>) -> bool {
    exists|k: int| poll_entry_is_stdin(m, k)
}

/// An epoll fdinfo text with a `tfd: 0` line.
pub open spec fn fdinfo_spec(t: Seq<char>) -> bool {
    exists|k: int| 0 <= k < split_on(t, '\n').len() && tfd_line_is_stdin(#[trigger] split_on(t, '\n')[k])
}

/// `/proc/<pid>/fdinfo/<fd>`.
pub open spec fn fdinfo_path(pid: i32, fd: i64) -> Seq<char> {
    proc_path_spec(pid as int, "/fdinfo/"@) + signed_decimal(fd as int)
}

/// `/proc/<pid>/task/<tid>/syscall`.
pub open spec fn syscall_path(pid: i32, tid: i32) -> Seq<char> {
    proc_path_spec(pid as int, "/task/"@) + signed_decimal(tid as int) + "/syscall"@
}

/// `b` is what the probe of syscall `number` with `args` of task `pid`
/// answers through `h`: a decided probe its answer; a memory probe the bytes
/// read at a non-null address (none read: no wait); an epoll probe the fdinfo
/// text of its descriptor.
pub open spec fn probe_answer<I: ProcessInspectorInternals>(h: I, pid: i32, number: i64, args: Seq<i64>, table: SyscallTable, b: bool) -> bool {
    match probe_spec(number, args, table) {
        StdinProbe::Decided(x) => b == x,
        StdinProbe::FdSet(a) => if a == 0 {
            !b
        } else {
            exists|m: Option<Seq<u8>>| #[trigger] mem_answer(h, pid, a, 8, m) && b == (m matches Some(bytes) && fd_set_spec(bytes))
        },
        StdinProbe::Poll(a, c) => if a == 0 || c <= 0 {
            !b
        } else {
            exists|m: Option<Seq<u8>>| #[trigger] mem_answer(h, pid, a, poll_bytes(c), m)
                && b == (m matches Some(bytes) && poll_spec(bytes))
        },
        StdinProbe::Epoll(e) => exists|t: Option<Seq<char>>| #[trigger] h.file_text(fdinfo_path(pid, e), t)
            && b == (t matches Some(x) && fdinfo_spec(x)),
    }
}

/// The syscall a read `syscall` text records, if it was read and parses.
pub open spec fn syscall_of_read(t: Option<Seq<char>>) -> Option<(i64, Seq<i64>)> {
    match t {
        Some(x) => match syscall_spec(x) {
            Some(info) => Some((info.0 as i64, Seq::new(info.1.len(), |k: int| info.1[k] as i64))),
            None => None,
        },
        None => None,
    }
}

/// `b` is what task `tid` of `pid` answers through `h`: whether its current
/// syscall, as read, waits on stdin.
pub open spec fn task_answer<I: ProcessInspectorInternals>(h: I, pid: i32, tid: i32, table: SyscallTable, b: bool) -> bool {
    exists|t: Option<Seq<char>>| #[trigger] h.file_text(syscall_path(pid, tid), t) && match syscall_of_read(t) {
        Some(info) => probe_answer(h, pid, info.0, info.1, table, b),
        None => !b,
    }
}

/// `b` is what the tasks `tids` of `pid` answer, asked in order until one waits.
pub open spec fn tasks_answer<I: ProcessInspectorInternals>(h: I, pid: i32, tids: Seq<i32>, table: SyscallTable, b: bool) -> bool
    decreases tids.len(),
{
    if tids.len() == 0 {
        !b
    } else {
        exists|b0: bool| #[trigger] task_answer(h, pid, tids[0], table, b0) && if b0 {
            b
        } else {
            tasks_answer(h, pid, tids.drop_first(), table, b)
        }
    }
}

/// `b` is what process `pid` answers through `h`: when its stat record, as
/// read, puts it in group `pgid`, what its tasks answer; otherwise no wait.
pub open spec fn member_answer<I: ProcessInspectorInternals>(h: I, pgid: i32, pid: i32, table: SyscallTable, b: bool) -> bool {
    exists|t: Option<Seq<char>>| #[trigger] h.file_text(proc_path_spec(pid as int, "/stat"@), t) && match stat_of_read(t) {
        Some(st) => if st.pgrp == pgid {
            exists|tl: Option<Seq<Seq<char>>>| #[trigger] h.dir_names(proc_path_spec(pid as int, "/task"@), tl)
                && tasks_answer(h, pid, listed_pids(tl), table, b)
        } else {
            !b
        },
        None => !b,
    }
}

/// `b` is what the processes `pids` answer, asked in order until one waits.
pub open spec fn members_answer<I: ProcessInspectorInternals>(h: I, pgid: i32, pids: Seq<i32>, table: SyscallTable, b: bool) -> bool
    decreases pids.len(),
{
    if pids.len() == 0 {
        !b
    } else {
        exists|b0: bool| #[trigger] member_answer(h, pgid, pids[0], table, b0) && if b0 {
            b
        } else {
            members_answer(h, pgid, pids.drop_first(), table, b)
        }
    }
}

fn read_memory<I: ProcessInspectorInternals>(internals: &I, pid: i32, address: i64, length: usize) -> (r: Option<Vec<u8>>)
    ensures
        mem_answer(*internals, pid, address, length as nat, bytes_view(r)),
{
    let path = proc_path(pid as i64, "/mem");
    let opened = internals.open(path.as_str());
    let ghost fdv: Option<i32> = match opened {
        Ok(fd) => Some(fd),
        Err(_) => None,
    };
    let fd = match opened {
        Ok(fd) => fd,
        Err(_) => {
            assert(internals.opens(proc_path_spec(pid as int, "/mem"@), fdv));
            return None;
        },
    };
    let mut buffer: Vec<u8> = vec![0u8; length];
    assert(buffer@.len() == length);
    let result = internals.read(fd, buffer.as_mut_slice(), address as u64);
    let ghost rr: Option<(nat, Seq<u8>)> = match result {
        Ok(n) => Some((n as nat, buffer@)),
        Err(_) => None,
    };
    internals.close(fd);
    let r = match result {
        Ok(count) => {
            buffer.truncate(count);
            Some(buffer)
        },
        Err(_) => None,
    };
    proof {
        let h = *internals;
        let mv = bytes_view(r);
        assert(h.opens(proc_path_spec(pid as int, "/mem"@), fdv));
        assert(h.reads_at(fd, address as u64, length as nat, rr));
        assert(fdv is Some && fdv->0 == fd);
        assert(mv == match rr {
            Some(got) => Some(kept_bytes(got.1, got.0)),
            None => None,
        });
        assert(mem_answer(h, pid, address, length as nat, mv));
    }
    r
}

fn fd_set_has_stdin<I: ProcessInspectorInternals>(internals: &I, pid: i32, address: i64) -> (r: bool)
    requires
        address != 0,
    ensures
        exists|m: Option<Seq<u8>>| #[trigger] mem_answer(*internals, pid, address, 8, m) && r == (m matches Some(bytes) && fd_set_spec(bytes)),
{
    let memory = read_memory(internals, pid, address, 8);
    let ghost mv = bytes_view(memory);
    let r = match memory {
        Some(memory) => fd_set_has_fd0(memory.as_slice()),
        None => false,
    };
    assert(mem_answer(*internals, pid, address, 8, mv) && r == (mv matches Some(bytes) && fd_set_spec(bytes)));
    r
}

fn poll_has_stdin<I: ProcessInspectorInternals>(internals: &I, pid: i32, address: i64, count: i64) -> (r: bool)
    requires
        address != 0,
        count > 0,
    ensures
        exists|m: Option<Seq<u8>>| #[trigger] mem_answer(*internals, pid, address, poll_bytes(count), m)
            && r == (m matches Some(bytes) && poll_spec(bytes)),
{
    let length = poll_read_length(count);
    let memory = read_memory(internals, pid, address, length);
    let ghost mv = bytes_view(memory);
    let r = match memory {
        Some(memory) => poll_array_has_stdin(memory.as_slice()),
        None => false,
    };
    assert(length as nat == poll_bytes(count));
    assert(mem_answer(*internals, pid, address, length as nat, mv) && r == (mv matches Some(bytes) && poll_spec(bytes)));
    r
}

fn epoll_has_stdin<I: ProcessInspectorInternals>(internals: &I, pid: i32, epfd: i64) -> (r: bool)
    ensures
        exists|t: Option<Seq<char>>| #[trigger] internals.file_text(fdinfo_path(pid, epfd), t)
            && r == (t matches Some(x) && fdinfo_spec(x)),
{
    let mut path = proc_path(pid as i64, "/fdinfo/");
    push_i64(&mut path, epfd);
    let answer = internals.read_file(path.as_str());
    let ghost t = text_view(answer);
    let r = match answer {
        Ok(text) => fdinfo_has_stdin(text.as_str()),
        Err(_) => false,
    };
    assert(path@ == fdinfo_path(pid, epfd));
    assert(internals.file_text(fdinfo_path(pid, epfd), t) && r == (t matches Some(x) && fdinfo_spec(x)));
    r
}

fn syscall_waits_on_stdin<I: ProcessInspectorInternals>(internals: &I, pid: i32, syscall: &SyscallInfo, table: SyscallTable)
    -> (r: bool)
    ensures
        probe_answer(*internals, pid, syscall.number, syscall.args@, table, r),
{
    match stdin_probe(syscall, table) {
        StdinProbe::Decided(b) => b,
        StdinProbe::FdSet(address) => if address == 0 { false } else { fd_set_has_stdin(internals, pid, address) },
        StdinProbe::Poll(address, count) => if address == 0 || count <= 0 {
            false
        } else {
            poll_has_stdin(internals, pid, address, count)
        },
        StdinProbe::Epoll(epfd) => epoll_has_stdin(internals, pid, epfd),
    }
}

fn read_syscall<I: ProcessInspectorInternals>(internals: &I, pid: i32, tid: i32) -> (r: Option<SyscallInfo>)
    ensures
        exists|t: Option<Seq<char>>| #[trigger] internals.file_text(syscall_path(pid, tid), t) && match r {
            Some(info) => syscall_of_read(t) == Some((info.number, info.args@)),
            None => syscall_of_read(t) is None,
        },
{
    let mut path = proc_path(pid as i64, "/task/");
    push_i64(&mut path, tid as i64);
    push_str(&mut path, "/syscall");
    let answer = internals.read_file(path.as_str());
    let ghost t = text_view(answer);
    assert(path@ == syscall_path(pid, tid));
    let r = match answer {
        Ok(text) => {
            let r = parse_syscall(text.as_str());
            proof {
                if r is Some {
                    let info = r->0;
                    let sp = syscall_spec(text@)->0;
                    assert(Seq::new(sp.1.len(), |k: int| sp.1[k] as i64) =~= info.args@);
                }
            }
            r
        },
        Err(_) => None,
    };
    assert(internals.file_text(syscall_path(pid, tid), t));
    r
}

fn task_waits<I: ProcessInspectorInternals>(internals: &I, pid: i32, tid: i32, table: SyscallTable) -> (r: bool)
    ensures
        task_answer(*internals, pid, tid, table, r),
{
    let syscall = read_syscall(internals, pid, tid);
    let ghost t = choose|t: Option<Seq<char>>| #[trigger] internals.file_text(syscall_path(pid, tid), t) && match syscall {
        Some(info) => syscall_of_read(t) == Some((info.number, info.args@)),
        None => syscall_of_read(t) is None,
    };
    let r = match &syscall {
        Some(info) => syscall_waits_on_stdin(internals, pid, info, table),
        None => false,
    };
    assert(internals.file_text(syscall_path(pid, tid), t));
    r
}

fn tasks_wait<I: ProcessInspectorInternals>(internals: &I, pid: i32, tids: &[i32], table: SyscallTable) -> (r: bool)
    ensures
        tasks_answer(*internals, pid, tids@, table, r),
{
    let ghost h = *internals;
    assert(tids@.skip(0) =~= tids@);
    let mut j: usize = 0;
    while j < tids.len()
        invariant
            0 <= j <= tids@.len(),
            h == *internals,
            tasks_answer(h, pid, tids@.skip(j as int), table, true) ==> tasks_answer(h, pid, tids@, table, true),
            tasks_answer(h, pid, tids@.skip(j as int), table, false) ==> tasks_answer(h, pid, tids@, table, false),
        decreases tids.len() - j,
    {
        let b0 = task_waits(internals, pid, tids[j], table);
        let ghost rest = tids@.skip(j as int);
        assert(rest[0] == tids@[j as int]);
        assert(rest.drop_first() =~= tids@.skip(j + 1));
        if b0 {
            assert(tasks_answer(h, pid, rest, table, true));
            return true;
        }
        assert forall|b: bool| tasks_answer(h, pid, tids@.skip(j + 1), table, b) implies #[trigger] tasks_answer(h, pid, rest, table, b) by {
            assert(task_answer(h, pid, rest[0], table, false));
        }
        j = j + 1;
    }
    assert(tids@.skip(j as int).len() == 0);
    false
}

fn member_waits<I: ProcessInspectorInternals>(internals: &I, pgid: i32, pid: i32, table: SyscallTable) -> (r: bool)
    ensures
        member_answer(*internals, pgid, pid, table, r),
{
    let text = read_stat_text(internals, pid);
    let stat = match &text {
        Some(t) => parse_proc_stat(t.as_str()),
        None => None,
    };
    assert(internals.file_text(proc_path_spec(pid as int, "/stat"@), read_view(text)));
    match stat {
        Some(stat) => {
            if stat.pgrp == pgid {
                let task_dir = proc_path(pid as i64, "/task");
                let tids = numeric_entries(internals, task_dir.as_str());
                let r = tasks_wait(internals, pid, tids.as_slice(), table);
                proof {
                    let tl = choose|tl: Option<Seq<Seq<char>>>| #[trigger] internals.dir_names(task_dir@, tl) && tids@ == listed_pids(tl);
                    assert(internals.dir_names(proc_path_spec(pid as int, "/task"@), tl) && tasks_answer(*internals, pid, listed_pids(tl), table, r));
                }
                r
            } else {
                false
            }
        },
        None => false,
    }
}

fn members_wait<I: ProcessInspectorInternals>(internals: &I, pgid: i32, pids: &[i32], table: SyscallTable) -> (r: bool)
    ensures
        members_answer(*internals, pgid, pids@, table, r),
{
    let ghost h = *internals;
    assert(pids@.skip(0) =~= pids@);
    let mut i: usize = 0;
    while i < pids.len()
        invariant
            0 <= i <= pids@.len(),
            h == *internals,
            members_answer(h, pgid, pids@.skip(i as int), table, true) ==> members_answer(h, pgid, pids@, table, true),
            members_answer(h, pgid, pids@.skip(i as int), table, false) ==> members_answer(h, pgid, pids@, table, false),
        decreases pids.len() - i,
    {
        let b0 = member_waits(internals, pgid, pids[i], table);
        let ghost rest = pids@.skip(i as int);
        assert(rest[0] == pids@[i as int]);
        assert(rest.drop_first() =~= pids@.skip(i + 1));
        if b0 {
            assert(members_answer(h, pgid, rest, table, true));
            return true;
        }
        assert forall|b: bool| members_answer(h, pgid, pids@.skip(i + 1), table, b) implies #[trigger] members_answer(h, pgid, rest, table, b) by {
            assert(member_answer(h, pgid, rest[0], table, false));
        }
        i = i + 1;
    }
    assert(pids@.skip(i as int).len() == 0);
    false
}

/// Whether a stat record shows `identity` still executing: same start fence
/// and not quiescent.
pub open spec fn stat_shows_alive(identity: (i32, Seq<char>), stat: Option<ProcStatView>) -> bool {
    match stat {
        Some(s) => s.started == identity.1 && !is_quiescent(s.state),
        None => false,
    }
}

/// Whether the stat record read for an identity's pid shows it alive.
pub fn alive_by_stat(identity: &ProcessIdentity, stat: &Option<ProcStat>) -> (r: bool)
    ensures
        r == stat_shows_alive(identity.view(), match stat { Some(s) => Some(s.view()), None => None }),
{
    match stat {
        Some(s) => s.started == identity.started && !is_quiescent_state(s.state),
        None => false,
    }
}

/// Whether a `ps` table lists `identity` with the same start fence.
pub open spec fn table_lists(rows: Seq<ProcessTreeEntry>, identity: (i32, Seq<char>)) -> bool {
    exists|k: int| 0 <= k < rows.len() && #[trigger] rows[k].pid == identity.0 && rows[k].started@ == identity.1
}

/// Whether a `ps` table lists `identity`.
pub fn table_has_identity(rows: &[ProcessTreeEntry], identity: &ProcessIdentity) -> (r: bool)
    ensures
        r == table_lists(rows@, identity.view()),
{
    let mut i: usize = 0;
    while i < rows.len()
        invariant
            0 <= i <= rows.len(),
            forall|k: int| 0 <= k < i ==> !(#[trigger] rows@[k].pid == identity.view().0 && rows@[k].started@ == identity.view().1),
        decreases rows.len() - i,
    {
        if rows[i].pid == identity.pid && rows[i].started == identity.started {
            assert(rows@[i as int].pid == identity.view().0);
            return true;
        }
        i = i + 1;
    }
    false
}

/// Linux inspector over `/proc`, with the stdin-wait syscall table of its architecture.
pub struct LinuxProcessInspector<I: ProcessInspectorInternals> {
    table: Option<SyscallTable>,
    internals: Arc<I>,
}

impl<I: ProcessInspectorInternals> ProcessInspector for LinuxProcessInspector<I> {
    fn foreground_pgid(&self, shell_pid: i32) -> (r: Option<i32>)
        ensures
            r matches Some(t) ==> t > 0,
            linux_foreground(self.host(), shell_pid, r),
    {
        let text = read_stat_text(&*self.internals, shell_pid);
        let r = foreground_from_read(&text);
        assert(self.host().file_text(proc_path_spec(shell_pid as int, "/stat"@), read_view(text)) && r == foreground_of_read(read_view(text)));
        r
    }

    fn is_stdin_waiting(&self, pgid: i32) -> (r: bool)
        ensures
            self.table_view() is None ==> !r,
            linux_waiting(self.host(), self.table_view(), pgid, r),
    {
        let table = match self.table {
            Some(t) => t,
            None => return false,
        };
        let internals: &I = &*self.internals;
        let pids = numeric_entries(internals, "/proc");
        let r = members_wait(internals, pgid, pids.as_slice(), table);
        proof {
            let listing = choose|listing: Option<Seq<Seq<char>>>| #[trigger] internals.dir_names("/proc"@, listing) && pids@ == listed_pids(listing);
            assert(internals.dir_names("/proc"@, listing) && members_answer(*internals, pgid, listed_pids(listing), table, r));
        }
        r
    }

    fn process_tree(&self, root_pid: i32) -> (r: Vec<ProcessIdentity>)
        ensures
            linux_tree(self.host(), root_pid, r@),
    {
        let internals: &I = &*self.internals;
        let answer = internals.read_dir("/proc");
        let ghost listing = listing_view(answer);
        let pids = match answer {
            Ok(entries) => numeric_pids(entries.as_slice()),
            Err(_) => Vec::new(),
        };
        assert(pids@ == listed_pids(listing));
        let texts = read_stat_texts(internals, pids.as_slice());
        let r = tree_from_reads(root_pid, pids.as_slice(), texts.as_slice());
        proof {
            let rows = choose|rows: Seq<ProcessTreeEntry>| entry_views(rows) == tree_rows(stat_reads(pids@, text_reads(texts@)))
                && #[trigger] is_process_tree(rows, root_pid, r@);
            assert(internals.dir_names("/proc"@, listing) && reads_stats(*internals, listed_pids(listing), text_reads(texts@))
                && is_process_tree(rows, root_pid, r@));
        }
        r
    }

    fn process_session(&self, session_id: i32) -> (r: Vec<ProcessIdentity>)
        ensures
            linux_session(self.host(), session_id, r@),
    {
        let internals: &I = &*self.internals;
        let answer = internals.read_dir("/proc");
        let ghost listing = listing_view(answer);
        let pids = match answer {
            Ok(entries) => numeric_pids(entries.as_slice()),
            Err(_) => Vec::new(),
        };
        assert(pids@ == listed_pids(listing));
        let texts = read_stat_texts(internals, pids.as_slice());
        let r = session_from_reads(session_id, pids.as_slice(), texts.as_slice());
        assert(internals.dir_names("/proc"@, listing) && reads_stats(*internals, listed_pids(listing), text_reads(texts@)));
        r
    }

    fn is_alive(&self, identity: &ProcessIdentity) -> (r: bool)
        ensures
            linux_alive(self.host(), identity.view(), r),
    {
        let text = read_stat_text(&*self.internals, identity.pid);
        let r = alive_from_read(identity, &text);
        assert(self.host().file_text(proc_path_spec(identity.view().0 as int, "/stat"@), read_view(text))
            && r == stat_shows_alive(identity.view(), stat_of_read(read_view(text))));
        r
    }

    fn signal_group(&self, pgid: i32, signal: SubprocessTerminalSignal) {
        self.internals.kill(-pgid, terminal_signal_name(signal));
    }

    fn signal_process(&self, identity: &ProcessIdentity, signal: TermKill) {
        if self.is_alive(identity) {
            self.internals.kill(identity.pid, term_kill_name(signal));
        }
    }
}

fn mac_process_table<I: ProcessInspectorInternals>(internals: &I) -> (r: Vec<ProcessTreeEntry>)
    ensures
        mac_table(*internals, r@),
{
    let mut args: Vec<&str> = Vec::new();
    args.push("-axo");
    args.push("pid=,ppid=,lstart=");
    let answer = internals.exec("/bin/ps", args.as_slice());
    let ghost out = text_view(answer);
    proof {
        assert(arg_views(args@) =~= ps_table_args());
    }
    let text = match answer {
        Ok(text) => text,
        Err(_) => {
            let r: Vec<ProcessTreeEntry> = Vec::new();
            assert(entry_views(r@) =~= ps_table_of(out));
            assert(internals.runs("/bin/ps"@, ps_table_args(), out));
            return r;
        },
    };
    let t = chars_of(text.as_str());
    let lines = split_char(t.as_slice(), '\n');
    let ghost ls = split_on(text@, '\n');
    let mut rows: Vec<ProcessTreeEntry> = Vec::new();
    let mut i: usize = 0;
    while i < lines.len()
        invariant
            0 <= i <= lines.len(),
            views(lines@) == ls,
            entry_views(rows@) == ps_rows_spec(ls.take(i as int)),
        decreases lines.len() - i,
    {
        assert(ls.take(i + 1).drop_last() =~= ls.take(i as int));
        assert(ls[i as int] == lines@[i as int]@);
        let line = string_from_chars(lines[i].as_slice());
        let ghost before = rows@;
        match parse_ps_line(line.as_str()) {
            Some(row) => {
                rows.push(row);
                assert(entry_views(rows@) =~= entry_views(before).push((row.pid as int, row.parent_pid as int, row.started@)));
            },
            None => {},
        }
        i = i + 1;
    }
    assert(ls.take(lines.len() as int) =~= ls);
    assert(entry_views(rows@) == ps_table_of(out));
    assert(internals.runs("/bin/ps"@, ps_table_args(), out));
    rows
}

/// macOS inspector over `ps`; it never reports a stdin wait.
pub struct MacProcessInspector<I: ProcessInspectorInternals> {
    internals: Arc<I>,
}

impl<I: ProcessInspectorInternals> MacProcessInspector<I> {
    /// The process-table operations the inspector uses.
    pub closed spec fn host(&self) -> I {
        *self.internals
    }
}

impl<I: ProcessInspectorInternals> ProcessInspector for MacProcessInspector<I> {
    fn foreground_pgid(&self, shell_pid: i32) -> (r: Option<i32>)
        ensures
            r matches Some(t) ==> t > 0,
            mac_foreground(self.host(), shell_pid, r),
    {
        let mut pid_text = String::new();
        push_i64(&mut pid_text, shell_pid as i64);
        let mut args: Vec<&str> = Vec::new();
        args.push("-o");
        args.push("tpgid=");
        args.push("-p");
        args.push(pid_text.as_str());
        let answer = self.internals.exec("/bin/ps", args.as_slice());
        let ghost out = text_view(answer);
        proof {
            assert(pid_text@ =~= signed_decimal(shell_pid as int));
            assert(arg_views(args@) =~= ps_tpgid_args(shell_pid));
        }
        let r = match answer {
            Ok(text) => parse_tpgid_text(text.as_str()),
            Err(_) => None,
        };
        assert(self.host().runs("/bin/ps"@, ps_tpgid_args(shell_pid), out)
            && r == tpgid_of_output(out));
        r
    }

    fn is_stdin_waiting(&self, _pgid: i32) -> (r: bool)
        ensures
            !r,
    {
        false
    }

    fn process_tree(&self, root_pid: i32) -> (r: Vec<ProcessIdentity>)
        ensures
            mac_tree(self.host(), root_pid, r@),
    {
        let rows = mac_process_table(&*self.internals);
        let r = process_tree(rows.as_slice(), root_pid);
        assert(mac_table(self.host(), rows@) && is_process_tree(rows@, root_pid, r@));
        r
    }

    fn process_session(&self, _session_id: i32) -> (r: Vec<ProcessIdentity>)
        ensures
            r.len() == 0,
    {
        Vec::new()
    }

    fn is_alive(&self, identity: &ProcessIdentity) -> (r: bool)
        ensures
            mac_alive(self.host(), identity.view(), r),
    {
        let rows = mac_process_table(&*self.internals);
        let r = table_has_identity(rows.as_slice(), identity);
        assert(mac_table(self.host(), rows@) && r == table_lists(rows@, identity.view()));
        r
    }

    fn signal_group(&self, pgid: i32, signal: SubprocessTerminalSignal) {
        self.internals.kill(-pgid, terminal_signal_name(signal));
    }

    fn signal_process(&self, identity: &ProcessIdentity, signal: TermKill) {
        if self.is_alive(identity) {
            self.internals.kill(identity.pid, term_kill_name(signal));
        }
    }
}

/// The inspector for one platform.
pub enum PlatformInspector<I: ProcessInspectorInternals> {
    /// `/proc`-based inspection.
    Linux(LinuxProcessInspector<I>),
    /// `ps`-based inspection.
    Mac(MacProcessInspector<I>),
}

impl<I: ProcessInspectorInternals> PlatformInspector<I> {
    /// The process-table operations the inspector uses.
    pub open spec fn host(&self) -> I {
        match self {
            PlatformInspector::Linux(l) => l.host(),
            PlatformInspector::Mac(m) => m.host(),
        }
    }

    /// Whether this is the Linux inspector, with its syscall table.
    pub open spec fn linux_table(&self) -> Option<Option<SyscallTable>> {
        match self {
            PlatformInspector::Linux(l) => Some(l.table_view()),
            PlatformInspector::Mac(_) => None,
        }
    }
}

impl<I: ProcessInspectorInternals> LinuxProcessInspector<I> {
    /// The process-table operations the inspector uses.
    pub closed spec fn host(&self) -> I {
        *self.internals
    }

    /// The stdin-wait syscall table in use.
    pub closed spec fn table_view(&self) -> Option<SyscallTable> {
        self.table
    }
}

impl<I: ProcessInspectorInternals> ProcessInspector for PlatformInspector<I> {
    fn foreground_pgid(&self, shell_pid: i32) -> (r: Option<i32>)
        ensures
            r matches Some(t) ==> t > 0,
            self.linux_table() is Some ==> linux_foreground(self.host(), shell_pid, r),
            self.linux_table() is None ==> mac_foreground(self.host(), shell_pid, r),
    {
        match self {
            PlatformInspector::Linux(l) => l.foreground_pgid(shell_pid),
            PlatformInspector::Mac(m) => m.foreground_pgid(shell_pid),
        }
    }

    fn is_stdin_waiting(&self, pgid: i32) -> (r: bool)
        ensures
            (self.linux_table() is None || self.linux_table() == Some(None::<SyscallTable>)) ==> !r,
            self.linux_table() matches Some(t) ==> linux_waiting(self.host(), t, pgid, r),
    {
        match self {
            PlatformInspector::Linux(l) => l.is_stdin_waiting(pgid),
            PlatformInspector::Mac(m) => m.is_stdin_waiting(pgid),
        }
    }

    fn process_tree(&self, root_pid: i32) -> (r: Vec<ProcessIdentity>)
        ensures
            self.linux_table() is Some ==> linux_tree(self.host(), root_pid, r@),
            self.linux_table() is None ==> mac_tree(self.host(), root_pid, r@),
    {
        match self {
            PlatformInspector::Linux(l) => l.process_tree(root_pid),
            PlatformInspector::Mac(m) => m.process_tree(root_pid),
        }
    }

    fn process_session(&self, session_id: i32) -> (r: Vec<ProcessIdentity>)
        ensures
            self.linux_table() is None ==> r.len() == 0,
            self.linux_table() is Some ==> linux_session(self.host(), session_id, r@),
    {
        match self {
            PlatformInspector::Linux(l) => l.process_session(session_id),
            PlatformInspector::Mac(m) => m.process_session(session_id),
        }
    }

    fn is_alive(&self, identity: &ProcessIdentity) -> (r: bool)
        ensures
            self.linux_table() is Some ==> linux_alive(self.host(), identity.view(), r),
            self.linux_table() is None ==> mac_alive(self.host(), identity.view(), r),
    {
        match self {
            PlatformInspector::Linux(l) => l.is_alive(identity),
            PlatformInspector::Mac(m) => m.is_alive(identity),
        }
    }

    fn signal_group(&self, pgid: i32, signal: SubprocessTerminalSignal) {
        match self {
            PlatformInspector::Linux(l) => l.signal_group(pgid, signal),
            PlatformInspector::Mac(m) => m.signal_group(pgid, signal),
        }
    }

    fn signal_process(&self, identity: &ProcessIdentity, signal: TermKill) {
        match self {
            PlatformInspector::Linux(l) => l.signal_process(identity, signal),
            PlatformInspector::Mac(m) => m.signal_process(identity, signal),
        }
    }
}

/// An inspector for `platform` (`linux`, `macos` or `darwin`) and `arch` (the
/// Linux syscall table key) over injectable process-table operations.
pub fn create_process_inspector_with<I: ProcessInspectorInternals>(platform: &str, arch: &str, internals: Arc<I>)
    -> (r: Result<PlatformInspector<I>, SubprocessError>)
    ensures
        platform@ == "linux"@ ==> (r matches Ok(p) && p.linux_table() == Some(table_for(arch@)) && p.host() == *internals),
        (platform@ == "macos"@ || platform@ == "darwin"@) ==> (r matches Ok(p) && p.linux_table() is None && p.host() == *internals),
        !(platform@ == "linux"@ || platform@ == "macos"@ || platform@ == "darwin"@) ==>
            (r matches Err(SubprocessError::UnsupportedInspection { platform: p }) && p@ == platform@),
{
    proof {
        reveal_strlit("linux");
        reveal_strlit("macos");
        reveal_strlit("darwin");
        assert("macos"@ != "linux"@) by {
            assert("macos"@[0] != "linux"@[0]);
        }
        assert("darwin"@.len() != "linux"@.len());
    }
    let p = chars_of(platform);
    if equals_text(p.as_slice(), "linux") {
        let table = syscall_table(arch);
        Ok(PlatformInspector::Linux(LinuxProcessInspector { table, internals }))
    } else if equals_text(p.as_slice(), "macos") || equals_text(p.as_slice(), "darwin") {
        Ok(PlatformInspector::Mac(MacProcessInspector { internals }))
    } else {
        Err(SubprocessError::UnsupportedInspection { platform: String::from_str(platform) })
    }
}

} // verus!
