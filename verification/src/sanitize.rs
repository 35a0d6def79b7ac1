//! Streaming terminal-control sanitizer for line-oriented PTY output.

use vstd::prelude::*;
use crate::text::{char_utf8_len, chars_of, push_range, string_from_chars, utf8_len, utf8_total};

verus! {

/// OSC marker emitted by the controlled bash before each prompt.
pub const PROMPT_MARKER_PREFIX: &'static str = "133;D;";

/// Exact printable prompt emitted after the private marker.
pub const CONTROLLED_PROMPT: &'static str = "dsh> ";

/// Escape character that starts every control sequence.
pub const ESC: char = '\x1b';

/// Bell character; it terminates OSC sequences.
pub const BEL: char = '\x07';

/// Kind of an over-long control sequence whose remainder is being skipped.
#[derive(Clone, Copy, Debug, PartialEq, Eq)]
pub enum DiscardMode {
    /// Skip through the next BEL or `ESC \`.
    Osc,
    /// Skip through the next final byte in `@..=~`.
    Csi,
}

/// One sanitized chunk plus whether it contained the owned prompt marker.
#[derive(Clone, Debug)]
pub struct SanitizedChunk {
    /// Printable text with control sequences removed and line endings normalized.
    pub text: String,
    /// Whether the chunk carried the prompt marker.
    pub prompt: bool,
    /// Raw text seen since the latest prompt marker, when a marker has been seen.
    pub prompt_tail: Option<String>,
}

/// Remove CSI/OSC/short escape sequences while preserving split-sequence carry.
pub struct TerminalSanitizer {
    pending: Vec<char>,
    discard_mode: Option<DiscardMode>,
    discard_osc_escape: bool,
    trailing_carriage_return: bool,
    tracking_prompt_tail: bool,
    max_pending_bytes: usize,
}

/// Abstract sanitizer state: carried text, discard mode, whether a skipped OSC
/// ended on `ESC`, whether the last text ended on `\r`, whether the prompt tail
/// is tracked, and the bound on carried bytes.
pub type SanitizerView = (Seq<char>, Option<DiscardMode>, bool, bool, bool, nat);

/// First index `j >= from` with `t[j] == c`.
pub open spec fn find_char(t: Seq<char>, c: char, from: int) -> Option<int>
    decreases t.len() - from,
{
    if from < 0 || from >= t.len() {
        None
    } else if t[from] == c {
        Some(from)
    } else {
        find_char(t, c, from + 1)
    }
}

/// First index `j >= from` with `t[j] == a` and `t[j + 1] == b`.
pub open spec fn find_two(t: Seq<char>, a: char, b: char, from: int) -> Option<int>
    decreases t.len() - from,
{
    if from < 0 || from + 1 >= t.len() {
        None
    } else if t[from] == a && t[from + 1] == b {
        Some(from)
    } else {
        find_two(t, a, b, from + 1)
    }
}

/// A CSI final character, `@` through `~`.
pub open spec fn is_final(c: char) -> bool {
    '@' <= c && c <= '~'
}

/// First index `j >= from` holding a CSI final character.
pub open spec fn find_final(t: Seq<char>, from: int) -> Option<int>
    decreases t.len() - from,
{
    if from < 0 || from >= t.len() {
        None
    } else if is_final(t[from]) {
        Some(from)
    } else {
        find_final(t, from + 1)
    }
}

/// First index `j >= from` holding BEL or starting `ESC \`.
pub open spec fn find_osc_term(t: Seq<char>, from: int) -> Option<int>
    decreases t.len() - from,
{
    if from < 0 || from >= t.len() {
        None
    } else if t[from] == BEL || (t[from] == ESC && from + 1 < t.len() && t[from + 1] == '\\') {
        Some(from)
    } else {
        find_osc_term(t, from + 1)
    }
}

/// End (exclusive) of the OSC terminator nearest after `from`: BEL or `ESC \`.
pub open spec fn osc_end(t: Seq<char>, from: int) -> Option<int> {
    match (find_char(t, BEL, from), find_two(t, ESC, '\\', from)) {
        (Some(b), Some(s)) => Some(if b <= s { b + 1 } else { s + 2 }),
        (Some(b), None) => Some(b + 1),
        (None, Some(s)) => Some(s + 2),
        (None, None) => None,
    }
}

/// `s` begins with `prefix`.
pub open spec fn starts_with(s: Seq<char>, prefix: Seq<char>) -> bool {
    prefix.len() <= s.len() && s.subrange(0, prefix.len() as int) == prefix
}

/// Scan of carried text `p` from `i`, accumulating printable `text`, whether a
/// prompt marker was seen, the prompt tail and the tracking flag. Returns them
/// with the index where unfinished input begins.
pub open spec fn scan(
    p: Seq<char>,
    i: int,
    text: Seq<char>,
    prompt: bool,
    tail: Seq<char>,
    tracking: bool,
) -> (Seq<char>, bool, Seq<char>, bool, int)
    decreases p.len() - i,
{
    if i < 0 || i >= p.len() {
        (text, prompt, tail, tracking, p.len() as int)
    } else {
        match find_char(p, ESC, i) {
            None => (
                text + p.subrange(i, p.len() as int),
                prompt,
                if tracking { tail + p.subrange(i, p.len() as int) } else { tail },
                tracking,
                p.len() as int,
            ),
            Some(e) => {
                let text1 = text + p.subrange(i, e);
                let tail1 = if tracking { tail + p.subrange(i, e) } else { tail };
                if e < i {
                    (text1, prompt, tail1, tracking, e)
                } else if e + 1 >= p.len() {
                    (text1, prompt, tail1, tracking, e)
                } else if p[e + 1] == ']' {
                    match osc_end(p, e + 2) {
                        None => (text1, prompt, tail1, tracking, e),
                        Some(end) => {
                            if end <= i || end > p.len() {
                                (text1, prompt, tail1, tracking, e)
                            } else {
                                let term = if p[end - 1] == BEL { 1int } else { 2int };
                                let content = p.subrange(e + 2, end - term);
                                if starts_with(content, PROMPT_MARKER_PREFIX@) {
                                    scan(p, end, text1, true, Seq::empty(), true)
                                } else {
                                    scan(p, end, text1, prompt, tail1, tracking)
                                }
                            }
                        },
                    }
                } else if p[e + 1] == '[' {
                    match find_final(p, e + 2) {
                        None => (text1, prompt, tail1, tracking, e),
                        Some(j) => if j < i || j >= p.len() { (text1, prompt, tail1, tracking, e) } else {
                            scan(p, j + 1, text1, prompt, tail1, tracking)
                        },
                    }
                } else {
                    scan(p, e + 2, text1, prompt, tail1, tracking)
                }
            },
        }
    }
}

/// What survives of `chunk` while a discard is in progress, with the
/// discard mode and OSC-escape flag afterwards.
pub open spec fn discard(mode: Option<DiscardMode>, osc_escape: bool, chunk: Seq<char>) -> (Seq<char>, Option<DiscardMode>, bool) {
    match mode {
        None => (chunk, None, osc_escape),
        Some(DiscardMode::Csi) => match find_final(chunk, 0) {
            Some(j) => (chunk.subrange(j + 1, chunk.len() as int), None, osc_escape),
            None => (Seq::empty(), Some(DiscardMode::Csi), osc_escape),
        },
        Some(DiscardMode::Osc) => {
            if osc_escape && chunk.len() > 0 && chunk[0] == '\\' {
                (chunk.subrange(1, chunk.len() as int), None, false)
            } else {
                match find_osc_term(chunk, 0) {
                    Some(j) => (
                        chunk.subrange(if chunk[j] == BEL { j + 1 } else { j + 2 }, chunk.len() as int),
                        None,
                        false,
                    ),
                    None => (Seq::empty(), Some(DiscardMode::Osc), chunk.len() > 0 && chunk.last() == ESC),
                }
            }
        },
    }
}

/// Replace every `\r\n` by `\n`, left to right.
pub open spec fn replace_crlf(s: Seq<char>) -> Seq<char>
    decreases s.len(),
{
    if s.len() == 0 {
        s
    } else if s.len() >= 2 && s[0] == '\r' && s[1] == '\n' {
        seq!['\n'] + replace_crlf(s.subrange(2, s.len() as int))
    } else {
        seq![s[0]] + replace_crlf(s.drop_first())
    }
}

/// Replace every `\r` by `\n`.
pub open spec fn replace_cr(s: Seq<char>) -> Seq<char> {
    s.map_values(|c: char| if c == '\r' { '\n' } else { c })
}

/// Remove every BEL.
pub open spec fn remove_bel(s: Seq<char>) -> Seq<char> {
    s.filter(|c: char| c != BEL)
}

/// Line-ending normalization: `\r\n` and lone `\r` become `\n`; BEL is dropped.
pub open spec fn normalize(s: Seq<char>) -> Seq<char> {
    remove_bel(replace_cr(replace_crlf(s)))
}

/// Text to normalize after restoring a held `\r`, and whether a new final `\r` is held back.
pub open spec fn with_held_cr(trailing: bool, text: Seq<char>) -> (Seq<char>, bool) {
    let complete = if trailing { seq!['\r'] + text } else { text };
    if complete.len() > 0 && complete.last() == '\r' {
        (complete.drop_last(), true)
    } else {
        (complete, false)
    }
}

/// State after the carried text is bounded: over-long carry switches to discard.
pub open spec fn bound_pending(pending: Seq<char>, mode: Option<DiscardMode>, max: nat) -> (Seq<char>, Option<DiscardMode>) {
    if utf8_total(pending) <= max {
        (pending, mode)
    } else {
        (Seq::empty(), Some(if pending.len() > 1 && pending[1] == ']' { DiscardMode::Osc } else { DiscardMode::Csi }))
    }
}

/// One `push`: the state afterwards, the sanitized text, the prompt flag and the prompt tail.
pub open spec fn push_step(st: SanitizerView, chunk: Seq<char>) -> (SanitizerView, Seq<char>, bool, Option<Seq<char>>) {
    let (rest, mode, osc) = discard(st.1, st.2, chunk);
    let p = st.0 + rest;
    let (text, prompt, tail, tracking, idx) = scan(p, 0, Seq::empty(), false, Seq::empty(), st.4);
    let (pending, mode2) = bound_pending(p.subrange(idx, p.len() as int), mode, st.5);
    let (complete, trailing) = with_held_cr(st.3, text);
    (
        (pending, mode2, osc, trailing, tracking, st.5),
        normalize(complete),
        prompt,
        if tracking { Some(tail) } else { None },
    )
}

/// One `flush`: the state afterwards and the final text.
pub open spec fn flush_step(st: SanitizerView) -> (SanitizerView, Seq<char>) {
    let text = if st.0.len() > 0 && st.0[0] == ESC { Seq::empty() } else { st.0 };
    let (complete, trailing) = with_held_cr(st.3, text);
    (
        (Seq::empty(), None, false, false, false, st.5),
        if trailing { normalize(complete) + seq!['\n'] } else { normalize(complete) },
    )
}

/// No element of `s` is `c`.
pub open spec fn lacks(s: Seq<char>, c: char) -> bool {
    forall|k: int| 0 <= k < s.len() ==> s[k] != c
}

proof fn lemma_lacks_concat(a: Seq<char>, b: Seq<char>, c: char)
    requires
        lacks(a, c),
        lacks(b, c),
    ensures
        lacks(a + b, c),
{
    assert forall|k: int| 0 <= k < (a + b).len() implies (a + b)[k] != c by {
        if k < a.len() {
            assert((a + b)[k] == a[k]);
        } else {
            assert((a + b)[k] == b[k - a.len()]);
        }
    }
}

/// The scan emits no `ESC`, and stops either at the end or at an `ESC`.
proof fn lemma_scan(p: Seq<char>, i: int, text: Seq<char>, prompt: bool, tail: Seq<char>, tracking: bool)
    requires
        0 <= i,
        lacks(text, ESC),
    ensures
        lacks(scan(p, i, text, prompt, tail, tracking).0, ESC),
        ({
            let idx = scan(p, i, text, prompt, tail, tracking).4;
            idx == p.len() || (0 <= idx < p.len() && p[idx] == ESC)
        }),
    decreases p.len() - i,
{
    if i < p.len() {
        lemma_find_char_ge(p, ESC, i);
        match find_char(p, ESC, i) {
            None => {
                lemma_lacks_concat(text, p.subrange(i, p.len() as int), ESC);
            },
            Some(e) => {
                let text1 = text + p.subrange(i, e);
                lemma_lacks_concat(text, p.subrange(i, e), ESC);
                let tail1 = if tracking { tail + p.subrange(i, e) } else { tail };
                if e + 1 < p.len() {
                    if p[e + 1] == ']' {
                        if let Some(end) = osc_end(p, e + 2) {
                            if !(end <= i || end > p.len()) {
                                lemma_scan(p, end, text1, true, Seq::empty(), true);
                                lemma_scan(p, end, text1, prompt, tail1, tracking);
                            }
                        }
                    } else if p[e + 1] == '[' {
                        if let Some(j) = find_final(p, e + 2) {
                            if !(j < i || j >= p.len()) {
                                lemma_scan(p, j + 1, text1, prompt, tail1, tracking);
                            }
                        }
                    } else {
                        lemma_scan(p, e + 2, text1, prompt, tail1, tracking);
                    }
                }
            },
        }
    }
}

proof fn lemma_replace_crlf_lacks(s: Seq<char>, c: char)
    requires
        lacks(s, c),
        c != '\n',
    ensures
        lacks(replace_crlf(s), c),
    decreases s.len(),
{
    if s.len() > 0 {
        if s.len() >= 2 && s[0] == '\r' && s[1] == '\n' {
            lemma_replace_crlf_lacks(s.subrange(2, s.len() as int), c);
            lemma_lacks_concat(seq!['\n'], replace_crlf(s.subrange(2, s.len() as int)), c);
        } else {
            lemma_replace_crlf_lacks(s.drop_first(), c);
            lemma_lacks_concat(seq![s[0]], replace_crlf(s.drop_first()), c);
        }
    }
}

/// Normalized text holds no `ESC`, `\r` or BEL when its input holds no `ESC`.
proof fn lemma_normalize_clean(s: Seq<char>)
    requires
        lacks(s, ESC),
    ensures
        lacks(normalize(s), ESC),
        lacks(normalize(s), '\r'),
        lacks(normalize(s), BEL),
{
    lemma_replace_crlf_lacks(s, ESC);
    let a = replace_cr(replace_crlf(s));
    assert(lacks(a, ESC));
    assert(lacks(a, '\r'));
    let f = |x: char| x != BEL;
    assert forall|k: int| 0 <= k < a.filter(f).len() implies a.filter(f)[k] != ESC && a.filter(f)[k] != '\r' && a.filter(f)[k] != BEL by {
        a.lemma_filter_contains_rev(f, a.filter(f)[k]);
        a.lemma_filter_pred(f, k);
    }
}

/// Law: the text that `push` emits holds no `ESC`, carriage return or BEL,
/// and the text it carries to the next chunk is empty or begins with `ESC`
/// and takes at most the configured number of bytes.
pub proof fn law_push_output_is_clean(st: SanitizerView, chunk: Seq<char>)
    ensures
        ({
            let (st2, text, prompt, tail) = push_step(st, chunk);
            &&& lacks(text, ESC)
            &&& lacks(text, '\r')
            &&& lacks(text, BEL)
            &&& (st2.0.len() == 0 || st2.0[0] == ESC)
            &&& utf8_total(st2.0) <= st2.5
        }),
{
    let (rest, mode, osc) = discard(st.1, st.2, chunk);
    let p = st.0 + rest;
    lemma_scan(p, 0, Seq::empty(), false, Seq::empty(), st.4);
    let (text, prompt, tail, tracking, idx) = scan(p, 0, Seq::empty(), false, Seq::empty(), st.4);
    let complete = if st.3 { seq!['\r'] + text } else { text };
    assert(lacks(complete, ESC)) by {
        if st.3 {
            lemma_lacks_concat(seq!['\r'], text, ESC);
        }
    }
    let (c2, trailing) = with_held_cr(st.3, text);
    assert(lacks(c2, ESC));
    lemma_normalize_clean(c2);
    let rest2 = p.subrange(idx, p.len() as int);
    assert(utf8_total(Seq::<char>::empty()) == 0);
}

fn find_char_from(t: &[char], c: char, from: usize) -> (r: Option<usize>)
    ensures
        match r {
            Some(j) => find_char(t@, c, from as int) == Some(j as int),
            None => find_char(t@, c, from as int) is None,
        },
{
    let mut j = from;
    while j < t.len()
        invariant
            from <= j,
            find_char(t@, c, from as int) == find_char(t@, c, j as int),
        decreases t.len() - j,
    {
        if t[j] == c {
            return Some(j);
        }
        j = j + 1;
    }
    None
}

fn find_two_from(t: &[char], a: char, b: char, from: usize) -> (r: Option<usize>)
    ensures
        match r {
            Some(j) => find_two(t@, a, b, from as int) == Some(j as int),
            None => find_two(t@, a, b, from as int) is None,
        },
{
    let mut j = from;
    while j < t.len() && j + 1 < t.len()
        invariant
            from <= j,
            find_two(t@, a, b, from as int) == find_two(t@, a, b, j as int),
        decreases t.len() - j,
    {
        if t[j] == a && t[j + 1] == b {
            return Some(j);
        }
        j = j + 1;
    }
    None
}

fn find_final_from(t: &[char], from: usize) -> (r: Option<usize>)
    ensures
        match r {
            Some(j) => find_final(t@, from as int) == Some(j as int),
            None => find_final(t@, from as int) is None,
        },
{
    let mut j = from;
    while j < t.len()
        invariant
            from <= j,
            find_final(t@, from as int) == find_final(t@, j as int),
        decreases t.len() - j,
    {
        if '@' <= t[j] && t[j] <= '~' {
            return Some(j);
        }
        j = j + 1;
    }
    None
}

fn find_osc_term_from(t: &[char], from: usize) -> (r: Option<usize>)
    ensures
        match r {
            Some(j) => find_osc_term(t@, from as int) == Some(j as int),
            None => find_osc_term(t@, from as int) is None,
        },
{
    let mut j = from;
    while j < t.len()
        invariant
            from <= j,
            find_osc_term(t@, from as int) == find_osc_term(t@, j as int),
        decreases t.len() - j,
    {
        if t[j] == BEL || (t[j] == ESC && j + 1 < t.len() && t[j + 1] == '\\') {
            return Some(j);
        }
        j = j + 1;
    }
    None
}

proof fn lemma_find_char_ge(t: Seq<char>, c: char, from: int)
    requires
        0 <= from,
    ensures
        find_char(t, c, from) matches Some(j) ==> from <= j < t.len() && t[j] == c
            && forall|k: int| from <= k < j ==> t[k] != c,
        find_char(t, c, from) is None ==> forall|j: int| from <= j < t.len() ==> t[j] != c,
    decreases t.len() - from,
{
    if from < t.len() && t[from] != c {
        lemma_find_char_ge(t, c, from + 1);
    }
}

proof fn lemma_find_two_ge(t: Seq<char>, a: char, b: char, from: int)
    requires
        0 <= from,
    ensures
        find_two(t, a, b, from) matches Some(j) ==> from <= j && j + 1 < t.len() && t[j] == a && t[j + 1] == b,
    decreases t.len() - from,
{
    if from + 1 < t.len() && !(t[from] == a && t[from + 1] == b) {
        lemma_find_two_ge(t, a, b, from + 1);
    }
}

proof fn lemma_find_final_ge(t: Seq<char>, from: int)
    requires
        0 <= from,
    ensures
        find_final(t, from) matches Some(j) ==> from <= j < t.len(),
    decreases t.len() - from,
{
    if from < t.len() && !is_final(t[from]) {
        lemma_find_final_ge(t, from + 1);
    }
}

proof fn lemma_find_osc_term_ge(t: Seq<char>, from: int)
    requires
        0 <= from,
    ensures
        find_osc_term(t, from) matches Some(j) ==> from <= j < t.len()
            && (t[j] == BEL || (j + 1 < t.len() && t[j] == ESC && t[j + 1] == '\\')),
    decreases t.len() - from,
{
    if from < t.len() && !(t[from] == BEL || (t[from] == ESC && from + 1 < t.len() && t[from + 1] == '\\')) {
        lemma_find_osc_term_ge(t, from + 1);
    }
}

/// Whether `t[from..to]` begins with `prefix`.
fn range_starts_with(t: &[char], from: usize, to: usize, prefix: &[char]) -> (r: bool)
    requires
        from <= to <= t.len(),
    ensures
        r == starts_with(t@.subrange(from as int, to as int), prefix@),
{
    if to - from < prefix.len() {
        return false;
    }
    let mut k: usize = 0;
    while k < prefix.len()
        invariant
            0 <= k <= prefix.len(),
            from + prefix.len() <= to <= t.len(),
            forall|m: int| 0 <= m < k ==> t@[from + m] == prefix@[m],
        decreases prefix.len() - k,
    {
        if t[from + k] != prefix[k] {
            assert(t@.subrange(from as int, to as int).subrange(0, prefix.len() as int)[k as int] == t@[from + k]);
            return false;
        }
        k = k + 1;
    }
    assert(t@.subrange(from as int, to as int).subrange(0, prefix.len() as int) =~= prefix@);
    true
}

/// Whether `s` takes more than `max` bytes in UTF-8.
fn exceeds_bytes(s: &[char], max: usize) -> (r: bool)
    ensures
        r == (utf8_total(s@) > max),
{
    let mut total: usize = 0;
    let mut i: usize = s.len();
    // Sum from the back so that the running total matches the recursive definition.
    while i > 0
        invariant
            0 <= i <= s.len(),
            total <= max,
            total == utf8_total(s@.subrange(i as int, s.len() as int)),
        decreases i,
    {
        i = i - 1;
        let n = char_utf8_len(s[i]);
        assert(s@.subrange(i as int, s.len() as int).drop_first() =~= s@.subrange(i + 1, s.len() as int));
        if n > max - total {
            proof {
                lemma_utf8_total_prefix_ge(s@, i as int);
            }
            return true;
        }
        total = total + n;
    }
    assert(s@.subrange(0, s.len() as int) =~= s@);
    false
}

proof fn lemma_utf8_total_prefix_ge(s: Seq<char>, i: int)
    requires
        0 <= i <= s.len(),
    ensures
        utf8_total(s) >= utf8_total(s.subrange(i, s.len() as int)),
    decreases i,
{
    if i > 0 {
        lemma_utf8_total_prefix_ge(s, i - 1);
        assert(s.subrange(i - 1, s.len() as int).drop_first() =~= s.subrange(i, s.len() as int));
    } else {
        assert(s.subrange(0, s.len() as int) =~= s);
    }
}

fn replace_crlf_exec(s: &[char]) -> (r: Vec<char>)
    ensures
        r@ == replace_crlf(s@),
{
    let mut out: Vec<char> = Vec::new();
    let mut i: usize = 0;
    assert(s@.subrange(0, s.len() as int) =~= s@);
    assert(out@ + replace_crlf(s@) =~= replace_crlf(s@));
    while i < s.len()
        invariant
            0 <= i <= s.len(),
            replace_crlf(s@) == out@ + replace_crlf(s@.subrange(i as int, s.len() as int)),
        decreases s.len() - i,
    {
        let ghost rest = s@.subrange(i as int, s.len() as int);
        if i + 1 < s.len() && s[i] == '\r' && s[i + 1] == '\n' {
            assert(rest.subrange(2, rest.len() as int) =~= s@.subrange(i + 2, s.len() as int));
            out.push('\n');
            i = i + 2;
            assert(replace_crlf(rest) == seq!['\n'] + replace_crlf(s@.subrange(i as int, s.len() as int)));
        } else {
            assert(rest.drop_first() =~= s@.subrange(i + 1, s.len() as int));
            out.push(s[i]);
            i = i + 1;
            assert(replace_crlf(rest) == seq![rest[0]] + replace_crlf(s@.subrange(i as int, s.len() as int)));
        }
        let ghost prev = out@.drop_last();
        assert(out@ =~= prev + seq![out@.last()]);
    }
    assert(replace_crlf(s@.subrange(i as int, s.len() as int)) =~= Seq::<char>::empty());
    out
}

/// Normalize line endings and drop BEL.
fn normalize_terminal_text(s: &[char]) -> (r: Vec<char>)
    ensures
        r@ == normalize(s@),
{
    let a = replace_crlf_exec(s);
    let mut b: Vec<char> = Vec::new();
    let mut i: usize = 0;
    while i < a.len()
        invariant
            0 <= i <= a.len(),
            b@ == remove_bel(replace_cr(a@.subrange(0, i as int))),
        decreases a.len() - i,
    {
        let c = if a[i] == '\r' { '\n' } else { a[i] };
        proof {
            let pre = a@.subrange(0, i as int);
            let next = a@.subrange(0, i + 1);
            assert(next =~= pre.push(a@[i as int]));
            assert(replace_cr(next) =~= replace_cr(pre).push(c));
            reveal(Seq::filter);
            assert(replace_cr(next).drop_last() =~= replace_cr(pre));
        }
        if c != BEL {
            b.push(c);
        }
        i = i + 1;
    }
    assert(a@.subrange(0, a.len() as int) =~= a@);
    b
}

impl TerminalSanitizer {
    /// The abstract state.
    pub closed spec fn view(&self) -> SanitizerView {
        (
            self.pending@,
            self.discard_mode,
            self.discard_osc_escape,
            self.trailing_carriage_return,
            self.tracking_prompt_tail,
            self.max_pending_bytes as nat,
        )
    }

    /// A sanitizer that carries at most `max_pending_bytes` of unfinished control input.
    pub fn new(max_pending_bytes: usize) -> (s: Self)
        ensures
            s@ == (Seq::<char>::empty(), None::<DiscardMode>, false, false, false, max_pending_bytes as nat),
    {
        let s = TerminalSanitizer {
            pending: Vec::new(),
            discard_mode: None,
            discard_osc_escape: false,
            trailing_carriage_return: false,
            tracking_prompt_tail: false,
            max_pending_bytes,
        };
        assert(s.pending@ =~= Seq::<char>::empty());
        s
    }

    fn discard_prefix(&mut self, chunk: &[char]) -> (rest: Vec<char>)
        ensures
            (rest@, final(self).discard_mode, final(self).discard_osc_escape)
                == discard(old(self).discard_mode, old(self).discard_osc_escape, chunk@),
            final(self).pending == old(self).pending,
            final(self).trailing_carriage_return == old(self).trailing_carriage_return,
            final(self).tracking_prompt_tail == old(self).tracking_prompt_tail,
            final(self).max_pending_bytes == old(self).max_pending_bytes,
    {
        match self.discard_mode {
            None => {
                let mut v: Vec<char> = Vec::new();
                let mut i: usize = 0;
                while i < chunk.len()
                    invariant
                        0 <= i <= chunk.len(),
                        v@ == chunk@.subrange(0, i as int),
                    decreases chunk.len() - i,
                {
                    v.push(chunk[i]);
                    i = i + 1;
                    assert(v@ =~= chunk@.subrange(0, i as int));
                }
                assert(chunk@.subrange(0, chunk.len() as int) =~= chunk@);
                v
            },
            Some(DiscardMode::Csi) => {
                match find_final_from(chunk, 0) {
                    Some(j) => {
                        proof { lemma_find_final_ge(chunk@, 0); }
                        self.discard_mode = None;
                        crate::text::copy_range(chunk, j + 1, chunk.len())
                    },
                    None => {
                        let v: Vec<char> = Vec::new();
                        assert(v@ =~= Seq::<char>::empty());
                        v
                    },
                }
            },
            Some(DiscardMode::Osc) => {
                if self.discard_osc_escape {
                    self.discard_osc_escape = false;
                    if chunk.len() > 0 && chunk[0] == '\\' {
                        self.discard_mode = None;
                        return crate::text::copy_range(chunk, 1, chunk.len());
                    }
                }
                match find_osc_term_from(chunk, 0) {
                    Some(j) => {
                        proof { lemma_find_osc_term_ge(chunk@, 0); }
                        self.discard_mode = None;
                        self.discard_osc_escape = false;
                        if chunk[j] == BEL {
                            crate::text::copy_range(chunk, j + 1, chunk.len())
                        } else {
                            crate::text::copy_range(chunk, j + 2, chunk.len())
                        }
                    },
                    None => {
                        self.discard_osc_escape = chunk.len() > 0 && chunk[chunk.len() - 1] == ESC;
                        let v: Vec<char> = Vec::new();
                        assert(v@ =~= Seq::<char>::empty());
                        v
                    },
                }
            },
        }
    }

    fn normalize_text(&mut self, text: &[char]) -> (r: Vec<char>)
        ensures
            (r@, final(self).trailing_carriage_return) == ({
                let (complete, trailing) = with_held_cr(old(self).trailing_carriage_return, text@);
                (normalize(complete), trailing)
            }),
            final(self).pending == old(self).pending,
            final(self).discard_mode == old(self).discard_mode,
            final(self).discard_osc_escape == old(self).discard_osc_escape,
            final(self).tracking_prompt_tail == old(self).tracking_prompt_tail,
            final(self).max_pending_bytes == old(self).max_pending_bytes,
    {
        let mut complete: Vec<char> = Vec::new();
        if self.trailing_carriage_return {
            complete.push('\r');
        }
        let mut i: usize = 0;
        let ghost start = complete@;
        while i < text.len()
            invariant
                0 <= i <= text.len(),
                complete@ == start + text@.subrange(0, i as int),
            decreases text.len() - i,
        {
            complete.push(text[i]);
            i = i + 1;
            assert(complete@ =~= start + text@.subrange(0, i as int));
        }
        proof {
            assert(text@.subrange(0, text.len() as int) =~= text@);
            if old(self).trailing_carriage_return {
                assert(start =~= seq!['\r']);
            } else {
                assert(start =~= Seq::<char>::empty());
                assert(complete@ =~= text@);
            }
        }
        self.trailing_carriage_return = false;
        if complete.len() > 0 && complete[complete.len() - 1] == '\r' {
            complete.pop();
            self.trailing_carriage_return = true;
        }
        normalize_terminal_text(complete.as_slice())
    }

    /// Consume one decoded terminal data chunk.
    pub fn push(&mut self, chunk: &str) -> (r: SanitizedChunk)
        ensures
            ({
                let (st, text, prompt, tail) = push_step(old(self)@, chunk@);
                &&& final(self)@ == st
                &&& r.text@ == text
                &&& r.prompt == prompt
                &&& match r.prompt_tail {
                    Some(s) => tail == Some(s@),
                    None => tail is None,
                }
            }),
    {
        let chunk_chars = chars_of(chunk);
        let prefix = self.discard_prefix(chunk_chars.as_slice());
        let ghost mode_after = self.discard_mode;
        let ghost osc_after = self.discard_osc_escape;
        let ghost tracking0 = self.tracking_prompt_tail;
        let mut pending = self.pending.clone();
        let mut k: usize = 0;
        let ghost p0 = pending@;
        while k < prefix.len()
            invariant
                0 <= k <= prefix.len(),
                pending@ == p0 + prefix@.subrange(0, k as int),
            decreases prefix.len() - k,
        {
            pending.push(prefix[k]);
            k = k + 1;
            assert(pending@ =~= p0 + prefix@.subrange(0, k as int));
        }
        assert(prefix@.subrange(0, prefix.len() as int) =~= prefix@);
        let ghost p = pending@;
        let marker = chars_of(PROMPT_MARKER_PREFIX);
        let mut text: Vec<char> = Vec::new();
        let mut prompt = false;
        let mut tail: Vec<char> = Vec::new();
        let mut index: usize = 0;
        let ghost goal = scan(p, 0, Seq::empty(), false, Seq::empty(), tracking0);
        assert(text@ =~= Seq::<char>::empty());
        assert(tail@ =~= Seq::<char>::empty());
        while index < pending.len()
            invariant_except_break
                index <= pending.len(),
                pending@ == p,
                marker@ == PROMPT_MARKER_PREFIX@,
                goal == scan(p, index as int, text@, prompt, tail@, self.tracking_prompt_tail),
                self.discard_mode == mode_after,
                self.discard_osc_escape == osc_after,
                self.pending == old(self).pending,
                self.trailing_carriage_return == old(self).trailing_carriage_return,
                self.max_pending_bytes == old(self).max_pending_bytes,
            ensures
                index <= pending.len(),
                pending@ == p,
                goal == (text@, prompt, tail@, self.tracking_prompt_tail, index as int),
                self.discard_mode == mode_after,
                self.discard_osc_escape == osc_after,
                self.pending == old(self).pending,
                self.trailing_carriage_return == old(self).trailing_carriage_return,
                self.max_pending_bytes == old(self).max_pending_bytes,
            decreases pending.len() - index,
        {
            let tracking = self.tracking_prompt_tail;
            match find_char_from(pending.as_slice(), ESC, index) {
                None => {
                    let ghost t0 = text@;
                    let ghost a0 = tail@;
                    append_range(&mut text, pending.as_slice(), index, pending.len());
                    if tracking {
                        append_range(&mut tail, pending.as_slice(), index, pending.len());
                    }
                    index = pending.len();
                    break;
                },
                Some(escape) => {
                    proof { lemma_find_char_ge(p, ESC, index as int); }
                    append_range(&mut text, pending.as_slice(), index, escape);
                    if tracking {
                        append_range(&mut tail, pending.as_slice(), index, escape);
                    }
                    if escape + 1 >= pending.len() {
                        index = escape;
                        break;
                    }
                    let kind = pending[escape + 1];
                    if kind == ']' {
                        let bel = find_char_from(pending.as_slice(), BEL, escape + 2);
                        let st = find_two_from(pending.as_slice(), ESC, '\\', escape + 2);
                        proof {
                            lemma_find_char_ge(p, BEL, escape + 2);
                            lemma_find_two_ge(p, ESC, '\\', escape + 2);
                        }
                        let end = match (bel, st) {
                            (Some(b), Some(s)) => if b <= s { b + 1 } else { s + 2 },
                            (Some(b), None) => b + 1,
                            (None, Some(s)) => s + 2,
                            (None, None) => {
                                index = escape;
                                break;
                            },
                        };
                        let term: usize = if pending[end - 1] == BEL { 1 } else { 2 };
                        if range_starts_with(pending.as_slice(), escape + 2, end - term, marker.as_slice()) {
                            prompt = true;
                            self.tracking_prompt_tail = true;
                            tail = Vec::new();
                            assert(tail@ =~= Seq::<char>::empty());
                        }
                        index = end;
                    } else if kind == '[' {
                        match find_final_from(pending.as_slice(), escape + 2) {
                            None => {
                                index = escape;
                                break;
                            },
                            Some(j) => {
                                proof { lemma_find_final_ge(p, escape + 2); }
                                index = j + 1;
                            },
                        }
                    } else {
                        index = escape + 2;
                    }
                },
            }
        }
        let ghost tracking_final = self.tracking_prompt_tail;
        let rest = crate::text::copy_range(pending.as_slice(), index, pending.len());
        if exceeds_bytes(rest.as_slice(), self.max_pending_bytes) {
            self.discard_mode = if rest.len() > 1 && rest[1] == ']' {
                Some(DiscardMode::Osc)
            } else {
                Some(DiscardMode::Csi)
            };
            self.pending = Vec::new();
            assert(self.pending@ =~= Seq::<char>::empty());
        } else {
            self.pending = rest;
        }
        let normalized = self.normalize_text(text.as_slice());
        let out_text = string_from_chars(normalized.as_slice());
        let prompt_tail = if self.tracking_prompt_tail {
            Some(string_from_chars(tail.as_slice()))
        } else {
            None
        };
        SanitizedChunk { text: out_text, prompt, prompt_tail }
    }

    /// Flush a trailing printable fragment when the PTY exits.
    pub fn flush(&mut self) -> (r: String)
        ensures
            (final(self)@, r@) == flush_step(old(self)@),
    {
        let text: Vec<char> = if self.pending.len() > 0 && self.pending[0] == ESC {
            Vec::new()
        } else {
            self.pending.clone()
        };
        assert(text@ == (if old(self).pending@.len() > 0 && old(self).pending@[0] == ESC { Seq::<char>::empty() } else { old(self).pending@ }));
        self.pending = Vec::new();
        self.discard_mode = None;
        self.discard_osc_escape = false;
        self.tracking_prompt_tail = false;
        let normalized = self.normalize_text(text.as_slice());
        assert(self.pending@ =~= Seq::<char>::empty());
        let mut out = string_from_chars(normalized.as_slice());
        if !self.trailing_carriage_return {
            return out;
        }
        self.trailing_carriage_return = false;
        crate::text::push_char(&mut out, '\n');
        out
    }
}

/// Append `t[from..to]` to `v`.
fn append_range(v: &mut Vec<char>, t: &[char], from: usize, to: usize)
    requires
        from <= to <= t.len(),
    ensures
        final(v)@ == old(v)@ + t@.subrange(from as int, to as int),
{
    let ghost start = v@;
    let mut i = from;
    while i < to
        invariant
            from <= i <= to <= t.len(),
            v@ == start + t@.subrange(from as int, i as int),
        decreases to - i,
    {
        v.push(t[i]);
        i = i + 1;
        assert(v@ =~= start + t@.subrange(from as int, i as int));
    }
}

} // verus!
