//! Subprocess errors, credential-scrubbed child environments, stdio
//! dispositions and the PTY spawn request.

use vstd::prelude::*;
use vstd::string::StringExecFns;
use crate::text::{push_str, push_chars, chars_of, chars_eq, string_from_chars};
use crate::words::{split_char, split_on, views};
use std::path::PathBuf;

verus! {

/// Upper bound for a subprocess grace period in milliseconds.
pub const MAX_GRACE_MS: u64 = 2_147_483_647;

/// Namespace prefix reserved for harness-managed child environment facts.
pub const DSH_ENV_PREFIX: &'static str = "DSH_";

/// Rust's `{:?}` text of a string: quoted, with escapes.
pub uninterp spec fn debug_quoted(s: Seq<char>) -> Seq<char>;

/// `{:?}` of a string, through `core::fmt`'s `Debug` for `str`; the contract
/// names the result without spelling out the escape rules.
#[verifier::external_body]
pub(crate) fn debug_quote(s: &str) -> (r: String)
    ensures
        r@ == debug_quoted(s@),
{
    format!("{:?}", s)
}

/// Spawn, lookup, and platform failures.
#[derive(Clone, Debug)]
pub enum SubprocessError {
    /// `argv` is empty or `argv[0]` is empty.
    InvalidArgv,
    /// `grace_ms` is zero or greater than [`MAX_GRACE_MS`].
    InvalidGrace,
    /// The abort flag was already set when spawn was requested.
    AbortedBeforeSpawn,
    /// The resolved executable path is empty.
    EmptyExecutable,
    /// The command is a relative path rather than an absolute path or a bare PATH name.
    RelativePath(String),
    /// The command names a path that is not an executable file.
    NotExecutable(String),
    /// The bare command name was not found on PATH.
    NotOnPath(String),
    /// The OS refused to spawn the process.
    Spawn(String),
    /// This host does not implement process-tree spawn.
    UnsupportedPlatform,
    /// Terminal process-table inspection is unsupported on this OS.
    UnsupportedInspection {
        /// OS name that has no inspector.
        platform: String,
    },
}

impl SubprocessError {
    /// The failure message.
    pub open spec fn message(&self) -> Seq<char> {
        match self {
            SubprocessError::InvalidArgv => "invalid argv: expected a non-empty program name at argv[0]"@,
            SubprocessError::InvalidGrace => "subprocess graceMs must be a positive finite number no greater than 2147483647"@,
            SubprocessError::AbortedBeforeSpawn => "aborted before spawn"@,
            SubprocessError::EmptyExecutable => "subprocess-local: executable must be non-empty"@,
            SubprocessError::RelativePath(c) => "subprocess-local: command "@ + debug_quoted(c@)
                + " is a relative path; use an absolute path or a bare PATH name"@,
            SubprocessError::NotExecutable(c) => "subprocess-local: command "@ + debug_quoted(c@) + " is not an executable file"@,
            SubprocessError::NotOnPath(c) => "subprocess-local: command "@ + debug_quoted(c@) + " was not found on PATH"@,
            SubprocessError::Spawn(m) => "spawn failed: "@ + m@,
            SubprocessError::UnsupportedPlatform => "unsupported on this platform"@,
            SubprocessError::UnsupportedInspection { platform } =>
                "subprocess-local: terminal inspection is unsupported on platform "@ + platform@,
        }
    }

    /// The failure message.
    pub fn to_string(&self) -> (s: String)
        ensures
            s@ == self.message(),
    {
        let mut s = String::new();
        match self {
            SubprocessError::InvalidArgv => push_str(&mut s, "invalid argv: expected a non-empty program name at argv[0]"),
            SubprocessError::InvalidGrace => push_str(&mut s, "subprocess graceMs must be a positive finite number no greater than 2147483647"),
            SubprocessError::AbortedBeforeSpawn => push_str(&mut s, "aborted before spawn"),
            SubprocessError::EmptyExecutable => push_str(&mut s, "subprocess-local: executable must be non-empty"),
            SubprocessError::RelativePath(c) => {
                push_str(&mut s, "subprocess-local: command ");
                let q = debug_quote(c.as_str());
                push_str(&mut s, q.as_str());
                push_str(&mut s, " is a relative path; use an absolute path or a bare PATH name");
            },
            SubprocessError::NotExecutable(c) => {
                push_str(&mut s, "subprocess-local: command ");
                let q = debug_quote(c.as_str());
                push_str(&mut s, q.as_str());
                push_str(&mut s, " is not an executable file");
            },
            SubprocessError::NotOnPath(c) => {
                push_str(&mut s, "subprocess-local: command ");
                let q = debug_quote(c.as_str());
                push_str(&mut s, q.as_str());
                push_str(&mut s, " was not found on PATH");
            },
            SubprocessError::Spawn(m) => {
                push_str(&mut s, "spawn failed: ");
                push_str(&mut s, m.as_str());
            },
            SubprocessError::UnsupportedPlatform => push_str(&mut s, "unsupported on this platform"),
            SubprocessError::UnsupportedInspection { platform } => {
                push_str(&mut s, "subprocess-local: terminal inspection is unsupported on platform ");
                push_str(&mut s, platform.as_str());
            },
        }
        s
    }
}

/// One explicit child-environment overlay entry.
#[derive(Clone, Debug, PartialEq, Eq)]
pub struct EnvEntry {
    /// Environment key.
    pub key: String,
    /// `Some` sets or overrides; `None` removes an ambient key.
    pub value: Option<String>,
}

/// `c` under `char::to_ascii_uppercase`.
pub open spec fn ascii_upper(c: char) -> char {
    if 'a' <= c && c <= 'z' {
        ((c as int) - 32) as char
    } else {
        c
    }
}

/// `s` under `str::to_ascii_uppercase`.
pub open spec fn ascii_upper_seq(s: Seq<char>) -> Seq<char> {
    Seq::new(s.len(), |i: int| ascii_upper(s[i]))
}

/// `needle` occurs in `hay` at position `i`.
pub open spec fn occurs_at(hay: Seq<char>, needle: Seq<char>, i: int) -> bool {
    0 <= i && i + needle.len() <= hay.len() && hay.subrange(i, i + needle.len()) == needle
}

/// `needle` occurs somewhere in `hay`.
pub open spec fn contains_seq(hay: Seq<char>, needle: Seq<char>) -> bool {
    exists|i: int| occurs_at(hay, needle, i)
}

/// Whether a key is credential-shaped: its ASCII upper case contains `KEY`,
/// `PASSWORD`, `SECRET` or `TOKEN`.
pub open spec fn is_sensitive_name(name: Seq<char>) -> bool {
    let u = ascii_upper_seq(name);
    contains_seq(u, "KEY"@) || contains_seq(u, "PASSWORD"@) || contains_seq(u, "SECRET"@)
        || contains_seq(u, "TOKEN"@)
}

/// Whether a key is reserved for the harness: its ASCII upper case starts with
/// [`DSH_ENV_PREFIX`].
pub open spec fn is_reserved_name(name: Seq<char>) -> bool {
    occurs_at(ascii_upper_seq(name), DSH_ENV_PREFIX@, 0)
}

fn upper_is(c: char, u: char) -> (r: bool)
    requires
        !('a' <= u && u <= 'z'),
    ensures
        r == (ascii_upper(c) == u),
{
    if 'A' <= u && u <= 'Z' {
        c == u || (c as u32) == (u as u32) + 32
    } else {
        c == u
    }
}

/// Whether the ASCII upper case of `hay` holds `needle` at `i`.
fn upper_occurs_at(hay: &[char], needle: &[char], i: usize) -> (r: bool)
    requires
        forall|k: int| 0 <= k < needle.len() ==> !('a' <= #[trigger] needle@[k] && needle@[k] <= 'z'),
    ensures
        r == occurs_at(ascii_upper_seq(hay@), needle@, i as int),
{
    if i > hay.len() || needle.len() > hay.len() - i {
        return false;
    }
    let mut k: usize = 0;
    while k < needle.len()
        invariant
            0 <= k <= needle.len(),
            i + needle.len() <= hay.len(),
            forall|m: int| 0 <= m < needle.len() ==> !('a' <= #[trigger] needle@[m] && needle@[m] <= 'z'),
            forall|m: int| 0 <= m < k ==> ascii_upper(hay@[i + m]) == #[trigger] needle@[m],
        decreases needle.len() - k,
    {
        if !upper_is(hay[i + k], needle[k]) {
            assert(ascii_upper_seq(hay@).subrange(i as int, i + needle.len())[k as int] != needle@[k as int]);
            return false;
        }
        k = k + 1;
    }
    assert(ascii_upper_seq(hay@).subrange(i as int, i + needle.len()) =~= needle@);
    true
}

/// Whether the ASCII upper case of `hay` contains `needle`.
fn upper_contains(hay: &[char], needle: &[char]) -> (r: bool)
    requires
        forall|k: int| 0 <= k < needle.len() ==> !('a' <= #[trigger] needle@[k] && needle@[k] <= 'z'),
    ensures
        r == contains_seq(ascii_upper_seq(hay@), needle@),
{
    let mut i: usize = 0;
    while i < hay.len()
        invariant
            0 <= i <= hay.len(),
            forall|k: int| 0 <= k < needle.len() ==> !('a' <= #[trigger] needle@[k] && needle@[k] <= 'z'),
            forall|m: int| 0 <= m < i ==> !occurs_at(ascii_upper_seq(hay@), needle@, m),
        decreases hay.len() - i,
    {
        if upper_occurs_at(hay, needle, i) {
            return true;
        }
        i = i + 1;
    }
    let last = upper_occurs_at(hay, needle, hay.len());
    assert forall|m: int| m != hay.len() && !last implies !occurs_at(ascii_upper_seq(hay@), needle@, m) by {
        if 0 <= m && m < i {
        }
    }
    last
}

/// Whether `name` is credential-shaped (`KEY`, `PASSWORD`, `SECRET` or
/// `TOKEN`, ASCII case-insensitive).
pub fn sensitive_env_name(name: &str) -> (r: bool)
    ensures
        r == is_sensitive_name(name@),
{
    let v = chars_of(name);
    let key = chars_of("KEY");
    let password = chars_of("PASSWORD");
    let secret = chars_of("SECRET");
    let token = chars_of("TOKEN");
    proof {
        reveal_strlit("KEY");
        reveal_strlit("PASSWORD");
        reveal_strlit("SECRET");
        reveal_strlit("TOKEN");
    }
    upper_contains(v.as_slice(), key.as_slice()) || upper_contains(v.as_slice(), password.as_slice())
        || upper_contains(v.as_slice(), secret.as_slice()) || upper_contains(v.as_slice(), token.as_slice())
}

/// Whether `name` is reserved for the harness ([`DSH_ENV_PREFIX`], ASCII
/// case-insensitive).
pub fn reserved_env_name(name: &str) -> (r: bool)
    ensures
        r == is_reserved_name(name@),
{
    let v = chars_of(name);
    let prefix = chars_of(DSH_ENV_PREFIX);
    proof {
        reveal_strlit("DSH_");
    }
    upper_occurs_at(v.as_slice(), prefix.as_slice(), 0)
}

/// The character view of environment pairs.
pub open spec fn env_view(env: Seq<(String, String)>) -> Seq<(Seq<char>, Seq<char>)> {
    Seq::new(env.len(), |i: int| (env[i].0@, env[i].1@))
}

/// The ambient pairs whose keys are neither credential-shaped nor reserved, in order.
pub open spec fn scrubbed(env: Seq<(Seq<char>, Seq<char>)>) -> Seq<(Seq<char>, Seq<char>)>
    decreases env.len(),
{
    if env.len() == 0 {
        Seq::empty()
    } else {
        let p = scrubbed(env.drop_last());
        if is_sensitive_name(env.last().0) || is_reserved_name(env.last().0) {
            p
        } else {
            p.push(env.last())
        }
    }
}

/// The pairs of `env` whose key is not `key`, in order.
pub open spec fn without_key(env: Seq<(Seq<char>, Seq<char>)>, key: Seq<char>) -> Seq<(Seq<char>, Seq<char>)>
    decreases env.len(),
{
    if env.len() == 0 {
        Seq::empty()
    } else {
        let p = without_key(env.drop_last(), key);
        if env.last().0 == key {
            p
        } else {
            p.push(env.last())
        }
    }
}

/// The character view of an overlay entry.
pub open spec fn entry_view(e: EnvEntry) -> (Seq<char>, Option<Seq<char>>) {
    (e.key@, match e.value {
        Some(v) => Some(v@),
        None => None,
    })
}

/// `env` after applying the overlay entries in order: each entry first removes
/// its key, then a `Some` value appends the new pair.
pub open spec fn overlay(env: Seq<(Seq<char>, Seq<char>)>, extra: Seq<(Seq<char>, Option<Seq<char>>)>) -> Seq<(Seq<char>, Seq<char>)>
    decreases extra.len(),
{
    if extra.len() == 0 {
        env
    } else {
        let before = overlay(env, extra.drop_last());
        let e = extra.last();
        let kept = without_key(before, e.0);
        match e.1 {
            Some(v) => kept.push((e.0, v)),
            None => kept,
        }
    }
}

/// The pairs of `env` keyed `key`, in order.
pub open spec fn keyed(env: Seq<(Seq<char>, Seq<char>)>, key: Seq<char>) -> Seq<(Seq<char>, Seq<char>)>
    decreases env.len(),
{
    if env.len() == 0 {
        Seq::empty()
    } else {
        let p = keyed(env.drop_last(), key);
        if env.last().0 == key {
            p.push(env.last())
        } else {
            p
        }
    }
}

/// The value of the last overlay entry keyed `key`: `None` when no entry names it.
pub open spec fn last_setting(extra: Seq<(Seq<char>, Option<Seq<char>>)>, key: Seq<char>) -> Option<Option<Seq<char>>>
    decreases extra.len(),
{
    if extra.len() == 0 {
        None
    } else if extra.last().0 == key {
        Some(extra.last().1)
    } else {
        last_setting(extra.drop_last(), key)
    }
}

proof fn lemma_keyed_without(env: Seq<(Seq<char>, Seq<char>)>, drop: Seq<char>, key: Seq<char>)
    ensures
        keyed(without_key(env, drop), key) == if drop == key { Seq::<(Seq<char>, Seq<char>)>::empty() } else { keyed(env, key) },
    decreases env.len(),
{
    if env.len() > 0 {
        lemma_keyed_without(env.drop_last(), drop, key);
        let p = without_key(env.drop_last(), drop);
        assert(p.push(env.last()).drop_last() =~= p);
    }
}

proof fn lemma_keyed_push(env: Seq<(Seq<char>, Seq<char>)>, x: (Seq<char>, Seq<char>), key: Seq<char>)
    ensures
        keyed(env.push(x), key) == if x.0 == key { keyed(env, key).push(x) } else { keyed(env, key) },
{
    assert(env.push(x).drop_last() =~= env);
}

/// In a child environment the last overlay entry for a key decides: a value
/// leaves exactly that one pair for the key, a removal leaves none, and a key
/// the overlay does not name keeps the pairs the scrubbed environment has.
pub proof fn law_last_overlay_entry_decides(env: Seq<(Seq<char>, Seq<char>)>, extra: Seq<(Seq<char>, Option<Seq<char>>)>, key: Seq<char>)
    ensures
        keyed(overlay(env, extra), key) == match last_setting(extra, key) {
            Some(Some(v)) => seq![(key, v)],
            Some(None) => Seq::<(Seq<char>, Seq<char>)>::empty(),
            None => keyed(env, key),
        },
    decreases extra.len(),
{
    if extra.len() > 0 {
        law_last_overlay_entry_decides(env, extra.drop_last(), key);
        let before = overlay(env, extra.drop_last());
        let e = extra.last();
        let kept = without_key(before, e.0);
        lemma_keyed_without(before, e.0, key);
        match e.1 {
            Some(v) => {
                lemma_keyed_push(kept, (e.0, v), key);
                if e.0 == key {
                    assert(Seq::<(Seq<char>, Seq<char>)>::empty().push((key, v)) =~= seq![(key, v)]);
                }
            },
            None => {},
        }
    }
}

/// The ambient environment minus credential-shaped and reserved names.
pub fn scrub_env(ambient: &[(String, String)]) -> (r: Vec<(String, String)>)
    ensures
        env_view(r@) == scrubbed(env_view(ambient@)),
{
    let mut r: Vec<(String, String)> = Vec::new();
    let mut i: usize = 0;
    while i < ambient.len()
        invariant
            0 <= i <= ambient.len(),
            env_view(r@) == scrubbed(env_view(ambient@.take(i as int))),
        decreases ambient.len() - i,
    {
        let ghost pre = ambient@.take(i as int);
        assert(env_view(ambient@.take(i + 1)).drop_last() =~= env_view(pre));
        let key = &ambient[i].0;
        let keep = !sensitive_env_name(key.as_str()) && !reserved_env_name(key.as_str());
        if keep {
            let ghost old_r = r@;
            r.push((ambient[i].0.clone(), ambient[i].1.clone()));
            assert(env_view(r@) =~= env_view(old_r).push(env_view(ambient@.take(i + 1)).last()));
        }
        i = i + 1;
    }
    assert(ambient@.take(ambient.len() as int) =~= ambient@);
    r
}

fn remove_key(env: &mut Vec<(String, String)>, key: &String)
    ensures
        env_view(final(env)@) == without_key(env_view(old(env)@), key@),
{
    let ghost start = env@;
    let mut kept: Vec<(String, String)> = Vec::new();
    let mut i: usize = 0;
    while i < env.len()
        invariant
            0 <= i <= env.len(),
            env@ == start,
            env_view(kept@) == without_key(env_view(start.take(i as int)), key@),
        decreases env.len() - i,
    {
        assert(env_view(start.take(i + 1)).drop_last() =~= env_view(start.take(i as int)));
        if env[i].0 != *key {
            let ghost old_k = kept@;
            kept.push((env[i].0.clone(), env[i].1.clone()));
            assert(env_view(kept@) =~= env_view(old_k).push(env_view(start.take(i + 1)).last()));
        }
        i = i + 1;
    }
    assert(start.take(start.len() as int) =~= start);
    *env = kept;
}

/// The character views of overlay entries.
pub open spec fn entries_view(extra: Seq<EnvEntry>) -> Seq<(Seq<char>, Option<Seq<char>>)> {
    Seq::new(extra.len(), |i: int| entry_view(extra[i]))
}

/// The child environment of `ambient` and an optional overlay `extra`.
pub open spec fn child_env_spec(ambient: Seq<(String, String)>, extra: Option<Seq<EnvEntry>>) -> Seq<(Seq<char>, Seq<char>)> {
    match extra {
        Some(x) => overlay(scrubbed(env_view(ambient)), entries_view(x)),
        None => scrubbed(env_view(ambient)),
    }
}

proof fn lemma_keyed_scrubbed(env: Seq<(Seq<char>, Seq<char>)>, key: Seq<char>)
    ensures
        keyed(scrubbed(env), key) == if is_sensitive_name(key) || is_reserved_name(key) {
            Seq::<(Seq<char>, Seq<char>)>::empty()
        } else {
            keyed(env, key)
        },
    decreases env.len(),
{
    if env.len() > 0 {
        lemma_keyed_scrubbed(env.drop_last(), key);
        let p = scrubbed(env.drop_last());
        if !(is_sensitive_name(env.last().0) || is_reserved_name(env.last().0)) {
            lemma_keyed_push(p, env.last(), key);
        }
    }
}

/// Per key, a child environment holds: with no overlay, the scrubbed ambient
/// environment itself; otherwise, for a key the overlay names, exactly one pair
/// with the last entry's value, or none when that entry removes the key; and
/// for any other key, the ambient pairs of that key unless the key is
/// credential-shaped or reserved, in which case none.
pub proof fn law_child_env_per_key(ambient: Seq<(String, String)>, extra: Option<Seq<EnvEntry>>, key: Seq<char>)
    ensures
        extra is None ==> child_env_spec(ambient, extra) == scrubbed(env_view(ambient)),
        keyed(child_env_spec(ambient, extra), key) == match extra {
            Some(x) => match last_setting(entries_view(x), key) {
                Some(Some(v)) => seq![(key, v)],
                Some(None) => Seq::<(Seq<char>, Seq<char>)>::empty(),
                None => keyed(scrubbed(env_view(ambient)), key),
            },
            None => keyed(scrubbed(env_view(ambient)), key),
        },
        keyed(scrubbed(env_view(ambient)), key) == if is_sensitive_name(key) || is_reserved_name(key) {
            Seq::<(Seq<char>, Seq<char>)>::empty()
        } else {
            keyed(env_view(ambient), key)
        },
{
    lemma_keyed_scrubbed(env_view(ambient), key);
    match extra {
        Some(x) => law_last_overlay_entry_decides(scrubbed(env_view(ambient)), entries_view(x), key),
        None => {},
    }
}

/// The child environment: the scrubbed `ambient` environment, then `extra`
/// applied in order (a value sets or replaces its exact key, `None` removes it,
/// later keys win).
pub fn child_env(ambient: &[(String, String)], extra: Option<&[EnvEntry]>) -> (r: Vec<(String, String)>)
    ensures
        env_view(r@) == child_env_spec(ambient@, match extra {
            Some(x) => Some(x@),
            None => None,
        }),
{
    let mut env = scrub_env(ambient);
    match extra {
        None => env,
        Some(x) => {
            let ghost base = scrubbed(env_view(ambient@));
            let mut i: usize = 0;
            assert(entries_view(x@.take(0)) =~= Seq::<(Seq<char>, Option<Seq<char>>)>::empty());
            while i < x.len()
                invariant
                    0 <= i <= x.len(),
                    env_view(env@) == overlay(base, entries_view(x@.take(i as int))),
                decreases x.len() - i,
            {
                let ghost pre = entries_view(x@.take(i as int));
                assert(entries_view(x@.take(i + 1)).drop_last() =~= pre);
                assert(entries_view(x@.take(i + 1)).last() == entry_view(x@[i as int]));
                remove_key(&mut env, &x[i].key);
                match &x[i].value {
                    Some(v) => {
                        let ghost old_e = env@;
                        env.push((x[i].key.clone(), v.clone()));
                        assert(env_view(env@) =~= env_view(old_e).push((x@[i as int].key@, v@)));
                    },
                    None => {},
                }
                i = i + 1;
            }
            assert(x@.take(x.len() as int) =~= x@);
            env
        },
    }
}

/// stdin disposition: `Ignore` leaves fd 0 on `/dev/null`, `Pipe` exposes the
/// child stdin, `Data` writes the bytes and closes.
#[derive(Clone, Debug)]
pub enum SubprocessStdin {
    /// Leave stdin on `/dev/null`.
    Ignore,
    /// Expose a writable stdin pipe to the caller.
    Pipe,
    /// Write these bytes and close stdin.
    Data(String),
}

/// Bounded in-memory collection for one output stream, with an optional
/// full-stream spill file.
#[derive(Clone, Debug)]
pub struct SubprocessCollect {
    /// In-memory cap in bytes; overflow keeps the tail.
    pub max_bytes: usize,
    /// Whole-stream spill cap in bytes; `None` disables spilling.
    pub spill_max_bytes: Option<usize>,
}

/// stdout/stderr disposition; no defaults apply.
#[derive(Clone, Debug)]
pub enum SubprocessOutput {
    /// Expose the raw readable stream to the caller.
    Pipe,
    /// Pass the parent's descriptor through.
    Inherit,
    /// Buffer boundedly with offset-based reads.
    Collect(SubprocessCollect),
}

/// Per-stream stdio dispositions; every stream is explicit.
#[derive(Clone, Debug)]
pub struct SubprocessStdio {
    /// stdin disposition.
    pub stdin: SubprocessStdin,
    /// stdout disposition.
    pub stdout: SubprocessOutput,
    /// stderr disposition.
    pub stderr: SubprocessOutput,
}

/// Exit facts of one closed process.
#[derive(Clone, Debug, PartialEq, Eq)]
pub struct SubprocessOutcome {
    /// Exit code; `None` when the process died from a signal.
    pub exit_code: Option<i32>,
    /// Terminating signal number; `None` on normal exit.
    pub signal: Option<i32>,
}

/// One incremental collected-output read.
#[derive(Clone, Debug, PartialEq, Eq)]
pub struct SubprocessOutputRead {
    /// Stream text from the requested offset (the whole retained tail when lossy).
    pub text: String,
    /// Whole-stream offset to resume from on the next read.
    pub next_offset: u64,
    /// True when the requested offset slid out of the in-memory tail window.
    pub lossy: bool,
    /// Path to the full-stream spill file, when one was created and remains intact.
    pub spill_path: Option<String>,
}

/// One captured stream: the (possibly truncated) text plus recovery info.
pub struct CollectedOutput {
    /// Collected text, the tail of the stream when truncated.
    pub text: String,
    /// True when bytes were dropped from `text`.
    pub truncated: bool,
    /// Path to a file holding the complete stream, when truncated and available.
    pub spill_path: Option<String>,
}

/// `argv` names a program: it is non-empty and `argv[0]` is non-empty.
pub open spec fn names_program(argv: Seq<String>) -> bool {
    argv.len() > 0 && argv[0]@.len() > 0
}

/// Check a spawn request's grace period and argv, in that order.
pub fn validate_spawn(grace_ms: u64, aborted: bool, argv: &[String]) -> (r: Result<(), SubprocessError>)
    ensures
        (grace_ms == 0 || grace_ms > MAX_GRACE_MS) ==> r matches Err(SubprocessError::InvalidGrace),
        (0 < grace_ms <= MAX_GRACE_MS && aborted) ==> r matches Err(SubprocessError::AbortedBeforeSpawn),
        (0 < grace_ms <= MAX_GRACE_MS && !aborted && !names_program(argv@)) ==> r matches Err(SubprocessError::InvalidArgv),
        (0 < grace_ms <= MAX_GRACE_MS && !aborted && names_program(argv@)) ==> r is Ok,
{
    if grace_ms == 0 || grace_ms > MAX_GRACE_MS {
        return Err(SubprocessError::InvalidGrace);
    }
    if aborted {
        return Err(SubprocessError::AbortedBeforeSpawn);
    }
    if argv.len() > 0 && argv[0].as_str().unicode_len() > 0 {
        Ok(())
    } else {
        Err(SubprocessError::InvalidArgv)
    }
}

/// Fully specified POSIX PTY spawn request. Every field is explicit.
#[derive(Debug)]
pub struct SubprocessTerminalSpawnSpec {
    argv: Vec<String>,
    cwd: PathBuf,
    env: Vec<EnvEntry>,
    rows: u16,
    cols: u16,
    grace_ms: u64,
}

impl SubprocessTerminalSpawnSpec {
    /// The argv of the request.
    pub closed spec fn argv_view(&self) -> Seq<String> {
        self.argv@
    }

    /// The overlay of the request.
    pub closed spec fn env_view(&self) -> Seq<EnvEntry> {
        self.env@
    }

    /// The working directory of the request.
    pub closed spec fn cwd_view(&self) -> PathBuf {
        self.cwd
    }

    /// The rows, columns and grace period of the request.
    pub closed spec fn size_view(&self) -> (u16, u16, u64) {
        (self.rows, self.cols, self.grace_ms)
    }

    /// A PTY spawn request, when `argv` names a program.
    pub fn new(argv: Vec<String>, cwd: PathBuf, env: Vec<EnvEntry>, rows: u16, cols: u16, grace_ms: u64)
        -> (r: Result<Self, SubprocessError>)
        ensures
            names_program(argv@) <==> r is Ok,
            !names_program(argv@) ==> r matches Err(SubprocessError::InvalidArgv),
            r matches Ok(s) ==> s.argv_view() == argv@ && s.env_view() == env@ && s.cwd_view() == cwd
                && s.size_view() == (rows, cols, grace_ms),
    {
        if argv.len() > 0 && argv[0].as_str().unicode_len() > 0 {
            Ok(SubprocessTerminalSpawnSpec { argv, cwd, env, rows, cols, grace_ms })
        } else {
            Err(SubprocessError::InvalidArgv)
        }
    }

    /// Program and arguments; `argv[0]` is the executable.
    pub fn argv(&self) -> (r: &[String])
        ensures
            r@ == self.argv_view(),
    {
        self.argv.as_slice()
    }

    /// Child working directory.
    pub fn cwd(&self) -> (r: &PathBuf)
        ensures
            *r == self.cwd_view(),
    {
        &self.cwd
    }

    /// Explicit environment overlay merged after the scrubbed parent.
    pub fn env(&self) -> (r: &[EnvEntry])
        ensures
            r@ == self.env_view(),
    {
        self.env.as_slice()
    }

    /// Initial PTY rows.
    pub fn rows(&self) -> (r: u16)
        ensures
            r == self.size_view().0,
    {
        self.rows
    }

    /// Initial PTY columns.
    pub fn cols(&self) -> (r: u16)
        ensures
            r == self.size_view().1,
    {
        self.cols
    }

    /// TERM-to-KILL grace in milliseconds.
    pub fn grace_ms(&self) -> (r: u64)
        ensures
            r == self.size_view().2,
    {
        self.grace_ms
    }
}

/// Exit facts of a PTY child from its status: a signal death has neither an
/// exit code nor a signal number; otherwise the exit code when it fits `i32`.
pub fn pty_outcome(signaled: bool, exit_code: u32) -> (r: SubprocessOutcome)
    ensures
        r.signal is None,
        signaled ==> r.exit_code is None,
        !signaled ==> (r.exit_code == if exit_code <= i32::MAX as u32 { Some(exit_code as i32) } else { None::<i32> }),
{
    if signaled {
        SubprocessOutcome { exit_code: None, signal: None }
    } else if exit_code <= 0x7fff_ffffu32 {
        SubprocessOutcome { exit_code: Some(exit_code as i32), signal: None }
    } else {
        SubprocessOutcome { exit_code: None, signal: None }
    }
}

/// `s` is an absolute POSIX path.
pub open spec fn is_absolute_path(s: Seq<char>) -> bool {
    s.len() > 0 && s[0] == '/'
}

/// `Path::join` of a single-component `name` onto `dir`: `name` alone when
/// `dir` is empty, else a separator between them unless `dir` ends with one.
pub open spec fn join_path_spec(dir: Seq<char>, name: Seq<char>) -> Seq<char> {
    if dir.len() == 0 {
        name
    } else if dir.last() == '/' {
        dir + name
    } else {
        dir + seq!['/'] + name
    }
}

/// The candidate for `name` in one `PATH` entry, made absolute against `cwd`
/// when the entry is relative and the working directory is known.
pub open spec fn path_candidate(dir: Seq<char>, name: Seq<char>, cwd: Option<Seq<char>>) -> Seq<char> {
    let joined = join_path_spec(dir, name);
    if is_absolute_path(joined) {
        joined
    } else {
        match cwd {
            Some(c) => join_path_spec(c, joined),
            None => joined,
        }
    }
}

/// A `PATH` search candidate is an absolute path whenever the working
/// directory it is resolved against is one.
pub proof fn law_path_candidates_are_absolute(dir: Seq<char>, name: Seq<char>, cwd: Seq<char>)
    requires
        is_absolute_path(cwd),
    ensures
        is_absolute_path(path_candidate(dir, name, Some(cwd))),
{
    let joined = join_path_spec(dir, name);
    if !is_absolute_path(joined) {
        if cwd.last() == '/' {
            assert((cwd + joined)[0] == cwd[0]);
        } else {
            assert((cwd + seq!['/'] + joined)[0] == cwd[0]);
        }
    }
}

/// The value of the first `PATH` entry of `env`, or the empty text.
pub open spec fn path_value(env: Seq<(Seq<char>, Seq<char>)>) -> Seq<char>
    decreases env.len(),
{
    if env.len() == 0 {
        Seq::empty()
    } else if env[0].0 == "PATH"@ {
        env[0].1
    } else {
        path_value(env.drop_first())
    }
}

/// Where an executable is looked for: the candidate paths in order, the first
/// executable file winning; `absolute` when the command was an absolute path.
#[derive(Debug)]
pub struct ExecutableLookup {
    /// The command was an absolute path, its own single candidate.
    pub absolute: bool,
    /// Candidate paths in search order.
    pub candidates: Vec<String>,
}

fn join_path(dir: &[char], name: &[char]) -> (r: Vec<char>)
    ensures
        r@ == join_path_spec(dir@, name@),
{
    let mut r: Vec<char> = Vec::new();
    let mut i: usize = 0;
    while i < dir.len()
        invariant
            0 <= i <= dir.len(),
            r@ == dir@.take(i as int),
        decreases dir.len() - i,
    {
        r.push(dir[i]);
        i = i + 1;
        assert(r@ =~= dir@.take(i as int));
    }
    assert(r@ =~= dir@);
    if dir.len() > 0 && dir[dir.len() - 1] != '/' {
        r.push('/');
    }
    let ghost base = r@;
    let mut j: usize = 0;
    while j < name.len()
        invariant
            0 <= j <= name.len(),
            r@ == base + name@.take(j as int),
        decreases name.len() - j,
    {
        r.push(name[j]);
        j = j + 1;
        assert(r@ =~= base + name@.take(j as int));
    }
    assert(name@.take(name.len() as int) =~= name@);
    proof {
        if dir@.len() == 0 {
            assert(base =~= Seq::<char>::empty());
            assert(r@ =~= name@);
        }
    }
    r
}

fn find_path_value(env: &[(String, String)]) -> (r: Vec<char>)
    ensures
        r@ == path_value(env_view(env@)),
{
    let key = chars_of("PATH");
    let mut i: usize = 0;
    assert(env_view(env@).skip(0) =~= env_view(env@));
    while i < env.len()
        invariant
            0 <= i <= env.len(),
            key@ == "PATH"@,
            path_value(env_view(env@)) == path_value(env_view(env@).skip(i as int)),
        decreases env.len() - i,
    {
        let ghost rest = env_view(env@).skip(i as int);
        assert(rest.drop_first() =~= env_view(env@).skip(i + 1));
        let k = chars_of(env[i].0.as_str());
        if chars_eq(k.as_slice(), key.as_slice()) {
            assert(rest[0] == (env@[i as int].0@, env@[i as int].1@));
            return chars_of(env[i].1.as_str());
        }
        i = i + 1;
    }
    assert(env_view(env@).skip(env.len() as int) =~= Seq::<(Seq<char>, Seq<char>)>::empty());
    Vec::new()
}

/// Plan the lookup of `command` in the child environment `env`, with `cwd` the
/// host's working directory when known: an empty command, or a relative path
/// with a `/`, fails; an absolute path is its own candidate; a bare name gives
/// one candidate per `PATH` entry (split on `:`).
pub fn plan_executable_lookup(command: &str, env: &[(String, String)], cwd: Option<&str>) -> (r: Result<ExecutableLookup, SubprocessError>)
    ensures
        command@.len() == 0 ==> r matches Err(SubprocessError::EmptyExecutable),
        command@.len() > 0 && !is_absolute_path(command@) && command@.contains('/') ==> (r matches Err(SubprocessError::RelativePath(c)) && c@ == command@),
        command@.len() > 0 && is_absolute_path(command@) ==> (r matches Ok(l) && l.absolute && l.candidates@.len() == 1 && l.candidates@[0]@ == command@),
        command@.len() > 0 && !command@.contains('/') ==> (r matches Ok(l) && !l.absolute
            && l.candidates@.len() == split_on(path_value(env_view(env@)), ':').len()
            && forall|k: int| 0 <= k < l.candidates@.len() ==> #[trigger] l.candidates@[k]@
                == path_candidate(split_on(path_value(env_view(env@)), ':')[k], command@, match cwd {
                    Some(c) => Some(c@),
                    None => None,
                })),
{
    let name = chars_of(command);
    if name.len() == 0 {
        return Err(SubprocessError::EmptyExecutable);
    }
    let mut slash = false;
    let mut i: usize = 0;
    while i < name.len()
        invariant
            0 <= i <= name.len(),
            slash == (exists|w: int| 0 <= w < i && #[trigger] name@[w] == '/'),
        decreases name.len() - i,
    {
        if name[i] == '/' {
            slash = true;
        }
        i = i + 1;
    }
    if name[0] == '/' {
        let mut candidates: Vec<String> = Vec::new();
        candidates.push(string_from_chars(name.as_slice()));
        return Ok(ExecutableLookup { absolute: true, candidates });
    }
    if slash {
        return Err(SubprocessError::RelativePath(string_from_chars(name.as_slice())));
    }
    let path = find_path_value(env);
    let pieces = split_char(path.as_slice(), ':');
    let base = match cwd {
        Some(c) => Some(chars_of(c)),
        None => None,
    };
    let ghost cw = match cwd {
        Some(c) => Some(c@),
        None => None::<Seq<char>>,
    };
    let ghost ps = split_on(path_value(env_view(env@)), ':');
    let mut candidates: Vec<String> = Vec::new();
    let mut k: usize = 0;
    while k < pieces.len()
        invariant
            0 <= k <= pieces.len(),
            views(pieces@) == ps,
            candidates@.len() == k,
            name@ == command@,
            cw == match base {
                Some(b) => Some(b@),
                None => None::<Seq<char>>,
            },
            forall|j: int| 0 <= j < k ==> #[trigger] candidates@[j]@ == path_candidate(ps[j], command@, cw),
        decreases pieces.len() - k,
    {
        assert(ps[k as int] == pieces@[k as int]@);
        let joined = join_path(pieces[k].as_slice(), name.as_slice());
        let full = if joined.len() > 0 && joined[0] == '/' {
            joined
        } else {
            match &base {
                Some(b) => join_path(b.as_slice(), joined.as_slice()),
                None => joined,
            }
        };
        candidates.push(string_from_chars(full.as_slice()));
        k = k + 1;
    }
    Ok(ExecutableLookup { absolute: false, candidates })
}

/// The lookup's answer once the host has checked the candidates: the first
/// executable one, or the failure for an absolute path or for a `PATH` search.
pub fn lookup_result(command: &str, lookup: ExecutableLookup, first_executable: Option<usize>) -> (r: Result<String, SubprocessError>)
    requires
        first_executable matches Some(i) ==> i < lookup.candidates@.len(),
    ensures
        first_executable matches Some(i) ==> (r matches Ok(p) && p@ == lookup.candidates@[i as int]@),
        first_executable is None && lookup.absolute ==> (r matches Err(SubprocessError::NotExecutable(c)) && c@ == command@),
        first_executable is None && !lookup.absolute ==> (r matches Err(SubprocessError::NotOnPath(c)) && c@ == command@),
{
    match first_executable {
        Some(i) => Ok(lookup.candidates[i].clone()),
        None => if lookup.absolute {
            Err(SubprocessError::NotExecutable(String::from_str(command)))
        } else {
            Err(SubprocessError::NotOnPath(String::from_str(command)))
        },
    }
}

} // verus!
