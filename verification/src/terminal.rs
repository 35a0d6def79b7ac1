//! Owner-scoped PTY sessions: request and result types, the session registry
//! that decides every spawn, send, read, signal and kill, and the
//! deterministic snapshot backend.

use vstd::prelude::*;
use vstd::string::StringExecFns;
use crate::num::{decimal, lemma_decimal_injective, push_u64};
use crate::text::{chars_of, push_str};
use crate::words::{join_pieces, split_char, split_on, views};

verus! {

/// Machine-routable PTY service failure code.
#[derive(Clone, Copy, Debug, Eq, PartialEq)]
pub enum TerminalErrorCode {
    /// A backend type is already registered.
    DuplicateBackend,
    /// An owner-local session name is already in use.
    DuplicateName,
    /// The caller is not the session owner.
    ForeignSession,
    /// No backend is registered for the requested type.
    NoBackend,
    /// The session id is not published.
    NoSession,
    /// The owner is no longer live.
    OwnerNotLive,
    /// The session already has an exclusive send.
    SendActive,
    /// The service is disposing.
    ServiceDisposing,
}

impl TerminalErrorCode {
    /// The routing token of a code.
    pub open spec fn token(self) -> Seq<char> {
        match self {
            TerminalErrorCode::DuplicateBackend => "DUPLICATE_BACKEND"@,
            TerminalErrorCode::DuplicateName => "DUPLICATE_NAME"@,
            TerminalErrorCode::ForeignSession => "FOREIGN_SESSION"@,
            TerminalErrorCode::NoBackend => "NO_BACKEND"@,
            TerminalErrorCode::NoSession => "NO_SESSION"@,
            TerminalErrorCode::OwnerNotLive => "OWNER_NOT_LIVE"@,
            TerminalErrorCode::SendActive => "SEND_ACTIVE"@,
            TerminalErrorCode::ServiceDisposing => "SERVICE_DISPOSING"@,
        }
    }

    /// Stable routing token.
    pub fn as_str(self) -> (r: &'static str)
        ensures
            r@ == self.token(),
    {
        match self {
            TerminalErrorCode::DuplicateBackend => "DUPLICATE_BACKEND",
            TerminalErrorCode::DuplicateName => "DUPLICATE_NAME",
            TerminalErrorCode::ForeignSession => "FOREIGN_SESSION",
            TerminalErrorCode::NoBackend => "NO_BACKEND",
            TerminalErrorCode::NoSession => "NO_SESSION",
            TerminalErrorCode::OwnerNotLive => "OWNER_NOT_LIVE",
            TerminalErrorCode::SendActive => "SEND_ACTIVE",
            TerminalErrorCode::ServiceDisposing => "SERVICE_DISPOSING",
        }
    }
}

/// Error carrying a stable [`TerminalErrorCode`]; its text is the message.
#[derive(Debug)]
pub struct TerminalError {
    message: String,
    code: TerminalErrorCode,
}

impl TerminalError {
    /// The message and code.
    pub closed spec fn view(&self) -> (Seq<char>, TerminalErrorCode) {
        (self.message@, self.code)
    }

    /// A failure with `message` and `code`.
    pub fn new(message: &str, code: TerminalErrorCode) -> (r: Self)
        ensures
            r.view() == (message@, code),
    {
        TerminalError { message: String::from_str(message), code }
    }

    /// A failure with an owned `message` and `code`.
    pub fn from_message(message: String, code: TerminalErrorCode) -> (r: Self)
        ensures
            r.view() == (message@, code),
    {
        TerminalError { message, code }
    }

    /// Stable routing token.
    pub fn code(&self) -> (r: TerminalErrorCode)
        ensures
            r == self.view().1,
    {
        self.code
    }

    /// The message.
    pub fn to_string(&self) -> (r: String)
        ensures
            r@ == self.view().0,
    {
        self.message.clone()
    }
}

/// Tag of [`TerminalSessionId`].
pub struct TerminalSessionIdTag;

/// Registry-issued PTY session id (`pty-N`); owner authorization is the access boundary.
#[derive(Clone, Debug, PartialEq, Eq, Hash)]
pub struct TerminalSessionId {
    value: String,
}

impl TerminalSessionId {
    /// The id text.
    pub closed spec fn view(&self) -> Seq<char> {
        self.value@
    }

    /// Brand `value` as a session id; no format check.
    pub(crate) fn new(value: String) -> (r: Self)
        ensures
            r.view() == value@,
    {
        TerminalSessionId { value }
    }

    /// Reconstruct an id from tool arguments: any non-empty text, no format check.
    pub fn from_arg(value: &str) -> (r: Result<Self, TerminalError>)
        ensures
            value@.len() > 0 ==> (r matches Ok(id) && id.view() == value@),
            value@.len() == 0 ==> (r matches Err(e)
                && e.view() == ("sessionId must be a non-empty string"@, TerminalErrorCode::NoSession)),
    {
        if value.unicode_len() == 0 {
            return Err(TerminalError::new("sessionId must be a non-empty string", TerminalErrorCode::NoSession));
        }
        Ok(TerminalSessionId { value: String::from_str(value) })
    }

    /// The id text such as `pty-1`.
    pub fn as_str(&self) -> (r: &str)
        ensures
            r@ == self.view(),
    {
        self.value.as_str()
    }

    /// A copy of the id.
    pub fn duplicate(&self) -> (r: Self)
        ensures
            r.view() == self.view(),
    {
        TerminalSessionId { value: self.value.clone() }
    }
}

/// Why one interactive send returned control to its caller.
#[derive(Clone, Copy, Debug, Eq, PartialEq)]
pub enum TerminalWaitReason {
    /// Linux stdin-wait, or the snapshot backend's fixed reason.
    StdinRead,
    /// Prompt marker plus silence without stdin-wait evidence.
    InferredIdle,
    /// The send wait exceeded the configured timeout.
    Timeout,
    /// The top-level PTY process exited.
    SessionExit,
}

/// Signals the model-facing PTY surface permits for foreground process groups.
#[derive(Clone, Copy, Debug, Eq, PartialEq)]
pub enum TerminalSignal {
    /// Interrupt the foreground process group.
    Sigint,
    /// Terminate the foreground process group.
    Sigterm,
    /// Kill the foreground process group.
    Sigkill,
    /// Stop the foreground process group.
    Sigtstp,
    /// Hang up the foreground process group.
    Sighup,
}

/// Top-level PTY process status, independent of a send's wait reason.
#[derive(Clone, Debug, Eq, PartialEq)]
pub enum TerminalSessionStatus {
    /// The top-level process is still running.
    Running,
    /// The top-level process has exited.
    Exited {
        /// Exit code, or none when the process was signaled without a code.
        exit_code: Option<i32>,
        /// Signal name when the process was terminated by a signal.
        signal: Option<String>,
    },
}

impl TerminalSessionStatus {
    /// A field-for-field copy.
    pub fn duplicate(&self) -> (r: Self)
        ensures
            r == *self,
    {
        match self {
            TerminalSessionStatus::Running => TerminalSessionStatus::Running,
            TerminalSessionStatus::Exited { exit_code, signal } => TerminalSessionStatus::Exited {
                exit_code: *exit_code,
                signal: match signal {
                    Some(s) => Some(s.clone()),
                    None => None,
                },
            },
        }
    }
}

fn opt_str(o: &Option<String>) -> (r: Option<&str>)
    ensures
        match o {
            Some(s) => r matches Some(t) && t@ == s@,
            None => r is None,
        },
{
    match o {
        Some(s) => Some(s.as_str()),
        None => None,
    }
}

/// The character view of an optional string.
pub open spec fn opt_view(o: Option<String>) -> Option<Seq<char>> {
    match o {
        Some(s) => Some(s@),
        None => None,
    }
}

/// The character view of an optional borrowed string.
pub open spec fn opt_str_view(o: Option<&str>) -> Option<Seq<char>> {
    match o {
        Some(s) => Some(s@),
        None => None,
    }
}

/// Request to create one owner-scoped PTY session.
#[derive(Clone, Debug, Eq, PartialEq)]
pub struct TerminalSpawnRequest {
    backend_type: String,
    name: Option<String>,
    cwd: Option<String>,
}

impl TerminalSpawnRequest {
    /// Backend type, optional name and optional cwd.
    pub closed spec fn view(&self) -> (Seq<char>, Option<Seq<char>>, Option<Seq<char>>) {
        (self.backend_type@, opt_view(self.name), opt_view(self.cwd))
    }

    /// A request for the backend registered as `backend_type`, with no name and no cwd.
    pub fn new(backend_type: &str) -> (r: Self)
        ensures
            r.view() == (backend_type@, None::<Seq<char>>, None::<Seq<char>>),
    {
        TerminalSpawnRequest { backend_type: String::from_str(backend_type), name: None, cwd: None }
    }

    /// The same request with an owner-local display name.
    pub fn with_name(self, name: &str) -> (r: Self)
        ensures
            r.view() == (self.view().0, Some(name@), self.view().2),
    {
        TerminalSpawnRequest { backend_type: self.backend_type, name: Some(String::from_str(name)), cwd: self.cwd }
    }

    /// The same request with an initial working directory.
    pub fn with_cwd(self, cwd: &str) -> (r: Self)
        ensures
            r.view() == (self.view().0, self.view().1, Some(cwd@)),
    {
        TerminalSpawnRequest { backend_type: self.backend_type, name: self.name, cwd: Some(String::from_str(cwd)) }
    }

    /// Registered backend type.
    pub fn backend_type(&self) -> (r: &str)
        ensures
            r@ == self.view().0,
    {
        self.backend_type.as_str()
    }

    /// Optional owner-local display name.
    pub fn name(&self) -> (r: Option<&str>)
        ensures
            opt_str_view(r) == self.view().1,
    {
        opt_str(&self.name)
    }

    /// Optional initial working directory.
    pub fn cwd(&self) -> (r: Option<&str>)
        ensures
            opt_str_view(r) == self.view().2,
    {
        opt_str(&self.cwd)
    }
}

/// Input for one line-oriented terminal interaction.
#[derive(Clone, Debug, Eq, PartialEq)]
pub struct TerminalSendRequest {
    text: String,
    submit: bool,
}

impl TerminalSendRequest {
    /// Text and submit flag.
    pub closed spec fn view(&self) -> (Seq<char>, bool) {
        (self.text@, self.submit)
    }

    /// A send of `text`, followed by Enter when `submit`.
    pub fn new(text: &str, submit: bool) -> (r: Self)
        ensures
            r.view() == (text@, submit),
    {
        TerminalSendRequest { text: String::from_str(text), submit }
    }

    /// UTF-8 text to write.
    pub fn text(&self) -> (r: &str)
        ensures
            r@ == self.view().0,
    {
        self.text.as_str()
    }

    /// Whether Enter follows the text.
    pub fn submit(&self) -> (r: bool)
        ensures
            r == self.view().1,
    {
        self.submit
    }
}

/// Incremental output consumed from one live send operation.
#[derive(Clone, Debug, Eq, PartialEq)]
pub struct TerminalSendRead {
    delta: String,
    truncated: bool,
}

impl TerminalSendRead {
    /// Delta and truncation flag.
    pub closed spec fn view(&self) -> (Seq<char>, bool) {
        (self.delta@, self.truncated)
    }

    /// One incremental read.
    pub fn new(delta: &str, truncated: bool) -> (r: Self)
        ensures
            r.view() == (delta@, truncated),
    {
        TerminalSendRead { delta: String::from_str(delta), truncated }
    }

    /// Output produced since the previous read.
    pub fn delta(&self) -> (r: &str)
        ensures
            r@ == self.view().0,
    {
        self.delta.as_str()
    }

    /// Whether unread output was dropped by the backend's bound.
    pub fn truncated(&self) -> (r: bool)
        ensures
            r == self.view().1,
    {
        self.truncated
    }
}

/// Settled result of one foreground or background send.
#[derive(Clone, Debug, Eq, PartialEq)]
pub struct TerminalSendResult {
    viewport: String,
    wait_reason: TerminalWaitReason,
    session_status: TerminalSessionStatus,
    truncated: bool,
}

impl TerminalSendResult {
    /// Viewport, wait reason, status and truncation flag.
    pub closed spec fn view(&self) -> (Seq<char>, TerminalWaitReason, TerminalSessionStatus, bool) {
        (self.viewport@, self.wait_reason, self.session_status, self.truncated)
    }

    /// A settled send result.
    pub fn new(viewport: &str, wait_reason: TerminalWaitReason, session_status: TerminalSessionStatus, truncated: bool)
        -> (r: Self)
        ensures
            r.view() == (viewport@, wait_reason, session_status, truncated),
    {
        TerminalSendResult { viewport: String::from_str(viewport), wait_reason, session_status, truncated }
    }

    /// Bounded rendered terminal delta remaining at settlement.
    pub fn viewport(&self) -> (r: &str)
        ensures
            r@ == self.view().0,
    {
        self.viewport.as_str()
    }

    /// Why the wait returned.
    pub fn wait_reason(&self) -> (r: TerminalWaitReason)
        ensures
            r == self.view().1,
    {
        self.wait_reason
    }

    /// Top-level session status observed at settlement.
    pub fn session_status(&self) -> (r: TerminalSessionStatus)
        ensures
            r == self.view().2,
    {
        self.session_status.duplicate()
    }

    /// Whether output was dropped.
    pub fn truncated(&self) -> (r: bool)
        ensures
            r == self.view().3,
    {
        self.truncated
    }
}

/// Request for one backward scrollback page.
#[derive(Clone, Debug, Eq, PartialEq)]
pub struct TerminalReadRequest {
    offset: Option<usize>,
    count: Option<usize>,
}

impl Default for TerminalReadRequest {
    fn default() -> (r: Self)
        ensures
            r.view() == (None::<usize>, None::<usize>),
    {
        TerminalReadRequest { offset: None, count: None }
    }
}

impl TerminalReadRequest {
    /// Offset and count.
    pub closed spec fn view(&self) -> (Option<usize>, Option<usize>) {
        (self.offset, self.count)
    }

    /// An empty request; backends apply their own defaults.
    pub fn new() -> (r: Self)
        ensures
            r.view() == (None::<usize>, None::<usize>),
    {
        TerminalReadRequest { offset: None, count: None }
    }

    /// The same request with a newest-relative offset.
    pub fn with_offset(self, offset: usize) -> (r: Self)
        ensures
            r.view() == (Some(offset), self.view().1),
    {
        TerminalReadRequest { offset: Some(offset), count: self.count }
    }

    /// The same request with a line count.
    pub fn with_count(self, count: usize) -> (r: Self)
        ensures
            r.view() == (self.view().0, Some(count)),
    {
        TerminalReadRequest { offset: self.offset, count: Some(count) }
    }

    /// Offset from the newest retained line.
    pub fn offset(&self) -> (r: Option<usize>)
        ensures
            r == self.view().0,
    {
        self.offset
    }

    /// Requested line count.
    pub fn count(&self) -> (r: Option<usize>)
        ensures
            r == self.view().1,
    {
        self.count
    }
}

/// Bounded scrollback page.
#[derive(Clone, Debug, Eq, PartialEq)]
pub struct TerminalReadResult {
    text: String,
    total_lines: usize,
    line_begin: usize,
    line_end: usize,
    truncated: bool,
}

impl TerminalReadResult {
    /// Text, total lines, begin, end and truncation flag.
    pub closed spec fn view(&self) -> (Seq<char>, usize, usize, usize, bool) {
        (self.text@, self.total_lines, self.line_begin, self.line_end, self.truncated)
    }

    /// A scrollback page.
    pub fn new(text: &str, total_lines: usize, line_begin: usize, line_end: usize, truncated: bool) -> (r: Self)
        ensures
            r.view() == (text@, total_lines, line_begin, line_end, truncated),
    {
        TerminalReadResult { text: String::from_str(text), total_lines, line_begin, line_end, truncated }
    }

    /// Retained text in chronological order.
    pub fn text(&self) -> (r: &str)
        ensures
            r@ == self.view().0,
    {
        self.text.as_str()
    }

    /// Number of lines currently retained.
    pub fn total_lines(&self) -> (r: usize)
        ensures
            r == self.view().1,
    {
        self.total_lines
    }

    /// Inclusive newest-relative offset of the first returned line.
    pub fn line_begin(&self) -> (r: usize)
        ensures
            r == self.view().2,
    {
        self.line_begin
    }

    /// Exclusive newest-relative offset after the returned page.
    pub fn line_end(&self) -> (r: usize)
        ensures
            r == self.view().3,
    {
        self.line_end
    }

    /// Whether a bound dropped output.
    pub fn truncated(&self) -> (r: bool)
        ensures
            r == self.view().4,
    {
        self.truncated
    }
}

/// Result of delivering a signal to a verified foreground process group.
#[derive(Clone, Copy, Debug, Eq, PartialEq)]
pub struct TerminalSignalResult {
    delivered: bool,
    target_pgid: i32,
}

impl TerminalSignalResult {
    /// Delivery flag and target group.
    pub closed spec fn view(&self) -> (bool, i32) {
        (self.delivered, self.target_pgid)
    }

    /// A signal result.
    pub fn new(delivered: bool, target_pgid: i32) -> (r: Self)
        ensures
            r.view() == (delivered, target_pgid),
    {
        TerminalSignalResult { delivered, target_pgid }
    }

    /// True only after the backend delivered the signal.
    pub fn delivered(&self) -> (r: bool)
        ensures
            r == self.view().0,
    {
        self.delivered
    }

    /// Process group that received the signal.
    pub fn target_pgid(&self) -> (r: i32)
        ensures
            r == self.view().1,
    {
        self.target_pgid
    }
}

/// One published session as the registry sees it.
pub struct RecordView {
    pub id: Seq<char>,
    pub owner: Seq<char>,
    pub name: Option<Seq<char>>,
    pub backend_type: Seq<char>,
    pub active: bool,
    pub closing: bool,
}

/// The registry: backend types, published sessions in publication order,
/// unpublished spawn reservations per owner, and the last minted number.
pub struct RegistryView {
    pub backends: Seq<Seq<char>>,
    pub sessions: Seq<RecordView>,
    pub pending: Seq<(Seq<char>, u32)>,
    pub next_id: u32,
}

/// A failure as message and code.
pub type Failure = (Seq<char>, TerminalErrorCode);

/// `"unknown PTY session <id>"`.
pub open spec fn msg_unknown(id: Seq<char>) -> Seq<char> {
    "unknown PTY session "@ + id
}

/// `"PTY session <id> belongs to another agent"`.
pub open spec fn msg_foreign(id: Seq<char>) -> Seq<char> {
    "PTY session "@ + id + " belongs to another agent"@
}

/// `"PTY session <id> already has an active send"`.
pub open spec fn msg_active(id: Seq<char>) -> Seq<char> {
    "PTY session "@ + id + " already has an active send"@
}

/// Session `k` is the first with id `id`.
pub open spec fn is_id_at(s: Seq<RecordView>, id: Seq<char>, k: int) -> bool {
    0 <= k < s.len() && s[k].id == id && forall|j: int| 0 <= j < k ==> #[trigger] s[j].id != id
}

/// Position of the session with id `id`.
pub open spec fn find_id(s: Seq<RecordView>, id: Seq<char>) -> Option<int> {
    if exists|k: int| is_id_at(s, id, k) {
        Some(choose|k: int| is_id_at(s, id, k))
    } else {
        None
    }
}

/// The session `id` exists and belongs to `owner`; otherwise the failure.
pub open spec fn owned_spec(st: RegistryView, owner: Seq<char>, id: Seq<char>) -> Result<int, Failure> {
    match find_id(st.sessions, id) {
        None => Err((msg_unknown(id), TerminalErrorCode::NoSession)),
        Some(k) => if st.sessions[k].owner != owner {
            Err((msg_foreign(id), TerminalErrorCode::ForeignSession))
        } else {
            Ok(k)
        },
    }
}

/// Unpublished reservations of `owner`.
pub open spec fn pending_of(p: Seq<(Seq<char>, u32)>, owner: Seq<char>) -> nat
    decreases p.len(),
{
    if p.len() == 0 {
        0
    } else if p.last().0 == owner {
        p.last().1 as nat
    } else {
        pending_of(p.drop_last(), owner)
    }
}

/// Distinct session ids, distinct pending owners with positive counts.
pub open spec fn registry_wf(st: RegistryView) -> bool {
    &&& forall|i: int, j: int| 0 <= i < j < st.sessions.len() ==> #[trigger] st.sessions[i].id != #[trigger] st.sessions[j].id
    &&& forall|i: int, j: int| 0 <= i < j < st.pending.len() ==> #[trigger] st.pending[i].0 != #[trigger] st.pending[j].0
    &&& forall|i: int| 0 <= i < st.pending.len() ==> #[trigger] st.pending[i].1 > 0
}

/// Whether `owner` has a published session or an unpublished spawn.
pub open spec fn activity_spec(st: RegistryView, owner: Seq<char>) -> bool {
    pending_of(st.pending, owner) > 0 || exists|k: int| 0 <= k < st.sessions.len() && #[trigger] st.sessions[k].owner == owner
}

/// The number the next spawn mints.
pub open spec fn next_number(n: u32) -> u32 {
    if n < u32::MAX { (n + 1) as u32 } else { n }
}

/// The id minted for number `n`: `pty-<n>`.
pub open spec fn minted_id(n: u32) -> Seq<char> {
    "pty-"@ + decimal(n as nat)
}

/// Whether `owner` already has a published session named `name`.
pub open spec fn name_taken(st: RegistryView, owner: Seq<char>, name: Seq<char>) -> bool {
    exists|k: int| 0 <= k < st.sessions.len() && #[trigger] st.sessions[k].owner == owner && st.sessions[k].name == Some(name)
}

/// `p` with the reservations of `owner` raised by one (saturating).
pub open spec fn pending_inc(p: Seq<(Seq<char>, u32)>, owner: Seq<char>) -> Seq<(Seq<char>, u32)> {
    if exists|k: int| 0 <= k < p.len() && #[trigger] p[k].0 == owner {
        let k = choose|k: int| 0 <= k < p.len() && #[trigger] p[k].0 == owner;
        p.update(k, (owner, if p[k].1 < u32::MAX { (p[k].1 + 1) as u32 } else { p[k].1 }))
    } else {
        p.push((owner, 1u32))
    }
}

/// Reserve a spawn for `owner`: the backend type must be registered and a
/// given name non-empty and unused by the owner's published sessions; then the
/// owner's reservations rise by one and the next number is minted.
pub open spec fn reserve_spec(st: RegistryView, owner: Seq<char>, backend_type: Seq<char>, name: Option<Seq<char>>)
    -> (RegistryView, Result<Seq<char>, Failure>) {
    if !st.backends.contains(backend_type) {
        (st, Err(("no PTY backend registered for \""@ + backend_type + "\""@, TerminalErrorCode::NoBackend)))
    } else if name matches Some(n) && n.len() == 0 {
        (st, Err(("PTY session name must be non-empty"@, TerminalErrorCode::DuplicateName)))
    } else if name matches Some(n) && name_taken(st, owner, n) {
        (st, Err(("PTY session name \""@ + name->0 + "\" already exists for this owner"@, TerminalErrorCode::DuplicateName)))
    } else {
        let n = next_number(st.next_id);
        (RegistryView { pending: pending_inc(st.pending, owner), next_id: n, ..st }, Ok(minted_id(n)))
    }
}

/// Start an exclusive send on an owned session.
pub open spec fn send_spec(st: RegistryView, owner: Seq<char>, id: Seq<char>) -> (RegistryView, Result<(), Failure>) {
    match owned_spec(st, owner, id) {
        Err(f) => (st, Err(f)),
        Ok(k) => if st.sessions[k].active {
            (st, Err((msg_active(id), TerminalErrorCode::SendActive)))
        } else {
            (RegistryView { sessions: st.sessions.update(k, RecordView { active: true, ..st.sessions[k] }), ..st }, Ok(()))
        },
    }
}

/// Begin closing an owned session: the first closer gets `true` and marks the
/// session closing; a closer while one is in flight gets `false`.
pub open spec fn kill_begin_spec(st: RegistryView, owner: Seq<char>, id: Seq<char>) -> (RegistryView, Result<bool, Failure>) {
    match owned_spec(st, owner, id) {
        Err(f) => (st, Err(f)),
        Ok(k) => if st.sessions[k].closing {
            (st, Ok(false))
        } else {
            (RegistryView { sessions: st.sessions.update(k, RecordView { closing: true, ..st.sessions[k] }), ..st }, Ok(true))
        },
    }
}

/// The sessions of `owner`, in publication order.
pub open spec fn owned_by(s: Seq<RecordView>, owner: Seq<char>) -> Seq<RecordView>
    decreases s.len(),
{
    if s.len() == 0 {
        Seq::empty()
    } else if s.last().owner == owner {
        owned_by(s.drop_last(), owner).push(s.last())
    } else {
        owned_by(s.drop_last(), owner)
    }
}

/// One published session.
pub struct SessionRecord {
    id: TerminalSessionId,
    owner: String,
    name: Option<String>,
    backend_type: String,
    active: bool,
    closing: bool,
}

impl SessionRecord {
    /// The record as characters.
    pub closed spec fn view(&self) -> RecordView {
        RecordView {
            id: self.id.view(),
            owner: self.owner@,
            name: opt_view(self.name),
            backend_type: self.backend_type@,
            active: self.active,
            closing: self.closing,
        }
    }

    /// Registry-minted identity.
    pub fn session_id(&self) -> (r: &TerminalSessionId)
        ensures
            r.view() == self.view().id,
    {
        &self.id
    }

    /// Optional owner-local display name.
    pub fn name(&self) -> (r: Option<&str>)
        ensures
            opt_str_view(r) == self.view().name,
    {
        opt_str(&self.name)
    }

    /// Backend type that created the session.
    pub fn backend_type(&self) -> (r: &str)
        ensures
            r@ == self.view().backend_type,
    {
        self.backend_type.as_str()
    }

    fn duplicate(&self) -> (r: Self)
        ensures
            r.view() == self.view(),
    {
        SessionRecord {
            id: self.id.duplicate(),
            owner: self.owner.clone(),
            name: match &self.name {
                Some(n) => Some(n.clone()),
                None => None,
            },
            backend_type: self.backend_type.clone(),
            active: self.active,
            closing: self.closing,
        }
    }
}

/// The views of records.
pub open spec fn records_view(v: Seq<SessionRecord>) -> Seq<RecordView> {
    Seq::new(v.len(), |i: int| v[i].view())
}

/// The views of pending pairs.
pub open spec fn pending_view(v: Seq<(String, u32)>) -> Seq<(Seq<char>, u32)> {
    Seq::new(v.len(), |i: int| (v[i].0@, v[i].1))
}

/// Registry of PTY backend types and owner-scoped sessions. It decides every
/// operation of the session service; the service runs the backends.
pub struct TerminalRegistry {
    backends: Vec<String>,
    sessions: Vec<SessionRecord>,
    pending: Vec<(String, u32)>,
    next_id: u32,
}

fn text_of(a: &str) -> (r: String)
    ensures
        r@ == a@,
{
    String::from_str(a)
}

/// `p` with one reservation of `owner` released: the count drops by one and
/// the owner leaves the table at zero.
pub open spec fn pending_dec(p: Seq<(Seq<char>, u32)>, owner: Seq<char>) -> Seq<(Seq<char>, u32)> {
    if exists|k: int| 0 <= k < p.len() && #[trigger] p[k].0 == owner {
        let k = choose|k: int| 0 <= k < p.len() && #[trigger] p[k].0 == owner;
        if p[k].1 <= 1 { p.remove(k) } else { p.update(k, (owner, (p[k].1 - 1) as u32)) }
    } else {
        p
    }
}

/// A fresh record for a published session.
pub open spec fn fresh_record(id: Seq<char>, owner: Seq<char>, name: Option<Seq<char>>, backend_type: Seq<char>) -> RecordView {
    RecordView { id, owner, name, backend_type, active: false, closing: false }
}

/// Publish a session: it replaces a record with the same id, else it is appended.
pub open spec fn publish_spec(st: RegistryView, id: Seq<char>, owner: Seq<char>, name: Option<Seq<char>>, backend_type: Seq<char>)
    -> RegistryView {
    let r = fresh_record(id, owner, name, backend_type);
    match find_id(st.sessions, id) {
        Some(k) => RegistryView { sessions: st.sessions.update(k, r), ..st },
        None => RegistryView { sessions: st.sessions.push(r), ..st },
    }
}

/// Clear the exclusive-send flag of `id`, if published.
pub open spec fn settle_spec(st: RegistryView, id: Seq<char>) -> RegistryView {
    match find_id(st.sessions, id) {
        Some(k) => RegistryView { sessions: st.sessions.update(k, RecordView { active: false, ..st.sessions[k] }), ..st },
        None => st,
    }
}

/// End a close: success unpublishes `id`; failure clears its closing mark.
pub open spec fn kill_finish_spec(st: RegistryView, id: Seq<char>, ok: bool) -> RegistryView {
    match find_id(st.sessions, id) {
        Some(k) => if ok {
            RegistryView { sessions: st.sessions.remove(k), ..st }
        } else {
            RegistryView { sessions: st.sessions.update(k, RecordView { closing: false, ..st.sessions[k] }), ..st }
        },
        None => st,
    }
}

impl TerminalRegistry {
    /// The registry state.
    pub closed spec fn view(&self) -> RegistryView {
        RegistryView {
            backends: Seq::new(self.backends@.len(), |i: int| self.backends@[i]@),
            sessions: records_view(self.sessions@),
            pending: pending_view(self.pending@),
            next_id: self.next_id,
        }
    }

    /// An empty registry.
    pub fn new() -> (r: Self)
        ensures
            r.view().backends.len() == 0,
            r.view().sessions.len() == 0,
            r.view().pending.len() == 0,
            r.view().next_id == 0,
            registry_wf(r.view()),
    {
        let r = TerminalRegistry { backends: Vec::new(), sessions: Vec::new(), pending: Vec::new(), next_id: 0 };
        assert(r.view().sessions =~= Seq::<RecordView>::empty());
        assert(r.view().pending =~= Seq::<(Seq<char>, u32)>::empty());
        r
    }

    fn has_backend(&self, t: &String) -> (r: bool)
        ensures
            r == self.view().backends.contains(t@),
    {
        let mut i: usize = 0;
        while i < self.backends.len()
            invariant
                0 <= i <= self.backends.len(),
                forall|k: int| 0 <= k < i ==> #[trigger] self.backends@[k]@ != t@,
            decreases self.backends.len() - i,
        {
            if self.backends[i] == *t {
                assert(self.view().backends[i as int] == t@);
                return true;
            }
            i = i + 1;
        }
        assert forall|k: int| 0 <= k < self.view().backends.len() implies self.view().backends[k] != t@ by {
            assert(self.view().backends[k] == self.backends@[k]@);
        }
        false
    }

    /// Register a backend type: it must be non-empty and new.
    pub fn register_backend(&mut self, backend_type: &str) -> (r: Result<(), TerminalError>)
        requires
            registry_wf(old(self).view()),
        ensures
            registry_wf(final(self).view()),
            backend_type@.len() == 0 ==> (r matches Err(e)
                && e.view() == ("pty backend type must be non-empty"@, TerminalErrorCode::NoBackend))
                && final(self).view() == old(self).view(),
            backend_type@.len() > 0 && old(self).view().backends.contains(backend_type@) ==> (r matches Err(e)
                && e.view() == ("a PTY backend named \""@ + backend_type@ + "\" is already registered"@, TerminalErrorCode::DuplicateBackend))
                && final(self).view() == old(self).view(),
            backend_type@.len() > 0 && !old(self).view().backends.contains(backend_type@) ==> r is Ok
                && final(self).view() == (RegistryView { backends: old(self).view().backends.push(backend_type@), ..old(self).view() }),
    {
        if backend_type.unicode_len() == 0 {
            return Err(TerminalError::new("pty backend type must be non-empty", TerminalErrorCode::NoBackend));
        }
        let t = text_of(backend_type);
        if self.has_backend(&t) {
            let mut m = String::new();
            push_str(&mut m, "a PTY backend named \"");
            push_str(&mut m, backend_type);
            push_str(&mut m, "\" is already registered");
            return Err(TerminalError::from_message(m, TerminalErrorCode::DuplicateBackend));
        }
        let ghost before = self.view();
        self.backends.push(t);
        assert(self.view().backends =~= before.backends.push(backend_type@));
        assert(self.view().sessions =~= before.sessions);
        assert(self.view().pending =~= before.pending);
        Ok(())
    }

    fn find(&self, id: &str) -> (r: Option<usize>)
        ensures
            match r {
                Some(k) => find_id(self.view().sessions, id@) == Some(k as int),
                None => find_id(self.view().sessions, id@) is None,
            },
    {
        let ghost s = self.view().sessions;
        let idt = text_of(id);
        let mut i: usize = 0;
        while i < self.sessions.len()
            invariant
                0 <= i <= self.sessions.len(),
                s == self.view().sessions,
                idt@ == id@,
                forall|j: int| 0 <= j < i ==> #[trigger] s[j].id != id@,
            decreases self.sessions.len() - i,
        {
            assert(s[i as int] == self.sessions@[i as int].view());
            if self.sessions[i].id.value == idt {
                proof {
                    assert(is_id_at(s, id@, i as int));
                    let k = choose|k: int| is_id_at(s, id@, k);
                    if k < i {
                        assert(s[k].id != id@);
                    } else if k > i {
                        assert(s[i as int].id != id@);
                    }
                }
                return Some(i);
            }
            i = i + 1;
        }
        proof {
            if exists|k: int| is_id_at(s, id@, k) {
                let k = choose|k: int| is_id_at(s, id@, k);
                assert(s[k].id != id@);
            }
        }
        None
    }

    fn owned(&self, owner: &str, id: &str) -> (r: Result<usize, TerminalError>)
        ensures
            match r {
                Ok(k) => owned_spec(self.view(), owner@, id@) == Ok::<int, Failure>(k as int) && k < self.sessions.len(),
                Err(e) => owned_spec(self.view(), owner@, id@) == Err::<int, Failure>(e.view()),
            },
    {
        match self.find(id) {
            None => {
                let mut m = String::new();
                push_str(&mut m, "unknown PTY session ");
                push_str(&mut m, id);
                Err(TerminalError::from_message(m, TerminalErrorCode::NoSession))
            },
            Some(k) => {
                let o = text_of(owner);
                assert(self.view().sessions[k as int] == self.sessions@[k as int].view());
                if self.sessions[k].owner != o {
                    let mut m = String::new();
                    push_str(&mut m, "PTY session ");
                    push_str(&mut m, id);
                    push_str(&mut m, " belongs to another agent");
                    assert(m@ =~= msg_foreign(id@));
                    Err(TerminalError::from_message(m, TerminalErrorCode::ForeignSession))
                } else {
                    Ok(k)
                }
            },
        }
    }

    /// Check that `id` is published and owned by `owner`, as reads and signals do.
    pub fn check_owned(&self, owner: &str, id: &TerminalSessionId) -> (r: Result<(), TerminalError>)
        ensures
            match r {
                Ok(_) => owned_spec(self.view(), owner@, id.view()) is Ok,
                Err(e) => owned_spec(self.view(), owner@, id.view()) == Err::<int, Failure>(e.view()),
            },
    {
        match self.owned(owner, id.as_str()) {
            Ok(_) => Ok(()),
            Err(e) => Err(e),
        }
    }

    fn pending_index(&self, owner: &String) -> (r: Option<usize>)
        ensures
            match r {
                Some(k) => k < self.pending.len() && self.pending@[k as int].0@ == owner@,
                None => forall|k: int| 0 <= k < self.pending.len() ==> #[trigger] self.pending@[k].0@ != owner@,
            },
    {
        let mut i: usize = 0;
        while i < self.pending.len()
            invariant
                0 <= i <= self.pending.len(),
                forall|k: int| 0 <= k < i ==> #[trigger] self.pending@[k].0@ != owner@,
            decreases self.pending.len() - i,
        {
            if self.pending[i].0 == *owner {
                return Some(i);
            }
            i = i + 1;
        }
        None
    }

    /// Reservations of `owner` that are not yet published.
    pub fn pending_count(&self, owner: &str) -> (r: u32)
        requires
            registry_wf(self.view()),
        ensures
            r as nat == pending_of(self.view().pending, owner@),
    {
        let o = text_of(owner);
        let ghost p = self.view().pending;
        let mut i: usize = self.pending.len();
        assert(p.take(p.len() as int) =~= p);
        while i > 0
            invariant
                0 <= i <= self.pending.len(),
                p == self.view().pending,
                o@ == owner@,
                pending_of(p, owner@) == pending_of(p.take(i as int), owner@),
            decreases i,
        {
            let ghost q = p.take(i as int);
            assert(q.drop_last() =~= p.take(i - 1));
            assert(q.last() == (self.pending@[i - 1].0@, self.pending@[i - 1].1));
            if self.pending[i - 1].0 == o {
                return self.pending[i - 1].1;
            }
            i = i - 1;
        }
        0
    }

    /// Whether `owner` has a published session or an unpublished spawn.
    pub fn has_owner_activity(&self, owner: &str) -> (r: bool)
        requires
            registry_wf(self.view()),
        ensures
            r == activity_spec(self.view(), owner@),
    {
        if self.pending_count(owner) > 0 {
            return true;
        }
        let o = text_of(owner);
        let mut i: usize = 0;
        while i < self.sessions.len()
            invariant
                0 <= i <= self.sessions.len(),
                o@ == owner@,
                forall|k: int| 0 <= k < i ==> #[trigger] self.view().sessions[k].owner != owner@,
            decreases self.sessions.len() - i,
        {
            assert(self.view().sessions[i as int] == self.sessions@[i as int].view());
            if self.sessions[i].owner == o {
                assert(self.view().sessions[i as int].owner == owner@);
                return true;
            }
            i = i + 1;
        }
        false
    }
}

impl TerminalRegistry {
    fn name_in_use(&self, owner: &String, name: &String) -> (r: bool)
        ensures
            r == name_taken(self.view(), owner@, name@),
    {
        let mut i: usize = 0;
        while i < self.sessions.len()
            invariant
                0 <= i <= self.sessions.len(),
                forall|k: int| 0 <= k < i ==> !(#[trigger] self.view().sessions[k].owner == owner@
                    && self.view().sessions[k].name == Some(name@)),
            decreases self.sessions.len() - i,
        {
            assert(self.view().sessions[i as int] == self.sessions@[i as int].view());
            if self.sessions[i].owner == *owner {
                match &self.sessions[i].name {
                    Some(n) => {
                        if *n == *name {
                            assert(self.view().sessions[i as int].owner == owner@);
                            return true;
                        }
                    },
                    None => {},
                }
            }
            i = i + 1;
        }
        false
    }

    /// Reserve a spawn for `owner` and mint its session id.
    pub fn reserve_spawn(&mut self, owner: &str, backend_type: &str, name: Option<&str>) -> (r: Result<TerminalSessionId, TerminalError>)
        requires
            registry_wf(old(self).view()),
        ensures
            registry_wf(final(self).view()),
            final(self).view() == reserve_spec(old(self).view(), owner@, backend_type@, opt_str_view(name)).0,
            match r {
                Ok(id) => reserve_spec(old(self).view(), owner@, backend_type@, opt_str_view(name)).1 == Ok::<Seq<char>, Failure>(id.view()),
                Err(e) => reserve_spec(old(self).view(), owner@, backend_type@, opt_str_view(name)).1 == Err::<Seq<char>, Failure>(e.view()),
            },
    {
        let t = text_of(backend_type);
        if !self.has_backend(&t) {
            let mut m = String::new();
            push_str(&mut m, "no PTY backend registered for \"");
            push_str(&mut m, backend_type);
            push_str(&mut m, "\"");
            return Err(TerminalError::from_message(m, TerminalErrorCode::NoBackend));
        }
        let o = text_of(owner);
        match name {
            Some(n) => {
                if n.unicode_len() == 0 {
                    return Err(TerminalError::new("PTY session name must be non-empty", TerminalErrorCode::DuplicateName));
                }
                let nt = text_of(n);
                if self.name_in_use(&o, &nt) {
                    let mut m = String::new();
                    push_str(&mut m, "PTY session name \"");
                    push_str(&mut m, n);
                    push_str(&mut m, "\" already exists for this owner");
                    return Err(TerminalError::from_message(m, TerminalErrorCode::DuplicateName));
                }
            },
            None => {},
        }
        let ghost before = self.view();
        let ghost p = before.pending;
        match self.pending_index(&o) {
            Some(k) => {
                proof {
                    assert(p[k as int].0 == owner@);
                    let c = choose|c: int| 0 <= c < p.len() && #[trigger] p[c].0 == owner@;
                    if c != k {
                        if c < k {
                            assert(p[c].0 != p[k as int].0);
                        } else {
                            assert(p[k as int].0 != p[c].0);
                        }
                    }
                }
                let c = self.pending[k].1;
                let nc: u32 = if c < u32::MAX { c + 1 } else { c };
                self.pending.set(k, (o, nc));
                assert(self.view().pending =~= pending_inc(p, owner@));
            },
            None => {
                proof {
                    assert(!exists|k: int| 0 <= k < p.len() && #[trigger] p[k].0 == owner@) by {
                        assert forall|k: int| 0 <= k < p.len() implies #[trigger] p[k].0 != owner@ by {
                            assert(p[k] == (self.pending@[k].0@, self.pending@[k].1));
                        }
                    }
                }
                self.pending.push((o, 1u32));
                assert(self.view().pending =~= pending_inc(p, owner@));
            },
        }
        self.next_id = if self.next_id < u32::MAX { self.next_id + 1 } else { self.next_id };
        let mut id = String::new();
        push_str(&mut id, "pty-");
        push_u64(&mut id, self.next_id as u64);
        assert(self.view().sessions =~= before.sessions);
        assert(self.view().backends =~= before.backends);
        proof {
            let q = self.view().pending;
            assert forall|i: int, j: int| 0 <= i < j < q.len() implies #[trigger] q[i].0 != #[trigger] q[j].0 by {
                if j < p.len() {
                    assert(q[i] == p[i] || q[i].0 == owner@);
                }
            }
        }
        Ok(TerminalSessionId::new(id))
    }
}

impl TerminalRegistry {
    /// Release one reservation of `owner`, after its spawn was published or failed.
    pub fn release_pending(&mut self, owner: &str)
        requires
            registry_wf(old(self).view()),
        ensures
            registry_wf(final(self).view()),
            final(self).view() == (RegistryView { pending: pending_dec(old(self).view().pending, owner@), ..old(self).view() }),
    {
        let o = text_of(owner);
        let ghost before = self.view();
        let ghost p = before.pending;
        match self.pending_index(&o) {
            Some(k) => {
                proof {
                    assert(p[k as int].0 == owner@);
                    let c = choose|c: int| 0 <= c < p.len() && #[trigger] p[c].0 == owner@;
                    if c != k {
                        if c < k {
                            assert(p[c].0 != p[k as int].0);
                        } else {
                            assert(p[k as int].0 != p[c].0);
                        }
                    }
                }
                let c = self.pending[k].1;
                if c <= 1 {
                    self.pending.remove(k);
                    assert(self.view().pending =~= p.remove(k as int));
                } else {
                    self.pending.set(k, (o, c - 1));
                    assert(self.view().pending =~= p.update(k as int, (owner@, (c - 1) as u32)));
                }
            },
            None => {
                proof {
                    assert forall|k: int| 0 <= k < p.len() implies #[trigger] p[k].0 != owner@ by {
                        assert(p[k] == (self.pending@[k].0@, self.pending@[k].1));
                    }
                }
            },
        }
        assert(self.view().sessions =~= before.sessions);
        assert(self.view().backends =~= before.backends);
        proof {
            let q = self.view().pending;
            assert forall|i: int, j: int| 0 <= i < j < q.len() implies #[trigger] q[i].0 != #[trigger] q[j].0 by {
                if exists|k: int| 0 <= k < p.len() && #[trigger] p[k].0 == owner@ {
                    let k = choose|k: int| 0 <= k < p.len() && #[trigger] p[k].0 == owner@;
                    if p[k].1 <= 1 {
                        let i0 = if i < k { i } else { i + 1 };
                        let j0 = if j < k { j } else { j + 1 };
                        assert(q[i] == p[i0] && q[j] == p[j0]);
                    } else {
                        assert(q[i].0 == p[i].0 && q[j].0 == p[j].0);
                    }
                }
            }
            assert forall|i: int| 0 <= i < q.len() implies #[trigger] q[i].1 > 0 by {
                if exists|k: int| 0 <= k < p.len() && #[trigger] p[k].0 == owner@ {
                    let k = choose|k: int| 0 <= k < p.len() && #[trigger] p[k].0 == owner@;
                    if p[k].1 <= 1 {
                        let i0 = if i < k { i } else { i + 1 };
                        assert(q[i] == p[i0]);
                    } else {
                        if i != k {
                            assert(q[i] == p[i]);
                        }
                    }
                }
            }
        }
    }

    /// Publish a spawned session under its minted id.
    pub fn publish(&mut self, id: &TerminalSessionId, owner: &str, name: Option<&str>, backend_type: &str)
        requires
            registry_wf(old(self).view()),
        ensures
            registry_wf(final(self).view()),
            final(self).view() == publish_spec(old(self).view(), id.view(), owner@, opt_str_view(name), backend_type@),
    {
        let ghost before = self.view();
        let record = SessionRecord {
            id: id.duplicate(),
            owner: text_of(owner),
            name: match name {
                Some(n) => Some(text_of(n)),
                None => None,
            },
            backend_type: text_of(backend_type),
            active: false,
            closing: false,
        };
        assert(record.view() == fresh_record(id.view(), owner@, opt_str_view(name), backend_type@));
        match self.find(id.as_str()) {
            Some(k) => {
                self.sessions.set(k, record);
                assert(self.view().sessions =~= before.sessions.update(k as int, fresh_record(id.view(), owner@, opt_str_view(name), backend_type@)));
                proof {
                    let s2 = self.view().sessions;
                    assert forall|i: int, j: int| 0 <= i < j < s2.len() implies #[trigger] s2[i].id != #[trigger] s2[j].id by {
                        if i != k && j != k {
                            assert(s2[i] == before.sessions[i] && s2[j] == before.sessions[j]);
                        } else if i == k {
                            assert(s2[i].id == before.sessions[i].id);
                            assert(s2[j] == before.sessions[j]);
                        } else {
                            assert(s2[j].id == before.sessions[j].id);
                            assert(s2[i] == before.sessions[i]);
                        }
                    }
                }
            },
            None => {
                self.sessions.push(record);
                assert(self.view().sessions =~= before.sessions.push(fresh_record(id.view(), owner@, opt_str_view(name), backend_type@)));
                proof {
                    let s2 = self.view().sessions;
                    assert forall|i: int, j: int| 0 <= i < j < s2.len() implies #[trigger] s2[i].id != #[trigger] s2[j].id by {
                        if j == before.sessions.len() {
                            assert(!is_id_at(before.sessions, id.view(), i));
                            assert(s2[i] == before.sessions[i]);
                            if s2[i].id == id.view() {
                                assert forall|j2: int| 0 <= j2 < i implies #[trigger] before.sessions[j2].id != id.view() by {
                                    assert(before.sessions[j2].id != before.sessions[i].id);
                                }
                                assert(is_id_at(before.sessions, id.view(), i));
                            }
                        } else {
                            assert(s2[i] == before.sessions[i] && s2[j] == before.sessions[j]);
                        }
                    }
                }
            },
        }
        assert(self.view().pending =~= before.pending);
        assert(self.view().backends =~= before.backends);
    }

    /// Start one exclusive send on an owned session.
    pub fn begin_send(&mut self, owner: &str, id: &TerminalSessionId) -> (r: Result<(), TerminalError>)
        requires
            registry_wf(old(self).view()),
        ensures
            registry_wf(final(self).view()),
            final(self).view() == send_spec(old(self).view(), owner@, id.view()).0,
            match r {
                Ok(_) => send_spec(old(self).view(), owner@, id.view()).1 is Ok,
                Err(e) => send_spec(old(self).view(), owner@, id.view()).1 == Err::<(), Failure>(e.view()),
            },
    {
        let ghost before = self.view();
        let k = match self.owned(owner, id.as_str()) {
            Ok(k) => k,
            Err(e) => return Err(e),
        };
        assert(before.sessions[k as int] == self.sessions@[k as int].view());
        if self.sessions[k].active {
            let mut m = String::new();
            push_str(&mut m, "PTY session ");
            push_str(&mut m, id.as_str());
            push_str(&mut m, " already has an active send");
            assert(m@ =~= msg_active(id.view()));
            return Err(TerminalError::from_message(m, TerminalErrorCode::SendActive));
        }
        let mut rec = self.sessions[k].duplicate();
        rec.active = true;
        self.sessions.set(k, rec);
        assert(self.view().sessions =~= before.sessions.update(k as int, RecordView { active: true, ..before.sessions[k as int] }));
        assert(self.view().pending =~= before.pending);
        assert(self.view().backends =~= before.backends);
        proof {
            let s2 = self.view().sessions;
            assert forall|i: int, j: int| 0 <= i < j < s2.len() implies #[trigger] s2[i].id != #[trigger] s2[j].id by {
                assert(s2[i].id == before.sessions[i].id && s2[j].id == before.sessions[j].id);
            }
        }
        Ok(())
    }

    /// Clear the exclusive-send flag once a send settles.
    pub fn settle_send(&mut self, id: &TerminalSessionId)
        requires
            registry_wf(old(self).view()),
        ensures
            registry_wf(final(self).view()),
            final(self).view() == settle_spec(old(self).view(), id.view()),
    {
        let ghost before = self.view();
        match self.find(id.as_str()) {
            Some(k) => {
                assert(before.sessions[k as int] == self.sessions@[k as int].view());
                let mut rec = self.sessions[k].duplicate();
                rec.active = false;
                self.sessions.set(k, rec);
                assert(self.view().sessions =~= before.sessions.update(k as int, RecordView { active: false, ..before.sessions[k as int] }));
                proof {
                    let s2 = self.view().sessions;
                    assert forall|i: int, j: int| 0 <= i < j < s2.len() implies #[trigger] s2[i].id != #[trigger] s2[j].id by {
                        assert(s2[i].id == before.sessions[i].id && s2[j].id == before.sessions[j].id);
                    }
                }
            },
            None => {},
        }
        assert(self.view().pending =~= before.pending);
        assert(self.view().backends =~= before.backends);
        assert(self.view().sessions =~= settle_spec(before, id.view()).sessions);
    }

    /// Begin closing an owned session: `Ok(true)` for the first closer,
    /// `Ok(false)` while a close is in flight.
    pub fn begin_kill(&mut self, owner: &str, id: &TerminalSessionId) -> (r: Result<bool, TerminalError>)
        requires
            registry_wf(old(self).view()),
        ensures
            registry_wf(final(self).view()),
            final(self).view() == kill_begin_spec(old(self).view(), owner@, id.view()).0,
            match r {
                Ok(b) => kill_begin_spec(old(self).view(), owner@, id.view()).1 == Ok::<bool, Failure>(b),
                Err(e) => kill_begin_spec(old(self).view(), owner@, id.view()).1 == Err::<bool, Failure>(e.view()),
            },
    {
        let ghost before = self.view();
        let k = match self.owned(owner, id.as_str()) {
            Ok(k) => k,
            Err(e) => return Err(e),
        };
        assert(before.sessions[k as int] == self.sessions@[k as int].view());
        if self.sessions[k].closing {
            return Ok(false);
        }
        let mut rec = self.sessions[k].duplicate();
        rec.closing = true;
        self.sessions.set(k, rec);
        assert(self.view().sessions =~= before.sessions.update(k as int, RecordView { closing: true, ..before.sessions[k as int] }));
        assert(self.view().pending =~= before.pending);
        assert(self.view().backends =~= before.backends);
        proof {
            let s2 = self.view().sessions;
            assert forall|i: int, j: int| 0 <= i < j < s2.len() implies #[trigger] s2[i].id != #[trigger] s2[j].id by {
                assert(s2[i].id == before.sessions[i].id && s2[j].id == before.sessions[j].id);
            }
        }
        Ok(true)
    }

    /// End a close: success unpublishes the session; failure clears its closing mark.
    pub fn finish_kill(&mut self, id: &TerminalSessionId, ok: bool)
        requires
            registry_wf(old(self).view()),
        ensures
            registry_wf(final(self).view()),
            final(self).view() == kill_finish_spec(old(self).view(), id.view(), ok),
    {
        let ghost before = self.view();
        match self.find(id.as_str()) {
            Some(k) => {
                assert(before.sessions[k as int] == self.sessions@[k as int].view());
                if ok {
                    self.sessions.remove(k);
                    assert(self.view().sessions =~= before.sessions.remove(k as int));
                    proof {
                        let s2 = self.view().sessions;
                        assert forall|i: int, j: int| 0 <= i < j < s2.len() implies #[trigger] s2[i].id != #[trigger] s2[j].id by {
                            let i0 = if i < k { i } else { i + 1 };
                            let j0 = if j < k { j } else { j + 1 };
                            assert(s2[i] == before.sessions[i0] && s2[j] == before.sessions[j0]);
                        }
                    }
                } else {
                    let mut rec = self.sessions[k].duplicate();
                    rec.closing = false;
                    self.sessions.set(k, rec);
                    assert(self.view().sessions =~= before.sessions.update(k as int, RecordView { closing: false, ..before.sessions[k as int] }));
                    proof {
                        let s2 = self.view().sessions;
                        assert forall|i: int, j: int| 0 <= i < j < s2.len() implies #[trigger] s2[i].id != #[trigger] s2[j].id by {
                            assert(s2[i].id == before.sessions[i].id && s2[j].id == before.sessions[j].id);
                        }
                    }
                }
            },
            None => {},
        }
        assert(self.view().pending =~= before.pending);
        assert(self.view().backends =~= before.backends);
        assert(self.view().sessions =~= kill_finish_spec(before, id.view(), ok).sessions);
    }

    /// The sessions of `owner`, in publication order.
    pub fn list(&self, owner: &str) -> (r: Vec<SessionRecord>)
        ensures
            records_view(r@) == owned_by(self.view().sessions, owner@),
    {
        let o = text_of(owner);
        let ghost s = self.view().sessions;
        let mut r: Vec<SessionRecord> = Vec::new();
        let mut i: usize = 0;
        while i < self.sessions.len()
            invariant
                0 <= i <= self.sessions.len(),
                s == self.view().sessions,
                o@ == owner@,
                records_view(r@) == owned_by(s.take(i as int), owner@),
            decreases self.sessions.len() - i,
        {
            assert(s.take(i + 1).drop_last() =~= s.take(i as int));
            assert(s.take(i + 1).last() == self.sessions@[i as int].view());
            if self.sessions[i].owner == o {
                let ghost old_r = r@;
                r.push(self.sessions[i].duplicate());
                assert(records_view(r@) =~= records_view(old_r).push(self.sessions@[i as int].view()));
            }
            i = i + 1;
        }
        assert(s.take(s.len() as int) =~= s);
        r
    }

    /// Unpublish every session and drop every reservation, returning the ids
    /// that were published, in publication order.
    pub fn clear_all(&mut self) -> (r: Vec<TerminalSessionId>)
        requires
            registry_wf(old(self).view()),
        ensures
            registry_wf(final(self).view()),
            final(self).view() == (RegistryView { sessions: Seq::empty(), pending: Seq::empty(), ..old(self).view() }),
            r@.len() == old(self).view().sessions.len(),
            forall|k: int| 0 <= k < r@.len() ==> (#[trigger] r@[k]).view() == old(self).view().sessions[k].id,
    {
        let ghost before = self.view();
        let mut ids: Vec<TerminalSessionId> = Vec::new();
        let mut i: usize = 0;
        while i < self.sessions.len()
            invariant
                0 <= i <= self.sessions.len(),
                before == self.view(),
                ids@.len() == i,
                forall|k: int| 0 <= k < i ==> (#[trigger] ids@[k]).view() == before.sessions[k].id,
            decreases self.sessions.len() - i,
        {
            assert(before.sessions[i as int] == self.sessions@[i as int].view());
            ids.push(self.sessions[i].id.duplicate());
            i = i + 1;
        }
        self.sessions = Vec::new();
        self.pending = Vec::new();
        assert(self.view().sessions =~= Seq::<RecordView>::empty());
        assert(self.view().pending =~= Seq::<(Seq<char>, u32)>::empty());
        assert(self.view().backends =~= before.backends);
        ids
    }
}

proof fn lemma_find_same_ids(s: Seq<RecordView>, t: Seq<RecordView>, id: Seq<char>)
    requires
        s.len() == t.len(),
        forall|i: int| 0 <= i < s.len() ==> #[trigger] s[i].id == t[i].id,
    ensures
        find_id(s, id) == find_id(t, id),
{
    assert forall|k: int| is_id_at(s, id, k) <==> is_id_at(t, id, k) by {
        if is_id_at(s, id, k) {
            assert forall|j: int| 0 <= j < k implies #[trigger] t[j].id != id by {
                assert(s[j].id == t[j].id);
            }
        }
        if is_id_at(t, id, k) {
            assert forall|j: int| 0 <= j < k implies #[trigger] s[j].id != id by {
                assert(s[j].id == t[j].id);
            }
        }
    }
    if exists|k: int| is_id_at(s, id, k) {
        let k = choose|k: int| is_id_at(s, id, k);
        assert(is_id_at(t, id, k));
    }
    if exists|k: int| is_id_at(t, id, k) {
        let k = choose|k: int| is_id_at(t, id, k);
        assert(is_id_at(s, id, k));
    }
}

proof fn lemma_find_after_remove(s: Seq<RecordView>, id: Seq<char>, k: int)
    requires
        find_id(s, id) == Some(k),
        forall|i: int, j: int| 0 <= i < j < s.len() ==> #[trigger] s[i].id != #[trigger] s[j].id,
    ensures
        find_id(s.remove(k), id) is None,
{
    let t = s.remove(k);
    assert(is_id_at(s, id, k));
    if exists|m: int| is_id_at(t, id, m) {
        let m = choose|m: int| is_id_at(t, id, m);
        let m0 = if m < k { m } else { m + 1 };
        assert(t[m] == s[m0]);
        if m0 < k {
            assert(s[m0].id != id);
        } else {
            assert(s[k].id != s[m0].id);
        }
    }
}

proof fn lemma_pending_of_index(p: Seq<(Seq<char>, u32)>, owner: Seq<char>)
    requires
        forall|i: int, j: int| 0 <= i < j < p.len() ==> #[trigger] p[i].0 != #[trigger] p[j].0,
    ensures
        forall|k: int| 0 <= k < p.len() && #[trigger] p[k].0 == owner ==> pending_of(p, owner) == p[k].1 as nat,
        (forall|k: int| 0 <= k < p.len() ==> #[trigger] p[k].0 != owner) ==> pending_of(p, owner) == 0,
    decreases p.len(),
{
    if p.len() > 0 {
        let q = p.drop_last();
        assert forall|i: int, j: int| 0 <= i < j < q.len() implies #[trigger] q[i].0 != #[trigger] q[j].0 by {
            assert(q[i] == p[i] && q[j] == p[j]);
        }
        lemma_pending_of_index(q, owner);
        assert forall|k: int| 0 <= k < p.len() && #[trigger] p[k].0 == owner implies pending_of(p, owner) == p[k].1 as nat by {
            if k < p.len() - 1 {
                assert(q[k] == p[k]);
                assert(p.last().0 != owner);
            }
        }
        if forall|k: int| 0 <= k < p.len() ==> #[trigger] p[k].0 != owner {
            assert(p[p.len() - 1].0 != owner);
            assert forall|k: int| 0 <= k < q.len() implies #[trigger] q[k].0 != owner by {
                assert(q[k] == p[k]);
            }
        }
    }
}

proof fn lemma_owned_by_owner(s: Seq<RecordView>, owner: Seq<char>)
    ensures
        forall|k: int| 0 <= k < owned_by(s, owner).len() ==> (#[trigger] owned_by(s, owner)[k]).owner == owner,
    decreases s.len(),
{
    if s.len() > 0 {
        lemma_owned_by_owner(s.drop_last(), owner);
    }
}

/// Successive spawn reservations mint `pty-1`, `pty-2`, ...: a reservation
/// mints the number after the last one, and two reservations in a row (below
/// the numeric ceiling) mint different ids.
pub proof fn law_reservations_mint_fresh_ids(st: RegistryView, owner: Seq<char>, t: Seq<char>, name: Option<Seq<char>>,
    owner2: Seq<char>, t2: Seq<char>, name2: Option<Seq<char>>)
    requires
        registry_wf(st),
        st.next_id < u32::MAX - 1,
        reserve_spec(st, owner, t, name).1 is Ok,
        reserve_spec(reserve_spec(st, owner, t, name).0, owner2, t2, name2).1 is Ok,
    ensures
        reserve_spec(st, owner, t, name).1 == Ok::<Seq<char>, Failure>(minted_id((st.next_id + 1) as u32)),
        reserve_spec(reserve_spec(st, owner, t, name).0, owner2, t2, name2).1
            == Ok::<Seq<char>, Failure>(minted_id((st.next_id + 2) as u32)),
        minted_id((st.next_id + 1) as u32) != minted_id((st.next_id + 2) as u32),
{
    reveal_strlit("pty-");
    let a = minted_id((st.next_id + 1) as u32);
    let b = minted_id((st.next_id + 2) as u32);
    if a == b {
        assert(a.subrange(4, a.len() as int) =~= decimal((st.next_id + 1) as nat));
        assert(b.subrange(4, b.len() as int) =~= decimal((st.next_id + 2) as nat));
        lemma_decimal_injective((st.next_id + 1) as nat, (st.next_id + 2) as nat);
    }
}

/// A session has at most one send: once a send starts, another send on the
/// same session is refused with `SEND_ACTIVE` until the first settles, after
/// which a send starts again.
pub proof fn law_exclusive_send(st: RegistryView, owner: Seq<char>, id: Seq<char>)
    requires
        registry_wf(st),
        send_spec(st, owner, id).1 is Ok,
    ensures
        send_spec(send_spec(st, owner, id).0, owner, id).1
            == Err::<(), Failure>((msg_active(id), TerminalErrorCode::SendActive)),
        send_spec(settle_spec(send_spec(st, owner, id).0, id), owner, id).1 is Ok,
{
    let k = owned_spec(st, owner, id)->Ok_0;
    let s1 = send_spec(st, owner, id).0;
    lemma_find_same_ids(st.sessions, s1.sessions, id);
    let s2 = settle_spec(s1, id);
    lemma_find_same_ids(s1.sessions, s2.sessions, id);
}

/// Only the owner reaches a session: any other owner's send, read, signal or
/// kill is refused with `FOREIGN_SESSION` and changes nothing.
pub proof fn law_foreign_owner_refused(st: RegistryView, owner: Seq<char>, id: Seq<char>)
    requires
        find_id(st.sessions, id) is Some,
        st.sessions[find_id(st.sessions, id)->0].owner != owner,
    ensures
        owned_spec(st, owner, id) == Err::<int, Failure>((msg_foreign(id), TerminalErrorCode::ForeignSession)),
        send_spec(st, owner, id) == (st, Err::<(), Failure>((msg_foreign(id), TerminalErrorCode::ForeignSession))),
        kill_begin_spec(st, owner, id) == (st, Err::<bool, Failure>((msg_foreign(id), TerminalErrorCode::ForeignSession))),
{
}

/// A session closes once: the first closer is told `true`, a closer while
/// that close is in flight is told `false` and starts no close of its own (the
/// registry is left as it was), and after the close succeeds the session is
/// unknown, so a later kill fails with `NO_SESSION`.
pub proof fn law_kill_once(st: RegistryView, owner: Seq<char>, id: Seq<char>)
    requires
        registry_wf(st),
        kill_begin_spec(st, owner, id).1 == Ok::<bool, Failure>(true),
    ensures
        kill_begin_spec(kill_begin_spec(st, owner, id).0, owner, id).1 == Ok::<bool, Failure>(false),
        kill_begin_spec(kill_begin_spec(st, owner, id).0, owner, id).0 == kill_begin_spec(st, owner, id).0,
        owned_spec(kill_finish_spec(kill_begin_spec(st, owner, id).0, id, true), owner, id)
            == Err::<int, Failure>((msg_unknown(id), TerminalErrorCode::NoSession)),
        kill_begin_spec(kill_finish_spec(kill_begin_spec(st, owner, id).0, id, true), owner, id).1
            == Err::<bool, Failure>((msg_unknown(id), TerminalErrorCode::NoSession)),
{
    let s1 = kill_begin_spec(st, owner, id).0;
    lemma_find_same_ids(st.sessions, s1.sessions, id);
    let k = find_id(s1.sessions, id)->0;
    assert forall|i: int, j: int| 0 <= i < j < s1.sessions.len() implies #[trigger] s1.sessions[i].id != #[trigger] s1.sessions[j].id by {
        assert(s1.sessions[i].id == st.sessions[i].id && s1.sessions[j].id == st.sessions[j].id);
    }
    lemma_find_after_remove(s1.sessions, id, k);
}

/// Owner activity holds from a reservation through publication and the
/// release of the reservation, with no gap.
pub proof fn law_activity_spans_spawn(st: RegistryView, owner: Seq<char>, t: Seq<char>, name: Option<Seq<char>>)
    requires
        registry_wf(st),
        reserve_spec(st, owner, t, name).1 is Ok,
    ensures
        activity_spec(reserve_spec(st, owner, t, name).0, owner),
        activity_spec(publish_spec(reserve_spec(st, owner, t, name).0,
            reserve_spec(st, owner, t, name).1->Ok_0, owner, name, t), owner),
        activity_spec(RegistryView {
            pending: pending_dec(reserve_spec(st, owner, t, name).0.pending, owner),
            ..publish_spec(reserve_spec(st, owner, t, name).0, reserve_spec(st, owner, t, name).1->Ok_0, owner, name, t)
        }, owner),
{
    let s1 = reserve_spec(st, owner, t, name).0;
    let p = st.pending;
    let q = s1.pending;
    assert(q == pending_inc(p, owner));
    assert forall|i: int, j: int| 0 <= i < j < q.len() implies #[trigger] q[i].0 != #[trigger] q[j].0 by {
        if exists|k: int| 0 <= k < p.len() && #[trigger] p[k].0 == owner {
            let k = choose|k: int| 0 <= k < p.len() && #[trigger] p[k].0 == owner;
            assert(q[i].0 == p[i].0 && q[j].0 == p[j].0);
        } else {
            if j == p.len() {
                assert(q[i] == p[i]);
            } else {
                assert(q[i] == p[i] && q[j] == p[j]);
            }
        }
    }
    lemma_pending_of_index(q, owner);
    if exists|k: int| 0 <= k < p.len() && #[trigger] p[k].0 == owner {
        let k = choose|k: int| 0 <= k < p.len() && #[trigger] p[k].0 == owner;
        assert(q[k].0 == owner);
    } else {
        assert(q[p.len() as int].0 == owner);
    }
    let id = reserve_spec(st, owner, t, name).1->Ok_0;
    let s2 = publish_spec(s1, id, owner, name, t);
    match find_id(s1.sessions, id) {
        Some(k) => {
            assert(s2.sessions[k].owner == owner);
        },
        None => {
            assert(s2.sessions[s1.sessions.len() as int].owner == owner);
        },
    }
}

/// A listing shows only the owner's sessions.
pub proof fn law_list_is_owner_scoped(st: RegistryView, owner: Seq<char>)
    ensures
        forall|k: int| 0 <= k < owned_by(st.sessions, owner).len() ==> (#[trigger] owned_by(st.sessions, owner)[k]).owner == owner,
{
    lemma_owned_by_owner(st.sessions, owner);
}

/// The snapshot backend's greeting and prompt.
pub const SNAPSHOT_MOTD: &'static str = "dsh> ";

/// Plugin name of the PTY session service.
pub const PLUGIN_TERMINAL: &'static str = "@deepseek-ai/dsh-terminal";

/// Plugin name of the snapshot backend.
pub const PLUGIN_PTY_SNAPSHOT_BACKEND: &'static str = "pty-snapshot-backend";

/// Deterministic `shell` backend: greeting `dsh> `, a send of `text` answers
/// `text\nPTY_OK\ndsh> `.
pub struct SnapshotBackend;

/// The viewport a snapshot send answers.
pub open spec fn snapshot_viewport(text: Seq<char>) -> Seq<char> {
    text + "\nPTY_OK\ndsh> "@
}

/// `a + b`, capped at the largest `usize`.
pub open spec fn sat_add(a: usize, b: nat) -> usize {
    if a + b <= usize::MAX { (a + b) as usize } else { usize::MAX }
}

/// `a - b`, floored at zero.
pub open spec fn sat_sub(a: nat, b: nat) -> nat {
    if a >= b { (a - b) as nat } else { 0 }
}

/// One backward page of `scrollback`: its lines are the pieces between
/// newlines; the page ends `offset` lines (default 0) before the newest and
/// holds up to `count` lines (default 500), joined with newlines.
pub open spec fn snapshot_page(scrollback: Seq<char>, offset: Option<usize>, count: Option<usize>)
    -> (Seq<char>, nat, usize, usize) {
    let lines = split_on(scrollback, '\n');
    let off = match offset { Some(o) => o, None => 0usize };
    let cnt = match count { Some(c) => c, None => 500usize };
    let end = sat_sub(lines.len(), off as nat);
    let start = sat_sub(end, cnt as nat);
    let text = crate::text::join(lines.subrange(start as int, end as int), "\n"@);
    (text, lines.len(), off, sat_add(off, split_on(text, '\n').len()))
}

/// The live state of one snapshot session.
pub struct SnapshotSession {
    status: TerminalSessionStatus,
    scrollback: String,
}

impl SnapshotSession {
    /// Status and retained scrollback.
    pub closed spec fn view(&self) -> (TerminalSessionStatus, Seq<char>) {
        (self.status, self.scrollback@)
    }

    /// A running session whose scrollback is the greeting.
    pub fn new() -> (r: Self)
        ensures
            r.view() == (TerminalSessionStatus::Running, SNAPSHOT_MOTD@),
    {
        SnapshotSession { status: TerminalSessionStatus::Running, scrollback: String::from_str(SNAPSHOT_MOTD) }
    }

    /// The greeting.
    pub fn motd(&self) -> (r: &'static str)
        ensures
            r@ == SNAPSHOT_MOTD@,
    {
        SNAPSHOT_MOTD
    }

    /// Answer a send: the viewport is appended to the scrollback and returned
    /// with the fixed `StdinRead` reason and the current status.
    pub fn start_send(&mut self, request: &TerminalSendRequest) -> (r: TerminalSendResult)
        ensures
            final(self).view() == (old(self).view().0, old(self).view().1 + snapshot_viewport(request.view().0)),
            r.view() == (snapshot_viewport(request.view().0), TerminalWaitReason::StdinRead, old(self).view().0, false),
    {
        let mut viewport = String::new();
        push_str(&mut viewport, request.text());
        push_str(&mut viewport, "\nPTY_OK\ndsh> ");
        push_str(&mut self.scrollback, viewport.as_str());
        TerminalSendResult { viewport, wait_reason: TerminalWaitReason::StdinRead, session_status: self.status.duplicate(), truncated: false }
    }

    /// One backward page of the scrollback.
    pub fn read(&self, request: &TerminalReadRequest) -> (r: TerminalReadResult)
        ensures
            ({
                let page = snapshot_page(self.view().1, request.view().0, request.view().1);
                r.view() == (page.0, page.1 as usize, page.2, page.3, false)
            }),
    {
        let sb = chars_of(self.scrollback.as_str());
        let lines = split_char(sb.as_slice(), '\n');
        let offset: usize = match request.offset() { Some(o) => o, None => 0 };
        let count: usize = match request.count() { Some(c) => c, None => 500 };
        let end: usize = if lines.len() >= offset { lines.len() - offset } else { 0 };
        let start: usize = if end >= count { end - count } else { 0 };
        let text = join_pieces(&lines, start, end, '\n');
        proof {
            reveal_strlit("\n");
            assert(seq!['\n'] =~= "\n"@);
        }
        let pieces = split_char(text.as_slice(), '\n');
        let line_end: usize = if pieces.len() <= usize::MAX - offset { offset + pieces.len() } else { usize::MAX };
        proof {
            assert(views(pieces@).len() == pieces@.len());
        }
        TerminalReadResult {
            text: crate::text::string_from_chars(text.as_slice()),
            total_lines: lines.len(),
            line_begin: offset,
            line_end,
            truncated: false,
        }
    }

    /// Current top-level status.
    pub fn status(&self) -> (r: TerminalSessionStatus)
        ensures
            r == self.view().0,
    {
        self.status.duplicate()
    }

    /// Close: the status becomes exited with code 0.
    pub fn close(&mut self)
        ensures
            final(self).view() == (TerminalSessionStatus::Exited { exit_code: Some(0), signal: None }, old(self).view().1),
    {
        self.status = TerminalSessionStatus::Exited { exit_code: Some(0), signal: None };
    }

    /// A snapshot session has no process id.
    pub fn pid(&self) -> (r: Option<i32>)
        ensures
            r is None,
    {
        None
    }

    /// Signals are recorded as delivered to group 1.
    pub fn signal(&self, signal: TerminalSignal) -> (r: TerminalSignalResult)
        ensures
            r.view() == (true, 1i32),
    {
        TerminalSignalResult { delivered: true, target_pgid: 1 }
    }
}

} // verus!
