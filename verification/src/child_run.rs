//! What a delegated child run decides apart from driving its agent: the checks
//! before publication, the seed it inherits, how its result and stop reason are
//! read from its log, the settlement notice, and the table of continuable children.

use vstd::prelude::*;
use crate::subagent::{SubagentError, SubagentProviderTable, SubagentStopReason, assert_subagent_max_depth};
use crate::text::{chars_of, chars_eq, push_str};

verus! {

/// How a child turn ended.
#[derive(Clone, Copy, Debug, PartialEq, Eq, Structural)]
pub enum TurnEndKind {
    Completed,
    Aborted,
    Error,
    MaxTokens,
    Blocked,
    Interrupted,
}

/// One event of a child's log, as far as its result is read from it.
#[derive(Clone, Copy, Debug, PartialEq, Eq, Structural)]
pub enum ChildEvent {
    /// An assistant message with this many content blocks.
    AssistantMessage { blocks: usize },
    /// The end of a turn.
    TurnEnd(TurnEndKind),
    /// Any other event.
    Other,
}

/// The message of a request aborted before its child was published.
pub open spec fn aborted_message() -> Seq<char> {
    "subagent request was aborted before child publication"@
}

/// Checks made before a child is published: an aborted request fails first, then
/// the depth cap; gives the child's depth.
pub fn child_preflight(aborted: bool, parent_depth: u64, max_depth: Option<u32>) -> (r: Result<u64, SubagentError>)
    ensures
        aborted ==> (r matches Err(SubagentError::Other(m)) && m@ == aborted_message()),
        !aborted ==> r == assert_subagent_max_depth_spec(parent_depth, max_depth),
{
    if aborted {
        return Err(SubagentError::other("subagent request was aborted before child publication"));
    }
    assert_subagent_max_depth(parent_depth, max_depth)
}

/// Checks made before a continuable child is published, before anything is
/// created or asked of a provider: an aborted request fails first, then a
/// provider name that is not registered. Gives the provider's index.
pub fn continuable_preflight(aborted: bool, providers: &SubagentProviderTable, provider: &str) -> (r: Result<usize, SubagentError>)
    ensures
        aborted ==> (r matches Err(SubagentError::Other(m)) && m@ == aborted_message()),
        !aborted && (forall|k: int| 0 <= k < providers.view().len() ==> #[trigger] providers.view()[k].0 != provider@)
            ==> (r matches Err(SubagentError::UnknownProvider(n)) && n@ == provider@),
        !aborted && (exists|k: int| 0 <= k < providers.view().len() && #[trigger] providers.view()[k].0 == provider@)
            ==> (r matches Ok(k) && k < providers.view().len() && providers.view()[k as int].0 == provider@),
{
    if aborted {
        return Err(SubagentError::other("subagent request was aborted before child publication"));
    }
    providers.select(provider, false)
}

/// What [`assert_subagent_max_depth`] returns.
pub open spec fn assert_subagent_max_depth_spec(parent_depth: u64, max_depth: Option<u32>) -> Result<u64, SubagentError> {
    let max: u32 = match max_depth {
        Some(m) => m,
        None => crate::subagent::DEFAULT_SUBAGENT_MAX_DEPTH,
    };
    let child: u64 = if parent_depth == u64::MAX { u64::MAX } else { (parent_depth + 1) as u64 };
    if child > max {
        Err(SubagentError::Depth(child, max))
    } else {
        Ok(child)
    }
}

/// Index of the last turn end.
pub open spec fn last_turn_end(events: Seq<ChildEvent>) -> Option<int>
    decreases events.len(),
{
    if events.len() == 0 {
        None
    } else if events.last() is TurnEnd {
        Some(events.len() - 1)
    } else {
        last_turn_end(events.drop_last())
    }
}

proof fn lemma_last_turn_end(events: Seq<ChildEvent>)
    ensures
        last_turn_end(events) matches Some(i) ==> 0 <= i < events.len() && events[i] is TurnEnd,
    decreases events.len(),
{
    if events.len() > 0 {
        lemma_last_turn_end(events.drop_last());
    }
}

/// How many leading events a child that inherits its parent's context is seeded with:
/// everything through the parent's last turn end, none when no turn has ended.
pub fn completed_turn_len(events: &[ChildEvent]) -> (r: usize)
    ensures
        r == match last_turn_end(events@) {
            Some(i) => i + 1,
            None => 0,
        },
{
    let mut i: usize = events.len();
    assert(events@.take(i as int) =~= events@);
    while i > 0
        invariant
            0 <= i <= events.len(),
            last_turn_end(events@) == last_turn_end(events@.take(i as int)),
        decreases i,
    {
        assert(events@.take(i as int).drop_last() =~= events@.take(i - 1));
        assert(events@.take(i as int).last() == events@[i - 1]);
        if let ChildEvent::TurnEnd(_) = events[i - 1] {
            return i;
        }
        i = i - 1;
    }
    0
}

/// How many of its parent's events a child starts from: a spawned child none, a
/// forked child (one that inherits its parent's context) the completed turns.
pub fn child_seed_len(inherit_parent_context: bool, parent_events: &[ChildEvent]) -> (r: usize)
    ensures
        r == if inherit_parent_context {
            match last_turn_end(parent_events@) {
                Some(i) => i + 1,
                None => 0,
            }
        } else {
            0
        },
{
    if inherit_parent_context {
        completed_turn_len(parent_events)
    } else {
        0
    }
}

/// The seed length a child header records: none for an unseeded child.
pub fn seed_length(seed_len: usize) -> (r: Option<u64>)
    ensures
        seed_len == 0 ==> r is None,
        seed_len > 0 ==> r == Some(seed_len as u64),
{
    if seed_len == 0 {
        None
    } else {
        Some(seed_len as u64)
    }
}

/// Index of the last assistant message that has content.
pub open spec fn last_output(events: Seq<ChildEvent>) -> Option<int>
    decreases events.len(),
{
    if events.len() == 0 {
        None
    } else if events.last() matches ChildEvent::AssistantMessage { blocks } && blocks > 0 {
        Some(events.len() - 1)
    } else {
        last_output(events.drop_last())
    }
}

/// The event whose content is the child's output: the last assistant message with
/// content, if any.
pub fn output_event(events: &[ChildEvent]) -> (r: Option<usize>)
    ensures
        match r {
            Some(i) => last_output(events@) == Some(i as int),
            None => last_output(events@) is None,
        },
{
    let mut i: usize = events.len();
    assert(events@.take(i as int) =~= events@);
    while i > 0
        invariant
            0 <= i <= events.len(),
            last_output(events@) == last_output(events@.take(i as int)),
        decreases i,
    {
        assert(events@.take(i as int).drop_last() =~= events@.take(i - 1));
        assert(events@.take(i as int).last() == events@[i - 1]);
        if let ChildEvent::AssistantMessage { blocks } = events[i - 1] {
            if blocks > 0 {
                return Some(i - 1);
            }
        }
        i = i - 1;
    }
    None
}

/// The stop reason a turn end gives.
pub open spec fn stop_reason_of(kind: Option<TurnEndKind>) -> SubagentStopReason {
    match kind {
        Some(TurnEndKind::Completed) => SubagentStopReason::Completed,
        Some(TurnEndKind::Aborted) => SubagentStopReason::Aborted,
        Some(TurnEndKind::Error) => SubagentStopReason::Error,
        Some(TurnEndKind::MaxTokens) => SubagentStopReason::MaxTokens,
        Some(TurnEndKind::Blocked) => SubagentStopReason::Refusal,
        Some(TurnEndKind::Interrupted) => SubagentStopReason::Error,
        None => SubagentStopReason::Error,
    }
}

/// The kind of the last turn end.
pub open spec fn last_turn_kind(events: Seq<ChildEvent>) -> Option<TurnEndKind> {
    match last_turn_end(events) {
        Some(i) => match events[i] {
            ChildEvent::TurnEnd(k) => Some(k),
            _ => None,
        },
        None => None,
    }
}

/// Why the child stopped: read from its last turn end; an error when none ended.
pub fn child_stop_reason(events: &[ChildEvent]) -> (r: SubagentStopReason)
    ensures
        r == stop_reason_of(last_turn_kind(events@)),
{
    let n = completed_turn_len(events);
    proof {
        lemma_last_turn_end(events@);
    }
    if n == 0 {
        return SubagentStopReason::Error;
    }
    match events[n - 1] {
        ChildEvent::TurnEnd(TurnEndKind::Completed) => SubagentStopReason::Completed,
        ChildEvent::TurnEnd(TurnEndKind::Aborted) => SubagentStopReason::Aborted,
        ChildEvent::TurnEnd(TurnEndKind::Error) => SubagentStopReason::Error,
        ChildEvent::TurnEnd(TurnEndKind::MaxTokens) => SubagentStopReason::MaxTokens,
        ChildEvent::TurnEnd(TurnEndKind::Blocked) => SubagentStopReason::Refusal,
        _ => SubagentStopReason::Error,
    }
}

/// What the settlement summary says of each stop reason.
pub open spec fn settlement_tail(reason: SubagentStopReason) -> Seq<char> {
    match reason {
        SubagentStopReason::Completed => " finished and will do no further work unless you send it more."@,
        SubagentStopReason::Aborted => " was stopped before it finished."@,
        SubagentStopReason::MaxTokens => " ran out of room before it finished."@,
        SubagentStopReason::Refusal => " declined the task."@,
        SubagentStopReason::Error => " failed before it finished."@,
    }
}

/// The one-line summary a parent is told when a background child settles.
pub fn settlement_summary(child_id: &str, reason: SubagentStopReason) -> (r: String)
    ensures
        r@ == "Background subagent "@ + child_id@ + settlement_tail(reason),
{
    let mut s = String::new();
    push_str(&mut s, "Background subagent ");
    push_str(&mut s, child_id);
    let tail = match reason {
        SubagentStopReason::Completed => " finished and will do no further work unless you send it more.",
        SubagentStopReason::Aborted => " was stopped before it finished.",
        SubagentStopReason::MaxTokens => " ran out of room before it finished.",
        SubagentStopReason::Refusal => " declined the task.",
        SubagentStopReason::Error => " failed before it finished.",
    };
    push_str(&mut s, tail);
    s
}

/// The line that introduces the child's closing message, or says it left none.
pub fn settlement_closing(output_empty: bool) -> (r: &'static str)
    ensures
        output_empty ==> r@ == "It left no closing message."@,
        !output_empty ==> r@ == "Its closing message:"@,
{
    if output_empty {
        "It left no closing message."
    } else {
        "Its closing message:"
    }
}

/// One live continuable child.
#[derive(Debug)]
pub struct ContinuableChildInfo {
    /// Delegating parent session id.
    pub parent: String,
    /// Child session id.
    pub child: String,
    /// Provider name recorded at publication.
    pub provider: String,
    /// Durable creation label.
    pub label: String,
}

/// The mathematical value of a continuable child record.
pub open spec fn info_view(i: ContinuableChildInfo) -> (Seq<char>, Seq<char>, Seq<char>, Seq<char>) {
    (i.parent@, i.child@, i.provider@, i.label@)
}

/// The views of child records.
pub open spec fn infos_view(s: Seq<ContinuableChildInfo>) -> Seq<(Seq<char>, Seq<char>, Seq<char>, Seq<char>)> {
    s.map_values(|i: ContinuableChildInfo| info_view(i))
}

/// The continuable children of each parent, keyed by child id.
pub struct ContinuableTable {
    rows: Vec<ContinuableChildInfo>,
}

fn copy_info(i: &ContinuableChildInfo) -> (r: ContinuableChildInfo)
    ensures
        info_view(r) == info_view(*i),
{
    ContinuableChildInfo {
        parent: i.parent.clone(),
        child: i.child.clone(),
        provider: i.provider.clone(),
        label: i.label.clone(),
    }
}

fn find_child(rows: &Vec<ContinuableChildInfo>, child: &str) -> (r: Option<usize>)
    ensures
        match r {
            Some(k) => k < rows.len() && rows@[k as int].child@ == child@,
            None => forall|k: int| 0 <= k < rows.len() ==> rows@[k].child@ != child@,
        },
{
    let c = chars_of(child);
    let mut i: usize = 0;
    while i < rows.len()
        invariant
            0 <= i <= rows.len(),
            c@ == child@,
            forall|k: int| 0 <= k < i ==> rows@[k].child@ != child@,
        decreases rows.len() - i,
    {
        let r = chars_of(rows[i].child.as_str());
        if chars_eq(&r, &c) {
            return Some(i);
        }
        i = i + 1;
    }
    None
}

impl ContinuableTable {
    /// The records, in publication order.
    pub closed spec fn rows_view(&self) -> Seq<(Seq<char>, Seq<char>, Seq<char>, Seq<char>)> {
        infos_view(self.rows@)
    }

    /// Child ids are unique.
    pub closed spec fn wf(&self) -> bool {
        forall|a: int, b: int| 0 <= a < b < self.rows@.len() ==> self.rows@[a].child@ != self.rows@[b].child@
    }

    /// An empty table.
    pub fn new() -> (r: Self)
        ensures
            r.wf(),
            r.rows_view().len() == 0,
    {
        ContinuableTable { rows: Vec::new() }
    }

    /// Records a published child, replacing an earlier record of the same child.
    pub fn publish(&mut self, info: ContinuableChildInfo)
        requires
            old(self).wf(),
        ensures
            final(self).wf(),
            (exists|k: int| 0 <= k < old(self).rows_view().len() && #[trigger] old(self).rows_view()[k].1 == info.child@) ==>
                exists|k: int| 0 <= k < old(self).rows_view().len() && #[trigger] old(self).rows_view()[k].1 == info.child@
                    && final(self).rows_view() == old(self).rows_view().update(k, info_view(info)),
            !(exists|k: int| 0 <= k < old(self).rows_view().len() && #[trigger] old(self).rows_view()[k].1 == info.child@) ==>
                final(self).rows_view() == old(self).rows_view().push(info_view(info)),
    {
        let ghost v = info_view(info);
        match find_child(&self.rows, info.child.as_str()) {
            Some(k) => {
                let ghost before = self.rows@;
                self.rows.set(k, info);
                proof {
                    assert(infos_view(before)[k as int].1 == v.1);
                    assert(infos_view(self.rows@) =~= infos_view(before).update(k as int, v));
                }
            },
            None => {
                let ghost before = self.rows@;
                self.rows.push(info);
                proof {
                    assert(infos_view(self.rows@) =~= infos_view(before).push(v));
                }
            },
        }
    }

    /// The continuable children of `parent`, in publication order.
    pub fn list_continuable(&self, parent: &str) -> (r: Vec<ContinuableChildInfo>)
        ensures
            infos_view(r@) == self.rows_view().filter(|row: (Seq<char>, Seq<char>, Seq<char>, Seq<char>)| row.0 == parent@),
    {
        let p = chars_of(parent);
        let mut out: Vec<ContinuableChildInfo> = Vec::new();
        let mut i: usize = 0;
        while i < self.rows.len()
            invariant
                0 <= i <= self.rows.len(),
                p@ == parent@,
                infos_view(out@) == infos_view(self.rows@).take(i as int).filter(
                    |row: (Seq<char>, Seq<char>, Seq<char>, Seq<char>)| row.0 == parent@,
                ),
            decreases self.rows.len() - i,
        {
            let ghost rows = infos_view(self.rows@);
            assert(rows.take(i + 1).drop_last() =~= rows.take(i as int));
            reveal(Seq::filter);
            let q = chars_of(self.rows[i].parent.as_str());
            if chars_eq(&q, &p) {
                let row = copy_info(&self.rows[i]);
                out.push(row);
                assert(infos_view(out@) =~= infos_view(out@).drop_last().push(info_view(row)));
            }
            i = i + 1;
            assert(infos_view(out@) =~= rows.take(i as int).filter(
                |row: (Seq<char>, Seq<char>, Seq<char>, Seq<char>)| row.0 == parent@,
            ));
        }
        assert(infos_view(self.rows@).take(self.rows.len() as int) =~= infos_view(self.rows@));
        out
    }

    /// Checks that `child` is a continuable child of `parent` before mail is queued.
    pub fn followup_check(&self, child: &str, parent: &str) -> (r: Result<(), SubagentError>)
        requires
            self.wf(),
        ensures
            (forall|k: int| 0 <= k < self.rows_view().len() ==> self.rows_view()[k].1 != child@) ==> (r matches Err(
                SubagentError::Other(m),
            ) && m@ == "unknown continuable child `"@ + child@ + "`"@),
            forall|k: int| 0 <= k < self.rows_view().len() && self.rows_view()[k].1 == child@ ==> (if self.rows_view()[k].0
                == parent@ {
                r is Ok
            } else {
                r matches Err(SubagentError::Other(m)) && m@ == "child `"@ + child@ + "` is not a child of this parent"@
            }),
    {
        match find_child(&self.rows, child) {
            None => {
                let mut m = String::new();
                push_str(&mut m, "unknown continuable child `");
                push_str(&mut m, child);
                push_str(&mut m, "`");
                Err(SubagentError::Other(m))
            },
            Some(k) => {
                assert(self.rows_view()[k as int].1 == child@);
                let q = chars_of(self.rows[k].parent.as_str());
                let p = chars_of(parent);
                if chars_eq(&q, &p) {
                    Ok(())
                } else {
                    let mut m = String::new();
                    push_str(&mut m, "child `");
                    push_str(&mut m, child);
                    push_str(&mut m, "` is not a child of this parent");
                    Err(SubagentError::Other(m))
                }
            },
        }
    }
}

} // verus!
