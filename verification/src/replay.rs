//! The token meter's replay of a durable log: step boundaries, the priced
//! surface and its running token total, one event at a time.

use vstd::prelude::*;
use crate::token::{
    MeasurementAnchor, SurfaceOp, SurfaceTokenFold, TokenMeasurement, TokenSurfaceNode, copy_nodes, find_node,
    fold_surface, folded_delta, folded_nodes, law_fold_moves_sum_by_delta, lemma_position_bounds,
    lemma_surface_sum_concat, lemma_surface_sum_nonneg, or_zero, position_of, replace_range_valid,
    saturating_add_signed, snapshot, snapshot_choice, surface_sum,
};

verus! {

/// The step opened by a `step/start` event, with the surface tokens at that point.
#[derive(Clone, Copy, Debug, PartialEq, Eq, Structural)]
pub struct StepStartState {
    /// Turn of the step.
    pub turn: u64,
    /// Step within the turn.
    pub step: u64,
    /// Surface tokens when the step started.
    pub surface_tokens: u64,
}

/// What one durable event is to the meter.
#[derive(Clone, Copy, Debug, PartialEq, Eq, Structural)]
pub enum MeterEventKind {
    /// `step/start` of a turn's step.
    StepStart { turn: u64, step: u64 },
    /// `step/end` of a turn's step.
    StepEnd { turn: u64, step: u64 },
    /// The assistant message of a turn's step.
    AssistantMessage { turn: u64, step: u64 },
    /// Any other event.
    Other,
}

/// One durable event as the meter reads it: its sequence number, its kind, the
/// estimated tokens of the message it projects, and its surface operation.
#[derive(Clone, Copy, Debug, PartialEq, Eq)]
pub struct MeterEvent {
    /// Durable sequence number.
    pub seq: u64,
    /// What the event is.
    pub kind: MeterEventKind,
    /// Estimated tokens of the event's message (0 when it projects none).
    pub tokens: u64,
    /// How the event changes the surface, when it does.
    pub op: Option<SurfaceOp>,
}

/// Why a durable log cannot be replayed.
#[derive(Clone, Copy, Debug, PartialEq, Eq, Structural)]
pub enum MeterError {
    /// A `step/start` arrived while the step `turn`/`step` was still open.
    StepStartBeforeEnd { seq: u64, turn: u64, step: u64 },
    /// A `step/end` without a matching open step.
    UnmatchedStepEnd { seq: u64 },
    /// A replace whose range is not a current range of the surface.
    InvalidReplace { seq: u64, start: u64, end: u64 },
    /// The event's tokens or the replaced tokens exceed the signed range.
    TokensOutOfRange { seq: u64 },
    /// An assistant message without a matching open step.
    UnmatchedAssistant { seq: u64 },
    /// An assistant message without a surface operation.
    MissingSurfaceOp { seq: u64 },
}

/// The open step is `turn`/`step`.
pub open spec fn steps_match(ss: Option<StepStartState>, turn: u64, step: u64) -> bool {
    ss matches Some(s) && s.turn == turn && s.step == step
}

/// The step-boundary error of `ev`, if any.
pub open spec fn step_error(ss: Option<StepStartState>, ev: MeterEvent) -> Option<MeterError> {
    match ev.kind {
        MeterEventKind::StepStart { .. } => match ss {
            Some(s) => Some(MeterError::StepStartBeforeEnd { seq: ev.seq, turn: s.turn, step: s.step }),
            None => None,
        },
        MeterEventKind::StepEnd { turn, step } => if steps_match(ss, turn, step) {
            None
        } else {
            Some(MeterError::UnmatchedStepEnd { seq: ev.seq })
        },
        _ => None,
    }
}

/// The surface error of `ev` on `nodes`, if any: an invalid replace range
/// first, then tokens beyond the signed range.
pub open spec fn surface_error(nodes: Seq<TokenSurfaceNode>, ev: MeterEvent) -> Option<MeterError> {
    match ev.op {
        None => None,
        Some(SurfaceOp::Append) => if ev.tokens > i64::MAX {
            Some(MeterError::TokensOutOfRange { seq: ev.seq })
        } else {
            None
        },
        Some(SurfaceOp::Replace { start, end }) => if !replace_range_valid(nodes, start, end) {
            Some(MeterError::InvalidReplace { seq: ev.seq, start, end })
        } else if ev.tokens > i64::MAX
            || surface_sum(nodes.subrange(position_of(nodes, start), position_of(nodes, end) + 1)) > i64::MAX {
            Some(MeterError::TokensOutOfRange { seq: ev.seq })
        } else {
            None
        },
    }
}

/// The assistant-message error of `ev`, if any.
pub open spec fn assistant_error(ss: Option<StepStartState>, ev: MeterEvent) -> Option<MeterError> {
    match ev.kind {
        MeterEventKind::AssistantMessage { turn, step } => if !steps_match(ss, turn, step) {
            Some(MeterError::UnmatchedAssistant { seq: ev.seq })
        } else if ev.op is None {
            Some(MeterError::MissingSurfaceOp { seq: ev.seq })
        } else {
            None
        },
        _ => None,
    }
}

/// The first error replaying `ev` meets: step boundaries, then the surface,
/// then the assistant message.
pub open spec fn replay_error(ss: Option<StepStartState>, nodes: Seq<TokenSurfaceNode>, ev: MeterEvent) -> Option<MeterError> {
    if step_error(ss, ev) is Some {
        step_error(ss, ev)
    } else if surface_error(nodes, ev) is Some {
        surface_error(nodes, ev)
    } else {
        assistant_error(ss, ev)
    }
}

/// The open step after `ev`.
pub open spec fn next_step_start(ss: Option<StepStartState>, surface_tokens: u64, ev: MeterEvent) -> Option<StepStartState> {
    match ev.kind {
        MeterEventKind::StepStart { turn, step } => Some(StepStartState { turn, step, surface_tokens }),
        MeterEventKind::StepEnd { .. } => None,
        _ => ss,
    }
}

/// `v` clamped to the range of `u64`.
pub open spec fn saturate(v: int) -> int {
    if v < 0 {
        0
    } else if v > u64::MAX {
        u64::MAX as int
    } else {
        v
    }
}

/// What a replay state holds: events consumed, the priced surface, its
/// running total and the open step.
pub struct ReplayModel {
    pub consumed: u64,
    pub surface: Seq<TokenSurfaceNode>,
    pub surface_tokens: u64,
    pub step_start: Option<StepStartState>,
}

/// The state before any event: nothing consumed, an empty surface, no open step.
pub open spec fn empty_model() -> ReplayModel {
    ReplayModel { consumed: 0, surface: Seq::empty(), surface_tokens: 0, step_start: None }
}

/// The running total is the sum of the surface nodes' tokens.
pub open spec fn model_wf(m: ReplayModel) -> bool {
    surface_sum(m.surface) == m.surface_tokens
}

/// One event folded into `m`: the first error it meets, or the state after it.
pub open spec fn step_model(m: ReplayModel, ev: MeterEvent) -> Result<ReplayModel, MeterError> {
    match replay_error(m.step_start, m.surface, ev) {
        Some(e) => Err(e),
        None => Ok(ReplayModel {
            consumed: (m.consumed + 1) as u64,
            step_start: next_step_start(m.step_start, m.surface_tokens, ev),
            surface: match ev.op {
                Some(op) => folded_nodes(m.surface, ev.seq, ev.tokens, op),
                None => m.surface,
            },
            surface_tokens: match ev.op {
                Some(op) => saturate(m.surface_tokens + folded_delta(m.surface, ev.tokens, op)) as u64,
                None => m.surface_tokens,
            },
        }),
    }
}

/// One log entry folded into `m`: a known event as [`step_model`]; an entry
/// the meter does not know is consumed and changes nothing else.
pub open spec fn entry_model(m: ReplayModel, entry: Option<MeterEvent>) -> Result<ReplayModel, MeterError> {
    match entry {
        Some(ev) => step_model(m, ev),
        None => Ok(ReplayModel { consumed: (m.consumed + 1) as u64, ..m }),
    }
}

/// The log entries `entries` folded into `m` in order, stopping at the first error.
pub open spec fn run_model(m: ReplayModel, entries: Seq<Option<MeterEvent>>) -> Result<ReplayModel, MeterError>
    decreases entries.len(),
{
    if entries.len() == 0 {
        Ok(m)
    } else {
        match run_model(m, entries.drop_last()) {
            Err(e) => Err(e),
            Ok(m1) => entry_model(m1, entries.last()),
        }
    }
}

/// Every state a run of `entries` from `m` passes through keeps its surface
/// sum within `u64`.
pub open spec fn run_fits(m: ReplayModel, entries: Seq<Option<MeterEvent>>) -> bool {
    forall|k: int| 0 <= k <= entries.len() ==> (#[trigger] run_model(m, entries.take(k)) matches Ok(mk)
        && surface_sum(mk.surface) <= u64::MAX)
}

proof fn lemma_entry_keeps_total(m: ReplayModel, entry: Option<MeterEvent>)
    requires
        model_wf(m),
        entry_model(m, entry) matches Ok(m2) && surface_sum(m2.surface) <= u64::MAX,
    ensures
        model_wf(entry_model(m, entry)->Ok_0),
{
    match entry {
        Some(ev) => {
            match ev.op {
                Some(op) => {
                    law_fold_moves_sum_by_delta(m.surface, ev.seq, ev.tokens, op);
                    lemma_surface_sum_nonneg(folded_nodes(m.surface, ev.seq, ev.tokens, op));
                },
                None => {},
            }
        },
        None => {},
    }
}

/// Over a whole run of a session log from the empty state, the running surface
/// total stays the sum of the surface nodes' tokens, as long as that sum never
/// leaves the range of `u64` (beyond it the running total saturates).
pub proof fn law_run_keeps_surface_total(entries: Seq<Option<MeterEvent>>)
    requires
        run_fits(empty_model(), entries),
    ensures
        run_model(empty_model(), entries) matches Ok(m) ==> model_wf(m),
    decreases entries.len(),
{
    if entries.len() > 0 {
        let pre = entries.drop_last();
        assert forall|k: int| 0 <= k <= pre.len() implies (#[trigger] run_model(empty_model(), pre.take(k)) matches Ok(mk)
            && surface_sum(mk.surface) <= u64::MAX) by {
            assert(pre.take(k) =~= entries.take(k));
        }
        law_run_keeps_surface_total(pre);
        assert(entries.take(entries.len() as int) =~= entries);
        assert(entries.take(pre.len() as int) =~= pre);
        if let Ok(m1) = run_model(empty_model(), pre) {
            if entry_model(m1, entries.last()) is Ok {
                lemma_entry_keeps_total(m1, entries.last());
            }
        }
    }
}

/// What the meter has folded from one session's log.
#[derive(Debug)]
pub struct ReplayState {
    consumed_events: u64,
    surface: Vec<TokenSurfaceNode>,
    surface_tokens: u64,
    step_start: Option<StepStartState>,
}

impl ReplayState {
    /// Number of events consumed.
    pub closed spec fn consumed_spec(&self) -> u64 {
        self.consumed_events
    }

    /// The priced surface, head to tail.
    pub closed spec fn surface_spec(&self) -> Seq<TokenSurfaceNode> {
        self.surface@
    }

    /// The running surface token total.
    pub closed spec fn surface_tokens_spec(&self) -> u64 {
        self.surface_tokens
    }

    /// The open step, if any.
    pub closed spec fn step_start_spec(&self) -> Option<StepStartState> {
        self.step_start
    }

    /// The running total is the sum of the surface nodes' tokens.
    pub open spec fn wf(&self) -> bool {
        surface_sum(self.surface_spec()) == self.surface_tokens_spec()
    }

    /// What the state holds.
    pub open spec fn model(&self) -> ReplayModel {
        ReplayModel {
            consumed: self.consumed_spec(),
            surface: self.surface_spec(),
            surface_tokens: self.surface_tokens_spec(),
            step_start: self.step_start_spec(),
        }
    }

    /// Nothing consumed: an empty surface and no open step.
    pub fn new() -> (r: Self)
        ensures
            r.wf(),
            r.consumed_spec() == 0,
            r.surface_spec().len() == 0,
            r.surface_tokens_spec() == 0,
            r.step_start_spec() is None,
            r.model() == empty_model(),
    {
        ReplayState { consumed_events: 0, surface: Vec::new(), surface_tokens: 0, step_start: None }
    }

    /// Number of events consumed; the next unread event's sequence number.
    pub fn consumed_events(&self) -> (r: u64)
        ensures
            r == self.consumed_spec(),
    {
        self.consumed_events
    }

    /// The priced surface, head to tail.
    pub fn surface(&self) -> (r: &[TokenSurfaceNode])
        ensures
            r@ == self.surface_spec(),
    {
        self.surface.as_slice()
    }

    /// The running surface token total.
    pub fn surface_tokens(&self) -> (r: u64)
        ensures
            r == self.surface_tokens_spec(),
    {
        self.surface_tokens
    }

    /// The open step, if any.
    pub fn step_start(&self) -> (r: Option<StepStartState>)
        ensures
            r == self.step_start_spec(),
    {
        self.step_start
    }

    /// Measures the pressure at this state, as [`snapshot`] does with its
    /// consumed count, surface and total. The measured total is the sum of the
    /// measured nodes whenever the state's is.
    pub fn measure(&self, anchor: Option<MeasurementAnchor>, anchor_matches: bool, header_tokens: Option<u64>) -> (r: TokenMeasurement)
        requires
            self.surface_tokens_spec() <= i64::MAX,
            anchor matches Some(a) ==> a.surface_tokens <= i64::MAX,
            or_zero(header_tokens) + self.surface_tokens_spec() <= u64::MAX,
        ensures
            r.log_revision_spec() == self.consumed_spec(),
            r.nodes_spec() == self.surface_spec(),
            r.surface_spec() == self.surface_tokens_spec(),
            r.baseline_spec() == snapshot_choice(self.surface_tokens_spec(), anchor, anchor_matches, header_tokens).0,
            r.surface_delta_spec() == snapshot_choice(self.surface_tokens_spec(), anchor, anchor_matches, header_tokens).1,
            self.wf() ==> surface_sum(r.nodes_spec()) == r.surface_spec(),
    {
        let nodes = copy_nodes(self.surface.as_slice());
        snapshot(self.consumed_events, nodes, self.surface_tokens, anchor, anchor_matches, header_tokens)
    }
}

/// The sum of `nodes[a..=b]` when it fits the signed range.
fn bounded_range_sum(nodes: &[TokenSurfaceNode], a: usize, b: usize) -> (r: Option<u64>)
    requires
        a <= b < nodes.len(),
    ensures
        match r {
            Some(t) => t == surface_sum(nodes@.subrange(a as int, b + 1)) && t <= i64::MAX,
            None => surface_sum(nodes@.subrange(a as int, b + 1)) > i64::MAX,
        },
{
    let mut total: u64 = 0;
    let mut i: usize = a;
    while i <= b
        invariant
            a <= i <= b + 1,
            b < nodes.len(),
            total == surface_sum(nodes@.subrange(a as int, i as int)),
            total <= i64::MAX,
        decreases b + 1 - i,
    {
        assert(nodes@.subrange(a as int, i + 1).drop_last() =~= nodes@.subrange(a as int, i as int));
        if nodes[i].tokens > (i64::MAX as u64) - total {
            proof {
                let whole = nodes@.subrange(a as int, b + 1);
                assert(whole =~= nodes@.subrange(a as int, i + 1) + nodes@.subrange(i + 1, b + 1));
                lemma_surface_sum_concat(nodes@.subrange(a as int, i + 1), nodes@.subrange(i + 1, b + 1));
                lemma_surface_sum_nonneg(nodes@.subrange(i + 1, b + 1));
            }
            return None;
        }
        total = total + nodes[i].tokens;
        i = i + 1;
    }
    Some(total)
}

/// Folds one durable event into the replay state: step boundaries must pair,
/// a surface event is priced into the surface and its running total (which
/// saturates), and an assistant message needs its open step and a surface
/// operation. The first error met, in that order, is returned.
pub fn replay_step(state: &ReplayState, ev: &MeterEvent) -> (r: Result<ReplayState, MeterError>)
    requires
        state.consumed_spec() < u64::MAX,
    ensures
        match replay_error(state.step_start_spec(), state.surface_spec(), *ev) {
            Some(e) => r == Err::<ReplayState, MeterError>(e),
            None => r matches Ok(s) && {
                &&& s.consumed_spec() == state.consumed_spec() + 1
                &&& s.step_start_spec() == next_step_start(state.step_start_spec(), state.surface_tokens_spec(), *ev)
                &&& match ev.op {
                    Some(op) => s.surface_spec() == folded_nodes(state.surface_spec(), ev.seq, ev.tokens, op)
                        && s.surface_tokens_spec() == saturate(state.surface_tokens_spec() + folded_delta(state.surface_spec(), ev.tokens, op)),
                    None => s.surface_spec() == state.surface_spec() && s.surface_tokens_spec() == state.surface_tokens_spec(),
                }
            },
        },
        r matches Ok(s) ==> (state.wf() && surface_sum(s.surface_spec()) <= u64::MAX ==> s.wf()),
        step_model(state.model(), *ev) == match r {
            Ok(s) => Ok::<ReplayModel, MeterError>(s.model()),
            Err(e) => Err(e),
        },
{
    let ghost ss = state.step_start_spec();
    let ghost nodes = state.surface_spec();
    let mut next_step = state.step_start;
    match ev.kind {
        MeterEventKind::StepStart { turn, step } => {
            match state.step_start {
                Some(s) => {
                    return Err(MeterError::StepStartBeforeEnd { seq: ev.seq, turn: s.turn, step: s.step });
                },
                None => {},
            }
            next_step = Some(StepStartState { turn, step, surface_tokens: state.surface_tokens });
        },
        MeterEventKind::StepEnd { turn, step } => {
            let matched = match state.step_start {
                Some(s) => s.turn == turn && s.step == step,
                None => false,
            };
            if !matched {
                return Err(MeterError::UnmatchedStepEnd { seq: ev.seq });
            }
            next_step = None;
        },
        _ => {},
    }
    assert(step_error(ss, *ev) is None);
    let fold: Option<SurfaceTokenFold> = match ev.op {
        None => None,
        Some(op) => {
            match op {
                SurfaceOp::Append => {
                    if ev.tokens > i64::MAX as u64 {
                        return Err(MeterError::TokensOutOfRange { seq: ev.seq });
                    }
                },
                SurfaceOp::Replace { start, end } => {
                    let a = find_node(state.surface.as_slice(), start);
                    let b = find_node(state.surface.as_slice(), end);
                    let (a, b) = match (a, b) {
                        (Some(a), Some(b)) => (a, b),
                        _ => {
                            return Err(MeterError::InvalidReplace { seq: ev.seq, start, end });
                        },
                    };
                    if a > b {
                        return Err(MeterError::InvalidReplace { seq: ev.seq, start, end });
                    }
                    if ev.tokens > i64::MAX as u64 {
                        return Err(MeterError::TokensOutOfRange { seq: ev.seq });
                    }
                    proof {
                        lemma_position_bounds(nodes, end);
                    }
                    match bounded_range_sum(state.surface.as_slice(), a, b) {
                        Some(_) => {},
                        None => {
                            return Err(MeterError::TokensOutOfRange { seq: ev.seq });
                        },
                    }
                },
            }
            Some(fold_surface(state.surface.as_slice(), ev.seq, ev.tokens, op))
        },
    };
    assert(surface_error(nodes, *ev) is None);
    match ev.kind {
        MeterEventKind::AssistantMessage { turn, step } => {
            let matched = match state.step_start {
                Some(s) => s.turn == turn && s.step == step,
                None => false,
            };
            if !matched {
                return Err(MeterError::UnmatchedAssistant { seq: ev.seq });
            }
            if fold.is_none() {
                return Err(MeterError::MissingSurfaceOp { seq: ev.seq });
            }
        },
        _ => {},
    }
    assert(replay_error(ss, nodes, *ev) is None);
    match fold {
        Some(f) => {
            let total = saturating_add_signed(state.surface_tokens, f.delta_tokens);
            let next = ReplayState {
                consumed_events: state.consumed_events + 1,
                surface: f.nodes,
                surface_tokens: total,
                step_start: next_step,
            };
            proof {
                let op = ev.op->0;
                law_fold_moves_sum_by_delta(nodes, ev.seq, ev.tokens, op);
                lemma_surface_sum_nonneg(folded_nodes(nodes, ev.seq, ev.tokens, op));
            }
            Ok(next)
        },
        None => {
            let next = ReplayState {
                consumed_events: state.consumed_events + 1,
                surface: copy_nodes(state.surface.as_slice()),
                surface_tokens: state.surface_tokens,
                step_start: next_step,
            };
            Ok(next)
        },
    }
}

/// Where a replay of a log of `len` entries starts from `m`: over again when
/// the log is shorter than what `m` consumed.
pub open spec fn restart_from(m: ReplayModel, len: nat) -> ReplayModel {
    if len < m.consumed { empty_model() } else { m }
}

/// Replays a session log `entries` (`None` for an entry the meter does not
/// know) from where `state` stopped; a log shorter than what was consumed
/// starts over from the empty state. On an error the state holds what the
/// entries before the failing one left.
pub fn replay_to(state: &mut ReplayState, entries: &[Option<MeterEvent>]) -> (r: Result<(), MeterError>)
    requires
        entries@.len() < u64::MAX,
    ensures
        ({
            let start = restart_from(old(state).model(), entries@.len());
            let todo = entries@.subrange(start.consumed as int, entries@.len() as int);
            match r {
                Ok(()) => run_model(start, todo) == Ok::<ReplayModel, MeterError>(final(state).model())
                    && final(state).consumed_spec() == entries@.len(),
                Err(e) => exists|k: int| 0 <= k < todo.len()
                    && #[trigger] run_model(start, todo.take(k)) == Ok::<ReplayModel, MeterError>(final(state).model())
                    && entry_model(final(state).model(), todo[k]) == Err::<ReplayModel, MeterError>(e),
            }
        }),
{
    let n: usize = entries.len();
    let total = n as u64;
    if total < state.consumed_events {
        *state = ReplayState::new();
    }
    let ghost start = state.model();
    assert(start == (restart_from(old(state).model(), entries@.len())));
    let ghost base = start.consumed as int;
    let ghost todo = entries@.subrange(base, entries@.len() as int);
    assert(todo.take(0) =~= Seq::<Option<MeterEvent>>::empty());
    while state.consumed_events < total
        invariant
            entries@.len() < u64::MAX,
            total == entries@.len(),
            n == entries@.len(),
            base == start.consumed,
            start == (restart_from(old(state).model(), entries@.len())),
            base <= state.consumed_spec() <= entries@.len(),
            todo == entries@.subrange(base, entries@.len() as int),
            run_model(start, todo.take(state.consumed_spec() - base)) == Ok::<ReplayModel, MeterError>(state.model()),
        decreases entries@.len() - state.consumed_spec(),
    {
        assert(state.consumed_spec() < n);
        let i = state.consumed_events as usize;
        assert(i == state.consumed_spec());
        let ghost k = i - base;
        assert(0 <= k < todo.len());
        assert(todo[k] == entries@[i as int]);
        assert(todo.take(k + 1).drop_last() =~= todo.take(k));
        assert(todo.take(k + 1).last() == todo[k]);
        match &entries[i] {
            Some(ev) => {
                match replay_step(state, ev) {
                    Ok(next) => {
                        *state = next;
                    },
                    Err(e) => {
                        assert(run_model(start, todo.take(k)) == Ok::<ReplayModel, MeterError>(state.model())
                            && entry_model(state.model(), todo[k]) == Err::<ReplayModel, MeterError>(e));
                        return Err(e);
                    },
                }
            },
            None => {
                state.consumed_events = state.consumed_events + 1;
            },
        }
    }
    assert(todo.take(todo.len() as int) =~= todo);
    Ok(())
}

} // verus!
