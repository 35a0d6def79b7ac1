//! The lifecycle of one interactive send on a PTY session: who may start a send,
//! when it settles (once), how a cancel interrupts it, and which readiness poll
//! loop is still current. Time, output and the terminal itself stay with the caller.

use vstd::prelude::*;
use vstd::string::StringExecFns;
use crate::bash::admission_spec;
use crate::text::{push_char, push_str};
use crate::terminal::{TerminalSessionStatus, TerminalWaitReason};

verus! {

/// The state of the send in flight.
#[derive(Clone, Copy, Debug, PartialEq, Eq, Structural)]
pub struct ActiveSend {
    /// Send id.
    pub id: u64,
    /// A cancel was requested.
    pub cancel_requested: bool,
    /// An interrupt is being delivered.
    pub interrupting: bool,
    /// Input is being written.
    pub writing: bool,
    /// The send has settled.
    pub finished: bool,
}

/// The send lifecycle of one PTY session.
#[derive(Debug)]
pub struct SendLifecycle {
    active: Option<ActiveSend>,
    poll_gen: u64,
    next_send_id: u64,
    closing: bool,
    close_started: bool,
}

/// The mathematical state of a send lifecycle.
pub struct LifecycleView {
    pub active: Option<ActiveSend>,
    pub poll_gen: u64,
    pub next_send_id: u64,
    pub closing: bool,
    pub close_started: bool,
}

/// `x + 1`, saturating.
pub open spec fn bump(x: u64) -> u64 {
    if x == u64::MAX { x } else { (x + 1) as u64 }
}

/// The active send is `id` and has not settled.
pub open spec fn is_live(v: LifecycleView, id: u64) -> bool {
    v.active matches Some(a) && a.id == id && !a.finished
}

/// The lifecycle after settling `id`: marked finished, and unless `retain` is set,
/// current polls are invalidated and the send cleared. Nothing changes when `id` is
/// not the live send.
pub open spec fn settle_spec(v: LifecycleView, id: u64, retain: bool) -> (LifecycleView, bool) {
    if !is_live(v, id) {
        (v, false)
    } else if retain {
        (LifecycleView { active: Some(ActiveSend { finished: true, ..v.active->0 }), ..v }, true)
    } else {
        (LifecycleView { active: None, poll_gen: bump(v.poll_gen), ..v }, true)
    }
}

/// The lifecycle after a cancel request for `id`: the live send is marked cancelled
/// and interrupting, and current polls are invalidated.
pub open spec fn cancel_spec(v: LifecycleView, id: u64) -> (LifecycleView, bool) {
    if !is_live(v, id) {
        (v, false)
    } else {
        (LifecycleView {
            active: Some(ActiveSend { cancel_requested: true, interrupting: true, ..v.active->0 }),
            poll_gen: bump(v.poll_gen),
            ..v
        }, true)
    }
}

/// A poll of generation `generation` for `id` still runs: it is the current
/// generation, the send is live and not interrupting, and the session is not closing.
pub open spec fn poll_current(v: LifecycleView, id: u64, generation: u64) -> bool {
    &&& v.poll_gen == generation
    &&& is_live(v, id)
    &&& !v.active->0.interrupting
    &&& !v.closing
}

/// What a send does once the foreground inspection that precedes its input is back.
#[derive(Clone, Copy, Debug, PartialEq, Eq, Structural)]
pub enum InspectionOutcome {
    /// The inspection failed: the session is taken as exited, and `settled`
    /// says whether that settled the send (with reason `SESSION_EXIT`).
    Exited { settled: bool },
    /// The send was cancelled, settled, replaced or interrupted, or the session
    /// is closing: it goes no further.
    Stop,
    /// The send goes on to its input.
    Proceed,
}

/// What a send does once its input was written.
#[derive(Clone, Copy, Debug, PartialEq, Eq, Structural)]
pub enum WriteOutcome {
    /// A cancel arrived during the write, which succeeded: interrupt the foreground.
    Interrupt,
    /// A cancel arrived during the write, which failed: stop.
    Stop,
    /// Go on to the readiness polls.
    Continue,
}

/// The input phase of `id` must stop: it is no longer the send, or was
/// cancelled, settled or interrupted.
pub open spec fn abandoned(v: LifecycleView, id: u64) -> bool {
    match v.active {
        Some(a) => a.id != id || a.cancel_requested || a.finished || a.interrupting,
        None => true,
    }
}

/// The lifecycle and outcome after the inspection for `id` came back (`inspected`
/// false when it failed): a failure settles the send as a session exit unless it
/// is being interrupted; a success proceeds unless the send was abandoned or the
/// session is closing.
pub open spec fn inspection_spec(v: LifecycleView, id: u64, inspected: bool) -> (LifecycleView, InspectionOutcome) {
    if !inspected {
        if v.active matches Some(a) && a.id == id && a.interrupting {
            (v, InspectionOutcome::Stop)
        } else {
            (settle_spec(v, id, false).0, InspectionOutcome::Exited { settled: settle_spec(v, id, false).1 })
        }
    } else if abandoned(v, id) || v.closing {
        (v, InspectionOutcome::Stop)
    } else {
        (v, InspectionOutcome::Proceed)
    }
}

/// The lifecycle with the `writing` mark of send `id` set to `writing`.
pub open spec fn writing_spec(v: LifecycleView, id: u64, writing: bool) -> LifecycleView {
    match v.active {
        Some(a) => if a.id == id {
            LifecycleView { active: Some(ActiveSend { writing, ..a }), ..v }
        } else {
            v
        },
        None => v,
    }
}

/// The lifecycle and outcome after the input of `id` was written (`write_ok`
/// false when the write failed): the writing mark is cleared, and a cancel that
/// arrived meanwhile interrupts after a good write and stops after a failed one.
pub open spec fn write_done_spec(v: LifecycleView, id: u64, write_ok: bool) -> (LifecycleView, WriteOutcome) {
    let v1 = writing_spec(v, id, false);
    if v1.active matches Some(a) && a.id == id && a.cancel_requested {
        (v1, if write_ok { WriteOutcome::Interrupt } else { WriteOutcome::Stop })
    } else {
        (v1, WriteOutcome::Continue)
    }
}

impl SendLifecycle {
    /// The lifecycle's state.
    pub closed spec fn view(&self) -> LifecycleView {
        LifecycleView {
            active: self.active,
            poll_gen: self.poll_gen,
            next_send_id: self.next_send_id,
            closing: self.closing,
            close_started: self.close_started,
        }
    }

    /// No send, no poll, not closing.
    pub fn new() -> (r: Self)
        ensures
            r.view() == (LifecycleView { active: None, poll_gen: 0, next_send_id: 0, closing: false, close_started: false }),
    {
        SendLifecycle { active: None, poll_gen: 0, next_send_id: 0, closing: false, close_started: false }
    }

    /// The id of the send in flight, settled or not.
    pub fn active_id(&self) -> (r: Option<u64>)
        ensures
            r == match self.view().active {
                Some(a) => Some(a.id),
                None => None,
            },
    {
        match self.active {
            Some(a) => Some(a.id),
            None => None,
        }
    }

    /// Starts a send: a closing or exited session, or one with a send in flight,
    /// answers at once with the reason and status it settles with; otherwise the
    /// next send id is minted and the send becomes live.
    pub fn start(&mut self, status: &TerminalSessionStatus) -> (r: Result<u64, (TerminalWaitReason, TerminalSessionStatus)>)
        ensures
            ({
                let o = old(self).view();
                match admission_spec(o.closing, *status, o.active is Some) {
                    Some(answer) => r == Err::<u64, (TerminalWaitReason, TerminalSessionStatus)>(answer) && final(self).view() == o,
                    None => r == Ok::<u64, (TerminalWaitReason, TerminalSessionStatus)>(bump(o.next_send_id))
                        && final(self).view() == (LifecycleView {
                            next_send_id: bump(o.next_send_id),
                            active: Some(ActiveSend {
                                id: bump(o.next_send_id),
                                cancel_requested: false,
                                interrupting: false,
                                writing: false,
                                finished: false,
                            }),
                            ..o
                        }),
                }
            }),
    {
        match crate::bash::send_admission(self.closing, status, self.active.is_some()) {
            Some(answer) => Err(answer),
            None => {
                self.next_send_id = if self.next_send_id == u64::MAX { u64::MAX } else { self.next_send_id + 1 };
                let id = self.next_send_id;
                self.active = Some(ActiveSend { id, cancel_requested: false, interrupting: false, writing: false, finished: false });
                Ok(id)
            },
        }
    }

    /// Settles `id` when it is the live send; says whether it did.
    pub fn settle(&mut self, id: u64, retain: bool) -> (r: bool)
        ensures
            (final(self).view(), r) == settle_spec(old(self).view(), id, retain),
    {
        let live = match self.active {
            Some(a) => a.id == id && !a.finished,
            None => false,
        };
        if !live {
            return false;
        }
        if retain {
            let a = self.active.unwrap();
            self.active = Some(ActiveSend { finished: true, ..a });
        } else {
            self.poll_gen = if self.poll_gen == u64::MAX { u64::MAX } else { self.poll_gen + 1 };
            self.active = None;
        }
        true
    }

    /// Whether the input phase of `id` must stop: it is no longer the send, or was
    /// cancelled, settled or interrupted.
    pub fn input_abandoned(&self, id: u64) -> (r: bool)
        ensures
            r == match self.view().active {
                Some(a) => a.id != id || a.cancel_requested || a.finished || a.interrupting,
                None => true,
            },
    {
        match self.active {
            Some(a) => a.id != id || a.cancel_requested || a.finished || a.interrupting,
            None => true,
        }
    }

    /// Whether the session is closing.
    pub fn closing(&self) -> (r: bool)
        ensures
            r == self.view().closing,
    {
        self.closing
    }

    /// Marks whether input of `id` is being written.
    pub fn set_writing(&mut self, id: u64, writing: bool)
        ensures
            final(self).view() == match old(self).view().active {
                Some(a) => if a.id == id {
                    LifecycleView { active: Some(ActiveSend { writing, ..a }), ..old(self).view() }
                } else {
                    old(self).view()
                },
                None => old(self).view(),
            },
    {
        match self.active {
            Some(a) => {
                if a.id == id {
                    self.active = Some(ActiveSend { writing, ..a });
                }
            },
            None => {},
        }
    }

    /// Whether a cancel of `id` arrived while its input was written.
    pub fn cancelled_during_write(&self, id: u64) -> (r: bool)
        ensures
            r == (self.view().active matches Some(a) && a.id == id && a.cancel_requested),
    {
        match self.active {
            Some(a) => a.id == id && a.cancel_requested,
            None => false,
        }
    }

    /// The foreground inspection before the input of `id` came back
    /// (`inspected` false when it failed); decides how the send goes on.
    pub fn after_inspection(&mut self, id: u64, inspected: bool) -> (r: InspectionOutcome)
        ensures
            (final(self).view(), r) == inspection_spec(old(self).view(), id, inspected),
    {
        if !inspected {
            let interrupting = match self.active {
                Some(a) => a.id == id && a.interrupting,
                None => false,
            };
            if interrupting {
                return InspectionOutcome::Stop;
            }
            let settled = self.settle(id, false);
            return InspectionOutcome::Exited { settled };
        }
        if self.input_abandoned(id) || self.closing {
            InspectionOutcome::Stop
        } else {
            InspectionOutcome::Proceed
        }
    }

    /// The input of `id` is about to be written: when `id` is still the send it
    /// is marked writing and `true` is returned (the caller then resets its
    /// readiness evidence and writes once); otherwise nothing changes and the
    /// send goes no further.
    pub fn begin_write(&mut self, id: u64) -> (r: bool)
        ensures
            r == (old(self).view().active matches Some(a) && a.id == id),
            final(self).view() == writing_spec(old(self).view(), id, r),
    {
        let matches = match self.active {
            Some(a) => a.id == id,
            None => false,
        };
        if matches {
            self.set_writing(id, true);
        }
        matches
    }

    /// The input of `id` was written (`write_ok` false when the write failed);
    /// decides how the send goes on.
    pub fn after_write(&mut self, id: u64, write_ok: bool) -> (r: WriteOutcome)
        ensures
            (final(self).view(), r) == write_done_spec(old(self).view(), id, write_ok),
    {
        self.set_writing(id, false);
        if self.cancelled_during_write(id) {
            if write_ok { WriteOutcome::Interrupt } else { WriteOutcome::Stop }
        } else {
            WriteOutcome::Continue
        }
    }

    /// Whether `id` is live and not interrupting, so polling should start.
    pub fn should_poll(&self, id: u64) -> (r: bool)
        ensures
            r == (is_live(self.view(), id) && !self.view().active->0.interrupting),
    {
        match self.active {
            Some(a) => a.id == id && !a.finished && !a.interrupting,
            None => false,
        }
    }

    /// Starts a new poll generation, invalidating older poll loops; gives it.
    pub fn start_poll(&mut self) -> (generation: u64)
        ensures
            generation == bump(old(self).view().poll_gen),
            final(self).view() == (LifecycleView { poll_gen: generation, ..old(self).view() }),
    {
        self.poll_gen = if self.poll_gen == u64::MAX { u64::MAX } else { self.poll_gen + 1 };
        self.poll_gen
    }

    /// Whether the poll loop of `generation` for `id` still runs.
    pub fn poll_current(&self, id: u64, generation: u64) -> (r: bool)
        ensures
            r == poll_current(self.view(), id, generation),
    {
        if self.poll_gen != generation || self.closing {
            return false;
        }
        match self.active {
            Some(a) => a.id == id && !a.finished && !a.interrupting,
            None => false,
        }
    }

    /// Requests the cancel of `id`; false when it is not the live send.
    pub fn request_cancel(&mut self, id: u64) -> (r: bool)
        ensures
            (final(self).view(), r) == cancel_spec(old(self).view(), id),
    {
        let live = match self.active {
            Some(a) => a.id == id && !a.finished,
            None => false,
        };
        if !live {
            return false;
        }
        let a = self.active.unwrap();
        self.active = Some(ActiveSend { cancel_requested: true, interrupting: true, ..a });
        self.poll_gen = if self.poll_gen == u64::MAX { u64::MAX } else { self.poll_gen + 1 };
        true
    }

    /// Whether the interrupt of `id` must wait for its input to be written, and
    /// whether it became moot because the send is gone or settled: `(writing, finished)`.
    pub fn interrupt_state(&self, id: u64) -> (r: (bool, bool))
        ensures
            r == match self.view().active {
                Some(a) => if a.id == id { (a.writing, a.finished) } else { (false, true) },
                None => (false, true),
            },
    {
        match self.active {
            Some(a) => if a.id == id { (a.writing, a.finished) } else { (false, true) },
            None => (false, true),
        }
    }

    /// The interrupt of `id` was delivered: it stops interrupting, a settled send is
    /// cleared; says whether `id` is still live and should poll again.
    pub fn interrupt_done(&mut self, id: u64) -> (r: bool)
        ensures
            final(self).view() == match old(self).view().active {
                Some(a) => if a.id != id {
                    old(self).view()
                } else if a.finished {
                    LifecycleView { active: None, ..old(self).view() }
                } else {
                    LifecycleView { active: Some(ActiveSend { interrupting: false, ..a }), ..old(self).view() }
                },
                None => old(self).view(),
            },
            r == is_live(final(self).view(), id),
    {
        match self.active {
            Some(a) => {
                if a.id == id {
                    if a.finished {
                        self.active = None;
                    } else {
                        self.active = Some(ActiveSend { interrupting: false, ..a });
                    }
                }
            },
            None => {},
        }
        match self.active {
            Some(a) => a.id == id && !a.finished,
            None => false,
        }
    }

    /// Whether the timeout of `id` keeps the send in place: it is interrupting or writing.
    pub fn timeout_retains(&self, id: u64) -> (r: bool)
        ensures
            r == (self.view().active matches Some(a) && a.id == id && (a.interrupting || a.writing)),
    {
        match self.active {
            Some(a) => a.id == id && (a.interrupting || a.writing),
            None => false,
        }
    }

    /// Starts closing; says whether a close had already started.
    pub fn begin_close(&mut self) -> (already: bool)
        ensures
            already == old(self).view().close_started,
            already ==> final(self).view() == old(self).view(),
            !already ==> final(self).view() == (LifecycleView {
                close_started: true,
                closing: true,
                poll_gen: bump(old(self).view().poll_gen),
                ..old(self).view()
            }),
    {
        if self.close_started {
            return true;
        }
        self.close_started = true;
        self.closing = true;
        self.poll_gen = if self.poll_gen == u64::MAX { u64::MAX } else { self.poll_gen + 1 };
        false
    }
}

/// A send settles at most once: once settled, settling it again changes nothing.
pub proof fn law_send_settles_once(v: LifecycleView, id: u64, retain: bool, again: bool)
    ensures
        ({
            let (v1, first) = settle_spec(v, id, retain);
            let (v2, second) = settle_spec(v1, id, again);
            first ==> !second && v2 == v1
        }),
{
}

/// A cancel, a settle that does not retain, or the start of a close stops the poll
/// loop that was current, provided the generation counter has not reached its limit.
pub proof fn law_stale_polls_stop(v: LifecycleView, id: u64, other: u64)
    requires
        v.poll_gen < u64::MAX,
    ensures
        cancel_spec(v, other).1 ==> !poll_current(cancel_spec(v, other).0, id, v.poll_gen),
        settle_spec(v, other, false).1 ==> !poll_current(settle_spec(v, other, false).0, id, v.poll_gen),
        !poll_current(LifecycleView { close_started: true, closing: true, poll_gen: bump(v.poll_gen), ..v }, id, v.poll_gen),
{
}

/// What a send writes to the terminal: its text, followed by a carriage
/// return when it submits.
pub open spec fn send_input_spec(text: Seq<char>, submit: bool) -> Seq<char> {
    if submit {
        text.push('\r')
    } else {
        text
    }
}

/// The input a send writes, or `None` when there is nothing to write (an
/// empty text that does not submit).
pub fn send_input(text: &str, submit: bool) -> (r: Option<String>)
    ensures
        match r {
            Some(s) => s@ == send_input_spec(text@, submit) && s@.len() > 0,
            None => send_input_spec(text@, submit).len() == 0,
        },
{
    let mut input = String::new();
    push_str(&mut input, text);
    if submit {
        push_char(&mut input, '\r');
    }
    if input.as_str().unicode_len() == 0 {
        None
    } else {
        Some(input)
    }
}

} // verus!
