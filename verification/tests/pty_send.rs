use dsh_host::pty_send::{InspectionOutcome, SendLifecycle, WriteOutcome, send_input};
use dsh_host::terminal::{TerminalSessionStatus, TerminalWaitReason};

#[test]
fn sends_mint_ids_and_settle_once() {
    let mut life = SendLifecycle::new();
    let id = life.start(&TerminalSessionStatus::Running).expect("first send");
    assert_eq!(id, 1);
    assert_eq!(life.active_id(), Some(1));
    assert_eq!(
        life.start(&TerminalSessionStatus::Running),
        Err((TerminalWaitReason::Timeout, TerminalSessionStatus::Running))
    );
    assert!(life.settle(id, false));
    assert!(!life.settle(id, false));
    assert_eq!(life.active_id(), None);
    assert_eq!(life.start(&TerminalSessionStatus::Running), Ok(2));
}

#[test]
fn exited_or_closing_sessions_answer_session_exit() {
    let mut life = SendLifecycle::new();
    let exited = TerminalSessionStatus::Exited { exit_code: Some(0), signal: None };
    assert_eq!(life.start(&exited), Err((TerminalWaitReason::SessionExit, exited.clone())));
    assert!(!life.begin_close());
    assert!(life.begin_close());
    assert!(life.closing());
    assert_eq!(
        life.start(&TerminalSessionStatus::Running),
        Err((TerminalWaitReason::SessionExit, TerminalSessionStatus::Exited { exit_code: None, signal: None }))
    );
}

#[test]
fn retained_timeout_keeps_the_send_until_the_interrupt_lands() {
    let mut life = SendLifecycle::new();
    let id = life.start(&TerminalSessionStatus::Running).unwrap();
    life.set_writing(id, true);
    assert!(life.timeout_retains(id));
    assert!(life.settle(id, true));
    assert_eq!(life.active_id(), Some(id));
    assert!(!life.settle(id, false));
    assert!(!life.interrupt_done(id));
    assert_eq!(life.active_id(), None);
}

#[test]
fn cancel_interrupts_and_invalidates_the_poll_loop() {
    let mut life = SendLifecycle::new();
    let id = life.start(&TerminalSessionStatus::Running).unwrap();
    assert!(!life.input_abandoned(id));
    assert!(life.should_poll(id));
    let generation = life.start_poll();
    assert!(life.poll_current(id, generation));
    assert!(life.request_cancel(id));
    assert!(!life.poll_current(id, generation));
    assert!(life.input_abandoned(id));
    assert!(life.cancelled_during_write(id));
    assert_eq!(life.interrupt_state(id), (false, false));
    assert!(!life.should_poll(id));
    assert!(life.interrupt_done(id));
    assert!(life.should_poll(id));
    let next = life.start_poll();
    assert!(life.poll_current(id, next));
    assert!(!life.request_cancel(id + 1));
}

#[test]
fn close_stops_current_polls() {
    let mut life = SendLifecycle::new();
    let id = life.start(&TerminalSessionStatus::Running).unwrap();
    let generation = life.start_poll();
    assert!(!life.begin_close());
    assert!(!life.poll_current(id, generation));
    assert!(life.settle(id, false));
}

#[test]
fn send_input_appends_a_carriage_return_when_submitting() {
    assert_eq!(send_input("ls", true), Some("ls\r".to_string()));
    assert_eq!(send_input("ls", false), Some("ls".to_string()));
    assert_eq!(send_input("", true), Some("\r".to_string()));
    assert_eq!(send_input("", false), None);
}

#[test]
fn a_failed_inspection_settles_the_send_as_session_exit() {
    let mut life = SendLifecycle::new();
    let id = life.start(&TerminalSessionStatus::Running).unwrap();
    assert_eq!(life.after_inspection(id, false), InspectionOutcome::Exited { settled: true });
    assert_eq!(life.active_id(), None);
    let id = life.start(&TerminalSessionStatus::Running).unwrap();
    assert!(life.request_cancel(id));
    // While the interrupt is in flight a failed inspection settles nothing.
    assert_eq!(life.after_inspection(id, false), InspectionOutcome::Stop);
    assert_eq!(life.active_id(), Some(id));
    assert_eq!(life.after_inspection(id, true), InspectionOutcome::Stop);
}

#[test]
fn a_send_writes_once_then_polls_or_interrupts() {
    let mut life = SendLifecycle::new();
    let id = life.start(&TerminalSessionStatus::Running).unwrap();
    assert_eq!(life.after_inspection(id, true), InspectionOutcome::Proceed);
    assert!(life.begin_write(id));
    assert!(life.timeout_retains(id));
    assert_eq!(life.after_write(id, true), WriteOutcome::Continue);
    assert!(!life.timeout_retains(id));
    assert!(life.should_poll(id));
    assert!(!life.begin_write(id + 1));

    assert!(life.settle(id, false));
    let id = life.start(&TerminalSessionStatus::Running).unwrap();
    assert!(life.begin_write(id));
    assert!(life.request_cancel(id));
    assert_eq!(life.interrupt_state(id), (true, false));
    assert_eq!(life.after_write(id, true), WriteOutcome::Interrupt);
    assert_eq!(life.interrupt_state(id), (false, false));

    assert!(life.settle(id, false));
    let id = life.start(&TerminalSessionStatus::Running).unwrap();
    assert!(life.begin_write(id));
    assert!(life.request_cancel(id));
    assert_eq!(life.after_write(id, false), WriteOutcome::Stop);
    assert!(life.begin_close() == false);
    assert_eq!(life.after_inspection(id, true), InspectionOutcome::Stop);
}
