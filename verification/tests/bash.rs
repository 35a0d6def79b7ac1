use dsh_host::bash::{
    BashConfigFields, BashConfigValue, BoundedTextBuffer, PromptTracker, Readiness, ReadinessInputs,
    StdinWaitEvidence, check_bash_config_keys, child_environment, exit_status, map_signal, page_scrollback,
    poll_readiness, resolve_bash_fields, send_admission, shell_argv, startup_outcome, utf8_tail,
};
use dsh_host::inspector::SubprocessTerminalSignal;
use dsh_host::sanitize::{CONTROLLED_PROMPT, TerminalSanitizer};
use dsh_host::subprocess::SubprocessOutcome;
use dsh_host::terminal::{
    TerminalErrorCode, TerminalReadRequest, TerminalSessionStatus, TerminalSignal, TerminalWaitReason,
};

#[test]
fn removes_split_csi_and_owned_osc_prompt_markers() {
    let mut sanitizer = TerminalSanitizer::new(64);
    let first = sanitizer.push("red\x1b[3");
    assert_eq!(first.text, "red");
    assert!(!first.prompt);
    let second = sanitizer.push("1m text\x1b[0m\r\n");
    assert_eq!(second.text, " text\n");
    assert!(!second.prompt);
    let third = sanitizer.push("\x1b]133;");
    assert_eq!(third.text, "");
    assert!(!third.prompt);
    let fourth = sanitizer.push("D;0\x07dsh> ");
    assert_eq!(fourth.text, CONTROLLED_PROMPT);
    assert!(fourth.prompt);
    assert_eq!(fourth.prompt_tail.as_deref(), Some(CONTROLLED_PROMPT));
}

#[test]
fn sanitizer_output_never_holds_escape_or_bell() {
    let mut sanitizer = TerminalSanitizer::new(8);
    let out = sanitizer.push("a\x1b]0;title\x07b\x07c\x1b[2Jd");
    assert!(!out.text.contains('\x1b'));
    assert!(!out.text.contains('\x07'));
    assert!(out.text.contains('a'));
    assert!(out.text.contains('d'));
}

fn fields() -> BashConfigFields {
    BashConfigFields {
        backend_type: BashConfigValue::Absent,
        shell_path: BashConfigValue::Absent,
        shell_args: BashConfigValue::Absent,
        rows: BashConfigValue::Absent,
        cols: BashConfigValue::Absent,
        scrollback_lines: BashConfigValue::Absent,
        scrollback_max_bytes: BashConfigValue::Absent,
        max_read_bytes: BashConfigValue::Absent,
        poll_interval_ms: BashConfigValue::Absent,
        exact_probe_after_ms: BashConfigValue::Absent,
        idle_silence_ms: BashConfigValue::Absent,
        handoff_grace_ms: BashConfigValue::Absent,
        timeout_ms: BashConfigValue::Absent,
        dispose_grace_ms: BashConfigValue::Absent,
    }
}

#[test]
fn config_rejects_handoff_shorter_than_poll() {
    let mut f = fields();
    f.handoff_grace_ms = BashConfigValue::UInt(9);
    f.poll_interval_ms = BashConfigValue::UInt(10);
    let err = resolve_bash_fields(&f).expect_err("handoff shorter than poll");
    assert_eq!(
        err,
        "terminal-bash: handoffGraceMs must be at least pollIntervalMs so one readiness poll runs inside the grace window"
    );

    let mut f = fields();
    f.max_read_bytes = BashConfigValue::UInt(100);
    f.scrollback_max_bytes = BashConfigValue::UInt(50);
    let err = resolve_bash_fields(&f).expect_err("read cap above retention");
    assert_eq!(err, "terminal-bash: maxReadBytes must not exceed scrollbackMaxBytes");
}

#[test]
fn config_defaults_and_shell_argv() {
    let config = resolve_bash_fields(&fields()).expect("defaults");
    assert_eq!(config.backend_type, "shell");
    assert_eq!(config.shell_path, "/bin/bash");
    assert_eq!(
        shell_argv(&config),
        vec!["/bin/bash".to_string(), "--noprofile".to_string(), "--norc".to_string(), "-i".to_string()]
    );
    let mut f = fields();
    f.rows = BashConfigValue::UInt(0);
    assert!(resolve_bash_fields(&f).is_err());
    let mut f = fields();
    f.shell_path = BashConfigValue::UInt(3);
    assert_eq!(resolve_bash_fields(&f).unwrap_err(), "terminal-bash: shellPath must be a string");
}

#[test]
fn config_keys_must_be_known() {
    assert!(check_bash_config_keys(&["rows".to_string(), "timeoutMs".to_string()]).is_ok());
    assert_eq!(
        check_bash_config_keys(&["rows".to_string(), "density".to_string()]).unwrap_err(),
        "TerminalBashConfig: unknown key \"density\""
    );
}

fn inputs() -> ReadinessInputs {
    ReadinessInputs {
        prompt_seen: false,
        prompt_text_seen: false,
        idle_ms: 0,
        elapsed_ms: 1_000,
        startup_has_output: true,
        poll_interval_ms: 10,
        exact_probe_after_ms: 50,
        idle_silence_ms: 10_000,
        handoff_grace_ms: 100,
    }
}

#[test]
fn tier1_stdin_wait_prompt_same_shell_pgid_is_stdin_read() {
    let mut shell = None;
    let mut evidence = StdinWaitEvidence::new();
    evidence.set_initial(Some((456, false)));
    let mut tracker = PromptTracker::new();
    tracker.observe(true, Some(CONTROLLED_PROMPT));
    let mut i = inputs();
    i.prompt_seen = tracker.seen();
    i.prompt_text_seen = tracker.text_seen();
    i.idle_ms = 20;
    let r = poll_readiness(&i, Some((456, false)), &mut shell, &mut evidence);
    assert_eq!(r, Readiness::Settle(TerminalWaitReason::StdinRead));
    assert_eq!(shell, Some(456));
}

#[test]
fn stale_wait_evidence_needs_a_departure() {
    let mut evidence = StdinWaitEvidence::new();
    evidence.set_initial(Some((7, true)));
    assert!(!evidence.accepts(7, true));
    assert!(!evidence.accepts(7, false));
    assert!(evidence.accepts(7, true));
    assert!(evidence.accepts(8, true));
}

#[test]
fn idle_output_settles_as_inferred_idle() {
    let mut shell = None;
    let mut evidence = StdinWaitEvidence::new();
    let mut i = inputs();
    i.idle_ms = 10_000;
    i.elapsed_ms = 0;
    assert_eq!(poll_readiness(&i, None, &mut shell, &mut evidence), Readiness::Settle(TerminalWaitReason::InferredIdle));
    i.idle_ms = 9_999;
    assert_eq!(poll_readiness(&i, None, &mut shell, &mut evidence), Readiness::Continue);
}

#[test]
fn bounded_buffer_keeps_the_byte_tail() {
    let mut buffer = BoundedTextBuffer::new(4, None);
    assert!(buffer.is_empty());
    buffer.append("abcdef");
    assert_eq!(buffer.snapshot(), ("cdef".to_string(), true));
    assert_eq!(buffer.consume(), ("cdef".to_string(), true));
    assert!(buffer.is_empty());
    let mut lines = BoundedTextBuffer::new(100, Some(2));
    lines.append("a\nb\nc");
    assert_eq!(lines.snapshot().0, "b\nc");
    assert_eq!(utf8_tail(&['a', 'é', 'b'], 3), (vec!['é', 'b'], true));
    assert_eq!(utf8_tail(&['a', 'é', 'b'], 2), (vec!['b'], true));
}

#[test]
fn scrollback_pages_count_back_from_the_end() {
    let page = page_scrollback("l1\nl2\nl3\nl4", false, &TerminalReadRequest::new().with_count(2), 1_000);
    assert_eq!(page.text(), "l3\nl4");
    assert_eq!(page.total_lines(), 4);
    assert_eq!(page.line_begin(), 0);
    assert_eq!(page.line_end(), 2);
    assert!(!page.truncated());
    let older = page_scrollback("l1\nl2\nl3\nl4", true, &TerminalReadRequest::new().with_offset(2).with_count(2), 1_000);
    assert_eq!(older.text(), "l1\nl2");
    assert!(older.truncated());
    let past = page_scrollback("l1", false, &TerminalReadRequest::new().with_offset(5), 1_000);
    assert_eq!(past.text(), "");
}

#[test]
fn sends_are_admitted_only_to_idle_running_sessions() {
    assert_eq!(send_admission(false, &TerminalSessionStatus::Running, false), None);
    assert_eq!(
        send_admission(false, &TerminalSessionStatus::Running, true),
        Some((TerminalWaitReason::Timeout, TerminalSessionStatus::Running))
    );
    assert_eq!(
        send_admission(true, &TerminalSessionStatus::Running, false),
        Some((TerminalWaitReason::SessionExit, TerminalSessionStatus::Exited { exit_code: None, signal: None }))
    );
}

#[test]
fn startup_outcome_and_exit_status() {
    assert_eq!(startup_outcome(TerminalWaitReason::StdinRead, "dsh> ").unwrap(), "dsh> ");
    let err = startup_outcome(TerminalWaitReason::SessionExit, "").unwrap_err();
    assert_eq!(err.to_string(), "PTY shell exited during startup");
    assert_eq!(err.code(), TerminalErrorCode::NoBackend);
    assert_eq!(
        exit_status(Some(SubprocessOutcome { exit_code: None, signal: Some(9) })),
        TerminalSessionStatus::Exited { exit_code: None, signal: Some("9".to_string()) }
    );
    assert_eq!(exit_status(None), TerminalSessionStatus::Exited { exit_code: None, signal: None });
    assert_eq!(map_signal(TerminalSignal::Sigint), SubprocessTerminalSignal::Sigint);
}

#[test]
fn child_environment_marks_the_owned_prompt() {
    let env = child_environment("owner-a", "pty-1");
    assert_eq!(env.len(), 9);
    assert_eq!(env[0].key, "TERM");
    assert_eq!(env[3].value.as_deref(), Some(CONTROLLED_PROMPT));
    assert_eq!(env[8].value.as_deref(), Some("pty-1"));
}

#[test]
fn stale_wait_is_evidence_only_after_leaving_over_many_polls() {
    let mut evidence = StdinWaitEvidence::new();
    evidence.set_initial(Some((7, true)));
    for _ in 0..5 {
        assert!(!evidence.accepts(7, true));
    }
    assert!(!evidence.accepts(7, false));
    for _ in 0..3 {
        assert!(evidence.accepts(7, true));
    }
}

#[test]
fn splitting_sanitizer_input_keeps_the_text() {
    let input = "a\x1b[31mred\x1b[0m\r\nnext\x1b]0;title\x07line\r\n";
    let mut whole = TerminalSanitizer::new(4096);
    let expected = whole.push(input).text;
    assert_eq!(expected, "ared\nnextline\n");
    let chars: Vec<char> = input.chars().collect();
    for cut in 0..=chars.len() {
        let first: String = chars[..cut].iter().collect();
        let second: String = chars[cut..].iter().collect();
        let mut split = TerminalSanitizer::new(4096);
        let text = split.push(&first).text + &split.push(&second).text;
        assert_eq!(text, expected, "cut at {cut}");
    }
}
