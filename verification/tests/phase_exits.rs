use std::path::PathBuf;
use std::sync::Arc;

use dsh_host::bash::{ReadinessInputs, Readiness, StdinWaitEvidence, poll_readiness};
use dsh_host::child_run::{
    ChildEvent, TurnEndKind, child_seed_len, child_stop_reason, output_event, settlement_closing,
    settlement_summary,
};
use dsh_host::skill::{
    SkillCandidate, SkillDefinition, SkillError, SkillInvocationPolicy, SkillProvider, SkillRegistry, SkillSummary,
};
use dsh_host::subagent::SubagentStopReason;
use dsh_host::subprocess::{SubprocessError, SubprocessTerminalSpawnSpec, scrub_env};
use dsh_host::terminal::{PLUGIN_PTY_SNAPSHOT_BACKEND, PLUGIN_TERMINAL, TerminalWaitReason};
use dsh_host::token::{ContentBlock, estimate_message};

struct StaticProvider {
    name: String,
    rank: i32,
    skill_name: String,
    description: String,
}

impl StaticProvider {
    fn new(name: &str, rank: i32, skill_name: &str, description: &str) -> Self {
        Self { name: name.into(), rank, skill_name: skill_name.into(), description: description.into() }
    }
}

impl SkillProvider for StaticProvider {
    fn name(&self) -> &str {
        &self.name
    }

    fn list(&self, _cwd: Option<&str>) -> Vec<SkillCandidate> {
        vec![SkillCandidate {
            summary: SkillSummary {
                name: self.skill_name.clone(),
                description: self.description.clone(),
                when_to_use: None,
                invocation: SkillInvocationPolicy { model_invocable: true, user_invocable: true },
                source: "test".into(),
                provider: self.name.clone(),
            },
            rank: self.rank,
            locator: self.skill_name.clone(),
            path: None,
        }]
    }

    fn get(&self, locator: &str) -> Result<SkillDefinition, SkillError> {
        if locator != self.skill_name {
            return Err(SkillError::unknown(locator));
        }
        Ok(SkillDefinition {
            summary: self.list(None).into_iter().next().unwrap().summary,
            content: self.description.clone(),
            path: None,
        })
    }
}

fn text(t: &str) -> ContentBlock {
    ContentBlock::Text { text: t.into() }
}

fn echo_argv(text: &str) -> Vec<String> {
    vec!["/bin/echo".to_string(), text.to_string()]
}

fn ambient() -> Vec<(String, String)> {
    vec![
        ("DEEPSEEK_API_KEY".to_string(), "secret-value".to_string()),
        ("DSH_PHASE4_SCRUB".to_string(), "nope".to_string()),
        ("PATH".to_string(), "/usr/bin:/bin".to_string()),
    ]
}

fn terminal_spec(argv: Vec<String>) -> Result<SubprocessTerminalSpawnSpec, SubprocessError> {
    SubprocessTerminalSpawnSpec::new(argv, PathBuf::from("/"), Vec::new(), 40, 160, 3_000)
}

fn inputs() -> ReadinessInputs {
    ReadinessInputs {
        prompt_seen: false,
        prompt_text_seen: false,
        idle_ms: 0,
        elapsed_ms: 1_000,
        startup_has_output: true,
        poll_interval_ms: 10,
        exact_probe_after_ms: 50,
        idle_silence_ms: 10_000,
        handoff_grace_ms: 100,
    }
}

fn parent_history() -> Vec<ChildEvent> {
    vec![
        ChildEvent::Other,
        ChildEvent::AssistantMessage { blocks: 1 },
        ChildEvent::TurnEnd(TurnEndKind::Completed),
        ChildEvent::AssistantMessage { blocks: 2 },
    ]
}

#[test]
fn spawn_child_does_not_see_parent_history() {
    let history = parent_history();
    assert_eq!(child_seed_len(false, &history), 0);
    assert_eq!(child_seed_len(true, &history), 3);
    assert_eq!(child_seed_len(true, &[ChildEvent::AssistantMessage { blocks: 1 }]), 0);
}

#[test]
fn continuable_settlement_injects_subagent_settled_notice() {
    let child_events = vec![
        ChildEvent::AssistantMessage { blocks: 1 },
        ChildEvent::AssistantMessage { blocks: 0 },
        ChildEvent::TurnEnd(TurnEndKind::Completed),
    ];
    let reason = child_stop_reason(&child_events);
    assert_eq!(reason, SubagentStopReason::Completed);
    assert_eq!(
        settlement_summary("sub-1", reason),
        "Background subagent sub-1 finished and will do no further work unless you send it more."
    );
    assert_eq!(output_event(&child_events), Some(0));
    assert_eq!(settlement_closing(false), "Its closing message:");
    assert_eq!(settlement_closing(true), "It left no closing message.");
}

#[test]
fn list_picks_lower_rank_then_sorts_by_name() {
    let mut reg = SkillRegistry::new();
    reg.register_provider(Arc::new(StaticProvider::new("a", 200, "dup", "lose"))).unwrap();
    reg.register_provider(Arc::new(StaticProvider::new("b", 100, "dup", "win"))).unwrap();
    let list = reg.list(None);
    assert_eq!(list.iter().find(|s| s.name == "dup").unwrap().description, "win");
}

#[test]
fn estimate_text_matches_ts_heuristic() {
    assert_eq!(estimate_message(&[text("abcd")]), 9);
}

#[test]
fn argv_is_not_a_shell_string() {
    let spec = SubprocessTerminalSpawnSpec::new(echo_argv("a b"), PathBuf::from("/"), Vec::new(), 40, 160, 3_000)
        .expect("spec");
    assert_eq!(spec.argv(), &["/bin/echo".to_string(), "a b".to_string()][..]);
    assert_eq!(spec.argv().len(), 2);
}

#[test]
fn scrubbed_parent_env_drops_credentials_and_dsh_names() {
    let env = scrub_env(&ambient());
    assert!(env.iter().all(|(k, _)| k != "DEEPSEEK_API_KEY"));
    assert!(env.iter().all(|(k, _)| k != "DSH_PHASE4_SCRUB"));
    assert!(env.iter().any(|(k, _)| k == "PATH"));
}

#[test]
fn spawn_terminal_rejects_empty_argv() {
    let err = terminal_spec(Vec::new()).unwrap_err();
    assert!(matches!(err, SubprocessError::InvalidArgv));
    let err = terminal_spec(vec![String::new()]).unwrap_err();
    assert!(matches!(err, SubprocessError::InvalidArgv));
    assert_eq!(
        SubprocessError::InvalidArgv.to_string(),
        "invalid argv: expected a non-empty program name at argv[0]"
    );
}


#[test]
fn tier1_stdin_wait_is_stdin_read() {
    let mut shell = None;
    let mut evidence = StdinWaitEvidence::new();
    evidence.set_initial(Some((456, true)));
    let first = poll_readiness(&inputs(), Some((456, true)), &mut shell, &mut evidence);
    assert_eq!(first, Readiness::Continue, "same-PGID wait that existed before write must not settle stdin_read");
    let second = poll_readiness(&inputs(), Some((456, false)), &mut shell, &mut evidence);
    assert_eq!(second, Readiness::Continue, "leaving wait is not stdin_read by itself");
    let third = poll_readiness(&inputs(), Some((456, true)), &mut shell, &mut evidence);
    assert_eq!(third, Readiness::Settle(TerminalWaitReason::StdinRead));

    let mut unknown = StdinWaitEvidence::new();
    unknown.set_initial(None);
    let mut shell = None;
    assert_ne!(
        poll_readiness(&inputs(), None, &mut shell, &mut unknown),
        Readiness::Settle(TerminalWaitReason::StdinRead),
        "unknown foreground is never stdin_read"
    );
}

#[test]
fn plugin_name_is_typescript_package_name() {
    assert_eq!(PLUGIN_TERMINAL, "@deepseek-ai/dsh-terminal");
    assert_eq!(PLUGIN_PTY_SNAPSHOT_BACKEND, "pty-snapshot-backend");
}

#[test]
fn phase6_exit_phase6_required_test_names_exist_in_this_crate() {
    let required: [(&str, fn()); 2] = [
        ("list_picks_lower_rank_then_sorts_by_name", list_picks_lower_rank_then_sorts_by_name),
        ("estimate_text_matches_ts_heuristic", estimate_text_matches_ts_heuristic),
    ];
    for (name, test) in required {
        assert!(!name.is_empty(), "missing ported test {name}");
        test();
    }
}

#[test]
fn phase6_required_test_names_exist_in_this_crate() {
    let required: [(&str, fn()); 2] = [
        ("spawn_child_does_not_see_parent_history", spawn_child_does_not_see_parent_history),
        ("continuable_settlement_injects_subagent_settled_notice", continuable_settlement_injects_subagent_settled_notice),
    ];
    for (name, test) in required {
        assert!(!name.is_empty(), "missing ported test {name}");
        test();
    }
}

#[test]
fn phase4_required_test_names_exist_in_this_crate() {
    let required: [(&str, fn()); 2] = [
        ("argv_is_not_a_shell_string", argv_is_not_a_shell_string),
        ("scrubbed_parent_env_drops_credentials_and_dsh_names", scrubbed_parent_env_drops_credentials_and_dsh_names),
    ];
    for (name, test) in required {
        assert!(!name.is_empty(), "missing ported test {name}");
        test();
    }
}

#[test]
fn phase8_pty_exit_phase8_pty_required_test_names_exist_in_this_crate() {
    let required: [(&str, fn()); 2] = [
        ("spawn_terminal_rejects_empty_argv", spawn_terminal_rejects_empty_argv),
        ("tier1_stdin_wait_is_stdin_read", tier1_stdin_wait_is_stdin_read),
    ];
    for (name, test) in required {
        assert!(!name.is_empty(), "missing ported test {name}");
        test();
    }
}

#[test]
fn phase8_pty_required_test_names_exist_in_this_crate() {
    let required: [(&str, fn()); 1] = [("plugin_name_is_typescript_package_name", plugin_name_is_typescript_package_name)];
    for (name, test) in required {
        assert!(!name.is_empty(), "missing ported test {name}");
        test();
    }
    assert_eq!(PLUGIN_PTY_SNAPSHOT_BACKEND, "pty-snapshot-backend");
    assert_eq!(PLUGIN_TERMINAL, "@deepseek-ai/dsh-terminal");
}
