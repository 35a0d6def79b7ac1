use dsh_host::child_run::{
    ChildEvent, ContinuableChildInfo, ContinuableTable, TurnEndKind, child_preflight, child_stop_reason, continuable_preflight,
    completed_turn_len, output_event, seed_length, settlement_summary,
};
use dsh_host::subagent::{
    DEFAULT_SUBAGENT_MAX_DEPTH, EVENT_SUBAGENT_END, EVENT_SUBAGENT_START, SubagentCapabilities, SubagentError,
    ProviderNameSetting, SubagentProviderTable, delegation_depth_of, SubagentStopReason, assert_subagent_max_depth,
    reject_unknown_config_keys, resolve_provider_name,
};
use dsh_host::time_context::ConfigShape;

#[test]
fn default_cap_allows_top_level_child() {
    assert_eq!(assert_subagent_max_depth(0, None).unwrap(), 1);
    assert_eq!(assert_subagent_max_depth(2, None).unwrap(), DEFAULT_SUBAGENT_MAX_DEPTH as u64);
}

#[test]
fn exceeded_cap_fails_loud() {
    let err = assert_subagent_max_depth(3, None).unwrap_err();
    assert!(matches!(err, SubagentError::Depth(4, 3)));
    assert!(err.to_string().contains("exceeds maxDepth 3"));
}

#[test]
fn explicit_cap_and_saturation() {
    assert_eq!(assert_subagent_max_depth(4, Some(5)).unwrap(), 5);
    assert!(matches!(assert_subagent_max_depth(u64::MAX, Some(u32::MAX)).unwrap_err(), SubagentError::Depth(u64::MAX, u32::MAX)));
    assert_eq!(EVENT_SUBAGENT_START, "subagent/start");
    assert_eq!(EVENT_SUBAGENT_END, "subagent/end");
}

fn no_depth() -> SubagentCapabilities {
    SubagentCapabilities { output_schema: false, depth_limit: false, tool_filter: false, persona: false }
}

#[test]
fn duplicate_provider_fails_loud() {
    let mut table = SubagentProviderTable::new();
    table.register("spawn", SubagentCapabilities::all()).unwrap();
    let err = table.register("spawn", SubagentCapabilities::all()).unwrap_err();
    assert!(matches!(err, SubagentError::DuplicateProvider(name) if name == "spawn"));
}

#[test]
fn unknown_provider_fails_loud() {
    let table = SubagentProviderTable::new();
    let err = table.select("missing", false).unwrap_err();
    assert!(matches!(err, SubagentError::UnknownProvider(name) if name == "missing"));
}

#[test]
fn max_depth_without_capability_fails() {
    let mut table = SubagentProviderTable::new();
    table.register("external", no_depth()).unwrap();
    let err = table.select("external", true).unwrap_err();
    assert!(matches!(err, SubagentError::UnsupportedCapability(name, cap) if name == "external" && cap == "depthLimit"));
    assert_eq!(table.select("external", false).unwrap(), 0);
}

#[test]
fn aborted_request_fails_before_publication() {
    let err = child_preflight(true, 0, None).unwrap_err();
    assert_eq!(err.to_string(), "subagent request was aborted before child publication");
    assert_eq!(child_preflight(false, 0, None).unwrap(), 1);
    assert!(matches!(child_preflight(false, 3, None).unwrap_err(), SubagentError::Depth(4, 3)));
}

#[test]
fn stop_reason_reads_the_last_turn_end() {
    let events = vec![
        ChildEvent::TurnEnd(TurnEndKind::Completed),
        ChildEvent::AssistantMessage { blocks: 1 },
        ChildEvent::TurnEnd(TurnEndKind::MaxTokens),
        ChildEvent::Other,
    ];
    assert_eq!(child_stop_reason(&events), SubagentStopReason::MaxTokens);
    assert_eq!(child_stop_reason(&[]), SubagentStopReason::Error);
    assert_eq!(child_stop_reason(&[ChildEvent::TurnEnd(TurnEndKind::Blocked)]), SubagentStopReason::Refusal);
    assert_eq!(child_stop_reason(&[ChildEvent::TurnEnd(TurnEndKind::Interrupted)]), SubagentStopReason::Error);
    assert_eq!(child_stop_reason(&[ChildEvent::TurnEnd(TurnEndKind::Aborted)]), SubagentStopReason::Aborted);
    assert_eq!(completed_turn_len(&events), 3);
    assert_eq!(output_event(&events), Some(1));
    assert_eq!(output_event(&[ChildEvent::AssistantMessage { blocks: 0 }]), None);
}

#[test]
fn settlement_summaries_name_the_child() {
    assert_eq!(settlement_summary("c", SubagentStopReason::Aborted), "Background subagent c was stopped before it finished.");
    assert_eq!(settlement_summary("c", SubagentStopReason::MaxTokens), "Background subagent c ran out of room before it finished.");
    assert_eq!(settlement_summary("c", SubagentStopReason::Refusal), "Background subagent c declined the task.");
    assert_eq!(settlement_summary("c", SubagentStopReason::Error), "Background subagent c failed before it finished.");
    assert_eq!(seed_length(0), None);
    assert_eq!(seed_length(7), Some(7));
}

fn info(parent: &str, child: &str, label: &str) -> ContinuableChildInfo {
    ContinuableChildInfo { parent: parent.into(), child: child.into(), provider: "spawn".into(), label: label.into() }
}

#[test]
fn continuable_children_are_listed_per_parent() {
    let mut table = ContinuableTable::new();
    table.publish(info("p1", "c1", "first"));
    table.publish(info("p2", "c2", "other"));
    table.publish(info("p1", "c3", "second"));
    let listed: Vec<String> = table.list_continuable("p1").into_iter().map(|i| i.child).collect();
    assert_eq!(listed, vec!["c1".to_string(), "c3".to_string()]);
    table.publish(info("p1", "c1", "relabeled"));
    let labels: Vec<String> = table.list_continuable("p1").into_iter().map(|i| i.label).collect();
    assert_eq!(labels, vec!["relabeled".to_string(), "second".to_string()]);
}

#[test]
fn followup_requires_a_known_child_of_the_parent() {
    let mut table = ContinuableTable::new();
    table.publish(info("p1", "c1", "first"));
    assert!(table.followup_check("c1", "p1").is_ok());
    assert_eq!(
        table.followup_check("c9", "p1").unwrap_err().to_string(),
        "unknown continuable child `c9`"
    );
    assert_eq!(
        table.followup_check("c1", "p2").unwrap_err().to_string(),
        "child `c1` is not a child of this parent"
    );
}

#[test]
fn provider_name_defaults_and_validates() {
    let keys: Vec<String> = Vec::new();
    assert_eq!(
        resolve_provider_name(ConfigShape::Null, &keys, &ProviderNameSetting::Absent, "spawn", "SpawnInProcessConfig"),
        Ok("spawn".to_string())
    );
    let named = vec!["providerName".to_string()];
    assert_eq!(
        resolve_provider_name(
            ConfigShape::Object,
            &named,
            &ProviderNameSetting::Text("mine".to_string()),
            "fork",
            "ForkInProcessConfig"
        ),
        Ok("mine".to_string())
    );
    assert_eq!(
        resolve_provider_name(ConfigShape::Object, &named, &ProviderNameSetting::Text(String::new()), "fork", "ForkInProcessConfig"),
        Err("ForkInProcessConfig.providerName must be non-empty".to_string())
    );
    assert_eq!(
        resolve_provider_name(ConfigShape::Object, &named, &ProviderNameSetting::Other, "fork", "ForkInProcessConfig"),
        Err("ForkInProcessConfig.providerName must be a string".to_string())
    );
    let extra = vec!["providerName".to_string(), "depth".to_string()];
    assert_eq!(
        resolve_provider_name(ConfigShape::Object, &extra, &ProviderNameSetting::Absent, "spawn", "SpawnInProcessConfig"),
        Err("SpawnInProcessConfig: unknown key \"depth\"".to_string())
    );
    assert_eq!(
        resolve_provider_name(ConfigShape::Other, &keys, &ProviderNameSetting::Absent, "spawn", "SpawnInProcessConfig"),
        Err("SpawnInProcessConfig: config must be an object".to_string())
    );
}

#[test]
fn subagent_config_accepts_no_keys() {
    let none: Vec<&str> = Vec::new();
    assert_eq!(reject_unknown_config_keys(ConfigShape::Null, &[], &none, "SubagentConfig"), Ok(()));
    assert_eq!(reject_unknown_config_keys(ConfigShape::Object, &[], &none, "SubagentConfig"), Ok(()));
    assert_eq!(
        reject_unknown_config_keys(ConfigShape::Object, &["x".to_string()], &none, "SubagentConfig"),
        Err("SubagentConfig: unknown key \"x\"".to_string())
    );
    assert_eq!(
        reject_unknown_config_keys(ConfigShape::Other, &[], &none, "SubagentConfig"),
        Err("SubagentConfig: config must be an object".to_string())
    );
}

#[test]
fn absent_header_depth_is_zero() {
    assert_eq!(delegation_depth_of(None), 0);
    assert_eq!(delegation_depth_of(Some(2)), 2);
}

#[test]
fn continuable_publish_checks_abort_before_provider() {
    let mut table = SubagentProviderTable::new();
    table.register("spawn", SubagentCapabilities::all()).unwrap();
    assert!(matches!(
        continuable_preflight(true, &table, "missing"),
        Err(SubagentError::Other(m)) if m == "subagent request was aborted before child publication"
    ));
    assert!(matches!(continuable_preflight(false, &table, "missing"), Err(SubagentError::UnknownProvider(n)) if n == "missing"));
    assert_eq!(continuable_preflight(false, &table, "spawn").unwrap(), 0);
}
