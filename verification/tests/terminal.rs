use dsh_host::terminal::{
    PLUGIN_PTY_SNAPSHOT_BACKEND, PLUGIN_TERMINAL, SNAPSHOT_MOTD, SnapshotSession, TerminalErrorCode,
    TerminalReadRequest, TerminalRegistry, TerminalSendRequest, TerminalSessionId, TerminalSessionStatus,
    TerminalSignal, TerminalWaitReason,
};

fn registry_with_shell() -> TerminalRegistry {
    let mut registry = TerminalRegistry::new();
    registry.register_backend("shell").expect("register shell");
    registry
}

fn spawned(registry: &mut TerminalRegistry, owner: &str) -> TerminalSessionId {
    let id = registry.reserve_spawn(owner, "shell", None).expect("reserve");
    registry.publish(&id, owner, None, "shell");
    registry.release_pending(owner);
    id
}

#[test]
fn from_arg_rejects_empty_string() {
    let err = TerminalSessionId::from_arg("").expect_err("empty");
    assert_eq!(err.to_string(), "sessionId must be a non-empty string");
    assert_eq!(err.code(), TerminalErrorCode::NoSession);
}

#[test]
fn from_arg_brands_without_format_check() {
    let id = TerminalSessionId::from_arg("pty-99").expect("brand");
    assert_eq!(id.as_str(), "pty-99");
    let weird = TerminalSessionId::from_arg("not-a-pty").expect("brand");
    assert_eq!(weird.as_str(), "not-a-pty");
}

#[test]
fn unknown_id_display() {
    let mut registry = registry_with_shell();
    let missing = TerminalSessionId::from_arg("pty-99").unwrap();
    let err = registry.begin_send("owner-a", &missing).expect_err("unknown id");
    assert_eq!(err.code(), TerminalErrorCode::NoSession);
    assert_eq!(err.to_string(), "unknown PTY session pty-99");
}

#[test]
fn reservations_mint_sequential_ids_and_count_as_activity() {
    let mut registry = registry_with_shell();
    let first = registry.reserve_spawn("owner-a", "shell", None).expect("first");
    assert_eq!(first.as_str(), "pty-1");
    assert!(registry.has_owner_activity("owner-a"));
    assert_eq!(registry.pending_count("owner-a"), 1);
    assert!(registry.list("owner-a").is_empty());
    registry.publish(&first, "owner-a", None, "shell");
    assert_eq!(registry.pending_count("owner-a"), 1);
    registry.release_pending("owner-a");
    assert_eq!(registry.pending_count("owner-a"), 0);
    assert!(registry.has_owner_activity("owner-a"));
    assert_eq!(registry.list("owner-a").len(), 1);
    let second = registry.reserve_spawn("owner-a", "shell", None).expect("second");
    assert_eq!(second.as_str(), "pty-2");
    assert!(!registry.has_owner_activity("owner-b"));
}

#[test]
fn send_is_exclusive_until_settled() {
    let mut registry = registry_with_shell();
    let id = spawned(&mut registry, "owner-a");
    registry.begin_send("owner-a", &id).expect("first send");
    let err = registry.begin_send("owner-a", &id).expect_err("exclusive send");
    assert_eq!(err.code(), TerminalErrorCode::SendActive);
    assert_eq!(err.to_string(), format!("PTY session {} already has an active send", id.as_str()));
    registry.settle_send(&id);
    registry.begin_send("owner-a", &id).expect("send after settle");
}

#[test]
fn foreign_owner_is_refused() {
    let mut registry = registry_with_shell();
    let id = spawned(&mut registry, "owner-a");
    let err = registry.begin_send("owner-b", &id).expect_err("foreign owner");
    assert_eq!(err.code(), TerminalErrorCode::ForeignSession);
    assert!(err.to_string().contains(id.as_str()));
    assert!(registry.list("owner-b").is_empty());
}

#[test]
fn duplicate_backend_and_missing_type() {
    let mut registry = registry_with_shell();
    let err = registry.register_backend("shell").expect_err("duplicate");
    assert_eq!(err.code(), TerminalErrorCode::DuplicateBackend);
    assert_eq!(err.to_string(), "a PTY backend named \"shell\" is already registered");
    let empty = TerminalRegistry::new().register_backend("").expect_err("empty type");
    assert!(empty.to_string().contains("must be non-empty"));
    let missing = TerminalRegistry::new().reserve_spawn("owner-a", "shell", None).expect_err("no backend");
    assert_eq!(missing.code(), TerminalErrorCode::NoBackend);
    assert_eq!(missing.to_string(), "no PTY backend registered for \"shell\"");
}

#[test]
fn duplicate_names_are_owner_local() {
    let mut registry = registry_with_shell();
    let id = registry.reserve_spawn("owner-a", "shell", Some("build")).expect("named");
    registry.publish(&id, "owner-a", Some("build"), "shell");
    let err = registry.reserve_spawn("owner-a", "shell", Some("build")).expect_err("duplicate name");
    assert_eq!(err.code(), TerminalErrorCode::DuplicateName);
    assert!(registry.reserve_spawn("owner-b", "shell", Some("build")).is_ok());
}

#[test]
fn kill_closes_once_and_unpublishes() {
    let mut registry = registry_with_shell();
    let id = spawned(&mut registry, "owner-a");
    assert!(matches!(registry.begin_kill("owner-a", &id), Ok(true)));
    assert!(matches!(registry.begin_kill("owner-a", &id), Ok(false)));
    registry.finish_kill(&id, true);
    assert!(!registry.has_owner_activity("owner-a"));
    assert_eq!(registry.begin_kill("owner-a", &id).unwrap_err().code(), TerminalErrorCode::NoSession);
}

#[test]
fn failed_kill_can_be_retried() {
    let mut registry = registry_with_shell();
    let id = spawned(&mut registry, "owner-a");
    assert!(matches!(registry.begin_kill("owner-a", &id), Ok(true)));
    registry.finish_kill(&id, false);
    assert!(matches!(registry.begin_kill("owner-a", &id), Ok(true)));
}

#[test]
fn released_reservation_is_no_longer_pending() {
    let mut registry = registry_with_shell();
    registry.reserve_spawn("owner-a", "shell", None).expect("reserve");
    registry.release_pending("owner-a");
    assert_eq!(registry.pending_count("owner-a"), 0);
    assert!(!registry.has_owner_activity("owner-a"));
}

#[test]
fn clear_all_returns_every_session() {
    let mut registry = registry_with_shell();
    let a = spawned(&mut registry, "owner-a");
    let b = spawned(&mut registry, "owner-b");
    let cleared: Vec<String> = registry.clear_all().iter().map(|id| id.as_str().to_string()).collect();
    assert_eq!(cleared, vec![a.as_str().to_string(), b.as_str().to_string()]);
    assert!(registry.list("owner-a").is_empty());
}

#[test]
fn snapshot_backend_send_pty_ok() {
    let mut session = SnapshotSession::new();
    assert_eq!(session.motd(), "dsh> ");
    assert_eq!(SNAPSHOT_MOTD, "dsh> ");
    let result = session.start_send(&TerminalSendRequest::new("hi", true));
    assert_eq!(result.viewport(), "hi\nPTY_OK\ndsh> ");
    assert_eq!(result.wait_reason(), TerminalWaitReason::StdinRead);
    assert!(matches!(result.session_status(), TerminalSessionStatus::Running));
    let page = session.read(&TerminalReadRequest::new());
    assert!(page.text().contains("PTY_OK"));
    let signal = session.signal(TerminalSignal::Sigint);
    assert!(signal.delivered());
    assert_eq!(signal.target_pgid(), 1);
    session.close();
    assert!(!matches!(session.status(), TerminalSessionStatus::Running));
}

