use std::collections::HashMap;
use std::io::{self, ErrorKind};
use std::path::{Path, PathBuf};
use std::sync::atomic::{AtomicBool, AtomicI32, Ordering};
use std::sync::{Arc, Mutex};

use dsh_host::collect::{OutputCollector, SpillStep};
use dsh_host::inspector::{
    ProcessIdentity, ProcessInspector, ProcessInspectorInternals, SubprocessTerminalSignal, TermKill,
    alive_from_read, create_process_inspector_with, foreground_from_read, group_liveness_from_reads,
    linux_process_group_has_live_members, parse_proc_stat, session_from_reads, tree_from_reads,
};
use dsh_host::subprocess::{
    DSH_ENV_PREFIX, EnvEntry, MAX_GRACE_MS, SubprocessError, SubprocessTerminalSpawnSpec, child_env,
    lookup_result, plan_executable_lookup, pty_outcome, scrub_env, sensitive_env_name, validate_spawn,
};

struct FakeInternals {
    files: Mutex<HashMap<String, String>>,
    dirs: Mutex<HashMap<String, Vec<String>>>,
    memories: Mutex<HashMap<String, Vec<u8>>>,
    fds: Mutex<HashMap<i32, String>>,
    next_fd: AtomicI32,
    ps: Mutex<String>,
    tpgid: Mutex<String>,
    kills: Mutex<Vec<(i32, String)>>,
    exec_fails: AtomicBool,
}

impl FakeInternals {
    fn new() -> Arc<Self> {
        Arc::new(Self {
            files: Mutex::new(HashMap::new()),
            dirs: Mutex::new(HashMap::new()),
            memories: Mutex::new(HashMap::new()),
            fds: Mutex::new(HashMap::new()),
            next_fd: AtomicI32::new(10),
            ps: Mutex::new(String::new()),
            tpgid: Mutex::new("0".to_string()),
            kills: Mutex::new(Vec::new()),
            exec_fails: AtomicBool::new(false),
        })
    }

    fn set_file(&self, path: &str, value: &str) {
        self.files.lock().unwrap().insert(path.to_string(), value.to_string());
    }

    fn set_dir(&self, path: &str, entries: &[&str]) {
        self.dirs
            .lock()
            .unwrap()
            .insert(path.to_string(), entries.iter().map(|entry| (*entry).to_string()).collect());
    }

    fn delete_dir(&self, path: &str) {
        self.dirs.lock().unwrap().remove(path);
    }

    fn set_memory(&self, path: &str, bytes: Vec<u8>) {
        self.memories.lock().unwrap().insert(path.to_string(), bytes);
    }

    fn set_ps(&self, value: &str) {
        *self.ps.lock().unwrap() = value.to_string();
    }

    fn set_tpgid(&self, value: &str) {
        *self.tpgid.lock().unwrap() = value.to_string();
    }

    fn fail_exec(&self) {
        self.exec_fails.store(true, Ordering::SeqCst);
    }

    fn kills(&self) -> Vec<(i32, String)> {
        self.kills.lock().unwrap().clone()
    }
}

impl ProcessInspectorInternals for FakeInternals {
    fn read_file(&self, path: &str) -> Result<String, io::Error> {
        self.files
            .lock()
            .unwrap()
            .get(path)
            .cloned()
            .ok_or_else(|| io::Error::new(ErrorKind::NotFound, format!("missing {path}")))
    }

    fn read_dir(&self, path: &str) -> Result<Vec<String>, io::Error> {
        self.dirs
            .lock()
            .unwrap()
            .get(path)
            .cloned()
            .ok_or_else(|| io::Error::new(ErrorKind::NotFound, format!("missing {path}")))
    }

    fn open(&self, path: &str) -> Result<i32, io::Error> {
        if !self.memories.lock().unwrap().contains_key(path) {
            return Err(io::Error::new(ErrorKind::NotFound, format!("missing {path}")));
        }
        let fd = self.next_fd.fetch_add(1, Ordering::SeqCst);
        self.fds.lock().unwrap().insert(fd, path.to_string());
        Ok(fd)
    }

    fn read(&self, fd: i32, buffer: &mut [u8], position: u64) -> Result<usize, io::Error> {
        let path = self
            .fds
            .lock()
            .unwrap()
            .get(&fd)
            .cloned()
            .ok_or_else(|| io::Error::new(ErrorKind::InvalidInput, "bad fd"))?;
        let memories = self.memories.lock().unwrap();
        let source = memories.get(&path).ok_or_else(|| io::Error::new(ErrorKind::NotFound, "missing memory"))?;
        let start = usize::try_from(position).unwrap_or(usize::MAX);
        if start >= source.len() {
            return Ok(0);
        }
        let count = (source.len() - start).min(buffer.len());
        buffer[..count].copy_from_slice(&source[start..start + count]);
        Ok(count)
    }

    fn close(&self, fd: i32) {
        self.fds.lock().unwrap().remove(&fd);
    }

    fn exec(&self, _file: &str, args: &[&str]) -> Result<String, io::Error> {
        if self.exec_fails.load(Ordering::SeqCst) {
            return Err(io::Error::other("gone"));
        }
        if args.iter().any(|arg| *arg == "tpgid=") {
            return Ok(self.tpgid.lock().unwrap().clone());
        }
        Ok(self.ps.lock().unwrap().clone())
    }

    fn kill(&self, pid: i32, signal: &str) {
        self.kills.lock().unwrap().push((pid, signal.to_string()));
    }
}

fn stat_line(pid: i32, pgrp: i32, session: i32, tpgid: i32, started: &str, parent_pid: i32, state: &str) -> String {
    let mut rest = vec![
        state.to_string(),
        parent_pid.to_string(),
        pgrp.to_string(),
        session.to_string(),
        "99".to_string(),
        tpgid.to_string(),
    ];
    while rest.len() < 19 {
        rest.push("0".to_string());
    }
    rest.push(started.to_string());
    format!("{pid} (command with space) {}", rest.join(" "))
}

fn syscall_line(number: i64, args: &[i64]) -> String {
    let mut six: Vec<i64> = args.to_vec();
    while six.len() < 6 {
        six.push(0);
    }
    let hex: Vec<String> = six.iter().take(6).map(|value| format!("0x{value:x}")).collect();
    format!("{number} {}", hex.join(" "))
}

fn linux(fake: Arc<FakeInternals>, arch: &str) -> impl ProcessInspector {
    create_process_inspector_with("linux", arch, fake).expect("linux inspector")
}

#[test]
fn dsh_prefix_is_dsh_underscore() {
    assert_eq!(DSH_ENV_PREFIX, "DSH_");
}

#[test]
fn sensitive_pattern_matches_key_password_secret_token_case_insensitively() {
    for name in ["DEEPSEEK_API_KEY", "password", "Secret", "AUTH_TOKEN", "apiKey"] {
        assert!(sensitive_env_name(name), "{name}");
    }
    assert!(!sensitive_env_name("PATH"));
    assert!(!sensitive_env_name("HOME"));
    assert!(!sensitive_env_name("LANG"));
}

fn ambient() -> Vec<(String, String)> {
    vec![
        ("DEEPSEEK_API_KEY".to_string(), "secret-value".to_string()),
        ("DSH_PHASE4_SCRUB".to_string(), "nope".to_string()),
        ("PATH".to_string(), "/usr/bin:/bin".to_string()),
        ("HOME".to_string(), "/home/user".to_string()),
    ]
}

#[test]
fn explicit_overlay_can_restore_a_credential_and_tombstone_removes_ambient() {
    let ambient = ambient();
    let env = child_env(
        &ambient,
        Some(&[
            EnvEntry { key: "DEEPSEEK_API_KEY".into(), value: Some("deliberate".into()) },
            EnvEntry { key: "PATH".into(), value: None },
        ]),
    );
    assert_eq!(env.iter().find(|(k, _)| k == "DEEPSEEK_API_KEY").map(|(_, v)| v.as_str()), Some("deliberate"));
    assert!(env.iter().all(|(k, _)| k != "PATH"));
    assert!(ambient.iter().any(|(k, _)| k == "PATH"));
}

#[test]
fn overlay_without_entries_is_the_scrubbed_environment() {
    let ambient = ambient();
    assert_eq!(child_env(&ambient, None), scrub_env(&ambient));
    assert_eq!(
        scrub_env(&ambient),
        vec![
            ("PATH".to_string(), "/usr/bin:/bin".to_string()),
            ("HOME".to_string(), "/home/user".to_string()),
        ]
    );
}

#[test]
fn parse_proc_stat_reads_tpgid() {
    let parsed = parse_proc_stat(&stat_line(10, 20, 30, 40, "500", 1, "S")).expect("stat");
    assert_eq!(parsed.pid(), 10);
    assert_eq!(parsed.parent_pid(), 1);
    assert_eq!(parsed.pgrp(), 20);
    assert_eq!(parsed.session(), 30);
    assert_eq!(parsed.state(), 'S');
    assert_eq!(parsed.tpgid(), 40);
    assert_eq!(parsed.started(), "500");
    assert!(parse_proc_stat("bad").is_none());
    assert!(parse_proc_stat("1 () ").is_none());
    assert!(parse_proc_stat("1 () S").is_none());
    assert!(parse_proc_stat(&stat_line(10, 20, 30, 40, "500", 1, "SS")).is_none());
}

#[test]
fn parse_proc_stat_needs_a_single_byte_after_the_command() {
    let fields = " S 1 20 30 99 40 0 0 0 0 0 0 0 0 0 0 0 0 0 500";
    assert!(parse_proc_stat(&format!("1 (x){fields}")).is_some());
    assert!(parse_proc_stat(&format!("1 (x)\u{e9}{fields}")).is_none());
    assert!(parse_proc_stat(&format!("1 (x)\u{20ac}{fields}")).is_none());
}

#[test]
fn linux_read_fd0_is_stdin_wait() {
    let fake = FakeInternals::new();
    fake.set_dir("/proc", &["100", "101"]);
    fake.set_file("/proc/100/stat", &stat_line(100, 77, 100, 77, "1", 1, "S"));
    fake.set_file("/proc/101/stat", &stat_line(101, 77, 100, 77, "2", 1, "S"));
    fake.set_dir("/proc/100/task", &["100"]);
    fake.set_dir("/proc/101/task", &["101", "102"]);
    fake.set_file("/proc/100/task/100/syscall", "running");
    fake.set_file("/proc/101/task/101/syscall", "-1 0x0");
    fake.set_file("/proc/101/task/102/syscall", &syscall_line(0, &[0]));
    let inspector = linux(Arc::clone(&fake), "x86_64");
    assert!(inspector.is_stdin_waiting(77));
}

#[test]
fn linux_unreadable_mem_is_not_stdin_wait() {
    let fake = FakeInternals::new();
    fake.set_dir("/proc", &["100"]);
    fake.set_file("/proc/100/stat", &stat_line(100, 77, 100, 77, "1", 1, "S"));
    fake.set_dir("/proc/100/task", &["100"]);
    let inspector = linux(Arc::clone(&fake), "x86_64");
    fake.set_file("/proc/100/task/100/syscall", &syscall_line(270, &[1, 0x10]));
    assert!(!inspector.is_stdin_waiting(77));
    fake.set_file("/proc/100/task/100/syscall", &syscall_line(232, &[5, 0, 1]));
    assert!(!inspector.is_stdin_waiting(77));
}

#[test]
fn linux_aarch64_read_63_fd0_is_stdin_wait() {
    let fake = FakeInternals::new();
    fake.set_dir("/proc", &["100"]);
    fake.set_file("/proc/100/stat", &stat_line(100, 77, 100, 77, "1", 1, "S"));
    fake.set_dir("/proc/100/task", &["100"]);
    fake.set_file("/proc/100/task/100/syscall", &syscall_line(63, &[0]));
    let inspector = linux(Arc::clone(&fake), "aarch64");
    assert!(inspector.is_stdin_waiting(77));
    let x86 = linux(Arc::clone(&fake), "x86_64");
    assert!(!x86.is_stdin_waiting(77));
}

#[test]
fn macos_is_stdin_waiting_is_always_false() {
    let fake = FakeInternals::new();
    fake.set_dir("/proc", &["100"]);
    fake.set_file("/proc/100/stat", &stat_line(100, 77, 100, 77, "1", 1, "S"));
    fake.set_dir("/proc/100/task", &["100"]);
    fake.set_file("/proc/100/task/100/syscall", &syscall_line(0, &[0]));
    let inspector = create_process_inspector_with("darwin", "aarch64", fake).expect("macos inspector");
    assert!(!inspector.is_stdin_waiting(77));
}

#[test]
fn linux_process_group_and_tree_and_signals() {
    let fake = FakeInternals::new();
    assert_eq!(linux_process_group_has_live_members(77, fake.as_ref()), None);

    fake.set_dir("/proc", &["self", "10", "11", "12"]);
    fake.set_file("/proc/10/stat", &stat_line(10, 77, 10, -1, "500", 1, "Z"));
    fake.set_file("/proc/11/stat", &stat_line(11, 77, 10, -1, "501", 1, "X"));
    fake.set_file("/proc/12/stat", &stat_line(12, 88, 12, -1, "502", 1, "S"));
    assert_eq!(linux_process_group_has_live_members(77, fake.as_ref()), Some(false));
    assert_eq!(linux_process_group_has_live_members(99, fake.as_ref()), None);

    fake.set_file("/proc/11/stat", &stat_line(11, 77, 10, -1, "501", 1, "S"));
    assert_eq!(linux_process_group_has_live_members(77, fake.as_ref()), Some(true));

    fake.set_dir("/proc", &["x", "10", "11", "12", "13", "14"]);
    fake.set_file("/proc/10/stat", &stat_line(10, 20, 30, 40, "500", 1, "S"));
    fake.set_file("/proc/11/stat", &stat_line(11, 21, 30, -1, "501", 1, "S"));
    fake.set_file("/proc/12/stat", &stat_line(12, 22, 30, -1, "502", 10, "S"));
    fake.set_file("/proc/13/stat", &stat_line(13, 23, 30, -1, "503", 12, "S"));
    let inspector = linux(Arc::clone(&fake), "x86_64");
    assert_eq!(inspector.foreground_pgid(10), Some(40));
    assert_eq!(inspector.foreground_pgid(11), None);
    assert_eq!(inspector.foreground_pgid(99), None);
    assert_eq!(
        inspector.process_tree(10),
        vec![ProcessIdentity::new(13, "503"), ProcessIdentity::new(12, "502"), ProcessIdentity::new(10, "500")]
    );
    assert_eq!(inspector.process_tree(99), Vec::<ProcessIdentity>::new());
    assert_eq!(
        inspector.process_session(30),
        vec![
            ProcessIdentity::new(10, "500"),
            ProcessIdentity::new(11, "501"),
            ProcessIdentity::new(12, "502"),
            ProcessIdentity::new(13, "503"),
        ]
    );
    assert!(inspector.is_alive(&ProcessIdentity::new(10, "500")));
    assert!(!inspector.is_alive(&ProcessIdentity::new(10, "old")));
    inspector.signal_group(40, SubprocessTerminalSignal::Sigint);
    inspector.signal_process(&ProcessIdentity::new(10, "500"), TermKill::Sigterm);
    inspector.signal_process(&ProcessIdentity::new(10, "old"), TermKill::Sigkill);
    assert_eq!(fake.kills(), vec![(-40, "SIGINT".to_string()), (10, "SIGTERM".to_string())]);
    fake.set_file("/proc/10/stat", &stat_line(10, 20, 30, 40, "500", 1, "Z"));
    assert!(!inspector.is_alive(&ProcessIdentity::new(10, "500")));
    inspector.signal_process(&ProcessIdentity::new(10, "500"), TermKill::Sigkill);
    assert_eq!(fake.kills(), vec![(-40, "SIGINT".to_string()), (10, "SIGTERM".to_string())]);
}

#[test]
fn linux_detects_select_poll_and_epoll_stdin_waits() {
    let fake = FakeInternals::new();
    fake.set_dir("/proc", &["100", "101"]);
    fake.set_file("/proc/100/stat", &stat_line(100, 77, 100, 77, "1", 1, "S"));
    fake.set_file("/proc/101/stat", &stat_line(101, 77, 100, 77, "2", 1, "S"));
    fake.set_dir("/proc/100/task", &["100"]);
    fake.set_dir("/proc/101/task", &["101", "102"]);
    let inspector = linux(Arc::clone(&fake), "x86_64");

    fake.set_file("/proc/101/task/102/syscall", &syscall_line(270, &[1, 0x10]));
    let mut fd_set = vec![0u8; 0x11];
    fd_set[0x10] = 1;
    fake.set_memory("/proc/101/mem", fd_set);
    assert!(inspector.is_stdin_waiting(77));

    let mut poll = vec![0u8; 8];
    poll[0..4].copy_from_slice(&0i32.to_le_bytes());
    poll[4..6].copy_from_slice(&1i16.to_le_bytes());
    fake.set_file("/proc/101/task/102/syscall", &syscall_line(7, &[0x20, 1]));
    let mut poll_mem = vec![0u8; 0x20];
    poll_mem.extend_from_slice(&poll);
    fake.set_memory("/proc/101/mem", poll_mem);
    assert!(inspector.is_stdin_waiting(77));

    fake.set_file("/proc/101/task/102/syscall", &syscall_line(232, &[5, 0, 1]));
    fake.set_file("/proc/101/fdinfo/5", "pos: 0\ntfd: 0 events: 19\n");
    assert!(inspector.is_stdin_waiting(77));
}

#[test]
fn linux_fails_closed_on_non_stdin_and_malformed_waits() {
    let fake = FakeInternals::new();
    fake.set_dir("/proc", &["100"]);
    fake.set_file("/proc/100/stat", &stat_line(100, 77, 100, 77, "1", 1, "S"));
    fake.set_dir("/proc/100/task", &["100"]);
    fake.set_file("/proc/100/task/100/syscall", &syscall_line(0, &[2]));
    assert!(!linux(Arc::clone(&fake), "mips").is_stdin_waiting(77));
    assert!(!linux(Arc::clone(&fake), "x86_64").is_stdin_waiting(77));

    fake.set_file("/proc/100/task/100/syscall", &syscall_line(270, &[1, 0]));
    assert!(!linux(Arc::clone(&fake), "x86_64").is_stdin_waiting(77));
    fake.set_file("/proc/100/task/100/syscall", &syscall_line(7, &[0, 0]));
    assert!(!linux(Arc::clone(&fake), "x86_64").is_stdin_waiting(77));
    fake.set_file("/proc/100/task/100/syscall", &syscall_line(7, &[0, 1]));
    assert!(!linux(Arc::clone(&fake), "x86_64").is_stdin_waiting(77));
    fake.set_file("/proc/100/task/100/syscall", &syscall_line(7, &[0x20, 1]));
    assert!(!linux(Arc::clone(&fake), "x86_64").is_stdin_waiting(77));
    fake.set_file("/proc/100/task/100/syscall", &syscall_line(232, &[9, 0, 1]));
    assert!(!linux(Arc::clone(&fake), "x86_64").is_stdin_waiting(77));
    fake.set_file("/proc/100/task/100/syscall", &syscall_line(999, &[]));
    assert!(!linux(Arc::clone(&fake), "x86_64").is_stdin_waiting(77));
    fake.set_file("/proc/100/task/100/syscall", "not-a-number 0x0");
    assert!(!linux(Arc::clone(&fake), "x86_64").is_stdin_waiting(77));
    fake.delete_dir("/proc/100/task");
    assert!(!linux(Arc::clone(&fake), "x86_64").is_stdin_waiting(77));
    fake.set_dir("/proc", &["100", "200"]);
    fake.set_file("/proc/200/stat", &stat_line(200, 88, 200, 88, "2", 1, "S"));
    assert!(!linux(Arc::clone(&fake), "x86_64").is_stdin_waiting(77));
}

#[test]
fn linux_poll_without_stdin_fd_is_not_wait() {
    let fake = FakeInternals::new();
    fake.set_dir("/proc", &["100"]);
    fake.set_file("/proc/100/stat", &stat_line(100, 77, 100, 77, "1", 1, "S"));
    fake.set_dir("/proc/100/task", &["100"]);
    let inspector = linux(Arc::clone(&fake), "x86_64");
    let mut no_stdin = vec![0u8; 0x28];
    no_stdin[0x20..0x24].copy_from_slice(&2i32.to_le_bytes());
    no_stdin[0x24..0x26].copy_from_slice(&1i16.to_le_bytes());
    fake.set_memory("/proc/100/mem", no_stdin);
    fake.set_file("/proc/100/task/100/syscall", &syscall_line(7, &[0x20, 1]));
    assert!(!inspector.is_stdin_waiting(77));
}

#[test]
fn macos_reads_tpgid_trees_and_identity_fences() {
    let fake = FakeInternals::new();
    fake.set_tpgid("55\n");
    fake.set_ps(
        " 10 1 Mon Jul 21 10:00:00 2026\n 11 10 Mon Jul 21 10:00:01 2026\n 12 11 Mon Jul 21 10:00:02 2026\n 13 99 Mon Jul 21 10:00:03 2026\nmalformed\n",
    );
    let inspector = create_process_inspector_with("darwin", "aarch64", Arc::clone(&fake)).expect("macos inspector");
    assert_eq!(inspector.foreground_pgid(10), Some(55));
    assert!(!inspector.is_stdin_waiting(55));
    assert_eq!(
        inspector.process_tree(10),
        vec![
            ProcessIdentity::new(12, "Mon Jul 21 10:00:02 2026"),
            ProcessIdentity::new(11, "Mon Jul 21 10:00:01 2026"),
            ProcessIdentity::new(10, "Mon Jul 21 10:00:00 2026"),
        ]
    );
    assert_eq!(inspector.process_tree(99), Vec::<ProcessIdentity>::new());
    assert_eq!(inspector.process_session(10), Vec::<ProcessIdentity>::new());
    assert!(inspector.is_alive(&ProcessIdentity::new(11, "Mon Jul 21 10:00:01 2026")));
    inspector.signal_group(55, SubprocessTerminalSignal::Sigtstp);
    inspector.signal_process(&ProcessIdentity::new(11, "Mon Jul 21 10:00:01 2026"), TermKill::Sigkill);
    inspector.signal_process(&ProcessIdentity::new(12, "missing"), TermKill::Sigterm);
    assert_eq!(fake.kills(), vec![(-55, "SIGTSTP".to_string()), (11, "SIGKILL".to_string())]);

    fake.set_ps(" 10 11 Mon Jul 21 10:00:00 2026\n 11 10 Mon Jul 21 10:00:01 2026\n");
    assert_eq!(
        inspector.process_tree(10),
        vec![
            ProcessIdentity::new(11, "Mon Jul 21 10:00:01 2026"),
            ProcessIdentity::new(10, "Mon Jul 21 10:00:00 2026"),
        ]
    );
}

#[test]
fn macos_missing_tpgid_and_unsupported_platform() {
    let fake = FakeInternals::new();
    fake.set_tpgid("-1");
    assert_eq!(
        create_process_inspector_with("darwin", "aarch64", Arc::clone(&fake)).expect("macos").foreground_pgid(1),
        None
    );
    fake.fail_exec();
    assert_eq!(
        create_process_inspector_with("darwin", "aarch64", Arc::clone(&fake)).expect("macos").foreground_pgid(1),
        None
    );
    let err = match create_process_inspector_with("win32", "x86_64", fake) {
        Ok(_) => panic!("expected unsupported platform"),
        Err(error) => error,
    };
    assert_eq!(err.to_string(), "subprocess-local: terminal inspection is unsupported on platform win32");
}

fn echo_argv(text: &str) -> Vec<String> {
    vec!["/bin/echo".to_string(), text.to_string()]
}

#[test]
fn empty_argv0_is_invalid() {
    let err = validate_spawn(3_000, false, &[String::new()]).unwrap_err();
    assert!(matches!(err, SubprocessError::InvalidArgv));
}

#[test]
fn zero_grace_is_invalid() {
    assert!(matches!(validate_spawn(0, false, &echo_argv("x")).unwrap_err(), SubprocessError::InvalidGrace));
}

#[test]
fn oversize_grace_is_invalid() {
    assert!(matches!(
        validate_spawn(MAX_GRACE_MS + 1, false, &echo_argv("x")).unwrap_err(),
        SubprocessError::InvalidGrace
    ));
}

#[test]
fn aborted_flag_rejects_before_spawn() {
    assert!(matches!(validate_spawn(3_000, true, &echo_argv("x")).unwrap_err(), SubprocessError::AbortedBeforeSpawn));
}

#[test]
fn valid_spawn_request_is_accepted() {
    assert!(validate_spawn(MAX_GRACE_MS, false, &echo_argv("x")).is_ok());
    assert!(validate_spawn(1, false, &echo_argv("x")).is_ok());
}

fn terminal_spec(argv: Vec<String>) -> Result<SubprocessTerminalSpawnSpec, SubprocessError> {
    SubprocessTerminalSpawnSpec::new(argv, PathBuf::from("/"), Vec::new(), 40, 160, 3_000)
}

#[test]
fn terminal_spec_keeps_its_fields() {
    let spec = terminal_spec(vec!["/bin/sh".into()]).unwrap();
    assert_eq!(spec.rows(), 40);
    assert_eq!(spec.cols(), 160);
    assert_eq!(spec.grace_ms(), 3_000);
    assert!(spec.env().is_empty());
}

fn dir() -> PathBuf {
    PathBuf::from("/tmp")
}

#[test]
fn under_cap_is_not_lossy() {
    let mut c = OutputCollector::new(8, None, "stdout", &dir());
    assert_eq!(c.push(b"hello"), SpillStep::Nothing);
    let read = c.read_from(0);
    assert_eq!(read.text, "hello");
    assert!(!read.lossy);
    assert_eq!(read.next_offset, 5);
    c.seal(true);
    let out = c.finalize();
    assert_eq!(out.text, "hello");
    assert!(!out.truncated);
    assert!(out.spill_path.is_none());
}

#[test]
fn over_cap_keeps_the_tail() {
    let mut c = OutputCollector::new(4, None, "stdout", &dir());
    assert_eq!(c.push(b"abcdef"), SpillStep::Nothing);
    let read = c.read_from(0);
    assert_eq!(read.text, "cdef");
    assert!(read.lossy);
    c.seal(true);
    let out = c.finalize();
    assert_eq!(out.text, "cdef");
    assert!(out.truncated);
}

#[test]
fn spill_opens_on_overflow_then_appends_then_discards_past_the_cap() {
    let mut c = OutputCollector::new(4, Some(10), "stdout", Path::new("/tmp"));
    assert_eq!(c.push(b"ab"), SpillStep::Nothing);
    assert_eq!(c.push(b"cdef"), SpillStep::Open);
    c.spill_opened("/tmp/spill.log".to_string());
    assert_eq!(c.read_from(0).spill_path.as_deref(), Some("/tmp/spill.log"));
    assert_eq!(c.push(b"g"), SpillStep::Append);
    assert_eq!(c.push(b"hijk"), SpillStep::Discard { path: Some("/tmp/spill.log".to_string()) });
    assert_eq!(c.push(b"l"), SpillStep::Nothing);
    assert_eq!(c.read_from(9).text, "jkl");
    let read = c.read_from(10);
    assert_eq!(read.text, "kl");
    assert!(!read.lossy);
    assert_eq!(read.next_offset, 12);
    assert!(read.spill_path.is_none());
}

#[test]
fn failed_flush_stops_advertising_the_spill_path() {
    let mut c = OutputCollector::new(2, Some(100), "stderr", Path::new("/tmp"));
    assert_eq!(c.push(b"abc"), SpillStep::Open);
    c.spill_opened("/tmp/e.log".to_string());
    c.seal(false);
    assert!(c.finalize().spill_path.is_none());
    let mut d = OutputCollector::new(2, Some(100), "stderr", Path::new("/tmp"));
    assert_eq!(d.push(b"abc"), SpillStep::Open);
    d.spill_open_failed();
    assert_eq!(d.push(b"d"), SpillStep::Nothing);
    assert_eq!(d.label(), "stderr");
}

#[test]
fn pty_outcome_reports_exit_code_or_nothing_on_signal() {
    let normal = pty_outcome(false, 3);
    assert_eq!(normal.exit_code, Some(3));
    assert_eq!(normal.signal, None);
    let killed = pty_outcome(true, 0);
    assert_eq!(killed.exit_code, None);
    assert_eq!(killed.signal, None);
    let huge = pty_outcome(false, u32::MAX);
    assert_eq!(huge.exit_code, None);
}

#[test]
fn resolve_rejects_relative_path_with_slash() {
    let err = plan_executable_lookup("./bin/echo", &[], None).unwrap_err();
    assert!(matches!(err, SubprocessError::RelativePath(_)));
}

#[test]
fn lookup_plans_path_candidates_in_order() {
    let env = vec![
        ("HOME".to_string(), "/home/u".to_string()),
        ("PATH".to_string(), "/usr/bin:bin::/opt/".to_string()),
        ("PATH".to_string(), "/ignored".to_string()),
    ];
    let lookup = plan_executable_lookup("true", &env, Some("/work")).unwrap();
    assert!(!lookup.absolute);
    assert!(lookup.candidates.iter().all(|candidate| candidate.starts_with('/')));
    assert_eq!(
        lookup.candidates,
        vec!["/usr/bin/true".to_string(), "/work/bin/true".to_string(), "/work/true".to_string(), "/opt/true".to_string()]
    );
    let found = lookup_result("true", lookup, Some(1)).unwrap();
    assert_eq!(found, "/work/bin/true");
}

#[test]
fn lookup_errors_for_empty_absolute_and_missing() {
    assert!(matches!(plan_executable_lookup("", &[], None), Err(SubprocessError::EmptyExecutable)));
    let absolute = plan_executable_lookup("/bin/sh", &[], None).unwrap();
    assert!(absolute.absolute);
    assert_eq!(absolute.candidates, vec!["/bin/sh".to_string()]);
    assert!(matches!(
        lookup_result("/bin/sh", absolute, None),
        Err(SubprocessError::NotExecutable(c)) if c == "/bin/sh"
    ));
    let bare = plan_executable_lookup("nothing-here", &[], None).unwrap();
    assert_eq!(bare.candidates, vec!["nothing-here".to_string()]);
    assert!(matches!(
        lookup_result("nothing-here", bare, None),
        Err(SubprocessError::NotOnPath(c)) if c == "nothing-here"
    ));
}

#[test]
fn group_liveness_is_decided_from_the_reads() {
    let names: Vec<String> = ["self", "10", "11", "12"].iter().map(|s| s.to_string()).collect();
    // A failed listing gives no answer.
    assert_eq!(group_liveness_from_reads(77, None, &[]), None);
    let zombie = Some(stat_line(10, 77, 10, -1, "500", 1, "Z"));
    let dead = Some(stat_line(11, 77, 10, -1, "501", 1, "X"));
    let other = Some(stat_line(12, 88, 12, -1, "502", 1, "S"));
    let reads = vec![zombie.clone(), dead.clone(), other.clone()];
    assert_eq!(group_liveness_from_reads(77, Some(&names), &reads), Some(false));
    assert_eq!(group_liveness_from_reads(99, Some(&names), &reads), None);
    // An unreadable or unparseable stat counts for nothing.
    let reads = vec![zombie.clone(), None, Some("garbage".to_string())];
    assert_eq!(group_liveness_from_reads(77, Some(&names), &reads), Some(false));
    let sleeping = Some(stat_line(11, 77, 10, -1, "501", 1, "S"));
    let reads = vec![zombie, sleeping, other];
    assert_eq!(group_liveness_from_reads(77, Some(&names), &reads), Some(true));
}

#[test]
fn linux_answers_are_decided_from_the_stat_texts() {
    let shell = Some(stat_line(10, 10, 10, 42, "500", 1, "S"));
    assert_eq!(foreground_from_read(&shell), Some(42));
    assert_eq!(foreground_from_read(&Some(stat_line(10, 10, 10, -1, "500", 1, "S"))), None);
    assert_eq!(foreground_from_read(&None), None);
    let me = ProcessIdentity::new(10, "500");
    assert!(alive_from_read(&me, &shell));
    assert!(!alive_from_read(&me, &Some(stat_line(10, 10, 10, 42, "999", 1, "S"))));
    assert!(!alive_from_read(&me, &Some(stat_line(10, 10, 10, 42, "500", 1, "Z"))));
    assert!(!alive_from_read(&me, &None));

    let pids = [10, 11, 12, 13];
    let texts = vec![
        Some(stat_line(10, 10, 7, -1, "500", 1, "S")),
        Some(stat_line(11, 11, 7, -1, "501", 10, "S")),
        None,
        Some(stat_line(13, 13, 8, -1, "503", 11, "S")),
    ];
    let session = session_from_reads(7, &pids, &texts);
    assert_eq!(session, vec![ProcessIdentity::new(10, "500"), ProcessIdentity::new(11, "501")]);
    let tree = tree_from_reads(10, &pids, &texts);
    let tree_pids: Vec<i32> = tree.iter().map(|p| p.pid()).collect();
    assert_eq!(tree_pids, vec![13, 11, 10]);
}
