use terminator::batch::{batch_result, secret_source, ExecOutcome, SecretSource};
use std::sync::Mutex;
use terminator::daemon::{data_dir, port_file, port_text, sort_newest_first, OutputEvent, SessionInfo};
use terminator::session::{Pump, PumpAction, PumpEvent, MAX_BATCH};
use terminator::tap::{event_code, resize_code, resize_payload, Direction, FlushPolicy, Tap, TapSet, FLUSH_EVERY};
use terminator::transport::{
    default_shell, discover_shells, exit_code_or_signal, expand_tilde, Client, Credentials, ExecResult, HostKeyLookup, HostKeyPolicy,
    HostKeyVerdict, LogPaths, ShellOption, SshAuth, SshCredentials, TransportSpec,
};
use terminator::tunnels::{
    connection_failed_message, default_bind_addr, default_target_host, TunnelConfig, TunnelKind, TunnelStatus,
};

fn delivered(a: &PumpAction) -> Vec<u8> {
    match a {
        PumpAction::Deliver(b) | PumpAction::DeliverAndStop(b) => b.clone(),
        _ => Vec::new(),
    }
}

#[test]
fn small_chunks_are_coalesced_until_the_window_passes() {
    let mut p = Pump::new();
    assert!(matches!(p.start(), PumpAction::AwaitFirst));
    assert!(matches!(p.step(PumpEvent::Chunk(b"ab".to_vec())), PumpAction::AwaitMore));
    assert!(matches!(p.step(PumpEvent::Chunk(b"cd".to_vec())), PumpAction::AwaitMore));
    let a = p.step(PumpEvent::WindowElapsed);
    assert!(matches!(a, PumpAction::Deliver(_)));
    assert_eq!(delivered(&a), b"abcd".to_vec());
    assert!(matches!(p.step(PumpEvent::Tick), PumpAction::FlushTaps));
    assert!(matches!(p.step(PumpEvent::Closed), PumpAction::Stop));
}

#[test]
fn a_full_batch_goes_out_at_once_and_the_last_one_on_close() {
    let mut p = Pump::new();
    let big = vec![7u8; MAX_BATCH];
    let a = p.step(PumpEvent::Chunk(big.clone()));
    assert!(matches!(a, PumpAction::Deliver(_)));
    assert_eq!(delivered(&a).len(), MAX_BATCH);
    p.step(PumpEvent::Chunk(b"tail".to_vec()));
    assert!(matches!(p.step(PumpEvent::Tick), PumpAction::AwaitMore));
    let a = p.step(PumpEvent::Closed);
    assert!(matches!(a, PumpAction::DeliverAndStop(_)));
    assert_eq!(delivered(&a), b"tail".to_vec());
}

#[test]
fn every_byte_is_handed_on_once_in_order() {
    let mut p = Pump::new();
    let mut out = Vec::new();
    let mut sent = Vec::new();
    for i in 0..50u8 {
        let chunk = vec![i; (i as usize) * 4000];
        sent.extend_from_slice(&chunk);
        out.extend(delivered(&p.step(PumpEvent::Chunk(chunk))));
        if i % 7 == 0 {
            out.extend(delivered(&p.step(PumpEvent::WindowElapsed)));
        }
    }
    out.extend(delivered(&p.step(PumpEvent::Closed)));
    assert_eq!(out, sent);
}

struct Recorder<'a> {
    name: &'static str,
    seen: &'a Mutex<Vec<String>>,
}

impl Tap for Recorder<'_> {
    fn on_data(&self, dir: Direction, data: &[u8]) {
        self.seen.lock().unwrap().push(format!("{}:{:?}:{}", self.name, dir, data.len()));
    }
    fn on_resize(&self, cols: u16, rows: u16) {
        self.seen.lock().unwrap().push(format!("{}:resize:{cols}x{rows}", self.name));
    }
}

#[test]
fn taps_receive_everything_in_registration_order() {
    let seen = Mutex::new(Vec::new());
    let mut set = TapSet::new();
    assert!(set.is_empty());
    set.push(Recorder { name: "a", seen: &seen });
    set.push(Recorder { name: "b", seen: &seen });
    assert_eq!(set.len(), 2);
    set.on_data(Direction::Output, b"xyz");
    set.on_resize(80, 24);
    set.flush();
    set.on_close();
    assert_eq!(*seen.lock().unwrap(), vec!["a:Output:3", "b:Output:3", "a:resize:80x24", "b:resize:80x24"]);
}

#[test]
fn the_recorder_flushes_by_size_time_and_tick() {
    let mut f = FlushPolicy::new();
    assert!(f.accepts());
    assert!(!f.wrote(100, false));
    assert!(f.wrote(FLUSH_EVERY - 100, false));
    assert!(!f.wrote(1, false));
    assert!(f.wrote(1, true));
    assert!(!f.tick(), "nothing pending");
    f.wrote(5, false);
    assert!(f.tick());
    f.wrote(5, false);
    f.close();
    assert!(!f.accepts());
    assert!(!f.tick(), "closed recorders do not flush on the tick");
}

#[test]
fn cast_event_codes_and_resize_payload() {
    assert_eq!(event_code(Direction::Output), "o");
    assert_eq!(event_code(Direction::Input), "i");
    assert_eq!(resize_code(), "r");
    assert_eq!(resize_payload(120, 40), "120x40");
}

#[test]
fn labels_name_the_shell_or_the_endpoint() {
    let local = TransportSpec::Local { shell: Some("/usr/bin/zsh".into()), cwd: None };
    assert_eq!(local.label(), "zsh");
    let win = TransportSpec::Local { shell: Some("C:\\Windows\\System32\\cmd.exe".into()), cwd: None };
    assert_eq!(win.label(), "cmd.exe");
    assert_eq!(TransportSpec::Local { shell: None, cwd: None }.label(), "shell");
    let ssh = TransportSpec::Ssh {
        host: "box".into(),
        port: 22,
        user: "me".into(),
        auth: SshAuth::default_auth(),
        jump_host: Some(Box::new(TransportSpec::Local { shell: None, cwd: None })),
    };
    assert_eq!(ssh.label(), "me@box");
    let rdp = TransportSpec::Rdp { host: "win".into(), port: 3389, user: "admin".into(), domain: None };
    assert_eq!(rdp.label(), "rdp admin@win");
}

fn client(policy: HostKeyPolicy) -> Client {
    Client { host: "box".into(), port: 2222, policy, known_hosts: "/kh".into() }
}

#[test]
fn host_keys_are_trusted_on_first_use_but_never_when_changed() {
    assert!(matches!(client(HostKeyPolicy::TofuAccept).check_server_key(&HostKeyLookup::Known), HostKeyVerdict::Accept));
    assert!(matches!(client(HostKeyPolicy::TofuAccept).check_server_key(&HostKeyLookup::Unknown), HostKeyVerdict::Learn));
    match client(HostKeyPolicy::Strict).check_server_key(&HostKeyLookup::Unknown) {
        HostKeyVerdict::Reject { reason } => assert_eq!(reason, "unknown host key for box:2222 and strict checking is on"),
        other => panic!("expected a rejection, got {other:?}"),
    }
    match client(HostKeyPolicy::TofuAccept).check_server_key(&HostKeyLookup::Changed { detail: "mismatch".into() }) {
        HostKeyVerdict::Reject { reason } => assert_eq!(
            reason,
            "host key verification failed for box:2222: mismatch. If this host was legitimately rebuilt, remove its entry from /kh"
        ),
        other => panic!("expected a rejection, got {other:?}"),
    }
}

#[test]
fn jump_hosts_get_the_jump_credentials() {
    let c = SshCredentials::from_credentials(Credentials {
        secret: Some("a".into()),
        key_passphrase: None,
        jump_secret: Some("j".into()),
        jump_key_passphrase: Some("jp".into()),
    });
    let j = c.for_jump_host();
    assert_eq!(j.secret.as_deref(), Some("j"));
    assert_eq!(j.key_passphrase.as_deref(), Some("jp"));
    assert!(j.jump_secret.is_none() && j.jump_key_passphrase.is_none());
    let none = Credentials::none();
    assert!(none.secret.is_none());
    assert_eq!(exit_code_or_signal(Some(3)), 3);
    assert_eq!(exit_code_or_signal(None), -1);
}

fn cand(name: &str, path: &str, exists: bool) -> (String, String, bool) {
    (name.to_string(), path.to_string(), exists)
}

#[test]
fn discover_returns_at_least_one_shell() {
    let shells = discover_shells(&vec![cand("bash", "/bin/bash", true), cand("zsh", "/bin/zsh", false)]);
    assert!(!shells.is_empty());
    assert!(shells.iter().all(|s| s.path == "/bin/bash"));
}

#[test]
fn discover_dedupes_paths() {
    let shells = discover_shells(&vec![
        cand("bash", "/bin/bash", true),
        cand("fish", "/usr/bin/fish", true),
        cand("bash", "/bin/bash", true),
    ]);
    let mut seen = std::collections::HashSet::new();
    for s in &shells {
        assert!(seen.insert(s.path.clone()), "duplicate shell path returned: {}", s.path);
    }
    assert_eq!(shells.len(), 2);
}

#[test]
fn default_shell_matches_first_discovered() {
    let shells = discover_shells(&vec![cand("zsh", "/bin/zsh", false), cand("fish", "/usr/bin/fish", true)]);
    assert_eq!(default_shell(&shells, "/bin/sh".to_string()), "/usr/bin/fish");
    let none: Vec<ShellOption> = Vec::new();
    assert_eq!(default_shell(&none, "/bin/sh".to_string()), "/bin/sh");
}

#[test]
fn session_logs_go_under_a_stamped_directory() {
    let p = LogPaths::for_session("/var/log/t", 1700000000, "0123abcd-ef01-2345-6789-abcdef012345");
    assert_eq!(p.cast, "/var/log/t/1700000000-0123abcd/session.cast");
    assert_eq!(p.plain, "/var/log/t/1700000000-0123abcd/session.log");
}

#[test]
fn tunnel_status_tracks_connections_and_bytes() {
    let mut s = TunnelStatus::started("t1".to_string());
    assert!(s.active);
    s.connection_opened();
    s.connection_opened();
    s.connection_closed();
    s.sent(10);
    s.received(7);
    assert_eq!((s.active_connections, s.bytes_tx, s.bytes_rx), (1, 10, 7));
    s.connection_closed();
    s.connection_closed();
    assert_eq!(s.active_connections, 0, "the count never goes negative");
    s.stopped(Some(connection_failed_message("refused")));
    assert!(!s.active);
    assert_eq!(s.error.as_deref(), Some("SSH connection failed: refused"));
}

#[test]
fn tunnels_bind_to_loopback_by_default() {
    assert_eq!(default_bind_addr(), "127.0.0.1");
    assert_eq!(default_target_host(), "127.0.0.1");
    let c = TunnelConfig {
        id: "t".into(),
        name: "db".into(),
        kind: TunnelKind::Local,
        ssh_spec: TransportSpec::Local { shell: None, cwd: None },
        local_addr: default_bind_addr(),
        local_port: 5432,
        target_host: default_target_host(),
        target_port: 5432,
    };
    assert_eq!(c.bind_address(), "127.0.0.1:5432");
}

fn info(id: &str, at: i64) -> SessionInfo {
    SessionInfo { id: id.into(), spec: TransportSpec::Local { shell: None, cwd: None }, alive: true, opened_at_ms: at }
}

#[test]
fn sessions_are_listed_newest_first() {
    let mut v = vec![info("a", 5), info("b", 9), info("c", 1), info("d", 7)];
    sort_newest_first(&mut v);
    let ids: Vec<_> = v.iter().map(|s| s.id.as_str()).collect();
    assert_eq!(ids, vec!["b", "d", "a", "c"]);
    let mut same = vec![info("x", 3), info("y", 3), info("z", 4)];
    sort_newest_first(&mut same);
    let ids: Vec<_> = same.iter().map(|s| s.id.as_str()).collect();
    assert_eq!(ids, vec!["z", "x", "y"], "equal times keep their order");
}

#[test]
fn output_events_carry_base64_and_exit_is_last() {
    match OutputEvent::output(b"hi") {
        OutputEvent::Output { data_b64 } => assert_eq!(data_b64, "aGk="),
        OutputEvent::Exit => panic!("expected output"),
    }
    assert!(OutputEvent::Exit.is_last());
    assert!(!OutputEvent::output(b"").is_last());
}

#[test]
fn the_data_dir_follows_xdg_then_home() {
    assert_eq!(data_dir(Some("/x".into()), Some("/h".into())).as_deref(), Some("/x/terminator"));
    assert_eq!(data_dir(None, Some("/home/me".into())).as_deref(), Some("/home/me/.local/share/terminator"));
    assert_eq!(data_dir(None, None), None);
    assert_eq!(port_file("/x/terminator"), "/x/terminator/daemon.port");
    assert_eq!(port_text(8123), "8123");
}

#[test]
fn a_leading_tilde_means_home() {
    assert_eq!(expand_tilde("~/.ssh/id_ed25519", Some("/home/me")), "/home/me/.ssh/id_ed25519");
    assert_eq!(expand_tilde("~/.ssh/id_ed25519", None), "~/.ssh/id_ed25519");
    assert_eq!(expand_tilde("/etc/key", Some("/home/me")), "/etc/key");
    assert_eq!(expand_tilde("~user/key", Some("/home/me")), "~user/key");
}

#[test]
fn a_typed_password_wins_over_a_stored_secret() {
    assert!(matches!(secret_source(Some("pw".into()), Some("ssh:a@b".into())), SecretSource::Given(p) if p == "pw"));
    assert!(matches!(secret_source(None, Some("ssh:a@b".into())), SecretSource::Stored(k) if k == "ssh:a@b"));
    assert!(matches!(secret_source(None, None), SecretSource::Missing));
}

#[test]
fn batch_results_report_each_way_a_command_can_end() {
    let ok = batch_result(
        "1".into(),
        "web".into(),
        ExecOutcome::Finished(ExecResult { exit_code: 3, stdout: "out".into(), stderr: "err".into() }),
        12,
    );
    assert_eq!((ok.id.as_str(), ok.label.as_str(), ok.exit_code, ok.stdout.as_str(), ok.stderr.as_str()), ("1", "web", 3, "out", "err"));
    assert_eq!((ok.error, ok.duration_ms), (None, 12));

    let failed = batch_result("2".into(), "db".into(), ExecOutcome::Failed("refused".into()), 5);
    assert_eq!((failed.exit_code, failed.stdout.as_str(), failed.error.as_deref()), (-1, "", Some("refused")));

    let slow = batch_result("3".into(), "slow".into(), ExecOutcome::TimedOut, 60000);
    assert_eq!(slow.exit_code, -1);
    assert_eq!(slow.error.as_deref(), Some("Command timed out after 60 seconds"));
}

#[test]
fn an_empty_chunk_still_opens_a_batch() {
    let mut p = Pump::new();
    assert!(matches!(p.step(PumpEvent::Chunk(Vec::new())), PumpAction::AwaitMore));
    match p.step(PumpEvent::WindowElapsed) {
        PumpAction::Deliver(b) => assert!(b.is_empty()),
        _ => panic!("the window closes the batch, empty or not"),
    }
    assert!(matches!(p.step(PumpEvent::Chunk(Vec::new())), PumpAction::AwaitMore));
    match p.step(PumpEvent::Closed) {
        PumpAction::DeliverAndStop(b) => assert!(b.is_empty()),
        _ => panic!("a closed transport ends the open batch"),
    }
}
