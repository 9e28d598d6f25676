use webterminal::errors::SessionError;
use webterminal::launch::{
    build_command, build_command_at, build_persisted_spec, clamp, needs_tmux,
    persisted_input_mode, persisted_session, plan_session, plan_session_at, sanitize_tmux_name,
    ssh_command_parts, CreateMode, CreateSessionRequest, InputMode, PersistedSession, SessionMode,
    SshTarget,
};
use webterminal::outside::{short_id, Timestamp};

const ID: u128 = 0x01234567_89ab_4def_8123_456789abcdef;
const AT: Timestamp = Timestamp { secs: 1_700_000_000, nanos: 5 };

fn request() -> CreateSessionRequest {
    CreateSessionRequest {
        name: None,
        mode: None,
        cols: None,
        rows: None,
        tmux_name: None,
        ssh: None,
        command: None,
    }
}

fn target() -> SshTarget {
    SshTarget {
        host: "example.org".to_string(),
        username: "me".to_string(),
        port: None,
        key_path: None,
    }
}

fn is_control(mode: &InputMode) -> bool {
    matches!(mode, InputMode::TmuxControl(_))
}

#[test]
fn short_ids_are_the_first_eight_digits() {
    assert_eq!(short_id(ID), "01234567");
    assert_eq!(short_id(0), "00000000");
    assert_eq!(short_id(u128::MAX), "ffffffff");
    let uuid = uuid::Uuid::from_u128(0xfedcba98_0000_4000_8000_000000000000);
    assert_eq!(short_id(uuid.as_u128()), uuid.to_string()[..8]);
}

#[test]
fn local_sessions_run_tmux() {
    let req = CreateSessionRequest { mode: Some(CreateMode::Local), ..request() };
    let spec = build_command_at(ID, "my name", req, 120, 36, AT).ok().unwrap();
    assert_eq!(spec.name, "Local 01234567");
    assert_eq!(spec.command, "tmux new-session -A -s 'my name'");
    assert_eq!(spec.cleanup_command, Some("tmux kill-session -t 'my name'".to_string()));
    assert_eq!(spec.mode, SessionMode::Local);
    assert!(!is_control(&spec.input_mode));
    let persistent = spec.persistent.unwrap();
    assert_eq!((persistent.id, persistent.cols, persistent.rows), (ID, 120, 36));
    assert_eq!(persistent.tmux_name, "my name");
    assert_eq!(persistent.created_at, AT);
    assert!(persistent.pane_notes.is_empty());
    assert!(persistent.ssh.is_none());
}

#[test]
fn control_mode_is_the_default() {
    let spec = build_command_at(ID, "wt", request(), 120, 36, AT).ok().unwrap();
    assert_eq!(spec.name, "Local CC 01234567");
    assert_eq!(spec.command, "tmux -CC new-session -A -s wt");
    assert_eq!(spec.cleanup_command, Some("tmux kill-session -t wt".to_string()));
    assert_eq!(spec.mode, SessionMode::LocalCc);
    assert!(is_control(&spec.input_mode));
}

#[test]
fn remote_sessions_run_tmux_through_ssh() {
    let req = CreateSessionRequest {
        mode: Some(CreateMode::Ssh),
        ssh: Some(target()),
        ..request()
    };
    let spec = build_command_at(ID, "wt", req, 120, 36, AT).ok().unwrap();
    assert_eq!(spec.name, "me@example.org");
    assert_eq!(
        spec.command,
        "ssh -tt -p 22 -o ServerAliveInterval=30 -o ServerAliveCountMax=3 \
         -o StrictHostKeyChecking=accept-new me@example.org 'tmux new-session -A -s wt'"
    );
    assert_eq!(spec.cleanup_command, None);
    assert_eq!(spec.mode, SessionMode::Ssh);
    assert!(!is_control(&spec.input_mode));

    let ssh = SshTarget {
        port: Some(2222),
        key_path: Some("/home/me/my key".to_string()),
        ..target()
    };
    let req = CreateSessionRequest {
        mode: Some(CreateMode::SshCc),
        name: Some("Box".to_string()),
        ssh: Some(ssh),
        ..request()
    };
    let spec = build_command_at(ID, "a b", req, 120, 36, AT).ok().unwrap();
    assert_eq!(spec.name, "Box");
    assert_eq!(
        spec.command,
        "ssh -tt -p 2222 -o ServerAliveInterval=30 -o ServerAliveCountMax=3 \
         -o StrictHostKeyChecking=accept-new -i '/home/me/my key' me@example.org \
         'tmux -CC new-session -A -s '\\''a b'\\'''"
    );
    assert!(is_control(&spec.input_mode));
    assert!(spec.persistent.unwrap().ssh.is_some());

    let req = CreateSessionRequest {
        mode: Some(CreateMode::SshCc),
        ssh: Some(target()),
        ..request()
    };
    let spec = build_command_at(ID, "wt", req, 120, 36, AT).ok().unwrap();
    assert_eq!(spec.name, "me@example.org CC");
}

#[test]
fn remote_sessions_need_a_target() {
    for mode in [CreateMode::Ssh, CreateMode::SshCc] {
        let req = CreateSessionRequest { mode: Some(mode), ..request() };
        assert_eq!(
            build_command_at(ID, "wt", req, 120, 36, AT).err(),
            Some(SessionError::MissingSshTarget)
        );
    }
}

#[test]
fn custom_commands_are_not_remembered() {
    let req = CreateSessionRequest {
        command: Some("htop".to_string()),
        mode: Some(CreateMode::Ssh),
        ..request()
    };
    let spec = build_command_at(ID, "wt", req, 120, 36, AT).ok().unwrap();
    assert_eq!(spec.name, "Custom Command");
    assert_eq!(spec.command, "htop");
    assert_eq!(spec.mode, SessionMode::Local);
    assert!(spec.cleanup_command.is_none());
    assert!(spec.persistent.is_none());
    assert!(!is_control(&spec.input_mode));
}

#[test]
fn sessions_come_back_as_they_were() {
    for mode in [CreateMode::Local, CreateMode::LocalCc, CreateMode::Ssh, CreateMode::SshCc] {
        let req = CreateSessionRequest { mode: Some(mode), ssh: Some(target()), ..request() };
        let spec = build_command_at(ID, "wt", req, 120, 36, AT).ok().unwrap();
        let again = build_persisted_spec(spec.persistent.unwrap()).ok().unwrap();
        assert_eq!(again.name, spec.name);
        assert_eq!(again.command, spec.command);
        assert_eq!(again.cleanup_command, spec.cleanup_command);
        assert_eq!(again.mode, spec.mode);
        assert_eq!(is_control(&again.input_mode), is_control(&spec.input_mode));
    }
}

fn remembered(mode: SessionMode) -> PersistedSession {
    let mut session = persisted_session(ID, "n".to_string(), mode, "wt", 80, 24, None);
    session.pane_notes.insert("%1".to_string(), "note".to_string());
    session
}

#[test]
fn remembered_remote_sessions_need_a_target() {
    assert_eq!(
        build_persisted_spec(remembered(SessionMode::Ssh)).err(),
        Some(SessionError::MissingPersistedTarget)
    );
    assert_eq!(
        build_persisted_spec(remembered(SessionMode::SshCc)).err(),
        Some(SessionError::MissingPersistedControlTarget)
    );
}

#[test]
fn notes_come_back_in_control_mode() {
    match persisted_input_mode(&remembered(SessionMode::LocalCc)) {
        InputMode::TmuxControl(state) => {
            assert_eq!(state.pane_notes.get("%1"), Some(&"note".to_string()));
            assert!(!state.initialized);
        }
        InputMode::Direct => panic!("not in control mode"),
    }
    assert!(!is_control(&persisted_input_mode(&remembered(SessionMode::Local))));
}

#[test]
fn ssh_words_are_quoted_one_by_one() {
    let parts = ssh_command_parts(&target(), 22, "ls -l");
    assert_eq!(parts.len(), 12);
    assert_eq!(parts[0], "ssh");
    assert_eq!(parts[10], "me@example.org");
    assert_eq!(parts[11], "'ls -l'");
}

#[test]
fn tmux_names_are_sanitized() {
    assert_eq!(sanitize_tmux_name(Some("  my session! "), ID), "my-session-");
    assert_eq!(sanitize_tmux_name(Some("a_b-c.9"), ID), "a_b-c.9");
    assert_eq!(sanitize_tmux_name(Some(" \t"), ID), "wt-01234567");
    assert_eq!(sanitize_tmux_name(None, ID), "wt-01234567");
    assert_eq!(sanitize_tmux_name(Some("\u{e9}:x"), ID), "--x");
}

#[test]
fn sizes_are_clamped() {
    assert_eq!(clamp(39, 40, 240), 40);
    assert_eq!(clamp(40, 40, 240), 40);
    assert_eq!(clamp(241, 40, 240), 240);
    let plan = plan_session_at(ID, request(), AT).ok().unwrap();
    assert_eq!((plan.cols, plan.rows), (120, 36));
    let req = CreateSessionRequest { cols: Some(1), rows: Some(1000), ..request() };
    let plan = plan_session_at(ID, req, AT).ok().unwrap();
    assert_eq!((plan.cols, plan.rows), (40, 80));
    assert_eq!(plan.spec.command, "tmux -CC new-session -A -s wt-01234567");
    assert_eq!(plan.spec.persistent.unwrap().cols, 40);
}

#[test]
fn new_sessions_have_random_ids_and_the_present_time() {
    let before = std::time::SystemTime::now();
    let first = plan_session(request()).ok().unwrap();
    let second = plan_session(request()).ok().unwrap();
    assert_ne!(first.id, second.id);
    for plan in [&first, &second] {
        let uuid = uuid::Uuid::from_u128(plan.id);
        assert_eq!(uuid.get_version_num(), 4);
        let at = plan.spec.persistent.as_ref().unwrap().created_at;
        let since = before.duration_since(std::time::UNIX_EPOCH).unwrap().as_secs() as i64;
        assert!(at.secs >= since && at.secs <= since + 60);
        assert!(at.nanos < 1_000_000_000);
    }
    let spec = build_command(ID, "wt", request(), 80, 24).ok().unwrap();
    assert!(AT.secs < spec.persistent.unwrap().created_at.secs);
}

#[test]
fn tmux_is_needed_where_it_is_named() {
    assert!(needs_tmux("tmux new-session -A -s x"));
    assert!(needs_tmux("ssh h 'tmux attach'"));
    assert!(!needs_tmux("htop"));
}
