use webterminal::errors::SessionError;
use webterminal::launch::{
    persisted_session_at, plan_session_at, CreateMode, CreateSessionRequest, InputMode,
    PersistedSession, SessionMode, SessionSpec,
};
use webterminal::lifecycle::{
    begin_resize, current_record, delete_session, ensure_session_running, plan_persisted,
    plan_session_reconnect, report_reconnect_failure, ResizeSessionRequest, Revival, TerminalSize,
};
use webterminal::outside::Timestamp;
use webterminal::registry::SessionRegistry;
use webterminal::session::TerminalSession;
use webterminal::store::SessionStore;
use webterminal::table::TextMap;

fn remembered(id: u128, secs: i64, nanos: u32) -> PersistedSession {
    persisted_session_at(
        id,
        format!("n{id}"),
        SessionMode::LocalCc,
        "wt",
        120,
        36,
        None,
        Timestamp { secs, nanos },
    )
}

fn ids(list: &[PersistedSession]) -> Vec<u128> {
    list.iter().map(|s| s.id).collect()
}

#[test]
fn sessions_are_listed_by_age() {
    let store = SessionStore::load(vec![
        remembered(1, 30, 0),
        remembered(2, 10, 7),
        remembered(3, -5, 0),
        remembered(4, 10, 6),
    ]);
    assert_eq!(ids(&store.list_by_age()), vec![3, 4, 2, 1]);
    let mut all = ids(&store.list());
    all.sort();
    assert_eq!(all, vec![1, 2, 3, 4]);
}

#[test]
fn the_store_survives_a_restart() {
    let mut store = SessionStore::new();
    store.upsert(remembered(1, 1, 0));
    store.upsert(remembered(2, 2, 0));
    let mut notes: TextMap<String> = TextMap::new();
    notes.insert("%1".to_string(), "note".to_string());
    assert!(store.update_notes(2, notes));
    assert!(store.update_size(1, 80, 24));
    let again = SessionStore::load(store.list_by_age());
    let list = again.list_by_age();
    assert_eq!(ids(&list), vec![1, 2]);
    assert_eq!((list[0].cols, list[0].rows), (80, 24));
    assert_eq!((list[1].cols, list[1].rows), (120, 36));
    assert_eq!(list[1].pane_notes.get("%1"), Some(&"note".to_string()));
}

#[test]
fn of_two_sessions_with_one_id_the_later_counts() {
    let store = SessionStore::load(vec![remembered(1, 1, 0), remembered(1, 9, 0)]);
    let list = store.list();
    assert_eq!(list.len(), 1);
    assert_eq!(list[0].created_at.secs, 9);
}

#[test]
fn unknown_sessions_are_not_updated() {
    let mut store = SessionStore::new();
    assert!(!store.update_notes(1, TextMap::new()));
    assert!(!store.update_size(1, 80, 24));
    store.remove(1);
    assert!(store.list().is_empty());
}

#[test]
fn the_registry_finds_sessions_by_id() {
    let mut registry: SessionRegistry<&str> = SessionRegistry::new();
    registry.insert(1, "one");
    registry.insert(2, "two");
    registry.replace(2, "TWO");
    assert_eq!(registry.get(2), Some(&"TWO"));
    assert_eq!(registry.get(3), None);
    let mut all: Vec<&str> = registry.list().into_iter().copied().collect();
    all.sort();
    assert_eq!(all, vec!["TWO", "one"]);
    assert_eq!(registry.remove(1), Some("one"));
    assert_eq!(registry.remove(1), None);
}

#[test]
fn deleting_forgets_a_session_that_runs() {
    let mut registry: SessionRegistry<u8> = SessionRegistry::new();
    let mut store = SessionStore::load(vec![remembered(1, 1, 0), remembered(2, 2, 0)]);
    registry.insert(1, 11);
    assert_eq!(delete_session(&mut registry, &mut store, 2), None);
    assert_eq!(store.list().len(), 2);
    assert_eq!(delete_session(&mut registry, &mut store, 1), Some(11));
    assert_eq!(ids(&store.list()), vec![2]);
    assert!(registry.get(1).is_none());
}

fn running(persistent: Option<PersistedSession>) -> TerminalSession {
    let spec = SessionSpec {
        name: "Box".to_string(),
        command: "tmux".to_string(),
        cleanup_command: None,
        mode: SessionMode::Local,
        input_mode: InputMode::Direct,
        persistent,
    };
    TerminalSession::start_at(7, spec, 80, 24, Timestamp { secs: 0, nanos: 0 })
}

#[test]
fn reconnected_sessions_run_as_planned() {
    let req = CreateSessionRequest {
        name: None,
        mode: Some(CreateMode::LocalCc),
        cols: Some(90),
        rows: Some(30),
        tmux_name: Some("my box".to_string()),
        ssh: None,
        command: None,
    };
    let plan = plan_session_at(7, req, Timestamp { secs: 1, nanos: 0 }).ok().unwrap();
    let command = plan.spec.command.clone();
    let session = TerminalSession::start_at(
        plan.id,
        plan.spec,
        plan.cols,
        plan.rows,
        Timestamp { secs: 2, nanos: 0 },
    );
    let again = plan_session_reconnect(&session).ok().unwrap();
    assert_eq!((again.id, again.cols, again.rows), (7, 90, 30));
    assert_eq!(again.spec.command, command);
    assert_eq!(again.spec.name, "Local CC 00000000");
}

#[test]
fn notes_survive_a_reconnect() {
    let plan = plan_persisted(remembered(7, 1, 0)).ok().unwrap();
    let mut session = TerminalSession::start_at(
        plan.id,
        plan.spec,
        plan.cols,
        plan.rows,
        Timestamp { secs: 2, nanos: 0 },
    );
    if let InputMode::TmuxControl(state) = &mut session.input_mode {
        state.upsert_pane_placeholder("%1");
    }
    session.set_tmux_pane_note("%1", "build").unwrap();
    let again = plan_session_reconnect(&session).ok().unwrap();
    match &again.spec.input_mode {
        InputMode::TmuxControl(state) => {
            assert_eq!(state.pane_notes.get("%1"), Some(&"build".to_string()));
            assert!(state.windows.is_empty());
        }
        InputMode::Direct => panic!("not in control mode"),
    }
    let record = again.spec.persistent.unwrap();
    assert_eq!(record.pane_notes.get("%1"), Some(&"build".to_string()));
    session.reconnect_close();
    match ensure_session_running(&session) {
        Revival::Start(plan) => match plan.spec.input_mode {
            InputMode::TmuxControl(state) => {
                assert_eq!(state.pane_notes.get("%1"), Some(&"build".to_string()));
            }
            InputMode::Direct => panic!("not in control mode"),
        },
        _ => panic!("not started again"),
    }
}

#[test]
fn a_record_without_notes_to_take_up_stays_as_it_is() {
    let mut session = remembered(7, 1, 0);
    session.pane_notes.insert("%1".to_string(), "old".to_string());
    let record = current_record(&running(Some(session))).unwrap();
    assert_eq!(record.pane_notes.get("%1"), Some(&"old".to_string()));
    assert!(current_record(&running(None)).is_none());
}

#[test]
fn sessions_that_are_not_remembered_cannot_be_reconnected() {
    assert_eq!(
        plan_session_reconnect(&running(None)).err(),
        Some(SessionError::NotReconnectable)
    );
    let mut broken = remembered(1, 1, 0);
    broken.mode = SessionMode::Ssh;
    assert_eq!(plan_persisted(broken).err(), Some(SessionError::MissingPersistedTarget));
}

#[test]
fn ended_sessions_are_revived() {
    let mut session = running(Some(remembered(7, 1, 0)));
    assert!(matches!(ensure_session_running(&session), Revival::AsItIs));
    session.reconnect_close();
    match ensure_session_running(&session) {
        Revival::Start(plan) => assert_eq!((plan.id, plan.cols, plan.rows), (7, 120, 36)),
        _ => panic!("not started again"),
    }
    let mut broken = remembered(7, 1, 0);
    broken.mode = SessionMode::SshCc;
    let mut session = running(Some(broken));
    session.reconnect_close();
    assert!(matches!(
        ensure_session_running(&session),
        Revival::Failed(SessionError::MissingPersistedControlTarget)
    ));
    let mut gone = running(None);
    gone.reconnect_close();
    assert!(matches!(ensure_session_running(&gone), Revival::AsItIs));
}

#[test]
fn failed_reconnects_are_shown() {
    let mut session = running(None);
    report_reconnect_failure(&mut session, "no tmux");
    assert_eq!(
        session.replay_tail_chunks().concat(),
        b"\r\n[failed to reconnect persisted session: no tmux]\r\n".to_vec()
    );
}

#[test]
fn resizing_begins_with_the_zoom() {
    let mut session = running(None);
    let req = ResizeSessionRequest { cols: 10, rows: 100, zoom_pane_id: Some("%1".to_string()) };
    assert_eq!(begin_resize(&mut session, &req), Ok(TerminalSize { cols: 40, rows: 80 }));
    assert_eq!(session.take_write().unwrap().payload, b"resize-pane -Z -t '%1'\n".to_vec());
    session.close_input();
    assert_eq!(begin_resize(&mut session, &req), Err(SessionError::InputClosed));
    let plain = ResizeSessionRequest { cols: 100, rows: 50, zoom_pane_id: None };
    assert_eq!(begin_resize(&mut session, &plain), Ok(TerminalSize { cols: 100, rows: 50 }));
}
