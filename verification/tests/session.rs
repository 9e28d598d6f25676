use webterminal::control::TmuxControlState;
use webterminal::errors::SessionError;
use webterminal::launch::{InputMode, SessionMode, SessionSpec};
use webterminal::outside::Timestamp;
use webterminal::panes::TmuxPane;
use webterminal::requests::{TmuxResizeDirection, TmuxUiCommand};
use webterminal::session::{
    encode_input_for_mode, encode_paste_for_mode, PtyInput, SessionEvent, TerminalSession,
};

const AT: Timestamp = Timestamp { secs: 1_700_000_000, nanos: 0 };

fn session(input_mode: InputMode) -> TerminalSession {
    let spec = SessionSpec {
        name: "Box".to_string(),
        command: "tmux".to_string(),
        cleanup_command: Some("tmux kill-session -t wt".to_string()),
        mode: SessionMode::LocalCc,
        input_mode,
        persistent: None,
    };
    TerminalSession::start_at(7, spec, 80, 24, AT)
}

fn direct() -> TerminalSession {
    session(InputMode::Direct)
}

fn control() -> TerminalSession {
    let mut state = TmuxControlState::new();
    state.initialized = true;
    state.active_pane = Some("%1".to_string());
    state.upsert_pane_placeholder("%1");
    session(InputMode::TmuxControl(state))
}

fn writes(session: &mut TerminalSession) -> Vec<String> {
    let mut out = Vec::new();
    while let Some(write) = session.take_write() {
        out.push(String::from_utf8(write.payload).unwrap());
    }
    out
}

fn refresh(generation: u64) -> String {
    format!(
        "list-windows -F 'WT_WINDOW\t{generation}\t#{{window_id}}\t#{{window_index}}\t#{{window_name}}\t#{{window_active}}\t#{{window_zoomed_flag}}'\n\
         list-panes -s -F 'WT_PANE\t{generation}\t#{{window_id}}\t#{{pane_id}}\t#{{pane_index}}\t#{{pane_active}}\t#{{pane_current_command}}\t#{{pane_current_path}}\t#{{pane_left}}\t#{{pane_top}}\t#{{pane_width}}\t#{{pane_height}}'\n\
         display-message -p 'WT_DONE\t{generation}'\n"
    )
}

#[test]
fn sessions_start_empty_and_alive() {
    let session = direct();
    let summary = session.summary();
    assert_eq!((summary.id, summary.name.as_str(), summary.command.as_str()), (7, "Box", "tmux"));
    assert_eq!((summary.cols, summary.rows, summary.viewers, summary.alive), (80, 24, 0, true));
    assert_eq!(summary.created_at, AT);
    assert_eq!(summary.mode, SessionMode::LocalCc);
    assert!(session.replay_tail_chunks().is_empty());
}

#[test]
fn a_session_started_now_knows_the_time() {
    let spec = SessionSpec {
        name: String::new(),
        command: String::new(),
        cleanup_command: None,
        mode: SessionMode::Local,
        input_mode: InputMode::Direct,
        persistent: None,
    };
    let started = TerminalSession::start(1, spec, 80, 24);
    assert!(AT.secs < started.created_at.secs);
}

#[test]
fn output_is_told_and_held() {
    let mut session = direct();
    session.append_direct_output(b"one");
    session.append_direct_output(b"two");
    assert_eq!(session.replay_tail_chunks(), vec![b"one".to_vec(), b"two".to_vec()]);
    assert_eq!(session.replay_pane_tail_chunks("%9").len(), 2);
    let events = session.take_events();
    assert_eq!(events.len(), 2);
    assert!(matches!(&events[0], SessionEvent::Output(data) if data == b"one"));
    assert!(session.take_events().is_empty());
}

#[test]
fn pane_output_is_held_by_pane() {
    let mut session = control();
    session.append_pane_output("%1", b"a");
    session.append_pane_output("%2", b"b");
    assert_eq!(session.replay_pane_tail_chunks("%1"), vec![b"a".to_vec()]);
    assert_eq!(session.replay_pane_tail_chunks("%2"), vec![b"b".to_vec()]);
    assert!(session.replay_pane_tail_chunks("%3").is_empty());
    assert!(session.replay_tail_chunks().is_empty());
    session.replace_pane_snapshot("%1", b"new".to_vec());
    assert_eq!(session.replay_pane_tail_chunks("%1"), vec![b"new".to_vec()]);
    assert_eq!(session.take_events().len(), 2);
}

#[test]
fn input_is_written_in_order() {
    let mut session = direct();
    session.write_input(b"a".to_vec(), None).unwrap();
    session.write_raw_input(Vec::new()).unwrap();
    session.write_paste(b"b\n".to_vec(), Some("%1".to_string())).unwrap();
    session.write_file_transfer_input(b"c".to_vec(), None).unwrap();
    let first = session.take_write().unwrap();
    assert_eq!((first.payload, first.pause_millis), (b"a".to_vec(), 0));
    let second = session.take_write().unwrap();
    assert_eq!((second.payload, second.pause_millis), (b"b\n".to_vec(), 0));
    let third = session.take_write().unwrap();
    assert_eq!((third.payload, third.pause_millis), (b"c".to_vec(), 300));
    assert!(session.take_write().is_none());
}

#[test]
fn control_input_becomes_commands() {
    let mut session = control();
    session.write_input(b"x".to_vec(), None).unwrap();
    session.write_input(b"y".to_vec(), Some("%2".to_string())).unwrap();
    session.write_raw_input(b"raw\n".to_vec()).unwrap();
    assert_eq!(
        writes(&mut session),
        vec!["send-keys -t %1 -l -- 'x'\n", "send-keys -t %2 -l -- 'y'\n", "raw\n"]
    );
    let fresh = InputMode::TmuxControl(TmuxControlState::new());
    assert_eq!(encode_input_for_mode(&fresh, b"pw\r", Some("%1")), b"pw\r".to_vec());
    assert_eq!(encode_paste_for_mode(&fresh, b"pw", None), b"pw".to_vec());
    assert_eq!(encode_paste_for_mode(&InputMode::Direct, b"pw", None), b"pw".to_vec());
}

#[test]
fn a_closed_terminal_takes_no_input() {
    let mut session = control();
    session.write_input(b"x".to_vec(), None).unwrap();
    session.close_input();
    assert_eq!(session.write_input(b"x".to_vec(), None), Err(SessionError::InputClosed));
    assert_eq!(session.write_paste(b"x".to_vec(), None), Err(SessionError::InputClosed));
    assert_eq!(session.zoom_tmux_pane("%1"), Err(SessionError::InputClosed));
    assert_eq!(session.request_tmux_state_refresh(), Err(SessionError::InputClosed));
    assert_eq!(session.start_file_download("d", "/f", None), Err(SessionError::InputClosed));
    assert!(session.take_write().is_none());
}

#[test]
fn the_layout_is_asked_for() {
    let mut session = control();
    session.request_tmux_state_refresh().unwrap();
    session.request_tmux_state_refresh().unwrap();
    assert_eq!(writes(&mut session), vec![refresh(1), refresh(2)]);
    let mut plain = direct();
    plain.request_tmux_state_refresh().unwrap();
    assert!(plain.take_write().is_none());
}

#[test]
fn resizing_tells_tmux_and_nobody_else() {
    let mut session = control();
    session.resize(100, 30).unwrap();
    assert_eq!(writes(&mut session), vec!["refresh-client -C 100,30\n".to_string(), refresh(1)]);
    assert!(session.take_events().is_empty());
    assert_eq!((session.summary().cols, session.summary().rows), (100, 30));
    let mut plain = direct();
    plain.resize(100, 30).unwrap();
    assert!(plain.take_write().is_none());
    assert_eq!(plain.summary().rows, 30);
}

#[test]
fn resizing_keeps_layout_and_notes() {
    let mut session = control();
    session.set_tmux_pane_note("%1", "note").unwrap();
    session.append_pane_output("%1", b"text");
    let _ = session.take_events();
    session.zoom_tmux_pane("%1").unwrap();
    session.resize(100, 40).unwrap();
    assert!(session.take_events().is_empty());
    let layout = session.tmux_state_snapshot().unwrap();
    assert_eq!(layout.active_pane, Some("%1".to_string()));
    assert_eq!(layout.windows[0].name, "tmux");
    assert_eq!(layout.windows[0].panes[0].note, Some("note".to_string()));
    assert_eq!(session.pane_notes_snapshot().unwrap().len(), 1);
    assert_eq!(session.replay_pane_tail_chunks("%1"), vec![b"text".to_vec()]);
}

#[test]
fn tmux_commands_name_their_target() {
    let cases = [
        (TmuxUiCommand::NewWindow, "new-window\n"),
        (TmuxUiCommand::SplitHorizontal, "split-window -h -t '%1'\n"),
        (TmuxUiCommand::SplitVertical, "split-window -v -t '%1'\n"),
        (TmuxUiCommand::KillPane, "kill-pane -t '%1'\n"),
        (TmuxUiCommand::ZoomPane, "resize-pane -Z -t '%1'\n"),
    ];
    for (command, text) in cases {
        let mut session = control();
        session.send_tmux_ui_command(command, Some("%1")).unwrap();
        assert_eq!(writes(&mut session), vec![text.to_string(), refresh(1)]);
    }
    let mut session = control();
    session.send_tmux_ui_command(TmuxUiCommand::KillPane, None).unwrap();
    session.zoom_tmux_pane("%2").unwrap();
    assert_eq!(
        writes(&mut session),
        vec!["kill-pane\n".to_string(), refresh(1), "resize-pane -Z -t '%2'\n".to_string(), refresh(2)]
    );
}

#[test]
fn panes_are_resized_in_bounds() {
    let cases = [
        (TmuxResizeDirection::Left, 0, "resize-pane -t '%1' -L 1\n"),
        (TmuxResizeDirection::Right, 5, "resize-pane -t '%1' -R 5\n"),
        (TmuxResizeDirection::Up, 80, "resize-pane -t '%1' -U 80\n"),
        (TmuxResizeDirection::Down, 65535, "resize-pane -t '%1' -D 80\n"),
    ];
    for (direction, amount, text) in cases {
        let mut session = control();
        session.resize_tmux_pane("%1", direction, amount).unwrap();
        assert_eq!(writes(&mut session)[0], text);
    }
}

#[test]
fn windows_are_renamed() {
    let mut session = control();
    session.rename_tmux_window("@1", "  it's \n").unwrap();
    assert_eq!(writes(&mut session)[0], "rename-window -t '@1' 'it'\\''s'\n");
    session.rename_tmux_window("@1", "   ").unwrap();
    assert!(session.take_write().is_none());
    session.close_input();
    assert_eq!(session.rename_tmux_window("@1", "x"), Err(SessionError::InputClosed));
    assert!(session.rename_tmux_window("@1", " ").is_ok());
}

#[test]
fn notes_are_told() {
    let mut session = control();
    session.set_tmux_pane_note("%1", "note").unwrap();
    session.set_tmux_pane_note("%9", "nobody").unwrap();
    let events = session.take_events();
    assert_eq!(events.len(), 1);
    match &events[0] {
        SessionEvent::TmuxState(state) => {
            assert_eq!(state.windows[0].panes[0].note, Some("note".to_string()));
        }
        _ => panic!("not a layout"),
    }
    let notes = session.pane_notes_snapshot().unwrap();
    assert_eq!(notes.get("%1"), Some(&"note".to_string()));
    assert_eq!(notes.len(), 1);
    let mut plain = direct();
    plain.set_tmux_pane_note("%1", "x").unwrap();
    assert!(plain.pane_notes_snapshot().is_none());
    assert!(plain.take_events().is_empty());
}

fn pane(id: &str, command: &str) -> TmuxPane {
    TmuxPane {
        id: id.to_string(),
        window_id: "@1".to_string(),
        index: None,
        active: false,
        current_command: command.to_string(),
        current_path: String::new(),
        note: None,
        left: None,
        top: None,
        width: None,
        height: None,
    }
}

#[test]
fn contents_of_panes_are_asked_for() {
    let mut session = control();
    session
        .request_tmux_pane_captures(vec![pane("%1", "bash"), pane("%2", "vim"), pane("%3", "sh")])
        .unwrap();
    assert_eq!(
        writes(&mut session),
        vec!["capture-pane -e -p -t '%1' -S -5000\ncapture-pane -e -p -t '%3' -S -5000\n"]
    );
    session.request_tmux_pane_captures(vec![pane("%2", "less")]).unwrap();
    session.request_tmux_pane_captures(Vec::new()).unwrap();
    assert!(session.take_write().is_none());
    match &session.input_mode {
        InputMode::TmuxControl(state) => {
            assert_eq!(state.pending_capture_queue, vec!["%1".to_string(), "%3".to_string()]);
        }
        InputMode::Direct => panic!("not in control mode"),
    }
}

#[test]
fn downloads_are_awaited_and_asked_for() {
    let mut session = direct();
    assert_eq!(
        session.start_file_download("a b", "/f", None),
        Err(SessionError::InvalidTransferId)
    );
    assert!(session.take_write().is_none());
    session.start_file_download("d1", "/f", None).unwrap();
    assert!(writes(&mut session)[0].starts_with("__wt_id=d1; __wt_path=/f; "));
    session.append_direct_output(
        b"__WEBTERMINAL_DOWNLOAD_BEGIN__:d1:bg==\r\nQQ==\r\n__WEBTERMINAL_DOWNLOAD_END__:d1\r\n",
    );
    assert!(session.replay_tail_chunks().is_empty());
    let events = session.take_events();
    assert_eq!(events.len(), 1);
    assert!(matches!(
        &events[0],
        SessionEvent::FileDownload { id, filename_base64, data_base64 }
            if id == "d1" && filename_base64 == "bg==" && data_base64 == "QQ=="
    ));
    session.start_file_download("d2", "/f", None).unwrap();
    session.cancel_file_transfer("d2");
    session.append_direct_output(b"__WEBTERMINAL_DOWNLOAD_ERROR__:d2:no\r\n");
    assert_eq!(session.replay_tail_chunks().len(), 1);
}

#[test]
fn held_output_is_told_first() {
    let mut session = control();
    session.start_file_download("d1", "/tmp/x", None).unwrap();
    session.append_direct_output(b"login: ");
    session.append_pane_output("%1", b"$ ");
    assert!(session.take_events().is_empty());
    session.cancel_file_transfer("d1");
    session.append_direct_output(b"me\n");
    session.append_pane_output("%1", b"ls\n");
    let mut told = Vec::new();
    for event in session.take_events() {
        match event {
            SessionEvent::Output(data) => told.push(data),
            SessionEvent::PaneOutput { pane_id, data } => {
                assert_eq!(pane_id, "%1");
                told.push(data);
            }
            _ => panic!("not output"),
        }
    }
    let all: Vec<&[u8]> = told.iter().map(|data| data.as_slice()).collect();
    assert_eq!(all, vec![&b"login: "[..], &b"me\n"[..], &b"$ "[..], &b"ls\n"[..]]);
    assert_eq!(session.replay_tail_chunks().concat(), b"login: me\n".to_vec());
    assert_eq!(session.replay_pane_tail_chunks("%1").concat(), b"$ ls\n".to_vec());
}

#[test]
fn uploads_are_given_to_the_terminal() {
    let mut session = direct();
    let pane = Some("%1".to_string());
    session.start_file_upload("u1", "/f", "/t", pane.clone()).unwrap();
    session.write_file_upload_chunk("QQ==", "/t", pane.clone()).unwrap();
    assert_eq!(
        session.write_file_upload_chunk("?", "/t", pane.clone()),
        Err(SessionError::InvalidUploadChunk)
    );
    session.finish_file_upload("u1", "/f", "/t", pane.clone()).unwrap();
    assert_eq!(session.inputs.len(), 5);
    for input in &session.inputs {
        assert!(matches!(input, PtyInput::FileTransfer { pane_id, .. } if *pane_id == pane));
    }
    assert_eq!(
        session.finish_file_upload("", "/f", "/t", pane.clone()),
        Err(SessionError::InvalidTransferId)
    );
    assert_eq!(
        session.start_file_upload("u 1", "/f", "/t", pane),
        Err(SessionError::InvalidTransferId)
    );
}

#[test]
fn the_end_is_shown_once() {
    let mut session = direct();
    session.mark_exited();
    session.mark_exited();
    assert!(!session.is_alive());
    assert_eq!(
        session.replay_tail_chunks(),
        vec![b"\r\n[terminal process exited; reopen the session to reconnect]\r\n".to_vec()]
    );
}

#[test]
fn closing_gives_the_cleanup_command() {
    let mut session = direct();
    assert_eq!(session.close(), Some("tmux kill-session -t wt".to_string()));
    assert!(!session.is_alive());
    session.mark_exited();
    assert!(session.replay_tail_chunks().is_empty());
    let mut other = direct();
    other.reconnect_close();
    assert!(!other.is_alive());
}

#[test]
fn viewers_are_counted() {
    let mut session = direct();
    session.viewer_joined();
    session.viewer_joined();
    session.viewer_left();
    assert_eq!(session.summary().viewers, 1);
    session.viewer_left();
    session.viewer_left();
    assert_eq!(session.summary().viewers, usize::MAX);
}
