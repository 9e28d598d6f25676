use webterminal::control::TmuxControlState;
use webterminal::errors::SessionError;
use webterminal::launch::{InputMode, SessionMode, SessionSpec};
use webterminal::outside::Timestamp;
use webterminal::requests::{TmuxResizeDirection, TmuxUiCommand};
use webterminal::session::{SessionEvent, TerminalSession};
use webterminal::viewer::{
    ClientFrame, ClientMessage, ServerFrame, ServerMessage, SocketViewer, ViewerStep,
};

fn session(input_mode: InputMode) -> TerminalSession {
    let spec = SessionSpec {
        name: "Box".to_string(),
        command: "tmux".to_string(),
        cleanup_command: None,
        mode: SessionMode::LocalCc,
        input_mode,
        persistent: None,
    };
    TerminalSession::start_at(7, spec, 80, 24, Timestamp { secs: 0, nanos: 0 })
}

fn direct() -> TerminalSession {
    session(InputMode::Direct)
}

fn control() -> TerminalSession {
    let mut state = TmuxControlState::new();
    state.initialized = true;
    state.active_pane = Some("%1".to_string());
    state.upsert_pane_placeholder("%1");
    state.upsert_pane_placeholder("%2");
    state.push_output("%1", &vec![b"past".to_vec()]);
    session(InputMode::TmuxControl(state))
}

fn names(frames: &[ServerFrame]) -> Vec<String> {
    frames
        .iter()
        .map(|frame| match frame {
            ServerFrame::Message(ServerMessage::Clear) => "clear".to_string(),
            ServerFrame::Message(ServerMessage::FocusPane { pane_id }) => format!("focus {pane_id}"),
            ServerFrame::Message(ServerMessage::TmuxState { state }) => {
                format!("layout {}", state.windows.iter().map(|w| w.panes.len()).sum::<usize>())
            }
            ServerFrame::Message(ServerMessage::FileDownload { id, .. }) => format!("file {id}"),
            ServerFrame::Message(ServerMessage::FileTransferStatus { id, status, message }) => {
                format!("{status} {id} {message}")
            }
            ServerFrame::Binary(data) => format!("out {}", String::from_utf8_lossy(data)),
            ServerFrame::Pong(data) => format!("pong {}", String::from_utf8_lossy(data)),
        })
        .collect()
}

fn send(viewer: &mut SocketViewer, session: &mut TerminalSession, message: ClientMessage) -> ViewerStep {
    viewer.on_client_frame(session, ClientFrame::Message(message))
}

fn written(session: &mut TerminalSession) -> Vec<String> {
    let mut out = Vec::new();
    while let Some(write) = session.take_write() {
        out.push(String::from_utf8(write.payload).unwrap());
    }
    out
}

#[test]
fn a_direct_viewer_is_sent_past_output_first() {
    let mut session = direct();
    session.append_direct_output(b"one");
    let (mut early, greeting) = SocketViewer::attach(&mut session, false, true);
    assert_eq!(names(&greeting.frames), vec!["out one"]);
    assert!(!greeting.refresh);
    assert_eq!(session.summary().viewers, 1);
    let _ = session.take_events();
    session.append_direct_output(b"two");
    let mut seen = names(&greeting.frames);
    for event in session.take_events() {
        seen.extend(names(&early.on_session_event(&session, event).frames));
    }
    let (_late, again) = SocketViewer::attach(&mut session, false, false);
    assert_eq!(seen, names(&again.frames));
    assert_eq!(session.summary().viewers, 1);
    early.detach(&mut session);
    assert_eq!(session.summary().viewers, 0);
}

#[test]
fn a_control_viewer_is_sent_the_layout_first() {
    let mut session = control();
    let (viewer, greeting) = SocketViewer::attach(&mut session, false, true);
    assert_eq!(names(&greeting.frames), vec!["layout 2", "focus %1", "clear", "out past"]);
    assert!(!greeting.refresh);
    assert_eq!(viewer.focused_pane, Some("%1".to_string()));
}

#[test]
fn late_viewers_of_a_pane_miss_nothing() {
    let mut session = control();
    let (mut early, greeting) = SocketViewer::attach(&mut session, false, true);
    session.append_pane_output("%1", b"more");
    session.append_pane_output("%2", b"elsewhere");
    let mut seen = names(&greeting.frames);
    for event in session.take_events() {
        seen.extend(names(&early.on_session_event(&session, event).frames));
    }
    let (_late, again) = SocketViewer::attach(&mut session, false, false);
    assert_eq!(seen, names(&again.frames));
    assert_eq!(seen, vec!["layout 2", "focus %1", "clear", "out past", "out more"]);
}

#[test]
fn without_panes_the_screen_is_not_blank() {
    let mut session = session(InputMode::TmuxControl(TmuxControlState::new()));
    session.append_direct_output(b"password: ");
    let (viewer, greeting) = SocketViewer::attach(&mut session, false, true);
    assert_eq!(names(&greeting.frames), vec!["layout 0", "out password: "]);
    assert!(greeting.refresh);
    assert_eq!(viewer.focused_pane, None);
}

#[test]
fn readonly_viewers_change_nothing() {
    let mut session = control();
    let (mut viewer, _) = SocketViewer::attach(&mut session, true, true);
    let frames = vec![
        ClientFrame::Text("rm".to_string()),
        ClientFrame::Binary(b"rm".to_vec()),
        ClientFrame::Message(ClientMessage::FocusPane { pane_id: "%2".to_string() }),
        ClientFrame::Message(ClientMessage::TmuxCommand {
            command: TmuxUiCommand::KillPane,
            pane_id: None,
        }),
    ];
    for frame in frames {
        let step = viewer.on_client_frame(&mut session, frame);
        assert!(step.frames.is_empty() && !step.close);
    }
    assert!(session.take_write().is_none());
    assert_eq!(viewer.focused_pane, Some("%1".to_string()));
    let step = viewer.on_client_frame(&mut session, ClientFrame::Ping(b"x".to_vec()));
    assert_eq!(names(&step.frames), vec!["pong x"]);
    assert!(step.required);
}

#[test]
fn typed_text_goes_to_the_shown_pane() {
    let mut session = control();
    let (mut viewer, _) = SocketViewer::attach(&mut session, false, true);
    let step = send(&mut viewer, &mut session, ClientMessage::FocusPane { pane_id: "%2".to_string() });
    assert_eq!(names(&step.frames), vec!["focus %2", "clear"]);
    assert!(step.required && !step.close);
    viewer.on_client_frame(&mut session, ClientFrame::Text("a".to_string()));
    viewer.on_client_frame(&mut session, ClientFrame::Binary(b"b".to_vec()));
    assert_eq!(
        written(&mut session),
        vec!["send-keys -t %2 -l -- 'a'\n", "send-keys -t %2 -l -- 'b'\n"]
    );
}

#[test]
fn naming_a_pane_shows_it() {
    let mut session = control();
    let (mut viewer, _) = SocketViewer::attach(&mut session, false, true);
    let message = ClientMessage::TmuxCommand {
        command: TmuxUiCommand::SplitVertical,
        pane_id: None,
    };
    send(&mut viewer, &mut session, message);
    assert_eq!(written(&mut session)[0], "split-window -v -t '%1'\n");
    let message = ClientMessage::Paste { data: "p".to_string(), pane_id: Some("%2".to_string()) };
    send(&mut viewer, &mut session, message);
    assert!(written(&mut session)[0].contains("send-keys -t %2 -l -- 'p'\n"));
    assert_eq!(viewer.focused_pane, Some("%2".to_string()));
    let message = ClientMessage::ResizePane {
        pane_id: "%1".to_string(),
        direction: TmuxResizeDirection::Up,
        amount: 3,
    };
    send(&mut viewer, &mut session, message);
    assert_eq!(written(&mut session)[0], "resize-pane -t '%1' -U 3\n");
    assert_eq!(viewer.focused_pane, Some("%1".to_string()));
    let message = ClientMessage::RenameWindow { window_id: "@0".to_string(), name: "w".to_string() };
    send(&mut viewer, &mut session, message);
    assert_eq!(written(&mut session)[0], "rename-window -t '@0' 'w'\n");
}

#[test]
fn notes_are_handed_on_to_be_remembered() {
    let mut session = control();
    let (mut viewer, _) = SocketViewer::attach(&mut session, false, true);
    let message = ClientMessage::SetPaneNote { pane_id: "%2".to_string(), note: " n ".to_string() };
    let step = send(&mut viewer, &mut session, message);
    assert_eq!(step.notes.unwrap().get("%2"), Some(&"n".to_string()));
    assert_eq!(session.take_events().len(), 1);
    let mut plain = direct();
    let (mut viewer, _) = SocketViewer::attach(&mut plain, false, true);
    let message = ClientMessage::SetPaneNote { pane_id: "%2".to_string(), note: "n".to_string() };
    assert!(send(&mut viewer, &mut plain, message).notes.is_none());
}

#[test]
fn refused_transfers_are_answered() {
    let mut session = direct();
    let (mut viewer, _) = SocketViewer::attach(&mut session, false, true);
    let message = ClientMessage::FileDownload {
        id: "a b".to_string(),
        path: "/f".to_string(),
        pane_id: None,
    };
    let step = send(&mut viewer, &mut session, message);
    assert_eq!(names(&step.frames), vec!["error a b invalid file transfer id"]);
    assert!(!step.required && !step.close);
    assert_eq!(step.error, Some(SessionError::InvalidTransferId));
    let message = ClientMessage::FileUploadStart {
        id: String::new(),
        path: "/f".to_string(),
        pane_id: None,
    };
    let step = send(&mut viewer, &mut session, message);
    assert_eq!(names(&step.frames), vec!["error  invalid file transfer id"]);
    assert!(viewer.uploads.is_empty());
    assert!(session.take_write().is_none());
}

#[test]
fn uploads_stay_in_their_pane() {
    let mut session = control();
    let (mut viewer, _) = SocketViewer::attach(&mut session, false, true);
    let message = ClientMessage::FileUploadStart {
        id: "u1".to_string(),
        path: "/f".to_string(),
        pane_id: None,
    };
    send(&mut viewer, &mut session, message);
    send(&mut viewer, &mut session, ClientMessage::FocusPane { pane_id: "%2".to_string() });
    let message = ClientMessage::FileUploadChunk { id: "u1".to_string(), data: "QQ==".to_string() };
    send(&mut viewer, &mut session, message);
    send(&mut viewer, &mut session, ClientMessage::FileUploadFinish { id: "u1".to_string() });
    assert!(viewer.uploads.is_empty());
    let commands = written(&mut session);
    assert_eq!(commands.len(), 5);
    for command in &commands {
        assert!(command.starts_with("send-keys -t %1 -l -- "), "{command}");
    }
    assert!(commands[1].contains("/f.webterminal.u1.tmp.b64"));
    let step = send(&mut viewer, &mut session, ClientMessage::FileUploadFinish { id: "u1".to_string() });
    assert!(step.frames.is_empty());
    assert!(session.take_write().is_none());
}

#[test]
fn a_bad_piece_ends_an_upload() {
    let mut session = direct();
    let (mut viewer, _) = SocketViewer::attach(&mut session, false, true);
    let message = ClientMessage::FileUploadStart {
        id: "u1".to_string(),
        path: "/f".to_string(),
        pane_id: None,
    };
    send(&mut viewer, &mut session, message);
    let message = ClientMessage::FileUploadChunk { id: "u1".to_string(), data: "?".to_string() };
    let step = send(&mut viewer, &mut session, message);
    assert_eq!(
        names(&step.frames),
        vec!["error u1 file upload chunk is not valid base64 text"]
    );
    assert!(viewer.uploads.is_empty());
    let message = ClientMessage::FileUploadChunk { id: "u1".to_string(), data: "QQ==".to_string() };
    assert!(send(&mut viewer, &mut session, message).frames.is_empty());
    assert_eq!(written(&mut session).len(), 1);
}

#[test]
fn cancelling_gives_a_transfer_up() {
    let mut session = direct();
    let (mut viewer, _) = SocketViewer::attach(&mut session, false, true);
    let message = ClientMessage::FileDownload {
        id: "d1".to_string(),
        path: "/f".to_string(),
        pane_id: None,
    };
    send(&mut viewer, &mut session, message);
    send(&mut viewer, &mut session, ClientMessage::FileTransferCancel { id: "d1".to_string() });
    session.append_direct_output(b"__WEBTERMINAL_DOWNLOAD_ERROR__:d1:x\n");
    assert!(matches!(session.take_events()[0], SessionEvent::Output(_)));
}

#[test]
fn typing_into_a_closed_terminal_drops_the_viewer() {
    let mut session = direct();
    let (mut viewer, _) = SocketViewer::attach(&mut session, false, true);
    session.close_input();
    let step = viewer.on_client_frame(&mut session, ClientFrame::Text("x".to_string()));
    assert!(step.close);
    assert_eq!(step.error, Some(SessionError::InputClosed));
    let step = viewer.on_client_frame(&mut session, ClientFrame::Close);
    assert!(step.close && step.error.is_none());
    assert!(!viewer.on_client_frame(&mut session, ClientFrame::Pong).close);
}

#[test]
fn events_are_sent_to_those_they_concern() {
    let mut session = control();
    let (mut viewer, _) = SocketViewer::attach(&mut session, false, true);
    let event = SessionEvent::PaneOutput { pane_id: "%1".to_string(), data: b"x".to_vec() };
    assert_eq!(names(&viewer.on_session_event(&session, event).frames), vec!["out x"]);
    let event = SessionEvent::PaneOutput { pane_id: "%2".to_string(), data: b"x".to_vec() };
    assert!(viewer.on_session_event(&session, event).frames.is_empty());
    let event = SessionEvent::TmuxState(session.tmux_state_snapshot().unwrap());
    assert_eq!(names(&viewer.on_session_event(&session, event).frames), vec!["layout 2"]);
    let event = SessionEvent::FileDownload {
        id: "d".to_string(),
        filename_base64: String::new(),
        data_base64: String::new(),
    };
    assert_eq!(names(&viewer.on_session_event(&session, event).frames), vec!["file d"]);
    let event = SessionEvent::FileTransferStatus {
        id: "d".to_string(),
        status: "error".to_string(),
        message: "m".to_string(),
    };
    assert_eq!(names(&viewer.on_session_event(&session, event).frames), vec!["error d m"]);
}

#[test]
fn the_first_pane_is_shown_when_it_turns_up() {
    let mut session = session(InputMode::TmuxControl(TmuxControlState::new()));
    let (mut viewer, _) = SocketViewer::attach(&mut session, false, true);
    let event = SessionEvent::TmuxState(session.tmux_state_snapshot().unwrap());
    assert_eq!(names(&viewer.on_session_event(&session, event).frames), vec!["layout 0"]);
    if let InputMode::TmuxControl(state) = &mut session.input_mode {
        state.upsert_pane_placeholder("%7");
    }
    session.append_pane_output("%7", b"hi");
    let event = SessionEvent::TmuxState(session.tmux_state_snapshot().unwrap());
    assert_eq!(
        names(&viewer.on_session_event(&session, event).frames),
        vec!["focus %7", "clear", "out hi", "layout 1"]
    );
    assert_eq!(viewer.focused_pane, Some("%7".to_string()));
}
