use webterminal::control::TmuxControlState;
use webterminal::launch::{InputMode, SessionMode, SessionSpec};
use webterminal::outside::Timestamp;
use webterminal::reader::{handle_tmux_control_line, read_output};
use webterminal::session::{SessionEvent, TerminalSession};

fn session(input_mode: InputMode) -> TerminalSession {
    let spec = SessionSpec {
        name: "Box".to_string(),
        command: "tmux".to_string(),
        cleanup_command: None,
        mode: SessionMode::LocalCc,
        input_mode,
        persistent: None,
    };
    TerminalSession::start_at(7, spec, 80, 24, Timestamp { secs: 0, nanos: 0 })
}

fn control() -> TerminalSession {
    session(InputMode::TmuxControl(TmuxControlState::new()))
}

fn told(session: &mut TerminalSession) -> Vec<String> {
    session
        .take_events()
        .into_iter()
        .map(|event| match event {
            SessionEvent::Output(data) => format!("out {}", String::from_utf8_lossy(&data)),
            SessionEvent::PaneOutput { pane_id, data } => {
                format!("pane {pane_id} {}", String::from_utf8_lossy(&data))
            }
            SessionEvent::TmuxState(state) => format!(
                "layout {:?} {}",
                state.active_pane,
                state.windows.iter().map(|w| w.panes.len()).sum::<usize>()
            ),
            _ => "transfer".to_string(),
        })
        .collect()
}

fn written(session: &mut TerminalSession) -> String {
    let mut out = String::new();
    while let Some(write) = session.take_write() {
        out.push_str(&String::from_utf8(write.payload).unwrap());
    }
    out
}

#[test]
fn direct_output_is_taken_as_it_is() {
    let mut session = session(InputMode::Direct);
    let mut pending = Vec::new();
    read_output(&mut session, &mut pending, b"%output %1 x\nabc");
    assert!(pending.is_empty());
    assert_eq!(told(&mut session), vec!["out %output %1 x\nabc"]);
}

#[test]
fn startup_output_passes_through() {
    let mut session = control();
    let mut pending = Vec::new();
    read_output(&mut session, &mut pending, b"password: ");
    assert!(pending.is_empty());
    read_output(&mut session, &mut pending, b"\r\n\x1bP1000p%begin 1 2 0\r\n%e");
    assert_eq!(pending, b"%e".to_vec());
    assert_eq!(told(&mut session), vec!["out password: ", "out \r\n"]);
    assert_eq!(session.replay_tail_chunks().concat(), b"password: \r\n".to_vec());
    assert!(written(&mut session).starts_with("list-windows "));
}

#[test]
fn only_wrappers_show_nothing() {
    let mut session = control();
    let mut pending = Vec::new();
    read_output(&mut session, &mut pending, b"\x1bP1000p");
    assert!(told(&mut session).is_empty());
    assert!(pending.is_empty());
}

#[test]
fn plain_lines_before_tmux_speaks_are_shown() {
    let mut session = control();
    handle_tmux_control_line(&mut session, b"motd");
    assert_eq!(told(&mut session), vec!["out motd", "out \r\n"]);
    handle_tmux_control_line(&mut session, b"%session-changed $1 x");
    assert_eq!(written(&mut session).matches("WT_DONE").count(), 2);
    handle_tmux_control_line(&mut session, b"motd");
    handle_tmux_control_line(&mut session, b"");
    assert!(told(&mut session).is_empty());
}

#[test]
fn pane_output_comes_through() {
    let mut session = control();
    let mut pending = Vec::new();
    read_output(&mut session, &mut pending, b"%output %1 hi\\015\\012\r\n%output %2 \n");
    assert_eq!(
        told(&mut session),
        vec![
            "pane %1 hi\r\n",
            "layout Some(\"%1\") 1",
            "layout Some(\"%1\") 2",
        ]
    );
    assert_eq!(session.replay_pane_tail_chunks("%1"), vec![b"hi\r\n".to_vec()]);
    assert_eq!(session.default_pane_id(), Some("%1".to_string()));
}

#[test]
fn a_complete_answer_is_told_and_contents_are_asked_for() {
    let mut session = control();
    let mut pending = Vec::new();
    read_output(&mut session, &mut pending, b"%begin 1 1 0\n%end 1 1 0\n");
    assert!(written(&mut session).contains("WT_DONE\t1"));
    read_output(
        &mut session,
        &mut pending,
        b"WT_WINDOW\t1\t@1\t0\tmain\t1\t0\n\
          WT_PANE\t1\t@1\t%1\t0\t1\tbash\t/\t0\t0\t80\t24\n\
          WT_PANE\t1\t@1\t%2\t1\t0\tvim\t/\t0\t0\t80\t24\n\
          WT_DONE\t1\n",
    );
    assert_eq!(told(&mut session), vec!["layout Some(\"%1\") 2"]);
    assert_eq!(written(&mut session), "capture-pane -e -p -t '%1' -S -5000\n");
    read_output(&mut session, &mut pending, b"%begin 2 2 0\nscreen\n\n%x\n%end 2 2 0\n");
    assert!(told(&mut session).is_empty());
    assert_eq!(written(&mut session), "");
    assert_eq!(
        session.replay_pane_tail_chunks("%1"),
        vec![b"screen\r\n%x\r\n".to_vec()]
    );
}

#[test]
fn cuts_do_not_matter_once_tmux_has_spoken() {
    let output: &[u8] = b"%output %1 a\\015\r\nWT_DONE\t1\r\n%window-add @2\r\n%output %1 b\r\nrest";
    let mut expected: Option<(Vec<String>, String, Vec<u8>)> = None;
    for cut in 0..output.len() {
        let mut session = control();
        let mut pending = Vec::new();
        handle_tmux_control_line(&mut session, b"%begin 0");
        let _ = written(&mut session);
        read_output(&mut session, &mut pending, &output[..cut]);
        read_output(&mut session, &mut pending, &output[cut..]);
        let got = (told(&mut session), written(&mut session), pending);
        match &expected {
            Some(first) => assert_eq!(first, &got, "{cut}"),
            None => expected = Some(got),
        }
    }
    assert_eq!(expected.unwrap().2, b"rest".to_vec());
}

#[test]
fn structure_events_ask_for_the_layout() {
    let mut session = control();
    handle_tmux_control_line(&mut session, b"%begin 0");
    let _ = written(&mut session);
    handle_tmux_control_line(&mut session, b"%layout-change @1 x");
    assert!(written(&mut session).contains("WT_DONE\t2"));
    handle_tmux_control_line(&mut session, b"%exit");
    assert_eq!(written(&mut session), "");
}
