use webterminal::control::{
    append_tmux_capture_line, handle_tmux_capture_control_line, parse_state_line,
    tmux_target_pane, StateLine, TmuxControlState,
};
use webterminal::panes::TmuxStateSnapshot;
use webterminal::table::TextMap;

fn reply(state: &mut TmuxControlState, line: &str) -> bool {
    state.take_reply(parse_state_line(line.as_bytes()).unwrap())
}

fn pane_line(generation: u64, window: &str, id: &str, index: &str, active: &str) -> String {
    format!("WT_PANE\t{generation}\t{window}\t{id}\t{index}\t{active}\tbash\t/home\t0\t1\t80\t24")
}

fn layout(snapshot: &TmuxStateSnapshot) -> Vec<(String, Vec<String>)> {
    snapshot
        .windows
        .iter()
        .map(|w| (w.id.clone(), w.panes.iter().map(|p| p.id.clone()).collect()))
        .collect()
}

#[test]
fn window_lines_are_read() {
    match parse_state_line(b"WT_WINDOW\t3\t@1\t2\tmy name\t1\t0").unwrap() {
        StateLine::Window { generation, window } => {
            assert_eq!(generation, Some(3));
            assert_eq!(window.id, "@1");
            assert_eq!(window.index, Some(2));
            assert_eq!(window.name, "my name");
            assert!(window.active);
            assert!(!window.zoomed);
            assert!(window.panes.is_empty());
        }
        _ => panic!("not a window"),
    }
}

#[test]
fn pane_lines_are_read() {
    let line = "WT_PANE\t3\t@1\t%2\t0\t1\tvim\t/tmp/a b\t1\t2\t80\tx";
    match parse_state_line(line.as_bytes()).unwrap() {
        StateLine::Pane { generation, pane } => {
            assert_eq!(generation, Some(3));
            assert_eq!((pane.window_id.as_str(), pane.id.as_str()), ("@1", "%2"));
            assert_eq!(pane.index, Some(0));
            assert!(pane.active);
            assert_eq!(pane.current_command, "vim");
            assert_eq!(pane.current_path, "/tmp/a b");
            assert_eq!((pane.left, pane.top, pane.width, pane.height), (Some(1), Some(2), Some(80), None));
            assert_eq!(pane.note, None);
        }
        _ => panic!("not a pane"),
    }
}

#[test]
fn ends_and_short_lines_are_read() {
    assert!(matches!(
        parse_state_line(b"WT_DONE\t 12 \r"),
        Some(StateLine::Done { generation: Some(12) })
    ));
    assert!(matches!(
        parse_state_line(b"WT_DONE\tx"),
        Some(StateLine::Done { generation: None })
    ));
    assert!(matches!(parse_state_line(b"WT_WINDOW\t1\t@1"), Some(StateLine::Short)));
    assert!(matches!(parse_state_line(b"WT_PANE\t1\t@1\t%1"), Some(StateLine::Short)));
    assert!(parse_state_line(b"WT_OTHER\t1").is_none());
    assert!(parse_state_line(b"WT_DONE\t\xff").is_none());
}

#[test]
fn an_answer_becomes_the_layout() {
    let mut state = TmuxControlState::new();
    let generation = state.begin_refresh();
    assert_eq!(generation, 1);
    assert!(!reply(&mut state, "WT_WINDOW\t1\t@2\t1\tsecond\t0\t0"));
    assert!(!reply(&mut state, "WT_WINDOW\t1\t@10\t0\tfirst\t1\t1"));
    assert!(!reply(&mut state, &pane_line(1, "@10", "%3", "1", "0")));
    assert!(!reply(&mut state, &pane_line(1, "@10", "%4", "0", "1")));
    assert!(!reply(&mut state, &pane_line(1, "@2", "%1", "0", "0")));
    assert!(!reply(&mut state, &pane_line(1, "@7", "%9", "x", "0")));
    assert!(reply(&mut state, "WT_DONE\t1"));
    let snapshot = state.snapshot();
    assert_eq!(
        layout(&snapshot),
        vec![
            ("@10".to_string(), vec!["%4".to_string(), "%3".to_string()]),
            ("@2".to_string(), vec!["%1".to_string()]),
            ("@7".to_string(), vec!["%9".to_string()]),
        ]
    );
    assert_eq!(snapshot.active_pane, Some("%4".to_string()));
    assert_eq!(snapshot.windows[2].name, "@7");
    assert_eq!(snapshot.windows[2].index, None);
    assert!(snapshot.windows[0].zoomed);
    assert!(!reply(&mut state, "WT_DONE\t1"));
}

#[test]
fn stale_answers_change_nothing() {
    let mut state = TmuxControlState::new();
    state.begin_refresh();
    assert!(!reply(&mut state, "WT_WINDOW\t1\t@1\t0\told\t1\t0"));
    assert_eq!(state.begin_refresh(), 2);
    assert!(!reply(&mut state, "WT_WINDOW\t1\t@9\t0\tstale\t1\t0"));
    assert!(!reply(&mut state, &pane_line(1, "@9", "%9", "0", "1")));
    assert!(!reply(&mut state, "WT_DONE\t1"));
    assert_eq!(state.active_pane, None);
    assert!(!reply(&mut state, &pane_line(2, "@1", "%1", "0", "0")));
    assert!(reply(&mut state, "WT_DONE\t2"));
    assert_eq!(layout(&state.snapshot()), vec![("@1".to_string(), vec!["%1".to_string()])]);
    assert_eq!(state.snapshot().active_pane, Some("%1".to_string()));
}

#[test]
fn generations_stop_at_the_largest_number() {
    let mut state = TmuxControlState::new();
    state.refresh_generation = u64::MAX - 1;
    assert_eq!(state.begin_refresh(), u64::MAX);
    assert_eq!(state.begin_refresh(), u64::MAX);
}

#[test]
fn gone_panes_are_forgotten() {
    let mut state = TmuxControlState::new();
    state.begin_refresh();
    reply(&mut state, &pane_line(1, "@1", "%1", "0", "1"));
    reply(&mut state, &pane_line(1, "@1", "%2", "1", "0"));
    reply(&mut state, "WT_DONE\t1");
    assert!(state.set_note("%1", " build "));
    assert!(state.set_note("%2", "logs"));
    state.push_output("%1", &vec![b"x".to_vec()]);
    assert_eq!(state.snapshot().windows[0].panes[0].note, Some("build".to_string()));
    state.begin_refresh();
    reply(&mut state, &pane_line(2, "@1", "%2", "0", "0"));
    reply(&mut state, "WT_DONE\t2");
    assert!(!state.pane_notes.contains_key("%1"));
    assert!(!state.pane_replay.contains_key("%1"));
    assert_eq!(state.pane_notes.get("%2"), Some(&"logs".to_string()));
    assert_eq!(state.snapshot().active_pane, Some("%2".to_string()));
    assert_eq!(state.snapshot().windows[0].panes[0].note, Some("logs".to_string()));
}

#[test]
fn an_empty_answer_leaves_no_focus() {
    let mut state = TmuxControlState::new();
    state.begin_refresh();
    reply(&mut state, &pane_line(1, "@1", "%1", "0", "1"));
    reply(&mut state, "WT_DONE\t1");
    state.begin_refresh();
    assert!(reply(&mut state, "WT_DONE\t2"));
    assert_eq!(state.snapshot().active_pane, None);
    assert!(state.snapshot().windows.is_empty());
}

#[test]
fn notes_are_trimmed_and_can_be_removed() {
    let mut notes: TextMap<String> = TextMap::new();
    notes.insert("%5".to_string(), "old".to_string());
    let mut state = TmuxControlState::with_notes(notes);
    assert!(!state.set_note("%5", "not shown"));
    assert!(!state.pane_notes.contains_key("%5"));
    state.upsert_pane_placeholder("%1");
    assert!(state.set_note("%1", "\u{3000}note\n"));
    assert_eq!(state.pane_notes.get("%1"), Some(&"note".to_string()));
    assert!(state.set_note("%1", "  "));
    assert!(state.pane_notes.is_empty());
    assert_eq!(state.snapshot().windows[0].panes[0].note, None);
}

#[test]
fn placeholders_stand_in_for_unknown_panes() {
    let mut notes: TextMap<String> = TextMap::new();
    notes.insert("%2".to_string(), "two".to_string());
    let mut state = TmuxControlState::with_notes(notes);
    state.upsert_pane_placeholder("%1");
    state.upsert_pane_placeholder("%2");
    state.upsert_pane_placeholder("%1");
    let snapshot = state.snapshot();
    assert_eq!(layout(&snapshot), vec![("@0".to_string(), vec!["%1".to_string(), "%2".to_string()])]);
    let window = &snapshot.windows[0];
    assert_eq!((window.name.as_str(), window.index, window.active, window.zoomed), ("tmux", Some(0), true, false));
    assert_eq!(window.panes[1].index, Some(1));
    assert_eq!(window.panes[1].window_id, "@0");
    assert_eq!(window.panes[1].note, Some("two".to_string()));
    assert!(window.panes[1].active);
    assert_eq!(window.panes[1].current_command, "");
}

#[test]
fn captured_contents_replace_the_held_output() {
    let mut state = TmuxControlState::new();
    state.push_output("%1", &vec![b"old".to_vec()]);
    assert!(!append_tmux_capture_line(&mut state, b"stray"));
    assert!(!handle_tmux_capture_control_line(&mut state, b"%begin 1 1 0"));
    state.queue_captures(&vec!["%1".to_string(), "%2".to_string()]);
    assert!(handle_tmux_capture_control_line(&mut state, b"%begin 1 2 0"));
    assert!(append_tmux_capture_line(&mut state, b"line"));
    assert!(handle_tmux_capture_control_line(&mut state, b"%output x"));
    assert!(handle_tmux_capture_control_line(&mut state, b"%end 1 2 0"));
    assert_eq!(
        state.pane_replay.get("%1").unwrap().tail_chunks(100),
        vec![b"line\r\n%output x\r\n".to_vec()]
    );
    assert!(handle_tmux_capture_control_line(&mut state, b"%begin 1 3 0"));
    assert!(append_tmux_capture_line(&mut state, b"lost"));
    assert!(handle_tmux_capture_control_line(&mut state, b"%error 1 3 0"));
    assert!(state.pane_replay.get("%2").is_none());
    assert!(!handle_tmux_capture_control_line(&mut state, b"%end 1 4 0"));
}

#[test]
fn input_goes_to_the_named_or_the_active_pane() {
    let mut state = TmuxControlState::new();
    state.active_pane = Some("%1".to_string());
    assert_eq!(tmux_target_pane(&state, Some("%2")), None);
    state.initialized = true;
    assert_eq!(tmux_target_pane(&state, Some("%2")), Some("%2".to_string()));
    assert_eq!(tmux_target_pane(&state, None), Some("%1".to_string()));
}
