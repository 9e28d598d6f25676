//! What is known of a tmux session that is run in control mode.
use std::collections::VecDeque;
use vstd::prelude::*;
use vstd::string::*;
use vstd::utf8::{decode_utf8, valid_utf8};
use crate::order::{by_place, sort_by_place};
use crate::outside::utf8_text;
use crate::panes::{
    choose_pane, chosen_pane, copy_windows, lists_pane, shows_pane, windows_show_pane, PaneView,
    SnapshotView, TmuxPane, TmuxStateSnapshot, TmuxWindow, WindowView,
};
use crate::replay::{chunk_views, joined, newest, pushed, ReplayBuffer, REPLAY_LIMIT_BYTES};
use crate::table::{in_key_order, reversed, views, TextMap, TextSet};
use crate::text::{
    copy_opt, opt_str, opt_text, parse_u16, parse_unsigned, push_bytes, same_text, split_fields,
    split_text, strip_prefix, text_strip_prefix, texts, trim, trimmed, unsigned_value, Text,
};
use crate::wire::{line_starts_with, spells};

verus! {

// ---------------------------------------------------------------------------
// Replies
// ---------------------------------------------------------------------------

/// One line of the answer to a question for the layout.
pub enum StateLine {
    /// A window.
    Window { generation: Option<u64>, window: TmuxWindow },
    /// A pane.
    Pane { generation: Option<u64>, pane: TmuxPane },
    /// The end of the answer.
    Done { generation: Option<u64> },
    /// A window or a pane with fields missing.
    Short,
}

/// What a line of the answer holds.
#[verifier::ext_equal]
pub enum StateLineView {
    Window { generation: Option<u64>, window: WindowView },
    Pane { generation: Option<u64>, pane: PaneView },
    Done { generation: Option<u64> },
    Short,
}

impl View for StateLine {
    type V = StateLineView;

    open spec fn view(&self) -> StateLineView {
        match self {
            StateLine::Window { generation, window } => StateLineView::Window {
                generation: *generation,
                window: window@,
            },
            StateLine::Pane { generation, pane } => StateLineView::Pane {
                generation: *generation,
                pane: pane@,
            },
            StateLine::Done { generation } => StateLineView::Done { generation: *generation },
            StateLine::Short => StateLineView::Short,
        }
    }
}

/// The generation that a field spells.
pub open spec fn generation_field(field: Text) -> Option<u64> {
    match unsigned_value(field, u64::MAX as nat) {
        Some(n) => Some(n as u64),
        None => None,
    }
}

/// The small number that a field spells.
pub open spec fn number_field(field: Text) -> Option<u16> {
    match unsigned_value(field, 0xffff) {
        Some(n) => Some(n as u16),
        None => None,
    }
}

/// The line of a window: generation, id, index, name, active, zoomed.
pub open spec fn window_line(rest: Text) -> StateLineView {
    let fields = split_fields(rest, 6, '\t');
    if fields.len() == 6 {
        StateLineView::Window {
            generation: generation_field(fields[0]),
            window: WindowView {
                id: fields[1],
                index: number_field(fields[2]),
                name: fields[3],
                active: fields[4] == "1"@,
                zoomed: fields[5] == "1"@,
                panes: seq![],
            },
        }
    } else {
        StateLineView::Short
    }
}

/// The line of a pane: generation, window, id, index, active, program, directory, left, top, width,
/// height.
pub open spec fn pane_line(rest: Text) -> StateLineView {
    let fields = split_fields(rest, 11, '\t');
    if fields.len() == 11 {
        StateLineView::Pane {
            generation: generation_field(fields[0]),
            pane: PaneView {
                id: fields[2],
                window_id: fields[1],
                index: number_field(fields[3]),
                active: fields[4] == "1"@,
                command: fields[5],
                path: fields[6],
                note: None,
                left: number_field(fields[7]),
                top: number_field(fields[8]),
                width: number_field(fields[9]),
                height: number_field(fields[10]),
            },
        }
    } else {
        StateLineView::Short
    }
}

/// What a line of text says of the layout, if it is part of an answer.
pub open spec fn state_text(text: Text) -> Option<StateLineView> {
    match strip_prefix(text, "WT_WINDOW\t"@) {
        Some(rest) => Some(window_line(rest)),
        None => match strip_prefix(text, "WT_PANE\t"@) {
            Some(rest) => Some(pane_line(rest)),
            None => match strip_prefix(text, "WT_DONE\t"@) {
                Some(rest) => Some(
                    StateLineView::Done { generation: generation_field(trimmed(rest)) },
                ),
                None => None,
            },
        },
    }
}

/// What a line says of the layout, if it is part of an answer.
pub open spec fn state_line(line: Seq<u8>) -> Option<StateLineView> {
    if valid_utf8(line) {
        state_text(decode_utf8(line))
    } else {
        None
    }
}

/// The generation that a field spells.
fn read_generation(field: &str) -> (res: Option<u64>)
    ensures
        res == generation_field(field@),
{
    parse_unsigned(field, u64::MAX)
}

/// The small number that a field spells.
fn read_number(field: &str) -> (res: Option<u16>)
    ensures
        res == number_field(field@),
{
    parse_u16(field)
}

/// Whether a field says yes.
fn read_flag(field: &str) -> (res: bool)
    ensures
        res == (field@ == "1"@),
{
    same_text(field, "1")
}

/// The line of a window.
fn read_window(rest: &str) -> (res: StateLine)
    ensures
        res@ == window_line(rest@),
{
    let fields = split_text(rest, 6, '\t');
    let ghost parts = texts(fields@);
    if fields.len() != 6 {
        return StateLine::Short;
    }
    assert(parts[0] == fields@[0]@ && parts[1] == fields@[1]@ && parts[2] == fields@[2]@);
    assert(parts[3] == fields@[3]@ && parts[4] == fields@[4]@ && parts[5] == fields@[5]@);
    let panes: Vec<TmuxPane> = Vec::new();
    assert(views(panes@) =~= Seq::<PaneView>::empty());
    StateLine::Window {
        generation: read_generation(fields[0].as_str()),
        window: TmuxWindow {
            id: fields[1].clone(),
            index: read_number(fields[2].as_str()),
            name: fields[3].clone(),
            active: read_flag(fields[4].as_str()),
            zoomed: read_flag(fields[5].as_str()),
            panes,
        },
    }
}

/// The line of a pane.
fn read_pane(rest: &str) -> (res: StateLine)
    ensures
        res@ == pane_line(rest@),
{
    let fields = split_text(rest, 11, '\t');
    let ghost parts = texts(fields@);
    if fields.len() != 11 {
        return StateLine::Short;
    }
    assert(parts[0] == fields@[0]@ && parts[1] == fields@[1]@ && parts[2] == fields@[2]@);
    assert(parts[3] == fields@[3]@ && parts[4] == fields@[4]@ && parts[5] == fields@[5]@);
    assert(parts[6] == fields@[6]@ && parts[7] == fields@[7]@ && parts[8] == fields@[8]@);
    assert(parts[9] == fields@[9]@ && parts[10] == fields@[10]@);
    StateLine::Pane {
        generation: read_generation(fields[0].as_str()),
        pane: TmuxPane {
            id: fields[2].clone(),
            window_id: fields[1].clone(),
            index: read_number(fields[3].as_str()),
            active: read_flag(fields[4].as_str()),
            current_command: fields[5].clone(),
            current_path: fields[6].clone(),
            note: None,
            left: read_number(fields[7].as_str()),
            top: read_number(fields[8].as_str()),
            width: read_number(fields[9].as_str()),
            height: read_number(fields[10].as_str()),
        },
    }
}

/// What a line says of the layout, if it is part of an answer.
pub fn parse_state_line(line: &[u8]) -> (res: Option<StateLine>)
    ensures
        match res {
            Some(reply) => state_line(line@) == Some(reply@),
            None => state_line(line@) is None,
        },
{
    let text = match utf8_text(line) {
        Some(text) => text,
        None => {
            return None;
        },
    };
    if let Some(rest) = text_strip_prefix(text, "WT_WINDOW\t") {
        return Some(read_window(rest.as_str()));
    }
    if let Some(rest) = text_strip_prefix(text, "WT_PANE\t") {
        return Some(read_pane(rest.as_str()));
    }
    if let Some(rest) = text_strip_prefix(text, "WT_DONE\t") {
        return Some(StateLine::Done { generation: read_generation(trim(rest.as_str())) });
    }
    None
}

// ---------------------------------------------------------------------------
// State
// ---------------------------------------------------------------------------

/// The contents of a pane while tmux lists them.
pub struct TmuxCapture {
    /// The pane.
    pub pane_id: String,
    /// Its lines so far.
    pub lines: Vec<Vec<u8>>,
}

/// What a capture holds.
#[verifier::ext_equal]
pub struct PaneCaptureView {
    pub pane: Text,
    pub lines: Seq<Seq<u8>>,
}

impl View for TmuxCapture {
    type V = PaneCaptureView;

    open spec fn view(&self) -> PaneCaptureView {
        PaneCaptureView { pane: self.pane_id@, lines: chunk_views(self.lines@) }
    }
}

/// What an optional capture holds.
pub open spec fn opt_pane_capture(value: Option<TmuxCapture>) -> Option<PaneCaptureView> {
    match value {
        Some(c) => Some(c@),
        None => None,
    }
}

/// What is known of a tmux session in control mode.
pub struct TmuxControlState {
    /// Whether tmux has spoken.
    pub initialized: bool,
    /// The pane that has the focus.
    pub active_pane: Option<String>,
    /// How often the layout was asked for.
    pub refresh_generation: u64,
    /// The question that is not answered yet.
    pub pending_generation: Option<u64>,
    /// The windows of the answer so far.
    pub pending_windows: TextMap<TmuxWindow>,
    /// The panes of the answer so far.
    pub pending_panes: TextMap<TmuxPane>,
    /// The panes whose contents were asked for.
    pub pending_capture_queue: VecDeque<String>,
    /// The contents that are coming in.
    pub active_capture: Option<TmuxCapture>,
    /// The layout.
    pub windows: Vec<TmuxWindow>,
    /// What each pane has put out.
    pub pane_replay: TextMap<ReplayBuffer>,
    /// What the user noted down about panes.
    pub pane_notes: TextMap<String>,
}

/// What a control state holds.
#[verifier::ext_equal]
pub struct ControlView {
    pub initialized: bool,
    pub active_pane: Option<Text>,
    pub refresh_generation: u64,
    pub pending_generation: Option<u64>,
    pub pending_windows: Map<Text, WindowView>,
    pub pending_panes: Map<Text, PaneView>,
    pub queue: Seq<Text>,
    pub capture: Option<PaneCaptureView>,
    pub windows: Seq<WindowView>,
    pub replays: Map<Text, Seq<Seq<u8>>>,
    pub notes: Map<Text, Text>,
}

impl View for TmuxControlState {
    type V = ControlView;

    open spec fn view(&self) -> ControlView {
        ControlView {
            initialized: self.initialized,
            active_pane: opt_text(self.active_pane),
            refresh_generation: self.refresh_generation,
            pending_generation: self.pending_generation,
            pending_windows: self.pending_windows@,
            pending_panes: self.pending_panes@,
            queue: texts(self.pending_capture_queue@),
            capture: opt_pane_capture(self.active_capture),
            windows: views(self.windows@),
            replays: self.pane_replay@,
            notes: self.pane_notes@,
        }
    }
}

/// Nothing is known but the notes.
pub open spec fn fresh_control(notes: Map<Text, Text>) -> ControlView {
    ControlView {
        initialized: false,
        active_pane: None,
        refresh_generation: 0,
        pending_generation: None,
        pending_windows: Map::empty(),
        pending_panes: Map::empty(),
        queue: seq![],
        capture: None,
        windows: seq![],
        replays: Map::empty(),
        notes,
    }
}

/// The layout that is known.
pub open spec fn snapshot_of(control: ControlView) -> SnapshotView {
    SnapshotView { active_pane: control.active_pane, windows: control.windows }
}

/// The note about the pane `id`.
pub open spec fn note_of(notes: Map<Text, Text>, id: Text) -> Option<Text> {
    if notes.dom().contains(id) {
        Some(notes[id])
    } else {
        None
    }
}

/// The window that stands in until tmux has told its own.
pub open spec fn placeholder_window() -> WindowView {
    WindowView {
        id: "@0"@,
        index: Some(0),
        name: "tmux"@,
        active: true,
        zoomed: false,
        panes: seq![],
    }
}

/// The pane that stands in until tmux has told more of it.
pub open spec fn placeholder_pane(id: Text, window: WindowView, notes: Map<Text, Text>) -> PaneView {
    PaneView {
        id,
        window_id: window.id,
        index: Some((window.panes.len() % 0x10000) as u16),
        active: true,
        command: seq![],
        path: seq![],
        note: note_of(notes, id),
        left: None,
        top: None,
        width: None,
        height: None,
    }
}

/// The windows once the pane `id` is shown: the first one gets it where none has it.
pub open spec fn with_placeholder(
    windows: Seq<WindowView>,
    id: Text,
    notes: Map<Text, Text>,
) -> Seq<WindowView> {
    if shows_pane(windows, id) {
        windows
    } else {
        let window = if windows.len() == 0 {
            placeholder_window()
        } else {
            windows[0]
        };
        let grown = WindowView {
            panes: window.panes.push(placeholder_pane(id, window, notes)),
            ..window
        };
        if windows.len() == 0 {
            seq![grown]
        } else {
            windows.update(0, grown)
        }
    }
}

impl TmuxControlState {
    /// Nothing is known.
    pub fn new() -> (res: Self)
        ensures
            res@ == fresh_control(Map::empty()),
    {
        TmuxControlState::with_notes(TextMap::new())
    }

    /// Nothing is known but the notes.
    pub fn with_notes(pane_notes: TextMap<String>) -> (res: Self)
        ensures
            res@ == fresh_control(pane_notes@),
    {
        let queue: VecDeque<String> = VecDeque::new();
        let windows: Vec<TmuxWindow> = Vec::new();
        assert(texts(queue@) =~= Seq::<Text>::empty());
        assert(views(windows@) =~= Seq::<WindowView>::empty());
        TmuxControlState {
            initialized: false,
            active_pane: None,
            refresh_generation: 0,
            pending_generation: None,
            pending_windows: TextMap::new(),
            pending_panes: TextMap::new(),
            pending_capture_queue: queue,
            active_capture: None,
            windows,
            pane_replay: TextMap::new(),
            pane_notes,
        }
    }

    /// The layout that is known.
    pub fn snapshot(&self) -> (res: TmuxStateSnapshot)
        ensures
            res@ == snapshot_of(self@),
    {
        TmuxStateSnapshot {
            active_pane: copy_opt(&self.active_pane),
            windows: copy_windows(&self.windows),
        }
    }

    /// The note about the pane `id`.
    fn note(&self, id: &str) -> (res: Option<String>)
        ensures
            opt_text(res) == note_of(self@.notes, id@),
    {
        match self.pane_notes.get(id) {
            Some(note) => Some(note.clone()),
            None => None,
        }
    }

    /// Shows the pane `pane_id`: the first window gets it where none has it.
    pub fn upsert_pane_placeholder(&mut self, pane_id: &str)
        ensures
            final(self)@ == (ControlView {
                windows: with_placeholder(old(self)@.windows, pane_id@, old(self)@.notes),
                ..old(self)@
            }),
    {
        if windows_show_pane(&self.windows, pane_id) {
            return;
        }
        let ghost before = self@;
        let fresh = self.windows.len() == 0;
        let mut window = if fresh {
            let panes: Vec<TmuxPane> = Vec::new();
            assert(views(panes@) =~= Seq::<PaneView>::empty());
            TmuxWindow {
                id: "@0".to_string(),
                index: Some(0),
                name: "tmux".to_string(),
                active: true,
                zoomed: false,
                panes,
            }
        } else {
            assert(self@.windows[0] == self.windows@[0]@);
            self.windows[0].copy()
        };
        let ghost base = window@;
        let index: u16 = (window.panes.len() % 0x10000) as u16;
        let pane = TmuxPane {
            id: pane_id.to_string(),
            window_id: window.id.clone(),
            index: Some(index),
            active: true,
            current_command: String::new(),
            current_path: String::new(),
            note: self.note(pane_id),
            left: None,
            top: None,
            width: None,
            height: None,
        };
        assert(pane@ == placeholder_pane(pane_id@, base, before.notes));
        window.panes.push(pane);
        assert(views(window.panes@) =~= base.panes.push(pane@));
        let ghost grown = window@;
        if fresh {
            self.windows.push(window);
            assert(views(self.windows@) =~= seq![grown]);
        } else {
            self.windows.set(0, window);
            assert(views(self.windows@) =~= before.windows.update(0, grown));
        }
    }
}

// ---------------------------------------------------------------------------
// Contents of panes
// ---------------------------------------------------------------------------

/// What is held of the output of the pane `id`.
pub open spec fn replay_of(control: ControlView, id: Text) -> Seq<Seq<u8>> {
    if control.replays.dom().contains(id) {
        control.replays[id]
    } else {
        seq![]
    }
}

/// The control state after the pane `id` has put out `chunks`.
pub open spec fn with_output(control: ControlView, id: Text, chunks: Seq<Seq<u8>>) -> ControlView {
    ControlView {
        replays: control.replays.insert(id, pushed(replay_of(control, id), chunks)),
        ..control
    }
}

/// The control state once the contents of the pane `id` are known to be `contents`.
pub open spec fn with_contents(control: ControlView, id: Text, contents: Seq<u8>) -> ControlView {
    ControlView {
        replays: control.replays.insert(id, newest(seq![contents], REPLAY_LIMIT_BYTES as nat)),
        ..control
    }
}

/// The control state after a line of the contents that are coming in.
pub open spec fn with_capture_line(control: ControlView, line: Seq<u8>) -> ControlView {
    match control.capture {
        Some(c) => ControlView {
            capture: Some(PaneCaptureView { lines: c.lines.push(line + seq![13u8, 10u8]), ..c }),
            ..control
        },
        None => control,
    }
}

/// Whether a line that starts with a percent sign belongs to contents that were asked for.
pub open spec fn is_capture_control(control: ControlView, line: Seq<u8>) -> bool {
    control.capture is Some || (spells(line, "%begin "@) && control.queue.len() > 0)
}

/// The control state after a line that starts with a percent sign, as far as contents of panes go.
pub open spec fn after_capture_control(control: ControlView, line: Seq<u8>) -> ControlView {
    match control.capture {
        Some(c) => if spells(line, "%end "@) {
            with_contents(ControlView { capture: None, ..control }, c.pane, joined(c.lines))
        } else if spells(line, "%error "@) {
            ControlView { capture: None, ..control }
        } else {
            with_capture_line(control, line)
        },
        None => if is_capture_control(control, line) {
            ControlView {
                capture: Some(PaneCaptureView { pane: control.queue[0], lines: seq![] }),
                queue: control.queue.skip(1),
                ..control
            }
        } else {
            control
        },
    }
}

/// The lines one behind the other.
fn join_lines(lines: &Vec<Vec<u8>>) -> (res: Vec<u8>)
    ensures
        res@ == joined(chunk_views(lines@)),
{
    let ghost all = chunk_views(lines@);
    let mut out: Vec<u8> = Vec::new();
    let mut i: usize = 0;
    assert(all.take(0) == Seq::<Seq<u8>>::empty());
    while i < lines.len()
        invariant
            all == chunk_views(lines@),
            0 <= i <= lines@.len(),
            out@ == joined(all.take(i as int)),
        decreases lines@.len() - i,
    {
        push_bytes(&mut out, lines[i].as_slice());
        proof {
            let step = all.take(i + 1);
            assert(step.drop_last() == all.take(i as int));
            assert(step.last() == lines@[i as int]@);
        }
        i += 1;
    }
    assert(all.take(i as int) == all);
    out
}

impl TmuxControlState {
    /// Adds output of the pane `pane_id` to what is held of it.
    pub fn push_output(&mut self, pane_id: &str, chunks: &Vec<Vec<u8>>)
        ensures
            final(self)@ == with_output(old(self)@, pane_id@, chunk_views(chunks@)),
    {
        let ghost before = self@;
        let mut replay = match self.pane_replay.remove(pane_id) {
            Some(replay) => replay,
            None => ReplayBuffer::new(),
        };
        assert(replay@ == replay_of(before, pane_id@));
        replay.push_all(chunks);
        self.pane_replay.insert(pane_id.to_string(), replay);
        assert(self@.replays =~= with_output(before, pane_id@, chunk_views(chunks@)).replays);
    }

    /// Notes that the contents of `panes` are asked for.
    pub fn queue_captures(&mut self, panes: &Vec<String>)
        ensures
            final(self)@ == (ControlView {
                queue: old(self)@.queue + texts(panes@),
                ..old(self)@
            }),
    {
        let ghost before = self@;
        let ghost all = texts(panes@);
        let mut i: usize = 0;
        assert(before.queue + all.take(0) =~= before.queue);
        while i < panes.len()
            invariant
                all == texts(panes@),
                0 <= i <= panes@.len(),
                self@ == (ControlView { queue: before.queue + all.take(i as int), ..before }),
            decreases panes@.len() - i,
        {
            let ghost step = self@.queue;
            self.pending_capture_queue.push_back(panes[i].clone());
            assert(self@.queue =~= step.push(all[i as int]));
            assert(before.queue + all.take(i + 1) =~= step.push(all[i as int]));
            i += 1;
        }
        assert(all.take(i as int) =~= all);
    }

    /// Holds `contents` as the output of the pane `pane_id`, in place of what was held.
    pub fn replace_output(&mut self, pane_id: &str, contents: Vec<u8>)
        ensures
            final(self)@ == with_contents(old(self)@, pane_id@, contents@),
    {
        let mut replay = ReplayBuffer::new();
        replay.replace(contents);
        self.pane_replay.insert(pane_id.to_string(), replay);
    }
}

/// Takes a line of the contents that are coming in; says whether any are.
pub fn append_tmux_capture_line(state: &mut TmuxControlState, line: &[u8]) -> (res: bool)
    ensures
        res == (old(state)@.capture is Some),
        final(state)@ == with_capture_line(old(state)@, line@),
{
    match state.active_capture.take() {
        Some(capture) => {
            let TmuxCapture { pane_id, mut lines } = capture;
            let ghost before = chunk_views(lines@);
            let mut text: Vec<u8> = Vec::new();
            push_bytes(&mut text, line);
            text.push(13u8);
            text.push(10u8);
            assert(text@ =~= line@ + seq![13u8, 10u8]);
            lines.push(text);
            assert(chunk_views(lines@) =~= before.push(text@));
            state.active_capture = Some(TmuxCapture { pane_id, lines });
            true
        },
        None => false,
    }
}

/// Takes a line that starts with a percent sign as far as it concerns contents of panes; says
/// whether it does.
pub fn handle_tmux_capture_control_line(state: &mut TmuxControlState, line: &[u8]) -> (res: bool)
    ensures
        res == is_capture_control(old(state)@, line@),
        final(state)@ == after_capture_control(old(state)@, line@),
{
    let ends = line_starts_with(line, "%end ");
    let fails = line_starts_with(line, "%error ");
    if state.active_capture.is_some() {
        if !ends && !fails {
            append_tmux_capture_line(state, line);
            return true;
        }
        let capture = state.active_capture.take().unwrap();
        if ends {
            let contents = join_lines(&capture.lines);
            state.replace_output(capture.pane_id.as_str(), contents);
        }
        return true;
    }
    if line_starts_with(line, "%begin ") {
        let ghost queue = state@.queue;
        if let Some(pane_id) = state.pending_capture_queue.pop_front() {
            assert(queue[0] == pane_id@);
            assert(texts(state.pending_capture_queue@) =~= queue.skip(1));
            let lines: Vec<Vec<u8>> = Vec::new();
            assert(chunk_views(lines@) =~= Seq::<Seq<u8>>::empty());
            state.active_capture = Some(TmuxCapture { pane_id, lines });
            return true;
        }
    }
    false
}

// ---------------------------------------------------------------------------
// Asking for the layout
// ---------------------------------------------------------------------------

/// The number of the next question.
pub open spec fn next_generation(control: ControlView) -> u64 {
    if control.refresh_generation < u64::MAX {
        (control.refresh_generation + 1) as u64
    } else {
        u64::MAX
    }
}

/// The control state once the layout has been asked for.
pub open spec fn asked(control: ControlView) -> ControlView {
    ControlView {
        refresh_generation: next_generation(control),
        pending_generation: Some(next_generation(control)),
        pending_windows: Map::empty(),
        pending_panes: Map::empty(),
        ..control
    }
}

/// The control state after a window of the answer.
pub open spec fn with_window(
    control: ControlView,
    generation: Option<u64>,
    window: WindowView,
) -> ControlView {
    if control.pending_generation == generation {
        ControlView {
            pending_windows: control.pending_windows.insert(window.id, window),
            ..control
        }
    } else {
        control
    }
}

/// The control state after a pane of the answer.
pub open spec fn with_pane(
    control: ControlView,
    generation: Option<u64>,
    pane: PaneView,
) -> ControlView {
    if control.pending_generation == generation {
        ControlView {
            active_pane: if pane.active {
                Some(pane.id)
            } else {
                control.active_pane
            },
            pending_panes: control.pending_panes.insert(
                pane.id,
                PaneView { note: note_of(control.notes, pane.id), ..pane },
            ),
            ..control
        }
    } else {
        control
    }
}

/// The window that stands in for one of which only panes were told.
pub open spec fn bare_window(id: Text) -> WindowView {
    WindowView { id, index: None, name: id, active: false, zoomed: false, panes: seq![] }
}

/// The windows after `pane` was put behind the panes of its window.
pub open spec fn joined_by(windows: Map<Text, WindowView>, pane: PaneView) -> Map<
    Text,
    WindowView,
> {
    let window = if windows.dom().contains(pane.window_id) {
        windows[pane.window_id]
    } else {
        bare_window(pane.window_id)
    };
    windows.insert(pane.window_id, WindowView { panes: window.panes.push(pane), ..window })
}

/// The windows after each of `panes` was put behind the panes of its window.
pub open spec fn joined_by_all(windows: Map<Text, WindowView>, panes: Seq<PaneView>) -> Map<
    Text,
    WindowView,
>
    decreases panes.len(),
{
    if panes.len() == 0 {
        windows
    } else {
        joined_by_all(joined_by(windows, panes[0]), panes.skip(1))
    }
}

/// The windows of the answer, by id, with their panes, by id.
pub open spec fn told_windows(control: ControlView) -> Seq<WindowView> {
    in_key_order(joined_by_all(control.pending_windows, in_key_order(control.pending_panes)))
}

/// The panes of the answer.
pub open spec fn told_panes(control: ControlView) -> Set<Text> {
    Set::new(|id: Text| lists_pane(in_key_order(control.pending_panes), id))
}

/// A window with its panes by their places.
pub open spec fn panes_placed(window: WindowView) -> WindowView {
    WindowView { panes: by_place(window.panes), ..window }
}

/// The windows by their places, each with its panes by theirs.
pub open spec fn windows_placed(windows: Seq<WindowView>) -> Seq<WindowView> {
    by_place(Seq::new(windows.len(), |i: int| panes_placed(windows[i])))
}

/// The control state once the answer is complete.
pub open spec fn settled(control: ControlView) -> ControlView {
    let windows = told_windows(control);
    let live = told_panes(control);
    ControlView {
        active_pane: if control.active_pane is Some && live.contains(control.active_pane->0) {
            control.active_pane
        } else {
            chosen_pane(windows)
        },
        pending_generation: None,
        pending_windows: Map::empty(),
        pending_panes: Map::empty(),
        windows: windows_placed(windows),
        replays: control.replays.restrict(live),
        notes: control.notes.restrict(live),
        ..control
    }
}

/// The control state after a line of an answer.
pub open spec fn with_reply(control: ControlView, reply: StateLineView) -> ControlView {
    match reply {
        StateLineView::Window { generation, window } => with_window(control, generation, window),
        StateLineView::Pane { generation, pane } => with_pane(control, generation, pane),
        StateLineView::Done { generation } => if control.pending_generation == generation {
            settled(control)
        } else {
            control
        },
        StateLineView::Short => control,
    }
}

/// Whether a line of an answer completes it.
pub open spec fn completes(control: ControlView, reply: StateLineView) -> bool {
    match reply {
        StateLineView::Done { generation } => control.pending_generation == generation,
        _ => false,
    }
}

/// Whether two generations are the same.
fn same_generation(a: Option<u64>, b: Option<u64>) -> (res: bool)
    ensures
        res == (a == b),
{
    match (a, b) {
        (Some(x), Some(y)) => x == y,
        (None, None) => true,
        _ => false,
    }
}

/// Puts `pane` behind the panes of its window.
fn join_window(windows: &mut TextMap<TmuxWindow>, pane: TmuxPane)
    ensures
        final(windows)@ == joined_by(old(windows)@, pane@),
{
    let ghost before = windows@;
    let ghost shown = pane@;
    let window_id = pane.window_id.clone();
    let mut window = match windows.remove(window_id.as_str()) {
        Some(window) => window,
        None => {
            let panes: Vec<TmuxPane> = Vec::new();
            assert(views(panes@) =~= Seq::<PaneView>::empty());
            TmuxWindow {
                id: window_id.clone(),
                index: None,
                name: window_id.clone(),
                active: false,
                zoomed: false,
                panes,
            }
        },
    };
    let ghost base = window@;
    window.panes.push(pane);
    assert(views(window.panes@) =~= base.panes.push(shown));
    windows.insert(window_id, window);
    assert(windows@ =~= joined_by(before, shown));
}

/// The windows by their places, each with its panes by theirs.
fn place_windows(windows: Vec<TmuxWindow>) -> (res: Vec<TmuxWindow>)
    ensures
        views(res@) == windows_placed(views(windows@)),
{
    let ghost all = views(windows@);
    let ghost placed = Seq::new(all.len(), |i: int| panes_placed(all[i]));
    let mut rest = reversed(windows);
    let mut out: Vec<TmuxWindow> = Vec::new();
    while rest.len() > 0
        invariant
            all == views(windows@),
            placed == Seq::new(all.len(), |i: int| panes_placed(all[i])),
            rest@.len() + out@.len() == all.len(),
            rest@ == windows@.reverse().take(rest@.len() as int),
            forall|i: int| 0 <= i < out@.len() ==> (#[trigger] out@[i])@ == placed[i],
        decreases rest@.len(),
    {
        let window = rest.pop().unwrap();
        let ghost n = out@.len() as int;
        assert(window == windows@[n]);
        assert(all[n] == window@);
        let TmuxWindow { id, index, name, active, zoomed, panes } = window;
        let panes = sort_by_place(panes);
        let sorted = TmuxWindow { id, index, name, active, zoomed, panes };
        assert(sorted@ == panes_placed(window@));
        out.push(sorted);
    }
    assert(views(out@) =~= placed);
    sort_by_place(out)
}

impl TmuxControlState {
    /// Notes that the layout is asked for; gives the number of the question.
    pub fn begin_refresh(&mut self) -> (res: u64)
        ensures
            final(self)@ == asked(old(self)@),
            res == next_generation(old(self)@),
    {
        if self.refresh_generation < u64::MAX {
            self.refresh_generation = self.refresh_generation + 1;
        }
        self.pending_generation = Some(self.refresh_generation);
        self.pending_windows = TextMap::new();
        self.pending_panes = TextMap::new();
        self.refresh_generation
    }

    /// Takes a window of the answer.
    fn take_window(&mut self, generation: Option<u64>, window: TmuxWindow)
        ensures
            final(self)@ == with_window(old(self)@, generation, window@),
    {
        if same_generation(self.pending_generation, generation) {
            self.pending_windows.insert(window.id.clone(), window);
        }
    }

    /// Takes a pane of the answer.
    fn take_pane(&mut self, generation: Option<u64>, pane: TmuxPane)
        ensures
            final(self)@ == with_pane(old(self)@, generation, pane@),
    {
        if same_generation(self.pending_generation, generation) {
            let note = self.note(pane.id.as_str());
            if pane.active {
                self.active_pane = Some(pane.id.clone());
            }
            let id = pane.id.clone();
            let TmuxPane {
                id: pane_id,
                window_id,
                index,
                active,
                current_command,
                current_path,
                note: _,
                left,
                top,
                width,
                height,
            } = pane;
            let noted = TmuxPane {
                id: pane_id,
                window_id,
                index,
                active,
                current_command,
                current_path,
                note,
                left,
                top,
                width,
                height,
            };
            self.pending_panes.insert(id, noted);
        }
    }

    /// Takes the end of the answer.
    fn settle(&mut self)
        ensures
            final(self)@ == settled(old(self)@),
    {
        let ghost before = self@;
        let mut windows: TextMap<TmuxWindow> = TextMap::new();
        core::mem::swap(&mut windows, &mut self.pending_windows);
        let mut pending: TextMap<TmuxPane> = TextMap::new();
        core::mem::swap(&mut pending, &mut self.pending_panes);
        let panes = pending.into_values();
        let ghost all = views(panes@);
        let ghost kept = panes@;
        let ghost whole = joined_by_all(windows@, all);
        let mut live = TextSet::new();
        let mut rest = reversed(panes);
        let ghost mut done: int = 0;
        assert(all.skip(0) == all);
        assert(all.take(0) =~= Seq::<PaneView>::empty());
        assert(live@ =~= Set::new(|id: Text| lists_pane(all.take(0), id)));
        while rest.len() > 0
            invariant
                all == views(kept),
                0 <= done <= all.len(),
                rest@.len() == all.len() - done,
                rest@ == kept.reverse().take(rest@.len() as int),
                joined_by_all(windows@, all.skip(done)) == whole,
                live@ == Set::new(|id: Text| lists_pane(all.take(done), id)),
            decreases rest@.len(),
        {
            let pane = rest.pop().unwrap();
            assert(pane == kept[done]);
            let ghost left = all.skip(done);
            assert(left[0] == pane@);
            assert(left.skip(1) == all.skip(done + 1));
            let ghost shown = pane@;
            live.insert(pane.id.clone());
            join_window(&mut windows, pane);
            proof {
                lemma_lists_push(all, done);
                done = done + 1;
                assert(live@ =~= Set::new(|id: Text| lists_pane(all.take(done), id)));
            }
        }
        proof {
            assert(all.take(done) == all);
            assert(all.skip(done) =~= Seq::<PaneView>::empty());
            assert(live@ =~= told_panes(before));
        }
        let told = windows.into_values();
        assert(views(told@) == told_windows(before));
        self.pane_notes.retain(&live);
        self.pane_replay.retain(&live);
        let focused = match &self.active_pane {
            Some(id) => live.contains(id.as_str()),
            None => false,
        };
        if !focused {
            self.active_pane = choose_pane(&told);
        }
        self.windows = place_windows(told);
        self.pending_generation = None;
    }

    /// Takes a line of an answer; says whether it completes it.
    pub fn take_reply(&mut self, reply: StateLine) -> (res: bool)
        ensures
            final(self)@ == with_reply(old(self)@, reply@),
            res == completes(old(self)@, reply@),
    {
        match reply {
            StateLine::Window { generation, window } => {
                self.take_window(generation, window);
                false
            },
            StateLine::Pane { generation, pane } => {
                self.take_pane(generation, pane);
                false
            },
            StateLine::Done { generation } => {
                if same_generation(self.pending_generation, generation) {
                    self.settle();
                    true
                } else {
                    false
                }
            },
            StateLine::Short => false,
        }
    }
}

proof fn lemma_lists_push(panes: Seq<PaneView>, n: int)
    requires
        0 <= n < panes.len(),
    ensures
        forall|id: Text| #[trigger]
            lists_pane(panes.take(n + 1), id) <==> lists_pane(panes.take(n), id) || panes[n].id == id,
{
    assert forall|id: Text| #[trigger]
        lists_pane(panes.take(n + 1), id) <==> lists_pane(panes.take(n), id) || panes[n].id == id by {
        if lists_pane(panes.take(n + 1), id) {
            let i = choose|i: int|
                0 <= i < panes.take(n + 1).len() && #[trigger] panes.take(n + 1)[i].id == id;
            if i < n {
                assert(panes.take(n)[i].id == id);
            }
        }
        if lists_pane(panes.take(n), id) {
            let i = choose|i: int| 0 <= i < panes.take(n).len() && #[trigger] panes.take(n)[i].id == id;
            assert(panes.take(n + 1)[i].id == id);
        }
        if panes[n].id == id {
            assert(panes.take(n + 1)[n].id == id);
        }
    }
}

// ---------------------------------------------------------------------------
// Notes and targets
// ---------------------------------------------------------------------------

/// The pane with `note` about it, if it is called `id`.
pub open spec fn pane_noted(pane: PaneView, id: Text, note: Option<Text>) -> PaneView {
    if pane.id == id {
        PaneView { note, ..pane }
    } else {
        pane
    }
}

/// The panes with `note` about those called `id`.
pub open spec fn panes_noted(panes: Seq<PaneView>, id: Text, note: Option<Text>) -> Seq<PaneView> {
    Seq::new(panes.len(), |i: int| pane_noted(panes[i], id, note))
}

/// The windows with `note` about the panes called `id`.
pub open spec fn windows_noted(windows: Seq<WindowView>, id: Text, note: Option<Text>) -> Seq<
    WindowView,
> {
    Seq::new(
        windows.len(),
        |i: int| WindowView { panes: panes_noted(windows[i].panes, id, note), ..windows[i] },
    )
}

/// The notes once the user has noted `note` down about the pane `id`, which is shown or not. White
/// space around a note is dropped; an empty note, or one about a pane that is not shown, is none.
pub open spec fn notes_after(
    notes: Map<Text, Text>,
    id: Text,
    note: Text,
    shown: bool,
) -> Map<Text, Text> {
    if shown && trimmed(note).len() > 0 {
        notes.insert(id, trimmed(note))
    } else {
        notes.remove(id)
    }
}

/// The control state once the user has noted `note` down about the pane `id`.
pub open spec fn noted(control: ControlView, id: Text, note: Text) -> ControlView {
    let shown = shows_pane(control.windows, id);
    let notes = notes_after(control.notes, id, note, shown);
    ControlView {
        notes,
        windows: if shown {
            windows_noted(control.windows, id, note_of(notes, id))
        } else {
            control.windows
        },
        ..control
    }
}

/// Puts `note` about the panes called `id`.
fn note_panes(panes: &mut Vec<TmuxPane>, id: &str, note: &Option<String>)
    ensures
        views(final(panes)@) == panes_noted(views(old(panes)@), id@, opt_text(*note)),
{
    let ghost before = views(panes@);
    let ghost after = panes_noted(before, id@, opt_text(*note));
    let mut i: usize = 0;
    while i < panes.len()
        invariant
            before == views(old(panes)@),
            after == panes_noted(before, id@, opt_text(*note)),
            panes@.len() == before.len(),
            0 <= i <= panes@.len(),
            forall|j: int| 0 <= j < i ==> (#[trigger] panes@[j])@ == after[j],
            forall|j: int| i <= j < panes@.len() ==> (#[trigger] panes@[j])@ == before[j],
        decreases panes@.len() - i,
    {
        assert(panes@[i as int]@ == before[i as int]);
        if same_text(panes[i].id.as_str(), id) {
            let mut pane = panes[i].copy();
            pane.note = copy_opt(note);
            assert(pane@ == after[i as int]);
            panes.set(i, pane);
        }
        i += 1;
    }
    assert(views(panes@) =~= after);
}

/// Puts `note` about the panes called `id`.
fn note_windows(windows: &mut Vec<TmuxWindow>, id: &str, note: &Option<String>)
    ensures
        views(final(windows)@) == windows_noted(views(old(windows)@), id@, opt_text(*note)),
{
    let ghost before = views(windows@);
    let ghost after = windows_noted(before, id@, opt_text(*note));
    let mut i: usize = 0;
    while i < windows.len()
        invariant
            before == views(old(windows)@),
            after == windows_noted(before, id@, opt_text(*note)),
            windows@.len() == before.len(),
            0 <= i <= windows@.len(),
            forall|j: int| 0 <= j < i ==> (#[trigger] windows@[j])@ == after[j],
            forall|j: int| i <= j < windows@.len() ==> (#[trigger] windows@[j])@ == before[j],
        decreases windows@.len() - i,
    {
        assert(windows@[i as int]@ == before[i as int]);
        let mut window = windows[i].copy();
        note_panes(&mut window.panes, id, note);
        assert(window@ == after[i as int]);
        windows.set(i, window);
        i += 1;
    }
    assert(views(windows@) =~= after);
}

impl TmuxControlState {
    /// Notes `note` down about the pane `pane_id`; says whether it is shown.
    pub fn set_note(&mut self, pane_id: &str, note: &str) -> (res: bool)
        ensures
            final(self)@ == noted(old(self)@, pane_id@, note@),
            res == shows_pane(old(self)@.windows, pane_id@),
    {
        if !windows_show_pane(&self.windows, pane_id) {
            self.pane_notes.remove(pane_id);
            return false;
        }
        let body = trim(note);
        if body.is_empty() {
            self.pane_notes.remove(pane_id);
        } else {
            self.pane_notes.insert(pane_id.to_string(), body.to_string());
        }
        let kept = self.note(pane_id);
        note_windows(&mut self.windows, pane_id, &kept);
        true
    }
}

/// The pane that input is meant for: the one that is named, else the one that has the focus; none
/// before tmux has spoken.
pub open spec fn target_pane(control: ControlView, named: Option<Text>) -> Option<Text> {
    if !control.initialized {
        None
    } else if named is Some {
        named
    } else {
        control.active_pane
    }
}

/// The pane that input is meant for.
pub fn tmux_target_pane(state: &TmuxControlState, pane_override: Option<&str>) -> (res: Option<
    String,
>)
    ensures
        opt_text(res) == target_pane(state@, opt_str(pane_override)),
{
    if !state.initialized {
        return None;
    }
    match pane_override {
        Some(pane) => Some(pane.to_string()),
        None => copy_opt(&state.active_pane),
    }
}

} // verus!
