//! A terminal session: what it has put out, what it is to be given, and who watches it.
use std::collections::VecDeque;
use vstd::prelude::*;
use vstd::string::*;
use vstd::utf8::encode_utf8;
use crate::control::{
    replay_of, snapshot_of, target_pane, tmux_target_pane, with_contents, with_output,
};
use crate::errors::SessionError;
use crate::keys::{
    encode_tmux_control_input, encode_tmux_control_paste, input_commands, paste_commands,
};
use crate::launch::{
    opt_persisted, InputMode, ModeView, PersistedSession, PersistedView, SessionMode, SessionSpec,
    SpecView,
};
use crate::outside::{readable, utc_now, Timestamp};
use crate::panes::{first_pane, first_pane_id, SnapshotView, TmuxStateSnapshot};
use crate::replay::{chunk_views, pushed, tail, ReplayBuffer, INITIAL_REPLAY_LIMIT_BYTES};
use crate::table::{reversed, views};
use crate::text::{bytes_copy, opt_str, opt_text, Text};
use crate::transfer::{
    filter_after, filter_events, filter_visible, transfer_views, FileTransferEvent,
    FileTransferFilter, FilterView, TransferEventView,
};

verus! {

/// The stream of a terminal as a whole, as opposed to one of its panes.
pub const DIRECT_STREAM_ID: &'static str = "__direct__";

// ---------------------------------------------------------------------------
// Input
// ---------------------------------------------------------------------------

/// Something that the terminal is to be given.
pub enum PtyInput {
    /// What a user typed.
    User { data: Vec<u8>, pane_id: Option<String> },
    /// A command of a file transfer.
    FileTransfer { data: Vec<u8>, pane_id: Option<String> },
    /// What a user pasted.
    Paste { data: Vec<u8>, pane_id: Option<String> },
    /// Bytes that go to the terminal as they are.
    Raw(Vec<u8>),
}

/// What an input holds.
#[verifier::ext_equal]
pub enum InputView {
    User { data: Seq<u8>, pane: Option<Text> },
    FileTransfer { data: Seq<u8>, pane: Option<Text> },
    Paste { data: Seq<u8>, pane: Option<Text> },
    Raw(Seq<u8>),
}

impl View for PtyInput {
    type V = InputView;

    open spec fn view(&self) -> InputView {
        match self {
            PtyInput::User { data, pane_id } => InputView::User {
                data: data@,
                pane: opt_text(*pane_id),
            },
            PtyInput::FileTransfer { data, pane_id } => InputView::FileTransfer {
                data: data@,
                pane: opt_text(*pane_id),
            },
            PtyInput::Paste { data, pane_id } => InputView::Paste {
                data: data@,
                pane: opt_text(*pane_id),
            },
            PtyInput::Raw(data) => InputView::Raw(data@),
        }
    }
}

/// What typed input becomes on its way to the terminal.
pub open spec fn input_bytes(mode: ModeView, data: Seq<u8>, named: Option<Text>) -> Seq<u8> {
    match mode {
        ModeView::Direct => data,
        ModeView::Control(control) => match target_pane(control, named) {
            Some(pane) => encode_utf8(input_commands(pane, readable(data))),
            None => data,
        },
    }
}

/// What pasted input becomes on its way to the terminal.
pub open spec fn paste_bytes(mode: ModeView, data: Seq<u8>, named: Option<Text>) -> Seq<u8> {
    match mode {
        ModeView::Direct => data,
        ModeView::Control(control) => match target_pane(control, named) {
            Some(pane) => encode_utf8(paste_commands(pane, readable(data))),
            None => data,
        },
    }
}

/// What an input becomes on its way to the terminal.
pub open spec fn payload(mode: ModeView, input: InputView) -> Seq<u8> {
    match input {
        InputView::User { data, pane } => input_bytes(mode, data, pane),
        InputView::FileTransfer { data, pane } => input_bytes(mode, data, pane),
        InputView::Paste { data, pane } => paste_bytes(mode, data, pane),
        InputView::Raw(data) => data,
    }
}

/// What an optional string holds, borrowed.
fn borrow_opt(value: &Option<String>) -> (res: Option<&str>)
    ensures
        opt_str(res) == opt_text(*value),
{
    match value {
        Some(s) => Some(s.as_str()),
        None => None,
    }
}

/// What typed input becomes on its way to the terminal.
pub fn encode_input_for_mode(mode: &InputMode, data: &[u8], pane_override: Option<&str>) -> (res:
    Vec<u8>)
    ensures
        res@ == input_bytes(mode@, data@, opt_str(pane_override)),
{
    match mode {
        InputMode::Direct => bytes_copy(data),
        InputMode::TmuxControl(state) => match tmux_target_pane(state, pane_override) {
            Some(pane) => encode_tmux_control_input(pane.as_str(), data),
            None => bytes_copy(data),
        },
    }
}

/// What pasted input becomes on its way to the terminal.
pub fn encode_paste_for_mode(mode: &InputMode, data: &[u8], pane_override: Option<&str>) -> (res:
    Vec<u8>)
    ensures
        res@ == paste_bytes(mode@, data@, opt_str(pane_override)),
{
    match mode {
        InputMode::Direct => bytes_copy(data),
        InputMode::TmuxControl(state) => match tmux_target_pane(state, pane_override) {
            Some(pane) => encode_tmux_control_paste(pane.as_str(), data),
            None => bytes_copy(data),
        },
    }
}

/// What an input becomes on its way to the terminal.
pub fn encode_pty_input(mode: &InputMode, input: PtyInput) -> (res: Vec<u8>)
    ensures
        res@ == payload(mode@, input@),
{
    match input {
        PtyInput::User { data, pane_id } => {
            encode_input_for_mode(mode, data.as_slice(), borrow_opt(&pane_id))
        },
        PtyInput::FileTransfer { data, pane_id } => {
            encode_input_for_mode(mode, data.as_slice(), borrow_opt(&pane_id))
        },
        PtyInput::Paste { data, pane_id } => {
            encode_paste_for_mode(mode, data.as_slice(), borrow_opt(&pane_id))
        },
        PtyInput::Raw(data) => data,
    }
}

// ---------------------------------------------------------------------------
// Events
// ---------------------------------------------------------------------------

/// Something that all viewers of a session are told.
#[derive(Clone, Debug)]
pub enum SessionEvent {
    /// Output of the terminal as a whole.
    Output(Vec<u8>),
    /// Output of a pane.
    PaneOutput { pane_id: String, data: Vec<u8> },
    /// The layout.
    TmuxState(TmuxStateSnapshot),
    /// A file has come over.
    FileDownload { id: String, filename_base64: String, data_base64: String },
    /// A transfer has changed its state.
    FileTransferStatus { id: String, status: String, message: String },
}

/// What an event holds.
#[verifier::ext_equal]
pub enum EventView {
    Output(Seq<u8>),
    PaneOutput { pane: Text, data: Seq<u8> },
    TmuxState(SnapshotView),
    Transfer(TransferEventView),
}

impl View for SessionEvent {
    type V = EventView;

    open spec fn view(&self) -> EventView {
        match self {
            SessionEvent::Output(data) => EventView::Output(data@),
            SessionEvent::PaneOutput { pane_id, data } => EventView::PaneOutput {
                pane: pane_id@,
                data: data@,
            },
            SessionEvent::TmuxState(snapshot) => EventView::TmuxState(snapshot@),
            SessionEvent::FileDownload { id, filename_base64, data_base64 } => EventView::Transfer(
                TransferEventView::Download {
                    id: id@,
                    filename: filename_base64@,
                    data: data_base64@,
                },
            ),
            SessionEvent::FileTransferStatus { id, status, message } => EventView::Transfer(
                TransferEventView::Status { id: id@, status: status@, message: message@ },
            ),
        }
    }
}

/// Output of the terminal as a whole, chunk by chunk.
pub open spec fn output_events(chunks: Seq<Seq<u8>>) -> Seq<EventView> {
    Seq::new(chunks.len(), |i: int| EventView::Output(chunks[i]))
}

/// Output of the pane `pane`, chunk by chunk.
pub open spec fn pane_events(pane: Text, chunks: Seq<Seq<u8>>) -> Seq<EventView> {
    Seq::new(chunks.len(), |i: int| EventView::PaneOutput { pane, data: chunks[i] })
}

/// What became of transfers.
pub open spec fn transfer_events(events: Seq<TransferEventView>) -> Seq<EventView> {
    Seq::new(events.len(), |i: int| EventView::Transfer(events[i]))
}

// ---------------------------------------------------------------------------
// Sessions
// ---------------------------------------------------------------------------

/// A terminal session.
pub struct TerminalSession {
    /// Its id.
    pub id: u128,
    /// The name that the user sees.
    pub name: String,
    /// The command that is run.
    pub command: String,
    /// The command that ends what the session leaves running.
    pub cleanup_command: Option<String>,
    /// What is remembered of it.
    pub persistent: Option<PersistedSession>,
    /// How it is run.
    pub mode: SessionMode,
    /// How many columns the terminal has.
    pub cols: u16,
    /// How many rows the terminal has.
    pub rows: u16,
    /// When it was started.
    pub created_at: Timestamp,
    /// What the terminal is still to be given.
    pub inputs: VecDeque<PtyInput>,
    /// Whether the terminal takes input.
    pub input_open: bool,
    /// How input reaches the programs.
    pub input_mode: InputMode,
    /// What the viewers are still to be told.
    pub events: Vec<SessionEvent>,
    /// What the terminal as a whole has put out.
    pub replay: ReplayBuffer,
    /// The file transfers.
    pub file_transfers: FileTransferFilter,
    /// How many viewers there are.
    pub viewers: usize,
    /// Whether the terminal runs.
    pub alive: bool,
}

/// What a session holds.
#[verifier::ext_equal]
pub struct SessionView {
    pub id: u128,
    pub name: Text,
    pub command: Text,
    pub cleanup: Option<Text>,
    pub persistent: Option<PersistedView>,
    pub mode: SessionMode,
    pub cols: u16,
    pub rows: u16,
    pub created_at: Timestamp,
    pub inputs: Seq<InputView>,
    pub input_open: bool,
    pub input_mode: ModeView,
    pub events: Seq<EventView>,
    pub replay: Seq<Seq<u8>>,
    pub transfers: FilterView,
    pub viewers: usize,
    pub alive: bool,
}

impl View for TerminalSession {
    type V = SessionView;

    open spec fn view(&self) -> SessionView {
        SessionView {
            id: self.id,
            name: self.name@,
            command: self.command@,
            cleanup: opt_text(self.cleanup_command),
            persistent: opt_persisted(self.persistent),
            mode: self.mode,
            cols: self.cols,
            rows: self.rows,
            created_at: self.created_at,
            inputs: views(self.inputs@),
            input_open: self.input_open,
            input_mode: self.input_mode@,
            events: views(self.events@),
            replay: self.replay@,
            transfers: self.file_transfers@,
            viewers: self.viewers,
            alive: self.alive,
        }
    }
}

/// A session that has just been started at the time `started_at`.
pub open spec fn started(
    id: u128,
    spec: SpecView,
    cols: u16,
    rows: u16,
    started_at: Timestamp,
) -> SessionView {
    SessionView {
        id,
        name: spec.name,
        command: spec.command,
        cleanup: spec.cleanup,
        persistent: spec.persistent,
        mode: spec.mode,
        cols,
        rows,
        created_at: started_at,
        inputs: seq![],
        input_open: true,
        input_mode: spec.input_mode,
        events: seq![],
        replay: seq![],
        transfers: FilterView { expected: Set::empty(), streams: Map::empty() },
        viewers: 0,
        alive: true,
    }
}

/// What is told of a session.
#[derive(Debug)]
pub struct SessionSummary {
    /// Its id.
    pub id: u128,
    /// The name that the user sees.
    pub name: String,
    /// The command that is run.
    pub command: String,
    /// How it is run.
    pub mode: SessionMode,
    /// How many columns the terminal has.
    pub cols: u16,
    /// How many rows the terminal has.
    pub rows: u16,
    /// When it was started.
    pub created_at: Timestamp,
    /// How many viewers there are.
    pub viewers: usize,
    /// Whether the terminal runs.
    pub alive: bool,
}

/// What a summary holds.
#[verifier::ext_equal]
pub struct SummaryView {
    pub id: u128,
    pub name: Text,
    pub command: Text,
    pub mode: SessionMode,
    pub cols: u16,
    pub rows: u16,
    pub created_at: Timestamp,
    pub viewers: usize,
    pub alive: bool,
}

impl View for SessionSummary {
    type V = SummaryView;

    open spec fn view(&self) -> SummaryView {
        SummaryView {
            id: self.id,
            name: self.name@,
            command: self.command@,
            mode: self.mode,
            cols: self.cols,
            rows: self.rows,
            created_at: self.created_at,
            viewers: self.viewers,
            alive: self.alive,
        }
    }
}

/// What is told of a session.
pub open spec fn summary_of(s: SessionView) -> SummaryView {
    SummaryView {
        id: s.id,
        name: s.name,
        command: s.command,
        mode: s.mode,
        cols: s.cols,
        rows: s.rows,
        created_at: s.created_at,
        viewers: s.viewers,
        alive: s.alive,
    }
}

/// The session once the terminal is to be given `input`.
pub open spec fn sent(s: SessionView, input: InputView) -> SessionView {
    if s.input_open {
        SessionView { inputs: s.inputs.push(input), ..s }
    } else {
        s
    }
}

/// Whether the terminal takes input.
pub open spec fn send_result(s: SessionView) -> Result<(), SessionError> {
    if s.input_open {
        Ok(())
    } else {
        Err(SessionError::InputClosed)
    }
}

impl TerminalSession {
    /// A session that has just been started at the time `started_at`.
    pub fn start_at(
        id: u128,
        spec: SessionSpec,
        cols: u16,
        rows: u16,
        started_at: Timestamp,
    ) -> (res: Self)
        ensures
            res@ == started(id, spec@, cols, rows, started_at),
    {
        let SessionSpec { name, command, cleanup_command, mode, input_mode, persistent } = spec;
        let inputs: VecDeque<PtyInput> = VecDeque::new();
        let events: Vec<SessionEvent> = Vec::new();
        assert(views(inputs@) =~= Seq::<InputView>::empty());
        assert(views(events@) =~= Seq::<EventView>::empty());
        TerminalSession {
            id,
            name,
            command,
            cleanup_command,
            persistent,
            mode,
            cols,
            rows,
            created_at: started_at,
            inputs,
            input_open: true,
            input_mode,
            events,
            replay: ReplayBuffer::new(),
            file_transfers: FileTransferFilter::new(),
            viewers: 0,
            alive: true,
        }
    }

    /// A session that is started now.
    pub fn start(id: u128, spec: SessionSpec, cols: u16, rows: u16) -> (res: Self)
        ensures
            crate::launch::is_clock_time(res@.created_at),
            res@ == started(id, spec@, cols, rows, res@.created_at),
    {
        let now = utc_now();
        TerminalSession::start_at(id, spec, cols, rows, now)
    }

    /// What is told of the session.
    pub fn summary(&self) -> (res: SessionSummary)
        ensures
            res@ == summary_of(self@),
    {
        SessionSummary {
            id: self.id,
            name: self.name.clone(),
            command: self.command.clone(),
            mode: self.mode,
            cols: self.cols,
            rows: self.rows,
            created_at: self.created_at,
            viewers: self.viewers,
            alive: self.is_alive(),
        }
    }

    /// Whether the terminal runs.
    pub fn is_alive(&self) -> (res: bool)
        ensures
            res == self@.alive,
    {
        self.alive
    }

    /// Has the terminal be given `input`.
    fn send(&mut self, input: PtyInput) -> (res: Result<(), SessionError>)
        ensures
            final(self)@ == sent(old(self)@, input@),
            res == send_result(old(self)@),
    {
        if !self.input_open {
            return Err(SessionError::InputClosed);
        }
        let ghost before = views(self.inputs@);
        self.inputs.push_back(input);
        assert(views(self.inputs@) =~= before.push(input@));
        Ok(())
    }

    /// Has the terminal be given what a user typed.
    pub fn write_input(&mut self, data: Vec<u8>, pane_id: Option<String>) -> (res: Result<
        (),
        SessionError,
    >)
        ensures
            final(self)@ == sent(
                old(self)@,
                InputView::User { data: data@, pane: opt_text(pane_id) },
            ),
            res == send_result(old(self)@),
    {
        self.send(PtyInput::User { data, pane_id })
    }

    /// Has the terminal be given a command of a file transfer.
    pub fn write_file_transfer_input(&mut self, data: Vec<u8>, pane_id: Option<String>) -> (res:
        Result<(), SessionError>)
        ensures
            final(self)@ == sent(
                old(self)@,
                InputView::FileTransfer { data: data@, pane: opt_text(pane_id) },
            ),
            res == send_result(old(self)@),
    {
        self.send(PtyInput::FileTransfer { data, pane_id })
    }

    /// Has the terminal be given what a user pasted.
    pub fn write_paste(&mut self, data: Vec<u8>, pane_id: Option<String>) -> (res: Result<
        (),
        SessionError,
    >)
        ensures
            final(self)@ == sent(
                old(self)@,
                InputView::Paste { data: data@, pane: opt_text(pane_id) },
            ),
            res == send_result(old(self)@),
    {
        self.send(PtyInput::Paste { data, pane_id })
    }

    /// Has the terminal be given bytes as they are.
    pub fn write_raw_input(&mut self, data: Vec<u8>) -> (res: Result<(), SessionError>)
        ensures
            final(self)@ == sent(old(self)@, InputView::Raw(data@)),
            res == send_result(old(self)@),
    {
        self.send(PtyInput::Raw(data))
    }

    /// Tells the viewers `event`.
    pub fn tell(&mut self, event: SessionEvent)
        ensures
            final(self)@ == (SessionView { events: old(self)@.events.push(event@), ..old(self)@ }),
    {
        let ghost before = views(self.events@);
        self.events.push(event);
        assert(views(self.events@) =~= before.push(event@));
    }
}

// ---------------------------------------------------------------------------
// Output
// ---------------------------------------------------------------------------

/// The session after the terminal as a whole has put out `chunk`.
pub open spec fn direct_output(s: SessionView, chunk: Seq<u8>) -> SessionView {
    let stream = DIRECT_STREAM_ID@;
    let shown = filter_visible(s.transfers, stream, chunk);
    SessionView {
        transfers: filter_after(s.transfers, stream, chunk),
        replay: pushed(s.replay, shown),
        events: s.events + output_events(shown) + transfer_events(
            filter_events(s.transfers, stream, chunk),
        ),
        ..s
    }
}

/// The input mode after the pane `pane` has put out `chunks`.
pub open spec fn mode_with_output(mode: ModeView, pane: Text, chunks: Seq<Seq<u8>>) -> ModeView {
    match mode {
        ModeView::Control(control) => ModeView::Control(with_output(control, pane, chunks)),
        ModeView::Direct => ModeView::Direct,
    }
}

/// The session after the pane `pane` has put out `chunk`.
pub open spec fn pane_output(s: SessionView, pane: Text, chunk: Seq<u8>) -> SessionView {
    let shown = filter_visible(s.transfers, pane, chunk);
    SessionView {
        transfers: filter_after(s.transfers, pane, chunk),
        input_mode: mode_with_output(s.input_mode, pane, shown),
        events: s.events + pane_events(pane, shown) + transfer_events(
            filter_events(s.transfers, pane, chunk),
        ),
        ..s
    }
}

/// The session once the contents of the pane `pane` are known.
pub open spec fn contents_known(s: SessionView, pane: Text, contents: Seq<u8>) -> SessionView {
    match s.input_mode {
        ModeView::Control(control) => SessionView {
            input_mode: ModeView::Control(with_contents(control, pane, contents)),
            ..s
        },
        ModeView::Direct => s,
    }
}

/// The layout of a session in control mode.
pub open spec fn session_snapshot(s: SessionView) -> Option<SnapshotView> {
    match s.input_mode {
        ModeView::Control(control) => Some(snapshot_of(control)),
        ModeView::Direct => None,
    }
}

/// The pane that a viewer is shown first: the one that has the focus, else the first one.
pub open spec fn preferred_pane(snapshot: SnapshotView) -> Option<Text> {
    match snapshot.active_pane {
        Some(id) => Some(id),
        None => first_pane(snapshot.windows),
    }
}

/// The pane that a new viewer is shown.
pub open spec fn default_pane(s: SessionView) -> Option<Text> {
    match session_snapshot(s) {
        Some(snapshot) => preferred_pane(snapshot),
        None => None,
    }
}

/// What a viewer is sent of the past output of the terminal as a whole.
pub open spec fn session_tail(s: SessionView) -> Seq<Seq<u8>> {
    tail(s.replay, INITIAL_REPLAY_LIMIT_BYTES as nat)
}

/// What a viewer is sent of the past output of the pane `pane`.
pub open spec fn pane_tail(s: SessionView, pane: Text) -> Seq<Seq<u8>> {
    match s.input_mode {
        ModeView::Control(control) => tail(
            replay_of(control, pane),
            INITIAL_REPLAY_LIMIT_BYTES as nat,
        ),
        ModeView::Direct => session_tail(s),
    }
}

/// The pane that a viewer is shown first.
pub fn preferred_pane_id(snapshot: &TmuxStateSnapshot) -> (res: Option<String>)
    ensures
        opt_text(res) == preferred_pane(snapshot@),
{
    match &snapshot.active_pane {
        Some(id) => Some(id.clone()),
        None => first_pane_id(&snapshot.windows),
    }
}

/// The event that tells what became of a transfer.
fn transfer_event(event: FileTransferEvent) -> (res: SessionEvent)
    ensures
        res@ == EventView::Transfer(event@),
{
    match event {
        FileTransferEvent::Download { id, filename_base64, data_base64 } => {
            SessionEvent::FileDownload { id, filename_base64, data_base64 }
        },
        FileTransferEvent::Status { id, status, message } => {
            SessionEvent::FileTransferStatus { id, status, message }
        },
    }
}

impl TerminalSession {
    /// Lets the file transfers look at output of the stream `stream_id`; gives what of it is shown
    /// and what became of transfers.
    pub fn filter_file_transfer_output(&mut self, stream_id: &str, chunk: &[u8]) -> (res: (
        Vec<Vec<u8>>,
        Vec<FileTransferEvent>,
    ))
        ensures
            final(self)@ == (SessionView {
                transfers: filter_after(old(self)@.transfers, stream_id@, chunk@),
                ..old(self)@
            }),
            chunk_views(res.0@) == filter_visible(old(self)@.transfers, stream_id@, chunk@),
            transfer_views(res.1@) == filter_events(old(self)@.transfers, stream_id@, chunk@),
    {
        self.file_transfers.process_output(stream_id, chunk)
    }

    /// Tells the viewers what became of transfers.
    pub fn broadcast_file_transfer_events(&mut self, events: Vec<FileTransferEvent>)
        ensures
            final(self)@ == (SessionView {
                events: old(self)@.events + transfer_events(transfer_views(events@)),
                ..old(self)@
            }),
    {
        let ghost before = self@;
        let ghost all = events@;
        let ghost told = transfer_events(transfer_views(all));
        let mut rest = reversed(events);
        assert(told.take(0) =~= Seq::<EventView>::empty());
        assert(before.events + told.take(0) =~= before.events);
        let ghost mut done: int = 0;
        while rest.len() > 0
            invariant
                told == transfer_events(transfer_views(all)),
                0 <= done <= all.len(),
                rest@.len() == all.len() - done,
                rest@ == all.reverse().take(rest@.len() as int),
                self@ == (SessionView { events: before.events + told.take(done), ..before }),
            decreases rest@.len(),
        {
            let event = rest.pop().unwrap();
            assert(event == all[done]);
            assert(told[done] == EventView::Transfer(event@));
            self.tell(transfer_event(event));
            assert(before.events + told.take(done + 1) =~= (before.events + told.take(done)).push(
                told[done],
            ));
            proof {
                done = done + 1;
            }
        }
        assert(told.take(done) =~= told);
    }

    /// Takes output of the terminal as a whole.
    pub fn append_direct_output(&mut self, chunk: &[u8])
        ensures
            final(self)@ == direct_output(old(self)@, chunk@),
    {
        let ghost before = self@;
        let (visible, events) = self.filter_file_transfer_output(DIRECT_STREAM_ID, chunk);
        let ghost shown = chunk_views(visible@);
        let ghost told = output_events(shown);
        self.replay.push_all(&visible);
        let ghost middle = self@;
        let mut i: usize = 0;
        assert(middle.events + told.take(0) =~= middle.events);
        while i < visible.len()
            invariant
                shown == chunk_views(visible@),
                told == output_events(shown),
                0 <= i <= visible@.len(),
                self@ == (SessionView { events: middle.events + told.take(i as int), ..middle }),
            decreases visible@.len() - i,
        {
            assert(told[i as int] == EventView::Output(visible@[i as int]@));
            self.tell(SessionEvent::Output(visible[i].clone()));
            assert(middle.events + told.take(i + 1) =~= (middle.events + told.take(i as int)).push(
                told[i as int],
            ));
            i += 1;
        }
        assert(told.take(i as int) =~= told);
        self.broadcast_file_transfer_events(events);
    }

    /// Takes output of the pane `pane_id`.
    pub fn append_pane_output(&mut self, pane_id: &str, chunk: &[u8])
        ensures
            final(self)@ == pane_output(old(self)@, pane_id@, chunk@),
    {
        let (visible, events) = self.filter_file_transfer_output(pane_id, chunk);
        let ghost shown = chunk_views(visible@);
        let ghost told = pane_events(pane_id@, shown);
        if let InputMode::TmuxControl(state) = &mut self.input_mode {
            state.push_output(pane_id, &visible);
        }
        let ghost middle = self@;
        let mut i: usize = 0;
        assert(middle.events + told.take(0) =~= middle.events);
        while i < visible.len()
            invariant
                shown == chunk_views(visible@),
                told == pane_events(pane_id@, shown),
                0 <= i <= visible@.len(),
                self@ == (SessionView { events: middle.events + told.take(i as int), ..middle }),
            decreases visible@.len() - i,
        {
            assert(told[i as int] == (EventView::PaneOutput {
                pane: pane_id@,
                data: visible@[i as int]@,
            }));
            self.tell(
                SessionEvent::PaneOutput { pane_id: pane_id.to_string(), data: visible[i].clone() },
            );
            assert(middle.events + told.take(i + 1) =~= (middle.events + told.take(i as int)).push(
                told[i as int],
            ));
            i += 1;
        }
        assert(told.take(i as int) =~= told);
        self.broadcast_file_transfer_events(events);
    }

    /// Holds `snapshot` as the output of the pane `pane_id`, in place of what was held.
    pub fn replace_pane_snapshot(&mut self, pane_id: &str, snapshot: Vec<u8>)
        ensures
            final(self)@ == contents_known(old(self)@, pane_id@, snapshot@),
    {
        if let InputMode::TmuxControl(state) = &mut self.input_mode {
            state.replace_output(pane_id, snapshot);
        }
    }

    /// What a viewer is sent of the past output of the terminal as a whole.
    pub fn replay_tail_chunks(&self) -> (res: Vec<Vec<u8>>)
        ensures
            chunk_views(res@) == session_tail(self@),
    {
        self.replay.tail_chunks(INITIAL_REPLAY_LIMIT_BYTES)
    }

    /// What a viewer is sent of the past output of the pane `pane_id`.
    pub fn replay_pane_tail_chunks(&self, pane_id: &str) -> (res: Vec<Vec<u8>>)
        ensures
            chunk_views(res@) == pane_tail(self@, pane_id@),
    {
        match &self.input_mode {
            InputMode::TmuxControl(state) => match state.pane_replay.get(pane_id) {
                Some(replay) => replay.tail_chunks(INITIAL_REPLAY_LIMIT_BYTES),
                None => {
                    let none: Vec<Vec<u8>> = Vec::new();
                    assert(chunk_views(none@) =~= tail(
                        Seq::<Seq<u8>>::empty(),
                        INITIAL_REPLAY_LIMIT_BYTES as nat,
                    ));
                    none
                },
            },
            InputMode::Direct => self.replay_tail_chunks(),
        }
    }

    /// The layout of a session in control mode.
    pub fn tmux_state_snapshot(&self) -> (res: Option<TmuxStateSnapshot>)
        ensures
            match res {
                Some(snapshot) => session_snapshot(self@) == Some(snapshot@),
                None => session_snapshot(self@) is None,
            },
    {
        match &self.input_mode {
            InputMode::TmuxControl(state) => Some(state.snapshot()),
            InputMode::Direct => None,
        }
    }

    /// The pane that a new viewer is shown.
    pub fn default_pane_id(&self) -> (res: Option<String>)
        ensures
            opt_text(res) == default_pane(self@),
    {
        match self.tmux_state_snapshot() {
            Some(snapshot) => preferred_pane_id(&snapshot),
            None => None,
        }
    }
}

// ---------------------------------------------------------------------------
// Writing to the terminal
// ---------------------------------------------------------------------------

/// The pause after a command of a file transfer, in milliseconds.
pub const TRANSFER_PAUSE_MILLIS: u64 = 300;

/// Bytes for the terminal.
pub struct PtyWrite {
    /// The bytes.
    pub payload: Vec<u8>,
    /// The pause that follows, in milliseconds.
    pub pause_millis: u64,
}

/// What a write holds.
#[verifier::ext_equal]
pub struct WriteView {
    pub payload: Seq<u8>,
    pub pause_millis: u64,
}

impl View for PtyWrite {
    type V = WriteView;

    open spec fn view(&self) -> WriteView {
        WriteView { payload: self.payload@, pause_millis: self.pause_millis }
    }
}

/// The write that an input becomes.
pub open spec fn write_of(mode: ModeView, input: InputView) -> WriteView {
    WriteView {
        payload: payload(mode, input),
        pause_millis: if input is FileTransfer {
            TRANSFER_PAUSE_MILLIS
        } else {
            0
        },
    }
}

/// The inputs without those in front that become nothing.
pub open spec fn worth_writing(mode: ModeView, inputs: Seq<InputView>) -> Seq<InputView>
    decreases inputs.len(),
{
    if inputs.len() > 0 && payload(mode, inputs[0]).len() == 0 {
        worth_writing(mode, inputs.skip(1))
    } else {
        inputs
    }
}

/// What the terminal is given next.
pub open spec fn next_write(s: SessionView) -> Option<WriteView> {
    let inputs = worth_writing(s.input_mode, s.inputs);
    if inputs.len() == 0 {
        None
    } else {
        Some(write_of(s.input_mode, inputs[0]))
    }
}

/// The session once the terminal was given that.
pub open spec fn written(s: SessionView) -> SessionView {
    let inputs = worth_writing(s.input_mode, s.inputs);
    SessionView {
        inputs: if inputs.len() == 0 {
            inputs
        } else {
            inputs.skip(1)
        },
        ..s
    }
}

impl TerminalSession {
    /// What the terminal is given next. Inputs that become nothing are passed over.
    pub fn take_write(&mut self) -> (res: Option<PtyWrite>)
        ensures
            final(self)@ == written(old(self)@),
            match res {
                Some(write) => next_write(old(self)@) == Some(write@),
                None => next_write(old(self)@) is None,
            },
    {
        let ghost before = self@;
        while self.inputs.len() > 0
            invariant
                before == old(self)@,
                self@ == (SessionView { inputs: self@.inputs, ..before }),
                worth_writing(before.input_mode, before.inputs) == worth_writing(
                    before.input_mode,
                    self@.inputs,
                ),
            decreases self.inputs@.len(),
        {
            let ghost held = self@.inputs;
            let input = self.inputs.pop_front().unwrap();
            assert(held[0] == input@);
            assert(views(self.inputs@) =~= held.skip(1));
            let pause_millis: u64 = match &input {
                PtyInput::FileTransfer { data: _, pane_id: _ } => TRANSFER_PAUSE_MILLIS,
                _ => 0,
            };
            let bytes = encode_pty_input(&self.input_mode, input);
            if bytes.len() > 0 {
                return Some(PtyWrite { payload: bytes, pause_millis });
            }
        }
        assert(self@.inputs =~= Seq::<InputView>::empty());
        None
    }

    /// What the viewers are to be told.
    pub fn take_events(&mut self) -> (res: Vec<SessionEvent>)
        ensures
            views(res@) == old(self)@.events,
            final(self)@ == (SessionView { events: seq![], ..old(self)@ }),
    {
        let mut events: Vec<SessionEvent> = Vec::new();
        core::mem::swap(&mut events, &mut self.events);
        assert(views(self.events@) =~= Seq::<EventView>::empty());
        events
    }

    /// Notes that a viewer has come.
    pub fn viewer_joined(&mut self)
        ensures
            final(self)@ == (SessionView {
                viewers: viewers_after_join(old(self)@.viewers),
                ..old(self)@
            }),
    {
        self.viewers = self.viewers.wrapping_add(1);
    }

    /// Notes that a viewer has gone.
    pub fn viewer_left(&mut self)
        ensures
            final(self)@ == (SessionView {
                viewers: viewers_after_leave(old(self)@.viewers),
                ..old(self)@
            }),
    {
        self.viewers = self.viewers.wrapping_sub(1);
    }
}

/// The number of viewers after one has come; it wraps around.
pub open spec fn viewers_after_join(viewers: usize) -> usize {
    if viewers == usize::MAX {
        0
    } else {
        (viewers + 1) as usize
    }
}

/// The number of viewers after one has gone; it wraps around.
pub open spec fn viewers_after_leave(viewers: usize) -> usize {
    if viewers == 0 {
        usize::MAX
    } else {
        (viewers - 1) as usize
    }
}

/// Whoever comes and goes leaves the number of viewers as it was.
pub proof fn law_leaving_undoes_joining(viewers: usize)
    ensures
        viewers_after_leave(viewers_after_join(viewers)) == viewers,
{
}

} // verus!
