//! A viewer of a session: what it is sent, and what becomes of what it sends.
use vstd::prelude::*;
use vstd::string::*;
use vstd::utf8::encode_utf8;
use crate::commands::{tmp_path_text, upload_tmp_path};
use crate::errors::SessionError;
use crate::launch::ModeView;
use crate::panes::{SnapshotView, TmuxStateSnapshot, TmuxWindow, WindowView};
use crate::replay::chunk_views;
use crate::requests::{
    annotated, chunk_result, commanded, download_asked, rename_result, renamed, resize_text,
    transfer_result, ui_text, upload_continued, upload_finished, upload_started,
    TmuxResizeDirection, TmuxUiCommand,
};
use crate::session::{
    default_pane, pane_tail, preferred_pane, preferred_pane_id, send_result, sent, session_snapshot,
    session_tail, viewers_after_join, viewers_after_leave, EventView, InputView, SessionEvent,
    SessionView, TerminalSession,
};
use crate::table::{views, TextMap};
use crate::text::{copy_opt, opt_is, opt_str, opt_text, Text};
use crate::transfer::{failure, filter_without, TransferEventView};

verus! {

// ---------------------------------------------------------------------------
// Messages
// ---------------------------------------------------------------------------

/// What a viewer can ask for.
#[allow(inconsistent_fields)]
#[derive(Debug)]
pub enum ClientMessage {
    /// Show a pane.
    FocusPane { pane_id: String },
    /// Have tmux do something in a pane.
    TmuxCommand { command: TmuxUiCommand, pane_id: Option<String> },
    /// Paste text into a pane.
    Paste { data: String, pane_id: Option<String> },
    /// Resize a pane.
    ResizePane { pane_id: String, direction: TmuxResizeDirection, amount: u16 },
    /// Give a window a name.
    RenameWindow { window_id: String, name: String },
    /// Note something down about a pane.
    SetPaneNote { pane_id: String, note: String },
    /// Send a file over.
    FileDownload { id: String, path: String, pane_id: Option<String> },
    /// Start to take a file.
    FileUploadStart { id: String, path: String, pane_id: Option<String> },
    /// Take a piece of a file.
    FileUploadChunk { id: String, data: String },
    /// Put a file that was taken in its place.
    FileUploadFinish { id: String },
    /// Give a transfer up.
    FileTransferCancel { id: String },
}

/// What a message of a viewer holds.
#[allow(inconsistent_fields)]
#[verifier::ext_equal]
pub enum ClientView {
    FocusPane { pane: Text },
    TmuxCommand { command: TmuxUiCommand, pane: Option<Text> },
    Paste { data: Text, pane: Option<Text> },
    ResizePane { pane: Text, direction: TmuxResizeDirection, amount: u16 },
    RenameWindow { window: Text, name: Text },
    SetPaneNote { pane: Text, note: Text },
    FileDownload { id: Text, path: Text, pane: Option<Text> },
    FileUploadStart { id: Text, path: Text, pane: Option<Text> },
    FileUploadChunk { id: Text, data: Text },
    FileUploadFinish { id: Text },
    FileTransferCancel { id: Text },
}

impl View for ClientMessage {
    type V = ClientView;

    open spec fn view(&self) -> ClientView {
        match self {
            ClientMessage::FocusPane { pane_id } => ClientView::FocusPane { pane: pane_id@ },
            ClientMessage::TmuxCommand { command, pane_id } => ClientView::TmuxCommand {
                command: *command,
                pane: opt_text(*pane_id),
            },
            ClientMessage::Paste { data, pane_id } => ClientView::Paste {
                data: data@,
                pane: opt_text(*pane_id),
            },
            ClientMessage::ResizePane { pane_id, direction, amount } => ClientView::ResizePane {
                pane: pane_id@,
                direction: *direction,
                amount: *amount,
            },
            ClientMessage::RenameWindow { window_id, name } => ClientView::RenameWindow {
                window: window_id@,
                name: name@,
            },
            ClientMessage::SetPaneNote { pane_id, note } => ClientView::SetPaneNote {
                pane: pane_id@,
                note: note@,
            },
            ClientMessage::FileDownload { id, path, pane_id } => ClientView::FileDownload {
                id: id@,
                path: path@,
                pane: opt_text(*pane_id),
            },
            ClientMessage::FileUploadStart { id, path, pane_id } => ClientView::FileUploadStart {
                id: id@,
                path: path@,
                pane: opt_text(*pane_id),
            },
            ClientMessage::FileUploadChunk { id, data } => ClientView::FileUploadChunk {
                id: id@,
                data: data@,
            },
            ClientMessage::FileUploadFinish { id } => ClientView::FileUploadFinish { id: id@ },
            ClientMessage::FileTransferCancel { id } => ClientView::FileTransferCancel { id: id@ },
        }
    }
}

/// What comes from a viewer.
pub enum ClientFrame {
    /// A message.
    Message(ClientMessage),
    /// Text that is no message.
    Text(String),
    /// Bytes.
    Binary(Vec<u8>),
    /// A question whether the other side is there.
    Ping(Vec<u8>),
    /// The answer to one.
    Pong,
    /// The end: the viewer has gone, or cannot be heard.
    Close,
}

/// What a frame of a viewer holds.
#[verifier::ext_equal]
pub enum ClientFrameView {
    Message(ClientView),
    Text(Text),
    Binary(Seq<u8>),
    Ping(Seq<u8>),
    Pong,
    Close,
}

impl View for ClientFrame {
    type V = ClientFrameView;

    open spec fn view(&self) -> ClientFrameView {
        match self {
            ClientFrame::Message(message) => ClientFrameView::Message(message@),
            ClientFrame::Text(text) => ClientFrameView::Text(text@),
            ClientFrame::Binary(data) => ClientFrameView::Binary(data@),
            ClientFrame::Ping(data) => ClientFrameView::Ping(data@),
            ClientFrame::Pong => ClientFrameView::Pong,
            ClientFrame::Close => ClientFrameView::Close,
        }
    }
}

/// What a viewer is told.
#[derive(Debug)]
pub enum ServerMessage {
    /// Forget what is shown.
    Clear,
    /// Another pane is shown from here on.
    FocusPane { pane_id: String },
    /// The layout.
    TmuxState { state: TmuxStateSnapshot },
    /// A file has come over.
    FileDownload { id: String, filename_base64: String, data_base64: String },
    /// A transfer has changed its state.
    FileTransferStatus { id: String, status: String, message: String },
}

/// What a viewer is sent.
pub enum ServerFrame {
    /// A message.
    Message(ServerMessage),
    /// Output.
    Binary(Vec<u8>),
    /// The answer to a question whether the other side is there.
    Pong(Vec<u8>),
}

/// What a frame for a viewer holds.
#[verifier::ext_equal]
pub enum FrameView {
    Clear,
    FocusPane { pane: Text },
    TmuxState(SnapshotView),
    Transfer(TransferEventView),
    Binary(Seq<u8>),
    Pong(Seq<u8>),
}

impl View for ServerFrame {
    type V = FrameView;

    open spec fn view(&self) -> FrameView {
        match self {
            ServerFrame::Message(message) => match message {
                ServerMessage::Clear => FrameView::Clear,
                ServerMessage::FocusPane { pane_id } => FrameView::FocusPane { pane: pane_id@ },
                ServerMessage::TmuxState { state } => FrameView::TmuxState(state@),
                ServerMessage::FileDownload { id, filename_base64, data_base64 } =>
                    FrameView::Transfer(
                    TransferEventView::Download {
                        id: id@,
                        filename: filename_base64@,
                        data: data_base64@,
                    },
                ),
                ServerMessage::FileTransferStatus { id, status, message } => FrameView::Transfer(
                    TransferEventView::Status { id: id@, status: status@, message: message@ },
                ),
            },
            ServerFrame::Binary(data) => FrameView::Binary(data@),
            ServerFrame::Pong(data) => FrameView::Pong(data@),
        }
    }
}

// ---------------------------------------------------------------------------
// Viewers
// ---------------------------------------------------------------------------

/// An upload that has been started.
pub struct UploadState {
    /// The pane in which it runs.
    pub pane_id: Option<String>,
    /// Where the file goes.
    pub path: String,
    /// Where it is put together.
    pub tmp_path: String,
}

/// What an upload holds.
#[verifier::ext_equal]
pub struct UploadView {
    pub pane: Option<Text>,
    pub path: Text,
    pub tmp_path: Text,
}

impl View for UploadState {
    type V = UploadView;

    open spec fn view(&self) -> UploadView {
        UploadView {
            pane: opt_text(self.pane_id),
            path: self.path@,
            tmp_path: self.tmp_path@,
        }
    }
}

/// A viewer of a session.
pub struct SocketViewer {
    /// The pane that is shown.
    pub focused_pane: Option<String>,
    /// The uploads that have been started, by their ids.
    pub uploads: TextMap<UploadState>,
    /// Whether it may only look.
    pub readonly: bool,
    /// Whether it counts as a viewer.
    pub count_viewer: bool,
}

/// What a viewer holds.
#[verifier::ext_equal]
pub struct ViewerView {
    pub focused: Option<Text>,
    pub uploads: Map<Text, UploadView>,
    pub readonly: bool,
    pub counted: bool,
}

impl View for SocketViewer {
    type V = ViewerView;

    open spec fn view(&self) -> ViewerView {
        ViewerView {
            focused: opt_text(self.focused_pane),
            uploads: self.uploads@,
            readonly: self.readonly,
            counted: self.count_viewer,
        }
    }
}

/// What is to be done for a viewer.
pub struct ViewerStep {
    /// What it is sent.
    pub frames: Vec<ServerFrame>,
    /// Whether it is dropped where that cannot be sent.
    pub required: bool,
    /// Whether it is dropped in any case.
    pub close: bool,
    /// The notes that are to be remembered.
    pub notes: Option<TextMap<String>>,
    /// What went wrong.
    pub error: Option<SessionError>,
}

/// What a step holds.
#[verifier::ext_equal]
pub struct StepView {
    pub frames: Seq<FrameView>,
    pub required: bool,
    pub close: bool,
    pub notes: Option<Map<Text, Text>>,
    pub error: Option<SessionError>,
}

/// What optional notes hold.
pub open spec fn opt_notes(value: Option<TextMap<String>>) -> Option<Map<Text, Text>> {
    match value {
        Some(notes) => Some(notes@),
        None => None,
    }
}

impl View for ViewerStep {
    type V = StepView;

    open spec fn view(&self) -> StepView {
        StepView {
            frames: views(self.frames@),
            required: self.required,
            close: self.close,
            notes: opt_notes(self.notes),
            error: self.error,
        }
    }
}

/// What becomes of a viewer and its session.
#[verifier::ext_equal]
pub struct Reaction {
    pub viewer: ViewerView,
    pub session: SessionView,
    pub step: StepView,
}

/// The viewer is sent `frames`.
pub open spec fn showing(frames: Seq<FrameView>) -> StepView {
    StepView { frames, required: true, close: false, notes: None, error: None }
}

/// Nothing is to be done.
pub open spec fn quiet() -> StepView {
    showing(seq![])
}

/// The viewer is dropped.
pub open spec fn dropped() -> StepView {
    StepView { close: true, ..quiet() }
}

/// The viewer is dropped where something went wrong.
pub open spec fn unless_failed(result: Result<(), SessionError>) -> StepView {
    match result {
        Ok(_) => quiet(),
        Err(e) => StepView { close: true, error: Some(e), ..quiet() },
    }
}

/// The viewer is told, if that can be sent, that the transfer `id` went wrong.
pub open spec fn refused(id: Text, e: SessionError) -> StepView {
    StepView {
        frames: seq![FrameView::Transfer(failure(id, e.text()))],
        required: false,
        close: false,
        notes: None,
        error: Some(e),
    }
}

/// Output, chunk by chunk.
pub open spec fn binary_frames(chunks: Seq<Seq<u8>>) -> Seq<FrameView> {
    Seq::new(chunks.len(), |i: int| FrameView::Binary(chunks[i]))
}

/// What a viewer is sent when it is shown another pane.
pub open spec fn focus_frames(s: SessionView, pane: Text) -> Seq<FrameView> {
    seq![FrameView::FocusPane { pane }, FrameView::Clear] + binary_frames(pane_tail(s, pane))
}

/// Whether a layout has panes.
pub open spec fn has_panes(windows: Seq<WindowView>) -> bool {
    exists|i: int| 0 <= i < windows.len() && (#[trigger] windows[i]).panes.len() > 0
}

/// A new viewer of a session.
pub open spec fn new_viewer(s: SessionView, readonly: bool, counted: bool) -> ViewerView {
    ViewerView { focused: default_pane(s), uploads: Map::empty(), readonly, counted }
}

/// What a new viewer is sent: the layout if there is one, and past output.
pub open spec fn greeting(s: SessionView) -> Seq<FrameView> {
    match session_snapshot(s) {
        Some(snapshot) => seq![FrameView::TmuxState(snapshot)] + if has_panes(snapshot.windows) {
            match default_pane(s) {
                Some(pane) => focus_frames(s, pane),
                None => seq![],
            }
        } else {
            binary_frames(session_tail(s))
        },
        None => binary_frames(session_tail(s)),
    }
}

/// The session once a viewer has come.
pub open spec fn joined_by_viewer(s: SessionView, counted: bool) -> SessionView {
    if counted {
        SessionView { viewers: viewers_after_join(s.viewers), ..s }
    } else {
        s
    }
}

/// The session once a viewer has gone.
pub open spec fn left_by_viewer(s: SessionView, counted: bool) -> SessionView {
    if counted {
        SessionView { viewers: viewers_after_leave(s.viewers), ..s }
    } else {
        s
    }
}

/// Whether the layout is to be asked for again once a new viewer was sent its greeting: there is
/// one, and it has no panes.
pub open spec fn lacks_panes(s: SessionView) -> bool {
    match session_snapshot(s) {
        Some(snapshot) => !has_panes(snapshot.windows),
        None => false,
    }
}

/// The pane that is meant: the one that is named, else the one that is shown.
pub open spec fn meant(v: ViewerView, named: Option<Text>) -> Option<Text> {
    match named {
        Some(pane) => Some(pane),
        None => v.focused,
    }
}

/// The viewer once it has named a pane, which is shown from there on.
pub open spec fn naming(v: ViewerView, named: Option<Text>) -> ViewerView {
    ViewerView { focused: meant(v, named), ..v }
}

/// What becomes of a message that asks for a file.
pub open spec fn on_download(
    v: ViewerView,
    s: SessionView,
    id: Text,
    path: Text,
    named: Option<Text>,
) -> Reaction {
    Reaction {
        viewer: naming(v, named),
        session: download_asked(s, id, path, meant(v, named)),
        step: match transfer_result(s, id) {
            Ok(_) => quiet(),
            Err(e) => refused(id, e),
        },
    }
}

/// What becomes of a message that starts to send a file.
pub open spec fn on_upload_start(
    v: ViewerView,
    s: SessionView,
    id: Text,
    path: Text,
    named: Option<Text>,
) -> Reaction {
    let pane = meant(v, named);
    let tmp_path = tmp_path_text(path, id);
    Reaction {
        viewer: match transfer_result(s, id) {
            Ok(_) => ViewerView {
                uploads: v.uploads.insert(id, UploadView { pane, path, tmp_path }),
                ..naming(v, named)
            },
            Err(_) => naming(v, named),
        },
        session: upload_started(s, id, path, tmp_path, pane),
        step: match transfer_result(s, id) {
            Ok(_) => quiet(),
            Err(e) => refused(id, e),
        },
    }
}

/// What becomes of a message that holds a piece of a file.
pub open spec fn on_upload_chunk(v: ViewerView, s: SessionView, id: Text, data: Text) -> Reaction {
    if v.uploads.dom().contains(id) {
        let upload = v.uploads[id];
        Reaction {
            viewer: match chunk_result(s, data) {
                Ok(_) => v,
                Err(_) => ViewerView { uploads: v.uploads.remove(id), ..v },
            },
            session: upload_continued(s, data, upload.tmp_path, upload.pane),
            step: match chunk_result(s, data) {
                Ok(_) => quiet(),
                Err(e) => refused(id, e),
            },
        }
    } else {
        Reaction { viewer: v, session: s, step: quiet() }
    }
}

/// What becomes of a message that ends a file.
pub open spec fn on_upload_finish(v: ViewerView, s: SessionView, id: Text) -> Reaction {
    if v.uploads.dom().contains(id) {
        let upload = v.uploads[id];
        Reaction {
            viewer: ViewerView { uploads: v.uploads.remove(id), ..v },
            session: upload_finished(s, id, upload.path, upload.tmp_path, upload.pane),
            step: match transfer_result(s, id) {
                Ok(_) => quiet(),
                Err(e) => refused(id, e),
            },
        }
    } else {
        Reaction { viewer: v, session: s, step: quiet() }
    }
}

/// What becomes of a message.
pub open spec fn on_message(v: ViewerView, s: SessionView, message: ClientView) -> Reaction {
    match message {
        ClientView::FocusPane { pane } => Reaction {
            viewer: naming(v, Some(pane)),
            session: s,
            step: showing(focus_frames(s, pane)),
        },
        ClientView::TmuxCommand { command, pane } => Reaction {
            viewer: naming(v, pane),
            session: commanded(s, ui_text(command, meant(v, pane))),
            step: unless_failed(send_result(s)),
        },
        ClientView::Paste { data, pane } => Reaction {
            viewer: naming(v, pane),
            session: sent(
                s,
                InputView::Paste { data: encode_utf8(data), pane: meant(v, pane) },
            ),
            step: unless_failed(send_result(s)),
        },
        ClientView::ResizePane { pane, direction, amount } => Reaction {
            viewer: naming(v, Some(pane)),
            session: commanded(s, resize_text(pane, direction, amount)),
            step: unless_failed(send_result(s)),
        },
        ClientView::RenameWindow { window, name } => Reaction {
            viewer: v,
            session: renamed(s, window, name),
            step: unless_failed(rename_result(s, name)),
        },
        ClientView::SetPaneNote { pane, note } => Reaction {
            viewer: v,
            session: annotated(s, pane, note),
            step: StepView {
                notes: match annotated(s, pane, note).input_mode {
                    ModeView::Control(control) => Some(control.notes),
                    ModeView::Direct => None,
                },
                ..quiet()
            },
        },
        ClientView::FileDownload { id, path, pane } => on_download(v, s, id, path, pane),
        ClientView::FileUploadStart { id, path, pane } => on_upload_start(v, s, id, path, pane),
        ClientView::FileUploadChunk { id, data } => on_upload_chunk(v, s, id, data),
        ClientView::FileUploadFinish { id } => on_upload_finish(v, s, id),
        ClientView::FileTransferCancel { id } => Reaction {
            viewer: ViewerView { uploads: v.uploads.remove(id), ..v },
            session: SessionView { transfers: filter_without(s.transfers, id), ..s },
            step: quiet(),
        },
    }
}

/// What becomes of bytes that a viewer types.
pub open spec fn on_typed(v: ViewerView, s: SessionView, data: Seq<u8>) -> Reaction {
    Reaction {
        viewer: v,
        session: sent(s, InputView::User { data, pane: v.focused }),
        step: unless_failed(send_result(s)),
    }
}

/// What becomes of a frame of a viewer. One that may only look is not listened to.
pub open spec fn on_frame(v: ViewerView, s: SessionView, frame: ClientFrameView) -> Reaction {
    let idle = Reaction { viewer: v, session: s, step: quiet() };
    match frame {
        ClientFrameView::Message(message) => if v.readonly {
            idle
        } else {
            on_message(v, s, message)
        },
        ClientFrameView::Text(text) => if v.readonly {
            idle
        } else {
            on_typed(v, s, encode_utf8(text))
        },
        ClientFrameView::Binary(data) => if v.readonly {
            idle
        } else {
            on_typed(v, s, data)
        },
        ClientFrameView::Ping(data) => Reaction {
            step: showing(seq![FrameView::Pong(data)]),
            ..idle
        },
        ClientFrameView::Pong => idle,
        ClientFrameView::Close => Reaction { step: dropped(), ..idle },
    }
}

/// The viewer once its session has told it something.
pub open spec fn viewer_told(v: ViewerView, event: EventView) -> ViewerView {
    match event {
        EventView::TmuxState(state) => if v.focused is None {
            ViewerView { focused: preferred_pane(state), ..v }
        } else {
            v
        },
        _ => v,
    }
}

/// What a viewer is sent of what its session tells. Output of a pane is for those who are shown it;
/// who is shown none yet is shown one as soon as there is one.
pub open spec fn event_frames(v: ViewerView, s: SessionView, event: EventView) -> Seq<FrameView> {
    match event {
        EventView::Output(data) => seq![FrameView::Binary(data)],
        EventView::PaneOutput { pane, data } => if v.focused == Some(pane) {
            seq![FrameView::Binary(data)]
        } else {
            seq![]
        },
        EventView::TmuxState(state) => {
            let shown = if v.focused is None && preferred_pane(state) is Some {
                focus_frames(s, preferred_pane(state)->0)
            } else {
                seq![]
            };
            shown.push(FrameView::TmuxState(state))
        },
        EventView::Transfer(event) => seq![FrameView::Transfer(event)],
    }
}

// ---------------------------------------------------------------------------
// What is done
// ---------------------------------------------------------------------------

/// Whether a layout has panes.
fn layout_has_panes(windows: &Vec<TmuxWindow>) -> (res: bool)
    ensures
        res == has_panes(views(windows@)),
{
    let ghost all = views(windows@);
    let mut i: usize = 0;
    while i < windows.len()
        invariant
            all == views(windows@),
            0 <= i <= windows@.len(),
            forall|j: int| 0 <= j < i ==> (#[trigger] all[j]).panes.len() == 0,
        decreases windows@.len() - i,
    {
        assert(all[i as int] == windows@[i as int]@);
        if windows[i].panes.len() > 0 {
            assert(all[i as int].panes.len() > 0);
            return true;
        }
        i += 1;
    }
    false
}

/// Adds output to what a viewer is sent.
fn push_binary(frames: &mut Vec<ServerFrame>, chunks: Vec<Vec<u8>>)
    ensures
        views(final(frames)@) == views(old(frames)@) + binary_frames(chunk_views(chunks@)),
{
    let ghost before = views(frames@);
    let ghost all = binary_frames(chunk_views(chunks@));
    let mut i: usize = 0;
    assert(before + all.take(0) =~= before);
    while i < chunks.len()
        invariant
            all == binary_frames(chunk_views(chunks@)),
            0 <= i <= chunks@.len(),
            views(frames@) == before + all.take(i as int),
        decreases chunks@.len() - i,
    {
        let ghost step = views(frames@);
        frames.push(ServerFrame::Binary(chunks[i].clone()));
        assert(all[i as int] == FrameView::Binary(chunks@[i as int]@));
        assert(views(frames@) =~= step.push(all[i as int]));
        assert(before + all.take(i + 1) =~= step.push(all[i as int]));
        i += 1;
    }
    assert(all.take(i as int) =~= all);
}

/// Adds what a viewer is sent when it is shown the pane `pane_id`.
fn push_focus(frames: &mut Vec<ServerFrame>, session: &TerminalSession, pane_id: &str)
    ensures
        views(final(frames)@) == views(old(frames)@) + focus_frames(session@, pane_id@),
{
    let ghost before = views(frames@);
    frames.push(
        ServerFrame::Message(ServerMessage::FocusPane { pane_id: pane_id.to_string() }),
    );
    frames.push(ServerFrame::Message(ServerMessage::Clear));
    assert(views(frames@) =~= before + seq![
        FrameView::FocusPane { pane: pane_id@ },
        FrameView::Clear,
    ]);
    push_binary(frames, session.replay_pane_tail_chunks(pane_id));
    assert(views(frames@) =~= before + focus_frames(session@, pane_id@));
}

/// The viewer is sent `frames`.
fn show(frames: Vec<ServerFrame>) -> (res: ViewerStep)
    ensures
        res@ == showing(views(frames@)),
{
    ViewerStep { frames, required: true, close: false, notes: None, error: None }
}

/// Nothing is to be done.
fn idle() -> (res: ViewerStep)
    ensures
        res@ == quiet(),
{
    let frames: Vec<ServerFrame> = Vec::new();
    assert(views(frames@) =~= Seq::<FrameView>::empty());
    show(frames)
}

/// The viewer is dropped where something went wrong.
fn drop_on_error(result: Result<(), SessionError>) -> (res: ViewerStep)
    ensures
        res@ == unless_failed(result),
{
    let mut step = idle();
    if let Err(e) = result {
        step.close = true;
        step.error = Some(e);
    }
    step
}

/// The viewer is told, if that can be sent, that the transfer `id` went wrong.
fn refuse(id: String, e: SessionError) -> (res: ViewerStep)
    ensures
        res@ == refused(id@, e),
{
    let mut frames: Vec<ServerFrame> = Vec::new();
    frames.push(
        ServerFrame::Message(
            ServerMessage::FileTransferStatus {
                id,
                status: "error".to_string(),
                message: e.message(),
            },
        ),
    );
    assert(views(frames@) =~= refused(id@, e).frames);
    ViewerStep { frames, required: false, close: false, notes: None, error: Some(e) }
}

/// What a new viewer is sent.
pub struct Greeting {
    /// The layout if there is one, and past output.
    pub frames: Vec<ServerFrame>,
    /// Whether the layout is to be asked for again once that was sent.
    pub refresh: bool,
}

/// A string that may be absent, borrowed.
fn borrowed(value: &Option<String>) -> (res: Option<&str>)
    ensures
        opt_str(res) == opt_text(*value),
{
    match value {
        Some(s) => Some(s.as_str()),
        None => None,
    }
}

impl SocketViewer {
    /// Has a viewer join a session; gives what it is sent first.
    pub fn attach(session: &mut TerminalSession, readonly: bool, count_viewer: bool) -> (res: (
        Self,
        Greeting,
    ))
        ensures
            final(session)@ == joined_by_viewer(old(session)@, count_viewer),
            res.0@ == new_viewer(old(session)@, readonly, count_viewer),
            views(res.1.frames@) == greeting(old(session)@),
            res.1.refresh == lacks_panes(old(session)@),
    {
        if count_viewer {
            session.viewer_joined();
        }
        let focused_pane = session.default_pane_id();
        let mut frames: Vec<ServerFrame> = Vec::new();
        let mut refresh = false;
        assert(views(frames@) =~= Seq::<FrameView>::empty());
        match session.tmux_state_snapshot() {
            Some(state) => {
                let shows_panes = layout_has_panes(&state.windows);
                let ghost shown = state@;
                frames.push(ServerFrame::Message(ServerMessage::TmuxState { state }));
                assert(views(frames@) =~= seq![FrameView::TmuxState(shown)]);
                if shows_panes {
                    if let Some(pane_id) = &focused_pane {
                        push_focus(&mut frames, session, pane_id.as_str());
                    }
                } else {
                    push_binary(&mut frames, session.replay_tail_chunks());
                    refresh = true;
                }
            },
            None => {
                push_binary(&mut frames, session.replay_tail_chunks());
            },
        }
        assert(views(frames@) =~= greeting(old(session)@));
        let viewer = SocketViewer {
            focused_pane,
            uploads: TextMap::new(),
            readonly,
            count_viewer,
        };
        (viewer, Greeting { frames, refresh })
    }

    /// Has a viewer leave its session.
    pub fn detach(&self, session: &mut TerminalSession)
        ensures
            final(session)@ == left_by_viewer(old(session)@, self@.counted),
    {
        if self.count_viewer {
            session.viewer_left();
        }
    }

    /// The pane that is meant, which is shown from here on.
    fn target(&mut self, pane_id: Option<String>) -> (res: Option<String>)
        ensures
            final(self)@ == naming(old(self)@, opt_text(pane_id)),
            opt_text(res) == meant(old(self)@, opt_text(pane_id)),
    {
        if pane_id.is_some() {
            self.focused_pane = pane_id;
        }
        copy_opt(&self.focused_pane)
    }

    /// Takes a message that asks for a file.
    fn on_file_download(
        &mut self,
        session: &mut TerminalSession,
        id: String,
        path: String,
        pane_id: Option<String>,
    ) -> (res: ViewerStep)
        ensures
            (Reaction { viewer: final(self)@, session: final(session)@, step: res@ })
                == on_download(old(self)@, old(session)@, id@, path@, opt_text(pane_id)),
    {
        let target = self.target(pane_id);
        match session.start_file_download(id.as_str(), path.as_str(), target) {
            Ok(()) => idle(),
            Err(e) => refuse(id, e),
        }
    }

    /// Takes a message that starts to send a file.
    fn on_file_upload_start(
        &mut self,
        session: &mut TerminalSession,
        id: String,
        path: String,
        pane_id: Option<String>,
    ) -> (res: ViewerStep)
        ensures
            (Reaction { viewer: final(self)@, session: final(session)@, step: res@ })
                == on_upload_start(old(self)@, old(session)@, id@, path@, opt_text(pane_id)),
    {
        let target = self.target(pane_id);
        let tmp_path = upload_tmp_path(path.as_str(), id.as_str());
        let pane = copy_opt(&target);
        match session.start_file_upload(id.as_str(), path.as_str(), tmp_path.as_str(), pane) {
            Ok(()) => {
                self.uploads.insert(id, UploadState { pane_id: target, path, tmp_path });
                idle()
            },
            Err(e) => refuse(id, e),
        }
    }

    /// Takes a message that holds a piece of a file.
    fn on_file_upload_chunk(
        &mut self,
        session: &mut TerminalSession,
        id: String,
        data: String,
    ) -> (res: ViewerStep)
        ensures
            (Reaction { viewer: final(self)@, session: final(session)@, step: res@ })
                == on_upload_chunk(old(self)@, old(session)@, id@, data@),
    {
        let result = match self.uploads.get(id.as_str()) {
            Some(upload) => session.write_file_upload_chunk(
                data.as_str(),
                upload.tmp_path.as_str(),
                copy_opt(&upload.pane_id),
            ),
            None => {
                return idle();
            },
        };
        match result {
            Ok(()) => idle(),
            Err(e) => {
                let _ = self.uploads.remove(id.as_str());
                refuse(id, e)
            },
        }
    }

    /// Takes a message that ends a file.
    fn on_file_upload_finish(&mut self, session: &mut TerminalSession, id: String) -> (res:
        ViewerStep)
        ensures
            (Reaction { viewer: final(self)@, session: final(session)@, step: res@ })
                == on_upload_finish(old(self)@, old(session)@, id@),
    {
        let upload = match self.uploads.remove(id.as_str()) {
            Some(upload) => upload,
            None => {
                assert(self@.uploads =~= old(self)@.uploads);
                return idle();
            },
        };
        match session.finish_file_upload(
            id.as_str(),
            upload.path.as_str(),
            upload.tmp_path.as_str(),
            upload.pane_id,
        ) {
            Ok(()) => idle(),
            Err(e) => refuse(id, e),
        }
    }

    /// Takes a message.
    pub fn on_client_message(
        &mut self,
        session: &mut TerminalSession,
        message: ClientMessage,
    ) -> (res: ViewerStep)
        ensures
            (Reaction { viewer: final(self)@, session: final(session)@, step: res@ })
                == on_message(old(self)@, old(session)@, message@),
    {
        match message {
            ClientMessage::FocusPane { pane_id } => {
                let mut frames: Vec<ServerFrame> = Vec::new();
                assert(views(frames@) =~= Seq::<FrameView>::empty());
                push_focus(&mut frames, session, pane_id.as_str());
                assert(views(frames@) =~= focus_frames(session@, pane_id@));
                self.focused_pane = Some(pane_id);
                show(frames)
            },
            ClientMessage::TmuxCommand { command, pane_id } => {
                let target = self.target(pane_id);
                drop_on_error(session.send_tmux_ui_command(command, borrowed(&target)))
            },
            ClientMessage::Paste { data, pane_id } => {
                let target = self.target(pane_id);
                drop_on_error(session.write_paste(data.as_str().as_bytes_vec(), target))
            },
            ClientMessage::ResizePane { pane_id, direction, amount } => {
                let result = session.resize_tmux_pane(pane_id.as_str(), direction, amount);
                self.focused_pane = Some(pane_id);
                drop_on_error(result)
            },
            ClientMessage::RenameWindow { window_id, name } => {
                drop_on_error(session.rename_tmux_window(window_id.as_str(), name.as_str()))
            },
            ClientMessage::SetPaneNote { pane_id, note } => {
                match session.set_tmux_pane_note(pane_id.as_str(), note.as_str()) {
                    Ok(()) => {
                        let mut step = idle();
                        step.notes = session.pane_notes_snapshot();
                        step
                    },
                    Err(e) => drop_on_error(Err(e)),
                }
            },
            ClientMessage::FileDownload { id, path, pane_id } => {
                self.on_file_download(session, id, path, pane_id)
            },
            ClientMessage::FileUploadStart { id, path, pane_id } => {
                self.on_file_upload_start(session, id, path, pane_id)
            },
            ClientMessage::FileUploadChunk { id, data } => {
                self.on_file_upload_chunk(session, id, data)
            },
            ClientMessage::FileUploadFinish { id } => self.on_file_upload_finish(session, id),
            ClientMessage::FileTransferCancel { id } => {
                let _ = self.uploads.remove(id.as_str());
                session.cancel_file_transfer(id.as_str());
                idle()
            },
        }
    }

    /// Takes bytes that the viewer types.
    fn on_input(&mut self, session: &mut TerminalSession, data: Vec<u8>) -> (res: ViewerStep)
        ensures
            (Reaction { viewer: final(self)@, session: final(session)@, step: res@ }) == on_typed(
                old(self)@,
                old(session)@,
                data@,
            ),
    {
        drop_on_error(session.write_input(data, copy_opt(&self.focused_pane)))
    }

    /// Takes a frame of the viewer.
    pub fn on_client_frame(&mut self, session: &mut TerminalSession, frame: ClientFrame) -> (res:
        ViewerStep)
        ensures
            (Reaction { viewer: final(self)@, session: final(session)@, step: res@ }) == on_frame(
                old(self)@,
                old(session)@,
                frame@,
            ),
    {
        match frame {
            ClientFrame::Message(message) => if self.readonly {
                idle()
            } else {
                self.on_client_message(session, message)
            },
            ClientFrame::Text(text) => if self.readonly {
                idle()
            } else {
                self.on_input(session, text.as_str().as_bytes_vec())
            },
            ClientFrame::Binary(data) => if self.readonly {
                idle()
            } else {
                self.on_input(session, data)
            },
            ClientFrame::Ping(data) => {
                let mut frames: Vec<ServerFrame> = Vec::new();
                frames.push(ServerFrame::Pong(data));
                assert(views(frames@) =~= seq![FrameView::Pong(data@)]);
                show(frames)
            },
            ClientFrame::Pong => idle(),
            ClientFrame::Close => {
                let mut step = idle();
                step.close = true;
                step
            },
        }
    }

    /// Takes what the session tells.
    pub fn on_session_event(&mut self, session: &TerminalSession, event: SessionEvent) -> (res:
        ViewerStep)
        ensures
            final(self)@ == viewer_told(old(self)@, event@),
            res@ == showing(event_frames(old(self)@, session@, event@)),
    {
        let mut frames: Vec<ServerFrame> = Vec::new();
        let ghost expected = event_frames(self@, session@, event@);
        assert(views(frames@) =~= Seq::<FrameView>::empty());
        match event {
            SessionEvent::Output(chunk) => {
                frames.push(ServerFrame::Binary(chunk));
            },
            SessionEvent::PaneOutput { pane_id, data } => {
                if opt_is(&self.focused_pane, pane_id.as_str()) {
                    frames.push(ServerFrame::Binary(data));
                }
            },
            SessionEvent::TmuxState(state) => {
                if self.focused_pane.is_none() {
                    self.focused_pane = preferred_pane_id(&state);
                    if let Some(pane_id) = &self.focused_pane {
                        push_focus(&mut frames, session, pane_id.as_str());
                    }
                }
                let ghost shown = views(frames@);
                let ghost layout = state@;
                frames.push(ServerFrame::Message(ServerMessage::TmuxState { state }));
                assert(views(frames@) =~= shown.push(FrameView::TmuxState(layout)));
            },
            SessionEvent::FileDownload { id, filename_base64, data_base64 } => {
                frames.push(
                    ServerFrame::Message(
                        ServerMessage::FileDownload { id, filename_base64, data_base64 },
                    ),
                );
            },
            SessionEvent::FileTransferStatus { id, status, message } => {
                frames.push(
                    ServerFrame::Message(
                        ServerMessage::FileTransferStatus { id, status, message },
                    ),
                );
            },
        }
        assert(views(frames@) =~= expected);
        show(frames)
    }
}

} // verus!
