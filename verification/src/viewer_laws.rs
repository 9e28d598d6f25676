//! What a viewer is sent and what becomes of what it sends, message by message.
use vstd::prelude::*;
use vstd::utf8::encode_utf8;
use crate::commands::{tmp_path_text, upload_start_text, valid_transfer_id};
use crate::control::{noted, ControlView};
use crate::errors::SessionError;
use crate::launch::ModeView;
use crate::panes::{SnapshotView, WindowView};
use crate::requests::{
    annotated, chunk_result, commanded, download_asked, rename_result, renamed, resize_text,
    ui_text, upload_continued, upload_finished, upload_started, TmuxResizeDirection, TmuxUiCommand,
};
use crate::session::{
    default_pane, pane_tail, preferred_pane, session_snapshot, session_tail, EventView, InputView,
    SessionView,
};
use crate::text::Text;
use crate::transfer::{filter_without, TransferEventView};
use crate::viewer::{
    event_frames, greeting, has_panes, joined_by_viewer, lacks_panes, left_by_viewer, new_viewer,
    on_frame, viewer_told, ClientFrameView, ClientView, FrameView, Reaction, StepView, UploadView,
    ViewerView,
};

verus! {

// ---------------------------------------------------------------------------
// What is shown
// ---------------------------------------------------------------------------

/// Past output, each chunk as one binary frame, in its order.
pub open spec fn as_frames(chunks: Seq<Seq<u8>>) -> Seq<FrameView> {
    chunks.map_values(|chunk: Seq<u8>| FrameView::Binary(chunk))
}

/// What a viewer is sent that is shown the pane `pane`: which pane it is, that the screen is to be
/// cleared, and the past output of the pane.
pub open spec fn shown_pane(s: SessionView, pane: Text) -> Seq<FrameView> {
    seq![FrameView::FocusPane { pane }, FrameView::Clear] + as_frames(pane_tail(s, pane))
}

proof fn lemma_frames(chunks: Seq<Seq<u8>>)
    ensures
        crate::viewer::binary_frames(chunks) == as_frames(chunks),
{
    assert(crate::viewer::binary_frames(chunks) =~= as_frames(chunks));
}

/// What happens where nothing but `frames` is sent.
pub open spec fn sends(frames: Seq<FrameView>) -> StepView {
    StepView { frames, required: true, close: false, notes: None, error: None }
}

/// What happens where the terminal takes no more input: the viewer is dropped.
pub open spec fn hangs_up() -> StepView {
    StepView {
        frames: seq![],
        required: true,
        close: true,
        notes: None,
        error: Some(SessionError::InputClosed),
    }
}

/// What happens where the transfer `id` is refused: the viewer is told why and stays, whether the
/// answer gets through or not.
pub open spec fn answers(id: Text, e: SessionError) -> StepView {
    StepView {
        frames: seq![
            FrameView::Transfer(
                TransferEventView::Status { id, status: "error"@, message: e.text() },
            ),
        ],
        required: false,
        close: false,
        notes: None,
        error: Some(e),
    }
}

/// A new viewer is sent the past output of the terminal; in control mode the layout comes first, and
/// once there are panes, the pane that it is shown takes the place of the terminal as a whole.
pub proof fn law_new_viewer_is_greeted(s: SessionView)
    ensures
        s.input_mode is Direct ==> greeting(s) == as_frames(session_tail(s)),
        s.input_mode matches ModeView::Control(control) ==> {
            let layout = seq![
                FrameView::TmuxState(
                    SnapshotView { active_pane: control.active_pane, windows: control.windows },
                ),
            ];
            greeting(s) == if has_panes(control.windows) {
                match default_pane(s) {
                    Some(pane) => layout + shown_pane(s, pane),
                    None => layout,
                }
            } else {
                layout + as_frames(session_tail(s))
            }
        },
        s.input_mode matches ModeView::Control(control) ==> (lacks_panes(s) <==> !has_panes(
            control.windows,
        )),
        s.input_mode is Direct ==> !lacks_panes(s),
{
    lemma_frames(session_tail(s));
    if let Some(pane) = default_pane(s) {
        lemma_frames(pane_tail(s, pane));
    }
    if let ModeView::Control(control) = s.input_mode {
        let layout = seq![
            FrameView::TmuxState(
                SnapshotView { active_pane: control.active_pane, windows: control.windows },
            ),
        ];
        let none: Seq<FrameView> = seq![];
        assert(layout + none =~= layout);
    }
}

/// There are panes exactly where some window has one.
pub proof fn law_panes_stand_in_windows(windows: Seq<WindowView>)
    ensures
        has_panes(windows) <==> exists|i: int|
            0 <= i < windows.len() && (#[trigger] windows[i]).panes.len() > 0,
{
}

/// A viewer is shown the pane that has the focus; without one, the first pane of the first window
/// that has panes.
pub proof fn law_viewers_are_shown_the_focus(
    id: Text,
    windows: Seq<WindowView>,
    k: int,
)
    ensures
        preferred_pane(SnapshotView { active_pane: Some(id), windows }) == Some(id),
        !has_panes(windows) ==> preferred_pane(SnapshotView { active_pane: None, windows }) is None,
        0 <= k < windows.len() && windows[k].panes.len() > 0 && (forall|i: int|
            0 <= i < k ==> (#[trigger] windows[i]).panes.len() == 0) ==> preferred_pane(
            SnapshotView { active_pane: None, windows },
        ) == Some(windows[k].panes[0].id),
    decreases windows.len(),
{
    if windows.len() > 0 {
        let rest = windows.skip(1);
        law_viewers_are_shown_the_focus(id, rest, k - 1);
        if !has_panes(windows) {
            assert(windows[0].panes.len() == 0);
            assert forall|i: int| 0 <= i < rest.len() implies (#[trigger] rest[i]).panes.len()
                == 0 by {
                assert(windows[i + 1].panes.len() == 0);
            }
            assert(!has_panes(rest));
            assert(windows[0].panes + crate::panes::all_panes(rest) =~= crate::panes::all_panes(
                rest,
            ));
        }
        if 0 < k < windows.len() && windows[k].panes.len() > 0 && (forall|i: int|
            0 <= i < k ==> (#[trigger] windows[i]).panes.len() == 0) {
            assert(windows[0].panes.len() == 0);
            assert(rest[k - 1] == windows[k]);
            assert forall|i: int| 0 <= i < k - 1 implies (#[trigger] rest[i]).panes.len() == 0 by {
                assert(windows[i + 1].panes.len() == 0);
            }
            assert(windows[0].panes + crate::panes::all_panes(rest) =~= crate::panes::all_panes(
                rest,
            ));
        }
    }
}

/// A new viewer starts with the pane that it is shown and no uploads, and is counted where it is to
/// be; one that goes is counted out.
pub proof fn law_viewers_are_counted(s: SessionView, readonly: bool, counted: bool)
    ensures
        new_viewer(s, readonly, counted) == (ViewerView {
            focused: match s.input_mode {
                ModeView::Control(control) => preferred_pane(
                    SnapshotView { active_pane: control.active_pane, windows: control.windows },
                ),
                ModeView::Direct => None,
            },
            uploads: Map::empty(),
            readonly,
            counted,
        }),
        s.viewers < usize::MAX ==> joined_by_viewer(s, true) == (SessionView {
            viewers: (s.viewers + 1) as usize,
            ..s
        }),
        s.viewers > 0 ==> left_by_viewer(s, true) == (SessionView {
            viewers: (s.viewers - 1) as usize,
            ..s
        }),
        joined_by_viewer(s, false) == s,
        left_by_viewer(s, false) == s,
{
}

// ---------------------------------------------------------------------------
// Events
// ---------------------------------------------------------------------------

/// Output of a pane reaches the viewers that are shown it and no others; what becomes of a transfer
/// reaches all.
pub proof fn law_viewers_are_sent_what_concerns_them(
    v: ViewerView,
    s: SessionView,
    pane: Text,
    data: Seq<u8>,
    event: TransferEventView,
)
    ensures
        v.focused == Some(pane) ==> event_frames(v, s, EventView::PaneOutput { pane, data })
            == seq![FrameView::Binary(data)],
        v.focused != Some(pane) ==> event_frames(v, s, EventView::PaneOutput { pane, data })
            == Seq::<FrameView>::empty(),
        event_frames(v, s, EventView::Transfer(event)) == seq![FrameView::Transfer(event)],
        viewer_told(v, EventView::PaneOutput { pane, data }) == v,
        viewer_told(v, EventView::Transfer(event)) == v,
{
}

/// A layout is sent to every viewer. One that is shown a pane keeps it; one that is not is shown the
/// preferred one first, if there is any.
pub proof fn law_layouts_are_sent(v: ViewerView, s: SessionView, layout: SnapshotView)
    ensures
        v.focused is Some ==> event_frames(v, s, EventView::TmuxState(layout)) == seq![
            FrameView::TmuxState(layout),
        ] && viewer_told(v, EventView::TmuxState(layout)) == v,
        v.focused is None ==> viewer_told(v, EventView::TmuxState(layout)) == (ViewerView {
            focused: preferred_pane(layout),
            ..v
        }),
        v.focused is None && preferred_pane(layout) is None ==> event_frames(
            v,
            s,
            EventView::TmuxState(layout),
        ) == seq![FrameView::TmuxState(layout)],
        v.focused is None && preferred_pane(layout) is Some ==> event_frames(
            v,
            s,
            EventView::TmuxState(layout),
        ) == shown_pane(s, preferred_pane(layout)->0) + seq![FrameView::TmuxState(layout)],
{
    let none: Seq<FrameView> = seq![];
    assert(none.push(FrameView::TmuxState(layout)) =~= seq![FrameView::TmuxState(layout)]);
    if let Some(pane) = preferred_pane(layout) {
        lemma_frames(pane_tail(s, pane));
        assert(shown_pane(s, pane).push(FrameView::TmuxState(layout)) =~= shown_pane(s, pane)
            + seq![FrameView::TmuxState(layout)]);
    }
}

// ---------------------------------------------------------------------------
// Messages
// ---------------------------------------------------------------------------

/// What a viewer that may type does with a message.
pub open spec fn reacts(v: ViewerView, s: SessionView, message: ClientView) -> Reaction {
    on_frame(v, s, ClientFrameView::Message(message))
}

/// The session in which `input` is then to be written.
pub open spec fn queued(s: SessionView, input: InputView) -> SessionView {
    SessionView { inputs: s.inputs.push(input), ..s }
}

/// What is typed goes to the pane that the viewer is shown, as text or as bytes; a viewer of a
/// terminal that takes no input is dropped.
pub proof fn law_typing_goes_to_the_shown_pane(
    v: ViewerView,
    s: SessionView,
    text: Text,
    data: Seq<u8>,
)
    requires
        !v.readonly,
    ensures
        s.input_open ==> on_frame(v, s, ClientFrameView::Binary(data)) == (Reaction {
            viewer: v,
            session: queued(s, InputView::User { data, pane: v.focused }),
            step: sends(seq![]),
        }),
        !s.input_open ==> on_frame(v, s, ClientFrameView::Binary(data)) == (Reaction {
            viewer: v,
            session: s,
            step: hangs_up(),
        }),
        on_frame(v, s, ClientFrameView::Text(text)) == on_frame(
            v,
            s,
            ClientFrameView::Binary(encode_utf8(text)),
        ),
{
}

/// A ping is answered with its own data, a pong with nothing, and a viewer that closes is let go,
/// whether it may type or not.
pub proof fn law_pings_are_answered(v: ViewerView, s: SessionView, data: Seq<u8>)
    ensures
        on_frame(v, s, ClientFrameView::Ping(data)) == (Reaction {
            viewer: v,
            session: s,
            step: sends(seq![FrameView::Pong(data)]),
        }),
        on_frame(v, s, ClientFrameView::Pong) == (Reaction {
            viewer: v,
            session: s,
            step: sends(seq![]),
        }),
        on_frame(v, s, ClientFrameView::Close) == (Reaction {
            viewer: v,
            session: s,
            step: StepView { close: true, ..sends(seq![]) },
        }),
{
}

/// A viewer that asks for a pane is shown it, and nothing else happens.
pub proof fn law_asked_pane_is_shown(v: ViewerView, s: SessionView, pane: Text)
    requires
        !v.readonly,
    ensures
        reacts(v, s, ClientView::FocusPane { pane }) == (Reaction {
            viewer: ViewerView { focused: Some(pane), ..v },
            session: s,
            step: sends(shown_pane(s, pane)),
        }),
{
    lemma_frames(pane_tail(s, pane));
}

/// The pane that is named, else the one that the viewer is shown.
pub open spec fn named_or_shown(v: ViewerView, named: Option<Text>) -> Option<Text> {
    if named is Some {
        named
    } else {
        v.focused
    }
}

/// What is pasted goes to the pane that is named, which the viewer is shown from then on, else to
/// the one that it is shown.
pub proof fn law_pasting_goes_to_the_named_pane(
    v: ViewerView,
    s: SessionView,
    data: Text,
    named: Option<Text>,
)
    requires
        !v.readonly,
    ensures
        reacts(v, s, ClientView::Paste { data, pane: named }).viewer == (ViewerView {
            focused: named_or_shown(v, named),
            ..v
        }),
        s.input_open ==> reacts(v, s, ClientView::Paste { data, pane: named }).session == queued(
            s,
            InputView::Paste { data: encode_utf8(data), pane: named_or_shown(v, named) },
        ) && reacts(v, s, ClientView::Paste { data, pane: named }).step == sends(seq![]),
        !s.input_open ==> reacts(v, s, ClientView::Paste { data, pane: named }).session == s
            && reacts(v, s, ClientView::Paste { data, pane: named }).step == hangs_up(),
{
}

/// What tmux is to do is done in the pane that is named, which the viewer is shown from then on, else
/// in the one that it is shown.
pub proof fn law_commands_go_to_the_named_pane(
    v: ViewerView,
    s: SessionView,
    command: TmuxUiCommand,
    named: Option<Text>,
)
    requires
        !v.readonly,
    ensures
        reacts(v, s, ClientView::TmuxCommand { command, pane: named }) == (Reaction {
            viewer: ViewerView { focused: named_or_shown(v, named), ..v },
            session: commanded(s, ui_text(command, named_or_shown(v, named))),
            step: if s.input_open {
                sends(seq![])
            } else {
                hangs_up()
            },
        }),
{
}

/// A pane is resized and shown; a window is renamed.
pub proof fn law_panes_and_windows_are_changed(
    v: ViewerView,
    s: SessionView,
    pane: Text,
    direction: TmuxResizeDirection,
    amount: u16,
    name: Text,
)
    requires
        !v.readonly,
    ensures
        reacts(v, s, ClientView::ResizePane { pane, direction, amount }) == (Reaction {
            viewer: ViewerView { focused: Some(pane), ..v },
            session: commanded(s, resize_text(pane, direction, amount)),
            step: if s.input_open {
                sends(seq![])
            } else {
                hangs_up()
            },
        }),
        reacts(v, s, ClientView::RenameWindow { window: pane, name }) == (Reaction {
            viewer: v,
            session: renamed(s, pane, name),
            step: if rename_result(s, name) is Ok {
                sends(seq![])
            } else {
                hangs_up()
            },
        }),
{
}

/// A note is written down, and in control mode all notes of the session are handed on to be
/// remembered.
pub proof fn law_notes_are_handed_on(
    v: ViewerView,
    s: SessionView,
    control: ControlView,
    pane: Text,
    note: Text,
)
    requires
        !v.readonly,
    ensures
        reacts(v, s, ClientView::SetPaneNote { pane, note }).viewer == v,
        reacts(v, s, ClientView::SetPaneNote { pane, note }).session == annotated(s, pane, note),
        s.input_mode == ModeView::Control(control) ==> reacts(
            v,
            s,
            ClientView::SetPaneNote { pane, note },
        ).step == (StepView {
            notes: Some(noted(control, pane, note).notes),
            ..sends(seq![])
        }),
        s.input_mode is Direct ==> reacts(v, s, ClientView::SetPaneNote { pane, note }).step
            == sends(seq![]),
{
}

/// Whether the transfer `id` can be taken up; if not, why.
pub open spec fn obstacle(s: SessionView, id: Text) -> Option<SessionError> {
    if !valid_transfer_id(id) {
        Some(SessionError::InvalidTransferId)
    } else if !s.input_open {
        Some(SessionError::InputClosed)
    } else {
        None
    }
}

/// What is sent where a transfer is taken up, or where it is refused.
pub open spec fn taken_up(id: Text, obstacle: Option<SessionError>) -> StepView {
    match obstacle {
        None => sends(seq![]),
        Some(e) => answers(id, e),
    }
}

/// A download is asked for in the pane that is named, else in the one that is shown; where it cannot
/// be, the viewer is told why.
pub proof fn law_downloads_are_asked_for(
    v: ViewerView,
    s: SessionView,
    id: Text,
    path: Text,
    named: Option<Text>,
)
    requires
        !v.readonly,
    ensures
        reacts(v, s, ClientView::FileDownload { id, path, pane: named }) == (Reaction {
            viewer: ViewerView { focused: named_or_shown(v, named), ..v },
            session: download_asked(s, id, path, named_or_shown(v, named)),
            step: taken_up(id, obstacle(s, id)),
        }),
{
}

/// An upload is started in the pane that is named, else in the one that is shown, and remembered
/// with its pane and paths; where it cannot be, the viewer is told why and nothing is remembered.
pub proof fn law_uploads_are_started(
    v: ViewerView,
    s: SessionView,
    id: Text,
    path: Text,
    named: Option<Text>,
)
    requires
        !v.readonly,
    ensures
        ({
            let pane = named_or_shown(v, named);
            let tmp_path = path + ".webterminal."@ + id + ".tmp"@;
            reacts(v, s, ClientView::FileUploadStart { id, path, pane: named }) == (Reaction {
                viewer: ViewerView {
                    focused: pane,
                    uploads: if obstacle(s, id) is None {
                        v.uploads.insert(id, UploadView { pane, path, tmp_path })
                    } else {
                        v.uploads
                    },
                    ..v
                },
                session: upload_started(s, id, path, tmp_path, pane),
                step: taken_up(id, obstacle(s, id)),
            })
        }),
{
    assert(tmp_path_text(path, id) == path + ".webterminal."@ + id + ".tmp"@);
}

/// Pieces and the end of an upload go where it was started; those of an upload that is not known
/// come to nothing. A piece that is refused ends the upload.
pub proof fn law_uploads_are_carried_on(v: ViewerView, s: SessionView, id: Text, data: Text)
    requires
        !v.readonly,
    ensures
        !v.uploads.dom().contains(id) ==> reacts(v, s, ClientView::FileUploadChunk { id, data })
            == (Reaction { viewer: v, session: s, step: sends(seq![]) }),
        !v.uploads.dom().contains(id) ==> reacts(v, s, ClientView::FileUploadFinish { id }) == (
        Reaction { viewer: v, session: s, step: sends(seq![]) }),
        v.uploads.dom().contains(id) ==> reacts(v, s, ClientView::FileUploadChunk { id, data }) == (
        Reaction {
            viewer: if chunk_result(s, data) is Ok {
                v
            } else {
                ViewerView { uploads: v.uploads.remove(id), ..v }
            },
            session: upload_continued(s, data, v.uploads[id].tmp_path, v.uploads[id].pane),
            step: match chunk_result(s, data) {
                Ok(_) => sends(seq![]),
                Err(e) => answers(id, e),
            },
        }),
        v.uploads.dom().contains(id) ==> reacts(v, s, ClientView::FileUploadFinish { id }) == (
        Reaction {
            viewer: ViewerView { uploads: v.uploads.remove(id), ..v },
            session: upload_finished(
                s,
                id,
                v.uploads[id].path,
                v.uploads[id].tmp_path,
                v.uploads[id].pane,
            ),
            step: taken_up(id, obstacle(s, id)),
        }),
{
}

/// The commands of an upload are typed into its pane only where its id can name one, and the terminal
/// takes input.
pub proof fn law_uploads_need_an_id(
    s: SessionView,
    id: Text,
    path: Text,
    tmp_path: Text,
    pane: Option<Text>,
)
    ensures
        obstacle(s, id) is Some ==> upload_started(s, id, path, tmp_path, pane) == s
            && upload_finished(s, id, path, tmp_path, pane) == s,
        obstacle(s, id) is None ==> upload_started(s, id, path, tmp_path, pane) == queued(
            s,
            InputView::FileTransfer {
                data: encode_utf8(upload_start_text(path, tmp_path)),
                pane,
            },
        ),
{
}

/// A transfer that is given up is forgotten by the viewer and by its session.
pub proof fn law_transfers_are_given_up(v: ViewerView, s: SessionView, id: Text)
    requires
        !v.readonly,
    ensures
        reacts(v, s, ClientView::FileTransferCancel { id }) == (Reaction {
            viewer: ViewerView { uploads: v.uploads.remove(id), ..v },
            session: SessionView { transfers: filter_without(s.transfers, id), ..s },
            step: sends(seq![]),
        }),
{
}

/// The layout of a session is the one of its control state; without one there is none.
pub proof fn law_layout_is_the_one_that_is_known(s: SessionView)
    ensures
        s.input_mode is Direct ==> session_snapshot(s) is None,
        s.input_mode matches ModeView::Control(control) ==> session_snapshot(s) == Some(
            SnapshotView { active_pane: control.active_pane, windows: control.windows },
        ),
        default_pane(s) == match session_snapshot(s) {
            Some(layout) => preferred_pane(layout),
            None => None,
        },
{
}

} // verus!
