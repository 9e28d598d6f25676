//! What a session and its viewers are promised.
use vstd::prelude::*;
use vstd::utf8::{encode_utf8, encode_utf8_decode_utf8, encode_utf8_valid_utf8};
use crate::commands::{
    compacted, is_base64, tmp_path_text, upload_chunk_text, upload_finish_texts, upload_start_text,
    valid_transfer_id,
};
use crate::control::{replay_of, target_pane, ControlView};
use crate::errors::SessionError;
use crate::keys::{control_key, law_plain_text_is_typed, literal_command};
use crate::launch::ModeView;
use crate::lifecycle::zoomed;
use crate::panes::SnapshotView;
use crate::replay::{
    law_push_keeps_what_fits, law_tail_of_short_output, newest, pushed, total,
    INITIAL_REPLAY_LIMIT_BYTES, REPLAY_LIMIT_BYTES,
};
use crate::requests::{exited, resized, transfer_inputs};
use crate::session::{
    default_pane, direct_output, mode_with_output, next_write, output_events, pane_events,
    pane_output, pane_tail, payload, sent, session_snapshot, session_tail, transfer_events,
    worth_writing, written, EventView, InputView, SessionView, WriteView, DIRECT_STREAM_ID,
};
use crate::text::Text;
use crate::transfer::{failure, stream_of, watches, TransferEventView};
use crate::viewer::{
    binary_frames, event_frames, greeting, has_panes, joined_by_viewer, lacks_panes, left_by_viewer,
    meant, on_frame, on_message, on_typed, viewer_told, ClientFrameView, ClientView, FrameView,
    UploadView, ViewerView,
};

verus! {

// ---------------------------------------------------------------------------
// Output
// ---------------------------------------------------------------------------

/// Whether the output of `stream` is not looked at for downloads, and none of it is held back.
pub open spec fn nothing_awaited(s: SessionView, stream: Text) -> bool {
    &&& !watches(s.transfers, stream)
    &&& stream_of(s.transfers, stream).pending == Seq::<u8>::empty()
}

/// What the terminal puts out is told to the viewers as it is, held for those who come later, and
/// changes nothing else.
pub proof fn law_output_is_told_and_held(s: SessionView, chunk: Seq<u8>)
    requires
        nothing_awaited(s, DIRECT_STREAM_ID@),
    ensures
        direct_output(s, chunk) == (SessionView {
            events: s.events.push(EventView::Output(chunk)),
            replay: newest(s.replay.push(chunk), REPLAY_LIMIT_BYTES as nat),
            ..s
        }),
{
    let shown = seq![chunk];
    assert(shown.skip(1) =~= Seq::<Seq<u8>>::empty());
    assert(pushed(s.replay, shown) == pushed(
        newest(s.replay.push(shown[0]), REPLAY_LIMIT_BYTES as nat),
        shown.skip(1),
    ));
    assert(s.events + output_events(shown) + transfer_events(Seq::<TransferEventView>::empty())
        =~= s.events.push(EventView::Output(chunk)));
}

/// What was held back of the output while a download was awaited is told first once it is not
/// awaited any more, and nothing is held back after that.
pub proof fn law_held_output_is_told_first(s: SessionView, pane: Text, chunk: Seq<u8>)
    ensures
        ({
            let held = stream_of(s.transfers, DIRECT_STREAM_ID@).pending;
            let after = direct_output(s, chunk);
            !watches(s.transfers, DIRECT_STREAM_ID@) && held.len() > 0 ==> {
                &&& after.events == s.events + output_events(seq![held, chunk])
                &&& after.replay == pushed(s.replay, seq![held, chunk])
                &&& nothing_awaited(after, DIRECT_STREAM_ID@)
            }
        }),
        ({
            let held = stream_of(s.transfers, pane).pending;
            let after = pane_output(s, pane, chunk);
            !watches(s.transfers, pane) && held.len() > 0 ==> {
                &&& after.events == s.events + pane_events(pane, seq![held, chunk])
                &&& after.input_mode == mode_with_output(s.input_mode, pane, seq![held, chunk])
                &&& nothing_awaited(after, pane)
            }
        }),
{
    let none: Seq<TransferEventView> = seq![];
    let held = stream_of(s.transfers, DIRECT_STREAM_ID@).pending;
    assert(s.events + output_events(seq![held, chunk]) + transfer_events(none) =~= s.events
        + output_events(seq![held, chunk]));
    let held = stream_of(s.transfers, pane).pending;
    assert(s.events + pane_events(pane, seq![held, chunk]) + transfer_events(none) =~= s.events
        + pane_events(pane, seq![held, chunk]));
}

/// Every viewer is sent all output of the terminal as a whole, whichever pane it is shown.
pub proof fn law_output_reaches_every_viewer(v: ViewerView, s: SessionView, data: Seq<u8>)
    ensures
        event_frames(v, s, EventView::Output(data)) == seq![FrameView::Binary(data)],
        viewer_told(v, EventView::Output(data)) == v,
{
}

/// Who joins late has missed nothing: as long as the output is short enough to be sent again, a
/// viewer who was there is sent the same in the end as one who comes after.
pub proof fn law_late_viewers_miss_nothing(v: ViewerView, s: SessionView, chunk: Seq<u8>)
    requires
        s.input_mode is Direct,
        nothing_awaited(s, DIRECT_STREAM_ID@),
        total(s.replay) + chunk.len() < INITIAL_REPLAY_LIMIT_BYTES,
    ensures
        greeting(direct_output(s, chunk)) == greeting(s) + event_frames(
            v,
            direct_output(s, chunk),
            EventView::Output(chunk),
        ),
{
    let limit = INITIAL_REPLAY_LIMIT_BYTES as nat;
    law_output_is_told_and_held(s, chunk);
    law_push_keeps_what_fits(s.replay, chunk, REPLAY_LIMIT_BYTES as nat);
    assert(s.replay.push(chunk).drop_last() =~= s.replay);
    law_tail_of_short_output(s.replay, limit);
    law_tail_of_short_output(s.replay.push(chunk), limit);
    assert(binary_frames(s.replay.push(chunk)) =~= binary_frames(s.replay).push(
        FrameView::Binary(chunk),
    ));
    assert(greeting(direct_output(s, chunk)) =~= greeting(s) + seq![FrameView::Binary(chunk)]);
}

/// What a pane puts out is told to the viewers as it is, held for those who come later, and changes
/// nothing else.
pub proof fn law_pane_output_is_told_and_held(
    s: SessionView,
    control: ControlView,
    pane: Text,
    chunk: Seq<u8>,
)
    requires
        s.input_mode == ModeView::Control(control),
        nothing_awaited(s, pane),
    ensures
        pane_output(s, pane, chunk) == (SessionView {
            events: s.events.push(EventView::PaneOutput { pane, data: chunk }),
            input_mode: ModeView::Control(
                ControlView {
                    replays: control.replays.insert(
                        pane,
                        newest(replay_of(control, pane).push(chunk), REPLAY_LIMIT_BYTES as nat),
                    ),
                    ..control
                },
            ),
            ..s
        }),
{
    let held = replay_of(control, pane);
    let shown = seq![chunk];
    assert(shown.skip(1) =~= Seq::<Seq<u8>>::empty());
    assert(pushed(held, shown) == pushed(
        newest(held.push(shown[0]), REPLAY_LIMIT_BYTES as nat),
        shown.skip(1),
    ));
    assert(s.events + pane_events(pane, shown) + transfer_events(Seq::<TransferEventView>::empty())
        =~= s.events.push(EventView::PaneOutput { pane, data: chunk }));
}

/// Who is shown a pane late has missed nothing of it: as long as its output is short enough to be
/// sent again, a viewer who was shown it is sent the same in the end as one who comes after.
pub proof fn law_late_viewers_of_a_pane_miss_nothing(
    v: ViewerView,
    s: SessionView,
    control: ControlView,
    pane: Text,
    chunk: Seq<u8>,
)
    requires
        s.input_mode == ModeView::Control(control),
        has_panes(control.windows),
        default_pane(s) == Some(pane),
        v.focused == Some(pane),
        nothing_awaited(s, pane),
        total(replay_of(control, pane)) + chunk.len() < INITIAL_REPLAY_LIMIT_BYTES,
    ensures
        greeting(pane_output(s, pane, chunk)) == greeting(s) + event_frames(
            v,
            pane_output(s, pane, chunk),
            EventView::PaneOutput { pane, data: chunk },
        ),
{
    let limit = INITIAL_REPLAY_LIMIT_BYTES as nat;
    let held = replay_of(control, pane);
    law_pane_output_is_told_and_held(s, control, pane, chunk);
    law_push_keeps_what_fits(held, chunk, REPLAY_LIMIT_BYTES as nat);
    assert(held.push(chunk).drop_last() =~= held);
    law_tail_of_short_output(held, limit);
    law_tail_of_short_output(held.push(chunk), limit);
    assert(binary_frames(held.push(chunk)) =~= binary_frames(held).push(FrameView::Binary(chunk)));
    let after = pane_output(s, pane, chunk);
    assert(session_snapshot(after) == session_snapshot(s));
    assert(pane_tail(after, pane) == held.push(chunk));
    assert(greeting(after) =~= greeting(s) + seq![FrameView::Binary(chunk)]);
}

/// While no pane is known, a viewer is shown what the terminal as a whole has put out, and the
/// layout is asked for again.
pub proof fn law_no_blank_screen_before_panes(s: SessionView, snapshot: SnapshotView)
    requires
        session_snapshot(s) == Some(snapshot),
        !has_panes(snapshot.windows),
    ensures
        greeting(s) == seq![FrameView::TmuxState(snapshot)] + binary_frames(session_tail(s)),
        lacks_panes(s),
{
}

/// A viewer that comes back is told the layout first, with all that was noted down.
pub proof fn law_layout_comes_first(s: SessionView, snapshot: SnapshotView)
    requires
        session_snapshot(s) == Some(snapshot),
    ensures
        greeting(s).len() > 0,
        greeting(s)[0] == FrameView::TmuxState(snapshot),
{
}

/// A viewer that is shown a pane is never cleared by what its session tells.
pub proof fn law_focused_viewers_are_not_cleared(v: ViewerView, s: SessionView, event: EventView)
    requires
        v.focused is Some,
    ensures
        !event_frames(v, s, event).contains(FrameView::Clear),
        viewer_told(v, event) == v,
{
    let frames = event_frames(v, s, event);
    assert forall|i: int| 0 <= i < frames.len() implies frames[i] != FrameView::Clear by {}
}

/// Resizing tells the viewers nothing, with or without a pane that is to fill its window.
pub proof fn law_resizing_tells_nothing(s: SessionView, cols: u16, rows: u16, pane: Option<Text>)
    ensures
        resized(zoomed(s, pane), cols, rows).events == s.events,
        resized(zoomed(s, pane), cols, rows).replay == s.replay,
        resized(zoomed(s, pane), cols, rows).cols == cols,
        resized(zoomed(s, pane), cols, rows).rows == rows,
        resized(zoomed(s, pane), cols, rows).command == s.command,
        resized(zoomed(s, pane), cols, rows).mode == s.mode,
{
}

/// Resizing leaves a session in control mode, with its layout, the names of its windows, what is
/// noted down about its panes and what is held of their output.
pub proof fn law_resizing_keeps_the_layout(
    s: SessionView,
    control: ControlView,
    cols: u16,
    rows: u16,
    pane: Option<Text>,
)
    requires
        s.input_mode == ModeView::Control(control),
    ensures
        ({
            let after = resized(zoomed(s, pane), cols, rows);
            &&& session_snapshot(after) == session_snapshot(s)
            &&& after.input_mode is Control
            &&& after.input_mode->Control_0.initialized == control.initialized
            &&& after.input_mode->Control_0.notes == control.notes
            &&& after.input_mode->Control_0.replays == control.replays
        }),
{
}

// ---------------------------------------------------------------------------
// Input
// ---------------------------------------------------------------------------

/// What any viewer types reaches a terminal that takes input as it was typed.
pub proof fn law_typed_input_reaches_the_terminal(v: ViewerView, s: SessionView, data: Seq<u8>)
    requires
        s.input_mode is Direct,
        s.input_open,
        s.inputs.len() == 0,
        data.len() > 0,
    ensures
        next_write(on_typed(v, s, data).session) == Some(
            WriteView { payload: data, pause_millis: 0 },
        ),
        written(on_typed(v, s, data).session) == s,
{
    let after = on_typed(v, s, data).session;
    let input = InputView::User { data, pane: v.focused };
    assert(after.inputs =~= seq![input]);
    assert(worth_writing(after.input_mode, after.inputs) == after.inputs);
    assert(written(after).inputs =~= s.inputs);
}

/// Text without control characters that is typed in control mode becomes one command that types it
/// into the pane that is meant.
pub proof fn law_typed_text_reaches_the_pane(
    control: ControlView,
    named: Option<Text>,
    pane: Text,
    text: Text,
)
    requires
        target_pane(control, named) == Some(pane),
        forall|i: int| 0 <= i < text.len() ==> control_key(#[trigger] text[i]) is None,
    ensures
        payload(
            ModeView::Control(control),
            InputView::User { data: encode_utf8(text), pane: named },
        ) == encode_utf8(literal_command(pane, text)),
{
    encode_utf8_valid_utf8(text);
    encode_utf8_decode_utf8(text);
    law_plain_text_is_typed(pane, text);
}

/// Before tmux has spoken, what is typed reaches the terminal as it is, so that a password can be
/// given.
pub proof fn law_startup_input_passes(control: ControlView, data: Seq<u8>, named: Option<Text>)
    requires
        !control.initialized,
    ensures
        payload(ModeView::Control(control), InputView::User { data, pane: named }) == data,
        payload(ModeView::Control(control), InputView::Paste { data, pane: named }) == data,
{
}

/// Inputs are written in the order in which they came: what comes later does not change what is
/// written next.
pub proof fn law_inputs_keep_their_order(s: SessionView, input: InputView)
    requires
        next_write(s) is Some,
    ensures
        next_write(sent(s, input)) == next_write(s),
        written(sent(s, input)) == sent(written(s), input),
{
    if s.input_open {
        lemma_worth_writing(s.input_mode, s.inputs, input);
        let rest = worth_writing(s.input_mode, s.inputs);
        assert(rest.push(input).skip(1) =~= rest.skip(1).push(input));
    }
}

proof fn lemma_worth_writing(mode: ModeView, inputs: Seq<InputView>, input: InputView)
    requires
        worth_writing(mode, inputs).len() > 0,
    ensures
        worth_writing(mode, inputs.push(input)) == worth_writing(mode, inputs).push(input),
    decreases inputs.len(),
{
    if inputs.len() > 0 {
        assert(inputs.push(input)[0] == inputs[0]);
        if payload(mode, inputs[0]).len() == 0 {
            lemma_worth_writing(mode, inputs.skip(1), input);
            assert(inputs.push(input).skip(1) =~= inputs.skip(1).push(input));
        }
    }
}

/// A terminal that takes no input is not given any, and who types into it is dropped.
pub proof fn law_closed_terminal_takes_nothing(v: ViewerView, s: SessionView, data: Seq<u8>)
    requires
        !s.input_open,
    ensures
        on_typed(v, s, data).session == s,
        on_typed(v, s, data).step.close,
        on_typed(v, s, data).step.error == Some(SessionError::InputClosed),
{
}

// ---------------------------------------------------------------------------
// Viewers
// ---------------------------------------------------------------------------

/// A viewer that may only look changes nothing, whatever it sends.
pub proof fn law_readonly_viewers_change_nothing(
    v: ViewerView,
    s: SessionView,
    frame: ClientFrameView,
)
    requires
        v.readonly,
    ensures
        on_frame(v, s, frame).session == s,
        on_frame(v, s, frame).viewer == v,
{
}

/// A viewer that goes leaves its session as it was before it came: the terminal runs on.
pub proof fn law_viewers_come_and_go(s: SessionView, v: ViewerView, counted: bool)
    ensures
        left_by_viewer(joined_by_viewer(s, counted), counted) == s,
        on_frame(v, s, ClientFrameView::Close).session == s,
        on_frame(v, s, ClientFrameView::Close).step.close,
{
}

/// A transfer with an id that cannot name one is refused: the viewer is told why and stays, and the
/// session is left alone.
pub proof fn law_refused_transfers_are_answered(
    v: ViewerView,
    s: SessionView,
    id: Text,
    path: Text,
    pane: Option<Text>,
)
    requires
        !valid_transfer_id(id),
    ensures
        ({
            let download = on_message(v, s, ClientView::FileDownload { id, path, pane });
            let upload = on_message(v, s, ClientView::FileUploadStart { id, path, pane });
            let answer = seq![
                FrameView::Transfer(failure(id, SessionError::InvalidTransferId.text())),
            ];
            &&& download.session == s
            &&& download.step.frames == answer
            &&& !download.step.close
            &&& upload.session == s
            &&& upload.step.frames == answer
            &&& !upload.step.close
            &&& upload.viewer.uploads == v.uploads
        }),
{
}

/// An input that gives the terminal a command of a file transfer.
pub open spec fn transfer_input(command: Text, pane: Option<Text>) -> InputView {
    InputView::FileTransfer { data: encode_utf8(command), pane }
}

/// A viewer that starts an upload has the terminal begin it, and remembers the pane.
pub proof fn law_upload_starts(
    v: ViewerView,
    s: SessionView,
    id: Text,
    path: Text,
    pane: Option<Text>,
)
    requires
        valid_transfer_id(id),
        s.input_open,
    ensures
        ({
            let start = on_message(v, s, ClientView::FileUploadStart { id, path, pane });
            let tmp_path = tmp_path_text(path, id);
            &&& start.session == (SessionView {
                inputs: s.inputs.push(
                    transfer_input(upload_start_text(path, tmp_path), meant(v, pane)),
                ),
                ..s
            })
            &&& start.viewer.uploads == v.uploads.insert(
                id,
                UploadView { pane: meant(v, pane), path, tmp_path },
            )
        }),
{
}

/// The pieces of an upload go to the pane in which it was started, whichever pane is shown.
pub proof fn law_upload_continues(
    v: ViewerView,
    s: SessionView,
    id: Text,
    data: Text,
)
    requires
        v.uploads.dom().contains(id),
        is_base64(compacted(data)),
        s.input_open,
    ensures
        ({
            let chunk = on_message(v, s, ClientView::FileUploadChunk { id, data });
            let upload = v.uploads[id];
            &&& chunk.session == (SessionView {
                inputs: s.inputs.push(
                    transfer_input(upload_chunk_text(data, upload.tmp_path), upload.pane),
                ),
                ..s
            })
            &&& chunk.viewer == v
        }),
{
}

/// An upload is finished in the pane in which it was started, and nothing is left of it in the
/// viewer.
pub proof fn law_upload_ends(v: ViewerView, s: SessionView, id: Text)
    requires
        v.uploads.dom().contains(id),
        valid_transfer_id(id),
        s.input_open,
    ensures
        ({
            let end = on_message(v, s, ClientView::FileUploadFinish { id });
            let upload = v.uploads[id];
            &&& end.session == (SessionView {
                inputs: s.inputs + transfer_inputs(
                    upload_finish_texts(upload.path, upload.tmp_path),
                    upload.pane,
                ),
                ..s
            })
            &&& end.viewer == (ViewerView { uploads: v.uploads.remove(id), ..v })
        }),
{
}

// ---------------------------------------------------------------------------
// The end
// ---------------------------------------------------------------------------

/// That a process has ended is noted and shown once.
pub proof fn law_exit_is_shown_once(s: SessionView)
    ensures
        !exited(s).alive,
        exited(exited(s)) == exited(s),
{
}

} // verus!
