//! What a terminal puts out, taken up by its session.
use vstd::prelude::*;
use vstd::string::*;
use crate::control::{
    after_capture_control, append_tmux_capture_line, completes, handle_tmux_capture_control_line,
    is_capture_control, parse_state_line, state_line, with_capture_line, with_placeholder,
    with_reply, ControlView, StateLine, StateLineView, TmuxControlState,
};
use crate::launch::{InputMode, ModeView};
use crate::outside::readable;
use crate::panes::{all_panes, TmuxPane, TmuxWindow, WindowView};
use crate::requests::{captures_asked, refreshed};
use crate::session::{
    direct_output, pane_output, session_snapshot, EventView, SessionEvent, SessionView,
    TerminalSession,
};
use crate::table::views;
use crate::text::{
    byte_position, byte_position_from, bytes_between, lemma_position_from, lemma_position_shift,
    position, position_from, push_bytes, Text,
};
use crate::transfer::without_line_end;
use crate::wire::{
    decode_tmux_escaped_bytes, is_tmux_structure_event, output_line, parse_tmux_output_line,
    strip_tmux_control_wrappers, structure_event, unescaped, without_wrappers,
};

verus! {

// ---------------------------------------------------------------------------
// One line of control mode
// ---------------------------------------------------------------------------

/// The session with another control state.
pub open spec fn with_control(s: SessionView, control: ControlView) -> SessionView {
    SessionView { input_mode: ModeView::Control(control), ..s }
}

/// The session once its viewers have been told the layout.
pub open spec fn layout_told(s: SessionView) -> SessionView {
    match session_snapshot(s) {
        Some(snapshot) => SessionView {
            events: s.events.push(EventView::TmuxState(snapshot)),
            ..s
        },
        None => s,
    }
}

/// The session after a line of the answer to a question for the layout. Once the answer is complete
/// the viewers are told, and the contents of the panes are asked for.
pub open spec fn answered(s: SessionView, control: ControlView, reply: StateLineView) -> SessionView {
    let after = with_control(s, with_reply(control, reply));
    if completes(control, reply) {
        captures_asked(layout_told(after), all_panes(with_reply(control, reply).windows))
    } else {
        after
    }
}

/// The session once it is known that tmux has spoken: the first time, the layout is asked for.
pub open spec fn spoken(s: SessionView, control: ControlView) -> SessionView {
    if control.initialized {
        s
    } else {
        refreshed(with_control(s, ControlView { initialized: true, ..control }))
    }
}

/// The control state once the pane `pane` is known to exist.
pub open spec fn pane_seen(control: ControlView, pane: Text) -> ControlView {
    ControlView {
        active_pane: match control.active_pane {
            Some(id) => Some(id),
            None => Some(pane),
        },
        windows: with_placeholder(control.windows, pane, control.notes),
        ..control
    }
}

/// The session after tmux has passed on the escaped output `payload` of the pane `pane`.
pub open spec fn pane_spoke(s: SessionView, pane: Text, payload: Seq<u8>) -> SessionView {
    match s.input_mode {
        ModeView::Control(control) => {
            let seen = with_control(s, pane_seen(control, pane));
            let output = unescaped(payload);
            layout_told(
                if output.len() > 0 {
                    pane_output(seen, pane, output)
                } else {
                    seen
                },
            )
        },
        ModeView::Direct => s,
    }
}

/// The session after a line that starts with a percent sign and belongs to no contents of a pane.
pub open spec fn notified(s: SessionView, line: Seq<u8>) -> SessionView {
    match output_line(line) {
        Some(output) => pane_spoke(s, readable(output.pane), output.payload),
        None => if structure_event(line) {
            refreshed(s)
        } else {
            s
        },
    }
}

/// The session after a line that does not start with a percent sign.
pub open spec fn plain_line(s: SessionView, control: ControlView, line: Seq<u8>) -> SessionView {
    if control.capture is Some {
        with_control(s, with_capture_line(control, line))
    } else {
        match state_line(line) {
            Some(reply) => answered(s, control, reply),
            None => if control.initialized {
                s
            } else {
                direct_output(direct_output(s, line), seq![13u8, 10u8])
            },
        }
    }
}

/// The session after a line of control mode.
pub open spec fn control_line(s: SessionView, line: Seq<u8>) -> SessionView {
    match s.input_mode {
        ModeView::Control(control) => if line.len() == 0 {
            s
        } else if line[0] != 0x25u8 {
            plain_line(s, control, line)
        } else if is_capture_control(control, line) {
            with_control(s, after_capture_control(control, line))
        } else {
            notified(spoken(s, control), line)
        },
        ModeView::Direct => s,
    }
}

/// All panes, window by window.
fn collect_panes(windows: &Vec<TmuxWindow>) -> (res: Vec<TmuxPane>)
    ensures
        views(res@) == all_panes(views(windows@)),
{
    let ghost all = views(windows@);
    let mut out: Vec<TmuxPane> = Vec::new();
    let mut i: usize = 0;
    assert(all.skip(0) == all);
    assert(views(out@) + all_panes(all) =~= all_panes(all));
    while i < windows.len()
        invariant
            all == views(windows@),
            0 <= i <= windows@.len(),
            views(out@) + all_panes(all.skip(i as int)) == all_panes(all),
        decreases windows@.len() - i,
    {
        let panes = &windows[i].panes;
        let ghost before = views(out@);
        let ghost here = views(panes@);
        let mut j: usize = 0;
        assert(before + here.take(0) =~= before);
        while j < panes.len()
            invariant
                here == views(panes@),
                0 <= j <= panes@.len(),
                views(out@) == before + here.take(j as int),
            decreases panes@.len() - j,
        {
            let ghost step = views(out@);
            out.push(panes[j].copy());
            assert(views(out@) =~= step.push(here[j as int]));
            assert(before + here.take(j + 1) =~= step.push(here[j as int]));
            j += 1;
        }
        proof {
            let rest = all.skip(i as int);
            assert(here.take(j as int) =~= here);
            assert(rest[0] == windows@[i as int]@);
            assert(rest.skip(1) == all.skip(i + 1));
            assert(before + here + all_panes(rest.skip(1)) =~= before + all_panes(rest));
        }
        i += 1;
    }
    assert(all.skip(i as int) =~= Seq::<WindowView>::empty());
    assert(views(out@) + all_panes(all.skip(i as int)) =~= views(out@));
    out
}

/// Tells the viewers the layout.
pub fn broadcast_tmux_state(session: &mut TerminalSession)
    ensures
        final(session)@ == layout_told(old(session)@),
{
    if let Some(state) = session.tmux_state_snapshot() {
        session.tell(SessionEvent::TmuxState(state));
    }
}

/// Takes a line of the answer to a question for the layout.
pub fn take_state_reply(session: &mut TerminalSession, reply: StateLine)
    ensures
        final(session)@ == match old(session)@.input_mode {
            ModeView::Control(control) => answered(old(session)@, control, reply@),
            ModeView::Direct => old(session)@,
        },
{
    let complete = match &mut session.input_mode {
        InputMode::TmuxControl(state) => state.take_reply(reply),
        InputMode::Direct => {
            return ;
        },
    };
    if complete {
        broadcast_tmux_state(session);
        let panes = match &session.input_mode {
            InputMode::TmuxControl(state) => collect_panes(&state.windows),
            InputMode::Direct => Vec::new(),
        };
        let _ = session.request_tmux_pane_captures(panes);
    }
}

/// Takes a line if it is part of the answer to a question for the layout; says whether it is.
pub fn handle_tmux_state_line(session: &mut TerminalSession, line: &[u8]) -> (res: bool)
    ensures
        res == (state_line(line@) is Some),
        final(session)@ == match (old(session)@.input_mode, state_line(line@)) {
            (ModeView::Control(control), Some(reply)) => answered(old(session)@, control, reply),
            _ => old(session)@,
        },
{
    match parse_state_line(line) {
        Some(reply) => {
            take_state_reply(session, reply);
            true
        },
        None => false,
    }
}

/// Takes the escaped output `payload` that tmux has passed on of the pane `pane`.
pub fn take_pane_payload(session: &mut TerminalSession, pane: &str, payload: &[u8])
    ensures
        final(session)@ == pane_spoke(old(session)@, pane@, payload@),
{
    match &mut session.input_mode {
        InputMode::TmuxControl(state) => {
            if state.active_pane.is_none() {
                state.active_pane = Some(pane.to_string());
            }
            state.upsert_pane_placeholder(pane);
        },
        InputMode::Direct => {
            return ;
        },
    }
    let decoded = decode_tmux_escaped_bytes(payload);
    if decoded.len() > 0 {
        session.append_pane_output(pane, decoded.as_slice());
    }
    broadcast_tmux_state(session);
}

/// Takes a line that starts with a percent sign and belongs to no contents of a pane.
fn take_notification(session: &mut TerminalSession, line: &[u8])
    ensures
        final(session)@ == notified(old(session)@, line@),
{
    if let Some((pane, payload)) = parse_tmux_output_line(line) {
        take_pane_payload(session, pane.as_str(), payload);
        return ;
    }
    if is_tmux_structure_event(line) {
        let _ = session.request_tmux_state_refresh();
    }
}

/// What became of a line of control mode as far as its control state goes.
enum LineUse {
    /// Nothing more is to be done.
    Done,
    /// It does not start with a percent sign, and tmux has spoken or not.
    Plain(bool),
    /// It starts with a percent sign, and tmux had spoken before or not.
    Notice(bool),
}

/// Takes a line of control mode as far as the contents of panes go.
fn use_line(state: &mut TmuxControlState, line: &[u8]) -> (res: LineUse)
    requires
        line@.len() > 0,
    ensures
        ({
            let before = old(state)@;
            let plain = line@[0] != 0x25u8;
            match res {
                LineUse::Done => if plain {
                    before.capture is Some && final(state)@ == with_capture_line(before, line@)
                } else {
                    is_capture_control(before, line@) && final(state)@ == after_capture_control(
                        before,
                        line@,
                    )
                },
                LineUse::Plain(initialized) => plain && before.capture is None && final(state)@
                    == before && initialized == before.initialized,
                LineUse::Notice(initialized) => !plain && !is_capture_control(before, line@)
                    && initialized == before.initialized && final(state)@ == (ControlView {
                    initialized: true,
                    ..before
                }),
            }
        }),
{
    if line[0] != 0x25u8 {
        if append_tmux_capture_line(state, line) {
            return LineUse::Done;
        }
        return LineUse::Plain(state.initialized);
    }
    if handle_tmux_capture_control_line(state, line) {
        return LineUse::Done;
    }
    let was_initialized = state.initialized;
    state.initialized = true;
    LineUse::Notice(was_initialized)
}

/// Takes a line of control mode.
pub fn handle_tmux_control_line(session: &mut TerminalSession, line: &[u8])
    ensures
        final(session)@ == control_line(old(session)@, line@),
{
    if line.len() == 0 {
        return ;
    }
    let ghost before = session@;
    let usage = match &mut session.input_mode {
        InputMode::TmuxControl(state) => use_line(state, line),
        InputMode::Direct => {
            return ;
        },
    };
    match usage {
        LineUse::Done => {},
        LineUse::Plain(initialized) => {
            assert(session@ == before);
            if handle_tmux_state_line(session, line) {
                return ;
            }
            if !initialized {
                session.append_direct_output(line);
                let mut end: Vec<u8> = Vec::new();
                end.push(13u8);
                end.push(10u8);
                assert(end@ =~= seq![13u8, 10u8]);
                session.append_direct_output(end.as_slice());
            }
        },
        LineUse::Notice(was_initialized) => {
            if !was_initialized {
                let _ = session.request_tmux_state_refresh();
            }
            assert(session@ == spoken(before, before.input_mode->Control_0));
            take_notification(session, line);
        },
    }
}

// ---------------------------------------------------------------------------
// Chunks
// ---------------------------------------------------------------------------

/// A session and the output that it has not taken up yet.
#[verifier::ext_equal]
pub struct ReadView {
    pub session: SessionView,
    pub pending: Seq<u8>,
}

/// Whether a session waits for tmux to speak.
pub open spec fn awaits_tmux(s: SessionView) -> bool {
    match s.input_mode {
        ModeView::Control(control) => !control.initialized,
        ModeView::Direct => false,
    }
}

/// How much of the pending output is passed through: before tmux has spoken, all that comes before
/// a percent sign.
pub open spec fn startup_len(s: SessionView, pending: Seq<u8>) -> int {
    if !awaits_tmux(s) {
        0
    } else {
        match position(pending, 0x25u8) {
            Some(p) => p,
            None => pending.len() as int,
        }
    }
}

/// What there is after the startup output was passed through, without what opens and closes control
/// mode.
pub open spec fn startup_passed(s: SessionView, pending: Seq<u8>) -> ReadView {
    let n = startup_len(s, pending);
    let shown = without_wrappers(pending.take(n));
    ReadView {
        session: if shown.len() > 0 {
            direct_output(s, shown)
        } else {
            s
        },
        pending: pending.skip(n),
    }
}

/// What there is after all lines of the pending output were taken up.
pub open spec fn control_lines(s: SessionView, pending: Seq<u8>) -> ReadView
    decreases pending.len(),
    via pending_shortens
{
    match position(pending, 10u8) {
        Some(p) => control_lines(
            control_line(s, without_line_end(pending.take(p + 1))),
            pending.skip(p + 1),
        ),
        None => ReadView { session: s, pending },
    }
}

#[via_fn]
proof fn pending_shortens(s: SessionView, pending: Seq<u8>) {
    lemma_position_from(pending, 10u8, 0);
}

/// What there is after a chunk came in control mode.
pub open spec fn control_chunk(s: SessionView, pending: Seq<u8>, chunk: Seq<u8>) -> ReadView {
    let passed = startup_passed(s, pending + chunk);
    control_lines(passed.session, passed.pending)
}

/// What there is after a chunk came.
pub open spec fn chunk_read(s: SessionView, pending: Seq<u8>, chunk: Seq<u8>) -> ReadView {
    match s.input_mode {
        ModeView::Direct => ReadView { session: direct_output(s, chunk), pending },
        ModeView::Control(_) => control_chunk(s, pending, chunk),
    }
}

/// Passes the startup output through, without what opens and closes control mode.
pub fn flush_tmux_startup_passthrough(session: &mut TerminalSession, pending: &mut Vec<u8>)
    ensures
        (ReadView { session: final(session)@, pending: final(pending)@ }) == startup_passed(
            old(session)@,
            old(pending)@,
        ),
{
    let ghost before = session@;
    let ghost held = pending@;
    let waiting = match &session.input_mode {
        InputMode::TmuxControl(state) => !state.initialized,
        InputMode::Direct => false,
    };
    proof {
        lemma_position_from(held, 0x25u8, 0);
        assert(held.take(0) =~= Seq::<u8>::empty());
        assert(held.skip(0) =~= held);
    }
    if !waiting || pending.len() == 0 || pending[0] == 0x25u8 {
        return ;
    }
    let count: usize = pending.len();
    let flush_len: usize = match byte_position(pending.as_slice(), 0x25u8) {
        Some(p) => p,
        None => count,
    };
    let raw = bytes_between(pending.as_slice(), 0, flush_len);
    let rest = bytes_between(pending.as_slice(), flush_len, count);
    assert(raw@ =~= held.take(flush_len as int));
    assert(rest@ =~= held.skip(flush_len as int));
    *pending = rest;
    let chunk = strip_tmux_control_wrappers(raw.as_slice());
    if chunk.len() > 0 {
        session.append_direct_output(chunk.as_slice());
    }
}

/// A line without the line feed and the carriage return at its end.
fn strip_line_end(line: Vec<u8>) -> (res: Vec<u8>)
    ensures
        res@ == without_line_end(line@),
{
    let mut out = line;
    if out.len() > 0 && out[out.len() - 1] == 10u8 {
        let _ = out.pop();
    }
    if out.len() > 0 && out[out.len() - 1] == 13u8 {
        let _ = out.pop();
    }
    out
}

/// The next line of `held` behind `start` is taken up before what follows it.
proof fn lemma_next_control_line(s: SessionView, held: Seq<u8>, start: int, pos: int)
    requires
        0 <= start <= pos < held.len(),
        position_from(held, 10u8, start) == Some(pos),
    ensures
        control_lines(s, held.skip(start)) == control_lines(
            control_line(s, without_line_end(held.subrange(start, pos + 1))),
            held.skip(pos + 1),
        ),
{
    let rest = held.skip(start);
    lemma_position_shift(held, 10u8, start, start);
    assert(rest.take(pos - start + 1) =~= held.subrange(start, pos + 1));
    assert(rest.skip(pos - start + 1) =~= held.skip(pos + 1));
}

/// Without a further line feed all that is left is held.
proof fn lemma_no_more_control_lines(s: SessionView, held: Seq<u8>, start: int)
    requires
        0 <= start <= held.len(),
        position_from(held, 10u8, start) is None,
    ensures
        control_lines(s, held.skip(start)) == (ReadView { session: s, pending: held.skip(start) }),
{
    lemma_position_shift(held, 10u8, start, start);
}

/// Takes a chunk of output in control mode. What follows the last line feed is held in `pending`.
#[verifier::spinoff_prover]
pub fn read_tmux_control_output(
    session: &mut TerminalSession,
    pending: &mut Vec<u8>,
    chunk: &[u8],
)
    ensures
        (ReadView { session: final(session)@, pending: final(pending)@ }) == control_chunk(
            old(session)@,
            old(pending)@,
            chunk@,
        ),
{
    push_bytes(pending, chunk);
    flush_tmux_startup_passthrough(session, pending);
    let ghost held = pending@;
    let ghost whole = control_lines(session@, held);
    let count: usize = pending.len();
    let mut start: usize = 0;
    assert(held.skip(0) =~= held);
    let mut line_end = byte_position_from(pending.as_slice(), 10u8, start);
    while line_end.is_some()
        invariant
            match line_end {
                Some(pos) => position_from(held, 10u8, start as int) == Some(pos as int) && start
                    <= pos < count,
                None => position_from(held, 10u8, start as int) is None,
            },
            pending@ == held,
            count == held.len(),
            0 <= start <= count,
            whole == control_lines(session@, held.skip(start as int)),
        decreases count - start,
    {
        let pos: usize = line_end.unwrap();
        proof {
            lemma_next_control_line(session@, held, start as int, pos as int);
        }
        let line = strip_line_end(bytes_between(pending.as_slice(), start, pos + 1));
        handle_tmux_control_line(session, line.as_slice());
        start = pos + 1;
        line_end = byte_position_from(pending.as_slice(), 10u8, start);
    }
    proof {
        lemma_no_more_control_lines(session@, held, start as int);
    }
    let rest = bytes_between(pending.as_slice(), start, count);
    assert(rest@ =~= held.skip(start as int));
    *pending = rest;
}

/// Takes a chunk of output.
pub fn read_output(session: &mut TerminalSession, pending: &mut Vec<u8>, chunk: &[u8])
    ensures
        (ReadView { session: final(session)@, pending: final(pending)@ }) == chunk_read(
            old(session)@,
            old(pending)@,
            chunk@,
        ),
{
    let control = match &session.input_mode {
        InputMode::TmuxControl(_) => true,
        InputMode::Direct => false,
    };
    if control {
        read_tmux_control_output(session, pending, chunk);
    } else {
        session.append_direct_output(chunk);
    }
}

} // verus!
