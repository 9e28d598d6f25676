//! What taking up the output of a terminal promises.
use vstd::prelude::*;
use vstd::utf8::{
    encode_utf8, encode_utf8_decode_utf8, encode_utf8_valid_utf8, is_ascii_chars,
    is_ascii_chars_encode_utf8,
};
use crate::control::{with_contents, ControlView, PaneCaptureView};
use crate::launch::ModeView;
use crate::reader::{
    awaits_tmux, chunk_read, control_line, control_lines, layout_told, pane_seen, startup_passed,
    with_control, ReadView,
};
use crate::replay::joined;
use crate::session::{direct_output, pane_output, SessionView};
use crate::text::{lemma_encoded_contains, lemma_position_at, lemma_position_from, position, Text};
use crate::transfer::without_line_end;
use crate::wire::{
    escaped, law_escaped_output_is_read_back, output_line, spells, without_wrappers, OutputLine,
};

verus! {

// ---------------------------------------------------------------------------
// Chunks
// ---------------------------------------------------------------------------

/// Whether tmux has spoken.
pub open spec fn has_spoken(s: SessionView) -> bool {
    match s.input_mode {
        ModeView::Control(control) => control.initialized,
        ModeView::Direct => false,
    }
}

proof fn lemma_stays_spoken(s: SessionView, line: Seq<u8>)
    requires
        has_spoken(s),
    ensures
        has_spoken(control_line(s, line)),
{
}

proof fn lemma_lines_stay_spoken(s: SessionView, pending: Seq<u8>)
    requires
        has_spoken(s),
    ensures
        has_spoken(control_lines(s, pending).session),
    decreases pending.len(),
{
    lemma_position_from(pending, 10u8, 0);
    match position(pending, 10u8) {
        Some(p) => {
            let line = without_line_end(pending.take(p + 1));
            lemma_stays_spoken(s, line);
            lemma_lines_stay_spoken(control_line(s, line), pending.skip(p + 1));
        },
        None => {},
    }
}

proof fn lemma_control_lines_split(s: SessionView, a: Seq<u8>, b: Seq<u8>)
    ensures
        control_lines(s, a + b) == control_lines(
            control_lines(s, a).session,
            control_lines(s, a).pending + b,
        ),
    decreases a.len(),
{
    lemma_position_from(a, 10u8, 0);
    match position(a, 10u8) {
        Some(p) => {
            lemma_position_at(a + b, 10u8, p);
            assert((a + b).take(p + 1) =~= a.take(p + 1));
            assert((a + b).skip(p + 1) =~= a.skip(p + 1) + b);
            lemma_control_lines_split(
                control_line(s, without_line_end(a.take(p + 1))),
                a.skip(p + 1),
                b,
            );
        },
        None => {},
    }
}

proof fn lemma_nothing_passed(s: SessionView, pending: Seq<u8>)
    requires
        has_spoken(s),
    ensures
        startup_passed(s, pending) == (ReadView { session: s, pending }),
{
    assert(pending.take(0) =~= Seq::<u8>::empty());
    assert(pending.skip(0) =~= pending);
}

/// Once tmux has spoken, it does not matter how its output is cut into chunks.
pub proof fn law_control_cuts_do_not_matter(
    s: SessionView,
    pending: Seq<u8>,
    a: Seq<u8>,
    b: Seq<u8>,
)
    requires
        has_spoken(s),
    ensures
        ({
            let middle = chunk_read(s, pending, a);
            chunk_read(middle.session, middle.pending, b) == chunk_read(s, pending, a + b)
        }),
{
    let middle = chunk_read(s, pending, a);
    lemma_nothing_passed(s, pending + a);
    lemma_nothing_passed(s, pending + (a + b));
    lemma_lines_stay_spoken(s, pending + a);
    lemma_nothing_passed(middle.session, middle.pending + b);
    lemma_control_lines_split(s, pending + a, b);
    assert(pending + a + b =~= pending + (a + b));
}

/// Before tmux has spoken, what the terminal puts out is shown, and held for those who come later,
/// without what opens and closes control mode. A password prompt of ssh reaches the user this way.
pub proof fn law_startup_output_is_shown(s: SessionView, chunk: Seq<u8>)
    requires
        awaits_tmux(s),
        !chunk.contains(0x25u8),
        without_wrappers(chunk).len() > 0,
    ensures
        chunk_read(s, seq![], chunk) == (ReadView {
            session: direct_output(s, without_wrappers(chunk)),
            pending: seq![],
        }),
{
    let none: Seq<u8> = seq![];
    assert(none + chunk =~= chunk);
    lemma_position_from(chunk, 0x25u8, 0);
    if let Some(p) = position(chunk, 0x25u8) {
        assert(chunk.contains(chunk[p]));
    }
    assert(chunk.take(chunk.len() as int) =~= chunk);
    assert(chunk.skip(chunk.len() as int) =~= none);
    lemma_position_from(none, 10u8, 0);
}

// ---------------------------------------------------------------------------
// Lines
// ---------------------------------------------------------------------------

/// The session after lines of control mode.
pub open spec fn after_lines(s: SessionView, lines: Seq<Seq<u8>>) -> SessionView
    decreases lines.len(),
{
    if lines.len() == 0 {
        s
    } else {
        after_lines(control_line(s, lines[0]), lines.skip(1))
    }
}

/// Lines with a carriage return and a line feed behind each.
pub open spec fn ended(lines: Seq<Seq<u8>>) -> Seq<Seq<u8>> {
    Seq::new(lines.len(), |i: int| lines[i] + seq![13u8, 10u8])
}

/// Whether a line can stand within the contents of a pane.
pub open spec fn is_content_line(line: Seq<u8>) -> bool {
    line.len() > 0 && !spells(line, "%end "@) && !spells(line, "%error "@)
}

proof fn lemma_content_lines(
    s: SessionView,
    control: ControlView,
    capture: PaneCaptureView,
    lines: Seq<Seq<u8>>,
)
    requires
        s.input_mode == ModeView::Control(control),
        control.capture == Some(capture),
        forall|i: int| 0 <= i < lines.len() ==> is_content_line(#[trigger] lines[i]),
    ensures
        after_lines(s, lines) == with_control(
            s,
            ControlView {
                capture: Some(PaneCaptureView { lines: capture.lines + ended(lines), ..capture }),
                ..control
            },
        ),
    decreases lines.len(),
{
    if lines.len() == 0 {
        assert(capture.lines + ended(lines) =~= capture.lines);
    } else {
        let line = lines[0];
        let rest = lines.skip(1);
        assert(is_content_line(line));
        let grown = PaneCaptureView {
            lines: capture.lines.push(line + seq![13u8, 10u8]),
            ..capture
        };
        let next = ControlView { capture: Some(grown), ..control };
        assert(control_line(s, line) == with_control(s, next));
        assert forall|i: int| 0 <= i < rest.len() implies is_content_line(#[trigger] rest[i]) by {
            assert(rest[i] == lines[i + 1]);
        }
        lemma_content_lines(with_control(s, next), next, grown, rest);
        assert(grown.lines + ended(rest) =~= capture.lines + ended(lines));
    }
}

proof fn lemma_lines_after(s: SessionView, a: Seq<Seq<u8>>, b: Seq<Seq<u8>>)
    ensures
        after_lines(s, a + b) == after_lines(after_lines(s, a), b),
    decreases a.len(),
{
    if a.len() == 0 {
        assert(a + b =~= b);
    } else {
        lemma_lines_after(control_line(s, a[0]), a.skip(1), b);
        assert((a + b).skip(1) =~= a.skip(1) + b);
        assert((a + b)[0] == a[0]);
    }
}

/// The contents of a pane that were asked for take the place of what was held of its output, and
/// that is all that happens: the viewers are told nothing, and tmux is asked nothing. Empty lines
/// are not among the contents.
pub proof fn law_contents_update_the_held_output_only(
    s: SessionView,
    control: ControlView,
    begin: Seq<u8>,
    lines: Seq<Seq<u8>>,
    end: Seq<u8>,
)
    requires
        s.input_mode == ModeView::Control(control),
        control.capture is None,
        control.queue.len() > 0,
        begin.len() > 0,
        begin[0] == 0x25u8,
        spells(begin, "%begin "@),
        end.len() > 0,
        end[0] == 0x25u8,
        spells(end, "%end "@),
        forall|i: int| 0 <= i < lines.len() ==> is_content_line(#[trigger] lines[i]),
    ensures
        after_lines(s, seq![begin] + lines + seq![end]) == with_control(
            s,
            with_contents(
                ControlView { queue: control.queue.skip(1), ..control },
                control.queue[0],
                joined(ended(lines)),
            ),
        ),
{
    let none: Seq<Seq<u8>> = seq![];
    let capture = PaneCaptureView { pane: control.queue[0], lines: none };
    let opened = ControlView {
        capture: Some(capture),
        queue: control.queue.skip(1),
        ..control
    };
    let first = with_control(s, opened);
    assert(control_line(s, begin) == first);
    lemma_one_line_after(s, begin);
    lemma_lines_after(s, seq![begin], lines);
    lemma_lines_after(s, seq![begin] + lines, seq![end]);
    lemma_content_lines(first, opened, capture, lines);
    assert(none + ended(lines) =~= ended(lines));
    let full = ControlView {
        capture: Some(PaneCaptureView { lines: ended(lines), ..capture }),
        ..opened
    };
    let second = with_control(s, full);
    assert(after_lines(s, seq![begin] + lines) == second);
    lemma_one_line_after(second, end);
    assert(control_line(second, end) == with_control(
        s,
        with_contents(
            ControlView { queue: control.queue.skip(1), ..control },
            control.queue[0],
            joined(ended(lines)),
        ),
    ));
}

proof fn lemma_one_line_after(s: SessionView, line: Seq<u8>)
    ensures
        after_lines(s, seq![line]) == control_line(s, line),
{
    assert(seq![line].skip(1) =~= Seq::<Seq<u8>>::empty());
    assert(after_lines(control_line(s, line), seq![line].skip(1)) == control_line(s, line));
}

/// The line with which tmux passes on what a program has written in the pane `pane`.
pub open spec fn output_notice(pane: Text, output: Seq<u8>) -> Seq<u8> {
    encode_utf8("%output "@) + encode_utf8(pane) + seq![0x20u8] + escaped(output)
}

proof fn lemma_output_notice(pane: Text, output: Seq<u8>)
    requires
        !pane.contains(' '),
    ensures
        output_line(output_notice(pane, output)) == Some(
            OutputLine { pane: encode_utf8(pane), payload: escaped(output) },
        ),
        output_notice(pane, output).len() > 0,
        output_notice(pane, output)[0] == 0x25u8,
        !spells(output_notice(pane, output), "%begin "@),
{
    reveal_strlit("%output ");
    reveal_strlit("%begin ");
    let head = "%output "@;
    let line = output_notice(pane, output);
    let name = encode_utf8(pane);
    let payload = escaped(output);
    assert(is_ascii_chars(head));
    is_ascii_chars_encode_utf8(head);
    assert forall|k: int| 0 <= k < head.len() implies line[0 + k] as char == #[trigger] head[k] by {
        assert(line[k] == encode_utf8(head)[k]);
    }
    assert(spells(line, head));
    assert(line[1] as char == head[1]);
    assert(!spells(line, "%begin "@)) by {
        if spells(line, "%begin "@) {
            assert(line[1] as char == "%begin "@[1]);
        }
    }
    let rest = line.skip(8);
    assert(rest =~= name + seq![0x20u8] + payload);
    lemma_encoded_contains(pane, ' ');
    assert forall|j: int| 0 <= j < name.len() implies rest[j] != 0x20u8 by {
        assert(name.contains(name[j]));
    }
    lemma_position_at(rest, 0x20u8, name.len() as int);
    assert(rest.take(name.len() as int) =~= name);
    assert(rest.skip(name.len() as int + 1) =~= payload);
    assert(line[0] as char == head[0]);
}

/// What a program writes in a pane, escaped by tmux, comes through unchanged: it is taken up as
/// output of that pane, and the viewers are told the layout.
pub proof fn law_pane_output_comes_through(
    s: SessionView,
    control: ControlView,
    pane: Text,
    output: Seq<u8>,
)
    requires
        s.input_mode == ModeView::Control(control),
        control.initialized,
        control.capture is None,
        !pane.contains(' '),
        output.len() > 0,
    ensures
        control_line(s, output_notice(pane, output)) == layout_told(
            pane_output(with_control(s, pane_seen(control, pane)), pane, output),
        ),
{
    lemma_output_notice(pane, output);
    law_escaped_output_is_read_back(output);
    encode_utf8_valid_utf8(pane);
    encode_utf8_decode_utf8(pane);
}

} // verus!
