//! What becomes of each line that tmux prints, and of the output around them.
use vstd::prelude::*;
use vstd::utf8::{
    encode_utf8, encode_utf8_decode_utf8, encode_utf8_valid_utf8, is_ascii_chars,
    is_ascii_chars_encode_utf8,
};
use crate::control::{
    after_capture_control, is_capture_control, settled, state_line, state_text, with_capture_line,
    with_placeholder, with_reply, ControlView, PaneCaptureView, StateLineView,
};
use crate::launch::ModeView;
use crate::outside::readable;
use crate::panes::{all_panes, SnapshotView};
use crate::reader::{
    answered, chunk_read, control_line, control_lines, startup_passed, with_control, ReadView,
};
use crate::reader_laws::has_spoken;
use crate::requests::{captures_asked, refreshed};
use crate::session::{direct_output, pane_output, EventView, SessionView};
use crate::text::{
    decimal, law_decimal_roundtrip, lemma_decimal_digits, lemma_encode_concat, lemma_position_at,
    lemma_position_from, position, starts_with, Text,
};
use crate::text_laws::{blank, law_prefix_and_rest, law_white_space_around_is_trimmed};
use crate::transfer::without_line_end;
use crate::wire::{output_line, spells, structure_event, unescaped, without_wrappers, OutputLine};

verus! {

// ---------------------------------------------------------------------------
// Chunks and lines
// ---------------------------------------------------------------------------

/// Outside control mode, all that comes is output of the terminal, and nothing is held.
pub proof fn law_plain_terminals_are_not_read(s: SessionView, pending: Seq<u8>, chunk: Seq<u8>)
    requires
        s.input_mode is Direct,
    ensures
        chunk_read(s, pending, chunk) == (ReadView { session: direct_output(s, chunk), pending }),
{
}

/// Once tmux has spoken, a line is taken up when its line feed has come, with a carriage return
/// before that or not; what follows is read after it. What has no line feed yet is held.
pub proof fn law_lines_are_taken_up_whole(
    s: SessionView,
    pending: Seq<u8>,
    chunk: Seq<u8>,
    line: Seq<u8>,
    ending: Seq<u8>,
    rest: Seq<u8>,
)
    requires
        has_spoken(s),
        !line.contains(10u8),
        line.len() > 0 ==> line.last() != 13u8,
        ending == seq![10u8] || ending == seq![13u8, 10u8],
    ensures
        pending + chunk == line + ending + rest ==> chunk_read(s, pending, chunk) == chunk_read(
            control_line(s, line),
            seq![],
            rest,
        ),
        !(pending + chunk).contains(10u8) ==> chunk_read(s, pending, chunk) == (ReadView {
            session: s,
            pending: pending + chunk,
        }),
{
    let all = pending + chunk;
    let none: Seq<u8> = seq![];
    lemma_nothing_is_passed(s, all);
    if all == line + ending + rest {
        let next = control_line(s, line);
        let p = line.len() + ending.len() - 1;
        assert forall|j: int| 0 <= j < p implies all[j] != 10u8 by {
            if j < line.len() {
                assert(line.contains(line[j]));
            }
        }
        lemma_position_at(all, 10u8, p);
        assert(all.take(p + 1) =~= line + ending);
        assert(all.skip(p + 1) =~= rest);
        if ending == seq![10u8] {
            assert((line + ending).drop_last() =~= line);
        } else {
            assert((line + ending).drop_last() =~= line.push(13u8));
            assert(line.push(13u8).drop_last() =~= line);
        }
        assert(without_line_end(line + ending) == line);
        assert(none + rest =~= rest);
        assert(has_spoken(next));
        lemma_nothing_is_passed(next, rest);
    }
    if !all.contains(10u8) {
        lemma_position_from(all, 10u8, 0);
        if let Some(p) = position(all, 10u8) {
            assert(all.contains(all[p]));
        }
    }
}

proof fn lemma_nothing_is_passed(s: SessionView, pending: Seq<u8>)
    requires
        has_spoken(s),
    ensures
        startup_passed(s, pending) == (ReadView { session: s, pending }),
{
    assert(pending.take(0) =~= Seq::<u8>::empty());
    assert(pending.skip(0) =~= pending);
}

/// Before tmux has spoken, what comes before its first percent sign is shown, and from there on its
/// lines are taken up.
pub proof fn law_startup_ends_with_a_percent_sign(
    s: SessionView,
    control: ControlView,
    text: Seq<u8>,
    rest: Seq<u8>,
)
    requires
        s.input_mode == ModeView::Control(control),
        !control.initialized,
        !text.contains(37u8),
    ensures
        ({
            let shown = without_wrappers(text);
            let after = if shown.len() > 0 {
                direct_output(s, shown)
            } else {
                s
            };
            chunk_read(s, seq![], text + seq![37u8] + rest) == control_lines(
                after,
                seq![37u8] + rest,
            )
        }),
{
    let none: Seq<u8> = seq![];
    let all = text + seq![37u8] + rest;
    assert(none + all =~= all);
    assert forall|j: int| 0 <= j < text.len() implies all[j] != 37u8 by {
        assert(text.contains(text[j]));
    }
    lemma_position_at(all, 37u8, text.len() as int);
    assert(all.take(text.len() as int) =~= text);
    assert(all.skip(text.len() as int) =~= seq![37u8] + rest);
}

// ---------------------------------------------------------------------------
// One line
// ---------------------------------------------------------------------------

/// An empty line is nothing.
pub proof fn law_empty_lines_are_nothing(s: SessionView)
    ensures
        control_line(s, seq![]) == s,
{
}

/// A line without a percent sign that answers nothing is shown while tmux has not spoken, with a line
/// end, and is nothing after that.
pub proof fn law_other_lines_are_shown_at_startup(
    s: SessionView,
    control: ControlView,
    line: Seq<u8>,
)
    requires
        s.input_mode == ModeView::Control(control),
        control.capture is None,
        line.len() > 0,
        line[0] != 37u8,
        state_line(line) is None,
    ensures
        control.initialized ==> control_line(s, line) == s,
        !control.initialized ==> control_line(s, line) == direct_output(
            direct_output(s, line),
            seq![13u8, 10u8],
        ),
{
}

/// A line that is not UTF-8, or that starts with none of the three words of answers, answers
/// nothing.
pub proof fn law_answers_start_with_their_word(text: Text)
    requires
        !starts_with(text, "WT_WINDOW\t"@),
        !starts_with(text, "WT_PANE\t"@),
        !starts_with(text, "WT_DONE\t"@),
    ensures
        state_text(text) is None,
        state_line(encode_utf8(text)) is None,
{
    encode_utf8_valid_utf8(text);
    encode_utf8_decode_utf8(text);
}

/// The last line of an answer gives its number, with white space around it or not.
pub proof fn law_last_line_gives_the_number(n: u64, before: Text, after: Text)
    requires
        blank(before),
        blank(after),
    ensures
        state_text("WT_DONE\t"@ + (before + decimal(n as nat) + after)) == Some(
            StateLineView::Done { generation: Some(n) },
        ),
{
    reveal_strlit("WT_WINDOW\t");
    reveal_strlit("WT_PANE\t");
    reveal_strlit("WT_DONE\t");
    let number = decimal(n as nat);
    let rest = before + number + after;
    let text = "WT_DONE\t"@ + rest;
    assert(text[3] == 'D');
    assert(!starts_with(text, "WT_WINDOW\t"@)) by {
        if starts_with(text, "WT_WINDOW\t"@) {
            assert(text.subrange(0, 10)[3] == "WT_WINDOW\t"@[3]);
        }
    }
    assert(!starts_with(text, "WT_PANE\t"@)) by {
        if starts_with(text, "WT_PANE\t"@) {
            assert(text.subrange(0, 8)[3] == "WT_PANE\t"@[3]);
        }
    }
    law_prefix_and_rest(text, "WT_DONE\t"@, rest);
    lemma_decimal_digits(n as nat);
    law_white_space_around_is_trimmed(before, number, after);
    law_decimal_roundtrip(n as nat, u64::MAX as nat);
}

proof fn lemma_answer_head(text: Text)
    requires
        state_text(text) is Some,
    ensures
        encode_utf8(text).len() > 0,
        encode_utf8(text)[0] == 87u8,
{
    reveal_strlit("WT_WINDOW\t");
    reveal_strlit("WT_PANE\t");
    reveal_strlit("WT_DONE\t");
    if starts_with(text, "WT_WINDOW\t"@) {
        assert(text.subrange(0, 10)[0] == "WT_WINDOW\t"@[0]);
    } else if starts_with(text, "WT_PANE\t"@) {
        assert(text.subrange(0, 8)[0] == "WT_PANE\t"@[0]);
    } else {
        assert(starts_with(text, "WT_DONE\t"@));
        assert(text.subrange(0, 8)[0] == "WT_DONE\t"@[0]);
    }
    let first = seq!['W'];
    assert(text.take(1) =~= first);
    lemma_encode_concat(text.take(1), text.skip(1));
    assert(text.take(1) + text.skip(1) =~= text);
    assert(is_ascii_chars(first));
    is_ascii_chars_encode_utf8(first);
    assert(encode_utf8(first)[0] == 87u8);
}

/// A line of an answer is taken up as it was read. Where it completes the answer, the viewers are
/// told the new layout, and the contents of its panes are asked for; else nothing else happens.
pub proof fn law_answers_are_taken_up(
    s: SessionView,
    control: ControlView,
    text: Text,
    reply: StateLineView,
)
    requires
        s.input_mode == ModeView::Control(control),
        control.capture is None,
        state_text(text) == Some(reply),
    ensures
        ({
            let now = with_reply(control, reply);
            let after = control_line(s, encode_utf8(text));
            let complete = reply matches StateLineView::Done { generation }
                && control.pending_generation == generation;
            &&& !complete ==> after == (SessionView { input_mode: ModeView::Control(now), ..s })
            &&& complete ==> now == settled(control) && after == captures_asked(
                SessionView {
                    input_mode: ModeView::Control(now),
                    events: s.events.push(
                        EventView::TmuxState(
                            SnapshotView { active_pane: now.active_pane, windows: now.windows },
                        ),
                    ),
                    ..s
                },
                all_panes(now.windows),
            )
        }),
{
    lemma_answer_head(text);
    encode_utf8_valid_utf8(text);
    encode_utf8_decode_utf8(text);
    assert(state_line(encode_utf8(text)) == Some(reply));
    assert(control_line(s, encode_utf8(text)) == answered(s, control, reply));
}

/// The first line with a percent sign shows that tmux has spoken: from then on it is asked for the
/// layout. A line that tells of a change of the structure has it asked for again; any other line that
/// carries no output is nothing.
pub proof fn law_notices_ask_for_the_layout(
    s: SessionView,
    control: ControlView,
    line: Seq<u8>,
)
    requires
        s.input_mode == ModeView::Control(control),
        control.capture is None,
        line.len() > 0,
        line[0] == 37u8,
        !spells(line, "%begin "@) || control.queue.len() == 0,
        output_line(line) is None,
    ensures
        ({
            let spoken = if control.initialized {
                s
            } else {
                refreshed(with_control(s, ControlView { initialized: true, ..control }))
            };
            control_line(s, line) == if structure_event(line) {
                refreshed(spoken)
            } else {
                spoken
            }
        }),
{
}

/// Output of a pane makes the pane known, gives it the focus where none has it, is taken up
/// unescaped, and the layout is told; output that is empty only does the rest.
pub proof fn law_output_makes_its_pane_known(
    s: SessionView,
    control: ControlView,
    line: Seq<u8>,
    output: OutputLine,
)
    requires
        s.input_mode == ModeView::Control(control),
        control.initialized,
        control.capture is None,
        line.len() > 0,
        line[0] == 37u8,
        !spells(line, "%begin "@) || control.queue.len() == 0,
        output_line(line) == Some(output),
    ensures
        ({
            let pane = readable(output.pane);
            let known = ControlView {
                active_pane: if control.active_pane is Some {
                    control.active_pane
                } else {
                    Some(pane)
                },
                windows: with_placeholder(control.windows, pane, control.notes),
                ..control
            };
            let seen = SessionView { input_mode: ModeView::Control(known), ..s };
            let data = unescaped(output.payload);
            let taken = if data.len() > 0 {
                pane_output(seen, pane, data)
            } else {
                seen
            };
            control_line(s, line) == (SessionView {
                events: taken.events.push(
                    EventView::TmuxState(
                        SnapshotView { active_pane: known.active_pane, windows: known.windows },
                    ),
                ),
                ..taken
            })
        }),
{
}

/// Contents that were asked for begin with `%begin`; while they come in, every line belongs to them
/// until `%end` or `%error`.
pub proof fn law_contents_are_told_from_other_lines(
    s: SessionView,
    control: ControlView,
    line: Seq<u8>,
)
    requires
        s.input_mode == ModeView::Control(control),
        line.len() > 0,
    ensures
        control.capture is None && control.queue.len() > 0 && line[0] == 37u8 && spells(
            line,
            "%begin "@,
        ) ==> control_line(s, line) == with_control(
            s,
            ControlView {
                capture: Some(PaneCaptureView { pane: control.queue[0], lines: seq![] }),
                queue: control.queue.skip(1),
                ..control
            },
        ),
        control.capture is Some && line[0] != 37u8 ==> control_line(s, line) == with_control(
            s,
            with_capture_line(control, line),
        ),
        control.capture is Some && line[0] == 37u8 ==> is_capture_control(control, line)
            && control_line(s, line) == with_control(s, after_capture_control(control, line)),
{
}

} // verus!
