//! What the terminal is given of its inputs, and what is held and sent again of its output.
use vstd::prelude::*;
use vstd::utf8::{encode_utf8, encode_utf8_decode_utf8, encode_utf8_valid_utf8};
use crate::control::ControlView;
use crate::keys::{input_commands, paste_commands};
use crate::launch::{ModeView, PersistedView};
use crate::order::Placed;
use crate::outside::{readable, Timestamp};
use crate::replay::{
    law_newest_is_longest_suffix, law_push_keeps_what_fits, law_tail_is_recent,
    law_tail_of_short_output, newest, pushed, total,
};
use crate::session::{
    direct_output, next_write, pane_output, pane_tail, payload, sent, session_tail, written,
    EventView, InputView, SessionView, WriteView,
};
use crate::store::by_id;
use crate::table::text_lt;
use crate::text::Text;
use crate::transfer::{filter_events, filter_visible};

verus! {

// ---------------------------------------------------------------------------
// Writing
// ---------------------------------------------------------------------------

/// What an input holds, whoever it is from.
pub open spec fn data_of(input: InputView) -> Seq<u8> {
    match input {
        InputView::User { data, .. } => data,
        InputView::FileTransfer { data, .. } => data,
        InputView::Paste { data, .. } => data,
        InputView::Raw(data) => data,
    }
}

/// Outside control mode, and before tmux has spoken, the terminal is given every input as it is. In
/// control mode, what is meant for tmux itself is given to it as it is.
pub proof fn law_inputs_pass_as_they_are(mode: ModeView, input: InputView)
    ensures
        mode is Direct ==> payload(mode, input) == data_of(input),
        mode matches ModeView::Control(control) ==> (!control.initialized ==> payload(mode, input)
            == data_of(input)),
        input is Raw ==> payload(mode, input) == data_of(input),
{
}

/// Once tmux has spoken, what is typed and what a transfer types becomes commands that type it into
/// the pane that is named, else into the one that has the focus, and what is pasted becomes commands
/// that paste it there. Where there is no such pane, it passes as it is.
pub proof fn law_inputs_become_commands(
    control: ControlView,
    text: Text,
    named: Option<Text>,
    pane: Text,
)
    requires
        control.initialized,
        named == Some(pane) || (named is None && control.active_pane == Some(pane)),
    ensures
        ({
            let mode = ModeView::Control(control);
            let data = encode_utf8(text);
            &&& payload(mode, InputView::User { data, pane: named }) == encode_utf8(
                input_commands(pane, text),
            )
            &&& payload(mode, InputView::FileTransfer { data, pane: named }) == encode_utf8(
                input_commands(pane, text),
            )
            &&& payload(mode, InputView::Paste { data, pane: named }) == encode_utf8(
                paste_commands(pane, text),
            )
        }),
{
    encode_utf8_valid_utf8(text);
    encode_utf8_decode_utf8(text);
    assert(readable(encode_utf8(text)) == text);
}

/// Without a pane to type into, input passes as it is.
pub proof fn law_inputs_without_a_pane_pass(control: ControlView, input: InputView)
    requires
        control.active_pane is None,
        match input {
            InputView::User { pane, .. } => pane is None,
            InputView::FileTransfer { pane, .. } => pane is None,
            InputView::Paste { pane, .. } => pane is None,
            InputView::Raw(_) => true,
        },
    ensures
        payload(ModeView::Control(control), input) == data_of(input),
{
}

/// Whether the first `n` inputs come to nothing.
pub open spec fn come_to_nothing(s: SessionView, n: int) -> bool {
    forall|i: int|
        0 <= i < n ==> payload(s.input_mode, #[trigger] s.inputs[i]) == Seq::<u8>::empty()
}

/// The terminal is next given the first input that comes to anything; those before it are dropped,
/// and those behind it stay. A command of a transfer is followed by a pause of 300 milliseconds.
pub proof fn law_inputs_are_written_one_by_one(s: SessionView, n: int)
    requires
        0 <= n <= s.inputs.len(),
        come_to_nothing(s, n),
        n < s.inputs.len() ==> payload(s.input_mode, s.inputs[n]).len() > 0,
    ensures
        n == s.inputs.len() ==> next_write(s) is None && written(s) == (SessionView {
            inputs: seq![],
            ..s
        }),
        n < s.inputs.len() ==> next_write(s) == Some(
            WriteView {
                payload: payload(s.input_mode, s.inputs[n]),
                pause_millis: if s.inputs[n] is FileTransfer {
                    300
                } else {
                    0
                },
            },
        ) && written(s) == (SessionView { inputs: s.inputs.skip(n + 1), ..s }),
    decreases n,
{
    if n > 0 {
        let less = SessionView { inputs: s.inputs.skip(1), ..s };
        assert(payload(s.input_mode, s.inputs[0]) == Seq::<u8>::empty());
        assert forall|i: int| 0 <= i < n - 1 implies payload(
            less.input_mode,
            #[trigger] less.inputs[i],
        ) == Seq::<u8>::empty() by {
            assert(payload(s.input_mode, s.inputs[i + 1]) == Seq::<u8>::empty());
        }
        law_inputs_are_written_one_by_one(less, n - 1);
        if n < s.inputs.len() {
            assert(s.inputs.skip(1).skip(n) =~= s.inputs.skip(n + 1));
        }
    } else {
        if s.inputs.len() == 0 {
            assert(s.inputs =~= seq![]);
        }
    }
}

/// An input is queued behind the others, unless the terminal takes none.
pub proof fn law_inputs_are_queued(s: SessionView, input: InputView)
    ensures
        s.input_open ==> sent(s, input) == (SessionView { inputs: s.inputs.push(input), ..s }),
        !s.input_open ==> sent(s, input) == s,
{
}

// ---------------------------------------------------------------------------
// Output
// ---------------------------------------------------------------------------

/// The newest 32 MiB of output are held: all of it where it fits, and never more.
pub proof fn law_much_output_is_held(held: Seq<Seq<u8>>, chunk: Seq<u8>)
    ensures
        total(held) + chunk.len() <= 33554432 ==> pushed(held, seq![chunk]) == held.push(chunk),
        total(pushed(held, seq![chunk])) <= 33554432,
        pushed(held, seq![chunk]).len() <= held.len() + 1,
        pushed(held, seq![chunk]) == held.push(chunk).skip(
            held.len() + 1 - pushed(held, seq![chunk]).len(),
        ),
{
    let all = held.push(chunk);
    assert(seq![chunk].skip(1) =~= Seq::<Seq<u8>>::empty());
    assert(pushed(newest(all, 33554432), seq![chunk].skip(1)) == newest(all, 33554432));
    assert(pushed(held, seq![chunk]) == newest(all, 33554432));
    law_newest_is_longest_suffix(all, 33554432);
    if total(held) + chunk.len() <= 33554432 {
        law_push_keeps_what_fits(held, chunk, 33554432);
    }
}

/// A viewer is sent the newest output that is held: all of it where it is below 4 MiB, else as much
/// as fits into that, but at least the last chunk.
pub proof fn law_recent_output_is_sent(s: SessionView)
    ensures
        total(s.replay) < 4194304 ==> session_tail(s) == s.replay,
        session_tail(s).len() <= s.replay.len(),
        session_tail(s) == s.replay.skip(s.replay.len() - session_tail(s).len()),
        s.replay.len() > 0 ==> session_tail(s).len() > 0,
        session_tail(s).len() > 1 ==> total(session_tail(s)) <= 4194304,
{
    law_tail_is_recent(s.replay, 4194304);
    if total(s.replay) < 4194304 {
        law_tail_of_short_output(s.replay, 4194304);
    }
}

/// The same of a pane: its own output in control mode, that of the terminal as a whole without.
pub proof fn law_recent_output_of_a_pane_is_sent(s: SessionView, control: ControlView, pane: Text)
    ensures
        s.input_mode is Direct ==> pane_tail(s, pane) == session_tail(s),
        s.input_mode == ModeView::Control(control) ==> pane_tail(s, pane) == session_tail(
            SessionView {
                replay: if control.replays.dom().contains(pane) {
                    control.replays[pane]
                } else {
                    seq![]
                },
                ..s
            },
        ),
{
}

/// Whatever the output of the terminal or of a pane holds, what is to be shown of it is told in its
/// order, then what became of the transfers, and nothing that was told before is taken back.
pub proof fn law_output_is_told_before_transfers(s: SessionView, pane: Text, chunk: Seq<u8>)
    ensures
        ({
            let shown = filter_visible(s.transfers, "__direct__"@, chunk);
            let ended = filter_events(s.transfers, "__direct__"@, chunk);
            direct_output(s, chunk).events == s.events + Seq::new(
                shown.len(),
                |i: int| EventView::Output(shown[i]),
            ) + Seq::new(ended.len(), |i: int| EventView::Transfer(ended[i]))
        }),
        ({
            let shown = filter_visible(s.transfers, pane, chunk);
            let ended = filter_events(s.transfers, pane, chunk);
            pane_output(s, pane, chunk).events == s.events + Seq::new(
                shown.len(),
                |i: int| EventView::PaneOutput { pane, data: shown[i] },
            ) + Seq::new(ended.len(), |i: int| EventView::Transfer(ended[i]))
        }),
{
}

// ---------------------------------------------------------------------------
// Order
// ---------------------------------------------------------------------------

proof fn lemma_characters_by_code_point(a: char, b: char)
    ensures
        a < b <==> (a as u32) < b as u32,
{
}

/// Texts are ordered by their first difference; a text comes before those that it starts.
pub proof fn law_texts_are_ordered_by_their_first_difference(
    common: Text,
    a: Text,
    b: Text,
    rest: Text,
)
    ensures
        a.len() > 0 && b.len() > 0 && a[0] != b[0] ==> (text_lt(common + a, common + b) <==> (
        a[0] as u32) < b[0] as u32),
        rest.len() > 0 ==> text_lt(common, common + rest) && !text_lt(common + rest, common),
        !text_lt(common, common),
    decreases common.len(),
{
    if common.len() == 0 {
        if a.len() > 0 && b.len() > 0 {
            lemma_characters_by_code_point(a[0], b[0]);
        }
        assert(common + a =~= a);
        assert(common + b =~= b);
        assert(common + rest =~= rest);
    } else {
        law_texts_are_ordered_by_their_first_difference(common.drop_first(), a, b, rest);
        assert((common + a).drop_first() =~= common.drop_first() + a);
        assert((common + b).drop_first() =~= common.drop_first() + b);
        assert((common + rest).drop_first() =~= common.drop_first() + rest);
        assert((common + a)[0] == common[0]);
        assert((common + b)[0] == common[0]);
        assert((common + rest)[0] == common[0]);
    }
}

/// A session that was asked for earlier has the smaller place.
pub proof fn law_older_sessions_have_smaller_places(a: PersistedView, b: PersistedView)
    ensures
        a.created_at.secs < b.created_at.secs ==> a.place() < b.place(),
        a.created_at.secs == b.created_at.secs && a.created_at.nanos < b.created_at.nanos
            ==> a.place() < b.place(),
        a.created_at == b.created_at ==> a.place() == b.place(),
{
}

/// One moment is not later than another by its seconds, then by its nanoseconds.
pub proof fn law_moments_by_seconds_and_nanoseconds(a: Timestamp, b: Timestamp)
    ensures
        a.no_later(b) <==> !(b.secs < a.secs || (b.secs == a.secs && b.nanos < a.nanos)),
{
}

/// A record that is read replaces an earlier one with the same id and leaves the others.
pub proof fn law_later_records_count(list: Seq<PersistedView>, session: PersistedView, other: u128)
    ensures
        by_id(seq![]) == Map::<u128, PersistedView>::empty(),
        by_id(list.push(session)).dom().contains(session.id),
        by_id(list.push(session))[session.id] == session,
        other != session.id ==> (by_id(list.push(session)).dom().contains(other) <==> by_id(
            list,
        ).dom().contains(other)),
        other != session.id && by_id(list).dom().contains(other) ==> by_id(list.push(session))[other]
            == by_id(list)[other],
{
    assert(list.push(session).drop_last() =~= list);
}

} // verus!
