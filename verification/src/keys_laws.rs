//! What typing and pasting come to, character by character.
use vstd::prelude::*;
use vstd::utf8::encode_utf8;
use crate::keys::{
    control_key, final_from, input_commands, input_strokes, is_final, key_command, key_or_break,
    law_plain_text_is_typed, literal_command, opens_sequence, paste_commands, paste_mark,
    paste_strokes, sequence_key, stroke_commands, Stroke,
};
use crate::quote::tmux_quoted;
use crate::text::{lemma_encode_concat, Text};

verus! {

// ---------------------------------------------------------------------------
// Commands
// ---------------------------------------------------------------------------

/// The line that has tmux press a key in a pane.
pub open spec fn press(pane: Text, key: Text) -> Text {
    "send-keys -t "@ + pane + " "@ + key + "\n"@
}

/// The line that has tmux type a text into a pane; none for an empty text.
pub open spec fn type_out(pane: Text, text: Text) -> Text {
    if text.len() > 0 {
        "send-keys -t "@ + pane + " -l -- "@ + tmux_quoted(text) + "\n"@
    } else {
        seq![]
    }
}

/// Whether a character means nothing but itself when it is typed: it is none of carriage return,
/// line feed, tab, delete, backspace, end of text, end of transmission and escape.
pub open spec fn is_literal(c: char) -> bool {
    let n = c as u32;
    n != 13 && n != 10 && n != 9 && n != 127 && n != 8 && n != 3 && n != 4 && n != 27
}

/// Whether all characters mean nothing but themselves when they are typed.
pub open spec fn all_literal(text: Text) -> bool {
    forall|i: int| 0 <= i < text.len() ==> is_literal(#[trigger] text[i])
}

proof fn lemma_literal_has_no_key(c: char)
    ensures
        is_literal(c) <==> control_key(c) is None,
{
}

// ---------------------------------------------------------------------------
// Typing
// ---------------------------------------------------------------------------

/// Text without control characters is typed whole, by one command that carries it.
pub proof fn law_literal_text_is_typed_whole(pane: Text, text: Text)
    requires
        all_literal(text),
    ensures
        input_commands(pane, text) == type_out(pane, text),
{
    assert forall|i: int| 0 <= i < text.len() implies control_key(#[trigger] text[i]) is None by {
        assert(is_literal(text[i]));
        lemma_literal_has_no_key(text[i]);
    }
    law_plain_text_is_typed(pane, text);
}

/// The same of printable text: what is at least a space and not delete.
pub proof fn law_printable_text_is_typed_whole(pane: Text, text: Text)
    requires
        forall|i: int|
            0 <= i < text.len() ==> 0x20 <= (#[trigger] text[i]) as u32 && text[i] as u32 != 0x7f,
    ensures
        input_commands(pane, text) == type_out(pane, text),
{
    assert(all_literal(text));
    law_literal_text_is_typed_whole(pane, text);
}

proof fn lemma_literal_before(pane: Text, before: Text, rest: Text, held: Text)
    requires
        all_literal(before),
    ensures
        stroke_commands(pane, input_strokes(before + rest), held) == stroke_commands(
            pane,
            input_strokes(rest),
            held + before,
        ),
    decreases before.len(),
{
    if before.len() == 0 {
        assert(before + rest =~= rest);
        assert(held + before =~= held);
    } else {
        let s = before + rest;
        let c = before[0];
        assert(is_literal(before[0]));
        lemma_literal_has_no_key(c);
        assert(s[0] == c);
        assert(s.skip(1) =~= before.skip(1) + rest);
        let after = input_strokes(before.skip(1) + rest);
        assert(input_strokes(s) == seq![Stroke::Typed(seq![c])] + after);
        assert(input_strokes(s).skip(1) =~= after);
        assert forall|i: int| 0 <= i < before.skip(1).len() implies is_literal(
            #[trigger] before.skip(1)[i],
        ) by {
            assert(is_literal(before[i + 1]));
        }
        lemma_literal_before(pane, before.skip(1), rest, held + seq![c]);
        assert(held + seq![c] + before.skip(1) =~= held + before);
    }
}

proof fn lemma_key_after(pane: Text, before: Text, strokes: Seq<Stroke>, key: Text, rest: Text)
    requires
        strokes == seq![Stroke::Key(key)] + input_strokes(rest),
    ensures
        stroke_commands(pane, strokes, before) == type_out(pane, before) + press(pane, key)
            + input_commands(pane, rest),
{
    assert(strokes[0] == Stroke::Key(key));
    assert(strokes.skip(1) =~= input_strokes(rest));
    assert(literal_command(pane, before) == type_out(pane, before));
    assert(key_command(pane, key) == press(pane, key));
}

/// The command for `before`, then the one for a key, then those for the rest.
pub open spec fn pressed_between(pane: Text, before: Text, key: Text, rest: Text) -> Text {
    type_out(pane, before) + press(pane, key) + input_commands(pane, rest)
}

proof fn lemma_control_key(pane: Text, before: Text, c: char, rest: Text)
    requires
        all_literal(before),
        control_key(c) is Some,
        c == '\u{1b}' ==> rest.len() <= 1 || rest[0] != '[',
    ensures
        input_commands(pane, before + seq![c] + rest) == pressed_between(
            pane,
            before,
            control_key(c)->0,
            rest,
        ),
{
    let none: Text = seq![];
    let tail = seq![c] + rest;
    assert(before + seq![c] + rest =~= before + tail);
    lemma_literal_before(pane, before, tail, none);
    assert(none + before =~= before);
    assert(tail[0] == c);
    assert(rest.len() > 0 ==> tail[1] == rest[0]);
    assert(!opens_sequence(tail));
    assert(tail.skip(1) =~= rest);
    lemma_key_after(pane, before, input_strokes(tail), control_key(c)->0, rest);
}

/// Each control character presses its key once, behind what was typed before it and ahead of what
/// comes after it.
pub proof fn law_control_characters_press_their_keys(pane: Text, before: Text, rest: Text)
    requires
        all_literal(before),
    ensures
        input_commands(pane, before + seq!['\r'] + rest) == pressed_between(
            pane,
            before,
            "Enter"@,
            rest,
        ),
        input_commands(pane, before + seq!['\n'] + rest) == pressed_between(
            pane,
            before,
            "Enter"@,
            rest,
        ),
        input_commands(pane, before + seq!['\t'] + rest) == pressed_between(
            pane,
            before,
            "Tab"@,
            rest,
        ),
        input_commands(pane, before + seq!['\u{7f}'] + rest) == pressed_between(
            pane,
            before,
            "BSpace"@,
            rest,
        ),
        input_commands(pane, before + seq!['\u{8}'] + rest) == pressed_between(
            pane,
            before,
            "BSpace"@,
            rest,
        ),
        input_commands(pane, before + seq!['\u{3}'] + rest) == pressed_between(
            pane,
            before,
            "C-c"@,
            rest,
        ),
        input_commands(pane, before + seq!['\u{4}'] + rest) == pressed_between(
            pane,
            before,
            "C-d"@,
            rest,
        ),
        rest.len() <= 1 || rest[0] != '[' ==> input_commands(pane, before + seq!['\u{1b}'] + rest)
            == pressed_between(pane, before, "Escape"@, rest),
{
    lemma_control_key(pane, before, '\r', rest);
    lemma_control_key(pane, before, '\n', rest);
    lemma_control_key(pane, before, '\t', rest);
    lemma_control_key(pane, before, '\u{7f}', rest);
    lemma_control_key(pane, before, '\u{8}', rest);
    lemma_control_key(pane, before, '\u{3}', rest);
    lemma_control_key(pane, before, '\u{4}', rest);
    if rest.len() <= 1 || rest[0] != '[' {
        lemma_control_key(pane, before, '\u{1b}', rest);
    }
}

/// Whether a character can stand in a control sequence without ending it.
pub open spec fn is_inner(c: char) -> bool {
    (c as u32) < 64 || c as u32 > 126
}

proof fn lemma_final_at(s: Text, from: int, at: int)
    requires
        0 <= from <= at < s.len(),
        is_final(s[at]),
        forall|i: int| from <= i < at ==> !is_final(#[trigger] s[i]),
    ensures
        final_from(s, from) == Some(at),
    decreases at - from,
{
    if from < at {
        assert(!is_final(s[from]));
        lemma_final_at(s, from + 1, at);
    }
}

proof fn lemma_no_final(s: Text, from: int)
    requires
        0 <= from,
        forall|i: int| from <= i < s.len() ==> !is_final(#[trigger] s[i]),
    ensures
        final_from(s, from) is None,
    decreases s.len() - from,
{
    if from < s.len() {
        lemma_no_final(s, from + 1);
    }
}

proof fn lemma_sequence(pane: Text, before: Text, params: Text, last: char, rest: Text)
    requires
        all_literal(before),
        forall|i: int| 0 <= i < params.len() ==> is_inner(#[trigger] params[i]),
        !is_inner(last),
    ensures
        input_commands(pane, before + seq!['\u{1b}', '['] + params + seq![last] + rest) == type_out(
            pane,
            before,
        ) + (match sequence_key(params, last) {
            Some(key) => press(pane, key),
            None => seq![],
        }) + input_commands(pane, rest),
{
    let none: Text = seq![];
    let tail = seq!['\u{1b}', '['] + params + seq![last] + rest;
    let at = 2 + params.len() as int;
    assert(before + seq!['\u{1b}', '['] + params + seq![last] + rest =~= before + tail);
    lemma_literal_before(pane, before, tail, none);
    assert(none + before =~= before);
    assert(tail[at] == last);
    assert forall|i: int| 2 <= i < at implies !is_final(#[trigger] tail[i]) by {
        assert(tail[i] == params[i - 2]);
        assert(is_inner(params[i - 2]));
    }
    lemma_final_at(tail, 2, at);
    assert(opens_sequence(tail));
    assert(tail.subrange(2, at) =~= params);
    assert(tail.skip(at + 1) =~= rest);
    let strokes = input_strokes(tail);
    assert(strokes == seq![key_or_break(sequence_key(params, last))] + input_strokes(rest));
    match sequence_key(params, last) {
        Some(key) => {
            lemma_key_after(pane, before, strokes, key, rest);
        },
        None => {
            assert(strokes[0] == Stroke::Break);
            assert(strokes.skip(1) =~= input_strokes(rest));
            assert(literal_command(pane, before) == type_out(pane, before));
            assert(type_out(pane, before) + none =~= type_out(pane, before));
        },
    }
}

/// What the control sequence `ESC [ params last` comes to between `before` and `rest`.
pub open spec fn sequenced(pane: Text, before: Text, params: Text, last: char, rest: Text) -> Text {
    input_commands(pane, before + seq!['\u{1b}', '['] + params + seq![last] + rest)
}

/// The control sequences of the cursor and editing keys press these keys.
pub proof fn law_control_sequences_press_their_keys(pane: Text, before: Text, rest: Text)
    requires
        all_literal(before),
    ensures
        sequenced(pane, before, ""@, 'A', rest) == pressed_between(pane, before, "Up"@, rest),
        sequenced(pane, before, ""@, 'B', rest) == pressed_between(pane, before, "Down"@, rest),
        sequenced(pane, before, ""@, 'C', rest) == pressed_between(pane, before, "Right"@, rest),
        sequenced(pane, before, ""@, 'D', rest) == pressed_between(pane, before, "Left"@, rest),
        sequenced(pane, before, ""@, 'H', rest) == pressed_between(pane, before, "Home"@, rest),
        sequenced(pane, before, "1"@, '~', rest) == pressed_between(pane, before, "Home"@, rest),
        sequenced(pane, before, "7"@, '~', rest) == pressed_between(pane, before, "Home"@, rest),
        sequenced(pane, before, ""@, 'F', rest) == pressed_between(pane, before, "End"@, rest),
        sequenced(pane, before, "4"@, '~', rest) == pressed_between(pane, before, "End"@, rest),
        sequenced(pane, before, "8"@, '~', rest) == pressed_between(pane, before, "End"@, rest),
        sequenced(pane, before, "3"@, '~', rest) == pressed_between(pane, before, "DC"@, rest),
        sequenced(pane, before, "5"@, '~', rest) == pressed_between(pane, before, "PPage"@, rest),
        sequenced(pane, before, "6"@, '~', rest) == pressed_between(pane, before, "NPage"@, rest),
{
    lemma_parameter_texts();
    lemma_sequence(pane, before, ""@, 'A', rest);
    lemma_sequence(pane, before, ""@, 'B', rest);
    lemma_sequence(pane, before, ""@, 'C', rest);
    lemma_sequence(pane, before, ""@, 'D', rest);
    lemma_sequence(pane, before, ""@, 'H', rest);
    lemma_sequence(pane, before, ""@, 'F', rest);
    lemma_sequence(pane, before, "1"@, '~', rest);
    lemma_sequence(pane, before, "7"@, '~', rest);
    lemma_sequence(pane, before, "4"@, '~', rest);
    lemma_sequence(pane, before, "8"@, '~', rest);
    lemma_sequence(pane, before, "3"@, '~', rest);
    lemma_sequence(pane, before, "5"@, '~', rest);
    lemma_sequence(pane, before, "6"@, '~', rest);
}

proof fn lemma_parameter_texts()
    ensures
        ""@ == Seq::<char>::empty(),
        "1"@ == seq!['1'] && "1"@[0] == '1',
        "3"@ == seq!['3'] && "3"@[0] == '3',
        "4"@ == seq!['4'] && "4"@[0] == '4',
        "5"@ == seq!['5'] && "5"@[0] == '5',
        "6"@ == seq!['6'] && "6"@[0] == '6',
        "7"@ == seq!['7'] && "7"@[0] == '7',
        "8"@ == seq!['8'] && "8"@[0] == '8',
{
    reveal_strlit("");
    reveal_strlit("1");
    reveal_strlit("3");
    reveal_strlit("4");
    reveal_strlit("5");
    reveal_strlit("6");
    reveal_strlit("7");
    reveal_strlit("8");
    assert(""@ =~= Seq::<char>::empty());
    assert("1"@ =~= seq!['1']);
    assert("3"@ =~= seq!['3']);
    assert("4"@ =~= seq!['4']);
    assert("5"@ =~= seq!['5']);
    assert("6"@ =~= seq!['6']);
    assert("7"@ =~= seq!['7']);
    assert("8"@ =~= seq!['8']);
}

/// Whether `ESC [ params last` is the sequence of a cursor or editing key.
pub open spec fn is_key_sequence(params: Text, last: char) -> bool {
    ||| params.len() == 0 && (last == 'A' || last == 'B' || last == 'C' || last == 'D' || last
        == 'H' || last == 'F')
    ||| params.len() == 1 && last == '~' && (params[0] == '1' || params[0] == '3' || params[0]
        == '4' || params[0] == '5' || params[0] == '6' || params[0] == '7' || params[0] == '8')
}

/// Any other complete control sequence is dropped: it types and presses nothing.
pub proof fn law_other_control_sequences_are_dropped(
    pane: Text,
    before: Text,
    params: Text,
    last: char,
    rest: Text,
)
    requires
        all_literal(before),
        forall|i: int| 0 <= i < params.len() ==> is_inner(#[trigger] params[i]),
        !is_inner(last),
        !is_key_sequence(params, last),
    ensures
        sequenced(pane, before, params, last, rest) == type_out(pane, before) + input_commands(
            pane,
            rest,
        ),
{
    lemma_parameter_texts();
    assert(sequence_key(params, last) is None);
    lemma_sequence(pane, before, params, last, rest);
    let none: Text = seq![];
    assert(type_out(pane, before) + none =~= type_out(pane, before));
}

/// A control sequence that does not end is the escape key, and what stands behind that is typed.
pub proof fn law_unfinished_control_sequence_is_escape(pane: Text, before: Text, params: Text)
    requires
        all_literal(before),
        params.len() > 0,
        forall|i: int| 0 <= i < params.len() ==> is_inner(#[trigger] params[i]),
    ensures
        input_commands(pane, before + seq!['\u{1b}', '['] + params) == pressed_between(
            pane,
            before,
            "Escape"@,
            seq!['['] + params,
        ),
{
    let none: Text = seq![];
    let tail = seq!['\u{1b}', '['] + params;
    assert(before + seq!['\u{1b}', '['] + params =~= before + tail);
    lemma_literal_before(pane, before, tail, none);
    assert(none + before =~= before);
    assert forall|i: int| 2 <= i < tail.len() implies !is_final(#[trigger] tail[i]) by {
        assert(tail[i] == params[i - 2]);
        assert(is_inner(params[i - 2]));
    }
    lemma_no_final(tail, 2);
    assert(opens_sequence(tail));
    assert(tail.skip(1) =~= seq!['['] + params);
    lemma_key_after(pane, before, input_strokes(tail), "Escape"@, seq!['['] + params);
}

// ---------------------------------------------------------------------------
// Pasting
// ---------------------------------------------------------------------------

/// What strokes spell: typed text as it is, Enter as a line feed, Tab as a tab.
pub open spec fn spelled(strokes: Seq<Stroke>) -> Text
    decreases strokes.len(),
{
    if strokes.len() == 0 {
        seq![]
    } else {
        (match strokes[0] {
            Stroke::Typed(text) => text,
            Stroke::Key(key) => if key == "Enter"@ {
                seq!['\n']
            } else if key == "Tab"@ {
                seq!['\t']
            } else {
                seq![]
            },
            Stroke::Break => seq![],
        }) + spelled(strokes.skip(1))
    }
}

/// A text without its carriage returns.
pub open spec fn without_returns(s: Text) -> Text {
    s.filter(|c: char| c != '\r')
}

proof fn lemma_without_first_return(s: Text)
    requires
        s.len() > 0,
    ensures
        without_returns(s) == if s[0] == '\r' {
            without_returns(s.skip(1))
        } else {
            seq![s[0]] + without_returns(s.skip(1))
        },
    decreases s.len(),
{
    reveal(Seq::filter);
    let keep = |c: char| c != '\r';
    let rest = s.skip(1);
    if s.len() == 1 {
        assert(s.drop_last() =~= Seq::<char>::empty());
        assert(rest =~= Seq::<char>::empty());
        assert(s.drop_last().filter(keep) =~= Seq::<char>::empty());
        assert(rest.filter(keep) =~= Seq::<char>::empty());
        assert(s.filter(keep) =~= if s[0] == '\r' {
            rest.filter(keep)
        } else {
            seq![s[0]] + rest.filter(keep)
        });
    } else {
        lemma_without_first_return(s.drop_last());
        assert(s.drop_last().skip(1) =~= rest.drop_last());
        assert(s.last() == rest.last());
        assert(s.filter(keep) =~= if s[0] == '\r' {
            rest.filter(keep)
        } else {
            seq![s[0]] + rest.filter(keep)
        });
    }
}

proof fn lemma_spelled_first(stroke: Stroke, rest: Seq<Stroke>)
    ensures
        spelled(seq![stroke] + rest) == spelled(seq![stroke]) + spelled(rest),
{
    let all = seq![stroke] + rest;
    let none: Seq<Stroke> = seq![];
    assert(all[0] == stroke);
    assert(all.skip(1) =~= rest);
    assert(seq![stroke].skip(1) =~= none);
    assert(spelled(none) == Seq::<char>::empty());
    assert(spelled(seq![stroke]) + spelled(rest) =~= spelled(all));
}

proof fn lemma_spelled_one(stroke: Stroke)
    ensures
        stroke matches Stroke::Typed(text) ==> spelled(seq![stroke]) == text,
        stroke == Stroke::Key("Enter"@) ==> spelled(seq![stroke]) == seq!['\n'],
        stroke == Stroke::Key("Tab"@) ==> spelled(seq![stroke]) == seq!['\t'],
        stroke is Break ==> spelled(seq![stroke]) == Seq::<char>::empty(),
{
    reveal_strlit("Enter");
    reveal_strlit("Tab");
    assert("Enter"@.len() != "Tab"@.len());
    let none: Seq<Stroke> = seq![];
    assert(seq![stroke].skip(1) =~= none);
    assert(spelled(none) == Seq::<char>::empty());
    if let Stroke::Typed(text) = stroke {
        assert(text + Seq::<char>::empty() =~= text);
    }
    assert(seq!['\n'] + Seq::<char>::empty() =~= seq!['\n']);
    assert(seq!['\t'] + Seq::<char>::empty() =~= seq!['\t']);
    assert(Seq::<char>::empty() + Seq::<char>::empty() =~= Seq::<char>::empty());
}

proof fn lemma_paste_spells(s: Text, held: Text)
    ensures
        spelled(paste_strokes(s, held)) == without_returns(s),
    decreases s.len(),
{
    reveal(Seq::filter);
    if s.len() > 0 {
        let none: Text = seq![];
        let rest = s.skip(1);
        lemma_without_first_return(s);
        lemma_paste_spells(rest, held);
        lemma_paste_spells(rest, none);
        lemma_paste_spells(rest, held.push(s[0]));
        let fresh = paste_strokes(rest, none);
        let typed = Stroke::Typed(seq![s[0]]);
        lemma_spelled_one(typed);
        lemma_spelled_one(Stroke::Key("Enter"@));
        lemma_spelled_one(Stroke::Key("Tab"@));
        lemma_spelled_one(Stroke::Break);
        lemma_spelled_first(Stroke::Key("Enter"@), fresh);
        lemma_spelled_first(Stroke::Key("Tab"@), fresh);
        lemma_spelled_first(Stroke::Break, fresh);
        lemma_spelled_first(typed, seq![Stroke::Break] + fresh);
        lemma_spelled_first(typed, paste_strokes(rest, held.push(s[0])));
        assert(seq![typed, Stroke::Break] + fresh =~= seq![typed] + (seq![Stroke::Break] + fresh));
        assert(none + spelled(fresh) =~= spelled(fresh));
    }
}

/// A paste keeps its lines: its strokes spell the pasted text without carriage returns, in order,
/// with every line feed and every tab.
pub proof fn law_paste_spells_the_text(s: Text)
    ensures
        spelled(paste_strokes(s, seq![])) == without_returns(s),
{
    lemma_paste_spells(s, seq![]);
}

/// The commands that open a bracketed paste.
pub open spec fn paste_opening(pane: Text) -> Text {
    press(pane, "Escape"@) + ("send-keys -t "@ + pane + " -l -- '[200~'\n"@)
}

/// The commands that close a bracketed paste.
pub open spec fn paste_closing(pane: Text) -> Text {
    press(pane, "Escape"@) + ("send-keys -t "@ + pane + " -l -- '[201~'\n"@)
}

/// What a paste comes to between its marks.
pub open spec fn paste_body(pane: Text, s: Text) -> Text {
    let all = paste_commands(pane, s);
    all.subrange(
        paste_opening(pane).len() as int,
        all.len() - paste_closing(pane).len(),
    )
}

proof fn lemma_paste_marks(pane: Text)
    ensures
        paste_mark(pane, "'[200~'"@) == paste_opening(pane),
        paste_mark(pane, "'[201~'"@) == paste_closing(pane),
{
    reveal_strlit("'[200~'");
    reveal_strlit("'[201~'");
    reveal_strlit(" -l -- ");
    reveal_strlit("\n");
    reveal_strlit(" -l -- '[200~'\n");
    reveal_strlit(" -l -- '[201~'\n");
    assert(" -l -- "@ + "'[200~'"@ + "\n"@ =~= " -l -- '[200~'\n"@);
    assert(" -l -- "@ + "'[201~'"@ + "\n"@ =~= " -l -- '[201~'\n"@);
    assert(paste_mark(pane, "'[200~'"@) =~= paste_opening(pane));
    assert(paste_mark(pane, "'[201~'"@) =~= paste_closing(pane));
}

proof fn lemma_paste_body(pane: Text, s: Text)
    ensures
        paste_commands(pane, s) == paste_opening(pane) + paste_body(pane, s) + paste_closing(pane),
        paste_body(pane, s) == stroke_commands(pane, paste_strokes(s, seq![]), seq![]),
{
    lemma_paste_marks(pane);
    let body = stroke_commands(pane, paste_strokes(s, seq![]), seq![]);
    assert(paste_commands(pane, s) == paste_opening(pane) + body + paste_closing(pane));
    assert(paste_body(pane, s) =~= body);
}

/// A paste stands between the marks of bracketed paste.
pub proof fn law_paste_is_bracketed(pane: Text, s: Text)
    ensures
        paste_commands(pane, s) == paste_opening(pane) + paste_body(pane, s) + paste_closing(pane),
{
    lemma_paste_body(pane, s);
}

/// Whether a text is pasted as it is: it holds no carriage return, line feed or tab.
pub open spec fn on_one_line(s: Text) -> bool {
    forall|i: int|
        0 <= i < s.len() ==> (#[trigger] s[i]) != '\r' && s[i] != '\n' && s[i] != '\t'
}

proof fn lemma_longer_text(a: Text, b: Text)
    ensures
        encode_utf8(a).len() <= encode_utf8(a + b).len(),
{
    lemma_encode_concat(a, b);
}

proof fn lemma_pasted_before(pane: Text, a: Text, rest: Text, held: Text)
    requires
        on_one_line(a),
        encode_utf8(held + a).len() < 2048,
    ensures
        stroke_commands(pane, paste_strokes(a + rest, held), held) == stroke_commands(
            pane,
            paste_strokes(rest, held + a),
            held + a,
        ),
    decreases a.len(),
{
    if a.len() == 0 {
        assert(a + rest =~= rest);
        assert(held + a =~= held);
    } else {
        let s = a + rest;
        let c = a[0];
        let more = held.push(c);
        assert(s[0] == c);
        assert(s.skip(1) =~= a.skip(1) + rest);
        assert(more + a.skip(1) =~= held + a);
        lemma_longer_text(more, a.skip(1));
        assert forall|i: int| 0 <= i < a.skip(1).len() implies (#[trigger] a.skip(1)[i]) != '\r'
            && a.skip(1)[i] != '\n' && a.skip(1)[i] != '\t' by {
            assert(a[i + 1] != '\r');
        }
        let strokes = paste_strokes(s, held);
        let after = paste_strokes(a.skip(1) + rest, more);
        assert(strokes == seq![Stroke::Typed(seq![c])] + after);
        assert(strokes.skip(1) =~= after);
        assert(held + seq![c] =~= more);
        lemma_pasted_before(pane, a.skip(1), rest, more);
    }
}

proof fn lemma_pasted_key(pane: Text, a: Text, c: char, key: Text, rest: Text)
    requires
        on_one_line(a),
        encode_utf8(a).len() < 2048,
        c == '\n' && key == "Enter"@ || c == '\t' && key == "Tab"@,
    ensures
        paste_body(pane, a + seq![c] + rest) == type_out(pane, a) + press(pane, key) + paste_body(
            pane,
            rest,
        ),
{
    let none: Text = seq![];
    let tail = seq![c] + rest;
    assert(a + seq![c] + rest =~= a + tail);
    assert(none + a =~= a);
    lemma_paste_body(pane, a + tail);
    lemma_paste_body(pane, rest);
    lemma_pasted_before(pane, a, tail, none);
    assert(tail[0] == c);
    assert(tail.skip(1) =~= rest);
    let strokes = paste_strokes(tail, a);
    assert(strokes == seq![Stroke::Key(key)] + paste_strokes(rest, none));
    assert(strokes.skip(1) =~= paste_strokes(rest, none));
    assert(literal_command(pane, a) == type_out(pane, a));
    assert(key_command(pane, key) == press(pane, key));
}

/// Each line of a paste is typed, with one Enter for each line feed and one Tab for each tab, also
/// where lines are empty.
pub proof fn law_paste_goes_line_by_line(pane: Text, a: Text, rest: Text)
    requires
        on_one_line(a),
        encode_utf8(a).len() < 2048,
    ensures
        paste_body(pane, a) == type_out(pane, a),
        paste_body(pane, a + seq!['\n'] + rest) == type_out(pane, a) + press(pane, "Enter"@)
            + paste_body(pane, rest),
        paste_body(pane, a + seq!['\t'] + rest) == type_out(pane, a) + press(pane, "Tab"@)
            + paste_body(pane, rest),
{
    let none: Text = seq![];
    lemma_pasted_key(pane, a, '\n', "Enter"@, rest);
    lemma_pasted_key(pane, a, '\t', "Tab"@, rest);
    lemma_paste_body(pane, a);
    lemma_pasted_before(pane, a, none, none);
    assert(a + none =~= a);
    assert(none + a =~= a);
    assert(literal_command(pane, a) == type_out(pane, a));
}

/// A long line is typed in pieces of at least 2048 bytes, each as soon as it is that long.
pub proof fn law_long_lines_are_pasted_in_pieces(pane: Text, a: Text, rest: Text)
    requires
        on_one_line(a),
        a.len() > 0,
        encode_utf8(a.drop_last()).len() < 2048,
        encode_utf8(a).len() >= 2048,
    ensures
        paste_body(pane, a + rest) == type_out(pane, a) + paste_body(pane, rest),
{
    let none: Text = seq![];
    let less = a.drop_last();
    let c = a.last();
    let tail = seq![c] + rest;
    assert(a + rest =~= less + tail);
    assert(none + less =~= less);
    assert forall|i: int| 0 <= i < less.len() implies (#[trigger] less[i]) != '\r' && less[i]
        != '\n' && less[i] != '\t' by {
        assert(a[i] != '\r');
    }
    lemma_paste_body(pane, a + rest);
    lemma_paste_body(pane, rest);
    lemma_pasted_before(pane, less, tail, none);
    assert(a[a.len() - 1] != '\r');
    assert(tail[0] == c);
    assert(tail.skip(1) =~= rest);
    assert(less.push(c) =~= a);
    let strokes = paste_strokes(tail, less);
    let after = paste_strokes(rest, none);
    assert(strokes == seq![Stroke::Typed(seq![c]), Stroke::Break] + after);
    assert(strokes.skip(1) =~= seq![Stroke::Break] + after);
    assert(strokes.skip(1).skip(1) =~= after);
    assert(less + seq![c] =~= a);
    reveal_with_fuel(stroke_commands, 2);
    assert(literal_command(pane, a) == type_out(pane, a));
}

proof fn lemma_return_is_dropped(a: Text, rest: Text, held: Text)
    ensures
        paste_strokes(a + seq!['\r'] + rest, held) == paste_strokes(a + rest, held),
    decreases a.len(),
{
    let s = a + seq!['\r'] + rest;
    let t = a + rest;
    if a.len() == 0 {
        assert(s[0] == '\r');
        assert(s.skip(1) =~= t);
    } else {
        let none: Text = seq![];
        assert(s[0] == a[0] && t[0] == a[0]);
        assert(s.skip(1) =~= a.skip(1) + seq!['\r'] + rest);
        assert(t.skip(1) =~= a.skip(1) + rest);
        lemma_return_is_dropped(a.skip(1), rest, held);
        lemma_return_is_dropped(a.skip(1), rest, none);
        lemma_return_is_dropped(a.skip(1), rest, held.push(a[0]));
    }
}

/// A carriage return in a paste comes to nothing, wherever it stands.
pub proof fn law_pasted_returns_are_dropped(pane: Text, a: Text, rest: Text)
    ensures
        paste_commands(pane, a + seq!['\r'] + rest) == paste_commands(pane, a + rest),
{
    lemma_return_is_dropped(a, rest, seq![]);
}

} // verus!
