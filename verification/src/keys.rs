//! Typed and pasted input, turned into tmux commands that press the keys.
use vstd::prelude::*;
use vstd::string::*;
use vstd::utf8::encode_utf8;
use crate::outside::{readable, readable_text};
use crate::quote::{law_quoting_keeps_lines, tmux_quote, tmux_quoted};
use crate::text::{chars_of, lemma_position_at, lemma_position_from, position, starts_with, Text};

verus! {

/// How many bytes of pasted text one command carries at least before the next one starts.
pub const PASTE_LITERAL_BYTES: usize = 2048;

// ---------------------------------------------------------------------------
// Commands
// ---------------------------------------------------------------------------

/// The command that presses `key` in `pane`.
pub open spec fn key_command(pane: Text, key: Text) -> Text {
    "send-keys -t "@ + pane + " "@ + key + "\n"@
}

/// The command that types `literal` into `pane`; nothing where there is nothing to type.
pub open spec fn literal_command(pane: Text, literal: Text) -> Text {
    if literal.len() == 0 {
        seq![]
    } else {
        "send-keys -t "@ + pane + " -l -- "@ + tmux_quoted(literal) + "\n"@
    }
}

/// Appends the command that presses `key` in `pane`.
fn push_key(commands: &mut String, pane: &str, key: &str)
    ensures
        final(commands)@ == old(commands)@ + key_command(pane@, key@),
{
    let mut command = "send-keys -t ".to_string();
    command.append(pane);
    command.append(" ");
    command.append(key);
    command.append("\n");
    commands.append(command.as_str());
}

/// Appends the command that types `literal` into `pane`, and empties it.
pub fn flush_tmux_literal(commands: &mut String, pane: &str, literal: &mut String)
    ensures
        final(commands)@ == old(commands)@ + literal_command(pane@, old(literal)@),
        final(literal)@ == Seq::<char>::empty(),
{
    if literal.as_str().is_empty() {
        assert(literal@ == Seq::<char>::empty());
        assert(commands@ + literal_command(pane@, literal@) == commands@);
        return;
    }
    let mut command = "send-keys -t ".to_string();
    command.append(pane);
    command.append(" -l -- ");
    let text = tmux_quote(literal.as_str());
    command.append(text.as_str());
    command.append("\n");
    commands.append(command.as_str());
    *literal = String::new();
}

// ---------------------------------------------------------------------------
// Keystrokes
// ---------------------------------------------------------------------------

/// One step of input.
#[verifier::ext_equal]
pub enum Stroke {
    /// Text that is typed as it is.
    Typed(Text),
    /// A key with a name.
    Key(Text),
    /// An end of the typed text, with no key behind it.
    Break,
}

/// The commands that perform `strokes` in `pane` when `literal` is still to be typed. Characters
/// typed one behind the other share a command.
pub open spec fn stroke_commands(pane: Text, strokes: Seq<Stroke>, literal: Text) -> Text
    decreases strokes.len(),
{
    if strokes.len() == 0 {
        literal_command(pane, literal)
    } else {
        match strokes[0] {
            Stroke::Typed(text) => stroke_commands(pane, strokes.skip(1), literal + text),
            Stroke::Key(key) => literal_command(pane, literal) + key_command(pane, key)
                + stroke_commands(pane, strokes.skip(1), seq![]),
            Stroke::Break => literal_command(pane, literal) + stroke_commands(
                pane,
                strokes.skip(1),
                seq![],
            ),
        }
    }
}

/// The key that a control character stands for.
pub open spec fn control_key(c: char) -> Option<Text> {
    if c == '\r' || c == '\n' {
        Some("Enter"@)
    } else if c == '\t' {
        Some("Tab"@)
    } else if c == '\u{7f}' || c == '\u{8}' {
        Some("BSpace"@)
    } else if c == '\u{3}' {
        Some("C-c"@)
    } else if c == '\u{4}' {
        Some("C-d"@)
    } else if c == '\u{1b}' {
        Some("Escape"@)
    } else {
        None
    }
}

/// The key that a control sequence with these parameters and this last character stands for.
pub open spec fn sequence_key(params: Text, last: char) -> Option<Text> {
    if params == ""@ && last == 'A' {
        Some("Up"@)
    } else if params == ""@ && last == 'B' {
        Some("Down"@)
    } else if params == ""@ && last == 'C' {
        Some("Right"@)
    } else if params == ""@ && last == 'D' {
        Some("Left"@)
    } else if (params == ""@ && last == 'H') || (params == "1"@ && last == '~') || (params == "7"@
        && last == '~') {
        Some("Home"@)
    } else if (params == ""@ && last == 'F') || (params == "4"@ && last == '~') || (params == "8"@
        && last == '~') {
        Some("End"@)
    } else if params == "3"@ && last == '~' {
        Some("DC"@)
    } else if params == "5"@ && last == '~' {
        Some("PPage"@)
    } else if params == "6"@ && last == '~' {
        Some("NPage"@)
    } else {
        None
    }
}

/// A character that ends a control sequence.
pub open spec fn is_final(c: char) -> bool {
    '@' <= c <= '~'
}

/// The first character at or after `from` that ends a control sequence.
pub open spec fn final_from(s: Text, from: int) -> Option<int>
    decreases s.len() - from,
{
    if from < 0 || from >= s.len() {
        None
    } else if is_final(s[from]) {
        Some(from)
    } else {
        final_from(s, from + 1)
    }
}

proof fn lemma_final_from(s: Text, from: int)
    requires
        0 <= from,
    ensures
        match final_from(s, from) {
            Some(i) => from <= i < s.len() && is_final(s[i]) && forall|j: int|
                from <= j < i ==> !is_final(#[trigger] s[j]),
            None => forall|j: int| from <= j < s.len() ==> !is_final(#[trigger] s[j]),
        },
    decreases s.len() - from,
{
    if from < s.len() && !is_final(s[from]) {
        lemma_final_from(s, from + 1);
    }
}

proof fn lemma_final_shift(s: Text, base: int, from: int)
    requires
        0 <= base <= from,
        base <= s.len(),
    ensures
        match final_from(s, from) {
            Some(i) => final_from(s.skip(base), from - base) == Some(i - base),
            None => final_from(s.skip(base), from - base) is None,
        },
    decreases s.len() - from,
{
    if from < s.len() {
        assert(s.skip(base)[from - base] == s[from]);
        if !is_final(s[from]) {
            lemma_final_shift(s, base, from + 1);
        }
    }
}

/// Whether `s` starts with what opens a control sequence, and more.
pub open spec fn opens_sequence(s: Text) -> bool {
    s.len() > 2 && s[0] == '\u{1b}' && s[1] == '['
}

/// The key as a stroke; a break where there is none.
pub open spec fn key_or_break(key: Option<Text>) -> Stroke {
    match key {
        Some(k) => Stroke::Key(k),
        None => Stroke::Break,
    }
}

/// The strokes of typed input. A control sequence without its end counts as the escape key and the
/// characters behind it; one that stands for no key is dropped.
pub open spec fn input_strokes(s: Text) -> Seq<Stroke>
    decreases s.len(),
    via input_shortens
{
    if s.len() == 0 {
        seq![]
    } else if opens_sequence(s) {
        match final_from(s, 2) {
            Some(f) => seq![key_or_break(sequence_key(s.subrange(2, f), s[f]))] + input_strokes(
                s.skip(f + 1),
            ),
            None => seq![Stroke::Key("Escape"@)] + input_strokes(s.skip(1)),
        }
    } else {
        match control_key(s[0]) {
            Some(key) => seq![Stroke::Key(key)] + input_strokes(s.skip(1)),
            None => seq![Stroke::Typed(seq![s[0]])] + input_strokes(s.skip(1)),
        }
    }
}

#[via_fn]
proof fn input_shortens(s: Text) {
    lemma_final_from(s, 2);
}

/// The commands for typed input.
pub open spec fn input_commands(pane: Text, input: Text) -> Text {
    stroke_commands(pane, input_strokes(input), seq![])
}

/// The first character at or after `from` that ends a control sequence.
fn final_position(chars: &Vec<char>, from: usize) -> (res: Option<usize>)
    ensures
        match res {
            Some(i) => final_from(chars@, from as int) == Some(i as int) && from <= i
                < chars@.len(),
            None => final_from(chars@, from as int) is None,
        },
{
    let mut i: usize = from;
    while i < chars.len()
        invariant
            from <= i,
            final_from(chars@, from as int) == final_from(chars@, i as int),
        decreases chars@.len() - i,
    {
        if '@' <= chars[i] && chars[i] <= '~' {
            return Some(i);
        }
        i += 1;
    }
    None
}

/// The key that the control sequence with the parameters `chars[from..to]` and the last character
/// `chars[to]` stands for.
fn sequence_key_name(chars: &Vec<char>, from: usize, to: usize) -> (res: Option<&'static str>)
    requires
        from <= to < chars@.len(),
    ensures
        match res {
            Some(key) => sequence_key(chars@.subrange(from as int, to as int), chars@[to as int])
                == Some(key@),
            None => sequence_key(
                chars@.subrange(from as int, to as int),
                chars@[to as int],
            ) is None,
        },
{
    let ghost params = chars@.subrange(from as int, to as int);
    proof {
        reveal_strlit("");
        reveal_strlit("1");
        reveal_strlit("3");
        reveal_strlit("4");
        reveal_strlit("5");
        reveal_strlit("6");
        reveal_strlit("7");
        reveal_strlit("8");
    }
    let last = chars[to];
    let count: usize = to - from;
    if count == 0 {
        assert(params == ""@);
        if last == 'A' {
            Some("Up")
        } else if last == 'B' {
            Some("Down")
        } else if last == 'C' {
            Some("Right")
        } else if last == 'D' {
            Some("Left")
        } else if last == 'H' {
            Some("Home")
        } else if last == 'F' {
            Some("End")
        } else {
            None
        }
    } else if count == 1 && last == '~' {
        let p = chars[from];
        assert(params == seq![p]);
        assert("1"@ == seq!['1'] && "3"@ == seq!['3'] && "4"@ == seq!['4'] && "5"@ == seq!['5']);
        assert("6"@ == seq!['6'] && "7"@ == seq!['7'] && "8"@ == seq!['8']);
        assert(params[0] == p);
        if p == '1' || p == '7' {
            Some("Home")
        } else if p == '4' || p == '8' {
            Some("End")
        } else if p == '3' {
            Some("DC")
        } else if p == '5' {
            Some("PPage")
        } else if p == '6' {
            Some("NPage")
        } else {
            None
        }
    } else {
        None
    }
}

/// The key that a control character stands for.
fn control_key_name(c: char) -> (res: Option<&'static str>)
    ensures
        match res {
            Some(key) => control_key(c) == Some(key@),
            None => control_key(c) is None,
        },
{
    if c == '\r' || c == '\n' {
        Some("Enter")
    } else if c == '\t' {
        Some("Tab")
    } else if c == '\u{7f}' || c == '\u{8}' {
        Some("BSpace")
    } else if c == '\u{3}' {
        Some("C-c")
    } else if c == '\u{4}' {
        Some("C-d")
    } else if c == '\u{1b}' {
        Some("Escape")
    } else {
        None
    }
}

proof fn lemma_typed_input(pane: Text, s: Text, literal: Text)
    requires
        s.len() > 0,
        !opens_sequence(s),
        control_key(s[0]) is None,
    ensures
        stroke_commands(pane, input_strokes(s), literal) == stroke_commands(
            pane,
            input_strokes(s.skip(1)),
            literal.push(s[0]),
        ),
{
    let after = input_strokes(s.skip(1));
    assert(input_strokes(s) == seq![Stroke::Typed(seq![s[0]])] + after);
    assert(input_strokes(s).skip(1) == after);
    assert(literal + seq![s[0]] == literal.push(s[0]));
}

/// The commands that type the text `input` into `pane`.
pub fn input_text_commands(pane: &str, input: &str) -> (res: String)
    ensures
        res@ == input_commands(pane@, input@),
{
    let chars = chars_of(input);
    let count: usize = chars.len();
    let mut commands = String::new();
    let mut literal = String::new();
    let mut index: usize = 0;
    let ghost whole = input_commands(pane@, input@);
    assert(input@.skip(0) == input@);
    assert(literal@ == Seq::<char>::empty());
    assert(commands@ + whole == whole);
    while index < count
        invariant
            chars@ == input@,
            count == input@.len(),
            0 <= index <= count,
            commands@ + stroke_commands(
                pane@,
                input_strokes(input@.skip(index as int)),
                literal@,
            ) == whole,
        decreases count - index,
    {
        let ghost rest = input@.skip(index as int);
        let ghost strokes = input_strokes(rest);
        let ghost commands0 = commands@;
        let ghost literal0 = literal@;
        assert(rest[0] == input@[index as int]);
        if count - index > 2 && chars[index] == '\u{1b}' && chars[index + 1] == '[' {
            assert(rest[1] == input@[index + 1]);
            flush_tmux_literal(&mut commands, pane, &mut literal);
            proof {
                lemma_final_shift(input@, index as int, index + 2);
            }
            match final_position(&chars, index + 2) {
                Some(end) => {
                    let key = sequence_key_name(&chars, index + 2, end);
                    proof {
                        assert(rest.subrange(2, end - index) == input@.subrange(index + 2, end as int));
                        assert(rest.skip(end - index + 1) == input@.skip(end + 1));
                        assert(strokes.skip(1) == input_strokes(input@.skip(end + 1)));
                    }
                    if let Some(key) = key {
                        push_key(&mut commands, pane, key);
                    }
                    index = end + 1;
                },
                None => {
                    assert(rest.skip(1) == input@.skip(index + 1));
                    assert(strokes.skip(1) == input_strokes(input@.skip(index + 1)));
                    push_key(&mut commands, pane, "Escape");
                    index += 1;
                },
            }
            proof {
                let next = stroke_commands(pane@, input_strokes(input@.skip(index as int)), seq![]);
                assert(literal@ == Seq::<char>::empty());
                assert(commands@ + next == whole);
            }
        } else {
            assert(count - index > 1 ==> rest[1] == input@[index + 1]);
            assert(rest.skip(1) == input@.skip(index + 1));
            let ghost after = input_strokes(rest.skip(1));
            let c = chars[index];
            assert(!opens_sequence(rest));
            match control_key_name(c) {
                Some(key) => {
                    assert(strokes == seq![Stroke::Key(key@)] + after);
                    assert(strokes.skip(1) == after);
                    flush_tmux_literal(&mut commands, pane, &mut literal);
                    push_key(&mut commands, pane, key);
                    proof {
                        let next = stroke_commands(
                            pane@,
                            input_strokes(input@.skip(index + 1)),
                            seq![],
                        );
                        assert(commands@ + next == commands0 + (literal_command(pane@, literal0)
                            + key_command(pane@, key@) + next));
                    }
                },
                None => {
                    proof {
                        lemma_typed_input(pane@, rest, literal0);
                    }
                    literal.push(c);
                },
            }
            index += 1;
        }
    }
    assert(input_strokes(input@.skip(index as int)) == Seq::<Stroke>::empty());
    flush_tmux_literal(&mut commands, pane, &mut literal);
    commands
}

/// The bytes that type `data` into `pane`; bytes that are not UTF-8 are replaced.
pub fn encode_tmux_control_input(pane: &str, data: &[u8]) -> (res: Vec<u8>)
    ensures
        res@ == encode_utf8(input_commands(pane@, readable(data@))),
{
    let text = readable_text(data);
    let commands = input_text_commands(pane, text.as_str());
    commands.as_str().as_bytes_vec()
}

// ---------------------------------------------------------------------------
// Pasting
// ---------------------------------------------------------------------------

/// The strokes of pasted text, when `held` is still to be typed. Carriage returns are dropped; a
/// long text is broken into pieces.
pub open spec fn paste_strokes(s: Text, held: Text) -> Seq<Stroke>
    decreases s.len(),
{
    if s.len() == 0 {
        seq![]
    } else if s[0] == '\r' {
        paste_strokes(s.skip(1), held)
    } else if s[0] == '\n' {
        seq![Stroke::Key("Enter"@)] + paste_strokes(s.skip(1), seq![])
    } else if s[0] == '\t' {
        seq![Stroke::Key("Tab"@)] + paste_strokes(s.skip(1), seq![])
    } else if encode_utf8(held.push(s[0])).len() >= PASTE_LITERAL_BYTES {
        seq![Stroke::Typed(seq![s[0]]), Stroke::Break] + paste_strokes(s.skip(1), seq![])
    } else {
        seq![Stroke::Typed(seq![s[0]])] + paste_strokes(s.skip(1), held.push(s[0]))
    }
}

proof fn lemma_typed_paste(pane: Text, s: Text, literal: Text)
    requires
        s.len() > 0,
        s[0] != '\r',
        s[0] != '\n',
        s[0] != '\t',
    ensures
        stroke_commands(pane, paste_strokes(s, literal), literal) == if encode_utf8(
            literal.push(s[0]),
        ).len() >= PASTE_LITERAL_BYTES {
            literal_command(pane, literal.push(s[0])) + stroke_commands(
                pane,
                paste_strokes(s.skip(1), seq![]),
                seq![],
            )
        } else {
            stroke_commands(
                pane,
                paste_strokes(s.skip(1), literal.push(s[0])),
                literal.push(s[0]),
            )
        },
{
    let strokes = paste_strokes(s, literal);
    assert(literal + seq![s[0]] == literal.push(s[0]));
    if encode_utf8(literal.push(s[0])).len() >= PASTE_LITERAL_BYTES {
        let after = paste_strokes(s.skip(1), seq![]);
        assert(strokes == seq![Stroke::Typed(seq![s[0]]), Stroke::Break] + after);
        assert(strokes.skip(1) == seq![Stroke::Break] + after);
        assert(strokes.skip(1).skip(1) == after);
        reveal_with_fuel(stroke_commands, 2);
    } else {
        let after = paste_strokes(s.skip(1), literal.push(s[0]));
        assert(strokes == seq![Stroke::Typed(seq![s[0]])] + after);
        assert(strokes.skip(1) == after);
    }
}

/// The command that types the mark of bracketed paste.
pub open spec fn paste_mark(pane: Text, mark: Text) -> Text {
    key_command(pane, "Escape"@) + ("send-keys -t "@ + pane + " -l -- "@ + mark + "\n"@)
}

/// The commands for pasted text: the text between the marks of bracketed paste.
pub open spec fn paste_commands(pane: Text, input: Text) -> Text {
    paste_mark(pane, "'[200~'"@) + stroke_commands(pane, paste_strokes(input, seq![]), seq![])
        + paste_mark(pane, "'[201~'"@)
}

/// Appends the command that types a mark of bracketed paste.
fn push_paste_mark(commands: &mut String, pane: &str, mark: &str)
    ensures
        final(commands)@ == old(commands)@ + paste_mark(pane@, mark@),
{
    let ghost before = commands@;
    push_key(commands, pane, "Escape");
    let mut command = "send-keys -t ".to_string();
    command.append(pane);
    command.append(" -l -- ");
    command.append(mark);
    command.append("\n");
    commands.append(command.as_str());
    assert(commands@ == before + paste_mark(pane@, mark@));
}

/// The commands that paste the text `input` into `pane`.
pub fn paste_text_commands(pane: &str, input: &str) -> (res: String)
    ensures
        res@ == paste_commands(pane@, input@),
{
    let chars = chars_of(input);
    let count: usize = chars.len();
    let mut commands = String::new();
    push_paste_mark(&mut commands, pane, "'[200~'");
    let ghost head = paste_mark(pane@, "'[200~'"@);
    assert(commands@ == head);
    let mut literal = String::new();
    let mut index: usize = 0;
    let ghost body = stroke_commands(pane@, paste_strokes(input@, seq![]), seq![]);
    assert(input@.skip(0) == input@);
    assert(literal@ == Seq::<char>::empty());
    while index < count
        invariant
            chars@ == input@,
            count == input@.len(),
            0 <= index <= count,
            commands@ + stroke_commands(
                pane@,
                paste_strokes(input@.skip(index as int), literal@),
                literal@,
            ) == head + body,
        decreases count - index,
    {
        let ghost rest = input@.skip(index as int);
        let ghost strokes = paste_strokes(rest, literal@);
        let ghost commands0 = commands@;
        let ghost literal0 = literal@;
        let c = chars[index];
        assert(rest[0] == c);
        assert(rest.skip(1) == input@.skip(index + 1));
        let ghost fresh = stroke_commands(pane@, paste_strokes(rest.skip(1), seq![]), seq![]);
        if c == '\r' {
        } else if c == '\n' || c == '\t' {
            flush_tmux_literal(&mut commands, pane, &mut literal);
            if c == '\n' {
                push_key(&mut commands, pane, "Enter");
            } else {
                push_key(&mut commands, pane, "Tab");
            }
            proof {
                assert(strokes.skip(1) == paste_strokes(rest.skip(1), seq![]));
                let key = if c == '\n' {
                    "Enter"@
                } else {
                    "Tab"@
                };
                assert(commands@ + fresh == commands0 + (literal_command(pane@, literal0)
                    + key_command(pane@, key) + fresh));
            }
        } else {
            literal.push(c);
            if literal.as_str().as_bytes().len() >= PASTE_LITERAL_BYTES {
                flush_tmux_literal(&mut commands, pane, &mut literal);
                proof {
                    lemma_typed_paste(pane@, rest, literal0);
                    assert(commands@ + fresh == commands0 + (literal_command(
                        pane@,
                        literal0.push(c),
                    ) + fresh));
                }
            } else {
                proof {
                    lemma_typed_paste(pane@, rest, literal0);
                }
            }
        }
        index += 1;
    }
    assert(paste_strokes(input@.skip(index as int), literal@) == Seq::<Stroke>::empty());
    flush_tmux_literal(&mut commands, pane, &mut literal);
    assert(commands@ == head + body);
    push_paste_mark(&mut commands, pane, "'[201~'");
    commands
}

/// The bytes that paste `data` into `pane`; bytes that are not UTF-8 are replaced.
pub fn encode_tmux_control_paste(pane: &str, data: &[u8]) -> (res: Vec<u8>)
    ensures
        res@ == encode_utf8(paste_commands(pane@, readable(data@))),
{
    let text = readable_text(data);
    let commands = paste_text_commands(pane, text.as_str());
    commands.as_str().as_bytes_vec()
}

// ---------------------------------------------------------------------------
// Laws
// ---------------------------------------------------------------------------

proof fn lemma_plain_strokes(pane: Text, s: Text, literal: Text)
    requires
        forall|i: int| 0 <= i < s.len() ==> control_key(#[trigger] s[i]) is None,
    ensures
        stroke_commands(pane, input_strokes(s), literal) == literal_command(pane, literal + s),
    decreases s.len(),
{
    if s.len() == 0 {
        assert(literal + s == literal);
    } else {
        assert(control_key(s[0]) is None);
        assert(!opens_sequence(s));
        lemma_typed_input(pane, s, literal);
        assert forall|i: int| 0 <= i < s.skip(1).len() implies control_key(
            #[trigger] s.skip(1)[i],
        ) is None by {
            assert(s.skip(1)[i] == s[i + 1]);
        }
        lemma_plain_strokes(pane, s.skip(1), literal.push(s[0]));
        assert(literal.push(s[0]) + s.skip(1) == literal + s);
    }
}

/// Text without control characters is typed by one command that carries it whole.
pub proof fn law_plain_text_is_typed(pane: Text, s: Text)
    requires
        forall|i: int| 0 <= i < s.len() ==> control_key(#[trigger] s[i]) is None,
    ensures
        input_commands(pane, s) == literal_command(pane, s),
{
    lemma_plain_strokes(pane, s, seq![]);
    assert(Seq::<char>::empty() + s == s);
}

/// A control character other than escape is one key press, and what stands before and behind it is
/// typed separately.
pub proof fn law_control_character_is_a_key(pane: Text, c: char, rest: Text)
    requires
        control_key(c) is Some,
        c != '\u{1b}',
    ensures
        input_commands(pane, seq![c] + rest) == key_command(pane, control_key(c)->0)
            + input_commands(pane, rest),
{
    let s = seq![c] + rest;
    let key = control_key(c)->0;
    let after = input_strokes(rest);
    assert(s[0] == c);
    assert(!opens_sequence(s));
    assert(s.skip(1) == rest);
    assert(input_strokes(s) == seq![Stroke::Key(key)] + after);
    assert(input_strokes(s).skip(1) == after);
    let none: Text = seq![];
    assert(literal_command(pane, none) + key_command(pane, key) == key_command(pane, key));
}

/// Text whose lines are all commands that send keys to `pane`.
pub open spec fn sends_keys_only(text: Text, pane: Text) -> bool
    decreases text.len(),
    via lines_shorten
{
    text.len() == 0 || match position(text, '\n') {
        Some(p) => starts_with(text.take(p), "send-keys -t "@ + pane + " "@) && sends_keys_only(
            text.skip(p + 1),
            pane,
        ),
        None => false,
    }
}

#[via_fn]
proof fn lines_shorten(text: Text, pane: Text) {
    lemma_position_from(text, '\n', 0);
}

proof fn lemma_sends_concat(a: Text, b: Text, pane: Text)
    requires
        sends_keys_only(a, pane),
        sends_keys_only(b, pane),
    ensures
        sends_keys_only(a + b, pane),
    decreases a.len(),
{
    if a.len() == 0 {
        assert(a + b == b);
    } else {
        lemma_position_from(a, '\n', 0);
        let p = position(a, '\n')->0;
        lemma_position_at(a + b, '\n', p);
        lemma_sends_concat(a.skip(p + 1), b, pane);
        assert((a + b).take(p) == a.take(p));
        assert((a + b).skip(p + 1) == a.skip(p + 1) + b);
    }
}

proof fn lemma_no_line_in_parts(a: Text, b: Text)
    requires
        !a.contains('\n'),
        !b.contains('\n'),
    ensures
        !(a + b).contains('\n'),
{
    assert forall|i: int| 0 <= i < (a + b).len() implies (a + b)[i] != '\n' by {
        if i < a.len() {
            assert(a.contains(a[i]));
        } else {
            assert(b.contains(b[i - a.len()]));
        }
    }
}

proof fn lemma_one_command(pane: Text, rest: Text)
    requires
        !pane.contains('\n'),
        !rest.contains('\n'),
    ensures
        sends_keys_only("send-keys -t "@ + pane + " "@ + rest + "\n"@, pane),
{
    reveal_strlit("send-keys -t ");
    reveal_strlit(" ");
    reveal_strlit("\n");
    assert("\n"@ == seq!['\n']);
    let head = "send-keys -t "@ + pane + " "@;
    assert(!"send-keys -t "@.contains('\n'));
    assert(!" "@.contains('\n'));
    lemma_no_line_in_parts("send-keys -t "@, pane);
    lemma_no_line_in_parts("send-keys -t "@ + pane, " "@);
    lemma_no_line_in_parts(head, rest);
    let line = head + rest;
    let command = line + "\n"@;
    assert forall|j: int| 0 <= j < line.len() implies command[j] != '\n' by {
        assert(line.contains(line[j]));
    }
    lemma_position_at(command, '\n', line.len() as int);
    assert(command.take(line.len() as int) == line);
    assert(line.subrange(0, 0 + head.len() as int) == head);
    assert(command.skip(line.len() as int + 1) == Seq::<char>::empty());
    assert(sends_keys_only(command.skip(line.len() as int + 1), pane));
}

proof fn lemma_literal_command_sends(pane: Text, literal: Text)
    requires
        !pane.contains('\n'),
        !literal.contains('\n'),
    ensures
        sends_keys_only(literal_command(pane, literal), pane),
{
    if literal.len() > 0 {
        law_quoting_keeps_lines(literal);
        reveal_strlit(" -l -- ");
        reveal_strlit(" ");
        reveal_strlit("-l -- ");
        let rest = "-l -- "@ + tmux_quoted(literal);
        assert(!"-l -- "@.contains('\n'));
        lemma_no_line_in_parts("-l -- "@, tmux_quoted(literal));
        lemma_one_command(pane, rest);
        assert(" -l -- "@ == " "@ + "-l -- "@);
        assert("send-keys -t "@ + pane + " -l -- "@ + tmux_quoted(literal) + "\n"@
            == "send-keys -t "@ + pane + " "@ + rest + "\n"@);
    }
}

/// Whether no stroke brings a line end into a command.
pub open spec fn one_line_strokes(strokes: Seq<Stroke>) -> bool {
    forall|i: int|
        0 <= i < strokes.len() ==> match #[trigger] strokes[i] {
            Stroke::Typed(text) => !text.contains('\n'),
            Stroke::Key(key) => !key.contains('\n'),
            Stroke::Break => true,
        }
}

proof fn lemma_strokes_send(pane: Text, strokes: Seq<Stroke>, literal: Text)
    requires
        !pane.contains('\n'),
        !literal.contains('\n'),
        one_line_strokes(strokes),
    ensures
        sends_keys_only(stroke_commands(pane, strokes, literal), pane),
    decreases strokes.len(),
{
    lemma_literal_command_sends(pane, literal);
    if strokes.len() > 0 {
        let rest = strokes.skip(1);
        let first = strokes[0];
        assert forall|i: int| 0 <= i < rest.len() implies match #[trigger] rest[i] {
            Stroke::Typed(text) => !text.contains('\n'),
            Stroke::Key(key) => !key.contains('\n'),
            Stroke::Break => true,
        } by {
            assert(rest[i] == strokes[i + 1]);
        }
        let none: Text = seq![];
        match first {
            Stroke::Typed(text) => {
                lemma_no_line_in_parts(literal, text);
                lemma_strokes_send(pane, rest, literal + text);
            },
            Stroke::Key(key) => {
                lemma_strokes_send(pane, rest, none);
                lemma_one_command(pane, key);
                lemma_sends_concat(literal_command(pane, literal), key_command(pane, key), pane);
                lemma_sends_concat(
                    literal_command(pane, literal) + key_command(pane, key),
                    stroke_commands(pane, rest, none),
                    pane,
                );
            },
            Stroke::Break => {
                lemma_strokes_send(pane, rest, none);
                lemma_sends_concat(
                    literal_command(pane, literal),
                    stroke_commands(pane, rest, none),
                    pane,
                );
            },
        }
    }
}

proof fn lemma_key_names_have_no_line(c: char, params: Text, last: char)
    ensures
        control_key(c) is Some ==> !control_key(c)->0.contains('\n'),
        sequence_key(params, last) is Some ==> !sequence_key(params, last)->0.contains('\n'),
{
    reveal_strlit("Enter");
    reveal_strlit("Tab");
    reveal_strlit("BSpace");
    reveal_strlit("C-c");
    reveal_strlit("C-d");
    reveal_strlit("Escape");
    reveal_strlit("Up");
    reveal_strlit("Down");
    reveal_strlit("Right");
    reveal_strlit("Left");
    reveal_strlit("Home");
    reveal_strlit("End");
    reveal_strlit("DC");
    reveal_strlit("PPage");
    reveal_strlit("NPage");
}

proof fn lemma_one_line_prepend(head: Seq<Stroke>, rest: Seq<Stroke>)
    requires
        one_line_strokes(head),
        one_line_strokes(rest),
    ensures
        one_line_strokes(head + rest),
{
    assert forall|i: int| 0 <= i < (head + rest).len() implies match #[trigger] (head + rest)[i] {
        Stroke::Typed(text) => !text.contains('\n'),
        Stroke::Key(key) => !key.contains('\n'),
        Stroke::Break => true,
    } by {
        if i < head.len() {
            assert((head + rest)[i] == head[i]);
        } else {
            assert((head + rest)[i] == rest[i - head.len()]);
        }
    }
}

proof fn lemma_input_strokes_one_line(s: Text)
    ensures
        one_line_strokes(input_strokes(s)),
    decreases s.len(),
{
    if s.len() > 0 {
        lemma_final_from(s, 2);
        if opens_sequence(s) {
            match final_from(s, 2) {
                Some(f) => {
                    lemma_key_names_have_no_line(s[0], s.subrange(2, f), s[f]);
                    lemma_input_strokes_one_line(s.skip(f + 1));
                    let head = seq![key_or_break(sequence_key(s.subrange(2, f), s[f]))];
                    lemma_one_line_prepend(head, input_strokes(s.skip(f + 1)));
                },
                None => {
                    lemma_key_names_have_no_line('\u{1b}', s, 'a');
                    lemma_input_strokes_one_line(s.skip(1));
                    lemma_one_line_prepend(
                        seq![Stroke::Key("Escape"@)],
                        input_strokes(s.skip(1)),
                    );
                },
            }
        } else {
            lemma_key_names_have_no_line(s[0], s, 'a');
            lemma_input_strokes_one_line(s.skip(1));
            match control_key(s[0]) {
                Some(key) => {
                    lemma_one_line_prepend(seq![Stroke::Key(key)], input_strokes(s.skip(1)));
                },
                None => {
                    let head = seq![Stroke::Typed(seq![s[0]])];
                    assert(head[0] == Stroke::Typed(seq![s[0]]));
                    lemma_one_line_prepend(head, input_strokes(s.skip(1)));
                },
            }
        }
    }
}

proof fn lemma_paste_strokes_one_line(s: Text, held: Text)
    ensures
        one_line_strokes(paste_strokes(s, held)),
    decreases s.len(),
{
    if s.len() > 0 {
        let none: Text = seq![];
        lemma_key_names_have_no_line('\n', s, 'a');
        lemma_key_names_have_no_line('\t', s, 'a');
        lemma_paste_strokes_one_line(s.skip(1), held);
        lemma_paste_strokes_one_line(s.skip(1), none);
        lemma_paste_strokes_one_line(s.skip(1), held.push(s[0]));
        lemma_one_line_prepend(seq![Stroke::Key("Enter"@)], paste_strokes(s.skip(1), none));
        lemma_one_line_prepend(seq![Stroke::Key("Tab"@)], paste_strokes(s.skip(1), none));
        if s[0] != '\n' {
            let typed = Stroke::Typed(seq![s[0]]);
            assert(!seq![s[0]].contains('\n'));
            lemma_one_line_prepend(seq![typed, Stroke::Break], paste_strokes(s.skip(1), none));
            lemma_one_line_prepend(seq![typed], paste_strokes(s.skip(1), held.push(s[0])));
        }
    }
}

/// Whatever is typed, tmux is given commands that send keys to the pane and nothing else.
pub proof fn law_input_only_sends_keys(pane: Text, input: Text)
    requires
        !pane.contains('\n'),
    ensures
        sends_keys_only(input_commands(pane, input), pane),
{
    lemma_input_strokes_one_line(input);
    lemma_strokes_send(pane, input_strokes(input), seq![]);
}

/// Whatever is pasted, tmux is given commands that send keys to the pane and nothing else.
pub proof fn law_paste_only_sends_keys(pane: Text, input: Text)
    requires
        !pane.contains('\n'),
    ensures
        sends_keys_only(paste_commands(pane, input), pane),
{
    let body = stroke_commands(pane, paste_strokes(input, seq![]), seq![]);
    lemma_paste_strokes_one_line(input, seq![]);
    lemma_strokes_send(pane, paste_strokes(input, seq![]), seq![]);
    lemma_paste_mark_sends(pane, "'[200~'"@);
    lemma_paste_mark_sends(pane, "'[201~'"@);
    lemma_sends_concat(paste_mark(pane, "'[200~'"@), body, pane);
    lemma_sends_concat(
        paste_mark(pane, "'[200~'"@) + body,
        paste_mark(pane, "'[201~'"@),
        pane,
    );
}

proof fn lemma_paste_mark_sends(pane: Text, mark: Text)
    requires
        !pane.contains('\n'),
        mark == "'[200~'"@ || mark == "'[201~'"@,
    ensures
        sends_keys_only(paste_mark(pane, mark), pane),
{
    reveal_strlit("'[200~'");
    reveal_strlit("'[201~'");
    reveal_strlit(" -l -- ");
    reveal_strlit(" ");
    reveal_strlit("-l -- ");
    lemma_key_names_have_no_line('\u{1b}', mark, 'a');
    lemma_one_command(pane, "Escape"@);
    assert(!"-l -- "@.contains('\n'));
    assert(!mark.contains('\n'));
    lemma_no_line_in_parts("-l -- "@, mark);
    let rest = "-l -- "@ + mark;
    lemma_one_command(pane, rest);
    assert(" -l -- "@ == " "@ + "-l -- "@);
    assert("send-keys -t "@ + pane + " -l -- "@ + mark + "\n"@ == "send-keys -t "@ + pane + " "@
        + rest + "\n"@);
    lemma_sends_concat(
        key_command(pane, "Escape"@),
        "send-keys -t "@ + pane + " -l -- "@ + mark + "\n"@,
        pane,
    );
}

/// All the text that is typed by `strokes`.
pub open spec fn typed_text(strokes: Seq<Stroke>) -> Text
    decreases strokes.len(),
{
    if strokes.len() == 0 {
        seq![]
    } else {
        (match strokes[0] {
            Stroke::Typed(text) => text,
            _ => seq![],
        }) + typed_text(strokes.skip(1))
    }
}

/// `s` without carriage returns, line feeds and tabs.
pub open spec fn pasted_text(s: Text) -> Text
    decreases s.len(),
{
    if s.len() == 0 {
        seq![]
    } else if s[0] == '\r' || s[0] == '\n' || s[0] == '\t' {
        pasted_text(s.skip(1))
    } else {
        seq![s[0]] + pasted_text(s.skip(1))
    }
}

proof fn lemma_typed_text_prepend(stroke: Stroke, rest: Seq<Stroke>)
    ensures
        typed_text(seq![stroke] + rest) == (match stroke {
            Stroke::Typed(text) => text,
            _ => seq![],
        }) + typed_text(rest),
{
    let all = seq![stroke] + rest;
    assert(all[0] == stroke);
    assert(all.skip(1) == rest);
}

proof fn lemma_paste_text(s: Text, held: Text)
    ensures
        typed_text(paste_strokes(s, held)) == pasted_text(s),
    decreases s.len(),
{
    if s.len() > 0 {
        let none: Text = seq![];
        let rest = s.skip(1);
        lemma_paste_text(rest, held);
        lemma_paste_text(rest, none);
        lemma_paste_text(rest, held.push(s[0]));
        let fresh = paste_strokes(rest, none);
        lemma_typed_text_prepend(Stroke::Key("Enter"@), fresh);
        lemma_typed_text_prepend(Stroke::Key("Tab"@), fresh);
        lemma_typed_text_prepend(Stroke::Break, fresh);
        let typed = Stroke::Typed(seq![s[0]]);
        lemma_typed_text_prepend(typed, seq![Stroke::Break] + fresh);
        lemma_typed_text_prepend(typed, paste_strokes(rest, held.push(s[0])));
        assert(seq![typed, Stroke::Break] + fresh == seq![typed] + (seq![Stroke::Break] + fresh));
        assert(none + typed_text(fresh) == typed_text(fresh));
    }
}

/// Breaking pasted text into pieces loses and adds nothing: what is typed is the text without
/// carriage returns, line feeds and tabs.
pub proof fn law_paste_types_the_text(s: Text)
    ensures
        typed_text(paste_strokes(s, seq![])) == pasted_text(s),
{
    lemma_paste_text(s, seq![]);
}

} // verus!
