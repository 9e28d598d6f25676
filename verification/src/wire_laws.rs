//! What tmux's lines and escapes come to, byte by byte.
use vstd::prelude::*;
use vstd::utf8::{encode_utf8, is_ascii_chars, is_ascii_chars_encode_utf8};
use crate::text::{find, lemma_find_from, lemma_position_at, occurs_at, Text};
use crate::text_laws::law_last_part;
use crate::wire::{
    captures, control_end, control_start, is_octal, octal_byte, output_line, screen_program, spells,
    structure_event, unescaped, without_wrappers, OutputLine,
};

verus! {

// ---------------------------------------------------------------------------
// Wrappers of control mode
// ---------------------------------------------------------------------------

/// The bytes that open control mode: `ESC P 1 0 0 0 p`.
pub open spec fn opening() -> Seq<u8> {
    seq![27u8, 80u8, 49u8, 48u8, 48u8, 48u8, 112u8]
}

/// The bytes that close control mode: `ESC \`.
pub open spec fn closing() -> Seq<u8> {
    seq![27u8, 92u8]
}

proof fn lemma_plain_before(a: Seq<u8>, rest: Seq<u8>)
    requires
        !a.contains(27u8),
    ensures
        without_wrappers(a + rest) == a + without_wrappers(rest),
    decreases a.len(),
{
    let s = a + rest;
    if a.len() == 0 {
        assert(s =~= rest);
        assert(a + without_wrappers(rest) =~= without_wrappers(rest));
    } else {
        assert(a.contains(a[0]));
        assert(s[0] == a[0]);
        if occurs_at(s, control_start(), 0) {
            assert(s.subrange(0, 7)[0] == control_start()[0]);
        }
        if occurs_at(s, control_end(), 0) {
            assert(s.subrange(0, 2)[0] == control_end()[0]);
        }
        assert(s.skip(1) =~= a.skip(1) + rest);
        assert forall|i: int| 0 <= i < a.skip(1).len() implies a.skip(1)[i] != 27u8 by {
            assert(a.contains(a[i + 1]));
        }
        lemma_plain_before(a.skip(1), rest);
        assert(seq![s[0]] + (a.skip(1) + without_wrappers(rest)) =~= a + without_wrappers(rest));
    }
}

/// What opens and closes control mode is left out of startup output, wherever it stands, and every
/// other byte is kept in its place.
pub proof fn law_wrappers_are_left_out(a: Seq<u8>, b: Seq<u8>)
    requires
        !a.contains(27u8),
    ensures
        without_wrappers(a) == a,
        without_wrappers(a + opening() + b) == a + without_wrappers(b),
        without_wrappers(a + closing() + b) == a + without_wrappers(b),
        (seq![27u8] + b).take(7) != opening() && (seq![27u8] + b).take(2) != closing()
            ==> without_wrappers(a + seq![27u8] + b) == a + seq![27u8] + without_wrappers(b),
{
    let none: Seq<u8> = seq![];
    lemma_plain_before(a, none);
    assert(a + none =~= a);
    assert(without_wrappers(none) == none);
    assert(control_start() =~= opening());
    assert(control_end() =~= closing());
    let x = opening() + b;
    assert(a + opening() + b =~= a + x);
    lemma_plain_before(a, x);
    assert(x.subrange(0, 7) =~= control_start());
    assert(x.skip(7) =~= b);
    let y = closing() + b;
    assert(a + closing() + b =~= a + y);
    lemma_plain_before(a, y);
    assert(y.subrange(0, 2) =~= control_end());
    assert(y.skip(2) =~= b);
    assert(!occurs_at(y, control_start(), 0)) by {
        if occurs_at(y, control_start(), 0) {
            assert(y.subrange(0, 7)[1] == control_start()[1]);
        }
    }
    let z = seq![27u8] + b;
    if z.take(7) != opening() && z.take(2) != closing() {
        assert(a + seq![27u8] + b =~= a + z);
        lemma_plain_before(a, z);
        if occurs_at(z, control_start(), 0) {
            assert(z.take(7) =~= z.subrange(0, 7));
        }
        if occurs_at(z, control_end(), 0) {
            assert(z.take(2) =~= z.subrange(0, 2));
        }
        assert(z.skip(1) =~= b);
        assert(a + (seq![27u8] + without_wrappers(b)) =~= a + seq![27u8] + without_wrappers(b));
    }
}

// ---------------------------------------------------------------------------
// Escapes
// ---------------------------------------------------------------------------

proof fn lemma_unescaped_before(a: Seq<u8>, rest: Seq<u8>)
    requires
        !a.contains(92u8),
    ensures
        unescaped(a + rest) == a + unescaped(rest),
    decreases a.len(),
{
    let s = a + rest;
    if a.len() == 0 {
        assert(s =~= rest);
        assert(a + unescaped(rest) =~= unescaped(rest));
    } else {
        assert(a.contains(a[0]));
        assert(s.skip(1) =~= a.skip(1) + rest);
        assert forall|i: int| 0 <= i < a.skip(1).len() implies a.skip(1)[i] != 92u8 by {
            assert(a.contains(a[i + 1]));
        }
        lemma_unescaped_before(a.skip(1), rest);
        assert(seq![s[0]] + (a.skip(1) + unescaped(rest)) =~= a + unescaped(rest));
    }
}

/// A backslash and three octal digits stand for the byte with that number, of which the low eight
/// bits count.
pub proof fn law_octal_escapes(a: Seq<u8>, x: u8, y: u8, z: u8, b: Seq<u8>)
    requires
        !a.contains(92u8),
        x < 8,
        y < 8,
        z < 8,
    ensures
        unescaped(a + seq![92u8, (48 + x) as u8, (48 + y) as u8, (48 + z) as u8] + b) == a + seq![
            ((x * 64 + y * 8 + z) % 256) as u8,
        ] + unescaped(b),
{
    let e = seq![92u8, (48 + x) as u8, (48 + y) as u8, (48 + z) as u8];
    let s = e + b;
    assert(a + e + b =~= a + s);
    lemma_unescaped_before(a, s);
    assert(is_octal(s[1]) && is_octal(s[2]) && is_octal(s[3]));
    assert(s.skip(4) =~= b);
    let byte = ((x * 64 + y * 8 + z) % 256) as u8;
    assert(octal_byte(s[1], s[2], s[3]) == byte);
    assert(a + (seq![byte] + unescaped(b)) =~= a + seq![byte] + unescaped(b));
}

/// Whether a text starts with three octal digits.
pub open spec fn starts_octal(s: Seq<u8>) -> bool {
    s.len() >= 3 && 48 <= s[0] <= 55 && 48 <= s[1] <= 55 && 48 <= s[2] <= 55
}

/// Bytes without a backslash stand for themselves; a backslash before anything but three octal
/// digits stands for the byte behind it, and one at the very end for itself.
pub proof fn law_other_bytes_stand_for_themselves(a: Seq<u8>, c: u8, b: Seq<u8>)
    requires
        !a.contains(92u8),
    ensures
        unescaped(a) == a,
        unescaped(a + seq![92u8]) == a + seq![92u8],
        !starts_octal(seq![c] + b) ==> unescaped(a + seq![92u8, c] + b) == a + seq![c] + unescaped(
            b,
        ),
{
    let none: Seq<u8> = seq![];
    lemma_unescaped_before(a, none);
    assert(a + none =~= a);
    assert(unescaped(none) == none);
    let one = seq![92u8];
    lemma_unescaped_before(a, one);
    assert(one.skip(1) =~= none);
    assert(unescaped(one) =~= one);
    if !starts_octal(seq![c] + b) {
        let s = seq![92u8, c] + b;
        let t = seq![c] + b;
        assert(a + seq![92u8, c] + b =~= a + s);
        lemma_unescaped_before(a, s);
        assert(s.len() > 3 ==> s[1] == t[0] && s[2] == t[1] && s[3] == t[2]);
        assert(s.skip(2) =~= b);
        assert(a + (seq![c] + unescaped(b)) =~= a + seq![c] + unescaped(b));
    }
}

// ---------------------------------------------------------------------------
// Lines
// ---------------------------------------------------------------------------

/// A line starts with an ASCII text exactly where it is the bytes of that text and a rest.
pub proof fn law_line_starts_with_text(line: Seq<u8>, text: Text)
    requires
        is_ascii_chars(text),
    ensures
        spells(line, text) <==> line.len() >= text.len() && line.take(text.len() as int)
            == encode_utf8(text),
{
    is_ascii_chars_encode_utf8(text);
    let bytes = encode_utf8(text);
    if spells(line, text) {
        assert forall|k: int| 0 <= k < text.len() implies line[k] == bytes[k] by {
            lemma_same_byte(line[0 + k], text[k], bytes[k]);
        }
        assert(line.take(text.len() as int) =~= bytes);
    }
    if line.len() >= text.len() && line.take(text.len() as int) == bytes {
        assert forall|k: int| 0 <= k < text.len() implies line[0 + k] as char == #[trigger] text[k] by {
            assert(line.take(text.len() as int)[k] == bytes[k]);
            lemma_same_char(line[0 + k], text[k], bytes[k]);
        }
    }
}

proof fn lemma_same_byte(b: u8, c: char, e: u8)
    requires
        b as char == c,
        e == c as u8,
        (c as u32) < 128,
    ensures
        b == e,
{
}

proof fn lemma_same_char(b: u8, c: char, e: u8)
    requires
        b == e,
        e == c as u8,
        (c as u32) < 128,
    ensures
        b as char == c,
{
}

/// The bytes with which tmux announces output, older and newer.
pub open spec fn output_head() -> Seq<u8> {
    encode_utf8("%output "@)
}

/// The bytes with which tmux announces output together with its age.
pub open spec fn extended_head() -> Seq<u8> {
    encode_utf8("%extended-output "@)
}

proof fn lemma_heads()
    ensures
        is_ascii_chars("%output "@),
        is_ascii_chars("%extended-output "@),
        "%output "@.len() == 8,
        "%extended-output "@.len() == 17,
        output_head().len() == 8,
        extended_head().len() == 17,
        output_head()[1] != extended_head()[1],
{
    reveal_strlit("%output ");
    reveal_strlit("%extended-output ");
    is_ascii_chars_encode_utf8("%output "@);
    is_ascii_chars_encode_utf8("%extended-output "@);
    assert("%output "@[1] == 'o' && "%extended-output "@[1] == 'e');
}

/// Output of a pane is read by pane and output, in the form with the age of the output and in the
/// one without.
pub proof fn law_output_lines_are_read(pane: Seq<u8>, age: Seq<u8>, payload: Seq<u8>)
    requires
        !pane.contains(32u8),
    ensures
        output_line(output_head() + pane + seq![32u8] + payload) == Some(
            OutputLine { pane, payload },
        ),
        !pane.contains(58u8) && !age.contains(58u8) ==> output_line(
            extended_head() + pane + seq![32u8] + age + seq![58u8, 32u8] + payload,
        ) == Some(OutputLine { pane, payload }),
{
    lemma_heads();
    let line = output_head() + pane + seq![32u8] + payload;
    assert(line.take(8) =~= output_head());
    law_line_starts_with_text(line, "%output "@);
    let rest = line.skip(8);
    assert(rest =~= pane + seq![32u8] + payload);
    assert forall|j: int| 0 <= j < pane.len() implies rest[j] != 32u8 by {
        assert(pane.contains(pane[j]));
    }
    lemma_position_at(rest, 32u8, pane.len() as int);
    assert(rest.take(pane.len() as int) =~= pane);
    assert(rest.skip(pane.len() as int + 1) =~= payload);
    if !pane.contains(58u8) && !age.contains(58u8) {
        let line = extended_head() + pane + seq![32u8] + age + seq![58u8, 32u8] + payload;
        assert(line.take(17) =~= extended_head());
        law_line_starts_with_text(line, "%extended-output "@);
        law_line_starts_with_text(line, "%output "@);
        assert(line.take(8)[1] == extended_head()[1]);
        assert(!spells(line, "%output "@));
        let rest = line.skip(17);
        let head = pane + seq![32u8] + age;
        assert(rest =~= head + seq![58u8, 32u8] + payload);
        assert forall|j: int| 0 <= j < pane.len() implies rest[j] != 32u8 by {
            assert(pane.contains(pane[j]));
        }
        lemma_position_at(rest, 32u8, pane.len() as int);
        assert(rest.take(pane.len() as int) =~= pane);
        let mark = seq![58u8, 32u8];
        let at = head.len() as int;
        assert forall|j: int| 0 <= j < at implies rest[j] != 58u8 by {
            if j < pane.len() {
                assert(pane.contains(pane[j]));
            } else if j > pane.len() {
                assert(age.contains(age[j - pane.len() - 1]));
            }
        }
        lemma_find_from(rest, mark, 0);
        assert(rest.subrange(at, at + 2) =~= mark);
        assert(occurs_at(rest, mark, at));
        let found = find(rest, mark)->0;
        assert(found <= at);
        assert(rest.subrange(found, found + 2)[0] == mark[0]);
        assert(found == at);
        assert(rest.skip(at + 2) =~= payload);
    }
}

/// Any other line carries no output.
pub proof fn law_other_lines_carry_no_output(line: Seq<u8>)
    requires
        line.take(8) != output_head(),
        line.take(17) != extended_head(),
    ensures
        output_line(line) is None,
{
    lemma_heads();
    law_line_starts_with_text(line, "%output "@);
    law_line_starts_with_text(line, "%extended-output "@);
}

/// Whether `line` starts with the bytes of `text`.
pub open spec fn starts_as(line: Seq<u8>, text: Text) -> bool {
    line.len() >= text.len() && line.take(text.len() as int) == encode_utf8(text)
}

/// What tmux tells of windows, the layout, panes and sessions is a change of the structure, and
/// nothing else is.
pub proof fn law_structure_events_by_name(line: Seq<u8>)
    ensures
        structure_event(line) <==> {
            ||| starts_as(line, "%window-"@)
            ||| starts_as(line, "%layout-change"@)
            ||| starts_as(line, "%pane-"@)
            ||| starts_as(line, "%session-"@)
        },
{
    reveal_strlit("%window-");
    reveal_strlit("%layout-change");
    reveal_strlit("%pane-");
    reveal_strlit("%session-");
    law_line_starts_with_text(line, "%window-"@);
    law_line_starts_with_text(line, "%layout-change"@);
    law_line_starts_with_text(line, "%pane-"@);
    law_line_starts_with_text(line, "%session-"@);
}

/// Whether a program is one that draws the whole screen or transfers files.
pub open spec fn fills_the_screen(name: Text) -> bool {
    seq![
        "vi"@,
        "vim"@,
        "nvim"@,
        "view"@,
        "less"@,
        "more"@,
        "man"@,
        "top"@,
        "htop"@,
        "btop"@,
        "nano"@,
        "emacs"@,
        "scp"@,
        "sftp"@,
    ].contains(name)
}

/// The contents of a pane are worth capturing unless its program, by its name without the directory,
/// draws the whole screen or transfers files.
pub proof fn law_screen_programs_are_not_captured(directory: Text, name: Text)
    requires
        !name.contains('/'),
    ensures
        captures(name) <==> !fills_the_screen(name),
        captures(directory + seq!['/'] + name) <==> !fills_the_screen(name),
{
    law_last_part(directory, '/', name);
    let list = seq![
        "vi"@,
        "vim"@,
        "nvim"@,
        "view"@,
        "less"@,
        "more"@,
        "man"@,
        "top"@,
        "htop"@,
        "btop"@,
        "nano"@,
        "emacs"@,
        "scp"@,
        "sftp"@,
    ];
    assert(list.len() == 14);
    assert(list[0] == "vi"@ && list[1] == "vim"@ && list[2] == "nvim"@ && list[3] == "view"@);
    assert(list[4] == "less"@ && list[5] == "more"@ && list[6] == "man"@ && list[7] == "top"@);
    assert(list[8] == "htop"@ && list[9] == "btop"@ && list[10] == "nano"@);
    assert(list[11] == "emacs"@ && list[12] == "scp"@ && list[13] == "sftp"@);
    if screen_program(name) {
        assert(list.contains(name));
    }
    if list.contains(name) {
        let i = choose|i: int| 0 <= i < list.len() && list[i] == name;
        assert(screen_program(name));
    }
}

} // verus!
