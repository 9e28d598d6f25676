//! The lines of tmux control mode: what a control client is sent, byte by byte.
use vstd::prelude::*;
use vstd::slice::slice_subrange;
use crate::outside::{readable, readable_text};
use crate::text::{
    after_last, byte_position, bytes_at, chars_of, find, find_from, occurs_at, position, same_text,
    text_after_last, Text,
};

verus! {

/// Whether the bytes from `at` on are the characters of `text`.
pub open spec fn spells_at(bytes: Seq<u8>, at: int, text: Text) -> bool {
    &&& 0 <= at
    &&& at + text.len() <= bytes.len()
    &&& forall|k: int| 0 <= k < text.len() ==> bytes[at + k] as char == #[trigger] text[k]
}

/// Whether `bytes` starts with the characters of `text`.
pub open spec fn spells(bytes: Seq<u8>, text: Text) -> bool {
    spells_at(bytes, 0, text)
}

/// Whether `line` starts with the characters of `prefix`.
pub fn line_starts_with(line: &[u8], prefix: &str) -> (res: bool)
    ensures
        res == spells(line@, prefix@),
{
    let pat = chars_of(prefix);
    if line.len() < pat.len() {
        return false;
    }
    let mut k: usize = 0;
    while k < pat.len()
        invariant
            pat@ == prefix@,
            0 <= k <= pat@.len() <= line@.len(),
            forall|j: int| 0 <= j < k ==> line@[j] as char == #[trigger] pat@[j],
        decreases pat@.len() - k,
    {
        if line[k] as char != pat[k] {
            assert(line@[0 + k] as char != prefix@[k as int]);
            return false;
        }
        k += 1;
    }
    true
}

// ---------------------------------------------------------------------------
// Startup output
// ---------------------------------------------------------------------------

/// What opens control mode: `ESC P 1000p`.
pub open spec fn control_start() -> Seq<u8> {
    seq![0x1bu8, 0x50, 0x31, 0x30, 0x30, 0x30, 0x70]
}

/// What closes control mode: `ESC \`.
pub open spec fn control_end() -> Seq<u8> {
    seq![0x1bu8, 0x5c]
}

/// `input` without the sequences that open and close control mode.
pub open spec fn without_wrappers(input: Seq<u8>) -> Seq<u8>
    decreases input.len(),
{
    if input.len() == 0 {
        seq![]
    } else if occurs_at(input, control_start(), 0) {
        without_wrappers(input.skip(7))
    } else if occurs_at(input, control_end(), 0) {
        without_wrappers(input.skip(2))
    } else {
        seq![input[0]] + without_wrappers(input.skip(1))
    }
}

proof fn lemma_occurs_skip(s: Seq<u8>, pat: Seq<u8>, at: int)
    requires
        0 <= at <= s.len(),
    ensures
        occurs_at(s, pat, at) == occurs_at(s.skip(at), pat, 0),
{
    if at + pat.len() <= s.len() {
        assert(s.skip(at).subrange(0, 0 + pat.len() as int) == s.subrange(at, at + pat.len()));
    }
}

/// `input` without the sequences that open and close control mode.
pub fn strip_tmux_control_wrappers(input: &[u8]) -> (res: Vec<u8>)
    ensures
        res@ == without_wrappers(input@),
{
    let open: [u8; 7] = [0x1b, 0x50, 0x31, 0x30, 0x30, 0x30, 0x70];
    let close: [u8; 2] = [0x1b, 0x5c];
    assert(open@ == control_start());
    assert(close@ == control_end());
    let mut output: Vec<u8> = Vec::new();
    let mut index: usize = 0;
    assert(input@.skip(0) == input@);
    assert(output@ + without_wrappers(input@) == without_wrappers(input@));
    while index < input.len()
        invariant
            open@ == control_start(),
            close@ == control_end(),
            0 <= index <= input@.len(),
            output@ + without_wrappers(input@.skip(index as int)) == without_wrappers(input@),
        decreases input@.len() - index,
    {
        let ghost rest = input@.skip(index as int);
        proof {
            lemma_occurs_skip(input@, control_start(), index as int);
            lemma_occurs_skip(input@, control_end(), index as int);
        }
        if bytes_at(input, index, open.as_slice()) {
            assert(rest.skip(7) == input@.skip(index + 7));
            index += 7;
        } else if bytes_at(input, index, close.as_slice()) {
            assert(rest.skip(2) == input@.skip(index + 2));
            index += 2;
        } else {
            assert(rest[0] == input@[index as int]);
            assert(rest.skip(1) == input@.skip(index + 1));
            assert(output@ + (seq![rest[0]] + without_wrappers(rest.skip(1))) == output@.push(
                rest[0],
            ) + without_wrappers(rest.skip(1)));
            output.push(input[index]);
            index += 1;
        }
    }
    assert(without_wrappers(input@.skip(index as int)) == Seq::<u8>::empty());
    output
}

/// Startup output without an escape character passes unchanged.
pub proof fn law_plain_startup_passes(input: Seq<u8>)
    requires
        forall|i: int| 0 <= i < input.len() ==> input[i] != 0x1bu8,
    ensures
        without_wrappers(input) == input,
    decreases input.len(),
{
    if input.len() > 0 {
        assert(!occurs_at(input, control_start(), 0)) by {
            if occurs_at(input, control_start(), 0) {
                assert(input.subrange(0, 7)[0] == control_start()[0]);
            }
        }
        assert(!occurs_at(input, control_end(), 0)) by {
            if occurs_at(input, control_end(), 0) {
                assert(input.subrange(0, 2)[0] == control_end()[0]);
            }
        }
        assert forall|i: int| 0 <= i < input.skip(1).len() implies input.skip(1)[i] != 0x1bu8 by {
            assert(input.skip(1)[i] == input[i + 1]);
        }
        law_plain_startup_passes(input.skip(1));
        assert(input == seq![input[0]] + input.skip(1));
    } else {
        assert(input == Seq::<u8>::empty());
    }
}

// ---------------------------------------------------------------------------
// Escaped output
// ---------------------------------------------------------------------------

/// An octal digit.
pub open spec fn is_octal(b: u8) -> bool {
    0x30 <= b <= 0x37
}

/// The byte that three octal digits stand for; only the low eight bits count.
pub open spec fn octal_byte(a: u8, b: u8, c: u8) -> u8 {
    (((a - 0x30) * 64 + (b - 0x30) * 8 + (c - 0x30)) % 256) as u8
}

/// What escaped output stands for: `\` and three octal digits are one byte, `\` before anything
/// else is that byte itself.
pub open spec fn unescaped(input: Seq<u8>) -> Seq<u8>
    decreases input.len(),
{
    if input.len() == 0 {
        seq![]
    } else if input[0] == 0x5c && input.len() > 3 && is_octal(input[1]) && is_octal(input[2])
        && is_octal(input[3]) {
        seq![octal_byte(input[1], input[2], input[3])] + unescaped(input.skip(4))
    } else if input[0] == 0x5c && input.len() > 1 {
        seq![input[1]] + unescaped(input.skip(2))
    } else {
        seq![input[0]] + unescaped(input.skip(1))
    }
}

/// What escaped output stands for.
pub fn decode_tmux_escaped_bytes(input: &[u8]) -> (res: Vec<u8>)
    ensures
        res@ == unescaped(input@),
{
    let mut output: Vec<u8> = Vec::new();
    let mut index: usize = 0;
    let count: usize = input.len();
    assert(input@.skip(0) == input@);
    assert(output@ + unescaped(input@) == unescaped(input@));
    while index < count
        invariant
            count == input@.len(),
            0 <= index <= count,
            output@ + unescaped(input@.skip(index as int)) == unescaped(input@),
        decreases count - index,
    {
        let ghost rest = input@.skip(index as int);
        let ghost before = output@;
        assert(rest[0] == input@[index as int]);
        assert(count - index > 1 ==> rest[1] == input@[index + 1]);
        assert(count - index > 2 ==> rest[2] == input@[index + 2]);
        assert(count - index > 3 ==> rest[3] == input@[index + 3]);
        if input[index] == 0x5c && count - index > 3 && 0x30 <= input[index + 1] && input[index + 1]
            <= 0x37 && 0x30 <= input[index + 2] && input[index + 2] <= 0x37 && 0x30 <= input[index
            + 3] && input[index + 3] <= 0x37 {
            let value: u16 = (input[index + 1] - 0x30) as u16 * 64 + (input[index + 2] - 0x30) as u16
                * 8 + (input[index + 3] - 0x30) as u16;
            let byte: u8 = (value % 256) as u8;
            output.push(byte);
            assert(rest.skip(4) == input@.skip(index + 4));
            assert(before + (seq![byte] + unescaped(rest.skip(4))) == before.push(byte) + unescaped(
                rest.skip(4),
            ));
            index += 4;
        } else if input[index] == 0x5c && count - index > 1 {
            output.push(input[index + 1]);
            assert(rest.skip(2) == input@.skip(index + 2));
            assert(before + (seq![rest[1]] + unescaped(rest.skip(2))) == before.push(rest[1])
                + unescaped(rest.skip(2)));
            index += 2;
        } else {
            output.push(input[index]);
            assert(rest.skip(1) == input@.skip(index + 1));
            assert(before + (seq![rest[0]] + unescaped(rest.skip(1))) == before.push(rest[0])
                + unescaped(rest.skip(1)));
            index += 1;
        }
    }
    assert(unescaped(input@.skip(index as int)) == Seq::<u8>::empty());
    output
}

/// How tmux escapes a byte of output: control characters and `\` become `\` and three octal digits.
pub open spec fn escaped_byte(b: u8) -> Seq<u8> {
    if b < 32 || b == 0x5c {
        seq![0x5cu8, (0x30 + b / 64) as u8, (0x30 + (b / 8) % 8) as u8, (0x30 + b % 8) as u8]
    } else {
        seq![b]
    }
}

/// How tmux escapes output.
pub open spec fn escaped(output: Seq<u8>) -> Seq<u8>
    decreases output.len(),
{
    if output.len() == 0 {
        seq![]
    } else {
        escaped_byte(output[0]) + escaped(output.skip(1))
    }
}

/// Output that tmux has escaped is read back as it was.
pub proof fn law_escaped_output_is_read_back(output: Seq<u8>)
    ensures
        unescaped(escaped(output)) == output,
    decreases output.len(),
{
    if output.len() > 0 {
        let b = output[0];
        let line = escaped(output);
        let tail = escaped(output.skip(1));
        law_escaped_output_is_read_back(output.skip(1));
        if b < 32 || b == 0x5c {
            assert(line.skip(4) == tail);
            assert(octal_byte(line[1], line[2], line[3]) == b);
        } else {
            assert(line.skip(1) == tail);
        }
        assert(output == seq![b] + output.skip(1));
    } else {
        assert(output == Seq::<u8>::empty());
    }
}

// ---------------------------------------------------------------------------
// Lines
// ---------------------------------------------------------------------------

/// A line that carries output of a pane.
#[verifier::ext_equal]
pub struct OutputLine {
    /// The bytes that name the pane.
    pub pane: Seq<u8>,
    /// The escaped output.
    pub payload: Seq<u8>,
}

/// The pane and the escaped output of an output line: `%output <pane> <output>` or
/// `%extended-output <pane> ... : <output>`.
pub open spec fn output_line(line: Seq<u8>) -> Option<OutputLine> {
    if spells(line, "%output "@) {
        let rest = line.skip(8);
        match position(rest, 0x20u8) {
            Some(p) => Some(OutputLine { pane: rest.take(p), payload: rest.skip(p + 1) }),
            None => None,
        }
    } else if spells(line, "%extended-output "@) {
        let rest = line.skip(17);
        match (position(rest, 0x20u8), find(rest, seq![0x3au8, 0x20u8])) {
            (Some(p), Some(c)) => Some(OutputLine { pane: rest.take(p), payload: rest.skip(c + 2) }),
            _ => None,
        }
    } else {
        None
    }
}

/// Where `pat` first occurs in `bytes`.
fn bytes_find(bytes: &[u8], pat: &[u8]) -> (res: Option<usize>)
    ensures
        match res {
            Some(i) => find(bytes@, pat@) == Some(i as int) && i + pat@.len() <= bytes@.len(),
            None => find(bytes@, pat@) is None,
        },
{
    let count: usize = bytes.len();
    let mut i: usize = 0;
    while i <= count && count - i >= pat.len()
        invariant
            count == bytes@.len(),
            0 <= i <= count + 1,
            find(bytes@, pat@) == find_from(bytes@, pat@, i as int),
        decreases count + 1 - i,
    {
        if bytes_at(bytes, i, pat) {
            return Some(i);
        }
        if i == count {
            assert(find_from(bytes@, pat@, i + 1) is None);
            return None;
        }
        i += 1;
    }
    None
}

/// The bytes that name the pane and the escaped output of an output line.
pub fn split_output_line(line: &[u8]) -> (res: Option<(&[u8], &[u8])>)
    ensures
        match res {
            Some((pane, payload)) => output_line(line@) == Some(
                OutputLine { pane: pane@, payload: payload@ },
            ),
            None => output_line(line@) is None,
        },
{
    proof {
        reveal_strlit("%output ");
        reveal_strlit("%extended-output ");
    }
    if line_starts_with(line, "%output ") {
        let rest = slice_subrange(line, 8, line.len());
        assert(rest@ == line@.skip(8));
        match byte_position(rest, 0x20u8) {
            Some(p) => {
                let pane = slice_subrange(rest, 0, p);
                let payload = slice_subrange(rest, p + 1, rest.len());
                assert(pane@ == rest@.take(p as int));
                assert(payload@ == rest@.skip(p + 1));
                Some((pane, payload))
            },
            None => None,
        }
    } else if line_starts_with(line, "%extended-output ") {
        let rest = slice_subrange(line, 17, line.len());
        assert(rest@ == line@.skip(17));
        let colon: [u8; 2] = [0x3a, 0x20];
        assert(colon@ == seq![0x3au8, 0x20u8]);
        match (byte_position(rest, 0x20u8), bytes_find(rest, colon.as_slice())) {
            (Some(p), Some(c)) => {
                let pane = slice_subrange(rest, 0, p);
                let payload = slice_subrange(rest, c + 2, rest.len());
                assert(pane@ == rest@.take(p as int));
                assert(payload@ == rest@.skip(c + 2));
                Some((pane, payload))
            },
            _ => None,
        }
    } else {
        None
    }
}

/// The pane and the escaped output of an output line; bytes of the pane's name that are not UTF-8
/// are replaced.
pub fn parse_tmux_output_line(line: &[u8]) -> (res: Option<(String, &[u8])>)
    ensures
        match res {
            Some((pane, payload)) => {
                &&& output_line(line@) is Some
                &&& pane@ == readable(output_line(line@)->0.pane)
                &&& payload@ == output_line(line@)->0.payload
            },
            None => output_line(line@) is None,
        },
{
    match split_output_line(line) {
        Some((pane, payload)) => Some((readable_text(pane), payload)),
        None => None,
    }
}

/// Whether the line tells of a change of windows, layout, panes or sessions.
pub open spec fn structure_event(line: Seq<u8>) -> bool {
    ||| spells(line, "%window-"@)
    ||| spells(line, "%layout-change"@)
    ||| spells(line, "%pane-"@)
    ||| spells(line, "%session-"@)
}

/// Whether the line tells of a change of windows, layout, panes or sessions.
pub fn is_tmux_structure_event(line: &[u8]) -> (res: bool)
    ensures
        res == structure_event(line@),
{
    line_starts_with(line, "%window-") || line_starts_with(line, "%layout-change")
        || line_starts_with(line, "%pane-") || line_starts_with(line, "%session-")
}

/// The programs that draw the whole screen, and those that transfer files.
pub open spec fn screen_program(name: Text) -> bool {
    ||| name == "vi"@
    ||| name == "vim"@
    ||| name == "nvim"@
    ||| name == "view"@
    ||| name == "less"@
    ||| name == "more"@
    ||| name == "man"@
    ||| name == "top"@
    ||| name == "htop"@
    ||| name == "btop"@
    ||| name == "nano"@
    ||| name == "emacs"@
    ||| name == "scp"@
    ||| name == "sftp"@
}

/// Whether the text of a pane that runs `command` is worth capturing.
pub open spec fn captures(command: Text) -> bool {
    !screen_program(after_last(command, '/'))
}

/// Whether the text of a pane that runs `command` is worth capturing: not where the program draws
/// the whole screen or transfers files.
pub fn should_capture_pane_snapshot(command: &str) -> (res: bool)
    ensures
        res == captures(command@),
{
    let program = text_after_last(command, '/');
    let name = program.as_str();
    !(same_text(name, "vi") || same_text(name, "vim") || same_text(name, "nvim") || same_text(
        name,
        "view",
    ) || same_text(name, "less") || same_text(name, "more") || same_text(name, "man") || same_text(
        name,
        "top",
    ) || same_text(name, "htop") || same_text(name, "btop") || same_text(name, "nano")
        || same_text(name, "emacs") || same_text(name, "scp") || same_text(name, "sftp"))
}

} // verus!
