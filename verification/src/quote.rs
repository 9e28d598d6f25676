//! Quoting of words for the shell and for tmux commands.
use vstd::prelude::*;
use vstd::string::*;
use crate::text::{alphanumeric, chars_of, is_alphanumeric, opt_str, Text};

verus! {

/// A character that the shell takes as it is.
pub open spec fn is_plain(c: char) -> bool {
    is_alphanumeric(c) || c == '_' || c == '-' || c == '.' || c == '/' || c == ':' || c == '@' || c
        == '='
}

/// Whether every character of `value` is plain.
pub open spec fn all_plain(value: Text) -> bool {
    forall|i: int| 0 <= i < value.len() ==> is_plain(#[trigger] value[i])
}

/// How a character is written between single quotes: a single quote as `'\''`.
pub open spec fn quoted_char(c: char) -> Text {
    if c == '\'' {
        seq!['\'', '\\', '\'', '\'']
    } else {
        seq![c]
    }
}

/// `value` as it is written between single quotes.
pub open spec fn quoted_body(value: Text) -> Text
    decreases value.len(),
{
    if value.len() == 0 {
        seq![]
    } else {
        quoted_char(value[0]) + quoted_body(value.skip(1))
    }
}

/// `value` between single quotes.
pub open spec fn quoted(value: Text) -> Text {
    seq!['\''] + quoted_body(value) + seq!['\'']
}

/// `value` as one shell word: as it is where all of it is plain, else between single quotes.
pub open spec fn shell_escaped(value: Text) -> Text {
    if all_plain(value) {
        value
    } else {
        quoted(value)
    }
}

/// `value` with every backslash written twice.
pub open spec fn doubled(value: Text) -> Text
    decreases value.len(),
{
    if value.len() == 0 {
        seq![]
    } else if value[0] == '\\' {
        seq!['\\', '\\'] + doubled(value.skip(1))
    } else {
        seq![value[0]] + doubled(value.skip(1))
    }
}

/// `value` as an argument of a tmux command: backslashes doubled, between single quotes.
pub open spec fn tmux_quoted(value: Text) -> Text {
    quoted(doubled(value))
}

/// Appends one character as it is written between single quotes.
fn push_quoted(out: &mut String, c: char)
    ensures
        final(out)@ == old(out)@ + quoted_char(c),
{
    let ghost before = out@;
    if c == '\'' {
        out.push('\'');
        out.push('\\');
        out.push('\'');
        out.push('\'');
        assert(out@ == before + quoted_char(c));
    } else {
        out.push(c);
        assert(out@ == before + quoted_char(c));
    }
}

/// Whether every character of `value` is plain.
fn is_all_plain(value: &Vec<char>) -> (res: bool)
    ensures
        res == all_plain(value@),
{
    let mut i: usize = 0;
    while i < value.len()
        invariant
            0 <= i <= value@.len(),
            forall|j: int| 0 <= j < i ==> is_plain(#[trigger] value@[j]),
        decreases value@.len() - i,
    {
        let c = value[i];
        if !(alphanumeric(c) || c == '_' || c == '-' || c == '.' || c == '/' || c == ':' || c == '@'
            || c == '=') {
            assert(!is_plain(value@[i as int]));
            return false;
        }
        i += 1;
    }
    true
}

/// `value` as one shell word.
pub fn shell_escape(value: &str) -> (res: String)
    ensures
        res@ == shell_escaped(value@),
{
    let chars = chars_of(value);
    if is_all_plain(&chars) {
        return value.to_string();
    }
    let mut out = String::new();
    out.push('\'');
    let mut i: usize = 0;
    assert(value@.skip(0) == value@);
    assert(out@ == seq!['\'']);
    while i < chars.len()
        invariant
            chars@ == value@,
            0 <= i <= value@.len(),
            out@ + quoted_body(value@.skip(i as int)) == seq!['\''] + quoted_body(value@),
        decreases value@.len() - i,
    {
        let ghost rest = value@.skip(i as int);
        let ghost before = out@;
        push_quoted(&mut out, chars[i]);
        assert(rest[0] == value@[i as int]);
        assert(rest.skip(1) == value@.skip(i + 1));
        assert(before + (quoted_char(rest[0]) + quoted_body(rest.skip(1))) == (before
            + quoted_char(rest[0])) + quoted_body(rest.skip(1)));
        i += 1;
    }
    assert(quoted_body(value@.skip(i as int)) == Seq::<char>::empty());
    assert(out@ == seq!['\''] + quoted_body(value@));
    out.push('\'');
    assert(out@ == quoted(value@));
    out
}

/// `value` as an argument of a tmux command.
pub fn tmux_quote(value: &str) -> (res: String)
    ensures
        res@ == tmux_quoted(value@),
{
    let chars = chars_of(value);
    let mut out = String::new();
    out.push('\'');
    let mut i: usize = 0;
    assert(value@.skip(0) == value@);
    assert(out@ == seq!['\'']);
    while i < chars.len()
        invariant
            chars@ == value@,
            0 <= i <= value@.len(),
            out@ + quoted_body(doubled(value@.skip(i as int))) == seq!['\''] + quoted_body(
                doubled(value@),
            ),
        decreases value@.len() - i,
    {
        let ghost rest = value@.skip(i as int);
        let ghost before = out@;
        assert(rest[0] == value@[i as int]);
        assert(rest.skip(1) == value@.skip(i + 1));
        let ghost tail = doubled(rest.skip(1));
        let c = chars[i];
        if c == '\\' {
            out.push('\\');
            out.push('\\');
            proof {
                reveal_with_fuel(quoted_body, 3);
                let two = seq!['\\', '\\'] + tail;
                assert(two.skip(1) == seq!['\\'] + tail);
                assert(two.skip(1).skip(1) == tail);
                assert(quoted_body(two) == seq!['\\'] + (seq!['\\'] + quoted_body(tail)));
                assert(before + quoted_body(two) == before.push('\\').push('\\') + quoted_body(
                    tail,
                ));
            }
        } else {
            push_quoted(&mut out, c);
            proof {
                let one = seq![c] + tail;
                assert(one.skip(1) == tail);
                assert(before + (quoted_char(c) + quoted_body(tail)) == (before + quoted_char(c))
                    + quoted_body(tail));
            }
        }
        i += 1;
    }
    assert(quoted_body(doubled(value@.skip(i as int))) == Seq::<char>::empty());
    assert(out@ == seq!['\''] + quoted_body(doubled(value@)));
    out.push('\'');
    assert(out@ == quoted(doubled(value@)));
    out
}

/// The argument that names the target of a tmux command, if there is one.
pub open spec fn target_arg(target: Option<Text>) -> Text {
    match target {
        Some(t) => " -t "@ + t,
        None => seq![],
    }
}

/// The argument that names the target of a tmux command; empty where there is none.
pub fn tmux_target_arg(target: Option<&str>) -> (res: String)
    ensures
        res@ == target_arg(opt_str(target)),
{
    match target {
        Some(t) => {
            let mut out = " -t ".to_string();
            out.append(t);
            out
        },
        None => String::new(),
    }
}

// ---------------------------------------------------------------------------
// Reading words
// ---------------------------------------------------------------------------

/// `prefix` before `rest`, if there is a rest.
pub open spec fn before(prefix: Text, rest: Option<Text>) -> Option<Text> {
    match rest {
        Some(r) => Some(prefix + r),
        None => None,
    }
}

/// What the shell reads in `s` as the rest of one word: single quotes keep everything between them,
/// a backslash outside quotes keeps the next character. None where `s` is not the rest of one word.
pub open spec fn word_rest(s: Text, in_quotes: bool) -> Option<Text>
    decreases s.len(),
{
    if s.len() == 0 {
        if in_quotes {
            None
        } else {
            Some(seq![])
        }
    } else if s[0] == '\'' {
        word_rest(s.skip(1), !in_quotes)
    } else if in_quotes {
        before(seq![s[0]], word_rest(s.skip(1), true))
    } else if s[0] == '\\' {
        if s.len() >= 2 {
            before(seq![s[1]], word_rest(s.skip(2), false))
        } else {
            None
        }
    } else if is_plain(s[0]) {
        before(seq![s[0]], word_rest(s.skip(1), false))
    } else {
        None
    }
}

/// What the shell reads in `s`, if `s` is one word.
pub open spec fn shell_word(s: Text) -> Option<Text> {
    if s.len() == 0 {
        None
    } else {
        word_rest(s, false)
    }
}

proof fn lemma_quoted_body_is_read(value: Text, tail: Text)
    ensures
        word_rest(quoted_body(value) + seq!['\''] + tail, true) == before(
            value,
            word_rest(tail, false),
        ),
    decreases value.len(),
{
    let close = seq!['\''] + tail;
    assert(quoted_body(value) + seq!['\''] + tail == quoted_body(value) + close);
    if value.len() == 0 {
        assert(quoted_body(value) + close == close);
        assert(close.skip(1) == tail);
        match word_rest(tail, false) {
            Some(r) => {
                assert(value + r == r);
            },
            None => {},
        }
    } else {
        let c = value[0];
        let rest = quoted_body(value.skip(1)) + close;
        lemma_quoted_body_is_read(value.skip(1), tail);
        assert(rest == quoted_body(value.skip(1)) + seq!['\''] + tail);
        let whole = quoted_body(value) + close;
        if c == '\'' {
            reveal_with_fuel(word_rest, 5);
            assert(whole == seq!['\'', '\\', '\'', '\''] + rest);
            assert(whole.skip(1) == seq!['\\', '\'', '\''] + rest);
            assert(whole.skip(1).skip(2) == seq!['\''] + rest);
            assert(whole.skip(1).skip(2).skip(1) == rest);
        } else {
            assert(whole == seq![c] + rest);
            assert(whole.skip(1) == rest);
        }
        match word_rest(tail, false) {
            Some(r) => {
                assert(seq![c] + (value.skip(1) + r) == value + r);
            },
            None => {},
        }
    }
}

proof fn lemma_quoted_is_read(value: Text)
    ensures
        shell_word(quoted(value)) == Some(value),
{
    let none: Text = seq![];
    lemma_quoted_body_is_read(value, none);
    let body = quoted_body(value) + seq!['\''];
    assert(body + none == body);
    assert(quoted(value).skip(1) == body);
    assert(value + none == value);
    assert(word_rest(none, false) == Some(none));
}

proof fn lemma_plain_is_read(value: Text)
    requires
        all_plain(value),
    ensures
        word_rest(value, false) == Some(value),
    decreases value.len(),
{
    if value.len() > 0 {
        assert(is_plain(value[0]));
        assert forall|i: int| 0 <= i < value.skip(1).len() implies is_plain(
            #[trigger] value.skip(1)[i],
        ) by {
            assert(value.skip(1)[i] == value[i + 1]);
        }
        lemma_plain_is_read(value.skip(1));
        assert(value == seq![value[0]] + value.skip(1));
    } else {
        assert(value == Seq::<char>::empty());
    }
}

/// The shell reads an escaped value back as one word that is the value. (The empty value is written
/// as nothing, which is no word.)
pub proof fn law_shell_escape_is_read_back(value: Text)
    requires
        value.len() > 0,
    ensures
        shell_word(shell_escaped(value)) == Some(value),
{
    if all_plain(value) {
        lemma_plain_is_read(value);
    } else {
        lemma_quoted_is_read(value);
    }
}

/// A value quoted for tmux is one word; read by the rules of the shell it is the value with every
/// backslash doubled.
pub proof fn law_tmux_quote_is_one_word(value: Text)
    ensures
        shell_word(tmux_quoted(value)) == Some(doubled(value)),
{
    lemma_quoted_is_read(doubled(value));
}

/// A value without a backslash that is quoted for tmux is read back as it was.
pub proof fn law_tmux_quote_is_read_back(value: Text)
    requires
        forall|i: int| 0 <= i < value.len() ==> value[i] != '\\',
    ensures
        shell_word(tmux_quoted(value)) == Some(value),
{
    lemma_doubled_id(value);
    lemma_quoted_is_read(value);
}

proof fn lemma_doubled_id(value: Text)
    requires
        forall|i: int| 0 <= i < value.len() ==> value[i] != '\\',
    ensures
        doubled(value) == value,
    decreases value.len(),
{
    if value.len() > 0 {
        assert forall|i: int| 0 <= i < value.skip(1).len() implies value.skip(1)[i] != '\\' by {
            assert(value.skip(1)[i] == value[i + 1]);
        }
        lemma_doubled_id(value.skip(1));
        assert(value == seq![value[0]] + value.skip(1));
    } else {
        assert(value == Seq::<char>::empty());
    }
}

/// Different values are quoted differently for tmux.
pub proof fn law_tmux_quote_is_injective(a: Text, b: Text)
    requires
        tmux_quoted(a) == tmux_quoted(b),
    ensures
        a == b,
{
    law_tmux_quote_is_one_word(a);
    law_tmux_quote_is_one_word(b);
    lemma_doubled_injective(a, b);
}

proof fn lemma_doubled_injective(a: Text, b: Text)
    requires
        doubled(a) == doubled(b),
    ensures
        a == b,
    decreases a.len(),
{
    if a.len() == 0 || b.len() == 0 {
        if a.len() > 0 {
            assert(doubled(a).len() > 0);
        }
        if b.len() > 0 {
            assert(doubled(b).len() > 0);
        }
        assert(a == b);
    } else {
        assert(doubled(a)[0] == a[0]);
        assert(doubled(b)[0] == b[0]);
        let n: int = if a[0] == '\\' {
            2
        } else {
            1
        };
        assert(doubled(a).skip(n) == doubled(a.skip(1)));
        assert(doubled(b).skip(n) == doubled(b.skip(1)));
        lemma_doubled_injective(a.skip(1), b.skip(1));
        assert(a == seq![a[0]] + a.skip(1));
        assert(b == seq![b[0]] + b.skip(1));
    }
}

/// Quoting brings no line end into a value: a command whose values have none is one line.
pub proof fn law_quoting_keeps_lines(value: Text)
    requires
        !value.contains('\n'),
    ensures
        !shell_escaped(value).contains('\n'),
        !tmux_quoted(value).contains('\n'),
{
    lemma_quoted_keeps_lines(value);
    lemma_doubled_keeps_lines(value);
    lemma_quoted_keeps_lines(doubled(value));
}

proof fn lemma_no_line_concat(a: Text, b: Text)
    ensures
        (a + b).contains('\n') == (a.contains('\n') || b.contains('\n')),
{
    if a.contains('\n') {
        let i = choose|i: int| 0 <= i < a.len() && a[i] == '\n';
        assert((a + b)[i] == '\n');
    }
    if b.contains('\n') {
        let i = choose|i: int| 0 <= i < b.len() && b[i] == '\n';
        assert((a + b)[a.len() + i] == '\n');
    }
    if (a + b).contains('\n') {
        let i = choose|i: int| 0 <= i < (a + b).len() && (a + b)[i] == '\n';
        if i < a.len() {
            assert(a[i] == '\n');
        } else {
            assert(b[i - a.len()] == '\n');
        }
    }
}

proof fn lemma_tail_without_line(value: Text)
    requires
        value.len() > 0,
        !value.contains('\n'),
    ensures
        value[0] != '\n',
        !value.skip(1).contains('\n'),
{
    assert(value == seq![value[0]] + value.skip(1));
    lemma_no_line_concat(seq![value[0]], value.skip(1));
    assert(value.contains(value[0]));
}

proof fn lemma_quoted_body_keeps_lines(value: Text)
    requires
        !value.contains('\n'),
    ensures
        !quoted_body(value).contains('\n'),
    decreases value.len(),
{
    if value.len() > 0 {
        lemma_tail_without_line(value);
        lemma_quoted_body_keeps_lines(value.skip(1));
        lemma_no_line_concat(quoted_char(value[0]), quoted_body(value.skip(1)));
    }
}

proof fn lemma_quoted_keeps_lines(value: Text)
    requires
        !value.contains('\n'),
    ensures
        !quoted(value).contains('\n'),
{
    lemma_quoted_body_keeps_lines(value);
    lemma_no_line_concat(seq!['\''], quoted_body(value));
    lemma_no_line_concat(seq!['\''] + quoted_body(value), seq!['\'']);
}

proof fn lemma_doubled_keeps_lines(value: Text)
    requires
        !value.contains('\n'),
    ensures
        !doubled(value).contains('\n'),
    decreases value.len(),
{
    if value.len() > 0 {
        lemma_tail_without_line(value);
        lemma_doubled_keeps_lines(value.skip(1));
        lemma_no_line_concat(seq![value[0]], doubled(value.skip(1)));
        lemma_no_line_concat(seq!['\\', '\\'], doubled(value.skip(1)));
    }
}

// ---------------------------------------------------------------------------
// Reading commands
// ---------------------------------------------------------------------------

/// The words that the shell reads in `s`, when `word` has been read of the first one. None where
/// `s` is not a plain list of words, none of them empty, with one space between each two.
pub open spec fn words_rest(s: Text, word: Text, in_quotes: bool) -> Option<Seq<Text>>
    decreases s.len(),
{
    if s.len() == 0 {
        if in_quotes || word.len() == 0 {
            None
        } else {
            Some(seq![word])
        }
    } else if s[0] == '\'' {
        words_rest(s.skip(1), word, !in_quotes)
    } else if in_quotes {
        words_rest(s.skip(1), word.push(s[0]), true)
    } else if s[0] == '\\' {
        if s.len() >= 2 {
            words_rest(s.skip(2), word.push(s[1]), false)
        } else {
            None
        }
    } else if s[0] == ' ' {
        match words_rest(s.skip(1), seq![], false) {
            Some(words) if word.len() > 0 => Some(seq![word] + words),
            _ => None,
        }
    } else if is_plain(s[0]) {
        words_rest(s.skip(1), word.push(s[0]), false)
    } else {
        None
    }
}

/// The words that the shell reads in `s`.
pub open spec fn shell_words(s: Text) -> Option<Seq<Text>> {
    words_rest(s, seq![], false)
}

proof fn lemma_plain_word(value: Text, tail: Text, word: Text)
    requires
        all_plain(value),
    ensures
        words_rest(value + tail, word, false) == words_rest(tail, word + value, false),
    decreases value.len(),
{
    if value.len() == 0 {
        assert(value + tail =~= tail);
        assert(word + value =~= word);
    } else {
        let rest = value.skip(1);
        assert(is_plain(value[0]));
        assert((value + tail).skip(1) =~= rest + tail);
        assert((value + tail)[0] == value[0]);
        assert forall|i: int| 0 <= i < rest.len() implies is_plain(#[trigger] rest[i]) by {
            assert(rest[i] == value[i + 1]);
        }
        lemma_plain_word(rest, tail, word.push(value[0]));
        assert(word.push(value[0]) + rest =~= word + value);
    }
}

proof fn lemma_quoted_word(value: Text, tail: Text, word: Text)
    ensures
        words_rest(quoted_body(value) + seq!['\''] + tail, word, true) == words_rest(
            tail,
            word + value,
            false,
        ),
    decreases value.len(),
{
    let s = quoted_body(value) + seq!['\''] + tail;
    if value.len() == 0 {
        assert(s =~= seq!['\''] + tail);
        assert(s.skip(1) =~= tail);
        assert(word + value =~= word);
    } else {
        let c = value[0];
        let rest = value.skip(1);
        let later = quoted_body(rest) + seq!['\''] + tail;
        assert(s =~= quoted_char(c) + later);
        lemma_quoted_word(rest, tail, word.push(c));
        assert(word.push(c) + rest =~= word + value);
        if c == '\'' {
            reveal_with_fuel(words_rest, 4);
            assert(s.skip(1).skip(2).skip(1) =~= later);
            assert(s[0] == '\'' && s[1] == '\\' && s[2] == '\'' && s[3] == '\'');
            assert(s.skip(1)[0] == '\\' && s.skip(1)[1] == '\'');
            assert(s.skip(1).skip(2)[0] == '\'');
        } else {
            assert(s.skip(1) =~= later);
        }
    }
}

proof fn lemma_escaped_word(value: Text, tail: Text)
    ensures
        words_rest(shell_escaped(value) + tail, seq![], false) == words_rest(tail, value, false),
{
    let none: Text = seq![];
    assert(none + value =~= value);
    if all_plain(value) {
        lemma_plain_word(value, tail, none);
    } else {
        let s = shell_escaped(value) + tail;
        assert(s.skip(1) =~= quoted_body(value) + seq!['\''] + tail);
        lemma_quoted_word(value, tail, none);
    }
}

/// Escaped words with one space between each two.
pub open spec fn command_of(words: Seq<Text>) -> Text
    decreases words.len(),
{
    if words.len() == 0 {
        seq![]
    } else if words.len() == 1 {
        shell_escaped(words[0])
    } else {
        shell_escaped(words[0]) + seq![' '] + command_of(words.skip(1))
    }
}

/// The shell reads a command that is put together of escaped words, none of them empty, as these
/// words.
pub proof fn law_commands_are_read_back(words: Seq<Text>)
    requires
        words.len() > 0,
        forall|i: int| 0 <= i < words.len() ==> (#[trigger] words[i]).len() > 0,
    ensures
        shell_words(command_of(words)) == Some(words),
    decreases words.len(),
{
    let none: Text = seq![];
    assert(words[0].len() > 0);
    if words.len() == 1 {
        lemma_escaped_word(words[0], none);
        assert(shell_escaped(words[0]) + none =~= shell_escaped(words[0]));
        assert(seq![words[0]] =~= words);
    } else {
        let rest = words.skip(1);
        let later = command_of(rest);
        assert forall|i: int| 0 <= i < rest.len() implies (#[trigger] rest[i]).len() > 0 by {
            assert(rest[i] == words[i + 1]);
        }
        law_commands_are_read_back(rest);
        lemma_escaped_word(words[0], seq![' '] + later);
        assert(shell_escaped(words[0]) + (seq![' '] + later) =~= command_of(words));
        assert((seq![' '] + later).skip(1) =~= later);
        assert(seq![words[0]] + rest =~= words);
    }
}

} // verus!
