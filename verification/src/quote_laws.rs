//! What quoting does to each character.
use vstd::prelude::*;
use crate::quote::{
    all_plain, doubled, is_plain, quoted_body, quoted_char, shell_escaped, target_arg, tmux_quoted,
};
use crate::text::Text;

verus! {

/// Whether the shell takes `c` for itself: a letter or digit of ASCII, or one of `_ - . / : @ =`.
pub open spec fn stands_for_itself(c: char) -> bool {
    let n = c as u32;
    ||| 48 <= n <= 57
    ||| 65 <= n <= 90
    ||| 97 <= n <= 122
    ||| n == 95
    ||| n == 45
    ||| n == 46
    ||| n == 47
    ||| n == 58
    ||| n == 64
    ||| n == 61
}

proof fn lemma_plain_by_code_point(c: char)
    ensures
        is_plain(c) == stands_for_itself(c),
{
}

/// A shell word is written without quotes exactly where each of its characters stands for itself.
pub proof fn law_words_without_quotes(value: Text)
    ensures
        (forall|i: int| 0 <= i < value.len() ==> stands_for_itself(#[trigger] value[i]))
            ==> shell_escaped(value) == value,
        (exists|i: int| 0 <= i < value.len() && !stands_for_itself(#[trigger] value[i]))
            ==> shell_escaped(value).len() >= 2 && shell_escaped(value)[0] == '\''
            && shell_escaped(value).last() == '\'',
{
    if forall|i: int| 0 <= i < value.len() ==> stands_for_itself(#[trigger] value[i]) {
        assert forall|i: int| 0 <= i < value.len() implies is_plain(#[trigger] value[i]) by {
            assert(stands_for_itself(value[i]));
            lemma_plain_by_code_point(value[i]);
        }
    }
    if exists|i: int| 0 <= i < value.len() && !stands_for_itself(#[trigger] value[i]) {
        let i = choose|i: int| 0 <= i < value.len() && !stands_for_itself(#[trigger] value[i]);
        lemma_plain_by_code_point(value[i]);
        assert(!is_plain(value[i]));
        assert(!all_plain(value));
    }
}

proof fn lemma_quoted_body_push(value: Text, c: char)
    ensures
        quoted_body(value.push(c)) == quoted_body(value) + quoted_char(c),
    decreases value.len(),
{
    let all = value.push(c);
    if value.len() == 0 {
        assert(all.skip(1) =~= value);
        assert(quoted_body(all) =~= quoted_body(value) + quoted_char(c));
    } else {
        lemma_quoted_body_push(value.skip(1), c);
        assert(all.skip(1) =~= value.skip(1).push(c));
        assert(all[0] == value[0]);
        assert(quoted_body(all) =~= quoted_body(value) + quoted_char(c));
    }
}

proof fn lemma_doubled_push(value: Text, c: char)
    ensures
        doubled(value.push(c)) == doubled(value) + if c == '\\' {
            seq!['\\', '\\']
        } else {
            seq![c]
        },
    decreases value.len(),
{
    let all = value.push(c);
    let end = if c == '\\' {
        seq!['\\', '\\']
    } else {
        seq![c]
    };
    if value.len() == 0 {
        assert(all.skip(1) =~= value);
        assert(doubled(all) =~= doubled(value) + end);
    } else {
        lemma_doubled_push(value.skip(1), c);
        assert(all.skip(1) =~= value.skip(1).push(c));
        assert(all[0] == value[0]);
        assert(doubled(all) =~= doubled(value) + end);
    }
}

/// What tmux is given for a value: between single quotes, each character as it is, but a backslash
/// twice and a single quote as `'\''`.
pub proof fn law_tmux_quote_by_characters(value: Text, c: char)
    ensures
        tmux_quoted(seq![]) == "''"@,
        tmux_quoted(value).len() >= 2,
        tmux_quoted(value.push(c)) == tmux_quoted(value).drop_last() + if c == '\\' {
            seq!['\\', '\\', '\'']
        } else if c == '\'' {
            seq!['\'', '\\', '\'', '\'', '\'']
        } else {
            seq![c, '\'']
        },
{
    reveal_strlit("''");
    let none: Text = seq![];
    assert(tmux_quoted(none) =~= "''"@);
    lemma_doubled_push(value, c);
    let d = doubled(value);
    if c == '\\' {
        assert(d + seq!['\\', '\\'] =~= d.push('\\').push('\\'));
        lemma_quoted_body_push(d, '\\');
        lemma_quoted_body_push(d.push('\\'), '\\');
    } else {
        assert(d + seq![c] =~= d.push(c));
        lemma_quoted_body_push(d, c);
    }
    let end = if c == '\\' {
        seq!['\\', '\\', '\'']
    } else if c == '\'' {
        seq!['\'', '\\', '\'', '\'', '\'']
    } else {
        seq![c, '\'']
    };
    assert(tmux_quoted(value).drop_last() =~= seq!['\''] + quoted_body(d));
    assert(tmux_quoted(value.push(c)) =~= tmux_quoted(value).drop_last() + end);
}

/// A value without backslashes and single quotes stands between single quotes as it is.
pub proof fn law_tmux_quote_of_harmless_text(value: Text)
    requires
        !value.contains('\\'),
        !value.contains('\''),
    ensures
        tmux_quoted(value) == "'"@ + value + "'"@,
    decreases value.len(),
{
    reveal_strlit("'");
    if value.len() == 0 {
        law_tmux_quote_by_characters(value, 'a');
        reveal_strlit("''");
        assert(value =~= seq![]);
        assert(tmux_quoted(value) =~= "'"@ + value + "'"@);
    } else {
        let less = value.drop_last();
        let c = value.last();
        assert(value.contains(c));
        assert forall|i: int| 0 <= i < less.len() implies less[i] != '\\' && less[i] != '\'' by {
            assert(value.contains(value[i]));
        }
        law_tmux_quote_of_harmless_text(less);
        law_tmux_quote_by_characters(less, c);
        assert(less.push(c) =~= value);
        assert(tmux_quoted(value) =~= "'"@ + value + "'"@);
    }
}

/// The target of a tmux command is named where there is one.
pub proof fn law_target_is_named(target: Text)
    ensures
        target_arg(None) == ""@,
        target_arg(Some(target)) == " -t "@ + target,
{
    reveal_strlit("");
    assert(target_arg(None) =~= ""@);
}

} // verus!
