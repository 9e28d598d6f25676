//! What is promised of texts: which characters count as what, and what cutting and numbers mean.
use vstd::prelude::*;
use crate::text::{
    after_last, decimal, digits_value, find, is_alphanumeric, is_ascii_space, is_digit,
    is_white_space, lemma_find_from, lemma_position_from, occurs_at, position, split_fields,
    strip_prefix, trim_end, trim_start, trimmed, unsigned_value, Text,
};

verus! {

// ---------------------------------------------------------------------------
// Characters
// ---------------------------------------------------------------------------

/// White space is what Unicode lists under that name, by its code points.
pub proof fn law_white_space_by_code_point(c: char)
    ensures
        is_white_space(c) <==> {
            let n = c as u32;
            ||| 9 <= n <= 13
            ||| n == 32
            ||| n == 133
            ||| n == 160
            ||| n == 5760
            ||| 8192 <= n <= 8202
            ||| n == 8232
            ||| n == 8233
            ||| n == 8239
            ||| n == 8287
            ||| n == 12288
        },
{
}

/// ASCII white space is space, tab, line feed, form feed and carriage return.
pub proof fn law_ascii_space_by_code_point(c: char)
    ensures
        is_ascii_space(c) <==> {
            let n = c as u32;
            n == 32 || n == 9 || n == 10 || n == 12 || n == 13
        },
{
}

/// Letters and digits are the 26 letters of either case and the ten digits of ASCII.
pub proof fn law_letters_and_digits_by_code_point(c: char)
    ensures
        is_alphanumeric(c) <==> {
            let n = c as u32;
            48 <= n <= 57 || 65 <= n <= 90 || 97 <= n <= 122
        },
        is_digit(c) <==> 48 <= c as u32 <= 57,
{
}

// ---------------------------------------------------------------------------
// Trimming
// ---------------------------------------------------------------------------

proof fn lemma_trim_start(s: Text)
    ensures
        exists|n: int|
            0 <= n <= s.len() && trim_start(s) == #[trigger] s.skip(n) && forall|i: int|
                0 <= i < n ==> is_white_space(#[trigger] s[i]),
        trim_start(s).len() > 0 ==> !is_white_space(trim_start(s)[0]),
    decreases s.len(),
{
    if s.len() > 0 && is_white_space(s[0]) {
        let rest = s.drop_first();
        lemma_trim_start(rest);
        let n = choose|n: int|
            0 <= n <= rest.len() && trim_start(rest) == #[trigger] rest.skip(n) && forall|i: int|
                0 <= i < n ==> is_white_space(#[trigger] rest[i]);
        assert(s.skip(n + 1) =~= rest.skip(n));
        assert forall|i: int| 0 <= i < n + 1 implies is_white_space(#[trigger] s[i]) by {
            if i > 0 {
                assert(rest[i - 1] == s[i]);
            }
        }
    } else {
        assert(s.skip(0) =~= s);
    }
}

proof fn lemma_trim_end(s: Text)
    ensures
        exists|n: int|
            0 <= n <= s.len() && trim_end(s) == #[trigger] s.take(n) && forall|i: int|
                n <= i < s.len() ==> is_white_space(#[trigger] s[i]),
        trim_end(s).len() > 0 ==> !is_white_space(trim_end(s).last()),
    decreases s.len(),
{
    if s.len() > 0 && is_white_space(s.last()) {
        let rest = s.drop_last();
        lemma_trim_end(rest);
        let n = choose|n: int|
            0 <= n <= rest.len() && trim_end(rest) == #[trigger] rest.take(n) && forall|i: int|
                n <= i < rest.len() ==> is_white_space(#[trigger] rest[i]);
        assert(s.take(n) =~= rest.take(n));
        assert forall|i: int| n <= i < s.len() implies is_white_space(#[trigger] s[i]) by {
            if i < rest.len() {
                assert(rest[i] == s[i]);
            }
        }
    } else {
        assert(s.take(s.len() as int) =~= s);
    }
}

/// Whether `s` is `core` with nothing but white space around it.
pub open spec fn surrounds(s: Text, from: int, core: Text) -> bool {
    &&& 0 <= from
    &&& from + core.len() <= s.len()
    &&& s.subrange(from, from + core.len()) == core
    &&& forall|i: int|
        0 <= i < s.len() && !(from <= i < from + core.len()) ==> is_white_space(#[trigger] s[i])
}

/// Trimming takes white space from both ends of a text and nothing else, and takes all of it.
pub proof fn law_trimming_takes_white_space_only(s: Text)
    ensures
        exists|from: int| #[trigger] surrounds(s, from, trimmed(s)),
        trimmed(s).len() > 0 ==> !is_white_space(trimmed(s)[0]) && !is_white_space(
            trimmed(s).last(),
        ),
{
    lemma_trim_start(s);
    let a = trim_start(s);
    let n = choose|n: int|
        0 <= n <= s.len() && a == #[trigger] s.skip(n) && forall|i: int|
            0 <= i < n ==> is_white_space(#[trigger] s[i]);
    lemma_trim_end(a);
    let core = trim_end(a);
    let m = choose|m: int|
        0 <= m <= a.len() && core == #[trigger] a.take(m) && forall|i: int|
            m <= i < a.len() ==> is_white_space(#[trigger] a[i]);
    assert(s.subrange(n, n + core.len()) =~= core);
    assert forall|i: int| 0 <= i < s.len() && !(n <= i < n + core.len()) implies is_white_space(
        #[trigger] s[i],
    ) by {
        if i >= n {
            assert(a[i - n] == s[i]);
        }
    }
    assert(surrounds(s, n, trimmed(s)));
}

/// A text that is nothing but white space.
pub open spec fn blank(s: Text) -> bool {
    forall|i: int| 0 <= i < s.len() ==> is_white_space(#[trigger] s[i])
}

proof fn lemma_trim_start_blank(before: Text, core: Text)
    requires
        blank(before),
        core.len() > 0 ==> !is_white_space(core[0]),
    ensures
        trim_start(before + core) == core,
    decreases before.len(),
{
    if before.len() == 0 {
        assert(before + core =~= core);
    } else {
        let rest = before.drop_first();
        assert((before + core)[0] == before[0]);
        assert((before + core).drop_first() =~= rest + core);
        assert forall|i: int| 0 <= i < rest.len() implies is_white_space(#[trigger] rest[i]) by {
            assert(rest[i] == before[i + 1]);
        }
        lemma_trim_start_blank(rest, core);
    }
}

proof fn lemma_trim_end_blank(core: Text, after: Text)
    requires
        blank(after),
        core.len() > 0 ==> !is_white_space(core.last()),
    ensures
        trim_end(core + after) == core,
    decreases after.len(),
{
    if after.len() == 0 {
        assert(core + after =~= core);
    } else {
        let rest = after.drop_last();
        assert((core + after).last() == after.last());
        assert(after.last() == after[after.len() - 1]);
        assert((core + after).drop_last() =~= core + rest);
        assert forall|i: int| 0 <= i < rest.len() implies is_white_space(#[trigger] rest[i]) by {
            assert(rest[i] == after[i]);
        }
        lemma_trim_end_blank(core, rest);
    }
}

/// White space around a text that neither starts nor ends with it is trimmed away, however much there
/// is.
pub proof fn law_white_space_around_is_trimmed(before: Text, core: Text, after: Text)
    requires
        blank(before),
        blank(after),
        core.len() > 0,
        !is_white_space(core[0]),
        !is_white_space(core.last()),
    ensures
        trimmed(before + core + after) == core,
{
    assert(before + core + after =~= before + (core + after));
    assert((core + after)[0] == core[0]);
    lemma_trim_start_blank(before, core + after);
    lemma_trim_end_blank(core, after);
}

// ---------------------------------------------------------------------------
// Cutting
// ---------------------------------------------------------------------------

/// A prefix is taken off exactly where the text is the prefix and a rest.
pub proof fn law_prefix_and_rest<T>(s: Seq<T>, prefix: Seq<T>, rest: Seq<T>)
    ensures
        strip_prefix(s, prefix) == Some(rest) <==> s == prefix + rest,
{
    if s == prefix + rest {
        assert(s.subrange(0, 0 + prefix.len() as int) =~= prefix);
        assert(s.skip(prefix.len() as int) =~= rest);
    }
    if strip_prefix(s, prefix) == Some(rest) {
        assert(s =~= prefix + rest);
    }
}

/// A text holds another one exactly where it is that one with something around it.
pub proof fn law_found_where_it_stands(s: Text, a: Text, pat: Text, b: Text)
    ensures
        s == a + pat + b ==> find(s, pat) is Some && find(s, pat)->0 <= a.len(),
        find(s, pat) is Some ==> 0 <= find(s, pat)->0 && find(s, pat)->0 + pat.len() <= s.len()
            && s == s.take(find(s, pat)->0) + pat + s.skip(find(s, pat)->0 + pat.len() as int),
{
    lemma_find_from(s, pat, 0);
    if s == a + pat + b {
        assert(s.subrange(a.len() as int, a.len() as int + pat.len() as int) =~= pat);
        assert(occurs_at(s, pat, a.len() as int));
    }
    if let Some(i) = find(s, pat) {
        assert(occurs_at(s, pat, i));
        assert(s =~= s.take(i) + pat + s.skip(i + pat.len() as int));
    }
}

/// What stands behind the last separator is the part that holds none.
pub proof fn law_last_part(before: Text, sep: char, name: Text)
    requires
        !name.contains(sep),
    ensures
        after_last(name, sep) == name,
        after_last(before + seq![sep] + name, sep) == name,
    decreases name.len(),
{
    let s = before + seq![sep] + name;
    if name.len() == 0 {
        assert(s.last() == sep);
        assert(after_last(s, sep) =~= name);
        assert(after_last(name, sep) =~= name);
    } else {
        let less = name.drop_last();
        assert(name.contains(name.last()));
        assert forall|i: int| 0 <= i < less.len() implies less[i] != sep by {
            assert(name.contains(name[i]));
        }
        assert(!less.contains(sep));
        law_last_part(before, sep, less);
        assert(s.drop_last() =~= before + seq![sep] + less);
        assert(s.last() == name.last());
        assert(less.push(name.last()) =~= name);
    }
}

/// The pieces of a text, with the separator between each two, are the text again; no piece but the
/// last one holds the separator, and it does so only where there may be no more pieces.
pub proof fn law_pieces_make_up_the_text(s: Text, n: nat, sep: char)
    requires
        n > 0,
    ensures
        1 <= split_fields(s, n, sep).len() <= n,
        rejoined(split_fields(s, n, sep), sep) == s,
        forall|i: int|
            0 <= i < split_fields(s, n, sep).len() - 1 ==> !(#[trigger] split_fields(
                s,
                n,
                sep,
            )[i]).contains(sep),
        split_fields(s, n, sep).len() < n ==> !split_fields(s, n, sep).last().contains(sep),
    decreases n,
{
    let all = split_fields(s, n, sep);
    lemma_position_from(s, sep, 0);
    match position(s, sep) {
        Some(p) if n > 1 => {
            let rest = split_fields(s.skip(p + 1), (n - 1) as nat, sep);
            law_pieces_make_up_the_text(s.skip(p + 1), (n - 1) as nat, sep);
            assert(all.skip(1) =~= rest);
            assert(rejoined(all, sep) == s.take(p) + seq![sep] + s.skip(p + 1));
            assert(s.take(p) + seq![sep] + s.skip(p + 1) =~= s);
            assert forall|i: int| 0 <= i < all.len() - 1 implies !(#[trigger] all[i]).contains(
                sep,
            ) by {
                if i > 0 {
                    assert(all[i] == rest[i - 1]);
                }
            }
            assert(all.last() == rest.last());
        },
        _ => {
            assert(all == seq![s]);
        },
    }
}

/// Pieces with a separator between each two.
pub open spec fn rejoined(pieces: Seq<Text>, sep: char) -> Text
    decreases pieces.len(),
{
    if pieces.len() == 0 {
        seq![]
    } else if pieces.len() == 1 {
        pieces[0]
    } else {
        pieces[0] + seq![sep] + rejoined(pieces.skip(1), sep)
    }
}

// ---------------------------------------------------------------------------
// Numbers
// ---------------------------------------------------------------------------

/// The decimal text of a number is its digits, the highest first, without leading zeros.
pub proof fn law_decimal_by_digits(n: nat, d: nat)
    requires
        d < 10,
    ensures
        decimal(d) == seq![(48 + d) as char],
        n > 0 ==> decimal(n * 10 + d) == decimal(n) + seq![(48 + d) as char],
{
    if n > 0 {
        let m = n * 10 + d;
        assert(m / 10 == n && m % 10 == d);
        assert(decimal(m) =~= decimal(n) + seq![(48 + d) as char]);
    }
}

/// A text is read as a number where it holds digits only, at least one, with a plus sign before them
/// or not; each digit counts ten times as much as the next.
pub proof fn law_numbers_are_read_by_digits(s: Text, d: nat, max: nat)
    requires
        d < 10,
    ensures
        unsigned_value(seq![], max) is None,
        unsigned_value(seq!['+'], max) is None,
        unsigned_value(seq![(48 + d) as char], max) == if d <= max {
            Some(d)
        } else {
            None
        },
        s.len() > 0 && s[0] != '+' ==> unsigned_value(seq!['+'] + s, max) == unsigned_value(s, max),
        s.len() > 0 && (s.len() > 1 || s[0] != '+') ==> unsigned_value(
            s.push((48 + d) as char),
            max,
        ) == match unsigned_value(s, max) {
            Some(n) if n * 10 + d <= max => Some(n * 10 + d),
            _ => None,
        },
{
    let none: Text = seq![];
    let c = (48 + d) as char;
    assert(is_digit(c));
    assert(seq!['+'].skip(1) =~= none);
    assert(seq![c].drop_last() =~= none);
    assert(digits_value(none) == 0);
    assert(digits_value(seq![c]) == d);
    assert(seq![c][0] == c && c != '+');
    assert(crate::text::all_digits(seq![c]));
    if s.len() > 0 && s[0] != '+' {
        assert((seq!['+'] + s).skip(1) =~= s);
        assert((seq!['+'] + s)[0] == '+');
    }
    if s.len() > 0 && (s.len() > 1 || s[0] != '+') {
        let t = s.push(c);
        let a = crate::text::unsigned_part(s);
        let b = crate::text::unsigned_part(t);
        assert(t[0] == s[0]);
        assert(b =~= a.push(c));
        assert(b.drop_last() =~= a);
        assert(b.last() == c);
        assert(a.len() > 0);
        assert(crate::text::all_digits(b) ==> crate::text::all_digits(a)) by {
            if crate::text::all_digits(b) {
                assert forall|i: int| 0 <= i < a.len() implies is_digit(#[trigger] a[i]) by {
                    assert(b[i] == a[i]);
                }
            }
        }
        assert(digits_value(b) == digits_value(a) * 10 + d);
    }
}

/// A text that holds anything but digits behind an optional plus sign is no number.
pub proof fn law_other_texts_are_no_numbers(s: Text, i: int, max: nat)
    requires
        0 <= i < s.len(),
        !(48 <= s[i] as u32 <= 57),
        i > 0 || s[i] != '+',
    ensures
        unsigned_value(s, max) is None,
{
    let digits = crate::text::unsigned_part(s);
    if s[0] == '+' {
        assert(digits[i - 1] == s[i]);
    } else {
        assert(digits[i] == s[i]);
    }
}

} // verus!
