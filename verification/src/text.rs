//! Text and sequence helpers. A string is seen through its sequence of characters.
use vstd::prelude::*;
use vstd::string::*;
use vstd::utf8::{char_is_scalar, encode_scalar, encode_utf8, has_width_1_encoding, is_scalar};

verus! {

/// What a string holds.
pub type Text = Seq<char>;

/// `String::push` appends one character.
pub assume_specification[ String::push ](s: &mut String, c: char)
    ensures
        final(s)@ == old(s)@.push(c),
;

/// What an optional string holds.
pub open spec fn opt_text(value: Option<String>) -> Option<Text> {
    match value {
        Some(s) => Some(s@),
        None => None,
    }
}

/// What an optional borrowed string holds.
pub open spec fn opt_str(value: Option<&str>) -> Option<Text> {
    match value {
        Some(s) => Some(s@),
        None => None,
    }
}

/// What a list of strings holds.
pub open spec fn texts(values: Seq<String>) -> Seq<Text> {
    Seq::new(values.len(), |i: int| values[i]@)
}

// ---------------------------------------------------------------------------
// Conversions between strings and character lists
// ---------------------------------------------------------------------------

/// The characters of `s`, in order.
pub fn chars_of(s: &str) -> (res: Vec<char>)
    ensures
        res@ == s@,
{
    let mut out: Vec<char> = Vec::new();
    for c in it: s.chars()
        invariant
            out@ == it.seq().take(it.index() as int),
    {
        out.push(c);
    }
    out
}

/// The text made of the characters `chars[from..to]`.
pub fn text_between(chars: &Vec<char>, from: usize, to: usize) -> (res: String)
    requires
        from <= to <= chars@.len(),
    ensures
        res@ == chars@.subrange(from as int, to as int),
{
    let mut out = String::new();
    let mut i: usize = from;
    while i < to
        invariant
            from <= i <= to <= chars@.len(),
            out@ == chars@.subrange(from as int, i as int),
        decreases to - i,
    {
        out.push(chars[i]);
        i += 1;
        assert(chars@.subrange(from as int, i as int) == chars@.subrange(
            from as int,
            i - 1,
        ).push(chars@[i - 1]));
    }
    out
}

/// A copy of an optional string.
pub fn copy_opt(value: &Option<String>) -> (res: Option<String>)
    ensures
        opt_text(res) == opt_text(*value),
{
    match value {
        Some(s) => Some(s.clone()),
        None => None,
    }
}

/// Whether two strings hold the same characters.
pub fn same_text(a: &str, b: &str) -> (res: bool)
    ensures
        res == (a@ == b@),
{
    let x = chars_of(a);
    let y = chars_of(b);
    if x.len() != y.len() {
        return false;
    }
    let mut i: usize = 0;
    while i < x.len()
        invariant
            x@.len() == y@.len(),
            x@ == a@,
            y@ == b@,
            0 <= i <= x@.len(),
            forall|j: int| 0 <= j < i ==> x@[j] == y@[j],
        decreases x@.len() - i,
    {
        if x[i] != y[i] {
            return false;
        }
        i += 1;
    }
    assert(x@ == y@);
    true
}

/// Whether an optional string is present and holds `text`.
pub fn opt_is(value: &Option<String>, text: &str) -> (res: bool)
    ensures
        res == (opt_text(*value) == Some(text@)),
{
    match value {
        Some(s) => same_text(s.as_str(), text),
        None => false,
    }
}

// ---------------------------------------------------------------------------
// Character classes
// ---------------------------------------------------------------------------

/// The Unicode property `White_Space`.
pub open spec fn is_white_space(c: char) -> bool {
    ||| '\u{9}' <= c <= '\u{d}'
    ||| c == '\u{20}'
    ||| c == '\u{85}'
    ||| c == '\u{a0}'
    ||| c == '\u{1680}'
    ||| '\u{2000}' <= c <= '\u{200a}'
    ||| c == '\u{2028}'
    ||| c == '\u{2029}'
    ||| c == '\u{202f}'
    ||| c == '\u{205f}'
    ||| c == '\u{3000}'
}

/// Whether `c` has the Unicode property `White_Space`.
pub fn white_space(c: char) -> (res: bool)
    ensures
        res == is_white_space(c),
{
    ('\u{9}' <= c && c <= '\u{d}') || c == '\u{20}' || c == '\u{85}' || c == '\u{a0}' || c
        == '\u{1680}' || ('\u{2000}' <= c && c <= '\u{200a}') || c == '\u{2028}' || c == '\u{2029}'
        || c == '\u{202f}' || c == '\u{205f}' || c == '\u{3000}'
}

/// ASCII white space: space, tab, line feed, form feed, carriage return.
pub open spec fn is_ascii_space(c: char) -> bool {
    c == ' ' || c == '\t' || c == '\n' || c == '\u{c}' || c == '\r'
}

/// Whether `c` is ASCII white space.
pub fn ascii_space(c: char) -> (res: bool)
    ensures
        res == is_ascii_space(c),
{
    c == ' ' || c == '\t' || c == '\n' || c == '\u{c}' || c == '\r'
}

/// An ASCII letter or digit.
pub open spec fn is_alphanumeric(c: char) -> bool {
    'a' <= c <= 'z' || 'A' <= c <= 'Z' || '0' <= c <= '9'
}

/// Whether `c` is an ASCII letter or digit.
pub fn alphanumeric(c: char) -> (res: bool)
    ensures
        res == is_alphanumeric(c),
{
    ('a' <= c && c <= 'z') || ('A' <= c && c <= 'Z') || ('0' <= c && c <= '9')
}

/// An ASCII decimal digit.
pub open spec fn is_digit(c: char) -> bool {
    '0' <= c <= '9'
}

// ---------------------------------------------------------------------------
// Trimming
// ---------------------------------------------------------------------------

/// `s` without its leading white space.
pub open spec fn trim_start(s: Text) -> Text
    decreases s.len(),
{
    if s.len() > 0 && is_white_space(s[0]) {
        trim_start(s.drop_first())
    } else {
        s
    }
}

/// `s` without its trailing white space.
pub open spec fn trim_end(s: Text) -> Text
    decreases s.len(),
{
    if s.len() > 0 && is_white_space(s.last()) {
        trim_end(s.drop_last())
    } else {
        s
    }
}

/// `s` without leading and trailing white space.
pub open spec fn trimmed(s: Text) -> Text {
    trim_end(trim_start(s))
}

/// How many characters of leading white space there are.
fn leading_space(chars: &Vec<char>) -> (res: usize)
    ensures
        res <= chars@.len(),
        trim_start(chars@) == chars@.skip(res as int),
{
    let mut lo: usize = 0;
    assert(chars@.skip(0) == chars@);
    while lo < chars.len() && white_space(chars[lo])
        invariant
            0 <= lo <= chars@.len(),
            trim_start(chars@) == trim_start(chars@.skip(lo as int)),
        decreases chars@.len() - lo,
    {
        assert(chars@.skip(lo as int).drop_first() == chars@.skip(lo + 1));
        lo += 1;
    }
    lo
}

/// Where the trailing white space of `chars[lo..]` starts.
fn trailing_space(chars: &Vec<char>, lo: usize) -> (res: usize)
    requires
        lo <= chars@.len(),
    ensures
        lo <= res <= chars@.len(),
        trim_end(chars@.skip(lo as int)) == chars@.subrange(lo as int, res as int),
{
    let mut hi: usize = chars.len();
    let ghost rest = chars@.skip(lo as int);
    assert(chars@.subrange(lo as int, hi as int) == rest);
    while hi > lo && white_space(chars[hi - 1])
        invariant
            lo <= hi <= chars@.len(),
            trim_end(rest) == trim_end(chars@.subrange(lo as int, hi as int)),
        decreases hi,
    {
        assert(chars@.subrange(lo as int, hi as int).last() == chars@[hi - 1]);
        assert(chars@.subrange(lo as int, hi as int).drop_last() == chars@.subrange(
            lo as int,
            hi - 1,
        ));
        hi -= 1;
    }
    let ghost kept = chars@.subrange(lo as int, hi as int);
    assert(kept.len() > 0 ==> kept.last() == chars@[hi - 1]);
    hi
}

/// `s` without leading and trailing white space.
pub fn trim<'a>(s: &'a str) -> (res: &'a str)
    ensures
        res@ == trimmed(s@),
{
    let chars = chars_of(s);
    let lo = leading_space(&chars);
    let hi = trailing_space(&chars, lo);
    s.substring_char(lo, hi)
}

/// Trimming a text that neither starts nor ends with white space changes nothing.
pub proof fn lemma_trimmed_id(s: Text)
    requires
        s.len() > 0 ==> !is_white_space(s[0]) && !is_white_space(s.last()),
    ensures
        trimmed(s) == s,
{
}

// ---------------------------------------------------------------------------
// Searching
// ---------------------------------------------------------------------------

/// Where `pat` first occurs in `s` at or after `from`.
pub open spec fn find_from<T>(s: Seq<T>, pat: Seq<T>, from: int) -> Option<int>
    decreases s.len() + 1 - from,
{
    if from < 0 || from + pat.len() > s.len() {
        None
    } else if s.subrange(from, from + pat.len()) == pat {
        Some(from)
    } else {
        find_from(s, pat, from + 1)
    }
}

/// Where `pat` first occurs in `s`.
pub open spec fn find<T>(s: Seq<T>, pat: Seq<T>) -> Option<int> {
    find_from(s, pat, 0)
}

/// Whether `pat` stands in `s` at position `at`.
pub open spec fn occurs_at<T>(s: Seq<T>, pat: Seq<T>, at: int) -> bool {
    0 <= at && at + pat.len() <= s.len() && s.subrange(at, at + pat.len()) == pat
}

/// `find_from` gives the least position at which the pattern occurs.
pub proof fn lemma_find_from<T>(s: Seq<T>, pat: Seq<T>, from: int)
    requires
        0 <= from,
    ensures
        match find_from(s, pat, from) {
            Some(i) => from <= i && occurs_at(s, pat, i) && forall|j: int|
                from <= j < i ==> !#[trigger] occurs_at(s, pat, j),
            None => forall|j: int| from <= j ==> !#[trigger] occurs_at(s, pat, j),
        },
    decreases s.len() + 1 - from,
{
    if from + pat.len() <= s.len() && s.subrange(from, from + pat.len()) != pat {
        lemma_find_from(s, pat, from + 1);
    }
}

/// Where `x` first occurs in `s` at or after `from`.
pub open spec fn position_from<T>(s: Seq<T>, x: T, from: int) -> Option<int>
    decreases s.len() - from,
{
    if from < 0 || from >= s.len() {
        None
    } else if s[from] == x {
        Some(from)
    } else {
        position_from(s, x, from + 1)
    }
}

/// Where `x` first occurs in `s`.
pub open spec fn position<T>(s: Seq<T>, x: T) -> Option<int> {
    position_from(s, x, 0)
}

/// `position_from` gives the least position that holds the element.
pub proof fn lemma_position_from<T>(s: Seq<T>, x: T, from: int)
    requires
        0 <= from,
    ensures
        match position_from(s, x, from) {
            Some(i) => from <= i < s.len() && s[i] == x && forall|j: int|
                from <= j < i ==> s[j] != x,
            None => forall|j: int| from <= j < s.len() ==> s[j] != x,
        },
    decreases s.len() - from,
{
    if from < s.len() && s[from] != x {
        lemma_position_from(s, x, from + 1);
    }
}

/// A position that holds the element with none before it is what `position` gives.
pub proof fn lemma_position_at<T>(s: Seq<T>, x: T, at: int)
    requires
        0 <= at < s.len(),
        s[at] == x,
        forall|j: int| 0 <= j < at ==> s[j] != x,
    ensures
        position(s, x) == Some(at),
{
    lemma_position_from(s, x, 0);
}

/// Where `x` first occurs in `chars` at or after `from`.
pub fn char_position(chars: &Vec<char>, x: char, from: usize) -> (res: Option<usize>)
    ensures
        match res {
            Some(i) => position_from(chars@, x, from as int) == Some(i as int) && from <= i
                < chars@.len(),
            None => position_from(chars@, x, from as int) is None,
        },
{
    let mut i: usize = from;
    while i < chars.len()
        invariant
            from <= i,
            position_from(chars@, x, from as int) == position_from(chars@, x, i as int),
        decreases chars@.len() - i,
    {
        if chars[i] == x {
            return Some(i);
        }
        i += 1;
    }
    None
}

/// Where `x` first occurs in `bytes`.
pub fn byte_position(bytes: &[u8], x: u8) -> (res: Option<usize>)
    ensures
        match res {
            Some(i) => position(bytes@, x) == Some(i as int) && i < bytes@.len(),
            None => position(bytes@, x) is None,
        },
{
    byte_position_from(bytes, x, 0)
}

/// Where `x` first occurs in `bytes` at or after `from`.
pub fn byte_position_from(bytes: &[u8], x: u8, from: usize) -> (res: Option<usize>)
    ensures
        match res {
            Some(i) => position_from(bytes@, x, from as int) == Some(i as int) && from <= i
                < bytes@.len(),
            None => position_from(bytes@, x, from as int) is None,
        },
{
    let mut i: usize = from;
    while i < bytes.len()
        invariant
            from <= i,
            position_from(bytes@, x, from as int) == position_from(bytes@, x, i as int),
        decreases bytes@.len() - i,
    {
        if bytes[i] == x {
            return Some(i);
        }
        i += 1;
    }
    None
}

/// Whether `pat` stands in `chars` at position `at`.
pub fn chars_at(chars: &Vec<char>, at: usize, pat: &Vec<char>) -> (res: bool)
    ensures
        res == occurs_at(chars@, pat@, at as int),
{
    let count: usize = chars.len();
    if at > count || count - at < pat.len() {
        return false;
    }
    let mut k: usize = 0;
    while k < pat.len()
        invariant
            count == chars@.len(),
            0 <= k <= pat@.len(),
            at + pat@.len() <= count,
            forall|j: int| 0 <= j < k ==> chars@[at + j] == pat@[j],
        decreases pat@.len() - k,
    {
        if chars[at + k] != pat[k] {
            assert(chars@.subrange(at as int, at + pat@.len())[k as int] != pat@[k as int]);
            return false;
        }
        k += 1;
    }
    assert(chars@.subrange(at as int, at + pat@.len()) == pat@);
    true
}

/// Where `pat` first occurs in `chars` at or after `from`.
pub fn chars_find(chars: &Vec<char>, pat: &Vec<char>, from: usize) -> (res: Option<usize>)
    ensures
        match res {
            Some(i) => find_from(chars@, pat@, from as int) == Some(i as int) && from <= i && i
                + pat@.len() <= chars@.len(),
            None => find_from(chars@, pat@, from as int) is None,
        },
{
    let mut i: usize = from;
    while i <= chars.len() && chars.len() - i >= pat.len()
        invariant
            from <= i <= chars@.len() + 1 || i == from,
            find_from(chars@, pat@, from as int) == find_from(chars@, pat@, i as int),
        decreases chars@.len() + 1 - i,
    {
        if chars_at(chars, i, pat) {
            return Some(i);
        }
        if i == chars.len() {
            assert(find_from(chars@, pat@, i + 1) is None);
            return None;
        }
        i += 1;
    }
    None
}

/// Whether `bytes` starts with `prefix`.
pub open spec fn starts_with<T>(s: Seq<T>, prefix: Seq<T>) -> bool {
    occurs_at(s, prefix, 0)
}

/// Whether `pat` stands in `bytes` at position `at`.
pub fn bytes_at(bytes: &[u8], at: usize, pat: &[u8]) -> (res: bool)
    ensures
        res == occurs_at(bytes@, pat@, at as int),
{
    let count: usize = bytes.len();
    if at > count || count - at < pat.len() {
        return false;
    }
    let mut k: usize = 0;
    while k < pat.len()
        invariant
            count == bytes@.len(),
            0 <= k <= pat@.len(),
            at + pat@.len() <= count,
            forall|j: int| 0 <= j < k ==> bytes@[at + j] == pat@[j],
        decreases pat@.len() - k,
    {
        if bytes[at + k] != pat[k] {
            assert(bytes@.subrange(at as int, at + pat@.len())[k as int] != pat@[k as int]);
            return false;
        }
        k += 1;
    }
    assert(bytes@.subrange(at as int, at + pat@.len()) == pat@);
    true
}

/// A copy of `bytes[from..to]`.
pub fn bytes_between(bytes: &[u8], from: usize, to: usize) -> (res: Vec<u8>)
    requires
        from <= to <= bytes@.len(),
    ensures
        res@ == bytes@.subrange(from as int, to as int),
{
    let mut out: Vec<u8> = Vec::new();
    let mut i: usize = from;
    while i < to
        invariant
            from <= i <= to <= bytes@.len(),
            out@ == bytes@.subrange(from as int, i as int),
        decreases to - i,
    {
        out.push(bytes[i]);
        i += 1;
        assert(bytes@.subrange(from as int, i as int) == bytes@.subrange(
            from as int,
            i - 1,
        ).push(bytes@[i - 1]));
    }
    out
}

/// A copy of `bytes`.
pub fn bytes_copy(bytes: &[u8]) -> (res: Vec<u8>)
    ensures
        res@ == bytes@,
{
    let out = bytes_between(bytes, 0, bytes.len());
    assert(bytes@.subrange(0, bytes@.len() as int) == bytes@);
    out
}

/// Appends `bytes` to `out`.
pub fn push_bytes(out: &mut Vec<u8>, bytes: &[u8])
    ensures
        final(out)@ == old(out)@ + bytes@,
{
    let mut i: usize = 0;
    assert(old(out)@ + bytes@.take(0) == old(out)@);
    while i < bytes.len()
        invariant
            0 <= i <= bytes@.len(),
            out@ == old(out)@ + bytes@.take(i as int),
        decreases bytes@.len() - i,
    {
        out.push(bytes[i]);
        assert(bytes@.take(i + 1) == bytes@.take(i as int).push(bytes@[i as int]));
        i += 1;
    }
    assert(bytes@.take(bytes@.len() as int) == bytes@);
}

/// The rest of `s` behind `prefix`, if `s` starts with it.
pub open spec fn strip_prefix<T>(s: Seq<T>, prefix: Seq<T>) -> Option<Seq<T>> {
    if starts_with(s, prefix) {
        Some(s.skip(prefix.len() as int))
    } else {
        None
    }
}

/// The rest of `s` behind `prefix`, if `s` starts with it.
pub fn text_strip_prefix(s: &str, prefix: &str) -> (res: Option<String>)
    ensures
        opt_text(res) == strip_prefix(s@, prefix@),
{
    let chars = chars_of(s);
    let pat = chars_of(prefix);
    if chars_at(&chars, 0, &pat) {
        let rest = text_between(&chars, pat.len(), chars.len());
        assert(rest@ == s@.skip(prefix@.len() as int));
        Some(rest)
    } else {
        None
    }
}

/// Whether `needle` occurs in `s`.
pub fn text_contains(s: &str, needle: &str) -> (res: bool)
    ensures
        res == (find(s@, needle@) is Some),
{
    let chars = chars_of(s);
    let pat = chars_of(needle);
    chars_find(&chars, &pat, 0).is_some()
}

// ---------------------------------------------------------------------------
// Splitting
// ---------------------------------------------------------------------------

/// At most `n` pieces of `s` between occurrences of `sep`; the last piece holds the rest.
pub open spec fn split_fields(s: Text, n: nat, sep: char) -> Seq<Text>
    decreases n,
{
    match position(s, sep) {
        Some(p) if n > 1 => seq![s.take(p)] + split_fields(s.skip(p + 1), (n - 1) as nat, sep),
        _ => seq![s],
    }
}

/// Searching from `from` on is searching in what stands behind `base`.
pub proof fn lemma_position_shift<T>(s: Seq<T>, x: T, base: int, from: int)
    requires
        0 <= base <= from,
        base <= s.len(),
    ensures
        match position_from(s, x, from) {
            Some(i) => position_from(s.skip(base), x, from - base) == Some(i - base),
            None => position_from(s.skip(base), x, from - base) is None,
        },
    decreases s.len() - from,
{
    if from < s.len() {
        assert(s.skip(base)[from - base] == s[from]);
        if s[from] != x {
            lemma_position_shift(s, x, base, from + 1);
        }
    }
}

/// Searching from `from` on is searching in what stands behind `base`.
pub proof fn lemma_find_shift<T>(s: Seq<T>, pat: Seq<T>, base: int, from: int)
    requires
        0 <= base <= from,
        base <= s.len(),
    ensures
        match find_from(s, pat, from) {
            Some(i) => find_from(s.skip(base), pat, from - base) == Some(i - base),
            None => find_from(s.skip(base), pat, from - base) is None,
        },
    decreases s.len() + 1 - from,
{
    if from + pat.len() <= s.len() {
        assert(s.skip(base).subrange(from - base, from - base + pat.len()) == s.subrange(
            from,
            from + pat.len(),
        ));
        if s.subrange(from, from + pat.len()) != pat {
            lemma_find_shift(s, pat, base, from + 1);
        }
    }
}

/// At most `n` pieces of `s` between occurrences of `sep`; the last piece holds the rest.
pub fn split_text(s: &str, n: usize, sep: char) -> (res: Vec<String>)
    ensures
        texts(res@) == split_fields(s@, n as nat, sep),
{
    let chars = chars_of(s);
    let count: usize = chars.len();
    let mut out: Vec<String> = Vec::new();
    let mut start: usize = 0;
    let mut left: usize = n;
    assert(s@.skip(0) == s@);
    assert(texts(out@) + split_fields(s@, n as nat, sep) == split_fields(s@, n as nat, sep));
    while left > 1
        invariant
            chars@ == s@,
            start <= count == s@.len(),
            texts(out@) + split_fields(s@.skip(start as int), left as nat, sep) == split_fields(
                s@,
                n as nat,
                sep,
            ),
        decreases left,
    {
        let ghost rest = s@.skip(start as int);
        proof {
            lemma_position_shift(s@, sep, start as int, start as int);
        }
        match char_position(&chars, sep, start) {
            Some(p) => {
                let piece = text_between(&chars, start, p);
                let ghost before = texts(out@);
                out.push(piece);
                assert(piece@ == rest.take(p - start));
                assert(rest.skip(p - start + 1) == s@.skip(p + 1));
                assert(texts(out@) == before.push(piece@));
                assert(before + (seq![piece@] + split_fields(s@.skip(p + 1), (left - 1) as nat, sep))
                    == texts(out@) + split_fields(s@.skip(p + 1), (left - 1) as nat, sep));
                start = p + 1;
                left -= 1;
            },
            None => {
                let piece = text_between(&chars, start, chars.len());
                let ghost before = texts(out@);
                out.push(piece);
                assert(piece@ == rest);
                assert(texts(out@) == before + seq![rest]);
                return out;
            },
        }
    }
    let piece = text_between(&chars, start, chars.len());
    let ghost before = texts(out@);
    out.push(piece);
    assert(piece@ == s@.skip(start as int));
    assert(texts(out@) == before + seq![piece@]);
    out
}

/// What stands behind the last `sep` of `s`; all of `s` where there is none.
pub open spec fn after_last(s: Text, sep: char) -> Text
    decreases s.len(),
{
    if s.len() == 0 || s.last() == sep {
        seq![]
    } else {
        after_last(s.drop_last(), sep).push(s.last())
    }
}

/// What stands behind the last `sep` of `s`; all of `s` where there is none.
pub fn text_after_last(s: &str, sep: char) -> (res: String)
    ensures
        res@ == after_last(s@, sep),
{
    let chars = chars_of(s);
    let mut start: usize = 0;
    let mut i: usize = 0;
    while i < chars.len()
        invariant
            chars@ == s@,
            0 <= start <= i <= s@.len(),
            after_last(s@.take(i as int), sep) == s@.subrange(start as int, i as int),
        decreases s@.len() - i,
    {
        assert(s@.take(i + 1).drop_last() == s@.take(i as int));
        if chars[i] == sep {
            start = i + 1;
            assert(s@.subrange(start as int, i + 1) == Seq::<char>::empty());
        } else {
            assert(s@.subrange(start as int, i + 1) == s@.subrange(start as int, i as int).push(
                s@[i as int],
            ));
        }
        i += 1;
    }
    assert(s@.take(s@.len() as int) == s@);
    text_between(&chars, start, chars.len())
}

// ---------------------------------------------------------------------------
// Decimal numbers
// ---------------------------------------------------------------------------

/// The character of a decimal digit.
pub open spec fn digit_char(d: nat) -> char {
    (48 + d) as char
}

/// The decimal text of `n`, without leading zeros.
pub open spec fn decimal(n: nat) -> Text
    decreases n,
{
    if n < 10 {
        seq![digit_char(n)]
    } else {
        decimal(n / 10).push(digit_char(n % 10))
    }
}

/// The number that a text of decimal digits stands for.
pub open spec fn digits_value(s: Text) -> nat
    decreases s.len(),
{
    if s.len() == 0 {
        0
    } else {
        digits_value(s.drop_last()) * 10 + (s.last() as nat - 48) as nat
    }
}

/// Whether `s` holds decimal digits only.
pub open spec fn all_digits(s: Text) -> bool {
    forall|i: int| 0 <= i < s.len() ==> is_digit(#[trigger] s[i])
}

/// `s` without one leading plus sign.
pub open spec fn unsigned_part(s: Text) -> Text {
    if s.len() > 0 && s[0] == '+' {
        s.skip(1)
    } else {
        s
    }
}

/// The unsigned number up to `max` that `s` spells: an optional plus sign and at least one digit.
pub open spec fn unsigned_value(s: Text, max: nat) -> Option<nat> {
    let digits = unsigned_part(s);
    if digits.len() > 0 && all_digits(digits) && digits_value(digits) <= max {
        Some(digits_value(digits))
    } else {
        None
    }
}

proof fn lemma_digits_value_grows(s: Text, k: int)
    requires
        0 <= k <= s.len(),
        all_digits(s),
    ensures
        digits_value(s.take(k)) <= digits_value(s),
    decreases s.len(),
{
    if k == s.len() {
        assert(s.take(k) == s);
    } else {
        lemma_digits_value_grows(s.drop_last(), k);
        assert(s.drop_last().take(k) == s.take(k));
    }
}

/// The unsigned number up to `max` that `s` spells.
pub fn parse_unsigned(s: &str, max: u64) -> (res: Option<u64>)
    ensures
        match res {
            Some(v) => unsigned_value(s@, max as nat) == Some(v as nat),
            None => unsigned_value(s@, max as nat) is None,
        },
{
    let chars = chars_of(s);
    let start: usize = if chars.len() > 0 && chars[0] == '+' {
        1
    } else {
        0
    };
    let ghost digits = unsigned_part(s@);
    assert(digits == s@.skip(start as int));
    if start == chars.len() {
        return None;
    }
    let mut value: u64 = 0;
    let mut i: usize = start;
    assert(digits.take(0) == Seq::<char>::empty());
    while i < chars.len()
        invariant
            chars@ == s@,
            digits == s@.skip(start as int),
            digits == unsigned_part(s@),
            digits.len() > 0,
            start <= i <= s@.len(),
            start <= 1,
            value == digits_value(digits.take(i - start)),
            value <= max,
            forall|j: int| 0 <= j < i - start ==> is_digit(#[trigger] digits[j]),
        decreases s@.len() - i,
    {
        let c = chars[i];
        assert(digits[i - start] == c);
        if c < '0' || c > '9' {
            return None;
        }
        assert(digits.take(i - start + 1).drop_last() == digits.take(i - start));
        let wide: u128 = (value as u128) * 10 + ((c as u32) - 48) as u128;
        if wide > max as u128 {
            proof {
                if all_digits(digits) {
                    lemma_digits_value_grows(digits, i - start + 1);
                }
            }
            return None;
        }
        value = wide as u64;
        i += 1;
    }
    assert(digits.take(digits.len() as int) == digits);
    Some(value)
}

/// The number below 65536 that `s` spells.
pub fn parse_u16(s: &str) -> (res: Option<u16>)
    ensures
        match res {
            Some(v) => unsigned_value(s@, 0xffff) == Some(v as nat),
            None => unsigned_value(s@, 0xffff) is None,
        },
{
    match parse_unsigned(s, 0xffff) {
        Some(v) => Some(v as u16),
        None => None,
    }
}

/// Appends the decimal text of `n`.
pub fn push_decimal(out: &mut String, n: u64)
    ensures
        final(out)@ == old(out)@ + decimal(n as nat),
    decreases n,
{
    if n >= 10 {
        push_decimal(out, n / 10);
    }
    let d: u8 = (n % 10) as u8;
    let ghost before = out@;
    out.push((48u8 + d) as char);
    proof {
        if n >= 10 {
            assert(before.push(digit_char((n % 10) as nat)) == old(out)@ + decimal((n / 10) as nat).push(
                digit_char((n % 10) as nat),
            ));
        } else {
            assert(before.push(digit_char(n as nat)) == old(out)@ + seq![digit_char(n as nat)]);
        }
    }
}

/// The decimal text of a number holds digits, at least one.
pub proof fn lemma_decimal_digits(n: nat)
    ensures
        decimal(n).len() > 0,
        all_digits(decimal(n)),
        digits_value(decimal(n)) == n,
    decreases n,
{
    if n < 10 {
        assert(decimal(n).drop_last() == Seq::<char>::empty());
        assert(digits_value(decimal(n).drop_last()) == 0);
    } else {
        lemma_decimal_digits(n / 10);
        assert(decimal(n).drop_last() == decimal(n / 10));
        assert forall|i: int| 0 <= i < decimal(n).len() implies is_digit(
            #[trigger] decimal(n)[i],
        ) by {
            if i < decimal(n / 10).len() {
                assert(decimal(n)[i] == decimal(n / 10)[i]);
            }
        }
    }
}

/// Reading back the decimal text of a number gives the number.
pub proof fn law_decimal_roundtrip(n: nat, max: nat)
    requires
        n <= max,
    ensures
        unsigned_value(decimal(n), max) == Some(n),
{
    lemma_decimal_digits(n);
    assert(is_digit(decimal(n)[0]));
}

// ---------------------------------------------------------------------------
// Encoding
// ---------------------------------------------------------------------------

/// Texts are encoded one behind the other.
pub proof fn lemma_encode_concat(a: Text, b: Text)
    ensures
        encode_utf8(a + b) == encode_utf8(a) + encode_utf8(b),
    decreases a.len(),
{
    if a.len() == 0 {
        assert(a + b == b);
        assert(encode_utf8(a) + encode_utf8(b) == encode_utf8(b));
    } else {
        lemma_encode_concat(a.drop_first(), b);
        assert((a + b).drop_first() == a.drop_first() + b);
        assert((a + b)[0] == a[0]);
        assert(encode_utf8(a + b) == encode_utf8(a) + encode_utf8(b));
    }
}

proof fn lemma_scalar_bytes(c: u32, b: u8)
    requires
        is_scalar(c),
        b < 0x80,
        c != b as u32,
    ensures
        !encode_scalar(c).contains(b),
{
    if has_width_1_encoding(c) {
        assert((c & 0x7F) as u8 != b) by (bit_vector)
            requires
                c <= 0x7F,
                b < 0x80,
                c != b as u32,
        ;
        assert(encode_scalar(c)[0] != b);
    } else {
        let x = (c >> 6) & 0x1F;
        let y = (c >> 12) & 0x0F;
        let z = (c >> 18) & 0x7;
        let u = c & 0x3F;
        let v = (c >> 6) & 0x3F;
        let w = (c >> 12) & 0x3F;
        assert(0xC0 | (x as u8) >= 0x80) by (bit_vector);
        assert(0xE0 | (y as u8) >= 0x80) by (bit_vector);
        assert(0xF0 | (z as u8) >= 0x80) by (bit_vector);
        assert(0x80 | (u as u8) >= 0x80) by (bit_vector);
        assert(0x80 | (v as u8) >= 0x80) by (bit_vector);
        assert(0x80 | (w as u8) >= 0x80) by (bit_vector);
    }
}

proof fn lemma_char_bytes(x: char, c: char)
    requires
        (c as u32) < 0x80,
        x != c,
    ensures
        !encode_scalar(x as u32).contains(c as u8),
{
    char_is_scalar(x);
    lemma_scalar_bytes(x as u32, c as u8);
}

/// An ASCII byte occurs in encoded text only where its character does.
pub proof fn lemma_encoded_contains(s: Text, c: char)
    requires
        (c as u32) < 0x80,
        !s.contains(c),
    ensures
        !encode_utf8(s).contains(c as u8),
    decreases s.len(),
{
    if s.len() > 0 {
        let first = encode_scalar(s[0] as u32);
        let rest = encode_utf8(s.drop_first());
        assert(s.contains(s[0]));
        assert forall|i: int| 0 <= i < s.drop_first().len() implies s.drop_first()[i] != c by {
            assert(s.drop_first()[i] == s[i + 1]);
        }
        lemma_encoded_contains(s.drop_first(), c);
        lemma_char_bytes(s[0], c);
        assert forall|i: int| 0 <= i < (first + rest).len() implies (first + rest)[i] != c as u8 by {
            if i < first.len() {
                assert(first.contains(first[i]));
            } else {
                assert(rest.contains(rest[i - first.len()]));
            }
        }
    }
}

} // verus!
