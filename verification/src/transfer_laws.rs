//! What the output filter promises.
use vstd::prelude::*;
use vstd::utf8::{
    encode_utf8, encode_utf8_decode_utf8, encode_utf8_valid_utf8, is_ascii_chars,
    is_ascii_chars_encode_utf8,
};
use crate::commands::{is_base64, is_base64_char, is_id_char, valid_transfer_id};
use crate::replay::joined;
use crate::text::{
    is_white_space, lemma_encoded_contains, lemma_position_at, lemma_position_from,
    lemma_trimmed_id, position, starts_with, strip_prefix, trimmed, Text,
};
use crate::transfer::{
    capture_line, failure, filter_after, filter_events, filter_visible, filter_without, gives_up,
    idle_line, line_before, line_text, marker_line, marker_parts, marker_prefix_len, opens,
    released, releases, stream_of, stream_output, transfer_line, transfer_lines, watches,
    without_line_end, without_marker_prefix, CaptureView, FilterView, MarkerView, OutputView,
    StreamView, TransferEventView, DOWNLOAD_BEGIN_MARKER, DOWNLOAD_END_MARKER,
    DOWNLOAD_ERROR_MARKER, FILE_TRANSFER_BASE64_LIMIT, HELD_LINE_LIMIT,
};

verus! {

// ---------------------------------------------------------------------------
// Ordinary output
// ---------------------------------------------------------------------------

/// While no download is awaited or in progress and nothing is held, output is shown as it comes and
/// nothing else happens.
pub proof fn law_output_passes_when_nothing_is_awaited(
    filter: FilterView,
    stream: Text,
    chunk: Seq<u8>,
)
    requires
        filter.expected == Set::<Text>::empty(),
        stream_of(filter, stream).active is None,
        stream_of(filter, stream).pending == Seq::<u8>::empty(),
    ensures
        filter_visible(filter, stream, chunk) == seq![chunk],
        filter_events(filter, stream, chunk) == Seq::<TransferEventView>::empty(),
        filter_after(filter, stream, chunk) == filter,
{
}

proof fn lemma_lines_split(
    expected: Set<Text>,
    active: Option<CaptureView>,
    a: Seq<u8>,
    b: Seq<u8>,
)
    ensures
        ({
            let first = transfer_lines(expected, active, a);
            let second = transfer_lines(first.expected, first.active, first.pending + b);
            transfer_lines(expected, active, a + b) == (OutputView {
                visible: first.visible + second.visible,
                events: first.events + second.events,
                ..second
            })
        }),
    decreases a.len(),
{
    let first = transfer_lines(expected, active, a);
    let second = transfer_lines(first.expected, first.active, first.pending + b);
    let whole = transfer_lines(expected, active, a + b);
    lemma_position_from(a, 10u8, 0);
    match position(a, 10u8) {
        Some(p) => {
            let line = a.take(p + 1);
            let outcome = transfer_line(expected, active, line);
            let rest = transfer_lines(outcome.expected, outcome.active, a.skip(p + 1));
            lemma_position_at(a + b, 10u8, p);
            assert((a + b).take(p + 1) == line);
            assert((a + b).skip(p + 1) == a.skip(p + 1) + b);
            lemma_lines_split(outcome.expected, outcome.active, a.skip(p + 1), b);
            assert(whole.visible =~= first.visible + second.visible);
            assert(whole.events =~= first.events + second.events);
        },
        None => {
            assert(first.visible + second.visible =~= second.visible);
            assert(first.events + second.events =~= second.events);
        },
    }
}

/// How output is cut into chunks does not matter: two chunks one after the other do what they do
/// together, as long as the stream is looked at and no unfinished line grows too long.
pub proof fn law_cuts_do_not_matter(filter: FilterView, stream: Text, a: Seq<u8>, b: Seq<u8>)
    requires
        watches(filter, stream),
        watches(filter_after(filter, stream, a), stream),
        ({
            let before = stream_of(filter, stream);
            let out = transfer_lines(filter.expected, before.active, before.pending + a);
            out.active is Some || out.pending.len() <= HELD_LINE_LIMIT
        }),
    ensures
        filter_after(filter_after(filter, stream, a), stream, b) == filter_after(
            filter,
            stream,
            a + b,
        ),
        filter_visible(filter, stream, a) + filter_visible(
            filter_after(filter, stream, a),
            stream,
            b,
        ) == filter_visible(filter, stream, a + b),
        filter_events(filter, stream, a) + filter_events(
            filter_after(filter, stream, a),
            stream,
            b,
        ) == filter_events(filter, stream, a + b),
{
    let before = stream_of(filter, stream);
    let middle = filter_after(filter, stream, a);
    let first = transfer_lines(filter.expected, before.active, before.pending + a);
    lemma_lines_split(filter.expected, before.active, before.pending + a, b);
    assert(before.pending + a + b == before.pending + (a + b));
    let second = transfer_lines(first.expected, first.active, first.pending + b);
    let whole = stream_output(filter, stream, a + b);
    assert(stream_output(filter, stream, a) == first);
    assert(middle.expected == first.expected);
    assert(stream_of(middle, stream) == (StreamView {
        pending: first.pending,
        active: first.active,
    }));
    let last = stream_output(middle, stream, b);
    assert(first.visible + last.visible =~= whole.visible);
    assert(first.events + last.events =~= whole.events);
    assert(filter_after(middle, stream, b).streams =~= filter_after(
        filter,
        stream,
        a + b,
    ).streams);
}

/// Whether a line is one that an awaited download would have.
pub open spec fn is_marker_for(expected: Set<Text>, line: Seq<u8>) -> bool {
    ||| opens(marker_line(line)) is Some && expected.contains(opens(marker_line(line))->0.id)
    ||| gives_up(marker_line(line)) is Some && expected.contains(
        gives_up(marker_line(line))->0.id,
    )
}

/// Whether no complete line of the output is one that an awaited download would have.
pub open spec fn is_ordinary(expected: Set<Text>, held: Seq<u8>) -> bool
    decreases held.len(),
    via ordinary_shortens
{
    match position(held, 10u8) {
        Some(p) => !is_marker_for(expected, held.take(p + 1)) && is_ordinary(
            expected,
            held.skip(p + 1),
        ),
        None => true,
    }
}

#[via_fn]
proof fn ordinary_shortens(expected: Set<Text>, held: Seq<u8>) {
    lemma_position_from(held, 10u8, 0);
}

/// While a download is awaited, ordinary output is not lost: what is shown and what is held of an
/// unfinished line are together what came, and nothing else happens.
pub proof fn law_ordinary_output_is_kept(expected: Set<Text>, held: Seq<u8>)
    requires
        is_ordinary(expected, held),
    ensures
        ({
            let out = transfer_lines(expected, None, held);
            &&& joined(out.visible) + out.pending == held
            &&& out.events == Seq::<TransferEventView>::empty()
            &&& out.expected == expected
            &&& out.active is None
        }),
    decreases held.len(),
{
    let out = transfer_lines(expected, None, held);
    lemma_position_from(held, 10u8, 0);
    match position(held, 10u8) {
        Some(p) => {
            let line = held.take(p + 1);
            law_ordinary_output_is_kept(expected, held.skip(p + 1));
            let rest = transfer_lines(expected, None, held.skip(p + 1));
            lemma_joined_first(line, rest.visible);
            assert(out.visible =~= seq![line] + rest.visible);
            assert(out.events =~= rest.events);
            assert(line + joined(rest.visible) + rest.pending =~= line + (joined(rest.visible)
                + rest.pending));
            assert(line + held.skip(p + 1) =~= held);
        },
        None => {
            assert(joined(out.visible) + out.pending =~= held);
        },
    }
}

proof fn lemma_joined_first(first: Seq<u8>, rest: Seq<Seq<u8>>)
    ensures
        joined(seq![first] + rest) == first + joined(rest),
    decreases rest.len(),
{
    let all = seq![first] + rest;
    if rest.len() == 0 {
        assert(all.drop_last() =~= Seq::<Seq<u8>>::empty());
        assert(all.last() == first);
        assert(joined(all.drop_last()) =~= Seq::<u8>::empty());
        assert(joined(all) =~= first + joined(rest));
    } else {
        lemma_joined_first(first, rest.drop_last());
        assert(all.drop_last() =~= seq![first] + rest.drop_last());
        assert(all.last() == rest.last());
        assert(joined(all) =~= first + joined(rest));
    }
}

/// Ordinary output is shown or held, in the order in which it came, whether a download is awaited or
/// not: what is shown and what is still held are together what was held before and the chunk.
pub proof fn law_output_is_shown_or_held(filter: FilterView, stream: Text, chunk: Seq<u8>)
    requires
        stream_of(filter, stream).active is None,
        is_ordinary(filter.expected, stream_of(filter, stream).pending + chunk),
    ensures
        ({
            let after = filter_after(filter, stream, chunk);
            &&& joined(filter_visible(filter, stream, chunk)) + stream_of(after, stream).pending
                == stream_of(filter, stream).pending + chunk
            &&& filter_events(filter, stream, chunk) == Seq::<TransferEventView>::empty()
            &&& after.expected == filter.expected
            &&& stream_of(after, stream).active is None
        }),
{
    let held = stream_of(filter, stream).pending;
    let after = filter_after(filter, stream, chunk);
    let shown = filter_visible(filter, stream, chunk);
    if watches(filter, stream) {
        let out = transfer_lines(filter.expected, None, held + chunk);
        law_ordinary_output_is_kept(filter.expected, held + chunk);
        assert(stream_output(filter, stream, chunk) == released(out));
        assert(stream_of(after, stream).pending == released(out).pending);
        if releases(out) {
            assert(shown.drop_last() =~= out.visible);
            assert(joined(shown) == joined(out.visible) + out.pending);
            assert(joined(shown) + stream_of(after, stream).pending =~= joined(shown));
        }
    } else {
        let none: Seq<Seq<u8>> = seq![];
        if held.len() > 0 {
            lemma_joined_first(held, seq![chunk]);
            assert(seq![held] + seq![chunk] =~= shown);
        } else {
            assert(held + chunk =~= chunk);
        }
        lemma_joined_first(chunk, none);
        assert(seq![chunk] + none =~= seq![chunk]);
        assert(chunk + joined(none) =~= chunk);
        assert(joined(shown) =~= held + chunk);
        assert(joined(shown) + stream_of(after, stream).pending =~= held + chunk);
    }
}

/// Once nothing is awaited any more and no download is in progress, nothing is held, whatever came.
pub proof fn law_nothing_is_held_without_need(filter: FilterView, stream: Text, chunk: Seq<u8>)
    ensures
        ({
            let after = filter_after(filter, stream, chunk);
            !watches(after, stream) ==> stream_of(after, stream).pending == Seq::<u8>::empty()
        }),
{
    if watches(filter, stream) {
        let out = stream_output(filter, stream, chunk);
        assert(out.pending.len() == 0 ==> out.pending =~= Seq::<u8>::empty());
    } else if stream_of(filter, stream).pending.len() == 0 {
        assert(stream_of(filter, stream).pending =~= Seq::<u8>::empty());
    }
}

/// The filter after the transfer `id`, if any, was given up.
pub open spec fn filter_without_any(filter: FilterView, id: Option<Text>) -> FilterView {
    match id {
        Some(id) => filter_without(filter, id),
        None => filter,
    }
}

/// Over two chunks no ordinary output is lost or changes its place, also when a transfer is given up
/// between them: what is shown of both and what is still held are together what was held before and
/// both chunks. If nothing is awaited in the end, all of it is shown.
pub proof fn law_ordinary_output_is_shown_in_order(
    filter: FilterView,
    stream: Text,
    a: Seq<u8>,
    b: Seq<u8>,
    given_up: Option<Text>,
)
    requires
        stream_of(filter, stream).active is None,
        is_ordinary(filter.expected, stream_of(filter, stream).pending + a),
        ({
            let middle = filter_without_any(filter_after(filter, stream, a), given_up);
            is_ordinary(middle.expected, stream_of(middle, stream).pending + b)
        }),
    ensures
        ({
            let middle = filter_without_any(filter_after(filter, stream, a), given_up);
            let after = filter_after(middle, stream, b);
            let shown = joined(filter_visible(filter, stream, a)) + joined(
                filter_visible(middle, stream, b),
            );
            let came = stream_of(filter, stream).pending + a + b;
            &&& shown + stream_of(after, stream).pending == came
            &&& after.expected == Set::<Text>::empty() ==> shown == came
        }),
{
    let first = filter_after(filter, stream, a);
    let middle = filter_without_any(first, given_up);
    let after = filter_after(middle, stream, b);
    law_output_is_shown_or_held(filter, stream, a);
    assert(stream_of(middle, stream).pending == stream_of(first, stream).pending);
    law_output_is_shown_or_held(middle, stream, b);
    law_nothing_is_held_without_need(middle, stream, b);
    let held = stream_of(filter, stream).pending;
    let rest = stream_of(middle, stream).pending;
    let one = joined(filter_visible(filter, stream, a));
    let two = joined(filter_visible(middle, stream, b));
    let last = stream_of(after, stream).pending;
    assert(one + two + last =~= one + (two + last));
    assert(one + (rest + b) =~= one + rest + b);
    assert(held + a + b =~= one + two + last);
    if after.expected == Set::<Text>::empty() {
        assert(one + two + last =~= one + two);
    }
}

proof fn lemma_all_is_ordinary(held: Seq<u8>)
    ensures
        is_ordinary(Set::<Text>::empty(), held),
    decreases held.len(),
{
    lemma_position_from(held, 10u8, 0);
    if let Some(p) = position(held, 10u8) {
        lemma_all_is_ordinary(held.skip(p + 1));
    }
}

/// A transfer that was given up is neither awaited nor in progress anywhere.
pub proof fn law_cancelled_transfer_is_gone(filter: FilterView, id: Text, stream: Text)
    ensures
        ({
            let after = filter_without(filter, id);
            &&& !after.expected.contains(id)
            &&& stream_of(after, stream).active is Some ==> stream_of(after, stream).active->0.id
                != id
        }),
{
}

// ---------------------------------------------------------------------------
// Downloads
// ---------------------------------------------------------------------------

/// What ends a line: a line feed, with a carriage return before it or not.
pub open spec fn is_line_ending(ending: Seq<u8>) -> bool {
    ending == seq![10u8] || ending == seq![13u8, 10u8]
}

/// The bytes of lines of text.
pub open spec fn lines_of(lines: Seq<Text>, ending: Seq<u8>) -> Seq<u8>
    decreases lines.len(),
{
    if lines.len() == 0 {
        seq![]
    } else {
        encode_utf8(lines[0]) + ending + lines_of(lines.skip(1), ending)
    }
}

/// The pieces of text one behind the other.
pub open spec fn text_of(pieces: Seq<Text>) -> Text
    decreases pieces.len(),
{
    if pieces.len() == 0 {
        seq![]
    } else {
        pieces[0] + text_of(pieces.skip(1))
    }
}

/// The line that opens a download.
pub open spec fn opening_line(id: Text, name: Text) -> Text {
    DOWNLOAD_BEGIN_MARKER@ + id + ":"@ + name
}

/// The line that closes a download.
pub open spec fn closing_line(id: Text) -> Text {
    DOWNLOAD_END_MARKER@ + id
}

/// The line that gives a download up.
pub open spec fn failing_line(id: Text, reason: Text) -> Text {
    DOWNLOAD_ERROR_MARKER@ + id + ":"@ + reason
}

proof fn lemma_line_is_cut(text: Text, ending: Seq<u8>, after: Seq<u8>)
    requires
        is_line_ending(ending),
        !text.contains('\n'),
        !text.contains('\r'),
    ensures
        ({
            let line = encode_utf8(text) + ending;
            &&& position(line + after, 10u8) == Some(line.len() - 1)
            &&& (line + after).take(line.len() as int) == line
            &&& (line + after).skip(line.len() as int) == after
            &&& line_text(line) == text
        }),
{
    let bytes = encode_utf8(text);
    let line = bytes + ending;
    let all = line + after;
    lemma_encoded_contains(text, '\n');
    lemma_encoded_contains(text, '\r');
    assert forall|j: int| 0 <= j < line.len() - 1 implies all[j] != 10u8 by {
        if j < bytes.len() {
            assert(bytes.contains(bytes[j]));
        }
    }
    lemma_position_at(all, 10u8, line.len() - 1);
    assert(all.take(line.len() as int) =~= line);
    assert(all.skip(line.len() as int) =~= after);
    if ending == seq![10u8] {
        assert(line.drop_last() =~= bytes);
        if bytes.len() > 0 {
            assert(bytes.contains(bytes.last()));
        }
    } else {
        assert(line.drop_last() =~= bytes.push(13u8));
        assert(line.drop_last().drop_last() =~= bytes);
    }
    assert(without_line_end(line) == bytes);
    encode_utf8_valid_utf8(text);
    encode_utf8_decode_utf8(text);
}

/// Whether a text starts with nothing that is skipped before a marker.
pub open spec fn starts_plainly(text: Text) -> bool {
    text.len() > 0 ==> text[0] != '\u{1b}' && text[0] != '\r'
}

proof fn lemma_next_line(
    expected: Set<Text>,
    active: Option<CaptureView>,
    text: Text,
    ending: Seq<u8>,
    after: Seq<u8>,
)
    requires
        is_line_ending(ending),
        !text.contains('\n'),
        !text.contains('\r'),
        starts_plainly(text),
    ensures
        ({
            let line = encode_utf8(text) + ending;
            let outcome = match active {
                Some(capture) => capture_line(expected, capture, text),
                None => idle_line(expected, text),
            };
            transfer_lines(expected, active, line + after) == line_before(
                line,
                outcome,
                transfer_lines(outcome.expected, outcome.active, after),
            )
        }),
{
    lemma_line_is_cut(text, ending, after);
    assert(marker_prefix_len(text) == 0);
    assert(without_marker_prefix(text) == text);
}

proof fn lemma_base64_text(data: Text)
    requires
        is_base64(data),
    ensures
        !data.contains('\n'),
        !data.contains('\r'),
        !data.contains(':'),
        starts_plainly(data),
        trimmed(data) == data,
        is_ascii_chars(data),
        encode_utf8(data).len() == data.len(),
        data.len() > 0 ==> data[0] != '_' && !is_white_space(data[0]) && !is_white_space(
            data.last(),
        ),
{
    if data.len() > 0 {
        assert(is_base64_char(data[0]));
        assert(is_base64_char(data[data.len() - 1]));
    }
    lemma_trimmed_id(data);
    assert(is_ascii_chars(data));
    is_ascii_chars_encode_utf8(data);
}

proof fn lemma_id_text(id: Text)
    requires
        valid_transfer_id(id),
    ensures
        !id.contains('\n'),
        !id.contains('\r'),
        !id.contains(':'),
        trimmed(id) == id,
        !is_white_space(id[0]),
        !is_white_space(id.last()),
{
    assert(is_id_char(id[0]));
    assert(is_id_char(id[id.len() - 1]));
    lemma_trimmed_id(id);
}

proof fn lemma_marker_without_end(marker: Text, rest: Text)
    requires
        marker == DOWNLOAD_BEGIN_MARKER@ || marker == DOWNLOAD_END_MARKER@ || marker
            == DOWNLOAD_ERROR_MARKER@,
        !rest.contains('\n'),
        !rest.contains('\r'),
    ensures
        !(marker + rest).contains('\n'),
        !(marker + rest).contains('\r'),
        starts_plainly(marker + rest),
        strip_prefix(marker + rest, marker) == Some(rest),
{
    reveal_strlit("__WEBTERMINAL_DOWNLOAD_BEGIN__:");
    reveal_strlit("__WEBTERMINAL_DOWNLOAD_END__:");
    reveal_strlit("__WEBTERMINAL_DOWNLOAD_ERROR__:");
    let all = marker + rest;
    assert(!marker.contains('\n'));
    assert(!marker.contains('\r'));
    assert forall|i: int| 0 <= i < all.len() implies all[i] != '\n' && all[i] != '\r' by {
        if i < marker.len() {
            assert(marker.contains(marker[i]));
        } else {
            assert(rest.contains(rest[i - marker.len()]));
        }
    }
    assert(all.subrange(0, marker.len() as int) =~= marker);
    assert(all.skip(marker.len() as int) =~= rest);
}

proof fn lemma_marker_parts(id: Text, value: Text)
    requires
        valid_transfer_id(id),
        value.len() > 0 ==> !is_white_space(value[0]) && !is_white_space(value.last()),
    ensures
        marker_parts(id + ":"@ + value) == (MarkerView { id, value: Some(value) }),
{
    reveal_strlit(":");
    let body = id + ":"@ + value;
    lemma_id_text(id);
    assert(body[0] == id[0]);
    assert(body.last() == if value.len() > 0 {
        value.last()
    } else {
        ':'
    });
    lemma_trimmed_id(body);
    assert forall|j: int| 0 <= j < id.len() implies body[j] != ':' by {
        assert(id.contains(id[j]));
    }
    lemma_position_at(body, ':', id.len() as int);
    assert(body.take(id.len() as int) =~= id);
    assert(body.skip(id.len() as int + 1) =~= value);
    lemma_trimmed_id(value);
}

proof fn lemma_no_marker(text: Text)
    requires
        text.len() > 0 ==> text[0] != '_',
    ensures
        strip_prefix(text, DOWNLOAD_END_MARKER@) is None,
        strip_prefix(text, DOWNLOAD_ERROR_MARKER@) is None,
{
    reveal_strlit("__WEBTERMINAL_DOWNLOAD_END__:");
    reveal_strlit("__WEBTERMINAL_DOWNLOAD_ERROR__:");
    if starts_with(text, DOWNLOAD_END_MARKER@) {
        assert(text.subrange(0, DOWNLOAD_END_MARKER@.len() as int)[0] == '_');
    }
    if starts_with(text, DOWNLOAD_ERROR_MARKER@) {
        assert(text.subrange(0, DOWNLOAD_ERROR_MARKER@.len() as int)[0] == '_');
    }
}

proof fn lemma_data_lines(
    expected: Set<Text>,
    capture: CaptureView,
    data: Seq<Text>,
    ending: Seq<u8>,
    after: Seq<u8>,
)
    requires
        is_line_ending(ending),
        is_base64(capture.data),
        forall|i: int| 0 <= i < data.len() ==> is_base64(#[trigger] data[i]),
        capture.data.len() + text_of(data).len() <= FILE_TRANSFER_BASE64_LIMIT,
    ensures
        transfer_lines(expected, Some(capture), lines_of(data, ending) + after) == transfer_lines(
            expected,
            Some(CaptureView { data: capture.data + text_of(data), ..capture }),
            after,
        ),
    decreases data.len(),
{
    if data.len() == 0 {
        assert(lines_of(data, ending) + after =~= after);
        assert(capture.data + text_of(data) =~= capture.data);
    } else {
        let piece = data[0];
        let line = encode_utf8(piece) + ending;
        let later = lines_of(data.skip(1), ending) + after;
        assert(is_base64(piece));
        lemma_base64_text(piece);
        lemma_next_line(expected, Some(capture), piece, ending, later);
        assert(lines_of(data, ending) + after =~= line + later);
        lemma_no_marker(piece);
        let grown = CaptureView { data: capture.data + piece, ..capture };
        assert(is_base64(grown.data));
        lemma_base64_text(grown.data);
        assert forall|i: int| 0 <= i < data.skip(1).len() implies is_base64(
            #[trigger] data.skip(1)[i],
        ) by {
            assert(data.skip(1)[i] == data[i + 1]);
        }
        lemma_data_lines(expected, grown, data.skip(1), ending, after);
        assert(grown.data + text_of(data.skip(1)) =~= capture.data + text_of(data));
        let rest = transfer_lines(expected, Some(grown), later);
        assert(seq![] + rest.visible =~= rest.visible);
        assert(Seq::<TransferEventView>::empty() + rest.events =~= rest.events);
    }
}

/// An awaited download that the terminal prints between its markers comes over whole: the viewers
/// are told its name and all of its data, and nothing of it is shown.
pub proof fn law_download_comes_over(
    expected: Set<Text>,
    id: Text,
    name: Text,
    data: Seq<Text>,
    ending: Seq<u8>,
    after: Seq<u8>,
)
    requires
        expected.contains(id),
        valid_transfer_id(id),
        is_base64(name),
        forall|i: int| 0 <= i < data.len() ==> is_base64(#[trigger] data[i]),
        text_of(data).len() <= FILE_TRANSFER_BASE64_LIMIT,
        is_line_ending(ending),
    ensures
        ({
            let lines = seq![opening_line(id, name)] + data + seq![closing_line(id)];
            let rest = transfer_lines(expected.remove(id), None, after);
            transfer_lines(expected, None, lines_of(lines, ending) + after) == (OutputView {
                events: seq![
                    TransferEventView::Download { id, filename: name, data: text_of(data) },
                ] + rest.events,
                ..rest
            })
        }),
{
    let opening = opening_line(id, name);
    let closing = closing_line(id);
    let lines = seq![opening] + data + seq![closing];
    let first = encode_utf8(opening) + ending;
    let last = encode_utf8(closing) + ending;
    let body = lines_of(data, ending);
    lemma_lines_concat(seq![opening], data, ending);
    lemma_lines_concat(seq![opening] + data, seq![closing], ending);
    lemma_one_line(opening, ending);
    lemma_one_line(closing, ending);
    assert(lines_of(lines, ending) + after =~= first + (body + (last + after)));

    lemma_id_text(id);
    lemma_base64_text(name);
    reveal_strlit(":");
    let rest = id + ":"@ + name;
    assert(opening =~= DOWNLOAD_BEGIN_MARKER@ + rest);
    assert forall|i: int| 0 <= i < rest.len() implies rest[i] != '\n' && rest[i] != '\r' by {
        if i < id.len() {
            assert(id.contains(id[i]));
        } else if i > id.len() {
            assert(name.contains(name[i - id.len() - 1]));
        }
    }
    lemma_marker_without_end(DOWNLOAD_BEGIN_MARKER@, rest);
    lemma_marker_parts(id, name);
    lemma_next_line(expected, None, opening, ending, body + (last + after));
    let none: Text = seq![];
    let capture = CaptureView { id, filename: name, data: none };
    lemma_data_lines(expected, capture, data, ending, last + after);
    assert(none + text_of(data) =~= text_of(data));
    let done = CaptureView { data: text_of(data), ..capture };
    lemma_marker_without_end(DOWNLOAD_END_MARKER@, id);
    lemma_next_line(expected, Some(done), closing, ending, after);
    let out = transfer_lines(expected.remove(id), None, after);
    assert(Seq::<Seq<u8>>::empty() + out.visible =~= out.visible);
    let middle = transfer_lines(expected, Some(done), last + after);
    assert(Seq::<Seq<u8>>::empty() + middle.visible =~= middle.visible);
    assert(Seq::<TransferEventView>::empty() + middle.events =~= middle.events);
}

proof fn lemma_lines_concat(a: Seq<Text>, b: Seq<Text>, ending: Seq<u8>)
    ensures
        lines_of(a + b, ending) == lines_of(a, ending) + lines_of(b, ending),
    decreases a.len(),
{
    if a.len() == 0 {
        assert(a + b =~= b);
        assert(lines_of(a, ending) + lines_of(b, ending) =~= lines_of(b, ending));
    } else {
        lemma_lines_concat(a.skip(1), b, ending);
        assert((a + b).skip(1) =~= a.skip(1) + b);
        assert((a + b)[0] == a[0]);
        assert(lines_of(a + b, ending) =~= lines_of(a, ending) + lines_of(b, ending));
    }
}

proof fn lemma_one_line(text: Text, ending: Seq<u8>)
    ensures
        lines_of(seq![text], ending) == encode_utf8(text) + ending,
{
    assert(seq![text].skip(1) =~= Seq::<Text>::empty());
    assert(lines_of(seq![text].skip(1), ending) =~= Seq::<u8>::empty());
    assert(lines_of(seq![text], ending) =~= encode_utf8(text) + ending);
}

/// An awaited download that the terminal gives up is reported with the reason, and not awaited any
/// more; the line is not shown.
pub proof fn law_failed_download_is_reported(
    expected: Set<Text>,
    id: Text,
    reason: Text,
    ending: Seq<u8>,
    after: Seq<u8>,
)
    requires
        expected.contains(id),
        valid_transfer_id(id),
        reason.len() > 0 ==> !is_white_space(reason[0]) && !is_white_space(reason.last()),
        !reason.contains('\n'),
        !reason.contains('\r'),
        is_line_ending(ending),
    ensures
        ({
            let line = encode_utf8(failing_line(id, reason)) + ending;
            let rest = transfer_lines(expected.remove(id), None, after);
            transfer_lines(expected, None, line + after) == (OutputView {
                events: seq![failure(id, reason)] + rest.events,
                ..rest
            })
        }),
{
    lemma_id_text(id);
    reveal_strlit(":");
    let rest = id + ":"@ + reason;
    let text = failing_line(id, reason);
    assert(text =~= DOWNLOAD_ERROR_MARKER@ + rest);
    assert forall|i: int| 0 <= i < rest.len() implies rest[i] != '\n' && rest[i] != '\r' by {
        if i < id.len() {
            assert(id.contains(id[i]));
        } else if i > id.len() {
            assert(reason.contains(reason[i - id.len() - 1]));
        }
    }
    lemma_marker_without_end(DOWNLOAD_ERROR_MARKER@, rest);
    lemma_marker_parts(id, reason);
    lemma_next_line(expected, None, text, ending, after);
    assert(strip_prefix(text, DOWNLOAD_BEGIN_MARKER@) is None) by {
        reveal_strlit("__WEBTERMINAL_DOWNLOAD_BEGIN__:");
        reveal_strlit("__WEBTERMINAL_DOWNLOAD_ERROR__:");
        let marker = DOWNLOAD_BEGIN_MARKER@;
        if starts_with(text, marker) {
            assert(text.subrange(0, marker.len() as int)[23] == marker[23]);
            assert(text[23] == DOWNLOAD_ERROR_MARKER@[23]);
        }
    }
    let out = transfer_lines(expected.remove(id), None, after);
    assert(Seq::<Seq<u8>>::empty() + out.visible =~= out.visible);
}

/// The output of an awaited download, taken by the filter as one chunk, becomes one event with its
/// name and all of its data; nothing is shown, and the download is not awaited any more.
pub proof fn law_awaited_download_is_delivered(
    filter: FilterView,
    stream: Text,
    id: Text,
    name: Text,
    data: Seq<Text>,
    ending: Seq<u8>,
)
    requires
        filter.expected.contains(id),
        stream_of(filter, stream) == (StreamView { pending: seq![], active: None }),
        valid_transfer_id(id),
        is_base64(name),
        forall|i: int| 0 <= i < data.len() ==> is_base64(#[trigger] data[i]),
        text_of(data).len() <= FILE_TRANSFER_BASE64_LIMIT,
        is_line_ending(ending),
    ensures
        ({
            let lines = seq![opening_line(id, name)] + data + seq![closing_line(id)];
            let chunk = lines_of(lines, ending);
            &&& filter_visible(filter, stream, chunk) == Seq::<Seq<u8>>::empty()
            &&& filter_events(filter, stream, chunk) == seq![
                TransferEventView::Download { id, filename: name, data: text_of(data) },
            ]
            &&& filter_after(filter, stream, chunk).expected == filter.expected.remove(id)
            &&& stream_of(filter_after(filter, stream, chunk), stream) == stream_of(filter, stream)
        }),
{
    let lines = seq![opening_line(id, name)] + data + seq![closing_line(id)];
    let chunk = lines_of(lines, ending);
    let none: Seq<u8> = seq![];
    law_download_comes_over(filter.expected, id, name, data, ending, none);
    assert(none + chunk =~= chunk);
    assert(chunk + none =~= chunk);
    let rest = transfer_lines(filter.expected.remove(id), None, none);
    lemma_position_from(none, 10u8, 0);
    assert(rest.pending == none && rest.events == Seq::<TransferEventView>::empty());
    assert(filter.expected != Set::<Text>::empty());
    assert(watches(filter, stream));
    assert(filter_events(filter, stream, chunk) =~= seq![
        TransferEventView::Download { id, filename: name, data: text_of(data) },
    ]);
}

/// Output that follows the last awaited download is all shown, in order: what comes with its end at
/// once, and what comes next behind it.
pub proof fn law_output_after_a_download_is_shown(
    filter: FilterView,
    stream: Text,
    id: Text,
    name: Text,
    data: Seq<Text>,
    ending: Seq<u8>,
    after: Seq<u8>,
    next: Seq<u8>,
)
    requires
        filter.expected == Set::<Text>::empty().insert(id),
        stream_of(filter, stream) == (StreamView { pending: seq![], active: None }),
        valid_transfer_id(id),
        is_base64(name),
        forall|i: int| 0 <= i < data.len() ==> is_base64(#[trigger] data[i]),
        text_of(data).len() <= FILE_TRANSFER_BASE64_LIMIT,
        is_line_ending(ending),
    ensures
        ({
            let lines = seq![opening_line(id, name)] + data + seq![closing_line(id)];
            let chunk = lines_of(lines, ending) + after;
            let later = filter_after(filter, stream, chunk);
            &&& joined(filter_visible(filter, stream, chunk)) == after
            &&& filter_visible(later, stream, next) == seq![next]
        }),
{
    let lines = seq![opening_line(id, name)] + data + seq![closing_line(id)];
    let chunk = lines_of(lines, ending) + after;
    let none: Seq<u8> = seq![];
    let nobody = Set::<Text>::empty();
    assert(filter.expected.contains(id));
    assert(filter.expected.remove(id) =~= nobody);
    law_download_comes_over(filter.expected, id, name, data, ending, after);
    assert(none + chunk =~= chunk);
    lemma_all_is_ordinary(after);
    law_ordinary_output_is_kept(nobody, after);
    let rest = transfer_lines(nobody, None, after);
    let out = transfer_lines(filter.expected, None, chunk);
    let shown = filter_visible(filter, stream, chunk);
    assert(out.visible == rest.visible && out.pending == rest.pending);
    assert(stream_output(filter, stream, chunk) == released(out));
    if releases(out) {
        assert(shown.drop_last() =~= out.visible);
        assert(joined(shown) == joined(out.visible) + out.pending);
    } else {
        assert(out.pending =~= none);
        assert(joined(out.visible) + out.pending =~= joined(out.visible));
    }
    law_nothing_is_held_without_need(filter, stream, chunk);
}

} // verus!
