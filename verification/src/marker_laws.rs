//! How the markers of downloads are told from ordinary output, spelled out.
use vstd::prelude::*;
use vstd::utf8::{decode_utf8, encode_utf8, valid_utf8};
use crate::text::{
    find, is_white_space, lemma_find_from, lemma_position_at, lemma_position_from, occurs_at,
    position, starts_with, strip_prefix, trimmed, Text,
};
use crate::text_laws::{blank, law_prefix_and_rest, law_white_space_around_is_trimmed};
use crate::transfer::{
    capture_line, filter_after, filter_events, filter_visible, filter_without, idle_line, line_text,
    marker_parts, marker_prefix_len, stream_of, stream_output, transfer_line, transfer_lines,
    watches, without_line_end, without_marker_prefix, CaptureView, FilterView, LineOutcome,
    MarkerView, StreamView, TransferEventView,
};
use crate::transfer_laws::{closing_line, failing_line, opening_line};

verus! {

// ---------------------------------------------------------------------------
// Markers
// ---------------------------------------------------------------------------

/// The markers are these texts, with the id of the download behind them.
pub proof fn law_markers_are_spelled(id: Text, name: Text)
    ensures
        opening_line(id, name) == "__WEBTERMINAL_DOWNLOAD_BEGIN__:"@ + id + ":"@ + name,
        closing_line(id) == "__WEBTERMINAL_DOWNLOAD_END__:"@ + id,
        failing_line(id, name) == "__WEBTERMINAL_DOWNLOAD_ERROR__:"@ + id + ":"@ + name,
{
}

/// The text of a line is what its bytes without the line end encode; a line that is not UTF-8 counts
/// as empty.
pub proof fn law_text_of_a_line(body: Seq<u8>)
    requires
        body.len() > 0 ==> body.last() != 10u8 && body.last() != 13u8,
    ensures
        line_text(body + seq![10u8]) == line_text(body),
        line_text(body + seq![13u8, 10u8]) == line_text(body),
        valid_utf8(body) ==> line_text(body) == decode_utf8(body),
        !valid_utf8(body) ==> line_text(body) == ""@,
{
    reveal_strlit("");
    assert((body + seq![10u8]).drop_last() =~= body);
    assert((body + seq![13u8, 10u8]).drop_last() =~= body.push(13u8));
    assert(body.push(13u8).drop_last() =~= body);
    assert(without_line_end(body + seq![10u8]) == body);
    assert(without_line_end(body + seq![13u8, 10u8]) == body);
    assert(without_line_end(body) == body);
    assert(""@ =~= Seq::<char>::empty());
}

/// Whether none of the three markers occurs in a text.
pub open spec fn holds_no_marker(text: Text) -> bool {
    &&& find(text, "__WEBTERMINAL_DOWNLOAD_BEGIN__:"@) is None
    &&& find(text, "__WEBTERMINAL_DOWNLOAD_END__:"@) is None
    &&& find(text, "__WEBTERMINAL_DOWNLOAD_ERROR__:"@) is None
}

proof fn lemma_suffix(text: Text) -> (n: int)
    ensures
        0 <= n <= text.len(),
        without_marker_prefix(text) == text.skip(n),
    decreases text.len(),
{
    lemma_find_from(text.skip(2), seq!['\u{1b}', '\\'], 0);
    lemma_position_from(text.skip(2), '\u{7}', 0);
    let k = marker_prefix_len(text);
    if k > 0 {
        let m = lemma_suffix(text.skip(k));
        assert(text.skip(k).skip(m) =~= text.skip(k + m));
        k + m
    } else {
        assert(text.skip(0) =~= text);
        0
    }
}

proof fn lemma_no_marker_in_suffix(text: Text, n: int, marker: Text)
    requires
        0 <= n <= text.len(),
        find(text, marker) is None,
    ensures
        strip_prefix(text.skip(n), marker) is None,
{
    lemma_find_from(text, marker, 0);
    if starts_with(text.skip(n), marker) {
        assert(text.subrange(n, n + marker.len() as int) =~= text.skip(n).subrange(
            0,
            0 + marker.len() as int,
        ));
        assert(occurs_at(text, marker, n));
    }
}

/// A line in which no marker occurs is shown, and no transfer is affected by it, whatever is awaited.
pub proof fn law_lines_without_markers_are_shown(expected: Set<Text>, line: Seq<u8>)
    requires
        holds_no_marker(line_text(line)),
    ensures
        transfer_line(expected, None, line) == (LineOutcome {
            expected,
            active: None,
            shown: true,
            event: None,
        }),
{
    let text = line_text(line);
    let n = lemma_suffix(text);
    lemma_no_marker_in_suffix(text, n, "__WEBTERMINAL_DOWNLOAD_BEGIN__:"@);
    lemma_no_marker_in_suffix(text, n, "__WEBTERMINAL_DOWNLOAD_ERROR__:"@);
}

/// Within a download, a line in which no marker occurs is part of the file: it is added without the
/// white space around it and not shown. Once the file is larger than 64 MiB of base64 text, the
/// download is given up and that is reported.
pub proof fn law_lines_of_a_download_are_collected(
    expected: Set<Text>,
    capture: CaptureView,
    line: Seq<u8>,
)
    requires
        holds_no_marker(line_text(line)),
    ensures
        ({
            let data = capture.data + trimmed(without_marker_prefix(line_text(line)));
            transfer_line(expected, Some(capture), line) == if encode_utf8(data).len() <= 67108864 {
                LineOutcome {
                    expected,
                    active: Some(CaptureView { data, ..capture }),
                    shown: false,
                    event: None,
                }
            } else {
                LineOutcome {
                    expected: expected.remove(capture.id),
                    active: None,
                    shown: false,
                    event: Some(
                        TransferEventView::Status {
                            id: capture.id,
                            status: "error"@,
                            message: "download is too large for the web terminal bridge"@,
                        },
                    ),
                }
            }
        }),
{
    let text = line_text(line);
    let n = lemma_suffix(text);
    lemma_no_marker_in_suffix(text, n, "__WEBTERMINAL_DOWNLOAD_END__:"@);
    lemma_no_marker_in_suffix(text, n, "__WEBTERMINAL_DOWNLOAD_ERROR__:"@);
}

// ---------------------------------------------------------------------------
// What a shell prints before a marker
// ---------------------------------------------------------------------------

/// Window titles, operating system commands and carriage returns before a marker are skipped.
pub proof fn law_noise_before_markers_is_skipped(title: Text, rest: Text)
    requires
        !title.contains('\u{1b}'),
        !title.contains('\u{7}'),
    ensures
        without_marker_prefix(seq!['\r'] + rest) == without_marker_prefix(rest),
        without_marker_prefix(seq!['\u{1b}', 'k'] + title + seq!['\u{1b}', '\\'] + rest)
            == without_marker_prefix(rest),
        without_marker_prefix(seq!['\u{1b}', ']'] + title + seq!['\u{7}'] + rest)
            == without_marker_prefix(rest),
        !rest.contains('\u{7}') ==> without_marker_prefix(
            seq!['\u{1b}', ']'] + title + seq!['\u{1b}', '\\'] + rest,
        ) == without_marker_prefix(rest),
{
    let a = seq!['\r'] + rest;
    assert(a[0] == '\r');
    assert(marker_prefix_len(a) == 1);
    assert(a.skip(1) =~= rest);
    let b = seq!['\u{1b}', 'k'] + title + seq!['\u{1b}', '\\'] + rest;
    lemma_title_end(title, rest);
    assert(b.skip(2) =~= title + seq!['\u{1b}', '\\'] + rest);
    assert(marker_prefix_len(b) == title.len() + 4);
    assert(b.skip(title.len() as int + 4) =~= rest);
    let c = seq!['\u{1b}', ']'] + title + seq!['\u{7}'] + rest;
    let tail = title + seq!['\u{7}'] + rest;
    assert(c.skip(2) =~= tail);
    assert forall|j: int| 0 <= j < title.len() implies tail[j] != '\u{7}' by {
        assert(title.contains(title[j]));
    }
    lemma_position_at(tail, '\u{7}', title.len() as int);
    assert(marker_prefix_len(c) == title.len() + 3);
    assert(c.skip(title.len() as int + 3) =~= rest);
    if !rest.contains('\u{7}') {
        let d = seq!['\u{1b}', ']'] + title + seq!['\u{1b}', '\\'] + rest;
        let tail = title + seq!['\u{1b}', '\\'] + rest;
        assert(d.skip(2) =~= tail);
        lemma_position_from(tail, '\u{7}', 0);
        if let Some(p) = position(tail, '\u{7}') {
            if p < title.len() {
                assert(title.contains(title[p]));
            } else if p >= title.len() + 2 {
                assert(rest.contains(rest[p - title.len() - 2]));
            }
        }
        assert(marker_prefix_len(d) == title.len() + 4);
        assert(d.skip(title.len() as int + 4) =~= rest);
    }
}

proof fn lemma_title_end(title: Text, rest: Text)
    requires
        !title.contains('\u{1b}'),
    ensures
        find(title + seq!['\u{1b}', '\\'] + rest, seq!['\u{1b}', '\\']) == Some(title.len() as int),
{
    let tail = title + seq!['\u{1b}', '\\'] + rest;
    let end = seq!['\u{1b}', '\\'];
    let at = title.len() as int;
    assert forall|j: int| 0 <= j < at implies tail[j] != '\u{1b}' by {
        assert(title.contains(title[j]));
    }
    lemma_find_at(tail, end, at, '\u{1b}');
}

proof fn lemma_find_at(s: Text, pat: Text, at: int, first: char)
    requires
        0 <= at,
        at + 2 <= s.len(),
        pat.len() == 2,
        pat[0] == first,
        s[at] == pat[0],
        s[at + 1] == pat[1],
        forall|j: int| 0 <= j < at ==> s[j] != first,
    ensures
        find(s, pat) == Some(at),
{
    lemma_find_from(s, pat, 0);
    assert(s.subrange(at, at + 2) =~= pat);
    assert(occurs_at(s, pat, at));
    match find(s, pat) {
        Some(found) => {
            if found < at {
                let piece = s.subrange(found, found + 2);
                assert(piece == pat);
                assert(piece[0] == s[found]);
            }
        },
        None => {},
    }
}

/// A text that starts with neither an escape character nor a carriage return is left as it is.
pub proof fn law_other_beginnings_are_kept(text: Text)
    requires
        text.len() > 0 ==> text[0] != '\u{1b}' && text[0] != '\r',
    ensures
        without_marker_prefix(text) == text,
{
    assert(marker_prefix_len(text) == 0);
}

// ---------------------------------------------------------------------------
// Whose marker it is
// ---------------------------------------------------------------------------

/// A marker carries an id and, behind the first colon, a value, both without the white space around
/// them.
pub proof fn law_markers_are_taken_apart(id: Text, value: Text)
    requires
        !id.contains(':'),
    ensures
        trimmed(id) == id && id.len() > 0 && trimmed(id + seq![':'] + value) == id + seq![':'] + value
            ==> marker_parts(id + seq![':'] + value) == (MarkerView {
            id,
            value: Some(trimmed(value)),
        }),
        trimmed(id) == id ==> marker_parts(id) == (MarkerView { id, value: None }),
{
    lemma_position_from(id, ':', 0);
    if let Some(p) = position(id, ':') {
        assert(id.contains(id[p]));
    }
    let body = id + seq![':'] + value;
    assert forall|j: int| 0 <= j < id.len() implies body[j] != ':' by {
        assert(id.contains(id[j]));
    }
    lemma_position_at(body, ':', id.len() as int);
    assert(body.take(id.len() as int) =~= id);
    assert(body.skip(id.len() as int + 1) =~= value);
}

/// White space around the id and around the value of a marker does not count.
pub proof fn law_markers_may_be_padded(
    id: Text,
    value: Text,
    before: Text,
    behind_id: Text,
    before_value: Text,
    after: Text,
)
    requires
        id.len() > 0,
        !id.contains(':'),
        !is_white_space(id[0]),
        !is_white_space(id.last()),
        value.len() > 0,
        !is_white_space(value[0]),
        !is_white_space(value.last()),
        blank(before),
        blank(behind_id),
        blank(before_value),
        blank(after),
    ensures
        marker_parts(before + id + behind_id + seq![':'] + before_value + value + after) == (
        MarkerView { id, value: Some(value) }),
        marker_parts(before + id + after) == (MarkerView { id, value: None }),
{
    let none: Text = seq![];
    let body = id + behind_id + seq![':'] + before_value + value;
    let all = before + id + behind_id + seq![':'] + before_value + value + after;
    assert(all =~= before + body + after);
    assert(body.last() == value.last());
    law_white_space_around_is_trimmed(before, body, after);
    let p = (id.len() + behind_id.len()) as int;
    assert forall|j: int| 0 <= j < p implies body[j] != ':' by {
        if j < id.len() {
            assert(id.contains(id[j]));
        } else {
            assert(is_white_space(behind_id[j - id.len()]));
        }
    }
    lemma_position_at(body, ':', p);
    assert(body.take(p) =~= none + id + behind_id);
    law_white_space_around_is_trimmed(none, id, behind_id);
    assert(body.skip(p + 1) =~= before_value + value + none);
    law_white_space_around_is_trimmed(before_value, value, none);
    law_white_space_around_is_trimmed(before, id, after);
    lemma_position_from(id, ':', 0);
    if let Some(q) = position(id, ':') {
        assert(id.contains(id[q]));
    }
}

/// A download begins with the begin marker of an id that is awaited, and only then; its file has the
/// name that the marker gives, `file` in base64 without one.
pub proof fn law_awaited_downloads_begin(expected: Set<Text>, rest: Text)
    ensures
        ({
            let line = "__WEBTERMINAL_DOWNLOAD_BEGIN__:"@ + rest;
            let parts = marker_parts(rest);
            &&& expected.contains(parts.id) ==> idle_line(expected, line) == (LineOutcome {
                expected,
                active: Some(
                    CaptureView {
                        id: parts.id,
                        filename: match parts.value {
                            Some(name) => name,
                            None => "ZmlsZQ=="@,
                        },
                        data: seq![],
                    },
                ),
                shown: false,
                event: None,
            })
            &&& !expected.contains(parts.id) ==> idle_line(expected, line) == (LineOutcome {
                expected,
                active: None,
                shown: true,
                event: None,
            })
        }),
{
    let line = "__WEBTERMINAL_DOWNLOAD_BEGIN__:"@ + rest;
    law_prefix_and_rest(line, "__WEBTERMINAL_DOWNLOAD_BEGIN__:"@, rest);
    reveal_strlit("__WEBTERMINAL_DOWNLOAD_BEGIN__:");
    reveal_strlit("__WEBTERMINAL_DOWNLOAD_ERROR__:");
    if starts_with(line, "__WEBTERMINAL_DOWNLOAD_ERROR__:"@) {
        assert(line.subrange(0, 31)[23] == "__WEBTERMINAL_DOWNLOAD_ERROR__:"@[23]);
        assert(line[23] == "__WEBTERMINAL_DOWNLOAD_BEGIN__:"@[23]);
    }
}

/// What is reported of a download that failed.
pub open spec fn failed(id: Text, reason: Option<Text>) -> TransferEventView {
    TransferEventView::Status {
        id,
        status: "error"@,
        message: match reason {
            Some(text) => text,
            None => "download failed"@,
        },
    }
}

/// The error marker of an id that is awaited ends the wait, is reported with its reason and not
/// shown; that of another id is shown.
pub proof fn law_awaited_downloads_fail(expected: Set<Text>, rest: Text)
    ensures
        ({
            let line = "__WEBTERMINAL_DOWNLOAD_ERROR__:"@ + rest;
            let parts = marker_parts(rest);
            &&& expected.contains(parts.id) ==> idle_line(expected, line) == (LineOutcome {
                expected: expected.remove(parts.id),
                active: None,
                shown: false,
                event: Some(failed(parts.id, parts.value)),
            })
            &&& !expected.contains(parts.id) ==> idle_line(expected, line) == (LineOutcome {
                expected,
                active: None,
                shown: true,
                event: None,
            })
        }),
{
    let line = "__WEBTERMINAL_DOWNLOAD_ERROR__:"@ + rest;
    law_prefix_and_rest(line, "__WEBTERMINAL_DOWNLOAD_ERROR__:"@, rest);
    reveal_strlit("__WEBTERMINAL_DOWNLOAD_BEGIN__:");
    reveal_strlit("__WEBTERMINAL_DOWNLOAD_ERROR__:");
    if starts_with(line, "__WEBTERMINAL_DOWNLOAD_BEGIN__:"@) {
        assert(line.subrange(0, 31)[23] == "__WEBTERMINAL_DOWNLOAD_BEGIN__:"@[23]);
        assert(line[23] == "__WEBTERMINAL_DOWNLOAD_ERROR__:"@[23]);
    }
}

/// Within a download, its own end marker delivers the file, and its own error marker gives it up.
pub proof fn law_downloads_end(expected: Set<Text>, capture: CaptureView, rest: Text)
    ensures
        trimmed(rest) == capture.id ==> capture_line(
            expected,
            capture,
            "__WEBTERMINAL_DOWNLOAD_END__:"@ + rest,
        ) == (LineOutcome {
            expected: expected.remove(capture.id),
            active: None,
            shown: false,
            event: Some(
                TransferEventView::Download {
                    id: capture.id,
                    filename: capture.filename,
                    data: capture.data,
                },
            ),
        }),
        marker_parts(rest).id == capture.id ==> capture_line(
            expected,
            capture,
            "__WEBTERMINAL_DOWNLOAD_ERROR__:"@ + rest,
        ) == (LineOutcome {
            expected: expected.remove(capture.id),
            active: None,
            shown: false,
            event: Some(failed(capture.id, marker_parts(rest).value)),
        }),
{
    let end = "__WEBTERMINAL_DOWNLOAD_END__:"@ + rest;
    let error = "__WEBTERMINAL_DOWNLOAD_ERROR__:"@ + rest;
    law_prefix_and_rest(end, "__WEBTERMINAL_DOWNLOAD_END__:"@, rest);
    law_prefix_and_rest(error, "__WEBTERMINAL_DOWNLOAD_ERROR__:"@, rest);
    reveal_strlit("__WEBTERMINAL_DOWNLOAD_END__:");
    reveal_strlit("__WEBTERMINAL_DOWNLOAD_ERROR__:");
    if starts_with(error, "__WEBTERMINAL_DOWNLOAD_END__:"@) {
        assert(error.subrange(0, 29)[24] == "__WEBTERMINAL_DOWNLOAD_END__:"@[24]);
        assert(error[24] == "__WEBTERMINAL_DOWNLOAD_ERROR__:"@[24]);
    }
}

// ---------------------------------------------------------------------------
// Streams
// ---------------------------------------------------------------------------

/// What comes on one stream leaves the others as they are.
pub proof fn law_streams_are_kept_apart(
    filter: FilterView,
    stream: Text,
    other: Text,
    chunk: Seq<u8>,
)
    requires
        other != stream,
    ensures
        stream_of(filter_after(filter, stream, chunk), other) == stream_of(filter, other),
{
}

/// Giving a transfer up leaves all other transfers and all held output as they are.
pub proof fn law_giving_up_touches_one_transfer(
    filter: FilterView,
    id: Text,
    other: Text,
    stream: Text,
)
    ensures
        ({
            let after = filter_without(filter, id);
            &&& other != id ==> (after.expected.contains(other) <==> filter.expected.contains(
                other,
            ))
            &&& !after.expected.contains(id)
            &&& stream_of(after, stream).pending == stream_of(filter, stream).pending
            &&& stream_of(filter, stream).active matches Some(capture) ==> (stream_of(
                after,
                stream,
            ).active == if capture.id == id {
                None
            } else {
                Some(capture)
            })
            &&& stream_of(filter, stream).active is None ==> stream_of(after, stream).active is None
        }),
{
}

/// While a download is awaited, an unfinished line is held back up to 8192 bytes and shown when it
/// is longer.
pub proof fn law_unfinished_lines_are_held_back(filter: FilterView, stream: Text, chunk: Seq<u8>)
    requires
        filter.expected != Set::<Text>::empty(),
        stream_of(filter, stream).active is None,
        !(stream_of(filter, stream).pending + chunk).contains(10u8),
    ensures
        ({
            let all = stream_of(filter, stream).pending + chunk;
            let after = filter_after(filter, stream, chunk);
            &&& filter_events(filter, stream, chunk) == Seq::<TransferEventView>::empty()
            &&& after.expected == filter.expected
            &&& all.len() <= 8192 ==> filter_visible(filter, stream, chunk) == Seq::<
                Seq<u8>,
            >::empty() && stream_of(after, stream) == (StreamView { pending: all, active: None })
            &&& all.len() > 8192 ==> filter_visible(filter, stream, chunk) == seq![all]
                && stream_of(after, stream) == (StreamView { pending: seq![], active: None })
        }),
{
    let all = stream_of(filter, stream).pending + chunk;
    lemma_position_from(all, 10u8, 0);
    if let Some(p) = position(all, 10u8) {
        assert(all.contains(all[p]));
    }
    assert(watches(filter, stream));
    let out = stream_output(filter, stream, chunk);
    let none: Seq<Seq<u8>> = seq![];
    assert(none.push(all) =~= seq![all]);
    assert(transfer_lines(filter.expected, None, all).pending == all);
    assert(out.events == Seq::<TransferEventView>::empty());
}

/// A complete line without a marker is shown at once, as one piece, behind what was held of it.
pub proof fn law_complete_lines_are_shown_at_once(
    filter: FilterView,
    stream: Text,
    chunk: Seq<u8>,
)
    requires
        filter.expected != Set::<Text>::empty(),
        stream_of(filter, stream).active is None,
        ({
            let all = stream_of(filter, stream).pending + chunk;
            &&& all.len() > 0
            &&& all.last() == 10u8
            &&& !all.drop_last().contains(10u8)
            &&& holds_no_marker(line_text(all))
        }),
    ensures
        filter_visible(filter, stream, chunk) == seq![stream_of(filter, stream).pending + chunk],
        stream_of(filter_after(filter, stream, chunk), stream) == (StreamView {
            pending: seq![],
            active: None,
        }),
        filter_events(filter, stream, chunk) == Seq::<TransferEventView>::empty(),
{
    let all = stream_of(filter, stream).pending + chunk;
    let none: Seq<u8> = seq![];
    assert forall|j: int| 0 <= j < all.len() - 1 implies all[j] != 10u8 by {
        assert(all.drop_last().contains(all.drop_last()[j]));
    }
    lemma_position_at(all, 10u8, all.len() - 1);
    assert(all.take(all.len() as int) =~= all);
    assert(all.skip(all.len() as int) =~= none);
    law_lines_without_markers_are_shown(filter.expected, all);
    lemma_position_from(none, 10u8, 0);
    let rest = transfer_lines(filter.expected, None, none);
    assert(rest.visible == Seq::<Seq<u8>>::empty() && rest.pending == none);
    assert(seq![all] + rest.visible =~= seq![all]);
    let whole = transfer_lines(filter.expected, None, all);
    assert(whole.visible == seq![all]);
    assert(whole.events =~= Seq::<TransferEventView>::empty());
    assert(watches(filter, stream));
}

/// While a download comes in, the unfinished line of its stream is held back and nothing of it is
/// shown, whether other downloads are awaited or not.
pub proof fn law_running_downloads_are_not_shown(filter: FilterView, stream: Text, chunk: Seq<u8>)
    requires
        filter.streams.dom().contains(stream),
        filter.streams[stream].active is Some,
        !(filter.streams[stream].pending + chunk).contains(10u8),
    ensures
        filter_visible(filter, stream, chunk) == Seq::<Seq<u8>>::empty(),
        filter_events(filter, stream, chunk) == Seq::<TransferEventView>::empty(),
        filter_after(filter, stream, chunk) == (FilterView {
            streams: filter.streams.insert(
                stream,
                StreamView {
                    pending: filter.streams[stream].pending + chunk,
                    active: filter.streams[stream].active,
                },
            ),
            ..filter
        }),
{
    let held = filter.streams[stream].pending + chunk;
    lemma_position_from(held, 10u8, 0);
    if let Some(p) = position(held, 10u8) {
        assert(held.contains(held[p]));
    }
}

} // verus!
