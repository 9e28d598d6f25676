//! File transfers that run inside a terminal: the output filter that picks downloads out of what
//! the terminal prints.
use vstd::prelude::*;
use vstd::string::*;
use vstd::slice::slice_subrange;
use vstd::utf8::{decode_utf8, encode_utf8, valid_utf8};
use crate::outside::utf8_text;
use crate::replay::chunk_views;
use crate::table::{TextMap, TextSet};
use crate::text::{
    byte_position_from, bytes_between, bytes_copy, char_position, chars_at, chars_find, chars_of,
    find, lemma_find_from, lemma_find_shift, lemma_position_from, lemma_position_shift, opt_str,
    position, position_from, push_bytes, same_text, strip_prefix, trim, trimmed, Text,
};

verus! {

/// How many bytes of base64 text a download may have.
pub const FILE_TRANSFER_BASE64_LIMIT: usize = 64 * 1024 * 1024;

/// How many bytes of an unfinished line are held back at most.
pub const HELD_LINE_LIMIT: usize = 8192;

/// Opens a download: followed by its id, a colon and the base64 text of the file name.
pub const DOWNLOAD_BEGIN_MARKER: &'static str = "__WEBTERMINAL_DOWNLOAD_BEGIN__:";

/// Closes a download: followed by its id.
pub const DOWNLOAD_END_MARKER: &'static str = "__WEBTERMINAL_DOWNLOAD_END__:";

/// Gives a download up: followed by its id, a colon and the reason.
pub const DOWNLOAD_ERROR_MARKER: &'static str = "__WEBTERMINAL_DOWNLOAD_ERROR__:";

// ---------------------------------------------------------------------------
// Reading a line
// ---------------------------------------------------------------------------

/// `line` without one line feed, and then one carriage return, at its end.
pub open spec fn without_line_end(line: Seq<u8>) -> Seq<u8> {
    let no_lf = if line.len() > 0 && line.last() == 10u8 {
        line.drop_last()
    } else {
        line
    };
    if no_lf.len() > 0 && no_lf.last() == 13u8 {
        no_lf.drop_last()
    } else {
        no_lf
    }
}

/// The text of a line without its line end; empty where it is not UTF-8.
pub open spec fn line_text(line: Seq<u8>) -> Text {
    if valid_utf8(without_line_end(line)) {
        decode_utf8(without_line_end(line))
    } else {
        seq![]
    }
}

/// The text of a line without its line end; empty where it is not UTF-8.
pub fn normalized_line_text(line: &[u8]) -> (res: &str)
    ensures
        res@ == line_text(line@),
{
    let mut end: usize = line.len();
    assert(line@.take(end as int) == line@);
    if end > 0 && line[end - 1] == 10u8 {
        end -= 1;
        assert(line@.take(end as int) == line@.drop_last());
    }
    let ghost no_lf = line@.take(end as int);
    if end > 0 && line[end - 1] == 13u8 {
        assert(no_lf.last() == 13u8);
        end -= 1;
        assert(line@.take(end as int) == no_lf.drop_last());
    } else {
        assert(no_lf.len() > 0 ==> no_lf.last() == line@[end - 1]);
    }
    let body = slice_subrange(line, 0, end);
    assert(body@ == without_line_end(line@));
    match utf8_text(body) {
        Some(text) => text,
        None => {
            proof {
                reveal_strlit("");
            }
            assert(""@ == Seq::<char>::empty());
            ""
        },
    }
}

/// How long the control sequence or carriage return is with which `text` starts: a window title
/// (`ESC k .. ESC \`), an operating system command (`ESC ] .. BEL` or `ESC ] .. ESC \`) or one
/// carriage return; zero where it starts with none of these.
pub open spec fn marker_prefix_len(text: Text) -> int {
    let rest = text.skip(2);
    let end = find(rest, seq!['\u{1b}', '\\']);
    let bell = position(rest, '\u{7}');
    if text.len() >= 2 && text[0] == '\u{1b}' && text[1] == 'k' && end is Some {
        end->0 + 4
    } else if text.len() >= 2 && text[0] == '\u{1b}' && text[1] == ']' && bell is Some {
        bell->0 + 3
    } else if text.len() >= 2 && text[0] == '\u{1b}' && text[1] == ']' && end is Some {
        end->0 + 4
    } else if text.len() >= 1 && text[0] == '\r' {
        1
    } else {
        0
    }
}

proof fn lemma_marker_prefix_len(text: Text)
    ensures
        0 <= marker_prefix_len(text) <= text.len(),
{
    lemma_find_from(text.skip(2), seq!['\u{1b}', '\\'], 0);
    lemma_position_from(text.skip(2), '\u{7}', 0);
}

/// `text` without the control sequences and carriage returns that a shell prints before a line.
pub open spec fn without_marker_prefix(text: Text) -> Text
    decreases text.len(),
    via marker_prefix_shortens
{
    if marker_prefix_len(text) > 0 {
        without_marker_prefix(text.skip(marker_prefix_len(text)))
    } else {
        text
    }
}

#[via_fn]
proof fn marker_prefix_shortens(text: Text) {
    lemma_marker_prefix_len(text);
}

/// `text` without the control sequences and carriage returns that a shell prints before a line.
pub fn trim_terminal_marker_prefix<'a>(text: &'a str) -> (res: &'a str)
    ensures
        res@ == without_marker_prefix(text@),
{
    let chars = chars_of(text);
    let count: usize = chars.len();
    let mut closing: Vec<char> = Vec::new();
    closing.push('\u{1b}');
    closing.push('\\');
    let ghost st = seq!['\u{1b}', '\\'];
    assert(closing@ == st);
    let mut at: usize = 0;
    assert(text@.skip(0) == text@);
    loop
        invariant
            chars@ == text@,
            count == text@.len(),
            closing@ == st,
            st == seq!['\u{1b}', '\\'],
            0 <= at <= count,
            without_marker_prefix(text@) == without_marker_prefix(text@.skip(at as int)),
        ensures
            at <= count,
            without_marker_prefix(text@) == text@.skip(at as int),
        decreases count - at,
    {
        let ghost here = text@.skip(at as int);
        if count - at >= 2 && chars[at] == '\u{1b}' && (chars[at + 1] == 'k' || chars[at + 1]
            == ']') {
            let ghost rest = here.skip(2);
            proof {
                assert(here[0] == chars@[at as int] && here[1] == chars@[at + 1]);
                assert(rest == text@.skip(at + 2));
                lemma_find_shift(text@, st, at + 2, at + 2);
                lemma_position_shift(text@, '\u{7}', at + 2, at + 2);
            }
            if chars[at + 1] == ']' {
                if let Some(end) = char_position(&chars, '\u{7}', at + 2) {
                    assert(here.skip(end + 1 - at) == text@.skip(end + 1));
                    at = end + 1;
                    continue ;
                }
            }
            if let Some(end) = chars_find(&chars, &closing, at + 2) {
                assert(here.skip(end + 2 - at) == text@.skip(end + 2));
                at = end + 2;
                continue ;
            }
            break ;
        }
        if count - at >= 1 && chars[at] == '\r' {
            assert(here[0] == '\r');
            assert(here.skip(1) == text@.skip(at + 1));
            at += 1;
            continue ;
        }
        assert(count - at >= 1 ==> here[0] == chars@[at as int]);
        assert(count - at >= 2 ==> here[1] == chars@[at + 1]);
        break ;
    }
    text.substring_char(at, count)
}

/// What a marker carries.
#[verifier::ext_equal]
pub struct MarkerView {
    pub id: Text,
    pub value: Option<Text>,
}

/// The id and what follows the first colon, if there is one, each without surrounding white space.
pub open spec fn marker_parts(rest: Text) -> MarkerView {
    let body = trimmed(rest);
    match position(body, ':') {
        Some(p) => MarkerView {
            id: trimmed(body.take(p)),
            value: Some(trimmed(body.skip(p + 1))),
        },
        None => MarkerView { id: body, value: None },
    }
}

/// The id and what follows the first colon, if there is one, each without surrounding white space.
pub fn split_transfer_marker<'a>(rest: &'a str) -> (res: (&'a str, Option<&'a str>))
    ensures
        res.0@ == marker_parts(rest@).id,
        opt_str(res.1) == marker_parts(rest@).value,
{
    let body = trim(rest);
    let chars = chars_of(body);
    let count: usize = chars.len();
    match char_position(&chars, ':', 0) {
        Some(p) => {
            let id = body.substring_char(0, p);
            let value = body.substring_char(p + 1, count);
            assert(id@ == body@.take(p as int));
            assert(value@ == body@.skip(p + 1));
            (trim(id), Some(trim(value)))
        },
        None => (body, None),
    }
}

// ---------------------------------------------------------------------------
// Downloads in progress
// ---------------------------------------------------------------------------

/// A download that has begun.
pub struct FileDownloadCapture {
    /// The id under which it was asked for.
    pub id: String,
    /// The file name, as base64 text.
    pub filename_base64: String,
    /// What has come of the file, as base64 text.
    pub data_base64: String,
}

/// What a download in progress holds.
#[verifier::ext_equal]
pub struct CaptureView {
    pub id: Text,
    pub filename: Text,
    pub data: Text,
}

impl View for FileDownloadCapture {
    type V = CaptureView;

    open spec fn view(&self) -> CaptureView {
        CaptureView { id: self.id@, filename: self.filename_base64@, data: self.data_base64@ }
    }
}

/// What an optional download in progress holds.
pub open spec fn opt_capture(value: Option<FileDownloadCapture>) -> Option<CaptureView> {
    match value {
        Some(c) => Some(c@),
        None => None,
    }
}

/// The output of one terminal stream that is still looked at.
pub struct FileTransferStream {
    /// An unfinished line.
    pub pending: Vec<u8>,
    /// The download to which the coming lines belong.
    pub active_download: Option<FileDownloadCapture>,
}

/// What a stream holds.
#[verifier::ext_equal]
pub struct StreamView {
    pub pending: Seq<u8>,
    pub active: Option<CaptureView>,
}

impl View for FileTransferStream {
    type V = StreamView;

    open spec fn view(&self) -> StreamView {
        StreamView { pending: self.pending@, active: opt_capture(self.active_download) }
    }
}

/// What became of a transfer.
pub enum FileTransferEvent {
    /// A file has come over whole.
    Download { id: String, filename_base64: String, data_base64: String },
    /// A transfer has changed its state.
    Status { id: String, status: String, message: String },
}

/// What a transfer event holds.
#[verifier::ext_equal]
pub enum TransferEventView {
    Download { id: Text, filename: Text, data: Text },
    Status { id: Text, status: Text, message: Text },
}

impl View for FileTransferEvent {
    type V = TransferEventView;

    open spec fn view(&self) -> TransferEventView {
        match self {
            FileTransferEvent::Download { id, filename_base64, data_base64 } =>
                TransferEventView::Download {
                id: id@,
                filename: filename_base64@,
                data: data_base64@,
            },
            FileTransferEvent::Status { id, status, message } => TransferEventView::Status {
                id: id@,
                status: status@,
                message: message@,
            },
        }
    }
}

/// What a list of transfer events holds.
pub open spec fn transfer_views(events: Seq<FileTransferEvent>) -> Seq<TransferEventView> {
    Seq::new(events.len(), |i: int| events[i]@)
}

// ---------------------------------------------------------------------------
// One line
// ---------------------------------------------------------------------------

/// What a line of output does to the transfers of its stream.
#[verifier::ext_equal]
pub struct LineOutcome {
    /// The downloads that are still awaited.
    pub expected: Set<Text>,
    /// The download to which the coming lines belong.
    pub active: Option<CaptureView>,
    /// Whether the line is shown.
    pub shown: bool,
    /// What became of a transfer.
    pub event: Option<TransferEventView>,
}

/// A transfer that failed.
pub open spec fn failure(id: Text, message: Text) -> TransferEventView {
    TransferEventView::Status { id, status: "error"@, message }
}

/// The text of a line in which markers are looked for.
pub open spec fn marker_line(line: Seq<u8>) -> Text {
    without_marker_prefix(line_text(line))
}

/// Whether the line closes the download `id`.
pub open spec fn closes(line: Text, id: Text) -> bool {
    match strip_prefix(line, DOWNLOAD_END_MARKER@) {
        Some(rest) => trimmed(rest) == id,
        None => false,
    }
}

/// The id and the reason, if the line gives a download up.
pub open spec fn gives_up(line: Text) -> Option<MarkerView> {
    match strip_prefix(line, DOWNLOAD_ERROR_MARKER@) {
        Some(rest) => Some(marker_parts(rest)),
        None => None,
    }
}

/// The id and the file name, if the line opens a download.
pub open spec fn opens(line: Text) -> Option<MarkerView> {
    match strip_prefix(line, DOWNLOAD_BEGIN_MARKER@) {
        Some(rest) => Some(marker_parts(rest)),
        None => None,
    }
}

/// `value`, or `default` where there is none.
pub open spec fn text_or(value: Option<Text>, default: Text) -> Text {
    match value {
        Some(v) => v,
        None => default,
    }
}

/// A line that comes while the download `capture` is in progress.
pub open spec fn capture_line(expected: Set<Text>, capture: CaptureView, line: Text) -> LineOutcome {
    let data = capture.data + trimmed(line);
    if closes(line, capture.id) {
        LineOutcome {
            expected: expected.remove(capture.id),
            active: None,
            shown: false,
            event: Some(
                TransferEventView::Download {
                    id: capture.id,
                    filename: capture.filename,
                    data: capture.data,
                },
            ),
        }
    } else if gives_up(line) is Some && gives_up(line)->0.id == capture.id {
        LineOutcome {
            expected: expected.remove(capture.id),
            active: None,
            shown: false,
            event: Some(
                failure(capture.id, text_or(gives_up(line)->0.value, "download failed"@)),
            ),
        }
    } else if encode_utf8(data).len() > FILE_TRANSFER_BASE64_LIMIT {
        LineOutcome {
            expected: expected.remove(capture.id),
            active: None,
            shown: false,
            event: Some(
                failure(capture.id, "download is too large for the web terminal bridge"@),
            ),
        }
    } else {
        LineOutcome {
            expected,
            active: Some(CaptureView { data, ..capture }),
            shown: false,
            event: None,
        }
    }
}

/// A line that comes while no download is in progress.
pub open spec fn idle_line(expected: Set<Text>, line: Text) -> LineOutcome {
    if opens(line) is Some && expected.contains(opens(line)->0.id) {
        LineOutcome {
            expected,
            active: Some(
                CaptureView {
                    id: opens(line)->0.id,
                    filename: text_or(opens(line)->0.value, "ZmlsZQ=="@),
                    data: seq![],
                },
            ),
            shown: false,
            event: None,
        }
    } else if gives_up(line) is Some && expected.contains(gives_up(line)->0.id) {
        LineOutcome {
            expected: expected.remove(gives_up(line)->0.id),
            active: None,
            shown: false,
            event: Some(
                failure(gives_up(line)->0.id, text_or(gives_up(line)->0.value, "download failed"@)),
            ),
        }
    } else {
        LineOutcome { expected, active: None, shown: true, event: None }
    }
}

/// What a line of output does.
pub open spec fn transfer_line(
    expected: Set<Text>,
    active: Option<CaptureView>,
    line: Seq<u8>,
) -> LineOutcome {
    match active {
        Some(capture) => capture_line(expected, capture, marker_line(line)),
        None => idle_line(expected, marker_line(line)),
    }
}

/// What `text` holds behind `marker`, if it starts with it.
fn behind_marker<'a>(text: &'a str, marker: &str) -> (res: Option<&'a str>)
    ensures
        opt_str(res) == strip_prefix(text@, marker@),
{
    let chars = chars_of(text);
    let pat = chars_of(marker);
    if chars_at(&chars, 0, &pat) {
        let rest = text.substring_char(pat.len(), chars.len());
        assert(rest@ == text@.skip(marker@.len() as int));
        Some(rest)
    } else {
        None
    }
}

/// A failure event.
fn failure_event(id: String, message: &str) -> (res: FileTransferEvent)
    ensures
        res@ == failure(id@, message@),
{
    FileTransferEvent::Status { id, status: "error".to_string(), message: message.to_string() }
}

/// `value`, or `default` where there is none.
fn str_or<'a>(value: Option<&'a str>, default: &'a str) -> (res: &'a str)
    ensures
        res@ == text_or(opt_str(value), default@),
{
    match value {
        Some(v) => v,
        None => default,
    }
}

/// Handles a line of output; gives the download in progress, whether the line is shown, and what
/// became of a transfer.
fn handle_transfer_line(
    expected: &mut TextSet,
    active: Option<FileDownloadCapture>,
    line: &[u8],
) -> (res: (Option<FileDownloadCapture>, bool, Option<FileTransferEvent>))
    ensures
        ({
            let outcome = transfer_line(old(expected)@, opt_capture(active), line@);
            &&& final(expected)@ == outcome.expected
            &&& opt_capture(res.0) == outcome.active
            &&& res.1 == outcome.shown
            &&& match res.2 {
                Some(event) => outcome.event == Some(event@),
                None => outcome.event is None,
            }
        }),
{
    let marker_text = trim_terminal_marker_prefix(normalized_line_text(line));
    match active {
        Some(download) => {
            if let Some(rest) = behind_marker(marker_text, DOWNLOAD_END_MARKER) {
                if same_text(trim(rest), download.id.as_str()) {
                    expected.remove(download.id.as_str());
                    let event = FileTransferEvent::Download {
                        id: download.id,
                        filename_base64: download.filename_base64,
                        data_base64: download.data_base64,
                    };
                    return (None, false, Some(event));
                }
            }
            if let Some(rest) = behind_marker(marker_text, DOWNLOAD_ERROR_MARKER) {
                let (id, message) = split_transfer_marker(rest);
                if same_text(id, download.id.as_str()) {
                    expected.remove(id);
                    let event = failure_event(id.to_string(), str_or(message, "download failed"));
                    return (None, false, Some(event));
                }
            }
            let FileDownloadCapture { id, filename_base64, mut data_base64 } = download;
            data_base64.append(trim(marker_text));
            if data_base64.as_str().as_bytes().len() > FILE_TRANSFER_BASE64_LIMIT {
                expected.remove(id.as_str());
                let event = failure_event(id, "download is too large for the web terminal bridge");
                return (None, false, Some(event));
            }
            (Some(FileDownloadCapture { id, filename_base64, data_base64 }), false, None)
        },
        None => {
            if let Some(rest) = behind_marker(marker_text, DOWNLOAD_BEGIN_MARKER) {
                let (id, filename) = split_transfer_marker(rest);
                if expected.contains(id) {
                    let capture = FileDownloadCapture {
                        id: id.to_string(),
                        filename_base64: str_or(filename, "ZmlsZQ==").to_string(),
                        data_base64: String::new(),
                    };
                    return (Some(capture), false, None);
                }
            }
            if let Some(rest) = behind_marker(marker_text, DOWNLOAD_ERROR_MARKER) {
                let (id, message) = split_transfer_marker(rest);
                if expected.remove(id) {
                    let event = failure_event(id.to_string(), str_or(message, "download failed"));
                    return (None, false, Some(event));
                }
                proof {
                    assert(old(expected)@.remove(id@) =~= old(expected)@);
                }
            }
            (None, true, None)
        },
    }
}

// ---------------------------------------------------------------------------
// A stream of output
// ---------------------------------------------------------------------------

/// What becomes of the output of a stream.
#[verifier::ext_equal]
pub struct OutputView {
    /// The downloads that are still awaited.
    pub expected: Set<Text>,
    /// The download to which the coming lines belong.
    pub active: Option<CaptureView>,
    /// The unfinished line.
    pub pending: Seq<u8>,
    /// What is shown.
    pub visible: Seq<Seq<u8>>,
    /// What became of transfers.
    pub events: Seq<TransferEventView>,
}

/// An optional value as a list.
pub open spec fn listed<T>(value: Option<T>) -> Seq<T> {
    match value {
        Some(v) => seq![v],
        None => seq![],
    }
}

/// `rest` with the outcome of a line before it.
pub open spec fn line_before(line: Seq<u8>, outcome: LineOutcome, rest: OutputView) -> OutputView {
    OutputView {
        visible: (if outcome.shown {
            seq![line]
        } else {
            seq![]
        }) + rest.visible,
        events: listed(outcome.event) + rest.events,
        ..rest
    }
}

/// What becomes of `held`, line by line.
pub open spec fn transfer_lines(
    expected: Set<Text>,
    active: Option<CaptureView>,
    held: Seq<u8>,
) -> OutputView
    decreases held.len(),
    via line_shortens
{
    match position(held, 10u8) {
        Some(p) => {
            let line = held.take(p + 1);
            let outcome = transfer_line(expected, active, line);
            line_before(
                line,
                outcome,
                transfer_lines(outcome.expected, outcome.active, held.skip(p + 1)),
            )
        },
        None => OutputView { expected, active, pending: held, visible: seq![], events: seq![] },
    }
}

#[via_fn]
proof fn line_shortens(expected: Set<Text>, active: Option<CaptureView>, held: Seq<u8>) {
    lemma_position_from(held, 10u8, 0);
}

/// Whether an unfinished line is held no longer: no download is in progress, and none is awaited
/// any more or the line has grown too long.
pub open spec fn releases(out: OutputView) -> bool {
    &&& out.active is None
    &&& out.pending.len() > 0
    &&& out.expected == Set::<Text>::empty() || out.pending.len() > HELD_LINE_LIMIT
}

/// `out` with the unfinished line shown where it is held no longer.
pub open spec fn released(out: OutputView) -> OutputView {
    if releases(out) {
        OutputView { pending: seq![], visible: out.visible.push(out.pending), ..out }
    } else {
        out
    }
}

/// What the output filter holds.
#[verifier::ext_equal]
pub struct FilterView {
    /// The downloads that are awaited.
    pub expected: Set<Text>,
    /// The streams that were looked at.
    pub streams: Map<Text, StreamView>,
}

/// The stream `stream`, which starts out with nothing held.
pub open spec fn stream_of(filter: FilterView, stream: Text) -> StreamView {
    if filter.streams.dom().contains(stream) {
        filter.streams[stream]
    } else {
        StreamView { pending: seq![], active: None }
    }
}

/// Whether output of `stream` is looked at: a download is awaited or in progress.
pub open spec fn watches(filter: FilterView, stream: Text) -> bool {
    filter.expected != Set::<Text>::empty() || stream_of(filter, stream).active is Some
}

/// What becomes of `chunk` and what is held of the stream.
pub open spec fn stream_output(filter: FilterView, stream: Text, chunk: Seq<u8>) -> OutputView {
    let before = stream_of(filter, stream);
    released(transfer_lines(filter.expected, before.active, before.pending + chunk))
}

/// The filter after it was given `chunk`. Of a stream that is not looked at nothing is held.
pub open spec fn filter_after(filter: FilterView, stream: Text, chunk: Seq<u8>) -> FilterView {
    if watches(filter, stream) {
        let out = stream_output(filter, stream, chunk);
        FilterView {
            expected: out.expected,
            streams: filter.streams.insert(
                stream,
                StreamView { pending: out.pending, active: out.active },
            ),
        }
    } else if stream_of(filter, stream).pending.len() > 0 {
        FilterView {
            streams: filter.streams.insert(stream, StreamView { pending: seq![], active: None }),
            ..filter
        }
    } else {
        filter
    }
}

/// What is shown once `chunk` has come. What was held of a stream that is not looked at any more
/// comes before it.
pub open spec fn filter_visible(filter: FilterView, stream: Text, chunk: Seq<u8>) -> Seq<Seq<u8>> {
    if watches(filter, stream) {
        stream_output(filter, stream, chunk).visible
    } else if stream_of(filter, stream).pending.len() > 0 {
        seq![stream_of(filter, stream).pending, chunk]
    } else {
        seq![chunk]
    }
}

/// What became of transfers.
pub open spec fn filter_events(filter: FilterView, stream: Text, chunk: Seq<u8>) -> Seq<
    TransferEventView,
> {
    if watches(filter, stream) {
        stream_output(filter, stream, chunk).events
    } else {
        seq![]
    }
}

/// A stream after the transfer `id` was given up.
pub open spec fn stream_without(stream: StreamView, id: Text) -> StreamView {
    if stream.active is Some && stream.active->0.id == id {
        StreamView { active: None, ..stream }
    } else {
        stream
    }
}

/// The filter after the transfer `id` was given up.
pub open spec fn filter_without(filter: FilterView, id: Text) -> FilterView {
    FilterView {
        expected: filter.expected.remove(id),
        streams: Map::new(
            |k: Text| filter.streams.dom().contains(k),
            |k: Text| stream_without(filter.streams[k], id),
        ),
    }
}

/// Picks the awaited downloads out of the output of the streams of a terminal.
pub struct FileTransferFilter {
    /// The ids of the downloads that were asked for and have not come.
    pub expected_downloads: TextSet,
    /// The streams that were looked at, by their id.
    pub streams: TextMap<FileTransferStream>,
}

impl View for FileTransferFilter {
    type V = FilterView;

    open spec fn view(&self) -> FilterView {
        FilterView { expected: self.expected_downloads@, streams: self.streams@ }
    }
}

impl FileTransferFilter {
    /// A filter that awaits nothing.
    pub fn new() -> (res: Self)
        ensures
            res@ == (FilterView { expected: Set::empty(), streams: Map::empty() }),
    {
        FileTransferFilter { expected_downloads: TextSet::new(), streams: TextMap::new() }
    }

    /// Awaits the download `id`.
    pub fn expect_download(&mut self, id: &str)
        ensures
            final(self)@ == (FilterView {
                expected: old(self)@.expected.insert(id@),
                ..old(self)@
            }),
    {
        self.expected_downloads.insert(id.to_string());
    }

    /// Gives the transfer `id` up.
    pub fn cancel(&mut self, id: &str)
        ensures
            final(self)@ == filter_without(old(self)@, id@),
    {
        self.expected_downloads.remove(id);
        let ghost before = old(self)@;
        let mut old_streams: TextMap<FileTransferStream> = TextMap::new();
        core::mem::swap(&mut old_streams, &mut self.streams);
        let mut entries = old_streams.into_entries();
        let ghost all = entries@;
        let ghost keys = crate::table::entry_keys(all);
        let ghost after = filter_without(before, id@);
        let mut streams: TextMap<FileTransferStream> = TextMap::new();
        assert(keys.skip(keys.len() as int).to_set() =~= Set::<Text>::empty());
        assert(streams@ =~= after.streams.restrict(keys.skip(entries@.len() as int).to_set()));
        while entries.len() > 0
            invariant
                keys == crate::table::entry_keys(all),
                keys.to_set() == before.streams.dom(),
                after == filter_without(before, id@),
                entries@.len() <= all.len(),
                entries@ == all.take(entries@.len() as int),
                forall|i: int|
                    0 <= i < all.len() ==> #[trigger] all[i].1@ == before.streams[all[i].0@]
                        && before.streams.dom().contains(all[i].0@),
                streams@ == after.streams.restrict(keys.skip(entries@.len() as int).to_set()),
            decreases entries@.len(),
        {
            let ghost n = entries@.len() as int;
            let (key, stream) = entries.pop().unwrap();
            assert((key, stream) == all[n - 1]);
            assert(key@ == keys[n - 1]);
            proof {
                crate::table::lemma_skip_to_set(keys, n - 1);
            }
            let FileTransferStream { pending, active_download } = stream;
            let active = match active_download {
                Some(download) => if same_text(download.id.as_str(), id) {
                    None
                } else {
                    Some(download)
                },
                None => None,
            };
            let kept = FileTransferStream { pending, active_download: active };
            assert(kept@ == stream_without(stream@, id@));
            streams.insert(key, kept);
            assert(streams@ =~= after.streams.restrict(keys.skip(n - 1).to_set()));
        }
        assert(keys.skip(0) == keys);
        assert(streams@ =~= after.streams);
        self.streams = streams;
    }

    /// Takes output of the stream `stream_id`; gives what is shown and what became of transfers. An
    /// unfinished line is held back only as long as a download is awaited or in progress.
    pub fn process_output(&mut self, stream_id: &str, chunk: &[u8]) -> (res: (
        Vec<Vec<u8>>,
        Vec<FileTransferEvent>,
    ))
        ensures
            final(self)@ == filter_after(old(self)@, stream_id@, chunk@),
            chunk_views(res.0@) == filter_visible(old(self)@, stream_id@, chunk@),
            transfer_views(res.1@) == filter_events(old(self)@, stream_id@, chunk@),
    {
        let ghost before = self@;
        let (has_active, has_held) = match self.streams.get(stream_id) {
            Some(stream) => (stream.active_download.is_some(), stream.pending.len() > 0),
            None => (false, false),
        };
        let mut visible: Vec<Vec<u8>> = Vec::new();
        let mut events: Vec<FileTransferEvent> = Vec::new();
        if self.expected_downloads.is_empty() && !has_active {
            if has_held {
                if let Some(stream) = self.streams.remove(stream_id) {
                    visible.push(stream.pending);
                }
                let idle = FileTransferStream { pending: Vec::new(), active_download: None };
                assert(idle@ == (StreamView { pending: seq![], active: None }));
                self.streams.insert(stream_id.to_string(), idle);
                assert(self@.streams =~= filter_after(before, stream_id@, chunk@).streams);
            }
            visible.push(bytes_copy(chunk));
            assert(chunk_views(visible@) == filter_visible(before, stream_id@, chunk@));
            assert(transfer_views(events@) == Seq::<TransferEventView>::empty());
            return (visible, events);
        }
        let stream = match self.streams.remove(stream_id) {
            Some(stream) => stream,
            None => FileTransferStream { pending: Vec::new(), active_download: None },
        };
        assert(stream@ == stream_of(before, stream_id@));
        let FileTransferStream { mut pending, active_download: mut active } = stream;
        push_bytes(&mut pending, chunk);
        let ghost held = pending@;
        let ghost whole = transfer_lines(before.expected, stream@.active, held);
        let mut start: usize = 0;
        let count: usize = pending.len();
        assert(held.skip(0) == held);
        assert(chunk_views(visible@) + whole.visible == whole.visible);
        assert(transfer_views(events@) + whole.events == whole.events);
        let mut line_end = byte_position_from(pending.as_slice(), 10u8, start);
        while line_end.is_some()
            invariant
                match line_end {
                    Some(pos) => position_from(held, 10u8, start as int) == Some(pos as int)
                        && start <= pos < count,
                    None => position_from(held, 10u8, start as int) is None,
                },
                pending@ == held,
                count == held.len(),
                0 <= start <= count,
                ({
                    let rest = transfer_lines(
                        self.expected_downloads@,
                        opt_capture(active),
                        held.skip(start as int),
                    );
                    &&& whole.expected == rest.expected
                    &&& whole.active == rest.active
                    &&& whole.pending == rest.pending
                    &&& whole.visible == chunk_views(visible@) + rest.visible
                    &&& whole.events == transfer_views(events@) + rest.events
                }),
                self.streams@ == before.streams.remove(stream_id@),
            decreases count - start,
        {
            let pos: usize = line_end.unwrap();
            let line = bytes_between(pending.as_slice(), start, pos + 1);
            let ghost rest = held.skip(start as int);
            let ghost shown_before = chunk_views(visible@);
            let ghost events_before = transfer_views(events@);
            proof {
                lemma_position_shift(held, 10u8, start as int, start as int);
                assert(line@ == rest.take(pos - start + 1));
                assert(rest.skip(pos - start + 1) == held.skip(pos + 1));
            }
            let (next, shown, event) = handle_transfer_line(
                &mut self.expected_downloads,
                active,
                line.as_slice(),
            );
            active = next;
            if let Some(event) = event {
                events.push(event);
                assert(transfer_views(events@) == events_before.push(event@));
            }
            if shown {
                visible.push(line);
                assert(chunk_views(visible@) == shown_before.push(line@));
            }
            start = pos + 1;
            line_end = byte_position_from(pending.as_slice(), 10u8, start);
            proof {
                let after = transfer_lines(
                    self.expected_downloads@,
                    opt_capture(active),
                    held.skip(start as int),
                );
                assert(whole.visible == chunk_views(visible@) + after.visible);
                assert(whole.events == transfer_views(events@) + after.events);
            }
        }
        proof {
            lemma_position_shift(held, 10u8, start as int, start as int);
        }
        let mut rest = bytes_between(pending.as_slice(), start, count);
        assert(rest@ == held.skip(start as int));
        let ghost shown_before = chunk_views(visible@);
        assert(whole.visible == shown_before);
        assert(whole.events == transfer_views(events@));
        if active.is_none() && rest.len() > 0 && (self.expected_downloads.is_empty() || rest.len()
            > HELD_LINE_LIMIT) {
            visible.push(rest);
            assert(chunk_views(visible@) == shown_before.push(rest@));
            rest = Vec::new();
        }
        let ghost out = released(whole);
        let stream = FileTransferStream { pending: rest, active_download: active };
        assert(stream@ == (StreamView { pending: out.pending, active: out.active }));
        self.streams.insert(stream_id.to_string(), stream);
        assert(self@.streams =~= filter_after(before, stream_id@, chunk@).streams);
        (visible, events)
    }
}

} // verus!
