use webterminal::transfer::{
    normalized_line_text, split_transfer_marker, trim_terminal_marker_prefix, FileTransferEvent,
    FileTransferFilter, FILE_TRANSFER_BASE64_LIMIT,
};

const BEGIN: &str = "__WEBTERMINAL_DOWNLOAD_BEGIN__:";
const END: &str = "__WEBTERMINAL_DOWNLOAD_END__:";
const ERROR: &str = "__WEBTERMINAL_DOWNLOAD_ERROR__:";

fn take(filter: &mut FileTransferFilter, chunk: &str) -> (String, Vec<String>) {
    let (visible, events) = filter.process_output("%1", chunk.as_bytes());
    let shown = String::from_utf8(visible.concat()).unwrap();
    let told = events
        .into_iter()
        .map(|event| match event {
            FileTransferEvent::Download { id, filename_base64, data_base64 } => {
                format!("download {id} {filename_base64} {data_base64}")
            }
            FileTransferEvent::Status { id, status, message } => format!("{status} {id} {message}"),
        })
        .collect();
    (shown, told)
}

#[test]
fn line_ends_are_dropped() {
    assert_eq!(normalized_line_text(b"abc\r\n"), "abc");
    assert_eq!(normalized_line_text(b"abc\n"), "abc");
    assert_eq!(normalized_line_text(b"abc\r"), "abc");
    assert_eq!(normalized_line_text(b"abc\r\r\n"), "abc\r");
    assert_eq!(normalized_line_text(b"abc"), "abc");
    assert_eq!(normalized_line_text(b"a\xffc\n"), "");
}

#[test]
fn terminal_noise_before_markers_is_skipped() {
    assert_eq!(trim_terminal_marker_prefix("\x1bktitle\x1b\\rest"), "rest");
    assert_eq!(trim_terminal_marker_prefix("\x1b]0;title\x07rest"), "rest");
    assert_eq!(trim_terminal_marker_prefix("\x1b]0;title\x1b\\rest"), "rest");
    assert_eq!(trim_terminal_marker_prefix("\r\r\x1b]x\x07\rrest"), "rest");
    assert_eq!(trim_terminal_marker_prefix("\x1bkno end"), "\x1bkno end");
    assert_eq!(trim_terminal_marker_prefix("\x1b[0mrest"), "\x1b[0mrest");
    assert_eq!(trim_terminal_marker_prefix("rest\r"), "rest\r");
}

#[test]
fn markers_are_split_at_the_first_colon() {
    assert_eq!(split_transfer_marker(" id : value:more "), ("id", Some("value:more")));
    assert_eq!(split_transfer_marker(" id "), ("id", None));
    assert_eq!(split_transfer_marker("id:"), ("id", Some("")));
}

#[test]
fn output_passes_when_nothing_is_awaited() {
    let mut filter = FileTransferFilter::new();
    let line = format!("{BEGIN}x:YQ==\n");
    assert_eq!(take(&mut filter, &line), (line.clone(), vec![]));
    let (visible, _) = filter.process_output("%1", b"");
    assert_eq!(visible, vec![Vec::<u8>::new()]);
}

#[test]
fn an_awaited_download_is_delivered() {
    let mut filter = FileTransferFilter::new();
    filter.expect_download("d1");
    let chunk = format!("$ cmd\r\n{BEGIN}d1:bmFtZQ==\r\nQUJD\r\nREVG\r\n{END}d1\r\n");
    assert_eq!(
        take(&mut filter, &chunk),
        ("$ cmd\r\n".to_string(), vec!["download d1 bmFtZQ== QUJDREVG".to_string()])
    );
    assert_eq!(take(&mut filter, "after"), ("after".to_string(), vec![]));
}

#[test]
fn cuts_do_not_matter() {
    let chunk = format!("one\r\n\x1b]0;t\x07{BEGIN}d1:bmFtZQ==\r\nQUJD\r\n{END}d1\r\ntwo\r\n");
    for cut in 0..chunk.len() {
        let mut filter = FileTransferFilter::new();
        filter.expect_download("d1");
        filter.expect_download("d2");
        let (mut shown, mut told) = take(&mut filter, &chunk[..cut]);
        let (more, also) = take(&mut filter, &chunk[cut..]);
        shown.push_str(&more);
        told.extend(also);
        assert_eq!(shown, "one\r\ntwo\r\n", "{cut}");
        assert_eq!(told, vec!["download d1 bmFtZQ== QUJD"], "{cut}");
    }
}

#[test]
fn ordinary_output_is_kept_while_a_download_is_awaited() {
    let mut filter = FileTransferFilter::new();
    filter.expect_download("d1");
    let (shown, told) = take(&mut filter, &format!("a\n{BEGIN}other:x\n{ERROR}other:y\nb"));
    assert_eq!(shown, format!("a\n{BEGIN}other:x\n{ERROR}other:y\n"));
    assert!(told.is_empty());
    assert_eq!(take(&mut filter, "c\n").0, "bc\n");
}

#[test]
fn failures_are_reported() {
    let mut filter = FileTransferFilter::new();
    filter.expect_download("d1");
    assert_eq!(
        take(&mut filter, &format!("{ERROR}d1:file not readable\r\n")),
        (String::new(), vec!["error d1 file not readable".to_string()])
    );
    filter.expect_download("d2");
    assert_eq!(
        take(&mut filter, &format!("{ERROR}d2\n")),
        (String::new(), vec!["error d2 download failed".to_string()])
    );
    filter.expect_download("d3");
    assert_eq!(
        take(&mut filter, &format!("{BEGIN}d3:n\nQQ==\n{ERROR}d3:base64 failed\nafter\n")),
        (String::from("after\n"), vec!["error d3 base64 failed".to_string()])
    );
}

#[test]
fn a_missing_file_name_has_a_default() {
    let mut filter = FileTransferFilter::new();
    filter.expect_download("d1");
    assert_eq!(
        take(&mut filter, &format!("{BEGIN}d1\n{END}d1\n")).1,
        vec!["download d1 ZmlsZQ== ".to_string()]
    );
}

#[test]
fn a_download_that_is_too_large_is_given_up() {
    let mut filter = FileTransferFilter::new();
    filter.expect_download("d1");
    assert!(take(&mut filter, &format!("{BEGIN}d1:n\n")).1.is_empty());
    let mut line = "A".repeat(FILE_TRANSFER_BASE64_LIMIT / 2);
    line.push('\n');
    assert!(take(&mut filter, &line).1.is_empty());
    assert!(take(&mut filter, &line).1.is_empty());
    assert_eq!(
        take(&mut filter, "A\n").1,
        vec!["error d1 download is too large for the web terminal bridge".to_string()]
    );
    assert_eq!(take(&mut filter, "A\n").0, "A\n");
}

#[test]
fn a_long_unfinished_line_is_shown() {
    let mut filter = FileTransferFilter::new();
    filter.expect_download("d1");
    let line = "x".repeat(8192);
    assert_eq!(take(&mut filter, &line).0, "");
    assert_eq!(take(&mut filter, "y").0, format!("{line}y"));
}

#[test]
fn output_after_a_download_is_shown() {
    let mut filter = FileTransferFilter::new();
    filter.expect_download("a");
    let chunk = format!("{BEGIN}a:Zg==\nQQ==\n{END}a\n$ ");
    let (first, events) = filter.process_output("s", chunk.as_bytes());
    assert_eq!(events.len(), 1);
    assert_eq!(first, vec![b"$ ".to_vec()]);
    let (second, events) = filter.process_output("s", b"ls\r\n");
    assert!(events.is_empty());
    let mut shown = first.concat();
    shown.extend(second.concat());
    assert_eq!(shown, b"$ ls\r\n".to_vec());
}

#[test]
fn output_after_a_failed_download_is_shown() {
    let mut filter = FileTransferFilter::new();
    filter.expect_download("a");
    assert_eq!(take(&mut filter, &format!("{ERROR}a:file not readable\r\n$ ")).0, "$ ");
    assert_eq!(take(&mut filter, "ls\r\n").0, "ls\r\n");
}

#[test]
fn held_output_is_shown_after_a_download_was_given_up() {
    let mut filter = FileTransferFilter::new();
    filter.expect_download("a");
    assert_eq!(take(&mut filter, "one\n$ ").0, "one\n");
    filter.cancel("a");
    let (visible, events) = filter.process_output("%1", b"ls\r\n");
    assert_eq!(visible, vec![b"$ ".to_vec(), b"ls\r\n".to_vec()]);
    assert!(events.is_empty());
    let (visible, _) = filter.process_output("%1", b"two\n");
    assert_eq!(visible, vec![b"two\n".to_vec()]);
}

#[test]
fn held_output_of_other_streams_is_shown_too() {
    let mut filter = FileTransferFilter::new();
    filter.expect_download("a");
    let (visible, _) = filter.process_output("%2", b"$ ");
    assert!(visible.is_empty());
    let (_, told) = take(&mut filter, &format!("{BEGIN}a:Zg==\nQQ==\n{END}a\n"));
    assert_eq!(told, vec!["download a Zg== QQ=="]);
    let (visible, _) = filter.process_output("%2", b"ls\r\n");
    assert_eq!(visible, vec![b"$ ".to_vec(), b"ls\r\n".to_vec()]);
}

#[test]
fn an_unfinished_line_is_held_while_another_download_is_awaited() {
    let mut filter = FileTransferFilter::new();
    filter.expect_download("a");
    filter.expect_download("b");
    assert_eq!(take(&mut filter, &format!("{BEGIN}a:Zg==\nQQ==\n{END}a\n$ ")).0, "");
    assert_eq!(take(&mut filter, "ls\r\n").0, "$ ls\r\n");
}

#[test]
fn a_cancelled_download_is_not_delivered() {
    let mut filter = FileTransferFilter::new();
    filter.expect_download("d1");
    filter.expect_download("d2");
    assert!(take(&mut filter, &format!("{BEGIN}d1:n\nQQ==\n")).0.is_empty());
    filter.cancel("d1");
    let (shown, told) = take(&mut filter, &format!("QUE=\n{END}d1\n"));
    assert_eq!(shown, format!("QUE=\n{END}d1\n"));
    assert!(told.is_empty());
}

#[test]
fn streams_are_kept_apart() {
    let mut filter = FileTransferFilter::new();
    filter.expect_download("d1");
    let (visible, _) = filter.process_output("%1", format!("{BEGIN}d1:n\nQQ==\n").as_bytes());
    assert!(visible.is_empty());
    let (visible, events) = filter.process_output("%2", format!("hello\n{END}d1\n").as_bytes());
    assert_eq!(visible.len(), 2);
    assert!(events.is_empty());
    let (_, events) = filter.process_output("%1", format!("{END}d1\n").as_bytes());
    assert_eq!(events.len(), 1);
}
