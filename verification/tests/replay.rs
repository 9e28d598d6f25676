use webterminal::replay::{ReplayBuffer, INITIAL_REPLAY_LIMIT_BYTES, REPLAY_LIMIT_BYTES};

#[test]
fn limits_are_32_and_4_mebibytes() {
    assert_eq!(REPLAY_LIMIT_BYTES, 33_554_432);
    assert_eq!(INITIAL_REPLAY_LIMIT_BYTES, 4_194_304);
}

#[test]
fn short_output_is_kept_whole() {
    let mut buffer = ReplayBuffer::new();
    assert!(buffer.tail_chunks(10).is_empty());
    buffer.push(b"one".to_vec());
    buffer.push(b"two".to_vec());
    assert_eq!(buffer.tail_chunks(100), vec![b"one".to_vec(), b"two".to_vec()]);
}

#[test]
fn tails_hold_the_newest_chunks_that_fit() {
    let mut buffer = ReplayBuffer::new();
    for chunk in ["aaaa", "bbb", "cc"] {
        buffer.push(chunk.as_bytes().to_vec());
    }
    assert_eq!(buffer.tail_chunks(9).len(), 3);
    assert_eq!(buffer.tail_chunks(8), vec![b"bbb".to_vec(), b"cc".to_vec()]);
    assert_eq!(buffer.tail_chunks(5), vec![b"bbb".to_vec(), b"cc".to_vec()]);
    assert_eq!(buffer.tail_chunks(4), vec![b"cc".to_vec()]);
    assert_eq!(buffer.tail_chunks(1), vec![b"cc".to_vec()]);
    assert_eq!(buffer.tail_chunks(0), vec![b"cc".to_vec()]);
}

#[test]
fn a_large_last_chunk_is_sent_alone() {
    let mut buffer = ReplayBuffer::new();
    buffer.push(b"a".to_vec());
    buffer.push(vec![b'b'; 100]);
    assert_eq!(buffer.tail_chunks(10), vec![vec![b'b'; 100]]);
}

#[test]
fn old_output_is_dropped_at_the_limit() {
    let mut buffer = ReplayBuffer::new();
    buffer.push(vec![b'a'; 1024]);
    buffer.push(vec![b'b'; REPLAY_LIMIT_BYTES - 1024]);
    assert_eq!(buffer.tail_chunks(REPLAY_LIMIT_BYTES).len(), 2);
    buffer.push(vec![b'c'; 1]);
    let kept = buffer.tail_chunks(REPLAY_LIMIT_BYTES);
    assert_eq!(kept.len(), 2);
    assert_eq!(kept[0][0], b'b');
    assert_eq!(kept[1], vec![b'c']);
}

#[test]
fn a_chunk_over_the_limit_empties_the_buffer() {
    let mut buffer = ReplayBuffer::new();
    buffer.push(b"old".to_vec());
    buffer.push(vec![b'x'; REPLAY_LIMIT_BYTES + 1]);
    assert!(buffer.tail_chunks(10).is_empty());
}

#[test]
fn replacing_forgets_what_was_held() {
    let mut buffer = ReplayBuffer::new();
    buffer.push(b"old".to_vec());
    buffer.replace(b"new".to_vec());
    assert_eq!(buffer.tail_chunks(10), vec![b"new".to_vec()]);
    buffer.push_all(&vec![b"er".to_vec(), b"!".to_vec()]);
    assert_eq!(buffer.tail_chunks(10).concat(), b"newer!".to_vec());
}
