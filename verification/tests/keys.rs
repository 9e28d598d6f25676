use webterminal::keys::{encode_tmux_control_input, encode_tmux_control_paste, flush_tmux_literal};

fn typed(data: &[u8]) -> String {
    String::from_utf8(encode_tmux_control_input("%1", data)).unwrap()
}

fn pasted(data: &[u8]) -> String {
    String::from_utf8(encode_tmux_control_paste("%1", data)).unwrap()
}

#[test]
fn plain_text_is_one_literal() {
    assert_eq!(typed(b"echo hi"), "send-keys -t %1 -l -- 'echo hi'\n");
    assert_eq!(typed(b""), "");
    assert_eq!(typed("\u{e9}'\\".as_bytes()), "send-keys -t %1 -l -- '\u{e9}'\\''\\\\'\n");
}

#[test]
fn control_characters_are_keys() {
    assert_eq!(
        typed(b"ls\r"),
        "send-keys -t %1 -l -- 'ls'\nsend-keys -t %1 Enter\n"
    );
    assert_eq!(typed(b"\n"), "send-keys -t %1 Enter\n");
    assert_eq!(typed(b"\t"), "send-keys -t %1 Tab\n");
    assert_eq!(typed(b"\x7f\x08"), "send-keys -t %1 BSpace\nsend-keys -t %1 BSpace\n");
    assert_eq!(typed(b"\x03\x04"), "send-keys -t %1 C-c\nsend-keys -t %1 C-d\n");
    assert_eq!(typed(b"\x1b"), "send-keys -t %1 Escape\n");
}

#[test]
fn control_sequences_are_keys() {
    let cases = [
        ("A", "Up"),
        ("B", "Down"),
        ("C", "Right"),
        ("D", "Left"),
        ("H", "Home"),
        ("1~", "Home"),
        ("7~", "Home"),
        ("F", "End"),
        ("4~", "End"),
        ("8~", "End"),
        ("3~", "DC"),
        ("5~", "PPage"),
        ("6~", "NPage"),
    ];
    for (sequence, key) in cases {
        let input = format!("\x1b[{sequence}");
        assert_eq!(typed(input.as_bytes()), format!("send-keys -t %1 {key}\n"), "{sequence}");
    }
}

#[test]
fn unknown_sequences_are_dropped_and_break_the_literal() {
    assert_eq!(
        typed(b"a\x1b[200~b\x1b[1;5Cc"),
        "send-keys -t %1 -l -- 'a'\nsend-keys -t %1 -l -- 'b'\nsend-keys -t %1 -l -- 'c'\n"
    );
    assert_eq!(typed(b"\x1b[2~"), "");
}

#[test]
fn unfinished_sequences_are_the_escape_key() {
    assert_eq!(
        typed(b"\x1b[1"),
        "send-keys -t %1 Escape\nsend-keys -t %1 -l -- '[1'\n"
    );
    assert_eq!(
        typed(b"\x1b["),
        "send-keys -t %1 Escape\nsend-keys -t %1 -l -- '['\n"
    );
}

#[test]
fn invalid_utf8_is_replaced() {
    assert_eq!(typed(b"a\xffb"), "send-keys -t %1 -l -- 'a\u{fffd}b'\n");
    assert!(pasted(b"\xc3").contains('\u{fffd}'));
}

#[test]
fn input_only_sends_keys() {
    let commands = typed(b"x\nkill-server\r\x1b[Ay'\n");
    for line in commands.lines() {
        assert!(line.starts_with("send-keys -t %1 "), "{line}");
    }
}

#[test]
fn pastes_are_bracketed() {
    assert_eq!(
        pasted(b"a\r\nb\tc"),
        "send-keys -t %1 Escape\n\
         send-keys -t %1 -l -- '[200~'\n\
         send-keys -t %1 -l -- 'a'\n\
         send-keys -t %1 Enter\n\
         send-keys -t %1 -l -- 'b'\n\
         send-keys -t %1 Tab\n\
         send-keys -t %1 -l -- 'c'\n\
         send-keys -t %1 Escape\n\
         send-keys -t %1 -l -- '[201~'\n"
    );
}

#[test]
fn long_pastes_are_cut_by_bytes() {
    let literals = |data: &[u8]| -> Vec<usize> {
        pasted(data)
            .lines()
            .filter(|line| line.contains("-l -- ") && !line.contains("[20"))
            .map(|line| line.len() - "send-keys -t %1 -l -- ''".len())
            .collect()
    };
    assert_eq!(literals(&[b'x'; 5000]), vec![2048, 2048, 904]);
    assert_eq!(literals(&[b'x'; 2048]), vec![2048]);
    let accents = "\u{e9}".repeat(1500);
    assert_eq!(literals(accents.as_bytes()), vec![2048, 952]);
    let shifted = format!("x{accents}");
    assert_eq!(literals(shifted.as_bytes()), vec![2049, 952]);
}

#[test]
fn flushing_empties_the_literal() {
    let mut commands = String::from("-");
    let mut literal = String::from("a b");
    flush_tmux_literal(&mut commands, "%2", &mut literal);
    assert_eq!(commands, "-send-keys -t %2 -l -- 'a b'\n");
    assert_eq!(literal, "");
    flush_tmux_literal(&mut commands, "%2", &mut literal);
    assert_eq!(commands, "-send-keys -t %2 -l -- 'a b'\n");
}
