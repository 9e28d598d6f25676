use webterminal::wire::{
    decode_tmux_escaped_bytes, is_tmux_structure_event, line_starts_with, parse_tmux_output_line,
    should_capture_pane_snapshot, split_output_line, strip_tmux_control_wrappers,
};

#[test]
fn control_wrappers_are_stripped() {
    assert_eq!(
        strip_tmux_control_wrappers(b"a\x1bP1000pb\x1b\\c\x1b[0md"),
        b"abc\x1b[0md".to_vec()
    );
    assert_eq!(strip_tmux_control_wrappers(b"\x1bP1000"), b"\x1bP1000".to_vec());
    assert_eq!(strip_tmux_control_wrappers(b"password: "), b"password: ".to_vec());
    assert!(strip_tmux_control_wrappers(b"\x1bP1000p\x1b\\").is_empty());
}

#[test]
fn escapes_are_decoded() {
    assert_eq!(decode_tmux_escaped_bytes(b"\\033[1mhi\\015\\012"), b"\x1b[1mhi\r\n".to_vec());
    assert_eq!(decode_tmux_escaped_bytes(b"a\\134b"), b"a\\b".to_vec());
    assert_eq!(decode_tmux_escaped_bytes(b"\\\\x"), b"\\x".to_vec());
    assert_eq!(decode_tmux_escaped_bytes(b"\\08"), b"08".to_vec());
    assert_eq!(decode_tmux_escaped_bytes(b"\\0189"), b"0189".to_vec());
    assert_eq!(decode_tmux_escaped_bytes(b"end\\"), b"end\\".to_vec());
    assert_eq!(decode_tmux_escaped_bytes(b"\\303\\251"), "\u{e9}".as_bytes().to_vec());
}

#[test]
fn escaped_output_is_read_back() {
    let output: Vec<u8> = (0u8..=255).collect();
    let mut escaped = Vec::new();
    for b in &output {
        if *b < 32 || *b == b'\\' {
            escaped.extend_from_slice(format!("\\{b:03o}").as_bytes());
        } else {
            escaped.push(*b);
        }
    }
    assert_eq!(decode_tmux_escaped_bytes(&escaped), output);
}

#[test]
fn output_lines_name_their_pane() {
    let (pane, payload) = parse_tmux_output_line(b"%output %1 hello  world").unwrap();
    assert_eq!(pane, "%1");
    assert_eq!(payload, b"hello  world");
    let (pane, payload) = parse_tmux_output_line(b"%extended-output %2 100 : a: b").unwrap();
    assert_eq!(pane, "%2");
    assert_eq!(payload, b"a: b");
    let (pane, _) = parse_tmux_output_line(b"%output \xff x").unwrap();
    assert_eq!(pane, "\u{fffd}");
}

#[test]
fn other_lines_carry_no_output() {
    assert!(parse_tmux_output_line(b"%output %1").is_none());
    assert!(parse_tmux_output_line(b"%extended-output %2 100").is_none());
    assert!(parse_tmux_output_line(b"%begin 1 2 3").is_none());
    assert!(parse_tmux_output_line(b"output %1 x").is_none());
    let (pane, payload) = split_output_line(b"%output %3 ").unwrap();
    assert_eq!(pane, b"%3");
    assert!(payload.is_empty());
}

#[test]
fn structure_events_are_told_apart() {
    for line in ["%window-add @1", "%layout-change @1 x", "%pane-mode-changed %1", "%session-changed $1 a"] {
        assert!(is_tmux_structure_event(line.as_bytes()), "{line}");
    }
    for line in ["%output %1 x", "%begin 1", "window-add", "%exit", "%windo"] {
        assert!(!is_tmux_structure_event(line.as_bytes()), "{line}");
    }
    assert!(line_starts_with(b"%end 1", "%end "));
    assert!(!line_starts_with(b"%end", "%end "));
}

#[test]
fn full_screen_programs_are_not_captured() {
    for command in [
        "vi", "vim", "nvim", "view", "less", "more", "man", "top", "htop", "btop", "nano", "emacs",
        "scp", "sftp", "/usr/bin/vim",
    ] {
        assert!(!should_capture_pane_snapshot(command), "{command}");
    }
    for command in ["bash", "zsh", "", "vim ", "vimdiff", "/bin/sh", "vim/"] {
        assert!(should_capture_pane_snapshot(command), "{command}");
    }
}
