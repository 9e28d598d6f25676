use webterminal::order::sort_by_place;
use webterminal::panes::TmuxPane;
use webterminal::table::{reversed, text_order, TextMap, TextOrder, TextSet};
use webterminal::text::{
    alphanumeric, ascii_space, byte_position, bytes_between, parse_u16, parse_unsigned,
    push_decimal, same_text, split_text, text_after_last, text_contains, text_strip_prefix, trim,
    white_space,
};

fn all_chars() -> impl Iterator<Item = char> {
    (0u32..=0x10ffff).filter_map(char::from_u32)
}

#[test]
fn white_space_is_unicode_white_space() {
    for c in all_chars() {
        assert_eq!(white_space(c), c.is_whitespace(), "{:x}", c as u32);
    }
}

#[test]
fn ascii_classes_agree_with_std() {
    for c in all_chars() {
        assert_eq!(ascii_space(c), c.is_ascii_whitespace());
        assert_eq!(alphanumeric(c), c.is_ascii_alphanumeric());
    }
}

#[test]
fn trimming_agrees_with_std() {
    for s in ["", " ", "a", " a ", "\u{3000}x y\u{85}\n", "\u{200b} z", "\t\r\n"] {
        assert_eq!(trim(s), s.trim());
    }
}

#[test]
fn splitting_agrees_with_std() {
    for s in ["", "a", "a\tb", "a\t\tb\tc", "\t", "a\tb\tc\td\te"] {
        for n in 1usize..5 {
            let expected: Vec<String> = s.splitn(n, '\t').map(|p| p.to_string()).collect();
            assert_eq!(split_text(s, n, '\t'), expected);
        }
    }
}

#[test]
fn last_piece_agrees_with_std() {
    for s in ["", "vim", "/usr/bin/vim", "a/", "/", "é/ü"] {
        assert_eq!(text_after_last(s, '/'), s.rsplit('/').next().unwrap());
    }
}

#[test]
fn numbers_are_read_as_std_reads_them() {
    let samples = [
        "", "0", "7", "+7", "-1", "+", "++1", "007", " 1", "1 ", "1a", "65535", "65536",
        "18446744073709551615", "18446744073709551616", "99999999999999999999999", "\u{663}",
    ];
    for s in samples {
        assert_eq!(parse_unsigned(s, u64::MAX), s.parse::<u64>().ok(), "{s}");
        assert_eq!(parse_u16(s), s.parse::<u16>().ok(), "{s}");
    }
}

#[test]
fn decimals_are_written_and_read_back() {
    for n in [0u64, 9, 10, 4242, 65535, u64::MAX] {
        let mut out = String::from("n=");
        push_decimal(&mut out, n);
        assert_eq!(out, format!("n={n}"));
        assert_eq!(parse_unsigned(&out[2..], u64::MAX), Some(n));
    }
}

#[test]
fn searching_agrees_with_std() {
    assert!(text_contains("ssh -tt 'tmux new'", "tmux"));
    assert!(!text_contains("tmu x", "tmux"));
    assert!(text_contains("x", ""));
    assert_eq!(text_strip_prefix("WT_DONE\t7", "WT_DONE\t"), Some("7".to_string()));
    assert_eq!(text_strip_prefix("WT_DON", "WT_DONE\t"), None);
    assert_eq!(byte_position(b"abc\nd\n", b'\n'), Some(3));
    assert_eq!(byte_position(b"abc", b'\n'), None);
    assert_eq!(bytes_between(b"abcdef", 2, 4), b"cd".to_vec());
    assert!(same_text("pane", "pane"));
    assert!(!same_text("pane", "panes"));
}

#[test]
fn texts_are_ordered_as_std_orders_strings() {
    let samples = ["", "%1", "%10", "%2", "@0", "a", "ab", "\u{e9}", "\u{10000}", "\u{ffff}"];
    for a in samples {
        for b in samples {
            let expected = a < b;
            assert_eq!(matches!(text_order(a, b), TextOrder::Before), expected, "{a} {b}");
            assert_eq!(matches!(text_order(a, b), TextOrder::Same), a == b);
        }
    }
}

#[test]
fn text_maps_keep_their_keys_in_order() {
    let mut map: TextMap<String> = TextMap::new();
    assert!(map.is_empty());
    map.insert("%2".to_string(), "two".to_string());
    map.insert("%10".to_string(), "ten".to_string());
    map.insert("%1".to_string(), "one".to_string());
    map.insert("%2".to_string(), "TWO".to_string());
    assert_eq!(map.len(), 3);
    assert_eq!(map.get("%2"), Some(&"TWO".to_string()));
    assert!(!map.contains_key("%3"));
    assert_eq!(map.remove("%3"), None);
    let copy = map.copy();
    assert_eq!(copy.into_values(), vec!["one", "ten", "TWO"]);
    let mut keep = TextSet::new();
    keep.insert("%10".to_string());
    keep.insert("%3".to_string());
    map.retain(&keep);
    assert_eq!(map.len(), 1);
    assert_eq!(map.remove("%10"), Some("ten".to_string()));
    assert!(map.is_empty());
    assert!(keep.contains("%3"));
    assert!(keep.remove("%3"));
    assert!(!keep.remove("%3"));
}

fn pane(id: &str, index: Option<u16>) -> TmuxPane {
    TmuxPane {
        id: id.to_string(),
        window_id: "@1".to_string(),
        index,
        active: false,
        current_command: String::new(),
        current_path: String::new(),
        note: None,
        left: None,
        top: None,
        width: None,
        height: None,
    }
}

#[test]
fn sorting_is_stable_and_puts_the_unplaced_last() {
    let list = vec![
        pane("a", None),
        pane("b", Some(2)),
        pane("c", Some(0)),
        pane("d", Some(2)),
        pane("e", Some(u16::MAX)),
        pane("f", Some(1)),
    ];
    let ids: Vec<String> = sort_by_place(list).into_iter().map(|p| p.id).collect();
    assert_eq!(ids, vec!["c", "f", "b", "d", "a", "e"]);
}

#[test]
fn reversing_turns_a_list_around() {
    assert_eq!(reversed(vec![1u8, 2, 3]), vec![3u8, 2, 1]);
    assert_eq!(reversed(Vec::<u8>::new()), Vec::<u8>::new());
}
