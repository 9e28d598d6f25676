use webterminal::quote::{shell_escape, tmux_quote, tmux_target_arg};

#[test]
fn plain_words_are_left_as_they_are() {
    assert_eq!(shell_escape("wt-0.1_a/B:c@d=e"), "wt-0.1_a/B:c@d=e");
    assert_eq!(shell_escape(""), "");
}

#[test]
fn other_words_are_quoted() {
    assert_eq!(shell_escape("a b"), "'a b'");
    assert_eq!(shell_escape("it's"), "'it'\\''s'");
    assert_eq!(shell_escape("$HOME"), "'$HOME'");
    assert_eq!(shell_escape("a\\b"), "'a\\b'");
    assert_eq!(shell_escape("\u{e9}"), "'\u{e9}'");
    assert_eq!(shell_escape("+"), "'+'");
}

#[test]
fn tmux_words_are_always_quoted_and_double_backslashes() {
    assert_eq!(tmux_quote("%1"), "'%1'");
    assert_eq!(tmux_quote(""), "''");
    assert_eq!(tmux_quote("a\\b'c"), "'a\\\\b'\\''c'");
    assert_ne!(tmux_quote("a\\b"), tmux_quote("a\\\\b"));
    assert!(!tmux_quote("one line").contains('\n'));
}

#[test]
fn targets_are_optional() {
    assert_eq!(tmux_target_arg(None), "");
    assert_eq!(tmux_target_arg(Some("'%1'")), " -t '%1'");
}
