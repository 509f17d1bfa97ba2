use anakin::cmdline::command_line_display;
use anakin::quote::bash_quote;

#[test]
fn bare_word_is_left_alone() {
    assert_eq!(bash_quote("abc-DEF_09+/.="), "abc-DEF_09+/.=");
}

#[test]
fn empty_word_is_left_alone() {
    assert_eq!(bash_quote(""), "");
}

#[test]
fn word_with_space_gets_single_quotes() {
    assert_eq!(bash_quote("a b"), "'a b'");
    assert_eq!(bash_quote("$HOME"), "'$HOME'");
}

#[test]
fn word_with_single_quote_gets_double_quotes() {
    assert_eq!(bash_quote("it's"), "\"it's\"");
}

#[test]
fn double_quoted_word_escapes_special_characters() {
    assert_eq!(bash_quote("a'$b`c\\d!e\"f"), "\"a'\\$b\\`c\\\\d\\!e\\\"f\"");
}

#[test]
fn non_ascii_word_is_quoted() {
    assert_eq!(bash_quote("héllo"), "'héllo'");
}

#[test]
fn command_line_is_quoted_and_joined() {
    assert_eq!(command_line_display("ls\0-l\0a b\0"), "ls -l 'a b'");
}

#[test]
fn command_line_without_terminator_keeps_last_argument() {
    assert_eq!(command_line_display("sleep\x0010"), "sleep 10");
}

#[test]
fn empty_command_line_shows_nothing() {
    assert_eq!(command_line_display(""), "");
}

#[test]
fn empty_argument_is_kept() {
    assert_eq!(command_line_display("a\0\0"), "a ");
    assert_eq!(command_line_display("\0"), "");
}
