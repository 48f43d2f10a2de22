use cargo_exec::quote::{join_os_strings, quote_args, quote_shell_args, quote_words, push_quoted, QuoteStyle};
use cargo_exec::text::DecodeError;
use cargo_exec::words::{split_words, Diagnostic};

fn raw(items: &[&str]) -> Vec<Vec<u8>> {
    items.iter().map(|s| s.as_bytes().to_vec()).collect()
}

fn owned(items: &[&str]) -> Vec<String> {
    items.iter().map(|s| s.to_string()).collect()
}

#[test]
fn double_quotes_escape_double_quotes() {
    let r = quote_shell_args(&raw(&["a", "b c", "d\"e"]));
    assert_eq!(r, Ok("\"a\" \"b c\" \"d\\\"e\"".to_string()));
}

#[test]
fn double_quotes_leave_other_characters() {
    let r = quote_args(&raw(&["it's", "a\\b", "$X"]), QuoteStyle::Double);
    assert_eq!(r, Ok("\"it's\" \"a\\b\" \"$X\"".to_string()));
}

#[test]
fn single_quotes_close_escape_and_reopen() {
    let r = quote_args(&raw(&["it's", "plain", "'"]), QuoteStyle::Single);
    assert_eq!(r, Ok("'it'\\''s' 'plain' ''\\'''".to_string()));
}

#[test]
fn single_quotes_leave_double_quotes() {
    let r = quote_args(&raw(&["say \"hi\""]), QuoteStyle::Single);
    assert_eq!(r, Ok("'say \"hi\"'".to_string()));
}

#[test]
fn no_arguments_quote_to_nothing() {
    assert_eq!(quote_shell_args(&Vec::new()), Ok(String::new()));
    assert_eq!(quote_args(&Vec::new(), QuoteStyle::Single), Ok(String::new()));
    assert_eq!(quote_words(&Vec::new(), QuoteStyle::Single), String::new());
}

#[test]
fn empty_argument_is_a_pair_of_quotes() {
    assert_eq!(quote_shell_args(&raw(&["", "a", ""])), Ok("\"\" \"a\" \"\"".to_string()));
    assert_eq!(quote_args(&raw(&[""]), QuoteStyle::Single), Ok("''".to_string()));
}

#[test]
fn argument_that_is_no_text_fails_the_quoting() {
    let args = vec![b"ok".to_vec(), vec![b'a', 0xff], b"later".to_vec()];
    assert_eq!(quote_shell_args(&args), Err(DecodeError::NotValidText));
    assert_eq!(quote_args(&args, QuoteStyle::Single), Err(DecodeError::NotValidText));
    assert_eq!(quote_args(&args, QuoteStyle::Double), Err(DecodeError::NotValidText));
}

#[test]
fn truncated_sequence_is_no_text() {
    let args = vec![vec![0xe2, 0x9c]];
    assert_eq!(quote_shell_args(&args), Err(DecodeError::NotValidText));
}

#[test]
fn non_ascii_arguments_are_decoded() {
    let r = quote_shell_args(&raw(&["caf\u{e9}", "\u{2713}"]));
    assert_eq!(r, Ok("\"caf\u{e9}\" \"\u{2713}\"".to_string()));
}

#[test]
fn push_quoted_appends() {
    let mut out = String::from("x=");
    push_quoted(&mut out, "a'b", QuoteStyle::Single);
    assert_eq!(out, "x='a'\\''b'");
    push_quoted(&mut out, "c\"d", QuoteStyle::Double);
    assert_eq!(out, "x='a'\\''b'\"c\\\"d\"");
}

#[test]
fn joining_puts_one_space_between() {
    assert_eq!(join_os_strings(&raw(&["a", "b c", "", "d"])), b"a b c  d".to_vec());
    assert_eq!(join_os_strings(&raw(&["only"])), b"only".to_vec());
    assert_eq!(join_os_strings(&Vec::new()), Vec::<u8>::new());
}

#[test]
fn joining_keeps_bytes_that_are_no_text() {
    let args = vec![vec![0xff, 0xfe], vec![b'x']];
    assert_eq!(join_os_strings(&args), vec![0xff, 0xfe, b' ', b'x']);
}

#[test]
fn joining_a_leading_empty_argument_keeps_the_space() {
    assert_eq!(join_os_strings(&raw(&["", "a"])), b" a".to_vec());
}

#[test]
fn single_quoted_words_read_back() {
    let words = owned(&["plain", "two words", "it's", "say \"hi\"", "back\\slash", "", "$HOME", "tab\there", "'", "caf\u{e9}"]);
    let text = quote_words(&words, QuoteStyle::Single);
    assert_eq!(split_words(&text), (words, Vec::<Diagnostic>::new()));
}

#[test]
fn double_quoted_words_read_back() {
    let words = owned(&["plain", "two words", "it's", "back\\slash", "", "$HOME", "end\\", "caf\u{e9}"]);
    let text = quote_words(&words, QuoteStyle::Double);
    assert_eq!(split_words(&text), (words, Vec::<Diagnostic>::new()));
}

#[test]
fn double_quoted_double_quote_does_not_read_back() {
    let words = owned(&["a\"b"]);
    let text = quote_words(&words, QuoteStyle::Double);
    assert_eq!(text, "\"a\\\"b\"");
    let (back, diagnostics) = split_words(&text);
    assert_eq!(back, owned(&["a\\b"]));
    assert_eq!(diagnostics, vec![Diagnostic::UnclosedQuote]);
}

#[test]
fn quoting_words_and_raw_arguments_agree() {
    let words = owned(&["a b", "c'd", "e\"f"]);
    let args = raw(&["a b", "c'd", "e\"f"]);
    assert_eq!(Ok(quote_words(&words, QuoteStyle::Single)), quote_args(&args, QuoteStyle::Single));
    assert_eq!(Ok(quote_words(&words, QuoteStyle::Double)), quote_args(&args, QuoteStyle::Double));
}
