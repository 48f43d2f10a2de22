use cargo_exec::text::{is_whitespace, DecodeError};
use cargo_exec::words::{parse_shell_words, split_words, Diagnostic, ShellWords};

fn strings(items: &[&str]) -> Vec<String> {
    items.iter().map(|s| s.to_string()).collect()
}

#[test]
fn whitespace_quotes_and_escapes() {
    let (words, diagnostics) = split_words("  a  'b c'  d\\ e ");
    assert_eq!(words, strings(&["a", "b c", "d e"]));
    assert!(diagnostics.is_empty());
}

#[test]
fn unterminated_quote_keeps_the_words() {
    let (words, diagnostics) = split_words("a 'unterminated");
    assert_eq!(words, strings(&["a", "unterminated"]));
    assert_eq!(diagnostics, vec![Diagnostic::UnclosedQuote]);
}

#[test]
fn dangling_escape_is_dropped() {
    let (words, diagnostics) = split_words("a b\\");
    assert_eq!(words, strings(&["a", "b"]));
    assert_eq!(diagnostics, vec![Diagnostic::DanglingEscape]);
}

#[test]
fn lone_backslash_gives_an_empty_word() {
    let (words, diagnostics) = split_words("\\");
    assert_eq!(words, strings(&[""]));
    assert_eq!(diagnostics, vec![Diagnostic::DanglingEscape]);
}

#[test]
fn empty_and_blank_input_give_no_words() {
    assert_eq!(split_words(""), (Vec::<String>::new(), Vec::<Diagnostic>::new()));
    assert_eq!(split_words(" \t\n  "), (Vec::<String>::new(), Vec::<Diagnostic>::new()));
}

#[test]
fn empty_quotes_give_an_empty_word() {
    let (words, diagnostics) = split_words("a '' \"\" b");
    assert_eq!(words, strings(&["a", "", "", "b"]));
    assert!(diagnostics.is_empty());
}

#[test]
fn backslash_inside_quotes_is_literal() {
    let (words, diagnostics) = split_words("'a\\b' \"c\\d\"");
    assert_eq!(words, strings(&["a\\b", "c\\d"]));
    assert!(diagnostics.is_empty());
}

#[test]
fn backslash_does_not_keep_a_quote_open() {
    let (words, diagnostics) = split_words("\"a\\\"b\"");
    assert_eq!(words, strings(&["a\\b"]));
    assert_eq!(diagnostics, vec![Diagnostic::UnclosedQuote]);
}

#[test]
fn escaped_quote_outside_quotes_is_literal() {
    let (words, diagnostics) = split_words("it\\'s \\\"x\\\" \\\\");
    assert_eq!(words, strings(&["it's", "\"x\"", "\\"]));
    assert!(diagnostics.is_empty());
}

#[test]
fn quote_of_the_other_kind_is_literal_inside_quotes() {
    let (words, _) = split_words("\"it's\" 'say \"hi\"'");
    assert_eq!(words, strings(&["it's", "say \"hi\""]));
}

#[test]
fn adjacent_regions_make_one_word() {
    let (words, _) = split_words("a'b c'\"d e\"f g");
    assert_eq!(words, strings(&["ab cd ef", "g"]));
}

#[test]
fn unicode_whitespace_separates_words() {
    let (words, _) = split_words("a\u{3000}b\u{a0}c\u{2003}d");
    assert_eq!(words, strings(&["a", "b", "c", "d"]));
}

#[test]
fn non_ascii_text_is_kept() {
    let (words, _) = split_words("héllo 'wörld ✓'");
    assert_eq!(words, strings(&["héllo", "wörld ✓"]));
}

#[test]
fn whitespace_is_the_unicode_property() {
    for n in 0u32..=0x10FFFF {
        if let Some(c) = char::from_u32(n) {
            assert_eq!(is_whitespace(c), c.is_whitespace(), "U+{:04X}", n);
        }
    }
}

#[test]
fn words_come_one_at_a_time() {
    let mut reader = ShellWords::new("one 'two three' four\\");
    assert_eq!(reader.next(), Some("one".to_string()));
    assert!(reader.diagnostics().is_empty());
    assert_eq!(reader.next(), Some("two three".to_string()));
    assert_eq!(reader.next(), Some("four".to_string()));
    assert_eq!(reader.diagnostics(), &vec![Diagnostic::DanglingEscape]);
    assert_eq!(reader.next(), None);
    assert_eq!(reader.next(), None);
    assert_eq!(reader.diagnostics(), &vec![Diagnostic::DanglingEscape]);
}

#[test]
fn stopping_early_reports_only_what_was_read() {
    let mut reader = ShellWords::new("first 'second");
    assert_eq!(reader.next(), Some("first".to_string()));
    assert!(reader.diagnostics().is_empty());
}

#[test]
fn raw_argument_is_decoded_before_splitting() {
    let mut reader = parse_shell_words("caf\u{e9} 'a b'".as_bytes()).ok().unwrap();
    assert_eq!(reader.next(), Some("caf\u{e9}".to_string()));
    assert_eq!(reader.next(), Some("a b".to_string()));
    assert_eq!(reader.next(), None);
}

#[test]
fn raw_argument_that_is_no_text_is_rejected() {
    let r = parse_shell_words(&[b'a', 0xff, b'b']);
    assert!(matches!(r, Err(DecodeError::NotValidText)));
    let r = parse_shell_words(&[0xc3]);
    assert!(matches!(r, Err(DecodeError::NotValidText)));
}

#[test]
fn remaining_words_after_the_first() {
    let mut reader = ShellWords::new("cmd 'a b' c\\ d 'open");
    assert_eq!(reader.next(), Some("cmd".to_string()));
    let (words, diagnostics) = reader.into_words();
    assert_eq!(words, strings(&["a b", "c d", "open"]));
    assert_eq!(diagnostics, vec![Diagnostic::UnclosedQuote]);
}

#[test]
fn diagnostics_of_earlier_words_are_kept() {
    let mut reader = ShellWords::new("'open");
    assert_eq!(reader.next(), Some("open".to_string()));
    let (words, diagnostics) = reader.into_words();
    assert!(words.is_empty());
    assert_eq!(diagnostics, vec![Diagnostic::UnclosedQuote]);
}

#[test]
fn messages() {
    assert_eq!(Diagnostic::UnclosedQuote.message(), "unclosed quote ignored");
    assert_eq!(Diagnostic::DanglingEscape.message(), "dangling escape omitted");
    assert_eq!(DecodeError::NotValidText.message(), "argument not valid UTF-8");
}
