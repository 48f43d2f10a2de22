//! Quoting and tokenizing are inverse to each other.

use vstd::prelude::*;
use crate::quote::{escaped, escaped_char, quote_mark, quoted, quoted_all, quoted_rest, QuoteStyle};
use crate::words::{diagnostics, scan, scan_diagnostics, skip_spaces, words, Diagnostic, Scan};

verus! {

/// The words that a style can carry: all of them in single quotes; in double
/// quotes those without a double quote, since the tokenizer takes a backslash
/// inside quotes as it stands.
pub open spec fn representable(w: Seq<char>, style: QuoteStyle) -> bool {
    style == QuoteStyle::Double ==> forall|i: int| 0 <= i < w.len() ==> w[i] != '"'
}

/// What is left of `t` once the separator at its front, if any, is taken.
pub open spec fn after_separator(t: Seq<char>) -> Seq<char> {
    if t.len() == 0 {
        t
    } else {
        t.skip(1)
    }
}

/// A reader inside the quotes of `style`, standing before the escaped form of
/// `w`, the closing quote and then the end or a space, reads exactly `w`.
proof fn lemma_scan_inside(w: Seq<char>, style: QuoteStyle, t: Seq<char>)
    requires
        representable(w, style),
        t.len() == 0 || t[0] == ' ',
    ensures
        scan(escaped(w, style) + seq![quote_mark(style)] + t, Some(quote_mark(style))) == (Scan {
            word: w,
            rest: after_separator(t),
            unclosed: false,
            dangling: false,
        }),
    decreases w.len(),
{
    let q = quote_mark(style);
    let s = escaped(w, style) + seq![q] + t;
    let got = scan(s, Some(q));
    if w.len() == 0 {
        assert(s.skip(1) =~= t);
        assert(got == scan(t, None));
        assert(got.word =~= w);
    } else {
        let c = w[0];
        let v = w.skip(1);
        let x = escaped(v, style) + seq![q] + t;
        assert(representable(v, style)) by {
            assert forall|i: int| 0 <= i < v.len() implies v[i] == w[i + 1] by {}
        }
        lemma_scan_inside(v, style, t);
        if c == q {
            assert(style == QuoteStyle::Single);
            assert(s =~= seq!['\'', '\\', '\'', '\''] + x);
            let s1 = s.skip(1);
            assert(s1 =~= seq!['\\', '\'', '\''] + x);
            assert(got == scan(s1, None));
            let s3 = s1.skip(2);
            assert(s3 =~= seq!['\''] + x);
            assert(scan(s1, None).word == seq!['\''] + scan(s3, None).word);
            assert(s3.skip(1) =~= x);
            assert(scan(s3, None) == scan(x, Some('\'')));
            assert(got.word =~= w);
        } else {
            assert(escaped_char(c, style) == seq![c]);
            assert(s =~= seq![c] + x);
            assert(s.skip(1) =~= x);
            assert(got.word == seq![c] + scan(x, Some(q)).word);
            assert(got.word =~= w);
        }
    }
}

/// A quoted argument is read back as one word, the argument itself: a reader
/// outside quotes, standing before it and then the end or a space, reads
/// exactly the argument and reports nothing.
pub proof fn lemma_scan_quoted(w: Seq<char>, style: QuoteStyle, t: Seq<char>)
    requires
        representable(w, style),
        t.len() == 0 || t[0] == ' ',
    ensures
        scan(quoted(w, style) + t, None) == (Scan {
            word: w,
            rest: after_separator(t),
            unclosed: false,
            dangling: false,
        }),
{
    let q = quote_mark(style);
    let s = quoted(w, style) + t;
    lemma_scan_inside(w, style, t);
    assert(s[0] == q);
    assert(s.skip(1) =~= escaped(w, style) + seq![q] + t);
    assert(scan(s, None) == scan(s.skip(1), Some(q)));
}

/// Tokenizing what the quoter wrote gives back the words that were quoted,
/// with no diagnostic: in single quotes for every list of words, in double
/// quotes for every list whose words hold no double quote.
pub proof fn lemma_round_trip(ws: Seq<Seq<char>>, style: QuoteStyle)
    requires
        forall|i: int| 0 <= i < ws.len() ==> representable(#[trigger] ws[i], style),
    ensures
        words(quoted_all(ws, style)) == ws,
        diagnostics(quoted_all(ws, style)) == Seq::<Diagnostic>::empty(),
    decreases ws.len(),
{
    let s = quoted_all(ws, style);
    if ws.len() == 0 {
        assert(words(s) =~= ws);
    } else {
        let rest = ws.skip(1);
        let t = quoted_rest(rest, style);
        assert(forall|i: int| 0 <= i < rest.len() ==> rest[i] == ws[i + 1]);
        lemma_scan_quoted(ws[0], style, t);
        lemma_round_trip(rest, style);
        assert(s[0] == quote_mark(style));
        assert(skip_spaces(s) == s);
        let r = scan(s, None);
        assert(r.rest =~= quoted_all(rest, style)) by {
            if rest.len() > 0 {
                assert(t.skip(1) =~= quoted(rest[0], style) + quoted_rest(rest.skip(1), style));
            }
        }
        assert(scan_diagnostics(r) =~= Seq::<Diagnostic>::empty());
        assert(words(s) == seq![r.word] + words(r.rest));
        assert(diagnostics(s) == scan_diagnostics(r) + diagnostics(r.rest));
        assert(words(s) =~= ws);
        assert(diagnostics(s) =~= Seq::<Diagnostic>::empty());
    }
}

/// The law for single quotes, which carry every word.
pub proof fn lemma_single_quote_round_trip(ws: Seq<Seq<char>>)
    ensures
        words(quoted_all(ws, QuoteStyle::Single)) == ws,
        diagnostics(quoted_all(ws, QuoteStyle::Single)) == Seq::<Diagnostic>::empty(),
{
    lemma_round_trip(ws, QuoteStyle::Single);
}

/// The law for double quotes, which carry the words without a double quote.
pub proof fn lemma_double_quote_round_trip(ws: Seq<Seq<char>>)
    requires
        forall|i: int, j: int| 0 <= i < ws.len() && 0 <= j < ws[i].len() ==> ws[i][j] != '"',
    ensures
        words(quoted_all(ws, QuoteStyle::Double)) == ws,
        diagnostics(quoted_all(ws, QuoteStyle::Double)) == Seq::<Diagnostic>::empty(),
{
    lemma_round_trip(ws, QuoteStyle::Double);
}

} // verus!
