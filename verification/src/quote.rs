//! The quoter: argument lists written out as one string.
//!
//! Joining puts a space between raw arguments and is for readers that will
//! not split the string again. Quoting wraps each argument so that a shell,
//! or the tokenizer of this library, reads the same arguments back.

use vstd::prelude::*;
use vstd::utf8::*;
use crate::text::{decode, DecodeError};

verus! {

/// How an argument is wrapped.
#[derive(Debug, Clone, Copy, PartialEq, Eq, Structural)]
pub enum QuoteStyle {
    /// In single quotes; a single quote inside is written `'\''`.
    Single,
    /// In double quotes; a double quote inside is written `\"`.
    Double,
}

/// The quote character of a style.
pub open spec fn quote_mark(style: QuoteStyle) -> char {
    match style {
        QuoteStyle::Single => '\'',
        QuoteStyle::Double => '"',
    }
}

/// What stands for the character `c` inside the quotes of `style`.
pub open spec fn escaped_char(c: char, style: QuoteStyle) -> Seq<char> {
    match style {
        QuoteStyle::Single => if c == '\'' {
            seq!['\'', '\\', '\'', '\'']
        } else {
            seq![c]
        },
        QuoteStyle::Double => if c == '"' {
            seq!['\\', '"']
        } else {
            seq![c]
        },
    }
}

/// What stands for the text `w` inside the quotes of `style`.
pub open spec fn escaped(w: Seq<char>, style: QuoteStyle) -> Seq<char>
    decreases w.len(),
{
    if w.len() == 0 {
        Seq::empty()
    } else {
        escaped_char(w[0], style) + escaped(w.skip(1), style)
    }
}

/// One argument, quoted.
pub open spec fn quoted(w: Seq<char>, style: QuoteStyle) -> Seq<char> {
    seq![quote_mark(style)] + escaped(w, style) + seq![quote_mark(style)]
}

/// Each argument of `ws` quoted, with a space before each.
pub open spec fn quoted_rest(ws: Seq<Seq<char>>, style: QuoteStyle) -> Seq<char>
    decreases ws.len(),
{
    if ws.len() == 0 {
        Seq::empty()
    } else {
        seq![' '] + quoted(ws[0], style) + quoted_rest(ws.skip(1), style)
    }
}

/// Each argument of `ws` quoted, with a space between neighbours.
pub open spec fn quoted_all(ws: Seq<Seq<char>>, style: QuoteStyle) -> Seq<char> {
    if ws.len() == 0 {
        Seq::empty()
    } else {
        quoted(ws[0], style) + quoted_rest(ws.skip(1), style)
    }
}

/// Each argument of `ws` as it stands, with the byte of a space before each.
pub open spec fn joined_rest(ws: Seq<Seq<u8>>) -> Seq<u8>
    decreases ws.len(),
{
    if ws.len() == 0 {
        Seq::empty()
    } else {
        seq![0x20u8] + ws[0] + joined_rest(ws.skip(1))
    }
}

/// Each argument of `ws` as it stands, with the byte of a space between
/// neighbours.
pub open spec fn joined(ws: Seq<Seq<u8>>) -> Seq<u8> {
    if ws.len() == 0 {
        Seq::empty()
    } else {
        ws[0] + joined_rest(ws.skip(1))
    }
}

/// The raw arguments as sequences of bytes.
pub open spec fn raw(args: Seq<Vec<u8>>) -> Seq<Seq<u8>> {
    Seq::new(args.len(), |i: int| args[i]@)
}

/// The raw arguments as the texts that they encode.
pub open spec fn decoded(args: Seq<Vec<u8>>) -> Seq<Seq<char>> {
    Seq::new(args.len(), |i: int| decode_utf8(args[i]@))
}

/// Every raw argument is well-formed UTF-8.
pub open spec fn all_text(args: Seq<Vec<u8>>) -> bool {
    forall|i: int| 0 <= i < args.len() ==> valid_utf8(#[trigger] args[i]@)
}

/// Writes `w`, quoted, at the end of `out`.
pub fn push_quoted(out: &mut String, w: &str, style: QuoteStyle)
    ensures
        final(out)@ == old(out)@ + quoted(w@, style),
{
    let mark = match style {
        QuoteStyle::Single => '\'',
        QuoteStyle::Double => '"',
    };
    out.push(mark);
    let ghost whole = old(out)@ + seq![mark] + escaped(w@, style);
    assert(w@.skip(0) =~= w@);
    for c in it: w.chars()
        invariant
            it.seq() == w@,
            mark == quote_mark(style),
            out@ + escaped(w@.skip(it.index()), style) == whole,
    {
        let ghost before = out@;
        let ghost tail = escaped(w@.skip(it.index() + 1), style);
        assert(w@.skip(it.index()).skip(1) =~= w@.skip(it.index() + 1));
        if c == mark {
            match style {
                QuoteStyle::Single => {
                    out.push('\'');
                    out.push('\\');
                    out.push('\'');
                    out.push('\'');
                },
                QuoteStyle::Double => {
                    out.push('\\');
                    out.push('"');
                },
            }
        } else {
            out.push(c);
        }
        assert(out@ + tail =~= before + (escaped_char(c, style) + tail));
    }
    out.push(mark);
    assert(out@ =~= whole + Seq::<char>::empty() + seq![mark]);
    assert(out@ =~= old(out)@ + quoted(w@, style));
}

/// The words, each quoted in `style`, with a space between neighbours.
pub fn quote_words(words: &Vec<String>, style: QuoteStyle) -> (r: String)
    ensures
        r@ == quoted_all(words.deep_view(), style),
{
    let ghost ws = words.deep_view();
    let mut out = String::new();
    let n: usize = words.len();
    let mut i: usize = 0;
    while i < n
        invariant
            i <= n,
            n == words.len(),
            ws == words.deep_view(),
            i == 0 ==> out@ == Seq::<char>::empty(),
            i > 0 ==> out@ + quoted_rest(ws.skip(i as int), style) == quoted_all(ws, style),
        decreases n - i,
    {
        let ghost before = out@;
        let ghost tail = quoted_rest(ws.skip(i as int + 1), style);
        assert(ws.skip(i as int).skip(1) =~= ws.skip(i as int + 1));
        assert(ws.skip(i as int)[0] == words[i as int]@);
        if i > 0 {
            out.push(' ');
        }
        push_quoted(&mut out, words[i].as_str(), style);
        proof {
            let q = quoted(words[i as int]@, style);
            if i > 0 {
                assert(out@ + tail =~= before + (seq![' '] + q + tail));
            } else {
                assert(out@ + tail =~= q + tail);
            }
        }
        i += 1;
    }
    assert(out@ + Seq::<char>::empty() =~= out@);
    out
}

/// The raw arguments, each decoded and quoted in `style`, with a space
/// between neighbours; an error where one of them is not text.
pub fn quote_args(args: &[Vec<u8>], style: QuoteStyle) -> (r: Result<String, DecodeError>)
    ensures
        r is Ok <==> all_text(args@),
        r matches Ok(s) ==> s@ == quoted_all(decoded(args@), style),
        r matches Err(e) ==> e == DecodeError::NotValidText,
{
    let ghost ws = decoded(args@);
    let mut out = String::new();
    let n: usize = args.len();
    let mut i: usize = 0;
    while i < n
        invariant
            i <= n,
            n == args.len(),
            ws == decoded(args@),
            forall|j: int| 0 <= j < i ==> valid_utf8(#[trigger] args[j]@),
            i == 0 ==> out@ == Seq::<char>::empty(),
            i > 0 ==> out@ + quoted_rest(ws.skip(i as int), style) == quoted_all(ws, style),
        decreases n - i,
    {
        let ghost before = out@;
        let ghost tail = quoted_rest(ws.skip(i as int + 1), style);
        assert(ws.skip(i as int).skip(1) =~= ws.skip(i as int + 1));
        assert(ws.skip(i as int)[0] == decode_utf8(args[i as int]@));
        match decode(args[i].as_slice()) {
            Err(e) => {
                return Err(e);
            },
            Ok(w) => {
                if i > 0 {
                    out.push(' ');
                }
                push_quoted(&mut out, w, style);
                proof {
                    let q = quoted(w@, style);
                    if i > 0 {
                        assert(out@ + tail =~= before + (seq![' '] + q + tail));
                    } else {
                        assert(out@ + tail =~= q + tail);
                    }
                }
            },
        }
        i += 1;
    }
    assert(out@ + Seq::<char>::empty() =~= out@);
    Ok(out)
}

/// The raw arguments in double quotes, for a shell to read back; an error
/// where one of them is not text.
pub fn quote_shell_args(args: &[Vec<u8>]) -> (r: Result<String, DecodeError>)
    ensures
        r is Ok <==> all_text(args@),
        r matches Ok(s) ==> s@ == quoted_all(decoded(args@), QuoteStyle::Double),
        r matches Err(e) ==> e == DecodeError::NotValidText,
{
    quote_args(args, QuoteStyle::Double)
}

/// The raw arguments as they stand, with a space between neighbours.
pub fn join_os_strings(args: &[Vec<u8>]) -> (r: Vec<u8>)
    ensures
        r@ == joined(raw(args@)),
{
    let ghost ws = raw(args@);
    let mut out: Vec<u8> = Vec::new();
    let n: usize = args.len();
    let mut i: usize = 0;
    while i < n
        invariant
            i <= n,
            n == args.len(),
            ws == raw(args@),
            i == 0 ==> out@ == Seq::<u8>::empty(),
            i > 0 ==> out@ + joined_rest(ws.skip(i as int)) == joined(ws),
        decreases n - i,
    {
        let ghost before = out@;
        let ghost tail = joined_rest(ws.skip(i as int + 1));
        assert(ws.skip(i as int).skip(1) =~= ws.skip(i as int + 1));
        assert(ws.skip(i as int)[0] == args[i as int]@);
        if i > 0 {
            out.push(0x20u8);
        }
        let ghost spaced = out@;
        let arg = &args[i];
        let m: usize = arg.len();
        let mut k: usize = 0;
        while k < m
            invariant
                k <= m,
                m == arg.len(),
                out@ == spaced + arg@.take(k as int),
            decreases m - k,
        {
            out.push(arg[k]);
            assert(arg@.take(k as int + 1) =~= arg@.take(k as int).push(arg@[k as int]));
            k += 1;
        }
        proof {
            assert(arg@.take(m as int) =~= arg@);
            if i > 0 {
                assert(out@ + tail =~= before + (seq![0x20u8] + arg@ + tail));
            } else {
                assert(out@ + tail =~= arg@ + tail);
            }
        }
        i += 1;
    }
    assert(out@ + Seq::<u8>::empty() =~= out@);
    out
}

} // verus!
