//! The tokenizer: one string in, shell-style words out.
//!
//! Words are separated by unquoted whitespace. Outside quotes a backslash
//! makes the next character an ordinary one. A single or a double quote opens
//! a region that runs to the next quote of the same kind and is taken as it
//! stands, backslashes included. Input that ends inside a region, or right
//! after a backslash, still gives its word, and a diagnostic beside it.

use vstd::prelude::*;
use vstd::utf8::*;
use crate::text::{decode, is_space, is_whitespace, to_chars, DecodeError};

verus! {

/// What the tokenizer reports beside the words. Neither stops it.
#[derive(Debug, Clone, Copy, PartialEq, Eq, Structural)]
pub enum Diagnostic {
    /// The input ended inside a quoted region; the region was closed there.
    UnclosedQuote,
    /// The input ended right after a backslash; the backslash was dropped.
    DanglingEscape,
}

impl Diagnostic {
    /// The diagnostic in words.
    pub fn message(&self) -> (r: &'static str)
        ensures
            r@ == match *self {
                Diagnostic::UnclosedQuote => "unclosed quote ignored"@,
                Diagnostic::DanglingEscape => "dangling escape omitted"@,
            },
    {
        match self {
            Diagnostic::UnclosedQuote => "unclosed quote ignored",
            Diagnostic::DanglingEscape => "dangling escape omitted",
        }
    }
}

/// One word read off the front of a string.
pub ghost struct Scan {
    /// The word's characters.
    pub word: Seq<char>,
    /// What follows the word and the separator that ended it.
    pub rest: Seq<char>,
    /// The input ended inside a quoted region.
    pub unclosed: bool,
    /// The input ended right after a backslash.
    pub dangling: bool,
}

/// Reads one word off the front of `s`. `quote` is the quote character of the
/// region the reader stands in, if it stands in one.
pub open spec fn scan(s: Seq<char>, quote: Option<char>) -> Scan
    decreases s.len(),
{
    if s.len() == 0 {
        Scan { word: Seq::empty(), rest: s, unclosed: quote is Some, dangling: false }
    } else if let Some(q) = quote {
        if s[0] == q {
            scan(s.skip(1), None)
        } else {
            let r = scan(s.skip(1), quote);
            Scan { word: seq![s[0]] + r.word, ..r }
        }
    } else if s[0] == '\\' {
        if s.len() == 1 {
            Scan { word: Seq::empty(), rest: s.skip(1), unclosed: false, dangling: true }
        } else {
            let r = scan(s.skip(2), None);
            Scan { word: seq![s[1]] + r.word, ..r }
        }
    } else if s[0] == '\'' || s[0] == '"' {
        scan(s.skip(1), Some(s[0]))
    } else if is_space(s[0]) {
        Scan { word: Seq::empty(), rest: s.skip(1), unclosed: false, dangling: false }
    } else {
        let r = scan(s.skip(1), None);
        Scan { word: seq![s[0]] + r.word, ..r }
    }
}

/// `s` without its leading whitespace.
pub open spec fn skip_spaces(s: Seq<char>) -> Seq<char>
    decreases s.len(),
{
    if s.len() > 0 && is_space(s[0]) {
        skip_spaces(s.skip(1))
    } else {
        s
    }
}

/// The diagnostics that one word gives rise to, in the order of their report.
pub open spec fn scan_diagnostics(r: Scan) -> Seq<Diagnostic> {
    let unclosed = if r.unclosed {
        seq![Diagnostic::UnclosedQuote]
    } else {
        Seq::empty()
    };
    let dangling = if r.dangling {
        seq![Diagnostic::DanglingEscape]
    } else {
        Seq::empty()
    };
    unclosed + dangling
}

/// All the words of `s`.
pub open spec fn words(s: Seq<char>) -> Seq<Seq<char>>
    decreases s.len(),
{
    let t = skip_spaces(s);
    if t.len() == 0 {
        Seq::empty()
    } else {
        proof {
            lemma_skip_spaces_shorter(s);
            lemma_scan_consumes(t, None);
        }
        seq![scan(t, None).word] + words(scan(t, None).rest)
    }
}

/// All the diagnostics that tokenizing `s` to its end reports.
pub open spec fn diagnostics(s: Seq<char>) -> Seq<Diagnostic>
    decreases s.len(),
{
    let t = skip_spaces(s);
    if t.len() == 0 {
        Seq::empty()
    } else {
        proof {
            lemma_skip_spaces_shorter(s);
            lemma_scan_consumes(t, None);
        }
        scan_diagnostics(scan(t, None)) + diagnostics(scan(t, None).rest)
    }
}

/// Skipping whitespace never lengthens a string.
pub proof fn lemma_skip_spaces_shorter(s: Seq<char>)
    ensures
        skip_spaces(s).len() <= s.len(),
    decreases s.len(),
{
    if s.len() > 0 && is_space(s[0]) {
        lemma_skip_spaces_shorter(s.skip(1));
    }
}

/// Reading a word uses up input: at least one character of a non-empty
/// string, and never more than there is.
pub proof fn lemma_scan_consumes(s: Seq<char>, quote: Option<char>)
    ensures
        scan(s, quote).rest.len() <= s.len(),
        s.len() > 0 ==> scan(s, quote).rest.len() < s.len(),
    decreases s.len(),
{
    if s.len() == 0 {
    } else if let Some(q) = quote {
        if s[0] == q {
            lemma_scan_consumes(s.skip(1), None);
        } else {
            lemma_scan_consumes(s.skip(1), quote);
        }
    } else if s[0] == '\\' {
        if s.len() > 1 {
            lemma_scan_consumes(s.skip(2), None);
        }
    } else if s[0] == '\'' || s[0] == '"' {
        lemma_scan_consumes(s.skip(1), Some(s[0]));
    } else if is_space(s[0]) {
    } else {
        lemma_scan_consumes(s.skip(1), None);
    }
}

/// A tokenizer over one string. It hands out the words one at a time and
/// keeps the diagnostics of the words handed out so far.
pub struct ShellWords {
    chars: Vec<char>,
    pos: usize,
    diagnostics: Vec<Diagnostic>,
}

impl ShellWords {
    /// The position lies within the text.
    pub closed spec fn wf(&self) -> bool {
        self.pos <= self.chars.len()
    }

    /// The part of the input not yet read.
    pub closed spec fn remaining(&self) -> Seq<char> {
        self.chars@.skip(self.pos as int)
    }

    /// The diagnostics reported so far.
    pub closed spec fn reported(&self) -> Seq<Diagnostic> {
        self.diagnostics@
    }

    /// A tokenizer at the start of `s`.
    pub fn new(s: &str) -> (r: Self)
        ensures
            r.wf(),
            r.remaining() == s@,
            r.reported() == Seq::<Diagnostic>::empty(),
    {
        let chars = to_chars(s);
        assert(chars@.skip(0) =~= chars@);
        ShellWords { chars, pos: 0, diagnostics: Vec::new() }
    }

    /// The next word, or `None` once only whitespace or nothing is left.
    pub fn next(&mut self) -> (r: Option<String>)
        requires
            old(self).wf(),
        ensures
            final(self).wf(),
            match r {
                None => {
                    &&& skip_spaces(old(self).remaining()).len() == 0
                    &&& final(self).remaining().len() == 0
                    &&& final(self).reported() == old(self).reported()
                },
                Some(w) => {
                    let t = skip_spaces(old(self).remaining());
                    &&& t.len() > 0
                    &&& w@ == scan(t, None).word
                    &&& final(self).remaining() == scan(t, None).rest
                    &&& final(self).reported() == old(self).reported() + scan_diagnostics(
                        scan(t, None),
                    )
                },
            },
    {
        let n: usize = self.chars.len();
        while self.pos < n && is_whitespace(self.chars[self.pos])
            invariant
                self.pos <= n,
                n == self.chars.len(),
                self.chars == old(self).chars,
                self.diagnostics == old(self).diagnostics,
                skip_spaces(self.chars@.skip(self.pos as int)) == skip_spaces(
                    old(self).remaining(),
                ),
            decreases n - self.pos,
        {
            assert(self.chars@.skip(self.pos as int).skip(1) =~= self.chars@.skip(
                self.pos as int + 1,
            ));
            self.pos += 1;
        }
        if self.pos >= n {
            return None;
        }
        let ghost t = self.chars@.skip(self.pos as int);
        let mut word = String::new();
        let mut quote: Option<char> = None;
        let mut dangling = false;
        let mut finished = false;
        while !finished && self.pos < n
            invariant
                self.pos <= n,
                n == self.chars.len(),
                self.chars == old(self).chars,
                self.diagnostics == old(self).diagnostics,
                finished ==> quote is None && scan(t, None).word == word@ && scan(t, None).rest
                    == self.chars@.skip(self.pos as int) && !scan(t, None).unclosed && scan(
                    t,
                    None,
                ).dangling == dangling,
                !finished ==> !dangling && ({
                    let r = scan(self.chars@.skip(self.pos as int), quote);
                    &&& scan(t, None).word == word@ + r.word
                    &&& scan(t, None).rest == r.rest
                    &&& scan(t, None).unclosed == r.unclosed
                    &&& scan(t, None).dangling == r.dangling
                }),
            decreases n - self.pos,
        {
            let ghost u = self.chars@.skip(self.pos as int);
            let ghost before = word@;
            let c = self.chars[self.pos];
            assert(u.len() > 0 && u[0] == c);
            assert(u.skip(1) =~= self.chars@.skip(self.pos as int + 1));
            if let Some(q) = quote {
                self.pos += 1;
                if c == q {
                    quote = None;
                } else {
                    word.push(c);
                    assert(before + (seq![c] + scan(u.skip(1), quote).word) =~= before.push(c)
                        + scan(u.skip(1), quote).word);
                }
            } else if c == '\\' {
                if self.pos + 1 < n {
                    let d = self.chars[self.pos + 1];
                    assert(u[1] == d);
                    assert(u.skip(2) =~= self.chars@.skip(self.pos as int + 2));
                    word.push(d);
                    self.pos += 2;
                    assert(before + (seq![d] + scan(u.skip(2), None).word) =~= before.push(d)
                        + scan(u.skip(2), None).word);
                } else {
                    self.pos += 1;
                    dangling = true;
                    finished = true;
                    assert(before + Seq::<char>::empty() =~= before);
                }
            } else if c == '\'' || c == '"' {
                quote = Some(c);
                self.pos += 1;
            } else if is_whitespace(c) {
                self.pos += 1;
                finished = true;
                assert(before + Seq::<char>::empty() =~= before);
            } else {
                word.push(c);
                self.pos += 1;
                assert(before + (seq![c] + scan(u.skip(1), None).word) =~= before.push(c) + scan(
                    u.skip(1),
                    None,
                ).word);
            }
        }
        assert(word@ + Seq::<char>::empty() =~= word@);
        let ghost shown = self.diagnostics@;
        if quote.is_some() {
            self.diagnostics.push(Diagnostic::UnclosedQuote);
        }
        if dangling {
            self.diagnostics.push(Diagnostic::DanglingEscape);
        }
        assert(self.diagnostics@ =~= shown + scan_diagnostics(scan(t, None)));
        Some(word)
    }

    /// The diagnostics of the words handed out so far, in order.
    pub fn diagnostics(&self) -> (r: &Vec<Diagnostic>)
        ensures
            r@ == self.reported(),
    {
        &self.diagnostics
    }

    /// All the words that are left, and the diagnostics of all the words
    /// read, these and the earlier ones.
    pub fn into_words(self) -> (r: (Vec<String>, Vec<Diagnostic>))
        requires
            self.wf(),
        ensures
            r.0.deep_view() == words(self.remaining()),
            r.1@ == self.reported() + diagnostics(self.remaining()),
    {
        let mut reader = self;
        let mut out: Vec<String> = Vec::new();
        assert(out.deep_view() =~= Seq::<Seq<char>>::empty());
        loop
            invariant_except_break
                reader.wf(),
                out.deep_view() + words(reader.remaining()) == words(self.remaining()),
                reader.reported() + diagnostics(reader.remaining()) == self.reported()
                    + diagnostics(self.remaining()),
            ensures
                out.deep_view() == words(self.remaining()),
                reader.reported() == self.reported() + diagnostics(self.remaining()),
            decreases reader.remaining().len(),
        {
            let ghost before = reader.remaining();
            let ghost shown = reader.reported();
            let ghost have = out.deep_view();
            proof {
                lemma_skip_spaces_shorter(before);
                lemma_scan_consumes(skip_spaces(before), None);
            }
            match reader.next() {
                None => {
                    assert(have + Seq::<Seq<char>>::empty() =~= have);
                    assert(shown + Seq::<Diagnostic>::empty() =~= shown);
                    break ;
                },
                Some(w) => {
                    let ghost r = scan(skip_spaces(before), None);
                    out.push(w);
                    assert(out.deep_view() =~= have.push(r.word));
                    assert(have.push(r.word) + words(r.rest) =~= have + (seq![r.word] + words(
                        r.rest,
                    )));
                    assert((shown + scan_diagnostics(r)) + diagnostics(r.rest) =~= shown + (
                    scan_diagnostics(r) + diagnostics(r.rest)));
                },
            }
        }
        let ShellWords { chars: _, pos: _, diagnostics } = reader;
        (out, diagnostics)
    }
}

/// A tokenizer over a raw argument, or the reason why it is no text.
pub fn parse_shell_words(input: &[u8]) -> (r: Result<ShellWords, DecodeError>)
    ensures
        r is Ok <==> valid_utf8(input@),
        r matches Ok(w) ==> w.wf() && w.remaining() == decode_utf8(input@) && w.reported()
            == Seq::<Diagnostic>::empty(),
        r matches Err(e) ==> e == DecodeError::NotValidText,
{
    match decode(input) {
        Ok(s) => Ok(ShellWords::new(s)),
        Err(e) => Err(e),
    }
}

/// All the words of `s`, and all the diagnostics of reading them.
pub fn split_words(s: &str) -> (r: (Vec<String>, Vec<Diagnostic>))
    ensures
        r.0.deep_view() == words(s@),
        r.1@ == diagnostics(s@),
{
    let reader = ShellWords::new(s);
    assert(Seq::<Diagnostic>::empty() + diagnostics(s@) =~= diagnostics(s@));
    reader.into_words()
}

} // verus!
