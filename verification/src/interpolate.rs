//! The interpolator: `$NAME` and `${NAME}` replaced by their values.
//!
//! A name is a letter or an underscore followed by letters, digits and
//! underscores. A backslash directly before the `$` keeps the reference from
//! being expanded: the backslash and the braces go, the `$` and the name
//! stay. Everything else passes through. The text is read once from left to
//! right, and what was put in is not read again.

use vstd::prelude::*;
use vstd::utf8::*;
use crate::scope::{ScopeView, VariableScope};
use crate::segments::{lemma_segments_render, render, scan_segments};
use crate::text::{decode, to_chars, DecodeError};

verus! {

/// The characters that can start a name.
pub open spec fn is_name_start(c: char) -> bool {
    ('A' <= c && c <= 'Z') || ('a' <= c && c <= 'z') || c == '_'
}

/// The characters that can continue a name.
pub open spec fn is_name_char(c: char) -> bool {
    is_name_start(c) || ('0' <= c && c <= '9')
}

/// The length of the longest run of name characters at the front of `s`.
pub open spec fn name_run(s: Seq<char>) -> nat
    decreases s.len(),
{
    if s.len() > 0 && is_name_char(s[0]) {
        1 + name_run(s.skip(1))
    } else {
        0
    }
}

/// A reference found at the front of a text.
pub ghost struct ReferenceView {
    /// The variable's name, without sigil and braces.
    pub name: Seq<char>,
    /// A backslash stands before the `$`.
    pub escaped: bool,
    /// The number of characters that the reference takes up, the backslash
    /// included.
    pub len: nat,
}

/// The name at the front of `s`, bare or in braces, and the number of
/// characters that it takes up.
pub open spec fn name_at(s: Seq<char>) -> Option<(Seq<char>, nat)> {
    if s.len() > 0 && is_name_start(s[0]) {
        Some((s.take(name_run(s) as int), name_run(s)))
    } else if s.len() > 1 && s[0] == '{' && is_name_start(s[1]) {
        let n = name_run(s.skip(1)) as int;
        if n + 1 < s.len() && s[n + 1] == '}' {
            Some((s.subrange(1, n + 1), (n + 2) as nat))
        } else {
            None
        }
    } else {
        None
    }
}

/// The reference at the front of `s`, if `s` starts with one.
pub open spec fn reference_at(s: Seq<char>) -> Option<ReferenceView> {
    if s.len() > 1 && s[0] == '\\' && s[1] == '$' && name_at(s.skip(2)) is Some {
        let (name, n) = name_at(s.skip(2))->Some_0;
        Some(ReferenceView { name, escaped: true, len: n + 2 })
    } else if s.len() > 0 && s[0] == '$' && name_at(s.skip(1)) is Some {
        let (name, n) = name_at(s.skip(1))->Some_0;
        Some(ReferenceView { name, escaped: false, len: n + 1 })
    } else {
        None
    }
}

/// What a reference is replaced by.
pub open spec fn expansion(r: ReferenceView, scope: ScopeView) -> Seq<char> {
    if r.escaped {
        seq!['$'] + r.name
    } else {
        scope.resolved(r.name)
    }
}

/// The text `s` with each reference replaced.
pub open spec fn interpolated(s: Seq<char>, scope: ScopeView) -> Seq<char>
    decreases s.len(),
{
    if s.len() == 0 {
        Seq::empty()
    } else if let Some(r) = reference_at(s) {
        proof {
            lemma_reference_fits(s);
        }
        expansion(r, scope) + interpolated(s.skip(r.len as int), scope)
    } else {
        seq![s[0]] + interpolated(s.skip(1), scope)
    }
}

/// A run of name characters lies within the text, holds name characters
/// only, and ends before the first character that is none.
pub proof fn lemma_name_run_fits(s: Seq<char>)
    ensures
        name_run(s) <= s.len(),
        forall|i: int| 0 <= i < name_run(s) ==> is_name_char(s[i]),
        name_run(s) < s.len() ==> !is_name_char(s[name_run(s) as int]),
    decreases s.len(),
{
    if s.len() > 0 && is_name_char(s[0]) {
        let t = s.skip(1);
        lemma_name_run_fits(t);
        assert forall|i: int| 0 <= i < name_run(s) implies is_name_char(s[i]) by {
            if i > 0 {
                assert(s[i] == t[i - 1]);
            }
        }
        if name_run(s) < s.len() {
            assert(s[name_run(s) as int] == t[name_run(t) as int]);
        }
    }
}

/// A reference takes up at least its sigil and a one-letter name, and lies
/// within the text.
pub proof fn lemma_reference_fits(s: Seq<char>)
    ensures
        reference_at(s) matches Some(r) ==> 2 <= r.len <= s.len() && r.name.len() >= 1,
{
    if s.len() > 0 {
        lemma_name_run_fits(s.skip(1));
        if s.len() > 1 {
            lemma_name_run_fits(s.skip(2));
            lemma_name_run_fits(s.skip(1).skip(1));
            if s.len() > 2 {
                lemma_name_run_fits(s.skip(2).skip(1));
            }
        }
    }
}

/// A reference found in a text, by positions in that text.
#[derive(Debug, Clone, Copy, PartialEq, Eq)]
pub struct Reference {
    /// Where the name starts.
    pub name_start: usize,
    /// Where the name ends.
    pub name_end: usize,
    /// Where the text goes on after the reference.
    pub end: usize,
    /// A backslash stands before the `$`.
    pub escaped: bool,
}

/// Tells whether `c` can start a name.
pub fn name_start(c: char) -> (r: bool)
    ensures
        r == is_name_start(c),
{
    ('A' <= c && c <= 'Z') || ('a' <= c && c <= 'z') || c == '_'
}

/// Tells whether `c` can continue a name.
pub fn name_char(c: char) -> (r: bool)
    ensures
        r == is_name_char(c),
{
    name_start(c) || ('0' <= c && c <= '9')
}

/// Where the run of name characters that starts at `i` ends.
fn run_end(chars: &Vec<char>, i: usize) -> (r: usize)
    requires
        i <= chars.len(),
    ensures
        i <= r <= chars.len(),
        r == i + name_run(chars@.skip(i as int)),
{
    let n: usize = chars.len();
    let mut k: usize = i;
    while k < n && name_char(chars[k])
        invariant
            i <= k <= n,
            n == chars.len(),
            k + name_run(chars@.skip(k as int)) == i + name_run(chars@.skip(i as int)),
        decreases n - k,
    {
        assert(chars@.skip(k as int).skip(1) =~= chars@.skip(k as int + 1));
        k += 1;
    }
    k
}

/// The name at `i`, bare or in braces: where it starts, where it ends, and
/// where the text goes on.
fn match_name(chars: &Vec<char>, i: usize) -> (r: Option<(usize, usize, usize)>)
    requires
        i <= chars.len(),
    ensures
        r is Some <==> name_at(chars@.skip(i as int)) is Some,
        r matches Some((from, to, end)) ==> {
            let (name, n) = name_at(chars@.skip(i as int))->Some_0;
            &&& i <= from < to <= end <= chars.len()
            &&& chars@.subrange(from as int, to as int) == name
            &&& end == i + n
        },
{
    let n: usize = chars.len();
    let ghost s = chars@.skip(i as int);
    if i < n && name_start(chars[i]) {
        let to = run_end(chars, i);
        assert(s.take(name_run(s) as int) =~= chars@.subrange(i as int, to as int));
        Some((i, to, to))
    } else if i < n && n - i > 1 && chars[i] == '{' && name_start(chars[i + 1]) {
        let to = run_end(chars, i + 1);
        assert(s.skip(1) =~= chars@.skip(i as int + 1));
        if to < n && chars[to] == '}' {
            assert(s.subrange(1, name_run(s.skip(1)) as int + 1) =~= chars@.subrange(
                i as int + 1,
                to as int,
            ));
            Some((i + 1, to, to + 1))
        } else {
            None
        }
    } else {
        None
    }
}

/// The reference that starts at `i`, if one starts there.
pub fn match_reference(chars: &Vec<char>, i: usize) -> (r: Option<Reference>)
    requires
        i <= chars.len(),
    ensures
        r is Some <==> reference_at(chars@.skip(i as int)) is Some,
        r matches Some(m) ==> {
            let v = reference_at(chars@.skip(i as int))->Some_0;
            &&& i < m.name_start < m.name_end <= m.end <= chars.len()
            &&& chars@.subrange(m.name_start as int, m.name_end as int) == v.name
            &&& m.end == i + v.len
            &&& m.escaped == v.escaped
        },
{
    let n: usize = chars.len();
    let ghost s = chars@.skip(i as int);
    if i < n && n - i > 1 && chars[i] == '\\' && chars[i + 1] == '$' {
        assert(s.skip(2) =~= chars@.skip(i as int + 2));
        match match_name(chars, i + 2) {
            Some((from, to, end)) => Some(
                Reference { name_start: from, name_end: to, end, escaped: true },
            ),
            None => None,
        }
    } else if i < n && chars[i] == '$' {
        assert(s.skip(1) =~= chars@.skip(i as int + 1));
        match match_name(chars, i + 1) {
            Some((from, to, end)) => Some(
                Reference { name_start: from, name_end: to, end, escaped: false },
            ),
            None => None,
        }
    } else {
        None
    }
}

/// The text `s` with each reference replaced by its value in `scope`: the
/// text is read into segments, and the segments are written out.
pub fn interpolate(s: &str, scope: &VariableScope) -> (r: String)
    ensures
        r@ == interpolated(s@, scope@),
{
    let chars = to_chars(s);
    let list = scan_segments(&chars);
    proof {
        lemma_segments_render(s@, scope@);
    }
    render(&list, scope)
}

/// The raw argument with each reference replaced by its value in `scope`, or
/// an error where the argument is not text.
pub fn replace_shell_vars(input: &[u8], scope: &VariableScope) -> (r: Result<String, DecodeError>)
    ensures
        r is Ok <==> valid_utf8(input@),
        r matches Ok(s) ==> s@ == interpolated(decode_utf8(input@), scope@),
        r matches Err(e) ==> e == DecodeError::NotValidText,
{
    match decode(input) {
        Ok(s) => Ok(interpolate(s, scope)),
        Err(e) => Err(e),
    }
}

/// A text without a `$` passes through as it is.
pub proof fn lemma_plain_text_unchanged(s: Seq<char>, scope: ScopeView)
    requires
        forall|i: int| 0 <= i < s.len() ==> s[i] != '$',
    ensures
        interpolated(s, scope) == s,
    decreases s.len(),
{
    if s.len() > 0 {
        let t = s.skip(1);
        assert(forall|i: int| 0 <= i < t.len() ==> t[i] == s[i + 1]);
        lemma_plain_text_unchanged(t, scope);
        assert(reference_at(s) is None);
        assert(seq![s[0]] + t =~= s);
    } else {
        assert(interpolated(s, scope) =~= s);
    }
}

} // verus!
