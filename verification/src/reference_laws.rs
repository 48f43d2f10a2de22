//! What interpolation does to a single reference, whatever stands around it.

use vstd::prelude::*;
use crate::interpolate::{
    expansion, interpolated, is_name_char, is_name_start, name_at, name_run, reference_at,
    ReferenceView,
};
use crate::scope::ScopeView;

verus! {

/// A variable name: a letter or an underscore, then letters, digits and
/// underscores.
pub open spec fn is_name(name: Seq<char>) -> bool {
    &&& name.len() > 0
    &&& is_name_start(name[0])
    &&& forall|i: int| 0 <= i < name.len() ==> is_name_char(name[i])
}

/// A bare name that stands before `tail` ends where `tail` starts.
pub open spec fn ends_name(tail: Seq<char>) -> bool {
    tail.len() == 0 || !is_name_char(tail[0])
}

/// A reference to `name` as it is written, bare or in braces.
pub open spec fn reference_text(name: Seq<char>, braced: bool) -> Seq<char> {
    if braced {
        seq!['$', '{'] + name + seq!['}']
    } else {
        seq!['$'] + name
    }
}

/// The run of name characters at the front of a name and what follows it is
/// the name.
proof fn lemma_name_run_of_name(name: Seq<char>, tail: Seq<char>)
    requires
        forall|i: int| 0 <= i < name.len() ==> is_name_char(name[i]),
        ends_name(tail),
    ensures
        name_run(name + tail) == name.len(),
    decreases name.len(),
{
    if name.len() == 0 {
        assert(name + tail =~= tail);
    } else {
        let rest = name.skip(1);
        assert(forall|i: int| 0 <= i < rest.len() ==> rest[i] == name[i + 1]);
        assert((name + tail).skip(1) =~= rest + tail);
        lemma_name_run_of_name(rest, tail);
    }
}

/// The name read after a `$`, for both ways of writing it.
proof fn lemma_name_at(name: Seq<char>, braced: bool, tail: Seq<char>)
    requires
        is_name(name),
        braced || ends_name(tail),
    ensures
        name_at(reference_text(name, braced).skip(1) + tail) == Some(
            (name, (reference_text(name, braced).len() - 1) as nat),
        ),
{
    let n = name.len() as int;
    let s = reference_text(name, braced).skip(1) + tail;
    if braced {
        let after = seq!['}'] + tail;
        assert(s =~= seq!['{'] + name + after);
        assert(s.skip(1) =~= name + after);
        lemma_name_run_of_name(name, after);
        assert(s[1] == name[0]);
        assert(s[n + 1] == '}');
        assert(s.subrange(1, n + 1) =~= name);
    } else {
        assert(s =~= name + tail);
        lemma_name_run_of_name(name, tail);
        assert(s[0] == name[0]);
        assert(s.take(n) =~= name);
    }
}

/// A reference is replaced by the value of its name, and the text after it
/// is interpolated on its own.
pub proof fn lemma_reference_expands(
    name: Seq<char>,
    braced: bool,
    tail: Seq<char>,
    scope: ScopeView,
)
    requires
        is_name(name),
        braced || ends_name(tail),
    ensures
        interpolated(reference_text(name, braced) + tail, scope) == scope.resolved(name)
            + interpolated(tail, scope),
{
    let text = reference_text(name, braced);
    let s = text + tail;
    lemma_name_at(name, braced, tail);
    assert(s[0] == '$');
    assert(s.skip(1) =~= text.skip(1) + tail);
    let r = ReferenceView { name, escaped: false, len: text.len() };
    assert(reference_at(s) == Some(r));
    assert(s.skip(r.len as int) =~= tail);
    assert(expansion(r, scope) == scope.resolved(name));
}

/// A reference with a backslash before it is replaced by `$` and its name,
/// and the text after it is interpolated on its own.
pub proof fn lemma_escaped_reference_stays(
    name: Seq<char>,
    braced: bool,
    tail: Seq<char>,
    scope: ScopeView,
)
    requires
        is_name(name),
        braced || ends_name(tail),
    ensures
        interpolated(seq!['\\'] + reference_text(name, braced) + tail, scope) == seq!['$'] + name
            + interpolated(tail, scope),
{
    let text = reference_text(name, braced);
    let s = seq!['\\'] + text + tail;
    lemma_name_at(name, braced, tail);
    assert(s[0] == '\\' && s[1] == '$');
    assert(s.skip(2) =~= text.skip(1) + tail);
    let r = ReferenceView { name, escaped: true, len: text.len() + 1 };
    assert(reference_at(s) == Some(r));
    assert(s.skip(r.len as int) =~= tail);
    assert(expansion(r, scope) == seq!['$'] + name);
}

/// The bare and the braced reference to a name give the same text: the
/// name's value.
pub proof fn lemma_brace_and_bare_agree(name: Seq<char>, scope: ScopeView)
    requires
        is_name(name),
    ensures
        interpolated(reference_text(name, false), scope) == scope.resolved(name),
        interpolated(reference_text(name, true), scope) == scope.resolved(name),
{
    let none = Seq::<char>::empty();
    lemma_reference_expands(name, false, none, scope);
    lemma_reference_expands(name, true, none, scope);
    assert(reference_text(name, false) + none =~= reference_text(name, false));
    assert(reference_text(name, true) + none =~= reference_text(name, true));
    assert(scope.resolved(name) + interpolated(none, scope) =~= scope.resolved(name));
}

/// A reference to a name that neither tier binds leaves nothing behind.
pub proof fn lemma_unresolved_is_empty(
    name: Seq<char>,
    braced: bool,
    tail: Seq<char>,
    scope: ScopeView,
)
    requires
        is_name(name),
        braced || ends_name(tail),
        !scope.overrides.contains_key(name),
        !scope.ambient.contains_key(name),
    ensures
        interpolated(reference_text(name, braced) + tail, scope) == interpolated(tail, scope),
{
    lemma_reference_expands(name, braced, tail, scope);
    assert(Seq::<char>::empty() + interpolated(tail, scope) =~= interpolated(tail, scope));
}

/// A name that the overrides bind has their value, whatever the ambient
/// environment says.
pub proof fn lemma_override_wins(scope: ScopeView, name: Seq<char>, value: Seq<char>)
    ensures
        (ScopeView { overrides: scope.overrides.insert(name, value), ..scope }).resolved(name)
            == value,
{
}

} // verus!
