//! The variable scope: explicit overrides laid over the ambient environment.

use vstd::prelude::*;
use crate::text::to_chars;

verus! {

/// One name with its value.
pub struct Binding {
    /// The variable's name.
    pub name: Vec<char>,
    /// Its value.
    pub value: String,
}

/// What a list of bindings says: each name has the value bound to it last.
pub open spec fn bindings(entries: Seq<Binding>) -> Map<Seq<char>, Seq<char>>
    decreases entries.len(),
{
    if entries.len() == 0 {
        Map::empty()
    } else {
        bindings(entries.drop_last()).insert(entries.last().name@, entries.last().value@)
    }
}

/// The two tiers of a scope as maps from name to value.
pub ghost struct ScopeView {
    /// The explicit overrides.
    pub overrides: Map<Seq<char>, Seq<char>>,
    /// The ambient environment.
    pub ambient: Map<Seq<char>, Seq<char>>,
}

impl ScopeView {
    /// The value of `name`: that of the overrides where they bind it, else
    /// that of the ambient environment, else the empty string.
    pub open spec fn resolved(self, name: Seq<char>) -> Seq<char> {
        if self.overrides.contains_key(name) {
            self.overrides[name]
        } else if self.ambient.contains_key(name) {
            self.ambient[name]
        } else {
            Seq::empty()
        }
    }
}

/// A two-tier scope. Lookup asks the overrides first.
pub struct VariableScope {
    overrides: Vec<Binding>,
    ambient: Vec<Binding>,
}

impl View for VariableScope {
    type V = ScopeView;

    closed spec fn view(&self) -> ScopeView {
        ScopeView { overrides: bindings(self.overrides@), ambient: bindings(self.ambient@) }
    }
}

/// The binding at `i` is the last one of `key` in `entries`.
pub open spec fn is_last_binding(entries: Seq<Binding>, key: Seq<char>, i: int) -> bool {
    &&& 0 <= i < entries.len()
    &&& entries[i].name@ == key
    &&& forall|j: int| i < j < entries.len() ==> (#[trigger] entries[j]).name@ != key
}

/// A name that no binding mentions is not bound.
pub proof fn lemma_unbound(entries: Seq<Binding>, key: Seq<char>)
    requires
        forall|j: int| 0 <= j < entries.len() ==> (#[trigger] entries[j]).name@ != key,
    ensures
        !bindings(entries).contains_key(key),
    decreases entries.len(),
{
    if entries.len() > 0 {
        let front = entries.drop_last();
        assert(forall|j: int| 0 <= j < front.len() ==> front[j] == entries[j]);
        lemma_unbound(front, key);
    }
}

/// A name has the value of its last binding.
pub proof fn lemma_bound(entries: Seq<Binding>, key: Seq<char>, i: int)
    requires
        is_last_binding(entries, key, i),
    ensures
        bindings(entries).contains_key(key),
        bindings(entries)[key] == entries[i].value@,
    decreases entries.len(),
{
    if i < entries.len() - 1 {
        let front = entries.drop_last();
        assert(forall|j: int| 0 <= j < front.len() ==> front[j] == entries[j]);
        lemma_bound(front, key, i);
    }
}

/// Tells whether `name` is the text of `chars` from `start` to `end`.
pub fn same_text(name: &Vec<char>, chars: &Vec<char>, start: usize, end: usize) -> (r: bool)
    requires
        start <= end <= chars.len(),
    ensures
        r == (name@ == chars@.subrange(start as int, end as int)),
{
    let ghost key = chars@.subrange(start as int, end as int);
    if name.len() != end - start {
        return false;
    }
    let n: usize = name.len();
    let mut k: usize = 0;
    while k < n
        invariant
            k <= n,
            n == name.len(),
            n == end - start,
            start <= end <= chars.len(),
            key == chars@.subrange(start as int, end as int),
            forall|j: int| 0 <= j < k ==> name@[j] == key[j],
        decreases n - k,
    {
        if name[k] != chars[start + k] {
            assert(name@[k as int] != key[k as int]);
            return false;
        }
        k += 1;
    }
    assert(name@ =~= key);
    true
}

/// The index of the last binding of the text of `chars` from `start` to
/// `end`, if there is one.
fn find_last(entries: &Vec<Binding>, chars: &Vec<char>, start: usize, end: usize) -> (r: Option<
    usize,
>)
    requires
        start <= end <= chars.len(),
    ensures
        match r {
            Some(i) => is_last_binding(
                entries@,
                chars@.subrange(start as int, end as int),
                i as int,
            ),
            None => !bindings(entries@).contains_key(chars@.subrange(start as int, end as int)),
        },
{
    let ghost key = chars@.subrange(start as int, end as int);
    let mut i: usize = entries.len();
    while i > 0
        invariant
            i <= entries.len(),
            start <= end <= chars.len(),
            key == chars@.subrange(start as int, end as int),
            forall|j: int| i <= j < entries.len() ==> (#[trigger] entries@[j]).name@ != key,
        decreases i,
    {
        i -= 1;
        if same_text(&entries[i].name, chars, start, end) {
            return Some(i);
        }
    }
    proof {
        lemma_unbound(entries@, key);
    }
    None
}

impl VariableScope {
    /// A scope that binds nothing.
    pub fn new() -> (r: Self)
        ensures
            r@.overrides == Map::<Seq<char>, Seq<char>>::empty(),
            r@.ambient == Map::<Seq<char>, Seq<char>>::empty(),
    {
        VariableScope { overrides: Vec::new(), ambient: Vec::new() }
    }

    /// Binds `name` to `value` in the overrides, in place of an earlier value.
    pub fn set_override(&mut self, name: &str, value: String)
        ensures
            final(self)@.overrides == old(self)@.overrides.insert(name@, value@),
            final(self)@.ambient == old(self)@.ambient,
    {
        let ghost before = self.overrides@;
        self.overrides.push(Binding { name: to_chars(name), value });
        assert(self.overrides@.drop_last() =~= before);
    }

    /// Binds `name` to `value` in the ambient tier, in place of an earlier
    /// value.
    pub fn set_ambient(&mut self, name: &str, value: String)
        ensures
            final(self)@.ambient == old(self)@.ambient.insert(name@, value@),
            final(self)@.overrides == old(self)@.overrides,
    {
        let ghost before = self.ambient@;
        self.ambient.push(Binding { name: to_chars(name), value });
        assert(self.ambient@.drop_last() =~= before);
    }

    /// The value of the name that `chars` holds from `start` to `end`.
    pub fn resolve_range(&self, chars: &Vec<char>, start: usize, end: usize) -> (r: &str)
        requires
            start <= end <= chars.len(),
        ensures
            r@ == self@.resolved(chars@.subrange(start as int, end as int)),
    {
        let ghost key = chars@.subrange(start as int, end as int);
        match find_last(&self.overrides, chars, start, end) {
            Some(i) => {
                proof {
                    lemma_bound(self.overrides@, key, i as int);
                }
                self.overrides[i].value.as_str()
            },
            None => match find_last(&self.ambient, chars, start, end) {
                Some(i) => {
                    proof {
                        lemma_bound(self.ambient@, key, i as int);
                    }
                    self.ambient[i].value.as_str()
                },
                None => {
                    let r = "";
                    proof {
                        reveal_strlit("");
                    }
                    assert(r@ =~= Seq::<char>::empty());
                    r
                },
            },
        }
    }

    /// The value of `name`.
    pub fn resolve(&self, name: &str) -> (r: &str)
        ensures
            r@ == self@.resolved(name@),
    {
        let chars = to_chars(name);
        assert(chars@.subrange(0, chars@.len() as int) =~= chars@);
        self.resolve_range(&chars, 0, chars.len())
    }
}

} // verus!
