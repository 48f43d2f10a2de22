//! A text as a sequence of segments: stretches of literal text and
//! references. Interpolation reads the text into segments and then writes
//! each segment out, a reference by its value.

use vstd::prelude::*;
use vstd::string::StringExecFns;
use crate::interpolate::{
    expansion, interpolated, lemma_reference_fits, match_reference, reference_at, ReferenceView,
};
use crate::scope::{ScopeView, VariableScope};

verus! {

/// One segment of a text.
#[derive(Debug, PartialEq, Eq)]
pub enum Segment {
    /// Text that passes through as it is.
    Literal(String),
    /// A reference to a variable.
    Reference {
        /// The variable's name, without sigil and braces.
        name: String,
        /// A backslash stands before the `$`: the reference is not expanded.
        escaped: bool,
    },
}

/// One segment of a text, as a value of the model.
pub ghost enum SegmentView {
    /// Text that passes through as it is.
    Literal(Seq<char>),
    /// A reference to a variable.
    Reference {
        /// The variable's name, without sigil and braces.
        name: Seq<char>,
        /// A backslash stands before the `$`.
        escaped: bool,
    },
}

impl View for Segment {
    type V = SegmentView;

    open spec fn view(&self) -> SegmentView {
        match *self {
            Segment::Literal(text) => SegmentView::Literal(text@),
            Segment::Reference { name, escaped } => SegmentView::Reference { name: name@, escaped },
        }
    }
}

/// The segments of a list, each by its view.
pub open spec fn views(segments: Seq<Segment>) -> Seq<SegmentView> {
    Seq::new(segments.len(), |i: int| segments[i]@)
}

/// The length of the longest stretch at the front of `s` in which no
/// reference starts.
pub open spec fn literal_run(s: Seq<char>) -> nat
    decreases s.len(),
{
    if s.len() == 0 || reference_at(s) is Some {
        0
    } else {
        1 + literal_run(s.skip(1))
    }
}

/// The segments of `s`: each reference is one, and so is each longest stretch
/// between references.
pub open spec fn segments(s: Seq<char>) -> Seq<SegmentView>
    decreases s.len(),
{
    if s.len() == 0 {
        Seq::empty()
    } else if let Some(r) = reference_at(s) {
        proof {
            lemma_reference_fits(s);
        }
        seq![SegmentView::Reference { name: r.name, escaped: r.escaped }] + segments(
            s.skip(r.len as int),
        )
    } else {
        proof {
            lemma_literal_run_fits(s);
        }
        seq![SegmentView::Literal(s.take(literal_run(s) as int))] + segments(
            s.skip(literal_run(s) as int),
        )
    }
}

/// What one segment is written out as.
pub open spec fn rendered_segment(segment: SegmentView, scope: ScopeView) -> Seq<char> {
    match segment {
        SegmentView::Literal(text) => text,
        SegmentView::Reference { name, escaped } => expansion(
            ReferenceView { name, escaped, len: 0 },
            scope,
        ),
    }
}

/// What a list of segments is written out as.
pub open spec fn rendered(list: Seq<SegmentView>, scope: ScopeView) -> Seq<char>
    decreases list.len(),
{
    if list.len() == 0 {
        Seq::empty()
    } else {
        rendered_segment(list[0], scope) + rendered(list.skip(1), scope)
    }
}

/// A literal stretch lies within the text, and is not empty where the text
/// is not empty and starts with no reference.
pub proof fn lemma_literal_run_fits(s: Seq<char>)
    ensures
        literal_run(s) <= s.len(),
        s.len() > 0 && reference_at(s) is None ==> literal_run(s) >= 1,
    decreases s.len(),
{
    if !(s.len() == 0 || reference_at(s) is Some) {
        lemma_literal_run_fits(s.skip(1));
    }
}

/// Interpolation passes a literal stretch through and goes on behind it.
pub proof fn lemma_literal_passes(s: Seq<char>, scope: ScopeView)
    ensures
        interpolated(s, scope) == s.take(literal_run(s) as int) + interpolated(
            s.skip(literal_run(s) as int),
            scope,
        ),
    decreases s.len(),
{
    lemma_literal_run_fits(s);
    let n = literal_run(s) as int;
    if s.len() == 0 || reference_at(s) is Some {
        assert(s.skip(0) =~= s);
        assert(s.take(0) + interpolated(s, scope) =~= interpolated(s, scope));
    } else {
        let t = s.skip(1);
        lemma_literal_passes(t, scope);
        lemma_literal_run_fits(t);
        assert(t.skip(n - 1) =~= s.skip(n));
        assert(seq![s[0]] + t.take(n - 1) =~= s.take(n));
        assert(seq![s[0]] + (t.take(n - 1) + interpolated(t.skip(n - 1), scope)) =~= s.take(n)
            + interpolated(s.skip(n), scope));
    }
}

/// Writing out the segments of a text is interpolating the text.
pub proof fn lemma_segments_render(s: Seq<char>, scope: ScopeView)
    ensures
        rendered(segments(s), scope) == interpolated(s, scope),
    decreases s.len(),
{
    if s.len() == 0 {
    } else if let Some(r) = reference_at(s) {
        lemma_reference_fits(s);
        let rest = s.skip(r.len as int);
        lemma_segments_render(rest, scope);
        let head = SegmentView::Reference { name: r.name, escaped: r.escaped };
        assert(segments(s) == seq![head] + segments(rest));
        assert(segments(s).skip(1) =~= segments(rest));
        assert(rendered_segment(head, scope) == expansion(r, scope));
    } else {
        lemma_literal_run_fits(s);
        lemma_literal_passes(s, scope);
        let n = literal_run(s) as int;
        let rest = s.skip(n);
        lemma_segments_render(rest, scope);
        let head = SegmentView::Literal(s.take(n));
        assert(segments(s) == seq![head] + segments(rest));
        assert(segments(s).skip(1) =~= segments(rest));
    }
}

/// The text of `chars` from `from` to `to`.
fn text_of_range(chars: &Vec<char>, from: usize, to: usize) -> (r: String)
    requires
        from <= to <= chars.len(),
    ensures
        r@ == chars@.subrange(from as int, to as int),
{
    let mut r = String::new();
    let mut k: usize = from;
    assert(chars@.subrange(from as int, from as int) =~= Seq::<char>::empty());
    while k < to
        invariant
            from <= k <= to <= chars.len(),
            r@ == chars@.subrange(from as int, k as int),
        decreases to - k,
    {
        r.push(chars[k]);
        assert(chars@.subrange(from as int, k as int + 1) =~= chars@.subrange(
            from as int,
            k as int,
        ).push(chars@[k as int]));
        k += 1;
    }
    r
}

/// Reads `chars` into its segments.
pub fn scan_segments(chars: &Vec<char>) -> (r: Vec<Segment>)
    ensures
        views(r@) == segments(chars@),
{
    let n: usize = chars.len();
    let mut out: Vec<Segment> = Vec::new();
    let mut i: usize = 0;
    assert(chars@.skip(0) =~= chars@);
    assert(views(out@) =~= Seq::<SegmentView>::empty());
    while i < n
        invariant
            i <= n,
            n == chars.len(),
            views(out@) + segments(chars@.skip(i as int)) == segments(chars@),
        decreases n - i,
    {
        let ghost u = chars@.skip(i as int);
        let ghost have = views(out@);
        match match_reference(chars, i) {
            Some(m) => {
                let ghost v = reference_at(u)->Some_0;
                let ghost tail = segments(u.skip(v.len as int));
                assert(u.skip(v.len as int) =~= chars@.skip(m.end as int));
                let name = text_of_range(chars, m.name_start, m.name_end);
                let segment = Segment::Reference { name, escaped: m.escaped };
                assert(segment@ == SegmentView::Reference { name: v.name, escaped: v.escaped });
                out.push(segment);
                assert(views(out@) =~= have.push(segment@));
                assert(have.push(segment@) + tail =~= have + (seq![segment@] + tail));
                i = m.end;
            },
            None => {
                let mut j: usize = i + 1;
                assert(u.skip(1) =~= chars@.skip(i as int + 1));
                while j < n && match_reference(chars, j).is_none()
                    invariant
                        i < j <= n,
                        n == chars.len(),
                        (j - i) + literal_run(chars@.skip(j as int)) == literal_run(
                            chars@.skip(i as int),
                        ),
                    decreases n - j,
                {
                    assert(chars@.skip(j as int).skip(1) =~= chars@.skip(j as int + 1));
                    j += 1;
                }
                assert(literal_run(u) == j - i);
                let ghost tail = segments(u.skip(j - i));
                assert(u.skip(j - i) =~= chars@.skip(j as int));
                assert(u.take(j - i) =~= chars@.subrange(i as int, j as int));
                let segment = Segment::Literal(text_of_range(chars, i, j));
                out.push(segment);
                assert(views(out@) =~= have.push(segment@));
                assert(have.push(segment@) + tail =~= have + (seq![segment@] + tail));
                i = j;
            },
        }
    }
    assert(views(out@) + Seq::<SegmentView>::empty() =~= views(out@));
    out
}

/// Writes the segments out, each reference by its value in `scope`.
pub fn render(list: &Vec<Segment>, scope: &VariableScope) -> (r: String)
    ensures
        r@ == rendered(views(list@), scope@),
{
    let ghost all = views(list@);
    let mut out = String::new();
    let n: usize = list.len();
    let mut i: usize = 0;
    assert(all.skip(0) =~= all);
    while i < n
        invariant
            i <= n,
            n == list.len(),
            all == views(list@),
            out@ + rendered(all.skip(i as int), scope@) == rendered(all, scope@),
        decreases n - i,
    {
        let ghost before = out@;
        let ghost tail = rendered(all.skip(i as int + 1), scope@);
        assert(all.skip(i as int).skip(1) =~= all.skip(i as int + 1));
        assert(all.skip(i as int)[0] == list@[i as int]@);
        match &list[i] {
            Segment::Literal(text) => {
                out.append(text.as_str());
            },
            Segment::Reference { name, escaped } => {
                if *escaped {
                    out.push('$');
                    out.append(name.as_str());
                } else {
                    out.append(scope.resolve(name.as_str()));
                }
            },
        }
        assert(out@ + tail =~= before + (rendered_segment(list@[i as int]@, scope@) + tail));
        i += 1;
    }
    assert(out@ + Seq::<char>::empty() =~= out@);
    out
}

} // verus!
