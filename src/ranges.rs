use vstd::prelude::*;
use crate::tree::TextRange;

verus! {

/// How an occurrence of a name uses it.
#[derive(Clone, Copy, Debug, PartialEq, Eq, Hash)]
pub enum ReferenceCategory {
    Read,
    Write,
    Import,
}

/// One range to highlight, with how it uses the name where that applies.
#[derive(Clone, Copy, Debug, PartialEq, Eq, Hash)]
pub struct HighlightedRange {
    pub range: TextRange,
    pub category: Option<ReferenceCategory>,
}

pub open spec fn plain(r: TextRange) -> HighlightedRange {
    HighlightedRange { range: r, category: None }
}

/// The contents of an optional result vector.
pub open spec fn opt_view(r: Option<Vec<HighlightedRange>>) -> Option<Seq<HighlightedRange>> {
    match r {
        Some(v) => Some(v@),
        None => None,
    }
}

pub fn plain_range(r: TextRange) -> (h: HighlightedRange)
    ensures
        h == plain(r),
{
    HighlightedRange { range: r, category: None }
}

/// The union of two optional ranges.
pub open spec fn cover_range_spec(r0: Option<TextRange>, r1: Option<TextRange>) -> Option<
    TextRange,
> {
    match (r0, r1) {
        (Some(a), Some(b)) => Some(a.cover_spec(b)),
        (Some(a), None) => Some(a),
        (None, Some(b)) => Some(b),
        (None, None) => None,
    }
}

pub fn cover_range(r0: Option<TextRange>, r1: Option<TextRange>) -> (r: Option<TextRange>)
    ensures
        r == cover_range_spec(r0, r1),
{
    match (r0, r1) {
        (Some(a), Some(b)) => Some(a.cover(b)),
        (Some(a), None) => Some(a),
        (None, Some(b)) => Some(b),
        (None, None) => None,
    }
}

fn same_category(a: Option<ReferenceCategory>, b: Option<ReferenceCategory>) -> (r: bool)
    ensures
        r == (a == b),
{
    match (a, b) {
        (None, None) => true,
        (Some(ReferenceCategory::Read), Some(ReferenceCategory::Read)) => true,
        (Some(ReferenceCategory::Write), Some(ReferenceCategory::Write)) => true,
        (Some(ReferenceCategory::Import), Some(ReferenceCategory::Import)) => true,
        _ => false,
    }
}

pub fn same_highlight(a: &HighlightedRange, b: &HighlightedRange) -> (r: bool)
    ensures
        r == (*a == *b),
{
    a.range.start == b.range.start && a.range.end == b.range.end && same_category(
        a.category,
        b.category,
    )
}

/// Adds `h` unless it is already there.
pub fn push_unique(v: &mut Vec<HighlightedRange>, h: HighlightedRange)
    requires
        old(v)@.no_duplicates(),
    ensures
        final(v)@.no_duplicates(),
        forall|x: HighlightedRange| #[trigger]
            final(v)@.contains(x) <==> (old(v)@.contains(x) || x == h),
{
    let mut i: usize = 0;
    while i < v.len()
        invariant
            0 <= i <= v@.len(),
            v@ == old(v)@,
            v@.no_duplicates(),
            forall|k: int| 0 <= k < i ==> v@[k] != h,
        decreases v@.len() - i,
    {
        if same_highlight(&v[i], &h) {
            assert(v@[i as int] == h);
            return;
        }
        i += 1;
    }
    v.push(h);
    assert forall|x: HighlightedRange| #[trigger] v@.contains(x) <==> (old(v)@.contains(x) || x
        == h) by {
        if x == h {
            assert(v@[v@.len() - 1] == h);
        }
        if old(v)@.contains(x) {
            let k = choose|k: int| 0 <= k < old(v)@.len() && old(v)@[k] == x;
            assert(v@[k] == x);
        }
        if v@.contains(x) && x != h {
            let k = choose|k: int| 0 <= k < v@.len() && v@[k] == x;
            assert(k < old(v)@.len());
        }
    }
}

/// Adds each element of `w` that is not already there.
pub fn extend_unique(v: &mut Vec<HighlightedRange>, w: &Vec<HighlightedRange>)
    requires
        old(v)@.no_duplicates(),
    ensures
        final(v)@.no_duplicates(),
        forall|x: HighlightedRange| #[trigger]
            final(v)@.contains(x) <==> (old(v)@.contains(x) || w@.contains(x)),
{
    let mut i: usize = 0;
    while i < w.len()
        invariant
            0 <= i <= w@.len(),
            v@.no_duplicates(),
            forall|x: HighlightedRange| #[trigger]
                v@.contains(x) <==> (old(v)@.contains(x) || w@.subrange(0, i as int).contains(x)),
        decreases w@.len() - i,
    {
        let ghost before = v@;
        push_unique(v, w[i]);
        assert forall|x: HighlightedRange| #[trigger] v@.contains(x) <==> (old(v)@.contains(x)
            || w@.subrange(0, i + 1).contains(x)) by {
            if w@.subrange(0, i as int).contains(x) {
                let k = choose|k: int| 0 <= k < i && #[trigger] w@.subrange(0, i as int)[k] == x;
                assert(w@.subrange(0, i + 1)[k] == x);
            }
            if x == w@[i as int] {
                assert(w@.subrange(0, i + 1)[i as int] == x);
            }
            if w@.subrange(0, i + 1).contains(x) {
                let k = choose|k: int| 0 <= k < i + 1 && #[trigger] w@.subrange(0, i + 1)[k] == x;
                if k < i {
                    assert(w@.subrange(0, i as int)[k] == x);
                }
            }
        }
        i += 1;
    }
    assert(w@.subrange(0, w@.len() as int) =~= w@);
}

/// Ranges in order of their start.
pub open spec fn sorted_by_start(s: Seq<HighlightedRange>) -> bool {
    forall|i: int, j: int| 0 <= i < j < s.len() ==> s[i].range.start <= s[j].range.start
}

/// The same highlights, in order of their start.
pub fn sort_by_start(v: Vec<HighlightedRange>) -> (r: Vec<HighlightedRange>)
    requires
        v@.no_duplicates(),
    ensures
        r@.no_duplicates(),
        sorted_by_start(r@),
        forall|x: HighlightedRange| #[trigger] r@.contains(x) <==> v@.contains(x),
{
    let mut out: Vec<HighlightedRange> = Vec::new();
    let mut i: usize = 0;
    while i < v.len()
        invariant
            0 <= i <= v@.len(),
            v@.no_duplicates(),
            out@.no_duplicates(),
            sorted_by_start(out@),
            forall|x: HighlightedRange| #[trigger]
                out@.contains(x) <==> v@.subrange(0, i as int).contains(x),
        decreases v@.len() - i,
    {
        let x = v[i];
        let mut p: usize = 0;
        while p < out.len() && out[p].range.start <= x.range.start
            invariant
                0 <= p <= out@.len(),
                forall|k: int| 0 <= k < p ==> out@[k].range.start <= x.range.start,
            decreases out@.len() - p,
        {
            p += 1;
        }
        let ghost before = out@;
        proof {
            if before.contains(x) {
                assert(v@.subrange(0, i as int).contains(x));
                let k = choose|k: int| 0 <= k < i && #[trigger] v@.subrange(0, i as int)[k] == x;
                assert(v@[k] == v@[i as int]);
            }
            assert forall|k: int| p <= k < before.len() implies before[k].range.start
                > x.range.start by {
                assert(before[p as int].range.start > x.range.start);
            }
        }
        out.insert(p, x);
        assert(out@ == before.insert(p as int, x));
        assert forall|a: int, b: int| 0 <= a < b < out@.len() implies out@[a].range.start
            <= out@[b].range.start by {
            if a < p && b == p {
            } else if a < p && b > p {
                assert(out@[b] == before[b - 1]);
            } else if a == p && b > p {
                assert(out@[b] == before[b - 1]);
            } else if a > p {
                assert(out@[a] == before[a - 1]);
                assert(out@[b] == before[b - 1]);
            }
        }
        assert forall|a: int, b: int| 0 <= a < out@.len() && 0 <= b < out@.len() && a != b
            implies out@[a] != out@[b] by {
            if a != p && b != p {
                let a0 = if a < p { a } else { a - 1 };
                let b0 = if b < p { b } else { b - 1 };
                assert(out@[a] == before[a0]);
                assert(out@[b] == before[b0]);
            } else if a == p {
                let b0 = if b < p { b } else { b - 1 };
                assert(out@[b] == before[b0]);
            } else {
                let a0 = if a < p { a } else { a - 1 };
                assert(out@[a] == before[a0]);
            }
        }
        assert forall|y: HighlightedRange| #[trigger]
            out@.contains(y) <==> v@.subrange(0, i + 1).contains(y) by {
            if out@.contains(y) {
                let k = choose|k: int| 0 <= k < out@.len() && out@[k] == y;
                if k == p {
                    assert(v@.subrange(0, i + 1)[i as int] == y);
                } else {
                    let k0 = if k < p { k } else { k - 1 };
                    assert(before[k0] == y);
                    assert(before.contains(y));
                    let m = choose|m: int| 0 <= m < i && #[trigger] v@.subrange(0, i as int)[m] == y;
                    assert(v@.subrange(0, i + 1)[m] == y);
                }
            }
            if v@.subrange(0, i + 1).contains(y) {
                let m = choose|m: int| 0 <= m < i + 1 && #[trigger] v@.subrange(0, i + 1)[m] == y;
                if m == i {
                    assert(out@[p as int] == y);
                } else {
                    assert(v@.subrange(0, i as int)[m] == y);
                    assert(before.contains(y));
                    let k = choose|k: int| 0 <= k < before.len() && before[k] == y;
                    let k1 = if k < p { k } else { k + 1 };
                    assert(out@[k1] == y);
                }
            }
        }
        i += 1;
    }
    assert(v@.subrange(0, v@.len() as int) =~= v@);
    out
}

} // verus!
