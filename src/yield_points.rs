use vstd::prelude::*;
use crate::ranges::{
    extend_unique, opt_view, plain_range, push_unique, sort_by_start, sorted_by_start, HighlightedRange,
};
use crate::tree::{is_block, kind_is_block, Node, NodeKind, SyntaxTree, Walk};

verus! {

/// A function, a closure, or a block that carries `async`.
pub open spec fn yield_scope_pred() -> spec_fn(Node) -> bool {
    |n: Node| n.kind is Fn || n.kind is Closure || (n.kind is Block && n.async_kw is Some)
}

/// The nearest function, closure or async block around the token `tok`.
pub open spec fn yield_scope_of(t: SyntaxTree, tok: int) -> Option<int> {
    match t.node(tok).parent {
        Some(p) => t.first_anc(p as int, yield_scope_pred()),
        None => None,
    }
}

pub open spec fn yield_body(t: SyntaxTree, s: int) -> Option<int> {
    if is_block(t.node(s).kind) {
        Some(s)
    } else {
        match t.node(s).body {
            Some(b) => Some(b as int),
            None => None,
        }
    }
}

/// Node `j` is an `.await` of the body `e`, outside any nested context.
pub open spec fn yield_contrib(t: SyntaxTree, e: int, j: int, h: HighlightedRange) -> bool {
    &&& 0 <= j < t.len()
    &&& t.node(j).kind is Await
    &&& t.reach(j, e, Walk::Scoped)
    &&& h.category is None
    &&& t.node(j).keyword == Some(h.range)
}

pub open spec fn yield_member(t: SyntaxTree, s: int, h: HighlightedRange) -> bool {
    ||| h.category is None && t.node(s).async_kw == Some(h.range)
    ||| yield_body(t, s) is Some && exists|j: int|
        #[trigger] yield_contrib(t, yield_body(t, s).unwrap(), j, h)
}

fn find_yield_scope(t: &SyntaxTree, start: usize) -> (r: Option<usize>)
    requires
        t.wf(),
        start < t.len(),
    ensures
        match r {
            Some(x) => x < t.len() && t.first_anc(start as int, yield_scope_pred()) == Some(
                x as int,
            ),
            None => t.first_anc(start as int, yield_scope_pred()) is None,
        },
{
    let mut cur = start;
    loop
        invariant
            t.wf(),
            cur < t.len(),
            t.first_anc(start as int, yield_scope_pred()) == t.first_anc(
                cur as int,
                yield_scope_pred(),
            ),
        decreases cur,
    {
        let n = t.nodes[cur];
        let hit = match n.kind {
            NodeKind::Fn | NodeKind::Closure => true,
            NodeKind::Block(_) => n.async_kw.is_some(),
            _ => false,
        };
        if hit {
            return Some(cur);
        }
        match n.parent {
            Some(q) => {
                cur = q;
            },
            None => {
                return None;
            },
        }
    }
}

fn yield_items_at(t: &SyntaxTree, e: usize, j: usize) -> (v: Vec<HighlightedRange>)
    requires
        t.wf(),
        j < t.len(),
    ensures
        forall|h: HighlightedRange| #[trigger]
            v@.contains(h) <==> yield_contrib(*t, e as int, j as int, h),
{
    let mut v: Vec<HighlightedRange> = Vec::new();
    let n = t.nodes[j];
    if let NodeKind::Await = n.kind {
        if let Some(k) = n.keyword {
            if t.reaches(j, e, Walk::Scoped) {
                v.push(plain_range(k));
                assert(v@[0] == crate::ranges::plain(k));
            }
        }
    }
    v
}

pub open spec fn yield_points_spec(t: SyntaxTree, tok: int, r: Option<Seq<HighlightedRange>>) -> bool {
    match yield_scope_of(t, tok) {
        None => r is None,
        Some(s) => if t.node(s).async_kw is None {
            r is None
        } else {
            r is Some && r.unwrap().no_duplicates() && sorted_by_start(r.unwrap()) && forall|h: HighlightedRange|
                #[trigger] r.unwrap().contains(h) <==> yield_member(t, s, h)
        },
    }
}

/// Highlights the suspension points of the async function, closure or block
/// around the token `tok`: its `async` and each `.await` that is not inside
/// a nested async scope, closure or item. `None` when there is no such scope,
/// or when the nearest function or closure is not async.
pub fn highlight_yield_points(t: &SyntaxTree, tok: usize) -> (r: Option<Vec<HighlightedRange>>)
    requires
        t.wf(),
        tok < t.len(),
    ensures
        yield_points_spec(*t, tok as int, opt_view(r)),
{
    let p = match t.nodes[tok].parent {
        Some(p) => p,
        None => return None,
    };
    let s = match find_yield_scope(t, p) {
        Some(s) => s,
        None => return None,
    };
    let n = t.nodes[s];
    let a = match n.async_kw {
        Some(a) => a,
        None => return None,
    };
    let mut res: Vec<HighlightedRange> = Vec::new();
    push_unique(&mut res, plain_range(a));
    let body = if kind_is_block(n.kind) {
        Some(s)
    } else {
        n.body
    };
    let e = match body {
        Some(e) => e,
        None => {
            assert forall|h: HighlightedRange| #[trigger]
                res@.contains(h) <==> yield_member(*t, s as int, h) by {}
            return Some(sort_by_start(res));
        },
    };
    let mut j: usize = 0;
    while j < t.nodes.len()
        invariant
            t.wf(),
            s < t.len(),
            n == t.node(s as int),
            n.async_kw == Some(a),
            yield_body(*t, s as int) == Some(e as int),
            0 <= j <= t.len(),
            res@.no_duplicates(),
            forall|h: HighlightedRange| #[trigger]
                res@.contains(h) <==> ((h.category is None && n.async_kw == Some(h.range))
                    || exists|k: int| 0 <= k < j && #[trigger] yield_contrib(*t, e as int, k, h)),
        decreases t.len() - j,
    {
        let w = yield_items_at(t, e, j);
        extend_unique(&mut res, &w);
        assert forall|h: HighlightedRange| #[trigger]
            res@.contains(h) <==> ((h.category is None && n.async_kw == Some(h.range))
                || exists|k: int| 0 <= k < j + 1 && #[trigger] yield_contrib(*t, e as int, k, h)) by {
            if exists|k: int| 0 <= k < j + 1 && #[trigger] yield_contrib(*t, e as int, k, h) {
                let k = choose|k: int| 0 <= k < j + 1 && #[trigger] yield_contrib(*t, e as int, k, h);
                if k == j {
                    assert(w@.contains(h));
                }
            }
        }
        j += 1;
    }
    assert forall|h: HighlightedRange| #[trigger]
        res@.contains(h) <==> yield_member(*t, s as int, h) by {
        let b = exists|k: int| #[trigger] yield_contrib(*t, e as int, k, h);
        if b {
            let k = choose|k: int| #[trigger] yield_contrib(*t, e as int, k, h);
            assert(0 <= k < j);
            assert(yield_contrib(*t, yield_body(*t, s as int).unwrap(), k, h));
        }
        assert(yield_member(*t, s as int, h) ==> ((h.category is None && n.async_kw == Some(h.range)) || b));
    }
    Some(sort_by_start(res))
}

} // verus!
