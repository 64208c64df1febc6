use vstd::prelude::*;
use crate::ranges::{
    extend_unique, opt_view, plain_range, push_unique, sort_by_start, sorted_by_start, HighlightedRange,
};
use crate::tree::{
    is_block, kind_gives_by_break, kind_is_block, BlockModifier, Node, NodeKind, SyntaxTree, TextRange, Walk,
};

verus! {

/// A function, a closure, or an async, try or const block: a scope that
/// control leaves through its exit points.
pub open spec fn is_exit_scope(n: Node) -> bool {
    n.kind is Fn || n.kind is Closure || n.kind == NodeKind::Block(BlockModifier::Async)
        || n.kind == NodeKind::Block(BlockModifier::Try) || n.kind == NodeKind::Block(
        BlockModifier::Const,
    )
}

pub open spec fn exit_scope_pred() -> spec_fn(Node) -> bool {
    |n: Node| is_exit_scope(n)
}

/// The exit scope around token `tok`: its nearest enclosing one.
pub open spec fn exit_scope_of(t: SyntaxTree, tok: int) -> Option<int> {
    match t.node(tok).parent {
        Some(p) => t.first_anc(p as int, exit_scope_pred()),
        None => None,
    }
}

/// Where the walk for exit points starts: a block scope is its own body.
pub open spec fn exit_body(t: SyntaxTree, s: int) -> Option<int> {
    if is_block(t.node(s).kind) {
        Some(s)
    } else {
        match t.node(s).body {
            Some(b) => Some(b as int),
            None => None,
        }
    }
}

/// The tokens that introduce the scope: `fn`, a closure's parentheses, or a
/// block's modifier.
pub open spec fn exit_anchor(n: Node, h: HighlightedRange) -> bool {
    h.category is None && (n.keyword == Some(h.range) || (n.kind is Closure && n.closing == Some(
        h.range,
    )))
}

/// A `break` is marked by its keyword, any other expression as a whole.
pub open spec fn keyword_or_whole(n: Node) -> TextRange {
    match (n.kind, n.keyword) {
        (NodeKind::Break, Some(k)) => k,
        _ => n.range,
    }
}

/// `j` is a `break` that gives the value of a loop or labeled block that is
/// itself in value position of `e`.
pub open spec fn tail_break(t: SyntaxTree, e: int, j: int) -> bool {
    &&& t.node(j).kind is Break
    &&& exists|l: int|
        #![trigger t.tail_loop(l, e)]
        t.tail_loop(l, e) && match t.body_of(l) {
            Some(b) => t.targets(j, b, t.label_name(l)),
            None => false,
        }
}

/// What node `j` adds to the exit points of the body `e`.
pub open spec fn exit_contrib(t: SyntaxTree, e: int, j: int, h: HighlightedRange) -> bool {
    let n = t.node(j);
    &&& 0 <= j < t.len()
    &&& h.category is None
    &&& {
        ||| (n.kind is Return || n.kind is Try) && t.reach(j, e, Walk::Scoped) && n.keyword == Some(
            h.range,
        )
        ||| n.kind is Call && n.diverges && t.reach(j, e, Walk::Scoped) && h.range == n.range
        ||| t.tail_item(j, e) && h.range == keyword_or_whole(n)
        ||| tail_break(t, e, j) && h.range == keyword_or_whole(n)
    }
}

/// The exit points of scope `s`.
pub open spec fn exit_member(t: SyntaxTree, s: int, h: HighlightedRange) -> bool {
    ||| exit_anchor(t.node(s), h)
    ||| exit_body(t, s) is Some && exists|j: int|
        #[trigger] exit_contrib(t, exit_body(t, s).unwrap(), j, h)
}

fn kind_is_exit_scope(k: NodeKind) -> (r: bool)
    ensures
        r == (k is Fn || k is Closure || k == NodeKind::Block(BlockModifier::Async) || k
            == NodeKind::Block(BlockModifier::Try) || k == NodeKind::Block(BlockModifier::Const)),
{
    match k {
        NodeKind::Fn | NodeKind::Closure => true,
        NodeKind::Block(BlockModifier::Async) => true,
        NodeKind::Block(BlockModifier::Try) => true,
        NodeKind::Block(BlockModifier::Const) => true,
        _ => false,
    }
}

fn find_exit_scope(t: &SyntaxTree, start: usize) -> (r: Option<usize>)
    requires
        t.wf(),
        start < t.len(),
    ensures
        match r {
            Some(x) => x < t.len() && t.first_anc(start as int, exit_scope_pred()) == Some(
                x as int,
            ),
            None => t.first_anc(start as int, exit_scope_pred()) is None,
        },
{
    let mut cur = start;
    loop
        invariant
            t.wf(),
            cur < t.len(),
            t.first_anc(start as int, exit_scope_pred()) == t.first_anc(
                cur as int,
                exit_scope_pred(),
            ),
        decreases cur,
    {
        if kind_is_exit_scope(t.nodes[cur].kind) {
            return Some(cur);
        }
        match t.nodes[cur].parent {
            Some(q) => {
                cur = q;
            },
            None => {
                return None;
            },
        }
    }
}

fn is_tail_break(t: &SyntaxTree, e: usize, j: usize) -> (r: bool)
    requires
        t.wf(),
        e < t.len(),
        j < t.len(),
    ensures
        r == tail_break(*t, e as int, j as int),
{
    match t.nodes[j].kind {
        NodeKind::Break => {},
        _ => return false,
    }
    let mut l: usize = 0;
    while l < t.nodes.len()
        invariant
            t.wf(),
            e < t.len(),
            j < t.len(),
            t.node(j as int).kind is Break,
            forall|k: int|
                #![trigger t.tail_loop(k, e as int)]
                0 <= k < l ==> !(t.tail_loop(k, e as int) && match t.body_of(k) {
                    Some(b) => t.targets(j as int, b, t.label_name(k)),
                    None => false,
                }),
        decreases t.len() - l,
    {
        let n = t.nodes[l];
        if kind_gives_by_break(n.kind) && t.is_tail_pos(l, e) && !(l == e && kind_is_block(
            t.nodes[e].kind,
        )) {
            let body = if kind_is_block(n.kind) {
                Some(l)
            } else {
                n.body
            };
            let lbl = match n.label {
                Some(x) => Some(x.name),
                None => None,
            };
            match body {
                Some(b) => {
                    if t.is_target(j, b, lbl) {
                        assert(t.tail_loop(l as int, e as int));
                        return true;
                    }
                },
                None => {},
            }
        }
        l += 1;
    }
    false
}

fn keyword_or_whole_of(n: Node) -> (r: TextRange)
    ensures
        r == keyword_or_whole(n),
{
    match (n.kind, n.keyword) {
        (NodeKind::Break, Some(k)) => k,
        _ => n.range,
    }
}

fn exit_items_at(t: &SyntaxTree, e: usize, j: usize) -> (v: Vec<HighlightedRange>)
    requires
        t.wf(),
        e < t.len(),
        j < t.len(),
    ensures
        forall|h: HighlightedRange| #[trigger]
            v@.contains(h) <==> exit_contrib(*t, e as int, j as int, h),
{
    let n = t.nodes[j];
    let mut v: Vec<HighlightedRange> = Vec::new();
    let mut a: Option<TextRange> = None;
    let mut b: Option<TextRange> = None;
    let mut c: Option<TextRange> = None;
    match n.kind {
        NodeKind::Return | NodeKind::Try => {
            if t.reaches(j, e, Walk::Scoped) {
                a = n.keyword;
            }
        },
        NodeKind::Call => {
            if n.diverges && t.reaches(j, e, Walk::Scoped) {
                a = Some(n.range);
            }
        },
        _ => {},
    }
    let tail = !crate::tree::kind_forwards(n.kind) && !matches!(n.kind, NodeKind::Loop | NodeKind::While) && !(j
        == e && kind_is_block(t.nodes[e].kind)) && t.is_tail_pos(j, e);
    if tail {
        b = Some(keyword_or_whole_of(n));
    }
    if is_tail_break(t, e, j) {
        c = Some(keyword_or_whole_of(n));
    }
    if let Some(r) = a {
        v.push(plain_range(r));
    }
    if let Some(r) = b {
        v.push(plain_range(r));
    }
    if let Some(r) = c {
        v.push(plain_range(r));
    }
    assert forall|h: HighlightedRange| #[trigger]
        v@.contains(h) <==> exit_contrib(*t, e as int, j as int, h) by {
        if v@.contains(h) {
            let k = choose|k: int| 0 <= k < v@.len() && v@[k] == h;
        }
        if exit_contrib(*t, e as int, j as int, h) {
            if a == Some(h.range) {
                assert(v@[0] == h);
            } else if b == Some(h.range) {
                if a is Some {
                    assert(v@[1] == h);
                } else {
                    assert(v@[0] == h);
                }
            } else {
                assert(c == Some(h.range));
                assert(v@[v@.len() - 1] == h);
            }
        }
    }
    v
}

pub open spec fn exit_points_spec(t: SyntaxTree, tok: int, r: Option<Seq<HighlightedRange>>) -> bool {
    match exit_scope_of(t, tok) {
        None => r is None,
        Some(s) => r is Some && r.unwrap().no_duplicates() && sorted_by_start(r.unwrap()) && forall|h: HighlightedRange|
            #[trigger] r.unwrap().contains(h) <==> exit_member(t, s, h),
    }
}

/// Highlights the exit points of the function, closure or async/try/const
/// block around the token `tok`: the tokens that introduce it, each `return`
/// and `?`, each call of never type, and each expression in value position
/// (for a `break` there, its keyword). `None` when no such scope is around.
pub fn highlight_exit_points(t: &SyntaxTree, tok: usize) -> (r: Option<Vec<HighlightedRange>>)
    requires
        t.wf(),
        tok < t.len(),
    ensures
        exit_points_spec(*t, tok as int, opt_view(r)),
{
    let p = match t.nodes[tok].parent {
        Some(p) => p,
        None => return None,
    };
    let s = match find_exit_scope(t, p) {
        Some(s) => s,
        None => return None,
    };
    let n = t.nodes[s];
    let mut res: Vec<HighlightedRange> = Vec::new();
    if let Some(k) = n.keyword {
        push_unique(&mut res, plain_range(k));
    }
    if let NodeKind::Closure = n.kind {
        if let Some(k) = n.closing {
            push_unique(&mut res, plain_range(k));
        }
    }
    assert forall|h: HighlightedRange| #[trigger]
        res@.contains(h) <==> exit_anchor(n, h) by {}
    let body = if kind_is_block(n.kind) {
        Some(s)
    } else {
        n.body
    };
    proof {
        assert(match t.nodes@[s as int].body {
            Some(b) => b < t.len(),
            None => true,
        });
    }
    let e = match body {
        Some(e) => e,
        None => return Some(sort_by_start(res)),
    };
    let mut j: usize = 0;
    while j < t.nodes.len()
        invariant
            t.wf(),
            e < t.len(),
            s < t.len(),
            n == t.node(s as int),
            exit_body(*t, s as int) == Some(e as int),
            0 <= j <= t.len(),
            res@.no_duplicates(),
            forall|h: HighlightedRange| #[trigger]
                res@.contains(h) <==> (exit_anchor(n, h) || exists|k: int|
                    0 <= k < j && #[trigger] exit_contrib(*t, e as int, k, h)),
        decreases t.len() - j,
    {
        let w = exit_items_at(t, e, j);
        extend_unique(&mut res, &w);
        assert forall|h: HighlightedRange| #[trigger]
            res@.contains(h) <==> (exit_anchor(n, h) || exists|k: int|
                0 <= k < j + 1 && #[trigger] exit_contrib(*t, e as int, k, h)) by {
            if exists|k: int| 0 <= k < j + 1 && #[trigger] exit_contrib(*t, e as int, k, h) {
                let k = choose|k: int| 0 <= k < j + 1 && #[trigger] exit_contrib(*t, e as int, k, h);
                if k < j {
                } else {
                    assert(w@.contains(h));
                }
            }
        }
        j += 1;
    }
    assert forall|h: HighlightedRange| #[trigger]
        res@.contains(h) <==> exit_member(*t, s as int, h) by {
        let b = exists|k: int| #[trigger] exit_contrib(*t, e as int, k, h);
        if b {
            let k = choose|k: int| #[trigger] exit_contrib(*t, e as int, k, h);
            assert(0 <= k < j);
            assert(exit_contrib(*t, exit_body(*t, s as int).unwrap(), k, h));
        }
        assert(exit_member(*t, s as int, h) ==> (exit_anchor(n, h) || b));
    }
    Some(sort_by_start(res))
}

} // verus!
