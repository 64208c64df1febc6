use vstd::prelude::*;
use crate::ranges::{
    cover_range, cover_range_spec, extend_unique, opt_view, plain_range, push_unique, sort_by_start, sorted_by_start, HighlightedRange,
};
use crate::tree::{
    is_loop, kind_is_block, kind_is_loop, Label, Node, NodeKind, SyntaxTree, TextRange, TokenKind,
};

verus! {

pub open spec fn label_range(l: Option<Label>) -> Option<TextRange> {
    match l {
        Some(x) => Some(x.range),
        None => None,
    }
}

/// The label named at the cursor, when its parent is a `break`, a `continue`,
/// a loop or a block: `Some(None)` stands for no label, which matches any
/// loop. `None` when the parent is none of these, or an unlabeled block.
pub open spec fn cursor_label(n: Node) -> Option<Option<u32>> {
    match n.kind {
        NodeKind::Break | NodeKind::Continue | NodeKind::Loop | NodeKind::For | NodeKind::While => {
            match n.label {
                Some(x) => Some(Some(x.name)),
                None => Some(None),
            }
        },
        NodeKind::Block(_) => match n.label {
            Some(x) => Some(Some(x.name)),
            None => None,
        },
        _ => None,
    }
}

pub open spec fn label_matches(lbl: Option<u32>, def: Option<Label>) -> bool {
    match lbl {
        Some(x) => def is Some && def.unwrap().name == x,
        None => true,
    }
}

/// A loop, or a labeled block, whose label matches `lbl`.
pub open spec fn break_scope_pred(lbl: Option<u32>) -> spec_fn(Node) -> bool {
    |n: Node| (is_loop(n.kind) || (n.kind is Block && n.label is Some)) && label_matches(lbl, n.label)
}

/// The loop or labeled block that the token `tok` refers to.
pub open spec fn break_scope_of(t: SyntaxTree, tok: int) -> Option<int> {
    match t.node(tok).parent {
        Some(p) => match cursor_label(t.node(p as int)) {
            Some(lbl) => t.first_anc(p as int, break_scope_pred(lbl)),
            None => None,
        },
        None => None,
    }
}

/// The keyword of a loop together with its label; a block's label alone.
pub open spec fn break_anchor(n: Node) -> Option<TextRange> {
    cover_range_spec(if is_loop(n.kind) { n.keyword } else { None }, label_range(n.label))
}

/// Whether a cursor on `ck` asks for the `break`s or `continue`s of kind `k`.
pub open spec fn wants(ck: NodeKind, k: NodeKind) -> bool {
    ||| k is Break && (ck == NodeKind::Token(TokenKind::ForKw) || ck == NodeKind::Token(
        TokenKind::WhileKw,
    ) || ck == NodeKind::Token(TokenKind::LoopKw) || ck == NodeKind::Token(TokenKind::BreakKw))
    ||| k is Continue && (ck == NodeKind::Token(TokenKind::ForKw) || ck == NodeKind::Token(
        TokenKind::WhileKw,
    ) || ck == NodeKind::Token(TokenKind::LoopKw) || ck == NodeKind::Token(
        TokenKind::ContinueKw,
    ))
}

/// What node `j` adds to the break points of the construct `l`.
pub open spec fn break_contrib(
    t: SyntaxTree,
    ck: NodeKind,
    l: int,
    j: int,
    h: HighlightedRange,
) -> bool {
    &&& t.body_of(l) is Some
    &&& t.targets(j, t.body_of(l).unwrap(), t.label_name(l))
    &&& wants(ck, t.node(j).kind)
    &&& h.category is None
    &&& Some(h.range) == cover_range_spec(t.node(j).keyword, label_range(t.node(j).label))
}

pub open spec fn break_member(t: SyntaxTree, ck: NodeKind, l: int, h: HighlightedRange) -> bool {
    ||| h.category is None && Some(h.range) == break_anchor(t.node(l))
    ||| exists|j: int| #[trigger] break_contrib(t, ck, l, j, h)
}

/// The span of a `break` or `continue` with its label.
pub open spec fn jump_span(n: Node) -> Option<TextRange> {
    cover_range_spec(n.keyword, label_range(n.label))
}

/// As in any parsed file, distinct `break`s and `continue`s have distinct
/// spans, and none has the span of a loop's keyword and label.
pub open spec fn distinct_jump_spans(t: SyntaxTree) -> bool {
    &&& forall|i: int, j: int|
        0 <= i < t.len() && 0 <= j < t.len() && i != j && (t.node(i).kind is Break
            || t.node(i).kind is Continue) && (t.node(j).kind is Break || t.node(j).kind is Continue)
            && jump_span(t.node(i)) is Some ==> #[trigger] jump_span(t.node(i)) != #[trigger] jump_span(
            t.node(j),
        )
    &&& forall|l: int, j: int|
        0 <= l < t.len() && 0 <= j < t.len() && (t.node(j).kind is Break || t.node(j).kind is Continue)
            && #[trigger] break_anchor(t.node(l)) is Some ==> break_anchor(t.node(l)) != #[trigger] jump_span(
            t.node(j),
        )
}

fn wants_exec(ck: NodeKind, k: NodeKind) -> (r: bool)
    ensures
        r == wants(ck, k),
{
    let brk = match ck {
        NodeKind::Token(TokenKind::ForKw) | NodeKind::Token(TokenKind::WhileKw) | NodeKind::Token(
            TokenKind::LoopKw,
        ) => true,
        NodeKind::Token(TokenKind::BreakKw) => true,
        _ => false,
    };
    let cont = match ck {
        NodeKind::Token(TokenKind::ForKw) | NodeKind::Token(TokenKind::WhileKw) | NodeKind::Token(
            TokenKind::LoopKw,
        ) => true,
        NodeKind::Token(TokenKind::ContinueKw) => true,
        _ => false,
    };
    match k {
        NodeKind::Break => brk,
        NodeKind::Continue => cont,
        _ => false,
    }
}

fn label_range_of(l: Option<Label>) -> (r: Option<TextRange>)
    ensures
        r == label_range(l),
{
    match l {
        Some(x) => Some(x.range),
        None => None,
    }
}

fn find_break_scope(t: &SyntaxTree, start: usize, lbl: Option<u32>) -> (r: Option<usize>)
    requires
        t.wf(),
        start < t.len(),
    ensures
        match r {
            Some(x) => x < t.len() && t.first_anc(start as int, break_scope_pred(lbl)) == Some(
                x as int,
            ),
            None => t.first_anc(start as int, break_scope_pred(lbl)) is None,
        },
{
    let mut cur = start;
    loop
        invariant
            t.wf(),
            cur < t.len(),
            t.first_anc(start as int, break_scope_pred(lbl)) == t.first_anc(
                cur as int,
                break_scope_pred(lbl),
            ),
        decreases cur,
    {
        let n = t.nodes[cur];
        let shape = kind_is_loop(n.kind) || (kind_is_block(n.kind) && n.label.is_some());
        let matches = match lbl {
            Some(x) => match n.label {
                Some(d) => d.name == x,
                None => false,
            },
            None => true,
        };
        if shape && matches {
            return Some(cur);
        }
        match n.parent {
            Some(q) => {
                cur = q;
            },
            None => {
                return None;
            },
        }
    }
}

fn break_items_at(t: &SyntaxTree, ck: NodeKind, l: usize, b: usize, j: usize) -> (v: Vec<
    HighlightedRange,
>)
    requires
        t.wf(),
        l < t.len(),
        j < t.len(),
        t.body_of(l as int) == Some(b as int),
    ensures
        forall|h: HighlightedRange| #[trigger]
            v@.contains(h) <==> break_contrib(*t, ck, l as int, j as int, h),
{
    let mut v: Vec<HighlightedRange> = Vec::new();
    let lbl = match t.nodes[l].label {
        Some(x) => Some(x.name),
        None => None,
    };
    let n = t.nodes[j];
    if t.is_target(j, b, lbl) && wants_exec(ck, n.kind) {
        if let Some(r) = cover_range(n.keyword, label_range_of(n.label)) {
            v.push(plain_range(r));
            assert(v@[0] == crate::ranges::plain(r));
        }
    }
    v
}

pub open spec fn break_points_spec(t: SyntaxTree, tok: int, r: Option<Seq<HighlightedRange>>) -> bool {
    match break_scope_of(t, tok) {
        None => r is None,
        Some(l) => r is Some && r.unwrap().no_duplicates() && sorted_by_start(r.unwrap()) && forall|h: HighlightedRange|
            #[trigger] r.unwrap().contains(h) <==> break_member(t, t.node(tok).kind, l, h),
    }
}

/// Highlights the loop or labeled block that the `break`, `continue`, `loop`,
/// `while` or `for` token `tok` refers to: its keyword and label, and each
/// `break` (for a `break` cursor), `continue` (for a `continue` cursor) or
/// both (for a loop keyword) that leaves it. `None` when nothing matches.
pub fn highlight_break_points(t: &SyntaxTree, tok: usize) -> (r: Option<Vec<HighlightedRange>>)
    requires
        t.wf(),
        tok < t.len(),
    ensures
        break_points_spec(*t, tok as int, opt_view(r)),
{
    let ck = t.nodes[tok].kind;
    let p = match t.nodes[tok].parent {
        Some(p) => p,
        None => return None,
    };
    let pn = t.nodes[p];
    let lbl: Option<u32> = match pn.kind {
        NodeKind::Break | NodeKind::Continue | NodeKind::Loop | NodeKind::For | NodeKind::While => {
            match pn.label {
                Some(x) => Some(x.name),
                None => None,
            }
        },
        NodeKind::Block(_) => match pn.label {
            Some(x) => Some(x.name),
            None => return None,
        },
        _ => return None,
    };
    assert(cursor_label(t.node(p as int)) == Some(lbl));
    let l = match find_break_scope(t, p, lbl) {
        Some(l) => l,
        None => return None,
    };
    let n = t.nodes[l];
    let mut res: Vec<HighlightedRange> = Vec::new();
    let kw = if kind_is_loop(n.kind) {
        n.keyword
    } else {
        None
    };
    if let Some(a) = cover_range(kw, label_range_of(n.label)) {
        push_unique(&mut res, plain_range(a));
    }
    let body = if kind_is_block(n.kind) {
        Some(l)
    } else {
        n.body
    };
    proof {
        assert(match t.nodes@[l as int].body {
            Some(b) => b < t.len(),
            None => true,
        });
    }
    let b = match body {
        Some(b) => b,
        None => {
            assert forall|h: HighlightedRange| #[trigger]
                res@.contains(h) <==> break_member(*t, ck, l as int, h) by {}
            return Some(sort_by_start(res));
        },
    };
    let mut j: usize = 0;
    while j < t.nodes.len()
        invariant
            t.wf(),
            l < t.len(),
            n == t.node(l as int),
            t.body_of(l as int) == Some(b as int),
            0 <= j <= t.len(),
            res@.no_duplicates(),
            forall|h: HighlightedRange| #[trigger]
                res@.contains(h) <==> ((h.category is None && Some(h.range) == break_anchor(n))
                    || exists|k: int| 0 <= k < j && #[trigger] break_contrib(*t, ck, l as int, k, h)),
        decreases t.len() - j,
    {
        let w = break_items_at(t, ck, l, b, j);
        extend_unique(&mut res, &w);
        assert forall|h: HighlightedRange| #[trigger]
            res@.contains(h) <==> ((h.category is None && Some(h.range) == break_anchor(n))
                || exists|k: int| 0 <= k < j + 1 && #[trigger] break_contrib(*t, ck, l as int, k, h)) by {
            if exists|k: int| 0 <= k < j + 1 && #[trigger] break_contrib(*t, ck, l as int, k, h) {
                let k = choose|k: int| 0 <= k < j + 1 && #[trigger] break_contrib(*t, ck, l as int, k, h);
                if k == j {
                    assert(w@.contains(h));
                }
            }
        }
        j += 1;
    }
    assert forall|h: HighlightedRange| #[trigger]
        res@.contains(h) <==> break_member(*t, ck, l as int, h) by {
        if exists|k: int| #[trigger] break_contrib(*t, ck, l as int, k, h) {
            let k = choose|k: int| #[trigger] break_contrib(*t, ck, l as int, k, h);
            assert(0 <= k < j);
        }
    }
    Some(sort_by_start(res))
}

} // verus!
