use vstd::prelude::*;
use crate::captures::{capture_at, capture_closure, capture_member, closure_captures_spec};
use crate::exit_points::{
    exit_anchor, exit_body, exit_contrib, exit_member, exit_points_spec, exit_scope_of,
    exit_scope_pred, is_exit_scope, keyword_or_whole, tail_break,
};
use crate::ranges::{plain, HighlightedRange, ReferenceCategory};
use crate::references::{
    names, ref_contrib, ref_member, references_spec, trait_item_at, trait_item_use, trait_scope, unresolved_format_arg,
};
use crate::related::{related_spec, HighlightRelatedConfig};
use crate::semantics::{
    decl_category, decl_site, nav_ok, usage_in, usage_ok, DefinitionKind, Semantics,
};
use crate::tree::{is_loopish, stops, BlockModifier, Node, NodeKind, SyntaxTree, TextRange, Walk};
use crate::break_points::{
    break_anchor, break_contrib, break_member, break_points_spec, break_scope_of, break_scope_pred, cursor_label, distinct_jump_spans, jump_span,
};
use crate::yield_points::{
    yield_body, yield_contrib, yield_member, yield_points_spec, yield_scope_of, yield_scope_pred,
};

verus! {

/// Answering the same request twice, against the same tree and the same
/// facts, gives the same highlights.
pub proof fn lemma_related_deterministic(
    t: SyntaxTree,
    s: Semantics,
    config: HighlightRelatedConfig,
    file: u32,
    offset: u32,
    r1: Option<Seq<HighlightedRange>>,
    r2: Option<Seq<HighlightedRange>>,
)
    requires
        related_spec(t, s, config, file, offset, r1),
        related_spec(t, s, config, file, offset, r2),
    ensures
        r1 is Some <==> r2 is Some,
        r1 is Some ==> r1.unwrap().to_set() == r2.unwrap().to_set(),
{
    if r1 is Some && r2 is Some {
        assert(r1.unwrap().to_set() =~= r2.unwrap().to_set());
    }
}

/// A walk of mode `m` from `r` never reaches below a node that stops it.
pub proof fn lemma_reach_order(t: SyntaxTree, j: int, r: int, m: Walk)
    requires
        t.reach(j, r, m),
    ensures
        r <= j,
    decreases j,
{
    if j != r {
        let p = t.node(j).parent.unwrap() as int;
        lemma_reach_order(t, p, r, m);
    }
}

pub proof fn lemma_reach_plain(t: SyntaxTree, j: int, r: int, m: Walk)
    requires
        t.reach(j, r, m),
    ensures
        t.reach(j, r, Walk::Plain),
    decreases j,
{
    if j != r {
        let p = t.node(j).parent.unwrap() as int;
        lemma_reach_plain(t, p, r, m);
    }
}

pub proof fn lemma_reach_trans(t: SyntaxTree, j: int, l: int, r: int)
    requires
        t.reach(j, l, Walk::Plain),
        t.reach(l, r, Walk::Plain),
    ensures
        t.reach(j, r, Walk::Plain),
    decreases j,
{
    if j != l {
        let p = t.node(j).parent.unwrap() as int;
        lemma_reach_trans(t, p, l, r);
        if j == r {
            lemma_reach_order(t, l, r, Walk::Plain);
            lemma_reach_order(t, p, l, Walk::Plain);
        }
    }
}

/// A node that stops a walk of mode `m`, standing strictly between `j` and
/// `r`, keeps that walk from `r` away from `j`.
pub proof fn lemma_stop_between(t: SyntaxTree, j: int, l: int, r: int, m: Walk)
    requires
        t.reach(j, l, Walk::Plain),
        t.reach(l, r, Walk::Plain),
        l != j,
        l != r,
        stops(t.node(l).kind, m),
    ensures
        !t.reach(j, r, m),
    decreases j,
{
    lemma_reach_order(t, j, l, Walk::Plain);
    lemma_reach_order(t, l, r, Walk::Plain);
    if j != r && t.reach(j, r, m) {
        let p = t.node(j).parent.unwrap() as int;
        if p == l {
        } else if p == r {
            lemma_reach_order(t, p, l, Walk::Plain);
        } else {
            lemma_stop_between(t, p, l, r, m);
        }
    }
}

/// A `break` that names the outer construct's label leaves it from any depth
/// of its body, and leaves no construct that carries another label. An
/// unlabeled `break` in the body of an inner loop or labeled block leaves
/// that construct and not the one around it.
pub proof fn lemma_label_piercing(
    t: SyntaxTree,
    j: int,
    outer_body: int,
    outer_label: u32,
    inner: int,
    inner_body: int,
    inner_label: u32,
)
    requires
        0 <= j < t.len(),
        0 <= inner < t.len(),
        t.node(j).kind is Break,
        j != outer_body,
        j != inner_body,
        inner != outer_body,
        inner_label != outer_label,
        is_loopish(t.node(inner).kind),
        t.reach(inner_body, inner, Walk::Plain),
        t.reach(inner, outer_body, Walk::Plain),
    ensures
        (t.node(j).label is Some && t.node(j).label.unwrap().name == outer_label && t.reach(
            j,
            outer_body,
            Walk::Plain,
        )) ==> t.targets(j, outer_body, Some(outer_label)) && !t.targets(
            j,
            inner_body,
            Some(inner_label),
        ),
        (t.node(j).label is None && t.reach(j, inner_body, Walk::Loops)) ==> t.targets(
            j,
            inner_body,
            Some(inner_label),
        ) && forall|lbl: Option<u32>| !t.targets(j, outer_body, lbl),
{
    if t.node(j).label is None && t.reach(j, inner_body, Walk::Loops) {
        lemma_reach_plain(t, j, inner_body, Walk::Loops);
        lemma_reach_trans(t, j, inner_body, inner);
        lemma_reach_order(t, j, inner_body, Walk::Plain);
        lemma_reach_order(t, inner_body, inner, Walk::Plain);
        if j == inner {
            assert(false);
        }
        lemma_stop_between(t, j, inner, outer_body, Walk::Loops);
    }
}

/// Around token `tok`, in the body of its exit scope: each `return` and `?`
/// outside nested contexts, each call of never type there, and each
/// expression in value position are among the exit points, and no highlight
/// is there twice.
pub proof fn lemma_exit_points_cover(
    t: SyntaxTree,
    tok: int,
    r: Option<Seq<HighlightedRange>>,
    s: int,
    j: int,
)
    requires
        exit_points_spec(t, tok, r),
        exit_scope_of(t, tok) == Some(s),
        exit_body(t, s) is Some,
        0 <= j < t.len(),
    ensures
        r is Some,
        r.unwrap().no_duplicates(),
        (t.node(j).kind is Return || t.node(j).kind is Try) && t.node(j).keyword is Some && t.reach(
            j,
            exit_body(t, s).unwrap(),
            Walk::Scoped,
        ) ==> r.unwrap().contains(plain(t.node(j).keyword.unwrap())),
        t.node(j).kind is Call && t.node(j).diverges && t.reach(
            j,
            exit_body(t, s).unwrap(),
            Walk::Scoped,
        ) ==> r.unwrap().contains(plain(t.node(j).range)),
        t.tail_item(j, exit_body(t, s).unwrap()) ==> r.unwrap().contains(
            plain(keyword_or_whole(t.node(j))),
        ),
{
    let e = exit_body(t, s).unwrap();
    let n = t.node(j);
    if (n.kind is Return || n.kind is Try) && n.keyword is Some && t.reach(j, e, Walk::Scoped) {
        assert(exit_contrib(t, e, j, plain(n.keyword.unwrap())));
        assert(exit_member(t, s, plain(n.keyword.unwrap())));
    }
    if n.kind is Call && n.diverges && t.reach(j, e, Walk::Scoped) {
        assert(exit_contrib(t, e, j, plain(n.range)));
        assert(exit_member(t, s, plain(n.range)));
    }
    if t.tail_item(j, e) {
        assert(exit_contrib(t, e, j, plain(keyword_or_whole(n))));
        assert(exit_member(t, s, plain(keyword_or_whole(n))));
    }
}

/// An `.await` inside an async block nested in body `e` is no suspension
/// point of `e`'s scope; one outside nested contexts of that block is one of
/// the block.
pub proof fn lemma_yield_scope_stop(t: SyntaxTree, e: int, b: int, j: int)
    requires
        0 <= j < t.len(),
        0 <= b < t.len(),
        t.node(b).kind == NodeKind::Block(BlockModifier::Async),
        b != e,
        b != j,
        t.reach(j, b, Walk::Plain),
        t.reach(b, e, Walk::Plain),
    ensures
        forall|h: HighlightedRange| !yield_contrib(t, e, j, h),
        t.node(j).kind is Await && t.node(j).keyword is Some && t.reach(j, b, Walk::Scoped)
            ==> yield_contrib(t, b, j, plain(t.node(j).keyword.unwrap())),
{
    lemma_stop_between(t, j, b, e, Walk::Scoped);
}

/// A highlight of a closure's captures that lies outside the closure's body
/// is a declaration site of a captured local, never a usage.
pub proof fn lemma_capture_scope(
    t: SyntaxTree,
    s: Semantics,
    file: u32,
    tok: int,
    r: Option<Seq<HighlightedRange>>,
    h: HighlightedRange,
)
    requires
        closure_captures_spec(t, s, file, tok, r),
        r is Some,
        r.unwrap().contains(h),
        !t.node(t.node(capture_closure(t, tok).unwrap()).body.unwrap() as int).range.contains_range_spec(
            h.range,
        ),
    ensures
        exists|k: int| #[trigger]
            capture_at(s, k, capture_closure(t, tok).unwrap()) && decl_site(
                s.defs@[s.captures@[k].1 as int],
                file,
                h,
            ),
{
    let c = capture_closure(t, tok).unwrap();
    let b = t.node(c).body.unwrap() as int;
    assert(capture_member(t, s, file, c, b, h));
    let k = choose|k: int|
        #[trigger] capture_at(s, k, c) && ({
            let def = s.defs@[s.captures@[k].1 as int];
            decl_site(def, file, h) || usage_in(def, file, Some(t.node(b).range), h)
        });
    let def = s.defs@[s.captures@[k].1 as int];
    if usage_in(def, file, Some(t.node(b).range), h) {
        let u = choose|u: int|
            0 <= u < def.usages@.len() && #[trigger] usage_ok(
                def.usages@[u],
                file,
                Some(t.node(b).range),
                h,
            );
    }
}

/// A mutable local that the cursor names: its declaration in the file is
/// highlighted as a write, and a read of it there as a read.
pub proof fn lemma_mutable_local_write_read(
    t: SyntaxTree,
    s: Semantics,
    file: u32,
    tok: int,
    r: Option<Seq<HighlightedRange>>,
    d: int,
    k: int,
    u: int,
)
    requires
        references_spec(t, s, file, tok, r),
        forall|x: TextRange| !unresolved_format_arg(s, tok, x),
        names(s, tok, d),
        0 <= d < s.defs@.len(),
        s.defs@[d].kind == DefinitionKind::Local,
        s.defs@[d].is_mut,
        0 <= k < s.defs@[d].navs@.len(),
        s.defs@[d].navs@[k].file_id == file,
        s.defs@[d].navs@[k].focus_range is Some,
        0 <= u < s.defs@[d].usages@.len(),
        s.defs@[d].usages@[u].file_id == file,
        s.defs@[d].usages@[u].category == Some(ReferenceCategory::Read),
    ensures
        r is Some,
        r.unwrap().contains(
            HighlightedRange {
                range: s.defs@[d].navs@[k].focus_range.unwrap(),
                category: Some(ReferenceCategory::Write),
            },
        ),
        r.unwrap().contains(
            HighlightedRange {
                range: s.defs@[d].usages@[u].range,
                category: Some(ReferenceCategory::Read),
            },
        ),
{
    let def = s.defs@[d];
    let w = HighlightedRange {
        range: def.navs@[k].focus_range.unwrap(),
        category: Some(ReferenceCategory::Write),
    };
    let rd = HighlightedRange {
        range: def.usages@[u].range,
        category: Some(ReferenceCategory::Read),
    };
    assert(nav_ok(def.navs@[k], def, file, w));
    assert(usage_ok(def.usages@[u], file, None, rd));
    assert(ref_contrib(t, s, file, trait_scope(t, tok), d, w));
    assert(ref_contrib(t, s, file, trait_scope(t, tok), d, rd));
    assert(ref_member(t, s, file, tok, w));
    assert(ref_member(t, s, file, tok, rd));
}

/// A trait named in a bound or a `use` brings the uses of its and its
/// supertraits' items inside the scope that the bound or `use` serves into
/// the highlights, and no use outside that scope through its items.
pub proof fn lemma_trait_item_uses(
    t: SyntaxTree,
    s: Semantics,
    file: u32,
    tok: int,
    r: Option<Seq<HighlightedRange>>,
    d: int,
    sc: int,
    k: int,
    u: int,
)
    requires
        s.wf(),
        references_spec(t, s, file, tok, r),
        forall|x: TextRange| !unresolved_format_arg(s, tok, x),
        names(s, tok, d),
        0 <= d < s.defs@.len(),
        s.defs@[d].kind == DefinitionKind::Trait,
        trait_scope(t, tok) == Some(sc),
        trait_item_at(s, k, d),
        0 <= u < s.defs@[s.trait_items@[k].1 as int].usages@.len(),
        s.defs@[s.trait_items@[k].1 as int].usages@[u].file_id == file,
        t.node(sc).range.contains_range_spec(
            s.defs@[s.trait_items@[k].1 as int].usages@[u].range,
        ),
    ensures
        r is Some,
        r.unwrap().contains(
            HighlightedRange {
                range: s.defs@[s.trait_items@[k].1 as int].usages@[u].range,
                category: s.defs@[s.trait_items@[k].1 as int].usages@[u].category,
            },
        ),
        forall|h: HighlightedRange| #[trigger]
            trait_item_use(s, d, file, t.node(sc).range, h) ==> t.node(sc).range.contains_range_spec(
                h.range,
            ),
{
    let f = s.defs@[s.trait_items@[k].1 as int].usages@[u];
    let h = HighlightedRange { range: f.range, category: f.category };
    assert(usage_ok(f, file, Some(t.node(sc).range), h));
    assert(trait_item_use(s, d, file, t.node(sc).range, h));
    assert(ref_contrib(t, s, file, trait_scope(t, tok), d, h));
    assert(ref_member(t, s, file, tok, h));
    assert forall|h2: HighlightedRange| #[trigger]
        trait_item_use(s, d, file, t.node(sc).range, h2) implies t.node(
        sc,
    ).range.contains_range_spec(h2.range) by {
        let k2 = choose|k2: int|
            #[trigger] trait_item_at(s, k2, d) && usage_in(
                s.defs@[s.trait_items@[k2].1 as int],
                file,
                Some(t.node(sc).range),
                h2,
            );
        let def = s.defs@[s.trait_items@[k2].1 as int];
        let u2 = choose|u2: int|
            0 <= u2 < def.usages@.len() && #[trigger] usage_ok(
                def.usages@[u2],
                file,
                Some(t.node(sc).range),
                h2,
            );
    }
}

/// What an ancestor search finds lies in the arena and satisfies the search.
pub proof fn lemma_first_anc_in_range(t: SyntaxTree, i: int, f: spec_fn(Node) -> bool)
    ensures
        t.first_anc(i, f) is Some ==> 0 <= t.first_anc(i, f).unwrap() < t.len() && f(
            t.node(t.first_anc(i, f).unwrap()),
        ),
    decreases i,
{
    if 0 <= i < t.len() && !f(t.node(i)) {
        match t.node(i).parent {
            Some(q) => if q < i {
                lemma_first_anc_in_range(t, q as int, f);
            },
            None => {},
        }
    }
}

/// On the break points of a loop or labeled block: a `break` or `continue`
/// that does not leave it has no highlight there.
pub proof fn lemma_break_points_exclude(
    t: SyntaxTree,
    tok: int,
    r: Option<Seq<HighlightedRange>>,
    j: int,
)
    requires
        break_points_spec(t, tok, r),
        break_scope_of(t, tok) is Some,
        distinct_jump_spans(t),
        0 <= j < t.len(),
        t.node(j).kind is Break || t.node(j).kind is Continue,
        jump_span(t.node(j)) is Some,
        !(t.body_of(break_scope_of(t, tok).unwrap()) is Some && t.targets(
            j,
            t.body_of(break_scope_of(t, tok).unwrap()).unwrap(),
            t.label_name(break_scope_of(t, tok).unwrap()),
        )),
    ensures
        r is Some,
        !r.unwrap().contains(plain(jump_span(t.node(j)).unwrap())),
{
    let l = break_scope_of(t, tok).unwrap();
    let p = t.node(tok).parent.unwrap() as int;
    lemma_first_anc_in_range(t, p, break_scope_pred(cursor_label(t.node(p)).unwrap()));
    let h = plain(jump_span(t.node(j)).unwrap());
    if r.unwrap().contains(h) {
        assert(break_member(t, t.node(tok).kind, l, h));
        if Some(h.range) == break_anchor(t.node(l)) {
            assert(break_anchor(t.node(l)) != jump_span(t.node(j)));
        } else {
            let k = choose|k: int| #[trigger] break_contrib(t, t.node(tok).kind, l, k, h);
            if k != j {
                assert(jump_span(t.node(j)) != jump_span(t.node(k)));
            }
        }
    }
}

/// The label-piercing law on results: with the cursor on a loop or labeled
/// block `inner` inside the body of an outer one labeled `outer_label`, a
/// `break` that names `outer_label` has no highlight among `inner`'s break
/// points.
pub proof fn lemma_label_piercing_result(
    t: SyntaxTree,
    tok: int,
    r: Option<Seq<HighlightedRange>>,
    j: int,
    outer_body: int,
    outer_label: u32,
)
    requires
        break_points_spec(t, tok, r),
        break_scope_of(t, tok) is Some,
        distinct_jump_spans(t),
        0 <= j < t.len(),
        t.node(j).kind is Break,
        t.node(j).label is Some,
        t.node(j).label.unwrap().name == outer_label,
        jump_span(t.node(j)) is Some,
        t.label_name(break_scope_of(t, tok).unwrap()) != Some(outer_label),
    ensures
        r is Some,
        !r.unwrap().contains(plain(jump_span(t.node(j)).unwrap())),
{
    lemma_break_points_exclude(t, tok, r, j);
}

/// The yield-point law on results: an `.await` below a nested async block,
/// closure or item of the scope's body has no highlight among the scope's
/// yield points.
pub proof fn lemma_yield_scope_stop_result(
    t: SyntaxTree,
    tok: int,
    r: Option<Seq<HighlightedRange>>,
    b: int,
    j: int,
)
    requires
        yield_points_spec(t, tok, r),
        yield_scope_of(t, tok) is Some,
        t.node(yield_scope_of(t, tok).unwrap()).async_kw is Some,
        yield_body(t, yield_scope_of(t, tok).unwrap()) is Some,
        t.distinct_keywords(),
        0 <= j < t.len(),
        0 <= b < t.len(),
        t.node(j).kind is Await,
        t.node(j).keyword is Some,
        stops(t.node(b).kind, Walk::Scoped),
        b != j,
        b != yield_body(t, yield_scope_of(t, tok).unwrap()).unwrap(),
        t.reach(j, b, Walk::Plain),
        t.reach(b, yield_body(t, yield_scope_of(t, tok).unwrap()).unwrap(), Walk::Plain),
    ensures
        r is Some,
        !r.unwrap().contains(plain(t.node(j).keyword.unwrap())),
{
    let s = yield_scope_of(t, tok).unwrap();
    lemma_first_anc_in_range(t, t.node(tok).parent.unwrap() as int, yield_scope_pred());
    let e = yield_body(t, s).unwrap();
    let h = plain(t.node(j).keyword.unwrap());
    lemma_stop_between(t, j, b, e, Walk::Scoped);
    if r.unwrap().contains(h) {
        assert(yield_member(t, s, h));
        if t.node(s).async_kw == Some(h.range) {
            assert(t.node(s).async_kw != t.node(j).keyword);
        } else {
            let k = choose|k: int| #[trigger] yield_contrib(t, e, k, h);
            if k != j {
                assert(t.node(k).keyword != t.node(j).keyword);
            }
        }
    }
}

/// The capture law on results: a range outside the closure's body that is
/// no declaration site of a captured local has no highlight, whatever
/// usage it is.
pub proof fn lemma_capture_scope_result(
    t: SyntaxTree,
    s: Semantics,
    file: u32,
    tok: int,
    r: Option<Seq<HighlightedRange>>,
    x: TextRange,
)
    requires
        closure_captures_spec(t, s, file, tok, r),
        r is Some,
        !t.node(t.node(capture_closure(t, tok).unwrap()).body.unwrap() as int).range.contains_range_spec(
            x,
        ),
        forall|k: int, n: int|
            #![trigger capture_at(s, k, capture_closure(t, tok).unwrap()), s.defs@[s.captures@[k].1 as int].navs@[n]]
            capture_at(s, k, capture_closure(t, tok).unwrap()) && 0 <= n < s.defs@[s.captures@[
                k
            ].1 as int].navs@.len() ==> s.defs@[s.captures@[k].1 as int].navs@[n].focus_range != Some(x),
    ensures
        forall|h: HighlightedRange| #[trigger] r.unwrap().contains(h) ==> h.range != x,
{
    assert forall|h: HighlightedRange| #[trigger] r.unwrap().contains(h) implies h.range != x by {
        if h.range == x {
            lemma_capture_scope(t, s, file, tok, r, h);
            let c = capture_closure(t, tok).unwrap();
            let k = choose|k: int| #[trigger]
                capture_at(s, k, c) && decl_site(s.defs@[s.captures@[k].1 as int], file, h);
            let def = s.defs@[s.captures@[k].1 as int];
            let n = choose|n: int| 0 <= n < def.navs@.len() && #[trigger] nav_ok(def.navs@[n], def, file, h);
            assert(def.navs@[n].focus_range == Some(x));
        }
    }
}

/// The trait law's second half on results: a range outside the scope that
/// a trait bound serves, at which no definition the cursor names is used or
/// declared, has no highlight: uses of the trait's items count only inside
/// that scope.
pub proof fn lemma_trait_scope_result(
    t: SyntaxTree,
    s: Semantics,
    file: u32,
    tok: int,
    r: Option<Seq<HighlightedRange>>,
    sc: int,
    x: TextRange,
)
    requires
        references_spec(t, s, file, tok, r),
        forall|y: TextRange| !unresolved_format_arg(s, tok, y),
        trait_scope(t, tok) == Some(sc),
        !t.node(sc).range.contains_range_spec(x),
        forall|d: int, h: HighlightedRange|
            #![trigger names(s, tok, d), usage_in(s.defs@[d], file, None, h)]
            #![trigger names(s, tok, d), decl_site(s.defs@[d], file, h)]
            names(s, tok, d) && h.range == x ==> !usage_in(s.defs@[d], file, None, h) && !decl_site(
                s.defs@[d],
                file,
                h,
            ),
    ensures
        r is Some ==> forall|h: HighlightedRange| #[trigger] r.unwrap().contains(h) ==> h.range != x,
{
    if r is Some {
        assert forall|h: HighlightedRange| #[trigger] r.unwrap().contains(h) implies h.range != x by {
            if h.range == x {
                assert(ref_member(t, s, file, tok, h));
                let d = choose|d: int| #[trigger] names(s, tok, d) && ref_contrib(t, s, file, trait_scope(t, tok), d, h);
                if !trait_item_use(s, d, file, t.node(sc).range, h) {
                    assert(usage_in(s.defs@[d], file, None, h) || decl_site(s.defs@[d], file, h));
                } else {
                    let k2 = choose|k2: int|
                        #[trigger] trait_item_at(s, k2, d) && usage_in(
                            s.defs@[s.trait_items@[k2].1 as int],
                            file,
                            Some(t.node(sc).range),
                            h,
                        );
                    let def = s.defs@[s.trait_items@[k2].1 as int];
                    let u2 = choose|u2: int|
                        0 <= u2 < def.usages@.len() && #[trigger] usage_ok(
                            def.usages@[u2],
                            file,
                            Some(t.node(sc).range),
                            h,
                        );
                    assert(t.node(sc).range.contains_range_spec(h.range));
                }
            }
        }
    }
}

/// Every usage in the file of a definition that the cursor names, and each
/// of its declaration sites in the file, is highlighted: for a trait named in
/// a bound, its declaration, the bound itself and its other usages.
pub proof fn lemma_named_usages_and_decls(
    t: SyntaxTree,
    s: Semantics,
    file: u32,
    tok: int,
    r: Option<Seq<HighlightedRange>>,
    d: int,
)
    requires
        references_spec(t, s, file, tok, r),
        forall|x: TextRange| !unresolved_format_arg(s, tok, x),
        names(s, tok, d),
        0 <= d < s.defs@.len(),
    ensures
        forall|u: int|
            0 <= u < s.defs@[d].usages@.len() && (#[trigger] s.defs@[d].usages@[u]).file_id == file
                ==> r is Some && r.unwrap().contains(
                HighlightedRange {
                    range: s.defs@[d].usages@[u].range,
                    category: s.defs@[d].usages@[u].category,
                },
            ),
        forall|n: int|
            0 <= n < s.defs@[d].navs@.len() && (#[trigger] s.defs@[d].navs@[n]).file_id == file
                && s.defs@[d].navs@[n].focus_range is Some ==> r is Some && r.unwrap().contains(
                HighlightedRange {
                    range: s.defs@[d].navs@[n].focus_range.unwrap(),
                    category: decl_category(s.defs@[d]),
                },
            ),
{
    let def = s.defs@[d];
    assert forall|u: int|
        0 <= u < def.usages@.len() && (#[trigger] def.usages@[u]).file_id == file implies r is Some
            && r.unwrap().contains(
            HighlightedRange { range: def.usages@[u].range, category: def.usages@[u].category },
        ) by {
        let h = HighlightedRange { range: def.usages@[u].range, category: def.usages@[u].category };
        assert(usage_ok(def.usages@[u], file, None, h));
        assert(ref_contrib(t, s, file, trait_scope(t, tok), d, h));
        assert(ref_member(t, s, file, tok, h));
    }
    assert forall|n: int|
        0 <= n < def.navs@.len() && (#[trigger] def.navs@[n]).file_id == file
            && def.navs@[n].focus_range is Some implies r is Some && r.unwrap().contains(
            HighlightedRange {
                range: def.navs@[n].focus_range.unwrap(),
                category: decl_category(def),
            },
        ) by {
        let h = HighlightedRange {
            range: def.navs@[n].focus_range.unwrap(),
            category: decl_category(def),
        };
        assert(nav_ok(def.navs@[n], def, file, h));
        assert(ref_contrib(t, s, file, trait_scope(t, tok), d, h));
        assert(ref_member(t, s, file, tok, h));
    }
}

/// The exit-point law's second half: a `break` that is not itself in value
/// position, and leaves no loop or labeled block in value position, is no
/// exit point. This holds of trees where, as in any parsed file, distinct
/// nodes have distinct introducing tokens, no other expression spans just
/// that `break` keyword, and tokens never stand in value position.
pub proof fn lemma_exit_points_skip_inner_breaks(
    t: SyntaxTree,
    tok: int,
    r: Option<Seq<HighlightedRange>>,
    j: int,
)
    requires
        exit_points_spec(t, tok, r),
        exit_scope_of(t, tok) is Some,
        exit_body(t, exit_scope_of(t, tok).unwrap()) is Some,
        t.distinct_keywords(),
        0 <= j < t.len(),
        t.node(j).kind is Break,
        t.node(j).keyword is Some,
        !t.tail_pos(j, exit_body(t, exit_scope_of(t, tok).unwrap()).unwrap()),
        forall|l: int| #[trigger]
            t.tail_loop(l, exit_body(t, exit_scope_of(t, tok).unwrap()).unwrap()) ==> !(t.body_of(
                l,
            ) is Some && t.targets(j, t.body_of(l).unwrap(), t.label_name(l))),
        forall|i: int|
            0 <= i < t.len() && i != j && !(t.node(i).kind is Token) ==> #[trigger] t.node(i).range
                != t.node(j).keyword.unwrap(),
        forall|i: int| 0 <= i < t.len() && #[trigger] t.node(i).kind is Token ==> !t.node(i).is_tail,
        !(t.node(exit_body(t, exit_scope_of(t, tok).unwrap()).unwrap()).kind is Token),
        t.node(exit_scope_of(t, tok).unwrap()).closing != t.node(j).keyword,
    ensures
        r is Some,
        !r.unwrap().contains(plain(t.node(j).keyword.unwrap())),
{
    let s = exit_scope_of(t, tok).unwrap();
    lemma_first_anc_in_range(t, t.node(tok).parent.unwrap() as int, exit_scope_pred());
    let e = exit_body(t, s).unwrap();
    let kw = t.node(j).keyword.unwrap();
    let h = plain(kw);
    if r.unwrap().contains(h) {
        assert(exit_member(t, s, h));
        if exit_anchor(t.node(s), h) {
            if t.node(s).keyword == Some(kw) {
                assert(is_exit_scope(t.node(s)));
                assert(s != j);
                assert(t.node(s).keyword != t.node(j).keyword);
            }
        } else {
            let i = choose|i: int| #[trigger] exit_contrib(t, e, i, h);
            if i == j {
                assert(!t.tail_item(j, e));
                assert(!tail_break(t, e, j));
            } else if t.node(i).keyword == Some(kw) {
                assert(t.node(i).keyword != t.node(j).keyword);
            } else {
                assert(t.node(i).range == kw);
                if t.node(i).kind is Token {
                    assert(!t.node(i).is_tail);
                    assert(i != e);
                    assert(!t.tail_pos(i, e));
                }
            }
        }
    }
}

} // verus!
