use vstd::prelude::*;
use crate::ranges::{
    extend_unique, opt_view, plain, plain_range, sort_by_start, sorted_by_start, HighlightedRange,
};
use crate::semantics::{decl_site, decl_sites, usage_in, usages_in, DefinitionKind, Semantics};
use crate::tree::{Node, NodeKind, SyntaxTree, TextRange};

verus! {

pub open spec fn parent_of(t: SyntaxTree, i: int) -> Option<int> {
    if 0 <= i < t.len() {
        match t.node(i).parent {
            Some(p) => if p < i {
                Some(p as int)
            } else {
                None
            },
            None => None,
        }
    } else {
        None
    }
}

/// The outermost path in the chain of paths that starts at `i`.
pub open spec fn path_top(t: SyntaxTree, i: int) -> int
    decreases i,
{
    match parent_of(t, i) {
        Some(p) => if t.node(p).kind is Path && p < i {
            path_top(t, p)
        } else {
            i
        },
        None => i,
    }
}

/// The whole path that a name reference is the last segment of.
pub open spec fn full_path(t: SyntaxTree, nr: int) -> Option<int> {
    match parent_of(t, nr) {
        Some(seg) => if t.node(seg).kind is PathSegment {
            match parent_of(t, seg) {
                Some(p) => if t.node(p).kind is Path {
                    Some(path_top(t, p))
                } else {
                    None
                },
                None => None,
            }
        } else {
            None
        },
        None => None,
    }
}

/// With `items`, an item; otherwise a source file or a module.
pub open spec fn scope_pred(items: bool) -> spec_fn(Node) -> bool {
    |n: Node|
        if items {
            n.kind is Fn || n.kind is OtherItem || n.kind is Module
        } else {
            n.kind is SourceFile || n.kind is Module
        }
}

/// The scope in which a trait named at `tok` brings its items into use: the
/// module around a `use` of it, or the item whose generic parameter or
/// `where` clause bounds by it.
pub open spec fn trait_scope(t: SyntaxTree, tok: int) -> Option<int> {
    match parent_of(t, tok) {
        Some(nr) => if t.node(nr).kind is NameRef {
            match full_path(t, nr) {
                Some(path) => match parent_of(t, path) {
                    Some(q) => if t.node(q).kind is UseTree {
                        t.first_anc(q, scope_pred(false))
                    } else if t.node(q).kind is PathType {
                        bound_scope(t, q)
                    } else {
                        None
                    },
                    None => None,
                },
                None => None,
            }
        } else {
            None
        },
        None => None,
    }
}

pub open spec fn bound_scope(t: SyntaxTree, q: int) -> Option<int> {
    match parent_of(t, q) {
        Some(g1) => match parent_of(t, g1) {
            Some(g2) => if t.node(g2).kind is TypeBoundList {
                match parent_of(t, g2) {
                    Some(w) => if t.node(w).kind is WhereClause || t.node(w).kind is TypeParam {
                        t.first_anc(w, scope_pred(true))
                    } else {
                        None
                    },
                    None => None,
                }
            } else {
                None
            },
            None => None,
        },
        None => None,
    }
}

fn parent_exec(t: &SyntaxTree, i: usize) -> (r: Option<usize>)
    requires
        t.wf(),
        i < t.len(),
    ensures
        match r {
            Some(p) => parent_of(*t, i as int) == Some(p as int) && p < i,
            None => parent_of(*t, i as int) is None,
        },
{
    t.nodes[i].parent
}

fn path_top_exec(t: &SyntaxTree, i: usize) -> (r: usize)
    requires
        t.wf(),
        i < t.len(),
    ensures
        r as int == path_top(*t, i as int),
        r < t.len(),
    decreases i,
{
    match parent_exec(t, i) {
        Some(p) => match t.nodes[p].kind {
            NodeKind::Path => path_top_exec(t, p),
            _ => i,
        },
        None => i,
    }
}

fn find_scope(t: &SyntaxTree, start: usize, items: bool) -> (r: Option<usize>)
    requires
        t.wf(),
        start < t.len(),
    ensures
        match r {
            Some(x) => x < t.len() && t.first_anc(start as int, scope_pred(items)) == Some(
                x as int,
            ),
            None => t.first_anc(start as int, scope_pred(items)) is None,
        },
{
    let mut cur = start;
    loop
        invariant
            t.wf(),
            cur < t.len(),
            t.first_anc(start as int, scope_pred(items)) == t.first_anc(
                cur as int,
                scope_pred(items),
            ),
        decreases cur,
    {
        let k = t.nodes[cur].kind;
        let hit = if items {
            match k {
                NodeKind::Fn | NodeKind::OtherItem | NodeKind::Module => true,
                _ => false,
            }
        } else {
            match k {
                NodeKind::SourceFile | NodeKind::Module => true,
                _ => false,
            }
        };
        if hit {
            return Some(cur);
        }
        match t.nodes[cur].parent {
            Some(q) => {
                cur = q;
            },
            None => {
                return None;
            },
        }
    }
}

fn bound_scope_exec(t: &SyntaxTree, q: usize) -> (r: Option<usize>)
    requires
        t.wf(),
        q < t.len(),
    ensures
        match r {
            Some(x) => x < t.len() && bound_scope(*t, q as int) == Some(x as int),
            None => bound_scope(*t, q as int) is None,
        },
{
    let g1 = parent_exec(t, q)?;
    let g2 = parent_exec(t, g1)?;
    match t.nodes[g2].kind {
        NodeKind::TypeBoundList => {},
        _ => return None,
    }
    let w = parent_exec(t, g2)?;
    match t.nodes[w].kind {
        NodeKind::WhereClause | NodeKind::TypeParam => find_scope(t, w, true),
        _ => None,
    }
}

fn trait_scope_exec(t: &SyntaxTree, tok: usize) -> (r: Option<usize>)
    requires
        t.wf(),
        tok < t.len(),
    ensures
        match r {
            Some(x) => x < t.len() && trait_scope(*t, tok as int) == Some(x as int),
            None => trait_scope(*t, tok as int) is None,
        },
{
    let nr = parent_exec(t, tok)?;
    match t.nodes[nr].kind {
        NodeKind::NameRef => {},
        _ => return None,
    }
    let seg = parent_exec(t, nr)?;
    match t.nodes[seg].kind {
        NodeKind::PathSegment => {},
        _ => return None,
    }
    let p = parent_exec(t, seg)?;
    match t.nodes[p].kind {
        NodeKind::Path => {},
        _ => return None,
    }
    let path = path_top_exec(t, p);
    assert(full_path(*t, nr as int) == Some(path as int));
    let q = parent_exec(t, path)?;
    match t.nodes[q].kind {
        NodeKind::UseTree => find_scope(t, q, false),
        NodeKind::PathType => bound_scope_exec(t, q),
        _ => None,
    }
}

pub open spec fn fmt_at(s: Semantics, k: int, tok: int) -> bool {
    0 <= k < s.format_args@.len() && s.format_args@[k].token == tok
}

pub open spec fn has_format_arg(s: Semantics, tok: int) -> bool {
    exists|k: int| #[trigger] fmt_at(s, k, tok)
}

pub open spec fn token_def_at(s: Semantics, k: int, tok: int, d: int) -> bool {
    0 <= k < s.token_defs@.len() && s.token_defs@[k].0 == tok && s.token_defs@[k].1 == d
}

/// The token `tok` names definition `d`: through the format string reference
/// at it when there is one, else through name resolution.
pub open spec fn names(s: Semantics, tok: int, d: int) -> bool {
    if has_format_arg(s, tok) {
        exists|k: int|
            #[trigger] fmt_at(s, k, tok) && s.format_args@[k].def is Some
                && s.format_args@[k].def.unwrap() as int == d
    } else {
        exists|k: int| #[trigger] token_def_at(s, k, tok, d)
    }
}

/// A format string reference at `tok` that names no definition, at `r`.
pub open spec fn unresolved_format_arg(s: Semantics, tok: int, r: TextRange) -> bool {
    exists|k: int|
        #[trigger] fmt_at(s, k, tok) && s.format_args@[k].def is None && s.format_args@[k].range
            == r
}

fn holds(v: &Vec<usize>, d: usize) -> (b: bool)
    ensures
        b == in_seq(v@, d as int),
{
    let mut i: usize = 0;
    while i < v.len()
        invariant
            0 <= i <= v@.len(),
            forall|m: int| 0 <= m < i ==> v@[m] != d,
        decreases v@.len() - i,
    {
        if v[i] == d {
            return true;
        }
        i += 1;
    }
    false
}

fn defs_for(s: &Semantics, tok: usize) -> (r: Result<Vec<usize>, TextRange>)
    requires
        s.wf(),
    ensures
        r is Err ==> unresolved_format_arg(*s, tok as int, r->Err_0),
        r is Ok ==> forall|x: TextRange| !unresolved_format_arg(*s, tok as int, x),
        r is Ok ==> forall|m: int| 0 <= m < r->Ok_0@.len() ==> r->Ok_0@[m] < s.defs@.len(),
        r is Ok ==> forall|d: int| #[trigger] names(*s, tok as int, d) <==> in_seq(r->Ok_0@, d),
        r is Ok ==> r->Ok_0@.no_duplicates(),
{
    let mut k: usize = 0;
    while k < s.format_args.len()
        invariant
            s.wf(),
            0 <= k <= s.format_args@.len(),
            forall|m: int| 0 <= m < k ==> !fmt_at(*s, m, tok as int),
        decreases s.format_args@.len() - k,
    {
        let f = s.format_args[k];
        if f.token == tok {
            assert(fmt_at(*s, k as int, tok as int));
            assert(forall|m: int| #[trigger] fmt_at(*s, m, tok as int) ==> m == k);
            match f.def {
                None => return Err(f.range),
                Some(d) => {
                    let mut ds: Vec<usize> = Vec::new();
                    ds.push(d);
                    assert(ds@[0] == d);
                    assert(s.format_args@[k as int].def == Some(d));
                    assert(d < s.defs@.len());
                    assert forall|x: TextRange| !unresolved_format_arg(*s, tok as int, x) by {}
                    assert(has_format_arg(*s, tok as int));
                    assert forall|e: int| #[trigger] names(*s, tok as int, e) <==> exists|m: int|
                        0 <= m < ds@.len() && #[trigger] ds@[m] == e by {
                        if names(*s, tok as int, e) {
                            let k2 = choose|k2: int| #[trigger] fmt_at(*s, k2, tok as int)
                                && s.format_args@[k2].def is Some
                                && s.format_args@[k2].def.unwrap() as int == e;
                            assert(k2 == k);
                            assert(ds@[0] == e);
                        }
                        if exists|m: int| 0 <= m < ds@.len() && #[trigger] ds@[m] == e {
                            assert(fmt_at(*s, k as int, tok as int));
                        }
                    }
                    return Ok(ds);
                },
            }
        }
        k += 1;
    }
    assert(!has_format_arg(*s, tok as int));
    let mut ds: Vec<usize> = Vec::new();
    let mut i: usize = 0;
    while i < s.token_defs.len()
        invariant
            s.wf(),
            0 <= i <= s.token_defs@.len(),
            forall|m: int| 0 <= m < ds@.len() ==> ds@[m] < s.defs@.len(),
            ds@.no_duplicates(),
            forall|d: int|
                #[trigger] token_def_upto(*s, tok as int, d, i as int) <==> exists|m: int|
                    0 <= m < ds@.len() && #[trigger] ds@[m] == d,
        decreases s.token_defs@.len() - i,
    {
        let (a, d) = s.token_defs[i];
        let ghost before = ds@;
        if a == tok && !holds(&ds, d) {
            ds.push(d);
            assert forall|x: int, y: int| 0 <= x < y < ds@.len() implies ds@[x] != ds@[y] by {
                if y == ds@.len() - 1 {
                    assert(before[x] == ds@[x]);
                }
            }
        }
        assert forall|e: int|
            #[trigger] token_def_upto(*s, tok as int, e, i + 1) <==> exists|m: int|
                0 <= m < ds@.len() && #[trigger] ds@[m] == e by {
            if exists|k: int| 0 <= k < i + 1 && #[trigger] token_def_at(*s, k, tok as int, e) {
                let k = choose|k: int| 0 <= k < i + 1 && #[trigger] token_def_at(*s, k, tok as int, e);
                if k < i {
                    assert(token_def_upto(*s, tok as int, e, i as int));
                    let m = choose|m: int| 0 <= m < before.len() && #[trigger] before[m] == e;
                    assert(ds@[m] == e);
                } else if in_seq(before, e) {
                    let m = choose|m: int| 0 <= m < before.len() && #[trigger] before[m] == e;
                    assert(ds@[m] == e);
                } else {
                    assert(ds@[ds@.len() - 1] == e);
                }
            }
            if exists|m: int| 0 <= m < ds@.len() && #[trigger] ds@[m] == e {
                let m = choose|m: int| 0 <= m < ds@.len() && #[trigger] ds@[m] == e;
                if m < before.len() {
                    assert(before[m] == e);
                    assert(token_def_upto(*s, tok as int, e, i as int));
                } else {
                    assert(token_def_at(*s, i as int, tok as int, e));
                }
            }
        }
        i += 1;
    }
    assert forall|x: TextRange| !unresolved_format_arg(*s, tok as int, x) by {}
    assert forall|d: int| #[trigger] names(*s, tok as int, d) <==> exists|m: int|
        0 <= m < ds@.len() && #[trigger] ds@[m] == d by {
        assert(names(*s, tok as int, d) == token_def_upto(*s, tok as int, d, i as int));
    }
    Ok(ds)
}

pub open spec fn in_seq(v: Seq<usize>, d: int) -> bool {
    exists|m: int| 0 <= m < v.len() && #[trigger] v[m] == d
}

pub open spec fn token_def_upto(s: Semantics, tok: int, d: int, i: int) -> bool {
    exists|k: int| 0 <= k < i && #[trigger] token_def_at(s, k, tok, d)
}

pub open spec fn trait_item_at(s: Semantics, k: int, d: int) -> bool {
    0 <= k < s.trait_items@.len() && s.trait_items@[k].0 == d
}

/// `h` is a use of an associated item of trait `d`, or of its supertraits,
/// inside `sr`.
pub open spec fn trait_item_use(
    s: Semantics,
    d: int,
    file: u32,
    sr: TextRange,
    h: HighlightedRange,
) -> bool {
    exists|k: int|
        #[trigger] trait_item_at(s, k, d) && usage_in(
            s.defs@[s.trait_items@[k].1 as int],
            file,
            Some(sr),
            h,
        )
}

fn trait_item_uses(s: &Semantics, d: usize, file: u32, sr: TextRange) -> (v: Vec<
    HighlightedRange,
>)
    requires
        s.wf(),
    ensures
        v@.no_duplicates(),
        forall|h: HighlightedRange| #[trigger]
            v@.contains(h) <==> trait_item_use(*s, d as int, file, sr, h),
{
    let mut v: Vec<HighlightedRange> = Vec::new();
    let mut k: usize = 0;
    while k < s.trait_items.len()
        invariant
            s.wf(),
            0 <= k <= s.trait_items@.len(),
            v@.no_duplicates(),
            forall|h: HighlightedRange| #[trigger]
                v@.contains(h) <==> exists|m: int|
                    0 <= m < k && #[trigger] trait_item_at(*s, m, d as int) && usage_in(
                        s.defs@[s.trait_items@[m].1 as int],
                        file,
                        Some(sr),
                        h,
                    ),
        decreases s.trait_items@.len() - k,
    {
        let (tr, item) = s.trait_items[k];
        let ghost before = v@;
        let w = if tr == d {
            usages_in(&s.defs[item], file, Some(sr))
        } else {
            Vec::new()
        };
        extend_unique(&mut v, &w);
        assert forall|h: HighlightedRange| #[trigger]
            v@.contains(h) <==> exists|m: int|
                0 <= m < k + 1 && #[trigger] trait_item_at(*s, m, d as int) && usage_in(
                    s.defs@[s.trait_items@[m].1 as int],
                    file,
                    Some(sr),
                    h,
                ) by {
            if exists|m: int|
                0 <= m < k + 1 && #[trigger] trait_item_at(*s, m, d as int) && usage_in(
                    s.defs@[s.trait_items@[m].1 as int],
                    file,
                    Some(sr),
                    h,
                ) {
                let m = choose|m: int|
                    0 <= m < k + 1 && #[trigger] trait_item_at(*s, m, d as int) && usage_in(
                        s.defs@[s.trait_items@[m].1 as int],
                        file,
                        Some(sr),
                        h,
                    );
                if m == k {
                    assert(usage_in(s.defs@[item as int], file, Some(sr), h));
                } else {
                    assert(before.contains(h));
                }
            }
            if w@.contains(h) {
                assert(trait_item_at(*s, k as int, d as int));
            }
            if before.contains(h) {
            }
        }
        k += 1;
    }
    v
}

/// What definition `d` adds to the highlights: its usages, its declaration
/// sites, and for a trait with a use scope the uses of its items there.
pub open spec fn ref_contrib(
    t: SyntaxTree,
    s: Semantics,
    file: u32,
    sc: Option<int>,
    d: int,
    h: HighlightedRange,
) -> bool {
    let def = s.defs@[d];
    ||| usage_in(def, file, None, h)
    ||| decl_site(def, file, h)
    ||| def.kind == DefinitionKind::Trait && sc is Some && trait_item_use(
        s,
        d,
        file,
        t.node(sc.unwrap()).range,
        h,
    )
}

pub open spec fn ref_member(
    t: SyntaxTree,
    s: Semantics,
    file: u32,
    tok: int,
    h: HighlightedRange,
) -> bool {
    exists|d: int| #[trigger] names(s, tok, d) && ref_contrib(t, s, file, trait_scope(t, tok), d, h)
}

fn def_highlights(
    t: &SyntaxTree,
    s: &Semantics,
    file: u32,
    sc: Option<usize>,
    d: usize,
) -> (v: Vec<HighlightedRange>)
    requires
        t.wf(),
        s.wf(),
        d < s.defs@.len(),
        match sc {
            Some(x) => x < t.len(),
            None => true,
        },
    ensures
        forall|h: HighlightedRange| #[trigger]
            v@.contains(h) <==> ref_contrib(
                *t,
                *s,
                file,
                match sc {
                    Some(x) => Some(x as int),
                    None => None,
                },
                d as int,
                h,
            ),
{
    let def = &s.defs[d];
    let mut v: Vec<HighlightedRange> = Vec::new();
    let a = usages_in(def, file, None);
    extend_unique(&mut v, &a);
    let b = decl_sites(def, file);
    extend_unique(&mut v, &b);
    if let DefinitionKind::Trait = def.kind {
        if let Some(x) = sc {
            let c = trait_item_uses(s, d, file, t.nodes[x].range);
            extend_unique(&mut v, &c);
        }
    }
    v
}

pub open spec fn references_spec(
    t: SyntaxTree,
    s: Semantics,
    file: u32,
    tok: int,
    r: Option<Seq<HighlightedRange>>,
) -> bool {
    &&& forall|x: TextRange| #[trigger]
        unresolved_format_arg(s, tok, x) ==> r == Some(seq![plain(x)])
    &&& (forall|x: TextRange| !unresolved_format_arg(s, tok, x)) ==> {
        &&& r is Some <==> exists|h: HighlightedRange| ref_member(t, s, file, tok, h)
        &&& r is Some ==> r.unwrap().no_duplicates() && sorted_by_start(r.unwrap()) && forall|h: HighlightedRange|
            #[trigger] r.unwrap().contains(h) <==> ref_member(t, s, file, tok, h)
    }
}

/// Highlights the definitions that the token `tok` names in file `file`:
/// their declaration sites in the file, tagged as writes for a mutable local,
/// and their usages there; for a trait named in a `use` or in a bound, also
/// the uses of its and its supertraits' items in the scope that it serves.
/// A format string reference that names nothing gives its own range alone.
/// `None` when there is nothing to highlight.
pub fn highlight_references(t: &SyntaxTree, s: &Semantics, file: u32, tok: usize) -> (r: Option<
    Vec<HighlightedRange>,
>)
    requires
        t.wf(),
        s.wf(),
        tok < t.len(),
    ensures
        references_spec(*t, *s, file, tok as int, opt_view(r)),
{
    let ds = match defs_for(s, tok) {
        Err(x) => {
            let mut v: Vec<HighlightedRange> = Vec::new();
            v.push(plain_range(x));
            proof {
                assert forall|y: TextRange| #[trigger]
                    unresolved_format_arg(*s, tok as int, y) implies y == x by {
                    let k1 = choose|k: int|
                        #[trigger] fmt_at(*s, k, tok as int) && s.format_args@[k].def is None
                            && s.format_args@[k].range == y;
                    let k2 = choose|k: int|
                        #[trigger] fmt_at(*s, k, tok as int) && s.format_args@[k].def is None
                            && s.format_args@[k].range == x;
                    assert(k1 == k2);
                }
            }
            return Some(v);
        },
        Ok(ds) => ds,
    };
    let sc = trait_scope_exec(t, tok);
    let ghost gsc: Option<int> = match sc {
        Some(x) => Some(x as int),
        None => None,
    };
    let mut res: Vec<HighlightedRange> = Vec::new();
    let mut i: usize = 0;
    while i < ds.len()
        invariant
            t.wf(),
            s.wf(),
            tok < t.len(),
            0 <= i <= ds@.len(),
            forall|m: int| 0 <= m < ds@.len() ==> ds@[m] < s.defs@.len(),
            match sc {
                Some(x) => x < t.len(),
                None => true,
            },
            gsc == trait_scope(*t, tok as int),
            gsc == (match sc {
                Some(x) => Some(x as int),
                None => None::<int>,
            }),
            res@.no_duplicates(),
            forall|h: HighlightedRange| #[trigger]
                res@.contains(h) <==> exists|m: int|
                    0 <= m < i && ref_contrib(*t, *s, file, gsc, #[trigger] ds@[m] as int, h),
        decreases ds@.len() - i,
    {
        let w = def_highlights(t, s, file, sc, ds[i]);
        let ghost before = res@;
        extend_unique(&mut res, &w);
        assert forall|h: HighlightedRange| #[trigger]
            res@.contains(h) <==> exists|m: int|
                0 <= m < i + 1 && ref_contrib(*t, *s, file, gsc, #[trigger] ds@[m] as int, h) by {
            if exists|m: int|
                0 <= m < i + 1 && ref_contrib(*t, *s, file, gsc, #[trigger] ds@[m] as int, h) {
                let m = choose|m: int|
                    0 <= m < i + 1 && ref_contrib(*t, *s, file, gsc, #[trigger] ds@[m] as int, h);
                if m == i {
                    assert(w@.contains(h));
                } else {
                    assert(before.contains(h));
                }
            }
            if before.contains(h) {
            }
        }
        i += 1;
    }
    assert forall|h: HighlightedRange| #[trigger]
        res@.contains(h) <==> ref_member(*t, *s, file, tok as int, h) by {
        if res@.contains(h) {
            let m = choose|m: int|
                0 <= m < i && ref_contrib(*t, *s, file, gsc, #[trigger] ds@[m] as int, h);
            assert(names(*s, tok as int, ds@[m] as int));
        }
        if ref_member(*t, *s, file, tok as int, h) {
            let d = choose|d: int| #[trigger] names(*s, tok as int, d) && ref_contrib(*t, *s, file, trait_scope(*t, tok as int), d, h);
            let m = choose|m: int| 0 <= m < ds@.len() && #[trigger] ds@[m] == d;
            assert(ref_contrib(*t, *s, file, gsc, ds@[m] as int, h));
        }
    }
    if res.len() == 0 {
        assert forall|h: HighlightedRange| !ref_member(*t, *s, file, tok as int, h) by {
            if ref_member(*t, *s, file, tok as int, h) {
                assert(res@.contains(h));
            }
        }
        None
    } else {
        assert(res@.contains(res@[0]));
        Some(sort_by_start(res))
    }
}

} // verus!
