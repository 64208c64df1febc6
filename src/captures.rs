use vstd::prelude::*;
use crate::ranges::{extend_unique, sort_by_start, sorted_by_start, HighlightedRange};
use crate::references::parent_of;
use crate::semantics::{decl_site, decl_sites, usage_in, usages_in, Semantics};
use crate::tree::{NodeKind, SyntaxTree};

verus! {

/// The closure whose `|` or `move` is the token `tok`: its parent, or the
/// parent's parent.
pub open spec fn capture_closure(t: SyntaxTree, tok: int) -> Option<int> {
    match parent_of(t, tok) {
        Some(p) => if t.node(p).kind is Closure {
            Some(p)
        } else {
            match parent_of(t, p) {
                Some(g) => if t.node(g).kind is Closure {
                    Some(g)
                } else {
                    None
                },
                None => None,
            }
        },
        None => None,
    }
}

pub open spec fn capture_at(s: Semantics, k: int, c: int) -> bool {
    0 <= k < s.captures@.len() && s.captures@[k].0 == c
}

/// `h` is a declaration site of a local that closure `c` captures, or one of
/// its usages inside the closure's body `b`.
pub open spec fn capture_member(
    t: SyntaxTree,
    s: Semantics,
    file: u32,
    c: int,
    b: int,
    h: HighlightedRange,
) -> bool {
    exists|k: int|
        #[trigger] capture_at(s, k, c) && ({
            let def = s.defs@[s.captures@[k].1 as int];
            decl_site(def, file, h) || usage_in(def, file, Some(t.node(b).range), h)
        })
}

pub open spec fn closure_captures_spec(
    t: SyntaxTree,
    s: Semantics,
    file: u32,
    tok: int,
    r: Option<Seq<HighlightedRange>>,
) -> bool {
    match capture_closure(t, tok) {
        None => r is None,
        Some(c) => match t.node(c).body {
            None => r is None,
            Some(b) => r is Some && r.unwrap().no_duplicates() && sorted_by_start(r.unwrap()) && forall|h: HighlightedRange|
                #[trigger] r.unwrap().contains(h) <==> capture_member(t, s, file, c, b as int, h),
        },
    }
}

/// Highlights what the closure at the `|` or `move` token `tok` captures:
/// each captured local's declaration sites in file `file` and its usages
/// inside the closure's body. `None` when the token belongs to no closure
/// or the closure has no body.
pub fn highlight_closure_captures(t: &SyntaxTree, s: &Semantics, file: u32, tok: usize) -> (r:
    Option<Vec<HighlightedRange>>)
    requires
        t.wf(),
        s.wf(),
        tok < t.len(),
    ensures
        closure_captures_spec(
            *t,
            *s,
            file,
            tok as int,
            match r {
                Some(v) => Some(v@),
                None => None,
            },
        ),
{
    let p = t.nodes[tok].parent?;
    let c = match t.nodes[p].kind {
        NodeKind::Closure => p,
        _ => {
            let g = t.nodes[p].parent?;
            match t.nodes[g].kind {
                NodeKind::Closure => g,
                _ => return None,
            }
        },
    };
    proof {
        assert(match t.nodes@[c as int].body {
            Some(b) => b < t.len(),
            None => true,
        });
    }
    let b = t.nodes[c].body?;
    let body_range = t.nodes[b].range;
    let mut res: Vec<HighlightedRange> = Vec::new();
    let mut k: usize = 0;
    while k < s.captures.len()
        invariant
            t.wf(),
            s.wf(),
            b < t.len(),
            body_range == t.node(b as int).range,
            0 <= k <= s.captures@.len(),
            res@.no_duplicates(),
            forall|h: HighlightedRange| #[trigger]
                res@.contains(h) <==> exists|m: int|
                    0 <= m < k && #[trigger] capture_at(*s, m, c as int) && ({
                        let def = s.defs@[s.captures@[m].1 as int];
                        decl_site(def, file, h) || usage_in(def, file, Some(body_range), h)
                    }),
        decreases s.captures@.len() - k,
    {
        let (cc, d) = s.captures[k];
        let ghost before = res@;
        let mut w: Vec<HighlightedRange> = Vec::new();
        if cc == c {
            let def = &s.defs[d];
            let a = decl_sites(def, file);
            let u = usages_in(def, file, Some(body_range));
            extend_unique(&mut w, &a);
            extend_unique(&mut w, &u);
        }
        extend_unique(&mut res, &w);
        assert forall|h: HighlightedRange| #[trigger]
            res@.contains(h) <==> exists|m: int|
                0 <= m < k + 1 && #[trigger] capture_at(*s, m, c as int) && ({
                    let def = s.defs@[s.captures@[m].1 as int];
                    decl_site(def, file, h) || usage_in(def, file, Some(body_range), h)
                }) by {
            if w@.contains(h) {
                assert(capture_at(*s, k as int, c as int));
            }
            if before.contains(h) {
            }
            if exists|m: int|
                0 <= m < k + 1 && #[trigger] capture_at(*s, m, c as int) && ({
                    let def = s.defs@[s.captures@[m].1 as int];
                    decl_site(def, file, h) || usage_in(def, file, Some(body_range), h)
                }) {
                let m = choose|m: int|
                    0 <= m < k + 1 && #[trigger] capture_at(*s, m, c as int) && ({
                        let def = s.defs@[s.captures@[m].1 as int];
                        decl_site(def, file, h) || usage_in(def, file, Some(body_range), h)
                    });
                if m == k {
                    assert(w@.contains(h));
                } else {
                    assert(before.contains(h));
                }
            }
        }
        k += 1;
    }
    assert forall|h: HighlightedRange| #[trigger]
        res@.contains(h) <==> capture_member(*t, *s, file, c as int, b as int, h) by {
        if res@.contains(h) {
            let m = choose|m: int|
                0 <= m < k && #[trigger] capture_at(*s, m, c as int) && ({
                    let def = s.defs@[s.captures@[m].1 as int];
                    decl_site(def, file, h) || usage_in(def, file, Some(body_range), h)
                });
        }
        if capture_member(*t, *s, file, c as int, b as int, h) {
            let m = choose|m: int|
                #[trigger] capture_at(*s, m, c as int) && ({
                    let def = s.defs@[s.captures@[m].1 as int];
                    decl_site(def, file, h) || usage_in(def, file, Some(t.node(b as int).range), h)
                });
        }
    }
    Some(sort_by_start(res))
}

} // verus!
