use vstd::prelude::*;
use crate::ranges::{HighlightedRange, ReferenceCategory};
use crate::tree::TextRange;

verus! {

/// What a name resolves to, as far as highlighting cares.
#[derive(Clone, Copy, Debug, PartialEq, Eq, Hash)]
pub enum DefinitionKind {
    Local,
    Module,
    Trait,
    Other,
}

/// One occurrence of a definition's name.
#[derive(Clone, Copy, Debug, PartialEq, Eq, Hash)]
pub struct FileReference {
    pub file_id: u32,
    pub range: TextRange,
    pub category: Option<ReferenceCategory>,
}

/// A place where a definition is declared.
#[derive(Clone, Copy, Debug, PartialEq, Eq, Hash)]
pub struct NavigationTarget {
    pub file_id: u32,
    pub focus_range: Option<TextRange>,
}

/// A resolved definition with what name resolution knows of it.
#[derive(Clone, Debug)]
pub struct Definition {
    pub kind: DefinitionKind,
    /// A local declared `mut`.
    pub is_mut: bool,
    /// Its declaration sites.
    pub navs: Vec<NavigationTarget>,
    /// Its usages, with how each uses it.
    pub usages: Vec<FileReference>,
}

/// A reference inside a format string (`{a}`) at a token.
#[derive(Clone, Copy, Debug, PartialEq, Eq, Hash)]
pub struct FormatArgRef {
    pub token: usize,
    pub range: TextRange,
    /// The definition it names, when it names one.
    pub def: Option<usize>,
}

/// What name resolution and type inference know of one file's tokens and
/// closures; definitions are referred to by index into `defs`.
#[derive(Clone, Debug)]
pub struct Semantics {
    pub defs: Vec<Definition>,
    /// `(token, definition)`: the token, or one it expands to in a macro,
    /// names the definition.
    pub token_defs: Vec<(usize, usize)>,
    /// `(trait, item)`: an associated item of the trait or of a supertrait.
    pub trait_items: Vec<(usize, usize)>,
    /// `(closure node, local)`: the closure captures the local.
    pub captures: Vec<(usize, usize)>,
    /// References inside format strings, at most one per token.
    pub format_args: Vec<FormatArgRef>,
}

impl Semantics {
    pub open spec fn wf(&self) -> bool {
        &&& forall|k: int|
            0 <= k < self.token_defs@.len() ==> (#[trigger] self.token_defs@[k]).1
                < self.defs@.len()
        &&& forall|k: int|
            0 <= k < self.trait_items@.len() ==> (#[trigger] self.trait_items@[k]).1
                < self.defs@.len()
        &&& forall|k: int|
            0 <= k < self.captures@.len() ==> (#[trigger] self.captures@[k]).1 < self.defs@.len()
        &&& forall|k: int|
            0 <= k < self.format_args@.len() ==> match (#[trigger] self.format_args@[k]).def {
                Some(d) => d < self.defs@.len(),
                None => true,
            }
        &&& forall|a: int, b: int|
            0 <= a < self.format_args@.len() && 0 <= b < self.format_args@.len() && a != b
                ==> #[trigger] self.format_args@[a].token != #[trigger] self.format_args@[b].token
    }
}

pub open spec fn ref_hl(f: FileReference) -> HighlightedRange {
    HighlightedRange { range: f.range, category: f.category }
}

/// `f` is an occurrence in `file`, inside `scope` when one is given.
pub open spec fn usage_ok(
    f: FileReference,
    file: u32,
    scope: Option<TextRange>,
    h: HighlightedRange,
) -> bool {
    &&& f.file_id == file
    &&& match scope {
        Some(sr) => sr.contains_range_spec(f.range),
        None => true,
    }
    &&& h == ref_hl(f)
}

pub open spec fn usage_in(
    def: Definition,
    file: u32,
    scope: Option<TextRange>,
    h: HighlightedRange,
) -> bool {
    exists|u: int| 0 <= u < def.usages@.len() && #[trigger] usage_ok(def.usages@[u], file, scope, h)
}

/// How a declaration site is tagged: a write for a mutable local.
pub open spec fn decl_category(def: Definition) -> Option<ReferenceCategory> {
    if def.kind == DefinitionKind::Local && def.is_mut {
        Some(ReferenceCategory::Write)
    } else {
        None
    }
}

pub open spec fn nav_ok(n: NavigationTarget, def: Definition, file: u32, h: HighlightedRange) -> bool {
    n.file_id == file && n.focus_range == Some(h.range) && h.category == decl_category(def)
}

pub open spec fn decl_site(def: Definition, file: u32, h: HighlightedRange) -> bool {
    exists|k: int| 0 <= k < def.navs@.len() && #[trigger] nav_ok(def.navs@[k], def, file, h)
}

pub fn usages_in(def: &Definition, file: u32, scope: Option<TextRange>) -> (v: Vec<
    HighlightedRange,
>)
    ensures
        forall|h: HighlightedRange| #[trigger] v@.contains(h) <==> usage_in(*def, file, scope, h),
{
    let mut v: Vec<HighlightedRange> = Vec::new();
    let mut i: usize = 0;
    while i < def.usages.len()
        invariant
            0 <= i <= def.usages@.len(),
            forall|h: HighlightedRange| #[trigger]
                v@.contains(h) <==> exists|u: int|
                    0 <= u < i && #[trigger] usage_ok(def.usages@[u], file, scope, h),
        decreases def.usages@.len() - i,
    {
        let f = def.usages[i];
        let inside = match scope {
            Some(sr) => sr.contains_range(f.range),
            None => true,
        };
        let ghost before = v@;
        if f.file_id == file && inside {
            v.push(HighlightedRange { range: f.range, category: f.category });
        }
        assert forall|h: HighlightedRange| #[trigger]
            v@.contains(h) <==> exists|u: int|
                0 <= u < i + 1 && #[trigger] usage_ok(def.usages@[u], file, scope, h) by {
            if v@.contains(h) {
                let k = choose|k: int| 0 <= k < v@.len() && v@[k] == h;
                if k < before.len() {
                    assert(before.contains(h));
                } else {
                    assert(usage_ok(def.usages@[i as int], file, scope, h));
                }
            }
            if exists|u: int| 0 <= u < i + 1 && #[trigger] usage_ok(def.usages@[u], file, scope, h) {
                let u = choose|u: int|
                    0 <= u < i + 1 && #[trigger] usage_ok(def.usages@[u], file, scope, h);
                if u < i {
                    assert(before.contains(h));
                    let k = choose|k: int| 0 <= k < before.len() && before[k] == h;
                    assert(v@[k] == h);
                } else {
                    assert(v@[v@.len() - 1] == h);
                }
            }
        }
        i += 1;
    }
    v
}

pub fn decl_sites(def: &Definition, file: u32) -> (v: Vec<HighlightedRange>)
    ensures
        forall|h: HighlightedRange| #[trigger] v@.contains(h) <==> decl_site(*def, file, h),
{
    let category = match def.kind {
        DefinitionKind::Local => if def.is_mut {
            Some(ReferenceCategory::Write)
        } else {
            None
        },
        _ => None,
    };
    let mut v: Vec<HighlightedRange> = Vec::new();
    let mut i: usize = 0;
    while i < def.navs.len()
        invariant
            0 <= i <= def.navs@.len(),
            category == decl_category(*def),
            forall|h: HighlightedRange| #[trigger]
                v@.contains(h) <==> exists|k: int|
                    0 <= k < i && #[trigger] nav_ok(def.navs@[k], *def, file, h),
        decreases def.navs@.len() - i,
    {
        let n = def.navs[i];
        let ghost before = v@;
        if n.file_id == file {
            if let Some(r) = n.focus_range {
                v.push(HighlightedRange { range: r, category });
            }
        }
        assert forall|h: HighlightedRange| #[trigger]
            v@.contains(h) <==> exists|k: int|
                0 <= k < i + 1 && #[trigger] nav_ok(def.navs@[k], *def, file, h) by {
            if v@.contains(h) {
                let k = choose|k: int| 0 <= k < v@.len() && v@[k] == h;
                if k < before.len() {
                    assert(before.contains(h));
                } else {
                    assert(nav_ok(def.navs@[i as int], *def, file, h));
                }
            }
            if exists|k: int| 0 <= k < i + 1 && #[trigger] nav_ok(def.navs@[k], *def, file, h) {
                let k = choose|k: int| 0 <= k < i + 1 && #[trigger] nav_ok(def.navs@[k], *def, file, h);
                if k < i {
                    assert(before.contains(h));
                    let m = choose|m: int| 0 <= m < before.len() && before[m] == h;
                    assert(v@[m] == h);
                } else {
                    assert(v@[v@.len() - 1] == h);
                }
            }
        }
        i += 1;
    }
    v
}

} // verus!
