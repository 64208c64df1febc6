use vstd::prelude::*;
use crate::break_points::{break_points_spec, highlight_break_points};
use crate::captures::{closure_captures_spec, highlight_closure_captures};
use crate::exit_points::{exit_points_spec, highlight_exit_points};
use crate::ranges::{opt_view, HighlightedRange};
use crate::references::{highlight_references, references_spec};
use crate::semantics::Semantics;
use crate::tree::{NodeKind, SyntaxTree, TokenKind};
use crate::yield_points::{highlight_yield_points, yield_points_spec};

verus! {

/// Which kinds of related constructs to highlight.
#[derive(Clone, Copy, Debug)]
pub struct HighlightRelatedConfig {
    pub references: bool,
    pub exit_points: bool,
    pub break_points: bool,
    pub closure_captures: bool,
    pub yield_points: bool,
}

impl Default for HighlightRelatedConfig {
    /// Everything switched off.
    fn default() -> (r: HighlightRelatedConfig)
        ensures
            !r.references && !r.exit_points && !r.break_points && !r.closure_captures
                && !r.yield_points,
    {
        HighlightRelatedConfig {
            references: false,
            exit_points: false,
            break_points: false,
            closure_captures: false,
            yield_points: false,
        }
    }
}

/// How strongly a token at the cursor is preferred over a neighbour.
pub open spec fn priority(k: TokenKind) -> u8 {
    match k {
        TokenKind::Question | TokenKind::Arrow => 4,
        TokenKind::FnKw | TokenKind::ReturnKw | TokenKind::AwaitKw | TokenKind::AsyncKw
        | TokenKind::ForKw | TokenKind::BreakKw | TokenKind::LoopKw | TokenKind::WhileKw
        | TokenKind::ContinueKw | TokenKind::MoveKw | TokenKind::OtherKeyword => 3,
        TokenKind::Ident | TokenKind::IntNumber => 2,
        TokenKind::Pipe => 1,
        TokenKind::Other => 0,
    }
}

pub fn priority_of(k: TokenKind) -> (r: u8)
    ensures
        r == priority(k),
{
    match k {
        TokenKind::Question | TokenKind::Arrow => 4,
        TokenKind::FnKw | TokenKind::ReturnKw | TokenKind::AwaitKw | TokenKind::AsyncKw
        | TokenKind::ForKw | TokenKind::BreakKw | TokenKind::LoopKw | TokenKind::WhileKw
        | TokenKind::ContinueKw | TokenKind::MoveKw | TokenKind::OtherKeyword => 3,
        TokenKind::Ident | TokenKind::IntNumber => 2,
        TokenKind::Pipe => 1,
        TokenKind::Other => 0,
    }
}

/// Token `j` touches `offset`: it starts at or before it and ends at or after it.
pub open spec fn at_offset(t: SyntaxTree, offset: u32, j: int) -> bool {
    0 <= j < t.len() && t.node(j).kind is Token && t.node(j).range.touches_spec(offset)
}

pub open spec fn token_priority(t: SyntaxTree, j: int) -> u8 {
    match t.node(j).kind {
        NodeKind::Token(k) => priority(k),
        _ => 0,
    }
}

/// Token `j` is the one picked at `offset`: of the highest priority there,
/// and the first of those.
pub open spec fn best_token(t: SyntaxTree, offset: u32, j: int) -> bool {
    &&& at_offset(t, offset, j)
    &&& forall|k: int| #[trigger]
        at_offset(t, offset, k) ==> token_priority(t, k) <= token_priority(t, j)
    &&& forall|k: int| #[trigger]
        at_offset(t, offset, k) && k < j ==> token_priority(t, k) < token_priority(t, j)
}

/// Picks the token at `offset` that the cursor most likely means.
pub fn pick_best_token(t: &SyntaxTree, offset: u32) -> (r: Option<usize>)
    ensures
        match r {
            Some(j) => best_token(*t, offset, j as int),
            None => forall|k: int| !at_offset(*t, offset, k),
        },
{
    let mut best: Option<usize> = None;
    let mut best_p: u8 = 0;
    let mut j: usize = 0;
    while j < t.nodes.len()
        invariant
            0 <= j <= t.len(),
            best is Some ==> best.unwrap() < j && at_offset(*t, offset, best.unwrap() as int)
                && best_p == token_priority(*t, best.unwrap() as int),
            best is Some ==> forall|k: int|
                0 <= k < j && #[trigger] at_offset(*t, offset, k) ==> token_priority(*t, k)
                    <= best_p,
            best is Some ==> forall|k: int|
                0 <= k < best.unwrap() && #[trigger] at_offset(*t, offset, k) ==> token_priority(
                    *t,
                    k,
                ) < best_p,
            best is None ==> forall|k: int| 0 <= k < j ==> !#[trigger] at_offset(*t, offset, k),
        decreases t.len() - j,
    {
        let n = t.nodes[j];
        if let NodeKind::Token(k) = n.kind {
            if n.range.start <= offset && offset <= n.range.end {
                let p = priority_of(k);
                let take = match best {
                    Some(_) => p > best_p,
                    None => true,
                };
                if take {
                    assert(forall|q: int|
                        0 <= q < j && #[trigger] at_offset(*t, offset, q) ==> token_priority(*t, q)
                            < p);
                    best = Some(j);
                    best_p = p;
                }
            }
        }
        j += 1;
    }
    best
}

/// Which analysis a token leads to.
pub enum Analysis {
    ExitPoints,
    YieldPoints,
    BreakPoints,
    ClosureCaptures,
    References,
    Nothing,
}

pub open spec fn parent_is(t: SyntaxTree, j: int, f: spec_fn(NodeKind) -> bool) -> bool {
    match t.node(j).parent {
        Some(p) => p < t.len() && f(t.node(p as int).kind),
        None => false,
    }
}

/// The analysis for token `j` under `config`, by the first rule that applies.
pub open spec fn analysis_for(t: SyntaxTree, config: HighlightRelatedConfig, j: int) -> Analysis {
    let k = t.node(j).kind;
    if k == NodeKind::Token(TokenKind::Question) && config.exit_points && parent_is(
        t,
        j,
        |p: NodeKind| p is Try,
    ) {
        Analysis::ExitPoints
    } else if (k == NodeKind::Token(TokenKind::FnKw) || k == NodeKind::Token(TokenKind::ReturnKw)
        || k == NodeKind::Token(TokenKind::Arrow)) && config.exit_points {
        Analysis::ExitPoints
    } else if (k == NodeKind::Token(TokenKind::AwaitKw) || k == NodeKind::Token(TokenKind::AsyncKw))
        && config.yield_points {
        Analysis::YieldPoints
    } else if k == NodeKind::Token(TokenKind::ForKw) && config.break_points && parent_is(
        t,
        j,
        |p: NodeKind| p is For,
    ) {
        Analysis::BreakPoints
    } else if (k == NodeKind::Token(TokenKind::BreakKw) || k == NodeKind::Token(TokenKind::LoopKw)
        || k == NodeKind::Token(TokenKind::WhileKw) || k == NodeKind::Token(TokenKind::ContinueKw))
        && config.break_points {
        Analysis::BreakPoints
    } else if (k == NodeKind::Token(TokenKind::Pipe) || k == NodeKind::Token(TokenKind::MoveKw))
        && config.closure_captures {
        Analysis::ClosureCaptures
    } else if config.references {
        Analysis::References
    } else {
        Analysis::Nothing
    }
}

/// What a request for `offset` in file `file` answers.
pub open spec fn related_spec(
    t: SyntaxTree,
    s: Semantics,
    config: HighlightRelatedConfig,
    file: u32,
    offset: u32,
    r: Option<Seq<HighlightedRange>>,
) -> bool {
    if exists|j: int| best_token(t, offset, j) {
        let j = choose|j: int| best_token(t, offset, j);
        match analysis_for(t, config, j) {
            Analysis::ExitPoints => exit_points_spec(t, j, r),
            Analysis::YieldPoints => yield_points_spec(t, j, r),
            Analysis::BreakPoints => break_points_spec(t, j, r),
            Analysis::ClosureCaptures => closure_captures_spec(t, s, file, j, r),
            Analysis::References => references_spec(t, s, file, j, r),
            Analysis::Nothing => r is None,
        }
    } else {
        r is None
    }
}

fn parent_kind(t: &SyntaxTree, j: usize) -> (r: Option<NodeKind>)
    requires
        t.wf(),
        j < t.len(),
    ensures
        match t.node(j as int).parent {
            Some(p) => r == Some(t.node(p as int).kind) && p < t.len(),
            None => r is None,
        },
{
    match t.nodes[j].parent {
        Some(p) => Some(t.nodes[p].kind),
        None => None,
    }
}

/// Highlights what is related to the construct at `offset` in file `file`.
/// The token there is picked by priority: `?` and `->`, then keywords, then
/// names and integers, then `|`. By its kind, and by which analyses `config`
/// enables, it leads to the exit points, the yield points, the break points,
/// the closure captures or the references around it.
pub fn highlight_related(
    t: &SyntaxTree,
    s: &Semantics,
    config: HighlightRelatedConfig,
    file: u32,
    offset: u32,
) -> (r: Option<Vec<HighlightedRange>>)
    requires
        t.wf(),
        s.wf(),
    ensures
        related_spec(*t, *s, config, file, offset, opt_view(r)),
{
    let j = match pick_best_token(t, offset) {
        Some(j) => j,
        None => return None,
    };
    proof {
        assert forall|i: int| best_token(*t, offset, i) implies i == j by {
            if i > j {
                assert(at_offset(*t, offset, i));
                assert(token_priority(*t, j as int) < token_priority(*t, i));
            } else if i < j {
                assert(token_priority(*t, i) < token_priority(*t, j as int));
            }
        }
    }
    let k = t.nodes[j].kind;
    let pk = parent_kind(t, j);
    let kind_is = |x: TokenKind| -> (b: bool)
        ensures
            b == (k == NodeKind::Token(x)),
        {
            match k {
                NodeKind::Token(y) => y == x,
                _ => false,
            }
        };
    let r = if kind_is(TokenKind::Question) && config.exit_points && match pk {
        Some(NodeKind::Try) => true,
        _ => false,
    } {
        highlight_exit_points(t, j)
    } else if (kind_is(TokenKind::FnKw) || kind_is(TokenKind::ReturnKw) || kind_is(TokenKind::Arrow))
        && config.exit_points {
        highlight_exit_points(t, j)
    } else if (kind_is(TokenKind::AwaitKw) || kind_is(TokenKind::AsyncKw)) && config.yield_points {
        highlight_yield_points(t, j)
    } else if kind_is(TokenKind::ForKw) && config.break_points && match pk {
        Some(NodeKind::For) => true,
        _ => false,
    } {
        highlight_break_points(t, j)
    } else if (kind_is(TokenKind::BreakKw) || kind_is(TokenKind::LoopKw) || kind_is(
        TokenKind::WhileKw,
    ) || kind_is(TokenKind::ContinueKw)) && config.break_points {
        highlight_break_points(t, j)
    } else if (kind_is(TokenKind::Pipe) || kind_is(TokenKind::MoveKw)) && config.closure_captures {
        highlight_closure_captures(t, s, file, j)
    } else if config.references {
        highlight_references(t, s, file, j)
    } else {
        None
    };
    r
}

} // verus!
