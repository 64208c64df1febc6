use vstd::prelude::*;

verus! {

/// A half-open span of text offsets `[start, end)`.
#[derive(Clone, Copy, Debug, PartialEq, Eq, Hash)]
pub struct TextRange {
    pub start: u32,
    pub end: u32,
}

impl TextRange {
    pub open spec fn cover_spec(self, o: TextRange) -> TextRange {
        TextRange {
            start: if self.start <= o.start { self.start } else { o.start },
            end: if self.end >= o.end { self.end } else { o.end },
        }
    }

    /// The smallest range that covers both ranges.
    pub fn cover(self, o: TextRange) -> (r: TextRange)
        ensures
            r == self.cover_spec(o),
    {
        TextRange {
            start: if self.start <= o.start { self.start } else { o.start },
            end: if self.end >= o.end { self.end } else { o.end },
        }
    }

    pub open spec fn contains_range_spec(self, o: TextRange) -> bool {
        self.start <= o.start && o.end <= self.end
    }

    pub fn contains_range(self, o: TextRange) -> (r: bool)
        ensures
            r == self.contains_range_spec(o),
    {
        self.start <= o.start && o.end <= self.end
    }

    pub open spec fn touches_spec(self, offset: u32) -> bool {
        self.start <= offset && offset <= self.end
    }
}

/// The kind of a leaf token.
#[derive(Clone, Copy, Debug, PartialEq, Eq, Hash, Structural)]
pub enum TokenKind {
    Question,
    Arrow,
    FnKw,
    ReturnKw,
    AwaitKw,
    AsyncKw,
    ForKw,
    BreakKw,
    LoopKw,
    WhileKw,
    ContinueKw,
    MoveKw,
    OtherKeyword,
    Ident,
    IntNumber,
    Pipe,
    Other,
}

/// The modifier that introduces a block expression.
#[derive(Clone, Copy, Debug, PartialEq, Eq, Hash, Structural)]
pub enum BlockModifier {
    Plain,
    Unsafe,
    Async,
    Try,
    Const,
    Labeled,
}

/// The kind of a tree element: an inner node or a leaf token.
#[derive(Clone, Copy, Debug, PartialEq, Eq, Hash, Structural)]
pub enum NodeKind {
    Token(TokenKind),
    SourceFile,
    Module,
    Fn,
    OtherItem,
    Closure,
    Block(BlockModifier),
    Loop,
    For,
    While,
    Break,
    Continue,
    Return,
    Try,
    Await,
    Call,
    If,
    Match,
    MatchArm,
    NameRef,
    Path,
    PathSegment,
    UseTree,
    PathType,
    TypeBoundList,
    WhereClause,
    TypeParam,
    OtherExpr,
    Other,
}

/// A label (`'a:` on a loop or block) or a lifetime (`'a` after `break`).
#[derive(Clone, Copy, Debug, PartialEq, Eq, Hash)]
pub struct Label {
    /// Interned text of the label; equal text, equal name.
    pub name: u32,
    pub range: TextRange,
}

/// One element of the tree arena.
#[derive(Clone, Copy, Debug)]
pub struct Node {
    pub kind: NodeKind,
    pub parent: Option<usize>,
    pub range: TextRange,
    /// The introducing token: `fn`, `loop`/`for`/`while`, `break`, `continue`,
    /// `return`, `?`, `await`, a block's modifier keyword, a closure's `(`.
    pub keyword: Option<TextRange>,
    /// A closure parameter list's `)`.
    pub closing: Option<TextRange>,
    /// The `async` token of a function, closure or block.
    pub async_kw: Option<TextRange>,
    pub label: Option<Label>,
    /// Body of a function, closure or loop.
    pub body: Option<usize>,
    /// The node forwards its value to its parent: the trailing expression of a
    /// block, a branch of an `if`, an arm of a `match` or the value of an arm.
    pub is_tail: bool,
    /// Type inference gave this expression the never type.
    pub diverges: bool,
}

/// A parsed file as an arena of nodes; parents come before their children.
pub struct SyntaxTree {
    pub nodes: Vec<Node>,
}

pub open spec fn is_block(k: NodeKind) -> bool {
    k is Block
}

pub open spec fn is_loop(k: NodeKind) -> bool {
    k is Loop || k is For || k is While
}

/// Loops and labeled blocks: what an unlabeled `break` nests under.
pub open spec fn is_loopish(k: NodeKind) -> bool {
    is_loop(k) || k == NodeKind::Block(BlockModifier::Labeled)
}

/// Nodes whose inside is another context for exits and suspension points.
pub open spec fn is_context_boundary(k: NodeKind) -> bool {
    k is Fn || k is OtherItem || k is Module || k is Closure || k == NodeKind::Block(
        BlockModifier::Async,
    ) || k == NodeKind::Block(BlockModifier::Try) || k == NodeKind::Block(BlockModifier::Const)
}

/// What gives its value through `break`s when it stands in value position:
/// `loop`, `while` and labeled blocks. A `for` loop is a value of its own.
pub open spec fn gives_by_break(k: NodeKind) -> bool {
    k is Loop || k is While || k == NodeKind::Block(BlockModifier::Labeled)
}

pub fn kind_gives_by_break(k: NodeKind) -> (r: bool)
    ensures
        r == gives_by_break(k),
{
    match k {
        NodeKind::Loop | NodeKind::While => true,
        NodeKind::Block(BlockModifier::Labeled) => true,
        _ => false,
    }
}

pub fn kind_is_loop(k: NodeKind) -> (r: bool)
    ensures
        r == is_loop(k),
{
    match k {
        NodeKind::Loop | NodeKind::For | NodeKind::While => true,
        _ => false,
    }
}

pub fn kind_is_loopish(k: NodeKind) -> (r: bool)
    ensures
        r == is_loopish(k),
{
    match k {
        NodeKind::Loop | NodeKind::For | NodeKind::While => true,
        NodeKind::Block(BlockModifier::Labeled) => true,
        _ => false,
    }
}

pub fn kind_is_context_boundary(k: NodeKind) -> (r: bool)
    ensures
        r == is_context_boundary(k),
{
    match k {
        NodeKind::Fn | NodeKind::OtherItem | NodeKind::Module | NodeKind::Closure => true,
        NodeKind::Block(BlockModifier::Async) => true,
        NodeKind::Block(BlockModifier::Try) => true,
        NodeKind::Block(BlockModifier::Const) => true,
        _ => false,
    }
}

/// Which nodes stop a downward walk.
#[derive(Clone, Copy, Debug, PartialEq, Eq)]
pub enum Walk {
    /// Nothing stops it.
    Plain,
    /// Nested functions, items, closures and async/try/const blocks stop it.
    Scoped,
    /// Nested loops and labeled blocks stop it.
    Loops,
}

pub open spec fn stops(k: NodeKind, m: Walk) -> bool {
    match m {
        Walk::Plain => false,
        Walk::Scoped => is_context_boundary(k),
        Walk::Loops => is_loopish(k),
    }
}

impl SyntaxTree {
    pub open spec fn len(&self) -> nat {
        self.nodes@.len()
    }

    pub open spec fn node(&self, i: int) -> Node {
        self.nodes@[i]
    }

    /// Every parent and body index is in the arena; parents precede children.
    pub open spec fn wf(&self) -> bool {
        &&& self.nodes@.len() < usize::MAX
        &&& forall|i: int|
            0 <= i < self.nodes@.len() ==> match #[trigger] self.nodes@[i].parent {
                Some(p) => p < i,
                None => true,
            }
        &&& forall|i: int|
            0 <= i < self.nodes@.len() ==> match #[trigger] self.nodes@[i].body {
                Some(b) => b < self.nodes@.len(),
                None => true,
            }
    }

    /// `j` lies in the subtree of `r`, and no node strictly between `r` and
    /// `j` stops a walk of mode `m`.
    pub open spec fn reach(&self, j: int, r: int, m: Walk) -> bool
        decreases j,
    {
        if j == r {
            true
        } else if 0 <= j < self.len() {
            match self.node(j).parent {
                Some(p) => p < j && self.reach(p as int, r, m) && (p == r || !stops(
                    self.node(p as int).kind,
                    m,
                )),
                None => false,
            }
        } else {
            false
        }
    }

    pub fn reaches(&self, j: usize, r: usize, m: Walk) -> (b: bool)
        requires
            self.wf(),
            j < self.len(),
        ensures
            b == self.reach(j as int, r as int, m),
        decreases j,
    {
        if j == r {
            return true;
        }
        match self.nodes[j].parent {
            Some(p) => {
                if !self.reaches(p, r, m) {
                    return false;
                }
                if p == r {
                    true
                } else {
                    let k = self.nodes[p].kind;
                    match m {
                        Walk::Plain => true,
                        Walk::Scoped => !kind_is_context_boundary(k),
                        Walk::Loops => !kind_is_loopish(k),
                    }
                }
            },
            None => false,
        }
    }

    /// The first node, from `i` up through its ancestors, that satisfies `f`.
    pub open spec fn first_anc(&self, i: int, f: spec_fn(Node) -> bool) -> Option<int>
        decreases i,
    {
        if 0 <= i < self.len() {
            if f(self.node(i)) {
                Some(i)
            } else {
                match self.node(i).parent {
                    Some(q) => if q < i {
                        self.first_anc(q as int, f)
                    } else {
                        None
                    },
                    None => None,
                }
            }
        } else {
            None
        }
    }

    /// `j` stands in value position of the scope whose result is `e`: it is
    /// `e`, or it forwards its value to a parent that does.
    pub open spec fn tail_pos(&self, j: int, e: int) -> bool
        decreases j,
    {
        if j == e {
            true
        } else if 0 <= j < self.len() {
            match self.node(j).parent {
                Some(p) => p < j && self.node(j).is_tail && self.tail_pos(p as int, e) && (
                (p == e && 0 <= e < self.len() && is_block(self.node(e).kind)) || forwards(
                    self.node(p as int).kind,
                )),
                None => false,
            }
        } else {
            false
        }
    }

    pub fn is_tail_pos(&self, j: usize, e: usize) -> (b: bool)
        requires
            self.wf(),
            j < self.len(),
            e < self.len(),
        ensures
            b == self.tail_pos(j as int, e as int),
        decreases j,
    {
        if j == e {
            return true;
        }
        match self.nodes[j].parent {
            Some(p) => {
                if !self.nodes[j].is_tail || !self.is_tail_pos(p, e) {
                    return false;
                }
                (p == e && kind_is_block(self.nodes[e].kind)) || kind_forwards(self.nodes[p].kind)
            },
            None => false,
        }
    }

    /// An expression in value position that stands for itself.
    pub open spec fn tail_item(&self, j: int, e: int) -> bool {
        &&& 0 <= j < self.len()
        &&& self.tail_pos(j, e)
        &&& !forwards(self.node(j).kind)
        &&& !(self.node(j).kind is Loop || self.node(j).kind is While)
        &&& !(j == e && is_block(self.node(e).kind))
    }

    /// A `loop`, `while` or labeled block in value position: its `break`s give
    /// the value.
    pub open spec fn tail_loop(&self, l: int, e: int) -> bool {
        &&& 0 <= l < self.len()
        &&& self.tail_pos(l, e)
        &&& gives_by_break(self.node(l).kind)
        &&& !(l == e && is_block(self.node(e).kind))
    }

    /// Where the `break`s of a loop or labeled block are looked for.
    pub open spec fn body_of(&self, l: int) -> Option<int> {
        if is_block(self.node(l).kind) {
            Some(l)
        } else {
            match self.node(l).body {
                Some(b) => Some(b as int),
                None => None,
            }
        }
    }

    pub open spec fn label_name(&self, l: int) -> Option<u32> {
        match self.node(l).label {
            Some(x) => Some(x.name),
            None => None,
        }
    }

    /// `j` is a `break` or `continue` inside body `b` that leaves the construct
    /// labeled `lbl` owning `b`: an unlabeled one with no loop or labeled block
    /// between, or one that names `lbl`, at any depth.
    pub open spec fn targets(&self, j: int, b: int, lbl: Option<u32>) -> bool {
        &&& 0 <= j < self.len()
        &&& j != b
        &&& (self.node(j).kind is Break || self.node(j).kind is Continue)
        &&& match self.node(j).label {
            None => self.reach(j, b, Walk::Loops),
            Some(x) => lbl == Some(x.name) && self.reach(j, b, Walk::Plain),
        }
    }

    pub fn is_target(&self, j: usize, b: usize, lbl: Option<u32>) -> (r: bool)
        requires
            self.wf(),
            j < self.len(),
        ensures
            r == self.targets(j as int, b as int, lbl),
    {
        if j == b {
            return false;
        }
        match self.nodes[j].kind {
            NodeKind::Break | NodeKind::Continue => {},
            _ => return false,
        }
        match self.nodes[j].label {
            None => self.reaches(j, b, Walk::Loops),
            Some(x) => match lbl {
                Some(n) => n == x.name && self.reaches(j, b, Walk::Plain),
                None => false,
            },
        }
    }
}

pub open spec fn forwards(k: NodeKind) -> bool {
    k == NodeKind::Block(BlockModifier::Plain) || k == NodeKind::Block(BlockModifier::Unsafe)
        || k == NodeKind::Block(BlockModifier::Labeled) || k is If || k is Match || k is MatchArm
}

pub fn kind_forwards(k: NodeKind) -> (r: bool)
    ensures
        r == forwards(k),
{
    match k {
        NodeKind::Block(BlockModifier::Plain) => true,
        NodeKind::Block(BlockModifier::Unsafe) => true,
        NodeKind::Block(BlockModifier::Labeled) => true,
        NodeKind::If | NodeKind::Match | NodeKind::MatchArm => true,
        _ => false,
    }
}

pub fn kind_is_block(k: NodeKind) -> (r: bool)
    ensures
        r == is_block(k),
{
    match k {
        NodeKind::Block(_) => true,
        _ => false,
    }
}

impl SyntaxTree {
    /// As in any parsed file, distinct nodes are introduced by distinct
    /// tokens, and no `async` token is an `.await`'s.
    pub open spec fn distinct_keywords(&self) -> bool {
        &&& forall|i: int, j: int|
            0 <= i < self.len() && 0 <= j < self.len() && i != j && self.node(i).keyword is Some
                && self.node(j).keyword is Some ==> #[trigger] self.node(i).keyword
                != #[trigger] self.node(j).keyword
        &&& forall|i: int, j: int|
            0 <= i < self.len() && 0 <= j < self.len() && self.node(i).async_kw is Some
                && self.node(j).kind is Await ==> #[trigger] self.node(i).async_kw
                != #[trigger] self.node(j).keyword
    }
}

} // verus!
