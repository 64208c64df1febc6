use highlight_related::ranges::{HighlightedRange, ReferenceCategory};
use highlight_related::related::{highlight_related, HighlightRelatedConfig};
use highlight_related::semantics::{
    Definition, DefinitionKind, FileReference, FormatArgRef, NavigationTarget, Semantics,
};
use highlight_related::tree::{
    BlockModifier, Label, Node, NodeKind, SyntaxTree, TextRange, TokenKind,
};

const FILE: u32 = 0;

const ENABLED_CONFIG: HighlightRelatedConfig = HighlightRelatedConfig {
    break_points: true,
    exit_points: true,
    references: true,
    closure_captures: true,
    yield_points: true,
};

/// A fixture file under construction: tokens are found in its text in order,
/// nodes are opened and closed around them.
struct Fx {
    text: String,
    cursor: u32,
    pos: usize,
    nodes: Vec<Node>,
    stack: Vec<usize>,
    names: Vec<String>,
    sem: Semantics,
}

/// The text of the fixture's file that holds the cursor.
fn cursor_file(fixture: &str) -> String {
    let mut files: Vec<String> = vec![String::new()];
    for line in fixture.split_inclusive('\n') {
        if line.starts_with("//- ") {
            if line[4..].starts_with('/') {
                files.push(String::new());
            }
            continue;
        }
        files.last_mut().unwrap().push_str(line);
    }
    files.into_iter().find(|f| f.contains("$0")).expect("a cursor")
}

fn fx(fixture: &str) -> Fx {
    let file = cursor_file(fixture);
    let cursor = file.find("$0").unwrap();
    let text = file.replacen("$0", "", 1);
    let mut f = Fx {
        text,
        cursor: cursor as u32,
        pos: 0,
        nodes: Vec::new(),
        stack: Vec::new(),
        names: Vec::new(),
        sem: Semantics {
            defs: Vec::new(),
            token_defs: Vec::new(),
            trait_items: Vec::new(),
            captures: Vec::new(),
            format_args: Vec::new(),
        },
    };
    f.open(NodeKind::SourceFile);
    f
}

fn sub(r: TextRange, off: u32, len: u32) -> TextRange {
    TextRange { start: r.start + off, end: r.start + off + len }
}

impl Fx {
    fn new_node(&mut self, kind: NodeKind) -> usize {
        let parent = self.stack.last().copied();
        self.nodes.push(Node {
            kind,
            parent,
            range: TextRange { start: u32::MAX, end: 0 },
            keyword: None,
            closing: None,
            async_kw: None,
            label: None,
            body: None,
            is_tail: false,
            diverges: false,
        });
        self.nodes.len() - 1
    }

    fn open(&mut self, kind: NodeKind) -> usize {
        let i = self.new_node(kind);
        self.stack.push(i);
        i
    }

    fn close(&mut self) {
        let i = self.stack.pop().unwrap();
        if self.nodes[i].range.start == u32::MAX {
            let p = self.pos as u32;
            self.nodes[i].range = TextRange { start: p, end: p };
        }
    }

    /// Moves to the next occurrence of `text`, without taking it.
    fn seek(&mut self, text: &str) {
        self.pos += self.text[self.pos..].find(text).unwrap_or_else(|| panic!("{text} not found"));
    }

    /// The range of the next occurrence of `text`, which is taken.
    fn find(&mut self, text: &str) -> TextRange {
        self.seek(text);
        let at = self.pos;
        self.pos += text.len();
        TextRange { start: at as u32, end: (at + text.len()) as u32 }
    }

    fn cover(&mut self, r: TextRange) {
        for &i in &self.stack {
            let n = &mut self.nodes[i];
            n.range.start = n.range.start.min(r.start);
            n.range.end = n.range.end.max(r.end);
        }
    }

    fn tok(&mut self, kind: TokenKind, text: &str) -> usize {
        let r = self.find(text);
        self.cover(r);
        let i = self.new_node(NodeKind::Token(kind));
        self.nodes[i].range = r;
        i
    }

    fn top(&self) -> usize {
        *self.stack.last().unwrap()
    }

    /// A token that introduces the open node.
    fn kw(&mut self, kind: TokenKind, text: &str) -> usize {
        let i = self.tok(kind, text);
        let t = self.top();
        self.nodes[t].keyword = Some(self.nodes[i].range);
        i
    }

    fn async_kw(&mut self) -> usize {
        let i = self.tok(TokenKind::AsyncKw, "async");
        let t = self.top();
        self.nodes[t].async_kw = Some(self.nodes[i].range);
        i
    }

    fn name_of(&mut self, text: &str) -> u32 {
        let t = text.trim_end_matches(':');
        match self.names.iter().position(|n| n == t) {
            Some(p) => p as u32,
            None => {
                self.names.push(t.to_string());
                (self.names.len() - 1) as u32
            }
        }
    }

    fn label(&mut self, text: &str) {
        let r = self.find(text);
        self.cover(r);
        let name = self.name_of(text);
        let t = self.top();
        self.nodes[t].label = Some(Label { name, range: r });
    }

    /// Opens the body of the open node.
    fn body(&mut self, kind: NodeKind) -> usize {
        let owner = self.top();
        let i = self.open(kind);
        self.nodes[owner].body = Some(i);
        i
    }

    fn tail(&mut self) {
        let t = self.top();
        self.nodes[t].is_tail = true;
    }

    /// A leaf expression holding one token.
    fn leaf(&mut self, kind: NodeKind, tk: TokenKind, text: &str, tail: bool) -> usize {
        let i = self.open(kind);
        if tail {
            self.tail();
        }
        self.tok(tk, text);
        self.close();
        i
    }

    fn int_lit(&mut self, text: &str, tail: bool) -> usize {
        self.leaf(NodeKind::OtherExpr, TokenKind::IntNumber, text, tail)
    }

    /// `fn name` up to its body block, which is left open.
    fn func(&mut self, name: &str) -> usize {
        let i = self.open(NodeKind::Fn);
        self.kw(TokenKind::FnKw, "fn");
        self.tok(TokenKind::Ident, name);
        self.body(NodeKind::Block(BlockModifier::Plain));
        i
    }

    /// `fn name() -> T` up to its body block, which is left open.
    fn func_arrow(&mut self, name: &str) -> usize {
        let i = self.open(NodeKind::Fn);
        self.kw(TokenKind::FnKw, "fn");
        self.tok(TokenKind::Ident, name);
        self.tok(TokenKind::Arrow, "->");
        self.body(NodeKind::Block(BlockModifier::Plain));
        i
    }

    fn jump(&mut self, kind: NodeKind, tk: TokenKind, text: &str, label: Option<&str>, value: Option<&str>) -> usize {
        let i = self.open(kind);
        self.kw(tk, text);
        if let Some(l) = label {
            self.label(l);
        }
        if let Some(v) = value {
            self.int_lit(v, false);
        }
        self.close();
        i
    }

    fn brk(&mut self, label: Option<&str>) -> usize {
        self.jump(NodeKind::Break, TokenKind::BreakKw, "break", label, None)
    }

    fn brk_val(&mut self, label: Option<&str>, value: &str) -> usize {
        self.jump(NodeKind::Break, TokenKind::BreakKw, "break", label, Some(value))
    }

    fn cont(&mut self, label: Option<&str>) -> usize {
        self.jump(NodeKind::Continue, TokenKind::ContinueKw, "continue", label, None)
    }

    /// A loop up to its body, which is left open.
    fn lp(&mut self, kind: NodeKind, tk: TokenKind, text: &str, label: Option<&str>, tail: bool) -> usize {
        let i = self.open(kind);
        if tail {
            self.tail();
        }
        if let Some(l) = label {
            self.label(l);
        }
        self.kw(tk, text);
        self.body(NodeKind::Block(BlockModifier::Plain));
        i
    }

    fn end_loop(&mut self) {
        self.close();
        self.close();
    }

    fn ret(&mut self, value: &str) -> usize {
        let i = self.open(NodeKind::Return);
        self.kw(TokenKind::ReturnKw, "return");
        self.int_lit(value, false);
        self.close();
        i
    }

    fn try_expr(&mut self, value: &str) -> usize {
        let i = self.open(NodeKind::Try);
        self.int_lit(value, false);
        self.kw(TokenKind::Question, "?");
        self.close();
        i
    }

    fn def(&mut self, kind: DefinitionKind, is_mut: bool) -> usize {
        self.sem.defs.push(Definition { kind, is_mut, navs: Vec::new(), usages: Vec::new() });
        self.sem.defs.len() - 1
    }

    fn decl(&mut self, d: usize, r: Option<TextRange>) {
        self.sem.defs[d].navs.push(NavigationTarget { file_id: FILE, focus_range: r });
    }

    fn usage(&mut self, d: usize, r: TextRange, category: Option<ReferenceCategory>) {
        self.sem.defs[d].usages.push(FileReference { file_id: FILE, range: r, category });
    }

    fn names_def(&mut self, tok: usize, d: usize) {
        self.sem.token_defs.push((tok, d));
    }

    fn finish(mut self) -> (SyntaxTree, Semantics, String, u32) {
        while !self.stack.is_empty() {
            self.close();
        }
        (SyntaxTree { nodes: self.nodes }, self.sem, self.text, self.cursor)
    }
}

type Hl = (u32, u32, Option<String>);

fn category_name(c: Option<ReferenceCategory>) -> Option<String> {
    c.map(|it| {
        match it {
            ReferenceCategory::Read => "read",
            ReferenceCategory::Write => "write",
            ReferenceCategory::Import => "import",
        }
        .to_string()
    })
}

/// The ranges that `^` marks in comment lines, on the nearest line above
/// that is not such a comment.
fn annotations(text: &str) -> Vec<Hl> {
    let mut res = Vec::new();
    let mut line_start = 0usize;
    let mut code_start = 0usize;
    for line in text.split_inclusive('\n') {
        let mut is_annotation = false;
        if let Some(idx) = line.find("//") {
            let rest = &line[idx + 2..];
            let trimmed = rest.trim_start();
            if trimmed.starts_with('^') {
                is_annotation = true;
                let col = idx + 2 + (rest.len() - trimmed.len());
                let n = trimmed.chars().take_while(|c| *c == '^').count();
                let tag = trimmed[n..].trim();
                let start = (code_start + col) as u32;
                res.push((start, start + n as u32, if tag.is_empty() { None } else { Some(tag.to_string()) }));
            }
        }
        if !is_annotation {
            code_start = line_start;
        }
        line_start += line.len();
    }
    res.sort();
    res
}

fn highlights(tree: &SyntaxTree, sem: &Semantics, config: HighlightRelatedConfig, cursor: u32) -> Vec<Hl> {
    let hls: Vec<HighlightedRange> = highlight_related(tree, sem, config, FILE, cursor).unwrap_or_default();
    let mut actual: Vec<Hl> =
        hls.into_iter().map(|h| (h.range.start, h.range.end, category_name(h.category))).collect();
    actual.sort();
    actual
}

fn check_with_config(f: Fx, config: HighlightRelatedConfig) {
    let (tree, sem, text, cursor) = f.finish();
    let expected = annotations(&text);
    let actual = highlights(&tree, &sem, config, cursor);
    assert_eq!(expected, actual);
}

fn check(f: Fx) {
    check_with_config(f, ENABLED_CONFIG);
}

fn loop_kind() -> (NodeKind, TokenKind, &'static str) {
    (NodeKind::Loop, TokenKind::LoopKw, "loop")
}

fn for_kind() -> (NodeKind, TokenKind, &'static str) {
    (NodeKind::For, TokenKind::ForKw, "for")
}

fn while_kind() -> (NodeKind, TokenKind, &'static str) {
    (NodeKind::While, TokenKind::WhileKw, "while")
}

/// The three nested loops, each with `break`s to itself and to the others.
fn nested_breaks(fixture: &str, (k, tk, text): (NodeKind, TokenKind, &'static str)) -> Fx {
    let mut f = fx(fixture);
    f.func("foo");
    f.lp(k, tk, text, Some("'outer:"), true);
    f.brk(None);
    f.lp(k, tk, text, Some("'inner:"), false);
    f.brk(None);
    f.lp(k, tk, text, Some("'innermost:"), false);
    f.brk(Some("'outer"));
    f.brk(Some("'inner"));
    f.end_loop();
    f.brk(Some("'outer"));
    f.brk(None);
    f.end_loop();
    f.brk(None);
    f.end_loop();
    f
}

#[test]
fn test_hl_break_loop() {
    check(nested_breaks(
        r#"
fn foo() {
    'outer: loop {
 // ^^^^^^^^^^^^
         break;
      // ^^^^^
         'inner: loop {
            break;
            'innermost: loop {
                break 'outer;
             // ^^^^^^^^^^^^
                break 'inner;
            }
            break$0 'outer;
         // ^^^^^^^^^^^^
            break;
        }
        break;
     // ^^^^^
    }
}
"#,
        loop_kind(),
    ));
}

#[test]
fn test_hl_break_loop2() {
    check(nested_breaks(
        r#"
fn foo() {
    'outer: loop {
        break;
        'inner: loop {
     // ^^^^^^^^^^^^
            break;
         // ^^^^^
            'innermost: loop {
                break 'outer;
                break 'inner;
             // ^^^^^^^^^^^^
            }
            break 'outer;
            break$0;
         // ^^^^^
        }
        break;
    }
}
"#,
        loop_kind(),
    ));
}

#[test]
fn test_hl_break_for() {
    check(nested_breaks(
        r#"
fn foo() {
    'outer: for _ in () {
 // ^^^^^^^^^^^
         break;
      // ^^^^^
         'inner: for _ in () {
            break;
            'innermost: for _ in () {
                break 'outer;
             // ^^^^^^^^^^^^
                break 'inner;
            }
            break$0 'outer;
         // ^^^^^^^^^^^^
            break;
        }
        break;
     // ^^^^^
    }
}
"#,
        for_kind(),
    ));
}

#[test]
fn test_hl_break_while() {
    check(nested_breaks(
        r#"
fn foo() {
    'outer: while true {
 // ^^^^^^^^^^^^^
         break;
      // ^^^^^
         'inner: while true {
            break;
            'innermost: while true {
                break 'outer;
             // ^^^^^^^^^^^^
                break 'inner;
            }
            break$0 'outer;
         // ^^^^^^^^^^^^
            break;
        }
        break;
     // ^^^^^
    }
}
"#,
        while_kind(),
    ));
}

/// The three nested `for` loops with both `break`s and `continue`s.
fn nested_for_jumps(fixture: &str) -> Fx {
    let (k, tk, text) = for_kind();
    let mut f = fx(fixture);
    f.func("foo");
    f.lp(k, tk, text, Some("'outer:"), true);
    f.brk(None);
    f.cont(None);
    f.lp(k, tk, text, Some("'inner:"), false);
    f.brk(None);
    f.cont(None);
    f.lp(k, tk, text, Some("'innermost:"), false);
    f.cont(Some("'outer"));
    f.brk(Some("'outer"));
    f.cont(Some("'inner"));
    f.brk(Some("'inner"));
    f.end_loop();
    f.brk(Some("'outer"));
    f.cont(Some("'outer"));
    f.brk(None);
    f.cont(None);
    f.end_loop();
    f.brk(None);
    f.cont(None);
    f.end_loop();
    f
}

#[test]
fn test_hl_break_for_but_not_continue() {
    check(nested_for_jumps(
        r#"
fn foo() {
    'outer: for _ in () {
 // ^^^^^^^^^^^
        break;
     // ^^^^^
        continue;
        'inner: for _ in () {
            break;
            continue;
            'innermost: for _ in () {
                continue 'outer;
                break 'outer;
             // ^^^^^^^^^^^^
                continue 'inner;
                break 'inner;
            }
            break$0 'outer;
         // ^^^^^^^^^^^^
            continue 'outer;
            break;
            continue;
        }
        break;
     // ^^^^^
        continue;
    }
}
"#,
    ));
}

#[test]
fn test_hl_continue_for_but_not_break() {
    check(nested_for_jumps(
        r#"
fn foo() {
    'outer: for _ in () {
 // ^^^^^^^^^^^
        break;
        continue;
     // ^^^^^^^^
        'inner: for _ in () {
            break;
            continue;
            'innermost: for _ in () {
                continue 'outer;
             // ^^^^^^^^^^^^^^^
                break 'outer;
                continue 'inner;
                break 'inner;
            }
            break 'outer;
            continue$0 'outer;
         // ^^^^^^^^^^^^^^^
            break;
            continue;
        }
        break;
        continue;
     // ^^^^^^^^
    }
}
"#,
    ));
}

#[test]
fn test_hl_break_and_continue() {
    check(nested_for_jumps(
        r#"
fn foo() {
    'outer: fo$0r _ in () {
 // ^^^^^^^^^^^
        break;
     // ^^^^^
        continue;
     // ^^^^^^^^
        'inner: for _ in () {
            break;
            continue;
            'innermost: for _ in () {
                continue 'outer;
             // ^^^^^^^^^^^^^^^
                break 'outer;
             // ^^^^^^^^^^^^
                continue 'inner;
                break 'inner;
            }
            break 'outer;
         // ^^^^^^^^^^^^
            continue 'outer;
         // ^^^^^^^^^^^^^^^
            break;
            continue;
        }
        break;
     // ^^^^^
        continue;
     // ^^^^^^^^
    }
}
"#,
    ));
}

#[test]
fn test_hl_break_labeled_block() {
    let mut f = fx(r#"
fn foo() {
    'outer: {
 // ^^^^^^^
         break;
      // ^^^^^
         'inner: {
            break;
            'innermost: {
                break 'outer;
             // ^^^^^^^^^^^^
                break 'inner;
            }
            break$0 'outer;
         // ^^^^^^^^^^^^
            break;
        }
        break;
     // ^^^^^
    }
}
"#);
    let labeled = NodeKind::Block(BlockModifier::Labeled);
    f.func("foo");
    f.open(labeled);
    f.tail();
    f.label("'outer:");
    f.brk(None);
    f.open(labeled);
    f.label("'inner:");
    f.brk(None);
    f.open(labeled);
    f.label("'innermost:");
    f.brk(Some("'outer"));
    f.brk(Some("'inner"));
    f.close();
    f.brk(Some("'outer"));
    f.brk(None);
    f.close();
    f.brk(None);
    f.close();
    check(f);
}

#[test]
fn test_hl_break_unlabeled_loop() {
    let mut f = fx(r#"
fn foo() {
    loop {
 // ^^^^
        break$0;
     // ^^^^^
    }
}
"#);
    f.func("foo");
    f.lp(NodeKind::Loop, TokenKind::LoopKw, "loop", None, true);
    f.brk(None);
    check(f);
}

#[test]
fn test_hl_break_unlabeled_block_in_loop() {
    let mut f = fx(r#"
fn foo() {
    loop {
 // ^^^^
        {
            break$0;
         // ^^^^^
        }
    }
}
"#);
    f.func("foo");
    f.lp(NodeKind::Loop, TokenKind::LoopKw, "loop", None, true);
    f.open(NodeKind::Block(BlockModifier::Plain));
    f.tail();
    f.brk(None);
    check(f);
}

/// `fn foo() -> u32 { if true { return 0; } 0?; 0xDEAD_BEEF }`
fn exit_points_fn(fixture: &str) -> Fx {
    let mut f = fx(fixture);
    f.func_arrow("foo");
    f.open(NodeKind::If);
    f.tok(TokenKind::OtherKeyword, "if");
    f.leaf(NodeKind::OtherExpr, TokenKind::OtherKeyword, "true", false);
    f.open(NodeKind::Block(BlockModifier::Plain));
    f.tail();
    f.ret("0");
    f.close();
    f.close();
    f.try_expr("0");
    f.int_lit("0xDEAD_BEEF", true);
    f
}

#[test]
fn test_hl_exit_points() {
    check(exit_points_fn(
        r#"
  fn foo() -> u32 {
//^^
    if true {
        return$0 0;
     // ^^^^^^
    }

    0?;
  // ^
    0xDEAD_BEEF
 // ^^^^^^^^^^^
}
"#,
    ));
}

#[test]
fn test_hl_exit_points2() {
    check(exit_points_fn(
        r#"
  fn foo() ->$0 u32 {
//^^
    if true {
        return 0;
     // ^^^^^^
    }

    0?;
  // ^
    0xDEAD_BEEF
 // ^^^^^^^^^^^
}
"#,
    ));
}

#[test]
fn test_hl_exit_points3() {
    check(exit_points_fn(
        r#"
  fn$0 foo() -> u32 {
//^^
    if true {
        return 0;
     // ^^^^^^
    }

    0?;
  // ^
    0xDEAD_BEEF
 // ^^^^^^^^^^^
}
"#,
    ));
}

#[test]
fn test_hl_let_else_exit_points() {
    let mut f = fx(r#"
  fn$0 foo() -> u32 {
//^^
    let Some(bar) = None else {
        return 0;
     // ^^^^^^
    };

    0?;
  // ^
    0xDEAD_BEEF
 // ^^^^^^^^^^^
}
"#);
    f.func_arrow("foo");
    f.open(NodeKind::Other);
    f.tok(TokenKind::OtherKeyword, "let");
    f.open(NodeKind::Block(BlockModifier::Plain));
    f.ret("0");
    f.close();
    f.close();
    f.try_expr("0");
    f.int_lit("0xDEAD_BEEF", true);
    check(f);
}

#[test]
fn test_hl_prefer_ref_over_tail_exit() {
    let mut f = fx(r#"
fn foo() -> u32 {
// ^^^
    if true {
        return 0;
    }

    0?;

    foo$0()
 // ^^^
}
"#);
    let fnode = f.func_arrow("foo");
    f.open(NodeKind::If);
    f.tok(TokenKind::OtherKeyword, "if");
    f.open(NodeKind::Block(BlockModifier::Plain));
    f.tail();
    f.ret("0");
    f.close();
    f.close();
    f.try_expr("0");
    f.open(NodeKind::Call);
    f.tail();
    let call = f.tok(TokenKind::Ident, "foo");
    f.tok(TokenKind::Other, "()");
    f.close();
    let (decl, usage) = (f.nodes[fnode + 2].range, f.nodes[call].range);
    let d = f.def(DefinitionKind::Other, false);
    f.decl(d, Some(decl));
    f.usage(d, usage, None);
    f.names_def(call, d);
    check(f);
}

#[test]
fn test_hl_never_call_is_exit_point() {
    let mut f = fx(r#"
struct Never;
impl Never {
    fn never(self) -> ! { loop {} }
}
macro_rules! never {
    () => { never() }
}
fn never() -> ! { loop {} }
  fn foo() ->$0 u32 {
//^^
    never();
 // ^^^^^^^
    never!();
 // ^^^^^^^^

    Never.never();
 // ^^^^^^^^^^^^^

    0
 // ^
}
"#);
    f.seek("fn foo");
    f.func_arrow("foo");
    for (head, rest) in [("never", "()"), ("never", "!()"), ("Never", ".never()")] {
        let c = f.open(NodeKind::Call);
        f.nodes[c].diverges = true;
        f.tok(TokenKind::Ident, head);
        f.tok(TokenKind::Other, rest);
        f.close();
    }
    f.int_lit("0", true);
    check(f);
}

#[test]
fn test_hl_inner_tail_exit_points() {
    let mut f = fx(r#"
  fn foo() ->$0 u32 {
//^^
    if true {
        unsafe {
            return 5;
         // ^^^^^^
            5
         // ^
        }
    } else if false {
        0
     // ^
    } else {
        match 5 {
            6 => 100,
              // ^^^
            7 => loop {
                break 5;
             // ^^^^^
            }
            8 => 'a: loop {
                'b: loop {
                    break 'a 5;
                 // ^^^^^
                    break 'b 5;
                    break 5;
                };
            }
            //
            _ => 500,
              // ^^^
        }
    }
}
"#);
    let plain = NodeKind::Block(BlockModifier::Plain);
    f.func_arrow("foo");
    f.open(NodeKind::If);
    f.tail();
    f.tok(TokenKind::OtherKeyword, "if");
    f.leaf(NodeKind::OtherExpr, TokenKind::OtherKeyword, "true", false);
    f.open(plain);
    f.tail();
    f.open(NodeKind::Block(BlockModifier::Unsafe));
    f.tail();
    f.kw(TokenKind::OtherKeyword, "unsafe");
    f.ret("5");
    f.int_lit("5", true);
    f.close();
    f.close();
    f.open(NodeKind::If);
    f.tail();
    f.tok(TokenKind::OtherKeyword, "if");
    f.leaf(NodeKind::OtherExpr, TokenKind::OtherKeyword, "false", false);
    f.open(plain);
    f.tail();
    f.int_lit("0", true);
    f.close();
    f.open(plain);
    f.tail();
    f.open(NodeKind::Match);
    f.tail();
    f.tok(TokenKind::OtherKeyword, "match");
    f.int_lit("5", false);
    f.open(NodeKind::MatchArm);
    f.tail();
    f.int_lit("6", false);
    f.int_lit("100", true);
    f.close();
    f.open(NodeKind::MatchArm);
    f.tail();
    f.int_lit("7", false);
    f.lp(NodeKind::Loop, TokenKind::LoopKw, "loop", None, true);
    f.brk_val(None, "5");
    f.end_loop();
    f.close();
    f.open(NodeKind::MatchArm);
    f.tail();
    f.int_lit("8", false);
    f.lp(NodeKind::Loop, TokenKind::LoopKw, "loop", Some("'a:"), true);
    f.lp(NodeKind::Loop, TokenKind::LoopKw, "loop", Some("'b:"), false);
    f.brk_val(Some("'a"), "5");
    f.brk_val(Some("'b"), "5");
    f.brk_val(None, "5");
    f.end_loop();
    f.end_loop();
    f.close();
    f.open(NodeKind::MatchArm);
    f.tail();
    f.tok(TokenKind::Other, "_");
    f.int_lit("500", true);
    f.close();
    check(f);
}

#[test]
fn test_hl_inner_tail_exit_points_labeled_block() {
    let mut f = fx(r#"
  fn foo() ->$0 u32 {
//^^
    'foo: {
        break 'foo 0;
     // ^^^^^
        loop {
            break;
            break 'foo 0;
         // ^^^^^
        }
        0
     // ^
    }
}
"#);
    f.func_arrow("foo");
    f.open(NodeKind::Block(BlockModifier::Labeled));
    f.tail();
    f.label("'foo:");
    f.brk_val(Some("'foo"), "0");
    f.lp(NodeKind::Loop, TokenKind::LoopKw, "loop", None, false);
    f.brk(None);
    f.brk_val(Some("'foo"), "0");
    f.end_loop();
    f.int_lit("0", true);
    check(f);
}

#[test]
fn test_hl_inner_tail_exit_points_loops() {
    let mut f = fx(r#"
  fn foo() ->$0 u32 {
//^^
    'foo: while { return 0; true } {
               // ^^^^^^
        break 'foo 0;
     // ^^^^^
        return 0;
     // ^^^^^^
    }
}
"#);
    f.func_arrow("foo");
    let w = f.open(NodeKind::While);
    f.tail();
    f.label("'foo:");
    f.kw(TokenKind::WhileKw, "while");
    f.open(NodeKind::Block(BlockModifier::Plain));
    f.ret("0");
    f.leaf(NodeKind::OtherExpr, TokenKind::OtherKeyword, "true", true);
    f.close();
    f.body(NodeKind::Block(BlockModifier::Plain));
    assert_eq!(f.nodes[w].body, Some(f.top()));
    f.brk_val(Some("'foo"), "0");
    f.ret("0");
    check(f);
}

/// An `.await` on `receiver`, which is built by the caller in between.
fn open_await(f: &mut Fx) -> usize {
    f.open(NodeKind::Await)
}

fn close_await(f: &mut Fx) {
    f.kw(TokenKind::AwaitKw, "await");
    f.close();
}

fn int_await(f: &mut Fx, tail: bool) {
    open_await(f);
    if tail {
        f.tail();
    }
    f.int_lit("0", false);
    close_await(f);
}

/// `pub async fn foo()` and its body up to the closure, in the three
/// yield point fixtures that share that shape.
fn async_foo_start(f: &mut Fx) {
    f.open(NodeKind::Fn);
    f.async_kw();
    f.kw(TokenKind::FnKw, "fn");
    f.tok(TokenKind::Ident, "foo");
    f.body(NodeKind::Block(BlockModifier::Plain));
    f.open(NodeKind::Other);
    f.tok(TokenKind::OtherKeyword, "let");
    open_await(f);
    open_await(f);
    f.open(NodeKind::Call);
    f.tok(TokenKind::Ident, "foo");
    f.close();
    close_await(f);
    close_await(f);
    f.close();
    f.open(NodeKind::Closure);
    f.tok(TokenKind::Pipe, "||");
    f.body(NodeKind::Block(BlockModifier::Plain));
    int_await(f, true);
    f.close();
    f.close();
}

/// `(async { 0.await }).await` as the tail of the body.
fn async_block_tail(f: &mut Fx) {
    open_await(f);
    f.tail();
    f.open(NodeKind::OtherExpr);
    f.open(NodeKind::Block(BlockModifier::Async));
    f.async_kw();
    let b = f.top();
    f.nodes[b].keyword = f.nodes[b].async_kw;
    int_await(f, true);
    f.close();
    f.close();
    close_await(f);
}

#[test]
fn test_hl_yield_points() {
    let mut f = fx(r#"
pub async fn foo() {
 // ^^^^^
    let x = foo()
        .await$0
      // ^^^^^
        .await;
      // ^^^^^
    || { 0.await };
    (async { 0.await }).await
                     // ^^^^^
}
"#);
    async_foo_start(&mut f);
    async_block_tail(&mut f);
    check(f);
}

#[test]
fn test_hl_yield_points2() {
    let mut f = fx(r#"
pub async$0 fn foo() {
 // ^^^^^
    let x = foo()
        .await
      // ^^^^^
        .await;
      // ^^^^^
    || { 0.await };
    (async { 0.await }).await
                     // ^^^^^
}
"#);
    async_foo_start(&mut f);
    async_block_tail(&mut f);
    check(f);
}

#[test]
fn test_hl_let_else_yield_points() {
    let mut f = fx(r#"
pub async fn foo() {
 // ^^^^^
    let x = foo()
        .await$0
      // ^^^^^
        .await;
      // ^^^^^
    || { 0.await };
    let Some(_) = None else {
        foo().await
           // ^^^^^
    };
    (async { 0.await }).await
                     // ^^^^^
}
"#);
    async_foo_start(&mut f);
    f.open(NodeKind::Other);
    f.tok(TokenKind::OtherKeyword, "let");
    f.open(NodeKind::Block(BlockModifier::Plain));
    open_await(&mut f);
    f.tail();
    f.open(NodeKind::Call);
    f.tok(TokenKind::Ident, "foo");
    f.close();
    close_await(&mut f);
    f.close();
    f.close();
    async_block_tail(&mut f);
    check(f);
}

#[test]
fn test_hl_yield_nested_fn() {
    let mut f = fx(r#"
async fn foo() {
    async fn foo2() {
 // ^^^^^
        async fn foo3() {
            0.await
        }
        0.await$0
       // ^^^^^
    }
    0.await
}
"#);
    for name in ["foo", "foo2", "foo3"] {
        f.open(NodeKind::Fn);
        f.async_kw();
        f.kw(TokenKind::FnKw, "fn");
        f.tok(TokenKind::Ident, name);
        f.body(NodeKind::Block(BlockModifier::Plain));
    }
    int_await(&mut f, true);
    f.close();
    f.close();
    int_await(&mut f, true);
    f.close();
    f.close();
    int_await(&mut f, true);
    check(f);
}

#[test]
fn test_hl_yield_nested_async_blocks() {
    let mut f = fx(r#"
async fn foo() {
    (async {
  // ^^^^^
        (async {
           0.await
        }).await$0 }
        // ^^^^^
    ).await;
}
"#);
    f.open(NodeKind::Fn);
    f.async_kw();
    f.kw(TokenKind::FnKw, "fn");
    f.tok(TokenKind::Ident, "foo");
    f.body(NodeKind::Block(BlockModifier::Plain));
    open_await(&mut f);
    f.open(NodeKind::OtherExpr);
    f.open(NodeKind::Block(BlockModifier::Async));
    f.async_kw();
    async_block_tail(&mut f);
    f.close();
    f.close();
    close_await(&mut f);
    check(f);
}

const READ: Option<ReferenceCategory> = Some(ReferenceCategory::Read);
const IMPORT: Option<ReferenceCategory> = Some(ReferenceCategory::Import);

impl Fx {
    fn decl_in(&mut self, d: usize, file_id: u32, r: Option<TextRange>) {
        self.sem.defs[d].navs.push(NavigationTarget { file_id, focus_range: r });
    }

    fn ident(&mut self, text: &str) -> usize {
        self.tok(TokenKind::Ident, text)
    }

    fn range(&self, i: usize) -> TextRange {
        self.nodes[i].range
    }
}

#[test]
fn test_hl_tuple_fields() {
    let mut f = fx(r#"
struct Tuple(u32, u32);

fn foo(t: Tuple) {
    t.0$0;
   // ^ read
    t.0;
   // ^ read
}
"#);
    f.seek("t.0");
    let cursor = f.tok(TokenKind::IntNumber, "0");
    let other = f.find("t.0");
    let d = f.def(DefinitionKind::Other, false);
    f.decl(d, None);
    let first = f.range(cursor);
    f.usage(d, first, READ);
    f.usage(d, sub(other, 2, 1), READ);
    f.names_def(cursor, d);
    check(f);
}

#[test]
fn test_hl_module() {
    let mut f = fx(r#"
//- /lib.rs
mod foo$0;
 // ^^^
//- /foo.rs
struct Foo;
"#);
    let cursor = f.ident("foo");
    let d = f.def(DefinitionKind::Module, false);
    let r = f.range(cursor);
    f.decl(d, Some(r));
    f.names_def(cursor, d);
    check(f);
}

#[test]
fn test_hl_self_in_crate_root() {
    let mut f = fx(r#"
use crate$0;
  //^^^^^ import
use self;
  //^^^^ import
mod __ {
    use super;
      //^^^^^ import
}
"#);
    let cursor = f.tok(TokenKind::OtherKeyword, "crate");
    let d = f.def(DefinitionKind::Module, false);
    let r = f.range(cursor);
    f.usage(d, r, IMPORT);
    let r = f.find("self");
    f.usage(d, r, IMPORT);
    let r = f.find("super");
    f.usage(d, r, IMPORT);
    f.names_def(cursor, d);
    check(f);

    let mut f = fx(r#"
//- /main.rs crate:main deps:lib
use lib$0;
  //^^^ import
//- /lib.rs crate:lib
"#);
    let cursor = f.ident("lib");
    let d = f.def(DefinitionKind::Module, false);
    f.decl_in(d, FILE + 1, None);
    let r = f.range(cursor);
    f.usage(d, r, IMPORT);
    f.names_def(cursor, d);
    check(f);
}

#[test]
fn test_hl_self_in_module() {
    let mut f = fx(r#"
//- /lib.rs
mod foo;
//- /foo.rs
use self$0;
 // ^^^^ import
"#);
    let cursor = f.tok(TokenKind::OtherKeyword, "self");
    let d = f.def(DefinitionKind::Module, false);
    f.decl_in(d, FILE + 1, Some(TextRange { start: 5, end: 8 }));
    let r = f.range(cursor);
    f.usage(d, r, IMPORT);
    f.names_def(cursor, d);
    check(f);
}

/// `let mut bar = 3; bar;` with the cursor on the read.
fn mutable_local(fixture: &str) -> Fx {
    let mut f = fx(fixture);
    f.seek("let mut");
    let decl = f.ident("bar");
    let cursor = f.ident("bar");
    let d = f.def(DefinitionKind::Local, true);
    let (dr, ur) = (f.range(decl), f.range(cursor));
    f.decl(d, Some(dr));
    f.usage(d, ur, READ);
    f.names_def(cursor, d);
    f
}

#[test]
fn test_hl_local() {
    check(mutable_local(
        r#"
fn foo() {
    let mut bar = 3;
         // ^^^ write
    bar$0;
 // ^^^ read
}
"#,
    ));
}

#[test]
fn test_hl_local_in_attr() {
    check(mutable_local(
        r#"
//- proc_macros: identity
#[proc_macros::identity]
fn foo() {
    let mut bar = 3;
         // ^^^ write
    bar$0;
 // ^^^ read
}
"#,
    ));
}

/// A macro that defines both a function and a struct named `bar`; the
/// cursor names the definitions listed in `named` (0: the function, 1: the
/// struct).
fn macro_defs(fixture: &str, named: &[usize]) -> Fx {
    let mut f = fx(fixture);
    f.seek("foo!(");
    let site = f.ident("bar");
    f.seek("let bar: ");
    f.pos += "let bar: ".len();
    let ty = f.ident("bar");
    let call = f.ident("bar");
    let fun = f.def(DefinitionKind::Other, false);
    let st = f.def(DefinitionKind::Other, false);
    let (s, t, c) = (f.range(site), f.range(ty), f.range(call));
    f.decl(fun, Some(s));
    f.decl(st, Some(s));
    f.usage(fun, c, None);
    f.usage(st, t, None);
    let cursor = if f.cursor == s.end { site } else { ty };
    for &d in named {
        f.names_def(cursor, [fun, st][d]);
    }
    f
}

#[test]
fn test_multi_macro_usage() {
    check(macro_defs(
        r#"
macro_rules! foo {
    ($ident:ident) => {
        fn $ident() -> $ident { loop {} }
        struct $ident;
    }
}

foo!(bar$0);
  // ^^^
fn foo() {
    let bar: bar = bar();
          // ^^^
                // ^^^
}
"#,
        &[0, 1],
    ));
    check(macro_defs(
        r#"
macro_rules! foo {
    ($ident:ident) => {
        fn $ident() -> $ident { loop {} }
        struct $ident;
    }
}

foo!(bar);
  // ^^^
fn foo() {
    let bar: bar$0 = bar();
          // ^^^
}
"#,
        &[1],
    ));
}

#[test]
fn test_hl_field_shorthand() {
    let mut f = fx(r#"
struct Struct { field: u32 }
              //^^^^^
fn function(field: u32) {
          //^^^^^
    Struct { field$0 }
           //^^^^^ read
}
"#);
    let field_decl = f.find("field");
    let param = f.find("field");
    f.seek("Struct {");
    let cursor = f.ident("field");
    let use_range = f.range(cursor);
    let field = f.def(DefinitionKind::Other, false);
    f.decl(field, Some(field_decl));
    f.usage(field, use_range, READ);
    let local = f.def(DefinitionKind::Local, false);
    f.decl(local, Some(param));
    f.usage(local, use_range, READ);
    f.names_def(cursor, field);
    f.names_def(cursor, local);
    check(f);
}

/// `fn foo((foo | foo | foo): ()) { foo; let foo; }`: one local bound in
/// three places.
fn or_pattern_local(fixture: &str) -> Fx {
    let mut f = fx(fixture);
    f.seek("((");
    let d = f.def(DefinitionKind::Local, false);
    for _ in 0..3 {
        let i = f.ident("foo");
        let r = f.range(i);
        f.decl(d, Some(r));
        f.names_def(i, d);
    }
    let u = f.ident("foo");
    let r = f.range(u);
    f.usage(d, r, READ);
    f.names_def(u, d);
    f
}

#[test]
fn test_hl_multi_local() {
    check(or_pattern_local(
        r#"
fn foo((
    foo$0
  //^^^
    | foo
    //^^^
    | foo
    //^^^
): ()) {
    foo;
  //^^^read
    let foo;
}
"#,
    ));
    check(or_pattern_local(
        r#"
fn foo((
    foo
  //^^^
    | foo$0
    //^^^
    | foo
    //^^^
): ()) {
    foo;
  //^^^read
    let foo;
}
"#,
    ));
    check(or_pattern_local(
        r#"
fn foo((
    foo
  //^^^
    | foo
    //^^^
    | foo
    //^^^
): ()) {
    foo$0;
  //^^^read
    let foo;
}
"#,
    ));
}

/// A trait method `func` and its impl, each called once; the cursor names
/// the trait's method when `on_trait`, else the impl's.
fn trait_impl_methods(fixture: &str, on_trait: bool) -> Fx {
    let mut f = fx(fixture);
    let in_trait = f.ident("func");
    let in_impl = f.ident("func");
    let path_call = f.ident("func");
    let method_call = f.ident("func");
    let (t, i, p, m) = (f.range(in_trait), f.range(in_impl), f.range(path_call), f.range(method_call));
    let trait_fn = f.def(DefinitionKind::Other, false);
    f.decl(trait_fn, Some(t));
    f.usage(trait_fn, i, None);
    f.usage(trait_fn, p, None);
    f.usage(trait_fn, m, None);
    let impl_fn = f.def(DefinitionKind::Other, false);
    f.decl(impl_fn, Some(i));
    f.usage(impl_fn, p, None);
    f.usage(impl_fn, m, None);
    let cursor = [in_trait, in_impl, path_call, method_call]
        .into_iter()
        .find(|&k| f.nodes[k].range.end == f.cursor)
        .unwrap();
    f.names_def(cursor, if on_trait { trait_fn } else { impl_fn });
    f
}

#[test]
fn test_hl_trait_impl_methods() {
    check(trait_impl_methods(
        r#"
trait Trait {
    fn func$0(self) {}
     //^^^^
}

impl Trait for () {
    fn func(self) {}
     //^^^^
}

fn main() {
    <()>::func(());
        //^^^^
    ().func();
     //^^^^
}
"#,
        true,
    ));
    check(trait_impl_methods(
        r#"
trait Trait {
    fn func(self) {}
}

impl Trait for () {
    fn func$0(self) {}
     //^^^^
}

fn main() {
    <()>::func(());
        //^^^^
    ().func();
     //^^^^
}
"#,
        false,
    ));
    check(trait_impl_methods(
        r#"
trait Trait {
    fn func(self) {}
}

impl Trait for () {
    fn func(self) {}
     //^^^^
}

fn main() {
    <()>::func(());
        //^^^^
    ().func$0();
     //^^^^
}
"#,
        false,
    ));
}

#[test]
fn test_assoc_type_highlighting() {
    let mut f = fx(r#"
trait Trait {
    type Output;
      // ^^^^^^
}
impl Trait for () {
    type Output$0 = ();
      // ^^^^^^
}
"#);
    let in_trait = f.find("Output");
    let cursor = f.ident("Output");
    let r = f.range(cursor);
    let d = f.def(DefinitionKind::Other, false);
    f.decl(d, Some(r));
    f.usage(d, in_trait, None);
    f.names_def(cursor, d);
    check(f);
}

/// `let x = 1; let c = move? |y| x + y;` where the closure captures `x`.
fn capture_x(fixture: &str, with_move: bool) -> Fx {
    let mut f = fx(fixture);
    let x = f.find("x");
    let c = f.open(NodeKind::Closure);
    if with_move {
        f.tok(TokenKind::MoveKw, "move");
    }
    f.open(NodeKind::Other);
    f.tok(TokenKind::Pipe, "|");
    f.ident("y");
    f.tok(TokenKind::Pipe, "|");
    f.close();
    f.body(NodeKind::OtherExpr);
    let used = f.ident("x");
    f.ident("y");
    f.close();
    f.close();
    let used = f.range(used);
    let d = f.def(DefinitionKind::Local, false);
    f.decl(d, Some(x));
    f.usage(d, used, READ);
    f.sem.captures.push((c, d));
    f
}

#[test]
fn test_closure_capture_pipe() {
    check(capture_x(
        r#"
fn f() {
    let x = 1;
    //  ^
    let c = $0|y| x + y;
    //          ^ read
}
"#,
        false,
    ));
}

#[test]
fn test_closure_capture_move() {
    check(capture_x(
        r#"
fn f() {
    let x = 1;
    //  ^
    let c = move$0 |y| x + y;
    //               ^ read
}
"#,
        true,
    ));
}

const TRAIT_ITEMS_FIXTURE: &str = r#"
trait Foo {
    //^^^
    type T;
    const C: usize;
    fn f() {}
    fn m(&self) {}
}
impl Foo for i32 {
   //^^^
    type T = i32;
    const C: usize = 0;
    fn f() {}
    fn m(&self) {}
}
fn f<T: Foo$0>(t: T) {
      //^^^
    let _: T::T;
            //^
    t.m();
    //^
    T::C;
     //^
    T::f();
     //^
}

fn f2<T: Foo>(t: T) {
       //^^^
    let _: T::T;
    t.m();
    T::C;
    T::f();
}
"#;

/// The trait `Foo`, bound on `T` in `f` and in `f2`, with its four items
/// used in both bodies.
fn trait_items(fixture: &str) -> Fx {
    let mut f = fx(fixture);
    let trait_decl = f.find("Foo");
    let in_impl = f.find("Foo");
    f.seek("fn f<");
    f.open(NodeKind::Fn);
    f.kw(TokenKind::FnKw, "fn");
    f.ident("f");
    f.open(NodeKind::Other);
    f.open(NodeKind::TypeParam);
    f.ident("T");
    f.open(NodeKind::TypeBoundList);
    f.open(NodeKind::Other);
    f.open(NodeKind::PathType);
    f.open(NodeKind::Path);
    f.open(NodeKind::PathSegment);
    f.open(NodeKind::NameRef);
    let cursor = f.ident("Foo");
    for _ in 0..8 {
        f.close();
    }
    f.body(NodeKind::Block(BlockModifier::Plain));
    let uses_in_f = [sub(f.find("T::T"), 3, 1), sub(f.find("t.m"), 2, 1), sub(f.find("T::C"), 3, 1), sub(f.find("T::f"), 3, 1)];
    f.tok(TokenKind::Other, "}");
    f.close();
    f.close();
    let in_f2 = f.find("Foo");
    let uses_in_f2 = [sub(f.find("T::T"), 3, 1), sub(f.find("t.m"), 2, 1), sub(f.find("T::C"), 3, 1), sub(f.find("T::f"), 3, 1)];
    let foo = f.def(DefinitionKind::Trait, false);
    f.decl(foo, Some(trait_decl));
    let bound = f.range(cursor);
    f.usage(foo, in_impl, None);
    f.usage(foo, bound, None);
    f.usage(foo, in_f2, None);
    for k in 0..4 {
        let item = f.def(DefinitionKind::Other, false);
        f.usage(item, uses_in_f[k], None);
        f.usage(item, uses_in_f2[k], None);
        f.sem.trait_items.push((foo, item));
    }
    f.names_def(cursor, foo);
    f
}

#[test]
fn test_trait_highlights_assoc_item_uses() {
    check(trait_items(TRAIT_ITEMS_FIXTURE));
}

#[test]
fn implicit_format_args() {
    let mut f = fx(r#"
//- minicore: fmt
fn test() {
    let a = "foo";
     // ^
    format_args!("hello {a} {a$0} {}", a);
                      // ^read
                          // ^read
                                  // ^read
}
"#);
    let decl = f.find("a");
    f.seek("\"hello");
    let lit = f.tok(TokenKind::Other, "\"hello {a} {a} {}\"");
    let s = f.range(lit);
    let arg = f.find("a");
    let d = f.def(DefinitionKind::Local, false);
    f.decl(d, Some(decl));
    let (first, second) = (sub(s, 8, 1), sub(s, 12, 1));
    f.usage(d, first, READ);
    f.usage(d, second, READ);
    f.usage(d, arg, READ);
    f.sem.format_args.push(FormatArgRef { token: lit, range: second, def: Some(d) });
    check(f);
}


fn config_without(which: &str) -> HighlightRelatedConfig {
    let mut config = ENABLED_CONFIG;
    match which {
        "references" => config.references = false,
        "break_points" => config.break_points = false,
        "yield_points" => config.yield_points = false,
        "exit_points" => config.exit_points = false,
        _ => unreachable!(),
    }
    config
}

/// `let x = 5;` with the cursor on `x`, in a function of any shape.
fn cursor_on_local(fixture: &str) -> Fx {
    let mut f = fx(fixture);
    f.seek("let x");
    let x = f.ident("x");
    let d = f.def(DefinitionKind::Local, false);
    let r = f.range(x);
    f.decl(d, Some(r));
    let u = f.find("x");
    f.usage(d, u, READ);
    f.names_def(x, d);
    f
}

#[test]
fn test_hl_disabled_ref_local() {
    check_with_config(
        cursor_on_local(
            r#"
fn foo() {
    let x$0 = 5;
    let y = x * 2;
}
"#,
        ),
        config_without("references"),
    );
}

#[test]
fn test_hl_disabled_ref_local_preserved_break() {
    let config = config_without("references");
    check_with_config(
        cursor_on_local(
            r#"
fn foo() {
    let x$0 = 5;
    let y = x * 2;

    loop {
        break;
    }
}
"#,
        ),
        config.clone(),
    );

    let mut f = fx(r#"
fn foo() {
    let x = 5;
    let y = x * 2;

    loop$0 {
//  ^^^^
        break;
//      ^^^^^
    }
}
"#);
    f.func("foo");
    f.lp(NodeKind::Loop, TokenKind::LoopKw, "loop", None, true);
    f.brk(None);
    check_with_config(f, config);
}

#[test]
fn test_hl_disabled_ref_local_preserved_yield() {
    let config = config_without("references");
    check_with_config(
        cursor_on_local(
            r#"
async fn foo() {
    let x$0 = 5;
    let y = x * 2;

    0.await;
}
"#,
        ),
        config.clone(),
    );

    let mut f = fx(r#"
    async fn foo() {
//  ^^^^^
        let x = 5;
        let y = x * 2;

        0.await$0;
//        ^^^^^
}
"#);
    f.open(NodeKind::Fn);
    f.async_kw();
    f.kw(TokenKind::FnKw, "fn");
    f.ident("foo");
    f.body(NodeKind::Block(BlockModifier::Plain));
    int_await(&mut f, false);
    check_with_config(f, config);
}

#[test]
fn test_hl_disabled_ref_local_preserved_exit() {
    let config = config_without("references");
    check_with_config(
        cursor_on_local(
            r#"
fn foo() -> i32 {
    let x$0 = 5;
    let y = x * 2;

    if true {
        return y;
    }

    0?
}
"#,
        ),
        config.clone(),
    );

    let mut f = fx(r#"
  fn foo() ->$0 i32 {
//^^
    let x = 5;
    let y = x * 2;

    if true {
        return y;
//      ^^^^^^
    }

    0?
//   ^
"#);
    f.func_arrow("foo");
    f.open(NodeKind::If);
    f.tok(TokenKind::OtherKeyword, "if");
    f.open(NodeKind::Block(BlockModifier::Plain));
    f.tail();
    f.open(NodeKind::Return);
    f.kw(TokenKind::ReturnKw, "return");
    f.leaf(NodeKind::OtherExpr, TokenKind::Ident, "y", false);
    f.close();
    f.close();
    f.close();
    // The body is never closed, so `0?` stands there as a statement.
    f.try_expr("0");
    check_with_config(f, config);
}

#[test]
fn test_hl_disabled_break() {
    let mut f = fx(r#"
fn foo() {
    loop {
        break$0;
    }
}
"#);
    f.func("foo");
    f.lp(NodeKind::Loop, TokenKind::LoopKw, "loop", None, true);
    f.brk(None);
    check_with_config(f, config_without("break_points"));
}

#[test]
fn test_hl_disabled_yield() {
    let mut f = fx(r#"
async$0 fn foo() {
    0.await;
}
"#);
    f.open(NodeKind::Fn);
    f.async_kw();
    f.kw(TokenKind::FnKw, "fn");
    f.ident("foo");
    f.body(NodeKind::Block(BlockModifier::Plain));
    int_await(&mut f, false);
    check_with_config(f, config_without("yield_points"));
}

#[test]
fn test_hl_disabled_exit() {
    let mut f = fx(r#"
fn foo() ->$0 i32 {
    if true {
        return -1;
    }

    42
}"#);
    f.func_arrow("foo");
    f.open(NodeKind::If);
    f.tok(TokenKind::OtherKeyword, "if");
    f.open(NodeKind::Block(BlockModifier::Plain));
    f.tail();
    f.ret("-1");
    f.close();
    f.close();
    f.int_lit("42", true);
    check_with_config(f, config_without("exit_points"));
}

#[test]
fn same_request_twice_gives_same_highlights() {
    let f = nested_breaks(
        r#"
fn foo() {
    'outer: loop {
         break;
         'inner: loop {
            break;
            'innermost: loop {
                break 'outer;
                break 'inner;
            }
            break$0 'outer;
            break;
        }
        break;
    }
}
"#,
        loop_kind(),
    );
    let (tree, sem, _, cursor) = f.finish();
    let first = highlights(&tree, &sem, ENABLED_CONFIG, cursor);
    let second = highlights(&tree, &sem, ENABLED_CONFIG, cursor);
    assert_eq!(first.len(), 5);
    assert_eq!(first, second);
}

#[test]
fn mutable_local_declaration_is_write_and_read_is_read() {
    let f = mutable_local(
        r#"
fn foo() {
    let mut bar = 3;
    bar$0;
}
"#,
    );
    let (tree, sem, text, cursor) = f.finish();
    let decl = text.find("bar").unwrap() as u32;
    let read = text.rfind("bar").unwrap() as u32;
    assert_eq!(
        highlights(&tree, &sem, ENABLED_CONFIG, cursor),
        vec![
            (decl, decl + 3, Some("write".to_string())),
            (read, read + 3, Some("read".to_string())),
        ]
    );
}

#[test]
fn captured_variable_use_outside_closure_is_not_highlighted() {
    let mut f = capture_x(
        r#"
fn f() {
    let x = 1;
    let c = $0|y| x + y;
    x;
}
"#,
        false,
    );
    let outside = f.find("x");
    f.usage(0, outside, READ);
    let (tree, sem, text, cursor) = f.finish();
    let decl = text.find('x').unwrap() as u32;
    let inside = text.find("x +").unwrap() as u32;
    assert_eq!(
        highlights(&tree, &sem, ENABLED_CONFIG, cursor),
        vec![(decl, decl + 1, None), (inside, inside + 1, Some("read".to_string()))]
    );
}

#[test]
fn trait_bound_without_use_scope_gives_only_trait_usages() {
    // The cursor on `Foo` in `impl Foo for i32` is in no bound, so the uses
    // of the trait's items are not added.
    let mut f = trait_items(TRAIT_ITEMS_FIXTURE);
    let text = f.text.clone();
    let impl_foo = text.find("impl Foo").unwrap() + 5;
    let tok = f.new_node(NodeKind::Token(TokenKind::Ident));
    f.nodes[tok].parent = Some(0);
    f.nodes[tok].range = TextRange { start: impl_foo as u32, end: impl_foo as u32 + 3 };
    f.names_def(tok, 0);
    f.cursor = impl_foo as u32 + 1;
    let (tree, sem, _, cursor) = f.finish();
    let got = highlights(&tree, &sem, ENABLED_CONFIG, cursor);
    assert_eq!(got.len(), 4);
    assert!(got.iter().all(|(s, e, c)| e - s == 3 && c.is_none()));
}

#[test]
fn no_token_at_offset_gives_nothing() {
    let tree = SyntaxTree { nodes: Vec::new() };
    let sem = Semantics {
        defs: Vec::new(),
        token_defs: Vec::new(),
        trait_items: Vec::new(),
        captures: Vec::new(),
        format_args: Vec::new(),
    };
    assert!(highlight_related(&tree, &sem, ENABLED_CONFIG, FILE, 3).is_none());
}

#[test]
fn default_config_highlights_nothing() {
    let mut f = fx(r#"
fn foo() {
    loop {
        break$0;
    }
}
"#);
    f.func("foo");
    f.lp(NodeKind::Loop, TokenKind::LoopKw, "loop", None, true);
    f.brk(None);
    let (tree, sem, _, cursor) = f.finish();
    assert!(highlight_related(&tree, &sem, HighlightRelatedConfig::default(), FILE, cursor).is_none());
}

#[test]
fn format_arg_naming_nothing_gives_its_own_range() {
    let mut f = fx(r#"
fn test() {
    format_args!("hello {b$0}");
}
"#);
    let lit = f.tok(TokenKind::Other, "\"hello {b}\"");
    let s = f.range(lit);
    f.sem.format_args.push(FormatArgRef { token: lit, range: sub(s, 8, 1), def: None });
    let (tree, sem, _, cursor) = f.finish();
    let got = highlight_related(&tree, &sem, ENABLED_CONFIG, FILE, cursor).unwrap();
    assert_eq!(got, vec![HighlightedRange { range: sub(s, 8, 1), category: None }]);
}

#[test]
fn question_mark_beside_await_is_preferred() {
    let mut f = fx(r#"
fn foo() -> u32 {
    bar().await$0?;
    0
}
"#);
    f.func_arrow("foo");
    f.open(NodeKind::Try);
    f.open(NodeKind::Await);
    f.open(NodeKind::Call);
    f.ident("bar");
    f.close();
    f.kw(TokenKind::AwaitKw, "await");
    f.close();
    f.kw(TokenKind::Question, "?");
    f.close();
    f.int_lit("0", true);
    let (tree, sem, text, cursor) = f.finish();
    let fn_kw = text.find("fn").unwrap() as u32;
    let q = text.find('?').unwrap() as u32;
    let zero = text.rfind('0').unwrap() as u32;
    assert_eq!(
        highlights(&tree, &sem, ENABLED_CONFIG, cursor),
        vec![(fn_kw, fn_kw + 2, None), (q, q + 1, None), (zero, zero + 1, None)]
    );
}

#[test]
fn await_in_plain_fn_gives_nothing() {
    let mut f = fx(r#"
fn foo() {
    0.await$0;
}
"#);
    f.func("foo");
    int_await(&mut f, false);
    check(f);
}

#[test]
fn labeled_break_reaches_outer_block_only() {
    // `break 'outer` from inside `'inner` is a break point of `'outer` and
    // not of `'inner`; the cursor is on `'inner`'s own unlabeled break.
    let mut f = fx(r#"
fn foo() {
    'outer: loop {
        'inner: loop {
            break 'outer;
            break$0;
        }
    }
}
"#);
    f.func("foo");
    f.lp(NodeKind::Loop, TokenKind::LoopKw, "loop", Some("'outer:"), true);
    f.lp(NodeKind::Loop, TokenKind::LoopKw, "loop", Some("'inner:"), false);
    f.brk(Some("'outer"));
    f.brk(None);
    let (tree, sem, text, cursor) = f.finish();
    let inner = text.find("'inner").unwrap() as u32;
    let brk = text.rfind("break").unwrap() as u32;
    assert_eq!(
        highlights(&tree, &sem, ENABLED_CONFIG, cursor),
        vec![(inner, inner + "'inner: loop".len() as u32, None), (brk, brk + 5, None)]
    );
}

#[test]
fn for_loop_in_tail_position_is_an_exit_point_as_a_whole() {
    let mut f = fx(r#"
  fn foo() ->$0 () {
//^^
    for _ in () {
        break;
    }
}
"#);
    f.func_arrow("foo");
    f.lp(NodeKind::For, TokenKind::ForKw, "for", None, true);
    f.brk(None);
    f.tok(TokenKind::Other, "}");
    f.close();
    f.close();
    let (tree, sem, text, cursor) = f.finish();
    let fn_kw = text.find("fn").unwrap() as u32;
    let for_kw = text.find("for").unwrap() as u32;
    let end = text.rfind("}\n}").unwrap() as u32 + 1;
    assert_eq!(
        highlights(&tree, &sem, ENABLED_CONFIG, cursor),
        vec![(fn_kw, fn_kw + 2, None), (for_kw, end, None)]
    );
}

#[test]
fn highlights_come_in_order_of_start() {
    let mut f = fx(r#"
pub async fn foo() {
    let x = foo()
        .await$0
        .await;
    || { 0.await };
    (async { 0.await }).await
}
"#);
    async_foo_start(&mut f);
    async_block_tail(&mut f);
    let (tree, sem, text, cursor) = f.finish();
    let got = highlight_related(&tree, &sem, ENABLED_CONFIG, FILE, cursor).unwrap();
    let async_kw = text.find("async").unwrap() as u32;
    assert_eq!(got[0], HighlightedRange { range: TextRange { start: async_kw, end: async_kw + 5 }, category: None });
    assert_eq!(got.len(), 4);
    assert!(got.windows(2).all(|w| w[0].range.start <= w[1].range.start));
}

#[test]
fn definition_named_by_two_expansions_counts_once() {
    let mut f = mutable_local(
        r#"
fn foo() {
    let mut bar = 3;
         // ^^^ write
    bar$0;
 // ^^^ read
}
"#,
    );
    let pair = f.sem.token_defs[0];
    f.sem.token_defs.push(pair);
    check(f);
}

#[test]
fn breaks_of_a_loop_not_in_value_position_are_no_exit_points() {
    let mut f = fx(r#"
  fn foo() ->$0 u32 {
//^^
    loop { break; }
    0
 // ^
}
"#);
    f.func_arrow("foo");
    f.lp(NodeKind::Loop, TokenKind::LoopKw, "loop", None, false);
    f.brk(None);
    f.end_loop();
    f.int_lit("0", true);
    check(f);
}
