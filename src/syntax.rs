//! The LaTeX syntax tree as the parser hands it over: an arena of nodes.

use vstd::prelude::*;
use crate::pos::{Position, Range, pos_le, pos_lt};

verus! {

/// A piece of source text with the span it occupies.
#[derive(Clone, Debug)]
pub struct Token {
    pub range: Range,
    pub text: String,
}

impl Token {
    /// The token lies on one line and spans exactly as many characters as its text has.
    pub open spec fn wf(self) -> bool {
        &&& self.range.start.line == self.range.end.line
        &&& self.range.start.character + self.text@.len() == self.range.end.character
    }

    pub fn new(range: Range, text: &str) -> (r: Token)
        ensures
            r.range == range,
            r.text@ == text@,
    {
        Token { range, text: text.to_string() }
    }
}

/// The delimiters of an argument group: `{...}` or `[...]`.
#[derive(Clone, Copy, Debug, PartialEq, Eq, Structural)]
pub enum GroupKind {
    Group,
    Options,
}

/// An argument group; `right` is the closing delimiter's span when it was written.
#[derive(Clone, Copy, Debug)]
pub struct LatexGroup {
    pub kind: GroupKind,
    pub right: Option<Range>,
}

/// What a node of the LaTeX tree is.
#[derive(Clone, Debug)]
pub enum LatexNodeKind {
    Root,
    /// An argument group.
    Group(LatexGroup),
    /// A command invocation; the token is its name, escape character included.
    Command(Token),
    /// Plain text, as the words it consists of.
    Text(Vec<Token>),
}

#[derive(Clone, Debug)]
pub struct LatexNode {
    pub range: Range,
    pub kind: LatexNodeKind,
    pub children: Vec<usize>,
}

/// A LaTeX syntax tree held as an arena; node 0 is the root and every node
/// comes after its parent, so index order is document order.
#[derive(Clone, Debug)]
pub struct LatexTree {
    pub nodes: Vec<LatexNode>,
}

/// The span of a command's name without its escape character.
pub open spec fn short_name_range(name: Token) -> Range {
    Range {
        start: Position { line: name.range.start.line, character: (name.range.start.character + 1) as u32 },
        end: name.range.end,
    }
}

pub open spec fn is_command_node(n: LatexNode) -> bool {
    n.kind is Command
}

pub open spec fn is_brace_group(n: LatexNode) -> bool {
    match n.kind {
        LatexNodeKind::Group(g) => g.kind == GroupKind::Group,
        _ => false,
    }
}

pub open spec fn kind_wf(kind: LatexNodeKind) -> bool {
        match kind {
            LatexNodeKind::Command(name) => name.wf() && name.text@.len() >= 1,
            LatexNodeKind::Text(words) => forall|k: int| 0 <= k < words.len() ==> (#[trigger] words[k]).wf(),
            _ => true,
        }
}

impl LatexNode {
    pub open spec fn wf(self) -> bool {
        kind_wf(self.kind)
    }
}

impl LatexTree {
    pub open spec fn wf(self) -> bool {
        &&& self.nodes.len() >= 1
        &&& forall|i: int| 0 <= i < self.nodes.len() ==> (#[trigger] self.nodes[i]).wf()
        &&& forall|i: int, k: int|
            0 <= i < self.nodes.len() && 0 <= k < self.nodes[i].children.len()
                ==> i < #[trigger] self.nodes[i].children[k] < self.nodes.len()
    }

    /// A tree of one root node spanning `range`.
    pub fn new(range: Range) -> (r: LatexTree)
        ensures
            r.wf(),
            r.nodes.len() == 1,
            r.nodes[0].range == range,
            r.nodes[0].kind is Root,
            r.nodes[0].children.len() == 0,
    {
        let root = LatexNode { range, kind: LatexNodeKind::Root, children: Vec::new() };
        let mut nodes = Vec::new();
        nodes.push(root);
        LatexTree { nodes }
    }

    /// Appends a node as the last child of `parent` and returns its index.
    pub fn add(&mut self, parent: usize, range: Range, kind: LatexNodeKind) -> (r: usize)
        requires
            old(self).wf(),
            parent < old(self).nodes.len(),
            old(self).nodes.len() < usize::MAX,
            kind_wf(kind),
        ensures
            final(self).wf(),
            r == old(self).nodes.len(),
            final(self).nodes.len() == r + 1,
            final(self).nodes[r as int].range == range,
            final(self).nodes[r as int].kind == kind,
            final(self).nodes[r as int].children@.len() == 0,
            final(self).nodes[parent as int].range == old(self).nodes[parent as int].range,
            final(self).nodes[parent as int].kind == old(self).nodes[parent as int].kind,
            final(self).nodes[parent as int].children@ == old(self).nodes[parent as int].children@.push(r),
            forall|i: int| 0 <= i < old(self).nodes.len() && i != parent ==> final(self).nodes[i] == old(self).nodes[i],
    {
        let r = self.nodes.len();
        let node = LatexNode { range, kind, children: Vec::new() };
        self.nodes.push(node);
        let mut p = self.nodes.remove(parent);
        p.children.push(r);
        self.nodes.insert(parent, p);
        proof {
            let t = *self;
            assert forall|i: int, k: int|
                0 <= i < t.nodes.len() && 0 <= k < t.nodes[i].children.len()
                    implies i < #[trigger] t.nodes[i].children[k] < t.nodes.len() by {
                if i == parent as int {
                    if k < old(self).nodes[i].children.len() {
                        assert(t.nodes[i].children[k] == old(self).nodes[i].children[k]);
                    }
                } else if i < r {
                    assert(t.nodes[i] == old(self).nodes[i]);
                }
            }
            assert forall|i: int| 0 <= i < t.nodes.len() implies (#[trigger] t.nodes[i]).wf() by {
                if i != parent as int && i < r {
                    assert(t.nodes[i] == old(self).nodes[i]);
                }
                if i == parent as int {
                    assert(t.nodes[i].kind == old(self).nodes[i].kind);
                }
            }
        }
        r
    }
}

} // verus!
