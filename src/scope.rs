//! Where the cursor stands: in a command's name, or in argument groups.

use vstd::prelude::*;
use crate::pos::{Position, Range, pos_le, pos_lt};
use crate::syntax::{
    GroupKind, LatexNode, LatexNodeKind, LatexTree, Token, is_brace_group, short_name_range,
};

verus! {

/// The cursor stands in the brace group `arg_node` of the command `cmd_node`,
/// the `index`-th of its argument groups (braced and bracketed alike);
/// `word` holds when that group is empty or holds a single word.
#[derive(Clone, Copy, Debug, PartialEq, Eq, Structural)]
pub struct LatexArgument {
    pub cmd_node: usize,
    pub arg_node: usize,
    pub index: usize,
    pub word: bool,
}

/// Where the cursor stands relative to the tree.
#[derive(Clone, Copy, Debug, PartialEq, Eq, Structural)]
pub enum CompletionScope {
    /// Within the name of the command at this node.
    Command(usize),
    /// Within an argument group of a command.
    Argument(LatexArgument),
}

/// Node `i` is a command whose name, escape character excluded, holds `p`.
pub open spec fn short_hit(t: LatexTree, i: int, p: Position) -> bool {
    match t.nodes[i].kind {
        LatexNodeKind::Command(name) => t.nodes[i].range.spec_contains(p) && short_name_range(name).spec_contains(p),
        _ => false,
    }
}

/// Node `i` is a command whose span holds `p`.
pub open spec fn command_hit(t: LatexTree, i: int, p: Position) -> bool {
    t.nodes[i].kind is Command && t.nodes[i].range.spec_contains(p)
}

/// The first node from `i` on that `short_hit` accepts.
pub open spec fn first_short_hit(t: LatexTree, p: Position, i: nat) -> Option<nat>
    decreases t.nodes.len() - i,
{
    if i >= t.nodes.len() {
        None
    } else if short_hit(t, i as int, p) {
        Some(i)
    } else {
        first_short_hit(t, p, i + 1)
    }
}

/// The last node below `n` that `command_hit` accepts: the innermost command round `p`.
pub open spec fn last_command_hit(t: LatexTree, p: Position, n: nat) -> Option<nat>
    decreases n,
{
    if n == 0 {
        None
    } else if command_hit(t, n - 1, p) {
        Some((n - 1) as nat)
    } else {
        last_command_hit(t, p, (n - 1) as nat)
    }
}

/// The cursor may complete inside this group: strictly inside a closed group,
/// or after the opening delimiter of one still being typed.
pub open spec fn group_admits(n: LatexNode, p: Position) -> bool {
    match n.kind {
        LatexNodeKind::Group(g) => match g.right {
            Some(_) => n.range.spec_contains_exclusive(p),
            None => pos_lt(n.range.start, p) && pos_le(p, n.range.end),
        },
        _ => false,
    }
}

/// The group at node `n` is empty or holds one text node of exactly one word.
pub open spec fn is_word_group(t: LatexTree, n: int) -> bool {
    let ch = t.nodes[n].children;
    ch.len() == 0 || (ch.len() == 1 && match t.nodes[ch[0] as int].kind {
        LatexNodeKind::Text(words) => words.len() == 1,
        _ => false,
    })
}

/// Node `n` is an argument group, braced or bracketed.
pub open spec fn is_group(n: LatexNode) -> bool {
    n.kind is Group
}

/// The argument scopes that the children `ch` of command `c` give, where `k`
/// argument groups, braced or bracketed, came before them. Every group counts
/// towards the index; only braced groups can hold the cursor's scope.
pub open spec fn argument_scopes(t: LatexTree, p: Position, c: nat, ch: Seq<usize>, k: nat) -> Seq<CompletionScope>
    decreases ch.len(),
{
    if ch.len() == 0 {
        Seq::empty()
    } else {
        let n = ch[0];
        let rest = ch.subrange(1, ch.len() as int);
        if is_group(t.nodes[n as int]) {
            let head = if is_brace_group(t.nodes[n as int]) && group_admits(t.nodes[n as int], p) {
                seq![CompletionScope::Argument(LatexArgument {
                    cmd_node: c as usize,
                    arg_node: n,
                    index: k as usize,
                    word: is_word_group(t, n as int),
                })]
            } else {
                Seq::empty()
            };
            head + argument_scopes(t, p, c, rest, k + 1)
        } else {
            argument_scopes(t, p, c, rest, k)
        }
    }
}

/// The scopes at `p`: the command whose name holds the cursor, alone; else the
/// argument groups of the innermost command round the cursor that admit it.
pub open spec fn scopes_at(t: LatexTree, p: Position) -> Seq<CompletionScope> {
    match first_short_hit(t, p, 0) {
        Some(i) => seq![CompletionScope::Command(i as usize)],
        None => match last_command_hit(t, p, t.nodes.len() as nat) {
            None => Seq::empty(),
            Some(c) => argument_scopes(t, p, c, t.nodes[c as int].children@, 0),
        },
    }
}

/// Every scope refers to nodes of the tree of the right kind.
pub open spec fn scope_wf(t: LatexTree, s: CompletionScope) -> bool {
    match s {
        CompletionScope::Command(i) => i < t.nodes.len() && t.nodes[i as int].kind is Command,
        CompletionScope::Argument(a) => {
            &&& a.cmd_node < t.nodes.len()
            &&& a.arg_node < t.nodes.len()
            &&& t.nodes[a.cmd_node as int].kind is Command
            &&& is_brace_group(t.nodes[a.arg_node as int])
            &&& a.word == is_word_group(t, a.arg_node as int)
        },
    }
}

pub proof fn lemma_argument_scopes_wf(t: LatexTree, p: Position, c: nat, ch: Seq<usize>, k: nat)
    requires
        t.wf(),
        c < t.nodes.len(),
        t.nodes[c as int].kind is Command,
        forall|j: int| 0 <= j < ch.len() ==> ch[j] < t.nodes.len(),
    ensures
        forall|j: int| 0 <= j < argument_scopes(t, p, c, ch, k).len()
            ==> scope_wf(t, #[trigger] argument_scopes(t, p, c, ch, k)[j]),
    decreases ch.len(),
{
    if ch.len() > 0 {
        let rest = ch.subrange(1, ch.len() as int);
        lemma_argument_scopes_wf(t, p, c, rest, k + 1);
        lemma_argument_scopes_wf(t, p, c, rest, k);
        let s = argument_scopes(t, p, c, ch, k);
        let n = ch[0];
        if !is_group(t.nodes[n as int]) {
            assert(s == argument_scopes(t, p, c, rest, k));
        } else {
            let tail = argument_scopes(t, p, c, rest, k + 1);
            let head = if is_brace_group(t.nodes[n as int]) && group_admits(t.nodes[n as int], p) {
                seq![CompletionScope::Argument(LatexArgument {
                    cmd_node: c as usize,
                    arg_node: n,
                    index: k as usize,
                    word: is_word_group(t, n as int),
                })]
            } else {
                Seq::empty()
            };
            assert(s == head + tail);
            assert forall|j: int| 0 <= j < s.len() implies scope_wf(t, #[trigger] s[j]) by {
                if j >= head.len() {
                    assert(s[j] == tail[j - head.len()]);
                } else {
                    assert(s[j] == head[j]);
                }
            }
        }
    }
}

/// The span of a command's name without its escape character.
pub fn short_name_range_of(name: &Token) -> (r: Range)
    requires
        name.wf(),
        name.text@.len() >= 1,
    ensures
        r == short_name_range(*name),
{
    Range {
        start: Position { line: name.range.start.line, character: name.range.start.character + 1 },
        end: name.range.end,
    }
}

/// The first command whose name, escape character excluded, holds `p`.
pub fn find_command_by_short_name_range(t: &LatexTree, p: Position) -> (r: Option<usize>)
    requires
        t.wf(),
    ensures
        match r {
            Some(i) => first_short_hit(*t, p, 0) == Some(i as nat) && i < t.nodes.len() && short_hit(*t, i as int, p),
            None => first_short_hit(*t, p, 0) is None,
        },
{
    let mut i: usize = 0;
    while i < t.nodes.len()
        invariant
            t.wf(),
            i <= t.nodes.len(),
            first_short_hit(*t, p, 0) == first_short_hit(*t, p, i as nat),
        decreases t.nodes.len() - i,
    {
        let n = &t.nodes[i];
        if let LatexNodeKind::Command(name) = &n.kind {
            assert(t.nodes[i as int].wf());
            if n.range.contains(p) && short_name_range_of(name).contains(p) {
                return Some(i);
            }
        }
        i += 1;
    }
    None
}

/// The innermost command whose span holds `p`.
pub fn find_command(t: &LatexTree, p: Position) -> (r: Option<usize>)
    requires
        t.wf(),
    ensures
        match r {
            Some(i) => last_command_hit(*t, p, t.nodes.len() as nat) == Some(i as nat) && i < t.nodes.len()
                && command_hit(*t, i as int, p),
            None => last_command_hit(*t, p, t.nodes.len() as nat) is None,
        },
{
    let mut n: usize = t.nodes.len();
    while n > 0
        invariant
            n <= t.nodes.len(),
            last_command_hit(*t, p, t.nodes.len() as nat) == last_command_hit(*t, p, n as nat),
        decreases n,
    {
        let node = &t.nodes[n - 1];
        if let LatexNodeKind::Command(_) = &node.kind {
            if node.range.contains(p) {
                return Some(n - 1);
            }
        }
        n -= 1;
    }
    None
}

fn is_word_group_exec(t: &LatexTree, n: usize) -> (r: bool)
    requires
        t.wf(),
        n < t.nodes.len(),
    ensures
        r == is_word_group(*t, n as int),
{
    let ch = &t.nodes[n].children;
    if ch.len() == 0 {
        return true;
    }
    if ch.len() != 1 {
        return false;
    }
    assert(n < ch[0] < t.nodes.len());
    match &t.nodes[ch[0]].kind {
        LatexNodeKind::Text(words) => words.len() == 1,
        _ => false,
    }
}

/// The completion scopes at `p`, in the order in which generators try them.
pub fn find_scopes(t: &LatexTree, p: Position) -> (r: Vec<CompletionScope>)
    requires
        t.wf(),
    ensures
        r@ == scopes_at(*t, p),
        forall|j: int| 0 <= j < r.len() ==> scope_wf(*t, #[trigger] r@[j]),
{
    let mut out: Vec<CompletionScope> = Vec::new();
    if let Some(i) = find_command_by_short_name_range(t, p) {
        out.push(CompletionScope::Command(i));
        assert(out@ =~= seq![CompletionScope::Command(i)]);
        return out;
    }
    let c = match find_command(t, p) {
        Some(c) => c,
        None => {
            assert(out@ =~= Seq::<CompletionScope>::empty());
            return out;
        },
    };
    let ch = &t.nodes[c].children;
    proof {
        assert forall|j: int| 0 <= j < ch@.len() implies ch@[j] < t.nodes.len() by {
            assert(c < #[trigger] t.nodes[c as int].children[j] < t.nodes.len());
        }
        lemma_argument_scopes_wf(*t, p, c as nat, ch@, 0);
    }
    let ghost all = argument_scopes(*t, p, c as nat, ch@, 0);
    let mut k: usize = 0;
    let mut i: usize = 0;
    assert(ch@.subrange(0, ch@.len() as int) =~= ch@);
    assert(out@ + all =~= all);
    while i < ch.len()
        invariant
            t.wf(),
            c < t.nodes.len(),
            ch == t.nodes[c as int].children,
            forall|j: int| 0 <= j < ch@.len() ==> ch@[j] < t.nodes.len(),
            i <= ch.len(),
            k <= i,
            out@ + argument_scopes(*t, p, c as nat, ch@.subrange(i as int, ch@.len() as int), k as nat) == all,
        decreases ch.len() - i,
    {
        let n = ch[i];
        let ghost rest = ch@.subrange(i as int, ch@.len() as int);
        assert(rest.subrange(1, rest.len() as int) =~= ch@.subrange(i + 1, ch@.len() as int));
        assert(rest[0] == n);
        let group = match &t.nodes[n].kind {
            LatexNodeKind::Group(_) => true,
            _ => false,
        };
        if group {
            let admits = match &t.nodes[n].kind {
                LatexNodeKind::Group(g) => g.kind == GroupKind::Group && match g.right {
                    Some(_) => t.nodes[n].range.contains_exclusive(p),
                    None => t.nodes[n].range.start.lt(&p) && p.le(&t.nodes[n].range.end),
                },
                _ => false,
            };
            let ghost before = out@;
            if admits {
                let word = is_word_group_exec(t, n);
                out.push(CompletionScope::Argument(LatexArgument { cmd_node: c, arg_node: n, index: k, word }));
            }
            proof {
                let tail = argument_scopes(*t, p, c as nat, ch@.subrange(i + 1, ch@.len() as int), k as nat + 1);
                if admits {
                    assert(out@ + tail =~= before + argument_scopes(*t, p, c as nat, rest, k as nat));
                } else {
                    assert(out@ + tail =~= before + argument_scopes(*t, p, c as nat, rest, k as nat));
                }
            }
            k += 1;
        }
        i += 1;
    }
    assert(ch@.subrange(i as int, ch@.len() as int) =~= Seq::<usize>::empty());
    assert(out@ =~= all);
    assert(last_command_hit(*t, p, t.nodes.len() as nat) == Some(c as nat));
    assert(first_short_hit(*t, p, 0) is None);
    assert(scopes_at(*t, p) == all);
    out
}

} // verus!
