//! Matching scopes against command arguments, and the range a completion replaces.

use vstd::prelude::*;
use vstd::string::StrSliceExecFns;
use crate::pos::{Position, Range};
use crate::scope::{CompletionScope, LatexArgument, is_word_group, scope_wf};
use crate::syntax::{LatexNodeKind, LatexTree, Token};

verus! {

/// A command argument that takes completable values: the command's name
/// without its escape character, and the argument's index among its argument
/// groups, braced and bracketed alike.
#[derive(Clone, Debug)]
pub struct ArgumentSignature {
    pub name: String,
    pub index: usize,
    /// The argument accepts only a narrower class of targets: labels that stand
    /// in math for an equation reference, acronyms for an acronym reference.
    pub restricted: bool,
}

/// The name of the command at node `c`, escape character excluded, is `name`.
pub open spec fn command_named(t: LatexTree, c: int, name: Seq<char>) -> bool {
    match t.nodes[c].kind {
        LatexNodeKind::Command(tok) => tok.text@.len() >= 1 && tok.text@.subrange(1, tok.text@.len() as int) == name,
        _ => false,
    }
}

/// Where the comma-delimited segment holding offset `k` of `w` starts.
pub open spec fn segment_start(w: Seq<char>, k: int) -> int
    decreases k,
{
    if k <= 0 {
        0
    } else if w[k - 1] == ',' {
        k
    } else {
        segment_start(w, k - 1)
    }
}

/// Where the comma-delimited segment holding offset `k` of `w` ends.
pub open spec fn segment_end(w: Seq<char>, k: int) -> int
    decreases w.len() - k,
{
    if k >= w.len() {
        w.len() as int
    } else if w[k] == ',' {
        k
    } else {
        segment_end(w, k + 1)
    }
}

/// The cursor's offset into the word, held to the word's bounds.
pub open spec fn cursor_offset(w: Token, p: Position) -> int {
    if p.line != w.range.start.line || p.character <= w.range.start.character {
        0
    } else if p.character - w.range.start.character >= w.text@.len() {
        w.text@.len() as int
    } else {
        p.character - w.range.start.character
    }
}

/// The part of the word to replace: the comma-delimited segment that holds the
/// cursor, which is the whole word where it has no comma.
pub open spec fn word_range(w: Token, p: Position) -> Range {
    let k = cursor_offset(w, p);
    let line = w.range.start.line;
    let c = w.range.start.character;
    Range {
        start: Position { line, character: (c + segment_start(w.text@, k)) as u32 },
        end: Position { line, character: (c + segment_end(w.text@, k)) as u32 },
    }
}

/// The range that completing in the group at node `g` replaces: an empty range
/// at the cursor in an empty group, else the part of its single word.
pub open spec fn group_range(t: LatexTree, g: int, p: Position) -> Range {
    let ch = t.nodes[g].children;
    if ch.len() == 0 {
        Range { start: p, end: p }
    } else {
        match t.nodes[ch[0] as int].kind {
            LatexNodeKind::Text(words) => if words.len() > 0 {
                word_range(words[0], p)
            } else {
                Range { start: p, end: p }
            },
            _ => Range { start: p, end: p },
        }
    }
}

/// The scope is argument `index` of a command named `name`, and holds at most one word.
pub open spec fn argument_match(t: LatexTree, s: CompletionScope, name: Seq<char>, index: int, p: Position) -> Option<(Range, usize)> {
    match s {
        CompletionScope::Argument(a) => if command_named(t, a.cmd_node as int, name) && a.index == index && a.word {
            Some((group_range(t, a.arg_node as int, p), a.cmd_node))
        } else {
            None
        },
        CompletionScope::Command(_) => None,
    }
}

pub open spec fn begin_name() -> Seq<char> {
    seq!['b', 'e', 'g', 'i', 'n']
}

pub open spec fn end_name() -> Seq<char> {
    seq!['e', 'n', 'd']
}

/// The scope is the environment-name argument of `\begin` or `\end`.
pub open spec fn environment_match(t: LatexTree, s: CompletionScope, p: Position) -> Option<(Range, usize)> {
    match argument_match(t, s, begin_name(), 0, p) {
        Some(m) => Some(m),
        None => argument_match(t, s, end_name(), 0, p),
    }
}

/// The first signature from `j` on that the scope matches, with its index.
pub open spec fn signature_match(t: LatexTree, s: CompletionScope, sigs: Seq<ArgumentSignature>, p: Position, j: int) -> Option<(Range, int)>
    decreases sigs.len() - j,
{
    if j < 0 || j >= sigs.len() {
        None
    } else {
        match argument_match(t, s, sigs[j].name@, sigs[j].index as int, p) {
            Some(m) => Some((m.0, j)),
            None => signature_match(t, s, sigs, p, j + 1),
        }
    }
}

/// The range of the first scope from `i` on that some signature matches, and
/// the index of the first signature that matches it.
pub open spec fn first_match(t: LatexTree, scopes: Seq<CompletionScope>, sigs: Seq<ArgumentSignature>, p: Position, i: int) -> Option<(Range, int)>
    decreases scopes.len() - i,
{
    if i < 0 || i >= scopes.len() {
        None
    } else {
        match signature_match(t, scopes[i], sigs, p, 0) {
            Some(r) => Some(r),
            None => first_match(t, scopes, sigs, p, i + 1),
        }
    }
}

/// The range of the first scope from `i` on that is an environment name, and
/// the node of its `\begin` or `\end`.
pub open spec fn first_environment_match(t: LatexTree, scopes: Seq<CompletionScope>, p: Position, i: int) -> Option<(Range, usize)>
    decreases scopes.len() - i,
{
    if i < 0 || i >= scopes.len() {
        None
    } else {
        match environment_match(t, scopes[i], p) {
            Some(m) => Some(m),
            None => first_environment_match(t, scopes, p, i + 1),
        }
    }
}

/// `full` is `name` preceded by one escape character.
fn name_after_escape(full: &String, name: &str) -> (r: bool)
    ensures
        r == (full@.len() >= 1 && full@.subrange(1, full@.len() as int) == name@),
{
    let f = full.as_str();
    let fl = f.unicode_len();
    let nl = name.unicode_len();
    if fl == 0 || fl - 1 != nl {
        return false;
    }
    let mut i: usize = 0;
    while i < nl
        invariant
            fl == full@.len(),
            f@ == full@,
            nl == name@.len(),
            fl == nl + 1,
            i <= nl,
            forall|j: int| 0 <= j < i ==> full@[j + 1] == name@[j],
        decreases nl - i,
    {
        if f.get_char(i + 1) != name.get_char(i) {
            assert(full@.subrange(1, full@.len() as int)[i as int] != name@[i as int]);
            return false;
        }
        i += 1;
    }
    assert(full@.subrange(1, full@.len() as int) =~= name@);
    true
}

fn segment_start_exec(w: &str, k: usize) -> (r: usize)
    requires
        k <= w@.len(),
    ensures
        r == segment_start(w@, k as int),
        r <= k,
{
    let mut i = k;
    while i > 0
        invariant
            i <= k <= w@.len(),
            segment_start(w@, k as int) == segment_start(w@, i as int),
        decreases i,
    {
        if w.get_char(i - 1) == ',' {
            return i;
        }
        i -= 1;
    }
    0
}

fn segment_end_exec(w: &str, k: usize) -> (r: usize)
    requires
        k <= w@.len(),
    ensures
        r == segment_end(w@, k as int),
        k <= r <= w@.len(),
{
    let len = w.unicode_len();
    let mut i = k;
    while i < len
        invariant
            k <= i <= len,
            len == w@.len(),
            segment_end(w@, k as int) == segment_end(w@, i as int),
        decreases len - i,
    {
        if w.get_char(i) == ',' {
            return i;
        }
        i += 1;
    }
    len
}

/// The part of a word that completing at `p` replaces.
pub fn word_range_of(w: &Token, p: Position) -> (r: Range)
    requires
        w.wf(),
    ensures
        r == word_range(*w, p),
{
    let text = w.text.as_str();
    let len = text.unicode_len();
    let c = w.range.start.character;
    let k: usize = if p.line != w.range.start.line || p.character <= c {
        0
    } else if (p.character - c) as usize >= len {
        len
    } else {
        (p.character - c) as usize
    };
    let a = segment_start_exec(text, k);
    let b = segment_end_exec(text, k);
    let line = w.range.start.line;
    Range {
        start: Position { line, character: c + a as u32 },
        end: Position { line, character: c + b as u32 },
    }
}

fn group_range_of(t: &LatexTree, g: usize, p: Position) -> (r: Range)
    requires
        t.wf(),
        g < t.nodes.len(),
    ensures
        r == group_range(*t, g as int, p),
{
    let ch = &t.nodes[g].children;
    if ch.len() == 0 {
        return Range { start: p, end: p };
    }
    assert(g < ch[0] < t.nodes.len());
    assert(t.nodes[ch[0] as int].wf());
    match &t.nodes[ch[0]].kind {
        LatexNodeKind::Text(words) => {
            if words.len() == 0 {
                return Range { start: p, end: p };
            }
            assert(words[0].wf());
            word_range_of(&words[0], p)
        },
        _ => Range { start: p, end: p },
    }
}

/// Matches a scope against argument `index` of the command `name`; on success
/// gives the range to replace and the command's node.
pub fn match_argument(t: &LatexTree, s: &CompletionScope, name: &str, index: usize, p: Position) -> (r: Option<(Range, usize)>)
    requires
        t.wf(),
        scope_wf(*t, *s),
    ensures
        r == argument_match(*t, *s, name@, index as int, p),
{
    match s {
        CompletionScope::Argument(a) => {
            if a.index != index || !a.word {
                return None;
            }
            let named = match &t.nodes[a.cmd_node].kind {
                LatexNodeKind::Command(tok) => name_after_escape(&tok.text, name),
                _ => false,
            };
            if !named {
                return None;
            }
            Some((group_range_of(t, a.arg_node, p), a.cmd_node))
        },
        CompletionScope::Command(_) => None,
    }
}

/// Matches a scope against the environment-name argument of `\begin` or `\end`.
pub fn match_environment(t: &LatexTree, s: &CompletionScope, p: Position) -> (r: Option<(Range, usize)>)
    requires
        t.wf(),
        scope_wf(*t, *s),
    ensures
        r == environment_match(*t, *s, p),
{
    proof {
        reveal_strlit("begin");
        reveal_strlit("end");
    }
    assert("begin"@ =~= begin_name());
    assert("end"@ =~= end_name());
    match match_argument(t, s, "begin", 0, p) {
        Some(m) => Some(m),
        None => match_argument(t, s, "end", 0, p),
    }
}

/// The range of the first scope that one of the signatures matches: every
/// generator that completes argument values asks this.
pub fn find_argument_range(t: &LatexTree, scopes: &Vec<CompletionScope>, sigs: &Vec<ArgumentSignature>, p: Position) -> (r: Option<(Range, usize)>)
    requires
        t.wf(),
        forall|j: int| 0 <= j < scopes.len() ==> scope_wf(*t, #[trigger] scopes@[j]),
    ensures
        match r {
            Some(m) => first_match(*t, scopes@, sigs@, p, 0) == Some((m.0, m.1 as int)) && m.1 < sigs.len(),
            None => first_match(*t, scopes@, sigs@, p, 0) is None,
        },
{
    let mut i: usize = 0;
    while i < scopes.len()
        invariant
            t.wf(),
            forall|j: int| 0 <= j < scopes.len() ==> scope_wf(*t, #[trigger] scopes@[j]),
            i <= scopes.len(),
            first_match(*t, scopes@, sigs@, p, 0) == first_match(*t, scopes@, sigs@, p, i as int),
        decreases scopes.len() - i,
    {
        let mut j: usize = 0;
        while j < sigs.len()
            invariant
                t.wf(),
                scope_wf(*t, scopes@[i as int]),
                i < scopes.len(),
                j <= sigs.len(),
                signature_match(*t, scopes@[i as int], sigs@, p, 0) == signature_match(*t, scopes@[i as int], sigs@, p, j as int),
                first_match(*t, scopes@, sigs@, p, 0) == first_match(*t, scopes@, sigs@, p, i as int),
            decreases sigs.len() - j,
        {
            if let Some(m) = match_argument(t, &scopes[i], sigs[j].name.as_str(), sigs[j].index, p) {
                assert(signature_match(*t, scopes@[i as int], sigs@, p, j as int) == Some((m.0, j as int)));
                assert(first_match(*t, scopes@, sigs@, p, i as int) == Some((m.0, j as int)));
                return Some((m.0, j));
            }
            j += 1;
        }
        i += 1;
    }
    None
}

/// The range of the first scope that is the name slot of `\begin` or `\end`.
pub fn find_environment_range(t: &LatexTree, scopes: &Vec<CompletionScope>, p: Position) -> (r: Option<(Range, usize)>)
    requires
        t.wf(),
        forall|j: int| 0 <= j < scopes.len() ==> scope_wf(*t, #[trigger] scopes@[j]),
    ensures
        r == first_environment_match(*t, scopes@, p, 0),
{
    let mut i: usize = 0;
    while i < scopes.len()
        invariant
            t.wf(),
            forall|j: int| 0 <= j < scopes.len() ==> scope_wf(*t, #[trigger] scopes@[j]),
            i <= scopes.len(),
            first_environment_match(*t, scopes@, p, 0) == first_environment_match(*t, scopes@, p, i as int),
        decreases scopes.len() - i,
    {
        if let Some(m) = match_environment(t, &scopes[i], p) {
            return Some(m);
        }
        i += 1;
    }
    None
}


pub proof fn lemma_segment_bounds(w: Seq<char>, k: int)
    requires
        0 <= k <= w.len(),
    ensures
        0 <= segment_start(w, k) <= k,
        k <= segment_end(w, k) <= w.len(),
{
    lemma_segment_start_bounds(w, k);
    lemma_segment_end_bounds(w, k);
}

proof fn lemma_segment_start_bounds(w: Seq<char>, k: int)
    requires
        0 <= k <= w.len(),
    ensures
        0 <= segment_start(w, k) <= k,
    decreases k,
{
    if k > 0 && w[k - 1] != ',' {
        lemma_segment_start_bounds(w, k - 1);
    }
}

proof fn lemma_segment_end_bounds(w: Seq<char>, k: int)
    requires
        0 <= k <= w.len(),
    ensures
        k <= segment_end(w, k) <= w.len(),
    decreases w.len() - k,
{
    if k < w.len() && w[k] != ',' {
        lemma_segment_end_bounds(w, k + 1);
    }
}

/// Where the cursor stands in a word, the range that replaces part of that
/// word lies within the word and holds the cursor: typing on replaces the
/// segment being typed and nothing outside it.
pub proof fn lemma_word_range_holds_cursor(w: Token, p: Position)
    requires
        w.wf(),
        w.range.spec_contains(p),
    ensures
        word_range(w, p).spec_contains(p),
        w.range.spec_contains(word_range(w, p).start),
        w.range.spec_contains(word_range(w, p).end),
{
    let k = cursor_offset(w, p);
    lemma_segment_bounds(w.text@, k);
}


/// The cursor stands in the word of the group at node `g`, or the group is empty.
pub open spec fn cursor_in_content(t: LatexTree, g: int, p: Position) -> bool {
    let ch = t.nodes[g].children;
    ch.len() == 0 || match t.nodes[ch[0] as int].kind {
        LatexNodeKind::Text(words) => words.len() > 0 && words[0].range.spec_contains(p),
        _ => false,
    }
}

/// The range that a matched argument replaces holds the cursor, wherever the
/// cursor stands in the argument's content.
pub proof fn lemma_argument_range_holds_cursor(t: LatexTree, s: CompletionScope, name: Seq<char>, index: int, p: Position)
    requires
        t.wf(),
        scope_wf(t, s),
        argument_match(t, s, name, index, p) is Some,
        s matches CompletionScope::Argument(a) && cursor_in_content(t, a.arg_node as int, p),
    ensures
        argument_match(t, s, name, index, p).unwrap().0.spec_contains(p),
{
    if let CompletionScope::Argument(a) = s {
        let g = a.arg_node as int;
        let ch = t.nodes[g].children;
        if ch.len() > 0 {
            assert(g < ch[0] < t.nodes.len());
            assert(t.nodes[ch[0] as int].wf());
            if let LatexNodeKind::Text(words) = t.nodes[ch[0] as int].kind {
                assert(words[0].wf());
                lemma_word_range_holds_cursor(words[0], p);
            }
        }
    }
}

} // verus!
