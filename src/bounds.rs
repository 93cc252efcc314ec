//! Where candidates' ranges lie: within the lines of the current document.

use vstd::prelude::*;
use crate::complete::{
    CompletionRequest, first_command_scope, first_command_token_hit, first_decl_hit, first_field_hit, first_type_hit,
};
use crate::doc::{BibtexTable, DocumentContent};
use crate::item::ItemView;
use crate::complete as C;
use crate::pattern::{
    argument_match, cursor_offset, environment_match, first_environment_match, first_match, group_range,
    lemma_segment_bounds, segment_end, segment_start, signature_match, word_range, ArgumentSignature,
};
use crate::pos::{Position, Range, pos_le};
use crate::scope::{
    CompletionScope, argument_scopes, command_hit, first_short_hit, last_command_hit, lemma_argument_scopes_wf,
    scope_wf, scopes_at, short_hit,
};
use crate::syntax::{LatexNodeKind, LatexTree, Token, short_name_range};

verus! {

/// `p` stands on one of the lines, at most at its end.
pub open spec fn in_lines(lines: Seq<String>, p: Position) -> bool {
    p.line < lines.len() && p.character <= lines[p.line as int]@.len()
}

/// Both ends of `r` stand within the lines, in order.
pub open spec fn range_in_lines(lines: Seq<String>, r: Range) -> bool {
    in_lines(lines, r.start) && in_lines(lines, r.end) && pos_le(r.start, r.end)
}

/// Every command name and every word of the tree lies within the lines.
pub open spec fn tree_in_lines(t: LatexTree, lines: Seq<String>) -> bool {
    forall|i: int| 0 <= i < t.nodes.len() ==> match (#[trigger] t.nodes[i]).kind {
        LatexNodeKind::Command(name) => range_in_lines(lines, name.range),
        LatexNodeKind::Text(words) => forall|k: int| 0 <= k < words.len() ==> range_in_lines(lines, (#[trigger] words[k]).range),
        _ => true,
    }
}

/// Every type, field name and command of the declarations lies within the lines.
pub open spec fn bib_in_lines(b: BibtexTable, lines: Seq<String>) -> bool {
    &&& forall|k: int| 0 <= k < b.decls.len() ==> range_in_lines(lines, (#[trigger] b.decls[k]).ty.range)
    &&& forall|k: int, j: int| 0 <= k < b.decls.len() && 0 <= j < b.decls[k].fields.len()
        ==> range_in_lines(lines, (#[trigger] b.decls[k].fields[j]).name.range)
    &&& forall|k: int| 0 <= k < b.commands.len() ==> range_in_lines(lines, (#[trigger] b.commands[k]).range)
}

/// The cursor and what the current document's parser found lie within its lines.
pub open spec fn request_in_bounds(req: CompletionRequest) -> bool {
    let lines = req.view.current.lines@;
    &&& in_lines(lines, req.position)
    &&& match req.view.current.content {
        DocumentContent::Latex(t) => tree_in_lines(t.tree, lines),
        DocumentContent::Bibtex(b) => bib_in_lines(b, lines),
    }
}

pub proof fn lemma_first_short_hit_valid(t: LatexTree, p: Position, i: nat)
    ensures
        first_short_hit(t, p, i) matches Some(j) ==> j < t.nodes.len() && short_hit(t, j as int, p),
    decreases t.nodes.len() - i,
{
    if i < t.nodes.len() && !short_hit(t, i as int, p) {
        lemma_first_short_hit_valid(t, p, i + 1);
    }
}

pub proof fn lemma_last_command_hit_valid(t: LatexTree, p: Position, n: nat)
    ensures
        last_command_hit(t, p, n) matches Some(c) ==> c < n && command_hit(t, c as int, p),
    decreases n,
{
    if n > 0 && !command_hit(t, n - 1, p) {
        lemma_last_command_hit_valid(t, p, (n - 1) as nat);
    }
}

/// Every scope at the cursor refers to nodes of the right kind.
pub proof fn lemma_scopes_wf(t: LatexTree, p: Position)
    requires
        t.wf(),
    ensures
        forall|j: int| 0 <= j < scopes_at(t, p).len() ==> scope_wf(t, #[trigger] scopes_at(t, p)[j]),
{
    lemma_first_short_hit_valid(t, p, 0);
    lemma_last_command_hit_valid(t, p, t.nodes.len() as nat);
    match first_short_hit(t, p, 0) {
        Some(i) => {},
        None => match last_command_hit(t, p, t.nodes.len() as nat) {
            None => {},
            Some(c) => {
                let ch = t.nodes[c as int].children@;
                assert forall|j: int| 0 <= j < ch.len() implies ch[j] < t.nodes.len() by {
                    assert(c < #[trigger] t.nodes[c as int].children[j] < t.nodes.len());
                }
                lemma_argument_scopes_wf(t, p, c, ch, 0);
            },
        },
    }
}

pub proof fn lemma_word_range_in_lines(lines: Seq<String>, w: Token, p: Position)
    requires
        w.wf(),
        range_in_lines(lines, w.range),
    ensures
        range_in_lines(lines, word_range(w, p)),
{
    lemma_segment_bounds(w.text@, cursor_offset(w, p));
}

pub proof fn lemma_argument_match_in_lines(t: LatexTree, lines: Seq<String>, s: CompletionScope, name: Seq<char>, index: int, p: Position)
    requires
        t.wf(),
        tree_in_lines(t, lines),
        in_lines(lines, p),
        scope_wf(t, s),
    ensures
        argument_match(t, s, name, index, p) matches Some(m) ==> range_in_lines(lines, m.0),
{
    if let CompletionScope::Argument(a) = s {
        let g = a.arg_node as int;
        let ch = t.nodes[g].children;
        if ch.len() > 0 {
            assert(g < ch[0] < t.nodes.len());
            let n = t.nodes[ch[0] as int];
            assert(n.wf());
            assert(tree_in_lines(t, lines));
            if let LatexNodeKind::Text(words) = n.kind {
                if words.len() > 0 {
                    assert(words[0].wf());
                    assert(range_in_lines(lines, words[0].range));
                    lemma_word_range_in_lines(lines, words[0], p);
                }
            }
        }
    }
}

pub proof fn lemma_signature_match_in_lines(t: LatexTree, lines: Seq<String>, s: CompletionScope, sigs: Seq<ArgumentSignature>, p: Position, j: int)
    requires
        t.wf(),
        tree_in_lines(t, lines),
        in_lines(lines, p),
        scope_wf(t, s),
    ensures
        signature_match(t, s, sigs, p, j) matches Some(m) ==> range_in_lines(lines, m.0),
    decreases sigs.len() - j,
{
    if 0 <= j < sigs.len() {
        lemma_argument_match_in_lines(t, lines, s, sigs[j].name@, sigs[j].index as int, p);
        lemma_signature_match_in_lines(t, lines, s, sigs, p, j + 1);
    }
}

pub proof fn lemma_first_match_in_lines(t: LatexTree, lines: Seq<String>, sc: Seq<CompletionScope>, sigs: Seq<ArgumentSignature>, p: Position, i: int)
    requires
        t.wf(),
        tree_in_lines(t, lines),
        in_lines(lines, p),
        forall|j: int| 0 <= j < sc.len() ==> scope_wf(t, #[trigger] sc[j]),
    ensures
        first_match(t, sc, sigs, p, i) matches Some(m) ==> range_in_lines(lines, m.0),
    decreases sc.len() - i,
{
    if 0 <= i < sc.len() {
        lemma_signature_match_in_lines(t, lines, sc[i], sigs, p, 0);
        lemma_first_match_in_lines(t, lines, sc, sigs, p, i + 1);
    }
}

pub proof fn lemma_first_environment_match_in_lines(t: LatexTree, lines: Seq<String>, sc: Seq<CompletionScope>, p: Position, i: int)
    requires
        t.wf(),
        tree_in_lines(t, lines),
        in_lines(lines, p),
        forall|j: int| 0 <= j < sc.len() ==> scope_wf(t, #[trigger] sc[j]),
    ensures
        first_environment_match(t, sc, p, i) matches Some(m) ==> range_in_lines(lines, m.0),
    decreases sc.len() - i,
{
    if 0 <= i < sc.len() {
        lemma_argument_match_in_lines(t, lines, sc[i], crate::pattern::begin_name(), 0, p);
        lemma_argument_match_in_lines(t, lines, sc[i], crate::pattern::end_name(), 0, p);
        lemma_first_environment_match_in_lines(t, lines, sc, p, i + 1);
    }
}

pub proof fn lemma_first_command_scope_valid(sc: Seq<CompletionScope>, i: int)
    ensures
        first_command_scope(sc, i) matches Some(n) ==> exists|j: int| 0 <= j < sc.len() && sc[j] == CompletionScope::Command(n),
    decreases sc.len() - i,
{
    if 0 <= i < sc.len() {
        lemma_first_command_scope_valid(sc, i + 1);
    }
}


/// The span of a name past its first character lies within the lines.
pub proof fn lemma_short_name_in_lines(lines: Seq<String>, name: Token)
    requires
        name.wf(),
        name.text@.len() >= 1,
        range_in_lines(lines, name.range),
    ensures
        range_in_lines(lines, short_name_range(name)),
{
}

pub proof fn lemma_scope_match_in_lines(t: LatexTree, lines: Seq<String>, sc: Seq<CompletionScope>, name: Seq<char>, index: int, p: Position, s: int)
    requires
        t.wf(),
        tree_in_lines(t, lines),
        in_lines(lines, p),
        forall|j: int| 0 <= j < sc.len() ==> scope_wf(t, #[trigger] sc[j]),
    ensures
        crate::complete::scope_match(t, sc, name, index, p, s) matches Some(r) ==> range_in_lines(lines, r),
    decreases sc.len() - s,
{
    if 0 <= s < sc.len() {
        lemma_argument_match_in_lines(t, lines, sc[s], name, index, p);
        lemma_scope_match_in_lines(t, lines, sc, name, index, p, s + 1);
    }
}

pub proof fn lemma_parameter_match_in_lines(t: LatexTree, lines: Seq<String>, sc: Seq<CompletionScope>, p: Position, name: Seq<char>, n: int, i: int)
    requires
        t.wf(),
        tree_in_lines(t, lines),
        in_lines(lines, p),
        forall|j: int| 0 <= j < sc.len() ==> scope_wf(t, #[trigger] sc[j]),
    ensures
        crate::complete::parameter_match(t, sc, p, name, n, i) matches Some(m) ==> range_in_lines(lines, m.0),
    decreases n - i,
{
    if 0 <= i < n {
        lemma_scope_match_in_lines(t, lines, sc, name, i, p, 0);
        lemma_parameter_match_in_lines(t, lines, sc, p, name, n, i + 1);
    }
}

pub proof fn lemma_command_match_in_lines(t: LatexTree, lines: Seq<String>, sc: Seq<CompletionScope>, p: Position, cmds: Seq<crate::doc::ComponentCommand>, j: int)
    requires
        t.wf(),
        tree_in_lines(t, lines),
        in_lines(lines, p),
        forall|k: int| 0 <= k < sc.len() ==> scope_wf(t, #[trigger] sc[k]),
    ensures
        crate::complete::command_match(t, sc, p, cmds, j) matches Some(m) ==> range_in_lines(lines, m.0),
    decreases cmds.len() - j,
{
    if 0 <= j < cmds.len() {
        lemma_parameter_match_in_lines(t, lines, sc, p, cmds[j].name@, cmds[j].parameters.len() as int, 0);
        lemma_command_match_in_lines(t, lines, sc, p, cmds, j + 1);
    }
}

pub proof fn lemma_component_match_in_lines(t: LatexTree, lines: Seq<String>, sc: Seq<CompletionScope>, p: Position, db: crate::doc::ComponentDatabase, cs: Seq<usize>, k: int)
    requires
        t.wf(),
        tree_in_lines(t, lines),
        in_lines(lines, p),
        forall|j: int| 0 <= j < sc.len() ==> scope_wf(t, #[trigger] sc[j]),
    ensures
        crate::complete::component_match(t, sc, p, db, cs, k) matches Some(m) ==> range_in_lines(lines, m.0),
    decreases cs.len() - k,
{
    if 0 <= k < cs.len() {
        lemma_command_match_in_lines(t, lines, sc, p, db.components[cs[k] as int].commands@, 0);
        lemma_component_match_in_lines(t, lines, sc, p, db, cs, k + 1);
    }
}

pub proof fn lemma_first_type_hit_valid(ds: Seq<crate::doc::BibDecl>, p: Position, i: int)
    ensures
        first_type_hit(ds, p, i) matches Some(j) ==> j < ds.len(),
    decreases ds.len() - i,
{
    if 0 <= i < ds.len() {
        lemma_first_type_hit_valid(ds, p, i + 1);
    }
}

pub proof fn lemma_first_decl_hit_valid(ds: Seq<crate::doc::BibDecl>, p: Position, i: int)
    ensures
        first_decl_hit(ds, p, i) matches Some(j) ==> j < ds.len(),
    decreases ds.len() - i,
{
    if 0 <= i < ds.len() {
        lemma_first_decl_hit_valid(ds, p, i + 1);
    }
}

pub proof fn lemma_first_field_hit_valid(fs: Seq<crate::doc::BibField>, p: Position, i: int)
    ensures
        first_field_hit(fs, p, i) matches Some(j) ==> j < fs.len(),
    decreases fs.len() - i,
{
    if 0 <= i < fs.len() {
        lemma_first_field_hit_valid(fs, p, i + 1);
    }
}

pub proof fn lemma_first_command_token_hit_valid(ts: Seq<Token>, p: Position, i: int)
    ensures
        first_command_token_hit(ts, p, i) matches Some(j) ==> j < ts.len(),
    decreases ts.len() - i,
{
    if 0 <= i < ts.len() {
        lemma_first_command_token_hit_valid(ts, p, i + 1);
    }
}

/// The ranges that a request's generators can match all lie within the lines.
pub proof fn lemma_request_ranges(req: CompletionRequest, sigs: Seq<ArgumentSignature>)
    requires
        req.wf(),
        request_in_bounds(req),
    ensures
        req.argument_range(sigs) matches Some(m) ==> range_in_lines(req.view.current.lines@, m.0),
        req.environment_range() matches Some(m) ==> range_in_lines(req.view.current.lines@, m.0),
        req.command_range() matches Some(r) ==> range_in_lines(req.view.current.lines@, r),
        req.tree() matches Some(t) ==> (crate::complete::component_match(t, req.scopes(), req.position, req.db, req.view.components@, 0)
            matches Some(m) ==> range_in_lines(req.view.current.lines@, m.0)),
{
    let lines = req.view.current.lines@;
    if let DocumentContent::Latex(tb) = req.view.current.content {
        let t = tb.tree;
        lemma_scopes_wf(t, req.position);
        let sc = req.scopes();
        lemma_first_match_in_lines(t, lines, sc, sigs, req.position, 0);
        lemma_first_environment_match_in_lines(t, lines, sc, req.position, 0);
        lemma_component_match_in_lines(t, lines, sc, req.position, req.db, req.view.components@, 0);
        lemma_first_command_scope_valid(sc, 0);
        if let Some(n) = first_command_scope(sc, 0) {
            let j = choose|j: int| 0 <= j < sc.len() && sc[j] == CompletionScope::Command(n);
            assert(scope_wf(t, sc[j]));
            assert(t.nodes[n as int].wf());
            if let LatexNodeKind::Command(name) = t.nodes[n as int].kind {
                lemma_short_name_in_lines(lines, name);
            }
        }
    }
}


/// Every candidate of `s` replaces the range `r`.
pub open spec fn all_at(s: Seq<ItemView>, r: Range) -> bool {
    forall|k: int| 0 <= k < s.len() ==> (#[trigger] s[k]).range == r
}

/// Every candidate of `s` replaces a range within the lines.
pub open spec fn views_in_lines(lines: Seq<String>, s: Seq<ItemView>) -> bool {
    forall|k: int| 0 <= k < s.len() ==> range_in_lines(lines, (#[trigger] s[k]).range)
}

pub proof fn lemma_all_at_add(a: Seq<ItemView>, b: Seq<ItemView>, r: Range)
    requires
        all_at(a, r),
        all_at(b, r),
    ensures
        all_at(a + b, r),
{
    assert forall|k: int| 0 <= k < (a + b).len() implies (#[trigger] (a + b)[k]).range == r by {
        if k < a.len() {
            assert((a + b)[k] == a[k]);
        } else {
            assert((a + b)[k] == b[k - a.len()]);
        }
    }
}

pub proof fn lemma_in_lines_add(lines: Seq<String>, a: Seq<ItemView>, b: Seq<ItemView>)
    requires
        views_in_lines(lines, a),
        views_in_lines(lines, b),
    ensures
        views_in_lines(lines, a + b),
{
    assert forall|k: int| 0 <= k < (a + b).len() implies range_in_lines(lines, (#[trigger] (a + b)[k]).range) by {
        if k < a.len() {
            assert((a + b)[k] == a[k]);
        } else {
            assert((a + b)[k] == b[k - a.len()]);
        }
    }
}

pub proof fn lemma_at_in_lines(lines: Seq<String>, s: Seq<ItemView>, r: Range)
    requires
        all_at(s, r),
        range_in_lines(lines, r),
    ensures
        views_in_lines(lines, s),
{
}

pub proof fn lemma_label_views_at(r: Range, docs: Seq<crate::doc::Document>, math: Seq<String>, restricted: bool)
    ensures
        all_at(crate::complete::label_views(r, docs, math, restricted), r),
    decreases docs.len(),
{
    if docs.len() > 0 {
        lemma_label_views_at(r, docs.drop_last(), math, restricted);
        if let DocumentContent::Latex(t) = docs.last().content {
            lemma_label_views_of_at(r, t.environments@, math, t.labels@, restricted);
            lemma_all_at_add(crate::complete::label_views(r, docs.drop_last(), math, restricted),
                crate::complete::label_views_of(r, t.environments@, math, t.labels@, restricted), r);
        } else {
            lemma_all_at_add(crate::complete::label_views(r, docs.drop_last(), math, restricted), Seq::empty(), r);
        }
    }
}

pub proof fn lemma_label_views_of_at(r: Range, envs: Seq<crate::rank::EnvironmentInfo>, math: Seq<String>, ls: Seq<crate::doc::LabelDef>, restricted: bool)
    ensures
        all_at(crate::complete::label_views_of(r, envs, math, ls, restricted), r),
    decreases ls.len(),
{
    if ls.len() > 0 {
        lemma_label_views_of_at(r, envs, math, ls.drop_last(), restricted);
        let prev = crate::complete::label_views_of(r, envs, math, ls.drop_last(), restricted);
        let last = if crate::complete::is_included(envs, math, ls.last(), restricted) {
            seq![crate::complete::label_view(r, ls.last())]
        } else {
            Seq::empty()
        };
        lemma_all_at_add(prev, last, r);
    }
}

pub proof fn lemma_citation_views_of_at(r: Range, uri: Seq<char>, ds: Seq<crate::doc::BibDecl>)
    ensures
        all_at(crate::complete::citation_views_of(r, uri, ds), r),
    decreases ds.len(),
{
    if ds.len() > 0 {
        lemma_citation_views_of_at(r, uri, ds.drop_last());
        let last = if crate::complete::is_citable(ds.last()) {
            seq![crate::complete::citation_view(r, uri, ds.last())]
        } else {
            Seq::empty()
        };
        lemma_all_at_add(crate::complete::citation_views_of(r, uri, ds.drop_last()), last, r);
    }
}

pub proof fn lemma_citation_views_at(r: Range, docs: Seq<crate::doc::Document>)
    ensures
        all_at(crate::complete::citation_views(r, docs), r),
    decreases docs.len(),
{
    if docs.len() > 0 {
        lemma_citation_views_at(r, docs.drop_last());
        if let DocumentContent::Bibtex(b) = docs.last().content {
            lemma_citation_views_of_at(r, docs.last().uri@, b.decls@);
            lemma_all_at_add(crate::complete::citation_views(r, docs.drop_last()),
                crate::complete::citation_views_of(r, docs.last().uri@, b.decls@), r);
        } else {
            lemma_all_at_add(crate::complete::citation_views(r, docs.drop_last()), Seq::empty(), r);
        }
    }
}

pub proof fn lemma_command_views_of_at(r: Range, nodes: Seq<crate::syntax::LatexNode>, skip: int)
    ensures
        all_at(crate::complete::command_views_of(r, nodes, skip), r),
    decreases nodes.len(),
{
    if nodes.len() > 0 {
        lemma_command_views_of_at(r, nodes.drop_last(), skip);
        let last = match nodes.last().kind {
            LatexNodeKind::Command(name) => if nodes.len() - 1 != skip {
                seq![crate::complete::user_command_view(r, name)]
            } else {
                Seq::empty()
            },
            _ => Seq::empty(),
        };
        lemma_all_at_add(crate::complete::command_views_of(r, nodes.drop_last(), skip), last, r);
    }
}

pub proof fn lemma_user_command_views_at(r: Range, docs: Seq<crate::doc::Document>, current: Seq<char>, node: int)
    ensures
        all_at(crate::complete::user_command_views(r, docs, current, node), r),
    decreases docs.len(),
{
    if docs.len() > 0 {
        lemma_user_command_views_at(r, docs.drop_last(), current, node);
        if let DocumentContent::Latex(t) = docs.last().content {
            let sk = if docs.last().uri@ == current { node } else { -1 };
            lemma_command_views_of_at(r, t.tree.nodes@, sk);
            lemma_all_at_add(crate::complete::user_command_views(r, docs.drop_last(), current, node),
                crate::complete::command_views_of(r, t.tree.nodes@, sk), r);
        } else {
            lemma_all_at_add(crate::complete::user_command_views(r, docs.drop_last(), current, node), Seq::empty(), r);
        }
    }
}

pub proof fn lemma_environment_views_of_at(r: Range, es: Seq<crate::rank::EnvironmentInfo>, skip: int)
    ensures
        all_at(crate::complete::environment_views_of(r, es, skip), r),
    decreases es.len(),
{
    if es.len() > 0 {
        lemma_environment_views_of_at(r, es.drop_last(), skip);
        let e = es.last();
        let last = if e.begin_node == skip || e.end_node == skip {
            Seq::empty()
        } else {
            crate::complete::environment_views(r, e)
        };
        lemma_all_at_add(crate::complete::environment_views_of(r, es.drop_last(), skip), last, r);
    }
}

pub proof fn lemma_user_environment_views_at(r: Range, docs: Seq<crate::doc::Document>, current: Seq<char>, node: int)
    ensures
        all_at(crate::complete::user_environment_views(r, docs, current, node), r),
    decreases docs.len(),
{
    if docs.len() > 0 {
        lemma_user_environment_views_at(r, docs.drop_last(), current, node);
        if let DocumentContent::Latex(t) = docs.last().content {
            let sk = if docs.last().uri@ == current { node } else { -1 };
            lemma_environment_views_of_at(r, t.environments@, sk);
            lemma_all_at_add(crate::complete::user_environment_views(r, docs.drop_last(), current, node),
                crate::complete::environment_views_of(r, t.environments@, sk), r);
        } else {
            lemma_all_at_add(crate::complete::user_environment_views(r, docs.drop_last(), current, node), Seq::empty(), r);
        }
    }
}

pub proof fn lemma_component_views_at(r: Range, db: crate::doc::ComponentDatabase, cs: Seq<usize>, environments: bool)
    ensures
        all_at(crate::complete::component_views(r, db, cs, environments), r),
    decreases cs.len(),
{
    if cs.len() > 0 {
        lemma_component_views_at(r, db, cs.drop_last(), environments);
        let c = db.components[cs.last() as int];
        let last = if environments {
            crate::complete::names_views(r, crate::item::ItemKind::ComponentEnvironment, c.environments@, Some(crate::complete::component_detail(c.file_names@)))
        } else {
            crate::complete::names_views(r, crate::item::ItemKind::ComponentCommand, crate::complete::command_names(c.commands@), Some(crate::complete::component_detail(c.file_names@)))
        };
        lemma_all_at_add(crate::complete::component_views(r, db, cs.drop_last(), environments), last, r);
    }
}


/// Every candidate that the generators produce replaces a range within the
/// lines of the current document.
pub proof fn lemma_all_items_in_lines(req: CompletionRequest)
    requires
        req.wf(),
        request_in_bounds(req),
    ensures
        views_in_lines(req.view.current.lines@, crate::engine::all_items(req)),
{
    let lines = req.view.current.lines@;
    let p = req.position;
    let d = req.data;
    lemma_request_ranges(req, d.color_commands@);
    lemma_request_ranges(req, d.color_model_commands@);
    lemma_request_ranges(req, d.pgf_library_commands@);
    lemma_request_ranges(req, d.tikz_library_commands@);
    lemma_request_ranges(req, d.glossary_reference_commands@);
    lemma_request_ranges(req, d.citation_commands@);
    lemma_request_ranges(req, d.label_reference_commands@);
    lemma_request_ranges(req, d.class_commands@);
    lemma_request_ranges(req, d.package_commands@);
    assert(in_lines(lines, p));
    assert(range_in_lines(lines, Range { start: p, end: p }));
    match req.view.current.content {
        DocumentContent::Bibtex(b) => {
            lemma_first_command_token_hit_valid(b.commands@, p, 0);
            if let Some(i) = first_command_token_hit(b.commands@, p, 0) {
                assert(b.commands@[i as int].wf());
                assert(range_in_lines(lines, b.commands@[i as int].range));
                lemma_short_name_in_lines(lines, b.commands@[i as int]);
            }
            lemma_first_type_hit_valid(b.decls@, p, 0);
            if let Some(i) = first_type_hit(b.decls@, p, 0) {
                assert(b.decls@[i as int].ty.wf());
                assert(range_in_lines(lines, b.decls@[i as int].ty.range));
                lemma_short_name_in_lines(lines, b.decls@[i as int].ty);
            }
            lemma_first_decl_hit_valid(b.decls@, p, 0);
            if let Some(i) = first_decl_hit(b.decls@, p, 0) {
                let dd = b.decls@[i as int];
                lemma_first_field_hit_valid(dd.fields@, p, 0);
                if let Some(j) = first_field_hit(dd.fields@, p, 0) {
                    assert(range_in_lines(lines, b.decls[i as int].fields[j as int].name.range));
                }
            }
        },
        DocumentContent::Latex(t) => {},
    }
    if let Some(m) = req.argument_range(d.citation_commands@) {
        lemma_citation_views_at(m.0, req.view.related@);
    }
    if let Some(m) = req.argument_range(d.label_reference_commands@) {
        lemma_label_views_at(m.0, req.view.related@, d.math_environments@, d.label_reference_commands@[m.1].restricted);
    }
    if let Some(m) = req.environment_range() {
        lemma_component_views_at(m.0, req.db, req.view.components@, true);
        lemma_user_environment_views_at(m.0, req.view.related@, req.view.current.uri@, m.1 as int);
    }
    if let Some(r) = req.command_range() {
        lemma_component_views_at(r, req.db, req.view.components@, false);
        if let Some(t) = req.tree() {
            if let Some(n) = first_command_scope(req.scopes(), 0) {
                if let LatexNodeKind::Command(name) = t.nodes[n as int].kind {
                    lemma_user_command_views_at(r, req.view.related@, req.view.current.uri@, n as int);
                }
            }
        }
    }
    assert(views_in_lines(lines, C::bibtex_command_items(req)));
    assert(views_in_lines(lines, C::entry_type_items(req)));
    assert(views_in_lines(lines, C::field_items(req)));
    assert(views_in_lines(lines, C::argument_items(req)));
    assert(views_in_lines(lines, C::begin_items(req)));
    assert(views_in_lines(lines, C::color_items(req)));
    assert(views_in_lines(lines, C::color_model_items(req)));
    assert(views_in_lines(lines, C::glossary_items(req)));
    assert(views_in_lines(lines, C::citation_items(req)));
    assert(views_in_lines(lines, C::import_items(req, true)));
    assert(views_in_lines(lines, C::import_items(req, false)));
    assert(views_in_lines(lines, C::label_items(req)));
    assert(views_in_lines(lines, C::pgf_library_items(req)));
    assert(views_in_lines(lines, C::tikz_library_items(req)));
    assert(views_in_lines(lines, C::component_environment_items(req)));
    assert(views_in_lines(lines, C::theorem_items(req)));
    assert(views_in_lines(lines, C::user_environment_items(req)));
    assert(views_in_lines(lines, C::component_command_items(req)));
    assert(views_in_lines(lines, C::user_command_items(req)));
    lemma_in_lines_add(lines, C::bibtex_command_items(req), C::entry_type_items(req));
    lemma_in_lines_add(lines, C::bibtex_command_items(req) + C::entry_type_items(req), C::field_items(req));
    lemma_in_lines_add(lines, C::bibtex_command_items(req) + C::entry_type_items(req) + C::field_items(req), C::argument_items(req));
    lemma_in_lines_add(lines, C::bibtex_command_items(req) + C::entry_type_items(req) + C::field_items(req) + C::argument_items(req), C::begin_items(req));
    lemma_in_lines_add(lines, C::bibtex_command_items(req) + C::entry_type_items(req) + C::field_items(req) + C::argument_items(req) + C::begin_items(req), C::color_items(req));
    lemma_in_lines_add(lines, C::bibtex_command_items(req) + C::entry_type_items(req) + C::field_items(req) + C::argument_items(req) + C::begin_items(req) + C::color_items(req), C::color_model_items(req));
    lemma_in_lines_add(lines, C::bibtex_command_items(req) + C::entry_type_items(req) + C::field_items(req) + C::argument_items(req) + C::begin_items(req) + C::color_items(req) + C::color_model_items(req), C::glossary_items(req));
    lemma_in_lines_add(lines, C::bibtex_command_items(req) + C::entry_type_items(req) + C::field_items(req) + C::argument_items(req) + C::begin_items(req) + C::color_items(req) + C::color_model_items(req) + C::glossary_items(req), C::citation_items(req));
    lemma_in_lines_add(lines, C::bibtex_command_items(req) + C::entry_type_items(req) + C::field_items(req) + C::argument_items(req) + C::begin_items(req) + C::color_items(req) + C::color_model_items(req) + C::glossary_items(req) + C::citation_items(req), C::import_items(req, true));
    lemma_in_lines_add(lines, C::bibtex_command_items(req) + C::entry_type_items(req) + C::field_items(req) + C::argument_items(req) + C::begin_items(req) + C::color_items(req) + C::color_model_items(req) + C::glossary_items(req) + C::citation_items(req) + C::import_items(req, true), C::import_items(req, false));
    lemma_in_lines_add(lines, C::bibtex_command_items(req) + C::entry_type_items(req) + C::field_items(req) + C::argument_items(req) + C::begin_items(req) + C::color_items(req) + C::color_model_items(req) + C::glossary_items(req) + C::citation_items(req) + C::import_items(req, true) + C::import_items(req, false), C::label_items(req));
    lemma_in_lines_add(lines, C::bibtex_command_items(req) + C::entry_type_items(req) + C::field_items(req) + C::argument_items(req) + C::begin_items(req) + C::color_items(req) + C::color_model_items(req) + C::glossary_items(req) + C::citation_items(req) + C::import_items(req, true) + C::import_items(req, false) + C::label_items(req), C::pgf_library_items(req));
    lemma_in_lines_add(lines, C::bibtex_command_items(req) + C::entry_type_items(req) + C::field_items(req) + C::argument_items(req) + C::begin_items(req) + C::color_items(req) + C::color_model_items(req) + C::glossary_items(req) + C::citation_items(req) + C::import_items(req, true) + C::import_items(req, false) + C::label_items(req) + C::pgf_library_items(req), C::tikz_library_items(req));
    lemma_in_lines_add(lines, C::bibtex_command_items(req) + C::entry_type_items(req) + C::field_items(req) + C::argument_items(req) + C::begin_items(req) + C::color_items(req) + C::color_model_items(req) + C::glossary_items(req) + C::citation_items(req) + C::import_items(req, true) + C::import_items(req, false) + C::label_items(req) + C::pgf_library_items(req) + C::tikz_library_items(req), C::component_environment_items(req));
    lemma_in_lines_add(lines, C::bibtex_command_items(req) + C::entry_type_items(req) + C::field_items(req) + C::argument_items(req) + C::begin_items(req) + C::color_items(req) + C::color_model_items(req) + C::glossary_items(req) + C::citation_items(req) + C::import_items(req, true) + C::import_items(req, false) + C::label_items(req) + C::pgf_library_items(req) + C::tikz_library_items(req) + C::component_environment_items(req), C::theorem_items(req));
    lemma_in_lines_add(lines, C::bibtex_command_items(req) + C::entry_type_items(req) + C::field_items(req) + C::argument_items(req) + C::begin_items(req) + C::color_items(req) + C::color_model_items(req) + C::glossary_items(req) + C::citation_items(req) + C::import_items(req, true) + C::import_items(req, false) + C::label_items(req) + C::pgf_library_items(req) + C::tikz_library_items(req) + C::component_environment_items(req) + C::theorem_items(req), C::user_environment_items(req));
    lemma_in_lines_add(lines, C::bibtex_command_items(req) + C::entry_type_items(req) + C::field_items(req) + C::argument_items(req) + C::begin_items(req) + C::color_items(req) + C::color_model_items(req) + C::glossary_items(req) + C::citation_items(req) + C::import_items(req, true) + C::import_items(req, false) + C::label_items(req) + C::pgf_library_items(req) + C::tikz_library_items(req) + C::component_environment_items(req) + C::theorem_items(req) + C::user_environment_items(req), C::component_command_items(req));
    lemma_in_lines_add(lines, C::bibtex_command_items(req) + C::entry_type_items(req) + C::field_items(req) + C::argument_items(req) + C::begin_items(req) + C::color_items(req) + C::color_model_items(req) + C::glossary_items(req) + C::citation_items(req) + C::import_items(req, true) + C::import_items(req, false) + C::label_items(req) + C::pgf_library_items(req) + C::tikz_library_items(req) + C::component_environment_items(req) + C::theorem_items(req) + C::user_environment_items(req) + C::component_command_items(req), C::user_command_items(req));
}

} // verus!
