//! The entry point: every generator, then ranking and conversion to the protocol shape.

use vstd::prelude::*;
use vstd::string::StringExecFns;
use crate::complete::{
    CompletionContext, CompletionRequest, argument_items, begin_items, bibtex_command_items, field_items,
    import_items, complete_arguments, complete_bibtex_commands, complete_classes, complete_fields,
    complete_packages, citation_items, color_items, color_model_items,
    complete_begin_command, complete_citations, complete_color_models, complete_colors,
    complete_component_commands, complete_component_environments, complete_entry_types,
    complete_glossary_entries, complete_labels, complete_pgf_libraries, complete_theorem_environments,
    complete_tikz_libraries, complete_user_commands, complete_user_environments,
    component_command_items, component_environment_items, entry_type_items, glossary_items,
    label_items, pgf_library_items, theorem_items, tikz_library_items, user_command_items,
    user_environment_items,
};
use crate::doc::DocumentContent;
use crate::bounds::{lemma_all_items_in_lines, range_in_lines};
use crate::item::{Item, ItemKind, ItemView, views, lemma_views_add};
use crate::pos::{Position, Range};
use crate::rank::{EnvironmentInfo, ranked, rank};
use crate::text::{current_word, current_word_spec, push_char, sort_prefix, two_digits};

verus! {

/// Every generator's candidates, in the order in which the generators run:
/// that order decides which of two candidates of one label survives.
pub open spec fn all_items(req: CompletionRequest) -> Seq<ItemView> {
    bibtex_command_items(req)
        + entry_type_items(req)
        + field_items(req)
        + argument_items(req)
        + begin_items(req)
        + color_items(req)
        + color_model_items(req)
        + glossary_items(req)
        + citation_items(req)
        + import_items(req, true)
        + import_items(req, false)
        + label_items(req)
        + pgf_library_items(req)
        + tikz_library_items(req)
        + component_environment_items(req)
        + theorem_items(req)
        + user_environment_items(req)
        + component_command_items(req)
        + user_command_items(req)
}

/// Runs every generator over the request and returns their candidates.
pub fn complete_all(req: &CompletionRequest) -> (r: Vec<Item>)
    requires
        req.wf(),
    ensures
        views(r@) == all_items(*req),
{
    let mut ctx = CompletionContext::new(req);
    let ghost s0 = ctx.items@;
    assert(views(s0) =~= Seq::<ItemView>::empty());
    complete_bibtex_commands(&mut ctx, req);
    complete_entry_types(&mut ctx, req);
    complete_fields(&mut ctx, req);
    complete_arguments(&mut ctx, req);
    complete_begin_command(&mut ctx, req);
    complete_colors(&mut ctx, req);
    complete_color_models(&mut ctx, req);
    complete_glossary_entries(&mut ctx, req);
    complete_citations(&mut ctx, req);
    complete_classes(&mut ctx, req);
    complete_packages(&mut ctx, req);
    complete_labels(&mut ctx, req);
    complete_pgf_libraries(&mut ctx, req);
    complete_tikz_libraries(&mut ctx, req);
    complete_component_environments(&mut ctx, req);
    complete_theorem_environments(&mut ctx, req);
    complete_user_environments(&mut ctx, req);
    complete_component_commands(&mut ctx, req);
    complete_user_commands(&mut ctx, req);
    assert(views(ctx.items@) =~= all_items(*req));
    ctx.items
}

/// A candidate in the shape the protocol sends: what to show, what to insert
/// where, and how the client should filter and sort it.
#[derive(Debug)]
pub struct CompletionItem {
    pub label: String,
    pub kind: ItemKind,
    pub detail: Option<String>,
    pub range: Range,
    /// The text that replaces `range`.
    pub new_text: String,
    /// `new_text` is a snippet with tab stops rather than plain text.
    pub snippet: bool,
    pub filter_text: Option<String>,
    pub sort_text: String,
    pub preselect: bool,
    /// The document that a citation's entry stands in.
    pub uri: Option<String>,
}

/// The snippet that the `\begin` candidate inserts: an environment with its
/// name typed once for both delimiters and an indented body.
pub open spec fn begin_snippet() -> Seq<char> {
    seq!['b', 'e', 'g', 'i', 'n', '{', '$', '1', '}', '\n', '\t', '\n', '\\', 'e', 'n', 'd', '{', '$', '1', '}']
}

/// Labels and citations are filtered and sorted by their text, not their label.
pub open spec fn sorts_by_text(k: ItemKind) -> bool {
    k is Label || k == ItemKind::Citation
}

/// `c` is the protocol form of `it`, standing at position `index` of the list.
pub open spec fn converts(c: CompletionItem, it: ItemView, index: nat) -> bool {
    &&& c.label@ == it.label
    &&& c.kind == it.kind
    &&& crate::item::opt_view(c.detail) == it.detail
    &&& c.range == it.range
    &&& c.new_text@ == (if it.kind == ItemKind::BeginCommand { begin_snippet() } else { it.label })
    &&& c.snippet == (it.kind == ItemKind::BeginCommand)
    &&& crate::item::opt_view(c.filter_text) == (if sorts_by_text(it.kind) { Some(it.text) } else { None })
    &&& c.sort_text@ == (if sorts_by_text(it.kind) { two_digits(index).push(' ') + it.text } else { two_digits(index) })
    &&& c.preselect == it.preselect
    &&& crate::item::opt_view(c.uri) == it.uri
}

/// Turns a ranked candidate into its protocol form, with the sort text that
/// keeps the engine's order on a client that sorts alphabetically.
pub fn convert(it: Item, index: usize) -> (r: CompletionItem)
    requires
        index < 100,
    ensures
        converts(r, it@, index as nat),
{
    let by_text = match it.kind {
        ItemKind::Label(_) | ItemKind::Citation => true,
        _ => false,
    };
    let new_text = if it.kind == ItemKind::BeginCommand {
        let s = "begin{$1}\n\t\n\\end{$1}".to_string();
        proof { reveal_strlit("begin{$1}\n\t\n\\end{$1}"); }
        assert(s@ =~= begin_snippet());
        s
    } else {
        it.label.clone()
    };
    let mut sort_text = sort_prefix(index);
    let filter_text = if by_text {
        push_char(&mut sort_text, ' ');
        sort_text.append(it.text.as_str());
        Some(it.text)
    } else {
        None
    };
    CompletionItem {
        label: it.label,
        kind: it.kind,
        detail: it.detail,
        range: it.range,
        new_text,
        snippet: it.kind == ItemKind::BeginCommand,
        filter_text,
        sort_text,
        preselect: it.preselect,
        uri: it.uri,
    }
}

/// The environments that preselection looks at: those of a LaTeX document.
pub open spec fn environments_of(req: CompletionRequest) -> Seq<EnvironmentInfo> {
    match req.view.current.content {
        DocumentContent::Latex(t) => t.environments@,
        DocumentContent::Bibtex(_) => Seq::empty(),
    }
}

/// The word before the cursor, on the cursor's line, in the document's language.
pub open spec fn pattern_of(req: CompletionRequest) -> Seq<char> {
    let lines = req.view.current.lines@;
    if req.position.line < lines.len() {
        current_word_spec(lines[req.position.line as int]@, req.position.character as int, req.view.current.content is Latex)
    } else {
        Seq::empty()
    }
}

/// Completes at the request's cursor: every generator's candidates,
/// deduplicated, preselected, scored, sorted, cut to the limit and converted.
pub fn complete(req: &CompletionRequest) -> (r: Vec<CompletionItem>)
    requires
        req.wf(),
    ensures
        exists|items: Seq<Item>| {
            &&& views(items) == all_items(*req)
            &&& #[trigger] ranked(items, environments_of(*req), req.position, pattern_of(*req)).len() == r.len()
            &&& forall|k: int| 0 <= k < r.len() ==> converts(#[trigger] r@[k], ranked(items, environments_of(*req), req.position, pattern_of(*req))[k]@, k as nat)
        },
        forall|k: int| 0 <= k < r.len() ==> range_in_lines(req.view.current.lines@, (#[trigger] r@[k]).range),
{
    let items = complete_all(req);
    let ghost all = items@;
    let empty: Vec<EnvironmentInfo> = Vec::new();
    let envs = match &req.view.current.content {
        DocumentContent::Latex(t) => &t.environments,
        DocumentContent::Bibtex(_) => &empty,
    };
    assert(envs@ == environments_of(*req));
    let pattern = if (req.position.line as usize) < req.view.current.lines.len() {
        let latex = match &req.view.current.content {
            DocumentContent::Latex(_) => true,
            DocumentContent::Bibtex(_) => false,
        };
        current_word(req.view.current.lines[req.position.line as usize].as_str(), req.position.character, latex)
    } else {
        String::new()
    };
    assert(pattern@ == pattern_of(*req));
    let ranked_items = rank(items, envs, req.position, pattern.as_str());
    let ghost rk = ranked_items@;
    let n = ranked_items.len();
    let mut rest = crate::item::reversed(ranked_items);
    let mut out: Vec<CompletionItem> = Vec::new();
    while out.len() < n
        invariant
            n == rk.len(),
            n <= 50,
            out.len() <= n,
            rest.len() == n - out.len(),
            forall|k: int| 0 <= k < rest.len() ==> rest@[k] == rk[n - 1 - k],
            forall|k: int| 0 <= k < out.len() ==> converts(#[trigger] out@[k], rk[k]@, k as nat),
        decreases n - out.len(),
    {
        let it = rest.pop().unwrap();
        let index = out.len();
        out.push(convert(it, index));
    }
    proof {
        lemma_all_items_in_lines(*req);
        assert forall|k: int| 0 <= k < out.len() implies range_in_lines(req.view.current.lines@, (#[trigger] out@[k]).range) by {
            assert(out@[k].range == rk[k].range);
            let m = choose|m: int| 0 <= m < all.len() && #[trigger] rk[k].range == all[m].range;
            assert(views(all)[m].range == all[m].range);
        }
    }
    assert(views(all) == all_items(*req));
    assert(ranked(all, environments_of(*req), req.position, pattern_of(*req)) == rk);
    out
}

} // verus!
