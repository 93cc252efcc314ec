//! The candidate generators, each appending what it offers at the cursor.

use vstd::prelude::*;
use crate::doc::{
    BibDecl, BibDeclKind, BibField, Component, ComponentCommand, ComponentDatabase, Document, DocumentContent, DocumentView, GlossaryEntryDef,
    LabelDef, contains_string, has_file,
};
use crate::item::{Item, ItemKind, ItemView, opt_view, views, lemma_views_add};
use crate::pattern::{
    ArgumentSignature, argument_match, find_argument_range, find_environment_range, first_environment_match,
    first_match, match_argument,
};
use crate::pos::{Position, Range};
use crate::rank::EnvironmentInfo;
use crate::scope::{CompletionScope, find_scopes, scope_wf, scopes_at, short_name_range_of};
use crate::syntax::{LatexNode, LatexNodeKind, LatexTree, Token, short_name_range};
use vstd::string::{StrSliceExecFns, StringExecFns};
use crate::text::{push_char, citation_text, citation_text_spec, label_text, label_text_spec};

verus! {

/// The static tables of the language: which command arguments take which
/// values, and the values themselves.
#[derive(Clone, Debug)]
pub struct LanguageData {
    pub colors: Vec<String>,
    pub color_commands: Vec<ArgumentSignature>,
    pub color_models: Vec<String>,
    pub color_model_commands: Vec<ArgumentSignature>,
    pub citation_commands: Vec<ArgumentSignature>,
    pub label_reference_commands: Vec<ArgumentSignature>,
    pub glossary_reference_commands: Vec<ArgumentSignature>,
    pub pgf_libraries: Vec<String>,
    pub pgf_library_commands: Vec<ArgumentSignature>,
    pub tikz_libraries: Vec<String>,
    pub tikz_library_commands: Vec<ArgumentSignature>,
    pub entry_types: Vec<String>,
    pub fields: Vec<String>,
    /// The environments whose body is math.
    pub math_environments: Vec<String>,
    pub class_commands: Vec<ArgumentSignature>,
    pub package_commands: Vec<ArgumentSignature>,
}

/// One completion request: the documents, what is known of the language, and
/// the cursor.
#[derive(Clone, Debug)]
pub struct CompletionRequest {
    pub view: DocumentView,
    pub db: ComponentDatabase,
    pub data: LanguageData,
    pub position: Position,
    /// The file names that the distribution's file resolver knows.
    pub resolver_files: Vec<String>,
}

impl CompletionRequest {
    pub open spec fn wf(self) -> bool {
        &&& self.db.wf()
        &&& crate::bounds::request_in_bounds(self)
        &&& forall|k: int| 0 <= k < self.view.components.len() ==> #[trigger] self.view.components@[k] < self.db.components.len()
        &&& forall|k: int| 0 <= k < self.view.related.len() ==> match (#[trigger] self.view.related@[k]).content {
            DocumentContent::Latex(t) => t.tree.wf(),
            DocumentContent::Bibtex(_) => true,
        }
        &&& match self.view.current.content {
            DocumentContent::Latex(t) => t.tree.wf(),
            DocumentContent::Bibtex(b) => {
                &&& forall|k: int| 0 <= k < b.decls.len() ==> (#[trigger] b.decls[k]).ty.wf() && b.decls[k].ty.text@.len() >= 1
                &&& forall|k: int| 0 <= k < b.commands.len() ==> (#[trigger] b.commands[k]).wf() && b.commands[k].text@.len() >= 1
            },
        }
    }

    pub open spec fn tree(self) -> Option<LatexTree> {
        match self.view.current.content {
            DocumentContent::Latex(t) => Some(t.tree),
            DocumentContent::Bibtex(_) => None,
        }
    }

    /// The scopes at the cursor; none in a BibTeX document.
    pub open spec fn scopes(self) -> Seq<CompletionScope> {
        match self.tree() {
            Some(t) => scopes_at(t, self.position),
            None => Seq::empty(),
        }
    }

    /// The range of the first scope that one of `sigs` matches, with the signature.
    pub open spec fn argument_range(self, sigs: Seq<ArgumentSignature>) -> Option<(Range, int)> {
        match self.tree() {
            Some(t) => first_match(t, self.scopes(), sigs, self.position, 0),
            None => None,
        }
    }

    /// The range of the first scope that is the name slot of `\begin` or
    /// `\end`, and the node of that command.
    pub open spec fn environment_range(self) -> Option<(Range, usize)> {
        match self.tree() {
            Some(t) => first_environment_match(t, self.scopes(), self.position, 0),
            None => None,
        }
    }

    /// The name of the command under the cursor, escape character excluded.
    pub open spec fn command_range(self) -> Option<Range> {
        match self.tree() {
            Some(t) => match first_command_scope(self.scopes(), 0) {
                Some(i) => match t.nodes[i as int].kind {
                    LatexNodeKind::Command(name) => Some(short_name_range(name)),
                    _ => None,
                },
                None => None,
            },
            None => None,
        }
    }
}

/// The node of the first command-name scope from `i` on.
pub open spec fn first_command_scope(sc: Seq<CompletionScope>, i: int) -> Option<usize>
    decreases sc.len() - i,
{
    if i < 0 || i >= sc.len() {
        None
    } else {
        match sc[i] {
            CompletionScope::Command(n) => Some(n),
            _ => first_command_scope(sc, i + 1),
        }
    }
}

/// The scopes of a request, computed once, and the candidates collected so far.
pub struct CompletionContext {
    pub scopes: Vec<CompletionScope>,
    pub items: Vec<Item>,
}

impl CompletionContext {
    pub open spec fn wf(self, req: CompletionRequest) -> bool {
        &&& self.scopes@ == req.scopes()
        &&& match req.tree() {
            Some(t) => forall|j: int| 0 <= j < self.scopes.len() ==> scope_wf(t, #[trigger] self.scopes@[j]),
            None => true,
        }
    }

    /// A context with the request's scopes and no candidates.
    pub fn new(req: &CompletionRequest) -> (r: CompletionContext)
        requires
            req.wf(),
        ensures
            r.wf(*req),
            r.items@.len() == 0,
    {
        let scopes = match &req.view.current.content {
            DocumentContent::Latex(t) => find_scopes(&t.tree, req.position),
            DocumentContent::Bibtex(_) => Vec::new(),
        };
        CompletionContext { scopes, items: Vec::new() }
    }
}

/// A candidate whose label and matching text are `name`.
pub open spec fn name_view(range: Range, kind: ItemKind, name: Seq<char>, detail: Option<Seq<char>>) -> ItemView {
    ItemView { range, kind, label: name, text: name, detail, uri: None, preselect: false, score: None }
}

pub open spec fn names_views(range: Range, kind: ItemKind, names: Seq<String>, detail: Option<Seq<char>>) -> Seq<ItemView> {
    Seq::new(names.len(), |k: int| name_view(range, kind, names[k]@, detail))
}

/// The candidates for `names` at `m`, when a range was found.
pub open spec fn views_at(m: Option<Range>, kind: ItemKind, names: Seq<String>, detail: Option<Seq<char>>) -> Seq<ItemView> {
    match m {
        Some(r) => names_views(r, kind, names, detail),
        None => Seq::empty(),
    }
}

/// The detail of what a package or class provides and nothing names: built in.
pub open spec fn built_in() -> Seq<char> {
    seq!['b', 'u', 'i', 'l', 't', '-', 'i', 'n']
}

/// The detail of what the user's documents define.
pub open spec fn user_defined() -> Seq<char> {
    seq!['u', 's', 'e', 'r', '-', 'd', 'e', 'f', 'i', 'n', 'e', 'd']
}

fn user_defined_detail() -> (r: Option<String>)
    ensures
        opt_view(r) == Some(user_defined()),
{
    proof { reveal_strlit("user-defined"); }
    let s = "user-defined".to_string();
    assert(s@ =~= user_defined());
    Some(s)
}

fn built_in_detail() -> (r: Option<String>)
    ensures
        opt_view(r) == Some(built_in()),
{
    proof { reveal_strlit("built-in"); }
    let s = "built-in".to_string();
    assert(s@ =~= built_in());
    Some(s)
}

pub open spec fn range_of<N>(m: Option<(Range, N)>) -> Option<Range> {
    match m {
        Some(x) => Some(x.0),
        None => None,
    }
}

fn push_names(items: &mut Vec<Item>, range: Range, kind: ItemKind, names: &Vec<String>, detail: &Option<String>)
    ensures
        views(final(items)@) == views(old(items)@) + names_views(range, kind, names@, opt_view(*detail)),
{
    let ghost start = views(items@);
    let mut i: usize = 0;
    assert(start =~= start + names_views(range, kind, names@.take(0), opt_view(*detail)));
    while i < names.len()
        invariant
            i <= names.len(),
            views(items@) == start + names_views(range, kind, names@.take(i as int), opt_view(*detail)),
        decreases names.len() - i,
    {
        let ghost prev = items@;
        let mut it = Item::simple(range, kind, &names[i]);
        it.detail = match detail {
            Some(d) => Some(d.clone()),
            None => None,
        };
        items.push(it);
        proof {
            assert(items@ =~= prev + seq![it]);
            lemma_views_add(prev, seq![it]);
            assert(views(seq![it]) =~= seq![name_view(range, kind, names@[i as int]@, opt_view(*detail))]);
        }
        assert(views(items@) =~= start + names_views(range, kind, names@.take(i + 1), opt_view(*detail)));
        i += 1;
    }
    assert(names@.take(names.len() as int) =~= names@);
}

fn argument_range(ctx: &CompletionContext, req: &CompletionRequest, sigs: &Vec<ArgumentSignature>) -> (r: Option<(Range, usize)>)
    requires
        req.wf(),
        ctx.wf(*req),
    ensures
        match r {
            Some(m) => req.argument_range(sigs@) == Some((m.0, m.1 as int)) && m.1 < sigs.len(),
            None => req.argument_range(sigs@) is None,
        },
{
    match &req.view.current.content {
        DocumentContent::Latex(t) => find_argument_range(&t.tree, &ctx.scopes, sigs, req.position),
        DocumentContent::Bibtex(_) => None,
    }
}

fn environment_range(ctx: &CompletionContext, req: &CompletionRequest) -> (r: Option<(Range, usize)>)
    requires
        req.wf(),
        ctx.wf(*req),
    ensures
        r == req.environment_range(),
{
    match &req.view.current.content {
        DocumentContent::Latex(t) => find_environment_range(&t.tree, &ctx.scopes, req.position),
        DocumentContent::Bibtex(_) => None,
    }
}

fn command_range(ctx: &CompletionContext, req: &CompletionRequest) -> (r: Option<Range>)
    requires
        req.wf(),
        ctx.wf(*req),
    ensures
        r == req.command_range(),
{
    let t = match &req.view.current.content {
        DocumentContent::Latex(t) => &t.tree,
        DocumentContent::Bibtex(_) => return None,
    };
    let mut i: usize = 0;
    while i < ctx.scopes.len()
        invariant
            i <= ctx.scopes.len(),
            req.tree() == Some(*t),
            t.wf(),
            ctx.wf(*req),
            first_command_scope(ctx.scopes@, 0) == first_command_scope(ctx.scopes@, i as int),
        decreases ctx.scopes.len() - i,
    {
        if let CompletionScope::Command(n) = ctx.scopes[i] {
            assert(scope_wf(*t, ctx.scopes@[i as int]));
            assert(t.nodes[n as int].wf());
            return match &t.nodes[n].kind {
                LatexNodeKind::Command(name) => Some(short_name_range_of(name)),
                _ => None,
            };
        }
        i += 1;
    }
    None
}

/// Colors, in the color argument of a color command.
pub open spec fn color_items(req: CompletionRequest) -> Seq<ItemView> {
    views_at(range_of(req.argument_range(req.data.color_commands@)), ItemKind::Color, req.data.colors@, None)
}

pub fn complete_colors(ctx: &mut CompletionContext, req: &CompletionRequest)
    requires
        req.wf(),
        old(ctx).wf(*req),
    ensures
        final(ctx).wf(*req),
        views(final(ctx).items@) == views(old(ctx).items@) + color_items(*req),
{
    if let Some(m) = argument_range(ctx, req, &req.data.color_commands) {
        push_names(&mut ctx.items, m.0, ItemKind::Color, &req.data.colors, &None);
    } else {
        assert(views(ctx.items@) =~= views(ctx.items@) + color_items(*req));
    }
}

/// Color models, in the model argument of a color definition.
pub open spec fn color_model_items(req: CompletionRequest) -> Seq<ItemView> {
    views_at(range_of(req.argument_range(req.data.color_model_commands@)), ItemKind::ColorModel, req.data.color_models@, None)
}

pub fn complete_color_models(ctx: &mut CompletionContext, req: &CompletionRequest)
    requires
        req.wf(),
        old(ctx).wf(*req),
    ensures
        final(ctx).wf(*req),
        views(final(ctx).items@) == views(old(ctx).items@) + color_model_items(*req),
{
    if let Some(m) = argument_range(ctx, req, &req.data.color_model_commands) {
        push_names(&mut ctx.items, m.0, ItemKind::ColorModel, &req.data.color_models, &None);
    } else {
        assert(views(ctx.items@) =~= views(ctx.items@) + color_model_items(*req));
    }
}

/// PGF libraries, in the argument of a PGF library import.
pub open spec fn pgf_library_items(req: CompletionRequest) -> Seq<ItemView> {
    views_at(range_of(req.argument_range(req.data.pgf_library_commands@)), ItemKind::PgfLibrary, req.data.pgf_libraries@, None)
}

pub fn complete_pgf_libraries(ctx: &mut CompletionContext, req: &CompletionRequest)
    requires
        req.wf(),
        old(ctx).wf(*req),
    ensures
        final(ctx).wf(*req),
        views(final(ctx).items@) == views(old(ctx).items@) + pgf_library_items(*req),
{
    if let Some(m) = argument_range(ctx, req, &req.data.pgf_library_commands) {
        push_names(&mut ctx.items, m.0, ItemKind::PgfLibrary, &req.data.pgf_libraries, &None);
    } else {
        assert(views(ctx.items@) =~= views(ctx.items@) + pgf_library_items(*req));
    }
}

/// TikZ libraries, in the argument of a TikZ library import.
pub open spec fn tikz_library_items(req: CompletionRequest) -> Seq<ItemView> {
    views_at(range_of(req.argument_range(req.data.tikz_library_commands@)), ItemKind::TikzLibrary, req.data.tikz_libraries@, None)
}

pub fn complete_tikz_libraries(ctx: &mut CompletionContext, req: &CompletionRequest)
    requires
        req.wf(),
        old(ctx).wf(*req),
    ensures
        final(ctx).wf(*req),
        views(final(ctx).items@) == views(old(ctx).items@) + tikz_library_items(*req),
{
    if let Some(m) = argument_range(ctx, req, &req.data.tikz_library_commands) {
        push_names(&mut ctx.items, m.0, ItemKind::TikzLibrary, &req.data.tikz_libraries, &None);
    } else {
        assert(views(ctx.items@) =~= views(ctx.items@) + tikz_library_items(*req));
    }
}

pub open spec fn begin_chars() -> Seq<char> {
    seq!['b', 'e', 'g', 'i', 'n']
}

/// The `\begin` snippet, where a command name is being typed.
pub open spec fn begin_items(req: CompletionRequest) -> Seq<ItemView> {
    match req.command_range() {
        Some(r) => seq![ItemView {
            range: r,
            kind: ItemKind::BeginCommand,
            label: begin_chars(),
            text: begin_chars(),
            detail: Some(built_in()),
            uri: None,
            preselect: false,
            score: None,
        }],
        None => Seq::empty(),
    }
}

pub fn complete_begin_command(ctx: &mut CompletionContext, req: &CompletionRequest)
    requires
        req.wf(),
        old(ctx).wf(*req),
    ensures
        final(ctx).wf(*req),
        views(final(ctx).items@) == views(old(ctx).items@) + begin_items(*req),
{
    let ghost prev = ctx.items@;
    if let Some(r) = command_range(ctx, req) {
        proof { reveal_strlit("begin"); }
        assert("begin"@ =~= begin_chars());
        let label = "begin".to_string();
        assert(label@ == begin_chars());
        let mut it = Item::simple(r, ItemKind::BeginCommand, &label);
        it.detail = built_in_detail();
        ctx.items.push(it);
        proof {
            assert(ctx.items@ =~= prev + seq![it]);
            lemma_views_add(prev, seq![it]);
            assert(views(seq![it]) =~= begin_items(*req));
        }
    } else {
        assert(views(ctx.items@) =~= views(ctx.items@) + begin_items(*req));
    }
}

/// The theorem environments that the LaTeX documents among `docs` define, document by document.
pub open spec fn theorem_names(docs: Seq<Document>) -> Seq<String>
    decreases docs.len(),
{
    if docs.len() == 0 {
        Seq::empty()
    } else {
        theorem_names(docs.drop_last()) + match docs.last().content {
            DocumentContent::Latex(t) => t.theorem_definitions@,
            DocumentContent::Bibtex(_) => Seq::empty(),
        }
    }
}

fn append_clones(out: &mut Vec<String>, v: &Vec<String>)
    ensures
        final(out)@ == old(out)@ + v@,
{
    let ghost start = out@;
    let mut i: usize = 0;
    while i < v.len()
        invariant
            i <= v.len(),
            out@ == start + v@.take(i as int),
        decreases v.len() - i,
    {
        out.push(v[i].clone());
        assert(out@ =~= start + v@.take(i + 1));
        i += 1;
    }
    assert(v@.take(v.len() as int) =~= v@);
}

fn collect_theorem_names(docs: &Vec<Document>) -> (r: Vec<String>)
    ensures
        r@ == theorem_names(docs@),
{
    let mut out: Vec<String> = Vec::new();
    let mut i: usize = 0;
    assert(docs@.take(0) =~= Seq::<Document>::empty());
    while i < docs.len()
        invariant
            i <= docs.len(),
            out@ == theorem_names(docs@.take(i as int)),
        decreases docs.len() - i,
    {
        assert(docs@.take(i + 1).drop_last() =~= docs@.take(i as int));
        assert(docs@.take(i + 1).last() == docs@[i as int]);
        if let DocumentContent::Latex(t) = &docs[i].content {
            append_clones(&mut out, &t.theorem_definitions);
        } else {
            assert(out@ =~= out@ + Seq::<String>::empty());
        }
        i += 1;
    }
    assert(docs@.take(docs.len() as int) =~= docs@);
    out
}

/// Theorem environments that the related documents define, in an environment's name slot.
pub open spec fn theorem_items(req: CompletionRequest) -> Seq<ItemView> {
    views_at(range_of(req.environment_range()), ItemKind::UserEnvironment, theorem_names(req.view.related@), Some(user_defined()))
}

pub fn complete_theorem_environments(ctx: &mut CompletionContext, req: &CompletionRequest)
    requires
        req.wf(),
        old(ctx).wf(*req),
    ensures
        final(ctx).wf(*req),
        views(final(ctx).items@) == views(old(ctx).items@) + theorem_items(*req),
{
    if let Some(m) = environment_range(ctx, req) {
        let names = collect_theorem_names(&req.view.related);
        push_names(&mut ctx.items, m.0, ItemKind::UserEnvironment, &names, &user_defined_detail());
    } else {
        assert(views(ctx.items@) =~= views(ctx.items@) + theorem_items(*req));
    }
}

/// The names that an environment gives at its `\begin` and at its `\end`, as candidates.
pub open spec fn environment_views(r: Range, e: EnvironmentInfo) -> Seq<ItemView> {
    (match e.name {
        Some(n) => seq![name_view(r, ItemKind::UserEnvironment, n@, Some(user_defined()))],
        None => Seq::empty(),
    }) + (match e.end_name {
        Some(n) => seq![name_view(r, ItemKind::UserEnvironment, n@, Some(user_defined()))],
        None => Seq::empty(),
    })
}

/// The environments among `es`, but one whose `\begin` or `\end` is the node `skip`.
pub open spec fn environment_views_of(r: Range, es: Seq<EnvironmentInfo>, skip: int) -> Seq<ItemView>
    decreases es.len(),
{
    if es.len() == 0 {
        Seq::empty()
    } else {
        environment_views_of(r, es.drop_last(), skip) + if es.last().begin_node == skip || es.last().end_node == skip {
            Seq::empty()
        } else {
            environment_views(r, es.last())
        }
    }
}

/// The environments of the related LaTeX documents, but the one whose `\begin`
/// or `\end` is being typed (node `node` of the current document).
pub open spec fn user_environment_views(r: Range, docs: Seq<Document>, current: Seq<char>, node: int) -> Seq<ItemView>
    decreases docs.len(),
{
    if docs.len() == 0 {
        Seq::empty()
    } else {
        user_environment_views(r, docs.drop_last(), current, node) + match docs.last().content {
            DocumentContent::Latex(t) => environment_views_of(r, t.environments@, if docs.last().uri@ == current { node } else { -1 }),
            DocumentContent::Bibtex(_) => Seq::empty(),
        }
    }
}

/// Environments that the related documents hold, in an environment's name slot;
/// the environment whose delimiter is being typed is left out.
pub open spec fn user_environment_items(req: CompletionRequest) -> Seq<ItemView> {
    match req.environment_range() {
        Some(m) => user_environment_views(m.0, req.view.related@, req.view.current.uri@, m.1 as int),
        None => Seq::empty(),
    }
}

fn push_name_opt(items: &mut Vec<Item>, r: Range, name: &Option<String>)
    ensures
        views(final(items)@) == views(old(items)@) + match *name {
            Some(n) => seq![name_view(r, ItemKind::UserEnvironment, n@, Some(user_defined()))],
            None => Seq::<ItemView>::empty(),
        },
{
    let ghost prev = items@;
    if let Some(n) = name {
        let mut it = Item::simple(r, ItemKind::UserEnvironment, n);
        it.detail = user_defined_detail();
        items.push(it);
        proof {
            assert(items@ =~= prev + seq![it]);
            lemma_views_add(prev, seq![it]);
            assert(views(seq![it]) =~= seq![name_view(r, ItemKind::UserEnvironment, n@, Some(user_defined()))]);
        }
    } else {
        assert(views(items@) =~= views(prev) + Seq::<ItemView>::empty());
    }
}

pub fn complete_user_environments(ctx: &mut CompletionContext, req: &CompletionRequest)
    requires
        req.wf(),
        old(ctx).wf(*req),
    ensures
        final(ctx).wf(*req),
        views(final(ctx).items@) == views(old(ctx).items@) + user_environment_items(*req),
{
    let m = match environment_range(ctx, req) {
        Some(m) => m,
        None => {
            assert(views(ctx.items@) =~= views(ctx.items@) + user_environment_items(*req));
            return;
        },
    };
    let docs = &req.view.related;
    let ghost start = views(ctx.items@);
    let mut i: usize = 0;
    assert(docs@.take(0) =~= Seq::<Document>::empty());
    while i < docs.len()
        invariant
            i <= docs.len(),
            ctx.wf(*req),
            docs == req.view.related,
            views(ctx.items@) == start + user_environment_views(m.0, docs@.take(i as int), req.view.current.uri@, m.1 as int),
        decreases docs.len() - i,
    {
        assert(docs@.take(i + 1).drop_last() =~= docs@.take(i as int));
        assert(docs@.take(i + 1).last() == docs@[i as int]);
        let ghost before = views(ctx.items@);
        let doc = &docs[i];
        if let DocumentContent::Latex(dt) = &doc.content {
            let current = doc.uri == req.view.current.uri;
            let ghost sk: int = if doc.uri@ == req.view.current.uri@ { m.1 as int } else { -1 };
            let es = &dt.environments;
            let mut j: usize = 0;
            assert(es@.take(0) =~= Seq::<EnvironmentInfo>::empty());
            assert(before =~= before + environment_views_of(m.0, es@.take(0), sk));
            while j < es.len()
                invariant
                    j <= es.len(),
                    ctx.wf(*req),
                    current ==> sk == m.1 as int,
                    !current ==> sk == -1,
                    views(ctx.items@) == before + environment_views_of(m.0, es@.take(j as int), sk),
                decreases es.len() - j,
            {
                assert(es@.take(j + 1).drop_last() =~= es@.take(j as int));
                assert(es@.take(j + 1).last() == es@[j as int]);
                let e = &es[j];
                let skipped = current && (e.begin_node == m.1 || e.end_node == m.1);
                if !skipped {
                    let ghost mid = views(ctx.items@);
                    push_name_opt(&mut ctx.items, m.0, &e.name);
                    push_name_opt(&mut ctx.items, m.0, &e.end_name);
                    assert(views(ctx.items@) =~= mid + environment_views(m.0, *e));
                }
                assert(views(ctx.items@) =~= before + environment_views_of(m.0, es@.take(j + 1), sk));
                j += 1;
            }
            assert(es@.take(es.len() as int) =~= es@);
        }
        assert(views(ctx.items@) =~= start + user_environment_views(m.0, docs@.take(i + 1), req.view.current.uri@, m.1 as int));
        i += 1;
    }
    assert(docs@.take(docs.len() as int) =~= docs@);
}

/// A command of a related document as a candidate: its name without the escape character.
pub open spec fn user_command_view(r: Range, name: Token) -> ItemView {
    let n = name.text@.subrange(1, name.text@.len() as int);
    ItemView { range: r, kind: ItemKind::UserCommand, label: n, text: n, detail: Some(user_defined()), uri: None, preselect: false, score: None }
}

/// The commands among `nodes`, but the one at index `skip`.
pub open spec fn command_views_of(r: Range, nodes: Seq<LatexNode>, skip: int) -> Seq<ItemView>
    decreases nodes.len(),
{
    if nodes.len() == 0 {
        Seq::empty()
    } else {
        command_views_of(r, nodes.drop_last(), skip) + match nodes.last().kind {
            LatexNodeKind::Command(name) => if nodes.len() - 1 != skip {
                seq![user_command_view(r, name)]
            } else {
                Seq::empty()
            },
            _ => Seq::empty(),
        }
    }
}

/// The commands that the related LaTeX documents use, but the one being typed.
pub open spec fn user_command_views(r: Range, docs: Seq<Document>, current: Seq<char>, node: int) -> Seq<ItemView>
    decreases docs.len(),
{
    if docs.len() == 0 {
        Seq::empty()
    } else {
        user_command_views(r, docs.drop_last(), current, node) + match docs.last().content {
            DocumentContent::Latex(t) => command_views_of(r, t.tree.nodes@, if docs.last().uri@ == current { node } else { -1 }),
            DocumentContent::Bibtex(_) => Seq::empty(),
        }
    }
}

/// Commands that the related documents use, where a command name is being typed.
pub open spec fn user_command_items(req: CompletionRequest) -> Seq<ItemView> {
    match req.tree() {
        Some(t) => match first_command_scope(req.scopes(), 0) {
            Some(n) => match t.nodes[n as int].kind {
                LatexNodeKind::Command(name) => user_command_views(short_name_range(name), req.view.related@, req.view.current.uri@, n as int),
                _ => Seq::empty(),
            },
            None => Seq::empty(),
        },
        None => Seq::empty(),
    }
}

fn command_scope_node(ctx: &CompletionContext, req: &CompletionRequest) -> (r: Option<usize>)
    requires
        req.wf(),
        ctx.wf(*req),
    ensures
        req.tree() is Some ==> r == first_command_scope(req.scopes(), 0),
        req.tree() is None ==> r is None,
        r matches Some(n) ==> req.tree() matches Some(t) && n < t.nodes.len() && t.nodes[n as int].kind is Command,
{
    let t = match &req.view.current.content {
        DocumentContent::Latex(t) => &t.tree,
        DocumentContent::Bibtex(_) => return None,
    };
    let mut i: usize = 0;
    while i < ctx.scopes.len()
        invariant
            i <= ctx.scopes.len(),
            req.tree() == Some(*t),
            ctx.wf(*req),
            first_command_scope(ctx.scopes@, 0) == first_command_scope(ctx.scopes@, i as int),
        decreases ctx.scopes.len() - i,
    {
        if let CompletionScope::Command(n) = ctx.scopes[i] {
            assert(scope_wf(*t, ctx.scopes@[i as int]));
            return Some(n);
        }
        i += 1;
    }
    None
}

fn command_name(name: &Token) -> (r: String)
    requires
        name.wf(),
        name.text@.len() >= 1,
    ensures
        r@ == name.text@.subrange(1, name.text@.len() as int),
{
    let s = name.text.as_str();
    let len = s.unicode_len();
    String::from_str(s.substring_char(1, len))
}

pub fn complete_user_commands(ctx: &mut CompletionContext, req: &CompletionRequest)
    requires
        req.wf(),
        old(ctx).wf(*req),
    ensures
        final(ctx).wf(*req),
        views(final(ctx).items@) == views(old(ctx).items@) + user_command_items(*req),
{
    let n = match command_scope_node(ctx, req) {
        Some(n) => n,
        None => {
            assert(views(ctx.items@) =~= views(ctx.items@) + user_command_items(*req));
            return;
        },
    };
    let t = match &req.view.current.content {
        DocumentContent::Latex(t) => &t.tree,
        DocumentContent::Bibtex(_) => return,
    };
    assert(t.nodes@[n as int].wf());
    let r = match &t.nodes[n].kind {
        LatexNodeKind::Command(name) => short_name_range_of(name),
        _ => return,
    };
    let docs = &req.view.related;
    let ghost start = views(ctx.items@);
    let mut i: usize = 0;
    assert(docs@.take(0) =~= Seq::<Document>::empty());
    while i < docs.len()
        invariant
            i <= docs.len(),
            ctx.wf(*req),
            req.wf(),
            docs == req.view.related,
            views(ctx.items@) == start + user_command_views(r, docs@.take(i as int), req.view.current.uri@, n as int),
        decreases docs.len() - i,
    {
        assert(docs@.take(i + 1).drop_last() =~= docs@.take(i as int));
        assert(docs@.take(i + 1).last() == docs@[i as int]);
        let ghost before = views(ctx.items@);
        let doc = &docs[i];
        if let DocumentContent::Latex(dt) = &doc.content {
            assert(dt.tree.wf());
            let skip: Option<usize> = if doc.uri == req.view.current.uri { Some(n) } else { None };
            let ghost sk: int = if doc.uri@ == req.view.current.uri@ { n as int } else { -1 };
            let nodes = &dt.tree.nodes;
            let mut j: usize = 0;
            assert(nodes@.take(0) =~= Seq::<LatexNode>::empty());
            assert(before =~= before + command_views_of(r, nodes@.take(0), sk));
            while j < nodes.len()
                invariant
                    j <= nodes.len(),
                    ctx.wf(*req),
                    dt.tree.wf(),
                    nodes == dt.tree.nodes,
                    skip matches Some(x) ==> sk == x,
                    skip is None ==> sk == -1,
                    views(ctx.items@) == before + command_views_of(r, nodes@.take(j as int), sk),
                decreases nodes.len() - j,
            {
                assert(nodes@.take(j + 1).drop_last() =~= nodes@.take(j as int));
                assert(nodes@.take(j + 1).last() == nodes@[j as int]);
                let ghost prev = ctx.items@;
                assert(nodes@[j as int].wf());
                if let LatexNodeKind::Command(name) = &nodes[j].kind {
                    let skipped = match skip { Some(x) => x == j, None => false };
                    if !skipped {
                        let label = command_name(name);
                        let mut it = Item::new(r, ItemKind::UserCommand, label.clone(), label);
                        it.detail = user_defined_detail();
                        ctx.items.push(it);
                        proof {
                            assert(ctx.items@ =~= prev + seq![it]);
                            lemma_views_add(prev, seq![it]);
                            assert(views(seq![it]) =~= seq![user_command_view(r, *name)]);
                        }
                    }
                }
                assert(views(ctx.items@) =~= before + command_views_of(r, nodes@.take(j + 1), sk));
                j += 1;
            }
            assert(nodes@.take(nodes.len() as int) =~= nodes@);
        }
        assert(views(ctx.items@) =~= start + user_command_views(r, docs@.take(i + 1), req.view.current.uri@, n as int));
        i += 1;
    }
    assert(docs@.take(docs.len() as int) =~= docs@);
}

/// The commands of the components `cs`, component by component.
pub open spec fn component_command_names(db: ComponentDatabase, cs: Seq<usize>) -> Seq<String>
    decreases cs.len(),
{
    if cs.len() == 0 {
        Seq::empty()
    } else {
        component_command_names(db, cs.drop_last())
            + db.components[cs.last() as int].commands@.map_values(|c: ComponentCommand| c.name)
    }
}

fn collect_component_names(db: &ComponentDatabase, cs: &Vec<usize>) -> (r: Vec<String>)
    requires
        forall|k: int| 0 <= k < cs.len() ==> #[trigger] cs@[k] < db.components.len(),
    ensures
        r@ == component_command_names(*db, cs@),
{
    let mut out: Vec<String> = Vec::new();
    let mut i: usize = 0;
    assert(cs@.take(0) =~= Seq::<usize>::empty());
    while i < cs.len()
        invariant
            i <= cs.len(),
            forall|k: int| 0 <= k < cs.len() ==> #[trigger] cs@[k] < db.components.len(),
            out@ == component_command_names(*db, cs@.take(i as int)),
        decreases cs.len() - i,
    {
        assert(cs@.take(i + 1).drop_last() =~= cs@.take(i as int));
        assert(cs@.take(i + 1).last() == cs@[i as int]);
        let c = &db.components[cs[i]];
        let ghost start = out@;
        let mut j: usize = 0;
        while j < c.commands.len()
            invariant
                j <= c.commands.len(),
                out@ == start + c.commands@.take(j as int).map_values(|c: ComponentCommand| c.name),
            decreases c.commands.len() - j,
        {
            out.push(c.commands[j].name.clone());
            assert(out@ =~= start + c.commands@.take(j + 1).map_values(|c: ComponentCommand| c.name));
            j += 1;
        }
        assert(c.commands@.take(c.commands.len() as int) =~= c.commands@);
        i += 1;
    }
    assert(cs@.take(cs.len() as int) =~= cs@);
    out
}

/// The files of a component joined by commas.
pub open spec fn joined(fs: Seq<String>) -> Seq<char>
    decreases fs.len(),
{
    if fs.len() == 0 {
        Seq::empty()
    } else if fs.len() == 1 {
        fs[0]@
    } else {
        joined(fs.drop_last()) + seq![',', ' '] + fs.last()@
    }
}

/// The detail of what a component provides: its files, or built in where it has none.
pub open spec fn component_detail(fs: Seq<String>) -> Seq<char> {
    if fs.len() == 0 {
        built_in()
    } else {
        joined(fs)
    }
}

fn component_detail_exec(fs: &Vec<String>) -> (r: Option<String>)
    ensures
        opt_view(r) == Some(component_detail(fs@)),
{
    if fs.len() == 0 {
        return built_in_detail();
    }
    let mut out = String::new();
    let mut i: usize = 0;
    assert(fs@.take(0) =~= Seq::<String>::empty());
    while i < fs.len()
        invariant
            i <= fs.len(),
            fs.len() > 0,
            out@ == joined(fs@.take(i as int)),
        decreases fs.len() - i,
    {
        assert(fs@.take(i + 1).drop_last() =~= fs@.take(i as int));
        assert(fs@.take(i + 1).last() == fs@[i as int]);
        if i > 0 {
            push_char(&mut out, ',');
            push_char(&mut out, ' ');
        }
        out.append(fs[i].as_str());
        if i == 0 {
            assert(out@ =~= joined(fs@.take(1)));
        } else {
            assert(out@ =~= joined(fs@.take(i + 1)));
        }
        i += 1;
    }
    assert(fs@.take(fs.len() as int) =~= fs@);
    Some(out)
}

pub open spec fn command_names(cmds: Seq<ComponentCommand>) -> Seq<String> {
    cmds.map_values(|c: ComponentCommand| c.name)
}

/// The commands, or the environments, of the components `cs`, component by
/// component, each with its component's files as detail.
pub open spec fn component_views(r: Range, db: ComponentDatabase, cs: Seq<usize>, environments: bool) -> Seq<ItemView>
    decreases cs.len(),
{
    if cs.len() == 0 {
        Seq::empty()
    } else {
        let c = db.components[cs.last() as int];
        component_views(r, db, cs.drop_last(), environments) + if environments {
            names_views(r, ItemKind::ComponentEnvironment, c.environments@, Some(component_detail(c.file_names@)))
        } else {
            names_views(r, ItemKind::ComponentCommand, command_names(c.commands@), Some(component_detail(c.file_names@)))
        }
    }
}

fn push_component_items(items: &mut Vec<Item>, r: Range, db: &ComponentDatabase, cs: &Vec<usize>, environments: bool)
    requires
        forall|k: int| 0 <= k < cs.len() ==> #[trigger] cs@[k] < db.components.len(),
    ensures
        views(final(items)@) == views(old(items)@) + component_views(r, *db, cs@, environments),
{
    let ghost start = views(items@);
    let mut i: usize = 0;
    assert(cs@.take(0) =~= Seq::<usize>::empty());
    assert(start =~= start + component_views(r, *db, cs@.take(0), environments));
    while i < cs.len()
        invariant
            i <= cs.len(),
            forall|k: int| 0 <= k < cs.len() ==> #[trigger] cs@[k] < db.components.len(),
            views(items@) == start + component_views(r, *db, cs@.take(i as int), environments),
        decreases cs.len() - i,
    {
        assert(cs@.take(i + 1).drop_last() =~= cs@.take(i as int));
        assert(cs@.take(i + 1).last() == cs@[i as int]);
        let c = &db.components[cs[i]];
        let detail = component_detail_exec(&c.file_names);
        if environments {
            push_names(items, r, ItemKind::ComponentEnvironment, &c.environments, &detail);
        } else {
            let mut names: Vec<String> = Vec::new();
            let mut j: usize = 0;
            while j < c.commands.len()
                invariant
                    j <= c.commands.len(),
                    names@ == command_names(c.commands@.take(j as int)),
                decreases c.commands.len() - j,
            {
                names.push(c.commands[j].name.clone());
                assert(names@ =~= command_names(c.commands@.take(j + 1)));
                j += 1;
            }
            assert(c.commands@.take(c.commands.len() as int) =~= c.commands@);
            push_names(items, r, ItemKind::ComponentCommand, &names, &detail);
        }
        assert(views(items@) =~= start + component_views(r, *db, cs@.take(i + 1), environments));
        i += 1;
    }
    assert(cs@.take(cs.len() as int) =~= cs@);
}

/// Commands of the loaded components, where a command name is being typed.
pub open spec fn component_command_items(req: CompletionRequest) -> Seq<ItemView> {
    match req.command_range() {
        Some(r) => component_views(r, req.db, req.view.components@, false),
        None => Seq::empty(),
    }
}

pub fn complete_component_commands(ctx: &mut CompletionContext, req: &CompletionRequest)
    requires
        req.wf(),
        old(ctx).wf(*req),
    ensures
        final(ctx).wf(*req),
        views(final(ctx).items@) == views(old(ctx).items@) + component_command_items(*req),
{
    if let Some(r) = command_range(ctx, req) {
        push_component_items(&mut ctx.items, r, &req.db, &req.view.components, false);
    } else {
        assert(views(ctx.items@) =~= views(ctx.items@) + component_command_items(*req));
    }
}

/// Environments of the loaded components, in an environment's name slot.
pub open spec fn component_environment_items(req: CompletionRequest) -> Seq<ItemView> {
    match range_of(req.environment_range()) {
        Some(r) => component_views(r, req.db, req.view.components@, true),
        None => Seq::empty(),
    }
}

pub fn complete_component_environments(ctx: &mut CompletionContext, req: &CompletionRequest)
    requires
        req.wf(),
        old(ctx).wf(*req),
    ensures
        final(ctx).wf(*req),
        views(final(ctx).items@) == views(old(ctx).items@) + component_environment_items(*req),
{
    if let Some(m) = environment_range(ctx, req) {
        push_component_items(&mut ctx.items, m.0, &req.db, &req.view.components, true);
    } else {
        assert(views(ctx.items@) =~= views(ctx.items@) + component_environment_items(*req));
    }
}

/// The glossary entries that a reference may name: every entry, or only
/// acronyms where the reference is restricted to them.
pub open spec fn glossary_filter(es: Seq<GlossaryEntryDef>, restricted: bool) -> Seq<String>
    decreases es.len(),
{
    if es.len() == 0 {
        Seq::empty()
    } else {
        glossary_filter(es.drop_last(), restricted) + if !restricted || es.last().acronym {
            seq![es.last().name]
        } else {
            Seq::empty()
        }
    }
}

pub open spec fn glossary_names(docs: Seq<Document>, restricted: bool) -> Seq<String>
    decreases docs.len(),
{
    if docs.len() == 0 {
        Seq::empty()
    } else {
        glossary_names(docs.drop_last(), restricted) + match docs.last().content {
            DocumentContent::Latex(t) => glossary_filter(t.glossary_entries@, restricted),
            DocumentContent::Bibtex(_) => Seq::empty(),
        }
    }
}

fn collect_glossary(docs: &Vec<Document>, restricted: bool) -> (r: Vec<String>)
    ensures
        r@ == glossary_names(docs@, restricted),
{
    let mut out: Vec<String> = Vec::new();
    let mut i: usize = 0;
    assert(docs@.take(0) =~= Seq::<Document>::empty());
    while i < docs.len()
        invariant
            i <= docs.len(),
            out@ == glossary_names(docs@.take(i as int), restricted),
        decreases docs.len() - i,
    {
        assert(docs@.take(i + 1).drop_last() =~= docs@.take(i as int));
        assert(docs@.take(i + 1).last() == docs@[i as int]);
        if let DocumentContent::Latex(t) = &docs[i].content {
            let es = &t.glossary_entries;
            let ghost start = out@;
            let mut j: usize = 0;
            assert(es@.take(0) =~= Seq::<GlossaryEntryDef>::empty());
            while j < es.len()
                invariant
                    j <= es.len(),
                    out@ == start + glossary_filter(es@.take(j as int), restricted),
                decreases es.len() - j,
            {
                assert(es@.take(j + 1).drop_last() =~= es@.take(j as int));
                assert(es@.take(j + 1).last() == es@[j as int]);
                if !restricted || es[j].acronym {
                    out.push(es[j].name.clone());
                }
                assert(out@ =~= start + glossary_filter(es@.take(j + 1), restricted));
                j += 1;
            }
            assert(es@.take(es.len() as int) =~= es@);
        } else {
            assert(out@ =~= out@ + Seq::<String>::empty());
        }
        i += 1;
    }
    assert(docs@.take(docs.len() as int) =~= docs@);
    out
}

/// Glossary entries of the related documents, in a glossary reference.
pub open spec fn glossary_items(req: CompletionRequest) -> Seq<ItemView> {
    let sigs = req.data.glossary_reference_commands@;
    match req.argument_range(sigs) {
        Some(m) => names_views(m.0, ItemKind::GlossaryEntry, glossary_names(req.view.related@, sigs[m.1].restricted), None),
        None => Seq::empty(),
    }
}

pub fn complete_glossary_entries(ctx: &mut CompletionContext, req: &CompletionRequest)
    requires
        req.wf(),
        old(ctx).wf(*req),
    ensures
        final(ctx).wf(*req),
        views(final(ctx).items@) == views(old(ctx).items@) + glossary_items(*req),
{
    if let Some(m) = argument_range(ctx, req, &req.data.glossary_reference_commands) {
        let names = collect_glossary(&req.view.related, req.data.glossary_reference_commands[m.1].restricted);
        push_names(&mut ctx.items, m.0, ItemKind::GlossaryEntry, &names, &None);
    } else {
        assert(views(ctx.items@) =~= views(ctx.items@) + glossary_items(*req));
    }
}

/// The environment's name is one of the math environments.
pub open spec fn is_math_environment(e: EnvironmentInfo, math: Seq<String>) -> bool {
    match e.name {
        Some(n) => has_file(math, n@),
        None => false,
    }
}

/// A label that a reference may name: any, or, where the reference is
/// restricted to equations, one that a math environment holds.
pub open spec fn is_included(envs: Seq<EnvironmentInfo>, math: Seq<String>, l: LabelDef, restricted: bool) -> bool {
    !restricted || exists|k: int| 0 <= k < envs.len() && is_math_environment(#[trigger] envs[k], math)
        && envs[k].range.spec_contains_exclusive(l.range.start)
}

pub open spec fn label_view(r: Range, l: LabelDef) -> ItemView {
    ItemView {
        range: r,
        kind: ItemKind::Label(l.kind),
        label: l.name@,
        text: label_text_spec(l.name@, l.descriptor),
        detail: opt_view(l.header),
        uri: None,
        preselect: false,
        score: None,
    }
}

pub open spec fn label_views_of(r: Range, envs: Seq<EnvironmentInfo>, math: Seq<String>, ls: Seq<LabelDef>, restricted: bool) -> Seq<ItemView>
    decreases ls.len(),
{
    if ls.len() == 0 {
        Seq::empty()
    } else {
        label_views_of(r, envs, math, ls.drop_last(), restricted) + if is_included(envs, math, ls.last(), restricted) {
            seq![label_view(r, ls.last())]
        } else {
            Seq::empty()
        }
    }
}

/// One candidate per included label of each related document; labels of the
/// same name in different documents each give their own candidate.
pub open spec fn label_views(r: Range, docs: Seq<Document>, math: Seq<String>, restricted: bool) -> Seq<ItemView>
    decreases docs.len(),
{
    if docs.len() == 0 {
        Seq::empty()
    } else {
        label_views(r, docs.drop_last(), math, restricted) + match docs.last().content {
            DocumentContent::Latex(t) => label_views_of(r, t.environments@, math, t.labels@, restricted),
            DocumentContent::Bibtex(_) => Seq::empty(),
        }
    }
}

/// Labels of the related documents, in a label reference.
pub open spec fn label_items(req: CompletionRequest) -> Seq<ItemView> {
    let sigs = req.data.label_reference_commands@;
    match req.argument_range(sigs) {
        Some(m) => label_views(m.0, req.view.related@, req.data.math_environments@, sigs[m.1].restricted),
        None => Seq::empty(),
    }
}

fn is_included_exec(envs: &Vec<EnvironmentInfo>, math: &Vec<String>, l: &LabelDef, restricted: bool) -> (r: bool)
    ensures
        r == is_included(envs@, math@, *l, restricted),
{
    if !restricted {
        return true;
    }
    let mut k: usize = 0;
    while k < envs.len()
        invariant
            k <= envs.len(),
            forall|j: int| 0 <= j < k ==> !(is_math_environment(#[trigger] envs@[j], math@)
                && envs@[j].range.spec_contains_exclusive(l.range.start)),
        decreases envs.len() - k,
    {
        let e = &envs[k];
        let math_env = match &e.name {
            Some(n) => contains_string(math, n),
            None => false,
        };
        if math_env && e.range.contains_exclusive(l.range.start) {
            return true;
        }
        k += 1;
    }
    false
}

pub fn complete_labels(ctx: &mut CompletionContext, req: &CompletionRequest)
    requires
        req.wf(),
        old(ctx).wf(*req),
    ensures
        final(ctx).wf(*req),
        views(final(ctx).items@) == views(old(ctx).items@) + label_items(*req),
{
    let m = match argument_range(ctx, req, &req.data.label_reference_commands) {
        Some(m) => m,
        None => {
            assert(views(ctx.items@) =~= views(ctx.items@) + label_items(*req));
            return;
        },
    };
    let restricted = req.data.label_reference_commands[m.1].restricted;
    let docs = &req.view.related;
    let ghost start = views(ctx.items@);
    let mut i: usize = 0;
    assert(docs@.take(0) =~= Seq::<Document>::empty());
    while i < docs.len()
        invariant
            i <= docs.len(),
            ctx.wf(*req),
            views(ctx.items@) == start + label_views(m.0, docs@.take(i as int), req.data.math_environments@, restricted),
        decreases docs.len() - i,
    {
        assert(docs@.take(i + 1).drop_last() =~= docs@.take(i as int));
        assert(docs@.take(i + 1).last() == docs@[i as int]);
        let ghost before = views(ctx.items@);
        if let DocumentContent::Latex(t) = &docs[i].content {
            let ls = &t.labels;
            let mut j: usize = 0;
            assert(ls@.take(0) =~= Seq::<LabelDef>::empty());
            let envs = &t.environments;
            let math = &req.data.math_environments;
            assert(before =~= before + label_views_of(m.0, envs@, math@, ls@.take(0), restricted));
            while j < ls.len()
                invariant
                    j <= ls.len(),
                    ctx.wf(*req),
                    envs == t.environments,
                    math == req.data.math_environments,
                    views(ctx.items@) == before + label_views_of(m.0, envs@, math@, ls@.take(j as int), restricted),
                decreases ls.len() - j,
            {
                assert(ls@.take(j + 1).drop_last() =~= ls@.take(j as int));
                assert(ls@.take(j + 1).last() == ls@[j as int]);
                let ghost prev = ctx.items@;
                if is_included_exec(envs, math, &ls[j], restricted) {
                    let text = label_text(&ls[j].name, &ls[j].descriptor);
                    let mut it = Item::new(m.0, ItemKind::Label(ls[j].kind), ls[j].name.clone(), text);
                    it.detail = match &ls[j].header {
                        Some(h) => Some(h.clone()),
                        None => None,
                    };
                    ctx.items.push(it);
                    proof {
                        assert(ctx.items@ =~= prev + seq![it]);
                        lemma_views_add(prev, seq![it]);
                        assert(views(seq![it]) =~= seq![label_view(m.0, ls@[j as int])]);
                    }
                }
                let ghost lv = label_views_of(m.0, envs@, math@, ls@.take(j + 1), restricted);
                assert(lv == label_views_of(m.0, envs@, math@, ls@.take(j as int), restricted) + if is_included(envs@, math@, ls@[j as int], restricted) {
                    seq![label_view(m.0, ls@[j as int])]
                } else {
                    Seq::<ItemView>::empty()
                });
                assert(views(ctx.items@) =~= before + lv);
                j += 1;
            }
            assert(ls@.take(ls.len() as int) =~= ls@);
        }
        assert(views(ctx.items@) =~= start + label_views(m.0, docs@.take(i + 1), req.data.math_environments@, restricted));
        i += 1;
    }
    assert(docs@.take(docs.len() as int) =~= docs@);
}


pub open spec fn citation_view(r: Range, uri: Seq<char>, d: BibDecl) -> ItemView {
    let key = match d.key {
        Some(k) => k.text@,
        None => Seq::empty(),
    };
    ItemView {
        range: r,
        kind: ItemKind::Citation,
        label: key,
        text: citation_text_spec(key, d.code@),
        detail: None,
        uri: Some(uri),
        preselect: false,
        score: None,
    }
}

/// The declaration is an entry with a key: one that can be cited.
pub open spec fn is_citable(d: BibDecl) -> bool {
    d.kind == BibDeclKind::Entry && d.key is Some
}

pub open spec fn citation_views_of(r: Range, uri: Seq<char>, ds: Seq<BibDecl>) -> Seq<ItemView>
    decreases ds.len(),
{
    if ds.len() == 0 {
        Seq::empty()
    } else {
        citation_views_of(r, uri, ds.drop_last()) + if is_citable(ds.last()) {
            seq![citation_view(r, uri, ds.last())]
        } else {
            Seq::empty()
        }
    }
}

/// One candidate per citable entry of each related bibliography.
pub open spec fn citation_views(r: Range, docs: Seq<Document>) -> Seq<ItemView>
    decreases docs.len(),
{
    if docs.len() == 0 {
        Seq::empty()
    } else {
        citation_views(r, docs.drop_last()) + match docs.last().content {
            DocumentContent::Bibtex(b) => citation_views_of(r, docs.last().uri@, b.decls@),
            DocumentContent::Latex(_) => Seq::empty(),
        }
    }
}

/// Entries of the related bibliographies, in a citation's key list.
pub open spec fn citation_items(req: CompletionRequest) -> Seq<ItemView> {
    match req.argument_range(req.data.citation_commands@) {
        Some(m) => citation_views(m.0, req.view.related@),
        None => Seq::empty(),
    }
}

pub fn complete_citations(ctx: &mut CompletionContext, req: &CompletionRequest)
    requires
        req.wf(),
        old(ctx).wf(*req),
    ensures
        final(ctx).wf(*req),
        views(final(ctx).items@) == views(old(ctx).items@) + citation_items(*req),
{
    let m = match argument_range(ctx, req, &req.data.citation_commands) {
        Some(m) => m,
        None => {
            assert(views(ctx.items@) =~= views(ctx.items@) + citation_items(*req));
            return;
        },
    };
    let docs = &req.view.related;
    let ghost start = views(ctx.items@);
    let mut i: usize = 0;
    assert(docs@.take(0) =~= Seq::<Document>::empty());
    while i < docs.len()
        invariant
            i <= docs.len(),
            ctx.wf(*req),
            views(ctx.items@) == start + citation_views(m.0, docs@.take(i as int)),
        decreases docs.len() - i,
    {
        assert(docs@.take(i + 1).drop_last() =~= docs@.take(i as int));
        assert(docs@.take(i + 1).last() == docs@[i as int]);
        let ghost before = views(ctx.items@);
        let doc = &docs[i];
        if let DocumentContent::Bibtex(b) = &doc.content {
            let ds = &b.decls;
            let mut j: usize = 0;
            assert(ds@.take(0) =~= Seq::<BibDecl>::empty());
            assert(before =~= before + citation_views_of(m.0, doc.uri@, ds@.take(0)));
            while j < ds.len()
                invariant
                    j <= ds.len(),
                    ctx.wf(*req),
                    views(ctx.items@) == before + citation_views_of(m.0, doc.uri@, ds@.take(j as int)),
                decreases ds.len() - j,
            {
                assert(ds@.take(j + 1).drop_last() =~= ds@.take(j as int));
                assert(ds@.take(j + 1).last() == ds@[j as int]);
                let ghost prev = ctx.items@;
                let d = &ds[j];
                if d.kind == BibDeclKind::Entry {
                    if let Some(key) = &d.key {
                        let text = citation_text(key.text.as_str(), d.code.as_str());
                        let mut it = Item::new(m.0, ItemKind::Citation, key.text.clone(), text);
                        it.uri = Some(doc.uri.clone());
                        ctx.items.push(it);
                        proof {
                            assert(ctx.items@ =~= prev + seq![it]);
                            lemma_views_add(prev, seq![it]);
                            assert(views(seq![it]) =~= seq![citation_view(m.0, doc.uri@, *d)]);
                        }
                    }
                }
                let ghost cv = citation_views_of(m.0, doc.uri@, ds@.take(j + 1));
                assert(cv == citation_views_of(m.0, doc.uri@, ds@.take(j as int)) + if is_citable(ds@[j as int]) {
                    seq![citation_view(m.0, doc.uri@, ds@[j as int])]
                } else {
                    Seq::<ItemView>::empty()
                });
                assert(views(ctx.items@) =~= before + cv);
                j += 1;
            }
            assert(ds@.take(ds.len() as int) =~= ds@);
        }
        assert(views(ctx.items@) =~= start + citation_views(m.0, docs@.take(i + 1)));
        i += 1;
    }
    assert(docs@.take(docs.len() as int) =~= docs@);
}

/// The declaration's type holds the cursor, past its `@`.
pub open spec fn type_hit(d: BibDecl, p: Position) -> bool {
    d.ty.range.spec_contains(p) && d.ty.range.start.character != p.character
}

pub open spec fn first_type_hit(ds: Seq<BibDecl>, p: Position, i: int) -> Option<usize>
    decreases ds.len() - i,
{
    if i < 0 || i >= ds.len() {
        None
    } else if type_hit(ds[i], p) {
        Some(i as usize)
    } else {
        first_type_hit(ds, p, i + 1)
    }
}

/// Entry types, where the type of a BibTeX declaration is being typed; the
/// range leaves out the `@`.
pub open spec fn entry_type_items(req: CompletionRequest) -> Seq<ItemView> {
    match req.view.current.content {
        DocumentContent::Bibtex(b) => match first_type_hit(b.decls@, req.position, 0) {
            Some(i) => names_views(short_name_range(b.decls[i as int].ty), ItemKind::EntryType, req.data.entry_types@, None),
            None => Seq::empty(),
        },
        DocumentContent::Latex(_) => Seq::empty(),
    }
}

fn find_type_hit(ds: &Vec<BibDecl>, p: Position) -> (r: Option<usize>)
    ensures
        r == first_type_hit(ds@, p, 0),
        r matches Some(i) ==> i < ds.len(),
{
    let mut i: usize = 0;
    while i < ds.len()
        invariant
            i <= ds.len(),
            first_type_hit(ds@, p, 0) == first_type_hit(ds@, p, i as int),
        decreases ds.len() - i,
    {
        let ty = &ds[i].ty;
        if ty.range.contains(p) && ty.range.start.character != p.character {
            return Some(i);
        }
        i += 1;
    }
    None
}

pub fn complete_entry_types(ctx: &mut CompletionContext, req: &CompletionRequest)
    requires
        req.wf(),
        old(ctx).wf(*req),
    ensures
        final(ctx).wf(*req),
        views(final(ctx).items@) == views(old(ctx).items@) + entry_type_items(*req),
{
    if let DocumentContent::Bibtex(b) = &req.view.current.content {
        if let Some(i) = find_type_hit(&b.decls, req.position) {
            let ty = &b.decls[i].ty;
            assert(b.decls@[i as int].ty.wf());
            let r = short_name_range_of(ty);
            push_names(&mut ctx.items, r, ItemKind::EntryType, &req.data.entry_types, &None);
            return;
        }
    }
    assert(views(ctx.items@) =~= views(ctx.items@) + entry_type_items(*req));
}


/// `f` ends with `ext`.
pub open spec fn ends_with(f: Seq<char>, ext: Seq<char>) -> bool {
    f.len() >= ext.len() && f.subrange(f.len() - ext.len(), f.len() as int) == ext
}

pub open spec fn package_ext() -> Seq<char> {
    seq!['.', 's', 't', 'y']
}

pub open spec fn class_ext() -> Seq<char> {
    seq!['.', 'c', 'l', 's']
}

/// A file name without its four-character extension.
pub open spec fn stem(f: Seq<char>) -> Seq<char> {
    f.subrange(0, f.len() - 4)
}

/// The stems of the files among `fs` that have the extension `ext`, each
/// stem once, in the order in which it first comes.
pub open spec fn import_stems(fs: Seq<String>, ext: Seq<char>) -> Seq<Seq<char>>
    decreases fs.len(),
{
    if fs.len() == 0 {
        Seq::empty()
    } else {
        let prev = import_stems(fs.drop_last(), ext);
        let f = fs.last()@;
        if ends_with(f, ext) && !prev.contains(stem(f)) {
            prev.push(stem(f))
        } else {
            prev
        }
    }
}

/// The files of the components `cs`, component by component.
pub open spec fn database_files(cs: Seq<Component>) -> Seq<String>
    decreases cs.len(),
{
    if cs.len() == 0 {
        Seq::empty()
    } else {
        database_files(cs.drop_last()) + cs.last().file_names@
    }
}

/// Classes or packages, in the argument of a command that loads one: the files
/// of the component database, then those of the resolver, deduplicated by stem.
pub open spec fn import_items(req: CompletionRequest, classes: bool) -> Seq<ItemView> {
    let sigs = if classes { req.data.class_commands@ } else { req.data.package_commands@ };
    let kind = if classes { ItemKind::Class } else { ItemKind::Package };
    let ext = if classes { class_ext() } else { package_ext() };
    match req.argument_range(sigs) {
        Some(m) => import_stems(database_files(req.db.components@) + req.resolver_files@, ext)
            .map_values(|s: Seq<char>| name_view(m.0, kind, s, None)),
        None => Seq::empty(),
    }
}

/// No stem comes twice.
pub proof fn lemma_import_stems_unique(fs: Seq<String>, ext: Seq<char>)
    ensures
        import_stems(fs, ext).no_duplicates(),
    decreases fs.len(),
{
    if fs.len() > 0 {
        lemma_import_stems_unique(fs.drop_last(), ext);
        let prev = import_stems(fs.drop_last(), ext);
        let f = fs.last()@;
        if ends_with(f, ext) && !prev.contains(stem(f)) {
            let e = prev.push(stem(f));
            assert forall|a: int, b: int| 0 <= a < e.len() && 0 <= b < e.len() && a != b implies e[a] != e[b] by {
                if a < prev.len() && b < prev.len() {
                    assert(e[a] == prev[a] && e[b] == prev[b]);
                } else if a < prev.len() {
                    assert(e[a] == prev[a]);
                } else {
                    assert(e[b] == prev[b]);
                }
            }
        }
    }
}

fn ends_with_exec(f: &str, ext: &str) -> (r: bool)
    ensures
        r == ends_with(f@, ext@),
{
    let fl = f.unicode_len();
    let el = ext.unicode_len();
    if fl < el {
        return false;
    }
    let mut i: usize = 0;
    while i < el
        invariant
            fl == f@.len(),
            el == ext@.len(),
            fl >= el,
            i <= el,
            forall|j: int| 0 <= j < i ==> f@[fl - el + j] == ext@[j],
        decreases el - i,
    {
        if f.get_char(fl - el + i) != ext.get_char(i) {
            assert(f@.subrange(fl - el, fl as int)[i as int] != ext@[i as int]);
            return false;
        }
        i += 1;
    }
    assert(f@.subrange(fl - el, fl as int) =~= ext@);
    true
}

fn import_stem_list(fs: &Vec<String>, ext: &str) -> (r: Vec<String>)
    requires
        ext@.len() == 4,
    ensures
        r@.map_values(|s: String| s@) == import_stems(fs@, ext@),
{
    let mut out: Vec<String> = Vec::new();
    let mut j: usize = 0;
    assert(fs@.take(0) =~= Seq::<String>::empty());
    assert(out@.map_values(|s: String| s@) =~= import_stems(fs@.take(0), ext@));
    while j < fs.len()
        invariant
            j <= fs.len(),
            ext@.len() == 4,
            out@.map_values(|s: String| s@) == import_stems(fs@.take(j as int), ext@),
        decreases fs.len() - j,
    {
        assert(fs@.take(j + 1).drop_last() =~= fs@.take(j as int));
        assert(fs@.take(j + 1).last() == fs@[j as int]);
        let ghost prev = import_stems(fs@.take(j as int), ext@);
        let f = &fs[j];
        if ends_with_exec(f.as_str(), ext) {
            let s = f.as_str();
            let len = s.unicode_len();
            let st = String::from_str(s.substring_char(0, len - 4));
            let seen = contains_string(&out, &st);
            assert(seen == prev.contains(st@)) by {
                if seen {
                    let k = choose|k: int| 0 <= k < out@.len() && (#[trigger] out@[k])@ == st@;
                    assert(prev[k] == out@[k]@);
                }
                if prev.contains(st@) {
                    let k = choose|k: int| 0 <= k < prev.len() && prev[k] == st@;
                    assert(out@.map_values(|s: String| s@)[k] == out@[k]@);
                }
            }
            if !seen {
                let ghost before = out@;
                out.push(st);
                assert(out@.map_values(|s: String| s@) =~= before.map_values(|s: String| s@).push(st@));
            }
        }
        assert(out@.map_values(|s: String| s@) =~= import_stems(fs@.take(j + 1), ext@));
        j += 1;
    }
    assert(fs@.take(fs.len() as int) =~= fs@);
    out
}

fn complete_imports(ctx: &mut CompletionContext, req: &CompletionRequest, classes: bool)
    requires
        req.wf(),
        old(ctx).wf(*req),
    ensures
        final(ctx).wf(*req),
        views(final(ctx).items@) == views(old(ctx).items@) + import_items(*req, classes),
        forall|a: int, b: int| 0 <= a < b < import_items(*req, classes).len()
            ==> (#[trigger] import_items(*req, classes)[a]).label != (#[trigger] import_items(*req, classes)[b]).label,
{
    let sigs = if classes { &req.data.class_commands } else { &req.data.package_commands };
    let kind = if classes { ItemKind::Class } else { ItemKind::Package };
    let ext = if classes { ".cls" } else { ".sty" };
    proof {
        reveal_strlit(".cls");
        reveal_strlit(".sty");
    }
    assert(ext@ == if classes { class_ext() } else { package_ext() });
    let m = match argument_range(ctx, req, sigs) {
        Some(m) => m,
        None => {
            assert(views(ctx.items@) =~= views(ctx.items@) + import_items(*req, classes));
            return;
        },
    };
    let cs = &req.db.components;
    let mut files: Vec<String> = Vec::new();
    let mut i: usize = 0;
    assert(cs@.take(0) =~= Seq::<Component>::empty());
    while i < cs.len()
        invariant
            i <= cs.len(),
            files@ == database_files(cs@.take(i as int)),
        decreases cs.len() - i,
    {
        assert(cs@.take(i + 1).drop_last() =~= cs@.take(i as int));
        assert(cs@.take(i + 1).last() == cs@[i as int]);
        append_clones(&mut files, &cs[i].file_names);
        i += 1;
    }
    assert(cs@.take(cs.len() as int) =~= cs@);
    append_clones(&mut files, &req.resolver_files);
    let stems = import_stem_list(&files, ext);
    let ghost st = import_stems(files@, ext@);
    push_names(&mut ctx.items, m.0, kind, &stems, &None);
    assert(names_views(m.0, kind, stems@, None) =~= st.map_values(|s: Seq<char>| name_view(m.0, kind, s, None))) by {
        assert forall|k: int| 0 <= k < stems@.len() implies stems@[k]@ == st[k] by {
            assert(stems@.map_values(|s: String| s@)[k] == stems@[k]@);
        }
    }
    proof {
        lemma_import_stems_unique(files@, ext@);
        let v = import_items(*req, classes);
        assert forall|a: int, b: int| 0 <= a < b < v.len() implies (#[trigger] v[a]).label != (#[trigger] v[b]).label by {
            assert(v[a].label == st[a] && v[b].label == st[b]);
        }
    }
}

/// Document classes, in the argument of `\documentclass` and its kin.
pub fn complete_classes(ctx: &mut CompletionContext, req: &CompletionRequest)
    requires
        req.wf(),
        old(ctx).wf(*req),
    ensures
        final(ctx).wf(*req),
        views(final(ctx).items@) == views(old(ctx).items@) + import_items(*req, true),
        forall|a: int, b: int| 0 <= a < b < import_items(*req, true).len()
            ==> (#[trigger] import_items(*req, true)[a]).label != (#[trigger] import_items(*req, true)[b]).label,
{
    complete_imports(ctx, req, true)
}

/// Packages, in the argument of `\usepackage` and its kin.
pub fn complete_packages(ctx: &mut CompletionContext, req: &CompletionRequest)
    requires
        req.wf(),
        old(ctx).wf(*req),
    ensures
        final(ctx).wf(*req),
        views(final(ctx).items@) == views(old(ctx).items@) + import_items(*req, false),
        forall|a: int, b: int| 0 <= a < b < import_items(*req, false).len()
            ==> (#[trigger] import_items(*req, false)[a]).label != (#[trigger] import_items(*req, false)[b]).label,
{
    complete_imports(ctx, req, false)
}


/// The first scope from `s` on that is argument `index` of the command `name`.
pub open spec fn scope_match(t: LatexTree, sc: Seq<CompletionScope>, name: Seq<char>, index: int, p: Position, s: int) -> Option<Range>
    decreases sc.len() - s,
{
    if s < 0 || s >= sc.len() {
        None
    } else {
        match argument_match(t, sc[s], name, index, p) {
            Some(m) => Some(m.0),
            None => scope_match(t, sc, name, index, p, s + 1),
        }
    }
}

/// The first parameter from `i` on of the command `name` that a scope holds.
pub open spec fn parameter_match(t: LatexTree, sc: Seq<CompletionScope>, p: Position, name: Seq<char>, n: int, i: int) -> Option<(Range, int)>
    decreases n - i,
{
    if i < 0 || i >= n {
        None
    } else {
        match scope_match(t, sc, name, i, p, 0) {
            Some(r) => Some((r, i)),
            None => parameter_match(t, sc, p, name, n, i + 1),
        }
    }
}

/// The first command from `j` on with a parameter that a scope holds.
pub open spec fn command_match(t: LatexTree, sc: Seq<CompletionScope>, p: Position, cmds: Seq<ComponentCommand>, j: int) -> Option<(Range, int, int)>
    decreases cmds.len() - j,
{
    if j < 0 || j >= cmds.len() {
        None
    } else {
        match parameter_match(t, sc, p, cmds[j].name@, cmds[j].parameters.len() as int, 0) {
            Some(m) => Some((m.0, j, m.1)),
            None => command_match(t, sc, p, cmds, j + 1),
        }
    }
}

/// The first loaded component from `k` on with a command parameter that a scope holds.
pub open spec fn component_match(t: LatexTree, sc: Seq<CompletionScope>, p: Position, db: ComponentDatabase, cs: Seq<usize>, k: int) -> Option<(Range, int, int, int)>
    decreases cs.len() - k,
{
    if k < 0 || k >= cs.len() {
        None
    } else {
        match command_match(t, sc, p, db.components[cs[k] as int].commands@, 0) {
            Some(m) => Some((m.0, k, m.1, m.2)),
            None => component_match(t, sc, p, db, cs, k + 1),
        }
    }
}

/// The values of the first parameter of a loaded command that a scope holds.
pub open spec fn argument_items(req: CompletionRequest) -> Seq<ItemView> {
    match req.tree() {
        Some(t) => match component_match(t, req.scopes(), req.position, req.db, req.view.components@, 0) {
            Some(m) => names_views(
                m.0,
                ItemKind::Argument,
                req.db.components[req.view.components@[m.1] as int].commands@[m.2].parameters@[m.3]@,
                None,
            ),
            None => Seq::empty(),
        },
        None => Seq::empty(),
    }
}

fn find_scope_match(t: &LatexTree, sc: &Vec<CompletionScope>, name: &str, index: usize, p: Position) -> (r: Option<Range>)
    requires
        t.wf(),
        forall|j: int| 0 <= j < sc.len() ==> scope_wf(*t, #[trigger] sc@[j]),
    ensures
        r == scope_match(*t, sc@, name@, index as int, p, 0),
{
    let mut s: usize = 0;
    while s < sc.len()
        invariant
            s <= sc.len(),
            t.wf(),
            forall|j: int| 0 <= j < sc.len() ==> scope_wf(*t, #[trigger] sc@[j]),
            scope_match(*t, sc@, name@, index as int, p, 0) == scope_match(*t, sc@, name@, index as int, p, s as int),
        decreases sc.len() - s,
    {
        if let Some(m) = match_argument(t, &sc[s], name, index, p) {
            return Some(m.0);
        }
        s += 1;
    }
    None
}

fn find_parameter_match(t: &LatexTree, sc: &Vec<CompletionScope>, p: Position, cmd: &ComponentCommand) -> (r: Option<(Range, usize)>)
    requires
        t.wf(),
        forall|j: int| 0 <= j < sc.len() ==> scope_wf(*t, #[trigger] sc@[j]),
    ensures
        match r {
            Some(m) => parameter_match(*t, sc@, p, cmd.name@, cmd.parameters.len() as int, 0) == Some((m.0, m.1 as int))
                && m.1 < cmd.parameters.len(),
            None => parameter_match(*t, sc@, p, cmd.name@, cmd.parameters.len() as int, 0) is None,
        },
{
    let n = cmd.parameters.len();
    let mut i: usize = 0;
    while i < n
        invariant
            i <= n,
            n == cmd.parameters.len(),
            t.wf(),
            forall|j: int| 0 <= j < sc.len() ==> scope_wf(*t, #[trigger] sc@[j]),
            parameter_match(*t, sc@, p, cmd.name@, n as int, 0) == parameter_match(*t, sc@, p, cmd.name@, n as int, i as int),
        decreases n - i,
    {
        if let Some(r) = find_scope_match(t, sc, cmd.name.as_str(), i, p) {
            return Some((r, i));
        }
        i += 1;
    }
    None
}

fn find_command_match(t: &LatexTree, sc: &Vec<CompletionScope>, p: Position, cmds: &Vec<ComponentCommand>) -> (r: Option<(Range, usize, usize)>)
    requires
        t.wf(),
        forall|j: int| 0 <= j < sc.len() ==> scope_wf(*t, #[trigger] sc@[j]),
    ensures
        match r {
            Some(m) => command_match(*t, sc@, p, cmds@, 0) == Some((m.0, m.1 as int, m.2 as int))
                && m.1 < cmds.len() && m.2 < cmds@[m.1 as int].parameters.len(),
            None => command_match(*t, sc@, p, cmds@, 0) is None,
        },
{
    let mut j: usize = 0;
    while j < cmds.len()
        invariant
            j <= cmds.len(),
            t.wf(),
            forall|k: int| 0 <= k < sc.len() ==> scope_wf(*t, #[trigger] sc@[k]),
            command_match(*t, sc@, p, cmds@, 0) == command_match(*t, sc@, p, cmds@, j as int),
        decreases cmds.len() - j,
    {
        if let Some(m) = find_parameter_match(t, sc, p, &cmds[j]) {
            return Some((m.0, j, m.1));
        }
        j += 1;
    }
    None
}

fn find_component_match(t: &LatexTree, sc: &Vec<CompletionScope>, p: Position, db: &ComponentDatabase, cs: &Vec<usize>) -> (r: Option<(Range, usize, usize, usize)>)
    requires
        t.wf(),
        forall|j: int| 0 <= j < sc.len() ==> scope_wf(*t, #[trigger] sc@[j]),
        forall|k: int| 0 <= k < cs.len() ==> #[trigger] cs@[k] < db.components.len(),
    ensures
        match r {
            Some(m) => component_match(*t, sc@, p, *db, cs@, 0) == Some((m.0, m.1 as int, m.2 as int, m.3 as int))
                && m.1 < cs.len()
                && m.2 < db.components@[cs@[m.1 as int] as int].commands.len()
                && m.3 < db.components@[cs@[m.1 as int] as int].commands@[m.2 as int].parameters.len(),
            None => component_match(*t, sc@, p, *db, cs@, 0) is None,
        },
{
    let mut k: usize = 0;
    while k < cs.len()
        invariant
            k <= cs.len(),
            t.wf(),
            forall|j: int| 0 <= j < sc.len() ==> scope_wf(*t, #[trigger] sc@[j]),
            forall|j: int| 0 <= j < cs.len() ==> #[trigger] cs@[j] < db.components.len(),
            component_match(*t, sc@, p, *db, cs@, 0) == component_match(*t, sc@, p, *db, cs@, k as int),
        decreases cs.len() - k,
    {
        if let Some(m) = find_command_match(t, sc, p, &db.components[cs[k]].commands) {
            return Some((m.0, k, m.1, m.2));
        }
        k += 1;
    }
    None
}

/// Offers the values that a loaded command lists for the parameter under the cursor.
pub fn complete_arguments(ctx: &mut CompletionContext, req: &CompletionRequest)
    requires
        req.wf(),
        old(ctx).wf(*req),
    ensures
        final(ctx).wf(*req),
        views(final(ctx).items@) == views(old(ctx).items@) + argument_items(*req),
{
    let t = match &req.view.current.content {
        DocumentContent::Latex(t) => &t.tree,
        DocumentContent::Bibtex(_) => {
            assert(views(ctx.items@) =~= views(ctx.items@) + argument_items(*req));
            return;
        },
    };
    let cs = &req.view.components;
    match find_component_match(t, &ctx.scopes, req.position, &req.db, cs) {
        Some(m) => {
            let values = &req.db.components[cs[m.1]].commands[m.2].parameters[m.3];
            push_names(&mut ctx.items, m.0, ItemKind::Argument, values, &None);
        },
        None => {
            assert(views(ctx.items@) =~= views(ctx.items@) + argument_items(*req));
        },
    }
}


/// The first declaration from `i` on whose span holds `p`.
pub open spec fn first_decl_hit(ds: Seq<BibDecl>, p: Position, i: int) -> Option<usize>
    decreases ds.len() - i,
{
    if i < 0 || i >= ds.len() {
        None
    } else if ds[i].range.spec_contains(p) {
        Some(i as usize)
    } else {
        first_decl_hit(ds, p, i + 1)
    }
}

/// The first field from `i` on whose span holds `p`.
pub open spec fn first_field_hit(fs: Seq<BibField>, p: Position, i: int) -> Option<usize>
    decreases fs.len() - i,
{
    if i < 0 || i >= fs.len() {
        None
    } else if fs[i].range.spec_contains(p) {
        Some(i as usize)
    } else {
        first_field_hit(fs, p, i + 1)
    }
}

/// Where a field name is being typed in the declaration `d`: the name under
/// the cursor, or an empty range in an entry's body outside its type and key.
pub open spec fn field_range_in(d: BibDecl, p: Position) -> Option<Range> {
    match first_field_hit(d.fields@, p, 0) {
        Some(j) => if d.fields@[j as int].name.range.spec_contains(p) { Some(d.fields@[j as int].name.range) } else { None },
        None => if d.kind == BibDeclKind::Entry && !d.ty.range.spec_contains(p) && match d.key {
            Some(k) => !k.range.spec_contains(p),
            None => true,
        } {
            Some(Range { start: p, end: p })
        } else {
            None
        },
    }
}

/// Field names, where one is being typed in a BibTeX entry.
pub open spec fn field_items(req: CompletionRequest) -> Seq<ItemView> {
    match req.view.current.content {
        DocumentContent::Bibtex(b) => match first_decl_hit(b.decls@, req.position, 0) {
            Some(i) => views_at(field_range_in(b.decls@[i as int], req.position), ItemKind::Field, req.data.fields@, None),
            None => Seq::empty(),
        },
        DocumentContent::Latex(_) => Seq::empty(),
    }
}

fn field_range_of(d: &BibDecl, p: Position) -> (r: Option<Range>)
    ensures
        r == field_range_in(*d, p),
{
    let mut j: usize = 0;
    while j < d.fields.len()
        invariant
            j <= d.fields.len(),
            first_field_hit(d.fields@, p, 0) == first_field_hit(d.fields@, p, j as int),
        decreases d.fields.len() - j,
    {
        let f = &d.fields[j];
        if f.range.contains(p) {
            return if f.name.range.contains(p) { Some(f.name.range) } else { None };
        }
        j += 1;
    }
    let outside_key = match &d.key {
        Some(k) => !k.range.contains(p),
        None => true,
    };
    if d.kind == BibDeclKind::Entry && !d.ty.range.contains(p) && outside_key {
        Some(Range { start: p, end: p })
    } else {
        None
    }
}

fn find_decl_hit(ds: &Vec<BibDecl>, p: Position) -> (r: Option<usize>)
    ensures
        r == first_decl_hit(ds@, p, 0),
        r matches Some(i) ==> i < ds.len(),
{
    let mut i: usize = 0;
    while i < ds.len()
        invariant
            i <= ds.len(),
            first_decl_hit(ds@, p, 0) == first_decl_hit(ds@, p, i as int),
        decreases ds.len() - i,
    {
        if ds[i].range.contains(p) {
            return Some(i);
        }
        i += 1;
    }
    None
}

pub fn complete_fields(ctx: &mut CompletionContext, req: &CompletionRequest)
    requires
        req.wf(),
        old(ctx).wf(*req),
    ensures
        final(ctx).wf(*req),
        views(final(ctx).items@) == views(old(ctx).items@) + field_items(*req),
{
    if let DocumentContent::Bibtex(b) = &req.view.current.content {
        if let Some(i) = find_decl_hit(&b.decls, req.position) {
            if let Some(r) = field_range_of(&b.decls[i], req.position) {
                push_names(&mut ctx.items, r, ItemKind::Field, &req.data.fields, &None);
                return;
            }
        }
    }
    assert(views(ctx.items@) =~= views(ctx.items@) + field_items(*req));
}

/// The first command token from `i` on that holds `p` past its escape character.
pub open spec fn first_command_token_hit(ts: Seq<Token>, p: Position, i: int) -> Option<usize>
    decreases ts.len() - i,
{
    if i < 0 || i >= ts.len() {
        None
    } else if ts[i].range.spec_contains(p) && ts[i].range.start.character != p.character {
        Some(i as usize)
    } else {
        first_command_token_hit(ts, p, i + 1)
    }
}

/// The kernel's commands, where a command in a BibTeX field value is being typed.
pub open spec fn bibtex_command_items(req: CompletionRequest) -> Seq<ItemView> {
    match req.view.current.content {
        DocumentContent::Bibtex(b) => match first_command_token_hit(b.commands@, req.position, 0) {
            Some(i) => names_views(
                short_name_range(b.commands@[i as int]),
                ItemKind::ComponentCommand,
                component_command_names(req.db, seq![req.db.kernel]),
                Some(built_in()),
            ),
            None => Seq::empty(),
        },
        DocumentContent::Latex(_) => Seq::empty(),
    }
}

fn find_command_token_hit(ts: &Vec<Token>, p: Position) -> (r: Option<usize>)
    ensures
        r == first_command_token_hit(ts@, p, 0),
        r matches Some(i) ==> i < ts.len(),
{
    let mut i: usize = 0;
    while i < ts.len()
        invariant
            i <= ts.len(),
            first_command_token_hit(ts@, p, 0) == first_command_token_hit(ts@, p, i as int),
        decreases ts.len() - i,
    {
        if ts[i].range.contains(p) && ts[i].range.start.character != p.character {
            return Some(i);
        }
        i += 1;
    }
    None
}

pub fn complete_bibtex_commands(ctx: &mut CompletionContext, req: &CompletionRequest)
    requires
        req.wf(),
        old(ctx).wf(*req),
    ensures
        final(ctx).wf(*req),
        views(final(ctx).items@) == views(old(ctx).items@) + bibtex_command_items(*req),
{
    if let DocumentContent::Bibtex(b) = &req.view.current.content {
        if let Some(i) = find_command_token_hit(&b.commands, req.position) {
            assert(b.commands@[i as int].wf());
            let r = short_name_range_of(&b.commands[i]);
            let mut kernel: Vec<usize> = Vec::new();
            kernel.push(req.db.kernel);
            assert(kernel@ =~= seq![req.db.kernel]);
            let names = collect_component_names(&req.db, &kernel);
            push_names(&mut ctx.items, r, ItemKind::ComponentCommand, &names, &built_in_detail());
            return;
        }
    }
    assert(views(ctx.items@) =~= views(ctx.items@) + bibtex_command_items(*req));
}

} // verus!
