//! Documents, what the parser found in them, and the known packages and classes.

use vstd::prelude::*;
use itertools::Itertools;
use crate::pos::Range;
use crate::rank::EnvironmentInfo;
use crate::syntax::{LatexTree, Token};

verus! {

/// A label that a document defines.
#[derive(Clone, Debug)]
pub struct LabelDef {
    /// The span of the `\label` command.
    pub range: Range,
    pub name: String,
    /// What the label stands for in the outline (a section title, a caption), if known.
    pub descriptor: Option<String>,
    /// What the outline says the label marks.
    pub kind: LabelKind,
    /// The outline's heading for what the label marks, if any.
    pub header: Option<String>,
}

/// What a label marks, as the outline tells it.
#[derive(Clone, Copy, Debug, PartialEq, Eq, Structural)]
pub enum LabelKind {
    Section,
    Float,
    Theorem,
    Equation,
    Item,
    Plain,
}

/// A glossary entry or an acronym that a document defines.
#[derive(Clone, Debug)]
pub struct GlossaryEntryDef {
    pub name: String,
    pub acronym: bool,
}

/// What the parser found in a LaTeX document.
#[derive(Clone, Debug)]
pub struct LatexTable {
    pub tree: LatexTree,
    pub environments: Vec<EnvironmentInfo>,
    pub labels: Vec<LabelDef>,
    pub theorem_definitions: Vec<String>,
    pub glossary_entries: Vec<GlossaryEntryDef>,
    /// The files of the packages and classes that the document loads.
    pub components: Vec<String>,
}

/// A field of a BibTeX entry.
#[derive(Clone, Debug)]
pub struct BibField {
    pub name: Token,
    pub range: Range,
}

/// A BibTeX declaration: an entry, a `@string`, a `@preamble` or a comment.
#[derive(Clone, Debug)]
pub struct BibDecl {
    pub range: Range,
    /// The declaration's type, `@` included.
    pub ty: Token,
    /// The entry's key, or the name of a `@string`.
    pub key: Option<Token>,
    pub fields: Vec<BibField>,
    pub kind: BibDeclKind,
    /// The declaration as the formatter prints it.
    pub code: String,
}

#[derive(Clone, Copy, Debug, PartialEq, Eq, Structural)]
pub enum BibDeclKind {
    Entry,
    Comment,
    StringDef,
    Preamble,
}

/// What the parser found in a BibTeX document.
#[derive(Clone, Debug)]
pub struct BibtexTable {
    pub decls: Vec<BibDecl>,
    /// The commands that stand in field values, escape character included.
    pub commands: Vec<Token>,
}

#[derive(Clone, Debug)]
pub enum DocumentContent {
    Latex(LatexTable),
    Bibtex(BibtexTable),
}

#[derive(Clone, Debug)]
pub struct Document {
    pub uri: String,
    pub lines: Vec<String>,
    pub content: DocumentContent,
}

/// A command that a package or class provides, with the values that each of
/// its arguments may take.
#[derive(Clone, Debug)]
pub struct ComponentCommand {
    pub name: String,
    pub parameters: Vec<Vec<String>>,
}

/// A package or class: the files it consists of, those it loads, and what it provides.
#[derive(Clone, Debug)]
pub struct Component {
    pub file_names: Vec<String>,
    pub references: Vec<String>,
    pub commands: Vec<ComponentCommand>,
    pub environments: Vec<String>,
}

/// The known packages and classes; `kernel` is the one always loaded.
#[derive(Clone, Debug)]
pub struct ComponentDatabase {
    pub components: Vec<Component>,
    pub kernel: usize,
}

impl ComponentDatabase {
    pub open spec fn wf(self) -> bool {
        self.kernel < self.components.len()
    }

    /// The index of the first component from `i` on that consists of the file `f`.
    pub open spec fn find_from(self, f: Seq<char>, i: int) -> Option<usize>
        decreases self.components.len() - i,
    {
        if i < 0 || i >= self.components.len() {
            None
        } else if has_file(self.components[i].file_names@, f) {
            Some(i as usize)
        } else {
            self.find_from(f, i + 1)
        }
    }

    /// The first component that consists of the file `f`.
    pub fn find(&self, f: &String) -> (r: Option<usize>)
        ensures
            r == self.find_from(f@, 0),
            r matches Some(i) ==> i < self.components.len(),
    {
        let mut i: usize = 0;
        while i < self.components.len()
            invariant
                i <= self.components.len(),
                self.find_from(f@, 0) == self.find_from(f@, i as int),
            decreases self.components.len() - i,
        {
            if contains_string(&self.components[i].file_names, f) {
                return Some(i);
            }
            i += 1;
        }
        None
    }
}

pub open spec fn has_file(names: Seq<String>, f: Seq<char>) -> bool {
    exists|k: int| 0 <= k < names.len() && (#[trigger] names[k])@ == f
}

pub fn contains_string(names: &Vec<String>, f: &String) -> (r: bool)
    ensures
        r == has_file(names@, f@),
{
    let mut k: usize = 0;
    while k < names.len()
        invariant
            k <= names.len(),
            forall|j: int| 0 <= j < k ==> (#[trigger] names@[j])@ != f@,
        decreases names.len() - k,
    {
        if names[k] == *f {
            return true;
        }
        k += 1;
    }
    false
}

/// The components that the files `fs` name, in order, skipping unknown ones.
pub open spec fn found(db: ComponentDatabase, fs: Seq<String>) -> Seq<usize>
    decreases fs.len(),
{
    if fs.len() == 0 {
        Seq::empty()
    } else {
        found(db, fs.drop_last()) + match db.find_from(fs.last()@, 0) {
            Some(i) => seq![i],
            None => Seq::empty(),
        }
    }
}

/// The components that the LaTeX documents among `docs` load.
pub open spec fn loaded(db: ComponentDatabase, docs: Seq<Document>) -> Seq<usize>
    decreases docs.len(),
{
    if docs.len() == 0 {
        Seq::empty()
    } else {
        loaded(db, docs.drop_last()) + match docs.last().content {
            DocumentContent::Latex(t) => found(db, t.components@),
            DocumentContent::Bibtex(_) => Seq::empty(),
        }
    }
}

/// Each component followed by those it loads.
pub open spec fn expanded(db: ComponentDatabase, cs: Seq<usize>) -> Seq<usize>
    decreases cs.len(),
{
    if cs.len() == 0 {
        Seq::empty()
    } else {
        expanded(db, cs.drop_last()) + seq![cs.last()] + found(db, db.components[cs.last() as int].references@)
    }
}

/// The key by which components count as the same: their files.
pub open spec fn file_key(db: ComponentDatabase, i: usize) -> Seq<Seq<char>> {
    db.components[i as int].file_names@.map_values(|s: String| s@)
}

/// `cs` with each component whose files came earlier dropped.
pub open spec fn unique_components(db: ComponentDatabase, cs: Seq<usize>) -> Seq<usize>
    decreases cs.len(),
{
    if cs.len() == 0 {
        cs
    } else {
        let prev = cs.drop_last();
        if exists|k: int| 0 <= k < prev.len() && file_key(db, #[trigger] prev[k]) == file_key(db, cs.last()) {
            unique_components(db, prev)
        } else {
            unique_components(db, prev).push(cs.last())
        }
    }
}

/// Relies on itertools' `unique_by`: yields, in order, each item whose key
/// (here the component's files) no earlier item had.
#[verifier::external_body]
fn unique_by_files(db: &ComponentDatabase, cs: Vec<usize>) -> (r: Vec<usize>)
    requires
        forall|k: int| 0 <= k < cs.len() ==> #[trigger] cs@[k] < db.components.len(),
    ensures
        r@ == unique_components(*db, cs@),
{
    cs.into_iter().unique_by(|i| &db.components[*i].file_names).collect()
}

fn push_found(db: &ComponentDatabase, fs: &Vec<String>, out: &mut Vec<usize>)
    ensures
        final(out)@ == old(out)@ + found(*db, fs@),
        forall|k: int| 0 <= k < found(*db, fs@).len() ==> #[trigger] found(*db, fs@)[k] < db.components.len(),
{
    let ghost start = out@;
    let mut i: usize = 0;
    assert(fs@.take(0) =~= Seq::<String>::empty());
    while i < fs.len()
        invariant
            i <= fs.len(),
            out@ == start + found(*db, fs@.take(i as int)),
            forall|k: int| 0 <= k < found(*db, fs@.take(i as int)).len() ==> #[trigger] found(*db, fs@.take(i as int))[k] < db.components.len(),
        decreases fs.len() - i,
    {
        let ghost prev = fs@.take(i as int);
        assert(fs@.take(i + 1).drop_last() =~= prev);
        let ghost f = found(*db, fs@.take(i + 1));
        if let Some(c) = db.find(&fs[i]) {
            out.push(c);
            assert(out@ =~= start + f);
        } else {
            assert(out@ =~= start + f);
        }
        assert forall|k: int| 0 <= k < f.len() implies #[trigger] f[k] < db.components.len() by {
            if k < found(*db, prev).len() {
                assert(f[k] == found(*db, prev)[k]);
            }
        }
        i += 1;
    }
    assert(fs@.take(fs.len() as int) =~= fs@);
}

/// The current document, the documents related to it (itself among them), and
/// the components that they load.
#[derive(Clone, Debug)]
pub struct DocumentView {
    pub current: Document,
    pub related: Vec<Document>,
    pub components: Vec<usize>,
}

/// The components of a view: the kernel and those the related documents load,
/// each followed by those it loads, without repeats.
pub open spec fn view_components(db: ComponentDatabase, related: Seq<Document>) -> Seq<usize> {
    unique_components(db, expanded(db, seq![db.kernel] + loaded(db, related)))
}

impl DocumentView {
    /// Gathers the components that `current` and its related documents load.
    pub fn analyze(current: Document, related: Vec<Document>, db: &ComponentDatabase) -> (r: DocumentView)
        requires
            db.wf(),
        ensures
            r.current == current,
            r.related == related,
            r.components@ == view_components(*db, related@),
            forall|k: int| 0 <= k < r.components.len() ==> #[trigger] r.components@[k] < db.components.len(),
    {
        let mut start: Vec<usize> = Vec::new();
        start.push(db.kernel);
        let ghost s0 = start@;
        let mut i: usize = 0;
        assert(related@.take(0) =~= Seq::<Document>::empty());
        while i < related.len()
            invariant
                db.wf(),
                i <= related.len(),
                start@ == s0 + loaded(*db, related@.take(i as int)),
                forall|k: int| 0 <= k < start.len() ==> #[trigger] start@[k] < db.components.len(),
                s0 == seq![db.kernel],
            decreases related.len() - i,
        {
            assert(related@.take(i + 1).drop_last() =~= related@.take(i as int));
            assert(related@.take(i + 1).last() == related@[i as int]);
            if let DocumentContent::Latex(t) = &related[i].content {
                push_found(db, &t.components, &mut start);
            }
            assert(start@ =~= s0 + loaded(*db, related@.take(i + 1)));
            i += 1;
        }
        assert(related@.take(related.len() as int) =~= related@);
        let mut all: Vec<usize> = Vec::new();
        let mut j: usize = 0;
        assert(start@.take(0) =~= Seq::<usize>::empty());
        while j < start.len()
            invariant
                j <= start.len(),
                all@ == expanded(*db, start@.take(j as int)),
                forall|k: int| 0 <= k < start.len() ==> #[trigger] start@[k] < db.components.len(),
                forall|k: int| 0 <= k < all.len() ==> #[trigger] all@[k] < db.components.len(),
            decreases start.len() - j,
        {
            assert(start@.take(j + 1).drop_last() =~= start@.take(j as int));
            let c = start[j];
            all.push(c);
            push_found(db, &db.components[c].references, &mut all);
            assert(all@ =~= expanded(*db, start@.take(j + 1)));
            j += 1;
        }
        assert(start@.take(start.len() as int) =~= start@);
        let components = unique_by_files(db, all);
        proof { lemma_unique_components_bounded(*db, all@); }
        DocumentView { current, related, components }
    }
}

proof fn lemma_unique_components_bounded(db: ComponentDatabase, cs: Seq<usize>)
    requires
        forall|k: int| 0 <= k < cs.len() ==> #[trigger] cs[k] < db.components.len(),
    ensures
        forall|k: int| 0 <= k < unique_components(db, cs).len() ==> #[trigger] unique_components(db, cs)[k] < db.components.len(),
    decreases cs.len(),
{
    if cs.len() > 0 {
        let prev = cs.drop_last();
        assert forall|k: int| 0 <= k < prev.len() implies #[trigger] prev[k] < db.components.len() by {
            assert(prev[k] == cs[k]);
        }
        lemma_unique_components_bounded(db, prev);
        let u = unique_components(db, prev);
        let e = u.push(cs.last());
        assert forall|k: int| 0 <= k < e.len() implies #[trigger] e[k] < db.components.len() by {
            if k < u.len() {
                assert(e[k] == u[k]);
            }
        }
    }
}

} // verus!
