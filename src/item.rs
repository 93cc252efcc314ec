//! Completion candidates.

use vstd::prelude::*;
use crate::pos::Range;

verus! {

/// The kinds of candidates that the generators produce.
#[derive(Clone, Copy, Debug, PartialEq, Eq, Structural)]
pub enum ItemKind {
    ComponentCommand,
    ComponentEnvironment,
    UserCommand,
    UserEnvironment,
    Label(crate::doc::LabelKind),
    Class,
    Package,
    PgfLibrary,
    TikzLibrary,
    File,
    Directory,
    Citation,
    Argument,
    BeginCommand,
    Color,
    ColorModel,
    GlossaryEntry,
    EntryType,
    Field,
}

/// One completion candidate. `label` is what deduplication compares and what
/// is inserted; `text` is what the current word is matched against (the label
/// itself but for labels and citations, whose text is richer).
#[derive(Debug)]
pub struct Item {
    pub range: Range,
    pub kind: ItemKind,
    pub label: String,
    pub text: String,
    pub detail: Option<String>,
    pub uri: Option<String>,
    pub preselect: bool,
    pub score: Option<i64>,
}

/// A candidate as plain values: its strings as character sequences.
pub struct ItemView {
    pub range: Range,
    pub kind: ItemKind,
    pub label: Seq<char>,
    pub text: Seq<char>,
    pub detail: Option<Seq<char>>,
    pub uri: Option<Seq<char>>,
    pub preselect: bool,
    pub score: Option<i64>,
}

pub open spec fn opt_view(s: Option<String>) -> Option<Seq<char>> {
    match s {
        Some(x) => Some(x@),
        None => None,
    }
}

impl View for Item {
    type V = ItemView;

    open spec fn view(&self) -> ItemView {
        ItemView {
            range: self.range,
            kind: self.kind,
            label: self.label@,
            text: self.text@,
            detail: opt_view(self.detail),
            uri: opt_view(self.uri),
            preselect: self.preselect,
            score: self.score,
        }
    }
}

/// The views of a sequence of candidates.
pub open spec fn views(s: Seq<Item>) -> Seq<ItemView> {
    s.map_values(|i: Item| i@)
}

pub proof fn lemma_views_add(a: Seq<Item>, b: Seq<Item>)
    ensures
        views(a + b) == views(a) + views(b),
{
    assert(views(a + b) =~= views(a) + views(b));
}

impl Item {
    /// A candidate that is neither preselected nor scored yet.
    pub fn new(range: Range, kind: ItemKind, label: String, text: String) -> (r: Item)
        ensures
            r.range == range,
            r.kind == kind,
            r.label == label,
            r.text == text,
            r.detail is None,
            r.uri is None,
            !r.preselect,
            r.score is None,
    {
        Item { range, kind, label, text, detail: None, uri: None, preselect: false, score: None }
    }

    /// A candidate whose matching text is its label.
    pub fn simple(range: Range, kind: ItemKind, label: &String) -> (r: Item)
        ensures
            r.range == range,
            r.kind == kind,
            r.label == *label,
            r.text == *label,
            r.detail is None,
            r.uri is None,
            !r.preselect,
            r.score is None,
    {
        Item::new(range, kind, label.clone(), label.clone())
    }

    pub fn label(&self) -> (r: &String)
        ensures
            r == &self.label,
    {
        &self.label
    }
}

/// The items of `v` in reverse order, so that popping yields them first to last.
pub fn reversed<T>(v: Vec<T>) -> (r: Vec<T>)
    ensures
        r.len() == v.len(),
        forall|k: int| 0 <= k < r.len() ==> r@[k] == v@[v.len() - 1 - k],
{
    let mut v = v;
    let ghost orig = v@;
    let mut r: Vec<T> = Vec::new();
    while v.len() > 0
        invariant
            v@ == orig.subrange(0, v.len() as int),
            v.len() + r.len() == orig.len(),
            forall|k: int| 0 <= k < r.len() ==> r@[k] == orig[orig.len() - 1 - k],
        decreases v.len(),
    {
        let x = v.pop().unwrap();
        r.push(x);
    }
    r
}

} // verus!
