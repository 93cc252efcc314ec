//! Document symbols of BibTeX documents, and helpers for labelled symbols.

use vstd::prelude::*;
use crate::doc::{BibDecl, BibDeclKind, BibField, Document, DocumentContent, LabelDef};
use crate::pos::Range;
use crate::text::{lower_of, lowercase};
use vstd::string::StrSliceExecFns;

verus! {

/// The category of a BibTeX entry type.
#[derive(Clone, Copy, Debug, PartialEq, Eq, Structural)]
pub enum EntryCategory {
    Misc,
    String,
    Article,
    Book,
    Collection,
    Part,
    Thesis,
}

/// A known entry type and its category.
#[derive(Clone, Debug)]
pub struct EntryTypeDef {
    pub name: String,
    pub category: EntryCategory,
}

#[derive(Clone, Copy, Debug, PartialEq, Eq, Structural)]
pub enum LatexSymbolKind {
    Entry(EntryCategory),
    Field,
    String,
}

/// The category of the first known type named like `name`, letter case aside;
/// `Misc` for an unknown type.
pub open spec fn category_from(types: Seq<EntryTypeDef>, name: Seq<char>, i: int) -> EntryCategory
    decreases types.len() - i,
{
    if i < 0 || i >= types.len() {
        EntryCategory::Misc
    } else if lower_of(types[i].name@) == lower_of(name) {
        types[i].category
    } else {
        category_from(types, name, i + 1)
    }
}

/// A declaration's type without its `@`.
pub open spec fn entry_type_name(ty: Seq<char>) -> Seq<char> {
    if ty.len() >= 1 {
        ty.subrange(1, ty.len() as int)
    } else {
        ty
    }
}

pub open spec fn entry_category(types: Seq<EntryTypeDef>, d: BibDecl) -> EntryCategory {
    category_from(types, entry_type_name(d.ty.text@), 0)
}

fn entry_category_exec(types: &Vec<EntryTypeDef>, d: &BibDecl) -> (r: EntryCategory)
    ensures
        r == entry_category(types@, *d),
{
    let ty = d.ty.text.as_str();
    let len = ty.unicode_len();
    let name = if len >= 1 { ty.substring_char(1, len) } else { ty };
    let key = lowercase(name);
    let mut i: usize = 0;
    while i < types.len()
        invariant
            i <= types.len(),
            name@ == entry_type_name(d.ty.text@),
            key@ == lower_of(name@),
            category_from(types@, name@, 0) == category_from(types@, name@, i as int),
        decreases types.len() - i,
    {
        let candidate = lowercase(types[i].name.as_str());
        if candidate == key {
            return types[i].category;
        }
        i += 1;
    }
    EntryCategory::Misc
}

/// A document symbol: what an outline shows.
#[derive(Debug)]
pub struct LatexSymbol {
    pub name: String,
    pub label: Option<String>,
    pub kind: LatexSymbolKind,
    pub deprecated: bool,
    pub full_range: Range,
    pub selection_range: Range,
    pub children: Vec<LatexSymbol>,
}

/// The name of a label, if there is one.
pub fn label_name(label: Option<&LabelDef>) -> (r: Option<String>)
    ensures
        match label {
            Some(l) => r == Some(l.name),
            None => r is None,
        },
{
    match label {
        Some(l) => Some(l.name.clone()),
        None => None,
    }
}

/// The range an editor selects for a symbol: its label's, else its own.
pub fn selection_range(full_range: Range, label: Option<&LabelDef>) -> (r: Range)
    ensures
        r == match label {
            Some(l) => l.range,
            None => full_range,
        },
{
    match label {
        Some(l) => l.range,
        None => full_range,
    }
}

/// The `@string` declarations that have a name.
pub open spec fn named_strings(ds: Seq<BibDecl>) -> Seq<BibDecl>
    decreases ds.len(),
{
    if ds.len() == 0 {
        Seq::empty()
    } else {
        named_strings(ds.drop_last()) + if ds.last().kind == BibDeclKind::StringDef && ds.last().key is Some {
            seq![ds.last()]
        } else {
            Seq::empty()
        }
    }
}

/// The entries that have a key.
pub open spec fn keyed_entries(ds: Seq<BibDecl>) -> Seq<BibDecl>
    decreases ds.len(),
{
    if ds.len() == 0 {
        Seq::empty()
    } else {
        keyed_entries(ds.drop_last()) + if ds.last().kind == BibDeclKind::Entry && ds.last().key is Some {
            seq![ds.last()]
        } else {
            Seq::empty()
        }
    }
}

pub open spec fn bib_decls(d: Document) -> Seq<BibDecl> {
    match d.content {
        DocumentContent::Bibtex(b) => b.decls@,
        DocumentContent::Latex(_) => Seq::empty(),
    }
}

/// `s` is the symbol of a declaration named by its key: full range the
/// declaration's, selection range the key's.
pub open spec fn keyed_symbol(s: LatexSymbol, d: BibDecl, kind: LatexSymbolKind) -> bool {
    &&& d.key matches Some(k) && s.name == k.text && s.selection_range == k.range
    &&& s.label is None
    &&& s.kind == kind
    &&& !s.deprecated
    &&& s.full_range == d.range
}

pub open spec fn field_symbol(s: LatexSymbol, f: BibField) -> bool {
    &&& s.name == f.name.text
    &&& s.label is None
    &&& s.kind == LatexSymbolKind::Field
    &&& !s.deprecated
    &&& s.full_range == f.range
    &&& s.selection_range == f.name.range
    &&& s.children.len() == 0
}

pub open spec fn entry_symbol(s: LatexSymbol, d: BibDecl, types: Seq<EntryTypeDef>) -> bool {
    &&& keyed_symbol(s, d, LatexSymbolKind::Entry(entry_category(types, d)))
    &&& s.children.len() == d.fields.len()
    &&& forall|k: int| 0 <= k < d.fields.len() ==> field_symbol(#[trigger] s.children@[k], d.fields@[k])
}

/// Appends one symbol per named `@string` of a BibTeX document.
pub fn find_string_symbols(doc: &Document, items: &mut Vec<LatexSymbol>)
    ensures
        final(items).len() == old(items).len() + named_strings(bib_decls(*doc)).len(),
        forall|k: int| 0 <= k < old(items).len() ==> final(items)@[k] == old(items)@[k],
        forall|k: int| 0 <= k < named_strings(bib_decls(*doc)).len() ==> {
            &&& keyed_symbol(#[trigger] final(items)@[old(items).len() + k], named_strings(bib_decls(*doc))[k], LatexSymbolKind::String)
            &&& final(items)@[old(items).len() + k].children.len() == 0
        },
{
    let ghost start = items@;
    let ds = match &doc.content {
        DocumentContent::Bibtex(b) => &b.decls,
        DocumentContent::Latex(_) => return,
    };
    let mut i: usize = 0;
    assert(ds@.take(0) =~= Seq::<BibDecl>::empty());
    while i < ds.len()
        invariant
            i <= ds.len(),
            ds@ == bib_decls(*doc),
            items.len() == start.len() + named_strings(ds@.take(i as int)).len(),
            forall|k: int| 0 <= k < start.len() ==> items@[k] == start[k],
            forall|k: int| 0 <= k < named_strings(ds@.take(i as int)).len() ==> {
                &&& keyed_symbol(#[trigger] items@[start.len() + k], named_strings(ds@.take(i as int))[k], LatexSymbolKind::String)
                &&& items@[start.len() + k].children.len() == 0
            },
        decreases ds.len() - i,
    {
        assert(ds@.take(i + 1).drop_last() =~= ds@.take(i as int));
        assert(ds@.take(i + 1).last() == ds@[i as int]);
        let ghost prev = named_strings(ds@.take(i as int));
        let d = &ds[i];
        if d.kind == BibDeclKind::StringDef {
            if let Some(key) = &d.key {
                items.push(LatexSymbol {
                    name: key.text.clone(),
                    label: None,
                    kind: LatexSymbolKind::String,
                    deprecated: false,
                    full_range: d.range,
                    selection_range: key.range,
                    children: Vec::new(),
                });
                let ghost now = named_strings(ds@.take(i + 1));
                assert(now == prev + seq![*d]);
                assert forall|k: int| 0 <= k < now.len() implies {
                    &&& keyed_symbol(#[trigger] items@[start.len() + k], now[k], LatexSymbolKind::String)
                    &&& items@[start.len() + k].children.len() == 0
                } by {
                    if k < prev.len() {
                        assert(now[k] == prev[k]);
                    }
                }
            }
        }
        i += 1;
    }
    assert(ds@.take(ds.len() as int) =~= ds@);
}

fn field_symbols(fields: &Vec<BibField>) -> (r: Vec<LatexSymbol>)
    ensures
        r.len() == fields.len(),
        forall|k: int| 0 <= k < fields.len() ==> field_symbol(#[trigger] r@[k], fields@[k]),
{
    let mut out: Vec<LatexSymbol> = Vec::new();
    let mut j: usize = 0;
    while j < fields.len()
        invariant
            j <= fields.len(),
            out.len() == j,
            forall|k: int| 0 <= k < j ==> field_symbol(#[trigger] out@[k], fields@[k]),
        decreases fields.len() - j,
    {
        let f = &fields[j];
        out.push(LatexSymbol {
            name: f.name.text.clone(),
            label: None,
            kind: LatexSymbolKind::Field,
            deprecated: false,
            full_range: f.range,
            selection_range: f.name.range,
            children: Vec::new(),
        });
        j += 1;
    }
    out
}

/// Appends one symbol per keyed entry of a BibTeX document, with its fields as
/// children and the category of its type among the known `types`.
pub fn find_entry_symbols(doc: &Document, types: &Vec<EntryTypeDef>, items: &mut Vec<LatexSymbol>)
    ensures
        final(items).len() == old(items).len() + keyed_entries(bib_decls(*doc)).len(),
        forall|k: int| 0 <= k < old(items).len() ==> final(items)@[k] == old(items)@[k],
        forall|k: int| 0 <= k < keyed_entries(bib_decls(*doc)).len()
            ==> entry_symbol(#[trigger] final(items)@[old(items).len() + k], keyed_entries(bib_decls(*doc))[k], types@),
{
    let ghost start = items@;
    let ds = match &doc.content {
        DocumentContent::Bibtex(b) => &b.decls,
        DocumentContent::Latex(_) => return,
    };
    let mut i: usize = 0;
    assert(ds@.take(0) =~= Seq::<BibDecl>::empty());
    while i < ds.len()
        invariant
            i <= ds.len(),
            ds@ == bib_decls(*doc),
            items.len() == start.len() + keyed_entries(ds@.take(i as int)).len(),
            forall|k: int| 0 <= k < start.len() ==> items@[k] == start[k],
            forall|k: int| 0 <= k < keyed_entries(ds@.take(i as int)).len()
                ==> entry_symbol(#[trigger] items@[start.len() + k], keyed_entries(ds@.take(i as int))[k], types@),
        decreases ds.len() - i,
    {
        assert(ds@.take(i + 1).drop_last() =~= ds@.take(i as int));
        assert(ds@.take(i + 1).last() == ds@[i as int]);
        let ghost prev = keyed_entries(ds@.take(i as int));
        let d = &ds[i];
        if d.kind == BibDeclKind::Entry {
            if let Some(key) = &d.key {
                let children = field_symbols(&d.fields);
                let category = entry_category_exec(types, d);
                items.push(LatexSymbol {
                    name: key.text.clone(),
                    label: None,
                    kind: LatexSymbolKind::Entry(category),
                    deprecated: false,
                    full_range: d.range,
                    selection_range: key.range,
                    children,
                });
                let ghost now = keyed_entries(ds@.take(i + 1));
                assert(now == prev + seq![*d]);
                assert forall|k: int| 0 <= k < now.len() implies entry_symbol(#[trigger] items@[start.len() + k], now[k], types@) by {
                    if k < prev.len() {
                        assert(now[k] == prev[k]);
                    }
                }
            }
        }
        i += 1;
    }
    assert(ds@.take(ds.len() as int) =~= ds@);
}

} // verus!
