use texcomplete::doc::{BibDecl, BibDeclKind, BibField, BibtexTable, Document, DocumentContent, LabelDef, LabelKind, LatexTable};
use texcomplete::pos::Range;
use texcomplete::symbol::{
    find_entry_symbols, find_string_symbols, label_name, selection_range, EntryCategory, EntryTypeDef, LatexSymbol,
    LatexSymbolKind,
};
use texcomplete::syntax::{LatexTree, Token};

fn tok(start: u32, text: &str) -> Token {
    Token::new(Range::new_simple(0, start, 0, start + text.len() as u32), text)
}

fn bib(decls: Vec<BibDecl>) -> Document {
    Document {
        uri: "main.bib".to_string(),
        lines: Vec::new(),
        content: DocumentContent::Bibtex(BibtexTable { decls, commands: Vec::new() }),
    }
}

fn empty_latex() -> Document {
    Document {
        uri: "main.tex".to_string(),
        lines: vec![String::new()],
        content: DocumentContent::Latex(LatexTable {
            tree: LatexTree::new(Range::new_simple(0, 0, 0, 0)),
            environments: Vec::new(),
            labels: Vec::new(),
            theorem_definitions: Vec::new(),
            glossary_entries: Vec::new(),
            components: Vec::new(),
        }),
    }
}

fn types() -> Vec<EntryTypeDef> {
    vec![
        EntryTypeDef { name: "article".to_string(), category: EntryCategory::Article },
        EntryTypeDef { name: "book".to_string(), category: EntryCategory::Book },
    ]
}

fn with_fields(kind: BibDeclKind, ty: &str) -> BibDecl {
    BibDecl {
        range: Range::new_simple(0, 0, 0, 35),
        ty: tok(0, ty),
        key: Some(tok(9, "key")),
        fields: vec![
            BibField { name: tok(14, "foo"), range: Range::new_simple(0, 14, 0, 24) },
            BibField { name: tok(25, "baz"), range: Range::new_simple(0, 25, 0, 34) },
        ],
        kind,
        code: "@article{key, foo = bar, baz = qux}".to_string(),
    }
}

fn check(s: &LatexSymbol, name: &str, kind: LatexSymbolKind, full: Range, selection: Range) {
    assert_eq!(s.name, name);
    assert_eq!(s.label, None);
    assert_eq!(s.kind, kind);
    assert!(!s.deprecated);
    assert_eq!(s.full_range, full);
    assert_eq!(s.selection_range, selection);
}

#[test]
fn entry_entry() {
    let mut items = Vec::new();
    find_entry_symbols(&bib(vec![with_fields(BibDeclKind::Entry, "@article")]), &types(), &mut items);
    assert_eq!(items.len(), 1);
    check(&items[0], "key", LatexSymbolKind::Entry(EntryCategory::Article), Range::new_simple(0, 0, 0, 35), Range::new_simple(0, 9, 0, 12));
    assert_eq!(items[0].children.len(), 2);
    check(&items[0].children[0], "foo", LatexSymbolKind::Field, Range::new_simple(0, 14, 0, 24), Range::new_simple(0, 14, 0, 17));
    check(&items[0].children[1], "baz", LatexSymbolKind::Field, Range::new_simple(0, 25, 0, 34), Range::new_simple(0, 25, 0, 28));
    assert!(items[0].children.iter().all(|c| c.children.is_empty()));
}

#[test]
fn entry_comment() {
    let mut items = Vec::new();
    find_entry_symbols(&bib(vec![with_fields(BibDeclKind::Comment, "@comment")]), &types(), &mut items);
    assert!(items.is_empty());
}

#[test]
fn entry_empty_latex_document() {
    let mut items = Vec::new();
    find_entry_symbols(&empty_latex(), &types(), &mut items);
    assert!(items.is_empty());
}

#[test]
fn entry_empty_bibtex_document() {
    let mut items = Vec::new();
    find_entry_symbols(&bib(Vec::new()), &types(), &mut items);
    assert!(items.is_empty());
}

fn string_decl(name: Option<Token>, end: u32) -> BibDecl {
    BibDecl {
        range: Range::new_simple(0, 0, 0, end),
        ty: tok(0, "@string"),
        key: name,
        fields: Vec::new(),
        kind: BibDeclKind::StringDef,
        code: String::new(),
    }
}

#[test]
fn valid() {
    let mut items = Vec::new();
    find_string_symbols(&bib(vec![string_decl(Some(tok(8, "key")), 22)]), &mut items);
    assert_eq!(items.len(), 1);
    check(&items[0], "key", LatexSymbolKind::String, Range::new_simple(0, 0, 0, 22), Range::new_simple(0, 8, 0, 11));
    assert!(items[0].children.is_empty());
}

#[test]
fn invalid() {
    let mut items = Vec::new();
    find_string_symbols(&bib(vec![string_decl(None, 9)]), &mut items);
    assert!(items.is_empty());
}

#[test]
fn string_empty_latex_document() {
    let mut items = Vec::new();
    find_string_symbols(&empty_latex(), &mut items);
    assert!(items.is_empty());
}

#[test]
fn string_empty_bibtex_document() {
    let mut items = Vec::new();
    find_string_symbols(&bib(Vec::new()), &mut items);
    assert!(items.is_empty());
}

#[test]
fn symbols_append_after_existing_ones() {
    let mut items = Vec::new();
    let doc = bib(vec![with_fields(BibDeclKind::Entry, "@article"), string_decl(Some(tok(8, "key")), 22)]);
    find_entry_symbols(&doc, &types(), &mut items);
    find_string_symbols(&doc, &mut items);
    assert_eq!(items.len(), 2);
    assert_eq!(items[0].kind, LatexSymbolKind::Entry(EntryCategory::Article));
    assert_eq!(items[1].kind, LatexSymbolKind::String);
}

#[test]
fn label_name_and_selection_range() {
    let label = LabelDef {
        range: Range::new_simple(2, 0, 2, 14),
        name: "sec:intro".to_string(),
        descriptor: None,
        kind: LabelKind::Section,
        header: None,
    };
    assert_eq!(label_name(Some(&label)), Some("sec:intro".to_string()));
    assert_eq!(label_name(None), None);
    let full = Range::new_simple(1, 0, 5, 0);
    assert_eq!(selection_range(full, Some(&label)), Range::new_simple(2, 0, 2, 14));
    assert_eq!(selection_range(full, None), full);
}

#[test]
fn entry_category_ignores_letter_case_and_defaults_to_misc() {
    let mut items = Vec::new();
    find_entry_symbols(&bib(vec![with_fields(BibDeclKind::Entry, "@BOOK")]), &types(), &mut items);
    find_entry_symbols(&bib(vec![with_fields(BibDeclKind::Entry, "@online")]), &types(), &mut items);
    assert_eq!(items[0].kind, LatexSymbolKind::Entry(EntryCategory::Book));
    assert_eq!(items[1].kind, LatexSymbolKind::Entry(EntryCategory::Misc));
}
