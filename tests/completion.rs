use texcomplete::complete::{
    complete_arguments, complete_bibtex_commands, complete_classes, complete_fields, complete_packages,
    complete_begin_command, complete_citations, complete_color_models, complete_colors,
    complete_component_commands, complete_component_environments, complete_entry_types,
    complete_glossary_entries, complete_labels, complete_pgf_libraries,
    complete_theorem_environments, complete_tikz_libraries, complete_user_commands,
    complete_user_environments, CompletionContext, CompletionRequest, LanguageData,
};
use texcomplete::doc::{
    BibDecl, BibDeclKind, BibField, BibtexTable, Component, ComponentCommand, ComponentDatabase, Document,
    DocumentContent, DocumentView, GlossaryEntryDef, LabelDef, LabelKind, LatexTable,
};
use texcomplete::pattern::ArgumentSignature;
use texcomplete::item::ItemKind;
use texcomplete::pos::{Position, Range};
use texcomplete::rank::EnvironmentInfo;
use texcomplete::scope::{find_scopes, CompletionScope};
use texcomplete::syntax::{GroupKind, LatexGroup, LatexNodeKind, LatexTree, Token};

// A small reader that turns LaTeX text into the tree shape that the parser
// hands the completion engine: commands with their argument groups, groups
// that end at their closing brace or at the end of the line, and words.
struct Reader {
    lines: Vec<Vec<char>>,
    line: usize,
    col: usize,
}

fn pos(line: usize, col: usize) -> Position {
    Position::new(line as u32, col as u32)
}

impl Reader {
    fn at_eol(&self) -> bool {
        self.col >= self.lines[self.line].len()
    }

    fn peek(&self) -> Option<char> {
        self.lines[self.line].get(self.col).copied()
    }

    fn content(&mut self, tree: &mut LatexTree, parent: usize, close: Option<char>) -> bool {
        loop {
            if self.at_eol() {
                if close.is_some() || self.line + 1 >= self.lines.len() {
                    return false;
                }
                self.line += 1;
                self.col = 0;
                continue;
            }
            let c = self.peek().unwrap();
            if Some(c) == close {
                return true;
            }
            match c {
                '\\' => self.command(tree, parent),
                '{' => self.group(tree, parent, GroupKind::Group, '}'),
                '[' => self.group(tree, parent, GroupKind::Options, ']'),
                '}' | ']' => self.col += 1,
                c if c.is_whitespace() => self.col += 1,
                _ => self.text(tree, parent),
            }
        }
    }

    fn command(&mut self, tree: &mut LatexTree, parent: usize) {
        let line = self.line;
        let start = self.col;
        self.col += 1;
        match self.peek() {
            Some(c) if c.is_ascii_alphabetic() => {
                while matches!(self.peek(), Some(c) if c.is_ascii_alphabetic()) {
                    self.col += 1;
                }
            }
            Some(_) => self.col += 1,
            None => {}
        }
        let name: String = self.lines[line][start..self.col].iter().collect();
        let name_range = Range::new_simple(line as u32, start as u32, line as u32, self.col as u32);
        let node = tree.add(parent, name_range, LatexNodeKind::Command(Token::new(name_range, &name)));
        loop {
            match self.peek() {
                Some('{') => self.group(tree, node, GroupKind::Group, '}'),
                Some('[') => self.group(tree, node, GroupKind::Options, ']'),
                _ => break,
            }
        }
        tree.nodes[node].range.end = pos(self.line, self.col);
    }

    fn group(&mut self, tree: &mut LatexTree, parent: usize, kind: GroupKind, close: char) {
        let line = self.line;
        let start = self.col;
        let node = tree.add(
            parent,
            Range::new_simple(line as u32, start as u32, line as u32, start as u32 + 1),
            LatexNodeKind::Group(LatexGroup { kind, right: None }),
        );
        self.col += 1;
        let closed = self.content(tree, node, Some(close));
        let end = if closed {
            let right = Range::new_simple(self.line as u32, self.col as u32, self.line as u32, self.col as u32 + 1);
            tree.nodes[node].kind = LatexNodeKind::Group(LatexGroup { kind, right: Some(right) });
            self.col += 1;
            pos(self.line, self.col)
        } else {
            pos(self.line, self.lines[self.line].len())
        };
        tree.nodes[node].range.end = end;
    }

    fn text(&mut self, tree: &mut LatexTree, parent: usize) {
        let line = self.line;
        let mut words = Vec::new();
        loop {
            while matches!(self.peek(), Some(c) if c == ' ' || c == '\t') {
                self.col += 1;
            }
            let start = self.col;
            while matches!(self.peek(), Some(c) if !c.is_whitespace() && !"\\{}[]".contains(c)) {
                self.col += 1;
            }
            if self.col == start {
                break;
            }
            let text: String = self.lines[line][start..self.col].iter().collect();
            let range = Range::new_simple(line as u32, start as u32, line as u32, self.col as u32);
            words.push(Token::new(range, &text));
        }
        if words.is_empty() {
            return;
        }
        let range = Range { start: words[0].range.start, end: words[words.len() - 1].range.end };
        tree.add(parent, range, LatexNodeKind::Text(words));
    }
}

fn parse(text: &str) -> LatexTree {
    let lines: Vec<Vec<char>> = text.split('\n').map(|l| l.chars().collect()).collect();
    let last = lines.len() - 1;
    let mut tree = LatexTree::new(Range::new_simple(0, 0, last as u32, lines[last].len() as u32));
    let mut reader = Reader { lines, line: 0, col: 0 };
    reader.content(&mut tree, 0, None);
    tree
}

fn table(tree: LatexTree) -> LatexTable {
    LatexTable {
        tree,
        environments: Vec::new(),
        labels: Vec::new(),
        theorem_definitions: Vec::new(),
        glossary_entries: Vec::new(),
        components: Vec::new(),
    }
}

fn lines(text: &str) -> Vec<String> {
    text.split('\n').map(|l| l.to_string()).collect()
}

fn latex_with(uri: &str, text: &str, edit: impl FnOnce(&mut LatexTable)) -> Document {
    let mut t = table(parse(text));
    edit(&mut t);
    Document { uri: uri.to_string(), lines: lines(text), content: DocumentContent::Latex(t) }
}

fn latex(uri: &str, text: &str) -> Document {
    latex_with(uri, text, |_| {})
}

fn tok(line: u32, start: u32, text: &str) -> Token {
    Token::new(Range::new_simple(line, start, line, start + text.chars().count() as u32), text)
}

fn entry(ty_start: u32, ty: &str, key: Option<(u32, &str)>, kind: BibDeclKind, code: &str) -> BibDecl {
    BibDecl {
        range: Range::new_simple(0, ty_start, 0, ty_start + code.chars().count() as u32),
        ty: tok(0, ty_start, ty),
        key: key.map(|(s, k)| tok(0, s, k)),
        fields: Vec::new(),
        kind,
        code: code.to_string(),
    }
}

fn bib(uri: &str, text: &str, decls: Vec<BibDecl>) -> Document {
    Document {
        uri: uri.to_string(),
        lines: lines(text),
        content: DocumentContent::Bibtex(BibtexTable { decls, commands: Vec::new() }),
    }
}

fn sig(name: &str, index: usize, restricted: bool) -> ArgumentSignature {
    ArgumentSignature { name: name.to_string(), index, restricted }
}

fn strings(names: &[&str]) -> Vec<String> {
    names.iter().map(|s| s.to_string()).collect()
}

fn data() -> LanguageData {
    LanguageData {
        colors: strings(&["black", "blue", "red", "green"]),
        color_commands: vec![sig("color", 0, false), sig("textcolor", 0, false), sig("colorbox", 0, false)],
        color_models: strings(&["HTML", "RGB", "cmyk", "gray", "rgb"]),
        color_model_commands: vec![sig("definecolor", 1, false), sig("definecolorset", 0, false)],
        citation_commands: vec![sig("cite", 0, false), sig("citep", 0, false), sig("parencite", 0, false)],
        label_reference_commands: vec![sig("ref", 0, false), sig("pageref", 0, false), sig("eqref", 0, true)],
        glossary_reference_commands: vec![sig("gls", 0, false), sig("acrfull", 0, true)],
        pgf_libraries: strings(&["arrows", "patterns", "shapes"]),
        pgf_library_commands: vec![sig("usepgflibrary", 0, false)],
        tikz_libraries: strings(&["calc", "positioning", "matrix"]),
        tikz_library_commands: vec![sig("usetikzlibrary", 0, false)],
        entry_types: strings(&["article", "book", "misc"]),
        fields: strings(&["author", "title", "year"]),
        math_environments: strings(&["align", "equation"]),
        class_commands: vec![sig("documentclass", 0, false)],
        package_commands: vec![sig("usepackage", 0, false), sig("RequirePackage", 0, false)],
    }
}

fn component(files: &[&str], commands: &[&str], environments: &[&str]) -> Component {
    Component {
        file_names: strings(files),
        references: Vec::new(),
        commands: commands
            .iter()
            .map(|c| ComponentCommand { name: c.to_string(), parameters: Vec::new() })
            .collect(),
        environments: strings(environments),
    }
}

fn db() -> ComponentDatabase {
    ComponentDatabase {
        components: vec![
            component(&["latex.ltx"], &["begin", "end", "usepackage", "documentclass", "section"], &["document", "itemize"]),
            component(&["lipsum.sty"], &["lipsum"], &[]),
            component(&["book.cls"], &["chapter"], &[]),
            component(&["geometry.sty"], &["geometry", "newgeometry"], &[]),
            Component {
                file_names: strings(&["amsfonts.sty"]),
                references: Vec::new(),
                commands: vec![ComponentCommand {
                    name: "mathbb".to_string(),
                    parameters: vec![strings(&["A", "B", "C", "R"])],
                }],
                environments: Vec::new(),
            },
            component(&["article.cls"], &["maketitle"], &[]),
        ],
        kernel: 0,
    }
}

fn request(current: Document, related: Vec<Document>, line: u32, character: u32) -> CompletionRequest {
    let db = db();
    let view = DocumentView::analyze(current, related, &db);
    CompletionRequest {
        view,
        db,
        data: data(),
        position: Position::new(line, character),
        resolver_files: strings(&["amsmath.sty", "beamer.cls", "lipsum.sty", "local.bib"]),
    }
}

fn single(doc: Document, line: u32, character: u32) -> CompletionRequest {
    request(doc.clone(), vec![doc], line, character)
}

fn run(req: &CompletionRequest, generator: fn(&mut CompletionContext, &CompletionRequest)) -> CompletionContext {
    let mut ctx = CompletionContext::new(req);
    generator(&mut ctx, req);
    ctx
}

fn labels(ctx: &CompletionContext) -> Vec<String> {
    ctx.items.iter().map(|i| i.label.clone()).collect()
}

fn empty_latex() -> CompletionRequest {
    single(latex("main.tex", ""), 0, 0)
}

fn empty_bibtex() -> CompletionRequest {
    single(bib("main.bib", "", Vec::new()), 0, 0)
}

#[test]
fn inside_color() {
    let ctx = run(&single(latex("main.tex", "\\color{}"), 0, 7), complete_colors);
    assert!(!ctx.items.is_empty());
    assert_eq!(ctx.items[0].range, Range::new_simple(0, 7, 0, 7));
}

#[test]
fn outside_color() {
    let ctx = run(&single(latex("main.tex", "\\color{}"), 0, 8), complete_colors);
    assert!(ctx.items.is_empty());
}

#[test]
fn color_empty_latex_document() {
    assert!(run(&empty_latex(), complete_colors).items.is_empty());
}

#[test]
fn color_empty_bibtex_document() {
    assert!(run(&empty_bibtex(), complete_colors).items.is_empty());
}

#[test]
fn inside_define_color() {
    let ctx = run(&single(latex("main.tex", "\\definecolor{name}{}"), 0, 19), complete_color_models);
    assert!(!ctx.items.is_empty());
    assert_eq!(ctx.items[0].range, Range::new_simple(0, 19, 0, 19));
}

#[test]
fn inside_define_color_set() {
    let ctx = run(&single(latex("main.tex", "\\definecolorset{}"), 0, 16), complete_color_models);
    assert!(!ctx.items.is_empty());
    assert_eq!(ctx.items[0].range, Range::new_simple(0, 16, 0, 16));
}

#[test]
fn color_model_empty_latex_document() {
    assert!(run(&empty_latex(), complete_color_models).items.is_empty());
}

#[test]
fn color_model_empty_bibtex_document() {
    assert!(run(&empty_bibtex(), complete_color_models).items.is_empty());
}

#[test]
fn command_start() {
    let ctx = run(&single(latex("main.tex", "\\use"), 0, 0), complete_component_commands);
    assert!(ctx.items.is_empty());
}

#[test]
fn command_end() {
    let ctx = run(&single(latex("main.tex", "\\use"), 0, 4), complete_component_commands);
    assert!(!ctx.items.is_empty());
    assert_eq!(ctx.items[0].range, Range::new_simple(0, 1, 0, 4));
}

#[test]
fn command_word() {
    let ctx = run(&single(latex("main.tex", "use"), 0, 2), complete_component_commands);
    assert!(ctx.items.is_empty());
}

#[test]
fn command_package() {
    let doc = latex_with("main.tex", "\\usepackage{lipsum}\n\\lips\n", |t| {
        t.components = strings(&["lipsum.sty"]);
    });
    let ctx = run(&single(doc, 1, 2), complete_component_commands);
    assert!(ctx.items.iter().any(|item| item.label == "lipsum"));
}

#[test]
fn command_package_comma_separated() {
    let doc = latex_with("main.tex", "\\usepackage{geometry, lipsum}\n\\lips\n", |t| {
        t.components = strings(&["geometry.sty", "lipsum.sty"]);
    });
    let ctx = run(&single(doc, 1, 2), complete_component_commands);
    assert!(ctx.items.iter().any(|item| item.label == "lipsum"));
}

#[test]
fn command_class() {
    let doc = latex_with("main.tex", "\\documentclass{book}\n\\chap\n", |t| {
        t.components = strings(&["book.cls"]);
    });
    let ctx = run(&single(doc, 1, 2), complete_component_commands);
    assert!(ctx.items.iter().any(|item| item.label == "chapter"));
}

#[test]
fn environment_inside_of_empty_begin() {
    let ctx = run(&single(latex("main.tex", "\\begin{}"), 0, 7), complete_component_environments);
    assert!(!ctx.items.is_empty());
    assert_eq!(ctx.items[0].range, Range::new_simple(0, 7, 0, 7));
}

#[test]
fn environment_inside_of_non_empty_end() {
    let ctx = run(&single(latex("main.tex", "\\end{foo}"), 0, 6), complete_component_environments);
    assert!(!ctx.items.is_empty());
    assert_eq!(ctx.items[0].range, Range::new_simple(0, 5, 0, 8));
}

#[test]
fn environment_outside_of_empty_begin() {
    let ctx = run(&single(latex("main.tex", "\\begin{}"), 0, 6), complete_component_environments);
    assert!(ctx.items.is_empty());
}

#[test]
fn environment_outside_of_empty_end() {
    let ctx = run(&single(latex("main.tex", "\\end{}"), 0, 6), complete_component_environments);
    assert!(ctx.items.is_empty());
}

#[test]
fn environment_inside_of_other_command() {
    let ctx = run(&single(latex("main.tex", "\\foo{bar}"), 0, 6), complete_component_environments);
    assert!(ctx.items.is_empty());
}

#[test]
fn environment_inside_second_argument() {
    let ctx = run(&single(latex("main.tex", "\\begin{foo}{bar}"), 0, 14), complete_component_environments);
    assert!(ctx.items.is_empty());
}

#[test]
fn environment_unterminated() {
    let ctx = run(&single(latex("main.tex", "\\begin{foo"), 0, 7), complete_component_environments);
    assert!(!ctx.items.is_empty());
    assert_eq!(ctx.items[0].range, Range::new_simple(0, 7, 0, 10));
}

#[test]
fn component_empty_latex_document_command() {
    assert!(run(&empty_latex(), complete_component_commands).items.is_empty());
}

#[test]
fn component_empty_bibtex_document_command() {
    assert!(run(&empty_bibtex(), complete_component_commands).items.is_empty());
}

#[test]
fn component_empty_latex_document_environment() {
    assert!(run(&empty_latex(), complete_component_environments).items.is_empty());
}

#[test]
fn component_empty_bibtex_document_environment() {
    assert!(run(&empty_bibtex(), complete_component_environments).items.is_empty());
}

#[test]
fn after_backslash() {
    let ctx = run(&single(latex("main.tex", "\\"), 0, 1), complete_begin_command);
    assert_eq!(ctx.items.len(), 1);
}

#[test]
fn begin_cmd_empty_latex_document() {
    assert!(run(&empty_latex(), complete_begin_command).items.is_empty());
}

#[test]
fn begin_cmd_empty_bibtex_document() {
    assert!(run(&empty_bibtex(), complete_begin_command).items.is_empty());
}

fn type_only(text: &str) -> Document {
    bib("main.bib", text, vec![entry(0, text, None, BibDeclKind::Entry, text)])
}

#[test]
fn before_at_sign() {
    let ctx = run(&single(type_only("@"), 0, 0), complete_entry_types);
    assert!(ctx.items.is_empty());
}

#[test]
fn after_at_sign() {
    let ctx = run(&single(type_only("@"), 0, 1), complete_entry_types);
    assert!(!ctx.items.is_empty());
    assert_eq!(ctx.items[0].range, Range::new_simple(0, 1, 0, 1));
}

#[test]
fn entry_type_inside_entry_type() {
    let ctx = run(&single(type_only("@foo"), 0, 2), complete_entry_types);
    assert!(!ctx.items.is_empty());
    assert_eq!(ctx.items[0].range, Range::new_simple(0, 1, 0, 4));
}

#[test]
fn inside_entry_key() {
    let text = "@article{foo,}";
    let doc = bib("main.bib", text, vec![entry(0, "@article", Some((9, "foo")), BibDeclKind::Entry, text)]);
    let ctx = run(&single(doc, 0, 11), complete_entry_types);
    assert!(ctx.items.is_empty());
}

#[test]
fn inside_comments() {
    let ctx = run(&single(bib("main.bib", "foo", Vec::new()), 0, 2), complete_entry_types);
    assert!(ctx.items.is_empty());
}

#[test]
fn entry_type_empty_latex_document() {
    assert!(run(&empty_latex(), complete_entry_types).items.is_empty());
}

#[test]
fn entry_type_empty_bibtex_document() {
    assert!(run(&empty_bibtex(), complete_entry_types).items.is_empty());
}

#[test]
fn acronym() {
    let doc = latex_with("main.tex", "\\newacronym{lvm}{LVM}{Logical Volume Manager}\n\\acrfull{foo}\n", |t| {
        t.glossary_entries = vec![GlossaryEntryDef { name: "lvm".to_string(), acronym: true }];
    });
    let ctx = run(&single(doc, 1, 9), complete_glossary_entries);
    assert_eq!(ctx.items.len(), 1);
    assert_eq!(ctx.items[0].label, "lvm");
    assert_eq!(ctx.items[0].range, Range::new_simple(1, 9, 1, 12));
}

#[test]
fn glossary_general_reference_takes_every_entry() {
    let doc = latex_with("main.tex", "\\gls{}", |t| {
        t.glossary_entries = vec![
            GlossaryEntryDef { name: "lvm".to_string(), acronym: true },
            GlossaryEntryDef { name: "disk".to_string(), acronym: false },
        ];
    });
    let ctx = run(&single(doc, 0, 5), complete_glossary_entries);
    assert_eq!(labels(&ctx), vec!["lvm", "disk"]);
}

#[test]
fn glossary_empty_latex_document() {
    assert!(run(&empty_latex(), complete_glossary_entries).items.is_empty());
}

#[test]
fn glossary_empty_bibtex_document() {
    assert!(run(&empty_bibtex(), complete_glossary_entries).items.is_empty());
}

fn label(name: &str) -> LabelDef {
    label_at(name, Range::new_simple(0, 0, 0, 0))
}

fn label_at(name: &str, range: Range) -> LabelDef {
    LabelDef {
        range,
        name: name.to_string(),
        descriptor: None,
        kind: LabelKind::Plain,
        header: None,
    }
}

#[test]
fn inside_of_ref() {
    let foo = latex("foo.tex", "\\addbibresource{bar.bib}\n\\include{baz}\n\\ref{}\n");
    let baz = latex_with("baz.tex", "\\label{foo}\\label{bar}\\ref{baz}", |t| {
        t.labels = vec![label("foo"), label("bar")];
    });
    let ctx = run(&request(foo.clone(), vec![foo, baz], 2, 5), complete_labels);
    assert_eq!(labels(&ctx), vec!["foo", "bar"]);
}

#[test]
fn outside_of_ref() {
    let foo = latex("foo.tex", "\\include{bar}\n\\ref{}\n");
    let bar = latex_with("bar.tex", "\\label{foo}\\label{bar}", |t| {
        t.labels = vec![label("foo"), label("bar")];
    });
    let ctx = run(&request(foo.clone(), vec![foo, bar], 1, 6), complete_labels);
    assert!(ctx.items.is_empty());
}

#[test]
fn eqref() {
    let doc = latex_with("main.tex", "\\begin{align}\\label{foo}\\end{align}\\label{bar}\n\\eqref{}\n", |t| {
        t.labels = vec![
            label_at("foo", Range::new_simple(0, 13, 0, 24)),
            label_at("bar", Range::new_simple(0, 35, 0, 46)),
        ];
        t.environments = vec![environment("align", 1, 7, Range::new_simple(0, 0, 0, 35))];
    });
    let ctx = run(&single(doc, 1, 7), complete_labels);
    assert_eq!(labels(&ctx), vec!["foo"]);
}

#[test]
fn label_text_carries_the_descriptor() {
    let doc = latex_with("main.tex", "\\ref{}", |t| {
        t.labels = vec![LabelDef {
            range: Range::new_simple(0, 0, 0, 0),
            name: "sec:intro".to_string(),
            descriptor: Some("Section 1 (Introduction)".to_string()),
            kind: LabelKind::Section,
            header: Some("Section (Introduction)".to_string()),
        }];
    });
    let ctx = run(&single(doc, 0, 5), complete_labels);
    assert_eq!(ctx.items[0].label, "sec:intro");
    assert_eq!(ctx.items[0].text, "sec:intro Section 1 (Introduction)");
    assert_eq!(ctx.items[0].kind, ItemKind::Label(LabelKind::Section));
    assert_eq!(ctx.items[0].detail, Some("Section (Introduction)".to_string()));
}

#[test]
fn label_empty_latex_document() {
    assert!(run(&empty_latex(), complete_labels).items.is_empty());
}

#[test]
fn label_empty_bibtex_document() {
    assert!(run(&empty_bibtex(), complete_labels).items.is_empty());
}

#[test]
fn same_label_in_two_documents_gives_two_candidates() {
    let main = latex_with("main.tex", "\\ref{}", |t| t.labels = vec![label("foo")]);
    let other = latex_with("other.tex", "\\label{foo}", |t| t.labels = vec![label("foo")]);
    let ctx = run(&request(main.clone(), vec![main, other], 0, 5), complete_labels);
    assert_eq!(labels(&ctx), vec!["foo", "foo"]);
}

fn theorem_doc() -> Document {
    latex_with("main.tex", "\\newtheorem{theorem}{Theorem}\n\\begin{th}\n", |t| {
        t.theorem_definitions = strings(&["theorem"]);
    })
}

#[test]
fn inside_begin() {
    let ctx = run(&single(theorem_doc(), 1, 8), complete_theorem_environments);
    assert_eq!(ctx.items.len(), 1);
    assert_eq!(ctx.items[0].label, "theorem");
    assert_eq!(ctx.items[0].range, Range::new_simple(1, 7, 1, 9));
}

#[test]
fn outside_begin() {
    let ctx = run(&single(theorem_doc(), 1, 10), complete_theorem_environments);
    assert!(ctx.items.is_empty());
}

#[test]
fn theorem_from_a_sibling_document() {
    let main = latex("main.tex", "\\begin{th}");
    let sibling = latex_with("defs.tex", "\\newtheorem{theorem}{Theorem}", |t| {
        t.theorem_definitions = strings(&["theorem"]);
    });
    let ctx = run(&request(main.clone(), vec![main, sibling], 0, 8), complete_theorem_environments);
    assert_eq!(labels(&ctx), vec!["theorem"]);
    assert_eq!(ctx.items[0].range, Range::new_simple(0, 7, 0, 9));
}

#[test]
fn theorem_empty_latex_document() {
    assert!(run(&empty_latex(), complete_theorem_environments).items.is_empty());
}

#[test]
fn theorem_empty_bibtex_document() {
    assert!(run(&empty_bibtex(), complete_theorem_environments).items.is_empty());
}

#[test]
fn pgf_library() {
    let ctx = run(&single(latex("main.tex", "\\usepgflibrary{}"), 0, 15), complete_pgf_libraries);
    assert!(!ctx.items.is_empty());
}

#[test]
fn tikz_library() {
    let ctx = run(&single(latex("main.tex", "\\usetikzlibrary{}"), 0, 16), complete_tikz_libraries);
    assert!(!ctx.items.is_empty());
}

#[test]
fn empty_latex_document_pgf() {
    assert!(run(&empty_latex(), complete_pgf_libraries).items.is_empty());
}

#[test]
fn empty_bibtex_document_pgf() {
    assert!(run(&empty_bibtex(), complete_pgf_libraries).items.is_empty());
}

#[test]
fn empty_latex_document_tikz() {
    assert!(run(&empty_latex(), complete_tikz_libraries).items.is_empty());
}

#[test]
fn empty_bibtex_document_tikz() {
    assert!(run(&empty_bibtex(), complete_tikz_libraries).items.is_empty());
}

#[test]
fn user_command() {
    let foo = latex("foo.tex", "\\include{bar}\n\\foo\n");
    let bar = latex("bar.tex", "\\bar");
    let ctx = run(&request(foo.clone(), vec![foo, bar], 1, 2), complete_user_commands);
    assert_eq!(labels(&ctx), vec!["include", "bar"]);
}

fn environment(name: &str, begin_node: usize, end_node: usize, range: Range) -> EnvironmentInfo {
    EnvironmentInfo {
        name: Some(name.to_string()),
        end_name: Some(name.to_string()),
        begin_node,
        end_node,
        range,
        end_argument: range,
        end_argument_closed: true,
    }
}

fn command_node(doc: &Document, name: &str) -> usize {
    match &doc.content {
        DocumentContent::Latex(t) => t
            .tree
            .nodes
            .iter()
            .position(|n| matches!(&n.kind, LatexNodeKind::Command(tok) if tok.text == name))
            .unwrap(),
        DocumentContent::Bibtex(_) => unreachable!(),
    }
}

fn unique(mut names: Vec<String>) -> Vec<String> {
    let mut seen = Vec::new();
    names.retain(|n| {
        let new = !seen.contains(n);
        seen.push(n.clone());
        new
    });
    names
}

#[test]
fn user_environment() {
    let text = "\\include{bar}\n\\begin{foo}\n";
    let plain = latex("foo.tex", text);
    let begin = command_node(&plain, "\\begin");
    let foo = latex_with("foo.tex", text, |t| {
        t.environments = vec![environment("foo", begin, begin, Range::new_simple(1, 0, 1, 11))];
    });
    let bar_text = "\\begin{bar}\\end{bar}";
    let bar = latex_with("bar.tex", bar_text, |t| {
        t.environments = vec![environment("bar", 1, 4, Range::new_simple(0, 0, 0, 20))];
    });
    let ctx = run(&request(foo.clone(), vec![foo, bar], 1, 9), complete_user_environments);
    assert_eq!(unique(labels(&ctx)), vec!["bar"]);
    assert!(ctx.items.iter().all(|i| i.detail == Some("user-defined".to_string())));
}

#[test]
fn environment_of_another_document_at_the_same_node_is_kept() {
    let text = "\\begin{foo}";
    let main = latex("main.tex", text);
    let other = latex_with("other.tex", text, |t| {
        t.environments = vec![environment("baz", 1, 1, Range::new_simple(0, 0, 0, 11))];
    });
    let ctx = run(&request(main.clone(), vec![main, other], 0, 8), complete_user_environments);
    assert_eq!(unique(labels(&ctx)), vec!["baz"]);
}

#[test]
fn user_empty_latex_document_command() {
    assert!(run(&empty_latex(), complete_user_commands).items.is_empty());
}

#[test]
fn user_empty_bibtex_document_command() {
    assert!(run(&empty_bibtex(), complete_user_commands).items.is_empty());
}

#[test]
fn user_empty_latex_document_environment() {
    assert!(run(&empty_latex(), complete_user_environments).items.is_empty());
}

#[test]
fn user_empty_bibtex_document_environment() {
    assert!(run(&empty_bibtex(), complete_user_environments).items.is_empty());
}

fn cite_request(text: &str, line: u32, character: u32) -> CompletionRequest {
    let main = latex("foo.tex", text);
    let bar = bib(
        "bar.bib",
        "@article{foo,}",
        vec![entry(0, "@article", Some((9, "foo")), BibDeclKind::Entry, "@article{foo,\n}")],
    );
    request(main.clone(), vec![main, bar], line, character)
}

#[test]
fn incomplete() {
    let ctx = run(&cite_request("\\addbibresource{main.bib}\n\\cite{\n\\begin{foo}\n\\end{bar}\n", 1, 6), complete_citations);
    assert_eq!(ctx.items.len(), 1);
    assert_eq!(ctx.items[0].label, "foo");
    assert_eq!(ctx.items[0].range, Range::new_simple(1, 6, 1, 6));
}

#[test]
fn empty_key() {
    let ctx = run(&cite_request("\\addbibresource{bar.bib}\n\\cite{}\n", 1, 6), complete_citations);
    assert_eq!(ctx.items.len(), 1);
    assert_eq!(ctx.items[0].label, "foo");
    assert_eq!(ctx.items[0].range, Range::new_simple(1, 6, 1, 6));
}

#[test]
fn single_key() {
    let ctx = run(&cite_request("\\addbibresource{bar.bib}\n\\cite{foo}\n", 1, 6), complete_citations);
    assert_eq!(ctx.items.len(), 1);
    assert_eq!(ctx.items[0].label, "foo");
    assert_eq!(ctx.items[0].range, Range::new_simple(1, 6, 1, 9));
}

#[test]
fn second_key() {
    let ctx = run(&cite_request("\\addbibresource{bar.bib}\n\\cite{foo,}\n", 1, 10), complete_citations);
    assert_eq!(ctx.items.len(), 1);
    assert_eq!(ctx.items[0].label, "foo");
    assert_eq!(ctx.items[0].range, Range::new_simple(1, 10, 1, 10));
}

#[test]
fn outside_cite() {
    let ctx = run(&cite_request("\\addbibresource{bar.bib}\n\\cite{}\n", 1, 7), complete_citations);
    assert!(ctx.items.is_empty());
}

#[test]
fn cursor_mid_word_replaces_the_whole_key() {
    let ctx = run(&cite_request("\\cite{foo}", 0, 7), complete_citations);
    assert_eq!(ctx.items[0].range, Range::new_simple(0, 6, 0, 9));
}

#[test]
fn cursor_in_second_key_replaces_that_key_only() {
    let ctx = run(&cite_request("\\cite{foo,ba}", 0, 11), complete_citations);
    assert_eq!(ctx.items[0].range, Range::new_simple(0, 10, 0, 12));
}

#[test]
fn citation_text_and_uri() {
    let ctx = run(&cite_request("\\cite{}", 0, 6), complete_citations);
    assert_eq!(ctx.items[0].text, "foo @articlefoo");
    assert_eq!(ctx.items[0].uri, Some("bar.bib".to_string()));
}

#[test]
fn citation_empty_latex_document() {
    assert!(run(&empty_latex(), complete_citations).items.is_empty());
}

#[test]
fn citation_empty_bibtex_document() {
    assert!(run(&empty_bibtex(), complete_citations).items.is_empty());
}

#[test]
fn comment_entries_are_not_cited() {
    let main = latex("main.tex", "\\cite{}");
    let refs = bib(
        "refs.bib",
        "@comment{foo,}",
        vec![entry(0, "@comment", Some((9, "foo")), BibDeclKind::Comment, "@comment{foo,}")],
    );
    let ctx = run(&request(main.clone(), vec![main, refs], 0, 6), complete_citations);
    assert!(ctx.items.is_empty());
}

fn mathbb(text: &str) -> Document {
    latex_with("main.tex", text, |t| t.components = strings(&["amsfonts.sty"]))
}

#[test]
fn inside_mathbb_empty() {
    let ctx = run(&single(mathbb("\\usepackage{amsfonts}\n\\mathbb{}\n"), 1, 8), complete_arguments);
    assert!(!ctx.items.is_empty());
    assert_eq!(ctx.items[0].range, Range::new_simple(1, 8, 1, 8));
}

#[test]
fn inside_mathbb_non_empty() {
    let ctx = run(&single(mathbb("\\usepackage{amsfonts}\n\\mathbb{foo}\n"), 1, 8), complete_arguments);
    assert!(!ctx.items.is_empty());
    assert_eq!(ctx.items[0].range, Range::new_simple(1, 8, 1, 11));
}

#[test]
fn outside_mathbb_empty() {
    let ctx = run(&single(mathbb("\\usepackage{amsfonts}\n\\mathbb{}\n"), 1, 9), complete_arguments);
    assert!(ctx.items.is_empty());
}

#[test]
fn mathbb_without_its_package_gives_nothing() {
    let ctx = run(&single(latex("main.tex", "\\mathbb{}"), 0, 8), complete_arguments);
    assert!(ctx.items.is_empty());
}

#[test]
fn argument_empty_latex_document() {
    assert!(run(&empty_latex(), complete_arguments).items.is_empty());
}

#[test]
fn argument_empty_bibtex_document() {
    assert!(run(&empty_bibtex(), complete_arguments).items.is_empty());
}

#[test]
fn class() {
    let ctx = run(&single(latex("main.tex", "\\documentclass{}"), 0, 15), complete_classes);
    assert!(ctx.items.iter().any(|item| item.label == "beamer"));
    assert!(ctx.items.iter().all(|item| item.label != "amsmath"));
    assert_eq!(labels(&ctx), vec!["book", "article", "beamer"]);
}

#[test]
fn package() {
    let ctx = run(&single(latex("main.tex", "\\usepackage{}"), 0, 12), complete_packages);
    assert!(ctx.items.iter().all(|item| item.label != "beamer"));
    assert!(ctx.items.iter().any(|item| item.label == "amsmath"));
    assert_eq!(labels(&ctx), vec!["lipsum", "geometry", "amsfonts", "amsmath"]);
}

#[test]
fn empty_latex_document_class() {
    assert!(run(&empty_latex(), complete_classes).items.is_empty());
}

#[test]
fn empty_bibtex_document_class() {
    assert!(run(&empty_bibtex(), complete_classes).items.is_empty());
}

#[test]
fn empty_latex_document_package() {
    assert!(run(&empty_latex(), complete_packages).items.is_empty());
}

#[test]
fn empty_bibtex_document_package() {
    assert!(run(&empty_bibtex(), complete_packages).items.is_empty());
}

fn field(line: u32, start: u32, name: &str, end: u32) -> BibField {
    BibField { name: tok(line, start, name), range: Range::new_simple(line, start, line, end) }
}

fn article(range: Range, fields: Vec<BibField>) -> BibDecl {
    BibDecl {
        range,
        ty: tok(0, 0, "@article"),
        key: Some(tok(0, 9, "foo")),
        fields,
        kind: BibDeclKind::Entry,
        code: String::new(),
    }
}

#[test]
fn inside_first_field() {
    let decl = article(Range::new_simple(0, 0, 1, 4), vec![field(1, 0, "bar", 3)]);
    let ctx = run(&single(bib("main.bib", "@article{foo,\nbar}\n", vec![decl]), 1, 1), complete_fields);
    assert!(!ctx.items.is_empty());
    assert_eq!(ctx.items[0].range, Range::new_simple(1, 0, 1, 3));
}

#[test]
fn inside_second_field() {
    let decl = article(Range::new_simple(0, 0, 0, 31), vec![field(0, 14, "bar", 25), field(0, 27, "qux", 30)]);
    let ctx = run(&single(bib("main.bib", "@article{foo, bar = {baz}, qux}", vec![decl]), 0, 27), complete_fields);
    assert!(!ctx.items.is_empty());
    assert_eq!(ctx.items[0].range, Range::new_simple(0, 27, 0, 30));
}

#[test]
fn inside_entry() {
    let decl = article(Range::new_simple(0, 0, 1, 1), Vec::new());
    let ctx = run(&single(bib("main.bib", "@article{foo,\n}\n", vec![decl]), 1, 0), complete_fields);
    assert!(!ctx.items.is_empty());
    assert_eq!(ctx.items[0].range, Range::new_simple(1, 0, 1, 0));
}

#[test]
fn inside_content() {
    let decl = article(Range::new_simple(0, 0, 1, 12), vec![field(1, 0, "bar", 11)]);
    let ctx = run(&single(bib("main.bib", "@article{foo,\nbar = {baz}}\n", vec![decl]), 1, 7), complete_fields);
    assert!(ctx.items.is_empty());
}

#[test]
fn field_inside_entry_type() {
    let decl = article(Range::new_simple(0, 0, 0, 14), Vec::new());
    let ctx = run(&single(bib("main.bib", "@article{foo,}", vec![decl]), 0, 3), complete_fields);
    assert!(ctx.items.is_empty());
}

#[test]
fn field_empty_latex_document() {
    assert!(run(&empty_latex(), complete_fields).items.is_empty());
}

#[test]
fn field_empty_bibtex_document() {
    assert!(run(&empty_bibtex(), complete_fields).items.is_empty());
}

fn with_command(text: &str, commands: Vec<Token>) -> Document {
    let decl = article(Range::new_simple(0, 0, 1, 2), Vec::new());
    Document {
        uri: "main.bib".to_string(),
        lines: lines(text),
        content: DocumentContent::Bibtex(BibtexTable { decls: vec![decl], commands }),
    }
}

#[test]
fn inside_comment() {
    let ctx = run(&single(bib("main.bib", "\\", Vec::new()), 0, 1), complete_bibtex_commands);
    assert!(ctx.items.is_empty());
}

#[test]
fn inside_command() {
    let doc = with_command("@article{foo, bar=\n\\}\n", vec![tok(1, 0, "\\}")]);
    let ctx = run(&single(doc, 1, 1), complete_bibtex_commands);
    assert!(!ctx.items.is_empty());
    assert_eq!(ctx.items[0].range, Range::new_simple(1, 1, 1, 2));
    assert_eq!(labels(&ctx), vec!["begin", "end", "usepackage", "documentclass", "section"]);
}

#[test]
fn start_of_command() {
    let doc = with_command("@article{foo, bar=\n\\}\n", vec![tok(1, 0, "\\}")]);
    let ctx = run(&single(doc, 1, 0), complete_bibtex_commands);
    assert!(ctx.items.is_empty());
}

#[test]
fn inside_latex_command() {
    let ctx = run(&single(latex("main.tex", "\\"), 0, 1), complete_bibtex_commands);
    assert!(ctx.items.is_empty());
}

#[test]
fn bibtex_cmd_empty_latex_document() {
    assert!(run(&empty_latex(), complete_bibtex_commands).items.is_empty());
}

#[test]
fn bibtex_cmd_empty_bibtex_document() {
    assert!(run(&empty_bibtex(), complete_bibtex_commands).items.is_empty());
}

#[test]
fn bracketed_group_counts_towards_the_argument_index() {
    let tree = parse("\\foo[x]{}");
    let scopes = find_scopes(&tree, Position::new(0, 8));
    assert_eq!(scopes.len(), 1);
    match scopes[0] {
        CompletionScope::Argument(a) => {
            assert_eq!(a.index, 1);
            assert!(a.word);
        }
        CompletionScope::Command(_) => panic!("expected an argument scope"),
    }
}

#[test]
fn color_in_second_group_after_options() {
    let mut req = single(latex("main.tex", "\\textcolor[HTML]{}"), 0, 17);
    req.data.color_commands = vec![sig("textcolor", 1, false)];
    let ctx = run(&req, complete_colors);
    assert_eq!(ctx.items.len(), 4);
    assert_eq!(ctx.items[0].range, Range::new_simple(0, 17, 0, 17));
}

#[test]
fn user_commands_are_marked_user_defined() {
    let foo = latex("foo.tex", "\\bar\n\\fo");
    let ctx = run(&single(foo, 1, 2), complete_user_commands);
    assert_eq!(labels(&ctx), vec!["bar"]);
    assert_eq!(ctx.items[0].detail, Some("user-defined".to_string()));
}

#[test]
fn component_commands_carry_their_files() {
    let doc = latex_with("main.tex", "\\usepackage{lipsum}\n\\lips\n", |t| {
        t.components = strings(&["lipsum.sty"]);
    });
    let ctx = run(&single(doc, 1, 2), complete_component_commands);
    let lipsum = ctx.items.iter().find(|i| i.label == "lipsum").unwrap();
    assert_eq!(lipsum.detail, Some("lipsum.sty".to_string()));
    let section = ctx.items.iter().find(|i| i.label == "section").unwrap();
    assert_eq!(section.detail, Some("latex.ltx".to_string()));
}

#[test]
fn begin_snippet_is_built_in() {
    let ctx = run(&single(latex("main.tex", "\\"), 0, 1), complete_begin_command);
    assert_eq!(ctx.items[0].detail, Some("built-in".to_string()));
}

#[test]
fn package_offered_once_when_two_sources_list_it() {
    let mut req = single(latex("main.tex", "\\usepackage{}"), 0, 12);
    req.db.components.push(component(&["lipsum.sty", "extra.sty"], &[], &[]));
    req.resolver_files = strings(&["extra.sty", "amsmath.sty", "amsmath.sty"]);
    let ctx = run(&req, complete_packages);
    assert_eq!(labels(&ctx), vec!["lipsum", "geometry", "amsfonts", "extra", "amsmath"]);
}
