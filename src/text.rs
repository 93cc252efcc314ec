//! The texts built for candidates: the current word, citation and label texts, sort prefixes.

use vstd::prelude::*;
use vstd::string::{StrSliceExecFns, StringExecFns};

verus! {

/// Relies on String::push: appends one character.
#[verifier::external_body]
pub(crate) fn push_char(s: &mut String, c: char)
    ensures
        final(s)@ == old(s)@.push(c),
{
    s.push(c)
}

/// The lower-case form that `str::to_lowercase` gives of a text.
pub uninterp spec fn lower_of(s: Seq<char>) -> Seq<char>;

/// Relies on str::to_lowercase: the result depends on the characters alone.
#[verifier::external_body]
pub(crate) fn lowercase(s: &str) -> (r: String)
    ensures
        r@ == lower_of(s@),
{
    s.to_lowercase()
}

/// The characters that make up the word being typed: letters, digits, `_`,
/// `:` and `-`, and in LaTeX also `@`, which in BibTeX opens a declaration.
pub open spec fn is_word_char(c: char, latex: bool) -> bool {
    ('a' <= c && c <= 'z') || ('A' <= c && c <= 'Z') || ('0' <= c && c <= '9') || c == '_' || c == ':' || c == '-'
        || (latex && c == '@')
}

/// Where the run of word characters that ends at offset `k` of `line` starts.
pub open spec fn word_start(line: Seq<char>, k: int, latex: bool) -> int
    decreases k,
{
    if k <= 0 {
        0
    } else if is_word_char(line[k - 1], latex) {
        word_start(line, k - 1, latex)
    } else {
        k
    }
}

/// The word before offset `k` of `line`: the longest run of word characters
/// that ends there (the offset is held to the line's length).
pub open spec fn current_word_spec(line: Seq<char>, k: int, latex: bool) -> Seq<char> {
    let e = if k > line.len() { line.len() as int } else { k };
    line.subrange(word_start(line, e, latex), e)
}

fn is_word_char_exec(c: char, latex: bool) -> (r: bool)
    ensures
        r == is_word_char(c, latex),
{
    ('a' <= c && c <= 'z') || ('A' <= c && c <= 'Z') || ('0' <= c && c <= '9') || c == '_' || c == ':' || c == '-'
        || (latex && c == '@')
}

/// The word that the cursor at offset `character` of `line` ends, in LaTeX or
/// in BibTeX: the pattern that candidates are scored against.
pub fn current_word(line: &str, character: u32, latex: bool) -> (r: String)
    ensures
        r@ == current_word_spec(line@, character as int, latex),
{
    let len = line.unicode_len();
    let e: usize = if character as usize > len { len } else { character as usize };
    let mut s = e;
    while s > 0 && is_word_char_exec(line.get_char(s - 1), latex)
        invariant
            s <= e <= len,
            len == line@.len(),
            word_start(line@, e as int, latex) == word_start(line@, s as int, latex),
        decreases s,
    {
        s -= 1;
    }
    String::from_str(line.substring_char(s, e))
}

/// The state of the citation-text scan: `acc` is the text so far, `pend` says a
/// space is owed before the next kept character.
pub open spec fn squeeze(s: Seq<char>, acc: Seq<char>, pend: bool) -> Seq<char>
    decreases s.len(),
{
    if s.len() == 0 {
        acc
    } else {
        let c = s[0];
        let rest = s.subrange(1, s.len() as int);
        if c == '{' || c == '}' {
            squeeze(rest, acc, pend)
        } else if is_blank(c) {
            squeeze(rest, acc, acc.len() > 0)
        } else if pend {
            squeeze(rest, acc.push(' ').push(c), false)
        } else {
            squeeze(rest, acc.push(c), false)
        }
    }
}

/// Unicode whitespace: the characters of the `White_Space` property.
pub open spec fn is_unicode_whitespace(c: char) -> bool {
    ('\u{9}' <= c && c <= '\u{D}') || c == ' ' || c == '\u{85}' || c == '\u{A0}' || c == '\u{1680}'
        || ('\u{2000}' <= c && c <= '\u{200A}') || c == '\u{2028}' || c == '\u{2029}' || c == '\u{202F}'
        || c == '\u{205F}' || c == '\u{3000}'
}

/// Whitespace, and the separators that a citation's text turns into spaces.
pub open spec fn is_blank(c: char) -> bool {
    is_unicode_whitespace(c) || c == ',' || c == '='
}

fn is_blank_exec(c: char) -> (r: bool)
    ensures
        r == is_blank(c),
{
    ('\u{9}' <= c && c <= '\u{D}') || c == ' ' || c == '\u{85}' || c == '\u{A0}' || c == '\u{1680}'
        || ('\u{2000}' <= c && c <= '\u{200A}') || c == '\u{2028}' || c == '\u{2029}' || c == '\u{202F}'
        || c == '\u{205F}' || c == '\u{3000}' || c == ',' || c == '='
}

/// An entry's code with braces removed, commas and equals signs read as
/// spaces, every run of Unicode whitespace made one space, and both ends trimmed.
pub open spec fn flattened(code: Seq<char>) -> Seq<char> {
    squeeze(code, Seq::empty(), false)
}

/// The text that a citation is matched and sorted by: its key, a space, and
/// its flattened code.
pub open spec fn citation_text_spec(key: Seq<char>, code: Seq<char>) -> Seq<char> {
    key.push(' ') + flattened(code)
}

pub fn citation_text(key: &str, code: &str) -> (r: String)
    ensures
        r@ == citation_text_spec(key@, code@),
{
    let mut out = String::from_str(key);
    push_char(&mut out, ' ');
    let ghost base = out@;
    let mut acc = String::new();
    let mut pend = false;
    let len = code.unicode_len();
    let mut i: usize = 0;
    assert(code@.subrange(0, len as int) =~= code@);
    while i < len
        invariant
            len == code@.len(),
            i <= len,
            squeeze(code@.subrange(i as int, len as int), acc@, pend) == flattened(code@),
        decreases len - i,
    {
        let c = code.get_char(i);
        let ghost rest = code@.subrange(i as int, len as int);
        assert(rest.subrange(1, rest.len() as int) =~= code@.subrange(i + 1, len as int));
        if c == '{' || c == '}' {
        } else if is_blank_exec(c) {
            pend = acc.as_str().unicode_len() > 0;
        } else {
            if pend {
                push_char(&mut acc, ' ');
            }
            push_char(&mut acc, c);
            pend = false;
        }
        i += 1;
    }
    assert(code@.subrange(len as int, len as int) =~= Seq::<char>::empty());
    out.append(acc.as_str());
    out
}

/// The text that a label is matched and sorted by: its name, followed by a
/// space and a description of what it labels when there is one.
pub open spec fn label_text_spec(name: Seq<char>, descriptor: Option<String>) -> Seq<char> {
    match descriptor {
        Some(d) => name.push(' ') + d@,
        None => name,
    }
}

pub fn label_text(name: &String, descriptor: &Option<String>) -> (r: String)
    ensures
        r@ == label_text_spec(name@, *descriptor),
{
    match descriptor {
        Some(d) => {
            let mut out = name.clone();
            push_char(&mut out, ' ');
            out.append(d.as_str());
            out
        },
        None => name.clone(),
    }
}

/// The two-digit, zero-padded form of `n`.
pub open spec fn two_digits(n: nat) -> Seq<char> {
    seq![digit_char(n / 10), digit_char(n % 10)]
}

pub open spec fn digit_char(d: nat) -> char {
    if d == 0 { '0' } else if d == 1 { '1' } else if d == 2 { '2' } else if d == 3 { '3' } else if d == 4 { '4' }
    else if d == 5 { '5' } else if d == 6 { '6' } else if d == 7 { '7' } else if d == 8 { '8' } else { '9' }
}

fn digit_char_exec(d: usize) -> (r: char)
    ensures
        r == digit_char(d as nat),
{
    if d == 0 { '0' } else if d == 1 { '1' } else if d == 2 { '2' } else if d == 3 { '3' } else if d == 4 { '4' }
    else if d == 5 { '5' } else if d == 6 { '6' } else if d == 7 { '7' } else if d == 8 { '8' } else { '9' }
}

/// The sort-text prefix for the item at position `index` of the final list.
pub fn sort_prefix(index: usize) -> (r: String)
    requires
        index < 100,
    ensures
        r@ == two_digits(index as nat),
{
    let mut s = String::new();
    push_char(&mut s, digit_char_exec(index / 10));
    push_char(&mut s, digit_char_exec(index % 10));
    assert(s@ =~= two_digits(index as nat));
    s
}

} // verus!
