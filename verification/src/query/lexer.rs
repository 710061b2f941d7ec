//! Lightweight SQL tokenizer used by the analyzer.
//!
//! This is not a SQL parser. It skips whitespace, comments, string literals,
//! quoted identifiers and numbers, and gives the words, the JSON operators
//! and the remaining punctuation in source order. It is total: anything it
//! cannot classify becomes an [`Token::Other`], which the analyzer ignores.

use vstd::prelude::*;

use crate::query::scan;
use crate::text;

verus! {

/// A single token emitted by the lexer.
#[derive(Debug, PartialEq, Eq)]
pub enum Token {
    /// `select`, `from`, `where`, `returning`, etc., in lower case.
    Word(String),
    /// Multi-char operator lexeme (`->>`, `->`, `@>`, `<@`).
    Op(String),
    /// A single `?`.
    Question,
    /// `;` statement separator.
    Semi,
    /// Any other byte the analyzer does not care about.
    Other(char),
}

/// What a [`Token`] says.
#[verifier::ext_equal]
pub ghost enum TokenView {
    Word(Seq<char>),
    Op(Seq<char>),
    Question,
    Semi,
    Other(char),
}

impl Token {
    pub open spec fn view(self) -> TokenView {
        match self {
            Token::Word(w) => TokenView::Word(w@),
            Token::Op(o) => TokenView::Op(o@),
            Token::Question => TokenView::Question,
            Token::Semi => TokenView::Semi,
            Token::Other(c) => TokenView::Other(c),
        }
    }
}

/// What a sequence of tokens says.
pub open spec fn views(tokens: Seq<Token>) -> Seq<TokenView> {
    tokens.map_values(|t: Token| t@)
}

/// The lexeme that starts at `i`: the position behind it, and the token it
/// gives, if it gives one.
pub open spec fn lexeme(b: Seq<u8>, i: int) -> (int, Option<TokenView>)
    recommends
        0 <= i < b.len(),
{
    let c = b[i];
    if scan::dashes_at(b, i) {
        (scan::line_end(b, i), None)
    } else if scan::block_at(b, i) {
        (scan::block_end(b, i + 2), None)
    } else if scan::quote_at(b, i) {
        (scan::quoted_end(b, i + 1, c), None)
    } else if text::is_space_byte(c) {
        (i + 1, None)
    } else if text::is_word_start_byte(c) {
        let end = scan::word_end(b, i);
        (end, Some(TokenView::Word(scan::lower_ascii(b, i, end))))
    } else if text::is_digit_byte(c) {
        (scan::number_end(b, i), None)
    } else if i + 1 < b.len() && c == 0x2d && b[i + 1] == 0x3e {
        if i + 2 < b.len() && b[i + 2] == 0x3e {
            (i + 3, Some(TokenView::Op("->>"@)))
        } else {
            (i + 2, Some(TokenView::Op("->"@)))
        }
    } else if i + 1 < b.len() && c == 0x40 && b[i + 1] == 0x3e {
        (i + 2, Some(TokenView::Op("@>"@)))
    } else if i + 1 < b.len() && c == 0x3c && b[i + 1] == 0x40 {
        (i + 2, Some(TokenView::Op("<@"@)))
    } else if c == 0x3f {
        (i + 1, Some(TokenView::Question))
    } else if c == 0x3b {
        (i + 1, Some(TokenView::Semi))
    } else {
        (i + 1, Some(TokenView::Other(c as char)))
    }
}

/// Every lexeme takes at least one byte and stays inside the text.
pub proof fn lemma_lexeme_advances(b: Seq<u8>, i: int)
    requires
        0 <= i < b.len(),
    ensures
        i < lexeme(b, i).0 <= b.len(),
{
    scan::lemma_run_end(b, i, |c: u8| c != 0x0a);
    scan::lemma_run_end(b, i, |c: u8| text::is_word_byte(c));
    scan::lemma_run_end(b, i, |c: u8| text::is_alnum_byte(c) || c == 0x2e);
    if scan::block_at(b, i) {
        scan::lemma_block_end(b, i + 2);
    }
    if scan::quote_at(b, i) {
        scan::lemma_quoted_end(b, i + 1, b[i]);
    }
}

/// The tokens of the text from `i` on.
pub open spec fn tokens_from(b: Seq<u8>, i: int) -> Seq<TokenView>
    decreases b.len() - i,
{
    if 0 <= i < b.len() {
        proof {
            lemma_lexeme_advances(b, i);
        }
        let (next, token) = lexeme(b, i);
        let rest = tokens_from(b, next);
        match token {
            Some(t) => seq![t] + rest,
            None => rest,
        }
    } else {
        Seq::empty()
    }
}

/// The tokens of a text.
pub open spec fn tokens_of(s: Seq<char>) -> Seq<TokenView> {
    tokens_from(text::utf8(s), 0)
}

/// The lexeme that starts at `i`.
fn next_lexeme(b: &[u8], i: usize) -> (r: (usize, Option<Token>))
    requires
        i < b@.len(),
    ensures
        i < r.0 <= b@.len(),
        r.0 == lexeme(b@, i as int).0,
        r.1 is Some <==> lexeme(b@, i as int).1 is Some,
        r.1 is Some ==> r.1->Some_0@ == lexeme(b@, i as int).1->Some_0,
{
    proof {
        lemma_lexeme_advances(b@, i as int);
    }
    let c: u8 = b[i];
    let more: bool = i + 1 < b.len();
    if c == 0x2d && more && b[i + 1] == 0x2d {
        return (scan::line_end_from(b, i), None);
    }
    if c == 0x2f && more && b[i + 1] == 0x2a {
        return (scan::block_end_from(b, i + 2), None);
    }
    if c == 0x27 || c == 0x22 {
        return (scan::quoted_end_from(b, i + 1, c), None);
    }
    if text::space_byte(c) {
        return (i + 1, None);
    }
    if text::alpha_byte(c) || c == 0x5f {
        let end: usize = scan::word_end_from(b, i);
        return (end, Some(Token::Word(scan::lower_ascii_text(b, i, end))));
    }
    if text::digit_byte(c) {
        return (scan::number_end_from(b, i), None);
    }
    if more && c == 0x2d && b[i + 1] == 0x3e {
        if i + 2 < b.len() && b[i + 2] == 0x3e {
            return (i + 3, Some(Token::Op("->>".to_string())));
        }
        return (i + 2, Some(Token::Op("->".to_string())));
    }
    if more && c == 0x40 && b[i + 1] == 0x3e {
        return (i + 2, Some(Token::Op("@>".to_string())));
    }
    if more && c == 0x3c && b[i + 1] == 0x40 {
        return (i + 2, Some(Token::Op("<@".to_string())));
    }
    if c == 0x3f {
        (i + 1, Some(Token::Question))
    } else if c == 0x3b {
        (i + 1, Some(Token::Semi))
    } else {
        (i + 1, Some(Token::Other(c as char)))
    }
}

/// Tokenize a SQL string.
pub fn tokenize(input: &str) -> (r: Vec<Token>)
    ensures
        views(r@) == tokens_of(input@),
{
    let mut out: Vec<Token> = Vec::new();
    let bytes = input.as_bytes();
    let mut i: usize = 0;
    assert(views(out@) + tokens_from(bytes@, 0) =~= tokens_from(bytes@, 0));
    while i < bytes.len()
        invariant
            i <= bytes@.len(),
            bytes@ == text::utf8(input@),
            views(out@) + tokens_from(bytes@, i as int) == tokens_of(input@),
        decreases bytes@.len() - i,
    {
        let ghost before = views(out@);
        let (next, token) = next_lexeme(bytes, i);
        match token {
            Some(t) => {
                out.push(t);
                assert(views(out@) =~= before.push(t@));
                assert(views(out@) + tokens_from(bytes@, next as int) =~= before + (seq![t@]
                    + tokens_from(bytes@, next as int)));
            },
            None => {},
        }
        i = next;
    }
    assert(views(out@) + tokens_from(bytes@, i as int) =~= views(out@));
    out
}

// ---------------------------------------------------------------------------
// The inline directive
// ---------------------------------------------------------------------------

/// The datastore that a directive's name (in lower case) selects.
pub open spec fn store_named(name: Seq<char>) -> Option<Seq<char>> {
    if name == "sqlite"@ {
        Some("sqlite"@)
    } else if name == "neon"@ || name == "postgres"@ || name == "postgresql"@ || name == "pg"@ {
        Some("neon"@)
    } else {
        None
    }
}

/// The end of a directive's datastore name: letters, digits, `_` and `-`.
pub open spec fn name_end(b: Seq<u8>, i: int) -> int {
    scan::run_end(b, i, |c: u8| text::is_word_byte(c) || c == 0x2d)
}

/// An inline datastore directive and the lines that it takes.
pub ghost struct Directive {
    /// The selected datastore, `sqlite` or `neon`.
    pub store: Seq<char>,
    /// Where the directive starts; only whitespace stands before it.
    pub from: int,
    /// The start of the text behind the directive.
    pub to: int,
}

/// The directive `-- dactyl: <datastore>` that the text begins with, if any.
/// Whitespace may stand before it and between its parts.
pub open spec fn directive(b: Seq<u8>) -> Option<Directive> {
    let start = scan::spaces_end(b, 0);
    let word = scan::spaces_end(b, start + 2);
    let colon = scan::spaces_end(b, word + 6);
    let name = scan::spaces_end(b, colon + 1);
    let end = name_end(b, name);
    let last = scan::line_end(b, end);
    if scan::dashes_at(b, start) && scan::word_at(b, word, text::utf8("dactyl"@)) && colon < b.len()
        && b[colon] == 0x3a && name < end {
        match store_named(scan::lower_ascii(b, name, end)) {
            Some(store) => Some(
                Directive {
                    store,
                    from: start,
                    to: if last < b.len() {
                        last + 1
                    } else {
                        last
                    },
                },
            ),
            None => None,
        }
    } else {
        None
    }
}

/// The text behind its directive, verbatim. Whitespace-only lines before the
/// directive go with it.
pub open spec fn without_directive(s: Seq<char>) -> Seq<char> {
    let b = text::utf8(s);
    match directive(b) {
        Some(d) => text::text_of(b, d.to, b.len() as int),
        None => s,
    }
}

/// The datastore that the text's directive selects.
pub open spec fn directive_store(s: Seq<char>) -> Option<Seq<char>> {
    match directive(text::utf8(s)) {
        Some(d) => Some(d.store),
        None => None,
    }
}

proof fn lemma_dactyl_bytes()
    ensures
        text::utf8("dactyl"@).len() == 6,
{
    reveal_strlit("dactyl");
    vstd::utf8::is_ascii_chars_encode_utf8("dactyl"@);
}

/// A directive covers whole lines: only whitespace stands before it, and what
/// is left of the text begins a line.
pub proof fn lemma_directive_covers_lines(b: Seq<u8>)
    requires
        directive(b) is Some,
    ensures
        ({
            let d = directive(b)->Some_0;
            &&& 0 <= d.from < d.to <= b.len()
            &&& forall|k: int| 0 <= k < d.from ==> text::is_space_byte(#[trigger] b[k])
            &&& d.to == b.len() || b[d.to - 1] == 0x0a
        }),
{
    lemma_dactyl_bytes();
    let spaces = |c: u8| text::is_space_byte(c);
    let start = scan::spaces_end(b, 0);
    scan::lemma_run_end(b, 0, spaces);
    let word = scan::spaces_end(b, start + 2);
    scan::lemma_run_end(b, start + 2, spaces);
    let colon = scan::spaces_end(b, word + 6);
    scan::lemma_run_end(b, word + 6, spaces);
    let name = scan::spaces_end(b, colon + 1);
    scan::lemma_run_end(b, colon + 1, spaces);
    scan::lemma_run_end(b, name, |c: u8| text::is_word_byte(c) || c == 0x2d);
    scan::lemma_run_end(b, name_end(b, name), |c: u8| c != 0x0a);
}

/// The datastore that a directive's name selects.
fn named_store(name: &str) -> (r: Option<&'static str>)
    ensures
        r is Some <==> store_named(name@) is Some,
        r is Some ==> r->Some_0@ == store_named(name@)->Some_0,
{
    if text::str_eq(name, "sqlite") {
        Some("sqlite")
    } else if text::str_eq(name, "neon") || text::str_eq(name, "postgres") || text::str_eq(
        name,
        "postgresql",
    ) || text::str_eq(name, "pg") {
        Some("neon")
    } else {
        None
    }
}

/// If the SQL begins with a `-- dactyl: <datastore>` directive line, return
/// the recognized datastore plus the remainder of the input with the
/// directive line stripped, together with whitespace-only lines before it.
/// The remainder preserves all subsequent text verbatim (including other
/// comments).
pub fn strip_dactyl_directive(input: &str) -> (r: (Option<&'static str>, String))
    ensures
        r.0 is Some <==> directive_store(input@) is Some,
        r.0 is Some ==> r.0->Some_0@ == directive_store(input@)->Some_0,
        r.1@ == without_directive(input@),
{
    let bytes = input.as_bytes();
    let len: usize = bytes.len();
    proof {
        lemma_dactyl_bytes();
        if directive(bytes@) is Some {
            lemma_directive_covers_lines(bytes@);
        }
    }
    let start: usize = scan::spaces_end_from(bytes, 0);
    if len - start < 2 || bytes[start] != 0x2d || bytes[start + 1] != 0x2d {
        return (None, input.to_string());
    }
    let word: usize = scan::spaces_end_from(bytes, start + 2);
    if !scan::has_word_at(bytes, word, "dactyl".as_bytes()) {
        return (None, input.to_string());
    }
    let colon: usize = scan::spaces_end_from(bytes, word + 6);
    if colon >= len || bytes[colon] != 0x3a {
        return (None, input.to_string());
    }
    let name: usize = scan::spaces_end_from(bytes, colon + 1);
    let mut end: usize = name;
    while end < bytes.len() && (text::word_byte(bytes[end]) || bytes[end] == 0x2d)
        invariant
            name <= end <= bytes@.len(),
            name_end(bytes@, name as int) == name_end(bytes@, end as int),
        decreases bytes@.len() - end,
    {
        end = end + 1;
    }
    if name == end {
        return (None, input.to_string());
    }
    let id: String = scan::lower_ascii_text(bytes, name, end);
    let mapped: &'static str = match named_store(id.as_str()) {
        Some(store) => store,
        None => {
            return (None, input.to_string());
        },
    };
    let last: usize = scan::line_end_from(bytes, end);
    let to: usize = if last < len {
        last + 1
    } else {
        last
    };
    proof {
        vstd::utf8::encode_utf8_valid_utf8(input@);
        vstd::utf8::is_char_boundary_start_end_of_seq(bytes@);
        if to < len {
            text::lemma_ascii_boundary(bytes@, to - 1);
        }
    }
    (Some(mapped), text::byte_slice(input, to, len).to_string())
}

} // verus!
