//! What holds of the scanner and the analyzer as a whole.

use vstd::prelude::*;

use crate::query;
use crate::query::dialect::Construct;
use crate::query::lexer;
use crate::query::lexer::TokenView;
use crate::query::scan;
use crate::text;

verus! {

// ---------------------------------------------------------------------------
// Case
// ---------------------------------------------------------------------------

/// Bytes with the ASCII letters in lower case.
pub open spec fn lowered(b: Seq<u8>) -> Seq<u8> {
    b.map_values(|c: u8| text::lower_byte(c))
}

proof fn lemma_lowered_scalar(c: char)
    ensures
        vstd::utf8::encode_scalar(text::lower_char(c) as u32) == lowered(
            vstd::utf8::encode_scalar(c as u32),
        ),
{
    let v = c as u32;
    vstd::utf8::char_is_scalar(c);
    if v <= 0x7f {
        assert((v & 0x7f) as u8 == v) by (bit_vector)
            requires
                v <= 0x7f,
        ;
        let w = text::lower_char(c) as u32;
        assert(w <= 0x7f);
        assert((w & 0x7f) as u8 == w) by (bit_vector)
            requires
                w <= 0x7f,
        ;
        assert(vstd::utf8::encode_scalar(w) =~= lowered(vstd::utf8::encode_scalar(v)));
    } else {
        assert((0xC0u8 | ((v >> 6) & 0x1F) as u8) >= 0x80) by (bit_vector);
        assert((0xE0u8 | ((v >> 12) & 0x0F) as u8) >= 0x80) by (bit_vector);
        assert((0xF0u8 | ((v >> 18) & 0x7) as u8) >= 0x80) by (bit_vector);
        assert((0x80u8 | (v & 0x3F) as u8) >= 0x80) by (bit_vector);
        assert((0x80u8 | ((v >> 6) & 0x3F) as u8) >= 0x80) by (bit_vector);
        assert((0x80u8 | ((v >> 12) & 0x3F) as u8) >= 0x80) by (bit_vector);
        assert(vstd::utf8::encode_scalar(v) =~= lowered(vstd::utf8::encode_scalar(v)));
    }
}

proof fn lemma_lowered_text(s: Seq<char>)
    ensures
        text::utf8(text::lower(s)) == lowered(text::utf8(s)),
    decreases s.len(),
{
    if s.len() == 0 {
        assert(text::utf8(text::lower(s)) =~= lowered(text::utf8(s)));
    } else {
        lemma_lowered_text(s.drop_first());
        lemma_lowered_scalar(s[0]);
        assert(text::lower(s).drop_first() =~= text::lower(s.drop_first()));
        assert(text::utf8(text::lower(s)) =~= lowered(text::utf8(s)));
    }
}

proof fn lemma_lowered_run(b: Seq<u8>, i: int, p: spec_fn(u8) -> bool)
    requires
        forall|c: u8| #[trigger] p(text::lower_byte(c)) == p(c),
    ensures
        scan::run_end(lowered(b), i, p) == scan::run_end(b, i, p),
    decreases b.len() - i,
{
    if 0 <= i < b.len() {
        assert(lowered(b)[i] == text::lower_byte(b[i]));
        if p(b[i]) {
            lemma_lowered_run(b, i + 1, p);
        }
    }
}

proof fn lemma_lowered_quoted(b: Seq<u8>, i: int, q: u8)
    requires
        q == 0x27 || q == 0x22,
    ensures
        scan::quoted_end(lowered(b), i, q) == scan::quoted_end(b, i, q),
    decreases b.len() - i,
{
    if 0 <= i < b.len() {
        lemma_lowered_quoted(b, i + 1, q);
        if i + 1 < b.len() {
            lemma_lowered_quoted(b, i + 2, q);
        }
    }
}

proof fn lemma_lowered_block(b: Seq<u8>, i: int)
    ensures
        scan::block_end(lowered(b), i) == scan::block_end(b, i),
    decreases b.len() - i,
{
    if 0 <= i && i + 1 < b.len() {
        lemma_lowered_block(b, i + 1);
    }
}

proof fn lemma_lowered_lexeme(b: Seq<u8>, i: int)
    requires
        0 <= i < b.len(),
    ensures
        lexer::lexeme(lowered(b), i) == lexer::lexeme(b, i),
{
    let l = lowered(b);
    assert(forall|k: int| 0 <= k < b.len() ==> #[trigger] l[k] == text::lower_byte(b[k]));
    lemma_lowered_run(b, i, |c: u8| c != 0x0a);
    lemma_lowered_run(b, i, |c: u8| text::is_word_byte(c));
    lemma_lowered_run(b, i, |c: u8| text::is_alnum_byte(c) || c == 0x2e);
    lemma_lowered_block(b, i + 2);
    if scan::quote_at(b, i) {
        lemma_lowered_quoted(b, i + 1, b[i]);
    }
    scan::lemma_run_end(b, i, |c: u8| text::is_word_byte(c));
    assert(scan::lower_ascii(l, i, scan::word_end(b, i)) =~= scan::lower_ascii(
        b,
        i,
        scan::word_end(b, i),
    ));
}

proof fn lemma_lowered_tokens(b: Seq<u8>, i: int)
    requires
        0 <= i <= b.len(),
    ensures
        lexer::tokens_from(lowered(b), i) == lexer::tokens_from(b, i),
    decreases b.len() - i,
{
    if i < b.len() {
        lemma_lowered_lexeme(b, i);
        lexer::lemma_lexeme_advances(b, i);
        lemma_lowered_tokens(b, lexer::lexeme(b, i).0);
    }
}

/// The case of ASCII letters never changes the tokens of a text.
pub proof fn lemma_case_does_not_matter(sql: Seq<char>)
    ensures
        lexer::tokens_of(text::lower(sql)) == lexer::tokens_of(sql),
{
    lemma_lowered_text(sql);
    lemma_lowered_tokens(text::utf8(sql), 0);
}

// ---------------------------------------------------------------------------
// Lexemes
// ---------------------------------------------------------------------------

pub(crate) proof fn lemma_run_is(b: Seq<u8>, i: int, e: int, p: spec_fn(u8) -> bool)
    requires
        0 <= i <= e <= b.len(),
        forall|k: int| i <= k < e ==> p(#[trigger] b[k]),
        e < b.len() ==> !p(b[e]),
    ensures
        scan::run_end(b, i, p) == e,
    decreases e - i,
{
    if i < e {
        lemma_run_is(b, i + 1, e, p);
    }
}

/// A text that is one word in lower case has that word as its only token.
proof fn lemma_one_word(w: Seq<char>)
    requires
        w.len() > 0,
        forall|k: int| 0 <= k < w.len() ==> 'a' <= #[trigger] w[k] <= 'z' || w[k] == '_',
    ensures
        lexer::tokens_of(w) == seq![TokenView::Word(w)],
{
    let b = text::utf8(w);
    assert(vstd::utf8::is_ascii_chars(w));
    vstd::utf8::is_ascii_chars_encode_utf8(w);
    assert(b.len() == w.len());
    assert(forall|k: int| 0 <= k < w.len() ==> #[trigger] b[k] == w[k] as u8);
    lemma_run_is(b, 0, b.len() as int, |c: u8| text::is_word_byte(c));
    assert(scan::lower_ascii(b, 0, b.len() as int) =~= w);
    assert(lexer::tokens_from(b, b.len() as int) =~= Seq::<TokenView>::empty());
    assert(lexer::tokens_from(b, 0) =~= seq![TokenView::Word(w)]);
}

proof fn lemma_one_word_construct(w: Seq<char>)
    requires
        lexer::tokens_of(w) == seq![TokenView::Word(w)],
        query::word_construct(w) is Some,
        w != "without"@,
    ensures
        query::constructs_of(w) == seq![query::word_construct(w)->Some_0],
{
    let tokens = lexer::tokens_of(w);
    assert(query::constructs_from(tokens, 1) =~= Seq::<Construct>::empty());
    assert(query::constructs_from(tokens, 0) =~= seq![query::word_construct(w)->Some_0]);
}

/// The lexemes of the constructs, written out.
proof fn lemma_reveal_lexemes()
    ensures
        "json_each"@ == seq!['j', 's', 'o', 'n', '_', 'e', 'a', 'c', 'h'],
        "json_tree"@ == seq!['j', 's', 'o', 'n', '_', 't', 'r', 'e', 'e'],
        "strict"@ == seq!['s', 't', 'r', 'i', 'c', 't'],
        "jsonb"@ == seq!['j', 's', 'o', 'n', 'b'],
        "returning"@ == seq!['r', 'e', 't', 'u', 'r', 'n', 'i', 'n', 'g'],
        "ilike"@ == seq!['i', 'l', 'i', 'k', 'e'],
        "gen_random_uuid"@ == seq![
            'g',
            'e',
            'n',
            '_',
            'r',
            'a',
            'n',
            'd',
            'o',
            'm',
            '_',
            'u',
            'u',
            'i',
            'd',
        ],
        "now"@ == seq!['n', 'o', 'w'],
        "without"@ == seq!['w', 'i', 't', 'h', 'o', 'u', 't'],
        "rowid"@ == seq!['r', 'o', 'w', 'i', 'd'],
        "without rowid"@ == seq![
            'w',
            'i',
            't',
            'h',
            'o',
            'u',
            't',
            ' ',
            'r',
            'o',
            'w',
            'i',
            'd',
        ],
        "->>"@ == seq!['-', '>', '>'],
        "->"@ == seq!['-', '>'],
        "@>"@ == seq!['@', '>'],
        "<@"@ == seq!['<', '@'],
        "?"@ == seq!['?'],
{
    reveal_strlit("json_each");
    reveal_strlit("json_tree");
    reveal_strlit("strict");
    reveal_strlit("jsonb");
    reveal_strlit("returning");
    reveal_strlit("ilike");
    reveal_strlit("gen_random_uuid");
    reveal_strlit("now");
    reveal_strlit("without");
    reveal_strlit("rowid");
    reveal_strlit("without rowid");
    reveal_strlit("->>");
    reveal_strlit("->");
    reveal_strlit("@>");
    reveal_strlit("<@");
    reveal_strlit("?");
    assert("json_each"@ =~= seq!['j', 's', 'o', 'n', '_', 'e', 'a', 'c', 'h']);
    assert("json_tree"@ =~= seq!['j', 's', 'o', 'n', '_', 't', 'r', 'e', 'e']);
    assert("strict"@ =~= seq!['s', 't', 'r', 'i', 'c', 't']);
    assert("jsonb"@ =~= seq!['j', 's', 'o', 'n', 'b']);
    assert("returning"@ =~= seq!['r', 'e', 't', 'u', 'r', 'n', 'i', 'n', 'g']);
    assert("ilike"@ =~= seq!['i', 'l', 'i', 'k', 'e']);
    assert("now"@ =~= seq!['n', 'o', 'w']);
    assert("without"@ =~= seq!['w', 'i', 't', 'h', 'o', 'u', 't']);
    assert("rowid"@ =~= seq!['r', 'o', 'w', 'i', 'd']);
    assert("->>"@ =~= seq!['-', '>', '>']);
    assert("->"@ =~= seq!['-', '>']);
    assert("@>"@ =~= seq!['@', '>']);
    assert("<@"@ =~= seq!['<', '@']);
    assert("?"@ =~= seq!['?']);
}

pub(crate) proof fn lemma_the_words_differ()
    ensures
        query::word_construct("ilike"@) == Some(Construct::Ilike),
        query::word_construct("jsonb"@) == Some(Construct::Jsonb),
        "ilike"@ != "without"@ && "ilike"@ != "rowid"@,
        "jsonb"@ != "without"@ && "jsonb"@ != "rowid"@,
{
    lemma_reveal_lexemes();
    lemma_one_of_the_words(Construct::Ilike);
    lemma_one_of_the_words(Construct::Jsonb);
    assert("ilike"@[0] != "rowid"@[0]);
    assert("jsonb"@[0] != "rowid"@[0]);
}

/// Two constructs never share a lexeme.
pub proof fn lemma_lexemes_differ(a: Construct, b: Construct)
    requires
        a != b,
    ensures
        a.spec_lexeme() != b.spec_lexeme(),
{
    lemma_reveal_lexemes();
    let x = a.spec_lexeme();
    let y = b.spec_lexeme();
    assert(x.len() != y.len() || x[0] != y[0] || x[x.len() - 1] != y[y.len() - 1] || x[2] != y[2]);
}

proof fn lemma_operator_construct(c: Construct)
    requires
        c is JsonArrowText || c is JsonArrow || c is JsonContains || c is JsonContained
            || c is JsonExists,
    ensures
        query::constructs_of(c.spec_lexeme()) == if c is JsonExists {
            Seq::empty()
        } else {
            seq![c]
        },
{
    lemma_reveal_lexemes();
    let s = c.spec_lexeme();
    let b = text::utf8(s);
    assert(vstd::utf8::is_ascii_chars(s));
    vstd::utf8::is_ascii_chars_encode_utf8(s);
    assert(b.len() == s.len());
    assert(forall|k: int| 0 <= k < s.len() ==> #[trigger] b[k] == s[k] as u8);
    let n = b.len() as int;
    assert(lexer::tokens_from(b, n) =~= Seq::<TokenView>::empty());
    let token = if c is JsonExists {
        TokenView::Question
    } else {
        TokenView::Op(s)
    };
    assert(lexer::lexeme(b, 0) == (n, Some(token)));
    let tokens = lexer::tokens_of(s);
    assert(tokens =~= seq![token]);
    assert(query::constructs_from(tokens, 1) =~= Seq::<Construct>::empty());
    assert(query::constructs_from(tokens, 0) =~= if c is JsonExists {
        Seq::empty()
    } else {
        seq![c]
    });
}

proof fn lemma_without_rowid_construct()
    ensures
        query::constructs_of("without rowid"@) == seq![Construct::WithoutRowId],
{
    lemma_reveal_lexemes();
    let s = "without rowid"@;
    let b = text::utf8(s);
    assert(vstd::utf8::is_ascii_chars(s));
    vstd::utf8::is_ascii_chars_encode_utf8(s);
    assert(b.len() == 13);
    assert(forall|k: int| 0 <= k < s.len() ==> #[trigger] b[k] == s[k] as u8);
    let word = |c: u8| text::is_word_byte(c);
    lemma_run_is(b, 0, 7, word);
    lemma_run_is(b, 8, 13, word);
    assert(scan::lower_ascii(b, 0, 7) =~= "without"@);
    assert(scan::lower_ascii(b, 8, 13) =~= "rowid"@);
    assert(lexer::lexeme(b, 0) == (7int, Some(TokenView::Word("without"@))));
    assert(lexer::lexeme(b, 7) == (8int, None::<TokenView>));
    assert(lexer::lexeme(b, 8) == (13int, Some(TokenView::Word("rowid"@))));
    assert(lexer::tokens_from(b, 13) =~= Seq::<TokenView>::empty());
    assert(lexer::tokens_from(b, 8) =~= seq![TokenView::Word("rowid"@)]);
    assert(lexer::tokens_from(b, 7) =~= seq![TokenView::Word("rowid"@)]);
    let tokens = lexer::tokens_from(b, 0);
    assert(tokens =~= seq![TokenView::Word("without"@), TokenView::Word("rowid"@)]);
    assert(query::constructs_from(tokens, 2) =~= Seq::<Construct>::empty());
    assert(query::constructs_from(tokens, 0) =~= seq![Construct::WithoutRowId]);
}

/// Analyzing the lexeme of a construct gives that construct and no other; the
/// lexeme of JSON existence, which is also a placeholder, gives none.
pub proof fn lemma_lexeme_gives_its_construct(c: Construct)
    ensures
        query::constructs_of(c.spec_lexeme()) == if c is JsonExists {
            Seq::empty()
        } else {
            seq![c]
        },
{
    lemma_reveal_lexemes();
    match c {
        Construct::JsonArrowText
        | Construct::JsonArrow
        | Construct::JsonContains
        | Construct::JsonContained
        | Construct::JsonExists => {
            lemma_operator_construct(c);
        },
        Construct::WithoutRowId => {
            lemma_without_rowid_construct();
        },
        _ => {
            let w = c.spec_lexeme();
            lemma_one_word(w);
            lemma_one_of_the_words(c);
            lemma_one_word_construct(w);
        },
    }
}

proof fn lemma_one_of_the_words(c: Construct)
    requires
        !(c is JsonArrowText || c is JsonArrow || c is JsonContains || c is JsonContained
            || c is JsonExists || c is WithoutRowId),
    ensures
        query::word_construct(c.spec_lexeme()) == Some(c),
        c.spec_lexeme() != "without"@,
{
    lemma_reveal_lexemes();
    let w = c.spec_lexeme();
    assert(w[0] != 'w');
    if !(c is JsonEach) {
        lemma_lexemes_differ(c, Construct::JsonEach);
    }
    if !(c is JsonTree) {
        lemma_lexemes_differ(c, Construct::JsonTree);
    }
    if !(c is Strict) {
        lemma_lexemes_differ(c, Construct::Strict);
    }
    if !(c is Jsonb) {
        lemma_lexemes_differ(c, Construct::Jsonb);
    }
    if !(c is Returning) {
        lemma_lexemes_differ(c, Construct::Returning);
    }
    if !(c is Ilike) {
        lemma_lexemes_differ(c, Construct::Ilike);
    }
    if !(c is GenRandomUuid) {
        lemma_lexemes_differ(c, Construct::GenRandomUuid);
    }
}

} // verus!
