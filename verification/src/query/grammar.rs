//! What SQL text is made of, piece by piece, and what the analyzer makes of
//! each piece.

use vstd::prelude::*;

use crate::error::ErrorView;
use crate::query;
use crate::query::dialect;
use crate::query::dialect::{Construct, Dialect};
use crate::query::lexer;
use crate::query::lexer::TokenView;
use crate::query::rewrite;
use crate::query::rewrite::Transform;
use crate::query::scan;
use crate::text;

verus! {

// ---------------------------------------------------------------------------
// Bytes
// ---------------------------------------------------------------------------

/// The bytes of words, numbers and whitespace, by the characters they are.
pub proof fn lemma_byte_classes(b: u8)
    ensures
        text::is_word_start_byte(b) <==> ('a' <= b as char <= 'z' || 'A' <= b as char <= 'Z'
            || b as char == '_'),
        text::is_word_byte(b) <==> ('a' <= b as char <= 'z' || 'A' <= b as char <= 'Z' || '0'
            <= b as char <= '9' || b as char == '_'),
        text::is_digit_byte(b) <==> '0' <= b as char <= '9',
        text::is_alnum_byte(b) <==> ('a' <= b as char <= 'z' || 'A' <= b as char <= 'Z' || '0'
            <= b as char <= '9'),
        text::is_space_byte(b) <==> text::is_space(b as char),
        text::is_ascii_space_byte(b) <==> (b as char == ' ' || b as char == '\t' || b as char
            == '\n' || b as char == '\u{c}' || b as char == '\r'),
        text::lower_byte(b) as char == text::lower_char(b as char),
{
}

/// A run of bytes of one class ends where the first of another class stands.
pub proof fn lemma_run_is(b: Seq<u8>, i: int, e: int, p: spec_fn(u8) -> bool)
    requires
        0 <= i <= e <= b.len(),
        forall|k: int| i <= k < e ==> p(#[trigger] b[k]),
        e < b.len() ==> !p(b[e]),
    ensures
        scan::run_end(b, i, p) == e,
    decreases e - i,
{
    if i < e {
        lemma_run_is(b, i + 1, e, p);
    }
}

// ---------------------------------------------------------------------------
// Pieces that give no token
// ---------------------------------------------------------------------------

/// A line comment reaches to the end of its line and gives no token.
pub proof fn lemma_line_comment_gives_nothing(b: Seq<u8>, i: int, e: int)
    requires
        0 <= i && i + 2 <= e <= b.len(),
        b[i] as char == '-' && b[i + 1] as char == '-',
        forall|k: int| i <= k < e ==> #[trigger] b[k] as char != '\n',
        e < b.len() ==> b[e] as char == '\n',
    ensures
        lexer::tokens_from(b, i) == lexer::tokens_from(b, e),
{
    lemma_run_is(b, i, e, |c: u8| c != 0x0a);
}

proof fn lemma_block_is(b: Seq<u8>, i: int, e: int)
    requires
        0 <= i && i + 2 <= e <= b.len(),
        b[e - 2] as char == '*' && b[e - 1] as char == '/',
        forall|k: int|
            i <= k < e - 2 ==> !(#[trigger] b[k] as char == '*' && b[k + 1] as char == '/'),
    ensures
        scan::block_end(b, i) == e,
    decreases e - i,
{
    if i < e - 2 {
        assert(!(b[i] as char == '*' && b[i + 1] as char == '/'));
        lemma_block_is(b, i + 1, e);
    }
}

/// A block comment reaches to the first `*/` and gives no token.
pub proof fn lemma_block_comment_gives_nothing(b: Seq<u8>, i: int, e: int)
    requires
        0 <= i && i + 4 <= e <= b.len(),
        b[i] as char == '/' && b[i + 1] as char == '*',
        b[e - 2] as char == '*' && b[e - 1] as char == '/',
        forall|k: int|
            i + 2 <= k < e - 2 ==> !(#[trigger] b[k] as char == '*' && b[k + 1] as char == '/'),
    ensures
        lexer::tokens_from(b, i) == lexer::tokens_from(b, e),
{
    lemma_block_is(b, i + 2, e);
}

/// Bytes as they stand between quotes: every quote twice.
pub open spec fn between_quotes(s: Seq<u8>, q: u8) -> Seq<u8>
    decreases s.len(),
{
    if s.len() == 0 {
        Seq::empty()
    } else if s[0] == q {
        seq![q, q] + between_quotes(s.drop_first(), q)
    } else {
        seq![s[0]] + between_quotes(s.drop_first(), q)
    }
}

/// A quoted text ends behind the first quote that stands alone.
pub proof fn lemma_quoted_is(b: Seq<u8>, i: int, s: Seq<u8>, q: u8)
    requires
        0 <= i,
        i + between_quotes(s, q).len() < b.len(),
        b.subrange(i, i + between_quotes(s, q).len()) == between_quotes(s, q),
        b[i + between_quotes(s, q).len()] == q,
        i + between_quotes(s, q).len() + 1 < b.len() ==> b[i + between_quotes(s, q).len() + 1] != q,
    ensures
        scan::quoted_end(b, i, q) == i + between_quotes(s, q).len() + 1,
    decreases s.len(),
{
    let all = between_quotes(s, q);
    if s.len() > 0 {
        let rest = between_quotes(s.drop_first(), q);
        assert(b[i] == all[0]) by {
            assert(b.subrange(i, i + all.len())[0] == b[i]);
        }
        if s[0] == q {
            assert(b[i + 1] == all[1]) by {
                assert(b.subrange(i, i + all.len())[1] == b[i + 1]);
            }
            assert(b.subrange(i + 2, i + 2 + rest.len()) =~= all.skip(2));
            assert(all.skip(2) =~= rest);
            lemma_quoted_is(b, i + 2, s.drop_first(), q);
        } else {
            assert(b.subrange(i + 1, i + 1 + rest.len()) =~= all.skip(1));
            assert(all.skip(1) =~= rest);
            lemma_quoted_is(b, i + 1, s.drop_first(), q);
        }
    }
}

/// A string literal or a quoted identifier gives no token, whatever it holds.
pub proof fn lemma_quoted_text_gives_nothing(b: Seq<u8>, i: int, s: Seq<u8>, q: u8)
    requires
        q as char == '\'' || q as char == '"',
        0 <= i,
        i + between_quotes(s, q).len() + 2 <= b.len(),
        b[i] == q,
        b.subrange(i + 1, i + 1 + between_quotes(s, q).len()) == between_quotes(s, q),
        b[i + 1 + between_quotes(s, q).len()] == q,
        i + between_quotes(s, q).len() + 2 < b.len() ==> b[i + 2 + between_quotes(s, q).len()] != q,
    ensures
        lexer::tokens_from(b, i) == lexer::tokens_from(
            b,
            i + 2 + between_quotes(s, q).len(),
        ),
{
    lemma_quoted_is(b, i + 1, s, q);
}

/// Whitespace and numbers give no token. A number takes letters, digits and
/// dots.
pub proof fn lemma_spaces_and_numbers_give_nothing(b: Seq<u8>, i: int, e: int)
    requires
        0 <= i < e <= b.len(),
    ensures
        text::is_space(b[i] as char) && e == i + 1 ==> lexer::tokens_from(b, i)
            == lexer::tokens_from(b, e),
        '0' <= b[i] as char <= '9' && (forall|k: int|
            i <= k < e ==> text::is_alnum_byte(#[trigger] b[k]) || b[k] as char == '.') && (e
            < b.len() ==> !text::is_alnum_byte(b[e]) && b[e] as char != '.')
            ==> lexer::tokens_from(b, i) == lexer::tokens_from(b, e),
{
    lemma_byte_classes(b[i]);
    let class = |c: u8| text::is_alnum_byte(c) || c == 0x2e;
    if (forall|k: int|
        i <= k < e ==> text::is_alnum_byte(#[trigger] b[k]) || b[k] as char == '.') && (e < b.len()
        ==> !text::is_alnum_byte(b[e]) && b[e] as char != '.') {
        assert forall|k: int| i <= k < e implies class(#[trigger] b[k]) by {}
        lemma_run_is(b, i, e, class);
    }
}

// ---------------------------------------------------------------------------
// Pieces that give a token
// ---------------------------------------------------------------------------

/// A word of code gives one token, the word in lower case. It starts with a
/// letter or an underscore and takes letters, digits and underscores.
pub proof fn lemma_word_gives_its_token(b: Seq<u8>, i: int, e: int, word: Seq<char>)
    requires
        0 <= i < e <= b.len(),
        text::is_word_start_byte(b[i]),
        forall|k: int| i <= k < e ==> text::is_word_byte(#[trigger] b[k]),
        e < b.len() ==> !text::is_word_byte(b[e]),
        word.len() == e - i,
        forall|k: int|
            0 <= k < word.len() ==> #[trigger] word[k] == text::lower_char(b[i + k] as char),
    ensures
        lexer::tokens_from(b, i) == seq![TokenView::Word(word)] + lexer::tokens_from(b, e),
{
    lemma_run_is(b, i, e, |c: u8| text::is_word_byte(c));
    assert(scan::lower_ascii(b, i, e) =~= word) by {
        assert forall|k: int| 0 <= k < word.len() implies scan::lower_ascii(b, i, e)[k]
            == word[k] by {
            lemma_byte_classes(b[i + k]);
        }
    }
}

/// The JSON operators, the question mark and the semicolon give their own
/// tokens, the longer operator first.
pub proof fn lemma_operators_give_their_tokens(b: Seq<u8>, i: int)
    requires
        0 <= i < b.len(),
    ensures
        ({
            let c = b[i] as char;
            let d = b[i + 1] as char;
            let two = i + 1 < b.len();
            let arrow = two && c == '-' && d == '>';
            let third = i + 2 < b.len() && b[i + 2] as char == '>';
            &&& arrow && third ==> lexer::tokens_from(b, i) == seq![TokenView::Op("->>"@)]
                + lexer::tokens_from(b, i + 3)
            &&& arrow && !third ==> lexer::tokens_from(b, i) == seq![TokenView::Op("->"@)]
                + lexer::tokens_from(b, i + 2)
            &&& two && c == '@' && d == '>' ==> lexer::tokens_from(b, i) == seq![
                TokenView::Op("@>"@),
            ] + lexer::tokens_from(b, i + 2)
            &&& two && c == '<' && d == '@' ==> lexer::tokens_from(b, i) == seq![
                TokenView::Op("<@"@),
            ] + lexer::tokens_from(b, i + 2)
            &&& c == '?' ==> lexer::tokens_from(b, i) == seq![TokenView::Question]
                + lexer::tokens_from(b, i + 1)
            &&& c == ';' ==> lexer::tokens_from(b, i) == seq![TokenView::Semi]
                + lexer::tokens_from(b, i + 1)
            &&& c == '(' || c == ')' || c == ',' || c == '.' || c == '=' || c == '*' || c == '+'
                || c == '$' || c == ':' || c == '>' ==> lexer::tokens_from(b, i) == seq![
                TokenView::Other(c),
            ] + lexer::tokens_from(b, i + 1)
        }),
{
}

// ---------------------------------------------------------------------------
// Constructs
// ---------------------------------------------------------------------------

/// The constructs, word by word: which word stands for which, and that no
/// other word stands for one.
pub proof fn lemma_construct_words(w: Seq<char>)
    ensures
        ({
            let c = query::word_construct(w);
            &&& c == Some(Construct::JsonEach) ==> w == "json_each"@
            &&& c == Some(Construct::JsonTree) ==> w == "json_tree"@
            &&& c == Some(Construct::Strict) ==> w == "strict"@
            &&& c == Some(Construct::Jsonb) ==> w == "jsonb"@
            &&& c == Some(Construct::Returning) ==> w == "returning"@
            &&& c == Some(Construct::Ilike) ==> w == "ilike"@
            &&& c == Some(Construct::GenRandomUuid) ==> w == "gen_random_uuid"@
            &&& c == Some(Construct::NowFn) ==> w == "now"@
            &&& c is Some ==> !(c->Some_0 is WithoutRowId || c->Some_0 is JsonArrowText
                || c->Some_0 is JsonArrow || c->Some_0 is JsonContains || c->Some_0
                is JsonContained || c->Some_0 is JsonExists)
            &&& c is None ==> w != "json_each"@ && w != "json_tree"@ && w != "strict"@ && w
                != "jsonb"@ && w != "returning"@ && w != "ilike"@ && w != "gen_random_uuid"@ && w
                != "now"@
        }),
{
}

/// The constructs, operator by operator.
pub proof fn lemma_construct_operators(o: Seq<char>)
    ensures
        ({
            let c = query::op_construct(o);
            &&& c == Some(Construct::JsonArrowText) ==> o == "->>"@
            &&& c == Some(Construct::JsonArrow) ==> o == "->"@
            &&& c == Some(Construct::JsonContains) ==> o == "@>"@
            &&& c == Some(Construct::JsonContained) ==> o == "<@"@
            &&& c is Some ==> (c->Some_0 is JsonArrowText || c->Some_0 is JsonArrow || c->Some_0
                is JsonContains || c->Some_0 is JsonContained)
            &&& c is None ==> o != "->>"@ && o != "->"@ && o != "@>"@ && o != "<@"@
        }),
{
}

/// The text by which an error names each construct.
pub proof fn lemma_construct_texts(c: Construct)
    ensures
        c is JsonEach ==> c.spec_lexeme() == "json_each"@,
        c is JsonTree ==> c.spec_lexeme() == "json_tree"@,
        c is WithoutRowId ==> c.spec_lexeme() == "without rowid"@,
        c is Strict ==> c.spec_lexeme() == "strict"@,
        c is JsonArrowText ==> c.spec_lexeme() == "->>"@,
        c is JsonArrow ==> c.spec_lexeme() == "->"@,
        c is JsonContains ==> c.spec_lexeme() == "@>"@,
        c is JsonContained ==> c.spec_lexeme() == "<@"@,
        c is JsonExists ==> c.spec_lexeme() == "?"@,
        c is Jsonb ==> c.spec_lexeme() == "jsonb"@,
        c is Returning ==> c.spec_lexeme() == "returning"@,
        c is Ilike ==> c.spec_lexeme() == "ilike"@,
        c is GenRandomUuid ==> c.spec_lexeme() == "gen_random_uuid"@,
        c is NowFn ==> c.spec_lexeme() == "now"@,
{
}

/// What one token adds to the constructs of a query: a word or an operator its
/// own construct, any other token none. The pair `without rowid` adds one.
pub proof fn lemma_tokens_add_their_constructs(tokens: Seq<TokenView>, i: int)
    requires
        0 <= i < tokens.len(),
    ensures
        ({
            let rest = query::constructs_from(tokens, i + 1);
            let pair = tokens[i] == TokenView::Word("without"@) && i + 1 < tokens.len()
                && tokens[i + 1] == TokenView::Word("rowid"@);
            &&& pair ==> query::constructs_from(tokens, i) == seq![Construct::WithoutRowId]
                + query::constructs_from(tokens, i + 2)
            &&& tokens[i] is Word && !pair ==> match query::word_construct(tokens[i]->Word_0) {
                Some(c) => query::constructs_from(tokens, i) == seq![c] + rest,
                None => query::constructs_from(tokens, i) == rest,
            }
            &&& tokens[i] is Op ==> match query::op_construct(tokens[i]->Op_0) {
                Some(c) => query::constructs_from(tokens, i) == seq![c] + rest,
                None => query::constructs_from(tokens, i) == rest,
            }
            &&& tokens[i] is Question || tokens[i] is Semi || tokens[i] is Other
                ==> query::constructs_from(tokens, i) == rest
        }),
{
}

// ---------------------------------------------------------------------------
// Support
// ---------------------------------------------------------------------------

/// What each dialect supports, construct by construct. All three have the JSON
/// arrows and `returning`; SQLite has its table functions and table options
/// besides, and Postgres its JSON operators, `jsonb`, `ilike` and functions.
pub proof fn lemma_support_table(c: Construct)
    ensures
        c.spec_supported_by(Dialect::Portable) <==> (c == Construct::JsonArrowText || c
            == Construct::JsonArrow || c == Construct::Returning),
        c.spec_supported_by(Dialect::Sqlite) <==> (c == Construct::JsonArrowText || c
            == Construct::JsonArrow || c == Construct::Returning || c == Construct::JsonEach || c
            == Construct::JsonTree || c == Construct::WithoutRowId || c == Construct::Strict),
        c.spec_supported_by(Dialect::Postgres) <==> (c == Construct::JsonArrowText || c
            == Construct::JsonArrow || c == Construct::Returning || c == Construct::JsonContains
            || c == Construct::JsonContained || c == Construct::JsonExists || c
            == Construct::Jsonb || c == Construct::Ilike || c == Construct::GenRandomUuid || c
            == Construct::NowFn),
        c.spec_dialect() == Dialect::Portable <==> (c.spec_supported_by(Dialect::Sqlite)
            && c.spec_supported_by(Dialect::Postgres)),
        c.spec_dialect() == Dialect::Sqlite <==> (c.spec_supported_by(Dialect::Sqlite)
            && !c.spec_supported_by(Dialect::Postgres)),
        c.spec_dialect() == Dialect::Postgres <==> (c.spec_supported_by(Dialect::Postgres)
            && !c.spec_supported_by(Dialect::Sqlite)),
{
}

/// A construct of another backend that has no translation is refused, with
/// rewrites or without: `gen_random_uuid`, `@>` and `<@` for SQLite,
/// `json_each`, `json_tree` and `without rowid` for Postgres.
pub proof fn lemma_foreign_constructs_are_refused(query: Seq<char>, allow: bool)
    ensures
        ({
            let constructs = query::constructs_of(lexer::without_directive(query));
            &&& constructs.contains(Construct::GenRandomUuid) || constructs.contains(
                Construct::JsonContains,
            ) || constructs.contains(Construct::JsonContained) ==> query::prepared(
                query,
                Dialect::Sqlite,
                allow,
            ) is Err
            &&& constructs.contains(Construct::JsonEach) || constructs.contains(
                Construct::JsonTree,
            ) || constructs.contains(Construct::WithoutRowId) ==> query::prepared(
                query,
                Dialect::Postgres,
                allow,
            ) is Err
        }),
{
    let constructs = query::constructs_of(lexer::without_directive(query));
    if constructs.contains(Construct::GenRandomUuid) {
        lemma_refused(query, Dialect::Sqlite, allow, Construct::GenRandomUuid);
    }
    if constructs.contains(Construct::JsonContains) {
        lemma_refused(query, Dialect::Sqlite, allow, Construct::JsonContains);
    }
    if constructs.contains(Construct::JsonContained) {
        lemma_refused(query, Dialect::Sqlite, allow, Construct::JsonContained);
    }
    if constructs.contains(Construct::JsonEach) {
        lemma_refused(query, Dialect::Postgres, allow, Construct::JsonEach);
    }
    if constructs.contains(Construct::JsonTree) {
        lemma_refused(query, Dialect::Postgres, allow, Construct::JsonTree);
    }
    if constructs.contains(Construct::WithoutRowId) {
        lemma_refused(query, Dialect::Postgres, allow, Construct::WithoutRowId);
    }
}

proof fn lemma_refused(query: Seq<char>, dialect: Dialect, allow: bool, c: Construct)
    requires
        query::constructs_of(lexer::without_directive(query)).contains(c),
        dialect is Sqlite && (c is GenRandomUuid || c is JsonContains || c is JsonContained)
            || dialect is Postgres && (c is JsonEach || c is JsonTree || c is WithoutRowId),
    ensures
        query::prepared(query, dialect, allow) is Err,
{
    let constructs = query::constructs_of(lexer::without_directive(query));
    let i = choose|i: int| 0 <= i < constructs.len() && constructs[i] == c;
    assert(!constructs[i].spec_supported_by(dialect));
    query::lemma_unsafe_construct_is_refused(query, dialect, allow, i);
}

/// Without rewrites a query without a directive passes as it is, or is refused
/// for the first construct in it that the dialect lacks.
pub proof fn lemma_first_foreign_construct_is_named(query: Seq<char>, dialect: Dialect, i: int)
    requires
        lexer::directive_store(query) is None,
        ({
            let constructs = query::constructs_of(query);
            &&& 0 <= i < constructs.len()
            &&& !constructs[i].spec_supported_by(dialect)
            &&& forall|k: int|
                0 <= k < i ==> (#[trigger] constructs[k]).spec_supported_by(dialect)
        }),
    ensures
        query::prepared(query, dialect, false) == Err::<Seq<char>, ErrorView>(
            ErrorView::Unsupported { construct: query::constructs_of(query)[i] },
        ),
        query::prepared(query, dialect, true) is Err ==> query::prepared(query, dialect, true)
            == query::prepared(query, dialect, false),
{
    let constructs = query::constructs_of(query);
    dialect::lemma_unsupported(constructs, dialect);
    let k = choose|k: int|
        #[trigger] dialect::is_first_unsupported(constructs, dialect, k) && constructs[k]
            == dialect::unsupported(constructs, dialect)->Some_0;
    if k < i {
        assert(constructs[k].spec_supported_by(dialect));
    }
    if i < k {
        assert(constructs.take(k)[i] == constructs[i]);
    }
}

// ---------------------------------------------------------------------------
// Rewrites
// ---------------------------------------------------------------------------

/// What rewriting makes of each construct. For SQLite `ilike` becomes `like`,
/// `jsonb` becomes `text` and calls of `now()` are replaced; for Postgres
/// `strict` is taken out. What a dialect has stays as it is, and nothing else
/// can be rewritten. A construct that has no translation at all ends the
/// rewriting, even where the dialect has it.
pub proof fn lemma_rewrites_by_construct(sql: Seq<char>, c: Construct, dialect: Dialect)
    ensures
        ({
            let r = query::construct_rewritten(sql, c, dialect);
            &&& dialect is Sqlite && c is Ilike ==> r == Some(
                rewrite::rewritten(sql, Transform::Word { needle: "ilike", replacement: "like" }),
            )
            &&& dialect is Sqlite && c is Jsonb ==> r == Some(
                rewrite::rewritten(sql, Transform::Word { needle: "jsonb", replacement: "text" }),
            )
            &&& dialect is Sqlite && c is NowFn ==> r == Some(
                rewrite::rewritten(sql, Transform::Now),
            )
            &&& dialect is Postgres && c is Strict ==> r == Some(
                rewrite::rewritten(sql, Transform::Word { needle: "strict", replacement: "" }),
            )
            &&& c is JsonArrowText || c is JsonArrow || c is Returning ==> r == Some(sql)
            &&& dialect is Sqlite && c is Strict ==> r == Some(sql)
            &&& dialect is Postgres && (c is Ilike || c is Jsonb || c is NowFn) ==> r == Some(sql)
            &&& c is JsonEach || c is JsonTree || c is WithoutRowId || c is JsonContains || c
                is JsonContained || c is JsonExists || c is GenRandomUuid ==> r is None
            &&& dialect is Portable && (c is Strict || c is Ilike || c is Jsonb || c is NowFn)
                ==> r is None
        }),
{
}

/// Rewrites follow one another in the order of the constructs, each on what
/// the one before it made.
pub proof fn lemma_rewrites_follow_one_another(
    sql: Seq<char>,
    front: Seq<Construct>,
    back: Seq<Construct>,
    dialect: Dialect,
)
    ensures
        query::rewritten_for(sql, Seq::empty(), dialect) == Some(sql),
        query::rewritten_for(sql, front + back, dialect) == match query::rewritten_for(
            sql,
            front,
            dialect,
        ) {
            Some(next) => query::rewritten_for(next, back, dialect),
            None => None,
        },
        front.len() == 1 ==> query::rewritten_for(sql, front, dialect)
            == query::construct_rewritten(sql, front[0], dialect),
    decreases front.len(),
{
    if front.len() == 0 {
        assert(front + back =~= back);
    } else {
        assert((front + back).drop_first() =~= front.drop_first() + back);
        assert((front + back)[0] == front[0]);
        match query::construct_rewritten(sql, front[0], dialect) {
            Some(next) => {
                lemma_rewrites_follow_one_another(next, front.drop_first(), back, dialect);
            },
            None => {},
        }
    }
}

/// Whether a word stands at a position of code as a whole word, in any ASCII
/// case: no letter, digit or underscore stands on either side.
pub open spec fn stands_alone(b: Seq<u8>, i: int, word: Seq<u8>) -> bool {
    &&& 0 <= i && i + word.len() <= b.len()
    &&& forall|k: int|
        0 <= k < word.len() ==> #[trigger] word[k] == text::lower_byte(b[i + k])
    &&& i > 0 ==> !text::is_word_byte(b[i - 1])
    &&& i + word.len() < b.len() ==> !text::is_word_byte(b[i + word.len()])
}

proof fn lemma_stands_alone(b: Seq<u8>, i: int, word: Seq<u8>)
    requires
        0 <= i < b.len(),
    ensures
        rewrite::whole_word_at(b, i, word) <==> stands_alone(b, i, word),
{
    if rewrite::whole_word_at(b, i, word) {
        assert forall|k: int| 0 <= k < word.len() implies #[trigger] word[k] == text::lower_byte(
            b[i + k],
        ) by {
            assert(text::lower_byte(b[i + k]) == word[k]);
        }
    }
    if stands_alone(b, i, word) {
        assert forall|k: int| 0 <= k < word.len() implies text::lower_byte(#[trigger] b[i + k])
            == word[k] by {
            assert(word[k] == text::lower_byte(b[i + k]));
        }
    }
}

/// Replacing a word in code replaces the first place where it stands alone and
/// goes on behind it; what stands before is kept.
pub proof fn lemma_word_is_replaced(
    b: Seq<u8>,
    i: int,
    k: int,
    needle: Seq<u8>,
    replacement: Seq<u8>,
)
    requires
        0 <= i <= k < b.len(),
        needle.len() > 0,
        stands_alone(b, k, needle),
        forall|j: int| i <= j < k ==> !#[trigger] stands_alone(b, j, needle),
    ensures
        rewrite::word_replaced(b, i, needle, replacement) == b.subrange(i, k) + replacement
            + rewrite::word_replaced(b, k + needle.len(), needle, replacement),
    decreases k - i,
{
    lemma_stands_alone(b, i, needle);
    let rest = rewrite::word_replaced(b, k + needle.len(), needle, replacement);
    if i < k {
        assert(!stands_alone(b, i, needle));
        lemma_word_is_replaced(b, i + 1, k, needle, replacement);
        assert(b.subrange(i, k) + replacement + rest =~= seq![b[i]] + (b.subrange(i + 1, k)
            + replacement + rest));
    } else {
        assert(b.subrange(i, k) + replacement + rest =~= replacement + rest);
    }
}

/// Where a word stands alone nowhere, replacing it keeps the code.
pub proof fn lemma_absent_word_keeps_the_code(
    b: Seq<u8>,
    i: int,
    needle: Seq<u8>,
    replacement: Seq<u8>,
)
    requires
        0 <= i <= b.len(),
        forall|j: int| i <= j < b.len() ==> !#[trigger] stands_alone(b, j, needle),
    ensures
        rewrite::word_replaced(b, i, needle, replacement) == b.skip(i),
    decreases b.len() - i,
{
    if i < b.len() {
        lemma_stands_alone(b, i, needle);
        assert(!stands_alone(b, i, needle));
        lemma_absent_word_keeps_the_code(b, i + 1, needle, replacement);
        assert(b.skip(i) =~= seq![b[i]] + b.skip(i + 1));
    } else {
        assert(b.skip(i) =~= Seq::<u8>::empty());
    }
}

/// Whether a call of `now()` stands at a position of code and ends at another:
/// the word alone, whitespace, and two parentheses.
pub open spec fn calls_now(b: Seq<u8>, i: int, e: int) -> bool {
    &&& stands_alone(b, i, seq![0x6eu8, 0x6f, 0x77])
    &&& i + 5 <= e <= b.len()
    &&& b[e - 2] as char == '(' && b[e - 1] as char == ')'
    &&& forall|k: int| i + 3 <= k < e - 2 ==> text::is_ascii_space_byte(#[trigger] b[k])
}

proof fn lemma_now_spelled()
    ensures
        text::utf8("now"@) == seq![0x6eu8, 0x6f, 0x77],
{
    reveal_strlit("now");
    vstd::utf8::is_ascii_chars_encode_utf8("now"@);
    assert(text::utf8("now"@) =~= seq![0x6eu8, 0x6f, 0x77]);
}

/// A call of `now()` is what the rewrite takes for one, and ends where it
/// ends.
pub proof fn lemma_now_calls(b: Seq<u8>, i: int)
    requires
        0 <= i < b.len(),
    ensures
        forall|e: int| #[trigger]
            calls_now(b, i, e) ==> rewrite::now_call_end(b, i) == Some(e),
        rewrite::now_call_end(b, i) is Some ==> calls_now(
            b,
            i,
            rewrite::now_call_end(b, i)->Some_0,
        ),
{
    lemma_now_spelled();
    lemma_stands_alone(b, i, seq![0x6eu8, 0x6f, 0x77]);
    let class = |c: u8| text::is_ascii_space_byte(c);
    assert forall|e: int| #[trigger] calls_now(b, i, e) implies rewrite::now_call_end(b, i)
        == Some(e) by {
        lemma_run_is(b, i + 3, e - 2, class);
    }
    if rewrite::now_call_end(b, i) is Some {
        scan::lemma_run_end(b, i + 3, class);
        let e = rewrite::now_call_end(b, i)->Some_0;
        assert forall|k: int| i + 3 <= k < e - 2 implies text::is_ascii_space_byte(
            #[trigger] b[k],
        ) by {
            assert(class(b[k]));
        }
    }
}

/// The rewrite of `now()` puts `CURRENT_TIMESTAMP` in the place of the first
/// call and goes on behind it; what stands before is kept, and so is code
/// without a call.
pub proof fn lemma_now_is_replaced(b: Seq<u8>, i: int, k: int, e: int)
    requires
        0 <= i <= k <= b.len(),
        k < b.len() ==> calls_now(b, k, e),
        forall|j: int| i <= j < k ==> (#[trigger] rewrite::now_call_end(b, j)) is None,
    ensures
        k < b.len() ==> rewrite::now_replaced(b, i) == b.subrange(i, k) + text::utf8(
            "CURRENT_TIMESTAMP"@,
        ) + rewrite::now_replaced(b, e),
        k == b.len() ==> rewrite::now_replaced(b, i) == b.skip(i),
    decreases k - i,
{
    let stamp = text::utf8("CURRENT_TIMESTAMP"@);
    let rest = rewrite::now_replaced(b, e);
    if i < k {
        assert(rewrite::now_call_end(b, i) is None);
        lemma_now_is_replaced(b, i + 1, k, e);
        if k < b.len() {
            assert(b.subrange(i, k) + stamp + rest =~= seq![b[i]] + (b.subrange(i + 1, k) + stamp
                + rest));
        } else {
            assert(b.skip(i) =~= seq![b[i]] + b.skip(i + 1));
        }
    } else if k < b.len() {
        lemma_now_calls(b, k);
        assert(b.subrange(i, k) + stamp + rest =~= stamp + rest);
    } else {
        assert(b.skip(i) =~= Seq::<u8>::empty());
    }
}

proof fn lemma_protected_piece(b: Seq<u8>, i: int, e: int, t: Transform)
    requires
        0 <= i < e <= b.len(),
        rewrite::protected_at(b, i),
        rewrite::protected_end(b, i) == e,
    ensures
        rewrite::transformed(rewrite::parts(b, i), t) == b.subrange(i, e) + rewrite::transformed(
            rewrite::parts(b, e),
            t,
        ),
{
    rewrite::lemma_transformed_split(b, i, t);
    assert(rewrite::code_end(b, i) == i);
    assert(b.subrange(i, i) =~= Seq::<u8>::empty());
    assert(t.of(b.subrange(i, i)) =~= Seq::<u8>::empty());
    assert(Seq::<u8>::empty() + b.subrange(i, e) =~= b.subrange(i, e));
}

/// A rewrite keeps a string literal or a quoted identifier, whatever it holds,
/// and goes on behind it.
pub proof fn lemma_rewrite_keeps_quoted_text(b: Seq<u8>, i: int, s: Seq<u8>, q: u8, t: Transform)
    requires
        q as char == '\'' || q as char == '"',
        0 <= i,
        i + between_quotes(s, q).len() + 2 <= b.len(),
        b[i] == q,
        b.subrange(i + 1, i + 1 + between_quotes(s, q).len()) == between_quotes(s, q),
        b[i + 1 + between_quotes(s, q).len()] == q,
        i + between_quotes(s, q).len() + 2 < b.len() ==> b[i + 2 + between_quotes(s, q).len()] != q,
    ensures
        ({
            let e = i + 2 + between_quotes(s, q).len();
            rewrite::transformed(rewrite::parts(b, i), t) == b.subrange(i, e)
                + rewrite::transformed(rewrite::parts(b, e), t)
        }),
{
    lemma_quoted_is(b, i + 1, s, q);
    lemma_protected_piece(b, i, i + 2 + between_quotes(s, q).len(), t);
}

/// A rewrite keeps comments, and goes on behind them.
pub proof fn lemma_rewrite_keeps_comments(b: Seq<u8>, i: int, e: int, t: Transform)
    requires
        0 <= i && i + 2 <= e <= b.len(),
        ({
            ||| {
                &&& b[i] as char == '-' && b[i + 1] as char == '-'
                &&& forall|k: int| i <= k < e ==> #[trigger] b[k] as char != '\n'
                &&& e < b.len() ==> b[e] as char == '\n'
            }
            ||| {
                &&& i + 4 <= e
                &&& b[i] as char == '/' && b[i + 1] as char == '*'
                &&& b[e - 2] as char == '*' && b[e - 1] as char == '/'
                &&& forall|k: int|
                    i + 2 <= k < e - 2 ==> !(#[trigger] b[k] as char == '*' && b[k + 1] as char
                        == '/')
            }
        }),
    ensures
        rewrite::transformed(rewrite::parts(b, i), t) == b.subrange(i, e) + rewrite::transformed(
            rewrite::parts(b, e),
            t,
        ),
{
    if b[i] as char == '-' {
        lemma_run_is(b, i, e, |c: u8| c != 0x0a);
    } else {
        lemma_block_is(b, i + 2, e);
    }
    lemma_protected_piece(b, i, e, t);
}

/// Whether a quote or a comment starts at a position.
pub open spec fn leaves_code(b: Seq<u8>, i: int) -> bool {
    ||| b[i] as char == '\'' || b[i] as char == '"'
    ||| i + 1 < b.len() && b[i] as char == '-' && b[i + 1] as char == '-'
    ||| i + 1 < b.len() && b[i] as char == '/' && b[i + 1] as char == '*'
}

proof fn lemma_code_is(b: Seq<u8>, i: int, e: int)
    requires
        0 <= i <= e <= b.len(),
        forall|k: int| i <= k < e ==> !#[trigger] leaves_code(b, k),
        e < b.len() ==> leaves_code(b, e),
    ensures
        rewrite::code_end(b, i) == e,
    decreases e - i,
{
    if i < e {
        assert(!leaves_code(b, i));
        lemma_code_is(b, i + 1, e);
    }
}

/// A rewrite treats as code all that is neither quoted nor a comment.
pub proof fn lemma_rewrite_reaches_all_code(b: Seq<u8>, i: int, e: int, t: Transform)
    requires
        0 <= i <= e <= b.len(),
        forall|k: int| i <= k < e ==> !#[trigger] leaves_code(b, k),
        e < b.len() ==> leaves_code(b, e),
    ensures
        rewrite::transformed(rewrite::parts(b, i), t) == t.of(b.subrange(i, e))
            + rewrite::transformed(rewrite::parts(b, e), t),
{
    lemma_code_is(b, i, e);
    rewrite::lemma_transformed_split(b, i, t);
    rewrite::lemma_transformed_split(b, e, t);
    lemma_code_is(b, e, e);
    assert(b.subrange(e, e) =~= Seq::<u8>::empty());
    assert(t.of(b.subrange(e, e)) =~= Seq::<u8>::empty());
    if e < b.len() {
        let end = rewrite::protected_end(b, e);
        let rest = rewrite::transformed(rewrite::parts(b, end), t);
        let code = t.of(b.subrange(i, e));
        assert(code + b.subrange(e, end) + rest =~= code + (Seq::<u8>::empty() + b.subrange(e, end)
            + rest));
    } else {
        assert(t.of(b.subrange(i, e)) + Seq::<u8>::empty() =~= t.of(b.subrange(i, e)));
    }
}

// ---------------------------------------------------------------------------
// Directives
// ---------------------------------------------------------------------------

/// The datastores that directives and connections can name, and their
/// dialects.
pub proof fn lemma_datastore_names(name: Seq<char>)
    ensures
        lexer::store_named(name) == Some("sqlite"@) <==> name == "sqlite"@,
        lexer::store_named(name) == Some("neon"@) <==> (name == "neon"@ || name == "postgres"@
            || name == "postgresql"@ || name == "pg"@),
        lexer::store_named(name) is None <==> (name != "sqlite"@ && name != "neon"@ && name
            != "postgres"@ && name != "postgresql"@ && name != "pg"@),
        query::store_dialect(name) == Some(Dialect::Sqlite) <==> name == "sqlite"@,
        query::store_dialect(name) == Some(Dialect::Postgres) <==> (name == "neon"@ || name
            == "postgres"@ || name == "postgresql"@ || name == "pg"@),
        query::store_dialect(name) is None <==> (name != "sqlite"@ && name != "neon"@ && name
            != "postgres"@ && name != "postgresql"@ && name != "pg"@),
{
    reveal_strlit("sqlite");
    reveal_strlit("neon");
    reveal_strlit("postgres");
    reveal_strlit("postgresql");
    reveal_strlit("pg");
    assert("sqlite"@.len() == 6 && "neon"@.len() == 4 && "postgres"@.len() == 8
        && "postgresql"@.len() == 10 && "pg"@.len() == 2);
}

/// A text that begins with a directive, piece by piece.
pub ghost struct Headed {
    pub before: Seq<u8>,
    pub first: Seq<u8>,
    pub word: Seq<u8>,
    pub second: Seq<u8>,
    pub third: Seq<u8>,
    pub name: Seq<u8>,
    pub junk: Seq<u8>,
    pub tail: Seq<u8>,
}

/// Whether all bytes are whitespace.
pub open spec fn all_spaces(b: Seq<u8>) -> bool {
    forall|k: int| 0 <= k < b.len() ==> text::is_space_byte(#[trigger] b[k])
}

impl Headed {
    /// `-- dactyl: <name>` with whitespace between its parts, the rest of the
    /// line, and the text behind the line.
    pub open spec fn bytes(self) -> Seq<u8> {
        self.before + (seq![0x2du8, 0x2d] + (self.first + (self.word + (self.second + (seq![0x3au8]
            + (self.third + (self.name + (self.junk + self.tail))))))))
    }

    pub open spec fn wf(self) -> bool {
        &&& all_spaces(self.before) && all_spaces(self.first) && all_spaces(self.second)
            && all_spaces(self.third)
        &&& self.word.len() == 6
        &&& forall|k: int|
            0 <= k < 6 ==> text::lower_char(#[trigger] self.word[k] as char) == "dactyl"@[k]
        &&& self.name.len() > 0
        &&& forall|k: int|
            0 <= k < self.name.len() ==> text::is_word_byte(#[trigger] self.name[k])
                || self.name[k] as char == '-'
        &&& self.junk.len() > 0 ==> !text::is_word_byte(self.junk[0]) && self.junk[0] as char
            != '-'
        &&& forall|k: int| 0 <= k < self.junk.len() ==> #[trigger] self.junk[k] as char != '\n'
        &&& self.tail.len() > 0 ==> self.tail[0] as char == '\n'
    }

    /// The name in lower case.
    pub open spec fn named(self) -> Seq<char> {
        self.name.map_values(|c: u8| text::lower_char(c as char))
    }
}

proof fn lemma_spaces_are(b: Seq<u8>, i: int, spaces: Seq<u8>, next: u8)
    requires
        0 <= i,
        i + spaces.len() < b.len(),
        b.subrange(i, i + spaces.len()) == spaces,
        all_spaces(spaces),
        b[i + spaces.len()] == next,
        !text::is_space_byte(next),
    ensures
        scan::spaces_end(b, i) == i + spaces.len(),
{
    let class = |c: u8| text::is_space_byte(c);
    assert forall|k: int| i <= k < i + spaces.len() implies class(#[trigger] b[k]) by {
        assert(b.subrange(i, i + spaces.len())[k - i] == b[k]);
        assert(text::is_space_byte(spaces[k - i]));
    }
    lemma_run_is(b, i, i + spaces.len(), class);
}

proof fn lemma_dactyl_spelled(word: Seq<u8>)
    requires
        word.len() == 6,
        forall|k: int|
            0 <= k < 6 ==> text::lower_char(#[trigger] word[k] as char) == "dactyl"@[k],
    ensures
        text::utf8("dactyl"@).len() == 6,
        forall|k: int|
            0 <= k < 6 ==> text::lower_byte(#[trigger] word[k]) == text::utf8("dactyl"@)[k],
        !text::is_space_byte(word[0]),
{
    reveal_strlit("dactyl");
    vstd::utf8::is_ascii_chars_encode_utf8("dactyl"@);
    assert forall|k: int| 0 <= k < 6 implies text::lower_byte(#[trigger] word[k]) == text::utf8(
        "dactyl"@,
    )[k] by {
        lemma_byte_classes(word[k]);
        assert(text::lower_char(word[k] as char) == "dactyl"@[k]);
    }
    assert(text::lower_byte(word[0]) == text::utf8("dactyl"@)[0]);
}

/// A directive at the head of a text is found, whatever whitespace stands
/// between its parts and in whatever case it is written: it selects the store
/// that it names, and the text goes on behind its line. One that names
/// anything else is no directive.
#[verifier::spinoff_prover]
#[verifier::rlimit(60)]
pub proof fn lemma_directive_is_found(h: Headed)
    requires
        h.wf(),
    ensures
        match lexer::store_named(h.named()) {
            Some(store) => {
                let d = lexer::directive(h.bytes())->Some_0;
                &&& lexer::directive(h.bytes()) is Some
                &&& d.store == store
                &&& h.tail.len() == 0 ==> d.to == h.bytes().len()
                &&& h.tail.len() > 0 ==> d.to == h.bytes().len() - h.tail.len() + 1
            },
            None => lexer::directive(h.bytes()) is None,
        },
{
    let b = h.bytes();
    let p0 = h.before.len() as int;
    let p1 = p0 + 2;
    let p2 = p1 + h.first.len();
    let p3 = p2 + 6;
    let p4 = p3 + h.second.len();
    let p5 = p4 + 1;
    let p6 = p5 + h.third.len();
    let p7 = p6 + h.name.len();
    let p8 = p7 + h.junk.len();
    assert(b.len() == p8 + h.tail.len());
    assert(b.subrange(0, p0) =~= h.before);
    assert(b[p0] == 0x2d && b[p0 + 1] == 0x2d);
    assert(b.subrange(p1, p2) =~= h.first);
    assert(b.subrange(p2, p3) =~= h.word);
    assert(b.subrange(p3, p4) =~= h.second);
    assert(b[p4] == 0x3a);
    assert(b.subrange(p5, p6) =~= h.third);
    assert(b.subrange(p6, p7) =~= h.name);
    assert(b.subrange(p7, p8) =~= h.junk);
    lemma_dactyl_spelled(h.word);
    lemma_spaces_are(b, 0, h.before, 0x2d);
    assert(b[p2] == h.word[0]);
    lemma_spaces_are(b, p1, h.first, h.word[0]);
    lemma_spaces_are(b, p3, h.second, 0x3a);
    assert(b[p6] == h.name[0]);
    lemma_spaces_are(b, p5, h.third, h.name[0]);
    assert forall|k: int| 0 <= k < 6 implies text::lower_byte(#[trigger] b[p2 + k]) == text::utf8(
        "dactyl"@,
    )[k] by {
        assert(b.subrange(p2, p3)[k] == b[p2 + k]);
        assert(text::lower_byte(h.word[k]) == text::utf8("dactyl"@)[k]);
    }
    let class = |c: u8| text::is_word_byte(c) || c == 0x2d;
    assert forall|k: int| p6 <= k < p7 implies class(#[trigger] b[k]) by {
        assert(b.subrange(p6, p7)[k - p6] == b[k]);
        assert(text::is_word_byte(h.name[k - p6]) || h.name[k - p6] as char == '-');
    }
    if p7 < b.len() {
        if h.junk.len() > 0 {
            assert(b[p7] == h.junk[0]);
        } else {
            assert(b[p7] == h.tail[0]);
        }
    }
    lemma_run_is(b, p6, p7, class);
    let line = |c: u8| c != 0x0a;
    assert forall|k: int| p7 <= k < p8 implies line(#[trigger] b[k]) by {
        assert(b.subrange(p7, p8)[k - p7] == b[k]);
        assert(h.junk[k - p7] as char != '\n');
    }
    if p8 < b.len() {
        assert(b[p8] == h.tail[0]);
    }
    lemma_run_is(b, p7, p8, line);
    assert(scan::lower_ascii(b, p6, p7) =~= h.named()) by {
        assert forall|k: int| 0 <= k < h.name.len() implies scan::lower_ascii(b, p6, p7)[k]
            == h.named()[k] by {
            assert(b.subrange(p6, p7)[k] == b[p6 + k]);
            lemma_byte_classes(h.name[k]);
        }
    }
}

/// A text that does not begin with two dashes behind whitespace has no
/// directive, and is left as it is.
pub proof fn lemma_other_text_has_no_directive(query: Seq<char>, spaces: Seq<u8>, rest: Seq<u8>)
    requires
        text::utf8(query) == spaces + rest,
        all_spaces(spaces),
        rest.len() > 0 ==> !text::is_space_byte(rest[0]),
        !(rest.len() >= 2 && rest[0] as char == '-' && rest[1] as char == '-'),
    ensures
        lexer::directive_store(query) is None,
        lexer::without_directive(query) == query,
{
    let b = text::utf8(query);
    let n = spaces.len() as int;
    let class = |c: u8| text::is_space_byte(c);
    assert forall|k: int| 0 <= k < n implies class(#[trigger] b[k]) by {
        assert(b[k] == spaces[k]);
        assert(text::is_space_byte(spaces[k]));
    }
    if n < b.len() {
        assert(b[n] == rest[0]);
    }
    lemma_run_is(b, 0, n, class);
    if n + 1 < b.len() {
        assert(b[n + 1] == rest[1]);
    }
}

/// A directive must name the connection's own backend: a query whose directive
/// names another is refused as misrouted, whatever else it holds.
pub proof fn lemma_directives_bind_the_route(query: Seq<char>, dialect: Dialect, allow: bool)
    requires
        lexer::directive_store(query) is Some,
    ensures
        query::store_dialect(lexer::directive_store(query)->Some_0) != Some(dialect)
            <==> query::prepared(query, dialect, allow) is Err && query::prepared(
            query,
            dialect,
            allow,
        )->Err_0 is Routing,
{
}

} // verus!
