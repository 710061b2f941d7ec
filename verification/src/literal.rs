//! Lexical analysis of the SQL literal that `query!` is given.
//!
//! The macro looks at a literal before the crate is built, so that a
//! hard-coded construct is caught when rewriting is disabled. This scanner is
//! coarser than the runtime one: it does not know block comments, and it
//! counts `?` as the JSON existence operator.

use vstd::prelude::*;

use crate::query::dialect::Construct;
use crate::query::lexer;
use crate::query::lexer::TokenView;
use crate::query::scan;
use crate::text;

verus! {

/// What the scanner found in a literal.
#[derive(Debug, Clone, Copy)]
pub struct LexHit {
    /// The number of constructs found.
    pub constructs: u32,
    pub json_each: bool,
    pub json_tree: bool,
    pub without_rowid: bool,
    pub strict: bool,
    pub jsonb: bool,
    pub returning: bool,
    pub ilike: bool,
    pub gen_random_uuid: bool,
    pub now_fn: bool,
    pub json_arrow_text: bool,
    pub json_arrow: bool,
    pub json_contains: bool,
    pub json_contained: bool,
    pub json_exists: bool,
    /// A line comment starts with `dactyl`.
    pub has_inline_directive: bool,
}

impl LexHit {
    /// Whether the flag of a construct is set.
    pub open spec fn flag(self, c: Construct) -> bool {
        match c {
            Construct::JsonEach => self.json_each,
            Construct::JsonTree => self.json_tree,
            Construct::WithoutRowId => self.without_rowid,
            Construct::Strict => self.strict,
            Construct::JsonArrowText => self.json_arrow_text,
            Construct::JsonArrow => self.json_arrow,
            Construct::JsonContains => self.json_contains,
            Construct::JsonContained => self.json_contained,
            Construct::JsonExists => self.json_exists,
            Construct::Jsonb => self.jsonb,
            Construct::Returning => self.returning,
            Construct::Ilike => self.ilike,
            Construct::GenRandomUuid => self.gen_random_uuid,
            Construct::NowFn => self.now_fn,
        }
    }

    /// Whether the hit records exactly these constructs.
    #[verifier::opaque]
    pub open spec fn records(self, found: Seq<Construct>) -> bool {
        &&& self.constructs == found.len()
        &&& forall|c: Construct| #[trigger] self.flag(c) <==> found.contains(c)
    }

    /// A hit that records nothing.
    pub fn empty() -> (r: Self)
        ensures
            r.records(Seq::empty()),
            r.constructs == 0,
            !r.has_inline_directive,
    {
        reveal(LexHit::records);
        LexHit {
            constructs: 0,
            json_each: false,
            json_tree: false,
            without_rowid: false,
            strict: false,
            jsonb: false,
            returning: false,
            ilike: false,
            gen_random_uuid: false,
            now_fn: false,
            json_arrow_text: false,
            json_arrow: false,
            json_contains: false,
            json_contained: false,
            json_exists: false,
            has_inline_directive: false,
        }
    }

    /// Whether the literal holds no construct.
    pub fn portable(&self) -> (r: bool)
        ensures
            r == (self.constructs == 0),
    {
        self.constructs == 0
    }

    /// Record a directive comment.
    fn note_directive(&mut self)
        ensures
            final(self).has_inline_directive,
            final(self).constructs == old(self).constructs,
            forall|found: Seq<Construct>| #[trigger]
                old(self).records(found) ==> final(self).records(found),
    {
        reveal(LexHit::records);
        let ghost was = *self;
        self.has_inline_directive = true;
        assert(forall|d: Construct| #[trigger] self.flag(d) == was.flag(d));
    }

    /// Record one more construct.
    fn mark(&mut self, c: Construct)
        requires
            old(self).constructs < u32::MAX,
        ensures
            final(self).constructs == old(self).constructs + 1,
            final(self).has_inline_directive == old(self).has_inline_directive,
            forall|found: Seq<Construct>| #[trigger]
                old(self).records(found) ==> final(self).records(found.push(c)),
    {
        reveal(LexHit::records);
        let was: LexHit = *self;
        *self = LexHit {
            constructs: was.constructs + 1,
            json_each: was.json_each || c == Construct::JsonEach,
            json_tree: was.json_tree || c == Construct::JsonTree,
            without_rowid: was.without_rowid || c == Construct::WithoutRowId,
            strict: was.strict || c == Construct::Strict,
            jsonb: was.jsonb || c == Construct::Jsonb,
            returning: was.returning || c == Construct::Returning,
            ilike: was.ilike || c == Construct::Ilike,
            gen_random_uuid: was.gen_random_uuid || c == Construct::GenRandomUuid,
            now_fn: was.now_fn || c == Construct::NowFn,
            json_arrow_text: was.json_arrow_text || c == Construct::JsonArrowText,
            json_arrow: was.json_arrow || c == Construct::JsonArrow,
            json_contains: was.json_contains || c == Construct::JsonContains,
            json_contained: was.json_contained || c == Construct::JsonContained,
            json_exists: was.json_exists || c == Construct::JsonExists,
            has_inline_directive: was.has_inline_directive,
        };
        proof {
            assert(forall|d: Construct| #[trigger] self.flag(d) <==> (was.flag(d) || d == c));
            assert forall|found: Seq<Construct>| #[trigger] was.records(found) implies self.records(
                found.push(c),
            ) by {
                assert forall|d: Construct| #[trigger] self.flag(d) <==> found.push(c).contains(
                    d,
                ) by {
                    assert(was.flag(d) <==> found.contains(d));
                    lemma_push_contains(found, c, d);
                }
            }
        }
    }
}

/// One step of the scanner.
pub ghost struct Step {
    /// The position behind the lexeme.
    pub next: int,
    /// The construct that the lexeme completes.
    pub construct: Option<Construct>,
    /// Whether the lexeme is a directive comment.
    pub directive: bool,
    /// The word that a following `rowid` would stand behind.
    pub last: Option<Seq<char>>,
}

/// The step from position `i`, with `last` the word before it.
pub open spec fn step(b: Seq<u8>, i: int, last: Option<Seq<char>>) -> Step
    recommends
        0 <= i < b.len(),
{
    let c = b[i];
    if scan::dashes_at(b, i) {
        Step {
            next: scan::line_end(b, i),
            construct: None,
            directive: scan::word_at(b, scan::spaces_end(b, i + 2), text::utf8("dactyl"@)),
            last,
        }
    } else if scan::quote_at(b, i) {
        Step { next: scan::quoted_end(b, i + 1, c), construct: None, directive: false, last: None }
    } else if text::is_space_byte(c) {
        Step { next: i + 1, construct: None, directive: false, last }
    } else if text::is_word_start_byte(c) {
        let end = scan::word_end(b, i);
        let word = scan::lower_ascii(b, i, end);
        if word == "rowid"@ {
            Step {
                next: end,
                construct: if last == Some("without"@) {
                    Some(Construct::WithoutRowId)
                } else {
                    None
                },
                directive: false,
                last: None,
            }
        } else {
            Step {
                next: end,
                construct: crate::query::word_construct(word),
                directive: false,
                last: Some(word),
            }
        }
    } else if text::is_digit_byte(c) {
        Step { next: scan::number_end(b, i), construct: None, directive: false, last: None }
    } else if i + 1 < b.len() && c == 0x2d && b[i + 1] == 0x3e {
        if i + 2 < b.len() && b[i + 2] == 0x3e {
            Step {
                next: i + 3,
                construct: Some(Construct::JsonArrowText),
                directive: false,
                last: None,
            }
        } else {
            Step {
                next: i + 2,
                construct: Some(Construct::JsonArrow),
                directive: false,
                last: None,
            }
        }
    } else if i + 1 < b.len() && c == 0x40 && b[i + 1] == 0x3e {
        Step { next: i + 2, construct: Some(Construct::JsonContains), directive: false, last: None }
    } else if i + 1 < b.len() && c == 0x3c && b[i + 1] == 0x40 {
        Step {
            next: i + 2,
            construct: Some(Construct::JsonContained),
            directive: false,
            last: None,
        }
    } else if c == 0x3f {
        Step { next: i + 1, construct: Some(Construct::JsonExists), directive: false, last: None }
    } else {
        Step { next: i + 1, construct: None, directive: false, last: None }
    }
}

/// Every step takes at least one byte and stays inside the literal.
pub proof fn lemma_step_advances(b: Seq<u8>, i: int, last: Option<Seq<char>>)
    requires
        0 <= i < b.len(),
    ensures
        i < step(b, i, last).next <= b.len(),
{
    scan::lemma_run_end(b, i, |c: u8| c != 0x0a);
    scan::lemma_run_end(b, i, |c: u8| text::is_word_byte(c));
    scan::lemma_run_end(b, i, |c: u8| text::is_alnum_byte(c) || c == 0x2e);
    if scan::quote_at(b, i) {
        scan::lemma_quoted_end(b, i + 1, b[i]);
    }
}

/// The constructs from position `i` on, in source order.
pub open spec fn marks(b: Seq<u8>, i: int, last: Option<Seq<char>>) -> Seq<Construct>
    decreases b.len() - i,
{
    if 0 <= i < b.len() {
        proof {
            lemma_step_advances(b, i, last);
        }
        let s = step(b, i, last);
        let rest = marks(b, s.next, s.last);
        match s.construct {
            Some(c) => seq![c] + rest,
            None => rest,
        }
    } else {
        Seq::empty()
    }
}

/// Whether a directive comment stands from position `i` on.
pub open spec fn directed(b: Seq<u8>, i: int, last: Option<Seq<char>>) -> bool
    decreases b.len() - i,
{
    if 0 <= i < b.len() {
        proof {
            lemma_step_advances(b, i, last);
        }
        let s = step(b, i, last);
        s.directive || directed(b, s.next, s.last)
    } else {
        false
    }
}

/// A literal holds no more constructs than bytes.
pub proof fn lemma_marks_bounded(b: Seq<u8>, i: int, last: Option<Seq<char>>)
    requires
        0 <= i <= b.len(),
    ensures
        marks(b, i, last).len() <= b.len() - i,
    decreases b.len() - i,
{
    if i < b.len() {
        lemma_step_advances(b, i, last);
        let s = step(b, i, last);
        lemma_marks_bounded(b, s.next, s.last);
    }
}

/// The constructs of a literal.
pub open spec fn literal_constructs(literal: Seq<char>) -> Seq<Construct> {
    marks(text::utf8(literal), 0, None)
}

/// Whether both scanners read the text alike: no quote, no digit, no `?` and
/// no comment stands in it. Each of these the two scanners may take apart in
/// their own ways.
pub open spec fn is_plain(b: Seq<u8>) -> bool {
    forall|i: int|
        0 <= i < b.len() ==> #[trigger] b[i] != 0x3f && !text::is_digit_byte(b[i])
            && !scan::quote_at(b, i) && !scan::dashes_at(b, i) && !scan::block_at(b, i)
}

proof fn lemma_constructs_skip(tokens: Seq<TokenView>, n: int, i: int)
    requires
        0 <= n <= tokens.len(),
        0 <= i,
    ensures
        crate::query::constructs_from(tokens.skip(n), i) == crate::query::constructs_from(
            tokens,
            n + i,
        ),
    decreases tokens.len() - n - i,
{
    if n + i < tokens.len() {
        let taken = crate::query::construct_at(tokens, n + i).1;
        assert(tokens.skip(n)[i] == tokens[n + i]);
        if n + i + 1 < tokens.len() {
            assert(tokens.skip(n)[i + 1] == tokens[n + i + 1]);
        }
        lemma_constructs_skip(tokens, n, i + taken);
    }
}

proof fn lemma_scanners_agree_from(b: Seq<u8>, i: int, last: Option<Seq<char>>)
    requires
        0 <= i <= b.len(),
        is_plain(b),
    ensures
        ({
            let tokens = lexer::tokens_from(b, i);
            marks(b, i, last) == if last == Some("without"@) && tokens.len() > 0 && tokens[0]
                == TokenView::Word("rowid"@) {
                seq![Construct::WithoutRowId] + crate::query::constructs_from(tokens, 1)
            } else {
                crate::query::constructs_from(tokens, 0)
            }
        }),
    decreases b.len() - i,
{
    if i < b.len() {
        let s = step(b, i, last);
        lemma_step_advances(b, i, last);
        lemma_scanners_agree_from(b, s.next, s.last);
        let (next, token) = lexer::lexeme(b, i);
        assert(b[i] != 0x3f);
        assert(next == s.next);
        let tokens = lexer::tokens_from(b, i);
        let rest = lexer::tokens_from(b, next);
        if let Some(t) = token {
            assert(tokens =~= seq![t] + rest);
            assert(tokens.skip(1) =~= rest);
            lemma_constructs_skip(tokens, 1, 0);
            if rest.len() > 0 {
                lemma_constructs_skip(tokens, 1, 1);
                assert(tokens[1] == rest[0]);
            }
            lemma_tables_agree();
        }
    }
}

proof fn lemma_tables_agree()
    ensures
        crate::query::word_construct("rowid"@) is None,
        crate::query::word_construct("without"@) is None,
        "rowid"@ != "without"@,
        crate::query::op_construct("->>"@) == Some(Construct::JsonArrowText),
        crate::query::op_construct("->"@) == Some(Construct::JsonArrow),
        crate::query::op_construct("@>"@) == Some(Construct::JsonContains),
        crate::query::op_construct("<@"@) == Some(Construct::JsonContained),
{
    reveal_strlit("->>");
    reveal_strlit("->");
    reveal_strlit("@>");
    reveal_strlit("<@");
    assert("->>"@.len() == 3);
    assert("->"@[0] != "@>"@[0]);
    assert("->"@[0] != "<@"@[0]);
    assert("@>"@[0] != "<@"@[0]);
    reveal_strlit("json_each");
    reveal_strlit("json_tree");
    reveal_strlit("strict");
    reveal_strlit("jsonb");
    reveal_strlit("returning");
    reveal_strlit("ilike");
    reveal_strlit("gen_random_uuid");
    reveal_strlit("now");
    reveal_strlit("without");
    reveal_strlit("rowid");
    assert("rowid"@.len() == 5);
    assert("without"@.len() == 7);
    assert("json_each"@.len() == 9);
    assert("json_tree"@.len() == 9);
    assert("strict"@.len() == 6);
    assert("returning"@.len() == 9);
    assert("gen_random_uuid"@.len() == 15);
    assert("now"@.len() == 3);
    assert("jsonb"@[0] != "rowid"@[0]);
    assert("ilike"@[0] != "rowid"@[0]);
}

/// The scanner of literals and the runtime analyzer find the same constructs,
/// in the same order, in a text that both read alike.
pub proof fn lemma_scanners_agree(literal: Seq<char>)
    requires
        is_plain(text::utf8(literal)),
    ensures
        literal_constructs(literal) == crate::query::constructs_of(
            lexer::without_directive(literal),
        ),
{
    let b = text::utf8(literal);
    lemma_scanners_agree_from(b, 0, None);
    assert(!scan::dashes_at(b, scan::spaces_end(b, 0))) by {
        scan::lemma_run_end(b, 0, |c: u8| text::is_space_byte(c));
        let at = scan::spaces_end(b, 0);
        if at < b.len() {
            assert(b[at] != 0x3f);
        }
    }
}

/// The step of the scanner that makes a [`Step`].
struct Scanned {
    next: usize,
    construct: Option<Construct>,
    directive: bool,
    last: Option<String>,
}

impl Scanned {
    spec fn view(self) -> Step {
        Step {
            next: self.next as int,
            construct: self.construct,
            directive: self.directive,
            last: crate::error::text_option(self.last),
        }
    }
}

fn plain_step(next: usize, construct: Option<Construct>) -> (r: Scanned)
    ensures
        r@ == (Step { next: next as int, construct, directive: false, last: None }),
{
    Scanned { next, construct, directive: false, last: None }
}

fn next_step(b: &[u8], i: usize, last: Option<String>) -> (r: Scanned)
    requires
        i < b@.len(),
    ensures
        r@ == step(b@, i as int, crate::error::text_option(last)),
        i < r.next <= b@.len(),
{
    proof {
        lemma_step_advances(b@, i as int, crate::error::text_option(last));
    }
    let c: u8 = b[i];
    let more: bool = b.len() - i > 1;
    if c == 0x2d && more && b[i + 1] == 0x2d {
        let word: usize = scan::spaces_end_from(b, i + 2);
        let directive: bool = scan::has_word_at(b, word, "dactyl".as_bytes());
        return Scanned { next: scan::line_end_from(b, i), construct: None, directive, last };
    }
    if c == 0x27 || c == 0x22 {
        return plain_step(scan::quoted_end_from(b, i + 1, c), None);
    }
    if text::space_byte(c) {
        return Scanned { next: i + 1, construct: None, directive: false, last };
    }
    if text::alpha_byte(c) || c == 0x5f {
        let end: usize = scan::word_end_from(b, i);
        let word: String = scan::lower_ascii_text(b, i, end);
        if text::str_eq(word.as_str(), "rowid") {
            let joined: bool = match last {
                Some(w) => text::str_eq(w.as_str(), "without"),
                None => false,
            };
            return plain_step(
                end,
                if joined {
                    Some(Construct::WithoutRowId)
                } else {
                    None
                },
            );
        }
        let construct: Option<Construct> = crate::query::find_word_construct(word.as_str());
        return Scanned { next: end, construct, directive: false, last: Some(word) };
    }
    if text::digit_byte(c) {
        return plain_step(scan::number_end_from(b, i), None);
    }
    if more && c == 0x2d && b[i + 1] == 0x3e {
        if b.len() - i > 2 && b[i + 2] == 0x3e {
            return plain_step(i + 3, Some(Construct::JsonArrowText));
        }
        return plain_step(i + 2, Some(Construct::JsonArrow));
    }
    if more && c == 0x40 && b[i + 1] == 0x3e {
        return plain_step(i + 2, Some(Construct::JsonContains));
    }
    if more && c == 0x3c && b[i + 1] == 0x40 {
        return plain_step(i + 2, Some(Construct::JsonContained));
    }
    if c == 0x3f {
        return plain_step(i + 1, Some(Construct::JsonExists));
    }
    plain_step(i + 1, None)
}

/// Scan a literal for the constructs that the macro knows.
pub fn lex(input: &str) -> (r: LexHit)
    requires
        literal_constructs(input@).len() <= u32::MAX,
    ensures
        r.records(literal_constructs(input@)),
        r.has_inline_directive == directed(text::utf8(input@), 0, None),
{
    let mut hit: LexHit = LexHit::empty();
    let b = input.as_bytes();
    let mut i: usize = 0;
    let mut last: Option<String> = None;
    let ghost mut found: Seq<Construct> = Seq::empty();
    let ghost mut last_text: Option<Seq<char>> = None;
    assert(found + marks(b@, 0, None) =~= marks(b@, 0, None));
    while i < b.len()
        invariant
            i <= b@.len(),
            b@ == text::utf8(input@),
            last_text == crate::error::text_option(last),
            found + marks(b@, i as int, last_text) == literal_constructs(input@),
            literal_constructs(input@).len() <= u32::MAX,
            hit.records(found),
            hit.constructs == found.len(),
            (hit.has_inline_directive || directed(b@, i as int, last_text)) == directed(
                b@,
                0,
                None,
            ),
        decreases b@.len() - i,
    {
        let s: Scanned = next_step(b, i, last);
        let ghost before = found;
        if s.directive {
            hit.note_directive();
        }
        if let Some(c) = s.construct {
            proof {
                assert(marks(b@, i as int, last_text) =~= seq![c] + marks(
                    b@,
                    s.next as int,
                    s@.last,
                ));
                assert(literal_constructs(input@).len() == found.len() + marks(
                    b@,
                    i as int,
                    last_text,
                ).len());
                found = found.push(c);
            }
            hit.mark(c);
            assert(found + marks(b@, s.next as int, s@.last) =~= before + (seq![c] + marks(
                b@,
                s.next as int,
                s@.last,
            )));
        }
        proof {
            last_text = s@.last;
        }
        i = s.next;
        last = s.last;
    }
    assert(found + marks(b@, i as int, last_text) =~= found);
    hit
}

proof fn lemma_push_contains(found: Seq<Construct>, c: Construct, d: Construct)
    ensures
        found.push(c).contains(d) <==> found.contains(d) || d == c,
{
    if found.contains(d) {
        let k = choose|k: int| 0 <= k < found.len() && found[k] == d;
        assert(found.push(c)[k] == d);
    }
    assert(found.push(c)[found.len() as int] == c);
}

/// Whether a datastore supports every construct of a literal.
pub open spec fn literal_supported(datastore: Seq<char>, found: Seq<Construct>) -> bool {
    match crate::query::store_dialect(datastore) {
        Some(crate::query::Dialect::Sqlite) => forall|c: Construct| #[trigger]
            found.contains(c) ==> (c is JsonEach || c is JsonTree || c is WithoutRowId
                || c is Strict),
        Some(_) => forall|c: Construct| #[trigger]
            found.contains(c) ==> !(c is JsonEach || c is JsonTree || c is WithoutRowId
                || c is Strict),
        None => false,
    }
}

/// Whether a datastore supports every construct that a hit records. An
/// unknown datastore supports none.
pub fn ds_supported(datastore: &str, hit: &LexHit) -> (r: bool)
    ensures
        forall|found: Seq<Construct>| #[trigger] hit.records(found) ==> r == literal_supported(datastore@, found),
{
    reveal(LexHit::records);
    let sqlite_only: bool = hit.json_each || hit.json_tree || hit.without_rowid || hit.strict;
    let pg_only: bool = hit.json_arrow_text || hit.json_arrow || hit.json_contains
        || hit.json_contained || hit.json_exists || hit.jsonb || hit.returning || hit.ilike
        || hit.gen_random_uuid || hit.now_fn;
    proof {
        assert forall|found: Seq<Construct>| #[trigger] hit.records(found) implies (sqlite_only
            <==> exists|c: Construct| #[trigger]
            found.contains(c) && (c is JsonEach || c is JsonTree || c is WithoutRowId
                || c is Strict)) && (pg_only <==> exists|c: Construct| #[trigger]
            found.contains(c) && !(c is JsonEach || c is JsonTree || c is WithoutRowId
                || c is Strict)) by {
            assert(hit.flag(Construct::JsonEach) == found.contains(Construct::JsonEach));
            assert(hit.flag(Construct::JsonTree) == found.contains(Construct::JsonTree));
            assert(hit.flag(Construct::WithoutRowId) == found.contains(Construct::WithoutRowId));
            assert(hit.flag(Construct::Strict) == found.contains(Construct::Strict));
            assert(hit.flag(Construct::JsonArrowText) == found.contains(Construct::JsonArrowText));
            assert(hit.flag(Construct::JsonArrow) == found.contains(Construct::JsonArrow));
            assert(hit.flag(Construct::JsonContains) == found.contains(Construct::JsonContains));
            assert(hit.flag(Construct::JsonContained) == found.contains(Construct::JsonContained));
            assert(hit.flag(Construct::JsonExists) == found.contains(Construct::JsonExists));
            assert(hit.flag(Construct::Jsonb) == found.contains(Construct::Jsonb));
            assert(hit.flag(Construct::Returning) == found.contains(Construct::Returning));
            assert(hit.flag(Construct::Ilike) == found.contains(Construct::Ilike));
            assert(hit.flag(Construct::GenRandomUuid) == found.contains(Construct::GenRandomUuid));
            assert(hit.flag(Construct::NowFn) == found.contains(Construct::NowFn));
        }
    }
    match crate::query::dialect_of(datastore) {
        Some(crate::query::Dialect::Sqlite) => !pg_only,
        Some(_) => !sqlite_only,
        None => false,
    }
}

/// What becomes of a `query!` call.
#[derive(Debug, Clone, Copy, PartialEq, Eq, Structural)]
pub enum Expansion {
    /// The literal is refused while the crate is built.
    CompileError,
    /// The expansion checks the literal against the datastore at run time.
    Checked,
    /// The expansion hands the literal to the runtime analyzer.
    Deferred,
}

/// What becomes of a call with these arguments on a literal with these
/// constructs.
pub open spec fn expansion_of(
    datastore: Option<Seq<char>>,
    optimize: bool,
    found: Seq<Construct>,
) -> Expansion {
    if optimize {
        Expansion::Deferred
    } else if datastore matches Some(ds) && found.len() > 0 && !literal_supported(ds, found) {
        Expansion::CompileError
    } else {
        Expansion::Checked
    }
}

/// Decide what becomes of a `query!` call. A literal fails the build only
/// where rewriting is disabled and an explicit datastore lacks one of its
/// constructs.
pub fn decide_expansion(datastore: Option<&str>, optimize: bool, literal: &str) -> (r: Expansion)
    requires
        literal_constructs(literal@).len() <= u32::MAX,
    ensures
        r == expansion_of(
            match datastore {
                Some(ds) => Some(ds@),
                None => None,
            },
            optimize,
            literal_constructs(literal@),
        ),
{
    if optimize {
        return Expansion::Deferred;
    }
    reveal(LexHit::records);
    let hit: LexHit = lex(literal);
    match datastore {
        Some(ds) => if !hit.portable() && !ds_supported(ds, &hit) {
            Expansion::CompileError
        } else {
            Expansion::Checked
        },
        None => Expansion::Checked,
    }
}

/// Why a literal is refused while the crate is built, if it is: it must not be
/// blank.
pub fn literal_fault(literal: &str) -> (r: Option<&'static str>)
    ensures
        r is Some <==> crate::text::is_blank(literal@),
        r is Some ==> r->Some_0@ == "`query!` requires a non-empty SQL literal"@,
{
    if crate::text::blank(literal) {
        Some("`query!` requires a non-empty SQL literal")
    } else {
        None
    }
}

/// The literal as the macro hands it on: unchanged.
pub fn rewrite(input: &str) -> (r: String)
    ensures
        r@ == input@,
{
    input.to_string()
}

// ---------------------------------------------------------------------------
// What a literal is made of
// ---------------------------------------------------------------------------

/// A line comment reaches to the end of its line and holds no construct. It is
/// a directive exactly where `dactyl` is its first word. The word before it
/// still counts behind it.
pub proof fn lemma_comment_in_literal(
    b: Seq<u8>,
    i: int,
    w: int,
    e: int,
    last: Option<Seq<char>>,
)
    requires
        0 <= i && i + 2 <= w <= e <= b.len(),
        b[i] as char == '-' && b[i + 1] as char == '-',
        forall|k: int| i <= k < e ==> #[trigger] b[k] as char != '\n',
        e < b.len() ==> b[e] as char == '\n',
        forall|k: int| i + 2 <= k < w ==> text::is_space_byte(#[trigger] b[k]),
        w < b.len() && !text::is_space_byte(b[w]),
    ensures
        marks(b, i, last) == marks(b, e, last),
        directed(b, i, last) <==> (scan::word_at(b, w, text::utf8("dactyl"@)) || directed(
            b,
            e,
            last,
        )),
{
    crate::query::grammar::lemma_run_is(b, i, e, |c: u8| c != 0x0a);
    crate::query::grammar::lemma_run_is(b, i + 2, w, |c: u8| text::is_space_byte(c));
}

/// A quoted text holds no construct and no directive, whatever is in it, and
/// the word before it does not count behind it.
pub proof fn lemma_quoted_in_literal(
    b: Seq<u8>,
    i: int,
    s: Seq<u8>,
    q: u8,
    last: Option<Seq<char>>,
)
    requires
        q as char == '\'' || q as char == '"',
        0 <= i,
        i + crate::query::grammar::between_quotes(s, q).len() + 2 <= b.len(),
        b[i] == q,
        b.subrange(i + 1, i + 1 + crate::query::grammar::between_quotes(s, q).len())
            == crate::query::grammar::between_quotes(s, q),
        b[i + 1 + crate::query::grammar::between_quotes(s, q).len()] == q,
        i + crate::query::grammar::between_quotes(s, q).len() + 2 < b.len() ==> b[i + 2
            + crate::query::grammar::between_quotes(s, q).len()] != q,
    ensures
        ({
            let e = i + 2 + crate::query::grammar::between_quotes(s, q).len();
            &&& marks(b, i, last) == marks(b, e, None)
            &&& directed(b, i, last) == directed(b, e, None)
        }),
{
    crate::query::grammar::lemma_quoted_is(b, i + 1, s, q);
}

/// Whitespace holds no construct, and the word before it still counts behind
/// it. A number holds none either; it takes letters, digits and dots.
pub proof fn lemma_spaces_and_numbers_in_literal(
    b: Seq<u8>,
    i: int,
    e: int,
    last: Option<Seq<char>>,
)
    requires
        0 <= i < e <= b.len(),
    ensures
        text::is_space(b[i] as char) && e == i + 1 ==> marks(b, i, last) == marks(b, e, last)
            && directed(b, i, last) == directed(b, e, last),
        '0' <= b[i] as char <= '9' && (forall|k: int|
            i <= k < e ==> text::is_alnum_byte(#[trigger] b[k]) || b[k] as char == '.') && (e
            < b.len() ==> !text::is_alnum_byte(b[e]) && b[e] as char != '.') ==> marks(b, i, last)
            == marks(b, e, None) && directed(b, i, last) == directed(b, e, None),
{
    crate::query::grammar::lemma_byte_classes(b[i]);
    let class = |c: u8| text::is_alnum_byte(c) || c == 0x2e;
    if (forall|k: int|
        i <= k < e ==> text::is_alnum_byte(#[trigger] b[k]) || b[k] as char == '.') && (e < b.len()
        ==> !text::is_alnum_byte(b[e]) && b[e] as char != '.') {
        assert forall|k: int| i <= k < e implies class(#[trigger] b[k]) by {}
        crate::query::grammar::lemma_run_is(b, i, e, class);
    }
}

/// A word holds the construct that it stands for at run time, and counts as
/// the word before what follows. The word `rowid` holds one exactly where
/// `without` comes before it, and then counts no more.
pub proof fn lemma_word_in_literal(
    b: Seq<u8>,
    i: int,
    e: int,
    word: Seq<char>,
    last: Option<Seq<char>>,
)
    requires
        0 <= i < e <= b.len(),
        text::is_word_start_byte(b[i]),
        forall|k: int| i <= k < e ==> text::is_word_byte(#[trigger] b[k]),
        e < b.len() ==> !text::is_word_byte(b[e]),
        word.len() == e - i,
        forall|k: int|
            0 <= k < word.len() ==> #[trigger] word[k] == text::lower_char(b[i + k] as char),
    ensures
        word != "rowid"@ ==> marks(b, i, last) == match crate::query::word_construct(word) {
            Some(c) => seq![c] + marks(b, e, Some(word)),
            None => marks(b, e, Some(word)),
        },
        word == "rowid"@ && last == Some("without"@) ==> marks(b, i, last) == seq![
            Construct::WithoutRowId,
        ] + marks(b, e, None),
        word == "rowid"@ && last != Some("without"@) ==> marks(b, i, last) == marks(b, e, None),
        directed(b, i, last) == directed(
            b,
            e,
            if word == "rowid"@ {
                None
            } else {
                Some(word)
            },
        ),
{
    crate::query::grammar::lemma_run_is(b, i, e, |c: u8| text::is_word_byte(c));
    assert(scan::lower_ascii(b, i, e) =~= word) by {
        assert forall|k: int| 0 <= k < word.len() implies scan::lower_ascii(b, i, e)[k]
            == word[k] by {
            crate::query::grammar::lemma_byte_classes(b[i + k]);
        }
    }
}

/// The JSON operators hold their constructs, the longer operator first, and a
/// question mark holds the existence operator. Other signs hold none. The word
/// before a sign does not count behind it.
pub proof fn lemma_operators_in_literal(b: Seq<u8>, i: int, last: Option<Seq<char>>)
    requires
        0 <= i < b.len(),
    ensures
        ({
            let c = b[i] as char;
            let d = b[i + 1] as char;
            let two = i + 1 < b.len();
            let arrow = two && c == '-' && d == '>';
            let third = i + 2 < b.len() && b[i + 2] as char == '>';
            &&& arrow && third ==> marks(b, i, last) == seq![Construct::JsonArrowText] + marks(
                b,
                i + 3,
                None,
            )
            &&& arrow && !third ==> marks(b, i, last) == seq![Construct::JsonArrow] + marks(
                b,
                i + 2,
                None,
            )
            &&& two && c == '@' && d == '>' ==> marks(b, i, last) == seq![
                Construct::JsonContains,
            ] + marks(b, i + 2, None)
            &&& two && c == '<' && d == '@' ==> marks(b, i, last) == seq![
                Construct::JsonContained,
            ] + marks(b, i + 2, None)
            &&& c == '?' ==> marks(b, i, last) == seq![Construct::JsonExists] + marks(
                b,
                i + 1,
                None,
            )
            &&& c == '(' || c == ')' || c == ',' || c == '.' || c == '=' || c == '*' || c == '+'
                || c == '$' || c == ':' || c == ';' || c == '/' || c == '>' ==> marks(b, i, last)
                == marks(b, i + 1, None)
            &&& c == '(' || c == ')' || c == ',' || c == '.' || c == '=' || c == '*' || c == '+'
                || c == '$' || c == ':' || c == ';' || c == '/' || c == '>' || c == '?'
                ==> directed(b, i, last) == directed(b, i + 1, None)
        }),
{
}

/// A hit tells the constructs of a literal: how many there are, and of which
/// kinds. Each kind has a flag of its own.
pub proof fn lemma_hits_tell_the_constructs(hit: LexHit, found: Seq<Construct>)
    requires
        hit.records(found),
    ensures
        hit.constructs == found.len(),
        hit.json_each <==> found.contains(Construct::JsonEach),
        hit.json_tree <==> found.contains(Construct::JsonTree),
        hit.without_rowid <==> found.contains(Construct::WithoutRowId),
        hit.strict <==> found.contains(Construct::Strict),
        hit.jsonb <==> found.contains(Construct::Jsonb),
        hit.returning <==> found.contains(Construct::Returning),
        hit.ilike <==> found.contains(Construct::Ilike),
        hit.gen_random_uuid <==> found.contains(Construct::GenRandomUuid),
        hit.now_fn <==> found.contains(Construct::NowFn),
        hit.json_arrow_text <==> found.contains(Construct::JsonArrowText),
        hit.json_arrow <==> found.contains(Construct::JsonArrow),
        hit.json_contains <==> found.contains(Construct::JsonContains),
        hit.json_contained <==> found.contains(Construct::JsonContained),
        hit.json_exists <==> found.contains(Construct::JsonExists),
{
    reveal(LexHit::records);
    assert(hit.flag(Construct::JsonEach) == found.contains(Construct::JsonEach));
    assert(hit.flag(Construct::JsonTree) == found.contains(Construct::JsonTree));
    assert(hit.flag(Construct::WithoutRowId) == found.contains(Construct::WithoutRowId));
    assert(hit.flag(Construct::Strict) == found.contains(Construct::Strict));
    assert(hit.flag(Construct::JsonArrowText) == found.contains(Construct::JsonArrowText));
    assert(hit.flag(Construct::JsonArrow) == found.contains(Construct::JsonArrow));
    assert(hit.flag(Construct::JsonContains) == found.contains(Construct::JsonContains));
    assert(hit.flag(Construct::JsonContained) == found.contains(Construct::JsonContained));
    assert(hit.flag(Construct::JsonExists) == found.contains(Construct::JsonExists));
    assert(hit.flag(Construct::Jsonb) == found.contains(Construct::Jsonb));
    assert(hit.flag(Construct::Returning) == found.contains(Construct::Returning));
    assert(hit.flag(Construct::Ilike) == found.contains(Construct::Ilike));
    assert(hit.flag(Construct::GenRandomUuid) == found.contains(Construct::GenRandomUuid));
    assert(hit.flag(Construct::NowFn) == found.contains(Construct::NowFn));
}

/// Which literals a datastore supports, by its name and the constructs. The
/// constructs of SQLite and those of Postgres keep each other out: a literal
/// with any of the first is refused for the Postgres stores, one with any of
/// the others for the SQLite stores, and an unknown store supports none.
pub proof fn lemma_supported_literals(datastore: Seq<char>, found: Seq<Construct>)
    ensures
        ({
            let lite = found.contains(Construct::JsonEach) || found.contains(Construct::JsonTree)
                || found.contains(Construct::WithoutRowId) || found.contains(Construct::Strict);
            let other = found.contains(Construct::JsonArrowText) || found.contains(
                Construct::JsonArrow,
            ) || found.contains(Construct::JsonContains) || found.contains(
                Construct::JsonContained,
            ) || found.contains(Construct::JsonExists) || found.contains(Construct::Jsonb)
                || found.contains(Construct::Returning) || found.contains(Construct::Ilike)
                || found.contains(Construct::GenRandomUuid) || found.contains(Construct::NowFn);
            let store = crate::query::store_dialect(datastore);
            &&& store == Some(crate::query::Dialect::Sqlite) ==> (literal_supported(
                datastore,
                found,
            ) <==> !other)
            &&& store == Some(crate::query::Dialect::Postgres) ==> (literal_supported(
                datastore,
                found,
            ) <==> !lite)
            &&& store is None ==> !literal_supported(datastore, found)
        }),
{
}

/// What becomes of a call: a literal fails the build exactly where the call
/// says not to optimize, names a datastore, and the literal holds a construct
/// that this datastore does not support. A call that is optimized is left to
/// run time.
pub proof fn lemma_expansions(
    datastore: Option<Seq<char>>,
    optimize: bool,
    found: Seq<Construct>,
)
    ensures
        expansion_of(datastore, optimize, found) == Expansion::Deferred <==> optimize,
        expansion_of(datastore, optimize, found) == Expansion::CompileError <==> (!optimize
            && found.len() > 0 && datastore is Some && !literal_supported(
            datastore->Some_0,
            found,
        )),
        datastore is None || found.len() == 0 ==> expansion_of(datastore, optimize, found)
            != Expansion::CompileError,
{
}

} // verus!
