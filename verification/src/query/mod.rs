//! Query analysis and bounded dialect preparation.
//!
//! The analyzer uses a total lexical scanner rather than pretending to be a
//! full SQL parser. It rejects constructs that cannot be translated safely
//! and applies only explicit, semantics-bounded rewrites when the caller
//! enables them.

use vstd::prelude::*;

pub mod dialect;
pub mod effects;
pub mod grammar;
pub mod laws;
pub mod lexer;
pub mod rewrite;
pub mod scan;

pub use self::dialect::{first_unsupported, Construct, Dialect};
pub use self::lexer::{strip_dactyl_directive, tokenize, Token};

use crate::error::{DactylError, ErrorView};
use crate::query::lexer::TokenView;
use crate::query::rewrite::Transform;
use crate::text;

verus! {

/// Outcome of analyzing a query without selecting an adapter.
#[derive(Debug)]
pub struct Analyzed {
    /// All dialect-specific constructs the lexer found, in source order.
    pub constructs: Vec<Construct>,
    /// Inline `-- dactyl: <datastore>` override, if any.
    pub inline_override: Option<&'static str>,
    /// A directive-stripping rewrite plan. Adapter-specific rewrites are
    /// selected by [`QueryAnalyzer::prepare`].
    pub rewrite: Rewrite,
}

/// A no-op or directive-stripping rewrite plan.
#[derive(Debug)]
pub enum Rewrite {
    /// Pass the query through unchanged.
    Identity,
    /// A rewritten query string.
    Replaced(String),
}

impl Rewrite {
    /// The SQL that the plan makes of `original`.
    pub open spec fn applied(self, original: Seq<char>) -> Seq<char> {
        match self {
            Rewrite::Identity => original,
            Rewrite::Replaced(s) => s@,
        }
    }

    /// Apply the rewrite and return the SQL string to execute.
    pub fn apply(&self, original: &str) -> (r: String)
        ensures
            r@ == self.applied(original@),
    {
        match self {
            Rewrite::Identity => original.to_string(),
            Rewrite::Replaced(s) => s.clone(),
        }
    }
}

// ---------------------------------------------------------------------------
// Constructs
// ---------------------------------------------------------------------------

/// The construct that a single word stands for.
pub open spec fn word_construct(w: Seq<char>) -> Option<Construct> {
    if w == "json_each"@ {
        Some(Construct::JsonEach)
    } else if w == "json_tree"@ {
        Some(Construct::JsonTree)
    } else if w == "strict"@ {
        Some(Construct::Strict)
    } else if w == "jsonb"@ {
        Some(Construct::Jsonb)
    } else if w == "returning"@ {
        Some(Construct::Returning)
    } else if w == "ilike"@ {
        Some(Construct::Ilike)
    } else if w == "gen_random_uuid"@ {
        Some(Construct::GenRandomUuid)
    } else if w == "now"@ {
        Some(Construct::NowFn)
    } else {
        None
    }
}

/// The construct that an operator stands for.
pub open spec fn op_construct(o: Seq<char>) -> Option<Construct> {
    if o == "->>"@ {
        Some(Construct::JsonArrowText)
    } else if o == "->"@ {
        Some(Construct::JsonArrow)
    } else if o == "@>"@ {
        Some(Construct::JsonContains)
    } else if o == "<@"@ {
        Some(Construct::JsonContained)
    } else {
        None
    }
}

/// The construct that starts at token `i`, if any, and the number of tokens
/// that it takes.
pub open spec fn construct_at(tokens: Seq<TokenView>, i: int) -> (Option<Construct>, int) {
    match tokens[i] {
        TokenView::Word(w) => if w == "without"@ && i + 1 < tokens.len() && tokens[i + 1]
            == TokenView::Word("rowid"@) {
            (Some(Construct::WithoutRowId), 2)
        } else {
            (word_construct(w), 1)
        },
        TokenView::Op(o) => (op_construct(o), 1),
        _ => (None, 1),
    }
}

/// The constructs among the tokens from `i` on, in source order.
pub open spec fn constructs_from(tokens: Seq<TokenView>, i: int) -> Seq<Construct>
    decreases tokens.len() - i,
{
    if 0 <= i < tokens.len() {
        let (construct, taken) = construct_at(tokens, i);
        let rest = constructs_from(tokens, i + taken);
        match construct {
            Some(c) => seq![c] + rest,
            None => rest,
        }
    } else {
        Seq::empty()
    }
}

/// The constructs of SQL text, in source order.
pub open spec fn constructs_of(sql: Seq<char>) -> Seq<Construct> {
    constructs_from(lexer::tokens_of(sql), 0)
}

pub(crate) fn find_word_construct(w: &str) -> (r: Option<Construct>)
    ensures
        r == word_construct(w@),
{
    if text::str_eq(w, "json_each") {
        Some(Construct::JsonEach)
    } else if text::str_eq(w, "json_tree") {
        Some(Construct::JsonTree)
    } else if text::str_eq(w, "strict") {
        Some(Construct::Strict)
    } else if text::str_eq(w, "jsonb") {
        Some(Construct::Jsonb)
    } else if text::str_eq(w, "returning") {
        Some(Construct::Returning)
    } else if text::str_eq(w, "ilike") {
        Some(Construct::Ilike)
    } else if text::str_eq(w, "gen_random_uuid") {
        Some(Construct::GenRandomUuid)
    } else if text::str_eq(w, "now") {
        Some(Construct::NowFn)
    } else {
        None
    }
}

fn find_op_construct(o: &str) -> (r: Option<Construct>)
    ensures
        r == op_construct(o@),
{
    if text::str_eq(o, "->>") {
        Some(Construct::JsonArrowText)
    } else if text::str_eq(o, "->") {
        Some(Construct::JsonArrow)
    } else if text::str_eq(o, "@>") {
        Some(Construct::JsonContains)
    } else if text::str_eq(o, "<@") {
        Some(Construct::JsonContained)
    } else {
        None
    }
}

/// Walk the token stream and collect dialect-specific constructs.
///
/// `?` is also a SQLite parameter placeholder, so it is never taken for JSON
/// existence syntax.
pub fn detect_constructs(tokens: &[Token]) -> (r: Vec<Construct>)
    ensures
        r@ == constructs_from(lexer::views(tokens@), 0),
{
    let mut out: Vec<Construct> = Vec::new();
    let ghost all = lexer::views(tokens@);
    let mut i: usize = 0;
    assert(out@ + constructs_from(all, 0) =~= constructs_from(all, 0));
    while i < tokens.len()
        invariant
            i <= tokens@.len(),
            all == lexer::views(tokens@),
            out@ + constructs_from(all, i as int) == constructs_from(all, 0),
        decreases tokens@.len() - i,
    {
        let ghost before = out@;
        let mut taken: usize = 1;
        assert(all[i as int] == tokens@[i as int]@);
        let found: Option<Construct> = match &tokens[i] {
            Token::Word(w) => {
                let mut rowid: bool = false;
                if text::str_eq(w.as_str(), "without") && tokens.len() - i > 1 {
                    assert(all[i + 1] == tokens@[i + 1]@);
                    if let Token::Word(n) = &tokens[i + 1] {
                        rowid = text::str_eq(n.as_str(), "rowid");
                    }
                }
                if rowid {
                    taken = 2;
                    Some(Construct::WithoutRowId)
                } else {
                    find_word_construct(w.as_str())
                }
            },
            Token::Op(o) => find_op_construct(o.as_str()),
            _ => None,
        };
        assert(construct_at(all, i as int) == (found, taken as int));
        if let Some(c) = found {
            out.push(c);
            assert(out@ + constructs_from(all, i + taken) =~= before + (seq![c]
                + constructs_from(all, i + taken)));
        }
        i = i + taken;
    }
    assert(out@ + constructs_from(all, i as int) =~= out@);
    out
}

/// A question mark is never taken for the JSON existence operator.
pub proof fn lemma_question_is_no_construct(tokens: Seq<TokenView>, i: int)
    ensures
        !constructs_from(tokens, i).contains(Construct::JsonExists),
    decreases tokens.len() - i,
{
    if 0 <= i < tokens.len() {
        let (construct, taken) = construct_at(tokens, i);
        lemma_question_is_no_construct(tokens, i + taken);
        let rest = constructs_from(tokens, i + taken);
        match construct {
            Some(c) => {
                assert(c != Construct::JsonExists);
                let all = seq![c] + rest;
                if all.contains(Construct::JsonExists) {
                    let k = choose|k: int|
                        0 <= k < all.len() && all[k] == Construct::JsonExists;
                    assert(rest[k - 1] == Construct::JsonExists);
                }
            },
            None => {},
        }
    }
}

// ---------------------------------------------------------------------------
// Rewrites for a dialect
// ---------------------------------------------------------------------------

/// The SQL with one construct made fit for the dialect, or nothing where the
/// construct has no safe translation. The JSON table functions, `without
/// rowid`, JSON containment and UUID generation never have one.
pub open spec fn construct_rewritten(
    sql: Seq<char>,
    construct: Construct,
    dialect: Dialect,
) -> Option<Seq<char>> {
    if dialect is Sqlite && construct is Ilike {
        Some(rewrite::rewritten(sql, Transform::Word { needle: "ilike", replacement: "like" }))
    } else if dialect is Sqlite && construct is NowFn {
        Some(rewrite::rewritten(sql, Transform::Now))
    } else if dialect is Sqlite && construct is Jsonb {
        Some(rewrite::rewritten(sql, Transform::Word { needle: "jsonb", replacement: "text" }))
    } else if dialect is Postgres && construct is Strict {
        Some(rewrite::rewritten(sql, Transform::Word { needle: "strict", replacement: "" }))
    } else if construct is JsonEach || construct is JsonTree || construct is WithoutRowId
        || construct is JsonContains || construct is JsonContained || construct is JsonExists
        || construct is GenRandomUuid || !construct.spec_supported_by(dialect) {
        None
    } else {
        Some(sql)
    }
}

/// The SQL with all its constructs made fit for the dialect, in order.
pub open spec fn rewritten_for(
    sql: Seq<char>,
    constructs: Seq<Construct>,
    dialect: Dialect,
) -> Option<Seq<char>>
    decreases constructs.len(),
{
    if constructs.len() == 0 {
        Some(sql)
    } else {
        match construct_rewritten(sql, constructs[0], dialect) {
            Some(next) => rewritten_for(next, constructs.drop_first(), dialect),
            None => None,
        }
    }
}

fn rewrite_construct(sql: &str, construct: Construct, dialect: Dialect) -> (r: Option<String>)
    ensures
        r is Some <==> construct_rewritten(sql@, construct, dialect) is Some,
        r is Some ==> r->Some_0@ == construct_rewritten(sql@, construct, dialect)->Some_0,
{
    proof {
        reveal_strlit("ilike");
        reveal_strlit("jsonb");
        reveal_strlit("strict");
    }
    match (dialect, construct) {
        (Dialect::Sqlite, Construct::Ilike) => Some(rewrite::replace_word(sql, "ilike", "like")),
        (Dialect::Sqlite, Construct::NowFn) => Some(rewrite::replace_now_function(sql)),
        (Dialect::Sqlite, Construct::Jsonb) => Some(rewrite::replace_word(sql, "jsonb", "text")),
        (Dialect::Postgres, Construct::Strict) => Some(rewrite::replace_word(sql, "strict", "")),
        (
            _,
            Construct::JsonEach
            | Construct::JsonTree
            | Construct::WithoutRowId
            | Construct::JsonContains
            | Construct::JsonContained
            | Construct::JsonExists
            | Construct::GenRandomUuid,
        ) => None,
        _ => if construct.supported_by(dialect) {
            Some(sql.to_string())
        } else {
            None
        },
    }
}

/// Apply only rewrites whose semantics are stable for the supported adapters.
/// Table-valued JSON functions, JSON containment, and UUID generation remain
/// explicit errors because a lexical substitution would silently change data.
pub fn rewrite_for_dialect(
    sql: &str,
    constructs: &[Construct],
    dialect: Dialect,
) -> (r: Option<String>)
    ensures
        r is Some <==> rewritten_for(sql@, constructs@, dialect) is Some,
        r is Some ==> r->Some_0@ == rewritten_for(sql@, constructs@, dialect)->Some_0,
{
    let mut current: String = sql.to_string();
    let mut i: usize = 0;
    assert(constructs@.skip(0) =~= constructs@);
    while i < constructs.len()
        invariant
            i <= constructs@.len(),
            rewritten_for(sql@, constructs@, dialect) == rewritten_for(
                current@,
                constructs@.skip(i as int),
                dialect,
            ),
        decreases constructs@.len() - i,
    {
        let ghost rest = constructs@.skip(i as int);
        assert(rest[0] == constructs@[i as int]);
        assert(rest.drop_first() =~= constructs@.skip(i + 1));
        match rewrite_construct(current.as_str(), constructs[i], dialect) {
            Some(next) => {
                current = next;
            },
            None => {
                return None;
            },
        }
        i = i + 1;
    }
    Some(current)
}

/// The native dialect of a datastore name.
pub open spec fn store_dialect(datastore: Seq<char>) -> Option<Dialect> {
    if datastore == "sqlite"@ {
        Some(Dialect::Sqlite)
    } else if datastore == "neon"@ || datastore == "postgres"@ || datastore == "postgresql"@
        || datastore == "pg"@ {
        Some(Dialect::Postgres)
    } else {
        None
    }
}

/// Map a datastore name to its native dialect.
pub fn dialect_of(datastore: &str) -> (r: Option<Dialect>)
    ensures
        r == store_dialect(datastore@),
{
    if text::str_eq(datastore, "sqlite") {
        Some(Dialect::Sqlite)
    } else if text::str_eq(datastore, "neon") || text::str_eq(datastore, "postgres")
        || text::str_eq(datastore, "postgresql") || text::str_eq(datastore, "pg") {
        Some(Dialect::Postgres)
    } else {
        None
    }
}

// ---------------------------------------------------------------------------
// The analyzer
// ---------------------------------------------------------------------------

/// The query as an adapter of the dialect may run it, or why it may not.
pub open spec fn prepared(
    query: Seq<char>,
    dialect: Dialect,
    allow_rewrites: bool,
) -> Result<Seq<char>, ErrorView> {
    let sql = lexer::without_directive(query);
    let constructs = constructs_of(sql);
    let store = lexer::directive_store(query);
    if store is Some && store_dialect(store->Some_0) != Some(dialect) {
        Err(
            ErrorView::Routing(
                "inline datastore \""@ + store->Some_0
                    + "\" does not match the active connection"@,
            ),
        )
    } else {
        match dialect::unsupported(constructs, dialect) {
            None => Ok(sql),
            Some(construct) => if !allow_rewrites {
                Err(ErrorView::Unsupported { construct })
            } else {
                match rewritten_for(sql, constructs, dialect) {
                    Some(rewritten) => Ok(rewritten),
                    None => Err(ErrorView::Unsupported { construct }),
                }
            },
        }
    }
}

/// A query whose constructs the dialect supports comes back as it is but for
/// its directive, whether rewrites are allowed or not.
pub proof fn lemma_supported_query_is_kept(query: Seq<char>, dialect: Dialect, allow: bool)
    requires
        lexer::directive_store(query) is None || store_dialect(
            lexer::directive_store(query)->Some_0,
        ) == Some(dialect),
        dialect::all_supported(constructs_of(lexer::without_directive(query)), dialect),
    ensures
        prepared(query, dialect, allow) == Ok::<Seq<char>, ErrorView>(
            lexer::without_directive(query),
        ),
        lexer::directive_store(query) is None ==> prepared(query, dialect, allow) == Ok::<
            Seq<char>,
            ErrorView,
        >(query),
{
    dialect::lemma_unsupported(constructs_of(lexer::without_directive(query)), dialect);
}

/// Without rewrites, what preparation lets through holds no construct that
/// the dialect lacks.
pub proof fn lemma_unrewritten_query_is_supported(query: Seq<char>, dialect: Dialect)
    requires
        prepared(query, dialect, false) is Ok,
    ensures
        dialect::all_supported(constructs_of(prepared(query, dialect, false)->Ok_0), dialect),
{
    dialect::lemma_unsupported(constructs_of(lexer::without_directive(query)), dialect);
}

/// A construct without a safe translation fails closed: a query that holds
/// one and any construct that the dialect lacks is refused.
pub proof fn lemma_unsafe_construct_is_refused(
    query: Seq<char>,
    dialect: Dialect,
    allow: bool,
    i: int,
)
    requires
        ({
            let constructs = constructs_of(lexer::without_directive(query));
            &&& 0 <= i < constructs.len()
            &&& !dialect::all_supported(constructs, dialect)
            &&& (constructs[i] is JsonEach || constructs[i] is JsonTree
                || constructs[i] is WithoutRowId || constructs[i] is JsonContains
                || constructs[i] is JsonContained || constructs[i] is GenRandomUuid)
        }),
    ensures
        prepared(query, dialect, allow) is Err,
{
    let sql = lexer::without_directive(query);
    let constructs = constructs_of(sql);
    dialect::lemma_unsupported(constructs, dialect);
    lemma_untranslatable(sql, constructs, dialect, i);
}

proof fn lemma_untranslatable(sql: Seq<char>, constructs: Seq<Construct>, dialect: Dialect, i: int)
    requires
        0 <= i < constructs.len(),
        constructs[i] is JsonEach || constructs[i] is JsonTree || constructs[i] is WithoutRowId
            || constructs[i] is JsonContains || constructs[i] is JsonContained
            || constructs[i] is GenRandomUuid,
    ensures
        rewritten_for(sql, constructs, dialect) is None,
    decreases constructs.len(),
{
    if i > 0 {
        match construct_rewritten(sql, constructs[0], dialect) {
            Some(next) => {
                lemma_untranslatable(next, constructs.drop_first(), dialect, i - 1);
            },
            None => {},
        }
    }
}

/// The analyzer. Cheap to construct; carries no state.
#[derive(Debug, Clone, Copy)]
pub struct QueryAnalyzer;

impl Default for QueryAnalyzer {
    fn default() -> (r: Self)
        ensures
            r == QueryAnalyzer,
    {
        QueryAnalyzer
    }
}

impl QueryAnalyzer {
    pub fn new() -> (r: Self)
        ensures
            r == QueryAnalyzer,
    {
        QueryAnalyzer
    }

    /// Lex a SQL string and produce an [`Analyzed`] value.
    pub fn analyze(&self, query: &str) -> (r: Analyzed)
        ensures
            r.constructs@ == constructs_of(lexer::without_directive(query@)),
            r.inline_override is Some <==> lexer::directive_store(query@) is Some,
            r.inline_override is Some ==> r.inline_override->Some_0@ == lexer::directive_store(
                query@,
            )->Some_0,
            r.rewrite is Identity <==> (r.constructs@.len() == 0 && r.inline_override is None),
            r.rewrite.applied(query@) == lexer::without_directive(query@),
    {
        let (inline_override, remainder) = strip_dactyl_directive(query);
        let tokens: Vec<Token> = tokenize(remainder.as_str());
        let constructs: Vec<Construct> = detect_constructs(tokens.as_slice());
        let rewrite = if constructs.len() == 0 && inline_override.is_none() {
            Rewrite::Identity
        } else {
            Rewrite::Replaced(remainder)
        };
        Analyzed { constructs, inline_override, rewrite }
    }

    /// Analyze and prepare SQL for one concrete adapter dialect.
    ///
    /// Inline directives are validated against the connection's selected
    /// dialect. Unsupported constructs are rejected by default. When
    /// `allow_rewrites` is true, only the small set of loss-bounded rewrites
    /// is applied; constructs with no safe translation still fail.
    pub fn prepare(
        &self,
        query: &str,
        dialect: Dialect,
        allow_rewrites: bool,
    ) -> (r: Result<String, DactylError>)
        ensures
            match prepared(query@, dialect, allow_rewrites) {
                Ok(sql) => r is Ok && r->Ok_0@ == sql,
                Err(e) => r is Err && r->Err_0@ == e,
            },
    {
        let analyzed: Analyzed = self.analyze(query);
        if let Some(store) = analyzed.inline_override {
            let agrees: bool = match dialect_of(store) {
                Some(own) => own == dialect,
                None => false,
            };
            if !agrees {
                return Err(
                    DactylError::Routing(
                        "inline datastore \"".to_string().concat(store).concat(
                            "\" does not match the active connection",
                        ),
                    ),
                );
            }
        }
        let unsupported: Option<Construct> = first_unsupported(
            analyzed.constructs.as_slice(),
            dialect,
        );
        let remainder: String = analyzed.rewrite.apply(query);
        let construct: Construct = match unsupported {
            Some(construct) => construct,
            None => {
                return Ok(remainder);
            },
        };
        if !allow_rewrites {
            return Err(DactylError::Unsupported { construct });
        }
        match rewrite_for_dialect(remainder.as_str(), analyzed.constructs.as_slice(), dialect) {
            Some(sql) => Ok(sql),
            None => Err(DactylError::Unsupported { construct }),
        }
    }
}

} // verus!
