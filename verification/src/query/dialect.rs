//! Dialect detection for the lexical analyzer.
//!
//! The analyzer recognizes an explicit list of constructs and treats anything
//! else as portable SQL. Unsafe constructs fail closed instead of being
//! guessed into a rewrite.

use vstd::prelude::*;

verus! {

/// SQL dialect an adapter speaks natively.
#[derive(Debug, Clone, Copy, PartialEq, Eq, Structural)]
pub enum Dialect {
    /// Constructs supported by both shipped SQL adapters.
    Portable,
    /// Local file-backed SQLite.
    Sqlite,
    /// Remote Postgres via Neon HTTP.
    Postgres,
}

/// A single dialect-specific construct the analyzer found in a query.
///
/// Anything not enumerated here is treated as portable SQL and never produces
/// a `Construct`.
#[derive(Debug, Clone, Copy, PartialEq, Eq, Hash, Structural)]
pub enum Construct {
    JsonEach,
    JsonTree,
    WithoutRowId,
    Strict,
    JsonArrowText,
    JsonArrow,
    JsonContains,
    JsonContained,
    JsonExists,
    Jsonb,
    Returning,
    Ilike,
    GenRandomUuid,
    NowFn,
}

impl Construct {
    /// The lexeme of a construct.
    pub open spec fn spec_lexeme(self) -> Seq<char> {
        match self {
            Construct::JsonEach => "json_each"@,
            Construct::JsonTree => "json_tree"@,
            Construct::WithoutRowId => "without rowid"@,
            Construct::Strict => "strict"@,
            Construct::JsonArrowText => "->>"@,
            Construct::JsonArrow => "->"@,
            Construct::JsonContains => "@>"@,
            Construct::JsonContained => "<@"@,
            Construct::JsonExists => "?"@,
            Construct::Jsonb => "jsonb"@,
            Construct::Returning => "returning"@,
            Construct::Ilike => "ilike"@,
            Construct::GenRandomUuid => "gen_random_uuid"@,
            Construct::NowFn => "now"@,
        }
    }

    /// The dialect of a construct: the JSON table functions and the two table
    /// options are SQLite's, the JSON arrows and `returning` are shared, the
    /// rest is Postgres's.
    pub open spec fn spec_dialect(self) -> Dialect {
        if self is JsonEach || self is JsonTree || self is WithoutRowId || self is Strict {
            Dialect::Sqlite
        } else if self is JsonArrowText || self is JsonArrow || self is Returning {
            Dialect::Portable
        } else {
            Dialect::Postgres
        }
    }

    /// Whether a dialect supports a construct.
    pub open spec fn spec_supported_by(self, dialect: Dialect) -> bool {
        self.spec_dialect() == Dialect::Portable || self.spec_dialect() == dialect
    }

    /// Return the lexeme that triggered detection.
    pub fn lexeme(self) -> (r: &'static str)
        ensures
            r@ == self.spec_lexeme(),
    {
        match self {
            Construct::JsonEach => "json_each",
            Construct::JsonTree => "json_tree",
            Construct::WithoutRowId => "without rowid",
            Construct::Strict => "strict",
            Construct::JsonArrowText => "->>",
            Construct::JsonArrow => "->",
            Construct::JsonContains => "@>",
            Construct::JsonContained => "<@",
            Construct::JsonExists => "?",
            Construct::Jsonb => "jsonb",
            Construct::Returning => "returning",
            Construct::Ilike => "ilike",
            Construct::GenRandomUuid => "gen_random_uuid",
            Construct::NowFn => "now",
        }
    }

    /// The dialect this construct belongs to.
    pub fn dialect(self) -> (r: Dialect)
        ensures
            r == self.spec_dialect(),
    {
        match self {
            Construct::JsonEach
            | Construct::JsonTree
            | Construct::WithoutRowId
            | Construct::Strict => Dialect::Sqlite,
            Construct::JsonArrowText | Construct::JsonArrow | Construct::Returning => {
                Dialect::Portable
            },
            _ => Dialect::Postgres,
        }
    }

    /// Whether the dialect natively supports this construct.
    pub fn supported_by(self, dialect: Dialect) -> (r: bool)
        ensures
            r == self.spec_supported_by(dialect),
    {
        self.dialect() == Dialect::Portable || self.dialect() == dialect
    }
}

/// Whether every construct of the list is supported by the dialect.
pub open spec fn all_supported(constructs: Seq<Construct>, dialect: Dialect) -> bool {
    forall|i: int| 0 <= i < constructs.len() ==> (#[trigger] constructs[i]).spec_supported_by(dialect)
}

/// Whether `i` is the first position whose construct the dialect lacks.
pub open spec fn is_first_unsupported(
    constructs: Seq<Construct>,
    dialect: Dialect,
    i: int,
) -> bool {
    &&& 0 <= i < constructs.len()
    &&& !constructs[i].spec_supported_by(dialect)
    &&& all_supported(constructs.take(i), dialect)
}

/// The first construct that the dialect lacks.
pub open spec fn unsupported(constructs: Seq<Construct>, dialect: Dialect) -> Option<Construct>
    decreases constructs.len(),
{
    if constructs.len() == 0 {
        None
    } else if !constructs[0].spec_supported_by(dialect) {
        Some(constructs[0])
    } else {
        unsupported(constructs.drop_first(), dialect)
    }
}

/// No construct is unsupported exactly where all are supported; otherwise the
/// one named is in the list and unsupported.
pub proof fn lemma_unsupported(constructs: Seq<Construct>, dialect: Dialect)
    ensures
        unsupported(constructs, dialect) is None <==> all_supported(constructs, dialect),
        unsupported(constructs, dialect) is Some ==> exists|i: int|
            #[trigger] is_first_unsupported(constructs, dialect, i) && constructs[i]
                == unsupported(constructs, dialect)->Some_0,
    decreases constructs.len(),
{
    if constructs.len() > 0 {
        if constructs[0].spec_supported_by(dialect) {
            let rest = constructs.drop_first();
            lemma_unsupported(rest, dialect);
            if unsupported(rest, dialect) is Some {
                let k = choose|k: int|
                    #[trigger] is_first_unsupported(rest, dialect, k) && rest[k] == unsupported(
                        rest,
                        dialect,
                    )->Some_0;
                assert forall|j: int| 0 <= j < k + 1 implies (#[trigger] constructs.take(
                    k + 1,
                )[j]).spec_supported_by(dialect) by {
                    if j > 0 {
                        assert(constructs.take(k + 1)[j] == rest.take(k)[j - 1]);
                    }
                }
                assert(constructs[k + 1] == rest[k]);
                assert(is_first_unsupported(constructs, dialect, k + 1));
            } else {
                assert forall|j: int| 0 <= j < constructs.len() implies (
                #[trigger] constructs[j]).spec_supported_by(dialect) by {
                    if j > 0 {
                        assert(constructs[j] == rest[j - 1]);
                    }
                }
            }
        } else {
            assert(is_first_unsupported(constructs, dialect, 0));
        }
    }
}

/// Decide whether the construct list is portable enough for the active
/// dialect.
///
/// Returns the first unsupported construct, or `None` if every construct is
/// supported (or the list is empty).
pub fn first_unsupported(constructs: &[Construct], dialect: Dialect) -> (r: Option<Construct>)
    ensures
        r == unsupported(constructs@, dialect),
        r is None <==> all_supported(constructs@, dialect),
        r is Some ==> exists|i: int|
            #[trigger] is_first_unsupported(constructs@, dialect, i) && constructs@[i]
                == r->Some_0,
{
    let mut i: usize = 0;
    assert(constructs@.skip(0) =~= constructs@);
    while i < constructs.len()
        invariant
            i <= constructs@.len(),
            unsupported(constructs@, dialect) == unsupported(constructs@.skip(i as int), dialect),
        decreases constructs@.len() - i,
    {
        assert(constructs@.skip(i as int)[0] == constructs@[i as int]);
        assert(constructs@.skip(i as int).drop_first() =~= constructs@.skip(i + 1));
        if !constructs[i].supported_by(dialect) {
            proof {
                lemma_unsupported(constructs@, dialect);
            }
            return Some(constructs[i]);
        }
        i = i + 1;
    }
    proof {
        lemma_unsupported(constructs@, dialect);
    }
    None
}

} // verus!
