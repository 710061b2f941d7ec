//! Public-but-internal surface used by the `query!` macro.

use vstd::prelude::*;

use crate::query::lexer;
use crate::query::{Analyzed, Construct, QueryAnalyzer};

verus! {

/// Result of running the analyzer at runtime (or at compile time, depending
/// on the call site).
pub struct RuntimeHit {
    /// SQL the analyzer says to execute (after any rewrite).
    pub sql: String,
    /// Constructs the analyzer found.
    pub constructs: Vec<Construct>,
}

/// Run the analyzer on `query` and return the SQL to execute plus the
/// construct list.
pub fn analyze(query: &str) -> (r: RuntimeHit)
    ensures
        r.sql@ == lexer::without_directive(query@),
        r.constructs@ == crate::query::constructs_of(lexer::without_directive(query@)),
{
    let analyzed: Analyzed = QueryAnalyzer::new().analyze(query);
    let sql: String = analyzed.rewrite.apply(query);
    RuntimeHit { sql, constructs: analyzed.constructs }
}

} // verus!
