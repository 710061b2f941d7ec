//! Driver configuration.

use vstd::prelude::*;

verus! {

/// Credentials and endpoints that an adapter needs to reach its datastore.
///
/// The fields are inert strings here; the adapter interprets them. Auth for
/// the Neon adapter is owned by the remote service: the token is opaque.
#[derive(Debug, Clone)]
pub enum DactylConfig {
    /// Boot a SQLite adapter against the given file path.
    Sqlite {
        /// Path to the SQLite file. Created if absent.
        path: String,
    },
    /// Boot a Neon (Postgres over HTTP) adapter.
    Neon {
        /// Endpoint URL.
        endpoint: String,
        /// Opaque bearer token forwarded on each request.
        bearer: Option<String>,
        /// Optional transport hint: `"http"` (default) or `"https"`.
        transport: Option<String>,
    },
}

impl DactylConfig {
    /// Convenience constructor for the SQLite adapter.
    pub fn sqlite<S: Into<String>>(path: S) -> (r: Self)
        ensures
            r matches DactylConfig::Sqlite { path: p } && call_ensures(
                <S as Into<String>>::into,
                (path,),
                p,
            ),
    {
        DactylConfig::Sqlite { path: path.into() }
    }

    /// Convenience constructor for the Neon adapter.
    pub fn neon<S: Into<String>>(
        endpoint: S,
        bearer: Option<String>,
        transport: Option<String>,
    ) -> (r: Self)
        ensures
            r matches DactylConfig::Neon { endpoint: e, bearer: b, transport: t } && call_ensures(
                <S as Into<String>>::into,
                (endpoint,),
                e,
            ) && b == bearer && t == transport,
    {
        DactylConfig::Neon { endpoint: endpoint.into(), bearer, transport }
    }

    /// Logical datastore name this config binds to.
    pub fn datastore(&self) -> (r: &'static str)
        ensures
            r@ == store_name(*self),
    {
        match self {
            DactylConfig::Sqlite { .. } => "sqlite",
            DactylConfig::Neon { .. } => "neon",
        }
    }
}

/// The name of the datastore that a configuration binds to.
pub open spec fn store_name(config: DactylConfig) -> Seq<char> {
    match config {
        DactylConfig::Sqlite { .. } => "sqlite"@,
        DactylConfig::Neon { .. } => "neon"@,
    }
}

/// A configuration binds to the datastore whose dialect its adapter speaks.
pub proof fn lemma_configured_stores(config: DactylConfig)
    ensures
        config is Sqlite ==> crate::query::store_dialect(store_name(config)) == Some(
            crate::query::Dialect::Sqlite,
        ),
        config is Neon ==> crate::query::store_dialect(store_name(config)) == Some(
            crate::query::Dialect::Postgres,
        ) && store_name(config) == "neon"@,
{
    reveal_strlit("sqlite");
    reveal_strlit("neon");
    assert("sqlite"@.len() == 6);
    assert("neon"@.len() == 4);
}

} // verus!
