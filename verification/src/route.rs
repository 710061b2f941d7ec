//! Datastore routes and their selection from the environment.

use vstd::prelude::*;

use crate::error::{DactylError, ErrorView};
use crate::text;

verus! {

/// `<String as From<&str>>::from` copies the text.
pub assume_specification<'_0>[ <std::string::String as std::convert::From<&'_0 str>>::from ](
    s: &str,
) -> (r: std::string::String)
    ensures
        r@ == s@,
;

/// A supported application datastore.
#[derive(Debug, Clone, Copy, PartialEq, Eq, Structural)]
pub enum Datastore {
    Sqlite,
    Neon,
}

/// The route needed to send an application read or write.
#[derive(Debug, Clone, PartialEq, Eq)]
pub struct DatastoreRoute {
    datastore: Datastore,
    route: String,
    token: Option<String>,
}

/// What a [`DatastoreRoute`] says.
#[verifier::ext_equal]
pub ghost struct RouteView {
    pub datastore: Datastore,
    pub route: Seq<char>,
    pub token: Option<Seq<char>>,
}

/// The text of an optional string slice.
pub open spec fn str_option(s: Option<&str>) -> Option<Seq<char>> {
    match s {
        Some(s) => Some(s@),
        None => None,
    }
}

/// The route that environment values select, or why they select none.
///
/// The selector alone chooses the backend; there is no fallback. A token is
/// kept for Neon only, and a blank one counts as none.
pub open spec fn selected_route(
    datastore: Option<Seq<char>>,
    route: Option<Seq<char>>,
    token: Option<Seq<char>>,
) -> Result<RouteView, ErrorView> {
    if datastore is None {
        Err(ErrorView::Config("DATASTORE is not set: use sqlite or neon"@))
    } else if route is None {
        Err(ErrorView::Config("DATASTORE_ROUTE is not set"@))
    } else if text::is_blank(route->Some_0) {
        Err(ErrorView::Config("DATASTORE_ROUTE must not be empty"@))
    } else if datastore->Some_0 == "sqlite"@ {
        Ok(RouteView { datastore: Datastore::Sqlite, route: route->Some_0, token: None })
    } else if datastore->Some_0 == "neon"@ {
        Ok(
            RouteView {
                datastore: Datastore::Neon,
                route: route->Some_0,
                token: if token is Some && !text::is_blank(token->Some_0) {
                    token
                } else {
                    None
                },
            },
        )
    } else {
        Err(
            ErrorView::Config(
                "invalid DATASTORE value "@ + text::debug_form(datastore->Some_0)
                    + ": use sqlite or neon"@,
            ),
        )
    }
}

impl DatastoreRoute {
    pub closed spec fn view(self) -> RouteView {
        RouteView {
            datastore: self.datastore,
            route: self.route@,
            token: crate::error::text_option(self.token),
        }
    }

    /// The route's target, as it was given.
    pub closed spec fn target(self) -> String {
        self.route
    }

    pub fn sqlite<S: Into<String>>(path: S) -> (r: Self)
        ensures
            call_ensures(<S as Into<String>>::into, (path,), r.target()),
            r@ == (RouteView {
                datastore: Datastore::Sqlite,
                route: r.target()@,
                token: None,
            }),
    {
        DatastoreRoute { datastore: Datastore::Sqlite, route: path.into(), token: None }
    }

    pub fn neon<S: Into<String>>(endpoint: S, token: Option<String>) -> (r: Self)
        ensures
            call_ensures(<S as Into<String>>::into, (endpoint,), r.target()),
            r@ == (RouteView {
                datastore: Datastore::Neon,
                route: r.target()@,
                token: crate::error::text_option(token),
            }),
    {
        DatastoreRoute { datastore: Datastore::Neon, route: endpoint.into(), token }
    }

    pub fn datastore(&self) -> (r: Datastore)
        ensures
            r == self@.datastore,
    {
        self.datastore
    }

    pub fn route(&self) -> (r: &str)
        ensures
            r@ == self@.route,
    {
        self.route.as_str()
    }

    pub fn token(&self) -> (r: Option<&str>)
        ensures
            str_option(r) == self@.token,
    {
        match &self.token {
            Some(token) => Some(token.as_str()),
            None => None,
        }
    }

    /// Resolve the ambient route configuration from the values of the
    /// selector, the route and the token.
    ///
    /// The selector is required, the route is required for the selected
    /// backend, and the token is read only for Neon. There is deliberately no
    /// implicit local fallback.
    pub fn from_env_values(
        datastore: Option<&str>,
        route: Option<&str>,
        token: Option<&str>,
    ) -> (r: Result<Self, DactylError>)
        ensures
            match selected_route(str_option(datastore), str_option(route), str_option(token)) {
                Ok(v) => r is Ok && r->Ok_0@ == v,
                Err(e) => r is Err && r->Err_0@ == e,
            },
    {
        let datastore: &str = match datastore {
            Some(datastore) => datastore,
            None => {
                return Err(
                    DactylError::Config("DATASTORE is not set: use sqlite or neon".to_string()),
                );
            },
        };
        let route: &str = match route {
            Some(route) => route,
            None => {
                return Err(DactylError::Config("DATASTORE_ROUTE is not set".to_string()));
            },
        };
        if text::blank(route) {
            return Err(DactylError::Config("DATASTORE_ROUTE must not be empty".to_string()));
        }
        if text::str_eq(datastore, "sqlite") {
            Ok(Self::sqlite(route))
        } else if text::str_eq(datastore, "neon") {
            let kept: Option<String> = match token {
                Some(token) => if text::blank(token) {
                    None
                } else {
                    Some(token.to_string())
                },
                None => None,
            };
            Ok(Self::neon(route, kept))
        } else {
            Err(
                DactylError::Config(
                    "invalid DATASTORE value ".to_string().concat(
                        text::debug_text(datastore).as_str(),
                    ).concat(": use sqlite or neon"),
                ),
            )
        }
    }
}

/// A selected SQLite route never carries a token, and no token changes which
/// backend or route is selected.
pub proof fn lemma_token_is_neon_only(
    datastore: Option<Seq<char>>,
    route: Option<Seq<char>>,
    token: Option<Seq<char>>,
)
    ensures
        match selected_route(datastore, route, token) {
            Ok(v) => {
                &&& v.datastore is Sqlite ==> v.token is None
                &&& v.token is Some ==> v.token == token && !text::is_blank(token->Some_0)
                &&& selected_route(datastore, route, None) is Ok
                &&& selected_route(datastore, route, None)->Ok_0.datastore == v.datastore
                &&& selected_route(datastore, route, None)->Ok_0.route == v.route
            },
            Err(e) => selected_route(datastore, route, None) == Err::<RouteView, ErrorView>(e),
        },
{
}

/// A missing selector, a missing route or a blank route selects nothing.
pub proof fn lemma_no_implicit_route(
    datastore: Option<Seq<char>>,
    route: Option<Seq<char>>,
    token: Option<Seq<char>>,
)
    requires
        datastore is None || route is None || text::is_blank(route->Some_0) || (datastore->Some_0
            != "sqlite"@ && datastore->Some_0 != "neon"@),
    ensures
        selected_route(datastore, route, token) is Err,
        selected_route(datastore, route, token)->Err_0 is Config,
{
}


/// What the environment selects, name by name: `sqlite` a local store and
/// `neon` a remote one, at the route as it is given. A token that is not blank
/// is kept for Neon, as it is.
pub proof fn lemma_routes_by_name(
    datastore: Seq<char>,
    route: Seq<char>,
    token: Option<Seq<char>>,
)
    requires
        exists|i: int| 0 <= i < route.len() && !text::is_space(#[trigger] route[i]),
    ensures
        datastore == "sqlite"@ ==> selected_route(Some(datastore), Some(route), token) == Ok::<
            RouteView,
            ErrorView,
        >(RouteView { datastore: Datastore::Sqlite, route, token: None }),
        datastore == "neon"@ ==> {
            let r = selected_route(Some(datastore), Some(route), token);
            &&& r is Ok
            &&& r->Ok_0.datastore == Datastore::Neon
            &&& r->Ok_0.route == route
            &&& (token is Some && exists|i: int|
                0 <= i < token->Some_0.len() && !text::is_space(#[trigger] token->Some_0[i]))
                ==> r->Ok_0.token == token
            &&& (token is None || forall|i: int|
                0 <= i < token->Some_0.len() ==> text::is_space(#[trigger] token->Some_0[i]))
                ==> r->Ok_0.token is None
        },
        datastore != "sqlite"@ && datastore != "neon"@ ==> selected_route(
            Some(datastore),
            Some(route),
            token,
        ) is Err,
{
    reveal_strlit("sqlite");
    reveal_strlit("neon");
    assert("sqlite"@.len() == 6 && "neon"@.len() == 4);
}

} // verus!
