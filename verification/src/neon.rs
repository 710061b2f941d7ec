//! SQL over HTTP for Neon: what is sent, and what a reply means.

use vstd::prelude::*;

use crate::adapter;
use crate::contract;
use crate::contract::{
    AccessMode, AtomicResult, ContextView, GeneratedKey, KeyView, OpenOptions, Operation,
    OperationKind, OperationResult, OperationView, ResultView, StorageContext, WriteResult,
    WriteView,
};
use crate::error::{AdapterErrorKind, DactylError, ErrorView};
use crate::parameter;
use crate::parameter::{Parameter, ParameterView};
use crate::rows;
use crate::rows::{Row, RowView, Rows};
use crate::text;
use crate::value::{Number, Value, ValueView};

verus! {

// ---------------------------------------------------------------------------
// The route
// ---------------------------------------------------------------------------

/// A route to a remote service.
pub struct NeonAdapter {
    endpoint: String,
    bearer: Option<String>,
    access_mode: AccessMode,
    context: Option<StorageContext>,
}

/// What a [`NeonAdapter`] says.
#[verifier::ext_equal]
pub ghost struct NeonView {
    pub endpoint: Seq<char>,
    pub bearer: Option<Seq<char>>,
    pub access_mode: AccessMode,
    pub context: Option<ContextView>,
}

/// A text without the slashes it ends in.
pub open spec fn without_slashes(s: Seq<char>) -> Seq<char>
    decreases s.len(),
{
    if s.len() > 0 && s.last() == '/' {
        without_slashes(s.drop_last())
    } else {
        s
    }
}

fn trim_slashes(s: &str) -> (r: String)
    ensures
        r@ == without_slashes(s@),
{
    let all: Vec<char> = text::chars_of(s);
    let mut end: usize = all.len();
    assert(s@.take(end as int) =~= s@);
    while end > 0 && all[end - 1] == '/'
        invariant
            all@ == s@,
            end <= all@.len(),
            without_slashes(s@.take(end as int)) == without_slashes(s@),
        decreases end,
    {
        assert(s@.take(end as int).drop_last() =~= s@.take(end - 1));
        assert(s@.take(end as int).last() == all@[end - 1]);
        end = end - 1;
    }
    proof {
        if end > 0 {
            assert(s@.take(end as int).last() == all@[end - 1]);
        }
    }
    let mut out: String = String::new();
    let mut i: usize = 0;
    assert(out@ =~= s@.take(0));
    while i < end
        invariant
            all@ == s@,
            i <= end <= all@.len(),
            out@ == s@.take(i as int),
        decreases end - i,
    {
        out.push(all[i]);
        assert(out@ =~= s@.take(i + 1));
        i = i + 1;
    }
    out
}

/// What a context says, if there is one.
pub open spec fn context_option(context: Option<StorageContext>) -> Option<ContextView> {
    match context {
        Some(c) => Some(c@),
        None => None,
    }
}

/// Why a request is not sent, if it is not: each needs a valid context.
pub open spec fn context_fault(context: Option<ContextView>) -> Option<ErrorView> {
    match context {
        None => Some(
            crate::error::coded(
                AdapterErrorKind::Authentication,
                "authentication_required"@,
                "neon requests require an authenticated storage context"@,
            ),
        ),
        Some(c) => c.fault(),
    }
}

// ---------------------------------------------------------------------------
// What is sent
// ---------------------------------------------------------------------------

/// A request to the service.
pub struct NeonRequest {
    /// Where it is posted to.
    pub url: String,
    /// The bearer token that it carries.
    pub bearer: Option<String>,
    /// The JSON body.
    pub body: Value,
}

/// What a [`NeonRequest`] says.
#[verifier::ext_equal]
pub ghost struct RequestView {
    pub url: Seq<char>,
    pub bearer: Option<Seq<char>>,
    pub body: ValueView,
}

impl NeonRequest {
    pub open spec fn view(self) -> RequestView {
        RequestView {
            url: self.url@,
            bearer: crate::error::text_option(self.bearer),
            body: self.body@,
        }
    }
}

/// The name of an access mode on the wire.
pub open spec fn mode_name(mode: AccessMode) -> Seq<char> {
    match mode {
        AccessMode::ReadWrite => "read_write"@,
        AccessMode::ReadOnly => "read_only"@,
    }
}

/// The name of an operation's kind on the wire.
pub open spec fn kind_name(kind: OperationKind) -> Seq<char> {
    match kind {
        OperationKind::Read => "read"@,
        OperationKind::Write => "write"@,
        OperationKind::Schema => "schema"@,
    }
}

/// A context on the wire: the envelope, with the payload untouched.
pub open spec fn context_json(context: ContextView) -> ValueView {
    ValueView::Object(
        seq![
            ("version"@, ValueView::Number(Number::PosInt(context.version as u64))),
            ("payload"@, context.payload),
        ],
    )
}

/// Parameters on the wire.
pub open spec fn params_json(params: Seq<ParameterView>) -> ValueView {
    ValueView::Array(params.map_values(|p: ParameterView| p.json()))
}

/// An operation on the wire.
pub open spec fn operation_json(operation: OperationView) -> ValueView {
    ValueView::Object(
        seq![
            ("kind"@, ValueView::Text(kind_name(operation.kind))),
            ("sql"@, ValueView::Text(operation.sql)),
            ("params"@, params_json(operation.params)),
        ],
    )
}

/// The body of a request for one statement.
pub open spec fn query_json(
    sql: Seq<char>,
    params: Seq<ParameterView>,
    mode: AccessMode,
    context: ContextView,
) -> ValueView {
    ValueView::Object(
        seq![
            ("sql"@, ValueView::Text(sql)),
            ("params"@, params_json(params)),
            ("access_mode"@, ValueView::Text(mode_name(mode))),
            ("context"@, context_json(context)),
        ],
    )
}

/// The body of a request for a batch.
pub open spec fn batch_json(
    operations: Seq<OperationView>,
    mode: AccessMode,
    context: ContextView,
) -> ValueView {
    ValueView::Object(
        seq![
            ("access_mode"@, ValueView::Text(mode_name(mode))),
            (
                "operations"@,
                ValueView::Array(operations.map_values(|o: OperationView| operation_json(o))),
            ),
            ("context"@, context_json(context)),
        ],
    )
}

fn object_of(members: Vec<(String, Value)>) -> (r: Value)
    ensures
        r@ == ValueView::Object(members@.map_values(|m: (String, Value)| (m.0@, m.1@))),
{
    let r: Value = Value::Object(members);
    assert(r@->Object_0 =~= members@.map_values(|m: (String, Value)| (m.0@, m.1@)));
    r
}

fn array_of(items: Vec<Value>) -> (r: Value)
    ensures
        r@ == ValueView::Array(crate::value::value_views(items@)),
{
    let r: Value = Value::Array(items);
    assert(r@->Array_0 =~= crate::value::value_views(items@));
    r
}

fn mode_value(mode: AccessMode) -> (r: Value)
    ensures
        r@ == ValueView::Text(mode_name(mode)),
{
    match mode {
        AccessMode::ReadWrite => Value::Text("read_write".to_string()),
        AccessMode::ReadOnly => Value::Text("read_only".to_string()),
    }
}

fn kind_value(kind: OperationKind) -> (r: Value)
    ensures
        r@ == ValueView::Text(kind_name(kind)),
{
    match kind {
        OperationKind::Read => Value::Text("read".to_string()),
        OperationKind::Write => Value::Text("write".to_string()),
        OperationKind::Schema => Value::Text("schema".to_string()),
    }
}

fn context_value(context: &StorageContext) -> (r: Value)
    ensures
        r@ == context_json(context@),
{
    let members: Vec<(String, Value)> = vec![
        ("version".to_string(), Value::Number(Number::PosInt(context.version() as u64))),
        ("payload".to_string(), context.payload().duplicate()),
    ];
    assert(members@.map_values(|m: (String, Value)| (m.0@, m.1@))
        =~= context_json(context@)->Object_0);
    object_of(members)
}

fn params_value(params: &[Parameter]) -> (r: Value)
    ensures
        r@ == params_json(parameter::parameter_views(params@)),
{
    let mut items: Vec<Value> = Vec::new();
    let mut i: usize = 0;
    while i < params.len()
        invariant
            i <= params@.len(),
            items@.len() == i,
            forall|k: int| 0 <= k < i ==> (#[trigger] items@[k])@ == params@[k]@.json(),
        decreases params@.len() - i,
    {
        items.push(params[i].to_value());
        i = i + 1;
    }
    assert(crate::value::value_views(items@) =~= parameter::parameter_views(params@).map_values(
        |p: ParameterView| p.json(),
    ));
    array_of(items)
}

fn operation_value(operation: &Operation) -> (r: Value)
    ensures
        r@ == operation_json(operation@),
{
    let members: Vec<(String, Value)> = vec![
        ("kind".to_string(), kind_value(operation.kind())),
        ("sql".to_string(), Value::Text(operation.sql().to_string())),
        ("params".to_string(), params_value(operation.params())),
    ];
    assert(members@.map_values(|m: (String, Value)| (m.0@, m.1@))
        =~= operation_json(operation@)->Object_0);
    object_of(members)
}

fn operations_value(operations: &[Operation]) -> (r: Value)
    ensures
        r@ == ValueView::Array(
            contract::operation_views(operations@).map_values(
                |o: OperationView| operation_json(o),
            ),
        ),
{
    let mut items: Vec<Value> = Vec::new();
    let mut i: usize = 0;
    while i < operations.len()
        invariant
            i <= operations@.len(),
            items@.len() == i,
            forall|k: int| 0 <= k < i ==> (#[trigger] items@[k])@ == operation_json(
                operations@[k]@,
            ),
        decreases operations@.len() - i,
    {
        items.push(operation_value(&operations[i]));
        i = i + 1;
    }
    assert(crate::value::value_views(items@) =~= contract::operation_views(
        operations@,
    ).map_values(|o: OperationView| operation_json(o)));
    array_of(items)
}

/// The request for one statement, or why it is not sent.
pub open spec fn query_request(route: NeonView, sql: Seq<char>, params: Seq<ParameterView>) -> Result<
    RequestView,
    ErrorView,
> {
    match context_fault(route.context) {
        Some(e) => Err(e),
        None => Ok(
            RequestView {
                url: route.endpoint + "/query"@,
                bearer: route.bearer,
                body: query_json(sql, params, route.access_mode, route.context->Some_0),
            },
        ),
    }
}

/// The request for one statement that may change the store, or why it is not
/// sent.
pub open spec fn write_request(route: NeonView, sql: Seq<char>, params: Seq<ParameterView>) -> Result<
    RequestView,
    ErrorView,
> {
    if route.access_mode is ReadOnly {
        Err(adapter::read_only())
    } else {
        query_request(route, sql, params)
    }
}

/// The request for a batch, or why it is not sent; none where the batch is
/// empty.
pub open spec fn batch_request(route: NeonView, operations: Seq<OperationView>) -> Result<
    Option<RequestView>,
    ErrorView,
> {
    match adapter::batch_start(operations, route.access_mode) {
        Err(e) => Err(e),
        Ok(start) => if start is Nothing {
            Ok(None)
        } else {
            match context_fault(route.context) {
                Some(e) => Err(e),
                None => Ok(
                    Some(
                        RequestView {
                            url: route.endpoint + "/batch"@,
                            bearer: route.bearer,
                            body: batch_json(
                                operations,
                                route.access_mode,
                                route.context->Some_0,
                            ),
                        },
                    ),
                ),
            }
        },
    }
}

impl NeonAdapter {
    pub closed spec fn view(self) -> NeonView {
        NeonView {
            endpoint: self.endpoint@,
            bearer: crate::error::text_option(self.bearer),
            access_mode: self.access_mode,
            context: context_option(self.context),
        }
    }

    /// A route without a context.
    pub fn new(endpoint: &str, bearer: Option<String>) -> (r: Self)
        ensures
            r@ == (NeonView {
                endpoint: without_slashes(endpoint@),
                bearer: crate::error::text_option(bearer),
                access_mode: AccessMode::ReadWrite,
                context: None,
            }),
    {
        Self::new_with_options(
            endpoint,
            bearer,
            OpenOptions { access_mode: AccessMode::ReadWrite, lock_timeout_millis: 250 },
            None,
        )
    }

    /// A route with options and, where requests are to be sent, a context.
    pub fn new_with_options(
        endpoint: &str,
        bearer: Option<String>,
        options: OpenOptions,
        context: Option<StorageContext>,
    ) -> (r: Self)
        ensures
            r@ == (NeonView {
                endpoint: without_slashes(endpoint@),
                bearer: crate::error::text_option(bearer),
                access_mode: options.access_mode,
                context: context_option(context),
            }),
    {
        NeonAdapter {
            endpoint: trim_slashes(endpoint),
            bearer,
            access_mode: options.access_mode,
            context,
        }
    }

    /// Whether the route may mutate durable state.
    pub fn access_mode(&self) -> (r: AccessMode)
        ensures
            r == self@.access_mode,
    {
        self.access_mode
    }

    /// The context that requests carry, or why none may be sent.
    pub fn context(&self) -> (r: Result<&StorageContext, DactylError>)
        ensures
            match context_fault(self@.context) {
                Some(e) => r is Err && r->Err_0@ == e,
                None => r is Ok && Some(r->Ok_0@) == self@.context,
            },
    {
        match &self.context {
            None => Err(
                DactylError::adapter_with_code(
                    AdapterErrorKind::Authentication,
                    "authentication_required",
                    "neon requests require an authenticated storage context",
                ),
            ),
            Some(context) => match context.validate() {
                Ok(()) => Ok(context),
                Err(e) => Err(e),
            },
        }
    }

    /// The request for one statement.
    pub fn request(&self, sql: &str, params: &[Parameter]) -> (r: Result<NeonRequest, DactylError>)
        ensures
            match query_request(self@, sql@, parameter::parameter_views(params@)) {
                Ok(request) => r is Ok && r->Ok_0@ == request,
                Err(e) => r is Err && r->Err_0@ == e,
            },
    {
        let context: &StorageContext = match self.context() {
            Ok(context) => context,
            Err(e) => {
                return Err(e);
            },
        };
        let members: Vec<(String, Value)> = vec![
            ("sql".to_string(), Value::Text(sql.to_string())),
            ("params".to_string(), params_value(params)),
            ("access_mode".to_string(), mode_value(self.access_mode)),
            ("context".to_string(), context_value(context)),
        ];
        assert(members@.map_values(|m: (String, Value)| (m.0@, m.1@)) =~= query_json(
            sql@,
            parameter::parameter_views(params@),
            self@.access_mode,
            context@,
        )->Object_0);
        Ok(
            NeonRequest {
                url: self.endpoint.clone().concat("/query"),
                bearer: self.bearer.clone(),
                body: object_of(members),
            },
        )
    }

    /// The request for one statement that may change the store.
    pub fn request_write(&self, sql: &str, params: &[Parameter]) -> (r: Result<
        NeonRequest,
        DactylError,
    >)
        ensures
            match write_request(self@, sql@, parameter::parameter_views(params@)) {
                Ok(request) => r is Ok && r->Ok_0@ == request,
                Err(e) => r is Err && r->Err_0@ == e,
            },
    {
        match adapter::ensure_writable(self.access_mode) {
            Ok(()) => self.request(sql, params),
            Err(e) => Err(e),
        }
    }

    /// The request for a batch; none where the batch is empty.
    pub fn request_batch(&self, operations: &[Operation]) -> (r: Result<
        Option<NeonRequest>,
        DactylError,
    >)
        ensures
            match batch_request(self@, contract::operation_views(operations@)) {
                Ok(Some(request)) => r is Ok && r->Ok_0 is Some && r->Ok_0->Some_0@ == request,
                Ok(None) => r is Ok && r->Ok_0 is None,
                Err(e) => r is Err && r->Err_0@ == e,
            },
    {
        match adapter::begin_batch(operations, self.access_mode) {
            Ok(start) => {
                if start == adapter::BatchStart::Nothing {
                    return Ok(None);
                }
            },
            Err(e) => {
                return Err(e);
            },
        }
        let context: &StorageContext = match self.context() {
            Ok(context) => context,
            Err(e) => {
                return Err(e);
            },
        };
        let members: Vec<(String, Value)> = vec![
            ("access_mode".to_string(), mode_value(self.access_mode)),
            ("operations".to_string(), operations_value(operations)),
            ("context".to_string(), context_value(context)),
        ];
        assert(members@.map_values(|m: (String, Value)| (m.0@, m.1@)) =~= batch_json(
            contract::operation_views(operations@),
            self@.access_mode,
            context@,
        )->Object_0);
        Ok(
            Some(
                NeonRequest {
                    url: self.endpoint.clone().concat("/batch"),
                    bearer: self.bearer.clone(),
                    body: object_of(members),
                },
            ),
        )
    }
}

/// Requests fail closed: without a context that is valid none is sent, and the
/// error says that a context is missing or invalid.
pub proof fn lemma_requests_fail_closed(
    route: NeonView,
    sql: Seq<char>,
    params: Seq<ParameterView>,
    operations: Seq<OperationView>,
)
    requires
        context_fault(route.context) is Some,
    ensures
        query_request(route, sql, params) is Err,
        write_request(route, sql, params) is Err,
        batch_request(route, operations) is Err || batch_request(route, operations) == Ok::<
            Option<RequestView>,
            ErrorView,
        >(None),
        context_fault(route.context)->Some_0.code() == Some("authentication_required"@)
            || context_fault(route.context)->Some_0.code() == Some("invalid_context"@),
{
}

/// The context goes out as the caller gave it.
pub proof fn lemma_context_is_forwarded_unchanged(
    route: NeonView,
    sql: Seq<char>,
    params: Seq<ParameterView>,
)
    requires
        query_request(route, sql, params) is Ok,
    ensures
        route.context is Some,
        query_request(route, sql, params)->Ok_0.body->Object_0.last() == (
            "context"@,
            context_json(route.context->Some_0),
        ),
        context_json(route.context->Some_0)->Object_0.last() == (
            "payload"@,
            route.context->Some_0.payload,
        ),
{
}

// ---------------------------------------------------------------------------
// What a reply means
// ---------------------------------------------------------------------------

/// The reply to one statement.
pub struct Response {
    pub columns: Vec<String>,
    pub rows: Vec<Value>,
    pub affected_rows: Option<u64>,
    pub generated_keys: Vec<GeneratedKey>,
}

/// What a [`Response`] says.
#[verifier::ext_equal]
pub ghost struct ResponseView {
    pub columns: Seq<Seq<char>>,
    pub rows: Seq<ValueView>,
    pub affected_rows: Option<u64>,
    pub generated_keys: Seq<KeyView>,
}

impl Response {
    pub open spec fn view(self) -> ResponseView {
        ResponseView {
            columns: rows::texts(self.columns@),
            rows: crate::value::value_views(self.rows@),
            affected_rows: self.affected_rows,
            generated_keys: self.generated_keys@.map_values(|k: GeneratedKey| k@),
        }
    }
}

/// What replies say.
pub open spec fn response_views(responses: Seq<Response>) -> Seq<ResponseView> {
    responses.map_values(|r: Response| r@)
}

/// The names of an object's members.
pub open spec fn member_names(members: Seq<(Seq<char>, ValueView)>) -> Seq<Seq<char>> {
    members.map_values(|m: (Seq<char>, ValueView)| m.0)
}

/// The member of an object by a name, or null.
pub open spec fn member(members: Seq<(Seq<char>, ValueView)>, name: Seq<char>) -> ValueView {
    match rows::first_position(member_names(members), name) {
        Some(i) => members[i].1,
        None => ValueView::Null,
    }
}

/// The error for a row that is no object.
pub open spec fn not_an_object() -> ErrorView {
    crate::error::plain(AdapterErrorKind::Protocol, "neon row is not an object"@)
}

/// The row that an object stands for: under the columns of the reply, or under
/// its own names where the reply has no columns. What it lacks is null.
pub open spec fn remote_row(columns: Seq<Seq<char>>, v: ValueView) -> Result<RowView, ErrorView> {
    match v {
        ValueView::Object(members) => {
            let names = if columns.len() == 0 {
                member_names(members)
            } else {
                columns
            };
            Ok(
                RowView {
                    columns: names,
                    values: names.map_values(|name: Seq<char>| member(members, name)),
                },
            )
        },
        _ => Err(not_an_object()),
    }
}

/// The rows of a reply; the first that is no object is reported.
pub open spec fn remote_rows(columns: Seq<Seq<char>>, all: Seq<ValueView>) -> Result<
    Seq<RowView>,
    ErrorView,
>
    decreases all.len(),
{
    if all.len() == 0 {
        Ok(Seq::empty())
    } else {
        match remote_rows(columns, all.drop_last()) {
            Err(e) => Err(e),
            Ok(head) => match remote_row(columns, all.last()) {
                Err(e) => Err(e),
                Ok(row) => Ok(head.push(row)),
            },
        }
    }
}

proof fn lemma_first_row_fault(columns: Seq<Seq<char>>, all: Seq<ValueView>, i: int)
    requires
        0 <= i < all.len(),
        remote_rows(columns, all.take(i + 1)) is Err,
    ensures
        remote_rows(columns, all) == remote_rows(columns, all.take(i + 1)),
    decreases all.len(),
{
    if i + 1 == all.len() {
        assert(all.take(i + 1) =~= all);
    } else {
        assert(all.drop_last().take(i + 1) =~= all.take(i + 1));
        lemma_first_row_fault(columns, all.drop_last(), i);
    }
}

/// What members of an object say.
pub open spec fn member_views(members: Seq<(String, Value)>) -> Seq<(Seq<char>, ValueView)> {
    members.map_values(|m: (String, Value)| (m.0@, m.1@))
}

fn find_member(members: &Vec<(String, Value)>, name: &str) -> (r: Value)
    ensures
        r@ == member(member_views(members@), name@),
{
    let ghost names = member_names(member_views(members@));
    let mut i: usize = 0;
    assert(names.skip(0) =~= names);
    while i < members.len()
        invariant
            i <= members@.len(),
            names == member_names(member_views(members@)),
            rows::first_position(names, name@) == match rows::first_position(
                names.skip(i as int),
                name@,
            ) {
                Some(k) => Some(k + i),
                None => None,
            },
        decreases members@.len() - i,
    {
        proof {
            assert(names.skip(i as int)[0] == members@[i as int].0@);
            assert(names.skip(i as int).drop_first() =~= names.skip(i + 1));
        }
        if text::str_eq(members[i].0.as_str(), name) {
            assert(member_views(members@)[i as int].1 == members@[i as int].1@);
            return members[i].1.duplicate();
        }
        i = i + 1;
    }
    Value::Null
}

fn names_of(members: &Vec<(String, Value)>) -> (r: Vec<String>)
    ensures
        rows::texts(r@) == member_names(member_views(members@)),
{
    let mut out: Vec<String> = Vec::new();
    let mut i: usize = 0;
    while i < members.len()
        invariant
            i <= members@.len(),
            out@.len() == i,
            forall|k: int| 0 <= k < i ==> (#[trigger] out@[k])@ == members@[k].0@,
        decreases members@.len() - i,
    {
        out.push(members[i].0.clone());
        i = i + 1;
    }
    assert(rows::texts(out@) =~= member_names(member_views(members@)));
    out
}

fn copy_names(columns: &Vec<String>) -> (r: Vec<String>)
    ensures
        rows::texts(r@) == rows::texts(columns@),
{
    let mut out: Vec<String> = Vec::new();
    let mut i: usize = 0;
    while i < columns.len()
        invariant
            i <= columns@.len(),
            out@.len() == i,
            forall|k: int| 0 <= k < i ==> (#[trigger] out@[k])@ == columns@[k]@,
        decreases columns@.len() - i,
    {
        out.push(columns[i].clone());
        i = i + 1;
    }
    assert(rows::texts(out@) =~= rows::texts(columns@));
    out
}

fn row_of(columns: &Vec<String>, value: &Value) -> (r: Result<Row, DactylError>)
    ensures
        match remote_row(rows::texts(columns@), value@) {
            Ok(row) => r is Ok && r->Ok_0@ == row,
            Err(e) => r is Err && r->Err_0@ == e,
        },
{
    assert(rows::texts(columns@).len() == columns@.len());
    match value {
        Value::Object(members) => {
            assert(value@->Object_0 =~= member_views(members@));
            let names: Vec<String> = if columns.len() == 0 {
                names_of(members)
            } else {
                copy_names(columns)
            };
            let ghost listed = rows::texts(names@);
            let mut values: Vec<Value> = Vec::new();
            let mut i: usize = 0;
            while i < names.len()
                invariant
                    i <= names@.len(),
                    values@.len() == i,
                    listed == rows::texts(names@),
                    forall|k: int|
                        0 <= k < i ==> (#[trigger] values@[k])@ == member(
                            member_views(members@),
                            listed[k],
                        ),
                decreases names@.len() - i,
            {
                assert(listed[i as int] == names@[i as int]@);
                values.push(find_member(members, names[i].as_str()));
                i = i + 1;
            }
            let row = Row { columns: names, values };
            assert(row@.values =~= listed.map_values(
                |name: Seq<char>| member(member_views(members@), name),
            ));
            assert(row@.columns =~= listed);
            Ok(row)
        },
        _ => Err(DactylError::adapter(AdapterErrorKind::Protocol, "neon row is not an object")),
    }
}

/// The rows of a reply.
pub fn rows_from_response(response: &Response) -> (r: Result<Rows, DactylError>)
    ensures
        match remote_rows(response@.columns, response@.rows) {
            Ok(all) => r is Ok && rows::row_views(r->Ok_0.0@) == all,
            Err(e) => r is Err && r->Err_0@ == e,
        },
{
    let ghost columns = rows::texts(response.columns@);
    let ghost views = crate::value::value_views(response.rows@);
    let mut out: Vec<Row> = Vec::new();
    let mut i: usize = 0;
    assert(rows::row_views(out@) =~= Seq::<RowView>::empty());
    assert(views.take(0) =~= Seq::<ValueView>::empty());
    while i < response.rows.len()
        invariant
            i <= response.rows@.len(),
            columns == rows::texts(response.columns@),
            views == crate::value::value_views(response.rows@),
            remote_rows(columns, views.take(i as int)) == Ok::<Seq<RowView>, ErrorView>(
                rows::row_views(out@),
            ),
        decreases response.rows@.len() - i,
    {
        let ghost before = rows::row_views(out@);
        proof {
            assert(views.take(i + 1).drop_last() =~= views.take(i as int));
            assert(views.take(i + 1).last() == response.rows@[i as int]@);
        }
        match row_of(&response.columns, &response.rows[i]) {
            Ok(row) => {
                out.push(row);
                assert(rows::row_views(out@) =~= before.push(row@));
            },
            Err(e) => {
                proof {
                    lemma_first_row_fault(columns, views, i as int);
                }
                return Err(e);
            },
        }
        i = i + 1;
    }
    assert(views.take(i as int) =~= views);
    Ok(Rows(out))
}

/// The result of a write, from its reply: the rows count where the reply
/// names no number.
pub open spec fn remote_write(response: ResponseView) -> WriteView {
    WriteView {
        affected_rows: match response.affected_rows {
            Some(n) => n,
            None => response.rows.len() as u64,
        },
        generated_keys: response.generated_keys,
    }
}

/// The result of a write, from its reply: the rows count where the reply
/// names no number.
pub fn write_from_response(response: Response) -> (r: WriteResult)
    ensures
        r@ == remote_write(response@),
{
    let counted: u64 = response.rows.len() as u64;
    WriteResult {
        affected_rows: match response.affected_rows {
            Some(n) => n,
            None => counted,
        },
        generated_keys: response.generated_keys,
    }
}

/// The result of one operation of a batch: rows where the reply has columns or
/// rows, and a write otherwise.
pub open spec fn batch_result(response: ResponseView) -> Result<ResultView, ErrorView> {
    if response.columns.len() > 0 || response.rows.len() > 0 {
        match remote_rows(response.columns, response.rows) {
            Ok(all) => Ok(ResultView::Rows(all)),
            Err(e) => Err(e),
        }
    } else {
        Ok(
            ResultView::Write(
                WriteView {
                    affected_rows: match response.affected_rows {
                        Some(n) => n,
                        None => 0,
                    },
                    generated_keys: response.generated_keys,
                },
            ),
        )
    }
}

/// The results of a batch, in order; the first that fails is reported.
pub open spec fn batch_results_of(responses: Seq<ResponseView>) -> Result<
    Seq<ResultView>,
    ErrorView,
>
    decreases responses.len(),
{
    if responses.len() == 0 {
        Ok(Seq::empty())
    } else {
        match batch_results_of(responses.drop_last()) {
            Err(e) => Err(e),
            Ok(head) => match batch_result(responses.last()) {
                Err(e) => Err(e),
                Ok(result) => Ok(head.push(result)),
            },
        }
    }
}

/// The error for a batch whose replies do not match its operations.
pub open spec fn wrong_count(results: int, operations: int) -> ErrorView {
    crate::error::plain(
        AdapterErrorKind::Protocol,
        "neon batch returned "@ + text::decimal(results as nat) + " results for "@ + text::decimal(
            operations as nat,
        ) + " operations"@,
    )
}

proof fn lemma_first_result_fault(responses: Seq<ResponseView>, i: int)
    requires
        0 <= i < responses.len(),
        batch_results_of(responses.take(i + 1)) is Err,
    ensures
        batch_results_of(responses) == batch_results_of(responses.take(i + 1)),
    decreases responses.len(),
{
    if i + 1 == responses.len() {
        assert(responses.take(i + 1) =~= responses);
    } else {
        assert(responses.drop_last().take(i + 1) =~= responses.take(i + 1));
        lemma_first_result_fault(responses.drop_last(), i);
    }
}

/// Results keep the order of the operations: the result of each operation is
/// that of the reply in its place.
pub proof fn lemma_remote_results_keep_their_order(responses: Seq<ResponseView>, i: int)
    requires
        batch_results_of(responses) is Ok,
        0 <= i < responses.len(),
    ensures
        batch_results_of(responses)->Ok_0.len() == responses.len(),
        batch_result(responses[i]) == Ok::<ResultView, ErrorView>(
            batch_results_of(responses)->Ok_0[i],
        ),
    decreases responses.len(),
{
    if responses.len() == 1 {
        assert(batch_results_of(responses.drop_last()) == Ok::<Seq<ResultView>, ErrorView>(
            Seq::empty(),
        ));
    } else {
        let j = if i < responses.len() - 1 {
            i
        } else {
            0
        };
        lemma_remote_results_keep_their_order(responses.drop_last(), j);
    }
}

fn result_of(response: Response) -> (r: Result<OperationResult, DactylError>)
    ensures
        match batch_result(response@) {
            Ok(result) => r is Ok && r->Ok_0@ == result,
            Err(e) => r is Err && r->Err_0@ == e,
        },
{
    assert(response@.columns.len() == response.columns@.len());
    assert(response@.rows.len() == response.rows@.len());
    if response.columns.len() > 0 || response.rows.len() > 0 {
        match rows_from_response(&response) {
            Ok(found) => Ok(OperationResult::Rows(found)),
            Err(e) => Err(e),
        }
    } else {
        Ok(
            OperationResult::Write(
                WriteResult {
                    affected_rows: match response.affected_rows {
                        Some(n) => n,
                        None => 0,
                    },
                    generated_keys: response.generated_keys,
                },
            ),
        )
    }
}

/// The results of a batch of this many operations, from their replies.
pub fn batch_results(responses: Vec<Response>, operations: usize) -> (r: Result<
    AtomicResult,
    DactylError,
>)
    ensures
        responses@.len() != operations ==> r is Err && r->Err_0@ == wrong_count(
            responses@.len() as int,
            operations as int,
        ),
        responses@.len() == operations ==> match batch_results_of(response_views(responses@)) {
            Ok(results) => r is Ok && contract::result_views(r->Ok_0.results@) == results
                && r->Ok_0.results@.len() == operations,
            Err(e) => r is Err && r->Err_0@ == e,
        },
{
    if responses.len() != operations {
        return Err(
            DactylError::adapter(
                AdapterErrorKind::Protocol,
                "neon batch returned ".to_string().concat(
                    text::decimal_text(responses.len() as u64).as_str(),
                ).concat(" results for ").concat(
                    text::decimal_text(operations as u64).as_str(),
                ).concat(" operations").as_str(),
            ),
        );
    }
    let ghost views = response_views(responses@);
    let mut results: Vec<OperationResult> = Vec::new();
    assert(contract::result_views(results@) =~= Seq::<ResultView>::empty());
    assert(views.take(0) =~= Seq::<ResponseView>::empty());
    for response in it: responses
        invariant
            it.seq() == responses@,
            responses@.len() == operations,
            views == response_views(responses@),
            results@.len() == it.index(),
            batch_results_of(views.take(it.index() as int)) == Ok::<Seq<ResultView>, ErrorView>(
                contract::result_views(results@),
            ),
    {
        let ghost i = it.index() as int;
        let ghost before = contract::result_views(results@);
        proof {
            assert(views.take(i + 1).drop_last() =~= views.take(i));
            assert(views.take(i + 1).last() == response@);
        }
        match result_of(response) {
            Ok(result) => {
                results.push(result);
                assert(contract::result_views(results@) =~= before.push(result@));
            },
            Err(e) => {
                proof {
                    lemma_first_result_fault(views, i);
                }
                return Err(e);
            },
        }
    }
    assert(views.take(views.len() as int) =~= views);
    Ok(AtomicResult { results })
}

// ---------------------------------------------------------------------------
// Errors
// ---------------------------------------------------------------------------

/// The kind that a stable error code of the service stands for.
pub open spec fn code_kind(code: Seq<char>) -> Option<AdapterErrorKind> {
    if code == "invalid_request"@ {
        Some(AdapterErrorKind::InvalidOperation)
    } else if code == "unsupported_query"@ {
        Some(AdapterErrorKind::Capability)
    } else if code == "authentication_required"@ || code == "missing_context"@ {
        Some(AdapterErrorKind::Authentication)
    } else if code == "invalid_context"@ || code == "malformed_context"@ {
        Some(AdapterErrorKind::Protocol)
    } else if code == "entitlement_required"@ || code == "repository_not_authorized"@ {
        Some(AdapterErrorKind::Authorization)
    } else if code == "row_not_found"@ {
        Some(AdapterErrorKind::NotFound)
    } else if code == "row_conflict"@ {
        Some(AdapterErrorKind::Conflict)
    } else if code == "constraint_failed"@ || code == "unique_violation"@ || code
        == "not_null_violation"@ || code == "foreign_key_violation"@ {
        Some(AdapterErrorKind::Constraint)
    } else if code == "busy"@ {
        Some(AdapterErrorKind::Busy)
    } else if code == "locked"@ {
        Some(AdapterErrorKind::Locked)
    } else if code == "timeout"@ {
        Some(AdapterErrorKind::Timeout)
    } else if code == "version_conflict"@ {
        Some(AdapterErrorKind::VersionConflict)
    } else if code == "idempotency_conflict"@ {
        Some(AdapterErrorKind::IdempotencyConflict)
    } else if code == "idempotency_in_progress"@ {
        Some(AdapterErrorKind::IdempotencyInProgress)
    } else if code == "transaction_aborted"@ {
        Some(AdapterErrorKind::TransactionAborted)
    } else if code == "quota_exceeded"@ || code == "payload_too_large"@ {
        Some(AdapterErrorKind::Quota)
    } else if code == "rate_limited"@ {
        Some(AdapterErrorKind::RateLimited)
    } else if code == "storage_failure"@ {
        Some(AdapterErrorKind::Storage)
    } else if code == "storage_unavailable"@ {
        Some(AdapterErrorKind::Unavailable)
    } else {
        None
    }
}

fn kind_of_code(code: &str) -> (r: Option<AdapterErrorKind>)
    ensures
        r == code_kind(code@),
{
    if text::str_eq(code, "invalid_request") {
        Some(AdapterErrorKind::InvalidOperation)
    } else if text::str_eq(code, "unsupported_query") {
        Some(AdapterErrorKind::Capability)
    } else if text::str_eq(code, "authentication_required") || text::str_eq(
        code,
        "missing_context",
    ) {
        Some(AdapterErrorKind::Authentication)
    } else if text::str_eq(code, "invalid_context") || text::str_eq(code, "malformed_context") {
        Some(AdapterErrorKind::Protocol)
    } else if text::str_eq(code, "entitlement_required") || text::str_eq(
        code,
        "repository_not_authorized",
    ) {
        Some(AdapterErrorKind::Authorization)
    } else if text::str_eq(code, "row_not_found") {
        Some(AdapterErrorKind::NotFound)
    } else if text::str_eq(code, "row_conflict") {
        Some(AdapterErrorKind::Conflict)
    } else if text::str_eq(code, "constraint_failed") || text::str_eq(code, "unique_violation")
        || text::str_eq(code, "not_null_violation") || text::str_eq(
        code,
        "foreign_key_violation",
    ) {
        Some(AdapterErrorKind::Constraint)
    } else if text::str_eq(code, "busy") {
        Some(AdapterErrorKind::Busy)
    } else if text::str_eq(code, "locked") {
        Some(AdapterErrorKind::Locked)
    } else if text::str_eq(code, "timeout") {
        Some(AdapterErrorKind::Timeout)
    } else if text::str_eq(code, "version_conflict") {
        Some(AdapterErrorKind::VersionConflict)
    } else if text::str_eq(code, "idempotency_conflict") {
        Some(AdapterErrorKind::IdempotencyConflict)
    } else if text::str_eq(code, "idempotency_in_progress") {
        Some(AdapterErrorKind::IdempotencyInProgress)
    } else if text::str_eq(code, "transaction_aborted") {
        Some(AdapterErrorKind::TransactionAborted)
    } else if text::str_eq(code, "quota_exceeded") || text::str_eq(code, "payload_too_large") {
        Some(AdapterErrorKind::Quota)
    } else if text::str_eq(code, "rate_limited") {
        Some(AdapterErrorKind::RateLimited)
    } else if text::str_eq(code, "storage_failure") {
        Some(AdapterErrorKind::Storage)
    } else if text::str_eq(code, "storage_unavailable") {
        Some(AdapterErrorKind::Unavailable)
    } else {
        None
    }
}

/// The kind that an HTTP status stands for.
pub open spec fn status_kind(status: u16) -> AdapterErrorKind {
    if status == 401 {
        AdapterErrorKind::Authentication
    } else if status == 402 || status == 403 {
        AdapterErrorKind::Authorization
    } else if status == 404 {
        AdapterErrorKind::NotFound
    } else if status == 408 || status == 409 {
        AdapterErrorKind::Conflict
    } else if status == 429 {
        AdapterErrorKind::RateLimited
    } else if status == 500 {
        AdapterErrorKind::Storage
    } else if status == 503 {
        AdapterErrorKind::Unavailable
    } else {
        AdapterErrorKind::Query
    }
}

fn kind_of_status(status: u16) -> (r: AdapterErrorKind)
    ensures
        r == status_kind(status),
{
    if status == 401 {
        AdapterErrorKind::Authentication
    } else if status == 402 || status == 403 {
        AdapterErrorKind::Authorization
    } else if status == 404 {
        AdapterErrorKind::NotFound
    } else if status == 408 || status == 409 {
        AdapterErrorKind::Conflict
    } else if status == 429 {
        AdapterErrorKind::RateLimited
    } else if status == 500 {
        AdapterErrorKind::Storage
    } else if status == 503 {
        AdapterErrorKind::Unavailable
    } else {
        AdapterErrorKind::Query
    }
}

/// The error that a refusal of the service stands for: its code decides the
/// kind where it is a stable one, and the status otherwise.
pub open spec fn remote_error_of(
    status: u16,
    code: Option<Seq<char>>,
    message: Option<Seq<char>>,
    operation: Seq<char>,
) -> ErrorView {
    ErrorView::Adapter {
        kind: match code {
            Some(c) => match code_kind(c) {
                Some(kind) => kind,
                None => status_kind(status),
            },
            None => status_kind(status),
        },
        code,
        message: match message {
            Some(m) => m,
            None => operation + " returned HTTP status "@ + text::decimal(status as nat),
        },
    }
}

/// The error that a refusal of the service stands for. `code` and `message`
/// are what its body says, if it says it.
pub fn remote_error(
    status: u16,
    code: Option<String>,
    message: Option<String>,
    operation: &str,
) -> (r: DactylError)
    ensures
        r@ == remote_error_of(
            status,
            crate::error::text_option(code),
            crate::error::text_option(message),
            operation@,
        ),
{
    let shown: String = match message {
        Some(m) => m,
        None => operation.to_string().concat(" returned HTTP status ").concat(
            text::decimal_text(status as u64).as_str(),
        ),
    };
    match code {
        Some(c) => {
            let kind: AdapterErrorKind = match kind_of_code(c.as_str()) {
                Some(kind) => kind,
                None => kind_of_status(status),
            };
            DactylError::adapter_with_code(kind, c.as_str(), shown.as_str())
        },
        None => DactylError::adapter(kind_of_status(status), shown.as_str()),
    }
}

/// A stable code of the service keeps its meaning whatever the status, and
/// comes through as it is.
pub proof fn lemma_stable_codes_decide(
    code: Seq<char>,
    first: u16,
    second: u16,
    message: Option<Seq<char>>,
    operation: Seq<char>,
)
    requires
        code_kind(code) is Some,
    ensures
        remote_error_of(first, Some(code), message, operation).kind() == code_kind(code),
        remote_error_of(second, Some(code), message, operation).kind() == remote_error_of(
            first,
            Some(code),
            message,
            operation,
        ).kind(),
        remote_error_of(first, Some(code), message, operation).code() == Some(code),
{
}

/// Whether a status means success.
pub open spec fn succeeded(status: u16) -> bool {
    200 <= status < 300
}

/// A status means success exactly where it has three digits and starts with 2.
pub proof fn lemma_successes(status: u16)
    ensures
        succeeded(status) <==> status / 100 == 2,
{
}

/// Whether a status means success.
pub fn is_success(status: u16) -> (r: bool)
    ensures
        r == succeeded(status),
{
    200 <= status && status < 300
}

/// The error for a request that could not be sent.
pub fn send_error(operation: &str, reason: &str) -> (r: DactylError)
    ensures
        r@ == send_failed(operation@, reason@),
{
    DactylError::adapter(
        AdapterErrorKind::Transport,
        operation.to_string().concat(" send: ").concat(reason).as_str(),
    )
}

/// The error for a reply that could not be received.
pub fn response_error(operation: &str, reason: &str) -> (r: DactylError)
    ensures
        r@ == response_failed(operation@, reason@),
{
    DactylError::adapter(
        AdapterErrorKind::Transport,
        operation.to_string().concat(" response: ").concat(reason).as_str(),
    )
}

/// The error for a reply that could not be understood.
pub fn decode_error(operation: &str, reason: &str) -> (r: DactylError)
    ensures
        r@ == decode_failed(operation@, reason@),
{
    DactylError::adapter(
        AdapterErrorKind::Protocol,
        operation.to_string().concat(" decode: ").concat(reason).as_str(),
    )
}

// ---------------------------------------------------------------------------
// What the exchange is for
// ---------------------------------------------------------------------------

/// An endpoint loses the slashes it ends in and nothing else.
pub proof fn lemma_endpoint_without_slashes(s: Seq<char>)
    ensures
        ({
            let r = without_slashes(s);
            &&& r.len() <= s.len() && r == s.take(r.len() as int)
            &&& r.len() > 0 ==> r.last() != '/'
            &&& forall|i: int| r.len() <= i < s.len() ==> #[trigger] s[i] == '/'
        }),
    decreases s.len(),
{
    assert(s.take(s.len() as int) =~= s);
    if s.len() > 0 && s.last() == '/' {
        let less = s.drop_last();
        lemma_endpoint_without_slashes(less);
        let r = without_slashes(s);
        assert(less.take(r.len() as int) =~= s.take(r.len() as int));
        assert forall|i: int| r.len() <= i < s.len() implies #[trigger] s[i] == '/' by {
            if i < less.len() {
                assert(less[i] == s[i]);
            }
        }
    }
}

/// What a request for one statement says, member by member: the statement, its
/// parameters one for one and in order, the access mode and the context. It
/// goes to `/query` under the endpoint with the route's token.
pub proof fn lemma_query_requests(route: NeonView, sql: Seq<char>, params: Seq<ParameterView>)
    requires
        context_fault(route.context) is None,
    ensures
        ({
            let r = query_request(route, sql, params)->Ok_0;
            let body = r.body->Object_0;
            let context = route.context->Some_0;
            &&& query_request(route, sql, params) is Ok
            &&& r.url == route.endpoint + "/query"@
            &&& r.bearer == route.bearer
            &&& r.body is Object && body.len() == 4
            &&& body[0] == ("sql"@, ValueView::Text(sql))
            &&& body[1].0 == "params"@ && body[1].1 is Array
            &&& body[1].1->Array_0.len() == params.len()
            &&& forall|i: int|
                0 <= i < params.len() ==> #[trigger] body[1].1->Array_0[i] == params[i].json()
            &&& body[2].0 == "access_mode"@
            &&& route.access_mode is ReadOnly ==> body[2].1 == ValueView::Text("read_only"@)
            &&& route.access_mode is ReadWrite ==> body[2].1 == ValueView::Text("read_write"@)
            &&& body[3].0 == "context"@ && body[3].1 is Object
            &&& body[3].1->Object_0 == seq![
                ("version"@, ValueView::Number(Number::PosInt(context.version as u64))),
                ("payload"@, context.payload),
            ]
            &&& write_request(route, sql, params) is Ok <==> route.access_mode is ReadWrite
            &&& route.access_mode is ReadWrite ==> write_request(route, sql, params)
                == query_request(route, sql, params)
            &&& route.access_mode is ReadOnly ==> write_request(route, sql, params)->Err_0.kind()
                == Some(AdapterErrorKind::ReadOnly)
        }),
{
}

/// What a request for a batch says: the access mode, every operation with its
/// kind, statement and parameters, in order, and the context. It goes to
/// `/batch` under the endpoint. An empty batch is not sent, and neither is one
/// that changes the store over a read-only route.
pub proof fn lemma_batch_requests(route: NeonView, operations: Seq<OperationView>)
    ensures
        operations.len() == 0 ==> batch_request(route, operations) == Ok::<
            Option<RequestView>,
            ErrorView,
        >(None),
        (route.access_mode is ReadOnly && exists|i: int|
            0 <= i < operations.len() && !((#[trigger] operations[i]).kind is Read))
            ==> batch_request(route, operations) is Err && batch_request(
            route,
            operations,
        )->Err_0.kind() == Some(AdapterErrorKind::ReadOnly),
        (operations.len() > 0 && context_fault(route.context) is None && (route.access_mode
            is ReadWrite || forall|i: int|
            0 <= i < operations.len() ==> (#[trigger] operations[i]).kind is Read)) ==> {
            let r = batch_request(route, operations)->Ok_0->Some_0;
            let body = r.body->Object_0;
            &&& batch_request(route, operations) is Ok && batch_request(route, operations)->Ok_0
                is Some
            &&& r.url == route.endpoint + "/batch"@
            &&& r.bearer == route.bearer
            &&& r.body is Object && body.len() == 3
            &&& body[0].0 == "access_mode"@
            &&& route.access_mode is ReadOnly ==> body[0].1 == ValueView::Text("read_only"@)
            &&& route.access_mode is ReadWrite ==> body[0].1 == ValueView::Text("read_write"@)
            &&& body[1].0 == "operations"@ && body[1].1 is Array
            &&& body[1].1->Array_0.len() == operations.len()
            &&& forall|i: int|
                0 <= i < operations.len() ==> stands_for(
                    #[trigger] body[1].1->Array_0[i],
                    operations[i],
                )
            &&& body[2] == ("context"@, context_json(route.context->Some_0))
        },
{
    if operations.len() > 0 && context_fault(route.context) is None {
        let list = operations.map_values(|o: OperationView| operation_json(o));
        assert forall|i: int| 0 <= i < operations.len() implies stands_for(
            #[trigger] list[i],
            operations[i],
        ) by {
            let params = operations[i].params;
            assert(list[i]->Object_0[2].1->Array_0 =~= params.map_values(
                |p: ParameterView| p.json(),
            ));
        }
    }
}

/// Whether a JSON value stands for an operation: an object of its kind, its
/// statement and its parameters.
pub open spec fn stands_for(v: ValueView, operation: OperationView) -> bool {
    let members = v->Object_0;
    &&& v is Object && members.len() == 3
    &&& members[0].0 == "kind"@
    &&& operation.kind is Read ==> members[0].1 == ValueView::Text("read"@)
    &&& operation.kind is Write ==> members[0].1 == ValueView::Text("write"@)
    &&& operation.kind is Schema ==> members[0].1 == ValueView::Text("schema"@)
    &&& members[1] == ("sql"@, ValueView::Text(operation.sql))
    &&& members[2].0 == "params"@ && members[2].1 is Array
    &&& members[2].1->Array_0.len() == operation.params.len()
    &&& forall|i: int|
        0 <= i < operation.params.len() ==> #[trigger] members[2].1->Array_0[i]
            == operation.params[i].json()
}

/// What a row of a reply says. Under the columns of the reply, each cell is
/// the first member of that name, and null where there is none. Without
/// columns, the row has the names of its members in order.
pub proof fn lemma_remote_cells(
    columns: Seq<Seq<char>>,
    members: Seq<(Seq<char>, ValueView)>,
    i: int,
    j: int,
)
    ensures
        ({
            let row = remote_row(columns, ValueView::Object(members))->Ok_0;
            &&& remote_row(columns, ValueView::Object(members)) is Ok
            &&& row.values.len() == row.columns.len()
            &&& columns.len() > 0 ==> row.columns == columns
            &&& columns.len() == 0 ==> row.columns.len() == members.len()
            &&& columns.len() == 0 && 0 <= i < members.len() ==> row.columns[i] == members[i].0
            &&& 0 <= i < row.columns.len() && 0 <= j < members.len() && members[j].0
                == row.columns[i] && (forall|k: int|
                0 <= k < j ==> (#[trigger] members[k]).0 != row.columns[i]) ==> row.values[i]
                == members[j].1
            &&& 0 <= i < row.columns.len() && (forall|k: int|
                0 <= k < members.len() ==> (#[trigger] members[k]).0 != row.columns[i])
                ==> row.values[i] is Null
        }),
{
    let row = remote_row(columns, ValueView::Object(members))->Ok_0;
    let names = member_names(members);
    if 0 <= i < row.columns.len() {
        let name = row.columns[i];
        rows::lemma_first_position(names, name);
        if rows::first_position(names, name) is Some {
            let p = rows::first_position(names, name)->Some_0;
            assert(names[p] == members[p].0);
            if 0 <= j < members.len() && members[j].0 == name {
                assert(names[j] == name);
                if j < p {
                    assert(names[j] != name);
                }
            }
        } else {
            if 0 <= j < members.len() {
                assert(names[j] == members[j].0);
            }
        }
    }
}

proof fn lemma_remote_rows_one_for_one(columns: Seq<Seq<char>>, all: Seq<ValueView>)
    ensures
        remote_rows(columns, all) is Err <==> exists|i: int|
            0 <= i < all.len() && !(#[trigger] all[i] is Object),
        remote_rows(columns, all) is Ok ==> remote_rows(columns, all)->Ok_0.len() == all.len(),
        remote_rows(columns, all) is Ok ==> forall|i: int|
            0 <= i < all.len() ==> remote_row(columns, #[trigger] all[i]) == Ok::<
                RowView,
                ErrorView,
            >(remote_rows(columns, all)->Ok_0[i]),
        remote_rows(columns, all) is Err ==> remote_rows(columns, all)->Err_0.kind() == Some(
            AdapterErrorKind::Protocol,
        ),
    decreases all.len(),
{
    if all.len() > 0 {
        let head = all.drop_last();
        lemma_remote_rows_one_for_one(columns, head);
        if remote_rows(columns, head) is Err {
            let i = choose|i: int| 0 <= i < head.len() && !(#[trigger] head[i] is Object);
            assert(all[i] == head[i]);
        } else if !(all.last() is Object) {
            assert(!(all[all.len() - 1] is Object));
        } else {
            assert forall|i: int| 0 <= i < all.len() implies #[trigger] all[i] is Object by {
                if i < head.len() {
                    assert(head[i] == all[i]);
                }
            }
            assert forall|i: int| 0 <= i < all.len() implies remote_row(
                columns,
                #[trigger] all[i],
            ) == Ok::<RowView, ErrorView>(remote_rows(columns, all)->Ok_0[i]) by {
                if i < head.len() {
                    assert(head[i] == all[i]);
                }
            }
        }
    }
}

/// What a reply of a batch comes to. One that has a column or a row gives rows,
/// as many as it has and each from its place, and fails only where one is no
/// object. One with neither gives a write, with the affected rows that it
/// names, or none, and its keys.
pub proof fn lemma_replies_become_results(response: ResponseView)
    ensures
        response.columns.len() == 0 && response.rows.len() == 0 ==> batch_result(response) == Ok::<
            ResultView,
            ErrorView,
        >(
            ResultView::Write(
                WriteView {
                    affected_rows: if response.affected_rows is Some {
                        response.affected_rows->Some_0
                    } else {
                        0
                    },
                    generated_keys: response.generated_keys,
                },
            ),
        ),
        response.columns.len() > 0 || response.rows.len() > 0 ==> {
            &&& batch_result(response) is Err <==> exists|i: int|
                0 <= i < response.rows.len() && !(#[trigger] response.rows[i] is Object)
            &&& batch_result(response) is Ok ==> {
                let all = batch_result(response)->Ok_0->Rows_0;
                &&& batch_result(response)->Ok_0 is Rows
                &&& all.len() == response.rows.len()
                &&& forall|i: int|
                    0 <= i < all.len() ==> remote_row(
                        response.columns,
                        #[trigger] response.rows[i],
                    ) == Ok::<RowView, ErrorView>(all[i])
            }
        },
{
    lemma_remote_rows_one_for_one(response.columns, response.rows);
}

/// What the reply to a single write comes to: the affected rows that it names,
/// or as many as it has rows, and its keys.
pub proof fn lemma_write_replies(response: ResponseView)
    requires
        response.rows.len() <= u64::MAX,
    ensures
        response.affected_rows is Some ==> remote_write(response).affected_rows
            == response.affected_rows->Some_0,
        response.affected_rows is None ==> remote_write(response).affected_rows
            == response.rows.len(),
        remote_write(response).generated_keys == response.generated_keys,
{
}

/// The category of each stable code of the service, code by code; any other
/// code says nothing.
pub proof fn lemma_stable_codes(code: Seq<char>)
    ensures
        ({
            let kind = code_kind(code);
            &&& kind == Some(AdapterErrorKind::InvalidOperation) ==> code == "invalid_request"@
            &&& kind == Some(AdapterErrorKind::Capability) ==> code == "unsupported_query"@
            &&& kind == Some(AdapterErrorKind::Authentication) ==> code
                == "authentication_required"@ || code == "missing_context"@
            &&& kind == Some(AdapterErrorKind::Protocol) ==> code == "invalid_context"@ || code
                == "malformed_context"@
            &&& kind == Some(AdapterErrorKind::Authorization) ==> code == "entitlement_required"@
                || code == "repository_not_authorized"@
            &&& kind == Some(AdapterErrorKind::NotFound) ==> code == "row_not_found"@
            &&& kind == Some(AdapterErrorKind::Conflict) ==> code == "row_conflict"@
            &&& kind == Some(AdapterErrorKind::Constraint) ==> code == "constraint_failed"@ || code
                == "unique_violation"@ || code == "not_null_violation"@ || code
                == "foreign_key_violation"@
            &&& kind == Some(AdapterErrorKind::Busy) ==> code == "busy"@
            &&& kind == Some(AdapterErrorKind::Locked) ==> code == "locked"@
            &&& kind == Some(AdapterErrorKind::Timeout) ==> code == "timeout"@
            &&& kind == Some(AdapterErrorKind::VersionConflict) ==> code == "version_conflict"@
            &&& kind == Some(AdapterErrorKind::IdempotencyConflict) ==> code
                == "idempotency_conflict"@
            &&& kind == Some(AdapterErrorKind::IdempotencyInProgress) ==> code
                == "idempotency_in_progress"@
            &&& kind == Some(AdapterErrorKind::TransactionAborted) ==> code
                == "transaction_aborted"@
            &&& kind == Some(AdapterErrorKind::Quota) ==> code == "quota_exceeded"@ || code
                == "payload_too_large"@
            &&& kind == Some(AdapterErrorKind::RateLimited) ==> code == "rate_limited"@
            &&& kind == Some(AdapterErrorKind::Storage) ==> code == "storage_failure"@
            &&& kind == Some(AdapterErrorKind::Unavailable) ==> code == "storage_unavailable"@
            &&& kind is Some ==> !(kind->Some_0 is Query || kind->Some_0 is ReadOnly
                || kind->Some_0 is Value || kind->Some_0 is Corrupt || kind->Some_0 is Transport
                || kind->Some_0 is Cancellation || kind->Some_0 is Unknown)
            &&& kind is None ==> code != "invalid_request"@ && code != "unsupported_query"@ && code
                != "authentication_required"@ && code != "missing_context"@ && code
                != "invalid_context"@ && code != "malformed_context"@ && code
                != "entitlement_required"@ && code != "repository_not_authorized"@ && code
                != "row_not_found"@ && code != "row_conflict"@ && code != "constraint_failed"@
                && code != "unique_violation"@ && code != "not_null_violation"@ && code
                != "foreign_key_violation"@ && code != "busy"@ && code != "locked"@ && code
                != "timeout"@ && code != "version_conflict"@ && code != "idempotency_conflict"@
                && code != "idempotency_in_progress"@ && code != "transaction_aborted"@ && code
                != "quota_exceeded"@ && code != "payload_too_large"@ && code != "rate_limited"@
                && code != "storage_failure"@ && code != "storage_unavailable"@
        }),
{
}

/// What a refusal without a stable code means: its HTTP status decides, number
/// by number. Whatever it means, its own code and message come through.
pub proof fn lemma_refusals(
    status: u16,
    code: Option<Seq<char>>,
    message: Option<Seq<char>>,
    operation: Seq<char>,
)
    ensures
        ({
            let e = remote_error_of(status, code, message, operation);
            let stable = code is Some && code_kind(code->Some_0) is Some;
            &&& e is Adapter
            &&& e->Adapter_code == code
            &&& message is Some ==> e->Adapter_message == message->Some_0
            &&& message is None ==> e->Adapter_message == operation + " returned HTTP status "@
                + text::decimal(status as nat)
            &&& stable ==> Some(e->Adapter_kind) == code_kind(code->Some_0)
            &&& !stable ==> e->Adapter_kind == match status {
                401u16 => AdapterErrorKind::Authentication,
                402u16 => AdapterErrorKind::Authorization,
                403u16 => AdapterErrorKind::Authorization,
                404u16 => AdapterErrorKind::NotFound,
                408u16 => AdapterErrorKind::Conflict,
                409u16 => AdapterErrorKind::Conflict,
                429u16 => AdapterErrorKind::RateLimited,
                500u16 => AdapterErrorKind::Storage,
                503u16 => AdapterErrorKind::Unavailable,
                _ => AdapterErrorKind::Query,
            }
        }),
{
}

/// The error for a request that could not be sent.
pub open spec fn send_failed(operation: Seq<char>, reason: Seq<char>) -> ErrorView {
    crate::error::plain(AdapterErrorKind::Transport, operation + " send: "@ + reason)
}

/// The error for a response that could not be received.
pub open spec fn response_failed(operation: Seq<char>, reason: Seq<char>) -> ErrorView {
    crate::error::plain(AdapterErrorKind::Transport, operation + " response: "@ + reason)
}

/// The error for a response that could not be understood.
pub open spec fn decode_failed(operation: Seq<char>, reason: Seq<char>) -> ErrorView {
    crate::error::plain(AdapterErrorKind::Protocol, operation + " decode: "@ + reason)
}

/// What is lost on the way is a fault of the transport, and what arrives and
/// makes no sense is one of the protocol. Each says what was asked for, where
/// it failed and why.
pub proof fn lemma_transport_errors(operation: Seq<char>, reason: Seq<char>)
    ensures
        send_failed(operation, reason) == (ErrorView::Adapter {
            kind: AdapterErrorKind::Transport,
            code: None,
            message: operation + " send: "@ + reason,
        }),
        response_failed(operation, reason) == (ErrorView::Adapter {
            kind: AdapterErrorKind::Transport,
            code: None,
            message: operation + " response: "@ + reason,
        }),
        decode_failed(operation, reason) == (ErrorView::Adapter {
            kind: AdapterErrorKind::Protocol,
            code: None,
            message: operation + " decode: "@ + reason,
        }),
{
}

} // verus!
