//! Values on their way into and out of a SQLite statement.

use vstd::prelude::*;

use crate::error::{AdapterErrorKind, DactylError, ErrorView};
use crate::parameter::{Parameter, ParameterView};
use crate::sqlite::bytes;
use crate::sqlite::statement::{SqliteFailure, SQLITE_DONE, SQLITE_ROW};
use crate::text;
use crate::value::{Number, Value, ValueView};

verus! {

pub const SQLITE_INTEGER: i32 = 1;

pub const SQLITE_FLOAT: i32 = 2;

pub const SQLITE_TEXT: i32 = 3;

pub const SQLITE_BLOB: i32 = 4;

pub const SQLITE_NULL: i32 = 5;

/// The error for a value that cannot pass.
pub open spec fn value_fault(message: Seq<char>) -> ErrorView {
    crate::error::plain(AdapterErrorKind::Value, message)
}

fn value_error(message: &str) -> (r: DactylError)
    ensures
        r@ == value_fault(message@),
{
    DactylError::adapter(AdapterErrorKind::Value, message)
}

// ---------------------------------------------------------------------------
// Out of a statement
// ---------------------------------------------------------------------------

/// What a column of the current row holds.
#[derive(Debug, Clone, Copy, PartialEq, Eq, Structural)]
pub enum ColumnKind {
    Null,
    Integer,
    Float,
    Text,
    Blob,
    Unknown,
}

/// The kind that a SQLite type code stands for.
pub open spec fn kind_of_code(code: i32) -> ColumnKind {
    if code == SQLITE_NULL {
        ColumnKind::Null
    } else if code == SQLITE_INTEGER {
        ColumnKind::Integer
    } else if code == SQLITE_FLOAT {
        ColumnKind::Float
    } else if code == SQLITE_TEXT {
        ColumnKind::Text
    } else if code == SQLITE_BLOB {
        ColumnKind::Blob
    } else {
        ColumnKind::Unknown
    }
}

/// The kind that a SQLite type code stands for.
pub fn column_kind(code: i32) -> (r: ColumnKind)
    ensures
        r == kind_of_code(code),
{
    if code == SQLITE_NULL {
        ColumnKind::Null
    } else if code == SQLITE_INTEGER {
        ColumnKind::Integer
    } else if code == SQLITE_FLOAT {
        ColumnKind::Float
    } else if code == SQLITE_TEXT {
        ColumnKind::Text
    } else if code == SQLITE_BLOB {
        ColumnKind::Blob
    } else {
        ColumnKind::Unknown
    }
}

/// A column of the current row, as SQLite hands it out.
#[derive(Debug, Clone, PartialEq, Eq)]
pub enum RawCell {
    Null,
    Integer(i64),
    /// A real, by the bits of its double-precision form.
    Float(u64),
    /// The bytes of a text.
    Text(Vec<u8>),
    /// The bytes of a blob.
    Blob(Vec<u8>),
    /// SQLite named a length other than zero and gave no text.
    MissingText,
    /// SQLite named a length other than zero and gave no blob.
    MissingBlob,
    Unknown,
}

/// The cell that a column is normalized to.
pub open spec fn normalized(cell: RawCell) -> Result<ValueView, ErrorView> {
    match cell {
        RawCell::Null => Ok(ValueView::Null),
        RawCell::Integer(n) => Ok(ValueView::Number(Number::of_int(n))),
        RawCell::Float(bits) => if crate::value::finite_bits(bits) {
            Ok(ValueView::Number(Number::Float(bits)))
        } else {
            Err(value_fault("SQLite returned a non-finite REAL"@))
        },
        RawCell::Text(b) => if vstd::utf8::valid_utf8(b@) {
            Ok(ValueView::Text(vstd::utf8::decode_utf8(b@)))
        } else {
            Err(
                value_fault(
                    "SQLite returned invalid UTF-8 text: "@ + bytes::utf8_fault(b@),
                ),
            )
        },
        RawCell::Blob(b) => Ok(crate::value::blob_view(b@)),
        RawCell::MissingText => Err(value_fault("SQLite returned a null text pointer"@)),
        RawCell::MissingBlob => Err(value_fault("SQLite returned a null blob pointer"@)),
        RawCell::Unknown => Err(value_fault("SQLite returned an unknown value type"@)),
    }
}

/// The cell that a column is normalized to.
pub fn normalize_cell(cell: RawCell) -> (r: Result<Value, DactylError>)
    ensures
        match normalized(cell) {
            Ok(v) => r is Ok && r->Ok_0@ == v,
            Err(e) => r is Err && r->Err_0@ == e,
        },
{
    match cell {
        RawCell::Null => Ok(Value::Null),
        RawCell::Integer(n) => Ok(Value::Number(Number::from_i64(n))),
        RawCell::Float(bits) => match Number::from_real_bits(bits) {
            Some(n) => Ok(Value::Number(n)),
            None => Err(value_error("SQLite returned a non-finite REAL")),
        },
        RawCell::Text(b) => match bytes::text_from_utf8(b.as_slice()) {
            Ok(s) => Ok(Value::Text(s)),
            Err(fault) => Err(
                value_error(
                    "SQLite returned invalid UTF-8 text: ".to_string().concat(
                        fault.as_str(),
                    ).as_str(),
                ),
            ),
        },
        RawCell::Blob(b) => Ok(Value::from_blob(b.as_slice())),
        RawCell::MissingText => Err(value_error("SQLite returned a null text pointer")),
        RawCell::MissingBlob => Err(value_error("SQLite returned a null blob pointer")),
        RawCell::Unknown => Err(value_error("SQLite returned an unknown value type")),
    }
}

/// The cells of a row, normalized from left to right; the first that cannot
/// pass is reported.
pub open spec fn normalized_row(cells: Seq<RawCell>) -> Result<Seq<ValueView>, ErrorView>
    decreases cells.len(),
{
    if cells.len() == 0 {
        Ok(Seq::empty())
    } else {
        match normalized_row(cells.drop_last()) {
            Err(e) => Err(e),
            Ok(head) => match normalized(cells.last()) {
                Err(e) => Err(e),
                Ok(v) => Ok(head.push(v)),
            },
        }
    }
}

/// The cells of a row, normalized.
pub fn normalize_row(cells: Vec<RawCell>) -> (r: Result<Vec<Value>, DactylError>)
    ensures
        match normalized_row(cells@) {
            Ok(values) => r is Ok && crate::value::value_views(r->Ok_0@) == values,
            Err(e) => r is Err && r->Err_0@ == e,
        },
{
    let mut out: Vec<Value> = Vec::new();
    assert(crate::value::value_views(out@) =~= Seq::<ValueView>::empty());
    assert(cells@.take(0) =~= Seq::<RawCell>::empty());
    for cell in it: cells
        invariant
            it.seq() == cells@,
            normalized_row(cells@.take(it.index() as int)) == Ok::<Seq<ValueView>, ErrorView>(
                crate::value::value_views(out@),
            ),
    {
        let ghost i = it.index() as int;
        let ghost before = crate::value::value_views(out@);
        proof {
            assert(cells@.take(i + 1).drop_last() =~= cells@.take(i));
            assert(cells@.take(i + 1).last() == cell);
        }
        match normalize_cell(cell) {
            Ok(v) => {
                out.push(v);
                assert(crate::value::value_views(out@) =~= before.push(v@));
            },
            Err(e) => {
                proof {
                    lemma_first_fault(cells@, i);
                }
                return Err(e);
            },
        }
    }
    assert(cells@.take(cells@.len() as int) =~= cells@);
    Ok(out)
}

proof fn lemma_first_fault(cells: Seq<RawCell>, i: int)
    requires
        0 <= i < cells.len(),
        normalized_row(cells.take(i + 1)) is Err,
    ensures
        normalized_row(cells) == normalized_row(cells.take(i + 1)),
    decreases cells.len(),
{
    if i + 1 == cells.len() {
        assert(cells.take(i + 1) =~= cells);
    } else {
        assert(cells.drop_last().take(i + 1) =~= cells.take(i + 1));
        lemma_first_fault(cells.drop_last(), i);
    }
}

/// What a bound parameter reads back as.
pub open spec fn stored(p: ParameterView) -> ValueView {
    match p {
        ParameterView::Bool(b) => ValueView::Number(
            Number::PosInt(
                if b {
                    1
                } else {
                    0
                },
            ),
        ),
        _ => p.json(),
    }
}

// ---------------------------------------------------------------------------
// Into a statement
// ---------------------------------------------------------------------------

/// What is bound to a placeholder.
#[derive(Debug, Clone, Copy, PartialEq, Eq, Structural)]
pub enum Binding {
    Null,
    Int64(i64),
    /// A real, by the bits of its double-precision form.
    Double(u64),
    /// A text of this many bytes.
    Text(i32),
    /// A blob of this many bytes.
    Blob(i32),
}

/// The placeholder number and the binding of the parameter at `index`, or why
/// it cannot be bound. SQLite has no booleans: they are bound as 0 and 1.
pub open spec fn binding(index: int, p: ParameterView) -> Result<(i32, Binding), ErrorView> {
    if index + 1 > i32::MAX {
        Err(
            crate::error::plain(
                AdapterErrorKind::InvalidOperation,
                "too many SQLite parameters"@,
            ),
        )
    } else {
        let n = (index + 1) as i32;
        match p {
            ParameterView::Null => Ok((n, Binding::Null)),
            ParameterView::Bool(b) => Ok(
                (
                    n,
                    Binding::Int64(
                        if b {
                            1
                        } else {
                            0
                        },
                    ),
                ),
            ),
            ParameterView::Integer(v) => Ok((n, Binding::Int64(v))),
            ParameterView::Real(bits) => Ok((n, Binding::Double(bits))),
            ParameterView::Text(s) => if text::utf8(s).len() > i32::MAX {
                Err(value_fault("SQLite text parameter is too large"@))
            } else {
                Ok((n, Binding::Text(text::utf8(s).len() as i32)))
            },
            ParameterView::Blob(b) => if b.len() > i32::MAX {
                Err(value_fault("SQLite blob parameter is too large"@))
            } else {
                Ok((n, Binding::Blob(b.len() as i32)))
            },
        }
    }
}

/// The placeholder number and the binding of the parameter at `index`.
pub fn plan_binding(index: usize, parameter: &Parameter) -> (r: Result<
    (i32, Binding),
    DactylError,
>)
    ensures
        match binding(index as int, parameter@) {
            Ok(b) => r is Ok && r->Ok_0 == b,
            Err(e) => r is Err && r->Err_0@ == e,
        },
{
    if index >= i32::MAX as usize {
        return Err(
            DactylError::adapter(AdapterErrorKind::InvalidOperation, "too many SQLite parameters"),
        );
    }
    let n: i32 = index as i32 + 1;
    match parameter {
        Parameter::Null => Ok((n, Binding::Null)),
        Parameter::Bool(b) => if *b {
            Ok((n, Binding::Int64(1)))
        } else {
            Ok((n, Binding::Int64(0)))
        },
        Parameter::Integer(v) => Ok((n, Binding::Int64(*v))),
        Parameter::Real(bits) => Ok((n, Binding::Double(*bits))),
        Parameter::Text(s) => {
            let len: usize = s.as_str().as_bytes().len();
            if len > i32::MAX as usize {
                Err(value_error("SQLite text parameter is too large"))
            } else {
                Ok((n, Binding::Text(len as i32)))
            }
        },
        Parameter::Blob(b) => {
            let len: usize = b.len();
            if len > i32::MAX as usize {
                Err(value_error("SQLite blob parameter is too large"))
            } else {
                Ok((n, Binding::Blob(len as i32)))
            }
        },
    }
}

/// The bindings of the parameters, up to the first that cannot be bound.
pub open spec fn bindings(params: Seq<ParameterView>) -> Seq<(i32, Binding)>
    decreases params.len(),
{
    if params.len() == 0 {
        Seq::empty()
    } else {
        let head = bindings(params.drop_last());
        match binding(params.len() - 1, params.last()) {
            Ok(b) if head.len() == params.len() - 1 => head.push(b),
            _ => head,
        }
    }
}

/// Why the first parameter that cannot be bound cannot, if there is one.
pub open spec fn binding_fault(params: Seq<ParameterView>) -> Option<ErrorView> {
    let n = bindings(params).len() as int;
    if n < params.len() {
        match binding(n, params[n]) {
            Ok(_) => None,
            Err(e) => Some(e),
        }
    } else {
        None
    }
}

/// The bindings are those of the parameters, in order, each at the placeholder
/// behind the one before; they stop only at a parameter that cannot be bound.
pub proof fn lemma_bindings(params: Seq<ParameterView>)
    ensures
        bindings(params).len() <= params.len(),
        forall|i: int|
            0 <= i < bindings(params).len() ==> binding(i, params[i]) == Ok::<
                (i32, Binding),
                ErrorView,
            >(#[trigger] bindings(params)[i]) && bindings(params)[i].0 == i + 1,
        bindings(params).len() < params.len() ==> binding_fault(params) is Some,
    decreases params.len(),
{
    if params.len() > 0 {
        let front = params.drop_last();
        lemma_bindings(front);
        assert(forall|i: int| 0 <= i < front.len() ==> front[i] == params[i]);
    }
}

/// What is to be done next to bind the parameters of a statement.
#[derive(Debug, Clone, Copy, PartialEq, Eq, Structural)]
pub enum BindStep {
    /// Bind the parameter at this position to this placeholder.
    Bind(usize, i32, Binding),
    /// Nothing: every parameter is bound, or one could not be.
    Finished,
}

/// Where the binding of the parameters of a statement stands.
#[verifier::ext_equal]
pub ghost struct BinderView {
    pub params: Seq<ParameterView>,
    /// The number of parameters that are bound.
    pub bound: int,
    /// What SQLite refused the next one with.
    pub refused: Option<ErrorView>,
}

impl BinderView {
    /// What is to be done next.
    pub open spec fn next(self) -> BindStep {
        if self.refused is None && self.bound < bindings(self.params).len() {
            let b = bindings(self.params)[self.bound];
            BindStep::Bind(self.bound as usize, b.0, b.1)
        } else {
            BindStep::Finished
        }
    }

    /// Where the binding stands once the step succeeded, or was refused.
    pub open spec fn after(self, failure: Option<SqliteFailure>) -> BinderView {
        match failure {
            None => BinderView { bound: self.bound + 1, ..self },
            Some(failure) => BinderView {
                refused: Some(
                    crate::sqlite::statement::failure_error("bind SQLite parameter"@, failure),
                ),
                ..self
            },
        }
    }

    /// What the binding came to.
    pub open spec fn outcome(self) -> Option<ErrorView> {
        match self.refused {
            Some(e) => Some(e),
            None => binding_fault(self.params),
        }
    }
}

/// The binding of parameters about to start.
pub open spec fn unbound(params: Seq<ParameterView>) -> BinderView {
    BinderView { params, bound: 0, refused: None }
}

/// The binding of the parameters of a statement, one after the other, until
/// one cannot be bound.
pub struct Binder {
    planned: Vec<(i32, Binding)>,
    fault: Option<DactylError>,
    bound: usize,
    refused: Option<DactylError>,
    params: Ghost<Seq<ParameterView>>,
}

impl Binder {
    pub closed spec fn view(self) -> BinderView {
        BinderView {
            params: self.params@,
            bound: self.bound as int,
            refused: match self.refused {
                Some(e) => Some(e@),
                None => None,
            },
        }
    }

    #[verifier::type_invariant]
    closed spec fn well_formed(self) -> bool {
        &&& self.planned@ == bindings(self.params@)
        &&& self.bound <= self.planned@.len()
        &&& match self.fault {
            Some(e) => binding_fault(self.params@) == Some(e@),
            None => binding_fault(self.params@) is None,
        }
    }

    /// The binding of parameters about to start.
    pub fn new(params: &[Parameter]) -> (r: Self)
        ensures
            r@ == unbound(crate::parameter::parameter_views(params@)),
    {
        let ghost all = crate::parameter::parameter_views(params@);
        let mut planned: Vec<(i32, Binding)> = Vec::new();
        let mut i: usize = 0;
        assert(all.take(0) =~= Seq::<ParameterView>::empty());
        while i < params.len()
            invariant
                i <= params@.len(),
                all == crate::parameter::parameter_views(params@),
                planned@.len() == i,
                planned@ == bindings(all.take(i as int)),
            decreases params@.len() - i,
        {
            assert(all.take(i + 1).drop_last() =~= all.take(i as int));
            assert(all.take(i + 1).last() == params@[i as int]@);
            match plan_binding(i, &params[i]) {
                Ok(b) => {
                    planned.push(b);
                },
                Err(e) => {
                    proof {
                        lemma_bindings_stop(all, i as int);
                    }
                    return Binder {
                        planned,
                        fault: Some(e),
                        bound: 0,
                        refused: None,
                        params: Ghost(all),
                    };
                },
            }
            i = i + 1;
        }
        assert(all.take(i as int) =~= all);
        Binder { planned, fault: None, bound: 0, refused: None, params: Ghost(all) }
    }

    /// What is to be done next.
    pub fn step(&self) -> (r: BindStep)
        ensures
            r == self@.next(),
    {
        proof {
            use_type_invariant(self);
        }
        if self.refused.is_none() && self.bound < self.planned.len() {
            let (n, b) = self.planned[self.bound];
            BindStep::Bind(self.bound, n, b)
        } else {
            BindStep::Finished
        }
    }

    /// Take note of how the step went: of SQLite's failure, if it failed.
    pub fn advance(self, failure: Option<SqliteFailure>) -> (r: Self)
        requires
            self@.next() is Bind,
        ensures
            r@ == self@.after(failure),
    {
        proof {
            use_type_invariant(&self);
            assert(self.bound < self.planned.len());
        }
        match failure {
            None => Binder { bound: self.bound + 1, ..self },
            Some(failure) => Binder {
                refused: Some(
                    crate::sqlite::statement::map_sqlite_failure(
                        "bind SQLite parameter",
                        &failure,
                    ),
                ),
                ..self
            },
        }
    }

    /// What the binding came to.
    pub fn into_outcome(self) -> (r: Result<(), DactylError>)
        requires
            self@.next() is Finished,
        ensures
            match self@.outcome() {
                Some(e) => r is Err && r->Err_0@ == e,
                None => r is Ok,
            },
    {
        proof {
            use_type_invariant(&self);
        }
        match (self.refused, self.fault) {
            (Some(e), _) => Err(e),
            (None, Some(e)) => Err(e),
            (None, None) => Ok(()),
        }
    }
}

proof fn lemma_bindings_stop(params: Seq<ParameterView>, n: int)
    requires
        0 <= n < params.len(),
        bindings(params.take(n)).len() == n,
        binding(n, params[n]) is Err,
    ensures
        bindings(params) == bindings(params.take(n)),
    decreases params.len(),
{
    let front = params.drop_last();
    if n == params.len() - 1 {
        assert(params.take(n) =~= front);
    } else {
        assert(front.take(n) =~= params.take(n));
        lemma_bindings_stop(front, n);
    }
}

/// The steps that a binding hands out while the given failures come back, up
/// to its end.
pub open spec fn handed_out(v: BinderView, failures: Seq<Option<SqliteFailure>>) -> Seq<BindStep>
    decreases failures.len(),
{
    if failures.len() == 0 || v.next() is Finished {
        Seq::empty()
    } else {
        seq![v.next()] + handed_out(v.after(failures[0]), failures.drop_first())
    }
}

/// Where a binding stands once the given failures came back.
pub open spec fn bound_after(v: BinderView, failures: Seq<Option<SqliteFailure>>) -> BinderView
    decreases failures.len(),
{
    if failures.len() == 0 || v.next() is Finished {
        v
    } else {
        bound_after(v.after(failures[0]), failures.drop_first())
    }
}

/// Each parameter is bound at most once, in order, at the placeholder behind
/// the one before, and none is bound behind a refusal. Where the binding ends
/// well, each parameter was bound.
pub proof fn lemma_each_parameter_is_bound_once(
    params: Seq<ParameterView>,
    failures: Seq<Option<SqliteFailure>>,
)
    requires
        params.len() <= usize::MAX,
    ensures
        ({
            let steps = handed_out(unbound(params), failures);
            let end = bound_after(unbound(params), failures);
            &&& steps.len() <= params.len()
            &&& forall|i: int|
                0 <= i < steps.len() ==> (#[trigger] steps[i] matches BindStep::Bind(at, n, b) && at
                    == i && n == i + 1 && binding(i, params[i]) == Ok::<(i32, Binding), ErrorView>(
                    (n, b),
                ))
            &&& forall|i: int| 0 <= i < steps.len() - 1 ==> (#[trigger] failures[i]) is None
            &&& end.next() is Finished && end.outcome() is None ==> steps.len() == params.len()
                && forall|i: int| 0 <= i < params.len() ==> (#[trigger] failures[i]) is None
        }),
{
    lemma_bindings(params);
    lemma_bound_from(unbound(params), failures);
}

proof fn lemma_bound_from(v: BinderView, failures: Seq<Option<SqliteFailure>>)
    requires
        v.params.len() <= usize::MAX,
        v.refused is None,
        0 <= v.bound <= bindings(v.params).len(),
    ensures
        ({
            let steps = handed_out(v, failures);
            let end = bound_after(v, failures);
            &&& steps.len() <= bindings(v.params).len() - v.bound
            &&& steps.len() <= failures.len()
            &&& end.params == v.params
            &&& forall|i: int|
                0 <= i < steps.len() ==> (#[trigger] steps[i] matches BindStep::Bind(at, n, b) && at
                    == v.bound + i && (n, b) == bindings(v.params)[v.bound + i])
            &&& forall|i: int| 0 <= i < steps.len() - 1 ==> (#[trigger] failures[i]) is None
            &&& end.next() is Finished && end.refused is None ==> steps.len() == bindings(
                v.params,
            ).len() - v.bound && forall|i: int|
                0 <= i < steps.len() ==> (#[trigger] failures[i]) is None
        }),
    decreases failures.len(),
{
    lemma_bindings(v.params);
    if failures.len() > 0 && v.next() is Bind {
        let rest = failures.drop_first();
        let w = v.after(failures[0]);
        let steps = handed_out(v, failures);
        let more = handed_out(w, rest);
        assert(steps =~= seq![v.next()] + more);
        if failures[0] is None {
            lemma_bound_from(w, rest);
            assert forall|i: int| 0 <= i < steps.len() implies (
            #[trigger] steps[i] matches BindStep::Bind(at, n, b) && at == v.bound + i && (n, b)
                == bindings(v.params)[v.bound + i]) by {
                if i > 0 {
                    assert(steps[i] == more[i - 1]);
                }
            }
            assert forall|i: int| 0 <= i < steps.len() - 1 implies (
            #[trigger] failures[i]) is None by {
                if i > 0 {
                    assert(failures[i] == rest[i - 1]);
                }
            }
            let end = bound_after(v, failures);
            if end.next() is Finished && end.refused is None {
                assert forall|i: int| 0 <= i < steps.len() implies (
                #[trigger] failures[i]) is None by {
                    if i > 0 {
                        assert(failures[i] == rest[i - 1]);
                    }
                }
            }
        } else {
            assert(w.next() is Finished);
            assert(more =~= Seq::<BindStep>::empty());
        }
    }
}

/// Whether a step gave a row, or why it gave neither a row nor the end.
pub open spec fn stepped(code: i32, failure: SqliteFailure) -> Result<bool, ErrorView> {
    if code == SQLITE_ROW {
        Ok(true)
    } else if code == SQLITE_DONE {
        Ok(false)
    } else {
        Err(crate::sqlite::statement::failure_error("step SQLite statement"@, failure))
    }
}

/// Whether a step gave a row, or why it gave neither a row nor the end.
pub fn step_outcome(code: i32, failure: &SqliteFailure) -> (r: Result<bool, DactylError>)
    ensures
        match stepped(code, *failure) {
            Ok(row) => r == Ok::<bool, DactylError>(row),
            Err(e) => r is Err && r->Err_0@ == e,
        },
{
    if code == SQLITE_ROW {
        Ok(true)
    } else if code == SQLITE_DONE {
        Ok(false)
    } else {
        Err(crate::sqlite::statement::map_sqlite_failure("step SQLite statement", failure))
    }
}

/// Whether a column holds what was bound for a parameter.
pub open spec fn holds_bound(cell: RawCell, b: Binding, p: ParameterView) -> bool {
    match b {
        Binding::Null => cell is Null,
        Binding::Int64(n) => cell == RawCell::Integer(n),
        Binding::Double(bits) => cell == RawCell::Float(bits),
        Binding::Text(_) => cell matches RawCell::Text(v) && p matches ParameterView::Text(s)
            && v@ == text::utf8(s),
        Binding::Blob(_) => cell matches RawCell::Blob(v) && p matches ParameterView::Blob(s) && v@
            == s,
    }
}

/// Where a column holds what was bound for a parameter, the parameter reads
/// back: a null, an integer, a finite real, a text or a blob as itself, and a
/// boolean as the integer 0 or 1, which the lenient boolean getter reads.
pub proof fn lemma_bound_parameter_reads_back(index: int, p: ParameterView, cell: RawCell)
    requires
        binding(index, p) is Ok,
        holds_bound(cell, binding(index, p)->Ok_0.1, p),
        p matches ParameterView::Real(bits) ==> crate::value::finite_bits(bits),
    ensures
        normalized(cell) == Ok::<ValueView, ErrorView>(stored(p)),
        p is Bool || stored(p) == p.json(),
{
    if let ParameterView::Text(s) = p {
        vstd::utf8::encode_utf8_valid_utf8(s);
        vstd::utf8::encode_utf8_decode_utf8(s);
    }
}

/// Whether two columns hold the same.
pub open spec fn same_cell(a: RawCell, b: RawCell) -> bool {
    match (a, b) {
        (RawCell::Text(x), RawCell::Text(y)) => x@ == y@,
        (RawCell::Blob(x), RawCell::Blob(y)) => x@ == y@,
        _ => a == b,
    }
}

/// Nulls, integers, reals, texts and blobs remain distinct: two columns that
/// are normalized to one cell hold the same.
pub proof fn lemma_cells_remain_distinct(a: RawCell, b: RawCell)
    requires
        normalized(a) is Ok,
        normalized(a) == normalized(b),
    ensures
        same_cell(a, b),
{
    match (a, b) {
        (RawCell::Text(x), RawCell::Text(y)) => {
            vstd::utf8::decode_utf8_encode_utf8(x@);
            vstd::utf8::decode_utf8_encode_utf8(y@);
        },
        (RawCell::Blob(x), RawCell::Blob(y)) => {
            crate::value::lemma_blob_round_trip(x@);
            crate::value::lemma_blob_round_trip(y@);
        },
        _ => {},
    }
}

// ---------------------------------------------------------------------------
// What binding and reading are for
// ---------------------------------------------------------------------------

/// The kinds of column, by SQLite's own numbers for them.
pub proof fn lemma_column_kinds(code: i32)
    ensures
        kind_of_code(code) is Integer <==> code == 1,
        kind_of_code(code) is Float <==> code == 2,
        kind_of_code(code) is Text <==> code == 3,
        kind_of_code(code) is Blob <==> code == 4,
        kind_of_code(code) is Null <==> code == 5,
{
}

/// A step gives a row exactly where SQLite answers 100, and the end exactly
/// where it answers 101; any other answer is a failure.
pub proof fn lemma_step_answers(code: i32, failure: SqliteFailure)
    ensures
        stepped(code, failure) == Ok::<bool, ErrorView>(true) <==> code == 100,
        stepped(code, failure) == Ok::<bool, ErrorView>(false) <==> code == 101,
        stepped(code, failure) is Err ==> stepped(code, failure)->Err_0
            == crate::sqlite::statement::failure_error("step SQLite statement"@, failure),
{
}

/// What each column comes to: the null, the integer, the finite real, the text
/// that its bytes spell, or its bytes one by one. A real that is not finite,
/// bytes that are no text, and what SQLite did not hand out are refused.
pub proof fn lemma_columns_by_kind(cell: RawCell, s: Seq<char>)
    ensures
        cell is Null ==> normalized(cell) == Ok::<ValueView, ErrorView>(ValueView::Null),
        cell is Integer ==> normalized(cell) is Ok && normalized(cell)->Ok_0 is Number
            && normalized(cell)->Ok_0->Number_0.integer() == Some(cell->Integer_0),
        cell is Float ==> (normalized(cell) is Ok <==> cell->Float_0 % 0x8000_0000_0000_0000
            < 0x7ff0_0000_0000_0000),
        cell is Float && normalized(cell) is Ok ==> normalized(cell)->Ok_0 == ValueView::Number(
            Number::Float(cell->Float_0),
        ),
        cell is Text && cell->Text_0@ == vstd::utf8::encode_utf8(s) ==> normalized(cell) == Ok::<
            ValueView,
            ErrorView,
        >(ValueView::Text(s)),
        cell is Text && !vstd::utf8::valid_utf8(cell->Text_0@) ==> normalized(cell) is Err,
        cell is Blob ==> normalized(cell) == Ok::<ValueView, ErrorView>(
            crate::value::blob_view(cell->Blob_0@),
        ),
        cell is MissingText || cell is MissingBlob || cell is Unknown ==> normalized(cell) is Err,
        normalized(cell) is Err ==> normalized(cell)->Err_0.kind() == Some(
            AdapterErrorKind::Value,
        ),
{
    vstd::utf8::encode_utf8_valid_utf8(s);
    vstd::utf8::encode_utf8_decode_utf8(s);
    if cell is Float {
        crate::value::lemma_finite_bits(cell->Float_0);
    }
}

/// A row is its columns, one for one and in order; one that cannot pass fails
/// the row.
pub proof fn lemma_rows_one_for_one(cells: Seq<RawCell>)
    ensures
        normalized_row(cells) is Ok <==> forall|i: int|
            0 <= i < cells.len() ==> normalized(#[trigger] cells[i]) is Ok,
        normalized_row(cells) is Ok ==> normalized_row(cells)->Ok_0.len() == cells.len(),
        normalized_row(cells) is Ok ==> forall|i: int|
            0 <= i < cells.len() ==> normalized(#[trigger] cells[i]) == Ok::<
                ValueView,
                ErrorView,
            >(normalized_row(cells)->Ok_0[i]),
    decreases cells.len(),
{
    if cells.len() > 0 {
        let head = cells.drop_last();
        lemma_rows_one_for_one(head);
        if normalized_row(head) is Err {
            let i = choose|i: int| 0 <= i < head.len() && !(normalized(#[trigger] head[i]) is Ok);
            assert(cells[i] == head[i]);
        } else if normalized(cells.last()) is Err {
            assert(!(normalized(cells[cells.len() - 1]) is Ok));
        } else {
            assert forall|i: int| 0 <= i < cells.len() implies normalized(#[trigger] cells[i])
                == Ok::<ValueView, ErrorView>(normalized_row(cells)->Ok_0[i]) by {
                if i < head.len() {
                    assert(head[i] == cells[i]);
                }
            }
        }
    }
}

/// What each parameter is bound as, and where: the first to placeholder 1, and
/// so on. A boolean is bound as 1 or 0; a text and a blob with the number of
/// their bytes, and only where SQLite can count them.
pub proof fn lemma_parameters_are_bound(index: int, p: ParameterView)
    requires
        0 <= index < 0x7fff_ffff,
    ensures
        ({
            let b = binding(index, p);
            &&& b is Ok ==> b->Ok_0.0 == index + 1
            &&& p is Null ==> b is Ok && b->Ok_0.1 is Null
            &&& p is Bool ==> b is Ok && b->Ok_0.1 == Binding::Int64(
                if p->Bool_0 {
                    1
                } else {
                    0
                },
            )
            &&& p is Integer ==> b is Ok && b->Ok_0.1 == Binding::Int64(p->Integer_0)
            &&& p is Real ==> b is Ok && b->Ok_0.1 == Binding::Double(p->Real_0)
            &&& p is Text ==> (b is Ok <==> vstd::utf8::encode_utf8(p->Text_0).len()
                <= 0x7fff_ffff)
            &&& p is Text && b is Ok ==> b->Ok_0.1 is Text && b->Ok_0.1->Text_0
                == vstd::utf8::encode_utf8(p->Text_0).len()
            &&& p is Blob ==> (b is Ok <==> p->Blob_0.len() <= 0x7fff_ffff)
            &&& p is Blob && b is Ok ==> b->Ok_0.1 is Blob && b->Ok_0.1->Blob_0 == p->Blob_0.len()
            &&& b is Err ==> b->Err_0.kind() == Some(AdapterErrorKind::Value)
        }),
{
}

/// More parameters than SQLite has placeholders cannot be bound.
pub proof fn lemma_too_many_parameters(index: int, p: ParameterView)
    requires
        index >= 0x7fff_ffff,
    ensures
        binding(index, p) is Err && binding(index, p)->Err_0.kind() == Some(
            AdapterErrorKind::InvalidOperation,
        ),
{
}

/// What a bound parameter reads back as: a boolean as the integer 1 or 0, and
/// everything else as it is.
pub proof fn lemma_bound_values(p: ParameterView)
    ensures
        p == ParameterView::Bool(true) ==> stored(p) == ValueView::Number(Number::PosInt(1)),
        p == ParameterView::Bool(false) ==> stored(p) == ValueView::Number(Number::PosInt(0)),
        !(p is Bool) ==> stored(p) == p.json(),
{
}

proof fn lemma_bound_up_to_a_fault(params: Seq<ParameterView>)
    ensures
        ({
            let bound = bindings(params);
            let n = bound.len() as int;
            &&& n <= params.len()
            &&& forall|k: int|
                0 <= k < n ==> binding(k, #[trigger] params[k]) == Ok::<(i32, Binding), ErrorView>(
                    bound[k],
                )
            &&& n < params.len() ==> binding(n, params[n]) is Err
        }),
    decreases params.len(),
{
    if params.len() > 0 {
        let front = params.drop_last();
        lemma_bound_up_to_a_fault(front);
        let head = bindings(front);
        let bound = bindings(params);
        assert forall|k: int| 0 <= k < bound.len() implies binding(k, #[trigger] params[k]) == Ok::<
            (i32, Binding),
            ErrorView,
        >(bound[k]) by {
            if k < head.len() {
                assert(front[k] == params[k]);
                assert(bound[k] == head[k]);
            }
        }
        if head.len() < front.len() {
            assert(front[head.len() as int] == params[head.len() as int]);
        }
    }
}

/// Parameters are bound one for one and in order up to the first that cannot
/// be, whose fault is told. There is no fault exactly where all can be.
pub proof fn lemma_first_binding_fault(params: Seq<ParameterView>)
    ensures
        ({
            let bound = bindings(params);
            let n = bound.len() as int;
            &&& n <= params.len()
            &&& forall|k: int|
                0 <= k < n ==> binding(k, #[trigger] params[k]) == Ok::<(i32, Binding), ErrorView>(
                    bound[k],
                )
            &&& binding_fault(params) is None <==> n == params.len()
            &&& binding_fault(params) is Some ==> binding(n, params[n]) is Err
                && binding_fault(params)->Some_0 == binding(n, params[n])->Err_0
        }),
{
    lemma_bound_up_to_a_fault(params);
}

} // verus!
