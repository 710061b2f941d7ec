//! Values bound to the placeholders of a statement.

use vstd::prelude::*;

use crate::error::{AdapterErrorKind, DactylError, ErrorView};
use crate::value::{Number, Value, ValueView};

verus! {

/// A unified database parameter value.
///
/// A real is given by the bits of its double-precision form.
#[derive(Debug, Clone, PartialEq, Eq)]
pub enum Parameter {
    Null,
    Bool(bool),
    Integer(i64),
    Real(u64),
    Text(String),
    Blob(Vec<u8>),
}

/// What a [`Parameter`] says.
#[verifier::ext_equal]
pub ghost enum ParameterView {
    Null,
    Bool(bool),
    Integer(i64),
    Real(u64),
    Text(Seq<char>),
    Blob(Seq<u8>),
}

/// What a sequence of parameters says.
pub open spec fn parameter_views(params: Seq<Parameter>) -> Seq<ParameterView> {
    params.map_values(|p: Parameter| p@)
}

impl ParameterView {
    /// The parameter as a JSON value. JSON has no form for a real that is not
    /// finite: it is sent as null. A blob is sent as an array of its bytes.
    pub open spec fn json(self) -> ValueView {
        match self {
            ParameterView::Null => ValueView::Null,
            ParameterView::Bool(b) => ValueView::Bool(b),
            ParameterView::Integer(n) => ValueView::Number(Number::of_int(n)),
            ParameterView::Real(bits) => if crate::value::finite_bits(bits) {
                ValueView::Number(Number::Float(bits))
            } else {
                ValueView::Null
            },
            ParameterView::Text(s) => ValueView::Text(s),
            ParameterView::Blob(bytes) => crate::value::blob_view(bytes),
        }
    }
}

/// The parameter that a JSON value stands for. An integer beyond the signed
/// range wraps around; an array or an object stands for none.
pub open spec fn parameter_of_json(v: ValueView) -> Option<ParameterView> {
    match v {
        ValueView::Null => Some(ParameterView::Null),
        ValueView::Bool(b) => Some(ParameterView::Bool(b)),
        ValueView::Number(Number::PosInt(n)) => Some(ParameterView::Integer(n as i64)),
        ValueView::Number(Number::NegInt(n)) => Some(ParameterView::Integer(n)),
        ValueView::Number(Number::Float(bits)) => Some(ParameterView::Real(bits)),
        ValueView::Text(s) => Some(ParameterView::Text(s)),
        _ => None,
    }
}

/// The bits of the double-precision number nearest to an integer from 2^63
/// on, ties going to the even one.
pub open spec fn nearest_real_bits(n: u64) -> u64
    recommends
        n >= 0x8000_0000_0000_0000,
{
    let head = n / 2048;
    let tail = n % 2048;
    let rounded: int = if tail > 1024 || (tail == 1024 && head % 2 == 1) {
        head + 1
    } else {
        head as int
    };
    (0x43e0_0000_0000_0000 + (rounded - 0x10_0000_0000_0000)) as u64
}

/// The parameter that rebinds a cell read from a database, or why the cell
/// cannot be rebound.
pub open spec fn parameter_of_cell(v: ValueView) -> Result<ParameterView, ErrorView> {
    match v {
        ValueView::Null => Ok(ParameterView::Null),
        ValueView::Bool(b) => Ok(ParameterView::Bool(b)),
        ValueView::Number(n) => match n {
            Number::PosInt(i) => if i <= i64::MAX {
                Ok(ParameterView::Integer(i as i64))
            } else {
                Ok(ParameterView::Real(nearest_real_bits(i)))
            },
            Number::NegInt(i) => Ok(ParameterView::Integer(i)),
            Number::Float(bits) => Ok(ParameterView::Real(bits)),
        },
        ValueView::Text(s) => Ok(ParameterView::Text(s)),
        ValueView::Array(_) => if crate::value::is_blob(v) {
            Ok(ParameterView::Blob(crate::value::blob_bytes(v)))
        } else {
            Err(crate::error::plain(AdapterErrorKind::Value, "SQLite blob byte is out of range"@))
        },
        ValueView::Object(_) => Err(
            crate::error::plain(
                AdapterErrorKind::Value,
                "SQLite row value cannot be restored as a parameter"@,
            ),
        ),
    }
}

impl Parameter {
    pub open spec fn view(self) -> ParameterView {
        match self {
            Parameter::Null => ParameterView::Null,
            Parameter::Bool(b) => ParameterView::Bool(b),
            Parameter::Integer(n) => ParameterView::Integer(n),
            Parameter::Real(bits) => ParameterView::Real(bits),
            Parameter::Text(s) => ParameterView::Text(s@),
            Parameter::Blob(bytes) => ParameterView::Blob(bytes@),
        }
    }

    /// The parameter as the JSON value that is sent to a remote service.
    pub fn to_value(&self) -> (r: Value)
        ensures
            r@ == self@.json(),
    {
        match self {
            Parameter::Null => Value::Null,
            Parameter::Bool(b) => Value::Bool(*b),
            Parameter::Integer(n) => Value::Number(Number::from_i64(*n)),
            Parameter::Real(bits) => match Number::from_real_bits(*bits) {
                Some(n) => Value::Number(n),
                None => Value::Null,
            },
            Parameter::Text(s) => Value::Text(s.clone()),
            Parameter::Blob(bytes) => Value::from_blob(bytes.as_slice()),
        }
    }

    /// The parameter that a JSON value stands for: a null, a boolean, a
    /// number or a string.
    pub fn from_json(value: &Value) -> (r: Option<Parameter>)
        ensures
            r is Some <==> parameter_of_json(value@) is Some,
            r is Some ==> r->Some_0@ == parameter_of_json(value@)->Some_0,
    {
        match value {
            Value::Null => Some(Parameter::Null),
            Value::Bool(b) => Some(Parameter::Bool(*b)),
            Value::Number(Number::PosInt(n)) => Some(Parameter::Integer(*n as i64)),
            Value::Number(Number::NegInt(n)) => Some(Parameter::Integer(*n)),
            Value::Number(Number::Float(bits)) => Some(Parameter::Real(*bits)),
            Value::Text(s) => Some(Parameter::Text(s.clone())),
            Value::Array(_) => None,
            Value::Object(_) => None,
        }
    }
}

fn nearest_real(n: u64) -> (r: u64)
    requires
        n >= 0x8000_0000_0000_0000,
    ensures
        r == nearest_real_bits(n),
{
    let head: u64 = n / 2048;
    let tail: u64 = n % 2048;
    let rounded: u64 = if tail > 1024 || (tail == 1024 && head % 2 == 1) {
        head + 1
    } else {
        head
    };
    0x43e0_0000_0000_0000 + (rounded - 0x10_0000_0000_0000)
}

/// The parameter that rebinds a cell read from a database.
pub fn parameter_from_value(value: Value) -> (r: Result<Parameter, DactylError>)
    ensures
        match parameter_of_cell(value@) {
            Ok(p) => r is Ok && r->Ok_0@ == p,
            Err(e) => r is Err && r->Err_0@ == e,
        },
{
    match value {
        Value::Null => Ok(Parameter::Null),
        Value::Bool(b) => Ok(Parameter::Bool(b)),
        Value::Number(n) => match n {
            Number::PosInt(i) => if i <= i64::MAX as u64 {
                Ok(Parameter::Integer(i as i64))
            } else {
                Ok(Parameter::Real(nearest_real(i)))
            },
            Number::NegInt(i) => Ok(Parameter::Integer(i)),
            Number::Float(bits) => Ok(Parameter::Real(bits)),
        },
        Value::Text(s) => Ok(Parameter::Text(s)),
        Value::Array(_) => match value.as_blob() {
            Some(bytes) => Ok(Parameter::Blob(bytes)),
            None => Err(
                DactylError::adapter(AdapterErrorKind::Value, "SQLite blob byte is out of range"),
            ),
        },
        Value::Object(_) => Err(
            DactylError::adapter(
                AdapterErrorKind::Value,
                "SQLite row value cannot be restored as a parameter",
            ),
        ),
    }
}

// ---------------------------------------------------------------------------
// Laws
// ---------------------------------------------------------------------------

/// A parameter other than a blob or a real that is not finite comes back from
/// its JSON form.
pub proof fn lemma_parameter_survives_json(p: ParameterView)
    requires
        !(p is Blob),
        p matches ParameterView::Real(bits) ==> crate::value::finite_bits(bits),
    ensures
        parameter_of_json(p.json()) == Some(p),
{
}

/// A parameter other than a real that is not finite comes back from the cell
/// that it is stored as, blobs included.
pub proof fn lemma_parameter_survives_storage(p: ParameterView)
    requires
        p matches ParameterView::Real(bits) ==> crate::value::finite_bits(bits),
    ensures
        parameter_of_cell(p.json()) == Ok::<ParameterView, ErrorView>(p),
{
    if let ParameterView::Blob(bytes) = p {
        crate::value::lemma_blob_round_trip(bytes);
    }
}

// ---------------------------------------------------------------------------
// Conversions
// ---------------------------------------------------------------------------

impl From<i64> for Parameter {
    fn from(v: i64) -> (r: Self) {
        Parameter::Integer(v)
    }
}

impl vstd::std_specs::convert::FromSpecImpl<i64> for Parameter {
    open spec fn obeys_from_spec() -> bool {
        true
    }

    open spec fn from_spec(v: i64) -> Self {
        Parameter::Integer(v)
    }
}

impl From<i32> for Parameter {
    fn from(v: i32) -> (r: Self) {
        Parameter::Integer(v as i64)
    }
}

impl vstd::std_specs::convert::FromSpecImpl<i32> for Parameter {
    open spec fn obeys_from_spec() -> bool {
        true
    }

    open spec fn from_spec(v: i32) -> Self {
        Parameter::Integer(v as i64)
    }
}

impl From<u32> for Parameter {
    fn from(v: u32) -> (r: Self) {
        Parameter::Integer(v as i64)
    }
}

impl vstd::std_specs::convert::FromSpecImpl<u32> for Parameter {
    open spec fn obeys_from_spec() -> bool {
        true
    }

    open spec fn from_spec(v: u32) -> Self {
        Parameter::Integer(v as i64)
    }
}

impl From<usize> for Parameter {
    fn from(v: usize) -> (r: Self) {
        Parameter::Integer(v as i64)
    }
}

impl vstd::std_specs::convert::FromSpecImpl<usize> for Parameter {
    open spec fn obeys_from_spec() -> bool {
        true
    }

    open spec fn from_spec(v: usize) -> Self {
        Parameter::Integer(v as i64)
    }
}

impl From<bool> for Parameter {
    fn from(v: bool) -> (r: Self) {
        Parameter::Bool(v)
    }
}

impl vstd::std_specs::convert::FromSpecImpl<bool> for Parameter {
    open spec fn obeys_from_spec() -> bool {
        true
    }

    open spec fn from_spec(v: bool) -> Self {
        Parameter::Bool(v)
    }
}

impl From<String> for Parameter {
    fn from(v: String) -> (r: Self) {
        Parameter::Text(v)
    }
}

impl vstd::std_specs::convert::FromSpecImpl<String> for Parameter {
    open spec fn obeys_from_spec() -> bool {
        true
    }

    open spec fn from_spec(v: String) -> Self {
        Parameter::Text(v)
    }
}

impl From<Vec<u8>> for Parameter {
    fn from(v: Vec<u8>) -> (r: Self) {
        Parameter::Blob(v)
    }
}

impl vstd::std_specs::convert::FromSpecImpl<Vec<u8>> for Parameter {
    open spec fn obeys_from_spec() -> bool {
        true
    }

    open spec fn from_spec(v: Vec<u8>) -> Self {
        Parameter::Blob(v)
    }
}

impl From<&str> for Parameter {
    fn from(v: &str) -> (r: Self)
        ensures
            r@ == ParameterView::Text(v@),
    {
        Parameter::Text(v.to_string())
    }
}

impl vstd::std_specs::convert::FromSpecImpl<&str> for Parameter {
    open spec fn obeys_from_spec() -> bool {
        false
    }

    open spec fn from_spec(v: &str) -> Self {
        arbitrary()
    }
}

impl From<Option<String>> for Parameter {
    fn from(v: Option<String>) -> (r: Self) {
        match v {
            Some(s) => Parameter::Text(s),
            None => Parameter::Null,
        }
    }
}

impl vstd::std_specs::convert::FromSpecImpl<Option<String>> for Parameter {
    open spec fn obeys_from_spec() -> bool {
        true
    }

    open spec fn from_spec(v: Option<String>) -> Self {
        match v {
            Some(s) => Parameter::Text(s),
            None => Parameter::Null,
        }
    }
}

impl From<Option<&str>> for Parameter {
    fn from(v: Option<&str>) -> (r: Self)
        ensures
            r@ == match v {
                Some(s) => ParameterView::Text(s@),
                None => ParameterView::Null,
            },
    {
        match v {
            Some(s) => Parameter::Text(s.to_string()),
            None => Parameter::Null,
        }
    }
}

impl vstd::std_specs::convert::FromSpecImpl<Option<&str>> for Parameter {
    open spec fn obeys_from_spec() -> bool {
        false
    }

    open spec fn from_spec(v: Option<&str>) -> Self {
        arbitrary()
    }
}

impl From<Option<i64>> for Parameter {
    fn from(v: Option<i64>) -> (r: Self) {
        match v {
            Some(i) => Parameter::Integer(i),
            None => Parameter::Null,
        }
    }
}

impl vstd::std_specs::convert::FromSpecImpl<Option<i64>> for Parameter {
    open spec fn obeys_from_spec() -> bool {
        true
    }

    open spec fn from_spec(v: Option<i64>) -> Self {
        match v {
            Some(i) => Parameter::Integer(i),
            None => Parameter::Null,
        }
    }
}

impl From<Option<bool>> for Parameter {
    fn from(v: Option<bool>) -> (r: Self) {
        match v {
            Some(b) => Parameter::Bool(b),
            None => Parameter::Null,
        }
    }
}

impl vstd::std_specs::convert::FromSpecImpl<Option<bool>> for Parameter {
    open spec fn obeys_from_spec() -> bool {
        true
    }

    open spec fn from_spec(v: Option<bool>) -> Self {
        match v {
            Some(b) => Parameter::Bool(b),
            None => Parameter::Null,
        }
    }
}

impl Parameter {
    /// A copy of the parameter.
    pub fn duplicate(&self) -> (r: Parameter)
        ensures
            r@ == self@,
    {
        match self {
            Parameter::Null => Parameter::Null,
            Parameter::Bool(b) => Parameter::Bool(*b),
            Parameter::Integer(n) => Parameter::Integer(*n),
            Parameter::Real(bits) => Parameter::Real(*bits),
            Parameter::Text(s) => Parameter::Text(s.clone()),
            Parameter::Blob(bytes) => {
                let copy: Vec<u8> = bytes.clone();
                assert(copy@ =~= bytes@);
                Parameter::Blob(copy)
            },
        }
    }
}

/// A copy of parameters.
pub fn duplicate_all(params: &[Parameter]) -> (r: Vec<Parameter>)
    ensures
        parameter_views(r@) == parameter_views(params@),
{
    let mut out: Vec<Parameter> = Vec::new();
    let mut i: usize = 0;
    while i < params.len()
        invariant
            i <= params@.len(),
            out@.len() == i,
            forall|k: int| 0 <= k < i ==> (#[trigger] out@[k])@ == params@[k]@,
        decreases params@.len() - i,
    {
        out.push(params[i].duplicate());
        i = i + 1;
    }
    assert(parameter_views(out@) =~= parameter_views(params@));
    out
}


/// What each parameter is sent as.
pub proof fn lemma_parameters_as_json(p: ParameterView)
    ensures
        match p {
            ParameterView::Null => p.json() is Null,
            ParameterView::Bool(b) => p.json() == ValueView::Bool(b),
            ParameterView::Integer(n) => p.json() is Number && p.json()->Number_0.integer() == Some(
                n,
            ),
            ParameterView::Real(bits) => if bits % 0x8000_0000_0000_0000 < 0x7ff0_0000_0000_0000 {
                p.json() == ValueView::Number(Number::Float(bits))
            } else {
                p.json() is Null
            },
            ParameterView::Text(s) => p.json() == ValueView::Text(s),
            ParameterView::Blob(b) => p.json() is Array && p.json()->Array_0.len() == b.len()
                && forall|i: int|
                0 <= i < b.len() ==> #[trigger] p.json()->Array_0[i] == ValueView::Number(
                    Number::PosInt(b[i] as u64),
                ),
        },
{
    if let ParameterView::Real(bits) = p {
        crate::value::lemma_finite_bits(bits);
    }
}

/// What each JSON value is bound as. An integer keeps its value; one beyond the
/// signed range loses its highest bit to the sign.
pub proof fn lemma_parameters_from_json(v: ValueView)
    ensures
        match v {
            ValueView::Null => parameter_of_json(v) == Some(ParameterView::Null),
            ValueView::Bool(b) => parameter_of_json(v) == Some(ParameterView::Bool(b)),
            ValueView::Number(Number::PosInt(n)) => parameter_of_json(v) is Some
                && parameter_of_json(v)->Some_0 is Integer && parameter_of_json(
                v,
            )->Some_0->Integer_0 == if n < 0x8000_0000_0000_0000 {
                n as int
            } else {
                n - 0x1_0000_0000_0000_0000
            },
            ValueView::Number(Number::NegInt(n)) => parameter_of_json(v) == Some(
                ParameterView::Integer(n),
            ),
            ValueView::Number(Number::Float(bits)) => parameter_of_json(v) == Some(
                ParameterView::Real(bits),
            ),
            ValueView::Text(s) => parameter_of_json(v) == Some(ParameterView::Text(s)),
            ValueView::Array(_) => parameter_of_json(v) is None,
            ValueView::Object(_) => parameter_of_json(v) is None,
        },
{
    if let ValueView::Number(Number::PosInt(n)) = v {
        if n >= 0x8000_0000_0000_0000 {
            assert(n as i64 == n - 0x1_0000_0000_0000_0000) by (bit_vector)
                requires
                    n >= 0x8000_0000_0000_0000,
            ;
        }
    }
}

/// An integer beyond the signed range is rebound as the nearest real, and as
/// the one with an even significand where two are as near.
pub proof fn lemma_nearest_real(n: u64)
    requires
        n >= 0x8000_0000_0000_0000,
    ensures
        ({
            let r = nearest_real_bits(n) as int;
            let exponent = r / 0x10_0000_0000_0000;
            let significand = 0x10_0000_0000_0000 + r % 0x10_0000_0000_0000;
            let unit = if exponent == 1086 {
                2048int
            } else {
                4096int
            };
            let value = significand * unit;
            &&& exponent == 1086 || exponent == 1087
            &&& -1024 <= value - n <= 1024
            &&& value - n == 1024 || value - n == -1024 ==> significand % 2 == 0
        }),
{
    let r = nearest_real_bits(n) as int;
    let head = n as int / 2048;
    let tail = n as int % 2048;
    let rounded = if tail > 1024 || (tail == 1024 && head % 2 == 1) {
        head + 1
    } else {
        head
    };
    assert(0x10_0000_0000_0000 <= head < 0x20_0000_0000_0000);
    assert(r == 0x43e0_0000_0000_0000 + (rounded - 0x10_0000_0000_0000));
    if rounded < 0x20_0000_0000_0000 {
        assert(r / 0x10_0000_0000_0000 == 1086);
        assert(r % 0x10_0000_0000_0000 == rounded - 0x10_0000_0000_0000);
        assert(rounded * 2048 - n == (rounded - head) * 2048 - tail);
    } else {
        assert(rounded == 0x20_0000_0000_0000);
        assert(r / 0x10_0000_0000_0000 == 1087);
        assert(r % 0x10_0000_0000_0000 == 0);
    }
}

/// What each cell is rebound as: itself, an integer beyond the signed range as
/// a real, and an array as the blob whose bytes it lists. An array of anything
/// else and an object are refused.
pub proof fn lemma_parameters_from_cells(v: ValueView)
    ensures
        match v {
            ValueView::Null => parameter_of_cell(v) == Ok::<ParameterView, ErrorView>(
                ParameterView::Null,
            ),
            ValueView::Bool(b) => parameter_of_cell(v) == Ok::<ParameterView, ErrorView>(
                ParameterView::Bool(b),
            ),
            ValueView::Number(Number::PosInt(n)) => if n < 0x8000_0000_0000_0000 {
                parameter_of_cell(v) == Ok::<ParameterView, ErrorView>(
                    ParameterView::Integer(n as i64),
                )
            } else {
                parameter_of_cell(v) == Ok::<ParameterView, ErrorView>(
                    ParameterView::Real(nearest_real_bits(n)),
                )
            },
            ValueView::Number(Number::NegInt(n)) => parameter_of_cell(v) == Ok::<
                ParameterView,
                ErrorView,
            >(ParameterView::Integer(n)),
            ValueView::Number(Number::Float(bits)) => parameter_of_cell(v) == Ok::<
                ParameterView,
                ErrorView,
            >(ParameterView::Real(bits)),
            ValueView::Text(s) => parameter_of_cell(v) == Ok::<ParameterView, ErrorView>(
                ParameterView::Text(s),
            ),
            ValueView::Array(_) => if crate::value::is_blob(v) {
                parameter_of_cell(v) == Ok::<ParameterView, ErrorView>(
                    ParameterView::Blob(crate::value::blob_bytes(v)),
                )
            } else {
                parameter_of_cell(v) is Err && parameter_of_cell(v)->Err_0.kind() == Some(
                    AdapterErrorKind::Value,
                )
            },
            ValueView::Object(_) => parameter_of_cell(v) is Err && parameter_of_cell(
                v,
            )->Err_0.kind() == Some(AdapterErrorKind::Value),
        },
{
}

} // verus!
