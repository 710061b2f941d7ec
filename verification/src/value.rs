//! The JSON value that a cell, a default or a context payload holds.
//!
//! A real number is held by its IEEE 754 bits, so that a value can be compared
//! and carried without any floating-point arithmetic.

use vstd::prelude::*;

use crate::text;

verus! {

/// A JSON number.
#[derive(Debug, Clone, Copy, PartialEq, Eq, Structural)]
pub enum Number {
    /// A non-negative integer.
    PosInt(u64),
    /// A negative integer.
    NegInt(i64),
    /// A finite real, by the bits of its double-precision form.
    Float(u64),
}

/// Whether the bits of a double-precision number are those of a finite one:
/// the eleven exponent bits are not all set.
pub open spec fn finite_bits(bits: u64) -> bool {
    (bits / 0x10_0000_0000_0000) % 0x800 != 0x7ff
}

impl Number {
    /// A number that JSON can write down.
    pub open spec fn wf(self) -> bool {
        match self {
            Number::PosInt(_) => true,
            Number::NegInt(n) => n < 0,
            Number::Float(bits) => finite_bits(bits),
        }
    }

    /// The JSON number of an integer.
    pub open spec fn of_int(n: i64) -> Number {
        if n < 0 {
            Number::NegInt(n)
        } else {
            Number::PosInt(n as u64)
        }
    }

    /// The number as a signed integer, if it is one.
    pub open spec fn integer(self) -> Option<i64> {
        match self {
            Number::PosInt(n) => if n <= i64::MAX {
                Some(n as i64)
            } else {
                None
            },
            Number::NegInt(n) => Some(n),
            Number::Float(_) => None,
        }
    }

    /// The number as messages show it. A real is shown by its bits.
    pub open spec fn shown(self) -> Seq<char> {
        match self {
            Number::PosInt(n) => text::decimal(n as nat),
            Number::NegInt(n) => text::signed_decimal(n as int),
            Number::Float(bits) => "real 0x"@ + text::hex(bits as nat, 16),
        }
    }

    /// The JSON number of an integer.
    pub fn from_i64(n: i64) -> (r: Number)
        ensures
            r == Number::of_int(n),
            r.wf(),
            r.integer() == Some(n),
    {
        if n < 0 {
            Number::NegInt(n)
        } else {
            Number::PosInt(n as u64)
        }
    }

    /// The JSON number of a real, which JSON has only where the real is
    /// finite.
    pub fn from_real_bits(bits: u64) -> (r: Option<Number>)
        ensures
            r == (if finite_bits(bits) {
                Some(Number::Float(bits))
            } else {
                None
            }),
            r is Some ==> r->Some_0.wf(),
    {
        if (bits / 0x10_0000_0000_0000) % 0x800 != 0x7ff {
            Some(Number::Float(bits))
        } else {
            None
        }
    }

    /// The number as a signed integer, if it is one.
    pub fn as_i64(&self) -> (r: Option<i64>)
        ensures
            r == self.integer(),
    {
        match self {
            Number::PosInt(n) => if *n <= i64::MAX as u64 {
                Some(*n as i64)
            } else {
                None
            },
            Number::NegInt(n) => Some(*n),
            Number::Float(_) => None,
        }
    }

    fn show(&self) -> (r: String)
        ensures
            r@ == self.shown(),
    {
        match self {
            Number::PosInt(n) => text::decimal_text(*n),
            Number::NegInt(n) => text::signed_decimal_text(*n),
            Number::Float(bits) => {
                "real 0x".to_string().concat(text::hex_text(*bits, 16).as_str())
            },
        }
    }
}

/// A JSON value. An object keeps its members in the order given.
#[derive(Debug, PartialEq, Eq)]
pub enum Value {
    Null,
    Bool(bool),
    Number(Number),
    Text(String),
    Array(Vec<Value>),
    Object(Vec<(String, Value)>),
}

/// What a [`Value`] says.
#[verifier::ext_equal]
pub ghost enum ValueView {
    Null,
    Bool(bool),
    Number(Number),
    Text(Seq<char>),
    Array(Seq<ValueView>),
    Object(Seq<(Seq<char>, ValueView)>),
}

/// Two parts with a comma between them, unless the first is empty.
pub open spec fn listed(head: Seq<char>, item: Seq<char>) -> Seq<char> {
    if head.len() == 0 {
        item
    } else {
        head + ", "@ + item
    }
}

/// The debug form of array items, separated by commas.
pub open spec fn items_shown(items: Seq<ValueView>) -> Seq<char>
    decreases items,
{
    if items.len() == 0 {
        Seq::empty()
    } else {
        listed(items_shown(items.drop_last()), items.last().shown())
    }
}

/// The debug form of object members, separated by commas.
pub open spec fn members_shown(members: Seq<(Seq<char>, ValueView)>) -> Seq<char>
    decreases members,
{
    if members.len() == 0 {
        Seq::empty()
    } else {
        listed(
            members_shown(members.drop_last()),
            text::debug_form(members.last().0) + ": "@ + members.last().1.shown(),
        )
    }
}

impl ValueView {
    /// The debug form of a value.
    pub open spec fn shown(self) -> Seq<char>
        decreases self,
    {
        match self {
            ValueView::Null => "Null"@,
            ValueView::Bool(b) => if b {
                "Bool(true)"@
            } else {
                "Bool(false)"@
            },
            ValueView::Number(n) => "Number("@ + n.shown() + ")"@,
            ValueView::Text(s) => "String("@ + text::debug_form(s) + ")"@,
            ValueView::Array(items) => "Array ["@ + items_shown(items) + "]"@,
            ValueView::Object(members) => "Object {"@ + members_shown(members) + "}"@,
        }
    }
}

/// What a sequence of values says.
pub open spec fn value_views(values: Seq<Value>) -> Seq<ValueView> {
    values.map_values(|v: Value| v@)
}

/// A blob as a JSON array of its bytes.
pub open spec fn blob_view(bytes: Seq<u8>) -> ValueView {
    ValueView::Array(bytes.map_values(|b: u8| ValueView::Number(Number::PosInt(b as u64))))
}

/// The byte that a value stands for, if it is a number from 0 to 255.
pub open spec fn byte_of(v: ValueView) -> Option<u8> {
    match v {
        ValueView::Number(Number::PosInt(n)) => if n <= 0xff {
            Some(n as u8)
        } else {
            None
        },
        _ => None,
    }
}

/// Whether a value is a JSON array of bytes.
pub open spec fn is_blob(v: ValueView) -> bool {
    v matches ValueView::Array(items) && forall|i: int|
        0 <= i < items.len() ==> byte_of(#[trigger] items[i]) is Some
}

/// The bytes of a JSON array of bytes.
pub open spec fn blob_bytes(v: ValueView) -> Seq<u8> {
    v->Array_0.map_values(|item: ValueView| byte_of(item)->Some_0)
}

/// A blob comes back from its JSON array byte for byte.
pub proof fn lemma_blob_round_trip(bytes: Seq<u8>)
    ensures
        is_blob(blob_view(bytes)),
        blob_bytes(blob_view(bytes)) == bytes,
{
    assert(blob_bytes(blob_view(bytes)) =~= bytes);
}

impl Value {
    pub open spec fn view(self) -> ValueView
        decreases self,
    {
        match self {
            Value::Null => ValueView::Null,
            Value::Bool(b) => ValueView::Bool(b),
            Value::Number(n) => ValueView::Number(n),
            Value::Text(s) => ValueView::Text(s@),
            Value::Array(items) => ValueView::Array(
                Seq::new(
                    items@.len(),
                    |i: int|
                        if 0 <= i < items@.len() {
                            items@[i].view()
                        } else {
                            ValueView::Null
                        },
                ),
            ),
            Value::Object(members) => ValueView::Object(
                Seq::new(
                    members@.len(),
                    |i: int|
                        if 0 <= i < members@.len() {
                            (members@[i].0@, members@[i].1.view())
                        } else {
                            (Seq::empty(), ValueView::Null)
                        },
                ),
            ),
        }
    }

    /// A copy of this value.
    pub fn duplicate(&self) -> (r: Value)
        ensures
            r@ == self@,
        decreases self,
    {
        match self {
            Value::Null => Value::Null,
            Value::Bool(b) => Value::Bool(*b),
            Value::Number(n) => Value::Number(*n),
            Value::Text(s) => Value::Text(s.clone()),
            Value::Array(items) => {
                let mut out: Vec<Value> = Vec::new();
                let mut i: usize = 0;
                while i < items.len()
                    invariant
                        i <= items.len(),
                        out@.len() == i,
                        forall|j: int| 0 <= j < i ==> (#[trigger] out@[j])@ == items@[j]@,
                        decreases_to!(self => items@),
                    decreases items.len() - i,
                {
                    assert(decreases_to!(items@ => items@[i as int]));
                    out.push(items[i].duplicate());
                    i = i + 1;
                }
                assert(Value::Array(out)@->Array_0 =~= self@->Array_0);
                Value::Array(out)
            },
            Value::Object(members) => {
                let mut out: Vec<(String, Value)> = Vec::new();
                let mut i: usize = 0;
                while i < members.len()
                    invariant
                        i <= members.len(),
                        out@.len() == i,
                        forall|j: int|
                            0 <= j < i ==> (#[trigger] out@[j]).0@ == members@[j].0@ && out@[j].1@
                                == members@[j].1@,
                        decreases_to!(self => members@),
                    decreases members.len() - i,
                {
                    assert(decreases_to!(members@ => members@[i as int]));
                    out.push((members[i].0.clone(), members[i].1.duplicate()));
                    i = i + 1;
                }
                assert(Value::Object(out)@->Object_0 =~= self@->Object_0);
                Value::Object(out)
            },
        }
    }

    /// Whether this is JSON `null`.
    pub fn is_null(&self) -> (r: bool)
        ensures
            r == (self@ is Null),
    {
        match self {
            Value::Null => true,
            _ => false,
        }
    }

    /// Whether this is a JSON object.
    pub fn is_object(&self) -> (r: bool)
        ensures
            r == (self@ is Object),
    {
        match self {
            Value::Object(_) => true,
            _ => false,
        }
    }

    /// The JSON array of a blob's bytes.
    pub fn from_blob(bytes: &[u8]) -> (r: Value)
        ensures
            r@ == blob_view(bytes@),
    {
        let mut items: Vec<Value> = Vec::new();
        let mut i: usize = 0;
        while i < bytes.len()
            invariant
                i <= bytes@.len(),
                items@.len() == i,
                forall|j: int|
                    0 <= j < i ==> #[trigger] items@[j] == Value::Number(
                        Number::PosInt(bytes@[j] as u64),
                    ),
            decreases bytes@.len() - i,
        {
            items.push(Value::Number(Number::PosInt(bytes[i] as u64)));
            i = i + 1;
        }
        proof {
            let made = Value::Array(items)@->Array_0;
            let want = blob_view(bytes@)->Array_0;
            assert forall|j: int| 0 <= j < made.len() implies made[j] == #[trigger] want[j] by {
                assert(items@[j]@ == ValueView::Number(Number::PosInt(bytes@[j] as u64)));
            }
            assert(made =~= want);
        }
        Value::Array(items)
    }

    /// The byte that this value stands for.
    pub fn as_byte(&self) -> (r: Option<u8>)
        ensures
            r == byte_of(self@),
    {
        match self {
            Value::Number(Number::PosInt(n)) => if *n <= 0xff {
                Some(*n as u8)
            } else {
                None
            },
            _ => None,
        }
    }

    /// The blob that a JSON array of bytes stands for.
    pub fn as_blob(&self) -> (r: Option<Vec<u8>>)
        ensures
            r is Some <==> is_blob(self@),
            r is Some ==> r->Some_0@ == blob_bytes(self@),
    {
        let items = match self {
            Value::Array(items) => items,
            _ => {
                return None;
            },
        };
        let mut out: Vec<u8> = Vec::new();
        let mut i: usize = 0;
        while i < items.len()
            invariant
                i <= items@.len(),
                self == Value::Array(*items),
                out@.len() == i,
                forall|j: int| 0 <= j < i ==> byte_of((#[trigger] items@[j])@) == Some(out@[j]),
            decreases items@.len() - i,
        {
            assert(self@->Array_0[i as int] == items@[i as int]@);
            match items[i].as_byte() {
                Some(byte) => {
                    out.push(byte);
                },
                None => {
                    return None;
                },
            }
            i = i + 1;
        }
        proof {
            assert forall|j: int| 0 <= j < self@->Array_0.len() implies byte_of(
                #[trigger] self@->Array_0[j],
            ) == Some(out@[j]) by {
                assert(self@->Array_0[j] == items@[j]@);
            }
            assert(out@ =~= blob_bytes(self@));
        }
        Some(out)
    }

    /// This value as messages show it.
    pub fn debug_text(&self) -> (r: String)
        ensures
            r@ == self@.shown(),
        decreases self,
    {
        match self {
            Value::Null => "Null".to_string(),
            Value::Bool(b) => if *b {
                "Bool(true)".to_string()
            } else {
                "Bool(false)".to_string()
            },
            Value::Number(n) => "Number(".to_string().concat(n.show().as_str()).concat(")"),
            Value::Text(s) => "String(".to_string().concat(
                text::debug_text(s.as_str()).as_str(),
            ).concat(")"),
            Value::Array(items) => {
                let ghost all = self@->Array_0;
                let mut body: String = String::new();
                let mut i: usize = 0;
                assert(all.take(0) =~= Seq::<ValueView>::empty());
                while i < items.len()
                    invariant
                        i <= items@.len(),
                        self == Value::Array(*items),
                        all == self@->Array_0,
                        body@ == items_shown(all.take(i as int)),
                        decreases_to!(self => items@),
                    decreases items@.len() - i,
                {
                    assert(decreases_to!(items@ => items@[i as int]));
                    let item: String = items[i].debug_text();
                    proof {
                        assert(all.take(i + 1).drop_last() =~= all.take(i as int));
                        assert(all.take(i + 1).last() == items@[i as int]@);
                    }
                    body = add_listed(body, item.as_str());
                    i = i + 1;
                }
                assert(all.take(i as int) =~= all);
                "Array [".to_string().concat(body.as_str()).concat("]")
            },
            Value::Object(members) => {
                let ghost all = self@->Object_0;
                let mut body: String = String::new();
                let mut i: usize = 0;
                assert(all.take(0) =~= Seq::<(Seq<char>, ValueView)>::empty());
                while i < members.len()
                    invariant
                        i <= members@.len(),
                        self == Value::Object(*members),
                        all == self@->Object_0,
                        body@ == members_shown(all.take(i as int)),
                        decreases_to!(self => members@),
                    decreases members@.len() - i,
                {
                    assert(decreases_to!(members@ => members@[i as int]));
                    let item: String = text::debug_text(members[i].0.as_str()).concat(
                        ": ",
                    ).concat(members[i].1.debug_text().as_str());
                    proof {
                        assert(all.take(i + 1).drop_last() =~= all.take(i as int));
                        assert(all.take(i + 1).last() == (
                            members@[i as int].0@,
                            members@[i as int].1@,
                        ));
                    }
                    body = add_listed(body, item.as_str());
                    i = i + 1;
                }
                assert(all.take(i as int) =~= all);
                "Object {".to_string().concat(body.as_str()).concat("}")
            },
        }
    }
}

fn add_listed(head: String, item: &str) -> (r: String)
    ensures
        r@ == listed(head@, item@),
{
    if head.as_str().is_empty() {
        item.to_string()
    } else {
        head.concat(", ").concat(item)
    }
}

impl Clone for Value {
    fn clone(&self) -> (r: Value)
        ensures
            r@ == self@,
    {
        self.duplicate()
    }
}

/// Which bits are those of a finite number: those whose magnitude lies below
/// infinity.
pub proof fn lemma_finite_bits(bits: u64)
    ensures
        finite_bits(bits) <==> bits % 0x8000_0000_0000_0000 < 0x7ff0_0000_0000_0000,
{
    assert(((bits / 0x10_0000_0000_0000) % 0x800 != 0x7ff) == (bits % 0x8000_0000_0000_0000
        < 0x7ff0_0000_0000_0000)) by (bit_vector);
}

/// An integer survives as a JSON number, whatever its sign; a number beyond
/// the signed range, and a real, is no integer.
pub proof fn lemma_integers_are_numbers(n: i64, large: u64, bits: u64)
    ensures
        Number::of_int(n).integer() == Some(n),
        n >= 0 ==> Number::of_int(n) == Number::PosInt(n as u64),
        n < 0 ==> Number::of_int(n) == Number::NegInt(n),
        large > 0x7fff_ffff_ffff_ffff ==> Number::PosInt(large).integer() is None,
        large <= 0x7fff_ffff_ffff_ffff ==> Number::PosInt(large).integer() is Some
            && Number::PosInt(large).integer()->Some_0 == large,
        Number::NegInt(n).integer() == Some(n),
        Number::Float(bits).integer() is None,
{
}

/// A value is a blob exactly where it is an array of numbers from 0 to 255,
/// and then those are its bytes.
pub proof fn lemma_blobs(v: ValueView)
    ensures
        is_blob(v) <==> exists|b: Seq<u8>|
            v == #[trigger] blob_view(b),
        forall|b: Seq<u8>| v == #[trigger] blob_view(b) ==> blob_bytes(v) == b,
        forall|b: Seq<u8>, i: int|
            0 <= i < b.len() ==> #[trigger] blob_view(b)->Array_0[i] == ValueView::Number(
                Number::PosInt(b[i] as u64),
            ),
{
    if is_blob(v) {
        let b = blob_bytes(v);
        assert forall|i: int| 0 <= i < v->Array_0.len() implies blob_view(b)->Array_0[i]
            == v->Array_0[i] by {
            assert(byte_of(v->Array_0[i]) is Some);
        }
        assert(blob_view(b)->Array_0 =~= v->Array_0);
        assert(v == blob_view(b));
    }
    assert forall|b: Seq<u8>| v == #[trigger] blob_view(b) implies blob_bytes(v) == b by {
        lemma_blob_round_trip(b);
    }
    if exists|b: Seq<u8>| v == #[trigger] blob_view(b) {
        let b = choose|b: Seq<u8>| v == #[trigger] blob_view(b);
        lemma_blob_round_trip(b);
    }
}

/// How messages show a value: by its kind and what it holds. The items of an
/// array and the members of an object stand in order with a comma and a blank
/// between neighbours, members behind their names. A real is shown by the
/// sixteen hexadecimal digits of its bits.
pub proof fn lemma_values_are_shown(
    items: Seq<ValueView>,
    members: Seq<(Seq<char>, ValueView)>,
    name: Seq<char>,
    v: ValueView,
    n: u64,
    i: i64,
)
    ensures
        ValueView::Null.shown() == "Null"@,
        ValueView::Bool(true).shown() == "Bool(true)"@,
        ValueView::Bool(false).shown() == "Bool(false)"@,
        ValueView::Text(name).shown() == "String("@ + text::debug_form(name) + ")"@,
        ValueView::Number(Number::PosInt(n)).shown() == "Number("@ + text::decimal(n as nat)
            + ")"@,
        i < 0 ==> ValueView::Number(Number::NegInt(i)).shown() == "Number("@ + (seq!['-']
            + text::decimal((-i) as nat)) + ")"@,
        ValueView::Number(Number::Float(n)).shown() == "Number("@ + ("real 0x"@ + text::hex(
            n as nat,
            16,
        )) + ")"@,
        ValueView::Array(Seq::empty()).shown() == "Array ["@ + Seq::<char>::empty() + "]"@,
        ValueView::Array(seq![v]).shown() == "Array ["@ + v.shown() + "]"@,
        ValueView::Object(Seq::empty()).shown() == "Object {"@ + Seq::<char>::empty() + "}"@,
        ValueView::Object(seq![(name, v)]).shown() == "Object {"@ + (text::debug_form(name)
            + ": "@ + v.shown()) + "}"@,
        items_shown(items).len() > 0 ==> items_shown(items.push(v)) == items_shown(items) + ", "@
            + v.shown(),
        members_shown(members).len() > 0 ==> members_shown(members.push((name, v)))
            == members_shown(members) + ", "@ + (text::debug_form(name) + ": "@ + v.shown()),
{
    assert(seq![v].drop_last() =~= Seq::<ValueView>::empty());
    assert(seq![(name, v)].drop_last() =~= Seq::<(Seq<char>, ValueView)>::empty());
    assert(items.push(v).drop_last() =~= items);
    assert(members.push((name, v)).drop_last() =~= members);
    assert(items_shown(Seq::empty()).len() == 0);
    assert(members_shown(Seq::empty()).len() == 0);
    assert(items_shown(seq![v]) == v.shown());
    assert(members_shown(seq![(name, v)]) == text::debug_form(name) + ": "@ + v.shown());
}

} // verus!
