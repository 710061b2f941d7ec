//! Numbers and texts in the bytes of a SQLite file.

use vstd::prelude::*;

use crate::error::{AdapterErrorKind, DactylError, ErrorView};
use crate::value::{Value, ValueView};

verus! {

// ---------------------------------------------------------------------------
// Errors
// ---------------------------------------------------------------------------

/// The error for bytes that are not a sound SQLite file.
pub open spec fn corrupted(message: Seq<char>) -> ErrorView {
    crate::error::coded(AdapterErrorKind::Storage, "corrupt_input"@, message)
}

/// The error for a value that a snapshot cannot hold.
pub open spec fn unsupported_value(message: Seq<char>) -> ErrorView {
    crate::error::coded(AdapterErrorKind::Value, "unsupported_value"@, message)
}

/// An adapter error with a code.
pub fn coded(kind: AdapterErrorKind, code: &str, message: &str) -> (r: DactylError)
    ensures
        r@ == crate::error::coded(kind, code@, message@),
{
    DactylError::adapter_with_code(kind, code, message)
}

/// The error for bytes that are not a sound SQLite file.
pub fn corrupt(message: &str) -> (r: DactylError)
    ensures
        r@ == corrupted(message@),
{
    coded(AdapterErrorKind::Storage, "corrupt_input", message)
}

// ---------------------------------------------------------------------------
// Big-endian integers
// ---------------------------------------------------------------------------

/// The number that bytes spell, most significant byte first.
pub open spec fn big_endian(b: Seq<u8>) -> nat
    decreases b.len(),
{
    if b.len() == 0 {
        0
    } else {
        big_endian(b.drop_last()) * 256 + b.last() as nat
    }
}

pub proof fn lemma_big_endian_bound(b: Seq<u8>)
    ensures
        b.len() == 2 ==> big_endian(b) < 0x1_0000,
        b.len() == 4 ==> big_endian(b) < 0x1_0000_0000,
        b.len() == 8 ==> big_endian(b) < 0x1_0000_0000_0000_0000,
{
    reveal_with_fuel(big_endian, 9);
}

/// The `width` bytes at `offset`, if the file has them.
pub open spec fn field(b: Seq<u8>, offset: int, width: int) -> Option<Seq<u8>> {
    if 0 <= offset && offset + width <= b.len() {
        Some(b.subrange(offset, offset + width))
    } else {
        None
    }
}

/// The two-byte integer at `offset`.
pub open spec fn u16_at(b: Seq<u8>, offset: int) -> Result<u16, ErrorView> {
    match field(b, offset, 2) {
        Some(f) => Ok(big_endian(f) as u16),
        None => Err(corrupted("SQLite u16 is truncated"@)),
    }
}

/// The four-byte integer at `offset`.
pub open spec fn u32_at(b: Seq<u8>, offset: int) -> Result<u32, ErrorView> {
    match field(b, offset, 4) {
        Some(f) => Ok(big_endian(f) as u32),
        None => Err(corrupted("SQLite u32 is truncated"@)),
    }
}

/// The eight-byte integer at `offset`.
pub open spec fn u64_at(b: Seq<u8>, offset: int) -> Result<u64, ErrorView> {
    match field(b, offset, 8) {
        Some(f) => Ok(big_endian(f) as u64),
        None => Err(corrupted("SQLite u64 is truncated"@)),
    }
}

fn read_field(b: &[u8], offset: usize, width: usize) -> (r: Option<u64>)
    requires
        width <= 8,
    ensures
        match field(b@, offset as int, width as int) {
            Some(f) => r is Some && r->Some_0 == big_endian(f),
            None => r is None,
        },
{
    if offset > b.len() || b.len() - offset < width {
        return None;
    }
    let ghost all = b@.subrange(offset as int, offset + width);
    let mut value: u64 = 0;
    let mut i: usize = 0;
    assert(all.take(0) =~= Seq::<u8>::empty());
    let ghost mut limit: nat = 1;
    proof {
        vstd::arithmetic::power::lemma_pow0(256);
    }
    while i < width
        invariant
            i <= width <= 8,
            offset + width <= b@.len() <= usize::MAX,
            all == b@.subrange(offset as int, offset + width),
            value == big_endian(all.take(i as int)),
            value < limit,
            limit == vstd::arithmetic::power::pow(256, i as nat),
        decreases width - i,
    {
        proof {
            assert(all.take(i + 1).drop_last() =~= all.take(i as int));
            assert(all.take(i + 1).last() == b@[offset + i]);
            vstd::arithmetic::power::lemma_pow_increases(256, i as nat, 7);
            assert(vstd::arithmetic::power::pow(256, 7) == 0x100_0000_0000_0000) by {
                reveal_with_fuel(vstd::arithmetic::power::pow, 8);
            }
            assert(vstd::arithmetic::power::pow(256, (i + 1) as nat) == 256
                * vstd::arithmetic::power::pow(256, i as nat)) by {
                reveal_with_fuel(vstd::arithmetic::power::pow, 2);
            }
            limit = 256 * limit;
        }
        value = value * 256 + b[offset + i] as u64;
        i = i + 1;
    }
    assert(all.take(i as int) =~= all);
    Some(value)
}

/// The two-byte integer at `offset`.
pub fn read_u16(bytes: &[u8], offset: usize) -> (r: Result<u16, DactylError>)
    ensures
        match u16_at(bytes@, offset as int) {
            Ok(v) => r is Ok && r->Ok_0 == v,
            Err(e) => r is Err && r->Err_0@ == e,
        },
{
    proof {
        if let Some(f) = field(bytes@, offset as int, 2) {
            lemma_big_endian_bound(f);
        }
    }
    match read_field(bytes, offset, 2) {
        Some(v) => Ok(v as u16),
        None => Err(corrupt("SQLite u16 is truncated")),
    }
}

/// The four-byte integer at `offset`.
pub fn read_u32(bytes: &[u8], offset: usize) -> (r: Result<u32, DactylError>)
    ensures
        match u32_at(bytes@, offset as int) {
            Ok(v) => r is Ok && r->Ok_0 == v,
            Err(e) => r is Err && r->Err_0@ == e,
        },
{
    proof {
        if let Some(f) = field(bytes@, offset as int, 4) {
            lemma_big_endian_bound(f);
        }
    }
    match read_field(bytes, offset, 4) {
        Some(v) => Ok(v as u32),
        None => Err(corrupt("SQLite u32 is truncated")),
    }
}

/// The eight-byte integer at `offset`.
pub fn read_u64(bytes: &[u8], offset: usize) -> (r: Result<u64, DactylError>)
    ensures
        match u64_at(bytes@, offset as int) {
            Ok(v) => r is Ok && r->Ok_0 == v,
            Err(e) => r is Err && r->Err_0@ == e,
        },
{
    match read_field(bytes, offset, 8) {
        Some(v) => Ok(v),
        None => Err(corrupt("SQLite u64 is truncated")),
    }
}

// ---------------------------------------------------------------------------
// Variable-length integers
// ---------------------------------------------------------------------------

/// The variable-length integer whose first `index` bytes have been read from
/// `start` into `head`, with the number of bytes that it takes. Every byte but
/// the ninth gives seven bits and says whether another follows; the ninth
/// gives eight.
pub open spec fn varint_rest(b: Seq<u8>, start: int, index: int, head: int) -> Result<
    (int, int),
    ErrorView,
>
    decreases 9 - index,
{
    if start < 0 || start + index >= b.len() {
        Err(corrupted("SQLite varint is truncated"@))
    } else {
        let byte = b[start + index];
        if index >= 8 {
            Ok((head * 256 + byte as int, 9))
        } else if byte < 0x80 {
            Ok((head * 128 + byte as int, index + 1))
        } else {
            varint_rest(b, start, index + 1, head * 128 + (byte - 0x80))
        }
    }
}

/// The variable-length integer at `start`, with the number of bytes that it
/// takes.
pub open spec fn varint_at(b: Seq<u8>, start: int) -> Result<(int, int), ErrorView> {
    varint_rest(b, start, 0, 0)
}

/// A variable-length integer takes one to nine bytes of the file and fits in
/// 64 bits.
pub proof fn lemma_varint_bounds(b: Seq<u8>, start: int)
    requires
        0 <= start,
    ensures
        varint_at(b, start) matches Ok((value, taken)) ==> 0 <= value <= u64::MAX && 1 <= taken
            <= 9 && start + taken <= b.len(),
{
    vstd::arithmetic::power::lemma_pow0(128);
    lemma_varint_rest_bounds(b, start, 0, 0);
}

proof fn lemma_varint_rest_bounds(b: Seq<u8>, start: int, index: int, head: int)
    requires
        0 <= start,
        0 <= index <= 8,
        0 <= head < vstd::arithmetic::power::pow(128, index as nat),
    ensures
        varint_rest(b, start, index, head) matches Ok((value, taken)) ==> 0 <= value <= u64::MAX
            && 1 <= taken <= 9 && start + taken <= b.len(),
    decreases 9 - index,
{
    vstd::arithmetic::power::lemma_pow_increases(128, index as nat, 8);
    assert(vstd::arithmetic::power::pow(128, 8) == 0x100_0000_0000_0000) by {
        reveal_with_fuel(vstd::arithmetic::power::pow, 9);
    }
    if start + index < b.len() && index < 8 && b[start + index] >= 0x80 {
        assert(vstd::arithmetic::power::pow(128, (index + 1) as nat) == 128
            * vstd::arithmetic::power::pow(128, index as nat)) by {
            reveal_with_fuel(vstd::arithmetic::power::pow, 2);
        }
        lemma_varint_rest_bounds(b, start, index + 1, head * 128 + (b[start + index] - 0x80));
    } else if index < 8 {
        vstd::arithmetic::power::lemma_pow_increases(128, index as nat, 7);
        assert(vstd::arithmetic::power::pow(128, 7) == 0x2_0000_0000_0000) by {
            reveal_with_fuel(vstd::arithmetic::power::pow, 8);
        }
    }
}

/// The variable-length integer at `start`, with the number of bytes that it
/// takes.
pub fn read_varint(bytes: &[u8], start: usize) -> (r: Result<(u64, usize), DactylError>)
    ensures
        match varint_at(bytes@, start as int) {
            Ok((value, taken)) => r is Ok && r->Ok_0.0 == value && r->Ok_0.1 == taken && 1 <= taken
                <= 9 && start + taken <= bytes@.len(),
            Err(e) => r is Err && r->Err_0@ == e,
        },
{
    let mut value: u64 = 0;
    let mut index: usize = 0;
    proof {
        lemma_varint_bounds(bytes@, start as int);
        vstd::arithmetic::power::lemma_pow0(128);
    }
    loop
        invariant
            index <= 8,
            value < vstd::arithmetic::power::pow(128, index as nat),
            varint_rest(bytes@, start as int, index as int, value as int) == varint_at(
                bytes@,
                start as int,
            ),
            varint_at(bytes@, start as int) matches Ok((value, taken)) ==> 1 <= taken <= 9 && start
                + taken <= bytes@.len(),
        decreases 9 - index,
    {
        if start >= bytes.len() || bytes.len() - start <= index {
            return Err(corrupt("SQLite varint is truncated"));
        }
        let byte: u8 = bytes[start + index];
        proof {
            vstd::arithmetic::power::lemma_pow_increases(128, index as nat, 8);
            assert(vstd::arithmetic::power::pow(128, 8) == 0x100_0000_0000_0000) by {
                reveal_with_fuel(vstd::arithmetic::power::pow, 9);
            }
        }
        if index == 8 {
            return Ok((value * 256 + byte as u64, 9));
        }
        proof {
            vstd::arithmetic::power::lemma_pow_increases(128, index as nat, 7);
            assert(vstd::arithmetic::power::pow(128, 7) == 0x2_0000_0000_0000) by {
                reveal_with_fuel(vstd::arithmetic::power::pow, 8);
            }
            assert(vstd::arithmetic::power::pow(128, (index + 1) as nat) == 128
                * vstd::arithmetic::power::pow(128, index as nat)) by {
                reveal_with_fuel(vstd::arithmetic::power::pow, 2);
            }
        }
        if byte < 0x80 {
            return Ok((value * 128 + byte as u64, index + 1));
        }
        value = value * 128 + (byte - 0x80) as u64;
        index = index + 1;
    }
}

// ---------------------------------------------------------------------------
// Signed integers
// ---------------------------------------------------------------------------

/// Half the range of the signed integer that a serial type stands for, where
/// it is narrower than 64 bits.
pub open spec fn half_range(serial_type: int) -> Option<int> {
    if serial_type == 1 {
        Some(0x80)
    } else if serial_type == 2 {
        Some(0x8000)
    } else if serial_type == 3 {
        Some(0x80_0000)
    } else if serial_type == 4 {
        Some(0x8000_0000)
    } else if serial_type == 5 {
        Some(0x8000_0000_0000)
    } else {
        None
    }
}

/// The signed integer that bytes spell for a serial type: two's complement in
/// the type's width. Of more than eight bytes the last eight count.
pub open spec fn signed_value(b: Seq<u8>, serial_type: int) -> int {
    let v = (big_endian(b) % 0x1_0000_0000_0000_0000) as int;
    match half_range(serial_type) {
        Some(half) => if (v / half) % 2 == 1 {
            v % (2 * half) - 2 * half
        } else if v < 0x8000_0000_0000_0000 {
            v
        } else {
            v - 0x1_0000_0000_0000_0000
        },
        None => if v < 0x8000_0000_0000_0000 {
            v
        } else {
            v - 0x1_0000_0000_0000_0000
        },
    }
}

/// The number of bytes that an integer serial type takes.
pub open spec fn integer_bytes(serial_type: int) -> int {
    if serial_type == 5 {
        6
    } else if serial_type == 6 {
        8
    } else {
        serial_type
    }
}

/// Bytes of just the type's width spell the integer's two's complement: the
/// result is in the signed range of that width and is the unsigned number, or
/// that number less the whole range.
pub proof fn lemma_signed_value_is_twos_complement(b: Seq<u8>, serial_type: int)
    requires
        1 <= serial_type <= 6,
        b.len() == integer_bytes(serial_type),
    ensures
        ({
            let half = match half_range(serial_type) {
                Some(half) => half,
                None => 0x8000_0000_0000_0000,
            };
            let v = signed_value(b, serial_type);
            &&& -half <= v < half
            &&& v == big_endian(b) || v == big_endian(b) - 2 * half
        }),
{
    let n = big_endian(b);
    assert(n < 0x1_0000_0000_0000_0000 && (b.len() == 1 ==> n < 0x100) && (b.len() == 2 ==> n
        < 0x1_0000) && (b.len() == 3 ==> n < 0x100_0000) && (b.len() == 4 ==> n < 0x1_0000_0000)
        && (b.len() == 6 ==> n < 0x1_0000_0000_0000)) by {
        reveal_with_fuel(big_endian, 9);
    }
    if let Some(half) = half_range(serial_type) {
        let v = n as int;
        vstd::arithmetic::div_mod::lemma_small_mod(n, (2 * half) as nat);
        if v < half {
            vstd::arithmetic::div_mod::lemma_fundamental_div_mod_converse(v, half, 0, v);
        } else {
            vstd::arithmetic::div_mod::lemma_fundamental_div_mod_converse(v, half, 1, v - half);
        }
    }
}

fn half_of(serial_type: usize) -> (r: Option<u64>)
    ensures
        match half_range(serial_type as int) {
            Some(half) => r is Some && r->Some_0 == half,
            None => r is None,
        },
        r is Some ==> 0x80 <= r->Some_0 <= 0x8000_0000_0000,
{
    if serial_type == 1 {
        Some(0x80)
    } else if serial_type == 2 {
        Some(0x8000)
    } else if serial_type == 3 {
        Some(0x80_0000)
    } else if serial_type == 4 {
        Some(0x8000_0000)
    } else if serial_type == 5 {
        Some(0x8000_0000_0000)
    } else {
        None
    }
}

/// The signed integer that bytes spell for a serial type.
pub fn signed_integer(bytes: &[u8], serial_type: usize) -> (r: i64)
    ensures
        r == signed_value(bytes@, serial_type as int),
{
    let mut value: u64 = 0;
    let mut i: usize = 0;
    assert(bytes@.take(0) =~= Seq::<u8>::empty());
    while i < bytes.len()
        invariant
            i <= bytes@.len(),
            value == big_endian(bytes@.take(i as int)) % 0x1_0000_0000_0000_0000,
        decreases bytes@.len() - i,
    {
        proof {
            assert(bytes@.take(i + 1).drop_last() =~= bytes@.take(i as int));
            assert(bytes@.take(i + 1).last() == bytes@[i as int]);
            lemma_shifted(big_endian(bytes@.take(i as int)), bytes@[i as int]);
        }
        value = (value % 0x100_0000_0000_0000) * 256 + bytes[i] as u64;
        i = i + 1;
    }
    assert(bytes@.take(i as int) =~= bytes@);
    if let Some(half) = half_of(serial_type) {
        if (value / half) % 2 == 1 {
            let full: u64 = 2 * half;
            return (value % full) as i64 - full as i64;
        }
    }
    if value < 0x8000_0000_0000_0000 {
        value as i64
    } else {
        (value - 0x8000_0000_0000_0000) as i64 + i64::MIN
    }
}

proof fn lemma_shifted(x: nat, b: u8)
    ensures
        (x * 256 + b as nat) % 0x1_0000_0000_0000_0000 == ((x % 0x1_0000_0000_0000_0000)
            % 0x100_0000_0000_0000) * 256 + b as nat,
{
    let q = x / 0x1_0000_0000_0000_0000;
    let r = x % 0x1_0000_0000_0000_0000;
    let q2 = r / 0x100_0000_0000_0000;
    let s = r % 0x100_0000_0000_0000;
    assert(x == q * 0x1_0000_0000_0000_0000 + q2 * 0x100_0000_0000_0000 + s);
    let low = s * 256 + b as nat;
    assert(x * 256 + b as nat == (q * 256 + q2) * 0x1_0000_0000_0000_0000 + low);
    vstd::arithmetic::div_mod::lemma_fundamental_div_mod_converse(
        (x * 256 + b as nat) as int,
        0x1_0000_0000_0000_0000,
        (q * 256 + q2) as int,
        low as int,
    );
}

// ---------------------------------------------------------------------------
// Texts
// ---------------------------------------------------------------------------

/// How a database stores its texts.
#[derive(Debug, Clone, Copy, PartialEq, Eq, Structural)]
pub enum TextEncoding {
    Utf8,
    Utf16Le,
    Utf16Be,
}

/// The text that UTF-16 code units spell, if they spell one: a unit outside
/// the surrogate range is a character, a high surrogate followed by a low one
/// is a character beyond the basic plane, and any other surrogate is an error.
pub open spec fn utf16_text(units: Seq<u16>) -> Option<Seq<char>>
    decreases units.len(),
{
    if units.len() == 0 {
        Some(Seq::empty())
    } else if !(0xd800 <= units[0] <= 0xdfff) {
        match utf16_text(units.skip(1)) {
            Some(rest) => Some(seq![units[0] as char] + rest),
            None => None,
        }
    } else if units.len() > 1 && units[0] <= 0xdbff && 0xdc00 <= units[1] <= 0xdfff {
        match utf16_text(units.skip(2)) {
            Some(rest) => Some(
                seq![(0x1_0000 + (units[0] - 0xd800) * 0x400 + (units[1] - 0xdc00)) as char] + rest,
            ),
            None => None,
        }
    } else {
        None
    }
}

/// The code units that pairs of bytes spell.
pub open spec fn code_units(b: Seq<u8>, little_endian: bool) -> Seq<u16> {
    Seq::new(
        b.len() / 2,
        |i: int|
            if little_endian {
                (b[2 * i + 1] * 256 + b[2 * i]) as u16
            } else {
                (b[2 * i] * 256 + b[2 * i + 1]) as u16
            },
    )
}

/// The text that UTF-16 bytes spell.
pub open spec fn utf16_decoded(b: Seq<u8>, little_endian: bool) -> Result<Seq<char>, ErrorView> {
    if b.len() % 2 != 0 {
        Err(unsupported_value("SQLite UTF-16 text has an odd byte length"@))
    } else {
        match utf16_text(code_units(b, little_endian)) {
            Some(s) => Ok(s),
            None => Err(unsupported_value("SQLite UTF-16 text is invalid"@)),
        }
    }
}

/// The text that bytes spell in an encoding.
pub open spec fn decoded_text(b: Seq<u8>, encoding: TextEncoding) -> Result<Seq<char>, ErrorView> {
    match encoding {
        TextEncoding::Utf8 => if vstd::utf8::valid_utf8(b) {
            Ok(vstd::utf8::decode_utf8(b))
        } else {
            Err(unsupported_value("SQLite text is not valid UTF-8"@))
        },
        TextEncoding::Utf16Le => utf16_decoded(b, true),
        TextEncoding::Utf16Be => utf16_decoded(b, false),
    }
}

/// What std's `Utf8Error` says of bytes that are not valid UTF-8.
pub uninterp spec fn utf8_fault(b: Seq<u8>) -> Seq<char>;

/// `std::str::from_utf8`: a text exactly where the bytes are valid UTF-8, and
/// then the text with those bytes. The error's text depends on the bytes
/// alone; `utf8_fault` names it.
#[verifier::external_body]
pub(crate) fn text_from_utf8(bytes: &[u8]) -> (r: Result<String, String>)
    ensures
        r is Ok <==> vstd::utf8::valid_utf8(bytes@),
        r is Ok ==> r->Ok_0@ == vstd::utf8::decode_utf8(bytes@),
        r is Err ==> r->Err_0@ == utf8_fault(bytes@),
{
    match std::str::from_utf8(bytes) {
        Ok(text) => Ok(text.to_owned()),
        Err(error) => Err(error.to_string()),
    }
}

/// `String::from_utf16`: the text that code units spell, and an error where
/// they hold an unpaired surrogate.
#[verifier::external_body]
fn text_from_utf16(units: &[u16]) -> (r: Option<String>)
    ensures
        r is Some <==> utf16_text(units@) is Some,
        r is Some ==> r->Some_0@ == utf16_text(units@)->Some_0,
{
    match String::from_utf16(units) {
        Ok(text) => Some(text),
        Err(_) => None,
    }
}

/// The text that UTF-16 bytes spell.
pub fn decode_utf16(bytes: &[u8], little_endian: bool) -> (r: Result<String, DactylError>)
    ensures
        match utf16_decoded(bytes@, little_endian) {
            Ok(s) => r is Ok && r->Ok_0@ == s,
            Err(e) => r is Err && r->Err_0@ == e,
        },
{
    if bytes.len() % 2 != 0 {
        return Err(
            coded(
                AdapterErrorKind::Value,
                "unsupported_value",
                "SQLite UTF-16 text has an odd byte length",
            ),
        );
    }
    let mut units: Vec<u16> = Vec::new();
    let mut i: usize = 0;
    while i < bytes.len()
        invariant
            i <= bytes@.len(),
            i % 2 == 0,
            bytes@.len() % 2 == 0,
            units@ == code_units(bytes@.take(i as int), little_endian),
        decreases bytes@.len() - i,
    {
        let first: u16 = bytes[i] as u16;
        let second: u16 = bytes[i + 1] as u16;
        units.push(
            if little_endian {
                second * 256 + first
            } else {
                first * 256 + second
            },
        );
        assert(units@ =~= code_units(bytes@.take(i + 2), little_endian));
        i = i + 2;
    }
    assert(bytes@.take(i as int) =~= bytes@);
    match text_from_utf16(units.as_slice()) {
        Some(s) => Ok(s),
        None => Err(
            coded(
                AdapterErrorKind::Value,
                "unsupported_value",
                "SQLite UTF-16 text is invalid",
            ),
        ),
    }
}

/// The cell that the bytes of a text make. Bytes that do not spell a text are
/// refused; none are replaced.
pub fn decode_text(bytes: &[u8], encoding: TextEncoding) -> (r: Result<Value, DactylError>)
    ensures
        match decoded_text(bytes@, encoding) {
            Ok(s) => r is Ok && r->Ok_0@ == ValueView::Text(s),
            Err(e) => r is Err && r->Err_0@ == e,
        },
{
    let text: Result<String, DactylError> = match encoding {
        TextEncoding::Utf8 => match text_from_utf8(bytes) {
            Ok(s) => Ok(s),
            Err(_) => Err(
                coded(
                    AdapterErrorKind::Value,
                    "unsupported_value",
                    "SQLite text is not valid UTF-8",
                ),
            ),
        },
        TextEncoding::Utf16Le => decode_utf16(bytes, true),
        TextEncoding::Utf16Be => decode_utf16(bytes, false),
    };
    match text {
        Ok(s) => Ok(Value::Text(s)),
        Err(e) => Err(e),
    }
}

} // verus!
