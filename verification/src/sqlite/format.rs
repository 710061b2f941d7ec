//! The SQLite file format from the side of the writer, and what reading gives
//! back of what was written.

use vstd::prelude::*;

use crate::error::ErrorView;
use crate::sqlite::bytes;
use crate::sqlite::bytes::TextEncoding;
use crate::sqlite::reader;
use crate::value::{Number, ValueView};

verus! {

// ---------------------------------------------------------------------------
// Integers
// ---------------------------------------------------------------------------

/// How many numbers `width` bytes can write down.
pub open spec fn span(width: nat) -> nat
    decreases width,
{
    if width == 0 {
        1
    } else {
        256 * span((width - 1) as nat)
    }
}

/// A number in `width` bytes, most significant byte first.
pub open spec fn written(n: nat, width: nat) -> Seq<u8>
    decreases width,
{
    if width == 0 {
        Seq::empty()
    } else {
        written(n / 256, (width - 1) as nat).push((n % 256) as u8)
    }
}

/// The two's complement of a number in `width` bytes.
pub open spec fn complement(n: int, width: nat) -> Seq<u8> {
    written((if n < 0 {
        n + span(width)
    } else {
        n
    }) as nat, width)
}

proof fn lemma_written_len(n: nat, width: nat)
    ensures
        written(n, width).len() == width,
    decreases width,
{
    if width > 0 {
        lemma_written_len(n / 256, (width - 1) as nat);
    }
}

/// A number that is written most significant byte first reads back.
pub proof fn lemma_written_number_reads_back(n: nat, width: nat)
    requires
        n < span(width),
    ensures
        written(n, width).len() == width,
        bytes::big_endian(written(n, width)) == n,
    decreases width,
{
    lemma_written_len(n, width);
    if width > 0 {
        let head = written(n / 256, (width - 1) as nat);
        lemma_written_number_reads_back(n / 256, (width - 1) as nat);
        assert(written(n, width).drop_last() =~= head);
    }
}

proof fn lemma_spans()
    ensures
        span(0) == 1,
        span(1) == 0x100,
        span(2) == 0x1_0000,
        span(3) == 0x100_0000,
        span(4) == 0x1_0000_0000,
        span(6) == 0x1_0000_0000_0000,
        span(8) == 0x1_0000_0000_0000_0000,
{
    reveal_with_fuel(span, 9);
}

/// A field of two, four or eight bytes in which a number is written reads as
/// that number, wherever it stands.
pub proof fn lemma_written_field_reads_back(b: Seq<u8>, offset: int, n: nat)
    requires
        0 <= offset,
    ensures
        n < 0x1_0000 && offset + 2 <= b.len() && b.subrange(offset, offset + 2) == written(n, 2)
            ==> bytes::u16_at(b, offset) == Ok::<u16, ErrorView>(n as u16),
        n < 0x1_0000_0000 && offset + 4 <= b.len() && b.subrange(offset, offset + 4) == written(
            n,
            4,
        ) ==> bytes::u32_at(b, offset) == Ok::<u32, ErrorView>(n as u32),
        n < 0x1_0000_0000_0000_0000 && offset + 8 <= b.len() && b.subrange(offset, offset + 8)
            == written(n, 8) ==> bytes::u64_at(b, offset) == Ok::<u64, ErrorView>(n as u64),
{
    lemma_spans();
    if n < 0x1_0000 {
        lemma_written_number_reads_back(n, 2);
    }
    if n < 0x1_0000_0000 {
        lemma_written_number_reads_back(n, 4);
    }
    if n < 0x1_0000_0000_0000_0000 {
        lemma_written_number_reads_back(n, 8);
    }
}

// ---------------------------------------------------------------------------
// Variable-length integers
// ---------------------------------------------------------------------------

/// How many numbers `count` groups of seven bits can write down.
pub open spec fn group_span(count: nat) -> nat
    decreases count,
{
    if count == 0 {
        1
    } else {
        128 * group_span((count - 1) as nat)
    }
}

/// A number in groups of seven bits, each with the mark that another byte
/// follows.
pub open spec fn marked_groups(n: nat, count: nat) -> Seq<u8>
    decreases count,
{
    if count == 0 {
        Seq::empty()
    } else {
        marked_groups(n / 128, (count - 1) as nat).push((0x80 + n % 128) as u8)
    }
}

/// Whether a number can be written as a variable-length integer of `len`
/// bytes.
pub open spec fn varint_fits(n: nat, len: nat) -> bool {
    if len == 9 {
        n < 0x1_0000_0000_0000_0000
    } else {
        1 <= len <= 8 && n < group_span(len)
    }
}

/// A number as a variable-length integer of `len` bytes: groups of seven bits,
/// all but the last with a mark; a ninth byte holds eight bits.
pub open spec fn varint(n: nat, len: nat) -> Seq<u8> {
    if len == 9 {
        marked_groups(n / 256, 8).push((n % 256) as u8)
    } else {
        marked_groups(n / 128, (len - 1) as nat).push((n % 128) as u8)
    }
}

proof fn lemma_groups_len(n: nat, count: nat)
    ensures
        marked_groups(n, count).len() == count,
    decreases count,
{
    if count > 0 {
        lemma_groups_len(n / 128, (count - 1) as nat);
    }
}

/// A variable-length integer takes as many bytes as it is written in.
pub proof fn lemma_varint_len(n: nat, len: nat)
    requires
        1 <= len <= 9,
    ensures
        varint(n, len).len() == len,
{
    lemma_groups_len(n / 256, 8);
    lemma_groups_len(n / 128, (len - 1) as nat);
}

proof fn lemma_groups_read(b: Seq<u8>, start: int, n: nat, count: nat)
    requires
        0 <= start,
        count <= 8,
        n < group_span(count),
        start + count <= b.len(),
        b.subrange(start, start + count) == marked_groups(n, count),
    ensures
        bytes::varint_rest(b, start, 0, 0) == bytes::varint_rest(b, start, count as int, n as int),
    decreases count,
{
    if count > 0 {
        let less = (count - 1) as nat;
        let groups = marked_groups(n, count);
        lemma_groups_len(n / 128, less);
        assert(b.subrange(start, start + less) =~= groups.drop_last());
        assert(groups.drop_last() =~= marked_groups(n / 128, less));
        lemma_groups_read(b, start, n / 128, less);
        assert(b[start + less] == groups[less as int]);
    }
}

/// A variable-length integer reads back, with the number of its bytes.
pub proof fn lemma_varint_reads_back(b: Seq<u8>, start: int, n: nat, len: nat)
    requires
        0 <= start,
        varint_fits(n, len),
        start + len <= b.len(),
        b.subrange(start, start + len) == varint(n, len),
    ensures
        bytes::varint_at(b, start) == Ok::<(int, int), ErrorView>((n as int, len as int)),
{
    let less = (len - 1) as nat;
    let whole = varint(n, len);
    lemma_varint_len(n, len);
    let head = if len == 9 {
        n / 256
    } else {
        n / 128
    };
    assert(group_span(8) == 0x100_0000_0000_0000) by {
        reveal_with_fuel(group_span, 9);
    }
    assert(b.subrange(start, start + less) =~= whole.drop_last());
    assert(whole.drop_last() =~= marked_groups(head, less));
    lemma_groups_read(b, start, head, less);
    assert(b[start + less] == whole[less as int]);
}

// ---------------------------------------------------------------------------
// Texts
// ---------------------------------------------------------------------------

/// The UTF-16 code units of a character.
pub open spec fn char_units(c: char) -> Seq<u16> {
    let n = c as u32;
    if n < 0x1_0000 {
        seq![n as u16]
    } else {
        seq![
            (0xd800 + (n - 0x1_0000) / 0x400) as u16,
            (0xdc00 + (n - 0x1_0000) % 0x400) as u16,
        ]
    }
}

/// The UTF-16 code units of a text.
pub open spec fn text_units(s: Seq<char>) -> Seq<u16>
    decreases s.len(),
{
    if s.len() == 0 {
        Seq::empty()
    } else {
        char_units(s[0]) + text_units(s.drop_first())
    }
}

/// The bytes of code units, in one of the two orders.
pub open spec fn unit_bytes(units: Seq<u16>, little_endian: bool) -> Seq<u8> {
    Seq::new(
        2 * units.len(),
        |i: int|
            if (i % 2 == 0) == little_endian {
                (units[i / 2] % 256) as u8
            } else {
                (units[i / 2] / 256) as u8
            },
    )
}

/// The bytes of a text in an encoding.
pub open spec fn text_bytes(s: Seq<char>, encoding: TextEncoding) -> Seq<u8> {
    match encoding {
        TextEncoding::Utf8 => vstd::utf8::encode_utf8(s),
        TextEncoding::Utf16Le => unit_bytes(text_units(s), true),
        TextEncoding::Utf16Be => unit_bytes(text_units(s), false),
    }
}

proof fn lemma_units_read(s: Seq<char>)
    ensures
        bytes::utf16_text(text_units(s)) == Some(s),
    decreases s.len(),
{
    if s.len() > 0 {
        let rest = s.drop_first();
        let units = text_units(s);
        lemma_units_read(rest);
        let n = s[0] as u32;
        vstd::utf8::char_is_scalar(s[0]);
        vstd::utf8::char_u32_cast(s[0], n);
        assert(0 <= n <= 0xd7ff || 0xe000 <= n <= 0x10_ffff);
        assert(seq![s[0]] + rest =~= s);
        if n < 0x1_0000 {
            assert(units.skip(1) =~= text_units(rest));
            assert(units[0] == n);
        } else {
            assert(units.skip(2) =~= text_units(rest));
            assert(units[0] == 0xd800 + (n - 0x1_0000) / 0x400);
            assert(units[1] == 0xdc00 + (n - 0x1_0000) % 0x400);
        }
    } else {
        assert(s =~= Seq::<char>::empty());
    }
}

proof fn lemma_unit_bytes_read(units: Seq<u16>, little_endian: bool)
    ensures
        unit_bytes(units, little_endian).len() == 2 * units.len(),
        bytes::code_units(unit_bytes(units, little_endian), little_endian) == units,
{
    let b = unit_bytes(units, little_endian);
    let read = bytes::code_units(b, little_endian);
    assert(read.len() == units.len());
    assert forall|i: int| 0 <= i < units.len() implies read[i] == units[i] by {
        let u = units[i];
        assert((2 * i) / 2 == i && (2 * i + 1) / 2 == i && (2 * i) % 2 == 0 && (2 * i + 1) % 2
            == 1);
        let low = (u % 256) as u8;
        let high = (u / 256) as u8;
        assert(b[2 * i] == if little_endian {
            low
        } else {
            high
        });
        assert(b[2 * i + 1] == if little_endian {
            high
        } else {
            low
        });
        assert(high as int * 256 + low as int == u as int);
    }
    assert(read =~= units);
}

/// A text reads back from its bytes, in each encoding.
pub proof fn lemma_text_reads_back(s: Seq<char>, encoding: TextEncoding)
    ensures
        bytes::decoded_text(text_bytes(s, encoding), encoding) == Ok::<Seq<char>, ErrorView>(s),
{
    vstd::utf8::encode_utf8_valid_utf8(s);
    vstd::utf8::encode_utf8_decode_utf8(s);
    lemma_units_read(s);
    lemma_unit_bytes_read(text_units(s), true);
    lemma_unit_bytes_read(text_units(s), false);
}

// ---------------------------------------------------------------------------
// Cells
// ---------------------------------------------------------------------------

/// What a column of a stored row holds.
#[verifier::ext_equal]
pub ghost enum Cell {
    Null,
    Integer(i64),
    /// A real number, by its bits.
    Real(u64),
    Text(Seq<char>),
    Blob(Seq<u8>),
}

/// The value that a cell is read as: an integer stays that integer, and a blob
/// is the array of its bytes.
pub open spec fn cell_value(cell: Cell) -> ValueView {
    match cell {
        Cell::Null => ValueView::Null,
        Cell::Integer(n) => if n < 0 {
            ValueView::Number(Number::NegInt(n))
        } else {
            ValueView::Number(Number::PosInt(n as u64))
        },
        Cell::Real(bits) => ValueView::Number(Number::Float(bits)),
        Cell::Text(s) => ValueView::Text(s),
        Cell::Blob(b) => ValueView::Array(
            Seq::new(b.len(), |i: int| ValueView::Number(Number::PosInt(b[i] as u64))),
        ),
    }
}

/// Whether bytes are how SQLite stores a cell under a serial type. An integer
/// can stand in any width that holds it; 0 and 1 have a type of their own
/// without bytes. A real is finite: its magnitude lies below infinity.
pub open spec fn stored_as(
    cell: Cell,
    encoding: TextEncoding,
    serial_type: nat,
    b: Seq<u8>,
) -> bool {
    match cell {
        Cell::Null => serial_type == 0 && b.len() == 0,
        Cell::Integer(n) => {
            ||| serial_type == 8 && b.len() == 0 && n == 0
            ||| serial_type == 9 && b.len() == 0 && n == 1
            ||| serial_type == 1 && -0x80 <= n < 0x80 && b == complement(n as int, 1)
            ||| serial_type == 2 && -0x8000 <= n < 0x8000 && b == complement(n as int, 2)
            ||| serial_type == 3 && -0x80_0000 <= n < 0x80_0000 && b == complement(n as int, 3)
            ||| serial_type == 4 && -0x8000_0000 <= n < 0x8000_0000 && b == complement(n as int, 4)
            ||| serial_type == 5 && -0x8000_0000_0000 <= n < 0x8000_0000_0000 && b == complement(
                n as int,
                6,
            )
            ||| serial_type == 6 && b == complement(n as int, 8)
        },
        Cell::Real(bits) => serial_type == 7 && bits % 0x8000_0000_0000_0000
            < 0x7ff0_0000_0000_0000 && b == written(bits as nat, 8),
        Cell::Text(s) => serial_type == 13 + 2 * b.len() && b == text_bytes(s, encoding),
        Cell::Blob(held) => serial_type == 12 + 2 * b.len() && b == held,
    }
}

proof fn lemma_integer_reads_back(n: i64, serial_type: nat, b: Seq<u8>)
    requires
        1 <= serial_type <= 6,
        stored_as(Cell::Integer(n), TextEncoding::Utf8, serial_type, b),
    ensures
        reader::serial_size(serial_type as int) == Some(b.len() as int),
        bytes::signed_value(b, serial_type as int) == n,
{
    lemma_spans();
    let width: nat = if serial_type == 5 {
        6
    } else if serial_type == 6 {
        8
    } else {
        serial_type
    };
    let m: nat = (if n < 0 {
        n + span(width)
    } else {
        n as int
    }) as nat;
    lemma_written_number_reads_back(m, width);
    bytes::lemma_signed_value_is_twos_complement(b, serial_type as int);
}

/// A stored cell is read as the cell that it is, whichever of its forms SQLite
/// chose.
pub proof fn lemma_stored_cell_reads_back(
    cell: Cell,
    encoding: TextEncoding,
    serial_type: nat,
    b: Seq<u8>,
)
    requires
        stored_as(cell, encoding, serial_type, b),
    ensures
        reader::serial_size(serial_type as int) == Some(b.len() as int),
        reader::serial_cell(serial_type as int, b, encoding) == Ok::<ValueView, ErrorView>(
            cell_value(cell),
        ),
{
    match cell {
        Cell::Null => {},
        Cell::Integer(n) => {
            if serial_type <= 6 {
                lemma_integer_reads_back(n, serial_type, b);
            }
        },
        Cell::Real(bits) => {
            lemma_spans();
            lemma_written_number_reads_back(bits as nat, 8);
            assert((bits / 0x10_0000_0000_0000) % 0x800 != 0x7ff) by (bit_vector)
                requires
                    bits % 0x8000_0000_0000_0000 < 0x7ff0_0000_0000_0000,
            ;
        },
        Cell::Text(s) => {
            lemma_text_reads_back(s, encoding);
        },
        Cell::Blob(held) => {
            assert(crate::value::blob_view(b)->Array_0 =~= cell_value(cell)->Array_0);
        },
    }
}

/// The serial types that stand for nothing are the two reserved ones.
pub proof fn lemma_reserved_serial_types(
    serial_type: nat,
    payload: Seq<u8>,
    position: int,
    encoding: TextEncoding,
)
    ensures
        reader::serial_size(serial_type as int) is None <==> serial_type == 10 || serial_type
            == 11,
        serial_type == 10 || serial_type == 11 ==> reader::serial_value(
            serial_type as int,
            payload,
            position,
            encoding,
        ) is Err,
{
}

// ---------------------------------------------------------------------------
// Records
// ---------------------------------------------------------------------------

/// A column of a stored record: its serial type, the number of bytes in which
/// that is written, and the column's own bytes.
#[verifier::ext_equal]
pub ghost struct Stored {
    pub serial_type: nat,
    pub type_len: nat,
    pub body: Seq<u8>,
}

/// The serial types of a record, one after the other.
pub open spec fn type_bytes(columns: Seq<Stored>) -> Seq<u8>
    decreases columns.len(),
{
    if columns.len() == 0 {
        Seq::empty()
    } else {
        varint(columns[0].serial_type, columns[0].type_len) + type_bytes(columns.drop_first())
    }
}

/// The columns of a record, one after the other.
pub open spec fn body_bytes(columns: Seq<Stored>) -> Seq<u8>
    decreases columns.len(),
{
    if columns.len() == 0 {
        Seq::empty()
    } else {
        columns[0].body + body_bytes(columns.drop_first())
    }
}

/// A record: the size of its header, which counts itself and is written in
/// `size_len` bytes, the serial types and the columns.
pub open spec fn record_bytes(columns: Seq<Stored>, size_len: nat) -> Seq<u8> {
    varint(size_len + type_bytes(columns).len(), size_len) + type_bytes(columns) + body_bytes(
        columns,
    )
}

/// Whether columns are a way of storing cells.
pub open spec fn stores(columns: Seq<Stored>, cells: Seq<Cell>, encoding: TextEncoding) -> bool {
    &&& columns.len() == cells.len()
    &&& forall|i: int|
        0 <= i < cells.len() ==> {
            &&& varint_fits((#[trigger] columns[i]).serial_type, columns[i].type_len)
            &&& stored_as(cells[i], encoding, columns[i].serial_type, columns[i].body)
        }
}

/// The values of cells.
pub open spec fn cell_values(cells: Seq<Cell>) -> Seq<ValueView> {
    cells.map_values(|cell: Cell| cell_value(cell))
}

/// The serial types of columns.
pub open spec fn types_of(columns: Seq<Stored>) -> Seq<int> {
    columns.map_values(|c: Stored| c.serial_type as int)
}

proof fn lemma_types_read(
    columns: Seq<Stored>,
    cells: Seq<Cell>,
    encoding: TextEncoding,
    payload: Seq<u8>,
    position: int,
    end: int,
)
    requires
        stores(columns, cells, encoding),
        0 <= position <= end <= payload.len(),
        payload.subrange(position, end) == type_bytes(columns),
    ensures
        reader::serial_types(payload, position, end) == Ok::<Seq<int>, ErrorView>(
            types_of(columns),
        ),
    decreases columns.len(),
{
    if columns.len() == 0 {
        assert(payload.subrange(position, end).len() == 0);
        assert(types_of(columns) =~= Seq::<int>::empty());
    } else {
        let first = columns[0];
        let rest = columns.drop_first();
        assert(stored_as(cells[0], encoding, columns[0].serial_type, columns[0].body));
        lemma_varint_len(first.serial_type, first.type_len);
        let middle = position + first.type_len;
        let all = type_bytes(columns);
        assert(all.len() == end - position);
        assert(payload.subrange(position, middle) =~= all.take(first.type_len as int));
        assert(all.take(first.type_len as int) =~= varint(first.serial_type, first.type_len));
        assert(payload.subrange(middle, end) =~= all.skip(first.type_len as int));
        assert(all.skip(first.type_len as int) =~= type_bytes(rest));
        lemma_varint_reads_back(payload, position, first.serial_type, first.type_len);
        assert forall|i: int| 0 <= i < rest.len() implies {
            &&& varint_fits((#[trigger] rest[i]).serial_type, rest[i].type_len)
            &&& stored_as(cells.drop_first()[i], encoding, rest[i].serial_type, rest[i].body)
        } by {
            assert(rest[i] == columns[i + 1]);
        }
        lemma_types_read(rest, cells.drop_first(), encoding, payload, middle, end);
        assert(types_of(columns) =~= seq![first.serial_type as int] + types_of(rest));
    }
}

proof fn lemma_bodies_read(
    columns: Seq<Stored>,
    cells: Seq<Cell>,
    encoding: TextEncoding,
    payload: Seq<u8>,
    position: int,
)
    requires
        stores(columns, cells, encoding),
        0 <= position <= payload.len() <= usize::MAX,
        payload.skip(position) == body_bytes(columns),
    ensures
        reader::serial_values(types_of(columns), payload, position, encoding) == Ok::<
            Seq<ValueView>,
            ErrorView,
        >(cell_values(cells)),
    decreases columns.len(),
{
    if columns.len() == 0 {
        assert(cell_values(cells) =~= Seq::<ValueView>::empty());
    } else {
        let first = columns[0];
        let rest = columns.drop_first();
        assert(stored_as(cells[0], encoding, columns[0].serial_type, columns[0].body));
        lemma_stored_cell_reads_back(cells[0], encoding, first.serial_type, first.body);
        let all = body_bytes(columns);
        assert(all.len() == payload.len() - position);
        let end = position + first.body.len();
        assert(payload.subrange(position, end) =~= all.take(first.body.len() as int));
        assert(all.take(first.body.len() as int) =~= first.body);
        assert(payload.skip(end) =~= all.skip(first.body.len() as int));
        assert(all.skip(first.body.len() as int) =~= body_bytes(rest));
        assert forall|i: int| 0 <= i < rest.len() implies {
            &&& varint_fits((#[trigger] rest[i]).serial_type, rest[i].type_len)
            &&& stored_as(cells.drop_first()[i], encoding, rest[i].serial_type, rest[i].body)
        } by {
            assert(rest[i] == columns[i + 1]);
        }
        lemma_bodies_read(rest, cells.drop_first(), encoding, payload, end);
        assert(types_of(columns).drop_first() =~= types_of(rest));
        assert(cell_values(cells) =~= seq![cell_value(cells[0])] + cell_values(
            cells.drop_first(),
        ));
    }
}

/// A record reads back: whichever way SQLite stored the cells of a row, they
/// come back one for one and in order.
pub proof fn lemma_record_reads_back(
    cells: Seq<Cell>,
    columns: Seq<Stored>,
    size_len: nat,
    encoding: TextEncoding,
)
    requires
        stores(columns, cells, encoding),
        varint_fits(size_len + type_bytes(columns).len(), size_len),
        record_bytes(columns, size_len).len() <= usize::MAX,
    ensures
        reader::record(record_bytes(columns, size_len), encoding) == Ok::<
            Seq<ValueView>,
            ErrorView,
        >(cell_values(cells)),
{
    let payload = record_bytes(columns, size_len);
    let size = size_len + type_bytes(columns).len();
    lemma_varint_len(size, size_len);
    assert(payload.subrange(0, size_len as int) =~= varint(size, size_len));
    lemma_varint_reads_back(payload, 0, size, size_len);
    assert(payload.subrange(size_len as int, size as int) =~= type_bytes(columns));
    lemma_types_read(columns, cells, encoding, payload, size_len as int, size as int);
    assert(payload.skip(size as int) =~= body_bytes(columns));
    lemma_bodies_read(columns, cells, encoding, payload, size as int);
}

// ---------------------------------------------------------------------------
// Files and pages
// ---------------------------------------------------------------------------

/// The number by which the header names a text encoding.
pub open spec fn encoding_number(encoding: TextEncoding) -> nat {
    match encoding {
        TextEncoding::Utf8 => 1,
        TextEncoding::Utf16Le => 2,
        TextEncoding::Utf16Be => 3,
    }
}

/// Whether bytes are those of a file with these properties: they start with
/// the text `SQLite format 3` and a zero byte, name the page size, the bytes
/// that each page reserves and the text encoding, and are made of whole pages.
/// The largest page size is written as 1.
pub open spec fn is_file(
    b: Seq<u8>,
    page_size: nat,
    reserved: nat,
    encoding: TextEncoding,
) -> bool {
    &&& b.len() >= 100
    &&& forall|i: int| 0 <= i < 15 ==> #[trigger] b[i] as char == "SQLite format 3"@[i]
    &&& b[15] == 0
    &&& b.subrange(16, 18) == written(
        if page_size == 65536 {
            1
        } else {
            page_size
        },
        2,
    )
    &&& b[20] == reserved
    &&& b.subrange(56, 60) == written(encoding_number(encoding), 4)
    &&& b.len() % page_size == 0
}

/// A file opens as what its header says.
pub proof fn lemma_file_opens(b: Seq<u8>, page_size: nat, reserved: nat, encoding: TextEncoding)
    requires
        page_size == 512 || page_size == 1024 || page_size == 2048 || page_size == 4096
            || page_size == 8192 || page_size == 16384 || page_size == 32768 || page_size == 65536,
        is_file(b, page_size, reserved, encoding),
    ensures
        reader::opened(b) == Ok::<reader::FileView, ErrorView>(
            reader::FileView {
                bytes: b,
                page_size: page_size as int,
                usable: page_size - reserved,
                encoding,
            },
        ),
{
    lemma_spans();
    reveal_strlit("SQLite format 3");
    assert forall|i: int| 0 <= i < 16 implies b.take(16)[i] == reader::magic()[i] by {
        if i < 15 {
            assert(b[i] as char == "SQLite format 3"@[i]);
        }
    }
    assert(b.take(16) =~= reader::magic());
    lemma_written_number_reads_back(
        if page_size == 65536 {
            1
        } else {
            page_size
        },
        2,
    );
    lemma_written_number_reads_back(encoding_number(encoding), 4);
}

proof fn lemma_read_number_is_written(b: Seq<u8>)
    ensures
        written(bytes::big_endian(b), b.len()) == b,
    decreases b.len(),
{
    if b.len() > 0 {
        lemma_read_number_is_written(b.drop_last());
        assert(b.drop_last().push(b.last()) =~= b);
    } else {
        assert(b =~= Seq::<u8>::empty());
    }
}

/// What opens is a file as its header says.
pub proof fn lemma_opened_file_is_one(b: Seq<u8>)
    requires
        reader::opened(b) is Ok,
    ensures
        ({
            let f = reader::opened(b)->Ok_0;
            &&& f.bytes == b
            &&& f.page_size == 512 || f.page_size == 1024 || f.page_size == 2048 || f.page_size
                == 4096 || f.page_size == 8192 || f.page_size == 16384 || f.page_size == 32768
                || f.page_size == 65536
            &&& is_file(b, f.page_size as nat, (f.page_size - f.usable) as nat, f.encoding)
        }),
{
    reveal_strlit("SQLite format 3");
    assert forall|i: int| 0 <= i < 15 implies #[trigger] b[i] as char == "SQLite format 3"@[i] by {
        assert(b.take(16)[i] == reader::magic()[i]);
    }
    assert(b.take(16)[15] == reader::magic()[15]);
    bytes::lemma_big_endian_bound(b.subrange(16, 18));
    lemma_read_number_is_written(b.subrange(16, 18));
    lemma_read_number_is_written(b.subrange(56, 60));
}

/// The pages of a file lie one behind the other, counted from 1, and there are
/// no others.
pub proof fn lemma_pages_tile_the_file(f: reader::FileView, n: nat)
    requires
        0 < f.page_size,
        f.bytes.len() <= usize::MAX,
    ensures
        f.page(n as int) is Ok <==> 1 <= n && n * f.page_size <= f.bytes.len(),
        f.page(n as int) is Ok ==> f.page(n as int)->Ok_0.len() == f.page_size && forall|i: int|
            0 <= i < f.page_size ==> #[trigger] f.page(n as int)->Ok_0[i] == f.bytes[(n - 1)
                * f.page_size + i],
{
    let start = (n - 1) * f.page_size;
    assert(start + f.page_size == n * f.page_size) by (nonlinear_arith)
        requires
            start == (n - 1) * f.page_size,
    ;
    if n >= 1 {
        assert(start >= 0) by (nonlinear_arith)
            requires
                start == (n - 1) * f.page_size,
                n >= 1,
                f.page_size > 0,
        ;
    }
}

// ---------------------------------------------------------------------------
// Payloads
// ---------------------------------------------------------------------------

/// The least that a leaf cell keeps of a payload that spills.
pub open spec fn least_kept(usable: int) -> int {
    (usable - 12) * 32 / 255 - 23
}

/// How much of a payload a leaf cell keeps. What fits beside the page's other
/// needs is kept whole. Of a longer one just so much is kept that the overflow
/// pages are full, or, where that is too much, the least.
pub open spec fn kept(usable: int, size: int, local: int) -> bool {
    if size <= usable - 35 {
        local == size
    } else {
        ||| least_kept(usable) <= local <= usable - 35 && (size - local) % (usable - 4) == 0
        ||| local == least_kept(usable) && forall|k: int|
            least_kept(usable) <= k <= usable - 35 ==> #[trigger] ((size - k) % (usable - 4)) != 0
    }
}

proof fn lemma_same_remainder(a: int, b: int, m: int)
    requires
        0 < m,
        a % m == 0,
        b % m == 0,
        -m < a - b < m,
    ensures
        a == b,
{
    vstd::arithmetic::div_mod::lemma_fundamental_div_mod(a, m);
    vstd::arithmetic::div_mod::lemma_fundamental_div_mod(b, m);
    let q = a / m - b / m;
    assert(a - b == m * q) by (nonlinear_arith)
        requires
            a == m * (a / m),
            b == m * (b / m),
            q == a / m - b / m,
    ;
    assert(q == 0) by (nonlinear_arith)
        requires
            -m < m * q < m,
            0 < m,
    ;
}

/// A leaf cell keeps of a payload just what the format says.
pub proof fn lemma_kept_part(usable: int, size: int, local: int)
    requires
        257 <= usable <= 65536,
        0 <= size,
    ensures
        kept(usable, size, local) <==> local == reader::local_size(usable, size),
{
    let least = least_kept(usable);
    let most = usable - 35;
    let room = usable - 4;
    assert(0 <= least <= most);
    if size > most {
        let surplus = least + (size - least) % room;
        vstd::arithmetic::div_mod::lemma_fundamental_div_mod(size - least, room);
        vstd::arithmetic::div_mod::lemma_mod_bound(size - least, room);
        let q = (size - least) / room;
        assert(size - surplus == room * q);
        assert((size - surplus) % room == 0) by {
            vstd::arithmetic::div_mod::lemma_mod_multiples_basic(q, room);
            assert(room * q == q * room) by (nonlinear_arith);
        }
        assert forall|k: int|
            least <= k <= most && #[trigger] ((size - k) % room) == 0 implies k == surplus by {
            lemma_same_remainder(size - k, size - surplus, room);
        }
        if surplus <= most {
            assert((size - surplus) % (usable - 4) == 0);
        }
    }
}

/// Whether overflow pages hold data: each holds the number of the next, 0 on
/// the last, and behind it as much of the data as it has room for.
pub open spec fn spilled(f: reader::FileView, pages: Seq<int>, data: Seq<u8>) -> bool
    decreases pages.len(),
{
    if pages.len() == 0 {
        data.len() == 0
    } else {
        let room = f.usable - 4;
        let taken = if data.len() < room {
            data.len() as int
        } else {
            room
        };
        &&& data.len() > 0
        &&& 0 < pages[0] < 0x1_0000_0000
        &&& f.page(pages[0]) is Ok
        &&& f.page(pages[0])->Ok_0.subrange(0, 4) == written(
            if pages.len() > 1 {
                pages[1] as nat
            } else {
                0
            },
            4,
        )
        &&& f.page(pages[0])->Ok_0.subrange(4, 4 + taken) == data.take(taken)
        &&& spilled(f, pages.drop_first(), data.skip(taken))
    }
}

/// What was spilled to overflow pages reads back.
pub proof fn lemma_spilled_data_reads_back(
    f: reader::FileView,
    pages: Seq<int>,
    data: Seq<u8>,
    visited: Set<int>,
)
    requires
        f.usable > 4,
        spilled(f, pages, data),
        pages.no_duplicates(),
        forall|i: int| 0 <= i < pages.len() ==> !visited.contains(#[trigger] pages[i]),
    ensures
        f.overflow(
            if pages.len() > 0 {
                pages[0]
            } else {
                0
            },
            data.len() as int,
            visited,
        ) == Ok::<Seq<u8>, ErrorView>(data),
    decreases pages.len(),
{
    if pages.len() == 0 {
        assert(data =~= Seq::<u8>::empty());
    } else {
        let room = f.usable - 4;
        let taken = if data.len() < room {
            data.len() as int
        } else {
            room
        };
        let rest = pages.drop_first();
        let p = f.page(pages[0])->Ok_0;
        lemma_spans();
        assert(spilled(f, rest, data.skip(taken)));
        if rest.len() > 0 {
            assert(0 < rest[0] < 0x1_0000_0000);
            assert(rest[0] == pages[1]);
        }
        let next: nat = if pages.len() > 1 {
            pages[1] as nat
        } else {
            0
        };
        lemma_written_number_reads_back(next, 4);
        assert forall|i: int| 0 <= i < rest.len() implies !visited.insert(pages[0]).contains(
            #[trigger] rest[i],
        ) by {
            assert(rest[i] == pages[i + 1]);
        }
        assert(rest.no_duplicates()) by {
            assert forall|i: int, j: int| 0 <= i < rest.len() && 0 <= j < rest.len() && i != j implies rest[i]
                != rest[j] by {
                assert(rest[i] == pages[i + 1] && rest[j] == pages[j + 1]);
            }
        }
        lemma_spilled_data_reads_back(f, rest, data.skip(taken), visited.insert(pages[0]));
        assert(data.take(taken) + data.skip(taken) =~= data);
        assert(!visited.contains(pages[0]));
    }
}

/// A row as SQLite stores it in a leaf cell.
pub ghost struct LeafCell {
    pub rowid: i64,
    pub cells: Seq<Cell>,
    pub columns: Seq<Stored>,
    /// The number of bytes in which the record's header size is written.
    pub header_len: nat,
    /// The numbers of bytes in which the payload size and the row id are
    /// written.
    pub size_len: nat,
    pub rowid_len: nat,
    /// Where the cell stands on its page.
    pub pointer: nat,
    /// How much of the payload stands there, and the pages with the rest.
    pub local: nat,
    pub overflow: Seq<int>,
}

impl LeafCell {
    pub open spec fn payload(self) -> Seq<u8> {
        record_bytes(self.columns, self.header_len)
    }

    /// A row id as an unsigned number.
    pub open spec fn rowid_number(self) -> nat {
        (if self.rowid < 0 {
            self.rowid + 0x1_0000_0000_0000_0000
        } else {
            self.rowid as int
        }) as nat
    }

    /// The bytes of the cell on its page.
    pub open spec fn page_bytes(self) -> Seq<u8> {
        varint(self.payload().len(), self.size_len) + varint(self.rowid_number(), self.rowid_len)
            + self.payload().take(self.local as int) + (if self.overflow.len() > 0 {
            written(self.overflow[0] as nat, 4)
        } else {
            Seq::empty()
        })
    }

    /// The row that the cell holds.
    pub open spec fn row(self) -> reader::TableRow {
        reader::TableRow { rowid: self.rowid as int, values: cell_values(self.cells) }
    }

    /// Whether a page of a file holds this cell.
    pub open spec fn stands(self, f: reader::FileView, page: Seq<u8>) -> bool {
        &&& stores(self.columns, self.cells, f.encoding)
        &&& varint_fits(self.header_len + type_bytes(self.columns).len(), self.header_len)
        &&& self.payload().len() <= usize::MAX
        &&& varint_fits(self.payload().len(), self.size_len)
        &&& varint_fits(self.rowid_number(), self.rowid_len)
        &&& kept(f.usable, self.payload().len() as int, self.local as int)
        &&& self.pointer + self.page_bytes().len() <= page.len()
        &&& page.subrange(self.pointer as int, (self.pointer + self.page_bytes().len()) as int)
            == self.page_bytes()
        &&& self.overflow.no_duplicates()
        &&& spilled(f, self.overflow, self.payload().skip(self.local as int))
    }
}

/// A leaf cell reads back: its row id, negative or not, and its payload, with
/// what stands on overflow pages.
pub proof fn lemma_leaf_cell_reads_back(f: reader::FileView, page: Seq<u8>, cell: LeafCell)
    requires
        257 <= f.usable <= 65536,
        cell.stands(f, page),
    ensures
        f.leaf_payload(page, cell.pointer as int) == Ok::<(int, Seq<u8>), ErrorView>(
            (cell.rowid as int, cell.payload()),
        ),
{
    let payload = cell.payload();
    let local = cell.local as int;
    let all = cell.page_bytes();
    let at = cell.pointer as int;
    lemma_kept_part(f.usable, payload.len() as int, local);
    assert(0 <= least_kept(f.usable));
    if payload.len() > f.usable - 35 {
        assert(local <= f.usable - 35);
    }
    assert(local <= payload.len());
    lemma_varint_len(payload.len(), cell.size_len);
    lemma_varint_len(cell.rowid_number(), cell.rowid_len);
    let first = cell.size_len as int;
    let second = first + cell.rowid_len;
    assert(page.subrange(at, at + first) =~= all.subrange(0, first));
    assert(all.subrange(0, first) =~= varint(payload.len(), cell.size_len));
    lemma_varint_reads_back(page, at, payload.len(), cell.size_len);
    assert(page.subrange(at + first, at + second) =~= all.subrange(first, second));
    assert(all.subrange(first, second) =~= varint(cell.rowid_number(), cell.rowid_len));
    lemma_varint_reads_back(page, at + first, cell.rowid_number(), cell.rowid_len);
    assert(page.subrange(at + second, at + second + local) =~= all.subrange(
        second,
        second + local,
    ));
    assert(all.subrange(second, second + local) =~= payload.take(local));
    let rest = payload.skip(local);
    if cell.overflow.len() == 0 {
        assert(rest.len() == 0);
        assert(payload.take(local) =~= payload);
    } else {
        let next = cell.overflow[0] as nat;
        lemma_spans();
        lemma_written_number_reads_back(next, 4);
        let end = second + local;
        assert(page.subrange(at + end, at + end + 4) =~= all.subrange(end, end + 4));
        assert(all.subrange(end, end + 4) =~= written(next, 4));
        lemma_written_field_reads_back(page, at + end, next);
        lemma_spilled_data_reads_back(f, cell.overflow, rest, Set::empty());
        assert(payload.take(local) + rest =~= payload);
    }
}

// ---------------------------------------------------------------------------
// Tables
// ---------------------------------------------------------------------------

/// A separator of an inner page: where it stands, and its key.
pub ghost struct Separator {
    pub pointer: nat,
    pub key: nat,
    pub key_len: nat,
}

/// The b-tree of a table.
pub ghost enum Tree {
    Leaf { page: nat, cells: Seq<LeafCell> },
    /// Between two children stands a separator.
    Inner { page: nat, separators: Seq<Separator>, children: Seq<Tree> },
}

/// Where the tree's part of a page starts: behind the file header on the first
/// page.
pub open spec fn tree_start(page: nat) -> int {
    if page == 1 {
        100
    } else {
        0
    }
}

impl Tree {
    pub open spec fn root(self) -> nat {
        match self {
            Tree::Leaf { page, .. } => page,
            Tree::Inner { page, .. } => page,
        }
    }

    /// The rows of the tree, from left to right.
    pub open spec fn rows(self) -> Seq<reader::TableRow>
        decreases self,
    {
        match self {
            Tree::Leaf { cells, .. } => cells.map_values(|c: LeafCell| c.row()),
            Tree::Inner { children, .. } => all_rows(children),
        }
    }

    /// The pages of the tree.
    pub open spec fn pages(self) -> Seq<int>
        decreases self,
    {
        match self {
            Tree::Leaf { page, .. } => seq![page as int],
            Tree::Inner { page, children, .. } => seq![page as int] + all_pages(children),
        }
    }

    /// Whether a file holds this tree.
    pub open spec fn stands(self, f: reader::FileView) -> bool
        decreases self,
    {
        let p = f.page(self.root() as int)->Ok_0;
        let start = tree_start(self.root());
        &&& 0 < self.root() < 0x1_0000_0000
        &&& f.page(self.root() as int) is Ok
        &&& match self {
            Tree::Leaf { cells, .. } => {
                &&& p[start] == 0x0d
                &&& cells.len() < 0x1_0000
                &&& p.subrange(start + 3, start + 5) == written(cells.len(), 2)
                &&& start + 8 + 2 * cells.len() <= p.len()
                &&& forall|i: int|
                    0 <= i < cells.len() ==> {
                        &&& (#[trigger] cells[i]).pointer < 0x1_0000
                        &&& p.subrange(start + 8 + 2 * i, start + 10 + 2 * i) == written(
                            cells[i].pointer,
                            2,
                        )
                        &&& cells[i].stands(f, p)
                    }
            },
            Tree::Inner { separators, children, .. } => {
                &&& p[start] == 0x05
                &&& children.len() == separators.len() + 1
                &&& separators.len() < 0x1_0000
                &&& p.subrange(start + 3, start + 5) == written(separators.len(), 2)
                &&& start + 12 + 2 * separators.len() <= p.len()
                &&& p.subrange(start + 8, start + 12) == written(children.last().root(), 4)
                &&& forall|i: int|
                    0 <= i < separators.len() ==> {
                        let s = #[trigger] separators[i];
                        &&& s.pointer < 0x1_0000
                        &&& p.subrange(start + 12 + 2 * i, start + 14 + 2 * i) == written(
                            s.pointer,
                            2,
                        )
                        &&& varint_fits(s.key, s.key_len)
                        &&& s.pointer + 4 + s.key_len <= p.len()
                        &&& p.subrange(s.pointer as int, (s.pointer + 4) as int) == written(
                            children[i].root(),
                            4,
                        )
                        &&& p.subrange(
                            (s.pointer + 4) as int,
                            (s.pointer + 4 + s.key_len) as int,
                        ) == varint(
                            s.key,
                            s.key_len,
                        )
                    }
                &&& all_stand(children, f)
            },
        }
    }
}

/// The rows of trees, from left to right.
pub open spec fn all_rows(trees: Seq<Tree>) -> Seq<reader::TableRow>
    decreases trees,
{
    if trees.len() == 0 {
        Seq::empty()
    } else {
        all_rows(trees.drop_last()) + trees.last().rows()
    }
}

/// The pages of trees.
pub open spec fn all_pages(trees: Seq<Tree>) -> Seq<int>
    decreases trees,
{
    if trees.len() == 0 {
        Seq::empty()
    } else {
        all_pages(trees.drop_last()) + trees.last().pages()
    }
}

/// Whether a file holds all these trees.
pub open spec fn all_stand(trees: Seq<Tree>, f: reader::FileView) -> bool
    decreases trees,
{
    trees.len() > 0 ==> all_stand(trees.drop_last(), f) && trees.last().stands(f)
}

proof fn lemma_each_stands(trees: Seq<Tree>, f: reader::FileView, i: int)
    requires
        all_stand(trees, f),
        0 <= i < trees.len(),
    ensures
        trees[i].stands(f),
    decreases trees.len(),
{
    if i < trees.len() - 1 {
        lemma_each_stands(trees.drop_last(), f, i);
    }
}

proof fn lemma_leaf_row_reads(f: reader::FileView, page: nat, cells: Seq<LeafCell>, i: int)
    requires
        257 <= f.usable <= 65536,
        (Tree::Leaf { page, cells }).stands(f),
        0 <= i < cells.len(),
    ensures
        f.leaf_row(f.page(page as int)->Ok_0, tree_start(page), i) == Ok::<
            reader::TableRow,
            ErrorView,
        >(cells[i].row()),
{
    let p = f.page(page as int)->Ok_0;
    let start = tree_start(page);
    let cell = cells[i];
    assert(cell.stands(f, p));
    lemma_written_field_reads_back(p, start + 8 + 2 * i, cell.pointer);
    lemma_leaf_cell_reads_back(f, p, cell);
    lemma_record_reads_back(cell.cells, cell.columns, cell.header_len, f.encoding);
}

proof fn lemma_leaf_rows_read(
    f: reader::FileView,
    page: nat,
    cells: Seq<LeafCell>,
    i: int,
)
    requires
        257 <= f.usable <= 65536,
        (Tree::Leaf { page, cells }).stands(f),
        0 <= i <= cells.len(),
    ensures
        f.leaf_rows(
            f.page(page as int)->Ok_0,
            tree_start(page),
            i,
            cells.len() as int,
        ) == Ok::<Seq<reader::TableRow>, ErrorView>(
            cells.skip(i).map_values(|c: LeafCell| c.row()),
        ),
    decreases cells.len() - i,
{
    if i < cells.len() {
        lemma_leaf_row_reads(f, page, cells, i);
        lemma_leaf_rows_read(f, page, cells, i + 1);
        assert(cells.skip(i).map_values(|c: LeafCell| c.row()) =~= seq![cells[i].row()] + cells.skip(
            i + 1,
        ).map_values(|c: LeafCell| c.row()));
    } else {
        assert(cells.skip(i).map_values(|c: LeafCell| c.row()) =~= Seq::<
            reader::TableRow,
        >::empty());
    }
}

/// Whether no page was visited yet.
pub open spec fn fresh(pages: Seq<int>, visited: Set<int>) -> bool {
    &&& pages.no_duplicates()
    &&& forall|i: int| 0 <= i < pages.len() ==> !visited.contains(#[trigger] pages[i])
}

proof fn lemma_fresh_parts(a: Seq<int>, b: Seq<int>, visited: Set<int>)
    requires
        fresh(a + b, visited),
    ensures
        fresh(a, visited),
        fresh(b, visited + a.to_set()),
{
    let all = a + b;
    assert forall|i: int| 0 <= i < a.len() implies !visited.contains(#[trigger] a[i]) by {
        assert(all[i] == a[i]);
    }
    assert forall|i: int, j: int| 0 <= i < a.len() && 0 <= j < a.len() && i != j implies a[i]
        != a[j] by {
        assert(all[i] == a[i] && all[j] == a[j]);
    }
    let k = a.len() as int;
    assert forall|i: int, j: int| 0 <= i < b.len() && 0 <= j < b.len() && i != j implies b[i]
        != b[j] by {
        assert(all[k + i] == b[i] && all[k + j] == b[j]);
    }
    assert forall|i: int| 0 <= i < b.len() implies !(visited + a.to_set()).contains(
        #[trigger] b[i],
    ) by {
        assert(all[k + i] == b[i]);
        if a.to_set().contains(b[i]) {
            let j = choose|j: int| 0 <= j < a.len() && a[j] == b[i];
            assert(all[j] == a[j]);
        }
    }
}

proof fn lemma_child_reads(f: reader::FileView, tree: Tree, i: int)
    requires
        tree is Inner,
        tree.stands(f),
        0 <= i < tree->children.len(),
    ensures
        f.child(
            f.page(tree.root() as int)->Ok_0,
            tree_start(tree.root()),
            i,
            tree->separators.len() as int,
        ) == Ok::<int, ErrorView>(tree->children[i].root() as int),
{
    let p = f.page(tree.root() as int)->Ok_0;
    let start = tree_start(tree.root());
    let child = tree->children[i].root();
    lemma_each_stands(tree->children, f, i);
    lemma_spans();
    lemma_written_number_reads_back(child, 4);
    if i < tree->separators.len() {
        let s = tree->separators[i];
        lemma_written_field_reads_back(p, start + 12 + 2 * i, s.pointer);
        lemma_written_field_reads_back(p, s.pointer as int, child);
        lemma_varint_reads_back(p, (s.pointer + 4) as int, s.key, s.key_len);
    }
}

proof fn lemma_walk_leaf(
    f: reader::FileView,
    page: nat,
    cells: Seq<LeafCell>,
    path: Seq<reader::Frame>,
    visited: Set<int>,
    rows: Seq<reader::TableRow>,
)
    requires
        f.page_size > 0,
        257 <= f.usable <= 65536,
        (Tree::Leaf { page, cells }).stands(f),
        !visited.contains(page as int),
    ensures
        f.walk(Some(page as int), path, visited, rows) == f.walk(
            None,
            path,
            visited + seq![page as int].to_set(),
            rows + cells.map_values(|c: LeafCell| c.row()),
        ),
{
    lemma_spans();
    lemma_leaf_rows_read(f, page, cells, 0);
    assert(cells.skip(0) =~= cells);
    lemma_written_number_reads_back(cells.len(), 2);
    let own = seq![page as int];
    assert(own[0] == page as int);
    assert(visited.insert(page as int) =~= visited + own.to_set());
}

proof fn lemma_walk_tree(
    f: reader::FileView,
    tree: Tree,
    path: Seq<reader::Frame>,
    visited: Set<int>,
    rows: Seq<reader::TableRow>,
)
    requires
        f.page_size > 0,
        257 <= f.usable <= 65536,
        tree.stands(f),
        fresh(tree.pages(), visited),
    ensures
        f.walk(Some(tree.root() as int), path, visited, rows) == f.walk(
            None,
            path,
            visited + tree.pages().to_set(),
            rows + tree.rows(),
        ),
    decreases tree, 1int, 0int,
{
    let n = tree.root() as int;
    let p = f.page(n)->Ok_0;
    let start = tree_start(tree.root());
    assert(tree.pages()[0] == n);
    assert(!visited.contains(n));
    lemma_spans();
    match tree {
        Tree::Leaf { page, cells } => {
            lemma_walk_leaf(f, page, cells, path, visited, rows);
        },
        Tree::Inner { page, separators, children } => {
            lemma_written_number_reads_back(separators.len(), 2);
            let own = seq![n];
            assert(tree.pages() == own + all_pages(children));
            lemma_fresh_parts(own, all_pages(children), visited);
            assert(own.to_set() =~= set![n]);
            assert(visited.insert(n) =~= visited + own.to_set());
            let k = children.len() as int;
            assert(children.take(k) =~= children);
            lemma_walk_children(f, tree, k, path, visited.insert(n), rows);
            let after = visited.insert(n) + all_pages(children).to_set();
            assert(after =~= visited + tree.pages().to_set()) by {
                assert forall|x: int| after.contains(x) <==> (visited
                    + tree.pages().to_set()).contains(x) by {
                    let pages = tree.pages();
                    let below = all_pages(children);
                    if below.contains(x) {
                        let j = choose|j: int| 0 <= j < below.len() && below[j] == x;
                        assert(pages[j + 1] == x);
                    }
                    if pages.contains(x) {
                        let j = choose|j: int| 0 <= j < pages.len() && pages[j] == x;
                        if j > 0 {
                            assert(below[j - 1] == x);
                        }
                    }
                }
            }
            let frame = reader::Frame { page: n, entered: k };
            assert(path.push(frame).drop_last() =~= path);
        },
    }
}

proof fn lemma_walk_children(
    f: reader::FileView,
    tree: Tree,
    k: int,
    path: Seq<reader::Frame>,
    visited: Set<int>,
    rows: Seq<reader::TableRow>,
)
    requires
        f.page_size > 0,
        257 <= f.usable <= 65536,
        tree is Inner,
        tree.stands(f),
        0 <= k <= tree->children.len(),
        fresh(all_pages(tree->children.take(k)), visited),
    ensures
        f.walk(
            None,
            path.push(reader::Frame { page: tree.root() as int, entered: 0 }),
            visited,
            rows,
        ) == f.walk(
            None,
            path.push(reader::Frame { page: tree.root() as int, entered: k }),
            visited + all_pages(tree->children.take(k)).to_set(),
            rows + all_rows(tree->children.take(k)),
        ),
    decreases tree, 0int, k,
{
    let children = tree->children;
    let n = tree.root() as int;
    if k == 0 {
        assert(visited + all_pages(children.take(k)).to_set() =~= visited);
        assert(rows + all_rows(children.take(k)) =~= rows);
    } else {
        let before = children.take(k - 1);
        let child = children[k - 1];
        assert(children.take(k).drop_last() =~= before);
        assert(children.take(k).last() == child);
        lemma_fresh_parts(all_pages(before), child.pages(), visited);
        lemma_walk_children(f, tree, k - 1, path, visited, rows);
        lemma_each_stands(children, f, k - 1);
        lemma_child_reads(f, tree, k - 1);
        lemma_spans();
        lemma_written_number_reads_back(tree->separators.len(), 2);
        let seen = visited + all_pages(before).to_set();
        let so_far = rows + all_rows(before);
        let old_frame = reader::Frame { page: n, entered: k - 1 };
        let frame = reader::Frame { page: n, entered: k };
        assert(path.push(old_frame).drop_last() =~= path);
        assert(path.push(old_frame).last() == old_frame);
        assert(decreases_to!(tree => child)) by {
            assert(decreases_to!(tree => children));
            assert(decreases_to!(children => children[k - 1]));
        }
        lemma_walk_tree(f, child, path.push(frame), seen, so_far);
        let joined = all_pages(before) + child.pages();
        assert(seen + child.pages().to_set() =~= visited + joined.to_set()) by {
            assert forall|x: int| (seen + child.pages().to_set()).contains(x) <==> (visited
                + joined.to_set()).contains(x) by {
                let a = all_pages(before);
                let b = child.pages();
                if a.contains(x) {
                    let j = choose|j: int| 0 <= j < a.len() && a[j] == x;
                    assert(joined[j] == x);
                }
                if b.contains(x) {
                    let j = choose|j: int| 0 <= j < b.len() && b[j] == x;
                    assert(joined[a.len() + j] == x);
                }
                if joined.contains(x) {
                    let j = choose|j: int| 0 <= j < joined.len() && joined[j] == x;
                    if j < a.len() {
                        assert(a[j] == x);
                    } else {
                        assert(b[j - a.len()] == x);
                    }
                }
            }
        }
        assert(so_far + child.rows() =~= rows + (all_rows(before) + child.rows()));
    }
}

/// The rows of a table read back: every row of its b-tree comes back once, from
/// left to right, with its row id and its cells.
pub proof fn lemma_table_reads_back(f: reader::FileView, tree: Tree)
    requires
        f.page_size > 0,
        257 <= f.usable <= 65536,
        tree.stands(f),
        tree.pages().no_duplicates(),
    ensures
        f.table_rows(tree.root() as int) == Ok::<Seq<reader::TableRow>, ErrorView>(tree.rows()),
{
    lemma_walk_tree(f, tree, Seq::empty(), Set::empty(), Seq::empty());
    assert(Seq::<reader::TableRow>::empty() + tree.rows() =~= tree.rows());
}

} // verus!
