//! What a damaged SQLite file is answered: what is cut short, runs in a circle
//! or holds what no writer writes is refused, and whatever is read is whole.

use vstd::prelude::*;

use crate::error::{AdapterErrorKind, ErrorView};
use crate::sqlite::bytes;
use crate::sqlite::bytes::TextEncoding;
use crate::sqlite::reader;
use crate::sqlite::reader::{FileView, TableRow};

verus! {

/// Whether an error says that the file is damaged.
pub open spec fn says_damaged(e: ErrorView) -> bool {
    e.kind() == Some(AdapterErrorKind::Storage) && e.code() == Some("corrupt_input"@)
}

/// Whether an error says that a value cannot be taken over.
pub open spec fn says_unsupported(e: ErrorView) -> bool {
    e.kind() == Some(AdapterErrorKind::Value) && e.code() == Some("unsupported_value"@)
}

// ---------------------------------------------------------------------------
// Numbers
// ---------------------------------------------------------------------------

/// A number of fixed width is read exactly where all of its bytes are there.
pub proof fn lemma_short_fields(b: Seq<u8>, offset: int)
    requires
        0 <= offset,
    ensures
        bytes::u16_at(b, offset) is Ok <==> offset + 2 <= b.len(),
        bytes::u32_at(b, offset) is Ok <==> offset + 4 <= b.len(),
        bytes::u64_at(b, offset) is Ok <==> offset + 8 <= b.len(),
        bytes::u16_at(b, offset) is Err ==> says_damaged(bytes::u16_at(b, offset)->Err_0),
        bytes::u32_at(b, offset) is Err ==> says_damaged(bytes::u32_at(b, offset)->Err_0),
        bytes::u64_at(b, offset) is Err ==> says_damaged(bytes::u64_at(b, offset)->Err_0),
{
}

/// Whether the bytes from `start` on all say that another one follows, up to
/// the end, and there are too few for that.
pub open spec fn unended(b: Seq<u8>, start: int) -> bool {
    b.len() < start + 9 && forall|k: int| start <= k < b.len() ==> #[trigger] b[k] >= 0x80
}

proof fn lemma_unended_from(b: Seq<u8>, start: int, index: int, head: int)
    requires
        0 <= start,
        0 <= index <= 8,
        forall|k: int| start <= k < start + index && k < b.len() ==> #[trigger] b[k] >= 0x80,
        start + index <= b.len(),
    ensures
        bytes::varint_rest(b, start, index, head) is Err <==> unended(b, start),
        bytes::varint_rest(b, start, index, head) is Err ==> says_damaged(
            bytes::varint_rest(b, start, index, head)->Err_0,
        ),
        bytes::varint_rest(b, start, index, head) matches Ok((_, taken)) ==> start + taken
            <= b.len() && index < taken <= 9,
    decreases 9 - index,
{
    if start + index < b.len() {
        if index < 8 && b[start + index] >= 0x80 {
            lemma_unended_from(b, start, index + 1, head * 128 + (b[start + index] - 0x80));
        }
    }
}

/// A variable-length integer is refused exactly where the bytes end before it
/// does. One that is read takes from one to nine bytes, all of which are there.
pub proof fn lemma_unended_varints(b: Seq<u8>, start: int)
    requires
        0 <= start <= b.len(),
    ensures
        bytes::varint_at(b, start) is Err <==> unended(b, start),
        bytes::varint_at(b, start) is Err ==> says_damaged(bytes::varint_at(b, start)->Err_0),
        bytes::varint_at(b, start) matches Ok((_, taken)) ==> 1 <= taken <= 9 && start + taken
            <= b.len(),
{
    lemma_unended_from(b, start, 0, 0);
}

// ---------------------------------------------------------------------------
// Texts
// ---------------------------------------------------------------------------

proof fn lemma_text_of_units(units: Seq<u16>)
    ensures
        bytes::utf16_text(units) matches Some(s) ==> crate::sqlite::format::text_units(s) == units,
    decreases units.len(),
{
    if units.len() == 0 {
        assert(units =~= Seq::<u16>::empty());
    } else if !(0xd800 <= units[0] <= 0xdfff) {
        lemma_text_of_units(units.skip(1));
        if let Some(rest) = bytes::utf16_text(units.skip(1)) {
            let c = units[0] as char;
            let s = seq![c] + rest;
            vstd::utf8::char_u32_cast(c, units[0] as u32);
            assert(s.drop_first() =~= rest);
            assert(c as u32 == units[0] as u32);
            assert(crate::sqlite::format::char_units(c) + units.skip(1) =~= units);
        }
    } else if units.len() > 1 && units[0] <= 0xdbff && 0xdc00 <= units[1] <= 0xdfff {
        lemma_text_of_units(units.skip(2));
        if let Some(rest) = bytes::utf16_text(units.skip(2)) {
            let n = (0x1_0000 + (units[0] - 0xd800) * 0x400 + (units[1] - 0xdc00)) as u32;
            let c = n as char;
            let s = seq![c] + rest;
            vstd::utf8::char_u32_cast(c, n);
            assert(s.drop_first() =~= rest);
            assert(c as u32 == n);
            assert(crate::sqlite::format::char_units(c) + units.skip(2) =~= units);
        }
    }
}

proof fn lemma_bytes_of_units(b: Seq<u8>, little_endian: bool)
    requires
        b.len() % 2 == 0,
    ensures
        crate::sqlite::format::unit_bytes(bytes::code_units(b, little_endian), little_endian) == b,
{
    let units = bytes::code_units(b, little_endian);
    let back = crate::sqlite::format::unit_bytes(units, little_endian);
    assert(back.len() == b.len());
    assert forall|i: int| 0 <= i < b.len() implies back[i] == b[i] by {
        let k = i / 2;
        let u = units[k];
        assert(i == 2 * k || i == 2 * k + 1);
        let low = if little_endian {
            b[2 * k]
        } else {
            b[2 * k + 1]
        };
        let high = if little_endian {
            b[2 * k + 1]
        } else {
            b[2 * k]
        };
        assert(u as int == high as int * 256 + low as int);
        assert(u as int % 256 == low as int);
        assert(u as int / 256 == high as int);
    }
    assert(back =~= b);
}

/// Only the bytes of a text are read as one: a text that was read has exactly
/// these bytes in its encoding. Other bytes are refused: half a code unit, half
/// a surrogate pair, bytes that are not UTF-8.
pub proof fn lemma_only_texts_are_read(b: Seq<u8>, encoding: TextEncoding)
    ensures
        bytes::decoded_text(b, encoding) matches Ok(s) ==> crate::sqlite::format::text_bytes(s, encoding) == b,
        bytes::decoded_text(b, encoding) matches Err(e) ==> says_unsupported(e),
        !(encoding is Utf8) && b.len() % 2 == 1 ==> bytes::decoded_text(b, encoding) is Err,
        encoding is Utf8 && !vstd::utf8::valid_utf8(b) ==> bytes::decoded_text(b, encoding) is Err,
{
    if encoding is Utf8 {
        if vstd::utf8::valid_utf8(b) {
            vstd::utf8::decode_utf8_encode_utf8(b);
        }
    } else {
        let little_endian = encoding is Utf16Le;
        if b.len() % 2 == 0 {
            lemma_text_of_units(bytes::code_units(b, little_endian));
            lemma_bytes_of_units(b, little_endian);
        }
    }
}

// ---------------------------------------------------------------------------
// Records
// ---------------------------------------------------------------------------

/// The bytes that a column of a serial type takes.
pub open spec fn body_size(serial_type: int) -> int {
    if serial_type >= 12 {
        (serial_type - 12) / 2
    } else if serial_type == 1 || serial_type == 2 || serial_type == 3 || serial_type == 4 {
        serial_type
    } else if serial_type == 5 {
        6
    } else if serial_type == 6 || serial_type == 7 {
        8
    } else {
        0
    }
}

/// A column is read only where all of its bytes are there, and what follows it
/// starts behind them. A real that is no number, a text that is none and the
/// two reserved serial types are refused.
pub proof fn lemma_short_columns(
    serial_type: int,
    payload: Seq<u8>,
    position: int,
    encoding: TextEncoding,
)
    requires
        0 <= serial_type,
        0 <= position <= payload.len(),
        payload.len() <= usize::MAX,
    ensures
        ({
            let outcome = reader::serial_value(serial_type, payload, position, encoding);
            let end = position + body_size(serial_type);
            &&& serial_type == 10 || serial_type == 11 ==> outcome is Err && says_damaged(
                outcome->Err_0,
            )
            &&& end > payload.len() ==> outcome is Err && says_damaged(outcome->Err_0)
            &&& outcome is Ok ==> outcome->Ok_0.1 == end && end <= payload.len()
            &&& outcome is Err && end <= payload.len() && serial_type != 10 && serial_type != 11
                ==> says_unsupported(outcome->Err_0) && (serial_type == 7 || serial_type >= 13
                && serial_type % 2 == 1)
            &&& serial_type == 7 && end <= payload.len() ==> (outcome is Ok <==> bytes::big_endian(
                payload.subrange(position, end),
            ) % 0x8000_0000_0000_0000 < 0x7ff0_0000_0000_0000)
        }),
{
    let end = position + body_size(serial_type);
    if end <= payload.len() {
        let b = payload.subrange(position, end);
        lemma_only_texts_are_read(b, encoding);
        if serial_type == 7 {
            bytes::lemma_big_endian_bound(b);
            let bits = bytes::big_endian(b) as u64;
            assert(b.len() == 8);
            lemma_eight_bytes(b);
            crate::value::lemma_finite_bits(bits);
        }
    }
}

proof fn lemma_eight_bytes(b: Seq<u8>)
    requires
        b.len() == 8,
    ensures
        bytes::big_endian(b) < 0x1_0000_0000_0000_0000,
{
    reveal_with_fuel(bytes::big_endian, 9);
}

/// The bytes that columns take together.
pub open spec fn body_sizes(types: Seq<int>) -> int
    decreases types.len(),
{
    if types.len() == 0 {
        0
    } else {
        body_size(types[0]) + body_sizes(types.drop_first())
    }
}

proof fn lemma_body_sizes(types: Seq<int>)
    requires
        forall|k: int| 0 <= k < types.len() ==> #[trigger] types[k] >= 0,
    ensures
        body_sizes(types) >= 0,
    decreases types.len(),
{
    if types.len() > 0 {
        assert(types[0] >= 0);
        lemma_body_sizes(types.drop_first());
    }
}

proof fn lemma_columns_fit(
    types: Seq<int>,
    payload: Seq<u8>,
    position: int,
    encoding: TextEncoding,
)
    requires
        forall|k: int| 0 <= k < types.len() ==> #[trigger] types[k] >= 0,
        0 <= position <= payload.len(),
        payload.len() <= usize::MAX,
    ensures
        reader::serial_values(types, payload, position, encoding) matches Ok(values) ==> {
            &&& values.len() == types.len()
            &&& position + body_sizes(types) <= payload.len()
            &&& forall|k: int|
                0 <= k < types.len() ==> #[trigger] types[k] != 10 && types[k] != 11
        },
    decreases types.len(),
{
    if types.len() > 0 {
        assert(types[0] >= 0);
        lemma_short_columns(types[0], payload, position, encoding);
        if reader::serial_value(types[0], payload, position, encoding) is Ok {
            let end = reader::serial_value(types[0], payload, position, encoding)->Ok_0.1;
            let rest = types.drop_first();
            assert forall|k: int| 0 <= k < rest.len() implies #[trigger] rest[k] >= 0 by {
                assert(types[k + 1] >= 0);
            }
            lemma_columns_fit(rest, payload, end, encoding);
            if reader::serial_values(types, payload, position, encoding) is Ok {
                assert forall|k: int| 0 <= k < types.len() implies #[trigger] types[k] != 10
                    && types[k] != 11 by {
                    if k > 0 {
                        assert(rest[k - 1] == types[k]);
                    }
                }
            }
        }
    }
}

proof fn lemma_varint_is_a_number(b: Seq<u8>, start: int, index: int, head: int)
    requires
        0 <= index <= 8,
        0 <= head,
    ensures
        bytes::varint_rest(b, start, index, head) matches Ok((n, _)) ==> n >= 0,
    decreases 9 - index,
{
    if 0 <= start && start + index < b.len() {
        if index < 8 && b[start + index] >= 0x80 {
            lemma_varint_is_a_number(b, start, index + 1, head * 128 + (b[start + index] - 0x80));
        }
    }
}

proof fn lemma_types_fill_the_header(payload: Seq<u8>, position: int, header_size: int)
    requires
        0 <= position,
        header_size <= payload.len(),
    ensures
        reader::serial_types(payload, position, header_size) matches Ok(types) ==> {
            &&& position <= header_size
            &&& types.len() <= header_size - position <= 9 * types.len()
            &&& forall|k: int| 0 <= k < types.len() ==> #[trigger] types[k] >= 0
        },
    decreases
            if position <= header_size {
                header_size - position + 1
            } else {
                0
            },
{
    if position < header_size {
        lemma_unended_varints(payload, position);
        lemma_varint_is_a_number(payload, position, 0, 0);
        if let Ok((serial_type, taken)) = bytes::varint_at(payload, position) {
            lemma_types_fill_the_header(payload, position + taken, header_size);
            if let Ok(rest) = reader::serial_types(payload, position + taken, header_size) {
                let types = seq![serial_type] + rest;
                assert forall|k: int| 0 <= k < types.len() implies #[trigger] types[k] >= 0 by {
                    if k > 0 {
                        assert(types[k] == rest[k - 1]);
                    }
                }
            }
        }
    }
}

/// A record that was read is whole: its header lies inside it and is filled by
/// its serial types, the bytes of all columns follow, and each serial type
/// gave one value.
pub proof fn lemma_read_records_are_whole(payload: Seq<u8>, encoding: TextEncoding)
    requires
        payload.len() <= usize::MAX,
        reader::record(payload, encoding) is Ok,
    ensures
        bytes::varint_at(payload, 0) is Ok,
        ({
            let (header_size, start) = bytes::varint_at(payload, 0)->Ok_0;
            let types = reader::serial_types(payload, start, header_size);
            &&& start <= header_size <= payload.len()
            &&& types is Ok
            &&& types->Ok_0.len() <= header_size - start <= 9 * types->Ok_0.len()
            &&& reader::record(payload, encoding)->Ok_0.len() == types->Ok_0.len()
            &&& header_size + body_sizes(types->Ok_0) <= payload.len()
            &&& forall|k: int|
                0 <= k < types->Ok_0.len() ==> #[trigger] types->Ok_0[k] != 10 && types->Ok_0[k]
                    != 11
        }),
{
    lemma_unended_varints(payload, 0);
    let (header_size, start) = bytes::varint_at(payload, 0)->Ok_0;
    lemma_types_fill_the_header(payload, start, header_size);
    let types = reader::serial_types(payload, start, header_size)->Ok_0;
    lemma_columns_fit(types, payload, header_size, encoding);
}

// ---------------------------------------------------------------------------
// Pages and tables
// ---------------------------------------------------------------------------

/// A file whose first bytes are not those of a SQLite file, or that is shorter
/// than a header, is damaged.
pub proof fn lemma_damaged_headers(b: Seq<u8>)
    requires
        b.len() < 100 || b[15] != 0 || exists|i: int|
            0 <= i < 15 && #[trigger] b[i] as char != "SQLite format 3"@[i],
    ensures
        reader::opened(b) is Err,
        says_damaged(reader::opened(b)->Err_0),
{
    if reader::has_magic(b) && b.len() >= 100 {
        reveal_strlit("SQLite format 3");
        assert forall|i: int| 0 <= i < 15 implies #[trigger] b[i] as char
            == "SQLite format 3"@[i] by {
            assert(b.take(16)[i] == reader::magic()[i]);
        }
        assert(b.take(16)[15] == reader::magic()[15]);
    }
}

/// There is no page 0, and none behind the end of the file.
pub proof fn lemma_missing_pages(f: FileView, n: nat)
    requires
        0 < f.page_size,
        f.bytes.len() <= usize::MAX,
        n == 0 || n * f.page_size > f.bytes.len(),
    ensures
        f.page(n as int) is Err,
        says_damaged(f.page(n as int)->Err_0),
{
    crate::sqlite::format::lemma_pages_tile_the_file(f, n);
}

/// What is read from a chain of overflow pages is as long as what was asked
/// for. A chain that ends early or meets itself is refused.
pub proof fn lemma_chains_are_whole(f: FileView, n: int, remaining: int, visited: Set<int>)
    requires
        f.wf(),
        0 <= n,
        0 <= remaining,
    ensures
        f.overflow(n, remaining, visited) matches Ok(b) ==> b.len() == remaining,
        remaining > 0 && (n == 0 || visited.contains(n)) ==> f.overflow(n, remaining, visited)
            is Err && says_damaged(f.overflow(n, remaining, visited)->Err_0),
        remaining > 0 && f.page(n) is Err ==> f.overflow(n, remaining, visited) is Err,
    decreases remaining,
{
    if remaining > 0 && n != 0 && !visited.contains(n) {
        if let Ok(p) = f.page(n) {
            reader::lemma_page_number(f, n);
            let take = if remaining < f.usable - 4 {
                remaining
            } else {
                f.usable - 4
            };
            let next = bytes::big_endian(p.subrange(0, 4)) as int;
            lemma_chains_are_whole(f, next, remaining - take, visited.insert(n));
        }
    }
}

/// A cell that was read is whole: its payload has the length that the cell
/// gives, and the part that the page keeps ends inside the page.
pub proof fn lemma_read_cells_are_whole(f: FileView, page: Seq<u8>, pointer: int)
    requires
        f.wf(),
        0 <= pointer <= page.len(),
        f.leaf_payload(page, pointer) is Ok,
    ensures
        bytes::varint_at(page, pointer) is Ok,
        ({
            let (size, taken) = bytes::varint_at(page, pointer)->Ok_0;
            let rowid = bytes::varint_at(page, pointer + taken);
            &&& rowid is Ok
            &&& f.leaf_payload(page, pointer)->Ok_0.1.len() == size
            &&& pointer + taken + rowid->Ok_0.1 + reader::local_size(f.usable, size) <= page.len()
        }),
{
    lemma_unended_varints(page, pointer);
    lemma_varint_is_a_number(page, pointer, 0, 0);
    let (size, taken) = bytes::varint_at(page, pointer)->Ok_0;
    lemma_unended_varints(page, pointer + taken);
    let after = bytes::varint_at(page, pointer + taken)->Ok_0.1;
    let start = pointer + taken + after;
    let local = reader::local_size(f.usable, size);
    lemma_kept_size(f.usable, size);
    if local != size {
        let next = bytes::u32_at(page, start + local)->Ok_0;
        lemma_chains_are_whole(f, next as int, size - local, Set::empty());
    }
}

proof fn lemma_kept_size(usable: int, size: int)
    requires
        usable >= 257,
        0 <= size,
    ensures
        0 <= reader::local_size(usable, size) <= size,
{
    let most = usable - 35;
    let least = (usable - 12) * 32 / 255 - 23;
    assert(0 <= least <= most) by {
        assert((usable - 12) * 32 / 255 >= 30);
        assert((usable - 12) * 32 / 255 <= usable - 12);
    }
    if size > most {
        assert(0 <= (size - least) % (usable - 4) <= size - least) by {
            vstd::arithmetic::div_mod::lemma_mod_decreases(
                (size - least) as nat,
                (usable - 4) as nat,
            );
        }
    }
}

/// A table without a root page is damaged, and so is one whose pages run in a
/// circle.
pub proof fn lemma_damaged_trees(
    f: FileView,
    n: int,
    path: Seq<reader::Frame>,
    visited: Set<int>,
    rows: Seq<TableRow>,
)
    requires
        f.wf(),
        0 <= n,
        visited.contains(n),
    ensures
        f.table_rows(0) is Err,
        says_damaged(f.table_rows(0)->Err_0),
        f.walk(Some(n), path, visited, rows) is Err,
        says_damaged(f.walk(Some(n), path, visited, rows)->Err_0),
{
}

/// A page of a table is a leaf, of type 13, or an inner page, of type 5. A page
/// of another type is refused.
pub proof fn lemma_foreign_pages(
    f: FileView,
    n: int,
    path: Seq<reader::Frame>,
    visited: Set<int>,
    rows: Seq<TableRow>,
)
    requires
        f.wf(),
        0 <= n,
        !visited.contains(n),
        f.page(n) is Ok,
        ({
            let kind = f.page(n)->Ok_0[if n == 1 {
                100
            } else {
                0
            }];
            kind != 5 && kind != 13
        }),
    ensures
        f.walk(Some(n), path, visited, rows) is Err,
        f.walk(Some(n), path, visited, rows)->Err_0.kind() == Some(AdapterErrorKind::Capability),
        f.walk(Some(n), path, visited, rows)->Err_0.code() == Some("unsupported_schema"@),
{
}

proof fn lemma_leaf_rows_one_for_one(f: FileView, page: Seq<u8>, header: int, i: int, cells: int)
    requires
        i <= cells,
    ensures
        f.leaf_rows(page, header, i, cells) matches Ok(rows) ==> {
            &&& rows.len() == cells - i
            &&& forall|k: int|
                0 <= k < rows.len() ==> f.leaf_row(page, header, i + k) == Ok::<
                    TableRow,
                    ErrorView,
                >(#[trigger] rows[k])
        },
    decreases cells - i,
{
    if i < cells {
        lemma_leaf_rows_one_for_one(f, page, header, i + 1, cells);
        if let Ok(rows) = f.leaf_rows(page, header, i, cells) {
            let rest = f.leaf_rows(page, header, i + 1, cells)->Ok_0;
            assert forall|k: int| 0 <= k < rows.len() implies f.leaf_row(page, header, i + k)
                == Ok::<TableRow, ErrorView>(#[trigger] rows[k]) by {
                if k > 0 {
                    assert(rows[k] == rest[k - 1]);
                    assert(f.leaf_row(page, header, i + 1 + (k - 1)) == Ok::<TableRow, ErrorView>(
                        rest[k - 1],
                    ));
                }
            }
        }
    }
}

/// A table on one leaf page that was read has as many rows as the page has
/// cells, each read from its cell; one cell that cannot be read fails the
/// table. The number of cells stands in the fourth and fifth byte of the page's
/// header, behind the file's header on page 1.
pub proof fn lemma_leaf_tables(f: FileView, root: int)
    requires
        f.wf(),
        0 < root,
        f.page(root) is Ok,
        f.page(root)->Ok_0[if root == 1 {
            100
        } else {
            0
        }] == 13,
    ensures
        f.table_rows(root) matches Ok(rows) ==> {
            let page = f.page(root)->Ok_0;
            let header = if root == 1 {
                100int
            } else {
                0
            };
            &&& rows.len() == page[header + 3] * 256 + page[header + 4]
            &&& forall|k: int|
                0 <= k < rows.len() ==> f.leaf_row(page, header, k) == Ok::<TableRow, ErrorView>(
                    #[trigger] rows[k],
                )
        },
{
    let page = f.page(root)->Ok_0;
    let header = reader::tree_header(root);
    reader::lemma_page_number(f, root);
    let cells = f.cells(page, header);
    let two = page.subrange(header + 3, header + 5);
    assert(bytes::big_endian(two) == two[0] * 256 + two[1]) by {
        reveal_with_fuel(bytes::big_endian, 3);
    }
    lemma_leaf_rows_one_for_one(f, page, header, 0, cells);
    reader::lemma_visit(f, Set::empty(), root);
    if let Ok(more) = f.leaf_rows(page, header, 0, cells) {
        let none = Seq::<TableRow>::empty();
        assert(none + more =~= more);
        assert(f.walk(None, Seq::empty(), Set::empty().insert(root), more) == Ok::<
            Seq<TableRow>,
            ErrorView,
        >(more));
        assert forall|k: int| 0 <= k < more.len() implies f.leaf_row(page, header, k) == Ok::<
            TableRow,
            ErrorView,
        >(#[trigger] more[k]) by {
            assert(f.leaf_row(page, header, 0 + k) == Ok::<TableRow, ErrorView>(more[k]));
        }
    }
}

} // verus!
