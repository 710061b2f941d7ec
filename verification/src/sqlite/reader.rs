//! A read-only view of the bytes of a SQLite file: pages, table b-trees and
//! records.

use std::collections::HashSet;

use vstd::prelude::*;

use crate::error::{AdapterErrorKind, DactylError, ErrorView};
use crate::sqlite::bytes;
use crate::sqlite::bytes::TextEncoding;
use crate::text;
use crate::value::{Number, Value, ValueView};

verus! {

/// The number of bytes of the file header.
pub const HEADER_SIZE: usize = 100;

/// A database file, as its header describes it.
#[verifier::ext_equal]
pub ghost struct FileView {
    pub bytes: Seq<u8>,
    pub page_size: int,
    /// The bytes of a page that hold content.
    pub usable: int,
    pub encoding: TextEncoding,
}

/// What identifies the state of a source file while it is read.
#[derive(Debug, Clone, Copy, PartialEq, Eq, Structural)]
pub struct SourceStamp {
    pub len: u64,
    /// Nanoseconds from the epoch to the last modification, where known.
    pub modified: Option<i128>,
}

// ---------------------------------------------------------------------------
// The header
// ---------------------------------------------------------------------------

/// The bytes that every SQLite file starts with.
pub open spec fn magic() -> Seq<u8> {
    seq![
        0x53u8, 0x51, 0x4c, 0x69, 0x74, 0x65, 0x20, 0x66, 0x6f, 0x72, 0x6d, 0x61, 0x74, 0x20, 0x33,
        0x00,
    ]
}

/// Whether bytes start like a SQLite file.
pub open spec fn has_magic(b: Seq<u8>) -> bool {
    b.len() >= 16 && b.take(16) == magic()
}

/// The sizes that a page can have.
pub open spec fn is_page_size(n: int) -> bool {
    n == 512 || n == 1024 || n == 2048 || n == 4096 || n == 8192 || n == 16384 || n == 32768 || n
        == 65536
}

/// The page size that a file's header gives; 1 stands for 65536.
pub open spec fn header_page_size(b: Seq<u8>) -> int {
    let raw = bytes::big_endian(b.subrange(16, 18));
    if raw == 1 {
        65536
    } else {
        raw as int
    }
}

/// The file that bytes make, or why they make none.
pub open spec fn opened(b: Seq<u8>) -> Result<FileView, ErrorView> {
    let page_size = header_page_size(b);
    let encoding = bytes::big_endian(b.subrange(56, 60));
    if b.len() < 100 || !has_magic(b) {
        Err(bytes::corrupted("SQLite header is missing or truncated"@))
    } else if !is_page_size(page_size) {
        Err(
            crate::error::coded(
                AdapterErrorKind::Capability,
                "unsupported_schema"@,
                "unsupported SQLite page size "@ + text::decimal(page_size as nat),
            ),
        )
    } else if b[20] >= page_size || b.len() as int % page_size != 0 {
        Err(bytes::corrupted("invalid SQLite page geometry"@))
    } else if encoding != 1 && encoding != 2 && encoding != 3 {
        Err(
            crate::error::coded(
                AdapterErrorKind::Capability,
                "unsupported_value"@,
                "unsupported SQLite text encoding "@ + text::decimal(encoding),
            ),
        )
    } else {
        Ok(
            FileView {
                bytes: b,
                page_size,
                usable: page_size - b[20],
                encoding: if encoding == 1 {
                    TextEncoding::Utf8
                } else if encoding == 2 {
                    TextEncoding::Utf16Le
                } else {
                    TextEncoding::Utf16Be
                },
            },
        )
    }
}

impl FileView {
    /// A file that [`opened`] can give.
    pub open spec fn wf(self) -> bool {
        &&& is_page_size(self.page_size)
        &&& self.page_size - 255 <= self.usable <= self.page_size
        &&& self.bytes.len() <= usize::MAX
    }

    /// A page of the file, counted from 1.
    pub open spec fn page(self, n: int) -> Result<Seq<u8>, ErrorView> {
        let start = (n - 1) * self.page_size;
        let end = start + self.page_size;
        if n == 0 {
            Err(bytes::corrupted("SQLite page number is zero"@))
        } else if start > usize::MAX {
            Err(bytes::corrupted("SQLite page offset overflow"@))
        } else if end > usize::MAX {
            Err(bytes::corrupted("SQLite page end overflow"@))
        } else if end > self.bytes.len() {
            Err(
                bytes::corrupted(
                    "SQLite page "@ + text::decimal(n as nat) + " is outside the file"@,
                ),
            )
        } else {
            Ok(self.bytes.subrange(start, end))
        }
    }

    /// The numbers that pages of the file can have.
    pub open spec fn page_numbers(self) -> Set<int> {
        vstd::set_lib::set_int_range(1, self.bytes.len() as int + 1)
    }

    /// The pages that have not been visited.
    pub open spec fn unvisited(self, visited: Set<int>) -> nat {
        self.page_numbers().difference(visited).len()
    }
}

/// A page of the file has a number from 1 to the file's length.
pub proof fn lemma_page_number(f: FileView, n: int)
    requires
        f.page_size > 0,
        n >= 0,
        f.page(n) is Ok,
    ensures
        f.page_numbers().contains(n),
        f.page(n)->Ok_0.len() == f.page_size,
        0 <= (n - 1) * f.page_size,
{
    assert((n - 1) * f.page_size >= 0 && n <= (n - 1) * f.page_size + f.page_size) by (nonlinear_arith)
        requires
            n >= 1,
            f.page_size > 0,
    ;
}

/// Visiting a page of the file leaves fewer pages to visit.
pub proof fn lemma_visit(f: FileView, visited: Set<int>, n: int)
    requires
        f.page_size > 0,
        n >= 0,
        f.page(n) is Ok,
        !visited.contains(n),
    ensures
        f.unvisited(visited.insert(n)) < f.unvisited(visited),
{
    lemma_page_number(f, n);
    let all = f.page_numbers();
    vstd::set_lib::lemma_int_range(1, f.bytes.len() as int + 1);
    let before = all.difference(visited);
    let after = all.difference(visited.insert(n));
    vstd::set_lib::lemma_len_subset(before, all);
    assert(after =~= before.remove(n));
    assert(before.contains(n));
}

/// A database file opened for reading.
pub struct SqliteReader {
    bytes: Vec<u8>,
    page_size: usize,
    usable_size: usize,
    encoding: TextEncoding,
}

/// Whether bytes start like a SQLite file.
pub fn starts_with_magic(b: &[u8]) -> (r: bool)
    ensures
        r == has_magic(b@),
{
    let expected: [u8; 16] = [
        0x53, 0x51, 0x4c, 0x69, 0x74, 0x65, 0x20, 0x66, 0x6f, 0x72, 0x6d, 0x61, 0x74, 0x20, 0x33, 0x00,
    ];
    assert(expected@ =~= magic());
    if b.len() < 16 {
        return false;
    }
    let mut i: usize = 0;
    while i < 16
        invariant
            i <= 16 <= b@.len(),
            expected@ == magic(),
            forall|k: int| 0 <= k < i ==> b@[k] == #[trigger] expected@[k],
        decreases 16 - i,
    {
        if b[i] != expected[i] {
            assert(b@.take(16)[i as int] != magic()[i as int]);
            return false;
        }
        i = i + 1;
    }
    assert(b@.take(16) =~= magic());
    true
}

impl SqliteReader {
    pub closed spec fn view(self) -> FileView {
        FileView {
            bytes: self.bytes@,
            page_size: self.page_size as int,
            usable: self.usable_size as int,
            encoding: self.encoding,
        }
    }

    #[verifier::type_invariant]
    closed spec fn well_formed(self) -> bool {
        self@.wf()
    }

    /// Open the bytes of a database file that were read between two looks at
    /// the file. A file that changed in between is refused.
    pub fn open(bytes: Vec<u8>, before: SourceStamp, after: SourceStamp) -> (r: Result<
        Self,
        DactylError,
    >)
        ensures
            before != after ==> r is Err && r->Err_0@ == crate::error::coded(
                AdapterErrorKind::Storage,
                "source_changed"@,
                "SQLite source changed during the read-only import"@,
            ),
            before == after ==> match opened(bytes@) {
                Ok(file) => r is Ok && r->Ok_0@ == file,
                Err(e) => r is Err && r->Err_0@ == e,
            },
    {
        if before != after {
            return Err(
                bytes::coded(
                    AdapterErrorKind::Storage,
                    "source_changed",
                    "SQLite source changed during the read-only import",
                ),
            );
        }
        let b = bytes.as_slice();
        if b.len() < HEADER_SIZE || !starts_with_magic(b) {
            return Err(bytes::corrupt("SQLite header is missing or truncated"));
        }
        let raw: u16 = match bytes::read_u16(b, 16) {
            Ok(raw) => raw,
            Err(e) => {
                return Err(e);
            },
        };
        proof {
            bytes::lemma_big_endian_bound(b@.subrange(16, 18));
            bytes::lemma_big_endian_bound(b@.subrange(56, 60));
        }
        let page_size: usize = if raw == 1 {
            65536
        } else {
            raw as usize
        };
        if !(page_size == 512 || page_size == 1024 || page_size == 2048 || page_size == 4096
            || page_size == 8192 || page_size == 16384 || page_size == 32768 || page_size
            == 65536) {
            return Err(
                bytes::coded(
                    AdapterErrorKind::Capability,
                    "unsupported_schema",
                    "unsupported SQLite page size ".to_string().concat(
                        text::decimal_text(page_size as u64).as_str(),
                    ).as_str(),
                ),
            );
        }
        let reserved: usize = b[20] as usize;
        if reserved >= page_size || b.len() % page_size != 0 {
            return Err(bytes::corrupt("invalid SQLite page geometry"));
        }
        let encoding: TextEncoding = match bytes::read_u32(b, 56) {
            Ok(1) => TextEncoding::Utf8,
            Ok(2) => TextEncoding::Utf16Le,
            Ok(3) => TextEncoding::Utf16Be,
            Ok(value) => {
                return Err(
                    bytes::coded(
                        AdapterErrorKind::Capability,
                        "unsupported_value",
                        "unsupported SQLite text encoding ".to_string().concat(
                            text::decimal_text(value as u64).as_str(),
                        ).as_str(),
                    ),
                );
            },
            Err(e) => {
                return Err(e);
            },
        };
        let usable_size: usize = page_size - reserved;
        Ok(SqliteReader { bytes, page_size, usable_size, encoding })
    }

    /// A page of the file, counted from 1.
    fn page(&self, page_number: u32) -> (r: Result<&[u8], DactylError>)
        ensures
            match self@.page(page_number as int) {
                Ok(p) => r is Ok && r->Ok_0@ == p,
                Err(e) => r is Err && r->Err_0@ == e,
            },
    {
        proof {
            use_type_invariant(self);
        }
        if page_number == 0 {
            return Err(bytes::corrupt("SQLite page number is zero"));
        }
        let start: usize = match (page_number as usize - 1).checked_mul(self.page_size) {
            Some(start) => start,
            None => {
                return Err(bytes::corrupt("SQLite page offset overflow"));
            },
        };
        let end: usize = match start.checked_add(self.page_size) {
            Some(end) => end,
            None => {
                return Err(bytes::corrupt("SQLite page end overflow"));
            },
        };
        if end > self.bytes.len() {
            return Err(
                bytes::corrupt(
                    "SQLite page ".to_string().concat(
                        text::decimal_text(page_number as u64).as_str(),
                    ).concat(" is outside the file").as_str(),
                ),
            );
        }
        Ok(vstd::slice::slice_subrange(self.bytes.as_slice(), start, end))
    }
}

// ---------------------------------------------------------------------------
// Payloads
// ---------------------------------------------------------------------------

/// An unsigned 64-bit number read as a signed one.
pub open spec fn as_signed(n: int) -> int {
    if n < 0x8000_0000_0000_0000 {
        n
    } else {
        n - 0x1_0000_0000_0000_0000
    }
}

/// How much of a payload a table leaf cell holds itself.
pub open spec fn local_size(usable: int, size: int) -> int {
    let most = usable - 35;
    let least = (usable - 12) * 32 / 255 - 23;
    let surplus = least + (size - least) % (usable - 4);
    if size <= most {
        size
    } else if surplus > most {
        least
    } else {
        surplus
    }
}

proof fn lemma_local_size(usable: int, size: int)
    requires
        257 <= usable <= 65536,
        0 <= size,
    ensures
        0 <= local_size(usable, size) <= size,
        0 <= (usable - 12) * 32 / 255 - 23 <= usable - 35,
{
    let least = (usable - 12) * 32 / 255 - 23;
    if size > usable - 35 {
        vstd::arithmetic::div_mod::lemma_mod_bound(size - least, usable - 4);
        vstd::arithmetic::div_mod::lemma_mod_decreases((size - least) as nat, (usable - 4) as nat);
    }
}

impl FileView {
    /// The rest of a payload from the overflow page `n` on.
    pub open spec fn overflow(self, n: int, remaining: int, visited: Set<int>) -> Result<
        Seq<u8>,
        ErrorView,
    >
        decreases remaining,
    {
        if remaining <= 0 || self.usable <= 4 {
            Ok(Seq::empty())
        } else if n == 0 || visited.contains(n) {
            Err(bytes::corrupted("SQLite overflow chain is invalid"@))
        } else {
            match self.page(n) {
                Err(e) => Err(e),
                Ok(p) => {
                    let take = if remaining < self.usable - 4 {
                        remaining
                    } else {
                        self.usable - 4
                    };
                    let next = bytes::big_endian(p.subrange(0, 4)) as int;
                    match self.overflow(next, remaining - take, visited.insert(n)) {
                        Ok(rest) => Ok(p.subrange(4, 4 + take) + rest),
                        Err(e) => Err(e),
                    }
                },
            }
        }
    }

    /// The row id and the payload of the table leaf cell at `pointer`.
    pub open spec fn leaf_payload(self, page: Seq<u8>, pointer: int) -> Result<
        (int, Seq<u8>),
        ErrorView,
    > {
        match bytes::varint_at(page, pointer) {
            Err(e) => Err(e),
            Ok((size, after_size)) => match bytes::varint_at(page, pointer + after_size) {
                Err(e) => Err(e),
                Ok((rowid, after_rowid)) => {
                    let start = pointer + after_size + after_rowid;
                    let local = local_size(self.usable, size);
                    let head = page.subrange(start, start + local);
                    if size > usize::MAX {
                        Err(bytes::corrupted("SQLite payload is too large"@))
                    } else if start + local > page.len() {
                        Err(bytes::corrupted("SQLite table cell payload is truncated"@))
                    } else if local == size {
                        Ok((as_signed(rowid), head))
                    } else {
                        match bytes::u32_at(page, start + local) {
                            Err(e) => Err(e),
                            Ok(next) => match self.overflow(
                                next as int,
                                size - local,
                                Set::empty(),
                            ) {
                                Err(e) => Err(e),
                                Ok(rest) => Ok((as_signed(rowid), head + rest)),
                            },
                        }
                    }
                },
            },
        }
    }
}

fn to_signed(n: u64) -> (r: i64)
    ensures
        r == as_signed(n as int),
{
    if n < 0x8000_0000_0000_0000 {
        n as i64
    } else {
        (n - 0x8000_0000_0000_0000) as i64 + i64::MIN
    }
}

impl SqliteReader {
    fn local_part(&self, size: usize) -> (r: usize)
        ensures
            r == local_size(self@.usable, size as int),
            r <= size,
    {
        proof {
            use_type_invariant(self);
            lemma_local_size(self@.usable, size as int);
        }
        let most: usize = self.usable_size - 35;
        let least: usize = (self.usable_size - 12) * 32 / 255 - 23;
        if size <= most {
            size
        } else {
            proof {
                vstd::arithmetic::div_mod::lemma_mod_bound(
                    size - least,
                    self.usable_size - 4,
                );
            }
            let surplus: usize = least + (size - least) % (self.usable_size - 4);
            if surplus > most {
                least
            } else {
                surplus
            }
        }
    }

    /// The rest of a payload that continues on overflow pages.
    fn read_overflow(&self, first: u32, size: usize) -> (r: Result<Vec<u8>, DactylError>)
        ensures
            match self@.overflow(first as int, size as int, Set::empty()) {
                Ok(p) => r is Ok && r->Ok_0@ == p,
                Err(e) => r is Err && r->Err_0@ == e,
            },
    {
        broadcast use vstd::std_specs::hash::group_hash_axioms;

        proof {
            use_type_invariant(self);
        }
        let mut out: Vec<u8> = Vec::new();
        let mut seen: HashSet<u32> = HashSet::new();
        let ghost mut visited: Set<int> = Set::empty();
        let mut number: u32 = first;
        let mut remaining: usize = size;
        let room: usize = self.usable_size - 4;
        let ghost whole = self@.overflow(first as int, size as int, Set::empty());
        while remaining > 0
            invariant
                self@.wf(),
                room == self@.usable - 4,
                whole == self@.overflow(first as int, size as int, Set::empty()),
                forall|n: u32| seen@.contains(n) <==> visited.contains(n as int),
                match self@.overflow(number as int, remaining as int, visited) {
                    Ok(rest) => whole == Ok::<Seq<u8>, ErrorView>(out@ + rest),
                    Err(e) => whole == Err::<Seq<u8>, ErrorView>(e),
                },
            decreases remaining,
        {
            if number == 0 || !seen.insert(number) {
                return Err(bytes::corrupt("SQLite overflow chain is invalid"));
            }
            let page = match self.page(number) {
                Ok(page) => page,
                Err(e) => {
                    return Err(e);
                },
            };
            proof {
                lemma_page_number(self@, number as int);
                bytes::lemma_big_endian_bound(page@.subrange(0, 4));
            }
            let take: usize = if remaining < room {
                remaining
            } else {
                room
            };
            let ghost before = out@;
            let next: u32 = match bytes::read_u32(page, 0) {
                Ok(next) => next,
                Err(e) => {
                    return Err(e);
                },
            };
            out.extend_from_slice(vstd::slice::slice_subrange(page, 4, 4 + take));
            proof {
                let rest = self@.overflow(
                    next as int,
                    remaining - take,
                    visited.insert(number as int),
                );
                if rest is Ok {
                    assert(before + (page@.subrange(4, 4 + take) + rest->Ok_0) =~= out@
                        + rest->Ok_0);
                }
                visited = visited.insert(number as int);
            }
            remaining = remaining - take;
            number = next;
        }
        assert(out@ + Seq::<u8>::empty() =~= out@);
        Ok(out)
    }

    /// The row id and the payload of the table leaf cell at `pointer`.
    fn read_table_leaf_payload(&self, page: &[u8], pointer: usize) -> (r: Result<
        (i64, Vec<u8>),
        DactylError,
    >)
        ensures
            match self@.leaf_payload(page@, pointer as int) {
                Ok((rowid, payload)) => r is Ok && r->Ok_0.0 == rowid && r->Ok_0.1@ == payload,
                Err(e) => r is Err && r->Err_0@ == e,
            },
    {
        proof {
            use_type_invariant(self);
        }
        let len: usize = page.len();
        let (size, after_size) = match bytes::read_varint(page, pointer) {
            Ok(read) => read,
            Err(e) => {
                return Err(e);
            },
        };
        let (rowid, after_rowid) = match bytes::read_varint(page, pointer + after_size) {
            Ok(read) => read,
            Err(e) => {
                return Err(e);
            },
        };
        let start: usize = pointer + after_size + after_rowid;
        if size > usize::MAX as u64 {
            return Err(bytes::corrupt("SQLite payload is too large"));
        }
        let size: usize = size as usize;
        let local: usize = self.local_part(size);
        if len - start < local {
            return Err(bytes::corrupt("SQLite table cell payload is truncated"));
        }
        let mut payload: Vec<u8> = Vec::new();
        payload.extend_from_slice(vstd::slice::slice_subrange(page, start, start + local));
        assert(payload@ =~= page@.subrange(start as int, start + local));
        if local == size {
            return Ok((to_signed(rowid), payload));
        }
        let next: u32 = match bytes::read_u32(page, start + local) {
            Ok(next) => next,
            Err(e) => {
                return Err(e);
            },
        };
        match self.read_overflow(next, size - local) {
            Ok(rest) => {
                payload.extend_from_slice(rest.as_slice());
                Ok((to_signed(rowid), payload))
            },
            Err(e) => Err(e),
        }
    }
}

// ---------------------------------------------------------------------------
// Records
// ---------------------------------------------------------------------------

/// The number of bytes of a value of a serial type; the types 10 and 11 are
/// reserved.
pub open spec fn serial_size(serial_type: int) -> Option<int> {
    if serial_type == 0 || serial_type == 8 || serial_type == 9 {
        Some(0)
    } else if 1 <= serial_type <= 4 {
        Some(serial_type)
    } else if serial_type == 5 {
        Some(6)
    } else if serial_type == 6 || serial_type == 7 {
        Some(8)
    } else if serial_type >= 12 {
        Some((serial_type - 12) / 2)
    } else {
        None
    }
}

/// The value of a serial type that bytes spell.
pub open spec fn serial_cell(
    serial_type: int,
    b: Seq<u8>,
    encoding: TextEncoding,
) -> Result<ValueView, ErrorView> {
    if serial_type == 0 {
        Ok(ValueView::Null)
    } else if 1 <= serial_type <= 6 {
        Ok(ValueView::Number(Number::of_int(bytes::signed_value(b, serial_type) as i64)))
    } else if serial_type == 7 {
        let bits = bytes::big_endian(b) as u64;
        if crate::value::finite_bits(bits) {
            Ok(ValueView::Number(Number::Float(bits)))
        } else {
            Err(bytes::unsupported_value("non-finite REAL cannot be imported"@))
        }
    } else if serial_type == 8 {
        Ok(ValueView::Number(Number::PosInt(0)))
    } else if serial_type == 9 {
        Ok(ValueView::Number(Number::PosInt(1)))
    } else if serial_type % 2 == 0 {
        Ok(crate::value::blob_view(b))
    } else {
        match bytes::decoded_text(b, encoding) {
            Ok(s) => Ok(ValueView::Text(s)),
            Err(e) => Err(e),
        }
    }
}

/// The value of a serial type at `position` of a payload, and the position
/// behind it.
pub open spec fn serial_value(
    serial_type: int,
    payload: Seq<u8>,
    position: int,
    encoding: TextEncoding,
) -> Result<(ValueView, int), ErrorView> {
    match serial_size(serial_type) {
        None => Err(
            bytes::corrupted(
                "reserved SQLite serial type "@ + text::decimal(serial_type as nat),
            ),
        ),
        Some(size) => if position + size > usize::MAX {
            Err(bytes::corrupted("SQLite record value is too large"@))
        } else if position + size > payload.len() {
            Err(bytes::corrupted("SQLite record value is truncated"@))
        } else {
            match serial_cell(
                serial_type,
                payload.subrange(position, position + size),
                encoding,
            ) {
                Ok(v) => Ok((v, position + size)),
                Err(e) => Err(e),
            }
        },
    }
}

/// The serial types in a record's header from `position` on.
pub open spec fn serial_types(payload: Seq<u8>, position: int, header_size: int) -> Result<
    Seq<int>,
    ErrorView,
>
    decreases
            if position <= header_size {
                header_size - position + 1
            } else {
                0
            },
{
    if position < 0 || position > header_size {
        Err(bytes::corrupted("SQLite record header has invalid serial types"@))
    } else if position == header_size {
        Ok(Seq::empty())
    } else {
        proof {
            bytes::lemma_varint_bounds(payload, position);
        }
        match bytes::varint_at(payload, position) {
            Err(e) => Err(e),
            Ok((serial_type, taken)) => match serial_types(
                payload,
                position + taken,
                header_size,
            ) {
                Err(e) => Err(e),
                Ok(rest) => Ok(seq![serial_type] + rest),
            },
        }
    }
}

/// The values of the serial types, the first at `position`.
pub open spec fn serial_values(
    types: Seq<int>,
    payload: Seq<u8>,
    position: int,
    encoding: TextEncoding,
) -> Result<Seq<ValueView>, ErrorView>
    decreases types.len(),
{
    if types.len() == 0 {
        Ok(Seq::empty())
    } else {
        match serial_value(types[0], payload, position, encoding) {
            Err(e) => Err(e),
            Ok((v, end)) => match serial_values(types.drop_first(), payload, end, encoding) {
                Err(e) => Err(e),
                Ok(rest) => Ok(seq![v] + rest),
            },
        }
    }
}

/// The values of a record.
pub open spec fn record(payload: Seq<u8>, encoding: TextEncoding) -> Result<
    Seq<ValueView>,
    ErrorView,
> {
    match bytes::varint_at(payload, 0) {
        Err(e) => Err(e),
        Ok((header_size, start)) => if header_size > usize::MAX {
            Err(bytes::corrupted("SQLite record header is too large"@))
        } else if header_size < start || header_size > payload.len() {
            Err(bytes::corrupted("SQLite record header is truncated"@))
        } else {
            match serial_types(payload, start, header_size) {
                Err(e) => Err(e),
                Ok(types) => serial_values(types, payload, header_size, encoding),
            }
        },
    }
}

fn serial_size_of(serial_type: u64) -> (r: Option<u64>)
    ensures
        match serial_size(serial_type as int) {
            Some(size) => r is Some && r->Some_0 == size,
            None => r is None,
        },
{
    if serial_type == 0 || serial_type == 8 || serial_type == 9 {
        Some(0)
    } else if 1 <= serial_type && serial_type <= 4 {
        Some(serial_type)
    } else if serial_type == 5 {
        Some(6)
    } else if serial_type == 6 || serial_type == 7 {
        Some(8)
    } else if serial_type >= 12 {
        Some((serial_type - 12) / 2)
    } else {
        None
    }
}

/// The value of a serial type that bytes spell.
fn decode_serial_cell(serial_type: u64, b: &[u8], encoding: TextEncoding) -> (r: Result<
    Value,
    DactylError,
>)
    requires
        serial_size(serial_type as int) == Some(b@.len() as int),
    ensures
        match serial_cell(serial_type as int, b@, encoding) {
            Ok(v) => r is Ok && r->Ok_0@ == v,
            Err(e) => r is Err && r->Err_0@ == e,
        },
{
    if serial_type == 0 {
        Ok(Value::Null)
    } else if serial_type <= 6 {
        Ok(Value::Number(Number::from_i64(bytes::signed_integer(b, serial_type as usize))))
    } else if serial_type == 7 {
        assert(b@.subrange(0, 8) =~= b@);
        match bytes::read_u64(b, 0) {
            Ok(bits) => match Number::from_real_bits(bits) {
                Some(n) => Ok(Value::Number(n)),
                None => Err(
                    bytes::coded(
                        AdapterErrorKind::Value,
                        "unsupported_value",
                        "non-finite REAL cannot be imported",
                    ),
                ),
            },
            Err(e) => Err(e),
        }
    } else if serial_type == 8 {
        Ok(Value::Number(Number::PosInt(0)))
    } else if serial_type == 9 {
        Ok(Value::Number(Number::PosInt(1)))
    } else if serial_type % 2 == 0 {
        Ok(Value::from_blob(b))
    } else {
        bytes::decode_text(b, encoding)
    }
}

/// The value of a serial type at `position` of a payload, which moves behind
/// the value. A position that the value does not fit behind stays.
pub fn decode_serial_value(
    serial_type: u64,
    payload: &[u8],
    position: &mut usize,
    encoding: TextEncoding,
) -> (r: Result<Value, DactylError>)
    ensures
        match serial_value(serial_type as int, payload@, *old(position) as int, encoding) {
            Ok((v, end)) => r is Ok && r->Ok_0@ == v && *final(position) == end
                && *final(position) <= payload@.len(),
            Err(e) => r is Err && r->Err_0@ == e && *final(position) == *old(position),
        },
{
    let start: usize = *position;
    let len: usize = payload.len();
    let size: u64 = match serial_size_of(serial_type) {
        Some(size) => size,
        None => {
            return Err(
                bytes::corrupt(
                    "reserved SQLite serial type ".to_string().concat(
                        text::decimal_text(serial_type).as_str(),
                    ).as_str(),
                ),
            );
        },
    };
    if size > (usize::MAX - start) as u64 {
        return Err(bytes::corrupt("SQLite record value is too large"));
    }
    let size: usize = size as usize;
    if start > len || size > len - start {
        return Err(bytes::corrupt("SQLite record value is truncated"));
    }
    match decode_serial_cell(
        serial_type,
        vstd::slice::slice_subrange(payload, start, start + size),
        encoding,
    ) {
        Ok(v) => {
            *position = start + size;
            Ok(v)
        },
        Err(e) => Err(e),
    }
}

/// The serial types of a record's header.
fn read_serial_types(payload: &[u8], start: usize, header_size: usize) -> (r: Result<
    Vec<u64>,
    DactylError,
>)
    requires
        start <= header_size <= payload@.len(),
    ensures
        match serial_types(payload@, start as int, header_size as int) {
            Ok(types) => r is Ok && r->Ok_0@.map_values(|t: u64| t as int) == types,
            Err(e) => r is Err && r->Err_0@ == e,
        },
{
    let mut types: Vec<u64> = Vec::new();
    let mut position: usize = start;
    let ghost whole = serial_types(payload@, start as int, header_size as int);
    let len: usize = payload.len();
    proof {
        if whole is Ok {
            assert(types@.map_values(|t: u64| t as int) + whole->Ok_0 =~= whole->Ok_0);
        }
    }
    while position < header_size
        invariant
            position <= len == payload@.len(),
            header_size <= len,
            whole == serial_types(payload@, start as int, header_size as int),
            match serial_types(payload@, position as int, header_size as int) {
                Ok(rest) => whole == Ok::<Seq<int>, ErrorView>(
                    types@.map_values(|t: u64| t as int) + rest,
                ),
                Err(e) => whole == Err::<Seq<int>, ErrorView>(e),
            },
        decreases len - position,
    {
        let (serial_type, taken) = match bytes::read_varint(payload, position) {
            Ok(read) => read,
            Err(e) => {
                return Err(e);
            },
        };
        proof {
            let before = types@.map_values(|t: u64| t as int);
            let rest = serial_types(payload@, position + taken, header_size as int);
            if rest is Ok {
                assert(types@.push(serial_type).map_values(|t: u64| t as int) + rest->Ok_0
                    =~= before + (seq![serial_type as int] + rest->Ok_0));
            }
        }
        types.push(serial_type);
        position = position + taken;
    }
    if position != header_size {
        return Err(bytes::corrupt("SQLite record header has invalid serial types"));
    }
    proof {
        assert(types@.map_values(|t: u64| t as int) + Seq::<int>::empty() =~= types@.map_values(
            |t: u64| t as int,
        ));
    }
    Ok(types)
}

/// The values of a record.
pub fn decode_record(payload: &[u8], encoding: TextEncoding) -> (r: Result<
    Vec<Value>,
    DactylError,
>)
    ensures
        match record(payload@, encoding) {
            Ok(values) => r is Ok && crate::value::value_views(r->Ok_0@) == values,
            Err(e) => r is Err && r->Err_0@ == e,
        },
{
    let (header_size, start) = match bytes::read_varint(payload, 0) {
        Ok(read) => read,
        Err(e) => {
            return Err(e);
        },
    };
    if header_size > usize::MAX as u64 {
        return Err(bytes::corrupt("SQLite record header is too large"));
    }
    let header_size: usize = header_size as usize;
    if header_size < start || header_size > payload.len() {
        return Err(bytes::corrupt("SQLite record header is truncated"));
    }
    let types: Vec<u64> = match read_serial_types(payload, start, header_size) {
        Ok(types) => types,
        Err(e) => {
            return Err(e);
        },
    };
    let ghost all = types@.map_values(|t: u64| t as int);
    let ghost whole = serial_values(all, payload@, header_size as int, encoding);
    let mut values: Vec<Value> = Vec::new();
    let mut position: usize = header_size;
    let mut i: usize = 0;
    proof {
        assert(all.skip(0) =~= all);
        if whole is Ok {
            assert(crate::value::value_views(values@) + whole->Ok_0 =~= whole->Ok_0);
        }
    }
    while i < types.len()
        invariant
            i <= types@.len(),
            position <= payload@.len(),
            all == types@.map_values(|t: u64| t as int),
            whole == record(payload@, encoding),
            match serial_values(all.skip(i as int), payload@, position as int, encoding) {
                Ok(rest) => whole == Ok::<Seq<ValueView>, ErrorView>(
                    crate::value::value_views(values@) + rest,
                ),
                Err(e) => whole == Err::<Seq<ValueView>, ErrorView>(e),
            },
        decreases types@.len() - i,
    {
        proof {
            assert(all.skip(i as int)[0] == types@[i as int] as int);
            assert(all.skip(i as int).drop_first() =~= all.skip(i + 1));
        }
        let ghost before = crate::value::value_views(values@);
        match decode_serial_value(types[i], payload, &mut position, encoding) {
            Ok(v) => {
                values.push(v);
                proof {
                    let rest = serial_values(
                        all.skip(i + 1),
                        payload@,
                        position as int,
                        encoding,
                    );
                    if rest is Ok {
                        assert(crate::value::value_views(values@) + rest->Ok_0 =~= before + (seq![
                            v@,
                        ] + rest->Ok_0));
                    }
                }
            },
            Err(e) => {
                return Err(e);
            },
        }
        i = i + 1;
    }
    assert(crate::value::value_views(values@) + Seq::<ValueView>::empty()
        =~= crate::value::value_views(values@));
    Ok(values)
}

// ---------------------------------------------------------------------------
// Table b-trees
// ---------------------------------------------------------------------------

/// A table row: its row id and its values.
pub ghost struct TableRow {
    pub rowid: int,
    pub values: Seq<ValueView>,
}

/// What a row read from a table says.
pub open spec fn table_row(row: (i64, Vec<Value>)) -> TableRow {
    TableRow { rowid: row.0 as int, values: crate::value::value_views(row.1@) }
}

/// What rows read from a table say.
pub open spec fn table_row_views(rows: Seq<(i64, Vec<Value>)>) -> Seq<TableRow> {
    rows.map_values(|row: (i64, Vec<Value>)| table_row(row))
}

/// An interior page on the way to the current page, and the number of its
/// children that have been entered.
pub ghost struct Frame {
    pub page: int,
    pub entered: int,
}

/// The position of the b-tree header in a page; the first page starts with
/// the file header.
pub open spec fn tree_header(n: int) -> int {
    if n == 1 {
        100
    } else {
        0
    }
}

impl FileView {
    /// The row of the leaf cell at index `i`.
    pub open spec fn leaf_row(self, page: Seq<u8>, header: int, i: int) -> Result<
        TableRow,
        ErrorView,
    > {
        match bytes::u16_at(page, header + 8 + 2 * i) {
            Err(e) => Err(e),
            Ok(pointer) => match self.leaf_payload(page, pointer as int) {
                Err(e) => Err(e),
                Ok((rowid, payload)) => match record(payload, self.encoding) {
                    Err(e) => Err(e),
                    Ok(values) => Ok(TableRow { rowid, values }),
                },
            },
        }
    }

    /// The rows of a leaf page from cell `i` on.
    pub open spec fn leaf_rows(self, page: Seq<u8>, header: int, i: int, cells: int) -> Result<
        Seq<TableRow>,
        ErrorView,
    >
        decreases cells - i,
    {
        if i >= cells {
            Ok(Seq::empty())
        } else {
            match self.leaf_row(page, header, i) {
                Err(e) => Err(e),
                Ok(row) => match self.leaf_rows(page, header, i + 1, cells) {
                    Err(e) => Err(e),
                    Ok(rest) => Ok(seq![row] + rest),
                },
            }
        }
    }

    /// The child of an interior page at index `i`; behind the cells stands the
    /// rightmost child.
    pub open spec fn child(self, page: Seq<u8>, header: int, i: int, cells: int) -> Result<
        int,
        ErrorView,
    > {
        if i >= cells {
            Ok(bytes::big_endian(page.subrange(header + 8, header + 12)) as int)
        } else {
            match bytes::u16_at(page, header + 12 + 2 * i) {
                Err(e) => Err(e),
                Ok(pointer) => match bytes::u32_at(page, pointer as int) {
                    Err(e) => Err(e),
                    Ok(child) => match bytes::varint_at(page, pointer + 4) {
                        Err(e) => Err(e),
                        Ok(_) => Ok(child as int),
                    },
                },
            }
        }
    }

    /// The number of cells of a b-tree page.
    pub open spec fn cells(self, page: Seq<u8>, header: int) -> int {
        bytes::big_endian(page.subrange(header + 3, header + 5)) as int
    }

    /// The rows of a table: `rows` have been read, the pages of `visited` have
    /// been entered, `next` is the page to enter, and `path` leads to it from
    /// the root. Children are entered from left to right; entering a page
    /// twice is an error.
    pub open spec fn walk(
        self,
        next: Option<int>,
        path: Seq<Frame>,
        visited: Set<int>,
        rows: Seq<TableRow>,
    ) -> Result<Seq<TableRow>, ErrorView>
        decreases
                self.unvisited(visited),
                path.len(),
                if next is Some {
                    0int
                } else {
                    1int
                },
        when self.page_size > 0 && (next matches Some(n) ==> n >= 0)
    {
        match next {
            Some(n) => if visited.contains(n) {
                Err(bytes::corrupted("SQLite b-tree contains a page cycle"@))
            } else {
                match self.page(n) {
                    Err(e) => Err(e),
                    Ok(page) => {
                        proof {
                            lemma_visit(self, visited, n);
                        }
                        let header = tree_header(n);
                        let kind = page[header];
                        if kind == 0x05 {
                            self.walk(
                                None,
                                path.push(Frame { page: n, entered: 0 }),
                                visited.insert(n),
                                rows,
                            )
                        } else if kind == 0x0d {
                            match self.leaf_rows(page, header, 0, self.cells(page, header)) {
                                Err(e) => Err(e),
                                Ok(more) => self.walk(
                                    None,
                                    path,
                                    visited.insert(n),
                                    rows + more,
                                ),
                            }
                        } else {
                            Err(
                                crate::error::coded(
                                    AdapterErrorKind::Capability,
                                    "unsupported_schema"@,
                                    "unsupported SQLite table b-tree page type 0x"@ + text::hex(
                                        kind as nat,
                                        2,
                                    ),
                                ),
                            )
                        }
                    },
                }
            },
            None => if path.len() == 0 {
                Ok(rows)
            } else {
                let top = path.last();
                let page = self.page(top.page)->Ok_0;
                let header = tree_header(top.page);
                let cells = self.cells(page, header);
                if top.entered > cells {
                    self.walk(None, path.drop_last(), visited, rows)
                } else {
                    match self.child(page, header, top.entered, cells) {
                        Err(e) => Err(e),
                        Ok(child) => self.walk(
                            Some(child),
                            path.drop_last().push(
                                Frame { page: top.page, entered: top.entered + 1 },
                            ),
                            visited,
                            rows,
                        ),
                    }
                }
            },
        }
    }

    /// The rows of the table whose b-tree has this root page.
    pub open spec fn table_rows(self, root: int) -> Result<Seq<TableRow>, ErrorView> {
        if root == 0 {
            Err(bytes::corrupted("SQLite table has a zero root page"@))
        } else {
            self.walk(Some(root), Seq::empty(), Set::empty(), Seq::empty())
        }
    }
}

/// An interior page on the way to the current page.
struct Step {
    page: u32,
    entered: usize,
}

spec fn frames(path: Seq<Step>) -> Seq<Frame> {
    path.map_values(|s: Step| Frame { page: s.page as int, entered: s.entered as int })
}

/// The position of the b-tree header in a page.
fn header_of(page_number: u32) -> (r: usize)
    ensures
        r == tree_header(page_number as int),
        r <= 100,
{
    if page_number == 1 {
        100
    } else {
        0
    }
}

/// The number of cells of a b-tree page.
fn cell_count(page: &[u8], header: usize) -> (r: Result<usize, DactylError>)
    requires
        header <= 100,
        page@.len() >= 512,
    ensures
        r is Ok,
        r->Ok_0 == bytes::big_endian(page@.subrange(header + 3, header + 5)),
        r->Ok_0 <= 0xffff,
{
    proof {
        bytes::lemma_big_endian_bound(page@.subrange(header + 3, header + 5));
    }
    match bytes::read_u16(page, header + 3) {
        Ok(n) => Ok(n as usize),
        Err(e) => Err(e),
    }
}

impl SqliteReader {
    /// The row of the leaf cell at index `i`.
    fn read_leaf_row(&self, page: &[u8], header: usize, i: usize) -> (r: Result<
        (i64, Vec<Value>),
        DactylError,
    >)
        requires
            header <= 100,
            i <= 0xffff,
        ensures
            match self@.leaf_row(page@, header as int, i as int) {
                Ok(row) => r is Ok && table_row(r->Ok_0) == row,
                Err(e) => r is Err && r->Err_0@ == e,
            },
    {
        let pointer: u16 = match bytes::read_u16(page, header + 8 + 2 * i) {
            Ok(pointer) => pointer,
            Err(e) => {
                return Err(e);
            },
        };
        let (rowid, payload) = match self.read_table_leaf_payload(page, pointer as usize) {
            Ok(read) => read,
            Err(e) => {
                return Err(e);
            },
        };
        match decode_record(payload.as_slice(), self.encoding) {
            Ok(values) => Ok((rowid, values)),
            Err(e) => Err(e),
        }
    }

    /// The rows of a leaf page.
    fn read_leaf_rows(&self, page: &[u8], header: usize) -> (r: Result<
        Vec<(i64, Vec<Value>)>,
        DactylError,
    >)
        requires
            header <= 100,
            page@.len() >= 512,
        ensures
            match self@.leaf_rows(
                page@,
                header as int,
                0,
                self@.cells(page@, header as int),
            ) {
                Ok(rows) => r is Ok && table_row_views(r->Ok_0@) == rows,
                Err(e) => r is Err && r->Err_0@ == e,
            },
    {
        let cells: usize = match cell_count(page, header) {
            Ok(cells) => cells,
            Err(e) => {
                return Err(e);
            },
        };
        let mut rows: Vec<(i64, Vec<Value>)> = Vec::new();
        let ghost whole = self@.leaf_rows(page@, header as int, 0, cells as int);
        proof {
            if whole is Ok {
                assert(table_row_views(rows@) + whole->Ok_0 =~= whole->Ok_0);
            }
        }
        let mut i: usize = 0;
        while i < cells
            invariant
                i <= cells <= 0xffff,
                cells == self@.cells(page@, header as int),
                header <= 100,
                whole == self@.leaf_rows(page@, header as int, 0, cells as int),
                match self@.leaf_rows(page@, header as int, i as int, cells as int) {
                    Ok(rest) => whole == Ok::<Seq<TableRow>, ErrorView>(
                        table_row_views(rows@) + rest,
                    ),
                    Err(e) => whole == Err::<Seq<TableRow>, ErrorView>(e),
                },
            decreases cells - i,
        {
            let row = match self.read_leaf_row(page, header, i) {
                Ok(row) => row,
                Err(e) => {
                    return Err(e);
                },
            };
            let ghost before = table_row_views(rows@);
            rows.push(row);
            proof {
                let rest = self@.leaf_rows(page@, header as int, i + 1, cells as int);
                if rest is Ok {
                    assert(table_row_views(rows@) + rest->Ok_0 =~= before + (seq![
                        table_row(row),
                    ] + rest->Ok_0));
                }
            }
            i = i + 1;
        }
        assert(table_row_views(rows@) + Seq::<TableRow>::empty() =~= table_row_views(rows@));
        Ok(rows)
    }

    /// The child of an interior page at index `i`.
    fn read_child(&self, page: &[u8], header: usize, i: usize, cells: usize) -> (r: Result<
        u32,
        DactylError,
    >)
        requires
            header <= 100,
            page@.len() >= 512,
            i <= cells <= 0xffff,
        ensures
            match self@.child(page@, header as int, i as int, cells as int) {
                Ok(child) => r is Ok && r->Ok_0 == child,
                Err(e) => r is Err && r->Err_0@ == e,
            },
    {
        if i >= cells {
            proof {
                bytes::lemma_big_endian_bound(page@.subrange(header + 8, header + 12));
            }
            return bytes::read_u32(page, header + 8);
        }
        let pointer: usize = match bytes::read_u16(page, header + 12 + 2 * i) {
            Ok(pointer) => pointer as usize,
            Err(e) => {
                return Err(e);
            },
        };
        let child: u32 = match bytes::read_u32(page, pointer) {
            Ok(child) => child,
            Err(e) => {
                return Err(e);
            },
        };
        match bytes::read_varint(page, pointer + 4) {
            Ok(_) => Ok(child),
            Err(e) => Err(e),
        }
    }

    /// The rows of the table whose b-tree has this root page, in key order.
    pub fn table_rows(&self, root_page: u32) -> (r: Result<Vec<(i64, Vec<Value>)>, DactylError>)
        ensures
            match self@.table_rows(root_page as int) {
                Ok(rows) => r is Ok && table_row_views(r->Ok_0@) == rows,
                Err(e) => r is Err && r->Err_0@ == e,
            },
    {
        if root_page == 0 {
            return Err(bytes::corrupt("SQLite table has a zero root page"));
        }
        let mut rows: Vec<(i64, Vec<Value>)> = Vec::new();
        let mut path: Vec<Step> = Vec::new();
        let mut seen: HashSet<u32> = HashSet::new();
        let mut next: Option<u32> = Some(root_page);
        let ghost mut visited: Set<int> = Set::empty();
        proof {
            broadcast use vstd::std_specs::hash::group_hash_axioms;

            use_type_invariant(self);
            assert(frames(path@) =~= Seq::<Frame>::empty());
            assert(table_row_views(rows@) =~= Seq::<TableRow>::empty());
        }
        loop
            invariant
                self@.wf(),
                root_page != 0,
                forall|n: u32| #[trigger] seen@.contains(n) <==> visited.contains(n as int),
                forall|k: int|
                    0 <= k < path@.len() ==> self@.page((#[trigger] path@[k]).page as int) is Ok
                        && path@[k].entered <= 0x10000,
                self@.walk(
                    match next {
                        Some(n) => Some(n as int),
                        None => None,
                    },
                    frames(path@),
                    visited,
                    table_row_views(rows@),
                ) == self@.table_rows(root_page as int),
            decreases
                    self@.unvisited(visited),
                    path@.len(),
                    if next is Some {
                        0int
                    } else {
                        1int
                    },
        {
            broadcast use vstd::std_specs::hash::group_hash_axioms;

            if let Some(number) = next {
                if !seen.insert(number) {
                    return Err(bytes::corrupt("SQLite b-tree contains a page cycle"));
                }
                let page = match self.page(number) {
                    Ok(page) => page,
                    Err(e) => {
                        return Err(e);
                    },
                };
                proof {
                    lemma_page_number(self@, number as int);
                    lemma_visit(self@, visited, number as int);
                    visited = visited.insert(number as int);
                }
                let header: usize = header_of(number);
                let kind: u8 = page[header];
                if kind == 0x05 {
                    let ghost before = path@;
                    path.push(Step { page: number, entered: 0 });
                    assert(frames(path@) =~= frames(before).push(
                        Frame { page: number as int, entered: 0 },
                    ));
                } else if kind == 0x0d {
                    match self.read_leaf_rows(page, header) {
                        Ok(more) => {
                            let ghost before = table_row_views(rows@);
                            let ghost extra = table_row_views(more@);
                            let mut more = more;
                            rows.append(&mut more);
                            assert(table_row_views(rows@) =~= before + extra);
                        },
                        Err(e) => {
                            return Err(e);
                        },
                    }
                } else {
                    return Err(
                        bytes::coded(
                            AdapterErrorKind::Capability,
                            "unsupported_schema",
                            "unsupported SQLite table b-tree page type 0x".to_string().concat(
                                text::hex_text(kind as u64, 2).as_str(),
                            ).as_str(),
                        ),
                    );
                }
                next = None;
            } else {
                if path.len() == 0 {
                    return Ok(rows);
                }
                let ghost before = path@;
                let top: usize = path.len() - 1;
                let number: u32 = path[top].page;
                let entered: usize = path[top].entered;
                proof {
                    assert(frames(before).last() == Frame {
                        page: number as int,
                        entered: entered as int,
                    });
                    lemma_page_number(self@, number as int);
                }
                let page = match self.page(number) {
                    Ok(page) => page,
                    Err(e) => {
                        return Err(e);
                    },
                };
                let header: usize = header_of(number);
                let cells: usize = match cell_count(page, header) {
                    Ok(cells) => cells,
                    Err(e) => {
                        return Err(e);
                    },
                };
                path.pop();
                assert(frames(path@) =~= frames(before).drop_last());
                if entered <= cells {
                    match self.read_child(page, header, entered, cells) {
                        Ok(child) => {
                            let ghost popped = path@;
                            path.push(Step { page: number, entered: entered + 1 });
                            assert(frames(path@) =~= frames(popped).push(
                                Frame { page: number as int, entered: entered + 1 },
                            ));
                            next = Some(child);
                        },
                        Err(e) => {
                            return Err(e);
                        },
                    }
                }
            }
        }
    }
}

} // verus!
