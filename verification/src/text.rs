//! Text primitives: byte classes, ASCII folding, trimming, slicing and the
//! decimal rendering that messages and file names are made of.

use vstd::prelude::*;

verus! {

/// `String::push` appends one character.
pub assume_specification[ std::string::String::push ](s: &mut std::string::String, c: char)
    ensures
        final(s)@ == old(s)@.push(c),
;

/// The UTF-8 bytes of a text.
pub open spec fn utf8(s: Seq<char>) -> Seq<u8> {
    vstd::utf8::encode_utf8(s)
}

// ---------------------------------------------------------------------------
// Byte classes
// ---------------------------------------------------------------------------

/// Whitespace among the first 256 code points: a byte read as one character.
pub open spec fn is_space_byte(b: u8) -> bool {
    (0x09 <= b <= 0x0d) || b == 0x20 || b == 0x85 || b == 0xa0
}

/// The ASCII whitespace that the WHATWG infra standard names.
pub open spec fn is_ascii_space_byte(b: u8) -> bool {
    b == 0x09 || b == 0x0a || b == 0x0c || b == 0x0d || b == 0x20
}

pub open spec fn is_alpha_byte(b: u8) -> bool {
    (0x41 <= b <= 0x5a) || (0x61 <= b <= 0x7a)
}

pub open spec fn is_digit_byte(b: u8) -> bool {
    0x30 <= b <= 0x39
}

pub open spec fn is_alnum_byte(b: u8) -> bool {
    is_alpha_byte(b) || is_digit_byte(b)
}

/// A byte that may stand inside an identifier.
pub open spec fn is_word_byte(b: u8) -> bool {
    is_alnum_byte(b) || b == 0x5f
}

/// A byte that may start an identifier.
pub open spec fn is_word_start_byte(b: u8) -> bool {
    is_alpha_byte(b) || b == 0x5f
}

pub open spec fn lower_byte(b: u8) -> u8 {
    if 0x41 <= b <= 0x5a {
        (b + 32) as u8
    } else {
        b
    }
}

pub fn space_byte(b: u8) -> (r: bool)
    ensures
        r == is_space_byte(b),
{
    (0x09 <= b && b <= 0x0d) || b == 0x20 || b == 0x85 || b == 0xa0
}

pub fn ascii_space_byte(b: u8) -> (r: bool)
    ensures
        r == is_ascii_space_byte(b),
{
    b == 0x09 || b == 0x0a || b == 0x0c || b == 0x0d || b == 0x20
}

pub fn alpha_byte(b: u8) -> (r: bool)
    ensures
        r == is_alpha_byte(b),
{
    (0x41 <= b && b <= 0x5a) || (0x61 <= b && b <= 0x7a)
}

pub fn digit_byte(b: u8) -> (r: bool)
    ensures
        r == is_digit_byte(b),
{
    0x30 <= b && b <= 0x39
}

pub fn word_byte(b: u8) -> (r: bool)
    ensures
        r == is_word_byte(b),
{
    alpha_byte(b) || digit_byte(b) || b == 0x5f
}

pub fn to_lower_byte(b: u8) -> (r: u8)
    ensures
        r == lower_byte(b),
{
    if 0x41 <= b && b <= 0x5a {
        b + 32
    } else {
        b
    }
}

// ---------------------------------------------------------------------------
// Character classes
// ---------------------------------------------------------------------------

/// The characters with the Unicode `White_Space` property.
pub open spec fn is_space(c: char) -> bool {
    let v = c as u32;
    ||| 0x09 <= v <= 0x0d
    ||| v == 0x20
    ||| v == 0x85
    ||| v == 0xa0
    ||| v == 0x1680
    ||| 0x2000 <= v <= 0x200a
    ||| v == 0x2028
    ||| v == 0x2029
    ||| v == 0x202f
    ||| v == 0x205f
    ||| v == 0x3000
}

pub fn space(c: char) -> (r: bool)
    ensures
        r == is_space(c),
{
    let v: u32 = c as u32;
    (0x09 <= v && v <= 0x0d) || v == 0x20 || v == 0x85 || v == 0xa0 || v == 0x1680 || (0x2000 <= v
        && v <= 0x200a) || v == 0x2028 || v == 0x2029 || v == 0x202f || v == 0x205f || v == 0x3000
}

/// ASCII lower case of one character.
pub open spec fn lower_char(c: char) -> char {
    if 'A' <= c <= 'Z' {
        (c as u8 + 32) as u8 as char
    } else {
        c
    }
}

pub fn to_lower_char(c: char) -> (r: char)
    ensures
        r == lower_char(c),
{
    if 'A' <= c && c <= 'Z' {
        (c as u8 + 32) as char
    } else {
        c
    }
}

/// ASCII lower case of a text; every other character stays as it is.
pub open spec fn lower(s: Seq<char>) -> Seq<char> {
    s.map_values(|c: char| lower_char(c))
}

// ---------------------------------------------------------------------------
// Texts
// ---------------------------------------------------------------------------

/// Two texts with the same bytes are the same text.
pub proof fn lemma_utf8_injective(a: Seq<char>, b: Seq<char>)
    requires
        utf8(a) == utf8(b),
    ensures
        a == b,
{
    vstd::utf8::encode_utf8_decode_utf8(a);
    vstd::utf8::encode_utf8_decode_utf8(b);
}

/// The bytes of a concatenation are the concatenation of the bytes.
pub proof fn lemma_utf8_concat(a: Seq<char>, b: Seq<char>)
    ensures
        utf8(a + b) == utf8(a) + utf8(b),
    decreases a.len(),
{
    if a.len() == 0 {
        assert(a + b =~= b);
        assert(utf8(a) =~= Seq::<u8>::empty());
        assert(utf8(a) + utf8(b) =~= utf8(b));
    } else {
        lemma_utf8_concat(a.drop_first(), b);
        assert((a + b).drop_first() =~= a.drop_first() + b);
        assert((a + b)[0] == a[0]);
        assert(utf8(a + b) =~= utf8(a) + utf8(b));
    }
}

/// A text that is not empty has bytes.
pub proof fn lemma_utf8_nonempty(s: Seq<char>)
    requires
        s.len() > 0,
    ensures
        utf8(s).len() > 0,
{
    vstd::utf8::encode_utf8_decode_utf8(s);
    if utf8(s).len() == 0 {
        assert(vstd::utf8::decode_utf8(utf8(s)).len() == 0);
    }
}

/// In valid UTF-8 the position of an ASCII byte and the position behind it
/// are character boundaries.
pub proof fn lemma_ascii_boundary(b: Seq<u8>, k: int)
    requires
        vstd::utf8::valid_utf8(b),
        0 <= k < b.len(),
        b[k] < 0x80,
    ensures
        vstd::utf8::is_char_boundary(b, k),
        vstd::utf8::is_char_boundary(b, k + 1),
{
    vstd::utf8::utf8_byte_ranges_bitwise(b[k]);
    vstd::utf8::is_char_boundary_iff_not_is_continuation_byte(b, k);
    vstd::utf8::valid_utf8_split(b, k);
    let rest = b.subrange(k, b.len() as int);
    assert(rest[0] == b[k]);
    assert(vstd::utf8::valid_utf8(rest));
    assert(vstd::utf8::length_of_first_scalar(rest) == 1);
    let tail = vstd::utf8::pop_first_scalar(rest);
    assert(vstd::utf8::valid_utf8(tail));
    if k + 1 < b.len() {
        assert(tail[0] == b[k + 1]);
        vstd::utf8::is_char_boundary_start_end_of_seq(tail);
        vstd::utf8::is_char_boundary_iff_not_is_continuation_byte(tail, 0);
        vstd::utf8::is_char_boundary_iff_not_is_continuation_byte(b, k + 1);
    } else {
        vstd::utf8::is_char_boundary_start_end_of_seq(b);
    }
}

/// The text between two byte positions.
pub open spec fn text_of(b: Seq<u8>, from: int, to: int) -> Seq<char> {
    vstd::utf8::decode_utf8(b.subrange(from, to))
}

/// The slice of a text between two character boundaries.
pub fn byte_slice(s: &str, from: usize, to: usize) -> (r: &str)
    requires
        from <= to <= utf8(s@).len(),
        vstd::utf8::is_char_boundary(utf8(s@), from as int),
        vstd::utf8::is_char_boundary(utf8(s@), to as int),
    ensures
        utf8(r@) == utf8(s@).subrange(from as int, to as int),
        r@ == text_of(utf8(s@), from as int, to as int),
{
    let (_, rest) = s.split_at(from);
    proof {
        let b = utf8(s@);
        vstd::utf8::encode_utf8_valid_utf8(s@);
        vstd::utf8::encode_utf8_valid_utf8(rest@);
        let tail = b.subrange(from as int, b.len() as int);
        assert(utf8(rest@) == tail);
        if to < b.len() {
            assert(tail[to - from] == b[to as int]);
            vstd::utf8::is_char_boundary_iff_not_is_continuation_byte(b, to as int);
            vstd::utf8::is_char_boundary_iff_not_is_continuation_byte(tail, to - from);
        } else {
            vstd::utf8::is_char_boundary_start_end_of_seq(tail);
        }
    }
    let (head, _) = rest.split_at(to - from);
    proof {
        assert(utf8(head@) =~= utf8(s@).subrange(from as int, to as int));
        vstd::utf8::encode_utf8_decode_utf8(head@);
    }
    head
}

/// Whether two texts are equal.
pub fn str_eq(a: &str, b: &str) -> (r: bool)
    ensures
        r == (a@ == b@),
{
    let x = a.as_bytes();
    let y = b.as_bytes();
    if x.len() != y.len() {
        return false;
    }
    let mut i: usize = 0;
    while i < x.len()
        invariant
            i <= x@.len(),
            x@.len() == y@.len(),
            x@ == utf8(a@),
            y@ == utf8(b@),
            forall|j: int| 0 <= j < i ==> x@[j] == y@[j],
        decreases x@.len() - i,
    {
        if x[i] != y[i] {
            assert(x@ != y@);
            return false;
        }
        i = i + 1;
    }
    proof {
        assert(x@ =~= y@);
        lemma_utf8_injective(a@, b@);
    }
    true
}

/// The characters of a text, in order.
pub fn chars_of(s: &str) -> (r: Vec<char>)
    ensures
        r@ == s@,
{
    let mut out: Vec<char> = Vec::new();
    for c in it: s.chars()
        invariant
            out@ == it.seq().take(it.index() as int),
            it.seq() == s@,
    {
        out.push(c);
    }
    out
}

/// Whether a text starts with another.
pub open spec fn has_prefix(s: Seq<char>, prefix: Seq<char>) -> bool {
    prefix.len() <= s.len() && s.take(prefix.len() as int) == prefix
}

/// Whether a text starts with another.
pub fn starts_with(s: &str, prefix: &str) -> (r: bool)
    ensures
        r == has_prefix(s@, prefix@),
{
    let a: Vec<char> = chars_of(s);
    let p: Vec<char> = chars_of(prefix);
    if p.len() > a.len() {
        return false;
    }
    let mut i: usize = 0;
    while i < p.len()
        invariant
            i <= p@.len() <= a@.len(),
            a@ == s@,
            p@ == prefix@,
            forall|k: int| 0 <= k < i ==> a@[k] == #[trigger] p@[k],
        decreases p@.len() - i,
    {
        if a[i] != p[i] {
            assert(s@.take(p@.len() as int)[i as int] != prefix@[i as int]);
            return false;
        }
        i = i + 1;
    }
    assert(s@.take(p@.len() as int) =~= prefix@);
    true
}

/// Whether a text holds another at position `i`.
pub open spec fn holds_at(s: Seq<char>, needle: Seq<char>, i: int) -> bool {
    0 <= i && i + needle.len() <= s.len() && s.subrange(i, i + needle.len()) == needle
}

/// Whether a text holds another.
pub open spec fn holds(s: Seq<char>, needle: Seq<char>) -> bool {
    exists|i: int| #[trigger] holds_at(s, needle, i)
}

/// Whether a text holds another.
pub fn contains(s: &str, needle: &str) -> (r: bool)
    ensures
        r == holds(s@, needle@),
{
    let a: Vec<char> = chars_of(s);
    let n: Vec<char> = chars_of(needle);
    if n.len() > a.len() {
        return false;
    }
    let last: usize = a.len() - n.len();
    let mut i: usize = 0;
    while i <= last
        invariant
            i <= last + 1,
            last + n@.len() == a@.len() <= usize::MAX,
            a@ == s@,
            n@ == needle@,
            forall|j: int| 0 <= j < i ==> !#[trigger] holds_at(s@, needle@, j),
        decreases last + 1 - i,
    {
        let mut k: usize = 0;
        while k < n.len() && a[i + k] == n[k]
            invariant
                k <= n@.len(),
                i <= last,
                last + n@.len() == a@.len() <= usize::MAX,
                forall|j: int| 0 <= j < k ==> a@[i + j] == #[trigger] n@[j],
            decreases n@.len() - k,
        {
            k = k + 1;
        }
        if k == n.len() {
            assert(s@.subrange(i as int, i + n@.len()) =~= needle@);
            assert(holds_at(s@, needle@, i as int));
            return true;
        }
        proof {
            if holds_at(s@, needle@, i as int) {
                assert(s@.subrange(i as int, i + n@.len())[k as int] == needle@[k as int]);
            }
        }
        if i == last {
            return false;
        }
        i = i + 1;
    }
    false
}

// ---------------------------------------------------------------------------
// Order
// ---------------------------------------------------------------------------

/// Whether bytes stand before others, or equal them, in lexicographic order.
pub open spec fn bytes_le(a: Seq<u8>, b: Seq<u8>) -> bool
    decreases a.len(),
{
    if a.len() == 0 {
        true
    } else if b.len() == 0 {
        false
    } else if a[0] != b[0] {
        a[0] < b[0]
    } else {
        bytes_le(a.drop_first(), b.drop_first())
    }
}

/// Whether a text stands before another, or equals it: texts are ordered by
/// their bytes.
pub open spec fn text_le(a: Seq<char>, b: Seq<char>) -> bool {
    bytes_le(utf8(a), utf8(b))
}

pub proof fn lemma_bytes_le_total(a: Seq<u8>, b: Seq<u8>)
    ensures
        bytes_le(a, b) || bytes_le(b, a),
    decreases a.len(),
{
    if a.len() > 0 && b.len() > 0 && a[0] == b[0] {
        lemma_bytes_le_total(a.drop_first(), b.drop_first());
    }
}

pub proof fn lemma_bytes_le_transitive(a: Seq<u8>, b: Seq<u8>, c: Seq<u8>)
    requires
        bytes_le(a, b),
        bytes_le(b, c),
    ensures
        bytes_le(a, c),
    decreases a.len(),
{
    if a.len() > 0 && a[0] == b[0] && b[0] == c[0] {
        lemma_bytes_le_transitive(a.drop_first(), b.drop_first(), c.drop_first());
    }
}

/// Whether a text stands before another, or equals it.
pub fn str_le(a: &str, b: &str) -> (r: bool)
    ensures
        r == text_le(a@, b@),
{
    let x = a.as_bytes();
    let y = b.as_bytes();
    let mut i: usize = 0;
    assert(x@.skip(0) =~= x@);
    assert(y@.skip(0) =~= y@);
    while i < x.len()
        invariant
            i <= x@.len(),
            i <= y@.len(),
            text_le(a@, b@) == bytes_le(x@.skip(i as int), y@.skip(i as int)),
        decreases x@.len() - i,
    {
        if i >= y.len() {
            return false;
        }
        if x[i] != y[i] {
            return x[i] < y[i];
        }
        assert(x@.skip(i as int).drop_first() =~= x@.skip(i + 1));
        assert(y@.skip(i as int).drop_first() =~= y@.skip(i + 1));
        i = i + 1;
    }
    true
}

// ---------------------------------------------------------------------------
// Trimming and folding
// ---------------------------------------------------------------------------

/// The start of the text behind its leading whitespace.
pub open spec fn trim_start(s: Seq<char>) -> int
    decreases s.len(),
{
    if s.len() == 0 || !is_space(s[0]) {
        0
    } else {
        1 + trim_start(s.drop_first())
    }
}

/// The end of the text before its trailing whitespace.
pub open spec fn trim_end(s: Seq<char>) -> int
    decreases s.len(),
{
    if s.len() == 0 || !is_space(s.last()) {
        s.len() as int
    } else {
        trim_end(s.drop_last())
    }
}

/// The text without leading and trailing whitespace.
pub open spec fn trimmed(s: Seq<char>) -> Seq<char> {
    let rest = s.skip(trim_start(s));
    rest.take(trim_end(rest))
}

/// Whether the text holds whitespace only.
pub open spec fn is_blank(s: Seq<char>) -> bool {
    forall|i: int| 0 <= i < s.len() ==> is_space(#[trigger] s[i])
}

pub proof fn lemma_trim_start(s: Seq<char>)
    ensures
        0 <= trim_start(s) <= s.len(),
        is_blank(s.take(trim_start(s))),
        trim_start(s) < s.len() ==> !is_space(s[trim_start(s)]),
    decreases s.len(),
{
    if s.len() > 0 && is_space(s[0]) {
        let rest = s.drop_first();
        lemma_trim_start(rest);
        assert forall|i: int| 0 <= i < trim_start(s) implies is_space(
            #[trigger] s.take(trim_start(s))[i],
        ) by {
            if i > 0 {
                assert(rest.take(trim_start(rest))[i - 1] == s[i]);
            }
        }
    }
}

pub proof fn lemma_trim_end(s: Seq<char>)
    ensures
        0 <= trim_end(s) <= s.len(),
        trim_end(s) > 0 ==> !is_space(s[trim_end(s) - 1]),
        trim_end(s) == 0 ==> is_blank(s),
    decreases s.len(),
{
    if s.len() > 0 && is_space(s.last()) {
        lemma_trim_end(s.drop_last());
        if trim_end(s) == 0 {
            assert forall|i: int| 0 <= i < s.len() implies is_space(#[trigger] s[i]) by {
                if i < s.len() - 1 {
                    assert(s.drop_last()[i] == s[i]);
                }
            }
        }
    }
}

/// A text is blank exactly where trimming leaves nothing.
pub proof fn lemma_blank_is_trimmed_empty(s: Seq<char>)
    ensures
        is_blank(s) <==> trimmed(s).len() == 0,
{
    lemma_trim_start(s);
    let rest = s.skip(trim_start(s));
    lemma_trim_end(rest);
    if is_blank(s) {
        if trim_start(s) < s.len() {
            assert(is_space(s[trim_start(s)]));
        }
    } else if trimmed(s).len() == 0 {
        assert(is_blank(rest));
        assert forall|i: int| 0 <= i < s.len() implies is_space(#[trigger] s[i]) by {
            if i < trim_start(s) {
                assert(s.take(trim_start(s))[i] == s[i]);
            } else {
                assert(rest[i - trim_start(s)] == s[i]);
            }
        }
    }
}

/// Whether a text holds whitespace only.
pub fn blank(s: &str) -> (r: bool)
    ensures
        r == is_blank(s@),
{
    let chars: Vec<char> = chars_of(s);
    let mut i: usize = 0;
    while i < chars.len()
        invariant
            i <= chars@.len(),
            chars@ == s@,
            forall|k: int| 0 <= k < i ==> is_space(#[trigger] s@[k]),
        decreases chars@.len() - i,
    {
        if !space(chars[i]) {
            assert(!is_space(s@[i as int]));
            return false;
        }
        i = i + 1;
    }
    true
}

/// A text without leading and trailing whitespace.
pub fn trim(s: &str) -> (r: &str)
    ensures
        r@ == trimmed(s@),
{
    let chars: Vec<char> = chars_of(s);
    let mut from: usize = 0;
    assert(s@.skip(0) =~= s@);
    while from < chars.len() && space(chars[from])
        invariant
            from <= chars@.len(),
            chars@ == s@,
            trim_start(s@) == from + trim_start(s@.skip(from as int)),
        decreases chars@.len() - from,
    {
        assert(s@.skip(from as int).drop_first() =~= s@.skip(from + 1));
        from = from + 1;
    }
    let ghost rest = s@.skip(from as int);
    let mut to: usize = chars.len();
    assert(rest.take(rest.len() as int) =~= rest);
    while to > from && space(chars[to - 1])
        invariant
            from <= to <= chars@.len(),
            chars@ == s@,
            rest == s@.skip(from as int),
            trim_end(rest) == trim_end(rest.take(to - from)),
        decreases to,
    {
        assert(rest.take(to - from).drop_last() =~= rest.take(to - from - 1));
        to = to - 1;
    }
    assert(s@.subrange(from as int, to as int) =~= rest.take(to - from));
    s.substring_char(from, to)
}

/// A text in ASCII lower case.
pub fn to_lower(s: &str) -> (r: String)
    ensures
        r@ == lower(s@),
{
    let chars: Vec<char> = chars_of(s);
    let mut out: String = String::new();
    let mut i: usize = 0;
    while i < chars.len()
        invariant
            i <= chars@.len(),
            chars@ == s@,
            out@ == lower(s@.take(i as int)),
        decreases chars@.len() - i,
    {
        out.push(to_lower_char(chars[i]));
        assert(lower(s@.take(i + 1)) =~= lower(s@.take(i as int)).push(lower_char(s@[i as int])));
        i = i + 1;
    }
    assert(s@.take(i as int) =~= s@);
    out
}

// ---------------------------------------------------------------------------
// Joining
// ---------------------------------------------------------------------------

/// Texts with a separator between them.
pub open spec fn joined(list: Seq<Seq<char>>, separator: Seq<char>) -> Seq<char>
    decreases list.len(),
{
    if list.len() == 0 {
        Seq::empty()
    } else if list.len() == 1 {
        list[0]
    } else {
        joined(list.drop_last(), separator) + separator + list.last()
    }
}

/// Texts with a separator between them.
pub fn join(list: &Vec<String>, separator: &str) -> (r: String)
    ensures
        r@ == joined(crate::rows::texts(list@), separator@),
{
    let ghost all = crate::rows::texts(list@);
    if list.len() == 0 {
        return String::new();
    }
    let mut out: String = list[0].clone();
    let mut i: usize = 1;
    assert(all.take(1).len() == 1 && all.take(1)[0] == list@[0]@);
    while i < list.len()
        invariant
            1 <= i <= list@.len(),
            all == crate::rows::texts(list@),
            out@ == joined(all.take(i as int), separator@),
        decreases list@.len() - i,
    {
        proof {
            assert(all.take(i + 1).drop_last() =~= all.take(i as int));
            assert(all.take(i + 1).last() == list@[i as int]@);
        }
        out = out.concat(separator).concat(list[i].as_str());
        i = i + 1;
    }
    assert(all.take(i as int) =~= all);
    out
}

// ---------------------------------------------------------------------------
// Numbers
// ---------------------------------------------------------------------------

/// A decimal digit.
pub open spec fn digit_char(d: nat) -> char {
    (0x30 + d) as char
}

/// A natural number in decimal notation.
pub open spec fn decimal(n: nat) -> Seq<char>
    decreases n,
{
    if n < 10 {
        seq![digit_char(n)]
    } else {
        decimal(n / 10).push(digit_char(n % 10))
    }
}

/// An integer in decimal notation.
pub open spec fn signed_decimal(n: int) -> Seq<char> {
    if n < 0 {
        seq!['-'] + decimal((-n) as nat)
    } else {
        decimal(n as nat)
    }
}

/// A natural number in decimal notation.
pub fn decimal_text(n: u64) -> (r: String)
    ensures
        r@ == decimal(n as nat),
{
    wide_decimal_text(n as u128)
}

/// A natural number of up to 128 bits in decimal notation.
pub fn wide_decimal_text(n: u128) -> (r: String)
    ensures
        r@ == decimal(n as nat),
    decreases n,
{
    if n < 10 {
        let mut out: String = String::new();
        out.push((0x30u8 + n as u8) as char);
        assert(out@ =~= seq![digit_char(n as nat)]);
        out
    } else {
        let mut out: String = wide_decimal_text(n / 10);
        out.push((0x30u8 + (n % 10) as u8) as char);
        out
    }
}

/// An integer in decimal notation.
pub fn signed_decimal_text(n: i64) -> (r: String)
    ensures
        r@ == signed_decimal(n as int),
{
    if n < 0 {
        let magnitude: u64 = if n == i64::MIN {
            0x8000_0000_0000_0000
        } else {
            (-n) as u64
        };
        let mut out: String = "-".to_string();
        proof {
            reveal_strlit("-");
            assert("-"@ =~= seq!['-']);
        }
        out.append(decimal_text(magnitude).as_str());
        out
    } else {
        decimal_text(n as u64)
    }
}

/// A hexadecimal digit in lower case.
pub open spec fn hex_char(d: nat) -> char {
    if d < 10 {
        (0x30 + d) as char
    } else {
        (0x57 + d) as char
    }
}

/// The last `width` hexadecimal digits of a number.
pub open spec fn hex(n: nat, width: nat) -> Seq<char>
    decreases width,
{
    if width == 0 {
        Seq::empty()
    } else {
        hex(n / 16, (width - 1) as nat).push(hex_char(n % 16))
    }
}

/// The last `width` hexadecimal digits of a number.
pub fn hex_text(n: u64, width: u64) -> (r: String)
    ensures
        r@ == hex(n as nat, width as nat),
    decreases width,
{
    if width == 0 {
        String::new()
    } else {
        let mut out: String = hex_text(n / 16, width - 1);
        let d: u8 = (n % 16) as u8;
        out.push(
            if d < 10 {
                (0x30u8 + d) as char
            } else {
                (0x57u8 + d) as char
            },
        );
        out
    }
}

// ---------------------------------------------------------------------------
// Debug form
// ---------------------------------------------------------------------------

/// A text as std's `Debug` shows it: in double quotes, with the characters
/// escaped that `char::escape_debug` escapes.
pub uninterp spec fn debug_form(s: Seq<char>) -> Seq<char>;

/// `<str as Debug>::fmt`, through `format!`. The form it gives depends on the
/// text alone; `debug_form` names it.
#[verifier::external_body]
pub(crate) fn debug_text(s: &str) -> (r: String)
    ensures
        r@ == debug_form(s@),
{
    format!("{:?}", s)
}

// ---------------------------------------------------------------------------
// What the texts are for
// ---------------------------------------------------------------------------

/// Whether a text spells a word that is given in lower case, in any ASCII
/// case.
pub open spec fn spells(written: Seq<char>, word: Seq<char>) -> bool {
    &&& written.len() == word.len()
    &&& forall|i: int|
        0 <= i < word.len() ==> !('A' <= word[i] <= 'Z') && (#[trigger] written[i] == word[i] || (
        'a' <= word[i] <= 'z' && written[i] as u32 + 32 == word[i] as u32))
}

/// The characters that count as whitespace, one by one.
pub proof fn lemma_whitespace(c: char)
    ensures
        is_space(c) <==> (c == '\t' || c == '\n' || c == '\u{b}' || c == '\u{c}' || c == '\r' || c
            == ' ' || c == '\u{85}' || c == '\u{a0}' || c == '\u{1680}' || c == '\u{2000}' || c
            == '\u{2001}' || c == '\u{2002}' || c == '\u{2003}' || c == '\u{2004}' || c
            == '\u{2005}' || c == '\u{2006}' || c == '\u{2007}' || c == '\u{2008}' || c
            == '\u{2009}' || c == '\u{200a}' || c == '\u{2028}' || c == '\u{2029}' || c
            == '\u{202f}' || c == '\u{205f}' || c == '\u{3000}'),
{
}

/// Two characters are the same in lower case exactly where they are the same,
/// or the upper and the lower case of one ASCII letter.
pub proof fn lemma_lower_case(a: char, b: char)
    ensures
        lower_char(a) == lower_char(b) <==> (a == b || ('A' <= a <= 'Z' && a as u32 + 32
            == b as u32) || ('A' <= b <= 'Z' && b as u32 + 32 == a as u32)),
        !('A' <= lower_char(a) <= 'Z'),
{
}

/// A text in lower case is a word exactly where it spells the word.
pub proof fn lemma_lower_spells(written: Seq<char>, word: Seq<char>)
    requires
        forall|i: int| 0 <= i < word.len() ==> !('A' <= #[trigger] word[i] <= 'Z'),
    ensures
        lower(written) == word <==> spells(written, word),
{
    if lower(written) == word {
        assert forall|i: int| 0 <= i < word.len() implies !('A' <= word[i] <= 'Z') && (
        #[trigger] written[i] == word[i] || ('a' <= word[i] <= 'z' && written[i] as u32 + 32
            == word[i] as u32)) by {
            assert(lower(written)[i] == lower_char(written[i]));
            lemma_lower_case(written[i], word[i]);
        }
    }
    if spells(written, word) {
        assert forall|i: int| 0 <= i < word.len() implies lower(written)[i] == word[i] by {
            assert(written[i] == word[i] || ('a' <= word[i] <= 'z' && written[i] as u32 + 32
                == word[i] as u32));
            lemma_lower_case(written[i], word[i]);
        }
        assert(lower(written) =~= word);
    }
}

/// Whitespace round a text is trimmed, and nothing else.
pub proof fn lemma_trimmed(before: Seq<char>, s: Seq<char>, behind: Seq<char>)
    requires
        is_blank(before),
        is_blank(behind),
        s.len() > 0 ==> !is_space(s[0]) && !is_space(s.last()),
    ensures
        trimmed(before + s + behind) == s,
    decreases before.len() + behind.len(),
{
    let all = before + s + behind;
    if s.len() == 0 {
        assert forall|i: int| 0 <= i < all.len() implies is_space(#[trigger] all[i]) by {
            if i < before.len() {
                assert(all[i] == before[i]);
            } else {
                assert(all[i] == behind[i - before.len()]);
            }
        }
        lemma_trim_start(all);
        if trim_start(all) < all.len() {
            assert(is_space(all[trim_start(all)]));
        }
        assert(all.skip(trim_start(all)) =~= s);
    } else {
        lemma_trim_start(all);
        let start = trim_start(all);
        if start < before.len() {
            assert(all[start] == before[start]);
        }
        if start > before.len() {
            assert(all.take(start)[before.len() as int] == all[before.len() as int]);
            assert(all[before.len() as int] == s[0]);
        }
        let rest = all.skip(start);
        assert(rest =~= s + behind);
        lemma_trim_end(rest);
        let end = trim_end(rest);
        lemma_trim_end_is(s, behind);
        assert(rest.take(s.len() as int) =~= s);
    }
}

proof fn lemma_trim_end_is(s: Seq<char>, behind: Seq<char>)
    requires
        is_blank(behind),
        s.len() > 0 && !is_space(s.last()),
    ensures
        trim_end(s + behind) == s.len(),
    decreases behind.len(),
{
    let all = s + behind;
    if behind.len() > 0 {
        assert(all.last() == behind[behind.len() - 1]);
        assert(all.drop_last() =~= s + behind.drop_last());
        assert forall|i: int| 0 <= i < behind.drop_last().len() implies is_space(
            #[trigger] behind.drop_last()[i],
        ) by {
            assert(behind.drop_last()[i] == behind[i]);
        }
        lemma_trim_end_is(s, behind.drop_last());
    } else {
        assert(all =~= s);
    }
}

/// The number that decimal digits write down.
pub open spec fn digits_value(s: Seq<char>) -> nat
    decreases s.len(),
{
    if s.len() == 0 {
        0
    } else {
        digits_value(s.drop_last()) * 10 + (s.last() as u32 - '0' as u32) as nat
    }
}

/// A number in decimal notation writes down that number, in digits and without
/// leading zeros; a negative one has a minus sign before it.
pub proof fn lemma_decimal_notation(n: nat)
    ensures
        digits_value(decimal(n)) == n,
        decimal(n).len() > 0,
        forall|i: int| 0 <= i < decimal(n).len() ==> '0' <= #[trigger] decimal(n)[i] <= '9',
        n > 0 ==> decimal(n)[0] != '0',
        signed_decimal(n as int) == decimal(n),
        n > 0 ==> signed_decimal(-(n as int)) == seq!['-'] + decimal(n),
    decreases n,
{
    if n >= 10 {
        lemma_decimal_notation(n / 10);
        let head = decimal(n / 10);
        assert(decimal(n).drop_last() =~= head);
        assert forall|i: int| 0 <= i < decimal(n).len() implies '0' <= #[trigger] decimal(n)[i]
            <= '9' by {
            if i < head.len() {
                assert(head[i] == decimal(n)[i]);
            }
        }
    } else {
        assert(decimal(n).drop_last() =~= Seq::<char>::empty());
        assert(digits_value(Seq::<char>::empty()) == 0);
    }
}

/// Texts are told apart by their bytes, the first that differs decides, and a
/// text stands before every longer one that starts with it.
pub proof fn lemma_byte_order(common: Seq<u8>, a: Seq<u8>, b: Seq<u8>)
    ensures
        a.len() > 0 && b.len() > 0 && a[0] < b[0] ==> bytes_le(common + a, common + b)
            && !bytes_le(common + b, common + a),
        a.len() == 0 ==> bytes_le(common + a, common + b),
        a.len() == 0 && b.len() > 0 ==> !bytes_le(common + b, common + a),
    decreases common.len(),
{
    if common.len() > 0 {
        let less = common.drop_first();
        lemma_byte_order(less, a, b);
        assert((common + a).drop_first() =~= less + a);
        assert((common + b).drop_first() =~= less + b);
        assert((common + a)[0] == common[0]);
        assert((common + b)[0] == common[0]);
    } else {
        assert(common + a =~= a);
        assert(common + b =~= b);
    }
}

/// A text holds another exactly where it is that text with something before
/// and behind.
pub proof fn lemma_holding(s: Seq<char>, needle: Seq<char>)
    ensures
        holds(s, needle) <==> exists|before: Seq<char>, behind: Seq<char>|
            s == #[trigger] (before + needle + behind),
{
    if holds(s, needle) {
        let i = choose|i: int| #[trigger] holds_at(s, needle, i);
        let before = s.take(i);
        let behind = s.skip(i + needle.len());
        assert(s =~= before + needle + behind);
    }
    if exists|before: Seq<char>, behind: Seq<char>| s == #[trigger] (before + needle + behind) {
        let (before, behind) = choose|before: Seq<char>, behind: Seq<char>|
            s == #[trigger] (before + needle + behind);
        let i = before.len() as int;
        assert(s.subrange(i, i + needle.len()) =~= needle);
        assert(holds_at(s, needle, i));
    }
}


/// Joining puts the separator between neighbours and nowhere else.
pub proof fn lemma_joining(front: Seq<Seq<char>>, item: Seq<char>, separator: Seq<char>)
    ensures
        joined(Seq::empty(), separator) == Seq::<char>::empty(),
        joined(seq![item], separator) == item,
        front.len() > 0 ==> joined(front.push(item), separator) == joined(front, separator)
            + separator + item,
{
    assert(seq![item].drop_last() =~= Seq::<Seq<char>>::empty());
    assert(front.push(item).drop_last() =~= front);
    assert(Seq::<char>::empty() + item =~= item);
}

/// Different numbers have different notations.
pub proof fn lemma_decimals_differ(a: nat, b: nat)
    requires
        a != b,
    ensures
        decimal(a) != decimal(b),
{
    lemma_decimal_notation(a);
    lemma_decimal_notation(b);
}

/// The number that hexadecimal digits write down.
pub open spec fn hex_value(s: Seq<char>) -> nat
    decreases s.len(),
{
    if s.len() == 0 {
        0
    } else {
        let c = s.last();
        16 * hex_value(s.drop_last()) + (if '0' <= c <= '9' {
            (c as u32 - '0' as u32) as nat
        } else {
            (c as u32 - 'a' as u32 + 10) as nat
        })
    }
}

/// How many numbers `width` hexadecimal digits can write down.
pub open spec fn hex_span(width: nat) -> nat
    decreases width,
{
    if width == 0 {
        1
    } else {
        16 * hex_span((width - 1) as nat)
    }
}

/// Hexadecimal digits, `0` to `9` and `a` to `f`, read as the number that they
/// were written for.
pub proof fn lemma_hex_notation(n: nat, width: nat)
    requires
        n < hex_span(width),
    ensures
        hex(n, width).len() == width,
        hex_value(hex(n, width)) == n,
        forall|i: int|
            0 <= i < width ==> ('0' <= #[trigger] hex(n, width)[i] <= '9' || 'a' <= hex(
                n,
                width,
            )[i] <= 'f'),
    decreases width,
{
    if width > 0 {
        let less = (width - 1) as nat;
        lemma_hex_notation(n / 16, less);
        let head = hex(n / 16, less);
        let d = n % 16;
        let c = hex_char(d);
        assert(hex(n, width).drop_last() =~= head);
        assert(c as u32 == if d < 10 {
            0x30 + d
        } else {
            0x57 + d
        });
        assert forall|i: int| 0 <= i < width implies ('0' <= #[trigger] hex(n, width)[i] <= '9'
            || 'a' <= hex(n, width)[i] <= 'f') by {
            if i < less {
                assert(hex(n, width)[i] == head[i]);
            }
        }
    }
}

/// A text starts with another exactly where it is that one with something
/// behind it.
pub proof fn lemma_prefixes(s: Seq<char>, prefix: Seq<char>)
    ensures
        has_prefix(s, prefix) <==> exists|behind: Seq<char>| s == #[trigger] (prefix + behind),
{
    if has_prefix(s, prefix) {
        assert(s =~= prefix + s.skip(prefix.len() as int));
    }
    if exists|behind: Seq<char>| s == #[trigger] (prefix + behind) {
        assert(s.take(prefix.len() as int) =~= prefix);
    }
}

} // verus!
