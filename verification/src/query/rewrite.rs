//! Bounded rewrites of SQL code.
//!
//! A rewrite touches code only: string literals, quoted identifiers and
//! comments come out byte for byte, and so does the code that is not replaced.

use vstd::prelude::*;

use crate::query::scan;
use crate::text;

verus! {

// ---------------------------------------------------------------------------
// Rewrites of one stretch of code
// ---------------------------------------------------------------------------

/// Whether the whole word `needle` stands at `i`, in any ASCII case.
pub open spec fn whole_word_at(b: Seq<u8>, i: int, needle: Seq<u8>) -> bool {
    scan::opens_word(b, i) && scan::word_at(b, i, needle) && scan::closes_word(
        b,
        i + needle.len(),
    )
}

/// The code from `i` on with every whole word `needle` replaced.
pub open spec fn word_replaced(
    b: Seq<u8>,
    i: int,
    needle: Seq<u8>,
    replacement: Seq<u8>,
) -> Seq<u8>
    decreases b.len() - i,
{
    if !(0 <= i < b.len()) {
        Seq::empty()
    } else if needle.len() > 0 && whole_word_at(b, i, needle) {
        replacement + word_replaced(b, i + needle.len(), needle, replacement)
    } else {
        seq![b[i]] + word_replaced(b, i + 1, needle, replacement)
    }
}

/// The end of the call `now()` that stands at `i`, in any ASCII case and with
/// ASCII whitespace before the parentheses, if one stands there.
pub open spec fn now_call_end(b: Seq<u8>, i: int) -> Option<int> {
    let j = scan::ascii_spaces_end(b, i + 3);
    if whole_word_at(b, i, text::utf8("now"@)) && j + 1 < b.len() && b[j] == 0x28 && b[j + 1]
        == 0x29 {
        Some(j + 2)
    } else {
        None
    }
}

/// The code from `i` on with every call `now()` replaced.
pub open spec fn now_replaced(b: Seq<u8>, i: int) -> Seq<u8>
    decreases b.len() - i,
{
    if !(0 <= i < b.len()) {
        Seq::empty()
    } else {
        proof {
            lemma_now_call_end(b, i);
        }
        match now_call_end(b, i) {
            Some(end) => text::utf8("CURRENT_TIMESTAMP"@) + now_replaced(b, end),
            None => seq![b[i]] + now_replaced(b, i + 1),
        }
    }
}

proof fn lemma_now_bytes()
    ensures
        text::utf8("now"@).len() == 3,
{
    reveal_strlit("now");
    vstd::utf8::is_ascii_chars_encode_utf8("now"@);
}

/// A call of `now()` takes bytes and ends inside the text.
pub proof fn lemma_now_call_end(b: Seq<u8>, i: int)
    requires
        0 <= i < b.len(),
    ensures
        now_call_end(b, i) is Some ==> i < now_call_end(b, i)->Some_0 <= b.len(),
{
    lemma_now_bytes();
    if i + 3 <= b.len() {
        scan::lemma_run_end(b, i + 3, |c: u8| text::is_ascii_space_byte(c));
    }
}

fn stands_whole(b: &[u8], i: usize, needle: &[u8]) -> (r: bool)
    requires
        i < b@.len(),
    ensures
        r == whole_word_at(b@, i as int, needle@),
{
    if i > 0 && text::word_byte(b[i - 1]) {
        return false;
    }
    if !scan::has_word_at(b, i, needle) {
        return false;
    }
    let end: usize = i + needle.len();
    end >= b.len() || !text::word_byte(b[end])
}

proof fn lemma_prefix_boundary(b: Seq<u8>, word: Seq<u8>)
    requires
        vstd::utf8::valid_utf8(b),
        vstd::utf8::valid_utf8(word),
        scan::word_at(b, 0, word),
    ensures
        vstd::utf8::is_char_boundary(b, word.len() as int),
    decreases word.len(),
{
    if word.len() > 0 {
        assert(text::lower_byte(b[0int + 0int]) == word[0]);
        vstd::utf8::utf8_byte_ranges_bitwise(b[0]);
        vstd::utf8::utf8_byte_ranges_bitwise(word[0]);
        let n = vstd::utf8::length_of_first_scalar(word);
        assert(n == vstd::utf8::length_of_first_scalar(b));
        let rest = vstd::utf8::pop_first_scalar(b);
        let tail = vstd::utf8::pop_first_scalar(word);
        assert forall|k: int| 0 <= k < tail.len() implies text::lower_byte(#[trigger] rest[0 + k])
            == tail[k] by {
            assert(rest[k] == b[0 + (n + k)]);
            assert(tail[k] == word[n + k]);
        }
        lemma_prefix_boundary(rest, tail);
    }
}

/// A word that stands in a text starts and ends between characters.
proof fn lemma_word_boundaries(b: Seq<u8>, i: int, word: Seq<u8>)
    requires
        vstd::utf8::valid_utf8(b),
        vstd::utf8::valid_utf8(word),
        word.len() > 0,
        scan::word_at(b, i, word),
    ensures
        vstd::utf8::is_char_boundary(b, i),
        vstd::utf8::is_char_boundary(b, i + word.len()),
{
    assert(text::lower_byte(b[i + 0]) == word[0]);
    vstd::utf8::utf8_byte_ranges_bitwise(b[i]);
    vstd::utf8::utf8_byte_ranges_bitwise(word[0]);
    vstd::utf8::is_char_boundary_start_end_of_seq(word);
    vstd::utf8::is_char_boundary_iff_not_is_continuation_byte(word, 0);
    vstd::utf8::is_char_boundary_iff_not_is_continuation_byte(b, i);
    vstd::utf8::valid_utf8_split(b, i);
    let rest = b.subrange(i, b.len() as int);
    assert forall|k: int| 0 <= k < word.len() implies text::lower_byte(#[trigger] rest[0 + k])
        == word[k] by {
        assert(rest[k] == b[i + k]);
    }
    lemma_prefix_boundary(rest, word);
    let end = i + word.len();
    if end < b.len() {
        assert(rest[word.len() as int] == b[end]);
        vstd::utf8::is_char_boundary_iff_not_is_continuation_byte(rest, word.len() as int);
        vstd::utf8::is_char_boundary_iff_not_is_continuation_byte(b, end);
    } else {
        vstd::utf8::is_char_boundary_start_end_of_seq(b);
    }
}

/// Replace every whole word `needle` (given in lower case) in a stretch of
/// code.
pub fn replace_word_unquoted(input: &str, needle: &str, replacement: &str) -> (r: String)
    requires
        needle@.len() > 0,
    ensures
        text::utf8(r@) == word_replaced(
            text::utf8(input@),
            0,
            text::utf8(needle@),
            text::utf8(replacement@),
        ),
{
    let mut out: String = String::new();
    let b = input.as_bytes();
    let n = needle.as_bytes();
    let ghost new = text::utf8(replacement@);
    proof {
        text::lemma_utf8_nonempty(needle@);
        vstd::utf8::encode_utf8_valid_utf8(input@);
        vstd::utf8::encode_utf8_valid_utf8(needle@);
        vstd::utf8::is_char_boundary_start_end_of_seq(b@);
    }
    let mut from: usize = 0;
    let mut i: usize = 0;
    assert(text::utf8(out@) + b@.subrange(0, 0) + word_replaced(b@, 0, n@, new) =~= word_replaced(
        b@,
        0,
        n@,
        new,
    ));
    while i < b.len()
        invariant
            from <= i <= b@.len(),
            n@.len() > 0,
            b@ == text::utf8(input@),
            vstd::utf8::valid_utf8(b@),
            vstd::utf8::valid_utf8(n@),
            vstd::utf8::is_char_boundary(b@, from as int),
            vstd::utf8::is_char_boundary(b@, b@.len() as int),
            new == text::utf8(replacement@),
            text::utf8(out@) + b@.subrange(from as int, i as int) + word_replaced(
                b@,
                i as int,
                n@,
                new,
            ) == word_replaced(b@, 0, n@, new),
        decreases b@.len() - i,
    {
        if stands_whole(b, i, n) {
            proof {
                lemma_word_boundaries(b@, i as int, n@);
            }
            let ghost before = out@;
            let kept = text::byte_slice(input, from, i);
            out.append(kept);
            let ghost between = out@;
            out.append(replacement);
            proof {
                text::lemma_utf8_concat(before, kept@);
                text::lemma_utf8_concat(between, replacement@);
                let rest = word_replaced(b@, i + n@.len(), n@, new);
                assert(text::utf8(out@) + b@.subrange(i + n@.len(), i + n@.len()) + rest
                    =~= text::utf8(before) + b@.subrange(from as int, i as int) + (new + rest));
            }
            i = i + n.len();
            from = i;
        } else {
            proof {
                let rest = word_replaced(b@, i + 1, n@, new);
                assert(text::utf8(out@) + b@.subrange(from as int, i + 1) + rest =~= text::utf8(
                    out@,
                ) + b@.subrange(from as int, i as int) + (seq![b@[i as int]] + rest));
            }
            i = i + 1;
        }
    }
    let kept = text::byte_slice(input, from, b.len());
    proof {
        text::lemma_utf8_concat(out@, kept@);
        assert(text::utf8(out@) + b@.subrange(from as int, i as int) + word_replaced(
            b@,
            i as int,
            n@,
            new,
        ) =~= text::utf8(out@) + text::utf8(kept@));
    }
    out.append(kept);
    out
}

/// Replace every call `now()` in a stretch of code by `CURRENT_TIMESTAMP`.
pub fn replace_now_function_unquoted(input: &str) -> (r: String)
    ensures
        text::utf8(r@) == now_replaced(text::utf8(input@), 0),
{
    let mut out: String = String::new();
    let b = input.as_bytes();
    let now = "now".as_bytes();
    let ghost new = text::utf8("CURRENT_TIMESTAMP"@);
    proof {
        lemma_now_bytes();
        vstd::utf8::encode_utf8_valid_utf8(input@);
        vstd::utf8::encode_utf8_valid_utf8("now"@);
        vstd::utf8::is_char_boundary_start_end_of_seq(b@);
    }
    let mut from: usize = 0;
    let mut i: usize = 0;
    assert(text::utf8(out@) + b@.subrange(0, 0) + now_replaced(b@, 0) =~= now_replaced(b@, 0));
    while i < b.len()
        invariant
            from <= i <= b@.len(),
            now@ == text::utf8("now"@),
            now@.len() == 3,
            b@ == text::utf8(input@),
            vstd::utf8::valid_utf8(b@),
            vstd::utf8::valid_utf8(now@),
            vstd::utf8::is_char_boundary(b@, from as int),
            vstd::utf8::is_char_boundary(b@, b@.len() as int),
            new == text::utf8("CURRENT_TIMESTAMP"@),
            text::utf8(out@) + b@.subrange(from as int, i as int) + now_replaced(b@, i as int)
                == now_replaced(b@, 0),
        decreases b@.len() - i,
    {
        let mut end: usize = i;
        if stands_whole(b, i, now) {
            let j: usize = scan::ascii_spaces_end_from(b, i + 3);
            if b.len() - j >= 2 && b[j] == 0x28 && b[j + 1] == 0x29 {
                end = j + 2;
            }
        }
        if end > i {
            assert(now_call_end(b@, i as int) == Some(end as int));
            proof {
                lemma_word_boundaries(b@, i as int, now@);
                text::lemma_ascii_boundary(b@, end - 1);
            }
            let ghost before = out@;
            let kept = text::byte_slice(input, from, i);
            out.append(kept);
            let ghost between = out@;
            out.append("CURRENT_TIMESTAMP");
            proof {
                text::lemma_utf8_concat(before, kept@);
                text::lemma_utf8_concat(between, "CURRENT_TIMESTAMP"@);
                let rest = now_replaced(b@, end as int);
                assert(text::utf8(out@) + b@.subrange(end as int, end as int) + rest
                    =~= text::utf8(before) + b@.subrange(from as int, i as int) + (new + rest));
            }
            i = end;
            from = i;
        } else {
            assert(now_call_end(b@, i as int) is None);
            proof {
                let rest = now_replaced(b@, i + 1);
                assert(text::utf8(out@) + b@.subrange(from as int, i + 1) + rest =~= text::utf8(
                    out@,
                ) + b@.subrange(from as int, i as int) + (seq![b@[i as int]] + rest));
            }
            i = i + 1;
        }
    }
    let kept = text::byte_slice(input, from, b.len());
    proof {
        text::lemma_utf8_concat(out@, kept@);
        assert(text::utf8(out@) + b@.subrange(from as int, i as int) + now_replaced(b@, i as int)
            =~= text::utf8(out@) + text::utf8(kept@));
    }
    out.append(kept);
    out
}

// ---------------------------------------------------------------------------
// Code and protected text
// ---------------------------------------------------------------------------

/// Whether a string literal, a quoted identifier or a comment starts at `i`.
pub open spec fn protected_at(b: Seq<u8>, i: int) -> bool {
    scan::quote_at(b, i) || scan::dashes_at(b, i) || scan::block_at(b, i)
}

/// The end of the protected text that starts at `i`.
pub open spec fn protected_end(b: Seq<u8>, i: int) -> int {
    if scan::quote_at(b, i) {
        scan::quoted_end(b, i + 1, b[i])
    } else if scan::dashes_at(b, i) {
        scan::line_end(b, i)
    } else {
        scan::block_end(b, i + 2)
    }
}

/// The first position from `i` on where protected text starts, or the end.
pub open spec fn code_end(b: Seq<u8>, i: int) -> int
    decreases b.len() - i,
{
    if i < 0 || i >= b.len() {
        b.len() as int
    } else if protected_at(b, i) {
        i
    } else {
        code_end(b, i + 1)
    }
}

/// A stretch of SQL text: code, or protected text.
pub ghost struct Part {
    pub code: bool,
    pub bytes: Seq<u8>,
}

/// The stretches of the text from `i` on. Code, possibly empty, stands
/// between any two protected stretches.
pub open spec fn parts(b: Seq<u8>, i: int) -> Seq<Part>
    decreases b.len() - i,
{
    if i < 0 || i > b.len() {
        Seq::empty()
    } else {
        proof {
            lemma_code_end(b, i);
        }
        let start = code_end(b, i);
        let code = Part { code: true, bytes: b.subrange(i, start) };
        if start >= b.len() {
            seq![code]
        } else {
            proof {
                lemma_protected_end(b, start);
            }
            let end = protected_end(b, start);
            seq![code, Part { code: false, bytes: b.subrange(start, end) }] + parts(b, end)
        }
    }
}

/// Code ends where protected text starts, or with the text, and holds none.
pub proof fn lemma_code_end(b: Seq<u8>, i: int)
    requires
        0 <= i <= b.len(),
    ensures
        i <= code_end(b, i) <= b.len(),
        code_end(b, i) < b.len() ==> protected_at(b, code_end(b, i)),
        forall|k: int| i <= k < code_end(b, i) ==> !#[trigger] protected_at(b, k),
    decreases b.len() - i,
{
    if i < b.len() && !protected_at(b, i) {
        lemma_code_end(b, i + 1);
    }
}

/// Protected text takes bytes and ends inside the text.
pub proof fn lemma_protected_end(b: Seq<u8>, i: int)
    requires
        0 <= i < b.len(),
        protected_at(b, i),
    ensures
        i < protected_end(b, i) <= b.len(),
        protected_end(b, i) < b.len() ==> (b[protected_end(b, i) - 1] < 0x80 || b[protected_end(
            b,
            i,
        )] < 0x80),
{
    if scan::quote_at(b, i) {
        scan::lemma_quoted_end(b, i + 1, b[i]);
    } else if scan::dashes_at(b, i) {
        scan::lemma_run_end(b, i, |c: u8| c != 0x0a);
    } else {
        scan::lemma_block_end(b, i + 2);
    }
}

/// The stretches joined again.
pub open spec fn joined(parts: Seq<Part>) -> Seq<u8>
    decreases parts.len(),
{
    if parts.len() == 0 {
        Seq::empty()
    } else {
        parts[0].bytes + joined(parts.drop_first())
    }
}

/// Splitting loses nothing: the stretches of a text, joined, are the text.
pub proof fn lemma_parts_are_the_text(b: Seq<u8>, i: int)
    requires
        0 <= i <= b.len(),
    ensures
        joined(parts(b, i)) == b.subrange(i, b.len() as int),
    decreases b.len() - i,
{
    lemma_code_end(b, i);
    let start = code_end(b, i);
    let code = Part { code: true, bytes: b.subrange(i, start) };
    if start >= b.len() {
        assert(seq![code].drop_first() =~= Seq::<Part>::empty());
        assert(joined(Seq::<Part>::empty()) =~= Seq::<u8>::empty());
        assert(joined(parts(b, i)) =~= b.subrange(i, b.len() as int));
    } else {
        lemma_protected_end(b, start);
        let end = protected_end(b, start);
        lemma_parts_are_the_text(b, end);
        let kept = Part { code: false, bytes: b.subrange(start, end) };
        let rest = parts(b, end);
        let all = seq![code, kept] + rest;
        assert(parts(b, i) =~= all);
        assert(all.drop_first() =~= seq![kept] + rest);
        assert((seq![kept] + rest).drop_first() =~= rest);
        assert(joined(all) == code.bytes + joined(seq![kept] + rest));
        assert(joined(seq![kept] + rest) == kept.bytes + joined(rest));
        assert(joined(all) =~= b.subrange(i, b.len() as int));
    }
}

/// A rewrite of one stretch of code.
pub enum Transform {
    /// Replace a whole word, given in lower case.
    Word { needle: &'static str, replacement: &'static str },
    /// Replace calls of `now()`.
    Now,
}

impl Transform {
    pub open spec fn valid(self) -> bool {
        self matches Transform::Word { needle, .. } ==> needle@.len() > 0
    }

    /// A stretch of code, rewritten.
    pub open spec fn of(self, code: Seq<u8>) -> Seq<u8> {
        match self {
            Transform::Word { needle, replacement } => word_replaced(
                code,
                0,
                text::utf8(needle@),
                text::utf8(replacement@),
            ),
            Transform::Now => now_replaced(code, 0),
        }
    }

    fn apply(&self, code: &str) -> (r: String)
        requires
            self.valid(),
        ensures
            text::utf8(r@) == self.of(text::utf8(code@)),
    {
        match self {
            Transform::Word { needle, replacement } => replace_word_unquoted(
                code,
                needle,
                replacement,
            ),
            Transform::Now => replace_now_function_unquoted(code),
        }
    }
}

/// The stretches with the code rewritten and the protected text as it is.
pub open spec fn transformed(parts: Seq<Part>, t: Transform) -> Seq<u8>
    decreases parts.len(),
{
    if parts.len() == 0 {
        Seq::empty()
    } else {
        let head = parts[0];
        (if head.code {
            t.of(head.bytes)
        } else {
            head.bytes
        }) + transformed(parts.drop_first(), t)
    }
}

/// The bytes of SQL text with its code rewritten.
pub open spec fn rewritten_bytes(b: Seq<u8>, t: Transform) -> Seq<u8> {
    transformed(parts(b, 0), t)
}

/// SQL text with its code rewritten.
pub open spec fn rewritten(sql: Seq<char>, t: Transform) -> Seq<char> {
    vstd::utf8::decode_utf8(rewritten_bytes(text::utf8(sql), t))
}

proof fn lemma_transformed_append(front: Seq<Part>, back: Seq<Part>, t: Transform)
    ensures
        transformed(front + back, t) == transformed(front, t) + transformed(back, t),
    decreases front.len(),
{
    if front.len() == 0 {
        assert(front + back =~= back);
        assert(transformed(front, t) + transformed(back, t) =~= transformed(back, t));
    } else {
        lemma_transformed_append(front.drop_first(), back, t);
        assert((front + back).drop_first() =~= front.drop_first() + back);
        assert(transformed(front + back, t) =~= transformed(front, t) + transformed(back, t));
    }
}

/// A rewrite keeps string literals, quoted identifiers and comments: each
/// comes out as it is, between what is made of the text before it and of the
/// text behind it.
pub proof fn lemma_protected_text_is_kept(sql: Seq<char>, t: Transform, k: int)
    requires
        0 <= k < parts(text::utf8(sql), 0).len(),
        !parts(text::utf8(sql), 0)[k].code,
    ensures
        ({
            let all = parts(text::utf8(sql), 0);
            rewritten_bytes(text::utf8(sql), t) == transformed(all.take(k), t) + all[k].bytes
                + transformed(all.skip(k + 1), t)
        }),
{
    let all = parts(text::utf8(sql), 0);
    let kept = all.skip(k);
    lemma_transformed_append(all.take(k), kept, t);
    assert(all =~= all.take(k) + kept);
    assert(kept[0] == all[k]);
    assert(kept.drop_first() =~= all.skip(k + 1));
    assert(rewritten_bytes(text::utf8(sql), t) =~= transformed(all.take(k), t) + all[k].bytes
        + transformed(all.skip(k + 1), t));
}

/// A rewrite that leaves every stretch of code as it is leaves the whole text
/// as it is, unterminated literals and comments included.
pub proof fn lemma_idle_rewrite_changes_nothing(sql: Seq<char>, t: Transform)
    requires
        forall|k: int|
            0 <= k < parts(text::utf8(sql), 0).len() && (#[trigger] parts(
                text::utf8(sql),
                0,
            )[k]).code ==> t.of(parts(text::utf8(sql), 0)[k].bytes) == parts(
                text::utf8(sql),
                0,
            )[k].bytes,
    ensures
        rewritten(sql, t) == sql,
{
    let b = text::utf8(sql);
    lemma_idle_parts(parts(b, 0), t);
    lemma_parts_are_the_text(b, 0);
    assert(b.subrange(0, b.len() as int) =~= b);
    vstd::utf8::encode_utf8_decode_utf8(sql);
}

proof fn lemma_idle_parts(all: Seq<Part>, t: Transform)
    requires
        forall|k: int|
            0 <= k < all.len() && (#[trigger] all[k]).code ==> t.of(all[k].bytes) == all[k].bytes,
    ensures
        transformed(all, t) == joined(all),
    decreases all.len(),
{
    if all.len() > 0 {
        let rest = all.drop_first();
        assert forall|k: int| 0 <= k < rest.len() && (#[trigger] rest[k]).code implies t.of(
            rest[k].bytes,
        ) == rest[k].bytes by {
            assert(rest[k] == all[k + 1]);
        }
        lemma_idle_parts(rest, t);
        assert(all[0].code ==> t.of(all[0].bytes) == all[0].bytes);
    }
}

/// Code that holds nothing to replace stays as it is.
pub proof fn lemma_unmatched_code_is_kept(code: Seq<u8>, t: Transform)
    requires
        match t {
            Transform::Word { needle, .. } => forall|i: int|
                0 <= i < code.len() ==> !#[trigger] whole_word_at(code, i, text::utf8(needle@)),
            Transform::Now => forall|i: int|
                0 <= i < code.len() ==> (#[trigger] now_call_end(code, i)) is None,
        },
    ensures
        t.of(code) == code,
{
    lemma_unmatched_from(code, 0, t);
    assert(code.subrange(0, code.len() as int) =~= code);
}

proof fn lemma_unmatched_from(code: Seq<u8>, i: int, t: Transform)
    requires
        0 <= i <= code.len(),
        match t {
            Transform::Word { needle, .. } => forall|k: int|
                0 <= k < code.len() ==> !#[trigger] whole_word_at(code, k, text::utf8(needle@)),
            Transform::Now => forall|k: int|
                0 <= k < code.len() ==> (#[trigger] now_call_end(code, k)) is None,
        },
    ensures
        match t {
            Transform::Word { needle, replacement } => word_replaced(
                code,
                i,
                text::utf8(needle@),
                text::utf8(replacement@),
            ),
            Transform::Now => now_replaced(code, i),
        } == code.subrange(i, code.len() as int),
    decreases code.len() - i,
{
    let tail = code.subrange(i, code.len() as int);
    if i < code.len() {
        lemma_unmatched_from(code, i + 1, t);
        assert(tail =~= seq![code[i]] + code.subrange(i + 1, code.len() as int));
    } else {
        assert(tail =~= Seq::<u8>::empty());
    }
}

fn is_protected_at(b: &[u8], i: usize) -> (r: bool)
    requires
        i < b@.len(),
    ensures
        r == protected_at(b@, i as int),
{
    let more: bool = b.len() - i > 1;
    b[i] == 0x27 || b[i] == 0x22 || (more && b[i] == 0x2d && b[i + 1] == 0x2d) || (more && b[i]
        == 0x2f && b[i + 1] == 0x2a)
}

fn protected_end_from(b: &[u8], i: usize) -> (r: usize)
    requires
        i < b@.len(),
        protected_at(b@, i as int),
    ensures
        r == protected_end(b@, i as int),
{
    if b[i] == 0x27 || b[i] == 0x22 {
        scan::quoted_end_from(b, i + 1, b[i])
    } else if b[i] == 0x2d {
        scan::line_end_from(b, i)
    } else {
        scan::block_end_from(b, i + 2)
    }
}

fn code_end_from(b: &[u8], start: usize) -> (r: usize)
    requires
        start <= b@.len(),
    ensures
        r == code_end(b@, start as int),
{
    let mut i: usize = start;
    while i < b.len() && !is_protected_at(b, i)
        invariant
            start <= i <= b@.len(),
            code_end(b@, i as int) == code_end(b@, start as int),
        decreases b@.len() - i,
    {
        i = i + 1;
    }
    i
}

/// The text from `i` on, rewritten, is its first code rewritten, its first
/// protected text as it is, and the rest rewritten.
pub proof fn lemma_transformed_split(b: Seq<u8>, i: int, t: Transform)
    requires
        0 <= i <= b.len(),
    ensures
        ({
            let start = code_end(b, i);
            let end = protected_end(b, start);
            transformed(parts(b, i), t) == if start >= b.len() {
                t.of(b.subrange(i, start))
            } else {
                t.of(b.subrange(i, start)) + b.subrange(start, end) + transformed(
                    parts(b, end),
                    t,
                )
            }
        }),
{
    lemma_code_end(b, i);
    let start = code_end(b, i);
    let code = Part { code: true, bytes: b.subrange(i, start) };
    if start >= b.len() {
        assert(seq![code].drop_first() =~= Seq::<Part>::empty());
        assert(transformed(Seq::<Part>::empty(), t) =~= Seq::<u8>::empty());
        assert(transformed(parts(b, i), t) =~= t.of(code.bytes));
    } else {
        lemma_protected_end(b, start);
        let end = protected_end(b, start);
        let kept = Part { code: false, bytes: b.subrange(start, end) };
        let rest = parts(b, end);
        let all = seq![code, kept] + rest;
        assert(parts(b, i) =~= all);
        assert(all.drop_first() =~= seq![kept] + rest);
        assert((seq![kept] + rest).drop_first() =~= rest);
        assert(transformed(all, t) == t.of(code.bytes) + transformed(seq![kept] + rest, t));
        assert(transformed(seq![kept] + rest, t) == b.subrange(start, end) + transformed(
            rest,
            t,
        ));
        assert(transformed(all, t) =~= t.of(code.bytes) + b.subrange(start, end)
            + transformed(rest, t));
    }
}

/// Apply a rewrite only to SQL code, preserving string literals, quoted
/// identifiers and comments byte for byte.
pub fn rewrite_unquoted(input: &str, transform: &Transform) -> (r: String)
    requires
        transform.valid(),
    ensures
        r@ == rewritten(input@, *transform),
{
    let b = input.as_bytes();
    let len: usize = b.len();
    let mut out: String = String::new();
    let mut start: usize = 0;
    proof {
        vstd::utf8::encode_utf8_valid_utf8(input@);
        vstd::utf8::is_char_boundary_start_end_of_seq(b@);
        assert(text::utf8(out@) + transformed(parts(b@, 0), *transform) =~= transformed(
            parts(b@, 0),
            *transform,
        ));
    }
    loop
        invariant
            start <= len == b@.len(),
            b@ == text::utf8(input@),
            vstd::utf8::valid_utf8(b@),
            vstd::utf8::is_char_boundary(b@, start as int),
            vstd::utf8::is_char_boundary(b@, b@.len() as int),
            transform.valid(),
            text::utf8(out@) + transformed(parts(b@, start as int), *transform)
                == rewritten_bytes(b@, *transform),
        decreases b@.len() - start,
    {
        proof {
            lemma_transformed_split(b@, start as int, *transform);
            lemma_code_end(b@, start as int);
        }
        let ghost before = out@;
        let c: usize = code_end_from(b, start);
        proof {
            if c < b@.len() {
                text::lemma_ascii_boundary(b@, c as int);
            }
        }
        let code: String = transform.apply(text::byte_slice(input, start, c));
        out.append(code.as_str());
        let ghost between = out@;
        proof {
            text::lemma_utf8_concat(before, code@);
        }
        if c >= len {
            proof {
                vstd::utf8::encode_utf8_decode_utf8(out@);
            }
            return out;
        }
        proof {
            lemma_protected_end(b@, c as int);
        }
        let e: usize = protected_end_from(b, c);
        proof {
            if e < b@.len() {
                if b@[e - 1] < 0x80 {
                    text::lemma_ascii_boundary(b@, e - 1);
                } else {
                    text::lemma_ascii_boundary(b@, e as int);
                }
            }
        }
        let kept = text::byte_slice(input, c, e);
        out.append(kept);
        proof {
            text::lemma_utf8_concat(between, kept@);
            assert(text::utf8(out@) + transformed(parts(b@, e as int), *transform) =~= text::utf8(
                before,
            ) + (text::utf8(code@) + b@.subrange(c as int, e as int) + transformed(
                parts(b@, e as int),
                *transform,
            )));
        }
        start = e;
    }
}

/// Replace a whole word in SQL code.
pub fn replace_word(input: &str, needle: &'static str, replacement: &'static str) -> (r: String)
    requires
        needle@.len() > 0,
    ensures
        r@ == rewritten(input@, Transform::Word { needle, replacement }),
{
    rewrite_unquoted(input, &Transform::Word { needle, replacement })
}

/// Replace the calls of `now()` in SQL code.
pub fn replace_now_function(input: &str) -> (r: String)
    ensures
        r@ == rewritten(input@, Transform::Now),
{
    rewrite_unquoted(input, &Transform::Now)
}

} // verus!
