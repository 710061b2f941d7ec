//! Byte positions where the parts of SQL text end.
//!
//! Every scanner takes the bytes and a start and gives back the position
//! behind what it skipped; none of them fails.

use vstd::prelude::*;

use crate::text;

verus! {

/// The end of the longest run of bytes in class `p` that starts at `i`.
pub open spec fn run_end(b: Seq<u8>, i: int, p: spec_fn(u8) -> bool) -> int
    decreases b.len() - i,
{
    if 0 <= i < b.len() && p(b[i]) {
        run_end(b, i + 1, p)
    } else {
        i
    }
}

/// What `run_end` delimits: a run of the class that cannot be longer.
pub proof fn lemma_run_end(b: Seq<u8>, i: int, p: spec_fn(u8) -> bool)
    requires
        0 <= i <= b.len(),
    ensures
        i <= run_end(b, i, p) <= b.len(),
        forall|k: int| i <= k < run_end(b, i, p) ==> p(#[trigger] b[k]),
        run_end(b, i, p) < b.len() ==> !p(b[run_end(b, i, p)]),
    decreases b.len() - i,
{
    if i < b.len() && p(b[i]) {
        lemma_run_end(b, i + 1, p);
    }
}

/// The end of the line that holds position `i`: the newline, or the end.
pub open spec fn line_end(b: Seq<u8>, i: int) -> int {
    run_end(b, i, |c: u8| c != 0x0a)
}

pub open spec fn spaces_end(b: Seq<u8>, i: int) -> int {
    run_end(b, i, |c: u8| text::is_space_byte(c))
}

pub open spec fn ascii_spaces_end(b: Seq<u8>, i: int) -> int {
    run_end(b, i, |c: u8| text::is_ascii_space_byte(c))
}

pub open spec fn word_end(b: Seq<u8>, i: int) -> int {
    run_end(b, i, |c: u8| text::is_word_byte(c))
}

/// The end of a number literal: letters, digits and dots.
pub open spec fn number_end(b: Seq<u8>, i: int) -> int {
    run_end(b, i, |c: u8| text::is_alnum_byte(c) || c == 0x2e)
}

/// The end of a quoted run whose opening quote stands just before `i`. A
/// doubled quote stays inside; a run without a closing quote reaches the end.
pub open spec fn quoted_end(b: Seq<u8>, i: int, q: u8) -> int
    decreases b.len() - i,
{
    if i < 0 || i >= b.len() {
        b.len() as int
    } else if b[i] == q {
        if i + 1 < b.len() && b[i + 1] == q {
            quoted_end(b, i + 2, q)
        } else {
            i + 1
        }
    } else {
        quoted_end(b, i + 1, q)
    }
}

/// The end of a block comment whose opening ends at `i`: behind the first
/// `*/`, or the end of the text.
pub open spec fn block_end(b: Seq<u8>, i: int) -> int
    decreases b.len() - i,
{
    if i < 0 || i + 1 >= b.len() {
        b.len() as int
    } else if b[i] == 0x2a && b[i + 1] == 0x2f {
        i + 2
    } else {
        block_end(b, i + 1)
    }
}

/// A quoted run ends inside the text.
pub proof fn lemma_quoted_end(b: Seq<u8>, i: int, q: u8)
    requires
        0 <= i <= b.len(),
    ensures
        i <= quoted_end(b, i, q) <= b.len(),
        quoted_end(b, i, q) < b.len() ==> i < quoted_end(b, i, q) && b[quoted_end(b, i, q) - 1] == q,
    decreases b.len() - i,
{
    if i < b.len() {
        if b[i] == q {
            if i + 1 < b.len() && b[i + 1] == q {
                lemma_quoted_end(b, i + 2, q);
            }
        } else {
            lemma_quoted_end(b, i + 1, q);
        }
    }
}

/// A block comment ends inside the text.
pub proof fn lemma_block_end(b: Seq<u8>, i: int)
    requires
        0 <= i <= b.len(),
    ensures
        i <= block_end(b, i) <= b.len(),
        block_end(b, i) < b.len() ==> i < block_end(b, i) && b[block_end(b, i) - 1] == 0x2f,
    decreases b.len() - i,
{
    if i + 1 < b.len() && !(b[i] == 0x2a && b[i + 1] == 0x2f) {
        lemma_block_end(b, i + 1);
    }
}

/// Whether `--` stands at `i`.
pub open spec fn dashes_at(b: Seq<u8>, i: int) -> bool {
    0 <= i && i + 1 < b.len() && b[i] == 0x2d && b[i + 1] == 0x2d
}

/// Whether `/*` stands at `i`.
pub open spec fn block_at(b: Seq<u8>, i: int) -> bool {
    0 <= i && i + 1 < b.len() && b[i] == 0x2f && b[i + 1] == 0x2a
}

/// Whether a quote, single or double, stands at `i`.
pub open spec fn quote_at(b: Seq<u8>, i: int) -> bool {
    0 <= i < b.len() && (b[i] == 0x27 || b[i] == 0x22)
}

/// Whether `word`, in any ASCII case, stands at `i`.
pub open spec fn word_at(b: Seq<u8>, i: int, word: Seq<u8>) -> bool {
    &&& 0 <= i
    &&& i + word.len() <= b.len()
    &&& forall|k: int| 0 <= k < word.len() ==> text::lower_byte(#[trigger] b[i + k]) == word[k]
}

/// Whether the byte before `i` lets a word start there.
pub open spec fn opens_word(b: Seq<u8>, i: int) -> bool {
    i <= 0 || i > b.len() || !text::is_word_byte(b[i - 1])
}

/// Whether the byte at `i` lets a word end there.
pub open spec fn closes_word(b: Seq<u8>, i: int) -> bool {
    i >= b.len() || i < 0 || !text::is_word_byte(b[i])
}

pub fn line_end_from(b: &[u8], start: usize) -> (r: usize)
    requires
        start <= b@.len(),
    ensures
        r == line_end(b@, start as int),
        start <= r <= b@.len(),
        r < b@.len() ==> b@[r as int] == 0x0a,
        forall|k: int| start <= k < r ==> #[trigger] b@[k] != 0x0a,
{
    let mut i: usize = start;
    while i < b.len() && b[i] != 0x0a
        invariant
            start <= i <= b@.len(),
            line_end(b@, start as int) == line_end(b@, i as int),
            forall|k: int| start <= k < i ==> #[trigger] b@[k] != 0x0a,
        decreases b@.len() - i,
    {
        i = i + 1;
    }
    i
}

pub fn spaces_end_from(b: &[u8], start: usize) -> (r: usize)
    requires
        start <= b@.len(),
    ensures
        r == spaces_end(b@, start as int),
        start <= r <= b@.len(),
        forall|k: int| start <= k < r ==> text::is_space_byte(#[trigger] b@[k]),
{
    let mut i: usize = start;
    while i < b.len() && text::space_byte(b[i])
        invariant
            start <= i <= b@.len(),
            spaces_end(b@, start as int) == spaces_end(b@, i as int),
            forall|k: int| start <= k < i ==> text::is_space_byte(#[trigger] b@[k]),
        decreases b@.len() - i,
    {
        i = i + 1;
    }
    i
}

pub fn ascii_spaces_end_from(b: &[u8], start: usize) -> (r: usize)
    requires
        start <= b@.len(),
    ensures
        r == ascii_spaces_end(b@, start as int),
        start <= r <= b@.len(),
{
    let mut i: usize = start;
    while i < b.len() && text::ascii_space_byte(b[i])
        invariant
            start <= i <= b@.len(),
            ascii_spaces_end(b@, start as int) == ascii_spaces_end(b@, i as int),
        decreases b@.len() - i,
    {
        i = i + 1;
    }
    i
}

pub fn word_end_from(b: &[u8], start: usize) -> (r: usize)
    requires
        start <= b@.len(),
    ensures
        r == word_end(b@, start as int),
        start <= r <= b@.len(),
        forall|k: int| start <= k < r ==> text::is_word_byte(#[trigger] b@[k]),
{
    let mut i: usize = start;
    while i < b.len() && text::word_byte(b[i])
        invariant
            start <= i <= b@.len(),
            word_end(b@, start as int) == word_end(b@, i as int),
            forall|k: int| start <= k < i ==> text::is_word_byte(#[trigger] b@[k]),
        decreases b@.len() - i,
    {
        i = i + 1;
    }
    i
}

pub fn number_end_from(b: &[u8], start: usize) -> (r: usize)
    requires
        start <= b@.len(),
    ensures
        r == number_end(b@, start as int),
        start <= r <= b@.len(),
{
    let mut i: usize = start;
    while i < b.len() && (text::alpha_byte(b[i]) || text::digit_byte(b[i]) || b[i] == 0x2e)
        invariant
            start <= i <= b@.len(),
            number_end(b@, start as int) == number_end(b@, i as int),
        decreases b@.len() - i,
    {
        i = i + 1;
    }
    i
}

pub fn quoted_end_from(b: &[u8], start: usize, q: u8) -> (r: usize)
    requires
        start <= b@.len(),
    ensures
        r == quoted_end(b@, start as int, q),
        start <= r <= b@.len(),
        r < b@.len() ==> start < r && b@[r - 1] == q,
{
    let mut i: usize = start;
    while i < b.len()
        invariant
            start <= i <= b@.len(),
            quoted_end(b@, start as int, q) == quoted_end(b@, i as int, q),
        decreases b@.len() - i,
    {
        if b[i] == q {
            if i + 1 < b.len() && b[i + 1] == q {
                i = i + 2;
            } else {
                return i + 1;
            }
        } else {
            i = i + 1;
        }
    }
    b.len()
}

pub fn block_end_from(b: &[u8], start: usize) -> (r: usize)
    requires
        start <= b@.len(),
    ensures
        r == block_end(b@, start as int),
        start <= r <= b@.len(),
        r < b@.len() ==> start < r && b@[r - 1] == 0x2f,
{
    let mut i: usize = start;
    while i < b.len() && i + 1 < b.len()
        invariant
            start <= i <= b@.len(),
            block_end(b@, start as int) == block_end(b@, i as int),
        decreases b@.len() - i,
    {
        if b[i] == 0x2a && b[i + 1] == 0x2f {
            return i + 2;
        }
        i = i + 1;
    }
    b.len()
}

/// Whether `word` (lower case) stands at `i` in any ASCII case.
pub fn has_word_at(b: &[u8], i: usize, word: &[u8]) -> (r: bool)
    requires
        i <= b@.len(),
    ensures
        r == word_at(b@, i as int, word@),
{
    if b.len() - i < word.len() {
        return false;
    }
    let mut k: usize = 0;
    while k < word.len()
        invariant
            k <= word@.len(),
            i + word@.len() <= b@.len() <= usize::MAX,
            forall|j: int|
                0 <= j < k ==> text::lower_byte(#[trigger] b@[i + j]) == word@[j],
        decreases word@.len() - k,
    {
        if text::to_lower_byte(b[i + k]) != word[k] {
            assert(text::lower_byte(b@[i + k]) != word@[k as int]);
            return false;
        }
        k = k + 1;
    }
    true
}

/// The characters of a run of ASCII bytes, in lower case.
pub open spec fn lower_ascii(b: Seq<u8>, from: int, to: int) -> Seq<char> {
    Seq::new((to - from) as nat, |k: int| text::lower_byte(b[from + k]) as char)
}

pub fn lower_ascii_text(b: &[u8], from: usize, to: usize) -> (r: String)
    requires
        from <= to <= b@.len(),
    ensures
        r@ == lower_ascii(b@, from as int, to as int),
{
    let mut out: String = String::new();
    let mut i: usize = from;
    while i < to
        invariant
            from <= i <= to <= b@.len(),
            out@ == lower_ascii(b@, from as int, i as int),
        decreases to - i,
    {
        out.push(text::to_lower_byte(b[i]) as char);
        i = i + 1;
    }
    out
}

} // verus!
