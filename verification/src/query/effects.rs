//! What rewrites do to the tokens of a query.

use vstd::prelude::*;

use crate::query;
use crate::query::dialect;
use crate::query::dialect::{Construct, Dialect};
use crate::query::laws;
use crate::query::laws::lowered;
use crate::query::lexer;
use crate::query::lexer::TokenView;
use crate::query::rewrite;
use crate::query::rewrite::Transform;
use crate::query::scan;
use crate::text;

verus! {

// ---------------------------------------------------------------------------
// A rewrite, chunk by chunk
// ---------------------------------------------------------------------------

/// The end of the first chunk of a text: protected text, a run of identifier
/// bytes, or one other byte.
spec fn chunk_end(x: Seq<u8>) -> int {
    if rewrite::protected_at(x, 0) {
        rewrite::protected_end(x, 0)
    } else if text::is_word_byte(x[0]) {
        scan::word_end(x, 0)
    } else {
        1
    }
}

/// Whether the first chunk of a text is a run of identifier bytes.
spec fn word_first(x: Seq<u8>) -> bool {
    x.len() > 0 && text::is_word_byte(x[0])
}

/// The end of `()` behind ASCII whitespace, if it stands there.
spec fn call_tail(x: Seq<u8>) -> Option<int>
    decreases x.len(),
{
    if x.len() == 0 {
        None
    } else if text::is_ascii_space_byte(x[0]) {
        match call_tail(x.skip(1)) {
            Some(n) => Some(n + 1),
            None => None,
        }
    } else if x[0] == 0x28 && x.len() > 1 && x[1] == 0x29 {
        Some(2)
    } else {
        None
    }
}

/// What the first chunk becomes, and how much of the text it takes.
spec fn piece(x: Seq<u8>, t: Transform) -> (Seq<u8>, int) {
    let e = chunk_end(x);
    let word = lowered(x.take(e));
    match t {
        Transform::Word { needle, replacement } => if word_first(x) && word == text::utf8(needle@) {
            (text::utf8(replacement@), e)
        } else {
            (x.take(e), e)
        },
        Transform::Now => if word_first(x) && word == text::utf8("now"@) && call_tail(
            x.skip(e),
        ) is Some {
            (text::utf8("CURRENT_TIMESTAMP"@), e + call_tail(x.skip(e))->Some_0)
        } else {
            (x.take(e), e)
        },
    }
}

/// A text rewritten chunk by chunk.
spec fn swept(x: Seq<u8>, t: Transform) -> Seq<u8>
    decreases x.len(),
{
    if x.len() == 0 {
        Seq::empty()
    } else {
        proof {
            lemma_piece(x, t);
        }
        let (new, n) = piece(x, t);
        new + swept(x.skip(n), t)
    }
}

proof fn lemma_chunk_end(x: Seq<u8>)
    requires
        x.len() > 0,
    ensures
        0 < chunk_end(x) <= x.len(),
        word_first(x) ==> !rewrite::protected_at(x, 0) && chunk_end(x) == scan::word_end(x, 0),
        word_first(x) ==> forall|k: int|
            0 <= k < chunk_end(x) ==> text::is_word_byte(#[trigger] x[k]),
        word_first(x) && chunk_end(x) < x.len() ==> !text::is_word_byte(x[chunk_end(x)]),
{
    if rewrite::protected_at(x, 0) {
        rewrite::lemma_protected_end(x, 0);
    } else {
        scan::lemma_run_end(x, 0, |c: u8| text::is_word_byte(c));
    }
}

proof fn lemma_call_tail(x: Seq<u8>)
    ensures
        call_tail(x) matches Some(n) ==> 2 <= n <= x.len() && x[n - 1] == 0x29,
    decreases x.len(),
{
    if x.len() > 0 && text::is_ascii_space_byte(x[0]) {
        lemma_call_tail(x.skip(1));
        if let Some(n) = call_tail(x.skip(1)) {
            assert(x.skip(1)[n - 1] == x[n]);
        }
    }
}

proof fn lemma_piece(x: Seq<u8>, t: Transform)
    requires
        x.len() > 0,
    ensures
        0 < piece(x, t).1 <= x.len(),
        chunk_end(x) <= piece(x, t).1,
{
    lemma_chunk_end(x);
    lemma_call_tail(x.skip(chunk_end(x)));
}

// ---------------------------------------------------------------------------
// Both forms of a rewrite agree
// ---------------------------------------------------------------------------

/// A rewrite whose needle is an identifier.
spec fn plain(t: Transform) -> bool {
    match t {
        Transform::Word { needle, .. } => {
            &&& text::utf8(needle@).len() > 0
            &&& forall|k: int|
                0 <= k < text::utf8(needle@).len() ==> text::is_word_byte(
                    #[trigger] text::utf8(needle@)[k],
                )
        },
        Transform::Now => true,
    }
}

/// A stretch of code, rewritten from `i` on.
spec fn stretch(code: Seq<u8>, i: int, t: Transform) -> Seq<u8> {
    match t {
        Transform::Word { needle, replacement } => rewrite::word_replaced(
            code,
            i,
            text::utf8(needle@),
            text::utf8(replacement@),
        ),
        Transform::Now => rewrite::now_replaced(code, i),
    }
}

proof fn lemma_now()
    ensures
        text::utf8("now"@) == seq![0x6eu8, 0x6f, 0x77],
{
    reveal_strlit("now");
    vstd::utf8::is_ascii_chars_encode_utf8("now"@);
    assert(text::utf8("now"@) =~= seq![0x6eu8, 0x6f, 0x77]);
}

proof fn lemma_lower_word_byte(c: u8)
    ensures
        text::is_word_byte(text::lower_byte(c)) == text::is_word_byte(c),
{
}

/// Inside a run of identifier bytes nothing is replaced.
proof fn lemma_inside_run(code: Seq<u8>, i: int, e: int, t: Transform)
    requires
        plain(t),
        0 < i <= e <= code.len(),
        forall|k: int| i - 1 <= k < e ==> text::is_word_byte(#[trigger] code[k]),
    ensures
        stretch(code, i, t) == code.subrange(i, e) + stretch(code, e, t),
    decreases e - i,
{
    if i < e {
        lemma_inside_run(code, i + 1, e, t);
        assert(text::is_word_byte(code[i - 1]));
        assert(!scan::opens_word(code, i));
        assert(code.subrange(i, e) =~= seq![code[i]] + code.subrange(i + 1, e));
        assert(stretch(code, i, t) =~= code.subrange(i, e) + stretch(code, e, t));
    } else {
        assert(code.subrange(i, e) =~= Seq::<u8>::empty());
    }
}

/// Whether a stretch of code is the code of a text from `i` on.
spec fn is_stretch(b: Seq<u8>, i: int, c: int) -> bool {
    &&& 0 <= i <= c <= b.len()
    &&& forall|k: int| i <= k < c ==> !#[trigger] rewrite::protected_at(b, k)
    &&& c == b.len() || rewrite::protected_at(b, c)
}

proof fn lemma_whole_word(code: Seq<u8>, i: int, e: int, word: Seq<u8>)
    requires
        0 <= i < e <= code.len(),
        scan::opens_word(code, i),
        forall|k: int| i <= k < e ==> text::is_word_byte(#[trigger] code[k]),
        e < code.len() ==> !text::is_word_byte(code[e]),
        word.len() > 0,
        forall|k: int| 0 <= k < word.len() ==> text::is_word_byte(#[trigger] word[k]),
    ensures
        rewrite::whole_word_at(code, i, word) <==> lowered(code.subrange(i, e)) == word,
{
    let run = code.subrange(i, e);
    if rewrite::whole_word_at(code, i, word) {
        if i + word.len() > e {
            assert(text::lower_byte(code[i + (e - i)]) == word[e - i]);
            lemma_lower_word_byte(code[e]);
        }
        if i + word.len() < e {
            assert(text::is_word_byte(code[i + word.len()]));
        }
        assert forall|k: int| 0 <= k < word.len() implies #[trigger] lowered(run)[k] == word[k] by {
            assert(text::lower_byte(code[i + k]) == word[k]);
        }
        assert(lowered(run) =~= word);
    }
    if lowered(run) == word {
        assert forall|k: int| 0 <= k < word.len() implies text::lower_byte(#[trigger] code[i + k])
            == word[k] by {
            assert(run[k] == code[i + k]);
            assert(lowered(run)[k] == text::lower_byte(run[k]));
        }
    }
}

proof fn lemma_tail_is(code: Seq<u8>, i: int)
    requires
        0 <= i <= code.len(),
    ensures
        ({
            let j = scan::ascii_spaces_end(code, i);
            call_tail(code.skip(i)) == if j + 1 < code.len() && code[j] == 0x28 && code[j + 1]
                == 0x29 {
                Some(j + 2 - i)
            } else {
                None
            }
        }),
    decreases code.len() - i,
{
    let x = code.skip(i);
    if i < code.len() {
        assert(x[0] == code[i]);
        if text::is_ascii_space_byte(code[i]) {
            assert(x.skip(1) =~= code.skip(i + 1));
            lemma_tail_is(code, i + 1);
        } else if i + 1 < code.len() {
            assert(x[1] == code[i + 1]);
        }
    }
}

proof fn lemma_tail_within(b: Seq<u8>, j: int, c: int)
    requires
        0 <= j <= c <= b.len(),
        c < b.len() ==> !text::is_ascii_space_byte(b[c]) && b[c] != 0x28 && b[c] != 0x29,
    ensures
        call_tail(b.subrange(j, c)) == call_tail(b.skip(j)),
        call_tail(b.skip(j)) matches Some(n) ==> j + n <= c,
    decreases c - j,
{
    let x = b.subrange(j, c);
    let y = b.skip(j);
    if j < c {
        assert(x[0] == y[0]);
        if text::is_ascii_space_byte(b[j]) {
            assert(x.skip(1) =~= b.subrange(j + 1, c));
            assert(y.skip(1) =~= b.skip(j + 1));
            lemma_tail_within(b, j + 1, c);
        } else {
            if j + 1 < c {
                assert(x[1] == y[1]);
            }
            if j + 1 < b.len() {
                assert(y[1] == b[j + 1]);
            }
        }
    } else if j < b.len() {
        assert(y[0] == b[j]);
    }
}

proof fn lemma_run_shift(b: Seq<u8>, i: int, k: int, p: spec_fn(u8) -> bool)
    requires
        0 <= i <= b.len(),
        0 <= k,
    ensures
        scan::run_end(b, i + k, p) == i + scan::run_end(b.skip(i), k, p),
    decreases b.len() - i - k,
{
    if i + k < b.len() {
        assert(b.skip(i)[k] == b[i + k]);
        lemma_run_shift(b, i, k + 1, p);
    }
}

proof fn lemma_quoted_shift(b: Seq<u8>, i: int, k: int, q: u8)
    requires
        0 <= i <= b.len(),
        0 <= k,
    ensures
        scan::quoted_end(b, i + k, q) == i + scan::quoted_end(b.skip(i), k, q),
    decreases b.len() - i - k,
{
    if i + k < b.len() {
        assert(b.skip(i)[k] == b[i + k]);
        if i + k + 1 < b.len() {
            assert(b.skip(i)[k + 1] == b[i + k + 1]);
            lemma_quoted_shift(b, i, k + 2, q);
        }
        lemma_quoted_shift(b, i, k + 1, q);
    }
}

proof fn lemma_block_shift(b: Seq<u8>, i: int, k: int)
    requires
        0 <= i <= b.len(),
        0 <= k,
    ensures
        scan::block_end(b, i + k) == i + scan::block_end(b.skip(i), k),
    decreases b.len() - i - k,
{
    if i + k + 1 < b.len() {
        assert(b.skip(i)[k] == b[i + k]);
        assert(b.skip(i)[k + 1] == b[i + k + 1]);
        lemma_block_shift(b, i, k + 1);
    }
}

proof fn lemma_protected_shift(b: Seq<u8>, i: int)
    requires
        0 <= i < b.len(),
    ensures
        rewrite::protected_at(b.skip(i), 0) == rewrite::protected_at(b, i),
        rewrite::protected_at(b, i) ==> rewrite::protected_end(b, i) == i + rewrite::protected_end(
            b.skip(i),
            0,
        ),
{
    let x = b.skip(i);
    assert(x[0] == b[i]);
    if i + 1 < b.len() {
        assert(x[1] == b[i + 1]);
    }
    lemma_quoted_shift(b, i, 1, b[i]);
    lemma_run_shift(b, i, 0, |c: u8| c != 0x0a);
    lemma_block_shift(b, i, 2);
}

proof fn lemma_stretch_is_swept(b: Seq<u8>, from: int, i: int, c: int, t: Transform)
    requires
        plain(t),
        is_stretch(b, from, c),
        from <= i <= c,
        i == from || i == c || !text::is_word_byte(b[i - 1]) || !text::is_word_byte(b[i]),
    ensures
        swept(b.skip(i), t) == stretch(b.subrange(from, c), i - from, t) + swept(b.skip(c), t),
    decreases c - i,
{
    let code = b.subrange(from, c);
    let x = b.skip(i);
    let k = i - from;
    if i == c {
        assert(stretch(code, k, t) =~= Seq::<u8>::empty());
        assert(swept(b.skip(i), t) =~= stretch(code, k, t) + swept(b.skip(c), t));
    } else {
        lemma_protected_shift(b, i);
        assert(!rewrite::protected_at(b, i));
        lemma_piece(x, t);
        lemma_chunk_end(x);
        assert(x[0] == b[i] && code[k] == b[i]);
        let e = chunk_end(x);
        let (new, n) = piece(x, t);
        if word_first(x) {
            if i + e > c {
                assert(text::is_word_byte(x[c - i]));
                assert(x[c - i] == b[c]);
            }
            assert forall|m: int| k <= m < k + e implies text::is_word_byte(#[trigger] code[m]) by {
                assert(code[m] == x[m - k]);
            }
            if k + e < code.len() {
                assert(code[k + e] == x[e]);
            }
            if k > 0 {
                assert(code[k - 1] == b[i - 1]);
            }
            assert(code.subrange(k, k + e) =~= x.take(e));
            lemma_inside_run(code, k + 1, k + e, t);
            assert(code.subrange(k, k + e) =~= seq![code[k]] + code.subrange(k + 1, k + e));
            lemma_now();
            let word = match t {
                Transform::Word { needle, .. } => text::utf8(needle@),
                Transform::Now => text::utf8("now"@),
            };
            lemma_whole_word(code, k, k + e, word);
            if t is Now {
                assert(b.skip(i).skip(e) =~= b.skip(i + e));
                assert(code.skip(k + e) =~= b.subrange(i + e, c));
                lemma_tail_within(b, i + e, c);
                lemma_tail_is(code, k + e);
                if lowered(x.take(e)) == word {
                    assert(lowered(x.take(e)).len() == e);
                    lemma_call_tail(b.skip(i + e));
                }
            }
            if n > e {
                assert(b[i + n - 1] == 0x29) by {
                    lemma_call_tail(b.skip(i + e));
                }
            }
        } else {
            if let Transform::Word { needle, .. } = t {
                if rewrite::whole_word_at(code, k, text::utf8(needle@)) {
                    assert(text::lower_byte(code[k + 0]) == text::utf8(needle@)[0]);
                    lemma_lower_word_byte(code[k]);
                }
            } else {
                lemma_now();
                if rewrite::whole_word_at(code, k, text::utf8("now"@)) {
                    assert(text::lower_byte(code[k + 0]) == text::utf8("now"@)[0]);
                    lemma_lower_word_byte(code[k]);
                }
            }
            assert(x.take(1) =~= seq![code[k]]);
        }
        assert(stretch(code, k, t) =~= new + stretch(code, k + n, t));
        assert(x.skip(n) =~= b.skip(i + n));
        lemma_stretch_is_swept(b, from, i + n, c, t);
        assert(swept(x, t) =~= stretch(code, k, t) + swept(b.skip(c), t));
    }
}

proof fn lemma_rewritten_is_swept(b: Seq<u8>, i: int, t: Transform)
    requires
        plain(t),
        0 <= i <= b.len(),
    ensures
        rewrite::transformed(rewrite::parts(b, i), t) == swept(b.skip(i), t),
    decreases b.len() - i,
{
    rewrite::lemma_transformed_split(b, i, t);
    rewrite::lemma_code_end(b, i);
    let c = rewrite::code_end(b, i);
    lemma_stretch_is_swept(b, i, i, c, t);
    assert(t.of(b.subrange(i, c)) == stretch(b.subrange(i, c), 0, t));
    if c >= b.len() {
        assert(swept(b.skip(c), t) =~= Seq::<u8>::empty());
        assert(swept(b.skip(i), t) =~= t.of(b.subrange(i, c)));
    } else {
        rewrite::lemma_protected_end(b, c);
        lemma_protected_shift(b, c);
        let e = rewrite::protected_end(b, c);
        let x = b.skip(c);
        assert(x[0] == b[c]);
        assert(!word_first(x));
        lemma_rewritten_is_swept(b, e, t);
        assert(x.take(e - c) =~= b.subrange(c, e));
        assert(x.skip(e - c) =~= b.skip(e));
        assert(swept(x, t) =~= b.subrange(c, e) + swept(b.skip(e), t));
        assert(swept(b.skip(i), t) =~= t.of(b.subrange(i, c)) + b.subrange(c, e) + swept(
            b.skip(e),
            t,
        ));
    }
}

// ---------------------------------------------------------------------------
// Texts that differ in names
// ---------------------------------------------------------------------------

/// A name: letters in lower case.
spec fn is_name(v: Seq<u8>) -> bool {
    v.len() > 0 && forall|k: int| 0 <= k < v.len() ==> 0x61 <= #[trigger] v[k] <= 0x7a
}

/// Whether `b` is `a` with some occurrences of the name `v`, in any case,
/// replaced by the name `r`.
spec fn alike(a: Seq<u8>, b: Seq<u8>, v: Seq<u8>, r: Seq<u8>) -> bool
    decreases a.len(),
{
    ||| a.len() == 0 && b.len() == 0
    ||| a.len() > 0 && b.len() > 0 && a[0] == b[0] && alike(a.skip(1), b.skip(1), v, r)
    ||| 0 < v.len() <= a.len() && lowered(a.take(v.len() as int)) == v && r.len() <= b.len()
        && b.take(r.len() as int) == r && alike(
        a.skip(v.len() as int),
        b.skip(r.len() as int),
        v,
        r,
    )
}

/// The first bytes are the same, or letters both.
proof fn lemma_alike_first(a: Seq<u8>, b: Seq<u8>, v: Seq<u8>, r: Seq<u8>)
    requires
        is_name(v),
        is_name(r),
        alike(a, b, v, r),
    ensures
        a.len() == 0 <==> b.len() == 0,
        a.len() > 0 ==> a[0] == b[0] || (text::is_alpha_byte(a[0]) && text::is_alpha_byte(b[0])),
        a.len() > 0 && !text::is_alpha_byte(a[0]) ==> alike(a.skip(1), b.skip(1), v, r),
{
    if a.len() > 0 && !(b.len() > 0 && a[0] == b[0] && alike(a.skip(1), b.skip(1), v, r)) {
        assert(lowered(a.take(v.len() as int))[0] == text::lower_byte(a[0]));
        assert(b.take(r.len() as int)[0] == b[0]);
    }
}

proof fn lemma_run_prefix(x: Seq<u8>, m: int, p: spec_fn(u8) -> bool)
    requires
        0 <= m <= x.len(),
        forall|k: int| 0 <= k < m ==> p(#[trigger] x[k]),
    ensures
        scan::run_end(x, 0, p) == m + scan::run_end(x.skip(m), 0, p),
    decreases m,
{
    if m > 0 {
        lemma_run_shift(x, 1, 0, p);
        let y = x.skip(1);
        assert forall|k: int| 0 <= k < m - 1 implies p(#[trigger] y[k]) by {
            assert(y[k] == x[k + 1]);
        }
        lemma_run_prefix(y, m - 1, p);
        assert(y.skip(m - 1) =~= x.skip(m));
    } else {
        assert(x.skip(0) =~= x);
    }
}

proof fn lemma_alike_run(a: Seq<u8>, b: Seq<u8>, v: Seq<u8>, r: Seq<u8>, p: spec_fn(u8) -> bool)
    requires
        is_name(v),
        is_name(r),
        alike(a, b, v, r),
        forall|c: u8| text::is_alpha_byte(c) ==> #[trigger] p(c),
    ensures
        alike(a.skip(scan::run_end(a, 0, p)), b.skip(scan::run_end(b, 0, p)), v, r),
        0 <= scan::run_end(a, 0, p) <= a.len(),
        0 <= scan::run_end(b, 0, p) <= b.len(),
    decreases a.len(),
{
    scan::lemma_run_end(a, 0, p);
    scan::lemma_run_end(b, 0, p);
    assert(a.skip(0) =~= a);
    assert(b.skip(0) =~= b);
    if a.len() > 0 {
        lemma_alike_first(a, b, v, r);
        if b.len() > 0 && a[0] == b[0] && alike(a.skip(1), b.skip(1), v, r) {
            if p(a[0]) {
                lemma_alike_run(a.skip(1), b.skip(1), v, r, p);
                lemma_run_prefix(a, 1, p);
                lemma_run_prefix(b, 1, p);
                let e = scan::run_end(a.skip(1), 0, p);
                let f = scan::run_end(b.skip(1), 0, p);
                assert(a.skip(1).skip(e) =~= a.skip(e + 1));
                assert(b.skip(1).skip(f) =~= b.skip(f + 1));
            }
        } else {
            let m = v.len() as int;
            let n = r.len() as int;
            lemma_alike_run(a.skip(m), b.skip(n), v, r, p);
            lemma_names_in_class(a, b, v, r, p);
            lemma_run_prefix(a, m, p);
            lemma_run_prefix(b, n, p);
            let e = scan::run_end(a.skip(m), 0, p);
            let f = scan::run_end(b.skip(n), 0, p);
            assert(a.skip(m).skip(e) =~= a.skip(e + m));
            assert(b.skip(n).skip(f) =~= b.skip(f + n));
        }
    }
}

proof fn lemma_names_in_class(
    a: Seq<u8>,
    b: Seq<u8>,
    v: Seq<u8>,
    r: Seq<u8>,
    p: spec_fn(u8) -> bool,
)
    requires
        is_name(v),
        is_name(r),
        v.len() <= a.len(),
        lowered(a.take(v.len() as int)) == v,
        r.len() <= b.len(),
        b.take(r.len() as int) == r,
        forall|c: u8| text::is_alpha_byte(c) ==> #[trigger] p(c),
    ensures
        forall|k: int| 0 <= k < v.len() ==> text::is_alpha_byte(#[trigger] a[k]) && p(a[k]),
        forall|k: int| 0 <= k < r.len() ==> text::is_alpha_byte(#[trigger] b[k]) && p(b[k]),
{
    assert forall|k: int| 0 <= k < v.len() implies text::is_alpha_byte(#[trigger] a[k]) && p(
        a[k],
    ) by {
        assert(lowered(a.take(v.len() as int))[k] == text::lower_byte(a[k]));
        assert(0x61 <= v[k] <= 0x7a);
    }
    assert forall|k: int| 0 <= k < r.len() implies text::is_alpha_byte(#[trigger] b[k]) && p(
        b[k],
    ) by {
        assert(b.take(r.len() as int)[k] == b[k]);
        assert(0x61 <= r[k] <= 0x7a);
    }
}

proof fn lemma_quoted_prefix(x: Seq<u8>, m: int, q: u8)
    requires
        0 <= m <= x.len(),
        forall|k: int| 0 <= k < m ==> #[trigger] x[k] != q,
    ensures
        scan::quoted_end(x, 0, q) == m + scan::quoted_end(x.skip(m), 0, q),
    decreases m,
{
    if m > 0 {
        lemma_quoted_shift(x, 1, 0, q);
        let y = x.skip(1);
        assert forall|k: int| 0 <= k < m - 1 implies #[trigger] y[k] != q by {
            assert(y[k] == x[k + 1]);
        }
        lemma_quoted_prefix(y, m - 1, q);
        assert(y.skip(m - 1) =~= x.skip(m));
        assert(x[0] != q);
    } else {
        assert(x.skip(0) =~= x);
    }
}

proof fn lemma_alike_quoted(a: Seq<u8>, b: Seq<u8>, v: Seq<u8>, r: Seq<u8>, q: u8)
    requires
        is_name(v),
        is_name(r),
        alike(a, b, v, r),
        q == 0x27 || q == 0x22,
    ensures
        alike(a.skip(scan::quoted_end(a, 0, q)), b.skip(scan::quoted_end(b, 0, q)), v, r),
    decreases a.len(),
{
    lemma_alike_first(a, b, v, r);
    scan::lemma_quoted_end(a, 0, q);
    scan::lemma_quoted_end(b, 0, q);
    if a.len() > 0 {
        let a1 = a.skip(1);
        let b1 = b.skip(1);
        if b.len() > 0 && a[0] == b[0] && alike(a1, b1, v, r) {
            if a[0] == q {
                lemma_alike_first(a1, b1, v, r);
                if a.len() > 1 && a[1] == q {
                    assert(a1[0] == a[1]);
                    assert(b1[0] == b[1]);
                    let a2 = a.skip(2);
                    let b2 = b.skip(2);
                    assert(a1.skip(1) =~= a2);
                    assert(b1.skip(1) =~= b2);
                    lemma_alike_quoted(a2, b2, v, r, q);
                    lemma_quoted_shift(a, 2, 0, q);
                    lemma_quoted_shift(b, 2, 0, q);
                    scan::lemma_quoted_end(a2, 0, q);
                    scan::lemma_quoted_end(b2, 0, q);
                    let e = scan::quoted_end(a2, 0, q);
                    let f = scan::quoted_end(b2, 0, q);
                    assert(a2.skip(e) =~= a.skip(e + 2));
                    assert(b2.skip(f) =~= b.skip(f + 2));
                } else {
                    if b.len() > 1 {
                        assert(a1[0] == a[1]);
                        assert(b1[0] == b[1]);
                    }
                    assert(scan::quoted_end(a, 0, q) == 1);
                    assert(scan::quoted_end(b, 0, q) == 1);
                }
            } else {
                lemma_alike_quoted(a1, b1, v, r, q);
                lemma_quoted_prefix(a, 1, q);
                lemma_quoted_prefix(b, 1, q);
                scan::lemma_quoted_end(a1, 0, q);
                scan::lemma_quoted_end(b1, 0, q);
                let e = scan::quoted_end(a1, 0, q);
                let f = scan::quoted_end(b1, 0, q);
                assert(a1.skip(e) =~= a.skip(e + 1));
                assert(b1.skip(f) =~= b.skip(f + 1));
            }
        } else {
            let m = v.len() as int;
            let n = r.len() as int;
            lemma_names_in_class(a, b, v, r, |c: u8| true);
            lemma_alike_quoted(a.skip(m), b.skip(n), v, r, q);
            lemma_quoted_prefix(a, m, q);
            lemma_quoted_prefix(b, n, q);
            scan::lemma_quoted_end(a.skip(m), 0, q);
            scan::lemma_quoted_end(b.skip(n), 0, q);
            let e = scan::quoted_end(a.skip(m), 0, q);
            let f = scan::quoted_end(b.skip(n), 0, q);
            assert(a.skip(m).skip(e) =~= a.skip(e + m));
            assert(b.skip(n).skip(f) =~= b.skip(f + n));
        }
    } else {
        assert(a.skip(0) =~= a);
        assert(b.skip(0) =~= b);
    }
}

proof fn lemma_block_prefix(x: Seq<u8>, m: int)
    requires
        0 <= m <= x.len(),
        forall|k: int| 0 <= k < m ==> #[trigger] x[k] != 0x2a,
    ensures
        scan::block_end(x, 0) == m + scan::block_end(x.skip(m), 0),
    decreases m,
{
    if m > 0 {
        lemma_block_shift(x, 1, 0);
        let y = x.skip(1);
        assert forall|k: int| 0 <= k < m - 1 implies #[trigger] y[k] != 0x2a by {
            assert(y[k] == x[k + 1]);
        }
        lemma_block_prefix(y, m - 1);
        assert(y.skip(m - 1) =~= x.skip(m));
        assert(x[0] != 0x2a);
    } else {
        assert(x.skip(0) =~= x);
    }
}

proof fn lemma_alike_block(a: Seq<u8>, b: Seq<u8>, v: Seq<u8>, r: Seq<u8>)
    requires
        is_name(v),
        is_name(r),
        alike(a, b, v, r),
    ensures
        alike(a.skip(scan::block_end(a, 0)), b.skip(scan::block_end(b, 0)), v, r),
    decreases a.len(),
{
    lemma_alike_first(a, b, v, r);
    scan::lemma_block_end(a, 0);
    scan::lemma_block_end(b, 0);
    if a.len() > 0 {
        let a1 = a.skip(1);
        let b1 = b.skip(1);
        if b.len() > 0 && a[0] == b[0] && alike(a1, b1, v, r) {
            lemma_alike_first(a1, b1, v, r);
            if a.len() > 1 {
                assert(a1[0] == a[1]);
                assert(b1[0] == b[1]);
            }
            if a[0] == 0x2a && a.len() > 1 && a[1] == 0x2f {
                assert(a1.skip(1) =~= a.skip(2));
                assert(b1.skip(1) =~= b.skip(2));
            } else {
                lemma_alike_block(a1, b1, v, r);
                lemma_block_shift(a, 1, 0);
                lemma_block_shift(b, 1, 0);
                scan::lemma_block_end(a1, 0);
                scan::lemma_block_end(b1, 0);
                let e = scan::block_end(a1, 0);
                let f = scan::block_end(b1, 0);
                assert(a1.skip(e) =~= a.skip(e + 1));
                assert(b1.skip(f) =~= b.skip(f + 1));
            }
        } else {
            let m = v.len() as int;
            let n = r.len() as int;
            lemma_names_in_class(a, b, v, r, |c: u8| true);
            lemma_alike_block(a.skip(m), b.skip(n), v, r);
            lemma_block_prefix(a, m);
            lemma_block_prefix(b, n);
            scan::lemma_block_end(a.skip(m), 0);
            scan::lemma_block_end(b.skip(n), 0);
            let e = scan::block_end(a.skip(m), 0);
            let f = scan::block_end(b.skip(n), 0);
            assert(a.skip(m).skip(e) =~= a.skip(e + m));
            assert(b.skip(n).skip(f) =~= b.skip(f + n));
        }
    } else {
        assert(a.skip(0) =~= a);
        assert(b.skip(0) =~= b);
    }
}

/// Whether a name stands nowhere inside a word.
spec fn stands_nowhere(w: Seq<u8>, v: Seq<u8>) -> bool {
    forall|k: int|
        0 <= k && k + v.len() <= w.len() ==> #[trigger] w.skip(k).take(v.len() as int) != v
}

proof fn lemma_stands_nowhere_behind(w: Seq<u8>, v: Seq<u8>)
    requires
        w.len() > 0,
        stands_nowhere(w, v),
    ensures
        stands_nowhere(w.skip(1), v),
{
    assert forall|k: int| 0 <= k && k + v.len() <= w.skip(1).len() implies #[trigger] w.skip(
        1,
    ).skip(k).take(v.len() as int) != v by {
        assert(w.skip(1).skip(k) =~= w.skip(k + 1));
    }
}

/// The first run of identifier bytes, in lower case.
spec fn first_word(x: Seq<u8>) -> Seq<u8> {
    lowered(x.take(scan::word_end(x, 0)))
}

proof fn lemma_first_word(x: Seq<u8>, m: int)
    requires
        0 <= m <= x.len(),
        forall|k: int| 0 <= k < m ==> text::is_word_byte(#[trigger] x[k]),
    ensures
        first_word(x) == lowered(x.take(m)) + first_word(x.skip(m)),
{
    let p = |c: u8| text::is_word_byte(c);
    lemma_run_prefix(x, m, p);
    scan::lemma_run_end(x.skip(m), 0, p);
    scan::lemma_run_end(x, 0, p);
    assert(first_word(x) =~= lowered(x.take(m)) + first_word(x.skip(m)));
}

proof fn lemma_alike_word(a: Seq<u8>, b: Seq<u8>, v: Seq<u8>, r: Seq<u8>, w: Seq<u8>)
    requires
        is_name(v),
        is_name(r),
        alike(a, b, v, r),
        stands_nowhere(w, v),
        stands_nowhere(w, r),
    ensures
        first_word(a) == w <==> first_word(b) == w,
    decreases a.len(),
{
    lemma_alike_first(a, b, v, r);
    let p = |c: u8| text::is_word_byte(c);
    scan::lemma_run_end(a, 0, p);
    scan::lemma_run_end(b, 0, p);
    if a.len() > 0 {
        let a1 = a.skip(1);
        let b1 = b.skip(1);
        if b.len() > 0 && a[0] == b[0] && alike(a1, b1, v, r) {
            if text::is_word_byte(a[0]) {
                lemma_first_word(a, 1);
                lemma_first_word(b, 1);
                assert(lowered(a.take(1)) =~= seq![text::lower_byte(a[0])]);
                assert(lowered(b.take(1)) =~= seq![text::lower_byte(a[0])]);
                if w.len() > 0 {
                    lemma_stands_nowhere_behind(w, v);
                    lemma_stands_nowhere_behind(w, r);
                    lemma_alike_word(a1, b1, v, r, w.skip(1));
                    if first_word(a) == w {
                        assert(w.skip(1) =~= first_word(a1));
                        assert(first_word(b) =~= w);
                    }
                    if first_word(b) == w {
                        assert(w.skip(1) =~= first_word(b1));
                        assert(first_word(a) =~= w);
                    }
                }
            } else {
                assert(first_word(a) =~= Seq::<u8>::empty());
                assert(first_word(b) =~= Seq::<u8>::empty());
            }
        } else {
            let m = v.len() as int;
            let n = r.len() as int;
            lemma_names_in_class(a, b, v, r, |c: u8| true);
            lemma_first_word(a, m);
            lemma_first_word(b, n);
            if first_word(a) == w {
                assert(w.skip(0).take(m) =~= v);
            }
            if first_word(b) == w {
                assert(lowered(b.take(n)) =~= r) by {
                    assert forall|k: int| 0 <= k < n implies #[trigger] lowered(b.take(n))[k]
                        == r[k] by {
                        assert(0x61 <= r[k] <= 0x7a);
                        assert(b.take(n)[k] == r[k]);
                    }
                }
                assert(w.skip(0).take(n) =~= r);
            }
        }
    } else {
        assert(a =~= b);
    }
}

/// The text that bytes spell, one character each.
spec fn spelled(w: Seq<u8>) -> Seq<char> {
    w.map_values(|c: u8| c as char)
}

proof fn lemma_spelled(a: Seq<u8>, b: Seq<u8>)
    requires
        spelled(a) == spelled(b),
    ensures
        a == b,
{
    assert(a.len() == spelled(a).len());
    assert(b.len() == spelled(b).len());
    assert forall|k: int| 0 <= k < a.len() implies a[k] == b[k] by {
        assert(spelled(a)[k] == a[k] as char);
        assert(spelled(b)[k] == b[k] as char);
    }
    assert(a =~= b);
}

proof fn lemma_word_token(x: Seq<u8>, w: Seq<u8>)
    requires
        x.len() > 0,
    ensures
        lexer::lexeme(x, 0).1 == Some(TokenView::Word(spelled(w))) <==> text::is_word_start_byte(
            x[0],
        ) && first_word(x) == w,
        text::is_word_start_byte(x[0]) ==> lexer::lexeme(x, 0).0 == scan::word_end(x, 0),
{
    scan::lemma_run_end(x, 0, |c: u8| text::is_word_byte(c));
    let e = scan::word_end(x, 0);
    assert(scan::lower_ascii(x, 0, e) =~= spelled(first_word(x)));
    if spelled(first_word(x)) == spelled(w) {
        lemma_spelled(first_word(x), w);
    }
}

proof fn lemma_alike_lexeme(a: Seq<u8>, b: Seq<u8>, v: Seq<u8>, r: Seq<u8>, w: Seq<u8>)
    requires
        is_name(v),
        is_name(r),
        alike(a, b, v, r),
        stands_nowhere(w, v),
        stands_nowhere(w, r),
        a.len() > 0,
    ensures
        alike(a.skip(lexer::lexeme(a, 0).0), b.skip(lexer::lexeme(b, 0).0), v, r),
        lexer::lexeme(a, 0).1 == Some(TokenView::Word(spelled(w))) <==> lexer::lexeme(b, 0).1
            == Some(TokenView::Word(spelled(w))),
{
    lemma_alike_first(a, b, v, r);
    lemma_word_token(a, w);
    lemma_word_token(b, w);
    lemma_alike_word(a, b, v, r, w);
    lemma_alike_run(a, b, v, r, |c: u8| text::is_word_byte(c));
    if !text::is_alpha_byte(a[0]) {
        let a1 = a.skip(1);
        let b1 = b.skip(1);
        lemma_alike_first(a1, b1, v, r);
        if a.len() > 1 {
            assert(a1[0] == a[1]);
            assert(b1[0] == b[1]);
        }
        if a.len() > 1 && !text::is_alpha_byte(a[1]) {
            let a2 = a.skip(2);
            let b2 = b.skip(2);
            assert(a1.skip(1) =~= a2);
            assert(b1.skip(1) =~= b2);
            lemma_alike_first(a2, b2, v, r);
            if a.len() > 2 {
                assert(a2[0] == a[2]);
                assert(b2[0] == b[2]);
                if !text::is_alpha_byte(a[2]) {
                    assert(a2.skip(1) =~= a.skip(3));
                    assert(b2.skip(1) =~= b.skip(3));
                }
            }
            if scan::block_at(a, 0) {
                lemma_alike_block(a2, b2, v, r);
                lemma_block_shift(a, 2, 0);
                lemma_block_shift(b, 2, 0);
                scan::lemma_block_end(a2, 0);
                scan::lemma_block_end(b2, 0);
                let e = scan::block_end(a2, 0);
                let f = scan::block_end(b2, 0);
                assert(a2.skip(e) =~= a.skip(e + 2));
                assert(b2.skip(f) =~= b.skip(f + 2));
            }
            if scan::dashes_at(a, 0) {
                lemma_alike_run(a, b, v, r, |c: u8| c != 0x0a);
            }
        }
        if scan::quote_at(a, 0) {
            lemma_alike_quoted(a1, b1, v, r, a[0]);
            lemma_quoted_shift(a, 1, 0, a[0]);
            lemma_quoted_shift(b, 1, 0, a[0]);
            scan::lemma_quoted_end(a1, 0, a[0]);
            scan::lemma_quoted_end(b1, 0, a[0]);
            let e = scan::quoted_end(a1, 0, a[0]);
            let f = scan::quoted_end(b1, 0, a[0]);
            assert(a1.skip(e) =~= a.skip(e + 1));
            assert(b1.skip(f) =~= b.skip(f + 1));
        }
        if text::is_digit_byte(a[0]) {
            lemma_alike_run(a, b, v, r, |c: u8| text::is_alnum_byte(c) || c == 0x2e);
        }
    }
}

proof fn lemma_lexeme_shift(b: Seq<u8>, i: int, k: int)
    requires
        0 <= i,
        0 <= k,
        i + k < b.len(),
    ensures
        lexer::lexeme(b, i + k) == (i + lexer::lexeme(b.skip(i), k).0, lexer::lexeme(
            b.skip(i),
            k,
        ).1),
{
    let x = b.skip(i);
    assert(forall|m: int| 0 <= m < x.len() ==> #[trigger] x[m] == b[i + m]);
    lemma_run_shift(b, i, k, |c: u8| c != 0x0a);
    lemma_run_shift(b, i, k, |c: u8| text::is_word_byte(c));
    lemma_run_shift(b, i, k, |c: u8| text::is_alnum_byte(c) || c == 0x2e);
    lemma_quoted_shift(b, i, k + 1, b[i + k]);
    lemma_block_shift(b, i, k + 2);
    scan::lemma_run_end(x, k, |c: u8| text::is_word_byte(c));
    assert(scan::lower_ascii(b, i + k, scan::word_end(b, i + k)) =~= scan::lower_ascii(
        x,
        k,
        scan::word_end(x, k),
    ));
}

proof fn lemma_tokens_shift(b: Seq<u8>, i: int, k: int)
    requires
        0 <= i <= b.len(),
        0 <= k,
    ensures
        lexer::tokens_from(b, i + k) == lexer::tokens_from(b.skip(i), k),
    decreases b.len() - i - k,
{
    if i + k < b.len() {
        lemma_lexeme_shift(b, i, k);
        lexer::lemma_lexeme_advances(b.skip(i), k);
        lemma_tokens_shift(b, i, lexer::lexeme(b.skip(i), k).0);
    }
}

/// Whether a text has a word among its tokens.
spec fn has_word(x: Seq<u8>, w: Seq<u8>) -> bool {
    lexer::tokens_from(x, 0).contains(TokenView::Word(spelled(w)))
}

proof fn lemma_has_word(x: Seq<u8>, w: Seq<u8>)
    requires
        x.len() > 0,
    ensures
        has_word(x, w) <==> lexer::lexeme(x, 0).1 == Some(TokenView::Word(spelled(w))) || has_word(
            x.skip(lexer::lexeme(x, 0).0),
            w,
        ),
        0 < lexer::lexeme(x, 0).0 <= x.len(),
{
    lexer::lemma_lexeme_advances(x, 0);
    let (n, token) = lexer::lexeme(x, 0);
    lemma_tokens_shift(x, n, 0);
    let rest = lexer::tokens_from(x, n);
    let all = lexer::tokens_from(x, 0);
    let target = TokenView::Word(spelled(w));
    if let Some(t) = token {
        assert(all =~= seq![t] + rest);
        if all.contains(target) {
            let k = choose|k: int| 0 <= k < all.len() && all[k] == target;
            if k > 0 {
                assert(rest[k - 1] == target);
            }
        }
        if rest.contains(target) {
            let k = choose|k: int| 0 <= k < rest.len() && rest[k] == target;
            assert(all[k + 1] == target);
        }
        if t == target {
            assert(all[0] == target);
        }
    }
}

/// Texts that differ in names have the same other words.
proof fn lemma_alike_tokens(a: Seq<u8>, b: Seq<u8>, v: Seq<u8>, r: Seq<u8>, w: Seq<u8>)
    requires
        is_name(v),
        is_name(r),
        alike(a, b, v, r),
        stands_nowhere(w, v),
        stands_nowhere(w, r),
    ensures
        has_word(a, w) <==> has_word(b, w),
    decreases a.len(),
{
    lemma_alike_first(a, b, v, r);
    if a.len() > 0 {
        lemma_alike_lexeme(a, b, v, r, w);
        lemma_has_word(a, w);
        lemma_has_word(b, w);
        lemma_alike_tokens(
            a.skip(lexer::lexeme(a, 0).0),
            b.skip(lexer::lexeme(b, 0).0),
            v,
            r,
            w,
        );
    } else {
        assert(a =~= b);
    }
}

// ---------------------------------------------------------------------------
// The chunks of a rewritten text
// ---------------------------------------------------------------------------

/// A rewrite of one name to another, or of the calls of `now()`.
spec fn fair(t: Transform) -> bool {
    match t {
        Transform::Word { needle, replacement } => is_name(text::utf8(needle@)) && is_name(
            text::utf8(replacement@),
        ) && text::utf8(needle@) != text::utf8("now"@) && text::utf8(replacement@) != text::utf8(
            "now"@,
        ),
        Transform::Now => true,
    }
}

spec fn stamp() -> Seq<u8> {
    text::utf8("CURRENT_TIMESTAMP"@)
}

proof fn lemma_stamp()
    ensures
        stamp().len() == 17,
        forall|k: int| 0 <= k < 17 ==> text::is_word_byte(#[trigger] stamp()[k]),
        stamp()[0] == 0x43,
{
    reveal_strlit("CURRENT_TIMESTAMP");
    vstd::utf8::is_ascii_chars_encode_utf8("CURRENT_TIMESTAMP"@);
}

/// What the first chunk becomes is identifier bytes where the chunk is.
proof fn lemma_new_word(x: Seq<u8>, t: Transform)
    requires
        fair(t),
        word_first(x),
    ensures
        piece(x, t).0.len() > 0,
        forall|k: int|
            0 <= k < piece(x, t).0.len() ==> text::is_word_byte(#[trigger] piece(x, t).0[k]),
{
    lemma_chunk_end(x);
    lemma_stamp();
    let (new, n) = piece(x, t);
    if let Transform::Word { replacement, .. } = t {
        assert(forall|k: int|
            0 <= k < text::utf8(replacement@).len() ==> 0x61 <= #[trigger] text::utf8(
                replacement@,
            )[k] <= 0x7a);
    }
}

proof fn lemma_swept_first(x: Seq<u8>, t: Transform)
    requires
        fair(t),
    ensures
        x.len() == 0 <==> swept(x, t).len() == 0,
        x.len() > 0 ==> swept(x, t)[0] == x[0] || (text::is_word_byte(x[0]) && text::is_word_byte(
            swept(x, t)[0],
        )),
{
    if x.len() > 0 {
        lemma_piece(x, t);
        lemma_chunk_end(x);
        let (new, n) = piece(x, t);
        if word_first(x) {
            lemma_new_word(x, t);
        }
        assert(swept(x, t)[0] == new[0]);
    }
}

proof fn lemma_quoted_copy(x: Seq<u8>, z: Seq<u8>, k: int, e: int, q: u8)
    requires
        0 <= k <= e <= x.len(),
        scan::quoted_end(x, k, q) == e,
        e <= z.len(),
        forall|j: int| 0 <= j < e ==> #[trigger] z[j] == x[j],
        z.len() == e <==> x.len() == e,
        e < x.len() ==> (x[e] != q ==> z[e] != q),
    ensures
        scan::quoted_end(z, k, q) == e,
    decreases e - k,
{
    scan::lemma_quoted_end(x, k, q);
    if k < x.len() {
        if x[k] == q {
            if k + 1 < x.len() && x[k + 1] == q {
                scan::lemma_quoted_end(x, k + 2, q);
                lemma_quoted_copy(x, z, k + 2, e, q);
            }
        } else {
            scan::lemma_quoted_end(x, k + 1, q);
            lemma_quoted_copy(x, z, k + 1, e, q);
        }
    }
}

proof fn lemma_block_copy(x: Seq<u8>, z: Seq<u8>, k: int, e: int)
    requires
        0 <= k <= e <= x.len(),
        scan::block_end(x, k) == e,
        e <= z.len(),
        forall|j: int| 0 <= j < e ==> #[trigger] z[j] == x[j],
        z.len() == e <==> x.len() == e,
    ensures
        scan::block_end(z, k) == e,
    decreases e - k,
{
    scan::lemma_block_end(x, k);
    if k + 1 < x.len() && !(x[k] == 0x2a && x[k + 1] == 0x2f) {
        scan::lemma_block_end(x, k + 1);
        assert(k + 1 < e) by {
            if scan::block_end(x, k + 1) == k + 1 {
                assert(k + 1 == x.len());
            }
        }
        lemma_block_copy(x, z, k + 1, e);
    }
}

/// Protected text that is copied is the first chunk again.
proof fn lemma_protected_copy(x: Seq<u8>, z: Seq<u8>)
    requires
        x.len() > 0,
        rewrite::protected_at(x, 0),
        ({
            let e = rewrite::protected_end(x, 0);
            &&& e <= z.len()
            &&& forall|j: int| 0 <= j < e ==> #[trigger] z[j] == x[j]
            &&& z.len() == e <==> x.len() == e
            &&& e < x.len() ==> z[e] == x[e] || (text::is_word_byte(x[e]) && text::is_word_byte(
                z[e],
            ))
        }),
    ensures
        rewrite::protected_at(z, 0),
        rewrite::protected_end(z, 0) == rewrite::protected_end(x, 0),
        !word_first(z),
{
    rewrite::lemma_protected_end(x, 0);
    let e = rewrite::protected_end(x, 0);
    assert(z[0] == x[0]);
    if scan::quote_at(x, 0) {
        lemma_quoted_copy(x, z, 1, e, x[0]);
    } else if scan::dashes_at(x, 0) {
        let p = |c: u8| c != 0x0a;
        scan::lemma_run_end(x, 0, p);
        lemma_line_holds_dashes(x);
        assert(z[1] == x[1]);
        laws::lemma_run_is(z, 0, e, p);
    } else {
        scan::lemma_block_end(x, 2);
        assert(z[1] == x[1]);
        lemma_block_copy(x, z, 2, e);
    }
}

proof fn lemma_line_holds_dashes(x: Seq<u8>)
    requires
        scan::dashes_at(x, 0),
    ensures
        scan::line_end(x, 0) >= 2,
{
    let p = |c: u8| c != 0x0a;
    lemma_run_prefix(x, 2, p);
    scan::lemma_run_end(x.skip(2), 0, p);
}

/// A byte that is no chunk of another sort stays one when it is copied.
proof fn lemma_single_copy(x: Seq<u8>, z: Seq<u8>)
    requires
        x.len() > 0,
        z.len() > 0,
        z[0] == x[0],
        !rewrite::protected_at(x, 0),
        !text::is_word_byte(x[0]),
        z.len() == 1 <==> x.len() == 1,
        x.len() > 1 ==> z[1] == x[1] || (text::is_word_byte(x[1]) && text::is_word_byte(z[1])),
    ensures
        !rewrite::protected_at(z, 0),
        !word_first(z),
        chunk_end(z) == 1,
{
}

/// A run of identifier bytes followed by none is the first chunk.
proof fn lemma_word_chunk(new: Seq<u8>, z: Seq<u8>)
    requires
        new.len() > 0,
        forall|k: int| 0 <= k < new.len() ==> text::is_word_byte(#[trigger] new[k]),
        z.len() > 0 ==> !text::is_word_byte(z[0]),
    ensures
        word_first(new + z),
        chunk_end(new + z) == new.len(),
        (new + z).take(new.len() as int) == new,
        (new + z).skip(new.len() as int) == z,
        first_word(new + z) == lowered(new),
{
    let y = new + z;
    laws::lemma_run_is(y, 0, new.len() as int, |c: u8| text::is_word_byte(c));
    assert(y.take(new.len() as int) =~= new);
    assert(y.skip(new.len() as int) =~= z);
    assert(!rewrite::protected_at(y, 0));
}

/// What stands behind a chunk of identifier bytes, rewritten, starts with
/// none.
proof fn lemma_behind_word(x: Seq<u8>, t: Transform)
    requires
        fair(t),
        word_first(x),
    ensures
        ({
            let rest = swept(x.skip(chunk_end(x)), t);
            rest.len() > 0 ==> !text::is_word_byte(rest[0])
        }),
{
    lemma_chunk_end(x);
    let y = x.skip(chunk_end(x));
    lemma_swept_first(y, t);
    if y.len() > 0 {
        assert(y[0] == x[chunk_end(x)]);
    }
}

/// The first chunk of a text whose first chunk is copied, rewritten by `t`.
proof fn lemma_copied_chunk(x: Seq<u8>, t: Transform)
    requires
        fair(t),
        x.len() > 0,
        piece(x, t) == (x.take(chunk_end(x)), chunk_end(x)),
    ensures
        ({
            let z = swept(x, t);
            let e = chunk_end(x);
            &&& z.len() > 0
            &&& word_first(z) == word_first(x)
            &&& chunk_end(z) == e
            &&& e <= z.len()
            &&& z.take(e) == x.take(e)
            &&& z.skip(e) == swept(x.skip(e), t)
        }),
{
    lemma_chunk_end(x);
    let e = chunk_end(x);
    let rest = swept(x.skip(e), t);
    let z = swept(x, t);
    assert(z == x.take(e) + rest);
    assert(z.take(e) =~= x.take(e));
    assert(z.skip(e) =~= rest);
    lemma_swept_first(x.skip(e), t);
    if e < x.len() {
        assert(x.skip(e)[0] == x[e]);
        assert(z[e] == rest[0]);
    }
    if word_first(x) {
        lemma_behind_word(x, t);
        lemma_word_chunk(x.take(e), rest);
    } else if rewrite::protected_at(x, 0) {
        lemma_protected_copy(x, z);
    } else {
        lemma_single_copy(x, z);
    }
}

proof fn lemma_tail_swept(y: Seq<u8>, t: Transform)
    requires
        fair(t),
    ensures
        call_tail(swept(y, t)) == call_tail(y),
        call_tail(y) matches Some(n) ==> n <= y.len() && swept(y, t) == y.take(n) + swept(
            y.skip(n),
            t,
        ),
    decreases y.len(),
{
    lemma_swept_first(y, t);
    let z = swept(y, t);
    if y.len() > 0 {
        if text::is_ascii_space_byte(y[0]) {
            assert(piece(y, t) == (y.take(1), 1int));
            lemma_copied_chunk(y, t);
            let y1 = y.skip(1);
            lemma_tail_swept(y1, t);
            assert(z.skip(1) == swept(y1, t));
            assert(z.take(1)[0] == y.take(1)[0]);
            if let Some(n) = call_tail(y1) {
                lemma_call_tail(y1);
                assert(y1.skip(n) =~= y.skip(n + 1));
                assert(z =~= y.take(1) + swept(y1, t));
                assert(z =~= y.take(n + 1) + swept(y.skip(n + 1), t));
            }
        } else if y[0] == 0x28 {
            assert(piece(y, t) == (y.take(1), 1int));
            lemma_copied_chunk(y, t);
            let y1 = y.skip(1);
            let z1 = swept(y1, t);
            lemma_swept_first(y1, t);
            assert(z.skip(1) == z1);
            assert(z.take(1)[0] == y.take(1)[0]);
            if y.len() > 1 {
                assert(y1[0] == y[1]);
                assert(z[1] == z.skip(1)[0]);
            }
            if call_tail(y) is Some {
                assert(piece(y1, t) == (y1.take(1), 1int));
                lemma_copied_chunk(y1, t);
                assert(y1.skip(1) =~= y.skip(2));
                assert(z =~= y.take(1) + z1);
                assert(z1 =~= y1.take(1) + swept(y.skip(2), t));
                assert(z =~= y.take(2) + swept(y.skip(2), t));
            }
        }
    }
}

// ---------------------------------------------------------------------------
// How rewrites act on each other
// ---------------------------------------------------------------------------

proof fn lemma_alike_behind(p: Seq<u8>, a: Seq<u8>, b: Seq<u8>, v: Seq<u8>, r: Seq<u8>)
    requires
        alike(a, b, v, r),
    ensures
        alike(p + a, p + b, v, r),
    decreases p.len(),
{
    if p.len() > 0 {
        let q = p.skip(1);
        lemma_alike_behind(q, a, b, v, r);
        assert((p + a).skip(1) =~= q + a);
        assert((p + b).skip(1) =~= q + b);
    } else {
        assert(p + a =~= a);
        assert(p + b =~= b);
    }
}

proof fn lemma_alike_replaced(p: Seq<u8>, a: Seq<u8>, b: Seq<u8>, v: Seq<u8>, r: Seq<u8>)
    requires
        v.len() > 0,
        lowered(p) == v,
        alike(a, b, v, r),
    ensures
        alike(p + a, r + b, v, r),
{
    assert(p.len() == v.len());
    assert((p + a).take(v.len() as int) =~= p);
    assert((p + a).skip(v.len() as int) =~= a);
    assert((r + b).take(r.len() as int) =~= r);
    assert((r + b).skip(r.len() as int) =~= b);
}

/// Replacing a name makes a text that differs in names.
proof fn lemma_replaced_is_alike(x: Seq<u8>, t: Transform)
    requires
        fair(t),
        t is Word,
    ensures
        alike(
            x,
            swept(x, t),
            text::utf8(t->Word_needle@),
            text::utf8(t->Word_replacement@),
        ),
    decreases x.len(),
{
    let v = text::utf8(t->Word_needle@);
    let r = text::utf8(t->Word_replacement@);
    if x.len() > 0 {
        lemma_piece(x, t);
        let (new, n) = piece(x, t);
        let rest = x.skip(n);
        lemma_replaced_is_alike(rest, t);
        assert(x =~= x.take(n) + rest);
        if word_first(x) && lowered(x.take(n)) == v {
            lemma_alike_replaced(x.take(n), rest, swept(rest, t), v, r);
        } else {
            lemma_alike_behind(x.take(n), rest, swept(rest, t), v, r);
        }
    }
}

/// Replacing calls of `now()` keeps texts that differ in names apart in names
/// only.
proof fn lemma_stamped_is_alike(x: Seq<u8>, t: Transform)
    requires
        fair(t),
        t is Word,
    ensures
        alike(
            swept(x, Transform::Now),
            swept(swept(x, t), Transform::Now),
            text::utf8(t->Word_needle@),
            text::utf8(t->Word_replacement@),
        ),
    decreases x.len(),
{
    let v = text::utf8(t->Word_needle@);
    let r = text::utf8(t->Word_replacement@);
    let now = Transform::Now;
    let z = swept(x, t);
    if x.len() > 0 {
        lemma_chunk_end(x);
        lemma_piece(x, t);
        lemma_swept_first(x, t);
        let e = chunk_end(x);
        let y = x.skip(e);
        if word_first(x) && lowered(x.take(e)) == v {
            lemma_stamped_is_alike(y, t);
            lemma_behind_word(x, t);
            lemma_new_word(x, t);
            lemma_word_chunk(r, swept(y, t));
            assert(lowered(r) =~= r) by {
                assert forall|k: int| 0 <= k < r.len() implies #[trigger] lowered(r)[k] == r[k] by {
                    assert(0x61 <= r[k] <= 0x7a);
                }
            }
            assert(z == r + swept(y, t));
            assert(piece(z, now) == (r, r.len() as int));
            assert(swept(z, now) == r + swept(swept(y, t), now));
            assert(piece(x, now) == (x.take(e), e));
            lemma_alike_replaced(x.take(e), swept(y, now), swept(swept(y, t), now), v, r);
        } else {
            lemma_copied_chunk(x, t);
            assert(z.skip(e) == swept(y, t));
            lemma_tail_swept(y, t);
            if word_first(x) && lowered(x.take(e)) == text::utf8("now"@) && call_tail(y) is Some {
                let n = call_tail(y)->Some_0;
                lemma_call_tail(y);
                lemma_stamped_is_alike(y.skip(n), t);
                assert(x.skip(e + n) =~= y.skip(n));
                assert(z.skip(e + n) =~= z.skip(e).skip(n));
                assert(z.skip(e).skip(n) =~= swept(y.skip(n), t));
                lemma_alike_behind(
                    stamp(),
                    swept(y.skip(n), now),
                    swept(swept(y.skip(n), t), now),
                    v,
                    r,
                );
            } else {
                lemma_stamped_is_alike(y, t);
                assert(piece(x, now) == (x.take(e), e));
                assert(piece(z, now) == (x.take(e), e));
                lemma_alike_behind(x.take(e), swept(y, now), swept(swept(y, t), now), v, r);
            }
        }
    } else {
        assert(z =~= Seq::<u8>::empty());
    }
}

/// Identifier bytes before a text join its first run.
proof fn lemma_joined_chunk(p: Seq<u8>, y: Seq<u8>)
    requires
        p.len() > 0,
        forall|k: int| 0 <= k < p.len() ==> text::is_word_byte(#[trigger] p[k]),
    ensures
        ({
            let n = if word_first(y) {
                chunk_end(y)
            } else {
                0
            };
            &&& 0 <= n <= y.len()
            &&& word_first(p + y)
            &&& chunk_end(p + y) == p.len() + n
            &&& (p + y).take(p.len() + n) == p + y.take(n)
            &&& (p + y).skip(p.len() + n) == y.skip(n)
        }),
{
    let n = if word_first(y) {
        chunk_end(y)
    } else {
        0
    };
    if y.len() > 0 {
        lemma_chunk_end(y);
    }
    let head = p + y.take(n);
    let rest = y.skip(n);
    assert(p + y =~= head + rest);
    assert forall|k: int| 0 <= k < head.len() implies text::is_word_byte(#[trigger] head[k]) by {
        if k >= p.len() {
            assert(head[k] == y[k - p.len()]);
        }
    }
    if rest.len() > 0 {
        assert(rest[0] == y[n]);
    }
    lemma_word_chunk(head, rest);
}

proof fn lemma_long_is_not_now(p: Seq<u8>)
    requires
        p.len() >= 17,
    ensures
        lowered(p) != text::utf8("now"@),
{
    lemma_now();
    assert(lowered(p).len() == p.len());
}

proof fn lemma_stamp_stays(y: Seq<u8>)
    requires
        swept(y, Transform::Now) == y,
    ensures
        swept(stamp() + y, Transform::Now) == stamp() + y,
{
    let now = Transform::Now;
    lemma_stamp();
    lemma_joined_chunk(stamp(), y);
    let n = if word_first(y) {
        chunk_end(y)
    } else {
        0
    };
    let x = stamp() + y;
    lemma_long_is_not_now(stamp() + y.take(n));
    assert(piece(x, now) == (stamp() + y.take(n), 17 + n));
    if word_first(y) {
        let (new, m) = piece(y, now);
        lemma_piece(y, now);
        lemma_now();
        if m != n || new != y.take(n) {
            assert(swept(y, now)[0] == 0x43);
            assert(lowered(y.take(n))[0] == text::lower_byte(y[0]));
            assert(false);
        }
        assert(swept(y, now) == y.take(n) + swept(y.skip(n), now));
        assert(swept(y.skip(n), now) =~= y.skip(n)) by {
            assert(swept(y, now).skip(n) =~= swept(y.skip(n), now));
        }
    } else {
        assert(y.skip(0) =~= y);
    }
    assert(swept(x, now) =~= x) by {
        assert(y =~= y.take(n) + y.skip(n));
    }
}

/// Replacing the calls of `now()` leaves none to replace.
proof fn lemma_stamped_once(x: Seq<u8>)
    ensures
        swept(swept(x, Transform::Now), Transform::Now) == swept(x, Transform::Now),
    decreases x.len(),
{
    let now = Transform::Now;
    let z = swept(x, now);
    if x.len() > 0 {
        lemma_chunk_end(x);
        lemma_piece(x, now);
        let e = chunk_end(x);
        let y = x.skip(e);
        let (new, n) = piece(x, now);
        if new != x.take(e) || n != e {
            lemma_stamped_once(x.skip(n));
            lemma_stamp_stays(swept(x.skip(n), now));
        } else {
            lemma_copied_chunk(x, now);
            lemma_stamped_once(y);
            lemma_tail_swept(y, now);
            assert(piece(z, now) == (x.take(e), e));
            assert(swept(z, now) =~= z);
        }
    } else {
        assert(z =~= Seq::<u8>::empty());
    }
}

// ---------------------------------------------------------------------------
// Words in code
// ---------------------------------------------------------------------------

/// Whether a word stands in the code of a text.
spec fn names(x: Seq<u8>, w: Seq<u8>) -> bool
    decreases x.len(),
{
    if x.len() == 0 {
        false
    } else {
        proof {
            lemma_chunk_end(x);
        }
        (word_first(x) && first_word(x) == w) || names(x.skip(chunk_end(x)), w)
    }
}

/// A replaced name stands nowhere in the code.
proof fn lemma_replaced_is_gone(x: Seq<u8>, t: Transform)
    requires
        fair(t),
        t is Word,
        text::utf8(t->Word_needle@) != text::utf8(t->Word_replacement@),
    ensures
        !names(swept(x, t), text::utf8(t->Word_needle@)),
    decreases x.len(),
{
    let v = text::utf8(t->Word_needle@);
    let r = text::utf8(t->Word_replacement@);
    if x.len() > 0 {
        lemma_chunk_end(x);
        lemma_piece(x, t);
        let e = chunk_end(x);
        let y = x.skip(e);
        lemma_replaced_is_gone(y, t);
        if word_first(x) && lowered(x.take(e)) == v {
            lemma_behind_word(x, t);
            lemma_new_word(x, t);
            lemma_word_chunk(r, swept(y, t));
            assert(lowered(r) =~= r) by {
                assert forall|k: int| 0 <= k < r.len() implies #[trigger] lowered(r)[k] == r[k] by {
                    assert(0x61 <= r[k] <= 0x7a);
                }
            }
        } else {
            lemma_copied_chunk(x, t);
            let z = swept(x, t);
            if word_first(x) {
                lemma_chunk_end(z);
                assert(first_word(z) == lowered(x.take(e)));
            }
        }
    }
}

proof fn lemma_names_behind_tail(y: Seq<u8>, w: Seq<u8>)
    requires
        call_tail(y) is Some,
        names(y.skip(call_tail(y)->Some_0), w),
    ensures
        names(y, w),
    decreases y.len(),
{
    lemma_call_tail(y);
    if text::is_ascii_space_byte(y[0]) {
        let y1 = y.skip(1);
        lemma_call_tail(y1);
        assert(y1.skip(call_tail(y1)->Some_0) =~= y.skip(call_tail(y)->Some_0));
        lemma_names_behind_tail(y1, w);
        assert(chunk_end(y) == 1);
    } else {
        assert(chunk_end(y) == 1);
        let y1 = y.skip(1);
        assert(y1[0] == y[1]);
        assert(chunk_end(y1) == 1);
        assert(y1.skip(1) =~= y.skip(2));
        assert(names(y1, w));
    }
}

/// Replacing the calls of `now()` brings no word into the code.
proof fn lemma_stamping_names_nothing(x: Seq<u8>, w: Seq<u8>)
    requires
        w.len() < 17,
        !names(x, w),
    ensures
        !names(swept(x, Transform::Now), w),
    decreases x.len(),
{
    let now = Transform::Now;
    let z = swept(x, now);
    if x.len() > 0 {
        lemma_chunk_end(x);
        lemma_piece(x, now);
        let e = chunk_end(x);
        let y = x.skip(e);
        let (new, n) = piece(x, now);
        if new != x.take(e) || n != e {
            assert(x.skip(n) =~= y.skip(n - e));
            if names(x.skip(n), w) {
                lemma_names_behind_tail(y, w);
            }
            lemma_stamping_names_nothing(x.skip(n), w);
            let rest = swept(x.skip(n), now);
            lemma_stamp();
            lemma_joined_chunk(stamp(), rest);
            let m = if word_first(rest) {
                chunk_end(rest)
            } else {
                0
            };
            assert(z == stamp() + rest);
            lemma_chunk_end(z);
            assert(first_word(z) == lowered(stamp() + rest.take(m)));
            assert(first_word(z).len() == 17 + m);
            if rest.len() > 0 {
                lemma_chunk_end(rest);
            }
            assert(rest.skip(0) =~= rest);
            assert(!names(rest.skip(m), w));
        } else {
            lemma_copied_chunk(x, now);
            lemma_stamping_names_nothing(y, w);
            if word_first(x) {
                lemma_chunk_end(z);
                assert(first_word(z) == lowered(x.take(e)));
                assert(first_word(x) == lowered(x.take(e)));
            }
        }
    }
}

/// What is named behind a number is named from the number on.
proof fn lemma_names_behind_number(x: Seq<u8>, n: int, w: Seq<u8>)
    requires
        is_name(w),
        0 <= n <= x.len(),
        forall|k: int| 0 <= k < n ==> text::is_alnum_byte(#[trigger] x[k]) || x[k] == 0x2e,
        n < x.len() ==> !text::is_alnum_byte(x[n]),
        names(x.skip(n), w),
    ensures
        names(x, w),
    decreases n,
{
    if n == 0 {
        assert(x.skip(0) =~= x);
    } else {
        lemma_chunk_end(x);
        let e = chunk_end(x);
        assert(text::is_alnum_byte(x[0]) || x[0] == 0x2e);
        assert(!rewrite::protected_at(x, 0));
        if e <= n {
            let y = x.skip(e);
            assert(y.skip(n - e) =~= x.skip(n));
            assert forall|k: int| 0 <= k < n - e implies text::is_alnum_byte(#[trigger] y[k])
                || y[k] == 0x2e by {
                assert(y[k] == x[e + k]);
            }
            if n < x.len() {
                assert(y[n - e] == x[n]);
            }
            lemma_names_behind_number(y, n - e, w);
        } else {
            let y = x.skip(n);
            assert(text::is_word_byte(x[n]));
            assert(y[0] == x[n]);
            let p = |c: u8| text::is_word_byte(c);
            assert forall|k: int| 0 <= k < e - n implies p(#[trigger] y[k]) by {
                assert(y[k] == x[n + k]);
            }
            if e < x.len() {
                assert(y[e - n] == x[e]);
            }
            laws::lemma_run_is(y, 0, e - n, p);
            assert(chunk_end(y) == e - n);
            assert(first_word(y)[0] == text::lower_byte(y[0]));
            assert(0x61 <= w[0] <= 0x7a);
            assert(y.skip(e - n) =~= x.skip(e));
        }
    }
}

/// A word among the tokens stands in the code.
proof fn lemma_token_is_named(x: Seq<u8>, w: Seq<u8>)
    requires
        is_name(w),
        has_word(x, w),
    ensures
        names(x, w),
    decreases x.len(),
{
    if x.len() == 0 {
        assert(lexer::tokens_from(x, 0) =~= Seq::<TokenView>::empty());
    } else {
        lemma_has_word(x, w);
        lemma_word_token(x, w);
        lemma_chunk_end(x);
        let (n, token) = lexer::lexeme(x, 0);
        if token != Some(TokenView::Word(spelled(w))) {
            lemma_token_is_named(x.skip(n), w);
            if text::is_digit_byte(x[0]) {
                scan::lemma_run_end(x, 0, |c: u8| text::is_alnum_byte(c) || c == 0x2e);
                lemma_names_behind_number(x, n, w);
            } else if n != chunk_end(x) {
                let x1 = x.skip(1);
                assert(x1[0] == x[1]);
                assert(chunk_end(x) == 1);
                assert(chunk_end(x1) == 1);
                assert(x1.skip(1) =~= x.skip(2));
                if n == 3 {
                    let x2 = x.skip(2);
                    assert(x2[0] == x[2]);
                    assert(chunk_end(x2) == 1);
                    assert(x2.skip(1) =~= x.skip(3));
                    assert(names(x2, w));
                }
                assert(names(x1, w));
            }
        }
    }
}

// ---------------------------------------------------------------------------
// A rewritten text is a text
// ---------------------------------------------------------------------------

proof fn lemma_ascii_is_valid(x: Seq<u8>)
    requires
        forall|k: int| 0 <= k < x.len() ==> #[trigger] x[k] < 0x80,
    ensures
        vstd::utf8::valid_utf8(x),
    decreases x.len(),
{
    if x.len() > 0 {
        vstd::utf8::utf8_byte_ranges_bitwise(x[0]);
        let rest = vstd::utf8::pop_first_scalar(x);
        assert forall|k: int| 0 <= k < rest.len() implies #[trigger] rest[k] < 0x80 by {
            assert(rest[k] == x[k + 1]);
        }
        lemma_ascii_is_valid(rest);
    }
}

proof fn lemma_swept_is_valid(p: Seq<u8>, x: Seq<u8>, t: Transform)
    requires
        fair(t),
        vstd::utf8::valid_utf8(p + x),
    ensures
        vstd::utf8::valid_utf8(p + swept(x, t)),
    decreases x.len(),
{
    if x.len() == 0 {
        assert(p + swept(x, t) =~= p + x);
    } else {
        lemma_chunk_end(x);
        lemma_piece(x, t);
        let (new, n) = piece(x, t);
        let e = chunk_end(x);
        let rest = x.skip(n);
        let whole = p + x;
        if word_first(x) {
            let at = p.len() as int;
            assert(whole[at] == x[0]);
            text::lemma_ascii_boundary(whole, at);
            if n > e {
                lemma_call_tail(x.skip(e));
                assert(x.skip(e)[n - e - 1] == x[n - 1]);
            }
            assert(whole[at + n - 1] == x[n - 1]);
            text::lemma_ascii_boundary(whole, at + n - 1);
            vstd::utf8::valid_utf8_split(whole, at);
            vstd::utf8::valid_utf8_split(whole, at + n);
            assert(whole.subrange(0, at) =~= p);
            assert(whole.subrange(at + n, whole.len() as int) =~= rest);
            lemma_new_word(x, t);
            lemma_ascii_is_valid(new);
            assert(Seq::<u8>::empty() + rest =~= rest);
            lemma_swept_is_valid(Seq::empty(), rest, t);
            assert(Seq::<u8>::empty() + swept(rest, t) =~= swept(rest, t));
            vstd::utf8::valid_utf8_concat(p, new);
            vstd::utf8::valid_utf8_concat(p + new, swept(rest, t));
            assert(p + swept(x, t) =~= p + new + swept(rest, t));
        } else {
            let q = p + x.take(e);
            assert(q + rest =~= whole);
            lemma_swept_is_valid(q, rest, t);
            assert(p + swept(x, t) =~= q + swept(rest, t));
        }
    }
}

/// The bytes of a rewritten text.
proof fn lemma_bytes_of_rewritten(sql: Seq<char>, t: Transform)
    requires
        fair(t),
    ensures
        text::utf8(rewrite::rewritten(sql, t)) == swept(text::utf8(sql), t),
{
    let b = text::utf8(sql);
    assert(plain(t)) by {
        if let Transform::Word { needle, .. } = t {
            assert(forall|k: int|
                0 <= k < text::utf8(needle@).len() ==> 0x61 <= #[trigger] text::utf8(needle@)[k]
                    <= 0x7a);
        }
    }
    lemma_rewritten_is_swept(b, 0, t);
    assert(b.skip(0) =~= b);
    vstd::utf8::encode_utf8_valid_utf8(sql);
    assert(Seq::<u8>::empty() + b =~= b);
    lemma_swept_is_valid(Seq::empty(), b, t);
    assert(Seq::<u8>::empty() + swept(b, t) =~= swept(b, t));
    vstd::utf8::decode_utf8_encode_utf8(swept(b, t));
}

// ---------------------------------------------------------------------------
// What a prepared query holds
// ---------------------------------------------------------------------------

/// The two words that a rewrite for SQLite takes out, and what stands in
/// their place.
spec fn ilike() -> Seq<u8> {
    text::utf8("ilike"@)
}

spec fn jsonb() -> Seq<u8> {
    text::utf8("jsonb"@)
}

spec fn taking_out(w: Seq<u8>) -> Transform {
    if w == ilike() {
        Transform::Word { needle: "ilike", replacement: "like" }
    } else {
        Transform::Word { needle: "jsonb", replacement: "text" }
    }
}

proof fn lemma_the_words()
    ensures
        ilike() == seq![0x69u8, 0x6c, 0x69, 0x6b, 0x65],
        jsonb() == seq![0x6au8, 0x73, 0x6f, 0x6e, 0x62],
        text::utf8("like"@) == seq![0x6cu8, 0x69, 0x6b, 0x65],
        text::utf8("text"@) == seq![0x74u8, 0x65, 0x78, 0x74],
        spelled(ilike()) == "ilike"@,
        spelled(jsonb()) == "jsonb"@,
        fair(taking_out(ilike())),
        fair(taking_out(jsonb())),
        ilike() != jsonb(),
{
    reveal_strlit("ilike");
    reveal_strlit("jsonb");
    reveal_strlit("like");
    reveal_strlit("text");
    vstd::utf8::is_ascii_chars_encode_utf8("ilike"@);
    vstd::utf8::is_ascii_chars_encode_utf8("jsonb"@);
    vstd::utf8::is_ascii_chars_encode_utf8("like"@);
    vstd::utf8::is_ascii_chars_encode_utf8("text"@);
    assert(ilike() =~= seq![0x69u8, 0x6c, 0x69, 0x6b, 0x65]);
    assert(jsonb() =~= seq![0x6au8, 0x73, 0x6f, 0x6e, 0x62]);
    assert(text::utf8("like"@) =~= seq![0x6cu8, 0x69, 0x6b, 0x65]);
    assert(text::utf8("text"@) =~= seq![0x74u8, 0x65, 0x78, 0x74]);
    assert(spelled(ilike()) =~= "ilike"@);
    assert(spelled(jsonb()) =~= "jsonb"@);
    lemma_now();
    assert(ilike()[0] != jsonb()[0]);
    assert(text::utf8("like"@).len() == 4);
    assert(text::utf8("text"@).len() == 4);
    assert(ilike().len() == 5);
    assert(jsonb().len() == 5);
}

proof fn lemma_words_apart()
    ensures
        stands_nowhere(ilike(), jsonb()),
        stands_nowhere(ilike(), text::utf8("text"@)),
        stands_nowhere(jsonb(), ilike()),
        stands_nowhere(jsonb(), text::utf8("like"@)),
{
    lemma_the_words();
    let i = ilike();
    let j = jsonb();
    let x = text::utf8("text"@);
    let l = text::utf8("like"@);
    assert forall|k: int| 0 <= k && k + j.len() <= i.len() implies #[trigger] i.skip(k).take(
        j.len() as int,
    ) != j by {
        assert(i.skip(k).take(j.len() as int)[0] == i[k]);
    }
    assert forall|k: int| 0 <= k && k + i.len() <= j.len() implies #[trigger] j.skip(k).take(
        i.len() as int,
    ) != i by {
        assert(j.skip(k).take(i.len() as int)[0] == j[k]);
    }
    assert forall|k: int| 0 <= k && k + x.len() <= i.len() implies #[trigger] i.skip(k).take(
        x.len() as int,
    ) != x by {
        assert(i.skip(k).take(x.len() as int)[0] == i[k]);
    }
    assert forall|k: int| 0 <= k && k + l.len() <= j.len() implies #[trigger] j.skip(k).take(
        l.len() as int,
    ) != l by {
        assert(j.skip(k).take(l.len() as int)[0] == j[k]);
    }
}

/// Whether a word is out of a text for good: no rewrite brings it back.
spec fn is_out(b: Seq<u8>, w: Seq<u8>, stamped: bool) -> bool {
    !has_word(b, w) && (stamped ==> !has_word(swept(b, Transform::Now), w))
}

proof fn lemma_taken_out(b: Seq<u8>, w: Seq<u8>, stamped: bool)
    requires
        w == ilike() || w == jsonb(),
    ensures
        is_out(swept(b, taking_out(w)), w, stamped),
{
    lemma_the_words();
    let t = taking_out(w);
    lemma_replaced_is_gone(b, t);
    let z = swept(b, t);
    lemma_stamping_names_nothing(z, w);
    if has_word(z, w) {
        lemma_token_is_named(z, w);
    }
    if has_word(swept(z, Transform::Now), w) {
        lemma_token_is_named(swept(z, Transform::Now), w);
    }
}

proof fn lemma_stays_out(b: Seq<u8>, w: Seq<u8>, other: Seq<u8>, stamped: bool)
    requires
        w == ilike() && other == jsonb() || w == jsonb() && other == ilike(),
        is_out(b, w, stamped),
    ensures
        is_out(swept(b, taking_out(other)), w, stamped),
        stamped ==> is_out(swept(b, Transform::Now), w, stamped),
{
    lemma_the_words();
    lemma_words_apart();
    let t = taking_out(other);
    let v = text::utf8(t->Word_needle@);
    let r = text::utf8(t->Word_replacement@);
    lemma_replaced_is_alike(b, t);
    lemma_alike_tokens(b, swept(b, t), v, r, w);
    lemma_stamped_is_alike(b, t);
    lemma_alike_tokens(
        swept(b, Transform::Now),
        swept(swept(b, t), Transform::Now),
        v,
        r,
        w,
    );
    lemma_stamped_once(b);
}

/// The construct of one of the two words.
spec fn construct_of(w: Seq<u8>) -> Construct {
    if w == ilike() {
        Construct::Ilike
    } else {
        Construct::Jsonb
    }
}

proof fn lemma_rewrites_take_out(
    sql: Seq<char>,
    constructs: Seq<Construct>,
    w: Seq<u8>,
    other: Seq<u8>,
    stamped: bool,
)
    requires
        w == ilike() && other == jsonb() || w == jsonb() && other == ilike(),
        query::rewritten_for(sql, constructs, Dialect::Sqlite) is Some,
        constructs.contains(Construct::NowFn) ==> stamped,
        is_out(text::utf8(sql), w, stamped) || constructs.contains(construct_of(w)),
    ensures
        !has_word(
            text::utf8(query::rewritten_for(sql, constructs, Dialect::Sqlite)->Some_0),
            w,
        ),
    decreases constructs.len(),
{
    if constructs.len() > 0 {
        lemma_the_words();
        let c = constructs[0];
        let rest = constructs.drop_first();
        let next = query::construct_rewritten(sql, c, Dialect::Sqlite)->Some_0;
        let b = text::utf8(sql);
        lemma_bytes_of_rewritten(sql, taking_out(ilike()));
        lemma_bytes_of_rewritten(sql, taking_out(jsonb()));
        lemma_bytes_of_rewritten(sql, Transform::Now);
        if rest.contains(Construct::NowFn) {
            let k = choose|k: int| 0 <= k < rest.len() && rest[k] == Construct::NowFn;
            assert(constructs[k + 1] == Construct::NowFn);
        }
        if c is NowFn {
            assert(constructs[0] == Construct::NowFn);
        }
        if c == construct_of(w) {
            lemma_taken_out(b, w, stamped);
        } else {
            if constructs.contains(construct_of(w)) {
                let k = choose|k: int| 0 <= k < constructs.len() && constructs[k] == construct_of(w);
                assert(rest[k - 1] == construct_of(w));
            }
            if is_out(b, w, stamped) {
                lemma_stays_out(b, w, other, stamped);
            }
        }
        lemma_rewrites_take_out(next, rest, w, other, stamped);
    }
}

proof fn lemma_word_is_a_construct(tokens: Seq<TokenView>, i: int, w: Seq<char>)
    requires
        0 <= i,
        query::word_construct(w) is Some,
        w != "without"@,
        w != "rowid"@,
        exists|k: int| i <= k < tokens.len() && #[trigger] tokens[k] == TokenView::Word(w),
    ensures
        query::constructs_from(tokens, i).contains(query::word_construct(w)->Some_0),
    decreases tokens.len() - i,
{
    let c = query::word_construct(w)->Some_0;
    let k = choose|k: int| i <= k < tokens.len() && #[trigger] tokens[k] == TokenView::Word(w);
    let (found, taken) = query::construct_at(tokens, i);
    let rest = query::constructs_from(tokens, i + taken);
    let all = query::constructs_from(tokens, i);
    if k == i {
        assert(found == Some(c));
        assert(all[0] == c);
    } else {
        if taken == 2 {
            assert(tokens[i + 1] == TokenView::Word("rowid"@));
        }
        assert(k >= i + taken);
        lemma_word_is_a_construct(tokens, i + taken, w);
        let m = choose|m: int| 0 <= m < rest.len() && rest[m] == c;
        match found {
            Some(_) => {
                assert(all[m + 1] == c);
            },
            None => {
                assert(all[m] == c);
            },
        }
    }
}

proof fn lemma_words_are_constructs(sql: Seq<char>)
    ensures
        has_word(text::utf8(sql), ilike()) ==> query::constructs_of(sql).contains(
            Construct::Ilike,
        ),
        has_word(text::utf8(sql), jsonb()) ==> query::constructs_of(sql).contains(
            Construct::Jsonb,
        ),
{
    lemma_the_words();
    laws::lemma_the_words_differ();
    let tokens = lexer::tokens_of(sql);
    if tokens.contains(TokenView::Word("ilike"@)) {
        lemma_word_is_a_construct(tokens, 0, "ilike"@);
    }
    if tokens.contains(TokenView::Word("jsonb"@)) {
        lemma_word_is_a_construct(tokens, 0, "jsonb"@);
    }
}

/// Whether replacing the calls of `now()` alone brings a word to light that is
/// no token of the query. A call that stands directly before a number, as in
/// `now()5.ilike`, takes the number's first digits into its own name, and the
/// rest of the number becomes words.
pub open spec fn exposed_by_now(sql: Seq<char>, word: Seq<char>) -> bool {
    &&& query::constructs_of(sql).contains(Construct::NowFn)
    &&& lexer::tokens_of(rewrite::rewritten(sql, Transform::Now)).contains(TokenView::Word(word))
    &&& !lexer::tokens_of(sql).contains(TokenView::Word(word))
}

/// A query that was prepared for SQLite with rewrites holds neither `ilike`
/// nor `jsonb` in its code, but for a word that a call of `now()` brings to
/// light.
pub proof fn lemma_rewritten_query_holds_no_postgres_words(query: Seq<char>)
    requires
        query::prepared(query, Dialect::Sqlite, true) is Ok,
        !exposed_by_now(lexer::without_directive(query), "ilike"@),
        !exposed_by_now(lexer::without_directive(query), "jsonb"@),
    ensures
        ({
            let tokens = lexer::tokens_of(query::prepared(query, Dialect::Sqlite, true)->Ok_0);
            &&& !tokens.contains(TokenView::Word("ilike"@))
            &&& !tokens.contains(TokenView::Word("jsonb"@))
        }),
{
    let sql = lexer::without_directive(query);
    let constructs = query::constructs_of(sql);
    let b = text::utf8(sql);
    lemma_the_words();
    lemma_words_are_constructs(sql);
    dialect::lemma_unsupported(constructs, Dialect::Sqlite);
    lemma_bytes_of_rewritten(sql, Transform::Now);
    if dialect::unsupported(constructs, Dialect::Sqlite) is None {
        assert(dialect::all_supported(constructs, Dialect::Sqlite));
        if constructs.contains(Construct::Ilike) {
            let k = choose|k: int| 0 <= k < constructs.len() && constructs[k] == Construct::Ilike;
            assert(constructs[k].spec_supported_by(Dialect::Sqlite));
        }
        if constructs.contains(Construct::Jsonb) {
            let k = choose|k: int| 0 <= k < constructs.len() && constructs[k] == Construct::Jsonb;
            assert(constructs[k].spec_supported_by(Dialect::Sqlite));
        }
    } else {
        let stamped = constructs.contains(Construct::NowFn);
        lemma_rewrites_take_out(sql, constructs, ilike(), jsonb(), stamped);
        lemma_rewrites_take_out(sql, constructs, jsonb(), ilike(), stamped);
    }
}

/// Allowing rewrites never changes a query that passes without them.
pub proof fn lemma_allowing_rewrites_keeps_what_passes(query: Seq<char>, dialect: Dialect)
    requires
        query::prepared(query, dialect, false) is Ok,
    ensures
        query::prepared(query, dialect, true) == query::prepared(query, dialect, false),
{
}

} // verus!
