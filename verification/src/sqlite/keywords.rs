//! The bare words of a `CREATE` statement.
//!
//! The scanner skips comments, string literals and quoted identifiers, so
//! that only words that SQLite itself would read as keywords or plain
//! identifiers remain.

use vstd::prelude::*;

use crate::error::{AdapterErrorKind, DactylError, ErrorView};
use crate::rows;
use crate::sqlite::bytes;
use crate::text;

verus! {

/// A character of a bare word: an ASCII letter or digit, or an underscore.
pub open spec fn is_word_char(c: char) -> bool {
    ('a' <= c <= 'z') || ('A' <= c <= 'Z') || ('0' <= c <= '9') || c == '_'
}

fn word_char(c: char) -> (r: bool)
    ensures
        r == is_word_char(c),
{
    ('a' <= c && c <= 'z') || ('A' <= c && c <= 'Z') || ('0' <= c && c <= '9') || c == '_'
}

/// The position behind the line comment that position `i` lies in.
pub open spec fn line_comment_end(s: Seq<char>, i: int) -> int
    decreases s.len() - i,
{
    if i < 0 || i >= s.len() {
        s.len() as int
    } else if s[i] == '\n' {
        i + 1
    } else {
        line_comment_end(s, i + 1)
    }
}

/// The position behind the block comment that position `i` lies in.
pub open spec fn block_comment_end(s: Seq<char>, i: int) -> int
    decreases s.len() - i,
{
    if i < 0 || i >= s.len() {
        s.len() as int
    } else if s[i] == '*' && i + 1 < s.len() && s[i + 1] == '/' {
        i + 2
    } else {
        block_comment_end(s, i + 1)
    }
}

/// The position behind the quoted text that position `i` lies in. A doubled
/// closing character stays inside, except for a bracket.
pub open spec fn quoted_text_end(s: Seq<char>, i: int, closing: char) -> int
    decreases s.len() - i,
{
    if i < 0 || i >= s.len() {
        s.len() as int
    } else if s[i] == closing {
        if closing != ']' && i + 1 < s.len() && s[i + 1] == closing {
            quoted_text_end(s, i + 2, closing)
        } else {
            i + 1
        }
    } else {
        quoted_text_end(s, i + 1, closing)
    }
}

/// The end of the bare word that position `i` lies in.
pub open spec fn bare_word_end(s: Seq<char>, i: int) -> int
    decreases s.len() - i,
{
    if 0 <= i < s.len() && is_word_char(s[i]) {
        bare_word_end(s, i + 1)
    } else {
        i
    }
}

/// The closing character of the quote that `c` opens, if it opens one.
pub open spec fn closing_of(c: char) -> Option<char> {
    if c == '\'' || c == '"' || c == '`' {
        Some(c)
    } else if c == '[' {
        Some(']')
    } else {
        None
    }
}

/// The position behind what starts at `i`, and whether it is a bare word.
pub open spec fn part_end(s: Seq<char>, i: int) -> (int, bool)
    recommends
        0 <= i < s.len(),
{
    let c = s[i];
    if c == '-' && i + 1 < s.len() && s[i + 1] == '-' {
        (line_comment_end(s, i + 2), false)
    } else if c == '/' && i + 1 < s.len() && s[i + 1] == '*' {
        (block_comment_end(s, i + 2), false)
    } else if closing_of(c) is Some {
        (quoted_text_end(s, i + 1, closing_of(c)->Some_0), false)
    } else if is_word_char(c) {
        (bare_word_end(s, i), true)
    } else {
        (i + 1, false)
    }
}

proof fn lemma_line_comment_end(s: Seq<char>, i: int)
    requires
        0 <= i <= s.len(),
    ensures
        i <= line_comment_end(s, i) <= s.len(),
    decreases s.len() - i,
{
    if i < s.len() {
        lemma_line_comment_end(s, i + 1);
    }
}

proof fn lemma_block_comment_end(s: Seq<char>, i: int)
    requires
        0 <= i <= s.len(),
    ensures
        i <= block_comment_end(s, i) <= s.len(),
    decreases s.len() - i,
{
    if i < s.len() {
        lemma_block_comment_end(s, i + 1);
    }
}

proof fn lemma_quoted_text_end(s: Seq<char>, i: int, closing: char)
    requires
        0 <= i <= s.len(),
    ensures
        i <= quoted_text_end(s, i, closing) <= s.len(),
    decreases s.len() - i,
{
    if i < s.len() {
        if s[i] == closing && i + 1 < s.len() {
            lemma_quoted_text_end(s, i + 2, closing);
        }
        lemma_quoted_text_end(s, i + 1, closing);
    }
}

proof fn lemma_bare_word_end(s: Seq<char>, i: int)
    requires
        0 <= i <= s.len(),
    ensures
        i <= bare_word_end(s, i) <= s.len(),
        i < s.len() && is_word_char(s[i]) ==> i < bare_word_end(s, i),
    decreases s.len() - i,
{
    if i < s.len() {
        lemma_bare_word_end(s, i + 1);
    }
}

/// Every part takes at least one character.
pub proof fn lemma_part_end(s: Seq<char>, i: int)
    requires
        0 <= i < s.len(),
    ensures
        i < part_end(s, i).0 <= s.len(),
{
    if i + 1 < s.len() {
        lemma_line_comment_end(s, i + 2);
        lemma_block_comment_end(s, i + 2);
    }
    if closing_of(s[i]) is Some {
        lemma_quoted_text_end(s, i + 1, closing_of(s[i])->Some_0);
    }
    lemma_bare_word_end(s, i);
}

/// The bare words from position `i` on, in lower case.
pub open spec fn words_from(s: Seq<char>, i: int) -> Seq<Seq<char>>
    decreases s.len() - i,
{
    if 0 <= i < s.len() {
        proof {
            lemma_part_end(s, i);
        }
        let (end, word) = part_end(s, i);
        let rest = words_from(s, end);
        if word {
            seq![text::lower(s.subrange(i, end))] + rest
        } else {
            rest
        }
    } else {
        Seq::empty()
    }
}

/// The bare words of a statement, in lower case.
pub open spec fn words(sql: Seq<char>) -> Seq<Seq<char>> {
    words_from(sql, 0)
}

fn find_part_end(s: &Vec<char>, i: usize) -> (r: (usize, bool))
    requires
        i < s@.len(),
    ensures
        r.0 == part_end(s@, i as int).0,
        r.1 == part_end(s@, i as int).1,
        i < r.0 <= s@.len(),
{
    proof {
        lemma_part_end(s@, i as int);
    }
    let c: char = s[i];
    let more: bool = s.len() - i > 1;
    if c == '-' && more && s[i + 1] == '-' {
        let mut k: usize = i + 2;
        while k < s.len() && s[k] != '\n'
            invariant
                i + 2 <= k <= s@.len(),
                line_comment_end(s@, i + 2) == line_comment_end(s@, k as int),
            decreases s@.len() - k,
        {
            k = k + 1;
        }
        return if k < s.len() {
            (k + 1, false)
        } else {
            (k, false)
        };
    }
    if c == '/' && more && s[i + 1] == '*' {
        let mut k: usize = i + 2;
        while k < s.len()
            invariant
                i + 2 <= k <= s@.len(),
                part_end(s@, i as int) == (block_comment_end(s@, i + 2), false),
                i < part_end(s@, i as int).0 <= s@.len(),
                block_comment_end(s@, i + 2) == block_comment_end(s@, k as int),
            decreases s@.len() - k,
        {
            if s[k] == '*' && s.len() - k > 1 && s[k + 1] == '/' {
                return (k + 2, false);
            }
            k = k + 1;
        }
        return (k, false);
    }
    let closing: char = if c == '[' {
        ']'
    } else {
        c
    };
    if c == '\'' || c == '"' || c == '`' || c == '[' {
        let mut k: usize = i + 1;
        while k < s.len()
            invariant
                i + 1 <= k <= s@.len(),
                part_end(s@, i as int) == (quoted_text_end(s@, i + 1, closing), false),
                i < part_end(s@, i as int).0 <= s@.len(),
                quoted_text_end(s@, i + 1, closing) == quoted_text_end(s@, k as int, closing),
            decreases s@.len() - k,
        {
            if s[k] == closing {
                if closing != ']' && s.len() - k > 1 && s[k + 1] == closing {
                    k = k + 2;
                } else {
                    return (k + 1, false);
                }
            } else {
                k = k + 1;
            }
        }
        return (k, false);
    }
    if word_char(c) {
        let mut k: usize = i;
        while k < s.len() && word_char(s[k])
            invariant
                i <= k <= s@.len(),
                bare_word_end(s@, i as int) == bare_word_end(s@, k as int),
            decreases s@.len() - k,
        {
            k = k + 1;
        }
        return (k, true);
    }
    (i + 1, false)
}

fn lower_part(s: &Vec<char>, from: usize, to: usize) -> (r: String)
    requires
        from <= to <= s@.len(),
    ensures
        r@ == text::lower(s@.subrange(from as int, to as int)),
{
    let mut out: String = String::new();
    let mut i: usize = from;
    while i < to
        invariant
            from <= i <= to <= s@.len(),
            out@ == text::lower(s@.subrange(from as int, i as int)),
        decreases to - i,
    {
        out.push(text::to_lower_char(s[i]));
        i = i + 1;
        assert(out@ =~= text::lower(s@.subrange(from as int, i as int)));
    }
    out
}

/// The bare words of a statement, in lower case.
pub fn sql_keywords(sql: &str) -> (r: Vec<String>)
    ensures
        rows::texts(r@) == words(sql@),
{
    let s: Vec<char> = text::chars_of(sql);
    let mut out: Vec<String> = Vec::new();
    let mut i: usize = 0;
    assert(rows::texts(out@) + words_from(s@, 0) =~= words_from(s@, 0));
    while i < s.len()
        invariant
            i <= s@.len(),
            s@ == sql@,
            rows::texts(out@) + words_from(s@, i as int) == words(sql@),
        decreases s@.len() - i,
    {
        let (end, word) = find_part_end(&s, i);
        if word {
            let ghost before = rows::texts(out@);
            let found: String = lower_part(&s, i, end);
            out.push(found);
            assert(rows::texts(out@) + words_from(s@, end as int) =~= before + (seq![found@]
                + words_from(s@, end as int)));
        }
        i = end;
    }
    assert(rows::texts(out@) + words_from(s@, i as int) =~= rows::texts(out@));
    out
}

// ---------------------------------------------------------------------------
// What a table definition may not hold
// ---------------------------------------------------------------------------

/// The words that mark a construct which a snapshot cannot represent, in the
/// order in which they are looked for.
pub open spec fn refused_words() -> Seq<Seq<char>> {
    seq![
        "autoincrement"@,
        "check"@,
        "collate"@,
        "conflict"@,
        "deferrable"@,
        "generated"@,
        "initially"@,
        "match"@,
        "strict"@,
    ]
}

/// The error for a schema that cannot be imported.
pub open spec fn unsupported_schema(message: Seq<char>) -> ErrorView {
    crate::error::coded(AdapterErrorKind::Capability, "unsupported_schema"@, message)
}

/// The first of the refused words from `k` on that the list holds.
pub open spec fn first_refused(list: Seq<Seq<char>>, k: int) -> Option<Seq<char>>
    decreases refused_words().len() - k,
{
    if k < 0 || k >= refused_words().len() {
        None
    } else if list.contains(refused_words()[k]) {
        Some(refused_words()[k])
    } else {
        first_refused(list, k + 1)
    }
}

/// Whether `first` is followed by `second` somewhere in the list.
pub open spec fn has_pair(list: Seq<Seq<char>>, first: Seq<char>, second: Seq<char>) -> bool {
    exists|i: int|
        #![trigger list[i]]
        0 <= i && i + 1 < list.len() && list[i] == first && list[i + 1] == second
}

/// Why a table definition cannot be imported, if it cannot.
pub open spec fn table_fault(name: Seq<char>, sql: Seq<char>) -> Option<ErrorView> {
    let list = words(sql);
    match first_refused(list, 0) {
        Some(word) => Some(
            unsupported_schema(
                "unsupported SQLite schema construct "@ + word + " in table "@ + name,
            ),
        ),
        None => if has_pair(list, "on"@, "update"@) {
            Some(
                unsupported_schema(
                    "ON UPDATE foreign keys are not supported in table "@ + name,
                ),
            )
        } else {
            None
        },
    }
}

fn holds(list: &Vec<String>, word: &str) -> (r: bool)
    ensures
        r == rows::texts(list@).contains(word@),
{
    let r = rows::position_of(list, word);
    proof {
        rows::lemma_first_position(rows::texts(list@), word@);
    }
    r.is_some()
}

/// The error for a schema that cannot be imported.
pub fn unsupported(message: &str) -> (r: DactylError)
    ensures
        r@ == unsupported_schema(message@),
{
    bytes::coded(AdapterErrorKind::Capability, "unsupported_schema", message)
}

fn refused_error(word: &str, name: &str) -> (r: DactylError)
    ensures
        r@ == unsupported_schema(
            "unsupported SQLite schema construct "@ + word@ + " in table "@ + name@,
        ),
{
    unsupported(
        "unsupported SQLite schema construct ".to_string().concat(word).concat(
            " in table ",
        ).concat(name).as_str(),
    )
}

fn find_pair(list: &Vec<String>, first: &str, second: &str) -> (r: bool)
    ensures
        r == has_pair(rows::texts(list@), first@, second@),
{
    let ghost all = rows::texts(list@);
    let mut i: usize = 0;
    while i < list.len() && list.len() - i > 1
        invariant
            i <= list@.len(),
            all == rows::texts(list@),
            forall|k: int|
                0 <= k < i && k + 1 < all.len() ==> !(#[trigger] all[k] == first@ && all[k + 1]
                    == second@),
        decreases list@.len() - i,
    {
        assert(all[i as int] == list@[i as int]@);
        assert(all[i + 1] == list@[i + 1]@);
        if text::str_eq(list[i].as_str(), first) && text::str_eq(list[i + 1].as_str(), second) {
            return true;
        }
        i = i + 1;
    }
    false
}

/// Refuse a table definition that a snapshot cannot represent.
pub fn reject_unsupported_table_sql(name: &str, sql: &str) -> (r: Result<(), DactylError>)
    ensures
        match table_fault(name@, sql@) {
            Some(e) => r is Err && r->Err_0@ == e,
            None => r is Ok,
        },
{
    let list: Vec<String> = sql_keywords(sql);
    proof {
        reveal_with_fuel(first_refused, 10);
    }
    if holds(&list, "autoincrement") {
        return Err(refused_error("autoincrement", name));
    }
    if holds(&list, "check") {
        return Err(refused_error("check", name));
    }
    if holds(&list, "collate") {
        return Err(refused_error("collate", name));
    }
    if holds(&list, "conflict") {
        return Err(refused_error("conflict", name));
    }
    if holds(&list, "deferrable") {
        return Err(refused_error("deferrable", name));
    }
    if holds(&list, "generated") {
        return Err(refused_error("generated", name));
    }
    if holds(&list, "initially") {
        return Err(refused_error("initially", name));
    }
    if holds(&list, "match") {
        return Err(refused_error("match", name));
    }
    if holds(&list, "strict") {
        return Err(refused_error("strict", name));
    }
    if find_pair(&list, "on", "update") {
        return Err(
            unsupported(
                "ON UPDATE foreign keys are not supported in table ".to_string().concat(
                    name,
                ).as_str(),
            ),
        );
    }
    Ok(())
}

// ---------------------------------------------------------------------------
// The row id column
// ---------------------------------------------------------------------------

/// Whether `<word> integer primary key`, not followed by `desc`, stands at
/// `i`.
pub open spec fn declares_rowid(list: Seq<Seq<char>>, i: int) -> bool {
    &&& 0 <= i
    &&& i + 3 < list.len()
    &&& list[i + 1] == "integer"@
    &&& list[i + 2] == "primary"@
    &&& list[i + 3] == "key"@
    &&& !(i + 4 < list.len() && list[i + 4] == "desc"@)
}

/// The first word from `i` on that names a row id column.
pub open spec fn rowid_column_from(list: Seq<Seq<char>>, i: int) -> Option<Seq<char>>
    decreases list.len() - i,
{
    if i < 0 || i >= list.len() {
        None
    } else if declares_rowid(list, i) {
        Some(list[i])
    } else {
        rowid_column_from(list, i + 1)
    }
}

/// The column that a table definition declares `integer primary key`, which
/// SQLite keeps in the row id.
pub open spec fn rowid_column(sql: Seq<char>) -> Option<Seq<char>> {
    rowid_column_from(words(sql), 0)
}

/// The column that a table definition declares `integer primary key`.
pub fn integer_primary_key_column(sql: &str) -> (r: Option<String>)
    ensures
        match rowid_column(sql@) {
            Some(name) => r is Some && r->Some_0@ == name,
            None => r is None,
        },
{
    let list: Vec<String> = sql_keywords(sql);
    let ghost all = words(sql@);
    let mut i: usize = 0;
    while i < list.len()
        invariant
            i <= list@.len(),
            all == words(sql@),
            all == rows::texts(list@),
            rowid_column_from(all, i as int) == rowid_column(sql@),
        decreases list@.len() - i,
    {
        proof {
            assert(all[i as int] == list@[i as int]@);
            if i + 3 < list@.len() {
                assert(all[i + 1] == list@[i + 1]@);
                assert(all[i + 2] == list@[i + 2]@);
                assert(all[i + 3] == list@[i + 3]@);
            }
            if i + 4 < list@.len() {
                assert(all[i + 4] == list@[i + 4]@);
            }
        }
        if list.len() - i > 3 && text::str_eq(list[i + 1].as_str(), "integer") && text::str_eq(
            list[i + 2].as_str(),
            "primary",
        ) && text::str_eq(list[i + 3].as_str(), "key") && !(list.len() - i > 4 && text::str_eq(
            list[i + 4].as_str(),
            "desc",
        )) {
            return Some(list[i].clone());
        }
        i = i + 1;
    }
    None
}

// ---------------------------------------------------------------------------
// What the words are for
// ---------------------------------------------------------------------------

/// A line comment holds no words: they go on behind its line.
pub proof fn lemma_line_comment_is_skipped(s: Seq<char>, i: int, e: int)
    requires
        0 <= i && i + 2 <= e <= s.len(),
        s[i] == '-' && s[i + 1] == '-',
        forall|k: int| i + 2 <= k < e ==> #[trigger] s[k] != '\n',
        e < s.len() ==> s[e] == '\n',
    ensures
        words_from(s, i) == words_from(s, if e < s.len() {
            e + 1
        } else {
            e
        }),
{
    lemma_line_comment_is(s, i + 2, e);
}

proof fn lemma_line_comment_is(s: Seq<char>, i: int, e: int)
    requires
        0 <= i <= e <= s.len(),
        forall|k: int| i <= k < e ==> #[trigger] s[k] != '\n',
        e < s.len() ==> s[e] == '\n',
    ensures
        line_comment_end(s, i) == if e < s.len() {
            e + 1
        } else {
            e
        },
    decreases e - i,
{
    if i < e {
        lemma_line_comment_is(s, i + 1, e);
    }
}

/// A block comment holds no words: they go on behind the first `*/`.
pub proof fn lemma_block_comment_is_skipped(s: Seq<char>, i: int, e: int)
    requires
        0 <= i && i + 4 <= e <= s.len(),
        s[i] == '/' && s[i + 1] == '*',
        s[e - 2] == '*' && s[e - 1] == '/',
        forall|k: int| i + 2 <= k < e - 2 ==> !(#[trigger] s[k] == '*' && s[k + 1] == '/'),
    ensures
        words_from(s, i) == words_from(s, e),
{
    lemma_block_comment_is(s, i + 2, e);
}

proof fn lemma_block_comment_is(s: Seq<char>, i: int, e: int)
    requires
        0 <= i && i + 2 <= e <= s.len(),
        s[e - 2] == '*' && s[e - 1] == '/',
        forall|k: int| i <= k < e - 2 ==> !(#[trigger] s[k] == '*' && s[k + 1] == '/'),
    ensures
        block_comment_end(s, i) == e,
    decreases e - i,
{
    if i < e - 2 {
        assert(!(s[i] == '*' && s[i + 1] == '/'));
        lemma_block_comment_is(s, i + 1, e);
    }
}

/// A text as it stands between quotes: every quote twice.
pub open spec fn in_quotes(s: Seq<char>, q: char) -> Seq<char>
    decreases s.len(),
{
    if s.len() == 0 {
        Seq::empty()
    } else if s[0] == q {
        seq![q, q] + in_quotes(s.drop_first(), q)
    } else {
        seq![s[0]] + in_quotes(s.drop_first(), q)
    }
}

proof fn lemma_quoted_text_is(s: Seq<char>, i: int, held: Seq<char>, q: char)
    requires
        0 <= i,
        q != ']',
        i + in_quotes(held, q).len() < s.len(),
        s.subrange(i, i + in_quotes(held, q).len()) == in_quotes(held, q),
        s[i + in_quotes(held, q).len()] == q,
        i + in_quotes(held, q).len() + 1 < s.len() ==> s[i + in_quotes(held, q).len() + 1] != q,
    ensures
        quoted_text_end(s, i, q) == i + in_quotes(held, q).len() + 1,
    decreases held.len(),
{
    let all = in_quotes(held, q);
    if held.len() > 0 {
        let rest = in_quotes(held.drop_first(), q);
        assert(s.subrange(i, i + all.len())[0] == s[i]);
        if held[0] == q {
            assert(s.subrange(i, i + all.len())[1] == s[i + 1]);
            assert(s.subrange(i + 2, i + 2 + rest.len()) =~= all.skip(2));
            assert(all.skip(2) =~= rest);
            lemma_quoted_text_is(s, i + 2, held.drop_first(), q);
        } else {
            assert(s.subrange(i + 1, i + 1 + rest.len()) =~= all.skip(1));
            assert(all.skip(1) =~= rest);
            lemma_quoted_text_is(s, i + 1, held.drop_first(), q);
        }
    }
}

/// Text in single quotes, double quotes or backticks holds no words, whatever
/// it is; a doubled quote stays inside.
pub proof fn lemma_quoted_text_is_skipped(s: Seq<char>, i: int, held: Seq<char>, q: char)
    requires
        q == '\'' || q == '"' || q == '`',
        0 <= i,
        i + in_quotes(held, q).len() + 2 <= s.len(),
        s[i] == q,
        s.subrange(i + 1, i + 1 + in_quotes(held, q).len()) == in_quotes(held, q),
        s[i + 1 + in_quotes(held, q).len()] == q,
        i + in_quotes(held, q).len() + 2 < s.len() ==> s[i + 2 + in_quotes(held, q).len()] != q,
    ensures
        words_from(s, i) == words_from(s, i + 2 + in_quotes(held, q).len()),
{
    lemma_quoted_text_is(s, i + 1, held, q);
}

/// Text in brackets holds no words, up to the first closing bracket.
pub proof fn lemma_bracketed_text_is_skipped(s: Seq<char>, i: int, e: int)
    requires
        0 <= i && i + 2 <= e <= s.len(),
        s[i] == '[' && s[e - 1] == ']',
        forall|k: int| i < k < e - 1 ==> #[trigger] s[k] != ']',
    ensures
        words_from(s, i) == words_from(s, e),
{
    lemma_bracketed_is(s, i + 1, e);
}

proof fn lemma_bracketed_is(s: Seq<char>, i: int, e: int)
    requires
        0 <= i < e <= s.len(),
        s[e - 1] == ']',
        forall|k: int| i <= k < e - 1 ==> #[trigger] s[k] != ']',
    ensures
        quoted_text_end(s, i, ']') == e,
    decreases e - i,
{
    if i < e - 1 {
        lemma_bracketed_is(s, i + 1, e);
    }
}

proof fn lemma_bare_word_is(s: Seq<char>, i: int, e: int)
    requires
        0 <= i <= e <= s.len(),
        forall|k: int| i <= k < e ==> is_word_char(#[trigger] s[k]),
        e < s.len() ==> !is_word_char(s[e]),
    ensures
        bare_word_end(s, i) == e,
    decreases e - i,
{
    if i < e {
        lemma_bare_word_is(s, i + 1, e);
    }
}

/// A bare word is one word, in lower case: all the letters, digits and
/// underscores that stand together.
pub proof fn lemma_bare_word_is_read(s: Seq<char>, i: int, e: int, word: Seq<char>)
    requires
        0 <= i < e <= s.len(),
        forall|k: int|
            i <= k < e ==> ('a' <= #[trigger] s[k] <= 'z' || 'A' <= s[k] <= 'Z' || '0' <= s[k]
                <= '9' || s[k] == '_'),
        e < s.len() ==> !('a' <= s[e] <= 'z' || 'A' <= s[e] <= 'Z' || '0' <= s[e] <= '9' || s[e]
            == '_'),
        text::spells(s.subrange(i, e), word),
    ensures
        words_from(s, i) == seq![word] + words_from(s, e),
{
    lemma_bare_word_is(s, i, e);
    assert forall|k: int| 0 <= k < word.len() implies !('A' <= #[trigger] word[k] <= 'Z') by {
        assert(s.subrange(i, e)[k] == word[k] || 'a' <= word[k] <= 'z');
    }
    text::lemma_lower_spells(s.subrange(i, e), word);
}

/// Whitespace and punctuation hold no words.
pub proof fn lemma_punctuation_is_skipped(s: Seq<char>, i: int)
    requires
        0 <= i < s.len(),
        text::is_space(s[i]) || s[i] == '(' || s[i] == ')' || s[i] == ',' || s[i] == ';' || s[i]
            == '.' || s[i] == '=' || s[i] == '*' || s[i] == '+',
    ensures
        words_from(s, i) == words_from(s, i + 1),
{
    text::lemma_whitespace(s[i]);
}

/// The definitions that cannot be imported: those with one of nine words in
/// them, or with `on update`. All others can.
pub proof fn lemma_refused_definitions(name: Seq<char>, sql: Seq<char>)
    ensures
        ({
            let list = words(sql);
            table_fault(name, sql) is Some <==> (list.contains("autoincrement"@) || list.contains(
                "check"@,
            ) || list.contains("collate"@) || list.contains("conflict"@) || list.contains(
                "deferrable"@,
            ) || list.contains("generated"@) || list.contains("initially"@) || list.contains(
                "match"@,
            ) || list.contains("strict"@) || exists|i: int|
                #![trigger list[i]]
                0 <= i && i + 1 < list.len() && list[i] == "on"@ && list[i + 1] == "update"@)
        }),
        table_fault(name, sql) is Some ==> table_fault(name, sql)->Some_0.code() == Some(
            "unsupported_schema"@,
        ) && table_fault(name, sql)->Some_0.kind() == Some(AdapterErrorKind::Capability),
{
    reveal_with_fuel(first_refused, 10);
}

/// Whether the words behind a position are `integer primary key`, and `desc`
/// does not follow.
pub open spec fn keyed_at(list: Seq<Seq<char>>, k: int) -> bool {
    &&& k + 3 < list.len()
    &&& list[k + 1] == "integer"@ && list[k + 2] == "primary"@ && list[k + 3] == "key"@
    &&& k + 4 == list.len() || list[k + 4] != "desc"@
}

/// The column that the row id stands for is the word before the first
/// `integer primary key` that `desc` does not follow.
pub proof fn lemma_rowid_columns(sql: Seq<char>, i: int)
    requires
        0 <= i && keyed_at(words(sql), i),
        forall|k: int| 0 <= k < i ==> !#[trigger] keyed_at(words(sql), k),
    ensures
        rowid_column(sql) == Some(words(sql)[i]),
{
    lemma_rowid_column_is(words(sql), 0, i);
}

proof fn lemma_rowid_column_is(list: Seq<Seq<char>>, j: int, i: int)
    requires
        0 <= j <= i && keyed_at(list, i),
        forall|k: int| 0 <= k < i ==> !#[trigger] keyed_at(list, k),
    ensures
        rowid_column_from(list, j) == Some(list[i]),
    decreases i - j,
{
    if j < i {
        assert(!keyed_at(list, j));
        lemma_rowid_column_is(list, j + 1, i);
    }
}

/// Where no `integer primary key` stands, or `desc` follows each, the row id
/// stands for no column.
pub proof fn lemma_no_rowid_column(sql: Seq<char>)
    requires
        forall|k: int| 0 <= k ==> !#[trigger] keyed_at(words(sql), k),
    ensures
        rowid_column(sql) is None,
{
    lemma_no_rowid_column_from(words(sql), 0);
}

proof fn lemma_no_rowid_column_from(list: Seq<Seq<char>>, j: int)
    requires
        0 <= j,
        forall|k: int| 0 <= k ==> !#[trigger] keyed_at(list, k),
    ensures
        rowid_column_from(list, j) is None,
    decreases list.len() - j,
{
    if j < list.len() {
        assert(!keyed_at(list, j));
        lemma_no_rowid_column_from(list, j + 1);
    }
}

} // verus!
