//! The arguments of the `query!` macro: `datastore = ".."`,
//! `optimize = true` or `false`, and the SQL literal, in any order.

use vstd::prelude::*;

use crate::text;

verus! {

/// A token of the arguments.
#[derive(Debug, Clone, PartialEq, Eq)]
pub enum ArgToken {
    /// An identifier that is no keyword.
    Name(String),
    /// `=`
    Equals,
    /// `,`
    Comma,
    /// A string literal, by its value.
    Text(String),
    /// `true` or `false`
    Bool(bool),
    /// Any other literal.
    Literal,
    /// Anything else.
    Other,
}

/// What an [`ArgToken`] says.
pub ghost enum ArgTokenView {
    Name(Seq<char>),
    Equals,
    Comma,
    Text(Seq<char>),
    Bool(bool),
    Literal,
    Other,
}

impl ArgToken {
    pub open spec fn view(self) -> ArgTokenView {
        match self {
            ArgToken::Name(s) => ArgTokenView::Name(s@),
            ArgToken::Equals => ArgTokenView::Equals,
            ArgToken::Comma => ArgTokenView::Comma,
            ArgToken::Text(s) => ArgTokenView::Text(s@),
            ArgToken::Bool(b) => ArgTokenView::Bool(b),
            ArgToken::Literal => ArgTokenView::Literal,
            ArgToken::Other => ArgTokenView::Other,
        }
    }
}

/// What tokens say.
pub open spec fn token_views(tokens: Seq<ArgToken>) -> Seq<ArgTokenView> {
    tokens.map_values(|t: ArgToken| t@)
}

/// What is wrong with arguments.
#[derive(Debug, Clone, Copy, PartialEq, Eq, Structural)]
pub enum ArgFault {
    /// A key is not followed by `=`.
    ExpectedEquals,
    /// `datastore` is not given a string literal.
    ExpectedText,
    /// `optimize` is not given a literal.
    ExpectedLiteral,
    /// `optimize` is given a literal that is no boolean.
    ExpectedBool,
    /// The key is neither `datastore` nor `optimize`.
    UnknownKey,
    /// There is neither a key nor a string literal.
    ExpectedArgument,
    /// There is no SQL literal.
    MissingLiteral,
}

/// The arguments of a call.
#[derive(Debug, Clone, PartialEq, Eq)]
pub struct QueryArgs {
    pub datastore: Option<String>,
    pub optimize: bool,
    /// The position of the SQL literal among the tokens.
    pub literal_at: usize,
    /// The number of tokens that the arguments take.
    pub taken: usize,
}

/// What has been read of the arguments.
#[verifier::ext_equal]
pub ghost struct ArgsView {
    pub datastore: Option<Seq<char>>,
    pub optimize: Option<bool>,
    pub literal_at: Option<int>,
}

/// What the end of the arguments, at `i`, makes of what has been read.
pub open spec fn args_end(read: ArgsView, i: int) -> Result<(ArgsView, int), (ArgFault, int)> {
    if read.literal_at is None {
        Err((ArgFault::MissingLiteral, i))
    } else {
        Ok((read, i))
    }
}

/// One argument from `i` on: what has been read then, and where it ends.
pub open spec fn argument(tokens: Seq<ArgTokenView>, i: int, read: ArgsView) -> Result<
    (ArgsView, int),
    (ArgFault, int),
> {
    match tokens[i] {
        ArgTokenView::Name(key) => if i + 1 >= tokens.len() || !(tokens[i + 1] is Equals) {
            Err((ArgFault::ExpectedEquals, i + 1))
        } else if key == "datastore"@ {
            if i + 2 < tokens.len() && tokens[i + 2] is Text {
                Ok((ArgsView { datastore: Some(tokens[i + 2]->Text_0), ..read }, i + 3))
            } else {
                Err((ArgFault::ExpectedText, i + 2))
            }
        } else if key == "optimize"@ {
            if i + 2 < tokens.len() && tokens[i + 2] is Bool {
                Ok((ArgsView { optimize: Some(tokens[i + 2]->Bool_0), ..read }, i + 3))
            } else if i + 2 < tokens.len() && (tokens[i + 2] is Text || tokens[i + 2] is Literal) {
                Err((ArgFault::ExpectedBool, i + 2))
            } else {
                Err((ArgFault::ExpectedLiteral, i + 2))
            }
        } else {
            Err((ArgFault::UnknownKey, i))
        },
        ArgTokenView::Text(_) => Ok((ArgsView { literal_at: Some(i), ..read }, i + 1)),
        _ => Err((ArgFault::ExpectedArgument, i)),
    }
}

/// The arguments from `i` on, and where they end. A later argument takes the
/// place of an earlier one; arguments go on behind a comma.
pub open spec fn arguments(tokens: Seq<ArgTokenView>, i: int, read: ArgsView) -> Result<
    (ArgsView, int),
    (ArgFault, int),
>
    decreases tokens.len() - i,
{
    if i < 0 || i >= tokens.len() {
        args_end(read, i)
    } else {
        match argument(tokens, i, read) {
            Err(fault) => Err(fault),
            Ok((then_read, j)) => if i < j < tokens.len() && tokens[j] is Comma {
                arguments(tokens, j + 1, then_read)
            } else {
                args_end(then_read, j)
            },
        }
    }
}

/// Whether a call is optimized: it is unless it says otherwise.
pub open spec fn optimizes(read: ArgsView) -> bool {
    match read.optimize {
        Some(b) => b,
        None => true,
    }
}

/// Nothing read yet.
pub open spec fn nothing_read() -> ArgsView {
    ArgsView { datastore: None, optimize: None, literal_at: None }
}

fn is_comma(token: &ArgToken) -> (r: bool)
    ensures
        r == (token@ is Comma),
{
    match token {
        ArgToken::Comma => true,
        _ => false,
    }
}

fn is_equals(token: &ArgToken) -> (r: bool)
    ensures
        r == (token@ is Equals),
{
    match token {
        ArgToken::Equals => true,
        _ => false,
    }
}

/// Read the arguments of a call. A fault comes with the position of the token
/// that it is about.
pub fn parse_arguments(tokens: &[ArgToken]) -> (r: Result<QueryArgs, (ArgFault, usize)>)
    requires
        tokens@.len() + 3 <= usize::MAX,
    ensures
        match arguments(token_views(tokens@), 0, nothing_read()) {
            Err((fault, at)) => r is Err && r->Err_0.0 == fault && r->Err_0.1 == at,
            Ok((read, taken)) => {
                &&& r is Ok
                &&& crate::error::text_option(r->Ok_0.datastore) == read.datastore
                &&& r->Ok_0.optimize == optimizes(read)
                &&& Some(r->Ok_0.literal_at as int) == read.literal_at
                &&& r->Ok_0.taken == taken
            },
        },
{
    let ghost all = token_views(tokens@);
    let ghost whole = arguments(all, 0, nothing_read());
    let len: usize = tokens.len();
    let mut datastore: Option<String> = None;
    let mut optimize: Option<bool> = None;
    let mut literal_at: Option<usize> = None;
    let mut i: usize = 0;
    let mut open: bool = true;
    let ghost mut read = nothing_read();
    while open && i < len
        invariant
            len == tokens@.len(),
            len + 3 <= usize::MAX,
            i <= len,
            all == token_views(tokens@),
            whole == arguments(all, 0, nothing_read()),
            open ==> whole == arguments(all, i as int, read),
            !open ==> whole == args_end(read, i as int),
            crate::error::text_option(datastore) == read.datastore,
            optimize == read.optimize,
            read.literal_at == match literal_at {
                Some(k) => Some(k as int),
                None => None,
            },
        decreases
            len - i + if open {
                1int
            } else {
                0
            },
    {
        assert(all[i as int] == tokens@[i as int]@);
        let next: usize;
        match &tokens[i] {
            ArgToken::Name(key) => {
                if i + 1 >= len || !is_equals(&tokens[i + 1]) {
                    assert(i + 1 < len ==> all[i + 1] == tokens@[i + 1]@);
                    return Err((ArgFault::ExpectedEquals, i + 1));
                }
                assert(all[i + 1] == tokens@[i + 1]@);
                assert(i + 2 < len ==> all[i + 2] == tokens@[i + 2]@);
                if text::str_eq(key.as_str(), "datastore") {
                    if i + 2 >= len {
                        return Err((ArgFault::ExpectedText, i + 2));
                    }
                    match &tokens[i + 2] {
                        ArgToken::Text(s) => {
                            datastore = Some(s.clone());
                            proof {
                                read = ArgsView { datastore: Some(s@), ..read };
                            }
                        },
                        _ => {
                            return Err((ArgFault::ExpectedText, i + 2));
                        },
                    }
                } else if text::str_eq(key.as_str(), "optimize") {
                    if i + 2 >= len {
                        return Err((ArgFault::ExpectedLiteral, i + 2));
                    }
                    match &tokens[i + 2] {
                        ArgToken::Bool(b) => {
                            optimize = Some(*b);
                            proof {
                                read = ArgsView { optimize: Some(*b), ..read };
                            }
                        },
                        ArgToken::Text(_) | ArgToken::Literal => {
                            return Err((ArgFault::ExpectedBool, i + 2));
                        },
                        _ => {
                            return Err((ArgFault::ExpectedLiteral, i + 2));
                        },
                    }
                } else {
                    return Err((ArgFault::UnknownKey, i));
                }
                next = i + 3;
            },
            ArgToken::Text(_) => {
                literal_at = Some(i);
                proof {
                    read = ArgsView { literal_at: Some(i as int), ..read };
                }
                next = i + 1;
            },
            _ => {
                return Err((ArgFault::ExpectedArgument, i));
            },
        }
        if next < len && is_comma(&tokens[next]) {
            assert(all[next as int] == tokens@[next as int]@);
            i = next + 1;
        } else {
            assert(next < len ==> all[next as int] == tokens@[next as int]@);
            i = next;
            open = false;
        }
    }
    match literal_at {
        None => Err((ArgFault::MissingLiteral, i)),
        Some(at) => Ok(
            QueryArgs {
                datastore,
                optimize: match optimize {
                    Some(b) => b,
                    None => true,
                },
                literal_at: at,
                taken: i,
            },
        ),
    }
}

/// What a fault says.
pub open spec fn fault_text(fault: ArgFault, key: Seq<char>, at_end: bool) -> Seq<char> {
    let text = match fault {
        ArgFault::ExpectedEquals => "expected `=`"@,
        ArgFault::ExpectedText => "expected string literal"@,
        ArgFault::ExpectedLiteral => "expected literal"@,
        ArgFault::ExpectedBool => "expected bool literal for `optimize`"@,
        ArgFault::UnknownKey => "unknown key `"@ + key
            + "`; expected `datastore`, `optimize`, or a literal"@,
        ArgFault::ExpectedArgument =>
            "expected `datastore =`, `optimize =`, or a string literal"@,
        ArgFault::MissingLiteral => "missing SQL literal"@,
    };
    if at_end {
        "unexpected end of input, "@ + text
    } else {
        text
    }
}

/// What a fault says. `key` is the key that a fault is about, and `at_end`
/// says whether the arguments end where it is.
pub fn fault_message(fault: ArgFault, key: &str, at_end: bool) -> (r: String)
    ensures
        r@ == fault_text(fault, key@, at_end),
{
    let message: String = match fault {
        ArgFault::ExpectedEquals => "expected `=`".to_string(),
        ArgFault::ExpectedText => "expected string literal".to_string(),
        ArgFault::ExpectedLiteral => "expected literal".to_string(),
        ArgFault::ExpectedBool => "expected bool literal for `optimize`".to_string(),
        ArgFault::UnknownKey => "unknown key `".to_string().concat(key).concat(
            "`; expected `datastore`, `optimize`, or a literal",
        ),
        ArgFault::ExpectedArgument =>
            "expected `datastore =`, `optimize =`, or a string literal".to_string(),
        ArgFault::MissingLiteral => "missing SQL literal".to_string(),
    };
    if at_end {
        "unexpected end of input, ".to_string().concat(message.as_str())
    } else {
        message
    }
}

// ---------------------------------------------------------------------------
// Arguments as they are written
// ---------------------------------------------------------------------------

/// One argument of a call.
pub ghost enum Argument {
    Datastore(Seq<char>),
    Optimize(bool),
    Literal(Seq<char>),
}

/// The tokens of an argument.
pub open spec fn tokens_of(argument: Argument) -> Seq<ArgTokenView> {
    match argument {
        Argument::Datastore(s) => seq![
            ArgTokenView::Name("datastore"@),
            ArgTokenView::Equals,
            ArgTokenView::Text(s),
        ],
        Argument::Optimize(b) => seq![
            ArgTokenView::Name("optimize"@),
            ArgTokenView::Equals,
            ArgTokenView::Bool(b),
        ],
        Argument::Literal(s) => seq![ArgTokenView::Text(s)],
    }
}

/// The tokens of arguments, with commas between them.
pub open spec fn written(list: Seq<Argument>) -> Seq<ArgTokenView>
    decreases list.len(),
{
    if list.len() == 0 {
        Seq::empty()
    } else if list.len() == 1 {
        tokens_of(list[0])
    } else {
        tokens_of(list[0]) + seq![ArgTokenView::Comma] + written(list.drop_first())
    }
}

/// The datastore that arguments name: the last one.
pub open spec fn datastore_in(list: Seq<Argument>) -> Option<Seq<char>>
    decreases list.len(),
{
    if list.len() == 0 {
        None
    } else {
        match (datastore_in(list.drop_first()), list[0]) {
            (Some(s), _) => Some(s),
            (None, Argument::Datastore(s)) => Some(s),
            _ => None,
        }
    }
}

/// What arguments say of optimizing: the last one counts.
pub open spec fn optimize_in(list: Seq<Argument>) -> Option<bool>
    decreases list.len(),
{
    if list.len() == 0 {
        None
    } else {
        match (optimize_in(list.drop_first()), list[0]) {
            (Some(b), _) => Some(b),
            (None, Argument::Optimize(b)) => Some(b),
            _ => None,
        }
    }
}

/// Where the SQL literal of arguments stands that start at `at`: the last one
/// counts.
pub open spec fn literal_in(list: Seq<Argument>, at: int) -> Option<int>
    decreases list.len(),
{
    if list.len() == 0 {
        None
    } else {
        match (literal_in(list.drop_first(), at + tokens_of(list[0]).len() + 1), list[0]) {
            (Some(k), _) => Some(k),
            (None, Argument::Literal(_)) => Some(at),
            _ => None,
        }
    }
}

proof fn lemma_one_argument(tokens: Seq<ArgTokenView>, i: int, argument: Argument, read: ArgsView)
    requires
        0 <= i,
        i + tokens_of(argument).len() <= tokens.len(),
        tokens.subrange(i, i + tokens_of(argument).len()) == tokens_of(argument),
    ensures
        self::argument(tokens, i, read) == Ok::<(ArgsView, int), (ArgFault, int)>(
            (
                match argument {
                    Argument::Datastore(s) => ArgsView { datastore: Some(s), ..read },
                    Argument::Optimize(b) => ArgsView { optimize: Some(b), ..read },
                    Argument::Literal(_) => ArgsView { literal_at: Some(i), ..read },
                },
                i + tokens_of(argument).len(),
            ),
        ),
{
    let part = tokens.subrange(i, i + tokens_of(argument).len());
    assert(part[0] == tokens[i]);
    if !(argument is Literal) {
        assert(part[1] == tokens[i + 1]);
        assert(part[2] == tokens[i + 2]);
    }
    reveal_strlit("datastore");
    reveal_strlit("optimize");
    assert("datastore"@.len() == 9);
    assert("optimize"@.len() == 8);
}

proof fn lemma_written_from(
    tokens: Seq<ArgTokenView>,
    i: int,
    list: Seq<Argument>,
    read: ArgsView,
)
    requires
        0 <= i,
        list.len() > 0,
        i + written(list).len() <= tokens.len(),
        tokens.subrange(i, i + written(list).len()) == written(list),
        i + written(list).len() < tokens.len() ==> !(tokens[i + written(list).len()] is Comma),
    ensures
        arguments(tokens, i, read) == args_end(
            ArgsView {
                datastore: match datastore_in(list) {
                    Some(s) => Some(s),
                    None => read.datastore,
                },
                optimize: match optimize_in(list) {
                    Some(b) => Some(b),
                    None => read.optimize,
                },
                literal_at: match literal_in(list, i) {
                    Some(k) => Some(k),
                    None => read.literal_at,
                },
            },
            i + written(list).len(),
        ),
    decreases list.len(),
{
    let first = list[0];
    let n = tokens_of(first).len() as int;
    let all = written(list);
    let rest = list.drop_first();
    assert(tokens.subrange(i, i + n) =~= tokens.subrange(i, i + all.len()).take(n));
    assert(all.take(n) =~= tokens_of(first));
    lemma_one_argument(tokens, i, first, read);
    let then_read = argument(tokens, i, read)->Ok_0.0;
    if list.len() == 1 {
        assert(rest.len() == 0);
        assert(all.len() == n);
    } else {
        assert(tokens.subrange(i, i + all.len())[n] == tokens[i + n]);
        assert(all[n] is Comma);
        let more = written(rest);
        assert(all.len() == n + 1 + more.len());
        assert(tokens.subrange(i + n + 1, i + n + 1 + more.len()) =~= tokens.subrange(
            i,
            i + all.len(),
        ).skip(n + 1));
        assert(all.skip(n + 1) =~= more);
        lemma_written_from(tokens, i + n + 1, rest, then_read);
    }
}

/// The arguments of a call are read as they were written, in whatever order:
/// the datastore and the flag that stand last, and the literal that stands
/// last. What follows them without a comma is not taken. Without a literal the
/// call is refused. A call is optimized unless it says otherwise.
pub proof fn lemma_written_arguments_are_read(list: Seq<Argument>, behind: Seq<ArgTokenView>)
    requires
        list.len() > 0,
        behind.len() > 0 ==> !(behind[0] is Comma),
    ensures
        ({
            let outcome = arguments(written(list) + behind, 0, nothing_read());
            let end = written(list).len() as int;
            &&& literal_in(list, 0) is None ==> outcome == Err::<
                (ArgsView, int),
                (ArgFault, int),
            >((ArgFault::MissingLiteral, end))
            &&& literal_in(list, 0) is Some ==> {
                &&& outcome is Ok
                &&& outcome->Ok_0.0.datastore == datastore_in(list)
                &&& outcome->Ok_0.0.literal_at == literal_in(list, 0)
                &&& optimizes(outcome->Ok_0.0) <==> optimize_in(list) != Some(false)
                &&& outcome->Ok_0.1 == end
            }
        }),
{
    let tokens = written(list) + behind;
    assert(tokens.subrange(0, written(list).len() as int) =~= written(list));
    lemma_written_from(tokens, 0, list, nothing_read());
}

/// A call without arguments has no literal, and a comma at the end changes
/// nothing.
pub proof fn lemma_ends_of_arguments(argument: Argument, read: ArgsView)
    ensures
        arguments(Seq::empty(), 0, nothing_read()) == Err::<(ArgsView, int), (ArgFault, int)>(
            (ArgFault::MissingLiteral, 0),
        ),
        ({
            let tokens = tokens_of(argument);
            let longer = tokens.push(ArgTokenView::Comma);
            let plain = arguments(tokens, 0, read);
            let ended = arguments(longer, 0, read);
            &&& plain is Ok <==> ended is Ok
            &&& plain is Ok ==> ended->Ok_0.0 == plain->Ok_0.0 && plain->Ok_0.1 == tokens.len()
                && ended->Ok_0.1 == longer.len()
        }),
{
    let tokens = tokens_of(argument);
    let longer = tokens.push(ArgTokenView::Comma);
    assert(tokens.subrange(0, tokens.len() as int) =~= tokens);
    assert(longer.subrange(0, tokens.len() as int) =~= tokens);
    lemma_one_argument(tokens, 0, argument, read);
    lemma_one_argument(longer, 0, argument, read);
    let then_read = self::argument(longer, 0, read)->Ok_0.0;
    let end = longer.len() as int;
    assert(arguments(longer, end, then_read) == args_end(then_read, end));
}

/// What is no argument is refused where it stands: a key without `=`, a
/// datastore that is no text, a flag that is no boolean, another key, and
/// whatever is neither a key nor a text.
pub proof fn lemma_refused_arguments(tokens: Seq<ArgTokenView>, i: int, read: ArgsView)
    requires
        0 <= i < tokens.len(),
    ensures
        ({
            let outcome = arguments(tokens, i, read);
            let fault = |f: ArgFault, at: int| outcome == Err::<(ArgsView, int), (ArgFault, int)>((f, at));
            let keyed = tokens[i] is Name && i + 1 < tokens.len() && tokens[i + 1] is Equals;
            let key = tokens[i]->Name_0;
            let given = i + 2 < tokens.len();
            let value = tokens[i + 2];
            &&& !(tokens[i] is Name || tokens[i] is Text) ==> fault(ArgFault::ExpectedArgument, i)
            &&& tokens[i] is Name && !keyed ==> fault(ArgFault::ExpectedEquals, i + 1)
            &&& keyed && key != "datastore"@ && key != "optimize"@ ==> fault(
                ArgFault::UnknownKey,
                i,
            )
            &&& keyed && key == "datastore"@ && !(given && value is Text) ==> fault(
                ArgFault::ExpectedText,
                i + 2,
            )
            &&& keyed && key == "optimize"@ && given && (value is Text || value is Literal)
                ==> fault(ArgFault::ExpectedBool, i + 2)
            &&& keyed && key == "optimize"@ && !(given && (value is Text || value is Literal
                || value is Bool)) ==> fault(ArgFault::ExpectedLiteral, i + 2)
        }),
{
    reveal_strlit("datastore");
    reveal_strlit("optimize");
    assert("datastore"@.len() == 9);
    assert("optimize"@.len() == 8);
}

/// What each fault says. At the end of the arguments it says that they end.
pub proof fn lemma_fault_texts(fault: ArgFault, key: Seq<char>)
    ensures
        fault_text(fault, key, true) == "unexpected end of input, "@ + fault_text(
            fault,
            key,
            false,
        ),
        fault_text(ArgFault::ExpectedEquals, key, false) == "expected `=`"@,
        fault_text(ArgFault::ExpectedText, key, false) == "expected string literal"@,
        fault_text(ArgFault::ExpectedLiteral, key, false) == "expected literal"@,
        fault_text(ArgFault::ExpectedBool, key, false) == "expected bool literal for `optimize`"@,
        fault_text(ArgFault::UnknownKey, key, false) == "unknown key `"@ + key
            + "`; expected `datastore`, `optimize`, or a literal"@,
        fault_text(ArgFault::ExpectedArgument, key, false)
            == "expected `datastore =`, `optimize =`, or a string literal"@,
        fault_text(ArgFault::MissingLiteral, key, false) == "missing SQL literal"@,
{
}

} // verus!
