use dactyl_db::__private::analyze;
use dactyl_db::arguments::{fault_message, parse_arguments, ArgFault, ArgToken, QueryArgs};
use dactyl_db::literal::{
    decide_expansion, ds_supported, lex, literal_fault, rewrite, Expansion, LexHit,
};
use dactyl_db::query::dialect::first_unsupported;
use dactyl_db::query::lexer::{strip_dactyl_directive, tokenize, Token};
use dactyl_db::query::{dialect_of, Construct, Dialect, QueryAnalyzer};
use dactyl_db::DactylError;

fn name(s: &str) -> ArgToken {
    ArgToken::Name(s.to_string())
}

fn text(s: &str) -> ArgToken {
    ArgToken::Text(s.to_string())
}

#[test]
fn arguments_come_in_any_order() {
    let args = parse_arguments(&[
        name("datastore"),
        ArgToken::Equals,
        text("neon"),
        ArgToken::Comma,
        text("select 1"),
        ArgToken::Comma,
        name("optimize"),
        ArgToken::Equals,
        ArgToken::Bool(false),
    ])
    .unwrap();
    assert_eq!(
        args,
        QueryArgs {
            datastore: Some("neon".to_string()),
            optimize: false,
            literal_at: 4,
            taken: 9
        }
    );
    let args = parse_arguments(&[text("select 1")]).unwrap();
    assert!(args.optimize);
    assert_eq!(args.datastore, None);
    let rest = parse_arguments(&[text("select 1"), ArgToken::Other]).unwrap();
    assert_eq!(rest.taken, 1);
}

#[test]
fn faults_point_at_their_token() {
    let fault = |tokens: &[ArgToken]| parse_arguments(tokens).unwrap_err();
    assert_eq!(fault(&[]), (ArgFault::MissingLiteral, 0));
    assert_eq!(fault(&[name("datastore")]), (ArgFault::ExpectedEquals, 1));
    assert_eq!(
        fault(&[name("datastore"), ArgToken::Equals, ArgToken::Literal]),
        (ArgFault::ExpectedText, 2)
    );
    assert_eq!(
        fault(&[name("optimize"), ArgToken::Equals, text("x")]),
        (ArgFault::ExpectedBool, 2)
    );
    assert_eq!(
        fault(&[name("optimize"), ArgToken::Equals, ArgToken::Other]),
        (ArgFault::ExpectedLiteral, 2)
    );
    assert_eq!(
        fault(&[name("other"), ArgToken::Equals, text("x")]),
        (ArgFault::UnknownKey, 0)
    );
    assert_eq!(fault(&[ArgToken::Comma]), (ArgFault::ExpectedArgument, 0));
    assert_eq!(
        fault_message(ArgFault::UnknownKey, "other", false),
        "unknown key `other`; expected `datastore`, `optimize`, or a literal"
    );
    assert_eq!(
        fault_message(ArgFault::MissingLiteral, "", true),
        "unexpected end of input, missing SQL literal"
    );
}

#[test]
fn literals_are_scanned_for_constructs() {
    let hit = lex("select data->>'a', now() from t where b ilike 'x' -- dactyl: neon");
    assert!(hit.json_arrow_text);
    assert!(hit.now_fn);
    assert!(hit.ilike);
    assert!(hit.has_inline_directive);
    assert!(!hit.portable());
    assert!(lex("select a from t").portable());
    assert!(LexHit::empty().portable());
    assert!(ds_supported("neon", &lex("select a from t where b ilike 'x'")));
    assert!(!ds_supported("sqlite", &lex("select a from t where b ilike 'x'")));
}

#[test]
fn a_literal_fails_the_build_only_where_it_must() {
    assert_eq!(
        decide_expansion(Some("sqlite"), false, "select a ilike b"),
        Expansion::CompileError
    );
    assert_eq!(
        decide_expansion(Some("sqlite"), true, "select a ilike b"),
        Expansion::Deferred
    );
    assert_eq!(
        decide_expansion(None, false, "select a ilike b"),
        Expansion::Checked
    );
    assert!(literal_fault("  \n").is_some());
    assert!(literal_fault("select 1").is_none());
    assert_eq!(rewrite("select 1"), "select 1");
}

#[test]
fn directives_are_stripped() {
    assert_eq!(
        strip_dactyl_directive("-- dactyl: neon\nselect 1"),
        (Some("neon"), "select 1".to_string())
    );
    assert_eq!(strip_dactyl_directive("select 1"), (None, "select 1".to_string()));
    assert_eq!(
        strip_dactyl_directive("\n\n-- dactyl: sqlite\nselect 1"),
        (Some("sqlite"), "select 1".to_string())
    );
    assert_eq!(
        strip_dactyl_directive(" \t\n  -- Dactyl : PG -- x\n\n-- kept\nselect 1"),
        (Some("neon"), "\n-- kept\nselect 1".to_string())
    );
    assert_eq!(
        strip_dactyl_directive("\n\nselect 1"),
        (None, "\n\nselect 1".to_string())
    );
    let hit = analyze("-- dactyl: neon\nselect now()");
    assert_eq!(hit.sql, "select now()");
    assert_eq!(hit.constructs, vec![Construct::NowFn]);
}

#[test]
fn tokens_keep_the_text_apart_from_the_quotes() {
    let tokens = tokenize("select 'a''b' -> x");
    assert!(tokens.contains(&Token::Word("select".to_string())));
    assert!(!tokens.contains(&Token::Word("a".to_string())));
    assert!(tokens.contains(&Token::Op("->".to_string())));
}

#[test]
fn dialects_support_their_own_constructs() {
    assert_eq!(dialect_of("sqlite"), Some(Dialect::Sqlite));
    assert_eq!(dialect_of("mysql"), None);
    assert!(Construct::Ilike.supported_by(Construct::Ilike.dialect()));
    assert_eq!(
        first_unsupported(&[Construct::JsonEach, Construct::Ilike], Dialect::Sqlite),
        Some(Construct::Ilike)
    );
}

#[test]
fn a_rewrite_leaves_quoted_text_alone() {
    let sql = QueryAnalyzer::new()
        .prepare(
            "select now(), 'now()' from t where a ILIKE \"ilike\"",
            Dialect::Sqlite,
            true,
        )
        .unwrap();
    assert_eq!(
        sql,
        "select CURRENT_TIMESTAMP, 'now()' from t where a like \"ilike\""
    );
    let refused = QueryAnalyzer::new().prepare("select a ilike b", Dialect::Sqlite, false);
    assert!(matches!(
        refused,
        Err(DactylError::Unsupported {
            construct: Construct::Ilike
        })
    ));
}
