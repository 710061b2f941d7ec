use dactyl_db::literal::lex;
use dactyl_db::query::rewrite::{replace_now_function, replace_word};
use dactyl_db::query::{tokenize, Construct, Dialect, QueryAnalyzer, Rewrite, Token};
use dactyl_db::DactylError;

#[test]
fn prepare_strips_directive_and_rejects_unsafe_mismatch() {
    let analyzer = QueryAnalyzer::new();
    let sql = analyzer
        .prepare("-- dactyl: sqlite\nselect ?1", Dialect::Sqlite, false)
        .unwrap();
    assert_eq!(sql, "select ?1");
    assert!(matches!(
        analyzer.prepare("select data @> $1", Dialect::Sqlite, true),
        Err(DactylError::Unsupported { .. })
    ));
}

#[test]
fn safe_rewrites_are_explicit() {
    let analyzer = QueryAnalyzer::new();
    let sql = analyzer
        .prepare(
            "select now() where name ilike $1 and note = 'now() ilike'",
            Dialect::Sqlite,
            true,
        )
        .unwrap();
    assert!(sql.contains("CURRENT_TIMESTAMP"));
    assert!(sql.contains("like"));
    assert!(sql.contains("'now() ilike'"));
}

#[test]
fn question_placeholders_are_not_json_operators() {
    let analyzed = QueryAnalyzer::new().analyze("select ?1, ? from values");
    assert!(analyzed.constructs.is_empty());
}

#[test]
fn every_construct_is_found_in_source_order() {
    let analyzed = QueryAnalyzer::new().analyze(
        "create table t (a) without rowid, strict; select json_each(a), json_tree(b) -> c ->> d \
         returning x ilike y @> z <@ w, cast(v as JSONB), gen_random_uuid(), Now()",
    );
    assert_eq!(
        analyzed.constructs,
        vec![
            Construct::WithoutRowId,
            Construct::Strict,
            Construct::JsonEach,
            Construct::JsonTree,
            Construct::JsonArrow,
            Construct::JsonArrowText,
            Construct::Returning,
            Construct::Ilike,
            Construct::JsonContains,
            Construct::JsonContained,
            Construct::Jsonb,
            Construct::GenRandomUuid,
            Construct::NowFn,
        ]
    );
    assert!(analyzed.inline_override.is_none());
}

#[test]
fn portable_queries_pass_unchanged() {
    let analyzed = QueryAnalyzer::new().analyze("select 1");
    assert!(matches!(analyzed.rewrite, Rewrite::Identity));
    for allow in [false, true] {
        for dialect in [Dialect::Sqlite, Dialect::Postgres] {
            let sql = QueryAnalyzer::new().prepare("select 'ilike', 1", dialect, allow);
            assert_eq!(sql.unwrap(), "select 'ilike', 1");
        }
    }
}

#[test]
fn a_directive_for_another_datastore_is_refused() {
    let refused = QueryAnalyzer::new().prepare("-- dactyl: neon\nselect 1", Dialect::Sqlite, true);
    match refused {
        Err(DactylError::Routing(message)) => {
            assert_eq!(message, "inline datastore \"neon\" does not match the active connection")
        }
        other => panic!("{other:?}"),
    }
}

#[test]
fn rewrites_are_made_only_where_they_are_allowed() {
    let analyzer = QueryAnalyzer::new();
    let sql = "create table t (a jsonb default (NOW ()) /* jsonb */) -- jsonb";
    assert!(matches!(
        analyzer.prepare(sql, Dialect::Sqlite, false),
        Err(DactylError::Unsupported { construct: Construct::Jsonb })
    ));
    assert_eq!(
        analyzer.prepare(sql, Dialect::Sqlite, true).unwrap(),
        "create table t (a text default (CURRENT_TIMESTAMP) /* jsonb */) -- jsonb"
    );
    assert_eq!(
        analyzer.prepare("create table t (a) STRICT", Dialect::Postgres, true).unwrap(),
        "create table t (a) "
    );
    assert!(matches!(
        analyzer.prepare("create table t (a) without rowid, strict", Dialect::Postgres, true),
        Err(DactylError::Unsupported { construct: Construct::WithoutRowId })
    ));
}

#[test]
fn code_that_is_not_replaced_stays_as_it_is() {
    let analyzer = QueryAnalyzer::new();
    assert_eq!(
        analyzer
            .prepare("select h\u{e9} from t where \u{e9}ilike 'x' -- \u{4e16}", Dialect::Sqlite, true)
            .unwrap(),
        "select h\u{e9} from t where \u{e9}like 'x' -- \u{4e16}"
    );
    assert_eq!(
        analyzer.prepare("select \u{e9}, now(), \u{e9}", Dialect::Sqlite, true).unwrap(),
        "select \u{e9}, CURRENT_TIMESTAMP, \u{e9}"
    );
    for sql in ["select 'ilike", "select 1 /* ilike", "-- ilike", "select \"now()", ""] {
        assert_eq!(replace_word(sql, "ilike", "like"), sql);
        assert_eq!(replace_now_function(sql), sql);
    }
}

#[test]
fn the_case_of_a_query_does_not_change_its_tokens() {
    let sql = "SELECT 'A' , X -> y FROM \"T\" -- Now\nWHERE a ILIKE B1.C";
    assert_eq!(tokenize(sql), tokenize(&sql.to_ascii_lowercase()));
}

#[test]
fn a_lexeme_gives_its_construct() {
    let all = [
        Construct::JsonEach,
        Construct::JsonTree,
        Construct::WithoutRowId,
        Construct::Strict,
        Construct::JsonArrowText,
        Construct::JsonArrow,
        Construct::JsonContains,
        Construct::JsonContained,
        Construct::Jsonb,
        Construct::Returning,
        Construct::Ilike,
        Construct::GenRandomUuid,
        Construct::NowFn,
    ];
    for construct in all {
        let analyzed = QueryAnalyzer::new().analyze(construct.lexeme());
        assert_eq!(analyzed.constructs, vec![construct]);
    }
    let exists = QueryAnalyzer::new().analyze(Construct::JsonExists.lexeme());
    assert!(exists.constructs.is_empty());
}

#[test]
fn the_scanner_of_literals_agrees_with_the_analyzer() {
    let sql = "create table t (a jsonb) without\n rowid; select a ->> b @> c, now() returning x";
    let hit = lex(sql);
    let found = QueryAnalyzer::new().analyze(sql).constructs;
    assert_eq!(hit.constructs as usize, found.len());
    assert!(hit.jsonb && hit.without_rowid && hit.json_arrow_text && hit.json_contains);
    assert!(hit.now_fn && hit.returning && !hit.ilike);
}

#[test]
fn a_rewritten_query_holds_no_postgres_words() {
    let analyzer = QueryAnalyzer::new();
    let sql = analyzer
        .prepare(
            "select now(), a ILIKE b, cast(c as JSONB), 1.ilike, 'ilike' -- jsonb\n from \"jsonb\"",
            Dialect::Sqlite,
            true,
        )
        .unwrap();
    let tokens = tokenize(&sql);
    assert!(!tokens.contains(&Token::Word("ilike".to_string())));
    assert!(!tokens.contains(&Token::Word("jsonb".to_string())));
    assert!(sql.contains("'ilike' -- jsonb\n from \"jsonb\""));
    let glued = analyzer.prepare("select now()5.ilike", Dialect::Sqlite, true).unwrap();
    assert_eq!(glued, "select CURRENT_TIMESTAMP5.ilike");
}

#[test]
fn allowing_rewrites_keeps_what_passes() {
    let analyzer = QueryAnalyzer::new();
    for sql in ["select a -> b", "-- dactyl: sqlite\ncreate table t (a) strict", "select '@>'"] {
        let plain = analyzer.prepare(sql, Dialect::Sqlite, false).unwrap();
        assert_eq!(analyzer.prepare(sql, Dialect::Sqlite, true).unwrap(), plain);
    }
}
