use dactyl_db::schema::{ForeignKeyAction, IndexSchema};
use dactyl_db::sqlite::inspect::{
    columns_for_table, count_sql, default_from, default_value, foreign_key_action,
    foreign_keys_for_table, index_columns, index_entry, inspect_schema, pragma_sql, row_i64,
    row_string, sort_indexes, table_count, table_schema, unique_columns, unique_constraints,
};
use dactyl_db::sqlite::survey::{indexes_for_table, survey_schema};
use dactyl_db::{DactylError, Number, Row, Rows, Value};

fn text(s: &str) -> Value {
    Value::Text(s.to_string())
}

fn integer(n: i64) -> Value {
    Value::Number(Number::from_i64(n))
}

fn row(values: Vec<Value>) -> Row {
    Row {
        columns: (0..values.len()).map(|i| format!("c{i}")).collect(),
        values,
    }
}

fn index(name: &str, columns: &[&str], unique: bool) -> IndexSchema {
    IndexSchema {
        name: name.to_string(),
        table: "t".to_string(),
        columns: columns.iter().map(|c| c.to_string()).collect(),
        unique,
    }
}

#[test]
fn catalog_statements_quote_their_table() {
    assert_eq!(pragma_sql("table_info", "a\"b"), "PRAGMA table_info(\"a\"\"b\")");
    assert!(count_sql("t").contains("\"t\""));
}

#[test]
fn catalog_cells_are_typed() {
    let cells = row(vec![text("a"), integer(4)]);
    assert_eq!(row_string(&cells, 0).unwrap(), "a");
    assert_eq!(row_i64(&cells, 1).unwrap(), 4);
    assert!(row_string(&cells, 1).is_err());
    assert!(row_i64(&cells, 0).is_err());
    assert!(row_string(&cells, 9).is_err());
}

#[test]
fn defaults_are_read_as_literals_or_json() {
    assert_eq!(default_value("'it''s'"), text("it's"));
    assert_eq!(default_value("42"), integer(42));
    assert_eq!(default_value("-7"), integer(-7));
    assert_eq!(default_value("true"), Value::Bool(true));
    assert_eq!(default_value("NULL"), Value::Null);
    assert_eq!(
        default_value("1.5"),
        Value::Number(Number::Float(1.5f64.to_bits()))
    );
    assert_eq!(default_value("CURRENT_TIMESTAMP"), text("CURRENT_TIMESTAMP"));
    assert_eq!(
        default_value(" [18446744073709551615, {\"b\": -2, \"a\": \"x\"}] "),
        Value::Array(vec![
            Value::Number(Number::PosInt(u64::MAX)),
            Value::Object(vec![
                ("a".to_string(), text("x")),
                ("b".to_string(), integer(-2)),
            ]),
        ])
    );
    assert_eq!(default_from("42", Some(integer(42))), integer(42));
    assert_eq!(default_from("abc", None), text("abc"));
}

#[test]
fn columns_carry_keys_nullability_and_defaults() {
    let rows = vec![
        row(vec![
            integer(0),
            text("id"),
            text("integer"),
            integer(0),
            Value::Null,
            integer(1),
        ]),
        row(vec![
            integer(1),
            text("name"),
            text("text"),
            integer(1),
            text("'x'"),
            integer(0),
        ]),
    ];
    let columns = columns_for_table(&rows, &vec!["name".to_string()]).unwrap();
    assert_eq!(columns.len(), 2);
    assert!(columns[0].primary_key);
    assert!(!columns[0].not_null);
    assert_eq!(columns[0].default, None);
    assert_eq!(columns[1].name, "name");
    assert!(columns[1].unique);
    assert!(columns[1].not_null);
    assert_eq!(columns[1].default, Some(text("x")));
}

#[test]
fn indexes_are_sorted_and_give_the_unique_keys() {
    let sorted = sort_indexes(vec![
        index("zeta", &["a"], false),
        index("alpha", &["b"], true),
        index("mid", &["a", "b"], true),
    ]);
    let names: Vec<&str> = sorted.iter().map(|i| i.name.as_str()).collect();
    assert_eq!(names, vec!["alpha", "mid", "zeta"]);
    assert_eq!(unique_columns(&sorted), vec!["b"]);
    assert_eq!(unique_constraints(&sorted), vec![vec!["b"], vec!["a", "b"]]);
}

#[test]
fn sorting_keeps_every_index_and_the_order_of_equal_names() {
    let sorted = sort_indexes(vec![
        index("b", &["first"], false),
        index("a", &["x"], false),
        index("b", &["second"], true),
        index("B", &["y"], false),
        index("\u{e9}", &["z"], false),
        index("ab", &["w"], false),
    ]);
    let names: Vec<&str> = sorted.iter().map(|i| i.name.as_str()).collect();
    assert_eq!(names, vec!["B", "a", "ab", "b", "b", "\u{e9}"]);
    assert_eq!(sorted[3].columns, vec!["first"]);
    assert_eq!(sorted[4].columns, vec!["second"]);
    assert!(sort_indexes(vec![]).is_empty());
}

#[test]
fn index_rows_name_the_index_and_its_columns() {
    let entry = row(vec![integer(0), text("i"), integer(1), text("c"), integer(0)]);
    assert_eq!(index_entry(&entry).unwrap(), ("i".to_string(), true));
    let columns = vec![
        row(vec![integer(0), integer(1), text("a")]),
        row(vec![integer(1), integer(-2), Value::Null]),
    ];
    assert_eq!(index_columns(&columns), vec!["a"]);
}

#[test]
fn foreign_keys_are_grouped_and_ordered() {
    let key = |id: i64, seq: i64, table: &str, from: &str, to: &str, on_delete: &str| {
        row(vec![
            integer(id),
            integer(seq),
            text(table),
            text(from),
            text(to),
            text("NO ACTION"),
            text(on_delete),
            text("NONE"),
        ])
    };
    let rows = vec![
        key(1, 1, "pairs", "b", "y", "CASCADE"),
        key(1, 0, "pairs", "a", "x", "CASCADE"),
        key(0, 0, "parents", "parent", "id", "SET NULL"),
    ];
    let keys = foreign_keys_for_table(&rows).unwrap();
    assert_eq!(keys.len(), 2);
    assert_eq!(keys[0].ref_table, "parents");
    assert_eq!(keys[0].on_delete, ForeignKeyAction::SetNull);
    assert_eq!(keys[1].columns, vec!["a", "b"]);
    assert_eq!(keys[1].ref_columns, vec!["x", "y"]);
    assert_eq!(keys[1].on_delete, ForeignKeyAction::Cascade);
    assert_eq!(foreign_key_action("set default"), ForeignKeyAction::SetDefault);
}

#[test]
fn a_schema_is_put_together_from_its_tables() {
    assert_eq!(table_count(&[row(vec![integer(3)])]).unwrap(), 3);
    assert!(table_count(&[row(vec![text("x")])]).is_err());
    let table = table_schema("t".to_string(), &vec![index("u", &["a", "b"], true)], vec![], vec![], 3);
    assert_eq!(table.row_count, 3);
    assert_eq!(table.unique_constraints, vec![vec!["a", "b"]]);
    let schema = inspect_schema(vec![table], vec![index("u", &["a", "b"], true)]);
    assert_eq!(schema.format_version, 1);
    assert_eq!(schema.tables.len(), 1);
    assert_eq!(schema.indexes.len(), 1);
}

fn store(sql: &str) -> Result<Rows, DactylError> {
    let found = match sql {
        "PRAGMA table_info(\"people\")" => vec![
            row(vec![integer(0), text("id"), text("INTEGER"), integer(0), Value::Null, integer(1)]),
            row(vec![integer(1), text("mail"), text("TEXT"), integer(1), text("''"), integer(0)]),
        ],
        "PRAGMA table_info(\"pets\")" => vec![
            row(vec![integer(0), text("owner"), text("INTEGER"), integer(0), Value::Null, integer(0)]),
        ],
        "PRAGMA index_list(\"people\")" => vec![
            row(vec![integer(0), text("people_mail"), integer(1), text("c"), integer(0)]),
        ],
        "PRAGMA index_list(\"pets\")" => vec![
            row(vec![integer(0), text("owners"), integer(0), text("c"), integer(0)]),
            row(vec![integer(1), text("a_pet"), integer(0), text("c"), integer(0)]),
        ],
        "PRAGMA index_info(\"people_mail\")" => vec![row(vec![integer(0), integer(1), text("mail")])],
        "PRAGMA index_info(\"owners\")" => vec![row(vec![integer(0), integer(0), text("owner")])],
        "PRAGMA index_info(\"a_pet\")" => vec![],
        "PRAGMA foreign_key_list(\"people\")" => vec![],
        "PRAGMA foreign_key_list(\"pets\")" => vec![row(vec![
            integer(0),
            integer(0),
            text("people"),
            text("owner"),
            text("id"),
            text("NO ACTION"),
            text("RESTRICT"),
            text("NONE"),
        ])],
        "SELECT COUNT(*) FROM \"people\"" => vec![row(vec![integer(2)])],
        "SELECT COUNT(*) FROM \"pets\"" => vec![row(vec![integer(5)])],
        _ => vec![row(vec![text("people")]), row(vec![text("pets")])],
    };
    Ok(Rows(found))
}

#[test]
fn a_store_is_surveyed_table_by_table() {
    let schema = survey_schema(&store).unwrap();
    assert_eq!(schema.format_version, 1);
    assert_eq!(schema.tables.len(), 2);
    assert_eq!(schema.tables[0].name, "people");
    assert_eq!(schema.tables[0].row_count, 2);
    assert_eq!(schema.tables[0].unique_constraints, vec![vec!["mail"]]);
    assert_eq!(schema.tables[0].columns[1].name, "mail");
    assert!(schema.tables[0].columns[1].unique);
    assert_eq!(schema.tables[0].columns[1].default, Some(text("")));
    assert_eq!(schema.tables[1].row_count, 5);
    assert_eq!(schema.tables[1].foreign_keys[0].ref_table, "people");
    assert_eq!(schema.tables[1].foreign_keys[0].on_delete, ForeignKeyAction::Restrict);
    let names: Vec<&str> = schema.indexes.iter().map(|i| i.name.as_str()).collect();
    assert_eq!(names, vec!["a_pet", "owners", "people_mail"]);
    assert_eq!(schema.indexes[1].table, "pets");
    assert_eq!(schema.indexes[1].columns, vec!["owner"]);
}

#[test]
fn a_survey_stops_at_the_first_query_that_fails() {
    for failing in [
        "SELECT name",
        "PRAGMA index_list(\"pets\")",
        "PRAGMA index_info(\"owners\")",
        "PRAGMA table_info(\"people\")",
        "PRAGMA foreign_key_list(\"people\")",
        "SELECT COUNT(*) FROM \"pets\"",
    ] {
        let query = |sql: &str| {
            if sql.starts_with(failing) {
                Err(DactylError::Routing(sql.to_string()))
            } else {
                store(sql)
            }
        };
        match survey_schema(&query) {
            Err(DactylError::Routing(sql)) => assert!(sql.starts_with(failing)),
            other => panic!("{other:?}"),
        }
    }
    let nameless = |sql: &str| {
        if sql.starts_with("SELECT name") {
            Ok(Rows(vec![row(vec![integer(1)])]))
        } else {
            store(sql)
        }
    };
    assert!(survey_schema(&nameless).is_err());
    let indexes = indexes_for_table(&store, "pets").unwrap();
    assert_eq!(indexes.len(), 2);
    assert_eq!(indexes[0].name, "a_pet");
}
