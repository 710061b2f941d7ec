//! The tables of the known stores.
//!
//! The statements are kept minimal: a store's full layout belongs to its
//! owner, and only the table names need to be discoverable here.

use vstd::prelude::*;

use crate::rows;

verus! {

/// All known store names, in the order in which their tables are created.
pub open spec fn store_list() -> Seq<Seq<char>> {
    seq![
        "todos"@,
        "knowledge"@,
        "governance"@,
        "memory"@,
        "automation"@,
        "broker_dedupe"@,
        "lcm"@,
        "federation"@,
        "events"@,
    ]
}

/// The statement that creates a store's table.
pub open spec fn store_table(name: Seq<char>) -> Seq<char> {
    "create table if not exists "@ + name
        + " (\n            id integer primary key,\n            title text not null,\n            status text not null,\n            assignee text\n        )"@
}

/// All known store names, in the order in which their tables are created.
pub fn store_names() -> (r: Vec<String>)
    ensures
        rows::texts(r@) == store_list(),
{
    let out: Vec<String> = vec![
        "todos".to_string(),
        "knowledge".to_string(),
        "governance".to_string(),
        "memory".to_string(),
        "automation".to_string(),
        "broker_dedupe".to_string(),
        "lcm".to_string(),
        "federation".to_string(),
        "events".to_string(),
    ];
    assert(rows::texts(out@) =~= store_list());
    out
}

fn table_statement(name: &str) -> (r: String)
    ensures
        r@ == store_table(name@),
{
    "create table if not exists ".to_string().concat(name).concat(
        " (\n            id integer primary key,\n            title text not null,\n            status text not null,\n            assignee text\n        )",
    )
}

/// The statement that creates the table of one store, if it is known.
pub fn bootstrap_statement(name: &str) -> (r: Option<String>)
    ensures
        match r {
            Some(sql) => store_list().contains(name@) && sql@ == store_table(name@),
            None => !store_list().contains(name@),
        },
{
    let names: Vec<String> = store_names();
    proof {
        rows::lemma_first_position(store_list(), name@);
    }
    match rows::position_of(&names, name) {
        Some(_) => Some(table_statement(name)),
        None => None,
    }
}

/// The statements that create the tables of all stores, in order.
pub fn bootstrap_statements() -> (r: Vec<String>)
    ensures
        rows::texts(r@) == store_list().map_values(|name: Seq<char>| store_table(name)),
{
    let names: Vec<String> = store_names();
    let mut out: Vec<String> = Vec::new();
    let mut i: usize = 0;
    while i < names.len()
        invariant
            i <= names@.len(),
            out@.len() == i,
            rows::texts(names@) == store_list(),
            forall|k: int| 0 <= k < i ==> (#[trigger] out@[k])@ == store_table(names@[k]@),
        decreases names@.len() - i,
    {
        out.push(table_statement(names[i].as_str()));
        i = i + 1;
    }
    proof {
        assert forall|k: int| 0 <= k < names@.len() implies #[trigger] store_list()[k]
            == names@[k]@ by {
            assert(rows::texts(names@)[k] == names@[k]@);
        }
        assert(rows::texts(names@).len() == names@.len());
        assert(rows::texts(out@) =~= store_list().map_values(
            |name: Seq<char>| store_table(name),
        ));
    }
    out
}

/// The known stores: nine of them, by name and in order.
pub proof fn lemma_known_stores()
    ensures
        store_list().len() == 9,
        store_list()[0] == "todos"@,
        store_list()[1] == "knowledge"@,
        store_list()[2] == "governance"@,
        store_list()[3] == "memory"@,
        store_list()[4] == "automation"@,
        store_list()[5] == "broker_dedupe"@,
        store_list()[6] == "lcm"@,
        store_list()[7] == "federation"@,
        store_list()[8] == "events"@,
{
}

/// Creating a store's table is a schema statement that names the store.
pub proof fn lemma_store_tables_are_created(name: Seq<char>)
    ensures
        crate::sqlite::statement::leading_word(store_table(name)) == Some("create"@),
        store_table(name).subrange(
            "create table if not exists "@.len() as int,
            ("create table if not exists "@.len() + name.len()) as int,
        ) == name,
{
    reveal_strlit("create table if not exists ");
    reveal_strlit("create");
    let head = "create table if not exists "@;
    let sql = store_table(name);
    let word = "create"@;
    let o = crate::sqlite::statement::Opening {
        blank: Seq::empty(),
        before: Seq::empty(),
        written: word,
        behind: Seq::empty(),
        tail: sql.skip(6),
    };
    assert(o.sql() =~= sql);
    assert(o.tail[0] == ' ');
    crate::sqlite::statement::lemma_first_word(o, word);
    assert(sql.subrange(head.len() as int, (head.len() + name.len()) as int) =~= name);
}

} // verus!
