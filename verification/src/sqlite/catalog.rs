//! The schema objects that a database file records.

use vstd::prelude::*;

use crate::error::{DactylError, ErrorView};
use crate::sqlite::bytes;
use crate::sqlite::keywords;
use crate::sqlite::reader::{FileView, SqliteReader, TableRow};
use crate::text;
use crate::value::{Value, ValueView};

verus! {

/// One object of a database schema.
#[derive(Debug, Clone)]
pub struct SchemaObject {
    pub kind: String,
    pub name: String,
    pub root_page: u32,
    pub sql: Option<String>,
}

/// What a [`SchemaObject`] says.
#[verifier::ext_equal]
pub ghost struct ObjectView {
    pub kind: Seq<char>,
    pub name: Seq<char>,
    pub root_page: u32,
    pub sql: Option<Seq<char>>,
}

impl SchemaObject {
    pub open spec fn view(self) -> ObjectView {
        ObjectView {
            kind: self.kind@,
            name: self.name@,
            root_page: self.root_page,
            sql: crate::error::text_option(self.sql),
        }
    }
}

/// What a sequence of schema objects says.
pub open spec fn object_views(objects: Seq<SchemaObject>) -> Seq<ObjectView> {
    objects.map_values(|o: SchemaObject| o@)
}

/// The text of a cell, or an error that names what the cell should have been.
pub open spec fn cell_text(cell: ValueView, label: Seq<char>) -> Result<Seq<char>, ErrorView> {
    match cell {
        ValueView::Text(s) => Ok(s),
        _ => Err(keywords::unsupported_schema("SQLite "@ + label + " is not text"@)),
    }
}

/// The object that a row of the schema table describes.
pub open spec fn object_of(row: Seq<ValueView>) -> Result<ObjectView, ErrorView> {
    if row.len() != 5 {
        Err(bytes::corrupted("SQLite schema row has an unexpected column count"@))
    } else {
        match cell_text(row[0], "schema type"@) {
            Err(e) => Err(e),
            Ok(kind) => match cell_text(row[1], "schema name"@) {
                Err(e) => Err(e),
                Ok(name) => match row[3] {
                    ValueView::Number(n) => match n.integer() {
                        None => Err(no_root_page(name)),
                        Some(root) => if root < 0 || root > u32::MAX {
                            Err(
                                bytes::corrupted(
                                    "invalid root page for SQLite object "@ + name,
                                ),
                            )
                        } else if row[4] is Null {
                            Ok(ObjectView { kind, name, root_page: root as u32, sql: None })
                        } else {
                            match cell_text(row[4], "schema SQL"@) {
                                Err(e) => Err(e),
                                Ok(sql) => Ok(
                                    ObjectView {
                                        kind,
                                        name,
                                        root_page: root as u32,
                                        sql: Some(sql),
                                    },
                                ),
                            }
                        },
                    },
                    _ => Err(no_root_page(name)),
                },
            },
        }
    }
}

/// The error for an object without a root page.
pub open spec fn no_root_page(name: Seq<char>) -> ErrorView {
    keywords::unsupported_schema("SQLite object "@ + name + " has no root page"@)
}

/// The objects that rows of the schema table describe.
pub open spec fn objects_of(rows: Seq<TableRow>) -> Result<Seq<ObjectView>, ErrorView>
    decreases rows.len(),
{
    if rows.len() == 0 {
        Ok(Seq::empty())
    } else {
        match object_of(rows[0].values) {
            Err(e) => Err(e),
            Ok(object) => match objects_of(rows.drop_first()) {
                Err(e) => Err(e),
                Ok(rest) => Ok(seq![object] + rest),
            },
        }
    }
}

/// Objects in order of name with one more object, behind those of its name.
pub open spec fn inserted(sorted: Seq<ObjectView>, object: ObjectView) -> Seq<ObjectView>
    decreases sorted.len(),
{
    if sorted.len() == 0 || text::text_le(sorted.last().name, object.name) {
        sorted.push(object)
    } else {
        inserted(sorted.drop_last(), object).push(sorted.last())
    }
}

/// Objects in order of name; those of one name stay in their order.
pub open spec fn sorted_by_name(objects: Seq<ObjectView>) -> Seq<ObjectView>
    decreases objects.len(),
{
    if objects.len() == 0 {
        Seq::empty()
    } else {
        inserted(sorted_by_name(objects.drop_last()), objects.last())
    }
}

/// Whether objects stand in order of name.
pub open spec fn in_order(objects: Seq<ObjectView>) -> bool {
    forall|i: int, j: int|
        0 <= i <= j < objects.len() ==> text::text_le(
            (#[trigger] objects[i]).name,
            (#[trigger] objects[j]).name,
        )
}

proof fn lemma_inserted(sorted: Seq<ObjectView>, object: ObjectView)
    requires
        in_order(sorted),
    ensures
        in_order(inserted(sorted, object)),
        inserted(sorted, object).len() == sorted.len() + 1,
        inserted(sorted, object).to_multiset() =~= sorted.to_multiset().insert(object),
        inserted(sorted, object).last() == object || (sorted.len() > 0 && inserted(
            sorted,
            object,
        ).last() == sorted.last()),
    decreases sorted.len(),
{
    broadcast use vstd::seq_lib::group_to_multiset_ensures;

    text::lemma_bytes_le_total(text::utf8(object.name), text::utf8(object.name));
    if sorted.len() == 0 || text::text_le(sorted.last().name, object.name) {
        let all = sorted.push(object);
        assert forall|i: int, j: int| 0 <= i <= j < all.len() implies text::text_le(
            (#[trigger] all[i]).name,
            (#[trigger] all[j]).name,
        ) by {
            if j == sorted.len() && i < sorted.len() {
                assert(text::text_le(sorted[i].name, sorted.last().name));
                text::lemma_bytes_le_transitive(
                    text::utf8(sorted[i].name),
                    text::utf8(sorted.last().name),
                    text::utf8(object.name),
                );
            }
        }
    } else {
        let head = sorted.drop_last();
        lemma_inserted(head, object);
        let rest = inserted(head, object);
        let all = rest.push(sorted.last());
        text::lemma_bytes_le_total(text::utf8(sorted.last().name), text::utf8(object.name));
        assert forall|i: int, j: int| 0 <= i <= j < all.len() implies text::text_le(
            (#[trigger] all[i]).name,
            (#[trigger] all[j]).name,
        ) by {
            if j == rest.len() && i < rest.len() {
                assert(text::text_le(rest[i].name, rest.last().name));
                if rest.last() == object {
                    text::lemma_bytes_le_transitive(
                        text::utf8(rest[i].name),
                        text::utf8(object.name),
                        text::utf8(sorted.last().name),
                    );
                } else {
                    assert(head.last() == sorted[sorted.len() - 2]);
                    assert(text::text_le(head.last().name, sorted.last().name));
                    text::lemma_bytes_le_transitive(
                        text::utf8(rest[i].name),
                        text::utf8(head.last().name),
                        text::utf8(sorted.last().name),
                    );
                }
            } else if i == rest.len() {
                text::lemma_bytes_le_total(
                    text::utf8(sorted.last().name),
                    text::utf8(sorted.last().name),
                );
            }
        }
        assert(sorted =~= head.push(sorted.last()));
        assert(all.to_multiset() =~= sorted.to_multiset().insert(object));
    }
}

/// Sorting puts the objects in order of name, and neither loses nor adds one.
pub proof fn lemma_sorted_by_name(objects: Seq<ObjectView>)
    ensures
        in_order(sorted_by_name(objects)),
        sorted_by_name(objects).to_multiset() =~= objects.to_multiset(),
    decreases objects.len(),
{
    broadcast use vstd::seq_lib::group_to_multiset_ensures;

    if objects.len() > 0 {
        lemma_sorted_by_name(objects.drop_last());
        lemma_inserted(sorted_by_name(objects.drop_last()), objects.last());
        assert(objects =~= objects.drop_last().push(objects.last()));
    }
}

impl FileView {
    /// The schema objects of a database file, in order of name.
    pub open spec fn schema_objects(self) -> Result<Seq<ObjectView>, ErrorView> {
        match self.table_rows(1) {
            Err(e) => Err(e),
            Ok(rows) => match objects_of(rows) {
                Err(e) => Err(e),
                Ok(objects) => Ok(sorted_by_name(objects)),
            },
        }
    }
}

fn json_text(value: &Value, label: &str) -> (r: Result<String, DactylError>)
    ensures
        match cell_text(value@, label@) {
            Ok(s) => r is Ok && r->Ok_0@ == s,
            Err(e) => r is Err && r->Err_0@ == e,
        },
{
    match value {
        Value::Text(s) => Ok(s.clone()),
        _ => Err(
            keywords::unsupported(
                "SQLite ".to_string().concat(label).concat(" is not text").as_str(),
            ),
        ),
    }
}

fn missing_root(name: &str) -> (r: DactylError)
    ensures
        r@ == no_root_page(name@),
{
    keywords::unsupported(
        "SQLite object ".to_string().concat(name).concat(" has no root page").as_str(),
    )
}

fn read_object(row: &Vec<Value>) -> (r: Result<SchemaObject, DactylError>)
    ensures
        match object_of(crate::value::value_views(row@)) {
            Ok(object) => r is Ok && r->Ok_0@ == object,
            Err(e) => r is Err && r->Err_0@ == e,
        },
{
    if row.len() != 5 {
        return Err(bytes::corrupt("SQLite schema row has an unexpected column count"));
    }
    let ghost cells = crate::value::value_views(row@);
    assert(cells[0] == row@[0]@ && cells[1] == row@[1]@ && cells[3] == row@[3]@ && cells[4]
        == row@[4]@);
    let kind: String = match json_text(&row[0], "schema type") {
        Ok(kind) => kind,
        Err(e) => {
            return Err(e);
        },
    };
    let name: String = match json_text(&row[1], "schema name") {
        Ok(name) => name,
        Err(e) => {
            return Err(e);
        },
    };
    let root: i64 = match &row[3] {
        Value::Number(n) => match n.as_i64() {
            Some(root) => root,
            None => {
                return Err(missing_root(name.as_str()));
            },
        },
        _ => {
            return Err(missing_root(name.as_str()));
        },
    };
    if root < 0 || root > u32::MAX as i64 {
        return Err(
            bytes::corrupt(
                "invalid root page for SQLite object ".to_string().concat(name.as_str()).as_str(),
            ),
        );
    }
    let sql: Option<String> = if row[4].is_null() {
        None
    } else {
        match json_text(&row[4], "schema SQL") {
            Ok(sql) => Some(sql),
            Err(e) => {
                return Err(e);
            },
        }
    };
    Ok(SchemaObject { kind, name, root_page: root as u32, sql })
}

proof fn lemma_inserted_at(sorted: Seq<ObjectView>, object: ObjectView, k: int)
    requires
        0 <= k <= sorted.len(),
        k == 0 || text::text_le(sorted[k - 1].name, object.name),
        forall|j: int| k <= j < sorted.len() ==> !text::text_le((#[trigger] sorted[j]).name, object.name),
    ensures
        inserted(sorted, object) == sorted.insert(k, object),
    decreases sorted.len(),
{
    if sorted.len() == k {
        assert(sorted.insert(k, object) =~= sorted.push(object));
    } else {
        let head = sorted.drop_last();
        lemma_inserted_at(head, object, k);
        assert(head.insert(k, object).push(sorted.last()) =~= sorted.insert(k, object));
    }
}

fn insert_by_name(sorted: &mut Vec<SchemaObject>, object: SchemaObject)
    ensures
        object_views(final(sorted)@) == inserted(object_views(old(sorted)@), object@),
{
    let ghost before = object_views(sorted@);
    let mut k: usize = sorted.len();
    while k > 0 && !text::str_le(sorted[k - 1].name.as_str(), object.name.as_str())
        invariant
            k <= sorted@.len(),
            before == object_views(sorted@),
            forall|j: int|
                k <= j < before.len() ==> !text::text_le((#[trigger] before[j]).name, object@.name),
        decreases k,
    {
        assert(before[k - 1] == sorted@[k - 1]@);
        k = k - 1;
    }
    proof {
        if k > 0 {
            assert(before[k - 1] == sorted@[k - 1]@);
        }
        lemma_inserted_at(before, object@, k as int);
        assert(object_views(sorted@.insert(k as int, object)) =~= before.insert(
            k as int,
            object@,
        ));
    }
    sorted.insert(k, object);
}

impl SqliteReader {
    /// The schema objects of the file, in order of name.
    pub fn schema_objects(&self) -> (r: Result<Vec<SchemaObject>, DactylError>)
        ensures
            match self@.schema_objects() {
                Ok(objects) => r is Ok && object_views(r->Ok_0@) == objects,
                Err(e) => r is Err && r->Err_0@ == e,
            },
    {
        let rows = match self.table_rows(1) {
            Ok(rows) => rows,
            Err(e) => {
                return Err(e);
            },
        };
        let ghost all = crate::sqlite::reader::table_row_views(rows@);
        let ghost whole = objects_of(all);
        let mut sorted: Vec<SchemaObject> = Vec::new();
        let ghost mut found: Seq<ObjectView> = Seq::empty();
        let mut i: usize = 0;
        proof {
            assert(all.skip(0) =~= all);
            assert(object_views(sorted@) =~= sorted_by_name(found));
            if whole is Ok {
                assert(found + whole->Ok_0 =~= whole->Ok_0);
            }
        }
        while i < rows.len()
            invariant
                i <= rows@.len(),
                all == crate::sqlite::reader::table_row_views(rows@),
                self@.table_rows(1) == Ok::<Seq<TableRow>, ErrorView>(all),
                whole == objects_of(all),
                object_views(sorted@) == sorted_by_name(found),
                match objects_of(all.skip(i as int)) {
                    Ok(rest) => whole == Ok::<Seq<ObjectView>, ErrorView>(found + rest),
                    Err(e) => whole == Err::<Seq<ObjectView>, ErrorView>(e),
                },
            decreases rows@.len() - i,
        {
            proof {
                assert(all.skip(i as int)[0].values == crate::value::value_views(
                    rows@[i as int].1@,
                ));
                assert(all.skip(i as int).drop_first() =~= all.skip(i + 1));
            }
            match read_object(&rows[i].1) {
                Ok(object) => {
                    proof {
                        let rest = objects_of(all.skip(i + 1));
                        if rest is Ok {
                            assert(found.push(object@) + rest->Ok_0 =~= found + (seq![object@]
                                + rest->Ok_0));
                        }
                        assert(found.push(object@).drop_last() =~= found);
                        found = found.push(object@);
                    }
                    insert_by_name(&mut sorted, object);
                },
                Err(e) => {
                    return Err(e);
                },
            }
            i = i + 1;
        }
        assert(found + Seq::<ObjectView>::empty() =~= found);
        Ok(sorted)
    }
}

// ---------------------------------------------------------------------------
// Objects that cannot be imported
// ---------------------------------------------------------------------------

/// Why an object cannot be imported, if it cannot: only tables and indexes
/// can.
pub open spec fn object_fault(object: ObjectView) -> Option<ErrorView> {
    if object.kind == "view"@ || object.kind == "trigger"@ {
        Some(
            keywords::unsupported_schema(
                object.kind + " "@ + object.name + " cannot be imported"@,
            ),
        )
    } else if object.kind != "table"@ && object.kind != "index"@ {
        Some(
            keywords::unsupported_schema(
                "unsupported SQLite object "@ + object.kind + " "@ + object.name,
            ),
        )
    } else {
        None
    }
}

/// Why the first unfit object cannot be imported.
pub open spec fn objects_fault(objects: Seq<ObjectView>) -> Option<ErrorView>
    decreases objects.len(),
{
    if objects.len() == 0 {
        None
    } else if object_fault(objects[0]) is Some {
        object_fault(objects[0])
    } else {
        objects_fault(objects.drop_first())
    }
}

/// Refuse a schema with an object other than tables and indexes.
pub fn reject_unsupported_objects(objects: &[SchemaObject]) -> (r: Result<(), DactylError>)
    ensures
        match objects_fault(object_views(objects@)) {
            Some(e) => r is Err && r->Err_0@ == e,
            None => r is Ok,
        },
{
    let ghost all = object_views(objects@);
    let mut i: usize = 0;
    assert(all.skip(0) =~= all);
    while i < objects.len()
        invariant
            i <= objects@.len(),
            all == object_views(objects@),
            objects_fault(all) == objects_fault(all.skip(i as int)),
        decreases objects@.len() - i,
    {
        let object = &objects[i];
        proof {
            assert(all.skip(i as int)[0] == object@);
            assert(all.skip(i as int).drop_first() =~= all.skip(i + 1));
        }
        if text::str_eq(object.kind.as_str(), "view") || text::str_eq(
            object.kind.as_str(),
            "trigger",
        ) {
            return Err(
                keywords::unsupported(
                    object.kind.clone().concat(" ").concat(object.name.as_str()).concat(
                        " cannot be imported",
                    ).as_str(),
                ),
            );
        }
        if !text::str_eq(object.kind.as_str(), "table") && !text::str_eq(
            object.kind.as_str(),
            "index",
        ) {
            return Err(
                keywords::unsupported(
                    "unsupported SQLite object ".to_string().concat(object.kind.as_str()).concat(
                        " ",
                    ).concat(object.name.as_str()).as_str(),
                ),
            );
        }
        i = i + 1;
    }
    Ok(())
}

// ---------------------------------------------------------------------------
// What the catalog is for
// ---------------------------------------------------------------------------

/// What a row of the schema table says: of its five cells, the first two are
/// the texts of kind and name, the fourth is the number of the root page, and
/// the fifth is the statement, or null. Any other row is refused.
pub proof fn lemma_schema_rows(row: Seq<ValueView>)
    ensures
        object_of(row) is Ok <==> (row.len() == 5 && row[0] is Text && row[1] is Text
            && match row[3] {
            ValueView::Number(crate::value::Number::PosInt(n)) => n <= 0xffff_ffff,
            ValueView::Number(crate::value::Number::NegInt(n)) => 0 <= n <= 0xffff_ffff,
            _ => false,
        } && (row[4] is Text || row[4] is Null)),
        object_of(row) is Ok ==> {
            let o = object_of(row)->Ok_0;
            &&& o.kind == row[0]->Text_0
            &&& o.name == row[1]->Text_0
            &&& match row[3]->Number_0 {
                crate::value::Number::PosInt(n) => o.root_page == n,
                crate::value::Number::NegInt(n) => o.root_page == n,
                _ => false,
            }
            &&& row[4] is Null ==> o.sql is None
            &&& row[4] is Text ==> o.sql == Some(row[4]->Text_0)
        },
        object_of(row) is Err ==> object_of(row)->Err_0.code() == Some("corrupt_input"@)
            || object_of(row)->Err_0.code() == Some("unsupported_schema"@),
{
}

/// The objects of a schema are its rows, one for one; one that cannot be read
/// fails the schema.
pub proof fn lemma_objects_one_for_one(rows: Seq<TableRow>)
    ensures
        objects_of(rows) is Ok <==> forall|i: int|
            0 <= i < rows.len() ==> object_of((#[trigger] rows[i]).values) is Ok,
        objects_of(rows) is Ok ==> objects_of(rows)->Ok_0.len() == rows.len(),
        objects_of(rows) is Ok ==> forall|i: int|
            0 <= i < rows.len() ==> object_of((#[trigger] rows[i]).values) == Ok::<
                ObjectView,
                ErrorView,
            >(objects_of(rows)->Ok_0[i]),
    decreases rows.len(),
{
    if rows.len() > 0 {
        let rest = rows.drop_first();
        lemma_objects_one_for_one(rest);
        if objects_of(rows) is Ok {
            assert forall|i: int| 0 <= i < rows.len() implies object_of((#[trigger] rows[i]).values)
                == Ok::<ObjectView, ErrorView>(objects_of(rows)->Ok_0[i]) by {
                if i > 0 {
                    assert(rest[i - 1] == rows[i]);
                }
            }
        } else if object_of(rows[0].values) is Ok {
            let i = choose|i: int|
                0 <= i < rest.len() && !(object_of((#[trigger] rest[i]).values) is Ok);
            assert(rows[i + 1] == rest[i]);
        }
    }
}

/// The schema of a file is what its first page's table holds, in order of
/// name.
pub proof fn lemma_schema_is_on_the_first_page(file: FileView)
    ensures
        file.schema_objects() is Ok <==> file.table_rows(1) is Ok && objects_of(
            file.table_rows(1)->Ok_0,
        ) is Ok,
        file.schema_objects() is Ok ==> in_order(file.schema_objects()->Ok_0)
            && file.schema_objects()->Ok_0.to_multiset() =~= objects_of(
            file.table_rows(1)->Ok_0,
        )->Ok_0.to_multiset(),
{
    if file.table_rows(1) is Ok && objects_of(file.table_rows(1)->Ok_0) is Ok {
        lemma_sorted_by_name(objects_of(file.table_rows(1)->Ok_0)->Ok_0);
    }
}

/// Only tables and indexes can be imported: a schema is refused exactly where
/// it holds anything else, and for the first such object.
pub proof fn lemma_importable_objects(objects: Seq<ObjectView>)
    ensures
        objects_fault(objects) is None <==> forall|i: int|
            0 <= i < objects.len() ==> (#[trigger] objects[i]).kind == "table"@ || objects[i].kind
                == "index"@,
        objects_fault(objects) is Some ==> objects_fault(objects)->Some_0.code() == Some(
            "unsupported_schema"@,
        ) && objects_fault(objects)->Some_0.kind() == Some(
            crate::error::AdapterErrorKind::Capability,
        ),
    decreases objects.len(),
{
    reveal_strlit("table");
    reveal_strlit("index");
    reveal_strlit("view");
    reveal_strlit("trigger");
    assert("table"@.len() == 5 && "index"@.len() == 5 && "view"@.len() == 4 && "trigger"@.len()
        == 7);
    if objects.len() > 0 {
        let rest = objects.drop_first();
        lemma_importable_objects(rest);
        if objects_fault(objects) is None {
            assert forall|i: int| 0 <= i < objects.len() implies (#[trigger] objects[i]).kind
                == "table"@ || objects[i].kind == "index"@ by {
                if i > 0 {
                    assert(rest[i - 1] == objects[i]);
                }
            }
        } else if object_fault(objects[0]) is None {
            let i = choose|i: int|
                0 <= i < rest.len() && !((#[trigger] rest[i]).kind == "table"@ || rest[i].kind
                    == "index"@);
            assert(objects[i + 1] == rest[i]);
        }
    }
}

/// What is said of an object that cannot be imported: views and triggers by
/// what they are, and whatever else is no table and no index as unsupported.
pub proof fn lemma_refused_objects(object: ObjectView)
    ensures
        object_fault(object) is None <==> object.kind == "table"@ || object.kind == "index"@,
        object.kind == "view"@ || object.kind == "trigger"@ ==> object_fault(object) == Some(
            keywords::unsupported_schema(
                object.kind + " "@ + object.name + " cannot be imported"@,
            ),
        ),
        object.kind != "view"@ && object.kind != "trigger"@ && object.kind != "table"@
            && object.kind != "index"@ ==> object_fault(object) == Some(
            keywords::unsupported_schema(
                "unsupported SQLite object "@ + object.kind + " "@ + object.name,
            ),
        ),
{
    reveal_strlit("table");
    reveal_strlit("index");
    reveal_strlit("view");
    reveal_strlit("trigger");
    assert("table"@.len() == 5 && "index"@.len() == 5 && "view"@.len() == 4 && "trigger"@.len()
        == 7);
}

} // verus!
