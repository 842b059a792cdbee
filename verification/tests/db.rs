use tabletool::bytepack::{BytePacker, Timestamp, Ulid};
use tabletool::db::entries::IndexKey;
use tabletool::db::{Db, DbError, IndexBound, RegisterErr};
use tabletool::db_core::defs::table::{TableData, TableDef, TableFieldDef};
use tabletool::db_core::defs::trigger::{DbTrigger, TriggerAction};
use tabletool::db_core::expr::{BinaryOp, CompareOp, Expr, LogicOp, MathOp, TyCtx};
use tabletool::db_core::named::Named;
use tabletool::db_core::query::{Query, QueryResult};
use tabletool::db_core::record::RecordBytes;
use tabletool::db_core::ty::{FieldTy, Ty};
use tabletool::query_parse::parse;
use tabletool::db_core::value::{FieldValue, Value};

fn field(name: &str, ty: FieldTy, has_index: bool) -> Named<TableFieldDef> {
    Named::new(name, TableFieldDef { ty, has_index })
}

fn table(name: &str, fields: Vec<Named<TableFieldDef>>) -> Named<TableDef> {
    Named::new(name, TableDef { fields, main_display_field: None })
}

fn reference(to: &str) -> FieldTy {
    FieldTy::RecordId { table_name: to.into() }
}

fn record(db: &Db, table: &str, id: u128, values: &[FieldValue]) -> RecordBytes {
    let data: TableData = db.table(table).unwrap();
    let mut packer = BytePacker::new(data.fixed_byte_count());
    for (field, value) in data.fields().iter().zip(values.iter()) {
        value.pack(field.value.offset, &mut packer);
    }
    RecordBytes::new(Ulid(id), packer.finish())
}

fn id_of(table: &str, id: u128) -> FieldValue {
    FieldValue::RecordId { id: Ulid(id), table_name: table.into() }
}

fn ids(db: &Db, table: &str) -> Vec<u128> {
    db.get_all(table).unwrap().iter().map(|r| r.id().0).collect()
}

fn unbounded() -> IndexBound {
    IndexBound::Unbounded
}

fn groups_and_items() -> Db {
    let mut db = Db::new();
    db.register_table(table("group", vec![field("name", FieldTy::Text, false)])).unwrap();
    db.register_table(table("item", vec![field("group", reference("group"), false)])).unwrap();
    db
}

#[test]
fn insert_and_get_all() {
    let mut db = Db::new();
    db.register_table(table("user", vec![field("name", FieldTy::Text, false)])).unwrap();
    let ann = record(&db, "user", 1, &[FieldValue::Text("Ann".into())]);
    db.insert_record("user", &ann).unwrap();
    let all = db.get_all("user").unwrap();
    assert_eq!(all.len(), 1);
    let data = db.table("user").unwrap();
    assert_eq!(all[0].get_field(data.field("name").unwrap()), Some(FieldValue::Text("Ann".into())));
    assert_eq!(db.get("user", Ulid(1)), Some(ann));
    assert_eq!(db.get("user", Ulid(2)), None);
    assert_eq!(db.get("nope", Ulid(1)), None);
    assert!(db.get_all("nope").is_none());
    assert!(db.has_record("user", Ulid(1)));
    assert!(!db.has_record("user", Ulid(2)));
}

#[test]
fn deleting_a_group_deletes_its_items() {
    let mut db = groups_and_items();
    db.insert_record("group", &record(&db, "group", 1, &[FieldValue::Text("g".into())])).unwrap();
    db.insert_record("item", &record(&db, "item", 10, &[id_of("group", 1)])).unwrap();
    assert_eq!(ids(&db, "item"), vec![10]);
    db.delete_record("group", Ulid(1)).unwrap();
    assert_eq!(ids(&db, "group"), Vec::<u128>::new());
    assert_eq!(ids(&db, "item"), Vec::<u128>::new());
    assert_eq!(db.index_query("#item:group", &unbounded(), &unbounded()), Ok(vec![]));
}

#[test]
fn records_come_in_the_order_of_their_identifiers() {
    let mut db = Db::new();
    db.register_table(table("user", vec![field("name", FieldTy::Text, false)])).unwrap();
    for id in [5, 1, 9, 3] {
        db.insert_record("user", &record(&db, "user", id, &[FieldValue::Text("x".into())])).unwrap();
    }
    assert_eq!(ids(&db, "user"), vec![1, 3, 5, 9]);
    db.delete_record("user", Ulid(5)).unwrap();
    assert_eq!(ids(&db, "user"), vec![1, 3, 9]);
}

#[test]
fn inserted_references_are_indexed_and_deleted_ones_are_not() {
    let mut db = groups_and_items();
    db.insert_record("group", &record(&db, "group", 1, &[FieldValue::Text("g".into())])).unwrap();
    db.insert_record("group", &record(&db, "group", 2, &[FieldValue::Text("h".into())])).unwrap();
    db.insert_record("item", &record(&db, "item", 10, &[id_of("group", 2)])).unwrap();
    db.insert_record("item", &record(&db, "item", 11, &[id_of("group", 1)])).unwrap();
    db.insert_record("item", &record(&db, "item", 12, &[id_of("group", 1)])).unwrap();
    assert_eq!(
        db.index_query("#item:group", &unbounded(), &unbounded()),
        Ok(vec![
            (id_of("group", 1), Ulid(11)),
            (id_of("group", 1), Ulid(12)),
            (id_of("group", 2), Ulid(10)),
        ])
    );
    db.delete_record("item", Ulid(11)).unwrap();
    assert_eq!(
        db.index_query("#item:group", &unbounded(), &unbounded()),
        Ok(vec![(id_of("group", 1), Ulid(12)), (id_of("group", 2), Ulid(10))])
    );
    // Bounds do not narrow a lookup through references.
    assert_eq!(
        db.index_query("#item:group", &IndexBound::Included(id_of("group", 2)), &unbounded())
            .map(|found| found.len()),
        Ok(2)
    );
}

#[test]
fn cascades_go_on_through_every_reference() {
    let mut db = groups_and_items();
    db.register_table(table("part", vec![field("item", reference("item"), false)])).unwrap();
    db.register_table(table("note", vec![field("part", reference("part"), false)])).unwrap();
    db.insert_record("group", &record(&db, "group", 1, &[FieldValue::Text("g".into())])).unwrap();
    db.insert_record("group", &record(&db, "group", 2, &[FieldValue::Text("h".into())])).unwrap();
    for (id, group) in [(10, 1), (11, 1), (12, 2)] {
        db.insert_record("item", &record(&db, "item", id, &[id_of("group", group)])).unwrap();
    }
    for (id, item) in [(20, 10), (21, 11), (22, 12), (23, 12)] {
        db.insert_record("part", &record(&db, "part", id, &[id_of("item", item)])).unwrap();
    }
    for (id, part) in [(30, 20), (31, 22)] {
        db.insert_record("note", &record(&db, "note", id, &[id_of("part", part)])).unwrap();
    }
    db.delete_record("group", Ulid(1)).unwrap();
    assert_eq!(ids(&db, "group"), vec![2]);
    assert_eq!(ids(&db, "item"), vec![12]);
    assert_eq!(ids(&db, "part"), vec![22, 23]);
    assert_eq!(ids(&db, "note"), vec![31]);
    assert_eq!(
        db.index_query("#part:item", &unbounded(), &unbounded()),
        Ok(vec![(id_of("item", 12), Ulid(22)), (id_of("item", 12), Ulid(23))])
    );
}

#[test]
fn cascades_end_where_references_go_in_circles() {
    let mut db = Db::new();
    db.register_table(table("a", vec![field("b", reference("b"), false)])).unwrap();
    db.register_table(table("b", vec![field("a", reference("a"), false)])).unwrap();
    db.register_table(table("node", vec![field("next", reference("node"), false)])).unwrap();
    // A record may refer to itself.
    db.insert_record("node", &record(&db, "node", 1, &[id_of("node", 1)])).unwrap();
    db.insert_record("node", &record(&db, "node", 2, &[id_of("node", 1)])).unwrap();
    db.insert_record("node", &record(&db, "node", 3, &[id_of("node", 2)])).unwrap();
    db.insert_record("node", &record(&db, "node", 4, &[id_of("node", 4)])).unwrap();
    db.delete_record("node", Ulid(2)).unwrap();
    assert_eq!(ids(&db, "node"), vec![1, 4]);
    db.delete_record("node", Ulid(1)).unwrap();
    assert_eq!(ids(&db, "node"), vec![4]);
    db.delete_record("node", Ulid(4)).unwrap();
    assert_eq!(ids(&db, "node"), Vec::<u128>::new());
    assert_eq!(db.index_query("#node:next", &unbounded(), &unbounded()), Ok(vec![]));
}

#[test]
fn a_reference_to_nothing_is_refused() {
    let mut db = groups_and_items();
    db.insert_record("group", &record(&db, "group", 1, &[FieldValue::Text("g".into())])).unwrap();
    let dangling = record(&db, "item", 10, &[id_of("group", 7)]);
    assert_eq!(
        db.insert_record("item", &dangling),
        Err(DbError::RecordDoesNotExist { table: "group".into(), record: Ulid(7) })
    );
    assert_eq!(db.get("item", Ulid(10)), None);
    assert_eq!(ids(&db, "item"), Vec::<u128>::new());
    assert_eq!(db.index_query("#item:group", &unbounded(), &unbounded()), Ok(vec![]));
}

#[test]
fn a_refused_insert_leaves_earlier_indices_alone() {
    let mut db = Db::new();
    db.register_table(table("group", vec![field("name", FieldTy::Text, false)])).unwrap();
    db.register_table(table(
        "item",
        vec![field("at", FieldTy::Timestamp, true), field("group", reference("group"), false)],
    ))
    .unwrap();
    let dangling = record(&db, "item", 10, &[FieldValue::Timestamp(Timestamp(5)), id_of("group", 7)]);
    assert!(db.insert_record("item", &dangling).is_err());
    assert_eq!(db.index_query("#item:at", &unbounded(), &unbounded()), Ok(vec![]));
    assert_eq!(ids(&db, "item"), Vec::<u128>::new());
}

#[test]
fn store_errors() {
    let mut db = groups_and_items();
    let g = record(&db, "group", 1, &[FieldValue::Text("g".into())]);
    assert_eq!(
        db.insert_record("nope", &g),
        Err(DbError::TableDoesNotExist { table: "nope".into() })
    );
    db.insert_record("group", &g).unwrap();
    assert_eq!(
        db.insert_record("group", &g),
        Err(DbError::RecordAlreadyExists { table: "group".into(), record: Ulid(1) })
    );
    assert_eq!(
        db.delete_record("group", Ulid(2)),
        Err(DbError::RecordDoesNotExist { table: "group".into(), record: Ulid(2) })
    );
    assert_eq!(
        db.delete_record("nope", Ulid(1)),
        Err(DbError::TableDoesNotExist { table: "nope".into() })
    );
    // A record too short to hold the referring field.
    assert_eq!(
        db.insert_record("item", &RecordBytes::new(Ulid(5), vec![0; 3])),
        Err(DbError::WrongType { expected: reference("group") })
    );
    assert_eq!(
        db.index_query("#nope:x", &unbounded(), &unbounded()),
        Err(DbError::TableDoesNotExist { table: "#nope:x".into() })
    );
    assert_eq!(ids(&db, "group"), vec![1]);
}

#[test]
fn lookups_by_a_field_without_key_are_refused() {
    let mut db = Db::new();
    for ty in [FieldTy::IntI32, FieldTy::Bool, FieldTy::Text] {
        assert_eq!(
            db.register_table(table("user", vec![field("x", ty, true)])),
            Err(RegisterErr::IndexWithoutKey)
        );
    }
    assert_eq!(db.table_names(), Vec::<String>::new());
    assert_eq!(db.register_table(table("user", vec![field("age", FieldTy::IntI32, false)])), Ok(()));
    assert_eq!(
        db.register_table(table("log", vec![field("user", reference("user"), true)])),
        Ok(())
    );
}

#[test]
fn table_names_come_in_ascending_order() {
    let mut db = Db::new();
    for name in ["b", "a", "ab", "", "B", "zz", "z"] {
        db.register_table(table(name, vec![field("x", FieldTy::Bool, false)])).unwrap();
    }
    assert_eq!(db.table_names(), vec!["", "B", "a", "ab", "b", "z", "zz"]);
    db.delete_table("ab");
    assert_eq!(db.table_names(), vec!["", "B", "a", "b", "z", "zz"]);
}

#[test]
fn lookups_by_time() {
    let mut db = Db::new();
    db.register_table(table("log", vec![field("at", FieldTy::Timestamp, true)])).unwrap();
    for (id, at) in [(1, 30), (2, 10), (3, 20), (4, 20)] {
        db.insert_record("log", &record(&db, "log", id, &[FieldValue::Timestamp(Timestamp(at))])).unwrap();
    }
    let at = |secs| FieldValue::Timestamp(Timestamp(secs));
    let query = |min: IndexBound, max: IndexBound| {
        db.index_query("#log:at", &min, &max)
            .unwrap()
            .into_iter()
            .map(|(_, id)| id.0)
            .collect::<Vec<_>>()
    };
    assert_eq!(query(unbounded(), unbounded()), vec![2, 3, 4, 1]);
    assert_eq!(query(IndexBound::Included(at(20)), unbounded()), vec![3, 4, 1]);
    assert_eq!(query(IndexBound::Excluded(at(20)), unbounded()), vec![1]);
    assert_eq!(query(unbounded(), IndexBound::Included(at(20))), vec![2, 3, 4]);
    assert_eq!(query(unbounded(), IndexBound::Excluded(at(20))), vec![2]);
    assert_eq!(query(IndexBound::Included(at(15)), IndexBound::Excluded(at(30))), vec![3, 4]);
    assert_eq!(
        db.index_query("#log:at", &unbounded(), &unbounded()).unwrap()[0],
        (at(10), Ulid(2))
    );
    assert_eq!(
        db.index_query("#log:at", &IndexBound::Included(FieldValue::Int(3)), &unbounded()),
        Err(DbError::WrongType { expected: FieldTy::Timestamp })
    );
    assert_eq!(
        db.index_query("#log:at", &unbounded(), &IndexBound::Excluded(FieldValue::Bool(true))),
        Err(DbError::WrongType { expected: FieldTy::Timestamp })
    );
}

#[test]
fn registering_tables() {
    let mut db = Db::new();
    let users = || table("user", vec![field("name", FieldTy::Text, false)]);
    assert_eq!(db.register_table(users()), Ok(()));
    // The same definition again changes nothing.
    db.insert_record("user", &record(&db, "user", 1, &[FieldValue::Text("Ann".into())])).unwrap();
    assert_eq!(db.register_table(users()), Ok(()));
    assert_eq!(ids(&db, "user"), vec![1]);
    // Another definition under the same name is refused.
    assert_eq!(
        db.register_table(table("user", vec![field("name", FieldTy::Bool, false)])),
        Err(RegisterErr::TableExists)
    );
    // Two fields of one name are refused.
    assert_eq!(
        db.register_table(table(
            "twice",
            vec![field("at", FieldTy::Timestamp, true), field("at", FieldTy::Bool, false)]
        )),
        Err(RegisterErr::DuplicateFieldName)
    );
    // Two indices of one name are refused.
    db.register_table(table("a:b", vec![field("c", FieldTy::Timestamp, true)])).unwrap();
    assert_eq!(
        db.register_table(table("a", vec![field("b:c", FieldTy::Timestamp, true)])),
        Err(RegisterErr::IndexNameTaken)
    );
    assert_eq!(db.table_names(), vec!["a:b".to_owned(), "user".to_owned()]);
    assert!(db.table("a").is_none());
    assert_eq!(db.table("user").unwrap().fields().len(), 1);
}

#[test]
fn deleting_tables() {
    let mut db = groups_and_items();
    db.insert_record("group", &record(&db, "group", 1, &[FieldValue::Text("g".into())])).unwrap();
    db.insert_record("item", &record(&db, "item", 10, &[id_of("group", 1)])).unwrap();
    assert!(!db.delete_table("nope"));
    assert!(db.delete_table("item"));
    assert_eq!(db.table_names(), vec!["group".to_owned()]);
    assert!(db.get_all("item").is_none());
    assert!(db.index_query("#item:group", &unbounded(), &unbounded()).is_err());
    // Nothing refers to the group any more.
    db.delete_record("group", Ulid(1)).unwrap();
    // A table that comes back is empty.
    db.register_table(table("item", vec![field("group", reference("group"), false)])).unwrap();
    assert_eq!(ids(&db, "item"), Vec::<u128>::new());
}

#[test]
fn triggers_and_indices_follow_the_schema() {
    let db = groups_and_items();
    let index: String = "#item:group".into();
    assert_eq!(
        db.tables.triggers("item"),
        vec![
            DbTrigger::OnInsert(TriggerAction::InsertIntoIndex { index_name: index.clone() }),
            DbTrigger::OnDelete(TriggerAction::DeleteValueFromIndex { index_name: index.clone() }),
        ]
    );
    assert_eq!(
        db.tables.triggers("group"),
        vec![DbTrigger::OnDelete(TriggerAction::DeleteKeyFromIndex { index_name: index.clone() })]
    );
    assert_eq!(db.tables.triggers("nope"), vec![]);
    let indices = db.tables.indices();
    assert_eq!(indices.len(), 1);
    assert_eq!(indices[0].index_name, index);
    assert_eq!(db.locate_index("#item:group"), Some((1, 0)));
    assert_eq!(db.locate_index("#item:nope"), None);
}

fn people() -> Db {
    let mut db = Db::new();
    db.register_table(table(
        "user",
        vec![field("name", FieldTy::Text, false), field("age", FieldTy::IntI32, false)],
    ))
    .unwrap();
    for (id, name, age) in [(1, "Ann", 5), (2, "Bob", 15), (3, "Cyd", 25), (4, "Dan", 15)] {
        db.insert_record(
            "user",
            &record(&db, "user", id, &[FieldValue::Text(name.into()), FieldValue::Int(age)]),
        )
        .unwrap();
    }
    db
}

fn age() -> Expr {
    Expr::FieldAccess { value: Box::new(Expr::TableAccess { name: "user".into() }), field: "age".into() }
}

fn binary(a: Expr, op: BinaryOp, b: Expr) -> Expr {
    Expr::BinaryOp { a: Box::new(a), op, b: Box::new(b) }
}

fn found_ids(result: &QueryResult) -> Vec<u128> {
    match result {
        QueryResult::Records(found) => found.records.iter().map(|r| r.id().0).collect(),
        QueryResult::Grouped { .. } => panic!("records expected"),
    }
}

#[test]
fn queries_filter() {
    let db = people();
    let all = Query { table_name: "user".into(), filter: None, group_by: None };
    assert_eq!(found_ids(&db.run_query(&all, Timestamp(0)).unwrap()), vec![1, 2, 3, 4]);
    let between = binary(
        binary(age(), BinaryOp::Compare(CompareOp::Greater), Expr::Literal(FieldValue::Int(10))),
        BinaryOp::Logic(LogicOp::And),
        binary(age(), BinaryOp::Compare(CompareOp::Less), Expr::Literal(FieldValue::Int(20))),
    );
    let query = Query { table_name: "user".into(), filter: Some(between), group_by: None };
    assert_eq!(found_ids(&db.run_query(&query, Timestamp(0)).unwrap()), vec![2, 4]);
    // A filter that fails, or that gives no boolean, keeps every record out.
    let failing = Query {
        table_name: "user".into(),
        filter: Some(binary(age(), BinaryOp::Math(MathOp::Div), Expr::Literal(FieldValue::Int(0)))),
        group_by: None,
    };
    assert_eq!(found_ids(&db.run_query(&failing, Timestamp(0)).unwrap()), Vec::<u128>::new());
    let number = Query { table_name: "user".into(), filter: Some(age()), group_by: None };
    assert_eq!(found_ids(&db.run_query(&number, Timestamp(0)).unwrap()), Vec::<u128>::new());
    let missing = Query { table_name: "nope".into(), filter: None, group_by: None };
    assert!(matches!(
        db.run_query(&missing, Timestamp(0)),
        Err(DbError::TableDoesNotExist { table }) if table == "nope"
    ));
}

#[test]
fn queries_see_one_now() {
    let db = people();
    let now_is = |secs: i64| Query {
        table_name: "user".into(),
        filter: Some(binary(
            Expr::FnCall { name: "now".into(), args: vec![] },
            BinaryOp::Eq(tabletool::db_core::expr::EqOp::Eq),
            Expr::Literal(FieldValue::Timestamp(Timestamp(secs))),
        )),
        group_by: None,
    };
    assert_eq!(found_ids(&db.run_query(&now_is(9), Timestamp(9)).unwrap()).len(), 4);
    assert_eq!(found_ids(&db.run_query(&now_is(9), Timestamp(8)).unwrap()).len(), 0);
}

#[test]
fn queries_group() {
    let db = people();
    let query = Query { table_name: "user".into(), filter: None, group_by: Some(age()) };
    let QueryResult::Grouped { groups } = db.run_query(&query, Timestamp(0)).unwrap() else {
        panic!("groups expected");
    };
    let summary: Vec<(Value, Vec<u128>)> =
        groups.iter().map(|g| (g.group.clone(), found_ids(&g.result))).collect();
    assert_eq!(
        summary,
        vec![
            (Value::Field(FieldValue::Int(5)), vec![1]),
            (Value::Field(FieldValue::Int(15)), vec![2, 4]),
            (Value::Field(FieldValue::Int(25)), vec![3]),
        ]
    );
    // Records for which the grouping expression has no value are in no group.
    let by_ratio = Query {
        table_name: "user".into(),
        filter: None,
        group_by: Some(binary(
            Expr::Literal(FieldValue::Int(30)),
            BinaryOp::Math(MathOp::Div),
            binary(age(), BinaryOp::Math(MathOp::Sub), Expr::Literal(FieldValue::Int(5))),
        )),
    };
    let QueryResult::Grouped { groups } = db.run_query(&by_ratio, Timestamp(0)).unwrap() else {
        panic!("groups expected");
    };
    let summary: Vec<(Value, Vec<u128>)> =
        groups.iter().map(|g| (g.group.clone(), found_ids(&g.result))).collect();
    assert_eq!(
        summary,
        vec![(Value::Field(FieldValue::Int(3)), vec![2, 4]), (Value::Field(FieldValue::Int(1)), vec![3])]
    );
}

#[test]
fn deleting_gives_back_what_was_deleted() {
    let mut db = groups_and_items();
    db.register_table(table("part", vec![field("item", reference("item"), false)])).unwrap();
    db.insert_record("group", &record(&db, "group", 1, &[FieldValue::Text("g".into())])).unwrap();
    db.insert_record("group", &record(&db, "group", 2, &[FieldValue::Text("h".into())])).unwrap();
    for (id, group) in [(10, 1), (11, 1), (12, 2)] {
        db.insert_record("item", &record(&db, "item", id, &[id_of("group", group)])).unwrap();
    }
    for (id, item) in [(20, 10), (21, 12)] {
        db.insert_record("part", &record(&db, "part", id, &[id_of("item", item)])).unwrap();
    }
    let item_11 = db.get("item", Ulid(11)).unwrap();
    let deleted = db.delete_record("group", Ulid(1)).unwrap();
    let mut summary: Vec<(usize, u128)> = deleted.iter().map(|(t, r)| (*t, r.id().0)).collect();
    summary.sort();
    assert_eq!(summary, vec![(0, 1), (1, 10), (1, 11), (2, 20)]);
    assert!(deleted.contains(&(1, item_11)));
    let deleted = db.delete_record("part", Ulid(21)).unwrap();
    assert_eq!(deleted.len(), 1);
    assert_eq!(deleted[0].0, 2);
    assert_eq!(deleted[0].1, record(&db, "part", 21, &[id_of("item", 12)]));
}

#[test]
fn records_are_filed_under_their_keys() {
    let mut db = Db::new();
    db.register_table(table("group", vec![field("name", FieldTy::Text, false)])).unwrap();
    db.register_table(table(
        "item",
        vec![
            field("at", FieldTy::Timestamp, true),
            field("name", FieldTy::Text, false),
            field("group", reference("group"), false),
        ],
    ))
    .unwrap();
    let item = record(
        &db,
        "item",
        10,
        &[FieldValue::Timestamp(Timestamp(5)), FieldValue::Text("x".into()), id_of("group", 7)],
    );
    assert_eq!(
        db.entries_of("item", &item),
        Some(vec![
            ("#item:at".to_owned(), IndexKey::Time(Timestamp(5))),
            ("#item:group".to_owned(), IndexKey::Id(Ulid(7))),
        ])
    );
    assert_eq!(db.entries_of("group", &item), Some(vec![]));
    assert_eq!(db.entries_of("nope", &item), None);
    assert_eq!(db.entries_of("item", &RecordBytes::new(Ulid(1), vec![0; 10])), None);
}

#[test]
fn restored_records_ask_for_no_target() {
    let mut db = groups_and_items();
    let item = record(&db, "item", 10, &[id_of("group", 7)]);
    assert!(db.insert_record("item", &item).is_err());
    assert!(db.restore_record("item", &item));
    assert_eq!(db.get("item", Ulid(10)), Some(item.clone()));
    assert_eq!(
        db.index_query("#item:group", &unbounded(), &unbounded()),
        Ok(vec![(id_of("group", 7), Ulid(10))])
    );
    // Once the group is back, deleting it deletes the item.
    assert!(db.restore_record("group", &record(&db, "group", 7, &[FieldValue::Text("g".into())])));
    assert!(!db.restore_record("item", &item));
    assert!(!db.restore_record("nope", &item));
    assert!(!db.restore_record("item", &RecordBytes::new(Ulid(11), vec![0; 3])));
    assert_eq!(ids(&db, "item"), vec![10]);
    assert_eq!(db.delete_record("group", Ulid(7)).map(|deleted| deleted.len()), Ok(2));
    assert_eq!(ids(&db, "item"), Vec::<u128>::new());
}

#[test]
fn a_query_in_text_finds_the_ages_in_between() {
    let db = people();
    let query = parse("query user where user.age > 10 && user.age < 20").unwrap();
    let ctx = TyCtx { tables: vec![Named::new("user", db.table("user").unwrap())] };
    assert_eq!(
        query.filter.as_ref().and_then(|filter| filter.ty(&ctx)),
        Some(Ty::Field(FieldTy::Bool))
    );
    assert_eq!(found_ids(&db.run_query(&query, Timestamp(0)).unwrap()), vec![2, 4]);
    // A field on its own is read as a table: it has no type, and no
    // record passes.
    let bare = parse("query user where age > 10 && age < 20").unwrap();
    assert_eq!(bare.filter.as_ref().and_then(|filter| filter.ty(&ctx)), None);
    assert_eq!(found_ids(&db.run_query(&bare, Timestamp(0)).unwrap()), Vec::<u128>::new());
    let grouped = parse("query user where user.age > 10 group_by user.age").unwrap();
    let QueryResult::Grouped { groups } = db.run_query(&grouped, Timestamp(0)).unwrap() else {
        panic!("groups expected");
    };
    assert_eq!(groups.len(), 2);
}

#[test]
fn created_records_get_identifiers_of_their_own() {
    let one = RecordBytes::create(vec![1]);
    let other = RecordBytes::create(vec![1]);
    assert_ne!(one.id(), other.id());
    assert_eq!(one.bytes(), other.bytes());
}
