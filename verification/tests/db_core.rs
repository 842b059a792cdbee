use tabletool::bytepack::{BytePacker, ByteUnpacker, Pack, Timestamp, Ulid, Unpack};
use tabletool::db_core::defs::index::{IndexDef, IndexOnDelete};
use tabletool::db_core::defs::table::{TableData, TableDef, TableFieldDef};
use tabletool::db_core::defs::trigger::{DbTrigger, TriggerAction};
use tabletool::db_core::expr::{
    BinaryOp, CompareOp, DidYouMeanHint, EqOp, EvalCtx, EvalErr, Expr, LogicOp, MathOp, TyCtx,
    UnaryOp,
};
use tabletool::db_core::named::Named;
use tabletool::db_core::record::RecordBytes;
use tabletool::db_core::ty::{FieldTy, Ty};
use tabletool::db_core::value::{FieldValue, Value};

fn field(name: &str, ty: FieldTy, has_index: bool) -> Named<TableFieldDef> {
    Named::new(name, TableFieldDef { ty, has_index })
}

fn user_def() -> TableDef {
    TableDef {
        fields: vec![
            field("name", FieldTy::Text, false),
            field("age", FieldTy::IntI32, false),
            field("joined", FieldTy::Timestamp, true),
            field("boss", FieldTy::RecordId { table_name: "user".into() }, false),
            field("active", FieldTy::Bool, false),
        ],
        main_display_field: Some(0),
    }
}

fn user_record(data: &TableData, id: u128, name: &str, age: i32) -> RecordBytes {
    let mut packer = BytePacker::new(data.fixed_byte_count());
    let values = [
        FieldValue::Text(name.to_owned()),
        FieldValue::Int(age),
        FieldValue::Timestamp(Timestamp(1000 + age as i64)),
        FieldValue::RecordId { id: Ulid(id), table_name: "user".into() },
        FieldValue::Bool(true),
    ];
    for (field, value) in data.fields().iter().zip(values.iter()) {
        value.pack(field.value.offset, &mut packer);
    }
    RecordBytes::new(Ulid(id), packer.finish())
}

fn ctx_for(data: &TableData, record: &RecordBytes) -> EvalCtx {
    EvalCtx {
        records: vec![Named::new("user", record.clone())],
        tables: vec![Named::new("user", data.clone())],
        now: Timestamp(77),
    }
}

fn num(v: i32) -> Expr {
    Expr::Literal(FieldValue::Int(v))
}

fn boolean(v: bool) -> Expr {
    Expr::Literal(FieldValue::Bool(v))
}

fn binary(a: Expr, op: BinaryOp, b: Expr) -> Expr {
    Expr::BinaryOp { a: Box::new(a), op, b: Box::new(b) }
}

fn user_field(name: &str) -> Expr {
    Expr::FieldAccess { value: Box::new(Expr::TableAccess { name: "user".into() }), field: name.into() }
}

#[test]
fn field_ty_byte_counts() {
    assert_eq!(FieldTy::IntI32.byte_count(), 4);
    assert_eq!(FieldTy::Bool.byte_count(), 1);
    assert_eq!(FieldTy::Timestamp.byte_count(), 8);
    assert_eq!(FieldTy::Text.byte_count(), 8);
    assert_eq!(FieldTy::RecordId { table_name: "t".into() }.byte_count(), 16);
}

#[test]
fn field_ty_tags() {
    assert_eq!(BytePacker::pack_value(&FieldTy::IntI32), b"\0\0\0\0i32 ".to_vec());
    assert_eq!(BytePacker::pack_value(&FieldTy::Bool), b"\0\0\0\0bool".to_vec());
    assert_eq!(BytePacker::pack_value(&FieldTy::Timestamp), b"\0\0\0\0tstp".to_vec());
    assert_eq!(BytePacker::pack_value(&FieldTy::Text), b"\0\0\0\0text".to_vec());
    assert_eq!(
        BytePacker::pack_value(&FieldTy::RecordId { table_name: "user".into() }),
        b"\0\0\0\x08\0\0\0\x08rcrduser".to_vec()
    );
}

#[test]
fn field_ty_round_trip() {
    for ty in [
        FieldTy::IntI32,
        FieldTy::Bool,
        FieldTy::Timestamp,
        FieldTy::Text,
        FieldTy::RecordId { table_name: "user".into() },
        FieldTy::RecordId { table_name: String::new() },
    ] {
        let bytes = BytePacker::pack_value(&ty);
        assert_eq!(FieldTy::unpack(0, &ByteUnpacker::new(&bytes)), Some(ty));
    }
}

#[test]
fn field_ty_refuses_what_it_does_not_know() {
    assert_eq!(FieldTy::unpack(0, &ByteUnpacker::new(b"\0\0\0\0nope")), None);
    // The tag of a record reference must come with a payload.
    assert_eq!(FieldTy::unpack(0, &ByteUnpacker::new(b"\0\0\0\0rcrd")), None);
    // A tag with a payload that is no type.
    assert_eq!(FieldTy::unpack(0, &ByteUnpacker::new(b"\0\0\0\x08\0\0\0\x05text!")), None);
    // A pointer to less than a tag.
    assert_eq!(FieldTy::unpack(0, &ByteUnpacker::new(b"\0\0\0\x08\0\0\0\x02ab")), None);
    // A table name that is no UTF-8.
    assert_eq!(FieldTy::unpack(0, &ByteUnpacker::new(b"\0\0\0\x08\0\0\0\x05rcrd\xff")), None);
}

#[test]
fn table_def_round_trip() {
    let def = user_def();
    let bytes = BytePacker::pack_value(&def);
    assert_eq!(TableDef::unpack(0, &ByteUnpacker::new(&bytes)), Some(def));
    let empty = TableDef { fields: vec![], main_display_field: None };
    let bytes = BytePacker::pack_value(&empty);
    assert_eq!(bytes.len(), 16);
    assert_eq!(TableDef::unpack(0, &ByteUnpacker::new(&bytes)), Some(empty));
}

#[test]
fn table_data_lays_fields_out() {
    let data = TableData::new(user_def());
    let offsets: Vec<u32> = data.fields().iter().map(|f| f.value.offset).collect();
    assert_eq!(offsets, vec![0, 8, 12, 20, 36]);
    assert_eq!(data.fixed_byte_count(), 37);
    assert_eq!(data.main_display_field_idx(), Some(0));
    assert_eq!(data.main_display_field().map(|f| f.name.as_str()), Some("name"));
    assert!(data.has_field("age"));
    assert!(!data.has_field("size"));
    assert_eq!(data.index_of_field("joined"), Some(2));
    assert_eq!(data.field("boss").map(|f| f.offset), Some(20));
    assert!(user_def().fits());
}

#[test]
fn table_data_drops_a_display_field_that_is_no_field() {
    let mut def = user_def();
    def.main_display_field = Some(5);
    let data = TableData::new(def);
    assert_eq!(data.main_display_field_idx(), None);
    assert!(data.main_display_field().is_none());
}

#[test]
fn indices_are_derived_from_fields() {
    let data = TableData::new(user_def());
    let indices = data.indices("user");
    assert_eq!(
        indices,
        vec![
            IndexDef::new("#user:joined".into(), "user".into(), "joined".into(), IndexOnDelete::NoAction),
            IndexDef::new("#user:boss".into(), "user".into(), "boss".into(), IndexOnDelete::Cascade),
        ]
    );
    assert_eq!(indices[0].name(), "#user:joined");
}

#[test]
fn triggers_are_derived_from_indices() {
    let index = IndexDef::new("#item:group".into(), "item".into(), "group".into(), IndexOnDelete::Cascade);
    let triggers = index.triggers(&FieldTy::RecordId { table_name: "group".into() });
    assert_eq!(
        triggers,
        vec![
            (
                "item".to_owned(),
                DbTrigger::OnInsert(TriggerAction::InsertIntoIndex { index_name: "#item:group".into() })
            ),
            (
                "item".to_owned(),
                DbTrigger::OnDelete(TriggerAction::DeleteValueFromIndex { index_name: "#item:group".into() })
            ),
            (
                "group".to_owned(),
                DbTrigger::OnDelete(TriggerAction::DeleteKeyFromIndex { index_name: "#item:group".into() })
            ),
        ]
    );
    let plain = IndexDef::new("#log:at".into(), "log".into(), "at".into(), IndexOnDelete::NoAction);
    assert_eq!(plain.triggers(&FieldTy::Timestamp).len(), 2);
}

#[test]
fn records_give_their_fields() {
    let data = TableData::new(user_def());
    let record = user_record(&data, 9, "Ann", 15);
    assert_eq!(record.id(), Ulid(9));
    assert_eq!(record.get_field(data.field("name").unwrap()), Some(FieldValue::Text("Ann".into())));
    assert_eq!(record.get_field(data.field("age").unwrap()), Some(FieldValue::Int(15)));
    assert_eq!(
        record.get_field(data.field("joined").unwrap()),
        Some(FieldValue::Timestamp(Timestamp(1015)))
    );
    assert_eq!(
        record.get_field(data.field("boss").unwrap()),
        Some(FieldValue::RecordId { id: Ulid(9), table_name: "user".into() })
    );
    assert_eq!(record.get_field(data.field("active").unwrap()), Some(FieldValue::Bool(true)));
    assert_eq!(record.unpack::<i32>(8), Some(15));
    let short = RecordBytes::new(Ulid(1), vec![0; 3]);
    assert_eq!(short.get_field(data.field("age").unwrap()), None);
    let made = RecordBytes::create(vec![1, 2]);
    assert_eq!(made.bytes(), &[1, 2]);
}

#[test]
fn values_have_types() {
    assert_eq!(FieldValue::Int(1).ty(), FieldTy::IntI32);
    assert_eq!(FieldValue::Bool(true).ty(), FieldTy::Bool);
    assert_eq!(FieldValue::Timestamp(Timestamp(0)).ty(), FieldTy::Timestamp);
    assert_eq!(FieldValue::Text("a".into()).ty(), FieldTy::Text);
    assert_eq!(
        FieldValue::RecordId { id: Ulid(1), table_name: "t".into() }.ty(),
        FieldTy::RecordId { table_name: "t".into() }
    );
    assert_eq!(Value::from(FieldValue::Int(1)).ty(), Ty::Field(FieldTy::IntI32));
    assert_eq!(Ty::from(FieldTy::Bool), Ty::Field(FieldTy::Bool));
}

#[test]
fn binary_op_typing_rules() {
    let math = BinaryOp::Math(MathOp::Add);
    let logic = BinaryOp::Logic(LogicOp::And);
    let compare = BinaryOp::Compare(CompareOp::Less);
    let eq = BinaryOp::Eq(EqOp::Eq);
    assert_eq!(math.ty(&FieldTy::IntI32, &FieldTy::IntI32), Some(FieldTy::IntI32));
    assert_eq!(math.ty(&FieldTy::Bool, &FieldTy::Bool), None);
    assert_eq!(math.ty(&FieldTy::IntI32, &FieldTy::Timestamp), None);
    assert_eq!(logic.ty(&FieldTy::Bool, &FieldTy::Bool), Some(FieldTy::Bool));
    assert_eq!(logic.ty(&FieldTy::IntI32, &FieldTy::IntI32), None);
    assert_eq!(compare.ty(&FieldTy::IntI32, &FieldTy::IntI32), Some(FieldTy::Bool));
    assert_eq!(compare.ty(&FieldTy::Timestamp, &FieldTy::Timestamp), Some(FieldTy::Bool));
    assert_eq!(compare.ty(&FieldTy::Text, &FieldTy::Text), None);
    assert_eq!(compare.ty(&FieldTy::IntI32, &FieldTy::Timestamp), None);
    assert_eq!(eq.ty(&FieldTy::Text, &FieldTy::Text), Some(FieldTy::Bool));
    assert_eq!(eq.ty(&FieldTy::Text, &FieldTy::Bool), None);
    assert_eq!(
        eq.ty(
            &FieldTy::RecordId { table_name: "a".into() },
            &FieldTy::RecordId { table_name: "b".into() }
        ),
        None
    );
    assert_eq!(UnaryOp::Negate.ty(&FieldTy::IntI32), Some(FieldTy::IntI32));
    assert_eq!(UnaryOp::Negate.ty(&FieldTy::Bool), None);
    assert_eq!(UnaryOp::LogicNot.ty(&FieldTy::Bool), Some(FieldTy::Bool));
    assert_eq!(UnaryOp::LogicNot.ty(&FieldTy::IntI32), None);
}

fn eval_binary(a: FieldValue, op: BinaryOp, b: FieldValue) -> Result<FieldValue, EvalErr> {
    op.eval(Value::Field(a), Value::Field(b))
}

#[test]
fn arithmetic() {
    let add = BinaryOp::Math(MathOp::Add);
    let sub = BinaryOp::Math(MathOp::Sub);
    let mul = BinaryOp::Math(MathOp::Mul);
    let div = BinaryOp::Math(MathOp::Div);
    assert_eq!(eval_binary(FieldValue::Int(2), add, FieldValue::Int(3)), Ok(FieldValue::Int(5)));
    assert_eq!(eval_binary(FieldValue::Int(2), sub, FieldValue::Int(3)), Ok(FieldValue::Int(-1)));
    assert_eq!(eval_binary(FieldValue::Int(-4), mul, FieldValue::Int(3)), Ok(FieldValue::Int(-12)));
    assert_eq!(eval_binary(FieldValue::Int(7), div, FieldValue::Int(2)), Ok(FieldValue::Int(3)));
    assert_eq!(eval_binary(FieldValue::Int(-7), div, FieldValue::Int(2)), Ok(FieldValue::Int(-3)));
    assert_eq!(eval_binary(FieldValue::Int(7), div, FieldValue::Int(-2)), Ok(FieldValue::Int(-3)));
    assert_eq!(eval_binary(FieldValue::Int(-7), div, FieldValue::Int(-2)), Ok(FieldValue::Int(3)));
    assert_eq!(eval_binary(FieldValue::Int(1), div, FieldValue::Int(0)), Err(EvalErr::DivisionByZero));
    assert_eq!(eval_binary(FieldValue::Int(i32::MAX), add, FieldValue::Int(1)), Err(EvalErr::Overflow));
    assert_eq!(eval_binary(FieldValue::Int(i32::MIN), sub, FieldValue::Int(1)), Err(EvalErr::Overflow));
    assert_eq!(eval_binary(FieldValue::Int(i32::MAX), mul, FieldValue::Int(2)), Err(EvalErr::Overflow));
    assert_eq!(eval_binary(FieldValue::Int(i32::MIN), div, FieldValue::Int(-1)), Err(EvalErr::Overflow));
    assert_eq!(
        eval_binary(FieldValue::Int(i32::MIN), mul, FieldValue::Int(1)),
        Ok(FieldValue::Int(i32::MIN))
    );
}

#[test]
fn logic_comparison_and_equality() {
    let t = || FieldValue::Bool(true);
    let f = || FieldValue::Bool(false);
    assert_eq!(eval_binary(t(), BinaryOp::Logic(LogicOp::And), f()), Ok(f()));
    assert_eq!(eval_binary(t(), BinaryOp::Logic(LogicOp::Or), f()), Ok(t()));
    for (op, expected) in [
        (CompareOp::Less, [true, false, false]),
        (CompareOp::LessEq, [true, true, false]),
        (CompareOp::Greater, [false, false, true]),
        (CompareOp::GreaterEq, [false, true, true]),
    ] {
        for (i, (a, b)) in [(1, 2), (2, 2), (3, 2)].into_iter().enumerate() {
            assert_eq!(
                eval_binary(FieldValue::Int(a), BinaryOp::Compare(op), FieldValue::Int(b)),
                Ok(FieldValue::Bool(expected[i]))
            );
            assert_eq!(
                eval_binary(
                    FieldValue::Timestamp(Timestamp(a as i64)),
                    BinaryOp::Compare(op),
                    FieldValue::Timestamp(Timestamp(b as i64))
                ),
                Ok(FieldValue::Bool(expected[i]))
            );
        }
    }
    let eq = BinaryOp::Eq(EqOp::Eq);
    let neq = BinaryOp::Eq(EqOp::Neq);
    assert_eq!(eval_binary(FieldValue::Int(1), eq, FieldValue::Int(1)), Ok(t()));
    assert_eq!(eval_binary(FieldValue::Int(1), neq, FieldValue::Int(1)), Ok(f()));
    assert_eq!(eval_binary(t(), eq, f()), Ok(f()));
    assert_eq!(eval_binary(FieldValue::Text("a".into()), eq, FieldValue::Text("a".into())), Ok(t()));
    assert_eq!(eval_binary(FieldValue::Text("a".into()), neq, FieldValue::Text("b".into())), Ok(t()));
    assert_eq!(
        eval_binary(FieldValue::Timestamp(Timestamp(1)), eq, FieldValue::Timestamp(Timestamp(1))),
        Ok(t())
    );
    let id = |id: u128| FieldValue::RecordId { id: Ulid(id), table_name: "user".into() };
    assert_eq!(eval_binary(id(1), eq, id(1)), Ok(t()));
    assert_eq!(eval_binary(id(1), eq, id(2)), Ok(f()));
    assert_eq!(eval_binary(id(1), neq, id(1)), Ok(f()));
    assert_eq!(eval_binary(id(1), neq, id(2)), Ok(t()));
    assert_eq!(
        eq.ty(
            &FieldTy::RecordId { table_name: "user".into() },
            &FieldTy::RecordId { table_name: "user".into() }
        ),
        Some(FieldTy::Bool)
    );
    assert_eq!(EqOp::Eq.eval(true), true);
    assert_eq!(EqOp::Neq.eval(true), false);
}

#[test]
fn operators_refuse_wrong_types() {
    let add = BinaryOp::Math(MathOp::Add);
    assert_eq!(
        eval_binary(FieldValue::Int(1), add, FieldValue::Bool(true)),
        Err(EvalErr::InvalidTypeForBinaryOp {
            op: add,
            a: Ty::Field(FieldTy::IntI32),
            b: Ty::Field(FieldTy::Bool)
        })
    );
    let eq = BinaryOp::Eq(EqOp::Eq);
    let id = |id: u128, table: &str| FieldValue::RecordId { id: Ulid(id), table_name: table.into() };
    assert_eq!(
        eval_binary(id(1, "t"), eq, id(1, "u")),
        Err(EvalErr::InvalidTypeForBinaryOp {
            op: eq,
            a: Ty::Field(FieldTy::RecordId { table_name: "t".into() }),
            b: Ty::Field(FieldTy::RecordId { table_name: "u".into() }),
        })
    );
    assert!(matches!(
        eval_binary(FieldValue::Int(1), eq, FieldValue::Bool(true)),
        Err(EvalErr::InvalidTypeForBinaryOp { .. })
    ));
    assert_eq!(UnaryOp::Negate.eval(Value::Field(FieldValue::Int(3))), Ok(Value::Field(FieldValue::Int(-3))));
    assert_eq!(UnaryOp::Negate.eval(Value::Field(FieldValue::Int(i32::MIN))), Err(EvalErr::Overflow));
    assert_eq!(
        UnaryOp::LogicNot.eval(Value::Field(FieldValue::Bool(true))),
        Ok(Value::Field(FieldValue::Bool(false)))
    );
    assert_eq!(
        UnaryOp::LogicNot.eval(Value::Field(FieldValue::Int(1))),
        Err(EvalErr::InvalidTypeForUnaryOp { op: UnaryOp::LogicNot, ty: Ty::Field(FieldTy::IntI32) })
    );
}

#[test]
fn expressions_type_check() {
    let data = TableData::new(user_def());
    let ctx = TyCtx { tables: vec![Named::new("user", data.clone())] };
    let age_between = binary(
        binary(user_field("age"), BinaryOp::Compare(CompareOp::Greater), num(10)),
        BinaryOp::Logic(LogicOp::And),
        binary(user_field("age"), BinaryOp::Compare(CompareOp::Less), num(20)),
    );
    assert_eq!(age_between.ty(&ctx), Some(Ty::Field(FieldTy::Bool)));
    assert_eq!(user_field("name").ty(&ctx), Some(Ty::Field(FieldTy::Text)));
    assert_eq!(user_field("size").ty(&ctx), None);
    assert_eq!(Expr::TableAccess { name: "user".into() }.ty(&ctx), Some(Ty::Table(Named::new("user", data))));
    assert_eq!(Expr::TableAccess { name: "item".into() }.ty(&ctx), None);
    assert_eq!(binary(num(1), BinaryOp::Math(MathOp::Add), boolean(true)).ty(&ctx), None);
    assert_eq!(Expr::UnaryOp { op: UnaryOp::Negate, value: Box::new(num(1)) }.ty(&ctx), Some(Ty::Field(FieldTy::IntI32)));
    assert_eq!(Expr::FnCall { name: "now".into(), args: vec![] }.ty(&ctx), Some(Ty::Field(FieldTy::Timestamp)));
    assert_eq!(Expr::FnCall { name: "now".into(), args: vec![num(1)] }.ty(&ctx), None);
    assert_eq!(Expr::FnCall { name: "str_len".into(), args: vec![num(1)] }.ty(&ctx), None);
    assert_eq!(
        Expr::FnCall { name: "str_len".into(), args: vec![user_field("name")] }.ty(&ctx),
        Some(Ty::Field(FieldTy::IntI32))
    );
    assert_eq!(
        Expr::FnCall {
            name: "str_len".into(),
            args: vec![Expr::Literal(FieldValue::Text("abc".into()))]
        }
        .ty(&TyCtx::default()),
        Some(Ty::Field(FieldTy::IntI32))
    );
    assert_eq!(Expr::FnCall { name: "str_len".into(), args: vec![] }.ty(&ctx), None);
    assert_eq!(
        Expr::FnCall { name: "str_len".into(), args: vec![user_field("name"), num(1)] }.ty(&ctx),
        None
    );
    assert_eq!(Expr::FnCall { name: "nope".into(), args: vec![] }.ty(&ctx), None);
    assert_eq!(num(1).ty(&TyCtx::default()), Some(Ty::Field(FieldTy::IntI32)));
}

#[test]
fn filter_on_age_passes_only_the_row_in_between() {
    let data = TableData::new(user_def());
    let filter = binary(
        binary(user_field("age"), BinaryOp::Compare(CompareOp::Greater), num(10)),
        BinaryOp::Logic(LogicOp::And),
        binary(user_field("age"), BinaryOp::Compare(CompareOp::Less), num(20)),
    );
    let results: Vec<_> = [5, 15, 25]
        .into_iter()
        .map(|age| filter.eval(&ctx_for(&data, &user_record(&data, age as u128, "x", age))))
        .collect();
    assert_eq!(
        results,
        vec![
            Ok(Value::Field(FieldValue::Bool(false))),
            Ok(Value::Field(FieldValue::Bool(true))),
            Ok(Value::Field(FieldValue::Bool(false))),
        ]
    );
}

#[test]
fn expressions_evaluate() {
    let data = TableData::new(user_def());
    let record = user_record(&data, 3, "Ann", 15);
    let ctx = ctx_for(&data, &record);
    assert_eq!(user_field("name").eval(&ctx), Ok(Value::Field(FieldValue::Text("Ann".into()))));
    assert_eq!(
        Expr::TableAccess { name: "user".into() }.eval(&ctx),
        Ok(Value::Record { table: Named::new("user", data.clone()), record: record.clone() })
    );
    assert_eq!(
        Expr::FnCall { name: "now".into(), args: vec![] }.eval(&ctx),
        Ok(Value::Field(FieldValue::Timestamp(Timestamp(77))))
    );
    assert_eq!(
        Expr::FnCall { name: "str_len".into(), args: vec![user_field("name")] }.eval(&ctx),
        Ok(Value::Field(FieldValue::Int(3)))
    );
    assert_eq!(
        Expr::FnCall {
            name: "str_len".into(),
            args: vec![Expr::Literal(FieldValue::Text("Grüße".into()))]
        }
        .eval(&ctx),
        Ok(Value::Field(FieldValue::Int(7)))
    );
    assert_eq!(
        binary(num(5), BinaryOp::Compare(CompareOp::Less), binary(binary(num(10), BinaryOp::Math(MathOp::Mul), num(4)), BinaryOp::Math(MathOp::Add), num(2))).eval(&EvalCtx::default()),
        Ok(Value::Field(FieldValue::Bool(true)))
    );
}

#[test]
fn evaluation_errors() {
    let data = TableData::new(user_def());
    let record = user_record(&data, 3, "Ann", 15);
    let ctx = ctx_for(&data, &record);
    assert_eq!(
        user_field("size").eval(&ctx),
        Err(EvalErr::UnknownField { name: "size".into(), table_name: "user".into() })
    );
    assert_eq!(
        Expr::TableAccess { name: "item".into() }.eval(&ctx),
        Err(EvalErr::UnknownTable { name: "item".into(), did_you_mean_hint: DidYouMeanHint::NoHint })
    );
    assert_eq!(
        Expr::TableAccess { name: "age".into() }.eval(&ctx),
        Err(EvalErr::UnknownTable {
            name: "age".into(),
            did_you_mean_hint: DidYouMeanHint::TableWithField {
                table_name: "user".into(),
                field_name: "age".into()
            }
        })
    );
    assert_eq!(
        Expr::FieldAccess { value: Box::new(num(1)), field: "x".into() }.eval(&ctx),
        Err(EvalErr::MissmatchedTypes { found: Ty::Field(FieldTy::IntI32), expected: None })
    );
    assert_eq!(
        Expr::FnCall { name: "nope".into(), args: vec![] }.eval(&ctx),
        Err(EvalErr::UnknownFunction { name: "nope".into() })
    );
    assert_eq!(
        Expr::FnCall { name: "now".into(), args: vec![num(1)] }.eval(&ctx),
        Err(EvalErr::UnknownFunction { name: "now".into() })
    );
    assert_eq!(
        Expr::FnCall { name: "str_len".into(), args: vec![] }.eval(&ctx),
        Err(EvalErr::InvalidFunctionArgCount { name: "str_len".into(), found: 0, expected: 1 })
    );
    assert_eq!(
        Expr::FnCall { name: "str_len".into(), args: vec![num(1)] }.eval(&ctx),
        Err(EvalErr::MissmatchedTypes {
            found: Ty::Field(FieldTy::IntI32),
            expected: Some(Ty::Field(FieldTy::Text))
        })
    );
    let short = RecordBytes::new(Ulid(1), vec![0; 3]);
    assert_eq!(user_field("age").eval(&ctx_for(&data, &short)), Err(EvalErr::Bytepack));
    // The left operand fails first.
    assert_eq!(
        binary(user_field("size"), BinaryOp::Math(MathOp::Add), Expr::TableAccess { name: "item".into() }).eval(&ctx),
        Err(EvalErr::UnknownField { name: "size".into(), table_name: "user".into() })
    );
}

#[test]
fn hints_read_as_questions() {
    assert_eq!(DidYouMeanHint::NoHint.text(), "");
    assert_eq!(DidYouMeanHint::default(), DidYouMeanHint::NoHint);
    assert_eq!(DidYouMeanHint::Table { name: "user".into() }.text(), " Did you mean 'user'");
    assert_eq!(
        DidYouMeanHint::TableWithField { table_name: "user".into(), field_name: "age".into() }.text(),
        " Did you mean 'user.age'"
    );
}

#[test]
fn the_first_entry_of_a_name_counts() {
    let data = TableData::new(user_def());
    let first = user_record(&data, 1, "first", 1);
    let second = user_record(&data, 2, "second", 2);
    let ctx = EvalCtx {
        records: vec![Named::new("user", first), Named::new("user", second)],
        tables: vec![Named::new("user", data)],
        now: Timestamp(0),
    };
    assert_eq!(user_field("name").eval(&ctx), Ok(Value::Field(FieldValue::Text("first".into()))));
    assert_eq!(ctx.record("user").map(|r| r.id()), Some(Ulid(1)));
    assert!(ctx.table("item").is_none());
}

#[test]
fn table_defs_pack_on_their_own() {
    let def = user_def();
    let bytes = def.to_bytes().unwrap();
    assert_eq!(bytes, BytePacker::pack_value(&def));
    assert_eq!(def.packed_size(), Some(bytes.len() as u32));
    // 16 + 4 for the display field, and for each field 17 and its name;
    // the reference adds its tag and the name of its table.
    assert_eq!(bytes.len(), 20 + 5 * 17 + (4 + 3 + 6 + 4 + 6) + (4 + 4));
    let empty = TableDef { fields: vec![], main_display_field: None };
    assert_eq!(empty.packed_size(), Some(16));
    // The empty list is a pointer to the end of the buffer.
    assert_eq!(empty.to_bytes(), Some(vec![0, 0, 0, 16, 0, 0, 0, 0, 0, 0, 0, 0, 0, 0, 0, 0]));
}
