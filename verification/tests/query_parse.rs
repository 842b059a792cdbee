use tabletool::db_core::expr::{BinaryOp, CompareOp, EqOp, EvalCtx, Expr, LogicOp, MathOp, TyCtx, UnaryOp};
use tabletool::db_core::query::Query;
use tabletool::db_core::ty::{FieldTy, Ty};
use tabletool::db_core::value::{FieldValue, Value};
use tabletool::query_parse::lexer::lex;
use tabletool::query_parse::{parse, parse_expr, Keyword, Op, Separator, Token};

fn num(v: i32) -> Expr {
    Expr::Literal(FieldValue::Int(v))
}

fn binary(a: Expr, op: BinaryOp, b: Expr) -> Expr {
    Expr::BinaryOp { a: Box::new(a), op, b: Box::new(b) }
}

fn table(name: &str) -> Expr {
    Expr::TableAccess { name: name.into() }
}

fn access(value: Expr, field: &str) -> Expr {
    Expr::FieldAccess { value: Box::new(value), field: field.into() }
}

#[test]
fn test_parse() {
    let input = "query user where 5 < 10 * 4 + 2 == true";

    let query = parse(input).unwrap();

    let expr = Expr::BinaryOp {
        a: Box::new(Expr::BinaryOp {
            a: Box::new(Expr::Literal(FieldValue::Int(5))),
            op: BinaryOp::Compare(CompareOp::Less),
            b: Box::new(Expr::BinaryOp {
                a: Box::new(Expr::BinaryOp {
                    a: Box::new(Expr::Literal(FieldValue::Int(10))),
                    op: BinaryOp::Math(MathOp::Mul),
                    b: Box::new(Expr::Literal(FieldValue::Int(4))),
                }),
                op: BinaryOp::Math(MathOp::Add),
                b: Box::new(Expr::Literal(FieldValue::Int(2))),
            }),
        }),
        op: BinaryOp::Eq(EqOp::Eq),
        b: Box::new(Expr::Literal(FieldValue::Bool(true))),
    };

    let value = Query {
        table_name: "user".into(),
        filter: Some(expr),
        group_by: None,
    };

    assert_eq!(query, value);

    let ty_ctx = TyCtx { tables: Default::default() };
    let eval_ctx = EvalCtx::default();

    assert_eq!(
        query.filter.as_ref().and_then(|filter| filter.ty(&ty_ctx)),
        Some(Ty::Field(FieldTy::Bool))
    );
    assert_eq!(
        query.filter.as_ref().and_then(|filter| filter.eval(&eval_ctx).ok()),
        Some(Value::Field(FieldValue::Bool(true)))
    );
}

#[test]
fn dbg_parse() {
    let input = "query user where user.age > 10";

    let query = parse(input).unwrap();

    assert_eq!(
        query,
        Query {
            table_name: "user".into(),
            filter: Some(binary(
                access(table("user"), "age"),
                BinaryOp::Compare(CompareOp::Greater),
                num(10)
            )),
            group_by: None,
        }
    );
}

#[test]
fn bare_field_names_are_read_as_tables() {
    let query = parse("query user where age > 10 && age < 20").unwrap();
    assert_eq!(
        query.filter,
        Some(binary(
            binary(table("age"), BinaryOp::Compare(CompareOp::Greater), num(10)),
            BinaryOp::Logic(LogicOp::And),
            binary(table("age"), BinaryOp::Compare(CompareOp::Less), num(20)),
        ))
    );
    let query = parse("query user where user.age > 10 && user.age < 20").unwrap();
    assert_eq!(
        query.filter,
        Some(binary(
            binary(access(table("user"), "age"), BinaryOp::Compare(CompareOp::Greater), num(10)),
            BinaryOp::Logic(LogicOp::And),
            binary(access(table("user"), "age"), BinaryOp::Compare(CompareOp::Less), num(20)),
        ))
    );
}

#[test]
fn queries_with_and_without_clauses() {
    assert_eq!(
        parse("query user"),
        Some(Query { table_name: "user".into(), filter: None, group_by: None })
    );
    assert_eq!(
        parse("query project group_by project.group"),
        Some(Query {
            table_name: "project".into(),
            filter: None,
            group_by: Some(access(table("project"), "group")),
        })
    );
    assert_eq!(
        parse("  query\tuser\nwhere true group_by 1  "),
        Some(Query {
            table_name: "user".into(),
            filter: Some(Expr::Literal(FieldValue::Bool(true))),
            group_by: Some(num(1)),
        })
    );
    for bad in [
        "",
        "user",
        "query",
        "query where true",
        "query user where",
        "query user group_by",
        "query user group_by 1 where true",
        "query user true",
        "query user where 1 2",
        "query user where (1",
        "query user where 1 +",
        "query user where a.",
        "query user where \"text\"",
        "query user where f(1)",
        "query user where 1 = 1",
        "query user where 1 & 1",
        "query user where 2147483648",
        "query user where 01",
        "query user ?",
    ] {
        assert_eq!(parse(bad), None, "{bad}");
    }
}

#[test]
fn operators_bind_and_group() {
    let mul = BinaryOp::Math(MathOp::Mul);
    let div = BinaryOp::Math(MathOp::Div);
    let add = BinaryOp::Math(MathOp::Add);
    let sub = BinaryOp::Math(MathOp::Sub);
    assert_eq!(parse_expr("1 + 2 * 3"), Some(binary(num(1), add, binary(num(2), mul, num(3)))));
    assert_eq!(parse_expr("1 * 2 + 3"), Some(binary(binary(num(1), mul, num(2)), add, num(3))));
    assert_eq!(parse_expr("1 - 2 - 3"), Some(binary(binary(num(1), sub, num(2)), sub, num(3))));
    assert_eq!(parse_expr("8 / 4 / 2"), Some(binary(binary(num(8), div, num(4)), div, num(2))));
    assert_eq!(parse_expr("(1 + 2) * 3"), Some(binary(binary(num(1), add, num(2)), mul, num(3))));
    assert_eq!(
        parse_expr("1 < 2 == 2 > 1"),
        Some(binary(
            binary(num(1), BinaryOp::Compare(CompareOp::Less), num(2)),
            BinaryOp::Eq(EqOp::Eq),
            binary(num(2), BinaryOp::Compare(CompareOp::Greater), num(1)),
        ))
    );
    // Logic binds tighter than equality.
    assert_eq!(
        parse_expr("true == false || true"),
        Some(binary(
            Expr::Literal(FieldValue::Bool(true)),
            BinaryOp::Eq(EqOp::Eq),
            binary(
                Expr::Literal(FieldValue::Bool(false)),
                BinaryOp::Logic(LogicOp::Or),
                Expr::Literal(FieldValue::Bool(true))
            ),
        ))
    );
    assert_eq!(
        parse_expr("1 <= 2 != 3 >= 4"),
        Some(binary(
            binary(num(1), BinaryOp::Compare(CompareOp::LessEq), num(2)),
            BinaryOp::Eq(EqOp::Neq),
            binary(num(3), BinaryOp::Compare(CompareOp::GreaterEq), num(4)),
        ))
    );
}

#[test]
fn prefix_operators_and_field_access() {
    let negate = |value: Expr| Expr::UnaryOp { op: UnaryOp::Negate, value: Box::new(value) };
    let not = |value: Expr| Expr::UnaryOp { op: UnaryOp::LogicNot, value: Box::new(value) };
    assert_eq!(parse_expr("-1"), Some(negate(num(1))));
    assert_eq!(parse_expr("--1"), Some(negate(negate(num(1)))));
    assert_eq!(parse_expr("!true"), Some(not(Expr::Literal(FieldValue::Bool(true)))));
    assert_eq!(
        parse_expr("-a.b * 2"),
        Some(binary(negate(access(table("a"), "b")), BinaryOp::Math(MathOp::Mul), num(2)))
    );
    assert_eq!(parse_expr("1 - -2"), Some(binary(num(1), BinaryOp::Math(MathOp::Sub), negate(num(2)))));
    assert_eq!(parse_expr("a.b.c"), Some(access(access(table("a"), "b"), "c")));
    assert_eq!(parse_expr("(a).b"), Some(access(table("a"), "b")));
    assert_eq!(parse_expr("2147483647"), Some(num(i32::MAX)));
    assert_eq!(parse_expr("0"), Some(num(0)));
    assert_eq!(parse_expr("größe"), Some(table("größe")));
    assert_eq!(parse_expr(""), None);
    assert_eq!(parse_expr("1 2"), None);
    assert_eq!(parse_expr("a . 1"), None);
}

#[test]
fn lexing() {
    assert_eq!(lex(b""), Some(vec![]));
    assert_eq!(lex(b" \t\n"), Some(vec![]));
    assert_eq!(
        lex(b"query where group_by true false queries _x x1"),
        Some(vec![
            Token::Keyword(Keyword::Query),
            Token::Keyword(Keyword::Where),
            Token::Keyword(Keyword::GroupBy),
            Token::Keyword(Keyword::True),
            Token::Keyword(Keyword::False),
            Token::Ident(b"queries".to_vec()),
            Token::Ident(b"_x".to_vec()),
            Token::Ident(b"x1".to_vec()),
        ])
    );
    assert_eq!(
        lex(b"==!=<=<>=>+-*/!&&||"),
        Some(vec![
            Token::Op(Op::Eq(EqOp::Eq)),
            Token::Op(Op::Eq(EqOp::Neq)),
            Token::Op(Op::Compare(CompareOp::LessEq)),
            Token::Op(Op::Compare(CompareOp::Less)),
            Token::Op(Op::Compare(CompareOp::GreaterEq)),
            Token::Op(Op::Compare(CompareOp::Greater)),
            Token::Op(Op::Plus),
            Token::Op(Op::Minus),
            Token::Op(Op::Mul),
            Token::Op(Op::Div),
            Token::Op(Op::LogicNot),
            Token::Op(Op::Logic(LogicOp::And)),
            Token::Op(Op::Logic(LogicOp::Or)),
        ])
    );
    assert_eq!(
        lex(b".,:()"),
        Some(vec![
            Token::Separator(Separator::Dot),
            Token::Separator(Separator::Comma),
            Token::Separator(Separator::Colon),
            Token::Separator(Separator::ParenOpen),
            Token::Separator(Separator::ParenClose),
        ])
    );
    assert_eq!(
        lex(b"12 007 1a"),
        Some(vec![
            Token::Number(b"12".to_vec()),
            Token::Number(b"0".to_vec()),
            Token::Number(b"0".to_vec()),
            Token::Number(b"7".to_vec()),
            Token::Number(b"1".to_vec()),
            Token::Ident(b"a".to_vec()),
        ])
    );
    assert_eq!(
        lex(br#""" "a b" "q\"\\""#),
        Some(vec![
            Token::StringLiteral(b"".to_vec()),
            Token::StringLiteral(b"a b".to_vec()),
            Token::StringLiteral(br#"q\"\\"#.to_vec()),
        ])
    );
    for bad in [&b"\"open"[..], br#""bad \n escape""#, b"=", b"&", b"|", b"#", b"a ? b"] {
        assert_eq!(lex(bad), None);
    }
    assert_eq!("group_by".parse::<Keyword>(), Ok(Keyword::GroupBy));
    assert_eq!("Query".parse::<Keyword>(), Err(()));
}

#[test]
fn keywords_are_read_from_text() {
    assert_eq!("query".parse::<Keyword>(), Ok(Keyword::Query));
    assert_eq!("where".parse::<Keyword>(), Ok(Keyword::Where));
    assert_eq!("true".parse::<Keyword>(), Ok(Keyword::True));
    assert_eq!("false".parse::<Keyword>(), Ok(Keyword::False));
    assert_eq!("".parse::<Keyword>(), Err(()));
    assert_eq!("where ".parse::<Keyword>(), Err(()));
    assert_eq!("group by".parse::<Keyword>(), Err(()));
}
