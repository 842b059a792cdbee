//! Reading expressions and queries off a list of tokens.

use vstd::prelude::*;
use vstd::utf8::{decode_utf8, valid_utf8};

use crate::bytepack::text::string_from_utf8;
use crate::db_core::expr::expr::{expr_view, Expr, ExprView};
use crate::db_core::expr::op::{BinaryOp, MathOp, UnaryOp};
use crate::db_core::query::Query;
use crate::db_core::value::{FieldValue, FieldValueView};
use crate::query_parse::lexer::{is_digit, lex, lexed};
use crate::query_parse::token::{Keyword, Op, Separator, Token, TokenView};

verus! {

/// What a [`Query`] stands for.
pub struct QueryView {
    pub table_name: Seq<char>,
    pub filter: Option<ExprView>,
    pub group_by: Option<ExprView>,
}

impl DeepView for Query {
    type V = QueryView;

    open spec fn deep_view(&self) -> QueryView {
        QueryView {
            table_name: self.table_name@,
            filter: self.filter.deep_view(),
            group_by: self.group_by.deep_view(),
        }
    }
}

/// The number that the digits spell, in base ten. A byte that is no digit
/// counts as zero.
pub open spec fn number_value(digits: Seq<u8>) -> nat
    decreases digits.len(),
{
    if digits.len() == 0 {
        0
    } else {
        number_value(digits.drop_last()) * 10 + if is_digit(digits.last()) {
            (digits.last() - 0x30) as nat
        } else {
            0
        }
    }
}

/// Whether every byte is a digit.
pub open spec fn all_digits(digits: Seq<u8>) -> bool {
    forall|i: int| 0 <= i < digits.len() ==> is_digit(#[trigger] digits[i])
}

/// The 32-bit integer that the digits spell, if they spell one.
pub open spec fn literal_value(digits: Seq<u8>) -> Option<i32> {
    if all_digits(digits) && number_value(digits) <= i32::MAX {
        Some(number_value(digits) as i32)
    } else {
        None
    }
}

/// A number only grows as digits are added.
pub proof fn lemma_number_grows(digits: Seq<u8>, count: int)
    requires
        0 <= count <= digits.len(),
    ensures
        number_value(digits.take(count)) <= number_value(digits),
    decreases digits.len() - count,
{
    if count < digits.len() {
        lemma_number_grows(digits, count + 1);
        assert(digits.take(count + 1).drop_last() =~= digits.take(count));
    } else {
        assert(digits.take(count) =~= digits);
    }
}

/// The token at `pos`, if there is one.
pub open spec fn token(ts: Seq<TokenView>, pos: int) -> Option<TokenView> {
    if 0 <= pos < ts.len() {
        Some(ts[pos])
    } else {
        None
    }
}

/// The infix operator that the token at `pos` spells, and how tightly it
/// binds.
pub open spec fn infix_at(ts: Seq<TokenView>, pos: int) -> Option<(BinaryOp, nat)> {
    match token(ts, pos) {
        Some(TokenView::Op(Op::Mul)) => Some((BinaryOp::Math(MathOp::Mul), 9)),
        Some(TokenView::Op(Op::Div)) => Some((BinaryOp::Math(MathOp::Div), 9)),
        Some(TokenView::Op(Op::Plus)) => Some((BinaryOp::Math(MathOp::Add), 8)),
        Some(TokenView::Op(Op::Minus)) => Some((BinaryOp::Math(MathOp::Sub), 8)),
        Some(TokenView::Op(Op::Compare(op))) => Some((BinaryOp::Compare(op), 7)),
        Some(TokenView::Op(Op::Logic(op))) => Some((BinaryOp::Logic(op), 6)),
        Some(TokenView::Op(Op::Eq(op))) => Some((BinaryOp::Eq(op), 5)),
        _ => None,
    }
}

/// The prefix operator that the token at `pos` spells.
pub open spec fn prefix_at(ts: Seq<TokenView>, pos: int) -> Option<UnaryOp> {
    match token(ts, pos) {
        Some(TokenView::Op(Op::Minus)) => Some(UnaryOp::Negate),
        Some(TokenView::Op(Op::LogicNot)) => Some(UnaryOp::LogicNot),
        _ => None,
    }
}

/// The name that the token at `pos` spells, if it is a name in UTF-8.
pub open spec fn name_at(ts: Seq<TokenView>, pos: int) -> Option<Seq<char>> {
    match token(ts, pos) {
        Some(TokenView::Ident(name)) => if valid_utf8(name) {
            Some(decode_utf8(name))
        } else {
            None
        },
        _ => None,
    }
}

/// The expression with the fields accessed by the `.name` pairs that
/// follow from `pos` on, and the position behind them.
pub open spec fn access_from(ts: Seq<TokenView>, value: ExprView, pos: int) -> (ExprView, int)
    decreases ts.len() - pos,
{
    if 0 <= pos && token(ts, pos) == Some(TokenView::Separator(Separator::Dot)) {
        match name_at(ts, pos + 1) {
            Some(field) => access_from(
                ts,
                ExprView::FieldAccess { value: Box::new(value), field },
                pos + 2,
            ),
            None => (value, pos),
        }
    } else {
        (value, pos)
    }
}

/// The atom at `pos` and the position behind it: a number that fits 32
/// bits, `true`, `false`, the name of a table, or an expression in
/// parentheses.
pub open spec fn atom_at(ts: Seq<TokenView>, pos: int) -> Option<(ExprView, int)>
    decreases ts.len() - pos, 0nat,
{
    match token(ts, pos) {
        Some(TokenView::Number(digits)) => match literal_value(digits) {
            Some(value) => Some((ExprView::Literal(FieldValueView::Int(value)), pos + 1)),
            None => None,
        },
        Some(TokenView::Keyword(Keyword::True)) => Some(
            (ExprView::Literal(FieldValueView::Bool(true)), pos + 1),
        ),
        Some(TokenView::Keyword(Keyword::False)) => Some(
            (ExprView::Literal(FieldValueView::Bool(false)), pos + 1),
        ),
        Some(TokenView::Ident(_)) => match name_at(ts, pos) {
            Some(name) => Some((ExprView::TableAccess { name }, pos + 1)),
            None => None,
        },
        Some(TokenView::Separator(Separator::ParenOpen)) => match binary_at(ts, pos + 1, 0) {
            Some((inner, end)) => if token(ts, end) == Some(
                TokenView::Separator(Separator::ParenClose),
            ) {
                Some((inner, end + 1))
            } else {
                None
            },
            None => None,
        },
        _ => None,
    }
}

/// The atom at `pos` with the field accesses that follow it.
pub open spec fn access_at(ts: Seq<TokenView>, pos: int) -> Option<(ExprView, int)>
    decreases ts.len() - pos, 1nat,
{
    match atom_at(ts, pos) {
        Some((atom, end)) => Some(access_from(ts, atom, end)),
        None => None,
    }
}

/// The expression at `pos` that is made of prefix operators and what they
/// apply to.
pub open spec fn unary_at(ts: Seq<TokenView>, pos: int) -> Option<(ExprView, int)>
    decreases ts.len() - pos, 2nat,
{
    match prefix_at(ts, pos) {
        Some(op) => match unary_at(ts, pos + 1) {
            Some((value, end)) => Some((ExprView::UnaryOp { op, value: Box::new(value) }, end)),
            None => None,
        },
        None => access_at(ts, pos),
    }
}

/// The expression at `pos` in which only operators that bind at least as
/// tightly as `min` are applied.
pub open spec fn binary_at(ts: Seq<TokenView>, pos: int, min: nat) -> Option<(ExprView, int)>
    decreases ts.len() - pos, 3nat,
{
    match unary_at(ts, pos) {
        Some((left, end)) => if pos < end <= ts.len() {
            climb(ts, left, end, min)
        } else {
            None
        },
        None => None,
    }
}

/// The expression that begins with `left`, goes on at `pos`, and applies
/// only operators that bind at least as tightly as `min`. Operators of one
/// level group to the left.
pub open spec fn climb(ts: Seq<TokenView>, left: ExprView, pos: int, min: nat) -> Option<
    (ExprView, int),
>
    decreases ts.len() - pos, 4nat,
{
    match infix_at(ts, pos) {
        Some((op, level)) => if level >= min {
            match binary_at(ts, pos + 1, level + 1) {
                Some((right, end)) => if pos < end <= ts.len() {
                    climb(
                        ts,
                        ExprView::BinaryOp { a: Box::new(left), op, b: Box::new(right) },
                        end,
                        min,
                    )
                } else {
                    None
                },
                None => None,
            }
        } else {
            Some((left, pos))
        },
        None => Some((left, pos)),
    }
}

/// The expression that the tokens spell, all of them.
pub open spec fn parsed_expr(ts: Seq<TokenView>) -> Option<ExprView> {
    match binary_at(ts, 0, 0) {
        Some((expr, end)) => if end == ts.len() {
            Some(expr)
        } else {
            None
        },
        None => None,
    }
}

/// The expression that follows the keyword at `pos`, if the keyword is
/// there, and the position behind it.
pub open spec fn clause_at(ts: Seq<TokenView>, pos: int, keyword: Keyword) -> Option<
    (Option<ExprView>, int),
> {
    if token(ts, pos) == Some(TokenView::Keyword(keyword)) {
        match binary_at(ts, pos + 1, 0) {
            Some((expr, end)) => Some((Some(expr), end)),
            None => None,
        }
    } else {
        Some((None, pos))
    }
}

/// The query that the tokens spell, all of them: the keyword `query`, the
/// name of a table, and then, each of them only if it is there, a filter
/// behind `where` and a grouping expression behind `group_by`.
pub open spec fn parsed_query(ts: Seq<TokenView>) -> Option<QueryView> {
    if token(ts, 0) != Some(TokenView::Keyword(Keyword::Query)) {
        None
    } else {
        match name_at(ts, 1) {
            Some(table_name) => match clause_at(ts, 2, Keyword::Where) {
                Some((filter, after_filter)) => match clause_at(
                    ts,
                    after_filter,
                    Keyword::GroupBy,
                ) {
                    Some((group_by, end)) => if end == ts.len() {
                        Some(QueryView { table_name, filter, group_by })
                    } else {
                        None
                    },
                    None => None,
                },
                None => None,
            },
            None => None,
        }
    }
}

} // verus!

verus! {

/// The 32-bit integer that the digits spell, if they spell one.
pub fn read_number(digits: &Vec<u8>) -> (value: Option<i32>)
    ensures
        value == literal_value(digits@),
{
    let mut value: i64 = 0;
    let mut i: usize = 0;
    while i < digits.len()
        invariant
            i <= digits@.len(),
            0 <= value <= i32::MAX,
            value == number_value(digits@.take(i as int)),
            forall|k: int| 0 <= k < i ==> is_digit(#[trigger] digits@[k]),
        decreases digits@.len() - i,
    {
        let b = digits[i];
        if !(0x30 <= b && b <= 0x39) {
            return None;
        }
        proof {
            assert(digits@.take(i + 1).drop_last() =~= digits@.take(i as int));
            lemma_number_grows(digits@, i + 1);
        }
        value = value * 10 + (b - 0x30) as i64;
        if value > i32::MAX as i64 {
            return None;
        }
        i += 1;
    }
    proof {
        assert(digits@.take(i as int) =~= digits@);
    }
    Some(value as i32)
}

/// The name that the bytes spell, if they are UTF-8.
pub fn read_name(name: &Vec<u8>) -> (text: Option<String>)
    ensures
        text.deep_view() == if valid_utf8(name@) {
            Some(decode_utf8(name@))
        } else {
            None
        },
{
    string_from_utf8(name.clone())
}

/// The infix operator that the token at `pos` spells, and how tightly it
/// binds.
pub fn read_infix(tokens: &Vec<Token>, pos: usize) -> (out: Option<(BinaryOp, u8)>)
    ensures
        match out {
            Some((op, level)) => infix_at(tokens.deep_view(), pos as int) == Some(
                (op, level as nat),
            ) && pos < tokens@.len() && level <= 9,
            None => infix_at(tokens.deep_view(), pos as int) is None,
        },
{
    if pos >= tokens.len() {
        return None;
    }
    proof {
        assert(tokens.deep_view()[pos as int] == tokens@[pos as int].deep_view());
    }
    match &tokens[pos] {
        Token::Op(Op::Mul) => Some((BinaryOp::Math(MathOp::Mul), 9)),
        Token::Op(Op::Div) => Some((BinaryOp::Math(MathOp::Div), 9)),
        Token::Op(Op::Plus) => Some((BinaryOp::Math(MathOp::Add), 8)),
        Token::Op(Op::Minus) => Some((BinaryOp::Math(MathOp::Sub), 8)),
        Token::Op(Op::Compare(op)) => Some((BinaryOp::Compare(*op), 7)),
        Token::Op(Op::Logic(op)) => Some((BinaryOp::Logic(*op), 6)),
        Token::Op(Op::Eq(op)) => Some((BinaryOp::Eq(*op), 5)),
        _ => None,
    }
}

/// The name that the token at `pos` spells.
pub fn read_name_at(tokens: &Vec<Token>, pos: usize) -> (name: Option<String>)
    ensures
        name.deep_view() == name_at(tokens.deep_view(), pos as int),
        name is Some ==> pos < tokens@.len(),
{
    if pos >= tokens.len() {
        return None;
    }
    proof {
        assert(tokens.deep_view()[pos as int] == tokens@[pos as int].deep_view());
    }
    match &tokens[pos] {
        Token::Ident(name) => read_name(name),
        _ => None,
    }
}

/// Whether the token at `pos` is the separator given.
pub fn is_separator(tokens: &Vec<Token>, pos: usize, separator: Separator) -> (same: bool)
    ensures
        same == (token(tokens.deep_view(), pos as int) == Some(TokenView::Separator(separator))),
        same ==> pos < tokens@.len(),
{
    if pos >= tokens.len() {
        return false;
    }
    proof {
        assert(tokens.deep_view()[pos as int] == tokens@[pos as int].deep_view());
    }
    match &tokens[pos] {
        Token::Separator(found) => *found == separator,
        _ => false,
    }
}

/// Whether the token at `pos` is the keyword given.
pub fn is_keyword(tokens: &Vec<Token>, pos: usize, keyword: Keyword) -> (same: bool)
    ensures
        same == (token(tokens.deep_view(), pos as int) == Some(TokenView::Keyword(keyword))),
        same ==> pos < tokens@.len(),
{
    if pos >= tokens.len() {
        return false;
    }
    proof {
        assert(tokens.deep_view()[pos as int] == tokens@[pos as int].deep_view());
    }
    match &tokens[pos] {
        Token::Keyword(found) => *found == keyword,
        _ => false,
    }
}

/// Reads the atom at `pos`.
pub fn parse_atom(tokens: &Vec<Token>, pos: usize) -> (out: Option<(Expr, usize)>)
    ensures
        match out {
            Some((expr, end)) => atom_at(tokens.deep_view(), pos as int) == Some(
                (expr.deep_view(), end as int),
            ) && pos < end <= tokens@.len(),
            None => atom_at(tokens.deep_view(), pos as int) is None,
        },
    decreases tokens@.len() - pos, 0nat,
{
    if pos >= tokens.len() {
        return None;
    }
    proof {
        assert(tokens.deep_view()[pos as int] == tokens@[pos as int].deep_view());
    }
    match &tokens[pos] {
        Token::Number(digits) => match read_number(digits) {
            Some(value) => Some((Expr::Literal(FieldValue::Int(value)), pos + 1)),
            None => None,
        },
        Token::Keyword(Keyword::True) => Some((Expr::Literal(FieldValue::Bool(true)), pos + 1)),
        Token::Keyword(Keyword::False) => Some((Expr::Literal(FieldValue::Bool(false)), pos + 1)),
        Token::Ident(name) => match read_name(name) {
            Some(name) => Some((Expr::TableAccess { name }, pos + 1)),
            None => None,
        },
        Token::Separator(Separator::ParenOpen) => match parse_binary(tokens, pos + 1, 0) {
            Some((inner, end)) => {
                if is_separator(tokens, end, Separator::ParenClose) {
                    Some((inner, end + 1))
                } else {
                    None
                }
            },
            None => None,
        },
        _ => None,
    }
}

/// Reads the atom at `pos` with the field accesses that follow it.
pub fn parse_access(tokens: &Vec<Token>, pos: usize) -> (out: Option<(Expr, usize)>)
    ensures
        match out {
            Some((expr, end)) => access_at(tokens.deep_view(), pos as int) == Some(
                (expr.deep_view(), end as int),
            ) && pos < end <= tokens@.len(),
            None => access_at(tokens.deep_view(), pos as int) is None,
        },
    decreases tokens@.len() - pos, 1nat,
{
    let ghost ts = tokens.deep_view();
    let (atom, start) = match parse_atom(tokens, pos) {
        Some(found) => found,
        None => {
            return None;
        },
    };
    let mut value = atom;
    let mut at = start;
    let count = tokens.len();
    loop
        invariant
            ts == tokens.deep_view(),
            count == tokens@.len(),
            pos < at <= tokens@.len(),
            access_at(ts, pos as int) == Some(access_from(ts, value.deep_view(), at as int)),
        decreases tokens@.len() - at,
    {
        if !is_separator(tokens, at, Separator::Dot) {
            return Some((value, at));
        }
        match read_name_at(tokens, at + 1) {
            Some(field) => {
                value = Expr::FieldAccess { value: Box::new(value), field };
                at = at + 2;
            },
            None => {
                return Some((value, at));
            },
        }
    }
}

/// Reads the expression at `pos` that is made of prefix operators and
/// what they apply to.
pub fn parse_unary(tokens: &Vec<Token>, pos: usize) -> (out: Option<(Expr, usize)>)
    ensures
        match out {
            Some((expr, end)) => unary_at(tokens.deep_view(), pos as int) == Some(
                (expr.deep_view(), end as int),
            ) && pos < end <= tokens@.len(),
            None => unary_at(tokens.deep_view(), pos as int) is None,
        },
    decreases tokens@.len() - pos, 2nat,
{
    if pos < tokens.len() {
        proof {
            assert(tokens.deep_view()[pos as int] == tokens@[pos as int].deep_view());
        }
        let prefix = match &tokens[pos] {
            Token::Op(Op::Minus) => Some(UnaryOp::Negate),
            Token::Op(Op::LogicNot) => Some(UnaryOp::LogicNot),
            _ => None,
        };
        match prefix {
            Some(op) => {
                return match parse_unary(tokens, pos + 1) {
                    Some((value, end)) => Some((Expr::UnaryOp { op, value: Box::new(value) }, end)),
                    None => None,
                };
            },
            None => {},
        }
    }
    parse_access(tokens, pos)
}

/// Reads the expression at `pos` in which only operators that bind at
/// least as tightly as `min` are applied.
pub fn parse_binary(tokens: &Vec<Token>, pos: usize, min: u8) -> (out: Option<(Expr, usize)>)
    ensures
        match out {
            Some((expr, end)) => binary_at(tokens.deep_view(), pos as int, min as nat) == Some(
                (expr.deep_view(), end as int),
            ) && pos < end <= tokens@.len(),
            None => binary_at(tokens.deep_view(), pos as int, min as nat) is None,
        },
    decreases tokens@.len() - pos, 3nat,
{
    let ghost ts = tokens.deep_view();
    let (first, start) = match parse_unary(tokens, pos) {
        Some(found) => found,
        None => {
            return None;
        },
    };
    let mut left = first;
    let mut at = start;
    let count = tokens.len();
    loop
        invariant
            ts == tokens.deep_view(),
            count == tokens@.len(),
            pos < at <= tokens@.len(),
            binary_at(ts, pos as int, min as nat) == climb(
                ts,
                left.deep_view(),
                at as int,
                min as nat,
            ),
        decreases tokens@.len() - at,
    {
        let (op, level) = match read_infix(tokens, at) {
            Some(found) => found,
            None => {
                return Some((left, at));
            },
        };
        if level < min {
            return Some((left, at));
        }
        match parse_binary(tokens, at + 1, level + 1) {
            Some((right, end)) => {
                left = Expr::BinaryOp { a: Box::new(left), op, b: Box::new(right) };
                at = end;
            },
            None => {
                return None;
            },
        }
    }
}

/// Reads the clause that begins with `keyword` at `pos`, if it is there.
pub fn parse_clause(tokens: &Vec<Token>, pos: usize, keyword: Keyword) -> (out: Option<
    (Option<Expr>, usize),
>)
    ensures
        match out {
            Some((expr, end)) => clause_at(tokens.deep_view(), pos as int, keyword) == Some(
                (expr.deep_view(), end as int),
            ) && pos <= end,
            None => clause_at(tokens.deep_view(), pos as int, keyword) is None,
        },
{
    let count = tokens.len();
    if is_keyword(tokens, pos, keyword) {
        match parse_binary(tokens, pos + 1, 0) {
            Some((expr, end)) => Some((Some(expr), end)),
            None => None,
        }
    } else {
        Some((None, pos))
    }
}

/// The expression that the tokens spell, all of them.
pub fn parse_expr_tokens(tokens: &Vec<Token>) -> (expr: Option<Expr>)
    ensures
        expr.deep_view() == parsed_expr(tokens.deep_view()),
{
    match parse_binary(tokens, 0, 0) {
        Some((expr, end)) => {
            if end == tokens.len() {
                Some(expr)
            } else {
                None
            }
        },
        None => None,
    }
}

/// The query that the tokens spell, all of them.
pub fn parse_query_tokens(tokens: &Vec<Token>) -> (query: Option<Query>)
    ensures
        query.deep_view() == parsed_query(tokens.deep_view()),
{
    if !is_keyword(tokens, 0, Keyword::Query) {
        return None;
    }
    let table_name = match read_name_at(tokens, 1) {
        Some(name) => name,
        None => {
            return None;
        },
    };
    let (filter, after_filter) = match parse_clause(tokens, 2, Keyword::Where) {
        Some(found) => found,
        None => {
            return None;
        },
    };
    let (group_by, end) = match parse_clause(tokens, after_filter, Keyword::GroupBy) {
        Some(found) => found,
        None => {
            return None;
        },
    };
    if end == tokens.len() {
        Some(Query { table_name, filter, group_by })
    } else {
        None
    }
}

/// The query that the text spells.
pub open spec fn spec_parse(text: Seq<u8>) -> Option<QueryView> {
    match lexed(text) {
        Some(tokens) => parsed_query(tokens),
        None => None,
    }
}

/// The expression that the text spells.
pub open spec fn spec_parse_expr(text: Seq<u8>) -> Option<ExprView> {
    match lexed(text) {
        Some(tokens) => parsed_expr(tokens),
        None => None,
    }
}

/// Reads a query.
pub fn parse(query: &str) -> (out: Option<Query>)
    ensures
        out.deep_view() == spec_parse(vstd::utf8::encode_utf8(query@)),
{
    match lex(query.as_bytes()) {
        Some(tokens) => parse_query_tokens(&tokens),
        None => None,
    }
}

/// Reads an expression.
pub fn parse_expr(input: &str) -> (out: Option<Expr>)
    ensures
        out.deep_view() == spec_parse_expr(vstd::utf8::encode_utf8(input@)),
{
    match lex(input.as_bytes()) {
        Some(tokens) => parse_expr_tokens(&tokens),
        None => None,
    }
}

} // verus!
