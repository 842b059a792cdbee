//! The tokens of the query language.

use vstd::prelude::*;
use vstd::string::StringSliceAdditionalSpecFns;
use crate::db_core::expr::op::{CompareOp, EqOp, LogicOp};
use crate::names::bytes_eq;

verus! {

/// A token. Names, numbers and text are kept as the bytes that stood in
/// the input.
#[derive(Debug, PartialEq, Eq)]
pub enum Token {
    Keyword(Keyword),
    Ident(Vec<u8>),
    Op(Op),
    Number(Vec<u8>),
    StringLiteral(Vec<u8>),
    Separator(Separator),
}

/// What a [`Token`] stands for.
pub enum TokenView {
    Keyword(Keyword),
    Ident(Seq<u8>),
    Op(Op),
    Number(Seq<u8>),
    StringLiteral(Seq<u8>),
    Separator(Separator),
}

impl DeepView for Token {
    type V = TokenView;

    open spec fn deep_view(&self) -> TokenView {
        match self {
            Token::Keyword(keyword) => TokenView::Keyword(*keyword),
            Token::Ident(name) => TokenView::Ident(name@),
            Token::Op(op) => TokenView::Op(*op),
            Token::Number(digits) => TokenView::Number(digits@),
            Token::StringLiteral(text) => TokenView::StringLiteral(text@),
            Token::Separator(separator) => TokenView::Separator(*separator),
        }
    }
}

#[derive(Debug, Clone, Copy, PartialEq, Eq, Structural)]
pub enum Keyword {
    Query,
    Where,
    GroupBy,
    True,
    False,
}

#[derive(Debug, Clone, Copy, PartialEq, Eq, Structural)]
pub enum Separator {
    Dot,
    Comma,
    Colon,
    ParenOpen,
    ParenClose,
}

#[derive(Debug, Clone, Copy, PartialEq, Eq, Structural)]
pub enum Op {
    Plus,
    Minus,
    Mul,
    Div,
    LogicNot,
    Compare(CompareOp),
    Eq(EqOp),
    Logic(LogicOp),
}

impl Keyword {
    /// The word that spells the keyword.
    pub open spec fn word(self) -> Seq<u8> {
        match self {
            Keyword::Query => seq![0x71u8, 0x75, 0x65, 0x72, 0x79],
            Keyword::Where => seq![0x77u8, 0x68, 0x65, 0x72, 0x65],
            Keyword::GroupBy => seq![0x67u8, 0x72, 0x6f, 0x75, 0x70, 0x5f, 0x62, 0x79],
            Keyword::True => seq![0x74u8, 0x72, 0x75, 0x65],
            Keyword::False => seq![0x66u8, 0x61, 0x6c, 0x73, 0x65],
        }
    }

    /// The keyword that `word` spells.
    pub open spec fn of_word(word: Seq<u8>) -> Option<Keyword> {
        if word == Keyword::Query.word() {
            Some(Keyword::Query)
        } else if word == Keyword::Where.word() {
            Some(Keyword::Where)
        } else if word == Keyword::GroupBy.word() {
            Some(Keyword::GroupBy)
        } else if word == Keyword::True.word() {
            Some(Keyword::True)
        } else if word == Keyword::False.word() {
            Some(Keyword::False)
        } else {
            None
        }
    }

    /// The keyword that `word` spells: `query`, `where`, `group_by`,
    /// `true` or `false`.
    pub fn from_word(word: &[u8]) -> (keyword: Option<Keyword>)
        ensures
            keyword == Keyword::of_word(word@),
    {
        let query: [u8; 5] = [0x71, 0x75, 0x65, 0x72, 0x79];
        let where_: [u8; 5] = [0x77, 0x68, 0x65, 0x72, 0x65];
        let group_by: [u8; 8] = [0x67, 0x72, 0x6f, 0x75, 0x70, 0x5f, 0x62, 0x79];
        let true_: [u8; 4] = [0x74, 0x72, 0x75, 0x65];
        let false_: [u8; 5] = [0x66, 0x61, 0x6c, 0x73, 0x65];
        proof {
            assert(query@ =~= Keyword::Query.word());
            assert(where_@ =~= Keyword::Where.word());
            assert(group_by@ =~= Keyword::GroupBy.word());
            assert(true_@ =~= Keyword::True.word());
            assert(false_@ =~= Keyword::False.word());
        }
        if bytes_eq(word, vstd::array::array_as_slice(&query)) {
            Some(Keyword::Query)
        } else if bytes_eq(word, vstd::array::array_as_slice(&where_)) {
            Some(Keyword::Where)
        } else if bytes_eq(word, vstd::array::array_as_slice(&group_by)) {
            Some(Keyword::GroupBy)
        } else if bytes_eq(word, vstd::array::array_as_slice(&true_)) {
            Some(Keyword::True)
        } else if bytes_eq(word, vstd::array::array_as_slice(&false_)) {
            Some(Keyword::False)
        } else {
            None
        }
    }
}

impl core::str::FromStr for Keyword {
    type Err = ();

    fn from_str(s: &str) -> (out: Result<Self, ()>)
        ensures
            out == match Keyword::of_word(s.spec_bytes()) {
                Some(keyword) => Ok::<Keyword, ()>(keyword),
                None => Err::<Keyword, ()>(()),
            },
    {
        match Keyword::from_word(s.as_bytes()) {
            Some(keyword) => Ok(keyword),
            None => Err(()),
        }
    }
}

} // verus!
