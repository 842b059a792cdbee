//! Cutting the input into tokens.

use vstd::prelude::*;
use vstd::slice::slice_subrange;

use crate::db_core::expr::op::{CompareOp, EqOp, LogicOp};
use crate::query_parse::token::{Keyword, Op, Separator, Token, TokenView};

verus! {

/// Whether the byte is blank: a space, a tab, or one of the line breaks.
pub open spec fn is_space(b: u8) -> bool {
    b == 0x20 || (0x09 <= b <= 0x0d)
}

/// Whether the byte is a digit.
pub open spec fn is_digit(b: u8) -> bool {
    0x30 <= b <= 0x39
}

/// Whether a name can begin with the byte: a letter, an underscore, or a
/// byte of a character beyond ASCII.
pub open spec fn is_name_start(b: u8) -> bool {
    (0x41 <= b <= 0x5a) || (0x61 <= b <= 0x7a) || b == 0x5f || b >= 0x80
}

/// Whether a name can go on with the byte.
pub open spec fn is_name_part(b: u8) -> bool {
    is_name_start(b) || is_digit(b)
}

/// The first position from `i` on that holds no blank.
pub open spec fn skip_spaces(s: Seq<u8>, i: int) -> int
    decreases s.len() - i,
{
    if 0 <= i < s.len() && is_space(s[i]) {
        skip_spaces(s, i + 1)
    } else {
        i
    }
}

/// The first position from `i` on that a name cannot go on with.
pub open spec fn name_end(s: Seq<u8>, i: int) -> int
    decreases s.len() - i,
{
    if 0 <= i < s.len() && is_name_part(s[i]) {
        name_end(s, i + 1)
    } else {
        i
    }
}

/// The first position from `i` on that holds no digit.
pub open spec fn digits_end(s: Seq<u8>, i: int) -> int
    decreases s.len() - i,
{
    if 0 <= i < s.len() && is_digit(s[i]) {
        digits_end(s, i + 1)
    } else {
        i
    }
}

/// The position behind the number that begins at `i`: a zero stands alone,
/// any other digit begins a run of digits.
pub open spec fn number_end(s: Seq<u8>, i: int) -> int {
    if s[i] == 0x30 {
        i + 1
    } else {
        digits_end(s, i)
    }
}

/// The position of the quote that closes the text whose content begins at
/// `i`. A backslash must be followed by a backslash or a quote, and the two
/// are passed over together.
pub open spec fn text_end(s: Seq<u8>, i: int) -> Option<int>
    decreases s.len() - i,
{
    if i < 0 || i >= s.len() {
        None
    } else if s[i] == 0x22 {
        Some(i)
    } else if s[i] == 0x5c {
        if i + 1 < s.len() && (s[i + 1] == 0x5c || s[i + 1] == 0x22) {
            text_end(s, i + 2)
        } else {
            None
        }
    } else {
        text_end(s, i + 1)
    }
}

/// The operator that begins at `i`, and the position behind it.
pub open spec fn op_at(s: Seq<u8>, i: int) -> Option<(Op, int)> {
    let next = if i + 1 < s.len() {
        s[i + 1]
    } else {
        0u8
    };
    if s[i] == 0x3d && next == 0x3d {
        Some((Op::Eq(EqOp::Eq), i + 2))
    } else if s[i] == 0x21 && next == 0x3d {
        Some((Op::Eq(EqOp::Neq), i + 2))
    } else if s[i] == 0x3c && next == 0x3d {
        Some((Op::Compare(CompareOp::LessEq), i + 2))
    } else if s[i] == 0x3c {
        Some((Op::Compare(CompareOp::Less), i + 1))
    } else if s[i] == 0x3e && next == 0x3d {
        Some((Op::Compare(CompareOp::GreaterEq), i + 2))
    } else if s[i] == 0x3e {
        Some((Op::Compare(CompareOp::Greater), i + 1))
    } else if s[i] == 0x2b {
        Some((Op::Plus, i + 1))
    } else if s[i] == 0x2d {
        Some((Op::Minus, i + 1))
    } else if s[i] == 0x2a {
        Some((Op::Mul, i + 1))
    } else if s[i] == 0x2f {
        Some((Op::Div, i + 1))
    } else if s[i] == 0x21 {
        Some((Op::LogicNot, i + 1))
    } else if s[i] == 0x26 && next == 0x26 {
        Some((Op::Logic(LogicOp::And), i + 2))
    } else if s[i] == 0x7c && next == 0x7c {
        Some((Op::Logic(LogicOp::Or), i + 2))
    } else {
        None
    }
}

/// The separator that the byte spells.
pub open spec fn separator_of(b: u8) -> Option<Separator> {
    if b == 0x2e {
        Some(Separator::Dot)
    } else if b == 0x2c {
        Some(Separator::Comma)
    } else if b == 0x3a {
        Some(Separator::Colon)
    } else if b == 0x28 {
        Some(Separator::ParenOpen)
    } else if b == 0x29 {
        Some(Separator::ParenClose)
    } else {
        None
    }
}

/// The token that begins at `i`, and the position behind it. A name is
/// tried first, then an operator, a number, a text in quotes, and a
/// separator.
pub open spec fn token_at(s: Seq<u8>, i: int) -> Option<(TokenView, int)> {
    if is_name_start(s[i]) {
        let end = name_end(s, i);
        let word = s.subrange(i, end);
        match Keyword::of_word(word) {
            Some(keyword) => Some((TokenView::Keyword(keyword), end)),
            None => Some((TokenView::Ident(word), end)),
        }
    } else {
        match op_at(s, i) {
            Some((op, end)) => Some((TokenView::Op(op), end)),
            None => if is_digit(s[i]) {
                Some((TokenView::Number(s.subrange(i, number_end(s, i))), number_end(s, i)))
            } else if s[i] == 0x22 {
                match text_end(s, i + 1) {
                    Some(end) => Some((TokenView::StringLiteral(s.subrange(i + 1, end)), end + 1)),
                    None => None,
                }
            } else {
                match separator_of(s[i]) {
                    Some(separator) => Some((TokenView::Separator(separator), i + 1)),
                    None => None,
                }
            },
        }
    }
}

/// The tokens of the input from `i` on, appended to `found`; nothing if
/// something in the input is no token.
pub open spec fn lex_from(s: Seq<u8>, i: int, found: Seq<TokenView>) -> Option<Seq<TokenView>>
    decreases s.len() - i,
{
    let at = skip_spaces(s, i);
    if at < i || at < 0 || at >= s.len() {
        Some(found)
    } else {
        match token_at(s, at) {
            Some((token, end)) => if at < end <= s.len() {
                lex_from(s, end, found.push(token))
            } else {
                None
            },
            None => None,
        }
    }
}

/// The tokens of the input.
pub open spec fn lexed(s: Seq<u8>) -> Option<Seq<TokenView>> {
    lex_from(s, 0, Seq::empty())
}

/// Blanks are passed over one at a time.
pub proof fn lemma_skip_spaces(s: Seq<u8>, i: int)
    requires
        0 <= i,
    ensures
        i <= skip_spaces(s, i),
        skip_spaces(s, i) <= s.len() || skip_spaces(s, i) == i,
        skip_spaces(s, i) < s.len() ==> !is_space(s[skip_spaces(s, i)]),
    decreases s.len() - i,
{
    if i < s.len() && is_space(s[i]) {
        lemma_skip_spaces(s, i + 1);
    }
}

/// The end of the run of bytes from `start` on that satisfy `run`.
pub fn run_end(bytes: &[u8], start: usize, digits_only: bool) -> (end: usize)
    requires
        start <= bytes@.len(),
    ensures
        start <= end <= bytes@.len(),
        digits_only ==> end == digits_end(bytes@, start as int),
        !digits_only ==> end == name_end(bytes@, start as int),
{
    let mut end = start;
    while end < bytes.len() && in_run(bytes[end], digits_only)
        invariant
            start <= end <= bytes@.len(),
            digits_only ==> digits_end(bytes@, start as int) == digits_end(bytes@, end as int),
            !digits_only ==> name_end(bytes@, start as int) == name_end(bytes@, end as int),
        decreases bytes@.len() - end,
    {
        end += 1;
    }
    end
}

/// Whether the byte belongs to a run of digits, or to a name.
pub fn in_run(b: u8, digits_only: bool) -> (inside: bool)
    ensures
        inside == if digits_only {
            is_digit(b)
        } else {
            is_name_part(b)
        },
{
    if digits_only {
        is_digit_byte(b)
    } else {
        is_name_part_byte(b)
    }
}

/// Whether the byte is a digit.
pub fn is_digit_byte(b: u8) -> (digit: bool)
    ensures
        digit == is_digit(b),
{
    0x30 <= b && b <= 0x39
}

/// Whether a name can begin with the byte.
pub fn is_name_start_byte(b: u8) -> (start: bool)
    ensures
        start == is_name_start(b),
{
    (0x41 <= b && b <= 0x5a) || (0x61 <= b && b <= 0x7a) || b == 0x5f || b >= 0x80
}

/// Whether a name can go on with the byte.
pub fn is_name_part_byte(b: u8) -> (part: bool)
    ensures
        part == is_name_part(b),
{
    is_name_start_byte(b) || is_digit_byte(b)
}

/// Whether the byte is blank.
pub fn is_space_byte(b: u8) -> (space: bool)
    ensures
        space == is_space(b),
{
    b == 0x20 || (0x09 <= b && b <= 0x0d)
}

/// The position of the quote that closes the text whose content begins at
/// `start`.
pub fn find_text_end(bytes: &[u8], start: usize) -> (end: Option<usize>)
    requires
        start <= bytes@.len(),
    ensures
        match end {
            Some(e) => text_end(bytes@, start as int) == Some(e as int) && start <= e < bytes@.len(),
            None => text_end(bytes@, start as int) is None,
        },
{
    let mut i = start;
    while i < bytes.len()
        invariant
            start <= i <= bytes@.len(),
            text_end(bytes@, start as int) == text_end(bytes@, i as int),
        decreases bytes@.len() - i,
    {
        let b = bytes[i];
        if b == 0x22 {
            return Some(i);
        } else if b == 0x5c {
            if i + 1 < bytes.len() && (bytes[i + 1] == 0x5c || bytes[i + 1] == 0x22) {
                i += 2;
            } else {
                return None;
            }
        } else {
            i += 1;
        }
    }
    None
}

/// The operator that begins at `i`, and the position behind it.
pub fn read_op(bytes: &[u8], i: usize) -> (out: Option<(Op, usize)>)
    requires
        i < bytes@.len(),
    ensures
        match out {
            Some((op, end)) => op_at(bytes@, i as int) == Some((op, end as int)) && i < end
                <= bytes@.len(),
            None => op_at(bytes@, i as int) is None,
        },
{
    let b = bytes[i];
    let next: u8 = if i + 1 < bytes.len() {
        bytes[i + 1]
    } else {
        0
    };
    if b == 0x3d && next == 0x3d {
        Some((Op::Eq(EqOp::Eq), i + 2))
    } else if b == 0x21 && next == 0x3d {
        Some((Op::Eq(EqOp::Neq), i + 2))
    } else if b == 0x3c && next == 0x3d {
        Some((Op::Compare(CompareOp::LessEq), i + 2))
    } else if b == 0x3c {
        Some((Op::Compare(CompareOp::Less), i + 1))
    } else if b == 0x3e && next == 0x3d {
        Some((Op::Compare(CompareOp::GreaterEq), i + 2))
    } else if b == 0x3e {
        Some((Op::Compare(CompareOp::Greater), i + 1))
    } else if b == 0x2b {
        Some((Op::Plus, i + 1))
    } else if b == 0x2d {
        Some((Op::Minus, i + 1))
    } else if b == 0x2a {
        Some((Op::Mul, i + 1))
    } else if b == 0x2f {
        Some((Op::Div, i + 1))
    } else if b == 0x21 {
        Some((Op::LogicNot, i + 1))
    } else if b == 0x26 && next == 0x26 {
        Some((Op::Logic(LogicOp::And), i + 2))
    } else if b == 0x7c && next == 0x7c {
        Some((Op::Logic(LogicOp::Or), i + 2))
    } else {
        None
    }
}

/// The separator that the byte spells.
pub fn read_separator(b: u8) -> (separator: Option<Separator>)
    ensures
        separator == separator_of(b),
{
    if b == 0x2e {
        Some(Separator::Dot)
    } else if b == 0x2c {
        Some(Separator::Comma)
    } else if b == 0x3a {
        Some(Separator::Colon)
    } else if b == 0x28 {
        Some(Separator::ParenOpen)
    } else if b == 0x29 {
        Some(Separator::ParenClose)
    } else {
        None
    }
}

/// The token that begins at `i`, and the position behind it.
pub fn read_token(bytes: &[u8], i: usize) -> (out: Option<(Token, usize)>)
    requires
        i < bytes@.len(),
    ensures
        match out {
            Some((token, end)) => token_at(bytes@, i as int) == Some((token.deep_view(), end as int))
                && i < end <= bytes@.len(),
            None => token_at(bytes@, i as int) is None,
        },
{
    let b = bytes[i];
    if is_name_start_byte(b) {
        let end = run_end(bytes, i + 1, false);
        let word = slice_subrange(bytes, i, end);
        match Keyword::from_word(word) {
            Some(keyword) => Some((Token::Keyword(keyword), end)),
            None => Some((Token::Ident(vstd::slice::slice_to_vec(word)), end)),
        }
    } else {
        match read_op(bytes, i) {
            Some((op, end)) => Some((Token::Op(op), end)),
            None => {
                if is_digit_byte(b) {
                    let end = if b == 0x30 {
                        i + 1
                    } else {
                        run_end(bytes, i + 1, true)
                    };
                    let digits = slice_subrange(bytes, i, end);
                    Some((Token::Number(vstd::slice::slice_to_vec(digits)), end))
                } else if b == 0x22 {
                    match find_text_end(bytes, i + 1) {
                        Some(end) => {
                            let text = slice_subrange(bytes, i + 1, end);
                            Some((Token::StringLiteral(vstd::slice::slice_to_vec(text)), end + 1))
                        },
                        None => None,
                    }
                } else {
                    match read_separator(b) {
                        Some(separator) => Some((Token::Separator(separator), i + 1)),
                        None => None,
                    }
                }
            },
        }
    }
}

/// The tokens of the input, or nothing if something in it is no token.
pub fn lex(bytes: &[u8]) -> (tokens: Option<Vec<Token>>)
    ensures
        tokens.deep_view() == lexed(bytes@),
{
    let mut tokens: Vec<Token> = Vec::new();
    let mut i: usize = 0;
    assert(tokens.deep_view() =~= Seq::<TokenView>::empty());
    loop
        invariant
            i <= bytes@.len(),
            lexed(bytes@) == lex_from(bytes@, i as int, tokens.deep_view()),
        decreases bytes@.len() - i,
    {
        let ghost begin = i;
        while i < bytes.len() && is_space_byte(bytes[i])
            invariant
                begin <= i <= bytes@.len(),
                skip_spaces(bytes@, begin as int) == skip_spaces(bytes@, i as int),
            decreases bytes@.len() - i,
        {
            i += 1;
        }
        proof {
            lemma_skip_spaces(bytes@, begin as int);
        }
        if i >= bytes.len() {
            return Some(tokens);
        }
        let ghost before = tokens.deep_view();
        match read_token(bytes, i) {
            Some((token, end)) => {
                tokens.push(token);
                proof {
                    assert(tokens.deep_view() =~= before.push(token.deep_view()));
                }
                i = end;
            },
            None => {
                return None;
            },
        }
    }
}

} // verus!
