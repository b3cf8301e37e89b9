//! A Pratt parser from tokens to statements.
use crate::statement::{AssignOrder, DeclareScope, Statement};
use crate::token::{lexes_run, scan, utf8_text, ByteClass, Category, IdentifierType, Token, Tokenizer};
use vstd::string::StringSliceAdditionalSpecFns;
use vstd::prelude::*;

verus! {

/// Why the source could not be parsed.
#[derive(Debug, PartialEq, Eq)]
pub enum SyntaxError {
    /// A token that cannot stand where it stands
    UnexpectedToken(Token),
    /// The source ends inside a statement
    UnexpectedEnd,
}

/// How tightly a prefix operator binds, or `None` when the category is no
/// prefix operator.
pub open spec fn prefix_power(c: Category) -> Option<u8> {
    match c {
        Category::Plus | Category::Minus | Category::Tilde | Category::Bang => Some(21),
        _ => None,
    }
}

/// How tightly an infix operator binds its left operand, or `None` when the
/// category is no infix operator.
pub open spec fn infix_power(c: Category) -> Option<u8> {
    match c {
        Category::PipePipe => Some(3),
        Category::AmpersandAmpersand => Some(5),
        Category::EqualEqual | Category::BangEqual | Category::Less | Category::LessEqual
        | Category::Greater | Category::GreaterEqual | Category::EqualTilde | Category::BangTilde
        | Category::GreaterLess | Category::GreaterBangLess => Some(7),
        Category::Pipe => Some(9),
        Category::Caret => Some(10),
        Category::Ampersand => Some(11),
        Category::LessLess | Category::GreaterGreater | Category::GreaterGreaterGreater => Some(13),
        Category::Plus | Category::Minus => Some(15),
        Category::Star | Category::Slash | Category::Percent => Some(17),
        Category::StarStar => Some(19),
        Category::X => Some(23),
        _ => None,
    }
}

/// Whether the category is an assignment operator that takes a right side.
pub open spec fn is_assign_operator(c: Category) -> bool {
    match c {
        Category::Equal | Category::PlusEqual | Category::MinusEqual | Category::StarEqual
        | Category::SlashEqual | Category::PercentEqual | Category::LessLessEqual
        | Category::GreaterGreaterEqual | Category::GreaterGreaterGreaterEqual => true,
        _ => false,
    }
}

/// The binding power of a prefix operator.
pub fn prefix_binding_power(token: &Token) -> (r: Result<u8, SyntaxError>)
    ensures
        match prefix_power(token.category) {
            Some(p) => r == Ok::<u8, SyntaxError>(p),
            None => r is Err,
        },
{
    match token.category() {
        Category::Plus | Category::Minus | Category::Tilde | Category::Bang => Ok(21),
        _ => Err(SyntaxError::UnexpectedToken(token.clone())),
    }
}

/// The binding power of an infix operator.
pub fn infix_binding_power(c: &Category) -> (r: Option<u8>)
    ensures
        r == infix_power(*c),
{
    match c {
        Category::PipePipe => Some(3),
        Category::AmpersandAmpersand => Some(5),
        Category::EqualEqual | Category::BangEqual | Category::Less | Category::LessEqual
        | Category::Greater | Category::GreaterEqual | Category::EqualTilde | Category::BangTilde
        | Category::GreaterLess | Category::GreaterBangLess => Some(7),
        Category::Pipe => Some(9),
        Category::Caret => Some(10),
        Category::Ampersand => Some(11),
        Category::LessLess | Category::GreaterGreater | Category::GreaterGreaterGreater => Some(13),
        Category::Plus | Category::Minus => Some(15),
        Category::Star | Category::Slash | Category::Percent => Some(17),
        Category::StarStar => Some(19),
        Category::X => Some(23),
        _ => None,
    }
}

fn assign_operator(c: &Category) -> (r: bool)
    ensures
        r == is_assign_operator(*c),
{
    match c {
        Category::Equal | Category::PlusEqual | Category::MinusEqual | Category::StarEqual
        | Category::SlashEqual | Category::PercentEqual | Category::LessLessEqual
        | Category::GreaterGreaterEqual | Category::GreaterGreaterGreaterEqual => true,
        _ => false,
    }
}

pub(crate) fn copy_category(c: &Category) -> (r: Category)
    ensures
        r == *c,
{
    match c {
        Category::Plus => Category::Plus,
        Category::Minus => Category::Minus,
        Category::Tilde => Category::Tilde,
        Category::Bang => Category::Bang,
        Category::PipePipe => Category::PipePipe,
        Category::AmpersandAmpersand => Category::AmpersandAmpersand,
        Category::EqualEqual => Category::EqualEqual,
        Category::BangEqual => Category::BangEqual,
        Category::Less => Category::Less,
        Category::LessEqual => Category::LessEqual,
        Category::Greater => Category::Greater,
        Category::GreaterEqual => Category::GreaterEqual,
        Category::EqualTilde => Category::EqualTilde,
        Category::BangTilde => Category::BangTilde,
        Category::GreaterLess => Category::GreaterLess,
        Category::GreaterBangLess => Category::GreaterBangLess,
        Category::Pipe => Category::Pipe,
        Category::Caret => Category::Caret,
        Category::Ampersand => Category::Ampersand,
        Category::LessLess => Category::LessLess,
        Category::GreaterGreater => Category::GreaterGreater,
        Category::GreaterGreaterGreater => Category::GreaterGreaterGreater,
        Category::Star => Category::Star,
        Category::Slash => Category::Slash,
        Category::Percent => Category::Percent,
        Category::StarStar => Category::StarStar,
        Category::X => Category::X,
        Category::Equal => Category::Equal,
        Category::PlusEqual => Category::PlusEqual,
        Category::MinusEqual => Category::MinusEqual,
        Category::StarEqual => Category::StarEqual,
        Category::SlashEqual => Category::SlashEqual,
        Category::PercentEqual => Category::PercentEqual,
        Category::LessLessEqual => Category::LessLessEqual,
        Category::GreaterGreaterEqual => Category::GreaterGreaterEqual,
        Category::GreaterGreaterGreaterEqual => Category::GreaterGreaterGreaterEqual,
        Category::PlusPlus => Category::PlusPlus,
        Category::MinusMinus => Category::MinusMinus,
        Category::LeftParen => Category::LeftParen,
        Category::RightParen => Category::RightParen,
        Category::LeftBrace => Category::LeftBrace,
        Category::RightBrace => Category::RightBrace,
        Category::LeftCurlyBracket => Category::LeftCurlyBracket,
        Category::RightCurlyBracket => Category::RightCurlyBracket,
        Category::Comma => Category::Comma,
        Category::Dot => Category::Dot,
        Category::Semicolon => Category::Semicolon,
        Category::DoublePoint => Category::DoublePoint,
        Category::Number(n) => Category::Number(*n),
        Category::IPv4Address => Category::IPv4Address,
        Category::IllegalIPv4Address => Category::IllegalIPv4Address,
        Category::IllegalNumber(b) => Category::IllegalNumber(*b),
        Category::Comment => Category::Comment,
        Category::Unclosed(u) => Category::Unclosed(*u),
        Category::UnknownBase => Category::UnknownBase,
        Category::UnknownSymbol => Category::UnknownSymbol,
        Category::String(s) => Category::String(s.clone()),
        Category::Identifier(i) => Category::Identifier(copy_identifier(i)),
    }
}

fn copy_identifier(i: &IdentifierType) -> (r: IdentifierType)
    ensures
        r == *i,
{
    match i {
        IdentifierType::Function => IdentifierType::Function,
        IdentifierType::FCTAnonArgs => IdentifierType::FCTAnonArgs,
        IdentifierType::True => IdentifierType::True,
        IdentifierType::False => IdentifierType::False,
        IdentifierType::For => IdentifierType::For,
        IdentifierType::ForEach => IdentifierType::ForEach,
        IdentifierType::If => IdentifierType::If,
        IdentifierType::Else => IdentifierType::Else,
        IdentifierType::While => IdentifierType::While,
        IdentifierType::Repeat => IdentifierType::Repeat,
        IdentifierType::Until => IdentifierType::Until,
        IdentifierType::LocalVar => IdentifierType::LocalVar,
        IdentifierType::GlobalVar => IdentifierType::GlobalVar,
        IdentifierType::Null => IdentifierType::Null,
        IdentifierType::Return => IdentifierType::Return,
        IdentifierType::Include => IdentifierType::Include,
        IdentifierType::ACT(a) => IdentifierType::ACT(*a),
        IdentifierType::Exit => IdentifierType::Exit,
        IdentifierType::Undefined(s) => IdentifierType::Undefined(s.clone()),
    }
}

/// A copy of `t`, equal to it.
pub fn copy_token(t: &Token) -> (r: Token)
    ensures
        r == *t,
{
    Token { category: copy_category(&t.category), position: t.position }
}


/// Whether `s` is one of the forms an expression takes; an operator has one or
/// two operands.
pub open spec fn is_expression_form(s: Statement) -> bool {
    &&& s is Primitive || s is Variable || s is Array || s is Call || s is Operator || s is Assign
        || s is Block || s is AttackCategory
    &&& s is Operator ==> (s->Operator_1@.len() == 1 || s->Operator_1@.len() == 2)
}

/// Whether the category is a literal that stands for itself.
pub open spec fn is_literal(c: Category) -> bool {
    match c {
        Category::Number(_) | Category::String(_) | Category::IPv4Address => true,
        Category::Identifier(IdentifierType::True) | Category::Identifier(IdentifierType::False)
        | Category::Identifier(IdentifierType::Null) | Category::Identifier(
            IdentifierType::FCTAnonArgs,
        ) => true,
        _ => false,
    }
}

/// Whether the category ends an expression.
pub open spec fn is_terminator(c: Category) -> bool {
    match c {
        Category::Semicolon | Category::RightParen | Category::Comma | Category::RightBrace
        | Category::RightCurlyBracket => true,
        _ => false,
    }
}

/// Whether the token at `i` has category `c`.
pub open spec fn category_at(toks: Seq<Token>, i: int, c: Category) -> bool {
    0 <= i < toks.len() && toks[i].category == c
}

/// Whether an expression ends at `i`: the source ends or a terminator stands
/// there.
pub open spec fn ends_at(toks: Seq<Token>, i: int) -> bool {
    i >= toks.len() || (0 <= i && is_terminator(toks[i].category))
}

/// Whether `pos` starts `literal op literal` for an infix operator binding
/// tighter than `min_bp`, with the expression ending after it.
pub open spec fn simple_binary(toks: Seq<Token>, pos: int, min_bp: u8) -> bool {
    &&& 0 <= pos && pos + 2 < toks.len()
    &&& is_literal(toks[pos].category)
    &&& infix_power(toks[pos + 1].category) is Some
    &&& infix_power(toks[pos + 1].category)->Some_0 > min_bp
    &&& is_literal(toks[pos + 2].category)
    &&& ends_at(toks, pos + 3)
}

/// Whether `pos` starts a literal followed by an infix operator that binds no
/// tighter than `min_bp`, so that the expression is the literal alone.
pub open spec fn literal_then_weaker(toks: Seq<Token>, pos: int, min_bp: u8) -> bool {
    &&& 0 <= pos && pos + 1 < toks.len()
    &&& is_literal(toks[pos].category)
    &&& infix_power(toks[pos + 1].category) is Some
    &&& infix_power(toks[pos + 1].category)->Some_0 <= min_bp
}

/// Whether `pos` starts `literal op1 literal op2 literal` with both operators
/// binding tighter than `min_bp` and the expression ending after it.
pub open spec fn three_literals(toks: Seq<Token>, pos: int, min_bp: u8) -> bool {
    &&& 0 <= pos && pos + 4 < toks.len()
    &&& is_literal(toks[pos].category) && is_literal(toks[pos + 2].category) && is_literal(
        toks[pos + 4].category,
    )
    &&& infix_power(toks[pos + 1].category) is Some && infix_power(toks[pos + 3].category) is Some
    &&& infix_power(toks[pos + 1].category)->Some_0 > min_bp
    &&& infix_power(toks[pos + 3].category)->Some_0 > min_bp
    &&& ends_at(toks, pos + 5)
}

/// In `a op1 b op2 c`, `op2` binds tighter than `op1`.
pub open spec fn right_binds_tighter(toks: Seq<Token>, pos: int) -> bool {
    infix_power(toks[pos + 3].category)->Some_0 > infix_power(toks[pos + 1].category)->Some_0
}

/// What the operand parser gives for the token at `pos`: a literal, a name, a
/// scanning phase, or an error for a token that starts no operand; for a
/// prefix operator, an index, a call, a group or a block the kind of the
/// result.
pub open spec fn prefix_outcome(toks: Seq<Token>, pos: int, r: Result<(Statement, usize), SyntaxError>) -> bool
    decreases toks.len() - pos,
{
    if pos >= toks.len() {
        r == Err::<(Statement, usize), SyntaxError>(SyntaxError::UnexpectedEnd)
    } else {
        let t = toks[pos];
        match t.category {
            Category::Identifier(IdentifierType::ACT(a)) => r == Ok::<(Statement, usize), SyntaxError>(
                (Statement::AttackCategory(a), (pos + 1) as usize),
            ),
            Category::Identifier(IdentifierType::Undefined(_)) => if category_at(
                toks,
                pos + 1,
                Category::LeftBrace,
            ) {
                &&& r is Ok ==> r->Ok_0.0 is Array && r->Ok_0.0->Array_0 == t && r->Ok_0.0->Array_1 is Some
                &&& (pos + 3 < toks.len() && is_literal(toks[pos + 2].category) && toks[pos
                    + 3].category == Category::RightBrace) ==> r == Ok::<(Statement, usize), SyntaxError>(
                    (
                        Statement::Array(t, Some(Box::new(Statement::Primitive(toks[pos + 2])))),
                        (pos + 4) as usize,
                    ),
                )
            } else if category_at(toks, pos + 1, Category::LeftParen) {
                r is Ok ==> r->Ok_0.0 is Call && r->Ok_0.0->Call_0 == t
            } else {
                r == Ok::<(Statement, usize), SyntaxError>(
                    (Statement::Variable(t), (pos + 1) as usize),
                )
            },
            Category::Plus | Category::Minus | Category::Tilde | Category::Bang => {
                &&& r is Ok ==> r->Ok_0.0 is Operator && r->Ok_0.0->Operator_0 == t.category
                    && r->Ok_0.0->Operator_1@.len() == 1
                &&& (pos + 1 < toks.len() && is_literal(toks[pos + 1].category) && ends_at(
                    toks,
                    pos + 2,
                )) ==> r is Ok && r->Ok_0.0 is Operator && r->Ok_0.0->Operator_1@ == seq![
                    Statement::Primitive(toks[pos + 1]),
                ] && r->Ok_0.1 == pos + 2
            },
            Category::PlusPlus | Category::MinusMinus => r is Ok ==> r->Ok_0.0 is Assign
                && r->Ok_0.0->Assign_0 == t.category && r->Ok_0.0->Assign_1
                == AssignOrder::AssignReturn && *r->Ok_0.0->Assign_3 == Statement::NoOp(None)
                && prefix_outcome(toks, pos + 1, Ok::<(Statement, usize), SyntaxError>(
                (*r->Ok_0.0->Assign_2, r->Ok_0.1),
            )),
            Category::LeftParen => true,
            Category::LeftCurlyBracket => r is Ok ==> r->Ok_0.0 is Block,
            _ => if is_literal(t.category) {
                r == Ok::<(Statement, usize), SyntaxError>(
                    (Statement::Primitive(t), (pos + 1) as usize),
                )
            } else {
                r == Err::<(Statement, usize), SyntaxError>(SyntaxError::UnexpectedToken(t))
            },
        }
    }
}

/// The error for the token at `pos`, or the end of the source.
fn unexpected(toks: &Vec<Token>, pos: usize) -> (r: SyntaxError)
    ensures
        pos < toks@.len() ==> r == SyntaxError::UnexpectedToken(toks@[pos as int]),
        pos >= toks@.len() ==> r == SyntaxError::UnexpectedEnd,
{
    if pos < toks.len() {
        SyntaxError::UnexpectedToken(copy_token(&toks[pos]))
    } else {
        SyntaxError::UnexpectedEnd
    }
}

/// Consumes the token at `pos` when it has category `c`, a category without
/// payload.
fn expect(toks: &Vec<Token>, pos: usize, c: &Category) -> (r: Result<usize, SyntaxError>)
    requires
        *c == Category::LeftParen || *c == Category::RightParen || *c == Category::RightBrace
            || *c == Category::Semicolon || *c == Category::Identifier(IdentifierType::Until),
    ensures
        r is Ok ==> pos < toks@.len() && r->Ok_0 == pos + 1 && toks@[pos as int].category == *c,
        category_at(toks@, pos as int, *c) ==> r == Ok::<usize, SyntaxError>((pos + 1) as usize),
{
    if pos >= toks.len() {
        return Err(SyntaxError::UnexpectedEnd);
    }
    let same = match (&toks[pos].category, c) {
        (Category::LeftParen, Category::LeftParen) => true,
        (Category::RightParen, Category::RightParen) => true,
        (Category::RightBrace, Category::RightBrace) => true,
        (Category::Semicolon, Category::Semicolon) => true,
        (Category::Identifier(IdentifierType::Until), Category::Identifier(IdentifierType::Until)) => true,
        _ => false,
    };
    if same {
        Ok(pos + 1)
    } else {
        Err(unexpected(toks, pos))
    }
}

fn is_target(s: &Statement) -> (r: bool)
    ensures
        r == (s is Variable || s is Array),
{
    match s {
        Statement::Variable(_) => true,
        Statement::Array(_, _) => true,
        _ => false,
    }
}

fn at_category(toks: &Vec<Token>, pos: usize, c: &Category) -> (r: bool)
    requires
        *c == Category::LeftBrace || *c == Category::LeftParen || *c == Category::RightParen
            || *c == Category::RightCurlyBracket || *c == Category::Comma || *c
            == Category::Semicolon || *c == Category::DoublePoint || *c == Category::Identifier(
            IdentifierType::Else,
        ),
    ensures
        r == category_at(toks@, pos as int, *c),
{
    if pos >= toks.len() {
        return false;
    }
    match (&toks[pos].category, c) {
        (Category::LeftBrace, Category::LeftBrace) => true,
        (Category::LeftParen, Category::LeftParen) => true,
        (Category::RightParen, Category::RightParen) => true,
        (Category::RightCurlyBracket, Category::RightCurlyBracket) => true,
        (Category::Comma, Category::Comma) => true,
        (Category::Semicolon, Category::Semicolon) => true,
        (Category::DoublePoint, Category::DoublePoint) => true,
        (Category::Identifier(IdentifierType::Else), Category::Identifier(IdentifierType::Else)) => true,
        _ => false,
    }
}

fn is_name(toks: &Vec<Token>, pos: usize) -> (r: bool)
    ensures
        r ==> pos < toks@.len(),
{
    pos < toks.len() && match &toks[pos].category {
        Category::Identifier(IdentifierType::Undefined(_)) => true,
        _ => false,
    }
}

/// Parses an expression at `pos` whose operators bind tighter than `min_bp`;
/// returns it with the position after it.
pub fn expression(toks: &Vec<Token>, pos: usize, min_bp: u8) -> (r: Result<(Statement, usize), SyntaxError>)
    ensures
        r is Ok ==> pos < r->Ok_0.1 <= toks@.len(),
        r is Ok ==> is_expression_form(r->Ok_0.0),
        pos >= toks@.len() ==> r == Err::<(Statement, usize), SyntaxError>(SyntaxError::UnexpectedEnd),
        pos < toks@.len() && is_literal(toks@[pos as int].category) && ends_at(toks@, pos + 1)
            ==> r == Ok::<(Statement, usize), SyntaxError>(
            (Statement::Primitive(toks@[pos as int]), (pos + 1) as usize),
        ),
        simple_binary(toks@, pos as int, min_bp) ==> r is Ok && r->Ok_0.1 == pos + 3
            && r->Ok_0.0 is Operator && r->Ok_0.0->Operator_0 == toks@[pos + 1].category
            && r->Ok_0.0->Operator_1@ == seq![
            Statement::Primitive(toks@[pos as int]),
            Statement::Primitive(toks@[pos + 2]),
        ],
        literal_then_weaker(toks@, pos as int, min_bp) ==> r == Ok::<(Statement, usize), SyntaxError>(
            (Statement::Primitive(toks@[pos as int]), (pos + 1) as usize),
        ),
        three_literals(toks@, pos as int, min_bp) && right_binds_tighter(toks@, pos as int) ==> r is Ok
            && r->Ok_0.1 == pos + 5 && r->Ok_0.0 is Operator && r->Ok_0.0->Operator_0 == toks@[pos
            + 1].category && r->Ok_0.0->Operator_1@.len() == 2 && r->Ok_0.0->Operator_1@[0]
            == Statement::Primitive(toks@[pos as int]) && r->Ok_0.0->Operator_1@[1] is Operator
            && r->Ok_0.0->Operator_1@[1]->Operator_0 == toks@[pos + 3].category
            && r->Ok_0.0->Operator_1@[1]->Operator_1@ == seq![
            Statement::Primitive(toks@[pos + 2]),
            Statement::Primitive(toks@[pos + 4]),
        ],
        three_literals(toks@, pos as int, min_bp) && !right_binds_tighter(toks@, pos as int) ==> r is Ok
            && r->Ok_0.1 == pos + 5 && r->Ok_0.0 is Operator && r->Ok_0.0->Operator_0 == toks@[pos
            + 3].category && r->Ok_0.0->Operator_1@.len() == 2 && r->Ok_0.0->Operator_1@[1]
            == Statement::Primitive(toks@[pos + 4]) && r->Ok_0.0->Operator_1@[0] is Operator
            && r->Ok_0.0->Operator_1@[0]->Operator_0 == toks@[pos + 1].category
            && r->Ok_0.0->Operator_1@[0]->Operator_1@ == seq![
            Statement::Primitive(toks@[pos as int]),
            Statement::Primitive(toks@[pos + 2]),
        ],
    decreases toks@.len() - pos, 1nat,
{
    let (mut lhs, mut p) = match prefix(toks, pos) {
        Ok(x) => x,
        Err(e) => {
            return Err(e);
        },
    };
    let ghost single = pos < toks@.len() && is_literal(toks@[pos as int].category) && ends_at(
        toks@,
        pos + 1,
    );
    let ghost bin = simple_binary(toks@, pos as int, min_bp);
    let ghost weak = literal_then_weaker(toks@, pos as int, min_bp);
    let ghost tight = three_literals(toks@, pos as int, min_bp) && right_binds_tighter(toks@, pos as int);
    let ghost loose = three_literals(toks@, pos as int, min_bp) && !right_binds_tighter(toks@, pos as int);
    while p < toks.len()
        invariant
            weak == literal_then_weaker(toks@, pos as int, min_bp),
            weak ==> p == pos + 1 && lhs == Statement::Primitive(toks@[pos as int]),
            tight == (three_literals(toks@, pos as int, min_bp) && right_binds_tighter(toks@, pos as int)),
            loose == (three_literals(toks@, pos as int, min_bp) && !right_binds_tighter(toks@, pos as int)),
            tight ==> (p == pos + 1 && lhs == Statement::Primitive(toks@[pos as int])) || (p == pos + 5
                && lhs is Operator && lhs->Operator_0 == toks@[pos + 1].category && lhs->Operator_1@.len() == 2
                && lhs->Operator_1@[0] == Statement::Primitive(toks@[pos as int]) && lhs->Operator_1@[1] is Operator
                && lhs->Operator_1@[1]->Operator_0 == toks@[pos + 3].category
                && lhs->Operator_1@[1]->Operator_1@ == seq![
                Statement::Primitive(toks@[pos + 2]),
                Statement::Primitive(toks@[pos + 4]),
            ]),
            loose ==> (p == pos + 1 && lhs == Statement::Primitive(toks@[pos as int])) || (p == pos + 3
                && lhs is Operator && lhs->Operator_0 == toks@[pos + 1].category && lhs->Operator_1@ == seq![
                Statement::Primitive(toks@[pos as int]),
                Statement::Primitive(toks@[pos + 2]),
            ]) || (p == pos + 5 && lhs is Operator && lhs->Operator_0 == toks@[pos + 3].category
                && lhs->Operator_1@.len() == 2 && lhs->Operator_1@[1] == Statement::Primitive(toks@[pos + 4])
                && lhs->Operator_1@[0] is Operator && lhs->Operator_1@[0]->Operator_0 == toks@[pos + 1].category
                && lhs->Operator_1@[0]->Operator_1@ == seq![
                Statement::Primitive(toks@[pos as int]),
                Statement::Primitive(toks@[pos + 2]),
            ]),
            pos < p <= toks@.len(),
            is_expression_form(lhs),
            bin == simple_binary(toks@, pos as int, min_bp),
            bin ==> (p == pos + 1 && lhs == Statement::Primitive(toks@[pos as int])) || (p == pos + 3
                && lhs is Operator && lhs->Operator_0 == toks@[pos + 1].category && lhs->Operator_1@
                == seq![
                Statement::Primitive(toks@[pos as int]),
                Statement::Primitive(toks@[pos + 2]),
            ]),
            single ==> p == pos + 1 && lhs == Statement::Primitive(toks@[pos as int]),
            single == (pos < toks@.len() && is_literal(toks@[pos as int].category) && ends_at(
                toks@,
                pos + 1,
            )),
        ensures
            weak == literal_then_weaker(toks@, pos as int, min_bp),
            weak ==> p == pos + 1 && lhs == Statement::Primitive(toks@[pos as int]),
            tight == (three_literals(toks@, pos as int, min_bp) && right_binds_tighter(toks@, pos as int)),
            loose == (three_literals(toks@, pos as int, min_bp) && !right_binds_tighter(toks@, pos as int)),
            tight ==> (p == pos + 5
                && lhs is Operator && lhs->Operator_0 == toks@[pos + 1].category && lhs->Operator_1@.len() == 2
                && lhs->Operator_1@[0] == Statement::Primitive(toks@[pos as int]) && lhs->Operator_1@[1] is Operator
                && lhs->Operator_1@[1]->Operator_0 == toks@[pos + 3].category
                && lhs->Operator_1@[1]->Operator_1@ == seq![
                Statement::Primitive(toks@[pos + 2]),
                Statement::Primitive(toks@[pos + 4]),
            ]),
            loose ==> (p == pos + 5 && lhs is Operator && lhs->Operator_0 == toks@[pos + 3].category
                && lhs->Operator_1@.len() == 2 && lhs->Operator_1@[1] == Statement::Primitive(toks@[pos + 4])
                && lhs->Operator_1@[0] is Operator && lhs->Operator_1@[0]->Operator_0 == toks@[pos + 1].category
                && lhs->Operator_1@[0]->Operator_1@ == seq![
                Statement::Primitive(toks@[pos as int]),
                Statement::Primitive(toks@[pos + 2]),
            ]),
            pos < p <= toks@.len(),
            is_expression_form(lhs),
            bin == simple_binary(toks@, pos as int, min_bp),
            single == (pos < toks@.len() && is_literal(toks@[pos as int].category) && ends_at(
                toks@,
                pos + 1,
            )),
            single ==> p == pos + 1 && lhs == Statement::Primitive(toks@[pos as int]),
            bin ==> p == pos + 3 && lhs is Operator && lhs->Operator_0 == toks@[pos + 1].category
                && lhs->Operator_1@ == seq![
                Statement::Primitive(toks@[pos as int]),
                Statement::Primitive(toks@[pos + 2]),
            ],
        decreases toks@.len() - p,
    {
        let cat = &toks[p].category;
        proof {
            if single || (bin && p == pos + 3) {
                assert(is_terminator(toks@[p as int].category));
                assert(!is_assign_operator(toks@[p as int].category));
                assert(infix_power(toks@[p as int].category) is None);
            }
            if bin && p == pos + 1 {
                assert(!is_assign_operator(toks@[p as int].category));
                assert(ends_at(toks@, pos + 3));
            }
            if (tight || loose || weak) && p == pos + 1 {
                assert(!is_assign_operator(toks@[p as int].category));
            }
            if loose && p == pos + 3 {
                assert(!is_assign_operator(toks@[p as int].category));
                assert(ends_at(toks@, pos + 5));
            }
            if (tight || loose) && p == pos + 5 {
                assert(is_terminator(toks@[p as int].category));
                assert(!is_assign_operator(toks@[p as int].category));
                assert(infix_power(toks@[p as int].category) is None);
            }
            if tight && p == pos + 1 {
                assert(simple_binary(toks@, pos + 2, infix_power(toks@[pos + 1].category)->Some_0));
            }
            if loose && p == pos + 1 {
                assert(literal_then_weaker(toks@, pos + 2, infix_power(toks@[pos + 1].category)->Some_0));
            }
        }
        if assign_operator(cat) {
            if min_bp > 0 || !is_target(&lhs) {
                assert(!(bin && p == pos + 1));
                assert(!((tight || loose) && p == pos + 1));
                assert(!(loose && p == pos + 3));
                break;
            }
            let op = copy_category(cat);
            let (rhs, q) = match expression(toks, p + 1, 0) {
                Ok(x) => x,
                Err(e) => {
                    return Err(e);
                },
            };
            lhs = Statement::Assign(op, AssignOrder::AssignReturn, Box::new(lhs), Box::new(rhs));
            p = q;
        } else if matches!(cat, Category::PlusPlus) || matches!(cat, Category::MinusMinus) {
            let op = copy_category(cat);
            lhs = match as_assign_statement(lhs, &toks[p], op) {
                Ok(s) => s,
                Err(e) => {
                    return Err(e);
                },
            };
            p = p + 1;
        } else {
            match infix_binding_power(cat) {
                Some(bp) => {
                    if bp <= min_bp {
                                break;
                    }
                    let op = copy_category(cat);
                    let (rhs, q) = match expression(toks, p + 1, bp) {
                        Ok(x) => x,
                        Err(e) => {
                            return Err(e);
                        },
                    };
                    let mut operands: Vec<Statement> = Vec::new();
                    let ghost (gl, gr) = (lhs, rhs);
                    operands.push(lhs);
                    operands.push(rhs);
                    assert(operands@ =~= seq![gl, gr]);
                    lhs = Statement::Operator(op, operands);
                    p = q;
                },
                None => {
                        break;
                },
            }
        }
    }
    Ok((lhs, p))
}

/// Parses the operand that starts at `pos`: a literal, a name with its index
/// or arguments, a prefix operator, a group or a block.
fn prefix(toks: &Vec<Token>, pos: usize) -> (r: Result<(Statement, usize), SyntaxError>)
    ensures
        r is Ok ==> pos < r->Ok_0.1 <= toks@.len(),
        r is Ok ==> is_expression_form(r->Ok_0.0),
        prefix_outcome(toks@, pos as int, r),
    decreases toks@.len() - pos, 0nat,
{
    if pos >= toks.len() {
        return Err(SyntaxError::UnexpectedEnd);
    }
    let t = &toks[pos];
    match &t.category {
        Category::Number(_) | Category::String(_) | Category::IPv4Address => Ok(
            (Statement::Primitive(copy_token(t)), pos + 1),
        ),
        Category::Identifier(IdentifierType::True) | Category::Identifier(IdentifierType::False)
        | Category::Identifier(IdentifierType::Null) | Category::Identifier(
            IdentifierType::FCTAnonArgs,
        ) => Ok((Statement::Primitive(copy_token(t)), pos + 1)),
        Category::Identifier(IdentifierType::ACT(a)) => Ok((Statement::AttackCategory(*a), pos + 1)),
        Category::Identifier(IdentifierType::Undefined(_)) => {
            let name = copy_token(t);
            if at_category(toks, pos + 1, &Category::LeftBrace) {
                let (idx, q) = match expression(toks, pos + 2, 0) {
                    Ok(x) => x,
                    Err(e) => {
                        return Err(e);
                    },
                };
                let q = match expect(toks, q, &Category::RightBrace) {
                    Ok(q) => q,
                    Err(e) => {
                        return Err(e);
                    },
                };
                Ok((Statement::Array(name, Some(Box::new(idx))), q))
            } else if at_category(toks, pos + 1, &Category::LeftParen) {
                let (args, q) = match arguments(toks, pos + 2) {
                    Ok(x) => x,
                    Err(e) => {
                        return Err(e);
                    },
                };
                Ok((Statement::Call(name, Box::new(Statement::Parameter(args))), q))
            } else {
                Ok((Statement::Variable(name), pos + 1))
            }
        },
        Category::Plus | Category::Minus | Category::Tilde | Category::Bang => {
            let bp = match prefix_binding_power(t) {
                Ok(bp) => bp,
                Err(e) => {
                    return Err(e);
                },
            };
            let op = copy_category(&t.category);
            let (operand, q) = match expression(toks, pos + 1, bp) {
                Ok(x) => x,
                Err(e) => {
                    return Err(e);
                },
            };
            let mut operands: Vec<Statement> = Vec::new();
            let ghost go = operand;
            operands.push(operand);
            assert(operands@ =~= seq![go]);
            Ok((Statement::Operator(op, operands), q))
        },
        Category::PlusPlus | Category::MinusMinus => {
            let op = copy_category(&t.category);
            parse_prefix_assign_operator(toks, pos, op)
        },
        Category::LeftParen => {
            let (inner, q) = match expression(toks, pos + 1, 0) {
                Ok(x) => x,
                Err(e) => {
                    return Err(e);
                },
            };
            match expect(toks, q, &Category::RightParen) {
                Ok(q) => Ok((inner, q)),
                Err(e) => Err(e),
            }
        },
        Category::LeftCurlyBracket => block(toks, pos + 1),
        _ => Err(unexpected(toks, pos)),
    }
}

/// Turns `lhs` followed by a postfix `++` or `--` (the token `token`) into an
/// assignment that gives back the previous value.
pub fn as_assign_statement(lhs: Statement, token: &Token, assign: Category) -> (r: Result<
    Statement,
    SyntaxError,
>)
    ensures
        (lhs is Variable || lhs is Array) ==> r is Ok && r->Ok_0 is Assign && r->Ok_0->Assign_0
            == assign && r->Ok_0->Assign_1 == AssignOrder::ReturnAssign && *r->Ok_0->Assign_2
            == lhs && *r->Ok_0->Assign_3 == Statement::NoOp(None),
        !(lhs is Variable || lhs is Array) ==> r == Err::<Statement, SyntaxError>(
            SyntaxError::UnexpectedToken(*token),
        ),
{
    if is_target(&lhs) {
        Ok(
            Statement::Assign(
                assign,
                AssignOrder::ReturnAssign,
                Box::new(lhs),
                Box::new(Statement::NoOp(None)),
            ),
        )
    } else {
        Err(SyntaxError::UnexpectedToken(copy_token(token)))
    }
}

/// Parses the target after a prefix `++` or `--` at `pos` into an assignment
/// that gives back the new value.
fn parse_prefix_assign_operator(toks: &Vec<Token>, pos: usize, assign: Category) -> (r: Result<
    (Statement, usize),
    SyntaxError,
>)
    requires
        pos < toks@.len(),
    ensures
        r is Ok ==> pos < r->Ok_0.1 <= toks@.len(),
        r is Ok ==> r->Ok_0.0 is Assign && r->Ok_0.0->Assign_0 == assign && r->Ok_0.0->Assign_1
            == AssignOrder::AssignReturn && *r->Ok_0.0->Assign_3 == Statement::NoOp(None)
            && ((*r->Ok_0.0->Assign_2) is Variable || (*r->Ok_0.0->Assign_2) is Array),
        r is Ok ==> prefix_outcome(toks@, pos + 1, Ok::<(Statement, usize), SyntaxError>(
            (*r->Ok_0.0->Assign_2, r->Ok_0.1),
        )),
    decreases toks@.len() - pos - 1, 1nat,
{
    if pos >= toks.len() {
        return Err(SyntaxError::UnexpectedEnd);
    }
    let (target, q) = match prefix(toks, pos + 1) {
        Ok(x) => x,
        Err(e) => {
            return Err(e);
        },
    };
    if !is_target(&target) {
        return Err(unexpected(toks, pos));
    }
    Ok(
        (
            Statement::Assign(
                assign,
                AssignOrder::AssignReturn,
                Box::new(target),
                Box::new(Statement::NoOp(None)),
            ),
            q,
        ),
    )
}

/// Parses call arguments up to and including the closing `)`.
fn arguments(toks: &Vec<Token>, pos: usize) -> (r: Result<(Vec<Statement>, usize), SyntaxError>)
    ensures
        r is Ok ==> pos < r->Ok_0.1 <= toks@.len(),
    decreases toks@.len() - pos, 2nat,
{
    if pos > toks.len() {
        return Err(SyntaxError::UnexpectedEnd);
    }
    let mut args: Vec<Statement> = Vec::new();
    let mut p = pos;
    while p < toks.len()
        invariant
            pos <= p <= toks@.len(),
        decreases toks@.len() - p,
    {
        if at_category(toks, p, &Category::RightParen) {
            return Ok((args, p + 1));
        }
        if is_name(toks, p) && at_category(toks, p + 1, &Category::DoublePoint) {
            let name = copy_token(&toks[p]);
            let (value, q) = match expression(toks, p + 2, 0) {
                Ok(x) => x,
                Err(e) => {
                    return Err(e);
                },
            };
            args.push(Statement::NamedParameter(name, Box::new(value)));
            p = q;
        } else {
            let (value, q) = match expression(toks, p, 0) {
                Ok(x) => x,
                Err(e) => {
                    return Err(e);
                },
            };
            args.push(value);
            p = q;
        }
        if at_category(toks, p, &Category::Comma) {
            p = p + 1;
        } else if !at_category(toks, p, &Category::RightParen) {
            return Err(unexpected(toks, p));
        }
    }
    Err(SyntaxError::UnexpectedEnd)
}

/// Parses the statements of a block up to and including the closing `}`.
fn block(toks: &Vec<Token>, pos: usize) -> (r: Result<(Statement, usize), SyntaxError>)
    ensures
        r is Ok ==> pos < r->Ok_0.1 <= toks@.len(),
        r is Ok ==> r->Ok_0.0 is Block,
    decreases toks@.len() - pos, 4nat,
{
    if pos > toks.len() {
        return Err(SyntaxError::UnexpectedEnd);
    }
    let mut items: Vec<Statement> = Vec::new();
    let mut p = pos;
    while p < toks.len()
        invariant
            pos <= p <= toks@.len(),
        decreases toks@.len() - p,
    {
        if at_category(toks, p, &Category::RightCurlyBracket) {
            return Ok((Statement::Block(items), p + 1));
        }
        let (item, q) = match full_statement(toks, p) {
            Ok(x) => x,
            Err(e) => {
                return Err(e);
            },
        };
        items.push(item);
        p = q;
    }
    Err(SyntaxError::UnexpectedEnd)
}

/// Parses `( expression )` at `pos`.
fn condition(toks: &Vec<Token>, pos: usize) -> (r: Result<(Statement, usize), SyntaxError>)
    ensures
        r is Ok ==> pos < r->Ok_0.1 <= toks@.len(),
    decreases toks@.len() - pos, 2nat,
{
    let p = match expect(toks, pos, &Category::LeftParen) {
        Ok(p) => p,
        Err(e) => {
            return Err(e);
        },
    };
    let (c, q) = match expression(toks, p, 0) {
        Ok(x) => x,
        Err(e) => {
            return Err(e);
        },
    };
    match expect(toks, q, &Category::RightParen) {
        Ok(q) => Ok((c, q)),
        Err(e) => Err(e),
    }
}

/// Parses names separated by `,` up to and including the `;` or `)` that
/// `end_paren` selects.
fn names(toks: &Vec<Token>, pos: usize, end_paren: bool) -> (r: Result<(Vec<Token>, usize), SyntaxError>)
    ensures
        r is Ok ==> pos < r->Ok_0.1 <= toks@.len(),
{
    if pos > toks.len() {
        return Err(SyntaxError::UnexpectedEnd);
    }
    let mut out: Vec<Token> = Vec::new();
    let mut p = pos;
    while p < toks.len()
        invariant
            pos <= p <= toks@.len(),
        decreases toks@.len() - p,
    {
        if (end_paren && at_category(toks, p, &Category::RightParen)) || (!end_paren
            && at_category(toks, p, &Category::Semicolon)) {
            return Ok((out, p + 1));
        }
        if !is_name(toks, p) {
            return Err(unexpected(toks, p));
        }
        out.push(copy_token(&toks[p]));
        p = p + 1;
        if at_category(toks, p, &Category::Comma) {
            p = p + 1;
        }
    }
    Err(SyntaxError::UnexpectedEnd)
}

/// The kind of statement that a keyword or punctuator at the start of a
/// statement begins.
pub open spec fn statement_kind(c: Category, s: Statement) -> bool {
    match c {
        Category::Semicolon => s is NoOp,
        Category::LeftCurlyBracket => s is Block,
        Category::Identifier(IdentifierType::If) => s is If,
        Category::Identifier(IdentifierType::For) => s is For,
        Category::Identifier(IdentifierType::ForEach) => s is ForEach,
        Category::Identifier(IdentifierType::While) => s is While,
        Category::Identifier(IdentifierType::Repeat) => s is Repeat,
        Category::Identifier(IdentifierType::Function) => s is FunctionDeclaration,
        Category::Identifier(IdentifierType::Return) => s is Return,
        Category::Identifier(IdentifierType::Include) => s is Include,
        Category::Identifier(IdentifierType::Exit) => s is Exit,
        Category::Identifier(IdentifierType::LocalVar) => s is Declare && s->Declare_0
            == DeclareScope::Local,
        Category::Identifier(IdentifierType::GlobalVar) => s is Declare && s->Declare_0
            == DeclareScope::Global,
        _ => true,
    }
}

/// What parsing one statement at `pos` gives: the position after it, the kind
/// its first token starts; the end of the source is an error; a lone `;` is an
/// empty statement and a literal followed by `;` is that literal.
pub open spec fn statement_outcome(toks: Seq<Token>, pos: int, r: Result<(Statement, usize), SyntaxError>) -> bool {
    &&& r is Ok ==> pos < r->Ok_0.1 <= toks.len()
    &&& r is Ok ==> statement_kind(toks[pos].category, r->Ok_0.0)
    &&& pos >= toks.len() ==> r == Err::<(Statement, usize), SyntaxError>(SyntaxError::UnexpectedEnd)
    &&& category_at(toks, pos, Category::Semicolon) ==> r == Ok::<(Statement, usize), SyntaxError>(
        (Statement::NoOp(Some(toks[pos])), (pos + 1) as usize),
    )
    &&& (0 <= pos < toks.len() && is_literal(toks[pos].category) && category_at(
        toks,
        pos + 1,
        Category::Semicolon,
    )) ==> r == Ok::<(Statement, usize), SyntaxError>(
        (Statement::Primitive(toks[pos]), (pos + 2) as usize),
    )
}

/// Parses one statement at `pos`, with its terminating `;` where it needs one.
pub fn full_statement(toks: &Vec<Token>, pos: usize) -> (r: Result<(Statement, usize), SyntaxError>)
    ensures
        statement_outcome(toks@, pos as int, r),
    decreases toks@.len() - pos, 3nat,
{
    if pos >= toks.len() {
        return Err(SyntaxError::UnexpectedEnd);
    }
    let t = &toks[pos];
    match &t.category {
        Category::Semicolon => Ok((Statement::NoOp(Some(copy_token(t))), pos + 1)),
        Category::LeftCurlyBracket => block(toks, pos + 1),
        Category::Identifier(IdentifierType::If) => {
            let (c, q) = match condition(toks, pos + 1) {
                Ok(x) => x,
                Err(e) => {
                    return Err(e);
                },
            };
            let (then, q) = match full_statement(toks, q) {
                Ok(x) => x,
                Err(e) => {
                    return Err(e);
                },
            };
            if at_category(toks, q, &Category::Identifier(IdentifierType::Else)) {
                let (other, q) = match full_statement(toks, q + 1) {
                    Ok(x) => x,
                    Err(e) => {
                        return Err(e);
                    },
                };
                Ok((Statement::If(Box::new(c), Box::new(then), Some(Box::new(other))), q))
            } else {
                Ok((Statement::If(Box::new(c), Box::new(then), None), q))
            }
        },
        Category::Identifier(IdentifierType::For) => {
            let p = match expect(toks, pos + 1, &Category::LeftParen) {
                Ok(p) => p,
                Err(e) => {
                    return Err(e);
                },
            };
            let (init, p) = match full_statement(toks, p) {
                Ok(x) => x,
                Err(e) => {
                    return Err(e);
                },
            };
            let (cond, p) = match expression(toks, p, 0) {
                Ok(x) => x,
                Err(e) => {
                    return Err(e);
                },
            };
            let p = match expect(toks, p, &Category::Semicolon) {
                Ok(p) => p,
                Err(e) => {
                    return Err(e);
                },
            };
            let (update, p) = match expression(toks, p, 0) {
                Ok(x) => x,
                Err(e) => {
                    return Err(e);
                },
            };
            let p = match expect(toks, p, &Category::RightParen) {
                Ok(p) => p,
                Err(e) => {
                    return Err(e);
                },
            };
            let (body, p) = match full_statement(toks, p) {
                Ok(x) => x,
                Err(e) => {
                    return Err(e);
                },
            };
            Ok(
                (
                    Statement::For(Box::new(init), Box::new(cond), Box::new(update), Box::new(body)),
                    p,
                ),
            )
        },
        Category::Identifier(IdentifierType::ForEach) => {
            if !is_name(toks, pos + 1) {
                return Err(unexpected(toks, pos + 1));
            }
            let var = copy_token(&toks[pos + 1]);
            let (iter, p) = match condition(toks, pos + 2) {
                Ok(x) => x,
                Err(e) => {
                    return Err(e);
                },
            };
            let (body, p) = match full_statement(toks, p) {
                Ok(x) => x,
                Err(e) => {
                    return Err(e);
                },
            };
            Ok((Statement::ForEach(var, Box::new(iter), Box::new(body)), p))
        },
        Category::Identifier(IdentifierType::While) => {
            let (c, p) = match condition(toks, pos + 1) {
                Ok(x) => x,
                Err(e) => {
                    return Err(e);
                },
            };
            let (body, p) = match full_statement(toks, p) {
                Ok(x) => x,
                Err(e) => {
                    return Err(e);
                },
            };
            Ok((Statement::While(Box::new(c), Box::new(body)), p))
        },
        Category::Identifier(IdentifierType::Repeat) => {
            let (body, p) = match full_statement(toks, pos + 1) {
                Ok(x) => x,
                Err(e) => {
                    return Err(e);
                },
            };
            let p = match expect(toks, p, &Category::Identifier(IdentifierType::Until)) {
                Ok(p) => p,
                Err(e) => {
                    return Err(e);
                },
            };
            let (c, p) = match expression(toks, p, 0) {
                Ok(x) => x,
                Err(e) => {
                    return Err(e);
                },
            };
            let p = match expect(toks, p, &Category::Semicolon) {
                Ok(p) => p,
                Err(e) => {
                    return Err(e);
                },
            };
            Ok((Statement::Repeat(Box::new(body), Box::new(c)), p))
        },
        Category::Identifier(IdentifierType::Function) => {
            if !is_name(toks, pos + 1) {
                return Err(unexpected(toks, pos + 1));
            }
            let name = copy_token(&toks[pos + 1]);
            let p = match expect(toks, pos + 2, &Category::LeftParen) {
                Ok(p) => p,
                Err(e) => {
                    return Err(e);
                },
            };
            let (params, p) = match names(toks, p, true) {
                Ok(x) => x,
                Err(e) => {
                    return Err(e);
                },
            };
            let (body, p) = match full_statement(toks, p) {
                Ok(x) => x,
                Err(e) => {
                    return Err(e);
                },
            };
            Ok((Statement::FunctionDeclaration(name, params, Box::new(body)), p))
        },
        Category::Identifier(IdentifierType::Return) => {
            if at_category(toks, pos + 1, &Category::Semicolon) {
                return Ok((Statement::Return(Box::new(Statement::NoOp(None))), pos + 2));
            }
            let (e, p) = match expression(toks, pos + 1, 0) {
                Ok(x) => x,
                Err(e) => {
                    return Err(e);
                },
            };
            match expect(toks, p, &Category::Semicolon) {
                Ok(p) => Ok((Statement::Return(Box::new(e)), p)),
                Err(e) => Err(e),
            }
        },
        Category::Identifier(IdentifierType::Include) | Category::Identifier(
            IdentifierType::Exit,
        ) => {
            let is_exit = matches!(&t.category, Category::Identifier(IdentifierType::Exit));
            let (e, p) = match condition(toks, pos + 1) {
                Ok(x) => x,
                Err(e) => {
                    return Err(e);
                },
            };
            match expect(toks, p, &Category::Semicolon) {
                Ok(p) => if is_exit {
                    Ok((Statement::Exit(Box::new(e)), p))
                } else {
                    Ok((Statement::Include(Box::new(e)), p))
                },
                Err(e) => Err(e),
            }
        },
        Category::Identifier(IdentifierType::LocalVar) | Category::Identifier(
            IdentifierType::GlobalVar,
        ) => {
            let scope = if matches!(&t.category, Category::Identifier(IdentifierType::LocalVar)) {
                DeclareScope::Local
            } else {
                DeclareScope::Global
            };
            match names(toks, pos + 1, false) {
                Ok((list, p)) => Ok((Statement::Declare(scope, list), p)),
                Err(e) => Err(e),
            }
        },
        _ => {
            let (e, p) = match expression(toks, pos, 0) {
                Ok(x) => x,
                Err(e) => {
                    return Err(e);
                },
            };
            match expect(toks, p, &Category::Semicolon) {
                Ok(p) => Ok((e, p)),
                Err(e) => Err(e),
            }
        },
    }
}

/// Whether `u` stands for `t` among the significant tokens of `code`: the
/// same token, or for an address a string of the address's text at its place.
pub open spec fn stands_for(code: Seq<u8>, t: Token, u: Token) -> bool {
    if t.category == Category::IPv4Address {
        &&& u.position == t.position
        &&& u.category is String
        &&& u.category->String_0@ == utf8_text(code.subrange(t.position.0 as int, t.position.1 as int))
    } else {
        u == t
    }
}

/// Whether `r` are the significant tokens among the first `n` tokens `all`.
pub open spec fn significant_prefix(code: Seq<u8>, all: Seq<Token>, n: int, r: Seq<Token>) -> bool
    decreases n,
{
    if n <= 0 {
        r.len() == 0
    } else if all[n - 1].category == Category::Comment {
        significant_prefix(code, all, n - 1, r)
    } else {
        r.len() > 0 && significant_prefix(code, all, n - 1, r.drop_last()) && stands_for(
            code,
            all[n - 1],
            r.last(),
        )
    }
}

/// Whether `r` are the significant tokens of source `code`: all its tokens,
/// read from the start to the end, without comments, with addresses as
/// strings.
pub open spec fn significant_of(code: Seq<u8>, r: Seq<Token>) -> bool {
    exists|all: Seq<Token>, end: int|
        #![trigger lexes_run(code, 0, all, end)]
        lexes_run(code, 0, all, end) && crate::token::skip_space(code, end) >= code.len()
            && significant_prefix(code, all, all.len() as int, r)
}

/// The tokens of `code` without its comments; an address becomes the string
/// of its text.
pub fn significant_tokens(code: &str) -> (r: Vec<Token>)
    ensures
        forall|i: int| 0 <= i < r@.len() ==> r@[i].category != Category::Comment,
        significant_of(code.spec_bytes(), r@),
{
    let tokenizer = Tokenizer::new(code);
    let all = tokenizer.tokens();
    let n = tokenizer.source_len();
    let ghost src = code.spec_bytes();
    let ghost end = choose|end: int|
        lexes_run(tokenizer.source(), tokenizer.consumed(), all@, end) && crate::token::skip_space(tokenizer.source(), end) >= tokenizer.source().len();
    proof {
        crate::laws::law_spans_in_order(src, 0, all@, end);
    }
    let mut out: Vec<Token> = Vec::new();
    let mut i: usize = 0;
    while i < all.len()
        invariant
            i <= all@.len(),
            n == src.len(),
            tokenizer.source() == src,
            end <= src.len(),
            forall|k: int|
                0 <= k < all@.len() ==> 0 <= #[trigger] all@[k].position.0 <= all@[k].position.1 <= end,
            forall|k: int| 0 <= k < out@.len() ==> out@[k].category != Category::Comment,
            significant_prefix(src, all@, i as int, out@),
        decreases all@.len() - i,
    {
        let ghost before = out@;
        match &all[i].category {
            Category::Comment => {},
            Category::IPv4Address => {
                let (start, stop) = all[i].position;
                assert(all@[i as int].position.0 <= all@[i as int].position.1);
                if start <= stop && stop <= tokenizer.source_len() {
                    let text = tokenizer.lookup(start..stop);
                    out.push(Token { category: Category::String(text), position: (start, stop) });
                } else {
                    out.push(copy_token(&all[i]));
                }
            },
            _ => out.push(copy_token(&all[i])),
        }
        proof {
            if all@[i as int].category != Category::Comment {
                assert(out@.drop_last() =~= before);
            }
        }
        i = i + 1;
    }
    proof {
        assert(lexes_run(src, 0, all@, end));
    }
    out
}

/// What one entry of a parse that starts at `from` and goes on at `to` says:
/// a statement read from `from` to `to`, or an error there after which parsing
/// resumes behind the next `;` (or at the end).
pub open spec fn entry_outcome(toks: Seq<Token>, from: int, e: Result<Statement, SyntaxError>, to: int) -> bool {
    match e {
        Ok(st) => statement_outcome(toks, from, Ok::<(Statement, usize), SyntaxError>((st, to as usize))),
        Err(err) => {
            &&& statement_outcome(toks, from, Err::<(Statement, usize), SyntaxError>(err))
            &&& from < to <= toks.len()
            &&& (to == toks.len() || category_at(toks, to - 1, Category::Semicolon))
        },
    }
}

/// The entries `rs` are read one after another from `from`, and reading stops
/// at `to`.
pub open spec fn parsed_between(toks: Seq<Token>, from: int, rs: Seq<Result<Statement, SyntaxError>>, to: int) -> bool
    decreases rs.len(),
{
    if rs.len() == 0 {
        from == to
    } else {
        exists|mid: int|
            #![trigger entry_outcome(toks, mid, rs.last(), to)]
            parsed_between(toks, from, rs.drop_last(), mid) && mid < toks.len() && entry_outcome(
                toks,
                mid,
                rs.last(),
                to,
            )
    }
}

/// Parses the tokens into top-level statements, one entry per statement or
/// error, until the tokens run out.
pub fn parse_tokens(toks: &Vec<Token>) -> (r: Vec<Result<Statement, SyntaxError>>)
    ensures
        exists|end: int| parsed_between(toks@, 0, r@, end) && end >= toks@.len(),
{
    let mut out: Vec<Result<Statement, SyntaxError>> = Vec::new();
    let mut p: usize = 0;
    while p < toks.len()
        invariant
            p <= toks@.len(),
            parsed_between(toks@, 0, out@, p as int),
        decreases toks@.len() - p,
    {
        let ghost before = out@;
        let step = full_statement(toks, p);
        let ghost gstep = step;
        match step {
            Ok((st, q)) => {
                let ghost gs = st;
                out.push(Ok(st));
                proof {
                    assert(out@.drop_last() =~= before);
                    assert(entry_outcome(toks@, p as int, out@.last(), q as int));
                }
                p = q;
            },
            Err(e) => {
                let ghost ge = e;
                out.push(Err(e));
                let mut q = p + 1;
                while q < toks.len() && !at_category(toks, q - 1, &Category::Semicolon)
                    invariant
                        p < q <= toks@.len(),
                    decreases toks@.len() - q,
                {
                    q = q + 1;
                }
                proof {
                    assert(out@.drop_last() =~= before);
                    assert(entry_outcome(toks@, p as int, out@.last(), q as int));
                }
                p = q;
            },
        }
    }
    out
}

/// Parses `code` into its top-level statements, see `parse_tokens`.
pub fn parse(code: &str) -> (r: Vec<Result<Statement, SyntaxError>>)
    ensures
        exists|toks: Seq<Token>, end: int|
            parsed_between(toks, 0, r@, end) && end >= toks.len() && significant_of(
                code.spec_bytes(),
                toks,
            ) && forall|i: int| 0 <= i < toks.len() ==> toks[i].category != Category::Comment,
{
    let toks = significant_tokens(code);
    parse_tokens(&toks)
}

} // verus!
