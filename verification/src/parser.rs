//! The parser: recursive descent with precedence climbing over the token
//! sequence, producing expression trees.
//!
//! The grammar, loosest to tightest binding:
//!
//! ```text
//! expression  -> equality
//! equality    -> comparison (("!=" | "==") comparison)*
//! comparison  -> term (("<" | "<=" | ">" | ">=") term)*
//! term        -> factor (("-" | "+") factor)*
//! factor      -> unary (("/" | "*") unary)*
//! unary       -> ("!" | "-") unary | primary
//! primary     -> NUMBER | STRING | "true" | "false" | "nil"
//!              | IDENTIFIER | "(" expression ")"
//! ```
//!
//! Every level is specified by a recursive specification function over the
//! token sequence, and the executable parser is proved to return exactly the
//! tree (or the error) that the specification describes.  Binary operators
//! fold left-associatively; unary operators recurse to the right.

use crate::token::{SpecToken, SpecValue, Token, TokenType, Value};
use vstd::prelude::*;

verus! {

/// An expression tree node.  Every `Unary`, `Binary` and `Grouping` node
/// exclusively owns its children: the structure is a finite acyclic tree.
#[derive(PartialEq, Debug)]
pub enum Expr {
    Literal(LiteralExpression),
    Unary(UnaryExpression),
    Binary(BinaryExpression),
    Grouping(Box<Expr>),
}

/// A leaf of the tree: a literal value or a variable reference.
///
/// A number literal carries its exact source spelling; turning it into a
/// machine number is left to callers.
#[derive(PartialEq, Debug)]
pub enum LiteralExpression {
    Variable(String),
    String(String),
    Number(String),
    Boolean(bool),
    Nil,
}

/// A prefix operator applied to one operand.
#[derive(PartialEq, Debug)]
pub struct UnaryExpression {
    pub operator: TokenType,
    pub right: Box<Expr>,
}

/// An infix operator applied to two operands.
#[derive(PartialEq, Debug)]
pub struct BinaryExpression {
    pub left: Box<Expr>,
    pub operator: TokenType,
    pub right: Box<Expr>,
}

/// Marker for the factor precedence level (`*` and `/`).
#[derive(Clone, PartialEq, Debug)]
pub struct FactorExpression {}

/// Marker for the term precedence level (`+` and `-`).
#[derive(Clone, PartialEq, Debug)]
pub struct TermExpression {}

/// Marker for the comparison precedence level (`<`, `<=`, `>`, `>=`).
#[derive(Clone, PartialEq, Debug)]
pub struct ComparisonExpression {}

/// Marker for the equality precedence level (`!=` and `==`).
#[derive(Clone, PartialEq, Debug)]
pub struct EqualityExpression {}

/// The mathematical model of a [`LiteralExpression`].
pub enum SpecLiteral {
    Variable(Seq<char>),
    Str(Seq<char>),
    Num(Seq<char>),
    Boolean(bool),
    Nil,
}

/// The mathematical model of an [`Expr`].
pub enum SpecExpr {
    Literal(SpecLiteral),
    Unary { operator: TokenType, right: Box<SpecExpr> },
    Binary { left: Box<SpecExpr>, operator: TokenType, right: Box<SpecExpr> },
    Grouping(Box<SpecExpr>),
}

impl View for LiteralExpression {
    type V = SpecLiteral;

    open spec fn view(&self) -> SpecLiteral {
        match self {
            LiteralExpression::Variable(s) => SpecLiteral::Variable(s@),
            LiteralExpression::String(s) => SpecLiteral::Str(s@),
            LiteralExpression::Number(s) => SpecLiteral::Num(s@),
            LiteralExpression::Boolean(b) => SpecLiteral::Boolean(*b),
            LiteralExpression::Nil => SpecLiteral::Nil,
        }
    }
}

impl View for UnaryExpression {
    type V = SpecExpr;

    open spec fn view(&self) -> SpecExpr
        decreases self,
    {
        SpecExpr::Unary { operator: self.operator, right: Box::new((*self.right)@) }
    }
}

impl View for BinaryExpression {
    type V = SpecExpr;

    open spec fn view(&self) -> SpecExpr
        decreases self,
    {
        SpecExpr::Binary {
            left: Box::new((*self.left)@),
            operator: self.operator,
            right: Box::new((*self.right)@),
        }
    }
}

impl View for Expr {
    type V = SpecExpr;

    open spec fn view(&self) -> SpecExpr
        decreases self,
    {
        match self {
            Expr::Literal(l) => SpecExpr::Literal(l@),
            Expr::Unary(u) => u@,
            Expr::Binary(b) => b@,
            Expr::Grouping(inner) => SpecExpr::Grouping(Box::new((**inner)@)),
        }
    }
}

impl DeepView for Expr {
    type V = SpecExpr;

    open spec fn deep_view(&self) -> SpecExpr {
        self.view()
    }
}

impl UnaryExpression {
    /// Wraps an operand under a prefix operator.
    pub fn new(operator: TokenType, right: Box<Expr>) -> (e: UnaryExpression)
        ensures
            e@ == (SpecExpr::Unary { operator, right: Box::new(right@) }),
    {
        UnaryExpression { operator, right }
    }
}

impl BinaryExpression {
    /// Joins two operands under an infix operator.
    pub fn new(left: Box<Expr>, operator: TokenType, right: Box<Expr>) -> (e: BinaryExpression)
        ensures
            e@ == (SpecExpr::Binary {
                left: Box::new(left@),
                operator,
                right: Box::new(right@),
            }),
    {
        BinaryExpression { left, operator, right }
    }
}

/// A syntax error: the first offending token aborts the whole pass.
#[derive(Clone, PartialEq, Eq, Debug)]
pub enum ParseError {
    /// A token appeared where no grammar rule expects it.
    UnexpectedToken { found: TokenType, line: usize },
    /// A required token (such as a closing parenthesis) is missing.
    ExpectedToken { expected: TokenType, found: TokenType, line: usize },
    /// Input ended while an operand was still required.
    UnexpectedEnd { line: usize },
}

/// The mathematical model of a [`ParseError`].
pub enum SpecParseError {
    UnexpectedToken { found: TokenType, line: nat },
    ExpectedToken { expected: TokenType, found: TokenType, line: nat },
    UnexpectedEnd { line: nat },
}

impl View for ParseError {
    type V = SpecParseError;

    open spec fn view(&self) -> SpecParseError {
        match self {
            ParseError::UnexpectedToken { found, line } => SpecParseError::UnexpectedToken {
                found: *found,
                line: *line as nat,
            },
            ParseError::ExpectedToken { expected, found, line } => SpecParseError::ExpectedToken {
                expected: *expected,
                found: *found,
                line: *line as nat,
            },
            ParseError::UnexpectedEnd { line } => SpecParseError::UnexpectedEnd {
                line: *line as nat,
            },
        }
    }
}

/// The kind of the token at `pos`, or `Eof` past the end of the sequence.
pub open spec fn peek_kind(ts: Seq<SpecToken>, pos: int) -> TokenType {
    if 0 <= pos < ts.len() {
        ts[pos].token_type
    } else {
        TokenType::Eof
    }
}

/// The line reported for the position `pos`: the token's own line, or the
/// last token's line past the end, or 1 for an empty sequence.
pub open spec fn line_at(ts: Seq<SpecToken>, pos: int) -> nat {
    if 0 <= pos < ts.len() {
        ts[pos].line
    } else if ts.len() > 0 {
        ts[ts.len() - 1].line
    } else {
        1
    }
}

/// The content a string token contributes to the tree: its literal payload,
/// or its lexeme for a token built without one.
pub open spec fn string_payload(t: SpecToken) -> Seq<char> {
    match t.value {
        Option::Some(SpecValue::Str(s)) => s,
        _ => t.lexeme,
    }
}

/// The spelling a number token contributes to the tree: its literal payload,
/// or its lexeme for a token built without one.
pub open spec fn number_payload(t: SpecToken) -> Seq<char> {
    match t.value {
        Option::Some(SpecValue::Num(s)) => s,
        _ => t.lexeme,
    }
}

/// The operators of the binary precedence level `level`: 0 is equality,
/// 1 is comparison, 2 is term, 3 is factor.
pub open spec fn level_op(level: int, k: TokenType) -> bool {
    if level == 0 {
        k == TokenType::BangEquals || k == TokenType::EqualsEquals
    } else if level == 1 {
        k == TokenType::Greater || k == TokenType::GreaterEqual || k == TokenType::Less || k
            == TokenType::LessEqual
    } else if level == 2 {
        k == TokenType::Minus || k == TokenType::Plus
    } else {
        k == TokenType::Slash || k == TokenType::Star
    }
}

/// What parsing one `primary` at `pos` yields: the node and the position
/// after it, or the first syntax error.
pub open spec fn spec_primary(ts: Seq<SpecToken>, pos: int) -> Result<
    (SpecExpr, int),
    SpecParseError,
>
    decreases ts.len() - pos, 0int,
{
    let k = peek_kind(ts, pos);
    if k == TokenType::True {
        Result::Ok((SpecExpr::Literal(SpecLiteral::Boolean(true)), pos + 1))
    } else if k == TokenType::False {
        Result::Ok((SpecExpr::Literal(SpecLiteral::Boolean(false)), pos + 1))
    } else if k == TokenType::Nil {
        Result::Ok((SpecExpr::Literal(SpecLiteral::Nil), pos + 1))
    } else if k == TokenType::Identifier {
        Result::Ok((SpecExpr::Literal(SpecLiteral::Variable(ts[pos].lexeme)), pos + 1))
    } else if k == TokenType::String {
        Result::Ok((SpecExpr::Literal(SpecLiteral::Str(string_payload(ts[pos]))), pos + 1))
    } else if k == TokenType::Number {
        Result::Ok((SpecExpr::Literal(SpecLiteral::Num(number_payload(ts[pos]))), pos + 1))
    } else if k == TokenType::LeftParen {
        match spec_expression(ts, pos + 1) {
            Result::Ok((inner, pos2)) => {
                if peek_kind(ts, pos2) == TokenType::RightParen {
                    Result::Ok((SpecExpr::Grouping(Box::new(inner)), pos2 + 1))
                } else {
                    Result::Err(SpecParseError::ExpectedToken {
                        expected: TokenType::RightParen,
                        found: peek_kind(ts, pos2),
                        line: line_at(ts, pos2),
                    })
                }
            },
            Result::Err(e) => Result::Err(e),
        }
    } else if k == TokenType::Eof {
        Result::Err(SpecParseError::UnexpectedEnd { line: line_at(ts, pos) })
    } else {
        Result::Err(SpecParseError::UnexpectedToken { found: k, line: line_at(ts, pos) })
    }
}

/// What parsing one `unary` at `pos` yields: `!` and `-` recurse to the
/// right; anything else is a `primary`.
pub open spec fn spec_unary(ts: Seq<SpecToken>, pos: int) -> Result<(SpecExpr, int), SpecParseError>
    decreases ts.len() - pos, 1int,
{
    let k = peek_kind(ts, pos);
    if k == TokenType::Bang || k == TokenType::Minus {
        match spec_unary(ts, pos + 1) {
            Result::Ok((operand, pos2)) => Result::Ok(
                (SpecExpr::Unary { operator: k, right: Box::new(operand) }, pos2),
            ),
            Result::Err(e) => Result::Err(e),
        }
    } else {
        spec_primary(ts, pos)
    }
}

/// The termination rank of the binary level `level`: tighter levels rank
/// lower, and every level ranks above `spec_unary` and `spec_primary`.
pub open spec fn binary_rank(level: int) -> int {
    if level >= 3 {
        2
    } else {
        8 - 2 * level
    }
}

/// What parsing the binary precedence level `level` at `pos` yields: one
/// subexpression of the next-tighter level, then a left-associative fold of
/// that level's operators.
pub open spec fn spec_binary(ts: Seq<SpecToken>, pos: int, level: int) -> Result<
    (SpecExpr, int),
    SpecParseError,
>
    recommends
        0 <= level <= 3,
    decreases ts.len() - pos, binary_rank(level),
{
    let first = if level >= 3 {
        spec_unary(ts, pos)
    } else {
        spec_binary(ts, pos, level + 1)
    };
    match first {
        Result::Ok((left, pos2)) => {
            if pos < pos2 <= ts.len() {
                spec_binary_rest(ts, pos2, level, left)
            } else {
                Result::Ok((left, pos2))
            }
        },
        Result::Err(e) => Result::Err(e),
    }
}

/// The left-associative fold: while the token at `pos` is one of the
/// level's operators, consume it, parse one more subexpression of the
/// next-tighter level, and make the accumulated expression the left child
/// of a new `Binary` node.
pub open spec fn spec_binary_rest(ts: Seq<SpecToken>, pos: int, level: int, left: SpecExpr) -> Result<
    (SpecExpr, int),
    SpecParseError,
>
    recommends
        0 <= level <= 3,
    decreases ts.len() - pos, 9int,
{
    let k = peek_kind(ts, pos);
    if level_op(level, k) {
        let next = if level >= 3 {
            spec_unary(ts, pos + 1)
        } else {
            spec_binary(ts, pos + 1, level + 1)
        };
        match next {
            Result::Ok((right, pos2)) => {
                let combined = SpecExpr::Binary {
                    left: Box::new(left),
                    operator: k,
                    right: Box::new(right),
                };
                if pos < pos2 <= ts.len() {
                    spec_binary_rest(ts, pos2, level, combined)
                } else {
                    Result::Ok((combined, pos2))
                }
            },
            Result::Err(e) => Result::Err(e),
        }
    } else {
        Result::Ok((left, pos))
    }
}

/// What parsing one full `expression` at `pos` yields: the equality level,
/// the loosest-binding rule of the grammar.
pub open spec fn spec_expression(ts: Seq<SpecToken>, pos: int) -> Result<
    (SpecExpr, int),
    SpecParseError,
>
    decreases ts.len() - pos, 9int,
{
    spec_binary(ts, pos, 0)
}

/// What parsing the whole stream from `pos` yields: one expression after
/// another until the `Eof` sentinel.
pub open spec fn spec_parse_from(ts: Seq<SpecToken>, pos: int) -> Result<
    Seq<SpecExpr>,
    SpecParseError,
>
    decreases ts.len() - pos, 10int,
{
    if peek_kind(ts, pos) == TokenType::Eof {
        Result::Ok(Seq::empty())
    } else {
        match spec_expression(ts, pos) {
            Result::Ok((e, pos2)) => {
                if pos < pos2 <= ts.len() {
                    match spec_parse_from(ts, pos2) {
                        Result::Ok(rest) => Result::Ok(seq![e] + rest),
                        Result::Err(err) => Result::Err(err),
                    }
                } else {
                    Result::Ok(seq![e])
                }
            },
            Result::Err(err) => Result::Err(err),
        }
    }
}

/// What parsing a whole token sequence yields.
///
/// This is the specification [`parse`] is proved against.
pub open spec fn spec_parse(ts: Seq<SpecToken>) -> Result<Seq<SpecExpr>, SpecParseError> {
    spec_parse_from(ts, 0)
}

/// How an executable parsing step must relate to its specification: on
/// success the tree's model and the new position are exactly the
/// specification's, and at least one token was consumed; on failure the
/// error's model is exactly the specification's.
spec fn parse_result_matches(
    ts: Seq<SpecToken>,
    pos: int,
    r: Result<(Expr, usize), ParseError>,
    sr: Result<(SpecExpr, int), SpecParseError>,
) -> bool {
    match r {
        Result::Ok((e, pos2)) => {
            &&& sr == Result::<(SpecExpr, int), SpecParseError>::Ok((e@, pos2 as int))
            &&& pos < pos2 <= ts.len()
        },
        Result::Err(err) => sr == Result::<(SpecExpr, int), SpecParseError>::Err(err@),
    }
}

fn peek_type(tokens: &Vec<Token>, pos: usize) -> (k: TokenType)
    ensures
        k == peek_kind(tokens.deep_view(), pos as int),
{
    if pos < tokens.len() {
        proof {
            assert(tokens.deep_view()[pos as int] == tokens@[pos as int]@);
        }
        tokens[pos].token_type
    } else {
        TokenType::Eof
    }
}

fn line_at_exec(tokens: &Vec<Token>, pos: usize) -> (l: usize)
    ensures
        l as nat == line_at(tokens.deep_view(), pos as int),
{
    if pos < tokens.len() {
        proof {
            assert(tokens.deep_view()[pos as int] == tokens@[pos as int]@);
        }
        tokens[pos].line
    } else if tokens.len() > 0 {
        proof {
            assert(tokens.deep_view()[tokens@.len() - 1] == tokens@[tokens@.len() - 1]@);
        }
        tokens[tokens.len() - 1].line
    } else {
        1
    }
}

fn parse_primary(tokens: &Vec<Token>, pos: usize) -> (r: Result<(Expr, usize), ParseError>)
    requires
        pos <= tokens@.len(),
    ensures
        parse_result_matches(
            tokens.deep_view(),
            pos as int,
            r,
            spec_primary(tokens.deep_view(), pos as int),
        ),
    decreases tokens@.len() - pos, 0int,
{
    let ghost ts = tokens.deep_view();
    let n: usize = tokens.len();
    let k = peek_type(tokens, pos);
    proof {
        if k != TokenType::Eof {
            assert(pos < ts.len());
            assert(ts[pos as int] == tokens@[pos as int]@);
        }
    }
    if k == TokenType::True {
        Result::Ok((Expr::Literal(LiteralExpression::Boolean(true)), pos + 1))
    } else if k == TokenType::False {
        Result::Ok((Expr::Literal(LiteralExpression::Boolean(false)), pos + 1))
    } else if k == TokenType::Nil {
        Result::Ok((Expr::Literal(LiteralExpression::Nil), pos + 1))
    } else if k == TokenType::Identifier {
        let name = tokens[pos].lexeme.clone();
        Result::Ok((Expr::Literal(LiteralExpression::Variable(name)), pos + 1))
    } else if k == TokenType::String {
        let content = match &tokens[pos].value {
            Option::Some(Value::String(s)) => s.clone(),
            _ => tokens[pos].lexeme.clone(),
        };
        Result::Ok((Expr::Literal(LiteralExpression::String(content)), pos + 1))
    } else if k == TokenType::Number {
        let spelling = match &tokens[pos].value {
            Option::Some(Value::Number(s)) => s.clone(),
            _ => tokens[pos].lexeme.clone(),
        };
        Result::Ok((Expr::Literal(LiteralExpression::Number(spelling)), pos + 1))
    } else if k == TokenType::LeftParen {
        match parse_expression(tokens, pos + 1) {
            Result::Ok((inner, pos2)) => {
                let k2 = peek_type(tokens, pos2);
                if k2 == TokenType::RightParen {
                    proof {
                        assert(pos2 < ts.len());
                    }
                    Result::Ok((Expr::Grouping(Box::new(inner)), pos2 + 1))
                } else {
                    let line = line_at_exec(tokens, pos2);
                    Result::Err(
                        ParseError::ExpectedToken {
                            expected: TokenType::RightParen,
                            found: k2,
                            line,
                        },
                    )
                }
            },
            Result::Err(e) => Result::Err(e),
        }
    } else if k == TokenType::Eof {
        let line = line_at_exec(tokens, pos);
        Result::Err(ParseError::UnexpectedEnd { line })
    } else {
        let line = line_at_exec(tokens, pos);
        Result::Err(ParseError::UnexpectedToken { found: k, line })
    }
}

fn parse_unary(tokens: &Vec<Token>, pos: usize) -> (r: Result<(Expr, usize), ParseError>)
    requires
        pos <= tokens@.len(),
    ensures
        parse_result_matches(
            tokens.deep_view(),
            pos as int,
            r,
            spec_unary(tokens.deep_view(), pos as int),
        ),
    decreases tokens@.len() - pos, 1int,
{
    let ghost ts = tokens.deep_view();
    let n: usize = tokens.len();
    let k = peek_type(tokens, pos);
    if k == TokenType::Bang || k == TokenType::Minus {
        proof {
            assert(pos < ts.len());
        }
        match parse_unary(tokens, pos + 1) {
            Result::Ok((operand, pos2)) => {
                let e = Expr::Unary(UnaryExpression::new(k, Box::new(operand)));
                Result::Ok((e, pos2))
            },
            Result::Err(e) => Result::Err(e),
        }
    } else {
        parse_primary(tokens, pos)
    }
}

fn parse_factor(tokens: &Vec<Token>, pos: usize) -> (r: Result<(Expr, usize), ParseError>)
    requires
        pos <= tokens@.len(),
    ensures
        parse_result_matches(
            tokens.deep_view(),
            pos as int,
            r,
            spec_binary(tokens.deep_view(), pos as int, 3),
        ),
    decreases tokens@.len() - pos, 2int,
{
    let ghost ts = tokens.deep_view();
    let n: usize = tokens.len();
    match parse_unary(tokens, pos) {
        Result::Err(e) => Result::Err(e),
        Result::Ok((first, p1)) => {
            let mut expr = first;
            let mut p: usize = p1;
            let mut k = peek_type(tokens, p);
            while k == TokenType::Slash || k == TokenType::Star
                invariant
                    ts == tokens.deep_view(),
                    n == tokens@.len(),
                    pos < p <= tokens@.len(),
                    k == peek_kind(ts, p as int),
                    spec_binary(ts, pos as int, 3) == spec_binary_rest(ts, p as int, 3, expr@),
                decreases tokens@.len() - p,
            {
                proof {
                    assert(p < ts.len());
                }
                match parse_unary(tokens, p + 1) {
                    Result::Err(e) => {
                        return Result::Err(e);
                    },
                    Result::Ok((right, p2)) => {
                        expr = Expr::Binary(BinaryExpression::new(Box::new(expr), k, Box::new(right)));
                        p = p2;
                        k = peek_type(tokens, p);
                    },
                }
            }
            Result::Ok((expr, p))
        },
    }
}

fn parse_term(tokens: &Vec<Token>, pos: usize) -> (r: Result<(Expr, usize), ParseError>)
    requires
        pos <= tokens@.len(),
    ensures
        parse_result_matches(
            tokens.deep_view(),
            pos as int,
            r,
            spec_binary(tokens.deep_view(), pos as int, 2),
        ),
    decreases tokens@.len() - pos, 4int,
{
    let ghost ts = tokens.deep_view();
    let n: usize = tokens.len();
    match parse_factor(tokens, pos) {
        Result::Err(e) => Result::Err(e),
        Result::Ok((first, p1)) => {
            let mut expr = first;
            let mut p: usize = p1;
            let mut k = peek_type(tokens, p);
            while k == TokenType::Minus || k == TokenType::Plus
                invariant
                    ts == tokens.deep_view(),
                    n == tokens@.len(),
                    pos < p <= tokens@.len(),
                    k == peek_kind(ts, p as int),
                    spec_binary(ts, pos as int, 2) == spec_binary_rest(ts, p as int, 2, expr@),
                decreases tokens@.len() - p,
            {
                proof {
                    assert(p < ts.len());
                }
                match parse_factor(tokens, p + 1) {
                    Result::Err(e) => {
                        return Result::Err(e);
                    },
                    Result::Ok((right, p2)) => {
                        expr = Expr::Binary(BinaryExpression::new(Box::new(expr), k, Box::new(right)));
                        p = p2;
                        k = peek_type(tokens, p);
                    },
                }
            }
            Result::Ok((expr, p))
        },
    }
}

fn parse_comparison(tokens: &Vec<Token>, pos: usize) -> (r: Result<(Expr, usize), ParseError>)
    requires
        pos <= tokens@.len(),
    ensures
        parse_result_matches(
            tokens.deep_view(),
            pos as int,
            r,
            spec_binary(tokens.deep_view(), pos as int, 1),
        ),
    decreases tokens@.len() - pos, 6int,
{
    let ghost ts = tokens.deep_view();
    let n: usize = tokens.len();
    match parse_term(tokens, pos) {
        Result::Err(e) => Result::Err(e),
        Result::Ok((first, p1)) => {
            let mut expr = first;
            let mut p: usize = p1;
            let mut k = peek_type(tokens, p);
            while k == TokenType::Greater || k == TokenType::GreaterEqual || k == TokenType::Less
                || k == TokenType::LessEqual
                invariant
                    ts == tokens.deep_view(),
                    n == tokens@.len(),
                    pos < p <= tokens@.len(),
                    k == peek_kind(ts, p as int),
                    spec_binary(ts, pos as int, 1) == spec_binary_rest(ts, p as int, 1, expr@),
                decreases tokens@.len() - p,
            {
                proof {
                    assert(p < ts.len());
                }
                match parse_term(tokens, p + 1) {
                    Result::Err(e) => {
                        return Result::Err(e);
                    },
                    Result::Ok((right, p2)) => {
                        expr = Expr::Binary(BinaryExpression::new(Box::new(expr), k, Box::new(right)));
                        p = p2;
                        k = peek_type(tokens, p);
                    },
                }
            }
            Result::Ok((expr, p))
        },
    }
}

fn parse_equality(tokens: &Vec<Token>, pos: usize) -> (r: Result<(Expr, usize), ParseError>)
    requires
        pos <= tokens@.len(),
    ensures
        parse_result_matches(
            tokens.deep_view(),
            pos as int,
            r,
            spec_binary(tokens.deep_view(), pos as int, 0),
        ),
    decreases tokens@.len() - pos, 8int,
{
    let ghost ts = tokens.deep_view();
    let n: usize = tokens.len();
    match parse_comparison(tokens, pos) {
        Result::Err(e) => Result::Err(e),
        Result::Ok((first, p1)) => {
            let mut expr = first;
            let mut p: usize = p1;
            let mut k = peek_type(tokens, p);
            while k == TokenType::BangEquals || k == TokenType::EqualsEquals
                invariant
                    ts == tokens.deep_view(),
                    n == tokens@.len(),
                    pos < p <= tokens@.len(),
                    k == peek_kind(ts, p as int),
                    spec_binary(ts, pos as int, 0) == spec_binary_rest(ts, p as int, 0, expr@),
                decreases tokens@.len() - p,
            {
                proof {
                    assert(p < ts.len());
                }
                match parse_comparison(tokens, p + 1) {
                    Result::Err(e) => {
                        return Result::Err(e);
                    },
                    Result::Ok((right, p2)) => {
                        expr = Expr::Binary(BinaryExpression::new(Box::new(expr), k, Box::new(right)));
                        p = p2;
                        k = peek_type(tokens, p);
                    },
                }
            }
            Result::Ok((expr, p))
        },
    }
}

fn parse_expression(tokens: &Vec<Token>, pos: usize) -> (r: Result<(Expr, usize), ParseError>)
    requires
        pos <= tokens@.len(),
    ensures
        parse_result_matches(
            tokens.deep_view(),
            pos as int,
            r,
            spec_expression(tokens.deep_view(), pos as int),
        ),
    decreases tokens@.len() - pos, 9int,
{
    parse_equality(tokens, pos)
}

/// Puts a sequence of already parsed expressions in front of a parse result.
pub open spec fn prepend_exprs(es: Seq<SpecExpr>, rest: Result<Seq<SpecExpr>, SpecParseError>) -> Result<
    Seq<SpecExpr>,
    SpecParseError,
> {
    match rest {
        Result::Ok(more) => Result::Ok(es + more),
        Result::Err(e) => Result::Err(e),
    }
}

/// Parses a whole token sequence into a sequence of expression trees, one
/// expression after another until the `Eof` sentinel.
///
/// The result is exactly `spec_parse(tokens.deep_view())`: on success the
/// models of the returned trees, in order; on failure the first syntax
/// error.  No partial tree sequence is surfaced.
pub fn parse(tokens: &Vec<Token>) -> (r: Result<Vec<Expr>, ParseError>)
    ensures
        (match r {
            Result::Ok(exprs) => spec_parse(tokens.deep_view()) == Result::<
                Seq<SpecExpr>,
                SpecParseError,
            >::Ok(exprs.deep_view()),
            Result::Err(e) => spec_parse(tokens.deep_view()) == Result::<
                Seq<SpecExpr>,
                SpecParseError,
            >::Err(e@),
        }),
{
    let ghost ts = tokens.deep_view();
    let n: usize = tokens.len();
    let mut exprs: Vec<Expr> = Vec::new();
    let mut pos: usize = 0;
    let mut k = peek_type(tokens, 0);
    proof {
        assert(exprs.deep_view() =~= Seq::<SpecExpr>::empty());
        match spec_parse_from(ts, 0) {
            Result::Ok(more) => {
                assert(Seq::<SpecExpr>::empty() + more =~= more);
            },
            Result::Err(_) => {},
        }
    }
    while k != TokenType::Eof
        invariant
            ts == tokens.deep_view(),
            n == tokens@.len(),
            pos <= tokens@.len(),
            k == peek_kind(ts, pos as int),
            spec_parse(ts) == prepend_exprs(exprs.deep_view(), spec_parse_from(ts, pos as int)),
        decreases tokens@.len() - pos,
    {
        proof {
            assert(pos < ts.len());
        }
        match parse_expression(tokens, pos) {
            Result::Err(e) => {
                return Result::Err(e);
            },
            Result::Ok((e, pos2)) => {
                let ghost old_deep = exprs.deep_view();
                let ghost ev = e@;
                exprs.push(e);
                proof {
                    assert(exprs.deep_view() =~= old_deep.push(ev));
                    match spec_parse_from(ts, pos2 as int) {
                        Result::Ok(more) => {
                            assert(old_deep + (seq![ev] + more) =~= old_deep.push(ev) + more);
                        },
                        Result::Err(_) => {},
                    }
                }
                pos = pos2;
                k = peek_type(tokens, pos);
            },
        }
    }
    proof {
        assert(spec_parse_from(ts, pos as int) == Result::<Seq<SpecExpr>, SpecParseError>::Ok(
            Seq::<SpecExpr>::empty(),
        ));
        match spec_parse_from(ts, pos as int) {
            Result::Ok(more) => {
                assert(exprs.deep_view() + more =~= exprs.deep_view());
            },
            Result::Err(_) => {},
        }
    }
    Result::Ok(exprs)
}

} // verus!
