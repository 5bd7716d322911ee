//! The recursive-descent SQL parser.
//!
//! The grammar, lowest precedence first:
//!
//! ```text
//! select     := SELECT item (, item)* FROM path join* [WHERE expr]
//!               [ORDER BY path [ASC|DESC] (, path [ASC|DESC])*] [LIMIT integer]
//! item       := * | path
//! join       := JOIN path ON expr
//! expr       := and (OR and)*
//! and        := not (AND not)*
//! not        := NOT not | comparison
//! comparison := primary [NOT IN list | IN list | LIKE primary | op primary]
//! list       := ( primary (, primary)* )
//! primary    := ( expr ) | path | integer | string
//! path       := identifier (. identifier)*
//! ```
//!
//! Each parsing function below is specified by a spec function of the same
//! shape over the token views; the executable parser is proved to compute
//! exactly what they describe, error messages and positions included.

use vstd::prelude::*;
use crate::ast::{
    BinaryOperator, Expr, ExprV, Join, JoinKind, JoinV, Literal, LiteralV, OrderBy, OrderByV,
    OrderDirection, SelectItem, SelectItemV, SelectStatement, SelectStatementV, TableRef,
    UnaryOperator, lemma_views_of_push,
};
use crate::lexer::{KindV, Token, TokenKind, TokenV, lex, lex_spec, token_views};
use crate::text::{owned, push_char, push_str};

verus! {

#[derive(Debug, Clone, PartialEq, Eq)]
pub struct ParseError {
    pub message: String,
    pub position: usize,
}

/// A parse error, with its message as a character sequence.
pub struct ErrorV {
    pub message: Seq<char>,
    pub position: int,
}

impl ParseError {
    pub open spec fn view(&self) -> ErrorV {
        ErrorV { message: self.message@, position: self.position as int }
    }
}

/// The outcome of parsing a `T` from a token position: the value and the next
/// position, or an error.
pub type Parsed<T> = Result<(T, int), ErrorV>;

#[derive(Clone, Copy)]
pub enum TokenMatcher {
    Select,
    From,
    Join,
    On,
    Where,
    Order,
    By,
    Limit,
    Asc,
    Desc,
    And,
    Or,
    Not,
    In,
    Like,
    Comma,
    Dot,
    LParen,
    RParen,
    Star,
    Eq,
    NotEq,
    Gt,
    Lt,
    Gte,
    Lte,
}

/// Whether a matcher accepts a token kind.
pub open spec fn accepts(m: TokenMatcher, k: KindV) -> bool {
    match (m, k) {
        (TokenMatcher::Select, KindV::Select) => true,
        (TokenMatcher::From, KindV::From) => true,
        (TokenMatcher::Join, KindV::Join) => true,
        (TokenMatcher::On, KindV::On) => true,
        (TokenMatcher::Where, KindV::Where) => true,
        (TokenMatcher::Order, KindV::Order) => true,
        (TokenMatcher::By, KindV::By) => true,
        (TokenMatcher::Limit, KindV::Limit) => true,
        (TokenMatcher::Asc, KindV::Asc) => true,
        (TokenMatcher::Desc, KindV::Desc) => true,
        (TokenMatcher::And, KindV::And) => true,
        (TokenMatcher::Or, KindV::Or) => true,
        (TokenMatcher::Not, KindV::Not) => true,
        (TokenMatcher::In, KindV::In) => true,
        (TokenMatcher::Like, KindV::Like) => true,
        (TokenMatcher::Comma, KindV::Comma) => true,
        (TokenMatcher::Dot, KindV::Dot) => true,
        (TokenMatcher::LParen, KindV::LParen) => true,
        (TokenMatcher::RParen, KindV::RParen) => true,
        (TokenMatcher::Star, KindV::Star) => true,
        (TokenMatcher::Eq, KindV::Eq) => true,
        (TokenMatcher::NotEq, KindV::NotEq) => true,
        (TokenMatcher::Gt, KindV::Gt) => true,
        (TokenMatcher::Lt, KindV::Lt) => true,
        (TokenMatcher::Gte, KindV::Gte) => true,
        (TokenMatcher::Lte, KindV::Lte) => true,
        _ => false,
    }
}

/// A matcher accepts only the one keyword or punctuation kind named like
/// it: never an identifier, an integer or a string.
pub proof fn lemma_accepts_no_values(m: TokenMatcher, k: KindV)
    ensures
        accepts(m, k) ==> !(k is Identifier || k is Integer || k is Text),
{
}

impl TokenMatcher {
    fn matches(self, token: Option<&Token>) -> (r: bool)
        ensures
            r == match token {
                Some(t) => accepts(self, t.kind.view()),
                None => false,
            },
    {
        match token {
            None => false,
            Some(token) => match (self, &token.kind) {
                (Self::Select, TokenKind::Select)
                | (Self::From, TokenKind::From)
                | (Self::Join, TokenKind::Join)
                | (Self::On, TokenKind::On)
                | (Self::Where, TokenKind::Where)
                | (Self::Order, TokenKind::Order)
                | (Self::By, TokenKind::By)
                | (Self::Limit, TokenKind::Limit)
                | (Self::Asc, TokenKind::Asc)
                | (Self::Desc, TokenKind::Desc)
                | (Self::And, TokenKind::And)
                | (Self::Or, TokenKind::Or)
                | (Self::Not, TokenKind::Not)
                | (Self::In, TokenKind::In)
                | (Self::Like, TokenKind::Like)
                | (Self::Comma, TokenKind::Comma)
                | (Self::Dot, TokenKind::Dot)
                | (Self::LParen, TokenKind::LParen)
                | (Self::RParen, TokenKind::RParen)
                | (Self::Star, TokenKind::Star)
                | (Self::Eq, TokenKind::Eq)
                | (Self::NotEq, TokenKind::NotEq)
                | (Self::Gt, TokenKind::Gt)
                | (Self::Lt, TokenKind::Lt)
                | (Self::Gte, TokenKind::Gte)
                | (Self::Lte, TokenKind::Lte) => true,
                _ => false,
            },
        }
    }
}

// ---------------------------------------------------------------------------
// The grammar as spec functions over token views.
// ---------------------------------------------------------------------------

/// The position an error at token index `p` reports: that token's start, or 0
/// past the end.
pub open spec fn pos_at(t: Seq<TokenV>, p: int) -> int {
    if 0 <= p < t.len() {
        t[p].start
    } else {
        0
    }
}

pub open spec fn fail<T>(t: Seq<TokenV>, p: int, message: Seq<char>) -> Parsed<T> {
    Err(ErrorV { message, position: pos_at(t, p) })
}

/// Whether the token at `p` exists and `m` accepts it.
pub open spec fn at(t: Seq<TokenV>, p: int, m: TokenMatcher) -> bool {
    0 <= p < t.len() && accepts(m, t[p].kind)
}

/// The position after taking one token at `p`, where there is one.
pub open spec fn after_take(t: Seq<TokenV>, p: int) -> int {
    if 0 <= p < t.len() {
        p + 1
    } else {
        p
    }
}

/// The rest of a dotted path after its first segment.
pub open spec fn ident_tail(t: Seq<TokenV>, q: int, acc: Seq<char>) -> Parsed<Seq<char>>
    decreases t.len() - q,
{
    if at(t, q, TokenMatcher::Dot) {
        if q + 1 < t.len() {
            match t[q + 1].kind {
                KindV::Identifier(n) => ident_tail(t, q + 2, acc.push('.') + n),
                _ => fail(t, q + 2, "expected identifier after ."@),
            }
        } else {
            fail(t, q + 1, "expected identifier after ."@)
        }
    } else {
        Ok((acc, q))
    }
}

/// A dotted path `a.b.c`, as one string.
pub open spec fn ident_path(t: Seq<TokenV>, p: int) -> Parsed<Seq<char>> {
    if 0 <= p < t.len() {
        match t[p].kind {
            KindV::Identifier(v) => ident_tail(t, p + 1, v),
            _ => fail(t, p + 1, "expected identifier"@),
        }
    } else {
        fail(t, p, "expected identifier"@)
    }
}

pub open spec fn p_expression(t: Seq<TokenV>, p: int) -> Parsed<ExprV>
    decreases t.len() - p, 8int,
{
    p_or(t, p)
}

pub open spec fn p_or(t: Seq<TokenV>, p: int) -> Parsed<ExprV>
    decreases t.len() - p, 7int,
{
    match p_and(t, p) {
        Ok((e, q)) => if p <= q <= t.len() {
            or_tail(t, q, e)
        } else {
            Ok((e, q))
        },
        Err(x) => Err(x),
    }
}

pub open spec fn or_tail(t: Seq<TokenV>, q: int, e: ExprV) -> Parsed<ExprV>
    decreases t.len() - q, 6int,
{
    if at(t, q, TokenMatcher::Or) {
        match p_and(t, q + 1) {
            Ok((r, q2)) => {
                let e2 = ExprV::Binary(Box::new(e), BinaryOperator::Or, Box::new(r));
                if q < q2 <= t.len() {
                    or_tail(t, q2, e2)
                } else {
                    Ok((e2, q2))
                }
            },
            Err(x) => Err(x),
        }
    } else {
        Ok((e, q))
    }
}

pub open spec fn p_and(t: Seq<TokenV>, p: int) -> Parsed<ExprV>
    decreases t.len() - p, 5int,
{
    match p_not(t, p) {
        Ok((e, q)) => if p <= q <= t.len() {
            and_tail(t, q, e)
        } else {
            Ok((e, q))
        },
        Err(x) => Err(x),
    }
}

pub open spec fn and_tail(t: Seq<TokenV>, q: int, e: ExprV) -> Parsed<ExprV>
    decreases t.len() - q, 4int,
{
    if at(t, q, TokenMatcher::And) {
        match p_not(t, q + 1) {
            Ok((r, q2)) => {
                let e2 = ExprV::Binary(Box::new(e), BinaryOperator::And, Box::new(r));
                if q < q2 <= t.len() {
                    and_tail(t, q2, e2)
                } else {
                    Ok((e2, q2))
                }
            },
            Err(x) => Err(x),
        }
    } else {
        Ok((e, q))
    }
}

pub open spec fn p_not(t: Seq<TokenV>, p: int) -> Parsed<ExprV>
    decreases t.len() - p, 3int,
{
    if at(t, p, TokenMatcher::Not) {
        match p_not(t, p + 1) {
            Ok((e, q)) => Ok((ExprV::Unary(UnaryOperator::Not, Box::new(e)), q)),
            Err(x) => Err(x),
        }
    } else {
        p_comparison(t, p)
    }
}

/// The comparison operator at `q`, in the order the parser tries them.
pub open spec fn comparison_op(t: Seq<TokenV>, q: int) -> Option<BinaryOperator> {
    if at(t, q, TokenMatcher::Eq) {
        Some(BinaryOperator::Eq)
    } else if at(t, q, TokenMatcher::NotEq) {
        Some(BinaryOperator::NotEq)
    } else if at(t, q, TokenMatcher::Gte) {
        Some(BinaryOperator::Gte)
    } else if at(t, q, TokenMatcher::Lte) {
        Some(BinaryOperator::Lte)
    } else if at(t, q, TokenMatcher::Gt) {
        Some(BinaryOperator::Gt)
    } else if at(t, q, TokenMatcher::Lt) {
        Some(BinaryOperator::Lt)
    } else {
        None
    }
}

pub open spec fn p_comparison(t: Seq<TokenV>, p: int) -> Parsed<ExprV>
    decreases t.len() - p, 2int,
{
    match p_primary(t, p) {
        Ok((left, q)) => if !(p <= q <= t.len()) {
            Ok((left, q))
        } else if at(t, q, TokenMatcher::Not) {
            if at(t, q + 1, TokenMatcher::In) {
                in_list(t, q + 2, left, true)
            } else {
                fail(t, q + 1, "expected IN after NOT"@)
            }
        } else if at(t, q, TokenMatcher::In) {
            in_list(t, q + 1, left, false)
        } else if at(t, q, TokenMatcher::Like) {
            match p_primary(t, q + 1) {
                Ok((r, q2)) => Ok(
                    (ExprV::Binary(Box::new(left), BinaryOperator::Like, Box::new(r)), q2),
                ),
                Err(x) => Err(x),
            }
        } else {
            match comparison_op(t, q) {
                Some(op) => match p_primary(t, q + 1) {
                    Ok((r, q2)) => Ok((ExprV::Binary(Box::new(left), op, Box::new(r)), q2)),
                    Err(x) => Err(x),
                },
                None => Ok((left, q)),
            }
        },
        Err(x) => Err(x),
    }
}

pub open spec fn in_list(t: Seq<TokenV>, p: int, left: ExprV, negated: bool) -> Parsed<ExprV>
    decreases t.len() - p, 3int,
{
    if at(t, p, TokenMatcher::LParen) {
        match in_values(t, p + 1, Seq::empty()) {
            Ok((values, q)) => if at(t, q, TokenMatcher::RParen) {
                Ok((ExprV::InList(Box::new(left), values, negated), q + 1))
            } else {
                fail(t, q, "expected ) after IN list"@)
            },
            Err(x) => Err(x),
        }
    } else {
        fail(t, p, "expected ( after IN"@)
    }
}

pub open spec fn in_values(t: Seq<TokenV>, r: int, acc: Seq<ExprV>) -> Parsed<Seq<ExprV>>
    decreases t.len() - r, 2int,
{
    match p_primary(t, r) {
        Ok((v, q)) => {
            let acc2 = acc.push(v);
            if at(t, q, TokenMatcher::Comma) && r <= q {
                in_values(t, q + 1, acc2)
            } else {
                Ok((acc2, q))
            }
        },
        Err(x) => Err(x),
    }
}

pub open spec fn p_primary(t: Seq<TokenV>, p: int) -> Parsed<ExprV>
    decreases t.len() - p, 1int,
{
    if at(t, p, TokenMatcher::LParen) {
        match p_expression(t, p + 1) {
            Ok((e, q)) => if at(t, q, TokenMatcher::RParen) {
                Ok((e, q + 1))
            } else {
                fail(t, q, "expected )"@)
            },
            Err(x) => Err(x),
        }
    } else if 0 <= p < t.len() {
        match t[p].kind {
            KindV::Identifier(_) => match ident_path(t, p) {
                Ok((s, q)) => Ok((ExprV::Identifier(s), q)),
                Err(x) => Err(x),
            },
            KindV::Integer(v) => Ok((ExprV::Literal(LiteralV::Integer(v)), p + 1)),
            KindV::Text(s) => Ok((ExprV::Literal(LiteralV::Text(s)), p + 1)),
            _ => fail(t, p + 1, "expected identifier or literal"@),
        }
    } else {
        fail(t, p, "expected identifier or literal"@)
    }
}

pub open spec fn select_item(t: Seq<TokenV>, p: int) -> Parsed<SelectItemV> {
    if at(t, p, TokenMatcher::Star) {
        Ok((SelectItemV::Wildcard, p + 1))
    } else {
        match ident_path(t, p) {
            Ok((c, q)) => Ok((SelectItemV::Column(c), q)),
            Err(x) => Err(x),
        }
    }
}

pub open spec fn select_list(t: Seq<TokenV>, p: int, acc: Seq<SelectItemV>) -> Parsed<
    Seq<SelectItemV>,
>
    decreases t.len() - p,
{
    match select_item(t, p) {
        Ok((item, q)) => {
            let acc2 = acc.push(item);
            if at(t, q, TokenMatcher::Comma) && p <= q {
                select_list(t, q + 1, acc2)
            } else {
                Ok((acc2, q))
            }
        },
        Err(x) => Err(x),
    }
}

pub open spec fn joins(t: Seq<TokenV>, p: int, acc: Seq<JoinV>) -> Parsed<Seq<JoinV>>
    decreases t.len() - p,
{
    if at(t, p, TokenMatcher::Join) {
        match ident_path(t, p + 1) {
            Ok((table, q)) => if at(t, q, TokenMatcher::On) {
                match p_expression(t, q + 1) {
                    Ok((on, q2)) => {
                        let acc2 = acc.push(JoinV { table, on });
                        if p < q2 <= t.len() {
                            joins(t, q2, acc2)
                        } else {
                            Ok((acc2, q2))
                        }
                    },
                    Err(x) => Err(x),
                }
            } else {
                fail(t, q, "expected ON after JOIN table"@)
            },
            Err(x) => Err(x),
        }
    } else {
        Ok((acc, p))
    }
}

pub open spec fn order_item(t: Seq<TokenV>, p: int) -> Parsed<OrderByV> {
    match ident_path(t, p) {
        Ok((column, q)) => if at(t, q, TokenMatcher::Desc) {
            Ok((OrderByV { column, direction: OrderDirection::Desc }, q + 1))
        } else if at(t, q, TokenMatcher::Asc) {
            Ok((OrderByV { column, direction: OrderDirection::Asc }, q + 1))
        } else {
            Ok((OrderByV { column, direction: OrderDirection::Asc }, q))
        },
        Err(x) => Err(x),
    }
}

pub open spec fn order_list(t: Seq<TokenV>, p: int, acc: Seq<OrderByV>) -> Parsed<Seq<OrderByV>>
    decreases t.len() - p,
{
    match order_item(t, p) {
        Ok((item, q)) => {
            let acc2 = acc.push(item);
            if at(t, q, TokenMatcher::Comma) && p <= q {
                order_list(t, q + 1, acc2)
            } else {
                Ok((acc2, q))
            }
        },
        Err(x) => Err(x),
    }
}

pub open spec fn limit_value(t: Seq<TokenV>, p: int) -> Parsed<u64> {
    if 0 <= p < t.len() {
        match t[p].kind {
            KindV::Integer(v) => Ok((v, p + 1)),
            _ => fail(t, p + 1, "expected integer after LIMIT"@),
        }
    } else {
        fail(t, p, "expected integer after LIMIT"@)
    }
}

pub open spec fn where_part(t: Seq<TokenV>, p: int) -> Parsed<Option<ExprV>> {
    if at(t, p, TokenMatcher::Where) {
        match p_expression(t, p + 1) {
            Ok((e, q)) => Ok((Some(e), q)),
            Err(x) => Err(x),
        }
    } else {
        Ok((None, p))
    }
}

pub open spec fn order_part(t: Seq<TokenV>, p: int) -> Parsed<Seq<OrderByV>> {
    if at(t, p, TokenMatcher::Order) {
        if at(t, p + 1, TokenMatcher::By) {
            order_list(t, p + 2, Seq::empty())
        } else {
            fail(t, p + 1, "expected BY after ORDER"@)
        }
    } else {
        Ok((Seq::empty(), p))
    }
}

pub open spec fn limit_part(t: Seq<TokenV>, p: int) -> Parsed<Option<u64>> {
    if at(t, p, TokenMatcher::Limit) {
        match limit_value(t, p + 1) {
            Ok((v, q)) => Ok((Some(v), q)),
            Err(x) => Err(x),
        }
    } else {
        Ok((None, p))
    }
}

/// A whole `SELECT` statement over all of `t`.
pub open spec fn p_select(t: Seq<TokenV>) -> Result<SelectStatementV, ErrorV> {
    if !at(t, 0, TokenMatcher::Select) {
        Err(ErrorV { message: "expected SELECT"@, position: pos_at(t, 0) })
    } else {
        match select_list(t, 1, Seq::empty()) {
            Err(x) => Err(x),
            Ok((select, q1)) => if !at(t, q1, TokenMatcher::From) {
                Err(ErrorV { message: "expected FROM"@, position: pos_at(t, q1) })
            } else {
                match ident_path(t, q1 + 1) {
                    Err(x) => Err(x),
                    Ok((from, q2)) => match joins(t, q2, Seq::empty()) {
                        Err(x) => Err(x),
                        Ok((joins, q3)) => match where_part(t, q3) {
                            Err(x) => Err(x),
                            Ok((where_clause, q4)) => match order_part(t, q4) {
                                Err(x) => Err(x),
                                Ok((order_by, q5)) => match limit_part(t, q5) {
                                    Err(x) => Err(x),
                                    Ok((limit, q6)) => if q6 < t.len() {
                                        Err(
                                            ErrorV {
                                                message: "unexpected trailing tokens"@,
                                                position: pos_at(t, q6),
                                            },
                                        )
                                    } else {
                                        Ok(
                                            SelectStatementV {
                                                select,
                                                from,
                                                joins,
                                                where_clause,
                                                order_by,
                                                limit,
                                            },
                                        )
                                    },
                                },
                            },
                        },
                    },
                }
            },
        }
    }
}

/// What parsing the query text `input` gives.
pub open spec fn parse_spec(input: Seq<char>) -> Result<SelectStatementV, ErrorV> {
    match lex_spec(input) {
        Err(p) => Err(ErrorV { message: "invalid token"@, position: p }),
        Ok(t) => p_select(t),
    }
}

// ---------------------------------------------------------------------------
// Relating executable results to the spec.
// ---------------------------------------------------------------------------

pub open spec fn agrees_expr(r: Result<Expr, ParseError>, idx: int, s: Parsed<ExprV>) -> bool {
    match s {
        Ok((e, q)) => match r {
            Ok(x) => x.view() == e && idx == q,
            Err(_) => false,
        },
        Err(x) => match r {
            Ok(_) => false,
            Err(y) => y.view() == x,
        },
    }
}

pub open spec fn agrees_text(r: Result<String, ParseError>, idx: int, s: Parsed<Seq<char>>) -> bool {
    match s {
        Ok((e, q)) => match r {
            Ok(x) => x@ == e && idx == q,
            Err(_) => false,
        },
        Err(x) => match r {
            Ok(_) => false,
            Err(y) => y.view() == x,
        },
    }
}

pub open spec fn agrees_unit(r: Result<(), ParseError>, s: Result<(), ErrorV>) -> bool {
    match s {
        Ok(_) => r is Ok,
        Err(x) => match r {
            Ok(_) => false,
            Err(y) => y.view() == x,
        },
    }
}

fn clone_token(t: &Token) -> (r: Token)
    ensures
        r.view() == t.view(),
{
    let kind = match &t.kind {
        TokenKind::Select => TokenKind::Select,
        TokenKind::From => TokenKind::From,
        TokenKind::Join => TokenKind::Join,
        TokenKind::On => TokenKind::On,
        TokenKind::Where => TokenKind::Where,
        TokenKind::Order => TokenKind::Order,
        TokenKind::By => TokenKind::By,
        TokenKind::Limit => TokenKind::Limit,
        TokenKind::Asc => TokenKind::Asc,
        TokenKind::Desc => TokenKind::Desc,
        TokenKind::And => TokenKind::And,
        TokenKind::Or => TokenKind::Or,
        TokenKind::Not => TokenKind::Not,
        TokenKind::In => TokenKind::In,
        TokenKind::Like => TokenKind::Like,
        TokenKind::Comma => TokenKind::Comma,
        TokenKind::Dot => TokenKind::Dot,
        TokenKind::LParen => TokenKind::LParen,
        TokenKind::RParen => TokenKind::RParen,
        TokenKind::Star => TokenKind::Star,
        TokenKind::Eq => TokenKind::Eq,
        TokenKind::NotEq => TokenKind::NotEq,
        TokenKind::Gt => TokenKind::Gt,
        TokenKind::Lt => TokenKind::Lt,
        TokenKind::Gte => TokenKind::Gte,
        TokenKind::Lte => TokenKind::Lte,
        TokenKind::Identifier(s) => TokenKind::Identifier(s.clone()),
        TokenKind::Integer(v) => TokenKind::Integer(*v),
        TokenKind::String(s) => TokenKind::String(s.clone()),
    };
    Token { kind, start: t.start }
}

// ---------------------------------------------------------------------------
// The executable parser.
// ---------------------------------------------------------------------------

/// Parses a query text into a select statement.
pub fn parse_query(input: &str) -> (r: Result<SelectStatement, ParseError>)
    ensures
        match parse_spec(input@) {
            Ok(s) => match r {
                Ok(x) => x.view() == s,
                Err(_) => false,
            },
            Err(e) => match r {
                Ok(_) => false,
                Err(y) => y.view() == e,
            },
        },
{
    match lex(input) {
        Err(position) => Err(ParseError { message: owned("invalid token"), position }),
        Ok(tokens) => {
            let mut parser = QueryParser::new(tokens);
            parser.parse_select()
        },
    }
}

struct QueryParser {
    tokens: Vec<Token>,
    index: usize,
}

impl QueryParser {
    spec fn toks(&self) -> Seq<TokenV> {
        token_views(self.tokens@)
    }

    spec fn pos(&self) -> int {
        self.index as int
    }

    spec fn wf(&self) -> bool {
        self.index <= self.tokens.len()
    }

    fn new(tokens: Vec<Token>) -> (r: Self)
        ensures
            r.tokens@ == tokens@,
            r.index == 0,
    {
        Self { tokens, index: 0 }
    }

    fn peek(&self) -> (r: Option<&Token>)
        ensures
            match r {
                Some(t) => self.index < self.tokens.len() && *t == self.tokens@[self.index as int],
                None => self.index >= self.tokens.len(),
            },
    {
        if self.index < self.tokens.len() {
            Some(&self.tokens[self.index])
        } else {
            None
        }
    }

    fn is_done(&self) -> (r: bool)
        ensures
            r == (self.index >= self.tokens.len()),
    {
        self.index >= self.tokens.len()
    }

    fn advance(&mut self) -> (r: Option<Token>)
        requires
            old(self).wf(),
        ensures
            final(self).wf(),
            final(self).tokens@ == old(self).tokens@,
            final(self).index == after_take(old(self).toks(), old(self).pos()),
            match r {
                Some(t) => old(self).index < old(self).tokens.len() && t.view() == old(
                    self,
                ).toks()[old(self).pos()],
                None => old(self).index >= old(self).tokens.len(),
            },
    {
        if self.index < self.tokens.len() {
            let token = clone_token(&self.tokens[self.index]);
            self.index = self.index + 1;
            Some(token)
        } else {
            None
        }
    }

    fn error_here(&self, message: &str) -> (r: ParseError)
        ensures
            r.view() == (ErrorV { message: message@, position: pos_at(self.toks(), self.pos()) }),
    {
        let position = match self.peek() {
            Some(token) => token.start,
            None => 0,
        };
        ParseError { message: owned(message), position }
    }

    fn matches(&mut self, matcher: TokenMatcher) -> (r: bool)
        requires
            old(self).wf(),
        ensures
            final(self).wf(),
            final(self).tokens@ == old(self).tokens@,
            r == at(old(self).toks(), old(self).pos(), matcher),
            final(self).index == if r {
                old(self).index + 1
            } else {
                old(self).index as int
            },
    {
        if matcher.matches(self.peek()) {
            self.index = self.index + 1;
            true
        } else {
            false
        }
    }

    fn expect_keyword(&mut self, matcher: TokenMatcher, message: &str) -> (r: Result<
        (),
        ParseError,
    >)
        requires
            old(self).wf(),
        ensures
            final(self).wf(),
            final(self).tokens@ == old(self).tokens@,
            at(old(self).toks(), old(self).pos(), matcher) ==> r is Ok && final(self).index
                == old(self).index + 1,
            !at(old(self).toks(), old(self).pos(), matcher) ==> match r {
                Ok(_) => false,
                Err(e) => e.view() == (ErrorV {
                    message: message@,
                    position: pos_at(old(self).toks(), old(self).pos()),
                }),
            },
    {
        if self.matches(matcher) {
            Ok(())
        } else {
            Err(self.error_here(message))
        }
    }

    fn parse_identifier_path(&mut self) -> (r: Result<String, ParseError>)
        requires
            old(self).wf(),
        ensures
            final(self).wf(),
            final(self).tokens@ == old(self).tokens@,
            agrees_text(r, final(self).pos(), ident_path(old(self).toks(), old(self).pos())),
            r is Ok ==> final(self).index > old(self).index,
    {
        let ghost t = self.toks();
        let ghost p0 = self.pos();
        let mut value = match self.advance() {
            Some(Token { kind: TokenKind::Identifier(value), .. }) => value,
            _ => {
                return Err(self.error_here("expected identifier"));
            },
        };
        loop
            invariant
                self.wf(),
                self.toks() == t,
                t == old(self).toks(),
                self.tokens@ == old(self).tokens@,
                p0 < self.index,
                p0 == old(self).pos(),
                ident_path(t, p0) == ident_tail(t, self.pos(), value@),
            decreases self.tokens.len() - self.index,
        {
            let ghost q = self.pos();
            if !self.matches(TokenMatcher::Dot) {
                assert(!at(t, q, TokenMatcher::Dot));
                assert(ident_tail(t, q, value@) == Ok::<(Seq<char>, int), ErrorV>((value@, q)));
                assert(self.pos() == q);
                return Ok(value);
            }
            match self.advance() {
                Some(Token { kind: TokenKind::Identifier(next), .. }) => {
                    push_char(&mut value, '.');
                    push_str(&mut value, next.as_str());
                },
                _ => {
                    return Err(self.error_here("expected identifier after ."));
                },
            }
        }
    }

    fn parse_table_ref(&mut self) -> (r: Result<TableRef, ParseError>)
        requires
            old(self).wf(),
        ensures
            final(self).wf(),
            final(self).tokens@ == old(self).tokens@,
            agrees_text(
                match r {
                    Ok(x) => Ok(x.name),
                    Err(e) => Err(e),
                },
                final(self).pos(),
                ident_path(old(self).toks(), old(self).pos()),
            ),
            r is Ok ==> final(self).index > old(self).index,
    {
        let name = self.parse_identifier_path()?;
        Ok(TableRef { name })
    }

    fn parse_expression(&mut self) -> (r: Result<Expr, ParseError>)
        requires
            old(self).wf(),
        ensures
            final(self).wf(),
            final(self).tokens@ == old(self).tokens@,
            agrees_expr(r, final(self).pos(), p_expression(old(self).toks(), old(self).pos())),
            r is Ok ==> final(self).index > old(self).index,
        decreases old(self).tokens@.len() - old(self).index, 8int,
    {
        self.parse_or()
    }

    fn parse_or(&mut self) -> (r: Result<Expr, ParseError>)
        requires
            old(self).wf(),
        ensures
            final(self).wf(),
            final(self).tokens@ == old(self).tokens@,
            agrees_expr(r, final(self).pos(), p_or(old(self).toks(), old(self).pos())),
            r is Ok ==> final(self).index > old(self).index,
        decreases old(self).tokens@.len() - old(self).index, 7int,
    {
        let ghost t = self.toks();
        let ghost p0 = self.pos();
        let mut expr = self.parse_and()?;
        loop
            invariant
                self.wf(),
                self.toks() == t,
                t == old(self).toks(),
                self.tokens@ == old(self).tokens@,
                p0 < self.index,
                p0 == old(self).pos(),
                p_or(t, p0) == or_tail(t, self.pos(), expr.view()),
            decreases self.tokens.len() - self.index,
        {
            let ghost q = self.pos();
            if !self.matches(TokenMatcher::Or) {
                return Ok(expr);
            }
            let right = self.parse_and()?;
            expr = Expr::Binary {
                left: Box::new(expr),
                operator: BinaryOperator::Or,
                right: Box::new(right),
            };
        }
    }

    fn parse_and(&mut self) -> (r: Result<Expr, ParseError>)
        requires
            old(self).wf(),
        ensures
            final(self).wf(),
            final(self).tokens@ == old(self).tokens@,
            agrees_expr(r, final(self).pos(), p_and(old(self).toks(), old(self).pos())),
            r is Ok ==> final(self).index > old(self).index,
        decreases old(self).tokens@.len() - old(self).index, 5int,
    {
        let ghost t = self.toks();
        let ghost p0 = self.pos();
        let mut expr = self.parse_not()?;
        loop
            invariant
                self.wf(),
                self.toks() == t,
                t == old(self).toks(),
                self.tokens@ == old(self).tokens@,
                p0 < self.index,
                p0 == old(self).pos(),
                p_and(t, p0) == and_tail(t, self.pos(), expr.view()),
            decreases self.tokens.len() - self.index,
        {
            if !self.matches(TokenMatcher::And) {
                return Ok(expr);
            }
            let right = self.parse_not()?;
            expr = Expr::Binary {
                left: Box::new(expr),
                operator: BinaryOperator::And,
                right: Box::new(right),
            };
        }
    }

    fn parse_not(&mut self) -> (r: Result<Expr, ParseError>)
        requires
            old(self).wf(),
        ensures
            final(self).wf(),
            final(self).tokens@ == old(self).tokens@,
            agrees_expr(r, final(self).pos(), p_not(old(self).toks(), old(self).pos())),
            r is Ok ==> final(self).index > old(self).index,
        decreases old(self).tokens@.len() - old(self).index, 3int,
    {
        if self.matches(TokenMatcher::Not) {
            let expr = self.parse_not()?;
            return Ok(Expr::Unary { operator: UnaryOperator::Not, expr: Box::new(expr) });
        }
        self.parse_comparison()
    }

    fn parse_comparison(&mut self) -> (r: Result<Expr, ParseError>)
        requires
            old(self).wf(),
        ensures
            final(self).wf(),
            final(self).tokens@ == old(self).tokens@,
            agrees_expr(r, final(self).pos(), p_comparison(old(self).toks(), old(self).pos())),
            r is Ok ==> final(self).index > old(self).index,
        decreases old(self).tokens@.len() - old(self).index, 2int,
    {
        let left = self.parse_primary()?;

        if self.matches(TokenMatcher::Not) {
            if self.matches(TokenMatcher::In) {
                return self.parse_in_list(left, true);
            }
            return Err(self.error_here("expected IN after NOT"));
        }

        if self.matches(TokenMatcher::In) {
            return self.parse_in_list(left, false);
        }

        if self.matches(TokenMatcher::Like) {
            let right = self.parse_primary()?;
            return Ok(Expr::Binary {
                left: Box::new(left),
                operator: BinaryOperator::Like,
                right: Box::new(right),
            });
        }

        let operator = if self.matches(TokenMatcher::Eq) {
            Some(BinaryOperator::Eq)
        } else if self.matches(TokenMatcher::NotEq) {
            Some(BinaryOperator::NotEq)
        } else if self.matches(TokenMatcher::Gte) {
            Some(BinaryOperator::Gte)
        } else if self.matches(TokenMatcher::Lte) {
            Some(BinaryOperator::Lte)
        } else if self.matches(TokenMatcher::Gt) {
            Some(BinaryOperator::Gt)
        } else if self.matches(TokenMatcher::Lt) {
            Some(BinaryOperator::Lt)
        } else {
            None
        };

        match operator {
            Some(operator) => {
                let right = self.parse_primary()?;
                Ok(Expr::Binary { left: Box::new(left), operator, right: Box::new(right) })
            },
            None => Ok(left),
        }
    }

    fn parse_in_list(&mut self, left: Expr, negated: bool) -> (r: Result<Expr, ParseError>)
        requires
            old(self).wf(),
        ensures
            final(self).wf(),
            final(self).tokens@ == old(self).tokens@,
            agrees_expr(
                r,
                final(self).pos(),
                in_list(old(self).toks(), old(self).pos(), left.view(), negated),
            ),
            r is Ok ==> final(self).index > old(self).index,
        decreases old(self).tokens@.len() - old(self).index, 3int,
    {
        let ghost t = self.toks();
        self.expect_keyword(TokenMatcher::LParen, "expected ( after IN")?;
        let ghost p1 = self.pos();
        let mut values: Vec<Expr> = Vec::new();
        assert(Expr::views_of(values@) =~= Seq::<ExprV>::empty());
        loop
            invariant
                self.wf(),
                self.toks() == t,
                t == old(self).toks(),
                self.tokens@ == old(self).tokens@,
                p1 <= self.index,
                old(self).index + 1 == p1,
                at(t, old(self).pos(), TokenMatcher::LParen),
                in_values(t, p1, Seq::empty()) == in_values(
                    t,
                    self.pos(),
                    Expr::views_of(values@),
                ),
            decreases self.tokens.len() - self.index,
        {
            let ghost before = values@;
            let value = self.parse_primary()?;
            values.push(value);
            proof {
                lemma_views_of_push(before, value);
            }
            if !self.matches(TokenMatcher::Comma) {
                self.expect_keyword(TokenMatcher::RParen, "expected ) after IN list")?;
                return Ok(Expr::InList { expr: Box::new(left), values, negated });
            }
        }
    }

    fn parse_primary(&mut self) -> (r: Result<Expr, ParseError>)
        requires
            old(self).wf(),
        ensures
            final(self).wf(),
            final(self).tokens@ == old(self).tokens@,
            agrees_expr(r, final(self).pos(), p_primary(old(self).toks(), old(self).pos())),
            r is Ok ==> final(self).index > old(self).index,
        decreases old(self).tokens@.len() - old(self).index, 1int,
    {
        if self.matches(TokenMatcher::LParen) {
            let expr = self.parse_expression()?;
            self.expect_keyword(TokenMatcher::RParen, "expected )")?;
            return Ok(expr);
        }
        match self.advance() {
            Some(Token { kind: TokenKind::Identifier(_), .. }) => {
                self.index = self.index - 1;
                let path = self.parse_identifier_path()?;
                Ok(Expr::Identifier(path))
            },
            Some(Token { kind: TokenKind::Integer(value), .. }) => Ok(
                Expr::Literal(Literal::Integer(value)),
            ),
            Some(Token { kind: TokenKind::String(value), .. }) => Ok(
                Expr::Literal(Literal::String(value)),
            ),
            _ => Err(self.error_here("expected identifier or literal")),
        }
    }

    fn parse_select_list(&mut self) -> (r: Result<Vec<SelectItem>, ParseError>)
        requires
            old(self).wf(),
        ensures
            final(self).wf(),
            final(self).tokens@ == old(self).tokens@,
            match select_list(old(self).toks(), old(self).pos(), Seq::empty()) {
                Ok((items, q)) => match r {
                    Ok(x) => x@.map_values(|i: SelectItem| i.view()) == items && final(self).pos()
                        == q,
                    Err(_) => false,
                },
                Err(e) => match r {
                    Ok(_) => false,
                    Err(y) => y.view() == e,
                },
            },
    {
        let ghost t = self.toks();
        let ghost p0 = self.pos();
        let mut items: Vec<SelectItem> = Vec::new();
        assert(items@.map_values(|i: SelectItem| i.view()) =~= Seq::<SelectItemV>::empty());
        loop
            invariant
                self.wf(),
                self.toks() == t,
                t == old(self).toks(),
                self.tokens@ == old(self).tokens@,
                p0 <= self.index,
                p0 == old(self).pos(),
                select_list(t, p0, Seq::empty()) == select_list(
                    t,
                    self.pos(),
                    items@.map_values(|i: SelectItem| i.view()),
                ),
            decreases self.tokens.len() - self.index,
        {
            let ghost before = items@;
            if self.matches(TokenMatcher::Star) {
                items.push(SelectItem::Wildcard);
            } else {
                let column = self.parse_identifier_path()?;
                items.push(SelectItem::Column(column));
            }
            assert(items@.map_values(|i: SelectItem| i.view()) =~= before.map_values(
                |i: SelectItem| i.view(),
            ).push(items@.last().view()));
            if !self.matches(TokenMatcher::Comma) {
                return Ok(items);
            }
        }
    }

    fn parse_joins(&mut self) -> (r: Result<Vec<Join>, ParseError>)
        requires
            old(self).wf(),
        ensures
            final(self).wf(),
            final(self).tokens@ == old(self).tokens@,
            match joins(old(self).toks(), old(self).pos(), Seq::empty()) {
                Ok((js, q)) => match r {
                    Ok(x) => x@.map_values(|j: Join| j.view()) == js && final(self).pos() == q,
                    Err(_) => false,
                },
                Err(e) => match r {
                    Ok(_) => false,
                    Err(y) => y.view() == e,
                },
            },
    {
        let ghost t = self.toks();
        let ghost p0 = self.pos();
        let mut joins_found: Vec<Join> = Vec::new();
        assert(joins_found@.map_values(|j: Join| j.view()) =~= Seq::<JoinV>::empty());
        loop
            invariant
                self.wf(),
                self.toks() == t,
                t == old(self).toks(),
                self.tokens@ == old(self).tokens@,
                p0 <= self.index,
                p0 == old(self).pos(),
                joins(t, p0, Seq::empty()) == joins(
                    t,
                    self.pos(),
                    joins_found@.map_values(|j: Join| j.view()),
                ),
            decreases self.tokens.len() - self.index,
        {
            if !self.matches(TokenMatcher::Join) {
                return Ok(joins_found);
            }
            let ghost before = joins_found@;
            let table = self.parse_table_ref()?;
            self.expect_keyword(TokenMatcher::On, "expected ON after JOIN table")?;
            let on = self.parse_expression()?;
            joins_found.push(Join { kind: JoinKind::Inner, table, on });
            assert(joins_found@.map_values(|j: Join| j.view()) =~= before.map_values(
                |j: Join| j.view(),
            ).push(joins_found@.last().view()));
        }
    }

    fn parse_order_by(&mut self) -> (r: Result<Vec<OrderBy>, ParseError>)
        requires
            old(self).wf(),
        ensures
            final(self).wf(),
            final(self).tokens@ == old(self).tokens@,
            match order_list(old(self).toks(), old(self).pos(), Seq::empty()) {
                Ok((os, q)) => match r {
                    Ok(x) => x@.map_values(|o: OrderBy| o.view()) == os && final(self).pos() == q,
                    Err(_) => false,
                },
                Err(e) => match r {
                    Ok(_) => false,
                    Err(y) => y.view() == e,
                },
            },
    {
        let ghost t = self.toks();
        let ghost p0 = self.pos();
        let mut clauses: Vec<OrderBy> = Vec::new();
        assert(clauses@.map_values(|o: OrderBy| o.view()) =~= Seq::<OrderByV>::empty());
        loop
            invariant
                self.wf(),
                self.toks() == t,
                t == old(self).toks(),
                self.tokens@ == old(self).tokens@,
                p0 <= self.index,
                p0 == old(self).pos(),
                order_list(t, p0, Seq::empty()) == order_list(
                    t,
                    self.pos(),
                    clauses@.map_values(|o: OrderBy| o.view()),
                ),
            decreases self.tokens.len() - self.index,
        {
            let ghost before = clauses@;
            let column = self.parse_identifier_path()?;
            let direction = if self.matches(TokenMatcher::Desc) {
                OrderDirection::Desc
            } else {
                self.matches(TokenMatcher::Asc);
                OrderDirection::Asc
            };
            clauses.push(OrderBy { column, direction });
            assert(clauses@.map_values(|o: OrderBy| o.view()) =~= before.map_values(
                |o: OrderBy| o.view(),
            ).push(clauses@.last().view()));
            if !self.matches(TokenMatcher::Comma) {
                return Ok(clauses);
            }
        }
    }

    fn parse_limit(&mut self) -> (r: Result<u64, ParseError>)
        requires
            old(self).wf(),
        ensures
            final(self).wf(),
            final(self).tokens@ == old(self).tokens@,
            match limit_value(old(self).toks(), old(self).pos()) {
                Ok((v, q)) => r == Ok::<u64, ParseError>(v) && final(self).pos() == q,
                Err(e) => match r {
                    Ok(_) => false,
                    Err(y) => y.view() == e,
                },
            },
    {
        match self.advance() {
            Some(Token { kind: TokenKind::Integer(value), .. }) => Ok(value),
            _ => Err(self.error_here("expected integer after LIMIT")),
        }
    }

    fn parse_select(&mut self) -> (r: Result<SelectStatement, ParseError>)
        requires
            old(self).wf(),
            old(self).index == 0,
        ensures
            match p_select(old(self).toks()) {
                Ok(s) => match r {
                    Ok(x) => x.view() == s,
                    Err(_) => false,
                },
                Err(e) => match r {
                    Ok(_) => false,
                    Err(y) => y.view() == e,
                },
            },
    {
        self.expect_keyword(TokenMatcher::Select, "expected SELECT")?;
        let select = self.parse_select_list()?;
        self.expect_keyword(TokenMatcher::From, "expected FROM")?;
        let from = self.parse_table_ref()?;
        let joins = self.parse_joins()?;
        let where_clause = if self.matches(TokenMatcher::Where) {
            Some(self.parse_expression()?)
        } else {
            None
        };
        let order_by = if self.matches(TokenMatcher::Order) {
            self.expect_keyword(TokenMatcher::By, "expected BY after ORDER")?;
            self.parse_order_by()?
        } else {
            let empty: Vec<OrderBy> = Vec::new();
            assert(empty@.map_values(|o: OrderBy| o.view()) =~= Seq::<OrderByV>::empty());
            empty
        };
        let limit = if self.matches(TokenMatcher::Limit) {
            Some(self.parse_limit()?)
        } else {
            None
        };

        if !self.is_done() {
            return Err(self.error_here("unexpected trailing tokens"));
        }

        Ok(SelectStatement { select, from, joins, where_clause, order_by, limit })
    }
}

} // verus!
