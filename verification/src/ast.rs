//! The SQL abstract syntax tree, and its mathematical view.

use vstd::prelude::*;

verus! {

#[derive(Debug, PartialEq, Eq)]
pub struct SelectStatement {
    pub select: Vec<SelectItem>,
    pub from: TableRef,
    pub joins: Vec<Join>,
    pub where_clause: Option<Expr>,
    pub order_by: Vec<OrderBy>,
    pub limit: Option<u64>,
}

#[derive(Debug, Clone, PartialEq, Eq)]
pub enum SelectItem {
    Wildcard,
    Column(String),
}

#[derive(Debug, Clone, PartialEq, Eq)]
pub struct TableRef {
    pub name: String,
}

#[derive(Debug, PartialEq, Eq)]
pub struct Join {
    pub kind: JoinKind,
    pub table: TableRef,
    pub on: Expr,
}

#[derive(Debug, Clone, Copy, PartialEq, Eq)]
pub enum JoinKind {
    Inner,
}

#[derive(Debug, Clone, PartialEq, Eq)]
pub struct OrderBy {
    pub column: String,
    pub direction: OrderDirection,
}

#[derive(Debug, Clone, Copy, PartialEq, Eq)]
pub enum OrderDirection {
    Asc,
    Desc,
}

#[derive(Debug, PartialEq, Eq)]
pub enum Expr {
    Identifier(String),
    Literal(Literal),
    Unary { operator: UnaryOperator, expr: Box<Expr> },
    Binary { left: Box<Expr>, operator: BinaryOperator, right: Box<Expr> },
    InList { expr: Box<Expr>, values: Vec<Expr>, negated: bool },
}

#[derive(Debug, Clone, Copy, PartialEq, Eq)]
pub enum UnaryOperator {
    Not,
}

#[derive(Debug, Clone, Copy, PartialEq, Eq)]
pub enum BinaryOperator {
    Eq,
    NotEq,
    Gt,
    Lt,
    Gte,
    Lte,
    And,
    Or,
    Like,
}

#[derive(Debug, Clone, PartialEq, Eq)]
pub enum Literal {
    Integer(u64),
    String(String),
}

/// A literal, with its text as a character sequence.
pub enum LiteralV {
    Integer(u64),
    Text(Seq<char>),
}

/// An expression, with names and texts as character sequences.
pub enum ExprV {
    Identifier(Seq<char>),
    Literal(LiteralV),
    Unary(UnaryOperator, Box<ExprV>),
    Binary(Box<ExprV>, BinaryOperator, Box<ExprV>),
    InList(Box<ExprV>, Seq<ExprV>, bool),
}

/// One item of a select list.
pub enum SelectItemV {
    Wildcard,
    Column(Seq<char>),
}

pub struct JoinV {
    pub table: Seq<char>,
    pub on: ExprV,
}

pub struct OrderByV {
    pub column: Seq<char>,
    pub direction: OrderDirection,
}

/// A select statement, with names and texts as character sequences.
pub struct SelectStatementV {
    pub select: Seq<SelectItemV>,
    pub from: Seq<char>,
    pub joins: Seq<JoinV>,
    pub where_clause: Option<ExprV>,
    pub order_by: Seq<OrderByV>,
    pub limit: Option<u64>,
}

impl Literal {
    pub open spec fn view(&self) -> LiteralV {
        match self {
            Literal::Integer(v) => LiteralV::Integer(*v),
            Literal::String(s) => LiteralV::Text(s@),
        }
    }
}

impl Expr {
    pub open spec fn view(&self) -> ExprV
        decreases self,
    {
        match self {
            Expr::Identifier(s) => ExprV::Identifier(s@),
            Expr::Literal(l) => ExprV::Literal(l.view()),
            Expr::Unary { operator, expr } => ExprV::Unary(*operator, Box::new((**expr).view())),
            Expr::Binary { left, operator, right } => ExprV::Binary(
                Box::new((**left).view()),
                *operator,
                Box::new((**right).view()),
            ),
            Expr::InList { expr, values, negated } => ExprV::InList(
                Box::new((**expr).view()),
                Expr::views_of(values@),
                *negated,
            ),
        }
    }

    pub open spec fn views_of(s: Seq<Expr>) -> Seq<ExprV>
        decreases s,
    {
        if s.len() == 0 {
            Seq::empty()
        } else {
            Expr::views_of(s.drop_last()).push(s.last().view())
        }
    }
}

pub proof fn lemma_views_of(s: Seq<Expr>)
    ensures
        Expr::views_of(s).len() == s.len(),
        forall|i: int| 0 <= i < s.len() ==> #[trigger] Expr::views_of(s)[i] == s[i].view(),
    decreases s.len(),
{
    if s.len() > 0 {
        lemma_views_of(s.drop_last());
    }
}

pub proof fn lemma_views_of_push(s: Seq<Expr>, e: Expr)
    ensures
        Expr::views_of(s.push(e)) == Expr::views_of(s).push(e.view()),
{
    assert(s.push(e).drop_last() =~= s);
}

impl SelectItem {
    pub open spec fn view(&self) -> SelectItemV {
        match self {
            SelectItem::Wildcard => SelectItemV::Wildcard,
            SelectItem::Column(c) => SelectItemV::Column(c@),
        }
    }
}

impl Join {
    pub open spec fn view(&self) -> JoinV {
        JoinV { table: self.table.name@, on: self.on.view() }
    }
}

impl OrderBy {
    pub open spec fn view(&self) -> OrderByV {
        OrderByV { column: self.column@, direction: self.direction }
    }
}

impl SelectStatement {
    pub open spec fn view(&self) -> SelectStatementV {
        SelectStatementV {
            select: self.select@.map_values(|i: SelectItem| i.view()),
            from: self.from.name@,
            joins: self.joins@.map_values(|j: Join| j.view()),
            where_clause: match self.where_clause {
                Some(e) => Some(e.view()),
                None => None,
            },
            order_by: self.order_by@.map_values(|o: OrderBy| o.view()),
            limit: self.limit,
        }
    }
}

} // verus!
