//! Planned SQL reads back: the text that the planner renders for a statement
//! is parsed by the SQL front end into that same statement, for every
//! statement whose shape the grammar can express.
//!
//! The proof goes in two halves. The parser half works on token kinds: a
//! statement's token kinds, wherever they stand in a token sequence, parse
//! back into the statement. The lexer half shows that the rendered text
//! tokenizes into exactly those kinds.

use vstd::prelude::*;
use crate::ast::{
    BinaryOperator, ExprV, JoinV, LiteralV, OrderByV, OrderDirection, SelectItemV,
    SelectStatementV,
};
use crate::lexer::{
    KindV, Step, TokenV, digits_end, ident_end, is_digit, is_ident_continue, is_ident_start,
    keyword, lex_from, lex_spec, step, word_kind,
};
use crate::text::{is_space, upper};
use crate::parser::{
    TokenMatcher, and_tail, at, comparison_op, ident_path, ident_tail, in_list, in_values, joins,
    limit_part, or_tail, order_item, order_list, order_part, p_and, p_comparison, p_expression,
    p_not, p_or, p_primary, p_select, parse_spec, select_item, select_list, where_part,
};
use crate::plan::{
    decimal, escape_quotes, lemma_decimal_reads_back, lemma_string_end_escaped, operator_text,
    direction_text, render_expr_spec, render_item, render_items, render_join_spec, render_joins,
    render_literal_spec, render_order_item, render_orders, render_select_spec, render_values,
    valid_path,
};

verus! {

// ---------------------------------------------------------------------------
// The statements that read back.
// ---------------------------------------------------------------------------

/// The index of the first `.` in `s` at or after `i`, or the length of `s`.
pub open spec fn dot_from(s: Seq<char>, i: int) -> int
    decreases s.len() - i,
{
    if 0 <= i < s.len() && s[i] != '.' {
        dot_from(s, i + 1)
    } else {
        i
    }
}

/// Whether no dot-separated segment of `s`, from the one at `i` on, spells a
/// keyword.
pub open spec fn plain_segments(s: Seq<char>, i: int) -> bool
    decreases s.len() - i,
{
    let j = dot_from(s, i);
    &&& keyword(s.subrange(i, j)) is None
    &&& (i <= j < s.len() ==> plain_segments(s, j + 1))
}

/// A valid identifier path none of whose segments is a keyword.
pub open spec fn plain_path(s: Seq<char>) -> bool {
    valid_path(s) && plain_segments(s, 0)
}

/// Whether an operator binds as tightly as a comparison.
pub open spec fn tight(op: BinaryOperator) -> bool {
    !(op is And || op is Or)
}

/// The expressions whose rendering parses back into them: plain paths, any
/// literal, and no `NOT` where the grammar wants a primary (an operand of a
/// comparison or `LIKE`, the subject or a value of an `IN` list), nor an
/// empty `IN` list.
pub open spec fn reads_back(e: ExprV) -> bool
    decreases e,
{
    match e {
        ExprV::Identifier(s) => plain_path(s),
        ExprV::Literal(_) => true,
        ExprV::Unary(_, x) => reads_back(*x),
        ExprV::Binary(l, op, r) => {
            &&& reads_back(*l)
            &&& reads_back(*r)
            &&& tight(op) ==> !(*l is Unary) && !(*r is Unary)
        },
        ExprV::InList(x, vs, _) => {
            &&& vs.len() > 0
            &&& reads_back(*x)
            &&& !(*x is Unary)
            &&& forall|k: int| 0 <= k < vs.len() ==> reads_back(#[trigger] vs[k]) && !(vs[k] is Unary)
        },
    }
}

/// The statements whose rendering parses back into them: a non-empty
/// select list, and plain paths and expressions that read back throughout.
pub open spec fn stmt_reads_back(s: SelectStatementV) -> bool {
    &&& s.select.len() > 0
    &&& forall|k: int| 0 <= k < s.select.len() ==> (#[trigger] s.select[k] matches
        SelectItemV::Column(c) ==> plain_path(c))
    &&& plain_path(s.from)
    &&& forall|k: int| 0 <= k < s.joins.len() ==> plain_path(#[trigger] s.joins[k].table)
        && reads_back(s.joins[k].on)
    &&& (s.where_clause matches Some(e) ==> reads_back(e))
    &&& forall|k: int| 0 <= k < s.order_by.len() ==> plain_path(#[trigger] s.order_by[k].column)
}

// ---------------------------------------------------------------------------
// Token kinds.
// ---------------------------------------------------------------------------

/// The token kinds of the path segments of `s` from the one at `i` on.
pub open spec fn path_toks(s: Seq<char>, i: int) -> Seq<KindV>
    decreases s.len() - i,
{
    let j = dot_from(s, i);
    if i <= j < s.len() {
        seq![KindV::Identifier(s.subrange(i, j)), KindV::Dot] + path_toks(s, j + 1)
    } else {
        seq![KindV::Identifier(s.subrange(i, j))]
    }
}

pub open spec fn op_kind(op: BinaryOperator) -> KindV {
    match op {
        BinaryOperator::Eq => KindV::Eq,
        BinaryOperator::NotEq => KindV::NotEq,
        BinaryOperator::Gt => KindV::Gt,
        BinaryOperator::Lt => KindV::Lt,
        BinaryOperator::Gte => KindV::Gte,
        BinaryOperator::Lte => KindV::Lte,
        BinaryOperator::And => KindV::And,
        BinaryOperator::Or => KindV::Or,
        BinaryOperator::Like => KindV::Like,
    }
}

pub open spec fn literal_kind(l: LiteralV) -> KindV {
    match l {
        LiteralV::Integer(v) => KindV::Integer(v),
        LiteralV::Text(s) => KindV::Text(s),
    }
}

/// The token kinds of a rendered expression.
pub open spec fn expr_toks(e: ExprV) -> Seq<KindV>
    decreases e,
{
    match e {
        ExprV::Identifier(s) => path_toks(s, 0),
        ExprV::Literal(l) => seq![literal_kind(l)],
        ExprV::Unary(_, x) => seq![KindV::Not, KindV::LParen] + expr_toks(*x) + seq![KindV::RParen],
        ExprV::Binary(l, op, r) => seq![KindV::LParen] + expr_toks(*l) + seq![op_kind(op)]
            + expr_toks(*r) + seq![KindV::RParen],
        ExprV::InList(x, vs, negated) => seq![KindV::LParen] + expr_toks(*x) + (if negated {
            seq![KindV::Not]
        } else {
            Seq::empty()
        }) + seq![KindV::In, KindV::LParen] + values_toks(vs) + seq![KindV::RParen, KindV::RParen],
    }
}

/// The token kinds of rendered values separated by commas.
pub open spec fn values_toks(vs: Seq<ExprV>) -> Seq<KindV>
    decreases vs,
{
    if vs.len() == 0 {
        Seq::empty()
    } else if vs.len() == 1 {
        expr_toks(vs[0])
    } else {
        expr_toks(vs[0]) + seq![KindV::Comma] + values_toks(vs.subrange(1, vs.len() as int))
    }
}

/// Token kind sequences joined by commas.
pub open spec fn comma_joined(parts: Seq<Seq<KindV>>) -> Seq<KindV>
    decreases parts.len(),
{
    if parts.len() == 0 {
        Seq::empty()
    } else if parts.len() == 1 {
        parts[0]
    } else {
        parts[0] + seq![KindV::Comma] + comma_joined(parts.subrange(1, parts.len() as int))
    }
}

pub open spec fn item_toks(i: SelectItemV) -> Seq<KindV> {
    match i {
        SelectItemV::Wildcard => seq![KindV::Star],
        SelectItemV::Column(c) => path_toks(c, 0),
    }
}

pub open spec fn join_toks(j: JoinV) -> Seq<KindV> {
    seq![KindV::Join] + path_toks(j.table, 0) + seq![KindV::On] + expr_toks(j.on)
}

/// The token kinds of joins one after another.
pub open spec fn joins_toks(js: Seq<JoinV>) -> Seq<KindV>
    decreases js.len(),
{
    if js.len() == 0 {
        Seq::empty()
    } else {
        join_toks(js[0]) + joins_toks(js.subrange(1, js.len() as int))
    }
}

pub open spec fn direction_kind(d: OrderDirection) -> KindV {
    match d {
        OrderDirection::Asc => KindV::Asc,
        OrderDirection::Desc => KindV::Desc,
    }
}

pub open spec fn order_toks(o: OrderByV) -> Seq<KindV> {
    path_toks(o.column, 0) + seq![direction_kind(o.direction)]
}

pub open spec fn where_toks(w: Option<ExprV>) -> Seq<KindV> {
    match w {
        Some(e) => seq![KindV::Where] + expr_toks(e),
        None => Seq::empty(),
    }
}

pub open spec fn orders_toks(os: Seq<OrderByV>) -> Seq<KindV> {
    if os.len() == 0 {
        Seq::empty()
    } else {
        seq![KindV::Order, KindV::By] + comma_joined(os.map_values(|o: OrderByV| order_toks(o)))
    }
}

pub open spec fn limit_toks(l: Option<u64>) -> Seq<KindV> {
    match l {
        Some(n) => seq![KindV::Limit, KindV::Integer(n)],
        None => Seq::empty(),
    }
}

/// The token kinds of a rendered statement.
pub open spec fn stmt_toks(s: SelectStatementV) -> Seq<KindV> {
    seq![KindV::Select] + comma_joined(s.select.map_values(|i: SelectItemV| item_toks(i))) + seq![
        KindV::From,
    ] + path_toks(s.from, 0) + joins_toks(s.joins) + where_toks(s.where_clause) + orders_toks(
        s.order_by,
    ) + limit_toks(s.limit)
}

/// Whether the tokens of `t` from `p` on have the kinds `k`.
pub open spec fn kinds_at(t: Seq<TokenV>, p: int, k: Seq<KindV>) -> bool {
    &&& 0 <= p
    &&& p + k.len() <= t.len()
    &&& forall|m: int| 0 <= m < k.len() ==> #[trigger] t[p + m].kind == k[m]
}

/// Whether the token at `q` (if any) cannot continue an operand.
pub open spec fn ends_operand(t: Seq<TokenV>, q: int) -> bool {
    &&& !at(t, q, TokenMatcher::Dot)
    &&& !at(t, q, TokenMatcher::Not)
    &&& !at(t, q, TokenMatcher::In)
    &&& !at(t, q, TokenMatcher::Like)
    &&& comparison_op(t, q) is None
}

/// Whether the token at `q` (if any) cannot continue an expression.
pub open spec fn ends_expr(t: Seq<TokenV>, q: int) -> bool {
    &&& ends_operand(t, q)
    &&& !at(t, q, TokenMatcher::And)
    &&& !at(t, q, TokenMatcher::Or)
}

// ---------------------------------------------------------------------------
// Token-kind bookkeeping.
// ---------------------------------------------------------------------------

proof fn lemma_kinds_at_cat(t: Seq<TokenV>, p: int, a: Seq<KindV>, b: Seq<KindV>)
    ensures
        kinds_at(t, p, a + b) <==> (kinds_at(t, p, a) && kinds_at(t, p + a.len(), b)),
{
    if kinds_at(t, p, a + b) {
        assert forall|m: int| 0 <= m < a.len() implies #[trigger] t[p + m].kind == a[m] by {
            assert(t[p + m].kind == (a + b)[m]);
        }
        assert forall|m: int| 0 <= m < b.len() implies #[trigger] t[p + a.len() + m].kind
            == b[m] by {
            assert(t[p + (a.len() + m)].kind == (a + b)[a.len() + m]);
        }
    }
    if kinds_at(t, p, a) && kinds_at(t, p + a.len(), b) {
        assert forall|m: int| 0 <= m < (a + b).len() implies #[trigger] t[p + m].kind == (a
            + b)[m] by {
            if m < a.len() {
                assert(t[p + m].kind == a[m]);
            } else {
                assert(t[p + a.len() + (m - a.len())].kind == b[m - a.len()]);
            }
        }
    }
}

proof fn lemma_kinds_at_one(t: Seq<TokenV>, p: int, k: KindV)
    ensures
        kinds_at(t, p, seq![k]) <==> (0 <= p < t.len() && t[p].kind == k),
{
    if 0 <= p < t.len() && t[p].kind == k {
        assert forall|m: int| 0 <= m < 1 implies #[trigger] t[p + m].kind == seq![k][m] by {
            assert(m == 0);
        }
    }
    if kinds_at(t, p, seq![k]) {
        assert(t[p + 0].kind == seq![k][0]);
    }
}

proof fn lemma_dot_from(s: Seq<char>, i: int)
    requires
        0 <= i <= s.len(),
    ensures
        i <= dot_from(s, i) <= s.len(),
        dot_from(s, i) < s.len() ==> s[dot_from(s, i)] == '.',
        forall|k: int| i <= k < dot_from(s, i) ==> s[k] != '.',
    decreases s.len() - i,
{
    if i < s.len() && s[i] != '.' {
        lemma_dot_from(s, i + 1);
    }
}

/// Every rendered expression has tokens, and one that is no `NOT` has none
/// first.
proof fn lemma_first_tok(e: ExprV)
    ensures
        expr_toks(e).len() >= 1,
        !(e is Unary) ==> !(expr_toks(e)[0] is Not),
{
    match e {
        ExprV::Identifier(s) => {
            let j = dot_from(s, 0);
            if 0 <= j < s.len() {
                assert((seq![KindV::Identifier(s.subrange(0, j)), KindV::Dot] + path_toks(s, j + 1))[0]
                    == KindV::Identifier(s.subrange(0, j)));
            }
        },
        ExprV::Literal(_) => {},
        ExprV::Unary(_, _) => {},
        ExprV::Binary(l, op, r) => {
            let k = seq![KindV::LParen] + expr_toks(*l) + seq![op_kind(op)] + expr_toks(*r) + seq![
                KindV::RParen,
            ];
            assert(k[0] == KindV::LParen);
        },
        ExprV::InList(x, vs, negated) => {
            let k = expr_toks(e);
            let n = if negated {
                seq![KindV::Not]
            } else {
                Seq::<KindV>::empty()
            };
            assert(k == seq![KindV::LParen] + expr_toks(*x) + n + seq![KindV::In, KindV::LParen]
                + values_toks(vs) + seq![KindV::RParen, KindV::RParen]);
            assert(k[0] == KindV::LParen);
        },
    }
}

// ---------------------------------------------------------------------------
// The parser half for expressions.
// ---------------------------------------------------------------------------

/// The segments of a path from the one at `i` on, met at token `p`, extend
/// the path read so far to the whole of `s`.
proof fn lemma_ident_tail(t: Seq<TokenV>, p: int, s: Seq<char>, i: int)
    requires
        0 <= i <= s.len(),
        kinds_at(t, p, path_toks(s, i)),
        !at(t, p + path_toks(s, i).len(), TokenMatcher::Dot),
    ensures
        ident_tail(t, p + 1, s.subrange(0, dot_from(s, i))) == Ok::<(Seq<char>, int), crate::parser::ErrorV>(
            (s, p + path_toks(s, i).len()),
        ),
    decreases s.len() - i,
{
    lemma_dot_from(s, i);
    let j = dot_from(s, i);
    if j < s.len() {
        let head = seq![KindV::Identifier(s.subrange(i, j)), KindV::Dot];
        let rest = path_toks(s, j + 1);
        lemma_kinds_at_cat(t, p, head, rest);
        assert(t[p + 1].kind == head[1]);
        lemma_dot_from(s, j + 1);
        let j2 = dot_from(s, j + 1);
        lemma_ident_tail(t, p + 2, s, j + 1);
        if j2 < s.len() {
            assert(rest == seq![KindV::Identifier(s.subrange(j + 1, j2)), KindV::Dot] + path_toks(
                s,
                j2 + 1,
            ));
            assert(rest[0] == KindV::Identifier(s.subrange(j + 1, j2)));
        } else {
            assert(rest[0] == KindV::Identifier(s.subrange(j + 1, j2)));
        }
        assert(t[p + 2 + 0].kind == rest[0]);
        assert(s.subrange(0, j).push('.') + s.subrange(j + 1, j2) =~= s.subrange(0, j2));
    } else {
        assert(s.subrange(0, j) =~= s);
    }
}

proof fn lemma_ident_path(t: Seq<TokenV>, p: int, s: Seq<char>)
    requires
        kinds_at(t, p, path_toks(s, 0)),
        !at(t, p + path_toks(s, 0).len(), TokenMatcher::Dot),
    ensures
        ident_path(t, p) == Ok::<(Seq<char>, int), crate::parser::ErrorV>(
            (s, p + path_toks(s, 0).len()),
        ),
{
    lemma_ident_tail(t, p, s, 0);
    lemma_dot_from(s, 0);
    let j = dot_from(s, 0);
    let k = path_toks(s, 0);
    if j < s.len() {
        assert(k == seq![KindV::Identifier(s.subrange(0, j)), KindV::Dot] + path_toks(s, j + 1));
    }
    assert(k[0] == KindV::Identifier(s.subrange(0, j)));
    assert(t[p + 0].kind == k[0]);
}

/// Inside its parentheses, a rendered binary expression parses back whole.
proof fn lemma_binary_inside(t: Seq<TokenV>, p: int, e: ExprV)
    requires
        e is Binary,
        reads_back(e),
        kinds_at(t, p, expr_toks(e)),
    ensures
        p_expression(t, p + 1) == Ok::<(ExprV, int), crate::parser::ErrorV>(
            (e, p + expr_toks(e).len() - 1),
        ),
        t[p + expr_toks(e).len() - 1].kind == KindV::RParen,
        t[p].kind == KindV::LParen,
    decreases e, 0int,
{
    if let ExprV::Binary(l, op, r) = e {
        let l = *l;
        let r = *r;
        let ka = seq![KindV::LParen];
        let kl = expr_toks(l);
        let ko = seq![op_kind(op)];
        let kr = expr_toks(r);
        let kc = seq![KindV::RParen];
        lemma_kinds_at_cat(t, p, ka + kl + ko + kr, kc);
        lemma_kinds_at_cat(t, p, ka + kl + ko, kr);
        lemma_kinds_at_cat(t, p, ka + kl, ko);
        lemma_kinds_at_cat(t, p, ka, kl);
        let a = p + 1;
        let qo = a + kl.len();
        let b = qo + 1;
        let qr = b + kr.len();
        lemma_kinds_at_one(t, p, KindV::LParen);
        lemma_kinds_at_one(t, qo, op_kind(op));
        lemma_kinds_at_one(t, qr, KindV::RParen);
        lemma_first_tok(l);
        lemma_first_tok(r);
        assert(t[a + 0].kind == kl[0]);
        assert(t[b + 0].kind == kr[0]);
        if tight(op) {
            lemma_primary(t, a, l);
            lemma_primary(t, b, r);
            assert(p_comparison(t, a) == Ok::<(ExprV, int), crate::parser::ErrorV>((e, qr)));
            assert(p_not(t, a) == p_comparison(t, a));
            assert(and_tail(t, qr, e) == Ok::<(ExprV, int), crate::parser::ErrorV>((e, qr)));
            assert(p_and(t, a) == Ok::<(ExprV, int), crate::parser::ErrorV>((e, qr)));
            assert(or_tail(t, qr, e) == Ok::<(ExprV, int), crate::parser::ErrorV>((e, qr)));
        } else if op is And {
            lemma_not(t, a, l);
            lemma_not(t, b, r);
            assert(and_tail(t, qr, e) == Ok::<(ExprV, int), crate::parser::ErrorV>((e, qr)));
            assert(and_tail(t, qo, l) == Ok::<(ExprV, int), crate::parser::ErrorV>((e, qr)));
            assert(p_and(t, a) == Ok::<(ExprV, int), crate::parser::ErrorV>((e, qr)));
            assert(or_tail(t, qr, e) == Ok::<(ExprV, int), crate::parser::ErrorV>((e, qr)));
        } else {
            lemma_not(t, a, l);
            lemma_not(t, b, r);
            assert(and_tail(t, qo, l) == Ok::<(ExprV, int), crate::parser::ErrorV>((l, qo)));
            assert(p_and(t, a) == Ok::<(ExprV, int), crate::parser::ErrorV>((l, qo)));
            assert(and_tail(t, qr, r) == Ok::<(ExprV, int), crate::parser::ErrorV>((r, qr)));
            assert(p_and(t, b) == Ok::<(ExprV, int), crate::parser::ErrorV>((r, qr)));
            assert(or_tail(t, qr, e) == Ok::<(ExprV, int), crate::parser::ErrorV>((e, qr)));
            assert(or_tail(t, qo, l) == Ok::<(ExprV, int), crate::parser::ErrorV>((e, qr)));
        }
        assert(p_or(t, a) == Ok::<(ExprV, int), crate::parser::ErrorV>((e, qr)));
    }
}

/// Inside its parentheses, a rendered `IN` test parses back whole.
proof fn lemma_inlist_inside(t: Seq<TokenV>, p: int, e: ExprV)
    requires
        e is InList,
        reads_back(e),
        kinds_at(t, p, expr_toks(e)),
    ensures
        p_expression(t, p + 1) == Ok::<(ExprV, int), crate::parser::ErrorV>(
            (e, p + expr_toks(e).len() - 1),
        ),
        t[p + expr_toks(e).len() - 1].kind == KindV::RParen,
        t[p].kind == KindV::LParen,
    decreases e, 0int,
{
    if let ExprV::InList(x, vs, negated) = e {
        let x = *x;
        let ka = seq![KindV::LParen];
        let kx = expr_toks(x);
        let kn = if negated {
            seq![KindV::Not]
        } else {
            Seq::<KindV>::empty()
        };
        let ki = seq![KindV::In, KindV::LParen];
        let kv = values_toks(vs);
        let kc = seq![KindV::RParen, KindV::RParen];
        assert(expr_toks(e) == ka + kx + kn + ki + kv + kc);
        lemma_kinds_at_cat(t, p, ka + kx + kn + ki + kv, kc);
        lemma_kinds_at_cat(t, p, ka + kx + kn + ki, kv);
        lemma_kinds_at_cat(t, p, ka + kx + kn, ki);
        lemma_kinds_at_cat(t, p, ka + kx, kn);
        lemma_kinds_at_cat(t, p, ka, kx);
        let a = p + 1;
        let qx = a + kx.len();
        let li = qx + kn.len();
        let lp = li + 1;
        let qv = lp + 1 + kv.len();
        lemma_kinds_at_one(t, p, KindV::LParen);
        assert(t[li + 0].kind == ki[0]);
        assert(t[li + 1].kind == ki[1]);
        assert(t[qv + 0].kind == kc[0]);
        assert(t[qv + 1].kind == kc[1]);
        if negated {
            assert(t[qx + 0].kind == kn[0]);
        }
        lemma_first_tok(x);
        assert(t[a + 0].kind == kx[0]);
        lemma_primary(t, a, x);
        lemma_values(t, lp + 1, vs, Seq::empty());
        assert(Seq::<ExprV>::empty() + vs =~= vs);
        assert(in_list(t, lp, x, negated) == Ok::<(ExprV, int), crate::parser::ErrorV>((e, qv + 1)));
        assert(p_comparison(t, a) == Ok::<(ExprV, int), crate::parser::ErrorV>((e, qv + 1)));
        assert(p_not(t, a) == p_comparison(t, a));
        assert(and_tail(t, qv + 1, e) == Ok::<(ExprV, int), crate::parser::ErrorV>((e, qv + 1)));
        assert(or_tail(t, qv + 1, e) == Ok::<(ExprV, int), crate::parser::ErrorV>((e, qv + 1)));
    }
}

/// A rendered expression that is no `NOT` parses back as a primary.
proof fn lemma_primary(t: Seq<TokenV>, p: int, e: ExprV)
    requires
        reads_back(e),
        !(e is Unary),
        kinds_at(t, p, expr_toks(e)),
        !at(t, p + expr_toks(e).len(), TokenMatcher::Dot),
    ensures
        p_primary(t, p) == Ok::<(ExprV, int), crate::parser::ErrorV>((e, p + expr_toks(e).len())),
    decreases e, 1int,
{
    let n = expr_toks(e).len();
    match e {
        ExprV::Identifier(s) => {
            lemma_ident_path(t, p, s);
            lemma_first_tok(e);
            lemma_dot_from(s, 0);
            let j = dot_from(s, 0);
            if j < s.len() {
                assert(expr_toks(e) == seq![KindV::Identifier(s.subrange(0, j)), KindV::Dot]
                    + path_toks(s, j + 1));
            }
            assert(expr_toks(e)[0] == KindV::Identifier(s.subrange(0, j)));
            assert(t[p + 0].kind == expr_toks(e)[0]);
        },
        ExprV::Literal(l) => {
            assert(t[p + 0].kind == expr_toks(e)[0]);
        },
        ExprV::Unary(_, _) => {},
        ExprV::Binary(_, _, _) => {
            lemma_binary_inside(t, p, e);
        },
        ExprV::InList(_, _, _) => {
            lemma_inlist_inside(t, p, e);
        },
    }
}

/// Rendered values separated by commas parse back into the list.
proof fn lemma_values(t: Seq<TokenV>, p: int, vs: Seq<ExprV>, acc: Seq<ExprV>)
    requires
        vs.len() > 0,
        forall|k: int| 0 <= k < vs.len() ==> reads_back(#[trigger] vs[k]) && !(vs[k] is Unary),
        kinds_at(t, p, values_toks(vs)),
        !at(t, p + values_toks(vs).len(), TokenMatcher::Comma),
        !at(t, p + values_toks(vs).len(), TokenMatcher::Dot),
    ensures
        in_values(t, p, acc) == Ok::<(Seq<ExprV>, int), crate::parser::ErrorV>(
            (acc + vs, p + values_toks(vs).len()),
        ),
    decreases vs, 0int,
{
    let v = vs[0];
    assert(reads_back(v) && !(v is Unary));
    let kv = expr_toks(v);
    if vs.len() == 1 {
        lemma_primary(t, p, v);
        assert(acc.push(v) =~= acc + vs);
    } else {
        let rest = vs.subrange(1, vs.len() as int);
        let kr = values_toks(rest);
        lemma_kinds_at_cat(t, p, kv + seq![KindV::Comma], kr);
        lemma_kinds_at_cat(t, p, kv, seq![KindV::Comma]);
        lemma_kinds_at_one(t, p + kv.len(), KindV::Comma);
        lemma_primary(t, p, v);
        assert forall|k: int| 0 <= k < rest.len() implies reads_back(#[trigger] rest[k]) && !(
        rest[k] is Unary) by {
            assert(rest[k] == vs[k + 1]);
        }
        lemma_values(t, p + kv.len() + 1, rest, acc.push(v));
        assert(acc.push(v) + rest =~= acc + vs);
    }
}

/// A rendered expression parses back at the `NOT` level.
proof fn lemma_not(t: Seq<TokenV>, p: int, e: ExprV)
    requires
        reads_back(e),
        kinds_at(t, p, expr_toks(e)),
        ends_operand(t, p + expr_toks(e).len()),
    ensures
        p_not(t, p) == Ok::<(ExprV, int), crate::parser::ErrorV>((e, p + expr_toks(e).len())),
    decreases e, 2int,
{
    let n = expr_toks(e).len();
    match e {
        ExprV::Unary(op, x) => {
            let x = *x;
            let ka = seq![KindV::Not, KindV::LParen];
            let kx = expr_toks(x);
            let kc = seq![KindV::RParen];
            lemma_kinds_at_cat(t, p, ka + kx, kc);
            lemma_kinds_at_cat(t, p, ka, kx);
            lemma_kinds_at_one(t, p + 2 + kx.len(), KindV::RParen);
            assert(t[p + 0].kind == ka[0]);
            assert(t[p + 1].kind == ka[1]);
            lemma_expression(t, p + 2, x);
            assert(p_primary(t, p + 1) == Ok::<(ExprV, int), crate::parser::ErrorV>((x, p + n)));
            assert(p_comparison(t, p + 1) == Ok::<(ExprV, int), crate::parser::ErrorV>(
                (x, p + n),
            ));
            assert(p_not(t, p + 1) == Ok::<(ExprV, int), crate::parser::ErrorV>((x, p + n)));
            assert(op == crate::ast::UnaryOperator::Not);
            assert(at(t, p, TokenMatcher::Not));
        },
        _ => {
            lemma_first_tok(e);
            assert(t[p + 0].kind == expr_toks(e)[0]);
            lemma_primary(t, p, e);
            assert(!at(t, p, TokenMatcher::Not));
            assert(p_comparison(t, p) == Ok::<(ExprV, int), crate::parser::ErrorV>((e, p + n)));
        },
    }
}

/// A rendered expression parses back as a whole expression.
proof fn lemma_expression(t: Seq<TokenV>, p: int, e: ExprV)
    requires
        reads_back(e),
        kinds_at(t, p, expr_toks(e)),
        ends_expr(t, p + expr_toks(e).len()),
    ensures
        p_expression(t, p) == Ok::<(ExprV, int), crate::parser::ErrorV>(
            (e, p + expr_toks(e).len()),
        ),
    decreases e, 3int,
{
    let q = p + expr_toks(e).len();
    lemma_not(t, p, e);
    assert(and_tail(t, q, e) == Ok::<(ExprV, int), crate::parser::ErrorV>((e, q)));
    assert(or_tail(t, q, e) == Ok::<(ExprV, int), crate::parser::ErrorV>((e, q)));
}

// ---------------------------------------------------------------------------
// The parser half for statements.
// ---------------------------------------------------------------------------

/// Whether the token at `q` starts a clause after the table, or the tokens
/// end there.
spec fn at_clause(t: Seq<TokenV>, q: int) -> bool {
    ||| q == t.len()
    ||| 0 <= q < t.len() && (t[q].kind is Join || t[q].kind is Where || t[q].kind is Order
        || t[q].kind is Limit)
}

proof fn lemma_head(t: Seq<TokenV>, q: int, k: Seq<KindV>)
    requires
        kinds_at(t, q, k),
        q + k.len() == t.len(),
    ensures
        k.len() == 0 ==> q == t.len(),
        k.len() > 0 ==> t[q].kind == k[0],
{
    if k.len() > 0 {
        assert(t[q + 0].kind == k[0]);
    }
}

proof fn lemma_path_first(s: Seq<char>)
    ensures
        path_toks(s, 0).len() >= 1,
        path_toks(s, 0)[0] is Identifier,
{
    let j = dot_from(s, 0);
    if 0 <= j < s.len() {
        assert((seq![KindV::Identifier(s.subrange(0, j)), KindV::Dot] + path_toks(s, j + 1))[0]
            == KindV::Identifier(s.subrange(0, j)));
    }
}

proof fn lemma_select_list(t: Seq<TokenV>, p: int, items: Seq<SelectItemV>, acc: Seq<SelectItemV>)
    requires
        items.len() > 0,
        kinds_at(t, p, comma_joined(items.map_values(|i: SelectItemV| item_toks(i)))),
        !at(
            t,
            p + comma_joined(items.map_values(|i: SelectItemV| item_toks(i))).len(),
            TokenMatcher::Comma,
        ),
        !at(
            t,
            p + comma_joined(items.map_values(|i: SelectItemV| item_toks(i))).len(),
            TokenMatcher::Dot,
        ),
    ensures
        select_list(t, p, acc) == Ok::<(Seq<SelectItemV>, int), crate::parser::ErrorV>(
            (acc + items, p + comma_joined(items.map_values(|i: SelectItemV| item_toks(i))).len()),
        ),
    decreases items.len(),
{
    let parts = items.map_values(|i: SelectItemV| item_toks(i));
    let item = items[0];
    let ki = item_toks(item);
    assert(parts[0] == ki);
    let q = p + ki.len();
    if items.len() > 1 {
        let rest = items.subrange(1, items.len() as int);
        assert(parts.subrange(1, parts.len() as int) =~= rest.map_values(
            |i: SelectItemV| item_toks(i),
        ));
        let kr = comma_joined(rest.map_values(|i: SelectItemV| item_toks(i)));
        lemma_kinds_at_cat(t, p, ki + seq![KindV::Comma], kr);
        lemma_kinds_at_cat(t, p, ki, seq![KindV::Comma]);
        lemma_kinds_at_one(t, q, KindV::Comma);
    }
    match item {
        SelectItemV::Wildcard => {
            lemma_kinds_at_one(t, p, KindV::Star);
        },
        SelectItemV::Column(c) => {
            lemma_path_first(c);
            assert(t[p + 0].kind == ki[0]);
            lemma_ident_path(t, p, c);
        },
    }
    assert(select_item(t, p) == Ok::<(SelectItemV, int), crate::parser::ErrorV>((item, q)));
    if items.len() > 1 {
        let rest = items.subrange(1, items.len() as int);
        lemma_select_list(t, q + 1, rest, acc.push(item));
        assert(acc.push(item) + rest =~= acc + items);
    } else {
        assert(acc.push(item) =~= acc + items);
    }
}

proof fn lemma_joins(t: Seq<TokenV>, p: int, js: Seq<JoinV>, acc: Seq<JoinV>)
    requires
        forall|k: int| 0 <= k < js.len() ==> reads_back(#[trigger] js[k].on),
        kinds_at(t, p, joins_toks(js)),
        ends_expr(t, p + joins_toks(js).len()),
        !at(t, p + joins_toks(js).len(), TokenMatcher::Join),
    ensures
        joins(t, p, acc) == Ok::<(Seq<JoinV>, int), crate::parser::ErrorV>(
            (acc + js, p + joins_toks(js).len()),
        ),
    decreases js.len(),
{
    if js.len() == 0 {
        assert(acc + js =~= acc);
    } else {
        let j = js[0];
        let rest = js.subrange(1, js.len() as int);
        let kj = join_toks(j);
        let kr = joins_toks(rest);
        let kp = path_toks(j.table, 0);
        let ke = expr_toks(j.on);
        lemma_kinds_at_cat(t, p, kj, kr);
        lemma_kinds_at_cat(t, p, seq![KindV::Join] + kp + seq![KindV::On], ke);
        lemma_kinds_at_cat(t, p, seq![KindV::Join] + kp, seq![KindV::On]);
        lemma_kinds_at_cat(t, p, seq![KindV::Join], kp);
        lemma_kinds_at_one(t, p, KindV::Join);
        let qa = p + 1 + kp.len();
        lemma_kinds_at_one(t, qa, KindV::On);
        lemma_ident_path(t, p + 1, j.table);
        let q2 = p + kj.len();
        if rest.len() > 0 {
            let kn = join_toks(rest[0]);
            assert(kr == kn + joins_toks(rest.subrange(1, rest.len() as int)));
            assert(kn[0] == KindV::Join);
            assert(t[q2 + 0].kind == kr[0]);
        }
        assert(reads_back(js[0].on));
        lemma_expression(t, qa + 1, j.on);
        assert forall|k: int| 0 <= k < rest.len() implies reads_back(#[trigger] rest[k].on) by {
            assert(rest[k] == js[k + 1]);
        }
        lemma_joins(t, q2, rest, acc.push(j));
        assert(acc.push(j) + rest =~= acc + js);
        assert(JoinV { table: j.table, on: j.on } == j);
    }
}

proof fn lemma_order_list(t: Seq<TokenV>, p: int, os: Seq<OrderByV>, acc: Seq<OrderByV>)
    requires
        os.len() > 0,
        kinds_at(t, p, comma_joined(os.map_values(|o: OrderByV| order_toks(o)))),
        !at(
            t,
            p + comma_joined(os.map_values(|o: OrderByV| order_toks(o))).len(),
            TokenMatcher::Comma,
        ),
    ensures
        order_list(t, p, acc) == Ok::<(Seq<OrderByV>, int), crate::parser::ErrorV>(
            (acc + os, p + comma_joined(os.map_values(|o: OrderByV| order_toks(o))).len()),
        ),
    decreases os.len(),
{
    let parts = os.map_values(|o: OrderByV| order_toks(o));
    let o = os[0];
    let ko = order_toks(o);
    assert(parts[0] == ko);
    let q = p + ko.len();
    if os.len() > 1 {
        let rest = os.subrange(1, os.len() as int);
        assert(parts.subrange(1, parts.len() as int) =~= rest.map_values(
            |o: OrderByV| order_toks(o),
        ));
        let kr = comma_joined(rest.map_values(|o: OrderByV| order_toks(o)));
        lemma_kinds_at_cat(t, p, ko + seq![KindV::Comma], kr);
        lemma_kinds_at_cat(t, p, ko, seq![KindV::Comma]);
        lemma_kinds_at_one(t, q, KindV::Comma);
    }
    let kp = path_toks(o.column, 0);
    lemma_kinds_at_cat(t, p, kp, seq![direction_kind(o.direction)]);
    lemma_kinds_at_one(t, p + kp.len(), direction_kind(o.direction));
    lemma_ident_path(t, p, o.column);
    assert(OrderByV { column: o.column, direction: o.direction } == o);
    assert(order_item(t, p) == Ok::<(OrderByV, int), crate::parser::ErrorV>((o, q)));
    if os.len() > 1 {
        let rest = os.subrange(1, os.len() as int);
        lemma_order_list(t, q + 1, rest, acc.push(o));
        assert(acc.push(o) + rest =~= acc + os);
    } else {
        assert(acc.push(o) =~= acc + os);
    }
}

spec fn items_toks(s: SelectStatementV) -> Seq<KindV> {
    comma_joined(s.select.map_values(|i: SelectItemV| item_toks(i)))
}

/// Where the `FROM` keyword of a rendered statement stands.
spec fn pos_from(s: SelectStatementV) -> int {
    1 + items_toks(s).len() as int
}

/// Where the joins of a rendered statement start.
spec fn pos_joins(s: SelectStatementV) -> int {
    pos_from(s) + 1 + path_toks(s.from, 0).len()
}

spec fn pos_where(s: SelectStatementV) -> int {
    pos_joins(s) + joins_toks(s.joins).len()
}

spec fn pos_order(s: SelectStatementV) -> int {
    pos_where(s) + where_toks(s.where_clause).len()
}

spec fn pos_limit(s: SelectStatementV) -> int {
    pos_order(s) + orders_toks(s.order_by).len()
}

/// Where each part of a rendered statement stands, and which token follows
/// each part.
proof fn lemma_layout(t: Seq<TokenV>, s: SelectStatementV)
    requires
        kinds_at(t, 0, stmt_toks(s)),
        t.len() == stmt_toks(s).len(),
    ensures
        t[0].kind == KindV::Select,
        kinds_at(t, 1, items_toks(s)),
        t[pos_from(s)].kind == KindV::From,
        kinds_at(t, pos_from(s) + 1, path_toks(s.from, 0)),
        kinds_at(t, pos_joins(s), joins_toks(s.joins)),
        kinds_at(t, pos_where(s), where_toks(s.where_clause)),
        kinds_at(t, pos_order(s), orders_toks(s.order_by)),
        kinds_at(t, pos_limit(s), limit_toks(s.limit)),
        pos_limit(s) + limit_toks(s.limit).len() == t.len(),
        at_clause(t, pos_joins(s)),
        at_clause(t, pos_where(s)) && !at(t, pos_where(s), TokenMatcher::Join),
        pos_order(s) == t.len() || t[pos_order(s)].kind is Order || t[pos_order(s)].kind is Limit,
        pos_limit(s) == t.len() || t[pos_limit(s)].kind is Limit,
{
    let ks = seq![KindV::Select];
    let ki = items_toks(s);
    let kf = seq![KindV::From];
    let kp = path_toks(s.from, 0);
    let kj = joins_toks(s.joins);
    let kw = where_toks(s.where_clause);
    let ko = orders_toks(s.order_by);
    let kl = limit_toks(s.limit);
    assert(stmt_toks(s) == ks + ki + kf + kp + kj + kw + ko + kl);
    lemma_kinds_at_cat(t, 0, ks + ki + kf + kp + kj + kw + ko, kl);
    lemma_kinds_at_cat(t, 0, ks + ki + kf + kp + kj + kw, ko);
    lemma_kinds_at_cat(t, 0, ks + ki + kf + kp + kj, kw);
    lemma_kinds_at_cat(t, 0, ks + ki + kf + kp, kj);
    lemma_kinds_at_cat(t, 0, ks + ki + kf, kp);
    lemma_kinds_at_cat(t, 0, ks + ki, kf);
    lemma_kinds_at_cat(t, 0, ks, ki);
    lemma_kinds_at_one(t, 0, KindV::Select);
    lemma_kinds_at_one(t, pos_from(s), KindV::From);
    let q2 = pos_joins(s);
    let q3 = pos_where(s);
    let q4 = pos_order(s);
    let q5 = pos_limit(s);
    lemma_kinds_at_cat(t, q4, ko, kl);
    lemma_kinds_at_cat(t, q3, kw, ko + kl);
    lemma_kinds_at_cat(t, q2, kj, kw + (ko + kl));
    lemma_head(t, q5, kl);
    lemma_head(t, q4, ko + kl);
    lemma_head(t, q3, kw + (ko + kl));
    lemma_head(t, q2, kj + (kw + (ko + kl)));
    if kl.len() > 0 {
        assert(kl[0] == KindV::Limit);
    }
    if ko.len() > 0 {
        assert(ko[0] == KindV::Order);
        assert((ko + kl)[0] == ko[0]);
    } else {
        assert(ko + kl =~= kl);
    }
    if kw.len() > 0 {
        assert(kw[0] == KindV::Where);
        assert((kw + (ko + kl))[0] == kw[0]);
    } else {
        assert(kw + (ko + kl) =~= ko + kl);
    }
    if kj.len() > 0 {
        let j0 = join_toks(s.joins[0]);
        assert(kj == j0 + joins_toks(s.joins.subrange(1, s.joins.len() as int)));
        assert(j0[0] == KindV::Join);
        assert(kj[0] == KindV::Join);
        assert((kj + (kw + (ko + kl)))[0] == kj[0]);
    } else {
        assert(kj + (kw + (ko + kl)) =~= kw + (ko + kl));
    }
}

/// The token kinds of a statement that reads back parse into the statement.
#[verifier::rlimit(60)]
proof fn lemma_select(t: Seq<TokenV>, s: SelectStatementV)
    requires
        stmt_reads_back(s),
        kinds_at(t, 0, stmt_toks(s)),
        t.len() == stmt_toks(s).len(),
    ensures
        p_select(t) == Ok::<SelectStatementV, crate::parser::ErrorV>(s),
{
    lemma_layout(t, s);
    let q1 = pos_from(s);
    let q2 = pos_joins(s);
    let q3 = pos_where(s);
    let q4 = pos_order(s);
    let q5 = pos_limit(s);
    assert(select_list(t, 1, Seq::empty()) == Ok::<(Seq<SelectItemV>, int), crate::parser::ErrorV>(
        (s.select, q1),
    )) by {
        lemma_select_list(t, 1, s.select, Seq::empty());
        assert(Seq::<SelectItemV>::empty() + s.select =~= s.select);
    }
    assert(ident_path(t, q1 + 1) == Ok::<(Seq<char>, int), crate::parser::ErrorV>((s.from, q2)))
        by {
        lemma_ident_path(t, q1 + 1, s.from);
    }
    assert(joins(t, q2, Seq::empty()) == Ok::<(Seq<JoinV>, int), crate::parser::ErrorV>(
        (s.joins, q3),
    )) by {
        assert forall|k: int| 0 <= k < s.joins.len() implies reads_back(#[trigger] s.joins[k].on) by {
            assert(plain_path(s.joins[k].table) && reads_back(s.joins[k].on));
        }
        lemma_joins(t, q2, s.joins, Seq::empty());
        assert(Seq::<JoinV>::empty() + s.joins =~= s.joins);
    }
    assert(where_part(t, q3) == Ok::<(Option<ExprV>, int), crate::parser::ErrorV>(
        (s.where_clause, q4),
    )) by {
        match s.where_clause {
            Some(e) => {
                lemma_kinds_at_cat(t, q3, seq![KindV::Where], expr_toks(e));
                lemma_kinds_at_one(t, q3, KindV::Where);
                lemma_expression(t, q3 + 1, e);
            },
            None => {},
        }
    }
    assert(order_part(t, q4) == Ok::<(Seq<OrderByV>, int), crate::parser::ErrorV>(
        (s.order_by, q5),
    )) by {
        if s.order_by.len() > 0 {
            let kc = comma_joined(s.order_by.map_values(|o: OrderByV| order_toks(o)));
            lemma_kinds_at_cat(t, q4, seq![KindV::Order, KindV::By], kc);
            assert(t[q4 + 0].kind == seq![KindV::Order, KindV::By][0]);
            assert(t[q4 + 1].kind == seq![KindV::Order, KindV::By][1]);
            lemma_order_list(t, q4 + 2, s.order_by, Seq::empty());
            assert(Seq::<OrderByV>::empty() + s.order_by =~= s.order_by);
        } else {
            assert(s.order_by =~= Seq::<OrderByV>::empty());
        }
    }
    assert(limit_part(t, q5) == Ok::<(Option<u64>, int), crate::parser::ErrorV>(
        (s.limit, t.len() as int),
    )) by {
        match s.limit {
            Some(n) => {
                assert(t[q5 + 0].kind == limit_toks(s.limit)[0]);
                assert(t[q5 + 1].kind == limit_toks(s.limit)[1]);
            },
            None => {},
        }
    }
    assert(SelectStatementV {
        select: s.select,
        from: s.from,
        joins: s.joins,
        where_clause: s.where_clause,
        order_by: s.order_by,
        limit: s.limit,
    } == s);
}

// ---------------------------------------------------------------------------
// The lexer half.
// ---------------------------------------------------------------------------

pub open spec fn kinds_of(ts: Seq<TokenV>) -> Seq<KindV> {
    ts.map_values(|x: TokenV| x.kind)
}

/// The token kinds of `s` from index `i` on, where it tokenizes.
pub open spec fn kinds_from(s: Seq<char>, i: int) -> Option<Seq<KindV>> {
    match lex_from(s, i) {
        Ok(ts) => Some(kinds_of(ts)),
        Err(_) => None,
    }
}

pub open spec fn prepend(a: Seq<KindV>, o: Option<Seq<KindV>>) -> Option<Seq<KindV>> {
    match o {
        Some(k) => Some(a + k),
        None => None,
    }
}

/// Whether `x` stands in `s` at `i`.
pub open spec fn occurs(s: Seq<char>, i: int, x: Seq<char>) -> bool {
    0 <= i && i + x.len() <= s.len() && s.subrange(i, i + x.len()) == x
}

/// Whether the character at `j` (if any) cannot extend a token that ends
/// just before it.
pub open spec fn boundary(s: Seq<char>, j: int) -> bool {
    !(0 <= j < s.len()) || !(is_ident_continue(s[j]) || s[j] == '=' || s[j] == '>' || s[j]
        == '\'')
}

proof fn lemma_prepend_chain(a: Seq<KindV>, b: Seq<KindV>, o: Option<Seq<KindV>>)
    ensures
        prepend(a, prepend(b, o)) == prepend(a + b, o),
{
    if let Some(k) = o {
        assert(a + (b + k) =~= a + b + k);
    }
}

proof fn lemma_occurs_cat(s: Seq<char>, i: int, x: Seq<char>, y: Seq<char>)
    requires
        occurs(s, i, x + y),
    ensures
        occurs(s, i, x),
        occurs(s, i + x.len(), y),
{
    let w = s.subrange(i, i + x.len() + y.len());
    assert(w == x + y);
    assert forall|k: int| 0 <= k < x.len() implies #[trigger] s.subrange(i, i + x.len())[k]
        == x[k] by {
        assert(w[k] == (x + y)[k]);
    }
    assert(s.subrange(i, i + x.len()) =~= x);
    assert forall|k: int| 0 <= k < y.len() implies #[trigger] s.subrange(
        i + x.len(),
        i + x.len() + y.len(),
    )[k] == y[k] by {
        assert(w[x.len() + k] == (x + y)[x.len() + k]);
    }
    assert(s.subrange(i + x.len(), i + x.len() + y.len()) =~= y);
}

proof fn lemma_occurs_at(s: Seq<char>, i: int, x: Seq<char>, k: int)
    requires
        occurs(s, i, x),
        0 <= k < x.len(),
    ensures
        s[i + k] == x[k],
{
    assert(s.subrange(i, i + x.len())[k] == s[i + k]);
}

proof fn lemma_emit(s: Seq<char>, i: int, k: KindV, j: int)
    requires
        0 <= i < j <= s.len(),
        step(s, i) == Step::Emit(k, j),
    ensures
        kinds_from(s, i) == prepend(seq![k], kinds_from(s, j)),
{
    if let Ok(rest) = lex_from(s, j) {
        let tok = TokenV { kind: k, start: i };
        assert(kinds_of(seq![tok] + rest) =~= seq![k] + kinds_of(rest));
    }
}

proof fn lemma_skip(s: Seq<char>, i: int)
    requires
        0 <= i < s.len(),
        s[i] == ' ',
    ensures
        kinds_from(s, i) == kinds_from(s, i + 1),
{
    assert(is_space(' '));
}

/// A run of identifier characters ending where none follows is read whole.
proof fn lemma_ident_run(s: Seq<char>, a: int, b: int)
    requires
        0 <= a <= b <= s.len(),
        forall|k: int| a <= k < b ==> is_ident_continue(#[trigger] s[k]),
        b == s.len() || !is_ident_continue(s[b]),
    ensures
        ident_end(s, a) == b,
    decreases b - a,
{
    if a < b {
        lemma_ident_run(s, a + 1, b);
    }
}

/// A word at `i`, not followed by an identifier character, is one token.
proof fn lemma_lex_word(s: Seq<char>, i: int, w: Seq<char>)
    requires
        occurs(s, i, w),
        w.len() > 0,
        is_ident_start(w[0]),
        forall|k: int| 0 <= k < w.len() ==> is_ident_continue(#[trigger] w[k]),
        boundary(s, i + w.len()),
    ensures
        kinds_from(s, i) == prepend(seq![word_kind(w)], kinds_from(s, i + w.len())),
{
    let j = i + w.len();
    assert forall|k: int| i + 1 <= k < j implies is_ident_continue(#[trigger] s[k]) by {
        lemma_occurs_at(s, i, w, k - i);
    }
    lemma_occurs_at(s, i, w, 0);
    lemma_ident_run(s, i + 1, j);
    assert(!is_space(s[i]));
    lemma_emit(s, i, word_kind(w), j);
}

proof fn lemma_upper_word(w: Seq<char>)
    requires
        forall|k: int| 0 <= k < w.len() ==> 'A' <= #[trigger] w[k] <= 'Z',
    ensures
        upper(w) == w,
{
    assert(upper(w) =~= w);
}

/// The keywords that rendered statements spell are read as those keywords.
proof fn lemma_keywords()
    ensures
        word_kind("SELECT"@) == KindV::Select,
        word_kind("FROM"@) == KindV::From,
        word_kind("JOIN"@) == KindV::Join,
        word_kind("ON"@) == KindV::On,
        word_kind("WHERE"@) == KindV::Where,
        word_kind("ORDER"@) == KindV::Order,
        word_kind("BY"@) == KindV::By,
        word_kind("LIMIT"@) == KindV::Limit,
        word_kind("ASC"@) == KindV::Asc,
        word_kind("DESC"@) == KindV::Desc,
        word_kind("AND"@) == KindV::And,
        word_kind("OR"@) == KindV::Or,
        word_kind("NOT"@) == KindV::Not,
        word_kind("IN"@) == KindV::In,
        word_kind("LIKE"@) == KindV::Like,
{
    lemma_keyword_select();
    lemma_keyword_from();
    lemma_keyword_join();
    lemma_keyword_on();
    lemma_keyword_where();
    lemma_keyword_order();
    lemma_keyword_by();
    lemma_keyword_limit();
    lemma_keyword_asc();
    lemma_keyword_desc();
    lemma_keyword_and();
    lemma_keyword_or();
    lemma_keyword_not();
    lemma_keyword_in();
    lemma_keyword_like();
}

proof fn lemma_keyword_select()
    ensures
        word_kind("SELECT"@) == KindV::Select,
{
    reveal_strlit("SELECT");
    lemma_upper_word("SELECT"@);
}

proof fn lemma_keyword_from()
    ensures
        word_kind("FROM"@) == KindV::From,
{
    reveal_strlit("SELECT");
    reveal_strlit("FROM");
    lemma_upper_word("FROM"@);
}

proof fn lemma_keyword_join()
    ensures
        word_kind("JOIN"@) == KindV::Join,
{
    reveal_strlit("SELECT");
    reveal_strlit("FROM");
    reveal_strlit("JOIN");
    lemma_upper_word("JOIN"@);
    assert("JOIN"@[0] != "FROM"@[0]);
}

proof fn lemma_keyword_on()
    ensures
        word_kind("ON"@) == KindV::On,
{
    reveal_strlit("SELECT");
    reveal_strlit("FROM");
    reveal_strlit("JOIN");
    reveal_strlit("ON");
    lemma_upper_word("ON"@);
}

proof fn lemma_keyword_where()
    ensures
        word_kind("WHERE"@) == KindV::Where,
{
    reveal_strlit("SELECT");
    reveal_strlit("FROM");
    reveal_strlit("JOIN");
    reveal_strlit("ON");
    reveal_strlit("WHERE");
    lemma_upper_word("WHERE"@);
}

proof fn lemma_keyword_order()
    ensures
        word_kind("ORDER"@) == KindV::Order,
{
    reveal_strlit("SELECT");
    reveal_strlit("FROM");
    reveal_strlit("JOIN");
    reveal_strlit("ON");
    reveal_strlit("WHERE");
    reveal_strlit("ORDER");
    lemma_upper_word("ORDER"@);
    assert("ORDER"@[0] != "WHERE"@[0]);
}

proof fn lemma_keyword_by()
    ensures
        word_kind("BY"@) == KindV::By,
{
    reveal_strlit("SELECT");
    reveal_strlit("FROM");
    reveal_strlit("JOIN");
    reveal_strlit("ON");
    reveal_strlit("WHERE");
    reveal_strlit("ORDER");
    reveal_strlit("BY");
    lemma_upper_word("BY"@);
    assert("BY"@[0] != "ON"@[0]);
}

proof fn lemma_keyword_limit()
    ensures
        word_kind("LIMIT"@) == KindV::Limit,
{
    reveal_strlit("SELECT");
    reveal_strlit("FROM");
    reveal_strlit("JOIN");
    reveal_strlit("ON");
    reveal_strlit("WHERE");
    reveal_strlit("ORDER");
    reveal_strlit("BY");
    reveal_strlit("LIMIT");
    lemma_upper_word("LIMIT"@);
    assert("LIMIT"@[0] != "WHERE"@[0]);
    assert("LIMIT"@[0] != "ORDER"@[0]);
}

proof fn lemma_keyword_asc()
    ensures
        word_kind("ASC"@) == KindV::Asc,
{
    reveal_strlit("SELECT");
    reveal_strlit("FROM");
    reveal_strlit("JOIN");
    reveal_strlit("ON");
    reveal_strlit("WHERE");
    reveal_strlit("ORDER");
    reveal_strlit("BY");
    reveal_strlit("LIMIT");
    reveal_strlit("ASC");
    lemma_upper_word("ASC"@);
}

proof fn lemma_keyword_desc()
    ensures
        word_kind("DESC"@) == KindV::Desc,
{
    reveal_strlit("SELECT");
    reveal_strlit("FROM");
    reveal_strlit("JOIN");
    reveal_strlit("ON");
    reveal_strlit("WHERE");
    reveal_strlit("ORDER");
    reveal_strlit("BY");
    reveal_strlit("LIMIT");
    reveal_strlit("ASC");
    reveal_strlit("DESC");
    lemma_upper_word("DESC"@);
    assert("DESC"@[0] != "FROM"@[0]);
    assert("DESC"@[0] != "JOIN"@[0]);
}

proof fn lemma_keyword_and()
    ensures
        word_kind("AND"@) == KindV::And,
{
    reveal_strlit("SELECT");
    reveal_strlit("FROM");
    reveal_strlit("JOIN");
    reveal_strlit("ON");
    reveal_strlit("WHERE");
    reveal_strlit("ORDER");
    reveal_strlit("BY");
    reveal_strlit("LIMIT");
    reveal_strlit("ASC");
    reveal_strlit("DESC");
    reveal_strlit("AND");
    lemma_upper_word("AND"@);
    assert("AND"@[1] != "ASC"@[1]);
}

proof fn lemma_keyword_or()
    ensures
        word_kind("OR"@) == KindV::Or,
{
    reveal_strlit("SELECT");
    reveal_strlit("FROM");
    reveal_strlit("JOIN");
    reveal_strlit("ON");
    reveal_strlit("WHERE");
    reveal_strlit("ORDER");
    reveal_strlit("BY");
    reveal_strlit("LIMIT");
    reveal_strlit("ASC");
    reveal_strlit("DESC");
    reveal_strlit("AND");
    reveal_strlit("OR");
    lemma_upper_word("OR"@);
    assert("OR"@[1] != "ON"@[1]);
    assert("OR"@[0] != "BY"@[0]);
}

proof fn lemma_keyword_not()
    ensures
        word_kind("NOT"@) == KindV::Not,
{
    reveal_strlit("SELECT");
    reveal_strlit("FROM");
    reveal_strlit("JOIN");
    reveal_strlit("ON");
    reveal_strlit("WHERE");
    reveal_strlit("ORDER");
    reveal_strlit("BY");
    reveal_strlit("LIMIT");
    reveal_strlit("ASC");
    reveal_strlit("DESC");
    reveal_strlit("AND");
    reveal_strlit("OR");
    reveal_strlit("NOT");
    lemma_upper_word("NOT"@);
    assert("NOT"@[0] != "ASC"@[0]);
    assert("NOT"@[0] != "AND"@[0]);
}

proof fn lemma_keyword_in()
    ensures
        word_kind("IN"@) == KindV::In,
{
    reveal_strlit("SELECT");
    reveal_strlit("FROM");
    reveal_strlit("JOIN");
    reveal_strlit("ON");
    reveal_strlit("WHERE");
    reveal_strlit("ORDER");
    reveal_strlit("BY");
    reveal_strlit("LIMIT");
    reveal_strlit("ASC");
    reveal_strlit("DESC");
    reveal_strlit("AND");
    reveal_strlit("OR");
    reveal_strlit("NOT");
    reveal_strlit("IN");
    lemma_upper_word("IN"@);
    assert("IN"@[0] != "ON"@[0]);
    assert("IN"@[0] != "BY"@[0]);
    assert("IN"@[0] != "OR"@[0]);
}

proof fn lemma_keyword_like()
    ensures
        word_kind("LIKE"@) == KindV::Like,
{
    reveal_strlit("SELECT");
    reveal_strlit("FROM");
    reveal_strlit("JOIN");
    reveal_strlit("ON");
    reveal_strlit("WHERE");
    reveal_strlit("ORDER");
    reveal_strlit("BY");
    reveal_strlit("LIMIT");
    reveal_strlit("ASC");
    reveal_strlit("DESC");
    reveal_strlit("AND");
    reveal_strlit("OR");
    reveal_strlit("NOT");
    reveal_strlit("IN");
    reveal_strlit("LIKE");
    lemma_upper_word("LIKE"@);
    assert("LIKE"@[0] != "FROM"@[0]);
    assert("LIKE"@[0] != "JOIN"@[0]);
    assert("LIKE"@[0] != "DESC"@[0]);
}

/// Whether the text of `s` from `i` to `j` tokenizes into the kinds `a`,
/// whatever follows.
pub open spec fn reads(s: Seq<char>, i: int, j: int, a: Seq<KindV>) -> bool {
    kinds_from(s, i) == prepend(a, kinds_from(s, j))
}

proof fn lemma_reads_trans(s: Seq<char>, i: int, j: int, k: int, a: Seq<KindV>, b: Seq<KindV>)
    requires
        reads(s, i, j, a),
        reads(s, j, k, b),
    ensures
        reads(s, i, k, a + b),
{
    lemma_prepend_chain(a, b, kinds_from(s, k));
}

proof fn lemma_reads_skip(s: Seq<char>, i: int)
    requires
        0 <= i < s.len(),
        s[i] == ' ',
    ensures
        reads(s, i, i + 1, Seq::empty()),
{
    lemma_skip(s, i);
    if let Some(k) = kinds_from(s, i + 1) {
        assert(Seq::<KindV>::empty() + k =~= k);
    }
}

proof fn lemma_occurs_sub(s: Seq<char>, i: int, x: Seq<char>, a: int, b: int)
    requires
        occurs(s, i, x),
        0 <= a <= b <= x.len(),
    ensures
        occurs(s, i + a, x.subrange(a, b)),
{
    assert forall|k: int| 0 <= k < b - a implies #[trigger] s.subrange(i + a, i + b)[k]
        == x.subrange(a, b)[k] by {
        lemma_occurs_at(s, i, x, a + k);
    }
    assert(s.subrange(i + a, i + b) =~= x.subrange(a, b));
}

/// The segments of a plain path, from the one at `k` on, read as
/// identifiers separated by dots.
proof fn lemma_lex_segments(s: Seq<char>, i: int, p: Seq<char>, k: int)
    requires
        valid_path(p),
        plain_segments(p, k),
        0 <= k < p.len(),
        k == 0 || p[k - 1] == '.',
        occurs(s, i, p),
        boundary(s, i + p.len()),
    ensures
        reads(s, i + k, i + p.len(), path_toks(p, k)),
    decreases p.len() - k,
{
    lemma_dot_from(p, k);
    let j = dot_from(p, k);
    let seg = p.subrange(k, j);
    assert(is_ident_start(p[k]));
    assert(j > k);
    lemma_occurs_sub(s, i, p, k, j);
    if j < p.len() {
        lemma_occurs_at(s, i, p, j);
    }
    assert forall|m: int| 0 <= m < seg.len() implies is_ident_continue(#[trigger] seg[m]) by {
        assert(seg[m] == p[k + m]);
        assert(p[k + m] != '.');
    }
    assert(seg[0] == p[k]);
    lemma_lex_word(s, i + k, seg);
    assert(word_kind(seg) == KindV::Identifier(seg));
    if j < p.len() {
        assert(j + 1 < p.len());
        lemma_emit(s, i + j, KindV::Dot, i + j + 1);
        lemma_reads_trans(s, i + k, i + j, i + j + 1, seq![KindV::Identifier(seg)], seq![KindV::Dot]);
        lemma_lex_segments(s, i, p, j + 1);
        lemma_reads_trans(
            s,
            i + k,
            i + j + 1,
            i + p.len(),
            seq![KindV::Identifier(seg)] + seq![KindV::Dot],
            path_toks(p, j + 1),
        );
        assert(seq![KindV::Identifier(seg)] + seq![KindV::Dot] =~= seq![KindV::Identifier(seg), KindV::Dot]);
    }
}

/// A plain path reads as its identifiers and dots.
proof fn lemma_lex_path(s: Seq<char>, i: int, p: Seq<char>)
    requires
        plain_path(p),
        occurs(s, i, p),
        boundary(s, i + p.len()),
    ensures
        reads(s, i, i + p.len(), path_toks(p, 0)),
{
    lemma_lex_segments(s, i, p, 0);
}

proof fn lemma_digits_run(s: Seq<char>, a: int, b: int)
    requires
        0 <= a <= b <= s.len(),
        forall|k: int| a <= k < b ==> is_digit(#[trigger] s[k]),
        b == s.len() || !is_digit(s[b]),
    ensures
        digits_end(s, a) == b,
    decreases b - a,
{
    if a < b {
        lemma_digits_run(s, a + 1, b);
    }
}

/// A rendered integer reads as one integer token.
proof fn lemma_lex_integer(s: Seq<char>, i: int, n: u64)
    requires
        occurs(s, i, decimal(n as nat)),
        boundary(s, i + decimal(n as nat).len()),
    ensures
        reads(s, i, i + decimal(n as nat).len(), seq![KindV::Integer(n)]),
{
    let d = decimal(n as nat);
    let j = i + d.len();
    lemma_decimal_reads_back(n as nat);
    assert forall|k: int| i + 1 <= k < j implies is_digit(#[trigger] s[k]) by {
        lemma_occurs_at(s, i, d, k - i);
    }
    lemma_occurs_at(s, i, d, 0);
    lemma_digits_run(s, i + 1, j);
    assert(s.subrange(i, j) == d);
    assert(!is_space(s[i]));
    lemma_emit(s, i, KindV::Integer(n), j);
}

/// A rendered text literal reads as one string token holding the text.
proof fn lemma_lex_text(s: Seq<char>, i: int, v: Seq<char>)
    requires
        occurs(s, i, render_literal_spec(LiteralV::Text(v))),
        boundary(s, i + render_literal_spec(LiteralV::Text(v)).len()),
    ensures
        reads(s, i, i + render_literal_spec(LiteralV::Text(v)).len(), seq![KindV::Text(v)]),
{
    let x = render_literal_spec(LiteralV::Text(v));
    let j = i + x.len();
    let pre = s.subrange(0, i + 1);
    let post = s.subrange(j, s.len() as int);
    lemma_occurs_at(s, i, x, 0);
    assert(x == seq!['\''] + escape_quotes(v) + seq!['\'']);
    assert forall|k: int| 0 <= k < s.len() implies #[trigger] s[k] == (pre + escape_quotes(v)
        + seq!['\''] + post)[k] by {
        if i + 1 <= k < j {
            lemma_occurs_at(s, i, x, k - i);
        }
    }
    assert(s =~= pre + escape_quotes(v) + seq!['\''] + post);
    if post.len() > 0 {
        assert(post[0] == s[j]);
    }
    lemma_string_end_escaped(pre, v, post);
    assert(!is_space(s[i]));
    lemma_emit(s, i, KindV::Text(v), j);
}

/// A rendered operator reads as its token.
proof fn lemma_lex_operator(s: Seq<char>, i: int, op: BinaryOperator)
    requires
        occurs(s, i, operator_text(op)),
        boundary(s, i + operator_text(op).len()),
    ensures
        reads(s, i, i + operator_text(op).len(), seq![op_kind(op)]),
{
    let x = operator_text(op);
    let j = i + x.len();
    lemma_keywords();
    reveal_strlit("=");
    reveal_strlit("!=");
    reveal_strlit(">");
    reveal_strlit("<");
    reveal_strlit(">=");
    reveal_strlit("<=");
    reveal_strlit("AND");
    reveal_strlit("OR");
    reveal_strlit("LIKE");
    lemma_occurs_at(s, i, x, 0);
    if x.len() > 1 {
        lemma_occurs_at(s, i, x, 1);
    }
    match op {
        BinaryOperator::And | BinaryOperator::Or | BinaryOperator::Like => {
            lemma_lex_word(s, i, x);
        },
        _ => {
            assert(!is_space(s[i]));
            lemma_emit(s, i, op_kind(op), j);
        },
    }
}

/// The text of a rendering that succeeded.
pub open spec fn text_of(r: Result<Seq<char>, Seq<char>>) -> Seq<char> {
    match r {
        Ok(x) => x,
        Err(_) => Seq::empty(),
    }
}

/// Expressions that read back also render.
proof fn lemma_render_expr_ok(e: ExprV)
    requires
        reads_back(e),
    ensures
        render_expr_spec(e) is Ok,
    decreases e, 1int,
{
    match e {
        ExprV::Identifier(_) => {},
        ExprV::Literal(_) => {},
        ExprV::Unary(_, x) => {
            lemma_render_expr_ok(*x);
        },
        ExprV::Binary(l, _, r) => {
            lemma_render_expr_ok(*l);
            lemma_render_expr_ok(*r);
        },
        ExprV::InList(x, vs, _) => {
            lemma_render_expr_ok(*x);
            lemma_render_values_ok(vs);
        },
    }
}

proof fn lemma_render_values_ok(vs: Seq<ExprV>)
    requires
        forall|k: int| 0 <= k < vs.len() ==> reads_back(#[trigger] vs[k]),
    ensures
        render_values(vs) is Ok,
    decreases vs, 0int,
{
    if vs.len() > 0 {
        let init = vs.drop_last();
        assert forall|k: int| 0 <= k < init.len() implies reads_back(#[trigger] init[k]) by {
            assert(init[k] == vs[k]);
        }
        lemma_render_values_ok(init);
        assert(reads_back(vs[vs.len() - 1]));
        lemma_render_expr_ok(vs.last());
    }
}

/// The values' kinds, taken from the back.
proof fn lemma_values_toks_back(vs: Seq<ExprV>)
    requires
        vs.len() >= 2,
    ensures
        values_toks(vs) == values_toks(vs.drop_last()) + seq![KindV::Comma] + expr_toks(vs.last()),
    decreases vs.len(),
{
    let rest = vs.subrange(1, vs.len() as int);
    let init = vs.drop_last();
    assert(values_toks(vs) == expr_toks(vs[0]) + seq![KindV::Comma] + values_toks(rest));
    if vs.len() == 2 {
        assert(rest[0] == vs.last());
        assert(init[0] == vs[0]);
        assert(values_toks(rest) == expr_toks(rest[0]));
        assert(values_toks(init) == expr_toks(init[0]));
    } else {
        lemma_values_toks_back(rest);
        assert(rest.drop_last() =~= init.subrange(1, init.len() as int));
        assert(init[0] == vs[0]);
        assert(rest.last() == vs.last());
        assert(values_toks(init) == expr_toks(vs[0]) + seq![KindV::Comma] + values_toks(
            init.subrange(1, init.len() as int),
        ));
        assert(expr_toks(vs[0]) + seq![KindV::Comma] + (values_toks(rest.drop_last()) + seq![
            KindV::Comma,
        ] + expr_toks(rest.last())) =~= expr_toks(vs[0]) + seq![KindV::Comma] + values_toks(
            rest.drop_last(),
        ) + seq![KindV::Comma] + expr_toks(vs.last()));
    }
}

/// A rendered expression reads as its token kinds.
proof fn lemma_lex_expr(s: Seq<char>, i: int, e: ExprV)
    requires
        reads_back(e),
        occurs(s, i, text_of(render_expr_spec(e))),
        boundary(s, i + text_of(render_expr_spec(e)).len()),
    ensures
        reads(s, i, i + text_of(render_expr_spec(e)).len(), expr_toks(e)),
    decreases e, 1int,
{
    lemma_render_expr_ok(e);
    let x = text_of(render_expr_spec(e));
    match e {
        ExprV::Identifier(p) => {
            lemma_lex_path(s, i, p);
        },
        ExprV::Literal(l) => {
            match l {
                LiteralV::Integer(n) => {
                    lemma_lex_integer(s, i, n);
                },
                LiteralV::Text(v) => {
                    lemma_lex_text(s, i, v);
                },
            }
        },
        ExprV::Unary(_, y) => {
            lemma_lex_unary(s, i, e);
        },
        ExprV::Binary(_, _, _) => {
            lemma_lex_binary(s, i, e);
        },
        ExprV::InList(_, _, _) => {
            lemma_lex_inlist(s, i, e);
        },
    }
}

proof fn lemma_lex_unary(s: Seq<char>, i: int, e: ExprV)
    requires
        e is Unary,
        reads_back(e),
        occurs(s, i, text_of(render_expr_spec(e))),
        boundary(s, i + text_of(render_expr_spec(e)).len()),
    ensures
        reads(s, i, i + text_of(render_expr_spec(e)).len(), expr_toks(e)),
    decreases e, 0int,
{
    if let ExprV::Unary(_, y) = e {
        let y = *y;
        lemma_render_expr_ok(y);
        let a = text_of(render_expr_spec(y));
        let x = text_of(render_expr_spec(e));
        reveal_strlit("NOT (");
        reveal_strlit(")");
        reveal_strlit("NOT");
        lemma_keywords();
        assert(x == "NOT ("@ + a + ")"@);
        lemma_occurs_cat(s, i, "NOT ("@ + a, ")"@);
        lemma_occurs_cat(s, i, "NOT ("@, a);
        lemma_occurs_sub(s, i, "NOT ("@, 0, 3);
        assert("NOT ("@.subrange(0, 3) =~= "NOT"@);
        lemma_occurs_at(s, i, "NOT ("@, 3);
        lemma_occurs_at(s, i, "NOT ("@, 4);
        let c = i + 5 + a.len();
        lemma_occurs_at(s, c, ")"@, 0);
        lemma_lex_word(s, i, "NOT"@);
        lemma_reads_skip(s, i + 3);
        lemma_emit(s, i + 4, KindV::LParen, i + 5);
        lemma_lex_expr(s, i + 5, y);
        lemma_emit(s, c, KindV::RParen, c + 1);
        lemma_reads_trans(s, i, i + 3, i + 4, seq![KindV::Not], Seq::empty());
        lemma_reads_trans(s, i, i + 4, i + 5, seq![KindV::Not] + Seq::empty(), seq![KindV::LParen]);
        let k1 = seq![KindV::Not] + Seq::empty() + seq![KindV::LParen];
        lemma_reads_trans(s, i, i + 5, c, k1, expr_toks(y));
        lemma_reads_trans(s, i, c, c + 1, k1 + expr_toks(y), seq![KindV::RParen]);
        assert(k1 + expr_toks(y) + seq![KindV::RParen] =~= expr_toks(e));
    }
}

proof fn lemma_lex_binary(s: Seq<char>, i: int, e: ExprV)
    requires
        e is Binary,
        reads_back(e),
        occurs(s, i, text_of(render_expr_spec(e))),
        boundary(s, i + text_of(render_expr_spec(e)).len()),
    ensures
        reads(s, i, i + text_of(render_expr_spec(e)).len(), expr_toks(e)),
    decreases e, 0int,
{
    if let ExprV::Binary(l, op, r) = e {
        let l = *l;
        let r = *r;
        lemma_render_expr_ok(l);
        lemma_render_expr_ok(r);
        let a = text_of(render_expr_spec(l));
        let b = text_of(render_expr_spec(r));
        let o = operator_text(op);
        let x = text_of(render_expr_spec(e));
        reveal_strlit("(");
        reveal_strlit(")");
        reveal_strlit(" ");
        assert(x == "("@ + a + " "@ + o + " "@ + b + ")"@);
        lemma_occurs_cat(s, i, "("@ + a + " "@ + o + " "@ + b, ")"@);
        lemma_occurs_cat(s, i, "("@ + a + " "@ + o + " "@, b);
        lemma_occurs_cat(s, i, "("@ + a + " "@ + o, " "@);
        lemma_occurs_cat(s, i, "("@ + a + " "@, o);
        lemma_occurs_cat(s, i, "("@ + a, " "@);
        lemma_occurs_cat(s, i, "("@, a);
        let pa = i + 1;
        let s1 = pa + a.len();
        let po = s1 + 1;
        let s2 = po + o.len();
        let pb = s2 + 1;
        let c = pb + b.len();
        lemma_occurs_at(s, i, "("@, 0);
        lemma_occurs_at(s, s1, " "@, 0);
        lemma_occurs_at(s, s2, " "@, 0);
        lemma_occurs_at(s, c, ")"@, 0);
        lemma_emit(s, i, KindV::LParen, pa);
        lemma_lex_expr(s, pa, l);
        lemma_reads_skip(s, s1);
        lemma_lex_operator(s, po, op);
        lemma_reads_skip(s, s2);
        lemma_lex_expr(s, pb, r);
        lemma_emit(s, c, KindV::RParen, c + 1);
        let k0 = seq![KindV::LParen];
        lemma_reads_trans(s, i, pa, s1, k0, expr_toks(l));
        lemma_reads_trans(s, i, s1, po, k0 + expr_toks(l), Seq::empty());
        let k1 = k0 + expr_toks(l) + Seq::empty();
        lemma_reads_trans(s, i, po, s2, k1, seq![op_kind(op)]);
        lemma_reads_trans(s, i, s2, pb, k1 + seq![op_kind(op)], Seq::empty());
        let k2 = k1 + seq![op_kind(op)] + Seq::empty();
        lemma_reads_trans(s, i, pb, c, k2, expr_toks(r));
        lemma_reads_trans(s, i, c, c + 1, k2 + expr_toks(r), seq![KindV::RParen]);
        assert(k2 + expr_toks(r) + seq![KindV::RParen] =~= expr_toks(e));
    }
}

/// The keywords between the subject and the values of an `IN` test read as
/// `[NOT] IN (`.
proof fn lemma_lex_in_keyword(s: Seq<char>, i: int, negated: bool)
    requires
        occurs(
            s,
            i,
            (if negated {
                " NOT"@
            } else {
                Seq::<char>::empty()
            }) + " IN ("@,
        ),
    ensures
        reads(
            s,
            i,
            i + (if negated {
                4int
            } else {
                0int
            }) + 5,
            (if negated {
                seq![KindV::Not]
            } else {
                Seq::<KindV>::empty()
            }) + seq![KindV::In, KindV::LParen],
        ),
{
    let n = if negated {
        " NOT"@
    } else {
        Seq::<char>::empty()
    };
    let kn = if negated {
        seq![KindV::Not]
    } else {
        Seq::<KindV>::empty()
    };
    reveal_strlit(" NOT");
    reveal_strlit(" IN (");
    reveal_strlit("NOT");
    reveal_strlit("IN");
    lemma_keywords();
    lemma_occurs_cat(s, i, n, " IN ("@);
    let pi = i + n.len();
    lemma_occurs_at(s, pi, " IN ("@, 0);
    lemma_occurs_at(s, pi, " IN ("@, 3);
    lemma_occurs_at(s, pi, " IN ("@, 4);
    lemma_occurs_sub(s, pi, " IN ("@, 1, 3);
    assert(" IN ("@.subrange(1, 3) =~= "IN"@);
    if negated {
        lemma_occurs_at(s, i, " NOT"@, 0);
        lemma_occurs_sub(s, i, " NOT"@, 1, 4);
        assert(" NOT"@.subrange(1, 4) =~= "NOT"@);
        lemma_reads_skip(s, i);
        lemma_lex_word(s, i + 1, "NOT"@);
        lemma_reads_trans(s, i, i + 1, pi, Seq::empty(), seq![KindV::Not]);
        assert(Seq::<KindV>::empty() + seq![KindV::Not] =~= kn);
    } else {
        assert(reads(s, i, pi, kn)) by {
            if let Some(k) = kinds_from(s, i) {
                assert(Seq::<KindV>::empty() + k =~= k);
            }
        }
    }
    lemma_reads_skip(s, pi);
    lemma_lex_word(s, pi + 1, "IN"@);
    lemma_reads_skip(s, pi + 3);
    lemma_emit(s, pi + 4, KindV::LParen, pi + 5);
    lemma_reads_trans(s, pi, pi + 1, pi + 3, Seq::empty(), seq![KindV::In]);
    lemma_reads_trans(s, pi, pi + 3, pi + 4, Seq::empty() + seq![KindV::In], Seq::empty());
    let ki = Seq::empty() + seq![KindV::In] + Seq::empty();
    lemma_reads_trans(s, pi, pi + 4, pi + 5, ki, seq![KindV::LParen]);
    lemma_reads_trans(s, i, pi, pi + 5, kn, ki + seq![KindV::LParen]);
    assert(kn + (ki + seq![KindV::LParen]) =~= kn + seq![KindV::In, KindV::LParen]);
}

proof fn lemma_lex_inlist(s: Seq<char>, i: int, e: ExprV)
    requires
        e is InList,
        reads_back(e),
        occurs(s, i, text_of(render_expr_spec(e))),
        boundary(s, i + text_of(render_expr_spec(e)).len()),
    ensures
        reads(s, i, i + text_of(render_expr_spec(e)).len(), expr_toks(e)),
    decreases e, 0int,
{
    if let ExprV::InList(y, vs, negated) = e {
        let y = *y;
        lemma_render_expr_ok(y);
        lemma_render_values_ok(vs);
        let a = text_of(render_expr_spec(y));
        let v = text_of(render_values(vs));
        let n = if negated {
            " NOT"@
        } else {
            Seq::<char>::empty()
        };
        let kn = if negated {
            seq![KindV::Not]
        } else {
            Seq::<KindV>::empty()
        };
        let m = n + " IN ("@;
        let x = text_of(render_expr_spec(e));
        reveal_strlit("(");
        reveal_strlit(" NOT");
        reveal_strlit(" IN (");
        reveal_strlit("))");
        assert(x == "("@ + a + n + " IN ("@ + v + "))"@);
        assert(x =~= "("@ + a + m + v + "))"@);
        lemma_occurs_cat(s, i, "("@ + a + m + v, "))"@);
        lemma_occurs_cat(s, i, "("@ + a + m, v);
        lemma_occurs_cat(s, i, "("@ + a, m);
        lemma_occurs_cat(s, i, "("@, a);
        let pa = i + 1;
        let pm = pa + a.len();
        let pv = pm + m.len();
        let c = pv + v.len();
        lemma_occurs_at(s, i, "("@, 0);
        lemma_occurs_at(s, pm, m, 0);
        lemma_occurs_at(s, c, "))"@, 0);
        lemma_occurs_at(s, c, "))"@, 1);
        lemma_emit(s, i, KindV::LParen, pa);
        lemma_lex_expr(s, pa, y);
        lemma_lex_in_keyword(s, pm, negated);
        lemma_lex_values(s, pv, vs);
        lemma_emit(s, c, KindV::RParen, c + 1);
        lemma_emit(s, c + 1, KindV::RParen, c + 2);
        let km = kn + seq![KindV::In, KindV::LParen];
        lemma_reads_trans(s, i, pa, pm, seq![KindV::LParen], expr_toks(y));
        let k0 = seq![KindV::LParen] + expr_toks(y);
        lemma_reads_trans(s, i, pm, pv, k0, km);
        lemma_reads_trans(s, i, pv, c, k0 + km, values_toks(vs));
        lemma_reads_trans(s, c, c + 1, c + 2, seq![KindV::RParen], seq![KindV::RParen]);
        lemma_reads_trans(
            s,
            i,
            c,
            c + 2,
            k0 + km + values_toks(vs),
            seq![KindV::RParen] + seq![KindV::RParen],
        );
        assert(k0 + km + values_toks(vs) + (seq![KindV::RParen] + seq![KindV::RParen])
            =~= expr_toks(e));
    }
}

/// Rendered values, joined by commas, read as their kinds.
proof fn lemma_lex_values(s: Seq<char>, i: int, vs: Seq<ExprV>)
    requires
        vs.len() > 0,
        forall|k: int| 0 <= k < vs.len() ==> reads_back(#[trigger] vs[k]),
        occurs(s, i, text_of(render_values(vs))),
        boundary(s, i + text_of(render_values(vs)).len()),
    ensures
        reads(s, i, i + text_of(render_values(vs)).len(), values_toks(vs)),
    decreases vs, 0int,
{
    lemma_render_values_ok(vs);
    let last = vs.last();
    assert(reads_back(vs[vs.len() - 1]));
    lemma_render_expr_ok(last);
    let b = text_of(render_expr_spec(last));
    if vs.len() == 1 {
        assert(text_of(render_values(vs)) == b);
        lemma_lex_expr(s, i, last);
    } else {
        let init = vs.drop_last();
        assert forall|k: int| 0 <= k < init.len() implies reads_back(#[trigger] init[k]) by {
            assert(init[k] == vs[k]);
        }
        lemma_render_values_ok(init);
        let a = text_of(render_values(init));
        reveal_strlit(", ");
        assert(text_of(render_values(vs)) == a + ", "@ + b);
        lemma_occurs_cat(s, i, a + ", "@, b);
        lemma_occurs_cat(s, i, a, ", "@);
        let c = i + a.len();
        lemma_occurs_at(s, c, ", "@, 0);
        lemma_occurs_at(s, c, ", "@, 1);
        lemma_lex_values(s, i, init);
        lemma_emit(s, c, KindV::Comma, c + 1);
        lemma_reads_skip(s, c + 1);
        lemma_lex_expr(s, c + 2, last);
        lemma_reads_trans(s, i, c, c + 1, values_toks(init), seq![KindV::Comma]);
        lemma_reads_trans(s, i, c + 1, c + 2, values_toks(init) + seq![KindV::Comma], Seq::empty());
        lemma_reads_trans(
            s,
            i,
            c + 2,
            c + 2 + b.len(),
            values_toks(init) + seq![KindV::Comma] + Seq::empty(),
            expr_toks(last),
        );
        lemma_values_toks_back(vs);
        assert(values_toks(init) + seq![KindV::Comma] + Seq::empty() + expr_toks(last)
            =~= values_toks(vs));
    }
}

// ---------------------------------------------------------------------------
// The lexer half for statements.
// ---------------------------------------------------------------------------

/// A word that rendered text spells reads as its token kind.
proof fn lemma_lex_keyword(s: Seq<char>, i: int, w: Seq<char>, k: KindV)
    requires
        occurs(s, i, w),
        boundary(s, i + w.len()),
        w.len() > 0,
        forall|m: int| 0 <= m < w.len() ==> 'A' <= #[trigger] w[m] <= 'Z',
        word_kind(w) == k,
    ensures
        reads(s, i, i + w.len(), seq![k]),
{
    lemma_lex_word(s, i, w);
}

proof fn lemma_comma_joined_back(parts: Seq<Seq<KindV>>)
    requires
        parts.len() >= 2,
    ensures
        comma_joined(parts) == comma_joined(parts.drop_last()) + seq![KindV::Comma] + parts.last(),
    decreases parts.len(),
{
    let rest = parts.subrange(1, parts.len() as int);
    let init = parts.drop_last();
    assert(comma_joined(parts) == parts[0] + seq![KindV::Comma] + comma_joined(rest));
    if parts.len() == 2 {
        assert(comma_joined(rest) == rest[0]);
        assert(comma_joined(init) == init[0]);
    } else {
        lemma_comma_joined_back(rest);
        assert(rest.drop_last() =~= init.subrange(1, init.len() as int));
        assert(comma_joined(init) == init[0] + seq![KindV::Comma] + comma_joined(
            init.subrange(1, init.len() as int),
        ));
        assert(parts[0] + seq![KindV::Comma] + (comma_joined(rest.drop_last()) + seq![
            KindV::Comma,
        ] + rest.last()) =~= parts[0] + seq![KindV::Comma] + comma_joined(rest.drop_last())
            + seq![KindV::Comma] + parts.last());
    }
}

proof fn lemma_joins_toks_back(js: Seq<JoinV>)
    requires
        js.len() >= 1,
    ensures
        joins_toks(js) == joins_toks(js.drop_last()) + join_toks(js.last()),
    decreases js.len(),
{
    let rest = js.subrange(1, js.len() as int);
    let init = js.drop_last();
    if js.len() == 1 {
        assert(joins_toks(rest) == Seq::<KindV>::empty());
        assert(joins_toks(init) == Seq::<KindV>::empty());
        assert(join_toks(js[0]) + Seq::<KindV>::empty() =~= Seq::<KindV>::empty() + join_toks(
            js[0],
        ));
    } else {
        lemma_joins_toks_back(rest);
        assert(rest.drop_last() =~= init.subrange(1, init.len() as int));
        assert(joins_toks(init) == join_toks(init[0]) + joins_toks(
            init.subrange(1, init.len() as int),
        ));
        assert(join_toks(js[0]) + (joins_toks(rest.drop_last()) + join_toks(rest.last()))
            =~= join_toks(js[0]) + joins_toks(rest.drop_last()) + join_toks(js.last()));
    }
}

/// Nothing reads as nothing.
proof fn lemma_reads_empty(s: Seq<char>, i: int)
    ensures
        reads(s, i, i, Seq::empty()),
{
    if let Some(k) = kinds_from(s, i) {
        assert(Seq::<KindV>::empty() + k =~= k);
    }
}

/// The render of a select item, which must succeed.
spec fn item_text(i: SelectItemV) -> Seq<char> {
    text_of(render_item(i))
}

spec fn item_ok(i: SelectItemV) -> bool {
    i matches SelectItemV::Column(c) ==> plain_path(c)
}

proof fn lemma_lex_item(s: Seq<char>, i: int, item: SelectItemV)
    requires
        item_ok(item),
        occurs(s, i, item_text(item)),
        boundary(s, i + item_text(item).len()),
    ensures
        render_item(item) is Ok,
        reads(s, i, i + item_text(item).len(), item_toks(item)),
{
    match item {
        SelectItemV::Wildcard => {
            reveal_strlit("*");
            lemma_occurs_at(s, i, "*"@, 0);
            lemma_emit(s, i, KindV::Star, i + 1);
        },
        SelectItemV::Column(c) => {
            lemma_lex_path(s, i, c);
        },
    }
}

proof fn lemma_lex_items(s: Seq<char>, i: int, items: Seq<SelectItemV>)
    requires
        items.len() > 0,
        forall|k: int| 0 <= k < items.len() ==> item_ok(#[trigger] items[k]),
        occurs(s, i, text_of(render_items(items))),
        boundary(s, i + text_of(render_items(items)).len()),
    ensures
        render_items(items) is Ok,
        reads(
            s,
            i,
            i + text_of(render_items(items)).len(),
            comma_joined(items.map_values(|x: SelectItemV| item_toks(x))),
        ),
    decreases items.len(),
{
    let last = items.last();
    assert(item_ok(items[items.len() - 1]));
    let b = item_text(last);
    let parts = items.map_values(|x: SelectItemV| item_toks(x));
    if items.len() == 1 {
        assert(render_items(items.drop_last()) == Ok::<Seq<char>, Seq<char>>(Seq::empty()));
        match last {
            SelectItemV::Column(c) => {},
            SelectItemV::Wildcard => {},
        }
        lemma_lex_item(s, i, last);
        assert(text_of(render_items(items)) == b);
        assert(comma_joined(parts) == parts[0]);
    } else {
        let init = items.drop_last();
        assert forall|k: int| 0 <= k < init.len() implies item_ok(#[trigger] init[k]) by {
            assert(init[k] == items[k]);
        }
        // The rendering of the whole list, from those of its parts.
        let ra = render_items(init);
        assert(ra is Ok) by {
            lemma_items_ok(init);
        }
        lemma_item_ok(last);
        let a = text_of(ra);
        reveal_strlit(", ");
        assert(text_of(render_items(items)) == a + ", "@ + b);
        lemma_occurs_cat(s, i, a + ", "@, b);
        lemma_occurs_cat(s, i, a, ", "@);
        let c = i + a.len();
        lemma_occurs_at(s, c, ", "@, 0);
        lemma_occurs_at(s, c, ", "@, 1);
        lemma_lex_items(s, i, init);
        lemma_emit(s, c, KindV::Comma, c + 1);
        lemma_reads_skip(s, c + 1);
        lemma_lex_item(s, c + 2, last);
        let ka = comma_joined(init.map_values(|x: SelectItemV| item_toks(x)));
        lemma_reads_trans(s, i, c, c + 1, ka, seq![KindV::Comma]);
        lemma_reads_trans(s, i, c + 1, c + 2, ka + seq![KindV::Comma], Seq::empty());
        lemma_reads_trans(
            s,
            i,
            c + 2,
            c + 2 + b.len(),
            ka + seq![KindV::Comma] + Seq::empty(),
            item_toks(last),
        );
        lemma_comma_joined_back(parts);
        assert(parts.drop_last() =~= init.map_values(|x: SelectItemV| item_toks(x)));
        assert(parts.last() == item_toks(last));
        assert(ka + seq![KindV::Comma] + Seq::empty() + item_toks(last) =~= comma_joined(parts));
    }
}

proof fn lemma_item_ok(item: SelectItemV)
    requires
        item_ok(item),
    ensures
        render_item(item) is Ok,
{
}

proof fn lemma_items_ok(items: Seq<SelectItemV>)
    requires
        forall|k: int| 0 <= k < items.len() ==> item_ok(#[trigger] items[k]),
    ensures
        render_items(items) is Ok,
    decreases items.len(),
{
    if items.len() > 0 {
        let init = items.drop_last();
        assert forall|k: int| 0 <= k < init.len() implies item_ok(#[trigger] init[k]) by {
            assert(init[k] == items[k]);
        }
        lemma_items_ok(init);
        assert(item_ok(items[items.len() - 1]));
        lemma_item_ok(items.last());
    }
}

spec fn join_ok(j: JoinV) -> bool {
    plain_path(j.table) && reads_back(j.on)
}

proof fn lemma_lex_join(s: Seq<char>, i: int, j: JoinV)
    requires
        join_ok(j),
        occurs(s, i, text_of(render_join_spec(j))),
        boundary(s, i + text_of(render_join_spec(j)).len()),
    ensures
        render_join_spec(j) is Ok,
        reads(s, i, i + text_of(render_join_spec(j)).len(), join_toks(j)),
{
    lemma_render_expr_ok(j.on);
    let t = j.table;
    let on = text_of(render_expr_spec(j.on));
    reveal_strlit("JOIN ");
    reveal_strlit(" ON ");
    reveal_strlit("JOIN");
    reveal_strlit("ON");
    lemma_keywords();
    let x = text_of(render_join_spec(j));
    assert(x == "JOIN "@ + t + " ON "@ + on);
    lemma_occurs_cat(s, i, "JOIN "@ + t + " ON "@, on);
    lemma_occurs_cat(s, i, "JOIN "@ + t, " ON "@);
    lemma_occurs_cat(s, i, "JOIN "@, t);
    lemma_occurs_sub(s, i, "JOIN "@, 0, 4);
    assert("JOIN "@.subrange(0, 4) =~= "JOIN"@);
    lemma_occurs_at(s, i, "JOIN "@, 4);
    let pt = i + 5;
    let po = pt + t.len();
    lemma_occurs_at(s, po, " ON "@, 0);
    lemma_occurs_at(s, po, " ON "@, 3);
    lemma_occurs_sub(s, po, " ON "@, 1, 3);
    assert(" ON "@.subrange(1, 3) =~= "ON"@);
    let pe = po + 4;
    lemma_lex_keyword(s, i, "JOIN"@, KindV::Join);
    lemma_reads_skip(s, i + 4);
    lemma_lex_path(s, pt, t);
    lemma_reads_skip(s, po);
    lemma_lex_keyword(s, po + 1, "ON"@, KindV::On);
    lemma_reads_skip(s, po + 3);
    lemma_lex_expr(s, pe, j.on);
    lemma_reads_trans(s, i, i + 4, pt, seq![KindV::Join], Seq::empty());
    let k0 = seq![KindV::Join] + Seq::empty();
    lemma_reads_trans(s, i, pt, po, k0, path_toks(t, 0));
    lemma_reads_trans(s, po, po + 1, po + 3, Seq::empty(), seq![KindV::On]);
    lemma_reads_trans(s, po, po + 3, pe, Seq::empty() + seq![KindV::On], Seq::empty());
    let k1 = Seq::empty() + seq![KindV::On] + Seq::empty();
    lemma_reads_trans(s, i, po, pe, k0 + path_toks(t, 0), k1);
    lemma_reads_trans(s, i, pe, pe + on.len(), k0 + path_toks(t, 0) + k1, expr_toks(j.on));
    assert(k0 + path_toks(t, 0) + k1 + expr_toks(j.on) =~= join_toks(j));
}

/// Whether a text is empty or starts with a space.
spec fn starts_sp(y: Seq<char>) -> bool {
    y.len() == 0 || y[0] == ' '
}

proof fn lemma_starts_sp_cat(a: Seq<char>, b: Seq<char>)
    requires
        starts_sp(a),
        starts_sp(b),
    ensures
        starts_sp(a + b),
{
    if a.len() == 0 {
        assert(a + b =~= b);
    } else {
        assert((a + b)[0] == a[0]);
    }
}

proof fn lemma_lex_joins(s: Seq<char>, i: int, js: Seq<JoinV>)
    requires
        forall|k: int| 0 <= k < js.len() ==> join_ok(#[trigger] js[k]),
        occurs(s, i, text_of(render_joins(js))),
        boundary(s, i + text_of(render_joins(js)).len()),
    ensures
        render_joins(js) is Ok,
        starts_sp(text_of(render_joins(js))),
        reads(s, i, i + text_of(render_joins(js)).len(), joins_toks(js)),
    decreases js.len(),
{
    if js.len() == 0 {
        lemma_reads_empty(s, i);
    } else {
        let init = js.drop_last();
        let last = js.last();
        assert(join_ok(js[js.len() - 1]));
        assert forall|k: int| 0 <= k < init.len() implies join_ok(#[trigger] init[k]) by {
            assert(init[k] == js[k]);
        }
        lemma_joins_ok(init);
        lemma_join_ok(last);
        let a = text_of(render_joins(init));
        let b = text_of(render_join_spec(last));
        reveal_strlit(" ");
        assert(text_of(render_joins(js)) == a + " "@ + b);
        lemma_occurs_cat(s, i, a + " "@, b);
        lemma_occurs_cat(s, i, a, " "@);
        let c = i + a.len();
        lemma_occurs_at(s, c, " "@, 0);
        lemma_lex_joins(s, i, init);
        lemma_reads_skip(s, c);
        lemma_lex_join(s, c + 1, last);
        lemma_reads_trans(s, i, c, c + 1, joins_toks(init), Seq::empty());
        lemma_reads_trans(
            s,
            i,
            c + 1,
            c + 1 + b.len(),
            joins_toks(init) + Seq::empty(),
            join_toks(last),
        );
        lemma_joins_toks_back(js);
        assert(joins_toks(init) + Seq::empty() + join_toks(last) =~= joins_toks(js));
        lemma_starts_sp_cat(a, " "@ + b);
        assert(a + " "@ + b =~= a + (" "@ + b));
    }
}

proof fn lemma_join_ok(j: JoinV)
    requires
        join_ok(j),
    ensures
        render_join_spec(j) is Ok,
{
    lemma_render_expr_ok(j.on);
}

proof fn lemma_joins_ok(js: Seq<JoinV>)
    requires
        forall|k: int| 0 <= k < js.len() ==> join_ok(#[trigger] js[k]),
    ensures
        render_joins(js) is Ok,
    decreases js.len(),
{
    if js.len() > 0 {
        let init = js.drop_last();
        assert forall|k: int| 0 <= k < init.len() implies join_ok(#[trigger] init[k]) by {
            assert(init[k] == js[k]);
        }
        lemma_joins_ok(init);
        assert(join_ok(js[js.len() - 1]));
        lemma_join_ok(js.last());
    }
}

proof fn lemma_lex_order(s: Seq<char>, i: int, o: OrderByV)
    requires
        plain_path(o.column),
        occurs(s, i, text_of(render_order_item(o))),
        boundary(s, i + text_of(render_order_item(o)).len()),
    ensures
        render_order_item(o) is Ok,
        reads(s, i, i + text_of(render_order_item(o)).len(), order_toks(o)),
{
    let c = o.column;
    let d = direction_text(o.direction);
    reveal_strlit(" ");
    reveal_strlit("ASC");
    reveal_strlit("DESC");
    lemma_keywords();
    assert(text_of(render_order_item(o)) == c + " "@ + d);
    lemma_occurs_cat(s, i, c + " "@, d);
    lemma_occurs_cat(s, i, c, " "@);
    let p = i + c.len();
    lemma_occurs_at(s, p, " "@, 0);
    lemma_lex_path(s, i, c);
    lemma_reads_skip(s, p);
    lemma_lex_keyword(s, p + 1, d, direction_kind(o.direction));
    lemma_reads_trans(s, i, p, p + 1, path_toks(c, 0), Seq::empty());
    lemma_reads_trans(
        s,
        i,
        p + 1,
        p + 1 + d.len(),
        path_toks(c, 0) + Seq::empty(),
        seq![direction_kind(o.direction)],
    );
    assert(path_toks(c, 0) + Seq::empty() + seq![direction_kind(o.direction)] =~= order_toks(o));
}

proof fn lemma_orders_ok(os: Seq<OrderByV>)
    requires
        forall|k: int| 0 <= k < os.len() ==> plain_path(#[trigger] os[k].column),
    ensures
        render_orders(os) is Ok,
    decreases os.len(),
{
    if os.len() > 0 {
        let init = os.drop_last();
        assert forall|k: int| 0 <= k < init.len() implies plain_path(#[trigger] init[k].column) by {
            assert(init[k] == os[k]);
        }
        lemma_orders_ok(init);
        assert(plain_path(os[os.len() - 1].column));
    }
}

proof fn lemma_lex_orders(s: Seq<char>, i: int, os: Seq<OrderByV>)
    requires
        os.len() > 0,
        forall|k: int| 0 <= k < os.len() ==> plain_path(#[trigger] os[k].column),
        occurs(s, i, text_of(render_orders(os))),
        boundary(s, i + text_of(render_orders(os)).len()),
    ensures
        render_orders(os) is Ok,
        reads(
            s,
            i,
            i + text_of(render_orders(os)).len(),
            comma_joined(os.map_values(|o: OrderByV| order_toks(o))),
        ),
    decreases os.len(),
{
    lemma_orders_ok(os);
    let last = os.last();
    assert(plain_path(os[os.len() - 1].column));
    let b = text_of(render_order_item(last));
    let parts = os.map_values(|o: OrderByV| order_toks(o));
    if os.len() == 1 {
        lemma_lex_order(s, i, last);
        assert(text_of(render_orders(os)) == b);
        assert(comma_joined(parts) == parts[0]);
    } else {
        let init = os.drop_last();
        assert forall|k: int| 0 <= k < init.len() implies plain_path(#[trigger] init[k].column) by {
            assert(init[k] == os[k]);
        }
        lemma_orders_ok(init);
        let a = text_of(render_orders(init));
        reveal_strlit(", ");
        assert(text_of(render_orders(os)) == a + ", "@ + b);
        lemma_occurs_cat(s, i, a + ", "@, b);
        lemma_occurs_cat(s, i, a, ", "@);
        let c = i + a.len();
        lemma_occurs_at(s, c, ", "@, 0);
        lemma_occurs_at(s, c, ", "@, 1);
        lemma_lex_orders(s, i, init);
        lemma_emit(s, c, KindV::Comma, c + 1);
        lemma_reads_skip(s, c + 1);
        lemma_lex_order(s, c + 2, last);
        let ka = comma_joined(init.map_values(|o: OrderByV| order_toks(o)));
        lemma_reads_trans(s, i, c, c + 1, ka, seq![KindV::Comma]);
        lemma_reads_trans(s, i, c + 1, c + 2, ka + seq![KindV::Comma], Seq::empty());
        lemma_reads_trans(
            s,
            i,
            c + 2,
            c + 2 + b.len(),
            ka + seq![KindV::Comma] + Seq::empty(),
            order_toks(last),
        );
        lemma_comma_joined_back(parts);
        assert(parts.drop_last() =~= init.map_values(|o: OrderByV| order_toks(o)));
        assert(parts.last() == order_toks(last));
        assert(ka + seq![KindV::Comma] + Seq::empty() + order_toks(last) =~= comma_joined(parts));
    }
}

spec fn filter_text(w: Option<ExprV>) -> Seq<char> {
    match w {
        Some(e) => " WHERE "@ + text_of(render_expr_spec(e)),
        None => Seq::empty(),
    }
}

spec fn order_text(os: Seq<OrderByV>) -> Seq<char> {
    if os.len() == 0 {
        Seq::empty()
    } else {
        " ORDER BY "@ + text_of(render_orders(os))
    }
}

spec fn limit_text(l: Option<u64>) -> Seq<char> {
    match l {
        Some(n) => " LIMIT "@ + decimal(n as nat),
        None => Seq::empty(),
    }
}

/// The clauses after the table of a rendered statement.
spec fn tail_text(st: SelectStatementV) -> Seq<char> {
    text_of(render_joins(st.joins)) + filter_text(st.where_clause) + order_text(st.order_by)
        + limit_text(st.limit)
}

/// The whole text of a rendered statement.
spec fn stmt_text(st: SelectStatementV) -> Seq<char> {
    "SELECT "@ + text_of(render_items(st.select)) + " FROM "@ + st.from + tail_text(st)
}

proof fn lemma_render_stmt(st: SelectStatementV)
    requires
        stmt_reads_back(st),
    ensures
        render_select_spec(st) == Ok::<Seq<char>, Seq<char>>(stmt_text(st)),
{
    assert forall|k: int| 0 <= k < st.select.len() implies item_ok(#[trigger] st.select[k]) by {}
    lemma_items_ok(st.select);
    assert forall|k: int| 0 <= k < st.joins.len() implies join_ok(#[trigger] st.joins[k]) by {}
    lemma_joins_ok(st.joins);
    if let Some(e) = st.where_clause {
        lemma_render_expr_ok(e);
    }
    lemma_orders_ok(st.order_by);
    let items = text_of(render_items(st.select));
    let head = "SELECT "@ + items + " FROM "@ + st.from + text_of(render_joins(st.joins));
    assert(head + filter_text(st.where_clause) + order_text(st.order_by) + limit_text(st.limit)
        =~= stmt_text(st));
}

proof fn lemma_lex_filter(s: Seq<char>, i: int, w: Option<ExprV>)
    requires
        w matches Some(e) ==> reads_back(e),
        occurs(s, i, filter_text(w)),
        boundary(s, i + filter_text(w).len()),
    ensures
        starts_sp(filter_text(w)),
        reads(s, i, i + filter_text(w).len(), where_toks(w)),
{
    match w {
        Some(e) => {
            lemma_render_expr_ok(e);
            let x = text_of(render_expr_spec(e));
            reveal_strlit(" WHERE ");
            reveal_strlit("WHERE");
            lemma_keywords();
            lemma_occurs_cat(s, i, " WHERE "@, x);
            lemma_occurs_at(s, i, " WHERE "@, 0);
            lemma_occurs_at(s, i, " WHERE "@, 6);
            lemma_occurs_sub(s, i, " WHERE "@, 1, 6);
            assert(" WHERE "@.subrange(1, 6) =~= "WHERE"@);
            lemma_reads_skip(s, i);
            lemma_lex_keyword(s, i + 1, "WHERE"@, KindV::Where);
            lemma_reads_skip(s, i + 6);
            lemma_lex_expr(s, i + 7, e);
            lemma_reads_trans(s, i, i + 1, i + 6, Seq::empty(), seq![KindV::Where]);
            lemma_reads_trans(s, i, i + 6, i + 7, Seq::empty() + seq![KindV::Where], Seq::empty());
            let k = Seq::empty() + seq![KindV::Where] + Seq::empty();
            lemma_reads_trans(s, i, i + 7, i + 7 + x.len(), k, expr_toks(e));
            assert(k + expr_toks(e) =~= where_toks(w));
        },
        None => {
            lemma_reads_empty(s, i);
        },
    }
}

proof fn lemma_lex_order_clause(s: Seq<char>, i: int, os: Seq<OrderByV>)
    requires
        forall|k: int| 0 <= k < os.len() ==> plain_path(#[trigger] os[k].column),
        occurs(s, i, order_text(os)),
        boundary(s, i + order_text(os).len()),
    ensures
        starts_sp(order_text(os)),
        reads(s, i, i + order_text(os).len(), orders_toks(os)),
{
    if os.len() > 0 {
        lemma_orders_ok(os);
        let x = text_of(render_orders(os));
        reveal_strlit(" ORDER BY ");
        reveal_strlit("ORDER");
        reveal_strlit("BY");
        lemma_keywords();
        let kw = " ORDER BY "@;
        lemma_occurs_cat(s, i, kw, x);
        lemma_occurs_at(s, i, kw, 0);
        lemma_occurs_at(s, i, kw, 6);
        lemma_occurs_at(s, i, kw, 9);
        lemma_occurs_sub(s, i, kw, 1, 6);
        assert(kw.subrange(1, 6) =~= "ORDER"@);
        lemma_occurs_sub(s, i, kw, 7, 9);
        assert(kw.subrange(7, 9) =~= "BY"@);
        lemma_reads_skip(s, i);
        lemma_lex_keyword(s, i + 1, "ORDER"@, KindV::Order);
        lemma_reads_skip(s, i + 6);
        lemma_lex_keyword(s, i + 7, "BY"@, KindV::By);
        lemma_reads_skip(s, i + 9);
        lemma_lex_orders(s, i + 10, os);
        lemma_reads_trans(s, i, i + 1, i + 6, Seq::empty(), seq![KindV::Order]);
        lemma_reads_trans(s, i, i + 6, i + 7, Seq::empty() + seq![KindV::Order], Seq::empty());
        let k0 = Seq::empty() + seq![KindV::Order] + Seq::empty();
        lemma_reads_trans(s, i, i + 7, i + 9, k0, seq![KindV::By]);
        lemma_reads_trans(s, i, i + 9, i + 10, k0 + seq![KindV::By], Seq::empty());
        let k1 = k0 + seq![KindV::By] + Seq::empty();
        let kc = comma_joined(os.map_values(|o: OrderByV| order_toks(o)));
        lemma_reads_trans(s, i, i + 10, i + 10 + x.len(), k1, kc);
        assert(k1 + kc =~= orders_toks(os));
    } else {
        lemma_reads_empty(s, i);
    }
}

proof fn lemma_lex_limit(s: Seq<char>, i: int, l: Option<u64>)
    requires
        occurs(s, i, limit_text(l)),
        boundary(s, i + limit_text(l).len()),
    ensures
        starts_sp(limit_text(l)),
        reads(s, i, i + limit_text(l).len(), limit_toks(l)),
{
    match l {
        Some(n) => {
            let d = decimal(n as nat);
            reveal_strlit(" LIMIT ");
            reveal_strlit("LIMIT");
            lemma_keywords();
            let kw = " LIMIT "@;
            lemma_occurs_cat(s, i, kw, d);
            lemma_occurs_at(s, i, kw, 0);
            lemma_occurs_at(s, i, kw, 6);
            lemma_occurs_sub(s, i, kw, 1, 6);
            assert(kw.subrange(1, 6) =~= "LIMIT"@);
            lemma_reads_skip(s, i);
            lemma_lex_keyword(s, i + 1, "LIMIT"@, KindV::Limit);
            lemma_reads_skip(s, i + 6);
            lemma_lex_integer(s, i + 7, n);
            lemma_reads_trans(s, i, i + 1, i + 6, Seq::empty(), seq![KindV::Limit]);
            lemma_reads_trans(s, i, i + 6, i + 7, Seq::empty() + seq![KindV::Limit], Seq::empty());
            let k = Seq::empty() + seq![KindV::Limit] + Seq::empty();
            lemma_reads_trans(s, i, i + 7, i + 7 + d.len(), k, seq![KindV::Integer(n)]);
            assert(k + seq![KindV::Integer(n)] =~= limit_toks(l));
        },
        None => {
            lemma_reads_empty(s, i);
        },
    }
}

/// A text that is empty or starts with a space, standing at the end of `s`,
/// leaves a boundary where it starts.
proof fn lemma_boundary_before(s: Seq<char>, i: int, y: Seq<char>)
    requires
        occurs(s, i, y),
        i + y.len() == s.len(),
        starts_sp(y),
    ensures
        boundary(s, i),
{
    if y.len() > 0 {
        lemma_occurs_at(s, i, y, 0);
    }
}

/// The parts of a statement that reads back, one by one.
proof fn lemma_stmt_parts_ok(st: SelectStatementV)
    requires
        stmt_reads_back(st),
    ensures
        forall|k: int| 0 <= k < st.select.len() ==> item_ok(#[trigger] st.select[k]),
        forall|k: int| 0 <= k < st.joins.len() ==> join_ok(#[trigger] st.joins[k]),
        forall|k: int| 0 <= k < st.order_by.len() ==> plain_path(#[trigger] st.order_by[k].column),
{
}

/// The clauses after the table read as their kinds.
proof fn lemma_lex_tail(s: Seq<char>, i: int, st: SelectStatementV)
    requires
        stmt_reads_back(st),
        occurs(s, i, tail_text(st)),
        i + tail_text(st).len() == s.len(),
    ensures
        starts_sp(tail_text(st)),
        reads(
            s,
            i,
            s.len() as int,
            joins_toks(st.joins) + where_toks(st.where_clause) + orders_toks(st.order_by)
                + limit_toks(st.limit),
        ),
{
    lemma_render_stmt(st);
    let j = text_of(render_joins(st.joins));
    let w = filter_text(st.where_clause);
    let o = order_text(st.order_by);
    let l = limit_text(st.limit);
    lemma_occurs_cat(s, i, j + w + o, l);
    lemma_occurs_cat(s, i, j + w, o);
    lemma_occurs_cat(s, i, j, w);
    let pw = i + j.len();
    let po = pw + w.len();
    let pl = po + o.len();
    assert(boundary(s, s.len() as int));
    lemma_lex_limit(s, pl, st.limit);
    lemma_boundary_before(s, pl, l);
    lemma_stmt_parts_ok(st);
    lemma_lex_order_clause(s, po, st.order_by);
    lemma_starts_sp_cat(o, l);
    assert(occurs(s, po, o + l)) by {
        assert(s.subrange(po, po + (o + l).len()) =~= o + l) by {
            assert forall|k: int| 0 <= k < (o + l).len() implies #[trigger] s.subrange(
                po,
                po + (o + l).len(),
            )[k] == (o + l)[k] by {
                if k < o.len() {
                    lemma_occurs_at(s, po, o, k);
                } else {
                    lemma_occurs_at(s, pl, l, k - o.len());
                }
            }
        }
    }
    lemma_boundary_before(s, po, o + l);
    lemma_lex_filter(s, pw, st.where_clause);
    lemma_starts_sp_cat(w, o + l);
    assert(occurs(s, pw, w + (o + l))) by {
        assert(s.subrange(pw, pw + (w + (o + l)).len()) =~= w + (o + l)) by {
            assert forall|k: int| 0 <= k < (w + (o + l)).len() implies #[trigger] s.subrange(
                pw,
                pw + (w + (o + l)).len(),
            )[k] == (w + (o + l))[k] by {
                if k < w.len() {
                    lemma_occurs_at(s, pw, w, k);
                } else {
                    lemma_occurs_at(s, po, o + l, k - w.len());
                }
            }
        }
    }
    lemma_boundary_before(s, pw, w + (o + l));
    lemma_stmt_parts_ok(st);
    lemma_lex_joins(s, i, st.joins);
    lemma_starts_sp_cat(j, w + (o + l));
    assert(j + w + o + l =~= j + (w + (o + l)));
    lemma_reads_trans(s, i, pw, po, joins_toks(st.joins), where_toks(st.where_clause));
    lemma_reads_trans(
        s,
        i,
        po,
        pl,
        joins_toks(st.joins) + where_toks(st.where_clause),
        orders_toks(st.order_by),
    );
    lemma_reads_trans(
        s,
        i,
        pl,
        s.len() as int,
        joins_toks(st.joins) + where_toks(st.where_clause) + orders_toks(st.order_by),
        limit_toks(st.limit),
    );
}

/// `SELECT items FROM ` reads as its kinds.
proof fn lemma_lex_head(x: Seq<char>, st: SelectStatementV)
    requires
        stmt_reads_back(st),
        occurs(x, 0, "SELECT "@ + text_of(render_items(st.select)) + " FROM "@),
    ensures
        reads(
            x,
            0,
            13 + text_of(render_items(st.select)).len() as int,
            seq![KindV::Select] + comma_joined(st.select.map_values(|i: SelectItemV| item_toks(i)))
                + seq![KindV::From],
        ),
{
    let items = text_of(render_items(st.select));
    reveal_strlit("SELECT ");
    reveal_strlit(" FROM ");
    reveal_strlit("SELECT");
    reveal_strlit("FROM");
    lemma_keywords();
    lemma_occurs_cat(x, 0, "SELECT "@ + items, " FROM "@);
    lemma_occurs_cat(x, 0, "SELECT "@, items);
    let pi = 7int;
    let pf0 = pi + items.len();
    let pf = pf0 + 6;
    // The FROM keyword.
    lemma_occurs_at(x, pf0, " FROM "@, 0);
    lemma_occurs_at(x, pf0, " FROM "@, 5);
    lemma_occurs_sub(x, pf0, " FROM "@, 1, 5);
    assert(" FROM "@.subrange(1, 5) =~= "FROM"@);
    lemma_reads_skip(x, pf0);
    lemma_lex_keyword(x, pf0 + 1, "FROM"@, KindV::From);
    lemma_reads_skip(x, pf0 + 5);
    // The select list.
    lemma_stmt_parts_ok(st);
    lemma_lex_items(x, pi, st.select);
    // The SELECT keyword.
    lemma_occurs_at(x, 0, "SELECT "@, 6);
    lemma_occurs_sub(x, 0, "SELECT "@, 0, 6);
    assert("SELECT "@.subrange(0, 6) =~= "SELECT"@);
    lemma_lex_keyword(x, 0, "SELECT"@, KindV::Select);
    lemma_reads_skip(x, 6);
    let ki = comma_joined(st.select.map_values(|i: SelectItemV| item_toks(i)));
    lemma_reads_trans(x, 0, 6, pi, seq![KindV::Select], Seq::empty());
    let k0 = seq![KindV::Select] + Seq::empty();
    lemma_reads_trans(x, 0, pi, pf0, k0, ki);
    lemma_reads_trans(x, pf0, pf0 + 1, pf0 + 5, Seq::empty(), seq![KindV::From]);
    lemma_reads_trans(x, pf0, pf0 + 5, pf, Seq::empty() + seq![KindV::From], Seq::empty());
    let kf = Seq::empty() + seq![KindV::From] + Seq::empty();
    lemma_reads_trans(x, 0, pf0, pf, k0 + ki, kf);
    assert(k0 + ki + kf =~= seq![KindV::Select] + ki + seq![KindV::From]);
}

/// A whole rendered statement reads as the statement's token kinds.
proof fn lemma_lex_stmt(st: SelectStatementV)
    requires
        stmt_reads_back(st),
    ensures
        kinds_from(stmt_text(st), 0) == Some(stmt_toks(st)),
{
    let x = stmt_text(st);
    let items = text_of(render_items(st.select));
    let f = st.from;
    let tail = tail_text(st);
    let head = "SELECT "@ + items + " FROM "@;
    assert(x.subrange(0, x.len() as int) =~= x);
    assert(occurs(x, 0, x));
    lemma_occurs_cat(x, 0, head + f, tail);
    lemma_occurs_cat(x, 0, head, f);
    reveal_strlit("SELECT ");
    reveal_strlit(" FROM ");
    let pf: int = 13 + items.len() as int;
    let pt: int = pf + f.len();
    lemma_lex_tail(x, pt, st);
    lemma_boundary_before(x, pt, tail);
    lemma_lex_path(x, pf, f);
    lemma_lex_head(x, st);
    let kh = seq![KindV::Select] + comma_joined(st.select.map_values(|i: SelectItemV| item_toks(i)))
        + seq![KindV::From];
    let kt = joins_toks(st.joins) + where_toks(st.where_clause) + orders_toks(st.order_by)
        + limit_toks(st.limit);
    lemma_reads_trans(x, 0, pf, pt, kh, path_toks(f, 0));
    lemma_reads_trans(x, 0, pt, x.len() as int, kh + path_toks(f, 0), kt);
    assert(kh + path_toks(f, 0) + kt =~= stmt_toks(st));
    assert(kinds_from(x, x.len() as int) == Some(Seq::<KindV>::empty()));
    assert(stmt_toks(st) + Seq::<KindV>::empty() =~= stmt_toks(st));
}

/// Planning a statement and parsing the planned SQL gives the statement
/// back, for every statement the grammar can express: a non-empty select
/// list, identifier paths whose segments are no keywords, and no `NOT`
/// where the grammar wants a primary (an operand of a comparison or `LIKE`,
/// the subject or a value of an `IN` list). Rendering succeeds on all of
/// them.
pub proof fn lemma_planned_sql_reads_back(st: SelectStatementV)
    requires
        stmt_reads_back(st),
    ensures
        render_select_spec(st) matches Ok(sql) && parse_spec(sql) == Ok::<
            SelectStatementV,
            crate::parser::ErrorV,
        >(st),
{
    lemma_render_stmt(st);
    lemma_lex_stmt(st);
    let x = stmt_text(st);
    let ts = lex_from(x, 0)->Ok_0;
    assert(lex_spec(x) == Ok::<Seq<TokenV>, int>(ts));
    assert(kinds_of(ts) == stmt_toks(st));
    assert forall|m: int| 0 <= m < stmt_toks(st).len() implies #[trigger] ts[0 + m].kind
        == stmt_toks(st)[m] by {
        assert(kinds_of(ts)[m] == ts[m].kind);
    }
    lemma_select(ts, st);
}

// ---------------------------------------------------------------------------
// Parsed statements: their paths have no keyword segments.
// ---------------------------------------------------------------------------

/// Whether `w` is a word the tokenizer reads as an identifier: identifier
/// characters, starting with a letter or `_`, and no keyword.
pub open spec fn plain_word(w: Seq<char>) -> bool {
    &&& w.len() > 0
    &&& is_ident_start(w[0])
    &&& forall|k: int| 0 <= k < w.len() ==> is_ident_continue(#[trigger] w[k])
    &&& keyword(w) is None
}

/// Whether every identifier token of `t` is a plain word.
pub open spec fn idents_plain(t: Seq<TokenV>) -> bool {
    forall|k: int| 0 <= k < t.len() ==> (#[trigger] t[k].kind matches KindV::Identifier(w)
        ==> plain_word(w))
}

proof fn lemma_ident_end_chars(s: Seq<char>, i: int)
    requires
        0 <= i <= s.len(),
    ensures
        forall|k: int| i <= k < ident_end(s, i) ==> is_ident_continue(#[trigger] s[k]),
    decreases s.len() - i,
{
    if i < s.len() && is_ident_continue(s[i]) {
        lemma_ident_end_chars(s, i + 1);
    }
}

/// The tokenizer reads identifiers only from plain words.
proof fn lemma_lex_idents_plain(s: Seq<char>, i: int)
    requires
        0 <= i,
    ensures
        lex_from(s, i) matches Ok(ts) ==> idents_plain(ts),
    decreases s.len() - i,
{
    if 0 <= i < s.len() {
        match step(s, i) {
            Step::Skip(j) => {
                if i < j <= s.len() {
                    lemma_lex_idents_plain(s, j);
                }
            },
            Step::Emit(k, j) => {
                if i < j <= s.len() {
                    lemma_lex_idents_plain(s, j);
                    if let Ok(rest) = lex_from(s, j) {
                        let ts = seq![TokenV { kind: k, start: i }] + rest;
                        if let KindV::Identifier(w) = k {
                            let c = s[i];
                            assert(is_ident_start(c));
                            let e = ident_end(s, i + 1);
                            crate::lexer::lemma_ident_end(s, i + 1);
                            lemma_ident_end_chars(s, i + 1);
                            let w0 = s.subrange(i, e);
                            assert(word_kind(w0) == k);
                            assert(keyword(w0) is None);
                            assert(w0 == w);
                            assert forall|m: int| 0 <= m < w.len() implies is_ident_continue(
                                #[trigger] w[m],
                            ) by {
                                assert(w[m] == s[i + m]);
                            }
                        }
                        assert forall|m: int| 0 <= m < ts.len() implies (#[trigger] ts[m].kind matches KindV::Identifier(w)
                            ==> plain_word(w)) by {
                            if m > 0 {
                                assert(ts[m] == rest[m - 1]);
                            }
                        }
                    }
                }
            },
            Step::Fail => {},
        }
    }
}

/// Extending a path whose segments are no keywords by `.` and a plain word
/// keeps its segments, from the one at `k` on, free of keywords.
proof fn lemma_segments_extend(acc: Seq<char>, n: Seq<char>, k: int)
    requires
        0 <= k <= acc.len(),
        plain_segments(acc, k),
        plain_word(n),
    ensures
        plain_segments(acc.push('.') + n, k),
    decreases acc.len() - k,
{
    let s = acc.push('.') + n;
    lemma_dot_from(acc, k);
    lemma_dot_from(s, k);
    let j = dot_from(acc, k);
    let js = dot_from(s, k);
    assert(s[acc.len() as int] == '.');
    assert forall|m: int| 0 <= m < acc.len() implies s[m] == acc[m] by {}
    if js < j {
        assert(s[js] == acc[js]);
    }
    if j < js {
        if j < acc.len() {
            assert(s[j] == acc[j]);
        }
    }
    assert(js == j);
    assert(s.subrange(k, j) =~= acc.subrange(k, j));
    assert(keyword(s.subrange(k, js)) is None);
    if j < acc.len() {
        assert(plain_segments(acc, j + 1));
        lemma_segments_extend(acc, n, j + 1);
    } else {
        // The last segment of the extended path is `n`.
        let j2 = dot_from(s, j + 1);
        lemma_dot_from(s, j + 1);
        assert forall|m: int| j + 1 <= m < s.len() implies s[m] != '.' by {
            assert(s[m] == n[m - j - 1]);
            assert(is_ident_continue(n[m - j - 1]));
        }
        if j2 < s.len() {
            assert(s[j2] != '.');
        }
        assert(j2 == s.len());
        assert(s.subrange(j + 1, j2) =~= n);
        assert(keyword(s.subrange(j + 1, j2)) is None);
        assert(plain_segments(s, j + 1));
    }
}

proof fn lemma_word_segments(w: Seq<char>)
    requires
        plain_word(w),
    ensures
        plain_segments(w, 0),
{
    lemma_dot_from(w, 0);
    let j = dot_from(w, 0);
    if j < w.len() {
        assert(is_ident_continue(w[j]));
    }
    assert(w.subrange(0, j) =~= w);
}

proof fn lemma_parsed_ident_tail(t: Seq<TokenV>, q: int, acc: Seq<char>)
    requires
        idents_plain(t),
        plain_segments(acc, 0),
    ensures
        ident_tail(t, q, acc) matches Ok((s, _)) ==> plain_segments(s, 0),
    decreases t.len() - q,
{
    if at(t, q, TokenMatcher::Dot) && q + 1 < t.len() {
        if let KindV::Identifier(n) = t[q + 1].kind {
            assert(t[q + 1].kind matches KindV::Identifier(w) ==> plain_word(w));
            lemma_segments_extend(acc, n, 0);
            lemma_parsed_ident_tail(t, q + 2, acc.push('.') + n);
        }
    }
}

proof fn lemma_parsed_ident_path(t: Seq<TokenV>, p: int)
    requires
        idents_plain(t),
    ensures
        ident_path(t, p) matches Ok((s, _)) ==> plain_segments(s, 0),
{
    if 0 <= p < t.len() {
        if let KindV::Identifier(v) = t[p].kind {
            assert(t[p].kind matches KindV::Identifier(w) ==> plain_word(w));
            lemma_word_segments(v);
            lemma_parsed_ident_tail(t, p + 1, v);
        }
    }
}

/// Whether every identifier path of an expression has no keyword segment.
pub open spec fn expr_idents_plain(e: ExprV) -> bool
    decreases e,
{
    match e {
        ExprV::Identifier(s) => plain_segments(s, 0),
        ExprV::Literal(_) => true,
        ExprV::Unary(_, x) => expr_idents_plain(*x),
        ExprV::Binary(l, _, r) => expr_idents_plain(*l) && expr_idents_plain(*r),
        ExprV::InList(x, vs, _) => {
            &&& expr_idents_plain(*x)
            &&& forall|k: int| 0 <= k < vs.len() ==> expr_idents_plain(#[trigger] vs[k])
        },
    }
}

pub open spec fn all_idents_plain(vs: Seq<ExprV>) -> bool {
    forall|k: int| 0 <= k < vs.len() ==> expr_idents_plain(#[trigger] vs[k])
}

proof fn lemma_pp_expression(t: Seq<TokenV>, p: int)
    requires
        idents_plain(t),
    ensures
        p_expression(t, p) matches Ok((e, _)) ==> expr_idents_plain(e),
    decreases t.len() - p, 8int,
{
    lemma_pp_or(t, p);
}

proof fn lemma_pp_or(t: Seq<TokenV>, p: int)
    requires
        idents_plain(t),
    ensures
        p_or(t, p) matches Ok((e, _)) ==> expr_idents_plain(e),
    decreases t.len() - p, 7int,
{
    lemma_pp_and(t, p);
    if let Ok((e, q)) = p_and(t, p) {
        if p <= q <= t.len() {
            lemma_pp_or_tail(t, q, e);
        }
    }
}

proof fn lemma_pp_or_tail(t: Seq<TokenV>, q: int, e: ExprV)
    requires
        idents_plain(t),
        expr_idents_plain(e),
    ensures
        or_tail(t, q, e) matches Ok((e2, _)) ==> expr_idents_plain(e2),
    decreases t.len() - q, 6int,
{
    if at(t, q, TokenMatcher::Or) {
        lemma_pp_and(t, q + 1);
        if let Ok((r, q2)) = p_and(t, q + 1) {
            let e2 = ExprV::Binary(Box::new(e), BinaryOperator::Or, Box::new(r));
            if q < q2 <= t.len() {
                lemma_pp_or_tail(t, q2, e2);
            }
        }
    }
}

proof fn lemma_pp_and(t: Seq<TokenV>, p: int)
    requires
        idents_plain(t),
    ensures
        p_and(t, p) matches Ok((e, _)) ==> expr_idents_plain(e),
    decreases t.len() - p, 5int,
{
    lemma_pp_not(t, p);
    if let Ok((e, q)) = p_not(t, p) {
        if p <= q <= t.len() {
            lemma_pp_and_tail(t, q, e);
        }
    }
}

proof fn lemma_pp_and_tail(t: Seq<TokenV>, q: int, e: ExprV)
    requires
        idents_plain(t),
        expr_idents_plain(e),
    ensures
        and_tail(t, q, e) matches Ok((e2, _)) ==> expr_idents_plain(e2),
    decreases t.len() - q, 4int,
{
    if at(t, q, TokenMatcher::And) {
        lemma_pp_not(t, q + 1);
        if let Ok((r, q2)) = p_not(t, q + 1) {
            let e2 = ExprV::Binary(Box::new(e), BinaryOperator::And, Box::new(r));
            if q < q2 <= t.len() {
                lemma_pp_and_tail(t, q2, e2);
            }
        }
    }
}

proof fn lemma_pp_not(t: Seq<TokenV>, p: int)
    requires
        idents_plain(t),
    ensures
        p_not(t, p) matches Ok((e, _)) ==> expr_idents_plain(e),
    decreases t.len() - p, 3int,
{
    if at(t, p, TokenMatcher::Not) {
        lemma_pp_not(t, p + 1);
    } else {
        lemma_pp_comparison(t, p);
    }
}

proof fn lemma_pp_comparison(t: Seq<TokenV>, p: int)
    requires
        idents_plain(t),
    ensures
        p_comparison(t, p) matches Ok((e, _)) ==> expr_idents_plain(e),
    decreases t.len() - p, 2int,
{
    lemma_pp_primary(t, p);
    if let Ok((left, q)) = p_primary(t, p) {
        if p <= q <= t.len() {
            if at(t, q, TokenMatcher::Not) {
                if at(t, q + 1, TokenMatcher::In) {
                    lemma_pp_in_list(t, q + 2, left, true);
                }
            } else if at(t, q, TokenMatcher::In) {
                lemma_pp_in_list(t, q + 1, left, false);
            } else if q < t.len() {
                lemma_pp_primary(t, q + 1);
            }
        }
    }
}

proof fn lemma_pp_in_list(t: Seq<TokenV>, p: int, left: ExprV, negated: bool)
    requires
        idents_plain(t),
        expr_idents_plain(left),
    ensures
        in_list(t, p, left, negated) matches Ok((e, _)) ==> expr_idents_plain(e),
    decreases t.len() - p, 3int,
{
    if at(t, p, TokenMatcher::LParen) {
        lemma_pp_values(t, p + 1, Seq::empty());
    }
}

proof fn lemma_pp_values(t: Seq<TokenV>, r: int, acc: Seq<ExprV>)
    requires
        idents_plain(t),
        all_idents_plain(acc),
    ensures
        in_values(t, r, acc) matches Ok((vs, _)) ==> all_idents_plain(vs),
    decreases t.len() - r, 2int,
{
    lemma_pp_primary(t, r);
    if let Ok((v, q)) = p_primary(t, r) {
        let acc2 = acc.push(v);
        assert forall|k: int| 0 <= k < acc2.len() implies expr_idents_plain(#[trigger] acc2[k]) by {
            if k < acc.len() {
                assert(acc2[k] == acc[k]);
            }
        }
        if at(t, q, TokenMatcher::Comma) && r <= q {
            lemma_pp_values(t, q + 1, acc2);
        }
    }
}

proof fn lemma_pp_primary(t: Seq<TokenV>, p: int)
    requires
        idents_plain(t),
    ensures
        p_primary(t, p) matches Ok((e, _)) ==> expr_idents_plain(e),
    decreases t.len() - p, 1int,
{
    if at(t, p, TokenMatcher::LParen) {
        lemma_pp_expression(t, p + 1);
    } else {
        lemma_parsed_ident_path(t, p);
    }
}

pub open spec fn items_plain(is: Seq<SelectItemV>) -> bool {
    forall|k: int| 0 <= k < is.len() ==> (#[trigger] is[k] matches SelectItemV::Column(c)
        ==> plain_segments(c, 0))
}

pub open spec fn joins_plain(js: Seq<JoinV>) -> bool {
    forall|k: int| 0 <= k < js.len() ==> plain_segments(#[trigger] js[k].table, 0)
        && expr_idents_plain(js[k].on)
}

pub open spec fn orders_plain(os: Seq<OrderByV>) -> bool {
    forall|k: int| 0 <= k < os.len() ==> plain_segments(#[trigger] os[k].column, 0)
}

proof fn lemma_pp_select_list(t: Seq<TokenV>, p: int, acc: Seq<SelectItemV>)
    requires
        idents_plain(t),
        items_plain(acc),
    ensures
        select_list(t, p, acc) matches Ok((is, _)) ==> items_plain(is) && is.len() > acc.len(),
    decreases t.len() - p,
{
    lemma_parsed_ident_path(t, p);
    if let Ok((item, q)) = select_item(t, p) {
        let acc2 = acc.push(item);
        assert forall|k: int| 0 <= k < acc2.len() implies (#[trigger] acc2[k] matches SelectItemV::Column(c)
            ==> plain_segments(c, 0)) by {
            if k < acc.len() {
                assert(acc2[k] == acc[k]);
            }
        }
        if at(t, q, TokenMatcher::Comma) && p <= q {
            lemma_pp_select_list(t, q + 1, acc2);
        }
    }
}

proof fn lemma_pp_joins(t: Seq<TokenV>, p: int, acc: Seq<JoinV>)
    requires
        idents_plain(t),
        joins_plain(acc),
    ensures
        joins(t, p, acc) matches Ok((js, _)) ==> joins_plain(js),
    decreases t.len() - p,
{
    if at(t, p, TokenMatcher::Join) {
        lemma_parsed_ident_path(t, p + 1);
        if let Ok((table, q)) = ident_path(t, p + 1) {
            if at(t, q, TokenMatcher::On) {
                lemma_pp_expression(t, q + 1);
                if let Ok((on, q2)) = p_expression(t, q + 1) {
                    let acc2 = acc.push(JoinV { table, on });
                    assert forall|k: int| 0 <= k < acc2.len() implies plain_segments(
                        #[trigger] acc2[k].table,
                        0,
                    ) && expr_idents_plain(acc2[k].on) by {
                        if k < acc.len() {
                            assert(acc2[k] == acc[k]);
                        }
                    }
                    if p < q2 <= t.len() {
                        lemma_pp_joins(t, q2, acc2);
                    }
                }
            }
        }
    }
}

proof fn lemma_pp_order_list(t: Seq<TokenV>, p: int, acc: Seq<OrderByV>)
    requires
        idents_plain(t),
        orders_plain(acc),
    ensures
        order_list(t, p, acc) matches Ok((os, _)) ==> orders_plain(os),
    decreases t.len() - p,
{
    lemma_parsed_ident_path(t, p);
    if let Ok((item, q)) = order_item(t, p) {
        let acc2 = acc.push(item);
        assert forall|k: int| 0 <= k < acc2.len() implies plain_segments(#[trigger] acc2[k].column, 0) by {
            if k < acc.len() {
                assert(acc2[k] == acc[k]);
            }
        }
        if at(t, q, TokenMatcher::Comma) && p <= q {
            lemma_pp_order_list(t, q + 1, acc2);
        }
    }
}

/// A statement parsed from tokens whose identifiers are plain words has a
/// select list and no keyword segment in any path.
proof fn lemma_pp_select(t: Seq<TokenV>)
    requires
        idents_plain(t),
    ensures
        p_select(t) matches Ok(st) ==> {
            &&& st.select.len() > 0
            &&& items_plain(st.select)
            &&& plain_segments(st.from, 0)
            &&& joins_plain(st.joins)
            &&& (st.where_clause matches Some(e) ==> expr_idents_plain(e))
            &&& orders_plain(st.order_by)
        },
{
    lemma_pp_select_list(t, 1, Seq::empty());
    if let Ok((_, q1)) = select_list(t, 1, Seq::empty()) {
        lemma_parsed_ident_path(t, q1 + 1);
        if let Ok((_, q2)) = ident_path(t, q1 + 1) {
            lemma_pp_joins(t, q2, Seq::empty());
            if let Ok((_, q3)) = joins(t, q2, Seq::empty()) {
                if at(t, q3, TokenMatcher::Where) {
                    lemma_pp_expression(t, q3 + 1);
                }
                if let Ok((_, q4)) = where_part(t, q3) {
                    if at(t, q4, TokenMatcher::Order) && at(t, q4 + 1, TokenMatcher::By) {
                        lemma_pp_order_list(t, q4 + 2, Seq::empty());
                    }
                }
            }
        }
    }
}

/// Whether no `NOT` of an expression stands where the grammar wants a
/// primary: as an operand of a comparison or `LIKE`, or as the subject or a
/// value of an `IN` list.
pub open spec fn no_loose_not(e: ExprV) -> bool
    decreases e,
{
    match e {
        ExprV::Identifier(_) => true,
        ExprV::Literal(_) => true,
        ExprV::Unary(_, x) => no_loose_not(*x),
        ExprV::Binary(l, op, r) => {
            &&& no_loose_not(*l)
            &&& no_loose_not(*r)
            &&& tight(op) ==> !(*l is Unary) && !(*r is Unary)
        },
        ExprV::InList(x, vs, _) => {
            &&& no_loose_not(*x)
            &&& !(*x is Unary)
            &&& forall|k: int| 0 <= k < vs.len() ==> no_loose_not(#[trigger] vs[k]) && !(vs[k] is Unary)
        },
    }
}

/// Whether no `NOT` of a statement's conditions stands where the grammar
/// wants a primary.
pub open spec fn stmt_no_loose_not(st: SelectStatementV) -> bool {
    &&& forall|k: int| 0 <= k < st.joins.len() ==> no_loose_not(#[trigger] st.joins[k].on)
    &&& (st.where_clause matches Some(e) ==> no_loose_not(e))
}

proof fn lemma_expr_reads_back(e: ExprV)
    requires
        crate::plan::expr_plannable(e),
        expr_idents_plain(e),
        no_loose_not(e),
    ensures
        reads_back(e),
    decreases e,
{
    match e {
        ExprV::Identifier(_) => {},
        ExprV::Literal(_) => {},
        ExprV::Unary(_, x) => {
            lemma_expr_reads_back(*x);
        },
        ExprV::Binary(l, _, r) => {
            lemma_expr_reads_back(*l);
            lemma_expr_reads_back(*r);
        },
        ExprV::InList(x, vs, _) => {
            lemma_expr_reads_back(*x);
            assert forall|k: int| 0 <= k < vs.len() implies reads_back(#[trigger] vs[k]) && !(
            vs[k] is Unary) by {
                assert(crate::plan::expr_plannable(vs[k]));
                assert(expr_idents_plain(vs[k]));
                assert(no_loose_not(vs[k]));
                lemma_expr_reads_back(vs[k]);
            }
        },
    }
}

proof fn lemma_joins_plain_at(js: Seq<JoinV>, k: int)
    requires
        joins_plain(js),
        0 <= k < js.len(),
    ensures
        plain_segments(js[k].table, 0),
        expr_idents_plain(js[k].on),
{
    assert(plain_segments(js[k].table, 0) && expr_idents_plain(js[k].on));
}

/// A statement that the parser gives and the planner accepts, with no
/// `NOT` where the grammar wants a primary, reads back: its planned SQL
/// parses into the statement again.
pub proof fn lemma_parsed_plan_reads_back(q: Seq<char>, st: SelectStatementV)
    requires
        parse_spec(q) == Ok::<SelectStatementV, crate::parser::ErrorV>(st),
        render_select_spec(st) is Ok,
        stmt_no_loose_not(st),
    ensures
        render_select_spec(st) matches Ok(sql) && parse_spec(sql) == Ok::<
            SelectStatementV,
            crate::parser::ErrorV,
        >(st),
{
    let t = lex_spec(q)->Ok_0;
    lemma_lex_idents_plain(q, 0);
    lemma_pp_select(t);
    crate::plan::lemma_plan_errors(st);
    assert(p_select(t) == Ok::<SelectStatementV, crate::parser::ErrorV>(st));
    assert(joins_plain(st.joins));
    assert forall|k: int| 0 <= k < st.select.len() implies (#[trigger] st.select[k] matches
        SelectItemV::Column(c) ==> plain_path(c)) by {
        assert(st.select[k] matches SelectItemV::Column(c) ==> plain_segments(c, 0));
        assert(st.select[k] matches SelectItemV::Column(c) ==> valid_path(c));
    }
    assert forall|k: int| 0 <= k < st.joins.len() implies plain_path(#[trigger] st.joins[k].table)
        && reads_back(st.joins[k].on) by {
        lemma_joins_plain_at(st.joins, k);
        assert(valid_path(st.joins[k].table) && crate::plan::expr_plannable(st.joins[k].on));
        assert(no_loose_not(st.joins[k].on));
        lemma_expr_reads_back(st.joins[k].on);
    }
    if let Some(e) = st.where_clause {
        lemma_expr_reads_back(e);
    }
    assert forall|k: int| 0 <= k < st.order_by.len() implies plain_path(
        #[trigger] st.order_by[k].column,
    ) by {
        assert(plain_segments(st.order_by[k].column, 0));
        assert(valid_path(st.order_by[k].column));
    }
    assert(stmt_reads_back(st));
    lemma_planned_sql_reads_back(st);
}

} // verus!
