//! The planner: renders a parsed statement back into SQL text for the
//! database, checking every identifier on the way.

use vstd::prelude::*;
use crate::ast::{
    BinaryOperator, Expr, ExprV, Join, JoinV, Literal, LiteralV, OrderBy, OrderByV, OrderDirection,
    SelectItem, SelectItemV, SelectStatement, SelectStatementV, lemma_views_of,
};
use crate::lexer::{is_ident_continue, is_ident_start};
use crate::text::{chars_of, owned, push_char, push_str};

verus! {

#[derive(Debug, Clone, PartialEq, Eq)]
pub struct PlannedQuery {
    pub sql: String,
}

#[derive(Debug, Clone, PartialEq, Eq)]
pub struct PlanError {
    pub message: String,
}

/// Whether `s` is a dotted path whose every segment is an identifier
/// `[A-Za-z_][A-Za-z0-9_]*`.
pub open spec fn valid_path(s: Seq<char>) -> bool {
    &&& s.len() > 0
    &&& is_ident_start(s[0])
    &&& forall|i: int| 0 <= i < s.len() ==> s[i] == '.' || is_ident_continue(#[trigger] s[i])
    &&& forall|i: int|
        0 <= i < s.len() && #[trigger] s[i] == '.' ==> i + 1 < s.len() && is_ident_start(s[i + 1])
}

/// A checked identifier path, or the error message for it.
pub open spec fn render_ident(s: Seq<char>) -> Result<Seq<char>, Seq<char>> {
    if valid_path(s) {
        Ok(s)
    } else {
        Err("invalid identifier: "@ + s)
    }
}

pub open spec fn digit_char(d: nat) -> char {
    ((d as u8) + 48u8) as char
}

/// The decimal digits of `n`.
pub open spec fn decimal(n: nat) -> Seq<char>
    decreases n,
{
    if n < 10 {
        seq![digit_char(n)]
    } else {
        decimal(n / 10).push(digit_char(n % 10))
    }
}

/// `s` with every single quote doubled.
pub open spec fn escape_quotes(s: Seq<char>) -> Seq<char>
    decreases s.len(),
{
    if s.len() == 0 {
        Seq::empty()
    } else if s.last() == '\'' {
        escape_quotes(s.drop_last()) + seq!['\'', '\'']
    } else {
        escape_quotes(s.drop_last()).push(s.last())
    }
}

pub open spec fn render_literal_spec(l: LiteralV) -> Seq<char> {
    match l {
        LiteralV::Integer(v) => decimal(v as nat),
        LiteralV::Text(s) => seq!['\''] + escape_quotes(s) + seq!['\''],
    }
}

pub open spec fn operator_text(op: BinaryOperator) -> Seq<char> {
    match op {
        BinaryOperator::Eq => "="@,
        BinaryOperator::NotEq => "!="@,
        BinaryOperator::Gt => ">"@,
        BinaryOperator::Lt => "<"@,
        BinaryOperator::Gte => ">="@,
        BinaryOperator::Lte => "<="@,
        BinaryOperator::And => "AND"@,
        BinaryOperator::Or => "OR"@,
        BinaryOperator::Like => "LIKE"@,
    }
}

/// The SQL text of an expression, fully parenthesized, or the first error met
/// in rendering order.
pub open spec fn render_expr_spec(e: ExprV) -> Result<Seq<char>, Seq<char>>
    decreases e,
{
    match e {
        ExprV::Identifier(s) => render_ident(s),
        ExprV::Literal(l) => Ok(render_literal_spec(l)),
        ExprV::Unary(_, x) => match render_expr_spec(*x) {
            Ok(a) => Ok("NOT ("@ + a + ")"@),
            Err(m) => Err(m),
        },
        ExprV::Binary(l, op, r) => match render_expr_spec(*l) {
            Ok(a) => match render_expr_spec(*r) {
                Ok(b) => Ok("("@ + a + " "@ + operator_text(op) + " "@ + b + ")"@),
                Err(m) => Err(m),
            },
            Err(m) => Err(m),
        },
        ExprV::InList(x, values, negated) => if values.len() == 0 {
            Err("empty IN lists are not supported"@)
        } else {
            match render_values(values) {
                Ok(vs) => match render_expr_spec(*x) {
                    Ok(a) => Ok(
                        "("@ + a + (if negated {
                            " NOT"@
                        } else {
                            Seq::empty()
                        }) + " IN ("@ + vs + "))"@,
                    ),
                    Err(m) => Err(m),
                },
                Err(m) => Err(m),
            }
        },
    }
}

/// The expressions `vs` rendered and joined with `", "`.
pub open spec fn render_values(vs: Seq<ExprV>) -> Result<Seq<char>, Seq<char>>
    decreases vs,
{
    if vs.len() == 0 {
        Ok(Seq::empty())
    } else {
        match render_values(vs.drop_last()) {
            Ok(a) => match render_expr_spec(vs.last()) {
                Ok(b) => Ok(
                    if vs.len() == 1 {
                        b
                    } else {
                        a + ", "@ + b
                    },
                ),
                Err(m) => Err(m),
            },
            Err(m) => Err(m),
        }
    }
}

pub open spec fn render_item(i: SelectItemV) -> Result<Seq<char>, Seq<char>> {
    match i {
        SelectItemV::Wildcard => Ok("*"@),
        SelectItemV::Column(c) => render_ident(c),
    }
}

/// The select list, rendered and joined with `", "`.
pub open spec fn render_items(items: Seq<SelectItemV>) -> Result<Seq<char>, Seq<char>>
    decreases items.len(),
{
    if items.len() == 0 {
        Ok(Seq::empty())
    } else {
        match render_items(items.drop_last()) {
            Ok(a) => match render_item(items.last()) {
                Ok(b) => Ok(
                    if items.len() == 1 {
                        b
                    } else {
                        a + ", "@ + b
                    },
                ),
                Err(m) => Err(m),
            },
            Err(m) => Err(m),
        }
    }
}

pub open spec fn render_join_spec(j: JoinV) -> Result<Seq<char>, Seq<char>> {
    match render_ident(j.table) {
        Ok(t) => match render_expr_spec(j.on) {
            Ok(on) => Ok("JOIN "@ + t + " ON "@ + on),
            Err(m) => Err(m),
        },
        Err(m) => Err(m),
    }
}

/// Each join rendered with a leading space.
pub open spec fn render_joins(js: Seq<JoinV>) -> Result<Seq<char>, Seq<char>>
    decreases js.len(),
{
    if js.len() == 0 {
        Ok(Seq::empty())
    } else {
        match render_joins(js.drop_last()) {
            Ok(a) => match render_join_spec(js.last()) {
                Ok(b) => Ok(a + " "@ + b),
                Err(m) => Err(m),
            },
            Err(m) => Err(m),
        }
    }
}

pub open spec fn direction_text(d: OrderDirection) -> Seq<char> {
    match d {
        OrderDirection::Asc => "ASC"@,
        OrderDirection::Desc => "DESC"@,
    }
}

pub open spec fn render_order_item(o: OrderByV) -> Result<Seq<char>, Seq<char>> {
    match render_ident(o.column) {
        Ok(c) => Ok(c + " "@ + direction_text(o.direction)),
        Err(m) => Err(m),
    }
}

/// The order clauses, rendered and joined with `", "`.
pub open spec fn render_orders(os: Seq<OrderByV>) -> Result<Seq<char>, Seq<char>>
    decreases os.len(),
{
    if os.len() == 0 {
        Ok(Seq::empty())
    } else {
        match render_orders(os.drop_last()) {
            Ok(a) => match render_order_item(os.last()) {
                Ok(b) => Ok(
                    if os.len() == 1 {
                        b
                    } else {
                        a + ", "@ + b
                    },
                ),
                Err(m) => Err(m),
            },
            Err(m) => Err(m),
        }
    }
}

/// The SQL text of a whole statement, or the first error met in rendering
/// order: select list, table, joins, filter, ordering.
pub open spec fn render_select_spec(s: SelectStatementV) -> Result<Seq<char>, Seq<char>> {
    match render_items(s.select) {
        Err(m) => Err(m),
        Ok(items) => match render_ident(s.from) {
            Err(m) => Err(m),
            Ok(from) => match render_joins(s.joins) {
                Err(m) => Err(m),
                Ok(joins) => {
                    let head = "SELECT "@ + items + " FROM "@ + from + joins;
                    let filter = match s.where_clause {
                        Some(e) => match render_expr_spec(e) {
                            Ok(w) => Ok(" WHERE "@ + w),
                            Err(m) => Err(m),
                        },
                        None => Ok(Seq::empty()),
                    };
                    match filter {
                        Err(m) => Err(m),
                        Ok(filter) => {
                            let order = if s.order_by.len() == 0 {
                                Ok(Seq::empty())
                            } else {
                                match render_orders(s.order_by) {
                                    Ok(o) => Ok(" ORDER BY "@ + o),
                                    Err(m) => Err(m),
                                }
                            };
                            match order {
                                Err(m) => Err(m),
                                Ok(order) => Ok(
                                    head + filter + order + match s.limit {
                                        Some(n) => " LIMIT "@ + decimal(n as nat),
                                        None => Seq::empty(),
                                    },
                                ),
                            }
                        },
                    }
                },
            },
        },
    }
}

/// Whether every identifier of an expression is a valid path and every
/// `IN` list in it has a value.
pub open spec fn expr_plannable(e: ExprV) -> bool
    decreases e,
{
    match e {
        ExprV::Identifier(s) => valid_path(s),
        ExprV::Literal(_) => true,
        ExprV::Unary(_, x) => expr_plannable(*x),
        ExprV::Binary(l, _, r) => expr_plannable(*l) && expr_plannable(*r),
        ExprV::InList(x, vs, _) => {
            &&& vs.len() > 0
            &&& expr_plannable(*x)
            &&& forall|k: int| 0 <= k < vs.len() ==> expr_plannable(#[trigger] vs[k])
        },
    }
}

/// Whether every identifier path of a statement (select columns, table,
/// join tables and conditions, filter, order columns) is valid and every
/// `IN` list in it has a value.
pub open spec fn stmt_plannable(s: SelectStatementV) -> bool {
    &&& forall|k: int| 0 <= k < s.select.len() ==> (#[trigger] s.select[k] matches
        SelectItemV::Column(c) ==> valid_path(c))
    &&& valid_path(s.from)
    &&& forall|k: int| 0 <= k < s.joins.len() ==> valid_path(#[trigger] s.joins[k].table)
        && expr_plannable(s.joins[k].on)
    &&& (s.where_clause matches Some(e) ==> expr_plannable(e))
    &&& forall|k: int| 0 <= k < s.order_by.len() ==> valid_path(#[trigger] s.order_by[k].column)
}

/// The errors that planning gives: an invalid identifier, named whole, or an
/// empty `IN` list.
pub open spec fn plan_error(m: Seq<char>) -> bool {
    ||| m == "empty IN lists are not supported"@
    ||| exists|p: Seq<char>| !valid_path(p) && m == "invalid identifier: "@ + p
}

proof fn lemma_ident_errors(s: Seq<char>)
    ensures
        render_ident(s) is Ok <==> valid_path(s),
        render_ident(s) matches Err(m) ==> plan_error(m),
{
    if !valid_path(s) {
        assert(!valid_path(s) && "invalid identifier: "@ + s == "invalid identifier: "@ + s);
    }
}

proof fn lemma_expr_errors(e: ExprV)
    ensures
        render_expr_spec(e) is Ok <==> expr_plannable(e),
        render_expr_spec(e) matches Err(m) ==> plan_error(m),
    decreases e, 1int,
{
    match e {
        ExprV::Identifier(s) => {
            lemma_ident_errors(s);
        },
        ExprV::Literal(_) => {},
        ExprV::Unary(_, x) => {
            lemma_expr_errors(*x);
        },
        ExprV::Binary(l, _, r) => {
            lemma_expr_errors(*l);
            lemma_expr_errors(*r);
        },
        ExprV::InList(x, vs, _) => {
            lemma_expr_errors(*x);
            lemma_values_errors(vs);
        },
    }
}

proof fn lemma_values_errors(vs: Seq<ExprV>)
    ensures
        render_values(vs) is Ok <==> forall|k: int| 0 <= k < vs.len() ==> expr_plannable(
            #[trigger] vs[k],
        ),
        render_values(vs) matches Err(m) ==> plan_error(m),
    decreases vs, 0int,
{
    if vs.len() > 0 {
        let init = vs.drop_last();
        lemma_values_errors(init);
        lemma_expr_errors(vs.last());
        if forall|k: int| 0 <= k < vs.len() ==> expr_plannable(#[trigger] vs[k]) {
            assert forall|k: int| 0 <= k < init.len() implies expr_plannable(#[trigger] init[k]) by {
                assert(init[k] == vs[k]);
            }
            assert(expr_plannable(vs[vs.len() - 1]));
        }
        if render_values(vs) is Ok {
            assert forall|k: int| 0 <= k < vs.len() implies expr_plannable(#[trigger] vs[k]) by {
                if k < vs.len() - 1 {
                    assert(init[k] == vs[k]);
                }
            }
        }
    }
}

proof fn lemma_items_errors(is: Seq<SelectItemV>)
    ensures
        render_items(is) is Ok <==> forall|k: int| 0 <= k < is.len() ==> (#[trigger] is[k] matches
            SelectItemV::Column(c) ==> valid_path(c)),
        render_items(is) matches Err(m) ==> plan_error(m),
    decreases is.len(),
{
    if is.len() > 0 {
        let init = is.drop_last();
        lemma_items_errors(init);
        match is.last() {
            SelectItemV::Column(c) => {
                lemma_ident_errors(c);
            },
            SelectItemV::Wildcard => {},
        }
        if forall|k: int| 0 <= k < is.len() ==> (#[trigger] is[k] matches SelectItemV::Column(c)
            ==> valid_path(c)) {
            assert forall|k: int| 0 <= k < init.len() implies (#[trigger] init[k] matches
                SelectItemV::Column(c) ==> valid_path(c)) by {
                assert(init[k] == is[k]);
            }
            assert(is[is.len() - 1] == is.last());
        }
        if render_items(is) is Ok {
            assert forall|k: int| 0 <= k < is.len() implies (#[trigger] is[k] matches
                SelectItemV::Column(c) ==> valid_path(c)) by {
                if k < is.len() - 1 {
                    assert(init[k] == is[k]);
                }
            }
        }
    }
}

proof fn lemma_joins_errors(js: Seq<JoinV>)
    ensures
        render_joins(js) is Ok <==> forall|k: int| 0 <= k < js.len() ==> valid_path(
            #[trigger] js[k].table,
        ) && expr_plannable(js[k].on),
        render_joins(js) matches Err(m) ==> plan_error(m),
    decreases js.len(),
{
    if js.len() > 0 {
        let init = js.drop_last();
        lemma_joins_errors(init);
        lemma_ident_errors(js.last().table);
        lemma_expr_errors(js.last().on);
        if forall|k: int| 0 <= k < js.len() ==> valid_path(#[trigger] js[k].table) && expr_plannable(
            js[k].on,
        ) {
            assert forall|k: int| 0 <= k < init.len() implies valid_path(#[trigger] init[k].table)
                && expr_plannable(init[k].on) by {
                assert(init[k] == js[k]);
            }
            assert(js[js.len() - 1] == js.last());
        }
        if render_joins(js) is Ok {
            assert forall|k: int| 0 <= k < js.len() implies valid_path(#[trigger] js[k].table)
                && expr_plannable(js[k].on) by {
                if k < js.len() - 1 {
                    assert(init[k] == js[k]);
                }
            }
        }
    }
}

proof fn lemma_orders_errors(os: Seq<OrderByV>)
    ensures
        render_orders(os) is Ok <==> forall|k: int| 0 <= k < os.len() ==> valid_path(
            #[trigger] os[k].column,
        ),
        render_orders(os) matches Err(m) ==> plan_error(m),
    decreases os.len(),
{
    if os.len() > 0 {
        let init = os.drop_last();
        lemma_orders_errors(init);
        lemma_ident_errors(os.last().column);
        if forall|k: int| 0 <= k < os.len() ==> valid_path(#[trigger] os[k].column) {
            assert forall|k: int| 0 <= k < init.len() implies valid_path(#[trigger] init[k].column) by {
                assert(init[k] == os[k]);
            }
            assert(os[os.len() - 1] == os.last());
        }
        if render_orders(os) is Ok {
            assert forall|k: int| 0 <= k < os.len() implies valid_path(#[trigger] os[k].column) by {
                if k < os.len() - 1 {
                    assert(init[k] == os[k]);
                }
            }
        }
    }
}

/// Planning fails exactly on a statement with an invalid identifier path
/// or an empty `IN` list, and then with the error for an invalid identifier
/// (naming the whole path) or for an empty `IN` list.
pub proof fn lemma_plan_errors(s: SelectStatementV)
    ensures
        render_select_spec(s) is Ok <==> stmt_plannable(s),
        render_select_spec(s) matches Err(m) ==> plan_error(m),
{
    lemma_items_errors(s.select);
    lemma_ident_errors(s.from);
    lemma_joins_errors(s.joins);
    if let Some(e) = s.where_clause {
        lemma_expr_errors(e);
    }
    lemma_orders_errors(s.order_by);
}

/// Plans a statement: `Ok` with the rendered SQL exactly when every
/// identifier is a valid path and no `IN` list is empty; otherwise the first
/// error met.
pub fn plan_select(statement: &SelectStatement) -> (r: Result<PlannedQuery, PlanError>)
    ensures
        match render_select_spec(statement.view()) {
            Ok(sql) => match r {
                Ok(p) => p.sql@ == sql,
                Err(_) => false,
            },
            Err(m) => match r {
                Ok(_) => false,
                Err(e) => e.message@ == m,
            },
        },
{
    let sql = render_select(statement)?;
    Ok(PlannedQuery { sql })
}

fn render_select(statement: &SelectStatement) -> (r: Result<String, PlanError>)
    ensures
        agrees(r, render_select_spec(statement.view())),
{
    let ghost s = statement.view();
    let mut sql = owned("SELECT ");
    let items = render_select_list(&statement.select)?;
    push_str(&mut sql, items.as_str());
    push_str(&mut sql, " FROM ");
    let from = render_identifier(statement.from.name.as_str())?;
    push_str(&mut sql, from.as_str());

    let ghost joins_v = s.joins;
    let mut k: usize = 0;
    while k < statement.joins.len()
        invariant
            k <= statement.joins.len(),
            s == statement.view(),
            joins_v == s.joins,
            joins_v.len() == statement.joins.len(),
            render_items(s.select) is Ok,
            render_ident(s.from) is Ok,
            render_joins(joins_v.take(k as int)) matches Ok(js) && sql@ == "SELECT "@
                + render_items(s.select)->Ok_0 + " FROM "@ + render_ident(s.from)->Ok_0 + js,
            forall|m: int| 0 <= m < k ==> render_joins(joins_v.take(m)) is Ok,
        decreases statement.joins.len() - k,
    {
        assert(joins_v.take(k + 1).drop_last() =~= joins_v.take(k as int));
        let part = match render_join(&statement.joins[k]) {
            Ok(part) => part,
            Err(e) => {
                proof {
                    lemma_joins_error_persists(joins_v, k as int + 1);
                }
                return Err(e);
            },
        };
        push_str(&mut sql, " ");
        push_str(&mut sql, part.as_str());
        k = k + 1;
    }
    assert(joins_v.take(k as int) =~= joins_v);
    let ghost head = sql@;

    let ghost mut filter = Seq::<char>::empty();
    if let Some(where_clause) = &statement.where_clause {
        let w = render_expr(where_clause)?;
        push_str(&mut sql, " WHERE ");
        push_str(&mut sql, w.as_str());
        proof {
            filter = " WHERE "@ + w@;
        }
    }
    assert(sql@ =~= head + filter);

    let ghost mut order = Seq::<char>::empty();
    if statement.order_by.len() != 0 {
        let o = render_order_by(&statement.order_by)?;
        push_str(&mut sql, " ORDER BY ");
        push_str(&mut sql, o.as_str());
        proof {
            order = " ORDER BY "@ + o@;
        }
    }
    assert(sql@ =~= head + filter + order);

    let ghost mut tail = Seq::<char>::empty();
    if let Some(limit) = statement.limit {
        push_str(&mut sql, " LIMIT ");
        let digits = decimal_string(limit);
        push_str(&mut sql, digits.as_str());
        proof {
            tail = " LIMIT "@ + digits@;
        }
    }
    assert(sql@ =~= head + filter + order + tail);
    assert(s.order_by.len() == statement.order_by.len());
    Ok(sql)
}

/// Once a prefix of the joins fails to render, every longer prefix fails with
/// the same message.
proof fn lemma_joins_error_persists(js: Seq<JoinV>, k: int)
    requires
        0 <= k <= js.len(),
        render_joins(js.take(k)) is Err,
    ensures
        render_joins(js) == render_joins(js.take(k)),
    decreases js.len() - k,
{
    if k < js.len() {
        assert(js.take(k + 1).drop_last() =~= js.take(k));
        lemma_joins_error_persists(js, k + 1);
    } else {
        assert(js.take(k) =~= js);
    }
}

pub open spec fn agrees(r: Result<String, PlanError>, s: Result<Seq<char>, Seq<char>>) -> bool {
    match s {
        Ok(t) => match r {
            Ok(x) => x@ == t,
            Err(_) => false,
        },
        Err(m) => match r {
            Ok(_) => false,
            Err(e) => e.message@ == m,
        },
    }
}

fn render_select_list(items: &Vec<SelectItem>) -> (r: Result<String, PlanError>)
    ensures
        agrees(r, render_items(items@.map_values(|i: SelectItem| i.view()))),
{
    let ghost iv = items@.map_values(|i: SelectItem| i.view());
    let mut out = String::new();
    let mut k: usize = 0;
    while k < items.len()
        invariant
            k <= items.len(),
            iv == items@.map_values(|i: SelectItem| i.view()),
            render_items(iv.take(k as int)) == Ok::<Seq<char>, Seq<char>>(out@),
        decreases items.len() - k,
    {
        assert(iv.take(k + 1).drop_last() =~= iv.take(k as int));
        let part = match &items[k] {
            SelectItem::Wildcard => owned("*"),
            SelectItem::Column(column) => match render_identifier(column.as_str()) {
                Ok(c) => c,
                Err(e) => {
                    proof {
                        lemma_items_error_persists(iv, k as int + 1);
                    }
                    return Err(e);
                },
            },
        };
        let ghost before = out@;
        if k > 0 {
            push_str(&mut out, ", ");
        }
        push_str(&mut out, part.as_str());
        proof {
            if k > 0 {
                assert(out@ =~= before + ", "@ + part@);
            }
        }
        k = k + 1;
    }
    assert(iv.take(k as int) =~= iv);
    Ok(out)
}

proof fn lemma_items_error_persists(is: Seq<SelectItemV>, k: int)
    requires
        0 <= k <= is.len(),
        render_items(is.take(k)) is Err,
    ensures
        render_items(is) == render_items(is.take(k)),
    decreases is.len() - k,
{
    if k < is.len() {
        assert(is.take(k + 1).drop_last() =~= is.take(k));
        lemma_items_error_persists(is, k + 1);
    } else {
        assert(is.take(k) =~= is);
    }
}

proof fn lemma_orders_error_persists(os: Seq<OrderByV>, k: int)
    requires
        0 <= k <= os.len(),
        render_orders(os.take(k)) is Err,
    ensures
        render_orders(os) == render_orders(os.take(k)),
    decreases os.len() - k,
{
    if k < os.len() {
        assert(os.take(k + 1).drop_last() =~= os.take(k));
        lemma_orders_error_persists(os, k + 1);
    } else {
        assert(os.take(k) =~= os);
    }
}

proof fn lemma_values_error_persists(vs: Seq<ExprV>, k: int)
    requires
        0 <= k <= vs.len(),
        render_values(vs.take(k)) is Err,
    ensures
        render_values(vs) == render_values(vs.take(k)),
    decreases vs.len() - k,
{
    if k < vs.len() {
        assert(vs.take(k + 1).drop_last() =~= vs.take(k));
        lemma_values_error_persists(vs, k + 1);
    } else {
        assert(vs.take(k) =~= vs);
    }
}

fn render_join(join: &Join) -> (r: Result<String, PlanError>)
    ensures
        agrees(r, render_join_spec(join.view())),
{
    let table = render_identifier(join.table.name.as_str())?;
    let on = render_expr(&join.on)?;
    let mut out = owned("JOIN ");
    push_str(&mut out, table.as_str());
    push_str(&mut out, " ON ");
    push_str(&mut out, on.as_str());
    Ok(out)
}

fn render_order_by(clauses: &Vec<OrderBy>) -> (r: Result<String, PlanError>)
    ensures
        agrees(r, render_orders(clauses@.map_values(|o: OrderBy| o.view()))),
{
    let ghost ov = clauses@.map_values(|o: OrderBy| o.view());
    let mut out = String::new();
    let mut k: usize = 0;
    while k < clauses.len()
        invariant
            k <= clauses.len(),
            ov == clauses@.map_values(|o: OrderBy| o.view()),
            render_orders(ov.take(k as int)) == Ok::<Seq<char>, Seq<char>>(out@),
        decreases clauses.len() - k,
    {
        assert(ov.take(k + 1).drop_last() =~= ov.take(k as int));
        let clause = &clauses[k];
        let column = match render_identifier(clause.column.as_str()) {
            Ok(c) => c,
            Err(e) => {
                proof {
                    lemma_orders_error_persists(ov, k as int + 1);
                }
                return Err(e);
            },
        };
        let ghost before = out@;
        if k > 0 {
            push_str(&mut out, ", ");
        }
        push_str(&mut out, column.as_str());
        push_str(&mut out, " ");
        match clause.direction {
            OrderDirection::Asc => push_str(&mut out, "ASC"),
            OrderDirection::Desc => push_str(&mut out, "DESC"),
        }
        proof {
            let item = column@ + " "@ + direction_text(clause.direction);
            assert(render_order_item(ov[k as int]) == Ok::<Seq<char>, Seq<char>>(item));
            if k > 0 {
                assert(out@ =~= before + ", "@ + item);
            } else {
                assert(out@ =~= item);
            }
        }
        k = k + 1;
    }
    assert(ov.take(k as int) =~= ov);
    Ok(out)
}

fn render_expr(expr: &Expr) -> (r: Result<String, PlanError>)
    ensures
        agrees(r, render_expr_spec(expr.view())),
    decreases expr,
{
    match expr {
        Expr::Identifier(identifier) => render_identifier(identifier.as_str()),
        Expr::Literal(literal) => Ok(render_literal(literal)),
        Expr::Unary { operator, expr } => {
            let inner = render_expr(expr)?;
            let mut out = owned("NOT (");
            push_str(&mut out, inner.as_str());
            push_str(&mut out, ")");
            Ok(out)
        },
        Expr::Binary { left, operator, right } => {
            let a = render_expr(left)?;
            let b = render_expr(right)?;
            let mut out = owned("(");
            push_str(&mut out, a.as_str());
            push_str(&mut out, " ");
            push_str(&mut out, render_binary_operator(operator));
            push_str(&mut out, " ");
            push_str(&mut out, b.as_str());
            push_str(&mut out, ")");
            Ok(out)
        },
        Expr::InList { expr, values, negated } => {
            proof {
                lemma_views_of(values@);
            }
            if values.len() == 0 {
                return Err(PlanError { message: owned("empty IN lists are not supported") });
            }
            let joined = render_value_list(values)?;
            let inner = render_expr(expr)?;
            let mut out = owned("(");
            push_str(&mut out, inner.as_str());
            if *negated {
                push_str(&mut out, " NOT");
            }
            push_str(&mut out, " IN (");
            push_str(&mut out, joined.as_str());
            push_str(&mut out, "))");
            Ok(out)
        },
    }
}

fn render_value_list(values: &Vec<Expr>) -> (r: Result<String, PlanError>)
    ensures
        agrees(r, render_values(Expr::views_of(values@))),
    decreases values,
{
    let ghost vv = Expr::views_of(values@);
    proof {
        lemma_views_of(values@);
    }
    let mut joined = String::new();
    let mut k: usize = 0;
    while k < values.len()
        invariant
            k <= values.len(),
            vv == Expr::views_of(values@),
            vv.len() == values.len(),
            forall|i: int| 0 <= i < values.len() ==> #[trigger] vv[i] == values@[i].view(),
            render_values(vv.take(k as int)) == Ok::<Seq<char>, Seq<char>>(joined@),
        decreases values.len() - k,
    {
        assert(vv.take(k + 1).drop_last() =~= vv.take(k as int));
        assert(vv.take(k + 1).last() == values@[k as int].view());
        assert(decreases_to!(values => values@[k as int]));
        let part = match render_expr(&values[k]) {
            Ok(part) => part,
            Err(e) => {
                proof {
                    lemma_values_error_persists(vv, k as int + 1);
                }
                return Err(e);
            },
        };
        let ghost before = joined@;
        if k > 0 {
            push_str(&mut joined, ", ");
        }
        push_str(&mut joined, part.as_str());
        proof {
            if k > 0 {
                assert(joined@ =~= before + ", "@ + part@);
            } else {
                assert(joined@ =~= part@);
            }
        }
        k = k + 1;
    }
    assert(vv.take(k as int) =~= vv);
    Ok(joined)
}

fn render_binary_operator(operator: &BinaryOperator) -> (r: &'static str)
    ensures
        r@ == operator_text(*operator),
{
    match operator {
        BinaryOperator::Eq => "=",
        BinaryOperator::NotEq => "!=",
        BinaryOperator::Gt => ">",
        BinaryOperator::Lt => "<",
        BinaryOperator::Gte => ">=",
        BinaryOperator::Lte => "<=",
        BinaryOperator::And => "AND",
        BinaryOperator::Or => "OR",
        BinaryOperator::Like => "LIKE",
    }
}

/// The decimal digits of `n`.
pub fn decimal_string(n: u64) -> (r: String)
    ensures
        r@ == decimal(n as nat),
    decreases n,
{
    if n < 10 {
        let mut r = String::new();
        push_char(&mut r, ((n as u8) + 48u8) as char);
        r
    } else {
        let mut r = decimal_string(n / 10);
        push_char(&mut r, (((n % 10) as u8) + 48u8) as char);
        r
    }
}

fn render_literal(literal: &Literal) -> (r: String)
    ensures
        r@ == render_literal_spec(literal.view()),
{
    match literal {
        Literal::Integer(value) => decimal_string(*value),
        Literal::String(value) => {
            let v = chars_of(value.as_str());
            let mut out = String::new();
            push_char(&mut out, '\'');
            let mut k: usize = 0;
            while k < v.len()
                invariant
                    k <= v.len(),
                    v@ == value@,
                    out@ == seq!['\''] + escape_quotes(v@.take(k as int)),
                decreases v.len() - k,
            {
                assert(v@.take(k + 1).drop_last() =~= v@.take(k as int));
                if v[k] == '\'' {
                    push_char(&mut out, '\'');
                    push_char(&mut out, '\'');
                } else {
                    push_char(&mut out, v[k]);
                }
                k = k + 1;
            }
            assert(v@.take(k as int) =~= v@);
            push_char(&mut out, '\'');
            out
        },
    }
}

/// Checks a dotted identifier path: `Ok` with the path unchanged where every
/// segment is an identifier, else `invalid identifier: <path>`.
pub fn render_identifier(identifier: &str) -> (r: Result<String, PlanError>)
    ensures
        agrees(r, render_ident(identifier@)),
{
    if is_valid_path(identifier) {
        Ok(owned(identifier))
    } else {
        let mut message = owned("invalid identifier: ");
        push_str(&mut message, identifier);
        Err(PlanError { message })
    }
}

fn is_ident_start_char(c: char) -> (r: bool)
    ensures
        r == is_ident_start(c),
{
    ('a' <= c && c <= 'z') || ('A' <= c && c <= 'Z') || c == '_'
}

fn is_ident_continue_char(c: char) -> (r: bool)
    ensures
        r == is_ident_continue(c),
{
    is_ident_start_char(c) || ('0' <= c && c <= '9')
}

/// Whether one dot-free segment is an identifier.
pub fn is_valid_identifier(segment: &str) -> (r: bool)
    ensures
        r == (segment@.len() > 0 && is_ident_start(segment@[0]) && forall|i: int|
            0 <= i < segment@.len() ==> is_ident_continue(#[trigger] segment@[i])),
{
    let v = chars_of(segment);
    if v.len() == 0 || !is_ident_start_char(v[0]) {
        return false;
    }
    let mut k: usize = 0;
    while k < v.len()
        invariant
            k <= v.len(),
            v@ == segment@,
            forall|i: int| 0 <= i < k ==> is_ident_continue(#[trigger] v@[i]),
        decreases v.len() - k,
    {
        if !is_ident_continue_char(v[k]) {
            return false;
        }
        k = k + 1;
    }
    true
}

fn is_valid_path(s: &str) -> (r: bool)
    ensures
        r == valid_path(s@),
{
    let v = chars_of(s);
    if v.len() == 0 || !is_ident_start_char(v[0]) {
        return false;
    }
    let mut k: usize = 0;
    while k < v.len()
        invariant
            k <= v.len(),
            v@ == s@,
            v@.len() > 0,
            is_ident_start(v@[0]),
            forall|i: int| 0 <= i < k ==> v@[i] == '.' || is_ident_continue(#[trigger] v@[i]),
            forall|i: int|
                0 <= i < k && #[trigger] v@[i] == '.' ==> i + 1 < v@.len() && is_ident_start(
                    v@[i + 1],
                ),
        decreases v.len() - k,
    {
        let c = v[k];
        if c == '.' {
            if k + 1 >= v.len() || !is_ident_start_char(v[k + 1]) {
                return false;
            }
        } else if !is_ident_continue_char(c) {
            return false;
        }
        k = k + 1;
    }
    true
}

/// Escaping a text that starts with `c` escapes `c`, then the rest.
proof fn lemma_escape_front(c: char, rest: Seq<char>)
    ensures
        escape_quotes(seq![c] + rest) == (if c == '\'' {
            seq!['\'', '\'']
        } else {
            seq![c]
        }) + escape_quotes(rest),
    decreases rest.len(),
{
    let w = seq![c] + rest;
    let head = if c == '\'' {
        seq!['\'', '\'']
    } else {
        seq![c]
    };
    if rest.len() == 0 {
        assert(w =~= seq![c]);
        assert(w.drop_last() =~= Seq::<char>::empty());
        assert(w.last() == c);
        assert(escape_quotes(Seq::<char>::empty()) =~= Seq::<char>::empty());
        assert(escape_quotes(rest) =~= Seq::<char>::empty());
        assert(escape_quotes(w) =~= head);
        assert(head + escape_quotes(rest) =~= head);
    } else {
        lemma_escape_front(c, rest.drop_last());
        assert(w.drop_last() =~= seq![c] + rest.drop_last());
        assert(w.last() == rest.last());
        let head = if c == '\'' {
            seq!['\'', '\'']
        } else {
            seq![c]
        };
        if rest.last() == '\'' {
            assert(escape_quotes(w) =~= head + escape_quotes(rest));
        } else {
            assert(escape_quotes(w) =~= head + escape_quotes(rest));
        }
    }
}

/// The lexer reads an escaped text back up to its closing quote.
pub(crate) proof fn lemma_string_end_escaped(x: Seq<char>, s: Seq<char>, y: Seq<char>)
    requires
        y.len() == 0 || y[0] != '\'',
    ensures
        crate::lexer::string_end(x + escape_quotes(s) + seq!['\''] + y, x.len() as int) == Some(
            (s, (x.len() + escape_quotes(s).len() + 1) as int),
        ),
    decreases s.len(),
{
    let w = x + escape_quotes(s) + seq!['\''] + y;
    let i = x.len() as int;
    if s.len() == 0 {
        assert(escape_quotes(s) =~= Seq::<char>::empty());
        assert(w[i] == '\'');
        if i + 1 < w.len() {
            assert(w[i + 1] == y[0]);
        }
    } else {
        let c = s[0];
        let rest = s.drop_first();
        assert(s =~= seq![c] + rest);
        lemma_escape_front(c, rest);
        if c == '\'' {
            let x2 = x + seq!['\'', '\''];
            assert(w =~= x2 + escape_quotes(rest) + seq!['\''] + y);
            lemma_string_end_escaped(x2, rest, y);
            assert(w[i] == '\'' && w[i + 1] == '\'');
            assert(seq!['\''] + rest =~= s);
        } else {
            let x2 = x + seq![c];
            assert(w =~= x2 + escape_quotes(rest) + seq!['\''] + y);
            lemma_string_end_escaped(x2, rest, y);
            assert(w[i] == c);
            assert(seq![c] + rest =~= s);
        }
    }
}

/// Reading back a rendered string literal gives one string token holding
/// exactly the text it was made from.
pub proof fn lemma_string_literal_reads_back(s: Seq<char>)
    ensures
        crate::lexer::lex_spec(render_literal_spec(LiteralV::Text(s))) == Ok::<
            Seq<crate::lexer::TokenV>,
            int,
        >(seq![crate::lexer::TokenV { kind: crate::lexer::KindV::Text(s), start: 0 }]),
{
    let r = render_literal_spec(LiteralV::Text(s));
    lemma_string_end_escaped(seq!['\''], s, Seq::empty());
    assert(seq!['\''] + escape_quotes(s) + seq!['\''] + Seq::<char>::empty() =~= r);
    assert(r[0] == '\'');
    assert(!crate::text::is_space('\''));
    assert(crate::lexer::lex_from(r, r.len() as int) == Ok::<Seq<crate::lexer::TokenV>, int>(
        Seq::<crate::lexer::TokenV>::empty(),
    ));
    assert(seq![crate::lexer::TokenV { kind: crate::lexer::KindV::Text(s), start: 0 }] + Seq::<
        crate::lexer::TokenV,
    >::empty() =~= seq![crate::lexer::TokenV { kind: crate::lexer::KindV::Text(s), start: 0 }]);
}

/// A decimal digit written and read back is itself.
proof fn lemma_digit_char(d: nat)
    requires
        d < 10,
    ensures
        crate::lexer::is_digit(digit_char(d)),
        crate::lexer::digit_value(digit_char(d)) == d,
{
    let b = d as u8;
    assert(b == d);
    let c = (b + 48u8) as u8;
    assert(c == d + 48);
    assert(c as char as nat == c);
}

/// The digits of `n` read back as a number are `n`.
pub(crate) proof fn lemma_decimal_reads_back(n: nat)
    ensures
        crate::lexer::digits_value(decimal(n)) == n,
        forall|k: int| 0 <= k < decimal(n).len() ==> crate::lexer::is_digit(#[trigger] decimal(n)[k]),
        decimal(n).len() >= 1,
    decreases n,
{
    if n < 10 {
        lemma_digit_char(n);
        let d = decimal(n);
        assert(d.drop_last() =~= Seq::<char>::empty());
        assert(d.last() == digit_char(n));
        assert(crate::lexer::digits_value(Seq::<char>::empty()) == 0);
        assert(crate::lexer::digits_value(d) == crate::lexer::digits_value(d.drop_last()) * 10
            + crate::lexer::digit_value(d.last()));
    } else {
        lemma_decimal_reads_back(n / 10);
        lemma_digit_char(n % 10);
        let d = decimal(n);
        assert(d.drop_last() =~= decimal(n / 10));
        assert(d.last() == digit_char(n % 10));
        assert(crate::lexer::digits_value(d) == crate::lexer::digits_value(d.drop_last()) * 10
            + crate::lexer::digit_value(d.last()));
        assert(n == (n / 10) * 10 + n % 10) by (nonlinear_arith);
        assert forall|k: int| 0 <= k < d.len() implies crate::lexer::is_digit(#[trigger] d[k]) by {
            if k < d.len() - 1 {
                assert(d[k] == decimal(n / 10)[k]);
            }
        }
    }
}

/// A run of digits from `i` to the end is read to the end.
proof fn lemma_digits_to_end(s: Seq<char>, i: int)
    requires
        0 <= i <= s.len(),
        forall|k: int| i <= k < s.len() ==> crate::lexer::is_digit(#[trigger] s[k]),
    ensures
        crate::lexer::digits_end(s, i) == s.len(),
    decreases s.len() - i,
{
    if i < s.len() {
        lemma_digits_to_end(s, i + 1);
    }
}

/// Reading back a rendered integer literal gives one integer token with the
/// same value.
pub proof fn lemma_integer_literal_reads_back(n: u64)
    ensures
        crate::lexer::lex_spec(render_literal_spec(LiteralV::Integer(n))) == Ok::<
            Seq<crate::lexer::TokenV>,
            int,
        >(seq![crate::lexer::TokenV { kind: crate::lexer::KindV::Integer(n), start: 0 }]),
{
    let r = render_literal_spec(LiteralV::Integer(n));
    lemma_decimal_reads_back(n as nat);
    assert(r == decimal(n as nat));
    lemma_digits_to_end(r, 1);
    assert(r.subrange(0, r.len() as int) =~= r);
    assert(crate::lexer::is_digit(r[0]));
    assert(!crate::text::is_space(r[0]));
    assert(!crate::lexer::is_ident_start(r[0]));
    assert(crate::lexer::lex_from(r, r.len() as int) == Ok::<Seq<crate::lexer::TokenV>, int>(
        Seq::<crate::lexer::TokenV>::empty(),
    ));
    assert(seq![crate::lexer::TokenV { kind: crate::lexer::KindV::Integer(n), start: 0 }] + Seq::<
        crate::lexer::TokenV,
    >::empty() =~= seq![crate::lexer::TokenV { kind: crate::lexer::KindV::Integer(n), start: 0 }]);
}

} // verus!
