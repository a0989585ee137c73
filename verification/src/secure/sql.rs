//! The statement builders of `sea_query` that secured queries are made with.
//!
//! A statement, a condition or an expression of `sea_query` is opaque here. What it is
//! made of has a name, `select_parts` for a `SELECT` and so on, and each builder call
//! says over those names what it adds and what it leaves alone.
//!
//! Values are bound to a statement and do not stand in its text. So each part also has its
//! form without them, and a builder call makes of such forms the form of its result.

use sea_orm::sea_query::{
    Alias, ColumnRef, CommonTableExpression, Condition, Expr, ExprTrait, JoinType, Order,
    SelectStatement, UnionType, Values, WithClause,
};
use sea_orm::StatementBuilder;
use vstd::prelude::*;

verus! {

/// A `SELECT`.
#[verifier::external_type_specification]
#[verifier::external_body]
pub struct ExSelectStatement(sea_orm::sea_query::SelectStatement);

/// A `WITH` clause.
#[verifier::external_type_specification]
#[verifier::external_body]
pub struct ExWithClause(sea_orm::sea_query::WithClause);

/// A condition of a `WHERE` or a join.
#[verifier::external_type_specification]
#[verifier::external_body]
pub struct ExCondition(sea_orm::sea_query::Condition);

/// A scalar expression.
#[verifier::external_type_specification]
#[verifier::external_body]
pub struct ExExpr(sea_orm::sea_query::Expr);

/// A column, bare or qualified by its table.
#[verifier::external_type_specification]
#[verifier::external_body]
pub struct ExColumnRef(sea_orm::sea_query::ColumnRef);

/// The direction of an `ORDER BY`.
#[verifier::external_type_specification]
#[verifier::external_body]
pub struct ExOrder(sea_orm::sea_query::Order);

/// The values that are bound to a statement.
#[verifier::external_type_specification]
#[verifier::external_body]
pub struct ExValues(sea_orm::sea_query::Values);

/// The database that a statement is rendered for.
#[derive(Clone, Copy, Debug, PartialEq, Eq, Structural)]
pub enum DbBackend {
    MySql,
    Postgres,
    Sqlite,
}

/// The form of an expression, as far as this crate builds any.
pub enum ExprShape {
    /// An integer that is bound to the statement.
    Number(int),
    /// A column, qualified by a table.
    Column { table: Seq<char>, column: Seq<char> },
    Sum(Expr, Expr),
    Equal(Expr, Expr),
    Less(Expr, Expr),
    /// Whatever else callers hand in.
    Other,
}

/// What an expression is made of.
pub struct ExprParts {
    pub shape: ExprShape,
    /// The expression with each value that is bound to the statement blanked to one of its
    /// type.
    pub blank: Expr,
    /// The databases that have a rendering for everything in it.
    pub backends: Set<DbBackend>,
}

/// What a condition is made of.
pub struct ConditionParts {
    /// The expressions of which all have to hold. Conjunctions within conjunctions are
    /// flattened; a disjunction or a negation is one expression.
    pub conjuncts: Seq<Expr>,
    /// The condition with each value that is bound to the statement blanked to one of its
    /// type.
    pub blank: Condition,
    /// The databases that have a rendering for everything in it.
    pub backends: Set<DbBackend>,
}

/// An item of a projection.
pub struct SelectItem {
    pub expr: Expr,
    pub alias: Option<Seq<char>>,
}

/// A join.
pub enum JoinPart {
    /// An inner join with a table, or with a CTE of that name, on conjuncts.
    Inner { table: Seq<char>, on: Seq<Expr> },
    /// A join of another type, or with something that is not a bare name.
    Other,
}

/// A query that is united with a `SELECT`.
pub enum UnionPart {
    All(SelectStatement),
    /// A union of another type.
    Other,
}

/// An item of an `ORDER BY`.
pub enum OrderPart {
    Column(ColumnRef, Order),
    /// An expression that is not a column, or one that says where nulls go.
    Other,
}

/// What a `SELECT` is made of.
#[verifier::ext_equal]
pub struct SelectParts {
    /// Whether duplicates of a row are dropped.
    pub distinct: bool,
    pub items: Seq<SelectItem>,
    pub joins: Seq<JoinPart>,
    /// The conjuncts of the `WHERE`.
    pub filters: Seq<Expr>,
    /// Whether the `WHERE` was written with `and_or_where`, to which no condition can be
    /// added.
    pub chained: bool,
    pub unions: Seq<UnionPart>,
    pub orders: Seq<OrderPart>,
    /// The limit, where it is an integer.
    pub limit: Option<u64>,
    /// The clauses that are not listed here.
    pub rest: SelectStatement,
    /// The whole select with each value that is bound to the statement blanked to one of its
    /// type.
    pub blank: SelectStatement,
    /// The databases that have a rendering for everything in it.
    pub backends: Set<DbBackend>,
}

/// What an order is made of.
pub struct OrderParts {
    pub direction: Direction,
    /// The databases on which it has a rendering: the values of an order by places are
    /// written into the text.
    pub backends: Set<DbBackend>,
}

/// Which rows come first.
pub enum Direction {
    Ascending,
    Descending,
    /// Those whose value is named first.
    Places,
}

/// A builder call on a select without values, with arguments without values.
pub enum SelectCall {
    ExprAs { expr: Expr, alias: Seq<char> },
    ClearSelects,
    Column { table: Seq<char>, column: Seq<char> },
    InnerJoin { table: Seq<char>, on: Condition },
    CondWhere(Condition),
    UnionAll(SelectStatement),
    Limit,
    Distinct,
    OrderBy(ColumnRef, Order),
}

/// A builder call that gives an expression, with operands without values.
pub enum ExprCall {
    /// A bound `i32`.
    Val,
    Col { table: Seq<char>, column: Seq<char> },
    Add(Expr, Expr),
    Equals { left: Expr, table: Seq<char>, column: Seq<char> },
    /// A comparison with a bound `u32`.
    Lt(Expr),
}

/// A definition of a `WITH` clause.
pub struct CtePart {
    pub name: Seq<char>,
    pub body: SelectStatement,
}

/// What a `WITH` clause is made of.
#[verifier::ext_equal]
pub struct WithParts {
    pub recursive: bool,
    /// The definitions, in the order in which they are written.
    pub ctes: Seq<CtePart>,
    /// Whether each definition is an `Alias` for its name and a `SELECT`, and the clause is
    /// nothing beyond its definitions.
    pub plain: bool,
    /// The databases that have a rendering for everything in it.
    pub backends: Set<DbBackend>,
}

/// What an expression is made of.
pub uninterp spec fn expr_parts(expr: Expr) -> ExprParts;

/// What a condition is made of.
pub uninterp spec fn condition_parts(condition: Condition) -> ConditionParts;

/// What a `SELECT` is made of.
pub uninterp spec fn select_parts(select: SelectStatement) -> SelectParts;

/// What a `WITH` clause is made of.
pub uninterp spec fn with_parts(clause: WithClause) -> WithParts;

/// What an order is made of.
pub uninterp spec fn order_parts(order: Order) -> OrderParts;

/// The select that a builder call makes of a select, values left out on both sides.
pub uninterp spec fn select_made(select: SelectStatement, call: SelectCall) -> SelectStatement;

/// The expression that a builder call gives, values left out.
pub uninterp spec fn expr_made(call: ExprCall) -> Expr;

/// The condition that `Condition::from` makes of an expression, values left out.
pub uninterp spec fn condition_made(expr: Expr) -> Condition;

/// What `QueryBuilder::prepare_select_statement` writes for a `SELECT` without values behind
/// `bound` values that are bound already, and how many values are bound then.
pub uninterp spec fn select_rendered(
    select: SelectStatement,
    backend: DbBackend,
    bound: nat,
) -> (Seq<char>, nat);

/// The values that `StatementBuilder::build` binds to a `SELECT` with a `WITH` clause.
pub uninterp spec fn bound_values(
    outer: SelectStatement,
    clause: WithClause,
    backend: DbBackend,
) -> Values;

/// Whether `text` starts with `start`.
pub open spec fn starts_with(text: Seq<char>, start: Seq<char>) -> bool {
    start.is_prefix_of(text)
}

/// `name` with every `quote` in it doubled.
pub open spec fn doubled(name: Seq<char>, quote: char) -> Seq<char>
    decreases name.len(),
{
    if name.len() == 0 {
        name
    } else if name[0] == quote {
        seq![quote, quote] + doubled(name.drop_first(), quote)
    } else {
        seq![name[0]] + doubled(name.drop_first(), quote)
    }
}

/// `name` as a quoted identifier.
pub open spec fn quoted(name: Seq<char>, quote: char) -> Seq<char> {
    seq![quote] + doubled(name, quote) + seq![quote]
}

/// The quote around the identifiers of a database.
pub open spec fn quote_of(backend: DbBackend) -> char {
    match backend {
        DbBackend::MySql => '`',
        DbBackend::Postgres => '"',
        DbBackend::Sqlite => '"',
    }
}

/// How a statement with a `WITH` clause opens.
pub open spec fn opening(recursive: bool) -> Seq<char> {
    if recursive {
        "WITH RECURSIVE "@
    } else {
        "WITH "@
    }
}

/// How a definition opens: its name as a quoted identifier, behind a comma where it is not
/// the first.
pub open spec fn definition_opening(name: Seq<char>, first: bool, backend: DbBackend) -> Seq<
    char,
> {
    (if first {
        ""@
    } else {
        ", "@
    }) + quoted(name, quote_of(backend)) + " AS ("@
}

/// The definitions of a clause, one behind the other, and how many values they bind.
pub open spec fn definitions_rendered(ctes: Seq<CtePart>, backend: DbBackend) -> (Seq<char>, nat)
    decreases ctes.len(),
{
    if ctes.len() == 0 {
        (Seq::<char>::empty(), 0)
    } else {
        let (before, bound) = definitions_rendered(ctes.drop_last(), backend);
        let (body, bound) = select_rendered(
            select_parts(ctes.last().body).blank,
            backend,
            bound,
        );
        (
            before + definition_opening(ctes.last().name, ctes.len() == 1, backend) + body
                + ") "@,
            bound,
        )
    }
}

/// A `SELECT` with a `WITH` clause: the opening, the definitions in their order, and the
/// outer query behind all of them.
pub open spec fn statement_text(
    outer: SelectStatement,
    clause: WithParts,
    backend: DbBackend,
) -> Seq<char> {
    let (definitions, bound) = definitions_rendered(clause.ctes, backend);
    opening(clause.recursive) + definitions + select_rendered(
        select_parts(outer).blank,
        backend,
        bound,
    ).0
}

/// Calls `Expr::val` on an `i32`: an integer bound to the statement, which every database
/// has.
#[verifier::external_body]
pub(crate) fn expr_val(n: i32) -> (expr: Expr)
    ensures
        expr_parts(expr).shape == ExprShape::Number(n as int),
        expr_parts(expr).blank == expr_made(ExprCall::Val),
        expr_parts(expr).backends == Set::<DbBackend>::full(),
{
    Expr::val(n)
}

/// Calls `Expr::col` on a table and a column: that column, which every database has.
#[verifier::external_body]
pub(crate) fn expr_col(table: &str, column: &str) -> (expr: Expr)
    ensures
        expr_parts(expr).shape == (ExprShape::Column { table: table@, column: column@ }),
        expr_parts(expr).blank == expr_made(ExprCall::Col { table: table@, column: column@ }),
        expr_parts(expr).backends == Set::<DbBackend>::full(),
{
    Expr::col((Alias::new(table), Alias::new(column)))
}

/// Calls `ExprTrait::add`: the sum, on the databases that have both operands.
#[verifier::external_body]
pub(crate) fn expr_add(left: Expr, right: Expr) -> (expr: Expr)
    ensures
        expr_parts(expr).shape == ExprShape::Sum(left, right),
        expr_parts(expr).blank == expr_made(
            ExprCall::Add(expr_parts(left).blank, expr_parts(right).blank),
        ),
        expr_parts(expr).backends == expr_parts(left).backends.intersect(
            expr_parts(right).backends,
        ),
{
    left.add(right)
}

/// Calls `ExprTrait::equals` on a table and a column: the equation of the expression with
/// that column, on the databases that have the expression.
#[verifier::external_body]
pub(crate) fn expr_equals(left: Expr, table: &str, column: &str) -> (expr: Expr)
    ensures
        expr_parts(expr).shape is Equal,
        expr_parts(expr).shape->Equal_0 == left,
        expr_parts(expr_parts(expr).shape->Equal_1).shape == (ExprShape::Column {
            table: table@,
            column: column@,
        }),
        expr_parts(expr).blank == expr_made(
            ExprCall::Equals {
                left: expr_parts(left).blank,
                table: table@,
                column: column@,
            },
        ),
        expr_parts(expr).backends == expr_parts(left).backends,
{
    left.equals((Alias::new(table), Alias::new(column)))
}

/// Calls `ExprTrait::lt` on a `u32`: the comparison of the expression with that integer,
/// on the databases that have the expression.
#[verifier::external_body]
pub(crate) fn expr_lt(left: Expr, n: u32) -> (expr: Expr)
    ensures
        expr_parts(expr).shape is Less,
        expr_parts(expr).shape->Less_0 == left,
        expr_parts(expr_parts(expr).shape->Less_1).shape == ExprShape::Number(n as int),
        expr_parts(expr).blank == expr_made(ExprCall::Lt(expr_parts(left).blank)),
        expr_parts(expr).backends == expr_parts(left).backends,
{
    left.lt(n)
}

/// Calls `Condition::from` on an expression: that expression is the one conjunct.
#[verifier::external_body]
pub(crate) fn condition_from(expr: Expr) -> (condition: Condition)
    ensures
        condition_parts(condition).conjuncts == seq![expr],
        condition_parts(condition).blank == condition_made(expr_parts(expr).blank),
        condition_parts(condition).backends == expr_parts(expr).backends,
{
    Condition::from(expr)
}

/// Calls `SelectStatement::expr_as`: appends an item with an alias.
#[verifier::external_body]
pub(crate) fn select_expr_as(select: &mut SelectStatement, expr: Expr, alias: &str)
    ensures
        select_parts(*final(select)) == (SelectParts {
            items: select_parts(*old(select)).items.push(
                SelectItem { expr, alias: Some(alias@) },
            ),
            blank: select_made(
                select_parts(*old(select)).blank,
                SelectCall::ExprAs { expr: expr_parts(expr).blank, alias: alias@ },
            ),
            backends: select_parts(*old(select)).backends.intersect(expr_parts(expr).backends),
            ..select_parts(*old(select))
        }),
{
    select.expr_as(expr, Alias::new(alias));
}

/// Calls `SelectStatement::clear_selects`: drops every item. What is left may be there on
/// more databases.
#[verifier::external_body]
pub(crate) fn select_clear_selects(select: &mut SelectStatement)
    ensures
        select_parts(*final(select)) == (SelectParts {
            items: Seq::<SelectItem>::empty(),
            blank: select_made(
                select_parts(*old(select)).blank,
                SelectCall::ClearSelects,
            ),
            backends: select_parts(*final(select)).backends,
            ..select_parts(*old(select))
        }),
        select_parts(*old(select)).backends.subset_of(select_parts(*final(select)).backends),
{
    select.clear_selects();
}

/// Calls `SelectStatement::column` on a table and a column: appends that column as an item
/// without an alias.
#[verifier::external_body]
pub(crate) fn select_column(select: &mut SelectStatement, table: &str, column: &str)
    ensures
        select_parts(*final(select)).items.len() > 0,
        select_parts(*final(select)) == (SelectParts {
            items: select_parts(*old(select)).items.push(
                select_parts(*final(select)).items.last(),
            ),
            blank: select_made(
                select_parts(*old(select)).blank,
                SelectCall::Column { table: table@, column: column@ },
            ),
            ..select_parts(*old(select))
        }),
        select_parts(*final(select)).items.last().alias is None,
        expr_parts(select_parts(*final(select)).items.last().expr).shape == (ExprShape::Column {
            table: table@,
            column: column@,
        }),
{
    select.column((Alias::new(table), Alias::new(column)));
}

/// Calls `SelectStatement::join` with `JoinType::InnerJoin` on a bare name: appends that
/// join.
#[verifier::external_body]
pub(crate) fn select_inner_join(select: &mut SelectStatement, table: &str, on: Condition)
    ensures
        select_parts(*final(select)) == (SelectParts {
            joins: select_parts(*old(select)).joins.push(
                JoinPart::Inner { table: table@, on: condition_parts(on).conjuncts },
            ),
            blank: select_made(
                select_parts(*old(select)).blank,
                SelectCall::InnerJoin { table: table@, on: condition_parts(on).blank },
            ),
            backends: select_parts(*old(select)).backends.intersect(
                condition_parts(on).backends,
            ),
            ..select_parts(*old(select))
        }),
{
    select.join(JoinType::InnerJoin, Alias::new(table), on);
}

/// Calls `SelectStatement::cond_where`: the conjuncts of the condition are added to those
/// of the `WHERE`. It panics on a `WHERE` that was written with `and_or_where`.
#[verifier::external_body]
pub(crate) fn select_cond_where(select: &mut SelectStatement, condition: Condition)
    requires
        !select_parts(*old(select)).chained,
    ensures
        select_parts(*final(select)) == (SelectParts {
            filters: select_parts(*old(select)).filters + condition_parts(condition).conjuncts,
            blank: select_made(
                select_parts(*old(select)).blank,
                SelectCall::CondWhere(condition_parts(condition).blank),
            ),
            backends: select_parts(*old(select)).backends.intersect(
                condition_parts(condition).backends,
            ),
            ..select_parts(*old(select))
        }),
{
    select.cond_where(condition);
}

/// Calls `SelectStatement::and_where`: the expression is added to the conjuncts of the
/// `WHERE`. It panics on a `WHERE` that was written with `and_or_where`.
#[verifier::external_body]
pub(crate) fn select_and_where(select: &mut SelectStatement, expr: Expr)
    requires
        !select_parts(*old(select)).chained,
    ensures
        select_parts(*final(select)) == (SelectParts {
            filters: select_parts(*old(select)).filters.push(expr),
            blank: select_made(
                select_parts(*old(select)).blank,
                SelectCall::CondWhere(condition_made(expr_parts(expr).blank)),
            ),
            backends: select_parts(*old(select)).backends.intersect(expr_parts(expr).backends),
            ..select_parts(*old(select))
        }),
{
    select.and_where(expr);
}

/// Calls `SelectStatement::union` with `UnionType::All`: appends that union.
#[verifier::external_body]
pub(crate) fn select_union_all(select: &mut SelectStatement, other: SelectStatement)
    ensures
        select_parts(*final(select)) == (SelectParts {
            unions: select_parts(*old(select)).unions.push(UnionPart::All(other)),
            blank: select_made(
                select_parts(*old(select)).blank,
                SelectCall::UnionAll(select_parts(other).blank),
            ),
            backends: select_parts(*old(select)).backends.intersect(
                select_parts(other).backends,
            ),
            ..select_parts(*old(select))
        }),
{
    select.union(UnionType::All, other);
}

/// Calls `SelectStatement::limit`: the limit is replaced.
#[verifier::external_body]
pub(crate) fn select_limit(select: &mut SelectStatement, limit: u64)
    ensures
        select_parts(*final(select)) == (SelectParts {
            limit: Some(limit),
            blank: select_made(select_parts(*old(select)).blank, SelectCall::Limit),
            ..select_parts(*old(select))
        }),
{
    select.limit(limit);
}

/// Calls `SelectStatement::distinct`: duplicates are dropped.
#[verifier::external_body]
pub(crate) fn select_distinct(select: &mut SelectStatement)
    ensures
        select_parts(*final(select)) == (SelectParts {
            distinct: true,
            blank: select_made(select_parts(*old(select)).blank, SelectCall::Distinct),
            ..select_parts(*old(select))
        }),
{
    select.distinct();
}

/// Gives `Order::Asc`: ascending, which holds no values and is there on every database.
#[verifier::external_body]
pub(crate) fn order_asc() -> (order: Order)
    ensures
        order_parts(order) == (OrderParts {
            direction: Direction::Ascending,
            backends: Set::<DbBackend>::full(),
        }),
{
    Order::Asc
}

/// Gives `Order::Desc`: descending, which holds no values and is there on every database.
#[verifier::external_body]
pub(crate) fn order_desc() -> (order: Order)
    ensures
        order_parts(order) == (OrderParts {
            direction: Direction::Descending,
            backends: Set::<DbBackend>::full(),
        }),
{
    Order::Desc
}

/// Calls `SelectStatement::order_by`: appends that order. An order by the places of values
/// writes them into the text, and rendering panics on some.
#[verifier::external_body]
pub(crate) fn select_order_by(select: &mut SelectStatement, column: ColumnRef, order: Order)
    ensures
        select_parts(*final(select)) == (SelectParts {
            orders: select_parts(*old(select)).orders.push(OrderPart::Column(column, order)),
            blank: select_made(
                select_parts(*old(select)).blank,
                SelectCall::OrderBy(column, order),
            ),
            backends: select_parts(*old(select)).backends.intersect(
                order_parts(order).backends,
            ),
            ..select_parts(*old(select))
        }),
{
    select.order_by(column, order);
}

/// Calls `WithClause::new`: no definition yet.
#[verifier::external_body]
pub(crate) fn with_new() -> (clause: WithClause)
    ensures
        with_parts(clause) == (WithParts {
            recursive: false,
            ctes: Seq::<CtePart>::empty(),
            plain: true,
            backends: Set::<DbBackend>::full(),
        }),
{
    WithClause::new()
}

/// Calls `WithClause::recursive`: the clause is recursive.
#[verifier::external_body]
pub(crate) fn with_recursive(clause: &mut WithClause)
    ensures
        with_parts(*final(clause)) == (WithParts {
            recursive: true,
            ..with_parts(*old(clause))
        }),
{
    clause.recursive(true);
}

/// Calls `WithClause::cte` on a `CommonTableExpression` with an `Alias` for its name and a
/// query: appends that definition.
#[verifier::external_body]
pub(crate) fn with_cte(clause: &mut WithClause, name: &str, body: SelectStatement)
    ensures
        with_parts(*final(clause)) == (WithParts {
            ctes: with_parts(*old(clause)).ctes.push(CtePart { name: name@, body }),
            backends: with_parts(*old(clause)).backends.intersect(select_parts(body).backends),
            ..with_parts(*old(clause))
        }),
{
    let mut cte = CommonTableExpression::new();
    cte.table_name(Alias::new(name)).query(body);
    clause.cte(cte);
}

/// Calls `SelectStatement::with` on copies of both, and `StatementBuilder::build` on what
/// comes out.
///
/// The text is the opening, then each definition as its quoted name, `AS` and its body in
/// brackets, then the outer query. How a `SELECT` reads has a name, and so have the values:
/// they are bound, and the text does not depend on them. Rendering panics without a
/// definition, and on a database that has no rendering for something in the query.
#[verifier::external_body]
pub(crate) fn render(
    outer: &SelectStatement,
    clause: &WithClause,
    backend: DbBackend,
) -> (statement: (String, Option<Values>))
    requires
        with_parts(*clause).plain,
        with_parts(*clause).ctes.len() > 0,
        with_parts(*clause).backends.contains(backend),
        select_parts(*outer).backends.contains(backend),
    ensures
        statement.0@ == opening(with_parts(*clause).recursive) + definitions_rendered(
            with_parts(*clause).ctes,
            backend,
        ).0 + select_rendered(
            select_parts(*outer).blank,
            backend,
            definitions_rendered(with_parts(*clause).ctes, backend).1,
        ).0,
        statement.1 == Some(bound_values(*outer, *clause, backend)),
{
    let query = outer.clone().with(clause.clone());
    let backend = match backend {
        DbBackend::MySql => sea_orm::DbBackend::MySql,
        DbBackend::Postgres => sea_orm::DbBackend::Postgres,
        DbBackend::Sqlite => sea_orm::DbBackend::Sqlite,
    };
    let statement = StatementBuilder::build(&query, &backend);
    (statement.sql, statement.values)
}

} // verus!
