//! Common table expressions (`WITH`) in secured queries.
//!
//! The body of a CTE is a select of its own, which the scope of the outer query does not
//! reach. So the scope is embedded in the body of every CTE: what a body selects from its
//! entity is already limited to the scope. In a recursive CTE both members carry it. In a
//! plain one the `WHERE` of the select that the caller's closure hands back does; a further
//! select that the closure unites with it keeps its own `WHERE` and gets no scope.
//!
//! That every body has the scope of its query is a matter of structure. A
//! [`SecureCteSelect`] comes from [`SecureSelect::with_ctes`] only, and each definition
//! that is registered on it is given *that query's* scope. No body with another scope can
//! be handed in, so there is nothing to compare and no error to return.
//!
//! A query with definitions is a type of its own, with its own way of being rendered, so
//! that the `WITH` clause cannot get lost on the way to the database.

use std::marker::PhantomData;
use std::sync::Arc;

use sea_orm::sea_query::{ColumnRef, Condition, Expr, Order, SelectStatement, Values, WithClause};
use vstd::prelude::*;

use crate::secure::select::{
    apply_scope, carries_scope, law_condition_gives_scope, law_narrowing_keeps_scope, narrowed,
    scope_rule, secure, ScopableEntity, Scoped, SecureSelect,
};
use crate::secure::sql::{
    bound_values, condition_from, condition_made, condition_parts, definitions_rendered, expr_add,
    expr_col, expr_equals, expr_lt, expr_made, expr_parts, expr_val, order_asc, order_desc,
    order_parts, render, select_and_where, select_clear_selects, select_column, select_cond_where,
    select_distinct, select_expr_as, select_inner_join, select_limit, select_made, select_order_by,
    select_parts, select_rendered, select_union_all, statement_text, with_cte, with_new,
    with_parts, with_recursive, ConditionParts, CtePart, DbBackend, Direction, ExprCall, ExprShape,
    JoinPart, OrderPart, OrderParts, SelectCall, SelectItem, SelectParts, UnionPart, WithParts,
};

verus! {

/// The column on which a recursive CTE carries the distance from its seed.
///
/// It stands in the body of every recursive CTE, because the cap on the depth has to be a
/// predicate of the recursive member. An entity with a column of this name would collide,
/// so the name is an unlikely one.
pub const DEPTH_COLUMN: &'static str = "__cte_depth";

/// A statement for one database.
pub struct Statement {
    pub sql: String,
    pub values: Option<Values>,
    pub db_backend: DbBackend,
}

/// A scoped query that carries `WITH` definitions.
///
/// Each definition is scoped with the scope of the query that it was begun from, so two
/// scopes in one statement cannot be written down.
#[must_use]
#[verifier::reject_recursive_types(S)]
pub struct SecureCteSelect<E, S> {
    /// The outer query, with the condition of the scope in it.
    outer: SelectStatement,
    with: WithClause,
    /// What every body is scoped with.
    scope: Arc<S>,
    /// How each definition is scoped.
    definitions: Ghost<Seq<Definition<S>>>,
    _entity: PhantomData<E>,
}

/// How a definition of a query is scoped.
#[verifier::reject_recursive_types(S)]
pub struct Definition<S> {
    /// Which conditions limit the rows of its entity to a scope.
    pub rule: spec_fn(S, Condition) -> bool,
    /// Whether it has a recursive member.
    pub recursive: bool,
}

/// A recursive CTE that walks a hierarchy of `J`.
///
/// Seed and recursive member both carry the scope of the outer query: the recursive member
/// reads the table of `J` itself, joined with the CTE, so that the condition applies to it
/// as it does to the seed.
///
/// Cycles are stopped by `max_depth` alone, which has no default: it stands as a predicate
/// in the recursive member, on every database.
///
/// The walk gives a row for every hop and drops no duplicates. There is no set of visited
/// rows: a row that is reached on two paths comes twice, the members of a cycle come again
/// until the cap stops the walk, and the number of paths grows with the branching to the
/// power of the depth. So it suits hierarchies that are bounded, sparse and acyclic.
#[must_use]
pub struct RecursiveCte<J> {
    name: &'static str,
    seed: Condition,
    child_col: String,
    parent_col: String,
    max_depth: u32,
    _entity: PhantomData<J>,
}

/// What a recursive CTE walks.
pub struct WalkPlan {
    pub name: Seq<char>,
    pub seed: Condition,
    pub child_col: Seq<char>,
    pub parent_col: Seq<char>,
    pub max_depth: nat,
}

impl<J> View for RecursiveCte<J> {
    type V = WalkPlan;

    closed spec fn view(&self) -> WalkPlan {
        WalkPlan {
            name: self.name@,
            seed: self.seed,
            child_col: self.child_col@,
            parent_col: self.parent_col@,
            max_depth: self.max_depth as nat,
        }
    }
}

impl<J> RecursiveCte<J> {
    /// The name of the column that carries the distance from the seed, to order or filter
    /// by from the outer query.
    pub const DEPTH_COLUMN: &'static str = DEPTH_COLUMN;

    /// Describes a walk over `J`.
    ///
    /// - `name`: what [`SecureCteSelect::join_cte`] calls the CTE.
    /// - `seed`: which rows start the walk. The scope comes on top of it.
    /// - `child_col`: the column in which a row points to its parent.
    /// - `parent_col`: the column that the pointer refers to.
    /// - `max_depth`: how many hops behind the seed to follow; 0 gives the seed only.
    pub fn new(
        name: &'static str,
        seed: Condition,
        child_col: String,
        parent_col: String,
        max_depth: u32,
    ) -> (plan: Self)
        ensures
            plan@ == (WalkPlan {
                name: name@,
                seed,
                child_col: child_col@,
                parent_col: parent_col@,
                max_depth: max_depth as nat,
            }),
    {
        RecursiveCte { name, seed, child_col, parent_col, max_depth, _entity: PhantomData }
    }
}

/// Whether an expression is the number `n`.
pub open spec fn is_number(expr: Expr, n: int) -> bool {
    expr_parts(expr).shape == ExprShape::Number(n)
}

/// Whether an expression is that column.
pub open spec fn is_column(expr: Expr, table: Seq<char>, column: Seq<char>) -> bool {
    expr_parts(expr).shape == (ExprShape::Column { table, column })
}

/// Whether an expression is the depth of a row of the CTE, plus one.
pub open spec fn is_next_depth(expr: Expr, name: Seq<char>) -> bool {
    &&& expr_parts(expr).shape is Sum
    &&& is_column(expr_parts(expr).shape->Sum_0, name, DEPTH_COLUMN@)
    &&& is_number(expr_parts(expr).shape->Sum_1, 1)
}

/// Whether an expression says that a row of the table points to a row of the CTE.
pub open spec fn is_link(expr: Expr, table: Seq<char>, plan: WalkPlan) -> bool {
    &&& expr_parts(expr).shape is Equal
    &&& is_column(expr_parts(expr).shape->Equal_0, table, plan.child_col)
    &&& is_column(expr_parts(expr).shape->Equal_1, plan.name, plan.parent_col)
}

/// Whether an expression says that the depth of a row of the CTE is below the cap.
pub open spec fn is_cap(expr: Expr, plan: WalkPlan) -> bool {
    &&& expr_parts(expr).shape is Less
    &&& is_column(expr_parts(expr).shape->Less_0, plan.name, DEPTH_COLUMN@)
    &&& is_number(expr_parts(expr).shape->Less_1, plan.max_depth as int)
}

/// The seed of a walk: what `find` selects, as far as the caller's predicate and the scope
/// reach, at depth zero.
pub open spec fn is_seed(
    seed: SelectParts,
    found: SelectParts,
    start: ConditionParts,
    scope: ConditionParts,
) -> bool {
    let asked = narrowed(narrowed(found, start), scope);
    &&& seed.items.len() == found.items.len() + 1
    &&& is_number(seed.items.last().expr, 0)
    &&& seed.items.last().alias == Some(DEPTH_COLUMN@)
    &&& seed == (SelectParts {
        items: found.items.push(seed.items.last()),
        blank: select_made(
            asked.blank,
            SelectCall::ExprAs { expr: expr_made(ExprCall::Val), alias: DEPTH_COLUMN@ },
        ),
        ..asked
    })
}

/// The recursive member of a walk: what `find` selects, as far as the scope reaches,
/// joined with the rows of the CTE that it points to and that are below the cap, one
/// deeper than those.
pub open spec fn is_step(
    step: SelectParts,
    found: SelectParts,
    table: Seq<char>,
    plan: WalkPlan,
    scope: ConditionParts,
) -> bool {
    let asked = narrowed(found, scope);
    &&& step.items.len() == found.items.len() + 1
    &&& is_next_depth(step.items.last().expr, plan.name)
    &&& step.items.last().alias == Some(DEPTH_COLUMN@)
    &&& step.joins.len() == found.joins.len() + 1
    &&& step.joins.last() matches JoinPart::Inner { table: joined, on } && joined == plan.name
        && on.len() == 1 && is_link(on[0], table, plan)
    &&& step.filters.len() == asked.filters.len() + 1
    &&& is_cap(step.filters.last(), plan)
    &&& step == (SelectParts {
        items: found.items.push(step.items.last()),
        joins: found.joins.push(step.joins.last()),
        filters: asked.filters.push(step.filters.last()),
        blank: step_blank(asked.blank, table, plan),
        ..asked
    })
}

/// The recursive member of a walk without values: the select with the next depth, the join
/// and the cap.
pub open spec fn step_blank(
    asked: SelectStatement,
    table: Seq<char>,
    plan: WalkPlan,
) -> SelectStatement {
    let depth = expr_made(ExprCall::Col { table: plan.name, column: DEPTH_COLUMN@ });
    let next = expr_made(ExprCall::Add(depth, expr_made(ExprCall::Val)));
    let child = expr_made(ExprCall::Col { table, column: plan.child_col });
    let link = expr_made(
        ExprCall::Equals { left: child, table: plan.name, column: plan.parent_col },
    );
    let cap = expr_made(ExprCall::Lt(depth));
    let deeper = select_made(asked, SelectCall::ExprAs { expr: next, alias: DEPTH_COLUMN@ });
    let joined = select_made(
        deeper,
        SelectCall::InnerJoin { table: plan.name, on: condition_made(link) },
    );
    select_made(joined, SelectCall::CondWhere(condition_made(cap)))
}

/// A seed and its recursive member, united without dropping duplicates.
pub open spec fn is_walk(
    body: SelectParts,
    seed: SelectStatement,
    step: SelectStatement,
) -> bool {
    body == (SelectParts {
        unions: select_parts(seed).unions.push(UnionPart::All(step)),
        blank: select_made(
            select_parts(seed).blank,
            SelectCall::UnionAll(select_parts(step).blank),
        ),
        backends: select_parts(seed).backends.intersect(select_parts(step).backends),
        ..select_parts(seed)
    })
}

/// Builds the seed of a walk from what `find` selects, the caller's predicate and the
/// condition of the scope.
pub fn walk_seed(found: SelectStatement, start: Condition, scope: Condition) -> (seed:
    SelectStatement)
    requires
        !select_parts(found).chained,
    ensures
        is_seed(
            select_parts(seed),
            select_parts(found),
            condition_parts(start),
            condition_parts(scope),
        ),
        select_parts(seed).distinct == select_parts(found).distinct,
        select_parts(seed).items.len() == select_parts(found).items.len() + 1,
        select_parts(seed).items == select_parts(found).items.push(select_parts(seed).items.last()),
        expr_parts(select_parts(seed).items.last().expr).shape == ExprShape::Number(0),
        select_parts(seed).items.last().alias == Some("__cte_depth"@),
        select_parts(seed).joins == select_parts(found).joins,
        select_parts(seed).filters
            == select_parts(found).filters + condition_parts(start).conjuncts
            + condition_parts(scope).conjuncts,
        select_parts(seed).chained == select_parts(found).chained,
        select_parts(seed).unions == select_parts(found).unions,
        select_parts(seed).orders == select_parts(found).orders,
        select_parts(seed).limit == select_parts(found).limit,
        select_parts(seed).rest == select_parts(found).rest,
        select_parts(seed).blank == select_made(
            select_made(
                select_made(select_parts(found).blank,
                    SelectCall::CondWhere(condition_parts(start).blank)),
                SelectCall::CondWhere(condition_parts(scope).blank),
            ),
            SelectCall::ExprAs { expr: expr_made(ExprCall::Val), alias: "__cte_depth"@ },
        ),
        select_parts(seed).backends
            == select_parts(found).backends.intersect(condition_parts(start).backends)
            .intersect(condition_parts(scope).backends),
{
    let mut narrow = found;
    select_cond_where(&mut narrow, start);
    let mut seed = apply_scope(narrow, scope);
    let ghost asked = select_parts(seed);
    select_expr_as(&mut seed, expr_val(0), DEPTH_COLUMN);
    assert(select_parts(seed).backends =~= asked.backends);
    seed
}

/// Builds the recursive member of a walk from what `find` selects and the condition of the
/// scope.
pub fn walk_step<J>(
    found: SelectStatement,
    table: &str,
    plan: &RecursiveCte<J>,
    scope: Condition,
) -> (step: SelectStatement)
    requires
        !select_parts(found).chained,
    ensures
        is_step(select_parts(step), select_parts(found), table@, plan@, condition_parts(scope)),
        select_parts(step).distinct == select_parts(found).distinct,
        select_parts(step).items.len() == select_parts(found).items.len() + 1,
        select_parts(step).items == select_parts(found).items.push(select_parts(step).items.last()),
        select_parts(step).items.last().alias == Some("__cte_depth"@),
        expr_parts(select_parts(step).items.last().expr).shape is Sum,
        expr_parts(expr_parts(select_parts(step).items.last().expr).shape->Sum_0).shape
            == (ExprShape::Column {
            table: plan@.name,
            column: "__cte_depth"@,
        }),
        expr_parts(expr_parts(select_parts(step).items.last().expr).shape->Sum_1).shape
            == ExprShape::Number(1),
        select_parts(step).joins.len() == select_parts(found).joins.len() + 1,
        select_parts(step).joins == select_parts(found).joins.push(select_parts(step).joins.last()),
        select_parts(step).joins.last() is Inner,
        select_parts(step).joins.last()->Inner_table == plan@.name,
        select_parts(step).joins.last()->Inner_on.len() == 1,
        expr_parts(select_parts(step).joins.last()->Inner_on[0]).shape is Equal,
        expr_parts(expr_parts(select_parts(step).joins.last()->Inner_on[0]).shape->Equal_0).shape
            == (ExprShape::Column { table: table@, column: plan@.child_col }),
        expr_parts(expr_parts(select_parts(step).joins.last()->Inner_on[0]).shape->Equal_1).shape
            == (ExprShape::Column { table: plan@.name, column: plan@.parent_col }),
        select_parts(step).filters.len()
            == select_parts(found).filters.len() + condition_parts(scope).conjuncts.len() + 1,
        select_parts(step).filters
            == (select_parts(found).filters + condition_parts(scope).conjuncts)
            .push(select_parts(step).filters.last()),
        expr_parts(select_parts(step).filters.last()).shape is Less,
        expr_parts(expr_parts(select_parts(step).filters.last()).shape->Less_0).shape
            == (ExprShape::Column {
            table: plan@.name,
            column: "__cte_depth"@,
        }),
        expr_parts(expr_parts(select_parts(step).filters.last()).shape->Less_1).shape
            == ExprShape::Number(
            plan@.max_depth as int,
        ),
        select_parts(step).chained == select_parts(found).chained,
        select_parts(step).unions == select_parts(found).unions,
        select_parts(step).orders == select_parts(found).orders,
        select_parts(step).limit == select_parts(found).limit,
        select_parts(step).rest == select_parts(found).rest,
        select_parts(step).blank == select_made(
            select_made(
                select_made(
                    select_made(select_parts(found).blank,
                        SelectCall::CondWhere(condition_parts(scope).blank)),
                    SelectCall::ExprAs {
                        expr: expr_made(
                            ExprCall::Add(
                                expr_made(
                                    ExprCall::Col { table: plan@.name, column: "__cte_depth"@ },
                                ),
                                expr_made(ExprCall::Val),
                            ),
                        ),
                        alias: "__cte_depth"@,
                    },
                ),
                SelectCall::InnerJoin {
                    table: plan@.name,
                    on: condition_made(
                        expr_made(
                            ExprCall::Equals {
                                left: expr_made(
                                    ExprCall::Col { table: table@, column: plan@.child_col },
                                ),
                                table: plan@.name,
                                column: plan@.parent_col,
                            },
                        ),
                    ),
                },
            ),
            SelectCall::CondWhere(
                condition_made(
                    expr_made(
                        ExprCall::Lt(
                            expr_made(
                                ExprCall::Col { table: plan@.name, column: "__cte_depth"@ },
                            ),
                        ),
                    ),
                ),
            ),
        ),
        select_parts(step).backends
            == select_parts(found).backends.intersect(condition_parts(scope).backends),
{
    let mut step = apply_scope(found, scope);
    let ghost asked = select_parts(step);
    let depth = expr_col(plan.name, DEPTH_COLUMN);
    select_expr_as(&mut step, expr_add(depth, expr_val(1)), DEPTH_COLUMN);
    let child = expr_col(table, plan.child_col.as_str());
    let link = expr_equals(child, plan.name, plan.parent_col.as_str());
    select_inner_join(&mut step, plan.name, condition_from(link));
    let depth = expr_col(plan.name, DEPTH_COLUMN);
    select_and_where(&mut step, expr_lt(depth, plan.max_depth));
    assert(select_parts(step).backends =~= asked.backends);
    step
}

/// Unites the seed of a walk with its recursive member.
pub fn walk_body(seed: SelectStatement, step: SelectStatement) -> (body: SelectStatement)
    ensures
        is_walk(select_parts(body), seed, step),
        select_parts(body).distinct == select_parts(seed).distinct,
        select_parts(body).items == select_parts(seed).items,
        select_parts(body).joins == select_parts(seed).joins,
        select_parts(body).filters == select_parts(seed).filters,
        select_parts(body).chained == select_parts(seed).chained,
        select_parts(body).unions == select_parts(seed).unions.push(UnionPart::All(step)),
        select_parts(body).orders == select_parts(seed).orders,
        select_parts(body).limit == select_parts(seed).limit,
        select_parts(body).rest == select_parts(seed).rest,
        select_parts(body).blank
            == select_made(
            select_parts(seed).blank,
            SelectCall::UnionAll(select_parts(step).blank),
        ),
        select_parts(body).backends
            == select_parts(seed).backends.intersect(select_parts(step).backends),
{
    let mut body = seed;
    select_union_all(&mut body, step);
    body
}

/// A `WITH` clause with one more definition.
pub open spec fn with_definition(
    clause: WithParts,
    name: Seq<char>,
    body: SelectStatement,
) -> WithParts {
    WithParts {
        ctes: clause.ctes.push(CtePart { name, body }),
        backends: clause.backends.intersect(select_parts(body).backends),
        ..clause
    }
}

/// The seed of a walk is what `find` selects: it asks what `find` asks, then what starts the
/// walk, then the scope, has the depth zero as its last item, and is what `find` selects in
/// everything else, its limit, its orders and its duplicates included.
pub proof fn law_seed_is_found_rows_at_depth_zero(
    seed: SelectParts,
    found: SelectParts,
    start: ConditionParts,
    scope: ConditionParts,
)
    requires
        is_seed(seed, found, start, scope),
    ensures
        seed.distinct == found.distinct,
        seed.items.len() == found.items.len() + 1,
        seed.items == found.items.push(seed.items.last()),
        expr_parts(seed.items.last().expr).shape == ExprShape::Number(0),
        seed.items.last().alias == Some("__cte_depth"@),
        seed.joins == found.joins,
        seed.filters == found.filters + start.conjuncts + scope.conjuncts,
        seed.chained == found.chained,
        seed.unions == found.unions,
        seed.orders == found.orders,
        seed.limit == found.limit,
        seed.rest == found.rest,
        seed.blank == select_made(
            select_made(
                select_made(found.blank, SelectCall::CondWhere(start.blank)),
                SelectCall::CondWhere(scope.blank),
            ),
            SelectCall::ExprAs { expr: expr_made(ExprCall::Val), alias: "__cte_depth"@ },
        ),
        seed.backends == found.backends.intersect(start.backends).intersect(scope.backends),
{
}

/// The recursive member of a walk is what `find` selects, joined with the CTE on the link
/// from a row to its parent: it asks what `find` asks, then the scope, then that the depth is
/// below the cap, has the next depth as its last item, and is what `find` selects in
/// everything else, its limit, its orders and its duplicates included.
pub proof fn law_step_is_found_rows_joined_with_walk(
    step: SelectParts,
    found: SelectParts,
    table: Seq<char>,
    plan: WalkPlan,
    scope: ConditionParts,
)
    requires
        is_step(step, found, table, plan, scope),
    ensures
        step.distinct == found.distinct,
        step.items.len() == found.items.len() + 1,
        step.items == found.items.push(step.items.last()),
        step.items.last().alias == Some("__cte_depth"@),
        expr_parts(step.items.last().expr).shape is Sum,
        expr_parts(expr_parts(step.items.last().expr).shape->Sum_0).shape == (ExprShape::Column {
            table: plan.name,
            column: "__cte_depth"@,
        }),
        expr_parts(expr_parts(step.items.last().expr).shape->Sum_1).shape == ExprShape::Number(1),
        step.joins.len() == found.joins.len() + 1,
        step.joins == found.joins.push(step.joins.last()),
        step.joins.last() is Inner,
        step.joins.last()->Inner_table == plan.name,
        step.joins.last()->Inner_on.len() == 1,
        expr_parts(step.joins.last()->Inner_on[0]).shape is Equal,
        expr_parts(expr_parts(step.joins.last()->Inner_on[0]).shape->Equal_0).shape
            == (ExprShape::Column { table: table, column: plan.child_col }),
        expr_parts(expr_parts(step.joins.last()->Inner_on[0]).shape->Equal_1).shape
            == (ExprShape::Column { table: plan.name, column: plan.parent_col }),
        step.filters.len() == found.filters.len() + scope.conjuncts.len() + 1,
        step.filters == (found.filters + scope.conjuncts).push(step.filters.last()),
        expr_parts(step.filters.last()).shape is Less,
        expr_parts(expr_parts(step.filters.last()).shape->Less_0).shape == (ExprShape::Column {
            table: plan.name,
            column: "__cte_depth"@,
        }),
        expr_parts(expr_parts(step.filters.last()).shape->Less_1).shape == ExprShape::Number(
            plan.max_depth as int,
        ),
        step.chained == found.chained,
        step.unions == found.unions,
        step.orders == found.orders,
        step.limit == found.limit,
        step.rest == found.rest,
        step.blank == select_made(
            select_made(
                select_made(
                    select_made(found.blank, SelectCall::CondWhere(scope.blank)),
                    SelectCall::ExprAs {
                        expr: expr_made(
                            ExprCall::Add(
                                expr_made(
                                    ExprCall::Col { table: plan.name, column: "__cte_depth"@ },
                                ),
                                expr_made(ExprCall::Val),
                            ),
                        ),
                        alias: "__cte_depth"@,
                    },
                ),
                SelectCall::InnerJoin {
                    table: plan.name,
                    on: condition_made(
                        expr_made(
                            ExprCall::Equals {
                                left: expr_made(
                                    ExprCall::Col { table: table, column: plan.child_col },
                                ),
                                table: plan.name,
                                column: plan.parent_col,
                            },
                        ),
                    ),
                },
            ),
            SelectCall::CondWhere(
                condition_made(
                    expr_made(
                        ExprCall::Lt(
                            expr_made(
                                ExprCall::Col { table: plan.name, column: "__cte_depth"@ },
                            ),
                        ),
                    ),
                ),
            ),
        ),
        step.backends == found.backends.intersect(scope.backends),
{
}

/// The body of a walk is its seed, with the recursive member united as it is and duplicates
/// kept: the union is the last one, and nothing else of the seed changes.
pub proof fn law_walk_adds_one_union(
    body: SelectParts,
    seed: SelectStatement,
    step: SelectStatement,
)
    requires
        is_walk(body, seed, step),
    ensures
        body.distinct == select_parts(seed).distinct,
        body.items == select_parts(seed).items,
        body.joins == select_parts(seed).joins,
        body.filters == select_parts(seed).filters,
        body.chained == select_parts(seed).chained,
        body.unions == select_parts(seed).unions.push(UnionPart::All(step)),
        body.orders == select_parts(seed).orders,
        body.limit == select_parts(seed).limit,
        body.rest == select_parts(seed).rest,
        body.blank
            == select_made(
            select_parts(seed).blank,
            SelectCall::UnionAll(select_parts(step).blank),
        ),
        body.backends == select_parts(seed).backends.intersect(select_parts(step).backends),
{
}

/// A definition is appended to a clause, and nothing else of the clause changes, but that it
/// is left to the databases that have the definition too.
pub proof fn law_definition_is_appended(clause: WithParts, name: Seq<char>, body: SelectStatement)
    ensures
        with_definition(clause, name, body).recursive == clause.recursive,
        with_definition(clause, name, body).plain == clause.plain,
        with_definition(clause, name, body).ctes == clause.ctes.push(CtePart { name, body }),
        forall|backend: DbBackend| #[trigger]
            with_definition(clause, name, body).backends.contains(backend)
                <==> clause.backends.contains(backend) && select_parts(body).backends.contains(
                backend,
            ),
{
}

/// Whether a body is the walk that `plan` describes over the table of `J`, with the
/// scope in its seed and in its recursive member.
pub open spec fn is_scoped_walk<J: ScopableEntity<S>, S>(
    scope: S,
    plan: WalkPlan,
    body: SelectStatement,
) -> bool {
    exists|
        table: String,
        seed_found: SelectStatement,
        seed_scope: Condition,
        seed: SelectStatement,
        step_found: SelectStatement,
        step_scope: Condition,
        step: SelectStatement,
    |
        {
            &&& call_ensures(J::table, (), table)
            &&& call_ensures(J::find, (), seed_found)
            &&& call_ensures(J::find, (), step_found)
            &&& call_ensures(J::build_scope_condition, (&scope,), seed_scope)
            &&& call_ensures(J::build_scope_condition, (&scope,), step_scope)
            &&& #[trigger] is_seed(
                select_parts(seed),
                select_parts(seed_found),
                condition_parts(plan.seed),
                condition_parts(seed_scope),
            )
            &&& #[trigger] is_step(
                select_parts(step),
                select_parts(step_found),
                table@,
                plan,
                condition_parts(step_scope),
            )
            &&& #[trigger] is_walk(select_parts(body), seed, step)
        }
}

/// What a recursive CTE registers, part by part. Its first member asks what `find` asks, then
/// the predicate of the plan, then the scope, at depth zero. Its recursive member asks what
/// `find` asks, then the scope, then the cap, one deeper than the row of the CTE that it is
/// joined with. Both are what `find` selects in everything else, and the body is the first
/// with the second united to it.
pub proof fn law_registered_walk_in_full<J: ScopableEntity<S>, S>(
    scope: S,
    plan: WalkPlan,
    body: SelectStatement,
)
    requires
        is_scoped_walk::<J, S>(scope, plan, body),
    ensures
        exists|
            table: String,
            seed_found: SelectStatement,
            seed_scope: Condition,
            seed: SelectStatement,
            step_found: SelectStatement,
            step_scope: Condition,
            step: SelectStatement,
        |
            {
                let whole = select_parts(body);
                let found = select_parts(seed_found);
                let start = condition_parts(plan.seed);
                let first_scope = condition_parts(seed_scope);
                let first = #[trigger] select_parts(seed);
                let found_again = select_parts(step_found);
                let next_scope = condition_parts(step_scope);
                let next = #[trigger] select_parts(step);
                &&& #[trigger] call_ensures(J::table, (), table)
                &&& #[trigger] call_ensures(J::find, (), seed_found)
                &&& #[trigger] call_ensures(J::find, (), step_found)
                &&& #[trigger] call_ensures(J::build_scope_condition, (&scope,), seed_scope)
                &&& #[trigger] call_ensures(J::build_scope_condition, (&scope,), step_scope)
                &&& first.distinct == found.distinct
                &&& first.items.len() == found.items.len() + 1
                &&& first.items == found.items.push(first.items.last())
                &&& expr_parts(first.items.last().expr).shape == ExprShape::Number(0)
                &&& first.items.last().alias == Some("__cte_depth"@)
                &&& first.joins == found.joins
                &&& first.filters == found.filters + start.conjuncts + first_scope.conjuncts
                &&& first.chained == found.chained
                &&& first.unions == found.unions
                &&& first.orders == found.orders
                &&& first.limit == found.limit
                &&& first.rest == found.rest
                &&& first.blank == select_made(
                    select_made(
                        select_made(found.blank, SelectCall::CondWhere(start.blank)),
                        SelectCall::CondWhere(first_scope.blank),
                    ),
                    SelectCall::ExprAs { expr: expr_made(ExprCall::Val), alias: "__cte_depth"@ },
                )
                &&& first.backends
                    == found.backends.intersect(start.backends).intersect(first_scope.backends)
                &&& next.distinct == found_again.distinct
                &&& next.items.len() == found_again.items.len() + 1
                &&& next.items == found_again.items.push(next.items.last())
                &&& next.items.last().alias == Some("__cte_depth"@)
                &&& expr_parts(next.items.last().expr).shape is Sum
                &&& expr_parts(expr_parts(next.items.last().expr).shape->Sum_0).shape
                    == (ExprShape::Column {
                    table: plan.name,
                    column: "__cte_depth"@,
                })
                &&& expr_parts(expr_parts(next.items.last().expr).shape->Sum_1).shape
                    == ExprShape::Number(1)
                &&& next.joins.len() == found_again.joins.len() + 1
                &&& next.joins == found_again.joins.push(next.joins.last())
                &&& next.joins.last() is Inner
                &&& next.joins.last()->Inner_table == plan.name
                &&& next.joins.last()->Inner_on.len() == 1
                &&& expr_parts(next.joins.last()->Inner_on[0]).shape is Equal
                &&& expr_parts(expr_parts(next.joins.last()->Inner_on[0]).shape->Equal_0).shape
                    == (ExprShape::Column { table: table@, column: plan.child_col })
                &&& expr_parts(expr_parts(next.joins.last()->Inner_on[0]).shape->Equal_1).shape
                    == (ExprShape::Column { table: plan.name, column: plan.parent_col })
                &&& next.filters.len() == found_again.filters.len() + next_scope.conjuncts.len() + 1
                &&& next.filters
                    == (found_again.filters + next_scope.conjuncts).push(next.filters.last())
                &&& expr_parts(next.filters.last()).shape is Less
                &&& expr_parts(expr_parts(next.filters.last()).shape->Less_0).shape
                    == (ExprShape::Column {
                    table: plan.name,
                    column: "__cte_depth"@,
                })
                &&& expr_parts(expr_parts(next.filters.last()).shape->Less_1).shape
                    == ExprShape::Number(
                    plan.max_depth as int,
                )
                &&& next.chained == found_again.chained
                &&& next.unions == found_again.unions
                &&& next.orders == found_again.orders
                &&& next.limit == found_again.limit
                &&& next.rest == found_again.rest
                &&& next.blank == select_made(
                    select_made(
                        select_made(
                            select_made(found_again.blank, SelectCall::CondWhere(next_scope.blank)),
                            SelectCall::ExprAs {
                                expr: expr_made(
                                    ExprCall::Add(
                                        expr_made(
                                            ExprCall::Col { table: plan.name, column: "__cte_depth"@ },
                                        ),
                                        expr_made(ExprCall::Val),
                                    ),
                                ),
                                alias: "__cte_depth"@,
                            },
                        ),
                        SelectCall::InnerJoin {
                            table: plan.name,
                            on: condition_made(
                                expr_made(
                                    ExprCall::Equals {
                                        left: expr_made(
                                            ExprCall::Col { table: table@, column: plan.child_col },
                                        ),
                                        table: plan.name,
                                        column: plan.parent_col,
                                    },
                                ),
                            ),
                        },
                    ),
                    SelectCall::CondWhere(
                        condition_made(
                            expr_made(
                                ExprCall::Lt(
                                    expr_made(
                                        ExprCall::Col { table: plan.name, column: "__cte_depth"@ },
                                    ),
                                ),
                            ),
                        ),
                    ),
                )
                &&& next.backends == found_again.backends.intersect(next_scope.backends)
                &&& whole.distinct == first.distinct
                &&& whole.items == first.items
                &&& whole.joins == first.joins
                &&& whole.filters == first.filters
                &&& whole.chained == first.chained
                &&& whole.unions == first.unions.push(UnionPart::All(step))
                &&& whole.orders == first.orders
                &&& whole.limit == first.limit
                &&& whole.rest == first.rest
                &&& whole.blank == select_made(first.blank, SelectCall::UnionAll(next.blank))
                &&& whole.backends == first.backends.intersect(next.backends)
            },
{
}

/// Whether a body carries the scope of its query, in both members where it is recursive.
pub open spec fn definition_is_scoped<S>(
    definition: Definition<S>,
    body: SelectStatement,
    scope: S,
) -> bool {
    &&& carries_scope(body, definition.rule, scope)
    &&& definition.recursive ==> {
        &&& select_parts(body).unions.len() > 0
        &&& select_parts(body).unions.last() matches UnionPart::All(step) && carries_scope(
            step,
            definition.rule,
            scope,
        )
    }
}

impl<S, E: ScopableEntity<S>> SecureSelect<E, Scoped<S>> {
    /// Begins a query that carries `WITH` definitions.
    ///
    /// Each definition that is registered on it is scoped with the scope of *this* query.
    pub fn with_ctes(self) -> (query: SecureCteSelect<E, S>)
        requires
            self.wf(),
        ensures
            query.wf(),
            query.outer() == self.query(),
            query.scope() == self.scope(),
            query.definitions() == Seq::<Definition<S>>::empty(),
            with_parts(query.clause()) == (WithParts {
                recursive: false,
                ctes: Seq::<CtePart>::empty(),
                plain: true,
                backends: Set::<DbBackend>::full(),
            }),
    {
        let scope = self.scope_arc();
        SecureCteSelect {
            outer: self.into_inner(),
            with: with_new(),
            scope,
            definitions: Ghost(Seq::<Definition<S>>::empty()),
            _entity: PhantomData,
        }
    }
}

impl<S, E: ScopableEntity<S>> SecureCteSelect<E, S> {
    /// The outer query.
    pub closed spec fn outer(self) -> SelectStatement {
        self.outer
    }

    /// The `WITH` clause.
    pub closed spec fn clause(self) -> WithClause {
        self.with
    }

    /// The scope of the query.
    pub closed spec fn scope(self) -> S {
        *self.scope
    }

    /// How the definitions of the clause are scoped, one by one.
    pub closed spec fn definitions(self) -> Seq<Definition<S>> {
        self.definitions@
    }

    /// The outer query and the body of every definition carry the scope of the query.
    pub open spec fn is_scoped(self) -> bool {
        &&& carries_scope(self.outer(), scope_rule::<E, S>(), self.scope())
        &&& self.definitions().len() == with_parts(self.clause()).ctes.len()
        &&& forall|i: int|
            0 <= i < self.definitions().len() ==> definition_is_scoped(
                #[trigger] self.definitions()[i],
                with_parts(self.clause()).ctes[i].body,
                self.scope(),
            )
    }

    /// The query is scoped throughout, the outer query takes further conditions, and the
    /// clause is nothing beyond its definitions.
    pub open spec fn wf(self) -> bool {
        &&& self.is_scoped()
        &&& !select_parts(self.outer()).chained
        &&& with_parts(self.clause()).plain
    }

    /// Whether the query is `before` with another outer query, and nothing else changed.
    pub open spec fn with_outer(self, before: Self, outer: SelectParts) -> bool {
        &&& select_parts(self.outer()) == outer
        &&& self.clause() == before.clause()
        &&& self.scope() == before.scope()
        &&& self.definitions() == before.definitions()
    }

    /// An outer query that asks no less leaves the query well formed.
    proof fn lemma_outer_keeps_wf(self, before: Self)
        requires
            before.wf(),
            self.clause() == before.clause(),
            self.scope() == before.scope(),
            self.definitions() == before.definitions(),
            select_parts(before.outer()).filters.is_prefix_of(select_parts(self.outer()).filters),
            !select_parts(self.outer()).chained,
        ensures
            self.wf(),
    {
        law_narrowing_keeps_scope(
            before.outer(),
            self.outer(),
            scope_rule::<E, S>(),
            self.scope(),
        );
    }

    /// Registers a CTE over `J` that is not recursive.
    ///
    /// `body` shapes the select of the CTE: filters, order, limits. The scope is applied
    /// after it returns, so that it cannot take the condition off again. It is applied to
    /// the select that `body` returns, and not to one that `body` unites with it.
    ///
    /// A definition is not yet a use: [`join_cte`](Self::join_cte) refers to it from the
    /// outer query.
    pub fn cte<J>(
        self,
        name: &'static str,
        body: impl FnOnce(SelectStatement) -> SelectStatement,
    ) -> (query: Self) where J: ScopableEntity<S>

        requires
            self.wf(),
            forall|found: SelectStatement|
                call_ensures(J::find, (), found) ==> #[trigger] call_requires(body, (found,)),
            forall|found: SelectStatement, shaped: SelectStatement|
                call_ensures(J::find, (), found) && #[trigger] call_ensures(
                    body,
                    (found,),
                    shaped,
                ) ==> !select_parts(shaped).chained,
        ensures
            query.wf(),
            query.outer() == self.outer(),
            query.scope() == self.scope(),
            query.definitions() == self.definitions().push(
                Definition { rule: scope_rule::<J, S>(), recursive: false },
            ),
            exists|
                found: SelectStatement,
                shaped: SelectStatement,
                condition: Condition,
                scoped: SelectStatement,
            |
                {
                    &&& call_ensures(J::find, (), found)
                    &&& #[trigger] call_ensures(body, (found,), shaped)
                    &&& #[trigger] call_ensures(
                        J::build_scope_condition,
                        (&self.scope(),),
                        condition,
                    )
                    &&& select_parts(scoped) == narrowed(
                        select_parts(shaped),
                        condition_parts(condition),
                    )
                    &&& with_parts(query.clause()) == #[trigger] with_definition(
                        with_parts(self.clause()),
                        name@,
                        scoped,
                    )
                },
            exists|
                found: SelectStatement,
                shaped: SelectStatement,
                condition: Condition,
                scoped: SelectStatement,
            |
                {
                    &&& call_ensures(J::find, (), found)
                    &&& #[trigger] call_ensures(body, (found,), shaped)
                    &&& #[trigger] call_ensures(
                        J::build_scope_condition,
                        (&self.scope(),),
                        condition,
                    )
                    &&& select_parts(scoped) == (SelectParts {
                        filters: select_parts(shaped).filters
                            + condition_parts(condition).conjuncts,
                        blank: select_made(
                            select_parts(shaped).blank,
                            SelectCall::CondWhere(condition_parts(condition).blank),
                        ),
                        backends: select_parts(shaped).backends.intersect(
                            condition_parts(condition).backends,
                        ),
                        ..select_parts(shaped)
                    })
                    &&& with_parts(query.clause()) == (WithParts {
                        ctes: #[trigger] with_parts(self.clause()).ctes.push(
                            CtePart { name: name@, body: scoped },
                        ),
                        backends: with_parts(self.clause()).backends.intersect(
                            select_parts(scoped).backends,
                        ),
                        ..with_parts(self.clause())
                    })
                },
    {
        let found = J::find();
        let shaped = body(found);
        let unscoped = secure::<J>(shaped);
        let scoped = unscoped.scope_with_arc(Arc::clone(&self.scope));
        let mut this = self;
        let scoped_body = scoped.into_inner();
        with_cte(&mut this.with, name, scoped_body);
        proof {
            this.definitions@ = self.definitions().push(
                Definition { rule: scope_rule::<J, S>(), recursive: false },
            );
        }
        assert(with_parts(this.with) == with_definition(
            with_parts(self.clause()),
            name@,
            scoped_body,
        ));
        this
    }

    /// Registers a recursive CTE over `J`, with the scope in both members:
    ///
    /// ```sql
    /// WITH RECURSIVE n AS (
    ///     SELECT <columns>, 0 AS __cte_depth FROM j
    ///      WHERE <seed> AND <scope>
    ///     UNION ALL
    ///     SELECT <columns>, n.__cte_depth + 1 AS __cte_depth FROM j
    ///       JOIN n ON j.<child_col> = n.<parent_col>
    ///      WHERE <scope> AND n.__cte_depth < <max_depth>
    /// )
    /// ```
    pub fn recursive_cte<J>(self, spec: RecursiveCte<J>) -> (query: Self) where
        J: ScopableEntity<S>,

        requires
            self.wf(),
        ensures
            query.wf(),
            query.outer() == self.outer(),
            query.scope() == self.scope(),
            query.definitions() == self.definitions().push(
                Definition { rule: scope_rule::<J, S>(), recursive: true },
            ),
            exists|body: SelectStatement|
                {
                    &&& is_scoped_walk::<J, S>(self.scope(), spec@, body)
                    &&& with_parts(query.clause()) == (WithParts {
                        recursive: true,
                        ..#[trigger] with_definition(with_parts(self.clause()), spec@.name, body)
                    })
                },
            exists|body: SelectStatement|
                {
                    &&& is_scoped_walk::<J, S>(self.scope(), spec@, body)
                    &&& with_parts(query.clause()) == (WithParts {
                        recursive: true,
                        ctes: #[trigger] with_parts(self.clause()).ctes.push(
                            CtePart { name: spec@.name, body },
                        ),
                        backends: with_parts(self.clause()).backends.intersect(
                            select_parts(body).backends,
                        ),
                        ..with_parts(self.clause())
                    })
                },
    {
        let seed_found = J::find();
        let seed_scope = J::build_scope_condition(&*self.scope);
        let step_found = J::find();
        let step_scope = J::build_scope_condition(&*self.scope);
        let table = J::table();
        let name = spec.name;
        let ghost plan = spec@;

        let step = walk_step(step_found, table.as_str(), &spec, step_scope);
        let seed = walk_seed(seed_found, spec.seed, seed_scope);
        let body = walk_body(seed, step);
        let mut this = self;
        with_recursive(&mut this.with);
        with_cte(&mut this.with, name, body);
        proof {
            this.definitions@ = self.definitions().push(
                Definition { rule: scope_rule::<J, S>(), recursive: true },
            );
            law_condition_gives_scope(
                body,
                narrowed(select_parts(seed_found), condition_parts(plan.seed)),
                seed_scope,
                scope_rule::<J, S>(),
                self.scope(),
            );
            law_condition_gives_scope(
                step,
                select_parts(step_found),
                step_scope,
                scope_rule::<J, S>(),
                self.scope(),
            );
        }
        assert(with_parts(this.with) == (WithParts {
            recursive: true,
            ..with_definition(with_parts(self.clause()), name@, body)
        }));
        assert(is_seed(
            select_parts(seed),
            select_parts(seed_found),
            condition_parts(plan.seed),
            condition_parts(seed_scope),
        ));
        assert(is_step(
            select_parts(step),
            select_parts(step_found),
            table@,
            plan,
            condition_parts(step_scope),
        ));
        assert(is_scoped_walk::<J, S>(self.scope(), plan, body));
        this
    }

    /// Joins a registered CTE into the outer query.
    ///
    /// Without a reference the `WITH` clause computes nothing. `on` ties the CTE to the
    /// outer entity and is up to the caller: a wrong one changes which rows come back, but
    /// not beyond the scope, which the body of the CTE never left. One membership test is
    /// to be preferred to a disjunction, which databases plan badly.
    pub fn join_cte(self, name: &'static str, on: Condition) -> (query: Self)
        requires
            self.wf(),
        ensures
            query.wf(),
            query.with_outer(
                self,
                (SelectParts {
                    joins: select_parts(self.outer()).joins.push(
                        JoinPart::Inner { table: name@, on: condition_parts(on).conjuncts },
                    ),
                    blank: select_made(
                        select_parts(self.outer()).blank,
                        SelectCall::InnerJoin { table: name@, on: condition_parts(on).blank },
                    ),
                    backends: select_parts(self.outer()).backends.intersect(
                        condition_parts(on).backends,
                    ),
                    ..select_parts(self.outer())
                }),
            ),
            select_parts(query.outer()) == (SelectParts {
                joins: select_parts(self.outer()).joins.push(
                    JoinPart::Inner { table: name@, on: condition_parts(on).conjuncts },
                ),
                blank: select_made(
                    select_parts(self.outer()).blank,
                    SelectCall::InnerJoin { table: name@, on: condition_parts(on).blank },
                ),
                backends: select_parts(self.outer()).backends.intersect(
                    condition_parts(on).backends,
                ),
                ..select_parts(self.outer())
            }),
            query.clause() == self.clause(),
            query.scope() == self.scope(),
            query.definitions() == self.definitions(),
    {
        let mut this = self;
        select_inner_join(&mut this.outer, name, on);
        proof {
            this.lemma_outer_keeps_wf(self);
        }
        this
    }

    /// Narrows the projection of the outer query to `columns` of `E`, in that order.
    ///
    /// Each is qualified by the table of `E`: a bare name would be ambiguous as soon as a
    /// CTE is joined that has a column of the same name.
    pub fn columns(self, columns: Vec<String>) -> (query: Self)
        requires
            self.wf(),
        ensures
            query.wf(),
            query.clause() == self.clause(),
            query.scope() == self.scope(),
            query.definitions() == self.definitions(),
            select_parts(query.outer()) == (SelectParts {
                items: select_parts(query.outer()).items,
                blank: select_parts(query.outer()).blank,
                backends: select_parts(query.outer()).backends,
                ..select_parts(self.outer())
            }),
            select_parts(self.outer()).backends.subset_of(select_parts(query.outer()).backends),
            exists|table: String| #[trigger]
                call_ensures(E::table, (), table) && is_projection(
                    select_parts(query.outer()).items,
                    table@,
                    columns@,
                ) && select_parts(query.outer()).blank == columns_made(
                    select_made(select_parts(self.outer()).blank, SelectCall::ClearSelects),
                    table@,
                    columns@,
                ),
            select_parts(query.outer()).items.len() == columns@.len(),
            exists|table: String| #[trigger]
                call_ensures(E::table, (), table) && forall|i: int|
                    0 <= i < columns@.len() ==> {
                        &&& (#[trigger] select_parts(query.outer()).items[i]).alias is None
                        &&& expr_parts(select_parts(query.outer()).items[i].expr).shape
                            == (ExprShape::Column { table: table@, column: columns@[i]@ })
                    },
    {
        let table = E::table();
        let mut this = self;
        select_clear_selects(&mut this.outer);
        let ghost cleared = select_parts(this.outer);
        for i in 0..columns.len()
            invariant
                this.with == self.with,
                this.scope == self.scope,
                this.definitions == self.definitions,
                select_parts(this.outer) == (SelectParts {
                    items: select_parts(this.outer).items,
                    blank: columns_made(cleared.blank, table@, columns@.take(i as int)),
                    ..cleared
                }),
                select_parts(this.outer).items.len() == i,
                forall|j: int| 0 <= j < i ==> is_item(
                    #[trigger] select_parts(this.outer).items[j],
                    table@,
                    columns@[j]@,
                ),
        {
            select_column(&mut this.outer, table.as_str(), columns[i].as_str());
            assert(columns@.take(i + 1).drop_last() =~= columns@.take(i as int));
        }
        assert(columns@.take(columns@.len() as int) =~= columns@);
        proof {
            this.lemma_outer_keeps_wf(self);
        }
        this
    }

    /// Adds a filter to the outer query, on top of its scope.
    pub fn filter(self, filter: Condition) -> (query: Self)
        requires
            self.wf(),
        ensures
            query.wf(),
            query.with_outer(
                self,
                narrowed(select_parts(self.outer()), condition_parts(filter)),
            ),
            select_parts(query.outer()) == (SelectParts {
                filters: select_parts(self.outer()).filters + condition_parts(filter).conjuncts,
                blank: select_made(
                    select_parts(self.outer()).blank,
                    SelectCall::CondWhere(condition_parts(filter).blank),
                ),
                backends: select_parts(self.outer()).backends.intersect(
                    condition_parts(filter).backends,
                ),
                ..select_parts(self.outer())
            }),
            query.clause() == self.clause(),
            query.scope() == self.scope(),
            query.definitions() == self.definitions(),
    {
        let mut this = self;
        select_cond_where(&mut this.outer, filter);
        proof {
            this.lemma_outer_keeps_wf(self);
        }
        this
    }

    /// Limits the outer query.
    pub fn limit(self, limit: u64) -> (query: Self)
        requires
            self.wf(),
        ensures
            query.wf(),
            query.with_outer(
                self,
                (SelectParts {
                    limit: Some(limit),
                    blank: select_made(select_parts(self.outer()).blank, SelectCall::Limit),
                    ..select_parts(self.outer())
                }),
            ),
            select_parts(query.outer()) == (SelectParts {
                limit: Some(limit),
                blank: select_made(select_parts(self.outer()).blank, SelectCall::Limit),
                ..select_parts(self.outer())
            }),
            query.clause() == self.clause(),
            query.scope() == self.scope(),
            query.definitions() == self.definitions(),
    {
        let mut this = self;
        select_limit(&mut this.outer, limit);
        proof {
            this.lemma_outer_keeps_wf(self);
        }
        this
    }

    /// Drops duplicates from the rows of the outer query.
    ///
    /// An inner join repeats an outer row once for each row of the CTE that matches it,
    /// which is not what a test for membership wants.
    pub fn distinct(self) -> (query: Self)
        requires
            self.wf(),
        ensures
            query.wf(),
            query.with_outer(
                self,
                (SelectParts {
                    distinct: true,
                    blank: select_made(select_parts(self.outer()).blank, SelectCall::Distinct),
                    ..select_parts(self.outer())
                }),
            ),
            select_parts(query.outer()) == (SelectParts {
                distinct: true,
                blank: select_made(select_parts(self.outer()).blank, SelectCall::Distinct),
                ..select_parts(self.outer())
            }),
            query.clause() == self.clause(),
            query.scope() == self.scope(),
            query.definitions() == self.definitions(),
    {
        let mut this = self;
        select_distinct(&mut this.outer);
        proof {
            this.lemma_outer_keeps_wf(self);
        }
        this
    }

    /// Orders the outer query, behind the orders that it has already.
    ///
    /// An order by the places of values writes them into the text, which not every value
    /// allows; [`ascending`] and [`descending`] are there on every database.
    pub fn order_by(self, col: ColumnRef, order: Order) -> (query: Self)
        requires
            self.wf(),
        ensures
            query.wf(),
            query.with_outer(
                self,
                (SelectParts {
                    orders: select_parts(self.outer()).orders.push(OrderPart::Column(col, order)),
                    blank: select_made(
                        select_parts(self.outer()).blank,
                        SelectCall::OrderBy(col, order),
                    ),
                    backends: select_parts(self.outer()).backends.intersect(
                        order_parts(order).backends,
                    ),
                    ..select_parts(self.outer())
                }),
            ),
            select_parts(query.outer()) == (SelectParts {
                orders: select_parts(self.outer()).orders.push(OrderPart::Column(col, order)),
                blank: select_made(
                    select_parts(self.outer()).blank,
                    SelectCall::OrderBy(col, order),
                ),
                backends: select_parts(self.outer()).backends.intersect(
                    order_parts(order).backends,
                ),
                ..select_parts(self.outer())
            }),
            query.clause() == self.clause(),
            query.scope() == self.scope(),
            query.definitions() == self.definitions(),
    {
        let mut this = self;
        select_order_by(&mut this.outer, col, order);
        proof {
            this.lemma_outer_keeps_wf(self);
        }
        this
    }

    /// Whether everything in the query has a rendering on that database.
    pub open spec fn renders_on(self, backend: DbBackend) -> bool {
        &&& select_parts(self.outer()).backends.contains(backend)
        &&& with_parts(self.clause()).backends.contains(backend)
    }

    /// Renders the statement without executing it.
    ///
    /// There has to be a definition, and the database has to have a rendering for
    /// everything in the query.
    pub fn build_statement(&self, backend: DbBackend) -> (statement: Statement)
        requires
            self.wf(),
            with_parts(self.clause()).ctes.len() > 0,
            self.renders_on(backend),
        ensures
            statement.db_backend == backend,
            statement.sql@ == statement_text(self.outer(), with_parts(self.clause()), backend),
            statement.sql@ == (if with_parts(self.clause()).recursive {
                "WITH RECURSIVE "@
            } else {
                "WITH "@
            }) + definitions_rendered(with_parts(self.clause()).ctes, backend).0
                + select_rendered(
                select_parts(self.outer()).blank,
                backend,
                definitions_rendered(with_parts(self.clause()).ctes, backend).1,
            ).0,
            statement.values == Some(bound_values(self.outer(), self.clause(), backend)),
    {
        let (sql, values) = render(&self.outer, &self.with, backend);
        Statement { sql, values, db_backend: backend }
    }
}

/// The smallest first.
pub fn ascending() -> (order: Order)
    ensures
        order_parts(order) == (OrderParts {
            direction: Direction::Ascending,
            backends: Set::<DbBackend>::full(),
        }),
{
    order_asc()
}

/// The largest first.
pub fn descending() -> (order: Order)
    ensures
        order_parts(order) == (OrderParts {
            direction: Direction::Descending,
            backends: Set::<DbBackend>::full(),
        }),
{
    order_desc()
}

/// A select without values to which columns of a table are added as items.
pub open spec fn columns_made(
    select: SelectStatement,
    table: Seq<char>,
    columns: Seq<String>,
) -> SelectStatement
    decreases columns.len(),
{
    if columns.len() == 0 {
        select
    } else {
        select_made(
            columns_made(select, table, columns.drop_last()),
            SelectCall::Column { table, column: columns.last()@ },
        )
    }
}

/// Whether an item is that column of that table, without an alias.
pub open spec fn is_item(item: SelectItem, table: Seq<char>, column: Seq<char>) -> bool {
    is_column(item.expr, table, column) && item.alias is None
}

/// Whether the items are these columns of that table, in this order.
pub open spec fn is_projection(
    items: Seq<SelectItem>,
    table: Seq<char>,
    columns: Seq<String>,
) -> bool {
    &&& items.len() == columns.len()
    &&& forall|i: int|
        0 <= i < items.len() ==> is_item(#[trigger] items[i], table, columns[i]@)
}

/// The column of the depth has one name, whatever is walked.
pub proof fn law_depth_column_has_one_name<J>()
    ensures
        DEPTH_COLUMN@ == "__cte_depth"@,
        RecursiveCte::<J>::DEPTH_COLUMN@ == "__cte_depth"@,
{
}

/// A projection has as many items as there are columns, and item `i` is column `i` of the
/// table, without an alias.
pub proof fn law_projection_is_the_columns(
    items: Seq<SelectItem>,
    table: Seq<char>,
    columns: Seq<String>,
)
    ensures
        is_projection(items, table, columns) <==> {
            &&& columns.len() == items.len()
            &&& forall|i: int|
                0 <= i < columns.len() ==> {
                    &&& (#[trigger] items[i]).alias is None
                    &&& expr_parts(items[i].expr).shape == (ExprShape::Column {
                        table,
                        column: columns[i]@,
                    })
                }
        },
{
}

/// Columns are added to a select one by one, each behind those before it, and none is left
/// out.
pub proof fn law_columns_are_added_one_by_one(
    select: SelectStatement,
    table: Seq<char>,
    columns: Seq<String>,
    column: String,
)
    ensures
        columns_made(select, table, Seq::<String>::empty()) == select,
        columns_made(select, table, columns.push(column)) == select_made(
            columns_made(select, table, columns),
            SelectCall::Column { table, column: column@ },
        ),
        columns_made(select, table, seq![column] + columns) == columns_made(
            select_made(select, SelectCall::Column { table, column: column@ }),
            table,
            columns,
        ),
    decreases columns.len(),
{
    assert(columns.push(column).drop_last() =~= columns);
    let all = seq![column] + columns;
    if columns.len() == 0 {
        assert(all.drop_last() =~= columns);
    } else {
        law_columns_are_added_one_by_one(select, table, columns.drop_last(), column);
        assert(all.drop_last() =~= seq![column] + columns.drop_last());
    }
}

/// What a query with definitions keeps: its outer query asks what some condition of its
/// scope asks, and so does the body of each definition, and the last select that a recursive
/// one unites; its outer query takes conditions; its clause is plain.
pub proof fn law_query_is_scoped_throughout<S, E: ScopableEntity<S>>(query: SecureCteSelect<E, S>)
    ensures
        query.wf() <==> {
            let ctes = with_parts(query.clause()).ctes;
            &&& !select_parts(query.outer()).chained
            &&& with_parts(query.clause()).plain
            &&& carries_scope(query.outer(), scope_rule::<E, S>(), query.scope())
            &&& query.definitions().len() == ctes.len()
            &&& forall|i: int|
                0 <= i < ctes.len() ==> {
                    let definition = #[trigger] query.definitions()[i];
                    let body = select_parts(ctes[i].body);
                    &&& carries_scope(ctes[i].body, definition.rule, query.scope())
                    &&& definition.recursive ==> body.unions.len() > 0 && body.unions.last() is All
                        && carries_scope(
                        body.unions.last()->All_0,
                        definition.rule,
                        query.scope(),
                    )
                }
        },
{
}

/// A query renders on a database if and only if its outer query and its clause do.
pub proof fn law_query_renders_where_its_parts_do<S, E: ScopableEntity<S>>(
    query: SecureCteSelect<E, S>,
    backend: DbBackend,
)
    ensures
        query.renders_on(backend) <==> select_parts(query.outer()).backends.contains(backend)
            && with_parts(query.clause()).backends.contains(backend),
{
}

} // verus!
