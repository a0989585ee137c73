//! What a recursive CTE gives, row by row, whatever its table holds.
//!
//! A database evaluates a recursive CTE in rounds: the first member gives round 0, and the
//! recursive member gives each further round from the rows of the round before. Rows are
//! listed here in the order in which they come up, which a database is free to change; how
//! often each comes is what counts.

use sea_orm::sea_query::{Condition, Expr, SelectStatement};
use vstd::arithmetic::div_mod::lemma_add_mod_noop;
use vstd::arithmetic::div_mod::lemma_small_mod;
use vstd::prelude::*;

use crate::secure::cte::{is_scoped_walk, is_seed, is_step, is_walk, WalkPlan, DEPTH_COLUMN};
use crate::secure::select::{asks_all, narrowed, ScopableEntity};
use crate::secure::sql::{
    condition_parts, expr_parts, select_parts, ConditionParts, ExprShape, JoinPart, SelectParts,
    UnionPart,
};

verus! {

/// The columns of a row, each with its value or null.
pub type Row = spec_fn(Seq<char>) -> Option<int>;

/// The columns that expressions read, by table and name.
pub type Env = spec_fn(Seq<char>, Seq<char>) -> Option<int>;

/// Which expressions hold where.
pub type Holds = spec_fn(Expr, Env) -> bool;

/// The value of a number or of a column.
pub open spec fn leaf_value(expr: Expr, env: Env) -> Option<int> {
    match expr_parts(expr).shape {
        ExprShape::Number(n) => Some(n),
        ExprShape::Column { table, column } => env(table, column),
        _ => None,
    }
}

/// The value of a number, of a column or of their sum.
pub open spec fn value(expr: Expr, env: Env) -> Option<int> {
    match expr_parts(expr).shape {
        ExprShape::Sum(a, b) => match (leaf_value(a, env), leaf_value(b, env)) {
            (Some(x), Some(y)) => Some(x + y),
            _ => None,
        },
        _ => leaf_value(expr, env),
    }
}

/// Whether `holds` reads equations and comparisons as a database does: neither holds of a
/// null. Whatever else it says of other expressions is left open.
pub open spec fn faithful(holds: Holds) -> bool {
    forall|expr: Expr, env: Env| #[trigger]
        holds(expr, env) == match expr_parts(expr).shape {
            ExprShape::Equal(a, b) => leaf_value(a, env) is Some && leaf_value(a, env)
                == leaf_value(b, env),
            ExprShape::Less(a, b) => match (leaf_value(a, env), leaf_value(b, env)) {
                (Some(x), Some(y)) => x < y,
                _ => false,
            },
            _ => holds(expr, env),
        }
}

/// Whether all of `filters` hold.
pub open spec fn passes(filters: Seq<Expr>, holds: Holds, env: Env) -> bool {
    forall|i: int| 0 <= i < filters.len() ==> holds(#[trigger] filters[i], env)
}

/// A row that a walk gives, with the distance from its seed that it carries.
pub struct Hop {
    pub row: Row,
    pub depth: Option<int>,
}

/// What a column of the CTE has in such a row.
pub open spec fn hop_value(hop: Hop, column: Seq<char>) -> Option<int> {
    if column == DEPTH_COLUMN@ {
        hop.depth
    } else {
        (hop.row)(column)
    }
}

/// A walk as a recursive CTE builds it: what `find` selected for either member, the
/// condition of the scope on either, and the members.
pub struct Walk {
    pub plan: WalkPlan,
    pub seed_found: SelectParts,
    pub seed_scope: ConditionParts,
    pub seed: SelectParts,
    pub step_found: SelectParts,
    pub step_scope: ConditionParts,
    pub step: SelectParts,
}

impl Walk {
    /// Whether the members are built as they should be, over the rows of one table that
    /// the CTE is not named after.
    pub open spec fn over(self, table: Seq<char>) -> bool {
        &&& is_seed(
            self.seed,
            self.seed_found,
            condition_parts(self.plan.seed),
            self.seed_scope,
        )
        &&& is_step(self.step, self.step_found, table, self.plan, self.step_scope)
        &&& self.seed_found.joins.len() == 0
        &&& self.step_found.joins.len() == 0
        &&& self.plan.name != table
    }
}

/// How expressions are read: the name of the table, and which of them hold.
pub struct Reading {
    pub table: Seq<char>,
    pub holds: Holds,
}

impl Reading {
    /// What expressions read at a row of the table.
    pub open spec fn at(self, row: Row) -> Env {
        |t: Seq<char>, c: Seq<char>|
            if t == self.table {
                row(c)
            } else {
                None
            }
    }

    /// What expressions read at a row of the table that is joined with a row of the CTE.
    pub open spec fn joined(self, row: Row, name: Seq<char>, from: Hop) -> Env {
        |t: Seq<char>, c: Seq<char>|
            if t == name {
                hop_value(from, c)
            } else if t == self.table {
                row(c)
            } else {
                None
            }
    }

    /// Whether the first member takes a row.
    pub open spec fn seed_takes(self, walk: Walk) -> spec_fn(Row) -> bool {
        |row: Row| passes(walk.seed.filters, self.holds, self.at(row))
    }

    /// What the first member gives for a row that it takes.
    pub open spec fn seed_gives(self, walk: Walk) -> spec_fn(Row) -> Hop {
        |row: Row| Hop { row, depth: value(walk.seed.items.last().expr, self.at(row)) }
    }

    /// Whether the recursive member takes a row beside the row `from` of the CTE.
    pub open spec fn step_takes(self, walk: Walk, from: Hop) -> spec_fn(Row) -> bool {
        |row: Row|
            {
                let env = self.joined(row, walk.plan.name, from);
                &&& forall|i: int|
                    0 <= i < walk.step.joins.len() ==> (#[trigger] walk.step.joins[i] matches JoinPart::Inner {
                        on,
                        ..
                    } ==> passes(on, self.holds, env))
                &&& passes(walk.step.filters, self.holds, env)
            }
    }

    /// What the recursive member gives for a row that it takes.
    pub open spec fn step_gives(self, walk: Walk, from: Hop) -> spec_fn(Row) -> Hop {
        |row: Row|
            Hop {
                row,
                depth: value(
                    walk.step.items.last().expr,
                    self.joined(row, walk.plan.name, from),
                ),
            }
    }

    /// Whether a row meets the caller's predicate and the scope.
    pub open spec fn starts(self, walk: Walk) -> spec_fn(Row) -> bool {
        |row: Row|
            {
                let env = self.at(row);
                &&& passes(walk.seed_found.filters, self.holds, env)
                &&& passes(condition_parts(walk.plan.seed).conjuncts, self.holds, env)
                &&& passes(walk.seed_scope.conjuncts, self.holds, env)
            }
    }

    /// Whether a row meets the scope and points to the row `from` of the CTE.
    pub open spec fn follows(self, walk: Walk, from: Hop) -> spec_fn(Row) -> bool {
        |row: Row|
            {
                let env = self.joined(row, walk.plan.name, from);
                &&& passes(walk.step_found.filters, self.holds, env)
                &&& passes(walk.step_scope.conjuncts, self.holds, env)
                &&& row(walk.plan.child_col) is Some
                &&& row(walk.plan.child_col) == hop_value(from, walk.plan.parent_col)
            }
    }

    /// Whether expressions read a row where they read the table.
    pub open spec fn shows(self, env: Env, row: Row) -> bool {
        forall|column: Seq<char>| #[trigger] env(self.table, column) == row(column)
    }

    /// Whether the scope of either member holds at a row, whatever it is joined with.
    pub open spec fn in_scope(self, walk: Walk) -> spec_fn(Row) -> bool {
        |row: Row|
            exists|env: Env|
                {
                    &&& #[trigger] self.shows(env, row)
                    &&& passes(walk.seed_scope.conjuncts, self.holds, env) || passes(
                        walk.step_scope.conjuncts,
                        self.holds,
                        env,
                    )
                }
    }
}

/// A row of the table, carried at a depth.
pub open spec fn hop_at(depth: int) -> spec_fn(Row) -> Hop {
    |row: Row| Hop { row, depth: Some(depth) }
}

/// A database in which a walk is evaluated.
pub struct World {
    pub reading: Reading,
    /// The rows of the table, as often as it has them.
    pub rows: Seq<Row>,
}

impl World {
    /// What the recursive member gives for one row of the CTE.
    pub open spec fn children(self, walk: Walk, from: Hop) -> Seq<Hop> {
        self.rows.filter(self.reading.step_takes(walk, from)).map_values(
            self.reading.step_gives(walk, from),
        )
    }

    /// What the recursive member gives for rows of the CTE, one after the other.
    pub open spec fn expanded(self, walk: Walk, hops: Seq<Hop>) -> Seq<Hop>
        decreases hops.len(),
    {
        if hops.len() == 0 {
            Seq::empty()
        } else {
            self.expanded(walk, hops.drop_last()) + self.children(walk, hops.last())
        }
    }

    /// What the walk gives in round `k`.
    pub open spec fn round(self, walk: Walk, k: nat) -> Seq<Hop>
        decreases k,
    {
        if k == 0 {
            self.rows.filter(self.reading.seed_takes(walk)).map_values(
                self.reading.seed_gives(walk),
            )
        } else {
            self.expanded(walk, self.round(walk, (k - 1) as nat))
        }
    }

    /// What the walk gives up to round `k`.
    pub open spec fn rounds(self, walk: Walk, k: nat) -> Seq<Hop>
        decreases k,
    {
        if k == 0 {
            self.round(walk, 0)
        } else {
            self.rounds(walk, (k - 1) as nat) + self.round(walk, k)
        }
    }

    /// What the walk gives: every round up to the cap, behind which
    /// [`law_walk_is_capped`] finds no row.
    pub open spec fn result(self, walk: Walk) -> Seq<Hop> {
        self.rounds(walk, walk.plan.max_depth)
    }
}

/// A row passes a scoped select if and only if it passes the select and the scope.
pub proof fn law_scope_narrows_exactly(
    shaped: SelectParts,
    scope: ConditionParts,
    holds: Holds,
    env: Env,
)
    ensures
        passes(narrowed(shaped, scope).filters, holds, env) <==> passes(
            shaped.filters,
            holds,
            env,
        ) && passes(scope.conjuncts, holds, env),
{
    lemma_passes_both(shaped.filters, scope.conjuncts, holds, env);
}

/// Whether a row of the outer table and a row of a CTE come together in what a query gives.
/// The row of the CTE is one that its body gives where expressions read `body_env`; at the
/// two of them expressions read `env`.
pub open spec fn pair_comes(
    outer: SelectParts,
    body: SelectParts,
    holds: Holds,
    env: Env,
    body_env: Env,
) -> bool {
    &&& passes(body.filters, holds, body_env)
    &&& forall|i: int|
        0 <= i < outer.joins.len() ==> (#[trigger] outer.joins[i] matches JoinPart::Inner {
            on,
            ..
        } ==> passes(on, holds, env))
    &&& passes(outer.filters, holds, env)
}

/// Whatever a join with a CTE is on, it crosses no boundary: a pair comes only if the outer
/// row passes the outer query and its scope, and the row of the CTE passes the body and its
/// scope. The join takes pairs away and adds none.
pub proof fn law_wrong_join_stays_in_scope(
    outer: SelectParts,
    outer_scope: ConditionParts,
    body: SelectParts,
    body_scope: ConditionParts,
    name: Seq<char>,
    on: Seq<Expr>,
    holds: Holds,
    env: Env,
    body_env: Env,
)
    requires
        asks_all(outer.filters, outer_scope.conjuncts),
        asks_all(body.filters, body_scope.conjuncts),
        pair_comes(
            (SelectParts {
                joins: outer.joins.push(JoinPart::Inner { table: name, on }),
                ..outer
            }),
            body,
            holds,
            env,
            body_env,
        ),
    ensures
        pair_comes(outer, body, holds, env, body_env),
        passes(on, holds, env),
        passes(outer_scope.conjuncts, holds, env),
        passes(body_scope.conjuncts, holds, body_env),
{
    let joins = outer.joins.push(JoinPart::Inner { table: name, on });
    assert(joins[outer.joins.len() as int] == (JoinPart::Inner { table: name, on }));
    assert forall|i: int| 0 <= i < outer.joins.len() implies (
    #[trigger] outer.joins[i] matches JoinPart::Inner { on, .. } ==> passes(on, holds, env)) by {
        assert(joins[i] == outer.joins[i]);
    }
    lemma_asked_pass(outer.filters, outer_scope.conjuncts, holds, env);
    lemma_asked_pass(body.filters, body_scope.conjuncts, holds, body_env);
}

/// What is asked holds of whatever passes.
proof fn lemma_asked_pass(filters: Seq<Expr>, conjuncts: Seq<Expr>, holds: Holds, env: Env)
    requires
        asks_all(filters, conjuncts),
        passes(filters, holds, env),
    ensures
        passes(conjuncts, holds, env),
{
    assert forall|i: int| 0 <= i < conjuncts.len() implies holds(#[trigger] conjuncts[i], env) by {
        let at = filters.index_of(conjuncts[i]);
        assert(filters.contains(conjuncts[i]));
        assert(holds(filters[at], env));
    }
}

/// Two lists of filters, one behind the other, ask what both ask.
proof fn lemma_passes_both(a: Seq<Expr>, b: Seq<Expr>, holds: Holds, env: Env)
    ensures
        passes(a + b, holds, env) <==> passes(a, holds, env) && passes(b, holds, env),
{
    let both = a + b;
    if passes(both, holds, env) {
        assert forall|i: int| 0 <= i < a.len() implies holds(#[trigger] a[i], env) by {
            assert(holds(both[i], env));
        }
        assert forall|i: int| 0 <= i < b.len() implies holds(#[trigger] b[i], env) by {
            assert(holds(both[a.len() + i], env));
        }
    }
    if passes(a, holds, env) && passes(b, holds, env) {
        assert forall|i: int| 0 <= i < both.len() implies holds(#[trigger] both[i], env) by {
            if i < a.len() {
                assert(both[i] == a[i]);
            } else {
                assert(both[i] == b[i - a.len()]);
            }
        }
    }
}

/// What a recursive CTE registers is a walk that the laws below speak of, with a condition
/// of the query's scope on either member: its first member and its recursive member are
/// those of the body, either is over what `find` selects, and neither has a limit, an order
/// or a way with duplicates but that of `find`.
pub proof fn law_registered_walk<J: ScopableEntity<S>, S>(
    scope: S,
    plan: WalkPlan,
    body: SelectStatement,
)
    requires
        is_scoped_walk::<J, S>(scope, plan, body),
        forall|table: String| #[trigger] call_ensures(J::table, (), table) ==> plan.name != table@,
    ensures
        exists|
            walk: Walk,
            table: String,
            seed_found: SelectStatement,
            step_found: SelectStatement,
            seed_scope: Condition,
            step_scope: Condition,
        |
            {
                &&& walk.plan == plan
                &&& call_ensures(J::table, (), table)
                &&& #[trigger] call_ensures(J::find, (), seed_found)
                &&& walk.seed_found == select_parts(seed_found)
                &&& #[trigger] call_ensures(J::find, (), step_found)
                &&& walk.step_found == select_parts(step_found)
                &&& #[trigger] walk.over(table@)
                &&& #[trigger] call_ensures(J::build_scope_condition, (&scope,), seed_scope)
                &&& walk.seed_scope == condition_parts(seed_scope)
                &&& #[trigger] call_ensures(J::build_scope_condition, (&scope,), step_scope)
                &&& walk.step_scope == condition_parts(step_scope)
                &&& select_parts(body).items == walk.seed.items
                &&& select_parts(body).filters == walk.seed.filters
                &&& select_parts(body).joins.len() == 0
                &&& select_parts(body).distinct == walk.seed_found.distinct
                &&& select_parts(body).orders == walk.seed_found.orders
                &&& select_parts(body).limit == walk.seed_found.limit
                &&& select_parts(body).rest == walk.seed_found.rest
                &&& select_parts(body).unions.len() == 1
                &&& walk.step.joins.len() == 1
                &&& walk.step.distinct == walk.step_found.distinct
                &&& walk.step.orders == walk.step_found.orders
                &&& walk.step.limit == walk.step_found.limit
                &&& walk.step.rest == walk.step_found.rest
                &&& walk.step.unions.len() == 0
                &&& select_parts(body).unions.last() matches UnionPart::All(step)
                    && select_parts(step) == walk.step
            },
{
    let (table, seed_found, seed_scope, seed, step_found, step_scope, step): (
        String,
        SelectStatement,
        Condition,
        SelectStatement,
        SelectStatement,
        Condition,
        SelectStatement,
    ) = choose|
        table: String,
        seed_found: SelectStatement,
        seed_scope: Condition,
        seed: SelectStatement,
        step_found: SelectStatement,
        step_scope: Condition,
        step: SelectStatement,
    |
        {
            &&& call_ensures(J::table, (), table)
            &&& call_ensures(J::find, (), seed_found)
            &&& call_ensures(J::find, (), step_found)
            &&& call_ensures(J::build_scope_condition, (&scope,), seed_scope)
            &&& call_ensures(J::build_scope_condition, (&scope,), step_scope)
            &&& #[trigger] is_seed(
                select_parts(seed),
                select_parts(seed_found),
                condition_parts(plan.seed),
                condition_parts(seed_scope),
            )
            &&& #[trigger] is_step(
                select_parts(step),
                select_parts(step_found),
                table@,
                plan,
                condition_parts(step_scope),
            )
            &&& #[trigger] is_walk(select_parts(body), seed, step)
        };
    let walk = Walk {
        plan,
        seed_found: select_parts(seed_found),
        seed_scope: condition_parts(seed_scope),
        seed: select_parts(seed),
        step_found: select_parts(step_found),
        step_scope: condition_parts(step_scope),
        step: select_parts(step),
    };
    assert(walk.over(table@));
}

/// A round gives what its member takes, so two ways to say what is taken and given agree
/// where they agree on every row.
proof fn lemma_same_hops(
    rows: Seq<Row>,
    takes: spec_fn(Row) -> bool,
    gives: spec_fn(Row) -> Hop,
    other_takes: spec_fn(Row) -> bool,
    other_gives: spec_fn(Row) -> Hop,
)
    requires
        forall|row: Row| #[trigger] takes(row) == other_takes(row),
        forall|row: Row| takes(row) ==> #[trigger] gives(row) == other_gives(row),
    ensures
        rows.filter(takes).map_values(gives) == rows.filter(other_takes).map_values(other_gives),
{
    assert(takes =~= other_takes);
    let taken = rows.filter(takes);
    assert forall|i: int| 0 <= i < taken.len() implies gives(#[trigger] taken[i]) == other_gives(
        taken[i],
    ) by {
        rows.lemma_filter_pred(takes, i);
    }
    assert(taken.map_values(gives) =~= taken.map_values(other_gives));
}

/// What the first member gives: the rows that meet the caller's predicate and the scope,
/// each as often as the table has it, at depth 0.
pub proof fn law_seed_is_exact(world: World, walk: Walk)
    requires
        walk.over(world.reading.table),
    ensures
        world.round(walk, 0) == world.rows.filter(world.reading.starts(walk)).map_values(
            hop_at(0),
        ),
{
    let reading = world.reading;
    assert forall|row: Row| #[trigger]
        (reading.seed_takes(walk))(row) == (reading.starts(walk))(row) by {
        let env = reading.at(row);
        let start = condition_parts(walk.plan.seed);
        law_scope_narrows_exactly(
            narrowed(walk.seed_found, start),
            walk.seed_scope,
            reading.holds,
            env,
        );
        law_scope_narrows_exactly(walk.seed_found, start, reading.holds, env);
    }
    lemma_same_hops(
        world.rows,
        reading.seed_takes(walk),
        reading.seed_gives(walk),
        reading.starts(walk),
        hop_at(0),
    );
}

/// What the recursive member gives for a row of the CTE: where that row is below the cap,
/// the rows that meet the scope and point to it, each as often as the table has it, one
/// deeper; behind the cap nothing.
pub proof fn law_step_is_exact(world: World, walk: Walk, from: Hop)
    requires
        faithful(world.reading.holds),
        walk.over(world.reading.table),
        from.depth is Some,
    ensures
        world.children(walk, from) == if from.depth->0 < walk.plan.max_depth {
            world.rows.filter(world.reading.follows(walk, from)).map_values(
                hop_at(from.depth->0 + 1),
            )
        } else {
            Seq::<Hop>::empty()
        },
{
    let reading = world.reading;
    let depth = from.depth->0;
    assert forall|row: Row| #[trigger]
        (reading.step_takes(walk, from))(row) == ((reading.follows(walk, from))(row) && depth
            < walk.plan.max_depth) by {
        lemma_step_takes(reading, walk, from, row);
    }
    if depth < walk.plan.max_depth {
        assert forall|row: Row| #[trigger]
            (reading.step_gives(walk, from))(row) == hop_at(depth + 1)(row) by {
            let env = reading.joined(row, walk.plan.name, from);
            assert(value(walk.step.items.last().expr, env) == Some(depth + 1));
        }
        lemma_same_hops(
            world.rows,
            reading.step_takes(walk, from),
            reading.step_gives(walk, from),
            reading.follows(walk, from),
            hop_at(depth + 1),
        );
    } else {
        world.rows.lemma_all_neg_filter_empty(reading.step_takes(walk, from));
    }
}

/// Which rows the recursive member takes.
proof fn lemma_step_takes(reading: Reading, walk: Walk, from: Hop, row: Row)
    requires
        faithful(reading.holds),
        walk.over(reading.table),
        from.depth is Some,
    ensures
        (reading.step_takes(walk, from))(row) == ((reading.follows(walk, from))(row)
            && from.depth->0 < walk.plan.max_depth),
{
    let plan = walk.plan;
    let step = walk.step;
    let env = reading.joined(row, plan.name, from);
    let asked = narrowed(walk.step_found, walk.step_scope).filters;
    let cap = step.filters.last();
    law_scope_narrows_exactly(walk.step_found, walk.step_scope, reading.holds, env);
    lemma_passes_both(asked, seq![cap], reading.holds, env);
    assert(step.filters =~= asked + seq![cap]);
    assert(passes(seq![cap], reading.holds, env) <==> (reading.holds)(cap, env)) by {
        assert(seq![cap][0] == cap);
    }
    let shape = expr_parts(cap).shape;
    assert(leaf_value(shape->Less_0, env) == from.depth);
    assert(leaf_value(shape->Less_1, env) == Some(plan.max_depth as int));
    assert((reading.holds)(cap, env) <==> from.depth->0 < plan.max_depth);

    let on = step.joins.last()->on;
    let link = on[0];
    assert(step.joins[0] == step.joins.last());
    assert(passes(on, reading.holds, env) <==> (reading.holds)(link, env));
    let shape = expr_parts(link).shape;
    assert(leaf_value(shape->Equal_0, env) == row(plan.child_col));
    assert(leaf_value(shape->Equal_1, env) == hop_value(from, plan.parent_col));
}

/// A row that comes up when rows are expanded comes from one of them, and the other way
/// round.
proof fn lemma_expanded_contains(world: World, walk: Walk, hops: Seq<Hop>, hop: Hop)
    ensures
        world.expanded(walk, hops).contains(hop) <==> exists|i: int|
            0 <= i < hops.len() && #[trigger] world.children(walk, hops[i]).contains(hop),
    decreases hops.len(),
{
    if hops.len() > 0 {
        let init = hops.drop_last();
        lemma_expanded_contains(world, walk, init, hop);
        let before = world.expanded(walk, init);
        let last = world.children(walk, hops.last());
        let all = before + last;
        if all.contains(hop) {
            let at = all.index_of(hop);
            if at < before.len() {
                assert(before[at] == hop);
                let i = choose|i: int|
                    0 <= i < init.len() && #[trigger] world.children(walk, init[i]).contains(hop);
                assert(world.children(walk, hops[i]).contains(hop));
            } else {
                assert(last[at - before.len()] == hop);
                assert(world.children(walk, hops[hops.len() - 1]).contains(hop));
            }
        }
        if exists|i: int|
            0 <= i < hops.len() && #[trigger] world.children(walk, hops[i]).contains(hop) {
            let i = choose|i: int|
                0 <= i < hops.len() && #[trigger] world.children(walk, hops[i]).contains(hop);
            if i < init.len() {
                assert(world.children(walk, init[i]).contains(hop));
                let at = before.index_of(hop);
                assert(all[at] == hop);
            } else {
                let at = last.index_of(hop);
                assert(all[before.len() + at] == hop);
            }
        }
    }
}

/// What is filtered out of rows and given at a depth.
proof fn lemma_hops_contain(rows: Seq<Row>, takes: spec_fn(Row) -> bool, depth: int, hop: Hop)
    ensures
        rows.filter(takes).map_values(hop_at(depth)).contains(hop) <==> hop.depth == Some(depth)
            && rows.contains(hop.row) && takes(hop.row),
{
    let taken = rows.filter(takes);
    let given = taken.map_values(hop_at(depth));
    if given.contains(hop) {
        let at = given.index_of(hop);
        rows.lemma_filter_pred(takes, at);
        rows.lemma_filter_contains_rev(takes, taken[at]);
    }
    if hop.depth == Some(depth) && rows.contains(hop.row) && takes(hop.row) {
        let at = rows.index_of(hop.row);
        rows.lemma_filter_contains(takes, at);
        let place = taken.index_of(hop.row);
        assert(given[place] == hop);
    }
}

/// A row of a round behind the first: it follows a row of the round before.
proof fn lemma_comes_from(world: World, walk: Walk, k: nat, hop: Hop) -> (from: Hop)
    requires
        k > 0,
        world.round(walk, k).contains(hop),
    ensures
        world.round(walk, (k - 1) as nat).contains(from),
        world.children(walk, from).contains(hop),
{
    let before = world.round(walk, (k - 1) as nat);
    lemma_expanded_contains(world, walk, before, hop);
    let i = choose|i: int|
        0 <= i < before.len() && #[trigger] world.children(walk, before[i]).contains(hop);
    before[i]
}

/// The depth of a row is the round in which it is given, and no round is behind the cap:
/// the walk ends, whatever the table holds, cycles included.
pub proof fn law_walk_is_capped(world: World, walk: Walk, k: nat)
    requires
        faithful(world.reading.holds),
        walk.over(world.reading.table),
    ensures
        forall|i: int|
            0 <= i < world.round(walk, k).len() ==> (#[trigger] world.round(walk, k)[i]).depth
                == Some(k as int),
        k > walk.plan.max_depth ==> world.round(walk, k).len() == 0,
    decreases k,
{
    if k == 0 {
        law_seed_is_exact(world, walk);
    } else {
        let before = (k - 1) as nat;
        law_walk_is_capped(world, walk, before);
        let round = world.round(walk, k);
        assert forall|i: int| 0 <= i < round.len() implies (#[trigger] round[i]).depth == Some(
            k as int,
        ) && k <= walk.plan.max_depth by {
            assert(round.contains(round[i]));
            let from = lemma_comes_from(world, walk, k, round[i]);
            let at = world.round(walk, before).index_of(from);
            assert(world.round(walk, before)[at].depth == Some(before as int));
            law_step_is_exact(world, walk, from);
            lemma_hops_contain(
                world.rows,
                world.reading.follows(walk, from),
                k as int,
                round[i],
            );
        }
        if k > walk.plan.max_depth && round.len() > 0 {
            assert(round[0].depth == Some(k as int));
        }
    }
}

/// Which rows a round behind the first has: those that follow a row of the round before,
/// as long as that row is below the cap. So the cap takes nothing from the rounds before
/// it.
pub proof fn law_round_is_exact(world: World, walk: Walk, k: nat, hop: Hop)
    requires
        faithful(world.reading.holds),
        walk.over(world.reading.table),
    ensures
        world.round(walk, k + 1).contains(hop) <==> {
            &&& k < walk.plan.max_depth
            &&& hop.depth == Some(k as int + 1)
            &&& world.rows.contains(hop.row)
            &&& exists|from: Hop| #[trigger]
                world.round(walk, k).contains(from) && (world.reading.follows(walk, from))(
                    hop.row,
                )
        },
{
    let before = world.round(walk, k);
    law_walk_is_capped(world, walk, k);
    lemma_expanded_contains(world, walk, before, hop);
    assert forall|i: int| 0 <= i < before.len() implies (#[trigger] world.children(
        walk,
        before[i],
    ).contains(hop) <==> k < walk.plan.max_depth && hop.depth == Some(k as int + 1)
        && world.rows.contains(hop.row) && (world.reading.follows(walk, before[i]))(hop.row)) by {
        assert(before[i].depth == Some(k as int));
        law_step_is_exact(world, walk, before[i]);
        lemma_hops_contain(
            world.rows,
            world.reading.follows(walk, before[i]),
            k as int + 1,
            hop,
        );
    }
    if world.round(walk, k + 1).contains(hop) {
        let i = choose|i: int|
            0 <= i < before.len() && #[trigger] world.children(walk, before[i]).contains(hop);
        assert(before.contains(before[i]));
    }
    if exists|from: Hop| #[trigger]
        before.contains(from) && (world.reading.follows(walk, from))(hop.row) {
        let from = choose|from: Hop| #[trigger]
            before.contains(from) && (world.reading.follows(walk, from))(hop.row);
        let at = before.index_of(from);
        assert(before[at] == from);
        assert(world.children(walk, before[at]).contains(hop) <==> k < walk.plan.max_depth
            && hop.depth == Some(k as int + 1) && world.rows.contains(hop.row));
    }
}

/// A cap of 0 gives the seed only.
pub proof fn law_zero_depth_gives_seed_only(world: World, walk: Walk)
    requires
        walk.plan.max_depth == 0,
    ensures
        world.result(walk) == world.round(walk, 0),
{
}

/// Every row that a walk gives is a row of the table at which the scope holds.
pub proof fn law_walk_stays_in_scope(world: World, walk: Walk, k: nat, hop: Hop)
    requires
        faithful(world.reading.holds),
        walk.over(world.reading.table),
        world.round(walk, k).contains(hop),
    ensures
        world.rows.contains(hop.row),
        (world.reading.in_scope(walk))(hop.row),
{
    if k == 0 {
        law_seed_is_exact(world, walk);
        lemma_hops_contain(world.rows, world.reading.starts(walk), 0, hop);
        lemma_starts_in_scope(world.reading, walk, hop.row);
    } else {
        law_round_is_exact(world, walk, (k - 1) as nat, hop);
        let from = choose|from: Hop| #[trigger]
            world.round(walk, (k - 1) as nat).contains(from) && (world.reading.follows(
                walk,
                from,
            ))(hop.row);
        lemma_follows_in_scope(world.reading, walk, from, hop.row);
    }
}

/// A row that starts a walk is in scope.
proof fn lemma_starts_in_scope(reading: Reading, walk: Walk, row: Row)
    requires
        (reading.starts(walk))(row),
    ensures
        (reading.in_scope(walk))(row),
{
    let env = reading.at(row);
    assert(reading.shows(env, row));
}

/// A row that follows another is in scope.
proof fn lemma_follows_in_scope(reading: Reading, walk: Walk, from: Hop, row: Row)
    requires
        walk.over(reading.table),
        (reading.follows(walk, from))(row),
    ensures
        (reading.in_scope(walk))(row),
{
    let env = reading.joined(row, walk.plan.name, from);
    assert(reading.shows(env, row));
}

/// Rows that have the same children in two worlds are expanded alike.
proof fn lemma_same_expansion(
    world: World,
    walk: Walk,
    other_world: World,
    other_walk: Walk,
    hops: Seq<Hop>,
)
    requires
        forall|i: int|
            0 <= i < hops.len() ==> #[trigger] world.children(walk, hops[i])
                == other_world.children(other_walk, hops[i]),
    ensures
        world.expanded(walk, hops) == other_world.expanded(other_walk, hops),
    decreases hops.len(),
{
    if hops.len() > 0 {
        let init = hops.drop_last();
        assert forall|i: int| 0 <= i < init.len() implies #[trigger] world.children(walk, init[i])
            == other_world.children(other_walk, init[i]) by {
            assert(world.children(walk, hops[i]) == other_world.children(other_walk, hops[i]));
        }
        lemma_same_expansion(world, walk, other_world, other_walk, init);
        let last = hops.len() - 1;
        assert(world.children(walk, hops[last]) == other_world.children(other_walk, hops[last]));
    }
}

/// Whether two walks differ in their caps alone.
pub open spec fn same_but_cap(walk: Walk, other: Walk) -> bool {
    &&& other.plan == (WalkPlan { max_depth: other.plan.max_depth, ..walk.plan })
    &&& other.seed_found == walk.seed_found
    &&& other.seed_scope == walk.seed_scope
    &&& other.step_found == walk.step_found
    &&& other.step_scope == walk.step_scope
}

/// Up to the smaller of their caps, walks that differ in the cap alone give the same rounds.
pub proof fn law_rounds_below_cap_agree(world: World, walk: Walk, other: Walk, k: nat)
    requires
        faithful(world.reading.holds),
        walk.over(world.reading.table),
        other.over(world.reading.table),
        same_but_cap(walk, other),
        k <= walk.plan.max_depth,
        k <= other.plan.max_depth,
    ensures
        world.round(walk, k) == world.round(other, k),
    decreases k,
{
    let reading = world.reading;
    if k == 0 {
        law_seed_is_exact(world, walk);
        law_seed_is_exact(world, other);
        assert(reading.starts(walk) =~= reading.starts(other));
    } else {
        let before = (k - 1) as nat;
        law_rounds_below_cap_agree(world, walk, other, before);
        law_walk_is_capped(world, walk, before);
        let hops = world.round(walk, before);
        assert forall|i: int| 0 <= i < hops.len() implies #[trigger] world.children(walk, hops[i])
            == world.children(other, hops[i]) by {
            assert(hops[i].depth == Some(before as int));
            law_step_is_exact(world, walk, hops[i]);
            law_step_is_exact(world, other, hops[i]);
            assert(reading.follows(walk, hops[i]) =~= reading.follows(other, hops[i]));
        }
        lemma_same_expansion(world, walk, world, other, hops);
    }
}

/// Whether a row is at most so deep.
pub open spec fn at_most(depth: nat) -> spec_fn(Hop) -> bool {
    |hop: Hop| hop.depth is Some && hop.depth->0 <= depth
}

/// What a walk gives under a cap is what it gives under a larger cap, as far as that is no
/// deeper than the smaller one, each row as often.
pub proof fn law_smaller_cap_gives_the_shallower_rows(world: World, walk: Walk, larger: Walk)
    requires
        faithful(world.reading.holds),
        walk.over(world.reading.table),
        larger.over(world.reading.table),
        same_but_cap(walk, larger),
        walk.plan.max_depth <= larger.plan.max_depth,
    ensures
        world.result(walk) == world.result(larger).filter(at_most(walk.plan.max_depth)),
{
    lemma_rounds_up_to(world, walk, larger, larger.plan.max_depth);
}

/// The rounds of the larger cap up to `k`, without what is deeper than the smaller cap.
proof fn lemma_rounds_up_to(world: World, walk: Walk, larger: Walk, k: nat)
    requires
        faithful(world.reading.holds),
        walk.over(world.reading.table),
        larger.over(world.reading.table),
        same_but_cap(walk, larger),
        walk.plan.max_depth <= larger.plan.max_depth,
        k <= larger.plan.max_depth,
    ensures
        world.rounds(larger, k).filter(at_most(walk.plan.max_depth)) == world.rounds(
            walk,
            if k <= walk.plan.max_depth {
                k
            } else {
                walk.plan.max_depth
            },
        ),
    decreases k,
{
    let cap = walk.plan.max_depth;
    let round = world.round(larger, k);
    law_walk_is_capped(world, larger, k);
    if k <= cap {
        law_rounds_below_cap_agree(world, walk, larger, k);
        lemma_all_pass(round, at_most(cap));
    } else {
        round.lemma_all_neg_filter_empty(at_most(cap));
    }
    if k > 0 {
        lemma_rounds_up_to(world, walk, larger, (k - 1) as nat);
        Seq::filter_distributes_over_add(
            world.rounds(larger, (k - 1) as nat),
            round,
            at_most(cap),
        );
        assert(world.rounds(larger, k).filter(at_most(cap)) =~= world.rounds(
            larger,
            (k - 1) as nat,
        ).filter(at_most(cap)) + round.filter(at_most(cap)));
    }
}

/// A filter that everything passes drops nothing.
proof fn lemma_all_pass<A>(items: Seq<A>, takes: spec_fn(A) -> bool)
    requires
        forall|i: int| 0 <= i < items.len() ==> takes(#[trigger] items[i]),
    ensures
        items.filter(takes) == items,
    decreases items.len(),
{
    reveal(Seq::filter);
    if items.len() > 0 {
        let init = items.drop_last();
        assert forall|i: int| 0 <= i < init.len() implies takes(#[trigger] init[i]) by {
            assert(init[i] == items[i]);
        }
        lemma_all_pass(init, takes);
        assert(takes(items[items.len() - 1]));
        assert(items =~= init.push(items.last()));
    }
}

/// A filter that passes nothing beyond another one can be applied behind it.
proof fn lemma_filter_through<A>(
    items: Seq<A>,
    wide: spec_fn(A) -> bool,
    narrow: spec_fn(A) -> bool,
)
    requires
        forall|item: A| #[trigger] narrow(item) ==> wide(item),
    ensures
        items.filter(narrow) == items.filter(wide).filter(narrow),
    decreases items.len(),
{
    reveal(Seq::filter);
    if items.len() > 0 {
        let init = items.drop_last();
        lemma_filter_through(init, wide, narrow);
        if wide(items.last()) {
            let kept = init.filter(wide);
            assert(kept.push(items.last()).drop_last() =~= kept);
        }
    }
}

/// Rows out of scope have no say: over tables that agree on the rows in scope, a walk gives
/// the same. None of the others is given, and none is a stepping stone.
pub proof fn law_rows_out_of_scope_have_no_say(world: World, other: World, walk: Walk, k: nat)
    requires
        faithful(world.reading.holds),
        walk.over(world.reading.table),
        other.reading == world.reading,
        world.rows.filter(world.reading.in_scope(walk)) == other.rows.filter(
            world.reading.in_scope(walk),
        ),
    ensures
        world.round(walk, k) == other.round(walk, k),
        world.rounds(walk, k) == other.rounds(walk, k),
        world.result(walk) == other.result(walk),
{
    lemma_rounds_agree(world, other, walk, k);
    lemma_rounds_agree(world, other, walk, walk.plan.max_depth);
}

/// The rounds over tables that agree on the rows in scope.
proof fn lemma_rounds_agree(world: World, other: World, walk: Walk, k: nat)
    requires
        faithful(world.reading.holds),
        walk.over(world.reading.table),
        other.reading == world.reading,
        world.rows.filter(world.reading.in_scope(walk)) == other.rows.filter(
            world.reading.in_scope(walk),
        ),
    ensures
        world.round(walk, k) == other.round(walk, k),
        world.rounds(walk, k) == other.rounds(walk, k),
    decreases k,
{
    let reading = world.reading;
    let scope = reading.in_scope(walk);
    if k == 0 {
        law_seed_is_exact(world, walk);
        law_seed_is_exact(other, walk);
        let starts = reading.starts(walk);
        assert forall|row: Row| #[trigger] starts(row) implies scope(row) by {
            lemma_starts_in_scope(reading, walk, row);
        }
        lemma_filter_through(world.rows, scope, starts);
        lemma_filter_through(other.rows, scope, starts);
    } else {
        let before = (k - 1) as nat;
        lemma_rounds_agree(world, other, walk, before);
        law_walk_is_capped(world, walk, before);
        let hops = world.round(walk, before);
        assert forall|i: int| 0 <= i < hops.len() implies #[trigger] world.children(walk, hops[i])
            == other.children(walk, hops[i]) by {
            let from = hops[i];
            assert(from.depth == Some(before as int));
            law_step_is_exact(world, walk, from);
            law_step_is_exact(other, walk, from);
            let follows = reading.follows(walk, from);
            assert forall|row: Row| #[trigger] follows(row) implies scope(row) by {
                lemma_follows_in_scope(reading, walk, from, row);
            }
            lemma_filter_through(world.rows, scope, follows);
            lemma_filter_through(other.rows, scope, follows);
        }
        lemma_same_expansion(world, walk, other, walk, hops);
    }
}

/// The row that a path of rows, from the seed on, ends in.
pub open spec fn end_of() -> spec_fn(Seq<Row>) -> Hop {
    |path: Seq<Row>| Hop { row: path.last(), depth: Some(path.len() - 1) }
}

/// A path that goes on to one more row.
pub open spec fn path_to(path: Seq<Row>) -> spec_fn(Row) -> Seq<Row> {
    |row: Row| path.push(row)
}

impl World {
    /// Whether a list of rows is a path in scope, up to the cap: it starts at a row that
    /// starts the walk, and each further row follows the one before it.
    pub open spec fn is_path(self, walk: Walk, path: Seq<Row>) -> bool
        decreases path.len(),
    {
        if path.len() == 0 {
            false
        } else if path.len() == 1 {
            self.rows.contains(path[0]) && (self.reading.starts(walk))(path[0])
        } else {
            let init = path.drop_last();
            &&& self.is_path(walk, init)
            &&& path.len() - 1 <= walk.plan.max_depth
            &&& self.rows.contains(path.last())
            &&& (self.reading.follows(walk, end_of()(init)))(path.last())
        }
    }

    /// The paths that go on from `path` by one row.
    pub open spec fn longer(self, walk: Walk, path: Seq<Row>) -> Seq<Seq<Row>> {
        if path.len() - 1 < walk.plan.max_depth {
            self.rows.filter(self.reading.follows(walk, end_of()(path))).map_values(path_to(path))
        } else {
            Seq::empty()
        }
    }

    /// The paths that go on from `paths`, one after the other.
    pub open spec fn all_longer(self, walk: Walk, paths: Seq<Seq<Row>>) -> Seq<Seq<Row>>
        decreases paths.len(),
    {
        if paths.len() == 0 {
            Seq::empty()
        } else {
            self.all_longer(walk, paths.drop_last()) + self.longer(walk, paths.last())
        }
    }

    /// The paths of `k` hops.
    pub open spec fn paths(self, walk: Walk, k: nat) -> Seq<Seq<Row>>
        decreases k,
    {
        if k == 0 {
            self.rows.filter(self.reading.starts(walk)).map_values(path_to(Seq::<Row>::empty()))
        } else {
            self.all_longer(walk, self.paths(walk, (k - 1) as nat))
        }
    }
}

/// One row for every path: round `k` lists, path by path, where the paths of `k` hops end.
pub proof fn law_one_row_per_path(world: World, walk: Walk, k: nat)
    requires
        faithful(world.reading.holds),
        walk.over(world.reading.table),
    ensures
        world.round(walk, k) == world.paths(walk, k).map_values(end_of()),
        forall|i: int|
            0 <= i < world.paths(walk, k).len() ==> (#[trigger] world.paths(walk, k)[i]).len()
                == k + 1,
    decreases k,
{
    let reading = world.reading;
    if k == 0 {
        law_seed_is_exact(world, walk);
        assert(world.round(walk, 0) =~= world.paths(walk, 0).map_values(end_of()));
    } else {
        let before = (k - 1) as nat;
        law_one_row_per_path(world, walk, before);
        lemma_longer_ends(world, walk, world.paths(walk, before), k);
    }
}

/// Where longer paths end.
proof fn lemma_longer_ends(world: World, walk: Walk, paths: Seq<Seq<Row>>, k: nat)
    requires
        faithful(world.reading.holds),
        walk.over(world.reading.table),
        forall|i: int| 0 <= i < paths.len() ==> (#[trigger] paths[i]).len() == k,
        k > 0,
    ensures
        world.expanded(walk, paths.map_values(end_of())) == world.all_longer(
            walk,
            paths,
        ).map_values(end_of()),
        forall|i: int|
            0 <= i < world.all_longer(walk, paths).len() ==> (#[trigger] world.all_longer(
                walk,
                paths,
            )[i]).len() == k + 1,
    decreases paths.len(),
{
    if paths.len() > 0 {
        let init = paths.drop_last();
        let last = paths[paths.len() - 1];
        assert forall|i: int| 0 <= i < init.len() implies (#[trigger] init[i]).len() == k by {
            assert(init[i] == paths[i]);
        }
        lemma_longer_ends(world, walk, init, k);
        let ends = paths.map_values(end_of());
        assert(ends.drop_last() =~= init.map_values(end_of()));
        assert(ends.last() == end_of()(last));
        law_step_is_exact(world, walk, end_of()(last));
        assert(world.children(walk, end_of()(last)) =~= world.longer(walk, last).map_values(
            end_of(),
        ));
        assert(world.expanded(walk, ends) =~= world.all_longer(walk, paths).map_values(end_of()));
    }
}

/// The paths of `k` hops are the paths in scope of that length, and no others: with
/// [`law_one_row_per_path`], the walk gives a row as often as there are paths to it.
pub proof fn law_paths_are_exact(world: World, walk: Walk, k: nat, path: Seq<Row>)
    requires
        faithful(world.reading.holds),
        walk.over(world.reading.table),
    ensures
        world.paths(walk, k).contains(path) <==> world.is_path(walk, path) && path.len() == k + 1,
    decreases k,
{
    let rows = world.rows;
    if k == 0 {
        let starts = world.reading.starts(walk);
        lemma_paths_contain(rows, starts, Seq::<Row>::empty(), path);
        if path.len() == 1 {
            assert(path.drop_last() =~= Seq::<Row>::empty());
            assert(path =~= Seq::<Row>::empty().push(path[0]));
        }
    } else {
        let before = world.paths(walk, (k - 1) as nat);
        lemma_all_longer_contains(world, walk, before, path);
        law_one_row_per_path(world, walk, (k - 1) as nat);
        if path.len() > 0 {
            let init = path.drop_last();
            law_paths_are_exact(world, walk, (k - 1) as nat, init);
            lemma_paths_contain(
                rows,
                world.reading.follows(walk, end_of()(init)),
                init,
                path,
            );
            assert(path =~= init.push(path.last()));
            if before.contains(init) {
                let at = before.index_of(init);
                assert(before[at] == init);
                assert(world.longer(walk, before[at]).contains(path) <==> world.longer(
                    walk,
                    init,
                ).contains(path));
            }
        }
        if world.paths(walk, k).contains(path) {
            let i = choose|i: int|
                0 <= i < before.len() && #[trigger] world.longer(walk, before[i]).contains(path);
            lemma_paths_contain(
                rows,
                world.reading.follows(walk, end_of()(before[i])),
                before[i],
                path,
            );
            assert(path.drop_last() =~= before[i]);
            assert(before.contains(before[i]));
        }
    }
}

/// The paths that go on from one path.
proof fn lemma_paths_contain(
    rows: Seq<Row>,
    takes: spec_fn(Row) -> bool,
    init: Seq<Row>,
    path: Seq<Row>,
)
    ensures
        rows.filter(takes).map_values(path_to(init)).contains(path) <==> path.len() > 0 && path
            == init.push(path.last()) && rows.contains(path.last()) && takes(path.last()),
{
    let taken = rows.filter(takes);
    let given = taken.map_values(path_to(init));
    if given.contains(path) {
        let at = given.index_of(path);
        assert(path == init.push(taken[at]));
        assert(path.last() == taken[at]);
        rows.lemma_filter_pred(takes, at);
        rows.lemma_filter_contains_rev(takes, taken[at]);
    }
    if path.len() > 0 && path == init.push(path.last()) && rows.contains(path.last()) && takes(
        path.last(),
    ) {
        let at = rows.index_of(path.last());
        rows.lemma_filter_contains(takes, at);
        let place = taken.index_of(path.last());
        assert(given[place] == path);
    }
}

/// A longer path goes on from one of the paths, and the other way round.
proof fn lemma_all_longer_contains(
    world: World,
    walk: Walk,
    paths: Seq<Seq<Row>>,
    path: Seq<Row>,
)
    ensures
        world.all_longer(walk, paths).contains(path) <==> exists|i: int|
            0 <= i < paths.len() && #[trigger] world.longer(walk, paths[i]).contains(path),
    decreases paths.len(),
{
    if paths.len() > 0 {
        let init = paths.drop_last();
        lemma_all_longer_contains(world, walk, init, path);
        let before = world.all_longer(walk, init);
        let last = world.longer(walk, paths.last());
        let all = before + last;
        if all.contains(path) {
            let at = all.index_of(path);
            if at < before.len() {
                assert(before[at] == path);
                let i = choose|i: int|
                    0 <= i < init.len() && #[trigger] world.longer(walk, init[i]).contains(path);
                assert(world.longer(walk, paths[i]).contains(path));
            } else {
                assert(last[at - before.len()] == path);
                assert(world.longer(walk, paths[paths.len() - 1]).contains(path));
            }
        }
        if exists|i: int|
            0 <= i < paths.len() && #[trigger] world.longer(walk, paths[i]).contains(path) {
            let i = choose|i: int|
                0 <= i < paths.len() && #[trigger] world.longer(walk, paths[i]).contains(path);
            if i < init.len() {
                assert(world.longer(walk, init[i]).contains(path));
                let at = before.index_of(path);
                assert(all[at] == path);
            } else {
                let at = last.index_of(path);
                assert(all[before.len() + at] == path);
            }
        }
    }
}

/// In a table without duplicates each path comes once.
pub proof fn law_each_path_comes_once(world: World, walk: Walk, k: nat)
    requires
        world.rows.no_duplicates(),
    ensures
        world.paths(walk, k).no_duplicates(),
    decreases k,
{
    if k == 0 {
        lemma_extensions_differ(
            world.rows,
            world.reading.starts(walk),
            Seq::<Row>::empty(),
        );
    } else {
        law_each_path_comes_once(world, walk, (k - 1) as nat);
        lemma_longer_differ(world, walk, world.paths(walk, (k - 1) as nat));
    }
}

/// Filtering a list without duplicates leaves none.
proof fn lemma_filter_no_duplicates<A>(items: Seq<A>, takes: spec_fn(A) -> bool)
    requires
        items.no_duplicates(),
    ensures
        items.filter(takes).no_duplicates(),
    decreases items.len(),
{
    reveal(Seq::filter);
    if items.len() > 0 {
        let init = items.drop_last();
        assert forall|i: int, j: int|
            0 <= i < init.len() && 0 <= j < init.len() && i != j implies init[i] != init[j] by {
            assert(init[i] == items[i] && init[j] == items[j]);
        }
        lemma_filter_no_duplicates(init, takes);
        let kept = init.filter(takes);
        assert forall|i: int| 0 <= i < kept.len() implies #[trigger] kept[i] != items.last() by {
            assert(kept.contains(kept[i]));
            init.lemma_filter_contains_rev(takes, kept[i]);
            let at = init.index_of(kept[i]);
            assert(items[at] == kept[i]);
        }
    }
}

/// The paths that go on from one path differ.
proof fn lemma_extensions_differ(rows: Seq<Row>, takes: spec_fn(Row) -> bool, init: Seq<Row>)
    requires
        rows.no_duplicates(),
    ensures
        rows.filter(takes).map_values(path_to(init)).no_duplicates(),
{
    lemma_filter_no_duplicates(rows, takes);
    let taken = rows.filter(takes);
    let given = taken.map_values(path_to(init));
    assert forall|i: int, j: int|
        0 <= i < given.len() && 0 <= j < given.len() && i != j implies given[i] != given[j] by {
        assert(given[i].last() == taken[i] && given[j].last() == taken[j]);
    }
}

/// The paths that go on from different paths differ.
proof fn lemma_longer_differ(world: World, walk: Walk, paths: Seq<Seq<Row>>)
    requires
        world.rows.no_duplicates(),
        paths.no_duplicates(),
    ensures
        world.all_longer(walk, paths).no_duplicates(),
    decreases paths.len(),
{
    if paths.len() > 0 {
        let init = paths.drop_last();
        let last = paths.last();
        assert forall|i: int, j: int|
            0 <= i < init.len() && 0 <= j < init.len() && i != j implies init[i] != init[j] by {
            assert(init[i] == paths[i] && init[j] == paths[j]);
        }
        lemma_longer_differ(world, walk, init);
        lemma_extensions_differ(world.rows, world.reading.follows(walk, end_of()(last)), last);
        let before = world.all_longer(walk, init);
        let after = world.longer(walk, last);
        let all = before + after;
        assert forall|i: int, j: int|
            0 <= i < before.len() && 0 <= j < after.len() implies before[i] != after[j] by {
            let path = before[i];
            assert(before.contains(path));
            lemma_all_longer_contains(world, walk, init, path);
            let at = choose|at: int|
                0 <= at < init.len() && #[trigger] world.longer(walk, init[at]).contains(path);
            lemma_paths_contain(
                world.rows,
                world.reading.follows(walk, end_of()(init[at])),
                init[at],
                path,
            );
            assert(path.drop_last() =~= init[at]);
            assert(after[j].drop_last() =~= last);
            assert(init[at] == paths[at]);
        }
        assert forall|i: int, j: int|
            0 <= i < all.len() && 0 <= j < all.len() && i != j implies all[i] != all[j] by {
            if i < before.len() && j < before.len() {
            } else if i >= before.len() && j >= before.len() {
                assert(after[i - before.len()] != after[j - before.len()]);
            }
        }
    }
}

/// Nothing remembers what was visited: the members of a cycle come again, round after
/// round, until the cap stops the walk.
pub proof fn law_cycles_repeat_up_to_cap(world: World, walk: Walk, cycle: Seq<Row>, k: nat)
    requires
        faithful(world.reading.holds),
        walk.over(world.reading.table),
        cycle.len() > 0,
        forall|i: int| 0 <= i < cycle.len() ==> world.rows.contains(#[trigger] cycle[i]),
        (world.reading.starts(walk))(cycle[0]),
        forall|i: int, depth: int|
            0 <= i < cycle.len() ==> #[trigger] (world.reading.follows(walk, hop_at(depth)(cycle[i])))(
                cycle[(i + 1) % (cycle.len() as int)],
            ),
        k <= walk.plan.max_depth,
    ensures
        world.round(walk, k).contains(hop_at(k as int)(cycle[k as int % (cycle.len() as int)])),
    decreases k,
{
    let len = cycle.len() as int;
    let hop = hop_at(k as int)(cycle[k as int % len]);
    if k == 0 {
        lemma_small_mod(0, len as nat);
        law_seed_is_exact(world, walk);
        lemma_hops_contain(world.rows, world.reading.starts(walk), 0, hop);
    } else {
        let before = (k - 1) as nat;
        law_cycles_repeat_up_to_cap(world, walk, cycle, before);
        let at = before as int % len;
        let from = hop_at(before as int)(cycle[at]);
        assert((at + 1) % len == k as int % len) by {
            lemma_add_mod_noop(before as int, 1, len);
            lemma_add_mod_noop(at, 1, len);
            lemma_small_mod(at as nat, len as nat);
        }
        assert((world.reading.follows(walk, from))(cycle[(at + 1) % len]));
        law_round_is_exact(world, walk, before, hop);
        assert(before + 1 == k);
    }
}

} // verus!
