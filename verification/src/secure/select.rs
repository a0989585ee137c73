//! Selects that have, or have not yet, been given the scope of their caller.

use std::marker::PhantomData;
use std::sync::Arc;

use sea_orm::sea_query::{Condition, Expr, SelectStatement};
use vstd::prelude::*;

use crate::secure::sql::{
    condition_parts, select_cond_where, select_made, select_parts, ConditionParts, DbBackend,
    SelectCall, SelectParts,
};

verus! {

/// A table that can be selected from.
pub trait Entity {
    /// A select of every row, with every column of the table as an item: it asks nothing,
    /// joins and unites nothing, takes conditions, and is there on every database.
    fn find() -> (select: SelectStatement)
        ensures
            select_parts(select).filters.len() == 0,
            !select_parts(select).chained,
            select_parts(select).joins.len() == 0,
            select_parts(select).unions.len() == 0,
            select_parts(select).backends == Set::<DbBackend>::full(),
    ;

    /// The name of the table.
    fn table() -> String;
}

/// An entity whose rows a scope of type `S` can be limited to.
pub trait ScopableEntity<S>: Entity {
    /// The condition that a row meets if and only if the scope reaches it. It is there on
    /// every database.
    fn build_scope_condition(scope: &S) -> (condition: Condition)
        ensures
            condition_parts(condition).backends == Set::<DbBackend>::full(),
    ;
}

/// The state of a select without a scope. It cannot be given definitions.
pub struct Unscoped;

/// The state of a select with a scope.
pub struct Scoped<S> {
    scope: Arc<S>,
}

/// A select of `E`, with or without a scope.
#[must_use]
pub struct SecureSelect<E, State> {
    inner: SelectStatement,
    state: State,
    _entity: PhantomData<E>,
}

/// A select with a condition on top of what it asked already.
pub open spec fn narrowed(select: SelectParts, condition: ConditionParts) -> SelectParts {
    SelectParts {
        filters: select.filters + condition.conjuncts,
        blank: select_made(select.blank, SelectCall::CondWhere(condition.blank)),
        backends: select.backends.intersect(condition.backends),
        ..select
    }
}

/// Whether each of `conjuncts` is among `filters`.
pub open spec fn asks_all(filters: Seq<Expr>, conjuncts: Seq<Expr>) -> bool {
    forall|i: int| 0 <= i < conjuncts.len() ==> filters.contains(#[trigger] conjuncts[i])
}

/// Which conditions limit the rows of `E` to a scope: those that `build_scope_condition` can
/// answer.
pub open spec fn scope_rule<E: ScopableEntity<S>, S>() -> spec_fn(S, Condition) -> bool {
    |scope: S, condition: Condition|
        call_ensures(E::build_scope_condition, (&scope,), condition)
}

/// Whether a select asks everything that some condition of a rule asks for a scope.
pub open spec fn carries_scope<S>(
    select: SelectStatement,
    rule: spec_fn(S, Condition) -> bool,
    scope: S,
) -> bool {
    exists|condition: Condition| #[trigger]
        rule(scope, condition) && asks_all(
            select_parts(select).filters,
            condition_parts(condition).conjuncts,
        )
}

/// A select that is narrowed further carries the scope that it carried.
pub proof fn law_narrowing_keeps_scope<S>(
    before: SelectStatement,
    after: SelectStatement,
    rule: spec_fn(S, Condition) -> bool,
    scope: S,
)
    requires
        carries_scope(before, rule, scope),
        select_parts(before).filters.is_prefix_of(select_parts(after).filters),
    ensures
        carries_scope(after, rule, scope),
{
    let condition = choose|condition: Condition| #[trigger]
        rule(scope, condition) && asks_all(
            select_parts(before).filters,
            condition_parts(condition).conjuncts,
        );
    let conjuncts = condition_parts(condition).conjuncts;
    let old_filters = select_parts(before).filters;
    let new_filters = select_parts(after).filters;
    assert forall|i: int| 0 <= i < conjuncts.len() implies new_filters.contains(
        #[trigger] conjuncts[i],
    ) by {
        assert(old_filters.contains(conjuncts[i]));
        let at = old_filters.index_of(conjuncts[i]);
        assert(new_filters[at] == old_filters[at]);
    }
}

/// A select with a condition on top carries the scope that the condition stands for.
pub proof fn law_condition_gives_scope<S>(
    select: SelectStatement,
    before: SelectParts,
    condition: Condition,
    rule: spec_fn(S, Condition) -> bool,
    scope: S,
)
    requires
        rule(scope, condition),
        (before.filters + condition_parts(condition).conjuncts).is_prefix_of(
            select_parts(select).filters,
        ),
    ensures
        carries_scope(select, rule, scope),
{
    let conjuncts = condition_parts(condition).conjuncts;
    let filters = select_parts(select).filters;
    assert forall|i: int| 0 <= i < conjuncts.len() implies filters.contains(
        #[trigger] conjuncts[i],
    ) by {
        let at = before.filters.len() + i;
        assert((before.filters + conjuncts)[at] == conjuncts[i]);
        assert(filters[at] == conjuncts[i]);
    }
}

/// A condition on top of a select is added to what it asks, behind what it asked before,
/// and everything else that it selects stays as it is.
pub proof fn law_narrowing_adds_conjuncts_only(select: SelectParts, condition: ConditionParts)
    ensures
        narrowed(select, condition).filters == select.filters + condition.conjuncts,
        narrowed(select, condition).distinct == select.distinct,
        narrowed(select, condition).items == select.items,
        narrowed(select, condition).joins == select.joins,
        narrowed(select, condition).chained == select.chained,
        narrowed(select, condition).unions == select.unions,
        narrowed(select, condition).orders == select.orders,
        narrowed(select, condition).limit == select.limit,
        narrowed(select, condition).rest == select.rest,
        narrowed(select, condition).blank == select_made(
            select.blank,
            SelectCall::CondWhere(condition.blank),
        ),
        forall|backend: DbBackend| #[trigger]
            narrowed(select, condition).backends.contains(backend)
                <==> select.backends.contains(backend) && condition.backends.contains(backend),
{
}

/// To carry a scope is to ask each conjunct of a condition that `build_scope_condition` can
/// answer for it.
pub proof fn law_scope_is_asked_in_full<E: ScopableEntity<S>, S>(select: SelectStatement, scope: S)
    ensures
        carries_scope(select, scope_rule::<E, S>(), scope) <==> exists|condition: Condition|
            #[trigger] call_ensures(E::build_scope_condition, (&scope,), condition) && forall|
                i: int,
            |
                0 <= i < condition_parts(condition).conjuncts.len() ==> select_parts(
                    select,
                ).filters.contains(#[trigger] condition_parts(condition).conjuncts[i]),
{
    let rule = scope_rule::<E, S>();
    if carries_scope(select, rule, scope) {
        let condition = choose|condition: Condition| #[trigger]
            rule(scope, condition) && asks_all(
                select_parts(select).filters,
                condition_parts(condition).conjuncts,
            );
        assert(call_ensures(E::build_scope_condition, (&scope,), condition));
    }
    if exists|condition: Condition|
        #[trigger] call_ensures(E::build_scope_condition, (&scope,), condition) && forall|i: int|
            0 <= i < condition_parts(condition).conjuncts.len() ==> select_parts(
                select,
            ).filters.contains(#[trigger] condition_parts(condition).conjuncts[i]) {
        let condition = choose|condition: Condition|
            #[trigger] call_ensures(E::build_scope_condition, (&scope,), condition) && forall|
                i: int,
            |
                0 <= i < condition_parts(condition).conjuncts.len() ==> select_parts(
                    select,
                ).filters.contains(#[trigger] condition_parts(condition).conjuncts[i]);
        assert(rule(scope, condition));
        assert(asks_all(select_parts(select).filters, condition_parts(condition).conjuncts));
    }
}

/// Adds the condition of a scope to a select. There is no other place where a scope is
/// applied.
pub fn apply_scope(select: SelectStatement, condition: Condition) -> (scoped: SelectStatement)
    requires
        !select_parts(select).chained,
    ensures
        select_parts(scoped) == narrowed(select_parts(select), condition_parts(condition)),
        select_parts(scoped) == (SelectParts {
            filters: select_parts(select).filters + condition_parts(condition).conjuncts,
            blank: select_made(
                select_parts(select).blank,
                SelectCall::CondWhere(condition_parts(condition).blank),
            ),
            backends: select_parts(select).backends.intersect(condition_parts(condition).backends),
            ..select_parts(select)
        }),
{
    let mut scoped = select;
    select_cond_where(&mut scoped, condition);
    scoped
}

/// Starts a select that is to be scoped.
pub fn secure<E>(select: SelectStatement) -> (unscoped: SecureSelect<E, Unscoped>)
    ensures
        unscoped.query() == select,
{
    SecureSelect { inner: select, state: Unscoped, _entity: PhantomData }
}

impl<E, State> SecureSelect<E, State> {
    /// The select as it stands.
    pub closed spec fn query(self) -> SelectStatement {
        self.inner
    }

    /// Gives the select out.
    pub fn into_inner(self) -> (select: SelectStatement)
        ensures
            select == self.query(),
    {
        self.inner
    }
}

impl<E> SecureSelect<E, Unscoped> {
    /// Limits the select to what the scope reaches.
    ///
    /// The condition is whatever `build_scope_condition` answers for `E` and this scope.
    pub fn scope_with_arc<S>(self, scope: Arc<S>) -> (scoped: SecureSelect<E, Scoped<S>>) where
        E: ScopableEntity<S>,

        requires
            !select_parts(self.query()).chained,
        ensures
            scoped.wf(),
            scoped.scope() == *scope,
            exists|condition: Condition|
                call_ensures(E::build_scope_condition, (&*scope,), condition) && select_parts(
                    scoped.query(),
                ) == #[trigger] narrowed(
                    select_parts(self.query()),
                    condition_parts(condition),
                ),
            exists|condition: Condition|
                #[trigger] call_ensures(E::build_scope_condition, (&*scope,), condition)
                    && select_parts(scoped.query()) == (SelectParts {
                    filters: select_parts(self.query()).filters
                        + condition_parts(condition).conjuncts,
                    blank: select_made(
                        select_parts(self.query()).blank,
                        SelectCall::CondWhere(condition_parts(condition).blank),
                    ),
                    backends: select_parts(self.query()).backends.intersect(
                        condition_parts(condition).backends,
                    ),
                    ..select_parts(self.query())
                }),
    {
        let condition = E::build_scope_condition(&*scope);
        let ghost before = select_parts(self.inner);
        let inner = apply_scope(self.inner, condition);
        let scoped = SecureSelect { inner, state: Scoped { scope }, _entity: PhantomData };
        proof {
            law_condition_gives_scope(
                inner,
                before,
                condition,
                scope_rule::<E, S>(),
                scoped.scope(),
            );
        }
        scoped
    }
}

impl<E, S> SecureSelect<E, Scoped<S>> {
    /// The scope that the select was given.
    pub closed spec fn scope(self) -> S {
        *self.state.scope
    }

    /// The scope, shared.
    pub fn scope_arc(&self) -> (scope: Arc<S>)
        ensures
            *scope == self.scope(),
    {
        Arc::clone(&self.state.scope)
    }
}

impl<S, E: ScopableEntity<S>> SecureSelect<E, Scoped<S>> {
    /// A scoped select carries its scope, and takes further conditions.
    pub open spec fn wf(self) -> bool {
        &&& !select_parts(self.query()).chained
        &&& carries_scope(self.query(), scope_rule::<E, S>(), self.scope())
    }
}

/// What a scoped select keeps: it takes further conditions, and it carries its scope.
pub proof fn law_scoped_select_carries_its_scope<S, E: ScopableEntity<S>>(
    select: SecureSelect<E, Scoped<S>>,
)
    ensures
        select.wf() <==> !select_parts(select.query()).chained && carries_scope(
            select.query(),
            scope_rule::<E, S>(),
            select.scope(),
        ),
{
}

} // verus!
