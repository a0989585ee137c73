//! What secured queries keep, however they are put together.

use sea_orm::sea_query::SelectStatement;
use vstd::prelude::*;

use crate::secure::cte::{is_seed, is_step, is_walk, with_definition, WalkPlan};
use crate::secure::select::{asks_all, narrowed};
use crate::secure::sql::{
    condition_parts, definition_opening, definitions_rendered, doubled, opening, quote_of,
    quoted, select_parts, select_rendered, starts_with, statement_text, ConditionParts, CtePart,
    DbBackend, SelectParts, UnionPart, WithParts,
};

verus! {

/// Whatever a body selects, with the scope on it every conjunct of the scope is asked, and
/// everything that was asked before still is.
pub proof fn law_body_cannot_shed_scope(shaped: SelectParts, scope: ConditionParts)
    ensures
        asks_all(narrowed(shaped, scope).filters, scope.conjuncts),
        shaped.filters.is_prefix_of(narrowed(shaped, scope).filters),
{
    let filters = narrowed(shaped, scope).filters;
    assert forall|i: int| 0 <= i < scope.conjuncts.len() implies filters.contains(
        #[trigger] scope.conjuncts[i],
    ) by {
        assert(filters[shaped.filters.len() + i] == scope.conjuncts[i]);
    }
}

/// Both members of a recursive CTE carry the scope.
pub proof fn law_both_members_carry_scope(
    body: SelectStatement,
    seed: SelectStatement,
    step: SelectStatement,
    seed_found: SelectParts,
    step_found: SelectParts,
    table: Seq<char>,
    plan: WalkPlan,
    start: ConditionParts,
    seed_scope: ConditionParts,
    step_scope: ConditionParts,
)
    requires
        is_seed(select_parts(seed), seed_found, start, seed_scope),
        is_step(select_parts(step), step_found, table, plan, step_scope),
        is_walk(select_parts(body), seed, step),
    ensures
        asks_all(select_parts(body).filters, seed_scope.conjuncts),
        asks_all(select_parts(body).filters, start.conjuncts),
        select_parts(body).unions.last() == UnionPart::All(step),
        asks_all(select_parts(step).filters, step_scope.conjuncts),
{
    law_body_cannot_shed_scope(narrowed(seed_found, start), seed_scope);
    law_body_cannot_shed_scope(seed_found, start);
    law_body_cannot_shed_scope(step_found, step_scope);
    let asked = narrowed(narrowed(seed_found, start), seed_scope).filters;
    let first = narrowed(seed_found, start).filters;
    assert forall|i: int| 0 <= i < start.conjuncts.len() implies asked.contains(
        #[trigger] start.conjuncts[i],
    ) by {
        let at = first.index_of(start.conjuncts[i]);
        assert(first.contains(start.conjuncts[i]));
        assert(asked[at] == first[at]);
    }
    let narrow = narrowed(step_found, step_scope).filters;
    let filters = select_parts(step).filters;
    assert forall|i: int| 0 <= i < step_scope.conjuncts.len() implies filters.contains(
        #[trigger] step_scope.conjuncts[i],
    ) by {
        let at = narrow.index_of(step_scope.conjuncts[i]);
        assert(narrow.contains(step_scope.conjuncts[i]));
        assert(filters[at] == narrow[at]);
    }
}

/// A definition leaves those before it as they are, and never takes back that the clause
/// is recursive.
pub proof fn law_definitions_are_kept(clause: WithParts, name: Seq<char>, body: SelectStatement)
    ensures
        clause.ctes.is_prefix_of(with_definition(clause, name, body).ctes),
        with_definition(clause, name, body).ctes.len() == clause.ctes.len() + 1,
        with_definition(clause, name, body).ctes.last().name == name,
        with_definition(clause, name, body).ctes.last().body == body,
        with_definition(clause, name, body).recursive == clause.recursive,
{
}

/// Where definition `i` stands: behind the opening and the definitions before it, with its
/// quoted name, its body in brackets and nothing else, and the outer query is behind it.
pub proof fn law_definition_has_its_place(
    outer: SelectStatement,
    clause: WithParts,
    backend: DbBackend,
    i: int,
)
    requires
        0 <= i < clause.ctes.len(),
    ensures
        ({
            let (before, bound) = definitions_rendered(clause.ctes.take(i), backend);
            starts_with(
                statement_text(outer, clause, backend),
                opening(clause.recursive) + before + definition_opening(
                    clause.ctes[i].name,
                    i == 0,
                    backend,
                ) + select_rendered(
                    select_parts(clause.ctes[i].body).blank,
                    backend,
                    bound,
                ).0 + ") "@,
            )
        }),
{
    lemma_definition_prefix(clause.ctes, backend, i);
    let ctes = clause.ctes;
    assert(ctes.take(i + 1).drop_last() =~= ctes.take(i));
    let upto = definitions_rendered(ctes.take(i + 1), backend).0;
    let all = definitions_rendered(ctes, backend).0;
    let (before, bound) = definitions_rendered(ctes.take(i), backend);
    assert(upto =~= before + definition_opening(ctes[i].name, i == 0, backend) + select_rendered(
        select_parts(ctes[i].body).blank,
        backend,
        bound,
    ).0 + ") "@);
    let text = statement_text(outer, clause, backend);
    let start = opening(clause.recursive) + before + definition_opening(
        ctes[i].name,
        i == 0,
        backend,
    ) + select_rendered(select_parts(ctes[i].body).blank, backend, bound).0 + ") "@;
    assert(start =~= opening(clause.recursive) + upto);
    assert(text.take(start.len() as int) =~= start);
}

/// The first definitions of a clause open the text of all.
proof fn lemma_definition_prefix(
    ctes: Seq<CtePart>,
    backend: DbBackend,
    i: int,
)
    requires
        0 <= i < ctes.len(),
    ensures
        definitions_rendered(ctes.take(i + 1), backend).0.is_prefix_of(
            definitions_rendered(ctes, backend).0,
        ),
    decreases ctes.len(),
{
    if i + 1 == ctes.len() {
        assert(ctes.take(i + 1) =~= ctes);
    } else {
        lemma_definition_prefix(ctes.drop_last(), backend, i);
        assert(ctes.drop_last().take(i + 1) =~= ctes.take(i + 1));
        let short = definitions_rendered(ctes.take(i + 1), backend).0;
        let middle = definitions_rendered(ctes.drop_last(), backend).0;
        let all = definitions_rendered(ctes, backend).0;
        assert(all.take(middle.len() as int) =~= middle);
        assert(all.take(short.len() as int) =~= short);
    }
}

/// The name of the first definition fills the slot of one identifier right behind the
/// opening: quoted as the database quotes, with `AS` and the body behind it.
pub proof fn law_first_name_fills_its_slot(
    outer: SelectStatement,
    clause: WithParts,
    backend: DbBackend,
)
    requires
        clause.ctes.len() > 0,
    ensures
        starts_with(
            statement_text(outer, clause, backend),
            opening(clause.recursive) + quoted(clause.ctes[0].name, quote_of(backend)) + " AS ("@,
        ),
{
    reveal_strlit("");
    law_definition_has_its_place(outer, clause, backend, 0);
    assert(clause.ctes.take(0).len() == 0);
    let text = statement_text(outer, clause, backend);
    let (before, bound) = definitions_rendered(clause.ctes.take(0), backend);
    let long = opening(clause.recursive) + before + definition_opening(
        clause.ctes[0].name,
        true,
        backend,
    ) + select_rendered(select_parts(clause.ctes[0].body).blank, backend, bound).0 + ") "@;
    let short = opening(clause.recursive) + quoted(clause.ctes[0].name, quote_of(backend))
        + " AS ("@;
    assert(long.take(short.len() as int) =~= short);
    assert(text.take(short.len() as int) =~= short);
}

/// The text goes on with `RECURSIVE` if and only if the clause is recursive.
pub proof fn law_text_tells_recursion(
    outer: SelectStatement,
    clause: WithParts,
    backend: DbBackend,
)
    requires
        clause.ctes.len() > 0,
    ensures
        starts_with(statement_text(outer, clause, backend), "WITH "@),
        starts_with(statement_text(outer, clause, backend), "WITH RECURSIVE "@)
            <==> clause.recursive,
{
    reveal_strlit("WITH ");
    reveal_strlit("WITH RECURSIVE ");
    law_first_name_fills_its_slot(outer, clause, backend);
    let text = statement_text(outer, clause, backend);
    let start = opening(clause.recursive) + quoted(clause.ctes[0].name, quote_of(backend))
        + " AS ("@;
    assert(text.take(start.len() as int) =~= start);
    assert(text.take(5) =~= "WITH "@);
    if clause.recursive {
        assert(text.take(15) =~= "WITH RECURSIVE "@);
    } else {
        assert(start[5] == quote_of(backend));
        assert(text[5] == quote_of(backend));
        assert("WITH RECURSIVE "@[5] == 'R');
    }
}

/// Whether two selects differ at most in values that are bound to the statement.
pub open spec fn alike(a: SelectStatement, b: SelectStatement) -> bool {
    select_parts(a).blank == select_parts(b).blank
}

/// Whether two clauses differ at most in values that are bound to the statement.
pub open spec fn clauses_alike(a: WithParts, b: WithParts) -> bool {
    &&& a.recursive == b.recursive
    &&& a.ctes.len() == b.ctes.len()
    &&& forall|i: int|
        0 <= i < a.ctes.len() ==> (#[trigger] a.ctes[i]).name == b.ctes[i].name && alike(
            a.ctes[i].body,
            b.ctes[i].body,
        )
}

/// Values are bound and never stand in the text: queries that differ in values alone have
/// one text.
pub proof fn law_text_holds_no_values(
    outer: SelectStatement,
    clause: WithParts,
    other_outer: SelectStatement,
    other_clause: WithParts,
    backend: DbBackend,
)
    requires
        alike(outer, other_outer),
        clauses_alike(clause, other_clause),
    ensures
        statement_text(outer, clause, backend) == statement_text(
            other_outer,
            other_clause,
            backend,
        ),
{
    lemma_definitions_alike(clause.ctes, other_clause.ctes, backend);
}

/// Definitions that differ in values alone have one text.
proof fn lemma_definitions_alike(ctes: Seq<CtePart>, others: Seq<CtePart>, backend: DbBackend)
    requires
        ctes.len() == others.len(),
        forall|i: int|
            0 <= i < ctes.len() ==> (#[trigger] ctes[i]).name == others[i].name && alike(
                ctes[i].body,
                others[i].body,
            ),
    ensures
        definitions_rendered(ctes, backend) == definitions_rendered(others, backend),
    decreases ctes.len(),
{
    if ctes.len() > 0 {
        let init = ctes.drop_last();
        let other_init = others.drop_last();
        assert forall|i: int| 0 <= i < init.len() implies (#[trigger] init[i]).name
            == other_init[i].name && alike(init[i].body, other_init[i].body) by {
            assert(ctes[i].name == others[i].name);
        }
        lemma_definitions_alike(init, other_init, backend);
        let last = ctes.len() - 1;
        assert(ctes[last].name == others[last].name && alike(ctes[last].body, others[last].body));
    }
}

/// One more definition on either side leaves clauses alike, where the bodies are.
pub proof fn law_definitions_stay_alike(
    clause: WithParts,
    other: WithParts,
    name: Seq<char>,
    body: SelectStatement,
    other_body: SelectStatement,
)
    requires
        clauses_alike(clause, other),
        alike(body, other_body),
    ensures
        clauses_alike(
            with_definition(clause, name, body),
            with_definition(other, name, other_body),
        ),
{
    let a = with_definition(clause, name, body);
    let b = with_definition(other, name, other_body);
    assert forall|i: int| 0 <= i < a.ctes.len() implies (#[trigger] a.ctes[i]).name
        == b.ctes[i].name && alike(a.ctes[i].body, b.ctes[i].body) by {
        if i < clause.ctes.len() {
            assert(clause.ctes[i].name == other.ctes[i].name);
        }
    }
}

/// Conditions that differ in values alone leave selects alike. So scopes of different
/// tenants, and filters by different values, give one text.
pub proof fn law_conditions_stay_alike(
    select: SelectParts,
    other: SelectParts,
    condition: ConditionParts,
    other_condition: ConditionParts,
)
    requires
        select.blank == other.blank,
        condition.blank == other_condition.blank,
    ensures
        narrowed(select, condition).blank == narrowed(other, other_condition).blank,
{
}

/// The members of a recursive CTE, and what they are built from.
pub struct Members {
    pub plan: WalkPlan,
    pub seed_found: SelectParts,
    pub seed_scope: ConditionParts,
    pub seed: SelectStatement,
    pub step_found: SelectParts,
    pub step_scope: ConditionParts,
    pub step: SelectStatement,
}

impl Members {
    /// Whether the members are built as they should be, and `body` unites them.
    pub open spec fn make(self, table: Seq<char>, body: SelectStatement) -> bool {
        &&& is_seed(
            select_parts(self.seed),
            self.seed_found,
            condition_parts(self.plan.seed),
            self.seed_scope,
        )
        &&& is_step(select_parts(self.step), self.step_found, table, self.plan, self.step_scope)
        &&& is_walk(select_parts(body), self.seed, self.step)
    }
}

/// Walks over one table under one name that differ in the values of their seeds and scopes,
/// and in their caps, are alike.
pub proof fn law_walks_are_alike(
    table: Seq<char>,
    members: Members,
    body: SelectStatement,
    others: Members,
    other_body: SelectStatement,
)
    requires
        members.make(table, body),
        others.make(table, other_body),
        members.seed_found.blank == others.seed_found.blank,
        members.step_found.blank == others.step_found.blank,
        members.seed_scope.blank == others.seed_scope.blank,
        members.step_scope.blank == others.step_scope.blank,
        condition_parts(members.plan.seed).blank == condition_parts(others.plan.seed).blank,
        members.plan.name == others.plan.name,
        members.plan.child_col == others.plan.child_col,
        members.plan.parent_col == others.plan.parent_col,
    ensures
        alike(body, other_body),
{
}

/// Reads the rest of a quoted identifier: up to the quote that is not doubled. Gives the
/// name and what stands behind it, or nothing where the identifier does not end.
pub open spec fn read_quoted(text: Seq<char>, quote: char) -> Option<(Seq<char>, Seq<char>)>
    decreases text.len(),
{
    if text.len() == 0 {
        None
    } else if text[0] != quote {
        match read_quoted(text.drop_first(), quote) {
            Some((name, rest)) => Some((seq![text[0]] + name, rest)),
            None => None,
        }
    } else if text.len() >= 2 && text[1] == quote {
        match read_quoted(text.drop_first().drop_first(), quote) {
            Some((name, rest)) => Some((seq![quote] + name, rest)),
            None => None,
        }
    } else {
        Some((Seq::<char>::empty(), text.drop_first()))
    }
}

/// Whatever a name holds, quotes included: between its quotes it reads as that one name,
/// and the text goes on behind it.
pub proof fn law_quoted_name_is_one_identifier(name: Seq<char>, quote: char, rest: Seq<char>)
    requires
        rest.len() > 0 ==> rest[0] != quote,
    ensures
        quoted(name, quote)[0] == quote,
        read_quoted((quoted(name, quote) + rest).drop_first(), quote) == Some((name, rest)),
{
    let inner = doubled(name, quote) + seq![quote] + rest;
    assert((quoted(name, quote) + rest).drop_first() =~= inner);
    lemma_reads_back(name, quote, rest);
}

/// What [`law_quoted_name_is_one_identifier`] says, behind the opening quote.
proof fn lemma_reads_back(name: Seq<char>, quote: char, rest: Seq<char>)
    requires
        rest.len() > 0 ==> rest[0] != quote,
    ensures
        read_quoted(doubled(name, quote) + seq![quote] + rest, quote) == Some((name, rest)),
    decreases name.len(),
{
    let text = doubled(name, quote) + seq![quote] + rest;
    if name.len() == 0 {
        assert(text.drop_first() =~= rest);
        assert(name =~= Seq::<char>::empty());
    } else {
        let tail = name.drop_first();
        let shorter = doubled(tail, quote) + seq![quote] + rest;
        lemma_reads_back(tail, quote, rest);
        assert(name =~= seq![name[0]] + tail);
        if name[0] == quote {
            assert(text.drop_first().drop_first() =~= shorter);
        } else {
            assert(text.drop_first() =~= shorter);
        }
    }
}

/// A statement is its opening, its definitions and its outer query, and nothing stands behind
/// them: the text is as long as the three together, and it ends in what the outer query reads.
pub proof fn law_text_ends_with_outer_query(
    outer: SelectStatement,
    clause: WithParts,
    backend: DbBackend,
)
    ensures
        ({
            let text = statement_text(outer, clause, backend);
            let start = if clause.recursive {
                "WITH RECURSIVE "@
            } else {
                "WITH "@
            };
            let definitions = definitions_rendered(clause.ctes, backend);
            let query = select_rendered(select_parts(outer).blank, backend, definitions.1).0;
            &&& text == start + definitions.0 + query
            &&& text.len() == start.len() + definitions.0.len() + query.len()
            &&& text.take(start.len() as int) == start
            &&& text.subrange(start.len() as int, text.len() - query.len()) == definitions.0
            &&& text.skip(text.len() - query.len()) == query
        }),
{
    let text = statement_text(outer, clause, backend);
    let start = if clause.recursive {
        "WITH RECURSIVE "@
    } else {
        "WITH "@
    };
    let definitions = definitions_rendered(clause.ctes, backend);
    let query = select_rendered(select_parts(outer).blank, backend, definitions.1).0;
    assert(text =~= start + definitions.0 + query);
    assert(text.take(start.len() as int) =~= start);
    assert(text.subrange(start.len() as int, text.len() - query.len()) =~= definitions.0);
    assert(text.skip(text.len() - query.len()) =~= query);
}

/// Each definition adds its text behind those before it: a comma where it is not the first,
/// its name between the quotes of the database, `AS` and its body in brackets. Its body goes
/// on counting the values that are bound before it.
pub proof fn law_definitions_are_written_one_by_one(
    ctes: Seq<CtePart>,
    name: Seq<char>,
    body: SelectStatement,
    backend: DbBackend,
)
    ensures
        definitions_rendered(Seq::<CtePart>::empty(), backend) == (Seq::<char>::empty(), 0nat),
        ({
            let before = definitions_rendered(ctes, backend);
            let read = select_rendered(select_parts(body).blank, backend, before.1);
            let quote = if backend is MySql {
                '`'
            } else {
                '"'
            };
            &&& definitions_rendered(ctes.push(CtePart { name, body }), backend).0 == before.0 + (
            if ctes.len() == 0 {
                Seq::<char>::empty()
            } else {
                seq![',', ' ']
            }) + seq![quote] + doubled(name, quote) + seq![quote] + " AS ("@ + read.0 + ") "@
            &&& definitions_rendered(ctes.push(CtePart { name, body }), backend).1 == read.1
        }),
{
    reveal_strlit("");
    reveal_strlit(", ");
    let grown = ctes.push(CtePart { name, body });
    assert(grown.drop_last() =~= ctes);
    let before = definitions_rendered(ctes, backend);
    let read = select_rendered(select_parts(body).blank, backend, before.1);
    let quote = if backend is MySql {
        '`'
    } else {
        '"'
    };
    assert(definitions_rendered(grown, backend).0 =~= before.0 + (if ctes.len() == 0 {
        Seq::<char>::empty()
    } else {
        seq![',', ' ']
    }) + seq![quote] + doubled(name, quote) + seq![quote] + " AS ("@ + read.0 + ") "@);
}

/// Within an identifier each quote is written twice and every other character once, one
/// after the other.
pub proof fn law_quotes_are_doubled_one_by_one(
    name: Seq<char>,
    more: Seq<char>,
    c: char,
    quote: char,
)
    ensures
        doubled(Seq::<char>::empty(), quote) == Seq::<char>::empty(),
        doubled(seq![c], quote) == if c == quote {
            seq![c, c]
        } else {
            seq![c]
        },
        doubled(name + more, quote) == doubled(name, quote) + doubled(more, quote),
    decreases name.len(),
{
    assert(seq![c].drop_first() =~= Seq::<char>::empty());
    assert(doubled(Seq::<char>::empty(), quote) =~= Seq::<char>::empty());
    assert(doubled(seq![c], quote) =~= if c == quote {
        seq![c, c]
    } else {
        seq![c]
    });
    if name.len() == 0 {
        assert(name + more =~= more);
        assert(doubled(name, quote) + doubled(more, quote) =~= doubled(more, quote));
    } else {
        law_quotes_are_doubled_one_by_one(name.drop_first(), more, c, quote);
        assert((name + more).drop_first() =~= name.drop_first() + more);
        assert(doubled(name + more, quote) =~= doubled(name, quote) + doubled(more, quote));
    }
}

} // verus!
