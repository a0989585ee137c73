//! Secured queries with definitions, as they are rendered for each database.

use std::sync::Arc;

use gears_core::secure::cte::{ascending, descending, RecursiveCte, SecureCteSelect, Statement};
use gears_core::secure::select::{apply_scope, secure, Entity, ScopableEntity};
use gears_core::secure::sql::DbBackend;
use sea_orm::sea_query::{
    Alias, Condition, Expr, ExprTrait, IntoColumnRef, Order, Query, SelectStatement, Value,
    Values,
};

/// A scope that reaches the rows of some tenants.
struct Tenants(Vec<i64>);

struct Orders;

struct Items;

struct Nodes;

const BACKENDS: [DbBackend; 3] = [DbBackend::Postgres, DbBackend::MySql, DbBackend::Sqlite];

fn select_all(table: &str, columns: &[&str]) -> SelectStatement {
    let mut select = Query::select();
    for column in columns {
        select.column((Alias::new(table), Alias::new(*column)));
    }
    select.from(Alias::new(table));
    select
}

fn in_tenants(table: &str, scope: &Tenants) -> Condition {
    Condition::all().add(col(table, "tenant_id").is_in(scope.0.clone()))
}

fn col(table: &str, column: &str) -> Expr {
    Expr::col((Alias::new(table), Alias::new(column)))
}

impl Entity for Orders {
    fn find() -> SelectStatement {
        select_all("orders", &["id", "tenant_id"])
    }

    fn table() -> String {
        "orders".to_owned()
    }
}

impl ScopableEntity<Tenants> for Orders {
    fn build_scope_condition(scope: &Tenants) -> Condition {
        in_tenants("orders", scope)
    }
}

impl Entity for Items {
    fn find() -> SelectStatement {
        select_all("items", &["id", "order_id", "tenant_id"])
    }

    fn table() -> String {
        "items".to_owned()
    }
}

impl ScopableEntity<Tenants> for Items {
    fn build_scope_condition(scope: &Tenants) -> Condition {
        in_tenants("items", scope)
    }
}

impl Entity for Nodes {
    fn find() -> SelectStatement {
        select_all("nodes", &["id", "parent_id", "tenant_id"])
    }

    fn table() -> String {
        "nodes".to_owned()
    }
}

impl ScopableEntity<Tenants> for Nodes {
    fn build_scope_condition(scope: &Tenants) -> Condition {
        in_tenants("nodes", scope)
    }
}

fn orders(tenants: Vec<i64>) -> SecureCteSelect<Orders, Tenants> {
    secure::<Orders>(Orders::find()).scope_with_arc(Arc::new(Tenants(tenants))).with_ctes()
}

fn nodes(tenants: Vec<i64>) -> SecureCteSelect<Nodes, Tenants> {
    secure::<Nodes>(Nodes::find()).scope_with_arc(Arc::new(Tenants(tenants))).with_ctes()
}

fn subtree(max_depth: u32) -> RecursiveCte<Nodes> {
    RecursiveCte::new(
        "subtree",
        Condition::all().add(col("nodes", "id").eq(17i64)),
        "parent_id".to_owned(),
        "id".to_owned(),
        max_depth,
    )
}

fn integers(statement: &Statement) -> Vec<i64> {
    let mut out = Vec::new();
    for value in &statement.values.as_ref().unwrap().0 {
        out.push(match value {
            Value::Int(Some(n)) => i64::from(*n),
            Value::BigInt(Some(n)) => *n,
            Value::Unsigned(Some(n)) => i64::from(*n),
            Value::BigUnsigned(Some(n)) => i64::try_from(*n).unwrap(),
            other => panic!("{other:?} is no integer"),
        });
    }
    out
}

/// What stands between the first definition's brackets.
fn first_body(sql: &str) -> &str {
    let start = sql.find(" AS (").unwrap() + 5;
    let mut depth = 1;
    for (i, c) in sql[start..].char_indices() {
        match c {
            '(' => depth += 1,
            ')' => depth -= 1,
            _ => {}
        }
        if depth == 0 {
            return &sql[start..start + i];
        }
    }
    panic!("the definition does not end in {sql}")
}

#[test]
fn plain_cte_as_rendered_for_postgres() {
    let query = orders(vec![1, 2])
        .cte::<Items>("scoped_items", |mut select: SelectStatement| {
            select.cond_where(col("items", "quantity").gt(0i64));
            select
        })
        .join_cte(
            "scoped_items",
            Condition::all().add(
                col("scoped_items", "order_id").equals((Alias::new("orders"), Alias::new("id"))),
            ),
        );
    let statement = query.build_statement(DbBackend::Postgres);
    assert_eq!(
        statement.sql,
        concat_parts(&[
            r#"WITH "scoped_items" AS (SELECT "items"."id", "items"."order_id", "#,
            r#""items"."tenant_id" FROM "items" WHERE "items"."quantity" > $1 AND "#,
            r#""items"."tenant_id" IN ($2, $3)) SELECT "orders"."id", "orders"."tenant_id" "#,
            r#"FROM "orders" INNER JOIN "scoped_items" ON "scoped_items"."order_id" = "#,
            r#""orders"."id" WHERE "orders"."tenant_id" IN ($4, $5)"#,
        ])
    );
    assert_eq!(integers(&statement), vec![0, 1, 2, 1, 2]);
    assert!(statement.db_backend == DbBackend::Postgres);
}

fn concat_parts(parts: &[&str]) -> String {
    parts.concat()
}

#[test]
fn every_body_is_scoped_on_every_database() {
    for backend in BACKENDS {
        let statement = orders(vec![5])
            .cte::<Items>("a", |select: SelectStatement| select)
            .cte::<Nodes>("b", |select: SelectStatement| select)
            .build_statement(backend);
        let sql = statement.sql.replace('`', "\"");
        assert!(sql.starts_with("WITH \"a\" AS (SELECT"), "{sql}");
        assert!(first_body(&sql).contains("\"items\".\"tenant_id\" IN ("), "{sql}");
        let second = &sql[sql.find("\"b\" AS (").unwrap()..];
        assert!(first_body(second).contains("\"nodes\".\"tenant_id\" IN ("), "{sql}");
        assert_eq!(sql.matches("\"tenant_id\" IN (").count(), 3);
    }
}

#[test]
fn body_cannot_take_the_scope_off() {
    // The body hands back a select that it wrote itself, without any condition.
    let statement = orders(vec![9])
        .cte::<Items>("all_items", |_: SelectStatement| select_all("items", &["id"]))
        .build_statement(DbBackend::Sqlite);
    assert_eq!(
        first_body(&statement.sql),
        r#"SELECT "items"."id" FROM "items" WHERE "items"."tenant_id" IN (?)"#
    );
}

#[test]
fn disjunction_of_the_body_is_kept_apart_from_the_scope() {
    let statement = orders(vec![9])
        .cte::<Items>("some", |mut select: SelectStatement| {
            select.cond_where(
                Condition::any().add(col("items", "id").eq(1i64)).add(col("items", "id").eq(2i64)),
            );
            select
        })
        .build_statement(DbBackend::Sqlite);
    assert!(
        first_body(&statement.sql).ends_with(
            r#"WHERE ("items"."id" = ? OR "items"."id" = ?) AND "items"."tenant_id" IN (?)"#
        ),
        "{}",
        statement.sql
    );
}

#[test]
fn scope_is_added_behind_what_was_asked() {
    let mut select = select_all("items", &["id"]);
    select.cond_where(col("items", "id").eq(3i64));
    let scoped = apply_scope(select, in_tenants("items", &Tenants(vec![4])));
    assert_eq!(
        scoped.to_string(sea_orm::sea_query::PostgresQueryBuilder),
        r#"SELECT "items"."id" FROM "items" WHERE "items"."id" = 3 AND "items"."tenant_id" IN (4)"#
    );
}

#[test]
fn recursive_cte_as_rendered_for_postgres() {
    let query = nodes(vec![8]).recursive_cte(subtree(3)).join_cte(
        "subtree",
        Condition::all()
            .add(col("subtree", "id").equals((Alias::new("nodes"), Alias::new("id")))),
    );
    let statement = query.build_statement(DbBackend::Postgres);
    assert_eq!(
        statement.sql,
        concat_parts(&[
            r#"WITH RECURSIVE "subtree" AS (SELECT "nodes"."id", "nodes"."parent_id", "#,
            r#""nodes"."tenant_id", $1 AS "__cte_depth" FROM "nodes" WHERE "nodes"."id" = $2 "#,
            r#"AND "nodes"."tenant_id" IN ($3) UNION ALL (SELECT "nodes"."id", "#,
            r#""nodes"."parent_id", "nodes"."tenant_id", "subtree"."__cte_depth" + $4 AS "#,
            r#""__cte_depth" FROM "nodes" INNER JOIN "subtree" ON "nodes"."parent_id" = "#,
            r#""subtree"."id" WHERE "nodes"."tenant_id" IN ($5) AND "subtree"."__cte_depth" < "#,
            r#"$6)) SELECT "nodes"."id", "nodes"."parent_id", "nodes"."tenant_id" FROM "nodes" "#,
            r#"INNER JOIN "subtree" ON "subtree"."id" = "nodes"."id" WHERE "#,
            r#""nodes"."tenant_id" IN ($7)"#,
        ])
    );
    assert_eq!(integers(&statement), vec![0, 17, 8, 1, 8, 3, 8]);
}

#[test]
fn both_members_are_scoped_and_capped_on_every_database() {
    for backend in BACKENDS {
        for max_depth in [0u32, 1, 64, u32::MAX] {
            let statement = nodes(vec![8]).recursive_cte(subtree(max_depth)).build_statement(backend);
            let sql = statement.sql.replace('`', "\"");
            assert!(sql.starts_with("WITH RECURSIVE \"subtree\" AS ("), "{sql}");
            let (seed, step) = first_body(&sql).split_once(" UNION ALL ").unwrap();
            assert!(seed.contains("\"nodes\".\"tenant_id\" IN ("), "{sql}");
            assert!(step.contains("\"nodes\".\"tenant_id\" IN ("), "{sql}");
            assert!(!seed.contains("\"__cte_depth\" <"), "{sql}");
            assert!(step.contains("\"subtree\".\"__cte_depth\" <"), "{sql}");
            assert_eq!(integers(&statement), vec![0, 17, 8, 1, 8, i64::from(max_depth), 8]);
        }
    }
}

#[test]
fn recursive_stays_recursive() {
    let statement = nodes(vec![8])
        .recursive_cte(subtree(2))
        .cte::<Items>("later", |select: SelectStatement| select)
        .build_statement(DbBackend::Sqlite);
    assert!(statement.sql.starts_with("WITH RECURSIVE \"subtree\" AS ("));
    assert!(statement.sql.contains(", \"later\" AS ("));
    let statement = nodes(vec![8])
        .cte::<Items>("earlier", |select: SelectStatement| select)
        .recursive_cte(subtree(2))
        .build_statement(DbBackend::Sqlite);
    assert!(statement.sql.starts_with("WITH RECURSIVE \"earlier\" AS ("));
}

#[test]
fn hostile_names_are_one_quoted_identifier() {
    let name = "foo\"; DROP TABLE x --";
    for (backend, identifier) in [
        (DbBackend::Postgres, "\"foo\"\"; DROP TABLE x --\""),
        (DbBackend::Sqlite, "\"foo\"\"; DROP TABLE x --\""),
        (DbBackend::MySql, "`foo\"; DROP TABLE x --`"),
    ] {
        let statement =
            orders(vec![1]).cte::<Items>(name, |select: SelectStatement| select).build_statement(backend);
        assert!(statement.sql.starts_with(&format!("WITH {identifier} AS (SELECT ")));
        assert_eq!(statement.sql.matches(identifier).count(), 1);
    }
    let statement = orders(vec![1])
        .cte::<Items>("a`b", |select: SelectStatement| select)
        .build_statement(DbBackend::MySql);
    assert!(statement.sql.starts_with("WITH `a``b` AS (SELECT "));
}

#[test]
fn columns_replace_the_projection() {
    let statement = orders(vec![1])
        .cte::<Items>("a", |select: SelectStatement| select)
        .columns(vec!["tenant_id".to_owned(), "id".to_owned()])
        .build_statement(DbBackend::Postgres);
    assert!(
        statement.sql.ends_with(
            r#") SELECT "orders"."tenant_id", "orders"."id" FROM "orders" WHERE "orders"."tenant_id" IN ($2)"#
        ),
        "{}",
        statement.sql
    );
    let twice = orders(vec![1])
        .cte::<Items>("a", |select: SelectStatement| select)
        .columns(vec!["tenant_id".to_owned()])
        .columns(vec!["id".to_owned()])
        .build_statement(DbBackend::Postgres);
    assert!(twice.sql.contains(r#") SELECT "orders"."id" FROM "orders""#));
}

#[test]
fn filter_limit_distinct_and_order() {
    let depth = RecursiveCte::<Nodes>::DEPTH_COLUMN;
    assert_eq!(depth, "__cte_depth");
    let statement = nodes(vec![8])
        .recursive_cte(subtree(2))
        .filter(Condition::all().add(col("nodes", "id").gt(5i64)))
        .limit(7)
        .limit(9)
        .distinct()
        .order_by((Alias::new("subtree"), Alias::new(depth)).into_column_ref(), ascending())
        .order_by(Alias::new("id").into_column_ref(), descending())
        .build_statement(DbBackend::Postgres);
    let outer = &statement.sql[statement.sql.rfind(" SELECT ").unwrap() + 1..];
    assert_eq!(
        outer,
        concat_parts(&[
            r#"SELECT DISTINCT "nodes"."id", "nodes"."parent_id", "nodes"."tenant_id" FROM "nodes" "#,
            r#"WHERE "nodes"."tenant_id" IN ($7) AND "nodes"."id" > $8 "#,
            r#"ORDER BY "subtree"."__cte_depth" ASC, "id" DESC LIMIT $9"#,
        ])
    );
    assert_eq!(integers(&statement)[6..], [8, 5, 9]);
}

#[test]
fn scope_that_reaches_nothing_stays_in_every_body() {
    let statement = orders(vec![])
        .cte::<Items>("none", |select: SelectStatement| select)
        .build_statement(DbBackend::Postgres);
    assert!(first_body(&statement.sql).ends_with(r#" FROM "items" WHERE $1 = $2"#));
    assert_eq!(integers(&statement), vec![1, 2, 1, 2]);
}

#[test]
fn select_without_scope_hands_its_query_back() {
    let select = secure::<Orders>(Orders::find()).into_inner();
    assert_eq!(select, Orders::find());
    let scoped = secure::<Orders>(Orders::find()).scope_with_arc(Arc::new(Tenants(vec![1])));
    assert_eq!(scoped.scope_arc().0, vec![1]);
    assert_eq!(
        scoped.into_inner().to_string(sea_orm::sea_query::SqliteQueryBuilder),
        r#"SELECT "orders"."id", "orders"."tenant_id" FROM "orders" WHERE "orders"."tenant_id" IN (1)"#
    );
}

#[test]
fn order_by_the_places_of_values() {
    let places = Order::Field(Values(vec![Value::from(3i64), Value::from(1i64)]));
    let statement = orders(vec![1])
        .cte::<Items>("a", |select: SelectStatement| select)
        .order_by(Alias::new("id").into_column_ref(), places)
        .build_statement(DbBackend::Sqlite);
    assert!(
        statement
            .sql
            .ends_with(r#" ORDER BY CASE WHEN "id"=3 THEN 0 WHEN "id"=1 THEN 1 ELSE 2 END"#),
        "{}",
        statement.sql
    );
}

#[test]
fn definitions_stand_in_order_before_the_outer_query() {
    let bare = |select: SelectStatement| {
        drop(select);
        select_all("items", &["id"])
    };
    for (backend, quote) in
        [(DbBackend::Postgres, '"'), (DbBackend::MySql, '`'), (DbBackend::Sqlite, '"')]
    {
        let statement = orders(vec![1])
            .cte::<Items>("a", bare)
            .cte::<Items>("b", bare)
            .cte::<Items>("c", bare)
            .columns(vec!["id".to_owned()])
            .build_statement(backend);
        let mark = |n: u32| match backend {
            DbBackend::Postgres => format!("${n}"),
            _ => "?".to_owned(),
        };
        let body = |n: u32| {
            format!("SELECT 'items'.'id' FROM 'items' WHERE 'items'.'tenant_id' IN ({})", mark(n))
        };
        let expected = format!(
            "WITH 'a' AS ({}) , 'b' AS ({}) , 'c' AS ({}) SELECT 'orders'.'id' FROM 'orders' \
             WHERE 'orders'.'tenant_id' IN ({})",
            body(1),
            body(2),
            body(3),
            mark(4)
        )
        .replace('\'', &quote.to_string());
        assert_eq!(statement.sql, expected);
        assert_eq!(statement.db_backend, backend);
        let again = orders(vec![1]).cte::<Items>("a", bare);
        assert_eq!(again.build_statement(backend).sql, again.build_statement(backend).sql);
    }
}

#[test]
fn values_are_bound_and_not_in_the_text() {
    let build = |tenant: i64, root: i64, cap: u32, above: i64, limit: u64, backend: DbBackend| {
        nodes(vec![tenant])
            .recursive_cte(RecursiveCte::<Nodes>::new(
                "subtree",
                Condition::all().add(col("nodes", "id").eq(root)),
                "parent_id".to_owned(),
                "id".to_owned(),
                cap,
            ))
            .filter(Condition::all().add(col("nodes", "id").gt(above)))
            .limit(limit)
            .build_statement(backend)
    };
    for backend in BACKENDS {
        let a = build(8, 17, 3, 5, 9, backend);
        let b = build(123_456, -1, u32::MAX, 777, 1, backend);
        assert_eq!(a.sql, b.sql);
        assert_eq!(integers(&a), vec![0, 17, 8, 1, 8, 3, 8, 5, 9]);
        let cap = i64::from(u32::MAX);
        assert_eq!(integers(&b), vec![0, -1, 123_456, 1, 123_456, cap, 123_456, 777, 1]);
        assert!(!b.sql.contains("123456"));
    }
}

#[test]
fn wrong_join_leaves_every_scope_in_place() {
    let statement = orders(vec![4])
        .cte::<Items>("a", |select: SelectStatement| select)
        .join_cte("a", Condition::all().add(Expr::val(1i64).eq(1i64)))
        .build_statement(DbBackend::Sqlite);
    assert!(first_body(&statement.sql).ends_with(r#"WHERE "items"."tenant_id" IN (?)"#));
    assert!(statement.sql.ends_with(
        r#"FROM "orders" INNER JOIN "a" ON ? = ? WHERE "orders"."tenant_id" IN (?)"#
    ));
}

#[test]
fn directions_differ() {
    assert_eq!(ascending(), Order::Asc);
    assert_eq!(descending(), Order::Desc);
}
