# gears_core

Core rules of the gears platform, verified with [Verus](https://github.com/verus-lang/verus).

- `src/gts_id.rs`: Global Type System identifiers as plain data, parsed by the `gts` crate.
- `src/family/`: version families. `key` derives the identifiers of siblings, `rules` decides
  whether a family admits a new member, and `laws` states what admissions keep.
- `src/secure/`: queries that carry the scope of their caller. `sql` holds the builder calls
  of `sea_query` that the rest is made with, `select` the scoped select, `cte` queries with
  `WITH` definitions, `laws` what holds of their parts and their text, and `walk` what a
  recursive CTE gives, row by row.
- `src/authn.rs`: what authentication hands on, and what of it a log may show.
- `src/text.rs`: decimal text.

The functions marked `#[verifier::external_body]` call `gts`, `sea_query`, `sea_orm`, `uuid`
and std; their contracts are taken on trust, and each says above itself what it claims.

`app/` is ordinary Rust around the library: SeaORM entities, the execution of queries, the
lookups of an admission, and the types that need traits of other crates. `tests/` runs the
library with the real crates.
