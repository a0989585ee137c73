//! Queries that carry the scope of their caller.

pub mod cte;
pub mod laws;
pub mod select;
pub mod sql;
pub mod walk;
