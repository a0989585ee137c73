//! Core rules of the gears platform, verified with Verus.

pub mod authn;
pub mod family;
pub mod gts_id;
pub mod secure;
pub mod text;
