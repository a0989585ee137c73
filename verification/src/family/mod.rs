//! Version families: the identifiers that group every version of one logical entity,
//! and the rules that a family is asked when a new member is admitted.
//!
//! * [`key`] derives the sibling identifiers that a rule has to look up.
//! * [`rules`] holds the kind rule, minor shape and minor contiguity, and the admission
//!   that asks them one after the other.
//! * [`laws`] states what admissions keep true of a family.

pub mod key;
pub mod laws;
pub mod rules;

pub use key::{sibling_id, EntityKind, FamilyKey, VersionFamilyRow};
pub use rules::{admits_new_member, version_probe, AdmissionStep, FamilyRefusal, VersionProbe};
