//! Version families, with identifiers that the `gts` crate parses.

use gears_core::family::rules::{
    AdmissionStep, BlockerQuestion, FamilyRefusal, KindQuestion, VersionProbe,
};
use gears_core::family::{
    admits_new_member, sibling_id, version_probe, EntityKind, FamilyKey, VersionFamilyRow,
};
use gears_core::gts_id::GtsId;

const TYPE_V1: &str = "gts.x.core.events.event.v1~";

fn id(text: &str) -> GtsId {
    match GtsId::try_new(text) {
        Some(id) => id,
        None => panic!("{text} is no identifier"),
    }
}

fn family() -> VersionFamilyRow {
    VersionFamilyRow { id: 77, family_key: FamilyKey { text: "gts.x.core.events.event".to_owned() } }
}

/// Runs an admission against a store.
fn outcome_of(
    text: &str,
    kind: EntityKind,
    is_new: bool,
    family_kind: Option<EntityKind>,
    known: &[&str],
) -> Option<FamilyRefusal> {
    let mut step = admits_new_member(&id(text), &family(), kind, is_new);
    loop {
        step = match step {
            AdmissionStep::AskKind(question) => {
                assert_eq!(question.family_id(), 77);
                question.answer(family_kind)
            }
            AdmissionStep::AskBlocker(question) => {
                let found = known.contains(&question.blocker());
                question.answer(found)
            }
            AdmissionStep::AskPredecessor(question) => {
                let found = known.contains(&question.predecessor());
                question.answer(found)
            }
            AdmissionStep::Decided(outcome) => return outcome,
        };
    }
}

fn outcome_of_type(text: &str, known: &[&str]) -> Option<FamilyRefusal> {
    outcome_of(text, EntityKind::Type, false, Some(EntityKind::Type), known)
}

#[test]
fn parsing_splits_versions_off() {
    let parsed = id("gts.x.core.events.event.v1~vendor.app._.custom.v12.30~");
    assert_eq!(parsed.id(), "gts.x.core.events.event.v1~vendor.app._.custom.v12.30~");
    assert_eq!(parsed.segments.len(), 2);
    assert_eq!(parsed.segments[0].ver_major_opt(), Some(1));
    assert_eq!(parsed.segments[0].ver_minor(), None);
    assert_eq!(parsed.segments[1].ver_major_opt(), Some(12));
    assert_eq!(parsed.segments[1].ver_minor(), Some(30));
    assert_eq!(parsed.segments[1].stem, "vendor.app._.custom");
    assert!(parsed.segments[1].is_type);
    assert!(GtsId::try_new("no identifier").is_none());
    assert!(GtsId::try_new("").is_none());
}

#[test]
fn instance_has_no_mark() {
    let parsed = id("gts.x.core.events.event.v1~vendor.app._.thing.v2.0");
    assert!(!parsed.segments[1].is_type);
    assert_eq!(sibling_id(&parsed, 2, Some(1)), "gts.x.core.events.event.v1~vendor.app._.thing.v2.1");
}

#[test]
fn siblings_change_the_last_version_only() {
    let parsed = id("gts.x.core.events.event.v1~vendor.app._.custom.v1.2~");
    assert_eq!(
        sibling_id(&parsed, 1, None),
        "gts.x.core.events.event.v1~vendor.app._.custom.v1~"
    );
    assert_eq!(
        sibling_id(&parsed, 7, Some(4_294_967_295)),
        "gts.x.core.events.event.v1~vendor.app._.custom.v7.4294967295~"
    );
    assert_eq!(sibling_id(&parsed, 1, Some(2)), parsed.id());
}

#[test]
fn probe_of_a_major_only_candidate() {
    assert_eq!(
        version_probe(&id(TYPE_V1)),
        Some(VersionProbe::MajorOnly { blocker: "gts.x.core.events.event.v1.0~".to_owned() })
    );
}

#[test]
fn probe_of_a_first_minor() {
    assert_eq!(
        version_probe(&id("gts.x.core.events.event.v1.0~")),
        Some(VersionProbe::FirstMinor { blocker: TYPE_V1.to_owned() })
    );
}

#[test]
fn probe_of_a_later_minor() {
    assert_eq!(
        version_probe(&id("gts.x.core.events.event.v1.10~")),
        Some(VersionProbe::LaterMinor {
            blocker: TYPE_V1.to_owned(),
            predecessor: "gts.x.core.events.event.v1.9~".to_owned(),
        })
    );
}

#[test]
fn uuid_tail_has_no_probe() {
    let parsed = id("gts.x.core.events.event.v1~7a1d2f34-5678-49ab-9012-abcdef123456");
    assert_eq!(version_probe(&parsed), None);
    assert_eq!(
        outcome_of(
            "gts.x.core.events.event.v1~7a1d2f34-5678-49ab-9012-abcdef123456",
            EntityKind::Instance,
            true,
            None,
            &[],
        ),
        None
    );
}

#[test]
fn no_segment_has_no_probe() {
    let empty = GtsId { prefix: "gts.".to_owned(), segments: Vec::new() };
    assert_eq!(version_probe(&empty), None);
    assert_eq!(sibling_id(&empty, 1, None), "gts.");
}

#[test]
fn kind_conflict_comes_first() {
    let refusal = outcome_of(
        TYPE_V1,
        EntityKind::Type,
        false,
        Some(EntityKind::Instance),
        &["gts.x.core.events.event.v1.0~"],
    )
    .unwrap();
    assert_eq!(
        refusal,
        FamilyRefusal::KindConflict {
            gts_id: TYPE_V1.to_owned(),
            family_key: FamilyKey { text: "gts.x.core.events.event".to_owned() },
            candidate: EntityKind::Type,
            existing: EntityKind::Instance,
        }
    );
    assert_eq!(refusal.reason(), "family_kind_conflict");
    assert_eq!(
        refusal.to_string(),
        "'gts.x.core.events.event.v1~' is a type, but version family \
         'gts.x.core.events.event' already holds instance members; a family holds one kind"
    );
}

#[test]
fn founding_a_family_skips_the_kind() {
    let step = admits_new_member(&id(TYPE_V1), &family(), EntityKind::Type, true);
    assert!(matches!(step, AdmissionStep::AskBlocker(_)));
    assert_eq!(outcome_of(TYPE_V1, EntityKind::Type, true, Some(EntityKind::Instance), &[]), None);
}

#[test]
fn family_without_members_takes_any_kind() {
    assert_eq!(outcome_of(TYPE_V1, EntityKind::Instance, false, None, &[]), None);
}

#[test]
fn major_only_is_refused_beside_minors() {
    let refusal = outcome_of_type(TYPE_V1, &["gts.x.core.events.event.v1.0~"]).unwrap();
    assert_eq!(
        refusal,
        FamilyRefusal::MinorShape {
            gts_id: TYPE_V1.to_owned(),
            conflicting: "gts.x.core.events.event.v1.0~".to_owned(),
        }
    );
    assert_eq!(refusal.reason(), "family_shape_conflict");
    assert_eq!(
        refusal.to_string(),
        "'gts.x.core.events.event.v1~' cannot join the major that \
         'gts.x.core.events.event.v1.0~' already spells the other way; within one major \
         either every member carries a minor or none does"
    );
}

#[test]
fn minors_are_refused_beside_major_only() {
    for candidate in ["gts.x.core.events.event.v1.0~", "gts.x.core.events.event.v1.4~"] {
        let refusal = outcome_of_type(candidate, &[TYPE_V1]).unwrap();
        assert_eq!(
            refusal,
            FamilyRefusal::MinorShape {
                gts_id: candidate.to_owned(),
                conflicting: TYPE_V1.to_owned(),
            }
        );
    }
}

#[test]
fn minors_are_contiguous() {
    let refusal =
        outcome_of_type("gts.x.core.events.event.v1.2~", &["gts.x.core.events.event.v1.0~"]).unwrap();
    assert_eq!(
        refusal,
        FamilyRefusal::MissingPredecessor {
            gts_id: "gts.x.core.events.event.v1.2~".to_owned(),
            predecessor: "gts.x.core.events.event.v1.1~".to_owned(),
        }
    );
    assert_eq!(refusal.reason(), "missing_predecessor");
    assert_eq!(
        refusal.to_string(),
        "'gts.x.core.events.event.v1.2~' requires its predecessor \
         'gts.x.core.events.event.v1.1~'; the minors of a major are contiguous and open at M.0"
    );
    assert_eq!(
        outcome_of_type("gts.x.core.events.event.v1.2~", &["gts.x.core.events.event.v1.1~"]),
        None
    );
    assert_eq!(outcome_of_type("gts.x.core.events.event.v1.0~", &[]), None);
}

#[test]
fn other_majors_may_have_the_other_shape() {
    assert_eq!(outcome_of_type("gts.x.core.events.event.v2.0~", &[TYPE_V1]), None);
    assert_eq!(outcome_of_type("gts.x.core.events.event.v2~", &["gts.x.core.events.event.v1.0~"]), None);
}

#[test]
fn histories_of_admissions_are_well_shaped() {
    let mut known: Vec<String> = Vec::new();
    let attempts = ["v1.1~", "v1.0~", "v1.1~", "v1~", "v1.3~", "v1.2~", "v2~", "v2.0~", "v3.0~"];
    for version in attempts {
        let text = format!("gts.x.core.events.event.{version}");
        let found: Vec<&str> = known.iter().map(String::as_str).collect();
        if outcome_of_type(&text, &found).is_none() {
            known.push(text);
        }
    }
    assert_eq!(
        known,
        [
            "gts.x.core.events.event.v1.0~",
            "gts.x.core.events.event.v1.1~",
            "gts.x.core.events.event.v1.2~",
            "gts.x.core.events.event.v2~",
            "gts.x.core.events.event.v3.0~",
        ]
    );
}

#[test]
fn questions_name_what_they_ask() {
    let step =
        admits_new_member(&id("gts.x.core.events.event.v1.3~"), &family(), EntityKind::Type, false);
    let kind: KindQuestion = match step {
        AdmissionStep::AskKind(question) => question,
        other => panic!("{other:?}"),
    };
    let blocker: BlockerQuestion = match kind.answer(Some(EntityKind::Type)) {
        AdmissionStep::AskBlocker(question) => question,
        other => panic!("{other:?}"),
    };
    assert_eq!(blocker.blocker(), TYPE_V1);
    match blocker.answer(false) {
        AdmissionStep::AskPredecessor(question) => {
            assert_eq!(question.predecessor(), "gts.x.core.events.event.v1.2~");
        }
        other => panic!("{other:?}"),
    }
}

#[test]
fn kinds_have_names() {
    assert_eq!(EntityKind::Type.label(), "type");
    assert_eq!(EntityKind::Instance.label(), "instance");
}

#[test]
fn predecessors_lead_to_the_first_minor() {
    let mut text = "gts.x.core.events.event.v1.3~".to_owned();
    let mut seen = Vec::new();
    loop {
        match version_probe(&id(&text)) {
            Some(VersionProbe::LaterMinor { blocker, predecessor }) => {
                assert_eq!(blocker, TYPE_V1);
                seen.push(predecessor.clone());
                text = predecessor;
            }
            Some(VersionProbe::FirstMinor { blocker }) => {
                assert_eq!(blocker, TYPE_V1);
                break;
            }
            other => panic!("{other:?}"),
        }
    }
    assert_eq!(
        seen,
        [
            "gts.x.core.events.event.v1.2~",
            "gts.x.core.events.event.v1.1~",
            "gts.x.core.events.event.v1.0~",
        ]
    );
}
