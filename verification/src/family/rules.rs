//! The three rules that a family is asked about a new member: kind, minor shape and
//! minor contiguity.
//!
//! Each rule is decided by one exact lookup:
//!
//! ```text
//! shape, minor-bearing candidate vM.n~   -> refused while vM~ exists
//! shape, major-only candidate vM~        -> refused while vM.0~ exists
//! contiguity, candidate vM.n~ with n > 0 -> refused unless vM.(n-1)~ exists
//! ```
//!
//! Both are scoped to one major. The kind rule is the one that spans the family.
//!
//! The lookups themselves belong to the caller, who runs them inside the transaction of
//! the admission. [`admits_new_member`] says which lookup comes first, and the question
//! it hands out turns the answer into the next step. A lookup by identifier has to find
//! deleted entities too: until it is purged, a deleted predecessor is still the baseline
//! of its successor, and a deleted member still decides the shape of its major.

use vstd::prelude::*;

use crate::family::key::{sibling_id, sibling_text, EntityKind, FamilyKey, VersionFamilyRow};
use crate::gts_id::{GtsId, GtsIdView};

verus! {

/// Why a family refuses a new member, one variant per rule.
#[derive(Clone, Debug, PartialEq, Eq)]
pub enum FamilyRefusal {
    /// A family holds one kind. The identifier itself is free.
    KindConflict {
        gts_id: String,
        family_key: FamilyKey,
        candidate: EntityKind,
        existing: EntityKind,
    },
    /// Within one major, either every member carries a minor or none does.
    /// `conflicting` is the member that already decided it.
    MinorShape { gts_id: String, conflicting: String },
    /// The minors of a major are contiguous and open at `M.0`.
    MissingPredecessor { gts_id: String, predecessor: String },
}

/// What a refusal says.
pub enum RefusalView {
    KindConflict {
        gts_id: Seq<char>,
        family_key: Seq<char>,
        candidate: EntityKind,
        existing: EntityKind,
    },
    MinorShape { gts_id: Seq<char>, conflicting: Seq<char> },
    MissingPredecessor { gts_id: Seq<char>, predecessor: Seq<char> },
}

impl View for FamilyRefusal {
    type V = RefusalView;

    open spec fn view(&self) -> RefusalView {
        match *self {
            FamilyRefusal::KindConflict { gts_id, family_key, candidate, existing } => {
                RefusalView::KindConflict {
                    gts_id: gts_id@,
                    family_key: family_key.text@,
                    candidate,
                    existing,
                }
            },
            FamilyRefusal::MinorShape { gts_id, conflicting } => RefusalView::MinorShape {
                gts_id: gts_id@,
                conflicting: conflicting@,
            },
            FamilyRefusal::MissingPredecessor { gts_id, predecessor } => {
                RefusalView::MissingPredecessor { gts_id: gts_id@, predecessor: predecessor@ }
            },
        }
    }
}

impl RefusalView {
    /// The machine reason of each rule.
    pub open spec fn reason_text(self) -> Seq<char> {
        match self {
            RefusalView::KindConflict { .. } => "family_kind_conflict"@,
            RefusalView::MinorShape { .. } => "family_shape_conflict"@,
            RefusalView::MissingPredecessor { .. } => "missing_predecessor"@,
        }
    }

    /// The message of each rule.
    pub open spec fn message_text(self) -> Seq<char> {
        match self {
            RefusalView::KindConflict { gts_id, family_key, candidate, existing } => "'"@ + gts_id
                + "' is a "@ + candidate.label_text() + ", but version family '"@ + family_key
                + "' already holds "@ + existing.label_text()
                + " members; a family holds one kind"@,
            RefusalView::MinorShape { gts_id, conflicting } => "'"@ + gts_id
                + "' cannot join the major that '"@ + conflicting
                + "' already spells the other way; within one major either every member carries a minor or none does"@,
            RefusalView::MissingPredecessor { gts_id, predecessor } => "'"@ + gts_id
                + "' requires its predecessor '"@ + predecessor
                + "'; the minors of a major are contiguous and open at M.0"@,
        }
    }
}

impl FamilyRefusal {
    /// The stable machine reason recorded on the operation item.
    pub fn reason(&self) -> (text: &'static str)
        ensures
            text@ == self@.reason_text(),
            text@ == match *self {
                FamilyRefusal::KindConflict { .. } => "family_kind_conflict"@,
                FamilyRefusal::MinorShape { .. } => "family_shape_conflict"@,
                FamilyRefusal::MissingPredecessor { .. } => "missing_predecessor"@,
            },
    {
        match self {
            FamilyRefusal::KindConflict { .. } => "family_kind_conflict",
            FamilyRefusal::MinorShape { .. } => "family_shape_conflict",
            FamilyRefusal::MissingPredecessor { .. } => "missing_predecessor",
        }
    }

    /// The refusal in a sentence.
    pub fn to_string(&self) -> (text: String)
        ensures
            text@ == self@.message_text(),
            text@ == match *self {
                FamilyRefusal::KindConflict { gts_id, family_key, candidate, existing } => "'"@
                    + gts_id@ + "' is a "@ + (match candidate {
                    EntityKind::Type => "type"@,
                    EntityKind::Instance => "instance"@,
                }) + ", but version family '"@ + family_key.text@ + "' already holds "@ + (
                match existing {
                    EntityKind::Type => "type"@,
                    EntityKind::Instance => "instance"@,
                }) + " members; a family holds one kind"@,
                FamilyRefusal::MinorShape { gts_id, conflicting } => "'"@ + gts_id@
                    + "' cannot join the major that '"@ + conflicting@
                    + "' already spells the other way; within one major either every member carries a minor or none does"@,
                FamilyRefusal::MissingPredecessor { gts_id, predecessor } => "'"@ + gts_id@
                    + "' requires its predecessor '"@ + predecessor@
                    + "'; the minors of a major are contiguous and open at M.0"@,
            },
    {
        let mut out = "'".to_owned();
        match self {
            FamilyRefusal::KindConflict { gts_id, family_key, candidate, existing } => {
                out.append(gts_id.as_str());
                out.append("' is a ");
                out.append(candidate.label());
                out.append(", but version family '");
                out.append(family_key.text.as_str());
                out.append("' already holds ");
                out.append(existing.label());
                out.append(" members; a family holds one kind");
            },
            FamilyRefusal::MinorShape { gts_id, conflicting } => {
                out.append(gts_id.as_str());
                out.append("' cannot join the major that '");
                out.append(conflicting.as_str());
                out.append(
                    "' already spells the other way; within one major either every member carries a minor or none does",
                );
            },
            FamilyRefusal::MissingPredecessor { gts_id, predecessor } => {
                out.append(gts_id.as_str());
                out.append("' requires its predecessor '");
                out.append(predecessor.as_str());
                out.append("'; the minors of a major are contiguous and open at M.0");
            },
        }
        out
    }
}

/// The exact lookups that shape and contiguity need, chosen by the version of the
/// candidate.
#[derive(Clone, Debug, PartialEq, Eq)]
pub enum VersionProbe {
    /// A major-only candidate `vM~`: refused while `vM.0~` exists.
    MajorOnly { blocker: String },
    /// The first minor `vM.0~`: refused while `vM~` exists. It opens the major, so it has
    /// no predecessor.
    FirstMinor { blocker: String },
    /// `vM.n~` with `n > 0`: refused while `vM~` exists, and refused unless `vM.(n-1)~`
    /// exists.
    LaterMinor { blocker: String, predecessor: String },
}

/// What a probe asks for.
pub enum ProbeView {
    MajorOnly { blocker: Seq<char> },
    FirstMinor { blocker: Seq<char> },
    LaterMinor { blocker: Seq<char>, predecessor: Seq<char> },
}

impl View for VersionProbe {
    type V = ProbeView;

    open spec fn view(&self) -> ProbeView {
        match *self {
            VersionProbe::MajorOnly { blocker } => ProbeView::MajorOnly { blocker: blocker@ },
            VersionProbe::FirstMinor { blocker } => ProbeView::FirstMinor { blocker: blocker@ },
            VersionProbe::LaterMinor { blocker, predecessor } => ProbeView::LaterMinor {
                blocker: blocker@,
                predecessor: predecessor@,
            },
        }
    }
}

impl ProbeView {
    /// The identifier whose existence refuses the candidate.
    pub open spec fn blocker(self) -> Seq<char> {
        match self {
            ProbeView::MajorOnly { blocker } => blocker,
            ProbeView::FirstMinor { blocker } => blocker,
            ProbeView::LaterMinor { blocker, .. } => blocker,
        }
    }

    /// The identifier whose absence refuses the candidate.
    pub open spec fn predecessor(self) -> Option<Seq<char>> {
        match self {
            ProbeView::LaterMinor { predecessor, .. } => Some(predecessor),
            _ => None,
        }
    }
}

/// Which identifiers decide the shape and the contiguity of a candidate.
pub open spec fn probe_of(id: GtsIdView) -> Option<ProbeView> {
    match id.major() {
        None => None,
        Some(major) => Some(
            match id.minor() {
                None => ProbeView::MajorOnly { blocker: sibling_text(id, major, Some(0)) },
                Some(minor) => if minor == 0 {
                    ProbeView::FirstMinor { blocker: sibling_text(id, major, None) }
                } else {
                    ProbeView::LaterMinor {
                        blocker: sibling_text(id, major, None),
                        predecessor: sibling_text(id, major, Some((minor - 1) as u32)),
                    }
                },
            },
        ),
    }
}

/// The view of an optional probe.
pub open spec fn probe_view(probe: Option<VersionProbe>) -> Option<ProbeView> {
    match probe {
        Some(p) => Some(p@),
        None => None,
    }
}

/// Which identifiers decide this candidate's shape and contiguity.
///
/// Nothing comes back for a last segment without a major, which is a UUID tail.
pub fn version_probe(id: &GtsId) -> (probe: Option<VersionProbe>)
    ensures
        probe_view(probe) == probe_of(id@),
        probe is None <==> id.segments@.len() == 0 || id.segments@.last().ver_major is None,
        probe matches Some(asked) ==> {
            let major = id.segments@.last().ver_major->0;
            match id.segments@.last().ver_minor {
                None => asked matches VersionProbe::MajorOnly { blocker } && blocker@
                    == sibling_text(id@, major, Some(0)),
                Some(minor) if minor == 0 => asked matches VersionProbe::FirstMinor { blocker }
                    && blocker@ == sibling_text(id@, major, None),
                Some(minor) => asked matches VersionProbe::LaterMinor { blocker, predecessor }
                    && blocker@ == sibling_text(id@, major, None) && predecessor@ == sibling_text(
                    id@,
                    major,
                    Some((minor - 1) as u32),
                ),
            }
        },
{
    let count: usize = id.segments.len();
    if count == 0 {
        return None;
    }
    let last = &id.segments[count - 1];
    assert(id@.segments.last() == last@);
    let major: u32 = match last.ver_major_opt() {
        Some(major) => major,
        None => {
            return None;
        },
    };
    Some(
        match last.ver_minor() {
            None => VersionProbe::MajorOnly { blocker: sibling_id(id, major, Some(0)) },
            Some(minor) => if minor == 0 {
                VersionProbe::FirstMinor { blocker: sibling_id(id, major, None) }
            } else {
                VersionProbe::LaterMinor {
                    blocker: sibling_id(id, major, None),
                    predecessor: sibling_id(id, major, Some(minor - 1)),
                }
            },
        },
    )
}

/// Asks for the kind of the members that a family already has.
#[derive(Debug, PartialEq, Eq)]
pub struct KindQuestion {
    family_id: u128,
    family_key: FamilyKey,
    gts_id: String,
    candidate: EntityKind,
    probe: Option<VersionProbe>,
}

/// Asks whether the blocker exists, deleted entities included.
#[derive(Debug, PartialEq, Eq)]
pub struct BlockerQuestion {
    blocker: String,
    predecessor: Option<String>,
    gts_id: String,
}

/// Asks whether the predecessor exists, deleted entities included.
#[derive(Debug, PartialEq, Eq)]
pub struct PredecessorQuestion {
    predecessor: String,
    gts_id: String,
}

/// Where an admission stands: a lookup that the caller has to run, or the outcome, which
/// is a refusal or nothing.
#[derive(Debug, PartialEq, Eq)]
pub enum AdmissionStep {
    AskKind(KindQuestion),
    AskBlocker(BlockerQuestion),
    AskPredecessor(PredecessorQuestion),
    Decided(Option<FamilyRefusal>),
}

/// What a step of an admission says.
pub enum StepView {
    AskKind {
        family_id: u128,
        family_key: Seq<char>,
        gts_id: Seq<char>,
        candidate: EntityKind,
        probe: Option<ProbeView>,
    },
    AskBlocker { blocker: Seq<char>, predecessor: Option<Seq<char>>, gts_id: Seq<char> },
    AskPredecessor { predecessor: Seq<char>, gts_id: Seq<char> },
    Decided(Option<RefusalView>),
}

impl View for KindQuestion {
    type V = StepView;

    closed spec fn view(&self) -> StepView {
        StepView::AskKind {
            family_id: self.family_id,
            family_key: self.family_key.text@,
            gts_id: self.gts_id@,
            candidate: self.candidate,
            probe: probe_view(self.probe),
        }
    }
}

impl View for BlockerQuestion {
    type V = StepView;

    closed spec fn view(&self) -> StepView {
        StepView::AskBlocker {
            blocker: self.blocker@,
            predecessor: match self.predecessor {
                Some(p) => Some(p@),
                None => None,
            },
            gts_id: self.gts_id@,
        }
    }
}

impl View for PredecessorQuestion {
    type V = StepView;

    closed spec fn view(&self) -> StepView {
        StepView::AskPredecessor { predecessor: self.predecessor@, gts_id: self.gts_id@ }
    }
}

impl View for AdmissionStep {
    type V = StepView;

    open spec fn view(&self) -> StepView {
        match *self {
            AdmissionStep::AskKind(question) => question@,
            AdmissionStep::AskBlocker(question) => question@,
            AdmissionStep::AskPredecessor(question) => question@,
            AdmissionStep::Decided(Some(refusal)) => StepView::Decided(Some(refusal@)),
            AdmissionStep::Decided(None) => StepView::Decided(None),
        }
    }
}

/// The step behind the kind rule: the blocker is asked first, and a candidate without a
/// probe is admitted.
pub open spec fn version_step(gts_id: Seq<char>, probe: Option<ProbeView>) -> StepView {
    match probe {
        None => StepView::Decided(None),
        Some(p) => StepView::AskBlocker { blocker: p.blocker(), predecessor: p.predecessor(), gts_id },
    }
}

/// The first step of an admission. A family that the admission founds has no member whose
/// kind could conflict, so its kind is not asked.
pub open spec fn first_step(
    id: GtsIdView,
    family_id: u128,
    family_key: Seq<char>,
    candidate: EntityKind,
    family_is_new: bool,
) -> StepView {
    if family_is_new {
        version_step(id.text(), probe_of(id))
    } else {
        StepView::AskKind {
            family_id,
            family_key,
            gts_id: id.text(),
            candidate,
            probe: probe_of(id),
        }
    }
}

/// The step behind the answer to the kind question.
pub open spec fn after_kind(step: StepView, existing: Option<EntityKind>) -> StepView
    recommends
        step is AskKind,
{
    let gts_id = step->AskKind_gts_id;
    let candidate = step->AskKind_candidate;
    if existing is Some && existing->0 != candidate {
        StepView::Decided(
            Some(
                RefusalView::KindConflict {
                    gts_id,
                    family_key: step->AskKind_family_key,
                    candidate,
                    existing: existing->0,
                },
            ),
        )
    } else {
        version_step(gts_id, step->AskKind_probe)
    }
}

/// The step behind the answer to the blocker question.
pub open spec fn after_blocker(step: StepView, found: bool) -> StepView
    recommends
        step is AskBlocker,
{
    let gts_id = step->AskBlocker_gts_id;
    if found {
        StepView::Decided(
            Some(RefusalView::MinorShape { gts_id, conflicting: step->AskBlocker_blocker }),
        )
    } else {
        match step->AskBlocker_predecessor {
            Some(predecessor) => StepView::AskPredecessor { predecessor, gts_id },
            None => StepView::Decided(None),
        }
    }
}

/// The step behind the answer to the predecessor question.
pub open spec fn after_predecessor(step: StepView, found: bool) -> StepView
    recommends
        step is AskPredecessor,
{
    if found {
        StepView::Decided(None)
    } else {
        StepView::Decided(
            Some(
                RefusalView::MissingPredecessor {
                    gts_id: step->AskPredecessor_gts_id,
                    predecessor: step->AskPredecessor_predecessor,
                },
            ),
        )
    }
}

/// Moves behind the kind rule.
fn ask_version(gts_id: String, probe: Option<VersionProbe>) -> (step: AdmissionStep)
    ensures
        step@ == version_step(gts_id@, probe_view(probe)),
        probe is None ==> step == AdmissionStep::Decided(None),
        probe is Some ==> step is AskBlocker,
{
    match probe {
        None => AdmissionStep::Decided(None),
        Some(VersionProbe::MajorOnly { blocker }) => AdmissionStep::AskBlocker(
            BlockerQuestion { blocker, predecessor: None, gts_id },
        ),
        Some(VersionProbe::FirstMinor { blocker }) => AdmissionStep::AskBlocker(
            BlockerQuestion { blocker, predecessor: None, gts_id },
        ),
        Some(VersionProbe::LaterMinor { blocker, predecessor }) => AdmissionStep::AskBlocker(
            BlockerQuestion { blocker, predecessor: Some(predecessor), gts_id },
        ),
    }
}

/// Asks the family whether it admits this new member, and says which lookup decides first.
///
/// `family_is_new` skips the kind rule for a family that this admission founds.
pub fn admits_new_member(
    id: &GtsId,
    family: &VersionFamilyRow,
    candidate_kind: EntityKind,
    family_is_new: bool,
) -> (step: AdmissionStep)
    ensures
        step@ == first_step(
            id@,
            family.id,
            family.family_key.text@,
            candidate_kind,
            family_is_new,
        ),
        !family_is_new ==> {
            &&& step matches AdmissionStep::AskKind(question)
            &&& question@ is AskKind
            &&& question@->AskKind_family_id == family.id
            &&& question@->AskKind_family_key == family.family_key.text@
            &&& question@->AskKind_gts_id == id@.text()
            &&& question@->AskKind_candidate == candidate_kind
            &&& question@->AskKind_probe == probe_of(id@)
        },
        family_is_new ==> match probe_of(id@) {
            None => step == AdmissionStep::Decided(None),
            Some(ProbeView::MajorOnly { blocker }) =>
                step matches AdmissionStep::AskBlocker(question)
                && question@
                    == (StepView::AskBlocker { blocker, predecessor: None, gts_id: id@.text() }),
            Some(ProbeView::FirstMinor { blocker }) =>
                step matches AdmissionStep::AskBlocker(question)
                && question@
                    == (StepView::AskBlocker { blocker, predecessor: None, gts_id: id@.text() }),
            Some(ProbeView::LaterMinor { blocker, predecessor }) =>
                step matches AdmissionStep::AskBlocker(question)
                && question@ == (StepView::AskBlocker {
                blocker,
                predecessor: Some(predecessor),
                gts_id: id@.text(),
            }),
        },
{
    let probe = version_probe(id);
    let gts_id = id.id();
    if family_is_new {
        ask_version(gts_id, probe)
    } else {
        AdmissionStep::AskKind(
            KindQuestion {
                family_id: family.id,
                family_key: FamilyKey { text: family.family_key.text.clone() },
                gts_id,
                candidate: candidate_kind,
                probe,
            },
        )
    }
}

impl KindQuestion {
    /// The family that is asked about.
    pub fn family_id(&self) -> (id: u128)
        ensures
            self@ is AskKind,
            id == self@->AskKind_family_id,
    {
        self.family_id
    }

    /// Takes the kind of the members that the family has, or nothing where it has none.
    pub fn answer(self, existing: Option<EntityKind>) -> (step: AdmissionStep)
        ensures
            step@ == after_kind(self@, existing),
            self@ is AskKind,
            existing is Some && existing->0 != self@->AskKind_candidate ==> {
                &&& step matches AdmissionStep::Decided(
                    Some(
                        FamilyRefusal::KindConflict {
                            gts_id,
                            family_key,
                            candidate,
                            existing: held,
                        },
                    ),
                )
                &&& gts_id@ == self@->AskKind_gts_id
                &&& family_key.text@ == self@->AskKind_family_key
                &&& candidate == self@->AskKind_candidate
                &&& held == existing->0
            },
            existing is None || existing->0 == self@->AskKind_candidate ==> match
                self@->AskKind_probe {
                None => step == AdmissionStep::Decided(None),
                Some(ProbeView::MajorOnly { blocker }) =>
                    step matches AdmissionStep::AskBlocker(question)
                    && question@ == (StepView::AskBlocker {
                    blocker,
                    predecessor: None,
                    gts_id: self@->AskKind_gts_id,
                }),
                Some(ProbeView::FirstMinor { blocker }) =>
                    step matches AdmissionStep::AskBlocker(question)
                    && question@ == (StepView::AskBlocker {
                    blocker,
                    predecessor: None,
                    gts_id: self@->AskKind_gts_id,
                }),
                Some(ProbeView::LaterMinor { blocker, predecessor }) =>
                    step matches AdmissionStep::AskBlocker(question)
                    && question@ == (StepView::AskBlocker {
                    blocker,
                    predecessor: Some(predecessor),
                    gts_id: self@->AskKind_gts_id,
                }),
            },
    {
        if let Some(kind) = existing {
            if kind != self.candidate {
                return AdmissionStep::Decided(
                    Some(
                        FamilyRefusal::KindConflict {
                            gts_id: self.gts_id,
                            family_key: self.family_key,
                            candidate: self.candidate,
                            existing: kind,
                        },
                    ),
                );
            }
        }
        ask_version(self.gts_id, self.probe)
    }
}

impl BlockerQuestion {
    /// The identifier that is asked about.
    pub fn blocker(&self) -> (gts_id: &str)
        ensures
            self@ is AskBlocker,
            gts_id@ == self@->AskBlocker_blocker,
    {
        self.blocker.as_str()
    }

    /// Takes whether the blocker was found.
    pub fn answer(self, found: bool) -> (step: AdmissionStep)
        ensures
            step@ == after_blocker(self@, found),
            self@ is AskBlocker,
            found ==> {
                &&& step matches AdmissionStep::Decided(
                    Some(FamilyRefusal::MinorShape { gts_id, conflicting }),
                )
                &&& gts_id@ == self@->AskBlocker_gts_id
                &&& conflicting@ == self@->AskBlocker_blocker
            },
            !found ==> match self@->AskBlocker_predecessor {
                None => step == AdmissionStep::Decided(None),
                Some(predecessor) => step matches AdmissionStep::AskPredecessor(question)
                    && question@ == (StepView::AskPredecessor {
                    predecessor,
                    gts_id: self@->AskBlocker_gts_id,
                }),
            },
    {
        if found {
            return AdmissionStep::Decided(
                Some(FamilyRefusal::MinorShape { gts_id: self.gts_id, conflicting: self.blocker }),
            );
        }
        match self.predecessor {
            Some(predecessor) => AdmissionStep::AskPredecessor(
                PredecessorQuestion { predecessor, gts_id: self.gts_id },
            ),
            None => AdmissionStep::Decided(None),
        }
    }
}

impl PredecessorQuestion {
    /// The identifier that is asked about.
    pub fn predecessor(&self) -> (gts_id: &str)
        ensures
            self@ is AskPredecessor,
            gts_id@ == self@->AskPredecessor_predecessor,
    {
        self.predecessor.as_str()
    }

    /// Takes whether the predecessor was found.
    pub fn answer(self, found: bool) -> (step: AdmissionStep)
        ensures
            step@ == after_predecessor(self@, found),
            self@ is AskPredecessor,
            found ==> step == AdmissionStep::Decided(None),
            !found ==> {
                &&& step matches AdmissionStep::Decided(
                    Some(FamilyRefusal::MissingPredecessor { gts_id, predecessor }),
                )
                &&& gts_id@ == self@->AskPredecessor_gts_id
                &&& predecessor@ == self@->AskPredecessor_predecessor
            },
    {
        if found {
            AdmissionStep::Decided(None)
        } else {
            AdmissionStep::Decided(
                Some(
                    FamilyRefusal::MissingPredecessor {
                        gts_id: self.gts_id,
                        predecessor: self.predecessor,
                    },
                ),
            )
        }
    }
}

} // verus!
