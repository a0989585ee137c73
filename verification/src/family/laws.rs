//! What the family rules keep, for every store and every history of admissions.

use vstd::prelude::*;

use crate::family::key::{sibling_text, EntityKind};
use crate::family::rules::{
    after_blocker, after_kind, after_predecessor, first_step, probe_of, version_step,
    AdmissionStep, BlockerQuestion, FamilyRefusal, KindQuestion, PredecessorQuestion, ProbeView,
    RefusalView, StepView,
};
use crate::gts_id::{type_mark, version_text, raw_segments, GtsIdView};
use crate::text::{decimal, is_digit_char, lemma_decimal_digits, lemma_decimal_injective};

verus! {

/// What the lookups of an admission find.
pub struct StoreView {
    /// The kind of the members of each family, by the id of its row, where it has any.
    pub kinds: spec_fn(u128) -> Option<EntityKind>,
    /// The identifiers of the entities that are there.
    pub live: Set<Seq<char>>,
    /// The identifiers of the deleted entities.
    pub deleted: Set<Seq<char>>,
}

impl StoreView {
    /// The identifiers that a lookup finds.
    pub open spec fn known(self) -> Set<Seq<char>> {
        self.live.union(self.deleted)
    }
}

/// How many lookups a step can still lead to.
pub open spec fn lookups_left(step: StepView) -> nat {
    match step {
        StepView::AskKind { .. } => 3,
        StepView::AskBlocker { .. } => 2,
        StepView::AskPredecessor { .. } => 1,
        StepView::Decided(_) => 0,
    }
}

/// The step behind a question, with the answer that the store gives.
pub open spec fn next_step(step: StepView, store: StoreView) -> StepView {
    match step {
        StepView::AskKind { family_id, .. } => after_kind(step, (store.kinds)(family_id)),
        StepView::AskBlocker { blocker, .. } => after_blocker(
            step,
            store.known().contains(blocker),
        ),
        StepView::AskPredecessor { predecessor, .. } => after_predecessor(
            step,
            store.known().contains(predecessor),
        ),
        StepView::Decided(_) => step,
    }
}

/// The outcome of an admission that stands at `step`, with every question answered by
/// the store.
pub open spec fn outcome(step: StepView, store: StoreView) -> Option<RefusalView>
    decreases lookups_left(step),
{
    match step {
        StepView::Decided(refusal) => refusal,
        _ => outcome(next_step(step, store), store),
    }
}

/// The refusal of the rules that look at versions, where they refuse.
pub open spec fn version_refusal(id: GtsIdView, known: Set<Seq<char>>) -> Option<RefusalView> {
    match (id.major(), id.minor()) {
        (None, _) => None,
        (Some(major), None) => {
            let first = sibling_text(id, major, Some(0));
            if known.contains(first) {
                Some(RefusalView::MinorShape { gts_id: id.text(), conflicting: first })
            } else {
                None
            }
        },
        (Some(major), Some(minor)) => {
            let bare = sibling_text(id, major, None);
            let before = sibling_text(id, major, Some((minor - 1) as u32));
            if known.contains(bare) {
                Some(RefusalView::MinorShape { gts_id: id.text(), conflicting: bare })
            } else if minor > 0 && !known.contains(before) {
                Some(RefusalView::MissingPredecessor { gts_id: id.text(), predecessor: before })
            } else {
                None
            }
        },
    }
}

/// The refusal of a candidate, where it is refused: first by its kind, then by its
/// version.
pub open spec fn verdict(
    id: GtsIdView,
    family_id: u128,
    family_key: Seq<char>,
    candidate: EntityKind,
    family_is_new: bool,
    store: StoreView,
) -> Option<RefusalView> {
    match (store.kinds)(family_id) {
        Some(existing) if !family_is_new && existing != candidate => Some(
            RefusalView::KindConflict { gts_id: id.text(), family_key, candidate, existing },
        ),
        _ => version_refusal(id, store.known()),
    }
}

/// Whether the version `(major, minor)` of the entity that `id` is a version of is known.
pub open spec fn has_version(
    id: GtsIdView,
    known: Set<Seq<char>>,
    major: u32,
    minor: Option<u32>,
) -> bool {
    known.contains(sibling_text(id, major, minor))
}

/// Within one major, either every known version carries a minor or none does.
pub open spec fn one_shape(id: GtsIdView, known: Set<Seq<char>>) -> bool {
    forall|major: u32, minor: u32|
        #![trigger has_version(id, known, major, Some(minor))]
        !(has_version(id, known, major, None) && has_version(id, known, major, Some(minor)))
}

/// The known minors of a major are contiguous and open at zero.
pub open spec fn contiguous(id: GtsIdView, known: Set<Seq<char>>) -> bool {
    forall|major: u32, minor: u32, lower: u32|
        #![trigger has_version(id, known, major, Some(minor)), has_version(id, known, major, Some(lower))]
        has_version(id, known, major, Some(minor)) && lower <= minor ==> has_version(
            id,
            known,
            major,
            Some(lower),
        )
}

/// Both, of every major.
pub open spec fn well_shaped(id: GtsIdView, known: Set<Seq<char>>) -> bool {
    one_shape(id, known) && contiguous(id, known)
}

/// Whether all members have one kind.
pub open spec fn one_kind(members: Seq<EntityKind>) -> bool {
    forall|i: int, j: int|
        0 <= i < members.len() && 0 <= j < members.len() ==> members[i] == members[j]
}

/// The kind that a lookup finds in a family with these members.
pub open spec fn kind_of(members: Seq<EntityKind>) -> Option<EntityKind> {
    if members.len() == 0 {
        None
    } else {
        Some(members[0])
    }
}

/// The identifiers of the versions in `history`.
pub open spec fn history_texts(
    id: GtsIdView,
    history: Seq<(u32, Option<u32>)>,
) -> Set<Seq<char>>
    decreases history.len(),
{
    if history.len() == 0 {
        Set::empty()
    } else {
        let (major, minor) = history.last();
        history_texts(id, history.drop_last()).insert(sibling_text(id, major, minor))
    }
}

/// Whether each version in `history` was admitted when those before it were known.
pub open spec fn admitted_in_order(id: GtsIdView, history: Seq<(u32, Option<u32>)>) -> bool
    decreases history.len(),
{
    history.len() == 0 || {
        let (major, minor) = history.last();
        &&& admitted_in_order(id, history.drop_last())
        &&& version_refusal(
            id.with_version(major, minor),
            history_texts(id, history.drop_last()),
        ) is None
    }
}

/// Two spellings of a version that read alike are the same version.
proof fn lemma_version_text_injective(
    major: u32,
    minor: Option<u32>,
    other_major: u32,
    other_minor: Option<u32>,
)
    requires
        version_text(Some(major), minor) == version_text(Some(other_major), other_minor),
    ensures
        major == other_major,
        minor == other_minor,
{
    let text = version_text(Some(major), minor);
    let a = decimal(major as nat);
    let b = decimal(other_major as nat);
    lemma_decimal_digits(major as nat);
    lemma_decimal_digits(other_major as nat);
    // The digits of the major end where the text ends or at a dot, which is no digit.
    if a.len() < b.len() {
        assert(text[2 + a.len() as int] == b[a.len() as int]);
        assert(is_digit_char(b[a.len() as int]));
        assert(false);
    }
    if b.len() < a.len() {
        assert(text[2 + b.len() as int] == a[b.len() as int]);
        assert(is_digit_char(a[b.len() as int]));
        assert(false);
    }
    assert(text.subrange(2, 2 + a.len() as int) =~= a);
    assert(text.subrange(2, 2 + b.len() as int) =~= b);
    lemma_decimal_injective(major as nat, other_major as nat);
    match (minor, other_minor) {
        (Some(m), Some(n)) => {
            let start = 3 + a.len() as int;
            assert(text.subrange(start, text.len() as int) =~= decimal(m as nat));
            assert(text.subrange(start, text.len() as int) =~= decimal(n as nat));
            lemma_decimal_injective(m as nat, n as nat);
        },
        (Some(m), None) => {
            assert(text.len() > 2 + a.len());
        },
        (None, Some(n)) => {
            assert(text.len() > 2 + a.len());
        },
        (None, None) => {},
    }
}

/// Siblings under different versions have different identifiers.
pub proof fn law_siblings_differ(
    id: GtsIdView,
    major: u32,
    minor: Option<u32>,
    other_major: u32,
    other_minor: Option<u32>,
)
    requires
        id.segments.len() > 0,
    ensures
        sibling_text(id, major, minor) == sibling_text(id, other_major, other_minor) ==> major
            == other_major && minor == other_minor,
{
    let a = sibling_text(id, major, minor);
    let b = sibling_text(id, other_major, other_minor);
    lemma_sibling_spelling(id, major, minor);
    lemma_sibling_spelling(id, other_major, other_minor);
    if a == b {
        let head = id.prefix + raw_segments(id.segments.drop_last()) + id.segments.last().stem;
        let mark = type_mark(id.segments.last().is_type);
        let end = a.len() - mark.len();
        assert(a.subrange(head.len() as int, end) =~= version_text(Some(major), minor));
        assert(b.subrange(head.len() as int, end) =~= version_text(
            Some(other_major),
            other_minor,
        ));
        lemma_version_text_injective(major, minor, other_major, other_minor);
    }
}

/// Where in the text of a sibling its version stands.
proof fn lemma_sibling_spelling(id: GtsIdView, major: u32, minor: Option<u32>)
    requires
        id.segments.len() > 0,
    ensures
        sibling_text(id, major, minor) == id.prefix + raw_segments(id.segments.drop_last())
            + id.segments.last().stem + version_text(Some(major), minor) + type_mark(
            id.segments.last().is_type,
        ),
{
    let sibling = id.with_version(major, minor);
    assert(sibling.segments.drop_last() =~= id.segments.drop_last());
    assert(sibling_text(id, major, minor) =~= id.prefix + raw_segments(id.segments.drop_last())
        + id.segments.last().stem + version_text(Some(major), minor) + type_mark(
        id.segments.last().is_type,
    ));
}

/// An identifier is its own sibling under its own version.
pub proof fn law_own_sibling(id: GtsIdView)
    requires
        id.major() is Some,
    ensures
        sibling_text(id, id.major()->0, id.minor()) == id.text(),
{
    assert(id.with_version(id.major()->0, id.minor()).segments =~= id.segments);
}

/// A sibling has the same siblings.
pub proof fn law_sibling_of_sibling(
    id: GtsIdView,
    major: u32,
    minor: Option<u32>,
    other_major: u32,
    other_minor: Option<u32>,
)
    ensures
        sibling_text(id.with_version(major, minor), other_major, other_minor) == sibling_text(
            id,
            other_major,
            other_minor,
        ),
{
    if id.segments.len() > 0 {
        let sibling = id.with_version(major, minor);
        assert(sibling.segments.drop_last() =~= id.segments.drop_last());
        assert(sibling.with_version(other_major, other_minor).segments =~= id.with_version(
            other_major,
            other_minor,
        ).segments);
    }
}

/// The version that is `steps` minors before that of `id`.
pub open spec fn minors_back(id: GtsIdView, steps: nat) -> GtsIdView {
    id.with_version(id.major()->0, Some((id.minor()->0 - steps) as u32))
}

/// Every minor of a major has one blocker, the major-only form.
pub proof fn law_minors_share_one_blocker(id: GtsIdView, major: u32, minor: u32)
    requires
        id.segments.len() > 0,
    ensures
        probe_of(id.with_version(major, Some(minor))) is Some,
        probe_of(id.with_version(major, Some(minor)))->0.blocker() == sibling_text(
            id,
            major,
            None,
        ),
        probe_of(id.with_version(major, Some(minor)))->0.predecessor() == if minor == 0 {
            None
        } else {
            Some(sibling_text(id, major, Some((minor - 1) as u32)))
        },
{
    law_sibling_of_sibling(id, major, Some(minor), major, None);
    if minor > 0 {
        law_sibling_of_sibling(id, major, Some(minor), major, Some((minor - 1) as u32));
    }
}

/// Predecessors lead down to `M.0`: each step back is the predecessor that the step before
/// it asks for, all have one blocker, and as many steps as the minor counts end at the
/// first minor, which asks for none.
pub proof fn law_predecessors_lead_to_first_minor(id: GtsIdView, steps: nat)
    requires
        id.major() is Some,
        id.minor() is Some,
        steps <= id.minor()->0,
    ensures
        probe_of(minors_back(id, steps)) == Some(
            if steps == id.minor()->0 {
                ProbeView::FirstMinor { blocker: sibling_text(id, id.major()->0, None) }
            } else {
                ProbeView::LaterMinor {
                    blocker: sibling_text(id, id.major()->0, None),
                    predecessor: minors_back(id, steps + 1).text(),
                }
            },
        ),
        minors_back(id, 0).text() == id.text(),
{
    let major = id.major()->0;
    let minor = (id.minor()->0 - steps) as u32;
    law_minors_share_one_blocker(id, major, minor);
    law_own_sibling(id);
    if minor > 0 {
        law_sibling_of_sibling(id, major, Some(minor), major, Some((minor - 1) as u32));
    }
    law_sibling_of_sibling(id, major, Some(minor), major, None);
}

/// Asking step by step ends in the verdict, whatever the store holds.
pub proof fn law_steps_reach_verdict(
    id: GtsIdView,
    family_id: u128,
    family_key: Seq<char>,
    candidate: EntityKind,
    family_is_new: bool,
    store: StoreView,
)
    ensures
        outcome(first_step(id, family_id, family_key, candidate, family_is_new), store) == verdict(
            id,
            family_id,
            family_key,
            candidate,
            family_is_new,
            store,
        ),
{
    reveal_with_fuel(outcome, 4);
    let step = version_step(id.text(), probe_of(id));
    assert(outcome(step, store) == version_refusal(id, store.known()));
}

/// Each answer leaves fewer lookups, so that an admission takes at most three: one for
/// the kind of the family, and two for exact identifiers.
pub proof fn law_lookups_are_bounded(
    id: GtsIdView,
    family_id: u128,
    family_key: Seq<char>,
    candidate: EntityKind,
    family_is_new: bool,
    step: StepView,
    store: StoreView,
)
    ensures
        lookups_left(first_step(id, family_id, family_key, candidate, family_is_new)) <= if family_is_new {
            2nat
        } else {
            3nat
        },
        step !is Decided ==> lookups_left(next_step(step, store)) < lookups_left(step),
{
}

/// A candidate passes the rules on versions if and only if the family is still well
/// shaped once it is in.
pub proof fn law_version_rules_are_exact(id: GtsIdView, known: Set<Seq<char>>)
    requires
        id.major() is Some,
        well_shaped(id, known),
    ensures
        version_refusal(id, known) is None <==> well_shaped(id, known.insert(id.text())),
{
    let major = id.major()->0;
    let minor = id.minor();
    let grown = known.insert(id.text());
    law_own_sibling(id);
    assert forall|m: u32, n: Option<u32>| #[trigger]
        has_version(id, grown, m, n) == (has_version(id, known, m, n) || (m == major && n
            == minor)) by {
        law_siblings_differ(id, m, n, major, minor);
    }
    assert(has_version(id, grown, major, minor));
    match minor {
        None => {
            assert(has_version(id, grown, major, Some(0)) == has_version(
                id,
                known,
                major,
                Some(0),
            ));
            if version_refusal(id, known) is None {
                assert forall|m: u32, n: u32| #[trigger]
                    has_version(id, grown, m, Some(n)) implies !has_version(
                    id,
                    grown,
                    m,
                    None,
                ) by {
                    assert(has_version(id, known, m, Some(n)));
                    assert(has_version(id, known, m, Some(0)) || m != major);
                }
                assert forall|m: u32, n: u32, k: u32|
                    #![trigger has_version(id, grown, m, Some(n)), has_version(id, grown, m, Some(k))]
                    has_version(id, grown, m, Some(n)) && k <= n implies has_version(
                    id,
                    grown,
                    m,
                    Some(k),
                ) by {
                    assert(has_version(id, known, m, Some(n)));
                    assert(has_version(id, known, m, Some(k)));
                }
            }
        },
        Some(own) => {
            assert(has_version(id, grown, major, None) == has_version(id, known, major, None));
            if version_refusal(id, known) is None {
                assert forall|m: u32, n: u32| #[trigger]
                    has_version(id, grown, m, Some(n)) implies !has_version(
                    id,
                    grown,
                    m,
                    None,
                ) by {
                    assert(has_version(id, known, m, Some(n)) || m == major);
                }
                assert forall|m: u32, n: u32, k: u32|
                    #![trigger has_version(id, grown, m, Some(n)), has_version(id, grown, m, Some(k))]
                    has_version(id, grown, m, Some(n)) && k <= n implies has_version(
                    id,
                    grown,
                    m,
                    Some(k),
                ) by {
                    if m == major && n == own && k < own {
                        assert(has_version(id, known, major, Some((own - 1) as u32)));
                        assert(has_version(id, known, major, Some(k)));
                    } else if !(m == major && n == own) {
                        assert(has_version(id, known, m, Some(n)));
                        assert(has_version(id, known, m, Some(k)));
                    }
                }
            } else if own > 0 && !has_version(id, known, major, None) {
                let before = (own - 1) as u32;
                assert(!has_version(id, grown, major, Some(before)));
                assert(has_version(id, grown, major, Some(own)));
            }
        },
    }
}

/// An admitted member leaves the family well shaped.
pub proof fn law_admission_keeps_shape(
    id: GtsIdView,
    family_id: u128,
    family_key: Seq<char>,
    candidate: EntityKind,
    family_is_new: bool,
    store: StoreView,
)
    requires
        well_shaped(id, store.known()),
        verdict(id, family_id, family_key, candidate, family_is_new, store) is None,
        id.major() is Some,
    ensures
        well_shaped(id, (StoreView { live: store.live.insert(id.text()), ..store }).known()),
{
    law_version_rules_are_exact(id, store.known());
    let grown = StoreView { live: store.live.insert(id.text()), ..store };
    assert(grown.known() =~= store.known().insert(id.text()));
}

/// Whatever was admitted, and in whatever order: the family is well shaped.
pub proof fn law_every_history_is_well_shaped(id: GtsIdView, history: Seq<(u32, Option<u32>)>)
    requires
        id.segments.len() > 0,
        admitted_in_order(id, history),
    ensures
        well_shaped(id, history_texts(id, history)),
    decreases history.len(),
{
    if history.len() > 0 {
        let (major, minor) = history.last();
        let before = history_texts(id, history.drop_last());
        let candidate = id.with_version(major, minor);
        law_every_history_is_well_shaped(id, history.drop_last());
        lemma_shape_of_sibling(id, major, minor, before);
        law_version_rules_are_exact(candidate, before);
        lemma_shape_of_sibling(id, major, minor, before.insert(candidate.text()));
    }
}

/// Whether a family is well shaped does not depend on the member that is asked.
proof fn lemma_shape_of_sibling(
    id: GtsIdView,
    major: u32,
    minor: Option<u32>,
    known: Set<Seq<char>>,
)
    ensures
        well_shaped(id, known) == well_shaped(id.with_version(major, minor), known),
{
    let sibling = id.with_version(major, minor);
    assert forall|m: u32, n: Option<u32>|
        #![trigger has_version(id, known, m, n)]
        #![trigger has_version(sibling, known, m, n)]
        has_version(id, known, m, n) == has_version(sibling, known, m, n) by {
        law_sibling_of_sibling(id, major, minor, m, n);
    }
    if well_shaped(id, known) {
        assert forall|m: u32, n: u32| #[trigger]
            has_version(sibling, known, m, Some(n)) implies !has_version(
            sibling,
            known,
            m,
            None,
        ) by {
            assert(has_version(id, known, m, Some(n)));
        }
        assert(one_shape(sibling, known));
        assert(contiguous(sibling, known));
    }
    if well_shaped(sibling, known) {
        assert forall|m: u32, n: u32| #[trigger]
            has_version(id, known, m, Some(n)) implies !has_version(id, known, m, None) by {
            assert(has_version(sibling, known, m, Some(n)));
        }
        assert(one_shape(id, known));
        assert(contiguous(id, known));
    }
}

/// The verdict looks at one major only: stores that know the same versions of it, and
/// find the same kind in the family that is joined, give the same verdict.
pub proof fn law_other_majors_do_not_matter(
    id: GtsIdView,
    family_id: u128,
    family_key: Seq<char>,
    candidate: EntityKind,
    family_is_new: bool,
    store: StoreView,
    other: StoreView,
)
    requires
        (store.kinds)(family_id) == (other.kinds)(family_id),
        id.major() matches Some(major) ==> forall|minor: Option<u32>|
            has_version(id, store.known(), major, minor) == #[trigger] has_version(
                id,
                other.known(),
                major,
                minor,
            ),
    ensures
        verdict(id, family_id, family_key, candidate, family_is_new, store) == verdict(
            id,
            family_id,
            family_key,
            candidate,
            family_is_new,
            other,
        ),
{
    if let Some(major) = id.major() {
        assert(has_version(id, store.known(), major, None) == has_version(
            id,
            other.known(),
            major,
            None,
        ));
        assert(has_version(id, store.known(), major, Some(0)) == has_version(
            id,
            other.known(),
            major,
            Some(0),
        ));
        if let Some(minor) = id.minor() {
            let before = Some((minor - 1) as u32);
            assert(has_version(id, store.known(), major, before) == has_version(
                id,
                other.known(),
                major,
                before,
            ));
        }
    }
}

/// Deleting an entity changes no verdict.
pub proof fn law_deletion_changes_no_verdict(
    id: GtsIdView,
    family_id: u128,
    family_key: Seq<char>,
    candidate: EntityKind,
    family_is_new: bool,
    store: StoreView,
    text: Seq<char>,
)
    requires
        store.live.contains(text),
    ensures
        verdict(
            id,
            family_id,
            family_key,
            candidate,
            family_is_new,
            (StoreView {
                live: store.live.remove(text),
                deleted: store.deleted.insert(text),
                ..store
            }),
        ) == verdict(id, family_id, family_key, candidate, family_is_new, store),
{
    let after = StoreView {
        live: store.live.remove(text),
        deleted: store.deleted.insert(text),
        ..store
    };
    assert(after.known() =~= store.known());
}

/// A family holds one kind: an admitted member has the kind of those before it.
pub proof fn law_admission_keeps_one_kind(
    id: GtsIdView,
    family_id: u128,
    family_key: Seq<char>,
    candidate: EntityKind,
    family_is_new: bool,
    store: StoreView,
    members: Seq<EntityKind>,
)
    requires
        one_kind(members),
        (store.kinds)(family_id) == kind_of(members),
        family_is_new ==> members.len() == 0,
        verdict(id, family_id, family_key, candidate, family_is_new, store) is None,
    ensures
        one_kind(members.push(candidate)),
{
}

/// A candidate of another kind is refused for its kind, whatever its version, and one of
/// the same kind never is.
pub proof fn law_kind_conflict_is_exact(
    id: GtsIdView,
    family_id: u128,
    family_key: Seq<char>,
    candidate: EntityKind,
    family_is_new: bool,
    store: StoreView,
)
    ensures
        verdict(id, family_id, family_key, candidate, family_is_new, store) matches Some(
            RefusalView::KindConflict { .. },
        ) <==> !family_is_new && (store.kinds)(family_id) is Some && (store.kinds)(family_id)->0
            != candidate,
{
}

/// The admission that founds a family does not look at its kind.
pub proof fn law_founding_skips_kind(
    id: GtsIdView,
    family_id: u128,
    family_key: Seq<char>,
    candidate: EntityKind,
    store: StoreView,
)
    ensures
        verdict(id, family_id, family_key, candidate, true, store)
            == version_refusal(id, store.known()),
{
}

/// A candidate without a version is refused for its kind or not at all.
pub proof fn law_without_major_only_kind_matters(
    id: GtsIdView,
    family_id: u128,
    family_key: Seq<char>,
    candidate: EntityKind,
    family_is_new: bool,
    store: StoreView,
)
    requires
        id.major() is None,
    ensures
        verdict(id, family_id, family_key, candidate, family_is_new, store) matches Some(refusal)
            ==> refusal is KindConflict,
{
}

/// In a major of which nothing is known, the major-only form and the minor zero are
/// admitted, and every later minor lacks its predecessor.
pub proof fn law_major_opens_at_zero(id: GtsIdView, known: Set<Seq<char>>)
    requires
        id.major() matches Some(major) && forall|minor: Option<u32>|
            !#[trigger] has_version(id, known, major, minor),
    ensures
        id.minor() is None || id.minor() == Some(0u32) ==> version_refusal(id, known) is None,
        id.minor() is Some && id.minor()->0 > 0 ==> version_refusal(id, known) == Some(
            RefusalView::MissingPredecessor {
                gts_id: id.text(),
                predecessor: sibling_text(id, id.major()->0, Some((id.minor()->0 - 1) as u32)),
            },
        ),
{
    let major = id.major()->0;
    assert(!has_version(id, known, major, None));
    assert(!has_version(id, known, major, Some(0)));
    if let Some(minor) = id.minor() {
        assert(!has_version(id, known, major, Some((minor - 1) as u32)));
    }
}

/// Every refusal names the candidate, and its message starts with it.
pub proof fn law_refusal_names_candidate(
    id: GtsIdView,
    family_id: u128,
    family_key: Seq<char>,
    candidate: EntityKind,
    family_is_new: bool,
    store: StoreView,
)
    ensures
        verdict(id, family_id, family_key, candidate, family_is_new, store) matches Some(refusal) ==> ("'"@
            + id.text()).is_prefix_of(refusal.message_text()),
{
}

/// The machine reason tells the rule.
pub proof fn law_reason_tells_rule(a: RefusalView, b: RefusalView)
    ensures
        a.reason_text() == b.reason_text() <==> {
            ||| a is KindConflict && b is KindConflict
            ||| a is MinorShape && b is MinorShape
            ||| a is MissingPredecessor && b is MissingPredecessor
        },
{
    reveal_strlit("family_kind_conflict");
    reveal_strlit("family_shape_conflict");
    reveal_strlit("missing_predecessor");
    assert("family_kind_conflict"@.len() == 20);
    assert("family_shape_conflict"@.len() == 21);
    assert("missing_predecessor"@.len() == 19);
}

/// A sibling is spelled as the identifier is, up to the stem of its last segment; there
/// follow `.v`, the major, a dot and the minor where there is one, and the mark of the last
/// segment.
pub proof fn law_sibling_is_spelled_out(id: GtsIdView, major: u32, minor: Option<u32>)
    requires
        id.segments.len() > 0,
    ensures
        sibling_text(id, major, minor) == (GtsIdView {
            prefix: id.prefix,
            segments: id.segments.drop_last(),
        }).text() + id.segments.last().stem + seq!['.', 'v'] + decimal(major as nat) + (
        match minor {
            Some(n) => seq!['.'] + decimal(n as nat),
            None => Seq::<char>::empty(),
        }) + (if id.segments.last().is_type {
            seq!['~']
        } else {
            Seq::<char>::empty()
        }),
{
    lemma_sibling_spelling(id, major, minor);
    assert(sibling_text(id, major, minor) =~= (GtsIdView {
        prefix: id.prefix,
        segments: id.segments.drop_last(),
    }).text() + id.segments.last().stem + seq!['.', 'v'] + decimal(major as nat) + (match minor {
        Some(n) => seq!['.'] + decimal(n as nat),
        None => Seq::<char>::empty(),
    }) + (if id.segments.last().is_type {
        seq!['~']
    } else {
        Seq::<char>::empty()
    }));
}

/// What decides a candidate: nothing without a major; the first minor for a major-only
/// candidate; the major-only form for a minor, and the minor before it where there is one.
pub proof fn law_version_decides_the_probe(id: GtsIdView)
    ensures
        id.segments.len() == 0 || id.segments.last().ver_major is None <==> probe_of(id) is None,
        probe_of(id) is Some ==> {
            let major = id.segments.last().ver_major->0;
            match id.segments.last().ver_minor {
                None => probe_of(id)->0 == (ProbeView::MajorOnly {
                    blocker: sibling_text(id, major, Some(0)),
                }),
                Some(minor) if minor == 0 => probe_of(id)->0 == (ProbeView::FirstMinor {
                    blocker: sibling_text(id, major, None),
                }),
                Some(minor) => probe_of(id)->0 == (ProbeView::LaterMinor {
                    blocker: sibling_text(id, major, None),
                    predecessor: sibling_text(id, major, Some((minor - 1) as u32)),
                }),
            }
        },
{
}

/// An admission to a family that is there asks for the kind of that family, under the id of
/// its row, and hands on the family key, the identifier and the kind of the candidate; two
/// families are told apart. An admission that founds a family asks for no kind, and takes
/// neither the id nor the key nor the kind into account.
pub proof fn law_admission_asks_the_given_family(
    id: GtsIdView,
    family_id: u128,
    family_key: Seq<char>,
    candidate: EntityKind,
    other_id: u128,
    other_key: Seq<char>,
    other_candidate: EntityKind,
)
    ensures
        first_step(id, family_id, family_key, candidate, false) is AskKind,
        first_step(id, family_id, family_key, candidate, false)->AskKind_family_id == family_id,
        first_step(id, family_id, family_key, candidate, false)->AskKind_family_key == family_key,
        first_step(id, family_id, family_key, candidate, false)->AskKind_gts_id == id.text(),
        first_step(id, family_id, family_key, candidate, false)->AskKind_candidate == candidate,
        first_step(id, family_id, family_key, candidate, false)->AskKind_probe == probe_of(id),
        first_step(id, family_id, family_key, candidate, false) == first_step(
            id,
            other_id,
            other_key,
            other_candidate,
            false,
        ) <==> family_id == other_id && family_key == other_key && candidate == other_candidate,
        first_step(id, family_id, family_key, candidate, true) !is AskKind,
        first_step(id, family_id, family_key, candidate, true) == first_step(
            id,
            other_id,
            other_key,
            other_candidate,
            true,
        ),
        probe_of(id) is None ==> first_step(id, family_id, family_key, candidate, true)
            == StepView::Decided(None),
        probe_of(id) matches Some(ProbeView::MajorOnly { blocker }) ==> first_step(
            id,
            family_id,
            family_key,
            candidate,
            true,
        ) == (StepView::AskBlocker { blocker, predecessor: None, gts_id: id.text() }),
        probe_of(id) matches Some(ProbeView::FirstMinor { blocker }) ==> first_step(
            id,
            family_id,
            family_key,
            candidate,
            true,
        ) == (StepView::AskBlocker { blocker, predecessor: None, gts_id: id.text() }),
        probe_of(id) matches Some(ProbeView::LaterMinor { blocker, predecessor }) ==> first_step(
            id,
            family_id,
            family_key,
            candidate,
            true,
        ) == (StepView::AskBlocker {
            blocker,
            predecessor: Some(predecessor),
            gts_id: id.text(),
        }),
{
}

/// The kinds of other families have no say. A candidate is refused for its kind exactly
/// where the store gives another kind for the family that is joined.
pub proof fn law_other_families_do_not_matter(
    id: GtsIdView,
    family_id: u128,
    family_key: Seq<char>,
    candidate: EntityKind,
    family_is_new: bool,
    store: StoreView,
    kinds: spec_fn(u128) -> Option<EntityKind>,
)
    ensures
        kinds(family_id) == (store.kinds)(family_id) ==> outcome(
            first_step(id, family_id, family_key, candidate, family_is_new),
            StoreView { kinds, ..store },
        ) == outcome(first_step(id, family_id, family_key, candidate, family_is_new), store),
        outcome(
            first_step(id, family_id, family_key, candidate, false),
            StoreView { kinds, ..store },
        ) is Some && outcome(
            first_step(id, family_id, family_key, candidate, false),
            StoreView { kinds, ..store },
        )->0 is KindConflict <==> kinds(family_id) is Some && kinds(family_id)->0 != candidate,
{
    let other = StoreView { kinds, ..store };
    law_steps_reach_verdict(id, family_id, family_key, candidate, family_is_new, store);
    law_steps_reach_verdict(id, family_id, family_key, candidate, family_is_new, other);
    law_steps_reach_verdict(id, family_id, family_key, candidate, false, other);
}

/// How each answer moves an admission on: another kind than the candidate's ends it, a
/// blocker that is found ends it, a predecessor that is missing ends it, and every other
/// answer leads to the next question there is, or to the candidate being admitted. What is
/// handed on is what was asked with.
pub proof fn law_answers_decide_by_rule(
    family_id: u128,
    family_key: Seq<char>,
    gts_id: Seq<char>,
    candidate: EntityKind,
    existing: Option<EntityKind>,
    blocker: Seq<char>,
    predecessor: Seq<char>,
)
    ensures
        forall|probe: Option<ProbeView>|
            existing is Some && existing->0 != candidate ==> #[trigger] after_kind(
                StepView::AskKind { family_id, family_key, gts_id, candidate, probe },
                existing,
            ) == StepView::Decided(
                Some(
                    RefusalView::KindConflict {
                        gts_id,
                        family_key,
                        candidate,
                        existing: existing->0,
                    },
                ),
            ),
        existing is None || existing->0 == candidate ==> {
            &&& after_kind(
                StepView::AskKind { family_id, family_key, gts_id, candidate, probe: None },
                existing,
            ) == StepView::Decided(None)
            &&& after_kind(
                StepView::AskKind {
                    family_id,
                    family_key,
                    gts_id,
                    candidate,
                    probe: Some(ProbeView::MajorOnly { blocker }),
                },
                existing,
            ) == (StepView::AskBlocker { blocker, predecessor: None, gts_id })
            &&& after_kind(
                StepView::AskKind {
                    family_id,
                    family_key,
                    gts_id,
                    candidate,
                    probe: Some(ProbeView::FirstMinor { blocker }),
                },
                existing,
            ) == (StepView::AskBlocker { blocker, predecessor: None, gts_id })
            &&& after_kind(
                StepView::AskKind {
                    family_id,
                    family_key,
                    gts_id,
                    candidate,
                    probe: Some(ProbeView::LaterMinor { blocker, predecessor }),
                },
                existing,
            ) == (StepView::AskBlocker { blocker, predecessor: Some(predecessor), gts_id })
        },
        forall|before: Option<Seq<char>>| #[trigger]
            after_blocker(
                StepView::AskBlocker { blocker, predecessor: before, gts_id },
                true,
            ) == StepView::Decided(Some(RefusalView::MinorShape { gts_id, conflicting: blocker })),
        after_blocker(StepView::AskBlocker { blocker, predecessor: None, gts_id }, false)
            == StepView::Decided(None),
        after_blocker(
            StepView::AskBlocker { blocker, predecessor: Some(predecessor), gts_id },
            false,
        ) == (StepView::AskPredecessor { predecessor, gts_id }),
        after_predecessor(StepView::AskPredecessor { predecessor, gts_id }, true)
            == StepView::Decided(None),
        after_predecessor(StepView::AskPredecessor { predecessor, gts_id }, false)
            == StepView::Decided(Some(RefusalView::MissingPredecessor { gts_id, predecessor })),
{
}

/// A refusal says what decided it. One for the kind names the family, both kinds, and the
/// kind that the store gives for the family; one for the shape names an identifier that the
/// store knows; one for the predecessor names an identifier that it does not know. Each
/// names the candidate.
pub proof fn law_refusal_tells_what_decided(
    id: GtsIdView,
    family_id: u128,
    family_key: Seq<char>,
    candidate: EntityKind,
    family_is_new: bool,
    store: StoreView,
)
    ensures
        match outcome(first_step(id, family_id, family_key, candidate, family_is_new), store) {
            None => true,
            Some(RefusalView::KindConflict { gts_id, family_key: key, candidate: kind, existing })
                => {
                &&& !family_is_new
                &&& gts_id == id.text()
                &&& key == family_key
                &&& kind == candidate
                &&& (store.kinds)(family_id) == Some(existing)
                &&& existing != candidate
            },
            Some(RefusalView::MinorShape { gts_id, conflicting }) => {
                &&& gts_id == id.text()
                &&& store.live.contains(conflicting) || store.deleted.contains(conflicting)
                &&& conflicting == sibling_text(
                    id,
                    id.segments.last().ver_major->0,
                    if id.segments.last().ver_minor is None {
                        Some(0)
                    } else {
                        None
                    },
                )
            },
            Some(RefusalView::MissingPredecessor { gts_id, predecessor }) => {
                &&& gts_id == id.text()
                &&& !store.live.contains(predecessor) && !store.deleted.contains(predecessor)
                &&& id.segments.last().ver_minor is Some && id.segments.last().ver_minor->0 > 0
                &&& predecessor == sibling_text(
                    id,
                    id.segments.last().ver_major->0,
                    Some((id.segments.last().ver_minor->0 - 1) as u32),
                )
            },
        },
{
    law_steps_reach_verdict(id, family_id, family_key, candidate, family_is_new, store);
}

/// A candidate is admitted exactly where nothing speaks against it: no other kind in the
/// family, no member that spells the major the other way, and the minor before it known.
pub proof fn law_admitted_unless_a_rule_is_broken(
    id: GtsIdView,
    family_id: u128,
    family_key: Seq<char>,
    candidate: EntityKind,
    family_is_new: bool,
    store: StoreView,
)
    requires
        id.segments.len() > 0,
    ensures
        outcome(first_step(id, family_id, family_key, candidate, family_is_new), store) is None
            <==> {
            let major = id.segments.last().ver_major;
            let minor = id.segments.last().ver_minor;
            &&& family_is_new || (store.kinds)(family_id) is None || (store.kinds)(family_id)
                == Some(candidate)
            &&& major is Some && minor is None ==> !store.live.contains(
                sibling_text(id, major->0, Some(0)),
            ) && !store.deleted.contains(sibling_text(id, major->0, Some(0)))
            &&& major is Some && minor is Some ==> !store.live.contains(
                sibling_text(id, major->0, None),
            ) && !store.deleted.contains(sibling_text(id, major->0, None))
            &&& major is Some && minor is Some && minor->0 > 0 ==> store.live.contains(
                sibling_text(id, major->0, Some((minor->0 - 1) as u32)),
            ) || store.deleted.contains(sibling_text(id, major->0, Some((minor->0 - 1) as u32)))
        },
{
    law_steps_reach_verdict(id, family_id, family_key, candidate, family_is_new, store);
}

/// What each refusal says, word by word.
pub proof fn law_refusals_are_worded(
    gts_id: Seq<char>,
    family_key: Seq<char>,
    candidate: EntityKind,
    existing: EntityKind,
    other: Seq<char>,
)
    ensures
        (RefusalView::KindConflict { gts_id, family_key, candidate, existing }).message_text()
            == "'"@ + gts_id + "' is a "@ + (if candidate is Type {
            "type"@
        } else {
            "instance"@
        }) + ", but version family '"@ + family_key + "' already holds "@ + (if existing is Type {
            "type"@
        } else {
            "instance"@
        }) + " members; a family holds one kind"@,
        (RefusalView::MinorShape { gts_id, conflicting: other }).message_text() == "'"@ + gts_id
            + "' cannot join the major that '"@ + other
            + "' already spells the other way; within one major either every member carries a minor or none does"@,
        (RefusalView::MissingPredecessor { gts_id, predecessor: other }).message_text() == "'"@
            + gts_id + "' requires its predecessor '"@ + other
            + "'; the minors of a major are contiguous and open at M.0"@,
{
}

/// A step that asks says what its question says, and a step that is decided says what its
/// refusal says.
pub proof fn law_step_says_what_is_asked(
    kind: KindQuestion,
    blocker: BlockerQuestion,
    predecessor: PredecessorQuestion,
    refusal: FamilyRefusal,
)
    ensures
        AdmissionStep::AskKind(kind)@ == kind@,
        AdmissionStep::AskBlocker(blocker)@ == blocker@,
        AdmissionStep::AskPredecessor(predecessor)@ == predecessor@,
        AdmissionStep::Decided(Some(refusal))@ == StepView::Decided(Some(refusal@)),
        AdmissionStep::Decided(None)@ == StepView::Decided(None),
        match refusal {
            FamilyRefusal::KindConflict { gts_id, family_key, candidate, existing } => refusal@ == (
            RefusalView::KindConflict {
                gts_id: gts_id@,
                family_key: family_key.text@,
                candidate,
                existing,
            }),
            FamilyRefusal::MinorShape { gts_id, conflicting } => refusal@ == (
            RefusalView::MinorShape { gts_id: gts_id@, conflicting: conflicting@ }),
            FamilyRefusal::MissingPredecessor { gts_id, predecessor: missing } => refusal@ == (
            RefusalView::MissingPredecessor { gts_id: gts_id@, predecessor: missing@ }),
        },
{
}

} // verus!
