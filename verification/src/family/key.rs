//! Identifiers and rows that the family rules speak of.

use vstd::prelude::*;

use crate::gts_id::{law_segment_is_spelled_out, raw_segments, GtsId, GtsIdView};
use crate::text::decimal;

verus! {

/// The key that every version of one logical entity shares.
#[derive(Clone, Debug, PartialEq, Eq)]
pub struct FamilyKey {
    pub text: String,
}

/// What an entity is. A family holds members of one kind.
#[derive(Clone, Copy, Debug, PartialEq, Eq, Structural)]
pub enum EntityKind {
    Type,
    Instance,
}

/// The stored row of a version family.
#[derive(Clone, Debug, PartialEq, Eq)]
pub struct VersionFamilyRow {
    pub id: u128,
    pub family_key: FamilyKey,
}

impl EntityKind {
    /// How the kind is called in a message.
    pub open spec fn label_text(self) -> Seq<char> {
        match self {
            EntityKind::Type => "type"@,
            EntityKind::Instance => "instance"@,
        }
    }

    /// How the kind is called in a message.
    pub fn label(&self) -> (text: &'static str)
        ensures
            text@ == self.label_text(),
            text@ == match *self {
                EntityKind::Type => "type"@,
                EntityKind::Instance => "instance"@,
            },
    {
        match self {
            EntityKind::Type => "type",
            EntityKind::Instance => "instance",
        }
    }
}

/// The text of the sibling of `id` under another version.
pub open spec fn sibling_text(id: GtsIdView, major: u32, minor: Option<u32>) -> Seq<char> {
    id.with_version(major, minor).text()
}

/// The identifier of the sibling of `id` under another version: the last segment has
/// that version, and everything else is spelled as in `id`.
pub fn sibling_id(id: &GtsId, major: u32, minor: Option<u32>) -> (text: String)
    ensures
        text@ == sibling_text(id@, major, minor),
        id.segments@.len() == 0 ==> text@ == id.prefix@,
        id.segments@.len() > 0 ==> text@ == id.prefix@ + raw_segments(id@.segments.drop_last())
            + id.segments@.last().stem@ + seq!['.', 'v'] + decimal(major as nat) + (match minor {
            Some(n) => seq!['.'] + decimal(n as nat),
            None => Seq::<char>::empty(),
        }) + (if id.segments@.last().is_type {
            seq!['~']
        } else {
            Seq::<char>::empty()
        }),
{
    let mut out = id.prefix.clone();
    let count: usize = id.segments.len();
    if count > 0 {
        id.push_leading(&mut out, count - 1);
        let last = &id.segments[count - 1];
        last.push_as(&mut out, Some(major), minor);
        let ghost sibling = id@.with_version(major, minor);
        assert(id@.segments.take(count - 1) =~= id@.segments.drop_last());
        assert(sibling.segments.drop_last() =~= id@.segments.drop_last());
        assert(sibling.segments.last() == last@.with_version(major, minor));
        assert(out@ =~= sibling.prefix + raw_segments(sibling.segments));
        proof {
            law_segment_is_spelled_out(sibling.segments.last());
        }
        assert(out@ =~= id.prefix@ + raw_segments(id@.segments.drop_last()) + last.stem@ + seq![
            '.',
            'v',
        ] + decimal(major as nat) + (match minor {
            Some(n) => seq!['.'] + decimal(n as nat),
            None => Seq::<char>::empty(),
        }) + (if last.is_type {
            seq!['~']
        } else {
            Seq::<char>::empty()
        }));
    } else {
        assert(out@ =~= id@.prefix + raw_segments(id@.segments));
    }
    out
}

} // verus!
