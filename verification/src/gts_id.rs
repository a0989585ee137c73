//! Global Type System identifiers as plain data.
//!
//! An identifier is a prefix followed by its segments, as in
//! `gts.x.core.events.event.v1~vendor.app._.custom.v1.2~`. The `gts` crate decides
//! which texts are identifiers; what it parsed is held here field by field.

use vstd::prelude::*;

use crate::text::{decimal, push_decimal};

verus! {

/// A `~`-delimited segment of an identifier.
///
/// A named segment is `vendor.package.namespace.type.vMAJOR[.MINOR]`, followed by `~`
/// where it names a type. The UUID that ends the identifier of an anonymous instance is
/// a segment without a version.
#[derive(Clone, Debug, PartialEq, Eq)]
pub struct GtsIdSegment {
    /// What stands before the version: the name, or the whole UUID.
    pub stem: String,
    pub ver_major: Option<u32>,
    pub ver_minor: Option<u32>,
    /// Whether the segment ends in `~`.
    pub is_type: bool,
}

/// A parsed identifier.
#[derive(Clone, Debug, PartialEq, Eq)]
pub struct GtsId {
    /// What stands before the first segment.
    pub prefix: String,
    /// The segments, in the order in which they are written.
    pub segments: Vec<GtsIdSegment>,
}

/// What a segment says.
#[verifier::ext_equal]
pub struct SegmentView {
    pub stem: Seq<char>,
    pub ver_major: Option<u32>,
    pub ver_minor: Option<u32>,
    pub is_type: bool,
}

/// What an identifier says.
#[verifier::ext_equal]
pub struct GtsIdView {
    pub prefix: Seq<char>,
    pub segments: Seq<SegmentView>,
}

impl View for GtsIdSegment {
    type V = SegmentView;

    open spec fn view(&self) -> SegmentView {
        SegmentView {
            stem: self.stem@,
            ver_major: self.ver_major,
            ver_minor: self.ver_minor,
            is_type: self.is_type,
        }
    }
}

impl View for GtsId {
    type V = GtsIdView;

    open spec fn view(&self) -> GtsIdView {
        GtsIdView {
            prefix: self.prefix@,
            segments: self.segments@.map_values(|s: GtsIdSegment| s@),
        }
    }
}

/// How a version is spelled behind a name: `.vM`, `.vM.n`, or nothing without a major.
pub open spec fn version_text(major: Option<u32>, minor: Option<u32>) -> Seq<char> {
    match major {
        Some(m) => seq!['.', 'v'] + decimal(m as nat) + match minor {
            Some(n) => seq!['.'] + decimal(n as nat),
            None => Seq::<char>::empty(),
        },
        None => Seq::<char>::empty(),
    }
}

/// The mark behind a segment: `~` where it names a type.
pub open spec fn type_mark(is_type: bool) -> Seq<char> {
    if is_type {
        seq!['~']
    } else {
        Seq::<char>::empty()
    }
}

impl SegmentView {
    /// The segment as it is written.
    pub open spec fn raw(self) -> Seq<char> {
        self.stem + (version_text(self.ver_major, self.ver_minor) + type_mark(self.is_type))
    }

    /// The same segment under another version.
    pub open spec fn with_version(self, major: u32, minor: Option<u32>) -> SegmentView {
        SegmentView { ver_major: Some(major), ver_minor: minor, ..self }
    }
}

/// The segments as they are written, one behind the other.
pub open spec fn raw_segments(segments: Seq<SegmentView>) -> Seq<char>
    decreases segments.len(),
{
    if segments.len() == 0 {
        Seq::<char>::empty()
    } else {
        raw_segments(segments.drop_last()) + segments.last().raw()
    }
}

impl GtsIdView {
    /// The identifier as it is written.
    pub open spec fn text(self) -> Seq<char> {
        self.prefix + raw_segments(self.segments)
    }

    /// The major version of the last segment.
    pub open spec fn major(self) -> Option<u32> {
        if self.segments.len() == 0 {
            None
        } else {
            self.segments.last().ver_major
        }
    }

    /// The minor version of the last segment.
    pub open spec fn minor(self) -> Option<u32> {
        if self.segments.len() == 0 {
            None
        } else {
            self.segments.last().ver_minor
        }
    }

    /// The same identifier with another version in its last segment.
    pub open spec fn with_version(self, major: u32, minor: Option<u32>) -> GtsIdView {
        if self.segments.len() == 0 {
            self
        } else {
            GtsIdView {
                segments: self.segments.drop_last().push(
                    self.segments.last().with_version(major, minor),
                ),
                ..self
            }
        }
    }
}

/// A segment as the `gts` crate hands it out: its spelling, and what it read from it.
struct RawSegment {
    raw: String,
    ver_major: Option<u32>,
    ver_minor: Option<u32>,
    is_type: bool,
}

impl RawSegment {
    /// Whether `segment` is what was parsed.
    spec fn spells(self, segment: SegmentView) -> bool {
        &&& self.raw@ == segment.raw()
        &&& self.ver_major == segment.ver_major
        &&& self.ver_minor == segment.ver_minor
        &&& self.is_type == segment.is_type
    }
}

/// What `gts::GtsId::try_new` makes of a text: the identifier, or nothing where it
/// refuses the text.
pub uninterp spec fn gts_parsed(text: Seq<char>) -> Option<GtsIdView>;

/// Parses `text` with `gts::GtsId::try_new`, and hands out the prefix that the `gts`
/// crate was built with and the spelling, the versions and the type mark of each segment.
///
/// The name stands for what is parsed. Of it the `gts` crate shows that prefix and
/// segments spell the text again, that there is a segment, that each segment is a stem
/// followed by its version in canonical decimal form and by its mark, and that a minor
/// version comes with a major one.
#[verifier::external_body]
fn gts_parse(text: &str) -> (parsed: Option<(String, Vec<RawSegment>)>)
    ensures
        match parsed {
            Some((prefix, segments)) => gts_parsed(text@) matches Some(id) && {
                &&& id.text() == text@
                &&& id.prefix == prefix@
                &&& id.segments.len() == segments@.len() >= 1
                &&& forall|i: int|
                    0 <= i < segments@.len() ==> {
                        &&& (#[trigger] segments@[i]).spells(id.segments[i])
                        &&& segments@[i].ver_minor is Some ==> segments@[i].ver_major is Some
                    }
            },
            None => gts_parsed(text@) is None,
        },
{
    let id = gts::GtsId::try_new(text).ok()?;
    let segments = id.segments().iter().map(|segment| RawSegment {
        raw: segment.raw().to_owned(),
        ver_major: segment.ver_major_opt(),
        ver_minor: segment.ver_minor(),
        is_type: segment.is_type(),
    });
    Some((gts::GTS_ID_PREFIX.to_owned(), segments.collect()))
}

/// How a version and a type mark are spelled behind a name.
fn suffix(major: Option<u32>, minor: Option<u32>, is_type: bool) -> (out: String)
    ensures
        out@ == version_text(major, minor) + type_mark(is_type),
{
    proof {
        reveal_strlit(".v");
        reveal_strlit(".");
        reveal_strlit("~");
    }
    let mut out = String::new();
    if let Some(m) = major {
        out.append(".v");
        push_decimal(&mut out, m as u64);
        if let Some(n) = minor {
            out.append(".");
            push_decimal(&mut out, n as u64);
        }
    }
    assert(out@ =~= version_text(major, minor));
    if is_type {
        out.append("~");
    }
    assert(out@ =~= version_text(major, minor) + type_mark(is_type));
    out
}

/// Takes the version and the mark off the spelling of a segment.
fn split_segment(segment: &RawSegment, Ghost(view): Ghost<SegmentView>) -> (out: GtsIdSegment)
    requires
        segment.spells(view),
    ensures
        out@ == view,
{
    let tail = suffix(segment.ver_major, segment.ver_minor, segment.is_type);
    let tail_len: usize = tail.as_str().unicode_len();
    let raw_len: usize = segment.raw.as_str().unicode_len();
    let stem = segment.raw.as_str().substring_char(0, raw_len - tail_len).to_owned();
    assert(stem@ =~= view.stem);
    GtsIdSegment {
        stem,
        ver_major: segment.ver_major,
        ver_minor: segment.ver_minor,
        is_type: segment.is_type,
    }
}

impl GtsIdSegment {
    /// The major version, where the segment has one.
    pub fn ver_major_opt(&self) -> (major: Option<u32>)
        ensures
            major == self@.ver_major,
            major == self.ver_major,
    {
        self.ver_major
    }

    /// The minor version, where the segment has one.
    pub fn ver_minor(&self) -> (minor: Option<u32>)
        ensures
            minor == self@.ver_minor,
            minor == self.ver_minor,
    {
        self.ver_minor
    }

    /// Appends the segment as it is written under a version.
    pub(crate) fn push_as(&self, out: &mut String, major: Option<u32>, minor: Option<u32>)
        ensures
            final(out)@ == old(out)@ + (SegmentView {
                ver_major: major,
                ver_minor: minor,
                ..self@
            }).raw(),
    {
        let tail = suffix(major, minor, self.is_type);
        out.append(self.stem.as_str());
        out.append(tail.as_str());
    }
}

impl GtsId {
    /// Parses a concrete identifier. Nothing comes back where the text is not one.
    ///
    /// The `gts` crate alone decides for which texts there is an identifier. The one that
    /// comes back spells the text.
    pub fn try_new(text: &str) -> (parsed: Option<GtsId>)
        ensures
            match parsed {
                Some(id) => gts_parsed(text@) == Some(id@) && id@.text() == text@
                    && id@.segments.len() >= 1,
                None => gts_parsed(text@) is None,
            },
    {
        let (prefix, raw) = match gts_parse(text) {
            Some(parts) => parts,
            None => {
                return None;
            },
        };
        let ghost model = gts_parsed(text@)->0;
        let mut segments: Vec<GtsIdSegment> = Vec::new();
        for i in 0..raw.len()
            invariant
                segments@.len() == i,
                model.segments.len() == raw@.len(),
                forall|j: int|
                    0 <= j < raw@.len() ==> (#[trigger] raw@[j]).spells(model.segments[j]),
                forall|j: int| 0 <= j < i ==> (#[trigger] segments@[j])@ == model.segments[j],
        {
            let ghost view = model.segments[i as int];
            segments.push(split_segment(&raw[i], Ghost(view)));
        }
        let id = GtsId { prefix, segments };
        assert(id@ =~= model);
        Some(id)
    }

    /// The identifier as it is written.
    pub fn id(&self) -> (text: String)
        ensures
            text@ == self@.text(),
    {
        let mut out = self.prefix.clone();
        self.push_leading(&mut out, self.segments.len());
        assert(self@.segments.take(self.segments@.len() as int) =~= self@.segments);
        out
    }

    /// Appends the first `count` segments as they are written.
    pub(crate) fn push_leading(&self, out: &mut String, count: usize)
        requires
            count <= self.segments@.len(),
        ensures
            final(out)@ == old(out)@ + raw_segments(self@.segments.take(count as int)),
    {
        let ghost start = out@;
        let ghost all = self@.segments;
        assert(all.take(0) =~= Seq::<SegmentView>::empty());
        assert(out@ =~= start + raw_segments(all.take(0)));
        for i in 0..count
            invariant
                count <= self.segments@.len(),
                all == self@.segments,
                out@ == start + raw_segments(all.take(i as int)),
        {
            let segment = &self.segments[i];
            segment.push_as(out, segment.ver_major, segment.ver_minor);
            assert(all.take(i + 1).drop_last() =~= all.take(i as int));
            assert(all.take(i + 1).last() == segment@);
            assert(out@ =~= start + raw_segments(all.take(i + 1)));
        }
    }
}

/// The view of an identifier holds every part of it, as it is.
pub proof fn law_view_holds_every_part(id: GtsId)
    ensures
        id@.prefix == id.prefix@,
        id@.segments.len() == id.segments@.len(),
        forall|i: int|
            0 <= i < id.segments@.len() ==> {
                &&& (#[trigger] id@.segments[i]).stem == id.segments@[i].stem@
                &&& id@.segments[i].ver_major == id.segments@[i].ver_major
                &&& id@.segments[i].ver_minor == id.segments@[i].ver_minor
                &&& id@.segments[i].is_type == id.segments@[i].is_type
            },
{
}

/// How a segment is written: its stem, `.v` and the major where it has one, a dot and the
/// minor where it has one too, and `~` where it names a type.
pub proof fn law_segment_is_spelled_out(segment: SegmentView)
    ensures
        segment.raw() == segment.stem + (match (segment.ver_major, segment.ver_minor) {
            (Some(major), Some(minor)) => seq!['.', 'v'] + decimal(major as nat) + seq!['.']
                + decimal(minor as nat),
            (Some(major), None) => seq!['.', 'v'] + decimal(major as nat),
            (None, _) => Seq::<char>::empty(),
        }) + (if segment.is_type {
            seq!['~']
        } else {
            Seq::<char>::empty()
        }),
{
    assert(segment.raw() =~= segment.stem + (match (segment.ver_major, segment.ver_minor) {
        (Some(major), Some(minor)) => seq!['.', 'v'] + decimal(major as nat) + seq!['.'] + decimal(
            minor as nat,
        ),
        (Some(major), None) => seq!['.', 'v'] + decimal(major as nat),
        (None, _) => Seq::<char>::empty(),
    }) + (if segment.is_type {
        seq!['~']
    } else {
        Seq::<char>::empty()
    }));
}

/// An identifier is its prefix with every segment behind it, one after the other: no segment
/// is left out, and nothing stands between two.
pub proof fn law_text_is_prefix_and_segments(
    prefix: Seq<char>,
    front: Seq<SegmentView>,
    segment: SegmentView,
)
    ensures
        (GtsIdView { prefix, segments: Seq::<SegmentView>::empty() }).text() == prefix,
        (GtsIdView { prefix, segments: front.push(segment) }).text() == (GtsIdView {
            prefix,
            segments: front,
        }).text() + segment.raw(),
{
    assert(front.push(segment).drop_last() =~= front);
    assert((GtsIdView { prefix, segments: Seq::<SegmentView>::empty() }).text() =~= prefix);
    assert((GtsIdView { prefix, segments: front.push(segment) }).text() =~= (GtsIdView {
        prefix,
        segments: front,
    }).text() + segment.raw());
}

/// Another version changes the version of the last segment and nothing else.
pub proof fn law_version_changes_last_segment_only(id: GtsIdView, major: u32, minor: Option<u32>)
    requires
        id.segments.len() > 0,
    ensures
        id.with_version(major, minor).prefix == id.prefix,
        id.with_version(major, minor).segments.len() == id.segments.len(),
        forall|i: int|
            0 <= i < id.segments.len() - 1 ==> #[trigger] id.with_version(major, minor).segments[i]
                == id.segments[i],
        id.with_version(major, minor).segments.last().stem == id.segments.last().stem,
        id.with_version(major, minor).segments.last().is_type == id.segments.last().is_type,
        id.with_version(major, minor).segments.last().ver_major == Some(major),
        id.with_version(major, minor).segments.last().ver_minor == minor,
        id.with_version(major, minor).major() == Some(major),
        id.with_version(major, minor).minor() == minor,
{
}

/// The version of an identifier is that of its last segment.
pub proof fn law_version_is_that_of_last_segment(id: GtsIdView)
    ensures
        id.segments.len() > 0 ==> id.major() == id.segments[id.segments.len() - 1].ver_major
            && id.minor() == id.segments[id.segments.len() - 1].ver_minor,
        id.segments.len() == 0 ==> id.major() is None && id.minor() is None,
{
}

} // verus!
