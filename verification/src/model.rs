//! Interval primitives and the clip edit unit.

use vstd::prelude::*;

verus! {

/// A half-open span of time, in microseconds: `[start, start + duration)`.
///
/// A zero `duration` marks a degenerate, instant range: it keys an empty
/// interval and is unreachable by point query.
#[derive(Debug, Clone, Copy, PartialEq, Eq, Structural)]
pub struct TimeRange {
    pub start: u64,
    pub duration: u64,
}

impl TimeRange {
    /// The range is usable only when its end fits in the time type:
    /// all range arithmetic is unsigned and must not wrap.
    pub open spec fn wf(self) -> bool {
        self.start + self.duration <= u64::MAX
    }

    pub open spec fn spec_end(self) -> int {
        self.start + self.duration
    }

    /// True when the instant `t` lies inside the half-open span.
    pub open spec fn contains(self, t: int) -> bool {
        self.start <= t < self.spec_end()
    }

    pub fn new(start: u64, duration: u64) -> (r: Self)
        ensures
            r.start == start,
            r.duration == duration,
    {
        Self { start, duration }
    }

    pub fn end(&self) -> (e: u64)
        requires
            self.wf(),
        ensures
            e == self.spec_end(),
    {
        self.start + self.duration
    }
}

/// What a `Uuid` value is: the 16 octets it carries. `Uuid::as_bytes`
/// returns exactly these octets, a function of the identifier alone.
pub uninterp spec fn uuid_bytes(u: uuid::Uuid) -> Seq<u8>;

/// Declares `uuid::Uuid` to the verifier as an opaque type; the
/// specifications below tie it to `uuid_bytes`.
#[verifier::external_type_specification]
#[verifier::external_body]
pub struct ExUuid(uuid::Uuid);

/// Relies on `uuid::Uuid::as_bytes`: returns the 16 bytes of the identifier.
pub assume_specification[ uuid::Uuid::as_bytes ](u: &uuid::Uuid) -> (b: &[u8; 16])
    ensures
        b@ == uuid_bytes(*u),
;

/// Relies on `uuid::Uuid::from_bytes`: builds the identifier carrying
/// exactly the supplied 16 bytes.
pub assume_specification[ uuid::Uuid::from_bytes ](bytes: uuid::Bytes) -> (u: uuid::Uuid)
    ensures
        uuid_bytes(u) == bytes@,
;

/// The mathematical content of a `Clip`: its fields, with the byte array
/// and the name as sequences.
pub struct ClipView {
    pub asset_id: Seq<u8>,
    pub source_range: TimeRange,
    pub timeline_range: TimeRange,
    pub track_index: u32,
    pub name: Seq<char>,
}

/// An edit unit: a window of a source asset placed on the timeline.
/// Immutable once constructed; edits replace it wholesale in a track.
#[derive(Debug, Clone, PartialEq, Eq)]
pub struct Clip {
    /// 128-bit asset identifier, standard UUID byte layout.
    pub asset_id: [u8; 16],
    /// The in/out window inside the source asset.
    pub source_range: TimeRange,
    /// Placement of the clip on the timeline.
    pub timeline_range: TimeRange,
    pub track_index: u32,
    pub name: String,
}

impl View for Clip {
    type V = ClipView;

    open spec fn view(&self) -> ClipView {
        ClipView {
            asset_id: self.asset_id@,
            source_range: self.source_range,
            timeline_range: self.timeline_range,
            track_index: self.track_index,
            name: self.name@,
        }
    }
}

impl Clip {
    pub fn new(
        name: String,
        asset_id: uuid::Uuid,
        source_range: TimeRange,
        timeline_range: TimeRange,
        track_index: u32,
    ) -> (r: Self)
        ensures
            r@.asset_id == uuid_bytes(asset_id),
            r@.source_range == source_range,
            r@.timeline_range == timeline_range,
            r@.track_index == track_index,
            r@.name == name@,
    {
        Self { asset_id: *asset_id.as_bytes(), source_range, timeline_range, track_index, name }
    }

    pub fn asset_uuid(&self) -> (u: uuid::Uuid)
        ensures
            uuid_bytes(u) == self@.asset_id,
    {
        uuid::Uuid::from_bytes(self.asset_id)
    }

    /// An exact copy, field for field.
    pub fn duplicate(&self) -> (r: Self)
        ensures
            r@ == self@,
    {
        Self {
            asset_id: self.asset_id,
            source_range: self.source_range,
            timeline_range: self.timeline_range,
            track_index: self.track_index,
            name: self.name.clone(),
        }
    }
}

} // verus!
