//! The interval-keyed clip store: a track maps non-overlapping half-open
//! time intervals to clips, with overwrite-on-overlap insertion and point
//! lookup; a timeline is an ordered collection of tracks.

use vstd::prelude::*;

use crate::model::Clip;
use crate::model::ClipView;
use crate::model::TimeRange;

verus! {

/// What a `rangemap::RangeMap<u64, usize>` holds, instant by instant: the
/// partial map from each covered time point to the value stored for it.
pub uninterp spec fn rm_lookup(m: rangemap::RangeMap<u64, usize>) -> Map<u64, usize>;

/// Declares `rangemap::RangeMap` to the verifier as an opaque type; the
/// wrappers below state what its methods do in terms of `rm_lookup`.
#[verifier::external_type_specification]
#[verifier::external_body]
#[verifier::reject_recursive_types(K)]
#[verifier::reject_recursive_types(V)]
pub struct ExRangeMap<K, V>(rangemap::RangeMap<K, V>);

/// Every listed interval is non-empty, and the list is sorted by start with
/// no two intervals overlapping.
pub open spec fn entries_wf(es: Seq<(u64, u64, usize)>) -> bool {
    &&& forall|i: int| 0 <= i < es.len() ==> #[trigger] es[i].0 < es[i].1
    &&& forall|i: int, j: int| 0 <= i < j < es.len() ==> #[trigger] es[i].1 <= #[trigger] es[j].0
}

/// Each listed interval agrees, point for point, with the lookup map.
pub open spec fn entries_match(es: Seq<(u64, u64, usize)>, m: Map<u64, usize>) -> bool {
    forall|i: int, t: u64|
        #![trigger es[i], m.dom().contains(t)]
        0 <= i < es.len() && es[i].0 <= t < es[i].1 ==> m.dom().contains(t) && m[t] == es[i].2
}

/// Every covered point lies in some listed interval.
pub open spec fn entries_cover(es: Seq<(u64, u64, usize)>, m: Map<u64, usize>) -> bool {
    forall|t: u64|
        #[trigger] m.dom().contains(t) ==> exists|i: int|
            0 <= i < es.len() && (#[trigger] es[i]).0 <= t < es[i].1
}

/// Relies on `rangemap::RangeMap::new`: makes an empty map.
#[verifier::external_body]
fn rm_new() -> (m: rangemap::RangeMap<u64, usize>)
    ensures
        forall|t: u64| !(#[trigger] rm_lookup(m).dom().contains(t)),
{
    rangemap::RangeMap::new()
}

/// Relies on `rangemap::RangeMap::insert`: the inserted range replaces
/// whatever part of any existing range it overlaps; points outside it keep
/// their prior value. Panics on an empty range, so one is required out.
#[verifier::external_body]
fn rm_insert(m: &mut rangemap::RangeMap<u64, usize>, start: u64, end: u64, value: usize)
    requires
        start < end,
    ensures
        forall|t: u64|
            start <= t < end ==> #[trigger] rm_lookup(*final(m)).dom().contains(t) && rm_lookup(
                *final(m),
            )[t] == value,
        forall|t: u64|
            !(start <= t < end) ==> (#[trigger] rm_lookup(*final(m)).dom().contains(t) <==> rm_lookup(
                *old(m),
            ).dom().contains(t)) && (rm_lookup(*old(m)).dom().contains(t) ==> rm_lookup(
                *final(m),
            )[t] == rm_lookup(*old(m))[t]),
{
    m.insert(start..end, value);
}

/// Relies on `rangemap::RangeMap::remove`: ranges overlapping the removed
/// span are contracted to no longer cover it; points outside it keep their
/// prior value. Panics on an empty range, so one is required out.
#[verifier::external_body]
fn rm_remove(m: &mut rangemap::RangeMap<u64, usize>, start: u64, end: u64)
    requires
        start < end,
    ensures
        forall|t: u64| start <= t < end ==> !(#[trigger] rm_lookup(*final(m)).dom().contains(t)),
        forall|t: u64|
            !(start <= t < end) ==> (#[trigger] rm_lookup(*final(m)).dom().contains(t) <==> rm_lookup(
                *old(m),
            ).dom().contains(t)) && (rm_lookup(*old(m)).dom().contains(t) ==> rm_lookup(
                *final(m),
            )[t] == rm_lookup(*old(m))[t]),
{
    m.remove(start..end);
}

/// Relies on `rangemap::RangeMap::get`: returns the value of the range
/// covering the key, if any range covers it.
#[verifier::external_body]
fn rm_get(m: &rangemap::RangeMap<u64, usize>, t: u64) -> (r: Option<usize>)
    ensures
        match r {
            Some(v) => rm_lookup(*m).dom().contains(t) && rm_lookup(*m)[t] == v,
            None => !rm_lookup(*m).dom().contains(t),
        },
{
    m.get(&t).copied()
}

/// Relies on `rangemap::RangeMap::iter`: yields every stored pair of key
/// range and value, ordered by key range; stored ranges are non-empty and
/// pairwise disjoint, and together they cover exactly the covered points.
#[verifier::external_body]
fn rm_entries(m: &rangemap::RangeMap<u64, usize>) -> (es: Vec<(u64, u64, usize)>)
    ensures
        entries_wf(es@),
        entries_match(es@, rm_lookup(*m)),
        entries_cover(es@, rm_lookup(*m)),
{
    let mut v = Vec::new();
    for (r, value) in m.iter() {
        v.push((r.start, r.end, *value));
    }
    v
}

/// The point query a clip list answers when replayed in order: the last
/// clip in the list whose timeline placement contains the instant.
pub open spec fn replay_query(clips: Seq<Clip>, t: u64) -> Option<ClipView>
    decreases clips.len(),
{
    if clips.len() == 0 {
        None
    } else if clips.last().timeline_range.contains(t as int) {
        Some(clips.last()@)
    } else {
        replay_query(clips.drop_last(), t)
    }
}

/// A single lane of the timeline: an interval-to-clip store whose keyed
/// intervals are pairwise non-overlapping. An inserted interval always takes
/// priority over whatever it overlaps; older entries survive only in their
/// non-overlapping remainders.
///
/// Clip records are kept in an append-only store and the interval index maps
/// each covered instant to a position in that store, so a split keeps one
/// shared clip record per insertion. A record's own `timeline_range` states
/// the placement it was inserted with; after a split or a ripple shift the
/// keyed interval is the authoritative placement, and `get_clips` hands out
/// each keyed interval beside its record.
///
/// A track is a function of the inserted placements, not of insertion
/// order, except where two placements are identical, where the later
/// insertion wins: replaying `add` in original insertion order reproduces
/// the track exactly.
#[derive(Debug)]
pub struct Track {
    clips: Vec<Clip>,
    index: rangemap::RangeMap<u64, usize>,
}

impl Track {
    /// The instant-by-instant index: which stored clip occupies each covered
    /// time point.
    pub closed spec fn lookup(self) -> Map<u64, usize> {
        rm_lookup(self.index)
    }

    /// Every clip record ever inserted, in insertion order.
    pub closed spec fn store(self) -> Seq<Clip> {
        self.clips@
    }

    /// Every covered instant points at a stored clip record.
    pub open spec fn wf(self) -> bool {
        forall|t: u64|
            #[trigger] self.lookup().dom().contains(t) ==> self.lookup()[t] < self.store().len()
    }

    /// True when some clip occupies the instant `t`.
    pub open spec fn covers(self, t: u64) -> bool {
        self.lookup().dom().contains(t)
    }

    /// The clip occupying the instant `t`, or `None` when no inserted
    /// interval contains `t`.
    pub open spec fn spec_query(self, t: u64) -> Option<ClipView> {
        if self.covers(t) {
            Some(self.store()[self.lookup()[t] as int]@)
        } else {
            None
        }
    }

    pub fn new() -> (r: Self)
        ensures
            r.wf(),
            forall|t: u64| !(#[trigger] r.covers(t)),
            r.store() =~= Seq::<Clip>::empty(),
    {
        Self { clips: Vec::new(), index: rm_new() }
    }

    /// Insert a clip, keyed by its timeline placement: last write wins, and
    /// any overlapped part of an older entry is truncated away, leaving at
    /// most a left and a right remainder of the older entry.
    pub fn add(&mut self, clip: Clip)
        requires
            old(self).wf(),
            clip.timeline_range.wf(),
            clip.timeline_range.duration > 0,
        ensures
            final(self).wf(),
            final(self).store() == old(self).store().push(clip),
            forall|t: u64|
                clip.timeline_range.contains(t as int) ==> #[trigger] final(self).spec_query(t)
                    == Some(clip@),
            forall|t: u64|
                !clip.timeline_range.contains(t as int) ==> #[trigger] final(self).spec_query(t)
                    == old(self).spec_query(t),
    {
        let start = clip.timeline_range.start;
        let end = clip.timeline_range.end();
        let position = self.clips.len();
        self.clips.push(clip);
        rm_insert(&mut self.index, start, end, position);
    }

    /// Point lookup on the ordered interval index (logarithmic in the
    /// number of entries): the clip whose keyed interval contains `time`,
    /// or `None` for an instant outside every inserted interval.
    pub fn query(&self, time: u64) -> (r: Option<&Clip>)
        requires
            self.wf(),
        ensures
            match r {
                Some(c) => self.spec_query(time) == Some(c@),
                None => self.spec_query(time) is None,
            },
    {
        match rm_get(&self.index, time) {
            Some(position) => Some(&self.clips[position]),
            None => None,
        }
    }

    /// Remove the span of `range` and close the gap: whatever the span
    /// covered is deleted, and every entry starting at or after the span's
    /// end shifts earlier by the span's duration, preserving the relative
    /// order of and gaps among the shifted entries. Clip records themselves
    /// are not re-sliced; the keyed intervals are authoritative.
    pub fn ripple_delete(&mut self, range: TimeRange)
        requires
            old(self).wf(),
            range.wf(),
            range.duration > 0,
        ensures
            final(self).wf(),
            final(self).store() == old(self).store(),
            forall|t: u64|
                t < range.start ==> #[trigger] final(self).spec_query(t) == old(self).spec_query(
                    t,
                ),
            forall|t: u64|
                range.start <= t ==> #[trigger] final(self).spec_query(t) == (if t + range.duration
                    <= u64::MAX {
                    old(self).spec_query((t + range.duration) as u64)
                } else {
                    None
                }),
    {
        let s = range.start;
        let e = range.end();
        let d = range.duration;
        rm_remove(&mut self.index, s, e);
        let ghost m1 = self.lookup();
        let es = rm_entries(&self.index);
        let ghost target = es@.map(
            |j: int, en: (u64, u64, usize)|
                if en.0 >= e {
                    (((en.0 - d) as u64), ((en.1 - d) as u64), en.2)
                } else {
                    en
                },
        );
        proof {
            assert forall|i: int| 0 <= i < es@.len() implies (#[trigger] es@[i]).1 <= s || es@[i].0
                >= e by {
                if es@[i].0 < e && es@[i].1 > s {
                    let t: u64 = if es@[i].0 >= s {
                        es@[i].0
                    } else {
                        s
                    };
                    assert(es@[i].0 <= t < es@[i].1);
                    assert(m1.dom().contains(t));
                    assert(s <= t < e);
                }
            }
            assert forall|i: int| 0 <= i < target.len() implies (#[trigger] target[i]).0
                < target[i].1 by {
                assert(es@[i].0 < es@[i].1);
            }
            assert forall|i: int, j: int| 0 <= i < j < target.len() implies (#[trigger] target[i]).1
                <= (#[trigger] target[j]).0 by {
                assert(es@[i].1 <= es@[j].0);
                assert(es@[i].0 < es@[i].1);
                if es@[i].0 >= e {
                    assert(es@[j].0 >= es@[i].1 > es@[i].0 >= e);
                } else {
                    assert(es@[i].1 <= s);
                    if es@[j].0 >= e {
                        assert(target[j].0 == es@[j].0 - d >= e - d == s);
                    }
                }
            }
        }
        let mut fresh = rm_new();
        let mut k: usize = 0;
        while k < es.len()
            invariant
                0 < d,
                s + d == e <= u64::MAX,
                k <= es@.len(),
                target.len() == es@.len(),
                forall|j: int|
                    0 <= j < es@.len() ==> #[trigger] target[j] == (if es@[j].0 >= e {
                        (((es@[j].0 - d) as u64), ((es@[j].1 - d) as u64), es@[j].2)
                    } else {
                        es@[j]
                    }),
                forall|i: int| 0 <= i < es@.len() ==> (#[trigger] es@[i]).1 <= s || es@[i].0 >= e,
                entries_wf(es@),
                entries_wf(target),
                entries_match(target.take(k as int), rm_lookup(fresh)),
                entries_cover(target.take(k as int), rm_lookup(fresh)),
            decreases es@.len() - k,
        {
            let (a, b, v) = es[k];
            let ghost before = rm_lookup(fresh);
            if a >= e {
                rm_insert(&mut fresh, a - d, b - d, v);
            } else {
                rm_insert(&mut fresh, a, b, v);
            }
            proof {
                let tk = target[k as int];
                assert(tk.2 == v);
                let now = rm_lookup(fresh);
                assert forall|i: int, t: u64|
                    #![trigger target.take(k + 1)[i], now.dom().contains(t)]
                    0 <= i < k + 1 && target.take(k + 1)[i].0 <= t < target.take(k + 1)[i].1
                    implies now.dom().contains(t) && now[t] == target.take(k + 1)[i].2 by {
                    assert(target.take(k + 1)[i] == target[i]);
                    if i < k {
                        assert(target[i].1 <= target[k as int].0);
                        assert(!(tk.0 <= t < tk.1));
                        assert(target.take(k as int)[i] == target[i]);
                        assert(before.dom().contains(t));
                        assert(before[t] == target[i].2);
                        assert(now.dom().contains(t));
                        assert(now[t] == before[t]);
                    } else {
                        assert(tk.0 <= t < tk.1);
                        assert(now.dom().contains(t));
                        assert(now[t] == v);
                    }
                }
                assert forall|t: u64| #[trigger] now.dom().contains(t) implies exists|i: int|
                    0 <= i < k + 1 && (#[trigger] target.take(k + 1)[i]).0 <= t < target.take(
                    k + 1,
                )[i].1 by {
                    if tk.0 <= t < tk.1 {
                        assert(target.take(k + 1)[k as int] == tk);
                        assert(target.take(k + 1)[k as int].0 <= t < target.take(k + 1)[k as int].1);
                    } else {
                        assert(before.dom().contains(t));
                        let i = choose|i: int|
                            0 <= i < k && (#[trigger] target.take(k as int)[i]).0 <= t
                                < target.take(k as int)[i].1;
                        assert(target.take(k + 1)[i] == target[i]);
                        assert(target.take(k + 1)[i].0 <= t < target.take(k + 1)[i].1);
                    }
                }
            }
            k = k + 1;
        }
        proof {
            assert(target.take(es@.len() as int) =~= target);
        }
        self.index = fresh;
        proof {
            let m0 = old(self).lookup();
            let m2 = self.lookup();
            assert(self.store() == old(self).store());
            assert forall|t: u64| t < s implies #[trigger] self.spec_query(t) == old(
                self,
            ).spec_query(t) by {
                if m2.dom().contains(t) {
                    let i = choose|i: int|
                        0 <= i < target.len() && (#[trigger] target[i]).0 <= t < target[i].1;
                    if es@[i].0 >= e {
                        assert(target[i].0 == es@[i].0 - d);
                        assert(target[i].0 >= s);
                        assert(false);
                    }
                    assert(target[i] == es@[i]);
                    assert(m1.dom().contains(t));
                    assert(m1[t] == es@[i].2);
                    assert(m0.dom().contains(t));
                    assert(m0[t] == m1[t]);
                    assert(m2[t] == target[i].2);
                } else {
                    if m0.dom().contains(t) {
                        assert(m1.dom().contains(t));
                        assert(m1[t] == m0[t]);
                        let i = choose|i: int|
                            0 <= i < es@.len() && (#[trigger] es@[i]).0 <= t < es@[i].1;
                        assert(es@[i].0 <= t < s);
                        assert(es@[i].0 < e);
                        assert(target[i] == es@[i]);
                        assert(target[i].0 <= t < target[i].1);
                        assert(m2.dom().contains(t));
                        assert(false);
                    }
                }
            }
            assert forall|t: u64| s <= t implies #[trigger] self.spec_query(t) == (if t + d
                <= u64::MAX {
                old(self).spec_query((t + d) as u64)
            } else {
                None
            }) by {
                if t + d <= u64::MAX {
                    let u: u64 = (t + d) as u64;
                    assert(u >= e);
                    if m2.dom().contains(t) {
                        let i = choose|i: int|
                            0 <= i < target.len() && (#[trigger] target[i]).0 <= t < target[i].1;
                        if es@[i].0 < e {
                            assert(es@[i].1 <= s);
                            assert(target[i] == es@[i]);
                            assert(t < target[i].1);
                            assert(false);
                        }
                        assert(target[i].0 == es@[i].0 - d);
                        assert(target[i].1 == es@[i].1 - d);
                        assert(es@[i].0 <= u < es@[i].1);
                        assert(m1.dom().contains(u));
                        assert(m1[u] == es@[i].2);
                        assert(m0.dom().contains(u));
                        assert(m0[u] == m1[u]);
                        assert(m2[t] == target[i].2);
                    } else {
                        if m0.dom().contains(u) {
                            assert(m1.dom().contains(u));
                            assert(m1[u] == m0[u]);
                            let i = choose|i: int|
                                0 <= i < es@.len() && (#[trigger] es@[i]).0 <= u < es@[i].1;
                            assert(es@[i].1 > u);
                            assert(u >= e);
                            assert(!(es@[i].1 <= s));
                            assert(es@[i].0 >= e);
                            assert(target[i].0 == es@[i].0 - d);
                            assert(target[i].1 == es@[i].1 - d);
                            assert(target[i].0 <= t < target[i].1);
                            assert(m2.dom().contains(t));
                            assert(false);
                        }
                    }
                } else {
                    if m2.dom().contains(t) {
                        let i = choose|i: int|
                            0 <= i < target.len() && (#[trigger] target[i]).0 <= t < target[i].1;
                        if es@[i].0 >= e {
                            assert(target[i].1 == es@[i].1 - d);
                            assert(t + d < es@[i].1 <= u64::MAX);
                        } else {
                            assert(target[i] == es@[i]);
                            assert(es@[i].1 <= s);
                            assert(t < s);
                        }
                        assert(false);
                    }
                }
            }
            assert forall|t: u64| #[trigger] m2.dom().contains(t) implies m2[t]
                < self.store().len() by {
                let i = choose|i: int|
                    0 <= i < target.len() && (#[trigger] target[i]).0 <= t < target[i].1;
                let w: u64 = es@[i].0;
                assert(es@[i].0 <= w < es@[i].1);
                assert(m1.dom().contains(w));
                assert(m1[w] == es@[i].2);
                assert(!(s <= w < e));
                assert(m0.dom().contains(w));
                assert(m0[w] == m1[w]);
                assert(m2[t] == target[i].2);
                assert(target[i].2 == es@[i].2);
            }
        }
    }

    /// Rebuild a track from a persisted clip list by replaying `add` in
    /// original insertion order: on overlap the later clip wins, so the
    /// rebuilt track answers every point query as the fold of the list.
    pub fn replay(clips: Vec<Clip>) -> (r: Track)
        requires
            forall|i: int|
                0 <= i < clips@.len() ==> (#[trigger] clips@[i]).timeline_range.wf()
                    && clips@[i].timeline_range.duration > 0,
        ensures
            r.wf(),
            forall|t: u64| #[trigger] r.spec_query(t) == replay_query(clips@, t),
    {
        let mut track = Track::new();
        let mut i: usize = 0;
        while i < clips.len()
            invariant
                i <= clips@.len(),
                forall|j: int|
                    0 <= j < clips@.len() ==> (#[trigger] clips@[j]).timeline_range.wf()
                        && clips@[j].timeline_range.duration > 0,
                track.wf(),
                forall|t: u64| #[trigger] track.spec_query(t) == replay_query(
                    clips@.take(i as int),
                    t,
                ),
            decreases clips@.len() - i,
        {
            let clip = clips[i].duplicate();
            proof {
                assert(clip.timeline_range == clips@[i as int].timeline_range);
            }
            track.add(clip);
            proof {
                assert(clips@.take(i + 1).drop_last() =~= clips@.take(i as int));
                assert(clips@.take(i + 1).last() == clips@[i as int]);
                assert forall|t: u64| #[trigger] track.spec_query(t) == replay_query(
                    clips@.take(i + 1),
                    t,
                ) by {
                    if clip.timeline_range.contains(t as int) {
                        assert(track.spec_query(t) == Some(clip@));
                        assert(clip@ == clips@[i as int]@);
                    }
                }
            }
            i = i + 1;
        }
        proof {
            assert(clips@.take(clips@.len() as int) =~= clips@);
        }
        track
    }

    /// The stored entries, ordered by interval: each keyed interval with a
    /// copy of the clip record it maps to.
    pub fn get_clips(&self) -> (es: Vec<(u64, u64, Clip)>)
        requires
            self.wf(),
        ensures
            forall|i: int| 0 <= i < es@.len() ==> (#[trigger] es@[i]).0 < es@[i].1,
            forall|i: int, j: int|
                0 <= i < j < es@.len() ==> (#[trigger] es@[i]).1 <= (#[trigger] es@[j]).0,
            forall|i: int, t: u64|
                #![trigger es@[i], self.spec_query(t)]
                0 <= i < es@.len() && es@[i].0 <= t < es@[i].1 ==> self.spec_query(t) == Some(
                    es@[i].2@,
                ),
            forall|t: u64|
                #[trigger] self.covers(t) ==> exists|i: int|
                    0 <= i < es@.len() && (#[trigger] es@[i]).0 <= t < es@[i].1,
    {
        let raw = rm_entries(&self.index);
        let mut out: Vec<(u64, u64, Clip)> = Vec::new();
        let ghost raw_seq = raw@;
        for k in 0..raw.len()
            invariant
                raw@ == raw_seq,
                entries_wf(raw_seq),
                entries_match(raw_seq, self.lookup()),
                self.wf(),
                out@.len() == k,
                forall|i: int|
                    0 <= i < k ==> ((#[trigger] out@[i]).0, out@[i].1) == (
                        raw_seq[i].0,
                        raw_seq[i].1,
                    ) && out@[i].2@ == self.store()[raw_seq[i].2 as int]@,
        {
            let (s, e, position) = raw[k];
            proof {
                assert((s, e, position) == raw_seq[k as int]);
                assert(raw_seq[k as int].0 < raw_seq[k as int].1);
                assert(raw_seq[k as int].0 <= s < raw_seq[k as int].1);
                assert(self.lookup().dom().contains(s));
                assert(self.lookup()[s] == position);
            }
            let clip = self.clips[position].duplicate();
            out.push((s, e, clip));
        }
        proof {
            assert forall|i: int, t: u64|
                #![trigger out@[i], self.spec_query(t)]
                0 <= i < out@.len() && out@[i].0 <= t < out@[i].1 implies self.spec_query(t)
                == Some(out@[i].2@) by {
                assert(raw_seq[i].0 <= t < raw_seq[i].1);
                assert(self.lookup().dom().contains(t) && self.lookup()[t] == raw_seq[i].2);
            }
            assert forall|t: u64| #[trigger] self.covers(t) implies exists|i: int|
                0 <= i < out@.len() && (#[trigger] out@[i]).0 <= t < out@[i].1 by {
                let i = choose|i: int|
                    0 <= i < raw_seq.len() && (#[trigger] raw_seq[i]).0 <= t < raw_seq[i].1;
                assert(out@[i].0 <= t < out@[i].1);
            }
        }
        out
    }
}

impl Default for Track {
    /// An empty track, as `Track::new` makes it.
    fn default() -> (r: Self)
        ensures
            r.wf(),
            forall|t: u64| !(#[trigger] r.covers(t)),
            r.store() =~= Seq::<Clip>::empty(),
    {
        Track::new()
    }
}

/// The full editable representation of a session: ordered video and audio
/// lanes over the same time axis. Tracks are appended only; the index
/// returned on creation stays valid for the timeline's lifetime.
#[derive(Debug)]
pub struct Timeline {
    pub video_tracks: Vec<Track>,
    pub audio_tracks: Vec<Track>,
}

impl Timeline {
    pub fn new() -> (r: Self)
        ensures
            r.video_tracks@.len() == 0,
            r.audio_tracks@.len() == 0,
    {
        Self { video_tracks: Vec::new(), audio_tracks: Vec::new() }
    }

    /// Append an empty video track; the returned index is stable.
    pub fn add_video_track(&mut self) -> (idx: usize)
        ensures
            idx == old(self).video_tracks@.len(),
            final(self).video_tracks@.len() == old(self).video_tracks@.len() + 1,
            forall|i: int|
                0 <= i < old(self).video_tracks@.len() ==> #[trigger] final(self).video_tracks@[i]
                    == old(self).video_tracks@[i],
            final(self).video_tracks@.last().wf(),
            forall|t: u64| !(#[trigger] final(self).video_tracks@.last().covers(t)),
            final(self).audio_tracks == old(self).audio_tracks,
    {
        self.video_tracks.push(Track::new());
        self.video_tracks.len() - 1
    }

    /// Append an empty audio track; the returned index is stable.
    pub fn add_audio_track(&mut self) -> (idx: usize)
        ensures
            idx == old(self).audio_tracks@.len(),
            final(self).audio_tracks@.len() == old(self).audio_tracks@.len() + 1,
            forall|i: int|
                0 <= i < old(self).audio_tracks@.len() ==> #[trigger] final(self).audio_tracks@[i]
                    == old(self).audio_tracks@[i],
            final(self).audio_tracks@.last().wf(),
            forall|t: u64| !(#[trigger] final(self).audio_tracks@.last().covers(t)),
            final(self).video_tracks == old(self).video_tracks,
    {
        self.audio_tracks.push(Track::new());
        self.audio_tracks.len() - 1
    }
}

impl Default for Timeline {
    /// An empty timeline, as `Timeline::new` makes it.
    fn default() -> (r: Self)
        ensures
            r.video_tracks@.len() == 0,
            r.audio_tracks@.len() == 0,
    {
        Timeline::new()
    }
}

} // verus!
