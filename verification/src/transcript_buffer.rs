//! Bounded in-memory buffer of transcript segments.
//!
//! Keeps partial (non-final) segments and recent final segments, evicts the
//! oldest final segments when over capacity, and queues final segments that
//! still have to be written to disk.
use vstd::prelude::*;
use crate::types::{TranscriptSegment, clone_opt_string};

verus! {

/// The content of a segment, strings taken by their characters.
pub struct SegmentView {
    pub id: Seq<char>,
    pub start_ms: u64,
    pub end_ms: u64,
    pub speaker: Option<Seq<char>>,
    pub original_text: Seq<char>,
    pub translated_text: Seq<char>,
    pub is_final: bool,
    pub created_at: i128,
}

pub open spec fn opt_str_view(s: Option<String>) -> Option<Seq<char>> {
    match s {
        Some(v) => Some(v@),
        None => None,
    }
}

impl View for TranscriptSegment {
    type V = SegmentView;

    open spec fn view(&self) -> SegmentView {
        SegmentView {
            id: self.id@,
            start_ms: self.start_ms,
            end_ms: self.end_ms,
            speaker: opt_str_view(self.speaker),
            original_text: self.original_text@,
            translated_text: self.translated_text@,
            is_final: self.is_final,
            created_at: self.created_at,
        }
    }
}

pub open spec fn views_of(s: Seq<TranscriptSegment>) -> Seq<SegmentView> {
    s.map_values(|x: TranscriptSegment| x@)
}

/// An update merged into an existing segment: id and creation time stay;
/// zero times, a missing speaker and empty texts of the update keep the
/// existing values; finality is never lost.
pub open spec fn merged(existing: SegmentView, incoming: SegmentView) -> SegmentView {
    SegmentView {
        id: existing.id,
        start_ms: if incoming.start_ms == 0 {
            existing.start_ms
        } else {
            incoming.start_ms
        },
        end_ms: if incoming.end_ms == 0 {
            existing.end_ms
        } else {
            incoming.end_ms
        },
        speaker: match incoming.speaker {
            Some(s) => Some(s),
            None => existing.speaker,
        },
        original_text: if incoming.original_text.len() > 0 {
            incoming.original_text
        } else {
            existing.original_text
        },
        translated_text: if incoming.translated_text.len() == 0 {
            existing.translated_text
        } else {
            incoming.translated_text
        },
        is_final: existing.is_final || incoming.is_final,
        created_at: existing.created_at,
    }
}

/// Whether a merge changed any of the content fields.
pub open spec fn content_changed(before: SegmentView, after: SegmentView) -> bool {
    ||| after.start_ms != before.start_ms
    ||| after.end_ms != before.end_ms
    ||| after.speaker != before.speaker
    ||| after.original_text != before.original_text
    ||| after.translated_text != before.translated_text
}

/// Position of the first segment with the given id, if any.
pub open spec fn position_of(segs: Seq<SegmentView>, id: Seq<char>) -> Option<int> {
    if exists|i: int| 0 <= i < segs.len() && segs[i].id == id {
        Some(
            choose|i: int|
                0 <= i < segs.len() && segs[i].id == id && forall|j: int|
                    0 <= j < i ==> segs[j].id != id,
        )
    } else {
        None
    }
}

/// Drops final segments from the front while there are more than
/// `capacity`; stops at the first non-final one.
pub open spec fn evict(segs: Seq<SegmentView>, capacity: nat) -> Seq<SegmentView>
    decreases segs.len(),
{
    if segs.len() > capacity && segs[0].is_final {
        evict(segs.drop_first(), capacity)
    } else {
        segs
    }
}

/// The buffer after `upsert(incoming)`: `(segments, pending)`.
pub open spec fn upserted(
    segs: Seq<SegmentView>,
    pending: Seq<SegmentView>,
    capacity: nat,
    incoming: SegmentView,
) -> (Seq<SegmentView>, Seq<SegmentView>) {
    match position_of(segs, incoming.id) {
        Some(pos) => {
            let existing = segs[pos];
            let m = merged(existing, incoming);
            let became_final = !existing.is_final && m.is_final;
            let updated_final = existing.is_final && m.is_final && content_changed(existing, m);
            (
                segs.update(pos, m),
                if became_final || updated_final {
                    pending.push(m)
                } else {
                    pending
                },
            )
        },
        None => (
            evict(segs.push(incoming), capacity),
            if incoming.is_final {
                pending.push(incoming)
            } else {
                pending
            },
        ),
    }
}

pub struct TranscriptBuffer {
    segments: Vec<TranscriptSegment>,
    max_capacity: usize,
    /// Segments that have been finalized but not yet flushed to disk.
    pending_flush: Vec<TranscriptSegment>,
}

impl TranscriptBuffer {
    pub closed spec fn segments_view(&self) -> Seq<SegmentView> {
        views_of(self.segments@)
    }

    pub closed spec fn pending_view(&self) -> Seq<SegmentView> {
        views_of(self.pending_flush@)
    }

    pub closed spec fn capacity(&self) -> nat {
        self.max_capacity as nat
    }

    pub fn new(max_capacity: usize) -> (b: Self)
        ensures
            b.segments_view() == Seq::<SegmentView>::empty(),
            b.pending_view() == Seq::<SegmentView>::empty(),
            b.capacity() == max_capacity,
    {
        let b = TranscriptBuffer { segments: Vec::new(), max_capacity, pending_flush: Vec::new() };
        assert(views_of(b.segments@) =~= Seq::<SegmentView>::empty());
        assert(views_of(b.pending_flush@) =~= Seq::<SegmentView>::empty());
        b
    }

    fn merge_segment(existing: &TranscriptSegment, incoming: TranscriptSegment) -> (r:
        TranscriptSegment)
        ensures
            r@ == merged(existing@, incoming@),
    {
        let TranscriptSegment {
            id: _,
            start_ms,
            end_ms,
            speaker,
            original_text,
            translated_text,
            is_final,
            created_at: _,
        } = incoming;
        let merged_original_text = if original_text.as_str().unicode_len() > 0 {
            original_text
        } else {
            existing.original_text.clone()
        };
        let merged_translated_text = if translated_text.as_str().unicode_len() == 0 {
            existing.translated_text.clone()
        } else {
            translated_text
        };
        let merged_speaker = match speaker {
            Some(s) => Some(s),
            None => clone_opt_string(&existing.speaker),
        };
        TranscriptSegment {
            id: existing.id.clone(),
            start_ms: if start_ms == 0 {
                existing.start_ms
            } else {
                start_ms
            },
            end_ms: if end_ms == 0 {
                existing.end_ms
            } else {
                end_ms
            },
            speaker: merged_speaker,
            original_text: merged_original_text,
            translated_text: merged_translated_text,
            is_final: existing.is_final || is_final,
            created_at: existing.created_at,
        }
    }

    fn find_position(&self, id: &String) -> (r: Option<usize>)
        ensures
            match r {
                Some(i) => position_of(self.segments_view(), id@) == Some(i as int) && i
                    < self.segments@.len(),
                None => position_of(self.segments_view(), id@) is None,
            },
    {
        let ghost v = self.segments_view();
        let mut i: usize = 0;
        while i < self.segments.len()
            invariant
                v == views_of(self.segments@),
                i <= self.segments@.len(),
                forall|j: int| 0 <= j < i ==> v[j].id != id@,
            decreases self.segments@.len() - i,
        {
            if self.segments[i].id == *id {
                proof {
                    let k = i as int;
                    assert(v[k].id == id@);
                    let ch = choose|c: int|
                        0 <= c < v.len() && v[c].id == id@ && forall|j: int|
                            0 <= j < c ==> v[j].id != id@;
                    assert(ch == k) by {
                        if ch < k {
                            assert(v[ch].id != id@);
                        }
                        if ch > k {
                            assert(v[k].id != id@);
                        }
                    }
                }
                return Some(i);
            }
            i += 1;
        }
        None
    }

    fn opt_string_eq(a: &Option<String>, b: &Option<String>) -> (r: bool)
        ensures
            r == (opt_str_view(*a) == opt_str_view(*b)),
    {
        match (a, b) {
            (Some(x), Some(y)) => *x == *y,
            (None, None) => true,
            _ => false,
        }
    }

    /// Inserts or updates a segment by id.
    ///
    /// An update is merged into the stored segment; it is queued for flushing
    /// when it made the segment final, or changed an already final one. A new
    /// segment is appended (and queued when final), then final segments are
    /// evicted from the front while the buffer is over capacity.
    pub fn upsert(&mut self, segment: TranscriptSegment)
        ensures
            (final(self).segments_view(), final(self).pending_view()) == upserted(
                old(self).segments_view(),
                old(self).pending_view(),
                old(self).capacity(),
                segment@,
            ),
            final(self).capacity() == old(self).capacity(),
    {
        let ghost segs0 = self.segments_view();
        let ghost pend0 = self.pending_view();
        match self.find_position(&segment.id) {
            Some(pos) => {
                let existing = self.segments[pos].duplicate();
                let was_final = existing.is_final;
                let merged_seg = Self::merge_segment(&existing, segment);
                let became_final = !was_final && merged_seg.is_final;
                let updated_final_segment = was_final && merged_seg.is_final && (
                merged_seg.start_ms != existing.start_ms || merged_seg.end_ms != existing.end_ms
                    || !Self::opt_string_eq(&merged_seg.speaker, &existing.speaker)
                    || merged_seg.original_text != existing.original_text
                    || merged_seg.translated_text != existing.translated_text);
                let copy = merged_seg.duplicate();
                self.segments.set(pos, merged_seg);
                proof {
                    assert(views_of(self.segments@) =~= segs0.update(pos as int, copy@));
                }
                if became_final || updated_final_segment {
                    self.pending_flush.push(copy);
                    proof {
                        assert(views_of(self.pending_flush@) =~= pend0.push(copy@));
                    }
                }
            },
            None => {
                if segment.is_final {
                    let copy = segment.duplicate();
                    self.pending_flush.push(copy);
                    proof {
                        assert(views_of(self.pending_flush@) =~= pend0.push(segment@));
                    }
                }
                self.segments.push(segment);
                proof {
                    assert(views_of(self.segments@) =~= segs0.push(segment@));
                }
                self.evict_over_capacity();
            },
        }
    }

    fn evict_over_capacity(&mut self)
        ensures
            final(self).segments_view() == evict(old(self).segments_view(), old(self).capacity()),
            final(self).pending_view() == old(self).pending_view(),
            final(self).capacity() == old(self).capacity(),
    {
        let ghost target = evict(self.segments_view(), self.capacity());
        while self.segments.len() > self.max_capacity
            invariant
                evict(self.segments_view(), self.capacity()) == target,
                target == evict(old(self).segments_view(), old(self).capacity()),
                self.pending_view() == old(self).pending_view(),
                self.capacity() == old(self).capacity(),
            ensures
                self.segments_view() == target,
            decreases self.segments@.len(),
        {
            if self.segments[0].is_final {
                let ghost before = self.segments_view();
                self.segments.remove(0);
                proof {
                    assert(views_of(self.segments@) =~= before.drop_first());
                }
            } else {
                proof {
                    assert(self.segments_view()[0] == self.segments@[0]@);
                    assert(self.segments_view().len() > self.capacity());
                    assert(evict(self.segments_view(), self.capacity()) == self.segments_view());
                }
                return;
            }
        }
    }

    /// All current segments, in order (for rendering).
    pub fn snapshot(&self) -> (r: Vec<TranscriptSegment>)
        ensures
            views_of(r@) == self.segments_view(),
    {
        let mut out: Vec<TranscriptSegment> = Vec::new();
        for i in 0..self.segments.len()
            invariant
                views_of(out@) == views_of(self.segments@).take(i as int),
        {
            let c = self.segments[i].duplicate();
            let ghost out0 = out@;
            out.push(c);
            proof {
                assert(out@ == out0.push(self.segments@[i as int]));
                assert(views_of(out@) =~= views_of(out0).push(self.segments@[i as int]@));
                assert(views_of(out@) =~= views_of(self.segments@).take(i + 1));
            }
        }
        proof {
            assert(views_of(self.segments@).take(self.segments@.len() as int) =~= views_of(
                self.segments@,
            ));
        }
        out
    }

    /// Takes all segments waiting to be flushed; none are left waiting.
    pub fn take_pending(&mut self) -> (r: Vec<TranscriptSegment>)
        ensures
            views_of(r@) == old(self).pending_view(),
            final(self).pending_view() == Seq::<SegmentView>::empty(),
            final(self).segments_view() == old(self).segments_view(),
            final(self).capacity() == old(self).capacity(),
    {
        let mut taken: Vec<TranscriptSegment> = Vec::new();
        std::mem::swap(&mut taken, &mut self.pending_flush);
        assert(views_of(self.pending_flush@) =~= Seq::<SegmentView>::empty());
        taken
    }

    /// Puts segments back after a failed flush, ahead of any queued since.
    pub fn restore_pending(&mut self, segments: Vec<TranscriptSegment>)
        ensures
            final(self).pending_view() == views_of(segments@) + old(self).pending_view(),
            final(self).segments_view() == old(self).segments_view(),
            final(self).capacity() == old(self).capacity(),
    {
        if segments.len() == 0 {
            assert(views_of(segments@) + self.pending_view() =~= self.pending_view());
            return;
        }
        let mut restored = segments;
        let ghost r0 = restored@;
        let ghost p0 = self.pending_flush@;
        restored.append(&mut self.pending_flush);
        self.pending_flush = restored;
        assert(self.pending_flush@ == r0 + p0);
        assert(views_of(r0 + p0) =~= views_of(r0) + views_of(p0));
    }

    /// Takes all remaining pending segments (at session end).
    pub fn flush_all(&mut self) -> (r: Vec<TranscriptSegment>)
        ensures
            views_of(r@) == old(self).pending_view(),
            final(self).pending_view() == Seq::<SegmentView>::empty(),
            final(self).segments_view() == old(self).segments_view(),
            final(self).capacity() == old(self).capacity(),
    {
        self.take_pending()
    }

    /// Removes all segments and pending segments.
    pub fn clear(&mut self)
        ensures
            final(self).segments_view() == Seq::<SegmentView>::empty(),
            final(self).pending_view() == Seq::<SegmentView>::empty(),
            final(self).capacity() == old(self).capacity(),
    {
        self.segments.clear();
        self.pending_flush.clear();
        assert(views_of(self.segments@) =~= Seq::<SegmentView>::empty());
        assert(views_of(self.pending_flush@) =~= Seq::<SegmentView>::empty());
    }
}

// ---------------------------------------------------------------------------
// Laws
// ---------------------------------------------------------------------------
proof fn lemma_first_position(segs: Seq<SegmentView>, id: Seq<char>, w: int)
    requires
        0 <= w < segs.len(),
        segs[w].id == id,
    ensures
        position_of(segs, id) matches Some(p) && 0 <= p < segs.len() && segs[p].id == id
            && forall|j: int| 0 <= j < p ==> segs[j].id != id,
    decreases w,
{
    if exists|v: int| 0 <= v < w && segs[v].id == id {
        let v = choose|v: int| 0 <= v < w && segs[v].id == id;
        lemma_first_position(segs, id, v);
    } else {
        assert(0 <= w < segs.len() && segs[w].id == id && forall|j: int|
            0 <= j < w ==> segs[j].id != id);
    }
}

/// Eviction removes a prefix made only of final segments, and stops once the
/// buffer is within capacity or its oldest segment is not final. It
/// removes something only from a buffer over capacity, and never leaves
/// fewer than `capacity` segments behind.
pub proof fn law_evict_only_final_prefix(segs: Seq<SegmentView>, capacity: nat)
    ensures
        exists|k: int|
            0 <= k <= segs.len() && evict(segs, capacity) == segs.skip(k) && forall|j: int|
                0 <= j < k ==> (#[trigger] segs[j]).is_final,
        evict(segs, capacity).len() <= capacity || !evict(segs, capacity)[0].is_final,
        evict(segs, capacity).len() < segs.len() ==> segs.len() > capacity && evict(segs, capacity).len() >= capacity,
    decreases segs.len(),
{
    if segs.len() > capacity && segs[0].is_final {
        let t = segs.drop_first();
        law_evict_only_final_prefix(t, capacity);
        let k = choose|k: int|
            0 <= k <= t.len() && evict(t, capacity) == t.skip(k) && forall|j: int|
                0 <= j < k ==> (#[trigger] t[j]).is_final;
        assert(t.skip(k) =~= segs.skip(k + 1));
        assert forall|j: int| 0 <= j < k + 1 implies (#[trigger] segs[j]).is_final by {
            if j > 0 {
                assert(segs[j] == t[j - 1]);
            }
        }
    } else {
        assert(segs.skip(0) =~= segs);
    }
}

/// Upserting a copy of a final segment that the buffer already holds leaves
/// segments and pending queue unchanged.
pub proof fn law_upsert_same_final_is_noop(
    segs: Seq<SegmentView>,
    pending: Seq<SegmentView>,
    capacity: nat,
    i: int,
)
    requires
        0 <= i < segs.len(),
        segs[i].is_final,
        forall|j: int| 0 <= j < i ==> segs[j].id != segs[i].id,
    ensures
        upserted(segs, pending, capacity, segs[i]) == (segs, pending),
{
    let v = segs[i];
    let pos = position_of(segs, v.id);
    assert(pos == Some(i)) by {
        let ch = choose|c: int|
            0 <= c < segs.len() && segs[c].id == v.id && forall|j: int|
                0 <= j < c ==> segs[j].id != v.id;
        assert(0 <= i < segs.len() && segs[i].id == v.id);
        if ch < i {
            assert(segs[ch].id != v.id);
        }
        if ch > i {
            assert(segs[i].id != v.id);
        }
    }
    assert(merged(v, v) == v);
    assert(segs.update(i, v) =~= segs);
}

/// A final segment stays final whatever update is merged into it.
pub proof fn law_merge_keeps_final(existing: SegmentView, incoming: SegmentView)
    ensures
        existing.is_final ==> merged(existing, incoming).is_final,
        merged(existing, incoming).id == existing.id,
        merged(existing, incoming).created_at == existing.created_at,
{
}

/// An upsert never drops a non-final segment: every non-final segment with
/// another id is still in the buffer afterwards.
pub proof fn law_upsert_keeps_partial_segments(
    segs: Seq<SegmentView>,
    pending: Seq<SegmentView>,
    capacity: nat,
    incoming: SegmentView,
    i: int,
)
    requires
        0 <= i < segs.len(),
        !segs[i].is_final,
        segs[i].id != incoming.id,
    ensures
        upserted(segs, pending, capacity, incoming).0.contains(segs[i]),
{
    match position_of(segs, incoming.id) {
        Some(pos) => {
            let m = merged(segs[pos], incoming);
            assert(0 <= pos < segs.len() && segs[pos].id == incoming.id) by {
                if exists|c: int| 0 <= c < segs.len() && segs[c].id == incoming.id {
                    let w = choose|c: int| 0 <= c < segs.len() && segs[c].id == incoming.id;
                    lemma_first_position(segs, incoming.id, w);
                } else {
                    assert(false);
                }
            }
            assert(segs.update(pos, m)[i] == segs[i]);
        },
        None => {
            let t = segs.push(incoming);
            law_evict_only_final_prefix(t, capacity);
            let k = choose|k: int|
                0 <= k <= t.len() && evict(t, capacity) == t.skip(k) && forall|j: int|
                    0 <= j < k ==> (#[trigger] t[j]).is_final;
            assert(t[i] == segs[i]);
            assert(i >= k);
            assert(evict(t, capacity)[i - k] == segs[i]);
        },
    }
}

/// Merging an update into a stored segment keeps the stored translation
/// when the update carries none and takes the update's otherwise; likewise
/// for the original text. Through an upsert of a known id, the stored
/// segment's texts change only in that way.
pub proof fn law_merge_keeps_missing_text(
    segs: Seq<SegmentView>,
    pending: Seq<SegmentView>,
    capacity: nat,
    existing: SegmentView,
    incoming: SegmentView,
)
    ensures
        incoming.translated_text.len() == 0 ==> merged(existing, incoming).translated_text == existing.translated_text,
        incoming.translated_text.len() > 0 ==> merged(existing, incoming).translated_text == incoming.translated_text,
        incoming.original_text.len() == 0 ==> merged(existing, incoming).original_text == existing.original_text,
        incoming.original_text.len() > 0 ==> merged(existing, incoming).original_text == incoming.original_text,
        position_of(segs, incoming.id) matches Some(pos) ==> {
            let after = upserted(segs, pending, capacity, incoming).0;
            &&& after.len() == segs.len()
            &&& after[pos].translated_text == (if incoming.translated_text.len() == 0 {
                segs[pos].translated_text
            } else {
                incoming.translated_text
            })
            &&& after[pos].original_text == (if incoming.original_text.len() == 0 {
                segs[pos].original_text
            } else {
                incoming.original_text
            })
        },
{
    if let Some(pos) = position_of(segs, incoming.id) {
        assert(0 <= pos < segs.len()) by {
            if exists|c: int| 0 <= c < segs.len() && segs[c].id == incoming.id {
                let w = choose|c: int| 0 <= c < segs.len() && segs[c].id == incoming.id;
                lemma_first_position(segs, incoming.id, w);
            }
        }
    }
}

/// The other fields of a merge: a non-zero start or end of the update
/// replaces the stored one, a speaker it names replaces the stored one,
/// the segment is final when either is, and it keeps its id and creation
/// time.
pub proof fn law_merge_fields(existing: SegmentView, incoming: SegmentView)
    ensures
        merged(existing, incoming).start_ms == (if incoming.start_ms == 0 {
            existing.start_ms
        } else {
            incoming.start_ms
        }),
        merged(existing, incoming).end_ms == (if incoming.end_ms == 0 {
            existing.end_ms
        } else {
            incoming.end_ms
        }),
        incoming.speaker is Some ==> merged(existing, incoming).speaker == incoming.speaker,
        incoming.speaker is None ==> merged(existing, incoming).speaker == existing.speaker,
        merged(existing, incoming).is_final == (existing.is_final || incoming.is_final),
        merged(existing, incoming).id == existing.id,
        merged(existing, incoming).created_at == existing.created_at,
{
}

} // verus!
