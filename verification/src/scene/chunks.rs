//! Per-view chunks: which part of each primitive array a view painted, and
//! whether it changed since the last finished frame.

use super::{
    dirty_count, dirty_indices, dirty_ranges, ChangedRanges, EntityId, PrimitiveKind, Scene,
    SceneChunk,
};
use crate::chunk_map::{chunk_map_get, chunk_map_insert};
use crate::ranges::{covers, is_merged, merge_ranges, range_contains, same_coverage};
use std::ops::Range;
use vstd::prelude::*;

verus! {

impl SceneChunk {
    /// A dirty chunk for `view_id` whose ranges all start and end at the
    /// current ends of the scene's arrays.
    pub open spec fn fresh(view_id: EntityId, lens: Seq<usize>) -> SceneChunk
        recommends
            lens.len() == 9,
    {
        SceneChunk {
            view_id,
            shadows: lens[0]..lens[0],
            quads: lens[1]..lens[1],
            paths: lens[2]..lens[2],
            underlines: lens[3]..lens[3],
            monochrome_sprites: lens[4]..lens[4],
            subpixel_sprites: lens[5]..lens[5],
            polychrome_sprites: lens[6]..lens[6],
            surfaces: lens[7]..lens[7],
            paint_operations: lens[8]..lens[8],
            dirty: true,
        }
    }

    /// The chunk with each range ending at the matching entry of `lens`.
    pub open spec fn ended(self, lens: Seq<usize>) -> SceneChunk
        recommends
            lens.len() == 9,
    {
        SceneChunk {
            view_id: self.view_id,
            shadows: self.shadows.start..lens[0],
            quads: self.quads.start..lens[1],
            paths: self.paths.start..lens[2],
            underlines: self.underlines.start..lens[3],
            monochrome_sprites: self.monochrome_sprites.start..lens[4],
            subpixel_sprites: self.subpixel_sprites.start..lens[5],
            polychrome_sprites: self.polychrome_sprites.start..lens[6],
            surfaces: self.surfaces.start..lens[7],
            paint_operations: self.paint_operations.start..lens[8],
            dirty: self.dirty,
        }
    }

    /// A fresh chunk for `view_id` at the current ends of `scene`'s arrays.
    fn new(view_id: EntityId, scene: &Scene) -> (chunk: Self)
        ensures
            chunk == SceneChunk::fresh(view_id, scene.array_lens()),
    {
        SceneChunk {
            view_id,
            shadows: scene.shadows.len()..scene.shadows.len(),
            quads: scene.quads.len()..scene.quads.len(),
            paths: scene.paths.len()..scene.paths.len(),
            underlines: scene.underlines.len()..scene.underlines.len(),
            monochrome_sprites: scene.monochrome_sprites.len()..scene.monochrome_sprites.len(),
            subpixel_sprites: scene.subpixel_sprites.len()..scene.subpixel_sprites.len(),
            polychrome_sprites: scene.polychrome_sprites.len()..scene.polychrome_sprites.len(),
            surfaces: scene.surfaces.len()..scene.surfaces.len(),
            paint_operations: scene.paint_operations.len()..scene.paint_operations.len(),
            dirty: true,
        }
    }

    /// This chunk ended at the current ends of `scene`'s arrays.
    fn end_at(&self, scene: &Scene) -> (chunk: Self)
        ensures
            chunk == self.ended(scene.array_lens()),
    {
        SceneChunk {
            view_id: self.view_id,
            shadows: self.shadows.start..scene.shadows.len(),
            quads: self.quads.start..scene.quads.len(),
            paths: self.paths.start..scene.paths.len(),
            underlines: self.underlines.start..scene.underlines.len(),
            monochrome_sprites: self.monochrome_sprites.start..scene.monochrome_sprites.len(),
            subpixel_sprites: self.subpixel_sprites.start..scene.subpixel_sprites.len(),
            polychrome_sprites: self.polychrome_sprites.start..scene.polychrome_sprites.len(),
            surfaces: self.surfaces.start..scene.surfaces.len(),
            paint_operations: self.paint_operations.start..scene.paint_operations.len(),
            dirty: self.dirty,
        }
    }

    /// A copy of this chunk.
    pub fn duplicate(&self) -> (chunk: Self)
        ensures
            chunk == *self,
    {
        SceneChunk {
            view_id: self.view_id,
            shadows: self.shadows.start..self.shadows.end,
            quads: self.quads.start..self.quads.end,
            paths: self.paths.start..self.paths.end,
            underlines: self.underlines.start..self.underlines.end,
            monochrome_sprites: self.monochrome_sprites.start..self.monochrome_sprites.end,
            subpixel_sprites: self.subpixel_sprites.start..self.subpixel_sprites.end,
            polychrome_sprites: self.polychrome_sprites.start..self.polychrome_sprites.end,
            surfaces: self.surfaces.start..self.surfaces.end,
            paint_operations: self.paint_operations.start..self.paint_operations.end,
            dirty: self.dirty,
        }
    }
}

impl Scene {
    /// The lengths of the eight primitive arrays and of the paint operations.
    pub closed spec fn array_lens(&self) -> Seq<usize> {
        seq![
            self.shadows.len(),
            self.quads.len(),
            self.paths.len(),
            self.underlines.len(),
            self.monochrome_sprites.len(),
            self.subpixel_sprites.len(),
            self.polychrome_sprites.len(),
            self.surfaces.len(),
            self.paint_operations.len(),
        ]
    }

    /// `self` is `old` after `begin_view_chunk(view_id)`: the primitives are
    /// unchanged, the generation advanced by one, and the view's chunk was
    /// replaced by (or, for a view without chunk, appended as) a fresh dirty
    /// chunk that became the active one.
    pub open spec fn began_chunk(&self, old: &Scene, view_id: EntityId) -> bool {
        &&& self.same_content(old)
        &&& self.spec_generation() == old.spec_generation() + 1
        &&& self.spec_batch_count() == old.spec_batch_count()
        &&& {
            let fresh = SceneChunk::fresh(view_id, old.array_lens());
            match old.chunk_index_of(view_id) {
                Some(i) => {
                    &&& self.chunk_seq() == (if i < old.chunk_seq().len() {
                        old.chunk_seq().update(i as int, fresh)
                    } else {
                        old.chunk_seq()
                    })
                    &&& self.chunk_index_map() == old.chunk_index_map()
                    &&& self.active() == Some(i)
                },
                None => {
                    &&& self.chunk_seq() == old.chunk_seq().push(fresh)
                    &&& self.chunk_index_map() == old.chunk_index_map().insert(
                        view_id.0,
                        old.chunk_seq().len() as usize,
                    )
                    &&& self.active() == Some(old.chunk_seq().len() as usize)
                },
            }
        }
    }

    /// `self` is `old` after `end_view_chunk()`: the active chunk (if any)
    /// now ends at the current ends of the arrays, and no chunk is active.
    pub open spec fn ended_chunk(&self, old: &Scene) -> bool {
        &&& self.same_content(old)
        &&& self.chunk_index_map() == old.chunk_index_map()
        &&& self.spec_generation() == old.spec_generation()
        &&& self.spec_batch_count() == old.spec_batch_count()
        &&& self.active() == None::<usize>
        &&& self.chunk_seq() == (match old.active() {
            Some(i) => if i < old.chunk_seq().len() {
                old.chunk_seq().update(i as int, old.chunk_seq()[i as int].ended(old.array_lens()))
            } else {
                old.chunk_seq()
            },
            None => old.chunk_seq(),
        })
    }

    /// `self` is `old` after `mark_chunk_clean(view_id)`: only the dirty flag
    /// of the view's chunk (if it has one) was cleared.
    pub open spec fn marked_clean(&self, old: &Scene, view_id: EntityId) -> bool {
        &&& self.same_content(old)
        &&& self.chunk_index_map() == old.chunk_index_map()
        &&& self.active() == old.active()
        &&& self.spec_generation() == old.spec_generation()
        &&& self.spec_batch_count() == old.spec_batch_count()
        &&& self.chunk_seq() == (match old.chunk_index_of(view_id) {
            Some(i) => if i < old.chunk_seq().len() {
                old.chunk_seq().update(i as int, SceneChunk { dirty: false, ..old.chunk_seq()[i as int] })
            } else {
                old.chunk_seq()
            },
            None => old.chunk_seq(),
        })
    }

    /// Starts (or restarts) the chunk of `view_id` at the current ends of the
    /// primitive arrays, marks it dirty and makes it the active chunk.
    pub fn begin_view_chunk(&mut self, view_id: EntityId)
        requires
            old(self).spec_generation() < u64::MAX,
        ensures
            final(self).began_chunk(old(self), view_id),
            old(self).wf() ==> final(self).wf(),
    {
        let chunk = SceneChunk::new(view_id, self);
        let chunk_index = match chunk_map_get(&self.chunk_map, view_id.0) {
            Some(chunk_index) => {
                if chunk_index < self.chunks.len() {
                    self.chunks.set(chunk_index, chunk);
                }
                chunk_index
            },
            None => {
                let chunk_index = self.chunks.len();
                self.chunks.push(chunk);
                chunk_map_insert(&mut self.chunk_map, view_id.0, chunk_index);
                chunk_index
            },
        };
        self.active_chunk = Some(chunk_index);
        self.generation = self.generation + 1;
    }

    /// Ends the active chunk at the current ends of the primitive arrays.
    pub fn end_view_chunk(&mut self)
        ensures
            final(self).ended_chunk(old(self)),
            old(self).wf() ==> final(self).wf(),
    {
        if let Some(chunk_index) = self.active_chunk {
            self.active_chunk = None;
            if chunk_index < self.chunks.len() {
                let chunk = self.chunks[chunk_index].end_at(self);
                self.chunks.set(chunk_index, chunk);
            }
        }
    }

    /// Marks the chunk of `view_id` as unchanged.
    pub fn mark_chunk_clean(&mut self, view_id: EntityId)
        ensures
            final(self).marked_clean(old(self), view_id),
            old(self).wf() ==> final(self).wf(),
    {
        if let Some(chunk_index) = chunk_map_get(&self.chunk_map, view_id.0) {
            if chunk_index < self.chunks.len() {
                let mut chunk = self.chunks[chunk_index].duplicate();
                chunk.dirty = false;
                self.chunks.set(chunk_index, chunk);
            }
        }
    }

    /// Whether the chunk of `view_id` has to be repainted; `true` when the
    /// view has no chunk.
    pub fn is_chunk_dirty(&self, view_id: EntityId) -> (dirty: bool)
        ensures
            dirty == self.view_dirty(view_id),
    {
        match chunk_map_get(&self.chunk_map, view_id.0) {
            Some(chunk_index) => {
                if chunk_index < self.chunks.len() {
                    self.chunks[chunk_index].dirty
                } else {
                    true
                }
            },
            None => true,
        }
    }

    /// The scene's generation counter.
    pub fn scene_generation(&self) -> (generation: u64)
        ensures
            generation == self.spec_generation(),
    {
        self.generation
    }

    /// Number of dirty chunks.
    pub fn dirty_chunk_count(&self) -> (count: usize)
        ensures
            count == dirty_count(self.chunk_seq()),
    {
        let mut count: usize = 0;
        let mut i: usize = 0;
        while i < self.chunks.len()
            invariant
                0 <= i <= self.chunks@.len(),
                count == dirty_count(self.chunks@.take(i as int)),
                count <= i,
            decreases self.chunks@.len() - i,
        {
            proof {
                assert(self.chunks@.take(i + 1).drop_last() =~= self.chunks@.take(i as int));
            }
            if self.chunks[i].dirty {
                count = count + 1;
            }
            i = i + 1;
        }
        proof {
            assert(self.chunks@.take(self.chunks@.len() as int) =~= self.chunks@);
        }
        count
    }

    /// The number of batches counted by the last finish.
    pub fn batch_count(&self) -> (count: u32)
        ensures
            count == self.spec_batch_count(),
    {
        self.batch_count
    }

    /// Whether some chunk is dirty.
    pub fn has_changes(&self) -> (changed: bool)
        ensures
            changed == (dirty_count(self.chunk_seq()) > 0),
    {
        let mut i: usize = 0;
        while i < self.chunks.len()
            invariant
                0 <= i <= self.chunks@.len(),
                dirty_count(self.chunks@.take(i as int)) == 0,
            decreases self.chunks@.len() - i,
        {
            proof {
                assert(self.chunks@.take(i + 1).drop_last() =~= self.chunks@.take(i as int));
            }
            if self.chunks[i].dirty {
                proof {
                    self.lemma_dirty_count_prefix(i as int + 1);
                }
                return true;
            }
            i = i + 1;
        }
        proof {
            assert(self.chunks@.take(self.chunks@.len() as int) =~= self.chunks@);
        }
        false
    }

    proof fn lemma_dirty_count_prefix(&self, n: int)
        requires
            0 < n <= self.chunks@.len(),
            self.chunks@[n - 1].dirty,
        ensures
            dirty_count(self.chunks@) > 0,
    {
        lemma_dirty_count_monotone(self.chunks@, n);
        assert(self.chunks@.take(n).drop_last() =~= self.chunks@.take(n - 1));
    }

    /// Per kind, the merged ranges of the dirty chunks.
    pub fn changed_ranges(&self) -> (ranges: ChangedRanges)
        ensures
            forall|k: PrimitiveKind|
                #![trigger ranges.ranges_of(k)]
                is_merged(ranges.ranges_of(k)) && same_coverage(
                    ranges.ranges_of(k),
                    dirty_ranges(self.chunk_seq(), k),
                ),
    {
        let mut ranges = ChangedRanges {
            shadows: Vec::new(),
            quads: Vec::new(),
            paths: Vec::new(),
            underlines: Vec::new(),
            monochrome_sprites: Vec::new(),
            subpixel_sprites: Vec::new(),
            polychrome_sprites: Vec::new(),
            surfaces: Vec::new(),
        };
        let mut i: usize = 0;
        while i < self.chunks.len()
            invariant
                0 <= i <= self.chunks@.len(),
                forall|k: PrimitiveKind| #[trigger] ranges.ranges_of(k) == dirty_ranges(self.chunks@.take(i as int), k),
            decreases self.chunks@.len() - i,
        {
            proof {
                assert(self.chunks@.take(i + 1).drop_last() =~= self.chunks@.take(i as int));
            }
            let ghost before = ranges;
            let chunk = &self.chunks[i];
            if chunk.dirty {
                ranges.shadows.push(chunk.shadows.start..chunk.shadows.end);
                ranges.quads.push(chunk.quads.start..chunk.quads.end);
                ranges.paths.push(chunk.paths.start..chunk.paths.end);
                ranges.underlines.push(chunk.underlines.start..chunk.underlines.end);
                ranges.monochrome_sprites.push(chunk.monochrome_sprites.start..chunk.monochrome_sprites.end);
                ranges.subpixel_sprites.push(chunk.subpixel_sprites.start..chunk.subpixel_sprites.end);
                ranges.polychrome_sprites.push(chunk.polychrome_sprites.start..chunk.polychrome_sprites.end);
                ranges.surfaces.push(chunk.surfaces.start..chunk.surfaces.end);
            }
            proof {
                assert forall|k: PrimitiveKind| #[trigger] ranges.ranges_of(k) == dirty_ranges(
                    self.chunks@.take(i + 1),
                    k,
                ) by {
                    let t = self.chunks@.take(i + 1);
                    assert(t.drop_last() =~= self.chunks@.take(i as int));
                    assert(t.last() == self.chunks@[i as int]);
                    assert(before.ranges_of(k) == dirty_ranges(self.chunks@.take(i as int), k));
                    match k {
                        PrimitiveKind::Shadow => {},
                        PrimitiveKind::Quad => {},
                        PrimitiveKind::Path => {},
                        PrimitiveKind::Underline => {},
                        PrimitiveKind::MonochromeSprite => {},
                        PrimitiveKind::SubpixelSprite => {},
                        PrimitiveKind::PolychromeSprite => {},
                        PrimitiveKind::Surface => {},
                    }
                }
            }
            i = i + 1;
        }
        proof {
            assert(self.chunks@.take(self.chunks@.len() as int) =~= self.chunks@);
        }
        let ghost collected = ranges;
        merge_ranges(&mut ranges.shadows);
        merge_ranges(&mut ranges.quads);
        merge_ranges(&mut ranges.paths);
        merge_ranges(&mut ranges.underlines);
        merge_ranges(&mut ranges.monochrome_sprites);
        merge_ranges(&mut ranges.subpixel_sprites);
        merge_ranges(&mut ranges.polychrome_sprites);
        merge_ranges(&mut ranges.surfaces);
        proof {
            assert forall|k: PrimitiveKind|
                #![trigger ranges.ranges_of(k)]
                is_merged(ranges.ranges_of(k)) && same_coverage(
                    ranges.ranges_of(k),
                    dirty_ranges(self.chunk_seq(), k),
                ) by {
                assert(collected.ranges_of(k) == dirty_ranges(self.chunks@, k));
            }
        }
        ranges
    }

    /// Number of recorded paint operations.
    pub fn len(&self) -> (len: usize)
        ensures
            len == self.paint_ops().len(),
    {
        self.paint_operations.len()
    }

    /// Number of chunks.
    pub fn chunk_count(&self) -> (count: usize)
        ensures
            count == self.chunk_seq().len(),
    {
        self.chunks.len()
    }

    /// The chunk at index `index`, if any.
    pub fn chunk(&self, index: usize) -> (chunk: Option<&SceneChunk>)
        ensures
            chunk == (if index < self.chunk_seq().len() {
                Some(&self.chunk_seq()[index as int])
            } else {
                None
            }),
    {
        if index < self.chunks.len() {
            Some(&self.chunks[index])
        } else {
            None
        }
    }

    /// Indices of the dirty chunks, in increasing order.
    pub fn dirty_chunk_indices(&self) -> (indices: Vec<usize>)
        ensures
            indices@ == dirty_indices(self.chunk_seq()),
    {
        let mut indices: Vec<usize> = Vec::new();
        let mut i: usize = 0;
        while i < self.chunks.len()
            invariant
                0 <= i <= self.chunks@.len(),
                indices@ == dirty_indices(self.chunks@.take(i as int)),
            decreases self.chunks@.len() - i,
        {
            proof {
                assert(self.chunks@.take(i + 1).drop_last() =~= self.chunks@.take(i as int));
            }
            if self.chunks[i].dirty {
                indices.push(i);
            }
            i = i + 1;
        }
        proof {
            assert(self.chunks@.take(self.chunks@.len() as int) =~= self.chunks@);
        }
        indices
    }
}

/// Once a view's chunk has been begun, the view counts as dirty.
pub proof fn lemma_begun_view_is_dirty(old: &Scene, new: &Scene, view_id: EntityId)
    requires
        new.began_chunk(old, view_id),
    ensures
        new.view_dirty(view_id),
{
    assert(new.chunks.len() == new.chunks@.len());
}

/// A view whose chunk was begun and then marked clean no longer counts as
/// dirty.
pub proof fn lemma_marked_view_is_clean(old: &Scene, begun: &Scene, new: &Scene, view_id: EntityId)
    requires
        old.wf(),
        begun.began_chunk(old, view_id),
        new.marked_clean(begun, view_id),
    ensures
        !new.view_dirty(view_id),
{
    assert(begun.chunks.len() == begun.chunks@.len());
    if old.chunk_index_of(view_id) is Some {
        assert(old.chunk_map@.contains_key(view_id.0));
    }
}

/// Marking a view clean leaves every view with another chunk as dirty (or
/// clean) as it was.
pub proof fn lemma_mark_clean_keeps_other_views(old: &Scene, new: &Scene, view_id: EntityId, other: EntityId)
    requires
        new.marked_clean(old, view_id),
        old.chunk_index_of(view_id) != old.chunk_index_of(other),
    ensures
        new.view_dirty(other) == old.view_dirty(other),
{
}

proof fn lemma_dirty_count_monotone(chunks: Seq<SceneChunk>, n: int)
    requires
        0 <= n <= chunks.len(),
    ensures
        dirty_count(chunks.take(n)) <= dirty_count(chunks),
    decreases chunks.len() - n,
{
    if n < chunks.len() {
        lemma_dirty_count_monotone(chunks, n + 1);
        assert(chunks.take(n + 1).drop_last() =~= chunks.take(n));
    } else {
        assert(chunks.take(n) =~= chunks);
    }
}


/// A view's chunk spans, in each primitive array, exactly the primitives
/// appended between beginning and ending it, and is dirty.
pub proof fn lemma_chunk_spans_painted_primitives(
    before: &Scene,
    begun: &Scene,
    painted: &Scene,
    ended: &Scene,
    view_id: EntityId,
    k: PrimitiveKind,
)
    requires
        before.wf(),
        begun.began_chunk(before, view_id),
        painted.same_chunks(begun),
        ended.ended_chunk(painted),
    ensures
        ended.chunk_index_of(view_id) matches Some(i) && i < ended.chunk_seq().len() && {
            let c = ended.chunk_seq()[i as int];
            &&& c.view_id == view_id
            &&& c.dirty
            &&& c.range_of(k) == (before.kind_len(k) as usize..painted.kind_len(k) as usize)
        },
{
    assert(begun.chunks.len() == begun.chunks@.len());
    if before.chunk_index_of(view_id) is Some {
        assert(before.chunk_map@.contains_key(view_id.0));
    }
    let i = begun.active()->0;
    assert(begun.chunk_index_of(view_id) == Some(i));
    assert(painted.chunk_index_of(view_id) == Some(i));
    assert(ended.chunk_index_of(view_id) == Some(i));
    assert(painted.active() == Some(i));
    assert(i < painted.chunk_seq().len());
}


/// What a single view paints into an empty scene is what the scene reports as
/// changed: after the view's chunk received `quads` quads and nothing else,
/// the view is dirty, the changed quads are exactly `0..quads` (none when
/// `quads` is 0) and nothing else changed; once the view is marked clean,
/// nothing is changed any more.
pub proof fn lemma_single_view_changes(
    empty: &Scene,
    begun: &Scene,
    painted: &Scene,
    ended: &Scene,
    cleaned_scene: &Scene,
    view_id: EntityId,
    quads: usize,
)
    requires
        empty.wf(),
        empty.chunk_seq().len() == 0,
        forall|k: PrimitiveKind| #[trigger] empty.kind_len(k) == 0,
        begun.began_chunk(empty, view_id),
        painted.same_chunks(begun),
        painted.kind_len(PrimitiveKind::Quad) == quads,
        forall|k: PrimitiveKind| k != PrimitiveKind::Quad ==> #[trigger] painted.kind_len(k) == 0,
        ended.ended_chunk(painted),
        cleaned_scene.marked_clean(ended, view_id),
    ensures
        ended.view_dirty(view_id),
        forall|k: PrimitiveKind|
            {
                let expected = if k == PrimitiveKind::Quad && quads > 0 {
                    seq![0..quads]
                } else {
                    Seq::<Range<usize>>::empty()
                };
                is_merged(expected) && same_coverage(expected, #[trigger] dirty_ranges(ended.chunk_seq(), k))
            },
        !cleaned_scene.view_dirty(view_id),
        forall|k: PrimitiveKind|
            #[trigger] dirty_ranges(cleaned_scene.chunk_seq(), k) == Seq::<Range<usize>>::empty(),
{
    if empty.chunk_map@.contains_key(view_id.0) {
        assert(empty.chunk_map@[view_id.0] < empty.chunks@.len());
    }
    assert(empty.chunk_index_of(view_id) is None);
    let fresh_chunk = SceneChunk::fresh(view_id, empty.array_lens());
    assert(begun.chunk_seq() =~= seq![fresh_chunk]);
    assert(painted.active() == Some(0usize));
    let c = fresh_chunk.ended(painted.array_lens());
    assert(ended.chunk_seq() =~= seq![c]);
    assert(ended.chunk_index_of(view_id) == Some(0usize));
    assert(c.dirty);
    assert forall|k: PrimitiveKind| #[trigger] c.range_of(k) == (0..painted.kind_len(k) as usize) by {
        assert(empty.kind_len(k) == 0);
        match k {
            PrimitiveKind::Shadow => assert(empty.array_lens()[0] == 0),
            PrimitiveKind::Quad => assert(empty.array_lens()[1] == 0),
            PrimitiveKind::Path => assert(empty.array_lens()[2] == 0),
            PrimitiveKind::Underline => assert(empty.array_lens()[3] == 0),
            PrimitiveKind::MonochromeSprite => assert(empty.array_lens()[4] == 0),
            PrimitiveKind::SubpixelSprite => assert(empty.array_lens()[5] == 0),
            PrimitiveKind::PolychromeSprite => assert(empty.array_lens()[6] == 0),
            PrimitiveKind::Surface => assert(empty.array_lens()[7] == 0),
        }
    }
    assert forall|k: PrimitiveKind|
        #[trigger] dirty_ranges(ended.chunk_seq(), k) == seq![c.range_of(k)] by {
        assert(ended.chunk_seq().drop_last() =~= Seq::<SceneChunk>::empty());
        assert(dirty_ranges(Seq::<SceneChunk>::empty(), k) == Seq::<Range<usize>>::empty());
        assert(seq![c.range_of(k)] =~= Seq::<Range<usize>>::empty().push(c.range_of(k)));
    }
    assert forall|k: PrimitiveKind|
        {
            let expected = if k == PrimitiveKind::Quad && quads > 0 {
                seq![0..quads]
            } else {
                Seq::<Range<usize>>::empty()
            };
            is_merged(expected) && same_coverage(expected, #[trigger] dirty_ranges(ended.chunk_seq(), k))
        } by {
        let expected = if k == PrimitiveKind::Quad && quads > 0 {
            seq![0..quads]
        } else {
            Seq::<Range<usize>>::empty()
        };
        let got = dirty_ranges(ended.chunk_seq(), k);
        assert forall|p: int| covers(expected, p) <==> covers(got, p) by {
            if covers(got, p) {
                assert(range_contains(got[0], p));
            }
            if covers(expected, p) {
                assert(range_contains(expected[0], p));
                assert(range_contains(got[0], p));
            }
        }
    }
    assert(cleaned_scene.chunk_seq().len() == 1);
    assert(!cleaned_scene.chunk_seq()[0].dirty);
    assert forall|k: PrimitiveKind|
        #[trigger] dirty_ranges(cleaned_scene.chunk_seq(), k) == Seq::<Range<usize>>::empty() by {
        assert(cleaned_scene.chunk_seq().drop_last() =~= Seq::<SceneChunk>::empty());
        assert(!cleaned_scene.chunk_seq().last().dirty);
        assert(dirty_ranges(Seq::<SceneChunk>::empty(), k) == Seq::<Range<usize>>::empty());
    }
}

} // verus!
