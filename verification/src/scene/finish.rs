//! Finishing a frame: sorting the primitives into drawing order, counting the
//! batches and marking every chunk clean.

use super::{
    cleaned, dirty_count, dirty_indices, dirty_ranges, sort_dirty_chunks, EntityId, PrimitiveKind,
    Scene, SceneChunk,
};
use crate::sort::{
    lemma_stable_sort_is_stable, sort_part, sort_range, sorted_by_key, stable_sort, with_key, SortKey,
};
use vstd::prelude::*;

verus! {

proof fn lemma_sort_part_whole<T: SortKey>(s: Seq<T>)
    ensures
        sort_part(s, 0, s.len() as int) == stable_sort(s),
{
    assert(s.subrange(0, s.len() as int) =~= s);
    assert(s.subrange(0, 0) =~= Seq::<T>::empty());
    assert(s.subrange(s.len() as int, s.len() as int) =~= Seq::<T>::empty());
    assert(sort_part(s, 0, s.len() as int) =~= stable_sort(s));
}

/// Sorts the whole of `v` stably by key.
fn sort_all<T: SortKey + Copy>(v: &mut Vec<T>)
    ensures
        final(v)@ == stable_sort(old(v)@),
{
    let len = v.len();
    sort_range(v, 0, len);
    proof {
        lemma_sort_part_whole(old(v)@);
    }
}

/// Sorts the part `[start, end)` of `v` when it lies within `v`.
fn sort_chunk_part<T: SortKey + Copy>(v: &mut Vec<T>, dirty: bool, start: usize, end: usize)
    ensures
        final(v)@ == (if dirty && start <= end && end <= old(v)@.len() {
            sort_part(old(v)@, start as int, end as int)
        } else {
            old(v)@
        }),
{
    if dirty && start <= end && end <= v.len() {
        sort_range(v, start, end);
    }
}

impl Scene {
    /// `self` is `old` after `finish`: the primitives sorted into drawing
    /// order, every chunk clean, the batch count recorded and the generation
    /// advanced by one.
    pub open spec fn finished_from(&self, old: &Scene) -> bool {
        &&& self.sorted_from(old)
        &&& self.paint_ops() == old.paint_ops()
        &&& self.layers() == old.layers()
        &&& self.chunk_seq() == old.chunk_seq().map_values(|c: SceneChunk| cleaned(c))
        &&& self.chunk_index_map() == old.chunk_index_map()
        &&& self.active() == old.active()
        &&& self.spec_generation() == old.spec_generation() + 1
        &&& self.spec_batch_count() == (if self.spec_batches().len() < u32::MAX {
            self.spec_batches().len() as int
        } else {
            u32::MAX as int
        })
    }
}

proof fn lemma_no_dirty_chunks(chunks: Seq<SceneChunk>, k: PrimitiveKind)
    requires
        forall|i: int| 0 <= i < chunks.len() ==> !(#[trigger] chunks[i]).dirty,
    ensures
        dirty_count(chunks) == 0,
        dirty_ranges(chunks, k) == Seq::<std::ops::Range<usize>>::empty(),
        dirty_indices(chunks) == Seq::<usize>::empty(),
    decreases chunks.len(),
{
    if chunks.len() > 0 {
        assert(!chunks[chunks.len() - 1].dirty);
        lemma_no_dirty_chunks(chunks.drop_last(), k);
    }
}

/// After a finish no chunk is dirty: the scene reports no changes and no
/// changed ranges, and every view with a chunk counts as clean.
pub proof fn lemma_finish_leaves_no_changes(old: &Scene, new: &Scene)
    requires
        new.finished_from(old),
    ensures
        dirty_count(new.chunk_seq()) == 0,
        forall|k: PrimitiveKind| #[trigger] dirty_ranges(new.chunk_seq(), k) == Seq::<std::ops::Range<usize>>::empty(),
        forall|v: EntityId|
            #![trigger new.view_dirty(v)]
            new.chunk_index_of(v) matches Some(i) && i < new.chunk_seq().len() ==> !new.view_dirty(v),
{
    assert forall|i: int| 0 <= i < new.chunk_seq().len() implies !(#[trigger] new.chunk_seq()[i]).dirty by {
        assert(new.chunk_seq()[i] == cleaned(old.chunk_seq()[i]));
    }
    lemma_no_dirty_chunks(new.chunk_seq(), PrimitiveKind::Shadow);
    assert forall|k: PrimitiveKind| #[trigger] dirty_ranges(new.chunk_seq(), k) == Seq::<std::ops::Range<usize>>::empty() by {
        lemma_no_dirty_chunks(new.chunk_seq(), k);
    }
}

/// A finish that sorts the whole arrays leaves each of them in drawing
/// order, with the primitives of each key in the order they had before.
pub proof fn lemma_finish_orders_primitives(old: &Scene, new: &Scene)
    requires
        new.finished_from(old),
        old.sorts_everything(),
    ensures
        sorted_by_key(new.shadows_view()) && forall|k: int| #[trigger] with_key(new.shadows_view(), k) == with_key(old.shadows_view(), k),
        sorted_by_key(new.quads_view()) && forall|k: int| #[trigger] with_key(new.quads_view(), k) == with_key(old.quads_view(), k),
        sorted_by_key(new.paths_view()) && forall|k: int| #[trigger] with_key(new.paths_view(), k) == with_key(old.paths_view(), k),
        sorted_by_key(new.underlines_view()) && forall|k: int| #[trigger] with_key(new.underlines_view(), k) == with_key(old.underlines_view(), k),
        sorted_by_key(new.monochrome_sprites_view()) && forall|k: int|
            #[trigger] with_key(new.monochrome_sprites_view(), k) == with_key(old.monochrome_sprites_view(), k),
        sorted_by_key(new.subpixel_sprites_view()) && forall|k: int|
            #[trigger] with_key(new.subpixel_sprites_view(), k) == with_key(old.subpixel_sprites_view(), k),
        sorted_by_key(new.polychrome_sprites_view()) && forall|k: int|
            #[trigger] with_key(new.polychrome_sprites_view(), k) == with_key(old.polychrome_sprites_view(), k),
        sorted_by_key(new.surfaces_view()) && forall|k: int| #[trigger] with_key(new.surfaces_view(), k) == with_key(old.surfaces_view(), k),
{
    lemma_stable_sort_is_stable(old.shadows@);
    lemma_stable_sort_is_stable(old.quads@);
    lemma_stable_sort_is_stable(old.paths@);
    lemma_stable_sort_is_stable(old.underlines@);
    lemma_stable_sort_is_stable(old.monochrome_sprites@);
    lemma_stable_sort_is_stable(old.subpixel_sprites@);
    lemma_stable_sort_is_stable(old.polychrome_sprites@);
    lemma_stable_sort_is_stable(old.surfaces@);
}

impl Scene {
    /// Sorts every primitive array stably by key.
    fn sort_all_primitives(&mut self)
        ensures
            final(self).shadows@ == stable_sort(old(self).shadows@),
            final(self).quads@ == stable_sort(old(self).quads@),
            final(self).paths@ == stable_sort(old(self).paths@),
            final(self).underlines@ == stable_sort(old(self).underlines@),
            final(self).monochrome_sprites@ == stable_sort(old(self).monochrome_sprites@),
            final(self).subpixel_sprites@ == stable_sort(old(self).subpixel_sprites@),
            final(self).polychrome_sprites@ == stable_sort(old(self).polychrome_sprites@),
            final(self).surfaces@ == stable_sort(old(self).surfaces@),
            final(self).paint_operations@ == old(self).paint_operations@,
            final(self).layer_stack@ == old(self).layer_stack@,
            final(self).same_chunks(old(self)),
    {
        sort_all(&mut self.shadows);
        sort_all(&mut self.quads);
        sort_all(&mut self.paths);
        sort_all(&mut self.underlines);
        sort_all(&mut self.monochrome_sprites);
        sort_all(&mut self.subpixel_sprites);
        sort_all(&mut self.polychrome_sprites);
        sort_all(&mut self.surfaces);
    }

    /// Sorts, chunk after chunk, the parts of the arrays painted by dirty
    /// chunks.
    fn sort_dirty_chunk_parts(&mut self)
        ensures
            final(self).shadows@ == sort_dirty_chunks(old(self).shadows@, old(self).chunks@, PrimitiveKind::Shadow),
            final(self).quads@ == sort_dirty_chunks(old(self).quads@, old(self).chunks@, PrimitiveKind::Quad),
            final(self).paths@ == sort_dirty_chunks(old(self).paths@, old(self).chunks@, PrimitiveKind::Path),
            final(self).underlines@ == sort_dirty_chunks(old(self).underlines@, old(self).chunks@, PrimitiveKind::Underline),
            final(self).monochrome_sprites@ == sort_dirty_chunks(
                old(self).monochrome_sprites@,
                old(self).chunks@,
                PrimitiveKind::MonochromeSprite,
            ),
            final(self).subpixel_sprites@ == sort_dirty_chunks(
                old(self).subpixel_sprites@,
                old(self).chunks@,
                PrimitiveKind::SubpixelSprite,
            ),
            final(self).polychrome_sprites@ == sort_dirty_chunks(
                old(self).polychrome_sprites@,
                old(self).chunks@,
                PrimitiveKind::PolychromeSprite,
            ),
            final(self).surfaces@ == sort_dirty_chunks(old(self).surfaces@, old(self).chunks@, PrimitiveKind::Surface),
            final(self).paint_operations@ == old(self).paint_operations@,
            final(self).layer_stack@ == old(self).layer_stack@,
            final(self).same_chunks(old(self)),
    {
        let ghost start = *self;
        let mut i: usize = 0;
        while i < self.chunks.len()
            invariant
                0 <= i <= self.chunks@.len(),
                self.paint_operations@ == start.paint_operations@,
                self.layer_stack@ == start.layer_stack@,
                self.same_chunks(&start),
                self.shadows@ == sort_dirty_chunks(start.shadows@, start.chunks@.take(i as int), PrimitiveKind::Shadow),
                self.quads@ == sort_dirty_chunks(start.quads@, start.chunks@.take(i as int), PrimitiveKind::Quad),
                self.paths@ == sort_dirty_chunks(start.paths@, start.chunks@.take(i as int), PrimitiveKind::Path),
                self.underlines@ == sort_dirty_chunks(
                    start.underlines@,
                    start.chunks@.take(i as int),
                    PrimitiveKind::Underline,
                ),
                self.monochrome_sprites@ == sort_dirty_chunks(
                    start.monochrome_sprites@,
                    start.chunks@.take(i as int),
                    PrimitiveKind::MonochromeSprite,
                ),
                self.subpixel_sprites@ == sort_dirty_chunks(
                    start.subpixel_sprites@,
                    start.chunks@.take(i as int),
                    PrimitiveKind::SubpixelSprite,
                ),
                self.polychrome_sprites@ == sort_dirty_chunks(
                    start.polychrome_sprites@,
                    start.chunks@.take(i as int),
                    PrimitiveKind::PolychromeSprite,
                ),
                self.surfaces@ == sort_dirty_chunks(start.surfaces@, start.chunks@.take(i as int), PrimitiveKind::Surface),
            decreases self.chunks@.len() - i,
        {
            proof {
                assert(start.chunks@.take(i + 1).drop_last() =~= start.chunks@.take(i as int));
                assert(start.chunks@.take(i + 1).last() == start.chunks@[i as int]);
            }
            let dirty = self.chunks[i].dirty;
            let (s0, e0) = (self.chunks[i].shadows.start, self.chunks[i].shadows.end);
            let (s1, e1) = (self.chunks[i].quads.start, self.chunks[i].quads.end);
            let (s2, e2) = (self.chunks[i].paths.start, self.chunks[i].paths.end);
            let (s3, e3) = (self.chunks[i].underlines.start, self.chunks[i].underlines.end);
            let (s4, e4) = (self.chunks[i].monochrome_sprites.start, self.chunks[i].monochrome_sprites.end);
            let (s5, e5) = (self.chunks[i].subpixel_sprites.start, self.chunks[i].subpixel_sprites.end);
            let (s6, e6) = (self.chunks[i].polychrome_sprites.start, self.chunks[i].polychrome_sprites.end);
            let (s7, e7) = (self.chunks[i].surfaces.start, self.chunks[i].surfaces.end);
            sort_chunk_part(&mut self.shadows, dirty, s0, e0);
            sort_chunk_part(&mut self.quads, dirty, s1, e1);
            sort_chunk_part(&mut self.paths, dirty, s2, e2);
            sort_chunk_part(&mut self.underlines, dirty, s3, e3);
            sort_chunk_part(&mut self.monochrome_sprites, dirty, s4, e4);
            sort_chunk_part(&mut self.subpixel_sprites, dirty, s5, e5);
            sort_chunk_part(&mut self.polychrome_sprites, dirty, s6, e6);
            sort_chunk_part(&mut self.surfaces, dirty, s7, e7);
            i = i + 1;
        }
        proof {
            assert(start.chunks@.take(start.chunks@.len() as int) =~= start.chunks@);
        }
    }

    /// Marks every chunk clean.
    fn clean_all_chunks(&mut self)
        ensures
            final(self).chunks@ == old(self).chunks@.map_values(|c: SceneChunk| cleaned(c)),
            final(self).same_content(old(self)),
            final(self).chunk_map@ == old(self).chunk_map@,
            final(self).active_chunk == old(self).active_chunk,
            final(self).generation == old(self).generation,
            final(self).batch_count == old(self).batch_count,
    {
        let ghost start = *self;
        let mut i: usize = 0;
        while i < self.chunks.len()
            invariant
                0 <= i <= self.chunks@.len(),
                self.chunks@.len() == start.chunks@.len(),
                forall|j: int| 0 <= j < i ==> #[trigger] self.chunks@[j] == cleaned(start.chunks@[j]),
                forall|j: int| i <= j < self.chunks@.len() ==> #[trigger] self.chunks@[j] == start.chunks@[j],
                self.same_content(&start),
                self.chunk_map@ == start.chunk_map@,
                self.active_chunk == start.active_chunk,
                self.generation == start.generation,
                self.batch_count == start.batch_count,
            decreases self.chunks@.len() - i,
        {
            let mut chunk = self.chunks[i].duplicate();
            chunk.dirty = false;
            self.chunks.set(i, chunk);
            i = i + 1;
        }
        proof {
            assert(self.chunks@ =~= start.chunks@.map_values(|c: SceneChunk| cleaned(c)));
        }
    }

    /// Finishes the frame: sorts the primitives into drawing order (the
    /// whole arrays when there are no chunks or at least 30% of the chunks
    /// are dirty, else only the dirty chunks' parts), marks every chunk clean,
    /// records the number of batches and advances the generation. Returns the
    /// indices of the chunks that were dirty.
    pub fn finish(&mut self) -> (dirty_chunks: Vec<usize>)
        requires
            old(self).spec_generation() < u64::MAX,
        ensures
            dirty_chunks@ == dirty_indices(old(self).chunk_seq()),
            final(self).finished_from(old(self)),
            old(self).wf() ==> final(self).wf(),
    {
        let dirty_chunks = self.dirty_chunk_indices();
        let total_chunk_count = self.chunks.len();
        let dirty_chunk_count = self.dirty_chunk_count();
        if total_chunk_count == 0 || (dirty_chunk_count as u128) * 10 >= (total_chunk_count as u128) * 3 {
            self.sort_all_primitives();
        } else {
            self.sort_dirty_chunk_parts();
        }
        self.clean_all_chunks();
        let batch_count = self.total_batch_count();
        let ghost counted = *self;
        self.batch_count = batch_count;
        self.generation = self.generation + 1;
        proof {
            self.lemma_batches_same_primitives(&counted);
        }
        dirty_chunks
    }
}


proof fn lemma_draw_items_orders_sorted(s: Seq<super::DrawItem>)
    requires
        sorted_by_key(s),
    ensures
        forall|i: int, j: int| 0 <= i <= j < s.len() ==> (#[trigger] s[i]).order <= (#[trigger] s[j]).order,
{
    assert forall|i: int, j: int| 0 <= i <= j < s.len() implies (#[trigger] s[i]).order <= (#[trigger] s[j]).order by {
        assert(s[i].spec_sort_key() <= s[j].spec_sort_key());
    }
}

proof fn lemma_sprites_orders_sorted(s: Seq<super::SpriteItem>)
    requires
        sorted_by_key(s),
    ensures
        forall|i: int, j: int| 0 <= i <= j < s.len() ==> (#[trigger] s[i]).order <= (#[trigger] s[j]).order,
{
    assert forall|i: int, j: int| 0 <= i <= j < s.len() implies (#[trigger] s[i]).order <= (#[trigger] s[j]).order by {
        assert(s[i].spec_sort_key() <= s[j].spec_sort_key());
        let oi = s[i].order as int;
        let oj = s[j].order as int;
        let ti = s[i].tile.tile_id.0 as int;
        let tj = s[j].tile.tile_id.0 as int;
        assert(oi <= oj) by (nonlinear_arith)
            requires
                oi * 0x1_0000_0000 + ti <= oj * 0x1_0000_0000 + tj,
                0 <= ti < 0x1_0000_0000,
                0 <= tj < 0x1_0000_0000,
        ;
    }
}

/// After a finish that sorts the whole arrays, the scene's batches are in
/// painter's order (see `Scene::lemma_batches_in_paint_order`).
pub proof fn lemma_finished_scene_batches_in_paint_order(old: &Scene, new: &Scene)
    requires
        new.finished_from(old),
        old.sorts_everything(),
    ensures
        new.in_paint_order(new.spec_batches()),
{
    lemma_finish_orders_primitives(old, new);
    lemma_draw_items_orders_sorted(new.shadows@);
    lemma_draw_items_orders_sorted(new.quads@);
    lemma_draw_items_orders_sorted(new.paths@);
    lemma_draw_items_orders_sorted(new.underlines@);
    lemma_sprites_orders_sorted(new.monochrome_sprites@);
    lemma_sprites_orders_sorted(new.subpixel_sprites@);
    lemma_sprites_orders_sorted(new.polychrome_sprites@);
    lemma_draw_items_orders_sorted(new.surfaces@);
    assert forall|k: PrimitiveKind, i: int, j: int|
        0 <= i <= j < new.kind_len(k) implies #[trigger] new.order_at(k, i) <= #[trigger] new.order_at(
        k,
        j,
    ) by {
        match k {
            PrimitiveKind::Shadow => assert(new.shadows@[i].order <= new.shadows@[j].order),
            PrimitiveKind::Quad => assert(new.quads@[i].order <= new.quads@[j].order),
            PrimitiveKind::Path => assert(new.paths@[i].order <= new.paths@[j].order),
            PrimitiveKind::Underline => assert(new.underlines@[i].order <= new.underlines@[j].order),
            PrimitiveKind::MonochromeSprite => assert(
                new.monochrome_sprites@[i].order <= new.monochrome_sprites@[j].order
            ),
            PrimitiveKind::SubpixelSprite => assert(
                new.subpixel_sprites@[i].order <= new.subpixel_sprites@[j].order
            ),
            PrimitiveKind::PolychromeSprite => assert(
                new.polychrome_sprites@[i].order <= new.polychrome_sprites@[j].order
            ),
            PrimitiveKind::Surface => assert(new.surfaces@[i].order <= new.surfaces@[j].order),
        }
    }
    assert(new.orders_sorted());
    new.lemma_batches_in_paint_order();
}

} // verus!
