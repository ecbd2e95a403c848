use std::ops::Range;
use wgpui::ranges::merge_ranges;
use wgpui::scene::batch::BatchCounter;
use wgpui::scene::{
    AtlasTextureId, AtlasTextureKind, AtlasTile, AtlasTileId, DrawItem, EntityId, Primitive,
    PrimitiveBatch, Scene, SpriteItem,
};

fn item() -> DrawItem {
    DrawItem { order: 0, id: 0 }
}

fn sprite(texture: u32, tile: u32) -> SpriteItem {
    SpriteItem {
        order: 0,
        tile: AtlasTile {
            texture_id: AtlasTextureId { index: texture, kind: AtlasTextureKind::Monochrome },
            tile_id: AtlasTileId(tile),
        },
        id: 0,
    }
}

fn ranges_of(batches: &[PrimitiveBatch]) -> Vec<(u8, Range<usize>)> {
    batches
        .iter()
        .map(|b| match b {
            PrimitiveBatch::Shadows(r) => (0, r.clone()),
            PrimitiveBatch::Quads(r) => (1, r.clone()),
            PrimitiveBatch::Paths(r) => (2, r.clone()),
            PrimitiveBatch::Underlines(r) => (3, r.clone()),
            PrimitiveBatch::MonochromeSprites { range, .. } => (4, range.clone()),
            PrimitiveBatch::SubpixelSprites { range, .. } => (5, range.clone()),
            PrimitiveBatch::PolychromeSprites { range, .. } => (6, range.clone()),
            PrimitiveBatch::Surfaces(r) => (7, r.clone()),
        })
        .collect()
}

#[test]
fn merge_ranges_joins_overlapping_and_adjacent_ranges() {
    let mut ranges = vec![5..7, 0..2, 1..3, 3..4, 8..8];
    merge_ranges(&mut ranges);
    assert_eq!(ranges, vec![0..4, 5..7]);
}

#[test]
fn merge_ranges_drops_empty_and_keeps_separated_ranges() {
    let mut ranges = vec![4..4, 9..12, 2..3, 6..1];
    merge_ranges(&mut ranges);
    assert_eq!(ranges, vec![2..3, 9..12]);
    let mut none: Vec<Range<usize>> = vec![];
    merge_ranges(&mut none);
    assert!(none.is_empty());
}

#[test]
fn merge_ranges_is_idempotent() {
    let mut once = vec![10..20, 0..5, 4..9, 30..31];
    merge_ranges(&mut once);
    let mut twice = once.clone();
    merge_ranges(&mut twice);
    assert_eq!(once, twice);
    assert_eq!(once, vec![0..9, 10..20, 30..31]);
}

#[test]
fn inserted_primitives_take_the_layer_order() {
    let mut scene = Scene::new();
    scene.insert_primitive(Primitive::Quad(item()), false, 7);
    scene.push_layer(3);
    scene.insert_primitive(Primitive::Quad(item()), false, 9);
    scene.push_layer(5);
    scene.insert_primitive(Primitive::Shadow(item()), false, 11);
    scene.pop_layer();
    scene.insert_primitive(Primitive::Quad(item()), false, 13);
    scene.pop_layer();
    scene.insert_primitive(Primitive::Quad(item()), false, 15);
    let orders: Vec<u32> = scene.quads.iter().map(|q| q.order).collect();
    assert_eq!(orders, vec![7, 3, 3, 15]);
    let ids: Vec<usize> = scene.quads.iter().map(|q| q.id).collect();
    assert_eq!(ids, vec![0, 1, 2, 3]);
    assert_eq!(scene.shadows, vec![DrawItem { order: 5, id: 0 }]);
    // five primitives, two layers opened and two closed
    assert_eq!(scene.len(), 9);
}

#[test]
fn finish_sorts_all_primitives_without_chunks() {
    let mut scene = Scene::new();
    scene.insert_primitive(Primitive::Quad(item()), false, 3);
    scene.insert_primitive(Primitive::Quad(item()), false, 1);
    scene.insert_primitive(Primitive::Quad(item()), false, 2);
    scene.insert_primitive(Primitive::Quad(item()), false, 1);
    let generation = scene.scene_generation();
    let dirty = scene.finish();
    assert!(dirty.is_empty());
    let sorted: Vec<(u32, usize)> = scene.quads.iter().map(|q| (q.order, q.id)).collect();
    // stable: the two quads of order 1 keep their insertion order
    assert_eq!(sorted, vec![(1, 1), (1, 3), (2, 2), (3, 0)]);
    assert_eq!(scene.scene_generation(), generation + 1);
    assert_eq!(scene.batch_count(), 1);
}

#[test]
fn batches_follow_draw_order_across_kinds() {
    let mut scene = Scene::new();
    scene.insert_primitive(Primitive::Quad(item()), false, 1);
    scene.insert_primitive(Primitive::Shadow(item()), false, 0);
    scene.insert_primitive(Primitive::Quad(item()), false, 2);
    scene.insert_primitive(Primitive::Shadow(item()), false, 3);
    scene.finish();
    let batches = scene.batches();
    assert_eq!(ranges_of(&batches), vec![(0, 0..1), (1, 0..2), (0, 1..2)]);
    assert_eq!(scene.total_batch_count(), 3);
    assert_eq!(scene.batch_count(), 3);
}

#[test]
fn same_order_primitives_batch_by_kind_rank() {
    let mut scene = Scene::new();
    scene.insert_primitive(Primitive::Surface(item()), false, 4);
    scene.insert_primitive(Primitive::Quad(item()), false, 4);
    scene.insert_primitive(Primitive::Shadow(item()), false, 4);
    scene.finish();
    assert_eq!(ranges_of(&scene.batches()), vec![(0, 0..1), (1, 0..1), (7, 0..1)]);
}

#[test]
fn sprite_batches_split_on_texture_change() {
    let mut scene = Scene::new();
    scene.insert_primitive(Primitive::MonochromeSprite(sprite(0, 1)), false, 1);
    scene.insert_primitive(Primitive::MonochromeSprite(sprite(0, 2)), false, 1);
    scene.insert_primitive(Primitive::MonochromeSprite(sprite(1, 3)), false, 1);
    scene.finish();
    let batches = scene.batches();
    assert_eq!(ranges_of(&batches), vec![(4, 0..2), (4, 2..3)]);
    match &batches[1] {
        PrimitiveBatch::MonochromeSprites { texture_id, .. } => assert_eq!(texture_id.index, 1),
        other => panic!("unexpected batch {:?}", other),
    }
}

#[test]
fn batch_counter_walks_the_same_batches() {
    let mut scene = Scene::new();
    scene.insert_primitive(Primitive::Path(item()), false, 2);
    scene.insert_primitive(Primitive::Underline(item()), false, 1);
    scene.finish();
    let mut counter = BatchCounter::new();
    let mut walked = Vec::new();
    while let Some(batch) = counter.next_batch(&scene) {
        walked.push(batch);
    }
    assert_eq!(ranges_of(&walked), ranges_of(&scene.batches()));
    assert_eq!(ranges_of(&walked), vec![(3, 0..1), (2, 0..1)]);
    let mut again = BatchCounter::new();
    assert!(again.advance(&scene));
    assert!(again.advance(&scene));
    assert!(!again.advance(&scene));
}

#[test]
fn every_primitive_is_batched_exactly_once() {
    let mut scene = Scene::new();
    let orders = [5u32, 1, 4, 1, 3, 2, 2, 0];
    for (i, order) in orders.iter().enumerate() {
        let p = if i % 2 == 0 { Primitive::Quad(item()) } else { Primitive::Underline(item()) };
        scene.insert_primitive(p, false, *order);
    }
    scene.finish();
    let mut quads = vec![0usize; scene.quads.len()];
    let mut underlines = vec![0usize; scene.underlines.len()];
    for batch in scene.batches() {
        match batch {
            PrimitiveBatch::Quads(r) => r.for_each(|i| quads[i] += 1),
            PrimitiveBatch::Underlines(r) => r.for_each(|i| underlines[i] += 1),
            other => panic!("unexpected batch {:?}", other),
        }
    }
    assert!(quads.iter().all(|&n| n == 1));
    assert!(underlines.iter().all(|&n| n == 1));
}

#[test]
fn view_chunks_track_dirty_views() {
    let mut scene = Scene::new();
    let a = EntityId(1);
    let b = EntityId(2);
    assert!(scene.is_chunk_dirty(a));
    scene.begin_view_chunk(a);
    scene.insert_primitive(Primitive::Quad(item()), false, 0);
    scene.end_view_chunk();
    scene.begin_view_chunk(b);
    scene.insert_primitive(Primitive::Quad(item()), false, 1);
    scene.insert_primitive(Primitive::Shadow(item()), false, 1);
    scene.end_view_chunk();
    assert_eq!(scene.chunk_count(), 2);
    assert!(scene.is_chunk_dirty(a));
    assert!(scene.is_chunk_dirty(b));
    assert_eq!(scene.dirty_chunk_count(), 2);
    assert!(scene.has_changes());
    assert_eq!(scene.scene_generation(), 2);

    let changed = scene.changed_ranges();
    assert_eq!(changed.quads, vec![0..2]);
    assert_eq!(changed.shadows, vec![0..1]);
    assert!(changed.paths.is_empty());

    scene.mark_chunk_clean(a);
    assert!(!scene.is_chunk_dirty(a));
    assert!(scene.is_chunk_dirty(b));
    let changed = scene.changed_ranges();
    assert_eq!(changed.quads, vec![1..2]);
    assert_eq!(scene.dirty_chunk_indices(), vec![1]);
}

#[test]
fn finish_cleans_chunks_and_reports_dirty_ones() {
    let mut scene = Scene::new();
    for id in 0..4u64 {
        scene.begin_view_chunk(EntityId(id));
        scene.insert_primitive(Primitive::Quad(item()), false, 10 - id as u32);
        scene.end_view_chunk();
    }
    scene.mark_chunk_clean(EntityId(0));
    scene.mark_chunk_clean(EntityId(2));
    let dirty = scene.finish();
    assert_eq!(dirty, vec![1, 3]);
    assert!(!scene.has_changes());
    assert_eq!(scene.dirty_chunk_count(), 0);
    // half the chunks were dirty: every array was sorted as a whole
    let orders: Vec<u32> = scene.quads.iter().map(|q| q.order).collect();
    assert_eq!(orders, vec![7, 8, 9, 10]);
}

#[test]
fn finish_sorts_only_dirty_chunks_when_few_are_dirty() {
    let mut scene = Scene::new();
    for id in 0..4u64 {
        scene.begin_view_chunk(EntityId(id));
        scene.insert_primitive(Primitive::Quad(item()), false, 20 - 2 * id as u32);
        scene.insert_primitive(Primitive::Quad(item()), false, 10 - 2 * id as u32);
        scene.end_view_chunk();
    }
    for id in [0u64, 1, 2] {
        scene.mark_chunk_clean(EntityId(id));
    }
    scene.finish();
    let orders: Vec<u32> = scene.quads.iter().map(|q| q.order).collect();
    // only the last chunk (one dirty of four) was sorted
    assert_eq!(orders, vec![20, 10, 18, 8, 16, 6, 4, 14]);
}

#[test]
fn restarting_a_view_chunk_reuses_its_slot() {
    let mut scene = Scene::new();
    scene.begin_view_chunk(EntityId(9));
    scene.insert_primitive(Primitive::Quad(item()), false, 0);
    scene.end_view_chunk();
    scene.finish();
    assert!(!scene.is_chunk_dirty(EntityId(9)));
    scene.begin_view_chunk(EntityId(9));
    scene.insert_primitive(Primitive::Quad(item()), false, 1);
    scene.end_view_chunk();
    assert_eq!(scene.chunk_count(), 1);
    assert!(scene.is_chunk_dirty(EntityId(9)));
    let chunk = scene.chunk(0).unwrap();
    assert_eq!(chunk.quads, 1..2);
    assert!(scene.chunk(1).is_none());
}

#[test]
fn clear_empties_the_scene_but_keeps_the_generation() {
    let mut scene = Scene::new();
    scene.begin_view_chunk(EntityId(1));
    scene.push_layer(2);
    scene.insert_primitive(Primitive::Surface(item()), false, 0);
    scene.end_view_chunk();
    let generation = scene.scene_generation();
    scene.clear();
    assert_eq!(scene.len(), 0);
    assert!(scene.surfaces.is_empty());
    assert_eq!(scene.chunk_count(), 0);
    assert_eq!(scene.batch_count(), 0);
    assert_eq!(scene.scene_generation(), generation);
    assert!(scene.is_chunk_dirty(EntityId(1)));
    scene.insert_primitive(Primitive::Quad(item()), false, 6);
    assert_eq!(scene.quads[0].order, 6);
}

#[test]
fn chunk_records_the_primitives_painted_while_active() {
    let mut scene = Scene::new();
    scene.insert_primitive(Primitive::Quad(item()), false, 0);
    scene.insert_primitive(Primitive::Shadow(item()), false, 0);
    scene.begin_view_chunk(EntityId(4));
    scene.insert_primitive(Primitive::Quad(item()), false, 1);
    scene.insert_primitive(Primitive::Quad(item()), false, 2);
    scene.insert_primitive(Primitive::Surface(item()), false, 2);
    scene.end_view_chunk();
    scene.insert_primitive(Primitive::Quad(item()), false, 3);
    let chunk = scene.chunk(0).unwrap();
    assert_eq!(chunk.view_id, EntityId(4));
    assert!(chunk.dirty);
    assert_eq!(chunk.quads, 1..3);
    assert_eq!(chunk.shadows, 1..1);
    assert_eq!(chunk.surfaces, 0..1);
    assert_eq!(chunk.paint_operations, 2..5);
}

#[test]
fn clipped_away_primitives_are_not_recorded() {
    let mut scene = Scene::new();
    scene.insert_primitive(Primitive::Quad(item()), true, 4);
    assert!(scene.quads.is_empty());
    assert_eq!(scene.len(), 0);
    scene.insert_primitive(Primitive::Quad(item()), false, 4);
    assert_eq!(scene.quads, vec![DrawItem { order: 4, id: 0 }]);
}

#[test]
fn replay_repaints_a_range_of_another_scene() {
    let mut prev = Scene::new();
    prev.insert_primitive(Primitive::Shadow(item()), false, 1);
    prev.push_layer(2);
    prev.insert_primitive(Primitive::Quad(item()), false, 3);
    prev.insert_primitive(Primitive::Quad(item()), false, 4);
    prev.pop_layer();
    prev.insert_primitive(Primitive::Underline(item()), false, 5);

    let mut scene = Scene::new();
    scene.insert_primitive(Primitive::Quad(item()), false, 0);
    // operations 1..6: start layer, two quads, end layer, underline
    scene.replay(1..6, &prev, &[20, 99, 98, 97, 30]);
    assert_eq!(scene.len(), 6);
    let quads: Vec<(u32, usize)> = scene.quads.iter().map(|q| (q.order, q.id)).collect();
    assert_eq!(quads, vec![(0, 0), (20, 1), (20, 2)]);
    assert_eq!(scene.underlines, vec![DrawItem { order: 30, id: 0 }]);
    assert!(scene.shadows.is_empty());
    scene.replay(0..0, &prev, &[]);
    assert_eq!(scene.len(), 6);
}

#[test]
fn same_order_neighbours_share_a_batch() {
    let mut scene = Scene::new();
    scene.insert_primitive(Primitive::Quad(item()), false, 2);
    scene.insert_primitive(Primitive::Quad(item()), false, 2);
    scene.insert_primitive(Primitive::Shadow(item()), false, 2);
    scene.insert_primitive(Primitive::Quad(item()), false, 3);
    scene.finish();
    assert_eq!(ranges_of(&scene.batches()), vec![(0, 0..1), (1, 0..3)]);
}

#[test]
fn advance_succeeds_once_per_batch() {
    let mut scene = Scene::new();
    scene.insert_primitive(Primitive::Quad(item()), false, 1);
    scene.insert_primitive(Primitive::Shadow(item()), false, 2);
    scene.insert_primitive(Primitive::Quad(item()), false, 3);
    scene.finish();
    let n = scene.batches().len();
    assert_eq!(n, 3);
    let mut counter = BatchCounter::new();
    for _ in 0..n {
        assert!(counter.advance(&scene));
    }
    assert!(!counter.advance(&scene));
    assert!(!counter.advance(&scene));
}

#[test]
fn batching_stops_at_a_maximal_draw_order() {
    let mut scene = Scene::new();
    scene.insert_primitive(Primitive::Quad(item()), false, u32::MAX);
    scene.finish();
    // the exhausted shadow array comes first, so nothing is batched
    assert!(scene.batches().is_empty());
    assert_eq!(scene.total_batch_count(), 0);
}

#[test]
fn replaying_every_operation_reproduces_the_scene() {
    let mut prev = Scene::new();
    prev.insert_primitive(Primitive::Quad(item()), false, 3);
    prev.push_layer(7);
    prev.insert_primitive(Primitive::Shadow(item()), false, 1);
    prev.insert_primitive(Primitive::MonochromeSprite(sprite(0, 2)), false, 1);
    prev.pop_layer();
    prev.insert_primitive(Primitive::Quad(item()), false, 2);
    let (quads, shadows, sprites) = (prev.quads.clone(), prev.shadows.clone(), prev.monochrome_sprites.clone());
    prev.finish();
    // the recorded orders: quad 3, layer 7, the two layered primitives 7, end, quad 2
    let mut scene = Scene::new();
    scene.replay(0..prev.len(), &prev, &[3, 7, 7, 7, 0, 2]);
    assert_eq!(scene.len(), prev.len());
    assert_eq!(scene.quads, quads);
    assert_eq!(scene.shadows, shadows);
    assert_eq!(scene.monochrome_sprites, sprites);
}

#[test]
fn large_scenes_sort_stably() {
    let mut scene = Scene::new();
    let mut seed = 7u32;
    for _ in 0..200 {
        seed = seed.wrapping_mul(1103515245).wrapping_add(12345);
        scene.insert_primitive(Primitive::Quad(item()), false, (seed >> 16) % 13);
    }
    scene.finish();
    for pair in scene.quads.windows(2) {
        assert!(pair[0].order <= pair[1].order);
        if pair[0].order == pair[1].order {
            assert!(pair[0].id < pair[1].id);
        }
    }
    assert_eq!(scene.quads.len(), 200);
}
