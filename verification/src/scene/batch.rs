//! Splitting the scene's sorted primitive arrays into batches that can be
//! drawn with one draw call each.
//!
//! All arrays are walked at once. At each step the kind whose next primitive
//! comes first (by draw order, then by kind) starts a batch, which extends
//! over the following primitives of that kind that still come before the next
//! primitive of any other kind (and, for sprites, share the first one's
//! texture).

use super::{AtlasTextureId, DrawItem, PrimitiveBatch, PrimitiveKind, Scene, SpriteItem};
use std::ops::Range;
use vstd::prelude::*;

verus! {

/// The position reached in each primitive array.
#[derive(Clone, Copy, Debug, PartialEq, Eq, Structural)]
pub struct BatchCounter {
    pub shadows_index: usize,
    pub quads_index: usize,
    pub paths_index: usize,
    pub underlines_index: usize,
    pub monochrome_sprites_index: usize,
    pub subpixel_sprites_index: usize,
    pub polychrome_sprites_index: usize,
    pub surfaces_index: usize,
}

impl PrimitiveBatch {
    /// The kind of primitives the batch draws.
    pub open spec fn kind(self) -> PrimitiveKind {
        match self {
            PrimitiveBatch::Shadows(_) => PrimitiveKind::Shadow,
            PrimitiveBatch::Quads(_) => PrimitiveKind::Quad,
            PrimitiveBatch::Paths(_) => PrimitiveKind::Path,
            PrimitiveBatch::Underlines(_) => PrimitiveKind::Underline,
            PrimitiveBatch::MonochromeSprites { .. } => PrimitiveKind::MonochromeSprite,
            PrimitiveBatch::SubpixelSprites { .. } => PrimitiveKind::SubpixelSprite,
            PrimitiveBatch::PolychromeSprites { .. } => PrimitiveKind::PolychromeSprite,
            PrimitiveBatch::Surfaces(_) => PrimitiveKind::Surface,
        }
    }

    /// The atlas texture a sprite batch samples from; `None` for the other
    /// kinds.
    pub open spec fn texture(self) -> Option<AtlasTextureId> {
        match self {
            PrimitiveBatch::MonochromeSprites { texture_id, .. } => Some(texture_id),
            PrimitiveBatch::SubpixelSprites { texture_id, .. } => Some(texture_id),
            PrimitiveBatch::PolychromeSprites { texture_id, .. } => Some(texture_id),
            _ => None,
        }
    }

    /// The range of the batch in the array of its kind.
    pub open spec fn range(self) -> Range<usize> {
        match self {
            PrimitiveBatch::Shadows(r) => r,
            PrimitiveBatch::Quads(r) => r,
            PrimitiveBatch::Paths(r) => r,
            PrimitiveBatch::Underlines(r) => r,
            PrimitiveBatch::MonochromeSprites { range, .. } => range,
            PrimitiveBatch::SubpixelSprites { range, .. } => range,
            PrimitiveBatch::PolychromeSprites { range, .. } => range,
            PrimitiveBatch::Surfaces(r) => r,
        }
    }
}

/// The ranges of the batches of kind `k` in `batches`, in order.
pub open spec fn kind_ranges(batches: Seq<PrimitiveBatch>, k: PrimitiveKind) -> Seq<Range<usize>>
    decreases batches.len(),
{
    if batches.len() == 0 {
        Seq::empty()
    } else if batches[0].kind() == k {
        seq![batches[0].range()] + kind_ranges(batches.drop_first(), k)
    } else {
        kind_ranges(batches.drop_first(), k)
    }
}

/// The non-empty ranges `rs` follow each other without gap from `from` to
/// `to`.
pub open spec fn tiles(rs: Seq<Range<usize>>, from: int, to: int) -> bool
    decreases rs.len(),
{
    if rs.len() == 0 {
        from == to
    } else {
        &&& rs[0].start == from
        &&& rs[0].start < rs[0].end
        &&& tiles(rs.drop_first(), rs[0].end as int, to)
    }
}

impl BatchCounter {
    /// The position reached in the array of kind `k`.
    pub open spec fn at(self, k: PrimitiveKind) -> int {
        match k {
            PrimitiveKind::Shadow => self.shadows_index as int,
            PrimitiveKind::Quad => self.quads_index as int,
            PrimitiveKind::Path => self.paths_index as int,
            PrimitiveKind::Underline => self.underlines_index as int,
            PrimitiveKind::MonochromeSprite => self.monochrome_sprites_index as int,
            PrimitiveKind::SubpixelSprite => self.subpixel_sprites_index as int,
            PrimitiveKind::PolychromeSprite => self.polychrome_sprites_index as int,
            PrimitiveKind::Surface => self.surfaces_index as int,
        }
    }

    /// The counter with the position of kind `k` replaced by `v`.
    pub open spec fn with(self, k: PrimitiveKind, v: usize) -> BatchCounter {
        match k {
            PrimitiveKind::Shadow => BatchCounter { shadows_index: v, ..self },
            PrimitiveKind::Quad => BatchCounter { quads_index: v, ..self },
            PrimitiveKind::Path => BatchCounter { paths_index: v, ..self },
            PrimitiveKind::Underline => BatchCounter { underlines_index: v, ..self },
            PrimitiveKind::MonochromeSprite => BatchCounter { monochrome_sprites_index: v, ..self },
            PrimitiveKind::SubpixelSprite => BatchCounter { subpixel_sprites_index: v, ..self },
            PrimitiveKind::PolychromeSprite => BatchCounter { polychrome_sprites_index: v, ..self },
            PrimitiveKind::Surface => BatchCounter { surfaces_index: v, ..self },
        }
    }

    /// The counter at the start of every array.
    pub open spec fn start() -> BatchCounter {
        BatchCounter {
            shadows_index: 0,
            quads_index: 0,
            paths_index: 0,
            underlines_index: 0,
            monochrome_sprites_index: 0,
            subpixel_sprites_index: 0,
            polychrome_sprites_index: 0,
            surfaces_index: 0,
        }
    }

    /// A counter at the start of every array.
    pub fn new() -> (counter: Self)
        ensures
            counter == BatchCounter::start(),
    {
        BatchCounter {
            shadows_index: 0,
            quads_index: 0,
            paths_index: 0,
            underlines_index: 0,
            monochrome_sprites_index: 0,
            subpixel_sprites_index: 0,
            polychrome_sprites_index: 0,
            surfaces_index: 0,
        }
    }
}

/// `u32::MAX`, the draw order that an exhausted array counts as.
pub open spec fn order_max() -> int {
    0xffff_ffff
}

/// The first index from `j` on at which a run of draw items of rank `rank`
/// stops: the end of `items`, or an item whose key is not below `bound`.
pub open spec fn draw_run_end(items: Seq<DrawItem>, j: int, rank: int, bound: int) -> int
    decreases items.len() - j,
{
    if 0 <= j < items.len() && items[j].order * 8 + rank < bound {
        draw_run_end(items, j + 1, rank, bound)
    } else {
        j
    }
}

/// The first index from `j` on at which a run of sprites of rank `rank` on
/// texture `texture` stops.
pub open spec fn sprite_run_end(
    items: Seq<SpriteItem>,
    j: int,
    rank: int,
    bound: int,
    texture: AtlasTextureId,
) -> int
    decreases items.len() - j,
{
    if 0 <= j < items.len() && items[j].order * 8 + rank < bound && items[j].tile.texture_id
        == texture {
        sprite_run_end(items, j + 1, rank, bound, texture)
    } else {
        j
    }
}

proof fn lemma_draw_run_end_bounds(items: Seq<DrawItem>, j: int, rank: int, bound: int)
    requires
        0 <= j <= items.len(),
    ensures
        j <= draw_run_end(items, j, rank, bound) <= items.len(),
    decreases items.len() - j,
{
    if j < items.len() && items[j].order * 8 + rank < bound {
        lemma_draw_run_end_bounds(items, j + 1, rank, bound);
    }
}

proof fn lemma_sprite_run_end_bounds(
    items: Seq<SpriteItem>,
    j: int,
    rank: int,
    bound: int,
    texture: AtlasTextureId,
)
    requires
        0 <= j <= items.len(),
    ensures
        j <= sprite_run_end(items, j, rank, bound, texture) <= items.len(),
    decreases items.len() - j,
{
    if j < items.len() && items[j].order * 8 + rank < bound && items[j].tile.texture_id == texture {
        lemma_sprite_run_end_bounds(items, j + 1, rank, bound, texture);
    }
}

/// Extends a run of draw items from `start`.
fn draw_run(items: &Vec<DrawItem>, start: usize, rank: u64, bound: u64) -> (end: usize)
    requires
        start < items@.len(),
        rank < 8,
    ensures
        end == draw_run_end(items@, start + 1, rank as int, bound as int),
        start < end <= items@.len(),
{
    let len = items.len();
    let mut j: usize = start + 1;
    proof {
        lemma_draw_run_end_bounds(items@, start + 1, rank as int, bound as int);
    }
    while j < items.len() && (items[j].order as u64) * 8 + rank < bound
        invariant
            start + 1 <= j <= items@.len(),
            rank < 8,
            draw_run_end(items@, start + 1, rank as int, bound as int) == draw_run_end(
                items@,
                j as int,
                rank as int,
                bound as int,
            ),
        decreases items@.len() - j,
    {
        j = j + 1;
    }
    j
}

/// Extends a run of sprites on texture `texture` from `start`.
fn sprite_run(
    items: &Vec<SpriteItem>,
    start: usize,
    rank: u64,
    bound: u64,
    texture: AtlasTextureId,
) -> (end: usize)
    requires
        start < items@.len(),
        rank < 8,
    ensures
        end == sprite_run_end(items@, start + 1, rank as int, bound as int, texture),
        start < end <= items@.len(),
{
    let len = items.len();
    let mut j: usize = start + 1;
    proof {
        lemma_sprite_run_end_bounds(items@, start + 1, rank as int, bound as int, texture);
    }
    while j < items.len() && (items[j].order as u64) * 8 + rank < bound && items[j].tile.texture_id
        == texture
        invariant
            start + 1 <= j <= items@.len(),
            rank < 8,
            sprite_run_end(items@, start + 1, rank as int, bound as int, texture) == sprite_run_end(
                items@,
                j as int,
                rank as int,
                bound as int,
                texture,
            ),
        decreases items@.len() - j,
    {
        j = j + 1;
    }
    j
}

/// The key of the next draw item at `index`, or of an exhausted array.
fn draw_head_key(items: &Vec<DrawItem>, index: usize, rank: u64) -> (key: u64)
    requires
        rank < 8,
    ensures
        key == (if index < items@.len() {
            items@[index as int].order as int
        } else {
            order_max()
        }) * 8 + rank,
{
    if index < items.len() {
        (items[index].order as u64) * 8 + rank
    } else {
        0xffff_ffffu64 * 8 + rank
    }
}

/// The key of the next sprite at `index`, or of an exhausted array.
fn sprite_head_key(items: &Vec<SpriteItem>, index: usize, rank: u64) -> (key: u64)
    requires
        rank < 8,
    ensures
        key == (if index < items@.len() {
            items@[index as int].order as int
        } else {
            order_max()
        }) * 8 + rank,
{
    if index < items.len() {
        (items[index].order as u64) * 8 + rank
    } else {
        0xffff_ffffu64 * 8 + rank
    }
}

proof fn lemma_rank_roundtrip()
    ensures
        forall|k: PrimitiveKind| #[trigger] PrimitiveKind::of_rank(k.rank()) == k,
        forall|k: PrimitiveKind| 0 <= #[trigger] k.rank() < 8,
{
}

proof fn lemma_rank_of_rank(r: int)
    requires
        0 <= r < 8,
    ensures
        PrimitiveKind::of_rank(r).rank() == r,
{
}

/// Indices of the smallest and of the second smallest of eight distinct keys.
fn first_two(keys: &[u64; 8]) -> (res: (usize, usize))
    ensures
        res.0 < 8,
        res.1 < 8,
        res.0 != res.1,
        forall|q: int| 0 <= q < 8 ==> keys@[res.0 as int] <= #[trigger] keys@[q],
        forall|q: int| 0 <= q < 8 && q != res.0 ==> keys@[res.1 as int] <= #[trigger] keys@[q],
{
    let mut first: usize = 0;
    let mut r: usize = 1;
    while r < 8
        invariant
            first < 8,
            1 <= r <= 8,
            forall|q: int| 0 <= q < r ==> keys@[first as int] <= #[trigger] keys@[q],
        decreases 8 - r,
    {
        if keys[r] < keys[first] {
            first = r;
        }
        r = r + 1;
    }
    let mut second: usize = if first == 0 {
        1
    } else {
        0
    };
    let mut r: usize = 0;
    while r < 8
        invariant
            first < 8,
            second < 8,
            second != first,
            0 <= r <= 8,
            forall|q: int| 0 <= q < 8 ==> keys@[first as int] <= #[trigger] keys@[q],
            forall|q: int| 0 <= q < r && q != first ==> keys@[second as int] <= #[trigger] keys@[q],
        decreases 8 - r,
    {
        if r != first && keys[r] < keys[second] {
            second = r;
        }
        r = r + 1;
    }
    (first, second)
}

impl BatchCounter {
    /// Produces the batch that starts at the counter and moves the counter
    /// past it; `None` when no batch is left (see `Scene::next_batch_at`).
    pub fn next_batch(&mut self, scene: &Scene) -> (batch: Option<PrimitiveBatch>)
        ensures
            match scene.next_batch_at(*old(self)) {
                None => batch is None && *final(self) == *old(self),
                Some((b, c)) => batch == Some(b) && *final(self) == c,
            },
    {
        let ghost c = *self;
        let keys: [u64; 8] = [
            draw_head_key(&scene.shadows, self.shadows_index, 0),
            draw_head_key(&scene.quads, self.quads_index, 1),
            draw_head_key(&scene.paths, self.paths_index, 2),
            draw_head_key(&scene.underlines, self.underlines_index, 3),
            sprite_head_key(&scene.monochrome_sprites, self.monochrome_sprites_index, 4),
            sprite_head_key(&scene.subpixel_sprites, self.subpixel_sprites_index, 5),
            sprite_head_key(&scene.polychrome_sprites, self.polychrome_sprites_index, 6),
            draw_head_key(&scene.surfaces, self.surfaces_index, 7),
        ];
        proof {
            assert forall|k: PrimitiveKind| keys@[k.rank()] == #[trigger] scene.head_key(c, k) by {
                match k {
                    PrimitiveKind::Shadow => {},
                    PrimitiveKind::Quad => {},
                    PrimitiveKind::Path => {},
                    PrimitiveKind::Underline => {},
                    PrimitiveKind::MonochromeSprite => {},
                    PrimitiveKind::SubpixelSprite => {},
                    PrimitiveKind::PolychromeSprite => {},
                    PrimitiveKind::Surface => {},
                }
            }
        }
        let (first, second) = first_two(&keys);
        let bound = keys[second];
        proof {
            lemma_rank_roundtrip();
            lemma_rank_of_rank(first as int);
            lemma_rank_of_rank(second as int);
            let f = PrimitiveKind::of_rank(first as int);
            let s = PrimitiveKind::of_rank(second as int);
            assert(keys@[f.rank()] == scene.head_key(c, f));
            assert(keys@[s.rank()] == scene.head_key(c, s));
            assert forall|k2: PrimitiveKind| scene.head_key(c, f) <= #[trigger] scene.head_key(c, k2) by {
                assert(keys@[k2.rank()] == scene.head_key(c, k2));
            }
            assert(scene.is_first(c, f));
            scene.lemma_first_unique(c, f, scene.first_kind(c));
            assert(f == scene.first_kind(c));
            assert(s != f);
            assert forall|k2: PrimitiveKind| k2 != f implies scene.head_key(c, s) <= #[trigger] scene.head_key(c, k2) by {
                assert(keys@[k2.rank()] == scene.head_key(c, k2));
                assert(k2.rank() != first);
            }
            assert(scene.is_second(c, f, s));
            scene.lemma_second_unique(c, f, s, scene.second_kind(c));
            assert(s == scene.second_kind(c));
            assert(bound == scene.head_key(c, scene.second_kind(c)));
        }
        if first == 0 {
            if self.shadows_index >= scene.shadows.len() {
                return None;
            }
            let start = self.shadows_index;
            let end = draw_run(&scene.shadows, start, 0, bound);
            self.shadows_index = end;
            Some(PrimitiveBatch::Shadows(start..end))
        } else if first == 1 {
            if self.quads_index >= scene.quads.len() {
                return None;
            }
            let start = self.quads_index;
            let end = draw_run(&scene.quads, start, 1, bound);
            self.quads_index = end;
            Some(PrimitiveBatch::Quads(start..end))
        } else if first == 2 {
            if self.paths_index >= scene.paths.len() {
                return None;
            }
            let start = self.paths_index;
            let end = draw_run(&scene.paths, start, 2, bound);
            self.paths_index = end;
            Some(PrimitiveBatch::Paths(start..end))
        } else if first == 3 {
            if self.underlines_index >= scene.underlines.len() {
                return None;
            }
            let start = self.underlines_index;
            let end = draw_run(&scene.underlines, start, 3, bound);
            self.underlines_index = end;
            Some(PrimitiveBatch::Underlines(start..end))
        } else if first == 4 {
            if self.monochrome_sprites_index >= scene.monochrome_sprites.len() {
                return None;
            }
            let start = self.monochrome_sprites_index;
            let texture_id = scene.monochrome_sprites[start].tile.texture_id;
            let end = sprite_run(&scene.monochrome_sprites, start, 4, bound, texture_id);
            self.monochrome_sprites_index = end;
            Some(PrimitiveBatch::MonochromeSprites { texture_id, range: start..end })
        } else if first == 5 {
            if self.subpixel_sprites_index >= scene.subpixel_sprites.len() {
                return None;
            }
            let start = self.subpixel_sprites_index;
            let texture_id = scene.subpixel_sprites[start].tile.texture_id;
            let end = sprite_run(&scene.subpixel_sprites, start, 5, bound, texture_id);
            self.subpixel_sprites_index = end;
            Some(PrimitiveBatch::SubpixelSprites { texture_id, range: start..end })
        } else if first == 6 {
            if self.polychrome_sprites_index >= scene.polychrome_sprites.len() {
                return None;
            }
            let start = self.polychrome_sprites_index;
            let texture_id = scene.polychrome_sprites[start].tile.texture_id;
            let end = sprite_run(&scene.polychrome_sprites, start, 6, bound, texture_id);
            self.polychrome_sprites_index = end;
            Some(PrimitiveBatch::PolychromeSprites { texture_id, range: start..end })
        } else {
            if self.surfaces_index >= scene.surfaces.len() {
                return None;
            }
            let start = self.surfaces_index;
            let end = draw_run(&scene.surfaces, start, 7, bound);
            self.surfaces_index = end;
            Some(PrimitiveBatch::Surfaces(start..end))
        }
    }

    /// Moves the counter past the next batch; `false` when no batch is left.
    pub fn advance(&mut self, scene: &Scene) -> (advanced: bool)
        ensures
            match scene.next_batch_at(*old(self)) {
                None => !advanced && *final(self) == *old(self),
                Some((b, c)) => advanced && *final(self) == c,
            },
    {
        self.next_batch(scene).is_some()
    }
}

impl Scene {
    /// Whether the array of kind `k` still has a primitive at the counter.
    pub closed spec fn has_head(&self, c: BatchCounter, k: PrimitiveKind) -> bool {
        0 <= c.at(k) < self.kind_len(k)
    }

    /// The key of the next primitive of kind `k`: its draw order (or
    /// `u32::MAX` when the array is exhausted) and then the kind's rank.
    pub closed spec fn head_key(&self, c: BatchCounter, k: PrimitiveKind) -> int {
        (if self.has_head(c, k) {
            self.order_at(k, c.at(k)) as int
        } else {
            order_max()
        }) * 8 + k.rank()
    }

    /// `k` has the smallest head key.
    pub closed spec fn is_first(&self, c: BatchCounter, k: PrimitiveKind) -> bool {
        forall|k2: PrimitiveKind| self.head_key(c, k) <= #[trigger] self.head_key(c, k2)
    }

    /// `k` has the smallest head key apart from that of `f`.
    pub closed spec fn is_second(&self, c: BatchCounter, f: PrimitiveKind, k: PrimitiveKind) -> bool {
        k != f && forall|k2: PrimitiveKind| k2 != f ==> self.head_key(c, k) <= #[trigger] self.head_key(c, k2)
    }

    /// The kind with the smallest head key.
    pub closed spec fn first_kind(&self, c: BatchCounter) -> PrimitiveKind {
        choose|k: PrimitiveKind| self.is_first(c, k)
    }

    /// The kind with the second smallest head key.
    pub closed spec fn second_kind(&self, c: BatchCounter) -> PrimitiveKind {
        choose|k: PrimitiveKind| self.is_second(c, self.first_kind(c), k)
    }

    /// The batch that starts at the counter, and the counter after it; `None`
    /// when the kind that comes first has no primitive left.
    pub closed spec fn next_batch_at(&self, c: BatchCounter) -> Option<(PrimitiveBatch, BatchCounter)> {
        let f = self.first_kind(c);
        if !self.has_head(c, f) {
            None
        } else {
            let bound = self.head_key(c, self.second_kind(c));
            let start = c.at(f);
            match f {
                PrimitiveKind::Shadow => {
                    let end = draw_run_end(self.shadows@, start + 1, 0, bound);
                    Some((PrimitiveBatch::Shadows(start as usize..end as usize), c.with(f, end as usize)))
                },
                PrimitiveKind::Quad => {
                    let end = draw_run_end(self.quads@, start + 1, 1, bound);
                    Some((PrimitiveBatch::Quads(start as usize..end as usize), c.with(f, end as usize)))
                },
                PrimitiveKind::Path => {
                    let end = draw_run_end(self.paths@, start + 1, 2, bound);
                    Some((PrimitiveBatch::Paths(start as usize..end as usize), c.with(f, end as usize)))
                },
                PrimitiveKind::Underline => {
                    let end = draw_run_end(self.underlines@, start + 1, 3, bound);
                    Some((PrimitiveBatch::Underlines(start as usize..end as usize), c.with(f, end as usize)))
                },
                PrimitiveKind::MonochromeSprite => {
                    let texture_id = self.monochrome_sprites@[start].tile.texture_id;
                    let end = sprite_run_end(self.monochrome_sprites@, start + 1, 4, bound, texture_id);
                    Some((
                        PrimitiveBatch::MonochromeSprites { texture_id, range: start as usize..end as usize },
                        c.with(f, end as usize),
                    ))
                },
                PrimitiveKind::SubpixelSprite => {
                    let texture_id = self.subpixel_sprites@[start].tile.texture_id;
                    let end = sprite_run_end(self.subpixel_sprites@, start + 1, 5, bound, texture_id);
                    Some((
                        PrimitiveBatch::SubpixelSprites { texture_id, range: start as usize..end as usize },
                        c.with(f, end as usize),
                    ))
                },
                PrimitiveKind::PolychromeSprite => {
                    let texture_id = self.polychrome_sprites@[start].tile.texture_id;
                    let end = sprite_run_end(self.polychrome_sprites@, start + 1, 6, bound, texture_id);
                    Some((
                        PrimitiveBatch::PolychromeSprites { texture_id, range: start as usize..end as usize },
                        c.with(f, end as usize),
                    ))
                },
                PrimitiveKind::Surface => {
                    let end = draw_run_end(self.surfaces@, start + 1, 7, bound);
                    Some((PrimitiveBatch::Surfaces(start as usize..end as usize), c.with(f, end as usize)))
                },
            }
        }
    }

    /// All batches of the scene, in drawing order.
    pub fn batches(&self) -> (batches: Vec<PrimitiveBatch>)
        ensures
            batches@ == self.spec_batches(),
    {
        let mut counter = BatchCounter::new();
        let mut batches: Vec<PrimitiveBatch> = Vec::new();
        let mut done = false;
        while !done
            invariant
                batches@ + self.batch_seq(counter) == self.spec_batches(),
                done ==> self.batch_seq(counter) == Seq::<PrimitiveBatch>::empty(),
            decreases self.remaining(counter) + (if done {
                0int
            } else {
                1int
            }),
        {
            let ghost before = counter;
            proof {
                self.lemma_next_batch_progress(before);
            }
            match counter.next_batch(self) {
                None => {
                    done = true;
                },
                Some(batch) => {
                    let ghost bs = batches@;
                    batches.push(batch);
                    assert(self.batch_seq(before) == seq![batch] + self.batch_seq(counter));
                    assert(batches@ + self.batch_seq(counter) =~= bs + self.batch_seq(before));
                },
            }
        }
        assert(batches@ =~= batches@ + self.batch_seq(counter));
        batches
    }

    /// Number of batches of the scene, saturating at `u32::MAX`.
    pub fn total_batch_count(&self) -> (count: u32)
        ensures
            count == (if self.spec_batches().len() < u32::MAX {
                self.spec_batches().len() as int
            } else {
                u32::MAX as int
            }),
    {
        let mut counter = BatchCounter::new();
        let mut count: u32 = 0;
        let mut done = false;
        let ghost mut produced: int = 0;
        while !done
            invariant
                0 <= produced,
                produced + self.batch_seq(counter).len() == self.spec_batches().len(),
                count == (if produced < u32::MAX {
                    produced
                } else {
                    u32::MAX as int
                }),
                done ==> self.batch_seq(counter).len() == 0,
            decreases self.remaining(counter) + (if done {
                0int
            } else {
                1int
            }),
        {
            let ghost before = counter;
            proof {
                self.lemma_next_batch_progress(before);
            }
            if counter.advance(self) {
                count = count.saturating_add(1);
                proof {
                    produced = produced + 1;
                }
            } else {
                done = true;
            }
        }
        count
    }

    /// Primitives left after the counter, over all arrays.
    pub closed spec fn remaining(&self, c: BatchCounter) -> int {
        self.left(c, PrimitiveKind::Shadow) + self.left(c, PrimitiveKind::Quad) + self.left(
            c,
            PrimitiveKind::Path,
        ) + self.left(c, PrimitiveKind::Underline) + self.left(c, PrimitiveKind::MonochromeSprite)
            + self.left(c, PrimitiveKind::SubpixelSprite) + self.left(
            c,
            PrimitiveKind::PolychromeSprite,
        ) + self.left(c, PrimitiveKind::Surface)
    }

    /// Primitives of kind `k` left after the counter.
    pub closed spec fn left(&self, c: BatchCounter, k: PrimitiveKind) -> int {
        if c.at(k) < self.kind_len(k) {
            self.kind_len(k) - c.at(k)
        } else {
            0
        }
    }

    /// The batches produced from the counter on, in drawing order.
    pub closed spec fn batch_seq(&self, c: BatchCounter) -> Seq<PrimitiveBatch>
        decreases self.remaining(c),
    {
        match self.next_batch_at(c) {
            None => Seq::empty(),
            Some((b, c2)) => {
                proof {
                    self.lemma_next_batch_progress(c);
                }
                seq![b] + self.batch_seq(c2)
            },
        }
    }

    /// All batches of the scene, in drawing order.
    pub closed spec fn spec_batches(&self) -> Seq<PrimitiveBatch> {
        self.batch_seq(BatchCounter::start())
    }

    #[verifier::spinoff_prover]
    #[verifier::rlimit(60)]
    proof fn lemma_batch_seq_same_primitives(&self, other: &Scene, c: BatchCounter)
        requires
            self.same_primitives(other),
        ensures
            self.batch_seq(c) == other.batch_seq(c),
        decreases self.remaining(c),
    {
        assert(self.shadows@ == other.shadows@ && self.quads@ == other.quads@ && self.paths@
            == other.paths@ && self.underlines@ == other.underlines@);
        assert(self.monochrome_sprites@ == other.monochrome_sprites@ && self.subpixel_sprites@
            == other.subpixel_sprites@ && self.polychrome_sprites@ == other.polychrome_sprites@
            && self.surfaces@ == other.surfaces@);
        assert(forall|k: PrimitiveKind| #[trigger] self.kind_len(k) == other.kind_len(k));
        assert(forall|k: PrimitiveKind, i: int| #[trigger] self.order_at(k, i) == other.order_at(k, i));
        assert(forall|k: PrimitiveKind| #[trigger] self.head_key(c, k) == other.head_key(c, k));
        assert forall|k: PrimitiveKind| #[trigger] self.is_first(c, k) == other.is_first(c, k) by {
            if self.is_first(c, k) {
                assert forall|k2: PrimitiveKind| other.head_key(c, k) <= #[trigger] other.head_key(c, k2) by {
                    assert(self.head_key(c, k) <= self.head_key(c, k2));
                }
            }
            if other.is_first(c, k) {
                assert forall|k2: PrimitiveKind| self.head_key(c, k) <= #[trigger] self.head_key(c, k2) by {
                    assert(other.head_key(c, k) <= other.head_key(c, k2));
                }
            }
        }
        self.lemma_first_exists(c);
        other.lemma_first_exists(c);
        self.lemma_first_unique(c, self.first_kind(c), other.first_kind(c));
        assert(self.first_kind(c) == other.first_kind(c));
        let f = self.first_kind(c);
        assert forall|k: PrimitiveKind| #[trigger] self.is_second(c, f, k) == other.is_second(c, f, k) by {
            if self.is_second(c, f, k) {
                assert forall|k2: PrimitiveKind| k2 != f implies other.head_key(c, k) <= #[trigger] other.head_key(c, k2) by {
                    assert(self.head_key(c, k) <= self.head_key(c, k2));
                }
            }
            if other.is_second(c, f, k) {
                assert forall|k2: PrimitiveKind| k2 != f implies self.head_key(c, k) <= #[trigger] self.head_key(c, k2) by {
                    assert(other.head_key(c, k) <= other.head_key(c, k2));
                }
            }
        }
        self.lemma_second_exists(c);
        other.lemma_second_exists(c);
        self.lemma_second_unique(c, f, self.second_kind(c), other.second_kind(c));
        assert(self.second_kind(c) == other.second_kind(c));
        assert(self.next_batch_at(c) == other.next_batch_at(c));
        self.lemma_next_batch_progress(c);
        match self.next_batch_at(c) {
            None => {},
            Some((b, c2)) => {
                self.lemma_batch_seq_same_primitives(other, c2);
            },
        }
    }

    /// The batches of a scene depend only on its primitive arrays.
    pub proof fn lemma_batches_same_primitives(&self, other: &Scene)
        requires
            self.same_primitives(other),
        ensures
            self.spec_batches() == other.spec_batches(),
    {
        self.lemma_batch_seq_same_primitives(other, BatchCounter::start());
    }

    /// The kind of smallest head key among the kinds of rank below `n`,
    /// skipping `skip` (a kind of rank 8 or more skips nothing).
    pub closed spec fn min_kind_below(&self, c: BatchCounter, n: int, skip: int) -> int
        decreases n,
    {
        if n <= 0 {
            -1
        } else {
            let prev = self.min_kind_below(c, n - 1, skip);
            let k = PrimitiveKind::of_rank(n - 1);
            if n - 1 == skip {
                prev
            } else if prev < 0 || self.head_key(c, k) < self.head_key(c, PrimitiveKind::of_rank(prev)) {
                n - 1
            } else {
                prev
            }
        }
    }

    proof fn lemma_min_kind_below(&self, c: BatchCounter, n: int, skip: int)
        requires
            0 <= n <= 8,
            0 <= skip,
        ensures
            ({
                let m = self.min_kind_below(c, n, skip);
                &&& -1 <= m < n
                &&& m != skip
                &&& m < 0 ==> (n == 0 || (n == 1 && skip == 0))
                &&& m >= 0 ==> forall|r: int|
                    0 <= r < n && r != skip ==> self.head_key(c, PrimitiveKind::of_rank(m)) <= #[trigger] self.head_key(
                        c,
                        PrimitiveKind::of_rank(r),
                    )
            }),
        decreases n,
    {
        if n > 0 {
            self.lemma_min_kind_below(c, n - 1, skip);
            let prev = self.min_kind_below(c, n - 1, skip);
            let m = self.min_kind_below(c, n, skip);
            if m >= 0 {
                assert forall|r: int| 0 <= r < n && r != skip implies self.head_key(
                    c,
                    PrimitiveKind::of_rank(m),
                ) <= #[trigger] self.head_key(c, PrimitiveKind::of_rank(r)) by {
                    if r < n - 1 {
                        assert(prev >= 0);
                    }
                }
            }
        }
    }

    proof fn lemma_first_exists(&self, c: BatchCounter)
        ensures
            self.is_first(c, self.first_kind(c)),
    {
        self.lemma_min_kind_below(c, 8, 8);
        lemma_rank_roundtrip();
        let m = self.min_kind_below(c, 8, 8);
        assert(m >= 0) by {
            if m < 0 {
                assert(8 == 0 || 8 == 1);
            }
        }
        let k = PrimitiveKind::of_rank(m);
        assert forall|k2: PrimitiveKind| self.head_key(c, k) <= #[trigger] self.head_key(c, k2) by {
            assert(self.head_key(c, k) <= self.head_key(c, PrimitiveKind::of_rank(k2.rank())));
        }
        assert(self.is_first(c, k));
    }

    proof fn lemma_second_exists(&self, c: BatchCounter)
        ensures
            self.is_second(c, self.first_kind(c), self.second_kind(c)),
    {
        let f = self.first_kind(c);
        lemma_rank_roundtrip();
        self.lemma_min_kind_below(c, 8, f.rank());
        let m = self.min_kind_below(c, 8, f.rank());
        assert(m >= 0) by {
            if m < 0 {
                assert(8 == 0 || 8 == 1);
            }
        }
        let k = PrimitiveKind::of_rank(m);
        lemma_rank_of_rank(m);
        assert forall|k2: PrimitiveKind| k2 != f implies self.head_key(c, k) <= #[trigger] self.head_key(c, k2) by {
            assert(k2.rank() != f.rank());
            assert(self.head_key(c, k) <= self.head_key(c, PrimitiveKind::of_rank(k2.rank())));
        }
        assert(k.rank() != f.rank());
        assert(self.is_second(c, f, k));
    }

    /// Every draw order of the scene is below `u32::MAX`.
    pub closed spec fn orders_below_max(&self) -> bool {
        forall|k: PrimitiveKind, i: int| 0 <= i < self.kind_len(k) ==> #[trigger] self.order_at(k, i) < u32::MAX
    }

    #[verifier::spinoff_prover]
    #[verifier::rlimit(40)]
    proof fn lemma_next_batch_shape(&self, c: BatchCounter)
        ensures
            self.next_batch_at(c) matches Some((b, c2)) ==> {
                &&& b.kind() == self.first_kind(c)
                &&& b.range().start == c.at(self.first_kind(c))
                &&& b.range().start < b.range().end <= self.kind_len(self.first_kind(c))
                &&& c2 == c.with(self.first_kind(c), b.range().end)
            },
    {
        let f = self.first_kind(c);
        if self.has_head(c, f) {
            let bound = self.head_key(c, self.second_kind(c));
            let start = c.at(f);
            match f {
                PrimitiveKind::Shadow => lemma_draw_run_end_bounds(self.shadows@, start + 1, 0, bound),
                PrimitiveKind::Quad => lemma_draw_run_end_bounds(self.quads@, start + 1, 1, bound),
                PrimitiveKind::Path => lemma_draw_run_end_bounds(self.paths@, start + 1, 2, bound),
                PrimitiveKind::Underline => lemma_draw_run_end_bounds(self.underlines@, start + 1, 3, bound),
                PrimitiveKind::MonochromeSprite => lemma_sprite_run_end_bounds(
                    self.monochrome_sprites@,
                    start + 1,
                    4,
                    bound,
                    self.monochrome_sprites@[start].tile.texture_id,
                ),
                PrimitiveKind::SubpixelSprite => lemma_sprite_run_end_bounds(
                    self.subpixel_sprites@,
                    start + 1,
                    5,
                    bound,
                    self.subpixel_sprites@[start].tile.texture_id,
                ),
                PrimitiveKind::PolychromeSprite => lemma_sprite_run_end_bounds(
                    self.polychrome_sprites@,
                    start + 1,
                    6,
                    bound,
                    self.polychrome_sprites@[start].tile.texture_id,
                ),
                PrimitiveKind::Surface => lemma_draw_run_end_bounds(self.surfaces@, start + 1, 7, bound),
            }
        }
    }

    /// The counter at which batching from `c` stops.
    pub closed spec fn end_counter(&self, c: BatchCounter) -> BatchCounter
        decreases self.remaining(c),
    {
        match self.next_batch_at(c) {
            None => c,
            Some((b, c2)) => {
                proof {
                    self.lemma_next_batch_progress(c);
                }
                self.end_counter(c2)
            },
        }
    }

    proof fn lemma_stuck_at_max_order(&self, c: BatchCounter)
        requires
            forall|k: PrimitiveKind| 0 <= #[trigger] c.at(k) <= self.kind_len(k),
            self.next_batch_at(c) is None,
        ensures
            forall|k: PrimitiveKind|
                #[trigger] c.at(k) < self.kind_len(k) ==> self.order_at(k, c.at(k)) == u32::MAX,
    {
        self.lemma_first_exists(c);
        let f = self.first_kind(c);
        assert(!self.has_head(c, f));
        assert forall|k: PrimitiveKind| #[trigger] c.at(k) < self.kind_len(k) implies self.order_at(
            k,
            c.at(k),
        ) == u32::MAX by {
            assert(self.head_key(c, f) <= self.head_key(c, k));
            assert(k.rank() < 8 && f.rank() < 8 && 0 <= k.rank() && 0 <= f.rank()) by {
                lemma_rank_roundtrip();
            }
        }
    }

    proof fn lemma_batch_seq_tiles(&self, c: BatchCounter)
        requires
            forall|k: PrimitiveKind| 0 <= #[trigger] c.at(k) <= self.kind_len(k),
        ensures
            forall|k: PrimitiveKind|
                #[trigger] tiles(kind_ranges(self.batch_seq(c), k), c.at(k), self.end_counter(c).at(k)),
            forall|k: PrimitiveKind|
                c.at(k) <= #[trigger] self.end_counter(c).at(k) <= self.kind_len(k),
            forall|k: PrimitiveKind|
                #[trigger] self.end_counter(c).at(k) < self.kind_len(k) ==> self.order_at(
                    k,
                    self.end_counter(c).at(k),
                ) == u32::MAX,
        decreases self.remaining(c),
    {
        self.lemma_next_batch_progress(c);
        self.lemma_next_batch_shape(c);
        let f = self.first_kind(c);
        match self.next_batch_at(c) {
            None => {
                self.lemma_stuck_at_max_order(c);
                assert(self.batch_seq(c) == Seq::<PrimitiveBatch>::empty());
                assert(self.end_counter(c) == c);
                assert forall|k: PrimitiveKind| #[trigger] tiles(kind_ranges(self.batch_seq(c), k), c.at(k), self.end_counter(c).at(k)) by {
                    assert(kind_ranges(Seq::<PrimitiveBatch>::empty(), k) =~= Seq::<Range<usize>>::empty());
                }
            },
            Some((b, c2)) => {
                assert forall|k: PrimitiveKind| 0 <= #[trigger] c2.at(k) <= self.kind_len(k) by {
                    if k != f {
                        assert(c2.at(k) == c.at(k));
                    }
                }
                assert forall|k: PrimitiveKind| c.at(k) <= #[trigger] c2.at(k) by {
                    if k != f {
                        assert(c2.at(k) == c.at(k));
                    }
                }
                self.lemma_batch_seq_tiles(c2);
                assert(self.end_counter(c) == self.end_counter(c2));
                let rest = self.batch_seq(c2);
                assert(self.batch_seq(c) == seq![b] + rest);
                assert((seq![b] + rest).drop_first() =~= rest);
                assert forall|k: PrimitiveKind| #[trigger] tiles(kind_ranges(self.batch_seq(c), k), c.at(k), self.end_counter(c).at(k)) by {
                    assert(tiles(kind_ranges(rest, k), c2.at(k), self.end_counter(c2).at(k)));
                    if k == f {
                        let rs = kind_ranges(seq![b] + rest, k);
                        assert(rs == seq![b.range()] + kind_ranges(rest, k));
                        assert(rs.drop_first() =~= kind_ranges(rest, k));
                    } else {
                        assert(c2.at(k) == c.at(k));
                        assert(kind_ranges(seq![b] + rest, k) == kind_ranges(rest, k));
                    }
                }
                assert forall|k: PrimitiveKind|
                    c.at(k) <= #[trigger] self.end_counter(c).at(k) <= self.kind_len(k) by {
                    assert(c.at(k) <= c2.at(k));
                }
            },
        }
    }

    /// Where batching the whole scene stops.
    pub closed spec fn batches_end(&self) -> BatchCounter {
        self.end_counter(BatchCounter::start())
    }

    /// The batches cover each primitive array from its start, in array
    /// order: the ranges of the batches of a kind are non-empty and follow
    /// each other from 0 up to where batching stopped. Batching stops before
    /// the end of an array only at a primitive of draw order `u32::MAX`, so
    /// when no draw order is `u32::MAX` every primitive is covered exactly
    /// once.
    pub proof fn lemma_batches_cover_each_primitive_once(&self)
        ensures
            forall|k: PrimitiveKind|
                #[trigger] tiles(kind_ranges(self.spec_batches(), k), 0, self.batches_end().at(k)),
            forall|k: PrimitiveKind| 0 <= #[trigger] self.batches_end().at(k) <= self.kind_len(k),
            forall|k: PrimitiveKind|
                #[trigger] self.batches_end().at(k) < self.kind_len(k) ==> self.order_at(
                    k,
                    self.batches_end().at(k),
                ) == u32::MAX,
            self.orders_below_max() ==> forall|k: PrimitiveKind|
                #[trigger] tiles(kind_ranges(self.spec_batches(), k), 0, self.kind_len(k)),
    {
        let c = BatchCounter::start();
        assert forall|k: PrimitiveKind| 0 <= #[trigger] c.at(k) <= self.kind_len(k) by {}
        self.lemma_batch_seq_tiles(c);
        assert forall|k: PrimitiveKind|
            #[trigger] tiles(kind_ranges(self.spec_batches(), k), 0, self.batches_end().at(k)) by {
            assert(c.at(k) == 0);
        }
        assert forall|k: PrimitiveKind| 0 <= #[trigger] self.batches_end().at(k) <= self.kind_len(k) by {
            assert(c.at(k) == 0);
        }
        if self.orders_below_max() {
            assert forall|k: PrimitiveKind|
                #[trigger] tiles(kind_ranges(self.spec_batches(), k), 0, self.kind_len(k)) by {
                assert(c.at(k) == 0);
                if self.batches_end().at(k) < self.kind_len(k) {
                    assert(self.order_at(k, self.batches_end().at(k)) < u32::MAX);
                }
            }
        }
    }

    proof fn lemma_first_unique(&self, c: BatchCounter, k1: PrimitiveKind, k2: PrimitiveKind)
        requires
            self.is_first(c, k1),
            self.is_first(c, k2),
        ensures
            k1 == k2,
    {
        assert(self.head_key(c, k1) <= self.head_key(c, k2));
        assert(self.head_key(c, k2) <= self.head_key(c, k1));
        lemma_rank_roundtrip();
        assert(k1.rank() == k2.rank());
        assert(PrimitiveKind::of_rank(k1.rank()) == k1);
    }

    proof fn lemma_second_unique(
        &self,
        c: BatchCounter,
        f: PrimitiveKind,
        k1: PrimitiveKind,
        k2: PrimitiveKind,
    )
        requires
            self.is_second(c, f, k1),
            self.is_second(c, f, k2),
        ensures
            k1 == k2,
    {
        assert(self.head_key(c, k1) <= self.head_key(c, k2));
        assert(self.head_key(c, k2) <= self.head_key(c, k1));
        lemma_rank_roundtrip();
        assert(k1.rank() == k2.rank());
        assert(PrimitiveKind::of_rank(k1.rank()) == k1);
    }

    #[verifier::spinoff_prover]
    #[verifier::rlimit(40)]
    proof fn lemma_next_batch_progress(&self, c: BatchCounter)
        ensures
            self.next_batch_at(c) matches Some((b, c2)) ==> self.remaining(c2) < self.remaining(c),
    {
        let f = self.first_kind(c);
        if self.has_head(c, f) {
            let bound = self.head_key(c, self.second_kind(c));
            let start = c.at(f);
            match f {
                PrimitiveKind::Shadow => lemma_draw_run_end_bounds(self.shadows@, start + 1, 0, bound),
                PrimitiveKind::Quad => lemma_draw_run_end_bounds(self.quads@, start + 1, 1, bound),
                PrimitiveKind::Path => lemma_draw_run_end_bounds(self.paths@, start + 1, 2, bound),
                PrimitiveKind::Underline => lemma_draw_run_end_bounds(self.underlines@, start + 1, 3, bound),
                PrimitiveKind::MonochromeSprite => lemma_sprite_run_end_bounds(
                    self.monochrome_sprites@,
                    start + 1,
                    4,
                    bound,
                    self.monochrome_sprites@[start].tile.texture_id,
                ),
                PrimitiveKind::SubpixelSprite => lemma_sprite_run_end_bounds(
                    self.subpixel_sprites@,
                    start + 1,
                    5,
                    bound,
                    self.subpixel_sprites@[start].tile.texture_id,
                ),
                PrimitiveKind::PolychromeSprite => lemma_sprite_run_end_bounds(
                    self.polychrome_sprites@,
                    start + 1,
                    6,
                    bound,
                    self.polychrome_sprites@[start].tile.texture_id,
                ),
                PrimitiveKind::Surface => lemma_draw_run_end_bounds(self.surfaces@, start + 1, 7, bound),
            }
        }
    }
}


proof fn lemma_draw_run_below(items: Seq<DrawItem>, j: int, rank: int, bound: int)
    requires
        0 <= j,
    ensures
        forall|i: int|
            j <= i < draw_run_end(items, j, rank, bound) ==> (#[trigger] items[i]).order * 8 + rank
                < bound,
    decreases items.len() - j,
{
    if 0 <= j < items.len() && items[j].order * 8 + rank < bound {
        lemma_draw_run_below(items, j + 1, rank, bound);
    }
}

proof fn lemma_sprite_run_below(
    items: Seq<SpriteItem>,
    j: int,
    rank: int,
    bound: int,
    texture: AtlasTextureId,
)
    requires
        0 <= j,
    ensures
        forall|i: int|
            j <= i < sprite_run_end(items, j, rank, bound, texture) ==> (#[trigger] items[i]).order
                * 8 + rank < bound,
    decreases items.len() - j,
{
    if 0 <= j < items.len() && items[j].order * 8 + rank < bound && items[j].tile.texture_id
        == texture {
        lemma_sprite_run_below(items, j + 1, rank, bound, texture);
    }
}

impl Scene {
    /// Every primitive of an earlier batch of `bs` has a painting key no
    /// greater than that of every primitive of a later batch.
    pub open spec fn in_paint_order(&self, bs: Seq<PrimitiveBatch>) -> bool {
        forall|a: int, b: int, i: int, j: int|
            0 <= a < b < bs.len() && bs[a].range().start <= i < bs[a].range().end
                && bs[b].range().start <= j < bs[b].range().end ==> #[trigger] self.key_at(
                bs[a].kind(),
                i,
            ) <= #[trigger] self.key_at(bs[b].kind(), j)
    }

    #[verifier::spinoff_prover]
    #[verifier::rlimit(40)]
    proof fn lemma_next_batch_below_bound(&self, c: BatchCounter)
        ensures
            self.next_batch_at(c) matches Some((b, c2)) ==> forall|i: int|
                b.range().start < i < b.range().end ==> #[trigger] self.key_at(b.kind(), i)
                    < self.head_key(c, self.second_kind(c)),
    {
        self.lemma_next_batch_shape(c);
        let f = self.first_kind(c);
        if self.has_head(c, f) {
            let bound = self.head_key(c, self.second_kind(c));
            let start = c.at(f);
            let end = match self.next_batch_at(c) {
                Some((b, _)) => b.range().end as int,
                None => 0,
            };
            match f {
                PrimitiveKind::Shadow => {
                    lemma_draw_run_below(self.shadows@, start + 1, 0, bound);
                    lemma_draw_run_end_bounds(self.shadows@, start + 1, 0, bound);
                    assert(end == draw_run_end(self.shadows@, start + 1, 0, bound));
                    assert forall|i: int| start < i < end implies #[trigger] self.key_at(f, i) < bound by {
                        assert(self.shadows@[i].order * 8 + 0 < bound);
                    }
                },
                PrimitiveKind::Quad => {
                    lemma_draw_run_below(self.quads@, start + 1, 1, bound);
                    lemma_draw_run_end_bounds(self.quads@, start + 1, 1, bound);
                    assert(end == draw_run_end(self.quads@, start + 1, 1, bound));
                    assert forall|i: int| start < i < end implies #[trigger] self.key_at(f, i) < bound by {
                        assert(self.quads@[i].order * 8 + 1 < bound);
                    }
                },
                PrimitiveKind::Path => {
                    lemma_draw_run_below(self.paths@, start + 1, 2, bound);
                    lemma_draw_run_end_bounds(self.paths@, start + 1, 2, bound);
                    assert(end == draw_run_end(self.paths@, start + 1, 2, bound));
                    assert forall|i: int| start < i < end implies #[trigger] self.key_at(f, i) < bound by {
                        assert(self.paths@[i].order * 8 + 2 < bound);
                    }
                },
                PrimitiveKind::Underline => {
                    lemma_draw_run_below(self.underlines@, start + 1, 3, bound);
                    lemma_draw_run_end_bounds(self.underlines@, start + 1, 3, bound);
                    assert(end == draw_run_end(self.underlines@, start + 1, 3, bound));
                    assert forall|i: int| start < i < end implies #[trigger] self.key_at(f, i) < bound by {
                        assert(self.underlines@[i].order * 8 + 3 < bound);
                    }
                },
                PrimitiveKind::MonochromeSprite => {
                    lemma_sprite_run_below(self.monochrome_sprites@, start + 1, 4, bound, self.monochrome_sprites@[start].tile.texture_id);
                    lemma_sprite_run_end_bounds(self.monochrome_sprites@, start + 1, 4, bound, self.monochrome_sprites@[start].tile.texture_id);
                    assert(end == sprite_run_end(self.monochrome_sprites@, start + 1, 4, bound, self.monochrome_sprites@[start].tile.texture_id));
                    assert forall|i: int| start < i < end implies #[trigger] self.key_at(f, i) < bound by {
                        assert(self.monochrome_sprites@[i].order * 8 + 4 < bound);
                    }
                },
                PrimitiveKind::SubpixelSprite => {
                    lemma_sprite_run_below(self.subpixel_sprites@, start + 1, 5, bound, self.subpixel_sprites@[start].tile.texture_id);
                    lemma_sprite_run_end_bounds(self.subpixel_sprites@, start + 1, 5, bound, self.subpixel_sprites@[start].tile.texture_id);
                    assert(end == sprite_run_end(self.subpixel_sprites@, start + 1, 5, bound, self.subpixel_sprites@[start].tile.texture_id));
                    assert forall|i: int| start < i < end implies #[trigger] self.key_at(f, i) < bound by {
                        assert(self.subpixel_sprites@[i].order * 8 + 5 < bound);
                    }
                },
                PrimitiveKind::PolychromeSprite => {
                    lemma_sprite_run_below(self.polychrome_sprites@, start + 1, 6, bound, self.polychrome_sprites@[start].tile.texture_id);
                    lemma_sprite_run_end_bounds(self.polychrome_sprites@, start + 1, 6, bound, self.polychrome_sprites@[start].tile.texture_id);
                    assert(end == sprite_run_end(self.polychrome_sprites@, start + 1, 6, bound, self.polychrome_sprites@[start].tile.texture_id));
                    assert forall|i: int| start < i < end implies #[trigger] self.key_at(f, i) < bound by {
                        assert(self.polychrome_sprites@[i].order * 8 + 6 < bound);
                    }
                },
                PrimitiveKind::Surface => {
                    lemma_draw_run_below(self.surfaces@, start + 1, 7, bound);
                    lemma_draw_run_end_bounds(self.surfaces@, start + 1, 7, bound);
                    assert(end == draw_run_end(self.surfaces@, start + 1, 7, bound));
                    assert forall|i: int| start < i < end implies #[trigger] self.key_at(f, i) < bound by {
                        assert(self.surfaces@[i].order * 8 + 7 < bound);
                    }
                },
            }
        }
    }

    proof fn lemma_batch_seq_in_bounds(&self, c: BatchCounter)
        requires
            forall|k: PrimitiveKind| 0 <= #[trigger] c.at(k) <= self.kind_len(k),
        ensures
            forall|a: int|
                0 <= a < self.batch_seq(c).len() ==> c.at((#[trigger] self.batch_seq(c)[a]).kind())
                    <= self.batch_seq(c)[a].range().start && self.batch_seq(c)[a].range().end
                    <= self.kind_len(self.batch_seq(c)[a].kind()),
        decreases self.remaining(c),
    {
        self.lemma_next_batch_progress(c);
        self.lemma_next_batch_shape(c);
        match self.next_batch_at(c) {
            None => {},
            Some((b, c2)) => {
                let f = self.first_kind(c);
                assert forall|k: PrimitiveKind| 0 <= #[trigger] c2.at(k) <= self.kind_len(k) by {
                    if k != f {
                        assert(c2.at(k) == c.at(k));
                    }
                }
                assert forall|k: PrimitiveKind| c.at(k) <= #[trigger] c2.at(k) by {
                    if k != f {
                        assert(c2.at(k) == c.at(k));
                    }
                }
                self.lemma_batch_seq_in_bounds(c2);
                let rest = self.batch_seq(c2);
                assert(self.batch_seq(c) == seq![b] + rest);
                assert forall|a: int| 0 <= a < self.batch_seq(c).len() implies c.at(
                    (#[trigger] self.batch_seq(c)[a]).kind(),
                ) <= self.batch_seq(c)[a].range().start && self.batch_seq(c)[a].range().end
                    <= self.kind_len(self.batch_seq(c)[a].kind()) by {
                    if a > 0 {
                        assert(self.batch_seq(c)[a] == rest[a - 1]);
                        assert(c.at(rest[a - 1].kind()) <= c2.at(rest[a - 1].kind()));
                    }
                }
            },
        }
    }

    #[verifier::spinoff_prover]
    #[verifier::rlimit(60)]
    proof fn lemma_batch_seq_paint_order(&self, c: BatchCounter)
        requires
            self.orders_sorted(),
            forall|k: PrimitiveKind| 0 <= #[trigger] c.at(k) <= self.kind_len(k),
        ensures
            self.in_paint_order(self.batch_seq(c)),
        decreases self.remaining(c),
    {
        self.lemma_next_batch_progress(c);
        self.lemma_next_batch_shape(c);
        self.lemma_next_batch_below_bound(c);
        match self.next_batch_at(c) {
            None => {
                assert(self.batch_seq(c) == Seq::<PrimitiveBatch>::empty());
            },
            Some((b, c2)) => {
                let f = self.first_kind(c);
                assert forall|k: PrimitiveKind| 0 <= #[trigger] c2.at(k) <= self.kind_len(k) by {
                    if k != f {
                        assert(c2.at(k) == c.at(k));
                    }
                }
                self.lemma_batch_seq_paint_order(c2);
                self.lemma_batch_seq_in_bounds(c2);
                self.lemma_first_exists(c);
                self.lemma_second_exists(c);
                let second = self.second_kind(c);
                let bound = self.head_key(c, second);
                let rest = self.batch_seq(c2);
                let bs = self.batch_seq(c);
                assert(bs == seq![b] + rest);
                assert(b.kind() == f);
                assert forall|i: int| b.range().start <= i < b.range().end implies self.key_at(f, i)
                    <= bound by {
                    if i == b.range().start {
                        assert(self.key_at(f, i) == self.head_key(c, f));
                        assert(self.head_key(c, f) <= self.head_key(c, second));
                    } else {
                        assert(self.key_at(b.kind(), i) < bound);
                    }
                }
                assert forall|a: int, b2: int, i: int, j: int|
                    0 <= a < b2 < bs.len() && bs[a].range().start <= i < bs[a].range().end
                        && bs[b2].range().start <= j < bs[b2].range().end implies #[trigger] self.key_at(
                    bs[a].kind(),
                    i,
                ) <= #[trigger] self.key_at(bs[b2].kind(), j) by {
                    assert(bs[b2] == rest[b2 - 1]);
                    if a > 0 {
                        assert(bs[a] == rest[a - 1]);
                        assert(self.key_at(rest[a - 1].kind(), i) <= self.key_at(
                            rest[b2 - 1].kind(),
                            j,
                        ));
                    } else {
                        assert(bs[a] == b);
                        let k = rest[b2 - 1].kind();
                        assert(c2.at(k) <= rest[b2 - 1].range().start);
                        assert(rest[b2 - 1].range().end <= self.kind_len(k));
                        assert(self.key_at(f, i) <= bound);
                        if k == f {
                            assert(c2.at(f) == b.range().end);
                            assert(self.order_at(f, i) <= self.order_at(f, j));
                        } else {
                            assert(c2.at(k) == c.at(k));
                            assert(self.has_head(c, k));
                            assert(self.head_key(c, second) <= self.head_key(c, k));
                            assert(self.order_at(k, c.at(k)) <= self.order_at(k, j));
                        }
                    }
                }
            },
        }
    }

    /// Batches are drawn in painter's order: when each primitive array is
    /// ordered by draw order, every primitive of an earlier batch comes no
    /// later, by draw order and then by kind, than every primitive of a later
    /// batch.
    pub proof fn lemma_batches_in_paint_order(&self)
        requires
            self.orders_sorted(),
        ensures
            self.in_paint_order(self.spec_batches()),
    {
        let c = BatchCounter::start();
        assert forall|k: PrimitiveKind| 0 <= #[trigger] c.at(k) <= self.kind_len(k) by {}
        self.lemma_batch_seq_paint_order(c);
    }
}


proof fn lemma_sprite_run_same_texture(
    items: Seq<SpriteItem>,
    j: int,
    rank: int,
    bound: int,
    texture: AtlasTextureId,
)
    requires
        0 <= j,
    ensures
        forall|i: int|
            j <= i < sprite_run_end(items, j, rank, bound, texture) ==> (#[trigger] items[i]).tile.texture_id
                == texture,
    decreases items.len() - j,
{
    if 0 <= j < items.len() && items[j].order * 8 + rank < bound && items[j].tile.texture_id
        == texture {
        lemma_sprite_run_same_texture(items, j + 1, rank, bound, texture);
    }
}

impl Scene {
    /// Every sprite batch of `bs` draws sprites of its own texture only.
    pub open spec fn sprite_batches_single_texture(&self, bs: Seq<PrimitiveBatch>) -> bool {
        forall|a: int, i: int|
            0 <= a < bs.len() && bs[a].texture() is Some && bs[a].range().start <= i
                < bs[a].range().end ==> #[trigger] self.sprite_texture_at(bs[a].kind(), i)
                == bs[a].texture()->0
    }

    #[verifier::spinoff_prover]
    #[verifier::rlimit(40)]
    proof fn lemma_next_batch_single_texture(&self, c: BatchCounter)
        ensures
            self.next_batch_at(c) matches Some((b, c2)) ==> (b.texture() is Some ==> forall|i: int|
                b.range().start <= i < b.range().end ==> #[trigger] self.sprite_texture_at(b.kind(), i)
                    == b.texture()->0),
    {
        let f = self.first_kind(c);
        if self.has_head(c, f) {
            let bound = self.head_key(c, self.second_kind(c));
            let start = c.at(f);
            match f {
                PrimitiveKind::MonochromeSprite => {
                    let t = self.monochrome_sprites@[start].tile.texture_id;
                    lemma_sprite_run_same_texture(self.monochrome_sprites@, start + 1, 4, bound, t);
                    lemma_sprite_run_end_bounds(self.monochrome_sprites@, start + 1, 4, bound, t);
                },
                PrimitiveKind::SubpixelSprite => {
                    let t = self.subpixel_sprites@[start].tile.texture_id;
                    lemma_sprite_run_same_texture(self.subpixel_sprites@, start + 1, 5, bound, t);
                    lemma_sprite_run_end_bounds(self.subpixel_sprites@, start + 1, 5, bound, t);
                },
                PrimitiveKind::PolychromeSprite => {
                    let t = self.polychrome_sprites@[start].tile.texture_id;
                    lemma_sprite_run_same_texture(self.polychrome_sprites@, start + 1, 6, bound, t);
                    lemma_sprite_run_end_bounds(self.polychrome_sprites@, start + 1, 6, bound, t);
                },
                _ => {},
            }
        }
    }

    proof fn lemma_batch_seq_single_texture(&self, c: BatchCounter)
        ensures
            self.sprite_batches_single_texture(self.batch_seq(c)),
        decreases self.remaining(c),
    {
        self.lemma_next_batch_progress(c);
        self.lemma_next_batch_single_texture(c);
        match self.next_batch_at(c) {
            None => {
                assert(self.batch_seq(c) == Seq::<PrimitiveBatch>::empty());
            },
            Some((b, c2)) => {
                self.lemma_batch_seq_single_texture(c2);
                let rest = self.batch_seq(c2);
                let bs = self.batch_seq(c);
                assert(bs == seq![b] + rest);
                assert forall|a: int, i: int|
                    0 <= a < bs.len() && bs[a].texture() is Some && bs[a].range().start <= i
                        < bs[a].range().end implies #[trigger] self.sprite_texture_at(bs[a].kind(), i)
                        == bs[a].texture()->0 by {
                    if a > 0 {
                        assert(bs[a] == rest[a - 1]);
                    } else {
                        assert(bs[a] == b);
                    }
                }
            },
        }
    }

    /// Each sprite batch samples from one texture: every sprite in its range
    /// uses the texture the batch names.
    pub proof fn lemma_sprite_batches_single_texture(&self)
        ensures
            self.sprite_batches_single_texture(self.spec_batches()),
    {
        self.lemma_batch_seq_single_texture(BatchCounter::start());
    }
}


proof fn lemma_draw_run_continues(items: Seq<DrawItem>, j: int, rank: int, bound: int)
    requires
        1 <= j <= items.len(),
    ensures
        forall|i: int|
            #![trigger items[i]]
            j - 1 <= i < draw_run_end(items, j, rank, bound) && i + 1 < items.len() && items[i
                + 1].order == items[i].order && items[i].order * 8 + rank < bound ==> i + 1
                < draw_run_end(items, j, rank, bound),
    decreases items.len() - j,
{
    lemma_draw_run_end_bounds(items, j, rank, bound);
    if j < items.len() && items[j].order * 8 + rank < bound {
        lemma_draw_run_continues(items, j + 1, rank, bound);
        lemma_draw_run_end_bounds(items, j + 1, rank, bound);
    }
}

proof fn lemma_sprite_run_continues(
    items: Seq<SpriteItem>,
    j: int,
    rank: int,
    bound: int,
    texture: AtlasTextureId,
)
    requires
        1 <= j <= items.len(),
    ensures
        forall|i: int|
            #![trigger items[i]]
            j - 1 <= i < sprite_run_end(items, j, rank, bound, texture) && i + 1 < items.len()
                && items[i + 1].order == items[i].order && items[i + 1].tile.texture_id
                == texture && items[i].order * 8 + rank < bound ==> i + 1 < sprite_run_end(
                items,
                j,
                rank,
                bound,
                texture,
            ),
    decreases items.len() - j,
{
    lemma_sprite_run_end_bounds(items, j, rank, bound, texture);
    if j < items.len() && items[j].order * 8 + rank < bound && items[j].tile.texture_id == texture {
        lemma_sprite_run_continues(items, j + 1, rank, bound, texture);
        lemma_sprite_run_end_bounds(items, j + 1, rank, bound, texture);
    }
}

impl Scene {
    /// In `bs`, a primitive followed in its array by one of the same draw
    /// order (and, for sprites, the same texture) is drawn by the same batch
    /// as that neighbour.
    pub open spec fn groups_same_order_neighbours(&self, bs: Seq<PrimitiveBatch>) -> bool {
        forall|a: int, i: int|
            #![trigger bs[a], self.order_at(bs[a].kind(), i)]
            0 <= a < bs.len() && bs[a].range().start <= i < bs[a].range().end && i + 1
                < self.kind_len(bs[a].kind()) && self.order_at(bs[a].kind(), i + 1) == self.order_at(
                bs[a].kind(),
                i,
            ) && (bs[a].kind().is_sprite() ==> self.sprite_texture_at(bs[a].kind(), i + 1)
                == self.sprite_texture_at(bs[a].kind(), i)) ==> i + 1 < bs[a].range().end
    }

    #[verifier::spinoff_prover]
    #[verifier::rlimit(60)]
    proof fn lemma_groups_shadow(&self, c: BatchCounter)
        requires
            self.first_kind(c) == PrimitiveKind::Shadow,
        ensures
            self.next_batch_at(c) matches Some((b, c2)) ==> forall|i: int|
                #![trigger self.order_at(b.kind(), i)]
                b.range().start <= i < b.range().end && i + 1 < self.kind_len(b.kind())
                    && self.order_at(b.kind(), i + 1) == self.order_at(b.kind(), i) && (
                b.kind().is_sprite() ==> self.sprite_texture_at(b.kind(), i + 1)
                    == self.sprite_texture_at(b.kind(), i)) ==> i + 1 < b.range().end,
    {
        self.lemma_next_batch_shape(c);
        self.lemma_next_batch_below_bound(c);
        let f = self.first_kind(c);
        if self.has_head(c, f) {
            self.lemma_first_exists(c);
            self.lemma_second_exists(c);
            lemma_rank_roundtrip();
            let second = self.second_kind(c);
            let bound = self.head_key(c, second);
            let start = c.at(f);
            assert(self.head_key(c, f) < bound);
            assert(self.key_at(f, start) == self.head_key(c, f));
            let end = match self.next_batch_at(c) {
                Some((b, _)) => b.range().end as int,
                None => 0,
            };
                    lemma_draw_run_continues(self.shadows@, start + 1, 0, bound);
                    lemma_draw_run_end_bounds(self.shadows@, start + 1, 0, bound);
                    assert(end == draw_run_end(self.shadows@, start + 1, 0, bound));
                    assert forall|i: int| #![trigger self.order_at(f, i)]
                        start <= i < end && i + 1 < self.kind_len(f) && self.order_at(f, i + 1)
                            == self.order_at(f, i) && (f.is_sprite() ==> self.sprite_texture_at(f, i + 1)
                            == self.sprite_texture_at(f, i)) implies i + 1 < end by {
                        assert(self.key_at(f, i) < bound);
                        assert(self.shadows@[i].order * 8 + 0 < bound);
                        assert(self.shadows@[i + 1].order == self.shadows@[i].order);
                    }
                        }
    }

    #[verifier::spinoff_prover]
    #[verifier::rlimit(60)]
    proof fn lemma_groups_quad(&self, c: BatchCounter)
        requires
            self.first_kind(c) == PrimitiveKind::Quad,
        ensures
            self.next_batch_at(c) matches Some((b, c2)) ==> forall|i: int|
                #![trigger self.order_at(b.kind(), i)]
                b.range().start <= i < b.range().end && i + 1 < self.kind_len(b.kind())
                    && self.order_at(b.kind(), i + 1) == self.order_at(b.kind(), i) && (
                b.kind().is_sprite() ==> self.sprite_texture_at(b.kind(), i + 1)
                    == self.sprite_texture_at(b.kind(), i)) ==> i + 1 < b.range().end,
    {
        self.lemma_next_batch_shape(c);
        self.lemma_next_batch_below_bound(c);
        let f = self.first_kind(c);
        if self.has_head(c, f) {
            self.lemma_first_exists(c);
            self.lemma_second_exists(c);
            lemma_rank_roundtrip();
            let second = self.second_kind(c);
            let bound = self.head_key(c, second);
            let start = c.at(f);
            assert(self.head_key(c, f) < bound);
            assert(self.key_at(f, start) == self.head_key(c, f));
            let end = match self.next_batch_at(c) {
                Some((b, _)) => b.range().end as int,
                None => 0,
            };
                    lemma_draw_run_continues(self.quads@, start + 1, 1, bound);
                    lemma_draw_run_end_bounds(self.quads@, start + 1, 1, bound);
                    assert(end == draw_run_end(self.quads@, start + 1, 1, bound));
                    assert forall|i: int| #![trigger self.order_at(f, i)]
                        start <= i < end && i + 1 < self.kind_len(f) && self.order_at(f, i + 1)
                            == self.order_at(f, i) && (f.is_sprite() ==> self.sprite_texture_at(f, i + 1)
                            == self.sprite_texture_at(f, i)) implies i + 1 < end by {
                        assert(self.key_at(f, i) < bound);
                        assert(self.quads@[i].order * 8 + 1 < bound);
                        assert(self.quads@[i + 1].order == self.quads@[i].order);
                    }
                        }
    }

    #[verifier::spinoff_prover]
    #[verifier::rlimit(60)]
    proof fn lemma_groups_path(&self, c: BatchCounter)
        requires
            self.first_kind(c) == PrimitiveKind::Path,
        ensures
            self.next_batch_at(c) matches Some((b, c2)) ==> forall|i: int|
                #![trigger self.order_at(b.kind(), i)]
                b.range().start <= i < b.range().end && i + 1 < self.kind_len(b.kind())
                    && self.order_at(b.kind(), i + 1) == self.order_at(b.kind(), i) && (
                b.kind().is_sprite() ==> self.sprite_texture_at(b.kind(), i + 1)
                    == self.sprite_texture_at(b.kind(), i)) ==> i + 1 < b.range().end,
    {
        self.lemma_next_batch_shape(c);
        self.lemma_next_batch_below_bound(c);
        let f = self.first_kind(c);
        if self.has_head(c, f) {
            self.lemma_first_exists(c);
            self.lemma_second_exists(c);
            lemma_rank_roundtrip();
            let second = self.second_kind(c);
            let bound = self.head_key(c, second);
            let start = c.at(f);
            assert(self.head_key(c, f) < bound);
            assert(self.key_at(f, start) == self.head_key(c, f));
            let end = match self.next_batch_at(c) {
                Some((b, _)) => b.range().end as int,
                None => 0,
            };
                    lemma_draw_run_continues(self.paths@, start + 1, 2, bound);
                    lemma_draw_run_end_bounds(self.paths@, start + 1, 2, bound);
                    assert(end == draw_run_end(self.paths@, start + 1, 2, bound));
                    assert forall|i: int| #![trigger self.order_at(f, i)]
                        start <= i < end && i + 1 < self.kind_len(f) && self.order_at(f, i + 1)
                            == self.order_at(f, i) && (f.is_sprite() ==> self.sprite_texture_at(f, i + 1)
                            == self.sprite_texture_at(f, i)) implies i + 1 < end by {
                        assert(self.key_at(f, i) < bound);
                        assert(self.paths@[i].order * 8 + 2 < bound);
                        assert(self.paths@[i + 1].order == self.paths@[i].order);
                    }
                        }
    }

    #[verifier::spinoff_prover]
    #[verifier::rlimit(60)]
    proof fn lemma_groups_underline(&self, c: BatchCounter)
        requires
            self.first_kind(c) == PrimitiveKind::Underline,
        ensures
            self.next_batch_at(c) matches Some((b, c2)) ==> forall|i: int|
                #![trigger self.order_at(b.kind(), i)]
                b.range().start <= i < b.range().end && i + 1 < self.kind_len(b.kind())
                    && self.order_at(b.kind(), i + 1) == self.order_at(b.kind(), i) && (
                b.kind().is_sprite() ==> self.sprite_texture_at(b.kind(), i + 1)
                    == self.sprite_texture_at(b.kind(), i)) ==> i + 1 < b.range().end,
    {
        self.lemma_next_batch_shape(c);
        self.lemma_next_batch_below_bound(c);
        let f = self.first_kind(c);
        if self.has_head(c, f) {
            self.lemma_first_exists(c);
            self.lemma_second_exists(c);
            lemma_rank_roundtrip();
            let second = self.second_kind(c);
            let bound = self.head_key(c, second);
            let start = c.at(f);
            assert(self.head_key(c, f) < bound);
            assert(self.key_at(f, start) == self.head_key(c, f));
            let end = match self.next_batch_at(c) {
                Some((b, _)) => b.range().end as int,
                None => 0,
            };
                    lemma_draw_run_continues(self.underlines@, start + 1, 3, bound);
                    lemma_draw_run_end_bounds(self.underlines@, start + 1, 3, bound);
                    assert(end == draw_run_end(self.underlines@, start + 1, 3, bound));
                    assert forall|i: int| #![trigger self.order_at(f, i)]
                        start <= i < end && i + 1 < self.kind_len(f) && self.order_at(f, i + 1)
                            == self.order_at(f, i) && (f.is_sprite() ==> self.sprite_texture_at(f, i + 1)
                            == self.sprite_texture_at(f, i)) implies i + 1 < end by {
                        assert(self.key_at(f, i) < bound);
                        assert(self.underlines@[i].order * 8 + 3 < bound);
                        assert(self.underlines@[i + 1].order == self.underlines@[i].order);
                    }
                        }
    }

    #[verifier::spinoff_prover]
    #[verifier::rlimit(60)]
    proof fn lemma_groups_monochrome_sprite(&self, c: BatchCounter)
        requires
            self.first_kind(c) == PrimitiveKind::MonochromeSprite,
        ensures
            self.next_batch_at(c) matches Some((b, c2)) ==> forall|i: int|
                #![trigger self.order_at(b.kind(), i)]
                b.range().start <= i < b.range().end && i + 1 < self.kind_len(b.kind())
                    && self.order_at(b.kind(), i + 1) == self.order_at(b.kind(), i) && (
                b.kind().is_sprite() ==> self.sprite_texture_at(b.kind(), i + 1)
                    == self.sprite_texture_at(b.kind(), i)) ==> i + 1 < b.range().end,
    {
        self.lemma_next_batch_shape(c);
        self.lemma_next_batch_below_bound(c);
        let f = self.first_kind(c);
        if self.has_head(c, f) {
            self.lemma_first_exists(c);
            self.lemma_second_exists(c);
            lemma_rank_roundtrip();
            let second = self.second_kind(c);
            let bound = self.head_key(c, second);
            let start = c.at(f);
            assert(self.head_key(c, f) < bound);
            assert(self.key_at(f, start) == self.head_key(c, f));
            let end = match self.next_batch_at(c) {
                Some((b, _)) => b.range().end as int,
                None => 0,
            };
                    lemma_sprite_run_continues(self.monochrome_sprites@, start + 1, 4, bound, self.monochrome_sprites@[start].tile.texture_id);
                    lemma_sprite_run_end_bounds(self.monochrome_sprites@, start + 1, 4, bound, self.monochrome_sprites@[start].tile.texture_id);
                    lemma_sprite_run_same_texture(self.monochrome_sprites@, start + 1, 4, bound, self.monochrome_sprites@[start].tile.texture_id);
                    assert(end == sprite_run_end(self.monochrome_sprites@, start + 1, 4, bound, self.monochrome_sprites@[start].tile.texture_id));
                    assert forall|i: int| #![trigger self.order_at(f, i)]
                        start <= i < end && i + 1 < self.kind_len(f) && self.order_at(f, i + 1)
                            == self.order_at(f, i) && (f.is_sprite() ==> self.sprite_texture_at(f, i + 1)
                            == self.sprite_texture_at(f, i)) implies i + 1 < end by {
                        assert(self.key_at(f, i) < bound);
                        assert(self.monochrome_sprites@[i].order * 8 + 4 < bound);
                        assert(self.monochrome_sprites@[i + 1].order == self.monochrome_sprites@[i].order);
                        assert(self.monochrome_sprites@[i].tile.texture_id == self.monochrome_sprites@[start].tile.texture_id);
                    }
                        }
    }

    #[verifier::spinoff_prover]
    #[verifier::rlimit(60)]
    proof fn lemma_groups_subpixel_sprite(&self, c: BatchCounter)
        requires
            self.first_kind(c) == PrimitiveKind::SubpixelSprite,
        ensures
            self.next_batch_at(c) matches Some((b, c2)) ==> forall|i: int|
                #![trigger self.order_at(b.kind(), i)]
                b.range().start <= i < b.range().end && i + 1 < self.kind_len(b.kind())
                    && self.order_at(b.kind(), i + 1) == self.order_at(b.kind(), i) && (
                b.kind().is_sprite() ==> self.sprite_texture_at(b.kind(), i + 1)
                    == self.sprite_texture_at(b.kind(), i)) ==> i + 1 < b.range().end,
    {
        self.lemma_next_batch_shape(c);
        self.lemma_next_batch_below_bound(c);
        let f = self.first_kind(c);
        if self.has_head(c, f) {
            self.lemma_first_exists(c);
            self.lemma_second_exists(c);
            lemma_rank_roundtrip();
            let second = self.second_kind(c);
            let bound = self.head_key(c, second);
            let start = c.at(f);
            assert(self.head_key(c, f) < bound);
            assert(self.key_at(f, start) == self.head_key(c, f));
            let end = match self.next_batch_at(c) {
                Some((b, _)) => b.range().end as int,
                None => 0,
            };
                    lemma_sprite_run_continues(self.subpixel_sprites@, start + 1, 5, bound, self.subpixel_sprites@[start].tile.texture_id);
                    lemma_sprite_run_end_bounds(self.subpixel_sprites@, start + 1, 5, bound, self.subpixel_sprites@[start].tile.texture_id);
                    lemma_sprite_run_same_texture(self.subpixel_sprites@, start + 1, 5, bound, self.subpixel_sprites@[start].tile.texture_id);
                    assert(end == sprite_run_end(self.subpixel_sprites@, start + 1, 5, bound, self.subpixel_sprites@[start].tile.texture_id));
                    assert forall|i: int| #![trigger self.order_at(f, i)]
                        start <= i < end && i + 1 < self.kind_len(f) && self.order_at(f, i + 1)
                            == self.order_at(f, i) && (f.is_sprite() ==> self.sprite_texture_at(f, i + 1)
                            == self.sprite_texture_at(f, i)) implies i + 1 < end by {
                        assert(self.key_at(f, i) < bound);
                        assert(self.subpixel_sprites@[i].order * 8 + 5 < bound);
                        assert(self.subpixel_sprites@[i + 1].order == self.subpixel_sprites@[i].order);
                        assert(self.subpixel_sprites@[i].tile.texture_id == self.subpixel_sprites@[start].tile.texture_id);
                    }
                        }
    }

    #[verifier::spinoff_prover]
    #[verifier::rlimit(60)]
    proof fn lemma_groups_polychrome_sprite(&self, c: BatchCounter)
        requires
            self.first_kind(c) == PrimitiveKind::PolychromeSprite,
        ensures
            self.next_batch_at(c) matches Some((b, c2)) ==> forall|i: int|
                #![trigger self.order_at(b.kind(), i)]
                b.range().start <= i < b.range().end && i + 1 < self.kind_len(b.kind())
                    && self.order_at(b.kind(), i + 1) == self.order_at(b.kind(), i) && (
                b.kind().is_sprite() ==> self.sprite_texture_at(b.kind(), i + 1)
                    == self.sprite_texture_at(b.kind(), i)) ==> i + 1 < b.range().end,
    {
        self.lemma_next_batch_shape(c);
        self.lemma_next_batch_below_bound(c);
        let f = self.first_kind(c);
        if self.has_head(c, f) {
            self.lemma_first_exists(c);
            self.lemma_second_exists(c);
            lemma_rank_roundtrip();
            let second = self.second_kind(c);
            let bound = self.head_key(c, second);
            let start = c.at(f);
            assert(self.head_key(c, f) < bound);
            assert(self.key_at(f, start) == self.head_key(c, f));
            let end = match self.next_batch_at(c) {
                Some((b, _)) => b.range().end as int,
                None => 0,
            };
                    lemma_sprite_run_continues(self.polychrome_sprites@, start + 1, 6, bound, self.polychrome_sprites@[start].tile.texture_id);
                    lemma_sprite_run_end_bounds(self.polychrome_sprites@, start + 1, 6, bound, self.polychrome_sprites@[start].tile.texture_id);
                    lemma_sprite_run_same_texture(self.polychrome_sprites@, start + 1, 6, bound, self.polychrome_sprites@[start].tile.texture_id);
                    assert(end == sprite_run_end(self.polychrome_sprites@, start + 1, 6, bound, self.polychrome_sprites@[start].tile.texture_id));
                    assert forall|i: int| #![trigger self.order_at(f, i)]
                        start <= i < end && i + 1 < self.kind_len(f) && self.order_at(f, i + 1)
                            == self.order_at(f, i) && (f.is_sprite() ==> self.sprite_texture_at(f, i + 1)
                            == self.sprite_texture_at(f, i)) implies i + 1 < end by {
                        assert(self.key_at(f, i) < bound);
                        assert(self.polychrome_sprites@[i].order * 8 + 6 < bound);
                        assert(self.polychrome_sprites@[i + 1].order == self.polychrome_sprites@[i].order);
                        assert(self.polychrome_sprites@[i].tile.texture_id == self.polychrome_sprites@[start].tile.texture_id);
                    }
                        }
    }

    #[verifier::spinoff_prover]
    #[verifier::rlimit(60)]
    proof fn lemma_groups_surface(&self, c: BatchCounter)
        requires
            self.first_kind(c) == PrimitiveKind::Surface,
        ensures
            self.next_batch_at(c) matches Some((b, c2)) ==> forall|i: int|
                #![trigger self.order_at(b.kind(), i)]
                b.range().start <= i < b.range().end && i + 1 < self.kind_len(b.kind())
                    && self.order_at(b.kind(), i + 1) == self.order_at(b.kind(), i) && (
                b.kind().is_sprite() ==> self.sprite_texture_at(b.kind(), i + 1)
                    == self.sprite_texture_at(b.kind(), i)) ==> i + 1 < b.range().end,
    {
        self.lemma_next_batch_shape(c);
        self.lemma_next_batch_below_bound(c);
        let f = self.first_kind(c);
        if self.has_head(c, f) {
            self.lemma_first_exists(c);
            self.lemma_second_exists(c);
            lemma_rank_roundtrip();
            let second = self.second_kind(c);
            let bound = self.head_key(c, second);
            let start = c.at(f);
            assert(self.head_key(c, f) < bound);
            assert(self.key_at(f, start) == self.head_key(c, f));
            let end = match self.next_batch_at(c) {
                Some((b, _)) => b.range().end as int,
                None => 0,
            };
                    lemma_draw_run_continues(self.surfaces@, start + 1, 7, bound);
                    lemma_draw_run_end_bounds(self.surfaces@, start + 1, 7, bound);
                    assert(end == draw_run_end(self.surfaces@, start + 1, 7, bound));
                    assert forall|i: int| #![trigger self.order_at(f, i)]
                        start <= i < end && i + 1 < self.kind_len(f) && self.order_at(f, i + 1)
                            == self.order_at(f, i) && (f.is_sprite() ==> self.sprite_texture_at(f, i + 1)
                            == self.sprite_texture_at(f, i)) implies i + 1 < end by {
                        assert(self.key_at(f, i) < bound);
                        assert(self.surfaces@[i].order * 8 + 7 < bound);
                        assert(self.surfaces@[i + 1].order == self.surfaces@[i].order);
                    }
                        }
    }

    proof fn lemma_next_batch_groups(&self, c: BatchCounter)
        ensures
            self.next_batch_at(c) matches Some((b, c2)) ==> forall|i: int|
                #![trigger self.order_at(b.kind(), i)]
                b.range().start <= i < b.range().end && i + 1 < self.kind_len(b.kind())
                    && self.order_at(b.kind(), i + 1) == self.order_at(b.kind(), i) && (
                b.kind().is_sprite() ==> self.sprite_texture_at(b.kind(), i + 1)
                    == self.sprite_texture_at(b.kind(), i)) ==> i + 1 < b.range().end,
    {
        match self.first_kind(c) {
            PrimitiveKind::Shadow => self.lemma_groups_shadow(c),
            PrimitiveKind::Quad => self.lemma_groups_quad(c),
            PrimitiveKind::Path => self.lemma_groups_path(c),
            PrimitiveKind::Underline => self.lemma_groups_underline(c),
            PrimitiveKind::MonochromeSprite => self.lemma_groups_monochrome_sprite(c),
            PrimitiveKind::SubpixelSprite => self.lemma_groups_subpixel_sprite(c),
            PrimitiveKind::PolychromeSprite => self.lemma_groups_polychrome_sprite(c),
            PrimitiveKind::Surface => self.lemma_groups_surface(c),
        }
    }

    proof fn lemma_batch_seq_groups(&self, c: BatchCounter)
        ensures
            self.groups_same_order_neighbours(self.batch_seq(c)),
        decreases self.remaining(c),
    {
        self.lemma_next_batch_progress(c);
        self.lemma_next_batch_groups(c);
        match self.next_batch_at(c) {
            None => {
                assert(self.batch_seq(c) == Seq::<PrimitiveBatch>::empty());
            },
            Some((b, c2)) => {
                self.lemma_batch_seq_groups(c2);
                let rest = self.batch_seq(c2);
                let bs = self.batch_seq(c);
                assert(bs == seq![b] + rest);
                assert forall|a: int, i: int|
                    #![trigger bs[a], self.order_at(bs[a].kind(), i)]
                    0 <= a < bs.len() && bs[a].range().start <= i < bs[a].range().end && i + 1
                        < self.kind_len(bs[a].kind()) && self.order_at(bs[a].kind(), i + 1)
                        == self.order_at(bs[a].kind(), i) && (bs[a].kind().is_sprite()
                        ==> self.sprite_texture_at(bs[a].kind(), i + 1) == self.sprite_texture_at(
                        bs[a].kind(),
                        i,
                    )) implies i + 1 < bs[a].range().end by {
                    if a > 0 {
                        assert(bs[a] == rest[a - 1]);
                    } else {
                        assert(bs[a] == b);
                    }
                }
            },
        }
    }

    /// Batch merging: consecutive primitives of one kind with the same draw
    /// order (and, for sprites, the same texture) are drawn by one batch.
    pub proof fn lemma_same_order_neighbours_share_batch(&self)
        ensures
            self.groups_same_order_neighbours(self.spec_batches()),
    {
        self.lemma_batch_seq_groups(BatchCounter::start());
    }

    /// The counter after `n` steps of `advance` from `c` (a step past the last
    /// batch leaves the counter as it is).
    pub open spec fn advanced(&self, c: BatchCounter, n: nat) -> BatchCounter
        decreases n,
    {
        if n == 0 {
            c
        } else {
            let before = self.advanced(c, (n - 1) as nat);
            match self.next_batch_at(before) {
                Some((_, after)) => after,
                None => before,
            }
        }
    }

    /// `advance` steps through exactly the batches of `batches()`: after `n`
    /// steps from a fresh counter the batches left are those after the first
    /// `n`, and the next step succeeds, yielding the `n`-th batch, exactly
    /// when `n` is below their number.
    pub proof fn lemma_advance_steps_through_batches(&self, n: nat)
        ensures
            self.batch_seq(self.advanced(BatchCounter::start(), n)) == (if n
                <= self.spec_batches().len() {
                self.spec_batches().skip(n as int)
            } else {
                Seq::<PrimitiveBatch>::empty()
            }),
            (self.next_batch_at(self.advanced(BatchCounter::start(), n)) is Some) == (n
                < self.spec_batches().len()),
            n < self.spec_batches().len() ==> (self.next_batch_at(
                self.advanced(BatchCounter::start(), n),
            ) matches Some((b, _)) && b == self.spec_batches()[n as int]),
        decreases n,
    {
        let all = self.spec_batches();
        let c = self.advanced(BatchCounter::start(), n);
        if n > 0 {
            self.lemma_advance_steps_through_batches((n - 1) as nat);
            let before = self.advanced(BatchCounter::start(), (n - 1) as nat);
            self.lemma_next_batch_progress(before);
            match self.next_batch_at(before) {
                Some((b, after)) => {
                    assert(self.batch_seq(before) == seq![b] + self.batch_seq(after));
                    assert((seq![b] + self.batch_seq(after)).drop_first() =~= self.batch_seq(after));
                    assert(all.skip(n - 1).drop_first() =~= all.skip(n as int));
                    assert(self.batch_seq(after) =~= all.skip(n as int));
                },
                None => {
                    assert(self.batch_seq(before) == Seq::<PrimitiveBatch>::empty());
                },
            }
        } else {
            assert(all.skip(0) =~= all);
        }
        self.lemma_next_batch_progress(c);
        match self.next_batch_at(c) {
            Some((b, after)) => {
                assert(self.batch_seq(c) == seq![b] + self.batch_seq(after));
                assert(self.batch_seq(c)[0] == b);
                if n < all.len() {
                    assert(all.skip(n as int)[0] == all[n as int]);
                }
            },
            None => {
                assert(self.batch_seq(c) == Seq::<PrimitiveBatch>::empty());
            },
        }
    }
}

} // verus!
