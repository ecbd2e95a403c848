//! The scene: the primitives painted in a frame, grouped per kind, with the
//! per-view chunks that record which parts of them changed.
//!
//! Each primitive is held as the key by which the scene orders and batches it:
//! its draw order, its atlas tile for sprites, and the index `id` under which
//! its payload (geometry and colors) was stored when it was inserted.

use crate::chunk_map::{chunk_map_get, chunk_map_insert};
use crate::ranges::{covers, is_merged, merge_ranges, same_coverage};
use crate::sort::{sort_part, stable_sort, SortKey};
use rustc_hash::FxHashMap;
use std::ops::Range;
use vstd::prelude::*;

pub mod batch;
pub mod chunks;
pub mod paint;
pub mod finish;

verus! {

/// The position of a primitive in the painter's order.
pub type DrawOrder = u32;

/// Identifies the view that painted a chunk of the scene.
#[derive(Clone, Copy, Debug, PartialEq, Eq, Hash, Structural)]
pub struct EntityId(pub u64);

/// The kind of an atlas texture.
#[derive(Clone, Copy, Debug, PartialEq, Eq, Hash, Structural)]
pub enum AtlasTextureKind {
    /// Single-channel coverage.
    Monochrome,
    /// Per-subpixel coverage.
    Subpixel,
    /// Full color.
    Polychrome,
}

/// Identifies an atlas texture.
#[derive(Clone, Copy, Debug, PartialEq, Eq, Hash, Structural)]
pub struct AtlasTextureId {
    /// Index of the texture among those of its kind.
    pub index: u32,
    /// Kind of the texture.
    pub kind: AtlasTextureKind,
}

/// Identifies a tile within the atlas.
#[derive(Clone, Copy, Debug, PartialEq, Eq, Hash, Structural)]
pub struct AtlasTileId(pub u32);

/// The atlas tile a sprite samples from.
#[derive(Clone, Copy, Debug, PartialEq, Eq, Hash, Structural)]
pub struct AtlasTile {
    /// The texture holding the tile.
    pub texture_id: AtlasTextureId,
    /// The tile within the atlas.
    pub tile_id: AtlasTileId,
}

/// A shadow, quad, path, underline or surface of the scene.
#[derive(Clone, Copy, Debug, PartialEq, Eq, Structural)]
pub struct DrawItem {
    /// Draw order assigned when the primitive was inserted.
    pub order: DrawOrder,
    /// Index of the primitive's payload, assigned when it was inserted.
    pub id: usize,
}

/// A monochrome, subpixel or polychrome sprite of the scene.
#[derive(Clone, Copy, Debug, PartialEq, Eq, Structural)]
pub struct SpriteItem {
    /// Draw order assigned when the sprite was inserted.
    pub order: DrawOrder,
    /// Atlas tile the sprite samples from.
    pub tile: AtlasTile,
    /// Index of the sprite's payload, assigned when it was inserted.
    pub id: usize,
}

impl SortKey for DrawItem {
    open spec fn spec_sort_key(&self) -> int {
        self.order as int
    }

    fn sort_key(&self) -> (key: u64) {
        self.order as u64
    }
}

/// `2^32`: sprites are ordered by draw order first and tile id second.
pub open spec fn tile_key_base() -> int {
    0x1_0000_0000
}

impl SortKey for SpriteItem {
    open spec fn spec_sort_key(&self) -> int {
        self.order * tile_key_base() + self.tile.tile_id.0
    }

    fn sort_key(&self) -> (key: u64) {
        (self.order as u64) * 0x1_0000_0000u64 + (self.tile.tile_id.0 as u64)
    }
}

/// The kinds of primitives, in the order in which same-order primitives of
/// different kinds are drawn.
#[derive(Clone, Copy, Debug, PartialEq, Eq, Hash, Structural)]
pub enum PrimitiveKind {
    Shadow,
    Quad,
    Path,
    Underline,
    MonochromeSprite,
    SubpixelSprite,
    PolychromeSprite,
    Surface,
}

impl PrimitiveKind {
    /// Position of the kind in the drawing order of kinds.
    pub open spec fn rank(self) -> int {
        match self {
            PrimitiveKind::Shadow => 0,
            PrimitiveKind::Quad => 1,
            PrimitiveKind::Path => 2,
            PrimitiveKind::Underline => 3,
            PrimitiveKind::MonochromeSprite => 4,
            PrimitiveKind::SubpixelSprite => 5,
            PrimitiveKind::PolychromeSprite => 6,
            PrimitiveKind::Surface => 7,
        }
    }

    /// The kind of rank `r`.
    pub open spec fn of_rank(r: int) -> PrimitiveKind {
        if r <= 0 {
            PrimitiveKind::Shadow
        } else if r == 1 {
            PrimitiveKind::Quad
        } else if r == 2 {
            PrimitiveKind::Path
        } else if r == 3 {
            PrimitiveKind::Underline
        } else if r == 4 {
            PrimitiveKind::MonochromeSprite
        } else if r == 5 {
            PrimitiveKind::SubpixelSprite
        } else if r == 6 {
            PrimitiveKind::PolychromeSprite
        } else {
            PrimitiveKind::Surface
        }
    }

    /// Position of the kind in the drawing order of kinds.
    pub fn rank_of(self) -> (r: u64)
        ensures
            r == self.rank(),
    {
        match self {
            PrimitiveKind::Shadow => 0,
            PrimitiveKind::Quad => 1,
            PrimitiveKind::Path => 2,
            PrimitiveKind::Underline => 3,
            PrimitiveKind::MonochromeSprite => 4,
            PrimitiveKind::SubpixelSprite => 5,
            PrimitiveKind::PolychromeSprite => 6,
            PrimitiveKind::Surface => 7,
        }
    }

    /// `true` for the three sprite kinds.
    pub open spec fn is_sprite(self) -> bool {
        self == PrimitiveKind::MonochromeSprite || self == PrimitiveKind::SubpixelSprite
            || self == PrimitiveKind::PolychromeSprite
    }
}

/// A primitive handed to the scene, with its kind.
#[derive(Clone, Copy, Debug, PartialEq, Eq, Structural)]
pub enum Primitive {
    Shadow(DrawItem),
    Quad(DrawItem),
    Path(DrawItem),
    Underline(DrawItem),
    MonochromeSprite(SpriteItem),
    SubpixelSprite(SpriteItem),
    PolychromeSprite(SpriteItem),
    Surface(DrawItem),
}

impl Primitive {
    /// The kind of the primitive.
    pub open spec fn kind(self) -> PrimitiveKind {
        match self {
            Primitive::Shadow(_) => PrimitiveKind::Shadow,
            Primitive::Quad(_) => PrimitiveKind::Quad,
            Primitive::Path(_) => PrimitiveKind::Path,
            Primitive::Underline(_) => PrimitiveKind::Underline,
            Primitive::MonochromeSprite(_) => PrimitiveKind::MonochromeSprite,
            Primitive::SubpixelSprite(_) => PrimitiveKind::SubpixelSprite,
            Primitive::PolychromeSprite(_) => PrimitiveKind::PolychromeSprite,
            Primitive::Surface(_) => PrimitiveKind::Surface,
        }
    }

    /// The draw order the primitive carries.
    pub open spec fn draw_order(self) -> DrawOrder {
        match self {
            Primitive::Shadow(d) => d.order,
            Primitive::Quad(d) => d.order,
            Primitive::Path(d) => d.order,
            Primitive::Underline(d) => d.order,
            Primitive::MonochromeSprite(s) => s.order,
            Primitive::SubpixelSprite(s) => s.order,
            Primitive::PolychromeSprite(s) => s.order,
            Primitive::Surface(d) => d.order,
        }
    }

    /// The primitive with its draw order and payload index replaced.
    pub open spec fn stamped(self, order: DrawOrder, id: usize) -> Primitive {
        match self {
            Primitive::Shadow(_) => Primitive::Shadow(DrawItem { order, id }),
            Primitive::Quad(_) => Primitive::Quad(DrawItem { order, id }),
            Primitive::Path(_) => Primitive::Path(DrawItem { order, id }),
            Primitive::Underline(_) => Primitive::Underline(DrawItem { order, id }),
            Primitive::MonochromeSprite(s) => Primitive::MonochromeSprite(
                SpriteItem { order, tile: s.tile, id },
            ),
            Primitive::SubpixelSprite(s) => Primitive::SubpixelSprite(
                SpriteItem { order, tile: s.tile, id },
            ),
            Primitive::PolychromeSprite(s) => Primitive::PolychromeSprite(
                SpriteItem { order, tile: s.tile, id },
            ),
            Primitive::Surface(_) => Primitive::Surface(DrawItem { order, id }),
        }
    }
}

/// The style of a border.
#[derive(Clone, Copy, Debug, PartialEq, Eq, Hash, Structural)]
pub enum BorderStyle {
    /// A solid border.
    Solid,
    /// A dashed border.
    Dashed,
}

impl Default for BorderStyle {
    fn default() -> (style: Self)
        ensures
            style == BorderStyle::Solid,
    {
        BorderStyle::Solid
    }
}

/// Identifies a path of the scene.
#[derive(Clone, Copy, Debug, PartialEq, Eq, Hash, Structural)]
pub struct PathId(pub usize);

/// A step recorded by the painter, in painting order.
#[derive(Clone, Copy, Debug, PartialEq, Eq, Structural)]
pub enum PaintOperation {
    /// A primitive was inserted.
    Primitive(Primitive),
    /// A layer with the given draw order was started.
    StartLayer(DrawOrder),
    /// The innermost layer was ended.
    EndLayer,
}

/// The part of each primitive array that a view painted.
#[derive(Debug)]
pub struct SceneChunk {
    pub view_id: EntityId,
    pub shadows: Range<usize>,
    pub quads: Range<usize>,
    pub paths: Range<usize>,
    pub underlines: Range<usize>,
    pub monochrome_sprites: Range<usize>,
    pub subpixel_sprites: Range<usize>,
    pub polychrome_sprites: Range<usize>,
    pub surfaces: Range<usize>,
    pub paint_operations: Range<usize>,
    pub dirty: bool,
}

impl SceneChunk {
    /// The chunk's range in the array of primitives of kind `k`.
    pub open spec fn range_of(self, k: PrimitiveKind) -> Range<usize> {
        match k {
            PrimitiveKind::Shadow => self.shadows,
            PrimitiveKind::Quad => self.quads,
            PrimitiveKind::Path => self.paths,
            PrimitiveKind::Underline => self.underlines,
            PrimitiveKind::MonochromeSprite => self.monochrome_sprites,
            PrimitiveKind::SubpixelSprite => self.subpixel_sprites,
            PrimitiveKind::PolychromeSprite => self.polychrome_sprites,
            PrimitiveKind::Surface => self.surfaces,
        }
    }
}

/// Number of dirty chunks of `chunks`.
pub open spec fn dirty_count(chunks: Seq<SceneChunk>) -> nat
    decreases chunks.len(),
{
    if chunks.len() == 0 {
        0
    } else {
        dirty_count(chunks.drop_last()) + (if chunks.last().dirty {
            1nat
        } else {
            0nat
        })
    }
}

/// The ranges of kind `k` of the dirty chunks of `chunks`, in chunk order.
pub open spec fn dirty_ranges(chunks: Seq<SceneChunk>, k: PrimitiveKind) -> Seq<Range<usize>>
    decreases chunks.len(),
{
    if chunks.len() == 0 {
        Seq::empty()
    } else if chunks.last().dirty {
        dirty_ranges(chunks.drop_last(), k).push(chunks.last().range_of(k))
    } else {
        dirty_ranges(chunks.drop_last(), k)
    }
}

/// Indices of the dirty chunks of `chunks`, in increasing order.
pub open spec fn dirty_indices(chunks: Seq<SceneChunk>) -> Seq<usize>
    decreases chunks.len(),
{
    if chunks.len() == 0 {
        Seq::empty()
    } else if chunks.last().dirty {
        dirty_indices(chunks.drop_last()).push((chunks.len() - 1) as usize)
    } else {
        dirty_indices(chunks.drop_last())
    }
}

/// Per chunk in order, the stable sort of the chunk's range of `s` when the
/// chunk is dirty and its range lies within `s`.
pub open spec fn sort_dirty_chunks<T: SortKey>(
    s: Seq<T>,
    chunks: Seq<SceneChunk>,
    k: PrimitiveKind,
) -> Seq<T>
    decreases chunks.len(),
{
    if chunks.len() == 0 {
        s
    } else {
        let before = sort_dirty_chunks(s, chunks.drop_last(), k);
        let c = chunks.last();
        let r = c.range_of(k);
        if c.dirty && r.start <= r.end && r.end <= before.len() {
            sort_part(before, r.start as int, r.end as int)
        } else {
            before
        }
    }
}

/// `c` with its dirty flag cleared.
pub open spec fn cleaned(c: SceneChunk) -> SceneChunk {
    SceneChunk { dirty: false, ..c }
}

/// Per kind of primitive, the merged ranges painted by dirty chunks.
#[derive(Debug)]
pub struct ChangedRanges {
    pub shadows: Vec<Range<usize>>,
    pub quads: Vec<Range<usize>>,
    pub paths: Vec<Range<usize>>,
    pub underlines: Vec<Range<usize>>,
    pub monochrome_sprites: Vec<Range<usize>>,
    pub subpixel_sprites: Vec<Range<usize>>,
    pub polychrome_sprites: Vec<Range<usize>>,
    pub surfaces: Vec<Range<usize>>,
}

impl ChangedRanges {
    /// The ranges reported for kind `k`.
    pub open spec fn ranges_of(self, k: PrimitiveKind) -> Seq<Range<usize>> {
        match k {
            PrimitiveKind::Shadow => self.shadows@,
            PrimitiveKind::Quad => self.quads@,
            PrimitiveKind::Path => self.paths@,
            PrimitiveKind::Underline => self.underlines@,
            PrimitiveKind::MonochromeSprite => self.monochrome_sprites@,
            PrimitiveKind::SubpixelSprite => self.subpixel_sprites@,
            PrimitiveKind::PolychromeSprite => self.polychrome_sprites@,
            PrimitiveKind::Surface => self.surfaces@,
        }
    }
}

/// A run of primitives of one kind (and, for sprites, one texture) that can be
/// drawn with one draw call.
#[derive(Debug)]
pub enum PrimitiveBatch {
    Shadows(Range<usize>),
    Quads(Range<usize>),
    Paths(Range<usize>),
    Underlines(Range<usize>),
    MonochromeSprites { texture_id: AtlasTextureId, range: Range<usize> },
    SubpixelSprites { texture_id: AtlasTextureId, range: Range<usize> },
    PolychromeSprites { texture_id: AtlasTextureId, range: Range<usize> },
    Surfaces(Range<usize>),
}

/// The primitives of a frame, with the chunks painted by each view.
pub struct Scene {
    pub(crate) paint_operations: Vec<PaintOperation>,
    pub(crate) layer_stack: Vec<DrawOrder>,
    pub shadows: Vec<DrawItem>,
    pub quads: Vec<DrawItem>,
    pub paths: Vec<DrawItem>,
    pub underlines: Vec<DrawItem>,
    pub monochrome_sprites: Vec<SpriteItem>,
    pub subpixel_sprites: Vec<SpriteItem>,
    pub polychrome_sprites: Vec<SpriteItem>,
    pub surfaces: Vec<DrawItem>,
    pub(crate) chunks: Vec<SceneChunk>,
    pub(crate) active_chunk: Option<usize>,
    pub(crate) chunk_map: FxHashMap<u64, usize>,
    pub(crate) generation: u64,
    pub(crate) batch_count: u32,
}

impl Scene {
    /// Number of primitives of kind `k`.
    pub closed spec fn kind_len(&self, k: PrimitiveKind) -> int {
        match k {
            PrimitiveKind::Shadow => self.shadows.len() as int,
            PrimitiveKind::Quad => self.quads.len() as int,
            PrimitiveKind::Path => self.paths.len() as int,
            PrimitiveKind::Underline => self.underlines.len() as int,
            PrimitiveKind::MonochromeSprite => self.monochrome_sprites.len() as int,
            PrimitiveKind::SubpixelSprite => self.subpixel_sprites.len() as int,
            PrimitiveKind::PolychromeSprite => self.polychrome_sprites.len() as int,
            PrimitiveKind::Surface => self.surfaces.len() as int,
        }
    }

    /// Draw order of the primitive of kind `k` at index `i`.
    pub closed spec fn order_at(&self, k: PrimitiveKind, i: int) -> DrawOrder {
        match k {
            PrimitiveKind::Shadow => self.shadows@[i].order,
            PrimitiveKind::Quad => self.quads@[i].order,
            PrimitiveKind::Path => self.paths@[i].order,
            PrimitiveKind::Underline => self.underlines@[i].order,
            PrimitiveKind::MonochromeSprite => self.monochrome_sprites@[i].order,
            PrimitiveKind::SubpixelSprite => self.subpixel_sprites@[i].order,
            PrimitiveKind::PolychromeSprite => self.polychrome_sprites@[i].order,
            PrimitiveKind::Surface => self.surfaces@[i].order,
        }
    }

    /// Each primitive array is ordered by draw order.
    pub closed spec fn orders_sorted(&self) -> bool {
        forall|k: PrimitiveKind, i: int, j: int|
            0 <= i <= j < self.kind_len(k) ==> #[trigger] self.order_at(k, i) <= #[trigger] self.order_at(
                k,
                j,
            )
    }

    /// The painting key of the primitive of kind `k` at index `i`: its draw
    /// order first, then the rank of its kind.
    pub closed spec fn key_at(&self, k: PrimitiveKind, i: int) -> int {
        self.order_at(k, i) * 8 + k.rank()
    }

    /// The atlas texture of the sprite of kind `k` at index `i` (for the
    /// sprite kinds).
    pub closed spec fn sprite_texture_at(&self, k: PrimitiveKind, i: int) -> AtlasTextureId {
        match k {
            PrimitiveKind::MonochromeSprite => self.monochrome_sprites@[i].tile.texture_id,
            PrimitiveKind::SubpixelSprite => self.subpixel_sprites@[i].tile.texture_id,
            _ => self.polychrome_sprites@[i].tile.texture_id,
        }
    }

    /// The primitive arrays, as sequences.
    pub closed spec fn shadows_view(&self) -> Seq<DrawItem> {
        self.shadows@
    }

    pub closed spec fn quads_view(&self) -> Seq<DrawItem> {
        self.quads@
    }

    pub closed spec fn paths_view(&self) -> Seq<DrawItem> {
        self.paths@
    }

    pub closed spec fn underlines_view(&self) -> Seq<DrawItem> {
        self.underlines@
    }

    pub closed spec fn monochrome_sprites_view(&self) -> Seq<SpriteItem> {
        self.monochrome_sprites@
    }

    pub closed spec fn subpixel_sprites_view(&self) -> Seq<SpriteItem> {
        self.subpixel_sprites@
    }

    pub closed spec fn polychrome_sprites_view(&self) -> Seq<SpriteItem> {
        self.polychrome_sprites@
    }

    pub closed spec fn surfaces_view(&self) -> Seq<DrawItem> {
        self.surfaces@
    }

    /// The recorded paint operations.
    pub closed spec fn paint_ops(&self) -> Seq<PaintOperation> {
        self.paint_operations@
    }

    /// The draw orders of the open layers, innermost last.
    pub closed spec fn layers(&self) -> Seq<DrawOrder> {
        self.layer_stack@
    }

    /// The chunks, in the order in which their views were first seen.
    pub closed spec fn chunk_seq(&self) -> Seq<SceneChunk> {
        self.chunks@
    }

    /// The chunk index recorded for each view id.
    pub closed spec fn chunk_index_map(&self) -> Map<u64, usize> {
        self.chunk_map@
    }

    /// The chunk currently being painted, if any.
    pub closed spec fn active(&self) -> Option<usize> {
        self.active_chunk
    }

    /// The scene's generation counter.
    pub closed spec fn spec_generation(&self) -> u64 {
        self.generation
    }

    /// The number of batches counted by the last finish.
    pub closed spec fn spec_batch_count(&self) -> u32 {
        self.batch_count
    }

    /// Every view id of the chunk map points at an existing chunk.
    pub open spec fn wf(&self) -> bool {
        forall|v: u64| #[trigger] self.chunk_index_map().contains_key(v) ==> self.chunk_index_map()[v] < self.chunk_seq().len()
    }

    /// The chunk index recorded for view `v`, if any.
    pub open spec fn chunk_index_of(&self, v: EntityId) -> Option<usize> {
        if self.chunk_index_map().contains_key(v.0) {
            Some(self.chunk_index_map()[v.0])
        } else {
            None
        }
    }

    /// Whether view `v` has to be repainted: it has no chunk, or its chunk is
    /// marked dirty.
    pub open spec fn view_dirty(&self, v: EntityId) -> bool {
        match self.chunk_index_of(v) {
            Some(i) => if i < self.chunk_seq().len() {
                self.chunk_seq()[i as int].dirty
            } else {
                true
            },
            None => true,
        }
    }

    /// The primitive arrays, paint operations and open layers of `self` and
    /// `other` are equal.
    pub open spec fn same_content(&self, other: &Scene) -> bool {
        &&& self.shadows_view() == other.shadows_view()
        &&& self.quads_view() == other.quads_view()
        &&& self.paths_view() == other.paths_view()
        &&& self.underlines_view() == other.underlines_view()
        &&& self.monochrome_sprites_view() == other.monochrome_sprites_view()
        &&& self.subpixel_sprites_view() == other.subpixel_sprites_view()
        &&& self.polychrome_sprites_view() == other.polychrome_sprites_view()
        &&& self.surfaces_view() == other.surfaces_view()
        &&& self.paint_ops() == other.paint_ops()
        &&& self.layers() == other.layers()
    }

    /// The chunks, chunk map, active chunk, generation and batch count of
    /// `self` and `other` are equal.
    pub open spec fn same_chunks(&self, other: &Scene) -> bool {
        &&& self.chunk_seq() == other.chunk_seq()
        &&& self.chunk_index_map() == other.chunk_index_map()
        &&& self.active() == other.active()
        &&& self.spec_generation() == other.spec_generation()
        &&& self.spec_batch_count() == other.spec_batch_count()
    }

    /// The draw order a primitive inserted now receives: that of the
    /// innermost open layer, or `unlayered` outside of layers.
    pub open spec fn layer_order(&self, unlayered: DrawOrder) -> DrawOrder {
        if self.layers().len() > 0 {
            self.layers().last()
        } else {
            unlayered
        }
    }

    /// The arrays of `self` are those of `old` except for kind `k`.
    pub open spec fn other_kinds_equal(&self, old: &Scene, k: PrimitiveKind) -> bool {
        &&& k != PrimitiveKind::Shadow ==> self.shadows_view() == old.shadows_view()
        &&& k != PrimitiveKind::Quad ==> self.quads_view() == old.quads_view()
        &&& k != PrimitiveKind::Path ==> self.paths_view() == old.paths_view()
        &&& k != PrimitiveKind::Underline ==> self.underlines_view() == old.underlines_view()
        &&& k != PrimitiveKind::MonochromeSprite ==> self.monochrome_sprites_view() == old.monochrome_sprites_view()
        &&& k != PrimitiveKind::SubpixelSprite ==> self.subpixel_sprites_view() == old.subpixel_sprites_view()
        &&& k != PrimitiveKind::PolychromeSprite ==> self.polychrome_sprites_view() == old.polychrome_sprites_view()
        &&& k != PrimitiveKind::Surface ==> self.surfaces_view() == old.surfaces_view()
    }

    /// The arrays of `self` are those of `old` with `p` appended to the array
    /// of its kind.
    pub open spec fn pushed(&self, old: &Scene, p: Primitive) -> bool {
        &&& self.other_kinds_equal(old, p.kind())
        &&& match p {
            Primitive::Shadow(d) => self.shadows_view() == old.shadows_view().push(d),
            Primitive::Quad(d) => self.quads_view() == old.quads_view().push(d),
            Primitive::Path(d) => self.paths_view() == old.paths_view().push(d),
            Primitive::Underline(d) => self.underlines_view() == old.underlines_view().push(d),
            Primitive::MonochromeSprite(d) => self.monochrome_sprites_view() == old.monochrome_sprites_view().push(d),
            Primitive::SubpixelSprite(d) => self.subpixel_sprites_view() == old.subpixel_sprites_view().push(d),
            Primitive::PolychromeSprite(d) => self.polychrome_sprites_view() == old.polychrome_sprites_view().push(d),
            Primitive::Surface(d) => self.surfaces_view() == old.surfaces_view().push(d),
        }
    }

    /// The eight primitive arrays of `self` and `other` are equal.
    pub open spec fn same_primitives(&self, other: &Scene) -> bool {
        &&& self.shadows_view() == other.shadows_view()
        &&& self.other_kinds_equal(other, PrimitiveKind::Shadow)
    }

    /// Whether finishing sorts the whole arrays rather than the dirty
    /// chunks' parts: when there are no chunks, or when at least 30% of the
    /// chunks are dirty.
    pub open spec fn sorts_everything(&self) -> bool {
        let total = self.chunk_seq().len();
        total == 0 || dirty_count(self.chunk_seq()) * 10 >= total * 3
    }

    /// The arrays of `self` are those of `old` sorted the way finishing sorts
    /// them: each array stably sorted by key as a whole, or only the parts of
    /// the dirty chunks, chunk after chunk.
    pub open spec fn sorted_from(&self, old: &Scene) -> bool {
        if old.sorts_everything() {
            &&& self.shadows_view() == stable_sort(old.shadows_view())
            &&& self.quads_view() == stable_sort(old.quads_view())
            &&& self.paths_view() == stable_sort(old.paths_view())
            &&& self.underlines_view() == stable_sort(old.underlines_view())
            &&& self.monochrome_sprites_view() == stable_sort(old.monochrome_sprites_view())
            &&& self.subpixel_sprites_view() == stable_sort(old.subpixel_sprites_view())
            &&& self.polychrome_sprites_view() == stable_sort(old.polychrome_sprites_view())
            &&& self.surfaces_view() == stable_sort(old.surfaces_view())
        } else {
            &&& self.shadows_view() == sort_dirty_chunks(old.shadows_view(), old.chunk_seq(), PrimitiveKind::Shadow)
            &&& self.quads_view() == sort_dirty_chunks(old.quads_view(), old.chunk_seq(), PrimitiveKind::Quad)
            &&& self.paths_view() == sort_dirty_chunks(old.paths_view(), old.chunk_seq(), PrimitiveKind::Path)
            &&& self.underlines_view() == sort_dirty_chunks(old.underlines_view(), old.chunk_seq(), PrimitiveKind::Underline)
            &&& self.monochrome_sprites_view() == sort_dirty_chunks(
                old.monochrome_sprites_view(),
                old.chunk_seq(),
                PrimitiveKind::MonochromeSprite,
            )
            &&& self.subpixel_sprites_view() == sort_dirty_chunks(
                old.subpixel_sprites_view(),
                old.chunk_seq(),
                PrimitiveKind::SubpixelSprite,
            )
            &&& self.polychrome_sprites_view() == sort_dirty_chunks(
                old.polychrome_sprites_view(),
                old.chunk_seq(),
                PrimitiveKind::PolychromeSprite,
            )
            &&& self.surfaces_view() == sort_dirty_chunks(old.surfaces_view(), old.chunk_seq(), PrimitiveKind::Surface)
        }
    }

    /// The number of primitives and the draw orders and textures of each
    /// kind, as read from the array views.
    pub proof fn lemma_kind_views(&self)
        ensures
            self.kind_len(PrimitiveKind::Shadow) == self.shadows_view().len(),
            self.kind_len(PrimitiveKind::Quad) == self.quads_view().len(),
            self.kind_len(PrimitiveKind::Path) == self.paths_view().len(),
            self.kind_len(PrimitiveKind::Underline) == self.underlines_view().len(),
            self.kind_len(PrimitiveKind::MonochromeSprite) == self.monochrome_sprites_view().len(),
            self.kind_len(PrimitiveKind::SubpixelSprite) == self.subpixel_sprites_view().len(),
            self.kind_len(PrimitiveKind::PolychromeSprite) == self.polychrome_sprites_view().len(),
            self.kind_len(PrimitiveKind::Surface) == self.surfaces_view().len(),
            forall|i: int| #[trigger] self.order_at(PrimitiveKind::Shadow, i) == self.shadows_view()[i].order,
            forall|i: int| #[trigger] self.order_at(PrimitiveKind::Quad, i) == self.quads_view()[i].order,
            forall|i: int| #[trigger] self.order_at(PrimitiveKind::Path, i) == self.paths_view()[i].order,
            forall|i: int| #[trigger] self.order_at(PrimitiveKind::Underline, i) == self.underlines_view()[i].order,
            forall|i: int|
                #[trigger] self.order_at(PrimitiveKind::MonochromeSprite, i) == self.monochrome_sprites_view()[i].order,
            forall|i: int|
                #[trigger] self.order_at(PrimitiveKind::SubpixelSprite, i) == self.subpixel_sprites_view()[i].order,
            forall|i: int|
                #[trigger] self.order_at(PrimitiveKind::PolychromeSprite, i) == self.polychrome_sprites_view()[i].order,
            forall|i: int| #[trigger] self.order_at(PrimitiveKind::Surface, i) == self.surfaces_view()[i].order,
            forall|i: int|
                #[trigger] self.sprite_texture_at(PrimitiveKind::MonochromeSprite, i)
                    == self.monochrome_sprites_view()[i].tile.texture_id,
            forall|i: int|
                #[trigger] self.sprite_texture_at(PrimitiveKind::SubpixelSprite, i)
                    == self.subpixel_sprites_view()[i].tile.texture_id,
            forall|i: int|
                #[trigger] self.sprite_texture_at(PrimitiveKind::PolychromeSprite, i)
                    == self.polychrome_sprites_view()[i].tile.texture_id,
            forall|k: PrimitiveKind, i: int| #[trigger] self.key_at(k, i) == self.order_at(k, i) * 8 + k.rank(),
            self.orders_sorted() == forall|k: PrimitiveKind, i: int, j: int|
                0 <= i <= j < self.kind_len(k) ==> #[trigger] self.order_at(k, i) <= #[trigger] self.order_at(k, j),
    {
    }

    /// Creates an empty scene.
    pub fn new() -> (scene: Self)
        ensures
            scene.wf(),
            scene.paint_ops() == Seq::<PaintOperation>::empty(),
            scene.layers() == Seq::<DrawOrder>::empty(),
            forall|k: PrimitiveKind| scene.kind_len(k) == 0,
            scene.shadows_view() == Seq::<DrawItem>::empty(),
            scene.quads_view() == Seq::<DrawItem>::empty(),
            scene.paths_view() == Seq::<DrawItem>::empty(),
            scene.underlines_view() == Seq::<DrawItem>::empty(),
            scene.monochrome_sprites_view() == Seq::<SpriteItem>::empty(),
            scene.subpixel_sprites_view() == Seq::<SpriteItem>::empty(),
            scene.polychrome_sprites_view() == Seq::<SpriteItem>::empty(),
            scene.surfaces_view() == Seq::<DrawItem>::empty(),
            scene.chunk_seq() == Seq::<SceneChunk>::empty(),
            scene.chunk_index_map() == Map::<u64, usize>::empty(),
            scene.active() == None::<usize>,
            scene.spec_generation() == 0,
            scene.spec_batch_count() == 0,
    {
        Scene {
            paint_operations: Vec::new(),
            layer_stack: Vec::new(),
            shadows: Vec::new(),
            quads: Vec::new(),
            paths: Vec::new(),
            underlines: Vec::new(),
            monochrome_sprites: Vec::new(),
            subpixel_sprites: Vec::new(),
            polychrome_sprites: Vec::new(),
            surfaces: Vec::new(),
            chunks: Vec::new(),
            active_chunk: None,
            chunk_map: FxHashMap::default(),
            generation: 0,
            batch_count: 0,
        }
    }
}

} // verus!
