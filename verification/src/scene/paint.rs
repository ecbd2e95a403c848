//! Recording primitives and layers as they are painted.

use super::{DrawItem, DrawOrder, PaintOperation, Primitive, PrimitiveKind, Scene, SpriteItem};
use std::ops::Range;
use vstd::prelude::*;

verus! {

/// What painting records in a scene: the eight primitive arrays, the paint
/// operations and the draw orders of the open layers.
pub struct SceneContent {
    pub shadows: Seq<DrawItem>,
    pub quads: Seq<DrawItem>,
    pub paths: Seq<DrawItem>,
    pub underlines: Seq<DrawItem>,
    pub monochrome_sprites: Seq<SpriteItem>,
    pub subpixel_sprites: Seq<SpriteItem>,
    pub polychrome_sprites: Seq<SpriteItem>,
    pub surfaces: Seq<DrawItem>,
    pub paint_ops: Seq<PaintOperation>,
    pub layers: Seq<DrawOrder>,
}

impl SceneContent {
    /// Number of primitives of kind `k`.
    pub open spec fn kind_len(self, k: PrimitiveKind) -> int {
        match k {
            PrimitiveKind::Shadow => self.shadows.len() as int,
            PrimitiveKind::Quad => self.quads.len() as int,
            PrimitiveKind::Path => self.paths.len() as int,
            PrimitiveKind::Underline => self.underlines.len() as int,
            PrimitiveKind::MonochromeSprite => self.monochrome_sprites.len() as int,
            PrimitiveKind::SubpixelSprite => self.subpixel_sprites.len() as int,
            PrimitiveKind::PolychromeSprite => self.polychrome_sprites.len() as int,
            PrimitiveKind::Surface => self.surfaces.len() as int,
        }
    }

    /// The draw order a primitive inserted now receives: that of the
    /// innermost open layer, or `unlayered` outside of layers.
    pub open spec fn layer_order(self, unlayered: DrawOrder) -> DrawOrder {
        if self.layers.len() > 0 {
            self.layers.last()
        } else {
            unlayered
        }
    }

    /// The content after inserting `primitive`: it takes the layer's order
    /// (or `unlayered`) and its position in its array as payload index, is
    /// appended to its array and recorded as a paint operation.
    pub open spec fn inserted(self, primitive: Primitive, unlayered: DrawOrder) -> SceneContent {
        let p = primitive.stamped(self.layer_order(unlayered), self.kind_len(primitive.kind()) as usize);
        let c = SceneContent { paint_ops: self.paint_ops.push(PaintOperation::Primitive(p)), ..self };
        match p {
            Primitive::Shadow(d) => SceneContent { shadows: c.shadows.push(d), ..c },
            Primitive::Quad(d) => SceneContent { quads: c.quads.push(d), ..c },
            Primitive::Path(d) => SceneContent { paths: c.paths.push(d), ..c },
            Primitive::Underline(d) => SceneContent { underlines: c.underlines.push(d), ..c },
            Primitive::MonochromeSprite(d) => SceneContent {
                monochrome_sprites: c.monochrome_sprites.push(d),
                ..c
            },
            Primitive::SubpixelSprite(d) => SceneContent {
                subpixel_sprites: c.subpixel_sprites.push(d),
                ..c
            },
            Primitive::PolychromeSprite(d) => SceneContent {
                polychrome_sprites: c.polychrome_sprites.push(d),
                ..c
            },
            Primitive::Surface(d) => SceneContent { surfaces: c.surfaces.push(d), ..c },
        }
    }

    /// The content after opening a layer of draw order `order`.
    pub open spec fn pushed_layer(self, order: DrawOrder) -> SceneContent {
        SceneContent {
            layers: self.layers.push(order),
            paint_ops: self.paint_ops.push(PaintOperation::StartLayer(order)),
            ..self
        }
    }

    /// The content after closing the innermost open layer, if any.
    pub open spec fn popped_layer(self) -> SceneContent {
        SceneContent {
            layers: if self.layers.len() > 0 {
                self.layers.drop_last()
            } else {
                self.layers
            },
            paint_ops: self.paint_ops.push(PaintOperation::EndLayer),
            ..self
        }
    }

    /// The content after replaying `op`, with `order` as the draw order of a
    /// started layer or of a primitive inserted outside any layer.
    pub open spec fn replayed(self, op: PaintOperation, order: DrawOrder) -> SceneContent {
        match op {
            PaintOperation::Primitive(p) => self.inserted(p, order),
            PaintOperation::StartLayer(_) => self.pushed_layer(order),
            PaintOperation::EndLayer => self.popped_layer(),
        }
    }
}

/// `content` after replaying `ops` in order, the `k`-th with `orders[k]`.
pub open spec fn replay_ops(
    content: SceneContent,
    ops: Seq<PaintOperation>,
    orders: Seq<DrawOrder>,
) -> SceneContent
    decreases ops.len(),
{
    if ops.len() == 0 {
        content
    } else {
        replay_ops(content, ops.drop_last(), orders.drop_last()).replayed(
            ops.last(),
            orders[ops.len() - 1],
        )
    }
}

impl Scene {
    /// What painting recorded in the scene.
    pub open spec fn content(&self) -> SceneContent {
        SceneContent {
            shadows: self.shadows_view(),
            quads: self.quads_view(),
            paths: self.paths_view(),
            underlines: self.underlines_view(),
            monochrome_sprites: self.monochrome_sprites_view(),
            subpixel_sprites: self.subpixel_sprites_view(),
            polychrome_sprites: self.polychrome_sprites_view(),
            surfaces: self.surfaces_view(),
            paint_ops: self.paint_ops(),
            layers: self.layers(),
        }
    }
}

impl Scene {
    /// Appends `primitive` to the array of its kind and records it, unless
    /// `clipped_away` says that its bounds clipped to its content mask are
    /// empty: then nothing changes. It takes the draw order of the innermost
    /// open layer, or `unlayered_order` when no layer is open, and its payload
    /// index is its position in its array.
    pub fn insert_primitive(
        &mut self,
        primitive: Primitive,
        clipped_away: bool,
        unlayered_order: DrawOrder,
    )
        ensures
            clipped_away ==> final(self).content() == old(self).content(),
            !clipped_away ==> final(self).content() == old(self).content().inserted(
                primitive,
                unlayered_order,
            ),
            !clipped_away ==> ({
                let order = old(self).layer_order(unlayered_order);
                let id = old(self).kind_len(primitive.kind()) as usize;
                let p = primitive.stamped(order, id);
                &&& final(self).pushed(old(self), p)
                &&& final(self).paint_ops() == old(self).paint_ops().push(PaintOperation::Primitive(p))
                &&& final(self).layers() == old(self).layers()
            }),
            clipped_away ==> final(self).same_primitives(old(self)),
            final(self).same_chunks(old(self)),
            old(self).wf() ==> final(self).wf(),
    {
        if clipped_away {
            return;
        }
        let order = if self.layer_stack.len() > 0 {
            self.layer_stack[self.layer_stack.len() - 1]
        } else {
            unlayered_order
        };
        let stamped = match primitive {
            Primitive::Shadow(_) => {
                let item = DrawItem { order, id: self.shadows.len() };
                self.shadows.push(item);
                Primitive::Shadow(item)
            },
            Primitive::Quad(_) => {
                let item = DrawItem { order, id: self.quads.len() };
                self.quads.push(item);
                Primitive::Quad(item)
            },
            Primitive::Path(_) => {
                let item = DrawItem { order, id: self.paths.len() };
                self.paths.push(item);
                Primitive::Path(item)
            },
            Primitive::Underline(_) => {
                let item = DrawItem { order, id: self.underlines.len() };
                self.underlines.push(item);
                Primitive::Underline(item)
            },
            Primitive::MonochromeSprite(sprite) => {
                let item = SpriteItem { order, tile: sprite.tile, id: self.monochrome_sprites.len() };
                self.monochrome_sprites.push(item);
                Primitive::MonochromeSprite(item)
            },
            Primitive::SubpixelSprite(sprite) => {
                let item = SpriteItem { order, tile: sprite.tile, id: self.subpixel_sprites.len() };
                self.subpixel_sprites.push(item);
                Primitive::SubpixelSprite(item)
            },
            Primitive::PolychromeSprite(sprite) => {
                let item = SpriteItem { order, tile: sprite.tile, id: self.polychrome_sprites.len() };
                self.polychrome_sprites.push(item);
                Primitive::PolychromeSprite(item)
            },
            Primitive::Surface(_) => {
                let item = DrawItem { order, id: self.surfaces.len() };
                self.surfaces.push(item);
                Primitive::Surface(item)
            },
        };
        self.paint_operations.push(PaintOperation::Primitive(stamped));
        proof {
            assert(self.chunk_map@ == old(self).chunk_map@);
            assert(self.chunks@ == old(self).chunks@);
            assert(self.chunk_index_map() == old(self).chunk_index_map());
            assert(self.chunk_seq() == old(self).chunk_seq());
            assert(self.wf() == old(self).wf());
            assert(self.content() =~= old(self).content().inserted(primitive, unlayered_order));
        }
    }

    /// Opens a layer with draw order `order`: primitives inserted until it is
    /// closed take this order.
    pub fn push_layer(&mut self, order: DrawOrder)
        ensures
            final(self).content() == old(self).content().pushed_layer(order),
            final(self).layers() == old(self).layers().push(order),
            final(self).paint_ops() == old(self).paint_ops().push(PaintOperation::StartLayer(order)),
            final(self).same_primitives(old(self)),
            final(self).same_chunks(old(self)),
            old(self).wf() ==> final(self).wf(),
    {
        self.layer_stack.push(order);
        self.paint_operations.push(PaintOperation::StartLayer(order));
    }

    /// Closes the innermost open layer, if any.
    pub fn pop_layer(&mut self)
        ensures
            final(self).layers() == (if old(self).layers().len() > 0 {
                old(self).layers().drop_last()
            } else {
                old(self).layers()
            }),
            final(self).content() == old(self).content().popped_layer(),
            final(self).paint_ops() == old(self).paint_ops().push(PaintOperation::EndLayer),
            final(self).same_primitives(old(self)),
            final(self).same_chunks(old(self)),
            old(self).wf() ==> final(self).wf(),
    {
        self.layer_stack.pop();
        self.paint_operations.push(PaintOperation::EndLayer);
    }

    /// Removes all primitives, layers, paint operations and chunks. The
    /// generation counter is kept.
    pub fn clear(&mut self)
        ensures
            final(self).wf(),
            final(self).paint_ops() == Seq::<PaintOperation>::empty(),
            final(self).layers() == Seq::<DrawOrder>::empty(),
            forall|k: super::PrimitiveKind| #[trigger] final(self).kind_len(k) == 0,
            final(self).chunk_seq() == Seq::<super::SceneChunk>::empty(),
            final(self).chunk_index_map() == Map::<u64, usize>::empty(),
            final(self).active() == None::<usize>,
            final(self).spec_generation() == old(self).spec_generation(),
            final(self).spec_batch_count() == 0,
    {
        self.paint_operations.clear();
        self.layer_stack.clear();
        self.paths.clear();
        self.shadows.clear();
        self.quads.clear();
        self.underlines.clear();
        self.monochrome_sprites.clear();
        self.subpixel_sprites.clear();
        self.polychrome_sprites.clear();
        self.surfaces.clear();
        self.chunks.clear();
        self.active_chunk = None;
        self.chunk_map.clear();
        self.batch_count = 0;
    }

    /// Replays the paint operations `range` of `prev_scene` into this scene:
    /// its primitives are inserted again, its layers opened and closed again.
    /// `orders[k]` is the draw order that the `k`-th operation of the range
    /// receives when it starts a layer or inserts a primitive outside any
    /// layer (it is ignored otherwise).
    pub fn replay(&mut self, range: Range<usize>, prev_scene: &Scene, orders: &[DrawOrder])
        requires
            range.start <= range.end <= prev_scene.paint_ops().len(),
            orders@.len() == range.end - range.start,
        ensures
            final(self).content() == replay_ops(
                old(self).content(),
                prev_scene.paint_ops().subrange(range.start as int, range.end as int),
                orders@,
            ),
            final(self).same_chunks(old(self)),
            old(self).wf() ==> final(self).wf(),
    {
        let start = range.start;
        let end = range.end;
        let mut i: usize = start;
        while i < end
            invariant
                start <= i <= end <= prev_scene.paint_ops().len(),
                orders@.len() == end - start,
                self.content() == replay_ops(
                    old(self).content(),
                    prev_scene.paint_ops().subrange(start as int, i as int),
                    orders@.subrange(0, i - start),
                ),
                self.same_chunks(old(self)),
                old(self).wf() ==> self.wf(),
            decreases end - i,
        {
            let op = prev_scene.paint_operations[i];
            let order = orders[i - start];
            let ghost before = self.content();
            match op {
                PaintOperation::Primitive(p) => self.insert_primitive(p, false, order),
                PaintOperation::StartLayer(_) => self.push_layer(order),
                PaintOperation::EndLayer => self.pop_layer(),
            }
            proof {
                let ops = prev_scene.paint_ops().subrange(start as int, i + 1);
                let os = orders@.subrange(0, i + 1 - start);
                assert(ops.drop_last() =~= prev_scene.paint_ops().subrange(start as int, i as int));
                assert(os.drop_last() =~= orders@.subrange(0, i - start));
                assert(ops.last() == op);
                assert(os[ops.len() - 1] == order);
            }
            i = i + 1;
        }
        proof {
            assert(orders@.subrange(0, end - start) =~= orders@);
        }
    }
}


/// A primitive inserted while a layer is open takes the innermost layer's draw
/// order and leaves the layers as they were.
pub proof fn lemma_inserted_takes_layer_order(content: SceneContent, primitive: Primitive, unlayered: DrawOrder)
    requires
        content.layers.len() > 0,
    ensures
        content.inserted(primitive, unlayered).layers == content.layers,
        content.inserted(primitive, unlayered).paint_ops.last() matches PaintOperation::Primitive(q)
            && q.draw_order() == content.layers.last() && q.kind() == primitive.kind(),
{
}

/// All primitives inserted inside one layer share its draw order: after a
/// layer of order `order` is opened, two primitives inserted in it both carry
/// `order`, whatever orders are offered for primitives outside layers.
pub proof fn lemma_layer_primitives_share_order(
    content: SceneContent,
    order: DrawOrder,
    first: Primitive,
    first_unlayered: DrawOrder,
    second: Primitive,
    second_unlayered: DrawOrder,
)
    ensures
        ({
            let opened = content.pushed_layer(order);
            let one = opened.inserted(first, first_unlayered);
            let two = one.inserted(second, second_unlayered);
            &&& one.paint_ops.last() matches PaintOperation::Primitive(q) && q.draw_order() == order
            &&& two.paint_ops.last() matches PaintOperation::Primitive(q) && q.draw_order() == order
            &&& two.layers == opened.layers
        }),
{
    let opened = content.pushed_layer(order);
    lemma_inserted_takes_layer_order(opened, first, first_unlayered);
    lemma_inserted_takes_layer_order(opened.inserted(first, first_unlayered), second, second_unlayered);
}


/// The content of an empty scene.
pub open spec fn empty_content() -> SceneContent {
    SceneContent {
        shadows: Seq::empty(),
        quads: Seq::empty(),
        paths: Seq::empty(),
        underlines: Seq::empty(),
        monochrome_sprites: Seq::empty(),
        subpixel_sprites: Seq::empty(),
        polychrome_sprites: Seq::empty(),
        surfaces: Seq::empty(),
        paint_ops: Seq::empty(),
        layers: Seq::empty(),
    }
}

/// The draw order a recorded operation carries: a layer's order, a
/// primitive's order, and 0 for the end of a layer (which takes none).
pub open spec fn recorded_order(op: PaintOperation) -> DrawOrder {
    match op {
        PaintOperation::Primitive(p) => p.draw_order(),
        PaintOperation::StartLayer(order) => order,
        PaintOperation::EndLayer => 0,
    }
}

/// The orders recorded by the operations `ops`, one per operation.
pub open spec fn recorded_orders(ops: Seq<PaintOperation>) -> Seq<DrawOrder> {
    Seq::new(ops.len(), |i: int| recorded_order(ops[i]))
}

/// Replaying every operation a scene recorded, with the orders it recorded,
/// into an empty scene gives back the scene's content: the same arrays (same
/// elements, orders and payload indices, in the same sequence), paint
/// operations and open layers. `ops` and `orders` are any painting history
/// of the scene from empty.
pub proof fn lemma_replay_reproduces_scene(ops: Seq<PaintOperation>, orders: Seq<DrawOrder>)
    requires
        orders.len() == ops.len(),
    ensures
        ({
            let painted = replay_ops(empty_content(), ops, orders);
            &&& painted.paint_ops.len() == ops.len()
            &&& replay_ops(empty_content(), painted.paint_ops, recorded_orders(painted.paint_ops))
                == painted
        }),
    decreases ops.len(),
{
    if ops.len() > 0 {
        let before_ops = ops.drop_last();
        let before_orders = orders.drop_last();
        lemma_replay_reproduces_scene(before_ops, before_orders);
        let before = replay_ops(empty_content(), before_ops, before_orders);
        let op = ops.last();
        let order = orders[ops.len() - 1];
        let painted = before.replayed(op, order);
        assert(painted == replay_ops(empty_content(), ops, orders));
        let recorded = painted.paint_ops;
        assert(recorded.drop_last() =~= before.paint_ops);
        assert(recorded_orders(recorded).drop_last() =~= recorded_orders(before.paint_ops));
        let new_op = recorded.last();
        assert(recorded_orders(recorded)[recorded.len() - 1] == recorded_order(new_op));
        assert(before.replayed(new_op, recorded_order(new_op)) == painted) by {
            match op {
                PaintOperation::Primitive(p) => {
                    let q = p.stamped(before.layer_order(order), before.kind_len(p.kind()) as usize);
                    assert(new_op == PaintOperation::Primitive(q));
                    assert(q.kind() == p.kind());
                    assert(before.layer_order(q.draw_order()) == before.layer_order(order));
                    assert(q.stamped(before.layer_order(q.draw_order()), before.kind_len(q.kind()) as usize) == q);
                    assert(before.inserted(q, q.draw_order()) =~= before.inserted(p, order));
                },
                PaintOperation::StartLayer(b) => {
                    assert(new_op == PaintOperation::StartLayer(order));
                },
                PaintOperation::EndLayer => {},
            }
        }
    } else {
        assert(recorded_orders(Seq::<PaintOperation>::empty()) =~= Seq::<DrawOrder>::empty());
    }
}

} // verus!
