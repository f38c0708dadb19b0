//! Layers and the layer stack of a sprite document.
//!
//! A stack holds at least one layer, bottom first, one of which is active.
//! Layer opacity is held as the encoding of an `f32` (see `f32_bits`); the
//! blending of layers into one image happens where floating point is at
//! hand, outside this library.
use vstd::prelude::*;
use crate::f32_bits::{clamped, ONE, ZERO};
use crate::sprite::{SpriteData, SpriteView};

verus! {

/// How a layer's colours are combined with the layers below it.
#[derive(Clone, Copy, Debug, PartialEq, Eq, Structural)]
pub enum BlendMode {
    /// Alpha blending.
    Normal,
    /// Additive.
    Add,
    /// Multiplicative.
    Multiply,
    /// Inverted multiply.
    Screen,
}

impl Default for BlendMode {
    /// Alpha blending.
    fn default() -> (m: BlendMode)
        ensures
            m == BlendMode::Normal,
    {
        BlendMode::Normal
    }
}

/// One layer: a sprite with its settings.
#[derive(Clone, Debug)]
pub struct Layer {
    /// Identifier, given by the stack.
    pub id: u32,
    pub name: String,
    pub sprite: SpriteData,
    /// A hidden layer is left out of the composite.
    pub visible: bool,
    /// Opacity from 0.0 to 1.0, as the encoding of an `f32`.
    pub opacity_bits: u32,
    pub blend_mode: BlendMode,
    /// A locked layer is not painted on.
    pub locked: bool,
}

/// A layer as a value.
pub struct LayerView {
    pub id: u32,
    pub name: Seq<char>,
    pub sprite: SpriteView,
    pub visible: bool,
    pub opacity_bits: u32,
    pub blend_mode: BlendMode,
    pub locked: bool,
}

impl View for Layer {
    type V = LayerView;

    open spec fn view(&self) -> LayerView {
        LayerView {
            id: self.id,
            name: self.name@,
            sprite: self.sprite@,
            visible: self.visible,
            opacity_bits: self.opacity_bits,
            blend_mode: self.blend_mode,
            locked: self.locked,
        }
    }
}

/// `l` is a layer just made by `Layer::new(id, name, sprite)`.
pub open spec fn is_new_layer(l: Layer, id: u32, name: Seq<char>, sprite: SpriteData) -> bool {
    &&& l.id == id
    &&& l.name@ == name
    &&& l.sprite == sprite
    &&& l.visible
    &&& l.opacity_bits == ONE
    &&& l.blend_mode == BlendMode::Normal
    &&& !l.locked
}

impl Layer {
    /// A visible, unlocked layer at full opacity with normal blending.
    pub fn new(id: u32, name: &str, sprite: SpriteData) -> (l: Layer)
        ensures
            is_new_layer(l, id, name@, sprite),
    {
        Layer {
            id,
            name: String::from_str(name),
            sprite,
            visible: true,
            opacity_bits: ONE,
            blend_mode: BlendMode::Normal,
            locked: false,
        }
    }

    /// Set the opacity, clamped into 0.0 to 1.0 (a NaN is kept as it is).
    pub fn set_opacity(&mut self, opacity_bits: u32)
        ensures
            final(self).opacity_bits == clamped(opacity_bits, ZERO, ONE),
            final(self).id == old(self).id,
            final(self).name == old(self).name,
            final(self).sprite == old(self).sprite,
            final(self).visible == old(self).visible,
            final(self).blend_mode == old(self).blend_mode,
            final(self).locked == old(self).locked,
    {
        self.opacity_bits = crate::f32_bits::clamp(opacity_bits, ZERO, ONE);
    }

    /// An exact copy of the layer.
    pub fn copy(&self) -> (d: Layer)
        ensures
            d@ == self@,
            d.sprite.wf() == self.sprite.wf(),
    {
        let name = self.name.clone();
        let sprite = self.sprite.copy();
        proof {
            crate::sprite::lemma_same_view(sprite, self.sprite);
        }
        Layer {
            id: self.id,
            name,
            sprite,
            visible: self.visible,
            opacity_bits: self.opacity_bits,
            blend_mode: self.blend_mode,
            locked: self.locked,
        }
    }

    /// A copy of the layer named `<name> Copy`.
    pub fn duplicate(&self) -> (d: Layer)
        ensures
            d.id == self.id,
            d.name@ == self.name@ + " Copy"@,
            d.sprite@ == self.sprite@,
            d.sprite.wf() == self.sprite.wf(),
            d.visible == self.visible,
            d.opacity_bits == self.opacity_bits,
            d.blend_mode == self.blend_mode,
            d.locked == self.locked,
    {
        let mut name = self.name.clone();
        name.append(" Copy");
        Layer {
            id: self.id,
            name,
            sprite: self.sprite.copy(),
            visible: self.visible,
            opacity_bits: self.opacity_bits,
            blend_mode: self.blend_mode,
            locked: self.locked,
        }
    }
}

/// A layer stack as a value: its layers bottom first, the active index and
/// the next id.
pub struct StackView {
    pub layers: Seq<LayerView>,
    pub active: int,
    pub next_id: u32,
}

/// The layers of a document, bottom first, with one active layer.
#[derive(Clone, Debug)]
pub struct LayerStack {
    layers: Vec<Layer>,
    active_layer_idx: usize,
    next_id: u32,
}

impl View for LayerStack {
    type V = StackView;

    closed spec fn view(&self) -> StackView {
        StackView {
            layers: self.layers@.map_values(|l: Layer| l@),
            active: self.active_layer_idx as int,
            next_id: self.next_id,
        }
    }
}

impl LayerStack {
    /// The layers, bottom first.
    pub closed spec fn seq(&self) -> Seq<Layer> {
        self.layers@
    }

    /// Index of the active layer.
    pub closed spec fn active(&self) -> int {
        self.active_layer_idx as int
    }

    /// The id the next added layer gets.
    pub closed spec fn next(&self) -> u32 {
        self.next_id
    }

    /// At least one layer, the active index points at one, and every
    /// layer's sprite is well formed.
    pub open spec fn wf(&self) -> bool {
        &&& 1 <= self.seq().len()
        &&& 0 <= self.active() < self.seq().len()
        &&& forall|i: int| 0 <= i < self.seq().len() ==> (#[trigger] self.seq()[i]).sprite.wf()
    }

    /// An exact copy of the stack.
    pub fn copy(&self) -> (c: LayerStack)
        ensures
            c@ == self@,
            c.wf() == self.wf(),
            c.seq().len() == self.seq().len(),
            c.active() == self.active(),
            c.next() == self.next(),
            forall|i: int| 0 <= i < self.seq().len() ==> (#[trigger] c.seq()[i])@ == self.seq()[i]@,
    {
        let mut layers: Vec<Layer> = Vec::new();
        let mut i: usize = 0;
        while i < self.layers.len()
            invariant
                i <= self.layers@.len(),
                layers@.len() == i,
                forall|k: int| 0 <= k < i ==> (#[trigger] layers@[k])@ == self.layers@[k]@,
                forall|k: int| 0 <= k < i ==> (#[trigger] layers@[k]).sprite.wf() == self.layers@[k].sprite.wf(),
            decreases self.layers@.len() - i,
        {
            layers.push(self.layers[i].copy());
            i = i + 1;
        }
        let c = LayerStack { layers, active_layer_idx: self.active_layer_idx, next_id: self.next_id };
        assert(c@.layers =~= self@.layers);
        proof {
            if self.wf() {
                assert forall|k: int| 0 <= k < c.seq().len() implies (#[trigger] c.seq()[k]).sprite.wf() by {
                    assert(self.seq()[k].sprite.wf());
                }
            }
            if c.wf() {
                assert forall|k: int| 0 <= k < self.seq().len() implies (#[trigger] self.seq()[k]).sprite.wf() by {
                    assert(c.seq()[k].sprite.wf());
                }
            }
        }
        c
    }

    /// A stack holding one layer, `Background` (id 0), made from the sprite.
    pub fn new(default_sprite: SpriteData) -> (s: LayerStack)
        requires
            default_sprite.wf(),
        ensures
            s.wf(),
            s.seq().len() == 1,
            is_new_layer(s.seq()[0], 0, "Background"@, default_sprite),
            s.active() == 0,
            s.next() == 1,
    {
        let mut layers: Vec<Layer> = Vec::new();
        layers.push(Layer::new(0, "Background", default_sprite));
        LayerStack { layers, active_layer_idx: 0, next_id: 1 }
    }

    /// Add a new layer just above the active one and make it active;
    /// returns its id.
    pub fn add_layer(&mut self, sprite: SpriteData, name: &str) -> (id: u32)
        requires
            old(self).wf(),
            sprite.wf(),
            old(self).next() < u32::MAX,
        ensures
            final(self).wf(),
            id == old(self).next(),
            final(self).next() == old(self).next() + 1,
            final(self).active() == old(self).active() + 1,
            final(self).seq() == old(self).seq().insert(old(self).active() + 1, final(self).seq()[old(self).active() + 1]),
            is_new_layer(final(self).seq()[old(self).active() + 1], id, name@, sprite),
    {
        let id = self.next_id;
        self.next_id = self.next_id + 1;
        let layer = Layer::new(id, name, sprite);
        let n = self.layers.len();
        assert(self.active_layer_idx < n);
        let insert_pos = self.active_layer_idx + 1;
        let ghost before = self.layers@;
        self.layers.insert(insert_pos, layer);
        self.active_layer_idx = insert_pos;
        proof {
            assert(self.layers@ =~= before.insert(insert_pos as int, self.layers@[insert_pos as int]));
            assert forall|i: int| 0 <= i < self.layers@.len() implies (#[trigger] self.layers@[i]).sprite.wf() by {
                if i < insert_pos {
                    assert(self.layers@[i] == before[i]);
                } else if i > insert_pos {
                    assert(self.layers@[i] == before[i - 1]);
                }
            }
        }
        id
    }

    /// Delete the active layer, unless it is the last one left; returns
    /// whether a layer was deleted. The layer that takes its place becomes
    /// active, or the new top layer when the top one was deleted.
    pub fn delete_active_layer(&mut self) -> (deleted: bool)
        requires
            old(self).wf(),
        ensures
            final(self).wf(),
            deleted == (old(self).seq().len() > 1),
            (final(self).seq(), final(self).active()) == spec_delete(old(self).seq(), old(self).active()),
            deleted ==> final(self).seq() == old(self).seq().remove(old(self).active()),
            !deleted ==> final(self).seq() == old(self).seq(),
            final(self).next() == old(self).next(),
    {
        if self.layers.len() <= 1 {
            return false;
        }
        let ghost before = self.layers@;
        self.layers.remove(self.active_layer_idx);
        if self.active_layer_idx >= self.layers.len() {
            self.active_layer_idx = self.layers.len() - 1;
        }
        proof {
            let a = old(self).active_layer_idx as int;
            assert forall|i: int| 0 <= i < self.layers@.len() implies (#[trigger] self.layers@[i]).sprite.wf() by {
                if i < a {
                    assert(self.layers@[i] == before[i]);
                } else {
                    assert(self.layers@[i] == before[i + 1]);
                }
            }
        }
        true
    }

    /// The active layer, if the active index points at one.
    pub open spec fn active_layer_spec(&self) -> Option<Layer> {
        if 0 <= self.active() < self.seq().len() {
            Some(self.seq()[self.active()])
        } else {
            None
        }
    }

    /// The active layer.
    pub fn active_layer(&self) -> (r: Option<&Layer>)
        ensures
            r == (if 0 <= self.active() < self.seq().len() {
                Some(&self.seq()[self.active()])
            } else {
                None
            }),
    {
        if self.active_layer_idx < self.layers.len() {
            Some(&self.layers[self.active_layer_idx])
        } else {
            None
        }
    }

    /// The active layer, to change in place.
    pub fn active_layer_mut(&mut self) -> (r: Option<&mut Layer>)
        ensures
            r is Some <==> 0 <= old(self).active() < old(self).seq().len(),
            r is None ==> *final(self) == *old(self),
            r is Some ==> *r->0 == old(self).seq()[old(self).active()],
            r is Some ==> final(self).seq() == old(self).seq().update(old(self).active(), *final(r->0)),
            final(self).active() == old(self).active(),
            final(self).next() == old(self).next(),
    {
        if self.active_layer_idx < self.layers.len() {
            Some(&mut self.layers[self.active_layer_idx])
        } else {
            None
        }
    }

    /// The layers, bottom first, to change in place.
    pub fn layers_mut(&mut self) -> (r: &mut [Layer])
        ensures
            r@ == old(self).seq(),
            final(self).seq() == final(r)@,
            final(self).active() == old(self).active(),
            final(self).next() == old(self).next(),
    {
        self.layers.as_mut_slice()
    }

    /// The layer at `i`, to change in place.
    pub(crate) fn layer_mut(&mut self, i: usize) -> (r: &mut Layer)
        requires
            i < old(self).seq().len(),
        ensures
            *r == old(self).seq()[i as int],
            final(self).seq() == old(self).seq().update(i as int, *final(r)),
            final(self).active() == old(self).active(),
            final(self).next() == old(self).next(),
    {
        &mut self.layers[i]
    }

    /// Write one pixel of the sprite of the layer at `i` (see
    /// `SpriteData::set_pixel`); the other layers and the layer's settings
    /// are unchanged.
    pub(crate) fn paint_pixel(&mut self, i: usize, x: u32, y: u32, data: &[u8]) -> (r: Result<(), String>)
        requires
            old(self).wf(),
            i < old(self).seq().len(),
        ensures
            final(self).wf(),
            final(self).active() == old(self).active(),
            final(self).next() == old(self).next(),
            final(self).seq().len() == old(self).seq().len(),
            forall|j: int| 0 <= j < old(self).seq().len() && j != i ==> (#[trigger] final(self).seq()[j]) == old(self).seq()[j],
            same_settings(final(self).seq()[i as int], old(self).seq()[i as int]),
            ({
                let s0 = old(self).seq()[i as int].sprite;
                let s1 = final(self).seq()[i as int].sprite;
                &&& s1.width == s0.width
                &&& s1.height == s0.height
                &&& s1.mode == s0.mode
                &&& r is Ok <==> (s0.in_bounds(x as int, y as int) && data@.len() == s0.bpp())
                &&& r is Ok ==> s1.pixels@ == crate::sprite::spec_write(s0.pixels@, s0.offset(x as int, y as int), data@)
                &&& r is Err ==> s1 == s0
                &&& r matches Err(e) ==> e@ == (if !s0.in_bounds(x as int, y as int) {
                    "Pixel out of bounds"@
                } else {
                    "Invalid pixel data size"@
                })
            }),
    {
        let ghost before = self.layers@;
        assert(before[i as int].sprite.wf());
        let r = self.layers[i].sprite.set_pixel(x, y, data);
        proof {
            assert forall|k: int| 0 <= k < self.layers@.len() implies (#[trigger] self.layers@[k]).sprite.wf() by {
                if k != i {
                    assert(self.layers@[k] == before[k]);
                }
            }
        }
        r
    }

    /// The layers, bottom first.
    pub fn layers(&self) -> (r: &[Layer])
        ensures
            r@ == self.seq(),
    {
        self.layers.as_slice()
    }

    /// Index of the active layer.
    pub fn active_layer_idx(&self) -> (i: usize)
        ensures
            i == self.active(),
    {
        self.active_layer_idx
    }

    /// Make the layer at `idx` active; fails (returns false, nothing
    /// changed) when there is no such layer.
    pub fn select_layer(&mut self, idx: usize) -> (ok: bool)
        ensures
            ok == (idx < old(self).seq().len()),
            final(self).seq() == old(self).seq(),
            final(self).next() == old(self).next(),
            final(self).active() == (if ok { idx as int } else { old(self).active() }),
    {
        if idx < self.layers.len() {
            self.active_layer_idx = idx;
            true
        } else {
            false
        }
    }

    /// Move the active layer one place up, and it stays active; fails
    /// (returns false, nothing changed) when it is the top layer.
    pub fn move_layer_up(&mut self) -> (moved: bool)
        requires
            old(self).wf(),
        ensures
            final(self).wf(),
            moved == (old(self).active() + 1 < old(self).seq().len()),
            (final(self).seq(), final(self).active()) == spec_move_up(old(self).seq(), old(self).active()),
            final(self).next() == old(self).next(),
    {
        let n = self.layers.len();
        if self.active_layer_idx + 1 < n {
            let a = self.active_layer_idx;
            self.swap_adjacent(a);
            self.active_layer_idx = a + 1;
            true
        } else {
            false
        }
    }

    /// Move the active layer one place down, and it stays active; fails
    /// (returns false, nothing changed) when it is the bottom layer.
    pub fn move_layer_down(&mut self) -> (moved: bool)
        requires
            old(self).wf(),
        ensures
            final(self).wf(),
            moved == (old(self).active() > 0),
            (final(self).seq(), final(self).active()) == spec_move_down(old(self).seq(), old(self).active()),
            final(self).next() == old(self).next(),
    {
        if self.active_layer_idx > 0 {
            let a = self.active_layer_idx;
            self.swap_adjacent(a - 1);
            self.active_layer_idx = a - 1;
            true
        } else {
            false
        }
    }

    /// Exchange the layers at `i` and `i + 1`.
    fn swap_adjacent(&mut self, i: usize)
        requires
            old(self).wf(),
            i + 1 < old(self).seq().len(),
        ensures
            final(self).seq() == swap_spec(old(self).seq(), i as int, i + 1),
            final(self).active() == old(self).active(),
            final(self).next() == old(self).next(),
            forall|k: int| 0 <= k < final(self).seq().len() ==> (#[trigger] final(self).seq()[k]).sprite.wf(),
    {
        let ghost before = self.layers@;
        let n = self.layers.len();
        assert(i + 1 < n);
        let lower = self.layers.remove(i);
        self.layers.insert(i + 1, lower);
        proof {
            assert(self.layers@ =~= swap_spec(before, i as int, i + 1));
            assert forall|k: int| 0 <= k < self.layers@.len() implies (#[trigger] self.layers@[k]).sprite.wf() by {
                if k == i {
                    assert(self.layers@[k] == before[i + 1]);
                } else if k == i + 1 {
                    assert(self.layers@[k] == before[i as int]);
                } else {
                    assert(self.layers@[k] == before[k]);
                }
            }
        }
    }

    /// Add a copy of the active layer's sprite, named `<name> Copy`, as a
    /// new layer just above it (made active, with default settings); returns
    /// the id of the layer that was copied.
    pub fn duplicate_active_layer(&mut self) -> (id: u32)
        requires
            old(self).wf(),
            old(self).next() < u32::MAX,
        ensures
            final(self).wf(),
            id == old(self).seq()[old(self).active()].id,
            final(self).next() == old(self).next() + 1,
            final(self).active() == old(self).active() + 1,
            final(self).seq() == old(self).seq().insert(old(self).active() + 1, final(self).seq()[old(self).active() + 1]),
            ({
                let src = old(self).seq()[old(self).active()];
                let l = final(self).seq()[old(self).active() + 1];
                &&& l.id == old(self).next()
                &&& l.name@ == src.name@ + " Copy"@
                &&& l.sprite@ == src.sprite@
                &&& l.visible
                &&& l.opacity_bits == ONE
                &&& l.blend_mode == BlendMode::Normal
                &&& !l.locked
            }),
    {
        let dup = self.layers[self.active_layer_idx].duplicate();
        let id = dup.id;
        self.add_layer(dup.sprite, dup.name.as_str());
        id
    }
}

/// `a` has the id, name, visibility, opacity, blend mode and lock of `b`.
pub open spec fn same_settings(a: Layer, b: Layer) -> bool {
    &&& a.id == b.id
    &&& a.name == b.name
    &&& a.visible == b.visible
    &&& a.opacity_bits == b.opacity_bits
    &&& a.blend_mode == b.blend_mode
    &&& a.locked == b.locked
}

/// `s` with the items at `i` and `j` exchanged.
pub open spec fn swap_spec(s: Seq<Layer>, i: int, j: int) -> Seq<Layer> {
    s.update(i, s[j]).update(j, s[i])
}

/// Layers and active index after moving the active layer up one place:
/// unchanged when it is the top layer.
pub open spec fn spec_move_up(q: Seq<Layer>, a: int) -> (Seq<Layer>, int) {
    if a + 1 < q.len() { (swap_spec(q, a, a + 1), a + 1) } else { (q, a) }
}

/// Layers and active index after moving the active layer down one place:
/// unchanged when it is the bottom layer.
pub open spec fn spec_move_down(q: Seq<Layer>, a: int) -> (Seq<Layer>, int) {
    if a > 0 { (swap_spec(q, a - 1, a), a - 1) } else { (q, a) }
}

/// Layers and active index after deleting the active layer: unchanged when
/// it is the only one; else the layer above takes its index, or the layer
/// below becomes active when the top one was deleted.
pub open spec fn spec_delete(q: Seq<Layer>, a: int) -> (Seq<Layer>, int) {
    if q.len() > 1 {
        (q.remove(a), if a == q.len() - 1 { a - 1 } else { a })
    } else {
        (q, a)
    }
}

/// Moving the active layer down undoes moving it up, when it moved.
pub proof fn law_move_down_undoes_move_up(q: Seq<Layer>, a: int)
    requires
        0 <= a,
        a + 1 < q.len(),
    ensures
        spec_move_down(spec_move_up(q, a).0, spec_move_up(q, a).1) == (q, a),
{
    assert(swap_spec(swap_spec(q, a, a + 1), a, a + 1) =~= q);
}

/// Moving the active layer up undoes moving it down, when it moved.
pub proof fn law_move_up_undoes_move_down(q: Seq<Layer>, a: int)
    requires
        0 < a < q.len(),
    ensures
        spec_move_up(spec_move_down(q, a).0, spec_move_down(q, a).1) == (q, a),
{
    assert(swap_spec(swap_spec(q, a - 1, a), a - 1, a) =~= q);
}

/// Deleting the layer just added (it is the active one) gives back the
/// layers as they were; the active index then points at the layer above the
/// one that was active, or at it again when it was the top one.
pub proof fn law_delete_undoes_add(q: Seq<Layer>, a: int, l: Layer)
    requires
        0 <= a < q.len(),
    ensures
        spec_delete(q.insert(a + 1, l), a + 1).0 == q,
        spec_delete(q.insert(a + 1, l), a + 1).1 == (if a + 1 == q.len() { a } else { a + 1 }),
{
    assert(q.insert(a + 1, l).remove(a + 1) =~= q);
}

/// Deleting removes exactly the active layer, whichever it is: the layers
/// below it keep their places, the layers above it move down by one, and
/// the layer that takes its index (or, when the top layer went, the one
/// below it) becomes active.
pub proof fn law_delete_removes_active(q: Seq<Layer>, a: int)
    requires
        q.len() > 1,
        0 <= a < q.len(),
    ensures
        ({
            let (n, na) = spec_delete(q, a);
            &&& n.len() == q.len() - 1
            &&& forall|i: int| 0 <= i < a ==> #[trigger] n[i] == q[i]
            &&& forall|i: int| a <= i < n.len() ==> #[trigger] n[i] == q[i + 1]
            &&& 0 <= na < n.len()
            &&& a < q.len() - 1 ==> na == a && n[na] == q[a + 1]
            &&& a == q.len() - 1 ==> na == a - 1 && n[na] == q[a - 1]
        }),
{
}

/// The stack never runs out of layers, and the active index always points
/// at one: deleting keeps at least one layer and moving keeps the count.
pub proof fn law_stack_stays_nonempty(q: Seq<Layer>, a: int)
    requires
        1 <= q.len(),
        0 <= a < q.len(),
    ensures
        1 <= spec_delete(q, a).0.len(),
        0 <= spec_delete(q, a).1 < spec_delete(q, a).0.len(),
        spec_move_up(q, a).0.len() == q.len(),
        0 <= spec_move_up(q, a).1 < q.len(),
        spec_move_down(q, a).0.len() == q.len(),
        0 <= spec_move_down(q, a).1 < q.len(),
{
}

} // verus!
