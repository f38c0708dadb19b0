//! The cel model: layer definitions shared by a whole document, and frames
//! that hold one cel (a sprite with its settings for that frame) per layer.
//!
//! Opacities are held as encodings of `f32` values (see `f32_bits`). A
//! frame keeps its cels in a list in which no layer id occurs twice.
use vstd::prelude::*;
use crate::editor::layers::BlendMode;
use crate::f32_bits::ONE;
use crate::sprite::{SpriteData, SpriteView};

verus! {

/// A layer's definition: stable across frames.
#[derive(Clone, Debug)]
pub struct LayerDef {
    pub id: u32,
    pub name: String,
    /// Opacity a cel has unless it overrides it, as an `f32` encoding.
    pub default_opacity_bits: u32,
    pub default_blend: BlendMode,
}

impl LayerDef {
    /// A definition at full opacity with normal blending.
    pub fn new(id: u32, name: &str) -> (d: LayerDef)
        ensures
            d.id == id,
            d.name@ == name@,
            d.default_opacity_bits == ONE,
            d.default_blend == BlendMode::Normal,
    {
        LayerDef { id, name: String::from_str(name), default_opacity_bits: ONE, default_blend: BlendMode::Normal }
    }
}

/// The pixels of one layer in one frame, with that frame's settings.
#[derive(Clone, Debug)]
pub struct Cel {
    pub layer_id: u32,
    pub pixels: SpriteData,
    /// Shown in this frame.
    pub visible: bool,
    /// This frame's opacity, as an `f32` encoding, if it differs from the
    /// layer's.
    pub opacity_override_bits: Option<u32>,
    /// This frame's blend mode, if it differs from the layer's.
    pub blend_override: Option<BlendMode>,
}

/// A cel as a value.
pub struct CelView {
    pub layer_id: u32,
    pub pixels: SpriteView,
    pub visible: bool,
    pub opacity_override_bits: Option<u32>,
    pub blend_override: Option<BlendMode>,
}

impl View for Cel {
    type V = CelView;

    open spec fn view(&self) -> CelView {
        CelView {
            layer_id: self.layer_id,
            pixels: self.pixels@,
            visible: self.visible,
            opacity_override_bits: self.opacity_override_bits,
            blend_override: self.blend_override,
        }
    }
}

impl Cel {
    /// A visible cel with no overrides.
    pub fn new(layer_id: u32, pixels: SpriteData) -> (c: Cel)
        ensures
            c.layer_id == layer_id,
            c.pixels == pixels,
            c.visible,
            c.opacity_override_bits is None,
            c.blend_override is None,
    {
        Cel { layer_id, pixels, visible: true, opacity_override_bits: None, blend_override: None }
    }

    /// The opacity in this frame: the override, else the given default.
    pub fn effective_opacity(&self, default_bits: u32) -> (b: u32)
        ensures
            b == match self.opacity_override_bits {
                Some(o) => o,
                None => default_bits,
            },
    {
        match self.opacity_override_bits {
            Some(o) => o,
            None => default_bits,
        }
    }

    /// The blend mode in this frame: the override, else the given default.
    pub fn effective_blend(&self, default: BlendMode) -> (m: BlendMode)
        ensures
            m == match self.blend_override {
                Some(o) => o,
                None => default,
            },
    {
        match self.blend_override {
            Some(o) => o,
            None => default,
        }
    }

    /// An exact copy of the cel.
    pub fn copy(&self) -> (c: Cel)
        ensures
            c@ == self@,
    {
        Cel {
            layer_id: self.layer_id,
            pixels: self.pixels.copy(),
            visible: self.visible,
            opacity_override_bits: self.opacity_override_bits,
            blend_override: self.blend_override,
        }
    }
}

/// The cel is shown in its frame.
pub open spec fn shown() -> spec_fn(Cel) -> bool {
    |c: Cel| c.visible
}

/// No layer id occurs twice among the cels.
pub open spec fn distinct_layers(cels: Seq<Cel>) -> bool {
    forall|i: int, j: int| 0 <= i < j < cels.len() ==> (#[trigger] cels[i]).layer_id != (#[trigger] cels[j]).layer_id
}

/// Index of the cel of the layer, or -1 when there is none.
pub open spec fn cel_index(cels: Seq<Cel>, layer_id: u32) -> int {
    if exists|i: int| 0 <= i < cels.len() && cels[i].layer_id == layer_id {
        choose|i: int| 0 <= i < cels.len() && cels[i].layer_id == layer_id
    } else {
        -1
    }
}

/// With distinct layer ids, a cel is the one found by its layer id.
pub proof fn lemma_cel_index(cels: Seq<Cel>, i: int)
    requires
        distinct_layers(cels),
        0 <= i < cels.len(),
    ensures
        cel_index(cels, cels[i].layer_id) == i,
{
    let k = choose|k: int| 0 <= k < cels.len() && cels[k].layer_id == cels[i].layer_id;
    if k != i {
        if k < i {
            assert(cels[k].layer_id != cels[i].layer_id);
        } else {
            assert(cels[i].layer_id != cels[k].layer_id);
        }
    }
}

/// The cels with `cel` put in: in place of the cel of its layer if there
/// is one, else at the end.
pub open spec fn with_cel(cels: Seq<Cel>, cel: Cel) -> Seq<Cel> {
    if cel_index(cels, cel.layer_id) >= 0 {
        cels.update(cel_index(cels, cel.layer_id), cel)
    } else {
        cels.push(cel)
    }
}

proof fn lemma_with_cel_distinct(cels: Seq<Cel>, cel: Cel)
    requires
        distinct_layers(cels),
    ensures
        distinct_layers(with_cel(cels, cel)),
        with_cel(cels, cel).len() == cels.len() || with_cel(cels, cel).len() == cels.len() + 1,
        forall|k: int| 0 <= k < cels.len() && k != cel_index(cels, cel.layer_id) ==> #[trigger] with_cel(cels, cel)[k] == cels[k],
{
    let n = with_cel(cels, cel);
    let i = cel_index(cels, cel.layer_id);
    assert forall|a: int, b: int| 0 <= a < b < n.len() implies (#[trigger] n[a]).layer_id != (#[trigger] n[b]).layer_id by {
        if i >= 0 {
            assert(cels[a].layer_id != cels[b].layer_id);
            if a == i || b == i {
                assert(cels[i].layer_id == cel.layer_id);
            }
        } else if b == cels.len() {
            if cels[a].layer_id == cel.layer_id {
                assert(exists|k: int| 0 <= k < cels.len() && cels[k].layer_id == cel.layer_id);
            }
        } else {
            assert(cels[a].layer_id != cels[b].layer_id);
        }
    }
}

/// Index of the cel of the layer.
fn find_cel(cels: &Vec<Cel>, layer_id: u32) -> (r: Option<usize>)
    requires
        distinct_layers(cels@),
    ensures
        match r {
            None => cel_index(cels@, layer_id) == -1,
            Some(i) => i < cels@.len() && cels@[i as int].layer_id == layer_id && cel_index(cels@, layer_id) == i,
        },
{
    let mut i: usize = 0;
    while i < cels.len()
        invariant
            i <= cels@.len(),
            distinct_layers(cels@),
            forall|j: int| 0 <= j < i ==> (#[trigger] cels@[j]).layer_id != layer_id,
        decreases cels@.len() - i,
    {
        if cels[i].layer_id == layer_id {
            proof {
                lemma_cel_index(cels@, i as int);
            }
            return Some(i);
        }
        i = i + 1;
    }
    None
}

/// A frame of the cel model: its number, duration, and a cel per layer.
#[derive(Clone, Debug)]
pub struct nQFrame {
    pub frame_num: u32,
    pub duration_ms: u32,
    pub cels: Vec<Cel>,
}

impl nQFrame {
    /// A frame with no cels.
    pub fn new(frame_num: u32, duration_ms: u32) -> (f: nQFrame)
        ensures
            f.frame_num == frame_num,
            f.duration_ms == duration_ms,
            f.cels@.len() == 0,
    {
        nQFrame { frame_num, duration_ms, cels: Vec::new() }
    }

    /// Put a cel in the frame, replacing the cel of the same layer if there
    /// is one.
    pub fn add_cel(&mut self, cel: Cel)
        requires
            distinct_layers(old(self).cels@),
        ensures
            distinct_layers(final(self).cels@),
            final(self).frame_num == old(self).frame_num,
            final(self).duration_ms == old(self).duration_ms,
            final(self).cels@ == with_cel(old(self).cels@, cel),
    {
        match find_cel(&self.cels, cel.layer_id) {
            Some(i) => self.cels.set(i, cel),
            None => self.cels.push(cel),
        }
        proof {
            lemma_with_cel_distinct(old(self).cels@, cel);
        }
    }

    /// The cel of the layer.
    pub fn get_cel(&self, layer_id: u32) -> (r: Option<&Cel>)
        requires
            distinct_layers(self.cels@),
        ensures
            r == (if cel_index(self.cels@, layer_id) >= 0 {
                Some(&self.cels@[cel_index(self.cels@, layer_id)])
            } else {
                None
            }),
    {
        match find_cel(&self.cels, layer_id) {
            Some(i) => Some(&self.cels[i]),
            None => None,
        }
    }

    /// The cel of the layer, to change in place.
    pub fn get_cel_mut(&mut self, layer_id: u32) -> (r: Option<&mut Cel>)
        requires
            distinct_layers(old(self).cels@),
        ensures
            r is Some <==> cel_index(old(self).cels@, layer_id) >= 0,
            r is None ==> *final(self) == *old(self),
            r is Some ==> *r->0 == old(self).cels@[cel_index(old(self).cels@, layer_id)],
            r is Some ==> final(self).cels@ == old(self).cels@.update(cel_index(old(self).cels@, layer_id), *final(r->0)),
            final(self).frame_num == old(self).frame_num,
            final(self).duration_ms == old(self).duration_ms,
    {
        match find_cel(&self.cels, layer_id) {
            Some(i) => Some(&mut self.cels[i]),
            None => None,
        }
    }

    /// Take the cel of the layer out of the frame.
    pub fn remove_cel(&mut self, layer_id: u32) -> (r: Option<Cel>)
        requires
            distinct_layers(old(self).cels@),
        ensures
            distinct_layers(final(self).cels@),
            final(self).frame_num == old(self).frame_num,
            final(self).duration_ms == old(self).duration_ms,
            match r {
                None => cel_index(old(self).cels@, layer_id) == -1 && final(self).cels@ == old(self).cels@,
                Some(c) => {
                    let i = cel_index(old(self).cels@, layer_id);
                    &&& i >= 0
                    &&& c == old(self).cels@[i]
                    &&& final(self).cels@ == old(self).cels@.remove(i)
                },
            },
    {
        match find_cel(&self.cels, layer_id) {
            Some(i) => {
                let c = self.cels.remove(i);
                assert forall|a: int, b: int| 0 <= a < b < self.cels@.len() implies
                    (#[trigger] self.cels@[a]).layer_id != (#[trigger] self.cels@[b]).layer_id by {
                    let oa = if a < i { a } else { a + 1 };
                    let ob = if b < i { b } else { b + 1 };
                    assert(self.cels@[a] == old(self).cels@[oa]);
                    assert(self.cels@[b] == old(self).cels@[ob]);
                }
                Some(c)
            },
            None => None,
        }
    }

    /// All cels of the frame.
    pub fn cels(&self) -> (r: &[Cel])
        ensures
            r@ == self.cels@,
    {
        self.cels.as_slice()
    }

    /// The visible cels, in the frame's order.
    pub fn visible_cels(&self) -> (r: Vec<&Cel>)
        ensures
            r@.map_values(|c: &Cel| *c) == self.cels@.filter(shown()),
    {
        let mut r: Vec<&Cel> = Vec::new();
        let mut i: usize = 0;
        while i < self.cels.len()
            invariant
                i <= self.cels@.len(),
                r@.map_values(|c: &Cel| *c) == self.cels@.subrange(0, i as int).filter(shown()),
            decreases self.cels@.len() - i,
        {
            let ghost before = r@;
            let ghost s = self.cels@.subrange(0, i + 1);
            proof {
                reveal(Seq::filter);
                assert(s.drop_last() =~= self.cels@.subrange(0, i as int));
                assert(s.last() == self.cels@[i as int]);
                assert(s.filter(shown()) == if self.cels@[i as int].visible {
                    self.cels@.subrange(0, i as int).filter(shown()).push(self.cels@[i as int])
                } else {
                    self.cels@.subrange(0, i as int).filter(shown())
                });
            }
            if self.cels[i].visible {
                r.push(&self.cels[i]);
                proof {
                    assert(r@.map_values(|c: &Cel| *c) =~= before.map_values(|c: &Cel| *c).push(self.cels@[i as int]));
                }
            }
            i = i + 1;
        }
        assert(self.cels@.subrange(0, self.cels@.len() as int) =~= self.cels@);
        r
    }

    /// The layer ids of the cels, ascending.
    pub fn layer_ids(&self) -> (ids: Vec<u32>)
        requires
            distinct_layers(self.cels@),
        ensures
            ids@.len() == self.cels@.len(),
            forall|a: int, b: int| 0 <= a < b < ids@.len() ==> ids@[a] < ids@[b],
            forall|id: u32| ids@.contains(id) <==> cel_index(self.cels@, id) >= 0,
    {
        let mut ids: Vec<u32> = Vec::new();
        let mut i: usize = 0;
        while i < self.cels.len()
            invariant
                i <= self.cels@.len(),
                distinct_layers(self.cels@),
                ids@.len() == i,
                forall|a: int, b: int| 0 <= a < b < ids@.len() ==> ids@[a] < ids@[b],
                forall|id: u32| ids@.contains(id) <==> exists|k: int| 0 <= k < i && (#[trigger] self.cels@[k]).layer_id == id,
            decreases self.cels@.len() - i,
        {
            let id = self.cels[i].layer_id;
            proof {
                assert(!ids@.contains(id)) by {
                    if ids@.contains(id) {
                        let k = choose|k: int| 0 <= k < i && (#[trigger] self.cels@[k]).layer_id == id;
                        assert(self.cels@[k].layer_id != self.cels@[i as int].layer_id);
                    }
                }
            }
            insert_sorted(&mut ids, id);
            proof {
                assert forall|x: u32| ids@.contains(x) <==> exists|k: int| 0 <= k < i + 1 && (#[trigger] self.cels@[k]).layer_id == x by {
                    if x == id {
                        assert(self.cels@[i as int].layer_id == x);
                    }
                    if exists|k: int| 0 <= k < i + 1 && (#[trigger] self.cels@[k]).layer_id == x {
                        let k = choose|k: int| 0 <= k < i + 1 && (#[trigger] self.cels@[k]).layer_id == x;
                        if k < i {
                            assert(exists|k2: int| 0 <= k2 < i && (#[trigger] self.cels@[k2]).layer_id == x);
                        }
                    }
                }
            }
            i = i + 1;
        }
        proof {
            assert forall|id: u32| ids@.contains(id) <==> cel_index(self.cels@, id) >= 0 by {
                if exists|k: int| 0 <= k < self.cels@.len() && (#[trigger] self.cels@[k]).layer_id == id {
                    let k = choose|k: int| 0 <= k < self.cels@.len() && (#[trigger] self.cels@[k]).layer_id == id;
                    assert(self.cels@[k].layer_id == id);
                }
            }
        }
        ids
    }

    /// A copy of the frame, each cel copied.
    pub fn duplicate(&self) -> (f: nQFrame)
        ensures
            f.frame_num == self.frame_num,
            f.duration_ms == self.duration_ms,
            f.cels@.len() == self.cels@.len(),
            forall|i: int| 0 <= i < f.cels@.len() ==> (#[trigger] f.cels@[i])@ == self.cels@[i]@,
    {
        let mut cels: Vec<Cel> = Vec::new();
        let mut i: usize = 0;
        while i < self.cels.len()
            invariant
                i <= self.cels@.len(),
                cels@.len() == i,
                forall|k: int| 0 <= k < i ==> (#[trigger] cels@[k])@ == self.cels@[k]@,
            decreases self.cels@.len() - i,
        {
            cels.push(self.cels[i].copy());
            i = i + 1;
        }
        nQFrame { frame_num: self.frame_num, duration_ms: self.duration_ms, cels }
    }
}

/// Insert `v`, which the ascending list does not hold, keeping it
/// ascending.
fn insert_sorted(ids: &mut Vec<u32>, v: u32)
    requires
        forall|a: int, b: int| 0 <= a < b < old(ids)@.len() ==> old(ids)@[a] < old(ids)@[b],
        !old(ids)@.contains(v),
    ensures
        final(ids)@.len() == old(ids)@.len() + 1,
        forall|a: int, b: int| 0 <= a < b < final(ids)@.len() ==> final(ids)@[a] < final(ids)@[b],
        forall|x: u32| final(ids)@.contains(x) <==> (old(ids)@.contains(x) || x == v),
{
    let mut pos: usize = 0;
    while pos < ids.len() && ids[pos] < v
        invariant
            pos <= ids@.len(),
            ids@ == old(ids)@,
            forall|k: int| 0 <= k < pos ==> ids@[k] < v,
        decreases ids@.len() - pos,
    {
        pos = pos + 1;
    }
    let ghost before = ids@;
    ids.insert(pos, v);
    proof {
        assert(ids@ == before.insert(pos as int, v));
        assert forall|k: int| pos <= k < before.len() implies before[k] > v by {
            assert(before[pos as int] >= v);
            assert(before[pos as int] != v) by {
                assert(before.contains(before[pos as int]));
            }
            if k > pos {
                assert(before[pos as int] < before[k]);
            }
        }
        assert forall|x: u32| ids@.contains(x) <==> (before.contains(x) || x == v) by {
            if ids@.contains(x) {
                let k = choose|k: int| 0 <= k < ids@.len() && ids@[k] == x;
                if k < pos {
                    assert(before[k] == x);
                } else if k > pos {
                    assert(before[k - 1] == x);
                }
            }
            if before.contains(x) {
                let k = choose|k: int| 0 <= k < before.len() && before[k] == x;
                if k < pos {
                    assert(ids@[k] == x);
                } else {
                    assert(ids@[k + 1] == x);
                }
            }
            if x == v {
                assert(ids@[pos as int] == v);
            }
        }
    }
}

/// A cel put into a frame is the one found for its layer afterwards, and
/// the cels of the other layers stay as they were.
pub proof fn law_get_after_add(cels: Seq<Cel>, cel: Cel, other: u32)
    requires
        distinct_layers(cels),
    ensures
        ({
            let n = with_cel(cels, cel);
            &&& distinct_layers(n)
            &&& cel_index(n, cel.layer_id) >= 0
            &&& n[cel_index(n, cel.layer_id)] == cel
            &&& other != cel.layer_id ==> (cel_index(n, other) >= 0 <==> cel_index(cels, other) >= 0)
            &&& other != cel.layer_id && cel_index(cels, other) >= 0 ==> n[cel_index(n, other)] == cels[cel_index(
                cels,
                other,
            )]
        }),
{
    let n = with_cel(cels, cel);
    let i = cel_index(cels, cel.layer_id);
    lemma_with_cel_distinct(cels, cel);
    let p = if i >= 0 { i } else { cels.len() as int };
    assert(n[p] == cel);
    lemma_cel_index(n, p);
    if other != cel.layer_id {
        if cel_index(cels, other) >= 0 {
            let k = cel_index(cels, other);
            assert(cels[k].layer_id == other);
            assert(k != i);
            assert(n[k] == cels[k]);
            lemma_cel_index(n, k);
        } else if cel_index(n, other) >= 0 {
            let k = cel_index(n, other);
            assert(n[k].layer_id == other);
            assert(k != p);
            assert(n[k] == cels[k]);
            assert(exists|j: int| 0 <= j < cels.len() && cels[j].layer_id == other);
        }
    }
}

} // verus!
