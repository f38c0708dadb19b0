//! Edit commands, their undo/redo history, and the sprite document they
//! act on.
use vstd::prelude::*;
use crate::editor::history::{spec_record, spec_undo, spec_redo};
use crate::editor::layers::{BlendMode, Layer, LayerStack, LayerView, StackView};
use crate::editor::animation::{AnimationClip, AnimationController, Frame, DEFAULT_DURATION_MS};
use crate::editor::command::CommandExecutionError;
use crate::editor::format::io::{cel_filename, decimal, decimal_string};
use crate::editor::format::{nQAnimationClipData, nQCommandRecord, nQDocumentFormat, nQFrameData, nQLayerDef, FORMAT_VERSION};
use crate::editor::layers::same_settings;
use crate::f32_bits::{clamped, ONE, ZERO};
use crate::sprite::{spec_write, ColorMode, SpriteData, SpriteView};
use std::collections::HashMap;

verus! {

broadcast use vstd::std_specs::hash::group_hash_axioms;

/// One edit of a document, with what undoing it needs.
///
/// Opacities are encodings of `f32` values (see `f32_bits`).
#[derive(Clone, Debug)]
pub enum EditCommand {
    /// Pixels painted on a layer: `(x, y, colour)` each.
    PaintStroke { layer_id: u32, pixels: Vec<(u32, u32, Vec<u8>)> },
    AddLayer { layer_id: u32, name: String, sprite: SpriteData },
    DeleteLayer { layer_id: u32, layer_data: Layer, index: usize },
    MoveLayer { layer_id: u32, old_index: usize, new_index: usize },
    SetLayerOpacity { layer_id: u32, old_opacity_bits: u32, new_opacity_bits: u32 },
    SetLayerBlendMode { layer_id: u32, old_mode: BlendMode, new_mode: BlendMode },
    SetLayerVisibility { layer_id: u32, old_visible: bool, new_visible: bool },
    SetLayerLocked { layer_id: u32, old_locked: bool, new_locked: bool },
    AddFrame { clip_id: usize, frame_idx: usize, frame_layers: LayerStack },
    DeleteFrame { clip_id: usize, frame_idx: usize, frame_layers: LayerStack },
    SetFrameDuration { clip_id: usize, frame_idx: usize, old_duration: u32, new_duration: u32 },
}

/// An edit command as a value.
pub enum CommandView {
    PaintStroke { layer_id: u32, pixels: Seq<(u32, u32, Seq<u8>)> },
    AddLayer { layer_id: u32, name: Seq<char>, sprite: SpriteView },
    DeleteLayer { layer_id: u32, layer_data: LayerView, index: usize },
    MoveLayer { layer_id: u32, old_index: usize, new_index: usize },
    SetLayerOpacity { layer_id: u32, old_opacity_bits: u32, new_opacity_bits: u32 },
    SetLayerBlendMode { layer_id: u32, old_mode: BlendMode, new_mode: BlendMode },
    SetLayerVisibility { layer_id: u32, old_visible: bool, new_visible: bool },
    SetLayerLocked { layer_id: u32, old_locked: bool, new_locked: bool },
    AddFrame { clip_id: usize, frame_idx: usize, frame_layers: StackView },
    DeleteFrame { clip_id: usize, frame_idx: usize, frame_layers: StackView },
    SetFrameDuration { clip_id: usize, frame_idx: usize, old_duration: u32, new_duration: u32 },
}

/// A painted pixel as a value.
pub open spec fn pixel_view(p: (u32, u32, Vec<u8>)) -> (u32, u32, Seq<u8>) {
    (p.0, p.1, p.2@)
}

impl View for EditCommand {
    type V = CommandView;

    open spec fn view(&self) -> CommandView {
        match self {
            EditCommand::PaintStroke { layer_id, pixels } => CommandView::PaintStroke {
                layer_id: *layer_id,
                pixels: pixels@.map_values(|p: (u32, u32, Vec<u8>)| pixel_view(p)),
            },
            EditCommand::AddLayer { layer_id, name, sprite } => CommandView::AddLayer {
                layer_id: *layer_id,
                name: name@,
                sprite: sprite@,
            },
            EditCommand::DeleteLayer { layer_id, layer_data, index } => CommandView::DeleteLayer {
                layer_id: *layer_id,
                layer_data: layer_data@,
                index: *index,
            },
            EditCommand::MoveLayer { layer_id, old_index, new_index } => CommandView::MoveLayer {
                layer_id: *layer_id,
                old_index: *old_index,
                new_index: *new_index,
            },
            EditCommand::SetLayerOpacity { layer_id, old_opacity_bits, new_opacity_bits } =>
                CommandView::SetLayerOpacity {
                layer_id: *layer_id,
                old_opacity_bits: *old_opacity_bits,
                new_opacity_bits: *new_opacity_bits,
            },
            EditCommand::SetLayerBlendMode { layer_id, old_mode, new_mode } => CommandView::SetLayerBlendMode {
                layer_id: *layer_id,
                old_mode: *old_mode,
                new_mode: *new_mode,
            },
            EditCommand::SetLayerVisibility { layer_id, old_visible, new_visible } =>
                CommandView::SetLayerVisibility {
                layer_id: *layer_id,
                old_visible: *old_visible,
                new_visible: *new_visible,
            },
            EditCommand::SetLayerLocked { layer_id, old_locked, new_locked } => CommandView::SetLayerLocked {
                layer_id: *layer_id,
                old_locked: *old_locked,
                new_locked: *new_locked,
            },
            EditCommand::AddFrame { clip_id, frame_idx, frame_layers } => CommandView::AddFrame {
                clip_id: *clip_id,
                frame_idx: *frame_idx,
                frame_layers: frame_layers@,
            },
            EditCommand::DeleteFrame { clip_id, frame_idx, frame_layers } => CommandView::DeleteFrame {
                clip_id: *clip_id,
                frame_idx: *frame_idx,
                frame_layers: frame_layers@,
            },
            EditCommand::SetFrameDuration { clip_id, frame_idx, old_duration, new_duration } =>
                CommandView::SetFrameDuration {
                clip_id: *clip_id,
                frame_idx: *frame_idx,
                old_duration: *old_duration,
                new_duration: *new_duration,
            },
        }
    }
}

/// An exact copy of a list of painted pixels.
fn copy_pixels(pixels: &Vec<(u32, u32, Vec<u8>)>) -> (r: Vec<(u32, u32, Vec<u8>)>)
    ensures
        r@.map_values(|p: (u32, u32, Vec<u8>)| pixel_view(p)) == pixels@.map_values(
            |p: (u32, u32, Vec<u8>)| pixel_view(p),
        ),
{
    let mut r: Vec<(u32, u32, Vec<u8>)> = Vec::new();
    let mut i: usize = 0;
    while i < pixels.len()
        invariant
            i <= pixels@.len(),
            r@.len() == i,
            forall|k: int| 0 <= k < i ==> pixel_view(#[trigger] r@[k]) == pixel_view(pixels@[k]),
        decreases pixels@.len() - i,
    {
        let c = pixels[i].2.clone();
        assert(c@ =~= pixels@[i as int].2@);
        r.push((pixels[i].0, pixels[i].1, c));
        i = i + 1;
    }
    assert(r@.map_values(|p: (u32, u32, Vec<u8>)| pixel_view(p)) =~= pixels@.map_values(
        |p: (u32, u32, Vec<u8>)| pixel_view(p),
    ));
    r
}

impl EditCommand {
    /// An exact copy of the command.
    pub fn copy(&self) -> (c: EditCommand)
        ensures
            c@ == self@,
    {
        match self {
            EditCommand::PaintStroke { layer_id, pixels } => EditCommand::PaintStroke {
                layer_id: *layer_id,
                pixels: copy_pixels(pixels),
            },
            EditCommand::AddLayer { layer_id, name, sprite } => EditCommand::AddLayer {
                layer_id: *layer_id,
                name: name.clone(),
                sprite: sprite.copy(),
            },
            EditCommand::DeleteLayer { layer_id, layer_data, index } => EditCommand::DeleteLayer {
                layer_id: *layer_id,
                layer_data: layer_data.copy(),
                index: *index,
            },
            EditCommand::MoveLayer { layer_id, old_index, new_index } => EditCommand::MoveLayer {
                layer_id: *layer_id,
                old_index: *old_index,
                new_index: *new_index,
            },
            EditCommand::SetLayerOpacity { layer_id, old_opacity_bits, new_opacity_bits } =>
                EditCommand::SetLayerOpacity {
                layer_id: *layer_id,
                old_opacity_bits: *old_opacity_bits,
                new_opacity_bits: *new_opacity_bits,
            },
            EditCommand::SetLayerBlendMode { layer_id, old_mode, new_mode } => EditCommand::SetLayerBlendMode {
                layer_id: *layer_id,
                old_mode: *old_mode,
                new_mode: *new_mode,
            },
            EditCommand::SetLayerVisibility { layer_id, old_visible, new_visible } =>
                EditCommand::SetLayerVisibility {
                layer_id: *layer_id,
                old_visible: *old_visible,
                new_visible: *new_visible,
            },
            EditCommand::SetLayerLocked { layer_id, old_locked, new_locked } => EditCommand::SetLayerLocked {
                layer_id: *layer_id,
                old_locked: *old_locked,
                new_locked: *new_locked,
            },
            EditCommand::AddFrame { clip_id, frame_idx, frame_layers } => EditCommand::AddFrame {
                clip_id: *clip_id,
                frame_idx: *frame_idx,
                frame_layers: frame_layers.copy(),
            },
            EditCommand::DeleteFrame { clip_id, frame_idx, frame_layers } => EditCommand::DeleteFrame {
                clip_id: *clip_id,
                frame_idx: *frame_idx,
                frame_layers: frame_layers.copy(),
            },
            EditCommand::SetFrameDuration { clip_id, frame_idx, old_duration, new_duration } =>
                EditCommand::SetFrameDuration {
                clip_id: *clip_id,
                frame_idx: *frame_idx,
                old_duration: *old_duration,
                new_duration: *new_duration,
            },
        }
    }
}

/// Most commands the history keeps.
pub const MAX_HISTORY_SIZE: usize = 1000;

/// The command history as values: the undo stack and the redo stack, each
/// oldest first (the next command to undo / redo is the last one).
pub type CommandHistoryView = (Seq<CommandView>, Seq<CommandView>);

/// Undo/redo stacks of edit commands, keeping at most 1000 commands.
#[derive(Clone, Debug)]
pub struct EditCommandHistory {
    undo_stack: Vec<EditCommand>,
    redo_stack: Vec<EditCommand>,
    max_history_size: usize,
}

/// The history of a document.
pub type CommandHistory = EditCommandHistory;

impl View for EditCommandHistory {
    type V = CommandHistoryView;

    closed spec fn view(&self) -> CommandHistoryView {
        (
            self.undo_stack@.map_values(|c: EditCommand| c@),
            self.redo_stack@.map_values(|c: EditCommand| c@),
        )
    }
}

impl EditCommandHistory {
    /// The limit is the one the history was made with.
    pub closed spec fn wf(&self) -> bool {
        self.max_history_size == MAX_HISTORY_SIZE
    }

    /// An empty history.
    pub fn new() -> (h: EditCommandHistory)
        ensures
            h.wf(),
            h@.0 == Seq::<CommandView>::empty(),
            h@.1 == Seq::<CommandView>::empty(),
    {
        let h = EditCommandHistory {
            undo_stack: Vec::new(),
            redo_stack: Vec::new(),
            max_history_size: MAX_HISTORY_SIZE,
        };
        assert(h@.0 =~= Seq::<CommandView>::empty());
        assert(h@.1 =~= Seq::<CommandView>::empty());
        h
    }

    /// Record a command: it becomes the next one to undo, the redo stack is
    /// cleared, and past 1000 commands the oldest is forgotten.
    pub fn record(&mut self, command: EditCommand)
        requires
            old(self).wf(),
        ensures
            final(self).wf(),
            final(self)@ == spec_record(old(self)@, command@),
    {
        let ghost u0 = self.undo_stack@;
        self.undo_stack.push(command);
        self.redo_stack.clear();
        if self.undo_stack.len() > self.max_history_size {
            self.undo_stack.remove(0);
        }
        proof {
            let pushed = u0.push(command);
            assert(pushed.map_values(|c: EditCommand| c@) =~= old(self)@.0.push(command@));
            if pushed.len() > 1000 {
                assert(pushed.drop_first().map_values(|c: EditCommand| c@)
                    =~= old(self)@.0.push(command@).drop_first());
                assert(self.undo_stack@ =~= pushed.drop_first());
            }
            assert(self@.1 =~= Seq::<CommandView>::empty());
        }
    }

    /// There is a command to undo.
    pub fn can_undo(&self) -> (b: bool)
        ensures
            b == (self@.0.len() > 0),
    {
        self.undo_stack.len() > 0
    }

    /// There is a command to redo.
    pub fn can_redo(&self) -> (b: bool)
        ensures
            b == (self@.1.len() > 0),
    {
        self.redo_stack.len() > 0
    }

    /// Undo one step: the most recent command moves to the redo stack and
    /// is returned; `None` with nothing to undo.
    pub fn undo(&mut self) -> (r: Option<EditCommand>)
        requires
            old(self).wf(),
        ensures
            final(self).wf(),
            final(self)@ == spec_undo(old(self)@).0,
            match r {
                None => spec_undo(old(self)@).1 is None,
                Some(c) => spec_undo(old(self)@).1 == Some(c@),
            },
    {
        match self.undo_stack.pop() {
            Some(cmd) => {
                self.redo_stack.push(cmd.copy());
                proof {
                    assert(self@.0 =~= old(self)@.0.drop_last());
                    assert(self@.1 =~= old(self)@.1.push(old(self)@.0.last()));
                }
                Some(cmd)
            },
            None => {
                proof {
                    assert(self@.0 =~= old(self)@.0);
                }
                None
            },
        }
    }

    /// Redo one step: the most recently undone command moves back to the
    /// undo stack and is returned; `None` with nothing to redo.
    pub fn redo(&mut self) -> (r: Option<EditCommand>)
        requires
            old(self).wf(),
        ensures
            final(self).wf(),
            final(self)@ == spec_redo(old(self)@).0,
            match r {
                None => spec_redo(old(self)@).1 is None,
                Some(c) => spec_redo(old(self)@).1 == Some(c@),
            },
    {
        match self.redo_stack.pop() {
            Some(cmd) => {
                self.undo_stack.push(cmd.copy());
                proof {
                    assert(self@.0 =~= old(self)@.0.push(old(self)@.1.last()));
                    assert(self@.1 =~= old(self)@.1.drop_last());
                }
                Some(cmd)
            },
            None => {
                proof {
                    assert(self@.1 =~= old(self)@.1);
                }
                None
            },
        }
    }

    /// Forget every command.
    pub fn clear(&mut self)
        requires
            old(self).wf(),
        ensures
            final(self).wf(),
            final(self)@.0 == Seq::<CommandView>::empty(),
            final(self)@.1 == Seq::<CommandView>::empty(),
    {
        self.undo_stack.clear();
        self.redo_stack.clear();
        assert(self@.0 =~= Seq::<CommandView>::empty());
        assert(self@.1 =~= Seq::<CommandView>::empty());
    }

    /// Copies of the last `count` commands that can be undone (all of them
    /// when there are fewer), oldest first.
    pub fn get_recent_commands(&self, count: usize) -> (r: Vec<EditCommand>)
        ensures
            r@.map_values(|c: EditCommand| c@) == self@.0.subrange(
                if self@.0.len() > count { self@.0.len() - count } else { 0 },
                self@.0.len() as int,
            ),
    {
        let n = self.undo_stack.len();
        let start = if n > count { n - count } else { 0 };
        let mut r: Vec<EditCommand> = Vec::new();
        let mut i: usize = start;
        while i < n
            invariant
                start <= i <= n,
                n == self.undo_stack@.len(),
                r@.len() == i - start,
                forall|k: int| 0 <= k < i - start ==> (#[trigger] r@[k])@ == self.undo_stack@[start + k]@,
            decreases n - i,
        {
            r.push(self.undo_stack[i].copy());
            i = i + 1;
        }
        assert(r@.map_values(|c: EditCommand| c@) =~= self@.0.subrange(start as int, n as int));
        r
    }
}

impl Default for EditCommandHistory {
    fn default() -> (h: EditCommandHistory)
        ensures
            h.wf(),
            h@.0 == Seq::<CommandView>::empty(),
            h@.1 == Seq::<CommandView>::empty(),
    {
        EditCommandHistory::new()
    }
}

/// A sprite document being edited: its layers, animations, history, a
/// cached composite image and per-frame layer sprites.
#[derive(Clone, Debug)]
pub struct SpriteDocument {
    pub id: usize,
    pub name: String,
    pub layers: LayerStack,
    pub animations: AnimationController,
    pub history: EditCommandHistory,
    cached_composite: Option<SpriteData>,
    composite_dirty: bool,
    frame_data: HashMap<u32, HashMap<u32, SpriteData>>,
    current_frame: u32,
}

impl SpriteDocument {
    pub closed spec fn doc_id(&self) -> usize {
        self.id
    }

    pub closed spec fn name_seq(&self) -> Seq<char> {
        self.name@
    }

    pub closed spec fn stack(&self) -> LayerStack {
        self.layers
    }

    pub closed spec fn anims(&self) -> AnimationController {
        self.animations
    }

    pub closed spec fn hist(&self) -> EditCommandHistory {
        self.history
    }

    /// The cached composite image, if any.
    pub closed spec fn cache(&self) -> Option<SpriteData> {
        self.cached_composite
    }

    /// The cached composite is out of date.
    pub closed spec fn dirty(&self) -> bool {
        self.composite_dirty
    }

    /// Layer sprites by frame number, then by layer id.
    pub closed spec fn frames(&self) -> Map<u32, HashMap<u32, SpriteData>> {
        self.frame_data@
    }

    /// Number of the frame shown.
    pub closed spec fn frame(&self) -> u32 {
        self.current_frame
    }

    /// The layers, animations and history are well formed.
    pub open spec fn wf(&self) -> bool {
        self.stack().wf() && self.anims().wf() && self.hist().wf()
    }

    /// A document with one `Background` layer made from the sprite (id 0),
    /// one animation clip `Default` holding frame 0 (100 ms, a copy of the
    /// layers), the sprite recorded as frame 0's layer 0, an empty history
    /// and no composite yet.
    pub fn new(id: usize, name: &str, initial_sprite: SpriteData) -> (d: SpriteDocument)
        requires
            initial_sprite.wf(),
        ensures
            d.wf(),
            d.doc_id() == id,
            d.name_seq() == name@,
            d.stack().seq().len() == 1,
            crate::editor::layers::is_new_layer(d.stack().seq()[0], 0, "Background"@, initial_sprite),
            d.stack().active() == 0,
            d.stack().next() == 1,
            d.anims().clip_seq().len() == 1,
            d.anims().active() == 0,
            d.anims().clip_seq()[0].name_seq() == "Default"@,
            d.anims().clip_seq()[0].frame_seq().len() == 1,
            d.anims().clip_seq()[0].frame_seq()[0].frame_num == 0,
            d.anims().clip_seq()[0].frame_seq()[0].duration_ms == DEFAULT_DURATION_MS,
            d.anims().clip_seq()[0].frame_seq()[0].layers@ == d.stack()@,
            d.hist()@.0.len() == 0,
            d.hist()@.1.len() == 0,
            d.cache() is None,
            d.dirty(),
            d.frames().dom() == set![0u32],
            d.frames()[0]@.dom() == set![0u32],
            d.frames()[0]@[0]@ == initial_sprite@,
            d.frame() == 0,
    {
        let layers = LayerStack::new(initial_sprite);
        let first_frame = Frame::new(0, DEFAULT_DURATION_MS, layers.copy());
        let default_clip = AnimationClip::new("Default", first_frame);
        let animations = AnimationController::new(default_clip);
        let mut frame_0_layers: HashMap<u32, SpriteData> = HashMap::new();
        let bottom = &layers.layers()[0];
        frame_0_layers.insert(bottom.id, bottom.sprite.copy());
        let mut frame_data: HashMap<u32, HashMap<u32, SpriteData>> = HashMap::new();
        frame_data.insert(0, frame_0_layers);
        let d = SpriteDocument {
            id,
            name: String::from_str(name),
            layers,
            animations,
            history: EditCommandHistory::new(),
            cached_composite: None,
            composite_dirty: true,
            frame_data,
            current_frame: 0,
        };
        assert(d.frame_data@.dom() =~= set![0u32]);
        assert(d.frame_data@[0]@.dom() =~= set![0u32]);
        d
    }

    /// Record an edit: it goes on the history (see `EditCommandHistory::record`)
    /// and the composite is out of date.
    pub fn record_edit(&mut self, command: EditCommand)
        requires
            old(self).wf(),
        ensures
            final(self).wf(),
            final(self).hist()@ == spec_record(old(self).hist()@, command@),
            final(self).dirty(),
            final(self).stack() == old(self).stack(),
            final(self).anims() == old(self).anims(),
            final(self).cache() == old(self).cache(),
            final(self).frames() == old(self).frames(),
            final(self).frame() == old(self).frame(),
    {
        self.history.record(command);
        self.composite_dirty = true;
    }

    /// Undo one step of the history; the composite is out of date when a
    /// command was undone.
    pub fn undo(&mut self) -> (r: Option<EditCommand>)
        requires
            old(self).wf(),
        ensures
            final(self).wf(),
            final(self).hist()@ == spec_undo(old(self).hist()@).0,
            match r {
                None => spec_undo(old(self).hist()@).1 is None,
                Some(c) => spec_undo(old(self).hist()@).1 == Some(c@),
            },
            final(self).dirty() == (old(self).dirty() || r is Some),
            final(self).stack() == old(self).stack(),
            final(self).anims() == old(self).anims(),
            final(self).cache() == old(self).cache(),
            final(self).frames() == old(self).frames(),
            final(self).frame() == old(self).frame(),
    {
        let cmd = self.history.undo();
        if cmd.is_some() {
            self.composite_dirty = true;
        }
        cmd
    }

    /// Redo one step of the history; the composite is out of date when a
    /// command was redone.
    pub fn redo(&mut self) -> (r: Option<EditCommand>)
        requires
            old(self).wf(),
        ensures
            final(self).wf(),
            final(self).hist()@ == spec_redo(old(self).hist()@).0,
            match r {
                None => spec_redo(old(self).hist()@).1 is None,
                Some(c) => spec_redo(old(self).hist()@).1 == Some(c@),
            },
            final(self).dirty() == (old(self).dirty() || r is Some),
            final(self).stack() == old(self).stack(),
            final(self).anims() == old(self).anims(),
            final(self).cache() == old(self).cache(),
            final(self).frames() == old(self).frames(),
            final(self).frame() == old(self).frame(),
    {
        let cmd = self.history.redo();
        if cmd.is_some() {
            self.composite_dirty = true;
        }
        cmd
    }

    /// The document's id.
    pub fn get_id(&self) -> (r: usize)
        ensures
            r == self.doc_id(),
    {
        self.id
    }

    /// The layers shown for the current frame: the document's layer stack.
    pub fn current_display_layers(&self) -> (r: &LayerStack)
        ensures
            *r == self.stack(),
    {
        &self.layers
    }

    /// The composite must be made anew: it is out of date or was never made.
    pub fn needs_composite(&self) -> (b: bool)
        ensures
            b == (self.dirty() || self.cache() is None),
    {
        self.composite_dirty || self.cached_composite.is_none()
    }

    /// The composite image, through the cache.
    ///
    /// `composite` is the blend of the visible layers (made by the caller,
    /// in floating point), or `None` when no layer is visible. When the
    /// cache must be renewed and a blend is given, it is cached and the cache
    /// is up to date. A copy of the cached image is returned; with none
    /// cached, a copy of the active layer's sprite, or else an empty 32x32
    /// full-colour sprite.
    pub fn get_composite_sprite(&mut self, composite: Option<SpriteData>) -> (s: SpriteData)
        ensures
            final(self).cache() == (if (old(self).dirty() || old(self).cache() is None) && composite is Some {
                composite
            } else {
                old(self).cache()
            }),
            final(self).dirty() == (if (old(self).dirty() || old(self).cache() is None) && composite is Some {
                false
            } else {
                old(self).dirty()
            }),
            match final(self).cache() {
                Some(c) => s@ == c@,
                None => match old(self).stack().active_layer_spec() {
                    Some(l) => s@ == l.sprite@,
                    None => s.width == 32 && s.height == 32 && s.mode is FullColor && s.pixels@.len() == 0,
                },
            },
            final(self).stack() == old(self).stack(),
            final(self).anims() == old(self).anims(),
            final(self).hist() == old(self).hist(),
            final(self).frames() == old(self).frames(),
            final(self).frame() == old(self).frame(),
    {
        if self.composite_dirty || self.cached_composite.is_none() {
            if let Some(c) = composite {
                self.cached_composite = Some(c);
                self.composite_dirty = false;
            }
        }
        match &self.cached_composite {
            Some(c) => c.copy(),
            None => match self.layers.active_layer() {
                Some(l) => l.sprite.copy(),
                None => SpriteData::new(32, 32, ColorMode::FullColor),
            },
        }
    }

    /// Paint one pixel of the active layer: refused on a locked layer, else
    /// as `SpriteData::set_pixel`; the composite is out of date after a
    /// pixel was painted.
    pub(crate) fn paint_active_pixel(&mut self, x: u32, y: u32, color: &[u8]) -> (r: Result<(), String>)
        requires
            old(self).wf(),
        ensures
            only_layers_changed(*final(self), *old(self)),
            ({
                let q = old(self).stack().seq();
                let a = old(self).stack().active();
                let s0 = q[a].sprite;
                if q[a].locked {
                    r matches Err(e) && e@ == "Layer is locked"@ && *final(self) == *old(self)
                } else {
                    &&& forall|j: int| 0 <= j < q.len() && j != a ==> (#[trigger] final(self).stack().seq()[j]) == q[j]
                    &&& r is Ok <==> (s0.in_bounds(x as int, y as int) && color@.len() == s0.bpp())
                    &&& r is Ok ==> repainted(final(self).stack().seq()[a], q[a],
                        spec_write(s0.pixels@, s0.offset(x as int, y as int), color@))
                    &&& r is Ok ==> final(self).dirty()
                    &&& r is Err ==> final(self).stack().seq() == q && final(self).dirty() == old(self).dirty()
                    &&& r matches Err(e) ==> e@ == (if !s0.in_bounds(x as int, y as int) {
                        "Pixel out of bounds"@
                    } else {
                        "Invalid pixel data size"@
                    })
                }
            }),
    {
        match self.layers.active_layer() {
            Some(layer) => {
                if layer.locked {
                    return Err(String::from_str("Layer is locked"));
                }
            },
            None => {
                return Err(String::from_str("No active layer"));
            },
        }
        let a = self.layers.active_layer_idx();
        let r = self.layers.paint_pixel(a, x, y, color);
        match r {
            Ok(()) => {
                self.composite_dirty = true;
                Ok(())
            },
            Err(e) => {
                assert(self.layers.seq() =~= old(self).layers.seq());
                Err(e)
            },
        }
    }

    /// Read one pixel of the active layer's sprite (see
    /// `SpriteData::get_pixel`).
    pub(crate) fn sample_active_pixel(&self, x: u32, y: u32) -> (r: Option<Vec<u8>>)
        requires
            self.wf(),
        ensures
            ({
                let s = self.stack().seq()[self.stack().active()].sprite;
                match r {
                    None => !s.in_bounds(x as int, y as int),
                    Some(v) => s.in_bounds(x as int, y as int) && v@ == s.pixel(x as int, y as int),
                }
            }),
    {
        match self.layers.active_layer() {
            Some(layer) => layer.sprite.get_pixel(x, y),
            None => None,
        }
    }

    /// Mark the composite out of date.
    pub fn invalidate_composite(&mut self)
        ensures
            final(self).dirty(),
            final(self).stack() == old(self).stack(),
            final(self).anims() == old(self).anims(),
            final(self).hist() == old(self).hist(),
            final(self).cache() == old(self).cache(),
            final(self).frames() == old(self).frames(),
            final(self).frame() == old(self).frame(),
    {
        self.composite_dirty = true;
    }

    /// The composite is out of date.
    pub fn is_composite_dirty(&self) -> (b: bool)
        ensures
            b == self.dirty(),
    {
        self.composite_dirty
    }

    pub fn can_undo(&self) -> (b: bool)
        ensures
            b == (self.hist()@.0.len() > 0),
    {
        self.history.can_undo()
    }

    pub fn can_redo(&self) -> (b: bool)
        ensures
            b == (self.hist()@.1.len() > 0),
    {
        self.history.can_redo()
    }

    /// The layer sprites recorded for a frame, by layer id.
    pub fn get_frame_layers(&self, frame_num: u32) -> (r: Option<&HashMap<u32, SpriteData>>)
        ensures
            r == (if self.frames().contains_key(frame_num) {
                Some(&self.frames()[frame_num])
            } else {
                None
            }),
    {
        self.frame_data.get(&frame_num)
    }

    /// Record the layer sprites of a frame, replacing what was there.
    pub fn set_frame_layers(&mut self, frame_num: u32, layers: HashMap<u32, SpriteData>)
        ensures
            final(self).frames() == old(self).frames().insert(frame_num, layers),
            final(self).stack() == old(self).stack(),
            final(self).anims() == old(self).anims(),
            final(self).hist() == old(self).hist(),
            final(self).cache() == old(self).cache(),
            final(self).dirty() == old(self).dirty(),
            final(self).frame() == old(self).frame(),
    {
        self.frame_data.insert(frame_num, layers);
    }

    pub fn current_frame_num(&self) -> (n: u32)
        ensures
            n == self.frame(),
    {
        self.current_frame
    }

    /// Show another frame; the composite is out of date.
    pub fn set_current_frame(&mut self, frame_num: u32)
        ensures
            final(self).frame() == frame_num,
            final(self).dirty(),
            final(self).stack() == old(self).stack(),
            final(self).anims() == old(self).anims(),
            final(self).hist() == old(self).hist(),
            final(self).cache() == old(self).cache(),
            final(self).frames() == old(self).frames(),
    {
        self.current_frame = frame_num;
        self.composite_dirty = true;
    }
}

/// `i` is the first index in `q` of a layer with the id.
pub open spec fn first_with_id(q: Seq<Layer>, id: u32, i: int) -> bool {
    &&& 0 <= i < q.len()
    &&& q[i].id == id
    &&& forall|j: int| 0 <= j < i ==> (#[trigger] q[j]).id != id
}

/// Index of the first layer of `q` with the id, or -1 when there is none.
pub open spec fn index_of_id(q: Seq<Layer>, id: u32) -> int {
    if exists|i: int| first_with_id(q, id, i) {
        choose|i: int| first_with_id(q, id, i)
    } else {
        -1
    }
}

/// There is one first index.
pub proof fn lemma_first_with_id_unique(q: Seq<Layer>, id: u32, i: int, j: int)
    requires
        first_with_id(q, id, i),
        first_with_id(q, id, j),
    ensures
        i == j,
{
    if i < j {
        assert(q[i].id != id);
    } else if j < i {
        assert(q[j].id != id);
    }
}

/// Index of the first layer with the id.
fn find_layer(layers: &[Layer], id: u32) -> (r: Option<usize>)
    ensures
        match r {
            None => index_of_id(layers@, id) == -1 && forall|j: int| 0 <= j < layers@.len() ==> (#[trigger] layers@[j]).id != id,
            Some(i) => index_of_id(layers@, id) == i && first_with_id(layers@, id, i as int),
        },
{
    let mut i: usize = 0;
    while i < layers.len()
        invariant
            i <= layers@.len(),
            forall|j: int| 0 <= j < i ==> (#[trigger] layers@[j]).id != id,
        decreases layers@.len() - i,
    {
        if layers[i].id == id {
            proof {
                assert(first_with_id(layers@, id, i as int));
                let k = choose|k: int| first_with_id(layers@, id, k);
                lemma_first_with_id_unique(layers@, id, i as int, k);
            }
            return Some(i);
        }
        i = i + 1;
    }
    proof {
        if exists|k: int| first_with_id(layers@, id, k) {
            let k = choose|k: int| first_with_id(layers@, id, k);
            assert(layers@[k].id == id);
        }
    }
    None
}

/// Message of a command naming a layer that is not there.
pub open spec fn not_found_message(id: u32) -> Seq<char> {
    "Layer "@ + decimal(id as nat) + " not found"@
}

fn not_found(id: u32) -> (e: CommandExecutionError)
    ensures
        e.message@ == not_found_message(id),
{
    let mut m = String::from_str("Layer ");
    let d = decimal_string(id as u64);
    m.append(d.as_str());
    m.append(" not found");
    CommandExecutionError { message: m }
}

fn error_from(text: &str) -> (e: CommandExecutionError)
    ensures
        e.message@ == text@,
{
    CommandExecutionError { message: String::from_str(text) }
}

/// The id of the layer a layer command is about.
pub open spec fn command_layer(c: EditCommand) -> u32 {
    match c {
        EditCommand::PaintStroke { layer_id, .. } => layer_id,
        EditCommand::AddLayer { layer_id, .. } => layer_id,
        EditCommand::DeleteLayer { layer_id, .. } => layer_id,
        EditCommand::MoveLayer { layer_id, .. } => layer_id,
        EditCommand::SetLayerOpacity { layer_id, .. } => layer_id,
        EditCommand::SetLayerBlendMode { layer_id, .. } => layer_id,
        EditCommand::SetLayerVisibility { layer_id, .. } => layer_id,
        EditCommand::SetLayerLocked { layer_id, .. } => layer_id,
        _ => 0,
    }
}

/// The command sets one setting of a layer.
pub open spec fn is_setting(c: EditCommand) -> bool {
    ||| c is SetLayerOpacity
    ||| c is SetLayerBlendMode
    ||| c is SetLayerVisibility
    ||| c is SetLayerLocked
}

/// The layer with the setting of a setting command at its new value (the
/// opacity clamped into 0.0 to 1.0).
pub open spec fn with_new_setting(c: EditCommand, l: Layer) -> Layer {
    match c {
        EditCommand::SetLayerOpacity { new_opacity_bits, .. } => Layer {
            opacity_bits: clamped(new_opacity_bits, ZERO, ONE),
            ..l
        },
        EditCommand::SetLayerBlendMode { new_mode, .. } => Layer { blend_mode: new_mode, ..l },
        EditCommand::SetLayerVisibility { new_visible, .. } => Layer { visible: new_visible, ..l },
        EditCommand::SetLayerLocked { new_locked, .. } => Layer { locked: new_locked, ..l },
        _ => l,
    }
}

/// The layer with the setting of a setting command back at its old value
/// (the opacity clamped into 0.0 to 1.0).
pub open spec fn with_old_setting(c: EditCommand, l: Layer) -> Layer {
    match c {
        EditCommand::SetLayerOpacity { old_opacity_bits, .. } => Layer {
            opacity_bits: clamped(old_opacity_bits, ZERO, ONE),
            ..l
        },
        EditCommand::SetLayerBlendMode { old_mode, .. } => Layer { blend_mode: old_mode, ..l },
        EditCommand::SetLayerVisibility { old_visible, .. } => Layer { visible: old_visible, ..l },
        EditCommand::SetLayerLocked { old_locked, .. } => Layer { locked: old_locked, ..l },
        _ => l,
    }
}

/// Message with which `apply` refuses a command other than a paint stroke
/// or a setting found on a layer of `q`; `None` when it carries it out.
pub open spec fn apply_refusal(c: EditCommand, q: Seq<Layer>) -> Option<Seq<char>> {
    match c {
        EditCommand::PaintStroke { .. } => None,
        EditCommand::AddLayer { .. } => Some("AddLayer must be applied via LayerStack API"@),
        EditCommand::DeleteLayer { layer_id, .. } => if index_of_id(q, layer_id) >= 0 {
            Some("DeleteLayer must be applied via LayerStack API"@)
        } else {
            Some(not_found_message(layer_id))
        },
        EditCommand::MoveLayer { .. } => Some("MoveLayer must be applied via LayerStack API"@),
        EditCommand::AddFrame { .. } => Some("AddFrame not yet implemented"@),
        EditCommand::DeleteFrame { .. } => Some("DeleteFrame not yet implemented"@),
        EditCommand::SetFrameDuration { .. } => Some("SetFrameDuration not yet implemented"@),
        _ => if index_of_id(q, command_layer(c)) >= 0 {
            None
        } else {
            Some(not_found_message(command_layer(c)))
        },
    }
}

/// Message with which `revert` refuses a command; `None` when it carries it
/// out (a setting found on a layer of `q`).
pub open spec fn revert_refusal(c: EditCommand, q: Seq<Layer>) -> Option<Seq<char>> {
    if c is PaintStroke {
        Some("PaintStroke requires old_colors for proper revert"@)
    } else if is_setting(c) {
        if index_of_id(q, command_layer(c)) >= 0 {
            None
        } else {
            Some(not_found_message(command_layer(c)))
        }
    } else {
        Some("This command type does not support revert yet"@)
    }
}

/// The pixel can be painted on the sprite: it lies inside and its colour is
/// one pixel long.
pub open spec fn pixel_ok(s: SpriteData, p: (u32, u32, Vec<u8>)) -> bool {
    s.in_bounds(p.0 as int, p.1 as int) && p.2@.len() == s.bpp()
}

/// Index of the first pixel from `k` on that cannot be painted, or the
/// number of pixels when all can.
pub open spec fn first_bad_from(s: SpriteData, px: Seq<(u32, u32, Vec<u8>)>, k: int) -> int
    decreases px.len() - k,
{
    if k >= px.len() || k < 0 {
        px.len() as int
    } else if !pixel_ok(s, px[k]) {
        k
    } else {
        first_bad_from(s, px, k + 1)
    }
}

/// The sprite's bytes after painting its first `k` pixels in order.
pub open spec fn stroke_bytes(s: SpriteData, px: Seq<(u32, u32, Vec<u8>)>, k: int) -> Seq<u8>
    decreases k,
{
    if k <= 0 {
        s.pixels@
    } else {
        spec_write(stroke_bytes(s, px, k - 1), s.offset(px[k - 1].0 as int, px[k - 1].1 as int), px[k - 1].2@)
    }
}

/// `after` is `before` with its sprite's bytes replaced.
pub open spec fn repainted(after: Layer, before: Layer, bytes: Seq<u8>) -> bool {
    &&& same_settings(after, before)
    &&& after.sprite.width == before.sprite.width
    &&& after.sprite.height == before.sprite.height
    &&& after.sprite.mode == before.sprite.mode
    &&& after.sprite.pixels@ == bytes
}

/// The message with which painting a pixel that cannot be painted fails.
pub open spec fn paint_failure(s: SpriteData, p: (u32, u32, Vec<u8>)) -> Seq<char> {
    "Failed to paint pixel: "@ + if !s.in_bounds(p.0 as int, p.1 as int) {
        "Pixel out of bounds"@
    } else {
        "Invalid pixel data size"@
    }
}

/// `d1` is `d0` with only the layer list and the composite flag maybe
/// changed.
pub open spec fn only_layers_changed(d1: SpriteDocument, d0: SpriteDocument) -> bool {
    &&& d1.wf()
    &&& d1.doc_id() == d0.doc_id()
    &&& d1.name_seq() == d0.name_seq()
    &&& d1.stack().active() == d0.stack().active()
    &&& d1.stack().next() == d0.stack().next()
    &&& d1.stack().seq().len() == d0.stack().seq().len()
    &&& d1.anims() == d0.anims()
    &&& d1.hist() == d0.hist()
    &&& d1.cache() == d0.cache()
    &&& d1.frames() == d0.frames()
    &&& d1.frame() == d0.frame()
}

impl EditCommand {
    /// Carry out the command on the document.
    ///
    /// A paint stroke paints its pixels in order on the first layer with its
    /// id, stopping at the first pixel that cannot be painted (the ones
    /// before it stay painted); a setting command changes the setting of the
    /// first layer with its id. Either fails when no layer has the id. The
    /// composite is marked out of date after a full stroke or a change of
    /// opacity, blend mode or visibility. The other commands are refused.
    pub fn apply(&self, doc: &mut SpriteDocument) -> (r: Result<(), CommandExecutionError>)
        requires
            old(doc).wf(),
        ensures
            only_layers_changed(*final(doc), *old(doc)),
            !(*self is PaintStroke) ==> match apply_refusal(*self, old(doc).stack().seq()) {
                Some(m) => r matches Err(e) && e.message@ == m && *final(doc) == *old(doc),
                None => {
                    let q = old(doc).stack().seq();
                    let i = index_of_id(q, command_layer(*self));
                    &&& r is Ok
                    &&& final(doc).stack().seq() == q.update(i, with_new_setting(*self, q[i]))
                    &&& final(doc).dirty() == (old(doc).dirty() || !(*self is SetLayerLocked))
                },
            },
            *self matches EditCommand::PaintStroke { layer_id, pixels } ==> {
                let q = old(doc).stack().seq();
                let i = index_of_id(q, layer_id);
                if i < 0 {
                    r matches Err(e) && e.message@ == not_found_message(layer_id) && *final(doc) == *old(doc)
                } else {
                    let s = q[i].sprite;
                    let k = first_bad_from(s, pixels@, 0);
                    &&& forall|j: int| 0 <= j < q.len() && j != i ==> (#[trigger] final(doc).stack().seq()[j]) == q[j]
                    &&& repainted(final(doc).stack().seq()[i], q[i], stroke_bytes(s, pixels@, k))
                    &&& k == pixels@.len() ==> r is Ok && final(doc).dirty()
                    &&& k < pixels@.len() ==> (r matches Err(e) && e.message@ == paint_failure(s, pixels@[k])
                        && final(doc).dirty() == old(doc).dirty())
                }
            },
    {
        match self {
            EditCommand::PaintStroke { layer_id, pixels } => {
                match find_layer(doc.layers.layers(), *layer_id) {
                    None => Err(not_found(*layer_id)),
                    Some(i) => {
                        let r = paint_stroke(doc, i, pixels);
                        if r.is_ok() {
                            doc.composite_dirty = true;
                        }
                        r
                    },
                }
            },
            EditCommand::AddLayer { .. } => Err(error_from("AddLayer must be applied via LayerStack API")),
            EditCommand::DeleteLayer { layer_id, .. } => {
                match find_layer(doc.layers.layers(), *layer_id) {
                    Some(_) => Err(error_from("DeleteLayer must be applied via LayerStack API")),
                    None => Err(not_found(*layer_id)),
                }
            },
            EditCommand::MoveLayer { .. } => Err(error_from("MoveLayer must be applied via LayerStack API")),
            EditCommand::AddFrame { .. } => Err(error_from("AddFrame not yet implemented")),
            EditCommand::DeleteFrame { .. } => Err(error_from("DeleteFrame not yet implemented")),
            EditCommand::SetFrameDuration { .. } => Err(error_from("SetFrameDuration not yet implemented")),
            EditCommand::SetLayerOpacity { layer_id, new_opacity_bits, .. } => {
                set_layer_setting(doc, *layer_id, self, true)
            },
            EditCommand::SetLayerBlendMode { layer_id, .. } => set_layer_setting(doc, *layer_id, self, true),
            EditCommand::SetLayerVisibility { layer_id, .. } => set_layer_setting(doc, *layer_id, self, true),
            EditCommand::SetLayerLocked { layer_id, .. } => set_layer_setting(doc, *layer_id, self, true),
        }
    }

    /// Undo the command on the document: a setting command puts the setting
    /// of the first layer with its id back to its old value (and fails when
    /// no layer has the id); the composite is marked out of date unless the
    /// setting is the lock. Other commands are refused.
    pub fn revert(&self, doc: &mut SpriteDocument) -> (r: Result<(), CommandExecutionError>)
        requires
            old(doc).wf(),
        ensures
            only_layers_changed(*final(doc), *old(doc)),
            match revert_refusal(*self, old(doc).stack().seq()) {
                Some(m) => r matches Err(e) && e.message@ == m && *final(doc) == *old(doc),
                None => {
                    let q = old(doc).stack().seq();
                    let i = index_of_id(q, command_layer(*self));
                    &&& r is Ok
                    &&& final(doc).stack().seq() == q.update(i, with_old_setting(*self, q[i]))
                    &&& final(doc).dirty() == (old(doc).dirty() || !(*self is SetLayerLocked))
                },
            },
    {
        match self {
            EditCommand::PaintStroke { .. } => Err(error_from("PaintStroke requires old_colors for proper revert")),
            EditCommand::SetLayerOpacity { layer_id, .. } => set_layer_setting(doc, *layer_id, self, false),
            EditCommand::SetLayerBlendMode { layer_id, .. } => set_layer_setting(doc, *layer_id, self, false),
            EditCommand::SetLayerVisibility { layer_id, .. } => set_layer_setting(doc, *layer_id, self, false),
            EditCommand::SetLayerLocked { layer_id, .. } => set_layer_setting(doc, *layer_id, self, false),
            _ => Err(error_from("This command type does not support revert yet")),
        }
    }
}

/// Set the setting of a setting command on the first layer with the id: to
/// its new value when `forward`, else to its old value.
fn set_layer_setting(doc: &mut SpriteDocument, layer_id: u32, c: &EditCommand, forward: bool) -> (r: Result<(), CommandExecutionError>)
    requires
        old(doc).wf(),
        is_setting(*c),
        layer_id == command_layer(*c),
    ensures
        only_layers_changed(*final(doc), *old(doc)),
        ({
            let q = old(doc).stack().seq();
            let i = index_of_id(q, layer_id);
            if i < 0 {
                r matches Err(e) && e.message@ == not_found_message(layer_id) && *final(doc) == *old(doc)
            } else {
                &&& r is Ok
                &&& final(doc).stack().seq() == q.update(i, if forward {
                    with_new_setting(*c, q[i])
                } else {
                    with_old_setting(*c, q[i])
                })
                &&& final(doc).dirty() == (old(doc).dirty() || !(*c is SetLayerLocked))
            }
        }),
{
    match find_layer(doc.layers.layers(), layer_id) {
        None => Err(not_found(layer_id)),
        Some(i) => {
            let ghost q = doc.layers.seq();
            let ghost target = if forward { with_new_setting(*c, q[i as int]) } else { with_old_setting(*c, q[i as int]) };
            let layer = doc.layers.layer_mut(i);
            match c {
                EditCommand::SetLayerOpacity { old_opacity_bits, new_opacity_bits, .. } => {
                    layer.set_opacity(if forward { *new_opacity_bits } else { *old_opacity_bits });
                },
                EditCommand::SetLayerBlendMode { old_mode, new_mode, .. } => {
                    layer.blend_mode = if forward { *new_mode } else { *old_mode };
                },
                EditCommand::SetLayerVisibility { old_visible, new_visible, .. } => {
                    layer.visible = if forward { *new_visible } else { *old_visible };
                },
                EditCommand::SetLayerLocked { old_locked, new_locked, .. } => {
                    layer.locked = if forward { *new_locked } else { *old_locked };
                },
                _ => {},
            }
            if !matches!(c, EditCommand::SetLayerLocked { .. }) {
                doc.composite_dirty = true;
            }
            proof {
                assert(doc.layers.seq()[i as int] == target);
                assert(doc.layers.seq() =~= q.update(i as int, target));
                assert forall|k: int| 0 <= k < doc.layers.seq().len() implies (#[trigger] doc.layers.seq()[k]).sprite.wf() by {
                    assert(old(doc).layers.seq()[k].sprite.wf());
                }
            }
            Ok(())
        },
    }
}

/// Paint the stroke's pixels in order on the layer at `i`, stopping at the
/// first one that cannot be painted.
fn paint_stroke(doc: &mut SpriteDocument, i: usize, pixels: &Vec<(u32, u32, Vec<u8>)>) -> (r: Result<(), CommandExecutionError>)
    requires
        old(doc).wf(),
        i < old(doc).stack().seq().len(),
    ensures
        only_layers_changed(*final(doc), *old(doc)),
        final(doc).dirty() == old(doc).dirty(),
        ({
            let q = old(doc).stack().seq();
            let s = q[i as int].sprite;
            let k = first_bad_from(s, pixels@, 0);
            &&& forall|j: int| 0 <= j < q.len() && j != i ==> (#[trigger] final(doc).stack().seq()[j]) == q[j]
            &&& repainted(final(doc).stack().seq()[i as int], q[i as int], stroke_bytes(s, pixels@, k))
            &&& k == pixels@.len() ==> r is Ok
            &&& k < pixels@.len() ==> (r matches Err(e) && e.message@ == paint_failure(s, pixels@[k]))
        }),
{
    let ghost q = doc.layers.seq();
    let ghost s = q[i as int].sprite;
    let mut n: usize = 0;
    while n < pixels.len()
        invariant
            n <= pixels@.len(),
            i < q.len(),
            s == q[i as int].sprite,
            only_layers_changed(*doc, *old(doc)),
            doc.dirty() == old(doc).dirty(),
            old(doc).stack().seq() == q,
            forall|j: int| 0 <= j < q.len() && j != i ==> (#[trigger] doc.stack().seq()[j]) == q[j],
            repainted(doc.stack().seq()[i as int], q[i as int], stroke_bytes(s, pixels@, n as int)),
            forall|j: int| 0 <= j < n ==> pixel_ok(s, #[trigger] pixels@[j]),
            first_bad_from(s, pixels@, n as int) == first_bad_from(s, pixels@, 0),
        decreases pixels@.len() - n,
    {
        let p = &pixels[n];
        let res = doc.layers.paint_pixel(i, p.0, p.1, p.2.as_slice());
        match res {
            Err(e) => {
                let mut m = String::from_str("Failed to paint pixel: ");
                m.append(e.as_str());
                return Err(CommandExecutionError { message: m });
            },
            Ok(()) => {},
        }
        n = n + 1;
    }
    Ok(())
}

/// Replacing layers by ones with the same ids keeps where each id is
/// first found.
pub proof fn lemma_index_of_id_same_ids(q: Seq<Layer>, r: Seq<Layer>, id: u32)
    requires
        q.len() == r.len(),
        forall|j: int| 0 <= j < q.len() ==> (#[trigger] q[j]).id == r[j].id,
    ensures
        index_of_id(q, id) == index_of_id(r, id),
{
    if exists|i: int| first_with_id(q, id, i) {
        let i = choose|i: int| first_with_id(q, id, i);
        assert(first_with_id(r, id, i)) by {
            assert forall|j: int| 0 <= j < i implies (#[trigger] r[j]).id != id by {
                assert(q[j].id == r[j].id);
            }
        }
        let k = choose|k: int| first_with_id(r, id, k);
        lemma_first_with_id_unique(r, id, i, k);
    } else if exists|i: int| first_with_id(r, id, i) {
        let i = choose|i: int| first_with_id(r, id, i);
        assert(first_with_id(q, id, i)) by {
            assert forall|j: int| 0 <= j < i implies (#[trigger] q[j]).id != id by {
                assert(q[j].id == r[j].id);
            }
        }
    }
}

/// The command's old value is the layer's current setting (an opacity as
/// it reads after clamping).
pub open spec fn old_value_current(c: EditCommand, l: Layer) -> bool {
    match c {
        EditCommand::SetLayerOpacity { old_opacity_bits, .. } => clamped(old_opacity_bits, ZERO, ONE) == l.opacity_bits,
        EditCommand::SetLayerBlendMode { old_mode, .. } => old_mode == l.blend_mode,
        EditCommand::SetLayerVisibility { old_visible, .. } => old_visible == l.visible,
        EditCommand::SetLayerLocked { old_locked, .. } => old_locked == l.locked,
        _ => true,
    }
}

/// Reverting a setting command undoes applying it: when the command's old
/// value is the layer's current setting, applying and then reverting gives
/// back the same layers; both steps act on the same layer.
pub proof fn law_revert_undoes_apply(c: EditCommand, q: Seq<Layer>)
    requires
        is_setting(c),
        index_of_id(q, command_layer(c)) >= 0,
        old_value_current(c, q[index_of_id(q, command_layer(c))]),
    ensures
        ({
            let id = command_layer(c);
            let i = index_of_id(q, id);
            let q1 = q.update(i, with_new_setting(c, q[i]));
            &&& index_of_id(q1, id) == i
            &&& q1.update(i, with_old_setting(c, q1[i])) == q
        }),
{
    let id = command_layer(c);
    let i = index_of_id(q, id);
    let q1 = q.update(i, with_new_setting(c, q[i]));
    lemma_index_of_id_same_ids(q, q1, id);
    assert(q1.update(i, with_old_setting(c, q1[i])) =~= q);
}

/// Applying a setting command twice leaves the layers as applying it once.
pub proof fn law_apply_setting_idempotent(c: EditCommand, q: Seq<Layer>)
    requires
        is_setting(c),
        index_of_id(q, command_layer(c)) >= 0,
    ensures
        ({
            let id = command_layer(c);
            let i = index_of_id(q, id);
            let q1 = q.update(i, with_new_setting(c, q[i]));
            &&& index_of_id(q1, id) == i
            &&& q1.update(i, with_new_setting(c, q1[i])) == q1
        }),
{
    let id = command_layer(c);
    let i = index_of_id(q, id);
    let q1 = q.update(i, with_new_setting(c, q[i]));
    lemma_index_of_id_same_ids(q, q1, id);
    match c {
        EditCommand::SetLayerOpacity { new_opacity_bits, .. } => {
            let v = clamped(new_opacity_bits, ZERO, ONE);
            assert(clamped(v, ZERO, ONE) == v);
        },
        _ => {},
    }
    assert(q1.update(i, with_new_setting(c, q1[i])) =~= q1);
}

/// Name of a blend mode as stored.
pub open spec fn blend_name(m: BlendMode) -> Seq<char> {
    match m {
        BlendMode::Normal => "Normal"@,
        BlendMode::Add => "Add"@,
        BlendMode::Multiply => "Multiply"@,
        BlendMode::Screen => "Screen"@,
    }
}

fn blend_name_string(m: BlendMode) -> (s: String)
    ensures
        s@ == blend_name(m),
{
    match m {
        BlendMode::Normal => String::from_str("Normal"),
        BlendMode::Add => String::from_str("Add"),
        BlendMode::Multiply => String::from_str("Multiply"),
        BlendMode::Screen => String::from_str("Screen"),
    }
}

/// File name of the cel of a layer in a frame: `cel_<frame>_<layer>.bin`.
pub open spec fn cel_name(frame_num: u32, layer_id: u32) -> Seq<char> {
    "cel_"@ + decimal(frame_num as nat) + "_"@ + decimal(layer_id as nat) + ".bin"@
}

/// The stored definition of a layer.
pub open spec fn layer_def_of(d: nQLayerDef, l: Layer) -> bool {
    &&& d.id == l.id
    &&& d.name@ == l.name@
    &&& d.default_opacity_bits == l.opacity_bits
    &&& d.default_blend_mode@ == blend_name(l.blend_mode)
}

/// The ids of the layers.
pub open spec fn layer_ids(layers: Seq<Layer>) -> Set<u32> {
    Set::new(|id: u32| exists|i: int| 0 <= i < layers.len() && (#[trigger] layers[i]).id == id)
}

/// The cel file names of a frame: one per layer id.
pub open spec fn cels_of(cels: Map<u32, String>, frame_num: u32, layers: Seq<Layer>) -> bool {
    &&& cels.dom() == layer_ids(layers)
    &&& forall|id: u32| #[trigger] cels.contains_key(id) ==> cels[id]@ == cel_name(frame_num, id)
}

/// The stored form of a frame, with cel files for the given layers.
pub open spec fn frame_data_of(d: nQFrameData, f: Frame, layers: Seq<Layer>) -> bool {
    &&& d.frame_num == f.frame_num
    &&& d.duration_ms == f.duration_ms
    &&& cels_of(d.cels@, f.frame_num, layers)
}

/// The stored form of a clip, with cel files for the given layers.
pub open spec fn clip_data_of(d: nQAnimationClipData, c: AnimationClip, layers: Seq<Layer>) -> bool {
    &&& d.name@ == c.name_seq()
    &&& d.looping == c.loops()
    &&& d.frames@.len() == c.frame_seq().len()
    &&& forall|k: int| 0 <= k < d.frames@.len() ==> frame_data_of(#[trigger] d.frames@[k], c.frame_seq()[k], layers)
}

/// Type name of a command in the stored history.
pub open spec fn record_type(c: CommandView) -> Seq<char> {
    match c {
        CommandView::PaintStroke { .. } => "PaintStroke"@,
        CommandView::AddLayer { .. } => "AddLayer"@,
        CommandView::DeleteLayer { .. } => "DeleteLayer"@,
        CommandView::SetLayerOpacity { .. } => "SetOpacity"@,
        CommandView::SetLayerBlendMode { .. } => "SetBlendMode"@,
        _ => "Other"@,
    }
}

/// Description of a command other than an opacity change in the stored
/// history.
pub open spec fn record_description(c: CommandView) -> Seq<char> {
    match c {
        CommandView::PaintStroke { layer_id, .. } => "Paint on layer "@ + decimal(layer_id as nat),
        CommandView::AddLayer { name, .. } => "Add layer '"@ + name + "'"@,
        CommandView::DeleteLayer { layer_id, .. } => "Delete layer "@ + decimal(layer_id as nat),
        CommandView::SetLayerBlendMode { new_mode, .. } => "Blend -> "@ + blend_name(new_mode),
        _ => "Edit operation"@,
    }
}

/// The stored record of the command at position `idx` of the history
/// excerpt; an opacity change is described as `Opacity -> ` and the text
/// `describe_opacity` gives for the new opacity.
pub open spec fn record_of<F: Fn(u32) -> String>(r: nQCommandRecord, idx: int, c: CommandView, describe_opacity: F) -> bool {
    &&& r.timestamp == idx
    &&& r.command_type@ == record_type(c)
    &&& (c matches CommandView::SetLayerOpacity { new_opacity_bits, .. } ==> exists|t: String|
        call_ensures(describe_opacity, (new_opacity_bits,), t) && r.description@ == "Opacity -> "@ + t@)
    &&& (!(c is SetLayerOpacity) ==> r.description@ == record_description(c))
}

/// The stored definition of a layer.
fn layer_def(l: &Layer) -> (d: nQLayerDef)
    ensures
        layer_def_of(d, *l),
{
    nQLayerDef {
        id: l.id,
        name: l.name.clone(),
        default_opacity_bits: l.opacity_bits,
        default_blend_mode: blend_name_string(l.blend_mode),
    }
}

/// The cel file names of a frame, one per layer id.
fn cel_map(frame_num: u32, layers: &[Layer]) -> (m: HashMap<u32, String>)
    ensures
        cels_of(m@, frame_num, layers@),
{
    let mut m: HashMap<u32, String> = HashMap::new();
    proof {
        assert(m@.dom() =~= layer_ids(layers@.subrange(0, 0)));
    }
    let mut i: usize = 0;
    while i < layers.len()
        invariant
            i <= layers@.len(),
            cels_of(m@, frame_num, layers@.subrange(0, i as int)),
        decreases layers@.len() - i,
    {
        let ghost before = m@;
        let id = layers[i].id;
        m.insert(id, cel_filename(frame_num, id));
        proof {
            let p0 = layers@.subrange(0, i as int);
            let p1 = layers@.subrange(0, i + 1);
            assert forall|x: u32| layer_ids(p1).contains(x) <==> m@.dom().contains(x) by {
                if layer_ids(p1).contains(x) && x != id {
                    let j = choose|j: int| 0 <= j < p1.len() && (#[trigger] p1[j]).id == x;
                    assert(j < i);
                    assert(p0[j].id == x);
                    assert(layer_ids(p0).contains(x));
                }
                if before.contains_key(x) {
                    let j = choose|j: int| 0 <= j < p0.len() && (#[trigger] p0[j]).id == x;
                    assert(p1[j].id == x);
                }
                if x == id {
                    assert(p1[i as int].id == x);
                }
            }
            assert(m@.dom() =~= layer_ids(p1));
        }
        i = i + 1;
    }
    assert(layers@.subrange(0, layers@.len() as int) =~= layers@);
    m
}

/// The stored record of a command at position `idx` of the history excerpt.
fn command_record<F: Fn(u32) -> String>(idx: u64, c: &EditCommand, describe_opacity: &F) -> (r: nQCommandRecord)
    requires
        forall|b: u32| call_requires(*describe_opacity, (b,)),
    ensures
        record_of(r, idx as int, c@, *describe_opacity),
{
    match c {
        EditCommand::PaintStroke { layer_id, .. } => {
            let mut d = String::from_str("Paint on layer ");
            d.append(decimal_string(*layer_id as u64).as_str());
            nQCommandRecord { timestamp: idx, command_type: String::from_str("PaintStroke"), description: d }
        },
        EditCommand::AddLayer { name, .. } => {
            let mut d = String::from_str("Add layer '");
            d.append(name.as_str());
            d.append("'");
            nQCommandRecord { timestamp: idx, command_type: String::from_str("AddLayer"), description: d }
        },
        EditCommand::DeleteLayer { layer_id, .. } => {
            let mut d = String::from_str("Delete layer ");
            d.append(decimal_string(*layer_id as u64).as_str());
            nQCommandRecord { timestamp: idx, command_type: String::from_str("DeleteLayer"), description: d }
        },
        EditCommand::SetLayerOpacity { new_opacity_bits, .. } => {
            let t = describe_opacity(*new_opacity_bits);
            let mut d = String::from_str("Opacity -> ");
            d.append(t.as_str());
            nQCommandRecord { timestamp: idx, command_type: String::from_str("SetOpacity"), description: d }
        },
        EditCommand::SetLayerBlendMode { new_mode, .. } => {
            let mut d = String::from_str("Blend -> ");
            d.append(blend_name_string(*new_mode).as_str());
            nQCommandRecord { timestamp: idx, command_type: String::from_str("SetBlendMode"), description: d }
        },
        _ => nQCommandRecord {
            timestamp: idx,
            command_type: String::from_str("Other"),
            description: String::from_str("Edit operation"),
        },
    }
}

impl SpriteDocument {
    /// The document's metadata for storing: its name, a definition per
    /// layer, each clip with each frame's cel files (one per layer of the
    /// document), no frames of its own, and a record per command of the last
    /// 100 that can be undone (oldest first, numbered from 0).
    ///
    /// `describe_opacity` writes an opacity (an `f32` encoding) for the
    /// record of an opacity change.
    pub fn to_format<F: Fn(u32) -> String>(&self, describe_opacity: F) -> (f: nQDocumentFormat)
        requires
            self.wf(),
            forall|b: u32| call_requires(describe_opacity, (b,)),
        ensures
            f.version == FORMAT_VERSION,
            f.name@ == self.name_seq(),
            f.layers@.len() == self.stack().seq().len(),
            forall|i: int| 0 <= i < f.layers@.len() ==> layer_def_of(#[trigger] f.layers@[i], self.stack().seq()[i]),
            f.clips@.len() == self.anims().clip_seq().len(),
            forall|c: int| 0 <= c < f.clips@.len() ==> clip_data_of(#[trigger] f.clips@[c], self.anims().clip_seq()[c], self.stack().seq()),
            f.frames@.len() == 0,
            ({
                let u = self.hist()@.0;
                let start = if u.len() > 100 { u.len() - 100 } else { 0 };
                &&& f.history@.len() == u.len() - start
                &&& forall|k: int| 0 <= k < f.history@.len() ==> record_of(#[trigger] f.history@[k], k, u[start + k], describe_opacity)
            }),
    {
        let mut format = nQDocumentFormat::new(self.name.as_str());
        let layers = self.layers.layers();
        let mut i: usize = 0;
        while i < layers.len()
            invariant
                i <= layers@.len(),
                layers@ == self.stack().seq(),
                format.version == FORMAT_VERSION,
                format.name@ == self.name_seq(),
                format.layers@.len() == i,
                forall|j: int| 0 <= j < i ==> layer_def_of(#[trigger] format.layers@[j], layers@[j]),
                format.clips@.len() == 0,
                format.frames@.len() == 0,
                format.history@.len() == 0,
            decreases layers@.len() - i,
        {
            format.layers.push(layer_def(&layers[i]));
            i = i + 1;
        }
        let clips = self.animations.clips();
        let mut c: usize = 0;
        while c < clips.len()
            invariant
                c <= clips@.len(),
                clips@ == self.anims().clip_seq(),
                layers@ == self.stack().seq(),
                self.anims().wf(),
                format.version == FORMAT_VERSION,
                format.name@ == self.name_seq(),
                format.layers@.len() == layers@.len(),
                forall|j: int| 0 <= j < layers@.len() ==> layer_def_of(#[trigger] format.layers@[j], layers@[j]),
                format.clips@.len() == c,
                forall|j: int| 0 <= j < c ==> clip_data_of(#[trigger] format.clips@[j], clips@[j], layers@),
                format.frames@.len() == 0,
                format.history@.len() == 0,
            decreases clips@.len() - c,
        {
            let clip = &clips[c];
            let frames = clip.get_frames();
            let mut fs: Vec<nQFrameData> = Vec::new();
            let mut k: usize = 0;
            while k < frames.len()
                invariant
                    k <= frames@.len(),
                    frames@ == clip.frame_seq(),
                    fs@.len() == k,
                    forall|j: int| 0 <= j < k ==> frame_data_of(#[trigger] fs@[j], frames@[j], layers@),
                decreases frames@.len() - k,
            {
                let cels = cel_map(frames[k].frame_num, layers);
                fs.push(nQFrameData { frame_num: frames[k].frame_num, duration_ms: frames[k].duration_ms, cels });
                k = k + 1;
            }
            let name = String::from_str(clip.get_name());
            format.clips.push(nQAnimationClipData { name, frames: fs, looping: clip.is_looping() });
            c = c + 1;
        }
        let records = self.history.get_recent_commands(100);
        let ghost u = self.hist()@.0;
        let ghost start: int = if u.len() > 100 { u.len() - 100 } else { 0 };
        proof {
            assert(records@.map_values(|e: EditCommand| e@).len() == records@.len());
        }
        let mut idx: usize = 0;
        while idx < records.len()
            invariant
                idx <= records@.len(),
                records@.len() == u.len() - start,
                records@.map_values(|e: EditCommand| e@) == u.subrange(start, u.len() as int),
                0 <= start <= u.len(),
                format.version == FORMAT_VERSION,
                format.name@ == self.name_seq(),
                format.layers@.len() == layers@.len(),
                forall|j: int| 0 <= j < layers@.len() ==> layer_def_of(#[trigger] format.layers@[j], layers@[j]),
                format.clips@.len() == clips@.len(),
                forall|j: int| 0 <= j < clips@.len() ==> clip_data_of(#[trigger] format.clips@[j], clips@[j], layers@),
                format.frames@.len() == 0,
                format.history@.len() == idx,
                forall|j: int| 0 <= j < idx ==> record_of(#[trigger] format.history@[j], j, u[start + j], describe_opacity),
                forall|b: u32| call_requires(describe_opacity, (b,)),
            decreases records@.len() - idx,
        {
            let rec = command_record(idx as u64, &records[idx], &describe_opacity);
            proof {
                assert(records@.map_values(|e: EditCommand| e@)[idx as int] == records@[idx as int]@);
                assert(u.subrange(start, u.len() as int)[idx as int] == u[start + idx]);
            }
            format.history.push(rec);
            idx = idx + 1;
        }
        proof {
            assert(records@.map_values(|e: EditCommand| e@).len() == records@.len());
        }
        format
    }
}

} // verus!
