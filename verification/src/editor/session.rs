//! An editing session: the open documents, the active one, and the
//! editor's view state; painting on the active layer of the active
//! document.
use vstd::prelude::*;
use crate::editor::document::{only_layers_changed, repainted, SpriteDocument};
use crate::editor::format::io::{decimal, decimal_string};
use crate::editor::state::{EditorState, DEFAULT_ZOOM};
use crate::f32_bits::ZERO;
use crate::sprite::{spec_write, ColorMode, SpriteData};

verus! {

/// Identifier of a document.
pub type nQDocumentId = usize;

/// Identifier of a layer.
pub type nQLayerId = u32;

/// Painting and sampling on the active layer of whatever holds one.
pub trait nQEditorPainting {
    /// There is an active layer to paint on and sample.
    spec fn can_paint(&self) -> bool;

    /// Write one pixel of the active layer.
    fn paint_active_layer(&mut self, x: u32, y: u32, color: &[u8]) -> (r: Result<(), String>)
        requires
            old(self).can_paint(),
    ;

    /// Read one pixel of the active layer.
    fn sample_active_layer(&self, x: u32, y: u32) -> (r: Option<Vec<u8>>)
        requires
            self.can_paint(),
    ;

    /// The id of the active layer, if any.
    fn active_layer_id(&self) -> (r: Option<nQLayerId>)
        requires
            self.can_paint(),
    ;
}

/// `i` is the first index in `ds` of a document with the id.
pub open spec fn first_doc_with_id(ds: Seq<SpriteDocument>, id: usize, i: int) -> bool {
    &&& 0 <= i < ds.len()
    &&& ds[i].doc_id() == id
    &&& forall|j: int| 0 <= j < i ==> (#[trigger] ds[j]).doc_id() != id
}

/// Index of the first document of `ds` with the id, or -1 when there is
/// none.
pub open spec fn doc_index(ds: Seq<SpriteDocument>, id: usize) -> int {
    if exists|i: int| first_doc_with_id(ds, id, i) {
        choose|i: int| first_doc_with_id(ds, id, i)
    } else {
        -1
    }
}

/// There is one first index.
pub proof fn lemma_first_doc_unique(ds: Seq<SpriteDocument>, id: usize, i: int, j: int)
    requires
        first_doc_with_id(ds, id, i),
        first_doc_with_id(ds, id, j),
    ensures
        i == j,
{
    if i < j {
        assert(ds[i].doc_id() != id);
    } else if j < i {
        assert(ds[j].doc_id() != id);
    }
}

/// With distinct ids, the document at `i` is the one found by its id.
pub proof fn lemma_doc_index_distinct(ds: Seq<SpriteDocument>, i: int)
    requires
        0 <= i < ds.len(),
        forall|a: int, b: int| 0 <= a < b < ds.len() ==> (#[trigger] ds[a]).doc_id() != (#[trigger] ds[b]).doc_id(),
    ensures
        doc_index(ds, ds[i].doc_id()) == i,
{
    let id = ds[i].doc_id();
    assert(first_doc_with_id(ds, id, i)) by {
        assert forall|j: int| 0 <= j < i implies (#[trigger] ds[j]).doc_id() != id by {
            assert(ds[j].doc_id() != ds[i].doc_id());
        }
    }
    let k = choose|k: int| first_doc_with_id(ds, id, k);
    lemma_first_doc_unique(ds, id, i, k);
}

/// Index of the first document with the id.
fn find_document(ds: &Vec<SpriteDocument>, id: usize) -> (r: Option<usize>)
    ensures
        match r {
            None => doc_index(ds@, id) == -1 && forall|j: int| 0 <= j < ds@.len() ==> (#[trigger] ds@[j]).doc_id() != id,
            Some(i) => doc_index(ds@, id) == i && first_doc_with_id(ds@, id, i as int),
        },
{
    let mut i: usize = 0;
    while i < ds.len()
        invariant
            i <= ds@.len(),
            forall|j: int| 0 <= j < i ==> (#[trigger] ds@[j]).doc_id() != id,
        decreases ds@.len() - i,
    {
        if ds[i].get_id() == id {
            proof {
                assert(first_doc_with_id(ds@, id, i as int));
                let k = choose|k: int| first_doc_with_id(ds@, id, k);
                lemma_first_doc_unique(ds@, id, i as int, k);
            }
            return Some(i);
        }
        i = i + 1;
    }
    proof {
        if exists|k: int| first_doc_with_id(ds@, id, k) {
            let k = choose|k: int| first_doc_with_id(ds@, id, k);
            assert(ds@[k].doc_id() == id);
        }
    }
    None
}

/// `d` is a document just made with the id and name from an empty
/// full-colour sprite of the given size.
pub open spec fn is_new_document(d: SpriteDocument, id: usize, name: Seq<char>, width: u32, height: u32) -> bool {
    &&& d.wf()
    &&& d.doc_id() == id
    &&& d.name_seq() == name
    &&& d.stack().seq().len() == 1
    &&& d.stack().active() == 0
    &&& d.stack().seq()[0].id == 0
    &&& d.stack().seq()[0].name@ == "Background"@
    &&& d.stack().seq()[0].visible
    &&& !d.stack().seq()[0].locked
    &&& d.stack().seq()[0].sprite.width == width
    &&& d.stack().seq()[0].sprite.height == height
    &&& d.stack().seq()[0].sprite.mode is FullColor
    &&& d.stack().seq()[0].sprite.pixels@.len() == 0
    &&& d.hist()@.0.len() == 0
    &&& d.hist()@.1.len() == 0
    &&& d.dirty()
    &&& d.frame() == 0
}

/// The view state the editor starts with.
pub open spec fn is_start_state(s: EditorState) -> bool {
    &&& s.sprite_id is None
    &&& s.brush_color == [255u8, 0u8, 0u8, 255u8]
    &&& s.brush_size == 1
    &&& s.zoom_bits == DEFAULT_ZOOM
    &&& s.pan_x_bits == ZERO
    &&& s.pan_y_bits == ZERO
    &&& s.current_color_mode is None
}

/// The open documents, the active one, and the editor's view state.
#[derive(Debug)]
pub struct nQEditorSession {
    documents: Vec<SpriteDocument>,
    active_doc_id: nQDocumentId,
    ui_state: EditorState,
    next_doc_id: nQDocumentId,
}

impl nQEditorSession {
    /// The open documents, in the order they were opened.
    pub closed spec fn docs(&self) -> Seq<SpriteDocument> {
        self.documents@
    }

    /// Id of the active document.
    pub closed spec fn active_id(&self) -> usize {
        self.active_doc_id
    }

    pub closed spec fn ui(&self) -> EditorState {
        self.ui_state
    }

    /// The id the next created document gets.
    pub closed spec fn next(&self) -> usize {
        self.next_doc_id
    }

    /// Index of the active document.
    pub open spec fn active_index(&self) -> int {
        doc_index(self.docs(), self.active_id())
    }

    /// Every document is well formed, has an id below the next one and an
    /// id of its own, and the active id is one of them.
    pub open spec fn wf(&self) -> bool {
        &&& forall|i: int| 0 <= i < self.docs().len() ==> (#[trigger] self.docs()[i]).wf()
        &&& forall|i: int| 0 <= i < self.docs().len() ==> (#[trigger] self.docs()[i]).doc_id() < self.next()
        &&& forall|a: int, b: int| 0 <= a < b < self.docs().len()
            ==> (#[trigger] self.docs()[a]).doc_id() != (#[trigger] self.docs()[b]).doc_id()
        &&& self.active_index() >= 0
    }

    /// A session holding one document, `Untitled` (id 0), made from an
    /// empty 32x32 full-colour sprite, which is active.
    pub fn new() -> (s: nQEditorSession)
        ensures
            s.wf(),
            s.docs().len() == 1,
            is_new_document(s.docs()[0], 0, "Untitled"@, 32, 32),
            s.active_id() == 0,
            s.next() == 1,
            is_start_state(s.ui()),
    {
        let default_sprite = SpriteData::new(32, 32, ColorMode::FullColor);
        let doc = SpriteDocument::new(0, "Untitled", default_sprite);
        let mut documents: Vec<SpriteDocument> = Vec::new();
        documents.push(doc);
        let s = nQEditorSession { documents, active_doc_id: 0, ui_state: EditorState::new(), next_doc_id: 1 };
        proof {
            assert(first_doc_with_id(s.documents@, 0, 0));
        }
        s
    }

    /// Open a new document made from an empty full-colour sprite of the
    /// given size; it gets the next id and becomes active. Returns its id.
    pub fn create_document(&mut self, name: &str, width: u32, height: u32) -> (id: nQDocumentId)
        requires
            old(self).wf(),
            old(self).next() < usize::MAX,
            width * height * 4 <= usize::MAX,
        ensures
            final(self).wf(),
            id == old(self).next(),
            final(self).next() == old(self).next() + 1,
            final(self).active_id() == id,
            final(self).docs().len() == old(self).docs().len() + 1,
            final(self).docs().drop_last() == old(self).docs(),
            is_new_document(final(self).docs().last(), id, name@, width, height),
            final(self).ui() == old(self).ui(),
    {
        let sprite = SpriteData::new(width, height, ColorMode::FullColor);
        let doc = SpriteDocument::new(self.next_doc_id, name, sprite);
        let id = self.next_doc_id;
        self.next_doc_id = self.next_doc_id + 1;
        self.documents.push(doc);
        self.active_doc_id = id;
        proof {
            let ds = self.documents@;
            assert(ds.drop_last() =~= old(self).documents@);
            assert forall|a: int, b: int| 0 <= a < b < ds.len() implies (#[trigger] ds[a]).doc_id() != (#[trigger] ds[b]).doc_id() by {
                if b == ds.len() - 1 {
                    assert(ds[a] == old(self).documents@[a]);
                } else {
                    assert(ds[a] == old(self).documents@[a]);
                    assert(ds[b] == old(self).documents@[b]);
                }
            }
            assert forall|i: int| 0 <= i < ds.len() implies (#[trigger] ds[i]).wf() && ds[i].doc_id() < self.next_doc_id by {
                if i < ds.len() - 1 {
                    assert(ds[i] == old(self).documents@[i]);
                }
            }
            lemma_doc_index_distinct(ds, ds.len() - 1);
        }
        id
    }

    /// The first document with the id.
    pub fn get_document(&self, doc_id: nQDocumentId) -> (r: Option<&SpriteDocument>)
        ensures
            r == (if doc_index(self.docs(), doc_id) >= 0 {
                Some(&self.docs()[doc_index(self.docs(), doc_id)])
            } else {
                None
            }),
    {
        match find_document(&self.documents, doc_id) {
            Some(i) => Some(&self.documents[i]),
            None => None,
        }
    }

    /// The first document with the id, to change in place.
    pub fn get_document_mut(&mut self, doc_id: nQDocumentId) -> (r: Option<&mut SpriteDocument>)
        ensures
            r is Some <==> doc_index(old(self).docs(), doc_id) >= 0,
            r is None ==> *final(self) == *old(self),
            r is Some ==> *r->0 == old(self).docs()[doc_index(old(self).docs(), doc_id)],
            r is Some ==> final(self).docs() == old(self).docs().update(
                doc_index(old(self).docs(), doc_id),
                *final(r->0),
            ),
            final(self).active_id() == old(self).active_id(),
            final(self).ui() == old(self).ui(),
            final(self).next() == old(self).next(),
    {
        match find_document(&self.documents, doc_id) {
            Some(i) => Some(&mut self.documents[i]),
            None => None,
        }
    }

    /// The active document.
    pub fn active_document(&self) -> (d: &SpriteDocument)
        requires
            self.wf(),
        ensures
            *d == self.docs()[self.active_index()],
    {
        match find_document(&self.documents, self.active_doc_id) {
            Some(i) => &self.documents[i],
            None => {
                proof {
                    assert(false);
                }
                &self.documents[0]
            },
        }
    }

    /// The active document, to change in place.
    pub fn active_document_mut(&mut self) -> (d: &mut SpriteDocument)
        requires
            old(self).wf(),
        ensures
            *d == old(self).docs()[old(self).active_index()],
            final(self).docs() == old(self).docs().update(old(self).active_index(), *final(d)),
            final(self).active_id() == old(self).active_id(),
            final(self).ui() == old(self).ui(),
            final(self).next() == old(self).next(),
    {
        let i = self.active_position();
        &mut self.documents[i]
    }

    /// Index of the active document.
    fn active_position(&self) -> (i: usize)
        requires
            self.wf(),
        ensures
            i == self.active_index(),
            i < self.docs().len(),
    {
        match find_document(&self.documents, self.active_doc_id) {
            Some(i) => i,
            None => {
                proof {
                    assert(false);
                }
                0
            },
        }
    }

    /// Make the document with the id active; fails (returns false, nothing
    /// changed) when no document has it.
    pub fn select_document(&mut self, doc_id: nQDocumentId) -> (ok: bool)
        requires
            old(self).wf(),
        ensures
            final(self).wf(),
            ok == (doc_index(old(self).docs(), doc_id) >= 0),
            final(self).active_id() == (if ok { doc_id } else { old(self).active_id() }),
            final(self).docs() == old(self).docs(),
            final(self).ui() == old(self).ui(),
            final(self).next() == old(self).next(),
    {
        match find_document(&self.documents, doc_id) {
            Some(_) => {
                self.active_doc_id = doc_id;
                true
            },
            None => false,
        }
    }

    /// Id of the active document.
    pub fn active_document_id(&self) -> (id: nQDocumentId)
        ensures
            id == self.active_id(),
    {
        self.active_doc_id
    }

    /// The editor's view state.
    pub fn ui_state(&self) -> (s: &EditorState)
        ensures
            *s == self.ui(),
    {
        &self.ui_state
    }

    /// The editor's view state, to change in place.
    pub fn ui_state_mut(&mut self) -> (s: &mut EditorState)
        ensures
            *s == old(self).ui(),
            final(self).ui() == *final(s),
            final(self).docs() == old(self).docs(),
            final(self).active_id() == old(self).active_id(),
            final(self).next() == old(self).next(),
    {
        &mut self.ui_state
    }

    /// Number of open documents.
    pub fn document_count(&self) -> (n: usize)
        ensures
            n == self.docs().len(),
    {
        self.documents.len()
    }

    /// The open documents.
    pub fn documents(&self) -> (r: &[SpriteDocument])
        ensures
            r@ == self.docs(),
    {
        self.documents.as_slice()
    }

    /// Save the document with the id: succeeds when it is open (nothing is
    /// written yet), else fails with `Document <id> not found`.
    pub fn save_document(&self, doc_id: nQDocumentId, path: &str) -> (r: Result<(), String>)
        ensures
            r is Ok <==> doc_index(self.docs(), doc_id) >= 0,
            r matches Err(e) ==> e@ == "Document "@ + decimal(doc_id as nat) + " not found"@,
    {
        match find_document(&self.documents, doc_id) {
            Some(_) => Ok(()),
            None => {
                let mut m = String::from_str("Document ");
                let d = decimal_string(doc_id as u64);
                m.append(d.as_str());
                m.append(" not found");
                Err(m)
            },
        }
    }

    /// Load a document: not available yet, always fails with
    /// `Not implemented yet`.
    pub fn load_document(&mut self, path: &str) -> (r: Result<nQDocumentId, String>)
        ensures
            r matches Err(e) && e@ == "Not implemented yet"@,
            *final(self) == *old(self),
    {
        Err(String::from_str("Not implemented yet"))
    }
}

impl Default for nQEditorSession {
    fn default() -> (s: nQEditorSession)
        ensures
            s.wf(),
            s.docs().len() == 1,
            is_new_document(s.docs()[0], 0, "Untitled"@, 32, 32),
            s.active_id() == 0,
            s.next() == 1,
            is_start_state(s.ui()),
    {
        nQEditorSession::new()
    }
}

impl nQEditorPainting for nQEditorSession {
    open spec fn can_paint(&self) -> bool {
        self.wf()
    }

    /// Paint one pixel of the active layer of the active document: refused
    /// with `Layer is locked` on a locked layer, else as
    /// `SpriteData::set_pixel`; the document's composite is out of date
    /// after a pixel was painted.
    fn paint_active_layer(&mut self, x: u32, y: u32, color: &[u8]) -> (r: Result<(), String>)
        ensures
            final(self).wf(),
            final(self).active_id() == old(self).active_id(),
            final(self).ui() == old(self).ui(),
            final(self).next() == old(self).next(),
            final(self).docs().len() == old(self).docs().len(),
            ({
                let k = old(self).active_index();
                let d0 = old(self).docs()[k];
                let d1 = final(self).docs()[k];
                let q = d0.stack().seq();
                let a = d0.stack().active();
                let s0 = q[a].sprite;
                &&& forall|j: int| 0 <= j < old(self).docs().len() && j != k ==> (#[trigger] final(self).docs()[j]) == old(self).docs()[j]
                &&& only_layers_changed(d1, d0)
                &&& q[a].locked ==> (r matches Err(e) && e@ == "Layer is locked"@ && d1 == d0)
                &&& !q[a].locked ==> {
                    &&& forall|j: int| 0 <= j < q.len() && j != a ==> (#[trigger] d1.stack().seq()[j]) == q[j]
                    &&& r is Ok <==> (s0.in_bounds(x as int, y as int) && color@.len() == s0.bpp())
                    &&& r is Ok ==> repainted(d1.stack().seq()[a], q[a], spec_write(s0.pixels@, s0.offset(x as int, y as int), color@))
                    &&& r is Ok ==> d1.dirty()
                    &&& r is Err ==> d1.stack().seq() == q && d1.dirty() == d0.dirty()
                    &&& r matches Err(e) ==> e@ == (if !s0.in_bounds(x as int, y as int) {
                        "Pixel out of bounds"@
                    } else {
                        "Invalid pixel data size"@
                    })
                }
            }),
    {
        let k = self.active_position();
        let ghost before = self.documents@;
        let r = self.documents[k].paint_active_pixel(x, y, color);
        proof {
            let ds = self.documents@;
            assert forall|j: int| 0 <= j < ds.len() && j != k implies (#[trigger] ds[j]) == before[j] by {}
            assert forall|i: int| 0 <= i < ds.len() implies (#[trigger] ds[i]).wf() && ds[i].doc_id() < self.next_doc_id by {
                if i != k {
                    assert(ds[i] == before[i]);
                }
            }
            assert forall|a: int, b: int| 0 <= a < b < ds.len() implies (#[trigger] ds[a]).doc_id() != (#[trigger] ds[b]).doc_id() by {
                assert(ds[a].doc_id() == before[a].doc_id());
                assert(ds[b].doc_id() == before[b].doc_id());
            }
            lemma_doc_index_distinct(ds, k as int);
            lemma_doc_index_distinct(before, k as int);
        }
        r
    }

    /// Read one pixel of the active layer of the active document (see
    /// `SpriteData::get_pixel`).
    fn sample_active_layer(&self, x: u32, y: u32) -> (r: Option<Vec<u8>>)
        ensures
            ({
                let d = self.docs()[self.active_index()];
                let s = d.stack().seq()[d.stack().active()].sprite;
                match r {
                    None => !s.in_bounds(x as int, y as int),
                    Some(v) => s.in_bounds(x as int, y as int) && v@ == s.pixel(x as int, y as int),
                }
            }),
    {
        let doc = self.active_document();
        doc.sample_active_pixel(x, y)
    }

    /// The id of the active layer of the active document.
    fn active_layer_id(&self) -> (r: Option<nQLayerId>)
        ensures
            ({
                let d = self.docs()[self.active_index()];
                r == Some(d.stack().seq()[d.stack().active()].id)
            }),
    {
        let doc = self.active_document();
        match doc.current_display_layers().active_layer() {
            Some(l) => Some(l.id),
            None => None,
        }
    }
}

/// Ids stay distinct: a created document gets an id no open document has.
pub proof fn law_created_id_is_fresh(ds: Seq<SpriteDocument>, next: usize)
    requires
        forall|i: int| 0 <= i < ds.len() ==> (#[trigger] ds[i]).doc_id() < next,
    ensures
        doc_index(ds, next) == -1,
{
    if exists|i: int| first_doc_with_id(ds, next, i) {
        let i = choose|i: int| first_doc_with_id(ds, next, i);
        assert(ds[i].doc_id() < next);
    }
}

} // verus!
