//! Saving and loading bookkeeping: the current file and the list of recently
//! used files. The reading and writing of the files themselves is done by the
//! caller, which hands over its outcome.
use vstd::prelude::*;
use crate::sprite::SpriteData;

verus! {

/// Whether two path strings name the same path (`Path` equality, which
/// compares the paths component by component).
pub uninterp spec fn same_path(a: Seq<char>, b: Seq<char>) -> bool;

/// What `Path::file_name` gives for a path string, as a string: its final
/// component, or `None` when there is none.
pub uninterp spec fn path_file_name(p: Seq<char>) -> Option<Seq<char>>;

/// `Path::eq` on the two paths; identical strings are the same path.
#[verifier::external_body]
fn paths_equal(a: &str, b: &str) -> (r: bool)
    ensures
        r == same_path(a@, b@),
        a@ == b@ ==> r,
{
    std::path::Path::new(a) == std::path::Path::new(b)
}

/// `Path::file_name` of the path, as a `String`.
#[verifier::external_body]
fn file_name_of(p: &str) -> (r: Option<String>)
    ensures
        match r {
            Some(s) => path_file_name(p@) == Some(s@),
            None => path_file_name(p@) == None::<Seq<char>>,
        },
{
    std::path::Path::new(p).file_name().and_then(|n| n.to_str()).map(|s| s.to_string())
}

/// At most this many recent files are remembered.
pub const MAX_RECENT: usize = 10;

/// The recent-files list after opening `p`: `p` first, then the earlier
/// entries that are not the same path, in their order; when that makes one
/// more than the limit, the oldest entry is dropped.
pub open spec fn recent_after(old: Seq<Seq<char>>, p: Seq<char>) -> Seq<Seq<char>> {
    let l = seq![p] + old.filter(|q: Seq<char>| !same_path(q, p));
    if l.len() > MAX_RECENT { l.drop_last() } else { l }
}

/// No entry names the same path as an entry before it.
pub open spec fn no_repeats(s: Seq<Seq<char>>) -> bool {
    forall|i: int, j: int| 0 <= i < j < s.len() ==> !same_path(#[trigger] s[j], #[trigger] s[i])
}

/// The current file and the recently used files, most recent first.
pub struct FileManager {
    pub current_file: Option<String>,
    pub recent_files: Vec<String>,
}

impl FileManager {
    /// The recent files as strings.
    pub open spec fn recent(&self) -> Seq<Seq<char>> {
        self.recent_files@.map_values(|s: String| s@)
    }

    /// The current file as a string.
    pub open spec fn current(&self) -> Option<Seq<char>> {
        match self.current_file {
            Some(s) => Some(s@),
            None => None,
        }
    }

    /// No current file and no recent files.
    pub fn new() -> (m: FileManager)
        ensures
            m.current() == None::<Seq<char>>,
            m.recent() == Seq::<Seq<char>>::empty(),
    {
        let m = FileManager { current_file: None, recent_files: Vec::new() };
        assert(m.recent() =~= Seq::<Seq<char>>::empty());
        m
    }

    /// Put `path` at the front of the recent files, removing entries that
    /// name the same path and keeping at most ten.
    pub fn add_recent_file(&mut self, path: String)
        ensures
            final(self).recent() == recent_after(old(self).recent(), path@),
            final(self).current() == old(self).current(),
    {
        let ghost old_r = self.recent();
        let ghost pred = |q: Seq<char>| !same_path(q, path@);
        let mut kept: Vec<String> = Vec::new();
        let mut i: usize = 0;
        while i < self.recent_files.len()
            invariant
                i <= self.recent_files@.len(),
                old_r == self.recent(),
                self.recent_files == old(self).recent_files,
                self.current_file == old(self).current_file,
                pred == (|q: Seq<char>| !same_path(q, path@)),
                kept@.map_values(|s: String| s@) == old_r.take(i as int).filter(pred),
            decreases self.recent_files@.len() - i,
        {
            let same = paths_equal(self.recent_files[i].as_str(), path.as_str());
            let ghost before = kept@.map_values(|s: String| s@);
            if !same {
                let e = self.recent_files[i].clone();
                kept.push(e);
            }
            proof {
                let t = old_r.take(i + 1);
                assert(t.drop_last() =~= old_r.take(i as int));
                assert(t.last() == old_r[i as int]);
                reveal(Seq::filter);
                assert(t.filter(pred) == (if pred(t.last()) { t.drop_last().filter(pred).push(t.last()) } else {
                    t.drop_last().filter(pred) }));
                if !same {
                    assert(kept@.map_values(|s: String| s@) =~= before.push(old_r[i as int]));
                } else {
                    assert(kept@.map_values(|s: String| s@) =~= before);
                }
            }
            i = i + 1;
        }
        proof {
            assert(old_r.take(old_r.len() as int) =~= old_r);
        }
        kept.insert(0, path);
        if kept.len() > MAX_RECENT {
            kept.pop();
        }
        self.recent_files = kept;
        proof {
            let l = seq![path@] + old_r.filter(pred);
            if l.len() > MAX_RECENT {
                assert(self.recent() =~= l.drop_last());
            } else {
                assert(self.recent() =~= l);
            }
        }
    }

    /// Record a save of a sprite to `path`, given the outcome of writing the
    /// file: on success `path` becomes the current file and the most recent
    /// one and is returned; a failure is reported as `Save failed: <error>`
    /// with nothing changed.
    pub fn save_sprite(&mut self, path: &str, written: Result<(), String>) -> (r: Result<String, String>)
        ensures
            match written {
                Ok(_) => r matches Ok(p) && p@ == path@ && final(self).current() == Some(path@)
                    && final(self).recent() == recent_after(old(self).recent(), path@),
                Err(e) => (r matches Err(m) && m@ == "Save failed: "@ + e@)
                    && final(self).current() == old(self).current()
                    && final(self).recent() == old(self).recent(),
            },
    {
        match written {
            Err(e) => {
                let mut m = String::from_str("Save failed: ");
                m.append(e.as_str());
                Err(m)
            },
            Ok(_) => {
                let p = String::from_str(path);
                self.current_file = Some(p.clone());
                self.add_recent_file(p.clone());
                Ok(p)
            },
        }
    }

    /// Record a load of sprites from `path`, given the outcome of reading the
    /// file: a read error is passed on, a file without sprites is refused
    /// (`No sprites in file`), both with nothing changed; otherwise `path`
    /// becomes the current file and the most recent one, and the sprites are
    /// returned.
    pub fn load_sprites(&mut self, path: &str, read: Result<Vec<SpriteData>, String>) -> (r: Result<Vec<SpriteData>, String>)
        ensures
            match read {
                Err(e) => (r matches Err(m) && m@ == e@)
                    && final(self).current() == old(self).current()
                    && final(self).recent() == old(self).recent(),
                Ok(v) => if v@.len() == 0 {
                    (r matches Err(m) && m@ == "No sprites in file"@)
                        && final(self).current() == old(self).current()
                        && final(self).recent() == old(self).recent()
                } else {
                    r == Ok::<Vec<SpriteData>, String>(v) && final(self).current() == Some(path@)
                        && final(self).recent() == recent_after(old(self).recent(), path@)
                },
            },
    {
        let sprites = match read {
            Err(e) => {
                return Err(e);
            },
            Ok(v) => v,
        };
        if sprites.len() == 0 {
            return Err(String::from_str("No sprites in file"));
        }
        let p = String::from_str(path);
        self.current_file = Some(p.clone());
        self.add_recent_file(p);
        Ok(sprites)
    }

    /// The file name (final component) of the current file, when there is a
    /// current file and it has one.
    pub fn current_filename(&self) -> (r: Option<String>)
        ensures
            match self.current() {
                None => r is None,
                Some(p) => match r {
                    Some(s) => path_file_name(p) == Some(s@),
                    None => path_file_name(p) == None::<Seq<char>>,
                },
            },
    {
        match &self.current_file {
            None => None,
            Some(p) => file_name_of(p.as_str()),
        }
    }
}

impl Default for FileManager {
    fn default() -> (m: FileManager)
        ensures
            m.current() == None::<Seq<char>>,
            m.recent() == Seq::<Seq<char>>::empty(),
    {
        FileManager::new()
    }
}

/// Opening a file puts it first among the recent files.
pub proof fn law_recent_front(old: Seq<Seq<char>>, p: Seq<char>)
    ensures
        recent_after(old, p).len() >= 1,
        recent_after(old, p)[0] == p,
{
    let pred = |q: Seq<char>| !same_path(q, p);
    old.lemma_filter_len(pred);
}

/// The recent-files list never grows past ten entries.
pub proof fn law_recent_bounded(old: Seq<Seq<char>>, p: Seq<char>)
    requires
        old.len() <= MAX_RECENT,
    ensures
        recent_after(old, p).len() <= MAX_RECENT,
{
    let pred = |q: Seq<char>| !same_path(q, p);
    old.lemma_filter_len(pred);
}

/// Opening a file keeps the recent files free of repeated paths, and the
/// opened path is not repeated further down.
pub proof fn law_recent_no_repeats(old: Seq<Seq<char>>, p: Seq<char>)
    requires
        no_repeats(old),
    ensures
        no_repeats(recent_after(old, p)),
        forall|j: int| 1 <= j < recent_after(old, p).len() ==> !same_path(#[trigger] recent_after(old, p)[j], p),
{
    broadcast use vstd::seq_lib::group_filter_ensures;
    let pred = |q: Seq<char>| !same_path(q, p);
    let f = old.filter(pred);
    lemma_filter_no_repeats(old, pred);
    let l = seq![p] + f;
    assert forall|i: int, j: int| 0 <= i < j < l.len() implies !same_path(#[trigger] l[j], #[trigger] l[i]) by {
        if i == 0 {
            assert(l[j] == f[j - 1]);
            assert(pred(f[j - 1]));
        } else {
            assert(l[j] == f[j - 1] && l[i] == f[i - 1]);
        }
    }
    assert forall|j: int| 1 <= j < l.len() implies !same_path(#[trigger] l[j], p) by {
        assert(l[j] == f[j - 1]);
        assert(pred(f[j - 1]));
    }
}

/// Filtering keeps a list free of repeated paths.
pub proof fn lemma_filter_no_repeats(s: Seq<Seq<char>>, pred: spec_fn(Seq<char>) -> bool)
    requires
        no_repeats(s),
    ensures
        no_repeats(s.filter(pred)),
    decreases s.len(),
{
    reveal(Seq::filter);
    if s.len() > 0 {
        let d = s.drop_last();
        assert forall|i: int, j: int| 0 <= i < j < d.len() implies !same_path(#[trigger] d[j], #[trigger] d[i]) by {
            assert(d[j] == s[j] && d[i] == s[i]);
        }
        lemma_filter_no_repeats(d, pred);
        let fd = d.filter(pred);
        if pred(s.last()) {
            let f = fd.push(s.last());
            assert forall|i: int, j: int| 0 <= i < j < f.len() implies !same_path(#[trigger] f[j], #[trigger] f[i]) by {
                if j == f.len() - 1 {
                    lemma_filter_index(d, pred, i);
                    let k = choose|k: int| 0 <= k < d.len() && d[k] == fd[i];
                    assert(s[k] == d[k]);
                    assert(s[s.len() - 1] == s.last());
                }
            }
        }
    }
}

/// Every entry of a filtered list is an entry of the list.
pub proof fn lemma_filter_index(s: Seq<Seq<char>>, pred: spec_fn(Seq<char>) -> bool, i: int)
    requires
        0 <= i < s.filter(pred).len(),
    ensures
        exists|k: int| 0 <= k < s.len() && s[k] == s.filter(pred)[i],
    decreases s.len(),
{
    reveal(Seq::filter);
    let d = s.drop_last();
    let fd = d.filter(pred);
    if i < fd.len() {
        lemma_filter_index(d, pred, i);
        let k = choose|k: int| 0 <= k < d.len() && d[k] == fd[i];
        assert(s[k] == d[k]);
    } else {
        assert(s[s.len() - 1] == s.filter(pred)[i]);
    }
}

} // verus!
