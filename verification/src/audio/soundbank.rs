//! A bank of named background-music tracks and sound effects.
use vstd::prelude::*;
use crate::text::str_equal;

verus! {

/// A table of named sound data.
pub type SoundTable = Vec<(&'static str, &'static [u8])>;

/// Some entry of the table has the name `k`.
pub open spec fn has_key(t: Seq<(&'static str, &'static [u8])>, k: Seq<char>) -> bool {
    exists|i: int| 0 <= i < t.len() && (#[trigger] t[i]).0@ == k
}

/// No name occurs twice in the table.
pub open spec fn keys_unique(t: Seq<(&'static str, &'static [u8])>) -> bool {
    forall|i: int, j: int| 0 <= i < j < t.len() ==> (#[trigger] t[i]).0@ != (#[trigger] t[j]).0@
}

/// The table as a map from name to data.
pub open spec fn table_view(t: Seq<(&'static str, &'static [u8])>) -> Map<Seq<char>, Seq<u8>> {
    Map::new(
        |k: Seq<char>| has_key(t, k),
        |k: Seq<char>| t[choose|i: int| 0 <= i < t.len() && (#[trigger] t[i]).0@ == k].1@,
    )
}

/// The index of the entry named `name`, if any.
fn table_find(t: &SoundTable, name: &str) -> (r: Option<usize>)
    ensures
        match r {
            Some(i) => i < t@.len() && t@[i as int].0@ == name@,
            None => !has_key(t@, name@),
        },
{
    let mut i: usize = 0;
    while i < t.len()
        invariant
            i <= t@.len(),
            forall|k: int| 0 <= k < i ==> (#[trigger] t@[k]).0@ != name@,
        decreases t@.len() - i,
    {
        if str_equal(t[i].0, name) {
            return Some(i);
        }
        i = i + 1;
    }
    None
}

/// The data registered under `name`: `None` when there is none.
fn table_get(t: &SoundTable, name: &str) -> (r: Option<&'static [u8]>)
    requires
        keys_unique(t@),
    ensures
        match r {
            Some(d) => table_view(t@).contains_key(name@) && d@ == table_view(t@)[name@],
            None => !table_view(t@).contains_key(name@),
        },
{
    match table_find(t, name) {
        Some(i) => {
            proof {
                let j = choose|j: int| 0 <= j < t@.len() && (#[trigger] t@[j]).0@ == name@;
                if j != i {
                    if j < i {
                        assert(t@[j].0@ != t@[i as int].0@);
                    } else {
                        assert(t@[i as int].0@ != t@[j].0@);
                    }
                }
            }
            Some(t[i].1)
        },
        None => None,
    }
}

/// Register `data` under `name`, replacing what was registered under it.
fn table_insert(t: &mut SoundTable, name: &'static str, data: &'static [u8])
    requires
        keys_unique(old(t)@),
    ensures
        keys_unique(final(t)@),
        table_view(final(t)@) == table_view(old(t)@).insert(name@, data@),
{
    let ghost o = t@;
    match table_find(t, name) {
        Some(i) => {
            t.set(i, (name, data));
            proof {
                let n = t@;
                assert forall|a: int, b: int| 0 <= a < b < n.len() implies (#[trigger] n[a]).0@ != (#[trigger] n[b]).0@ by {
                    assert(o[a].0@ != o[b].0@);
                }
                lemma_view_update(o, n, i as int, name@, data@);
            }
        },
        None => {
            t.push((name, data));
            proof {
                let n = t@;
                assert forall|a: int, b: int| 0 <= a < b < n.len() implies (#[trigger] n[a]).0@ != (#[trigger] n[b]).0@ by {
                    if b == o.len() {
                        assert(n[a] == o[a]);
                    } else {
                        assert(o[a].0@ != o[b].0@);
                    }
                }
                lemma_view_push(o, n, name@, data@);
            }
        },
    }
}

/// Replacing the data of the entry at `i` replaces it in the view.
pub proof fn lemma_view_update(
    o: Seq<(&'static str, &'static [u8])>,
    n: Seq<(&'static str, &'static [u8])>,
    i: int,
    k: Seq<char>,
    v: Seq<u8>,
)
    requires
        keys_unique(o),
        keys_unique(n),
        0 <= i < o.len(),
        o[i].0@ == k,
        n.len() == o.len(),
        n[i].0@ == k,
        n[i].1@ == v,
        forall|j: int| 0 <= j < o.len() && j != i ==> n[j] == o[j],
    ensures
        table_view(n) == table_view(o).insert(k, v),
{
    let target = table_view(o).insert(k, v);
    assert forall|q: Seq<char>| #[trigger] has_key(n, q) == target.contains_key(q) by {
        if has_key(o, q) {
            let j = choose|j: int| 0 <= j < o.len() && (#[trigger] o[j]).0@ == q;
            if j != i {
                assert(n[j] == o[j]);
            }
        }
        if has_key(n, q) {
            let j = choose|j: int| 0 <= j < n.len() && (#[trigger] n[j]).0@ == q;
            if j != i {
                assert(n[j] == o[j]);
            }
        }
        if q == k {
            assert(n[i].0@ == q);
        }
    }
    assert forall|q: Seq<char>| has_key(n, q) implies #[trigger] table_view(n)[q] == target[q] by {
        let jn = choose|j: int| 0 <= j < n.len() && (#[trigger] n[j]).0@ == q;
        if q == k {
            if jn != i {
                if jn < i { assert(n[jn].0@ != n[i].0@); } else { assert(n[i].0@ != n[jn].0@); }
            }
        } else {
            assert(jn != i);
            assert(o[jn] == n[jn]);
            let jo = choose|j: int| 0 <= j < o.len() && (#[trigger] o[j]).0@ == q;
            if jo != jn {
                if jo < jn { assert(o[jo].0@ != o[jn].0@); } else { assert(o[jn].0@ != o[jo].0@); }
            }
        }
    }
    assert(table_view(n) =~= target);
}

/// Appending an entry with a new name adds it to the view.
pub proof fn lemma_view_push(
    o: Seq<(&'static str, &'static [u8])>,
    n: Seq<(&'static str, &'static [u8])>,
    k: Seq<char>,
    v: Seq<u8>,
)
    requires
        keys_unique(o),
        keys_unique(n),
        !has_key(o, k),
        n.len() == o.len() + 1,
        n[o.len() as int].0@ == k,
        n[o.len() as int].1@ == v,
        forall|j: int| 0 <= j < o.len() ==> n[j] == o[j],
    ensures
        table_view(n) == table_view(o).insert(k, v),
{
    let target = table_view(o).insert(k, v);
    let last = o.len() as int;
    assert forall|q: Seq<char>| #[trigger] has_key(n, q) == target.contains_key(q) by {
        if has_key(o, q) {
            let j = choose|j: int| 0 <= j < o.len() && (#[trigger] o[j]).0@ == q;
            assert(n[j] == o[j]);
        }
        if has_key(n, q) {
            let j = choose|j: int| 0 <= j < n.len() && (#[trigger] n[j]).0@ == q;
            if j != last {
                assert(n[j] == o[j]);
            }
        }
        if q == k {
            assert(n[last].0@ == q);
        }
    }
    assert forall|q: Seq<char>| has_key(n, q) implies #[trigger] table_view(n)[q] == target[q] by {
        let jn = choose|j: int| 0 <= j < n.len() && (#[trigger] n[j]).0@ == q;
        if q == k {
            if jn != last {
                assert(n[jn] == o[jn]);
            }
        } else {
            assert(jn != last);
            assert(o[jn] == n[jn]);
            let jo = choose|j: int| 0 <= j < o.len() && (#[trigger] o[j]).0@ == q;
            if jo != jn {
                assert(n[jo] == o[jo]);
                if jo < jn { assert(n[jo].0@ != n[jn].0@); } else { assert(n[jn].0@ != n[jo].0@); }
            }
        }
    }
    assert(table_view(n) =~= target);
}

/// Named background-music tracks and sound effects.
pub struct SoundBank {
    bgm_tracks: SoundTable,
    sfx_sounds: SoundTable,
}

impl SoundBank {
    /// Registered music tracks by name.
    pub closed spec fn bgm(&self) -> Map<Seq<char>, Seq<u8>> {
        table_view(self.bgm_tracks@)
    }

    /// Registered sound effects by name.
    pub closed spec fn sfx(&self) -> Map<Seq<char>, Seq<u8>> {
        table_view(self.sfx_sounds@)
    }

    /// Each name is registered at most once per kind.
    pub closed spec fn wf(&self) -> bool {
        keys_unique(self.bgm_tracks@) && keys_unique(self.sfx_sounds@)
    }

    /// An empty bank.
    pub fn new() -> (b: SoundBank)
        ensures
            b.wf(),
            b.bgm() == Map::<Seq<char>, Seq<u8>>::empty(),
            b.sfx() == Map::<Seq<char>, Seq<u8>>::empty(),
    {
        let b = SoundBank { bgm_tracks: Vec::new(), sfx_sounds: Vec::new() };
        assert(b.bgm() =~= Map::<Seq<char>, Seq<u8>>::empty());
        assert(b.sfx() =~= Map::<Seq<char>, Seq<u8>>::empty());
        b
    }

    /// Register the preset sound effects `jump`, `hit`, `coin`, `clear` and
    /// `game_over`, each with empty data.
    pub fn register_presets(&mut self)
        requires
            old(self).wf(),
        ensures
            final(self).wf(),
            final(self).bgm() == old(self).bgm(),
            final(self).sfx() == old(self).sfx().insert("jump"@, Seq::empty()).insert("hit"@, Seq::empty())
                .insert("coin"@, Seq::empty()).insert("clear"@, Seq::empty()).insert("game_over"@, Seq::empty()),
    {
        let empty: &'static [u8] = &[];
        assert(empty@ =~= Seq::<u8>::empty());
        table_insert(&mut self.sfx_sounds, "jump", empty);
        table_insert(&mut self.sfx_sounds, "hit", empty);
        table_insert(&mut self.sfx_sounds, "coin", empty);
        table_insert(&mut self.sfx_sounds, "clear", empty);
        table_insert(&mut self.sfx_sounds, "game_over", empty);
    }

    /// Some music track or sound effect is registered under `name`.
    pub fn has_sound(&self, name: &str) -> (r: bool)
        requires
            self.wf(),
        ensures
            r == (self.bgm().contains_key(name@) || self.sfx().contains_key(name@)),
    {
        table_find(&self.bgm_tracks, name).is_some() || table_find(&self.sfx_sounds, name).is_some()
    }

    /// The music track registered under `name`.
    pub fn get_bgm(&self, name: &str) -> (r: Option<&[u8]>)
        requires
            self.wf(),
        ensures
            match r {
                Some(d) => self.bgm().contains_key(name@) && d@ == self.bgm()[name@],
                None => !self.bgm().contains_key(name@),
            },
    {
        table_get(&self.bgm_tracks, name)
    }

    /// The sound effect registered under `name`.
    pub fn get_sfx(&self, name: &str) -> (r: Option<&[u8]>)
        requires
            self.wf(),
        ensures
            match r {
                Some(d) => self.sfx().contains_key(name@) && d@ == self.sfx()[name@],
                None => !self.sfx().contains_key(name@),
            },
    {
        table_get(&self.sfx_sounds, name)
    }

    /// Register a music track, replacing one of the same name.
    pub fn register_bgm(&mut self, name: &'static str, data: &'static [u8])
        requires
            old(self).wf(),
        ensures
            final(self).wf(),
            final(self).bgm() == old(self).bgm().insert(name@, data@),
            final(self).sfx() == old(self).sfx(),
    {
        table_insert(&mut self.bgm_tracks, name, data);
    }

    /// Register a sound effect, replacing one of the same name.
    pub fn register_sfx(&mut self, name: &'static str, data: &'static [u8])
        requires
            old(self).wf(),
        ensures
            final(self).wf(),
            final(self).sfx() == old(self).sfx().insert(name@, data@),
            final(self).bgm() == old(self).bgm(),
    {
        table_insert(&mut self.sfx_sounds, name, data);
    }
}

impl Default for SoundBank {
    fn default() -> (b: SoundBank)
        ensures
            b.wf(),
            b.bgm() == Map::<Seq<char>, Seq<u8>>::empty(),
            b.sfx() == Map::<Seq<char>, Seq<u8>>::empty(),
    {
        SoundBank::new()
    }
}

/// What is registered is found: after registering `data` under `name`,
/// looking `name` up gives `data`, and other names are unaffected.
pub proof fn law_register_then_get(m: Map<Seq<char>, Seq<u8>>, name: Seq<char>, data: Seq<u8>, other: Seq<char>)
    requires
        other != name,
    ensures
        m.insert(name, data).contains_key(name),
        m.insert(name, data)[name] == data,
        m.insert(name, data).contains_key(other) == m.contains_key(other),
        m.contains_key(other) ==> m.insert(name, data)[other] == m[other],
{
}

} // verus!
