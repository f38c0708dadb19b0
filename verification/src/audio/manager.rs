//! The audio manager: music tracks and sound effects registered by name
//! with their file paths, the music track playing, and the volumes. Whether
//! a file exists is found out by the caller.
use vstd::prelude::*;
use crate::f32_bits::{clamp, clamped, is_nan, key, ONE, ZERO};
use crate::text::str_equal;
use crate::editor::format::io::{decimal, decimal_string};

verus! {

/// A table of names and file paths.
pub type PathTable = Vec<(String, String)>;

/// Some entry of the table has the name `k`.
pub open spec fn has_name(t: Seq<(String, String)>, k: Seq<char>) -> bool {
    exists|i: int| 0 <= i < t.len() && (#[trigger] t[i]).0@ == k
}

/// No name occurs twice.
pub open spec fn names_unique(t: Seq<(String, String)>) -> bool {
    forall|i: int, j: int| 0 <= i < j < t.len() ==> (#[trigger] t[i]).0@ != (#[trigger] t[j]).0@
}

/// The table as a map from name to path.
pub open spec fn path_view(t: Seq<(String, String)>) -> Map<Seq<char>, Seq<char>> {
    Map::new(
        |k: Seq<char>| has_name(t, k),
        |k: Seq<char>| t[choose|i: int| 0 <= i < t.len() && (#[trigger] t[i]).0@ == k].1@,
    )
}

/// The index of the entry named `name`, if any.
fn find_name(t: &PathTable, name: &str) -> (r: Option<usize>)
    ensures
        match r {
            Some(i) => i < t@.len() && t@[i as int].0@ == name@,
            None => !has_name(t@, name@),
        },
{
    let mut i: usize = 0;
    while i < t.len()
        invariant
            i <= t@.len(),
            forall|k: int| 0 <= k < i ==> (#[trigger] t@[k]).0@ != name@,
        decreases t@.len() - i,
    {
        if str_equal(t[i].0.as_str(), name) {
            return Some(i);
        }
        i = i + 1;
    }
    None
}

/// Register `path` under `name`, replacing the path registered under it.
fn insert_path(t: &mut PathTable, name: &str, path: &str)
    requires
        names_unique(old(t)@),
    ensures
        names_unique(final(t)@),
        path_view(final(t)@) == path_view(old(t)@).insert(name@, path@),
{
    let ghost o = t@;
    let entry = (String::from_str(name), String::from_str(path));
    match find_name(t, name) {
        Some(i) => {
            t.set(i, entry);
            proof {
                let n = t@;
                assert forall|a: int, b: int| 0 <= a < b < n.len() implies (#[trigger] n[a]).0@ != (#[trigger] n[b]).0@ by {
                    assert(o[a].0@ != o[b].0@);
                }
                let target = path_view(o).insert(name@, path@);
                assert forall|q: Seq<char>| #[trigger] has_name(n, q) == target.contains_key(q) by {
                    if has_name(o, q) {
                        let j = choose|j: int| 0 <= j < o.len() && (#[trigger] o[j]).0@ == q;
                        if j != i {
                            assert(n[j] == o[j]);
                        }
                    }
                    if has_name(n, q) {
                        let j = choose|j: int| 0 <= j < n.len() && (#[trigger] n[j]).0@ == q;
                        if j != i {
                            assert(n[j] == o[j]);
                        }
                    }
                    if q == name@ {
                        assert(n[i as int].0@ == q);
                    }
                }
                assert forall|q: Seq<char>| has_name(n, q) implies #[trigger] path_view(n)[q] == target[q] by {
                    let jn = choose|j: int| 0 <= j < n.len() && (#[trigger] n[j]).0@ == q;
                    if q == name@ {
                        if jn != i {
                            if jn < i { assert(n[jn].0@ != n[i as int].0@); } else { assert(n[i as int].0@ != n[jn].0@); }
                        }
                    } else {
                        assert(jn != i);
                        assert(o[jn] == n[jn]);
                        let jo = choose|j: int| 0 <= j < o.len() && (#[trigger] o[j]).0@ == q;
                        if jo != jn {
                            assert(n[jo] == o[jo]);
                            if jo < jn { assert(n[jo].0@ != n[jn].0@); } else { assert(n[jn].0@ != n[jo].0@); }
                        }
                    }
                }
                assert(path_view(n) =~= target);
            }
        },
        None => {
            t.push(entry);
            proof {
                let n = t@;
                let last = o.len() as int;
                assert forall|a: int, b: int| 0 <= a < b < n.len() implies (#[trigger] n[a]).0@ != (#[trigger] n[b]).0@ by {
                    if b == last {
                        assert(n[a] == o[a]);
                    } else {
                        assert(o[a].0@ != o[b].0@);
                    }
                }
                let target = path_view(o).insert(name@, path@);
                assert forall|q: Seq<char>| #[trigger] has_name(n, q) == target.contains_key(q) by {
                    if has_name(o, q) {
                        let j = choose|j: int| 0 <= j < o.len() && (#[trigger] o[j]).0@ == q;
                        assert(n[j] == o[j]);
                    }
                    if has_name(n, q) {
                        let j = choose|j: int| 0 <= j < n.len() && (#[trigger] n[j]).0@ == q;
                        if j != last {
                            assert(n[j] == o[j]);
                        }
                    }
                    if q == name@ {
                        assert(n[last].0@ == q);
                    }
                }
                assert forall|q: Seq<char>| has_name(n, q) implies #[trigger] path_view(n)[q] == target[q] by {
                    let jn = choose|j: int| 0 <= j < n.len() && (#[trigger] n[j]).0@ == q;
                    if q == name@ {
                        if jn != last {
                            assert(n[jn] == o[jn]);
                        }
                    } else {
                        assert(jn != last);
                        assert(o[jn] == n[jn]);
                        let jo = choose|j: int| 0 <= j < o.len() && (#[trigger] o[j]).0@ == q;
                        if jo != jn {
                            assert(n[jo] == o[jo]);
                            if jo < jn { assert(n[jo].0@ != n[jn].0@); } else { assert(n[jn].0@ != n[jo].0@); }
                        }
                    }
                }
                assert(path_view(n) =~= target);
            }
        },
    }
}

/// `prefix + name + suffix` as a string.
fn quoted(prefix: &str, name: &str, suffix: &str) -> (s: String)
    ensures
        s@ == prefix@ + name@ + suffix@,
{
    let mut s = String::from_str(prefix);
    s.append(name);
    s.append(suffix);
    s
}

/// Registered music and sound-effect files, and the music track playing.
pub struct AudioRegistry {
    bgm_paths: PathTable,
    sfx_paths: PathTable,
    current_bgm: Option<String>,
}

impl AudioRegistry {
    /// Music tracks by name.
    pub closed spec fn bgm(&self) -> Map<Seq<char>, Seq<char>> {
        path_view(self.bgm_paths@)
    }

    /// Sound effects by name.
    pub closed spec fn sfx(&self) -> Map<Seq<char>, Seq<char>> {
        path_view(self.sfx_paths@)
    }

    /// The music track playing.
    pub closed spec fn playing(&self) -> Option<Seq<char>> {
        match self.current_bgm {
            Some(s) => Some(s@),
            None => None,
        }
    }

    /// Each name is registered at most once per kind.
    pub closed spec fn wf(&self) -> bool {
        names_unique(self.bgm_paths@) && names_unique(self.sfx_paths@)
    }

    /// Nothing registered, nothing playing.
    pub fn new() -> (r: AudioRegistry)
        ensures
            r.wf(),
            r.bgm() == Map::<Seq<char>, Seq<char>>::empty(),
            r.sfx() == Map::<Seq<char>, Seq<char>>::empty(),
            r.playing() is None,
    {
        let r = AudioRegistry { bgm_paths: Vec::new(), sfx_paths: Vec::new(), current_bgm: None };
        assert(r.bgm() =~= Map::<Seq<char>, Seq<char>>::empty());
        assert(r.sfx() =~= Map::<Seq<char>, Seq<char>>::empty());
        r
    }

    /// Register the music file `path` under `name`, given whether the file
    /// exists: a missing file is refused (`Failed to load BGM '<path>': file
    /// not found`) with nothing changed.
    pub fn load_bgm(&mut self, name: &str, path: &str, exists: bool) -> (r: Result<(), String>)
        requires
            old(self).wf(),
        ensures
            final(self).wf(),
            final(self).sfx() == old(self).sfx(),
            final(self).playing() == old(self).playing(),
            exists ==> r is Ok && final(self).bgm() == old(self).bgm().insert(name@, path@),
            !exists ==> final(self).bgm() == old(self).bgm()
                && (r matches Err(e) && e@ == "Failed to load BGM '"@ + path@ + "': file not found"@),
    {
        if exists {
            insert_path(&mut self.bgm_paths, name, path);
            Ok(())
        } else {
            Err(quoted("Failed to load BGM '", path, "': file not found"))
        }
    }

    /// Register the sound-effect file `path` under `name`, given whether the
    /// file exists: a missing file is refused (`Failed to load SFX '<path>':
    /// file not found`) with nothing changed.
    pub fn load_sfx(&mut self, name: &str, path: &str, exists: bool) -> (r: Result<(), String>)
        requires
            old(self).wf(),
        ensures
            final(self).wf(),
            final(self).bgm() == old(self).bgm(),
            final(self).playing() == old(self).playing(),
            exists ==> r is Ok && final(self).sfx() == old(self).sfx().insert(name@, path@),
            !exists ==> final(self).sfx() == old(self).sfx()
                && (r matches Err(e) && e@ == "Failed to load SFX '"@ + path@ + "': file not found"@),
    {
        if exists {
            insert_path(&mut self.sfx_paths, name, path);
            Ok(())
        } else {
            Err(quoted("Failed to load SFX '", path, "': file not found"))
        }
    }

    /// Start the music track `name`; an unregistered name is refused
    /// (`BGM '<name>' not found`) and what plays is unchanged.
    pub fn play_bgm(&mut self, name: &str) -> (r: Result<(), String>)
        requires
            old(self).wf(),
        ensures
            final(self).wf(),
            final(self).bgm() == old(self).bgm(),
            final(self).sfx() == old(self).sfx(),
            old(self).bgm().contains_key(name@) ==> r is Ok && final(self).playing() == Some(name@),
            !old(self).bgm().contains_key(name@) ==> final(self).playing() == old(self).playing()
                && (r matches Err(e) && e@ == "BGM '"@ + name@ + "' not found"@),
    {
        if find_name(&self.bgm_paths, name).is_some() {
            self.current_bgm = Some(String::from_str(name));
            Ok(())
        } else {
            Err(quoted("BGM '", name, "' not found"))
        }
    }

    /// Stop the music.
    pub fn stop_bgm(&mut self)
        requires
            old(self).wf(),
        ensures
            final(self).wf(),
            final(self).bgm() == old(self).bgm(),
            final(self).sfx() == old(self).sfx(),
            final(self).playing() is None,
    {
        self.current_bgm = None;
    }

    /// Play the sound effect `name`: accepted when it is registered, else
    /// refused (`SFX '<name>' not found`).
    pub fn play_sfx(&self, name: &str) -> (r: Result<(), String>)
        requires
            self.wf(),
        ensures
            self.sfx().contains_key(name@) ==> r is Ok,
            !self.sfx().contains_key(name@) ==> (r matches Err(e) && e@ == "SFX '"@ + name@ + "' not found"@),
    {
        if find_name(&self.sfx_paths, name).is_some() {
            Ok(())
        } else {
            Err(quoted("SFX '", name, "' not found"))
        }
    }

    /// The music track `name` is playing.
    pub fn is_bgm_playing(&self, name: &str) -> (r: bool)
        ensures
            r == (self.playing() == Some(name@)),
    {
        match &self.current_bgm {
            Some(b) => str_equal(b.as_str(), name),
            None => false,
        }
    }
}

/// The preset sound effect of a pyxel sound id.
pub open spec fn preset_sfx(id: u32) -> Option<Seq<char>> {
    if id == 0 { Some("jump"@) } else if id == 1 { Some("hit"@) } else if id == 2 { Some("coin"@) }
    else if id == 3 { Some("clear"@) } else if id == 4 { Some("game_over"@) } else { None }
}

/// The preset music track of a pyxel music section.
pub open spec fn preset_bgm(section: u32) -> Option<Seq<char>> {
    if section == 0 { Some("forest"@) } else if section == 1 { Some("town"@) }
    else if section == 2 { Some("dungeon"@) } else if section == 3 { Some("boss"@) } else { None }
}

/// Volume levels run from `0.0` to `1.0`.
pub open spec fn volume_of(v: u32) -> u32 {
    clamped(v, ZERO, ONE)
}

/// The audio manager: the registry of files and the music playing, with a
/// master, a music and a sound-effect volume (encodings of `f32` values,
/// each within `0.0` to `1.0`, or a NaN that was passed in).
pub struct AudioManager {
    registry: AudioRegistry,
    master_volume: u32,
    bgm_volume: u32,
    sfx_volume: u32,
}

impl AudioManager {
    /// The registry of files and what plays.
    pub closed spec fn reg(&self) -> AudioRegistry {
        self.registry
    }

    pub closed spec fn master(&self) -> u32 {
        self.master_volume
    }

    pub closed spec fn bgm_level(&self) -> u32 {
        self.bgm_volume
    }

    pub closed spec fn sfx_level(&self) -> u32 {
        self.sfx_volume
    }

    pub open spec fn wf(&self) -> bool {
        self.reg().wf()
    }

    /// Nothing registered, nothing playing, every volume at `1.0`.
    pub fn new() -> (m: AudioManager)
        ensures
            m.wf(),
            m.reg().bgm() == Map::<Seq<char>, Seq<char>>::empty(),
            m.reg().sfx() == Map::<Seq<char>, Seq<char>>::empty(),
            m.reg().playing() is None,
            m.master() == ONE,
            m.bgm_level() == ONE,
            m.sfx_level() == ONE,
    {
        AudioManager { registry: AudioRegistry::new(), master_volume: ONE, bgm_volume: ONE, sfx_volume: ONE }
    }

    /// Register the music file `path` under `name`, given whether the file
    /// exists (see [`AudioRegistry::load_bgm`]).
    pub fn load_bgm(&mut self, name: &str, path: &str, exists: bool) -> (r: Result<(), String>)
        requires
            old(self).wf(),
        ensures
            final(self).wf(),
            final(self).master() == old(self).master(),
            final(self).bgm_level() == old(self).bgm_level(),
            final(self).sfx_level() == old(self).sfx_level(),
            final(self).reg().sfx() == old(self).reg().sfx(),
            final(self).reg().playing() == old(self).reg().playing(),
            exists ==> r is Ok && final(self).reg().bgm() == old(self).reg().bgm().insert(name@, path@),
            !exists ==> final(self).reg().bgm() == old(self).reg().bgm()
                && (r matches Err(e) && e@ == "Failed to load BGM '"@ + path@ + "': file not found"@),
    {
        self.registry.load_bgm(name, path, exists)
    }

    /// Register the sound-effect file `path` under `name`, given whether the
    /// file exists (see [`AudioRegistry::load_sfx`]).
    pub fn load_sfx(&mut self, name: &str, path: &str, exists: bool) -> (r: Result<(), String>)
        requires
            old(self).wf(),
        ensures
            final(self).wf(),
            final(self).master() == old(self).master(),
            final(self).bgm_level() == old(self).bgm_level(),
            final(self).sfx_level() == old(self).sfx_level(),
            final(self).reg().bgm() == old(self).reg().bgm(),
            final(self).reg().playing() == old(self).reg().playing(),
            exists ==> r is Ok && final(self).reg().sfx() == old(self).reg().sfx().insert(name@, path@),
            !exists ==> final(self).reg().sfx() == old(self).reg().sfx()
                && (r matches Err(e) && e@ == "Failed to load SFX '"@ + path@ + "': file not found"@),
    {
        self.registry.load_sfx(name, path, exists)
    }

    /// Start the music track `name` (see [`AudioRegistry::play_bgm`]).
    pub fn play_bgm(&mut self, name: &str) -> (r: Result<(), String>)
        requires
            old(self).wf(),
        ensures
            final(self).wf(),
            final(self).master() == old(self).master(),
            final(self).bgm_level() == old(self).bgm_level(),
            final(self).sfx_level() == old(self).sfx_level(),
            final(self).reg().bgm() == old(self).reg().bgm(),
            final(self).reg().sfx() == old(self).reg().sfx(),
            old(self).reg().bgm().contains_key(name@) ==> r is Ok && final(self).reg().playing() == Some(name@),
            !old(self).reg().bgm().contains_key(name@) ==> final(self).reg().playing() == old(self).reg().playing()
                && (r matches Err(e) && e@ == "BGM '"@ + name@ + "' not found"@),
    {
        self.registry.play_bgm(name)
    }

    /// Stop the music.
    pub fn stop_bgm(&mut self)
        requires
            old(self).wf(),
        ensures
            final(self).wf(),
            final(self).master() == old(self).master(),
            final(self).bgm_level() == old(self).bgm_level(),
            final(self).sfx_level() == old(self).sfx_level(),
            final(self).reg().bgm() == old(self).reg().bgm(),
            final(self).reg().sfx() == old(self).reg().sfx(),
            final(self).reg().playing() is None,
    {
        self.registry.stop_bgm();
    }

    /// Play the sound effect `name` (see [`AudioRegistry::play_sfx`]).
    pub fn play_sfx(&self, name: &str) -> (r: Result<(), String>)
        requires
            self.wf(),
        ensures
            self.reg().sfx().contains_key(name@) ==> r is Ok,
            !self.reg().sfx().contains_key(name@) ==> (r matches Err(e) && e@ == "SFX '"@ + name@ + "' not found"@),
    {
        self.registry.play_sfx(name)
    }

    /// Set the master volume, held within `0.0` to `1.0`.
    pub fn set_master_volume(&mut self, vol: u32)
        ensures
            final(self).reg() == old(self).reg(),
            final(self).master() == volume_of(vol),
            final(self).bgm_level() == old(self).bgm_level(),
            final(self).sfx_level() == old(self).sfx_level(),
    {
        self.master_volume = clamp(vol, ZERO, ONE);
    }

    /// Set the music volume, held within `0.0` to `1.0`.
    pub fn set_bgm_volume(&mut self, vol: u32)
        ensures
            final(self).reg() == old(self).reg(),
            final(self).master() == old(self).master(),
            final(self).bgm_level() == volume_of(vol),
            final(self).sfx_level() == old(self).sfx_level(),
    {
        self.bgm_volume = clamp(vol, ZERO, ONE);
    }

    /// Set the sound-effect volume, held within `0.0` to `1.0`.
    pub fn set_sfx_volume(&mut self, vol: u32)
        ensures
            final(self).reg() == old(self).reg(),
            final(self).master() == old(self).master(),
            final(self).bgm_level() == old(self).bgm_level(),
            final(self).sfx_level() == volume_of(vol),
    {
        self.sfx_volume = clamp(vol, ZERO, ONE);
    }

    /// The music track `name` is playing.
    pub fn is_bgm_playing(&self, name: &str) -> (r: bool)
        ensures
            r == (self.reg().playing() == Some(name@)),
    {
        self.registry.is_bgm_playing(name)
    }

    pub fn get_master_volume(&self) -> (v: u32)
        ensures
            v == self.master(),
    {
        self.master_volume
    }

    pub fn get_bgm_volume(&self) -> (v: u32)
        ensures
            v == self.bgm_level(),
    {
        self.bgm_volume
    }

    pub fn get_sfx_volume(&self) -> (v: u32)
        ensures
            v == self.sfx_level(),
    {
        self.sfx_volume
    }

    /// The registry of files and what plays.
    pub fn registry(&self) -> (r: &AudioRegistry)
        ensures
            *r == self.reg(),
    {
        &self.registry
    }
}

impl Default for AudioManager {
    fn default() -> (m: AudioManager)
        ensures
            m.wf(),
            m.reg().bgm() == Map::<Seq<char>, Seq<char>>::empty(),
            m.reg().sfx() == Map::<Seq<char>, Seq<char>>::empty(),
            m.reg().playing() is None,
            m.master() == ONE,
            m.bgm_level() == ONE,
            m.sfx_level() == ONE,
    {
        AudioManager::new()
    }
}

/// A volume once set always lies within `0.0` to `1.0`, unless a NaN was
/// passed in, and setting it again to the value read back changes nothing.
pub proof fn law_volume_in_range(vol: u32)
    ensures
        !is_nan(vol) ==> 0 <= key(volume_of(vol)) <= key(ONE),
        is_nan(vol) ==> volume_of(vol) == vol,
        volume_of(volume_of(vol)) == volume_of(vol),
{
}

/// Play pyxel sound `id`: ids 0 to 4 are the presets `jump`, `hit`,
/// `coin`, `clear` and `game_over`; another id is refused (`SFX id <id> not
/// found`).
pub fn play_preset_sfx(manager: &AudioManager, id: u32) -> (r: Result<(), String>)
    requires
        manager.wf(),
    ensures
        match preset_sfx(id) {
            Some(n) => (manager.reg().sfx().contains_key(n) ==> r is Ok)
                && (!manager.reg().sfx().contains_key(n) ==> (r matches Err(e) && e@ == "SFX '"@ + n + "' not found"@)),
            None => r matches Err(e) && e@ == "SFX id "@ + decimal(id as nat) + " not found"@,
        },        id == 0 ==> (r is Ok <==> manager.reg().sfx().contains_key("jump"@)),
        id == 1 ==> (r is Ok <==> manager.reg().sfx().contains_key("hit"@)),
        id == 2 ==> (r is Ok <==> manager.reg().sfx().contains_key("coin"@)),
        id == 3 ==> (r is Ok <==> manager.reg().sfx().contains_key("clear"@)),
        id == 4 ==> (r is Ok <==> manager.reg().sfx().contains_key("game_over"@)),
{
    let name: &str = if id == 0 { "jump" } else if id == 1 { "hit" } else if id == 2 { "coin" }
        else if id == 3 { "clear" } else if id == 4 { "game_over" } else {
        let d = decimal_string(id as u64);
        return Err(quoted("SFX id ", d.as_str(), " not found"));
    };
    manager.play_sfx(name)
}

/// Play pyxel music section `section`: sections 0 to 3 are the presets
/// `forest`, `town`, `dungeon` and `boss`; another section is refused
/// (`BGM section <section> not found`).
pub fn play_preset_music(manager: &mut AudioManager, section: u32) -> (r: Result<(), String>)
    requires
        old(manager).wf(),
    ensures
        final(manager).wf(),
        final(manager).master() == old(manager).master(),
        final(manager).bgm_level() == old(manager).bgm_level(),
        final(manager).sfx_level() == old(manager).sfx_level(),
        final(manager).reg().bgm() == old(manager).reg().bgm(),
        final(manager).reg().sfx() == old(manager).reg().sfx(),
        match preset_bgm(section) {
            Some(n) => (old(manager).reg().bgm().contains_key(n) ==> r is Ok && final(manager).reg().playing() == Some(n))
                && (!old(manager).reg().bgm().contains_key(n) ==> final(manager).reg().playing() == old(manager).reg().playing()
                    && (r matches Err(e) && e@ == "BGM '"@ + n + "' not found"@)),
            None => final(manager).reg().playing() == old(manager).reg().playing()
                && (r matches Err(e) && e@ == "BGM section "@ + decimal(section as nat) + " not found"@),
        },        section == 0 ==> (r is Ok <==> old(manager).reg().bgm().contains_key("forest"@)),
        section == 0 && r is Ok ==> final(manager).reg().playing() == Some("forest"@),
        section == 1 ==> (r is Ok <==> old(manager).reg().bgm().contains_key("town"@)),
        section == 1 && r is Ok ==> final(manager).reg().playing() == Some("town"@),
        section == 2 ==> (r is Ok <==> old(manager).reg().bgm().contains_key("dungeon"@)),
        section == 2 && r is Ok ==> final(manager).reg().playing() == Some("dungeon"@),
        section == 3 ==> (r is Ok <==> old(manager).reg().bgm().contains_key("boss"@)),
        section == 3 && r is Ok ==> final(manager).reg().playing() == Some("boss"@),
{
    let name: &str = if section == 0 { "forest" } else if section == 1 { "town" } else if section == 2 { "dungeon" }
        else if section == 3 { "boss" } else {
        let d = decimal_string(section as u64);
        return Err(quoted("BGM section ", d.as_str(), " not found"));
    };
    manager.play_bgm(name)
}

/// The pyxel sound ids and music sections: sounds 0 to 4 are `jump`, `hit`,
/// `coin`, `clear` and `game_over`, music sections 0 to 3 are `forest`,
/// `town`, `dungeon` and `boss`, and no other id or section names a preset.
pub proof fn law_preset_tables(id: u32)
    ensures
        preset_sfx(0) == Some("jump"@),
        preset_sfx(1) == Some("hit"@),
        preset_sfx(2) == Some("coin"@),
        preset_sfx(3) == Some("clear"@),
        preset_sfx(4) == Some("game_over"@),
        id >= 5 ==> preset_sfx(id) is None,
        preset_bgm(0) == Some("forest"@),
        preset_bgm(1) == Some("town"@),
        preset_bgm(2) == Some("dungeon"@),
        preset_bgm(3) == Some("boss"@),
        id >= 4 ==> preset_bgm(id) is None,
{
}

} // verus!
