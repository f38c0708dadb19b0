//! Pyxel-style audio: sounds and music sections by number, over the audio
//! manager and a sound bank holding the preset sound effects.
use vstd::prelude::*;
use crate::audio::manager::{
    play_preset_music, play_preset_sfx, preset_bgm, preset_sfx, AudioManager,
};
use crate::audio::soundbank::SoundBank;
use crate::editor::format::io::decimal;

verus! {

/// The manager that plays sounds and the bank of sound data.
pub struct PyxelAudio {
    manager: AudioManager,
    soundbank: SoundBank,
}

impl PyxelAudio {
    pub closed spec fn mgr(&self) -> AudioManager {
        self.manager
    }

    pub closed spec fn bank(&self) -> SoundBank {
        self.soundbank
    }

    pub open spec fn wf(&self) -> bool {
        self.mgr().wf() && self.bank().wf()
    }

    /// A fresh manager, and a bank holding the preset sound effects `jump`,
    /// `hit`, `coin`, `clear` and `game_over` (with empty data).
    pub fn new() -> (a: PyxelAudio)
        ensures
            a.wf(),
            a.mgr().reg().bgm() == Map::<Seq<char>, Seq<char>>::empty(),
            a.mgr().reg().sfx() == Map::<Seq<char>, Seq<char>>::empty(),
            a.mgr().reg().playing() is None,
            a.bank().bgm() == Map::<Seq<char>, Seq<u8>>::empty(),
            a.bank().sfx() == Map::<Seq<char>, Seq<u8>>::empty().insert("jump"@, Seq::empty()).insert(
                "hit"@,
                Seq::empty(),
            ).insert("coin"@, Seq::empty()).insert("clear"@, Seq::empty()).insert("game_over"@, Seq::empty()),
    {
        let mut soundbank = SoundBank::new();
        soundbank.register_presets();
        PyxelAudio { manager: AudioManager::new(), soundbank }
    }

    /// `sfx(id, ...)`: play preset sound effect `id` (0 `jump`, 1 `hit`,
    /// 2 `coin`, 3 `clear`, 4 `game_over`) through the manager; another id
    /// is refused (`SFX id <id> not found`). The notes, duration, tempo,
    /// volume (an `f32` encoding) and looping are accepted and not used.
    pub fn sfx(
        &self,
        id: u32,
        _notes: Option<Vec<u32>>,
        _duration: u32,
        _tempo: u32,
        _volume: Option<u32>,
        _looped: bool,
    ) -> (r: Result<(), String>)
        requires
            self.wf(),
        ensures
            match preset_sfx(id) {
                Some(n) => (self.mgr().reg().sfx().contains_key(n) ==> r is Ok) && (!self.mgr().reg().sfx().contains_key(n)
                    ==> (r matches Err(e) && e@ == "SFX '"@ + n + "' not found"@)),
                None => r matches Err(e) && e@ == "SFX id "@ + decimal(id as nat) + " not found"@,
            },
    {
        play_preset_sfx(&self.manager, id)
    }

    /// `music(section, ...)`: start preset music section `section` (0
    /// `forest`, 1 `town`, 2 `dungeon`, 3 `boss`); another section is
    /// refused (`BGM section <section> not found`). The fine position and
    /// fade-out are accepted and not used.
    pub fn music(&mut self, section: u32, _fine: Option<u32>, _fade_out: Option<u32>) -> (r: Result<(), String>)
        requires
            old(self).wf(),
        ensures
            final(self).wf(),
            final(self).bank() == old(self).bank(),
            final(self).mgr().master() == old(self).mgr().master(),
            final(self).mgr().bgm_level() == old(self).mgr().bgm_level(),
            final(self).mgr().sfx_level() == old(self).mgr().sfx_level(),
            final(self).mgr().reg().bgm() == old(self).mgr().reg().bgm(),
            final(self).mgr().reg().sfx() == old(self).mgr().reg().sfx(),
            match preset_bgm(section) {
                Some(n) => (old(self).mgr().reg().bgm().contains_key(n) ==> r is Ok && final(self).mgr().reg().playing()
                    == Some(n)) && (!old(self).mgr().reg().bgm().contains_key(n) ==> final(self).mgr().reg().playing()
                    == old(self).mgr().reg().playing() && (r matches Err(e) && e@ == "BGM '"@ + n + "' not found"@)),
                None => final(self).mgr().reg().playing() == old(self).mgr().reg().playing() && (r matches Err(e) && e@
                    == "BGM section "@ + decimal(section as nat) + " not found"@),
            },
    {
        play_preset_music(&mut self.manager, section)
    }

    pub fn get_manager(&self) -> (m: &AudioManager)
        ensures
            *m == self.mgr(),
    {
        &self.manager
    }

    pub fn get_manager_mut(&mut self) -> (m: &mut AudioManager)
        ensures
            *m == old(self).mgr(),
            final(self).mgr() == *final(m),
            final(self).bank() == old(self).bank(),
    {
        &mut self.manager
    }

    pub fn get_soundbank(&self) -> (b: &SoundBank)
        ensures
            *b == self.bank(),
    {
        &self.soundbank
    }

    pub fn get_soundbank_mut(&mut self) -> (b: &mut SoundBank)
        ensures
            *b == old(self).bank(),
            final(self).bank() == *final(b),
            final(self).mgr() == old(self).mgr(),
    {
        &mut self.soundbank
    }
}

impl Default for PyxelAudio {
    fn default() -> (a: PyxelAudio)
        ensures
            a.wf(),
            a.mgr().reg().bgm() == Map::<Seq<char>, Seq<char>>::empty(),
            a.mgr().reg().sfx() == Map::<Seq<char>, Seq<char>>::empty(),
            a.mgr().reg().playing() is None,
    {
        PyxelAudio::new()
    }
}

} // verus!
