use nantaraquad::api::audio_compat::PyxelAudio;
use nantaraquad::audio::manager::{play_preset_music, play_preset_sfx, AudioManager, AudioRegistry};
use nantaraquad::audio::soundbank::SoundBank;

static JUMP: [u8; 3] = [1, 2, 3];
static THEME: [u8; 2] = [7, 8];

#[test]
fn soundbank_presets_and_lookup() {
    let mut bank = SoundBank::new();
    assert!(!bank.has_sound("jump"));
    bank.register_presets();
    for name in ["jump", "hit", "coin", "clear", "game_over"] {
        assert!(bank.has_sound(name));
        assert_eq!(bank.get_sfx(name), Some(&[][..]));
    }
    assert!(!bank.has_sound("boss"));
    assert_eq!(bank.get_bgm("jump"), None);
}

#[test]
fn soundbank_register_replaces() {
    let mut bank = SoundBank::default();
    bank.register_sfx("jump", &JUMP);
    bank.register_presets();
    assert_eq!(bank.get_sfx("jump"), Some(&[][..]));
    bank.register_sfx("jump", &JUMP);
    assert_eq!(bank.get_sfx("jump"), Some(&JUMP[..]));
    bank.register_bgm("theme", &THEME);
    assert_eq!(bank.get_bgm("theme"), Some(&THEME[..]));
    assert!(bank.has_sound("theme"));
    assert_eq!(bank.get_sfx("theme"), None);
}

#[test]
fn registry_load_and_play() {
    let mut reg = AudioRegistry::new();
    assert_eq!(reg.load_bgm("forest", "forest.ogg", false), Err("Failed to load BGM 'forest.ogg': file not found".to_string()));
    assert_eq!(reg.play_bgm("forest"), Err("BGM 'forest' not found".to_string()));
    assert_eq!(reg.load_bgm("forest", "forest.ogg", true), Ok(()));
    assert_eq!(reg.play_bgm("forest"), Ok(()));
    assert!(reg.is_bgm_playing("forest"));
    assert!(!reg.is_bgm_playing("town"));
    reg.stop_bgm();
    assert!(!reg.is_bgm_playing("forest"));
    assert_eq!(reg.load_sfx("hit", "hit.wav", false), Err("Failed to load SFX 'hit.wav': file not found".to_string()));
    assert_eq!(reg.play_sfx("hit"), Err("SFX 'hit' not found".to_string()));
    assert_eq!(reg.load_sfx("hit", "hit.wav", true), Ok(()));
    assert_eq!(reg.play_sfx("hit"), Ok(()));
}

#[test]
fn preset_sound_ids() {
    let mut manager = AudioManager::new();
    assert_eq!(play_preset_sfx(&manager, 1), Err("SFX 'hit' not found".to_string()));
    manager.load_sfx("hit", "hit.wav", true).unwrap();
    assert_eq!(play_preset_sfx(&manager, 1), Ok(()));
    assert_eq!(play_preset_sfx(&manager, 5), Err("SFX id 5 not found".to_string()));
    assert_eq!(play_preset_music(&mut manager, 12), Err("BGM section 12 not found".to_string()));
    assert_eq!(play_preset_music(&mut manager, 3), Err("BGM 'boss' not found".to_string()));
    manager.load_bgm("boss", "boss.ogg", true).unwrap();
    assert_eq!(play_preset_music(&mut manager, 3), Ok(()));
    assert!(manager.is_bgm_playing("boss"));
}

#[test]
fn manager_volumes_are_clamped() {
    let mut manager = AudioManager::default();
    assert_eq!(f32::from_bits(manager.get_master_volume()), 1.0);
    assert_eq!(f32::from_bits(manager.get_bgm_volume()), 1.0);
    assert_eq!(f32::from_bits(manager.get_sfx_volume()), 1.0);
    manager.set_master_volume(1.5f32.to_bits());
    assert_eq!(f32::from_bits(manager.get_master_volume()), 1.0);
    manager.set_bgm_volume((-0.25f32).to_bits());
    assert_eq!(f32::from_bits(manager.get_bgm_volume()), 0.0);
    manager.set_sfx_volume(0.25f32.to_bits());
    assert_eq!(f32::from_bits(manager.get_sfx_volume()), 0.25);
    assert_eq!(f32::from_bits(manager.get_master_volume()), 1.0);
    manager.set_sfx_volume(f32::NAN.to_bits());
    assert!(f32::from_bits(manager.get_sfx_volume()).is_nan());
}

#[test]
fn manager_load_and_play() {
    let mut manager = AudioManager::new();
    assert_eq!(manager.load_bgm("town", "town.ogg", false), Err("Failed to load BGM 'town.ogg': file not found".to_string()));
    assert_eq!(manager.play_bgm("town"), Err("BGM 'town' not found".to_string()));
    manager.load_bgm("town", "town.ogg", true).unwrap();
    assert_eq!(manager.play_bgm("town"), Ok(()));
    assert!(manager.is_bgm_playing("town"));
    manager.stop_bgm();
    assert!(!manager.is_bgm_playing("town"));
    assert_eq!(manager.play_sfx("coin"), Err("SFX 'coin' not found".to_string()));
    manager.load_sfx("coin", "coin.wav", true).unwrap();
    assert_eq!(manager.play_sfx("coin"), Ok(()));
    assert!(manager.registry().is_bgm_playing("nothing") == false);
}

#[test]
fn pyxel_audio_presets() {
    let mut audio = PyxelAudio::new();
    assert!(audio.get_soundbank().has_sound("game_over"));
    assert!(!audio.get_soundbank().has_sound("forest"));
    assert_eq!(audio.sfx(0, None, 0, 0, None, false), Err("SFX 'jump' not found".to_string()));
    audio.get_manager_mut().load_sfx("jump", "jump.wav", true).unwrap();
    assert_eq!(audio.sfx(0, Some(vec![1, 2]), 10, 120, Some(0.5f32.to_bits()), true), Ok(()));
    assert_eq!(audio.sfx(7, None, 0, 0, None, false), Err("SFX id 7 not found".to_string()));
    assert_eq!(audio.music(1, None, None), Err("BGM 'town' not found".to_string()));
    audio.get_manager_mut().load_bgm("town", "town.ogg", true).unwrap();
    assert_eq!(audio.music(1, Some(0), None), Ok(()));
    assert!(audio.get_manager().is_bgm_playing("town"));
    assert_eq!(audio.music(4, None, None), Err("BGM section 4 not found".to_string()));
    assert!(audio.get_manager().is_bgm_playing("town"));
    audio.get_soundbank_mut().register_bgm("theme", &THEME);
    assert_eq!(audio.get_soundbank().get_bgm("theme"), Some(&THEME[..]));
}
