use nantaraquad::editor::file::FileManager;
use nantaraquad::editor::format::io::{cel_filename, decimal_string, doc_dir_from_stem, doc_dir_name};
use nantaraquad::editor::format::{check_version, nQFormatError};
use nantaraquad::sprite::{ColorMode, SpriteData};

#[test]
fn decimal_strings() {
    assert_eq!(decimal_string(0), "0");
    assert_eq!(decimal_string(7), "7");
    assert_eq!(decimal_string(10), "10");
    assert_eq!(decimal_string(4294967295), "4294967295");
    assert_eq!(cel_filename(123, 4000000000), "cel_123_4000000000.bin");
}

#[test]
fn doc_dir_names() {
    assert_eq!(doc_dir_name("A  B"), "a__b.nquad");
    assert_eq!(doc_dir_name("ÄBC Doc"), "äbc_doc.nquad");
    assert_eq!(doc_dir_from_stem("plain".to_string()), "plain.nquad");
}

#[test]
fn format_version_check() {
    assert!(check_version(1).is_ok());
    assert!(matches!(check_version(2), Err(nQFormatError::InvalidVersion)));
    assert!(matches!(check_version(0), Err(nQFormatError::InvalidVersion)));
}

#[test]
fn format_error_messages() {
    assert_eq!(nQFormatError::InvalidVersion.message(), "Unsupported file version");
    assert_eq!(nQFormatError::MissingLayers.message(), "No layers defined");
    assert_eq!(nQFormatError::MissingClips.message(), "No animation clips");
    assert_eq!(nQFormatError::CorruptedMetadata("bad".to_string()).message(), "Corrupted metadata: bad");
    assert_eq!(nQFormatError::IOError("gone".to_string()).message(), "IO error: gone");
}

#[test]
fn recent_files_most_recent_first_without_repeats() {
    let mut m = FileManager::new();
    m.add_recent_file("a.bin".to_string());
    m.add_recent_file("b.bin".to_string());
    m.add_recent_file("a.bin".to_string());
    assert_eq!(m.recent_files, vec!["a.bin".to_string(), "b.bin".to_string()]);
    // the same path written differently counts as the same file
    m.add_recent_file("dir//c.bin".to_string());
    m.add_recent_file("dir/c.bin".to_string());
    assert_eq!(m.recent_files, vec!["dir/c.bin".to_string(), "a.bin".to_string(), "b.bin".to_string()]);
}

#[test]
fn recent_files_capped_at_ten() {
    let mut m = FileManager::new();
    for i in 0..15 {
        m.add_recent_file(format!("f{}.bin", i));
    }
    assert_eq!(m.recent_files.len(), 10);
    assert_eq!(m.recent_files[0], "f14.bin");
    assert_eq!(m.recent_files[9], "f5.bin");
}

#[test]
fn file_manager_save_outcomes() {
    let mut m = FileManager::new();
    assert_eq!(m.save_sprite("x/y.bin", Err("disk full".to_string())), Err("Save failed: disk full".to_string()));
    assert!(m.current_file.is_none());
    assert_eq!(m.save_sprite("x/y.bin", Ok(())), Ok("x/y.bin".to_string()));
    assert_eq!(m.current_file, Some("x/y.bin".to_string()));
    assert_eq!(m.current_filename(), Some("y.bin".to_string()));
    assert_eq!(m.recent_files, vec!["x/y.bin".to_string()]);
}

#[test]
fn file_manager_load_outcomes() {
    let mut m = FileManager::new();
    assert_eq!(m.load_sprites("a.bin", Err("missing".to_string())).err(), Some("missing".to_string()));
    assert_eq!(m.load_sprites("a.bin", Ok(Vec::new())).err(), Some("No sprites in file".to_string()));
    assert!(m.current_file.is_none());
    let got = m.load_sprites("dir/a.bin", Ok(vec![SpriteData::new(1, 1, ColorMode::FullColor)])).unwrap();
    assert_eq!(got.len(), 1);
    assert_eq!(m.current_filename(), Some("a.bin".to_string()));
}

#[test]
fn current_filename_without_file_name() {
    let mut m = FileManager::new();
    assert_eq!(m.current_filename(), None);
    m.current_file = Some("dir/..".to_string());
    assert_eq!(m.current_filename(), None);
}
