use nih_faust_jit::presets::{
    list_preset_files, preset_file_name, preset_name_of, sanitize_filename, PresetError,
    PresetManager,
};
use nih_faust_jit::store::ParamStore;

fn strings(texts: &[&str]) -> Vec<String> {
    texts.iter().map(|t| t.to_string()).collect()
}

#[test]
fn forbidden_characters_are_replaced() {
    assert_eq!(sanitize_filename("a/b\\c:d*e?f\"g<h>i|j"), "a_b_c_d_e_f_g_h_i_j");
    assert_eq!(sanitize_filename("Warm Pad (2) \u{e9}\u{4e16}.x"), "Warm Pad (2) \u{e9}\u{4e16}.x");
    assert_eq!(sanitize_filename(""), "");
}

#[test]
fn sanitizing_twice_is_sanitizing_once() {
    for name in ["a/b", "??", "plain", "a_b"] {
        let once = sanitize_filename(name);
        assert_eq!(sanitize_filename(&once), once);
        assert_eq!(once.chars().count(), name.chars().count());
    }
}

#[test]
fn presets_have_their_files() {
    assert_eq!(preset_file_name("Lead/1"), "Lead_1.json");
    assert_eq!(preset_file_name(""), ".json");
    assert_eq!(preset_name_of("Lead_1.json"), Some("Lead_1".to_string()));
    assert_eq!(preset_name_of("a.b.json"), Some("a.b".to_string()));
    assert_eq!(preset_name_of("..json"), Some(".".to_string()));
    for other in [".json", "json", "a.jso", "a.json.bak", "a.JSON", "", "ajson"] {
        assert_eq!(preset_name_of(other), None, "{}", other);
    }
}

#[test]
fn file_names_are_split_like_paths() {
    for name in ["Lead_1.json", "a.b.json", "..json", ".json", "json", "a.json.bak", "a.JSON"] {
        let path = std::path::Path::new(name);
        let is_json = path.extension().map(|e| e == "json").unwrap_or(false);
        let stem = path.file_stem().and_then(|s| s.to_str()).map(|s| s.to_string());
        let expected = if is_json { stem } else { None };
        assert_eq!(preset_name_of(name), expected, "{}", name);
    }
}

#[test]
fn only_preset_files_are_listed() {
    let files = strings(&["b.json", "readme.txt", "a.json", ".json"]);
    assert_eq!(list_preset_files(&files), strings(&["b", "a"]));
}

#[test]
fn saved_presets_are_listed_and_found() {
    let manager = PresetManager::new(Some("presets"));
    let mut values = ParamStore::new();
    values.insert("gain".to_string(), 7);
    let (file, preset) = match manager.save_preset("reverb", "Big: hall", values) {
        Ok(saved) => saved,
        Err(e) => panic!("{}", e.message()),
    };
    assert_eq!(*file.dir.base, "presets");
    assert_eq!(file.dir.dsp_name, "reverb");
    assert_eq!(file.file_name, "Big_ hall.json");
    assert_eq!(preset.name, "Big: hall");
    assert_eq!(preset.values.get("gain"), Some(7));
    let listed = manager.list_presets(Some(vec![file.file_name.clone()]));
    assert_eq!(listed, strings(&["Big_ hall"]));
    match manager.load_preset("reverb", &listed[0]) {
        Ok(found) => assert_eq!(found.file_name, file.file_name),
        Err(e) => panic!("{}", e.message()),
    }
    match manager.delete_preset("reverb", &listed[0]) {
        Ok(found) => assert_eq!(found.file_name, file.file_name),
        Err(e) => panic!("{}", e.message()),
    }
}

#[test]
fn without_a_directory_there_are_no_presets() {
    let manager: PresetManager<String> = PresetManager::new(None);
    assert!(manager.dsp_presets_dir("x").is_none());
    assert!(manager.list_presets(Some(strings(&["a.json"]))).is_empty());
    assert!(matches!(manager.load_preset("x", "y"), Err(PresetError::NoDirectory)));
    assert!(matches!(manager.delete_preset("x", "y"), Err(PresetError::NoDirectory)));
    let refused = manager.save_preset("x", "y", ParamStore::new());
    assert!(matches!(refused, Err(PresetError::NoDirectory)));
    let manager = PresetManager::new(Some(1));
    assert!(manager.list_presets(None).is_empty());
    assert_eq!(manager.dsp_presets_dir("x").unwrap().dsp_name, "x");
}

#[test]
fn preset_errors_have_their_messages() {
    let detail = || "why".to_string();
    assert_eq!(PresetError::NoDirectory.message(), "Presets directory not available");
    assert_eq!(
        PresetError::CreateDirectory(detail()).message(),
        "Failed to create directory: why"
    );
    assert_eq!(PresetError::Serialize(detail()).message(), "Failed to serialize preset: why");
    assert_eq!(PresetError::Write(detail()).message(), "Failed to write preset: why");
    assert_eq!(PresetError::Read(detail()).message(), "Failed to read preset: why");
    assert_eq!(PresetError::Parse(detail()).message(), "Failed to parse preset: why");
    assert_eq!(PresetError::Delete(detail()).message(), "Failed to delete preset: why");
}

#[test]
fn names_alike_share_a_file() {
    let manager = PresetManager::new(Some("presets"));
    let (saved, preset) = manager.save_preset("synth", "a/b", ParamStore::new()).unwrap();
    assert_eq!(preset.name, "a/b");
    for alike in ["a/b", "a_b", "a?b"] {
        let loaded = manager.load_preset("synth", alike).unwrap();
        let deleted = manager.delete_preset("synth", alike).unwrap();
        assert_eq!(loaded.file_name, saved.file_name);
        assert_eq!(deleted.file_name, saved.file_name);
        assert_eq!((loaded.dir.base, loaded.dir.dsp_name.as_str()), (&"presets", "synth"));
    }
    assert_ne!(manager.load_preset("synth", "ab").unwrap().file_name, saved.file_name);
    assert_ne!(manager.load_preset("drum", "a/b").unwrap().dir.dsp_name, saved.dir.dsp_name);
}

#[test]
fn deleted_presets_are_not_listed() {
    let manager = PresetManager::new(Some("presets"));
    let mut files = strings(&["x.json", "a_b.json", "y.json", "notes.txt"]);
    assert_eq!(manager.list_presets(Some(files.clone())), strings(&["x", "a_b", "y"]));
    let gone = manager.delete_preset("synth", "a/b").unwrap().file_name;
    files.retain(|file| *file != gone);
    assert_eq!(manager.list_presets(Some(files)), strings(&["x", "y"]));
}
