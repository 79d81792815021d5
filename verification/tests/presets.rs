use tunecraft::engine::OutputDeviceId;
use tunecraft::presets::{GenrePresetManager, OutputPresetStore, PresetTable};

#[derive(Debug, Clone, PartialEq)]
struct Preset {
    stereo_width: f64,
    bass_db: f64,
    treble_db: f64,
}

fn p(stereo_width: f64, bass_db: f64, treble_db: f64) -> Preset {
    Preset { stereo_width, bass_db, treble_db }
}

fn built_ins() -> Vec<(String, Preset)> {
    vec![
        ("rock".to_string(), p(1.2, 3.0, 2.0)),
        ("pop".to_string(), p(1.1, 1.5, 1.5)),
        ("jazz".to_string(), p(1.1, 1.0, 0.5)),
        ("classical".to_string(), p(1.3, 1.0, 1.0)),
        ("electronic".to_string(), p(1.5, 5.0, 3.0)),
        ("hip-hop".to_string(), p(1.1, 4.0, 1.0)),
        ("metal".to_string(), p(1.2, 2.5, 3.0)),
        ("acoustic".to_string(), p(1.0, 0.5, 0.5)),
        ("r&b".to_string(), p(1.15, 3.0, 1.5)),
        ("country".to_string(), p(1.05, 1.0, 2.0)),
        ("latin".to_string(), p(1.2, 2.5, 2.0)),
        ("bollywood".to_string(), p(1.15, 2.0, 2.5)),
    ]
}

fn manager() -> GenrePresetManager<Preset> {
    GenrePresetManager::new(built_ins())
}

#[test]
fn test_built_in_genres_exist() {
    let manager = manager();
    let genres = manager.list_genres();
    for g in [
        "acoustic", "bollywood", "classical", "country", "electronic", "hip-hop", "jazz", "latin",
        "metal", "pop", "r&b", "rock",
    ] {
        assert!(genres.contains(&g.to_string()));
    }
    assert_eq!(genres.len(), 12);
}

#[test]
fn test_case_insensitive_lookup() {
    let manager = manager();
    assert!(manager.get("Rock").is_some());
    assert!(manager.get("ROCK").is_some());
    assert!(manager.get("rock").is_some());
}

#[test]
fn test_unknown_genre() {
    let manager = manager();
    assert!(manager.get("polka").is_none());
}

#[test]
fn test_register_custom_preset() {
    let mut manager = manager();
    manager.register("ambient", p(1.8, -1.0, 2.0));
    assert!(manager.get("ambient").is_some());
    assert!(!manager.is_built_in("ambient"));
}

#[test]
fn test_remove_custom_preset() {
    let mut manager = manager();
    manager.register("custom", p(1.0, 0.0, 0.0));
    assert!(manager.get("custom").is_some());
    manager.remove("custom");
    assert!(manager.get("custom").is_none());
}

#[test]
fn test_remove_built_in_resets_to_default() {
    let mut manager = manager();
    manager.register("rock", p(1.0, 10.0, 0.0));
    assert!((manager.get("rock").unwrap().bass_db - 10.0).abs() < 1e-9);
    manager.remove("rock");
    assert!(manager.get("rock").is_some());
    assert!((manager.get("rock").unwrap().bass_db - 3.0).abs() < 1e-9);
}

#[test]
fn test_list_genres_sorted() {
    let manager = manager();
    let genres = manager.list_genres();
    let mut sorted = genres.clone();
    sorted.sort();
    assert_eq!(genres, sorted, "genres should be sorted alphabetically");
}

#[test]
fn test_override_built_in() {
    let mut manager = manager();
    manager.register("jazz", p(1.0, 8.0, 8.0));
    let jazz = manager.get("jazz").unwrap();
    assert!((jazz.bass_db - 8.0).abs() < 1e-9);
    assert!(manager.is_built_in("jazz"));
}

#[test]
fn test_is_built_in() {
    let manager = manager();
    assert!(manager.is_built_in("rock"));
    assert!(manager.is_built_in("Rock")); // case-insensitive
    assert!(!manager.is_built_in("custom"));
}

#[test]
fn register_under_mixed_case_replaces_and_counts_once() {
    let mut manager = manager();
    assert_eq!(manager.len(), 12);
    manager.register("Ambient", p(1.0, 0.0, 0.0));
    manager.register("AMBIENT", p(2.0, 0.0, 0.0));
    assert_eq!(manager.len(), 13);
    assert_eq!(manager.get("ambient").unwrap().stereo_width, 2.0);
    assert!(manager.list_genres().contains(&"ambient".to_string()));
    assert!(!manager.is_empty());
}

#[test]
fn output_presets_roundtrip_per_device() {
    let mut store: OutputPresetStore<Preset> = OutputPresetStore::new();
    let id = OutputDeviceId::new("Headphones (Realtek)");
    store.save(OutputDeviceId::new("Headphones (Realtek)"), p(1.5, 3.0, 0.0));
    let loaded = store.load(&id).unwrap();
    assert!((loaded.bass_db - 3.0).abs() < 1e-9);
    assert!((loaded.stereo_width - 1.5).abs() < 1e-9);
    assert!(store.load(&OutputDeviceId::new("nonexistent")).is_none());
    store.save(OutputDeviceId::default_output(), p(1.0, 1.0, 1.0));
    assert_eq!(store.devices(), vec!["Headphones (Realtek)".to_string(), "default".to_string()]);
    store.remove(&id);
    assert!(store.load(&id).is_none());
    assert_eq!(store.devices(), vec!["default".to_string()]);
}

#[test]
fn preset_table_replaces_in_place() {
    let mut t: PresetTable<u8> = PresetTable::new();
    t.insert("a".to_string(), 1);
    t.insert("b".to_string(), 2);
    t.insert("a".to_string(), 3);
    assert_eq!(t.keys(), vec!["a".to_string(), "b".to_string()]);
    assert_eq!(t.get("a"), Some(&3));
    assert!(t.contains_key("b"));
    t.remove("a");
    assert_eq!(t.len(), 1);
    assert!(!t.contains_key("a"));
}

#[test]
fn lookup_of_a_name_and_of_its_lower_case_agree() {
    let manager = manager();
    for g in ["Rock", "JAZZ", "hip-HOP", "Polka", "Électro"] {
        assert_eq!(manager.get(g).is_some(), manager.get(&g.to_lowercase()).is_some(), "{}", g);
    }
}
