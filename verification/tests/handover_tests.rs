use infinite::handover::{
    config_text, gui_config_entries, gui_config_for, modinfo_file_in, modinfo_path, modinfo_text,
};
use infinite::file_manager::FileManager;

#[test]
fn modinfo_text_is_pretty_object() {
    assert_eq!(
        modinfo_text().unwrap(),
        "{\n  \"name\": \"Infinite\",\n  \"savepath\": \"Infinite/\"\n}"
    );
}

#[test]
fn modinfo_goes_beside_the_output_directory() {
    assert_eq!(
        modinfo_path("/g/Mods/Infinite/Infinite.mpq/data").unwrap(),
        "/g/Mods/Infinite/Infinite.mpq/modinfo.json"
    );
    assert_eq!(modinfo_path("data").unwrap(), "modinfo.json");
    assert!(modinfo_path("").is_none());
    assert!(modinfo_path("/").is_none());
    assert_eq!(modinfo_file_in("/"), "/modinfo.json");
    assert_eq!(modinfo_file_in("a\\"), "a\\modinfo.json");
    assert_eq!(modinfo_file_in("a"), "a/modinfo.json");
}

#[test]
fn gui_config_lookup_by_key() {
    let text = "{\"github:o/r\": {\"enabled\": true, \"level\": 3}, \"mods/x\": {}}";
    let entries = gui_config_entries(text).unwrap();
    assert_eq!(entries.len(), 2);
    let cfg = gui_config_for(text, "github:o/r").unwrap();
    assert_eq!(
        cfg,
        vec![
            ("enabled".to_string(), serde_json::Value::Bool(true)),
            ("level".to_string(), serde_json::Value::from(3)),
        ]
    );
    assert!(gui_config_for(text, "mods/x").unwrap().is_empty());
    assert!(gui_config_for(text, "github:o/other").is_none());
    assert!(gui_config_for("not json", "github:o/r").is_none());
    assert!(gui_config_entries("[1, 2]").is_none());
}

#[test]
fn config_json_text() {
    let cfg = vec![
        ("level".to_string(), serde_json::Value::from(3)),
        ("enabled".to_string(), serde_json::Value::Bool(true)),
    ];
    assert_eq!(config_text(&cfg).unwrap(), "{\n  \"enabled\": true,\n  \"level\": 3\n}");
}

#[test]
fn ascii_paths_normalize_once() {
    let n = FileManager::normalize_path("Data\\Global\\EXCEL/Skills.TXT");
    assert_eq!(n, "data/global/excel/skills.txt");
    assert_eq!(FileManager::normalize_path(&n), n);
    assert!(!n.contains('\\'));
}
