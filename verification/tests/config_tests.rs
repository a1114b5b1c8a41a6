use infinite::config::{ConfigOption, ConfigValue, ModConfig, SelectOption, UserConfig};
use infinite::loader::{LoadedMod, ModLoader};

fn test_mod_config() -> ModConfig {
    ModConfig {
        name: "Test Mod".to_string(),
        description: Some("A test mod".to_string()),
        author: Some("Test Author".to_string()),
        website: None,
        version: "1.0".to_string(),
        config: vec![
            ConfigOption::CheckBox {
                id: "enabled".to_string(),
                name: "Enable Feature".to_string(),
                description: None,
                default: true,
            },
            ConfigOption::Number {
                id: "value".to_string(),
                name: "Value".to_string(),
                description: None,
                default: 100f64.to_bits(),
                min: Some(1f64.to_bits()),
                max: Some(1000f64.to_bits()),
            },
        ],
    }
}

#[test]
fn test_parse_mod_config() {
    let config = test_mod_config();
    assert_eq!(config.name, "Test Mod");
    assert_eq!(config.version, "1.0");
    assert_eq!(config.config.len(), 2);

    let defaults = config.generate_default_config();
    assert!(matches!(defaults.get("enabled").unwrap(), ConfigValue::Bool(true)));
    match defaults.get("value").unwrap() {
        ConfigValue::Number(bits) => assert_eq!(f64::from_bits(*bits), 100.0),
        other => panic!("unexpected {:?}", other),
    }
}

#[test]
fn sections_have_no_default() {
    let section = ConfigOption::Section {
        id: "s".to_string(),
        name: "Section".to_string(),
        default_expanded: Some(true),
    };
    assert!(section.get_default_value().is_none());
    assert_eq!(section.id(), "s");
    let select = ConfigOption::Select {
        id: "mode".to_string(),
        name: "Mode".to_string(),
        description: None,
        default: "fast".to_string(),
        options: vec![SelectOption { label: "Fast".to_string(), value: "fast".to_string() }],
    };
    match select.get_default_value().unwrap() {
        ConfigValue::Text(t) => assert_eq!(t, "fast"),
        other => panic!("unexpected {:?}", other),
    }
    let text = ConfigOption::Text {
        id: "t".to_string(),
        name: "T".to_string(),
        description: None,
        default: "hello".to_string(),
    };
    assert!(matches!(text.get_default_value().unwrap(), ConfigValue::Text(t) if t == "hello"));
}

#[test]
fn fill_defaults_keeps_user_values() {
    let config = test_mod_config();
    let mut user = UserConfig::new();
    assert!(user.is_empty());
    user.insert("enabled".to_string(), ConfigValue::Bool(false));
    user.fill_defaults(&config);
    assert!(matches!(user.get("enabled").unwrap(), ConfigValue::Bool(false)));
    assert!(matches!(user.get("value").unwrap(), ConfigValue::Number(b) if *b == 100f64.to_bits()));
    assert!(!user.is_empty());
    assert!(user.get("missing").is_none());
}

#[test]
fn fill_defaults_of_empty_is_defaults() {
    let config = test_mod_config();
    let mut user = UserConfig::new();
    user.fill_defaults(&config);
    let defaults = config.generate_default_config();
    assert_eq!(user.entries.len(), defaults.entries.len());
    assert!(matches!(user.get("enabled").unwrap(), ConfigValue::Bool(true)));
}

#[test]
fn later_option_with_same_id_wins() {
    let mut config = test_mod_config();
    config.config.push(ConfigOption::CheckBox {
        id: "enabled".to_string(),
        name: "Again".to_string(),
        description: None,
        default: false,
    });
    let defaults = config.generate_default_config();
    assert!(matches!(defaults.get("enabled").unwrap(), ConfigValue::Bool(false)));
}

#[test]
fn insert_replaces_a_value() {
    let mut user = UserConfig::new();
    user.insert("a".to_string(), ConfigValue::Text("x".to_string()));
    user.insert("a".to_string(), ConfigValue::Text("y".to_string()));
    assert_eq!(user.entries.len(), 1);
    assert!(matches!(user.get("a").unwrap(), ConfigValue::Text(t) if t == "y"));
}

#[test]
fn config_value_copy_keeps_value() {
    let v = ConfigValue::Text("abc".to_string());
    assert!(matches!(v.copy(), ConfigValue::Text(t) if t == "abc"));
    assert!(matches!(ConfigValue::Number(7).copy(), ConfigValue::Number(7)));
}

#[test]
fn loaded_mod_starts_with_defaults() {
    let m = LoadedMod::new("TestMod".to_string(), "/mods/TestMod".to_string(), test_mod_config());
    assert_eq!(m.id, "TestMod");
    assert_eq!(m.path, "/mods/TestMod");
    assert_eq!(m.config.name, "Test Mod");
    assert!(matches!(m.user_config.get("enabled").unwrap(), ConfigValue::Bool(true)));
}

#[test]
fn loader_keeps_mods_dir() {
    let loader = ModLoader::new("./mods");
    assert_eq!(loader.mods_dir(), "./mods");
}
