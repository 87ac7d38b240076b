use daybook::{ApiConfig, AppError, ConfigManager};

#[test]
fn load_before_any_save_is_none() {
    let manager = ConfigManager::new();
    assert!(matches!(manager.load_config(), Ok(None)));
}

#[test]
fn save_then_load_round_trips() {
    let mut manager = ConfigManager::new();
    let config = ApiConfig {
        api_key: "sk-test-123".to_string(),
        api_url: "https://api.example.com/v1".to_string(),
        model: "gpt-4o-mini".to_string(),
    };
    manager.save_config(&config).unwrap();
    let loaded = manager.load_config().unwrap().unwrap();
    assert_eq!(loaded.api_key, "sk-test-123");
    assert_eq!(loaded.api_url, "https://api.example.com/v1");
    assert_eq!(loaded.model, "gpt-4o-mini");
}

#[test]
fn round_trip_survives_quotes_backslashes_and_controls() {
    let mut manager = ConfigManager::new();
    let config = ApiConfig {
        api_key: "with \"quotes\" and \\slashes\\".to_string(),
        api_url: "line\nbreak\tand tab".to_string(),
        model: "unicode \u{00e9}\u{4e2d}\u{6587}".to_string(),
    };
    manager.save_config(&config).unwrap();
    let loaded = manager.load_config().unwrap().unwrap();
    assert_eq!(loaded.api_key, config.api_key);
    assert_eq!(loaded.api_url, config.api_url);
    assert_eq!(loaded.model, config.model);
}

#[test]
fn round_trip_of_empty_fields() {
    let mut manager = ConfigManager::new();
    let config = ApiConfig {
        api_key: String::new(),
        api_url: String::new(),
        model: String::new(),
    };
    manager.save_config(&config).unwrap();
    let loaded = manager.load_config().unwrap().unwrap();
    assert_eq!(loaded.api_key, "");
    assert_eq!(loaded.api_url, "");
    assert_eq!(loaded.model, "");
}

#[test]
fn save_overwrites_wholesale() {
    let mut manager = ConfigManager::new();
    manager
        .save_api_config("k1".to_string(), "u1".to_string(), "m1".to_string())
        .unwrap();
    manager
        .save_api_config("k2".to_string(), "u2".to_string(), "m2".to_string())
        .unwrap();
    let loaded = manager.get_api_config().unwrap().unwrap();
    assert_eq!(loaded.api_key, "k2");
    assert_eq!(loaded.api_url, "u2");
    assert_eq!(loaded.model, "m2");
}

#[test]
fn unparseable_file_is_config_corrupt() {
    let manager = ConfigManager::with_contents(Some("not json at all".to_string()));
    assert!(matches!(manager.load_config(), Err(AppError::ConfigCorrupt)));
    let manager2 = ConfigManager::with_contents(Some("{\"api_key\":\"k\"}".to_string()));
    assert!(matches!(manager2.load_config(), Err(AppError::ConfigCorrupt)));
}

#[test]
fn missing_file_contents_is_none_not_error() {
    let manager = ConfigManager::with_contents(None);
    assert!(matches!(manager.load_config(), Ok(None)));
}

#[test]
fn stored_document_is_real_json_with_the_fields() {
    let mut manager = ConfigManager::new();
    let config = ApiConfig {
        api_key: "key \"x\"".to_string(),
        api_url: "https://h/v1".to_string(),
        model: "m\n".to_string(),
    };
    manager.save_config(&config).unwrap();
    let text = manager.export_contents().unwrap();
    let value: serde_json::Value = serde_json::from_str(&text).unwrap();
    assert_eq!(value["api_key"].as_str().unwrap(), "key \"x\"");
    assert_eq!(value["api_url"].as_str().unwrap(), "https://h/v1");
    assert_eq!(value["model"].as_str().unwrap(), "m\n");
}

#[test]
fn exported_contents_restore_the_same_store() {
    let mut manager = ConfigManager::new();
    manager
        .save_api_config("k".to_string(), "u".to_string(), "m".to_string())
        .unwrap();
    let text = manager.export_contents();
    let restored = ConfigManager::with_contents(text);
    let loaded = restored.load_config().unwrap().unwrap();
    assert_eq!(loaded.api_key, "k");
    assert_eq!(loaded.api_url, "u");
    assert_eq!(loaded.model, "m");
}

#[test]
fn stored_document_is_byte_identical_with_serde() {
    let mut manager = ConfigManager::new();
    let config = ApiConfig {
        api_key: "quote \" back \\ newline \n tab \t bell \u{0007}".to_string(),
        api_url: "https://api.example.com/v1".to_string(),
        model: "m\r\u{000b}".to_string(),
    };
    manager.save_config(&config).unwrap();
    let text = manager.export_contents().unwrap();
    // Re-serializing the parsed document with serde must reproduce the
    // stored bytes: same field order, whitespace, and escape choices.
    let value: serde_json::Value = serde_json::from_str(&text).unwrap();
    let serde_text = serde_json::to_string(&value).unwrap();
    assert_eq!(text, serde_text);
}

#[test]
fn serde_written_document_loads() {
    // A file written by serde's serializer is accepted as-is.
    let text = "{\"api_key\":\"k\\n\",\"api_url\":\"u\",\"model\":\"m\\t\"}".to_string();
    let manager = ConfigManager::with_contents(Some(text));
    let loaded = manager.load_config().unwrap().unwrap();
    assert_eq!(loaded.api_key, "k\n");
    assert_eq!(loaded.model, "m\t");
}
