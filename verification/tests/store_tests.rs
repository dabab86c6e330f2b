use config_store::config::AppConfig;
use config_store::error::ConfigError;
use config_store::store::ConfigStore;

fn sample() -> AppConfig {
    AppConfig {
        theme: "dark".to_string(),
        color: "blue".to_string(),
        zoom: 100,
        show_app_rail: true,
        sidebar_open: false,
        sidebar_width: 240,
    }
}

#[test]
fn save_then_load_returns_identical_record() {
    let store = ConfigStore::new("/home/user/.config/app".to_string());
    let text = store.save_text(&sample());
    let loaded = store.load_from(Some(&text)).unwrap();
    assert_eq!(loaded, sample());
}

#[test]
fn saved_text_is_the_pretty_document() {
    let store = ConfigStore::new("/tmp".to_string());
    let text = store.save_text(&sample());
    let expected = "{\n  \"theme\": \"dark\",\n  \"color\": \"blue\",\n  \"zoom\": 100,\n  \"show_app_rail\": true,\n  \"sidebar_open\": false,\n  \"sidebar_width\": 240\n}";
    assert_eq!(text, expected);
}

#[test]
fn load_without_file_gives_all_defaults() {
    let store = ConfigStore::new("/tmp".to_string());
    let loaded = store.load_from(None).unwrap();
    assert_eq!(loaded.theme, "");
    assert_eq!(loaded.color, "");
    assert_eq!(loaded.zoom, 0);
    assert!(!loaded.show_app_rail);
    assert!(!loaded.sidebar_open);
    assert_eq!(loaded.sidebar_width, 0);
    assert_eq!(loaded, AppConfig::default());
}

#[test]
fn delete_is_a_no_op_without_a_file() {
    let store = ConfigStore::new("/tmp".to_string());
    // No file: nothing to remove, and that is success.
    assert!(!store.delete_plan(false));
    // A file exists: the first delete removes it...
    assert!(store.delete_plan(true));
    // ...after which the second call again has nothing to do and succeeds.
    assert!(!store.delete_plan(false));
}

#[test]
fn path_ends_in_settings_json_and_is_stable() {
    let store = ConfigStore::new("/home/user/.config/app".to_string());
    let p1 = store.settings_path();
    let p2 = store.settings_path();
    assert_eq!(p1, "/home/user/.config/app/settings.json");
    assert_eq!(p1, p2);
    assert!(p1.ends_with("settings.json"));
    assert!(p1.starts_with('/'));
}

#[test]
fn path_does_not_double_a_trailing_separator() {
    let store = ConfigStore::new("/var/tmp/".to_string());
    assert_eq!(store.settings_path(), "/var/tmp/settings.json");
}

#[test]
fn round_trip_with_escapes_and_negative_numbers() {
    let store = ConfigStore::new("/tmp".to_string());
    let c = AppConfig {
        theme: "li\"ght\\mode\n\t".to_string(),
        color: "caf\u{e9} \u{1F600} \u{1}".to_string(),
        zoom: -2147483648,
        show_app_rail: false,
        sidebar_open: true,
        sidebar_width: 2147483647,
    };
    let text = store.save_text(&c);
    let loaded = store.load_from(Some(&text)).unwrap();
    assert_eq!(loaded, c);
}

#[test]
fn round_trip_of_the_default_record() {
    let store = ConfigStore::new("/tmp".to_string());
    let c = AppConfig::default();
    let text = store.save_text(&c);
    assert_eq!(store.load_from(Some(&text)).unwrap(), c);
}

#[test]
fn malformed_text_is_a_decode_error_not_defaults() {
    let store = ConfigStore::new("/tmp".to_string());
    let err = store.load_from(Some("{ not json")).unwrap_err();
    assert!(matches!(err, ConfigError::DecodeError(_)));
    let msg = err.message();
    assert!(msg.starts_with("Failed to parse config: "));
}

#[test]
fn error_messages_carry_their_kind_prefix() {
    let read = ConfigError::ReadError("permission denied".to_string());
    assert_eq!(read.message(), "Failed to read config: permission denied");
    let dir = ConfigError::ConfigDirUnavailable("no home".to_string());
    assert_eq!(dir.message(), "Failed to get config dir: no home");
    let del = ConfigError::DeleteError("busy".to_string());
    assert_eq!(del.message(), "Failed to delete config: busy");
    let mk = ConfigError::DirCreateError("full".to_string());
    assert_eq!(mk.message(), "Failed to create config dir: full");
    let wr = ConfigError::WriteError("full".to_string());
    assert_eq!(wr.message(), "Failed to write config: full");
    let enc = ConfigError::EncodeError("odd".to_string());
    assert_eq!(enc.message(), "Failed to serialize config: odd");
    let app = enc.into_app_error();
    assert_eq!(app.message, "Failed to serialize config: odd");
}
