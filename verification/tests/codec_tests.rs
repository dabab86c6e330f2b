use config_store::codec::{decode_config, encode_config};
use config_store::config::AppConfig;

#[test]
fn decode_fills_missing_keys_with_defaults() {
    let c = decode_config("{\"zoom\": 50}").unwrap();
    assert_eq!(c.zoom, 50);
    assert_eq!(c.theme, "");
    assert_eq!(c.color, "");
    assert!(!c.show_app_rail);
    assert!(!c.sidebar_open);
    assert_eq!(c.sidebar_width, 0);
}

#[test]
fn decode_of_empty_object_is_the_default_record() {
    assert_eq!(decode_config("{}").unwrap(), AppConfig::default());
    assert_eq!(decode_config("  { \n } ").unwrap(), AppConfig::default());
}

#[test]
fn decode_accepts_any_key_order() {
    let c = decode_config(
        "{\"sidebar_width\": 7, \"theme\": \"light\", \"sidebar_open\": true}",
    )
    .unwrap();
    assert_eq!(c.sidebar_width, 7);
    assert_eq!(c.theme, "light");
    assert!(c.sidebar_open);
}

#[test]
fn decode_ignores_unknown_keys_of_any_shape() {
    let c = decode_config(
        "{\"extra\": {\"deep\": [1, 2.5, null, {\"x\": []}]}, \"zoom\": 3, \"more\": -1.5e-3}",
    )
    .unwrap();
    assert_eq!(c.zoom, 3);
}

#[test]
fn decode_resolves_escapes() {
    let c = decode_config("{\"theme\": \"a\\n\\t\\\"b\\\\c\\/\\u0041\\u00e9\"}").unwrap();
    assert_eq!(c.theme, "a\n\t\"b\\c/A\u{e9}");
}

#[test]
fn decode_resolves_surrogate_pairs() {
    let c = decode_config("{\"color\": \"\\uD83D\\uDE00\"}").unwrap();
    assert_eq!(c.color, "\u{1F600}");
}

#[test]
fn decode_rejects_lone_surrogates() {
    assert!(decode_config("{\"color\": \"\\uD83D\"}").is_none());
    assert!(decode_config("{\"color\": \"\\uDE00\"}").is_none());
}

#[test]
fn decode_rejects_malformed_documents() {
    assert!(decode_config("").is_none());
    assert!(decode_config("   ").is_none());
    assert!(decode_config("{").is_none());
    assert!(decode_config("}").is_none());
    assert!(decode_config("null").is_none());
    assert!(decode_config("[]").is_none());
    assert!(decode_config("{\"theme\" \"dark\"}").is_none());
    assert!(decode_config("{\"theme\": }").is_none());
    assert!(decode_config("{\"theme\": \"dark\",}").is_none());
    assert!(decode_config("{} trailing").is_none());
    assert!(decode_config("{\"theme\": \"unterminated}").is_none());
    assert!(decode_config("{\"theme\": \"bad\\q\"}").is_none());
    assert!(decode_config("{\"zoom\": 01}").is_none());
    assert!(decode_config("{\"zoom\": 1.}").is_none());
    assert!(decode_config("{\"zoom\": 1e}").is_none());
    assert!(decode_config("{\"zoom\": tru}").is_none());
}

#[test]
fn decode_rejects_wrong_types_for_known_keys() {
    assert!(decode_config("{\"zoom\": \"100\"}").is_none());
    assert!(decode_config("{\"zoom\": 1.5}").is_none());
    assert!(decode_config("{\"zoom\": true}").is_none());
    assert!(decode_config("{\"theme\": 3}").is_none());
    assert!(decode_config("{\"theme\": null}").is_none());
    assert!(decode_config("{\"show_app_rail\": \"yes\"}").is_none());
    assert!(decode_config("{\"sidebar_open\": 0}").is_none());
    assert!(decode_config("{\"sidebar_width\": [240]}").is_none());
}

#[test]
fn decode_rejects_out_of_range_integers() {
    assert!(decode_config("{\"zoom\": 2147483648}").is_none());
    assert!(decode_config("{\"zoom\": -2147483649}").is_none());
    assert_eq!(decode_config("{\"zoom\": 2147483647}").unwrap().zoom, 2147483647);
    assert_eq!(decode_config("{\"zoom\": -2147483648}").unwrap().zoom, -2147483648);
    assert_eq!(decode_config("{\"zoom\": -0}").unwrap().zoom, 0);
}

#[test]
fn decode_rejects_duplicate_known_keys() {
    assert!(decode_config("{\"zoom\": 1, \"zoom\": 2}").is_none());
    assert!(decode_config("{\"theme\": \"a\", \"theme\": \"b\"}").is_none());
}

#[test]
fn decode_rejects_raw_control_characters_in_strings() {
    assert!(decode_config("{\"theme\": \"a\u{1}b\"}").is_none());
}

#[test]
fn encoded_document_is_valid_json_to_serde() {
    let c = AppConfig {
        theme: "li\"ght\\mo\u{7}de\n".to_string(),
        color: "caf\u{e9} \u{1F600}".to_string(),
        zoom: -42,
        show_app_rail: true,
        sidebar_open: false,
        sidebar_width: 320,
    };
    let text = encode_config(&c);
    let v: serde_json::Value = serde_json::from_str(&text).unwrap();
    assert_eq!(v["theme"].as_str().unwrap(), c.theme);
    assert_eq!(v["color"].as_str().unwrap(), c.color);
    assert_eq!(v["zoom"].as_i64().unwrap(), -42);
    assert_eq!(v["show_app_rail"].as_bool().unwrap(), true);
    assert_eq!(v["sidebar_open"].as_bool().unwrap(), false);
    assert_eq!(v["sidebar_width"].as_i64().unwrap(), 320);
}

#[test]
fn decoder_agrees_with_serde_on_a_serde_built_document() {
    let mut map = serde_json::Map::new();
    map.insert(
        "theme".to_string(),
        serde_json::Value::String("sys\ttem\u{1F600}".to_string()),
    );
    map.insert("zoom".to_string(), serde_json::Value::Number(serde_json::Number::from(125)));
    map.insert("sidebar_open".to_string(), serde_json::Value::Bool(true));
    map.insert("ignored".to_string(), serde_json::Value::Null);
    let text = serde_json::to_string_pretty(&serde_json::Value::Object(map)).unwrap();
    let c = decode_config(&text).unwrap();
    assert_eq!(c.theme, "sys\ttem\u{1F600}");
    assert_eq!(c.zoom, 125);
    assert!(c.sidebar_open);
    assert_eq!(c.color, "");
}

#[test]
fn encode_then_decode_round_trips_every_field() {
    let cases = vec![
        AppConfig::default(),
        AppConfig {
            theme: "system".to_string(),
            color: "#a1b2c3".to_string(),
            zoom: 0,
            show_app_rail: false,
            sidebar_open: true,
            sidebar_width: -1,
        },
        AppConfig {
            theme: "\u{8}\u{c}\r\u{1f}".to_string(),
            color: "\\\"".to_string(),
            zoom: 2147483647,
            show_app_rail: true,
            sidebar_open: true,
            sidebar_width: -2147483648,
        },
    ];
    for c in cases {
        let text = encode_config(&c);
        assert_eq!(decode_config(&text).unwrap(), c);
    }
}
