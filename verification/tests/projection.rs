use pod0_storage::projection::{
    check_projection, is_allowed_setting, projection_document, read_json, sanitize_settings,
    sanitized_application_state, settings_object_text, validate_sanitized_application_state, JsonValue,
    SETTINGS_KEYS,
};
use pod0_storage::StorageError;

fn sanitize(bytes: &[u8]) -> Result<String, StorageError> {
    sanitized_application_state(bytes)
}

fn validate(bytes: &[u8]) -> Result<(), StorageError> {
    validate_sanitized_application_state(bytes)
}

#[test]
fn projection_preserves_only_known_scalar_settings_and_has_empty_product_state() {
    let text = sanitize(br#"{"llmModel":"model","autoPlayNext":true}"#).unwrap();
    let value: serde_json::Value = serde_json::from_str(&text).unwrap();
    assert_eq!(value["settings"]["llmModel"], "model");
    assert_eq!(value["episodes"], serde_json::Value::Array(vec![]));
    assert!(sanitize(br#"{"episodes":[{"private":true}]}"#).is_err());
    assert!(sanitize(br#"{"llmModel":{"private":true}}"#).is_err());
    assert!(sanitize(br#"{"openRouterAPIKey":"secret"}"#).is_err());
    validate(text.as_bytes()).unwrap();
    let mut tampered: serde_json::Value = serde_json::from_str(&text).unwrap();
    let mut private = serde_json::Map::new();
    private.insert("private".to_string(), serde_json::Value::Bool(true));
    tampered["episodes"] = serde_json::Value::Array(vec![serde_json::Value::Object(private)]);
    assert!(validate(&serde_json::to_vec(&tampered).unwrap()).is_err());
}

#[test]
fn projection_text_is_the_serialized_projection() {
    let text = sanitize(br#"{"skipForwardSeconds":30,"llmModel":"a\"b"}"#).unwrap();
    assert_eq!(
        text,
        r#"{"categories":[],"categorySettings":{},"clips":[],"episodes":[],"notes":[],"persistenceGeneration":0,"podcasts":[],"settings":{"llmModel":"a\"b","skipForwardSeconds":30},"subscriptions":[]}"#
    );
}

#[test]
fn empty_settings_give_an_empty_settings_object() {
    assert_eq!(
        sanitize(b"{}").unwrap(),
        r#"{"categories":[],"categorySettings":{},"clips":[],"episodes":[],"notes":[],"persistenceGeneration":0,"podcasts":[],"settings":{},"subscriptions":[]}"#
    );
}

#[test]
fn settings_that_are_not_an_object_or_too_large_are_refused() {
    assert_eq!(sanitize(b"[]"), Err(StorageError::CommandConflict));
    assert_eq!(sanitize(b"not json"), Err(StorageError::CommandConflict));
    let mut large = String::from("{\"llmModel\":\"");
    large.push_str(&"x".repeat(256 * 1024));
    large.push_str("\"}");
    assert_eq!(sanitize(large.as_bytes()), Err(StorageError::CommandConflict));
}

#[test]
fn assembled_text_has_exact_shape() {
    let pairs = vec![
        ("\"a\"".to_string(), "1".to_string()),
        ("\"b\"".to_string(), "null".to_string()),
    ];
    assert_eq!(settings_object_text(&pairs), r#"{"a":1,"b":null}"#);
    assert_eq!(settings_object_text(&vec![]), "{}");
    assert_eq!(
        projection_document("{}"),
        r#"{"categories":[],"categorySettings":{},"clips":[],"episodes":[],"notes":[],"persistenceGeneration":0,"podcasts":[],"settings":{},"subscriptions":[]}"#
    );
}

#[test]
fn validation_requires_exact_members() {
    let good = sanitize(br#"{"autoPlayNext":false}"#).unwrap();
    assert!(validate(good.as_bytes()).is_ok());
    let mut value: serde_json::Value = serde_json::from_str(&good).unwrap();
    value["persistenceGeneration"] = serde_json::Value::from(1);
    assert!(validate(value.to_string().as_bytes()).is_err());
    let mut extra: serde_json::Value = serde_json::from_str(&good).unwrap();
    extra["extra"] = serde_json::Value::Null;
    assert!(validate(extra.to_string().as_bytes()).is_err());
    let mut secret: serde_json::Value = serde_json::from_str(&good).unwrap();
    secret["settings"]["openRouterAPIKey"] = serde_json::Value::from("secret");
    assert!(validate(secret.to_string().as_bytes()).is_err());
    assert_eq!(validate(b"not json"), Err(StorageError::CommandConflict));
    assert_eq!(check_projection(&None), Err(StorageError::CommandConflict));
}

#[test]
fn settings_keys_are_sorted_and_known() {
    assert!(SETTINGS_KEYS.windows(2).all(|pair| pair[0] < pair[1]));
    assert!(is_allowed_setting("llmModel"));
    assert!(!is_allowed_setting("openRouterAPIKey"));
}

#[test]
fn json_is_read_into_plain_values() {
    let read = read_json(br#"{"b":null,"a":[1,"x",true],"c":{"d":-2.5}}"#).unwrap();
    assert_eq!(
        read,
        JsonValue::Object(vec![
            (
                "a".to_string(),
                JsonValue::Array(vec![
                    JsonValue::Number("1".to_string()),
                    JsonValue::Text("x".to_string()),
                    JsonValue::Bool(true),
                ]),
            ),
            ("b".to_string(), JsonValue::Null),
            ("c".to_string(), JsonValue::Object(vec![("d".to_string(), JsonValue::Number("-2.5".to_string()))])),
        ])
    );
    assert_eq!(read_json(b"1e2"), Some(JsonValue::Number("100.0".to_string())));
    assert_eq!(read_json(b"{\"a\":1} x"), None);
}

#[test]
fn plain_settings_are_sanitized_and_checked() {
    let settings = Some(JsonValue::Object(vec![
        ("autoPlayNext".to_string(), JsonValue::Bool(true)),
        ("llmModel".to_string(), JsonValue::Text("m".to_string())),
    ]));
    let text = sanitize_settings(40, &settings).unwrap();
    assert_eq!(
        text,
        r#"{"categories":[],"categorySettings":{},"clips":[],"episodes":[],"notes":[],"persistenceGeneration":0,"podcasts":[],"settings":{"autoPlayNext":true,"llmModel":"m"},"subscriptions":[]}"#
    );
    assert_eq!(sanitize_settings(262145, &settings), Err(StorageError::CommandConflict));
    let nested = Some(JsonValue::Object(vec![("llmModel".to_string(), JsonValue::Array(vec![]))]));
    assert_eq!(sanitize_settings(10, &nested), Err(StorageError::CommandConflict));
    assert_eq!(sanitize_settings(2, &Some(JsonValue::Array(vec![]))), Err(StorageError::CommandConflict));
    assert_eq!(check_projection(&read_json(text.as_bytes())), Ok(()));
    assert_eq!(check_projection(&settings), Err(StorageError::CommandConflict));
}

#[test]
fn numbers_are_written_as_read() {
    let text = sanitize(br#"{"skipForwardSeconds":1e2,"skipBackwardSeconds":-15}"#).unwrap();
    assert!(text.contains(r#""settings":{"skipBackwardSeconds":-15,"skipForwardSeconds":100.0}"#));
    assert_eq!(validate(text.as_bytes()), Ok(()));
}

#[test]
fn strings_are_escaped_as_json_writes_them() {
    let text = sanitize(b"{\"llmModel\":\"a\\u0001\\n\\\\\\\"\\u00e9\"}").unwrap();
    assert!(text.contains("\"settings\":{\"llmModel\":\"a\\u0001\\n\\\\\\\"\u{e9}\"}"));
    let value: serde_json::Value = serde_json::from_str(&text).unwrap();
    assert_eq!(value["settings"]["llmModel"], "a\u{1}\n\\\"\u{e9}");
}
