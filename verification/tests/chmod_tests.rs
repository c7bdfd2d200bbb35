use tmp::interpret_chmod_value;
use tmp::Config;
use tmp::Kind;

#[test]
fn test_chmod_interpretation_edge_cases() {
    // Test that already-correct decimal values are preserved
    assert_eq!(interpret_chmod_value(509), 509); // Already correct decimal for 0o775
    assert_eq!(interpret_chmod_value(420), 420); // Already correct decimal for 0o644

    // Test common octal-as-decimal interpretations
    assert_eq!(interpret_chmod_value(755), 0o755); // 755 -> 0o755 (493 decimal)
    assert_eq!(interpret_chmod_value(775), 0o775); // 775 -> 0o775 (509 decimal)
    assert_eq!(interpret_chmod_value(644), 0o644); // 644 -> 0o644 (420 decimal)

    // Test invalid octal digits (should remain unchanged)
    assert_eq!(interpret_chmod_value(789), 789); // Contains 8,9 - not valid octal
}

#[test]
fn test_chmod_interpretation() {
    let raw = vec![Kind {
        name: "test-script".to_string(),
        chmod: Some(775),
        suffix: "sh".to_string(),
        content: "echo test\n".to_string(),
    }];

    let config = Config::from_raw(raw, vec![("header".to_string(), "Header".to_string())]);

    assert_eq!(config.kinds.len(), 1);

    let kind = &config.kinds[0];
    assert_eq!(kind.name, "test-script");
    // 775 in config should be interpreted as octal 775 = decimal 509
    assert_eq!(kind.chmod, Some(0o775));
    assert_eq!(kind.suffix, "sh");
}

#[test]
fn test_kind_normalization() {
    let raw = vec![
        Kind {
            name: "test-kind".to_string(),
            chmod: Some(755),
            suffix: "sh".to_string(),
            content: "echo test\n".to_string(),
        },
        Kind {
            name: "another-kind".to_string(),
            chmod: None,
            suffix: "py".to_string(),
            content: "print hello\n".to_string(),
        },
    ];

    let config = Config::from_raw(raw, vec![("header".to_string(), "Header".to_string())]);

    assert_eq!(config.kinds.len(), 2);
    assert_eq!(config.templates.len(), 1);

    let test_kind = config.kinds.iter().find(|k| k.name == "test-kind").unwrap();
    assert_eq!(test_kind.chmod, Some(0o755));
    assert_eq!(test_kind.suffix, "sh");
    assert!(test_kind.content.contains("echo test"));

    let another_kind = config.kinds.iter().find(|k| k.name == "another-kind").unwrap();
    assert_eq!(another_kind.chmod, None);
    assert_eq!(another_kind.suffix, "py");
    assert!(another_kind.content.contains("print hello"));
}

#[test]
fn test_chmod_reinterprets_large_octal_spelling() {
    // 7 five times: every digit octal and above the in-range cutoff
    assert_eq!(interpret_chmod_value(77777), 0o77777);
    // small values pass through unchanged
    assert_eq!(interpret_chmod_value(0), 0);
    assert_eq!(interpret_chmod_value(511), 511);
    assert_eq!(interpret_chmod_value(600), 0o600);
    assert_eq!(interpret_chmod_value(700), 0o700);
    assert_eq!(interpret_chmod_value(744), 0o744);
    assert_eq!(interpret_chmod_value(777), 0o777);
    assert_eq!(interpret_chmod_value(664), 0o664);
    // mixed digits above the cutoff with a digit past 7 stay as written
    assert_eq!(interpret_chmod_value(1999), 1999);
}

#[test]
fn test_chmod_normalization_idempotent_on_modes() {
    // normalizing an already-normalized in-range mode changes nothing
    let once = interpret_chmod_value(755);
    assert_eq!(interpret_chmod_value(once), once);
    let once = interpret_chmod_value(509);
    assert_eq!(interpret_chmod_value(once), once);
    let once = interpret_chmod_value(789);
    assert_eq!(interpret_chmod_value(once), once);
}
