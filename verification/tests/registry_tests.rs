use tmp::Config;
use tmp::Kind;
use tmp::Tmp;
use tmp::TmpError;

#[test]
fn test_template_interpolation() {
    let kinds = vec![Kind {
        name: "test".to_string(),
        chmod: Some(0o755),
        suffix: "sh".to_string(),
        content: "{header}\necho {message}".to_string(),
    }];

    let templates = vec![
        ("header".to_string(), "#!/bin/bash".to_string()),
        ("message".to_string(), "Hello World".to_string()),
    ];

    let processed = Tmp::new(Config { kinds, templates });

    assert_eq!(processed.kinds.len(), 1);
    let kind = &processed.kinds[0];
    assert_eq!(kind.name, "test");
    assert_eq!(kind.content, "#!/bin/bash\necho Hello World");
}

#[test]
fn test_find_kind() {
    let kinds = vec![
        Kind {
            name: "first".to_string(),
            chmod: Some(0o644),
            suffix: "txt".to_string(),
            content: "content1".to_string(),
        },
        Kind {
            name: "second".to_string(),
            chmod: Some(0o755),
            suffix: "sh".to_string(),
            content: "content2".to_string(),
        },
    ];

    let config = Config { kinds: kinds.clone(), templates: Vec::new() };

    let tmp = Tmp::new(config);

    let found = tmp.find_kind("second").unwrap();
    assert_eq!(found.name, "second");
    assert_eq!(found.chmod, Some(0o755));

    assert!(tmp.find_kind("nonexistent").is_none());
}

#[test]
fn test_unresolved_placeholder_survives() {
    let kinds = vec![Kind {
        name: "k".to_string(),
        chmod: None,
        suffix: "txt".to_string(),
        content: "{missing} x".to_string(),
    }];

    let processed = Tmp::new(Config { kinds, templates: Vec::new() });
    assert_eq!(processed.kinds[0].content, "{missing} x");
}

#[test]
fn test_template_body_not_rescanned() {
    // "b" is expanded before "a", so the "{b}" that "a" introduces is not
    // itself expanded: the pass over each template is non-recursive.
    let kinds = vec![Kind {
        name: "k".to_string(),
        chmod: None,
        suffix: "txt".to_string(),
        content: "{a}".to_string(),
    }];
    let templates = vec![
        ("b".to_string(), "X".to_string()),
        ("a".to_string(), "{b}".to_string()),
    ];

    let processed = Tmp::new(Config { kinds, templates });
    assert_eq!(processed.kinds[0].content, "{b}");
}

#[test]
fn test_registry_preserves_kind_fields() {
    let kinds = vec![Kind {
        name: "keep".to_string(),
        chmod: Some(0o644),
        suffix: "md".to_string(),
        content: "# notes".to_string(),
    }];

    let processed = Tmp::new(Config { kinds, templates: Vec::new() });
    let kind = &processed.kinds[0];
    assert_eq!(kind.name, "keep");
    assert_eq!(kind.suffix, "md");
    assert_eq!(kind.chmod, Some(0o644));
    assert_eq!(kind.content, "# notes");
}

#[test]
fn test_list_kinds() {
    let kinds = vec![
        Kind {
            name: "alpha".to_string(),
            chmod: None,
            suffix: "txt".to_string(),
            content: "a".to_string(),
        },
        Kind {
            name: "beta".to_string(),
            chmod: None,
            suffix: "txt".to_string(),
            content: "b".to_string(),
        },
    ];

    let tmp = Tmp::new(Config { kinds, templates: Vec::new() });
    let names = tmp.list_kinds();
    assert_eq!(names, vec!["alpha".to_string(), "beta".to_string()]);
}

#[test]
fn test_create_file_unknown_kind() {
    let tmp = Tmp::new(Config { kinds: Vec::new(), templates: Vec::new() });

    let result = tmp.plan_invocation("unknown", Some("test.txt"), None, false, false, false);
    assert!(result.is_err());
    assert!(matches!(result.unwrap_err(), TmpError::UnknownKind { name } if name == "unknown"));
}

#[test]
fn test_first_declaration_wins() {
    let kinds = vec![
        Kind {
            name: "dup".to_string(),
            chmod: None,
            suffix: "one".to_string(),
            content: "first".to_string(),
        },
        Kind {
            name: "dup".to_string(),
            chmod: None,
            suffix: "two".to_string(),
            content: "second".to_string(),
        },
    ];

    let tmp = Tmp::new(Config { kinds, templates: Vec::new() });
    let found = tmp.find_kind("dup").unwrap();
    assert_eq!(found.suffix, "one");
    assert_eq!(found.content, "first");
}
