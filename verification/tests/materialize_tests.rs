use tmp::materialize::derive_filename;
use tmp::materialize::plan;
use tmp::materialize::target_filename;
use tmp::materialize::FileAction;
use tmp::Config;
use tmp::Kind;
use tmp::Tmp;

fn sh_kind(chmod: Option<u32>) -> Kind {
    Kind {
        name: "test".to_string(),
        chmod,
        suffix: "sh".to_string(),
        content: "#!/bin/sh\n".to_string(),
    }
}

#[test]
fn test_octal_normalization_write_plan() {
    // a configured `chmod: 755` yields a tmp.sh created with mode 0o755
    let config = Config::from_raw(
        vec![Kind {
            name: "test".to_string(),
            chmod: Some(755),
            suffix: "sh".to_string(),
            content: "#!/bin/sh\n".to_string(),
        }],
        Vec::new(),
    );
    let tmp = Tmp::new(config);
    let outcome = tmp
        .plan_invocation("test", None, None, false, false, false)
        .unwrap();
    match outcome.action {
        FileAction::CreateNew { path, content, mode } => {
            assert_eq!(path, "tmp.sh");
            assert_eq!(content, "#!/bin/sh\n");
            assert_eq!(mode, Some(0o755));
        }
        _ => panic!("expected a create action"),
    }
}

#[test]
fn test_decimal_mode_preserved() {
    // `chmod: 509` is already the decimal spelling of 0o775 and stays
    let config = Config::from_raw(
        vec![Kind {
            name: "test".to_string(),
            chmod: Some(509),
            suffix: "sh".to_string(),
            content: "#!/bin/sh\n".to_string(),
        }],
        Vec::new(),
    );
    let tmp = Tmp::new(config);
    let outcome = tmp
        .plan_invocation("test", None, None, false, false, false)
        .unwrap();
    match outcome.action {
        FileAction::CreateNew { mode, .. } => assert_eq!(mode, Some(0o775)),
        _ => panic!("expected a create action"),
    }
}

#[test]
fn test_suffix_already_present() {
    // NAME = foo.sh with suffix sh stays foo.sh, not foo.sh.sh
    assert_eq!(derive_filename("foo.sh", "sh"), "foo.sh");
    assert_eq!(derive_filename("foo", "sh"), "foo.sh");
    assert_eq!(derive_filename("foo", ""), "foo");
}

#[test]
fn test_filename_derivation_idempotent() {
    let once = derive_filename("report", "txt");
    assert_eq!(derive_filename(&once, "txt"), once);
    let once = derive_filename("tmp", "");
    assert_eq!(derive_filename(&once, ""), once);
}

#[test]
fn test_target_filename_defaults() {
    assert_eq!(target_filename(None, "sh"), "tmp.sh");
    assert_eq!(target_filename(None, ""), "tmp");
    assert_eq!(target_filename(Some("notes"), "md"), "notes.md");
}

#[test]
fn test_write_skips_existing() {
    let kind = sh_kind(Some(0o755));
    let outcome = plan(&kind, None, None, false, false, true);
    assert!(matches!(outcome.action, FileAction::NoChange));
    assert!(outcome.printed.is_none());
}

#[test]
fn test_idempotent_delete_plan() {
    // deleting a missing target plans no filesystem change
    let kind = sh_kind(None);
    let outcome = plan(&kind, None, None, false, true, false);
    assert!(matches!(outcome.action, FileAction::NoChange));
    assert!(outcome.printed.is_none());
}

#[test]
fn test_delete_existing_target() {
    let kind = sh_kind(None);
    let outcome = plan(&kind, Some("foo"), None, false, true, true);
    match outcome.action {
        FileAction::RemoveExisting { path } => assert_eq!(path, "foo.sh"),
        _ => panic!("expected a remove action"),
    }
}

#[test]
fn test_nerf_touches_nothing() {
    let kind = sh_kind(Some(0o755));
    // nerf wins even when rm is requested and the target exists
    let outcome = plan(&kind, None, None, true, true, true);
    assert!(matches!(outcome.action, FileAction::NoChange));
    assert_eq!(outcome.printed, Some("#!/bin/sh\n".to_string()));
}

#[test]
fn test_override_mode_wins() {
    let kind = sh_kind(Some(0o755));
    let outcome = plan(&kind, None, Some(0o700), false, false, false);
    match outcome.action {
        FileAction::CreateNew { mode, .. } => assert_eq!(mode, Some(0o700)),
        _ => panic!("expected a create action"),
    }
}

#[test]
fn test_no_mode_when_unconfigured() {
    let kind = sh_kind(None);
    let outcome = plan(&kind, None, None, false, false, false);
    match outcome.action {
        FileAction::CreateNew { mode, .. } => assert_eq!(mode, None),
        _ => panic!("expected a create action"),
    }
}
