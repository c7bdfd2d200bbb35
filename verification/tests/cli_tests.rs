use tmp::cli::expand_tilde;
use tmp::cli::parse_octal_mode;
use tmp::TmpError;

#[test]
fn test_expand_tilde() {
    assert_eq!(
        expand_tilde("~/.config/tmp/tmp.yml", "/home/user"),
        "/home/user/.config/tmp/tmp.yml"
    );
    assert_eq!(expand_tilde("/etc/tmp.yml", "/home/user"), "/etc/tmp.yml");
    assert_eq!(expand_tilde("", "/home/user"), "");
}

#[test]
fn test_parse_octal_mode_values() {
    assert_eq!(parse_octal_mode("755").unwrap(), 0o755);
    assert_eq!(parse_octal_mode("0").unwrap(), 0);
    assert_eq!(parse_octal_mode("+7").unwrap(), 7);
    assert_eq!(parse_octal_mode("777").unwrap(), 511);
}

#[test]
fn test_parse_octal_mode_rejects() {
    assert!(matches!(
        parse_octal_mode("8"),
        Err(TmpError::InvalidChmodArg { arg }) if arg == "8"
    ));
    assert!(matches!(
        parse_octal_mode(""),
        Err(TmpError::InvalidChmodArg { .. })
    ));
    assert!(matches!(
        parse_octal_mode("+"),
        Err(TmpError::InvalidChmodArg { .. })
    ));
    assert!(matches!(
        parse_octal_mode("7x5"),
        Err(TmpError::InvalidChmodArg { .. })
    ));
    // far past the range of a 32-bit mode value
    assert!(matches!(
        parse_octal_mode("77777777777777"),
        Err(TmpError::InvalidChmodArg { .. })
    ));
}
