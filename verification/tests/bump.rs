use dracon_sync::bump::{extract_version_from_cargo, extract_version_from_json};

#[test]
fn test_extract_version_from_cargo_package() {
    let content = r#"[package]
name = "test"
version = "1.2.3""#;
    assert_eq!(
        extract_version_from_cargo(content),
        Some("1.2.3".to_string())
    );
}

#[test]
fn test_extract_version_from_cargo_with_trailing_semicolon() {
    let content = "[package]\nname = \"test\"\nversion = \"1.2.3\";\n";
    assert_eq!(
        extract_version_from_cargo(content),
        Some("1.2.3".to_string())
    );

    let content2 = "[workspace.package]\nversion = \"0.9.0\";\n";
    assert_eq!(
        extract_version_from_cargo(content2),
        Some("0.9.0".to_string())
    );
}

#[test]
fn test_extract_version_from_cargo_workspace_package() {
    let content = r#"[workspace.package]
version = "2.0.0"

[package]
name = "test""#;
    assert_eq!(
        extract_version_from_cargo(content),
        Some("2.0.0".to_string())
    );
}

#[test]
fn test_extract_version_from_cargo_no_version() {
    let content = r#"[package]
name = "test""#;
    assert_eq!(extract_version_from_cargo(content), None);
}

#[test]
fn test_extract_version_from_cargo_ignorefile() {
    let content = r#"[workspace]
members = ["crate1", "crate2"]

[package]
name = "test"
version = "1.0.0""#;
    assert_eq!(
        extract_version_from_cargo(content),
        Some("1.0.0".to_string())
    );
}

#[test]
fn test_extract_version_from_json() {
    let content = r#"{"version": "1.2.3"}"#;
    assert_eq!(
        extract_version_from_json(content, "version"),
        Some("1.2.3".to_string())
    );
}

#[test]
fn test_extract_version_from_json_not_found() {
    let content = r#"{"name": "test"}"#;
    assert_eq!(extract_version_from_json(content, "version"), None);
}

#[test]
fn test_extract_version_from_json_escaped_quotes() {
    let content = r#"{"version": "1.0.0\"hotfix"}"#;
    assert_eq!(
        extract_version_from_json(content, "version"),
        Some(r#"1.0.0"hotfix"#.to_string())
    );
}

#[test]
fn test_extract_version_from_json_multiple_keys() {
    let content = r#"{"name": "test", "version": "1.0.0", "other": "value"}"#;
    assert_eq!(
        extract_version_from_json(content, "version"),
        Some("1.0.0".to_string())
    );
}

#[test]
fn cargo_version_outside_package_section_is_ignored() {
    let content = "[dependencies]\nversion = \"9.9.9\"\n[package]\nversion = \"1.0.0\"\n";
    assert_eq!(extract_version_from_cargo(content), Some("1.0.0".to_string()));
}

#[test]
fn cargo_version_tolerates_crlf_and_spacing() {
    let content = "[ package ]\r\n  version   ==  \"3.1.4\"  \r\n";
    assert_eq!(extract_version_from_cargo(content), Some("3.1.4".to_string()));
}

#[test]
fn cargo_version_unquoted_is_none() {
    assert_eq!(extract_version_from_cargo("[package]\nversion = 1.0\n"), None);
}

#[test]
fn json_version_non_string_or_invalid_is_none() {
    assert_eq!(extract_version_from_json(r#"{"version": 3}"#, "version"), None);
    assert_eq!(extract_version_from_json("not json", "version"), None);
}
