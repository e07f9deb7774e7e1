//! Exact replacement, schemas, allowlists and sandbox limits.

use pactrail::json::Json;
use pactrail::tools::listing::ListFilesTool;
use pactrail::tools::process::safe_environment_names;
use pactrail::tools::process_backend::{validate_image_identity, OciSandboxProfile};
use pactrail::tools::registry::replace_checked_preserving_newlines;

#[test]
fn checked_replacement_accepts_lf_model_text_for_crlf_file() {
    let source = "before\r\nold line\r\nafter\r\n";
    let (result, count) = replace_checked_preserving_newlines(
        source,
        "before\nold line\nafter",
        "before\nnew line\nafter",
        1,
    )
    .unwrap_or_else(|actual| unreachable!("newline-equivalent replacement: {actual}"));
    assert_eq!(count, 1);
    assert_eq!(result, "before\r\nnew line\r\nafter\r\n");
}

#[test]
fn checked_replacement_does_not_relax_content_matching() {
    let source = "before\r\nold line\r\nafter\r\n";
    assert_eq!(
        replace_checked_preserving_newlines(source, "before\nwrong line\nafter", "replacement", 1),
        Err(0)
    );
}

#[test]
fn replacements_are_counted() {
    assert_eq!(
        replace_checked_preserving_newlines("a b a", "a", "c", 2),
        Ok(("c b c".to_owned(), 2))
    );
    assert_eq!(replace_checked_preserving_newlines("a b a", "a", "c", 1), Err(2));
    assert_eq!(
        replace_checked_preserving_newlines("x\ny\n", "x\r\ny", "z", 1),
        Ok(("z\n".to_owned(), 1))
    );
}

#[test]
fn list_schema_explains_its_virtual_directory_path() {
    let schema = ListFilesTool.descriptor().input_schema;
    let description = schema
        .get("properties")
        .and_then(|properties| properties.get("path"))
        .and_then(|path| path.get("description"))
        .and_then(Json::as_str)
        .unwrap_or_default();

    assert!(description.contains("Workspace-relative directory"));
    assert!(description.contains("never pass a file or absolute path"));
}

#[test]
fn inherited_environment_is_an_explicit_toolchain_only_allowlist() {
    let names = safe_environment_names();
    let contains = |name: &str| names.iter().any(|safe| safe == name);
    assert!(contains("LOCALAPPDATA"));
    assert!(contains("ProgramFiles(x86)"));
    assert!(contains("VCToolsInstallDir"));
    assert!(!contains("OPENROUTER_API_KEY"));
    assert!(!contains("CARGO_TARGET_DIR"));
    assert!(!contains("RUSTC_WRAPPER"));
}

#[test]
fn image_identity_must_be_a_complete_sha256_digest() {
    assert!(validate_image_identity(&format!("sha256:{}", "a".repeat(64))).is_ok());
    assert!(validate_image_identity("pactrail/sandbox:latest").is_err());
    assert!(validate_image_identity("sha256:abcd").is_err());
}

#[test]
fn profile_limits_fail_closed() {
    let profile = OciSandboxProfile {
        pids_limit: 0,
        ..OciSandboxProfile::default()
    };
    assert!(profile.validate().is_err());
    let profile = OciSandboxProfile {
        memory_bytes: u64::MAX,
        ..OciSandboxProfile::default()
    };
    assert!(profile.validate().is_err());
}
