use std::path::Path;

use sf_pkgen::error::AppError;
use sf_pkgen::output::{output_parent, output_path_from_input, validate_output_path};

/// Asks the file system about `path` as the program does, then validates.
fn validate(path: &Path) -> Result<(), AppError> {
    let shown = path.to_string_lossy().into_owned();
    let parent_text = path.parent().map(|p| p.to_string_lossy().into_owned());
    let parent = output_parent(parent_text.as_deref());
    validate_output_path(
        &shown,
        path.is_dir(),
        path.try_exists().unwrap_or(false),
        &parent,
        Path::new(&parent).is_dir(),
    )
}

fn output_path_message(r: Result<(), AppError>) -> String {
    match r.unwrap_err() {
        AppError::OutputPathError { message } => message,
        other => panic!("Expected OutputPathError, got: {other:?}"),
    }
}

#[test]
fn validate_rejects_directory_path() {
    let dir = tempfile::TempDir::new().unwrap();
    let message = output_path_message(validate(dir.path()));
    assert!(message.contains("is a directory"), "got: {message}");
}

#[test]
fn validate_rejects_existing_file() {
    let dir = tempfile::TempDir::new().unwrap();
    let file = tempfile::NamedTempFile::new_in(dir.path()).unwrap();
    let message = output_path_message(validate(file.path()));
    assert!(message.contains("already exists"), "got: {message}");
}

#[test]
fn validate_rejects_nonexistent_parent() {
    let dir = tempfile::TempDir::new().unwrap();
    let path = dir.path().join("nonexistent").join("package.xml");
    let message = output_path_message(validate(&path));
    assert!(message.contains("does not exist"), "got: {message}");
}

#[test]
fn validate_accepts_valid_path() {
    let dir = tempfile::TempDir::new().unwrap();
    let path = dir.path().join("package.xml");
    assert!(validate(&path).is_ok());
}

#[test]
fn validate_relative_path_without_parent() {
    // "package.xml" has parent Some(""), which should resolve to "."
    let parent = Path::new("package.xml").parent().unwrap();
    assert!(
        parent.as_os_str().is_empty(),
        "parent of bare filename should be empty"
    );
    assert_eq!(output_parent(Some("")), ".");
    let path = Path::new("__test_sf_pkgen_nonexistent_file__.xml");
    assert!(!path.exists(), "test precondition: file must not exist");
    assert!(validate(path).is_ok());
}

#[test]
fn validate_rejects_parent_that_is_a_file() {
    let dir = tempfile::TempDir::new().unwrap();
    let file = tempfile::NamedTempFile::new_in(dir.path()).unwrap();
    let path = file.path().join("package.xml");
    let message = output_path_message(validate(&path));
    assert!(message.contains("does not exist"), "got: {message}");
}

#[test]
fn validate_messages_are_exact_and_checked_in_order() {
    assert_eq!(
        output_path_message(validate_output_path("out", true, true, "x", false)),
        "out is a directory."
    );
    assert_eq!(
        output_path_message(validate_output_path("out.xml", false, true, "x", false)),
        "out.xml already exists."
    );
    assert_eq!(
        output_path_message(validate_output_path("d/out.xml", false, false, "d", false)),
        "Directory d does not exist."
    );
    assert!(validate_output_path("d/out.xml", false, false, "d", true).is_ok());
}

#[test]
fn output_parent_defaults_to_current_directory() {
    assert_eq!(output_parent(None), ".");
    assert_eq!(output_parent(Some("")), ".");
    assert_eq!(output_parent(Some("manifest")), "manifest");
}

#[test]
fn typed_output_path_is_trimmed() {
    assert_eq!(
        output_path_from_input("  manifest/package.xml \n").unwrap(),
        "manifest/package.xml"
    );
}

#[test]
fn blank_typed_output_path_is_rejected() {
    match output_path_from_input(" \n").unwrap_err() {
        AppError::OutputPathError { message } => {
            assert_eq!(message, "Please enter an output file path.")
        }
        other => panic!("Expected OutputPathError, got: {other:?}"),
    }
}
