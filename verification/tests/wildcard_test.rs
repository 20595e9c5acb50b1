use sf_pkgen::wildcard::{supports_wildcard, FOLDER_BASED_TYPES};

#[test]
fn folder_based_types_do_not_support_wildcard() {
    assert!(!supports_wildcard("Dashboard"));
    assert!(!supports_wildcard("Document"));
    assert!(!supports_wildcard("EmailTemplate"));
    assert!(!supports_wildcard("Report"));
}

#[test]
fn common_types_support_wildcard() {
    assert!(supports_wildcard("ApexClass"));
    assert!(supports_wildcard("ApexTrigger"));
    assert!(supports_wildcard("CustomObject"));
    assert!(supports_wildcard("LightningComponentBundle"));
}

#[test]
fn unknown_type_supports_wildcard_by_default() {
    assert!(supports_wildcard("SomeNewMetadataType"));
}

#[test]
fn case_sensitive_matching() {
    // "dashboard" (lowercase) is not in the list
    assert!(supports_wildcard("dashboard"));
    assert!(supports_wildcard("DASHBOARD"));
}

#[test]
fn folder_based_list_is_exactly_four_types() {
    assert_eq!(
        FOLDER_BASED_TYPES,
        ["Dashboard", "Document", "EmailTemplate", "Report"]
    );
}

#[test]
fn empty_and_prefixed_names_support_wildcard() {
    assert!(supports_wildcard(""));
    assert!(supports_wildcard("Reports"));
    assert!(supports_wildcard("Repor"));
}
