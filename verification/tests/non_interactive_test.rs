use std::collections::BTreeMap;

use sf_pkgen::error::AppError;
use sf_pkgen::non_interactive::{add_components, add_wildcards, normalize_types, selection_targets};
use sf_pkgen::sf_client::{MetadataComponent, MetadataType, OrgInfo, SfClient};
use sf_pkgen::strmap::SortedMap;

/// Non-interactive resolution as a run of `generate` performs it: the targets, then
/// `*` for wildcard types and the listed components of each folder-based one, in
/// order, stopping at the first failed listing.
fn resolve(
    client: &dyn SfClient,
    metadata_types: &[MetadataType],
    all: bool,
    types: Option<&[String]>,
    target_org: Option<&str>,
    api_version: &str,
) -> Result<SortedMap<Vec<String>>, AppError> {
    let targets = selection_targets(metadata_types, all, types)?;
    let mut selections = SortedMap::new();
    let mut from = 0;
    loop {
        let j = add_wildcards(&mut selections, &targets, from);
        if j == targets.len() {
            break;
        }
        let components = client.list_metadata(&targets[j], target_org, api_version)?;
        add_components(&mut selections, targets[j].clone(), components);
        from = j + 1;
    }
    if selections.is_empty() {
        return Err(AppError::NoComponentsSelected);
    }
    Ok(selections)
}

struct MockNonInteractiveSfClient {
    components: BTreeMap<String, Vec<MetadataComponent>>,
    fail_list_metadata: bool,
}

impl SfClient for MockNonInteractiveSfClient {
    fn check_sf_exists(&self) -> Result<(), AppError> {
        Ok(())
    }

    fn get_org_info(&self, _target_org: Option<&str>) -> Result<OrgInfo, AppError> {
        Ok(OrgInfo {
            api_version: "62.0".to_string(),
        })
    }

    fn list_metadata_types(
        &self,
        _target_org: Option<&str>,
        _api_version: &str,
    ) -> Result<Vec<MetadataType>, AppError> {
        Ok(vec![])
    }

    fn list_metadata(
        &self,
        metadata_type: &str,
        _target_org: Option<&str>,
        _api_version: &str,
    ) -> Result<Vec<MetadataComponent>, AppError> {
        if self.fail_list_metadata {
            return Err(AppError::SfCliError {
                message: "list_metadata failed".to_string(),
            });
        }
        Ok(self
            .components
            .get(metadata_type)
            .cloned()
            .unwrap_or_default())
    }
}

fn sample_types() -> Vec<MetadataType> {
    vec![
        MetadataType {
            xml_name: "ApexClass".to_string(),
        },
        MetadataType {
            xml_name: "Report".to_string(),
        },
        MetadataType {
            xml_name: "CustomObject".to_string(),
        },
    ]
}

#[test]
fn unknown_type_returns_validation_error() {
    let client = MockNonInteractiveSfClient {
        components: BTreeMap::new(),
        fail_list_metadata: false,
    };
    let types = vec!["NonExistent".to_string()];
    let err = resolve(&client, &sample_types(), false, Some(&types), None, "62.0").unwrap_err();
    match err {
        AppError::ValidationError { message } => {
            assert!(message.contains("Unknown metadata type: NonExistent"));
        }
        other => panic!("Expected ValidationError, got: {other:?}"),
    }
}

#[test]
fn empty_token_returns_validation_error() {
    let client = MockNonInteractiveSfClient {
        components: BTreeMap::new(),
        fail_list_metadata: false,
    };
    let types = vec!["ApexClass".to_string(), "".to_string()];
    let err = resolve(&client, &sample_types(), false, Some(&types), None, "62.0").unwrap_err();
    match err {
        AppError::ValidationError { message } => {
            assert!(message.contains("empty entries"));
        }
        other => panic!("Expected ValidationError, got: {other:?}"),
    }
}

#[test]
fn dedup_normalizes_duplicate_types() {
    let mut components = BTreeMap::new();
    components.insert(
        "Report".to_string(),
        vec![MetadataComponent {
            full_name: "SalesReport".to_string(),
        }],
    );
    let client = MockNonInteractiveSfClient {
        components,
        fail_list_metadata: false,
    };
    let types = vec![
        "ApexClass".to_string(),
        "Report".to_string(),
        "ApexClass".to_string(), // duplicate
    ];
    let result = resolve(&client, &sample_types(), false, Some(&types), None, "62.0").unwrap();
    // ApexClass should appear once with wildcard, Report once with components
    assert_eq!(result.len(), 2);
    assert_eq!(*result.get("ApexClass").unwrap(), vec!["*"]);
    assert_eq!(*result.get("Report").unwrap(), vec!["SalesReport"]);
}

#[test]
fn wildcard_type_gets_star() {
    let client = MockNonInteractiveSfClient {
        components: BTreeMap::new(),
        fail_list_metadata: false,
    };
    let types = vec!["ApexClass".to_string()];
    let result = resolve(&client, &sample_types(), false, Some(&types), None, "62.0").unwrap();
    assert_eq!(*result.get("ApexClass").unwrap(), vec!["*"]);
}

#[test]
fn folder_based_type_calls_list_metadata() {
    let mut components = BTreeMap::new();
    components.insert(
        "Report".to_string(),
        vec![
            MetadataComponent {
                full_name: "SalesReport".to_string(),
            },
            MetadataComponent {
                full_name: "MarketingReport".to_string(),
            },
        ],
    );
    let client = MockNonInteractiveSfClient {
        components,
        fail_list_metadata: false,
    };
    let types = vec!["Report".to_string()];
    let result = resolve(&client, &sample_types(), false, Some(&types), None, "62.0").unwrap();
    let report = result.get("Report").unwrap();
    assert_eq!(report.len(), 2);
    assert!(report.contains(&"SalesReport".to_string()));
    assert!(report.contains(&"MarketingReport".to_string()));
}

#[test]
fn all_types_zero_components_returns_no_components_selected() {
    // All types are folder-based with no components
    let folder_types = vec![
        MetadataType {
            xml_name: "Report".to_string(),
        },
        MetadataType {
            xml_name: "Dashboard".to_string(),
        },
    ];
    let client = MockNonInteractiveSfClient {
        components: BTreeMap::new(), // no components for any type
        fail_list_metadata: false,
    };
    let err = resolve(&client, &folder_types, true, None, None, "62.0").unwrap_err();
    assert!(matches!(err, AppError::NoComponentsSelected));
}

#[test]
fn list_metadata_failure_returns_error() {
    let client = MockNonInteractiveSfClient {
        components: BTreeMap::new(),
        fail_list_metadata: true,
    };
    let types = vec!["Report".to_string()]; // folder-based, will call list_metadata
    let err = resolve(&client, &sample_types(), false, Some(&types), None, "62.0").unwrap_err();
    assert!(matches!(err, AppError::SfCliError { .. }));
}

#[test]
fn all_selects_every_type_with_wildcard_or_components() {
    let mut components = BTreeMap::new();
    components.insert(
        "Report".to_string(),
        vec![MetadataComponent {
            full_name: "SalesReport".to_string(),
        }],
    );
    let client = MockNonInteractiveSfClient {
        components,
        fail_list_metadata: false,
    };
    let result = resolve(&client, &sample_types(), true, None, None, "62.0").unwrap();
    assert_eq!(result.len(), 3);
    assert_eq!(*result.get("CustomObject").unwrap(), vec!["*"]);
    assert_eq!(*result.get("Report").unwrap(), vec!["SalesReport"]);
}

#[test]
fn normalize_types_trims_and_keeps_first_occurrence() {
    let given = vec![
        " Report ".to_string(),
        "ApexClass".to_string(),
        "Report".to_string(),
    ];
    assert_eq!(
        normalize_types(&given).unwrap(),
        vec!["Report".to_string(), "ApexClass".to_string()]
    );
}

#[test]
fn normalize_types_rejects_blank_entry_with_exact_message() {
    let given = vec!["ApexClass".to_string(), "   ".to_string()];
    match normalize_types(&given).unwrap_err() {
        AppError::ValidationError { message } => assert_eq!(
            message,
            "Metadata type list for --types must not contain empty entries."
        ),
        other => panic!("Expected ValidationError, got: {other:?}"),
    }
}

#[test]
fn unknown_type_message_is_exact() {
    let client = MockNonInteractiveSfClient {
        components: BTreeMap::new(),
        fail_list_metadata: false,
    };
    let types = vec!["ApexClass".to_string(), "Bogus".to_string()];
    match resolve(&client, &sample_types(), false, Some(&types), None, "62.0").unwrap_err() {
        AppError::ValidationError { message } => {
            assert_eq!(message, "Unknown metadata type: Bogus.")
        }
        other => panic!("Expected ValidationError, got: {other:?}"),
    }
}
