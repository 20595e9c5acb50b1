use sf_pkgen::error::AppError;
use sf_pkgen::sf_client::{MetadataComponent, MetadataType, OrgInfo, SfClient};
use sf_pkgen::tui::app::{AppState, ComponentLoadState, FocusPane};
use sf_pkgen::tui::event::{KeyCode, KeyInput};
use sf_pkgen::tui::runner::{
    apply_load_result, cleanup_stale_loading, fetch_load, load_components, load_request,
    load_result_of, next_load, process_event, LoadResult,
};

fn sample_types() -> Vec<MetadataType> {
    vec![
        MetadataType {
            xml_name: "ApexClass".to_string(),
        },
        MetadataType {
            xml_name: "CustomObject".to_string(),
        },
    ]
}

fn make_key_event(code: KeyCode) -> Option<KeyInput> {
    Some(KeyInput::new(code))
}

struct Components {
    fail: bool,
}

impl SfClient for Components {
    fn check_sf_exists(&self) -> Result<(), AppError> {
        Ok(())
    }

    fn get_org_info(&self, _target_org: Option<&str>) -> Result<OrgInfo, AppError> {
        Ok(OrgInfo {
            api_version: "62.0".to_string(),
        })
    }

    fn list_metadata_types(
        &self,
        _target_org: Option<&str>,
        _api_version: &str,
    ) -> Result<Vec<MetadataType>, AppError> {
        Ok(sample_types())
    }

    fn list_metadata(
        &self,
        _metadata_type: &str,
        _target_org: Option<&str>,
        _api_version: &str,
    ) -> Result<Vec<MetadataComponent>, AppError> {
        if self.fail {
            return Err(AppError::SfCliError {
                message: "boom".to_string(),
            });
        }
        Ok(vec![
            MetadataComponent {
                full_name: "Zeta".to_string(),
            },
            MetadataComponent {
                full_name: "Alpha".to_string(),
            },
        ])
    }
}

// -- cleanup_stale_loading --

#[test]
fn cleanup_removes_loading_entries() {
    let mut app = AppState::new(sample_types());
    app.component_cache
        .insert("ApexClass".to_string(), ComponentLoadState::Loading);
    app.component_cache
        .insert("CustomObject".to_string(), ComponentLoadState::Loading);

    cleanup_stale_loading(
        &mut app,
        &["ApexClass".to_string(), "CustomObject".to_string()],
    );

    assert!(!app.component_cache.contains_key("ApexClass"));
    assert!(!app.component_cache.contains_key("CustomObject"));
}

#[test]
fn cleanup_preserves_loaded_and_error_entries() {
    let mut app = AppState::new(sample_types());
    app.set_components("ApexClass", Ok(vec!["Foo".to_string()]));
    app.set_components("CustomObject", Err("fail".to_string()));

    cleanup_stale_loading(
        &mut app,
        &["ApexClass".to_string(), "CustomObject".to_string()],
    );

    assert!(matches!(
        app.component_cache.get("ApexClass"),
        Some(ComponentLoadState::Loaded(_))
    ));
    assert!(matches!(
        app.component_cache.get("CustomObject"),
        Some(ComponentLoadState::Error(_))
    ));
}

#[test]
fn cleanup_then_request_re_fetches_loading_type() {
    let mut app = AppState::new(sample_types());
    app.component_cache
        .insert("ApexClass".to_string(), ComponentLoadState::Loading);
    cleanup_stale_loading(&mut app, &["ApexClass".to_string()]);
    assert!(!app.component_cache.contains_key("ApexClass"));

    let result = app.request_components_if_needed();
    assert_eq!(result, Some("ApexClass".to_string()));
    assert!(matches!(
        app.component_cache.get("ApexClass"),
        Some(ComponentLoadState::Loading)
    ));
}

// -- process_event --

#[test]
fn process_event_ignores_non_key_events() {
    let mut app = AppState::new(sample_types());
    let mut pending = Vec::new();
    let result = process_event(&mut app, None, &mut pending);
    assert!(result.is_none());
    assert!(pending.is_empty());
}

#[test]
fn process_event_records_load_components() {
    let mut app = AppState::new(sample_types());
    let mut pending = Vec::new();
    let event = make_key_event(KeyCode::Down);
    let result = process_event(&mut app, event, &mut pending);
    assert!(result.is_none());
    assert_eq!(pending, vec!["CustomObject".to_string()]);
}

#[test]
fn process_event_returns_some_on_cancel() {
    let mut app = AppState::new(sample_types());
    let mut pending = Vec::new();
    let event = make_key_event(KeyCode::Esc);
    let result = process_event(&mut app, event, &mut pending);
    assert!(result.is_some());
    assert!(matches!(result.unwrap(), Err(AppError::Cancelled)));
}

#[test]
fn process_event_returns_some_on_confirm() {
    let mut app = AppState::new(sample_types());
    app.set_components(
        "ApexClass",
        Ok(AppState::build_component_list(
            "ApexClass",
            vec!["Foo".to_string()],
        )),
    );
    app.focus = FocusPane::Right;
    app.right_cursor = 0; // "*"
    app.toggle_selection();

    let mut pending = Vec::new();
    let event = make_key_event(KeyCode::Enter);
    let result = process_event(&mut app, event, &mut pending);
    assert!(result.is_some());
    assert!(result.unwrap().is_ok());
}

// -- loading --

#[test]
fn load_result_of_builds_sorted_list_with_wildcard() {
    let components = vec![
        MetadataComponent {
            full_name: "Zeta".to_string(),
        },
        MetadataComponent {
            full_name: "Alpha".to_string(),
        },
    ];
    assert_eq!(
        load_result_of("ApexClass", Ok(components)).unwrap(),
        vec!["*", "Alpha", "Zeta"]
    );
}

#[test]
fn load_result_of_error_gives_message() {
    let err = AppError::SfCliError {
        message: "boom".to_string(),
    };
    assert_eq!(load_result_of("Report", Err(err)).unwrap_err(), "boom");
}

#[test]
fn fetch_load_keeps_the_type_and_sorts_the_list() {
    let client = Components { fail: false };
    let request = load_request("Report".to_string(), None, "62.0");
    let res = client.list_metadata(
        &request.metadata_type,
        request.target_org.as_deref(),
        &request.api_version,
    );
    let r = fetch_load(request, res);
    assert_eq!(r.metadata_type, "Report");
    assert_eq!(r.result.unwrap(), vec!["Alpha", "Zeta"]);
}

#[test]
fn load_components_stores_the_list_and_rebuilds_right_pane() {
    let client = Components { fail: false };
    let mut app = AppState::new(sample_types());
    load_components(&mut app, "ApexClass", client.list_metadata("ApexClass", None, "62.0"));
    assert_eq!(
        app.highlighted_components().unwrap(),
        &vec!["*".to_string(), "Alpha".to_string(), "Zeta".to_string()]
    );
    assert_eq!(app.right_filtered_indices, vec![0, 1, 2]);
}

#[test]
fn load_components_stores_the_error() {
    let client = Components { fail: true };
    let mut app = AppState::new(sample_types());
    load_components(&mut app, "ApexClass", client.list_metadata("ApexClass", None, "62.0"));
    match app.component_cache.get("ApexClass").unwrap() {
        ComponentLoadState::Error(m) => assert_eq!(m, "boom"),
        other => panic!("Expected Error, got: {other:?}"),
    }
}

#[test]
fn apply_load_result_sets_components() {
    let mut app = AppState::new(sample_types());
    apply_load_result(
        &mut app,
        LoadResult {
            metadata_type: "CustomObject".to_string(),
            result: Err("failed".to_string()),
        },
    );
    assert!(matches!(
        app.component_cache.get("CustomObject"),
        Some(ComponentLoadState::Error(_))
    ));
}

#[test]
fn next_load_asks_in_the_picker_org_at_its_version() {
    let mut app = AppState::new(sample_types());
    let request = next_load(&mut app, false, Some("my-sandbox"), "61.0").unwrap();
    assert_eq!(request.metadata_type, "ApexClass");
    assert_eq!(request.target_org.as_deref(), Some("my-sandbox"));
    assert_eq!(request.api_version, "61.0");
    assert!(matches!(
        app.component_cache.get("ApexClass"),
        Some(ComponentLoadState::Loading)
    ));
}

#[test]
fn next_load_while_loading_only_marks_the_type() {
    let mut app = AppState::new(sample_types());
    assert!(next_load(&mut app, true, None, "62.0").is_none());
    assert!(matches!(
        app.component_cache.get("ApexClass"),
        Some(ComponentLoadState::Loading)
    ));
}
