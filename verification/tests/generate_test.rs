use std::collections::HashMap;
use std::path::Path;

use sf_pkgen::cli::{validate_args, GenerateArgs};
use sf_pkgen::error::AppError;
use sf_pkgen::generate::{Event, Generate, Request};
use sf_pkgen::sf_client::{MetadataComponent, MetadataType, OrgInfo, SfClient};
use sf_pkgen::strmap::SortedMap;

/// Configurable mock for SfClient. Each field controls the behavior of the
/// corresponding trait method.
struct MockSfClient {
    /// If false, check_sf_exists returns SfCliNotFound
    check_sf_ok: bool,
    /// If Some, get_org_info returns Ok with this version; if None, returns ApiVersionError
    api_version: Option<String>,
    /// If Some, list_metadata_types returns Ok with these types; if None, returns SfCliError
    metadata_types: Option<Vec<MetadataType>>,
    /// If Some, list_metadata returns components from this map; if None, returns SfCliError
    components: Option<HashMap<String, Vec<MetadataComponent>>>,
}

impl SfClient for MockSfClient {
    fn check_sf_exists(&self) -> Result<(), AppError> {
        if self.check_sf_ok {
            Ok(())
        } else {
            Err(AppError::SfCliNotFound)
        }
    }

    fn get_org_info(&self, _target_org: Option<&str>) -> Result<OrgInfo, AppError> {
        match &self.api_version {
            Some(v) => Ok(OrgInfo {
                api_version: v.clone(),
            }),
            None => Err(AppError::ApiVersionError {
                message: "No default org".to_string(),
            }),
        }
    }

    fn list_metadata_types(
        &self,
        _target_org: Option<&str>,
        _api_version: &str,
    ) -> Result<Vec<MetadataType>, AppError> {
        match &self.metadata_types {
            Some(types) => Ok(types.clone()),
            None => Err(AppError::SfCliError {
                message: "command failed".to_string(),
            }),
        }
    }

    fn list_metadata(
        &self,
        metadata_type: &str,
        _target_org: Option<&str>,
        _api_version: &str,
    ) -> Result<Vec<MetadataComponent>, AppError> {
        match &self.components {
            Some(map) => Ok(map.get(metadata_type).cloned().unwrap_or_default()),
            None => Err(AppError::SfCliError {
                message: "command failed".to_string(),
            }),
        }
    }
}

/// The event that answers a request for the `sf` CLI, and a line recording the call.
fn call_sf(client: &dyn SfClient, request: &Request) -> Option<(Event, String)> {
    match request {
        Request::CheckSf => Some((Event::SfChecked(client.check_sf_exists()), "check_sf_exists".to_string())),
        Request::OrgInfo(org) => Some((
            Event::OrgInfo(client.get_org_info(org.as_deref())),
            format!("get_org_info {org:?}"),
        )),
        Request::ListTypes(org, version) => Some((
            Event::TypesListed(client.list_metadata_types(org.as_deref(), version)),
            format!("list_metadata_types {org:?} {version}"),
        )),
        Request::ListMetadata(name, org, version) => Some((
            Event::Components(client.list_metadata(name, org.as_deref(), version)),
            format!("list_metadata {name} {org:?} {version}"),
        )),
        _ => None,
    }
}

/// What a run did besides its outcome.
struct Trace {
    calls: Vec<String>,
    said: Vec<String>,
    initial: Option<SortedMap<Vec<String>>>,
    written: Option<(String, String)>,
}

/// Runs `generate` the way the program does, with files given in memory, no
/// terminal for the picker, and the manifest kept instead of written.
fn run_with(
    client: &dyn SfClient,
    args: &GenerateArgs,
    files: &[(&str, &str)],
) -> (Result<(), AppError>, Trace) {
    let mut run = Generate::new(args.clone());
    let mut trace = Trace {
        calls: Vec::new(),
        said: Vec::new(),
        initial: None,
        written: None,
    };
    let mut event = Event::Begin;
    loop {
        assert!(run.accepts(&event));
        let request = run.step(event);
        if let Some((answer, call)) = call_sf(client, &request) {
            trace.calls.push(call);
            event = answer;
            continue;
        }
        event = match request {
            Request::CheckInterrupt => Event::Interrupt(false),
            Request::Say(line) => {
                trace.said.push(line);
                Event::Said
            }
            Request::ReadInherit(path) => Event::InheritText(
                match files.iter().find(|(p, _)| *p == path.as_str()) {
                    Some((_, content)) => Ok(content.to_string()),
                    None => Err(AppError::IoError(std::io::Error::new(
                        std::io::ErrorKind::NotFound,
                        "No such file or directory",
                    ))),
                },
            ),
            Request::Pick(_, initial) => {
                trace.initial = Some(initial);
                Event::Picked(Err(AppError::IoError(std::io::Error::new(
                    std::io::ErrorKind::NotFound,
                    "no terminal",
                ))))
            }
            Request::PromptPath => Event::PathLine(Err(AppError::IoError(std::io::Error::new(
                std::io::ErrorKind::UnexpectedEof,
                "no input",
            )))),
            Request::ProbePath(p) => {
                let path = Path::new(&p);
                Event::PathFacts {
                    is_dir: path.is_dir(),
                    exists: path.try_exists().unwrap_or(false),
                    parent: path.parent().map(|q| q.to_string_lossy().into_owned()),
                }
            }
            Request::ProbeParent(d) => Event::ParentFacts {
                is_dir: Path::new(&d).is_dir(),
            },
            Request::Write(path, content) => {
                trace.written = Some((path, content));
                Event::Written(Ok(()))
            }
            Request::Finish(r) => return (r, trace),
            _ => unreachable!("the sf CLI requests are answered above"),
        };
    }
}

fn run_generate(client: &dyn SfClient, args: &GenerateArgs) -> Result<(), AppError> {
    run_with(client, args, &[]).0
}

fn make_args(api_version: Option<&str>, output_file: Option<&str>) -> GenerateArgs {
    GenerateArgs {
        target_org: None,
        api_version: api_version.map(String::from),
        output_file: output_file.map(String::from),
        inherit: None,
        non_interactive: false,
        all: false,
        types: None,
    }
}

fn make_args_with_inherit(api_version: Option<&str>) -> GenerateArgs {
    GenerateArgs {
        inherit: Some("inherit/package.xml".to_string()),
        ..make_args(api_version, Some("out.xml"))
    }
}

fn one_type(name: &str) -> Vec<MetadataType> {
    vec![MetadataType {
        xml_name: name.to_string(),
    }]
}

// ---------------------------------------------------------------------------
// Flow up to the picker
// ---------------------------------------------------------------------------

#[test]
fn generate_test_check_sf_exists_failure_returns_sf_cli_not_found() {
    let client = MockSfClient {
        check_sf_ok: false,
        api_version: Some("62.0".to_string()),
        metadata_types: Some(vec![]),
        components: None,
    };
    let args = make_args(Some("62.0"), Some("out.xml"));
    let err = run_generate(&client, &args).unwrap_err();
    assert!(matches!(err, AppError::SfCliNotFound));
}

#[test]
fn main_check_sf_exists_failure_returns_sf_cli_not_found() {
    let client = MockSfClient {
        check_sf_ok: false,
        api_version: Some("62.0".to_string()),
        metadata_types: Some(vec![]),
        components: None,
    };
    let args = make_args(Some("62.0"), Some("out.xml"));
    let err = run_generate(&client, &args).unwrap_err();
    assert!(matches!(err, AppError::SfCliNotFound));
}

#[test]
fn generate_test_get_org_info_failure_returns_api_version_error() {
    let client = MockSfClient {
        check_sf_ok: true,
        api_version: None,
        metadata_types: Some(vec![]),
        components: None,
    };
    let args = make_args(None, Some("out.xml"));
    let err = run_generate(&client, &args).unwrap_err();
    assert!(matches!(err, AppError::ApiVersionError { .. }));
}

#[test]
fn main_get_org_info_failure_returns_api_version_error() {
    let client = MockSfClient {
        check_sf_ok: true,
        api_version: None,
        metadata_types: Some(vec![]),
        components: None,
    };
    let args = make_args(None, Some("out.xml"));
    let err = run_generate(&client, &args).unwrap_err();
    assert!(matches!(err, AppError::ApiVersionError { .. }));
}

#[test]
fn generate_test_api_version_specified_skips_get_org_info() {
    let client = MockSfClient {
        check_sf_ok: true,
        api_version: None, // get_org_info would fail if called
        metadata_types: Some(one_type("ApexClass")),
        components: None,
    };
    let args = make_args(Some("62.0"), Some("out.xml"));
    let result = run_generate(&client, &args);
    if let Err(AppError::ApiVersionError { .. }) = result {
        panic!("get_org_info should not have been called when api_version is specified")
    }
}

#[test]
fn main_api_version_specified_skips_get_org_info() {
    let client = MockSfClient {
        check_sf_ok: true,
        api_version: None,
        metadata_types: Some(vec![]),
        components: None,
    };
    let args = make_args(Some("62.0"), Some("out.xml"));
    let err = run_generate(&client, &args).unwrap_err();
    assert!(
        matches!(err, AppError::NoMetadataTypes),
        "expected NoMetadataTypes but got: {err:?}"
    );
}

#[test]
fn generate_test_list_metadata_types_failure_returns_sf_cli_error() {
    let client = MockSfClient {
        check_sf_ok: true,
        api_version: Some("62.0".to_string()),
        metadata_types: None,
        components: None,
    };
    let args = make_args(Some("62.0"), Some("out.xml"));
    let err = run_generate(&client, &args).unwrap_err();
    assert!(matches!(err, AppError::SfCliError { .. }));
}

#[test]
fn main_list_metadata_types_failure_returns_sf_cli_error() {
    let client = MockSfClient {
        check_sf_ok: true,
        api_version: Some("62.0".to_string()),
        metadata_types: None,
        components: None,
    };
    let args = make_args(Some("62.0"), Some("out.xml"));
    let err = run_generate(&client, &args).unwrap_err();
    assert!(matches!(err, AppError::SfCliError { .. }));
}

#[test]
fn generate_test_empty_metadata_types_returns_no_metadata_types() {
    let client = MockSfClient {
        check_sf_ok: true,
        api_version: Some("62.0".to_string()),
        metadata_types: Some(vec![]),
        components: None,
    };
    let args = make_args(Some("62.0"), Some("out.xml"));
    let err = run_generate(&client, &args).unwrap_err();
    assert!(matches!(err, AppError::NoMetadataTypes));
}

#[test]
fn main_empty_metadata_types_returns_no_metadata_types() {
    let client = MockSfClient {
        check_sf_ok: true,
        api_version: Some("62.0".to_string()),
        metadata_types: Some(vec![]),
        components: None,
    };
    let args = make_args(Some("62.0"), Some("out.xml"));
    let err = run_generate(&client, &args).unwrap_err();
    assert!(matches!(err, AppError::NoMetadataTypes));
}

// ---------------------------------------------------------------------------
// API version priority: --api-version > inherited > org fallback
// ---------------------------------------------------------------------------

#[test]
fn inherit_without_api_version_uses_inherited_version() {
    let xml = "<?xml version=\"1.0\" encoding=\"UTF-8\"?>\n\
               <Package xmlns=\"http://soap.sforce.com/2006/04/metadata\">\n\
               <types><members>*</members><name>ApexClass</name></types>\n\
               <version>60.0</version>\n\
               </Package>\n";
    let args = make_args_with_inherit(None);
    let client = MockSfClient {
        check_sf_ok: true,
        api_version: None,
        metadata_types: Some(vec![]),
        components: None,
    };
    let err = run_with(&client, &args, &[("inherit/package.xml", xml)])
        .0
        .unwrap_err();
    assert!(
        matches!(err, AppError::NoMetadataTypes),
        "Expected NoMetadataTypes (inherited version used); got: {err:?}"
    );
}

#[test]
fn explicit_api_version_takes_priority_over_inherited_version() {
    let xml = "<?xml version=\"1.0\" encoding=\"UTF-8\"?>\n\
               <Package xmlns=\"http://soap.sforce.com/2006/04/metadata\">\n\
               <version>60.0</version>\n\
               </Package>\n";
    let args = make_args_with_inherit(Some("62.0"));
    let client = MockSfClient {
        check_sf_ok: true,
        api_version: None,
        metadata_types: Some(vec![]),
        components: None,
    };
    let err = run_with(&client, &args, &[("inherit/package.xml", xml)])
        .0
        .unwrap_err();
    assert!(
        matches!(err, AppError::NoMetadataTypes),
        "Expected NoMetadataTypes (explicit api_version used); got: {err:?}"
    );
}

#[test]
fn inherit_with_no_version_falls_back_to_org_info() {
    let xml = "<?xml version=\"1.0\" encoding=\"UTF-8\"?>\n\
               <Package xmlns=\"http://soap.sforce.com/2006/04/metadata\">\n\
               </Package>\n";
    let args = make_args_with_inherit(None);
    let client = MockSfClient {
        check_sf_ok: true,
        api_version: Some("62.0".to_string()),
        metadata_types: Some(vec![]),
        components: None,
    };
    let (result, trace) = run_with(&client, &args, &[("inherit/package.xml", xml)]);
    let err = result.unwrap_err();
    assert!(
        matches!(err, AppError::NoMetadataTypes),
        "Expected NoMetadataTypes (org fallback version used); got: {err:?}"
    );
    assert_eq!(
        trace.said,
        vec![
            "Fetching API version...".to_string(),
            "Fetching metadata types...".to_string()
        ]
    );
}

#[test]
fn inherit_not_specified_behavior_unchanged() {
    let client = MockSfClient {
        check_sf_ok: true,
        api_version: None,
        metadata_types: Some(vec![]),
        components: None,
    };
    let args = make_args(None, Some("out.xml"));
    let err = run_generate(&client, &args).unwrap_err();
    assert!(
        matches!(err, AppError::ApiVersionError { .. }),
        "Expected ApiVersionError for missing org info without --inherit; got: {err:?}"
    );
}

#[test]
fn inherit_parse_failure_returns_error_before_api_version_check() {
    let args = GenerateArgs {
        inherit: Some("/nonexistent/missing.xml".to_string()),
        ..make_args(None, Some("out.xml"))
    };
    let client = MockSfClient {
        check_sf_ok: true,
        api_version: Some("62.0".to_string()),
        metadata_types: Some(vec![]),
        components: None,
    };
    let err = run_generate(&client, &args).unwrap_err();
    assert!(
        matches!(err, AppError::IoError(_)),
        "Expected IoError for missing --inherit file; got: {err:?}"
    );
}

#[test]
fn inherit_individual_members_triggers_list_metadata_and_validates() {
    let xml = "<?xml version=\"1.0\" encoding=\"UTF-8\"?>\n\
               <Package xmlns=\"http://soap.sforce.com/2006/04/metadata\">\n\
               <types><members>AccountController</members><name>ApexClass</name></types>\n\
               <version>62.0</version>\n\
               </Package>\n";
    let args = make_args_with_inherit(Some("62.0"));
    let mut components: HashMap<String, Vec<MetadataComponent>> = HashMap::new();
    components.insert(
        "ApexClass".to_string(),
        vec![MetadataComponent {
            full_name: "AccountController".to_string(),
        }],
    );
    let client = MockSfClient {
        check_sf_ok: true,
        api_version: Some("62.0".to_string()),
        metadata_types: Some(one_type("ApexClass")),
        components: Some(components),
    };
    let (_, trace) = run_with(&client, &args, &[("inherit/package.xml", xml)]);
    let selections = trace.initial.expect("the picker should have been started");
    assert!(
        selections
            .get("ApexClass")
            .is_some_and(|members| members.contains(&"AccountController".to_string())),
        "Expected inherited member to be preselected after validation"
    );
    assert!(trace
        .said
        .contains(&"Fetching components for inherited types...".to_string()));
}

#[test]
fn inherit_folder_based_type_wildcard_is_skipped_with_warning() {
    let xml = "<?xml version=\"1.0\" encoding=\"UTF-8\"?>\n\
               <Package xmlns=\"http://soap.sforce.com/2006/04/metadata\">\n\
               <types><members>*</members><name>Report</name></types>\n\
               <version>62.0</version>\n\
               </Package>\n";
    let args = make_args_with_inherit(Some("62.0"));
    let client = MockSfClient {
        check_sf_ok: true,
        api_version: Some("62.0".to_string()),
        metadata_types: Some(one_type("Report")),
        components: Some(HashMap::new()),
    };
    let (_, trace) = run_with(&client, &args, &[("inherit/package.xml", xml)]);
    let selections = trace.initial.expect("the picker should have been started");
    assert!(
        !selections.contains_key("Report"),
        "Expected folder-based wildcard selection to be skipped"
    );
    assert!(trace.said.contains(
        &"Warning: Skipping wildcard '*' for 'Report': folder-based types do not support wildcard selection."
            .to_string()
    ));
}

#[test]
fn inherit_individual_members_are_skipped_when_component_fetch_fails() {
    let xml = "<?xml version=\"1.0\" encoding=\"UTF-8\"?>\n\
               <Package xmlns=\"http://soap.sforce.com/2006/04/metadata\">\n\
               <types><members>AccountController</members><name>ApexClass</name></types>\n\
               <version>62.0</version>\n\
               </Package>\n";
    let args = make_args_with_inherit(Some("62.0"));
    let client = MockSfClient {
        check_sf_ok: true,
        api_version: Some("62.0".to_string()),
        metadata_types: Some(one_type("ApexClass")),
        components: None,
    };
    let (_, trace) = run_with(&client, &args, &[("inherit/package.xml", xml)]);
    let selections = trace.initial.expect("the picker should have been started");
    assert!(
        !selections.contains_key("ApexClass"),
        "Expected unresolved inherited members to be skipped"
    );
}

// ---------------------------------------------------------------------------
// Non-interactive mode
// ---------------------------------------------------------------------------

fn sample_metadata_types() -> Vec<MetadataType> {
    vec![
        MetadataType {
            xml_name: "ApexClass".to_string(),
        },
        MetadataType {
            xml_name: "Report".to_string(),
        },
        MetadataType {
            xml_name: "CustomObject".to_string(),
        },
    ]
}

fn make_non_interactive_client() -> MockSfClient {
    let mut components = HashMap::new();
    components.insert(
        "Report".to_string(),
        vec![MetadataComponent {
            full_name: "SalesReport".to_string(),
        }],
    );
    MockSfClient {
        check_sf_ok: true,
        api_version: Some("62.0".to_string()),
        metadata_types: Some(sample_metadata_types()),
        components: Some(components),
    }
}

fn non_interactive_args(output: Option<String>, all: bool, types: Option<Vec<String>>) -> GenerateArgs {
    GenerateArgs {
        target_org: None,
        api_version: Some("62.0".to_string()),
        output_file: output,
        inherit: None,
        non_interactive: true,
        all,
        types,
    }
}

#[test]
fn non_interactive_all_generates_xml() {
    let dir = tempfile::tempdir().unwrap();
    let output_path = dir.path().join("package.xml").to_string_lossy().into_owned();
    let client = make_non_interactive_client();
    let args = non_interactive_args(Some(output_path.clone()), true, None);
    let (result, trace) = run_with(&client, &args, &[]);
    result.unwrap();
    let (path, content) = trace.written.unwrap();
    assert_eq!(path, output_path);
    assert!(content.contains("<Package xmlns="));
    assert!(content.contains("<name>ApexClass</name>"));
    assert!(content.contains("<members>*</members>"));
    assert!(content.contains("<name>Report</name>"));
    assert!(content.contains("<members>SalesReport</members>"));
    assert_eq!(
        trace.said.last().unwrap(),
        &format!("Written to {output_path}.")
    );
}

#[test]
fn non_interactive_types_generates_xml() {
    let dir = tempfile::tempdir().unwrap();
    let output_path = dir.path().join("package.xml").to_string_lossy().into_owned();
    let client = make_non_interactive_client();
    let args = non_interactive_args(
        Some(output_path),
        false,
        Some(vec!["ApexClass".to_string(), "Report".to_string()]),
    );
    let (result, trace) = run_with(&client, &args, &[]);
    result.unwrap();
    let (_, content) = trace.written.unwrap();
    assert!(content.contains("<name>ApexClass</name>"));
    assert!(content.contains("<name>Report</name>"));
    assert!(!content.contains("<name>CustomObject</name>"));
}

#[test]
fn non_interactive_unknown_type_fails() {
    let client = make_non_interactive_client();
    let dir = tempfile::tempdir().unwrap();
    let output_path = dir.path().join("package.xml").to_string_lossy().into_owned();
    let args = non_interactive_args(
        Some(output_path),
        false,
        Some(vec!["NonExistentType".to_string()]),
    );
    let err = run_generate(&client, &args).unwrap_err();
    match err {
        AppError::ValidationError { message } => {
            assert!(message.contains("Unknown metadata type"));
        }
        other => panic!("Expected ValidationError, got: {other:?}"),
    }
}

#[test]
fn all_without_non_interactive_fails() {
    let client = make_non_interactive_client();
    let args = GenerateArgs {
        all: true,
        ..make_args(Some("62.0"), Some("out.xml"))
    };
    let err = run_generate(&client, &args).unwrap_err();
    assert!(matches!(err, AppError::ValidationError { .. }));
}

#[test]
fn non_interactive_without_all_or_types_fails() {
    let client = make_non_interactive_client();
    let args = non_interactive_args(Some("out.xml".to_string()), false, None);
    let err = run_generate(&client, &args).unwrap_err();
    assert!(matches!(err, AppError::ValidationError { .. }));
}

#[test]
fn non_interactive_without_output_file_fails() {
    let client = make_non_interactive_client();
    let args = non_interactive_args(None, true, None);
    let err = run_generate(&client, &args).unwrap_err();
    assert!(matches!(err, AppError::ValidationError { .. }));
}

// ---------------------------------------------------------------------------
// Further scenarios
// ---------------------------------------------------------------------------

#[test]
fn validation_messages_are_exact() {
    let messages: Vec<String> = [
        GenerateArgs {
            types: Some(vec!["ApexClass".to_string()]),
            ..make_args(None, None)
        },
        non_interactive_args(Some("o.xml".to_string()), false, None),
        non_interactive_args(None, true, None),
    ]
    .iter()
    .map(|a| match validate_args(a).unwrap_err() {
        AppError::ValidationError { message } => message,
        other => panic!("Expected ValidationError, got: {other:?}"),
    })
    .collect();
    assert_eq!(
        messages,
        vec![
            "--all and --types require --non-interactive.",
            "In non-interactive mode, specify --all or --types.",
            "In non-interactive mode, --output-file is required.",
        ]
    );
    assert!(validate_args(&make_args(None, None)).is_ok());
}

#[test]
fn interrupt_after_sf_check_cancels() {
    let client = make_non_interactive_client();
    let mut run = Generate::new(make_args(Some("62.0"), Some("out.xml")));
    assert!(matches!(run.step(Event::Begin), Request::CheckSf));
    assert!(matches!(
        run.step(Event::SfChecked(client.check_sf_exists())),
        Request::CheckInterrupt
    ));
    match run.step(Event::Interrupt(true)) {
        Request::Finish(Err(AppError::Cancelled)) => {}
        other => panic!("Expected cancellation, got: {other:?}"),
    }
}

#[test]
fn existing_output_file_stops_before_writing() {
    let dir = tempfile::tempdir().unwrap();
    let file = tempfile::NamedTempFile::new_in(dir.path()).unwrap();
    let output_path = file.path().to_string_lossy().into_owned();
    let client = make_non_interactive_client();
    let args = non_interactive_args(Some(output_path.clone()), true, None);
    let (result, trace) = run_with(&client, &args, &[]);
    match result.unwrap_err() {
        AppError::OutputPathError { message } => {
            assert_eq!(message, format!("{output_path} already exists."))
        }
        other => panic!("Expected OutputPathError, got: {other:?}"),
    }
    assert!(trace.written.is_none());
}

#[test]
fn picked_selection_is_written_to_prompted_path() {
    let dir = tempfile::tempdir().unwrap();
    let output_path = dir.path().join("picked.xml").to_string_lossy().into_owned();
    let client = make_non_interactive_client();
    let mut run = Generate::new(make_args(Some("62.0"), None));
    let mut event = Event::Begin;
    let mut written = None;
    let outcome = loop {
        let request = run.step(event);
        if let Some((answer, _)) = call_sf(&client, &request) {
            event = answer;
            continue;
        }
        event = match request {
            Request::CheckInterrupt => Event::Interrupt(false),
            Request::Say(_) => Event::Said,
            Request::Pick(types, _) => {
                let names: Vec<String> = types.into_iter().map(|t| t.xml_name).collect();
                assert_eq!(names, vec!["ApexClass", "CustomObject", "Report"]);
                let mut chosen = SortedMap::new();
                chosen.insert("ApexClass".to_string(), vec!["*".to_string()]);
                Event::Picked(Ok(chosen))
            }
            Request::PromptPath => Event::PathLine(Ok(format!("  {output_path}\n"))),
            Request::ProbePath(p) => {
                assert_eq!(p, output_path);
                let path = Path::new(&p);
                Event::PathFacts {
                    is_dir: path.is_dir(),
                    exists: path.exists(),
                    parent: path.parent().map(|q| q.to_string_lossy().into_owned()),
                }
            }
            Request::ProbeParent(d) => Event::ParentFacts {
                is_dir: Path::new(&d).is_dir(),
            },
            Request::Write(_, content) => {
                written = Some(content);
                Event::Written(Ok(()))
            }
            Request::Finish(r) => break r,
            Request::ReadInherit(_) => panic!("no --inherit was given"),
            _ => unreachable!("the sf CLI requests are answered above"),
        };
    };
    outcome.unwrap();
    let content = written.unwrap();
    assert!(content.contains("<members>*</members>\n        <name>ApexClass</name>"));
    assert!(content.contains("<version>62.0</version>"));
}

#[test]
fn sf_calls_get_target_org_and_chosen_api_version() {
    let dir = tempfile::tempdir().unwrap();
    let output_path = dir.path().join("package.xml").to_string_lossy().into_owned();
    let client = make_non_interactive_client();
    let args = GenerateArgs {
        target_org: Some("my-sandbox".to_string()),
        api_version: None,
        ..non_interactive_args(Some(output_path), true, None)
    };
    let (result, trace) = run_with(&client, &args, &[]);
    result.unwrap();
    assert_eq!(
        trace.calls,
        vec![
            "check_sf_exists".to_string(),
            "get_org_info Some(\"my-sandbox\")".to_string(),
            "list_metadata_types Some(\"my-sandbox\") 62.0".to_string(),
            "list_metadata Report Some(\"my-sandbox\") 62.0".to_string(),
        ]
    );
}

#[test]
fn explicit_api_version_reaches_every_call_without_asking_the_org() {
    let dir = tempfile::tempdir().unwrap();
    let output_path = dir.path().join("package.xml").to_string_lossy().into_owned();
    let client = make_non_interactive_client();
    let args = GenerateArgs {
        api_version: Some("58.0".to_string()),
        ..non_interactive_args(Some(output_path), true, None)
    };
    let (result, trace) = run_with(&client, &args, &[]);
    result.unwrap();
    assert_eq!(
        trace.calls,
        vec![
            "check_sf_exists".to_string(),
            "list_metadata_types None 58.0".to_string(),
            "list_metadata Report None 58.0".to_string(),
        ]
    );
    let (_, content) = trace.written.unwrap();
    assert!(content.contains("<version>58.0</version>"));
}

#[test]
fn inherited_version_reaches_the_calls() {
    let xml = "<?xml version=\"1.0\" encoding=\"UTF-8\"?>\n\
               <Package xmlns=\"http://soap.sforce.com/2006/04/metadata\">\n\
               <types><members>AccountController</members><name>ApexClass</name></types>\n\
               <version>60.0</version>\n\
               </Package>\n";
    let args = GenerateArgs {
        target_org: Some("dev".to_string()),
        ..make_args_with_inherit(None)
    };
    let client = MockSfClient {
        check_sf_ok: true,
        api_version: Some("62.0".to_string()),
        metadata_types: Some(one_type("ApexClass")),
        components: None,
    };
    let (_, trace) = run_with(&client, &args, &[("inherit/package.xml", xml)]);
    assert_eq!(
        trace.calls,
        vec![
            "check_sf_exists".to_string(),
            "list_metadata_types Some(\"dev\") 60.0".to_string(),
            "list_metadata ApexClass Some(\"dev\") 60.0".to_string(),
        ]
    );
}

#[test]
fn failed_listing_in_non_interactive_mode_ends_with_its_error() {
    let client = MockSfClient {
        components: None,
        ..make_non_interactive_client()
    };
    let args = non_interactive_args(Some("unused.xml".to_string()), true, None);
    let (result, trace) = run_with(&client, &args, &[]);
    match result.unwrap_err() {
        AppError::SfCliError { message } => assert_eq!(message, "command failed"),
        other => panic!("Expected SfCliError, got: {other:?}"),
    }
    assert!(trace.written.is_none());
}
