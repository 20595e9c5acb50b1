use sf_pkgen::sf_client::MetadataType;
use sf_pkgen::tui::app::{AppState, ComponentLoadState, FocusPane};
use sf_pkgen::tui::view::RightPane;

fn sample_types() -> Vec<MetadataType> {
    vec![
        MetadataType {
            xml_name: "ApexClass".to_string(),
        },
        MetadataType {
            xml_name: "CustomObject".to_string(),
        },
    ]
}

fn loaded() -> AppState {
    let mut app = AppState::new(sample_types());
    app.set_components(
        "ApexClass",
        Ok(AppState::build_component_list(
            "ApexClass",
            vec!["AccountController".to_string()],
        )),
    );
    app
}

#[test]
fn left_title_without_search() {
    let app = AppState::new(sample_types());
    assert_eq!(app.left_title(), "Metadata Types");
}

#[test]
fn left_title_shows_query_while_searching() {
    let mut app = AppState::new(sample_types());
    app.start_search();
    assert_eq!(app.left_title(), "Metadata Types [/]");
    app.update_search('A');
    assert_eq!(app.left_title(), "Metadata Types [/A]");
}

#[test]
fn left_title_keeps_filter_after_search_ends() {
    let mut app = AppState::new(sample_types());
    app.start_search();
    app.update_search('C');
    app.end_search();
    assert_eq!(app.left_title(), "Metadata Types [/C]");
}

#[test]
fn left_lines_mark_types_with_a_selection() {
    let mut app = loaded();
    assert_eq!(app.left_lines(), vec!["  ApexClass", "  CustomObject"]);
    app.right_cursor = 0;
    app.toggle_selection();
    assert_eq!(app.left_lines(), vec!["+ ApexClass", "  CustomObject"]);
    assert_eq!(app.left_selected(), Some(0));
}

#[test]
fn right_title_is_highlighted_type() {
    let app = loaded();
    assert_eq!(app.right_title(), "ApexClass");
    assert_eq!(AppState::new(vec![]).right_title(), "Components");
}

#[test]
fn right_pane_states() {
    let mut app = AppState::new(sample_types());
    assert_eq!(app.right_pane(), RightPane::Blank);
    app.component_cache
        .insert("ApexClass".to_string(), ComponentLoadState::Loading);
    assert_eq!(app.right_pane(), RightPane::Loading);
    app.set_components("ApexClass", Err("Connection failed".to_string()));
    assert_eq!(
        app.right_pane(),
        RightPane::Failed("Connection failed".to_string())
    );
}

#[test]
fn right_pane_lists_components_with_check_boxes() {
    let mut app = loaded();
    assert_eq!(
        app.right_pane(),
        RightPane::Items(
            vec!["[ ] *".to_string(), "[ ] AccountController".to_string()],
            Some(0)
        )
    );
    app.focus = FocusPane::Right;
    app.toggle_selection();
    assert_eq!(
        app.right_pane(),
        RightPane::Items(
            vec!["[x] *".to_string(), "[ ] AccountController".to_string()],
            Some(0)
        )
    );
}

#[test]
fn right_pane_follows_the_filter() {
    let mut app = loaded();
    app.focus = FocusPane::Right;
    app.start_search();
    for c in "Acc".chars() {
        app.update_search(c);
    }
    assert_eq!(app.right_title(), "ApexClass [/Acc]");
    assert_eq!(
        app.right_pane(),
        RightPane::Items(
            vec!["[ ] *".to_string(), "[ ] AccountController".to_string()],
            Some(0)
        )
    );
}

#[test]
fn help_entries_by_mode() {
    let mut app = AppState::new(sample_types());
    let normal: Vec<(String, String)> = app.help_entries();
    let text: String = normal.iter().map(|(k, d)| format!("{k}{d}")).collect();
    assert_eq!(
        text,
        "Tab/h/l: pane  j/k: move  Space: select  Enter: confirm  /: search  Esc: cancel"
    );
    app.start_search();
    let text: String = app
        .help_entries()
        .iter()
        .map(|(k, d)| format!("{k}{d}"))
        .collect();
    assert_eq!(text, "Type: filter  Esc: stop search  Enter: confirm");
}
