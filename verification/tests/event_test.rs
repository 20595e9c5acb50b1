use sf_pkgen::sf_client::MetadataType;
use sf_pkgen::tui::app::{AppState, FocusPane};
use sf_pkgen::tui::event::{handle_key_event, key_within_limit, Action, KeyCode, KeyInput};

fn sample_types() -> Vec<MetadataType> {
    vec![
        MetadataType {
            xml_name: "ApexClass".to_string(),
        },
        MetadataType {
            xml_name: "CustomObject".to_string(),
        },
    ]
}

fn key(code: KeyCode) -> KeyInput {
    KeyInput::new(code)
}

fn ctrl_c() -> KeyInput {
    KeyInput {
        code: KeyCode::Char('c'),
        ctrl: true,
    }
}

fn app_with_components() -> AppState {
    let mut app = AppState::new(sample_types());
    app.set_components(
        "ApexClass",
        Ok(AppState::build_component_list(
            "ApexClass",
            vec!["Foo".to_string()],
        )),
    );
    app
}

// -- Cancel --

#[test]
fn esc_cancels() {
    let mut app = AppState::new(sample_types());
    let action = handle_key_event(&mut app, key(KeyCode::Esc));
    assert_eq!(action, Action::Cancel);
    assert!(app.cancelled);
}

#[test]
fn ctrl_c_cancels() {
    let mut app = AppState::new(sample_types());
    let action = handle_key_event(&mut app, ctrl_c());
    assert_eq!(action, Action::Cancel);
    assert!(app.cancelled);
}

// -- Cursor movement --

#[test]
fn down_moves_cursor_and_may_load() {
    let mut app = AppState::new(sample_types());
    let action = handle_key_event(&mut app, key(KeyCode::Down));
    assert_eq!(app.left_cursor, 1);
    assert_eq!(action, Action::LoadComponents("CustomObject".to_string()));
}

#[test]
fn up_moves_cursor() {
    let mut app = AppState::new(sample_types());
    app.left_cursor = 1;
    app.set_components("CustomObject", Ok(vec![]));
    let action = handle_key_event(&mut app, key(KeyCode::Up));
    assert_eq!(app.left_cursor, 0);
    assert_eq!(action, Action::LoadComponents("ApexClass".to_string()));
}

#[test]
fn j_moves_cursor_down() {
    let mut app = AppState::new(sample_types());
    let action = handle_key_event(&mut app, key(KeyCode::Char('j')));
    assert_eq!(app.left_cursor, 1);
    assert_eq!(action, Action::LoadComponents("CustomObject".to_string()));
}

#[test]
fn j_moves_cursor_down_in_right_pane() {
    let mut app = app_with_components();
    app.focus = FocusPane::Right;
    let action = handle_key_event(&mut app, key(KeyCode::Char('j')));
    assert_eq!(app.right_cursor, 1);
    assert_eq!(action, Action::Nothing);
}

#[test]
fn k_moves_cursor_up() {
    let mut app = AppState::new(sample_types());
    app.left_cursor = 1;
    app.set_components("CustomObject", Ok(vec![]));
    let action = handle_key_event(&mut app, key(KeyCode::Char('k')));
    assert_eq!(app.left_cursor, 0);
    assert_eq!(action, Action::LoadComponents("ApexClass".to_string()));
}

#[test]
fn k_moves_cursor_up_in_right_pane() {
    let mut app = app_with_components();
    app.focus = FocusPane::Right;
    // ApexClass has: ["*", "Foo"] = 2 items; cursor wraps to last
    let action = handle_key_event(&mut app, key(KeyCode::Char('k')));
    assert_eq!(app.right_cursor, 1);
    assert_eq!(action, Action::Nothing);
}

#[test]
fn h_focuses_left_pane() {
    let mut app = app_with_components();
    app.focus = FocusPane::Right;
    let action = handle_key_event(&mut app, key(KeyCode::Char('h')));
    assert_eq!(app.focus, FocusPane::Left);
    assert_eq!(action, Action::Nothing);
}

#[test]
fn l_focuses_right_pane() {
    let mut app = app_with_components();
    assert_eq!(app.focus, FocusPane::Left);
    let action = handle_key_event(&mut app, key(KeyCode::Char('l')));
    assert_eq!(app.focus, FocusPane::Right);
    assert_eq!(action, Action::Nothing);
}

// -- Tab --

#[test]
fn tab_switches_focus() {
    let mut app = app_with_components();
    assert_eq!(app.focus, FocusPane::Left);
    handle_key_event(&mut app, key(KeyCode::Tab));
    assert_eq!(app.focus, FocusPane::Right);
}

// -- Space (selection) --

#[test]
fn space_toggles_selection_in_right_pane() {
    let mut app = app_with_components();
    app.focus = FocusPane::Right;
    app.right_cursor = 0; // "*"
    let action = handle_key_event(&mut app, key(KeyCode::Char(' ')));
    assert_eq!(action, Action::Nothing);
    assert!(app
        .selections
        .get("ApexClass")
        .unwrap()
        .contains(&"*".to_string()));
}

#[test]
fn space_does_nothing_in_left_pane() {
    let mut app = app_with_components();
    let action = handle_key_event(&mut app, key(KeyCode::Char(' ')));
    assert_eq!(action, Action::Nothing);
    assert!(app.selections.is_empty());
}

// -- Enter (confirm) --

#[test]
fn enter_with_selections_confirms() {
    let mut app = app_with_components();
    app.focus = FocusPane::Right;
    app.right_cursor = 0;
    app.toggle_selection(); // Select *

    let action = handle_key_event(&mut app, key(KeyCode::Enter));
    match action {
        Action::Confirm(selections) => {
            assert!(selections.contains_key("ApexClass"));
        }
        other => panic!("Expected Confirm, got: {other:?}"),
    }
    assert!(app.should_quit);
}

#[test]
fn enter_without_selections_returns_no_components_selected() {
    let mut app = AppState::new(sample_types());
    let action = handle_key_event(&mut app, key(KeyCode::Enter));
    assert_eq!(action, Action::NoComponentsSelected);
    assert!(app.should_quit);
}

// -- Search mode --

#[test]
fn slash_starts_search() {
    let mut app = AppState::new(sample_types());
    let action = handle_key_event(&mut app, key(KeyCode::Char('/')));
    assert_eq!(action, Action::Nothing);
    assert!(app.searching_pane.is_some());
}

#[test]
fn slash_ignored_in_right_pane() {
    let mut app = app_with_components();
    app.focus = FocusPane::Right;
    handle_key_event(&mut app, key(KeyCode::Char('/')));
    assert!(app.searching_pane.is_none());
}

#[test]
fn search_mode_chars_update_query() {
    let mut app = AppState::new(sample_types());
    app.start_search();
    handle_key_event(&mut app, key(KeyCode::Char('a')));
    assert_eq!(app.search_query, "a");
}

#[test]
fn search_mode_backspace_removes_char() {
    let mut app = AppState::new(sample_types());
    app.start_search();
    app.update_search('a');
    app.update_search('b');
    handle_key_event(&mut app, key(KeyCode::Backspace));
    assert_eq!(app.search_query, "a");
}

#[test]
fn search_mode_esc_ends_search() {
    let mut app = AppState::new(sample_types());
    app.start_search();
    handle_key_event(&mut app, key(KeyCode::Esc));
    assert!(app.searching_pane.is_none());
    assert!(!app.cancelled, "Esc in search mode should not cancel TUI");
}

#[test]
fn search_mode_enter_ends_search() {
    let mut app = AppState::new(sample_types());
    app.start_search();
    let action = handle_key_event(&mut app, key(KeyCode::Enter));
    assert!(app.searching_pane.is_none());
    assert!(matches!(action, Action::Nothing | Action::LoadComponents(_)));
}

#[test]
fn ctrl_c_cancels_during_search() {
    let mut app = AppState::new(sample_types());
    app.start_search();
    let action = handle_key_event(&mut app, ctrl_c());
    assert_eq!(action, Action::Cancel);
    assert!(app.cancelled);
}

#[test]
fn other_keys_do_nothing() {
    let mut app = AppState::new(sample_types());
    assert_eq!(handle_key_event(&mut app, key(KeyCode::Other)), Action::Nothing);
    assert_eq!(handle_key_event(&mut app, key(KeyCode::Char('x'))), Action::Nothing);
    assert_eq!(app.left_cursor, 0);
    assert!(!app.should_quit);
}

#[test]
fn search_mode_space_is_typed_not_toggled() {
    let mut app = app_with_components();
    app.start_search();
    let action = handle_key_event(&mut app, key(KeyCode::Char(' ')));
    assert_eq!(action, Action::Nothing);
    assert_eq!(app.search_query, " ");
    assert!(app.selections.is_empty());
}

#[test]
fn left_arrow_focuses_left_pane() {
    let mut app = app_with_components();
    app.focus = FocusPane::Right;
    let action = handle_key_event(&mut app, key(KeyCode::Left));
    assert_eq!(app.focus, FocusPane::Left);
    assert_eq!(action, Action::Nothing);
}

#[test]
fn right_arrow_focuses_right_pane() {
    let mut app = app_with_components();
    let action = handle_key_event(&mut app, key(KeyCode::Right));
    assert_eq!(app.focus, FocusPane::Right);
    assert_eq!(action, Action::Nothing);
}

#[test]
fn arrows_do_nothing_in_search_mode() {
    let mut app = app_with_components();
    handle_key_event(&mut app, key(KeyCode::Char('/')));
    handle_key_event(&mut app, key(KeyCode::Right));
    assert_eq!(app.focus, FocusPane::Left);
    assert_eq!(app.searching_pane, Some(FocusPane::Left));
}

#[test]
fn keys_within_the_matcher_limit_for_ordinary_names() {
    let mut app = app_with_components();
    assert!(key_within_limit(&app, key(KeyCode::Esc)));
    assert!(key_within_limit(&app, key(KeyCode::Char('/'))));
    handle_key_event(&mut app, key(KeyCode::Char('/')));
    assert!(key_within_limit(&app, key(KeyCode::Char('a'))));
    assert!(key_within_limit(&app, key(KeyCode::Backspace)));
    assert!(key_within_limit(&app, ctrl_c()));
}
