//! What a key press does to the picker, and what the picker asks of its runner.
use vstd::prelude::*;

use crate::strmap::SortedMap;
use crate::sf_client::xml_names;
use crate::tui::app::{names_fit, AppState, AppView, FocusPane, lemma_same_content, without_last};

verus! {

/// The key of a key press, as far as the picker tells keys apart.
#[derive(Debug, Clone, Copy, PartialEq, Eq, Structural)]
pub enum KeyCode {
    Char(char),
    Esc,
    Tab,
    Up,
    Down,
    Left,
    Right,
    Enter,
    Backspace,
    Other,
}

/// A key press: the key, and whether Control was held.
#[derive(Debug, Clone, Copy, PartialEq, Eq, Structural)]
pub struct KeyInput {
    pub code: KeyCode,
    pub ctrl: bool,
}

impl KeyInput {
    /// A key pressed without Control.
    pub fn new(code: KeyCode) -> (r: KeyInput)
        ensures
            r == (KeyInput { code, ctrl: false }),
    {
        KeyInput { code, ctrl: false }
    }
}

/// What the runner is asked to do after a key press.
#[derive(Debug, PartialEq, Eq)]
pub enum Action {
    Nothing,
    LoadComponents(String),
    Confirm(SortedMap<Vec<String>>),
    NoComponentsSelected,
    Cancel,
}

/// `post` and `r` are what asking for the highlighted type's components gives:
/// the type to load, marked `Loading`, or nothing to do.
pub open spec fn load_requested(pre: AppView, post: AppView, r: Action) -> bool {
    &&& post == pre.requested().0
    &&& match r {
        Action::LoadComponents(t) => pre.requested().1 == Some(t@),
        Action::Nothing => pre.requested().1 is None,
        _ => false,
    }
}

/// Control-C.
pub open spec fn is_interrupt(key: KeyInput) -> bool {
    key.ctrl && key.code == KeyCode::Char('c')
}

/// What a key does in search mode.
pub open spec fn search_key_handled(pre: AppView, key: KeyInput, post: AppView, r: Action) -> bool {
    match key.code {
        KeyCode::Esc => post == (AppView { searching: None, ..pre }) && r == Action::Nothing,
        KeyCode::Enter => load_requested(AppView { searching: None, ..pre }, post, r),
        KeyCode::Backspace => pre.query_edited_to(
            post,
            without_last(pre.query),
            without_last(pre.right_query),
        ) && r == Action::Nothing,
        KeyCode::Char(c) => pre.query_edited_to(post, pre.query.push(c), pre.right_query.push(c))
            && r == Action::Nothing,
        _ => post == pre && r == Action::Nothing,
    }
}

/// What a key does outside search mode.
pub open spec fn normal_key_handled(pre: AppView, key: KeyInput, post: AppView, r: Action) -> bool {
    match key.code {
        KeyCode::Esc => post == (AppView { should_quit: true, cancelled: true, ..pre }) && r
            == Action::Cancel,
        KeyCode::Tab => load_requested(pre.switched(), post, r),
        KeyCode::Up | KeyCode::Char('k') => load_requested(pre.cursor_up(), post, r),
        KeyCode::Down | KeyCode::Char('j') => load_requested(pre.cursor_down(), post, r),
        KeyCode::Left | KeyCode::Char('h') => load_requested(
            AppView { focus: FocusPane::Left, ..pre },
            post,
            r,
        ),
        KeyCode::Right | KeyCode::Char('l') => load_requested(
            AppView { focus: FocusPane::Right, ..pre },
            post,
            r,
        ),
        KeyCode::Char('/') if pre.focus == FocusPane::Left => pre.search_started_to(post) && r
            == Action::Nothing,
        KeyCode::Char(' ') if pre.focus == FocusPane::Right => post == pre.toggled() && r
            == Action::Nothing,
        KeyCode::Enter => post == (AppView { should_quit: true, ..pre }) && match r {
            Action::Confirm(m) => pre.confirmed_as(Some(m)),
            Action::NoComponentsSelected => pre.confirmed_as(None),
            _ => false,
        },
        _ => post == pre && r == Action::Nothing,
    }
}

/// What a key press does: Control-C cancels in any mode; in search mode the key
/// edits or ends the search; otherwise it moves, switches panes, selects, confirms
/// or cancels.
pub open spec fn key_handled(pre: AppView, key: KeyInput, post: AppView, r: Action) -> bool {
    if is_interrupt(key) {
        post == (AppView { should_quit: true, cancelled: true, ..pre }) && r == Action::Cancel
    } else if pre.searching is Some {
        search_key_handled(pre, key, post, r)
    } else {
        normal_key_handled(pre, key, post, r)
    }
}

/// The fuzzy scoring that the key leads to stays within the matcher's limit: only
/// starting a search (`/` in the left pane) and typing or deleting in search mode
/// score names, against the query they leave.
pub open spec fn key_scorable(pre: AppView, key: KeyInput) -> bool {
    if is_interrupt(key) {
        true
    } else if pre.searching is Some {
        match key.code {
            KeyCode::Backspace => pre.edit_scorable(without_last(pre.query), without_last(pre.right_query)),
            KeyCode::Char(c) => pre.edit_scorable(pre.query.push(c), pre.right_query.push(c)),
            _ => true,
        }
    } else {
        key.code == KeyCode::Char('/') && pre.focus == FocusPane::Left ==> pre.left_scorable(pre.query)
    }
}

/// Whether the fuzzy scoring that the key leads to stays within the matcher's limit.
pub fn key_within_limit(app: &AppState, key: KeyInput) -> (r: bool)
    requires
        app.wf(),
    ensures
        r == key_scorable(app@, key),
{
    if key.ctrl && key.code == KeyCode::Char('c') {
        return true;
    }
    let pane = match app.searching_pane {
        Some(pane) => {
            let len = match pane {
                FocusPane::Left => app.search_query.unicode_len(),
                FocusPane::Right => app.right_search_query.unicode_len(),
            };
            let scores = match key.code {
                KeyCode::Backspace => len > 1,
                KeyCode::Char(_) => true,
                _ => false,
            };
            if !scores {
                return true;
            }
            pane
        },
        None => {
            if !(key.code == KeyCode::Char('/') && app.focus == FocusPane::Left) {
                return true;
            }
            if app.search_query.unicode_len() == 0 {
                return true;
            }
            FocusPane::Left
        },
    };
    match pane {
        FocusPane::Left => names_fit(&xml_names(&app.metadata_types)),
        FocusPane::Right => match app.highlighted_components() {
            Some(v) => names_fit(v),
            None => true,
        },
    }
}

pub fn handle_key_event(app: &mut AppState, key: KeyInput) -> (r: Action)
    requires
        old(app).wf(),
        key_scorable(old(app)@, key),
    ensures
        final(app).wf(),
        old(app)@.searchable() ==> final(app)@.searchable(),
        key_handled(old(app)@, key, final(app)@, r),
{
    // Ctrl+C always cancels
    if key.ctrl && key.code == KeyCode::Char('c') {
        app.cancel();
        return Action::Cancel;
    }
    // Search mode
    if app.searching_pane.is_some() {
        return handle_search_key(app, key);
    }
    // Normal mode
    match key.code {
        KeyCode::Esc => {
            app.cancel();
            Action::Cancel
        },
        KeyCode::Tab => {
            app.switch_focus();
            maybe_load_components(app)
        },
        KeyCode::Up | KeyCode::Char('k') => {
            app.move_cursor_up();
            maybe_load_components(app)
        },
        KeyCode::Down | KeyCode::Char('j') => {
            app.move_cursor_down();
            maybe_load_components(app)
        },
        KeyCode::Left | KeyCode::Char('h') => {
            app.focus_left();
            maybe_load_components(app)
        },
        KeyCode::Right | KeyCode::Char('l') => {
            app.focus_right();
            maybe_load_components(app)
        },
        KeyCode::Char('/') if app.focus == FocusPane::Left => {
            app.start_search();
            Action::Nothing
        },
        KeyCode::Char(' ') if app.focus == FocusPane::Right => {
            app.toggle_selection();
            Action::Nothing
        },
        KeyCode::Enter => {
            let confirmed = app.confirm();
            app.should_quit = true;
            proof {
                lemma_same_content(old(app)@, app@);
            }
            match confirmed {
                Some(selections) => Action::Confirm(selections),
                None => Action::NoComponentsSelected,
            }
        },
        _ => Action::Nothing,
    }
}

fn handle_search_key(app: &mut AppState, key: KeyInput) -> (r: Action)
    requires
        old(app).wf(),
        old(app)@.searching is Some,
        key_scorable(old(app)@, key),
        !is_interrupt(key),
    ensures
        final(app).wf(),
        old(app)@.searchable() ==> final(app)@.searchable(),
        search_key_handled(old(app)@, key, final(app)@, r),
{
    match key.code {
        KeyCode::Esc => {
            app.end_search();
            Action::Nothing
        },
        KeyCode::Enter => {
            app.end_search();
            maybe_load_components(app)
        },
        KeyCode::Backspace => {
            app.backspace_search();
            Action::Nothing
        },
        KeyCode::Char(c) => {
            app.update_search(c);
            Action::Nothing
        },
        _ => Action::Nothing,
    }
}

fn maybe_load_components(app: &mut AppState) -> (r: Action)
    requires
        old(app).wf(),
    ensures
        final(app).wf(),
        old(app)@.searchable() ==> final(app)@.searchable(),
        load_requested(old(app)@, final(app)@, r),
{
    match app.request_components_if_needed() {
        Some(tname) => Action::LoadComponents(tname),
        None => Action::Nothing,
    }
}

} // verus!
