//! Keyboard handling for the browser: each keystroke, already decoded into a
//! plain key value by the invocation layer, is mapped to one exact state
//! transition. The one side effect a key can ask for — exporting the marked
//! records — is returned as an action for the invocation layer to perform.

use crate::tui_app::App;
use crate::tui_app::AppView;
use crate::tui_app::ViewMode;
use crate::tui_app::clear_string;
use vstd::prelude::*;

verus! {

broadcast use vstd::std_specs::hash::group_hash_axioms;

/// A decoded key.
#[derive(Clone, Copy, Debug, PartialEq, Eq, Structural)]
pub enum Key {
    /// A printable character.
    Char(char),
    /// The up arrow.
    Up,
    /// The down arrow.
    Down,
    /// The page-up key.
    PageUp,
    /// The page-down key.
    PageDown,
    /// The end key.
    End,
    /// The escape key.
    Esc,
    /// The enter key.
    Enter,
    /// The backspace key.
    Backspace,
    /// Any other key.
    Other,
}

/// One keystroke: the key and whether control was held.
#[derive(Clone, Copy, Debug, PartialEq, Eq, Structural)]
pub struct KeyPress {
    /// The decoded key.
    pub code: Key,
    /// Whether the control modifier was held.
    pub ctrl: bool,
}

/// What the invocation layer must do after a keystroke.
#[derive(Clone, Copy, Debug, PartialEq, Eq, Structural)]
pub enum UiAction {
    /// Nothing beyond redrawing.
    Nothing,
    /// Export the marked records.
    ExportMarked,
}

/// The transition a keystroke causes while the search box is being edited.
pub open spec fn search_mode_step(v: AppView, key: KeyPress) -> AppView {
    if key.code == Key::Esc {
        AppView { search_mode: false, ..v }
    } else if key.code == Key::Enter {
        AppView { search_mode: false, ..v.step_apply_filter() }
    } else if key.code is Char {
        v.step_search_input(key.code->Char_0)
    } else if key.code == Key::Backspace {
        v.step_search_backspace()
    } else {
        v
    }
}

/// The transition a keystroke causes in the list pane.
pub open spec fn list_mode_step(v: AppView, key: KeyPress) -> (AppView, UiAction) {
    if key.code == Key::Char('j') || key.code == Key::Down {
        (v.step_select_next(), UiAction::Nothing)
    } else if key.code == Key::Char('k') || key.code == Key::Up {
        (v.step_select_previous(), UiAction::Nothing)
    } else if key.code == Key::Char('g') {
        (v.step_select_first(), UiAction::Nothing)
    } else if key.code == Key::Char('G') || key.code == Key::End {
        (v.step_select_last(), UiAction::Nothing)
    } else if (key.code == Key::PageDown || key.code == Key::Char('d')) && key.ctrl {
        (v.step_page_down(10), UiAction::Nothing)
    } else if (key.code == Key::PageUp || key.code == Key::Char('u')) && key.ctrl {
        (v.step_page_up(10), UiAction::Nothing)
    } else if key.code == Key::Char(' ') {
        (v.step_toggle_mark().step_select_next(), UiAction::Nothing)
    } else if key.code == Key::Char('a') {
        (v.step_mark_all(), UiAction::Nothing)
    } else if key.code == Key::Char('c') {
        (v.step_clear_marks(), UiAction::Nothing)
    } else if key.code == Key::Char('/') {
        (AppView { search_mode: true, search_query: Seq::empty(), ..v }, UiAction::Nothing)
    } else if key.code == Key::Esc {
        (v.step_clear_search(), UiAction::Nothing)
    } else if key.code == Key::Enter {
        (v.step_toggle_view_mode(), UiAction::Nothing)
    } else if key.code == Key::Char('e') {
        (
            v,
            if !v.marked.is_empty() {
                UiAction::ExportMarked
            } else {
                UiAction::Nothing
            },
        )
    } else {
        (v, UiAction::Nothing)
    }
}

/// The transition a keystroke causes in the detail pane.
pub open spec fn detail_mode_step(v: AppView, key: KeyPress) -> AppView {
    if key.code == Key::Enter || key.code == Key::Esc {
        v.step_toggle_view_mode()
    } else if key.code == Key::Char('j') || key.code == Key::Down {
        v.step_select_next()
    } else if key.code == Key::Char('k') || key.code == Key::Up {
        v.step_select_previous()
    } else {
        v
    }
}

/// The transition any keystroke causes: quit on its global key, otherwise
/// dispatch to the mode in effect.
pub open spec fn key_event_step(v: AppView, key: KeyPress) -> (AppView, UiAction) {
    if key.code == Key::Char('q') && !v.search_mode {
        (v.step_quit(), UiAction::Nothing)
    } else if v.search_mode {
        (search_mode_step(v, key), UiAction::Nothing)
    } else if v.view_mode == ViewMode::List {
        list_mode_step(v, key)
    } else {
        (detail_mode_step(v, key), UiAction::Nothing)
    }
}

/// Handle one keystroke while the search box is being edited.
pub fn handle_search_mode(app: &mut App, key: KeyPress)
    requires
        old(app)@.wf(),
    ensures
        final(app)@ == search_mode_step(old(app)@, key),
        final(app)@.wf(),
        final(app).storage == old(app).storage,
{
    match key.code {
        Key::Esc => {
            app.search_mode = false;
        },
        Key::Enter => {
            app.apply_filter();
            app.search_mode = false;
        },
        Key::Char(c) => {
            app.search_input(c);
        },
        Key::Backspace => {
            app.search_backspace();
        },
        _ => {},
    }
    proof {
        assert(app@ =~= search_mode_step(old(app)@, key));
    }
}

/// Handle one keystroke in the list pane; say whether the invocation layer
/// must export the marked records.
pub fn handle_list_mode(app: &mut App, key: KeyPress) -> (r: UiAction)
    requires
        old(app)@.wf(),
    ensures
        (final(app)@, r) == list_mode_step(old(app)@, key),
        final(app)@.wf(),
        final(app).storage == old(app).storage,
{
    let r: UiAction = if key.code == Key::Char('j') || key.code == Key::Down {
        app.select_next();
        UiAction::Nothing
    } else if key.code == Key::Char('k') || key.code == Key::Up {
        app.select_previous();
        UiAction::Nothing
    } else if key.code == Key::Char('g') {
        app.select_first();
        UiAction::Nothing
    } else if key.code == Key::Char('G') || key.code == Key::End {
        app.select_last();
        UiAction::Nothing
    } else if (key.code == Key::PageDown || key.code == Key::Char('d')) && key.ctrl {
        app.page_down(10);
        UiAction::Nothing
    } else if (key.code == Key::PageUp || key.code == Key::Char('u')) && key.ctrl {
        app.page_up(10);
        UiAction::Nothing
    } else if key.code == Key::Char(' ') {
        app.toggle_mark();
        app.select_next();
        UiAction::Nothing
    } else if key.code == Key::Char('a') {
        app.mark_all();
        UiAction::Nothing
    } else if key.code == Key::Char('c') {
        app.clear_marks();
        UiAction::Nothing
    } else if key.code == Key::Char('/') {
        app.search_mode = true;
        clear_string(&mut app.search_query);
        UiAction::Nothing
    } else if key.code == Key::Esc {
        app.clear_search();
        UiAction::Nothing
    } else if key.code == Key::Enter {
        app.toggle_view_mode();
        UiAction::Nothing
    } else if key.code == Key::Char('e') {
        if !app.marked.is_empty() {
            UiAction::ExportMarked
        } else {
            UiAction::Nothing
        }
    } else {
        UiAction::Nothing
    };
    proof {
        assert(app@ =~= list_mode_step(old(app)@, key).0);
    }
    r
}

/// Handle one keystroke in the detail pane.
pub fn handle_detail_mode(app: &mut App, key: KeyPress)
    requires
        old(app)@.wf(),
    ensures
        final(app)@ == detail_mode_step(old(app)@, key),
        final(app)@.wf(),
        final(app).storage == old(app).storage,
{
    if key.code == Key::Enter || key.code == Key::Esc {
        app.toggle_view_mode();
    } else if key.code == Key::Char('j') || key.code == Key::Down {
        app.select_next();
    } else if key.code == Key::Char('k') || key.code == Key::Up {
        app.select_previous();
    }
    proof {
        assert(app@ =~= detail_mode_step(old(app)@, key));
    }
}

/// Handle one keystroke: quit on its global key, otherwise dispatch to the
/// mode in effect; say whether the invocation layer must export the marked
/// records.
pub fn handle_key_event(app: &mut App, key: KeyPress) -> (r: UiAction)
    requires
        old(app)@.wf(),
    ensures
        (final(app)@, r) == key_event_step(old(app)@, key),
        final(app)@.wf(),
        final(app).storage == old(app).storage,
{
    if key.code == Key::Char('q') && !app.search_mode {
        app.quit();
        return UiAction::Nothing;
    }
    if app.search_mode {
        handle_search_mode(app, key);
        UiAction::Nothing
    } else if app.view_mode == ViewMode::List {
        handle_list_mode(app, key)
    } else {
        handle_detail_mode(app, key);
        UiAction::Nothing
    }
}

} // verus!
