use vstd::prelude::*;

use crate::app::{App, EditMode, FIELD_COUNT, Mode};
use crate::text::{owned, pop_char, push_char};

verus! {

/// The key of a key press, as far as the application tells keys apart.
#[derive(Debug, Clone, Copy, PartialEq, Eq, Structural)]
pub enum KeyCode {
    Char(char),
    Esc,
    Enter,
    Backspace,
    Tab,
    BackTab,
    Up,
    Down,
    Left,
    Right,
    Home,
    End,
    /// Any other key.
    Other,
}

/// A key press: the key, and whether Control was the only modifier held.
#[derive(Debug, Clone, Copy, PartialEq, Eq, Structural)]
pub struct KeyPress {
    pub code: KeyCode,
    pub control_only: bool,
}

/// Control-C (either case) quits from every mode.
pub open spec fn is_quit_chord(key: KeyPress) -> bool {
    key.control_only && (key.code == KeyCode::Char('c') || key.code == KeyCode::Char('C'))
}

/// The form field after the current one, wrapping around.
pub open spec fn next_field(field: usize) -> usize {
    ((field + 1) % (FIELD_COUNT as int)) as usize
}

/// The form field before the current one, wrapping around.
pub open spec fn previous_field(field: usize) -> usize {
    if field == 0 {
        (FIELD_COUNT - 1) as usize
    } else {
        (field - 1) as usize
    }
}

/// One key typed into a one-line text input: Esc and Enter finish it, Backspace drops
/// the last character, a character is appended, other keys change nothing.
pub open spec fn text_step(before: Seq<char>, after: Seq<char>, code: KeyCode, done: bool) -> bool {
    match code {
        KeyCode::Esc | KeyCode::Enter => done && after == before,
        KeyCode::Backspace => !done && after == (if before.len() > 0 { before.drop_last() } else { before }),
        KeyCode::Char(c) => !done && after == before.push(c),
        _ => !done && after == before,
    }
}

/// One key while browsing.
pub open spec fn normal_step(a: App, b: App, code: KeyCode) -> bool {
    match code {
        KeyCode::Esc => App::quitted(a, b),
        KeyCode::Down => App::moved_down(a, b),
        KeyCode::Up => App::moved_up(a, b),
        KeyCode::Char(c) => if c == 'q' {
            App::quitted(a, b)
        } else if c == 'j' {
            App::moved_down(a, b)
        } else if c == 'k' {
            App::moved_up(a, b)
        } else if c == 'a' {
            App::started_add(a, b)
        } else if c == 'e' {
            App::started_edit(a, b)
        } else if c == 'd' {
            App::started_delete(a, b)
        } else if c == '/' {
            &&& b == (App { mode: Mode::Search, status: b.status, ..a })
            &&& b.status@ == "输入搜索关键字"@
        } else if c == 'c' {
            &&& b == (App { mode: Mode::Category, status: b.status, ..a })
            &&& b.status@ == "输入分类过滤；清空表示全部分类"@
        } else if c == 'v' {
            b == (App { show_password: !a.show_password, ..a })
        } else {
            b == a
        },
        _ => b == a,
    }
}

/// One key while the form is open on field number `field`.
pub open spec fn editing_step(a: App, b: App, code: KeyCode, edit_mode: EditMode, field: usize, save: Option<String>) -> bool {
    match code {
        KeyCode::Enter => App::saved_form(a, b, edit_mode, save),
        _ => save is None && match code {
            KeyCode::Esc => App::cancelled(a, b),
            KeyCode::Tab | KeyCode::Down => App::cursor_moved_to_end(
                App { mode: Mode::Editing { mode: edit_mode, field: next_field(field) }, ..a },
                b,
            ),
            KeyCode::BackTab | KeyCode::Up => App::cursor_moved_to_end(
                App { mode: Mode::Editing { mode: edit_mode, field: previous_field(field) }, ..a },
                b,
            ),
            KeyCode::Left => App::cursor_moved_left(a, b),
            KeyCode::Right => App::cursor_moved_right(a, b),
            KeyCode::Home => b == (App { form_cursor: 0, ..a }),
            KeyCode::End => App::cursor_moved_to_end(a, b),
            KeyCode::Backspace => App::backspaced(a, b),
            KeyCode::Char(ch) => App::inserted_char(a, b, ch),
            _ => App::clamped(a, b),
        },
    }
}

/// One key press handled in the mode the application was in.
pub open spec fn key_step(a: App, b: App, key: KeyPress, save: Option<String>) -> bool {
    if is_quit_chord(key) {
        App::quitted(a, b) && save is None
    } else {
        match a.mode {
            Mode::Normal => save is None && normal_step(a, b, key.code),
            Mode::Search => save is None && exists|done: bool| {
                &&& text_step(a.query@, b.query@, key.code, done)
                &&& b == (App {
                    query: b.query,
                    mode: if done { Mode::Normal } else { a.mode },
                    selected: if done { 0 } else { a.selected },
                    ..a
                })
            },
            Mode::Category => save is None && exists|done: bool| {
                &&& text_step(a.category_filter@, b.category_filter@, key.code, done)
                &&& b == (App {
                    category_filter: b.category_filter,
                    mode: if done { Mode::Normal } else { a.mode },
                    selected: if done { 0 } else { a.selected },
                    ..a
                })
            },
            Mode::Editing { mode, field } => editing_step(a, b, key.code, mode, field, save),
            Mode::ConfirmDelete => match key.code {
                KeyCode::Char(c) => if c == 'y' || c == 'Y' {
                    App::confirmed_delete(a, b, save)
                } else {
                    App::cancelled(a, b) && save is None
                },
                _ => App::cancelled(a, b) && save is None,
            },
        }
    }
}

/// The key would make a backspace step before the start of an empty field.
pub open spec fn key_underflows(a: App, key: KeyPress) -> bool {
    &&& !is_quit_chord(key)
    &&& a.mode is Editing
    &&& key.code == KeyCode::Backspace
    &&& a.backspace_underflows()
}

/// Whether `update` can take this key in this state.
pub fn accepts_key(app: &App, key: KeyPress) -> (r: bool)
    ensures
        r == !key_underflows(*app, key),
{
    let quit = key.control_only && (key.code == KeyCode::Char('c') || key.code == KeyCode::Char('C'));
    let editing = match app.mode {
        Mode::Editing { .. } => true,
        _ => false,
    };
    let backspace = match key.code {
        KeyCode::Backspace => true,
        _ => false,
    };
    if quit || !editing || !backspace {
        return true;
    }
    !(app.form_cursor > 0 && app.active_field().is_some() && app.active_field_len() == 0)
}

/// Handles one key press. When the key stored or deleted a record, the result is the
/// message to show once the vault has been saved.
pub fn update(app: &mut App, key: KeyPress) -> (save: Option<String>)
    requires
        !key_underflows(*old(app), key),
    ensures
        key_step(*old(app), *final(app), key, save),
        old(app).cursor_in_range() ==> final(app).cursor_in_range(),
{
    if key.control_only && (key.code == KeyCode::Char('c') || key.code == KeyCode::Char('C')) {
        app.quit();
        return None;
    }
    match app.mode {
        Mode::Normal => {
            update_normal(app, key);
            None
        },
        Mode::Search => {
            let done = update_text(&mut app.query, key);
            if done {
                app.mode = Mode::Normal;
                app.selected = 0;
            }
            None
        },
        Mode::Category => {
            let done = update_text(&mut app.category_filter, key);
            if done {
                app.mode = Mode::Normal;
                app.selected = 0;
            }
            None
        },
        Mode::Editing { mode, field } => update_editing(app, key, mode, field),
        Mode::ConfirmDelete => update_confirm_delete(app, key),
    }
}

fn update_normal(app: &mut App, key: KeyPress)
    requires
        old(app).mode == Mode::Normal,
    ensures
        normal_step(*old(app), *final(app), key.code),
        old(app).cursor_in_range() ==> final(app).cursor_in_range(),
{
    match key.code {
        KeyCode::Esc => app.quit(),
        KeyCode::Down => app.move_down(),
        KeyCode::Up => app.move_up(),
        KeyCode::Char(c) => {
            if c == 'q' {
                app.quit();
            } else if c == 'j' {
                app.move_down();
            } else if c == 'k' {
                app.move_up();
            } else if c == 'a' {
                app.start_add();
            } else if c == 'e' {
                app.start_edit();
            } else if c == 'd' {
                app.start_delete();
            } else if c == '/' {
                app.mode = Mode::Search;
                app.status = owned("输入搜索关键字");
            } else if c == 'c' {
                app.mode = Mode::Category;
                app.status = owned("输入分类过滤；清空表示全部分类");
            } else if c == 'v' {
                app.show_password = !app.show_password;
            }
        },
        _ => {},
    }
}

/// One key typed into a text input; true when the key finishes the input.
pub fn update_text(value: &mut String, key: KeyPress) -> (done: bool)
    ensures
        text_step(old(value)@, final(value)@, key.code, done),
{
    match key.code {
        KeyCode::Esc | KeyCode::Enter => return true,
        KeyCode::Backspace => {
            pop_char(value);
        },
        KeyCode::Char(ch) => push_char(value, ch),
        _ => {},
    }
    false
}

fn update_editing(app: &mut App, key: KeyPress, edit_mode: EditMode, field: usize) -> (save: Option<String>)
    requires
        old(app).mode == (Mode::Editing { mode: edit_mode, field }),
        key.code == KeyCode::Backspace ==> !old(app).backspace_underflows(),
    ensures
        editing_step(*old(app), *final(app), key.code, edit_mode, field, save),
        old(app).cursor_in_range() ==> final(app).cursor_in_range(),
{
    match key.code {
        KeyCode::Esc => {
            app.cancel_mode();
            None
        },
        KeyCode::Enter => app.save_form(edit_mode),
        KeyCode::Tab | KeyCode::Down => {
            app.mode = Mode::Editing { mode: edit_mode, field: (field % FIELD_COUNT + 1) % FIELD_COUNT };
            app.move_form_cursor_to_end();
            None
        },
        KeyCode::BackTab | KeyCode::Up => {
            app.mode = Mode::Editing {
                mode: edit_mode,
                field: if field == 0 { FIELD_COUNT - 1 } else { field - 1 },
            };
            app.move_form_cursor_to_end();
            None
        },
        KeyCode::Left => {
            app.move_form_cursor_left();
            None
        },
        KeyCode::Right => {
            app.move_form_cursor_right();
            None
        },
        KeyCode::Home => {
            app.form_cursor = 0;
            None
        },
        KeyCode::End => {
            app.move_form_cursor_to_end();
            None
        },
        KeyCode::Backspace => {
            app.backspace_form_char();
            None
        },
        KeyCode::Char(ch) => {
            app.insert_form_char(ch);
            None
        },
        _ => {
            app.clamp_form_cursor();
            None
        },
    }
}

fn update_confirm_delete(app: &mut App, key: KeyPress) -> (save: Option<String>)
    requires
        old(app).mode == Mode::ConfirmDelete,
    ensures
        match key.code {
            KeyCode::Char(c) => if c == 'y' || c == 'Y' {
                App::confirmed_delete(*old(app), *final(app), save)
            } else {
                App::cancelled(*old(app), *final(app)) && save is None
            },
            _ => App::cancelled(*old(app), *final(app)) && save is None,
        },
        old(app).cursor_in_range() ==> final(app).cursor_in_range(),
{
    match key.code {
        KeyCode::Char(c) => {
            if c == 'y' || c == 'Y' {
                app.confirm_delete()
            } else {
                app.cancel_mode();
                None
            }
        },
        _ => {
            app.cancel_mode();
            None
        },
    }
}

/// Tab and Shift-Tab undo each other on the form's fields, and five Tabs come back to
/// the same field.
pub proof fn lemma_field_navigation(field: usize)
    requires
        field < FIELD_COUNT,
    ensures
        previous_field(next_field(field)) == field,
        next_field(previous_field(field)) == field,
        next_field(next_field(next_field(next_field(next_field(field))))) == field,
{
}

/// What each key does while browsing (Control-C aside): `k`/Up go one row up (stopping
/// at 0), `j`/Down go one visible row down (stopping on the last visible row), `q`/Esc
/// quit, `v` flips password visibility, `/` and `c` open the search and category inputs,
/// `a` opens an empty form, `e` opens the form on the record of the selected visible row,
/// `d` asks to delete it; records are never changed and nothing is saved.
pub proof fn lemma_browsing_keys(a: App, b: App, key: KeyPress, save: Option<String>)
    requires
        key_step(a, b, key, save),
        a.mode == Mode::Normal,
        !is_quit_chord(key),
        a.entries@.len() <= usize::MAX,
    ensures
        save is None,
        b.entries == a.entries,
        key.code == KeyCode::Char('k') || key.code == KeyCode::Up ==> b == (App {
            selected: if a.selected > 0 { (a.selected - 1) as usize } else { 0 },
            ..a
        }),
        key.code == KeyCode::Char('j') || key.code == KeyCode::Down ==> {
            &&& b == (App { selected: b.selected, ..a })
            &&& a.visible().len() > 0 ==> b.selected < a.visible().len()
            &&& a.selected + 1 < a.visible().len() ==> b.selected == a.selected + 1
            &&& a.visible().len() == 0 ==> b.selected == a.selected
        },
        key.code == KeyCode::Char('q') || key.code == KeyCode::Esc ==> b == (App { should_quit: true, ..a }),
        key.code == KeyCode::Char('v') ==> b == (App { show_password: !a.show_password, ..a }),
        key.code == KeyCode::Char('/') ==> b == (App { mode: Mode::Search, status: b.status, ..a }),
        key.code == KeyCode::Char('c') ==> b == (App { mode: Mode::Category, status: b.status, ..a }),
        key.code == KeyCode::Char('a') ==> {
            &&& b.mode == (Mode::Editing { mode: EditMode::Add, field: 0 })
            &&& b.form_cursor == 0
            &&& b.form@.category.len() == 0 && b.form@.title.len() == 0 && b.form@.username.len() == 0
            &&& b.form@.password.len() == 0 && b.form@.notes.len() == 0
        },
        key.code == KeyCode::Char('e') && a.selected < a.visible().len() ==> {
            &&& b.form == a.entries@[a.visible()[a.selected as int] as int]
            &&& b.mode == (Mode::Editing { mode: EditMode::Edit(a.visible()[a.selected as int]), field: 0 })
        },
        key.code == KeyCode::Char('d') && a.selected < a.visible().len() ==> b.mode == Mode::ConfirmDelete,
        (key.code == KeyCode::Char('e') || key.code == KeyCode::Char('d')) && a.selected >= a.visible().len() ==> b == a,
{
    if key.code == KeyCode::Char('j') || key.code == KeyCode::Down {
        crate::app::lemma_move_down_stays_on_visible_rows(a, b);
    }
    if key.code == KeyCode::Char('e') {
        crate::app::lemma_edit_opens_selected_row(a, b);
    }
}

/// Confirming with `y` or `Y` deletes the record on the selected visible row; any other
/// key cancels and keeps every record.
pub proof fn lemma_confirm_keys(a: App, b: App, key: KeyPress, save: Option<String>)
    requires
        key_step(a, b, key, save),
        a.mode == Mode::ConfirmDelete,
        !is_quit_chord(key),
        a.entries@.len() <= usize::MAX,
    ensures
        b.mode == Mode::Normal,
        (key.code == KeyCode::Char('y') || key.code == KeyCode::Char('Y')) && a.selected < a.visible().len() ==> {
            let k = a.visible()[a.selected as int] as int;
            &&& b.entries@ == a.entries@.remove(k)
            &&& save is Some
        },
        !(key.code == KeyCode::Char('y') || key.code == KeyCode::Char('Y')) ==> b.entries == a.entries && save is None,
{
    if key.code == KeyCode::Char('y') || key.code == KeyCode::Char('Y') {
        crate::app::lemma_delete_removes_selected_row(a, b, save);
    }
}

/// In the search and category inputs, a character is appended, Backspace drops the last
/// character, Enter and Esc return to browsing from the first row; records never change.
pub proof fn lemma_text_input_keys(a: App, b: App, key: KeyPress, save: Option<String>)
    requires
        key_step(a, b, key, save),
        a.mode == Mode::Search || a.mode == Mode::Category,
        !is_quit_chord(key),
    ensures
        save is None,
        b.entries == a.entries,
        key.code == KeyCode::Enter || key.code == KeyCode::Esc ==> b.mode == Mode::Normal && b.selected == 0,
        a.mode == Mode::Search ==> b.category_filter == a.category_filter,
        a.mode == Mode::Category ==> b.query == a.query,
        forall|c: char| key.code == KeyCode::Char(c) ==> {
            &&& b.mode == a.mode
            &&& a.mode == Mode::Search ==> b.query@ == a.query@.push(c)
            &&& a.mode == Mode::Category ==> b.category_filter@ == a.category_filter@.push(c)
        },
        key.code == KeyCode::Backspace && a.mode == Mode::Search && a.query@.len() > 0 ==> b.query@
            == a.query@.drop_last(),
{
}

/// While the form is open, Tab/Down and Shift-Tab/Up go to the next and previous field
/// (wrapping around the five fields) with the cursor at the end of that field, Esc closes
/// the form, and only Enter can store a record.
pub proof fn lemma_form_keys(a: App, b: App, key: KeyPress, save: Option<String>, m: EditMode, field: usize)
    requires
        key_step(a, b, key, save),
        a.mode == (Mode::Editing { mode: m, field }),
        !is_quit_chord(key),
    ensures
        key.code != KeyCode::Enter ==> save is None && b.entries == a.entries,
        key.code == KeyCode::Tab || key.code == KeyCode::Down ==> {
            &&& b.mode == (Mode::Editing { mode: m, field: ((field + 1) % 5) as usize })
            &&& b.form == a.form
            &&& b.form_cursor == b.active_len() as usize
        },
        key.code == KeyCode::BackTab || key.code == KeyCode::Up ==> {
            &&& b.mode == (Mode::Editing { mode: m, field: if field == 0 { 4 } else { (field - 1) as usize } })
            &&& b.form == a.form
            &&& b.form_cursor == b.active_len() as usize
        },
        key.code == KeyCode::Esc ==> b.mode == Mode::Normal && b.form == a.form,
        key.code == KeyCode::Home ==> b == (App { form_cursor: 0, ..a }),
{
}

} // verus!
