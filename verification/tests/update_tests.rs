use walletui::app::{App, EditMode, Mode};
use walletui::storage::PasswordEntry;
use walletui::update::{accepts_key, update, update_text, KeyCode, KeyPress};

fn key(code: KeyCode) -> KeyPress {
    KeyPress { code, control_only: false }
}

fn ch(c: char) -> KeyPress {
    key(KeyCode::Char(c))
}

fn app_with(titles: &[&str]) -> App {
    let entries = titles
        .iter()
        .map(|t| PasswordEntry {
            category: "c".into(),
            title: t.to_string(),
            ..PasswordEntry::default()
        })
        .collect();
    App::new("vault", entries)
}

#[test]
fn control_c_quits_from_any_mode() {
    let mut app = app_with(&[]);
    app.mode = Mode::Search;
    let save = update(&mut app, KeyPress { code: KeyCode::Char('C'), control_only: true });
    assert!(save.is_none());
    assert!(app.should_quit);
}

#[test]
fn browsing_keys() {
    let mut app = app_with(&["a", "b"]);
    update(&mut app, ch('j'));
    assert_eq!(app.selected, 1);
    update(&mut app, key(KeyCode::Up));
    assert_eq!(app.selected, 0);
    update(&mut app, ch('v'));
    assert!(app.show_password);
    update(&mut app, ch('/'));
    assert_eq!(app.mode, Mode::Search);
    assert_eq!(app.status, "输入搜索关键字");
    update(&mut app, ch('b'));
    assert_eq!(app.query, "b");
    update(&mut app, key(KeyCode::Backspace));
    assert_eq!(app.query, "");
    update(&mut app, ch('z'));
    app.selected = 1;
    update(&mut app, key(KeyCode::Enter));
    assert_eq!(app.mode, Mode::Normal);
    assert_eq!(app.selected, 0);
    update(&mut app, ch('c'));
    assert_eq!(app.mode, Mode::Category);
    assert_eq!(app.status, "输入分类过滤；清空表示全部分类");
    update(&mut app, key(KeyCode::Esc));
    assert_eq!(app.mode, Mode::Normal);
    update(&mut app, ch('q'));
    assert!(app.should_quit);
}

#[test]
fn add_record_through_keys() {
    let mut app = app_with(&[]);
    update(&mut app, ch('a'));
    assert_eq!(app.mode, Mode::Editing { mode: EditMode::Add, field: 0 });
    update(&mut app, ch('w'));
    update(&mut app, key(KeyCode::Tab));
    for c in "Site".chars() {
        update(&mut app, ch(c));
    }
    update(&mut app, key(KeyCode::Home));
    assert_eq!(app.form_cursor, 0);
    update(&mut app, key(KeyCode::End));
    assert_eq!(app.form_cursor, 4);
    let save = update(&mut app, key(KeyCode::Enter));
    assert_eq!(save.as_deref(), Some("已新增密码"));
    assert_eq!(app.entries.len(), 1);
    assert_eq!(app.entries[0].category, "w");
    assert_eq!(app.entries[0].title, "Site");
    assert_eq!(app.mode, Mode::Normal);
}

#[test]
fn tab_and_backtab_cycle_fields() {
    let mut app = app_with(&[]);
    update(&mut app, ch('a'));
    for expected in [1, 2, 3, 4, 0] {
        update(&mut app, key(KeyCode::Tab));
        assert_eq!(app.mode, Mode::Editing { mode: EditMode::Add, field: expected });
    }
    update(&mut app, key(KeyCode::BackTab));
    assert_eq!(app.mode, Mode::Editing { mode: EditMode::Add, field: 4 });
    update(&mut app, key(KeyCode::Down));
    assert_eq!(app.mode, Mode::Editing { mode: EditMode::Add, field: 0 });
    update(&mut app, key(KeyCode::Esc));
    assert_eq!(app.mode, Mode::Normal);
    assert_eq!(app.status, "");
}

#[test]
fn delete_needs_confirmation() {
    let mut app = app_with(&["a", "b"]);
    update(&mut app, ch('d'));
    assert_eq!(app.mode, Mode::ConfirmDelete);
    update(&mut app, ch('n'));
    assert_eq!(app.mode, Mode::Normal);
    assert_eq!(app.entries.len(), 2);
    update(&mut app, ch('d'));
    let save = update(&mut app, ch('Y'));
    assert_eq!(save.as_deref(), Some("已删除：a"));
    assert_eq!(app.entries.len(), 1);
}

#[test]
fn edit_keys_move_cursor_and_text() {
    let mut app = app_with(&["abc"]);
    update(&mut app, ch('e'));
    update(&mut app, key(KeyCode::Tab));
    assert_eq!(app.form_cursor, 3);
    update(&mut app, key(KeyCode::Left));
    update(&mut app, key(KeyCode::Backspace));
    assert_eq!(app.form.title, "ac");
    update(&mut app, key(KeyCode::Right));
    assert_eq!(app.form_cursor, 2);
    app.form_cursor = 10;
    update(&mut app, key(KeyCode::Other));
    assert_eq!(app.form_cursor, 2);
    let save = update(&mut app, key(KeyCode::Enter));
    assert_eq!(save.as_deref(), Some("已更新密码"));
    assert_eq!(app.entries[0].title, "ac");
}

#[test]
fn backspace_on_empty_field_past_its_end_is_refused() {
    let mut app = app_with(&[]);
    update(&mut app, ch('a'));
    app.form_cursor = 3;
    assert!(!accepts_key(&app, key(KeyCode::Backspace)));
    assert!(accepts_key(&app, ch('x')));
    assert!(accepts_key(&app, KeyPress { code: KeyCode::Char('c'), control_only: true }));
}

#[test]
fn text_input_keys() {
    let mut s = String::from("ab");
    assert!(!update_text(&mut s, key(KeyCode::Backspace)));
    assert_eq!(s, "a");
    assert!(!update_text(&mut s, ch('中')));
    assert_eq!(s, "a中");
    assert!(update_text(&mut s, key(KeyCode::Enter)));
    assert!(update_text(&mut s, key(KeyCode::Esc)));
    assert!(!update_text(&mut s, key(KeyCode::Left)));
    assert_eq!(s, "a中");
    let mut empty = String::new();
    assert!(!update_text(&mut empty, key(KeyCode::Backspace)));
    assert_eq!(empty, "");
}
