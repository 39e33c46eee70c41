use walletui::app::{App, EditMode, Field, Mode};
use walletui::storage::PasswordEntry;

fn entry(category: &str, title: &str, username: &str, password: &str, notes: &str) -> PasswordEntry {
    PasswordEntry {
        category: category.into(),
        title: title.into(),
        username: username.into(),
        password: password.into(),
        notes: notes.into(),
    }
}

fn browsing(entries: Vec<PasswordEntry>) -> App {
    App {
        entries,
        selected: 0,
        query: String::new(),
        category_filter: String::new(),
        mode: Mode::Normal,
        form: PasswordEntry::default(),
        form_cursor: 0,
        show_password: false,
        status: String::new(),
        animation_tick: 0,
        should_quit: false,
    }
}

#[test]
fn fuzzy_filter_matches_title_category_username_and_notes() {
    let mut app = App {
        entries: vec![
            PasswordEntry {
                category: "work".into(),
                title: "GitHub".into(),
                username: "alice".into(),
                password: "secret".into(),
                notes: "recovery codes".into(),
            },
            PasswordEntry {
                category: "bank".into(),
                title: "Card".into(),
                username: "bob".into(),
                password: "pin".into(),
                notes: String::new(),
            },
        ],
        selected: 0,
        query: "git".into(),
        category_filter: String::new(),
        mode: Mode::Normal,
        form: PasswordEntry::default(),
        form_cursor: 0,
        show_password: false,
        status: String::new(),
        animation_tick: 0,
        should_quit: false,
    };
    assert_eq!(app.filtered_indices(), vec![0]);

    app.query = "bob".into();
    assert_eq!(app.filtered_indices(), vec![1]);

    app.query.clear();
    app.category_filter = "wor".into();
    assert_eq!(app.filtered_indices(), vec![0]);
}

#[test]
fn form_cursor_inserts_and_deletes_in_middle() {
    let mut app = App {
        entries: Vec::new(),
        selected: 0,
        query: String::new(),
        category_filter: String::new(),
        mode: Mode::Editing {
            mode: EditMode::Add,
            field: 1,
        },
        form: PasswordEntry {
            title: "ab".into(),
            ..PasswordEntry::default()
        },
        form_cursor: 1,
        show_password: false,
        status: String::new(),
        animation_tick: 0,
        should_quit: false,
    };

    app.insert_form_char('中');
    assert_eq!(app.form.title, "a中b");
    assert_eq!(app.form_cursor, 2);

    app.backspace_form_char();
    assert_eq!(app.form.title, "ab");
    assert_eq!(app.form_cursor, 1);
}

#[test]
fn filter_matches_notes_and_ignores_case() {
    let mut app = browsing(vec![
        entry("work", "GitHub", "alice", "secret", "Recovery Codes"),
        entry("Bank", "Card", "bob", "pin", ""),
        entry("work", "Mail", "carol", "x", "codes here"),
    ]);
    app.query = "CODES".into();
    assert_eq!(app.filtered_indices(), vec![0, 2]);
    app.query.clear();
    app.category_filter = "BANK".into();
    assert_eq!(app.filtered_indices(), vec![1]);
    app.category_filter = "work".into();
    app.query = "mail".into();
    assert_eq!(app.filtered_indices(), vec![2]);
    app.query = "pin".into();
    assert_eq!(app.filtered_indices(), Vec::<usize>::new());
}

#[test]
fn selection_moves_within_visible_rows() {
    let mut app = browsing(vec![entry("a", "1", "", "", ""), entry("a", "2", "", "", "")]);
    app.move_down();
    assert_eq!(app.selected, 1);
    app.move_down();
    assert_eq!(app.selected, 1);
    assert_eq!(app.selected_entry_index(), Some(1));
    assert_eq!(app.selected_entry().map(|e| e.title.clone()), Some("2".to_string()));
    app.move_up();
    app.move_up();
    assert_eq!(app.selected, 0);
    app.query = "zzz".into();
    assert_eq!(app.selected_entry_index(), None);
    assert!(app.selected_entry().is_none());
}

#[test]
fn new_app_reports_vault_path() {
    let app = App::new("/tmp/v", vec![entry("a", "b", "c", "d", "e")]);
    assert_eq!(app.status, "Vault: /tmp/v");
    assert_eq!(app.mode, Mode::Normal);
    assert_eq!(app.entries.len(), 1);
}

#[test]
fn tick_wraps_around() {
    let mut app = browsing(Vec::new());
    app.animation_tick = u64::MAX;
    app.tick();
    assert_eq!(app.animation_tick, 0);
    app.tick();
    assert_eq!(app.animation_tick, 1);
    app.quit();
    assert!(app.should_quit);
}

#[test]
fn save_form_refuses_empty_title_and_keeps_form_open() {
    let mut app = browsing(Vec::new());
    app.start_add();
    assert_eq!(app.status, "新增密码：Tab 切换字段，Enter 保存，Esc 取消");
    app.form.title = "   ".into();
    let save = app.save_form(EditMode::Add);
    assert!(save.is_none());
    assert_eq!(app.status, "名称不能为空");
    assert_eq!(app.mode, Mode::Editing { mode: EditMode::Add, field: 0 });
    assert!(app.entries.is_empty());
}

#[test]
fn save_form_adds_trimmed_record_with_default_category() {
    let mut app = browsing(vec![entry("x", "first", "", "", "")]);
    app.start_add();
    app.form = entry("  ", " Site ", " me ", " p w ", " n ");
    let save = app.save_form(EditMode::Add);
    assert_eq!(save.as_deref(), Some("已新增密码"));
    assert_eq!(app.entries.len(), 2);
    assert_eq!(app.entries[1], entry("默认", "Site", "me", " p w ", "n"));
    assert_eq!(app.selected, 1);
    assert_eq!(app.mode, Mode::Normal);
    app.finish_save(save.unwrap(), Ok(()));
    assert_eq!(app.status, "已新增密码");
}

#[test]
fn edit_replaces_selected_record() {
    let mut app = browsing(vec![entry("a", "one", "", "", ""), entry("b", "two", "", "", "")]);
    app.selected = 1;
    app.start_edit();
    assert_eq!(app.mode, Mode::Editing { mode: EditMode::Edit(1), field: 0 });
    assert_eq!(app.form_cursor, 1);
    assert_eq!(app.status, "编辑密码：Tab 切换字段，Enter 保存，Esc 取消");
    app.form.title = "three".into();
    let save = app.save_form(EditMode::Edit(1));
    assert_eq!(save.as_deref(), Some("已更新密码"));
    assert_eq!(app.entries[1].title, "three");
    assert_eq!(app.entries[0].title, "one");
    assert!(app.save_form(EditMode::Edit(9)).is_none());
}

#[test]
fn delete_removes_selected_record() {
    let mut app = browsing(vec![entry("a", "one", "", "", ""), entry("b", "two", "", "", "")]);
    app.selected = 1;
    app.start_delete();
    assert_eq!(app.mode, Mode::ConfirmDelete);
    assert_eq!(app.status, "确认删除？按 y 删除，其他键取消");
    let save = app.confirm_delete();
    assert_eq!(save.as_deref(), Some("已删除：two"));
    assert_eq!(app.entries.len(), 1);
    assert_eq!(app.selected, 0);
    assert_eq!(app.mode, Mode::Normal);
    app.finish_save("ok".to_string(), Err("disk full".to_string()));
    assert_eq!(app.status, "保存失败：disk full");
    app.cancel_mode();
    assert_eq!(app.status, "");
}

#[test]
fn cursor_moves_stay_inside_field() {
    let mut app = browsing(Vec::new());
    app.mode = Mode::Editing { mode: EditMode::Add, field: 2 };
    app.form.username = "héllo".into();
    assert_eq!(app.active_field(), Some(Field::Username));
    assert_eq!(app.active_field_len(), 5);
    app.form_cursor = 9;
    app.clamp_form_cursor();
    assert_eq!(app.form_cursor, 5);
    app.move_form_cursor_right();
    assert_eq!(app.form_cursor, 5);
    app.move_form_cursor_left();
    assert_eq!(app.form_cursor, 4);
    app.form_cursor = 0;
    app.move_form_cursor_left();
    assert_eq!(app.form_cursor, 0);
    app.move_form_cursor_to_end();
    assert_eq!(app.form_cursor, 5);
    app.insert_form_char('!');
    assert_eq!(app.form.username, "héllo!");
    app.form_cursor = 2;
    app.backspace_form_char();
    assert_eq!(app.form.username, "hllo!");
    assert_eq!(app.form_cursor, 1);
}

#[test]
fn edit_field_mut_reaches_the_named_field() {
    let mut app = browsing(Vec::new());
    app.edit_field_mut(Field::Notes).push_str("memo");
    assert_eq!(app.form.notes, "memo");
    assert_eq!(Field::Notes.label(), "备注");
    assert_eq!(Field::Category.label(), "分类");
    assert_eq!(Field::at(3), Some(Field::Password));
    assert_eq!(Field::at(5), None);
}
