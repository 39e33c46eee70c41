use vstd::prelude::*;

use crate::storage::{EntryView, PasswordEntry, empty_entry, trimmed_entry, views};
use crate::text::{
    char_to_byte_index, contains, lemma_encode_concat, lemma_insert_at_char, lemma_prefix_boundary, lemma_remove_char,
    lowercase, owned, str_contains, string_insert, string_remove_range, to_lowercase, trim, trim_str,
};

verus! {

/// The fields of the edit form, in the order the form shows them.
#[derive(Debug, Clone, Copy, PartialEq, Eq)]
pub enum Field {
    Category,
    Title,
    Username,
    Password,
    Notes,
}

/// How many fields the form has.
pub const FIELD_COUNT: usize = 5;

/// The field at a position of the form, if there is one.
pub open spec fn field_at(index: int) -> Option<Field> {
    if index == 0 {
        Some(Field::Category)
    } else if index == 1 {
        Some(Field::Title)
    } else if index == 2 {
        Some(Field::Username)
    } else if index == 3 {
        Some(Field::Password)
    } else if index == 4 {
        Some(Field::Notes)
    } else {
        None
    }
}

/// The text of one field of a record.
pub open spec fn field_text(e: EntryView, f: Field) -> Seq<char> {
    match f {
        Field::Category => e.category,
        Field::Title => e.title,
        Field::Username => e.username,
        Field::Password => e.password,
        Field::Notes => e.notes,
    }
}

/// The record with one field replaced.
pub open spec fn with_field(e: PasswordEntry, f: Field, s: String) -> PasswordEntry {
    match f {
        Field::Category => PasswordEntry { category: s, ..e },
        Field::Title => PasswordEntry { title: s, ..e },
        Field::Username => PasswordEntry { username: s, ..e },
        Field::Password => PasswordEntry { password: s, ..e },
        Field::Notes => PasswordEntry { notes: s, ..e },
    }
}

/// One field of a record, as a string value.
pub open spec fn field_string(e: PasswordEntry, f: Field) -> String {
    match f {
        Field::Category => e.category,
        Field::Title => e.title,
        Field::Username => e.username,
        Field::Password => e.password,
        Field::Notes => e.notes,
    }
}

impl Field {
    /// The label shown in front of the field.
    pub open spec fn label_text(self) -> Seq<char> {
        match self {
            Field::Category => "分类"@,
            Field::Title => "名称"@,
            Field::Username => "账号"@,
            Field::Password => "密码"@,
            Field::Notes => "备注"@,
        }
    }

    /// The label shown in front of the field.
    pub fn label(self) -> (r: &'static str)
        ensures
            r@ == self.label_text(),
    {
        match self {
            Field::Category => "分类",
            Field::Title => "名称",
            Field::Username => "账号",
            Field::Password => "密码",
            Field::Notes => "备注",
        }
    }

    /// The field at position `index` of the form.
    pub fn at(index: usize) -> (r: Option<Field>)
        ensures
            r == field_at(index as int),
    {
        if index == 0 {
            Some(Field::Category)
        } else if index == 1 {
            Some(Field::Title)
        } else if index == 2 {
            Some(Field::Username)
        } else if index == 3 {
            Some(Field::Password)
        } else if index == 4 {
            Some(Field::Notes)
        } else {
            None
        }
    }
}

/// Whether the form adds a record or edits the record at an index.
#[derive(Debug, Clone, Copy, PartialEq, Eq)]
pub enum EditMode {
    Add,
    Edit(usize),
}

/// What the keyboard currently drives.
#[derive(Debug, Clone, Copy, PartialEq, Eq)]
pub enum Mode {
    Normal,
    Search,
    Category,
    Editing { mode: EditMode, field: usize },
    ConfirmDelete,
}

/// The state of the password manager.
#[derive(Debug)]
pub struct App {
    pub entries: Vec<PasswordEntry>,
    pub selected: usize,
    pub query: String,
    pub category_filter: String,
    pub mode: Mode,
    pub form: PasswordEntry,
    pub form_cursor: usize,
    pub show_password: bool,
    pub status: String,
    pub animation_tick: u64,
    pub should_quit: bool,
}

/// A record matches the filters: its category holds the category filter, and one of
/// its category, title, username or notes holds the query; both compared lowercased,
/// and an empty filter matches everything.
pub open spec fn entry_matches(e: EntryView, query: Seq<char>, category: Seq<char>) -> bool {
    &&& (category.len() == 0 || contains(lowercase(e.category), category))
    &&& (query.len() == 0 || contains(lowercase(e.category), query) || contains(lowercase(e.title), query)
        || contains(lowercase(e.username), query) || contains(lowercase(e.notes), query))
}

/// The positions, among the first `n` records, of those that match, in order.
pub open spec fn matching_indices(es: Seq<EntryView>, query: Seq<char>, category: Seq<char>, n: nat) -> Seq<usize>
    decreases n,
{
    if n == 0 {
        Seq::empty()
    } else {
        let prev = matching_indices(es, query, category, (n - 1) as nat);
        if entry_matches(es[n - 1], query, category) {
            prev.push((n - 1) as usize)
        } else {
            prev
        }
    }
}

/// The visible positions are exactly the matching ones, increasing and in range.
pub proof fn lemma_matching_indices(es: Seq<EntryView>, query: Seq<char>, category: Seq<char>, n: nat)
    requires
        n <= es.len(),
        n <= usize::MAX,
    ensures
        forall|k: int| 0 <= k < matching_indices(es, query, category, n).len()
            ==> #[trigger] matching_indices(es, query, category, n)[k] < n,
        forall|k: int, l: int| 0 <= k < l < matching_indices(es, query, category, n).len()
            ==> #[trigger] matching_indices(es, query, category, n)[k] < #[trigger] matching_indices(es, query, category, n)[l],
        forall|i: int| 0 <= i < n ==> (entry_matches(es[i], query, category)
            <==> matching_indices(es, query, category, n).contains(i as usize)),
    decreases n,
{
    if n > 0 {
        let m = (n - 1) as nat;
        lemma_matching_indices(es, query, category, m);
        let prev = matching_indices(es, query, category, m);
        let cur = matching_indices(es, query, category, n);
        assert forall|i: int| 0 <= i < n implies (entry_matches(es[i], query, category) <==> cur.contains(i as usize)) by {
            if i < m {
                if entry_matches(es[m as int], query, category) {
                    assert(cur == prev.push(m as usize));
                    if prev.contains(i as usize) {
                        let k = choose|k: int| 0 <= k < prev.len() && prev[k] == i as usize;
                        assert(cur[k] == i as usize);
                    }
                    if cur.contains(i as usize) {
                        let k = choose|k: int| 0 <= k < cur.len() && cur[k] == i as usize;
                        if k < prev.len() {
                            assert(prev[k] == i as usize);
                        }
                    }
                }
            } else {
                if entry_matches(es[m as int], query, category) {
                    assert(cur[prev.len() as int] == m as usize);
                } else {
                    if cur.contains(i as usize) {
                        let k = choose|k: int| 0 <= k < cur.len() && cur[k] == i as usize;
                        assert(prev[k] < m);
                    }
                }
            }
        }
    }
}

/// The status line after a successful add.
pub open spec fn status_added() -> Seq<char> {
    "已新增密码"@
}

impl App {
    /// A fresh state over the records loaded from the vault at `vault_path`.
    pub fn new(vault_path: &str, entries: Vec<PasswordEntry>) -> (r: App)
        ensures
            r.entries == entries,
            r.selected == 0,
            r.query@.len() == 0,
            r.category_filter@.len() == 0,
            r.mode == Mode::Normal,
            r.form@ == empty_entry(),
            r.form_cursor == 0,
            !r.show_password,
            r.status@ == "Vault: "@ + vault_path@,
            r.animation_tick == 0,
            !r.should_quit,
    {
        let mut status = owned("Vault: ");
        status.append(vault_path);
        App {
            entries,
            selected: 0,
            query: String::new(),
            category_filter: String::new(),
            mode: Mode::Normal,
            form: PasswordEntry::default(),
            form_cursor: 0,
            show_password: false,
            status,
            animation_tick: 0,
            should_quit: false,
        }
    }

    /// Advances the animation clock by one, wrapping around.
    pub fn tick(&mut self)
        ensures
            Self::ticked(*old(self), *final(self)),
    {
        self.animation_tick = self.animation_tick.wrapping_add(1);
    }

    /// Asks the main loop to stop.
    pub fn quit(&mut self)
        ensures
            Self::quitted(*old(self), *final(self)),
    {
        self.should_quit = true;
    }

    /// The positions of the records the filters let through, in order.
    pub open spec fn visible(&self) -> Seq<usize> {
        matching_indices(
            views(self.entries@),
            lowercase(self.query@),
            lowercase(self.category_filter@),
            self.entries@.len(),
        )
    }

    /// The record position under the selection, if the selection is on a visible row.
    pub open spec fn selected_index(&self) -> Option<usize> {
        if self.selected < self.visible().len() {
            Some(self.visible()[self.selected as int])
        } else {
            None
        }
    }

    /// The animation clock went up by one, wrapping around; nothing else changed.
    pub open spec fn ticked(a: App, b: App) -> bool {
        b == (App {
            animation_tick: if a.animation_tick == u64::MAX { 0 } else { (a.animation_tick + 1) as u64 },
            ..a
        })
    }

    /// The quit flag is set; nothing else changed.
    pub open spec fn quitted(a: App, b: App) -> bool {
        b == (App { should_quit: true, ..a })
    }

    /// The selection went one visible row down, stopping at the last one.
    pub open spec fn moved_down(a: App, b: App) -> bool {
        b == (App {
            selected: if a.visible().len() > 0 {
                if a.selected + 1 < a.visible().len() {
                    (a.selected + 1) as usize
                } else {
                    (a.visible().len() - 1) as usize
                }
            } else {
                a.selected
            },
            ..a
        })
    }

    /// The selection went one row up, stopping at the first.
    pub open spec fn moved_up(a: App, b: App) -> bool {
        b == (App {
            selected: if a.selected > 0 { (a.selected - 1) as usize } else { 0 },
            ..a
        })
    }

    /// The form opened empty for a new record.
    pub open spec fn started_add(a: App, b: App) -> bool {
        &&& (b == (App {
                form: b.form,
                form_cursor: 0,
                mode: Mode::Editing { mode: EditMode::Add, field: 0 },
                status: b.status,
                ..a
            }))
        &&& (b.form@ == empty_entry())
        &&& (b.status@ == "新增密码：Tab 切换字段，Enter 保存，Esc 取消"@)
    }

    /// The form opened on a copy of the selected record (when one is selected).
    pub open spec fn started_edit(a: App, b: App) -> bool {
        match a.selected_index() {
            None => b == a,
            Some(i) => {
                &&& b == (App {
                    form: a.entries@[i as int],
                    form_cursor: a.entries@[i as int].category@.len() as usize,
                    mode: Mode::Editing { mode: EditMode::Edit(i), field: 0 },
                    status: b.status,
                    ..a
                })
                &&& b.status@ == "编辑密码：Tab 切换字段，Enter 保存，Esc 取消"@
            },
        }
    }

    /// Deletion awaits confirmation (when a record is selected).
    pub open spec fn started_delete(a: App, b: App) -> bool {
        &&& (a.selected_index() is None ==> b == a)
        &&& (a.selected_index() is Some ==> {
                &&& b == (App { mode: Mode::ConfirmDelete, status: b.status, ..a })
                &&& b.status@ == "确认删除？按 y 删除，其他键取消"@
            })
    }

    /// The selected record (if any) was removed and browsing resumed; `save` carries the message for after the save.
    pub open spec fn confirmed_delete(a: App, b: App, save: Option<String>) -> bool {
        match a.selected_index() {
            None => {
                &&& b == (App { mode: Mode::Normal, ..a })
                &&& save is None
            },
            Some(i) => {
                &&& b == (App {
                    entries: b.entries,
                    selected: if a.selected > 0 { (a.selected - 1) as usize } else { 0 },
                    mode: Mode::Normal,
                    ..a
                })
                &&& b.entries@ == a.entries@.remove(i as int)
                &&& save matches Some(m) && m@ == "已删除："@ + a.entries@[i as int].title@
            },
        }
    }

    /// Browsing resumed with an empty status line.
    pub open spec fn cancelled(a: App, b: App) -> bool {
        &&& (b == (App { mode: Mode::Normal, status: b.status, ..a }))
        &&& (b.status@.len() == 0)
    }

    /// The form was stored (or refused for an empty title); `save` carries the message for after the save.
    pub open spec fn saved_form(a: App, b: App, edit_mode: EditMode, save: Option<String>) -> bool {
        &&& (trim(a.form.title@).len() == 0 ==> {
                &&& b == (App { status: b.status, ..a })
                &&& b.status@ == "名称不能为空"@
                &&& save is None
            })
        &&& (trim(a.form.title@).len() > 0 ==> {
                let stored = trimmed_entry(Self::completed_form(a.form@));
                &&& b.form@ == Self::completed_form(a.form@)
                &&& b.mode == Mode::Normal
                &&& b.query == a.query
                &&& b.category_filter == a.category_filter
                &&& b.form_cursor == a.form_cursor
                &&& b.show_password == a.show_password
                &&& b.status == a.status
                &&& b.animation_tick == a.animation_tick
                &&& b.should_quit == a.should_quit
                &&& match edit_mode {
                    EditMode::Add => {
                        &&& views(b.entries@) == views(a.entries@).push(stored)
                        &&& b.selected == (if b.visible().len() > 0 {
                            (b.visible().len() - 1) as usize
                        } else {
                            0
                        })
                        &&& save matches Some(m) && m@ == "已新增密码"@
                    },
                    EditMode::Edit(i) => {
                        &&& b.selected == a.selected
                        &&& if i < a.entries@.len() {
                            &&& views(b.entries@) == views(a.entries@).update(i as int, stored)
                            &&& save matches Some(m) && m@ == "已更新密码"@
                        } else {
                            &&& b.entries == a.entries
                            &&& save is None
                        }
                    },
                }
            })
    }

    /// The form cursor was pulled back to the end of the field being edited.
    pub open spec fn clamped(a: App, b: App) -> bool {
        &&& (b == (App {
                form_cursor: if a.form_cursor <= a.active_len() {
                    a.form_cursor
                } else {
                    a.active_len() as usize
                },
                ..a
            }))
        &&& (b.cursor_in_range())
    }

    /// The form cursor went one character left, stopping at the start.
    pub open spec fn cursor_moved_left(a: App, b: App) -> bool {
        b == (App {
            form_cursor: if a.form_cursor > 0 { (a.form_cursor - 1) as usize } else { 0 },
            ..a
        })
    }

    /// The form cursor went one character right, stopping at the end of the field.
    pub open spec fn cursor_moved_right(a: App, b: App) -> bool {
        b == (App {
            form_cursor: if a.form_cursor + 1 <= a.active_len() {
                (a.form_cursor + 1) as usize
            } else {
                a.active_len() as usize
            },
            ..a
        })
    }

    /// The form cursor went to the end of the field being edited.
    pub open spec fn cursor_moved_to_end(a: App, b: App) -> bool {
        b == (App { form_cursor: a.active_len() as usize, ..a })
    }

    /// `ch` was typed at the form cursor, which moved past it.
    pub open spec fn inserted_char(a: App, b: App, ch: char) -> bool {
        match a.active_field_of() {
            None => b == a,
            Some(f) => {
                let text = field_text(a.form@, f);
                let cursor = if a.form_cursor <= text.len() { a.form_cursor as int } else { text.len() as int };
                &&& b == (App {
                    form: with_field(a.form, f, field_string(b.form, f)),
                    form_cursor: (cursor + 1) as usize,
                    ..a
                })
                &&& field_text(b.form@, f) == text.take(cursor).push(ch) + text.skip(cursor)
                &&& cursor < usize::MAX
            },
        }
    }

    /// The positions of the records the search and category filters let through.
    pub fn filtered_indices(&self) -> (r: Vec<usize>)
        ensures
            r@ == self.visible(),
            forall|k: int| 0 <= k < r@.len() ==> #[trigger] r@[k] < self.entries@.len(),
    {
        let query = to_lowercase(self.query.as_str());
        let category = to_lowercase(self.category_filter.as_str());
        let ghost es = views(self.entries@);
        let mut out: Vec<usize> = Vec::new();
        let mut i: usize = 0;
        while i < self.entries.len()
            invariant
                i <= self.entries@.len(),
                es == views(self.entries@),
                query@ == lowercase(self.query@),
                category@ == lowercase(self.category_filter@),
                out@ == matching_indices(es, query@, category@, i as nat),
            decreases self.entries.len() - i,
        {
            let entry = &self.entries[i];
            assert(es[i as int] == entry@);
            let entry_category = to_lowercase(entry.category.as_str());
            let category_matches = category.as_str().is_empty() || str_contains(entry_category.as_str(), category.as_str());
            let query_matches = query.as_str().is_empty()
                || str_contains(entry_category.as_str(), query.as_str())
                || str_contains(to_lowercase(entry.title.as_str()).as_str(), query.as_str())
                || str_contains(to_lowercase(entry.username.as_str()).as_str(), query.as_str())
                || str_contains(to_lowercase(entry.notes.as_str()).as_str(), query.as_str());
            if category_matches && query_matches {
                out.push(i);
            }
            i = i + 1;
        }
        proof {
            lemma_matching_indices(es, query@, category@, self.entries@.len());
        }
        out
    }

    /// The position of the selected record.
    pub fn selected_entry_index(&self) -> (r: Option<usize>)
        ensures
            r == self.selected_index(),
            r matches Some(i) ==> i < self.entries@.len(),
    {
        let visible = self.filtered_indices();
        if self.selected < visible.len() {
            Some(visible[self.selected])
        } else {
            None
        }
    }

    /// The selected record.
    pub fn selected_entry(&self) -> (r: Option<&PasswordEntry>)
        ensures
            match self.selected_index() {
                Some(i) => r == Some(&self.entries@[i as int]),
                None => r is None,
            },
    {
        match self.selected_entry_index() {
            Some(index) => Some(&self.entries[index]),
            None => None,
        }
    }

    /// Moves the selection one row down, stopping at the last visible row.
    pub fn move_down(&mut self)
        ensures
            Self::moved_down(*old(self), *final(self)),
    {
        let len = self.filtered_indices().len();
        if len > 0 {
            self.selected = if self.selected < len - 1 { self.selected + 1 } else { len - 1 };
        }
    }

    /// Moves the selection one row up, stopping at the first row.
    pub fn move_up(&mut self)
        ensures
            Self::moved_up(*old(self), *final(self)),
    {
        self.selected = self.selected.saturating_sub(1);
    }

    /// Opens an empty form for a new record.
    pub fn start_add(&mut self)
        ensures
            Self::started_add(*old(self), *final(self)),
    {
        self.form = PasswordEntry::default();
        self.form_cursor = 0;
        self.mode = Mode::Editing { mode: EditMode::Add, field: 0 };
        self.status = owned("新增密码：Tab 切换字段，Enter 保存，Esc 取消");
    }

    /// Opens the form on a copy of the selected record, if a record is selected.
    pub fn start_edit(&mut self)
        ensures
            Self::started_edit(*old(self), *final(self)),
    {
        if let Some(index) = self.selected_entry_index() {
            self.form = self.entries[index].duplicate();
            self.form_cursor = self.form.category.as_str().unicode_len();
            self.mode = Mode::Editing { mode: EditMode::Edit(index), field: 0 };
            self.status = owned("编辑密码：Tab 切换字段，Enter 保存，Esc 取消");
        }
    }

    /// Asks for confirmation before deleting, if a record is selected.
    pub fn start_delete(&mut self)
        ensures
            Self::started_delete(*old(self), *final(self)),
    {
        if self.selected_entry_index().is_some() {
            self.mode = Mode::ConfirmDelete;
            self.status = owned("确认删除？按 y 删除，其他键取消");
        }
    }

    /// Deletes the selected record, if any, and returns to browsing. When a record was
    /// deleted, the result is the message to show once the vault has been saved.
    pub fn confirm_delete(&mut self) -> (save: Option<String>)
        ensures
            Self::confirmed_delete(*old(self), *final(self), save),
    {
        let mut save = None;
        if let Some(index) = self.selected_entry_index() {
            let mut message = owned("已删除：");
            message.append(self.entries[index].title.as_str());
            self.entries.remove(index);
            self.selected = self.selected.saturating_sub(1);
            save = Some(message);
        }
        self.mode = Mode::Normal;
        save
    }

    /// Leaves the current mode and clears the status line.
    pub fn cancel_mode(&mut self)
        ensures
            Self::cancelled(*old(self), *final(self)),
    {
        self.mode = Mode::Normal;
        self.status = String::new();
    }

    /// Shows the outcome of saving the vault: the success message, or the failure.
    pub fn finish_save(&mut self, success_message: String, outcome: Result<(), String>)
        ensures
            *final(self) == (App { status: final(self).status, ..*old(self) }),
            match outcome {
                Ok(()) => final(self).status == success_message,
                Err(e) => final(self).status@ == "保存失败："@ + e@,
            },
    {
        match outcome {
            Ok(()) => self.status = success_message,
            Err(err) => {
                let mut status = owned("保存失败：");
                status.append(err.as_str());
                self.status = status;
            },
        }
    }

    /// The form's record after a save fills in an empty category.
    pub open spec fn completed_form(e: EntryView) -> EntryView {
        if trim(e.category).len() == 0 {
            EntryView { category: "默认"@, ..e }
        } else {
            e
        }
    }

    /// Stores the form: appends it (`Add`) or replaces the record it was opened on
    /// (`Edit`), trimmed, and returns to browsing. A form with an empty title is refused
    /// and stays open. The result is the message to show once the vault has been saved,
    /// when something was stored.
    pub fn save_form(&mut self, edit_mode: EditMode) -> (save: Option<String>)
        ensures
            Self::saved_form(*old(self), *final(self), edit_mode, save),
    {
        if trim_str(self.form.title.as_str()).as_str().is_empty() {
            self.status = owned("名称不能为空");
            return None;
        }
        if trim_str(self.form.category.as_str()).as_str().is_empty() {
            self.form.category = owned("默认");
        }
        assert(self.form@ == Self::completed_form(old(self).form@));
        let mut save = None;
        match edit_mode {
            EditMode::Add => {
                let ghost before = views(self.entries@);
                let entry = self.form.trimmed();
                self.entries.push(entry);
                assert(views(self.entries@) =~= before.push(entry@));
                self.selected = self.filtered_indices().len().saturating_sub(1);
                save = Some(owned("已新增密码"));
            },
            EditMode::Edit(index) => {
                if index < self.entries.len() {
                    let ghost before = views(self.entries@);
                    let entry = self.form.trimmed();
                    self.entries[index] = entry;
                    assert(views(self.entries@) =~= before.update(index as int, entry@));
                    save = Some(owned("已更新密码"));
                }
            },
        }
        self.mode = Mode::Normal;
        save
    }

    /// The field being edited, if the form is open on a field.
    pub open spec fn active_field_of(&self) -> Option<Field> {
        match self.mode {
            Mode::Editing { field, .. } => field_at(field as int),
            _ => None,
        }
    }

    /// The number of characters of the field being edited (0 when none is).
    pub open spec fn active_len(&self) -> nat {
        match self.active_field_of() {
            Some(f) => field_text(self.form@, f).len(),
            None => 0,
        }
    }

    /// The form cursor is not past the end of the field being edited.
    pub open spec fn cursor_in_range(&self) -> bool {
        self.active_field_of() is Some ==> self.form_cursor <= self.active_len()
    }

    /// The field being edited.
    pub fn active_field(&self) -> (r: Option<Field>)
        ensures
            r == self.active_field_of(),
    {
        match self.mode {
            Mode::Editing { field, .. } => Field::at(field),
            _ => None,
        }
    }

    /// Mutable access to one field of the form.
    pub fn edit_field_mut(&mut self, field: Field) -> (r: &mut String)
        ensures
            *r == field_string(old(self).form, field),
            *final(self) == (App { form: with_field(old(self).form, field, *final(r)), ..*old(self) }),
    {
        match field {
            Field::Category => &mut self.form.category,
            Field::Title => &mut self.form.title,
            Field::Username => &mut self.form.username,
            Field::Password => &mut self.form.password,
            Field::Notes => &mut self.form.notes,
        }
    }

    /// The text of one field of the form.
    fn edit_field(&self, field: Field) -> (r: &String)
        ensures
            r@ == field_text(self.form@, field),
    {
        match field {
            Field::Category => &self.form.category,
            Field::Title => &self.form.title,
            Field::Username => &self.form.username,
            Field::Password => &self.form.password,
            Field::Notes => &self.form.notes,
        }
    }

    /// The number of characters of the field being edited (0 when none is).
    pub fn active_field_len(&self) -> (r: usize)
        ensures
            r == self.active_len(),
    {
        match self.active_field() {
            Some(field) => self.edit_field(field).as_str().unicode_len(),
            None => 0,
        }
    }

    /// Pulls the form cursor back to the end of the field being edited.
    pub fn clamp_form_cursor(&mut self)
        ensures
            Self::clamped(*old(self), *final(self)),
    {
        let len = self.active_field_len();
        self.form_cursor = if self.form_cursor <= len { self.form_cursor } else { len };
    }

    /// Moves the form cursor one character left, stopping at the start.
    pub fn move_form_cursor_left(&mut self)
        ensures
            Self::cursor_moved_left(*old(self), *final(self)),
    {
        self.form_cursor = self.form_cursor.saturating_sub(1);
    }

    /// Moves the form cursor one character right, stopping at the end of the field.
    pub fn move_form_cursor_right(&mut self)
        ensures
            Self::cursor_moved_right(*old(self), *final(self)),
    {
        let len = self.active_field_len();
        self.form_cursor = if self.form_cursor < len { self.form_cursor + 1 } else { len };
    }

    /// Moves the form cursor to the end of the field being edited.
    pub fn move_form_cursor_to_end(&mut self)
        ensures
            Self::cursor_moved_to_end(*old(self), *final(self)),
    {
        self.form_cursor = self.active_field_len();
    }

    /// Types a character at the form cursor (pulled back to the end of the field first)
    /// and moves the cursor past it. Does nothing when no field is being edited.
    pub fn insert_form_char(&mut self, ch: char)
        ensures
            Self::inserted_char(*old(self), *final(self), ch),
    {
        if let Some(field) = self.active_field() {
            let cursor = match field {
                Field::Category => insert_char_into(&mut self.form.category, self.form_cursor, ch),
                Field::Title => insert_char_into(&mut self.form.title, self.form_cursor, ch),
                Field::Username => insert_char_into(&mut self.form.username, self.form_cursor, ch),
                Field::Password => insert_char_into(&mut self.form.password, self.form_cursor, ch),
                Field::Notes => insert_char_into(&mut self.form.notes, self.form_cursor, ch),
            };
            self.form_cursor = cursor + 1;
        }
    }

    /// The character before the form cursor was deleted and the cursor moved back
    /// (nothing happens at the start of a field or when no field is being edited).
    pub open spec fn backspaced(a: App, b: App) -> bool {
        &&& (a.form_cursor == 0 || a.active_field_of() is None ==> b == a)
        &&& (a.form_cursor > 0 ==> match a.active_field_of() {
            None => true,
            Some(f) => {
                let text = field_text(a.form@, f);
                let cursor = if a.form_cursor <= text.len() { a.form_cursor as int } else { text.len() as int };
                &&& b == (App {
                    form: with_field(a.form, f, field_string(b.form, f)),
                    form_cursor: (cursor - 1) as usize,
                    ..a
                })
                &&& field_text(b.form@, f) == text.take(cursor - 1) + text.skip(cursor)
            },
        })
    }

    /// A backspace would step before the start of an empty field.
    pub open spec fn backspace_underflows(&self) -> bool {
        self.form_cursor > 0 && self.active_field_of() is Some && self.active_len() == 0
    }

    /// Deletes the character before the form cursor (pulled back to the end of the
    /// field first) and moves the cursor back. Does nothing at the start of the field or
    /// when no field is being edited.
    pub fn backspace_form_char(&mut self)
        requires
            !old(self).backspace_underflows(),
        ensures
            Self::backspaced(*old(self), *final(self)),
    {
        if self.form_cursor == 0 {
            return;
        }
        if let Some(field) = self.active_field() {
            let cursor = match field {
                Field::Category => backspace_in(&mut self.form.category, self.form_cursor),
                Field::Title => backspace_in(&mut self.form.title, self.form_cursor),
                Field::Username => backspace_in(&mut self.form.username, self.form_cursor),
                Field::Password => backspace_in(&mut self.form.password, self.form_cursor),
                Field::Notes => backspace_in(&mut self.form.notes, self.form_cursor),
            };
            self.form_cursor = cursor;
        }
    }
}

/// Inserts `ch` into `s` at character position `min(form_cursor, length)` and returns
/// that position.
fn insert_char_into(s: &mut String, form_cursor: usize, ch: char) -> (cursor: usize)
    ensures
        cursor == (if form_cursor <= old(s)@.len() { form_cursor as int } else { old(s)@.len() as int }),
        cursor < usize::MAX,
        final(s)@ == old(s)@.take(cursor as int).push(ch) + old(s)@.skip(cursor as int),
{
    let count = s.as_str().unicode_len();
    let cursor = if form_cursor <= count { form_cursor } else { count };
    let byte_index = char_to_byte_index(s.as_str(), cursor);
    proof {
        let text = old(s)@;
        assert(text.take(cursor as int) + text.skip(cursor as int) =~= text);
        lemma_prefix_boundary(text.take(cursor as int), text.skip(cursor as int));
    }
    string_insert(s, byte_index, ch);
    proof {
        lemma_insert_at_char(old(s)@, s@, cursor as int, ch);
    }
    cursor
}

/// Deletes the character before position `min(form_cursor, length)` of `s` and
/// returns the position after the deletion.
fn backspace_in(s: &mut String, form_cursor: usize) -> (cursor: usize)
    requires
        form_cursor > 0,
        old(s)@.len() > 0,
    ensures
        cursor + 1 == (if form_cursor <= old(s)@.len() { form_cursor as int } else { old(s)@.len() as int }),
        final(s)@ == old(s)@.take(cursor as int) + old(s)@.skip(cursor + 1),
{
    let count = s.as_str().unicode_len();
    let cursor = if form_cursor <= count { form_cursor } else { count };
    let start = char_to_byte_index(s.as_str(), cursor - 1);
    let end = char_to_byte_index(s.as_str(), cursor);
    proof {
        let text = old(s)@;
        let c = cursor as int;
        assert(text.take(c - 1) + text.skip(c - 1) =~= text);
        lemma_prefix_boundary(text.take(c - 1), text.skip(c - 1));
        assert(text.take(c) + text.skip(c) =~= text);
        lemma_prefix_boundary(text.take(c), text.skip(c));
        assert(text.take(c) =~= text.take(c - 1) + seq![text[c - 1]]);
        lemma_encode_concat(text.take(c - 1), seq![text[c - 1]]);
    }
    string_remove_range(s, start, end);
    proof {
        lemma_remove_char(old(s)@, s@, cursor as int);
    }
    cursor - 1
}

/// Backspace right after typing a character takes the character out again: the form
/// is as before, and the cursor is where the character went in.
pub proof fn lemma_backspace_undoes_insert(a: App, b: App, c: App, ch: char)
    requires
        a.active_field_of() is Some,
        App::inserted_char(a, b, ch),
        App::backspaced(b, c),
    ensures
        c.form@ == a.form@,
        c.form_cursor == (if a.form_cursor <= a.active_len() { a.form_cursor as int } else { a.active_len() as int }),
        c.mode == a.mode,
        c.entries == a.entries,
{
    let f = a.active_field_of()->0;
    let t = field_text(a.form@, f);
    let cur = if a.form_cursor <= t.len() { a.form_cursor as int } else { t.len() as int };
    let tb = field_text(b.form@, f);
    assert(tb == t.take(cur).push(ch) + t.skip(cur));
    assert(b.active_field_of() == Some(f));
    assert(tb.len() == t.len() + 1);
    let tc = field_text(c.form@, f);
    assert(tc == tb.take(cur) + tb.skip(cur + 1));
    assert(tb.take(cur) =~= t.take(cur));
    assert(tb.skip(cur + 1) =~= t.skip(cur));
    assert(t.take(cur) + t.skip(cur) =~= t);
    assert(c.form@ == a.form@);
}

/// The records the search and category filters let through are listed in increasing
/// order, each once: record `i` is listed exactly when its lowercased category holds the
/// lowercased category filter (or that filter is empty) and one of its lowercased
/// category, title, username or notes holds the lowercased query (or the query is
/// empty).
pub proof fn lemma_filter_lists_matching_records(a: App)
    requires
        a.entries@.len() <= usize::MAX,
    ensures
        forall|i: int| 0 <= i < a.entries@.len() ==> #[trigger] a.visible().contains(i as usize) == (
            (lowercase(a.category_filter@).len() == 0
                || contains(lowercase(a.entries@[i].category@), lowercase(a.category_filter@)))
            && (lowercase(a.query@).len() == 0
                || contains(lowercase(a.entries@[i].category@), lowercase(a.query@))
                || contains(lowercase(a.entries@[i].title@), lowercase(a.query@))
                || contains(lowercase(a.entries@[i].username@), lowercase(a.query@))
                || contains(lowercase(a.entries@[i].notes@), lowercase(a.query@)))),
        forall|k: int| 0 <= k < a.visible().len() ==> #[trigger] a.visible()[k] < a.entries@.len(),
        forall|k: int, l: int| 0 <= k < l < a.visible().len() ==> #[trigger] a.visible()[k] < #[trigger] a.visible()[l],
{
    let es = views(a.entries@);
    let q = lowercase(a.query@);
    let c = lowercase(a.category_filter@);
    lemma_matching_indices(es, q, c, a.entries@.len());
    assert forall|i: int| 0 <= i < a.entries@.len() implies #[trigger] a.visible().contains(i as usize) == (
            (lowercase(a.category_filter@).len() == 0
                || contains(lowercase(a.entries@[i].category@), lowercase(a.category_filter@)))
            && (lowercase(a.query@).len() == 0
                || contains(lowercase(a.entries@[i].category@), lowercase(a.query@))
                || contains(lowercase(a.entries@[i].title@), lowercase(a.query@))
                || contains(lowercase(a.entries@[i].username@), lowercase(a.query@))
                || contains(lowercase(a.entries@[i].notes@), lowercase(a.query@)))) by {
        assert(es[i] == a.entries@[i]@);
        assert(entry_matches(es[i], q, c) <==> a.visible().contains(i as usize));
    }
}

/// There are never more visible positions than records.
proof fn lemma_matching_len(es: Seq<EntryView>, query: Seq<char>, category: Seq<char>, n: nat)
    ensures
        matching_indices(es, query, category, n).len() <= n,
    decreases n,
{
    if n > 0 {
        lemma_matching_len(es, query, category, (n - 1) as nat);
    }
}

/// Confirming a deletion removes exactly the record on the selected visible row (the
/// selected row's position among the records the filters let through), reports its
/// title, and returns to browsing; with no record on the selected row nothing is
/// removed.
pub proof fn lemma_delete_removes_selected_row(a: App, b: App, save: Option<String>)
    requires
        App::confirmed_delete(a, b, save),
        a.entries@.len() <= usize::MAX,
    ensures
        b.mode == Mode::Normal,
        a.selected < a.visible().len() ==> {
            let k = a.visible()[a.selected as int] as int;
            &&& 0 <= k < a.entries@.len()
            &&& b.entries@ == a.entries@.remove(k)
            &&& b.entries@.len() + 1 == a.entries@.len()
            &&& save matches Some(m) && m@ == "已删除："@ + a.entries@[k].title@
        },
        a.selected >= a.visible().len() ==> b.entries == a.entries && save is None,
{
    lemma_filter_lists_matching_records(a);
}

/// Moving down keeps the list and its filters, goes to the next visible row, and stops
/// on the last visible row: when any record is visible, the selection ends on a visible
/// row.
pub proof fn lemma_move_down_stays_on_visible_rows(a: App, b: App)
    requires
        App::moved_down(a, b),
        a.entries@.len() <= usize::MAX,
    ensures
        b.entries == a.entries,
        b.query == a.query,
        b.category_filter == a.category_filter,
        b.visible() == a.visible(),
        a.visible().len() > 0 ==> b.selected < b.visible().len(),
        a.selected + 1 < a.visible().len() ==> b.selected == a.selected + 1,
        a.visible().len() > 0 && a.selected + 1 >= a.visible().len() ==> b.selected + 1 == a.visible().len(),
        a.visible().len() == 0 ==> b.selected == a.selected,
{
    lemma_matching_len(
        views(a.entries@),
        lowercase(a.query@),
        lowercase(a.category_filter@),
        a.entries@.len(),
    );
}

/// Moving up goes one row up and stops at the first row; nothing else changes.
pub proof fn lemma_move_up_steps_back(a: App, b: App)
    requires
        App::moved_up(a, b),
    ensures
        a.selected > 0 ==> b.selected + 1 == a.selected,
        a.selected == 0 ==> b.selected == 0,
        b == (App { selected: b.selected, ..a }),
{
}

/// Opening the form on the selected row copies the record on that visible row, puts
/// the cursor at the end of its category and edits that record's position.
pub proof fn lemma_edit_opens_selected_row(a: App, b: App)
    requires
        App::started_edit(a, b),
        a.entries@.len() <= usize::MAX,
    ensures
        a.selected < a.visible().len() ==> {
            let k = a.visible()[a.selected as int];
            &&& k < a.entries@.len()
            &&& b.form == a.entries@[k as int]
            &&& b.form_cursor == a.entries@[k as int].category@.len() as usize
            &&& b.mode == (Mode::Editing { mode: EditMode::Edit(k), field: 0 })
            &&& b.entries == a.entries
        },
        a.selected >= a.visible().len() ==> b == a,
{
    lemma_filter_lists_matching_records(a);
}

/// Saving the form: a blank title is refused (records and mode unchanged); otherwise
/// the record stored has the form's category (默认 when blank), title, username and notes
/// trimmed and its password as typed; `Add` appends it after the existing records, `Edit(i)`
/// replaces record `i` (when there is one) and leaves the others, and browsing resumes.
pub proof fn lemma_save_form_stores_trimmed_record(a: App, b: App, m: EditMode, save: Option<String>)
    requires
        App::saved_form(a, b, m, save),
    ensures
        trim(a.form.title@).len() == 0 ==> {
            &&& b.entries == a.entries
            &&& b.mode == a.mode
            &&& b.form == a.form
            &&& save is None
            &&& b.status@ == "名称不能为空"@
        },
        trim(a.form.title@).len() > 0 ==> {
            let category = if trim(a.form.category@).len() == 0 { trim("默认"@) } else { trim(a.form.category@) };
            &&& b.mode == Mode::Normal
            &&& match m {
                EditMode::Add => {
                    &&& b.entries@.len() == a.entries@.len() + 1
                    &&& forall|k: int| 0 <= k < a.entries@.len() ==> #[trigger] b.entries@[k]@ == a.entries@[k]@
                    &&& b.entries@[a.entries@.len() as int].category@ == category
                    &&& b.entries@[a.entries@.len() as int].title@ == trim(a.form.title@)
                    &&& b.entries@[a.entries@.len() as int].username@ == trim(a.form.username@)
                    &&& b.entries@[a.entries@.len() as int].password@ == a.form.password@
                    &&& b.entries@[a.entries@.len() as int].notes@ == trim(a.form.notes@)
                    &&& save is Some
                },
                EditMode::Edit(i) => if i < a.entries@.len() {
                    &&& b.entries@.len() == a.entries@.len()
                    &&& forall|k: int| 0 <= k < a.entries@.len() && k != i ==> #[trigger] b.entries@[k]@ == a.entries@[k]@
                    &&& b.entries@[i as int].category@ == category
                    &&& b.entries@[i as int].title@ == trim(a.form.title@)
                    &&& b.entries@[i as int].username@ == trim(a.form.username@)
                    &&& b.entries@[i as int].password@ == a.form.password@
                    &&& b.entries@[i as int].notes@ == trim(a.form.notes@)
                    &&& save is Some
                } else {
                    b.entries == a.entries && save is None
                },
            }
        },
{
    if trim(a.form.title@).len() > 0 {
        let va = views(a.entries@);
        let vb = views(b.entries@);
        match m {
            EditMode::Add => {
                assert(vb.len() == b.entries@.len());
                assert forall|k: int| 0 <= k < a.entries@.len() implies #[trigger] b.entries@[k]@ == a.entries@[k]@ by {
                    assert(vb[k] == va[k]);
                }
                assert(vb[a.entries@.len() as int] == b.entries@[a.entries@.len() as int]@);
            },
            EditMode::Edit(i) => {
                if i < a.entries@.len() {
                    assert(vb.len() == b.entries@.len());
                    assert forall|k: int| 0 <= k < a.entries@.len() && k != i implies #[trigger] b.entries@[k]@ == a.entries@[k]@ by {
                        assert(vb[k] == va[k]);
                    }
                    assert(vb[i as int] == b.entries@[i as int]@);
                }
            },
        }
    }
}

} // verus!
