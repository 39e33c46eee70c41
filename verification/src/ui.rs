use vstd::prelude::*;

use crate::app::Mode;
use crate::text::{owned, push_char};

verus! {

/// The mode name shown in the header.
pub open spec fn mode_label_text(mode: Mode) -> Seq<char> {
    match mode {
        Mode::Normal => "BROWSE"@,
        Mode::Search => "SEARCH"@,
        Mode::Category => "CATEGORY"@,
        Mode::Editing { .. } => "EDIT"@,
        Mode::ConfirmDelete => "DELETE"@,
    }
}

/// The mode name shown in the header.
pub fn mode_label(mode: &Mode) -> (r: &'static str)
    ensures
        r@ == mode_label_text(*mode),
{
    match mode {
        Mode::Normal => "BROWSE",
        Mode::Search => "SEARCH",
        Mode::Category => "CATEGORY",
        Mode::Editing { .. } => "EDIT",
        Mode::ConfirmDelete => "DELETE",
    }
}

/// Which rows of the record list are on screen.
#[derive(Debug, Clone, Copy, PartialEq, Eq)]
pub struct ListWindow {
    /// The highlighted row, moved onto the list when it lies past the end.
    pub selected: usize,
    /// The first row shown.
    pub start: usize,
    /// One past the last row shown.
    pub end: usize,
    /// How many rows fit.
    pub rows: usize,
    /// The 1-based number of the highlighted row (0 for an empty list).
    pub position: usize,
    /// The 1-based number of the first row shown (0 for an empty list).
    pub first_shown: usize,
}

/// The rows of a list panel of the given height (borders take two lines; at least one
/// row), scrolled so that the selected row is the last one shown once it passes the
/// first screen.
pub fn list_window(selected: usize, len: usize, area_height: u16) -> (w: ListWindow)
    ensures
        w.rows == (if area_height >= 3 { area_height - 2 } else { 1 }),
        w.selected == (if len == 0 { 0 } else if selected < len { selected as int } else { len - 1 }),
        w.start == (if w.selected >= w.rows { w.selected + 1 - w.rows } else { 0 }),
        w.end == (if w.start + w.rows <= len { w.start + w.rows } else { len as int }),
        w.position == (if len == 0 { 0 } else { w.selected + 1 }),
        w.first_shown == (if len == 0 { 0 } else { w.start + 1 }),
        w.start <= w.selected,
        len > 0 ==> w.start <= w.selected < w.end <= len,
{
    let h = area_height.saturating_sub(2);
    let rows: usize = if h > 1 { h as usize } else { 1 };
    let last = len.saturating_sub(1);
    let selected = if selected < last { selected } else { last };
    let start = if selected >= rows { selected + 1 - rows } else { 0 };
    let end = if rows <= len - start { start + rows } else { len };
    let position = if len == 0 { 0 } else { selected + 1 };
    let first_shown = if len == 0 { 0 } else { start + 1 };
    ListWindow { selected, start, end, rows, position, first_shown }
}

/// How a password is shown: as typed when visible; otherwise one `*` per character,
/// at least eight, and nothing for an empty password.
pub open spec fn masked_password_text(password: Seq<char>, show: bool) -> Seq<char> {
    if show {
        password
    } else if password.len() == 0 {
        Seq::empty()
    } else {
        Seq::new(if password.len() >= 8 { password.len() } else { 8 }, |i: int| '*')
    }
}

/// The password as the detail panel shows it.
pub fn masked_password(password: &str, show: bool) -> (r: String)
    ensures
        r@ == masked_password_text(password@, show),
{
    if show {
        return owned(password);
    }
    let count = password.unicode_len();
    if count == 0 {
        return String::new();
    }
    let n = if count >= 8 { count } else { 8 };
    let mut out = String::new();
    let mut i: usize = 0;
    while i < n
        invariant
            i <= n,
            n == (if password@.len() >= 8 { password@.len() } else { 8 }),
            out@ == Seq::new(i as nat, |k: int| '*'),
        decreases n - i,
    {
        push_char(&mut out, '*');
        i = i + 1;
        assert(out@ =~= Seq::new(i as nat, |k: int| '*'));
    }
    out
}

/// The width of the moving highlight band.
pub const SHIMMER_BAND: usize = 7;

/// Where the moving highlight stands on a text of `len` characters at time `tick`.
pub fn shimmer_head(tick: u64, len: usize) -> (r: usize)
    requires
        len + SHIMMER_BAND <= usize::MAX,
    ensures
        r == (tick as usize) % (len + SHIMMER_BAND) as usize,
{
    (tick as usize) % (len + SHIMMER_BAND)
}

/// The colour step of a character at a distance from the highlight.
#[derive(Debug, Clone, Copy, PartialEq, Eq)]
pub enum Shimmer {
    Hot,
    Mid,
    Accent,
    Soft,
    Plain,
}

/// The colour step of a character at `distance` from the highlight.
pub fn shimmer_level(distance: usize) -> (r: Shimmer)
    ensures
        r == (if distance == 0 {
            Shimmer::Hot
        } else if distance == 1 {
            Shimmer::Mid
        } else if distance == 2 {
            Shimmer::Accent
        } else if distance == 3 {
            Shimmer::Soft
        } else {
            Shimmer::Plain
        }),
{
    if distance == 0 {
        Shimmer::Hot
    } else if distance == 1 {
        Shimmer::Mid
    } else if distance == 2 {
        Shimmer::Accent
    } else if distance == 3 {
        Shimmer::Soft
    } else {
        Shimmer::Plain
    }
}

/// The distance between a character's index and the highlight.
pub fn shimmer_distance(index: usize, head: usize) -> (r: usize)
    ensures
        r == (if index >= head { index - head } else { head - index }),
{
    if index >= head {
        index - head
    } else {
        head - index
    }
}

/// A character is drawn bold when the whole text is, or when it is close to the
/// highlight.
pub fn shimmer_bold(bold: bool, distance: usize) -> (r: bool)
    ensures
        r == (bold || distance <= 3),
{
    bold || distance <= 3
}

/// `a + b`, stopping at `u16::MAX`.
pub open spec fn sat_add(a: u16, b: u16) -> u16 {
    if a + b <= u16::MAX { (a + b) as u16 } else { u16::MAX }
}

/// `a - b`, stopping at 0.
pub open spec fn sat_sub(a: u16, b: u16) -> u16 {
    if a >= b { (a - b) as u16 } else { 0 }
}

/// Where the terminal cursor goes while a form field is edited: after the label, at the
/// edit position (cut to 16 bits, as the terminal takes it), kept inside the panel;
/// nowhere when the panel is too small or the field's line is below it.
pub fn form_cursor_position(
    x: u16,
    y: u16,
    width: u16,
    height: u16,
    active_field: usize,
    char_count: usize,
    cursor: usize,
) -> (r: Option<(u16, u16)>)
    requires
        active_field < 5,
    ensures
        width <= 2 || height <= 2 ==> r is None,
        width > 2 && height > 2 ==> {
            let input_start = sat_add(x, 12);
            let max_x = sat_add(x, sat_sub(width, 2));
            let shown = (if cursor <= char_count { cursor } else { char_count }) as u16;
            let cx = if sat_add(input_start, shown) <= max_x { sat_add(input_start, shown) } else { max_x };
            let cy = sat_add(y, (1 + active_field) as u16);
            r == (if cy < sat_add(y, sat_sub(height, 1)) { Some((cx, cy)) } else { None })
        },
{
    if width <= 2 || height <= 2 {
        return None;
    }
    let input_start = x.saturating_add(12);
    let max_x = x.saturating_add(width.saturating_sub(2));
    let shown = if cursor <= char_count { cursor } else { char_count };
    let cursor_x = input_start.saturating_add(shown as u16);
    let cursor_x = if cursor_x <= max_x { cursor_x } else { max_x };
    let cursor_y = y.saturating_add(1 + active_field as u16);
    if cursor_y < y.saturating_add(height.saturating_sub(1)) {
        Some((cursor_x, cursor_y))
    } else {
        None
    }
}

} // verus!
