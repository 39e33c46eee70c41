use walletui::app::{EditMode, Mode};
use walletui::ui::{
    form_cursor_position, list_window, masked_password, mode_label, shimmer_bold, shimmer_distance,
    shimmer_head, shimmer_level, Shimmer,
};

#[test]
fn mode_labels() {
    assert_eq!(mode_label(&Mode::Normal), "BROWSE");
    assert_eq!(mode_label(&Mode::Search), "SEARCH");
    assert_eq!(mode_label(&Mode::Category), "CATEGORY");
    assert_eq!(mode_label(&Mode::Editing { mode: EditMode::Add, field: 2 }), "EDIT");
    assert_eq!(mode_label(&Mode::ConfirmDelete), "DELETE");
}

#[test]
fn list_scrolls_to_keep_selection_visible() {
    let w = list_window(7, 10, 7);
    assert_eq!((w.rows, w.selected, w.start, w.end), (5, 7, 3, 8));
    assert_eq!((w.position, w.first_shown), (8, 4));
    let w = list_window(20, 3, 10);
    assert_eq!((w.selected, w.start, w.end), (2, 0, 3));
    let w = list_window(0, 0, 1);
    assert_eq!((w.rows, w.selected, w.start, w.end, w.position, w.first_shown), (1, 0, 0, 0, 0, 0));
}

#[test]
fn passwords_are_masked() {
    assert_eq!(masked_password("abc", false), "********");
    assert_eq!(masked_password("0123456789", false), "**********");
    assert_eq!(masked_password("", false), "");
    assert_eq!(masked_password("abc", true), "abc");
}

#[test]
fn shimmer_steps() {
    assert_eq!(shimmer_head(23, 10), 6);
    assert_eq!(shimmer_distance(2, 6), 4);
    assert_eq!(shimmer_distance(8, 6), 2);
    assert_eq!(shimmer_level(0), Shimmer::Hot);
    assert_eq!(shimmer_level(1), Shimmer::Mid);
    assert_eq!(shimmer_level(2), Shimmer::Accent);
    assert_eq!(shimmer_level(3), Shimmer::Soft);
    assert_eq!(shimmer_level(9), Shimmer::Plain);
    assert!(shimmer_bold(false, 3));
    assert!(!shimmer_bold(false, 4));
    assert!(shimmer_bold(true, 9));
}

#[test]
fn form_cursor_lands_after_label() {
    assert_eq!(form_cursor_position(10, 5, 40, 10, 1, 3, 2), Some((24, 7)));
    assert_eq!(form_cursor_position(10, 5, 40, 10, 1, 3, 9), Some((25, 7)));
    assert_eq!(form_cursor_position(10, 5, 16, 10, 0, 30, 30), Some((24, 6)));
    assert_eq!(form_cursor_position(10, 5, 2, 10, 0, 0, 0), None);
    assert_eq!(form_cursor_position(10, 5, 40, 4, 3, 0, 0), None);
}
