//! The render model: truncation, styled text runs, tables and frames,
//! and the selection state.

use grab::ui::{truncate_middle, Frame, Table, Text};
use grab::ui_state::UIState;

#[test]
fn truncate_middle_keeps_short_text() {
    assert_eq!(truncate_middle("hello", 10), "hello");
    assert_eq!(truncate_middle("hello", 5), "hello");
}

#[test]
fn truncate_middle_cuts_the_middle() {
    assert_eq!(truncate_middle("hello world", 8), "he...rld");
    assert_eq!(truncate_middle("abcdefghij", 7), "ab...ij");
}

#[test]
fn truncate_middle_tiny_widths() {
    assert_eq!(truncate_middle("hello world", 2), "..");
    assert_eq!(truncate_middle("hello world", 0), "");
    assert_eq!(truncate_middle("hello world", 3), "...");
}

#[test]
fn text_splits_lines() {
    let t = Text::new("one\ntwo");
    assert_eq!(t.get_text(), "one\ntwo");
    assert_eq!(t.get_lines().as_slice(), &["one".to_string(), "two".to_string()]);
    let empty = Text::new("");
    assert_eq!(empty.get_lines().as_slice(), &["".to_string()]);
}

#[test]
fn text_styling_is_chainable() {
    let t = Text::new("abc").color_all(3).color_substring(1, "b").selected();
    assert_eq!(t.get_text(), "abc");
    assert_eq!(t.styles.len(), 3);
}

#[test]
fn table_joins_cells_with_two_spaces() {
    let table = Table::new()
        .add_row(vec!["a".to_string(), "b".to_string()])
        .add_styled_row(vec![Text::new("c"), Text::new("d")]);
    assert_eq!(table.row_count(), 2);
    assert_eq!(
        table.to_text_lines(),
        vec!["a  b".to_string(), "c  d".to_string()]
    );
    assert_eq!(table.get_row_text(1), Some("c  d".to_string()));
    assert_eq!(table.get_row_text(2), None);
}

#[test]
fn frame_writes_and_prints() {
    let mut f = Frame::new(5, 2);
    f.write_text("hi", 1, 0);
    f.write_text("toolong", 3, 1);
    assert_eq!(f.to_string(), " hi  \n   to");
    // a row outside the frame takes nothing
    f.write_text("x", 0, 9);
    assert_eq!(f.to_string(), " hi  \n   to");
}

#[test]
fn frame_write_lines_stacks_rows() {
    let mut f = Frame::new(4, 3);
    f.write_lines(&vec!["ab".to_string(), "cd".to_string()], 0, 1);
    assert_eq!(f.to_string(), "    \nab  \ncd  ");
}

#[test]
fn frame_trimmed_string_drops_trailing_blank_rows() {
    let mut f = Frame::new(6, 4);
    f.write_text("title", 0, 0);
    f.write_text("row", 1, 1);
    assert_eq!(f.to_trimmed_string(), "title\n row");
    let empty = Frame::new(3, 2);
    assert_eq!(empty.to_trimmed_string(), "");
}

#[test]
fn selection_moves_down_and_wraps_to_none() {
    let mut ui = UIState::default();
    ui.move_selection_down(3);
    assert_eq!(ui.get_selected_index(), Some(0));
    ui.move_selection_down(3);
    ui.move_selection_down(3);
    assert_eq!(ui.get_selected_index(), Some(2));
    ui.move_selection_down(3);
    assert_eq!(ui.get_selected_index(), None);
}

#[test]
fn selection_moves_up_from_none_to_last() {
    let mut ui = UIState::default();
    ui.move_selection_up(3);
    assert_eq!(ui.get_selected_index(), Some(2));
    ui.move_selection_up(3);
    assert_eq!(ui.get_selected_index(), Some(1));
    ui.move_selection_up(3);
    assert_eq!(ui.get_selected_index(), Some(0));
    ui.move_selection_up(3);
    assert_eq!(ui.get_selected_index(), None);
}

#[test]
fn selection_on_empty_table_stays_put() {
    let mut ui = UIState::default();
    ui.move_selection_down(0);
    assert_eq!(ui.get_selected_index(), None);
}

#[test]
fn selection_is_clamped_after_shrinking() {
    let mut ui = UIState::default();
    ui.set_selected_index(Some(5));
    ui.adjust_selection_after_update(3);
    assert_eq!(ui.get_selected_index(), Some(2));
    ui.adjust_selection_after_update(0);
    assert_eq!(ui.get_selected_index(), None);
}

#[test]
fn scroll_follows_the_selection() {
    let mut ui = UIState::default();
    ui.set_selected_index(Some(10));
    ui.adjust_scroll_for_selection(4, 20);
    // the selection sits near the middle of the window
    assert_eq!(ui.scroll_offset, 8);
    ui.set_selected_index(Some(19));
    ui.adjust_scroll_for_selection(4, 20);
    // never past the end of the table
    assert_eq!(ui.scroll_offset, 16);
    ui.set_selected_index(None);
    ui.adjust_scroll_for_selection(4, 10);
    assert_eq!(ui.scroll_offset, 6);
}
