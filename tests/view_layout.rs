use tedit::record::Recorded;
use tedit::screen::{Rgb, Style, TermOp};
use tedit::select::{Select, Selectable};
use tedit::text::{Editable, Text};
use tedit::view::{decimal, display_line, line_number_width, EditorView, Palette, Position};

fn palette() -> Palette {
    let s = |v: u8| Style { foreground: Rgb { r: v, g: v, b: v }, background: Rgb { r: 0, g: 0, b: v } };
    Palette { text: s(1), gutter: s(2), status: s(3), selection: s(4) }
}

fn text(s: &str) -> Text {
    Text::open_file(String::from("f.txt"), Some(s)).unwrap()
}

#[test]
fn decimal_digits() {
    assert_eq!(decimal(0), "0");
    assert_eq!(decimal(7), "7");
    assert_eq!(decimal(1234), "1234");
    assert_eq!(line_number_width(99), 2);
    assert_eq!(line_number_width(100), 3);
}

#[test]
fn rows_and_columns_for_text() {
    let v = EditorView::new(palette(), 80, 24);
    assert_eq!(v.lines_height(), 22);
    assert_eq!(v.lines_width(9), 78);
    assert_eq!(v.lines_width(10), 77);
    let tiny = EditorView::new(palette(), 1, 1);
    assert_eq!(tiny.lines_height(), 0);
    assert_eq!(tiny.lines_width(5), 0);
}

#[test]
fn adjust_view_shifts_minimally() {
    let mut v = EditorView::new(palette(), 80, 12);
    assert_eq!(v.lines_height(), 10);
    v.adjust_view(5);
    assert_eq!(v.line_offset(), 0);
    v.adjust_view(9);
    assert_eq!(v.line_offset(), 0);
    v.adjust_view(10);
    assert_eq!(v.line_offset(), 1);
    v.adjust_view(30);
    assert_eq!(v.line_offset(), 21);
    v.adjust_view(3);
    assert_eq!(v.line_offset(), 3);
}

#[test]
fn center_view_puts_line_mid_window() {
    let mut v = EditorView::new(palette(), 80, 12);
    v.center_view(20);
    assert_eq!(v.line_offset(), 15);
    v.center_view(2);
    assert_eq!(v.line_offset(), 0);
}

#[test]
fn scroll_view_stays_on_lines() {
    let t = text("a\nb\nc\nd\n");
    let mut v = EditorView::new(palette(), 80, 12);
    v.scroll_view(2, &t);
    assert_eq!(v.line_offset(), 2);
    v.scroll_view(2, &t);
    assert_eq!(v.line_offset(), 3);
    v.scroll_view(-2, &t);
    assert_eq!(v.line_offset(), 1);
    v.scroll_view(-2, &t);
    assert_eq!(v.line_offset(), 0);
}

#[test]
fn clicks_translate_through_tabs() {
    let t = text("\tab\nxyz\n");
    let v = EditorView::new(palette(), 80, 12);
    // one digit of line numbers and a space: text starts at screen column 3 (from 1)
    assert_eq!(v.translate_coordinates(&t, 3, 1), Position::new(0, 0));
    assert_eq!(v.translate_coordinates(&t, 6, 1), Position::new(0, 0));
    assert_eq!(v.translate_coordinates(&t, 7, 1), Position::new(0, 1));
    assert_eq!(v.translate_coordinates(&t, 8, 1), Position::new(0, 2));
    assert_eq!(v.translate_coordinates(&t, 40, 2), Position::new(1, 4));
    assert_eq!(v.translate_coordinates(&t, 4, 9), Position::new(1, 1));
}

#[test]
fn cursor_position_counts_tab_width() {
    let mut t = text("\tab\nxyz\n");
    let v = EditorView::new(palette(), 80, 12);
    t.move_to(2);
    assert_eq!(v.cursor_pos(&t), (2 + 5, 0));
    t.move_to(5);
    assert_eq!(v.cursor_pos(&t), (2 + 1, 1));
}

#[test]
fn display_expands_tabs() {
    let t = text("\tab\nxyz\n");
    assert_eq!(display_line(&t, 0), "    ab ");
    assert_eq!(display_line(&t, 1), "xyz ");
}

#[test]
fn messages_and_prompts() {
    let mut v = EditorView::new(palette(), 80, 12);
    v.prompt("Save to: ", "ab");
    assert_eq!(v.current_message(), Some(String::from("Save to: ab")));
    assert!(v.is_prompt());
    v.message("done");
    assert_eq!(v.current_message(), Some(String::from("done")));
    assert!(!v.is_prompt());
    v.quiet();
    assert_eq!(v.current_message(), None);
}

#[test]
fn render_twice_sends_no_cells_the_second_time() {
    let d = Select::new(Recorded::new(text("hello\n")));
    let mut v = EditorView::new(palette(), 20, 5);
    let first = v.render(&d, &Vec::new());
    assert!(first.iter().any(|o| *o == TermOp::Put(2, 0, 'h')));
    assert!(first.iter().any(|o| *o == TermOp::Put(0, 0, '1')));
    let second = v.render(&d, &Vec::new());
    assert!(!second.iter().any(|o| matches!(o, TermOp::Put(..))));
    assert_eq!(second[second.len() - 2], TermOp::Goto(2, 0));
}

#[test]
fn render_hides_cursor_under_a_selection() {
    let mut d = Select::new(Recorded::new(text("hello\n")));
    d.set_sel((0, 2));
    let mut v = EditorView::new(palette(), 20, 5);
    let out = v.render(&d, &Vec::new());
    assert_ne!(out[out.len() - 1], TermOp::ShowCursor);
    assert!(out.iter().any(|o| *o == TermOp::SetStyle(palette().selection)));
    assert_eq!(d.len(), 6);
}
