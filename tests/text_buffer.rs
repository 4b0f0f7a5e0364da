use tedit::text::{Editable, Movement, Named, Text};

fn contents<T: Editable>(t: &T) -> String {
    (0..t.len()).map(|i| t.char_at(i)).collect()
}

fn text_of(s: &str) -> Text {
    Text::open_file(String::from("f.txt"), Some(s)).unwrap()
}

#[test]
fn open_missing_file_gives_empty_named_buffer() {
    let t = Text::open_file(String::from("missing.txt"), None).unwrap();
    assert_eq!(t.len(), 1);
    assert_eq!(t.name(), "missing.txt");
    assert_eq!(t.line_count(), 1);
    assert_eq!(contents(&t), "\n");
    assert!(!t.was_modified());
}

#[test]
fn open_refuses_oversized_contents() {
    let big = "a".repeat(tedit::text::MAX_CHARS);
    assert!(Text::open_file(String::from("big"), Some(&big)).is_none());
}

#[test]
fn open_adds_missing_terminator() {
    let t = text_of("ab");
    assert_eq!(contents(&t), "ab\n");
    let u = text_of("ab\n");
    assert_eq!(contents(&u), "ab\n");
    let e = text_of("");
    assert_eq!(contents(&e), "\n");
}

#[test]
fn insert_then_backspace() {
    let mut t = Text::empty();
    t.insert('h');
    t.insert('i');
    assert_eq!(t.delete(), Some('i'));
    assert_eq!(contents(&t), "h\n");
    assert_eq!(t.pos(), 1);
    assert!(t.was_modified());
}

#[test]
fn delete_at_start_and_forward_at_end_do_nothing() {
    let mut t = text_of("ab\n");
    assert_eq!(t.delete(), None);
    t.move_to(2);
    assert_eq!(t.delete_forward(), None);
    assert_eq!(contents(&t), "ab\n");
    assert!(!t.was_modified());
    t.move_to(0);
    assert_eq!(t.delete_forward(), Some('a'));
    assert_eq!(contents(&t), "b\n");
    assert_eq!(t.pos(), 0);
}

#[test]
fn insert_forward_keeps_cursor() {
    let mut t = Text::empty();
    t.insert_forward('a');
    t.insert_forward('b');
    assert_eq!(contents(&t), "ba\n");
    assert_eq!(t.pos(), 0);
}

#[test]
fn boundary_moves_are_no_ops() {
    let mut t = text_of("ab\ncd\n");
    t.step(Movement::Left);
    assert_eq!(t.pos(), 0);
    t.step(Movement::Up);
    assert_eq!(t.pos(), 0);
    t.move_to(5);
    t.step(Movement::Right);
    assert_eq!(t.pos(), 5);
    t.step(Movement::Down);
    assert_eq!(t.pos(), 5);
    t.move_to(4);
    t.step(Movement::Down);
    assert_eq!(t.pos(), 4);
}

#[test]
fn vertical_moves_clamp_the_column() {
    let mut t = text_of("abcdef\nxy\nlonger line\n");
    t.move_to(5);
    t.step(Movement::Down);
    assert_eq!((t.line(), t.col()), (1, 2));
    assert_eq!(t.pos(), 9);
    t.step(Movement::Down);
    assert_eq!((t.line(), t.col()), (2, 2));
    t.step(Movement::Up);
    t.step(Movement::Up);
    assert_eq!((t.line(), t.col()), (0, 2));
}

#[test]
fn line_start_and_end() {
    let mut t = text_of("ab\ncde\n");
    t.move_to(4);
    t.step(Movement::LineEnd);
    assert_eq!(t.pos(), 6);
    t.step(Movement::LineStart);
    assert_eq!(t.pos(), 3);
}

#[test]
fn page_moves_land_on_column_zero() {
    let mut t = text_of("a\nbb\nccc\ndddd\neeeee\n");
    t.move_to(6);
    assert_eq!((t.line(), t.col()), (2, 1));
    t.step(Movement::PageDown(1));
    assert_eq!((t.line(), t.col()), (3, 0));
    t.step(Movement::PageDown(10));
    assert_eq!((t.line(), t.col()), (4, 0));
    assert_eq!(t.pos(), 14);
    t.step(Movement::PageUp(2));
    assert_eq!((t.line(), t.col()), (2, 0));
    t.step(Movement::PageUp(5));
    assert_eq!(t.pos(), 0);
}

#[test]
fn page_down_to_exact_end_stays_on_last_line() {
    let mut t = text_of("a\n");
    t.step(Movement::PageDown(1));
    assert_eq!(t.pos(), 0);
    assert!(t.pos() < t.len());
}

#[test]
fn move_at_clamps_line_and_column() {
    let mut t = text_of("abc\nde\n");
    t.move_at(1, 1);
    assert_eq!(t.pos(), 5);
    t.move_at(1, 10);
    assert_eq!(t.pos(), 6);
    t.move_at(7, 0);
    assert_eq!(t.pos(), 4);
}

#[test]
fn line_index_translation() {
    let t = text_of("ab\n\ncd\n");
    assert_eq!(t.line_count(), 3);
    assert_eq!(t.line_index_to_char_index(0), 0);
    assert_eq!(t.line_index_to_char_index(1), 3);
    assert_eq!(t.line_index_to_char_index(2), 4);
    assert_eq!(t.line_index_to_char_index(3), 7);
}

#[test]
fn set_name_renames() {
    let mut t = Text::empty();
    assert_eq!(t.name(), "");
    t.set_name(String::from("x.rs"));
    assert_eq!(t.name(), "x.rs");
}
