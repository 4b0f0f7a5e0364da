use tedit::record::{Action, Recorded, Undoable};
use tedit::select::{Select, Selectable};
use tedit::text::{Editable, Text};

fn contents<T: Editable>(t: &T) -> String {
    (0..t.len()).map(|i| t.char_at(i)).collect()
}

fn doc(s: &str) -> Select<Recorded<Text>> {
    Select::new(Recorded::new(Text::open_file(String::from("f"), Some(s)).unwrap()))
}

#[test]
fn slice_and_delete_selection() {
    let mut d = doc("abcd\n");
    d.set_sel((0, 2));
    assert_eq!(d.slice_sel(), "abc");
    d.delete_sel();
    assert_eq!(contents(&d), "d\n");
    assert_eq!(d.pos(), 0);
    assert_eq!(*d.sel(), None);
}

#[test]
fn selection_sizes() {
    let mut d = doc("hello world\n");
    d.set_sel((2, 6));
    assert_eq!(d.slice_sel().chars().count(), 5);
    let before = d.len();
    d.delete_sel();
    assert_eq!(d.len(), before - 5);
    assert_eq!(contents(&d), "heorld\n");
}

#[test]
fn selection_through_the_last_terminator_keeps_it() {
    let mut d = doc("ab\n");
    d.set_sel((1, 2));
    assert_eq!(d.slice_sel(), "b\n");
    d.delete_sel();
    assert_eq!(contents(&d), "a\n");
}

#[test]
fn erasing_a_selection_is_one_undo_entry() {
    let mut d = doc("abcdef\n");
    d.set_sel((1, 3));
    d.delete_sel();
    assert_eq!(contents(&d), "aef\n");
    d.undo();
    assert_eq!(contents(&d), "abcdef\n");
}

#[test]
fn in_sel_is_inclusive() {
    let mut d = doc("abcdef\n");
    assert!(!d.in_sel(0));
    d.set_sel((1, 3));
    assert!(!d.in_sel(0));
    assert!(d.in_sel(1));
    assert!(d.in_sel(3));
    assert!(!d.in_sel(4));
    d.reset_sel();
    assert!(!d.in_sel(2));
    assert_eq!(d.slice_sel(), "");
}

#[test]
fn an_edit_drops_the_selection() {
    let mut d = doc("abc\n");
    d.set_sel((0, 1));
    d.insert('x');
    assert_eq!(*d.sel(), None);
}

#[test]
fn erasing_logs_a_move_then_one_delete() {
    let mut d = doc("abcdef\n");
    d.set_sel((1, 3));
    d.delete_sel();
    assert_eq!(d.history_len(), 2);
    assert_eq!(d.content().entries()[0], Action::Delete(vec!['b', 'c', 'd']));
    assert_eq!(d.content().entries()[1], Action::Move(4));
}
