use tedit::record::{Action, Recorded, Undoable};
use tedit::text::{Editable, Movement, Text};

fn contents<T: Editable>(t: &T) -> String {
    (0..t.len()).map(|i| t.char_at(i)).collect()
}

fn recorded(s: &str) -> Recorded<Text> {
    Recorded::new(Text::open_file(String::from("f"), Some(s)).unwrap())
}

#[test]
fn typing_a_run_makes_one_entry() {
    let mut r = recorded("\n");
    r.insert('a');
    r.insert('b');
    r.insert('c');
    assert_eq!(r.history_len(), 1);
    assert_eq!(r.entries()[0], Action::Insert(vec!['a', 'b', 'c']));
}

#[test]
fn a_move_splits_the_run() {
    let mut r = recorded("xyz\n");
    r.insert('a');
    r.step(Movement::Right);
    r.insert('b');
    let inserts = r
        .entries()
        .iter()
        .filter(|a| matches!(a, Action::Insert(_)))
        .count();
    assert_eq!(inserts, 2);
    assert_eq!(r.history_len(), 3);
    assert_eq!(r.entries()[0], Action::Insert(vec!['b']));
    assert_eq!(r.entries()[1], Action::Move(1));
    assert_eq!(r.entries()[2], Action::Insert(vec!['a']));
}

#[test]
fn backspaces_merge_in_text_order() {
    let mut r = recorded("abc\n");
    r.move_to(3);
    r.delete();
    r.delete();
    assert_eq!(r.entries()[0], Action::Delete(vec!['b', 'c']));
    r.undo();
    assert_eq!(contents(&r), "abc\n");
    assert_eq!(r.pos(), 3);
}

#[test]
fn forward_deletes_undo_in_place() {
    let mut r = recorded("abc\n");
    r.delete_forward();
    r.delete_forward();
    assert_eq!(contents(&r), "c\n");
    assert_eq!(r.entries()[0], Action::DeleteForward(vec!['b', 'a']));
    r.undo();
    assert_eq!(contents(&r), "abc\n");
    assert_eq!(r.pos(), 0);
    r.redo();
    assert_eq!(contents(&r), "c\n");
}

#[test]
fn undo_everything_then_redo_everything_restores() {
    let mut r = recorded("hello\nworld\n");
    r.move_to(5);
    r.insert('!');
    r.step(Movement::Down);
    r.delete();
    r.delete();
    r.insert_forward('x');
    r.insert_forward('y');
    r.step(Movement::LineStart);
    r.delete_forward();
    r.insert('Z');
    let text = contents(&r);
    let pos = r.pos();
    let n = r.history_len();
    for _ in 0..n {
        r.undo();
    }
    assert_eq!(contents(&r), "hello\nworld\n");
    assert_eq!(r.pos(), 0);
    assert_eq!(r.history_len(), 0);
    for _ in 0..n {
        r.redo();
    }
    assert_eq!(contents(&r), text);
    assert_eq!(r.pos(), pos);
    assert_eq!(r.history_len(), n);
}

#[test]
fn undo_and_redo_on_empty_stacks_do_nothing() {
    let mut r = recorded("ab\n");
    r.undo();
    r.redo();
    assert_eq!(contents(&r), "ab\n");
    assert_eq!(r.history_len(), 0);
}

#[test]
fn a_new_edit_drops_the_redo_branch() {
    let mut r = recorded("\n");
    r.insert('a');
    r.undo();
    r.insert('b');
    r.redo();
    assert_eq!(contents(&r), "b\n");
}

#[test]
fn invert_and_join() {
    assert_eq!(Action::Insert(vec!['a']).invert(), Action::Delete(vec!['a']));
    assert_eq!(Action::DeleteForward(vec!['a']).invert(), Action::InsertForward(vec!['a']));
    assert_eq!(Action::Move(3).invert(), Action::Move(-3));
    let mut m = Action::Move(2);
    m.join(Action::Move(-5));
    assert_eq!(m, Action::Move(-3));
    let mut d = Action::Delete(vec!['b']);
    d.join(Action::Delete(vec!['a']));
    assert_eq!(d, Action::Delete(vec!['a', 'b']));
    let mut i = Action::InsertForward(vec!['a']);
    i.join(Action::InsertForward(vec!['b']));
    assert_eq!(i, Action::InsertForward(vec!['a', 'b']));
    assert!(Action::Move(1).same_kind(&Action::Move(7)));
    assert!(!Action::Move(1).same_kind(&Action::Insert(vec![])));
}
