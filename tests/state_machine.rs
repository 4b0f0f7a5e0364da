use tedit::command::{finish_save, paste, Command, Event, Key, MouseButton, MouseEvent, PromptAction, Request, State};
use tedit::record::{Recorded, Undoable};
use tedit::screen::{Rgb, Style};
use tedit::select::{Select, Selectable};
use tedit::text::{Editable, Named, Text};
use tedit::view::{EditorView, Palette};

type Doc = Select<Recorded<Text>>;

fn palette() -> Palette {
    let s = Style { foreground: Rgb { r: 9, g: 9, b: 9 }, background: Rgb { r: 0, g: 0, b: 0 } };
    Palette { text: s, gutter: s, status: s, selection: s }
}

fn doc(name: &str, s: &str) -> Doc {
    Select::new(Recorded::new(Text::open_file(String::from(name), Some(s)).unwrap()))
}

fn contents<T: Editable>(t: &T) -> String {
    (0..t.len()).map(|i| t.char_at(i)).collect()
}

fn key(k: Key) -> Event {
    Event::Key(k)
}

#[test]
fn save_with_empty_name_prompts_then_saves() {
    let mut d = Select::new(Recorded::new(Text::empty()));
    let mut v = EditorView::new(palette(), 80, 24);
    let (st, req) = State::Insert.handle(&mut d, &mut v, key(Key::Ctrl('s')));
    assert_eq!(st, State::Prompt(String::from("Save to: "), String::new(), PromptAction::Save));
    assert_eq!(req, Request::Nothing);
    let mut st = st;
    for c in "out.txt".chars() {
        let (next, req) = st.handle(&mut d, &mut v, key(Key::Char(c)));
        assert_eq!(req, Request::Nothing);
        st = next;
    }
    assert_eq!(v.current_message(), Some(String::from("Save to: out.txt")));
    let (st, req) = st.handle(&mut d, &mut v, key(Key::Char('\n')));
    assert_eq!(st, State::Message);
    assert_eq!(req, Request::Save(Some(String::new())));
    assert_eq!(d.name(), "out.txt");
    finish_save(&mut d, &mut v, Some(String::new()), Ok(()));
    assert_eq!(v.current_message(), Some(String::from("Saved file out.txt")));
    assert!(!d.was_modified());
}

#[test]
fn failed_save_restores_the_name() {
    let mut d = Select::new(Recorded::new(Text::empty()));
    let mut v = EditorView::new(palette(), 80, 24);
    d.set_name(String::from("old.txt"));
    d.set_name(String::from("new.txt"));
    finish_save(&mut d, &mut v, Some(String::from("old.txt")), Err(String::from("denied")));
    assert_eq!(d.name(), "old.txt");
    assert_eq!(v.current_message(), Some(String::from("denied")));
}

#[test]
fn save_with_a_name_asks_for_the_write() {
    let mut d = doc("a.txt", "x\n");
    let mut v = EditorView::new(palette(), 80, 24);
    let (st, req) = State::Insert.handle(&mut d, &mut v, key(Key::Ctrl('s')));
    assert_eq!(st, State::Message);
    assert_eq!(req, Request::Save(None));
}

#[test]
fn empty_name_at_save_prompt_is_an_error() {
    let mut d = doc("", "x\n");
    let mut v = EditorView::new(palette(), 80, 24);
    let st = State::Prompt(String::from("Save to: "), String::new(), PromptAction::Save);
    let (st, req) = st.handle(&mut d, &mut v, key(Key::Char('\n')));
    assert_eq!(st, State::Message);
    assert_eq!(req, Request::Nothing);
    assert_eq!(v.current_message(), Some(String::from("Can't write file with no name")));
}

#[test]
fn quit_unmodified_exits() {
    let mut d = doc("a", "x\n");
    let mut v = EditorView::new(palette(), 80, 24);
    let (st, _) = State::Insert.handle(&mut d, &mut v, key(Key::Ctrl('q')));
    assert_eq!(st, State::Exit);
}

#[test]
fn quit_modified_asks_first() {
    let mut d = doc("a", "x\n");
    let mut v = EditorView::new(palette(), 80, 24);
    let (st, _) = State::Insert.handle(&mut d, &mut v, key(Key::Char('z')));
    let (st, _) = st.handle(&mut d, &mut v, key(Key::Esc));
    assert!(matches!(st, State::Prompt(_, _, PromptAction::ConfirmExit)));
    let (st, _) = st.handle(&mut d, &mut v, key(Key::Char('n')));
    let (st, _) = st.handle(&mut d, &mut v, key(Key::Char('\n')));
    assert_eq!(st, State::Message);
    let (st, _) = st.handle(&mut d, &mut v, key(Key::Ctrl('q')));
    let (st, _) = st.handle(&mut d, &mut v, key(Key::Char('Y')));
    let (st, _) = st.handle(&mut d, &mut v, key(Key::Char('\n')));
    assert_eq!(st, State::Exit);
}

#[test]
fn open_prompt_flows() {
    let mut d = doc("a", "x\n");
    let mut v = EditorView::new(palette(), 80, 24);
    let (st, _) = State::Insert.handle(&mut d, &mut v, key(Key::Ctrl('o')));
    let (st, _) = st.handle(&mut d, &mut v, key(Key::Char('b')));
    let (st, _) = st.handle(&mut d, &mut v, key(Key::Char('c')));
    let (st, _) = st.handle(&mut d, &mut v, key(Key::Backspace));
    let (st, _) = st.handle(&mut d, &mut v, key(Key::Char('\n')));
    assert_eq!(st, State::Open(String::from("b")));

    d.insert('q');
    let (st, _) = State::Insert.handle(&mut d, &mut v, key(Key::Ctrl('o')));
    let (st, _) = st.handle(&mut d, &mut v, key(Key::Char('f')));
    let (st, _) = st.handle(&mut d, &mut v, key(Key::Char('\n')));
    assert_eq!(
        st,
        State::Prompt(
            String::from("Changes not saved do you really want to open a new file (y/N): "),
            String::new(),
            PromptAction::ConfirmOpen(String::from("f"))
        )
    );
    let (st, _) = st.handle(&mut d, &mut v, key(Key::Char('y')));
    let (st, _) = st.handle(&mut d, &mut v, key(Key::Char('\n')));
    assert_eq!(st, State::Open(String::from("f")));
}

#[test]
fn escape_leaves_a_prompt() {
    let mut d = doc("a", "x\n");
    let mut v = EditorView::new(palette(), 80, 24);
    let (st, _) = State::Insert.handle(&mut d, &mut v, key(Key::Ctrl('o')));
    let (st, _) = st.handle(&mut d, &mut v, key(Key::Esc));
    assert_eq!(st, State::Insert);
    assert_eq!(v.current_message(), None);
}

#[test]
fn typing_and_editing_keys() {
    let mut d = doc("a", "ab\ncd\n");
    let mut v = EditorView::new(palette(), 80, 24);
    let (st, _) = State::Insert.handle(&mut d, &mut v, key(Key::Char('x')));
    assert_eq!(contents(&d), "xab\ncd\n");
    let (st, _) = st.handle(&mut d, &mut v, key(Key::Down));
    assert_eq!(d.pos(), 5);
    let (st, _) = st.handle(&mut d, &mut v, key(Key::Backspace));
    assert_eq!(contents(&d), "xab\nd\n");
    let (st, _) = st.handle(&mut d, &mut v, key(Key::Delete));
    assert_eq!(contents(&d), "xab\n\n");
    let (st, _) = st.handle(&mut d, &mut v, key(Key::Ctrl('z')));
    assert_eq!(contents(&d), "xab\nd\n");
    let (st, _) = st.handle(&mut d, &mut v, key(Key::Ctrl('y')));
    assert_eq!(contents(&d), "xab\n\n");
    let (st, req) = st.handle(&mut d, &mut v, key(Key::Ctrl('v')));
    assert_eq!(req, Request::Paste);
    assert_eq!(st, State::Insert);
}

#[test]
fn unsupported_sequences_are_reported() {
    let mut d = doc("a", "x\n");
    let mut v = EditorView::new(palette(), 80, 24);
    let (st, _) = State::Insert.handle(&mut d, &mut v, Event::Unsupported(vec![27, 91, 50]));
    assert_eq!(st, State::Insert);
    assert_eq!(v.current_message(), Some(String::from("Unsupported escape sequence [27, 91, 50]")));
    let (st, _) = State::Message.handle(&mut d, &mut v, key(Key::Right));
    assert_eq!(st, State::Insert);
    assert_eq!(v.current_message(), None);
    assert_eq!(d.pos(), 1);
}

#[test]
fn drag_selects_and_typing_replaces() {
    let mut d = doc("a", "hello\n");
    let mut v = EditorView::new(palette(), 80, 24);
    let (st, _) = State::Insert.handle(&mut d, &mut v, Event::Mouse(MouseEvent::Press(MouseButton::Left, 4, 1)));
    assert_eq!(st, State::Select(1));
    let (st, _) = st.handle(&mut d, &mut v, Event::Mouse(MouseEvent::Hold(6, 1)));
    assert_eq!(st, State::Select(1));
    assert_eq!(*d.sel(), Some((1, 3)));
    let (st, _) = st.handle(&mut d, &mut v, Event::Mouse(MouseEvent::Release(6, 1)));
    assert_eq!(st, State::Selected);
    assert_eq!(d.slice_sel(), "ell");
    let (st, _) = st.handle(&mut d, &mut v, key(Key::Char('E')));
    assert_eq!(st, State::Insert);
    assert_eq!(contents(&d), "hEo\n");
    assert_eq!(*d.sel(), None);
}

#[test]
fn click_without_drag_selects_nothing() {
    let mut d = doc("a", "hello\n");
    let mut v = EditorView::new(palette(), 80, 24);
    let (st, _) = State::Insert.handle(&mut d, &mut v, Event::Mouse(MouseEvent::Press(MouseButton::Left, 4, 1)));
    let (st, _) = st.handle(&mut d, &mut v, Event::Mouse(MouseEvent::Release(4, 1)));
    assert_eq!(st, State::Insert);
    assert_eq!(*d.sel(), None);
}

#[test]
fn copy_and_cut_request_the_clipboard() {
    let mut d = doc("a", "hello\n");
    let mut v = EditorView::new(palette(), 80, 24);
    d.set_sel((0, 1));
    let (st, req) = State::Selected.handle(&mut d, &mut v, key(Key::Ctrl('c')));
    assert_eq!(st, State::Insert);
    assert_eq!(req, Request::Copy(String::from("he")));
    assert_eq!(contents(&d), "hello\n");
    d.set_sel((1, 2));
    let (st, req) = State::Selected.handle(&mut d, &mut v, key(Key::Ctrl('x')));
    assert_eq!(st, State::Insert);
    assert_eq!(req, Request::Copy(String::from("el")));
    assert_eq!(contents(&d), "hlo\n");
}

#[test]
fn other_events_drop_the_selection() {
    let mut d = doc("a", "hello\n");
    let mut v = EditorView::new(palette(), 80, 24);
    d.set_sel((1, 2));
    let (st, _) = State::Selected.handle(&mut d, &mut v, key(Key::Right));
    assert_eq!(st, State::Insert);
    assert_eq!(*d.sel(), None);
    assert_eq!(contents(&d), "hello\n");
}

#[test]
fn paste_types_the_text() {
    let mut d = doc("a", "ab\n");
    d.move_to(1);
    paste(&mut d, "XY");
    assert_eq!(contents(&d), "aXYb\n");
    assert_eq!(d.pos(), 3);
}

#[test]
fn command_keeps_the_state() {
    let mut c = Command::new();
    assert_eq!(*c.state(), State::Insert);
    let mut d = doc("a", "x\n");
    let mut v = EditorView::new(palette(), 80, 24);
    let req = c.treat_event(&mut d, &mut v, key(Key::Ctrl('q')));
    assert_eq!(req, Request::Nothing);
    assert_eq!(*c.state(), State::Exit);
}

#[test]
fn wheel_scrolls_the_view_only() {
    let mut d = doc("a", "1\n2\n3\n4\n5\n");
    let mut v = EditorView::new(palette(), 80, 24);
    let (st, _) = State::Insert.handle(&mut d, &mut v, Event::Mouse(MouseEvent::Press(MouseButton::WheelDown, 1, 1)));
    assert_eq!(st, State::Insert);
    assert_eq!(v.line_offset(), 2);
    assert_eq!(d.pos(), 0);
}

#[test]
fn copy_leaves_the_log_alone() {
    let mut d = doc("a", "hello\n");
    let mut v = EditorView::new(palette(), 80, 24);
    d.insert('x');
    d.undo();
    d.set_sel((0, 1));
    let (st, _) = State::Selected.handle(&mut d, &mut v, key(Key::Ctrl('c')));
    assert_eq!(st, State::Insert);
    d.redo();
    assert_eq!(contents(&d), "xhello\n");
}

#[test]
fn save_and_open_prompts_show_in_the_view() {
    let mut d = Select::new(Recorded::new(Text::empty()));
    let mut v = EditorView::new(palette(), 80, 24);
    State::Insert.handle(&mut d, &mut v, key(Key::Ctrl('s')));
    assert_eq!(v.current_message(), Some(String::from("Save to: ")));
    assert!(v.is_prompt());
    State::Insert.handle(&mut d, &mut v, key(Key::Ctrl('o')));
    assert_eq!(v.current_message(), Some(String::from("Open file: ")));
    assert!(v.is_prompt());
}
