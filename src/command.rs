//! The modal input state machine: terminal events in, buffer and view
//! changes out, with requests for the outside work (saving, the clipboard)
//! that the event loop performs.
use crate::lines::nls;
use crate::record::{log_state, redo_spec, undo_spec, Undoable};
use crate::select::Selectable;
use crate::strings::{chars_of, pop_char, push_char, string_of};
use crate::text::{at_target, step_target, Editable, Movement, Saveable, MAX_CHARS};
use crate::view::{click_column, click_line, dec, decimal, scrolled, text_rows, EditorView};
use vstd::prelude::*;

verus! {

pub const EXIT_PROMPT: &'static str = "Changes not saved do you really want to exit (y/N): ";

pub const OPEN_CONFIRM_PROMPT: &'static str = "Changes not saved do you really want to open a new file (y/N): ";

pub const SAVE_PROMPT: &'static str = "Save to: ";

pub const OPEN_PROMPT: &'static str = "Open file: ";

pub const SAVED: &'static str = "Saved file ";

pub const NO_NAME: &'static str = "Can't write file with no name";

pub const UNSUPPORTED: &'static str = "Unsupported escape sequence ";

/// How far a wheel notch scrolls, in lines.
pub const SCROLL_FACTOR: usize = 2;

/// A key press.
#[derive(Clone, Copy, Debug, PartialEq, Eq, Structural)]
pub enum Key {
    Backspace,
    Left,
    Right,
    Up,
    Down,
    Home,
    End,
    PageUp,
    PageDown,
    BackTab,
    Delete,
    Insert,
    F(u8),
    Char(char),
    Alt(char),
    Ctrl(char),
    Null,
    Esc,
}

#[derive(Clone, Copy, Debug, PartialEq, Eq, Structural)]
pub enum MouseButton {
    Left,
    Right,
    Middle,
    WheelUp,
    WheelDown,
}

/// A mouse event at a screen cell `(column, row)`, both counted from 1.
#[derive(Clone, Copy, Debug, PartialEq, Eq, Structural)]
pub enum MouseEvent {
    Press(MouseButton, u16, u16),
    Release(u16, u16),
    Hold(u16, u16),
}

/// A terminal event.
#[derive(Clone, Debug, PartialEq, Eq)]
pub enum Event {
    Key(Key),
    Mouse(MouseEvent),
    /// A byte sequence the terminal layer did not recognise.
    Unsupported(Vec<u8>),
}

/// What committing a prompt does.
#[derive(Clone, Debug, PartialEq, Eq)]
pub enum PromptAction {
    Save,
    ConfirmExit,
    Open,
    ConfirmOpen(String),
}

/// The editor's mode.
#[derive(Clone, Debug, PartialEq, Eq)]
pub enum State {
    Insert,
    /// A transient message shows; the next event clears it and is handled as in `Insert`.
    Message,
    /// The prompt text, what was typed so far, and what Enter does.
    Prompt(String, String, PromptAction),
    /// A mouse drag that started at the given offset.
    Select(usize),
    Selected,
    /// The document should be replaced by the named file.
    Open(String),
    Exit,
}

/// Outside work the event loop must do after a transition.
#[derive(Clone, Debug, PartialEq, Eq)]
pub enum Request {
    Nothing,
    /// Write the buffer to its file, then report with `finish_save`; on
    /// failure the name goes back to the one held here, if any.
    Save(Option<String>),
    /// Put the text on the clipboard.
    Copy(String),
    /// Read the clipboard and hand the text to `paste`.
    Paste,
}

/// A buffer the state machine can drive.
pub trait Document: Selectable + Undoable + Saveable {
}

impl<T: Selectable + Undoable + Saveable> Document for T {
}

/// The debug rendering of a byte list: `[1, 2, 3]`.
pub open spec fn byte_list(b: Seq<u8>) -> Seq<char>
    decreases b.len(),
{
    if b.len() == 0 {
        Seq::empty()
    } else if b.len() == 1 {
        dec(b[0] as nat)
    } else {
        byte_list(b.drop_last()) + seq![',', ' '] + dec(b.last() as nat)
    }
}

pub open spec fn yes(s: Seq<char>) -> bool {
    s == seq!['y'] || s == seq!['Y']
}

/// The prompt state with an empty input.
pub open spec fn fresh_prompt(st: State, text: Seq<char>) -> bool {
    match st {
        State::Prompt(p, i, _) => p@ == text && i@.len() == 0,
        _ => false,
    }
}

/// `a` and `b` hold the same text, cursor and log.
pub open spec fn same_doc<T: Document>(a: T, b: T) -> bool {
    &&& a.chars() == b.chars()
    &&& a.cursor() == b.cursor()
    &&& a.history() == b.history()
    &&& a.undone() == b.undone()
    &&& a.name_view() == b.name_view()
    &&& a.dirty() == b.dirty()
}

/// What handling `e` in insert mode does to the buffer, the view and the state.
pub open spec fn insert_effect<T: Document>(
    e: Event,
    o: T,
    n: T,
    ov: EditorView,
    nv: EditorView,
    r: (State, Request),
) -> bool {
    let s = o.chars();
    let p = o.cursor();
    n.name_view() == o.name_view() && match e {
        Event::Key(Key::Ctrl('q')) | Event::Key(Key::Esc) => {
            &&& same_doc(o, n)
            &&& r.1 is Nothing
            &&& if o.dirty() {
                &&& fresh_prompt(r.0, EXIT_PROMPT@)
                &&& r.0 matches State::Prompt(_, _, PromptAction::ConfirmExit)
                &&& nv.msg() == Some(EXIT_PROMPT@) && nv.prompting()
            } else {
                r.0 is Exit
            }
        },
        Event::Key(Key::Ctrl('s')) => {
            &&& same_doc(o, n)
            &&& if o.name_view().len() == 0 {
                &&& fresh_prompt(r.0, SAVE_PROMPT@)
                &&& r.0 matches State::Prompt(_, _, PromptAction::Save)
                &&& r.1 is Nothing
                &&& nv.msg() == Some(SAVE_PROMPT@) && nv.prompting()
            } else {
                r.0 is Message && r.1 == Request::Save(None)
            }
        },
        Event::Key(Key::Ctrl('o')) => {
            &&& same_doc(o, n)
            &&& fresh_prompt(r.0, OPEN_PROMPT@)
            &&& r.0 matches State::Prompt(_, _, PromptAction::Open)
            &&& r.1 is Nothing
            &&& nv.msg() == Some(OPEN_PROMPT@) && nv.prompting()
        },
        Event::Mouse(MouseEvent::Press(MouseButton::Left, x, y)) => {
            &&& n.chars() == s
            &&& r.0 == State::Select(n.cursor() as usize)
            &&& r.1 is Nothing
            &&& n.cursor() == at_target(
                s,
                click_line(ov.offset(), y as int, nls(s) as int),
                click_column(s, click_line(ov.offset(), y as int, nls(s) as int), x as int),
            )
        },
        Event::Mouse(MouseEvent::Press(MouseButton::WheelDown, _, _)) => {
            same_doc(o, n) && r.0 is Insert && nv.offset() == scrolled(ov.offset(), SCROLL_FACTOR as int, nls(s) as int)
        },
        Event::Mouse(MouseEvent::Press(MouseButton::WheelUp, _, _)) => {
            same_doc(o, n) && r.0 is Insert && nv.offset() == scrolled(ov.offset(), -(SCROLL_FACTOR as int), nls(s) as int)
        },
        Event::Key(Key::Ctrl('z')) => {
            r.0 is Insert && log_state(n.history(), n.undone(), n.chars(), n.cursor()) == undo_spec(log_state(o.history(), o.undone(), s, p))
        },
        Event::Key(Key::Ctrl('y')) => {
            r.0 is Insert && log_state(n.history(), n.undone(), n.chars(), n.cursor()) == redo_spec(log_state(o.history(), o.undone(), s, p))
        },
        Event::Key(Key::Ctrl('v')) => same_doc(o, n) && r.0 is Insert && r.1 is Paste,
        Event::Key(Key::Up) => r.0 is Insert && n.chars() == s && n.cursor() == step_target(s, p, Movement::Up),
        Event::Key(Key::Down) => r.0 is Insert && n.chars() == s && n.cursor() == step_target(s, p, Movement::Down),
        Event::Key(Key::Left) => r.0 is Insert && n.chars() == s && n.cursor() == step_target(s, p, Movement::Left),
        Event::Key(Key::Right) => r.0 is Insert && n.chars() == s && n.cursor() == step_target(s, p, Movement::Right),
        Event::Key(Key::PageUp) => {
            &&& r.0 is Insert
            &&& n.chars() == s
            &&& n.cursor() == step_target(s, p, Movement::PageUp(text_rows(ov.rows()) as usize))
        },
        Event::Key(Key::PageDown) => {
            &&& r.0 is Insert
            &&& n.chars() == s
            &&& n.cursor() == step_target(s, p, Movement::PageDown(text_rows(ov.rows()) as usize))
        },
        Event::Key(Key::Home) => r.0 is Insert && n.chars() == s && n.cursor() == step_target(s, p, Movement::LineStart),
        Event::Key(Key::End) => r.0 is Insert && n.chars() == s && n.cursor() == step_target(s, p, Movement::LineEnd),
        Event::Key(Key::Backspace) | Event::Key(Key::Ctrl('h')) => {
            &&& r.0 is Insert
            &&& p == 0 ==> n.chars() == s && n.cursor() == 0
            &&& p > 0 ==> n.chars() == s.remove(p - 1) && n.cursor() == p - 1
        },
        Event::Key(Key::Delete) => {
            &&& r.0 is Insert
            &&& n.cursor() == p
            &&& p + 1 == s.len() ==> n.chars() == s
            &&& p + 1 < s.len() ==> n.chars() == s.remove(p)
        },
        Event::Key(Key::Char(c)) => {
            &&& r.0 is Insert
            &&& s.len() < MAX_CHARS ==> n.chars() == s.insert(p, c) && n.cursor() == p + 1
            &&& s.len() >= MAX_CHARS ==> n.chars() == s && n.cursor() == p
        },
        Event::Unsupported(u) => {
            &&& same_doc(o, n)
            &&& r.0 is Insert
            &&& nv.msg() == Some(UNSUPPORTED@ + seq!['['] + byte_list(u@) + seq![']'])
        },
        _ => same_doc(o, n) && r.0 is Insert && r.1 is Nothing,
    }
}

/// What handling `e` at a prompt showing `prompt`, with `input` typed, does.
pub open spec fn prompt_effect<T: Document>(
    e: Event,
    prompt: Seq<char>,
    input: Seq<char>,
    action: PromptAction,
    o: T,
    n: T,
    nv: EditorView,
    r: (State, Request),
) -> bool {
    match e {
        Event::Key(Key::Char('\n')) => match action {
            PromptAction::Save => {
                &&& r.0 is Message
                &&& if input.len() == 0 {
                    same_doc(o, n) && r.1 is Nothing && nv.msg() == Some(NO_NAME@)
                } else {
                    &&& n.name_view() == input
                    &&& n.chars() == o.chars()
                    &&& n.cursor() == o.cursor()
                    &&& r.1 matches Request::Save(Some(old_name)) && old_name@ == o.name_view()
                }
            },
            PromptAction::ConfirmExit => {
                &&& same_doc(o, n)
                &&& r.1 is Nothing
                &&& if yes(input) {
                    r.0 is Exit
                } else {
                    r.0 is Message && nv.msg() == Some(Seq::<char>::empty())
                }
            },
            PromptAction::Open => {
                &&& same_doc(o, n)
                &&& r.1 is Nothing
                &&& if o.dirty() {
                    &&& fresh_prompt(r.0, OPEN_CONFIRM_PROMPT@)
                    &&& r.0 matches State::Prompt(_, _, PromptAction::ConfirmOpen(f)) && f@ == input
                    &&& nv.msg() == Some(OPEN_CONFIRM_PROMPT@) && nv.prompting()
                } else {
                    r.0 matches State::Open(f) && f@ == input
                }
            },
            PromptAction::ConfirmOpen(file) => {
                &&& same_doc(o, n)
                &&& r.1 is Nothing
                &&& if yes(input) {
                    r.0 == State::Open(file)
                } else {
                    r.0 is Message && nv.msg() == Some(Seq::<char>::empty())
                }
            },
        },
        Event::Key(Key::Char(c)) => {
            &&& same_doc(o, n)
            &&& r.1 is Nothing
            &&& r.0 matches State::Prompt(p2, i2, a2) && p2@ == prompt && i2@ == input.push(c) && a2 == action
            &&& nv.msg() == Some(prompt + input.push(c)) && nv.prompting()
        },
        Event::Key(Key::Backspace) | Event::Key(Key::Delete) => {
            let shorter = if input.len() > 0 { input.drop_last() } else { input };
            &&& same_doc(o, n)
            &&& r.1 is Nothing
            &&& r.0 matches State::Prompt(p2, i2, a2) && p2@ == prompt && i2@ == shorter && a2 == action
            &&& nv.msg() == Some(prompt + shorter) && nv.prompting()
        },
        Event::Key(Key::Ctrl('q')) => same_doc(o, n) && r.0 is Exit && r.1 is Nothing,
        Event::Key(Key::Esc) => {
            same_doc(o, n) && r.0 is Insert && r.1 is Nothing && nv.msg() is None && !nv.prompting()
        },
        _ => {
            &&& same_doc(o, n)
            &&& r.1 is Nothing
            &&& r.0 matches State::Prompt(p2, i2, a2) && p2@ == prompt && i2@ == input && a2 == action
        },
    }
}

pub open spec fn min_max(a: int, b: int) -> (usize, usize) {
    if a <= b { (a as usize, b as usize) } else { (b as usize, a as usize) }
}

/// What handling `e` during a drag that started at offset `origin` does.
pub open spec fn select_effect<T: Document>(
    e: Event,
    origin: usize,
    o: T,
    n: T,
    ov: EditorView,
    r: (State, Request),
) -> bool {
    let s = o.chars();
    match e {
        Event::Mouse(MouseEvent::Hold(x, y)) => {
            let l = click_line(ov.offset(), y as int, nls(s) as int);
            &&& n.chars() == s
            &&& n.cursor() == at_target(s, l, click_column(s, l, x as int))
            &&& n.selection() == Some(min_max(origin as int, n.cursor()))
            &&& r.0 == State::Select(origin)
            &&& r.1 is Nothing
        },
        Event::Mouse(MouseEvent::Release(x, y)) => {
            let l = click_line(ov.offset(), y as int, nls(s) as int);
            &&& n.chars() == s
            &&& n.cursor() == at_target(s, l, click_column(s, l, x as int))
            &&& r.1 is Nothing
            &&& if n.cursor() != origin {
                n.selection() == Some(min_max(origin as int, n.cursor())) && r.0 is Selected
            } else {
                n.selection() is None && r.0 is Insert
            }
        },
        _ => {
            &&& n.chars() == s
            &&& n.cursor() == o.cursor()
            &&& n.selection() == o.selection()
            &&& r.0 == State::Select(origin)
            &&& r.1 is Nothing
        },
    }
}

/// The text and cursor after the selection of `o` is erased.
pub open spec fn erased<T: Document>(o: T) -> (Seq<char>, int) {
    match o.selection() {
        Some((b, e)) => (
            o.chars().take(b as int) + o.chars().skip(crate::select::sel_stop(e as int, o.chars().len() as int)),
            b as int,
        ),
        None => (o.chars(), o.cursor()),
    }
}

/// The text of the selection of `o`.
pub open spec fn selected_text<T: Document>(o: T) -> Seq<char> {
    match o.selection() {
        Some((b, e)) => o.chars().subrange(b as int, e + 1),
        None => Seq::empty(),
    }
}

/// What handling `e` with a finished selection does.
pub open spec fn selected_effect<T: Document>(
    e: Event,
    o: T,
    n: T,
    ov: EditorView,
    nv: EditorView,
    r: (State, Request),
) -> bool {
    &&& n.selection() is None
    &&& n.name_view() == o.name_view()
    &&& match e {
        Event::Key(Key::Ctrl('c')) => {
            &&& same_doc(o, n)
            &&& r.0 is Insert
            &&& r.1 matches Request::Copy(t) && t@ == selected_text(o)
        },
        Event::Key(Key::Ctrl('x')) => {
            &&& (n.chars(), n.cursor()) == erased(o)
            &&& n.history() == erased_log(o)
            &&& r.0 is Insert
            &&& r.1 matches Request::Copy(t) && t@ == selected_text(o)
        },
        Event::Key(Key::Backspace) | Event::Key(Key::Delete) => {
            &&& (n.chars(), n.cursor()) == erased(o)
            &&& n.history() == erased_log(o)
            &&& r.0 is Insert
            &&& r.1 is Nothing
        },
        Event::Key(Key::Char(_)) => exists|mid: T, mv: EditorView|
            {
                &&& (mid.chars(), mid.cursor()) == erased(o)
                &&& mid.history() == erased_log(o)
                &&& mid.name_view() == o.name_view()
                &&& mv.rows() == ov.rows()
                &&& insert_effect(e, mid, n, mv, nv, r)
            },
        _ => insert_effect(e, o, n, ov, nv, r),
    }
}

/// The undo history after the selection of `o` is erased.
pub open spec fn erased_log<T: Document>(o: T) -> Seq<crate::record::Edit> {
    match o.selection() {
        Some((b, e)) => crate::select::erase_log(o.history(), o.chars(), o.cursor(), b as int, e as int),
        None => o.history(),
    }
}

/// What insert mode states of a buffer depends only on its text, cursor,
/// log, name and modified flag.
proof fn lemma_insert_effect_frame<T: Document>(
    e: Event,
    o: T,
    n1: T,
    n2: T,
    ov: EditorView,
    nv: EditorView,
    r: (State, Request),
)
    requires
        insert_effect(e, o, n1, ov, nv, r),
        same_doc(n1, n2),
    ensures
        insert_effect(e, o, n2, ov, nv, r),
{
}

/// What handling `e` in state `st` does.
pub open spec fn transition<T: Document>(
    st: State,
    e: Event,
    o: T,
    n: T,
    ov: EditorView,
    nv: EditorView,
    r: (State, Request),
) -> bool {
    match st {
        State::Insert => insert_effect(e, o, n, ov, nv, r),
        State::Message => exists|mv: EditorView|
            {
                &&& mv.msg() is None
                &&& mv.offset() == ov.offset()
                &&& mv.rows() == ov.rows()
                &&& insert_effect(e, o, n, mv, nv, r)
            },
        State::Prompt(p, i, a) => prompt_effect(e, p@, i@, a, o, n, nv, r),
        State::Select(origin) => select_effect(e, origin, o, n, ov, r),
        State::Selected => selected_effect(e, o, n, ov, nv, r),
        _ => false,
    }
}

/// Whether `s` answers yes: `y` in either case.
pub fn is_yes(s: &String) -> (r: bool)
    ensures
        r == yes(s@),
{
    let t = s.as_str();
    if t.unicode_len() != 1 {
        return false;
    }
    let c = t.get_char(0);
    proof {
        if c == 'y' {
            assert(s@ =~= seq!['y']);
        }
        if c == 'Y' {
            assert(s@ =~= seq!['Y']);
        }
    }
    c == 'y' || c == 'Y'
}

/// A new `String` holding `s`.
fn owned(s: &str) -> (r: String)
    ensures
        r@ == s@,
{
    string_of(&chars_of(s))
}

/// The message for an unrecognised byte sequence.
pub fn unsupported_message(bytes: &Vec<u8>) -> (r: String)
    ensures
        r@ == UNSUPPORTED@ + seq!['['] + byte_list(bytes@) + seq![']'],
{
    let mut out = chars_of(UNSUPPORTED);
    out.push('[');
    let ghost head = out@;
    let mut i: usize = 0;
    while i < bytes.len()
        invariant
            0 <= i <= bytes.len(),
            out@ == head + byte_list(bytes@.take(i as int)),
        decreases bytes.len() - i,
    {
        let ghost before = out@;
        if i > 0 {
            out.push(',');
            out.push(' ');
        }
        let mut digits = chars_of(decimal(bytes[i] as usize).as_str());
        out.append(&mut digits);
        i = i + 1;
        proof {
            let t = bytes@.take(i as int);
            assert(t.drop_last() =~= bytes@.take(i - 1));
            if i == 1 {
                assert(bytes@.take(0) =~= Seq::<u8>::empty());
                assert(out@ =~= head + byte_list(t));
            } else {
                assert(out@ =~= head + byte_list(t));
            }
        }
    }
    proof {
        assert(bytes@.take(bytes@.len() as int) =~= bytes@);
    }
    out.push(']');
    string_of(&out)
}

proof fn lemma_line_fits<T: Editable>(content: &T)
    requires
        content.inv(),
    ensures
        crate::lines::line_of(content.chars(), content.cursor()) < MAX_CHARS,
        nls(content.chars()) <= MAX_CHARS,
{
    content.lemma_inv();
    crate::lines::lemma_cursor_line(content.chars(), content.cursor());
    crate::lines::lemma_nls_le_len(content.chars());
}

impl State {
    /// Handles `event` in insert mode.
    pub fn handle_insert<T: Document>(content: &mut T, view: &mut EditorView, event: Event) -> (r: (State, Request))
        requires
            old(content).inv(),
            old(view).inv(),
        ensures
            final(content).inv(),
            final(view).inv(),
            insert_effect(event, *old(content), *final(content), *old(view), *final(view), r),
    {
        proof {
            content.lemma_inv();
        }
        match event {
            Event::Key(Key::Ctrl('q')) | Event::Key(Key::Esc) => {
                if content.was_modified() {
                    let prompt = owned(EXIT_PROMPT);
                    let message = String::new();
                    view.prompt(prompt.as_str(), message.as_str());
                    proof {
                        assert(EXIT_PROMPT@ + message@ =~= EXIT_PROMPT@);
                    }
                    (State::Prompt(prompt, message, PromptAction::ConfirmExit), Request::Nothing)
                } else {
                    (State::Exit, Request::Nothing)
                }
            },
            Event::Key(Key::Ctrl('s')) => {
                if content.name().as_str().unicode_len() == 0 {
                    let prompt = owned(SAVE_PROMPT);
                    let message = String::new();
                    view.prompt(prompt.as_str(), message.as_str());
                    (State::Prompt(prompt, message, PromptAction::Save), Request::Nothing)
                } else {
                    (State::Message, Request::Save(None))
                }
            },
            Event::Key(Key::Ctrl('o')) => {
                let prompt = owned(OPEN_PROMPT);
                let message = String::new();
                view.prompt(prompt.as_str(), message.as_str());
                (State::Prompt(prompt, message, PromptAction::Open), Request::Nothing)
            },
            Event::Mouse(MouseEvent::Press(MouseButton::Left, x, y)) => {
                let at = view.translate_coordinates(content, x, y);
                content.move_at(at.line, at.column);
                (State::Select(content.pos()), Request::Nothing)
            },
            Event::Mouse(MouseEvent::Press(MouseButton::WheelDown, _, _)) => {
                view.scroll_view(SCROLL_FACTOR as isize, content);
                (State::Insert, Request::Nothing)
            },
            Event::Mouse(MouseEvent::Press(MouseButton::WheelUp, _, _)) => {
                view.scroll_view(-(SCROLL_FACTOR as isize), content);
                (State::Insert, Request::Nothing)
            },
            Event::Key(Key::Ctrl('z')) => {
                content.undo();
                (State::Insert, Request::Nothing)
            },
            Event::Key(Key::Ctrl('y')) => {
                content.redo();
                (State::Insert, Request::Nothing)
            },
            Event::Key(Key::Ctrl('v')) => (State::Insert, Request::Paste),
            Event::Key(Key::Up) => {
                content.step(Movement::Up);
                proof { lemma_line_fits(content); }
                view.adjust_view(content.line());
                (State::Insert, Request::Nothing)
            },
            Event::Key(Key::Down) => {
                content.step(Movement::Down);
                proof { lemma_line_fits(content); }
                view.adjust_view(content.line());
                (State::Insert, Request::Nothing)
            },
            Event::Key(Key::Left) => {
                content.step(Movement::Left);
                proof { lemma_line_fits(content); }
                view.adjust_view(content.line());
                (State::Insert, Request::Nothing)
            },
            Event::Key(Key::Right) => {
                content.step(Movement::Right);
                proof { lemma_line_fits(content); }
                view.adjust_view(content.line());
                (State::Insert, Request::Nothing)
            },
            Event::Key(Key::PageUp) => {
                content.step(Movement::PageUp(view.lines_height()));
                proof { lemma_line_fits(content); }
                view.center_view(content.line());
                (State::Insert, Request::Nothing)
            },
            Event::Key(Key::PageDown) => {
                content.step(Movement::PageDown(view.lines_height()));
                proof { lemma_line_fits(content); }
                view.center_view(content.line());
                (State::Insert, Request::Nothing)
            },
            Event::Key(Key::Home) => {
                content.step(Movement::LineStart);
                (State::Insert, Request::Nothing)
            },
            Event::Key(Key::End) => {
                content.step(Movement::LineEnd);
                (State::Insert, Request::Nothing)
            },
            Event::Key(Key::Backspace) | Event::Key(Key::Ctrl('h')) => {
                content.delete();
                proof { lemma_line_fits(content); }
                view.adjust_view(content.line());
                (State::Insert, Request::Nothing)
            },
            Event::Key(Key::Delete) => {
                content.delete_forward();
                proof { lemma_line_fits(content); }
                view.adjust_view(content.line());
                (State::Insert, Request::Nothing)
            },
            Event::Key(Key::Char(c)) => {
                if content.len() < MAX_CHARS {
                    content.insert(c);
                }
                proof { lemma_line_fits(content); }
                view.adjust_view(content.line());
                (State::Insert, Request::Nothing)
            },
            Event::Unsupported(u) => {
                let msg = unsupported_message(&u);
                view.message(msg.as_str());
                (State::Insert, Request::Nothing)
            },
            _ => (State::Insert, Request::Nothing),
        }
    }

    /// Handles `event` at a prompt.
    pub fn handle_prompt<T: Document>(
        content: &mut T,
        view: &mut EditorView,
        event: Event,
        prompt: String,
        message: String,
        action: PromptAction,
    ) -> (r: (State, Request))
        requires
            old(content).inv(),
            old(view).inv(),
        ensures
            final(content).inv(),
            final(view).inv(),
            prompt_effect(event, prompt@, message@, action, *old(content), *final(content), *final(view), r),
    {
        let mut message = message;
        match event {
            Event::Key(Key::Char('\n')) => match action {
                PromptAction::Save => {
                    if message.as_str().unicode_len() == 0 {
                        view.message(NO_NAME);
                        (State::Message, Request::Nothing)
                    } else {
                        let old_name = owned(content.name().as_str());
                        content.set_name(message);
                        (State::Message, Request::Save(Some(old_name)))
                    }
                },
                PromptAction::ConfirmExit => {
                    if is_yes(&message) {
                        (State::Exit, Request::Nothing)
                    } else {
                        view.message("");
                        proof {
                            reveal_strlit("");
                            assert(""@ =~= Seq::<char>::empty());
                        }
                        (State::Message, Request::Nothing)
                    }
                },
                PromptAction::Open => {
                    let filename = message;
                    if content.was_modified() {
                        let prompt = owned(OPEN_CONFIRM_PROMPT);
                        let message = String::new();
                        view.prompt(prompt.as_str(), message.as_str());
                        proof {
                            assert(OPEN_CONFIRM_PROMPT@ + message@ =~= OPEN_CONFIRM_PROMPT@);
                        }
                        (State::Prompt(prompt, message, PromptAction::ConfirmOpen(filename)), Request::Nothing)
                    } else {
                        (State::Open(filename), Request::Nothing)
                    }
                },
                PromptAction::ConfirmOpen(filename) => {
                    if is_yes(&message) {
                        (State::Open(filename), Request::Nothing)
                    } else {
                        view.message("");
                        proof {
                            reveal_strlit("");
                            assert(""@ =~= Seq::<char>::empty());
                        }
                        (State::Message, Request::Nothing)
                    }
                },
            },
            Event::Key(Key::Char(c)) => {
                push_char(&mut message, c);
                view.prompt(prompt.as_str(), message.as_str());
                (State::Prompt(prompt, message, action), Request::Nothing)
            },
            Event::Key(Key::Backspace) | Event::Key(Key::Delete) => {
                pop_char(&mut message);
                view.prompt(prompt.as_str(), message.as_str());
                (State::Prompt(prompt, message, action), Request::Nothing)
            },
            Event::Key(Key::Ctrl('q')) => (State::Exit, Request::Nothing),
            Event::Key(Key::Esc) => {
                view.quiet();
                (State::Insert, Request::Nothing)
            },
            _ => (State::Prompt(prompt, message, action), Request::Nothing),
        }
    }

    /// Handles `event` while a drag that started at `origin` goes on.
    pub fn handle_select<T: Document>(content: &mut T, view: &mut EditorView, event: Event, origin: usize) -> (r: (State, Request))
        requires
            old(content).inv(),
            old(view).inv(),
            origin < old(content).chars().len(),
        ensures
            final(content).inv(),
            final(view).inv(),
            select_effect(event, origin, *old(content), *final(content), *old(view), r),
    {
        match event {
            Event::Mouse(MouseEvent::Hold(x, y)) => {
                let at = view.translate_coordinates(content, x, y);
                content.move_at(at.line, at.column);
                proof {
                    content.lemma_inv();
                }
                let pos = content.pos();
                let sel = if origin <= pos { (origin, pos) } else { (pos, origin) };
                content.set_sel(sel);
                (State::Select(origin), Request::Nothing)
            },
            Event::Mouse(MouseEvent::Release(x, y)) => {
                let at = view.translate_coordinates(content, x, y);
                content.move_at(at.line, at.column);
                proof {
                    content.lemma_inv();
                }
                let pos = content.pos();
                if origin != pos {
                    let sel = if origin <= pos { (origin, pos) } else { (pos, origin) };
                    content.set_sel(sel);
                    (State::Selected, Request::Nothing)
                } else {
                    content.reset_sel();
                    (State::Insert, Request::Nothing)
                }
            },
            _ => (State::Select(origin), Request::Nothing),
        }
    }

    /// Handles `event` while a selection is shown.
    pub fn handle_selected<T: Document>(content: &mut T, view: &mut EditorView, event: Event) -> (r: (State, Request))
        requires
            old(content).inv(),
            old(view).inv(),
        ensures
            final(content).inv(),
            final(view).inv(),
            selected_effect(event, *old(content), *final(content), *old(view), *final(view), r),
    {
        match event {
            Event::Key(Key::Ctrl('c')) => {
                let selection = content.slice_sel();
                content.reset_sel();
                (State::Insert, Request::Copy(selection))
            },
            Event::Key(Key::Ctrl('x')) => {
                let selection = content.slice_sel();
                content.delete_sel();
                proof { lemma_line_fits(content); }
                view.adjust_view(content.line());
                content.reset_sel();
                (State::Insert, Request::Copy(selection))
            },
            Event::Key(Key::Backspace) | Event::Key(Key::Delete) => {
                content.delete_sel();
                proof { lemma_line_fits(content); }
                view.adjust_view(content.line());
                content.reset_sel();
                (State::Insert, Request::Nothing)
            },
            Event::Key(Key::Char(c)) => {
                content.delete_sel();
                proof { lemma_line_fits(content); }
                view.adjust_view(content.line());
                let ghost mid = *content;
                let ghost mv = *view;
                let r = State::handle_insert(content, view, Event::Key(Key::Char(c)));
                let ghost done = *content;
                content.reset_sel();
                proof {
                    lemma_insert_effect_frame(event, mid, done, *content, mv, *view, r);
                    assert(exists|mid: T, mv: EditorView|
                        {
                            &&& (mid.chars(), mid.cursor()) == erased(*old(content))
                            &&& mid.history() == erased_log(*old(content))
                            &&& mid.name_view() == old(content).name_view()
                            &&& mv.rows() == old(view).rows()
                            &&& insert_effect(event, mid, *content, mv, *view, r)
                        });
                }
                r
            },
            _ => {
                let r = State::handle_insert(content, view, event);
                let ghost done = *content;
                content.reset_sel();
                proof {
                    lemma_insert_effect_frame(event, *old(content), done, *content, *old(view), *view, r);
                }
                r
            },
        }
    }

    /// Handles `event` while a message shows: the message goes, then the
    /// event is handled as in insert mode.
    pub fn handle_message<T: Document>(content: &mut T, view: &mut EditorView, event: Event) -> (r: (State, Request))
        requires
            old(content).inv(),
            old(view).inv(),
        ensures
            final(content).inv(),
            final(view).inv(),
            transition(State::Message, event, *old(content), *final(content), *old(view), *final(view), r),
    {
        view.quiet();
        let ghost mv = *view;
        let r = State::handle_insert(content, view, event);
        proof {
            assert(insert_effect(event, *old(content), *content, mv, *view, r));
            assert(exists|mv: EditorView|
                {
                    &&& mv.msg() is None
                    &&& mv.offset() == old(view).offset()
                    &&& mv.rows() == old(view).rows()
                    &&& insert_effect(event, *old(content), *content, mv, *view, r)
                });
        }
        r
    }

    /// Handles a terminal event, consuming the current state and returning the
    /// next one with the outside work it asks for. `Open` and `Exit` are final:
    /// the event loop acts on them instead of handing them events.
    pub fn handle<T: Document>(self, content: &mut T, view: &mut EditorView, event: Event) -> (r: (State, Request))
        requires
            old(content).inv(),
            old(view).inv(),
            !(self is Open),
            !(self is Exit),
            self matches State::Select(origin) ==> origin < old(content).chars().len(),
        ensures
            final(content).inv(),
            final(view).inv(),
            transition(self, event, *old(content), *final(content), *old(view), *final(view), r),
    {
        match self {
            State::Prompt(prompt, message, action) => State::handle_prompt(content, view, event, prompt, message, action),
            State::Select(origin) => State::handle_select(content, view, event, origin),
            State::Insert => State::handle_insert(content, view, event),
            State::Message => State::handle_message(content, view, event),
            State::Selected => State::handle_selected(content, view, event),
            State::Open(_) | State::Exit => {
                proof {
                    assert(false);
                }
                (State::Exit, Request::Nothing)
            },
        }
    }
}

/// Reports the outcome of a save that `Request::Save(restore)` asked for:
/// on success the buffer counts as saved and the message names the file; on
/// failure the name goes back to `restore`, if any, and the error shows.
pub fn finish_save<T: Document>(
    content: &mut T,
    view: &mut EditorView,
    restore: Option<String>,
    outcome: Result<(), String>,
)
    requires
        old(content).inv(),
        old(view).inv(),
    ensures
        final(content).inv(),
        final(view).inv(),
        final(content).chars() == old(content).chars(),
        final(content).cursor() == old(content).cursor(),
        match outcome {
            Ok(()) => {
                &&& !final(content).dirty()
                &&& final(content).name_view() == old(content).name_view()
                &&& final(view).msg() == Some(SAVED@ + old(content).name_view())
            },
            Err(e) => {
                &&& final(content).dirty() == old(content).dirty()
                &&& final(content).name_view() == match restore {
                    Some(n) => n@,
                    None => old(content).name_view(),
                }
                &&& final(view).msg() == Some(e@)
            },
        },
{
    match outcome {
        Ok(()) => {
            content.mark_saved();
            let mut text = chars_of(SAVED);
            let mut name = chars_of(content.name().as_str());
            text.append(&mut name);
            let msg = string_of(&text);
            view.message(msg.as_str());
        },
        Err(e) => {
            match restore {
                Some(old_name) => content.set_name(old_name),
                None => {},
            }
            view.message(e.as_str());
        },
    }
}

/// Types `text`, taken from the clipboard, at the cursor; characters that
/// would take the buffer past `MAX_CHARS` are dropped.
pub fn paste<T: Document>(content: &mut T, text: &str)
    requires
        old(content).inv(),
    ensures
        final(content).inv(),
        old(content).chars().len() + text@.len() <= MAX_CHARS ==> {
            &&& final(content).chars() == old(content).chars().take(old(content).cursor()) + text@
                + old(content).chars().skip(old(content).cursor())
            &&& final(content).cursor() == old(content).cursor() + text@.len()
        },
{
    let ghost s = content.chars();
    let ghost p = content.cursor();
    proof {
        content.lemma_inv();
    }
    let chars = chars_of(text);
    let mut i: usize = 0;
    while i < chars.len()
        invariant
            content.inv(),
            0 <= i <= chars.len(),
            chars@ == text@,
            0 <= p <= s.len(),
            s.len() + text@.len() <= MAX_CHARS ==> {
                &&& content.chars() == s.take(p) + text@.take(i as int) + s.skip(p)
                &&& content.cursor() == p + i
            },
        decreases chars.len() - i,
    {
        if content.len() < MAX_CHARS {
            content.insert(chars[i]);
            proof {
                if s.len() + text@.len() <= MAX_CHARS {
                    assert(content.chars() =~= s.take(p) + text@.take(i + 1) + s.skip(p));
                }
            }
        }
        i = i + 1;
    }
    proof {
        assert(text@.take(text@.len() as int) =~= text@);
    }
}

/// The event loop's hold on the state machine.
pub struct Command {
    state: State,
}

impl Command {
    pub closed spec fn state_spec(&self) -> State {
        self.state
    }

    /// A machine in insert mode.
    pub fn new() -> (r: Command)
        ensures
            r.state_spec() is Insert,
    {
        Command { state: State::Insert }
    }

    pub fn state(&self) -> (r: &State)
        ensures
            *r == self.state_spec(),
    {
        &self.state
    }

    /// Hands `event` to the current state and keeps the next one; returns the
    /// outside work to do.
    pub fn treat_event<T: Document>(&mut self, content: &mut T, view: &mut EditorView, event: Event) -> (r: Request)
        requires
            old(content).inv(),
            old(view).inv(),
            !(old(self).state_spec() is Open),
            !(old(self).state_spec() is Exit),
            old(self).state_spec() matches State::Select(origin) ==> origin < old(content).chars().len(),
        ensures
            final(content).inv(),
            final(view).inv(),
            transition(
                old(self).state_spec(),
                event,
                *old(content),
                *final(content),
                *old(view),
                *final(view),
                (final(self).state_spec(), r),
            ),
    {
        let mut current = State::Insert;
        core::mem::swap(&mut current, &mut self.state);
        let (next, request) = current.handle(content, view, event);
        self.state = next;
        request
    }
}

} // verus!
