//! The text buffer: a rope of characters with a cursor, and the interface that
//! every layer stacked on it shares.
use crate::lines::{
    lemma_cursor_line, lemma_in_line, lemma_line_bounds, lemma_line_start_exists,
    lemma_line_start_unique, lemma_offset_in_line, line_len, line_of, line_start, nls, terminated,
};
use crate::rope::{
    rope_char, rope_char_to_line, rope_from_str, rope_insert_char, rope_len, rope_len_lines,
    rope_line_to_char, rope_remove, rope_chars,
};
use vstd::prelude::*;

verus! {

/// Largest number of characters a buffer may hold, so that every offset and
/// every difference of offsets, and four times the length (the display width
/// of a line of tabs), fit in a machine word.
pub const MAX_CHARS: usize = 0x0fff_ffff;

/// A cursor motion.
#[derive(Clone, Copy, Debug, PartialEq, Eq, Structural)]
pub enum Movement {
    Up,
    Down,
    Left,
    Right,
    LineStart,
    LineEnd,
    PageUp(usize),
    PageDown(usize),
}

/// A buffer state that every layer keeps: a terminated text of bounded size
/// and a cursor on one of its characters.
pub open spec fn buffer_ok(s: Seq<char>, p: int) -> bool {
    &&& terminated(s)
    &&& s.len() <= MAX_CHARS
    &&& 0 <= p < s.len()
}

pub open spec fn min(a: int, b: int) -> int {
    if a <= b { a } else { b }
}

/// Column of offset `p` in its line.
pub open spec fn col_of(s: Seq<char>, p: int) -> int {
    p - line_start(s, line_of(s, p) as int)
}

/// Offset on line `l` at column `col`, clamped to the offset of the line's terminator.
pub open spec fn clamp_in_line(s: Seq<char>, l: int, col: int) -> int {
    line_start(s, l) + min(col, line_len(s, l) - 1)
}

/// Where a motion takes the cursor from offset `p`.
pub open spec fn step_target(s: Seq<char>, p: int, mov: Movement) -> int {
    let l = line_of(s, p) as int;
    let last = nls(s) - 1;
    match mov {
        Movement::Up => if l > 0 { clamp_in_line(s, l - 1, col_of(s, p)) } else { p },
        Movement::Down => if l < last { clamp_in_line(s, l + 1, col_of(s, p)) } else { p },
        Movement::Left => if p > 0 { p - 1 } else { p },
        Movement::Right => if p + 1 < s.len() { p + 1 } else { p },
        Movement::LineStart => line_start(s, l),
        Movement::LineEnd => line_start(s, l + 1) - 1,
        Movement::PageUp(n) => line_start(s, if l < n { 0 } else { l - n }),
        Movement::PageDown(n) => line_start(s, min(l + n, last)),
    }
}

/// Where `move_at(line, col)` puts the cursor: both coordinates clamped.
pub open spec fn at_target(s: Seq<char>, line: int, col: int) -> int {
    clamp_in_line(s, min(line, nls(s) - 1), col)
}

/// Motions on the boundaries of a buffer leave the cursor where it is: left at
/// the first offset, right at the last one, up on the first line, down on the last.
pub proof fn lemma_boundary_moves(s: Seq<char>, p: int)
    requires
        buffer_ok(s, p),
    ensures
        p == 0 ==> step_target(s, p, Movement::Left) == p,
        p == s.len() - 1 ==> step_target(s, p, Movement::Right) == p,
        line_of(s, p) == 0 ==> step_target(s, p, Movement::Up) == p,
        line_of(s, p) == nls(s) - 1 ==> step_target(s, p, Movement::Down) == p,
{
}

/// The operations shared by a buffer and by every layer wrapped around it.
pub trait Editable {
    /// The characters of the buffer.
    spec fn chars(&self) -> Seq<char>;

    /// The cursor offset.
    spec fn cursor(&self) -> int;

    /// Whether the content changed since it was loaded or last saved.
    spec fn dirty(&self) -> bool;

    /// The name of the file the buffer belongs to.
    spec fn name_view(&self) -> Seq<char>;

    /// The layer's own well-formedness.
    spec fn inv(&self) -> bool;

    proof fn lemma_inv(&self)
        requires
            self.inv(),
        ensures
            buffer_ok(self.chars(), self.cursor()),
    ;

    fn step(&mut self, mov: Movement)
        requires
            old(self).inv(),
        ensures
            final(self).inv(),
            final(self).name_view() == old(self).name_view(),
            final(self).chars() == old(self).chars(),
            final(self).dirty() == old(self).dirty(),
            final(self).cursor() == step_target(old(self).chars(), old(self).cursor(), mov),
    ;

    fn move_to(&mut self, pos: usize)
        requires
            old(self).inv(),
            pos < old(self).chars().len(),
        ensures
            final(self).inv(),
            final(self).name_view() == old(self).name_view(),
            final(self).chars() == old(self).chars(),
            final(self).dirty() == old(self).dirty(),
            final(self).cursor() == pos,
    ;

    fn move_at(&mut self, line: usize, col: usize)
        requires
            old(self).inv(),
        ensures
            final(self).inv(),
            final(self).name_view() == old(self).name_view(),
            final(self).chars() == old(self).chars(),
            final(self).dirty() == old(self).dirty(),
            final(self).cursor() == at_target(old(self).chars(), line as int, col as int),
    ;

    /// Inserts `c` before the cursor and moves past it.
    fn insert(&mut self, c: char)
        requires
            old(self).inv(),
            old(self).chars().len() < MAX_CHARS,
        ensures
            final(self).inv(),
            final(self).name_view() == old(self).name_view(),
            final(self).chars() == old(self).chars().insert(old(self).cursor(), c),
            final(self).cursor() == old(self).cursor() + 1,
            final(self).dirty(),
    ;

    /// Inserts `c` at the cursor and stays before it.
    fn insert_forward(&mut self, c: char)
        requires
            old(self).inv(),
            old(self).chars().len() < MAX_CHARS,
        ensures
            final(self).inv(),
            final(self).name_view() == old(self).name_view(),
            final(self).chars() == old(self).chars().insert(old(self).cursor(), c),
            final(self).cursor() == old(self).cursor(),
            final(self).dirty(),
    ;

    /// Removes the character before the cursor, if there is one.
    fn delete(&mut self) -> (r: Option<char>)
        requires
            old(self).inv(),
        ensures
            final(self).inv(),
            final(self).name_view() == old(self).name_view(),
            old(self).cursor() == 0 ==> r is None && final(self).chars() == old(self).chars()
                && final(self).cursor() == 0 && final(self).dirty() == old(self).dirty(),
            old(self).cursor() > 0 ==> r == Some(old(self).chars()[old(self).cursor() - 1])
                && final(self).chars() == old(self).chars().remove(old(self).cursor() - 1)
                && final(self).cursor() == old(self).cursor() - 1 && final(self).dirty(),
    ;

    /// Removes the character at the cursor, unless it is the final terminator.
    fn delete_forward(&mut self) -> (r: Option<char>)
        requires
            old(self).inv(),
        ensures
            final(self).inv(),
            final(self).name_view() == old(self).name_view(),
            final(self).cursor() == old(self).cursor(),
            old(self).cursor() + 1 == old(self).chars().len() ==> r is None && final(self).chars()
                == old(self).chars() && final(self).dirty() == old(self).dirty(),
            old(self).cursor() + 1 < old(self).chars().len() ==> r == Some(
                old(self).chars()[old(self).cursor()],
            ) && final(self).chars() == old(self).chars().remove(old(self).cursor())
                && final(self).dirty(),
    ;

    fn pos(&self) -> (r: usize)
        requires
            self.inv(),
        ensures
            r == self.cursor(),
    ;

    fn line(&self) -> (r: usize)
        requires
            self.inv(),
        ensures
            r == line_of(self.chars(), self.cursor()),
    ;

    fn col(&self) -> (r: usize)
        requires
            self.inv(),
        ensures
            r == col_of(self.chars(), self.cursor()),
    ;

    /// Number of lines; the empty remainder after the final terminator is not one.
    fn line_count(&self) -> (r: usize)
        requires
            self.inv(),
        ensures
            r == nls(self.chars()),
    ;

    fn len(&self) -> (r: usize)
        requires
            self.inv(),
        ensures
            r == self.chars().len(),
    ;

    fn char_at(&self, i: usize) -> (r: char)
        requires
            self.inv(),
            i < self.chars().len(),
        ensures
            r == self.chars()[i as int],
    ;

    /// Offset of the first character of `line`.
    fn line_index_to_char_index(&self, line: usize) -> (r: usize)
        requires
            self.inv(),
            line <= nls(self.chars()),
        ensures
            r == line_start(self.chars(), line as int),
    ;

    fn was_modified(&self) -> (r: bool)
        requires
            self.inv(),
        ensures
            r == self.dirty(),
    ;
}

/// A buffer that has a file name.
pub trait Named: Editable {
    fn name(&self) -> (r: &String)
        ensures
            r@ == self.name_view(),
    ;

    fn set_name(&mut self, name: String)
        requires
            old(self).inv(),
        ensures
            final(self).inv(),
            final(self).name_view() == name@,
            final(self).chars() == old(self).chars(),
            final(self).cursor() == old(self).cursor(),
            final(self).dirty() == old(self).dirty(),
    ;
}

/// A rope-backed buffer with a cursor and the name of the file it belongs to.
pub struct Text {
    pos: usize,
    text: ropey::Rope,
    name: String,
    modified: bool,
}

/// The text a loaded file becomes: a missing final terminator is added.
pub open spec fn normalized(s: Seq<char>) -> Seq<char> {
    if terminated(s) {
        s
    } else {
        s.push('\n')
    }
}

impl Text {
    /// An unnamed buffer holding a single empty line.
    pub fn empty() -> (r: Text)
        ensures
            r.inv(),
            r.chars() == seq!['\n'],
            r.cursor() == 0,
            r.name_view() == Seq::<char>::empty(),
            !r.dirty(),
    {
        proof {
            reveal_strlit("\n");
        }
        let text = rope_from_str("\n");
        proof {
            assert(rope_chars(text) =~= seq!['\n']);
        }
        Text { pos: 0, text, name: String::new(), modified: false }
    }

    /// The buffer for the file `filename`, given what reading it gave: `None`
    /// for a file that does not exist yet, which opens as an empty buffer
    /// under that name, or the file's contents. Contents of `MAX_CHARS`
    /// characters or more are refused.
    pub fn open_file(filename: String, contents: Option<&str>) -> (r: Option<Text>)
        ensures
            r is Some <==> (contents matches Some(c) ==> c@.len() < MAX_CHARS),
            r matches Some(t) ==> {
                &&& t.inv()
                &&& t.chars() == match contents {
                    Some(c) => normalized(c@),
                    None => seq!['\n'],
                }
                &&& t.cursor() == 0
                &&& t.name_view() == filename@
                &&& !t.dirty()
            },
    {
        match contents {
            None => {
                let mut t = Text::empty();
                t.name = filename;
                Some(t)
            },
            Some(c) => {
                let mut text = rope_from_str(c);
                let len = rope_len(&text);
                if len >= MAX_CHARS {
                    return None;
                }
                if len == 0 || rope_char(&text, len - 1) != '\n' {
                    rope_insert_char(&mut text, len, '\n');
                }
                proof {
                    assert(rope_chars(text) =~= normalized(c@));
                }
                Some(Text { pos: 0, text, name: filename, modified: false })
            },
        }
    }
}

impl Editable for Text {
    closed spec fn chars(&self) -> Seq<char> {
        rope_chars(self.text)
    }

    closed spec fn cursor(&self) -> int {
        self.pos as int
    }

    closed spec fn dirty(&self) -> bool {
        self.modified
    }

    closed spec fn name_view(&self) -> Seq<char> {
        self.name@
    }

    closed spec fn inv(&self) -> bool {
        buffer_ok(rope_chars(self.text), self.pos as int)
    }

    proof fn lemma_inv(&self) {
    }

    fn step(&mut self, mov: Movement) {
        let ghost s = rope_chars(self.text);
        let p = self.pos;
        proof {
            lemma_cursor_line(s, p as int);
        }
        let line = rope_char_to_line(&self.text, p);
        let count = rope_len_lines(&self.text) - 1;
        let start = rope_line_to_char(&self.text, line);
        let next = rope_line_to_char(&self.text, line + 1);
        proof {
            lemma_line_bounds(s, start as int, next as int, line as int);
            lemma_offset_in_line(s, p as int, start as int, next as int, line as int);
        }
        let col = p - start;
        match mov {
            Movement::Up => {
                if line > 0 {
                    let prev = rope_line_to_char(&self.text, line - 1);
                    proof {
                        lemma_line_bounds(s, prev as int, start as int, line - 1);
                    }
                    let width = start - prev - 1;
                    self.pos = prev + if col < width { col } else { width };
                }
            },
            Movement::Down => {
                if line + 1 < count {
                    let after = rope_line_to_char(&self.text, line + 2);
                    proof {
                        lemma_line_bounds(s, next as int, after as int, line + 1);
                    }
                    let width = after - next - 1;
                    self.pos = next + if col < width { col } else { width };
                }
            },
            Movement::PageUp(up) => {
                let target = if line < up { 0 } else { line - up };
                let t = rope_line_to_char(&self.text, target);
                proof {
                    lemma_line_start_unique(s, t as int, target as int);
                    lemma_line_start_exists(s, target + 1);
                    lemma_line_bounds(s, t as int, line_start(s, target + 1), target as int);
                }
                self.pos = t;
            },
            Movement::PageDown(down) => {
                let target = if down < count - 1 - line { line + down } else { count - 1 };
                let t = rope_line_to_char(&self.text, target);
                proof {
                    lemma_line_start_unique(s, t as int, target as int);
                    lemma_line_start_exists(s, target + 1);
                    lemma_line_bounds(s, t as int, line_start(s, target + 1), target as int);
                }
                self.pos = t;
            },
            Movement::Left => {
                if p > 0 {
                    self.pos = p - 1;
                }
            },
            Movement::Right => {
                if p + 1 < rope_len(&self.text) {
                    self.pos = p + 1;
                }
            },
            Movement::LineStart => {
                self.pos = start;
            },
            Movement::LineEnd => {
                self.pos = next - 1;
            },
        }
    }

    fn move_to(&mut self, pos: usize) {
        self.pos = pos;
    }

    fn move_at(&mut self, line: usize, col: usize) {
        let ghost s = rope_chars(self.text);
        proof {
            lemma_cursor_line(s, self.pos as int);
        }
        let count = rope_len_lines(&self.text) - 1;
        let l = if line < count { line } else { count - 1 };
        let start = rope_line_to_char(&self.text, l);
        let next = rope_line_to_char(&self.text, l + 1);
        proof {
            lemma_line_bounds(s, start as int, next as int, l as int);
        }
        let width = next - start - 1;
        self.pos = start + if col < width { col } else { width };
    }

    fn insert(&mut self, c: char) {
        let ghost s = rope_chars(self.text);
        rope_insert_char(&mut self.text, self.pos, c);
        self.pos = self.pos + 1;
        self.modified = true;
        proof {
            assert(rope_chars(self.text).last() == s.last());
        }
    }

    fn insert_forward(&mut self, c: char) {
        let ghost s = rope_chars(self.text);
        rope_insert_char(&mut self.text, self.pos, c);
        self.modified = true;
        proof {
            assert(rope_chars(self.text).last() == s.last());
        }
    }

    fn delete(&mut self) -> (r: Option<char>) {
        let ghost s = rope_chars(self.text);
        if self.pos == 0 {
            None
        } else {
            self.pos = self.pos - 1;
            let ch = rope_char(&self.text, self.pos);
            rope_remove(&mut self.text, self.pos, self.pos + 1);
            self.modified = true;
            proof {
                assert(rope_chars(self.text) =~= s.remove(self.pos as int));
            }
            Some(ch)
        }
    }

    fn delete_forward(&mut self) -> (r: Option<char>) {
        let ghost s = rope_chars(self.text);
        if self.pos + 1 < rope_len(&self.text) {
            let ch = rope_char(&self.text, self.pos);
            rope_remove(&mut self.text, self.pos, self.pos + 1);
            self.modified = true;
            proof {
                assert(rope_chars(self.text) =~= s.remove(self.pos as int));
            }
            Some(ch)
        } else {
            None
        }
    }

    fn pos(&self) -> (r: usize) {
        self.pos
    }

    fn line(&self) -> (r: usize) {
        rope_char_to_line(&self.text, self.pos)
    }

    fn col(&self) -> (r: usize) {
        let ghost s = rope_chars(self.text);
        proof {
            lemma_cursor_line(s, self.pos as int);
        }
        let line = rope_char_to_line(&self.text, self.pos);
        let start = rope_line_to_char(&self.text, line);
        proof {
            lemma_line_start_unique(s, start as int, line as int);
            lemma_in_line(s, self.pos as int);
        }
        self.pos - start
    }

    fn line_count(&self) -> (r: usize) {
        rope_len_lines(&self.text) - 1
    }

    fn len(&self) -> (r: usize) {
        rope_len(&self.text)
    }

    fn char_at(&self, i: usize) -> (r: char) {
        rope_char(&self.text, i)
    }

    fn line_index_to_char_index(&self, line: usize) -> (r: usize) {
        let r = rope_line_to_char(&self.text, line);
        proof {
            lemma_line_start_unique(rope_chars(self.text), r as int, line as int);
        }
        r
    }

    fn was_modified(&self) -> (r: bool) {
        self.modified
    }
}

impl Named for Text {
    fn name(&self) -> (r: &String) {
        &self.name
    }

    fn set_name(&mut self, name: String) {
        self.name = name;
    }
}

/// A named buffer that can be told its content was written out.
pub trait Saveable: Named {
    /// Records that the content was written to the file named `name()`.
    fn mark_saved(&mut self)
        requires
            old(self).inv(),
        ensures
            final(self).inv(),
            final(self).chars() == old(self).chars(),
            final(self).cursor() == old(self).cursor(),
            final(self).name_view() == old(self).name_view(),
            !final(self).dirty(),
    ;
}

impl Saveable for Text {
    fn mark_saved(&mut self) {
        self.modified = false;
    }
}

} // verus!
