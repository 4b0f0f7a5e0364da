//! The view: which lines are visible, where the cursor shows, and how a
//! buffer is painted onto the screen.
use crate::lines::{line_len, line_of, line_start, nls};
use crate::screen::{
    blank_grid, frame, overlay, put, spans_cells, styled, styled_cells, Cell, Screen, Span, Style, TermOp,
};
use crate::select::Selectable;
use crate::strings::{chars_of, push_char, string_of};
use crate::text::{buffer_ok, col_of, Editable, Named, MAX_CHARS};
use crate::select::Selection;
use vstd::prelude::*;

verus! {

/// How many columns a tab takes on screen.
pub const TAB_LENGTH: usize = 4;

/// Rows below the text: the status line and the message line.
pub const STATUS_HEIGHT: usize = 2;

/// A line and a column of a buffer.
#[derive(Clone, Copy, Debug, PartialEq, Eq, Structural)]
pub struct Position {
    pub line: usize,
    pub column: usize,
}

impl Position {
    pub fn new(line: usize, column: usize) -> (r: Position)
        ensures
            r.line == line,
            r.column == column,
    {
        Position { line, column }
    }
}

/// The styles the view paints with.
#[derive(Clone, Copy, Debug, PartialEq, Eq, Structural)]
pub struct Palette {
    pub text: Style,
    pub gutter: Style,
    pub status: Style,
    pub selection: Style,
}

/// Screen columns a character takes.
pub open spec fn char_width(c: char) -> int {
    if c == '\t' { TAB_LENGTH as int } else { 1 }
}

/// Screen columns the first `k` characters of `s` from offset `start` take.
pub open spec fn visual_width(s: Seq<char>, start: int, k: int) -> int
    decreases k,
{
    if k <= 0 {
        0
    } else {
        visual_width(s, start, k - 1) + char_width(s[start + k - 1])
    }
}

/// How a character is shown: a tab as spaces, the terminator as a blank.
pub open spec fn shown_as(c: char) -> Seq<char> {
    if c == '\t' {
        seq![' ', ' ', ' ', ' ']
    } else if c == '\n' {
        seq![' ']
    } else {
        seq![c]
    }
}

/// How a run of characters is shown.
pub open spec fn expand(s: Seq<char>) -> Seq<char>
    decreases s.len(),
{
    if s.len() == 0 {
        Seq::empty()
    } else {
        expand(s.drop_last()) + shown_as(s.last())
    }
}

pub open spec fn digit(d: int) -> char {
    ((d + 48) as u8) as char
}

/// Decimal digits of `n`.
pub open spec fn dec(n: nat) -> Seq<char>
    decreases n,
{
    if n < 10 {
        seq![digit(n as int)]
    } else {
        dec(n / 10).push(digit((n % 10) as int))
    }
}

pub open spec fn pow10(k: nat) -> nat
    decreases k,
{
    if k == 0 {
        1
    } else {
        10 * pow10((k - 1) as nat)
    }
}

pub proof fn lemma_dec_len(n: nat, k: nat)
    requires
        1 <= k,
        n < pow10(k),
    ensures
        1 <= dec(n).len() <= k,
    decreases n,
{
    if n >= 10 {
        let p = pow10((k - 1) as nat);
        assert(n / 10 < p) by (nonlinear_arith)
            requires
                n < 10 * p,
        ;
        if k == 1 {
            assert(pow10(0) == 1);
        } else {
            lemma_dec_len(n / 10, (k - 1) as nat);
        }
    }
}

pub proof fn lemma_dec_usize(n: usize)
    ensures
        1 <= dec(n as nat).len() <= 20,
{
    reveal_with_fuel(pow10, 21);
    assert(pow10(20) == 100000000000000000000nat);
    lemma_dec_len(n as nat, 20);
}

/// The decimal digits of `n`.
pub fn decimal(n: usize) -> (r: String)
    ensures
        r@ == dec(n as nat),
    decreases n,
{
    if n < 10 {
        let mut r = String::new();
        push_char(&mut r, ((n as u8) + 48) as char);
        proof {
            assert(r@ =~= dec(n as nat));
        }
        r
    } else {
        let mut r = decimal(n / 10);
        push_char(&mut r, (((n % 10) as u8) + 48) as char);
        r
    }
}

/// Rows left for text on a screen `h` rows high.
pub open spec fn text_rows(h: int) -> int {
    if h > STATUS_HEIGHT { h - STATUS_HEIGHT } else { 0 }
}

/// Columns left for text beside the line numbers of a buffer of `count` lines.
pub open spec fn text_cols(w: int, count: nat) -> int {
    if w > dec(count).len() + 1 { w - dec(count).len() - 1 } else { 0 }
}

/// The first visible line after the cursor line `line` is brought into a
/// window of `rows` rows starting at `off`, shifting it as little as possible.
pub open spec fn adjusted(off: int, line: int, rows: int) -> int {
    if line < off {
        line
    } else if line + 1 >= off + rows {
        1 + line - rows
    } else {
        off
    }
}

/// The first visible line that puts `line` in the middle of `rows` rows.
pub open spec fn centered(line: int, rows: int) -> int {
    if line >= rows / 2 { line - rows / 2 } else { 0 }
}

/// The first visible line after scrolling `off` by `delta`, kept on the buffer's lines.
pub open spec fn scrolled(off: int, delta: int, count: int) -> int {
    let t = off + delta;
    if t < 0 { 0 } else if t > count - 1 { count - 1 } else { t }
}

/// The line a click on screen row `y` lands on (rows count from 1).
pub open spec fn click_line(off: int, y: int, count: int) -> int {
    let l = if y + off >= 1 { y + off - 1 } else { 0 };
    if l < count - 1 { l } else { count - 1 }
}

/// The screen column of text that a click on column `x` lands on (columns count from 1).
pub open spec fn click_visual_col(x: int, count: nat) -> int {
    if x > dec(count).len() + 2 { x - dec(count).len() - 2 } else { 0 }
}

/// The column a click reaches on the line of `s` that starts at `start` and
/// holds `len` characters: it moves past each character whose display still
/// ends at or before screen column `vc` of the text, from column `k` on.
pub open spec fn click_col_from(s: Seq<char>, start: int, len: int, vc: int, k: int) -> int
    decreases len - k,
{
    if k < len && visual_width(s, start, k + 1) <= vc {
        click_col_from(s, start, len, vc, k + 1)
    } else {
        k
    }
}

/// The buffer column a click at screen column `x` reaches on line `l`.
pub open spec fn click_column(s: Seq<char>, l: int, x: int) -> int {
    click_col_from(s, line_start(s, l), line_len(s, l), click_visual_col(x, nls(s)), 0)
}

/// The left part of the status line: the file name, starred when modified.
pub open spec fn status_name(name: Seq<char>, dirty: bool) -> Seq<char> {
    if dirty {
        name + seq![' ', '*']
    } else {
        name
    }
}

/// The right part of the status line, `P% L/N: C`: how far down the cursor
/// line is in percent, that line counted from 1, the number of lines, and the
/// cursor column.
pub open spec fn status_info(s: Seq<char>, p: int) -> Seq<char> {
    let l = line_of(s, p);
    let n = nls(s);
    dec((((l + 1) * 100) / n) as nat) + seq!['%', ' '] + dec(l + 1) + seq!['/'] + dec(n) + seq![
        ':',
        ' ',
    ] + dec(col_of(s, p) as nat)
}

/// `n` blank cells in `style`.
pub open spec fn blank_cells(n: int, style: Style) -> Seq<Cell> {
    let c = Cell { style, glyph: ' ' };
    Seq::new(n as nat, |_i| c)
}

/// Where the right part of the status line starts on a screen `w` columns wide.
pub open spec fn info_column(w: int, info: Seq<char>) -> int {
    if w > info.len() { w - info.len() } else { 0 }
}

/// The status line drawn over `row`: blanked in `style`, the name on the
/// left, the position information on the right.
pub open spec fn status_row(row: Seq<Cell>, w: int, style: Style, name: Seq<char>, info: Seq<char>) -> Seq<Cell> {
    overlay(
        overlay(overlay(row, 0, blank_cells(w, style)), 0, styled(style, name)),
        info_column(w, info),
        styled(style, info),
    )
}

/// `g` with the selected characters among the first `k` of the line of `s`
/// that starts at `start` painted again in `style`, on row `y` from column
/// `left` on, each where its display starts.
pub open spec fn sel_overlay(
    g: Seq<Seq<Cell>>,
    s: Seq<char>,
    start: int,
    k: int,
    y: int,
    left: int,
    b: int,
    e: int,
    style: Style,
) -> Seq<Seq<Cell>>
    decreases k,
{
    if k <= 0 {
        g
    } else {
        let prev = sel_overlay(g, s, start, k - 1, y, left, b, e, style);
        let j = start + k - 1;
        if b <= j <= e {
            put(prev, left + visual_width(s, start, k - 1), y, styled(style, shown_as(s[j])))
        } else {
            prev
        }
    }
}

/// `g` with window row `y` painted: the number of its line in the gutter,
/// then from column `left` the line's highlighted spans, or its plain display
/// when there are none for the row, then its selected characters again.
pub open spec fn paint_row(
    g: Seq<Seq<Cell>>,
    s: Seq<char>,
    sel: Option<Selection>,
    spans: Seq<Vec<Span>>,
    pal: Palette,
    off: int,
    y: int,
    left: int,
) -> Seq<Seq<Cell>> {
    let line = off + y;
    let start = line_start(s, line);
    let g1 = put(g, 0, y, styled(pal.gutter, dec((line + 1) as nat)));
    let g2 = if y < spans.len() {
        put(g1, left, y, spans_cells(spans[y]@))
    } else {
        put(g1, left, y, styled(pal.text, expand(s.subrange(start, line_start(s, line + 1)))))
    };
    match sel {
        Some((b, e)) => sel_overlay(g2, s, start, line_len(s, line), y, left, b as int, e as int, pal.selection),
        None => g2,
    }
}

/// `g` with the first `n` window rows painted.
pub open spec fn painted(
    g: Seq<Seq<Cell>>,
    s: Seq<char>,
    sel: Option<Selection>,
    spans: Seq<Vec<Span>>,
    pal: Palette,
    off: int,
    left: int,
    n: int,
) -> Seq<Seq<Cell>>
    decreases n,
{
    if n <= 0 {
        g
    } else {
        paint_row(painted(g, s, sel, spans, pal, off, left, n - 1), s, sel, spans, pal, off, n - 1, left)
    }
}

/// How many window rows show a line: as many as fit, and as there are lines from `off` on.
pub open spec fn visible_rows(rows: int, count: int, off: int) -> int {
    if off >= count {
        0
    } else if rows < count - off {
        rows
    } else {
        count - off
    }
}

/// How a character shows on screen, as a string.
fn shown_text(c: char) -> (r: String)
    ensures
        r@ == shown_as(c),
{
    let mut v: Vec<char> = Vec::new();
    if c == '\t' {
        v.push(' ');
        v.push(' ');
        v.push(' ');
        v.push(' ');
    } else if c == '\n' {
        v.push(' ');
    } else {
        v.push(c);
    }
    proof {
        assert(v@ =~= shown_as(c));
    }
    string_of(&v)
}

/// A view over a buffer: its window of lines, its message line and its screen.
pub struct EditorView {
    message: Option<String>,
    is_prompt: bool,
    line_offset: usize,
    screen: Screen,
    palette: Palette,
}

impl EditorView {
    /// The first visible line.
    pub closed spec fn offset(&self) -> int {
        self.line_offset as int
    }

    /// The text on the message line, if any.
    pub closed spec fn msg(&self) -> Option<Seq<char>> {
        match self.message {
            Some(m) => Some(m@),
            None => None,
        }
    }

    /// Whether the message line holds a prompt being typed into.
    pub closed spec fn prompting(&self) -> bool {
        self.is_prompt
    }

    pub closed spec fn screen_spec(&self) -> Screen {
        self.screen
    }

    pub open spec fn rows(&self) -> int {
        self.screen_spec().height_spec()
    }

    pub open spec fn cols(&self) -> int {
        self.screen_spec().width_spec()
    }

    pub closed spec fn palette_spec(&self) -> Palette {
        self.palette
    }

    pub closed spec fn inv(&self) -> bool {
        &&& self.screen.inv()
        &&& self.line_offset <= MAX_CHARS
        &&& self.screen.style_spec() == self.palette.text
    }

    pub fn new(palette: Palette, width: u16, height: u16) -> (r: EditorView)
        requires
            (width as int) * (height as int) <= isize::MAX,
        ensures
            r.inv(),
            r.offset() == 0,
            r.msg() is None,
            !r.prompting(),
            r.rows() == height,
            r.cols() == width,
    {
        EditorView {
            message: None,
            is_prompt: false,
            line_offset: 0,
            screen: Screen::with_default_style(palette.text, width, height),
            palette,
        }
    }

    pub fn line_offset(&self) -> (r: usize)
        ensures
            r == self.offset(),
    {
        self.line_offset
    }

    /// The message line's text, if any.
    pub fn current_message(&self) -> (r: Option<String>)
        ensures
            match r {
                Some(m) => self.msg() == Some(m@),
                None => self.msg() is None,
            },
    {
        match &self.message {
            Some(m) => Some(string_of(&chars_of(m.as_str()))),
            None => None,
        }
    }

    pub fn is_prompt(&self) -> (r: bool)
        ensures
            r == self.prompting(),
    {
        self.is_prompt
    }

    /// Shows `message` on the message line.
    pub fn message(&mut self, message: &str)
        requires
            old(self).inv(),
        ensures
            final(self).inv(),
            final(self).msg() == Some(message@),
            !final(self).prompting(),
            final(self).offset() == old(self).offset(),
            final(self).screen_spec() == old(self).screen_spec(),
    {
        self.is_prompt = false;
        self.message = Some(string_of(&chars_of(message)));
    }

    /// Shows `prompt` followed by what was typed so far, and puts the cursor after it.
    pub fn prompt(&mut self, prompt: &str, message: &str)
        requires
            old(self).inv(),
        ensures
            final(self).inv(),
            final(self).msg() == Some(prompt@ + message@),
            final(self).prompting(),
            final(self).offset() == old(self).offset(),
            final(self).screen_spec() == old(self).screen_spec(),
    {
        self.is_prompt = true;
        let mut all = chars_of(prompt);
        let mut rest = chars_of(message);
        all.append(&mut rest);
        self.message = Some(string_of(&all));
    }

    /// Empties the message line.
    pub fn quiet(&mut self)
        requires
            old(self).inv(),
        ensures
            final(self).inv(),
            final(self).msg() is None,
            !final(self).prompting(),
            final(self).offset() == old(self).offset(),
            final(self).screen_spec() == old(self).screen_spec(),
    {
        self.is_prompt = false;
        self.message = None;
    }

    /// Number of screen rows that show text.
    pub fn lines_height(&self) -> (r: usize)
        ensures
            r == text_rows(self.rows()),
    {
        let h = self.screen.height();
        if h > STATUS_HEIGHT { h - STATUS_HEIGHT } else { 0 }
    }

    /// Number of screen columns that show text, beside the line numbers.
    pub fn lines_width(&self, line_count: usize) -> (r: usize)
        ensures
            r == text_cols(self.cols(), line_count as nat),
    {
        let w = self.screen.width();
        let n = line_number_width(line_count);
        if w > n + 1 { w - n - 1 } else { 0 }
    }

    /// Puts `line` in the middle of the window.
    pub fn center_view(&mut self, line: usize)
        requires
            old(self).inv(),
            line < MAX_CHARS,
        ensures
            final(self).inv(),
            final(self).offset() == centered(line as int, text_rows(old(self).rows())),
            final(self).msg() == old(self).msg(),
            final(self).prompting() == old(self).prompting(),
            final(self).screen_spec() == old(self).screen_spec(),
    {
        let half = self.lines_height() / 2;
        self.line_offset = if line >= half { line - half } else { 0 };
    }

    /// Shifts the window as little as needed to show `line`.
    pub fn adjust_view(&mut self, line: usize)
        requires
            old(self).inv(),
            line < MAX_CHARS,
        ensures
            final(self).inv(),
            final(self).offset() == adjusted(old(self).offset(), line as int, text_rows(old(self).rows())),
            final(self).msg() == old(self).msg(),
            final(self).prompting() == old(self).prompting(),
            final(self).screen_spec() == old(self).screen_spec(),
    {
        proof {
            self.screen.lemma_dims();
        }
        let rows = self.lines_height();
        if line < self.line_offset {
            self.line_offset = line;
        } else if line + 1 >= self.line_offset + rows {
            self.line_offset = 1 + line - rows;
        }
    }

    /// Scrolls the window by `offset` lines, staying on the buffer's lines.
    pub fn scroll_view<T: Editable>(&mut self, offset: isize, content: &T)
        requires
            old(self).inv(),
            content.inv(),
        ensures
            final(self).inv(),
            final(self).offset() == scrolled(old(self).offset(), offset as int, nls(content.chars()) as int),
            final(self).msg() == old(self).msg(),
            final(self).prompting() == old(self).prompting(),
            final(self).screen_spec() == old(self).screen_spec(),
    {
        proof {
            content.lemma_inv();
            crate::lines::lemma_cursor_line(content.chars(), content.cursor());
            crate::lines::lemma_nls_le_len(content.chars());
        }
        let last = content.line_count() - 1;
        let t = self.line_offset as i128 + offset as i128;
        self.line_offset = if t < 0 {
            0
        } else if t > last as i128 {
            last
        } else {
            t as usize
        };
    }

    /// The buffer position under the screen cell `(x, y)` (both from 1): the
    /// line, clamped to the buffer, and the column of the first character
    /// whose display ends past the clicked column (a tab takes several columns).
    pub fn translate_coordinates<T: Editable>(&self, content: &T, x: u16, y: u16) -> (r: Position)
        requires
            self.inv(),
            content.inv(),
        ensures
            r.line == click_line(self.offset(), y as int, nls(content.chars()) as int),
            r.column == click_column(content.chars(), r.line as int, x as int),
    {
        let ghost s = content.chars();
        proof {
            content.lemma_inv();
            crate::lines::lemma_cursor_line(s, content.cursor());
        }
        let count = content.line_count();
        let yy = y as usize + self.line_offset;
        let raw = if yy >= 1 { yy - 1 } else { 0 };
        let line = if raw < count - 1 { raw } else { count - 1 };
        let n = line_number_width(count);
        let xx = x as usize;
        let vc = if xx > n + 2 { xx - n - 2 } else { 0 };
        let start = content.line_index_to_char_index(line);
        let next = content.line_index_to_char_index(line + 1);
        proof {
            crate::lines::lemma_line_start_exists(s, line as int);
            crate::lines::lemma_line_start_exists(s, line + 1);
            crate::lines::lemma_line_bounds(s, start as int, next as int, line as int);
        }
        let len = next - start;
        let mut col: usize = 0;
        let mut width: usize = 0;
        let mut past = false;
        while col < len && !past
            invariant
                content.inv(),
                buffer_ok(s, content.cursor()),
                s == content.chars(),
                start + len <= s.len(),
                len == line_len(s, line as int),
                start == line_start(s, line as int),
                0 <= col <= len,
                width == visual_width(s, start as int, col as int),
                width <= 4 * col,
                width <= vc,
                past ==> col < len && visual_width(s, start as int, col + 1) > vc,
                click_col_from(s, start as int, len as int, vc as int, col as int)
                    == click_col_from(s, start as int, len as int, vc as int, 0),
            decreases len - col + if past { 0int } else { 1 },
        {
            let c = content.char_at(start + col);
            let w = if c == '\t' { TAB_LENGTH } else { 1 };
            if width + w > vc {
                past = true;
            } else {
                width = width + w;
                col = col + 1;
            }
        }
        Position::new(line, col)
    }

    /// Screen position of the cursor: after the line numbers, at the display
    /// width of what precedes it on its line, on its row of the window.
    pub fn cursor_pos<T: Editable>(&self, content: &T) -> (r: (usize, usize))
        requires
            self.inv(),
            content.inv(),
            line_of(content.chars(), content.cursor()) >= self.offset(),
        ensures
            ({
                let s = content.chars();
                let l = line_of(s, content.cursor());
                &&& r.1 == l - self.offset()
                &&& r.0 == dec(nls(s)).len() + 1 + visual_width(s, line_start(s, l as int), col_of(s, content.cursor()))
            }),
    {
        let ghost s = content.chars();
        proof {
            content.lemma_inv();
            crate::lines::lemma_cursor_line(s, content.cursor());
            crate::lines::lemma_in_line(s, content.cursor());
        }
        let line = content.line();
        let col = content.col();
        let start = content.line_index_to_char_index(line);
        let mut i: usize = 0;
        let mut width: usize = 0;
        while i < col
            invariant
                content.inv(),
                buffer_ok(s, content.cursor()),
                s == content.chars(),
                start + col == content.cursor(),
                0 <= i <= col,
                width == visual_width(s, start as int, i as int),
                width <= 4 * i,
            decreases col - i,
        {
            let c = content.char_at(start + i);
            width = width + if c == '\t' { TAB_LENGTH } else { 1 };
            i = i + 1;
        }
        (line_number_width(content.line_count()) + 1 + width, line - self.line_offset)
    }
}

/// Where the terminal cursor goes after painting, if it shows: nowhere when
/// the buffer cursor is outside the window or a selection is shown; after the
/// prompt when one is typed into; else on the buffer cursor.
pub open spec fn cursor_spot(
    s: Seq<char>,
    p: int,
    sel: Option<Selection>,
    off: int,
    rows: int,
    cols: int,
    msg: Option<Seq<char>>,
    prompting: bool,
) -> Option<(usize, usize)> {
    let l = line_of(s, p) as int;
    let col = col_of(s, p);
    if l < off || l >= off + text_rows(rows) || col >= text_cols(cols, nls(s)) || sel is Some {
        None
    } else if prompting {
        Some(
            (
                (match msg {
                    Some(m) => m.len() as int,
                    None => 0,
                }) as usize,
                (text_rows(rows) + 1) as usize,
            ),
        )
    } else {
        Some(
            (
                (dec(nls(s)).len() + 1 + visual_width(s, line_start(s, l), col)) as usize,
                (l - off) as usize,
            ),
        )
    }
}

impl EditorView {
    /// Paints the message line, if there is a message.
    fn paint_message(&mut self)
        requires
            old(self).inv(),
        ensures
            final(self).inv(),
            final(self).screen.drawn() == match old(self).msg() {
                Some(m) => put(
                    old(self).screen.drawn(),
                    0,
                    text_rows(old(self).rows()) + 1,
                    styled(old(self).screen.style_spec(), m),
                ),
                None => old(self).screen.drawn(),
            },
            final(self).screen.shown() == old(self).screen.shown(),
            final(self).screen.cursor_spec() == old(self).screen.cursor_spec(),
            final(self).screen.style_spec() == old(self).screen.style_spec(),
            final(self).rows() == old(self).rows(),
            final(self).cols() == old(self).cols(),
            final(self).offset() == old(self).offset(),
            final(self).msg() == old(self).msg(),
            final(self).prompting() == old(self).prompting(),
            final(self).palette_spec() == old(self).palette_spec(),
    {
        proof {
            self.screen.lemma_dims();
        }
        let y = self.lines_height() + 1;
        match &self.message {
            Some(m) => {
                self.screen.draw(0, y, m.as_str());
            },
            None => {},
        }
    }

    /// Places or hides the terminal cursor.
    fn paint_cursor<T: Selectable>(&mut self, content: &T)
        requires
            old(self).inv(),
            content.inv(),
        ensures
            final(self).inv(),
            final(self).screen.cursor_spec() == cursor_spot(
                content.chars(),
                content.cursor(),
                content.selection(),
                old(self).offset(),
                old(self).rows(),
                old(self).cols(),
                old(self).msg(),
                old(self).prompting(),
            ),
            final(self).screen.drawn() == old(self).screen.drawn(),
            final(self).screen.shown() == old(self).screen.shown(),
            final(self).screen.style_spec() == old(self).screen.style_spec(),
            final(self).rows() == old(self).rows(),
            final(self).cols() == old(self).cols(),
            final(self).offset() == old(self).offset(),
            final(self).msg() == old(self).msg(),
            final(self).prompting() == old(self).prompting(),
            final(self).palette_spec() == old(self).palette_spec(),
    {
        proof {
            self.screen.lemma_dims();
            content.lemma_inv();
        }
        let line = content.line();
        let col = content.col();
        let rows = self.lines_height();
        if line < self.line_offset || line - self.line_offset >= rows
            || col >= self.lines_width(content.line_count()) || content.sel().is_some()
        {
            self.screen.hide_cursor();
            return;
        }
        if self.is_prompt {
            let n = match &self.message {
                Some(m) => m.as_str().unicode_len(),
                None => 0,
            };
            self.screen.show_cursor_at(n, rows + 1);
        } else {
            let (x, y) = self.cursor_pos(content);
            self.screen.show_cursor_at(x, y);
        }
    }

    /// Paints the status line: the file name, a star when modified, and on the
    /// right how far down the cursor is, its line out of the count, and its column.
    fn paint_status<T: Named>(&mut self, content: &T)
        requires
            old(self).inv(),
            content.inv(),
        ensures
            final(self).inv(),
            ({
                let y = text_rows(old(self).rows());
                let w = old(self).cols();
                let st = old(self).palette_spec().status;
                let info = status_info(content.chars(), content.cursor());
                final(self).screen.drawn() == put(
                    put(
                        put(old(self).screen.drawn(), 0, y, blank_cells(w, st)),
                        0,
                        y,
                        styled(st, status_name(content.name_view(), content.dirty())),
                    ),
                    info_column(w, info),
                    y,
                    styled(st, info),
                )
            }),
            final(self).palette_spec() == old(self).palette_spec(),
            final(self).screen.shown() == old(self).screen.shown(),
            final(self).screen.cursor_spec() == old(self).screen.cursor_spec(),
            final(self).screen.style_spec() == old(self).screen.style_spec(),
            final(self).rows() == old(self).rows(),
            final(self).cols() == old(self).cols(),
            final(self).offset() == old(self).offset(),
            final(self).msg() == old(self).msg(),
            final(self).prompting() == old(self).prompting(),
    {
        proof {
            self.screen.lemma_dims();
            content.lemma_inv();
            crate::lines::lemma_cursor_line(content.chars(), content.cursor());
            crate::lines::lemma_nls_le_len(content.chars());
        }
        let style = self.palette.status;
        let y = self.lines_height();
        let width = self.screen.width();
        let mut blank: Vec<Cell> = Vec::new();
        let mut i: usize = 0;
        while i < width
            invariant
                0 <= i <= width,
                blank@ =~= blank_cells(i as int, style),
            decreases width - i,
        {
            blank.push(Cell { style, glyph: ' ' });
            i = i + 1;
        }
        self.screen.put_cells(0, y, &blank);
        let mut name = chars_of(content.name().as_str());
        if content.was_modified() {
            name.push(' ');
            name.push('*');
        }
        proof {
            assert(name@ =~= status_name(content.name_view(), content.dirty()));
        }
        let shown_name = string_of(&name);
        self.screen.draw_with_style(0, y, style, shown_name.as_str());
        let line = content.line();
        let count = content.line_count();
        let wide = (line as u64 + 1) * 100 / count as u64;
        proof {
            let l = line as int;
            let n = count as int;
            assert(((l + 1) * 100) / n <= 100) by (nonlinear_arith)
                requires
                    0 <= l < n,
            ;
        }
        let advance = wide as usize;
        proof {
            assert(advance == ((line as int + 1) * 100) / (count as int));
        }
        let mut info = chars_of(decimal(advance).as_str());
        info.push('%');
        info.push(' ');
        let mut part = chars_of(decimal(line + 1).as_str());
        info.append(&mut part);
        info.push('/');
        let mut part2 = chars_of(decimal(count).as_str());
        info.append(&mut part2);
        info.push(':');
        info.push(' ');
        let mut part3 = chars_of(decimal(content.col()).as_str());
        info.append(&mut part3);
        proof {
            assert(info@ =~= status_info(content.chars(), content.cursor()));
        }
        let x = if width > info.len() { width - info.len() } else { 0 };
        let shown_info = string_of(&info);
        self.screen.draw_with_style(x, y, style, shown_info.as_str());
    }

    /// Paints the visible lines: each with its number in the gutter, its
    /// highlighted spans (or its plain display when no spans were given for
    /// it), and the selected characters over them in the selection style.
    fn paint_lines<T: Selectable>(&mut self, content: &T, spans: &Vec<Vec<Span>>)
        requires
            old(self).inv(),
            content.inv(),
        ensures
            final(self).inv(),
            final(self).screen.drawn() == painted(
                old(self).screen.drawn(),
                content.chars(),
                content.selection(),
                spans@,
                old(self).palette_spec(),
                old(self).offset(),
                dec(nls(content.chars())).len() + 1int,
                visible_rows(text_rows(old(self).rows()), nls(content.chars()) as int, old(self).offset()),
            ),
            forall|r: int| text_rows(old(self).rows()) <= r < old(self).rows()
                ==> #[trigger] final(self).screen.drawn()[r] == old(self).screen.drawn()[r],
            final(self).screen.shown() == old(self).screen.shown(),
            final(self).screen.cursor_spec() == old(self).screen.cursor_spec(),
            final(self).screen.style_spec() == old(self).screen.style_spec(),
            final(self).rows() == old(self).rows(),
            final(self).cols() == old(self).cols(),
            final(self).offset() == old(self).offset(),
            final(self).msg() == old(self).msg(),
            final(self).prompting() == old(self).prompting(),
            final(self).palette_spec() == old(self).palette_spec(),
    {
        let ghost s = content.chars();
        proof {
            self.screen.lemma_dims();
            content.lemma_inv();
            crate::lines::lemma_cursor_line(s, content.cursor());
            crate::lines::lemma_nls_le_len(s);
        }
        let count = content.line_count();
        let rows = self.lines_height();
        let first = self.line_offset;
        let left = line_number_width(count) + 1;
        let mut y: usize = 0;
        while y < rows && y < count && first < count - y
            invariant
                self.inv(),
                content.inv(),
                s == content.chars(),
                count == nls(s),
                count <= s.len() <= MAX_CHARS,
                rows == text_rows(self.rows()),
                first == self.offset(),
                left <= 21,
                self.rows() == old(self).rows(),
                self.cols() == old(self).cols(),
                self.offset() == old(self).offset(),
                self.msg() == old(self).msg(),
                self.prompting() == old(self).prompting(),
                self.palette == old(self).palette,
                self.screen.shown() == old(self).screen.shown(),
                self.screen.cursor_spec() == old(self).screen.cursor_spec(),
                self.screen.style_spec() == old(self).screen.style_spec(),
                self.screen.drawn().len() == self.rows(),
                old(self).screen.drawn().len() == self.rows(),
                forall|r: int| rows <= r < self.rows()
                    ==> #[trigger] self.screen.drawn()[r] == old(self).screen.drawn()[r],
                left == dec(count as nat).len() + 1,
                y <= visible_rows(rows as int, count as int, first as int),

                self.screen.drawn() == painted(
                    old(self).screen.drawn(),
                    s,
                    content.selection(),
                    spans@,
                    self.palette,
                    first as int,
                    left as int,
                    y as int,
                ),
            decreases rows - y,
        {
            let line = first + y;
            let number = decimal(line + 1);
            let gutter = self.palette.gutter;
            self.screen.draw_with_style(0, y, gutter, number.as_str());
            if y < spans.len() {
                self.screen.draw_ranges(left, y, &spans[y]);
            } else {
                let shown = display_line(content, line);
                let text_style = self.palette.text;
                self.screen.draw_with_style(left, y, text_style, shown.as_str());
            }
            match content.sel() {
                Some(sel) => {
                    let (b, e) = *sel;
                    self.paint_selection(content, line, y, left, b, e);
                },
                None => {},
            }
            proof {
                self.screen.lemma_dims();
            }
            y = y + 1;
        }
    }

    /// Repaints the selected characters of `line`, on screen row `y`, in the selection style.
    fn paint_selection<T: Editable>(&mut self, content: &T, line: usize, y: usize, left: usize, b: usize, e: usize)
        requires
            old(self).inv(),
            content.inv(),
            line < nls(content.chars()),
            y < text_rows(old(self).rows()),
            left <= 21,
        ensures
            final(self).inv(),
            final(self).screen.drawn() == sel_overlay(
                old(self).screen.drawn(),
                content.chars(),
                line_start(content.chars(), line as int),
                line_len(content.chars(), line as int),
                y as int,
                left as int,
                b as int,
                e as int,
                old(self).palette_spec().selection,
            ),
            forall|r: int| r != y && 0 <= r < old(self).rows()
                ==> #[trigger] final(self).screen.drawn()[r] == old(self).screen.drawn()[r],
            final(self).screen.shown() == old(self).screen.shown(),
            final(self).screen.cursor_spec() == old(self).screen.cursor_spec(),
            final(self).screen.style_spec() == old(self).screen.style_spec(),
            final(self).rows() == old(self).rows(),
            final(self).cols() == old(self).cols(),
            final(self).offset() == old(self).offset(),
            final(self).msg() == old(self).msg(),
            final(self).prompting() == old(self).prompting(),
            final(self).palette_spec() == old(self).palette_spec(),
    {
        let ghost s = content.chars();
        proof {
            self.screen.lemma_dims();
            content.lemma_inv();
            crate::lines::lemma_nls_le_len(s);
            crate::lines::lemma_line_start_exists(s, line as int);
            crate::lines::lemma_line_start_exists(s, line + 1);
            crate::lines::lemma_line_bounds(s, line_start(s, line as int), line_start(s, line + 1), line as int);
        }
        let style = self.palette.selection;
        let start = content.line_index_to_char_index(line);
        let next = content.line_index_to_char_index(line + 1);
        let mut j = start;
        let mut vx = left;
        while j < next
            invariant
                self.inv(),
                content.inv(),
                s == content.chars(),
                start <= j <= next <= s.len() <= MAX_CHARS,
                vx <= left + 4 * (j - start),
                left <= 21,
                y < text_rows(self.rows()),
                self.rows() == old(self).rows(),
                self.cols() == old(self).cols(),
                self.offset() == old(self).offset(),
                self.msg() == old(self).msg(),
                self.prompting() == old(self).prompting(),
                self.palette == old(self).palette,
                self.screen.shown() == old(self).screen.shown(),
                self.screen.cursor_spec() == old(self).screen.cursor_spec(),
                self.screen.style_spec() == old(self).screen.style_spec(),
                self.screen.drawn().len() == self.rows(),
                old(self).screen.drawn().len() == self.rows(),
                forall|r: int| r != y && 0 <= r < self.rows()
                    ==> #[trigger] self.screen.drawn()[r] == old(self).screen.drawn()[r],
                start == line_start(s, line as int),
                next == line_start(s, line + 1),
                style == self.palette.selection,
                vx == left + visual_width(s, start as int, j - start),
                self.screen.drawn() == sel_overlay(
                    old(self).screen.drawn(),
                    s,
                    start as int,
                    j - start,
                    y as int,
                    left as int,
                    b as int,
                    e as int,
                    style,
                ),
            decreases next - j,
        {
            let c = content.char_at(j);
            let w = if c == '\t' { TAB_LENGTH } else { 1 };
            if b <= j && j <= e {
                let shown = shown_text(c);
                let cells = styled_cells(style, shown.as_str());
                self.screen.put_cells(vx, y, &cells);
            }
            vx = vx + w;
            j = j + 1;
        }
    }

    /// Paints the whole frame for `content` and returns what the terminal
    /// must be sent: only the cells that changed since the last frame, then
    /// the cursor. `spans[y]` holds the highlighted spans of the line on
    /// screen row `y`.
    pub fn render<T: Selectable + Named>(&mut self, content: &T, spans: &Vec<Vec<Span>>) -> (out: Vec<TermOp>)
        requires
            old(self).inv(),
            content.inv(),
        ensures
            final(self).inv(),
            out@ == frame(
                final(self).screen_spec().drawn(),
                old(self).screen_spec().shown(),
                old(self).screen_spec().style_spec(),
                final(self).screen_spec().cursor_spec(),
            ),
            final(self).screen_spec().shown() == final(self).screen_spec().drawn(),
            ({
                let tr = text_rows(old(self).rows());
                let h = old(self).rows();
                let w = old(self).cols();
                let pal = old(self).palette_spec();
                let blank = blank_grid(h, w, pal.text);
                let s = content.chars();
                let lines = painted(
                    blank,
                    s,
                    content.selection(),
                    spans@,
                    pal,
                    old(self).offset(),
                    dec(nls(s)).len() + 1int,
                    visible_rows(tr, nls(s) as int, old(self).offset()),
                );
                &&& forall|r: int| 0 <= r < tr && r < h ==> #[trigger] final(self).screen_spec().drawn()[r] == lines[r]
                &&& tr < h ==> final(self).screen_spec().drawn()[tr] == status_row(
                    blank[tr],
                    w,
                    pal.status,
                    status_name(content.name_view(), content.dirty()),
                    status_info(content.chars(), content.cursor()),
                )
                &&& tr + 1 < h ==> final(self).screen_spec().drawn()[tr + 1] == match old(self).msg() {
                    Some(m) => overlay(blank[tr + 1], 0, styled(pal.text, m)),
                    None => blank[tr + 1],
                }
            }),
            final(self).screen_spec().cursor_spec() == cursor_spot(
                content.chars(),
                content.cursor(),
                content.selection(),
                old(self).offset(),
                old(self).rows(),
                old(self).cols(),
                old(self).msg(),
                old(self).prompting(),
            ),
            final(self).offset() == old(self).offset(),
            final(self).msg() == old(self).msg(),
            final(self).prompting() == old(self).prompting(),
            final(self).rows() == old(self).rows(),
            final(self).cols() == old(self).cols(),
    {
        let ghost tr = text_rows(self.rows());
        let ghost h = self.rows();
        let ghost w = self.cols();
        let ghost pal = self.palette;
        let ghost blank = blank_grid(h, w, pal.text);
        self.screen.clear();
        proof {
            self.screen.lemma_dims();
        }
        self.paint_lines(content, spans);
        let ghost g1 = self.screen.drawn();
        proof {
            self.screen.lemma_dims();
            if tr < h {
                assert(g1[tr] == blank[tr]);
            }
            if tr + 1 < h {
                assert(g1[tr + 1] == blank[tr + 1]);
            }
        }
        self.paint_status(content);
        let ghost g2 = self.screen.drawn();
        proof {
            self.screen.lemma_dims();
            if tr + 1 < h {
                assert(g2[tr + 1] == blank[tr + 1]);
            }
        }
        self.paint_message();
        let ghost g3 = self.screen.drawn();
        proof {
            self.screen.lemma_dims();
            if tr < h {
                assert(g3[tr] == g2[tr]);
            }
        }
        self.paint_cursor(content);
        proof {
            assert forall|r: int| 0 <= r < tr && r < h implies #[trigger] g3[r] == g1[r] by {
                assert(g2[r] == g1[r]);
            }
        }
        self.screen.present()
    }
}

/// Number of digits of `line_count`.
pub fn line_number_width(line_count: usize) -> (r: usize)
    ensures
        r == dec(line_count as nat).len(),
        1 <= r <= 20,
{
    proof {
        lemma_dec_usize(line_count);
    }
    decimal(line_count).as_str().unicode_len()
}

/// How line `line` of `content` is shown: tabs expanded, the terminator blank.
pub fn display_line<T: Editable>(content: &T, line: usize) -> (r: String)
    requires
        content.inv(),
        line < nls(content.chars()),
    ensures
        r@ == expand(content.chars().subrange(line_start(content.chars(), line as int), line_start(content.chars(), line + 1))),
{
    let ghost s = content.chars();
    proof {
        content.lemma_inv();
        crate::lines::lemma_nls_le_len(s);
        crate::lines::lemma_line_start_exists(s, line as int);
        crate::lines::lemma_line_start_exists(s, line + 1);
        crate::lines::lemma_line_bounds(s, line_start(s, line as int), line_start(s, line + 1), line as int);
    }
    let start = content.line_index_to_char_index(line);
    let next = content.line_index_to_char_index(line + 1);
    let mut r = String::new();
    let mut i = start;
    while i < next
        invariant
            content.inv(),
            s == content.chars(),
            start <= i <= next <= s.len(),
            r@ == expand(s.subrange(start as int, i as int)),
        decreases next - i,
    {
        let c = content.char_at(i);
        let ghost before = r@;
        if c == '\t' {
            push_char(&mut r, ' ');
            push_char(&mut r, ' ');
            push_char(&mut r, ' ');
            push_char(&mut r, ' ');
        } else if c == '\n' {
            push_char(&mut r, ' ');
        } else {
            push_char(&mut r, c);
        }
        proof {
            let sub = s.subrange(start as int, i + 1);
            assert(sub.drop_last() =~= s.subrange(start as int, i as int));
            assert(r@ =~= before + shown_as(c));
        }
        i = i + 1;
    }
    r
}

} // verus!
