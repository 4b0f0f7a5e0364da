//! The double-buffered screen: a grid being drawn and a shadow grid of what
//! the terminal shows, diffed so that only changed cells are sent.
use crate::strings::chars_of;
use vstd::prelude::*;

verus! {

/// A 24-bit colour.
#[derive(Clone, Copy, Debug, PartialEq, Eq, Structural)]
pub struct Rgb {
    pub r: u8,
    pub g: u8,
    pub b: u8,
}

/// The colours a cell is drawn in.
#[derive(Clone, Copy, Debug, PartialEq, Eq, Structural)]
pub struct Style {
    pub foreground: Rgb,
    pub background: Rgb,
}

/// A screen cell: a style and a glyph.
#[derive(Clone, Copy, Debug, PartialEq, Eq, Structural)]
pub struct Cell {
    pub style: Style,
    pub glyph: char,
}

/// A run of text in one style, as a highlighter hands it out.
pub struct Span {
    pub style: Style,
    pub text: String,
}

/// A cell that changed, at column `x` and row `y`.
pub struct Change {
    pub x: usize,
    pub y: usize,
    pub cell: Cell,
}

/// A grid of cells held in an ndarray `Array2`, row-major.
#[verifier::external_body]
pub struct Grid {
    cells: ndarray::Array2<Cell>,
}

/// The rows of a grid, top first, each left to right.
pub uninterp spec fn grid_rows(a: Grid) -> Seq<Seq<Cell>>;

/// Relies on `Array2::from_elem`: a `h` by `w` grid of copies of `cell`
/// (it panics when an axis length or the element count overflows `isize`).
#[verifier::external_body]
fn grid_new(h: usize, w: usize, cell: Cell) -> (r: Grid)
    requires
        h <= isize::MAX,
        w <= isize::MAX,
        h * w <= isize::MAX,
    ensures
        grid_rows(r) == Seq::new(h as nat, |_i| Seq::new(w as nat, |_j| cell)),
{
    Grid { cells: ndarray::Array2::from_elem((h, w), cell) }
}

/// Relies on indexing an `Array2` by `[y, x]`: the cell of row `y`, column `x`.
#[verifier::external_body]
fn grid_get(a: &Grid, y: usize, x: usize) -> (r: Cell)
    requires
        y < grid_rows(*a).len(),
        x < grid_rows(*a)[y as int].len(),
    ensures
        r == grid_rows(*a)[y as int][x as int],
{
    a.cells[[y, x]]
}

/// Relies on mutable indexing of an `Array2` by `[y, x]`: that cell alone changes.
#[verifier::external_body]
fn grid_set(a: &mut Grid, y: usize, x: usize, c: Cell)
    requires
        y < grid_rows(*old(a)).len(),
        x < grid_rows(*old(a))[y as int].len(),
    ensures
        grid_rows(*final(a)) == grid_rows(*old(a)).update(
            y as int,
            grid_rows(*old(a))[y as int].update(x as int, c),
        ),
{
    a.cells[[y, x]] = c;
}

/// `rows` is an `h` by `w` grid.
pub open spec fn grid_shape(rows: Seq<Seq<Cell>>, h: int, w: int) -> bool {
    rows.len() == h && forall|i: int| 0 <= i < h ==> #[trigger] rows[i].len() == w
}

/// `row` with `cells` written from column `x` on, cut at the row's end.
pub open spec fn overlay(row: Seq<Cell>, x: int, cells: Seq<Cell>) -> Seq<Cell> {
    Seq::new(row.len(), |j: int| if x <= j < x + cells.len() { cells[j - x] } else { row[j] })
}

/// `rows` with `cells` written on row `y` from column `x`; nothing when `y` is off the grid.
pub open spec fn put(rows: Seq<Seq<Cell>>, x: int, y: int, cells: Seq<Cell>) -> Seq<Seq<Cell>> {
    if 0 <= y < rows.len() {
        rows.update(y, overlay(rows[y], x, cells))
    } else {
        rows
    }
}

/// Every glyph of `text` in `style`.
pub open spec fn styled(style: Style, text: Seq<char>) -> Seq<Cell>
    decreases text.len(),
{
    if text.len() == 0 {
        Seq::empty()
    } else {
        styled(style, text.drop_last()).push(Cell { style, glyph: text.last() })
    }
}

/// What the terminal is told to do, in order.
#[derive(Clone, Copy, Debug, PartialEq, Eq, Structural)]
pub enum TermOp {
    HideCursor,
    ShowCursor,
    /// Move the terminal cursor to column `x`, row `y`, both from 0.
    Goto(usize, usize),
    SetStyle(Style),
    /// Write a glyph at column `x`, row `y`, both from 0.
    Put(usize, usize, char),
}

/// The cells of row `y` among the first `n` that differ between `wr` and `rd`, left to right.
pub open spec fn row_diff(wr: Seq<Cell>, rd: Seq<Cell>, y: int, n: int) -> Seq<Change>
    decreases n,
{
    if n <= 0 {
        Seq::empty()
    } else {
        row_diff(wr, rd, y, n - 1) + if wr[n - 1] != rd[n - 1] {
            seq![Change { x: (n - 1) as usize, y: y as usize, cell: wr[n - 1] }]
        } else {
            Seq::empty()
        }
    }
}

/// The differing cells of the first `m` rows, row by row.
pub open spec fn grid_diff(wr: Seq<Seq<Cell>>, rd: Seq<Seq<Cell>>, m: int) -> Seq<Change>
    decreases m,
{
    if m <= 0 {
        Seq::empty()
    } else {
        grid_diff(wr, rd, m - 1) + row_diff(wr[m - 1], rd[m - 1], m - 1, wr[m - 1].len() as int)
    }
}

/// The style in force after the changes `c` are sent, starting from `s0`.
pub open spec fn last_style(c: Seq<Change>, s0: Style) -> Style {
    if c.len() == 0 {
        s0
    } else {
        c.last().cell.style
    }
}

/// What one changed cell is sent as: a style change when needed, the position, the glyph.
pub open spec fn cell_ops(c: Change, current: Style) -> Seq<TermOp> {
    if c.cell.style != current {
        seq![TermOp::SetStyle(c.cell.style), TermOp::Put(c.x, c.y, c.cell.glyph)]
    } else {
        seq![TermOp::Put(c.x, c.y, c.cell.glyph)]
    }
}

/// What the changes `c` are sent as, starting in style `s0`.
pub open spec fn emit(c: Seq<Change>, s0: Style) -> Seq<TermOp>
    decreases c.len(),
{
    if c.len() == 0 {
        Seq::empty()
    } else {
        emit(c.drop_last(), s0) + cell_ops(c.last(), last_style(c.drop_last(), s0))
    }
}

/// Number of glyphs among `out`: the cells a frame writes.
pub open spec fn glyph_count(out: Seq<TermOp>) -> nat
    decreases out.len(),
{
    if out.len() == 0 {
        0
    } else {
        glyph_count(out.drop_last()) + if out.last() is Put { 1nat } else { 0nat }
    }
}

/// The whole of what one present sends.
pub open spec fn frame(
    wr: Seq<Seq<Cell>>,
    rd: Seq<Seq<Cell>>,
    default_style: Style,
    cursor: Option<(usize, usize)>,
) -> Seq<TermOp> {
    seq![TermOp::HideCursor, TermOp::SetStyle(default_style)] + emit(
        grid_diff(wr, rd, wr.len() as int),
        default_style,
    ) + match cursor {
        Some((x, y)) => seq![TermOp::Goto(x, y), TermOp::ShowCursor],
        None => Seq::empty(),
    }
}

/// A grid diffed against itself has no changes.
pub proof fn lemma_no_diff(wr: Seq<Seq<Cell>>, m: int)
    requires
        0 <= m <= wr.len(),
    ensures
        grid_diff(wr, wr, m) == Seq::<Change>::empty(),
    decreases m,
{
    if m > 0 {
        lemma_no_diff(wr, m - 1);
        lemma_no_row_diff(wr[m - 1], m - 1, wr[m - 1].len() as int);
        assert(grid_diff(wr, wr, m) =~= Seq::<Change>::empty());
    }
}

proof fn lemma_no_row_diff(row: Seq<Cell>, y: int, n: int)
    requires
        n <= row.len(),
    ensures
        row_diff(row, row, y, n) == Seq::<Change>::empty(),
    decreases n,
{
    if n > 0 {
        lemma_no_row_diff(row, y, n - 1);
        assert(row_diff(row, row, y, n) =~= Seq::<Change>::empty());
    }
}

proof fn lemma_glyph_count_concat(a: Seq<TermOp>, b: Seq<TermOp>)
    ensures
        glyph_count(a + b) == glyph_count(a) + glyph_count(b),
    decreases b.len(),
{
    if b.len() == 0 {
        assert(a + b =~= a);
    } else {
        assert((a + b).drop_last() =~= a + b.drop_last());
        lemma_glyph_count_concat(a, b.drop_last());
    }
}

proof fn lemma_no_glyph_pair(a: TermOp, b: TermOp)
    requires
        !(a is Put),
        !(b is Put),
    ensures
        glyph_count(seq![a, b]) == 0,
{
    let p = seq![a, b];
    assert(p.drop_last() =~= seq![a]);
    assert(seq![a].drop_last() =~= Seq::<TermOp>::empty());
    assert(glyph_count(Seq::<TermOp>::empty()) == 0);
    assert(glyph_count(seq![a]) == 0);
}

/// Presenting a frame whose shadow already equals what was drawn writes no cell:
/// so a second present with no drawing in between sends no glyph at all.
pub proof fn lemma_present_twice_writes_nothing(
    wr: Seq<Seq<Cell>>,
    default_style: Style,
    cursor: Option<(usize, usize)>,
)
    ensures
        glyph_count(frame(wr, wr, default_style, cursor)) == 0,
{
    lemma_no_diff(wr, wr.len() as int);
    let head = seq![TermOp::HideCursor, TermOp::SetStyle(default_style)];
    let tail = match cursor {
        Some((x, y)) => seq![TermOp::Goto(x, y), TermOp::ShowCursor],
        None => Seq::<TermOp>::empty(),
    };
    let e = emit(Seq::<Change>::empty(), default_style);
    assert(e =~= Seq::<TermOp>::empty());
    lemma_glyph_count_concat(head + e, tail);
    lemma_glyph_count_concat(head, e);
    lemma_no_glyph_pair(TermOp::HideCursor, TermOp::SetStyle(default_style));
    match cursor {
        Some((x, y)) => lemma_no_glyph_pair(TermOp::Goto(x, y), TermOp::ShowCursor),
        None => {},
    }
}

/// The cells of `first` before position `(y, x)` in row-major order, the cells
/// of `second` from there on.
pub open spec fn partial(first: Seq<Seq<Cell>>, second: Seq<Seq<Cell>>, y: int, x: int) -> Seq<Seq<Cell>> {
    Seq::new(
        second.len(),
        |i: int|
            if i < y {
                first[i]
            } else if i == y {
                Seq::new(second[i].len(), |j: int| if j < x { first[i][j] } else { second[i][j] })
            } else {
                second[i]
            },
    )
}

/// The cells of all the spans, in order, each in its span's style.
pub open spec fn spans_cells(spans: Seq<Span>) -> Seq<Cell>
    decreases spans.len(),
{
    if spans.len() == 0 {
        Seq::empty()
    } else {
        spans_cells(spans.drop_last()) + styled(spans.last().style, spans.last().text@)
    }
}

pub open spec fn blank_grid(h: int, w: int, style: Style) -> Seq<Seq<Cell>> {
    let blank = Cell { style, glyph: ' ' };
    Seq::new(h as nat, |_i| Seq::new(w as nat, |_j| blank))
}

/// The cells that show `text` in `style`.
pub fn styled_cells(style: Style, text: &str) -> (r: Vec<Cell>)
    ensures
        r@ == styled(style, text@),
{
    let chars = chars_of(text);
    let mut cells: Vec<Cell> = Vec::new();
    let mut i: usize = 0;
    while i < chars.len()
        invariant
            0 <= i <= chars.len(),
            chars@ == text@,
            cells@ == styled(style, text@.take(i as int)),
        decreases chars.len() - i,
    {
        cells.push(Cell { style, glyph: chars[i] });
        i = i + 1;
        proof {
            assert(text@.take(i as int).drop_last() =~= text@.take(i - 1));
        }
    }
    proof {
        assert(text@.take(text@.len() as int) =~= text@);
    }
    cells
}

/// Two grids of equal size: the frame being drawn and the last frame shown.
pub struct Screen {
    width: usize,
    height: usize,
    write_buf: Grid,
    read_buf: Grid,
    cursor_pos: (usize, usize),
    cursor_visible: bool,
    default_style: Style,
}

impl Screen {
    pub closed spec fn drawn(&self) -> Seq<Seq<Cell>> {
        grid_rows(self.write_buf)
    }

    pub closed spec fn shown(&self) -> Seq<Seq<Cell>> {
        grid_rows(self.read_buf)
    }

    pub closed spec fn width_spec(&self) -> int {
        self.width as int
    }

    pub closed spec fn height_spec(&self) -> int {
        self.height as int
    }

    pub closed spec fn style_spec(&self) -> Style {
        self.default_style
    }

    /// Where the terminal cursor goes after a frame.
    pub closed spec fn cursor_at(&self) -> (usize, usize) {
        self.cursor_pos
    }

    /// Whether the terminal cursor shows after a frame.
    pub closed spec fn cursor_shown(&self) -> bool {
        self.cursor_visible
    }

    /// Where the terminal cursor is put after a frame, if it is shown.
    pub open spec fn cursor_spec(&self) -> Option<(usize, usize)> {
        if self.cursor_shown() {
            Some(self.cursor_at())
        } else {
            None
        }
    }

    pub closed spec fn inv(&self) -> bool {
        &&& self.width <= 0xffff
        &&& self.height <= 0xffff
        &&& grid_shape(grid_rows(self.write_buf), self.height as int, self.width as int)
        &&& grid_shape(grid_rows(self.read_buf), self.height as int, self.width as int)
    }

    /// A blank `width` by `height` screen; the shadow holds no valid frame
    /// yet, so the first present sends every cell.
    pub fn with_default_style(default_style: Style, width: u16, height: u16) -> (r: Screen)
        requires
            (width as int) * (height as int) <= isize::MAX,
        ensures
            r.inv(),
            r.width_spec() == width,
            r.height_spec() == height,
            r.style_spec() == default_style,
            r.drawn() == blank_grid(height as int, width as int, default_style),
            r.shown() == ({
                let unknown = Cell { style: default_style, glyph: 'X' };
                Seq::new(height as nat, |_i| Seq::new(width as nat, |_j| unknown))
            }),
            r.cursor_spec() == Some((0usize, 0usize)),
    {
        let w = width as usize;
        let h = height as usize;
        assert(h * w <= isize::MAX) by (nonlinear_arith)
            requires
                h == height,
                w == width,
                (width as int) * (height as int) <= isize::MAX,
        ;
        let write_buf = grid_new(h, w, Cell { style: default_style, glyph: ' ' });
        let read_buf = grid_new(h, w, Cell { style: default_style, glyph: 'X' });
        Screen {
            width: w,
            height: h,
            write_buf,
            read_buf,
            cursor_pos: (0, 0),
            cursor_visible: true,
            default_style,
        }
    }

    pub proof fn lemma_dims(&self)
        requires
            self.inv(),
        ensures
            self.width_spec() <= 0xffff,
            self.height_spec() <= 0xffff,
            self.drawn().len() == self.height_spec(),
            self.shown().len() == self.height_spec(),
            forall|i: int| 0 <= i < self.height_spec() ==> #[trigger] self.drawn()[i].len() == self.width_spec(),
    {
    }

    pub fn width(&self) -> (r: usize)
        ensures
            r == self.width_spec(),
    {
        self.width
    }

    pub fn height(&self) -> (r: usize)
        ensures
            r == self.height_spec(),
    {
        self.height
    }

    /// Blanks every cell of the frame being drawn.
    pub fn clear(&mut self)
        requires
            old(self).inv(),
        ensures
            final(self).inv(),
            final(self).drawn() == blank_grid(old(self).height_spec(), old(self).width_spec(), old(self).style_spec()),
            final(self).shown() == old(self).shown(),
            final(self).width_spec() == old(self).width_spec(),
            final(self).height_spec() == old(self).height_spec(),
            final(self).style_spec() == old(self).style_spec(),
            final(self).cursor_spec() == old(self).cursor_spec(),
    {
        let ghost g0 = grid_rows(self.write_buf);
        let ghost blank = blank_grid(self.height as int, self.width as int, self.default_style);
        let mut y: usize = 0;
        while y < self.height
            invariant
                self.inv(),
                self.width == old(self).width,
                self.height == old(self).height,
                self.default_style == old(self).default_style,
                self.cursor_pos == old(self).cursor_pos,
                self.cursor_visible == old(self).cursor_visible,
                grid_rows(self.read_buf) == old(self).shown(),
                g0 == old(self).drawn(),
                blank == blank_grid(self.height as int, self.width as int, self.default_style),
                0 <= y <= self.height,
                grid_rows(self.write_buf) =~~= partial(blank, g0, y as int, 0),
            decreases self.height - y,
        {
            let mut x: usize = 0;
            while x < self.width
                invariant
                    self.inv(),
                    self.width == old(self).width,
                    self.height == old(self).height,
                    self.default_style == old(self).default_style,
                    self.cursor_pos == old(self).cursor_pos,
                    self.cursor_visible == old(self).cursor_visible,
                    grid_rows(self.read_buf) == old(self).shown(),
                    g0 == old(self).drawn(),
                    blank == blank_grid(self.height as int, self.width as int, self.default_style),
                    0 <= y < self.height,
                    0 <= x <= self.width,
                    grid_rows(self.write_buf) =~~= partial(blank, g0, y as int, x as int),
                decreases self.width - x,
            {
                grid_set(&mut self.write_buf, y, x, Cell { style: self.default_style, glyph: ' ' });
                x = x + 1;
                proof {
                    assert(grid_rows(self.write_buf) =~~= partial(blank, g0, y as int, x as int));
                }
            }
            y = y + 1;
            proof {
                assert(grid_rows(self.write_buf) =~~= partial(blank, g0, y as int, 0));
            }
        }
        proof {
            assert(grid_rows(self.write_buf) =~~= blank);
        }
    }

    /// Writes `cells` on row `y` from column `x` on, cut at the right edge;
    /// nothing is written when `y` is below the bottom row.
    pub fn put_cells(&mut self, x: usize, y: usize, cells: &Vec<Cell>)
        requires
            old(self).inv(),
        ensures
            final(self).inv(),
            final(self).drawn() == put(old(self).drawn(), x as int, y as int, cells@),
            final(self).shown() == old(self).shown(),
            final(self).width_spec() == old(self).width_spec(),
            final(self).height_spec() == old(self).height_spec(),
            final(self).style_spec() == old(self).style_spec(),
            final(self).cursor_spec() == old(self).cursor_spec(),
    {
        let ghost g0 = grid_rows(self.write_buf);
        if y >= self.height {
            return;
        }
        let mut i: usize = 0;
        while i < cells.len() && x < self.width && i < self.width - x
            invariant
                self.inv(),
                self.width == old(self).width,
                self.height == old(self).height,
                self.default_style == old(self).default_style,
                self.cursor_pos == old(self).cursor_pos,
                self.cursor_visible == old(self).cursor_visible,
                grid_rows(self.read_buf) == old(self).shown(),
                g0 == old(self).drawn(),
                y < self.height,
                0 <= i <= cells.len(),
                x < self.width ==> i <= self.width - x,
                grid_rows(self.write_buf) =~~= put(g0, x as int, y as int, cells@.take(i as int)),
            decreases cells.len() - i,
        {
            grid_set(&mut self.write_buf, y, x + i, cells[i]);
            i = i + 1;
            proof {
                assert(grid_rows(self.write_buf) =~~= put(g0, x as int, y as int, cells@.take(i as int)));
            }
        }
        proof {
            assert(grid_rows(self.write_buf) =~~= put(g0, x as int, y as int, cells@));
        }
    }

    /// Writes `text` at `(x, y)` in the default style.
    pub fn draw(&mut self, x: usize, y: usize, text: &str)
        requires
            old(self).inv(),
        ensures
            final(self).inv(),
            final(self).drawn() == put(old(self).drawn(), x as int, y as int, styled(old(self).style_spec(), text@)),
            final(self).shown() == old(self).shown(),
            final(self).width_spec() == old(self).width_spec(),
            final(self).height_spec() == old(self).height_spec(),
            final(self).style_spec() == old(self).style_spec(),
            final(self).cursor_spec() == old(self).cursor_spec(),
    {
        let style = self.default_style;
        self.draw_with_style(x, y, style, text);
    }

    /// Writes `text` at `(x, y)` in `style`.
    pub fn draw_with_style(&mut self, x: usize, y: usize, style: Style, text: &str)
        requires
            old(self).inv(),
        ensures
            final(self).inv(),
            final(self).drawn() == put(old(self).drawn(), x as int, y as int, styled(style, text@)),
            final(self).shown() == old(self).shown(),
            final(self).width_spec() == old(self).width_spec(),
            final(self).height_spec() == old(self).height_spec(),
            final(self).style_spec() == old(self).style_spec(),
            final(self).cursor_spec() == old(self).cursor_spec(),
    {
        let cells = styled_cells(style, text);
        self.put_cells(x, y, &cells);
    }

    /// Writes the spans one after the other from `(x, y)`.
    pub fn draw_ranges(&mut self, x: usize, y: usize, ranges: &Vec<Span>)
        requires
            old(self).inv(),
        ensures
            final(self).inv(),
            final(self).drawn() == put(old(self).drawn(), x as int, y as int, spans_cells(ranges@)),
            final(self).shown() == old(self).shown(),
            final(self).width_spec() == old(self).width_spec(),
            final(self).height_spec() == old(self).height_spec(),
            final(self).style_spec() == old(self).style_spec(),
            final(self).cursor_spec() == old(self).cursor_spec(),
    {
        let mut cells: Vec<Cell> = Vec::new();
        let mut k: usize = 0;
        while k < ranges.len()
            invariant
                0 <= k <= ranges.len(),
                cells@ == spans_cells(ranges@.take(k as int)),
            decreases ranges.len() - k,
        {
            let ghost before = cells@;
            let mut more = styled_cells(ranges[k].style, ranges[k].text.as_str());
            cells.append(&mut more);
            proof {
                assert(ranges@.take(k + 1).drop_last() =~= ranges@.take(k as int));
                assert(cells@ =~= spans_cells(ranges@.take(k + 1)));
            }
            k = k + 1;
        }
        proof {
            assert(ranges@.take(ranges@.len() as int) =~= ranges@);
        }
        self.put_cells(x, y, &cells);
    }

    pub fn hide_cursor(&mut self)
        ensures
            final(self).cursor_spec() is None,
            final(self).drawn() == old(self).drawn(),
            final(self).shown() == old(self).shown(),
            final(self).width_spec() == old(self).width_spec(),
            final(self).height_spec() == old(self).height_spec(),
            final(self).style_spec() == old(self).style_spec(),
            final(self).inv() == old(self).inv(),
    {
        self.cursor_visible = false;
    }

    pub fn show_cursor(&mut self)
        ensures
            final(self).cursor_shown(),
            final(self).cursor_at() == old(self).cursor_at(),
            final(self).drawn() == old(self).drawn(),
            final(self).shown() == old(self).shown(),
            final(self).width_spec() == old(self).width_spec(),
            final(self).height_spec() == old(self).height_spec(),
            final(self).style_spec() == old(self).style_spec(),
            final(self).inv() == old(self).inv(),
    {
        self.cursor_visible = true;
    }

    /// Moves where the terminal cursor goes, without showing or hiding it.
    pub fn move_cursor(&mut self, x: usize, y: usize)
        ensures
            final(self).cursor_at() == (x, y),
            final(self).cursor_shown() == old(self).cursor_shown(),
            final(self).drawn() == old(self).drawn(),
            final(self).shown() == old(self).shown(),
            final(self).width_spec() == old(self).width_spec(),
            final(self).height_spec() == old(self).height_spec(),
            final(self).style_spec() == old(self).style_spec(),
            final(self).inv() == old(self).inv(),
    {
        self.cursor_pos = (x, y);
    }

    /// Shows the terminal cursor at `(x, y)`.
    pub fn show_cursor_at(&mut self, x: usize, y: usize)
        ensures
            final(self).cursor_spec() == Some((x, y)),
            final(self).drawn() == old(self).drawn(),
            final(self).shown() == old(self).shown(),
            final(self).width_spec() == old(self).width_spec(),
            final(self).height_spec() == old(self).height_spec(),
            final(self).style_spec() == old(self).style_spec(),
            final(self).inv() == old(self).inv(),
    {
        self.move_cursor(x, y);
        self.show_cursor();
    }

    /// Sends the frame: every cell that differs from the shadow, then the
    /// cursor; the shadow becomes the frame.
    pub fn present(&mut self) -> (out: Vec<TermOp>)
        requires
            old(self).inv(),
        ensures
            final(self).inv(),
            out@ == frame(old(self).drawn(), old(self).shown(), old(self).style_spec(), old(self).cursor_spec()),
            final(self).shown() == old(self).drawn(),
            final(self).drawn() == old(self).drawn(),
            final(self).width_spec() == old(self).width_spec(),
            final(self).height_spec() == old(self).height_spec(),
            final(self).style_spec() == old(self).style_spec(),
            final(self).cursor_spec() == old(self).cursor_spec(),
    {
        let ghost wr = grid_rows(self.write_buf);
        let ghost r0 = grid_rows(self.read_buf);
        let ghost head = seq![TermOp::HideCursor, TermOp::SetStyle(self.default_style)];
        let mut out: Vec<TermOp> = Vec::new();
        out.push(TermOp::HideCursor);
        out.push(TermOp::SetStyle(self.default_style));
        let mut last = self.default_style;
        let mut y: usize = 0;
        proof {
            assert(out@ =~= head + emit(grid_diff(wr, r0, 0), self.default_style));
            assert(grid_rows(self.read_buf) =~~= partial(wr, r0, 0, 0));
        }
        while y < self.height
            invariant
                self.inv(),
                self.width == old(self).width,
                self.height == old(self).height,
                self.default_style == old(self).default_style,
                self.cursor_pos == old(self).cursor_pos,
                self.cursor_visible == old(self).cursor_visible,
                grid_rows(self.write_buf) == wr,
                wr == old(self).drawn(),
                r0 == old(self).shown(),
                grid_shape(r0, self.height as int, self.width as int),
                grid_shape(wr, self.height as int, self.width as int),
                head == seq![TermOp::HideCursor, TermOp::SetStyle(self.default_style)],
                0 <= y <= self.height,
                out@ == head + emit(grid_diff(wr, r0, y as int), self.default_style),
                last == last_style(grid_diff(wr, r0, y as int), self.default_style),
                grid_rows(self.read_buf) =~~= partial(wr, r0, y as int, 0),
            decreases self.height - y,
        {
            let mut x: usize = 0;
            let ghost d = grid_diff(wr, r0, y as int);
            proof {
                assert(d + row_diff(wr[y as int], r0[y as int], y as int, 0) =~= d);
            }
            while x < self.width
                invariant
                    self.inv(),
                    self.width == old(self).width,
                    self.height == old(self).height,
                    self.default_style == old(self).default_style,
                    self.cursor_pos == old(self).cursor_pos,
                    self.cursor_visible == old(self).cursor_visible,
                    grid_rows(self.write_buf) == wr,
                    wr == old(self).drawn(),
                    r0 == old(self).shown(),
                    grid_shape(r0, self.height as int, self.width as int),
                    grid_shape(wr, self.height as int, self.width as int),
                    head == seq![TermOp::HideCursor, TermOp::SetStyle(self.default_style)],
                    0 <= y < self.height,
                    0 <= x <= self.width,
                    d == grid_diff(wr, r0, y as int),
                    out@ == head + emit(d + row_diff(wr[y as int], r0[y as int], y as int, x as int), self.default_style),
                    last == last_style(d + row_diff(wr[y as int], r0[y as int], y as int, x as int), self.default_style),
                    grid_rows(self.read_buf) =~~= partial(wr, r0, y as int, x as int),
                decreases self.width - x,
            {
                let ghost before = d + row_diff(wr[y as int], r0[y as int], y as int, x as int);
                let c = grid_get(&self.write_buf, y, x);
                let r = grid_get(&self.read_buf, y, x);
                proof {
                    assert(grid_rows(self.read_buf)[y as int] == partial(wr, r0, y as int, x as int)[y as int]);
                    assert(r == r0[y as int][x as int]);
                }
                if !(c.style == r.style && c.glyph == r.glyph) {
                    grid_set(&mut self.read_buf, y, x, c);
                    let ghost o = out@;
                    let ghost item = Change { x, y, cell: c };
                    let ghost ops = cell_ops(item, last);
                    if !(c.style == last) {
                        proof {
                        }
                        out.push(TermOp::SetStyle(c.style));
                        last = c.style;
                        out.push(TermOp::Put(x, y, c.glyph));
                        proof {
                            assert(out@ =~= o + ops);
                        }
                    } else {
                        proof {
                        }
                        out.push(TermOp::Put(x, y, c.glyph));
                        proof {
                            assert(out@ =~= o + ops);
                        }
                    }
                    proof {
                        let after = before + seq![item];
                        assert(after.drop_last() =~= before);
                        assert(row_diff(wr[y as int], r0[y as int], y as int, x + 1)
                            == row_diff(wr[y as int], r0[y as int], y as int, x as int) + seq![item]);
                        assert(d + row_diff(wr[y as int], r0[y as int], y as int, x + 1) =~= after);
                        assert(out@ =~= o + cell_ops(item, last_style(before, self.default_style)));
                        assert(out@ =~= head + emit(after, self.default_style));
                    }
                } else {
                    proof {
                        assert(row_diff(wr[y as int], r0[y as int], y as int, x + 1)
                            =~= row_diff(wr[y as int], r0[y as int], y as int, x as int));
                    }
                }
                x = x + 1;
                proof {
                    assert(grid_rows(self.read_buf) =~~= partial(wr, r0, y as int, x as int));
                }
            }
            proof {
                assert(grid_diff(wr, r0, y + 1) == d + row_diff(wr[y as int], r0[y as int], y as int, wr[y as int].len() as int));
            }
            y = y + 1;
            proof {
                assert(grid_rows(self.read_buf) =~~= partial(wr, r0, y as int, 0));
            }
        }
        if self.cursor_visible {
            let (cx, cy) = self.cursor_pos;
            out.push(TermOp::Goto(cx, cy));
            out.push(TermOp::ShowCursor);
        }
        proof {
            assert(grid_rows(self.read_buf) =~~= wr);
            assert(out@ =~= frame(wr, r0, self.default_style, self.cursor_spec()));
        }
        out
    }
}

} // verus!
