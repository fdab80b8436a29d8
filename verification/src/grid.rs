use vstd::prelude::*;
use crate::cell::{blank_cell, Cell};
use crate::text::{append_line, cells_text, join_lines, line_text};

verus! {

/// The abstract state of a [`Grid`].
pub struct GridView {
    pub cols: nat,
    pub rows: nat,
    /// The visible screen, row by row, `cols` cells per row.
    pub cells: Seq<Cell>,
    /// Lines that have scrolled off the top, oldest first.
    pub scrollback: Seq<Seq<Cell>>,
    pub scrollback_limit: nat,
    /// Lines dropped from the front of the scrollback so far.
    pub trimmed: nat,
    pub display_offset: nat,
    pub dirty: Seq<bool>,
}

impl GridView {
    pub open spec fn wf(self) -> bool {
        &&& self.cells.len() == self.cols * self.rows
        &&& self.dirty.len() == self.rows
        &&& self.display_offset <= self.scrollback.len()
        &&& self.scrollback.len() <= self.scrollback_limit
        &&& self.trimmed + self.scrollback.len() <= usize::MAX
        &&& self.cols * self.rows <= usize::MAX
        &&& self.cols <= usize::MAX
        &&& self.rows <= usize::MAX
        &&& self.scrollback_limit <= usize::MAX
    }

    /// Row `r` of the screen.
    pub open spec fn row(self, r: int) -> Seq<Cell> {
        self.cells.subrange(r * self.cols, r * self.cols + self.cols)
    }

    /// The screen as a sequence of rows.
    pub open spec fn screen(self) -> Seq<Seq<Cell>> {
        Seq::new(self.rows, |r: int| self.row(r))
    }

    /// The cell shown at `(col, row)` of the window, which is scrolled
    /// `display_offset` lines back into the scrollback.
    pub open spec fn displayed_cell(self, col: int, row: int) -> Cell {
        if row >= self.display_offset {
            self.cells[(row - self.display_offset) * self.cols + col]
        } else {
            let line = self.scrollback[self.scrollback.len() - self.display_offset + row];
            if col < line.len() {
                line[col]
            } else {
                blank_cell()
            }
        }
    }

    /// The scrollback followed by the screen.
    pub open spec fn all_lines(self) -> Seq<Seq<Cell>> {
        self.scrollback + self.screen()
    }

    /// Lines ever pushed above the screen, trimmed ones included.
    pub open spec fn total_lines(self) -> nat {
        self.trimmed + self.scrollback.len()
    }
}

/// The observable state of a grid: the screen as rows of cells, the
/// scrollback and the bookkeeping around them.
pub struct GridState {
    pub cols: nat,
    pub rows: nat,
    pub screen: Seq<Seq<Cell>>,
    pub scrollback: Seq<Seq<Cell>>,
    pub scrollback_limit: nat,
    pub trimmed: nat,
    pub display_offset: nat,
    pub dirty: Seq<bool>,
}

impl GridState {
    /// Lines ever pushed above the screen, trimmed ones included.
    pub open spec fn total_lines(self) -> nat {
        self.trimmed + self.scrollback.len()
    }
}

impl GridView {
    pub open spec fn state(self) -> GridState {
        GridState {
            cols: self.cols,
            rows: self.rows,
            screen: self.screen(),
            scrollback: self.scrollback,
            scrollback_limit: self.scrollback_limit,
            trimmed: self.trimmed,
            display_offset: self.display_offset,
            dirty: self.dirty,
        }
    }
}

/// A row of `n` blank cells.
pub open spec fn blank_row(n: nat) -> Seq<Cell> {
    Seq::new(n, |i: int| blank_cell())
}

/// `line` with the cells of columns `a..b` made blank.
pub open spec fn blanked(line: Seq<Cell>, a: int, b: int) -> Seq<Cell> {
    Seq::new(line.len(), |c: int| if a <= c < b { blank_cell() } else { line[c] })
}

/// `line` after `n` blank cells are inserted at column `col`, the cells
/// pushed past the end of the line being lost.
pub open spec fn inserted(line: Seq<Cell>, col: int, n: int) -> Seq<Cell> {
    Seq::new(
        line.len(),
        |c: int|
            if c < col {
                line[c]
            } else if c < col + n {
                blank_cell()
            } else {
                line[c - n]
            },
    )
}

/// `line` after the `n` cells from column `col` are deleted, the rest of the
/// line moving left and blank cells filling the end.
pub open spec fn deleted(line: Seq<Cell>, col: int, n: int) -> Seq<Cell> {
    Seq::new(
        line.len(),
        |c: int|
            if c < col {
                line[c]
            } else if c < line.len() - n {
                line[c + n]
            } else {
                blank_cell()
            },
    )
}

/// The screen `s` after `count` scroll-ups of the region `top..=bottom`:
/// each row of the region takes the row `count` below it, rows that run out
/// become blank; row `bottom` is blanked even when the region is empty.
pub open spec fn scrolled_up(s: Seq<Seq<Cell>>, cols: nat, top: int, bottom: int, count: int) -> Seq<Seq<Cell>> {
    Seq::new(
        s.len(),
        |r: int|
            if count > 0 && top <= r <= bottom {
                if r + count <= bottom {
                    s[r + count]
                } else {
                    blank_row(cols)
                }
            } else if count > 0 && r == bottom {
                blank_row(cols)
            } else {
                s[r]
            },
    )
}

/// The screen `s` after `count` scroll-downs of the region `top..=bottom`:
/// each row of the region takes the row `count` above it, rows that run out
/// become blank; row `top` is blanked even when the region is empty.
pub open spec fn scrolled_down(s: Seq<Seq<Cell>>, cols: nat, top: int, bottom: int, count: int) -> Seq<Seq<Cell>> {
    Seq::new(
        s.len(),
        |r: int|
            if count > 0 && top <= r <= bottom {
                if r - count >= top {
                    s[r - count]
                } else {
                    blank_row(cols)
                }
            } else if count > 0 && r == top {
                blank_row(cols)
            } else {
                s[r]
            },
    )
}

/// The rows that leave the top of the screen `s` when the region
/// `0..=bottom` scrolls up `count` times, in order.
pub open spec fn pushed_lines(s: Seq<Seq<Cell>>, cols: nat, bottom: int, count: int) -> Seq<Seq<Cell>> {
    Seq::new(count as nat, |k: int| if k <= bottom { s[k] } else { blank_row(cols) })
}

/// The last `limit` lines of `s`.
pub open spec fn keep_last(s: Seq<Seq<Cell>>, limit: nat) -> Seq<Seq<Cell>> {
    if s.len() > limit {
        s.skip(s.len() - limit)
    } else {
        s
    }
}

/// `d` with the rows of `top..=bottom`, and row `also`, marked dirty, when
/// `count` is positive.
pub open spec fn dirtied(d: Seq<bool>, top: int, bottom: int, also: int, count: int) -> Seq<bool> {
    if count > 0 {
        Seq::new(d.len(), |r: int| if (top <= r <= bottom) || r == also { true } else { d[r] })
    } else {
        d
    }
}

/// Screen `s` of `rows` rows of `cols` cells, resized to `new_rows` rows of
/// `new_cols` cells: the top-left part that fits is kept, the rest is blank.
pub open spec fn resized(s: Seq<Seq<Cell>>, cols: nat, rows: nat, new_cols: nat, new_rows: nat) -> Seq<Seq<Cell>> {
    Seq::new(
        new_rows,
        |r: int| Seq::new(new_cols, |c: int| if r < rows && c < cols { s[r][c] } else { blank_cell() }),
    )
}

pub open spec fn max(a: int, b: int) -> int {
    if a >= b { a } else { b }
}

/// The text of lines `start_abs..=end_abs`, counted from the first line
/// ever pushed into the scrollback: lines already trimmed are skipped, the
/// range ends at the last screen row.
pub open spec fn abs_rows_text_spec(v: GridView, start_abs: int, end_abs: int) -> Seq<char> {
    let lo = max(start_abs, v.trimmed as int);
    let hi = min(end_abs + 1, (v.trimmed + v.all_lines().len()) as int);
    join_lines(
        Seq::new(
            if hi > lo { (hi - lo) as nat } else { 0nat },
            |i: int| line_text(v.all_lines()[lo + i - v.trimmed]),
        ),
    )
}

/// Whether `(c1, r1)` comes no later than `(c2, r2)` in reading order.
pub open spec fn before_or_at(c1: int, r1: int, c2: int, r2: int) -> bool {
    r1 < r2 || (r1 == r2 && c1 <= c2)
}

/// The text of the window between two cell positions in reading order,
/// inclusive, one line per row with trailing whitespace removed; the
/// columns are clamped to the last column.
pub open spec fn range_text(v: GridView, s: (int, int), e: (int, int)) -> Seq<char> {
    join_lines(Seq::new((e.1 - s.1 + 1) as nat, |i: int| line_text(range_row(v, s, e, s.1 + i))))
}

/// The selected cells of window row `row` for the selection from `s` to `e`.
pub open spec fn range_row(v: GridView, s: (int, int), e: (int, int), row: int) -> Seq<Cell> {
    let last = if v.cols > 0 { v.cols - 1 } else { 0 };
    let cs = if row == s.1 { min(s.0, last) } else { 0 };
    let ce = if row == e.1 { min(e.0, last) } else { last };
    Seq::new((ce - cs + 1) as nat, |j: int| v.displayed_cell(cs + j, row))
}

/// The window text between `start` and `end`, taken in whichever order they
/// come in reading order.
pub open spec fn display_text_range_spec(v: GridView, start: (int, int), end: (int, int)) -> Seq<char> {
    if before_or_at(start.0, start.1, end.0, end.1) {
        range_text(v, start, end)
    } else {
        range_text(v, end, start)
    }
}

/// The text of the last `n` scrollback lines (all of them if fewer) and of
/// the screen, one line per row, trailing whitespace removed.
pub open spec fn screen_text_spec(v: GridView, n: int) -> Seq<char> {
    let k = min(n, v.scrollback.len() as int);
    let lines = v.scrollback.skip(v.scrollback.len() - k) + v.screen();
    join_lines(Seq::new(lines.len(), |i: int| line_text(lines[i])))
}

/// A new grid: `rows` rows of `cols` blank cells, all dirty, no scrollback.
pub open spec fn gs_new(cols: nat, rows: nat, scrollback_limit: nat) -> GridState {
    GridState {
        cols,
        rows,
        screen: Seq::new(rows, |r: int| blank_row(cols)),
        scrollback: Seq::empty(),
        scrollback_limit,
        trimmed: 0,
        display_offset: 0,
        dirty: Seq::new(rows, |r: int| true),
    }
}

/// `g` with cell number `i` of the screen, counted row by row, set to
/// `cell`, and row `row` marked dirty.
pub open spec fn gs_write_flat(g: GridState, i: int, row: int, cell: Cell) -> GridState {
    GridState {
        screen: Seq::new(
            g.rows,
            |r: int| Seq::new(g.cols, |c: int| if r * g.cols + c == i { cell } else { g.screen[r][c] }),
        ),
        dirty: g.dirty.update(row, true),
        ..g
    }
}

pub open spec fn gs_set_dirty(g: GridState, b: bool) -> GridState {
    GridState { dirty: Seq::new(g.rows, |r: int| b), ..g }
}

pub open spec fn gs_scroll_up(g: GridState, top: int, bottom: int, count: int) -> GridState {
    let sb = if top == 0 {
        keep_last(g.scrollback + pushed_lines(g.screen, g.cols, bottom, count), g.scrollback_limit)
    } else {
        g.scrollback
    };
    GridState {
        screen: scrolled_up(g.screen, g.cols, top, bottom, count),
        scrollback: sb,
        trimmed: if top == 0 { (g.total_lines() + count - sb.len()) as nat } else { g.trimmed },
        display_offset: if top == 0 && g.display_offset > 0 {
            min(g.display_offset + count, sb.len() as int) as nat
        } else {
            g.display_offset
        },
        dirty: dirtied(g.dirty, top, bottom, bottom, count),
        ..g
    }
}

pub open spec fn gs_scroll_down(g: GridState, top: int, bottom: int, count: int) -> GridState {
    GridState {
        screen: scrolled_down(g.screen, g.cols, top, bottom, count),
        dirty: dirtied(g.dirty, top, bottom, top, count),
        ..g
    }
}

pub open spec fn gs_clear(g: GridState) -> GridState {
    GridState {
        screen: Seq::new(g.rows, |r: int| blank_row(g.cols)),
        dirty: Seq::new(g.rows, |r: int| true),
        ..g
    }
}

pub open spec fn gs_erase_line(g: GridState, row: int, start_col: int, end_col: int) -> GridState {
    GridState {
        screen: g.screen.update(row, blanked(g.screen[row], start_col, min(end_col, g.cols as int))),
        dirty: g.dirty.update(row, true),
        ..g
    }
}

pub open spec fn gs_insert_chars(g: GridState, row: int, col: int, count: int) -> GridState {
    GridState {
        screen: g.screen.update(row, inserted(g.screen[row], col, min(count, g.cols - col))),
        dirty: g.dirty.update(row, true),
        ..g
    }
}

pub open spec fn gs_delete_chars(g: GridState, row: int, col: int, count: int) -> GridState {
    GridState {
        screen: g.screen.update(row, deleted(g.screen[row], col, min(count, g.cols - col))),
        dirty: g.dirty.update(row, true),
        ..g
    }
}

pub open spec fn gs_resize(g: GridState, new_cols: nat, new_rows: nat) -> GridState {
    GridState {
        cols: new_cols,
        rows: new_rows,
        screen: resized(g.screen, g.cols, g.rows, new_cols, new_rows),
        dirty: Seq::new(new_rows, |r: int| true),
        ..g
    }
}

pub open spec fn gs_scroll_display(g: GridState, delta: int) -> GridState {
    let d = clamp(g.display_offset + delta, 0, g.scrollback.len() as int);
    if d != g.display_offset {
        GridState { display_offset: d as nat, dirty: Seq::new(g.rows, |r: int| true), ..g }
    } else {
        g
    }
}

pub open spec fn gs_reset_display_offset(g: GridState) -> GridState {
    if g.display_offset != 0 {
        GridState { display_offset: 0, dirty: Seq::new(g.rows, |r: int| true), ..g }
    } else {
        g
    }
}

pub open spec fn min(a: int, b: int) -> int {
    if a <= b { a } else { b }
}

/// The screen grid of a terminal, with its scrollback and per-row dirty flags.
pub struct Grid {
    cols: usize,
    rows: usize,
    cells: Vec<Cell>,
    scrollback: Vec<Vec<Cell>>,
    scrollback_limit: usize,
    trimmed: usize,
    display_offset: usize,
    dirty: Vec<bool>,
}

impl View for Grid {
    type V = GridView;

    closed spec fn view(&self) -> GridView {
        GridView {
            cols: self.cols as nat,
            rows: self.rows as nat,
            cells: self.cells@,
            scrollback: self.scrollback@.map_values(|l: Vec<Cell>| l@),
            scrollback_limit: self.scrollback_limit as nat,
            trimmed: self.trimmed as nat,
            display_offset: self.display_offset as nat,
            dirty: self.dirty@,
        }
    }
}

/// `r * cols + c` addresses cell `(c, r)` inside a `cols * rows` screen, and
/// distinct cells have distinct addresses.
pub proof fn lemma_cell_index(r: int, c: int, cols: int, rows: int)
    requires
        0 <= r < rows,
        0 <= c < cols,
    ensures
        0 <= r * cols,
        r * cols + c < rows * cols,
        r * cols + cols <= rows * cols,
        cols * rows == rows * cols,
{
    assert(0 <= r * cols) by (nonlinear_arith)
        requires
            0 <= r,
            0 <= c < cols,
    ;
    assert(r * cols + cols <= rows * cols) by (nonlinear_arith)
        requires
            0 <= r < rows,
            0 <= c < cols,
    ;
    assert(cols * rows == rows * cols) by (nonlinear_arith);
}

/// Row `r` of a `cols * rows` screen lies inside it.
pub proof fn lemma_row_range(r: int, cols: int, rows: int)
    requires
        0 <= r < rows,
        0 <= cols,
    ensures
        0 <= r * cols,
        r * cols + cols <= rows * cols,
        cols * rows == rows * cols,
{
    assert(0 <= r * cols) by (nonlinear_arith)
        requires
            0 <= r,
            0 <= cols,
    ;
    assert(r * cols + cols <= rows * cols) by (nonlinear_arith)
        requires
            0 <= r < rows,
            0 <= cols,
    ;
    assert(cols * rows == rows * cols) by (nonlinear_arith);
}

/// Each row of a well-formed grid's screen has `cols` cells.
pub proof fn lemma_screen_row(v: GridView, r: int)
    requires
        v.wf(),
        0 <= r < v.rows,
    ensures
        v.screen()[r].len() == v.cols,
        forall|c: int| 0 <= c < v.cols ==> #[trigger] v.screen()[r][c] == v.cells[r * v.cols + c],
{
    lemma_row_range(r, v.cols as int, v.rows as int);
}

proof fn lemma_rows_apart(r1: int, r2: int, cols: int)
    requires
        0 <= r1 < r2,
        0 <= cols,
    ensures
        r1 * cols + cols <= r2 * cols,
{
    assert(r1 * cols + cols <= r2 * cols) by (nonlinear_arith)
        requires
            0 <= r1 < r2,
            0 <= cols,
    ;
}

pub fn blank_cells(n: usize) -> (v: Vec<Cell>)
    ensures
        v@ == blank_row(n as nat),
{
    let mut v: Vec<Cell> = Vec::new();
    let mut i: usize = 0;
    while i < n
        invariant
            i <= n,
            v@ == blank_row(i as nat),
        decreases n - i,
    {
        v.push(Cell::default());
        i = i + 1;
        assert(v@ =~= blank_row(i as nat));
    }
    v
}

fn bools(n: usize, b: bool) -> (v: Vec<bool>)
    ensures
        v@ == Seq::new(n as nat, |i: int| b),
{
    let mut v: Vec<bool> = Vec::new();
    let mut i: usize = 0;
    while i < n
        invariant
            i <= n,
            v@ == Seq::new(i as nat, |j: int| b),
        decreases n - i,
    {
        v.push(b);
        i = i + 1;
        assert(v@ =~= Seq::new(i as nat, |j: int| b));
    }
    v
}

impl Grid {
    /// An empty grid of `cols` by `rows` blank cells, every row dirty.
    pub fn new(cols: usize, rows: usize, scrollback_limit: usize) -> (g: Grid)
        requires
            cols * rows <= usize::MAX,
        ensures
            g@.wf(),
            g@.state() == gs_new(cols as nat, rows as nat, scrollback_limit as nat),
    {
        let g = Grid {
            cols,
            rows,
            cells: blank_cells(cols * rows),
            scrollback: Vec::new(),
            scrollback_limit,
            trimmed: 0,
            display_offset: 0,
            dirty: bools(rows, true),
        };
        proof {
            assert(g@.scrollback =~= Seq::<Seq<Cell>>::empty());
            assert forall|r: int| 0 <= r < rows implies #[trigger] g@.row(r) =~= blank_row(cols as nat) by {
                lemma_row_range(r, cols as int, rows as int);
            }
            assert(g@.screen() =~= Seq::new(rows as nat, |r: int| blank_row(cols as nat)));
            lemma_row_range(0, cols as int, rows as int + 1);
        }
        g
    }

    pub fn cols(&self) -> (c: usize)
        ensures
            c == self@.cols,
    {
        self.cols
    }

    pub fn rows(&self) -> (r: usize)
        ensures
            r == self@.rows,
    {
        self.rows
    }

    /// Overwrites cell `(col, row)`; leaves every other cell as it was.
    fn put(&mut self, col: usize, row: usize, cell: Cell)
        requires
            old(self)@.wf(),
            col < old(self)@.cols,
            row < old(self)@.rows,
        ensures
            final(self)@ == (GridView {
                cells: old(self)@.cells.update(row * old(self)@.cols + col, cell),
                ..old(self)@
            }),
            final(self)@.screen() == old(self)@.screen().update(
                row as int,
                old(self)@.screen()[row as int].update(col as int, cell),
            ),
            final(self)@.wf(),
    {
        proof {
            lemma_cell_index(row as int, col as int, self.cols as int, self.rows as int);
        }
        let i = row * self.cols + col;
        self.cells.set(i, cell);
        proof {
            let o = old(self)@;
            let n = self@;
            assert forall|r: int| 0 <= r < o.rows implies #[trigger] n.row(r) =~= (if r == row {
                o.row(r).update(col as int, cell)
            } else {
                o.row(r)
            }) by {
                lemma_row_range(r, o.cols as int, o.rows as int);
                if r < row {
                    lemma_rows_apart(r, row as int, o.cols as int);
                } else if r > row {
                    lemma_rows_apart(row as int, r, o.cols as int);
                }
            }
            assert(n.screen() =~= o.screen().update(row as int, o.screen()[row as int].update(col as int, cell)));
        }
    }
}


impl Grid {
    /// The cell at column `col` of row `row`.
    pub fn cell(&self, col: usize, row: usize) -> (c: &Cell)
        requires
            self@.wf(),
            row * self@.cols + col < self@.cells.len(),
        ensures
            *c == self@.cells[row * self@.cols + col],
    {
        proof {
            assert(0 <= row * self@.cols) by (nonlinear_arith);
        }
        &self.cells[row * self.cols + col]
    }

    /// The cell at column `col` of row `row`, for writing; marks the row dirty.
    pub fn cell_mut(&mut self, col: usize, row: usize) -> (c: &mut Cell)
        requires
            old(self)@.wf(),
            row < old(self)@.rows,
            row * old(self)@.cols + col < old(self)@.cells.len(),
        ensures
            *c == old(self)@.cells[row * old(self)@.cols + col],
            final(self)@ == (GridView {
                cells: old(self)@.cells.update(row * old(self)@.cols + col, *final(c)),
                dirty: old(self)@.dirty.update(row as int, true),
                ..old(self)@
            }),
    {
        proof {
            assert(0 <= row * self@.cols) by (nonlinear_arith);
        }
        self.dirty.set(row, true);
        let i = row * self.cols + col;
        &mut self.cells[i]
    }

    /// The cells of row `row`.
    pub fn row_slice(&self, row: usize) -> (s: &[Cell])
        requires
            self@.wf(),
            row * self@.cols + self@.cols <= self@.cells.len(),
        ensures
            s@ == self@.cells.subrange(row * self@.cols, row * self@.cols + self@.cols),
    {
        proof {
            assert(0 <= row * self@.cols) by (nonlinear_arith);
        }
        let start = row * self.cols;
        vstd::slice::slice_subrange(self.cells.as_slice(), start, start + self.cols)
    }

    pub fn is_dirty(&self, row: usize) -> (b: bool)
        requires
            self@.wf(),
            row < self@.rows,
        ensures
            b == self@.dirty[row as int],
    {
        self.dirty[row]
    }

    fn set_all_dirty(&mut self, b: bool)
        requires
            old(self)@.wf(),
        ensures
            final(self)@ == (GridView { dirty: Seq::new(old(self)@.rows, |r: int| b), ..old(self)@ }),
            final(self)@.screen() == old(self)@.screen(),
    {
        let n = self.dirty.len();
        let mut i: usize = 0;
        while i < n
            invariant
                n == self.dirty@.len(),
                i <= n,
                self@ == (GridView { dirty: self@.dirty, ..old(self)@ }),
                self@.dirty.len() == old(self)@.rows,
                forall|j: int| 0 <= j < i ==> self@.dirty[j] == b,
            decreases n - i,
        {
            self.dirty.set(i, b);
            i = i + 1;
        }
        assert(self@.dirty =~= Seq::new(old(self)@.rows, |r: int| b));
        assert(self@.screen() =~= old(self)@.screen());
    }

    /// Marks every row clean.
    pub fn clear_dirty(&mut self)
        requires
            old(self)@.wf(),
        ensures
            final(self)@.wf(),
            final(self)@.state() == gs_set_dirty(old(self)@.state(), false),
    {
        self.set_all_dirty(false);
    }

    /// Marks every row dirty.
    pub fn mark_all_dirty(&mut self)
        requires
            old(self)@.wf(),
        ensures
            final(self)@.wf(),
            final(self)@.state() == gs_set_dirty(old(self)@.state(), true),
    {
        self.set_all_dirty(true);
    }
}


impl Grid {
    /// The cell at `(col, row)` of the screen, by value.
    fn get(&self, col: usize, row: usize) -> (c: Cell)
        requires
            self@.wf(),
            col < self@.cols,
            row < self@.rows,
        ensures
            c == self@.screen()[row as int][col as int],
    {
        proof {
            lemma_cell_index(row as int, col as int, self.cols as int, self.rows as int);
        }
        self.cells[row * self.cols + col]
    }

    fn set_dirty(&mut self, row: usize)
        requires
            old(self)@.wf(),
            row < old(self)@.rows,
        ensures
            final(self)@ == (GridView { dirty: old(self)@.dirty.update(row as int, true), ..old(self)@ }),
            final(self)@.screen() == old(self)@.screen(),
    {
        self.dirty.set(row, true);
        assert(self@.screen() =~= old(self)@.screen());
    }

    /// Blanks columns `a..b` of row `row`.
    fn blank_span(&mut self, row: usize, a: usize, b: usize)
        requires
            old(self)@.wf(),
            row < old(self)@.rows,
            b <= old(self)@.cols,
        ensures
            final(self)@.screen() == old(self)@.screen().update(
                row as int,
                blanked(old(self)@.screen()[row as int], a as int, b as int),
            ),
            final(self)@ == (GridView { cells: final(self)@.cells, ..old(self)@ }),
            final(self)@.wf(),
    {
        let ghost o = old(self)@;
        let ghost line = o.screen()[row as int];
        proof {
            lemma_screen_row(o, row as int);
            assert(blanked(line, a as int, a as int) =~= line);
            assert(o.screen().update(row as int, line) =~= o.screen());
        }
        let mut c: usize = a;
        while c < b
            invariant
                self@.wf(),
                o.wf(),
                line.len() == o.cols,
                line == o.screen()[row as int],
                self@ == (GridView { cells: self@.cells, ..o }),
                row < o.rows,
                b <= o.cols,
                (a <= c && c <= b) || c == a,
                self@.screen() == o.screen().update(row as int, blanked(line, a as int, c as int)),
            decreases b - c,
        {
            self.put(c, row, Cell::default());
            c = c + 1;
            proof {
                assert(self@.screen()[row as int] =~= blanked(line, a as int, c as int));
                assert(self@.screen() =~= o.screen().update(row as int, blanked(line, a as int, c as int)));
            }
        }
        proof {
            assert(blanked(line, a as int, c as int) =~= blanked(line, a as int, b as int));
            assert(line.len() == o.cols);
            assert(o.screen()[row as int] =~= line);
        }
    }

    /// Blanks every cell and marks every row dirty.
    pub fn clear(&mut self)
        requires
            old(self)@.wf(),
        ensures
            final(self)@.wf(),
            final(self)@.state() == gs_clear(old(self)@.state()),
    {
        let ghost o = old(self)@;
        let mut r: usize = 0;
        while r < self.rows
            invariant
                self@.wf(),
                self@ == (GridView { cells: self@.cells, ..o }),
                o.wf(),
                r <= o.rows,
                forall|k: int| 0 <= k < r ==> #[trigger] self@.screen()[k] == blank_row(o.cols),
            decreases o.rows - r,
        {
            let ghost before = self@.screen();
            self.blank_span(r, 0, self.cols);
            proof {
                lemma_screen_row(self@, r as int);
                assert(blanked(before[r as int], 0, o.cols as int) =~= blank_row(o.cols));
                assert forall|k: int| 0 <= k < r + 1 implies #[trigger] self@.screen()[k] == blank_row(o.cols) by {
                    if k < r {
                        assert(self@.screen()[k] == before[k]);
                    }
                }
            }
            r = r + 1;
        }
        assert(self@.screen() =~= Seq::new(o.rows, |r: int| blank_row(o.cols)));
        self.mark_all_dirty();
    }

    /// Blanks columns `start_col..min(end_col, cols)` of row `row` and marks it dirty.
    pub fn erase_line(&mut self, row: usize, start_col: usize, end_col: usize)
        requires
            old(self)@.wf(),
            row < old(self)@.rows,
        ensures
            final(self)@.wf(),
            final(self)@.state() == gs_erase_line(old(self)@.state(), row as int, start_col as int, end_col as int),
    {
        let end = if end_col < self.cols { end_col } else { self.cols };
        self.blank_span(row, start_col, end);
        self.set_dirty(row);
    }

    /// Inserts `count` blank cells at column `col` of row `row`, shifting the
    /// rest of the line right; cells shifted past the end are lost.
    pub fn insert_chars(&mut self, row: usize, col: usize, count: usize)
        requires
            old(self)@.wf(),
            row < old(self)@.rows,
            col <= old(self)@.cols,
        ensures
            final(self)@.wf(),
            final(self)@.state() == gs_insert_chars(old(self)@.state(), row as int, col as int, count as int),
    {
        let ghost o = old(self)@;
        let ghost line = o.screen()[row as int];
        let n = if count < self.cols - col { count } else { self.cols - col };
        // Move cells right, from the end of the line down to `col + n`.
        let mut c: usize = self.cols;
        proof {
            lemma_screen_row(o, row as int);
            assert(Seq::new(line.len(), |k: int| if k >= c { line[k - n] } else { line[k] }) =~= line);
            assert(o.screen().update(row as int, line) =~= o.screen());
        }
        while c > col + n
            invariant
                self@.wf(),
                self@ == (GridView { cells: self@.cells, ..o }),
                row < o.rows,
                col + n <= c <= o.cols,
                line.len() == o.cols,
                self@.screen() == o.screen().update(
                    row as int,
                    Seq::new(line.len(), |k: int| if k >= c { line[k - n] } else { line[k] }),
                ),
                o.wf(),
            decreases c,
        {
            c = c - 1;
            let v = self.get(c - n, row);
            self.put(c, row, v);
            proof {
                assert(self@.screen()[row as int] =~= Seq::new(
                    line.len(),
                    |k: int| if k >= c { line[k - n] } else { line[k] },
                ));
                assert(self@.screen() =~= o.screen().update(
                    row as int,
                    Seq::new(line.len(), |k: int| if k >= c { line[k - n] } else { line[k] }),
                ));
            }
        }
        let ghost shifted = self@.screen()[row as int];
        let ghost before = self@.screen();
        self.blank_span(row, col, col + n);
        let ghost mid = self@.screen();
        self.set_dirty(row);
        assert(mid == before.update(row as int, blanked(shifted, col as int, (col + n) as int)));
        assert(self@.screen() == mid);
        proof {
            assert(blanked(shifted, col as int, (col + n) as int) =~= inserted(line, col as int, n as int));
            assert(self@.screen() =~= o.screen().update(row as int, inserted(line, col as int, n as int)));
        }
    }

    /// Deletes `count` cells at column `col` of row `row`, shifting the rest
    /// of the line left and filling the end with blank cells.
    pub fn delete_chars(&mut self, row: usize, col: usize, count: usize)
        requires
            old(self)@.wf(),
            row < old(self)@.rows,
            col <= old(self)@.cols,
        ensures
            final(self)@.wf(),
            final(self)@.state() == gs_delete_chars(old(self)@.state(), row as int, col as int, count as int),
    {
        let ghost o = old(self)@;
        let ghost line = o.screen()[row as int];
        let n = if count < self.cols - col { count } else { self.cols - col };
        let keep_end = self.cols - n;
        let mut c: usize = col;
        proof {
            lemma_screen_row(o, row as int);
            assert(Seq::new(line.len(), |k: int| if col <= k < c { line[k + n] } else { line[k] }) =~= line);
            assert(o.screen().update(row as int, line) =~= o.screen());
        }
        while c < keep_end
            invariant
                self@.wf(),
                self@ == (GridView { cells: self@.cells, ..o }),
                row < o.rows,
                col <= c,
                keep_end + n == o.cols,
                c <= keep_end || col >= keep_end,
                line.len() == o.cols,
                self@.screen() == o.screen().update(
                    row as int,
                    Seq::new(line.len(), |k: int| if col <= k < c { line[k + n] } else { line[k] }),
                ),
            decreases keep_end - c,
        {
            let v = self.get(c + n, row);
            self.put(c, row, v);
            c = c + 1;
            proof {
                assert(self@.screen()[row as int] =~= Seq::new(
                    line.len(),
                    |k: int| if col <= k < c { line[k + n] } else { line[k] },
                ));
                assert(self@.screen() =~= o.screen().update(
                    row as int,
                    Seq::new(line.len(), |k: int| if col <= k < c { line[k + n] } else { line[k] }),
                ));
            }
        }
        let ghost shifted = self@.screen()[row as int];
        let ghost before = self@.screen();
        self.blank_span(row, keep_end, self.cols);
        let ghost mid = self@.screen();
        self.set_dirty(row);
        assert(mid == before.update(row as int, blanked(shifted, keep_end as int, o.cols as int)));
        assert(self@.screen() == mid);
        proof {
            assert(blanked(shifted, keep_end as int, o.cols as int) =~= deleted(line, col as int, n as int));
            assert(self@.screen() =~= o.screen().update(row as int, deleted(line, col as int, n as int)));
        }
    }
}


impl Grid {
    /// Copies row `src` over row `dst`.
    fn copy_row(&mut self, src: usize, dst: usize)
        requires
            old(self)@.wf(),
            src < old(self)@.rows,
            dst < old(self)@.rows,
        ensures
            final(self)@.wf(),
            final(self)@ == (GridView { cells: final(self)@.cells, ..old(self)@ }),
            final(self)@.screen() == old(self)@.screen().update(dst as int, old(self)@.screen()[src as int]),
    {
        let ghost o = old(self)@;
        let ghost line = o.screen()[src as int];
        let ghost target = o.screen()[dst as int];
        proof {
            lemma_screen_row(o, src as int);
            lemma_screen_row(o, dst as int);
            assert(Seq::new(o.cols, |k: int| if k < 0 { line[k] } else { target[k] }) =~= target);
            assert(o.screen().update(dst as int, target) =~= o.screen());
        }
        let mut c: usize = 0;
        while c < self.cols
            invariant
                self@.wf(),
                o.wf(),
                self@ == (GridView { cells: self@.cells, ..o }),
                src < o.rows,
                dst < o.rows,
                c <= o.cols,
                line.len() == o.cols,
                target.len() == o.cols,
                line == o.screen()[src as int],
                target == o.screen()[dst as int],
                self@.screen() == o.screen().update(
                    dst as int,
                    Seq::new(o.cols, |k: int| if k < c { line[k] } else { target[k] }),
                ),
            decreases o.cols - c,
        {
            let v = self.get(c, src);
            proof {
                assert(v == self@.screen()[src as int][c as int]);
                if src != dst {
                    assert(self@.screen()[src as int] == o.screen()[src as int]);
                } else {
                    assert(self@.screen()[src as int][c as int] == target[c as int]);
                }
                assert(v == line[c as int]);
            }
            let ghost prev = self@.screen();
            self.put(c, dst, v);
            c = c + 1;
            proof {
                assert(prev[dst as int] == Seq::new(o.cols, |k: int| if k < c - 1 { line[k] } else { target[k] }));
                assert(self@.screen()[dst as int] == prev[dst as int].update(c - 1, v));
                assert(self@.screen()[dst as int] =~= Seq::new(
                    o.cols,
                    |k: int| if k < c { line[k] } else { target[k] },
                ));
                assert(self@.screen() =~= o.screen().update(
                    dst as int,
                    Seq::new(o.cols, |k: int| if k < c { line[k] } else { target[k] }),
                ));
            }
        }
        proof {
            assert(Seq::new(o.cols, |k: int| if k < c { line[k] } else { target[k] }) =~= line);
        }
    }
}


proof fn lemma_scrolled_up_step(s: Seq<Seq<Cell>>, cols: nat, top: int, bottom: int, k: int)
    requires
        k >= 0,
        bottom < s.len(),
    ensures
        scrolled_up(scrolled_up(s, cols, top, bottom, k), cols, top, bottom, 1)
            == scrolled_up(s, cols, top, bottom, k + 1),
{
    assert(scrolled_up(scrolled_up(s, cols, top, bottom, k), cols, top, bottom, 1)
        =~= scrolled_up(s, cols, top, bottom, k + 1));
}

proof fn lemma_scrolled_down_step(s: Seq<Seq<Cell>>, cols: nat, top: int, bottom: int, k: int)
    requires
        k >= 0,
        top >= 0,
    ensures
        scrolled_down(scrolled_down(s, cols, top, bottom, k), cols, top, bottom, 1)
            == scrolled_down(s, cols, top, bottom, k + 1),
{
    assert(scrolled_down(scrolled_down(s, cols, top, bottom, k), cols, top, bottom, 1)
        =~= scrolled_down(s, cols, top, bottom, k + 1));
}

proof fn lemma_dirtied_step(d: Seq<bool>, top: int, bottom: int, also: int, k: int)
    requires
        k >= 0,
    ensures
        dirtied(dirtied(d, top, bottom, also, k), top, bottom, also, 1) == dirtied(d, top, bottom, also, k + 1),
{
    assert(dirtied(dirtied(d, top, bottom, also, k), top, bottom, also, 1) =~= dirtied(d, top, bottom, also, k + 1));
}

proof fn lemma_keep_last_push(a: Seq<Seq<Cell>>, x: Seq<Cell>, limit: nat)
    ensures
        keep_last(keep_last(a, limit).push(x), limit) == keep_last(a.push(x), limit),
        keep_last(a, limit).len() <= keep_last(a.push(x), limit).len() <= keep_last(a, limit).len() + 1,
        keep_last(a, limit).len() <= limit,
        keep_last(a, limit).len() == min(a.len() as int, limit as int),
{
    if a.len() > limit {
        assert(keep_last(a, limit).push(x).skip(1) =~= a.push(x).skip(a.len() + 1 - limit));
    } else if a.len() == limit {
        assert(keep_last(a, limit).push(x).skip(1) =~= a.push(x).skip(a.len() + 1 - limit));
    }
}

impl Grid {
    /// One scroll-up of the region `top..=bottom`.
    fn scroll_up_once(&mut self, top: usize, bottom: usize)
        requires
            old(self)@.wf(),
            bottom < old(self)@.rows,
            top == 0 ==> old(self)@.total_lines() + 1 <= usize::MAX,
        ensures
            final(self)@.wf(),
            final(self)@.cols == old(self)@.cols,
            final(self)@.rows == old(self)@.rows,
            final(self)@.scrollback_limit == old(self)@.scrollback_limit,
            final(self)@.screen() == scrolled_up(old(self)@.screen(), old(self)@.cols, top as int, bottom as int, 1),
            final(self)@.scrollback == (if top == 0 {
                keep_last(old(self)@.scrollback.push(old(self)@.screen()[0]), old(self)@.scrollback_limit)
            } else {
                old(self)@.scrollback
            }),
            final(self)@.total_lines() == old(self)@.total_lines() + (if top == 0 { 1int } else { 0int }),
            final(self)@.display_offset == (if top == 0 && old(self)@.display_offset > 0 {
                min(old(self)@.display_offset + 1int, final(self)@.scrollback.len() as int)
            } else {
                old(self)@.display_offset as int
            }),
            final(self)@.dirty == dirtied(old(self)@.dirty, top as int, bottom as int, bottom as int, 1),
    {
        let ghost o = old(self)@;
        if top == 0 {
            proof {
                lemma_row_range(0, o.cols as int, o.rows as int);
            }
            let row_data = vstd::slice::slice_to_vec(self.row_slice(0));
            let ghost sb0 = self.scrollback@;
            self.scrollback.push(row_data);
            proof {
                assert(self.scrollback@.map_values(|l: Vec<Cell>| l@) =~= o.scrollback.push(o.screen()[0]));
            }
            if self.scrollback.len() > self.scrollback_limit {
                let ghost sb1 = self.scrollback@;
                self.scrollback.remove(0);
                self.trimmed = self.trimmed + 1;
                proof {
                    assert(self.scrollback@.map_values(|l: Vec<Cell>| l@)
                        =~= o.scrollback.push(o.screen()[0]).skip(1));
                }
            }
            proof {
                assert(self@.scrollback == keep_last(o.scrollback.push(o.screen()[0]), o.scrollback_limit));
            }
            if self.display_offset > 0 {
                let d = self.display_offset + 1;
                self.display_offset = if d < self.scrollback.len() { d } else { self.scrollback.len() };
            }
        }
        let ghost mid = self@;
        assert(mid.screen() == o.screen());
        let mut row: usize = top;
        while row < bottom
            invariant
                self@.wf(),
                mid.wf(),
                self@ == (GridView { cells: self@.cells, dirty: self@.dirty, ..mid }),
                mid.screen() == o.screen(),
                mid.dirty == o.dirty,
                mid.rows == o.rows,
                mid.cols == o.cols,
                bottom < o.rows,
                top <= row,
                row <= bottom || row == top,
                self@.screen() == Seq::new(
                    o.rows,
                    |r: int| if top <= r < row { o.screen()[r + 1] } else { o.screen()[r] },
                ),
                self@.dirty == Seq::new(o.rows, |r: int| if top <= r < row { true } else { o.dirty[r] }),
            decreases bottom - row,
        {
            let ghost before = self@;
            self.copy_row(row + 1, row);
            self.set_dirty(row);
            row = row + 1;
            proof {
                assert(before.screen()[row as int] == o.screen()[row as int]);
                assert(self@.screen() == before.screen().update(row - 1, o.screen()[row as int]));
                assert(self@.screen() =~= Seq::new(
                    o.rows,
                    |r: int| if top <= r < row { o.screen()[r + 1] } else { o.screen()[r] },
                ));
                assert(self@.dirty =~= Seq::new(o.rows, |r: int| if top <= r < row { true } else { o.dirty[r] }));
            }
        }
        proof {
            assert(self@.screen() =~= Seq::new(
                o.rows,
                |r: int| if top <= r < row { o.screen()[r + 1] } else { o.screen()[r] },
            ));
        }
        let cols = self.cols;
        let ghost pre = self@.screen();
        assert(pre[bottom as int] == o.screen()[bottom as int]);
        self.blank_span(bottom, 0, cols);
        self.set_dirty(bottom);
        proof {
            lemma_screen_row(o, bottom as int);
            assert(self@.screen() == pre.update(bottom as int, blanked(o.screen()[bottom as int], 0, o.cols as int)));
            assert(blanked(o.screen()[bottom as int], 0, o.cols as int) =~= blank_row(o.cols));
            assert(self@.screen() =~= scrolled_up(o.screen(), o.cols, top as int, bottom as int, 1));
            assert(self@.dirty =~= dirtied(o.dirty, top as int, bottom as int, bottom as int, 1));
        }
    }
}


proof fn lemma_pushed_step(s: Seq<Seq<Cell>>, sb: Seq<Seq<Cell>>, cols: nat, bottom: int, k: int)
    requires
        k >= 0,
        0 <= bottom < s.len(),
    ensures
        (sb + pushed_lines(s, cols, bottom, k)).push(scrolled_up(s, cols, 0, bottom, k)[0])
            == sb + pushed_lines(s, cols, bottom, k + 1),
{
    assert((sb + pushed_lines(s, cols, bottom, k)).push(scrolled_up(s, cols, 0, bottom, k)[0])
        =~= sb + pushed_lines(s, cols, bottom, k + 1));
}

impl Grid {
    /// Scrolls the region `top..=bottom` up `count` times. Each time, when
    /// `top` is 0 the top row goes to the scrollback (oldest lines beyond the
    /// limit are dropped, and a scrolled-back view keeps its place); every row
    /// of the region takes the row below it and row `bottom` becomes blank.
    pub fn scroll_up(&mut self, top: usize, bottom: usize, count: usize)
        requires
            old(self)@.wf(),
            count > 0 ==> bottom < old(self)@.rows,
            top == 0 ==> old(self)@.total_lines() + count <= usize::MAX,
        ensures
            final(self)@.wf(),
            final(self)@.state() == gs_scroll_up(old(self)@.state(), top as int, bottom as int, count as int),
    {
        let ghost o = old(self)@;
        proof {
            assert(scrolled_up(o.screen(), o.cols, top as int, bottom as int, 0) =~= o.screen());
            assert(o.scrollback + pushed_lines(o.screen(), o.cols, bottom as int, 0) =~= o.scrollback);
            assert(keep_last(o.scrollback, o.scrollback_limit) == o.scrollback);
        }
        let mut k: usize = 0;
        while k < count
            invariant
                self@.wf(),
                o.wf(),
                k <= count,
                count > 0 ==> bottom < o.rows,
                top == 0 ==> o.total_lines() + count <= usize::MAX,
                self@.cols == o.cols,
                self@.rows == o.rows,
                self@.scrollback_limit == o.scrollback_limit,
                self@.screen() == scrolled_up(o.screen(), o.cols, top as int, bottom as int, k as int),
                self@.scrollback == (if top == 0 {
                    keep_last(
                        o.scrollback + pushed_lines(o.screen(), o.cols, bottom as int, k as int),
                        o.scrollback_limit,
                    )
                } else {
                    o.scrollback
                }),
                self@.total_lines() == o.total_lines() + (if top == 0 { k as int } else { 0int }),
                self@.display_offset == (if top == 0 && o.display_offset > 0 {
                    min(o.display_offset + k, self@.scrollback.len() as int)
                } else {
                    o.display_offset as int
                }),
                self@.dirty == dirtied(o.dirty, top as int, bottom as int, bottom as int, k as int),
            decreases count - k,
        {
            let ghost before = self@;
            self.scroll_up_once(top, bottom);
            proof {
                lemma_scrolled_up_step(o.screen(), o.cols, top as int, bottom as int, k as int);
                lemma_dirtied_step(o.dirty, top as int, bottom as int, bottom as int, k as int);
                if top == 0 {
                    let a = o.scrollback + pushed_lines(o.screen(), o.cols, bottom as int, k as int);
                    let x = before.screen()[0];
                    lemma_pushed_step(o.screen(), o.scrollback, o.cols, bottom as int, k as int);
                    lemma_keep_last_push(a, x, o.scrollback_limit);
                }
            }
            k = k + 1;
        }
    }

    /// One scroll-down of the region `top..=bottom`.
    fn scroll_down_once(&mut self, top: usize, bottom: usize)
        requires
            old(self)@.wf(),
            top < old(self)@.rows,
            top < bottom ==> bottom < old(self)@.rows,
        ensures
            final(self)@.wf(),
            final(self)@ == (GridView { cells: final(self)@.cells, dirty: final(self)@.dirty, ..old(self)@ }),
            final(self)@.screen() == scrolled_down(old(self)@.screen(), old(self)@.cols, top as int, bottom as int, 1),
            final(self)@.dirty == dirtied(old(self)@.dirty, top as int, bottom as int, top as int, 1),
    {
        let ghost o = old(self)@;
        let mut row: usize = if top < bottom { bottom } else { top };
        while row > top
            invariant
                self@.wf(),
                o.wf(),
                self@ == (GridView { cells: self@.cells, dirty: self@.dirty, ..o }),
                top < o.rows,
                top < bottom ==> bottom < o.rows,
                top <= row,
                row == top || (row <= bottom && top < bottom),
                self@.screen() == Seq::new(
                    o.rows,
                    |r: int| if row < r <= bottom { o.screen()[r - 1] } else { o.screen()[r] },
                ),
                self@.dirty == Seq::new(o.rows, |r: int| if row < r <= bottom { true } else { o.dirty[r] }),
            decreases row,
        {
            let ghost before = self@;
            self.copy_row(row - 1, row);
            self.set_dirty(row);
            row = row - 1;
            proof {
                assert(before.screen()[row as int] == o.screen()[row as int]);
                assert(self@.screen() == before.screen().update(row + 1, o.screen()[row as int]));
                assert(self@.screen() =~= Seq::new(
                    o.rows,
                    |r: int| if row < r <= bottom { o.screen()[r - 1] } else { o.screen()[r] },
                ));
                assert(self@.dirty =~= Seq::new(o.rows, |r: int| if row < r <= bottom { true } else { o.dirty[r] }));
            }
        }
        let cols = self.cols;
        let ghost pre = self@.screen();
        assert(pre[top as int] == o.screen()[top as int]);
        self.blank_span(top, 0, cols);
        self.set_dirty(top);
        proof {
            lemma_screen_row(o, top as int);
            assert(blanked(o.screen()[top as int], 0, o.cols as int) =~= blank_row(o.cols));
            assert(self@.screen() == pre.update(top as int, blank_row(o.cols)));
            assert(self@.screen() =~= scrolled_down(o.screen(), o.cols, top as int, bottom as int, 1));
            assert(self@.dirty =~= dirtied(o.dirty, top as int, bottom as int, top as int, 1));
        }
    }

    /// Scrolls the region `top..=bottom` down `count` times: each time every
    /// row of the region takes the row above it and row `top` becomes blank.
    pub fn scroll_down(&mut self, top: usize, bottom: usize, count: usize)
        requires
            old(self)@.wf(),
            count > 0 ==> top < old(self)@.rows,
            count > 0 && top < bottom ==> bottom < old(self)@.rows,
        ensures
            final(self)@.wf(),
            final(self)@.state() == gs_scroll_down(old(self)@.state(), top as int, bottom as int, count as int),
    {
        let ghost o = old(self)@;
        proof {
            assert(scrolled_down(o.screen(), o.cols, top as int, bottom as int, 0) =~= o.screen());
        }
        let mut k: usize = 0;
        while k < count
            invariant
                self@.wf(),
                o.wf(),
                k <= count,
                count > 0 ==> top < o.rows,
                count > 0 && top < bottom ==> bottom < o.rows,
                self@ == (GridView { cells: self@.cells, dirty: self@.dirty, ..o }),
                self@.screen() == scrolled_down(o.screen(), o.cols, top as int, bottom as int, k as int),
                self@.dirty == dirtied(o.dirty, top as int, bottom as int, top as int, k as int),
            decreases count - k,
        {
            self.scroll_down_once(top, bottom);
            proof {
                lemma_scrolled_down_step(o.screen(), o.cols, top as int, bottom as int, k as int);
                lemma_dirtied_step(o.dirty, top as int, bottom as int, top as int, k as int);
            }
            k = k + 1;
        }
    }
}


impl Grid {
    /// Resizes the screen to `new_cols` by `new_rows`, keeping the top-left
    /// part that fits; every row becomes dirty. The scrollback is kept.
    pub fn resize(&mut self, new_cols: usize, new_rows: usize)
        requires
            old(self)@.wf(),
            new_cols * new_rows <= usize::MAX,
        ensures
            final(self)@.wf(),
            final(self)@.state() == gs_resize(old(self)@.state(), new_cols as nat, new_rows as nat),
    {
        let ghost o = old(self)@;
        let mut fresh = Grid::new(new_cols, new_rows, 0);
        let copy_rows = if self.rows < new_rows { self.rows } else { new_rows };
        let copy_cols = if self.cols < new_cols { self.cols } else { new_cols };
        let ghost target = resized(o.screen(), o.cols, o.rows, new_cols as nat, new_rows as nat);
        let mut r: usize = 0;
        while r < copy_rows
            invariant
                self@ == o,
                o.wf(),
                fresh@.wf(),
                fresh@.cols == new_cols,
                fresh@.rows == new_rows,
                copy_rows <= o.rows,
                copy_rows <= new_rows,
                copy_cols <= o.cols,
                copy_cols <= new_cols,
                copy_rows == min(o.rows as int, new_rows as int),
                copy_cols == min(o.cols as int, new_cols as int),
                target == resized(o.screen(), o.cols, o.rows, new_cols as nat, new_rows as nat),
                r <= copy_rows,
                fresh@.screen() == Seq::new(
                    new_rows as nat,
                    |k: int| if k < r { target[k] } else { blank_row(new_cols as nat) },
                ),
            decreases copy_rows - r,
        {
            let mut c: usize = 0;
            proof {
                assert(Seq::new(new_cols as nat, |j: int| if j < c { target[r as int][j] } else { blank_cell() })
                    =~= blank_row(new_cols as nat));
                assert(fresh@.screen() =~= Seq::new(
                    new_rows as nat,
                    |k: int|
                        if k < r {
                            target[k]
                        } else if k == r {
                            Seq::new(new_cols as nat, |j: int| if j < c { target[k][j] } else { blank_cell() })
                        } else {
                            blank_row(new_cols as nat)
                        },
                ));
            }
            while c < copy_cols
                invariant
                    self@ == o,
                    o.wf(),
                    fresh@.wf(),
                    fresh@.cols == new_cols,
                    fresh@.rows == new_rows,
                    copy_rows <= o.rows,
                    copy_rows <= new_rows,
                    copy_cols <= o.cols,
                    copy_cols <= new_cols,
                    copy_cols == min(o.cols as int, new_cols as int),
                    target == resized(o.screen(), o.cols, o.rows, new_cols as nat, new_rows as nat),
                    r < copy_rows,
                    c <= copy_cols,
                    fresh@.screen() == Seq::new(
                        new_rows as nat,
                        |k: int|
                            if k < r {
                                target[k]
                            } else if k == r {
                                Seq::new(new_cols as nat, |j: int| if j < c { target[k][j] } else { blank_cell() })
                            } else {
                                blank_row(new_cols as nat)
                            },
                    ),
                decreases copy_cols - c,
            {
                let v = self.get(c, r);
                let ghost before = fresh@.screen();
                fresh.put(c, r, v);
                c = c + 1;
                proof {
                    assert(fresh@.screen()[r as int] =~= Seq::new(
                        new_cols as nat,
                        |j: int| if j < c { target[r as int][j] } else { blank_cell() },
                    ));
                    assert(fresh@.screen() =~= Seq::new(
                        new_rows as nat,
                        |k: int|
                            if k < r {
                                target[k]
                            } else if k == r {
                                Seq::new(new_cols as nat, |j: int| if j < c { target[k][j] } else { blank_cell() })
                            } else {
                                blank_row(new_cols as nat)
                            },
                    ));
                }
            }
            r = r + 1;
            proof {
                assert(Seq::new(new_cols as nat, |j: int| if j < c { target[r - 1][j] } else { blank_cell() })
                    =~= target[r - 1]);
                assert(fresh@.screen() =~= Seq::new(
                    new_rows as nat,
                    |k: int| if k < r { target[k] } else { blank_row(new_cols as nat) },
                ));
            }
        }
        proof {
            assert forall|k: int| r <= k < new_rows implies #[trigger] target[k] == blank_row(new_cols as nat) by {
                assert(target[k] =~= blank_row(new_cols as nat));
            }
            assert forall|k: int| 0 <= k < r implies #[trigger] target[k] == target[k] by {}
            assert(fresh@.screen() =~= target);
        }
        self.cells = fresh.cells;
        self.cols = new_cols;
        self.rows = new_rows;
        self.dirty = bools(new_rows, true);
        proof {
            assert(self@.screen() =~= fresh@.screen());
        }
    }
}


impl Grid {
    pub fn scrollback_len(&self) -> (n: usize)
        requires
            self@.wf(),
        ensures
            n == self@.scrollback.len(),
    {
        self.scrollback.len()
    }

    /// The number of lines ever pushed above the screen, including those
    /// since dropped from the scrollback; it never decreases.
    pub fn total_lines(&self) -> (n: usize)
        requires
            self@.wf(),
        ensures
            n == self@.total_lines(),
    {
        self.trimmed + self.scrollback.len()
    }

    pub fn display_offset(&self) -> (d: usize)
        ensures
            d == self@.display_offset,
    {
        self.display_offset
    }

    /// Moves the window `delta` lines back into the scrollback (forward when
    /// negative), staying between the live screen and the oldest line; when
    /// the window moves, every row becomes dirty.
    pub fn scroll_display(&mut self, delta: i32)
        requires
            old(self)@.wf(),
            old(self)@.scrollback.len() <= i64::MAX,
            old(self)@.display_offset + delta <= i64::MAX,
        ensures
            final(self)@.wf(),
            final(self)@.state() == gs_scroll_display(old(self)@.state(), delta as int),
    {
        let sum: i64 = self.display_offset as i64 + delta as i64;
        let len: i64 = self.scrollback.len() as i64;
        let new: usize = if sum < 0 {
            0
        } else if sum > len {
            self.scrollback.len()
        } else {
            sum as usize
        };
        if new != self.display_offset {
            self.display_offset = new;
            assert(self@.screen() =~= old(self)@.screen());
            self.mark_all_dirty();
        }
    }

    /// Returns the window to the live screen; when it moves, every row
    /// becomes dirty.
    pub fn reset_display_offset(&mut self)
        requires
            old(self)@.wf(),
        ensures
            final(self)@.wf(),
            final(self)@.state() == gs_reset_display_offset(old(self)@.state()),
    {
        if self.display_offset != 0 {
            self.display_offset = 0;
            assert(self@.screen() =~= old(self)@.screen());
            self.mark_all_dirty();
        }
    }

    /// The cell shown at `(col, row)` of the window; scrollback lines
    /// narrower than `col` show a blank cell there.
    pub fn display_cell(&self, col: usize, row: usize) -> (c: Cell)
        requires
            self@.wf(),
            row >= self@.display_offset ==> (row - self@.display_offset) * self@.cols + col
                < self@.cells.len(),
        ensures
            c == self@.displayed_cell(col as int, row as int),
    {
        if row >= self.display_offset {
            proof {
                assert(0 <= (row - self@.display_offset) * self@.cols) by (nonlinear_arith)
                    requires
                        row >= self@.display_offset,
                ;
            }
            self.cells[(row - self.display_offset) * self.cols + col]
        } else {
            let line = &self.scrollback[self.scrollback.len() - self.display_offset + row];
            proof {
                assert(line@ == self@.scrollback[self@.scrollback.len() - self@.display_offset + row]);
            }
            if col < line.len() {
                line[col]
            } else {
                Cell::default()
            }
        }
    }
}

pub open spec fn clamp(x: int, lo: int, hi: int) -> int {
    if x < lo {
        lo
    } else if x > hi {
        hi
    } else {
        x
    }
}


impl Grid {
    /// The text of scrollback line `i`.
    fn scrollback_line_text(&self, i: usize) -> (v: Vec<char>)
        requires
            self@.wf(),
            i < self@.scrollback.len(),
        ensures
            v@ == line_text(self@.scrollback[i as int]),
            v@ == line_text(self@.all_lines()[i as int]),
    {
        let line = &self.scrollback[i];
        proof {
            assert(line@ == self@.scrollback[i as int]);
        }
        cells_text(line.as_slice())
    }

    /// The text of screen row `row`.
    fn row_text(&self, row: usize) -> (v: Vec<char>)
        requires
            self@.wf(),
            row < self@.rows,
        ensures
            v@ == line_text(self@.screen()[row as int]),
            v@ == line_text(self@.all_lines()[self@.scrollback.len() + row]),
    {
        proof {
            lemma_row_range(row as int, self@.cols as int, self@.rows as int);
            lemma_screen_row(self@, row as int);
            assert(self@.screen()[row as int] =~= self@.row(row as int));
        }
        cells_text(self.row_slice(row))
    }

    /// The text of the last `scrollback_lines` scrollback lines (all of them
    /// if there are fewer) and of the screen, a line per row, trailing
    /// whitespace removed, joined with newlines.
    pub fn screen_text(&self, scrollback_lines: usize) -> (t: String)
        requires
            self@.wf(),
            min(scrollback_lines as int, self@.scrollback.len() as int) + self@.rows <= usize::MAX,
        ensures
            t@ == screen_text_spec(self@, scrollback_lines as int),
    {
        let ghost v = self@;
        let sblen = self.scrollback.len();
        let n = if scrollback_lines < sblen { scrollback_lines } else { sblen };
        let ghost lines = v.scrollback.skip(sblen - n) + v.screen();
        let total = n + self.rows;
        let mut out = String::new();
        let mut j: usize = 0;
        proof {
            assert(Seq::new(0nat, |i: int| line_text(lines[i])) =~= Seq::<Seq<char>>::empty());
        }
        while j < total
            invariant
                self@ == v,
                v.wf(),
                n <= sblen,
                sblen == v.scrollback.len(),
                total == n + v.rows,
                lines == v.scrollback.skip(sblen - n) + v.screen(),
                j <= total,
                out@ == join_lines(Seq::new(j as nat, |i: int| line_text(lines[i]))),
            decreases total - j,
        {
            let line = if j < n {
                self.scrollback_line_text(sblen - n + j)
            } else {
                self.row_text(j - n)
            };
            append_line(&mut out, &line, j == 0, Ghost(Seq::new(j as nat, |i: int| line_text(lines[i]))));
            j = j + 1;
            proof {
                assert(Seq::new((j - 1) as nat, |i: int| line_text(lines[i])).push(line@)
                    =~= Seq::new(j as nat, |i: int| line_text(lines[i])));
            }
        }
        proof {
            assert(lines.len() == total);
        }
        out
    }

    /// The text of lines `start_abs..=end_abs`, numbered from the first line
    /// ever pushed into the scrollback; lines already dropped are skipped and
    /// the range stops at the last screen row.
    pub fn abs_rows_text(&self, start_abs: usize, end_abs: usize) -> (t: String)
        requires
            self@.wf(),
        ensures
            t@ == abs_rows_text_spec(self@, start_abs as int, end_abs as int),
    {
        let ghost v = self@;
        let ghost lo = max(start_abs as int, v.trimmed as int);
        let ghost hi = min(end_abs + 1, (v.trimmed + v.all_lines().len()) as int);
        let ghost all = v.all_lines();
        let mut out = String::new();
        let lo_abs = if start_abs < self.trimmed { self.trimmed } else { start_abs };
        if lo_abs > end_abs {
            proof {
                assert(Seq::new(0nat, |i: int| line_text(all[lo + i - v.trimmed])) =~= Seq::<Seq<char>>::empty());
            }
            return out;
        }
        let sblen = self.scrollback.len();
        let rows = self.rows;
        let mut idx = lo_abs - self.trimmed;
        let first_idx = idx;
        let last = end_abs - self.trimmed;
        let ghost idx0 = idx as int;
        proof {
            assert(Seq::new(0nat, |i: int| line_text(all[lo + i - v.trimmed])) =~= Seq::<Seq<char>>::empty());
        }
        loop
            invariant_except_break
                self@ == v,
                v.wf(),
                all == v.all_lines(),
                all.len() == sblen + rows,
                sblen == v.scrollback.len(),
                rows == v.rows,
                lo == idx0 + v.trimmed,
                lo == max(start_abs as int, v.trimmed as int),
                first_idx == idx0,
                hi == min(end_abs + 1, (v.trimmed + all.len()) as int),
                last + v.trimmed == end_abs,
                idx0 <= idx <= last,
                idx == idx0 || idx <= all.len(),
                out@ == join_lines(Seq::new((idx - idx0) as nat, |i: int| line_text(all[lo + i - v.trimmed]))),
            ensures
                out@ == abs_rows_text_spec(v, start_abs as int, end_abs as int),
            decreases last - idx,
        {
            if !(idx < sblen || idx - sblen < rows) {
                proof {
                    if idx <= all.len() {
                        assert(hi == idx + v.trimmed);
                    } else {
                        assert(hi <= lo);
                    }
                    let cnt: nat = if hi > lo { (hi - lo) as nat } else { 0nat };
                    assert(cnt == idx - idx0);
                    assert(Seq::new((idx - idx0) as nat, |i: int| line_text(all[lo + i - v.trimmed]))
                        =~= Seq::new(cnt, |i: int| line_text(v.all_lines()[lo + i - v.trimmed])));
                }
                break;
            }
            let line = if idx < sblen {
                self.scrollback_line_text(idx)
            } else {
                self.row_text(idx - sblen)
            };
            let ghost done = Seq::new((idx - idx0) as nat, |i: int| line_text(all[lo + i - v.trimmed]));
            append_line(&mut out, &line, idx == first_idx, Ghost(done));
            proof {
                assert(done.push(line@) =~= Seq::new(
                    (idx + 1 - idx0) as nat,
                    |i: int| line_text(all[lo + i - v.trimmed]),
                ));
            }
            if idx == last {
                proof {
                    assert(hi == idx + 1 + v.trimmed);
                    let cnt: nat = if hi > lo { (hi - lo) as nat } else { 0nat };
                    assert(Seq::new((idx + 1 - idx0) as nat, |i: int| line_text(all[lo + i - v.trimmed]))
                        =~= Seq::new(cnt, |i: int| line_text(v.all_lines()[lo + i - v.trimmed])));
                }
                break;
            }
            idx = idx + 1;
        }
        out
    }

    /// The text shown between window positions `start` and `end` (columns,
    /// rows), inclusive, in reading order whichever comes first: a line per
    /// row, the first and last rows cut at the given columns, columns clamped
    /// to the last column, trailing whitespace removed.
    pub fn display_text_range(&self, start: (usize, usize), end: (usize, usize)) -> (t: String)
        requires
            self@.wf(),
            max(start.1 as int, end.1 as int) >= self@.display_offset ==> (self@.cols > 0 && max(
                start.1 as int,
                end.1 as int,
            ) < self@.display_offset + self@.rows),
        ensures
            t@ == display_text_range_spec(
                self@,
                (start.0 as int, start.1 as int),
                (end.0 as int, end.1 as int),
            ),
    {
        let ghost v = self@;
        let (s, e) = if start.1 < end.1 || (start.1 == end.1 && start.0 <= end.0) {
            (start, end)
        } else {
            (end, start)
        };
        let ghost si = (s.0 as int, s.1 as int);
        let ghost ei = (e.0 as int, e.1 as int);
        let cols = self.cols;
        let last_col: usize = if cols > 0 { cols - 1 } else { 0 };
        let mut out = String::new();
        let mut row = s.1;
        proof {
            assert(Seq::new(0nat, |i: int| line_text(range_row(v, si, ei, si.1 + i))) =~= Seq::<Seq<char>>::empty());
        }
        loop
            invariant_except_break
                self@ == v,
                v.wf(),
                cols == v.cols,
                last_col == (if v.cols > 0 { v.cols - 1 } else { 0 }),
                si == (s.0 as int, s.1 as int),
                ei == (e.0 as int, e.1 as int),
                s.1 <= row <= e.1,
                s.1 < e.1 || s.0 <= e.0,
                e.1 >= v.display_offset ==> (v.cols > 0 && e.1 < v.display_offset + v.rows),
                out@ == join_lines(Seq::new((row - s.1) as nat, |i: int| line_text(range_row(v, si, ei, si.1 + i)))),
            ensures
                out@ == range_text(v, si, ei),
            decreases e.1 - row,
        {
            let cs = if row == s.1 { if s.0 < last_col { s.0 } else { last_col } } else { 0 };
            let ce = if row == e.1 { if e.0 < last_col { e.0 } else { last_col } } else { last_col };
            let mut seg: Vec<Cell> = Vec::new();
            let mut c = cs;
            loop
                invariant_except_break
                    self@ == v,
                    v.wf(),
                    s.1 <= row <= e.1,
                    e.1 >= v.display_offset ==> (v.cols > 0 && e.1 < v.display_offset + v.rows),
                    last_col == (if v.cols > 0 { v.cols - 1 } else { 0 }),
                    cs <= c <= ce,
                    ce <= last_col,
                    seg@ == Seq::new((c - cs) as nat, |j: int| v.displayed_cell(cs + j, row as int)),
                ensures
                    seg@ == Seq::new((ce - cs + 1) as nat, |j: int| v.displayed_cell(cs + j, row as int)),
                decreases ce - c,
            {
                proof {
                    if row >= v.display_offset {
                        lemma_cell_index(
                            (row - v.display_offset) as int,
                            c as int,
                            v.cols as int,
                            v.rows as int,
                        );
                    }
                }
                let cell = self.display_cell(c, row);
                seg.push(cell);
                proof {
                    assert(seg@ =~= Seq::new((c + 1 - cs) as nat, |j: int| v.displayed_cell(cs + j, row as int)));
                }
                if c == ce {
                    break;
                }
                c = c + 1;
            }
            let line = cells_text(seg.as_slice());
            let ghost done = Seq::new((row - s.1) as nat, |i: int| line_text(range_row(v, si, ei, si.1 + i)));
            append_line(&mut out, &line, row == s.1, Ghost(done));
            proof {
                assert(range_row(v, si, ei, row as int) =~= seg@);
                assert(done.push(line@) =~= Seq::new(
                    (row + 1 - s.1) as nat,
                    |i: int| line_text(range_row(v, si, ei, si.1 + i)),
                ));
            }
            if row == e.1 {
                break;
            }
            row = row + 1;
        }
        out
    }
}


/// Writing cell `x` through [`Grid::cell_mut`] at `(col, row)` gives
/// [`gs_write_flat`] of the cell's index.
pub proof fn lemma_write_state(g: GridView, col: int, row: int, x: Cell)
    requires
        g.wf(),
        0 <= row < g.rows,
        0 <= col,
        row * g.cols + col < g.cells.len(),
    ensures
        (GridView { cells: g.cells.update(row * g.cols + col, x), dirty: g.dirty.update(row, true), ..g }).wf(),
        (GridView { cells: g.cells.update(row * g.cols + col, x), dirty: g.dirty.update(row, true), ..g }).state()
            == gs_write_flat(g.state(), row * g.cols + col, row, x),
{
    let n = GridView { cells: g.cells.update(row * g.cols + col, x), dirty: g.dirty.update(row, true), ..g };
    let i = row * g.cols + col;
    assert(0 <= row * g.cols) by (nonlinear_arith)
        requires
            0 <= row,
            0 <= g.cols,
    ;
    let target = gs_write_flat(g.state(), i, row, x).screen;
    assert forall|r: int| 0 <= r < g.rows implies #[trigger] n.screen()[r] == target[r] by {
        assert(n.wf());
        lemma_screen_row(g, r);
        lemma_screen_row(n, r);
        assert forall|c: int| 0 <= c < g.cols implies #[trigger] n.screen()[r][c] == target[r][c] by {
            lemma_cell_index(r, c, g.cols as int, g.rows as int);
            assert(n.screen()[r][c] == n.cells[r * g.cols + c]);
            assert(g.screen()[r][c] == g.cells[r * g.cols + c]);
        }
        assert(n.screen()[r] =~= target[r]);
    }
    assert(n.screen() =~= gs_write_flat(g.state(), i, row, x).screen);
}


/// A scroll-up of a region that starts at the top row adds exactly `count`
/// to the count of lines ever pushed into the scrollback, however many old
/// lines the scrollback limit drops; other scroll-ups leave it alone. The
/// scrollback never grows past its limit, and a scrolled-back view stays
/// within it.
pub proof fn law_scroll_up_counts_lines(g: GridState, top: int, bottom: int, count: int)
    requires
        count >= 0,
        g.scrollback.len() <= g.scrollback_limit,
        g.display_offset <= g.scrollback.len(),
    ensures
        gs_scroll_up(g, top, bottom, count).total_lines() == g.total_lines() + (if top == 0 {
            count
        } else {
            0
        }),
        gs_scroll_up(g, top, bottom, count).scrollback.len() <= g.scrollback_limit,
        gs_scroll_up(g, top, bottom, count).display_offset <= gs_scroll_up(g, top, bottom, count).scrollback.len(),
        gs_scroll_up(g, top, bottom, count).cols == g.cols,
        gs_scroll_up(g, top, bottom, count).rows == g.rows,
        gs_scroll_up(g, top, bottom, count).scrollback_limit == g.scrollback_limit,
{
    if top == 0 {
        let a = g.scrollback + pushed_lines(g.screen, g.cols, bottom, count);
        lemma_keep_last_push(a, blank_row(0), g.scrollback_limit);
    }
}

/// Whether `h` has the scrollback of `g` and the same count of lines
/// trimmed from it.
pub open spec fn same_scrollback(g: GridState, h: GridState) -> bool {
    h.scrollback == g.scrollback && h.trimmed == g.trimmed
}

/// The count of lines ever pushed above the screen never goes down: a
/// scroll-up raises it by its count when it starts at the top row, and
/// every other operation leaves the scrollback, and so the count, as it is.
pub proof fn law_total_lines_never_decrease(
    g: GridState,
    row: int,
    a: int,
    b: int,
    count: int,
    new_cols: nat,
    new_rows: nat,
    delta: int,
    i: int,
    cell: Cell,
    dirty: bool,
)
    requires
        count >= 0,
        g.scrollback.len() <= g.scrollback_limit,
        g.display_offset <= g.scrollback.len(),
    ensures
        gs_scroll_up(g, a, b, count).total_lines() >= g.total_lines(),
        same_scrollback(g, gs_scroll_down(g, a, b, count)),
        same_scrollback(g, gs_clear(g)),
        same_scrollback(g, gs_erase_line(g, row, a, b)),
        same_scrollback(g, gs_insert_chars(g, row, a, count)),
        same_scrollback(g, gs_delete_chars(g, row, a, count)),
        same_scrollback(g, gs_resize(g, new_cols, new_rows)),
        same_scrollback(g, gs_scroll_display(g, delta)),
        same_scrollback(g, gs_reset_display_offset(g)),
        same_scrollback(g, gs_set_dirty(g, dirty)),
        same_scrollback(g, gs_write_flat(g, i, row, cell)),
{
    law_scroll_up_counts_lines(g, a, b, count);
}

/// An operation on a grid, with its arguments (see the methods of [`Grid`]).
pub enum GridOp {
    ScrollUp(int, int, nat),
    ScrollDown(int, int, nat),
    Clear,
    EraseLine(int, int, int),
    InsertChars(int, int, nat),
    DeleteChars(int, int, nat),
    Resize(nat, nat),
    ScrollDisplay(int),
    ResetDisplayOffset,
    SetDirty(bool),
    Write(int, int, Cell),
}

/// The grid state after one operation.
pub open spec fn grid_step(g: GridState, op: GridOp) -> GridState {
    match op {
        GridOp::ScrollUp(top, bottom, count) => gs_scroll_up(g, top, bottom, count as int),
        GridOp::ScrollDown(top, bottom, count) => gs_scroll_down(g, top, bottom, count as int),
        GridOp::Clear => gs_clear(g),
        GridOp::EraseLine(row, a, b) => gs_erase_line(g, row, a, b),
        GridOp::InsertChars(row, col, count) => gs_insert_chars(g, row, col, count as int),
        GridOp::DeleteChars(row, col, count) => gs_delete_chars(g, row, col, count as int),
        GridOp::Resize(cols, rows) => gs_resize(g, cols, rows),
        GridOp::ScrollDisplay(delta) => gs_scroll_display(g, delta),
        GridOp::ResetDisplayOffset => gs_reset_display_offset(g),
        GridOp::SetDirty(b) => gs_set_dirty(g, b),
        GridOp::Write(i, row, cell) => gs_write_flat(g, i, row, cell),
    }
}

/// The grid state after the operations `ops`, in order.
pub open spec fn grid_run(g: GridState, ops: Seq<GridOp>) -> GridState
    decreases ops.len(),
{
    if ops.len() == 0 {
        g
    } else {
        grid_step(grid_run(g, ops.drop_last()), ops.last())
    }
}

/// Whether the scrollback is within its limit and the view within the
/// scrollback.
pub open spec fn scrollback_sane(g: GridState) -> bool {
    g.scrollback.len() <= g.scrollback_limit && g.display_offset <= g.scrollback.len()
}

/// Through any sequence of grid operations, the count of lines ever pushed
/// above the screen never goes down, and it is never below the length of
/// the scrollback; the scrollback stays within its limit and the view
/// within the scrollback.
pub proof fn law_total_lines_monotonic(g: GridState, ops: Seq<GridOp>)
    requires
        scrollback_sane(g),
    ensures
        grid_run(g, ops).total_lines() >= g.total_lines(),
        grid_run(g, ops).scrollback.len() <= grid_run(g, ops).total_lines(),
        scrollback_sane(grid_run(g, ops)),
        grid_run(g, ops).scrollback_limit == g.scrollback_limit,
    decreases ops.len(),
{
    if ops.len() > 0 {
        law_total_lines_monotonic(g, ops.drop_last());
        let h = grid_run(g, ops.drop_last());
        match ops.last() {
            GridOp::ScrollUp(top, bottom, count) => {
                law_scroll_up_counts_lines(h, top, bottom, count as int);
            },
            _ => {},
        }
    }
}

/// Whether every row that `h` leaves clean shows what it showed in `g`, so
/// that redrawing the dirty rows of `h` is enough.
pub open spec fn clean_rows_unchanged(g: GridState, h: GridState) -> bool {
    forall|r: int|
        0 <= r < h.dirty.len() && !#[trigger] h.dirty[r] ==> r < g.screen.len() && h.screen[r] == g.screen[r]
}

/// The screen is redrawn on demand: every operation marks dirty each row
/// whose content it changes, so the rows it leaves clean are as they were.
pub proof fn law_changed_rows_are_dirty(
    g: GridState,
    row: int,
    a: int,
    b: int,
    count: int,
    new_cols: nat,
    new_rows: nat,
    delta: int,
    i: int,
    cell: Cell,
    dirty: bool,
)
    requires
        g.screen.len() == g.rows,
        g.dirty.len() == g.rows,
        forall|r: int| 0 <= r < g.rows ==> (#[trigger] g.screen[r]).len() == g.cols,
        0 <= row < g.rows,
        row * g.cols <= i < row * g.cols + g.cols,
    ensures
        clean_rows_unchanged(g, gs_scroll_up(g, a, b, count)),
        clean_rows_unchanged(g, gs_scroll_down(g, a, b, count)),
        clean_rows_unchanged(g, gs_clear(g)),
        clean_rows_unchanged(g, gs_erase_line(g, row, a, b)),
        clean_rows_unchanged(g, gs_insert_chars(g, row, a, count)),
        clean_rows_unchanged(g, gs_delete_chars(g, row, a, count)),
        clean_rows_unchanged(g, gs_resize(g, new_cols, new_rows)),
        clean_rows_unchanged(g, gs_scroll_display(g, delta)),
        clean_rows_unchanged(g, gs_reset_display_offset(g)),
        clean_rows_unchanged(g, gs_set_dirty(g, dirty)),
        clean_rows_unchanged(g, gs_write_flat(g, i, row, cell)),
{
    let h = gs_write_flat(g, i, row, cell);
    assert forall|r: int| 0 <= r < h.dirty.len() && !#[trigger] h.dirty[r] implies r < g.screen.len()
        && h.screen[r] == g.screen[r] by {
        if r < row {
            lemma_rows_apart(r, row, g.cols as int);
        } else {
            lemma_rows_apart(row, r, g.cols as int);
        }
        assert(h.screen[r] =~= g.screen[r]);
    }
}

/// Selecting from `a` to `b` gives the same text as selecting from `b` to `a`.
pub proof fn law_selection_symmetric(v: GridView, a: (int, int), b: (int, int))
    ensures
        display_text_range_spec(v, a, b) == display_text_range_spec(v, b, a),
{
    if before_or_at(a.0, a.1, b.0, b.1) && before_or_at(b.0, b.1, a.0, a.1) {
        assert(a == b);
    }
}

/// Deleting the `n` cells just inserted at `col` gives the line back, but
/// for its last `n` cells, which were pushed off the end and are now blank.
pub proof fn law_delete_undoes_insert(line: Seq<Cell>, col: int, n: int)
    requires
        0 <= col,
        0 <= n,
        col + n <= line.len(),
    ensures
        deleted(inserted(line, col, n), col, n) == blanked(line, line.len() - n, line.len() as int),
{
    assert(deleted(inserted(line, col, n), col, n) =~= blanked(line, line.len() - n, line.len() as int));
}

/// Resizing a grid to the size it has changes nothing on the screen.
pub proof fn law_resize_same_size(v: GridView)
    requires
        v.wf(),
    ensures
        gs_resize(v.state(), v.cols, v.rows).screen == v.state().screen,
{
    assert forall|r: int| 0 <= r < v.rows implies #[trigger] resized(v.screen(), v.cols, v.rows, v.cols, v.rows)[r]
        == v.screen()[r] by {
        lemma_screen_row(v, r);
        assert(resized(v.screen(), v.cols, v.rows, v.cols, v.rows)[r] =~= v.screen()[r]);
    }
    assert(resized(v.screen(), v.cols, v.rows, v.cols, v.rows) =~= v.screen());
}

/// Scrolling the view moves it `delta` lines back into the scrollback
/// (forward for a negative `delta`), stopping at the live screen and at the
/// oldest line; every row is redrawn when the view moves. Returning to the
/// live screen sets the offset to 0. Neither changes the screen or the
/// scrollback.
pub proof fn law_scroll_display(g: GridState, delta: int)
    ensures
        gs_scroll_display(g, delta).display_offset == (if g.display_offset + delta < 0 {
            0
        } else if g.display_offset + delta > g.scrollback.len() {
            g.scrollback.len() as int
        } else {
            g.display_offset + delta
        }),
        gs_scroll_display(g, delta).screen == g.screen,
        gs_scroll_display(g, delta).scrollback == g.scrollback,
        gs_scroll_display(g, delta).display_offset != g.display_offset ==> forall|r: int|
            0 <= r < g.rows ==> #[trigger] gs_scroll_display(g, delta).dirty[r],
        gs_reset_display_offset(g).display_offset == 0,
        gs_reset_display_offset(g).screen == g.screen,
        gs_reset_display_offset(g).scrollback == g.scrollback,
{
}

/// What the window shows: with the view `d` lines back, its first `d` rows
/// are the last `d` scrollback lines, oldest first (blank past a line's
/// end), and the rows below are the screen's rows from the top.
pub proof fn law_displayed_rows(v: GridView, col: int, row: int)
    requires
        v.wf(),
        0 <= col < v.cols,
        0 <= row < v.rows,
    ensures
        row < v.display_offset ==> v.displayed_cell(col, row) == ({
            let line = v.scrollback[v.scrollback.len() - v.display_offset + row];
            if col < line.len() {
                line[col]
            } else {
                blank_cell()
            }
        }),
        row >= v.display_offset ==> v.displayed_cell(col, row) == v.screen()[row - v.display_offset][col],
{
    if row >= v.display_offset {
        lemma_screen_row(v, row - v.display_offset);
    }
}

/// The screen text lists, one line per row and trailing whitespace removed,
/// the last `n` scrollback lines (all of them when there are fewer), oldest
/// first, then the screen's rows from the top.
pub proof fn law_screen_text(v: GridView, n: int)
    requires
        n >= 0,
    ensures
        ({
            let k = if n < v.scrollback.len() { n } else { v.scrollback.len() as int };
            screen_text_spec(v, n) == join_lines(
                Seq::new(
                    (k + v.rows) as nat,
                    |i: int|
                        line_text(
                            if i < k {
                                v.scrollback[v.scrollback.len() - k + i]
                            } else {
                                v.screen()[i - k]
                            },
                        ),
                ),
            )
        }),
{
    let k = if n < v.scrollback.len() { n } else { v.scrollback.len() as int };
    let lines = v.scrollback.skip(v.scrollback.len() - k) + v.screen();
    let a = Seq::new(lines.len(), |i: int| line_text(lines[i]));
    let b = Seq::new(
        (k + v.rows) as nat,
        |i: int| line_text(if i < k { v.scrollback[v.scrollback.len() - k + i] } else { v.screen()[i - k] }),
    );
    assert(a =~= b);
}

/// Selecting within one row gives the text of the selected cells of that
/// row, from the first column through the last (kept on the window),
/// trailing whitespace removed.
pub proof fn law_select_in_row(v: GridView, a: int, b: int, row: int)
    requires
        0 <= a <= b,
        v.cols > 0,
    ensures
        display_text_range_spec(v, (a, row), (b, row)) == line_text(
            Seq::new(
                ((if b < v.cols { b } else { v.cols - 1 }) - (if a < v.cols { a } else { v.cols - 1 }) + 1) as nat,
                |j: int| v.displayed_cell((if a < v.cols { a } else { v.cols - 1 }) + j, row),
            ),
        ),
{
    let s = (a, row);
    let e = (b, row);
    assert(Seq::new(1, |i: int| line_text(range_row(v, s, e, row + i))) =~= seq![
        line_text(range_row(v, s, e, row)),
    ]);
    assert(range_row(v, s, e, row) =~= Seq::new(
        ((if b < v.cols { b } else { v.cols - 1 }) - (if a < v.cols { a } else { v.cols - 1 }) + 1) as nat,
        |j: int| v.displayed_cell((if a < v.cols { a } else { v.cols - 1 }) + j, row),
    ));
}

/// Absolute rows are counted from the first line ever pushed into the
/// scrollback: row `a` is scrollback line `a - trimmed` while it is kept,
/// then the screen's rows follow; a row already trimmed away gives nothing.
pub proof fn law_abs_row_text(v: GridView, a: int)
    requires
        v.wf(),
        0 <= a,
    ensures
        a < v.trimmed ==> abs_rows_text_spec(v, a, a) == Seq::<char>::empty(),
        v.trimmed <= a < v.trimmed + v.scrollback.len() ==> abs_rows_text_spec(v, a, a) == line_text(
            v.scrollback[a - v.trimmed],
        ),
        v.trimmed + v.scrollback.len() <= a < v.trimmed + v.scrollback.len() + v.rows ==> abs_rows_text_spec(
            v,
            a,
            a,
        ) == line_text(v.screen()[a - v.trimmed - v.scrollback.len()]),
{
    let lo = max(a, v.trimmed as int);
    let hi = min(a + 1, (v.trimmed + v.all_lines().len()) as int);
    let f = |i: int| line_text(v.all_lines()[lo + i - v.trimmed]);
    if a < v.trimmed {
        assert(Seq::new(if hi > lo { (hi - lo) as nat } else { 0nat }, f) =~= Seq::<Seq<char>>::empty());
    } else if a < v.trimmed + v.all_lines().len() {
        assert(Seq::new(if hi > lo { (hi - lo) as nat } else { 0nat }, f) =~= seq![f(0)]);
    }
}

} // verus!
