use vstd::prelude::*;
use rand::Rng;
use crate::app::Difficulty;
use crate::cell::{Cell, CellView, fresh_cell};
use crate::grid::{
    MAX_CELLS,
    adjacent,
    column_of,
    row_of,
    index_at,
    count_true,
    mines_around,
    lemma_position_of_index,
    lemma_position_in_grid,
    lemma_count_true_update,
    lemma_count_true_bounded,
    lemma_count_true_none,
    lemma_count_true_all,
    lemma_mines_around_at_most_eight,
};
use crate::input_listener::{Direction, InputEvent};

verus! {

/// A board as plain values: its cells row by row, its size, the cursor, the
/// number of mines and the number of flags.
pub struct BoardView {
    pub cells: Seq<CellView>,
    pub width: nat,
    pub height: nat,
    pub selected: nat,
    pub mine_count: nat,
    pub flag_count: nat,
}

/// Which cells are mines.
pub open spec fn mine_flags(cells: Seq<CellView>) -> Seq<bool> {
    Seq::new(cells.len(), |i: int| cells[i].mine)
}

/// Which cells carry a flag.
pub open spec fn flag_marks(cells: Seq<CellView>) -> Seq<bool> {
    Seq::new(cells.len(), |i: int| cells[i].flagged)
}

/// Whether index `i` is one of `mines`.
pub open spec fn listed(mines: Seq<usize>, i: int) -> bool {
    exists|q: int| 0 <= q < mines.len() && #[trigger] mines[q] as int == i
}

/// Whether a width and a height make a board that this library holds.
pub open spec fn valid_size(width: int, height: int) -> bool {
    0 < width && 0 < height && width * height <= MAX_CELLS
}

impl BoardView {
    /// The invariant of a board: the cells fill the grid, the cursor is on
    /// the one selected cell, no cell is both open and flagged, the counts of
    /// mines and flags are those of the cells, and each cell counts the mines
    /// around it.
    pub open spec fn well_formed(self) -> bool {
        &&& self.cells.len() == self.width * self.height
        &&& self.cells.len() <= MAX_CELLS
        &&& self.width <= MAX_CELLS
        &&& self.height <= MAX_CELLS
        &&& (self.cells.len() == 0 ==> self.selected == 0)
        &&& (self.cells.len() > 0 ==> self.selected < self.cells.len())
        &&& forall|i: int|
            0 <= i < self.cells.len() ==> (#[trigger] self.cells[i].selected <==> i
                == self.selected)
        &&& forall|i: int|
            0 <= i < self.cells.len() ==> !(#[trigger] self.cells[i].flagged
                && self.cells[i].open)
        &&& count_true(mine_flags(self.cells)) == self.mine_count
        &&& count_true(flag_marks(self.cells)) == self.flag_count
        &&& forall|n: int|
            0 <= n < self.cells.len() ==> (#[trigger] self.cells[n]).value == mines_around(
                mine_flags(self.cells),
                self.width as int,
                self.height as int,
                n,
                self.cells.len() as int,
            )
    }

    /// A board just generated at the given size with the given number of
    /// mines: every cell hidden and unflagged, the cursor on the first cell.
    pub open spec fn is_fresh(self, width: nat, height: nat, mine_count: nat) -> bool {
        &&& self.well_formed()
        &&& self.width == width
        &&& self.height == height
        &&& self.mine_count == mine_count
        &&& self.flag_count == 0
        &&& self.selected == 0
        &&& forall|i: int|
            0 <= i < self.cells.len() ==> !(#[trigger] self.cells[i]).open
                && !self.cells[i].flagged
    }

    /// Whether every cell that is no mine is open.
    pub open spec fn all_safe_open(self) -> bool {
        forall|i: int|
            0 <= i < self.cells.len() && !(#[trigger] self.cells[i]).mine ==> self.cells[i].open
    }

    /// Whether the cell under the cursor is a mine.
    pub open spec fn selected_is_mine(self) -> bool {
        self.cells.len() > 0 && self.cells[self.selected as int].mine
    }

    /// Where the cursor goes when moved: up and down by a row, left and right
    /// within the row. A move off the grid, or past the end of a row, has no
    /// target.
    pub open spec fn target(self, dir: Direction) -> Option<int> {
        let s = self.selected as int;
        let w = self.width as int;
        if self.cells.len() == 0 {
            None
        } else {
            match dir {
                Direction::Up => if s >= w {
                    Some(s - w)
                } else {
                    None
                },
                Direction::Down => if s + w < self.cells.len() {
                    Some(s + w)
                } else {
                    None
                },
                Direction::Left => if s % w != 0 {
                    Some(s - 1)
                } else {
                    None
                },
                Direction::Right => if s % w + 1 < w {
                    Some(s + 1)
                } else {
                    None
                },
            }
        }
    }

    /// The board with the cursor moved from its cell to cell `t`.
    pub open spec fn select_at(self, t: int) -> BoardView {
        let s = self.selected as int;
        let off = self.cells.update(s, CellView { selected: false, ..self.cells[s] });
        BoardView { cells: off.update(t, CellView { selected: true, ..off[t] }), selected: t as nat, ..self }
    }

    /// The board after a cursor move in `dir`; a move without a target
    /// changes nothing.
    pub open spec fn moved(self, dir: Direction) -> BoardView {
        match self.target(dir) {
            Some(t) => self.select_at(t),
            None => self,
        }
    }

    /// The board after the flag of the cursor cell is toggled; an open cell,
    /// or an empty board, is left as it is.
    pub open spec fn flag_toggled(self) -> BoardView {
        let s = self.selected as int;
        if self.cells.len() == 0 || self.cells[s].open {
            self
        } else {
            let c = self.cells[s];
            BoardView {
                cells: self.cells.update(s, CellView { flagged: !c.flagged, ..c }),
                flag_count: if c.flagged {
                    (self.flag_count - 1) as nat
                } else {
                    self.flag_count + 1
                },
                ..self
            }
        }
    }

    /// The board after the cursor cell is opened, which clears its flag.
    pub open spec fn selected_opened(self) -> BoardView {
        let s = self.selected as int;
        if self.cells.len() == 0 {
            self
        } else {
            let c = self.cells[s];
            BoardView {
                cells: self.cells.update(s, CellView { open: true, flagged: false, ..c }),
                flag_count: if c.flagged {
                    (self.flag_count - 1) as nat
                } else {
                    self.flag_count
                },
                ..self
            }
        }
    }
}

/// Whether the cursor of `b` sits on the edge of the grid that `dir` points
/// at: the top row for up, the bottom row for down, the first column for
/// left, the last column for right.
pub open spec fn at_edge(b: BoardView, dir: Direction) -> bool {
    let w = b.width as int;
    let s = b.selected as int;
    match dir {
        Direction::Up => row_of(w, s) == 0,
        Direction::Down => row_of(w, s) == b.height - 1,
        Direction::Left => column_of(w, s) == 0,
        Direction::Right => column_of(w, s) == w - 1,
    }
}

/// Moving the cursor off an edge of the grid leaves the board, and so the
/// cursor, as it was.
pub proof fn lemma_move_off_edge_stays(b: BoardView, dir: Direction)
    requires
        b.well_formed(),
        at_edge(b, dir),
    ensures
        b.moved(dir) == b,
{
    if b.cells.len() > 0 {
        let w = b.width as int;
        let h = b.height as int;
        let s = b.selected as int;
        if w == 0 {
            assert(w * h == 0) by (nonlinear_arith)
                requires
                    w == 0,
            ;
        }
        lemma_position_in_grid(w, h, s);
        let y = row_of(w, s);
        match dir {
            Direction::Up => {
                assert(y * w == 0) by (nonlinear_arith)
                    requires
                        y == 0,
                ;
                assert(b.target(dir) is None);
            },
            Direction::Down => {
                assert(y * w + w == w * h) by (nonlinear_arith)
                    requires
                        y == h - 1,
                ;
                assert(b.target(dir) is None);
            },
            _ => {
                assert(b.target(dir) is None);
            },
        }
    }
}

/// Moving the cursor right and then left brings it back to where it was,
/// whenever it did not start in the last column.
pub proof fn lemma_right_then_left(b: BoardView)
    requires
        b.well_formed(),
        b.cells.len() > 0,
        column_of(b.width as int, b.selected as int) + 1 < b.width,
    ensures
        b.moved(Direction::Right).moved(Direction::Left) == b,
{
    let w = b.width as int;
    let h = b.height as int;
    let s = b.selected as int;
    lemma_position_in_grid(w, h, s);
    assert(s + 1 < b.cells.len()) by {
        let y = row_of(w, s);
        assert(y * w <= (h - 1) * w) by (nonlinear_arith)
            requires
                y < h,
                0 <= w,
        ;
        assert((h - 1) * w + w == w * h) by (nonlinear_arith);
    }
    lemma_position_of_index(w, column_of(w, s) + 1, row_of(w, s));
    let b1 = b.select_at(s + 1);
    assert(b.moved(Direction::Right) == b1);
    assert(b1.target(Direction::Left) == Some(s));
    let b2 = b1.select_at(s);
    assert forall|i: int| 0 <= i < b.cells.len() implies b2.cells[i] == b.cells[i] by {
        assert(b.cells[i].selected == (i == s));
    }
    assert(b2.cells =~= b.cells);
}

/// Moving the cursor down and then up brings it back to where it was,
/// whenever it did not start in the bottom row.
pub proof fn lemma_down_then_up(b: BoardView)
    requires
        b.well_formed(),
        b.cells.len() > 0,
        row_of(b.width as int, b.selected as int) + 1 < b.height,
    ensures
        b.moved(Direction::Down).moved(Direction::Up) == b,
{
    let w = b.width as int;
    let h = b.height as int;
    let s = b.selected as int;
    lemma_position_in_grid(w, h, s);
    assert(s + w < b.cells.len()) by {
        let x = column_of(w, s);
        let y = row_of(w, s);
        assert(y * w + w <= (h - 1) * w) by (nonlinear_arith)
            requires
                y + 1 < h,
                0 <= w,
        ;
        assert((h - 1) * w + w == w * h) by (nonlinear_arith);
    }
    let b1 = b.select_at(s + w);
    assert(b.moved(Direction::Down) == b1);
    assert(b1.target(Direction::Up) == Some(s));
    let b2 = b1.select_at(s);
    assert forall|i: int| 0 <= i < b.cells.len() implies b2.cells[i] == b.cells[i] by {
        assert(b.cells[i].selected == (i == s));
    }
    assert(b2.cells =~= b.cells);
}

/// Toggling the flag of the cursor cell twice gives back the board, and so
/// its flag count.
pub proof fn lemma_toggle_flag_twice(b: BoardView)
    requires
        b.well_formed(),
    ensures
        b.flag_toggled().flag_toggled() == b,
{
    if b.cells.len() > 0 && !b.cells[b.selected as int].open {
        let s = b.selected as int;
        let marks = flag_marks(b.cells);
        if marks[s] {
            lemma_count_true_update(marks, s, false);
        }
        assert(b.flag_toggled().flag_toggled().cells =~= b.cells);
    }
}

/// Opening the cursor cell after flagging it leaves it open and unflagged.
pub proof fn lemma_open_after_flag(b: BoardView)
    requires
        b.well_formed(),
        b.cells.len() > 0,
    ensures
        b.flag_toggled().selected_opened().cells[b.selected as int].open,
        !b.flag_toggled().selected_opened().cells[b.selected as int].flagged,
{
}

/// Why a requested mine layout was refused.
#[derive(Clone, Copy, Debug, PartialEq, Eq, Structural)]
pub enum LayoutError {
    /// The width or height is zero, or the board would be too large.
    InvalidSize,
    /// A mine index lies past the last cell.
    MineOutOfRange,
    /// A cell is named twice as a mine.
    DuplicateMine,
}

/// The grid of cells, its mines, the cursor and the flags placed.
pub struct Board {
    cells: Vec<Cell>,
    board_width: usize,
    board_height: usize,
    selected_cell_index: usize,
    bomb_count: usize,
    flag_count: usize,
}

impl View for Board {
    type V = BoardView;

    closed spec fn view(&self) -> BoardView {
        BoardView {
            cells: self.cells@.map_values(|c: Cell| c@),
            width: self.board_width as nat,
            height: self.board_height as nat,
            selected: self.selected_cell_index as nat,
            mine_count: self.bomb_count as nat,
            flag_count: self.flag_count as nat,
        }
    }
}

/// The place of `n` in the three by three block centred on `i`, counted
/// row by row from the top left.
pub open spec fn offset_order(width: int, i: int, n: int) -> int {
    3 * (row_of(width, n) - row_of(width, i) + 1) + (column_of(width, n) - column_of(width, i) + 1)
}

/// Around a cell, the cells come in increasing index order when taken row
/// by row from the top left.
proof fn lemma_offset_order_increasing(width: int, height: int, i: int, p: int, q: int)
    requires
        0 < width,
        adjacent(width, height, i, p),
        adjacent(width, height, i, q),
        offset_order(width, i, p) < offset_order(width, i, q),
    ensures
        p < q,
{
    lemma_position_in_grid(width, height, p);
    lemma_position_in_grid(width, height, q);
    let rp = row_of(width, p);
    let rq = row_of(width, q);
    if rp < rq {
        assert(rq * width >= rp * width + width) by (nonlinear_arith)
            requires
                rq >= rp + 1,
                0 < width,
        ;
    }
}

/// Relies on rand's `thread_rng` and `Rng::gen_range`: a number drawn from
/// `0..upper`, which panics when that range is empty.
#[verifier::external_body]
fn random_below(upper: usize) -> (r: usize)
    requires
        upper > 0,
    ensures
        r < upper,
{
    rand::thread_rng().gen_range(0..upper)
}

/// Draws `count` distinct cell indices below `cell_count`, each set of them
/// equally likely: the first `count` steps of a Fisher-Yates shuffle.
fn draw_mine_indices(cell_count: usize, count: usize) -> (r: Vec<usize>)
    requires
        count <= cell_count,
    ensures
        r@.len() == count,
        r@.no_duplicates(),
        forall|k: int| 0 <= k < r@.len() ==> #[trigger] r@[k] < cell_count,
{
    let mut pool: Vec<usize> = Vec::new();
    let mut i: usize = 0;
    while i < cell_count
        invariant
            i <= cell_count,
            pool@.len() == i,
            forall|k: int| 0 <= k < i ==> #[trigger] pool@[k] == k,
        decreases cell_count - i,
    {
        pool.push(i);
        i = i + 1;
    }
    let mut k: usize = 0;
    while k < count
        invariant
            count <= cell_count,
            k <= count,
            pool@.len() == cell_count,
            forall|a: int| 0 <= a < cell_count ==> #[trigger] pool@[a] < cell_count,
            forall|a: int, b: int|
                0 <= a < cell_count && 0 <= b < cell_count && a != b ==> #[trigger] pool@[a]
                    != #[trigger] pool@[b],
        decreases count - k,
    {
        let j = k + random_below(cell_count - k);
        let picked = pool[j];
        let current = pool[k];
        pool.set(k, picked);
        pool.set(j, current);
        k = k + 1;
    }
    pool.truncate(count);
    proof {
        assert forall|a: int, b: int| 0 <= a < pool@.len() && 0 <= b < pool@.len() && a != b implies pool@[a] != pool@[b] by {}
    }
    pool
}

impl Board {
    /// An empty board, before any game: no cells, no size.
    pub fn new() -> (r: Board)
        ensures
            r@.well_formed(),
            r@.cells.len() == 0,
            r@.width == 0,
            r@.height == 0,
            r@.selected == 0,
            r@.mine_count == 0,
            r@.flag_count == 0,
    {
        let r = Board {
            cells: Vec::new(),
            board_width: 0,
            board_height: 0,
            selected_cell_index: 0,
            bomb_count: 0,
            flag_count: 0,
        };
        proof {
            assert(r@.cells =~= Seq::<CellView>::empty());
            assert(mine_flags(r@.cells) =~= Seq::<bool>::empty());
            assert(flag_marks(r@.cells) =~= Seq::<bool>::empty());
            assert(count_true(Seq::<bool>::empty()) == 0);
            let (w, h) = (r@.width, r@.height);
            assert(w * h == 0) by (nonlinear_arith)
                requires
                    w == 0,
            ;
        }
        r
    }

    pub fn get_board_width(&self) -> (r: usize)
        ensures
            r as nat == self@.width,
    {
        self.board_width
    }

    pub fn get_board_height(&self) -> (r: usize)
        ensures
            r as nat == self@.height,
    {
        self.board_height
    }

    pub fn get_cells(&self) -> (r: &Vec<Cell>)
        ensures
            r@.len() == self@.cells.len(),
            forall|i: int| 0 <= i < r@.len() ==> (#[trigger] r@[i])@ == self@.cells[i],
    {
        &self.cells
    }

    pub fn get_bomb_count(&self) -> (r: usize)
        ensures
            r as nat == self@.mine_count,
    {
        self.bomb_count
    }

    pub fn get_flag_count(&self) -> (r: usize)
        ensures
            r as nat == self@.flag_count,
    {
        self.flag_count
    }

    /// The index of the cell under the cursor.
    pub fn get_selected_cell_index(&self) -> (r: usize)
        ensures
            r as nat == self@.selected,
    {
        self.selected_cell_index
    }

    /// Column and row of a cell index.
    pub fn get_pos_from_index(&self, index: i16) -> (r: (i16, i16))
        requires
            self@.well_formed(),
            self@.width > 0,
            0 <= index,
        ensures
            r.0 as int == column_of(self@.width as int, index as int),
            r.1 as int == row_of(self@.width as int, index as int),
    {
        let width = self.board_width as i16;
        let y = index / width;
        let x = index % width;
        (x, y)
    }

    /// The index of the cell at column `x`, row `y`, if that lies on the board.
    pub fn get_index_from_pos(&self, x: i16, y: i16) -> (r: Option<usize>)
        requires
            self@.well_formed(),
        ensures
            match index_at(self@.width as int, self@.height as int, x as int, y as int) {
                Some(i) => r == Some(i as usize),
                None => r is None,
            },
    {
        if x < 0 || x as usize >= self.board_width || y < 0 || y as usize >= self.board_height {
            return None;
        }
        let w = self.board_width;
        let ux = x as usize;
        let uy = y as usize;
        proof {
            let h = self.board_height as int;
            assert(uy * w <= (h - 1) * w) by (nonlinear_arith)
                requires
                    uy < h,
                    0 <= w,
            ;
            assert((h - 1) * w + w == w * h) by (nonlinear_arith);
        }
        Some(ux + uy * w)
    }
    /// The indices of the cells around `index`, each once.
    fn get_cell_neighbors_indexes(&self, index: usize) -> (r: Vec<usize>)
        requires
            valid_size(self.board_width as int, self.board_height as int),
            index < self.board_width * self.board_height,
        ensures
            r@.no_duplicates(),
            r@.len() <= 8,
            forall|a: int, b: int| 0 <= a < b < r@.len() ==> r@[a] < r@[b],
            forall|n: usize|
                #[trigger] r@.contains(n) <==> adjacent(
                    self.board_width as int,
                    self.board_height as int,
                    index as int,
                    n as int,
                ),
    {
        let w = self.board_width;
        let h = self.board_height;
        let x = index % w;
        let y = index / w;
        proof {
            lemma_position_in_grid(w as int, h as int, index as int);
            assert(w <= w * h && h <= w * h) by (nonlinear_arith)
                requires
                    0 < w,
                    0 < h,
            ;
        }
        let mut r: Vec<usize> = Vec::new();
        let mut t: usize = 0;
        while t < 9
            invariant
                valid_size(w as int, h as int),
                index < w * h,
                w <= MAX_CELLS,
                h <= MAX_CELLS,
                x as int == column_of(w as int, index as int),
                y as int == row_of(w as int, index as int),
                0 <= x < w,
                0 <= y < h,
                t <= 9,
                index as int == x + y * w,
                r@.no_duplicates(),
                r@.len() <= t,
                t > 4 ==> r@.len() < t,
                forall|a: int, b: int| 0 <= a < b < r@.len() ==> r@[a] < r@[b],
                forall|a: int|
                    0 <= a < r@.len() ==> adjacent(w as int, h as int, index as int, #[trigger] r@[a] as int)
                        && offset_order(w as int, index as int, r@[a] as int) < t,
                forall|n: usize|
                    #[trigger] r@.contains(n) <==> (adjacent(w as int, h as int, index as int, n as int)
                        && offset_order(w as int, index as int, n as int) < t),
            decreases 9 - t,
        {
            let dy = t / 3;
            let dx = t % 3;
            let old_r = Ghost(r@);
            if x + dx >= 1 && x + dx - 1 < w && y + dy >= 1 && y + dy - 1 < h {
                let ux = x + dx - 1;
                let uy = y + dy - 1;
                proof {
                    assert(uy * w <= (h - 1) * w) by (nonlinear_arith)
                        requires
                            uy < h,
                    ;
                    assert((h - 1) * w + w == w * h) by (nonlinear_arith);
                    lemma_position_of_index(w as int, ux as int, uy as int);
                }
                let m = ux + uy * w;
                proof {
                    assert forall|n: usize|
                        adjacent(w as int, h as int, index as int, n as int) && offset_order(
                            w as int,
                            index as int,
                            n as int,
                        ) == t implies n == m by {
                        lemma_position_in_grid(w as int, h as int, n as int);
                    }
                }
                if m != index {
                    proof {
                        assert(t != 4);
                        assert forall|a: int| 0 <= a < r@.len() implies r@[a] < m by {
                            lemma_offset_order_increasing(w as int, h as int, index as int, r@[a] as int, m as int);
                        }
                    }
                    r.push(m);
                    proof {
                        assert(offset_order(w as int, index as int, m as int) == t);
                        assert(!old_r@.contains(m));
                        assert forall|n: usize|
                            #[trigger] r@.contains(n) <==> (adjacent(
                                w as int,
                                h as int,
                                index as int,
                                n as int,
                            ) && offset_order(w as int, index as int, n as int) < t + 1) by {
                            if n == m {
                                assert(r@[r@.len() - 1] == m);
                            } else {
                                if r@.contains(n) {
                                    let k = choose|k: int| 0 <= k < r@.len() && r@[k] == n;
                                    assert(old_r@[k] == n);
                                }
                                if old_r@.contains(n) {
                                    let k = choose|k: int| 0 <= k < old_r@.len() && old_r@[k] == n;
                                    assert(r@[k] == n);
                                }
                            }
                        }
                    }
                }
            } else {
                proof {
                    assert forall|n: usize|
                        adjacent(w as int, h as int, index as int, n as int) implies offset_order(
                            w as int,
                            index as int,
                            n as int,
                        ) != t by {
                        lemma_position_in_grid(w as int, h as int, n as int);
                    }
                }
            }
            t = t + 1;
        }
        r
    }
    /// Fills the board with `cell_count` fresh cells and puts the cursor on
    /// the first.
    fn create_cells(&mut self, cell_count: usize)
        requires
            cell_count > 0,
        ensures
            final(self).cells@.len() == cell_count,
            forall|i: int|
                0 <= i < cell_count ==> (#[trigger] final(self).cells@[i])@ == (CellView {
                    selected: i == 0,
                    ..fresh_cell()
                }),
            final(self).selected_cell_index == 0,
            final(self).board_width == old(self).board_width,
            final(self).board_height == old(self).board_height,
            final(self).bomb_count == old(self).bomb_count,
            final(self).flag_count == old(self).flag_count,
    {
        self.cells = Vec::new();
        let mut i: usize = 0;
        while i < cell_count
            invariant
                i <= cell_count,
                self.cells@.len() == i,
                forall|k: int| 0 <= k < i ==> (#[trigger] self.cells@[k])@ == fresh_cell(),
                self.board_width == old(self).board_width,
                self.board_height == old(self).board_height,
                self.bomb_count == old(self).bomb_count,
                self.flag_count == old(self).flag_count,
            decreases cell_count - i,
        {
            self.cells.push(Cell::new());
            i = i + 1;
        }
        self.selected_cell_index = 0;
        self.cells[0].set_is_selected(true);
    }

    /// Makes mines of the cells at the given distinct indices, none of which
    /// is a mine yet, and records how many were placed.
    fn add_bombs(&mut self, mines: &Vec<usize>)
        requires
            mines@.no_duplicates(),
            forall|k: int| 0 <= k < mines@.len() ==> #[trigger] mines@[k] < old(self).cells@.len(),
            forall|k: int|
                0 <= k < mines@.len() ==> !old(self).cells@[#[trigger] mines@[k] as int]@.mine,
        ensures
            final(self).cells@.len() == old(self).cells@.len(),
            forall|i: int|
                0 <= i < old(self).cells@.len() ==> (#[trigger] final(self).cells@[i])@ == (CellView {
                    mine: old(self).cells@[i]@.mine || listed(mines@, i),
                    ..old(self).cells@[i]@
                }),
            count_true(mine_flags(final(self)@.cells)) == count_true(mine_flags(old(self)@.cells))
                + mines@.len(),
            final(self).selected_cell_index == old(self).selected_cell_index,
            final(self).board_width == old(self).board_width,
            final(self).board_height == old(self).board_height,
            final(self).bomb_count == mines@.len(),
            final(self).flag_count == old(self).flag_count,
    {
        let ghost start = self.cells@;
        let ghost initial = count_true(mine_flags(self@.cells));
        proof {
            assert(mines@.subrange(0, 0) =~= Seq::<usize>::empty());
            assert forall|i: int| 0 <= i < start.len() implies (#[trigger] self.cells@[i])@ == (CellView {
                mine: start[i]@.mine || listed(mines@.subrange(0, 0), i),
                ..start[i]@
            }) by {}
        }
        let mut k: usize = 0;
        while k < mines.len()
            invariant
                k <= mines@.len(),
                mines@.no_duplicates(),
                forall|q: int| 0 <= q < mines@.len() ==> #[trigger] mines@[q] < start.len(),
                self.cells@.len() == start.len(),
                forall|i: int|
                    0 <= i < start.len() ==> (#[trigger] self.cells@[i])@ == (CellView {
                        mine: start[i]@.mine || listed(mines@.subrange(0, k as int), i),
                        ..start[i]@
                    }),
                forall|q: int| 0 <= q < mines@.len() ==> !start[#[trigger] mines@[q] as int]@.mine,
                count_true(mine_flags(self@.cells)) == initial + k,
                self.selected_cell_index == old(self).selected_cell_index,
                self.board_width == old(self).board_width,
                self.board_height == old(self).board_height,
                self.flag_count == old(self).flag_count,
            decreases mines@.len() - k,
        {
            let index = mines[k];
            let ghost before = self@.cells;
            proof {
                assert(!listed(mines@.subrange(0, k as int), index as int));
                assert(!before[index as int].mine);
            }
            self.cells[index].set_is_bomb(true);
            proof {
                let prefix = mines@.subrange(0, k as int + 1);
                assert(prefix =~= mines@.subrange(0, k as int).push(index));
                assert forall|i: int| 0 <= i < start.len() implies (#[trigger] self.cells@[i])@ == (CellView {
                    mine: start[i]@.mine || listed(prefix, i),
                    ..start[i]@
                }) by {
                    if i == index as int {
                        assert(prefix[k as int] == index);
                    } else {
                        if listed(prefix, i) {
                            let q = choose|q: int| 0 <= q < prefix.len() && prefix[q] as int == i;
                            assert(mines@.subrange(0, k as int)[q] as int == i);
                        }
                        if listed(mines@.subrange(0, k as int), i) {
                            let q = choose|q: int| 0 <= q < k && mines@.subrange(0, k as int)[q] as int == i;
                            assert(prefix[q] as int == i);
                        }
                    }
                }
                assert(mine_flags(self@.cells) =~= mine_flags(before).update(index as int, true));
                lemma_count_true_update(mine_flags(before), index as int, true);
            }
            k = k + 1;
        }
        proof {
            assert(mines@.subrange(0, mines@.len() as int) =~= mines@);
        }
        self.bomb_count = mines.len();
    }

    /// Adds to the count of every cell the number of mines around it.
    fn update_cell_values(&mut self)
        requires
            valid_size(old(self).board_width as int, old(self).board_height as int),
            old(self).cells@.len() == old(self).board_width * old(self).board_height,
            forall|i: int| 0 <= i < old(self).cells@.len() ==> (#[trigger] old(self).cells@[i])@.value <= i16::MAX - 8,
        ensures
            final(self).cells@.len() == old(self).cells@.len(),
            forall|n: int|
                0 <= n < old(self).cells@.len() ==> (#[trigger] final(self).cells@[n])@ == (CellView {
                    value: old(self).cells@[n]@.value + mines_around(
                        mine_flags(old(self)@.cells),
                        old(self).board_width as int,
                        old(self).board_height as int,
                        n,
                        old(self).cells@.len() as int,
                    ),
                    ..old(self).cells@[n]@
                }),
            final(self).selected_cell_index == old(self).selected_cell_index,
            final(self).board_width == old(self).board_width,
            final(self).board_height == old(self).board_height,
            final(self).bomb_count == old(self).bomb_count,
            final(self).flag_count == old(self).flag_count,
    {
        let ghost start = self.cells@;
        let ghost mines = mine_flags(self@.cells);
        let ghost w = self.board_width as int;
        let ghost h = self.board_height as int;
        let len = self.cells.len();
        let mut i: usize = 0;
        while i < len
            invariant
                valid_size(w, h),
                w == self.board_width,
                h == self.board_height,
                len == start.len(),
                len == w * h,
                len <= MAX_CELLS,
                i <= len,
                mines.len() == len,
                forall|m: int| 0 <= m < len ==> #[trigger] mines[m] == start[m]@.mine,
                forall|m: int| 0 <= m < len ==> (#[trigger] start[m])@.value <= i16::MAX - 8,
                self.cells@.len() == len,
                forall|n: int|
                    0 <= n < len ==> (#[trigger] self.cells@[n])@ == (CellView {
                        value: start[n]@.value + mines_around(mines, w, h, n, i as int),
                        ..start[n]@
                    }),
                self.selected_cell_index == old(self).selected_cell_index,
                self.bomb_count == old(self).bomb_count,
                self.flag_count == old(self).flag_count,
            decreases len - i,
        {
            if self.cells[i].is_bomb() {
                let neighbors = self.get_cell_neighbors_indexes(i);
                proof {
                    assert forall|q: int| 0 <= q < neighbors@.len() implies #[trigger] neighbors@[q] < len by {
                        assert(neighbors@.contains(neighbors@[q]));
                    }
                }
                let mut t: usize = 0;
                while t < neighbors.len()
                    invariant
                        valid_size(w, h),
                        w == self.board_width,
                        h == self.board_height,
                        len == w * h,
                        len == start.len(),
                        len <= MAX_CELLS,
                        i < len,
                        mines.len() == len,
                        mines[i as int],
                        forall|n: usize|
                            #[trigger] neighbors@.contains(n) <==> adjacent(w, h, i as int, n as int),
                        forall|m: int| 0 <= m < len ==> (#[trigger] start[m])@.value <= i16::MAX - 8,
                        t <= neighbors@.len(),
                        neighbors@.no_duplicates(),
                        forall|q: int| 0 <= q < neighbors@.len() ==> #[trigger] neighbors@[q] < len,
                        self.cells@.len() == len,
                        forall|n: int|
                            0 <= n < len ==> (#[trigger] self.cells@[n])@ == (CellView {
                                value: start[n]@.value + mines_around(mines, w, h, n, i as int) + if listed(
                                    neighbors@.subrange(0, t as int),
                                    n,
                                ) {
                                    1int
                                } else {
                                    0int
                                },
                                ..start[n]@
                            }),
                        self.selected_cell_index == old(self).selected_cell_index,
                        self.bomb_count == old(self).bomb_count,
                        self.flag_count == old(self).flag_count,
                    decreases neighbors@.len() - t,
                {
                    let index = neighbors[t];
                    proof {
                        assert(!listed(neighbors@.subrange(0, t as int), index as int));
                        assert(neighbors@.contains(index));
                        lemma_mines_around_at_most_eight(mines, w, h, index as int, i as int + 1);
                        assert(adjacent(w, h, i as int, index as int));
                        assert(mines_around(mines, w, h, index as int, i as int + 1) == mines_around(
                            mines,
                            w,
                            h,
                            index as int,
                            i as int,
                        ) + 1);
                    }
                    self.cells[index].increment_value();
                    proof {
                        let prefix = neighbors@.subrange(0, t as int + 1);
                        let earlier = neighbors@.subrange(0, t as int);
                        assert forall|n: int| 0 <= n < len implies (#[trigger] self.cells@[n])@ == (CellView {
                            value: start[n]@.value + mines_around(mines, w, h, n, i as int) + if listed(prefix, n) {
                                1int
                            } else {
                                0int
                            },
                            ..start[n]@
                        }) by {
                            if n == index as int {
                                assert(prefix[t as int] == index);
                            } else {
                                if listed(prefix, n) {
                                    let q = choose|q: int| 0 <= q < prefix.len() && prefix[q] as int == n;
                                    assert(earlier[q] as int == n);
                                }
                                if listed(earlier, n) {
                                    let q = choose|q: int| 0 <= q < earlier.len() && earlier[q] as int == n;
                                    assert(prefix[q] as int == n);
                                }
                            }
                        }
                    }
                    t = t + 1;
                }
                proof {
                    assert(neighbors@.subrange(0, neighbors@.len() as int) =~= neighbors@);
                    assert forall|n: int| 0 <= n < len implies (#[trigger] self.cells@[n])@ == (CellView {
                        value: start[n]@.value + mines_around(mines, w, h, n, i as int + 1),
                        ..start[n]@
                    }) by {
                        assert(mines[i as int]);
                        if adjacent(w, h, i as int, n) {
                            assert(neighbors@.contains(n as usize));
                            let q = choose|q: int| 0 <= q < neighbors@.len() && neighbors@[q] == n as usize;
                            assert(listed(neighbors@, n));
                        }
                        if listed(neighbors@, n) {
                            let q = choose|q: int| 0 <= q < neighbors@.len() && neighbors@[q] as int == n;
                            assert(neighbors@.contains(neighbors@[q]));
                        }
                    }
                }
            } else {
                proof {
                    assert(!mines[i as int]);
                }
            }
            i = i + 1;
        }
        proof {
            assert(start.map_values(|c: Cell| c@) == old(self)@.cells);
        }
    }
    /// Lays out a fresh board of the given size with mines at the given
    /// distinct indices.
    fn lay_out(&mut self, width: usize, height: usize, mines: &Vec<usize>)
        requires
            valid_size(width as int, height as int),
            mines@.no_duplicates(),
            forall|k: int| 0 <= k < mines@.len() ==> #[trigger] mines@[k] < width * height,
        ensures
            final(self)@.is_fresh(width as nat, height as nat, mines@.len()),
            forall|i: int|
                0 <= i < final(self)@.cells.len() ==> (#[trigger] final(self)@.cells[i]).mine
                    == listed(mines@, i),
    {
        self.board_width = width;
        self.board_height = height;
        self.flag_count = 0;
        proof {
            assert(width * height > 0) by (nonlinear_arith)
                requires
                    0 < width,
                    0 < height,
            ;
        }
        self.create_cells(width * height);
        proof {
            let created = self@.cells;
            assert forall|i: int| 0 <= i < mine_flags(created).len() implies !mine_flags(created)[i] by {
                assert(created[i] == self.cells@[i]@);
            }
            lemma_count_true_none(mine_flags(created));
        }
        self.add_bombs(mines);
        let ghost placed = self@.cells;
        self.update_cell_values();
        proof {
            let b = self@;
            assert(width <= width * height && height <= width * height) by (nonlinear_arith)
                requires
                    0 < width,
                    0 < height,
            ;
            assert(mine_flags(b.cells) =~= mine_flags(placed));
            assert(flag_marks(b.cells) =~= Seq::new(b.cells.len(), |i: int| false));
            lemma_count_true_none(flag_marks(b.cells));
        }
    }

    /// Starts a new board for a difficulty: its size, its number of mines
    /// placed on distinct cells drawn at random, every cell hidden, no flag,
    /// and the cursor on the first cell.
    pub fn initiate_board(&mut self, difficulty: Difficulty)
        ensures
            final(self)@.is_fresh(
                difficulty.spec_dimensions().0,
                difficulty.spec_dimensions().1,
                difficulty.spec_dimensions().2,
            ),
            !final(self)@.all_safe_open(),
    {
        let (width, height, bombs) = difficulty.dimensions();
        let mines = draw_mine_indices(width * height, bombs);
        self.lay_out(width, height, &mines);
        proof {
            let b = self@;
            if b.all_safe_open() {
                assert forall|i: int| 0 <= i < b.cells.len() implies #[trigger] mine_flags(b.cells)[i] by {
                    assert(!b.cells[i].open);
                }
                lemma_count_true_all(mine_flags(b.cells));
            }
        }
    }

    /// Starts a new board of the given size with mines on exactly the given
    /// cell indices, every cell hidden, no flag, and the cursor on the first
    /// cell. The board is left as it was when the size is zero or too large,
    /// an index lies off the board, or an index is given twice.
    pub fn initiate_board_with_mines(
        &mut self,
        width: usize,
        height: usize,
        mine_indices: &Vec<usize>,
    ) -> (r: Result<(), LayoutError>)
        ensures
            r == Err::<(), LayoutError>(LayoutError::InvalidSize) <==> !valid_size(
                width as int,
                height as int,
            ),
            r == Err::<(), LayoutError>(LayoutError::MineOutOfRange) <==> valid_size(
                width as int,
                height as int,
            ) && exists|k: int|
                0 <= k < mine_indices@.len() && #[trigger] mine_indices@[k] >= width * height,
            r == Err::<(), LayoutError>(LayoutError::DuplicateMine) <==> valid_size(
                width as int,
                height as int,
            ) && (forall|k: int|
                0 <= k < mine_indices@.len() ==> #[trigger] mine_indices@[k] < width * height)
                && !mine_indices@.no_duplicates(),
            r is Ok <==> valid_size(width as int, height as int) && (forall|k: int|
                0 <= k < mine_indices@.len() ==> #[trigger] mine_indices@[k] < width * height)
                && mine_indices@.no_duplicates(),
            r is Err ==> final(self)@ == old(self)@,
            r is Ok ==> final(self)@.is_fresh(width as nat, height as nat, mine_indices@.len()),
            r is Ok ==> forall|i: int|
                0 <= i < final(self)@.cells.len() ==> (#[trigger] final(self)@.cells[i]).mine
                    == listed(mine_indices@, i),
    {
        if width == 0 || height == 0 || width > MAX_CELLS || height > MAX_CELLS {
            proof {
                if width > 0 && height > 0 {
                    assert(width <= width * height && height <= width * height) by (nonlinear_arith)
                        requires
                            0 < width,
                            0 < height,
                    ;
                }
            }
            return Err(LayoutError::InvalidSize);
        }
        proof {
            assert(width * height <= MAX_CELLS * MAX_CELLS) by (nonlinear_arith)
                requires
                    width <= MAX_CELLS,
                    height <= MAX_CELLS,
            ;
        }
        let cell_count = width * height;
        if cell_count > MAX_CELLS {
            return Err(LayoutError::InvalidSize);
        }
        let mut k: usize = 0;
        while k < mine_indices.len()
            invariant
                k <= mine_indices@.len(),
                valid_size(width as int, height as int),
                cell_count == width * height,
                forall|q: int| 0 <= q < k ==> #[trigger] mine_indices@[q] < cell_count,
            decreases mine_indices@.len() - k,
        {
            if mine_indices[k] >= cell_count {
                return Err(LayoutError::MineOutOfRange);
            }
            k = k + 1;
        }
        let mut seen: Vec<bool> = Vec::new();
        let mut i: usize = 0;
        while i < cell_count
            invariant
                i <= cell_count,
                seen@.len() == i,
                forall|q: int| 0 <= q < i ==> !#[trigger] seen@[q],
            decreases cell_count - i,
        {
            seen.push(false);
            i = i + 1;
        }
        let mut k: usize = 0;
        while k < mine_indices.len()
            invariant
                k <= mine_indices@.len(),
                valid_size(width as int, height as int),
                cell_count == width * height,
                seen@.len() == cell_count,
                forall|q: int| 0 <= q < mine_indices@.len() ==> #[trigger] mine_indices@[q] < cell_count,
                mine_indices@.subrange(0, k as int).no_duplicates(),
                forall|c: int|
                    0 <= c < cell_count ==> (#[trigger] seen@[c] <==> listed(
                        mine_indices@.subrange(0, k as int),
                        c,
                    )),
            decreases mine_indices@.len() - k,
        {
            let index = mine_indices[k];
            let ghost earlier = mine_indices@.subrange(0, k as int);
            let ghost prefix = mine_indices@.subrange(0, k as int + 1);
            if seen[index] {
                proof {
                    let q = choose|q: int| 0 <= q < earlier.len() && #[trigger] earlier[q] as int == index as int;
                    assert(mine_indices@[q] == mine_indices@[k as int]);
                }
                return Err(LayoutError::DuplicateMine);
            }
            seen.set(index, true);
            proof {
                assert forall|a: int, b: int| 0 <= a < prefix.len() && 0 <= b < prefix.len() && a != b implies prefix[a] != prefix[b] by {
                    if a == k as int {
                        assert(earlier[b] == prefix[b]);
                    } else if b == k as int {
                        assert(earlier[a] == prefix[a]);
                    } else {
                        assert(earlier[a] == prefix[a] && earlier[b] == prefix[b]);
                    }
                }
                assert forall|c: int| 0 <= c < cell_count implies (#[trigger] seen@[c] <==> listed(prefix, c)) by {
                    if c == index as int {
                        assert(prefix[k as int] == index);
                    } else {
                        if listed(prefix, c) {
                            let q = choose|q: int| 0 <= q < prefix.len() && prefix[q] as int == c;
                            assert(earlier[q] as int == c);
                        }
                        if listed(earlier, c) {
                            let q = choose|q: int| 0 <= q < earlier.len() && earlier[q] as int == c;
                            assert(prefix[q] as int == c);
                        }
                    }
                }
            }
            k = k + 1;
        }
        proof {
            assert(mine_indices@.subrange(0, mine_indices@.len() as int) =~= mine_indices@);
        }
        self.lay_out(width, height, mine_indices);
        Ok(())
    }
    /// Moves the cursor to cell `index`; an index off the board changes
    /// nothing.
    fn set_active_cell(&mut self, index: usize)
        requires
            old(self)@.well_formed(),
        ensures
            final(self)@ == (if index < old(self)@.cells.len() {
                old(self)@.select_at(index as int)
            } else {
                old(self)@
            }),
            final(self)@.well_formed(),
    {
        if index >= self.cells.len() {
            return ;
        }
        let ghost before = self@;
        let s = self.selected_cell_index;
        self.cells[s].set_is_selected(false);
        self.cells[index].set_is_selected(true);
        self.selected_cell_index = index;
        proof {
            let after = before.select_at(index as int);
            assert(self@.cells =~= after.cells);
            assert(mine_flags(after.cells) =~= mine_flags(before.cells));
            assert(flag_marks(after.cells) =~= flag_marks(before.cells));
        }
    }

    /// Moves the cursor for a navigation event: up and down by a row, left
    /// and right within the row. A move off the grid or past the end of a
    /// row leaves the cursor where it is, and other events change nothing.
    pub fn change_active_cell(&mut self, input_event: InputEvent)
        requires
            old(self)@.well_formed(),
        ensures
            final(self)@.well_formed(),
            final(self)@ == match input_event {
                InputEvent::Navigation(direction) => old(self)@.moved(direction),
                _ => old(self)@,
            },
    {
        match input_event {
            InputEvent::Navigation(direction) => {
                let len = self.cells.len();
                if len == 0 {
                    return ;
                }
                let s = self.selected_cell_index;
                let w = self.board_width;
                proof {
                    let h = self.board_height;
                    if w == 0 {
                        assert(w * h == 0) by (nonlinear_arith)
                            requires
                                w == 0,
                        ;
                    }
                    lemma_position_in_grid(w as int, h as int, s as int);
                }
                match direction {
                    Direction::Up => {
                        if s >= w {
                            self.set_active_cell(s - w);
                        }
                    },
                    Direction::Down => {
                        if s + w < len {
                            self.set_active_cell(s + w);
                        }
                    },
                    Direction::Left => {
                        if s % w != 0 {
                            self.set_active_cell(s - 1);
                        }
                    },
                    Direction::Right => {
                        if s % w + 1 < w {
                            proof {
                                let h = self.board_height as int;
                                let y = s as int / w as int;
                                assert(y * w <= (h - 1) * w) by (nonlinear_arith)
                                    requires
                                        y < h,
                                        0 <= w,
                                ;
                                assert((h - 1) * w + w == w * h) by (nonlinear_arith);
                            }
                            self.set_active_cell(s + 1);
                        }
                    },
                }
            },
            _ => {},
        }
    }

    /// Toggles the flag of the cursor cell and counts it; an open cell
    /// cannot be flagged.
    pub fn toggle_active_cell_flag(&mut self)
        requires
            old(self)@.well_formed(),
        ensures
            final(self)@.well_formed(),
            final(self)@ == old(self)@.flag_toggled(),
    {
        if self.cells.len() == 0 {
            return ;
        }
        let s = self.selected_cell_index;
        if self.cells[s].is_open() {
            return ;
        }
        let ghost before = self@;
        self.cells[s].toggle_is_flagged();
        proof {
            let marks = flag_marks(before.cells);
            assert(flag_marks(self@.cells) =~= marks.update(s as int, !marks[s as int]));
            assert(mine_flags(self@.cells) =~= mine_flags(before.cells));
            lemma_count_true_update(marks, s as int, !marks[s as int]);
            lemma_count_true_bounded(flag_marks(self@.cells));
        }
        if self.cells[s].is_flagged() {
            self.flag_count = self.flag_count + 1;
        } else {
            self.flag_count = self.flag_count - 1;
        }
        proof {
            assert(self@.cells =~= before.flag_toggled().cells);
        }
    }

    /// Opens the cursor cell, clearing its flag, and sets `game_over` when
    /// that cell is a mine.
    pub fn select_active_cell(&mut self, game_over: &mut bool)
        requires
            old(self)@.well_formed(),
        ensures
            final(self)@.well_formed(),
            final(self)@ == old(self)@.selected_opened(),
            *final(game_over) == (*old(game_over) || old(self)@.selected_is_mine()),
    {
        if self.cells.len() == 0 {
            return ;
        }
        let s = self.selected_cell_index;
        let was_flagged = self.cells[s].is_flagged();
        let ghost before = self@;
        self.cells[s].open();
        proof {
            let marks = flag_marks(before.cells);
            assert(flag_marks(self@.cells) =~= marks.update(s as int, false));
            assert(mine_flags(self@.cells) =~= mine_flags(before.cells));
            lemma_count_true_update(marks, s as int, false);
        }
        if was_flagged {
            self.flag_count = self.flag_count - 1;
        }
        if self.cells[s].is_bomb() {
            *game_over = true;
        }
        proof {
            assert(self@.cells =~= before.selected_opened().cells);
        }
    }

    /// Whether the cell under the cursor is a mine.
    pub fn is_selected_cell_bomb(&self) -> (r: bool)
        requires
            self@.well_formed(),
        ensures
            r == self@.selected_is_mine(),
    {
        self.cells.len() > 0 && self.cells[self.selected_cell_index].is_bomb()
    }

    /// Whether every cell that is no mine has been opened.
    pub fn is_all_safe_cells_open(&self) -> (r: bool)
        ensures
            r == self@.all_safe_open(),
    {
        let mut i: usize = 0;
        while i < self.cells.len()
            invariant
                i <= self.cells@.len(),
                forall|k: int| 0 <= k < i ==> (#[trigger] self@.cells[k]).mine || self@.cells[k].open,
            decreases self.cells@.len() - i,
        {
            if !self.cells[i].is_bomb() && !self.cells[i].is_open() {
                assert(!self@.cells[i as int].mine && !self@.cells[i as int].open);
                return false;
            }
            i = i + 1;
        }
        true
    }
}

} // verus!
