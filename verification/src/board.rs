//! The board model that food spawning reads and writes: a square grid of
//! cells stored row by row (`index = y * width + x`), and the head cell and
//! health of every snake slot.

use vstd::prelude::*;

verus! {

/// What occupies one cell of the board.
#[derive(Debug, Copy, Clone, PartialEq, Eq, Structural)]
pub enum Cell {
    /// Nothing: neither food nor any part of a snake.
    Empty,
    /// A food item.
    Food,
    /// A segment (head or body) of the snake with this id.
    Snake(u8),
}

impl Cell {
    /// True for a cell with neither food nor a snake on it.
    pub fn is_empty(&self) -> (r: bool)
        ensures
            r == (*self is Empty),
    {
        match self {
            Cell::Empty => true,
            _ => false,
        }
    }

    /// True for a cell holding food.
    pub fn is_food(&self) -> (r: bool)
        ensures
            r == (*self is Food),
    {
        match self {
            Cell::Food => true,
            _ => false,
        }
    }
}

/// A square board of `width * width` cells, with one head index and one
/// health value per snake slot. A slot whose health is 0 holds no living
/// snake.
#[derive(Debug, PartialEq, Eq)]
pub struct CellBoard {
    /// The number of columns, which is also the number of rows.
    pub width: usize,
    /// The cells, row by row: cell `(x, y)` is at `y * width + x`.
    pub cells: Vec<Cell>,
    /// The head cell of each snake slot.
    pub heads: Vec<usize>,
    /// The health of each snake slot; 0 means the slot holds no living snake.
    pub healths: Vec<u8>,
}

impl CellBoard {
    /// The board is a nonempty square grid and every snake slot has both a
    /// head and a health.
    pub open spec fn wf(&self) -> bool {
        &&& self.width > 0
        &&& self.cells@.len() == self.width * self.width
        &&& self.heads@.len() == self.healths@.len()
    }

    /// Snake slot `i` holds a living snake whose head is orthogonally next to
    /// cell `c`.
    pub open spec fn live_head_next_to(&self, i: int, c: int) -> bool {
        &&& self.healths@[i] != 0
        &&& next_to(self.heads@[i] as int, c, self.width as int)
    }

    /// Some living snake among the first `k` slots has its head next to `c`.
    pub open spec fn near_live_head_among(&self, k: int, c: int) -> bool {
        exists|i: int| 0 <= i < k && #[trigger] self.live_head_next_to(i, c)
    }

    /// Some living snake has its head next to cell `c`.
    pub open spec fn near_live_head(&self, c: int) -> bool {
        self.near_live_head_among(self.heads@.len() as int, c)
    }

    /// Cell `c` may receive food: it is empty and no living snake's head is
    /// next to it.
    pub open spec fn food_candidate(&self, c: int) -> bool {
        &&& self.cells@[c] is Empty
        &&& !self.near_live_head(c)
    }

    /// The food candidates in column-major order (x in `0..width`, then y in
    /// `0..width`), over the columns before `x` and, in column `x`, the rows
    /// before `y`.
    pub open spec fn candidates_prefix(&self, x: nat, y: nat) -> Seq<usize>
        decreases x, y,
    {
        if y == 0 {
            if x == 0 {
                Seq::empty()
            } else {
                self.candidates_prefix((x - 1) as nat, self.width as nat)
            }
        } else {
            let prev = self.candidates_prefix(x, (y - 1) as nat);
            let c = (y - 1) * self.width + x;
            if self.food_candidate(c) {
                prev.push(c as usize)
            } else {
                prev
            }
        }
    }

    /// All cells that may receive food, in column-major order.
    pub open spec fn food_candidates(&self) -> Seq<usize> {
        self.candidates_prefix(self.width as nat, 0)
    }
}

/// Cell `c` is one of the in-grid orthogonal neighbours of cell `h` on a grid
/// of width `w`, where `h` stands at column `h % w` and row `h / w`.
pub open spec fn next_to(h: int, c: int, w: int) -> bool {
    let x = h % w;
    let y = h / w;
    ||| (y + 1 < w && c == (y + 1) * w + x)
    ||| (1 <= y && y - 1 < w && c == (y - 1) * w + x)
    ||| (1 <= x && y < w && c == y * w + (x - 1))
    ||| (x + 1 < w && y < w && c == y * w + (x + 1))
}

/// The indices of the food cells among the first `k` cells, ascending.
pub open spec fn food_indices_upto(cells: Seq<Cell>, k: nat) -> Seq<usize>
    decreases k,
{
    if k == 0 {
        Seq::empty()
    } else {
        let prev = food_indices_upto(cells, (k - 1) as nat);
        if cells[k - 1] is Food {
            prev.push((k - 1) as usize)
        } else {
            prev
        }
    }
}

/// The indices of all food cells, ascending.
pub open spec fn food_indices(cells: Seq<Cell>) -> Seq<usize> {
    food_indices_upto(cells, cells.len())
}

/// The number of food cells.
pub open spec fn food_count(cells: Seq<Cell>) -> nat {
    food_indices(cells).len()
}

/// A cell inside a `w * w` grid has an index below `w * w`.
pub proof fn lemma_cell_index_bound(x: int, y: int, w: int)
    requires
        0 <= x < w,
        0 <= y < w,
    ensures
        0 <= y * w + x < w * w,
        0 <= y * w <= y * w + x,
{
    assert(0 <= y * w + x < w * w) by (nonlinear_arith)
        requires
            0 <= x < w,
            0 <= y < w,
    ;
    assert(0 <= y * w) by (nonlinear_arith)
        requires
            0 <= y,
            0 < w,
    ;
}

/// Column and row are recovered from a cell index by `% w` and `/ w`.
pub proof fn lemma_cell_coords(x: int, y: int, w: int)
    requires
        0 <= x < w,
        0 <= y,
    ensures
        (y * w + x) % w == x,
        (y * w + x) / w == y,
{
    vstd::arithmetic::div_mod::lemma_fundamental_div_mod_converse(y * w + x, w, y, x);
}

/// A cell index below `w * w` has a row below `w`.
pub proof fn lemma_row_in_grid(c: int, w: int)
    requires
        0 < w,
        0 <= c < w * w,
    ensures
        0 <= c / w < w,
        0 <= c % w < w,
        c == (c / w) * w + c % w,
{
    vstd::arithmetic::div_mod::lemma_fundamental_div_mod(c, w);
    let q = c / w;
    let r = c % w;
    assert(0 <= q < w) by (nonlinear_arith)
        requires
            0 < w,
            0 <= c < w * w,
            c == w * q + r,
            0 <= r < w,
    ;
    assert(w * q == q * w) by (nonlinear_arith);
}

/// The distance between two numbers.
pub open spec fn abs_diff(a: int, b: int) -> int {
    if a >= b {
        a - b
    } else {
        b - a
    }
}

/// The grid (Manhattan) distance between cells `a` and `b` on a grid of width
/// `w`, cell `i` standing at column `i % w` and row `i / w`.
pub open spec fn grid_distance(a: int, b: int, w: int) -> int {
    abs_diff(a % w, b % w) + abs_diff(a / w, b / w)
}

/// Being next to a head means exactly: lying on the grid at grid distance 1
/// from the head. No neighbour wraps around an edge, and no cell further away
/// counts.
pub proof fn lemma_next_to_by_coordinates(h: int, c: int, w: int)
    requires
        0 < w,
        0 <= h,
        0 <= c,
    ensures
        next_to(h, c, w) <==> (c < w * w && grid_distance(h, c, w) == 1),
{
    vstd::arithmetic::div_mod::lemma_fundamental_div_mod(h, w);
    let x = h % w;
    let y = h / w;
    assert(0 <= y) by (nonlinear_arith)
        requires
            0 < w,
            0 <= h,
            h == w * y + x,
            0 <= x < w,
    ;
    if next_to(h, c, w) {
        if y + 1 < w && c == (y + 1) * w + x {
            lemma_cell_coords(x, y + 1, w);
            lemma_cell_index_bound(x, y + 1, w);
        } else if 1 <= y && y - 1 < w && c == (y - 1) * w + x {
            lemma_cell_coords(x, y - 1, w);
            lemma_cell_index_bound(x, y - 1, w);
        } else if 1 <= x && y < w && c == y * w + (x - 1) {
            lemma_cell_coords(x - 1, y, w);
            lemma_cell_index_bound(x - 1, y, w);
        } else {
            lemma_cell_coords(x + 1, y, w);
            lemma_cell_index_bound(x + 1, y, w);
        }
    }
    if c < w * w && grid_distance(h, c, w) == 1 {
        lemma_row_in_grid(c, w);
        let cx = c % w;
        let cy = c / w;
        if cx == x && cy == y + 1 {
            assert(c == (y + 1) * w + x);
        } else if cx == x && cy == y - 1 {
            assert(c == (y - 1) * w + x);
        } else if cy == y && cx == x - 1 {
            assert(c == y * w + (x - 1));
        } else {
            assert(cy == y && cx == x + 1);
            assert(c == y * w + (x + 1));
        }
    }
}

/// Setting a non-food cell to food adds exactly one to the food count of
/// every prefix that contains it.
pub proof fn lemma_food_indices_upto_set_food(cells: Seq<Cell>, c: int, k: nat)
    requires
        0 <= c < cells.len(),
        k <= cells.len(),
        !(cells[c] is Food),
    ensures
        food_indices_upto(cells.update(c, Cell::Food), k).len() == food_indices_upto(cells, k).len()
            + (if c < k {
            1int
        } else {
            0int
        }),
    decreases k,
{
    if k > 0 {
        lemma_food_indices_upto_set_food(cells, c, (k - 1) as nat);
    }
}

/// Setting a non-food cell to food adds exactly one to the food count.
pub proof fn lemma_food_count_set_food(cells: Seq<Cell>, c: int)
    requires
        0 <= c < cells.len(),
        !(cells[c] is Food),
    ensures
        food_count(cells.update(c, Cell::Food)) == food_count(cells) + 1,
{
    lemma_food_indices_upto_set_food(cells, c, cells.len());
}

impl CellBoard {
    /// The indices of all food cells, in ascending order.
    pub fn food_positions(&self) -> (r: Vec<usize>)
        ensures
            r@ == food_indices(self.cells@),
            r@.len() == food_count(self.cells@),
    {
        let mut r: Vec<usize> = Vec::new();
        let n = self.cells.len();
        let mut k: usize = 0;
        while k < n
            invariant
                n == self.cells@.len(),
                k <= n,
                r@ == food_indices_upto(self.cells@, k as nat),
            decreases n - k,
        {
            if self.cells[k].is_food() {
                r.push(k);
            }
            k = k + 1;
        }
        r
    }
}

} // verus!
