//! The Game of Life engine: a toroidal board stored row-major in one vector
//! (cell `(x, y)` lives at index `y * width + x`).
use vstd::prelude::*;

verus! {

// ---------------------------------------------------------------------------
// Mathematical model
// ---------------------------------------------------------------------------

/// Index of cell `(x, y)` in the row-major cell sequence of a board `w` cells wide.
pub open spec fn cell_index(w: int, x: int, y: int) -> int {
    y * w + x
}

/// Coordinate `c` moved by `d` on a ring of `n` positions.
pub open spec fn wrap(c: int, d: int, n: int) -> int {
    (c + d + n) % n
}

/// Contribution of the `k`-th cell (`0 <= k < 9`) of the 3x3 block centred on
/// `(x, y)`, scanned row by row; the centre (`k == 4`) never counts.
pub open spec fn neighbor_term(cells: Seq<bool>, w: int, h: int, x: int, y: int, k: int) -> nat {
    let dx = k % 3 - 1;
    let dy = k / 3 - 1;
    if dx == 0 && dy == 0 {
        0
    } else if cells[cell_index(w, wrap(x, dx, w), wrap(y, dy, h))] {
        1
    } else {
        0
    }
}

/// Live cells among the first `n` cells of the 3x3 block around `(x, y)`.
pub open spec fn neighbors_upto(cells: Seq<bool>, w: int, h: int, x: int, y: int, n: nat) -> nat
    decreases n,
{
    if n == 0 {
        0
    } else {
        neighbors_upto(cells, w, h, x, y, (n - 1) as nat) + neighbor_term(cells, w, h, x, y, n - 1)
    }
}

/// Number of live cells among the eight toroidal neighbours of `(x, y)`.
pub open spec fn live_neighbors(cells: Seq<bool>, w: int, h: int, x: int, y: int) -> nat {
    neighbors_upto(cells, w, h, x, y, 9)
}

/// The life rule: a dead cell is born when its neighbour count is in `birth`,
/// a live cell survives when its count is in `survive`; otherwise the cell is dead.
pub open spec fn next_state(birth: Seq<u8>, survive: Seq<u8>, alive: bool, n: nat) -> bool {
    (!alive && birth.contains(n as u8)) || (alive && survive.contains(n as u8))
}

/// The generation that follows `cells` on a `w` by `h` torus.
pub open spec fn next_generation(cells: Seq<bool>, w: int, h: int, birth: Seq<u8>, survive: Seq<u8>) -> Seq<bool> {
    Seq::new(
        cells.len(),
        |i: int| next_state(birth, survive, cells[i], live_neighbors(cells, w, h, i % w, i / w)),
    )
}

// ---------------------------------------------------------------------------
// Arithmetic facts about row-major indexing
// ---------------------------------------------------------------------------

/// A cell inside the grid has an index inside the cell sequence.
pub proof fn lemma_index_in_grid(w: int, h: int, x: int, y: int)
    requires
        0 <= x < w,
        0 <= y < h,
    ensures
        0 <= cell_index(w, x, y) < w * h,
{
    assert(y * w <= (h - 1) * w) by (nonlinear_arith)
        requires
            0 <= y < h,
            0 < w,
    ;
    assert((h - 1) * w == h * w - w) by (nonlinear_arith);
    assert(0 <= y * w) by (nonlinear_arith)
        requires
            0 <= y,
            0 < w,
    ;
    assert(w * h == h * w) by (nonlinear_arith);
}

/// The index of cell `(x, y)` gives back `x` and `y` by remainder and quotient.
pub proof fn lemma_index_div_mod(w: int, x: int, y: int)
    requires
        0 <= x < w,
        0 <= y,
    ensures
        cell_index(w, x, y) % w == x,
        cell_index(w, x, y) / w == y,
{
    vstd::arithmetic::div_mod::lemma_fundamental_div_mod_converse(cell_index(w, x, y), w, y, x);
}

/// Every index inside a `w`-wide grid is the index of the cell `(i % w, i / w)`.
pub proof fn lemma_index_of_div_mod(w: int, h: int, i: int)
    requires
        0 < w,
        0 <= i < w * h,
    ensures
        0 <= i % w < w,
        0 <= i / w < h,
        cell_index(w, i % w, i / w) == i,
{
    vstd::arithmetic::div_mod::lemma_fundamental_div_mod(i, w);
    vstd::arithmetic::div_mod::lemma_mod_bound(i, w);
    vstd::arithmetic::div_mod::lemma_div_pos_is_pos(i, w);
    let q = i / w;
    let r = i % w;
    assert(q < h) by (nonlinear_arith)
        requires
            i == w * q + r,
            0 <= r < w,
            i < w * h,
            0 < w,
    ;
    assert(cell_index(w, i % w, i / w) == w * (i / w) + i % w) by (nonlinear_arith);
}

// ---------------------------------------------------------------------------
// Laws of the model
// ---------------------------------------------------------------------------

proof fn lemma_neighbors_upto_bound(cells: Seq<bool>, w: int, h: int, x: int, y: int, n: nat)
    requires
        n <= 9,
    ensures
        neighbors_upto(cells, w, h, x, y, n) <= n,
        n > 4 ==> neighbors_upto(cells, w, h, x, y, n) + 1 <= n,
    decreases n,
{
    if n > 0 {
        lemma_neighbors_upto_bound(cells, w, h, x, y, (n - 1) as nat);
    }
}

/// A cell has at most eight live neighbours.
pub proof fn lemma_at_most_eight_neighbors(cells: Seq<bool>, w: int, h: int, x: int, y: int)
    ensures
        live_neighbors(cells, w, h, x, y) <= 8,
{
    lemma_neighbors_upto_bound(cells, w, h, x, y, 9);
}

proof fn lemma_dead_neighbors_upto(cells: Seq<bool>, w: int, h: int, x: int, y: int, n: nat)
    requires
        n <= 9,
        0 < w,
        0 < h,
        cells.len() == w * h,
        forall|i: int| 0 <= i < cells.len() ==> !#[trigger] cells[i],
    ensures
        neighbors_upto(cells, w, h, x, y, n) == 0,
    decreases n,
{
    if n > 0 {
        lemma_dead_neighbors_upto(cells, w, h, x, y, (n - 1) as nat);
        let k = n - 1;
        let nx = wrap(x, k % 3 - 1, w);
        let ny = wrap(y, k / 3 - 1, h);
        vstd::arithmetic::div_mod::lemma_mod_bound(x + (k % 3 - 1) + w, w);
        vstd::arithmetic::div_mod::lemma_mod_bound(y + (k / 3 - 1) + h, h);
        lemma_index_in_grid(w, h, nx, ny);
    }
}

/// On a board without live cells nothing is born unless the rule births cells
/// with no live neighbour: the empty board is a fixed point of every such rule.
pub proof fn lemma_empty_board_stays_empty(
    cells: Seq<bool>,
    w: int,
    h: int,
    birth: Seq<u8>,
    survive: Seq<u8>,
)
    requires
        0 <= w,
        0 <= h,
        cells.len() == w * h,
        forall|i: int| 0 <= i < cells.len() ==> !#[trigger] cells[i],
        !birth.contains(0u8),
    ensures
        next_generation(cells, w, h, birth, survive) == cells,
{
    let next = next_generation(cells, w, h, birth, survive);
    assert forall|i: int| 0 <= i < cells.len() implies next[i] == cells[i] by {
        if w > 0 && h > 0 {
            lemma_dead_neighbors_upto(cells, w, h, i % w, i / w, 9);
        } else {
            assert(w * h == 0) by (nonlinear_arith)
                requires
                    w == 0 || h == 0,
            ;
        }
    }
    assert(next =~= cells);
}

/// The rule, cell by cell: a live cell is alive next generation exactly when its
/// neighbour count is listed in `survive`, a dead cell exactly when its count is
/// listed in `birth`; the other list plays no part.
pub proof fn lemma_rule_reads_one_list(birth: Seq<u8>, survive: Seq<u8>, n: nat)
    ensures
        next_state(birth, survive, true, n) == survive.contains(n as u8),
        next_state(birth, survive, false, n) == birth.contains(n as u8),
{
}

/// Whether cell `(x, y)` is alive, as a count of 0 or 1.
pub open spec fn alive_count(cells: Seq<bool>, w: int, x: int, y: int) -> nat {
    if cells[cell_index(w, x, y)] {
        1
    } else {
        0
    }
}

/// The neighbours of `(x, y)` are the eight cells around it, the torus wrapping
/// at every edge: each one left or right, above or below, and the four diagonals.
pub proof fn lemma_live_neighbors_are_the_eight_around(cells: Seq<bool>, w: int, h: int, x: int, y: int)
    requires
        0 < w,
        0 < h,
        0 <= x,
        0 <= y,
    ensures
        live_neighbors(cells, w, h, x, y) == alive_count(cells, w, (x + w - 1) % w, (y + h - 1) % h)
            + alive_count(cells, w, x % w, (y + h - 1) % h) + alive_count(cells, w, (x + 1) % w, (y + h - 1) % h)
            + alive_count(cells, w, (x + w - 1) % w, y % h) + alive_count(cells, w, (x + 1) % w, y % h)
            + alive_count(cells, w, (x + w - 1) % w, (y + 1) % h) + alive_count(cells, w, x % w, (y + 1) % h)
            + alive_count(cells, w, (x + 1) % w, (y + 1) % h),
{
    vstd::arithmetic::div_mod::lemma_mod_add_multiples_vanish(x, w);
    vstd::arithmetic::div_mod::lemma_mod_add_multiples_vanish(y, h);
    vstd::arithmetic::div_mod::lemma_mod_add_multiples_vanish(x + 1, w);
    vstd::arithmetic::div_mod::lemma_mod_add_multiples_vanish(y + 1, h);
    assert(x + 0 + w == w + x);
    assert(x + 1 + w == w + (x + 1));
    assert(y + 0 + h == h + y);
    assert(y + 1 + h == h + (y + 1));
    reveal_with_fuel(neighbors_upto, 10);
}

/// One generation, cell by cell: cell `(x, y)` of the next generation follows
/// the rule from its own state and its neighbour count in this generation.
pub proof fn lemma_next_generation_at(
    cells: Seq<bool>,
    w: int,
    h: int,
    birth: Seq<u8>,
    survive: Seq<u8>,
    x: int,
    y: int,
)
    requires
        0 <= x < w,
        0 <= y < h,
        cells.len() == w * h,
    ensures
        next_generation(cells, w, h, birth, survive).len() == cells.len(),
        next_generation(cells, w, h, birth, survive)[cell_index(w, x, y)] == if cells[cell_index(w, x, y)] {
            survive.contains(live_neighbors(cells, w, h, x, y) as u8)
        } else {
            birth.contains(live_neighbors(cells, w, h, x, y) as u8)
        },
{
    lemma_index_in_grid(w, h, x, y);
    lemma_index_div_mod(w, x, y);
}

/// The cells of a `w` by `h` torus moved `a` columns right and `b` rows down,
/// wrapping around the edges.
pub open spec fn shift_cells(cells: Seq<bool>, w: int, h: int, a: int, b: int) -> Seq<bool> {
    Seq::new(cells.len(), |i: int| cells[cell_index(w, (i % w - a + w) % w, (i / w - b + h) % h)])
}

proof fn lemma_wrap_shift(x: int, d: int, a: int, m: int)
    requires
        0 < m,
    ensures
        (wrap(x, d, m) - a + m) % m == wrap((x - a + m) % m, d, m),
{
    vstd::arithmetic::div_mod::lemma_add_mod_noop_right(m - a, x + d + m, m);
    vstd::arithmetic::div_mod::lemma_add_mod_noop_right(d + m, x - a + m, m);
    assert((m - a) + (x + d + m) == (d + m) + (x - a + m));
}

proof fn lemma_shifted_neighbors(
    cells: Seq<bool>,
    w: int,
    h: int,
    a: int,
    b: int,
    x: int,
    y: int,
    n: nat,
)
    requires
        0 < w,
        0 < h,
        cells.len() == w * h,
        n <= 9,
    ensures
        neighbors_upto(shift_cells(cells, w, h, a, b), w, h, x, y, n) == neighbors_upto(
            cells,
            w,
            h,
            (x - a + w) % w,
            (y - b + h) % h,
            n,
        ),
    decreases n,
{
    if n > 0 {
        lemma_shifted_neighbors(cells, w, h, a, b, x, y, (n - 1) as nat);
        let k = n - 1;
        let dx = k % 3 - 1;
        let dy = k / 3 - 1;
        let nx = wrap(x, dx, w);
        let ny = wrap(y, dy, h);
        vstd::arithmetic::div_mod::lemma_mod_bound(x + dx + w, w);
        vstd::arithmetic::div_mod::lemma_mod_bound(y + dy + h, h);
        lemma_index_in_grid(w, h, nx, ny);
        lemma_index_div_mod(w, nx, ny);
        lemma_wrap_shift(x, dx, a, w);
        lemma_wrap_shift(y, dy, b, h);
    }
}

/// The board is a torus: moving every cell by the same offset, with wrap-around,
/// and then advancing one generation gives the same board as advancing first and
/// moving after. No cell position is special, edges included.
pub proof fn lemma_step_commutes_with_shift(
    cells: Seq<bool>,
    w: int,
    h: int,
    birth: Seq<u8>,
    survive: Seq<u8>,
    a: int,
    b: int,
)
    requires
        0 <= w,
        0 <= h,
        cells.len() == w * h,
    ensures
        next_generation(shift_cells(cells, w, h, a, b), w, h, birth, survive) == shift_cells(
            next_generation(cells, w, h, birth, survive),
            w,
            h,
            a,
            b,
        ),
{
    let moved = shift_cells(cells, w, h, a, b);
    let lhs = next_generation(moved, w, h, birth, survive);
    let rhs = shift_cells(next_generation(cells, w, h, birth, survive), w, h, a, b);
    assert forall|i: int| 0 <= i < cells.len() implies lhs[i] == rhs[i] by {
        if w > 0 && h > 0 {
            lemma_index_of_div_mod(w, h, i);
            let x = i % w;
            let y = i / w;
            let sx = (x - a + w) % w;
            let sy = (y - b + h) % h;
            vstd::arithmetic::div_mod::lemma_mod_bound(x - a + w, w);
            vstd::arithmetic::div_mod::lemma_mod_bound(y - b + h, h);
            lemma_index_in_grid(w, h, sx, sy);
            lemma_index_div_mod(w, sx, sy);
            lemma_shifted_neighbors(cells, w, h, a, b, x, y, 9);
        } else {
            assert(w * h == 0) by (nonlinear_arith)
                requires
                    w == 0 || h == 0,
            ;
        }
    }
    assert(lhs =~= rhs);
}


/// Two cells inside a `w`-wide grid share an index only when they are the same cell.
pub proof fn lemma_index_injective(w: int, x1: int, y1: int, x2: int, y2: int)
    requires
        0 <= x1 < w,
        0 <= x2 < w,
        0 <= y1,
        0 <= y2,
    ensures
        cell_index(w, x1, y1) == cell_index(w, x2, y2) <==> (x1 == x2 && y1 == y2),
{
    lemma_index_div_mod(w, x1, y1);
    lemma_index_div_mod(w, x2, y2);
}

/// Reading a shifted torus at the moved position gives the cell that was moved there.
pub proof fn lemma_shift_cells_at(cells: Seq<bool>, w: int, h: int, a: int, b: int, x: int, y: int)
    requires
        0 <= x < w,
        0 <= y < h,
        cells.len() == w * h,
    ensures
        shift_cells(cells, w, h, a, b)[cell_index(w, (x + a) % w, (y + b) % h)] == cells[cell_index(w, x, y)],
{
    let mx = (x + a) % w;
    let my = (y + b) % h;
    vstd::arithmetic::div_mod::lemma_mod_bound(x + a, w);
    vstd::arithmetic::div_mod::lemma_mod_bound(y + b, h);
    lemma_index_in_grid(w, h, mx, my);
    lemma_index_div_mod(w, mx, my);
    vstd::arithmetic::div_mod::lemma_add_mod_noop_right(w - a, x + a, w);
    vstd::arithmetic::div_mod::lemma_add_mod_noop_right(h - b, y + b, h);
    vstd::arithmetic::div_mod::lemma_small_mod(x as nat, w as nat);
    vstd::arithmetic::div_mod::lemma_small_mod(y as nat, h as nat);
    vstd::arithmetic::div_mod::lemma_mod_add_multiples_vanish(x, w);
    vstd::arithmetic::div_mod::lemma_mod_add_multiples_vanish(y, h);
}

/// Stepping a torus commutes with moving it, read cell by cell: if board `moved`
/// holds at `((x + a) % w, (y + b) % h)` what board `cells` holds at `(x, y)`,
/// then so do their next generations.
pub proof fn lemma_step_commutes_with_shift_by_cells(
    cells: Seq<bool>,
    moved: Seq<bool>,
    w: int,
    h: int,
    birth: Seq<u8>,
    survive: Seq<u8>,
    a: int,
    b: int,
)
    requires
        0 <= w,
        0 <= h,
        cells.len() == w * h,
        moved.len() == w * h,
        forall|x: int, y: int|
            0 <= x < w && 0 <= y < h ==> #[trigger] moved[cell_index(w, (x + a) % w, (y + b) % h)]
                == cells[cell_index(w, x, y)],
    ensures
        forall|x: int, y: int|
            0 <= x < w && 0 <= y < h ==> #[trigger] next_generation(moved, w, h, birth, survive)[cell_index(
                w,
                (x + a) % w,
                (y + b) % h,
            )] == next_generation(cells, w, h, birth, survive)[cell_index(w, x, y)],
{
    let shifted = shift_cells(cells, w, h, a, b);
    assert forall|i: int| 0 <= i < moved.len() implies moved[i] == shifted[i] by {
        if w > 0 && h > 0 {
            lemma_index_of_div_mod(w, h, i);
            let xx = i % w;
            let yy = i / w;
            let x = (xx - a + w) % w;
            let y = (yy - b + h) % h;
            vstd::arithmetic::div_mod::lemma_mod_bound(xx - a + w, w);
            vstd::arithmetic::div_mod::lemma_mod_bound(yy - b + h, h);
            vstd::arithmetic::div_mod::lemma_add_mod_noop_right(a, xx - a + w, w);
            vstd::arithmetic::div_mod::lemma_add_mod_noop_right(b, yy - b + h, h);
            vstd::arithmetic::div_mod::lemma_mod_add_multiples_vanish(xx, w);
            vstd::arithmetic::div_mod::lemma_mod_add_multiples_vanish(yy, h);
            vstd::arithmetic::div_mod::lemma_small_mod(xx as nat, w as nat);
            vstd::arithmetic::div_mod::lemma_small_mod(yy as nat, h as nat);
            assert((x + a) % w == xx);
            assert((y + b) % h == yy);
            assert(moved[cell_index(w, (x + a) % w, (y + b) % h)] == cells[cell_index(w, x, y)]);
        } else {
            assert(w * h == 0) by (nonlinear_arith)
                requires
                    w == 0 || h == 0,
            ;
        }
    }
    assert(moved =~= shifted);
    lemma_step_commutes_with_shift(cells, w, h, birth, survive, a, b);
    let next = next_generation(cells, w, h, birth, survive);
    assert forall|x: int, y: int| 0 <= x < w && 0 <= y < h implies #[trigger] next_generation(
        moved,
        w,
        h,
        birth,
        survive,
    )[cell_index(w, (x + a) % w, (y + b) % h)] == next[cell_index(w, x, y)] by {
        lemma_shift_cells_at(next, w, h, a, b, x, y);
    }
}

/// A change to the board, as the board's users make them.
pub enum BoardOp {
    /// Set the cell at row-major position `y * width + x`.
    Write(usize, usize, bool),
    /// Advance one generation.
    Step,
}

/// The cells of a `w` by `h` board with the given rule after the changes `ops`.
pub open spec fn cells_after(
    cells: Seq<bool>,
    w: int,
    h: int,
    birth: Seq<u8>,
    survive: Seq<u8>,
    ops: Seq<BoardOp>,
) -> Seq<bool>
    decreases ops.len(),
{
    if ops.len() == 0 {
        cells
    } else {
        let next = match ops[0] {
            BoardOp::Write(x, y, v) => cells.update(cell_index(w, x as int, y as int), v),
            BoardOp::Step => next_generation(cells, w, h, birth, survive),
        };
        cells_after(next, w, h, birth, survive, ops.drop_first())
    }
}

/// Any sequence of in-grid writes and steps keeps the board `w * h` cells
/// large, so every in-grid cell stays readable.
pub proof fn lemma_ops_keep_shape(
    cells: Seq<bool>,
    w: int,
    h: int,
    birth: Seq<u8>,
    survive: Seq<u8>,
    ops: Seq<BoardOp>,
)
    requires
        0 <= w,
        0 <= h,
        cells.len() == w * h,
        forall|k: int|
            0 <= k < ops.len() ==> (#[trigger] ops[k] matches BoardOp::Write(x, y, _) ==> x < w && y < h),
    ensures
        cells_after(cells, w, h, birth, survive, ops).len() == w * h,
        forall|x: int, y: int|
            0 <= x < w && 0 <= y < h ==> 0 <= #[trigger] cell_index(w, x, y) < cells_after(
                cells,
                w,
                h,
                birth,
                survive,
                ops,
            ).len(),
    decreases ops.len(),
{
    if ops.len() > 0 {
        let rest = ops.drop_first();
        assert forall|k: int| 0 <= k < rest.len() implies (#[trigger] rest[k] matches BoardOp::Write(
            x,
            y,
            _,
        ) ==> x < w && y < h) by {
            assert(rest[k] == ops[k + 1]);
        }
        let next = match ops[0] {
            BoardOp::Write(x, y, v) => cells.update(cell_index(w, x as int, y as int), v),
            BoardOp::Step => next_generation(cells, w, h, birth, survive),
        };
        if let BoardOp::Write(x, y, v) = ops[0] {
            lemma_index_in_grid(w, h, x as int, y as int);
        }
        assert(next.len() == w * h);
        lemma_ops_keep_shape(next, w, h, birth, survive, rest);
    } else {
        assert forall|x: int, y: int| 0 <= x < w && 0 <= y < h implies 0 <= #[trigger] cell_index(
            w,
            x,
            y,
        ) < cells.len() by {
            lemma_index_in_grid(w, h, x, y);
        }
    }
}

/// Whether neighbour coordinates of a `w` by `h` board stay within `isize`
/// arithmetic while the board is stepped (a board without cells needs nothing).
pub open spec fn step_fits(w: int, h: int) -> bool {
    w > 0 && h > 0 ==> w + w <= isize::MAX && h + h <= isize::MAX
}

// ---------------------------------------------------------------------------
// Rules
// ---------------------------------------------------------------------------

/// Birth and survival neighbour counts of a life-like rule.
pub struct Rules {
    pub birth: Vec<u8>,
    pub survive: Vec<u8>,
}

impl Default for Rules {
    /// Conway's rule B3/S23.
    fn default() -> (r: Self)
        ensures
            r.birth@ == seq![3u8],
            r.survive@ == seq![2u8, 3u8],
    {
        let mut birth: Vec<u8> = Vec::new();
        birth.push(3);
        let mut survive: Vec<u8> = Vec::new();
        survive.push(2);
        survive.push(3);
        assert(birth@ =~= seq![3u8]);
        assert(survive@ =~= seq![2u8, 3u8]);
        Rules { birth, survive }
    }
}

/// Whether `n` occurs in `counts`.
fn count_listed(counts: &Vec<u8>, n: u8) -> (r: bool)
    ensures
        r == counts@.contains(n),
{
    let mut i: usize = 0;
    while i < counts.len()
        invariant
            i <= counts.len(),
            forall|j: int| 0 <= j < i ==> counts@[j] != n,
        decreases counts.len() - i,
    {
        if counts[i] == n {
            assert(counts@[i as int] == n);
            return true;
        }
        i += 1;
    }
    false
}

// ---------------------------------------------------------------------------
// Board
// ---------------------------------------------------------------------------

/// A toroidal life board of `width * height` cells with its rule.
pub struct Board {
    width: usize,
    height: usize,
    cells: Vec<bool>,
    next: Vec<bool>,
    rules: Rules,
}

impl Board {
    /// Width of the board in cells.
    pub closed spec fn spec_width(&self) -> nat {
        self.width as nat
    }

    /// Height of the board in cells.
    pub closed spec fn spec_height(&self) -> nat {
        self.height as nat
    }

    /// The current generation, row-major.
    pub closed spec fn spec_cells(&self) -> Seq<bool> {
        self.cells@
    }

    /// The neighbour counts at which a dead cell comes alive.
    pub closed spec fn spec_birth(&self) -> Seq<u8> {
        self.rules.birth@
    }

    /// The neighbour counts at which a live cell stays alive.
    pub closed spec fn spec_survive(&self) -> Seq<u8> {
        self.rules.survive@
    }

    /// Whether cell `(x, y)` is alive in the current generation.
    pub open spec fn spec_alive(&self, x: int, y: int) -> bool {
        self.spec_cells()[cell_index(self.spec_width() as int, x, y)]
    }

    /// Well-formedness: both buffers hold exactly `width * height` cells, and that
    /// many cells fit in one allocation.
    pub closed spec fn wf(&self) -> bool {
        &&& self.width * self.height <= isize::MAX
        &&& self.cells@.len() == self.width * self.height
        &&& self.next@.len() == self.width * self.height
    }

    /// What a caller may rely on from a well-formed board.
    pub proof fn lemma_wf(&self)
        requires
            self.wf(),
        ensures
            self.spec_cells().len() == self.spec_width() * self.spec_height(),
            self.spec_width() * self.spec_height() <= isize::MAX,
    {
    }

    /// Every cell inside the grid can be read and written.
    pub proof fn lemma_in_grid(&self, x: int, y: int)
        requires
            self.wf(),
            0 <= x < self.spec_width(),
            0 <= y < self.spec_height(),
        ensures
            0 <= cell_index(self.spec_width() as int, x, y) < self.spec_cells().len(),
    {
        lemma_index_in_grid(self.width as int, self.height as int, x, y);
    }

    /// A dead `width` by `height` board with Conway's rule B3/S23.
    pub fn new(width: usize, height: usize) -> (b: Self)
        requires
            width * height <= isize::MAX,
        ensures
            b.wf(),
            b.spec_width() == width,
            b.spec_height() == height,
            b.spec_cells() == Seq::new((width * height) as nat, |i: int| false),
            b.spec_birth() == seq![3u8],
            b.spec_survive() == seq![2u8, 3u8],
    {
        Self::with_rules(width, height, Rules::default())
    }

    /// A dead `width` by `height` board with the given rule.
    pub fn with_rules(width: usize, height: usize, rules: Rules) -> (b: Self)
        requires
            width * height <= isize::MAX,
        ensures
            b.wf(),
            b.spec_width() == width,
            b.spec_height() == height,
            b.spec_cells() == Seq::new((width * height) as nat, |i: int| false),
            b.spec_birth() == rules.birth@,
            b.spec_survive() == rules.survive@,
    {
        let size = width * height;
        let cells = vec![false; size];
        let next = vec![false; size];
        let b = Self { width, height, cells, next, rules };
        assert(b.spec_cells() =~= Seq::new((width * height) as nat, |i: int| false));
        b
    }

    /// Width of the board in cells.
    pub fn width(&self) -> (w: usize)
        ensures
            w == self.spec_width(),
    {
        self.width
    }

    /// Height of the board in cells.
    pub fn height(&self) -> (h: usize)
        ensures
            h == self.spec_height(),
    {
        self.height
    }

    fn idx(&self, x: usize, y: usize) -> (i: usize)
        requires
            cell_index(self.width as int, x as int, y as int) <= usize::MAX,
        ensures
            i == cell_index(self.width as int, x as int, y as int),
    {
        y * self.width + x
    }

    /// Whether the cell at row-major position `y * width + x` is alive; the
    /// position must fall inside the board.
    pub fn is_alive(&self, x: usize, y: usize) -> (r: bool)
        requires
            self.wf(),
            cell_index(self.spec_width() as int, x as int, y as int) < self.spec_cells().len(),
        ensures
            r == self.spec_alive(x as int, y as int),
    {
        self.cells[self.idx(x, y)]
    }

    /// Sets the cell at row-major position `y * width + x` to `value`; the
    /// position must fall inside the board.
    pub fn set(&mut self, x: usize, y: usize, value: bool)
        requires
            old(self).wf(),
            cell_index(old(self).spec_width() as int, x as int, y as int) < old(self).spec_cells().len(),
        ensures
            final(self).wf(),
            final(self).spec_width() == old(self).spec_width(),
            final(self).spec_height() == old(self).spec_height(),
            final(self).spec_birth() == old(self).spec_birth(),
            final(self).spec_survive() == old(self).spec_survive(),
            final(self).spec_cells() == old(self).spec_cells().update(
                cell_index(old(self).spec_width() as int, x as int, y as int),
                value,
            ),
    {
        let idx = self.idx(x, y);
        self.cells.set(idx, value);
    }

    /// Number of live cells among the eight neighbours of `(x, y)` on the torus.
    /// Coordinates outside the board wrap around as well.
    pub fn count_live_neighbors(&self, x: usize, y: usize) -> (count: u8)
        requires
            self.wf(),
            self.spec_width() > 0,
            self.spec_height() > 0,
            x + self.spec_width() + 1 <= isize::MAX,
            y + self.spec_height() + 1 <= isize::MAX,
        ensures
            count == live_neighbors(
                self.spec_cells(),
                self.spec_width() as int,
                self.spec_height() as int,
                x as int,
                y as int,
            ),
            count <= 8,
    {
        let width = self.width;
        let height = self.height;
        let ghost cells = self.cells@;
        let mut count: u8 = 0;
        let mut k: usize = 0;
        while k < 9
            invariant
                k <= 9,
                width == self.width,
                height == self.height,
                cells == self.cells@,
                self.wf(),
                width > 0,
                height > 0,
                x + width + 1 <= isize::MAX,
                y + height + 1 <= isize::MAX,
                count as nat == neighbors_upto(cells, width as int, height as int, x as int, y as int, k as nat),
                count <= k,
                k > 4 ==> count + 1 <= k,
            decreases 9 - k,
        {
            let dx = k % 3;
            let dy = k / 3;
            if !(dx == 1 && dy == 1) {
                let nx = (x + width + dx - 1) % width;
                let ny = (y + height + dy - 1) % height;
                proof {
                    lemma_index_in_grid(width as int, height as int, nx as int, ny as int);
                }
                if self.is_alive(nx, ny) {
                    count += 1;
                }
            }
            k += 1;
        }
        count
    }

    /// Advances the board by one generation under its rule.
    pub fn step(&mut self)
        requires
            old(self).wf(),
            step_fits(old(self).spec_width() as int, old(self).spec_height() as int),
        ensures
            final(self).wf(),
            final(self).spec_width() == old(self).spec_width(),
            final(self).spec_height() == old(self).spec_height(),
            final(self).spec_birth() == old(self).spec_birth(),
            final(self).spec_survive() == old(self).spec_survive(),
            final(self).spec_cells() == next_generation(
                old(self).spec_cells(),
                old(self).spec_width() as int,
                old(self).spec_height() as int,
                old(self).spec_birth(),
                old(self).spec_survive(),
            ),
    {
        let width = self.width;
        let height = self.height;
        let ghost cells = self.cells@;
        let ghost target = next_generation(
            cells,
            width as int,
            height as int,
            self.rules.birth@,
            self.rules.survive@,
        );
        let ghost birth = self.rules.birth@;
        let ghost survive = self.rules.survive@;
        let mut y: usize = 0;
        while y < height
            invariant
                y <= height,
                width == self.width,
                height == self.height,
                cells == self.cells@,
                birth == self.rules.birth@,
                survive == self.rules.survive@,
                target == next_generation(cells, width as int, height as int, birth, survive),
                self.wf(),
                width > 0 && height > 0 ==> width + width <= isize::MAX && height + height <= isize::MAX,
                forall|i: int| 0 <= i < y * width ==> self.next@[i] == target[i],
            decreases height - y,
        {
            let mut x: usize = 0;
            while x < width
                invariant
                    x <= width,
                    y < height,
                    width == self.width,
                    height == self.height,
                    cells == self.cells@,
                    birth == self.rules.birth@,
                    survive == self.rules.survive@,
                    target == next_generation(cells, width as int, height as int, birth, survive),
                    self.wf(),
                    width > 0 && height > 0 ==> width + width <= isize::MAX && height + height <= isize::MAX,
                    forall|i: int| 0 <= i < y * width + x ==> self.next@[i] == target[i],
                decreases width - x,
            {
                proof {
                    lemma_index_in_grid(width as int, height as int, x as int, y as int);
                    lemma_index_div_mod(width as int, x as int, y as int);
                }
                let alive_neighbours = self.count_live_neighbors(x, y);
                let is_alive = self.is_alive(x, y);
                let new_state = (!is_alive && count_listed(&self.rules.birth, alive_neighbours)) || (
                is_alive && count_listed(&self.rules.survive, alive_neighbours));
                let idx = self.idx(x, y);
                assert(new_state == target[idx as int]);
                self.next.set(idx, new_state);
                x += 1;
            }
            assert(y * width + width == (y + 1) * width) by (nonlinear_arith);
            y += 1;
        }
        assert(self.next@ =~= target) by {
            assert(y * width == width * height) by (nonlinear_arith)
                requires
                    y == height,
            ;
        }
        std::mem::swap(&mut self.cells, &mut self.next);
    }
}


/// Writing a cell and reading cells back: the written cell reads as the value
/// written, every other cell as before.
pub proof fn lemma_set_then_is_alive(before: Board, after: Board, x: int, y: int, value: bool, qx: int, qy: int)
    requires
        after.spec_width() == before.spec_width(),
        0 <= cell_index(before.spec_width() as int, x, y) < before.spec_cells().len(),
        0 <= cell_index(before.spec_width() as int, qx, qy) < before.spec_cells().len(),
        after.spec_cells() == before.spec_cells().update(
            cell_index(before.spec_width() as int, x, y),
            value,
        ),
    ensures
        after.spec_alive(qx, qy) == if cell_index(before.spec_width() as int, qx, qy) == cell_index(
            before.spec_width() as int,
            x,
            y,
        ) {
            value
        } else {
            before.spec_alive(qx, qy)
        },
{
}


/// Two boards that show the same thing: same size, same cells, same rule.
pub open spec fn same_board(b1: Board, b2: Board) -> bool {
    &&& b1.spec_width() == b2.spec_width()
    &&& b1.spec_height() == b2.spec_height()
    &&& b1.spec_cells() == b2.spec_cells()
    &&& b1.spec_birth() == b2.spec_birth()
    &&& b1.spec_survive() == b2.spec_survive()
}

/// Stepping reads nothing but the visible cells, the size and the rule: boards
/// that show the same thing, whatever their history, step to the same cells.
pub proof fn lemma_step_sees_only_the_board(b1: Board, b2: Board)
    requires
        same_board(b1, b2),
    ensures
        next_generation(
            b1.spec_cells(),
            b1.spec_width() as int,
            b1.spec_height() as int,
            b1.spec_birth(),
            b1.spec_survive(),
        ) == next_generation(
            b2.spec_cells(),
            b2.spec_width() as int,
            b2.spec_height() as int,
            b2.spec_birth(),
            b2.spec_survive(),
        ),
{
}

/// Boards that show the same thing stay alike under any later sequence of writes and steps.
pub proof fn lemma_same_board_same_future(b1: Board, b2: Board, ops: Seq<BoardOp>)
    requires
        same_board(b1, b2),
    ensures
        cells_after(
            b1.spec_cells(),
            b1.spec_width() as int,
            b1.spec_height() as int,
            b1.spec_birth(),
            b1.spec_survive(),
            ops,
        ) == cells_after(
            b2.spec_cells(),
            b2.spec_width() as int,
            b2.spec_height() as int,
            b2.spec_birth(),
            b2.spec_survive(),
            ops,
        ),
{
}

/// `Board::new` is `Board::with_rules` with Conway's rule B3/S23: a board built
/// either way shows the same thing.
pub proof fn lemma_new_is_conway(made_new: Board, made_with_rules: Board, rules: Rules, w: int, h: int)
    requires
        made_new.spec_width() == w,
        made_new.spec_height() == h,
        made_new.spec_cells() == Seq::new((w * h) as nat, |i: int| false),
        made_new.spec_birth() == seq![3u8],
        made_new.spec_survive() == seq![2u8, 3u8],
        rules.birth@ == seq![3u8],
        rules.survive@ == seq![2u8, 3u8],
        made_with_rules.spec_width() == w,
        made_with_rules.spec_height() == h,
        made_with_rules.spec_cells() == Seq::new((w * h) as nat, |i: int| false),
        made_with_rules.spec_birth() == rules.birth@,
        made_with_rules.spec_survive() == rules.survive@,
    ensures
        same_board(made_new, made_with_rules),
{
}

} // verus!
