//! The screensaver's state machine: a board sized to the terminal, seeded with
//! a glider, advanced and drawn once per tick until a key is pressed.
use vstd::prelude::*;
use crate::input::InputEvent;
use crate::life::{Board, cell_index, next_generation, same_board, lemma_index_in_grid, lemma_index_div_mod, lemma_index_of_div_mod};
use crate::render::{render_frame, frame_fits, frame_text, frame_line_count};

verus! {

/// Terminal size assumed when the real one cannot be queried: 80 columns, 24 rows.
pub open spec fn size_or_default(size: Option<(u16, u16)>) -> (u16, u16) {
    match size {
        Some(s) => s,
        None => (80u16, 24u16),
    }
}

/// Board width for a terminal of `cols` columns: one column is left free so that
/// lines never auto-wrap, and the board is at least one cell wide.
pub open spec fn board_width(cols: u16) -> int {
    if cols > 1 {
        cols - 1
    } else {
        1
    }
}

/// Board height for a terminal of `rows` rows: each text row shows two board rows.
pub open spec fn board_height(rows: u16) -> int {
    rows * 2
}

/// Whether a `w` by `h` board, its stepping and its frame stay within machine limits.
pub open spec fn board_fits(w: int, h: int) -> bool {
    &&& w * h <= isize::MAX
    &&& w + w <= isize::MAX
    &&& h + h <= isize::MAX
    &&& frame_fits(w, h)
}

/// Whether a terminal of `cols` by `rows` can host the screensaver.
pub open spec fn terminal_fits(cols: u16, rows: u16) -> bool {
    rows > 0 && board_fits(board_width(cols), board_height(rows))
}

/// Whether cell `(x, y)` belongs to the glider seeded near the centre of a
/// `w` by `h` torus.
pub open spec fn glider_at(w: int, h: int, x: int, y: int) -> bool {
    let cx = w / 2;
    let cy = h / 2;
    ||| x == (cx + 1) % w && y == cy % h
    ||| x == (cx + 2) % w && y == (cy + 1) % h
    ||| x == cx % w && y == (cy + 2) % h
    ||| x == (cx + 1) % w && y == (cy + 2) % h
    ||| x == (cx + 2) % w && y == (cy + 2) % h
}

/// A `w` by `h` board holding nothing but the seeded glider.
pub open spec fn glider_cells(w: int, h: int) -> Seq<bool> {
    Seq::new((w * h) as nat, |i: int| glider_at(w, h, i % w, i / w))
}

/// The glider, row by row from the top: `.#.`, `..#`, `###` (it flies down and right).
pub open spec fn glider_picture(dx: int, dy: int) -> bool {
    seq![seq![false, true, false], seq![false, false, true], seq![true, true, true]][dy][dx]
}

/// The seed is the glider pictured by `glider_picture`, its top-left corner at the
/// centre cell `(w / 2, h / 2)`, wrapping around the torus; no other cell is seeded.
pub proof fn lemma_seed_is_the_glider(w: int, h: int, x: int, y: int)
    requires
        0 < w,
        0 < h,
    ensures
        glider_at(w, h, x, y) <==> exists|dx: int, dy: int|
            0 <= dx < 3 && 0 <= dy < 3 && #[trigger] glider_picture(dx, dy) && x == (w / 2 + dx) % w && y == (h / 2
                + dy) % h,
{
    let cx = w / 2;
    let cy = h / 2;
    if glider_at(w, h, x, y) {
        if x == (cx + 1) % w && y == cy % h {
            assert(glider_picture(1, 0) && y == (cy + 0) % h);
        } else if x == (cx + 2) % w && y == (cy + 1) % h {
            assert(glider_picture(2, 1));
        } else if x == cx % w && y == (cy + 2) % h {
            assert(glider_picture(0, 2) && x == (cx + 0) % w);
        } else if x == (cx + 1) % w && y == (cy + 2) % h {
            assert(glider_picture(1, 2));
        } else {
            assert(glider_picture(2, 2));
        }
    }
    if exists|dx: int, dy: int|
        0 <= dx < 3 && 0 <= dy < 3 && #[trigger] glider_picture(dx, dy) && x == (w / 2 + dx) % w && y == (h / 2
            + dy) % h {
        let (dx, dy) = choose|dx: int, dy: int|
            0 <= dx < 3 && 0 <= dy < 3 && #[trigger] glider_picture(dx, dy) && x == (w / 2 + dx) % w && y == (h / 2
                + dy) % h;
        assert(dx == 0 || dx == 1 || dx == 2);
        assert(dy == 0 || dy == 1 || dy == 2);
        assert(glider_at(w, h, x, y));
    }
}

/// Reading the seeded board by coordinates: cell `(x, y)` is alive exactly when
/// it belongs to the glider.
pub proof fn lemma_glider_by_cell(w: int, h: int, x: int, y: int)
    requires
        0 <= x < w,
        0 <= y < h,
    ensures
        0 <= cell_index(w, x, y) < glider_cells(w, h).len(),
        glider_cells(w, h)[cell_index(w, x, y)] == glider_at(w, h, x, y),
{
    lemma_index_in_grid(w, h, x, y);
    lemma_index_div_mod(w, x, y);
}

/// The screensaver: a board as wide and twice as high as the usable terminal.
pub struct App {
    board: Board,
    width: usize,
    height: usize,
}

impl App {
    /// The board being shown.
    pub closed spec fn spec_board(&self) -> Board {
        self.board
    }

    /// Board width in cells.
    pub closed spec fn spec_width(&self) -> int {
        self.width as int
    }

    /// Board height in cells.
    pub closed spec fn spec_height(&self) -> int {
        self.height as int
    }

    /// The board matches the recorded size, is at least one cell in each
    /// direction, and stays within machine limits.
    pub closed spec fn wf(&self) -> bool {
        &&& self.board.wf()
        &&& self.board.spec_width() == self.width
        &&& self.board.spec_height() == self.height
        &&& self.width >= 1
        &&& self.height >= 1
        &&& board_fits(self.width as int, self.height as int)
    }

    /// What a caller may rely on from a well-formed app: the board has the app's
    /// size, at least one cell each way, and stays within machine limits.
    pub proof fn lemma_wf(&self)
        requires
            self.wf(),
        ensures
            self.spec_board().wf(),
            self.spec_board().spec_width() == self.spec_width(),
            self.spec_board().spec_height() == self.spec_height(),
            self.spec_width() >= 1,
            self.spec_height() >= 1,
            board_fits(self.spec_width(), self.spec_height()),
    {
    }

    /// A screensaver for a terminal of the queried size (`None` when the query
    /// failed, in which case 80 by 24 is assumed), seeded with a glider near the
    /// centre and running Conway's rule.
    pub fn new(size: Option<(u16, u16)>) -> (app: Self)
        requires
            terminal_fits(size_or_default(size).0, size_or_default(size).1),
        ensures
            app.wf(),
            app.spec_width() == board_width(size_or_default(size).0),
            app.spec_height() == board_height(size_or_default(size).1),
            app.spec_board().spec_width() == app.spec_width(),
            app.spec_board().spec_height() == app.spec_height(),
            app.spec_board().spec_cells() == glider_cells(app.spec_width(), app.spec_height()),
            forall|x: int, y: int|
                0 <= x < app.spec_width() && 0 <= y < app.spec_height() ==> #[trigger] app.spec_board().spec_alive(x, y)
                    == glider_at(app.spec_width(), app.spec_height(), x, y),
            app.spec_board().spec_birth() == seq![3u8],
            app.spec_board().spec_survive() == seq![2u8, 3u8],
    {
        let (cols, rows) = match size {
            Some(s) => s,
            None => (80u16, 24u16),
        };
        let width: usize = if cols > 1 {
            cols as usize - 1
        } else {
            1
        };
        let height: usize = (rows as usize) * 2;
        let board = Board::new(width, height);
        let mut app = Self { board, width, height };
        app.seed_glider();
        proof {
            assert(app.board.spec_cells() =~= glider_cells(width as int, height as int));
            assert forall|x: int, y: int| 0 <= x < width && 0 <= y < height implies #[trigger] app.board.spec_alive(x, y)
                == glider_at(width as int, height as int, x, y) by {
                lemma_glider_by_cell(width as int, height as int, x, y);
            }
        }
        app
    }

    /// Brings the five cells of a glider near the centre to life.
    fn seed_glider(&mut self)
        requires
            old(self).wf(),
        ensures
            final(self).wf(),
            final(self).width == old(self).width,
            final(self).height == old(self).height,
            final(self).board.spec_birth() == old(self).board.spec_birth(),
            final(self).board.spec_survive() == old(self).board.spec_survive(),
            forall|i: int|
                0 <= i < final(self).board.spec_cells().len() ==> #[trigger] final(self).board.spec_cells()[i] == (
                old(self).board.spec_cells()[i] || glider_at(
                    old(self).width as int,
                    old(self).height as int,
                    i % (old(self).width as int),
                    i / (old(self).width as int),
                )),
            final(self).board.spec_cells().len() == old(self).board.spec_cells().len(),
    {
        let w = self.width;
        let h = self.height;
        let ghost old_cells = self.board.spec_cells();
        let cx = w / 2;
        let cy = h / 2;
        let x1 = (cx + 1) % w;
        let y1 = (cy + 0) % h;
        let x2 = (cx + 2) % w;
        let y2 = (cy + 1) % h;
        let x3 = (cx + 0) % w;
        let y3 = (cy + 2) % h;
        let x4 = (cx + 1) % w;
        let y4 = (cy + 2) % h;
        let x5 = (cx + 2) % w;
        let y5 = (cy + 2) % h;
        proof {
            self.board.lemma_wf();
            lemma_index_in_grid(w as int, h as int, x1 as int, y1 as int);
            lemma_index_in_grid(w as int, h as int, x2 as int, y2 as int);
            lemma_index_in_grid(w as int, h as int, x3 as int, y3 as int);
            lemma_index_in_grid(w as int, h as int, x4 as int, y4 as int);
            lemma_index_in_grid(w as int, h as int, x5 as int, y5 as int);
            lemma_index_div_mod(w as int, x1 as int, y1 as int);
            lemma_index_div_mod(w as int, x2 as int, y2 as int);
            lemma_index_div_mod(w as int, x3 as int, y3 as int);
            lemma_index_div_mod(w as int, x4 as int, y4 as int);
            lemma_index_div_mod(w as int, x5 as int, y5 as int);
        }
        self.board.set(x1, y1, true);
        self.board.set(x2, y2, true);
        self.board.set(x3, y3, true);
        self.board.set(x4, y4, true);
        self.board.set(x5, y5, true);
        proof {
            let wi = w as int;
            let hi = h as int;
            let i1 = cell_index(wi, x1 as int, y1 as int);
            let i2 = cell_index(wi, x2 as int, y2 as int);
            let i3 = cell_index(wi, x3 as int, y3 as int);
            let i4 = cell_index(wi, x4 as int, y4 as int);
            let i5 = cell_index(wi, x5 as int, y5 as int);
            let cells = self.board.spec_cells();
            assert(cells == old_cells.update(i1, true).update(i2, true).update(i3, true).update(
                i4,
                true,
            ).update(i5, true));
            assert forall|i: int| 0 <= i < cells.len() implies #[trigger] cells[i] == (old_cells[i]
                || glider_at(wi, hi, i % wi, i / wi)) by {
                lemma_index_of_div_mod(wi, hi, i);
                let is_seed = i == i1 || i == i2 || i == i3 || i == i4 || i == i5;
                assert(is_seed == glider_at(wi, hi, i % wi, i / wi));
            }
        }
    }

    /// Rebuilds the board for a terminal of `width` columns and `height` rows and
    /// seeds a fresh glider.
    fn resize_board(&mut self, width: u16, height: u16)
        requires
            old(self).wf(),
            terminal_fits(width, height),
        ensures
            final(self).wf(),
            final(self).width == board_width(width),
            final(self).height == board_height(height),
            final(self).board.spec_cells() == glider_cells(final(self).width as int, final(self).height as int),
            final(self).board.spec_birth() == seq![3u8],
            final(self).board.spec_survive() == seq![2u8, 3u8],
    {
        self.width = if width > 1 {
            width as usize - 1
        } else {
            1
        };
        self.height = (height as usize) * 2;
        self.board = Board::new(self.width, self.height);
        self.seed_glider();
        proof {
            let w = self.width as int;
            let h = self.height as int;
            assert(self.board.spec_cells() =~= glider_cells(w, h));
        }
    }

    /// One turn of the screensaver's loop, given what the terminal reported:
    /// a key press ends the screensaver (`None`, nothing changes); a resize
    /// rebuilds the board for the new size with a fresh glider; then the board
    /// advances one generation and the frame to draw is returned.
    pub fn tick(&mut self, event: InputEvent) -> (frame: Option<String>)
        requires
            old(self).wf(),
            event matches InputEvent::Resize(cols, rows) ==> terminal_fits(cols, rows),
        ensures
            final(self).wf(),
            final(self).spec_board().spec_width() == final(self).spec_width(),
            final(self).spec_board().spec_height() == final(self).spec_height(),
            match event {
                InputEvent::KeyPress(_, _) => frame is None && *final(self) == *old(self),
                InputEvent::Resize(cols, rows) => after_resize(*final(self), cols, rows),
                InputEvent::Idle => {
                    &&& final(self).spec_width() == old(self).spec_width()
                    &&& final(self).spec_height() == old(self).spec_height()
                    &&& final(self).spec_board().spec_birth() == old(self).spec_board().spec_birth()
                    &&& final(self).spec_board().spec_survive() == old(
                        self,
                    ).spec_board().spec_survive()
                    &&& final(self).spec_board().spec_cells() == next_generation(
                        old(self).spec_board().spec_cells(),
                        old(self).spec_width(),
                        old(self).spec_height(),
                        old(self).spec_board().spec_birth(),
                        old(self).spec_board().spec_survive(),
                    )
                },
            },
            !(event is KeyPress) ==> (frame matches Some(text) && text@ == frame_text(
                final(self).spec_board().spec_cells(),
                final(self).spec_width(),
                final(self).spec_height(),
            )),
    {
        match event {
            InputEvent::KeyPress(_, _) => {
                return None;
            },
            InputEvent::Resize(cols, rows) => {
                self.resize_board(cols, rows);
            },
            InputEvent::Idle => {},
        }
        self.board.step();
        Some(render_frame(&self.board))
    }
}


/// Two screensavers that show the same thing: same size and boards that show the same thing.
pub open spec fn same_screen(a1: App, a2: App) -> bool {
    &&& a1.spec_width() == a2.spec_width()
    &&& a1.spec_height() == a2.spec_height()
    &&& same_board(a1.spec_board(), a2.spec_board())
}

/// Whether `a` is what a resize to `cols` by `rows` leaves: a board of the new
/// size holding a fresh glider, under Conway's rule, advanced one generation.
pub open spec fn after_resize(a: App, cols: u16, rows: u16) -> bool {
    let w = board_width(cols);
    let h = board_height(rows);
    &&& a.spec_width() == w
    &&& a.spec_height() == h
    &&& a.spec_board().spec_width() == w
    &&& a.spec_board().spec_height() == h
    &&& a.spec_board().spec_birth() == seq![3u8]
    &&& a.spec_board().spec_survive() == seq![2u8, 3u8]
    &&& a.spec_board().spec_cells() == next_generation(glider_cells(w, h), w, h, seq![3u8], seq![2u8, 3u8])
}

/// A resize forgets everything that came before: two screensavers resized to
/// the same terminal size show the same thing, whatever their states were, and
/// resizing twice to one size is the same as resizing once.
pub proof fn lemma_resize_forgets_history(a1: App, a2: App, cols: u16, rows: u16)
    requires
        after_resize(a1, cols, rows),
        after_resize(a2, cols, rows),
    ensures
        same_screen(a1, a2),
{
}


/// The board fills the terminal: its frame has exactly one line per terminal row,
/// and its lines leave exactly the terminal's last column free (a one-column
/// terminal still gets a one-cell-wide board).
pub proof fn lemma_board_fills_terminal(cols: u16, rows: u16)
    ensures
        frame_line_count(board_height(rows)) == rows,
        board_width(cols) >= 1,
        cols >= 2 ==> board_width(cols) + 1 == cols,
        cols < 2 ==> board_width(cols) == 1,
{
}

} // verus!
