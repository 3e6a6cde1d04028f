//! Half-block rendering: two board rows are packed into one line of text, the
//! upper cell drawn by the top half of a character and the lower by its bottom half.
use vstd::prelude::*;
use crate::life::{Board, cell_index};

verus! {

/// The character that shows an upper cell `top` above a lower cell `bottom`.
pub open spec fn block_char(top: bool, bottom: bool) -> char {
    if top && bottom {
        '\u{2588}'
    } else if top {
        '\u{2580}'
    } else if bottom {
        '\u{2584}'
    } else {
        ' '
    }
}

/// The first `n` characters of the line that packs rows `y` and `y + 1`; a lower
/// row that does not exist counts as dead.
pub open spec fn packed_row(cells: Seq<bool>, w: int, h: int, y: int, n: nat) -> Seq<char>
    decreases n,
{
    if n == 0 {
        seq![]
    } else {
        let x = n - 1;
        packed_row(cells, w, h, y, (n - 1) as nat).push(
            block_char(
                cells[cell_index(w, x, y)],
                y + 1 < h && cells[cell_index(w, x, y + 1)],
            ),
        )
    }
}

/// The first `r` lines of the frame; every line but the last of the frame ends in `"\r\n"`.
pub open spec fn frame_rows(cells: Seq<bool>, w: int, h: int, r: nat) -> Seq<char>
    decreases r,
{
    if r == 0 {
        seq![]
    } else {
        let y = 2 * (r - 1);
        frame_rows(cells, w, h, (r - 1) as nat) + packed_row(cells, w, h, y, w as nat) + if y + 2 < h {
            seq!['\r', '\n']
        } else {
            seq![]
        }
    }
}

/// Number of text lines of a frame for a board `h` cells high.
pub open spec fn frame_line_count(h: int) -> int {
    (h + 1) / 2
}

/// The whole frame of a `w` by `h` board.
pub open spec fn frame_text(cells: Seq<bool>, w: int, h: int) -> Seq<char> {
    frame_rows(cells, w, h, frame_line_count(h) as nat)
}

proof fn lemma_packed_row(cells: Seq<bool>, w: int, h: int, y: int, n: nat)
    ensures
        packed_row(cells, w, h, y, n).len() == n,
        forall|x: int|
            0 <= x < n ==> #[trigger] packed_row(cells, w, h, y, n)[x] == block_char(
                cells[cell_index(w, x, y)],
                y + 1 < h && cells[cell_index(w, x, y + 1)],
            ),
    decreases n,
{
    if n > 0 {
        lemma_packed_row(cells, w, h, y, (n - 1) as nat);
    }
}

proof fn lemma_frame_rows_len(cells: Seq<bool>, w: int, h: int, r: nat)
    requires
        0 <= w,
        r <= frame_line_count(h),
    ensures
        r < frame_line_count(h) ==> frame_rows(cells, w, h, r).len() == r * (w + 2),
        r == frame_line_count(h) && r > 0 ==> frame_rows(cells, w, h, r).len() == r * (w + 2) - 2,
        r == 0 ==> frame_rows(cells, w, h, r).len() == 0,
    decreases r,
{
    if r > 0 {
        lemma_frame_rows_len(cells, w, h, (r - 1) as nat);
        lemma_packed_row(cells, w, h, 2 * (r - 1), w as nat);
        assert((r - 1) * (w + 2) + w + 2 == r * (w + 2)) by (nonlinear_arith);
    }
}

proof fn lemma_frame_rows_prefix(cells: Seq<bool>, w: int, h: int, r: nat, m: nat)
    requires
        r <= m,
    ensures
        frame_rows(cells, w, h, r).len() <= frame_rows(cells, w, h, m).len(),
        forall|j: int|
            0 <= j < frame_rows(cells, w, h, r).len() ==> #[trigger] frame_rows(cells, w, h, m)[j]
                == frame_rows(cells, w, h, r)[j],
    decreases m,
{
    if r < m {
        lemma_frame_rows_prefix(cells, w, h, r, (m - 1) as nat);
    }
}

/// A frame of a board `h` rows high has `(h + 1) / 2` lines of `w` characters,
/// separated by `"\r\n"` and not followed by one: its length is
/// `lines * w + 2 * (lines - 1)`, or 0 for a board without rows.
pub proof fn lemma_frame_length(cells: Seq<bool>, w: int, h: int)
    requires
        0 <= w,
        0 <= h,
    ensures
        h == 0 ==> frame_text(cells, w, h).len() == 0,
        h > 0 ==> frame_text(cells, w, h).len() == frame_line_count(h) * w + 2 * (
        frame_line_count(h) - 1),
{
    lemma_frame_rows_len(cells, w, h, frame_line_count(h) as nat);
    assert(frame_line_count(h) * (w + 2) == frame_line_count(h) * w + 2 * frame_line_count(h))
        by (nonlinear_arith);
}

/// Line `r` of a frame shows board rows `2r` (upper halves) and `2r + 1` (lower
/// halves, dead past the last row): its character `x` is the block for those two
/// cells, and every line but the last ends in `"\r\n"`.
pub proof fn lemma_frame_line(cells: Seq<bool>, w: int, h: int, r: int, x: int)
    requires
        0 <= w,
        0 <= r < frame_line_count(h),
        0 <= x < w,
    ensures
        frame_text(cells, w, h)[r * (w + 2) + x] == block_char(
            cells[cell_index(w, x, 2 * r)],
            2 * r + 1 < h && cells[cell_index(w, x, 2 * r + 1)],
        ),
        r + 1 < frame_line_count(h) ==> frame_text(cells, w, h)[r * (w + 2) + w] == '\r'
            && frame_text(cells, w, h)[r * (w + 2) + w + 1] == '\n',
{
    let rows = frame_line_count(h) as nat;
    let rn = (r + 1) as nat;
    lemma_frame_rows_len(cells, w, h, r as nat);
    lemma_frame_rows_len(cells, w, h, rn);
    lemma_packed_row(cells, w, h, 2 * r, w as nat);
    lemma_frame_rows_prefix(cells, w, h, rn, rows);
    assert(0 <= r * (w + 2)) by (nonlinear_arith)
        requires
            0 <= r,
            0 <= w,
    ;
    let head = frame_rows(cells, w, h, r as nat);
    let line = packed_row(cells, w, h, 2 * r, w as nat);
    assert(frame_rows(cells, w, h, rn)[r * (w + 2) + x] == line[x]);
    if r + 1 < frame_line_count(h) {
        assert(2 * r + 2 < h);
        assert(frame_rows(cells, w, h, rn)[r * (w + 2) + w] == '\r');
        assert(frame_rows(cells, w, h, rn)[r * (w + 2) + w + 1] == '\n');
    }
}

/// The glyphs of a frame: where both cells of a column are alive the line shows a
/// full block `'\u{2588}'`, where only the upper one is the upper half block
/// `'\u{2580}'`, where only the lower one the lower half block `'\u{2584}'`, and a
/// space where neither is (below the last row counts as dead).
pub proof fn lemma_frame_glyphs(cells: Seq<bool>, w: int, h: int, r: int, x: int)
    requires
        0 <= w,
        0 <= r < frame_line_count(h),
        0 <= x < w,
    ensures
        ({
            let c = frame_text(cells, w, h)[r * (w + 2) + x];
            let upper = cells[cell_index(w, x, 2 * r)];
            let lower = 2 * r + 1 < h && cells[cell_index(w, x, 2 * r + 1)];
            &&& (upper && lower) <==> c == '\u{2588}'
            &&& (upper && !lower) <==> c == '\u{2580}'
            &&& (!upper && lower) <==> c == '\u{2584}'
            &&& (!upper && !lower) <==> c == ' '
        }),
{
    lemma_frame_line(cells, w, h, r, x);
}

/// The frame shows every cell: two boards of the same size have the same frame
/// exactly when they have the same cells, so the board can be read back from it.
pub proof fn lemma_frame_determines_board(c1: Seq<bool>, c2: Seq<bool>, w: int, h: int)
    requires
        0 <= w,
        0 <= h,
        c1.len() == w * h,
        c2.len() == w * h,
    ensures
        frame_text(c1, w, h) == frame_text(c2, w, h) <==> c1 == c2,
{
    if frame_text(c1, w, h) == frame_text(c2, w, h) {
        assert forall|i: int| 0 <= i < c1.len() implies c1[i] == c2[i] by {
            if w > 0 && h > 0 {
                crate::life::lemma_index_of_div_mod(w, h, i);
                let x = i % w;
                let y = i / w;
                let r = y / 2;
                lemma_frame_line(c1, w, h, r, x);
                lemma_frame_line(c2, w, h, r, x);
                if y == 2 * r + 1 {
                    crate::life::lemma_index_in_grid(w, h, x, 2 * r);
                }
            } else {
                assert(w * h == 0) by (nonlinear_arith)
                    requires
                        w == 0 || h == 0,
                ;
            }
        }
        assert(c1 =~= c2);
    }
}

/// Whether the text of a frame of a `w` by `h` board fits in one allocation.
pub open spec fn frame_fits(w: int, h: int) -> bool {
    w * frame_line_count(h) + 2 * frame_line_count(h) <= isize::MAX
}

/// The whole board as text, two rows per line, lines joined by `"\r\n"` with no
/// line break after the last line.
pub fn render_frame(board: &Board) -> (output: String)
    requires
        board.wf(),
        frame_fits(board.spec_width() as int, board.spec_height() as int),
    ensures
        output@ == frame_text(board.spec_cells(), board.spec_width() as int, board.spec_height() as int),
{
    let width = board.width();
    let height = board.height();
    let ghost cells = board.spec_cells();
    let ghost w = width as int;
    let ghost h = height as int;
    proof {
        board.lemma_wf();
        assert(height as int <= 2 * frame_line_count(h));
        assert(0 <= w * frame_line_count(h)) by (nonlinear_arith)
            requires
                0 <= w,
                0 <= frame_line_count(h),
        ;
    }
    let mut output = String::new();
    let mut y: usize = 0;
    while y < height
        invariant
            width == board.spec_width(),
            height == board.spec_height(),
            w == width,
            h == height,
            cells == board.spec_cells(),
            board.wf(),
            height <= isize::MAX,
            y % 2 == 0,
            y <= height + 1,
            output@ == frame_rows(cells, w, h, (y / 2) as nat),
        decreases height + 1 - y,
    {
        let has_bottom = y + 1 < height;
        let ghost before = output@;
        let mut x: usize = 0;
        while x < width
            invariant
                width == board.spec_width(),
                height == board.spec_height(),
                w == width,
                h == height,
                cells == board.spec_cells(),
                board.wf(),
                height <= isize::MAX,
                y < height,
                has_bottom == (y + 1 < height),
                x <= width,
                output@ == before + packed_row(cells, w, h, y as int, x as nat),
            decreases width - x,
        {
            proof {
                board.lemma_wf();
                crate::life::lemma_index_in_grid(w, h, x as int, y as int);
                if has_bottom {
                    crate::life::lemma_index_in_grid(w, h, x as int, y + 1);
                }
            }
            let top = board.is_alive(x, y);
            let bottom = if has_bottom {
                board.is_alive(x, y + 1)
            } else {
                false
            };
            let ghost c = block_char(top, bottom);
            if top && bottom {
                proof {
                    reveal_strlit("\u{2588}");
                }
                output.append("\u{2588}");
            } else if top {
                proof {
                    reveal_strlit("\u{2580}");
                }
                output.append("\u{2580}");
            } else if bottom {
                proof {
                    reveal_strlit("\u{2584}");
                }
                output.append("\u{2584}");
            } else {
                proof {
                    reveal_strlit(" ");
                }
                output.append(" ");
            }
            assert(output@ == before + packed_row(cells, w, h, y as int, x as nat).push(c));
            x += 1;
        }
        if y + 2 < height {
            proof {
                reveal_strlit("\r\n");
            }
            output.append("\r\n");
        }
        assert(output@ =~= frame_rows(cells, w, h, (y / 2 + 1) as nat));
        y += 2;
    }
    assert(y / 2 == frame_line_count(h));
    output
}

} // verus!
