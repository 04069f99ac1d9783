//! The playfield: a grid of cell colors with line detection, line collapse
//! and rule-driven resizing.

use vstd::prelude::*;

verus! {

use crate::piece::PieceColor;

/// The playfield grid: `height` rows of `width` cells each, row 0 on top.
pub type Matrix = Vec<Vec<PieceColor>>;

/// The mathematical model of a matrix: a sequence of rows of cells.
pub open spec fn grid(m: Seq<Vec<PieceColor>>) -> Seq<Seq<PieceColor>> {
    m.map_values(|r: Vec<PieceColor>| r@)
}

/// A well-formed grid is non-empty and rectangular: every row has exactly
/// `width` cells, and `width` is positive.
pub open spec fn grid_wf(g: Seq<Seq<PieceColor>>) -> bool {
    &&& g.len() > 0
    &&& g[0].len() > 0
    &&& forall|i: int| 0 <= i < g.len() ==> (#[trigger] g[i]).len() == g[0].len()
}

/// Machine-size bound on the grid so row and column numbers fit in `i32`
/// position arithmetic.
pub open spec fn grid_bounded(g: Seq<Seq<PieceColor>>) -> bool {
    &&& g.len() < 0x8000_0000
    &&& g[0].len() < 0x8000_0000
}

/// A row qualifies for clearing only when the unbroken run of occupied cells
/// from the left spans the whole row; for a full-width row this is the same
/// as every cell being non-empty.
pub open spec fn row_full(row: Seq<PieceColor>) -> bool {
    forall|j: int| 0 <= j < row.len() ==> row[j] != PieceColor::Empty
}

/// A row of `width` empty cells.
pub open spec fn empty_row(width: nat) -> Seq<PieceColor> {
    Seq::new(width, |j: int| PieceColor::Empty)
}

/// The effect of clearing one row: the row vanishes, every row above it
/// shifts down by one, and a fresh empty row appears at the top.
pub open spec fn clear_one(g: Seq<Seq<PieceColor>>, r: int) -> Seq<Seq<PieceColor>> {
    if 0 <= r < g.len() {
        seq![empty_row(g[0].len())] + g.subrange(0, r) + g.subrange(r + 1, g.len() as int)
    } else {
        g
    }
}

/// The effect of clearing a list of rows, processed front to back.
pub open spec fn clear_all(g: Seq<Seq<PieceColor>>, rs: Seq<usize>) -> Seq<Seq<PieceColor>>
    decreases rs.len(),
{
    if rs.len() == 0 {
        g
    } else {
        clear_all(clear_one(g, rs[0] as int), rs.drop_first())
    }
}

/// Clearing one in-bounds row keeps the grid rectangular with the same
/// dimensions, empties the top row, and shifts every row above `r` down.
pub proof fn lemma_clear_one_shape(g: Seq<Seq<PieceColor>>, r: int)
    requires
        grid_wf(g),
        0 <= r < g.len(),
    ensures
        grid_wf(clear_one(g, r)),
        clear_one(g, r).len() == g.len(),
        clear_one(g, r)[0] == empty_row(g[0].len()),
        forall|i: int| 1 <= i <= r ==> clear_one(g, r)[i] == g[i - 1],
        forall|i: int| r < i < g.len() ==> clear_one(g, r)[i] == g[i],
{
    let c = clear_one(g, r);
    assert(c[0] == empty_row(g[0].len()));
    assert forall|i: int| 1 <= i <= r implies c[i] == g[i - 1] by {
        assert(c[i] == g.subrange(0, r)[i - 1]);
    }
    assert forall|i: int| r < i < g.len() implies c[i] == g[i] by {
        assert(c[i] == g.subrange(r + 1, g.len() as int)[i - r - 1]);
    }
}

/// Appending one more row index to a clear list is the same as clearing the
/// earlier list first and that row afterwards.
proof fn lemma_clear_all_push(g: Seq<Seq<PieceColor>>, rs: Seq<usize>, x: usize)
    ensures
        clear_all(g, rs.push(x)) == clear_one(clear_all(g, rs), x as int),
    decreases rs.len(),
{
    if rs.len() == 0 {
        assert(rs.push(x)[0] == x);
        assert(rs.push(x).drop_first() =~= Seq::<usize>::empty());
        assert(clear_all(g, rs.push(x)) == clear_all(clear_one(g, x as int), rs.push(x).drop_first()));
        assert(clear_all(clear_one(g, x as int), Seq::<usize>::empty()) == clear_one(g, x as int));
        assert(clear_all(g, rs) == g);
    } else {
        assert(rs.push(x)[0] == rs[0]);
        assert(rs.push(x).drop_first() =~= rs.drop_first().push(x));
        assert(clear_all(g, rs.push(x)) == clear_all(
            clear_one(g, rs[0] as int),
            rs.drop_first().push(x),
        ));
        lemma_clear_all_push(clear_one(g, rs[0] as int), rs.drop_first(), x);
        assert(clear_all(g, rs) == clear_all(clear_one(g, rs[0] as int), rs.drop_first()));
    }
}

/// Number of non-empty cells in one row.
pub open spec fn row_occupied(row: Seq<PieceColor>) -> nat
    decreases row.len(),
{
    if row.len() == 0 {
        0
    } else {
        row_occupied(row.drop_last()) + if row.last() != PieceColor::Empty {
            1nat
        } else {
            0nat
        }
    }
}

/// Number of non-empty cells in the whole grid.
pub open spec fn occupied_cells(g: Seq<Seq<PieceColor>>) -> nat
    decreases g.len(),
{
    if g.len() == 0 {
        0
    } else {
        occupied_cells(g.drop_last()) + row_occupied(g.last())
    }
}

pub proof fn lemma_row_occupied_empty(width: nat)
    ensures
        row_occupied(empty_row(width)) == 0,
    decreases width,
{
    if width > 0 {
        assert(empty_row(width).drop_last() =~= empty_row((width - 1) as nat));
        lemma_row_occupied_empty((width - 1) as nat);
    }
}

pub proof fn lemma_row_occupied_full(row: Seq<PieceColor>)
    requires
        row_full(row),
    ensures
        row_occupied(row) == row.len(),
    decreases row.len(),
{
    if row.len() > 0 {
        lemma_row_occupied_full(row.drop_last());
    }
}

pub proof fn lemma_occupied_concat(a: Seq<Seq<PieceColor>>, b: Seq<Seq<PieceColor>>)
    ensures
        occupied_cells(a + b) == occupied_cells(a) + occupied_cells(b),
    decreases b.len(),
{
    if b.len() == 0 {
        assert(a + b =~= a);
    } else {
        assert((a + b).drop_last() =~= a + b.drop_last());
        assert((a + b).last() == b.last());
        lemma_occupied_concat(a, b.drop_last());
    }
}

pub proof fn lemma_occupied_split_at(g: Seq<Seq<PieceColor>>, r: int)
    requires
        0 <= r < g.len(),
    ensures
        occupied_cells(g) == occupied_cells(g.subrange(0, r)) + row_occupied(g[r])
            + occupied_cells(g.subrange(r + 1, g.len() as int)),
{
    let a = g.subrange(0, r);
    let b = seq![g[r]];
    let c = g.subrange(r + 1, g.len() as int);
    assert(g =~= a + b + c);
    lemma_occupied_concat(a + b, c);
    lemma_occupied_concat(a, b);
    assert(b.drop_last() =~= Seq::<Seq<PieceColor>>::empty());
    assert(occupied_cells(Seq::<Seq<PieceColor>>::empty()) == 0);
    assert(b.last() == g[r]);
    assert(occupied_cells(b) == row_occupied(g[r]));
}

/// Clearing an empty list of rows leaves the grid unchanged.
pub proof fn lemma_clear_no_rows(g: Seq<Seq<PieceColor>>)
    ensures
        clear_all(g, Seq::<usize>::empty()) == g,
{
}

/// Clearing one full row removes exactly `width` occupied cells from the
/// grid.
pub proof fn lemma_clear_one_occupied(g: Seq<Seq<PieceColor>>, r: int)
    requires
        grid_wf(g),
        0 <= r < g.len(),
        row_full(g[r]),
    ensures
        occupied_cells(clear_one(g, r)) + g[0].len() == occupied_cells(g),
{
    let w = g[0].len();
    let a = g.subrange(0, r);
    let c = g.subrange(r + 1, g.len() as int);
    let e = seq![empty_row(w)];
    assert(clear_one(g, r) =~= e + a + c);
    lemma_occupied_concat(e + a, c);
    lemma_occupied_concat(e, a);
    assert(e.drop_last() =~= Seq::<Seq<PieceColor>>::empty());
    assert(occupied_cells(Seq::<Seq<PieceColor>>::empty()) == 0);
    lemma_row_occupied_empty(w);
    assert(occupied_cells(e) == 0);
    lemma_occupied_split_at(g, r);
    lemma_row_occupied_full(g[r]);
}

/// Builds a fresh all-empty row.
fn make_empty_row(width: usize) -> (r: Vec<PieceColor>)
    ensures
        r@ == empty_row(width as nat),
{
    let mut row: Vec<PieceColor> = Vec::new();
    let mut j: usize = 0;
    while j < width
        invariant
            j <= width,
            row@.len() == j,
            forall|k: int| 0 <= k < j ==> row@[k] == PieceColor::Empty,
        decreases width - j,
    {
        row.push(PieceColor::Empty);
        j += 1;
    }
    proof {
        assert(row@ =~= empty_row(width as nat));
    }
    row
}

/// Clears the given rows, front to back: each target row is removed and a
/// fresh empty row is pushed in at the top, so every row above a cleared row
/// shifts down by one.
pub fn remove_rows(matrix: &mut Matrix, remove: Vec<usize>)
    requires
        grid_wf(grid(old(matrix)@)),
        forall|k: int| 0 <= k < remove@.len() ==> (#[trigger] remove@[k]) < old(matrix)@.len(),
    ensures
        grid(final(matrix)@) == clear_all(grid(old(matrix)@), remove@),
        grid_wf(grid(final(matrix)@)),
        final(matrix)@.len() == old(matrix)@.len(),
        grid(final(matrix)@)[0].len() == grid(old(matrix)@)[0].len(),
{
    let width = matrix[0].len();
    let ghost g0 = grid(old(matrix)@);
    let mut idx: usize = 0;
    proof {
        assert(remove@.take(0) =~= Seq::<usize>::empty());
    }
    while idx < remove.len()
        invariant
            idx <= remove@.len(),
            forall|k: int| 0 <= k < remove@.len() ==> (#[trigger] remove@[k]) < g0.len(),
            grid_wf(g0),
            grid(matrix@) == clear_all(g0, remove@.take(idx as int)),
            grid_wf(grid(matrix@)),
            matrix@.len() == g0.len(),
            grid(matrix@)[0].len() == g0[0].len(),
            width == g0[0].len(),
        decreases remove@.len() - idx,
    {
        let ghost gprev = grid(matrix@);
        let r = remove[idx];
        matrix.remove(r);
        let fresh = make_empty_row(width);
        matrix.insert(0, fresh);
        proof {
            lemma_clear_one_shape(gprev, r as int);
            assert(grid(matrix@) =~= clear_one(gprev, r as int));
            lemma_clear_all_push(g0, remove@.take(idx as int), r);
            assert(remove@.take(idx as int).push(r) =~= remove@.take(idx as int + 1));
        }
        idx += 1;
    }
    proof {
        assert(remove@.take(remove@.len() as int) =~= remove@);
    }
}

/// Column in the new grid where the copied window of an old row starts.
/// Growing horizontally centers the old content; shrinking keeps it at the
/// left edge of the (already centered) cut window.
pub open spec fn resize_left_edge(old_w: int, new_w: int) -> int {
    if new_w / 2 >= old_w / 2 {
        new_w / 2 - old_w / 2
    } else {
        0
    }
}

/// Number of columns cut from the left of each old row when shrinking; the
/// left side takes the extra column when the difference is odd.
pub open spec fn resize_cut_left(old_w: int, new_w: int) -> int {
    if new_w >= old_w {
        0
    } else {
        (old_w - new_w + 1) / 2
    }
}

/// Number of old columns that survive a horizontal resize.
pub open spec fn resize_kept(old_w: int, new_w: int) -> int {
    if new_w >= old_w {
        old_w
    } else {
        new_w
    }
}

/// The cell of the resized grid at row `i`, column `j`: rows are copied from
/// the old grid's bottom upward, columns through the centering/cropping
/// window; everything else is empty.
pub open spec fn resized_cell(g: Seq<Seq<PieceColor>>, new_w: int, new_h: int, i: int, j: int) -> PieceColor {
    let old_h = g.len() as int;
    let old_w = g[0].len() as int;
    let le = resize_left_edge(old_w, new_w);
    let cl = resize_cut_left(old_w, new_w);
    let kept = resize_kept(old_w, new_w);
    let t = new_h - i;
    if t <= old_h && le <= j < le + kept {
        g[old_h - t][j - le + cl]
    } else {
        PieceColor::Empty
    }
}

/// The whole resized grid.
pub open spec fn resized(g: Seq<Seq<PieceColor>>, new_w: int, new_h: int) -> Seq<Seq<PieceColor>> {
    Seq::new(new_h as nat, |i: int| Seq::new(new_w as nat, |j: int| resized_cell(g, new_w, new_h, i, j)))
}

proof fn lemma_row_occupied_concat(a: Seq<PieceColor>, b: Seq<PieceColor>)
    ensures
        row_occupied(a + b) == row_occupied(a) + row_occupied(b),
    decreases b.len(),
{
    if b.len() == 0 {
        assert(a + b =~= a);
    } else {
        assert((a + b).drop_last() =~= a + b.drop_last());
        assert((a + b).last() == b.last());
        lemma_row_occupied_concat(a, b.drop_last());
    }
}

proof fn lemma_occ_rows_zero(g: Seq<Seq<PieceColor>>)
    requires
        forall|i: int| 0 <= i < g.len() ==> row_occupied(#[trigger] g[i]) == 0,
    ensures
        occupied_cells(g) == 0,
    decreases g.len(),
{
    if g.len() > 0 {
        lemma_occ_rows_zero(g.drop_last());
    }
}

/// Two grids whose rows agree bottom-aligned (with only empty rows above)
/// hold the same number of occupied cells.
proof fn lemma_occ_bottom_aligned(a: Seq<Seq<PieceColor>>, b: Seq<Seq<PieceColor>>)
    requires
        b.len() >= a.len(),
        forall|t: int|
            1 <= t <= a.len() ==> row_occupied(#[trigger] b[b.len() - t]) == row_occupied(
                a[a.len() - t],
            ),
        forall|i: int| 0 <= i < b.len() - a.len() ==> row_occupied(#[trigger] b[i]) == 0,
    ensures
        occupied_cells(b) == occupied_cells(a),
    decreases a.len(),
{
    if a.len() == 0 {
        lemma_occ_rows_zero(b);
    } else {
        assert(row_occupied(b.last()) == row_occupied(a.last()));
        assert forall|t: int|
            1 <= t <= a.drop_last().len() implies row_occupied(
            #[trigger] b.drop_last()[b.drop_last().len() - t],
        ) == row_occupied(a.drop_last()[a.drop_last().len() - t]) by {
            assert(b.drop_last()[b.len() - 1 - t] == b[b.len() - (t + 1)]);
            assert(a.drop_last()[a.len() - 1 - t] == a[a.len() - (t + 1)]);
        }
        lemma_occ_bottom_aligned(a.drop_last(), b.drop_last());
    }
}

/// Growing the board in both axes preserves the total occupied-cell count:
/// every old row survives, shifted toward the center, padded with empty
/// cells, and any extra rows on top are empty.
pub proof fn lemma_resize_grow_occupied(g: Seq<Seq<PieceColor>>, new_w: int, new_h: int)
    requires
        grid_wf(g),
        new_w >= g[0].len(),
        new_h >= g.len(),
    ensures
        occupied_cells(resized(g, new_w, new_h)) == occupied_cells(g),
{
    let old_h = g.len() as int;
    let old_w = g[0].len() as int;
    let le = resize_left_edge(old_w, new_w);
    let r = resized(g, new_w, new_h);
    assert(new_w / 2 >= old_w / 2) by (nonlinear_arith)
        requires
            new_w >= old_w,
            old_w > 0,
    ;
    assert(le + old_w <= new_w) by (nonlinear_arith)
        requires
            le == new_w / 2 - old_w / 2,
            old_w > 0,
            new_w >= old_w,
    ;
    assert forall|t: int| 1 <= t <= old_h implies row_occupied(#[trigger] r[new_h - t])
        == row_occupied(g[old_h - t]) by {
        let row = r[new_h - t];
        let orow = g[old_h - t];
        assert(orow.len() == old_w);
        assert(row =~= empty_row(le as nat) + orow + empty_row((new_w - le - old_w) as nat));
        lemma_row_occupied_concat(empty_row(le as nat) + orow, empty_row((new_w - le - old_w) as nat));
        lemma_row_occupied_concat(empty_row(le as nat), orow);
        lemma_row_occupied_empty(le as nat);
        lemma_row_occupied_empty((new_w - le - old_w) as nat);
    }
    assert forall|i: int| 0 <= i < new_h - old_h implies row_occupied(#[trigger] r[i]) == 0 by {
        assert(r[i] =~= empty_row(new_w as nat));
        lemma_row_occupied_empty(new_w as nat);
    }
    lemma_occ_bottom_aligned(g, r);
}

/// Allocates a new grid of the requested dimensions and copies rows from the
/// old grid's bottom upward into the new grid's bottom upward, centering the
/// content when growing and trimming both sides evenly when shrinking (the
/// left side takes the extra cut when the difference is odd).
pub fn resize_matrix(matrix: &Matrix, new_width: usize, new_height: usize) -> (r: Matrix)
    requires
        grid_wf(grid(matrix@)),
        new_width > 0,
        new_height > 0,
    ensures
        grid(r@) == resized(grid(matrix@), new_width as int, new_height as int),
        grid_wf(grid(r@)),
        r@.len() == new_height,
        grid(r@)[0].len() == new_width,
{
    let ghost g = grid(matrix@);
    let old_h = matrix.len();
    let old_w = matrix[0].len();
    let left_edge = if new_width / 2 >= old_w / 2 {
        new_width / 2 - old_w / 2
    } else {
        0
    };
    let (cut_left, kept) = if new_width >= old_w {
        (0, old_w)
    } else {
        ((old_w - new_width + 1) / 2, new_width)
    };
    proof {
        assert(left_edge + kept <= new_width) by (nonlinear_arith)
            requires
                left_edge == resize_left_edge(old_w as int, new_width as int),
                kept == resize_kept(old_w as int, new_width as int),
                old_w > 0,
                new_width > 0,
        ;
        assert(cut_left + kept <= old_w);
    }
    let mut out: Matrix = Vec::new();
    let mut i: usize = 0;
    while i < new_height
        invariant
            i <= new_height,
            out@.len() == i,
            g == grid(matrix@),
            old_h == matrix@.len(),
            old_h == g.len(),
            old_w == g[0].len(),
            grid_wf(g),
            new_width > 0,
            left_edge == resize_left_edge(old_w as int, new_width as int),
            cut_left == resize_cut_left(old_w as int, new_width as int),
            kept == resize_kept(old_w as int, new_width as int),
            left_edge + kept <= new_width,
            cut_left + kept <= old_w,
            forall|a: int| 0 <= a < i ==> (#[trigger] grid(out@)[a]) == resized(
                g,
                new_width as int,
                new_height as int,
            )[a],
        decreases new_height - i,
    {
        let t = new_height - i;
        let mut row: Vec<PieceColor> = Vec::new();
        let mut j: usize = 0;
        while j < new_width
            invariant
                j <= new_width,
                row@.len() == j,
                t == new_height - i,
                i < new_height,
                g == grid(matrix@),
                old_h == matrix@.len(),
                old_h == g.len(),
                old_w == g[0].len(),
                grid_wf(g),
                left_edge + kept <= new_width,
                cut_left + kept <= old_w,
                forall|b: int|
                    0 <= b < j ==> (#[trigger] row@[b]) == resized_cell(
                        g,
                        new_width as int,
                        new_height as int,
                        i as int,
                        b,
                    ),
                left_edge == resize_left_edge(old_w as int, new_width as int),
                cut_left == resize_cut_left(old_w as int, new_width as int),
                kept == resize_kept(old_w as int, new_width as int),
            decreases new_width - j,
        {
            let cell = if t <= old_h && left_edge <= j && j < left_edge + kept {
                proof {
                    assert(grid(matrix@)[old_h - t] == matrix@[old_h - t]@);
                    assert(matrix@[old_h - t]@.len() == old_w);
                }
                matrix[old_h - t][j - left_edge + cut_left]
            } else {
                PieceColor::Empty
            };
            row.push(cell);
            j += 1;
        }
        let ghost pre_out = out@;
        out.push(row);
        proof {
            let target = resized(g, new_width as int, new_height as int);
            assert forall|a: int| 0 <= a < i + 1 implies (#[trigger] grid(out@)[a]) == target[a] by {
                if a < i {
                    assert(out@[a] == pre_out[a]);
                    assert(grid(out@)[a] == out@[a]@);
                    assert(grid(pre_out)[a] == pre_out[a]@);
                } else {
                    assert(out@[a] == row);
                    assert(grid(out@)[a] == row@);
                    assert(row@ =~= target[a]);
                }
            }
        }
        i += 1;
    }
    proof {
        assert(grid(out@) =~= resized(g, new_width as int, new_height as int));
    }
    out
}

/// The indices of the full rows among the first `i` rows, in increasing
/// order.
pub open spec fn full_rows_upto(g: Seq<Seq<PieceColor>>, i: int) -> Seq<usize>
    decreases i,
{
    if i <= 0 {
        Seq::empty()
    } else {
        full_rows_upto(g, i - 1) + if row_full(g[i - 1]) {
            seq![(i - 1) as usize]
        } else {
            Seq::empty()
        }
    }
}

/// Scans each row left-to-right, counting contiguous occupied cells until the
/// first empty cell; a row qualifies only if the unbroken count reaches the
/// full width.  Returns the qualifying row indices in increasing order.
pub fn filled_rows(matrix: &Matrix) -> (r: Vec<usize>)
    requires
        grid_wf(grid(matrix@)),
    ensures
        r@ == full_rows_upto(grid(matrix@), matrix@.len() as int),
        forall|k: int| 0 <= k < r@.len() ==> (#[trigger] r@[k]) < matrix@.len(),
        forall|k: int| 0 <= k < r@.len() ==> row_full(grid(matrix@)[#[trigger] r@[k] as int]),
        forall|i: int|
            0 <= i < matrix@.len() && row_full(grid(matrix@)[i]) ==> r@.contains(i as usize),
        forall|a: int, b: int| 0 <= a < b < r@.len() ==> r@[a] < r@[b],
{
    let width = matrix[0].len();
    let mut cleared: Vec<usize> = Vec::new();
    let mut i: usize = 0;
    while i < matrix.len()
        invariant
            grid_wf(grid(matrix@)),
            width == grid(matrix@)[0].len(),
            i <= matrix@.len(),
            cleared@ == full_rows_upto(grid(matrix@), i as int),
            forall|k: int| 0 <= k < cleared@.len() ==> (#[trigger] cleared@[k]) < i,
            forall|k: int|
                0 <= k < cleared@.len() ==> row_full(grid(matrix@)[#[trigger] cleared@[k] as int]),
            forall|j: int|
                0 <= j < i && row_full(grid(matrix@)[j]) ==> cleared@.contains(j as usize),
            forall|a: int, b: int| 0 <= a < b < cleared@.len() ==> cleared@[a] < cleared@[b],
        decreases matrix@.len() - i,
    {
        let row = &matrix[i];
        let mut j: usize = 0;
        while j < row.len() && row[j] != PieceColor::Empty
            invariant
                j <= row@.len(),
                forall|k: int| 0 <= k < j ==> row@[k] != PieceColor::Empty,
            decreases row@.len() - j,
        {
            j += 1;
        }
        let ghost pre = cleared@;
        if j == width {
            assert(row_full(grid(matrix@)[i as int]));
            cleared.push(i);
            proof {
                assert(cleared@ =~= full_rows_upto(grid(matrix@), i as int + 1));
            }
        } else {
            assert(!row_full(grid(matrix@)[i as int]));
            proof {
                assert(cleared@ =~= full_rows_upto(grid(matrix@), i as int + 1));
            }
        }
        proof {
            assert forall|jj: int|
                0 <= jj < i + 1 && row_full(grid(matrix@)[jj]) implies cleared@.contains(
                jj as usize,
            ) by {
                if jj < i {
                    let idx = choose|idx: int| 0 <= idx < pre.len() && pre[idx] == jj as usize;
                    assert(cleared@[idx] == jj as usize);
                } else {
                    assert(cleared@[cleared@.len() - 1] == i as usize);
                }
            }
        }
        i += 1;
    }
    cleared
}

} // verus!
