//! The active piece: shape and rotation representation, collision testing,
//! movement, wall-kick rotation, ghost-row projection and spin-bonus
//! detection.

use vstd::prelude::*;

verus! {

use crate::board::{grid, grid_wf, grid_bounded, Matrix};

/// Color tag stored in each board cell; `Empty` marks a free cell.
#[derive(Clone, Copy, PartialEq, Eq, Structural, Debug)]
pub enum PieceColor {
    Empty,
    Cyan,
    Magenta,
    Yellow,
    Blue,
    Orange,
    Green,
    Red,
    Gray,
    ColorCount,
}

/// Horizontal movement intent.
#[derive(Clone, Copy, PartialEq, Eq, Structural, Debug)]
pub enum HDirection {
    Left,
    Idle,
    Right,
}

/// Vertical movement intent.
#[derive(Clone, Copy, PartialEq, Eq, Structural, Debug)]
pub enum VDirection {
    Idle,
    Down,
}

/// Rotation intent for one tick.
#[derive(Clone, Copy, PartialEq, Eq, Structural, Debug)]
pub enum RotationAction {
    Idle,
    RotateCW,
    Rotate180,
    RotateCCW,
}

/// Column offset that a horizontal intent stands for.
pub fn h_offset(dir: HDirection) -> (r: i32)
    ensures
        r == h_offset_spec(dir),
{
    match dir {
        HDirection::Left => -1,
        HDirection::Idle => 0,
        HDirection::Right => 1,
    }
}

pub open spec fn h_offset_spec(dir: HDirection) -> int {
    match dir {
        HDirection::Left => -1,
        HDirection::Idle => 0,
        HDirection::Right => 1,
    }
}

/// Row offset that a vertical intent stands for (rows grow downward).
pub fn v_offset(dir: VDirection) -> (r: i32)
    ensures
        r == v_offset_spec(dir),
{
    match dir {
        VDirection::Idle => 0,
        VDirection::Down => 1,
    }
}

pub open spec fn v_offset_spec(dir: VDirection) -> int {
    match dir {
        VDirection::Idle => 0,
        VDirection::Down => 1,
    }
}

/// Four rotation states, each an unordered set of relative (column, row)
/// offsets from the piece's reference origin.
pub type PieceShape = [Vec<(i8, i8)>; 4];

/// Wall-kick candidate offsets, indexed by `[fromRotation][rotationDelta - 1]`.
pub type KickData = [[Vec<(i8, i8)>; 3]; 4];

/// Immutable catalog entry for one piece kind.  The kick table is an index
/// into the kick-data catalog the game was built with.
pub struct PieceType {
    pub shape: PieceShape,
    pub color: PieceColor,
    pub kick_table: usize,
    pub spin_bonus: bool,
}

/// Absolute position on the board; `row` grows downward.
pub struct Position {
    pub col: i32,
    pub row: i32,
}

/// The active falling piece.
pub struct Piece {
    pub position: Position,
    pub shape: PieceShape,
    pub color: PieceColor,
    pub kick_table: usize,
    pub rotation: usize,
    pub ghost_position: i32,
    pub spin_bonus: bool,
    pub last_move_was_rotation: bool,
}

/// A board cell blocks a piece cell when it lies outside the grid or is
/// already occupied.
pub open spec fn cell_blocked(g: Seq<Seq<PieceColor>>, c: int, r: int) -> bool {
    !(0 <= c < g[0].len() && 0 <= r < g.len() && g[r][c] == PieceColor::Empty)
}

/// Whether a shape placed with its origin at (`col`, `row`) hits a wall,
/// the floor or an occupied cell.
pub open spec fn shape_hits(g: Seq<Seq<PieceColor>>, cells: Seq<(i8, i8)>, col: int, row: int) -> bool {
    exists|k: int|
        0 <= k < cells.len() && cell_blocked(
            g,
            cells[k].0 + col,
            cells[k].1 + row,
        )
}

/// Every relative offset of a shape rotation is non-negative.
pub open spec fn cells_nonneg(cells: Seq<(i8, i8)>) -> bool {
    forall|k: int| 0 <= k < cells.len() ==> (#[trigger] cells[k]).0 >= 0 && cells[k].1 >= 0
}

/// A well-formed shape has four non-empty rotation states with non-negative
/// offsets.
pub open spec fn shape_wf(shape: PieceShape) -> bool {
    forall|rot: int|
        0 <= rot < 4 ==> (#[trigger] shape@[rot])@.len() > 0 && cells_nonneg(shape@[rot]@)
}

/// The smaller of two naturals.
pub open spec fn min_nat(a: nat, b: nat) -> nat {
    if a <= b {
        a
    } else {
        b
    }
}

/// Length of the run of empty cells in column `c` starting at row `r` and
/// walking downward; zero outside the grid or on an occupied cell.
pub open spec fn fall_len(g: Seq<Seq<PieceColor>>, c: int, r: int) -> nat
    decreases g.len() - r,
{
    if r < 0 || r >= g.len() || g[r][c] != PieceColor::Empty {
        0
    } else {
        1 + fall_len(g, c, r + 1)
    }
}

/// Minimum fall run over the shape cells from index `k` on; the grid height
/// when no cells remain.
pub open spec fn min_fall_from(
    g: Seq<Seq<PieceColor>>,
    cells: Seq<(i8, i8)>,
    col: int,
    row: int,
    k: int,
) -> nat
    decreases cells.len() - k,
{
    if k < 0 || k >= cells.len() {
        g.len()
    } else {
        min_nat(
            fall_len(g, cells[k].0 + col, cells[k].1 + row),
            min_fall_from(g, cells, col, row, k + 1),
        )
    }
}

/// The row the shape would occupy if dropped straight down from
/// (`col`, `row`): one less than the smallest empty run under its cells,
/// clamped at the current row.
pub open spec fn ghost_row_spec(g: Seq<Seq<PieceColor>>, cells: Seq<(i8, i8)>, col: int, row: int) -> int {
    let mf = min_fall_from(g, cells, col, row, 0);
    if mf > 0 {
        row + mf - 1
    } else {
        row
    }
}

/// What the ghost-row scan needs of a placement: every cell's column is on
/// the board and no cell sits above the top row.  (Cells may overlap the
/// stack or hang below the floor; the scan handles both.)
pub open spec fn ghost_scan_ok(g: Seq<Seq<PieceColor>>, cells: Seq<(i8, i8)>, col: int, row: int) -> bool {
    forall|k: int|
        0 <= k < cells.len() ==> 0 <= (#[trigger] cells[k]).0 + col < g[0].len() && cells[k].1
            + row >= 0
}

pub proof fn lemma_min_fall_from_le(
    g: Seq<Seq<PieceColor>>,
    cells: Seq<(i8, i8)>,
    col: int,
    row: int,
    k: int,
)
    ensures
        min_fall_from(g, cells, col, row, k) <= g.len(),
    decreases cells.len() - k,
{
    if 0 <= k < cells.len() {
        lemma_min_fall_from_le(g, cells, col, row, k + 1);
    }
}

pub proof fn lemma_fall_len_le(g: Seq<Seq<PieceColor>>, c: int, r: int)
    requires
        0 <= r <= g.len(),
    ensures
        fall_len(g, c, r) + r <= g.len(),
    decreases g.len() - r,
{
    if r < g.len() && g[r][c] == PieceColor::Empty {
        lemma_fall_len_le(g, c, r + 1);
    }
}

/// Number of single-cell horizontal steps of `h` columns the shape can
/// take from (`col`, `row`) before colliding.
pub open spec fn slide_len(
    g: Seq<Seq<PieceColor>>,
    cells: Seq<(i8, i8)>,
    col: int,
    row: int,
    h: int,
) -> nat
    decreases (if h > 0 {
        g[0].len() + 130 - col
    } else {
        col + 130
    }),
{
    if cells.len() == 0 || h == 0 {
        0
    } else if shape_hits(g, cells, col + h, row) || cells[0].0 + (col + h) < 0 || cells[0].0 + (col
        + h) >= g[0].len() {
        // The bounds disjuncts are implied by a hit on the first cell; they
        // only make the shrinking column range explicit.
        0
    } else {
        1 + slide_len(g, cells, col + h, row, h)
    }
}

/// Taking steps inside a free run shortens the remaining run one-for-one.
pub proof fn lemma_slide_sub(
    g: Seq<Seq<PieceColor>>,
    cells: Seq<(i8, i8)>,
    col: int,
    row: int,
    h: int,
    d: int,
)
    requires
        0 <= d <= slide_len(g, cells, col, row, h),
    ensures
        slide_len(g, cells, col + d * h, row, h) == slide_len(g, cells, col, row, h) - d,
    decreases d,
{
    if d > 0 {
        lemma_slide_sub(g, cells, col + h, row, h, d - 1);
        assert((col + h) + (d - 1) * h == col + d * h) by (nonlinear_arith);
    } else {
        assert(col + 0 * h == col) by (nonlinear_arith);
    }
}

/// Whether the shape covers board cell (`i`, `j`) when placed at
/// (`col`, `row`).
pub open spec fn covers(cells: Seq<(i8, i8)>, col: int, row: int, i: int, j: int) -> bool {
    exists|k: int| 0 <= k < cells.len() && (#[trigger] cells[k]).0 + col == j && cells[k].1 + row == i
}

/// Every cell of the shape lies inside the grid when placed at
/// (`col`, `row`).
pub open spec fn cells_in_bounds(g: Seq<Seq<PieceColor>>, cells: Seq<(i8, i8)>, col: int, row: int) -> bool {
    forall|k: int|
        0 <= k < cells.len() ==> 0 <= (#[trigger] cells[k]).0 + col < g[0].len() && 0 <= cells[k].1
            + row < g.len()
}

/// The grid after a shape is stamped into it with the given color.
pub open spec fn locked_grid(
    g: Seq<Seq<PieceColor>>,
    cells: Seq<(i8, i8)>,
    col: int,
    row: int,
    color: PieceColor,
) -> Seq<Seq<PieceColor>> {
    Seq::new(
        g.len(),
        |i: int|
            Seq::new(
                g[i].len(),
                |j: int|
                    if covers(cells, col, row, i, j) {
                        color
                    } else {
                        g[i][j]
                    },
            ),
    )
}

/// Leftmost column offset of a non-empty cell set.
pub open spec fn cells_min_x(cells: Seq<(i8, i8)>) -> int
    decreases cells.len(),
{
    if cells.len() <= 1 {
        cells[0].0 as int
    } else if cells.last().0 < cells_min_x(cells.drop_last()) {
        cells.last().0 as int
    } else {
        cells_min_x(cells.drop_last())
    }
}

/// Rightmost column offset of a non-empty cell set.
pub open spec fn cells_max_x(cells: Seq<(i8, i8)>) -> int
    decreases cells.len(),
{
    if cells.len() <= 1 {
        cells[0].0 as int
    } else if cells.last().0 > cells_max_x(cells.drop_last()) {
        cells.last().0 as int
    } else {
        cells_max_x(cells.drop_last())
    }
}

/// Topmost row offset of a non-empty cell set.
pub open spec fn cells_min_y(cells: Seq<(i8, i8)>) -> int
    decreases cells.len(),
{
    if cells.len() <= 1 {
        cells[0].1 as int
    } else if cells.last().1 < cells_min_y(cells.drop_last()) {
        cells.last().1 as int
    } else {
        cells_min_y(cells.drop_last())
    }
}

/// Bottommost row offset of a non-empty cell set.
pub open spec fn cells_max_y(cells: Seq<(i8, i8)>) -> int
    decreases cells.len(),
{
    if cells.len() <= 1 {
        cells[0].1 as int
    } else if cells.last().1 > cells_max_y(cells.drop_last()) {
        cells.last().1 as int
    } else {
        cells_max_y(cells.drop_last())
    }
}

/// The four extreme offsets bound every cell, and each is attained.
pub proof fn lemma_cells_extremes(cells: Seq<(i8, i8)>)
    requires
        cells.len() > 0,
    ensures
        forall|k: int|
            0 <= k < cells.len() ==> cells_min_x(cells) <= (#[trigger] cells[k]).0
                <= cells_max_x(cells) && cells_min_y(cells) <= cells[k].1 <= cells_max_y(cells),
        exists|k: int| 0 <= k < cells.len() && (#[trigger] cells[k]).0 == cells_min_x(cells),
    decreases cells.len(),
{
    if cells.len() == 1 {
        assert(cells[0].0 == cells_min_x(cells));
    } else {
        lemma_cells_extremes(cells.drop_last());
        assert(forall|k: int|
            0 <= k < cells.len() - 1 ==> cells.drop_last()[k] == (#[trigger] cells[k]));
        if cells.last().0 < cells_min_x(cells.drop_last()) {
            assert(cells[cells.len() - 1].0 == cells_min_x(cells));
        } else {
            let k0 = choose|k: int|
                0 <= k < cells.drop_last().len() && (#[trigger] cells.drop_last()[k]).0
                    == cells_min_x(cells.drop_last());
            assert(cells[k0].0 == cells_min_x(cells));
        }
    }
}

/// Translating every cell by a fixed offset translates the four extremes
/// by the same offset.
pub proof fn lemma_cells_extremes_translate(s: Seq<(i8, i8)>, t: Seq<(i8, i8)>, dx: int, dy: int)
    requires
        s.len() == t.len(),
        s.len() > 0,
        forall|k: int| 0 <= k < s.len() ==> (#[trigger] t[k]).0 == s[k].0 + dx && t[k].1 == s[k].1
            + dy,
    ensures
        cells_min_x(t) == cells_min_x(s) + dx,
        cells_max_x(t) == cells_max_x(s) + dx,
        cells_min_y(t) == cells_min_y(s) + dy,
        cells_max_y(t) == cells_max_y(s) + dy,
    decreases s.len(),
{
    if s.len() > 1 {
        assert(forall|k: int|
            0 <= k < s.len() - 1 ==> (#[trigger] s.drop_last()[k]) == s[k] && t.drop_last()[k]
                == t[k]);
        lemma_cells_extremes_translate(s.drop_last(), t.drop_last(), dx, dy);
        assert(t.last().0 == s.last().0 + dx && t.last().1 == s.last().1 + dy);
    }
}

/// When every offset lies in [0, b), so do the four extremes.
pub proof fn lemma_cells_extremes_within(cells: Seq<(i8, i8)>, b: int)
    requires
        cells.len() > 0,
        forall|k: int| 0 <= k < cells.len() ==> 0 <= (#[trigger] cells[k]).0 < b && 0 <= cells[k].1 < b,
    ensures
        0 <= cells_min_x(cells) <= cells_max_x(cells) < b,
        0 <= cells_min_y(cells) <= cells_max_y(cells) < b,
    decreases cells.len(),
{
    if cells.len() > 1 {
        assert(forall|k: int|
            0 <= k < cells.len() - 1 ==> cells.drop_last()[k] == (#[trigger] cells[k]));
        lemma_cells_extremes_within(cells.drop_last(), b);
    }
}

/// Number of clockwise quarter-turns a rotation intent stands for.
pub open spec fn rot_amount_spec(a: RotationAction) -> int {
    match a {
        RotationAction::Idle => 0,
        RotationAction::RotateCW => 1,
        RotationAction::Rotate180 => 2,
        RotationAction::RotateCCW => 3,
    }
}

pub fn rot_amount(a: RotationAction) -> (r: usize)
    ensures
        r == rot_amount_spec(a),
{
    match a {
        RotationAction::Idle => 0,
        RotationAction::RotateCW => 1,
        RotationAction::Rotate180 => 2,
        RotationAction::RotateCCW => 3,
    }
}

/// The ordered kick candidates tried for a rotation from `from_rot` by
/// `amt` quarter-turns with kick table `kt`.
pub open spec fn kick_candidates(kick_data: Seq<KickData>, kt: int, from_rot: int, amt: int) -> Seq<(i8, i8)> {
    kick_data[kt]@[from_rot]@[amt - 1]@
}

/// Index of the first kick candidate whose offset leads to a non-colliding
/// placement of `cells`, if any.
pub open spec fn first_kick(
    g: Seq<Seq<PieceColor>>,
    cells: Seq<(i8, i8)>,
    col: int,
    row: int,
    kicks: Seq<(i8, i8)>,
) -> Option<int>
    decreases kicks.len(),
{
    if kicks.len() == 0 {
        None
    } else if !shape_hits(g, cells, col + kicks[0].0, row + kicks[0].1) {
        Some(0int)
    } else {
        match first_kick(g, cells, col, row, kicks.drop_first()) {
            Option::None => Option::<int>::None,
            Option::Some(i) => Option::Some(i + 1),
        }
    }
}

proof fn lemma_first_kick_found(
    g: Seq<Seq<PieceColor>>,
    cells: Seq<(i8, i8)>,
    col: int,
    row: int,
    kicks: Seq<(i8, i8)>,
    i: int,
)
    requires
        0 <= i < kicks.len(),
        forall|j: int|
            0 <= j < i ==> shape_hits(g, cells, col + (#[trigger] kicks[j]).0, row + kicks[j].1),
        !shape_hits(g, cells, col + kicks[i].0, row + kicks[i].1),
    ensures
        first_kick(g, cells, col, row, kicks) == Some(i),
    decreases i,
{
    if i == 0 {
    } else {
        assert(shape_hits(g, cells, col + kicks[0].0, row + kicks[0].1));
        let rest = kicks.drop_first();
        assert(rest[i - 1] == kicks[i]);
        assert forall|j: int|
            0 <= j < i - 1 implies shape_hits(
            g,
            cells,
            col + (#[trigger] rest[j]).0,
            row + rest[j].1,
        ) by {
            assert(rest[j] == kicks[j + 1]);
        }
        lemma_first_kick_found(g, cells, col, row, rest, i - 1);
    }
}

proof fn lemma_first_kick_none(
    g: Seq<Seq<PieceColor>>,
    cells: Seq<(i8, i8)>,
    col: int,
    row: int,
    kicks: Seq<(i8, i8)>,
)
    requires
        forall|j: int|
            0 <= j < kicks.len() ==> shape_hits(
                g,
                cells,
                col + (#[trigger] kicks[j]).0,
                row + kicks[j].1,
            ),
    ensures
        first_kick(g, cells, col, row, kicks) is None,
    decreases kicks.len(),
{
    if kicks.len() > 0 {
        let rest = kicks.drop_first();
        assert forall|j: int|
            0 <= j < rest.len() implies shape_hits(
            g,
            cells,
            col + (#[trigger] rest[j]).0,
            row + rest[j].1,
        ) by {
            assert(rest[j] == kicks[j + 1]);
        }
        lemma_first_kick_none(g, cells, col, row, rest);
    }
}

impl Piece {
    /// The relative cells of the piece in the given rotation state.
    pub open spec fn shape_cells(self, rot: int) -> Seq<(i8, i8)> {
        self.shape@[rot]@
    }

    /// Structural well-formedness of a piece, independent of any board.
    pub open spec fn wf(self) -> bool {
        &&& self.rotation < 4
        &&& shape_wf(self.shape)
    }

    /// Whether the piece, shifted by (`d_col`, `d_row`) and put in rotation
    /// state `rot`, would collide.
    pub open spec fn hits(self, g: Seq<Seq<PieceColor>>, d_col: int, d_row: int, rot: int) -> bool {
        shape_hits(
            g,
            self.shape_cells(rot),
            self.position.col + d_col,
            self.position.row + d_row,
        )
    }

    pub fn new(shape: PieceShape, color: PieceColor, kick_table: usize, spin_bonus: bool) -> (r: Piece)
        ensures
            r.position.col == 0,
            r.position.row == 0,
            r.shape == shape,
            r.color == color,
            r.kick_table == kick_table,
            r.rotation == 0,
            r.ghost_position == 0,
            r.spin_bonus == spin_bonus,
            !r.last_move_was_rotation,
    {
        Piece {
            position: Position { col: 0, row: 0 },
            shape,
            color,
            kick_table,
            rotation: 0,
            ghost_position: 0,
            spin_bonus,
            last_move_was_rotation: false,
        }
    }

    /// Single authority for all legality checks: true exactly when the given
    /// movement and rotation would leave the board or land on an occupied
    /// cell.
    pub fn check_collision(&self, matrix: &Matrix, h_dir: i32, v_dir: i32, rotation: usize) -> (r: bool)
        requires
            rotation < 4,
            grid_wf(grid(matrix@)),
            grid_bounded(grid(matrix@)),
        ensures
            r == self.hits(grid(matrix@), h_dir as int, v_dir as int, rotation as int),
    {
        let ghost g = grid(matrix@);
        let width = matrix[0].len();
        let height = matrix.len();
        let cells = &self.shape[rotation];
        let mut k: usize = 0;
        while k < cells.len()
            invariant
                k <= cells@.len(),
                cells@ == self.shape_cells(rotation as int),
                rotation < 4,
                g == grid(matrix@),
                grid_wf(g),
                grid_bounded(g),
                width == g[0].len(),
                height == g.len(),
                height == matrix@.len(),
                forall|j: int|
                    0 <= j < k ==> !cell_blocked(
                        g,
                        (#[trigger] cells@[j]).0 + self.position.col + h_dir,
                        cells@[j].1 + self.position.row + v_dir,
                    ),
            decreases cells@.len() - k,
        {
            let (rel_col, rel_row) = cells[k];
            let c = rel_col as i64 + self.position.col as i64 + h_dir as i64;
            let r = rel_row as i64 + self.position.row as i64 + v_dir as i64;
            if c < 0 || r < 0 || c >= width as i64 || r >= height as i64 {
                return true;
            }
            let cu = c as usize;
            let ru = r as usize;
            proof {
                assert(g[ru as int] == matrix@[ru as int]@);
            }
            if matrix[ru][cu] != PieceColor::Empty {
                return true;
            }
            proof {
                assert(g[ru as int][cu as int] == matrix@[ru as int]@[cu as int]);
                assert(!cell_blocked(
                    g,
                    cells@[k as int].0 + self.position.col + h_dir,
                    cells@[k as int].1 + self.position.row + v_dir,
                ));
            }
            k += 1;
        }
        false
    }

    /// Tries to move the piece one cell in the given directions.  An illegal
    /// move is not an error: the piece is left untouched and `false` comes
    /// back.  On success the position is updated, the ghost row recomputed,
    /// and a non-zero horizontal component marks the last transform as "not
    /// a rotation".
    pub fn movement(&mut self, matrix: &Matrix, h_dir: HDirection, v_dir: VDirection) -> (r: bool)
        requires
            old(self).wf(),
            grid_wf(grid(matrix@)),
            grid_bounded(grid(matrix@)),
        ensures
            r == !old(self).hits(
                grid(matrix@),
                h_offset_spec(h_dir),
                v_offset_spec(v_dir),
                old(self).rotation as int,
            ),
            !r ==> *final(self) == *old(self),
            r ==> final(self).position.col == old(self).position.col + h_offset_spec(h_dir)
                && final(self).position.row == old(self).position.row + v_offset_spec(v_dir)
                && final(self).ghost_position == ghost_row_spec(
                grid(matrix@),
                old(self).shape_cells(old(self).rotation as int),
                old(self).position.col + h_offset_spec(h_dir),
                old(self).position.row + v_offset_spec(v_dir),
            ) && final(self).last_move_was_rotation == (if h_dir == HDirection::Idle {
                old(self).last_move_was_rotation
            } else {
                false
            }),
            final(self).rotation == old(self).rotation,
            final(self).shape == old(self).shape,
            final(self).color == old(self).color,
            final(self).kick_table == old(self).kick_table,
            final(self).spin_bonus == old(self).spin_bonus,
            final(self).wf(),
    {
        let h = h_offset(h_dir);
        let v = v_offset(v_dir);
        if self.check_collision(matrix, h, v, self.rotation) {
            return false;
        }
        proof {
            let g = grid(matrix@);
            let cells = self.shape_cells(self.rotation as int);
            assert forall|k: int| 0 <= k < cells.len() implies 0 <= (#[trigger] cells[k]).0
                + self.position.col + h < g[0].len() && cells[k].1 + self.position.row + v
                >= 0 by {
                assert(!cell_blocked(
                    g,
                    cells[k].0 + self.position.col + h,
                    cells[k].1 + self.position.row + v,
                ));
            }
            assert(0 <= cells[0].0 + self.position.col + h < g[0].len());
            assert(0 <= cells[0].1 + self.position.row + v < g.len());
        }
        self.position.col = self.position.col + h;
        self.position.row = self.position.row + v;
        self.update_ghost(matrix);
        match h_dir {
            HDirection::Left | HDirection::Right => {
                self.last_move_was_rotation = false;
            },
            _ => {},
        }
        true
    }

    /// Recomputes the ghost row: for every occupied relative cell, the run
    /// of empty cells downward is counted, and the piece may fall by one
    /// less than the smallest such run (clamped at the current row).
    pub fn update_ghost(&mut self, matrix: &Matrix)
        requires
            old(self).wf(),
            grid_wf(grid(matrix@)),
            grid_bounded(grid(matrix@)),
            ghost_scan_ok(
                grid(matrix@),
                old(self).shape_cells(old(self).rotation as int),
                old(self).position.col as int,
                old(self).position.row as int,
            ),
        ensures
            final(self).ghost_position == ghost_row_spec(
                grid(matrix@),
                old(self).shape_cells(old(self).rotation as int),
                old(self).position.col as int,
                old(self).position.row as int,
            ),
            final(self).position == old(self).position,
            final(self).rotation == old(self).rotation,
            final(self).shape == old(self).shape,
            final(self).color == old(self).color,
            final(self).kick_table == old(self).kick_table,
            final(self).spin_bonus == old(self).spin_bonus,
            final(self).last_move_was_rotation == old(self).last_move_was_rotation,
            final(self).wf(),
    {
        let ghost g = grid(matrix@);
        let ghost cells = self.shape_cells(self.rotation as int);
        let ghost pcol = self.position.col as int;
        let ghost prow = self.position.row as int;
        let width = matrix[0].len();
        let height = matrix.len();
        let shape_row = &self.shape[self.rotation];
        let mut min_fall: usize = height;
        let mut k: usize = 0;
        proof {
            lemma_min_fall_from_le(g, cells, pcol, prow, 0);
            assert forall|t: int| 0 <= t < matrix@.len() implies (#[trigger] matrix@[t])@.len()
                == width by {
                assert(grid(matrix@)[t] == matrix@[t]@);
            }
        }
        while k < shape_row.len()
            invariant
                k <= cells.len(),
                shape_row@ == cells,
                g == grid(matrix@),
                grid_wf(g),
                grid_bounded(g),
                width == g[0].len(),
                height == g.len(),
                height == matrix@.len(),
                forall|t: int| 0 <= t < matrix@.len() ==> (#[trigger] matrix@[t])@.len() == width,
                pcol == self.position.col as int,
                prow == self.position.row as int,
                min_fall <= height,
                ghost_scan_ok(g, cells, pcol, prow),
                min_fall_from(g, cells, pcol, prow, 0) == min_nat(
                    min_fall as nat,
                    min_fall_from(g, cells, pcol, prow, k as int),
                ),
            decreases cells.len() - k,
        {
            proof {
                assert(0 <= cells[k as int].0 + pcol < g[0].len());
                assert(cells[k as int].1 + prow >= 0);
            }
            let (rel_col, rel_row) = shape_row[k];
            let c = rel_col as i64 + self.position.col as i64;
            let r = rel_row as i64 + self.position.row as i64;
            let cu = c as usize;
            let mut cur = r as usize;
            let mut fall: usize = 0;
            while cur < height && matrix[cur][cu] == PieceColor::Empty
                invariant
                    g == grid(matrix@),
                    grid_wf(g),
                    width == g[0].len(),
                    height == g.len(),
                    height == matrix@.len(),
                    forall|t: int|
                        0 <= t < matrix@.len() ==> (#[trigger] matrix@[t])@.len() == width,
                    cu < width,
                    r >= 0,
                    cur >= r,
                    fall == cur - r,
                    fall_len(g, cu as int, r as int) == fall + fall_len(g, cu as int, cur as int),
                decreases height - cur,
            {
                proof {
                    assert(g[cur as int] == matrix@[cur as int]@);
                    assert(g[cur as int][cu as int] == PieceColor::Empty);
                }
                fall += 1;
                cur += 1;
            }
            proof {
                if cur < height {
                    assert(g[cur as int] == matrix@[cur as int]@);
                }
                assert(fall_len(g, cu as int, cur as int) == 0);
                assert(fall_len(g, cells[k as int].0 + pcol, cells[k as int].1 + prow) == fall);
                lemma_min_fall_from_le(g, cells, pcol, prow, k as int + 1);
            }
            if fall < min_fall {
                min_fall = fall;
            }
            k += 1;
        }
        proof {
            assert(min_fall as nat == min_fall_from(g, cells, pcol, prow, 0));
            if min_fall > 0 {
                assert(cells.len() > 0);
                assert(min_fall_from(g, cells, pcol, prow, 0) <= fall_len(
                    g,
                    cells[0].0 + pcol,
                    cells[0].1 + prow,
                ));
                let r0 = cells[0].1 + prow;
                assert(fall_len(g, cells[0].0 + pcol, r0) > 0);
                assert(0 <= r0 < g.len());
                lemma_fall_len_le(g, cells[0].0 + pcol, r0);
                assert(prow + min_fall - 1 < g.len());
                assert(prow >= -128);
            }
        }
        self.ghost_position = if min_fall > 0 {
            self.position.row + min_fall as i32 - 1
        } else {
            self.position.row
        };
    }

    /// Tries to rotate the piece.  If the in-place target state collides,
    /// the kick table's candidate offsets for `[current][amount - 1]` are
    /// tried in order and the first fitting one is applied; the rotation
    /// fails only if none fits.  On success the ghost row is recomputed and
    /// the last transform is marked as a rotation.
    pub fn rotate(&mut self, matrix: &Matrix, kick_data: &Vec<KickData>, rotation: RotationAction) -> (r: bool)
        requires
            old(self).wf(),
            grid_wf(grid(matrix@)),
            grid_bounded(grid(matrix@)),
            old(self).kick_table < kick_data@.len(),
            rot_amount_spec(rotation) >= 1,
        ensures
            ({
                let g = grid(matrix@);
                let tgt = (old(self).rotation + rot_amount_spec(rotation)) % 4;
                let cells = old(self).shape_cells(tgt);
                let kicks = kick_candidates(
                    kick_data@,
                    old(self).kick_table as int,
                    old(self).rotation as int,
                    rot_amount_spec(rotation),
                );
                if !old(self).hits(g, 0, 0, tgt) {
                    &&& r
                    &&& final(self).rotation == tgt
                    &&& final(self).position == old(self).position
                    &&& final(self).ghost_position == ghost_row_spec(
                        g,
                        cells,
                        old(self).position.col as int,
                        old(self).position.row as int,
                    )
                    &&& final(self).last_move_was_rotation
                } else {
                    match first_kick(
                        g,
                        cells,
                        old(self).position.col as int,
                        old(self).position.row as int,
                        kicks,
                    ) {
                        Option::None => !r && *final(self) == *old(self),
                        Option::Some(i) => {
                            &&& r
                            &&& final(self).rotation == tgt
                            &&& final(self).position.col == old(self).position.col + kicks[i].0
                            &&& final(self).position.row == old(self).position.row + kicks[i].1
                            &&& final(self).ghost_position == ghost_row_spec(
                                g,
                                cells,
                                old(self).position.col + kicks[i].0,
                                old(self).position.row + kicks[i].1,
                            )
                            &&& final(self).last_move_was_rotation
                        },
                    }
                }
            }),
            final(self).shape == old(self).shape,
            final(self).color == old(self).color,
            final(self).kick_table == old(self).kick_table,
            final(self).spin_bonus == old(self).spin_bonus,
            final(self).wf(),
    {
        let amt = rot_amount(rotation);
        let target_rotation = (self.rotation + amt) % 4;
        if self.check_collision(matrix, 0, 0, target_rotation) {
            return self.wall_kick(matrix, kick_data, rotation);
        }
        self.rotation = target_rotation;
        self.update_ghost(matrix);
        self.last_move_was_rotation = true;
        true
    }

    /// Iterates the kick table's candidate offsets in order and applies the
    /// first one whose resulting position and rotation do not collide.
    fn wall_kick(&mut self, matrix: &Matrix, kick_data: &Vec<KickData>, rotation: RotationAction) -> (r: bool)
        requires
            old(self).wf(),
            grid_wf(grid(matrix@)),
            grid_bounded(grid(matrix@)),
            old(self).kick_table < kick_data@.len(),
            rot_amount_spec(rotation) >= 1,
            old(self).hits(
                grid(matrix@),
                0,
                0,
                (old(self).rotation + rot_amount_spec(rotation)) % 4,
            ),
        ensures
            ({
                let g = grid(matrix@);
                let tgt = (old(self).rotation + rot_amount_spec(rotation)) % 4;
                let cells = old(self).shape_cells(tgt);
                let kicks = kick_candidates(
                    kick_data@,
                    old(self).kick_table as int,
                    old(self).rotation as int,
                    rot_amount_spec(rotation),
                );
                match first_kick(
                    g,
                    cells,
                    old(self).position.col as int,
                    old(self).position.row as int,
                    kicks,
                ) {
                    Option::None => !r && *final(self) == *old(self),
                    Option::Some(i) => {
                        &&& r
                        &&& final(self).rotation == tgt
                        &&& final(self).position.col == old(self).position.col + kicks[i].0
                        &&& final(self).position.row == old(self).position.row + kicks[i].1
                        &&& final(self).ghost_position == ghost_row_spec(
                            g,
                            cells,
                            old(self).position.col + kicks[i].0,
                            old(self).position.row + kicks[i].1,
                        )
                        &&& final(self).last_move_was_rotation
                    },
                }
            }),
            final(self).shape == old(self).shape,
            final(self).color == old(self).color,
            final(self).kick_table == old(self).kick_table,
            final(self).spin_bonus == old(self).spin_bonus,
            final(self).wf(),
    {
        let ghost g = grid(matrix@);
        let amt = rot_amount(rotation);
        let target_rotation = (self.rotation + amt) % 4;
        let ghost cells = self.shape_cells(target_rotation as int);
        let ghost pcol = self.position.col as int;
        let ghost prow = self.position.row as int;
        let table = &kick_data[self.kick_table];
        let from_rot = self.rotation;
        let kick_movements = &table[from_rot][amt - 1];
        let ghost kicks = kick_candidates(
            kick_data@,
            self.kick_table as int,
            self.rotation as int,
            amt as int,
        );
        let mut i: usize = 0;
        while i < kick_movements.len()
            invariant
                i <= kicks.len(),
                kick_movements@ == kicks,
                g == grid(matrix@),
                grid_wf(g),
                grid_bounded(g),
                *self == *old(self),
                self.wf(),
                target_rotation == (self.rotation + amt) % 4,
                amt == rot_amount_spec(rotation),
                from_rot == self.rotation,
                kicks == kick_candidates(
                    kick_data@,
                    self.kick_table as int,
                    self.rotation as int,
                    rot_amount_spec(rotation),
                ),
                cells == self.shape_cells(target_rotation as int),
                pcol == self.position.col as int,
                prow == self.position.row as int,
                forall|j: int|
                    0 <= j < i ==> shape_hits(
                        g,
                        cells,
                        pcol + (#[trigger] kicks[j]).0,
                        prow + kicks[j].1,
                    ),
            decreases kicks.len() - i,
        {
            let (h, v) = kick_movements[i];
            if !self.check_collision(matrix, h as i32, v as i32, target_rotation) {
                proof {
                    lemma_first_kick_found(g, cells, pcol, prow, kicks, i as int);
                    assert forall|k: int| 0 <= k < cells.len() implies 0 <= (#[trigger] cells[k]).0
                        + self.position.col + h < g[0].len() && cells[k].1 + self.position.row + v
                        >= 0 by {
                        assert(!cell_blocked(
                            g,
                            cells[k].0 + self.position.col + h,
                            cells[k].1 + self.position.row + v,
                        ));
                    }
                    assert(!cell_blocked(
                        g,
                        cells[0].0 + self.position.col + h as int,
                        cells[0].1 + self.position.row + v as int,
                    ));
                }
                self.rotation = target_rotation;
                self.position.col = self.position.col + h as i32;
                self.position.row = self.position.row + v as i32;
                self.update_ghost(matrix);
                self.last_move_was_rotation = true;
                return true;
            }
            i += 1;
        }
        proof {
            lemma_first_kick_none(g, cells, pcol, prow, kicks);
        }
        false
    }

    /// True when the piece cannot fall one more row: the single-cell-down
    /// query collides.
    pub fn is_grounded(&self, matrix: &Matrix) -> (r: bool)
        requires
            self.wf(),
            grid_wf(grid(matrix@)),
            grid_bounded(grid(matrix@)),
        ensures
            r == self.hits(grid(matrix@), 0, 1, self.rotation as int),
    {
        self.check_collision(matrix, 0, 1, self.rotation)
    }

    /// Snaps the piece to its precomputed ghost row; the caller is
    /// responsible for locking it afterwards.
    pub fn hard_drop(&mut self)
        ensures
            final(self).position.row == old(self).ghost_position,
            final(self).position.col == old(self).position.col,
            final(self).rotation == old(self).rotation,
            final(self).shape == old(self).shape,
            final(self).color == old(self).color,
            final(self).kick_table == old(self).kick_table,
            final(self).ghost_position == old(self).ghost_position,
            final(self).spin_bonus == old(self).spin_bonus,
            final(self).last_move_was_rotation == old(self).last_move_was_rotation,
    {
        self.position.row = self.ghost_position;
    }

    /// Copies the piece's absolute cells into the board using its color.
    /// The piece is consumed by the caller afterwards.
    pub fn lock(&self, matrix: &mut Matrix)
        requires
            self.wf(),
            grid_wf(grid(old(matrix)@)),
            cells_in_bounds(
                grid(old(matrix)@),
                self.shape_cells(self.rotation as int),
                self.position.col as int,
                self.position.row as int,
            ),
        ensures
            grid(final(matrix)@) == locked_grid(
                grid(old(matrix)@),
                self.shape_cells(self.rotation as int),
                self.position.col as int,
                self.position.row as int,
                self.color,
            ),
            grid_wf(grid(final(matrix)@)),
            final(matrix)@.len() == old(matrix)@.len(),
            grid(final(matrix)@)[0].len() == grid(old(matrix)@)[0].len(),
    {
        let ghost g0 = grid(old(matrix)@);
        let ghost cells = self.shape_cells(self.rotation as int);
        let ghost pcol = self.position.col as int;
        let ghost prow = self.position.row as int;
        let shape_row = &self.shape[self.rotation];
        let mut k: usize = 0;
        while k < shape_row.len()
            invariant
                k <= cells.len(),
                shape_row@ == cells,
                grid_wf(g0),
                cells_in_bounds(g0, cells, pcol, prow),
                pcol == self.position.col as int,
                prow == self.position.row as int,
                matrix@.len() == g0.len(),
                forall|i: int| 0 <= i < g0.len() ==> (#[trigger] grid(matrix@)[i]).len() == g0[i].len(),
                forall|i: int, j: int|
                    0 <= i < g0.len() && 0 <= j < g0[i].len() ==> #[trigger] grid(matrix@)[i][j]
                        == if covers(cells.take(k as int), pcol, prow, i, j) {
                        self.color
                    } else {
                        g0[i][j]
                    },
            decreases cells.len() - k,
        {
            let (rel_col, rel_row) = shape_row[k];
            proof {
                assert(0 <= cells[k as int].0 + pcol < g0[0].len());
                assert(0 <= cells[k as int].1 + prow < g0.len());
            }
            let c = (rel_col as i64 + self.position.col as i64) as usize;
            let r = (rel_row as i64 + self.position.row as i64) as usize;
            let ghost pre = grid(matrix@);
            let ghost pre_m = matrix@;
            proof {
                assert(grid(matrix@)[r as int] == matrix@[r as int]@);
            }
            matrix[r][c] = self.color;
            proof {
                let now = grid(matrix@);
                assert(matrix@[r as int]@ == pre[r as int].update(c as int, self.color));
                assert(matrix@.len() == pre_m.len());
                assert forall|i: int| 0 <= i < g0.len() implies (#[trigger] now[i]).len()
                    == g0[i].len() by {
                    assert(now[i] == matrix@[i]@);
                    assert(pre[i] == pre_m[i]@);
                    if i == r as int {
                        assert(matrix@[i]@ == pre[i].update(c as int, self.color));
                    } else {
                        assert(matrix@[i] == pre_m[i]);
                    }
                }
                assert forall|i: int, j: int|
                    0 <= i < g0.len() && 0 <= j < g0[i].len() implies #[trigger] now[i][j] == (
                if covers(cells.take(k as int + 1), pcol, prow, i, j) {
                    self.color
                } else {
                    g0[i][j]
                }) by {
                    assert(now[i] == matrix@[i]@);
                    assert(pre[i] == pre_m[i]@);
                    if i != r as int {
                        assert(matrix@[i] == pre_m[i]);
                    } else {
                        assert(matrix@[i]@ == pre[i].update(c as int, self.color));
                    }
                    if i == r as int && j == c as int {
                        assert(cells.take(k as int + 1)[k as int] == cells[k as int]);
                        assert(covers(cells.take(k as int + 1), pcol, prow, i, j));
                    } else {
                        assert(now[i][j] == pre[i][j]);
                        if covers(cells.take(k as int + 1), pcol, prow, i, j) {
                            let w = choose|w: int|
                                0 <= w < cells.take(k as int + 1).len() && (#[trigger] cells.take(
                                    k as int + 1,
                                )[w]).0 + pcol == j && cells.take(k as int + 1)[w].1 + prow == i;
                            if w < k as int {
                                assert(cells.take(k as int)[w] == cells[w]);
                                assert(covers(cells.take(k as int), pcol, prow, i, j));
                            }
                        } else {
                            if covers(cells.take(k as int), pcol, prow, i, j) {
                                let w = choose|w: int|
                                    0 <= w < cells.take(k as int).len() && (#[trigger] cells.take(
                                        k as int,
                                    )[w]).0 + pcol == j && cells.take(k as int)[w].1 + prow == i;
                                assert(cells.take(k as int + 1)[w] == cells[w]);
                                assert(covers(cells.take(k as int + 1), pcol, prow, i, j));
                            }
                        }
                    }
                }
            }
            k += 1;
        }
        proof {
            assert(cells.take(cells.len() as int) =~= cells);
            assert(grid(matrix@) =~~= locked_grid(g0, cells, pcol, prow, self.color));
        }
    }

    /// Spin-bonus test: the piece definition must be bonus-eligible, the
    /// last successful transform a rotation, and the piece wedged on three
    /// sides (up, left and right all collide).
    pub fn check_bonus(&self, matrix: &Matrix) -> (r: bool)
        requires
            self.wf(),
            grid_wf(grid(matrix@)),
            grid_bounded(grid(matrix@)),
        ensures
            r == (self.spin_bonus && self.last_move_was_rotation && self.hits(
                grid(matrix@),
                0,
                -1,
                self.rotation as int,
            ) && self.hits(grid(matrix@), -1, 0, self.rotation as int) && self.hits(
                grid(matrix@),
                1,
                0,
                self.rotation as int,
            )),
    {
        if !self.spin_bonus || !self.last_move_was_rotation {
            return false;
        }
        let collides_up = self.check_collision(matrix, 0, -1, self.rotation);
        let collides_left = self.check_collision(matrix, -1, 0, self.rotation);
        let collides_right = self.check_collision(matrix, 1, 0, self.rotation);
        collides_up && collides_left && collides_right
    }

    /// Recenters the piece horizontally using its tightest bounding box,
    /// resets the rotation state to 0, and recomputes the ghost row.
    pub fn reset_position(&mut self, matrix: &Matrix)
        requires
            old(self).wf(),
            grid_wf(grid(matrix@)),
            grid_bounded(grid(matrix@)),
            cells_max_x(old(self).shape_cells(0)) - cells_min_x(old(self).shape_cells(0)) + 1
                <= grid(matrix@)[0].len(),
        ensures
            final(self).position.col == (grid(matrix@)[0].len() - (cells_max_x(
                old(self).shape_cells(0),
            ) - cells_min_x(old(self).shape_cells(0)) + 1)) / 2 - cells_min_x(
                old(self).shape_cells(0),
            ),
            final(self).position.row == 0,
            final(self).rotation == 0,
            final(self).ghost_position == ghost_row_spec(
                grid(matrix@),
                old(self).shape_cells(0),
                final(self).position.col as int,
                0,
            ),
            final(self).shape == old(self).shape,
            final(self).color == old(self).color,
            final(self).kick_table == old(self).kick_table,
            final(self).spin_bonus == old(self).spin_bonus,
            final(self).last_move_was_rotation == old(self).last_move_was_rotation,
            final(self).wf(),
    {
        let ghost g = grid(matrix@);
        let (width, _) = shape_dimensions(&self.shape[0]);
        let (leftmost, _) = shape_top_left(&self.shape[0]);
        proof {
            lemma_cells_extremes(self.shape_cells(0));
        }
        let initial_column = ((matrix[0].len() - width) / 2) as i32 - leftmost;
        self.position.col = initial_column;
        self.position.row = 0;
        self.rotation = 0;
        proof {
            let cells = self.shape_cells(0);
            assert forall|k: int| 0 <= k < cells.len() implies 0 <= (#[trigger] cells[k]).0
                + self.position.col < g[0].len() && cells[k].1 + self.position.row >= 0 by {
                assert(cells_min_x(cells) <= cells[k].0 <= cells_max_x(cells));
            }
        }
        self.update_ghost(matrix);
    }

    /// The piece's cells in its current rotation state.
    pub fn get_orientation(&self) -> (r: &Vec<(i8, i8)>)
        requires
            self.wf(),
        ensures
            r@ == self.shape_cells(self.rotation as int),
    {
        &self.shape[self.rotation]
    }
}

pub proof fn lemma_fall_len_bound(g: Seq<Seq<PieceColor>>, c: int, r: int)
    ensures
        fall_len(g, c, r) <= g.len(),
{
    if 0 <= r <= g.len() {
        lemma_fall_len_le(g, c, r);
    }
}

/// The minimum fall run is no larger than any single cell's run.
pub proof fn lemma_min_fall_le_each(
    g: Seq<Seq<PieceColor>>,
    cells: Seq<(i8, i8)>,
    col: int,
    row: int,
    j: int,
    k: int,
)
    requires
        0 <= j <= k < cells.len(),
    ensures
        min_fall_from(g, cells, col, row, j) <= fall_len(g, cells[k].0 + col, cells[k].1 + row),
    decreases k - j,
{
    if j < k {
        lemma_min_fall_le_each(g, cells, col, row, j + 1, k);
    }
}

/// The minimum fall run is attained by some cell.
pub proof fn lemma_min_fall_attained(
    g: Seq<Seq<PieceColor>>,
    cells: Seq<(i8, i8)>,
    col: int,
    row: int,
    j: int,
)
    requires
        0 <= j < cells.len(),
    ensures
        exists|k: int|
            j <= k < cells.len() && fall_len(g, (#[trigger] cells[k]).0 + col, cells[k].1 + row)
                == min_fall_from(g, cells, col, row, j),
    decreases cells.len() - j,
{
    lemma_fall_len_bound(g, cells[j].0 + col, cells[j].1 + row);
    if j == cells.len() - 1 {
        assert(min_fall_from(g, cells, col, row, j + 1) == g.len());
        assert(fall_len(g, cells[j].0 + col, cells[j].1 + row) == min_fall_from(
            g,
            cells,
            col,
            row,
            j,
        ));
    } else {
        lemma_min_fall_attained(g, cells, col, row, j + 1);
        let k0 = choose|k: int|
            j + 1 <= k < cells.len() && fall_len(g, (#[trigger] cells[k]).0 + col, cells[k].1 + row)
                == min_fall_from(g, cells, col, row, j + 1);
        if fall_len(g, cells[j].0 + col, cells[j].1 + row) <= min_fall_from(g, cells, col, row, j + 1) {
            assert(fall_len(g, cells[j].0 + col, cells[j].1 + row) == min_fall_from(
                g,
                cells,
                col,
                row,
                j,
            ));
        } else {
            assert(fall_len(g, cells[k0].0 + col, cells[k0].1 + row) == min_fall_from(
                g,
                cells,
                col,
                row,
                j,
            ));
        }
    }
}

/// Every row passed through by a fall run is empty and on the board.
pub proof fn lemma_fall_run(g: Seq<Seq<PieceColor>>, c: int, r: int, d: int)
    requires
        0 <= d < fall_len(g, c, r),
    ensures
        0 <= r + d < g.len(),
        g[r + d][c] == PieceColor::Empty,
    decreases d,
{
    if d > 0 {
        lemma_fall_run(g, c, r + 1, d - 1);
    }
}

/// A fall run stops at the board's bottom or at an occupied cell.
pub proof fn lemma_fall_stop(g: Seq<Seq<PieceColor>>, c: int, r: int)
    requires
        r >= 0,
    ensures
        r + fall_len(g, c, r) >= g.len() || g[r + fall_len(g, c, r)][c] != PieceColor::Empty,
    decreases g.len() - r,
{
    if r < g.len() && g[r][c] == PieceColor::Empty {
        lemma_fall_stop(g, c, r + 1);
    }
}

/// The ghost row is reachable: a non-colliding shape stays collision-free on
/// every row from its own down to the ghost row, and the ghost row never
/// lies above the current row.
pub proof fn lemma_ghost_reachable(g: Seq<Seq<PieceColor>>, cells: Seq<(i8, i8)>, col: int, row: int)
    requires
        grid_wf(g),
        cells.len() > 0,
        !shape_hits(g, cells, col, row),
    ensures
        ghost_row_spec(g, cells, col, row) >= row,
        forall|d: int|
            0 <= d <= ghost_row_spec(g, cells, col, row) - row ==> !#[trigger] shape_hits(
                g,
                cells,
                col,
                row + d,
            ),
{
    let mf = min_fall_from(g, cells, col, row, 0);
    assert forall|k: int| 0 <= k < cells.len() implies fall_len(
        g,
        (#[trigger] cells[k]).0 + col,
        cells[k].1 + row,
    ) >= 1 by {
        assert(!cell_blocked(g, cells[k].0 + col, cells[k].1 + row));
    }
    lemma_min_fall_attained(g, cells, col, row, 0);
    assert(mf >= 1);
    assert(ghost_row_spec(g, cells, col, row) == row + mf - 1);
    assert forall|d: int| 0 <= d <= mf - 1 implies !#[trigger] shape_hits(g, cells, col, row + d) by {
        assert forall|k: int| 0 <= k < cells.len() implies !cell_blocked(
            g,
            (#[trigger] cells[k]).0 + col,
            cells[k].1 + row + d,
        ) by {
            lemma_min_fall_le_each(g, cells, col, row, 0, k);
            lemma_fall_run(g, cells[k].0 + col, cells[k].1 + row, d);
        }
    }
}

/// Hard-dropping a non-colliding piece to its ghost row and locking it
/// there never leaves an occupied cell overlapping a previously filled
/// cell: every cell the lock will stamp is empty beforehand.
pub proof fn lemma_hard_drop_lock_overwrites_nothing(
    g: Seq<Seq<PieceColor>>,
    cells: Seq<(i8, i8)>,
    col: int,
    row: int,
)
    requires
        grid_wf(g),
        cells.len() > 0,
        !shape_hits(g, cells, col, row),
    ensures
        forall|k: int|
            0 <= k < cells.len() ==> g[(#[trigger] cells[k]).1 + ghost_row_spec(g, cells, col, row)][cells[k].0
                + col] == PieceColor::Empty,
{
    lemma_ghost_reachable(g, cells, col, row);
    let gr = ghost_row_spec(g, cells, col, row);
    assert(!shape_hits(g, cells, col, row + (gr - row)));
    assert forall|k: int| 0 <= k < cells.len() implies g[(#[trigger] cells[k]).1 + gr][cells[k].0
        + col] == PieceColor::Empty by {
        assert(!cell_blocked(g, cells[k].0 + col, cells[k].1 + (row + (gr - row))));
    }
}

/// At one row below the ghost row the shape collides: the ghost row is the
/// lowest reachable unobstructed row.
pub proof fn lemma_ghost_grounded(g: Seq<Seq<PieceColor>>, cells: Seq<(i8, i8)>, col: int, row: int)
    requires
        grid_wf(g),
        cells.len() > 0,
        !shape_hits(g, cells, col, row),
    ensures
        shape_hits(g, cells, col, ghost_row_spec(g, cells, col, row) + 1),
{
    let mf = min_fall_from(g, cells, col, row, 0);
    assert forall|k: int| 0 <= k < cells.len() implies fall_len(
        g,
        (#[trigger] cells[k]).0 + col,
        cells[k].1 + row,
    ) >= 1 by {
        assert(!cell_blocked(g, cells[k].0 + col, cells[k].1 + row));
    }
    lemma_min_fall_attained(g, cells, col, row, 0);
    let k0 = choose|k: int|
        0 <= k < cells.len() && fall_len(g, (#[trigger] cells[k]).0 + col, cells[k].1 + row) == mf;
    assert(mf >= 1);
    let c0 = cells[k0].0 + col;
    let r0 = cells[k0].1 + row;
    assert(!cell_blocked(g, c0, r0));
    lemma_fall_stop(g, c0, r0);
    assert(ghost_row_spec(g, cells, col, row) + 1 == row + mf);
    assert(cell_blocked(g, c0, r0 + mf));
    assert(cells[k0].1 + (row + mf) == r0 + mf);
}

/// A non-colliding placement lies entirely on the board.
pub proof fn lemma_nohit_in_bounds(g: Seq<Seq<PieceColor>>, cells: Seq<(i8, i8)>, col: int, row: int)
    requires
        !shape_hits(g, cells, col, row),
    ensures
        cells_in_bounds(g, cells, col, row),
{
    assert forall|k: int| 0 <= k < cells.len() implies 0 <= (#[trigger] cells[k]).0 + col < g[0].len()
        && 0 <= cells[k].1 + row < g.len() by {
        assert(!cell_blocked(g, cells[k].0 + col, cells[k].1 + row));
    }
}

/// A shape whose cells lie on the board also lies on the board at its
/// ghost row.
pub proof fn lemma_ghost_cells_in_bounds(g: Seq<Seq<PieceColor>>, cells: Seq<(i8, i8)>, col: int, row: int)
    requires
        grid_wf(g),
        cells.len() > 0,
        cells_in_bounds(g, cells, col, row),
    ensures
        cells_in_bounds(g, cells, col, ghost_row_spec(g, cells, col, row)),
{
    let mf = min_fall_from(g, cells, col, row, 0);
    if mf > 0 {
        assert forall|k: int| 0 <= k < cells.len() implies 0 <= (#[trigger] cells[k]).0 + col < g[0].len()
            && 0 <= cells[k].1 + (row + mf - 1) < g.len() by {
            lemma_min_fall_le_each(g, cells, col, row, 0, k);
            let r0 = cells[k].1 + row;
            assert(fall_len(g, cells[k].0 + col, r0) >= mf);
            lemma_fall_run(g, cells[k].0 + col, r0, mf - 1);
        }
    }
}

/// Within an empty run, moving down shortens the remaining run one-for-one.
proof fn lemma_fall_sub(g: Seq<Seq<PieceColor>>, c: int, r: int, d: int)
    requires
        0 <= d < fall_len(g, c, r),
    ensures
        fall_len(g, c, r + d) == fall_len(g, c, r) - d,
    decreases d,
{
    if d > 0 {
        lemma_fall_sub(g, c, r + 1, d - 1);
    }
}

/// The minimum fall run is at least `b` when every cell's run is.
proof fn lemma_min_fall_ge(
    g: Seq<Seq<PieceColor>>,
    cells: Seq<(i8, i8)>,
    col: int,
    row: int,
    k: int,
    b: nat,
)
    requires
        g.len() >= b,
        forall|j: int|
            k <= j < cells.len() ==> fall_len(g, (#[trigger] cells[j]).0 + col, cells[j].1 + row)
                >= b,
    ensures
        min_fall_from(g, cells, col, row, k) >= b,
    decreases cells.len() - k,
{
    if 0 <= k < cells.len() {
        lemma_min_fall_ge(g, cells, col, row, k + 1, b);
    }
}

/// The ghost row is a fixed point: dropping from the ghost row goes
/// nowhere.
pub proof fn lemma_ghost_idempotent(g: Seq<Seq<PieceColor>>, cells: Seq<(i8, i8)>, col: int, row: int)
    requires
        grid_wf(g),
        cells.len() > 0,
    ensures
        ghost_row_spec(g, cells, col, ghost_row_spec(g, cells, col, row)) == ghost_row_spec(
            g,
            cells,
            col,
            row,
        ),
{
    let mf = min_fall_from(g, cells, col, row, 0);
    if mf > 0 {
        let gr = row + mf - 1;
        assert forall|k: int| 0 <= k < cells.len() implies fall_len(
            g,
            (#[trigger] cells[k]).0 + col,
            cells[k].1 + gr,
        ) >= 1 by {
            lemma_min_fall_le_each(g, cells, col, row, 0, k);
            lemma_fall_sub(g, cells[k].0 + col, cells[k].1 + row, mf - 1);
        }
        lemma_min_fall_ge(g, cells, col, gr, 0, 1);
        lemma_min_fall_attained(g, cells, col, row, 0);
        let k0 = choose|k: int|
            0 <= k < cells.len() && fall_len(g, (#[trigger] cells[k]).0 + col, cells[k].1 + row)
                == mf;
        lemma_fall_sub(g, cells[k0].0 + col, cells[k0].1 + row, mf - 1);
        assert(fall_len(g, cells[k0].0 + col, cells[k0].1 + gr) == 1);
        lemma_min_fall_le_each(g, cells, col, gr, 0, k0);
        assert(min_fall_from(g, cells, col, gr, 0) == 1);
    }
}

/// A found first kick names an in-range candidate that fits.
pub proof fn lemma_first_kick_some(
    g: Seq<Seq<PieceColor>>,
    cells: Seq<(i8, i8)>,
    col: int,
    row: int,
    kicks: Seq<(i8, i8)>,
)
    requires
        first_kick(g, cells, col, row, kicks) is Some,
    ensures
        0 <= first_kick(g, cells, col, row, kicks)->0 < kicks.len(),
        !shape_hits(
            g,
            cells,
            col + kicks[first_kick(g, cells, col, row, kicks)->0].0,
            row + kicks[first_kick(g, cells, col, row, kicks)->0].1,
        ),
    decreases kicks.len(),
{
    if kicks.len() > 0 {
        if shape_hits(g, cells, col + kicks[0].0, row + kicks[0].1) {
            lemma_first_kick_some(g, cells, col, row, kicks.drop_first());
            let rest = kicks.drop_first();
            let i = first_kick(g, cells, col, row, rest)->0;
            assert(rest[i] == kicks[i + 1]);
        }
    }
}

/// In a valid placement (every cell on the board and on an empty cell) the
/// zero-delta, zero-rotation collision query against the piece's own
/// position answers false.
pub proof fn lemma_valid_state_no_collision(g: Seq<Seq<PieceColor>>, p: Piece)
    requires
        p.wf(),
        forall|k: int|
            0 <= k < p.shape_cells(p.rotation as int).len() ==> !cell_blocked(
                g,
                (#[trigger] p.shape_cells(p.rotation as int)[k]).0 + p.position.col,
                p.shape_cells(p.rotation as int)[k].1 + p.position.row,
            ),
    ensures
        !p.hits(g, 0, 0, p.rotation as int),
{
}

/// Width and height of a shape's tightest bounding box.
pub fn shape_dimensions(shape: &Vec<(i8, i8)>) -> (r: (usize, usize))
    requires
        shape@.len() > 0,
        cells_nonneg(shape@),
    ensures
        r.0 == cells_max_x(shape@) - cells_min_x(shape@) + 1,
        r.1 == cells_max_y(shape@) - cells_min_y(shape@) + 1,
{
    proof {
        lemma_cells_extremes(shape@);
    }
    let (first_x, first_y) = shape[0];
    let mut lo_x = first_x;
    let mut hi_x = first_x;
    let mut lo_y = first_y;
    let mut hi_y = first_y;
    let mut k: usize = 1;
    proof {
        assert(shape@.take(1).drop_last() =~= Seq::<(i8, i8)>::empty());
        assert(shape@.take(1)[0] == shape@[0]);
    }
    while k < shape.len()
        invariant
            1 <= k <= shape@.len(),
            cells_nonneg(shape@),
            lo_x == cells_min_x(shape@.take(k as int)),
            hi_x == cells_max_x(shape@.take(k as int)),
            lo_y == cells_min_y(shape@.take(k as int)),
            hi_y == cells_max_y(shape@.take(k as int)),
            lo_x <= hi_x,
            lo_y <= hi_y,
            lo_x >= 0,
            lo_y >= 0,
        decreases shape@.len() - k,
    {
        let (x, y) = shape[k];
        proof {
            assert(shape@.take(k as int + 1).drop_last() =~= shape@.take(k as int));
            assert(shape@.take(k as int + 1).last() == shape@[k as int]);
        }
        if x < lo_x {
            lo_x = x;
        }
        if x > hi_x {
            hi_x = x;
        }
        if y < lo_y {
            lo_y = y;
        }
        if y > hi_y {
            hi_y = y;
        }
        k += 1;
    }
    proof {
        assert(shape@.take(shape@.len() as int) =~= shape@);
    }
    ((hi_x as usize) - (lo_x as usize) + 1, (hi_y as usize) - (lo_y as usize) + 1)
}

/// Tightest top-left coordinate of the shape, used to ignore empty space in
/// the bounding box while centering pieces.
pub fn shape_top_left(shape: &Vec<(i8, i8)>) -> (r: (i32, i32))
    requires
        shape@.len() > 0,
    ensures
        r.0 == cells_min_x(shape@),
        r.1 == cells_min_y(shape@),
{
    let (first_x, first_y) = shape[0];
    let mut lo_x = first_x as i32;
    let mut lo_y = first_y as i32;
    let mut k: usize = 1;
    proof {
        assert(shape@.take(1).drop_last() =~= Seq::<(i8, i8)>::empty());
        assert(shape@.take(1)[0] == shape@[0]);
    }
    while k < shape.len()
        invariant
            1 <= k <= shape@.len(),
            lo_x == cells_min_x(shape@.take(k as int)),
            lo_y == cells_min_y(shape@.take(k as int)),
        decreases shape@.len() - k,
    {
        let (x, y) = shape[k];
        proof {
            assert(shape@.take(k as int + 1).drop_last() =~= shape@.take(k as int));
            assert(shape@.take(k as int + 1).last() == shape@[k as int]);
        }
        if (x as i32) < lo_x {
            lo_x = x as i32;
        }
        if (y as i32) < lo_y {
            lo_y = y as i32;
        }
        k += 1;
    }
    proof {
        assert(shape@.take(shape@.len() as int) =~= shape@);
    }
    (lo_x, lo_y)
}

} // verus!
