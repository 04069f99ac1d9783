//! The per-tick game orchestrator: timing state machine, action dispatch,
//! scoring, hold, line-clear integration and level progression.

use vstd::prelude::*;

verus! {

use crate::OFFSCREEN_ROWS;
use crate::board::{Matrix, grid, grid_wf, grid_bounded};
use crate::configuration::{
    EndCondition,
    GameMode,
    Ruleset,
    ScoreMultiplier,
    catalog_ok,
    gamemode_ok,
    ruleset_at_level,
    ruleset_models,
    ruleset_ok,
};
use crate::input::InputState;
use crate::piece::{
    HDirection,
    KickData,
    Piece,
    PieceType,
    Position,
    RotationAction,
    VDirection,
    cells_in_bounds,
    cells_max_x,
    cells_max_y,
    cells_min_x,
    ghost_row_spec,
    shape_wf,
};
use crate::randomizer::{Randomizer, batch_piece_ok, chaos_piece, piece_matches_type};

/// Monotonically increasing play counters; all times are in microseconds.
#[derive(Clone, Copy, PartialEq, Eq, Structural, Debug)]
pub struct Stats {
    pub score: u32,
    pub time: u128,
    pub lines_cleared: u32,
    pub pieces_placed: u32,
}

impl Stats {
    pub fn new() -> (r: Stats)
        ensures
            r.score == 0,
            r.time == 0,
            r.lines_cleared == 0,
            r.pieces_placed == 0,
    {
        Stats { score: 0, time: 0, lines_cleared: 0, pieces_placed: 0 }
    }

    /// The level-scoped stats after a level-up: zeroed, except that the
    /// counter the level-up condition measures is rebased by subtracting
    /// the goal, so surplus progress carries into the next level.
    pub fn next_level(previous_level: &Stats, condition: &EndCondition) -> (r: Stats)
        requires
            *condition matches EndCondition::Lines(goal) ==> previous_level.lines_cleared >= goal,
            *condition matches EndCondition::Score(goal) ==> previous_level.score >= goal,
        ensures
            r.time == 0,
            r.pieces_placed == 0,
            (match *condition {
                EndCondition::Lines(goal) => r.lines_cleared == previous_level.lines_cleared
                    - goal,
                _ => r.lines_cleared == 0,
            }),
            (match *condition {
                EndCondition::Score(goal) => r.score == previous_level.score - goal,
                _ => r.score == 0,
            }),
    {
        let mut new_stats = Stats::new();
        match condition {
            EndCondition::Lines(line_goal) => {
                new_stats.lines_cleared = previous_level.lines_cleared - line_goal;
            },
            EndCondition::Score(score_goal) => {
                new_stats.score = previous_level.score - score_goal;
            },
            _ => {},
        }
        new_stats
    }
}

/// There are never more full rows than rows.
proof fn lemma_full_rows_len(g: Seq<Seq<crate::piece::PieceColor>>, i: int)
    ensures
        crate::board::full_rows_upto(g, i).len() <= if i >= 0 {
            i
        } else {
            0
        },
    decreases i,
{
    if i > 0 {
        lemma_full_rows_len(g, i - 1);
    }
}

/// Two to the power `e`.
pub open spec fn pow2n(e: nat) -> nat
    decreases e,
{
    if e == 0 {
        1
    } else {
        2 * pow2n((e - 1) as nat)
    }
}

pub proof fn lemma_pow2n_mono(a: nat, b: nat)
    requires
        a <= b,
    ensures
        1 <= pow2n(a) <= pow2n(b),
    decreases b,
{
    if b > 0 {
        if a < b {
            lemma_pow2n_mono(a, (b - 1) as nat);
        } else {
            lemma_pow2n_mono((a - 1) as nat, (b - 1) as nat);
        }
    }
}

/// A value clamped to the `u32` ceiling.
pub open spec fn sat32(x: int) -> int {
    if x > 0xffff_ffff {
        0xffff_ffff
    } else {
        x
    }
}

/// A value clamped to the `u128` ceiling.
pub open spec fn sat128(x: int) -> int {
    if x > 0xffff_ffff_ffff_ffff_ffff_ffff_ffff_ffff {
        0xffff_ffff_ffff_ffff_ffff_ffff_ffff_ffff
    } else {
        x
    }
}

/// Saturating `u32` addition.
pub fn sat_add_u32(a: u32, b: u32) -> (r: u32)
    ensures
        r == sat32(a + b),
{
    if a > 0xffff_ffffu32 - b {
        0xffff_ffffu32
    } else {
        a + b
    }
}

/// Saturating `u128` addition.
pub fn sat_add_u128(a: u128, b: u128) -> (r: u128)
    ensures
        r == sat128(a + b),
{
    if a > u128::MAX - b {
        u128::MAX
    } else {
        a + b
    }
}

/// Whether a clear counts as "fancy" for the back-to-back bonus: four or
/// more rows, or a bonus-assisted clear of at least two.
pub open spec fn clear_fancy(cleared: int, bonus: bool) -> bool {
    cleared >= 4 || (bonus && cleared >= 2)
}

/// The points one clear is worth: base points are 100 times two to the
/// power `rows + 1` (bonus) or `rows - 1` (plain), clamped at the `u32`
/// ceiling; a 50% bonus applies when this clear and the previous one were
/// both fancy; the ruleset's multiplier scales the result.
pub open spec fn clear_points(
    cleared: int,
    bonus: bool,
    prev_fancy: bool,
    mult: ScoreMultiplier,
    level: int,
) -> int {
    let e = if bonus {
        cleared + 1
    } else {
        cleared - 1
    };
    let base: int = if e >= 26 {
        0xffff_ffff
    } else {
        100 * pow2n(e as nat) as int
    };
    let boosted = if prev_fancy && clear_fancy(cleared, bonus) {
        sat32(base + base / 2)
    } else {
        base
    };
    mult.applied(boosted, level)
}

/// The spawn column: the piece is recentered horizontally by its tightest
/// bounding box.
pub open spec fn spawn_col(width: int, cells: Seq<(i8, i8)>) -> int {
    (width - (cells_max_x(cells) - cells_min_x(cells) + 1)) / 2 - cells_min_x(cells)
}

/// What auto-repeat leaves behind: with a positive interval, one step per
/// whole interval contained in the budget, carrying the remainder -- and a
/// discarded remainder with the run cut short at the first blocked move;
/// with a zero interval, the piece repeats immediately until blocked.
pub open spec fn auto_shift_post(
    g: Seq<Seq<crate::piece::PieceColor>>,
    p: Piece,
    q: Piece,
    leftover_out: int,
    direction: HDirection,
    time: int,
    arr: int,
) -> bool {
    let cells = p.shape_cells(p.rotation as int);
    let h = crate::piece::h_offset_spec(direction);
    let s = crate::piece::slide_len(g, cells, p.position.col as int, p.position.row as int, h);
    &&& q.position.row == p.position.row
    &&& q.rotation == p.rotation
    &&& q.shape == p.shape
    &&& (if arr > 0 {
        let avail = if time == 0 {
            0int
        } else {
            (time - 1) / arr
        };
        &&& (s < avail ==> q.position.col == p.position.col + s * h && leftover_out == 0)
        &&& (s >= avail ==> q.position.col == p.position.col + avail * h && leftover_out == time
            - avail * arr)
    } else {
        &&& (time == 0 ==> q == p && leftover_out == 0)
        &&& (time > 0 ==> q.position.col == p.position.col + s * h && leftover_out == 0)
    })
}

/// What one tick's gravity, lock evaluation and possible placement do to
/// a well-placed (non-overlapping) piece: the effective interval is
/// quartered under soft drop with the timer clamped to it, the piece
/// falls one row per whole interval in the budget but never past its
/// ghost row, a piece that reached its ghost row accumulates lock delay,
/// and one whose lock delay ran out places with full scoring.
#[verifier::opaque]
pub open spec fn gravity_tick_post(
    g: Seq<Seq<crate::piece::PieceColor>>,
    p: Piece,
    gravity: u128,
    gravity_timer: u128,
    lock_timer: u128,
    lock_delay: u128,
    score0: u32,
    lines0: u32,
    pieces0: u32,
    prev_fancy: bool,
    mult: ScoreMultiplier,
    level: int,
    elapsed: u128,
    soft_drop: bool,
    post: Game,
) -> bool {
    let cells = p.shape_cells(p.rotation as int);
    let interval = if soft_drop {
        gravity / 4
    } else {
        gravity
    };
    let t0 = if soft_drop && gravity_timer > interval {
        interval
    } else {
        gravity_timer
    };
    let timer = sat128(t0 + elapsed);
    let drop = ghost_row_spec(g, cells, p.position.col as int, p.position.row as int)
        - p.position.row;
    let avail = if timer == 0 {
        0int
    } else {
        (timer - 1) as int / interval as int
    };
    let m = if interval > 0 {
        if drop <= avail {
            drop
        } else {
            avail
        }
    } else {
        if timer > 0 {
            drop
        } else {
            0
        }
    };
    let landed = m == drop;
    let expired = sat128(lock_timer + elapsed) >= lock_delay;
    &&& (!(landed && expired) ==> {
        &&& post.piece.rotation == p.rotation
        &&& post.piece.shape == p.shape
        &&& post.piece.position.col == p.position.col
        &&& post.piece.position.row == p.position.row + m
        &&& post.stats.score == score0
        &&& post.stats.lines_cleared == lines0
        &&& post.stats.pieces_placed == pieces0
        &&& grid(post.matrix@) == g
        &&& post.level == level
        &&& post.gravity_timer == (if interval > 0 {
            if drop < avail {
                timer - (drop + 1) * interval
            } else {
                timer - avail * interval
            }
        } else {
            timer as int
        })
    })
    &&& (!landed ==> post.lock_timer == 0)
    &&& (landed && !expired ==> post.lock_timer == sat128(lock_timer + elapsed))
    &&& (landed && expired ==> ({
        let placed = Piece {
            position: (Position { col: p.position.col, row: (p.position.row + drop) as i32 }),
            ..p
        };
        &&& post.stats.pieces_placed == sat32(pieces0 + 1)
        &&& post.stats.score == sat32(score0 + placement_points(g, placed, prev_fancy, mult, level))
        &&& post.stats.lines_cleared == sat32(lines0 + rows_cleared_by(g, placed))
        &&& post.can_hold
        &&& post.lock_timer == 0
        &&& post.gravity_timer == 0
        &&& post.piece.rotation == 0
        &&& post.piece.position.row == 0
        &&& (post.level == level ==> grid(post.matrix@) == board_after_placement(g, placed))
    }))
}

/// What the tick's movement phase does to the piece for the non-drop
/// intents: nothing on an idle intent, one immediate step on a freshly
/// changed held direction, delayed-auto-shift stepping on a held one, and
/// an instant full shift (auto-repeat with a zero interval) for the shift
/// intents.
#[verifier::opaque]
pub open spec fn movement_phase_post(
    g: Seq<Seq<crate::piece::PieceColor>>,
    pre: Game,
    input: InputState,
    mid: Piece,
    left: int,
    elapsed: u128,
) -> bool {
    let p = pre.piece;
    match movement_intent(input) {
        MovementAction::Idle => mid == p,
        MovementAction::Horizontal(d) => {
            let h = crate::piece::h_offset_spec(d);
            if pre.prev_direction != d {
                &&& (!p.hits(g, h, 0, p.rotation as int) ==> mid.position.col == p.position.col
                    + h)
                &&& (p.hits(g, h, 0, p.rotation as int) ==> mid == p)
                &&& mid.position.row == p.position.row
                &&& mid.rotation == p.rotation
                &&& mid.shape == p.shape
            } else {
                let das2 = sat128(pre.das_timer + elapsed);
                &&& (das2 < pre.das ==> mid == p)
                &&& (das2 >= pre.das ==> auto_shift_post(
                    g,
                    p,
                    mid,
                    left,
                    d,
                    sat128(elapsed + pre.arr_leftover),
                    pre.arr as int,
                ))
            }
        },
        MovementAction::ShiftHorizontal(d) => auto_shift_post(
            g,
            p,
            mid,
            left,
            d,
            u128::MAX as int,
            0,
        ),
        _ => true,
    }
}

/// Two piece values carry the same definition: shape, color, kick table
/// and spin-bonus eligibility.
pub open spec fn same_piece_kind(a: Piece, b: Piece) -> bool {
    &&& a.shape == b.shape
    &&& a.color == b.color
    &&& a.kick_table == b.kick_table
    &&& a.spin_bonus == b.spin_bonus
}

/// The spin-bonus evaluation for a piece at its current position: eligible,
/// last transform was a rotation, and wedged on three sides.
pub open spec fn spin_bonus_spec(g: Seq<Seq<crate::piece::PieceColor>>, p: Piece) -> bool {
    &&& p.spin_bonus
    &&& p.last_move_was_rotation
    &&& p.hits(g, 0, -1, p.rotation as int)
    &&& p.hits(g, -1, 0, p.rotation as int)
    &&& p.hits(g, 1, 0, p.rotation as int)
}

/// The board after the piece locks at its current position.
pub open spec fn board_after_lock(g: Seq<Seq<crate::piece::PieceColor>>, p: Piece) -> Seq<
    Seq<crate::piece::PieceColor>,
> {
    crate::piece::locked_grid(
        g,
        p.shape_cells(p.rotation as int),
        p.position.col as int,
        p.position.row as int,
        p.color,
    )
}

/// The number of rows a placement at the piece's current position clears.
pub open spec fn rows_cleared_by(g: Seq<Seq<crate::piece::PieceColor>>, p: Piece) -> int {
    crate::board::full_rows_upto(board_after_lock(g, p), g.len() as int).len() as int
}

/// The board after the piece locks and the full rows collapse.
pub open spec fn board_after_placement(g: Seq<Seq<crate::piece::PieceColor>>, p: Piece) -> Seq<
    Seq<crate::piece::PieceColor>,
> {
    crate::board::clear_all(
        board_after_lock(g, p),
        crate::board::full_rows_upto(board_after_lock(g, p), g.len() as int),
    )
}

/// The score one placement at the piece's current position earns.
pub open spec fn placement_points(g: Seq<Seq<crate::piece::PieceColor>>, p: Piece, prev_fancy: bool, mult: ScoreMultiplier, level: int) -> int {
    let n = rows_cleared_by(g, p);
    if n > 0 {
        clear_points(n, spin_bonus_spec(g, p), prev_fancy, mult, level)
    } else {
        0
    }
}

use crate::configuration::Command;

/// Whether a command batch holds the given command.
fn commands_contain(commands: &Vec<Command>, which: Command) -> (r: bool)
    ensures
        r == commands@.contains(which),
{
    let mut i: usize = 0;
    while i < commands.len()
        invariant
            i <= commands@.len(),
            forall|t: int| 0 <= t < i ==> (#[trigger] commands@[t]) != which,
        decreases commands@.len() - i,
    {
        let same = match (commands[i], which) {
            (Command::RegeneratePieces, Command::RegeneratePieces) => true,
            (Command::ResizeMatrix, Command::ResizeMatrix) => true,
            (Command::ClearMatrix, Command::ClearMatrix) => true,
            (Command::End, Command::End) => true,
            _ => false,
        };
        if same {
            return true;
        }
        i += 1;
    }
    false
}

/// Whether two randomizer styles are the same variant.
fn styles_equal(a: crate::randomizer::RandomizerStyle, b: crate::randomizer::RandomizerStyle) -> (r: bool)
    ensures
        r == (a == b),
{
    a == b
}

/// A fresh all-empty board of the given dimensions.
fn make_empty_matrix(width: usize, height: usize) -> (r: Matrix)
    requires
        width > 0,
        height > 0,
    ensures
        r@.len() == height,
        grid(r@).len() == height,
        forall|i: int| 0 <= i < height ==> (#[trigger] grid(r@)[i]) == crate::board::empty_row(
            width as nat,
        ),
        grid_wf(grid(r@)),
        grid(r@)[0].len() == width,
{
    let mut out: Matrix = Vec::new();
    let mut i: usize = 0;
    while i < height
        invariant
            i <= height,
            width > 0,
            out@.len() == i,
            forall|t: int| 0 <= t < i ==> (#[trigger] grid(out@)[t]) == crate::board::empty_row(
                width as nat,
            ),
        decreases height - i,
    {
        let ghost pre = out@;
        let mut row: Vec<crate::piece::PieceColor> = Vec::new();
        let mut j: usize = 0;
        while j < width
            invariant
                j <= width,
                row@.len() == j,
                forall|k: int| 0 <= k < j ==> (#[trigger] row@[k]) == crate::piece::PieceColor::Empty,
            decreases width - j,
        {
            row.push(crate::piece::PieceColor::Empty);
            j += 1;
        }
        proof {
            assert(row@ =~= crate::board::empty_row(width as nat));
        }
        out.push(row);
        proof {
            assert forall|t: int| 0 <= t < i + 1 implies (#[trigger] grid(out@)[t])
                == crate::board::empty_row(width as nat) by {
                assert(grid(out@)[t] == out@[t]@);
                if t < i {
                    assert(out@[t] == pre[t]);
                    assert(grid(pre)[t] == pre[t]@);
                }
            }
        }
        i += 1;
    }
    out
}

/// Shorthand: row `i` of the grid holds no occupied cell.
spec fn row_occ_zero(g: Seq<Seq<crate::piece::PieceColor>>, i: int) -> bool {
    crate::board::row_occupied(g[i]) == 0
}

/// A grid of all-zero rows holds no occupied cell.
proof fn lemma_occ_all_empty(g: Seq<Seq<crate::piece::PieceColor>>)
    requires
        forall|i: int| 0 <= i < g.len() ==> #[trigger] row_occ_zero(g, i),
    ensures
        crate::board::occupied_cells(g) == 0,
    decreases g.len(),
{
    if g.len() > 0 {
        assert forall|i: int| 0 <= i < g.drop_last().len() implies #[trigger] row_occ_zero(
            g.drop_last(),
            i,
        ) by {
            assert(g.drop_last()[i] == g[i]);
            assert(row_occ_zero(g, i));
        }
        assert(row_occ_zero(g, g.len() - 1));
        lemma_occ_all_empty(g.drop_last());
    }
}

/// Every piece of a generated batch is a game piece in its spawn state.
proof fn lemma_generated_game_ok(
    ps: Seq<Piece>,
    list: Seq<usize>,
    data: Seq<PieceType>,
    chaos: bool,
)
    requires
        chaos ==> forall|i: int| 0 <= i < ps.len() ==> chaos_piece(#[trigger] ps[i], 0),
        !chaos ==> forall|i: int| 0 <= i < ps.len() ==> batch_piece_ok(#[trigger] ps[i], list, data),
        forall|k: int| 0 <= k < list.len() ==> (#[trigger] list[k]) < data.len(),
    ensures
        forall|i: int|
            0 <= i < ps.len() ==> game_piece_ok(#[trigger] ps[i], data) && (#[trigger] ps[i]).rotation
                < 4,
{
    assert forall|i: int| 0 <= i < ps.len() implies game_piece_ok(#[trigger] ps[i], data) && (
    #[trigger] ps[i]).rotation < 4 by {
        if chaos {
            assert(chaos_piece(ps[i], 0));
        } else {
            assert(batch_piece_ok(ps[i], list, data));
            let t = choose|t: usize|
                #[trigger] list.contains(t) && piece_matches_type(ps[i], data[t as int]);
            let w = choose|w: int| 0 <= w < list.len() && list[w] == t;
            assert(t < data.len());
            assert(piece_shape_like(ps[i], data[t as int]));
        }
    }
}

/// Pops the next piece from the queue's tail and spawns it: recentered
/// horizontally by its tightest bounding box, at the top row, in rotation
/// state 0, with a fresh ghost row.
pub fn next_piece(piece_queue: &mut Vec<Piece>, matrix: &Matrix) -> (r: Piece)
    requires
        old(piece_queue)@.len() > 0,
        grid_wf(grid(matrix@)),
        grid_bounded(grid(matrix@)),
        old(piece_queue)@.last().wf(),
        cells_max_x(old(piece_queue)@.last().shape_cells(0)) - cells_min_x(
            old(piece_queue)@.last().shape_cells(0),
        ) + 1 <= grid(matrix@)[0].len(),
        cells_max_y(old(piece_queue)@.last().shape_cells(0)) < grid(matrix@).len(),
    ensures
        final(piece_queue)@ == old(piece_queue)@.drop_last(),
        r.shape == old(piece_queue)@.last().shape,
        r.color == old(piece_queue)@.last().color,
        r.kick_table == old(piece_queue)@.last().kick_table,
        r.spin_bonus == old(piece_queue)@.last().spin_bonus,
        r.last_move_was_rotation == old(piece_queue)@.last().last_move_was_rotation,
        r.rotation == 0,
        r.position.row == 0,
        r.position.col == spawn_col(grid(matrix@)[0].len() as int, r.shape_cells(0)),
        r.wf(),
        cells_in_bounds(
            grid(matrix@),
            r.shape_cells(0),
            r.position.col as int,
            r.position.row as int,
        ),
        r.ghost_position == ghost_row_spec(
            grid(matrix@),
            r.shape_cells(0),
            r.position.col as int,
            0,
        ),
        cells_in_bounds(grid(matrix@), r.shape_cells(0), r.position.col as int, r.ghost_position as int),
{
    let ghost g = grid(matrix@);
    let mut piece = match piece_queue.pop() {
        Option::Some(p) => p,
        Option::None => {
            proof {
                assert(false);
            }
            unreached()
        },
    };
    proof {
        crate::piece::lemma_cells_extremes(piece.shape_cells(0));
    }
    piece.reset_position(matrix);
    proof {
        let cells = piece.shape_cells(0);
        let minx = cells_min_x(cells);
        let maxx = cells_max_x(cells);
        let maxy = cells_max_y(cells);
        assert forall|k: int| 0 <= k < cells.len() implies 0 <= (#[trigger] cells[k]).0
            + piece.position.col < g[0].len() && 0 <= cells[k].1 + piece.position.row < g.len() by {
            assert(minx <= cells[k].0 <= maxx);
            assert(cells[k].1 <= maxy);
            assert(cells[k].0 >= 0 && cells[k].1 >= 0);
        }
        crate::piece::lemma_ghost_cells_in_bounds(g, cells, piece.position.col as int, 0);
    }
    piece
}

/// Refills the queue by generating batches until more pieces than the
/// preview count are on hand; freshly generated pieces go in front of the
/// existing queue (pieces are dispensed from the tail).
pub fn extend_queue(
    piece_queue: &mut Vec<Piece>,
    preview_count: usize,
    piece_data: &Vec<PieceType>,
    randomizer: &mut Randomizer,
)
    requires
        old(randomizer).piece_list@.len() > 0,
        forall|k: int|
            0 <= k < old(randomizer).piece_list@.len() ==> (#[trigger] old(
                randomizer,
            ).piece_list@[k]) < piece_data@.len(),
        forall|i: int|
            0 <= i < old(piece_queue)@.len() ==> game_piece_ok(
                #[trigger] old(piece_queue)@[i],
                piece_data@,
            ) && (#[trigger] old(piece_queue)@[i]).rotation < 4,
    ensures
        final(piece_queue)@.len() > preview_count,
        final(piece_queue)@.len() >= old(piece_queue)@.len(),
        final(piece_queue)@.skip(
            final(piece_queue)@.len() - old(piece_queue)@.len(),
        ) == old(piece_queue)@,
        forall|i: int|
            0 <= i < final(piece_queue)@.len() ==> game_piece_ok(
                #[trigger] final(piece_queue)@[i],
                piece_data@,
            ) && (#[trigger] final(piece_queue)@[i]).rotation < 4,
        forall|i: int|
            0 <= i < final(piece_queue)@.len() - old(piece_queue)@.len() ==> (old(
                randomizer,
            ).style == crate::randomizer::RandomizerStyle::Chaos ==> chaos_piece(
                #[trigger] final(piece_queue)@[i],
                0,
            )) && (old(randomizer).style != crate::randomizer::RandomizerStyle::Chaos
                ==> batch_piece_ok(
                final(piece_queue)@[i],
                old(randomizer).piece_list@,
                piece_data@,
            )),
        final(randomizer).piece_list == old(randomizer).piece_list,
        final(randomizer).style == old(randomizer).style,
{
    while piece_queue.len() <= preview_count
        invariant
            randomizer.piece_list == old(randomizer).piece_list,
            randomizer.style == old(randomizer).style,
            randomizer.piece_list@.len() > 0,
            piece_queue@.len() >= old(piece_queue)@.len(),
            piece_queue@.skip(piece_queue@.len() - old(piece_queue)@.len()) == old(piece_queue)@,
            forall|k: int|
                0 <= k < randomizer.piece_list@.len() ==> (#[trigger] randomizer.piece_list@[k])
                    < piece_data@.len(),
            forall|i: int|
                0 <= i < piece_queue@.len() ==> game_piece_ok(
                    #[trigger] piece_queue@[i],
                    piece_data@,
                ) && (#[trigger] piece_queue@[i]).rotation < 4,
            forall|i: int|
                0 <= i < piece_queue@.len() - old(piece_queue)@.len() ==> (old(randomizer).style
                    == crate::randomizer::RandomizerStyle::Chaos ==> chaos_piece(
                    #[trigger] piece_queue@[i],
                    0,
                )) && (old(randomizer).style != crate::randomizer::RandomizerStyle::Chaos
                    ==> batch_piece_ok(
                    piece_queue@[i],
                    old(randomizer).piece_list@,
                    piece_data@,
                )),
        decreases (if piece_queue@.len() <= preview_count {
            preview_count + 1 - piece_queue@.len()
        } else {
            0int
        }),
    {
        let no_filter: Option<Vec<usize>> = Option::None;
        let mut new_bag = randomizer.generate_pieces(&no_filter, piece_data, 0);
        let ghost fresh = new_bag@;
        let ghost older = piece_queue@;
        proof {
            assert forall|i: int| 0 <= i < fresh.len() implies game_piece_ok(
                #[trigger] fresh[i],
                piece_data@,
            ) && (#[trigger] fresh[i]).rotation < 4 by {
                if randomizer.style == crate::randomizer::RandomizerStyle::Chaos {
                    assert(chaos_piece(fresh[i], 0));
                } else {
                    assert(batch_piece_ok(fresh[i], randomizer.piece_list@, piece_data@));
                    let t = choose|t: usize|
                        #[trigger] randomizer.piece_list@.contains(t) && piece_matches_type(
                            fresh[i],
                            piece_data@[t as int],
                        );
                    let w = choose|w: int|
                        0 <= w < randomizer.piece_list@.len() && randomizer.piece_list@[w] == t;
                    assert(t < piece_data@.len());
                    assert(piece_shape_like(fresh[i], piece_data@[t as int]));
                }
            }
        }
        new_bag.append(piece_queue);
        std::mem::swap(piece_queue, &mut new_bag);
        proof {
            let old_len = old(piece_queue)@.len() as int;
            assert(fresh.len() > 0);
            assert(piece_queue@ =~= fresh + older);
            assert(piece_queue@.len() == fresh.len() + older.len());
            assert(piece_queue@.len() > older.len());
            assert(piece_queue@.skip(piece_queue@.len() - old_len) =~= older.skip(
                older.len() - old_len,
            ));
            assert forall|i: int|
                0 <= i < piece_queue@.len() - old_len implies (old(randomizer).style
                == crate::randomizer::RandomizerStyle::Chaos ==> chaos_piece(
                #[trigger] piece_queue@[i],
                0,
            )) && (old(randomizer).style != crate::randomizer::RandomizerStyle::Chaos
                ==> batch_piece_ok(
                piece_queue@[i],
                old(randomizer).piece_list@,
                piece_data@,
            )) by {
                if i < fresh.len() {
                    assert(piece_queue@[i] == fresh[i]);
                } else {
                    assert(piece_queue@[i] == older[i - fresh.len()]);
                }
            }
        }
    }
}

/// Auto-repeat timing configuration; both times are in milliseconds.
#[derive(Clone, Copy, PartialEq, Eq, Structural, Debug)]
pub struct Config {
    pub das: u32,
    pub arr: u32,
}

/// The single movement intent resolved for one tick.
#[derive(Clone, Copy, PartialEq, Eq, Structural, Debug)]
pub enum MovementAction {
    HardDrop,
    InstantDrop,
    Horizontal(HDirection),
    ShiftHorizontal(HDirection),
    Idle,
}

/// The movement intent a set of input flags resolves to: drops take
/// priority, then instant full shifts, then held directions.
pub open spec fn movement_intent(input: InputState) -> MovementAction {
    if input.hard_drop {
        MovementAction::HardDrop
    } else if input.instant_drop {
        MovementAction::InstantDrop
    } else if input.shift_left && !input.shift_right {
        MovementAction::ShiftHorizontal(HDirection::Left)
    } else if !input.shift_left && input.shift_right {
        MovementAction::ShiftHorizontal(HDirection::Right)
    } else if input.left && !input.right {
        MovementAction::Horizontal(HDirection::Left)
    } else if !input.left && input.right {
        MovementAction::Horizontal(HDirection::Right)
    } else {
        MovementAction::Idle
    }
}

/// The rotation intent a set of input flags resolves to; drops suppress
/// rotation for the tick.
pub open spec fn rotation_intent(input: InputState) -> RotationAction {
    if input.hard_drop || input.instant_drop {
        RotationAction::Idle
    } else if input.rotate_cw && !input.rotate_ccw && !input.rotate_180 {
        RotationAction::RotateCW
    } else if !input.rotate_cw && input.rotate_ccw && !input.rotate_180 {
        RotationAction::RotateCCW
    } else if !input.rotate_cw && !input.rotate_ccw && input.rotate_180 {
        RotationAction::Rotate180
    } else {
        RotationAction::Idle
    }
}

/// Resolves the tick's single movement intent and single rotation intent
/// from the input flags.
pub fn read_inputs(input: &InputState) -> (r: (MovementAction, RotationAction))
    ensures
        r.0 == movement_intent(*input),
        r.1 == rotation_intent(*input),
{
    if input.hard_drop {
        return (MovementAction::HardDrop, RotationAction::Idle);
    }
    if input.instant_drop {
        return (MovementAction::InstantDrop, RotationAction::Idle);
    }
    let movement_action = match (input.left, input.right, input.shift_left, input.shift_right) {
        (_, _, true, false) => MovementAction::ShiftHorizontal(HDirection::Left),
        (_, _, false, true) => MovementAction::ShiftHorizontal(HDirection::Right),
        (true, false, _, _) => MovementAction::Horizontal(HDirection::Left),
        (false, true, _, _) => MovementAction::Horizontal(HDirection::Right),
        _ => MovementAction::Idle,
    };
    let rotation_action = match (input.rotate_cw, input.rotate_ccw, input.rotate_180) {
        (true, false, false) => RotationAction::RotateCW,
        (false, true, false) => RotationAction::RotateCCW,
        (false, false, true) => RotationAction::Rotate180,
        _ => RotationAction::Idle,
    };
    (movement_action, rotation_action)
}

/// Any piece the game stores is either a fresh or moved instance of a
/// catalog entry, or a procedurally generated piece (which uses kick
/// table 0).
pub open spec fn game_piece_ok(p: Piece, data: Seq<PieceType>) -> bool {
    ||| exists|t: int|
        0 <= t < data.len() && piece_shape_like(p, #[trigger] data[t])
    ||| chaos_shape_like(p)
}

/// The piece carries the shape, kick table and bonus flag of the catalog
/// entry (its position and rotation state are its own).
pub open spec fn piece_shape_like(p: Piece, t: PieceType) -> bool {
    &&& forall|rot: int| 0 <= rot < 4 ==> (#[trigger] p.shape@[rot])@ == t.shape@[rot]@
    &&& p.kick_table == t.kick_table
    &&& p.spin_bonus == t.spin_bonus
}

/// The piece carries a generated shape: well formed, within a 4-by-4 box,
/// on kick table 0, without spin bonus.
pub open spec fn chaos_shape_like(p: Piece) -> bool {
    &&& crate::piece::shape_wf(p.shape)
    &&& crate::randomizer::shape_within(p.shape, 4)
    &&& p.kick_table == 0
    &&& !p.spin_bonus
}

/// A game piece fits any board that a valid ruleset describes.
pub proof fn lemma_game_piece_stored_ok(
    p: Piece,
    data: Seq<PieceType>,
    kick_len: int,
    width: int,
    height: int,
)
    requires
        game_piece_ok(p, data),
        p.rotation < 4,
        catalog_ok(data, kick_len),
        kick_len >= 1,
        width >= 4,
        height >= 5,
        forall|t: int|
            0 <= t < data.len() ==> cells_max_x((#[trigger] data[t]).shape@[0]@) - cells_min_x(
                data[t].shape@[0]@,
            ) + 1 <= width && cells_max_y(data[t].shape@[0]@) < height,
    ensures
        stored_piece_ok(p, kick_len, width, height),
{
    if exists|t: int| 0 <= t < data.len() && piece_shape_like(p, #[trigger] data[t]) {
        let t = choose|t: int| 0 <= t < data.len() && piece_shape_like(p, #[trigger] data[t]);
        assert(shape_wf(data[t].shape));
        assert forall|rot: int| 0 <= rot < 4 implies (#[trigger] p.shape@[rot])@.len() > 0
            && crate::piece::cells_nonneg(p.shape@[rot]@) by {
            assert(p.shape@[rot]@ == data[t].shape@[rot]@);
        }
        assert(p.shape_cells(0) == data[t].shape@[0]@);
    } else {
        assert(chaos_shape_like(p));
        crate::piece::lemma_cells_extremes_within(p.shape_cells(0), 4);
    }
}

/// What must hold of any piece the game stores (active, held or queued):
/// well-formed, its kick table resolves, and its spawn rotation state fits
/// the board.
pub open spec fn stored_piece_ok(p: Piece, kick_len: int, width: int, height: int) -> bool {
    &&& p.wf()
    &&& p.kick_table < kick_len
    &&& cells_max_x(p.shape_cells(0)) - cells_min_x(p.shape_cells(0)) + 1 <= width
    &&& cells_max_y(p.shape_cells(0)) < height
}

/// What must additionally hold of the active piece: its current cells lie
/// on the board and its ghost row is in sync with the board, with the
/// ghost placement on the board as well.
pub open spec fn active_piece_ok(
    p: Piece,
    g: Seq<Seq<crate::piece::PieceColor>>,
    kick_len: int,
) -> bool {
    &&& stored_piece_ok(p, kick_len, g[0].len() as int, g.len() as int)
    &&& cells_in_bounds(
        g,
        p.shape_cells(p.rotation as int),
        p.position.col as int,
        p.position.row as int,
    )
    &&& p.ghost_position == ghost_row_spec(
        g,
        p.shape_cells(p.rotation as int),
        p.position.col as int,
        p.position.row as int,
    )
    &&& cells_in_bounds(
        g,
        p.shape_cells(p.rotation as int),
        p.position.col as int,
        p.ghost_position as int,
    )
}

/// The per-tick game orchestrator: board, active and held pieces, piece
/// queue, rule and mode configuration, statistics and the timing state
/// machine.  Generated (`Chaos`) pieces use kick table 0.
pub struct Game {
    pub matrix: Matrix,
    pub piece: Piece,
    pub held: Option<Piece>,
    pub piece_data: Vec<PieceType>,
    pub kick_data: Vec<KickData>,
    pub rulesets: Vec<Ruleset>,
    pub piece_queue: Vec<Piece>,
    pub gamemode: GameMode,
    pub ruleset: Ruleset,
    pub stats: Stats,
    pub level_stats: Stats,
    pub randomizer: Randomizer,
    pub level: usize,
    pub das: u128,
    pub arr: u128,
    pub das_timer: u128,
    pub gravity_timer: u128,
    pub lock_timer: u128,
    pub arr_leftover: u128,
    pub can_hold: bool,
    pub prev_clear_was_fancy: bool,
    pub prev_direction: HDirection,
    pub game_over: bool,
}

impl Game {
    /// The board model.
    pub open spec fn g(self) -> Seq<Seq<crate::piece::PieceColor>> {
        grid(self.matrix@)
    }

    /// Well-formedness of a running game.  Constructed by `new` from a
    /// validated configuration and preserved by every tick.
    pub open spec fn wf(self) -> bool {
        let g = self.g();
        let kick_len = self.kick_data@.len() as int;
        &&& grid_wf(g)
        &&& grid_bounded(g)
        &&& self.matrix@.len() == self.ruleset.matrix_height + OFFSCREEN_ROWS
        &&& g[0].len() == self.ruleset.matrix_width
        &&& self.kick_data@.len() > 0
        &&& catalog_ok(self.piece_data@, kick_len)
        &&& ruleset_ok(self.ruleset@, self.piece_data@)
        &&& gamemode_ok(self.gamemode, ruleset_models(self.rulesets@), self.piece_data@)
        &&& self.level >= 1
        &&& self.ruleset@ == ruleset_at_level(
            ruleset_models(self.rulesets@)[self.gamemode.initial_ruleset as int],
            self.gamemode.levels(),
            ruleset_models(self.rulesets@),
            self.level as int,
        )
        &&& game_piece_ok(self.piece, self.piece_data@)
        &&& active_piece_ok(self.piece, g, kick_len)
        &&& match self.held {
            Option::Some(p) => game_piece_ok(p, self.piece_data@) && stored_piece_ok(
                p,
                kick_len,
                g[0].len() as int,
                g.len() as int,
            ) && p.rotation < 4 && cells_in_bounds(
                g,
                p.shape_cells(p.rotation as int),
                p.position.col as int,
                p.position.row as int,
            ),
            Option::None => true,
        }
        &&& forall|i: int|
            0 <= i < self.piece_queue@.len() ==> game_piece_ok(
                #[trigger] self.piece_queue@[i],
                self.piece_data@,
            ) && (#[trigger] self.piece_queue@[i]).rotation < 4
        &&& self.piece_queue@.len() >= self.ruleset.preview_count
        &&& self.randomizer.piece_list@ == self.ruleset.piece_list@
    }

    /// The bounded preview slice: the queue's trailing pieces, soonest to
    /// spawn last.
    pub fn get_preview_pieces(&self) -> (r: &[Piece])
        requires
            self.piece_queue@.len() >= self.ruleset.preview_count,
        ensures
            r@ == self.piece_queue@.skip(
                self.piece_queue@.len() - self.ruleset.preview_count as int,
            ),
    {
        self.piece_queue.as_slice().split_at(self.piece_queue.len() - self.ruleset.preview_count).1
    }

    /// Resets the auto-shift timers when the held direction changes, so
    /// movement stays consistent.
    fn direction_change(&mut self, direction: HDirection)
        ensures
            *final(self) == (Game {
                das_timer: 0,
                arr_leftover: 0,
                prev_direction: direction,
                ..*old(self)
            }),
    {
        self.das_timer = 0;
        self.arr_leftover = 0;
        self.prev_direction = direction;
    }

    /// Scores one line clear of `cleared_rows` rows and remembers whether
    /// it was fancy for the next back-to-back comparison.  Both the
    /// cumulative and the level-scoped score rise by the same amount,
    /// saturating at the `u32` ceiling.
    pub fn update_score(&mut self, cleared_rows: u32, bonus: bool)
        requires
            cleared_rows >= 1,
        ensures
            final(self).stats.score == sat32(
                old(self).stats.score + clear_points(
                    cleared_rows as int,
                    bonus,
                    old(self).prev_clear_was_fancy,
                    old(self).ruleset.score_multiplier,
                    old(self).level as int,
                ),
            ),
            final(self).level_stats.score == sat32(
                old(self).level_stats.score + clear_points(
                    cleared_rows as int,
                    bonus,
                    old(self).prev_clear_was_fancy,
                    old(self).ruleset.score_multiplier,
                    old(self).level as int,
                ),
            ),
            final(self).prev_clear_was_fancy == clear_fancy(cleared_rows as int, bonus),
            *final(self) == (Game {
                stats: final(self).stats,
                level_stats: final(self).level_stats,
                prev_clear_was_fancy: final(self).prev_clear_was_fancy,
                ..*old(self)
            }),
            final(self).stats.time == old(self).stats.time,
            final(self).stats.lines_cleared == old(self).stats.lines_cleared,
            final(self).stats.pieces_placed == old(self).stats.pieces_placed,
            final(self).level_stats.time == old(self).level_stats.time,
            final(self).level_stats.lines_cleared == old(self).level_stats.lines_cleared,
            final(self).level_stats.pieces_placed == old(self).level_stats.pieces_placed,
    {
        let exponent: u64 = if bonus {
            cleared_rows as u64 + 1
        } else {
            cleared_rows as u64 - 1
        };
        let base: u32 = if exponent >= 26 {
            0xffff_ffffu32
        } else {
            let mut b: u32 = 100;
            let mut i: u64 = 0;
            while i < exponent
                invariant
                    i <= exponent,
                    exponent <= 25,
                    b == 100 * pow2n(i as nat),
                decreases exponent - i,
            {
                proof {
                    lemma_pow2n_mono(i as nat + 1, 25);
                    assert(pow2n(25) == 0x2000000) by {
                        reveal_with_fuel(pow2n, 26);
                    }
                }
                b = b * 2;
                i += 1;
            }
            b
        };
        let fancy = cleared_rows >= 4 || (bonus && cleared_rows >= 2);
        let boosted: u32 = if self.prev_clear_was_fancy && fancy {
            sat_add_u32(base, base / 2)
        } else {
            base
        };
        let points = self.ruleset.score_multiplier.apply(boosted, self.level);
        self.prev_clear_was_fancy = fancy;
        self.stats.score = sat_add_u32(self.stats.score, points);
        self.level_stats.score = sat_add_u32(self.level_stats.score, points);
    }

    /// Detects and collapses full rows: any clear is scored, both
    /// line-cleared counters rise by the number of rows, and every cleared
    /// row is removed with the stack above it shifted down.
    pub fn handle_line_clears(&mut self, bonus: bool)
        requires
            grid_wf(grid(old(self).matrix@)),
            grid_bounded(grid(old(self).matrix@)),
        ensures
            ({
                let g0 = grid(old(self).matrix@);
                let full = crate::board::full_rows_upto(g0, old(self).matrix@.len() as int);
                if full.len() == 0 {
                    *final(self) == *old(self)
                } else {
                    &&& grid(final(self).matrix@) == crate::board::clear_all(g0, full)
                    &&& final(self).matrix@.len() == old(self).matrix@.len()
                    &&& grid(final(self).matrix@)[0].len() == g0[0].len()
                    &&& grid_wf(grid(final(self).matrix@))
                    &&& final(self).stats.lines_cleared == sat32(
                        old(self).stats.lines_cleared + full.len(),
                    )
                    &&& final(self).level_stats.lines_cleared == sat32(
                        old(self).level_stats.lines_cleared + full.len(),
                    )
                    &&& final(self).stats.score == sat32(
                        old(self).stats.score + clear_points(
                            full.len() as int,
                            bonus,
                            old(self).prev_clear_was_fancy,
                            old(self).ruleset.score_multiplier,
                            old(self).level as int,
                        ),
                    )
                    &&& final(self).level_stats.score == sat32(
                        old(self).level_stats.score + clear_points(
                            full.len() as int,
                            bonus,
                            old(self).prev_clear_was_fancy,
                            old(self).ruleset.score_multiplier,
                            old(self).level as int,
                        ),
                    )
                    &&& final(self).prev_clear_was_fancy == clear_fancy(full.len() as int, bonus)
                    &&& final(self).stats.time == old(self).stats.time
                    &&& final(self).stats.pieces_placed == old(self).stats.pieces_placed
                    &&& final(self).level_stats.time == old(self).level_stats.time
                    &&& final(self).level_stats.pieces_placed == old(
                        self,
                    ).level_stats.pieces_placed
                    &&& *final(self) == (Game {
                        matrix: final(self).matrix,
                        stats: final(self).stats,
                        level_stats: final(self).level_stats,
                        prev_clear_was_fancy: final(self).prev_clear_was_fancy,
                        ..*old(self)
                    })
                }
            }),
    {
        let cleared_lines = crate::board::filled_rows(&self.matrix);
        if cleared_lines.len() > 0 {
            proof {
                lemma_full_rows_len(grid(self.matrix@), self.matrix@.len() as int);
            }
            let n32: u32 = cleared_lines.len() as u32;
            self.update_score(n32, bonus);
            self.stats.lines_cleared = sat_add_u32(self.stats.lines_cleared, n32);
            self.level_stats.lines_cleared = sat_add_u32(self.level_stats.lines_cleared, n32);
            crate::board::remove_rows(&mut self.matrix, cleared_lines);
        }
    }

    /// Auto-repeat: applies one single-cell move per elapsed auto-repeat
    /// interval until a move fails (the remainder is discarded) or the time
    /// is exhausted (the remainder carries to the next tick).
    fn auto_shift(&mut self, direction: HDirection, time: u128, arr: u128)
        requires
            old(self).wf(),
            direction != HDirection::Idle,
        ensures
            final(self).wf(),
            *final(self) == (Game {
                piece: final(self).piece,
                arr_leftover: final(self).arr_leftover,
                ..*old(self)
            }),
            final(self).arr_leftover <= arr,
            final(self).piece.rotation == old(self).piece.rotation,
            final(self).piece.shape == old(self).piece.shape,
            final(self).piece.color == old(self).piece.color,
            final(self).piece.kick_table == old(self).piece.kick_table,
            final(self).piece.spin_bonus == old(self).piece.spin_bonus,
            final(self).piece.position.row == old(self).piece.position.row,
            auto_shift_post(
                grid(old(self).matrix@),
                old(self).piece,
                final(self).piece,
                final(self).arr_leftover as int,
                direction,
                time as int,
                arr as int,
            ),
    {
        let ghost g = grid(self.matrix@);
        let ghost p0 = self.piece;
        let ghost cells0 = p0.shape_cells(p0.rotation as int);
        let ghost h = crate::piece::h_offset_spec(direction);
        let ghost s0 = crate::piece::slide_len(
            g,
            cells0,
            p0.position.col as int,
            p0.position.row as int,
            h,
        );
        let ghost mut k: int = 0;
        let mut leftover = time;
        proof {
            assert(p0.position.col + 0 * h == p0.position.col) by (nonlinear_arith);
            crate::piece::lemma_slide_sub(g, cells0, p0.position.col as int, p0.position.row as int, h, 0);
        }
        while leftover > arr
            invariant
                g == grid(self.matrix@),
                self.wf(),
                direction != HDirection::Idle,
                h == crate::piece::h_offset_spec(direction),
                p0 == old(self).piece,
                cells0 == p0.shape_cells(p0.rotation as int),
                s0 == crate::piece::slide_len(
                    g,
                    cells0,
                    p0.position.col as int,
                    p0.position.row as int,
                    h,
                ),
                *self == (Game { piece: self.piece, ..*old(self) }),
                self.piece.rotation == old(self).piece.rotation,
                self.piece.shape == old(self).piece.shape,
                self.piece.color == old(self).piece.color,
                self.piece.kick_table == old(self).piece.kick_table,
                self.piece.spin_bonus == old(self).piece.spin_bonus,
                self.piece.position.row == old(self).piece.position.row,
                0 <= k <= s0,
                self.piece.position.col == p0.position.col + k * h,
                crate::piece::slide_len(
                    g,
                    cells0,
                    self.piece.position.col as int,
                    self.piece.position.row as int,
                    h,
                ) == s0 - k,
                leftover == time - k * arr,
                arr > 0 ==> k == 0 || k * arr < time,
                k > 0 ==> time > 0,
                k == 0 ==> self.piece == p0,
            decreases (if direction == HDirection::Left {
                self.piece.position.col + 130
            } else {
                g[0].len() + 130 - self.piece.position.col
            }),
        {
            let ghost pre = self.piece;
            proof {
                assert(self.piece.shape_cells(self.piece.rotation as int).len() > 0);
                assert(0 <= self.piece.shape_cells(self.piece.rotation as int)[0].0
                    + self.piece.position.col < g[0].len());
            }
            if !self.piece.movement(&self.matrix, direction, VDirection::Idle) {
                self.arr_leftover = 0;
                proof {
                    // The blocked attempt pins the run length at k, and it
                    // could only happen with budget to spare.
                    assert(crate::piece::slide_len(
                        g,
                        cells0,
                        pre.position.col as int,
                        pre.position.row as int,
                        h,
                    ) == 0);
                    assert(s0 == k);
                    if arr > 0 {
                        assert(k * arr + arr < time);
                        assert((k + 1) * arr < time) by (nonlinear_arith)
                            requires
                                k * arr + arr < time,
                        ;
                        assert(k + 1 <= (time - 1) as int / arr as int) by (nonlinear_arith)
                            requires
                                (k + 1) * arr < time,
                                arr >= 1,
                                k >= 0,
                        ;
                    }
                }
                return ;
            }
            proof {
                let cells = self.piece.shape_cells(self.piece.rotation as int);
                crate::piece::lemma_nohit_in_bounds(
                    g,
                    cells,
                    self.piece.position.col as int,
                    self.piece.position.row as int,
                );
                crate::piece::lemma_ghost_cells_in_bounds(
                    g,
                    cells,
                    self.piece.position.col as int,
                    self.piece.position.row as int,
                );
                assert(0 <= cells[0].0 + self.piece.position.col < g[0].len());
                assert(crate::piece::slide_len(
                    g,
                    cells0,
                    pre.position.col as int,
                    pre.position.row as int,
                    h,
                ) >= 1);
                assert(self.piece.position.col == pre.position.col + h);
                assert(pre.position.col + h == p0.position.col + (k + 1) * h)
                    by (nonlinear_arith)
                    requires
                        pre.position.col == p0.position.col + k * h,
                ;
                assert((k + 1) * arr == k * arr + arr) by (nonlinear_arith);
                k = k + 1;
            }
            leftover = leftover - arr;
        }
        self.arr_leftover = leftover;
        proof {
            if arr > 0 {
                let avail = if time == 0 {
                    0int
                } else {
                    (time - 1) as int / arr as int
                };
                if k > 0 {
                    assert(k <= (time - 1) as int / arr as int) by (nonlinear_arith)
                        requires
                            k * arr < time,
                            arr >= 1,
                            k >= 1,
                    ;
                }
                assert(k <= avail);
                assert(time <= (k + 1) * arr) by (nonlinear_arith)
                    requires
                        time as int - k * arr <= arr as int,
                ;
                if time > 0 {
                    assert(avail * arr <= time - 1) by (nonlinear_arith)
                        requires
                            arr >= 1,
                            time >= 1,
                            avail == (time - 1) as int / arr as int,
                    ;
                    assert(avail < k + 1) by (nonlinear_arith)
                        requires
                            avail * arr < (k + 1) * arr,
                            arr >= 1,
                    ;
                }
                assert(k == avail);
            } else {
                assert(k * arr == 0) by (nonlinear_arith)
                    requires
                        arr == 0,
                ;
            }
        }
    }

    /// Gravity: the timer accumulates elapsed time (quartered and clamped
    /// while soft-dropping) and the piece falls one row per full gravity
    /// interval, stopping early when grounded.
    fn gravity(&mut self, elapsed: u128, speed_up: bool)
        requires
            old(self).wf(),
        ensures
            final(self).wf(),
            *final(self) == (Game {
                piece: final(self).piece,
                gravity_timer: final(self).gravity_timer,
                ..*old(self)
            }),
            final(self).piece.rotation == old(self).piece.rotation,
            final(self).piece.shape == old(self).piece.shape,
            final(self).piece.color == old(self).piece.color,
            final(self).piece.kick_table == old(self).piece.kick_table,
            final(self).piece.spin_bonus == old(self).piece.spin_bonus,
            final(self).piece.position.col == old(self).piece.position.col,
            final(self).piece.last_move_was_rotation == old(self).piece.last_move_was_rotation,
            old(self).piece.hits(
                grid(old(self).matrix@),
                0,
                1,
                old(self).piece.rotation as int,
            ) ==> final(self).piece == old(self).piece,
            ({
                let g = grid(old(self).matrix@);
                let p = old(self).piece;
                let cells = p.shape_cells(p.rotation as int);
                let interval = if speed_up {
                    old(self).ruleset.gravity / 4
                } else {
                    old(self).ruleset.gravity
                };
                let t0 = if speed_up && old(self).gravity_timer > interval {
                    interval
                } else {
                    old(self).gravity_timer
                };
                let timer = sat128(t0 + elapsed);
                !p.hits(g, 0, 0, p.rotation as int) ==> ({
                    let drop = ghost_row_spec(
                        g,
                        cells,
                        p.position.col as int,
                        p.position.row as int,
                    ) - p.position.row;
                    &&& (interval > 0 ==> ({
                        let avail = if timer == 0 {
                            0int
                        } else {
                            (timer - 1) as int / interval as int
                        };
                        &&& (drop >= avail ==> final(self).piece.position.row == p.position.row
                            + avail && final(self).gravity_timer == timer - avail * interval)
                        &&& (drop < avail ==> final(self).piece.position.row == p.position.row
                            + drop && final(self).gravity_timer == timer - (drop + 1) * interval)
                    }))
                    &&& (interval == 0 ==> {
                        &&& (timer == 0 ==> final(self).piece == p && final(self).gravity_timer
                            == 0)
                        &&& (timer > 0 ==> final(self).piece.position.row == p.position.row + drop
                            && final(self).gravity_timer == timer)
                    })
                })
            }),
    {
        let ghost g = grid(self.matrix@);
        let ghost p0 = self.piece;
        let ghost cells0 = p0.shape_cells(p0.rotation as int);
        let ghost settled = !p0.hits(g, 0, 0, p0.rotation as int);
        let ghost drop = ghost_row_spec(g, cells0, p0.position.col as int, p0.position.row as int)
            - p0.position.row;
        let ghost mut d: int = 0;
        let mut gravity_interval = self.ruleset.gravity;
        if speed_up {
            gravity_interval = gravity_interval / 4;
            if self.gravity_timer > gravity_interval {
                self.gravity_timer = gravity_interval;
            }
        }
        self.gravity_timer = sat_add_u128(self.gravity_timer, elapsed);
        let ghost timer0 = self.gravity_timer;
        proof {
            if settled {
                crate::piece::lemma_ghost_reachable(
                    g,
                    cells0,
                    p0.position.col as int,
                    p0.position.row as int,
                );
                crate::piece::lemma_ghost_grounded(
                    g,
                    cells0,
                    p0.position.col as int,
                    p0.position.row as int,
                );
                assert forall|t: int|
                    p0.position.row <= t <= p0.position.row + drop implies !#[trigger] crate::piece::shape_hits(
                    g,
                    cells0,
                    p0.position.col as int,
                    t,
                ) by {
                    let dd = t - p0.position.row;
                    assert(!crate::piece::shape_hits(
                        g,
                        cells0,
                        p0.position.col as int,
                        p0.position.row + dd,
                    ));
                    assert(p0.position.row + dd == t);
                }
            }
        }
        while self.gravity_timer > gravity_interval
            invariant
                g == grid(self.matrix@),
                self.wf(),
                *self == (Game {
                    piece: self.piece,
                    gravity_timer: self.gravity_timer,
                    ..*old(self)
                }),
                gravity_interval == (if speed_up {
                    old(self).ruleset.gravity / 4
                } else {
                    old(self).ruleset.gravity
                }),
                timer0 == sat128(
                    (if speed_up && old(self).gravity_timer > gravity_interval {
                        gravity_interval as int
                    } else {
                        old(self).gravity_timer as int
                    }) + elapsed,
                ),
                p0 == old(self).piece,
                cells0 == p0.shape_cells(p0.rotation as int),
                settled == !p0.hits(g, 0, 0, p0.rotation as int),
                settled ==> drop == ghost_row_spec(
                    g,
                    cells0,
                    p0.position.col as int,
                    p0.position.row as int,
                ) - p0.position.row,
                settled ==> forall|t: int|
                    p0.position.row <= t <= p0.position.row + drop
                        ==> !#[trigger] crate::piece::shape_hits(
                        g,
                        cells0,
                        p0.position.col as int,
                        t,
                    ),
                settled ==> crate::piece::shape_hits(
                    g,
                    cells0,
                    p0.position.col as int,
                    p0.position.row + drop + 1,
                ),
                self.piece.rotation == old(self).piece.rotation,
                self.piece.shape == old(self).piece.shape,
                self.piece.color == old(self).piece.color,
                self.piece.kick_table == old(self).piece.kick_table,
                self.piece.spin_bonus == old(self).piece.spin_bonus,
                self.piece.position.col == old(self).piece.position.col,
                self.piece.last_move_was_rotation == old(self).piece.last_move_was_rotation,
                old(self).piece.hits(g, 0, 1, old(self).piece.rotation as int) ==> self.piece
                    == old(self).piece,
                settled ==> 0 <= d <= drop,
                settled ==> self.piece.position.row == p0.position.row + d,
                settled ==> self.gravity_timer == timer0 - d * gravity_interval,
                settled && gravity_interval > 0 ==> d == 0 || d * gravity_interval < timer0,
                settled && d > 0 ==> timer0 > 0,
                settled && d == 0 ==> self.piece == p0,
            decreases g.len() + 130 - self.piece.position.row,
        {
            self.gravity_timer = self.gravity_timer - gravity_interval;
            proof {
                assert(self.piece.shape_cells(self.piece.rotation as int).len() > 0);
                assert(0 <= self.piece.shape_cells(self.piece.rotation as int)[0].1
                    + self.piece.position.row < g.len());
            }
            if !self.piece.movement(&self.matrix, HDirection::Idle, VDirection::Down) {
                proof {
                    if settled {
                        // The blocked attempt happened at the ghost row,
                        // with budget to spare.
                        assert(crate::piece::shape_hits(
                            g,
                            cells0,
                            p0.position.col as int,
                            p0.position.row + d + 1,
                        ));
                        assert(d == drop);
                        if gravity_interval > 0 {
                            assert((d + 1) * gravity_interval == d * gravity_interval
                                + gravity_interval) by (nonlinear_arith);
                            assert(d + 1 <= (timer0 - 1) as int / gravity_interval as int)
                                by (nonlinear_arith)
                                requires
                                    (d + 1) * gravity_interval < timer0,
                                    gravity_interval >= 1,
                                    d >= 0,
                            ;
                            assert(self.gravity_timer == timer0 - (d + 1) * gravity_interval);
                        } else {
                            assert(d * gravity_interval == 0) by (nonlinear_arith)
                                requires
                                    gravity_interval == 0,
                            ;
                            assert(self.gravity_timer == timer0);
                        }
                    }
                }
                return ;
            }
            proof {
                let cells = self.piece.shape_cells(self.piece.rotation as int);
                crate::piece::lemma_nohit_in_bounds(
                    g,
                    cells,
                    self.piece.position.col as int,
                    self.piece.position.row as int,
                );
                crate::piece::lemma_ghost_cells_in_bounds(
                    g,
                    cells,
                    self.piece.position.col as int,
                    self.piece.position.row as int,
                );
                assert(0 <= cells[0].1 + self.piece.position.row < g.len());
                if settled {
                    assert(d < drop);
                    assert((d + 1) * gravity_interval == d * gravity_interval + gravity_interval)
                        by (nonlinear_arith);
                    d = d + 1;
                }
            }
        }
        proof {
            if settled && gravity_interval > 0 {
                let avail = if timer0 == 0 {
                    0int
                } else {
                    (timer0 - 1) as int / gravity_interval as int
                };
                if d > 0 {
                    assert(d <= (timer0 - 1) as int / gravity_interval as int) by (nonlinear_arith)
                        requires
                            d * gravity_interval < timer0,
                            gravity_interval >= 1,
                            d >= 1,
                    ;
                }
                assert(d <= avail);
                assert(timer0 <= (d + 1) * gravity_interval) by (nonlinear_arith)
                    requires
                        timer0 as int - d * gravity_interval <= gravity_interval as int,
                ;
                if timer0 > 0 {
                    assert(avail * gravity_interval <= timer0 - 1) by (nonlinear_arith)
                        requires
                            gravity_interval >= 1,
                            timer0 >= 1,
                            avail == (timer0 - 1) as int / gravity_interval as int,
                    ;
                    assert(avail < d + 1) by (nonlinear_arith)
                        requires
                            avail * gravity_interval < (d + 1) * gravity_interval,
                            gravity_interval >= 1,
                    ;
                }
                assert(d == avail);
            }
            if settled && gravity_interval == 0 {
                assert(d * gravity_interval == 0) by (nonlinear_arith)
                    requires
                        gravity_interval == 0,
                ;
            }
        }
    }

    /// Held-direction movement: a changed direction moves one cell at once
    /// and resets the auto-shift timers; otherwise the delayed-auto-shift
    /// timer accumulates and, once charged, the tick's time converts into
    /// auto-repeat steps.
    fn handle_piece_movement(&mut self, elapsed: u128, direction: HDirection)
        requires
            old(self).wf(),
            direction != HDirection::Idle,
        ensures
            final(self).wf(),
            *final(self) == (Game {
                piece: final(self).piece,
                das_timer: final(self).das_timer,
                arr_leftover: final(self).arr_leftover,
                prev_direction: final(self).prev_direction,
                ..*old(self)
            }),
            final(self).piece.rotation == old(self).piece.rotation,
            final(self).piece.shape == old(self).piece.shape,
            final(self).piece.position.row == old(self).piece.position.row,
            old(self).prev_direction != direction ==> ({
                let g = grid(old(self).matrix@);
                let p = old(self).piece;
                let h = crate::piece::h_offset_spec(direction);
                &&& final(self).das_timer == 0
                &&& final(self).arr_leftover == 0
                &&& final(self).prev_direction == direction
                &&& (!p.hits(g, h, 0, p.rotation as int) ==> final(self).piece.position.col
                    == p.position.col + h)
                &&& (p.hits(g, h, 0, p.rotation as int) ==> final(self).piece == p)
            }),
            old(self).prev_direction == direction ==> ({
                let das2 = sat128(old(self).das_timer + elapsed);
                &&& final(self).das_timer == das2
                &&& final(self).prev_direction == old(self).prev_direction
                &&& (das2 < old(self).das ==> final(self).piece == old(self).piece
                    && final(self).arr_leftover == old(self).arr_leftover)
                &&& (das2 >= old(self).das ==> auto_shift_post(
                    grid(old(self).matrix@),
                    old(self).piece,
                    final(self).piece,
                    final(self).arr_leftover as int,
                    direction,
                    sat128(elapsed + old(self).arr_leftover),
                    old(self).arr as int,
                ))
            }),
    {
        let ghost g = grid(self.matrix@);
        let same = match (self.prev_direction, direction) {
            (HDirection::Left, HDirection::Left) => true,
            (HDirection::Right, HDirection::Right) => true,
            (HDirection::Idle, HDirection::Idle) => true,
            _ => false,
        };
        if !same {
            proof {
                assert(self.piece.shape_cells(self.piece.rotation as int).len() > 0);
                assert(0 <= self.piece.shape_cells(self.piece.rotation as int)[0].0
                    + self.piece.position.col < g[0].len());
            }
            let moved = self.piece.movement(&self.matrix, direction, VDirection::Idle);
            proof {
                if moved {
                    let cells = self.piece.shape_cells(self.piece.rotation as int);
                    crate::piece::lemma_nohit_in_bounds(
                        g,
                        cells,
                        self.piece.position.col as int,
                        self.piece.position.row as int,
                    );
                    crate::piece::lemma_ghost_cells_in_bounds(
                        g,
                        cells,
                        self.piece.position.col as int,
                        self.piece.position.row as int,
                    );
                }
            }
            self.direction_change(direction);
        } else {
            self.das_timer = sat_add_u128(self.das_timer, elapsed);
            if self.das_timer >= self.das {
                let time = sat_add_u128(elapsed, self.arr_leftover);
                let arr = self.arr;
                self.auto_shift(direction, time, arr);
            }
        }
    }

    /// Swaps the active piece with the held piece (pulling from the queue
    /// when nothing is held yet), resets position, rotation and the
    /// short-lived timers, and recomputes the ghost row.  Holding is
    /// consumed until the next placement.
    pub fn hold_piece(&mut self)
        requires
            old(self).wf(),
        ensures
            final(self).wf(),
            !old(self).can_hold ==> *final(self) == *old(self),
            old(self).can_hold ==> !final(self).can_hold,
            final(self).matrix == old(self).matrix,
            final(self).stats == old(self).stats,
            final(self).level_stats == old(self).level_stats,
            final(self).level == old(self).level,
            final(self).ruleset == old(self).ruleset,
            final(self).game_over == old(self).game_over,
            final(self).piece_data == old(self).piece_data,
            final(self).kick_data == old(self).kick_data,
            final(self).rulesets == old(self).rulesets,
            final(self).gamemode == old(self).gamemode,
            final(self).held is Some || old(self).held is None,
            old(self).can_hold ==> {
                let g = grid(old(self).matrix@);
                &&& final(self).gravity_timer == 0
                &&& final(self).lock_timer == 0
                &&& final(self).das_timer == 0
                &&& final(self).arr_leftover == 0
                &&& final(self).prev_direction == HDirection::Idle
                &&& (match final(self).held {
                    Option::Some(stored) => {
                        &&& same_piece_kind(stored, old(self).piece)
                        &&& stored.rotation == 0
                        &&& stored.position.row == 0
                        &&& stored.position.col == spawn_col(
                            g[0].len() as int,
                            old(self).piece.shape_cells(0),
                        )
                    },
                    Option::None => false,
                })
                &&& (match old(self).held {
                    Option::Some(h) => {
                        &&& same_piece_kind(final(self).piece, h)
                        &&& final(self).piece.position == h.position
                        &&& final(self).piece.rotation == h.rotation
                        &&& final(self).piece_queue == old(self).piece_queue
                    },
                    Option::None => old(self).piece_queue@.len() > 0 ==> same_piece_kind(
                        final(self).piece,
                        old(self).piece_queue@.last(),
                    ) && final(self).piece.rotation == 0 && final(self).piece.position.row == 0,
                })
                &&& final(self).piece.ghost_position == ghost_row_spec(
                    g,
                    final(self).piece.shape_cells(final(self).piece.rotation as int),
                    final(self).piece.position.col as int,
                    final(self).piece.position.row as int,
                )
            },
    {
        if !self.can_hold {
            return ;
        }
        let ghost g = grid(self.matrix@);
        self.can_hold = false;
        self.piece.reset_position(&self.matrix);
        proof {
            let cells = self.piece.shape_cells(0);
            crate::piece::lemma_cells_extremes(cells);
            assert forall|k: int| 0 <= k < cells.len() implies 0 <= (#[trigger] cells[k]).0
                + self.piece.position.col < g[0].len() && 0 <= cells[k].1 + self.piece.position.row
                < g.len() by {
                assert(cells_min_x(cells) <= cells[k].0 <= cells_max_x(cells));
                assert(cells[k].1 <= cells_max_y(cells));
                assert(cells[k].0 >= 0 && cells[k].1 >= 0);
            }
        }
        match &mut self.held {
            Option::Some(held) => {
                std::mem::swap(&mut self.piece, held);
            },
            Option::None => {
                extend_queue(
                    &mut self.piece_queue,
                    self.ruleset.preview_count,
                    &self.piece_data,
                    &mut self.randomizer,
                );
                proof {
                    let last = self.piece_queue@.last();
                    lemma_game_piece_stored_ok(
                        last,
                        self.piece_data@,
                        self.kick_data@.len() as int,
                        g[0].len() as int,
                        g.len() as int,
                    );
                }
                let next = next_piece(&mut self.piece_queue, &self.matrix);
                let mut tmp = next;
                std::mem::swap(&mut self.piece, &mut tmp);
                self.held = Some(tmp);
            },
        }
        self.gravity_timer = 0;
        self.lock_timer = 0;
        self.direction_change(HDirection::Idle);
        self.piece.update_ghost(&self.matrix);
        proof {
            crate::piece::lemma_ghost_cells_in_bounds(
                g,
                self.piece.shape_cells(self.piece.rotation as int),
                self.piece.position.col as int,
                self.piece.position.row as int,
            );
        }
    }

    /// Replaces the board with one of the ruleset's current dimensions,
    /// carrying over as much of the existing stack as possible, and
    /// re-anchors the active and held pieces.
    fn adjust_matrix_size(&mut self)
        requires
            grid_wf(grid(old(self).matrix@)),
            grid_bounded(grid(old(self).matrix@)),
            ruleset_ok(old(self).ruleset@, old(self).piece_data@),
            catalog_ok(old(self).piece_data@, old(self).kick_data@.len() as int),
            old(self).kick_data@.len() >= 1,
            game_piece_ok(old(self).piece, old(self).piece_data@),
            old(self).piece.wf(),
            match old(self).held {
                Option::Some(p) => game_piece_ok(p, old(self).piece_data@) && p.wf(),
                Option::None => true,
            },
        ensures
            grid(final(self).matrix@) == crate::board::resized(
                grid(old(self).matrix@),
                old(self).ruleset.matrix_width as int,
                old(self).ruleset.matrix_height + OFFSCREEN_ROWS,
            ),
            grid_wf(grid(final(self).matrix@)),
            grid_bounded(grid(final(self).matrix@)),
            final(self).matrix@.len() == old(self).ruleset.matrix_height + OFFSCREEN_ROWS,
            grid(final(self).matrix@)[0].len() == old(self).ruleset.matrix_width,
            game_piece_ok(final(self).piece, old(self).piece_data@),
            active_piece_ok(
                final(self).piece,
                grid(final(self).matrix@),
                old(self).kick_data@.len() as int,
            ),
            match final(self).held {
                Option::Some(p) => game_piece_ok(p, old(self).piece_data@) && stored_piece_ok(
                    p,
                    old(self).kick_data@.len() as int,
                    grid(final(self).matrix@)[0].len() as int,
                    grid(final(self).matrix@).len() as int,
                ) && p.rotation < 4 && cells_in_bounds(
                    grid(final(self).matrix@),
                    p.shape_cells(p.rotation as int),
                    p.position.col as int,
                    p.position.row as int,
                ),
                Option::None => true,
            },
            final(self).held is Some <==> old(self).held is Some,
            *final(self) == (Game {
                matrix: final(self).matrix,
                piece: final(self).piece,
                held: final(self).held,
                ..*old(self)
            }),
            final(self).piece.shape == old(self).piece.shape,
            final(self).piece.color == old(self).piece.color,
            final(self).piece.kick_table == old(self).piece.kick_table,
            final(self).piece.spin_bonus == old(self).piece.spin_bonus,
            final(self).piece.rotation == 0,
            final(self).piece.position.row == 0,
    {
        let ghost kick_len = self.kick_data@.len() as int;
        let new_matrix = crate::board::resize_matrix(
            &self.matrix,
            self.ruleset.matrix_width,
            self.ruleset.matrix_height + OFFSCREEN_ROWS,
        );
        self.matrix = new_matrix;
        let ghost g = grid(self.matrix@);
        proof {
            lemma_game_piece_stored_ok(
                self.piece,
                self.piece_data@,
                kick_len,
                g[0].len() as int,
                g.len() as int,
            );
        }
        self.piece.reset_position(&self.matrix);
        proof {
            let cells = self.piece.shape_cells(0);
            crate::piece::lemma_cells_extremes(cells);
            assert forall|k: int| 0 <= k < cells.len() implies 0 <= (#[trigger] cells[k]).0
                + self.piece.position.col < g[0].len() && 0 <= cells[k].1 + self.piece.position.row
                < g.len() by {
                assert(cells_min_x(cells) <= cells[k].0 <= cells_max_x(cells));
                assert(cells[k].1 <= cells_max_y(cells));
                assert(cells[k].0 >= 0 && cells[k].1 >= 0);
            }
            crate::piece::lemma_ghost_cells_in_bounds(
                g,
                cells,
                self.piece.position.col as int,
                0,
            );
        }
        let ghost data = self.piece_data@;
        match &mut self.held {
            Option::Some(held) => {
                proof {
                    lemma_game_piece_stored_ok(
                        *held,
                        data,
                        kick_len,
                        g[0].len() as int,
                        g.len() as int,
                    );
                }
                held.reset_position(&self.matrix);
                proof {
                    let cells = held.shape_cells(0);
                    crate::piece::lemma_cells_extremes(cells);
                    assert forall|k: int| 0 <= k < cells.len() implies 0 <= (#[trigger] cells[k]).0
                        + held.position.col < g[0].len() && 0 <= cells[k].1 + held.position.row
                        < g.len() by {
                        assert(cells_min_x(cells) <= cells[k].0 <= cells_max_x(cells));
                        assert(cells[k].1 <= cells_max_y(cells));
                        assert(cells[k].0 >= 0 && cells[k].1 >= 0);
                    }
                }
            },
            Option::None => {},
        }
    }

    /// Advances one level: rebases the level-scoped stats, applies the new
    /// level's modifier batch, rebuilds the randomizer (deliberately
    /// discarding its memory), and acts on the structural commands the
    /// batch handed back: the queue is rebuilt (trimmed to three trailing
    /// pieces on a variant change), the board resized or cleared, and a
    /// forced end marks the game over.
    #[verifier::rlimit(100)]
    fn level_up(&mut self)
        requires
            old(self).wf(),
            old(self).ruleset.level_up_condition.satisfied(old(self).level_stats),
            old(self).level < 0xffff_ffff,
        ensures
            final(self).wf(),
            final(self).level == old(self).level + 1,
            final(self).stats == old(self).stats,
            final(self).level_stats.time == 0,
            final(self).level_stats.pieces_placed == 0,
            (match old(self).ruleset.level_up_condition {
                EndCondition::Lines(goal) => final(self).level_stats.lines_cleared == old(
                    self,
                ).level_stats.lines_cleared - goal,
                _ => final(self).level_stats.lines_cleared == 0,
            }),
            (match old(self).ruleset.level_up_condition {
                EndCondition::Score(goal) => final(self).level_stats.score == old(
                    self,
                ).level_stats.score - goal,
                _ => final(self).level_stats.score == 0,
            }),
            final(self).piece_data == old(self).piece_data,
            final(self).kick_data == old(self).kick_data,
            final(self).rulesets == old(self).rulesets,
            final(self).gamemode == old(self).gamemode,
            final(self).das_timer == old(self).das_timer,
            final(self).gravity_timer == old(self).gravity_timer,
            final(self).lock_timer == old(self).lock_timer,
            final(self).arr_leftover == old(self).arr_leftover,
            final(self).can_hold == old(self).can_hold,
            final(self).prev_direction == old(self).prev_direction,
            final(self).das == old(self).das,
            final(self).arr == old(self).arr,
            old(self).piece.rotation == 0 && old(self).piece.position.row == 0
                ==> final(self).piece.rotation == 0 && final(self).piece.position.row == 0,
    {
        let ghost models = ruleset_models(self.rulesets@);
        let ghost levels = self.gamemode.levels();
        let ghost initial = models[self.gamemode.initial_ruleset as int];
        let ghost kick_len = self.kick_data@.len() as int;
        self.level = self.level + 1;
        let condition = self.ruleset.level_up_condition;
        self.level_stats = Stats::next_level(&self.level_stats, &condition);
        proof {
            assert(crate::configuration::batch_loads_ok(
                crate::configuration::level_batch(levels, self.level as int),
                self.rulesets@.len() as int,
            ));
        }
        let commands = self.gamemode.level_up(&mut self.ruleset, self.level, &self.rulesets);
        proof {
            assert(self.ruleset@ == ruleset_at_level(initial, levels, models, self.level as int));
            assert(ruleset_ok(self.ruleset@, self.piece_data@));
        }
        let prev_style = self.randomizer.style;
        self.randomizer = Randomizer::new(
            crate::randomizer::copy_ids(&self.ruleset.piece_list),
            self.ruleset.randomizer,
        );
        proof {
            assert(ruleset_ok(self.ruleset@, self.piece_data@));
            assert(self.randomizer.piece_list@.len() > 0);
            assert(forall|k: int|
                0 <= k < self.randomizer.piece_list@.len() ==> (
                #[trigger] self.randomizer.piece_list@[k]) < self.piece_data@.len());
            assert(self.ruleset.matrix_height + OFFSCREEN_ROWS < 0x7fff_0000);
        }
        let style_changed = !styles_equal(self.randomizer.style, prev_style);
        let regenerate = commands_contain(&commands, Command::RegeneratePieces)
            || style_changed;
        if style_changed {
            // Trim the queue so the new variant takes effect soon, leaving
            // a few pieces to avoid jarring the player.
            let ghost pre_trim = *self;
            while self.piece_queue.len() > 3
                invariant
                    *self == (Game { piece_queue: self.piece_queue, ..pre_trim }),
                    forall|i: int|
                        0 <= i < self.piece_queue@.len() ==> game_piece_ok(
                            #[trigger] self.piece_queue@[i],
                            self.piece_data@,
                        ) && (#[trigger] self.piece_queue@[i]).rotation < 4,
                decreases self.piece_queue@.len(),
            {
                self.piece_queue.remove(0);
            }
        }
        if regenerate {
            extend_queue(
                &mut self.piece_queue,
                self.ruleset.preview_count,
                &self.piece_data,
                &mut self.randomizer,
            );
        }
        if commands_contain(&commands, Command::ResizeMatrix) || self.matrix.len()
            != self.ruleset.matrix_height + OFFSCREEN_ROWS || self.matrix[0].len()
            != self.ruleset.matrix_width {
            self.adjust_matrix_size();
        }
        if commands_contain(&commands, Command::ClearMatrix) {
            let cleared = make_empty_matrix(
                self.ruleset.matrix_width,
                self.ruleset.matrix_height + OFFSCREEN_ROWS,
            );
            self.matrix = cleared;
            self.piece.update_ghost(&self.matrix);
            proof {
                crate::piece::lemma_ghost_cells_in_bounds(
                    grid(self.matrix@),
                    self.piece.shape_cells(self.piece.rotation as int),
                    self.piece.position.col as int,
                    self.piece.position.row as int,
                );
            }
        }
        if commands_contain(&commands, Command::End) {
            self.game_over = true;
        }
        // Keep the queue deep enough for the (possibly changed) preview.
        extend_queue(
            &mut self.piece_queue,
            self.ruleset.preview_count,
            &self.piece_data,
            &mut self.randomizer,
        );
    }

    /// One tick of the state machine.  If the mode's end condition or a
    /// game over already holds, nothing happens.  Otherwise time is
    /// accumulated, the tick's movement and rotation intents are applied
    /// (one-shot flags are consumed), hold and gravity run, a grounded
    /// piece accumulates lock delay, and a placed piece is locked with
    /// line clears scored, the queue refilled, the next piece spawned and
    /// any earned level-ups applied.
    /// Builds a game from already-deserialized configuration: the game
    /// mode, the ruleset catalog it refers to, the piece and wall-kick
    /// catalogs, and the auto-shift timing.  All configuration is
    /// validated up front, so a constructed game never faults on rule
    /// application; validation faults abort construction.
    pub fn new(
        gamemode: GameMode,
        rulesets: Vec<Ruleset>,
        piece_data: Vec<PieceType>,
        kick_data: Vec<KickData>,
        config: Config,
    ) -> (r: Result<Game, crate::configuration::ValidationError>)
        ensures
            r is Ok <==> kick_data@.len() > 0 && catalog_ok(piece_data@, kick_data@.len() as int)
                && gamemode_ok(gamemode, ruleset_models(rulesets@), piece_data@),
            r matches Ok(game) ==> {
                &&& game.wf()
                &&& game.level == 1
                &&& game.stats == (Stats { score: 0, time: 0, lines_cleared: 0, pieces_placed: 0 })
                &&& game.level_stats == game.stats
                &&& !game.game_over
                &&& game.can_hold
                &&& game.held is None
                &&& game.das == config.das * 1000
                &&& game.arr == config.arr * 1000
                &&& game.das_timer == 0
                &&& game.gravity_timer == 0
                &&& game.lock_timer == 0
                &&& game.arr_leftover == 0
                &&& !game.prev_clear_was_fancy
                &&& game.prev_direction == HDirection::Idle
                &&& game.piece.rotation == 0
                &&& game.piece.position.row == 0
                &&& game.piece.position.col == spawn_col(
                    grid(game.matrix@)[0].len() as int,
                    game.piece.shape_cells(0),
                )
                &&& game_piece_ok(game.piece, piece_data@)
                &&& game.ruleset@ == rulesets@[gamemode.initial_ruleset as int]@
                &&& game.gamemode == gamemode
                &&& crate::board::occupied_cells(grid(game.matrix@)) == 0
            },
    {
        if kick_data.len() == 0 {
            proof {
                if catalog_ok(piece_data@, 0) && gamemode_ok(
                    gamemode,
                    ruleset_models(rulesets@),
                    piece_data@,
                ) {
                    assert(ruleset_ok(
                        ruleset_at_level(
                            ruleset_models(rulesets@)[gamemode.initial_ruleset as int],
                            gamemode.levels(),
                            ruleset_models(rulesets@),
                            1,
                        ),
                        piece_data@,
                    ));
                }
            }
            return Err(crate::configuration::ValidationError::EmptyKickData);
        }
        if gamemode.initial_ruleset >= rulesets.len() {
            return Err(crate::configuration::ValidationError::BadRulesetIndex { level: 1 });
        }
        match crate::configuration::validate_data(
            &piece_data,
            &kick_data,
            &rulesets[gamemode.initial_ruleset].piece_list,
        ) {
            Result::Err(e) => {
                proof {
                    if gamemode_ok(gamemode, ruleset_models(rulesets@), piece_data@) {
                        assert(ruleset_ok(
                            ruleset_at_level(
                                ruleset_models(rulesets@)[gamemode.initial_ruleset as int],
                                gamemode.levels(),
                                ruleset_models(rulesets@),
                                1,
                            ),
                            piece_data@,
                        ));
                        assert(ruleset_models(rulesets@)[gamemode.initial_ruleset as int]
                            == rulesets@[gamemode.initial_ruleset as int]@);
                    }
                }
                return Err(e);
            },
            Result::Ok(()) => {},
        }
        match gamemode.validate(&rulesets, &piece_data) {
            Result::Err(e) => {
                return Err(e);
            },
            Result::Ok(()) => {},
        }
        let ghost models = ruleset_models(rulesets@);
        let ruleset = crate::configuration::clone_ruleset(&rulesets[gamemode.initial_ruleset]);
        proof {
            assert(models[gamemode.initial_ruleset as int] == rulesets@[gamemode.initial_ruleset as int]@);
            assert(ruleset@ == ruleset_at_level(
                models[gamemode.initial_ruleset as int],
                gamemode.levels(),
                models,
                1,
            ));
            assert(ruleset_ok(ruleset@, piece_data@));
        }
        let matrix = make_empty_matrix(
            ruleset.matrix_width,
            ruleset.matrix_height + OFFSCREEN_ROWS,
        );
        proof {
            assert forall|i: int| 0 <= i < grid(matrix@).len() implies row_occ_zero(
                grid(matrix@),
                i,
            ) by {
                crate::board::lemma_row_occupied_empty(ruleset.matrix_width as nat);
            }
            lemma_occ_all_empty(grid(matrix@));
        }
        // Generate the first batch with the starting randomizer style, then
        // switch to the ruleset's main style.
        let starting_randomizer = match ruleset.starting_randomizer {
            Option::Some(x) => x,
            Option::None => ruleset.randomizer,
        };
        let mut randomizer = Randomizer::new(
            crate::randomizer::copy_ids(&ruleset.piece_list),
            starting_randomizer,
        );
        let mut piece_queue = randomizer.generate_pieces(
            &ruleset.cannot_start_with,
            &piece_data,
            0,
        );
        proof {
            lemma_generated_game_ok(
                piece_queue@,
                ruleset.piece_list@,
                piece_data@,
                starting_randomizer == crate::randomizer::RandomizerStyle::Chaos,
            );
        }
        randomizer.style = ruleset.randomizer;
        extend_queue(&mut piece_queue, ruleset.preview_count, &piece_data, &mut randomizer);
        proof {
            lemma_game_piece_stored_ok(
                piece_queue@.last(),
                piece_data@,
                kick_data@.len() as int,
                grid(matrix@)[0].len() as int,
                grid(matrix@).len() as int,
            );
        }
        let piece = next_piece(&mut piece_queue, &matrix);
        let stats = Stats::new();
        let level_stats = Stats::new();
        let game = Game {
            matrix,
            piece,
            held: None,
            piece_data,
            kick_data,
            rulesets,
            piece_queue,
            gamemode,
            ruleset,
            stats,
            level_stats,
            randomizer,
            level: 1,
            // Config values are in milliseconds; the core runs on
            // microseconds.
            das: config.das as u128 * 1000,
            arr: config.arr as u128 * 1000,
            das_timer: 0,
            gravity_timer: 0,
            lock_timer: 0,
            arr_leftover: 0,
            can_hold: true,
            prev_clear_was_fancy: false,
            prev_direction: HDirection::Idle,
            game_over: false,
        };
        proof {
            assert(game.wf());
        }
        Ok(game)
    }

    /// Applies the tick's resolved movement intent.  Returns whether a
    /// hard drop flagged the piece as placed this tick.
    fn apply_movement(
        &mut self,
        input: &mut InputState,
        elapsed: u128,
        movement_action: MovementAction,
    ) -> (placed: bool)
        requires
            old(self).wf(),
            movement_action matches MovementAction::Horizontal(d) ==> d != HDirection::Idle,
            movement_action matches MovementAction::ShiftHorizontal(d) ==> d != HDirection::Idle,
        ensures
            final(self).wf(),
            placed == (movement_action == MovementAction::HardDrop),
            final(self).stats == old(self).stats,
            final(self).level_stats == old(self).level_stats,
            final(self).piece_data == old(self).piece_data,
            final(self).kick_data == old(self).kick_data,
            final(self).rulesets == old(self).rulesets,
            final(self).gamemode == old(self).gamemode,
            final(self).ruleset == old(self).ruleset,
            final(self).game_over == old(self).game_over,
            final(self).held == old(self).held,
            final(self).piece_queue == old(self).piece_queue,
            final(self).lock_timer == old(self).lock_timer,
            final(self).can_hold == old(self).can_hold,
            *final(self) == (Game {
                piece: final(self).piece,
                das_timer: final(self).das_timer,
                arr_leftover: final(self).arr_leftover,
                prev_direction: final(self).prev_direction,
                ..*old(self)
            }),
            movement_action == MovementAction::HardDrop || movement_action
                == MovementAction::InstantDrop ==> final(self).piece == (Piece {
                position: (crate::piece::Position {
                    col: old(self).piece.position.col,
                    row: old(self).piece.ghost_position,
                }),
                ..old(self).piece
            }) && final(self).das_timer == old(self).das_timer && final(self).arr_leftover == old(
                self,
            ).arr_leftover && final(self).prev_direction == old(self).prev_direction,
            movement_action == MovementAction::Idle ==> final(self).piece == old(self).piece,
            movement_action matches MovementAction::Horizontal(d) ==> ({
                let g = grid(old(self).matrix@);
                let p = old(self).piece;
                let h = crate::piece::h_offset_spec(d);
                if old(self).prev_direction != d {
                    &&& (!p.hits(g, h, 0, p.rotation as int) ==> final(self).piece.position.col
                        == p.position.col + h)
                    &&& (p.hits(g, h, 0, p.rotation as int) ==> final(self).piece == p)
                    &&& final(self).piece.position.row == p.position.row
                    &&& final(self).piece.rotation == p.rotation
                    &&& final(self).piece.shape == p.shape
                } else {
                    let das2 = sat128(old(self).das_timer + elapsed);
                    &&& (das2 < old(self).das ==> final(self).piece == p)
                    &&& (das2 >= old(self).das ==> auto_shift_post(
                        g,
                        p,
                        final(self).piece,
                        final(self).arr_leftover as int,
                        d,
                        sat128(elapsed + old(self).arr_leftover),
                        old(self).arr as int,
                    ))
                }
            }),
            movement_action matches MovementAction::ShiftHorizontal(d) ==> auto_shift_post(
                grid(old(self).matrix@),
                old(self).piece,
                final(self).piece,
                final(self).arr_leftover as int,
                d,
                u128::MAX as int,
                0,
            ),
            movement_action == MovementAction::HardDrop ==> !final(input).hard_drop
                && *final(input) == (InputState { hard_drop: false, ..*old(input) }),
            movement_action == MovementAction::InstantDrop ==> !final(input).instant_drop
                && *final(input) == (InputState { instant_drop: false, ..*old(input) }),
            movement_action != MovementAction::HardDrop && movement_action
                != MovementAction::InstantDrop ==> *final(input) == *old(input),
    {
        let ghost g0 = grid(self.matrix@);
        match movement_action {
            MovementAction::HardDrop => {
                input.hard_drop = false;
                self.piece.hard_drop();
                proof {
                    crate::piece::lemma_ghost_idempotent(
                        g0,
                        self.piece.shape_cells(self.piece.rotation as int),
                        self.piece.position.col as int,
                        old(self).piece.position.row as int,
                    );
                }
                true
            },
            MovementAction::InstantDrop => {
                input.instant_drop = false;
                self.piece.hard_drop();
                proof {
                    crate::piece::lemma_ghost_idempotent(
                        g0,
                        self.piece.shape_cells(self.piece.rotation as int),
                        self.piece.position.col as int,
                        old(self).piece.position.row as int,
                    );
                }
                false
            },
            MovementAction::Horizontal(direction) => {
                self.handle_piece_movement(elapsed, direction);
                false
            },
            MovementAction::ShiftHorizontal(direction) => {
                self.direction_change(direction);
                self.auto_shift(direction, u128::MAX, 0);
                false
            },
            MovementAction::Idle => {
                self.direction_change(HDirection::Idle);
                false
            },
        }
    }

    /// Applies the tick's resolved rotation intent, consuming the rotation
    /// flags; a successful rotation shaves a quarter of the lock delay off
    /// the lock timer.
    fn apply_rotation(&mut self, input: &mut InputState, rotation_action: RotationAction)
        requires
            old(self).wf(),
        ensures
            final(self).wf(),
            final(self).stats == old(self).stats,
            final(self).level_stats == old(self).level_stats,
            final(self).piece_data == old(self).piece_data,
            final(self).kick_data == old(self).kick_data,
            final(self).rulesets == old(self).rulesets,
            final(self).gamemode == old(self).gamemode,
            final(self).ruleset == old(self).ruleset,
            final(self).game_over == old(self).game_over,
            final(self).held == old(self).held,
            final(self).piece_queue == old(self).piece_queue,
            final(self).can_hold == old(self).can_hold,
            rotation_action != RotationAction::Idle ==> !final(input).rotate_cw
                && !final(input).rotate_ccw && !final(input).rotate_180
                && *final(input) == (InputState {
                rotate_cw: false,
                rotate_ccw: false,
                rotate_180: false,
                ..*old(input)
            }),
            rotation_action == RotationAction::Idle ==> *final(self) == *old(self)
                && *final(input) == *old(input),
            *final(self) == (Game {
                piece: final(self).piece,
                lock_timer: final(self).lock_timer,
                ..*old(self)
            }),
    {
        let ghost g0 = grid(self.matrix@);
        match rotation_action {
            RotationAction::Idle => {},
            _ => {
                input.rotate_cw = false;
                input.rotate_ccw = false;
                input.rotate_180 = false;
                let ghost pre_rot = self.piece;
                let turned = self.piece.rotate(&self.matrix, &self.kick_data, rotation_action);
                proof {
                    let tgt = (pre_rot.rotation + crate::piece::rot_amount_spec(rotation_action))
                        % 4;
                    let cells = pre_rot.shape_cells(tgt);
                    if turned {
                        if !pre_rot.hits(g0, 0, 0, tgt) {
                            crate::piece::lemma_nohit_in_bounds(
                                g0,
                                cells,
                                pre_rot.position.col as int,
                                pre_rot.position.row as int,
                            );
                        } else {
                            let kicks = crate::piece::kick_candidates(
                                self.kick_data@,
                                pre_rot.kick_table as int,
                                pre_rot.rotation as int,
                                crate::piece::rot_amount_spec(rotation_action),
                            );
                            crate::piece::lemma_first_kick_some(
                                g0,
                                cells,
                                pre_rot.position.col as int,
                                pre_rot.position.row as int,
                                kicks,
                            );
                            crate::piece::lemma_nohit_in_bounds(
                                g0,
                                cells,
                                self.piece.position.col as int,
                                self.piece.position.row as int,
                            );
                        }
                        crate::piece::lemma_ghost_cells_in_bounds(
                            g0,
                            cells,
                            self.piece.position.col as int,
                            self.piece.position.row as int,
                        );
                    }
                }
                if turned {
                    // Reduce the lock timer after a successful rotation to
                    // make deliberate spin maneuvers easier.
                    let quarter = self.ruleset.lock_delay / 4;
                    if self.lock_timer >= quarter {
                        self.lock_timer = self.lock_timer - quarter;
                    } else {
                        self.lock_timer = 0;
                    }
                }
            },
        }
    }

    /// Locks the placed piece into the board, evaluates spin bonus, game
    /// over and line clears, resets the short-lived timers, refills the
    /// queue, spawns the next piece and applies any earned level-ups.
    fn place_piece(&mut self)
        requires
            old(self).wf(),
        ensures
            final(self).wf(),
            final(self).stats.time == old(self).stats.time,
            final(self).stats.score == sat32(
                old(self).stats.score + placement_points(
                    grid(old(self).matrix@),
                    old(self).piece,
                    old(self).prev_clear_was_fancy,
                    old(self).ruleset.score_multiplier,
                    old(self).level as int,
                ),
            ),
            final(self).stats.lines_cleared == sat32(
                old(self).stats.lines_cleared + rows_cleared_by(
                    grid(old(self).matrix@),
                    old(self).piece,
                ),
            ),
            final(self).stats.pieces_placed == sat32(old(self).stats.pieces_placed + 1),
            final(self).level >= old(self).level,
            final(self).level == old(self).level ==> grid(final(self).matrix@)
                == board_after_placement(grid(old(self).matrix@), old(self).piece),
            final(self).level == old(self).level ==> final(self).level_stats.time == old(
                self,
            ).level_stats.time,
            final(self).lock_timer == 0,
            final(self).gravity_timer == 0,
            final(self).das_timer == 0,
            final(self).arr_leftover == 0,
            final(self).prev_direction == HDirection::Idle,
            final(self).can_hold,
            final(self).piece.rotation == 0,
            final(self).piece.position.row == 0,
            final(self).piece_data == old(self).piece_data,
            final(self).kick_data == old(self).kick_data,
            final(self).rulesets == old(self).rulesets,
            final(self).gamemode == old(self).gamemode,
    {
        let bonus = self.piece.check_bonus(&self.matrix);
        self.piece.lock(&mut self.matrix);
        self.game_over = self.check_loss();
        self.lock_timer = 0;
        self.gravity_timer = 0;
        self.direction_change(HDirection::Idle);
        self.can_hold = true;
        self.stats.pieces_placed = sat_add_u32(self.stats.pieces_placed, 1);
        self.level_stats.pieces_placed = sat_add_u32(self.level_stats.pieces_placed, 1);
        self.handle_line_clears(bonus);
        extend_queue(
            &mut self.piece_queue,
            self.ruleset.preview_count,
            &self.piece_data,
            &mut self.randomizer,
        );
        proof {
            lemma_game_piece_stored_ok(
                self.piece_queue@.last(),
                self.piece_data@,
                self.kick_data@.len() as int,
                grid(self.matrix@)[0].len() as int,
                grid(self.matrix@).len() as int,
            );
        }
        let fresh = next_piece(&mut self.piece_queue, &self.matrix);
        self.piece = fresh;
        let ghost pre_levels = *self;
        proof {
            assert(self.wf());
        }
        // A single placement can satisfy the level-up condition several
        // levels in a row, e.g. clearing many lines against a cheap
        // threshold.
        while self.ruleset.level_up_condition.check(&self.level_stats) && self.level
            < 0xffff_ffff
            invariant
                self.wf(),
                self.stats == pre_levels.stats,
                self.piece_data == pre_levels.piece_data,
                self.kick_data == pre_levels.kick_data,
                self.rulesets == pre_levels.rulesets,
                self.gamemode == pre_levels.gamemode,
                self.level >= pre_levels.level,
                self.level == pre_levels.level ==> *self == pre_levels,
                self.das_timer == pre_levels.das_timer,
                self.gravity_timer == pre_levels.gravity_timer,
                self.lock_timer == pre_levels.lock_timer,
                self.arr_leftover == pre_levels.arr_leftover,
                self.can_hold == pre_levels.can_hold,
                self.prev_direction == pre_levels.prev_direction,
                self.piece.rotation == 0,
                self.piece.position.row == 0,
            decreases self.level_stats.score + self.level_stats.time
                    + self.level_stats.lines_cleared + self.level_stats.pieces_placed,
        {
            proof {
                assert(ruleset_ok(self.ruleset@, self.piece_data@));
                assert(self.ruleset.level_up_condition.nontrivial());
            }
            self.level_up();
        }
    }

    /// One tick of the state machine.  If the mode's end condition or a
    /// game over already holds, nothing happens.  Otherwise time is
    /// accumulated, the tick's movement and rotation intents are applied
    /// (one-shot flags are consumed), hold and gravity run, a grounded
    /// piece accumulates lock delay, and a placed piece is locked with
    /// line clears scored, the queue refilled, the next piece spawned and
    /// any earned level-ups applied.
    pub fn update(&mut self, input: &mut InputState, elapsed: u128)
        requires
            old(self).wf(),
        ensures
            final(self).wf(),
            (old(self).gamemode.end_condition.satisfied(old(self).stats) || old(
                self,
            ).game_over) ==> *final(self) == *old(self) && *final(input) == *old(input),
            !(old(self).gamemode.end_condition.satisfied(old(self).stats) || old(
                self,
            ).game_over) ==> final(self).stats.time == sat128(old(self).stats.time + elapsed),
            final(self).stats.score >= old(self).stats.score,
            final(self).stats.lines_cleared >= old(self).stats.lines_cleared,
            final(self).stats.pieces_placed >= old(self).stats.pieces_placed,
            final(self).piece_data == old(self).piece_data,
            final(self).kick_data == old(self).kick_data,
            final(self).rulesets == old(self).rulesets,
            final(self).gamemode == old(self).gamemode,
            !(old(self).gamemode.end_condition.satisfied(old(self).stats) || old(
                self,
            ).game_over) ==> {
                let shot = *final(input);
                &&& (movement_intent(*old(input)) == MovementAction::HardDrop ==> !shot.hard_drop)
                &&& (movement_intent(*old(input)) == MovementAction::InstantDrop
                    ==> !shot.instant_drop)
                &&& (rotation_intent(*old(input)) != RotationAction::Idle ==> !shot.rotate_cw
                    && !shot.rotate_ccw && !shot.rotate_180)
                &&& (old(self).ruleset.hold_enabled && old(input).hold ==> !shot.hold)
            },
            !(old(self).gamemode.end_condition.satisfied(old(self).stats) || old(
                self,
            ).game_over) && final(self).level == old(self).level ==> final(self).level_stats.time
                == sat128(old(self).level_stats.time + elapsed),
            !(old(self).gamemode.end_condition.satisfied(old(self).stats) || old(
                self,
            ).game_over) ==> {
                let shot = *final(input);
                &&& shot.left == old(input).left
                &&& shot.right == old(input).right
                &&& shot.shift_left == old(input).shift_left
                &&& shot.shift_right == old(input).shift_right
                &&& shot.soft_drop == old(input).soft_drop
                &&& shot.reset == old(input).reset
                &&& (movement_intent(*old(input)) != MovementAction::HardDrop ==> shot.hard_drop
                    == old(input).hard_drop)
                &&& (movement_intent(*old(input)) != MovementAction::InstantDrop
                    ==> shot.instant_drop == old(input).instant_drop)
                &&& (rotation_intent(*old(input)) == RotationAction::Idle ==> shot.rotate_cw
                    == old(input).rotate_cw && shot.rotate_ccw == old(input).rotate_ccw
                    && shot.rotate_180 == old(input).rotate_180)
                &&& (!(old(self).ruleset.hold_enabled && old(input).hold) ==> shot.hold == old(
                    input,
                ).hold)
            },
            !(old(self).gamemode.end_condition.satisfied(old(self).stats) || old(
                self,
            ).game_over) && movement_intent(*old(input)) == MovementAction::HardDrop ==> {
                &&& final(self).stats.pieces_placed == sat32(old(self).stats.pieces_placed + 1)
                &&& final(self).can_hold
                &&& final(self).lock_timer == 0
                &&& final(self).gravity_timer == 0
                &&& final(self).das_timer == 0
                &&& final(self).arr_leftover == 0
                &&& final(self).prev_direction == HDirection::Idle
                &&& final(self).piece.rotation == 0
                &&& final(self).piece.position.row == 0
            },
            !(old(self).gamemode.end_condition.satisfied(old(self).stats) || old(
                self,
            ).game_over) && rotation_intent(*old(input)) == RotationAction::Idle
                && movement_intent(*old(input)) != MovementAction::HardDrop && movement_intent(
                *old(input),
            ) != MovementAction::InstantDrop && !(old(self).ruleset.hold_enabled && old(
                input,
            ).hold) ==> exists|mid: Piece, left: int|
                #[trigger] movement_phase_post(
                    grid(old(self).matrix@),
                    *old(self),
                    *old(input),
                    mid,
                    left,
                    elapsed,
                ) && (!mid.hits(grid(old(self).matrix@), 0, 0, mid.rotation as int)
                    ==> gravity_tick_post(
                    grid(old(self).matrix@),
                    mid,
                    old(self).ruleset.gravity,
                    old(self).gravity_timer,
                    old(self).lock_timer,
                    old(self).ruleset.lock_delay,
                    old(self).stats.score,
                    old(self).stats.lines_cleared,
                    old(self).stats.pieces_placed,
                    old(self).prev_clear_was_fancy,
                    old(self).ruleset.score_multiplier,
                    old(self).level as int,
                    elapsed,
                    old(input).soft_drop,
                    *final(self),
                )),
            !(old(self).gamemode.end_condition.satisfied(old(self).stats) || old(
                self,
            ).game_over) && movement_intent(*old(input)) == MovementAction::HardDrop && !(old(
                self,
            ).ruleset.hold_enabled && old(input).hold) && !old(self).piece.hits(
                grid(old(self).matrix@),
                0,
                0,
                old(self).piece.rotation as int,
            ) ==> ({
                let dropped = Piece {
                    position: (Position {
                        col: old(self).piece.position.col,
                        row: old(self).piece.ghost_position,
                    }),
                    ..old(self).piece
                };
                &&& final(self).stats.score == sat32(
                    old(self).stats.score + placement_points(
                        grid(old(self).matrix@),
                        dropped,
                        old(self).prev_clear_was_fancy,
                        old(self).ruleset.score_multiplier,
                        old(self).level as int,
                    ),
                )
                &&& final(self).stats.lines_cleared == sat32(
                    old(self).stats.lines_cleared + rows_cleared_by(
                        grid(old(self).matrix@),
                        dropped,
                    ),
                )
                &&& (final(self).level == old(self).level ==> grid(final(self).matrix@)
                    == board_after_placement(grid(old(self).matrix@), dropped))
            }),
    {
        if self.gamemode.end_condition.check(&self.stats) {
            return ;
        }
        if self.game_over {
            return ;
        }
        self.stats.time = sat_add_u128(self.stats.time, elapsed);
        self.level_stats.time = sat_add_u128(self.level_stats.time, elapsed);
        let (movement_action, rotation_action) = read_inputs(input);
        let mut placed_piece = self.apply_movement(input, elapsed, movement_action);
        let ghost mid = self.piece;
        let ghost left = self.arr_leftover as int;
        self.apply_rotation(input, rotation_action);
        if self.ruleset.hold_enabled && input.hold {
            input.hold = false;
            self.hold_piece();
        }
        proof {
            let p0 = old(self).piece;
            let g0 = grid(old(self).matrix@);
            if movement_intent(*old(input)) == MovementAction::HardDrop && !(old(
                self,
            ).ruleset.hold_enabled && old(input).hold) && !p0.hits(g0, 0, 0, p0.rotation as int) {
                crate::piece::lemma_ghost_grounded(
                    g0,
                    p0.shape_cells(p0.rotation as int),
                    p0.position.col as int,
                    p0.position.row as int,
                );
            }
        }
        self.settle_piece(elapsed, input.soft_drop, placed_piece);
        proof {
            reveal(movement_phase_post);
            let g0 = grid(old(self).matrix@);
            if rotation_intent(*old(input)) == RotationAction::Idle && movement_intent(
                *old(input),
            ) != MovementAction::HardDrop && movement_intent(*old(input))
                != MovementAction::InstantDrop && !(old(self).ruleset.hold_enabled && old(
                input,
            ).hold) {
                assert(movement_phase_post(g0, *old(self), *old(input), mid, left, elapsed));
            }
        }
    }

    /// The tail of one tick: gravity, lock evaluation and, when the piece
    /// was dropped or its lock delay ran out while grounded, the placement.
    #[verifier::rlimit(100)]
    fn settle_piece(&mut self, elapsed: u128, soft_drop: bool, placed_by_drop: bool)
        requires
            old(self).wf(),
        ensures
            final(self).wf(),
            final(self).stats.time == old(self).stats.time,
            final(self).stats.score >= old(self).stats.score,
            final(self).stats.lines_cleared >= old(self).stats.lines_cleared,
            final(self).stats.pieces_placed >= old(self).stats.pieces_placed,
            final(self).piece_data == old(self).piece_data,
            final(self).kick_data == old(self).kick_data,
            final(self).rulesets == old(self).rulesets,
            final(self).gamemode == old(self).gamemode,
            final(self).level >= old(self).level,
            final(self).level == old(self).level ==> final(self).level_stats.time == old(
                self,
            ).level_stats.time,
            placed_by_drop ==> {
                &&& final(self).stats.pieces_placed == sat32(old(self).stats.pieces_placed + 1)
                &&& final(self).can_hold
                &&& final(self).lock_timer == 0
                &&& final(self).gravity_timer == 0
                &&& final(self).das_timer == 0
                &&& final(self).arr_leftover == 0
                &&& final(self).prev_direction == HDirection::Idle
                &&& final(self).piece.rotation == 0
                &&& final(self).piece.position.row == 0
            },
            !placed_by_drop && old(self).piece.hits(
                grid(old(self).matrix@),
                0,
                1,
                old(self).piece.rotation as int,
            ) && sat128(old(self).lock_timer + elapsed) >= old(self).ruleset.lock_delay ==> {
                &&& final(self).stats.pieces_placed == sat32(old(self).stats.pieces_placed + 1)
                &&& final(self).can_hold
                &&& final(self).lock_timer == 0
                &&& final(self).piece.rotation == 0
                &&& final(self).piece.position.row == 0
                &&& final(self).stats.score == sat32(
                    old(self).stats.score + placement_points(
                        grid(old(self).matrix@),
                        old(self).piece,
                        old(self).prev_clear_was_fancy,
                        old(self).ruleset.score_multiplier,
                        old(self).level as int,
                    ),
                )
                &&& final(self).stats.lines_cleared == sat32(
                    old(self).stats.lines_cleared + rows_cleared_by(
                        grid(old(self).matrix@),
                        old(self).piece,
                    ),
                )
                &&& (final(self).level == old(self).level ==> grid(final(self).matrix@)
                    == board_after_placement(grid(old(self).matrix@), old(self).piece))
            },
            !placed_by_drop && old(self).piece.hits(
                grid(old(self).matrix@),
                0,
                1,
                old(self).piece.rotation as int,
            ) && sat128(old(self).lock_timer + elapsed) < old(self).ruleset.lock_delay ==> ({
                &&& *final(self) == (Game {
                    piece: final(self).piece,
                    gravity_timer: final(self).gravity_timer,
                    lock_timer: final(self).lock_timer,
                    ..*old(self)
                })
                &&& final(self).piece == old(self).piece
                &&& final(self).lock_timer == sat128(old(self).lock_timer + elapsed)
            }),
            placed_by_drop && old(self).piece.hits(
                grid(old(self).matrix@),
                0,
                1,
                old(self).piece.rotation as int,
            ) ==> {
                &&& final(self).stats.score == sat32(
                    old(self).stats.score + placement_points(
                        grid(old(self).matrix@),
                        old(self).piece,
                        old(self).prev_clear_was_fancy,
                        old(self).ruleset.score_multiplier,
                        old(self).level as int,
                    ),
                )
                &&& final(self).stats.lines_cleared == sat32(
                    old(self).stats.lines_cleared + rows_cleared_by(
                        grid(old(self).matrix@),
                        old(self).piece,
                    ),
                )
                &&& (final(self).level == old(self).level ==> grid(final(self).matrix@)
                    == board_after_placement(grid(old(self).matrix@), old(self).piece))
            },
            !placed_by_drop && !old(self).piece.hits(
                grid(old(self).matrix@),
                0,
                0,
                old(self).piece.rotation as int,
            ) ==> gravity_tick_post(
                grid(old(self).matrix@),
                old(self).piece,
                old(self).ruleset.gravity,
                old(self).gravity_timer,
                old(self).lock_timer,
                old(self).ruleset.lock_delay,
                old(self).stats.score,
                old(self).stats.lines_cleared,
                old(self).stats.pieces_placed,
                old(self).prev_clear_was_fancy,
                old(self).ruleset.score_multiplier,
                old(self).level as int,
                elapsed,
                soft_drop,
                *final(self),
            ),
    {
        proof {
            reveal(gravity_tick_post);
        }
        let ghost g0 = grid(self.matrix@);
        let ghost p0 = self.piece;
        let ghost cells0 = p0.shape_cells(p0.rotation as int);
        let ghost well_placed = !p0.hits(g0, 0, 0, p0.rotation as int);
        let ghost drop = ghost_row_spec(g0, cells0, p0.position.col as int, p0.position.row as int)
            - p0.position.row;
        proof {
            if well_placed {
                crate::piece::lemma_ghost_reachable(
                    g0,
                    cells0,
                    p0.position.col as int,
                    p0.position.row as int,
                );
                crate::piece::lemma_ghost_grounded(
                    g0,
                    cells0,
                    p0.position.col as int,
                    p0.position.row as int,
                );
                assert forall|t: int|
                    p0.position.row <= t <= p0.position.row + drop
                        implies !#[trigger] crate::piece::shape_hits(
                    g0,
                    cells0,
                    p0.position.col as int,
                    t,
                ) by {
                    let dd = t - p0.position.row;
                    assert(!crate::piece::shape_hits(
                        g0,
                        cells0,
                        p0.position.col as int,
                        p0.position.row + dd,
                    ));
                    assert(p0.position.row + dd == t);
                }
            }
        }
        self.gravity(elapsed, soft_drop);
        let ghost mid = self.piece;
        proof {
            if well_placed && !placed_by_drop {
                // Whether the piece reached its ghost row decides whether it
                // is grounded now.
                if mid.position.row == p0.position.row + drop {
                    assert(crate::piece::shape_hits(
                        g0,
                        cells0,
                        p0.position.col as int,
                        p0.position.row + drop + 1,
                    ));
                    assert(mid.hits(g0, 0, 1, mid.rotation as int));
                } else {
                    assert(p0.position.row <= mid.position.row + 1 <= p0.position.row + drop);
                    assert(!crate::piece::shape_hits(
                        g0,
                        cells0,
                        p0.position.col as int,
                        mid.position.row + 1,
                    ));
                    assert(!mid.hits(g0, 0, 1, mid.rotation as int));
                }
            }
        }
        let mut placed_piece = placed_by_drop;
        if self.piece.is_grounded(&self.matrix) {
            self.lock_timer = sat_add_u128(self.lock_timer, elapsed);
            placed_piece = placed_piece || self.lock_timer >= self.ruleset.lock_delay;
        } else {
            self.lock_timer = 0;
        }
        let ghost pre_place = *self;
        if placed_piece {
            self.place_piece();
        }
        proof {
            if well_placed && !placed_by_drop && mid.position.row == p0.position.row + drop
                && placed_piece {
                let placed = Piece {
                    position: (Position {
                        col: p0.position.col,
                        row: (p0.position.row + drop) as i32,
                    }),
                    ..p0
                };
                assert(mid.shape == placed.shape);
                assert(mid.shape_cells(mid.rotation as int) == placed.shape_cells(
                    placed.rotation as int,
                ));
                assert(board_after_lock(g0, mid) == board_after_lock(g0, placed));
                assert(rows_cleared_by(g0, mid) == rows_cleared_by(g0, placed));
                assert(spin_bonus_spec(g0, mid) == spin_bonus_spec(g0, placed));
                assert(placement_points(
                    g0,
                    mid,
                    pre_place.prev_clear_was_fancy,
                    pre_place.ruleset.score_multiplier,
                    pre_place.level as int,
                ) == placement_points(
                    g0,
                    placed,
                    pre_place.prev_clear_was_fancy,
                    pre_place.ruleset.score_multiplier,
                    pre_place.level as int,
                ));
                assert(board_after_placement(g0, mid) == board_after_placement(g0, placed));
            }
        }
    }

    /// The game is lost when the piece just placed sits entirely within
    /// the invisible overflow region above the visible playfield.
    pub fn check_loss(&self) -> (r: bool)
        requires
            self.piece.wf(),
    ensures
            r == (if cells_max_y(self.piece.shape_cells(self.piece.rotation as int))
                + self.piece.position.row < 0 {
                0int
            } else {
                cells_max_y(self.piece.shape_cells(self.piece.rotation as int))
                    + self.piece.position.row
            } < OFFSCREEN_ROWS as int),
    {
        let ghost cells = self.piece.shape_cells(self.piece.rotation as int);
        let orientation = self.piece.get_orientation();
        let mut lowest: i64 = 0;
        let mut k: usize = 0;
        proof {
            crate::piece::lemma_cells_extremes(cells);
            crate::piece::lemma_cells_extremes_within(cells, 128);
        }
        while k < orientation.len()
            invariant
                k <= cells.len(),
                orientation@ == cells,
                self.piece.wf(),
                cells == self.piece.shape_cells(self.piece.rotation as int),
                -0x8000_0000 <= self.piece.position.row <= 0x7fff_ffff,
                k == 0 ==> lowest == 0,
                k > 0 ==> lowest == (if crate::piece::cells_max_y(cells.take(k as int))
                    + self.piece.position.row < 0 {
                    0int
                } else {
                    crate::piece::cells_max_y(cells.take(k as int)) + self.piece.position.row
                }),
                0 <= lowest <= 0x1_0000_0000,
            decreases cells.len() - k,
        {
            let (_, rel_row) = orientation[k];
            let row = rel_row as i64 + self.piece.position.row as i64;
            proof {
                assert(cells.take(k as int + 1).drop_last() =~= cells.take(k as int));
                assert(cells.take(k as int + 1).last() == cells[k as int]);
                if k > 0 {
                    crate::piece::lemma_cells_extremes(cells.take(k as int));
                }
            }
            if row > lowest {
                lowest = row;
            }
            k += 1;
        }
        proof {
            assert(cells.take(cells.len() as int) =~= cells);
        }
        lowest < OFFSCREEN_ROWS as i64
    }
}

} // verus!
