//! Piece-sequence generation: seven selectable algorithms over a list of
//! piece catalog indices, plus procedural shape synthesis for the `Chaos`
//! variant.
//!
//! Pieces are identified by their index into the piece catalog; the mapping
//! from configuration names to indices happens outside the core.

use vstd::prelude::*;

verus! {

use crate::piece::{Piece, PieceColor, PieceShape, PieceType, shape_wf, cells_nonneg};

/// The selectable sequence-generation algorithms.
#[derive(Clone, Copy, PartialEq, Eq, Structural, Debug)]
pub enum RandomizerStyle {
    /// A randomized list of all pieces once.
    NBag,
    /// A randomized list containing each piece twice.
    DoubleNBag,
    /// A randomized list of all pieces except one; the excluded piece is
    /// remembered and never excluded twice in a row.
    Minus1Bag,
    /// Fully random list of pieces.
    FullRandom,
    /// Random list of pieces with one reroll on pieces that appear twice in
    /// a row.
    Classic,
    /// One random piece repeated a random number of times.
    Streak,
    /// Procedurally generated brand-new shapes.
    Chaos,
}

/// Piece-sequence generator: the active piece list, the selected algorithm,
/// and one remembered piece index for the variants that must avoid
/// immediate repeats.
pub struct Randomizer {
    pub piece_list: Vec<usize>,
    pub style: RandomizerStyle,
    pub remembered_piece: Option<usize>,
}

/// Relies on `rand::Rng::gen_range` over the half-open range `lo..hi`,
/// drawing from `rand::thread_rng`: it panics on an empty range and
/// otherwise returns a uniformly distributed value of that range.
#[verifier::external_body]
fn rand_in_range(lo: usize, hi: usize) -> (r: usize)
    requires
        lo < hi,
    ensures
        lo <= r < hi,
{
    rand::Rng::gen_range(&mut rand::thread_rng(), lo..hi)
}

/// Element-wise copy of a list of piece indices.
pub(crate) fn copy_ids(src: &Vec<usize>) -> (r: Vec<usize>)
    ensures
        r@ == src@,
{
    let mut out: Vec<usize> = Vec::new();
    let mut i: usize = 0;
    while i < src.len()
        invariant
            i <= src@.len(),
            out@ == src@.take(i as int),
        decreases src@.len() - i,
    {
        out.push(src[i]);
        proof {
            assert(src@.take(i as int).push(src@[i as int]) =~= src@.take(i as int + 1));
        }
        i += 1;
    }
    proof {
        assert(src@.take(src@.len() as int) =~= src@);
    }
    out
}

/// Swapping two elements of a sequence preserves its multiset of values.
proof fn lemma_swap_multiset(s: Seq<usize>, i: int, j: int)
    requires
        0 <= i < s.len(),
        0 <= j < s.len(),
    ensures
        s.update(i, s[j]).update(j, s[i]).to_multiset() =~= s.to_multiset(),
{
    broadcast use vstd::seq_lib::to_multiset_update;
    broadcast use vstd::seq_lib::group_to_multiset_ensures;
    broadcast use vstd::multiset::group_multiset_axioms;

    if i == j {
        assert(s.update(i, s[j]).update(j, s[i]) =~= s);
    } else {
        let s1 = s.update(i, s[j]);
        assert(s1[j] == s[j]);
        assert(s1[i] == s[j]);
        assert(s1.to_multiset() =~= s.to_multiset().remove(s[i]).insert(s[j]));
        assert(s1.update(j, s[i]).to_multiset() =~= s1.to_multiset().remove(s1[j]).insert(s[i]));
        assert(s.to_multiset().contains(s[i]));
        assert(s1.update(j, s[i]).to_multiset() =~= s.to_multiset());
    }
}

/// Fisher-Yates-style shuffle: each slot is swapped with a uniformly chosen
/// slot at or after it.  The multiset of values is preserved.
fn randomize(bag: &mut Vec<usize>)
    ensures
        final(bag)@.to_multiset() == old(bag)@.to_multiset(),
        final(bag)@.len() == old(bag)@.len(),
{
    let len = bag.len();
    let mut i: usize = 0;
    while i < len
        invariant
            len == bag@.len(),
            bag@.to_multiset() == old(bag)@.to_multiset(),
        decreases len - i,
    {
        let j = rand_in_range(i, len);
        let ghost pre = bag@;
        let a = bag[i];
        let b = bag[j];
        bag[i] = b;
        bag[j] = a;
        proof {
            assert(bag@ =~= pre.update(i as int, pre[j as int]).update(j as int, pre[i as int]));
            lemma_swap_multiset(pre, i as int, j as int);
        }
        i += 1;
    }
}

/// The side of the tight square box around a cell set: the larger of its
/// width and height.
pub open spec fn shape_bound(cells: Seq<(i8, i8)>) -> int {
    let w = crate::piece::cells_max_x(cells) - crate::piece::cells_min_x(cells) + 1;
    let h = crate::piece::cells_max_y(cells) - crate::piece::cells_min_y(cells) + 1;
    if w >= h {
        w
    } else {
        h
    }
}

/// All offsets of a cell set lie in the square [0, bound) x [0, bound).
pub open spec fn cells_within(cells: Seq<(i8, i8)>, bound: int) -> bool {
    forall|k: int|
        0 <= k < cells.len() ==> 0 <= (#[trigger] cells[k]).0 < bound && 0 <= cells[k].1 < bound
}

/// All four rotation states fit in the square [0, bound) x [0, bound).
pub open spec fn shape_within(shape: PieceShape, bound: int) -> bool {
    forall|rot: int| 0 <= rot < 4 ==> cells_within((#[trigger] shape@[rot])@, bound)
}

/// What holds of every procedurally generated piece: a fresh well-formed
/// shape within a 4-by-4 box, a real color, the designated kick table, no
/// spin bonus, and the initial transform state.
pub open spec fn chaos_piece(p: Piece, chaos_kick: usize) -> bool {
    &&& shape_wf(p.shape)
    &&& shape_within(p.shape, 4)
    &&& p.color != PieceColor::Empty
    &&& p.color != PieceColor::ColorCount
    &&& p.kick_table == chaos_kick
    &&& !p.spin_bonus
    &&& p.rotation == 0
    &&& p.position.col == 0
    &&& p.position.row == 0
    &&& p.ghost_position == 0
    &&& !p.last_move_was_rotation
}

/// The piece is a fresh instance of some catalog entry named by the piece
/// list.
pub open spec fn batch_piece_ok(p: Piece, list: Seq<usize>, data: Seq<PieceType>) -> bool {
    exists|t: usize| #[trigger] list.contains(t) && piece_matches_type(p, data[t as int])
}

/// The piece is a fresh instance of the given catalog entry.
pub open spec fn piece_matches_type(p: Piece, t: PieceType) -> bool {
    &&& forall|rot: int| 0 <= rot < 4 ==> (#[trigger] p.shape@[rot])@ == t.shape@[rot]@
    &&& p.color == t.color
    &&& p.kick_table == t.kick_table
    &&& p.spin_bonus == t.spin_bonus
    &&& p.rotation == 0
    &&& p.position.col == 0
    &&& p.position.row == 0
    &&& p.ghost_position == 0
    &&& !p.last_move_was_rotation
}

/// Rotates a shape clockwise by making each row (from the top) a column
/// (from the right): `(col, row)` becomes `(bound - 1 - row, col)`.
pub fn rotate_shape(shape: &Vec<(i8, i8)>, bound: i8) -> (r: Vec<(i8, i8)>)
    requires
        1 <= bound <= 4,
        cells_within(shape@, bound as int),
    ensures
        r@.len() == shape@.len(),
        forall|k: int|
            0 <= k < r@.len() ==> (#[trigger] r@[k]).0 == bound - 1 - shape@[k].1 && r@[k].1
                == shape@[k].0,
        cells_within(r@, bound as int),
{
    let mut rotated: Vec<(i8, i8)> = Vec::new();
    let columns = bound - 1;
    let mut k: usize = 0;
    while k < shape.len()
        invariant
            k <= shape@.len(),
            columns == bound - 1,
            1 <= bound <= 4,
            cells_within(shape@, bound as int),
            rotated@.len() == k,
            forall|t: int|
                0 <= t < k ==> (#[trigger] rotated@[t]).0 == bound - 1 - shape@[t].1
                    && rotated@[t].1 == shape@[t].0,
        decreases shape@.len() - k,
    {
        let (i, j) = shape[k];
        rotated.push((columns - j, i));
        k += 1;
    }
    rotated
}

/// Moves the shape's center to the center of a tight square bounding box;
/// returns the new bound (the larger of the tight width and height).
fn adjust_bounding_box(shape: &mut Vec<(i8, i8)>) -> (nb: i8)
    requires
        old(shape)@.len() > 0,
        cells_within(old(shape)@, 4),
    ensures
        1 <= nb <= 4,
        nb == shape_bound(old(shape)@),
        final(shape)@.len() == old(shape)@.len(),
        cells_within(final(shape)@, nb as int),
        forall|rt: int| 0 <= rt < final(shape)@.len() ==> (#[trigger] final(shape)@[rt]).0
            == old(shape)@[rt].0 + (nb / 2 - (crate::piece::cells_min_x(old(shape)@) + (
        crate::piece::cells_max_x(old(shape)@) - crate::piece::cells_min_x(old(shape)@) + 1)
            / 2)) && final(shape)@[rt].1 == old(shape)@[rt].1 + (nb / 2 - (
        crate::piece::cells_min_y(old(shape)@) + (crate::piece::cells_max_y(old(shape)@)
            - crate::piece::cells_min_y(old(shape)@) + 1) / 2)),
    {
        proof {
            crate::piece::lemma_cells_extremes(old(shape)@);
            crate::piece::lemma_cells_extremes_within(old(shape)@, 4);
        }
        let (leftmost, topmost) = crate::piece::shape_top_left(shape);
        let (width, height) = crate::piece::shape_dimensions(shape);
        let piece_center_x = (leftmost as i64 + (width / 2) as i64) as i8;
        let piece_center_y = (topmost as i64 + (height / 2) as i64) as i8;
        let new_bound = if width > height {
            width as i8
        } else {
            height as i8
        };
        let centering_offset_x = new_bound / 2 - piece_center_x;
        let centering_offset_y = new_bound / 2 - piece_center_y;
        let ghost pre = shape@;
        let ghost minx = crate::piece::cells_min_x(pre);
        let ghost maxx = crate::piece::cells_max_x(pre);
        let ghost miny = crate::piece::cells_min_y(pre);
        let ghost maxy = crate::piece::cells_max_y(pre);
        proof {
            assert(new_bound / 2 >= (maxx - minx + 1) / 2) by (nonlinear_arith)
                requires
                    new_bound >= maxx - minx + 1,
                    new_bound <= 4,
                    maxx >= minx,
            ;
            assert(new_bound / 2 >= (maxy - miny + 1) / 2) by (nonlinear_arith)
                requires
                    new_bound >= maxy - miny + 1,
                    new_bound <= 4,
                    maxy >= miny,
            ;
            assert(new_bound / 2 - (maxx - minx + 1) / 2 + (maxx - minx) < new_bound)
                by (nonlinear_arith)
                requires
                    new_bound >= maxx - minx + 1,
                    1 <= new_bound <= 4,
                    maxx >= minx,
            ;
            assert(new_bound / 2 - (maxy - miny + 1) / 2 + (maxy - miny) < new_bound)
                by (nonlinear_arith)
                requires
                    new_bound >= maxy - miny + 1,
                    1 <= new_bound <= 4,
                    maxy >= miny,
            ;
        }
        let mut k: usize = 0;
        while k < shape.len()
            invariant
                k <= shape@.len(),
                shape@.len() == pre.len(),
                cells_within(pre, 4),
                minx == crate::piece::cells_min_x(pre),
                maxx == crate::piece::cells_max_x(pre),
                miny == crate::piece::cells_min_y(pre),
                maxy == crate::piece::cells_max_y(pre),
                forall|t: int|
                    0 <= t < pre.len() ==> minx <= (#[trigger] pre[t]).0 <= maxx && miny
                        <= pre[t].1 <= maxy,
                centering_offset_x == new_bound / 2 - (minx + (maxx - minx + 1) / 2),
                centering_offset_y == new_bound / 2 - (miny + (maxy - miny + 1) / 2),
                1 <= new_bound <= 4,
                new_bound >= maxx - minx + 1,
                new_bound >= maxy - miny + 1,
                new_bound / 2 - (maxx - minx + 1) / 2 + (maxx - minx) < new_bound,
                new_bound / 2 - (maxy - miny + 1) / 2 + (maxy - miny) < new_bound,
                forall|t: int|
                    k <= t < pre.len() ==> (#[trigger] shape@[t]) == pre[t],
                forall|t: int|
                    0 <= t < k ==> (#[trigger] shape@[t]).0 == pre[t].0 + centering_offset_x
                        && shape@[t].1 == pre[t].1 + centering_offset_y,
            decreases shape@.len() - k,
        {
            let (x, y) = shape[k];
            shape[k] = (x + centering_offset_x, y + centering_offset_y);
            k += 1;
        }
        new_bound
    }

/// Draws a color tag uniformly among the eight real piece colors.
fn random_color() -> (r: PieceColor)
    ensures
        r != PieceColor::Empty,
        r != PieceColor::ColorCount,
{
    let n = rand_in_range(0, 8);
    match n {
        0 => PieceColor::Cyan,
        1 => PieceColor::Magenta,
        2 => PieceColor::Yellow,
        3 => PieceColor::Blue,
        4 => PieceColor::Orange,
        5 => PieceColor::Green,
        6 => PieceColor::Red,
        _ => PieceColor::Gray,
    }
}

/// Procedurally synthesizes a brand-new 4-rotation shape: a random 3- or
/// 4-wide bounding box is filled cell by cell with decreasing likelihood
/// (adjacency to already-filled cells raises the odds), at least one cell is
/// guaranteed, the box is tightened and re-centered, and the other three
/// rotation states are derived clockwise.
pub fn generate_piece_shape() -> (r: PieceShape)
    ensures
        shape_wf(r),
        shape_within(r, 4),
        r@[1]@.len() == r@[0]@.len(),
        r@[2]@.len() == r@[0]@.len(),
        r@[3]@.len() == r@[0]@.len(),
        ({
            let b = shape_bound(r@[0]@);
            &&& forall|k: int|
                0 <= k < r@[0]@.len() ==> (#[trigger] r@[1]@[k]).0 == b - 1 - r@[0]@[k].1
                    && r@[1]@[k].1 == r@[0]@[k].0
            &&& forall|k: int|
                0 <= k < r@[1]@.len() ==> (#[trigger] r@[2]@[k]).0 == b - 1 - r@[1]@[k].1
                    && r@[2]@[k].1 == r@[1]@[k].0
            &&& forall|k: int|
                0 <= k < r@[2]@.len() ==> (#[trigger] r@[3]@[k]).0 == b - 1 - r@[2]@[k].1
                    && r@[3]@[k].1 == r@[2]@[k].0
        }),
{
    let bound = rand_in_range(3, 5);
    let mut initial_rotation: Vec<(i8, i8)> = Vec::new();
    let mut prev_row: Vec<bool> = Vec::new();
    let mut t: usize = 0;
    while t < bound
        invariant
            prev_row@.len() == t,
            t <= bound,
        decreases bound - t,
    {
        prev_row.push(false);
        t += 1;
    }
    let mut i: usize = 0;
    while i < bound
        invariant
            i <= bound,
            3 <= bound < 5,
            prev_row@.len() == bound,
            cells_within(initial_rotation@, bound as int),
        decreases bound - i,
    {
        let mut prev = false;
        let mut j: usize = 0;
        while j < bound
            invariant
                j <= bound,
                i < bound,
                3 <= bound < 5,
                prev_row@.len() == bound,
                cells_within(initial_rotation@, bound as int),
            decreases bound - j,
        {
            let r = rand_in_range(0, 100);
            let mut is_filled = initial_rotation.len() < 1 && r < 80;
            is_filled = is_filled || initial_rotation.len() < 4 && (prev_row[j] || prev) && r < 60;
            is_filled = is_filled || (prev_row[j] || prev) && r < 30;
            is_filled = is_filled || r < 5;
            if is_filled {
                initial_rotation.push((j as i8, i as i8));
            }
            prev = is_filled;
            prev_row[j] = is_filled;
            j += 1;
        }
        i += 1;
    }
    if initial_rotation.len() == 0 {
        initial_rotation.push((0, 0));
    }
    let ghost pre_adjust = initial_rotation@;
    let new_bound = adjust_bounding_box(&mut initial_rotation);
    proof {
        let dx = new_bound as int / 2 - (crate::piece::cells_min_x(pre_adjust) + (
        crate::piece::cells_max_x(pre_adjust) - crate::piece::cells_min_x(pre_adjust) + 1) / 2);
        let dy = new_bound as int / 2 - (crate::piece::cells_min_y(pre_adjust) + (
        crate::piece::cells_max_y(pre_adjust) - crate::piece::cells_min_y(pre_adjust) + 1) / 2);
        crate::piece::lemma_cells_extremes_translate(pre_adjust, initial_rotation@, dx, dy);
        assert(shape_bound(initial_rotation@) == shape_bound(pre_adjust));
        assert(shape_bound(initial_rotation@) == new_bound as int);
    }
    let rot_cw = rotate_shape(&initial_rotation, new_bound);
    let rot_180 = rotate_shape(&rot_cw, new_bound);
    let rot_ccw = rotate_shape(&rot_180, new_bound);
    let shape: PieceShape = [initial_rotation, rot_cw, rot_180, rot_ccw];
    proof {
        assert(shape@[0]@.len() > 0);
        assert(cells_within(shape@[0]@, 4));
        assert(cells_within(shape@[1]@, 4));
        assert(cells_within(shape@[2]@, 4));
        assert(cells_within(shape@[3]@, 4));
    }
    shape
}

impl Randomizer {
    pub fn new(piece_list: Vec<usize>, style: RandomizerStyle) -> (r: Randomizer)
        ensures
            r.piece_list == piece_list,
            r.style == style,
            r.remembered_piece is None,
    {
        Randomizer { piece_list, style, remembered_piece: None }
    }

    /// One shuffled copy of the full piece list: every piece exactly once.
    pub fn n_bag(&self) -> (r: Vec<usize>)
        ensures
            r@.to_multiset() == self.piece_list@.to_multiset(),
            r@.len() == self.piece_list@.len(),
    {
        let mut bag = copy_ids(&self.piece_list);
        randomize(&mut bag);
        bag
    }

    /// A shuffled full bag with exactly one piece removed from its end; the
    /// removed piece is remembered and never removed from two consecutive
    /// bags as long as the list holds at least two distinct pieces.
    pub fn minus_1_bag(&mut self) -> (r: Vec<usize>)
        ensures
            final(self).piece_list == old(self).piece_list,
            final(self).style == old(self).style,
            old(self).piece_list@.len() < 2 ==> r@.to_multiset() == old(
                self,
            ).piece_list@.to_multiset() && final(self).remembered_piece == old(
                self,
            ).remembered_piece,
            old(self).piece_list@.len() >= 2 ==> {
                &&& final(self).remembered_piece is Some
                &&& r@.to_multiset().insert(final(self).remembered_piece->0) == old(
                    self,
                ).piece_list@.to_multiset()
                &&& r@.len() == old(self).piece_list@.len() - 1
                &&& old(self).remembered_piece is Some && (exists|q: usize|
                    old(self).piece_list@.contains(q) && q != old(self).remembered_piece->0)
                    ==> final(self).remembered_piece->0 != old(self).remembered_piece->0
            },
    {
        broadcast use vstd::seq_lib::group_to_multiset_ensures;
        broadcast use vstd::multiset::group_multiset_axioms;

        let ghost list_ms = self.piece_list@.to_multiset();
        let mut bag = copy_ids(&self.piece_list);
        randomize(&mut bag);
        if bag.len() < 2 {
            return bag;
        }
        match self.remembered_piece {
            Option::Some(piece) => {
                let ghost pre_pop = bag@;
                let mut removed = match bag.pop() {
                    Option::Some(x) => x,
                    Option::None => 0,
                };
                proof {
                    assert(pre_pop =~= bag@.push(removed));
                    assert(bag@.to_multiset().insert(removed) == list_ms);
                }
                let mut tested: Vec<usize> = Vec::new();
                while removed == piece && bag.len() > 0
                    invariant
                        bag@.to_multiset().add(tested@.to_multiset()).insert(removed) == list_ms,
                        forall|t: int| 0 <= t < tested@.len() ==> (#[trigger] tested@[t]) == piece,
                    decreases bag@.len(),
                {
                    broadcast use vstd::seq_lib::group_to_multiset_ensures;
                    broadcast use vstd::multiset::group_multiset_axioms;

                    tested.push(removed);
                    let ghost pre = bag@;
                    removed = match bag.pop() {
                        Option::Some(x) => x,
                        Option::None => 0,
                    };
                    proof {
                        assert(pre =~= bag@.push(removed));
                    }
                }
                self.remembered_piece = Some(removed);
                let ghost bag_before = bag@;
                let ghost tested_before = tested@;
                bag.append(&mut tested);
                proof {
                    assert(bag@ =~= bag_before + tested_before);
                    vstd::seq_lib::lemma_multiset_commutative(bag_before, tested_before);
                    assert(bag@.to_multiset().insert(removed) == list_ms);
                    assert(bag@.to_multiset().len() == bag@.len());
                    assert(bag@.to_multiset().insert(removed).len() == bag@.to_multiset().len()
                        + 1);
                    assert(list_ms.len() == old(self).piece_list@.len());
                    if removed == piece {
                        // The loop drained the bag, so the whole list
                        // consisted of this one value and no distinct piece
                        // exists.
                        assert(bag_before.len() == 0);
                        assert forall|q: usize|
                            old(self).piece_list@.contains(q) implies q == piece by {
                            assert(list_ms.contains(q));
                            assert(bag@.to_multiset().contains(q) || q == removed);
                            if bag@.to_multiset().contains(q) {
                                assert(bag@.contains(q));
                                let t = choose|t: int| 0 <= t < bag@.len() && bag@[t] == q;
                                assert(bag@[t] == tested_before[t]);
                            }
                        }
                    }
                }
                bag
            },
            Option::None => {
                let ghost pre_pop = bag@;
                let removed = match bag.pop() {
                    Option::Some(x) => x,
                    Option::None => 0,
                };
                self.remembered_piece = Some(removed);
                proof {
                    assert(pre_pop =~= bag@.push(removed));
                    assert(bag@.to_multiset().insert(removed) == list_ms);
                }
                bag
            },
        }
    }

    /// Ten independently uniformly-chosen pieces, with replacement.
    pub fn full_random(&self) -> (r: Vec<usize>)
        requires
            self.piece_list@.len() > 0,
        ensures
            r@.len() == 10,
            forall|i: int| 0 <= i < r@.len() ==> self.piece_list@.contains(#[trigger] r@[i]),
    {
        let mut pieces: Vec<usize> = Vec::new();
        let mut n: usize = 0;
        while n < 10
            invariant
                n <= 10,
                self.piece_list@.len() > 0,
                pieces@.len() == n,
                forall|i: int| 0 <= i < pieces@.len() ==> self.piece_list@.contains(
                    #[trigger] pieces@[i],
                ),
            decreases 10 - n,
        {
            let idx = rand_in_range(0, self.piece_list.len());
            pieces.push(self.piece_list[idx]);
            n += 1;
        }
        pieces
    }

    /// A fully random batch with a single reroll applied to any piece that
    /// equals its immediate predecessor (the first element is compared
    /// against the previous batch's remembered last piece).
    pub fn classic(&mut self) -> (r: Vec<usize>)
        requires
            old(self).piece_list@.len() > 0,
        ensures
            final(self).piece_list == old(self).piece_list,
            final(self).style == old(self).style,
            r@.len() == 10,
            forall|i: int| 0 <= i < r@.len() ==> old(self).piece_list@.contains(#[trigger] r@[i]),
            final(self).remembered_piece == Some(r@[9]),
    {
        let mut pieces = self.full_random();
        match self.remembered_piece {
            Option::Some(prev) => {
                if pieces[0] == prev {
                    let idx = rand_in_range(0, self.piece_list.len());
                    pieces[0] = self.piece_list[idx];
                }
            },
            Option::None => {},
        }
        let mut i: usize = 1;
        while i < pieces.len()
            invariant
                1 <= i <= pieces@.len(),
                pieces@.len() == 10,
                self.piece_list@.len() > 0,
                *self == *old(self),
                forall|t: int| 0 <= t < pieces@.len() ==> self.piece_list@.contains(
                    #[trigger] pieces@[t],
                ),
            decreases pieces@.len() - i,
        {
            if pieces[i] == pieces[i - 1] {
                let idx = rand_in_range(0, self.piece_list.len());
                pieces[i] = self.piece_list[idx];
            }
            i += 1;
        }
        let last = pieces[pieces.len() - 1];
        self.remembered_piece = Some(last);
        pieces
    }

    /// One uniformly-chosen piece repeated a uniformly-chosen number of
    /// times in the range [2, 6).
    pub fn streak(&self) -> (r: Vec<usize>)
        requires
            self.piece_list@.len() > 0,
        ensures
            2 <= r@.len() < 6,
            forall|i: int| 0 <= i < r@.len() ==> (#[trigger] r@[i]) == r@[0],
            self.piece_list@.contains(r@[0]),
    {
        let idx = rand_in_range(0, self.piece_list.len());
        let piece = self.piece_list[idx];
        let count = rand_in_range(2, 6);
        let mut out: Vec<usize> = Vec::new();
        let mut n: usize = 0;
        while n < count
            invariant
                n <= count,
                count < 6,
                out@.len() == n,
                forall|i: int| 0 <= i < out@.len() ==> (#[trigger] out@[i]) == piece,
            decreases count - n,
        {
            out.push(piece);
            n += 1;
        }
        out
    }

    /// Ten procedurally synthesized pieces, each with a brand-new shape and
    /// a random color, using the designated kick table and no spin bonus.
    pub fn chaos(&self, chaos_kick: usize) -> (r: Vec<Piece>)
        ensures
            r@.len() == 10,
            forall|i: int| 0 <= i < r@.len() ==> chaos_piece(#[trigger] r@[i], chaos_kick),
    {
        let mut pieces: Vec<Piece> = Vec::new();
        let mut n: usize = 0;
        while n < 10
            invariant
                n <= 10,
                pieces@.len() == n,
                forall|i: int| 0 <= i < pieces@.len() ==> chaos_piece(#[trigger] pieces@[i], chaos_kick),
            decreases 10 - n,
        {
            let shape = generate_piece_shape();
            let color = random_color();
            let p = Piece::new(shape, color, chaos_kick, false);
            proof {
                assert(chaos_piece(p, chaos_kick));
            }
            pieces.push(p);
            n += 1;
        }
        pieces
    }

    /// Two concatenated copies of the piece list, shuffled together.
    pub fn double_n_bag(&self) -> (r: Vec<usize>)
        ensures
            r@.to_multiset() == (self.piece_list@ + self.piece_list@).to_multiset(),
            r@.len() == 2 * self.piece_list@.len(),
    {
        let mut bag = copy_ids(&self.piece_list);
        let mut second = copy_ids(&self.piece_list);
        bag.append(&mut second);
        proof {
            assert(bag@ =~= self.piece_list@ + self.piece_list@);
        }
        randomize(&mut bag);
        bag
    }

    /// Generates one batch of upcoming pieces with the selected algorithm,
    /// honoring the optional "cannot start with" exclusion (the batch's tail
    /// is the next piece to be dispensed).  Every produced piece is either a
    /// fresh instance of a catalog entry named by the piece list or, for the
    /// `Chaos` style, a procedurally generated piece on the designated kick
    /// table.
    pub fn generate_pieces(
        &mut self,
        cannot_start_with: &Option<Vec<usize>>,
        piece_data: &Vec<PieceType>,
        chaos_kick: usize,
    ) -> (r: Vec<Piece>)
        requires
            old(self).piece_list@.len() > 0,
            forall|k: int|
                0 <= k < old(self).piece_list@.len() ==> (#[trigger] old(self).piece_list@[k])
                    < piece_data@.len(),
        ensures
            final(self).piece_list == old(self).piece_list,
            final(self).style == old(self).style,
            r@.len() > 0,
            old(self).style == RandomizerStyle::Chaos ==> forall|i: int|
                0 <= i < r@.len() ==> chaos_piece(#[trigger] r@[i], chaos_kick),
            old(self).style != RandomizerStyle::Chaos ==> forall|i: int|
                0 <= i < r@.len() ==> batch_piece_ok(
                    #[trigger] r@[i],
                    old(self).piece_list@,
                    piece_data@,
                ),
            old(self).style == RandomizerStyle::NBag ==> r@.len() == old(self).piece_list@.len(),
            old(self).style == RandomizerStyle::DoubleNBag ==> r@.len() == 2 * old(
                self,
            ).piece_list@.len(),
            old(self).style == RandomizerStyle::Minus1Bag ==> r@.len() == (if old(
                self,
            ).piece_list@.len() < 2 {
                old(self).piece_list@.len() as int
            } else {
                old(self).piece_list@.len() - 1
            }),
            old(self).style == RandomizerStyle::FullRandom ==> r@.len() == 10,
            old(self).style == RandomizerStyle::Classic ==> r@.len() == 10,
            old(self).style == RandomizerStyle::Streak ==> 2 <= r@.len() < 6,
            old(self).style == RandomizerStyle::Chaos ==> r@.len() == 10,
            (*cannot_start_with matches Some(dis) && (old(self).style == RandomizerStyle::NBag
                || old(self).style == RandomizerStyle::DoubleNBag) && has_allowed(
                old(self).piece_list@,
                dis@,
            )) ==> tail_allowed(r@, cannot_start_with->0@, piece_data@),
            (*cannot_start_with matches Some(dis) && old(self).style == RandomizerStyle::Minus1Bag
                && (if old(self).piece_list@.len() < 2 {
                has_allowed(old(self).piece_list@, dis@)
            } else {
                has_two_allowed(old(self).piece_list@, dis@)
            })) ==> tail_allowed(r@, cannot_start_with->0@, piece_data@),
            (*cannot_start_with matches Some(dis) && old(self).style != RandomizerStyle::Chaos)
                ==> tail_allowed(r@, cannot_start_with->0@, piece_data@) || batch_all_disallowed(
                r@,
                cannot_start_with->0@,
                piece_data@,
            ),
    {
        broadcast use vstd::seq_lib::group_to_multiset_ensures;
        broadcast use vstd::multiset::group_multiset_axioms;

        let ghost list = self.piece_list@;
        let mut new_pieces: Vec<usize>;
        match self.style {
            RandomizerStyle::NBag => {
                new_pieces = self.n_bag();
            },
            RandomizerStyle::DoubleNBag => {
                new_pieces = self.double_n_bag();
                proof {
                    vstd::seq_lib::lemma_multiset_commutative(list, list);
                }
            },
            RandomizerStyle::Minus1Bag => {
                new_pieces = self.minus_1_bag();
            },
            RandomizerStyle::FullRandom => {
                new_pieces = self.full_random();
            },
            RandomizerStyle::Classic => {
                new_pieces = self.classic();
            },
            RandomizerStyle::Streak => {
                new_pieces = self.streak();
            },
            RandomizerStyle::Chaos => {
                return self.chaos(chaos_kick);
            },
        }
        proof {
            assert forall|i: int| 0 <= i < new_pieces@.len() implies list.contains(
                #[trigger] new_pieces@[i],
            ) by {
                let x = new_pieces@[i];
                assert(new_pieces@.to_multiset().contains(x));
                match old(self).style {
                    RandomizerStyle::NBag => {
                        assert(list.to_multiset().contains(x));
                    },
                    RandomizerStyle::DoubleNBag => {
                        assert((list + list).to_multiset().contains(x));
                        assert((list + list).contains(x));
                        let w = choose|w: int| 0 <= w < (list + list).len() && (list + list)[w] == x;
                        if w < list.len() {
                            assert(list[w] == x);
                        } else {
                            assert(list[w - list.len()] == x);
                        }
                    },
                    RandomizerStyle::Minus1Bag => {
                        if list.len() < 2 {
                            assert(list.to_multiset().contains(x));
                        } else {
                            let rem = final(self).remembered_piece->0;
                            assert(new_pieces@.to_multiset().insert(rem).count(x) > 0);
                            assert(list.to_multiset().contains(x));
                        }
                    },
                    _ => {},
                }
            }
        }
        proof {
            match old(self).style {
                RandomizerStyle::Minus1Bag => {
                    if list.len() < 2 {
                        assert(new_pieces@.to_multiset().len() == list.to_multiset().len());
                    }
                },
                _ => {},
            }
            assert(new_pieces@.len() > 0);
        }
        let ghost pre_fix = new_pieces@;
        match cannot_start_with {
            Option::Some(disallowed) => {
                proof {
                    let dis = disallowed@;
                    let bag_allowed = exists|w: int|
                        0 <= w < pre_fix.len() && !dis.contains(#[trigger] pre_fix[w]);
                    match old(self).style {
                        RandomizerStyle::NBag => {
                            if has_allowed(list, dis) {
                                let k = choose|k: int|
                                    0 <= k < list.len() && !dis.contains(#[trigger] list[k]);
                                assert(list.to_multiset().contains(list[k]));
                                assert(pre_fix.to_multiset().contains(list[k]));
                                assert(pre_fix.contains(list[k]));
                                let w = choose|w: int|
                                    0 <= w < pre_fix.len() && pre_fix[w] == list[k];
                                assert(!dis.contains(pre_fix[w]));
                                assert(bag_allowed);
                            }
                        },
                        RandomizerStyle::DoubleNBag => {
                            if has_allowed(list, dis) {
                                let k = choose|k: int|
                                    0 <= k < list.len() && !dis.contains(#[trigger] list[k]);
                                assert((list + list)[k] == list[k]);
                                assert((list + list).contains(list[k]));
                                assert((list + list).to_multiset().contains(list[k]));
                                assert(pre_fix.to_multiset().contains(list[k]));
                                assert(pre_fix.contains(list[k]));
                                let w = choose|w: int|
                                    0 <= w < pre_fix.len() && pre_fix[w] == list[k];
                                assert(!dis.contains(pre_fix[w]));
                                assert(bag_allowed);
                            }
                        },
                        RandomizerStyle::Minus1Bag => {
                            if list.len() < 2 {
                                if has_allowed(list, dis) {
                                    let k = choose|k: int|
                                        0 <= k < list.len() && !dis.contains(#[trigger] list[k]);
                                    assert(list.to_multiset().contains(list[k]));
                                    assert(pre_fix.to_multiset().contains(list[k]));
                                    assert(pre_fix.contains(list[k]));
                                    let w = choose|w: int|
                                        0 <= w < pre_fix.len() && pre_fix[w] == list[k];
                                    assert(!dis.contains(pre_fix[w]));
                                    assert(bag_allowed);
                                }
                            } else {
                                if has_two_allowed(list, dis) {
                                    let (k1, k2) = choose|k1: int, k2: int|
                                        0 <= k1 < k2 < list.len() && !dis.contains(
                                            #[trigger] list[k1],
                                        ) && !dis.contains(#[trigger] list[k2]);
                                    let rem = final(self).remembered_piece->0;
                                    let a = list[k1];
                                    let b = list[k2];
                                    if a == b {
                                        lemma_two_indices_count(list, k1, k2);
                                        assert(pre_fix.to_multiset().insert(rem).count(a)
                                            == list.to_multiset().count(a));
                                        assert(pre_fix.to_multiset().count(a) >= 1);
                                        assert(pre_fix.to_multiset().contains(a));
                                        assert(pre_fix.contains(a));
                                    } else {
                                        let c = if rem == a {
                                            b
                                        } else {
                                            a
                                        };
                                        assert(list.to_multiset().contains(c));
                                        assert(pre_fix.to_multiset().insert(rem).count(c)
                                            == list.to_multiset().count(c));
                                        assert(pre_fix.to_multiset().count(c) >= 1);
                                        assert(pre_fix.contains(c));
                                    }
                                    let cval = choose|cv: usize|
                                        !dis.contains(cv) && #[trigger] pre_fix.contains(cv);
                                    let w = choose|w: int|
                                        0 <= w < pre_fix.len() && pre_fix[w] == cval;
                                    assert(bag_allowed);
                                }
                            }
                        },
                        _ => {},
                    }
                }
                let ghost dis = disallowed@;
                fix_starting_piece(&mut new_pieces, disallowed);
                proof {
                    if exists|w: int| 0 <= w < pre_fix.len() && !dis.contains(#[trigger] pre_fix[w]) {
                        if dis.contains(pre_fix.last()) {
                            let w = choose|w: int|
                                0 <= w < pre_fix.len() && !dis.contains(#[trigger] pre_fix[w]);
                            assert(w != pre_fix.len() - 1);
                            lemma_last_allowed_finds(pre_fix, dis, pre_fix.len() - 1);
                            let k = last_allowed(pre_fix, dis, pre_fix.len() - 1)->0;
                            assert(new_pieces@.last() == pre_fix[k]);
                            assert(!dis.contains(new_pieces@.last()));
                        } else {
                            assert(new_pieces@.last() == pre_fix.last());
                            assert(!dis.contains(new_pieces@.last()));
                        }
                    }
                }
            },
            Option::None => {},
        }
        proof {
            assert forall|i: int| 0 <= i < new_pieces@.len() implies list.contains(
                #[trigger] new_pieces@[i],
            ) by {
                assert(pre_fix.contains(new_pieces@[i]));
                let w = choose|w: int| 0 <= w < pre_fix.len() && pre_fix[w] == new_pieces@[i];
                assert(list.contains(pre_fix[w]));
            }
        }
        let out = create_pieces(&new_pieces, piece_data);
        proof {
            assert forall|i: int| 0 <= i < out@.len() implies batch_piece_ok(
                #[trigger] out@[i],
                old(self).piece_list@,
                piece_data@,
            ) by {
                let t0 = new_pieces@[i];
                assert(old(self).piece_list@.contains(t0) && piece_matches_type(
                    out@[i],
                    piece_data@[t0 as int],
                ));
            }
            match cannot_start_with {
                Option::Some(disallowed) => {
                    let dis = disallowed@;
                    if !dis.contains(new_pieces@.last()) {
                        let t0 = new_pieces@.last();
                        assert(list.contains(t0));
                        let w = choose|w: int| 0 <= w < list.len() && list[w] == t0;
                        assert(t0 < piece_data@.len());
                        assert(out@.last() == out@[out@.len() - 1]);
                        assert(piece_matches_type(out@.last(), piece_data@[t0 as int]));
                        assert(tail_allowed(out@, dis, piece_data@));
                    } else {
                        // A disallowed tail survives only when the batch
                        // held no allowed piece at all.
                        if exists|w: int|
                            0 <= w < pre_fix.len() && !dis.contains(#[trigger] pre_fix[w]) {
                            assert(!dis.contains(new_pieces@.last()));
                            assert(false);
                        }
                        assert forall|i: int| 0 <= i < out@.len() implies exists|t: usize|
                            #[trigger] dis.contains(t) && t < piece_data@.len()
                            && piece_matches_type(
                            #[trigger] out@[i],
                            piece_data@[t as int],
                        ) by {
                            let t0 = new_pieces@[i];
                            assert(pre_fix.contains(t0));
                            let w = choose|w: int| 0 <= w < pre_fix.len() && pre_fix[w] == t0;
                            assert(dis.contains(pre_fix[w]));
                            assert(dis.contains(t0));
                            let w0 = choose|w0: int| 0 <= w0 < list.len() && list[w0] == t0;
                            assert(t0 < piece_data@.len());
                            assert(piece_matches_type(out@[i], piece_data@[t0 as int]));
                        }
                        assert(batch_all_disallowed(out@, dis, piece_data@));
                    }
                },
                Option::None => {},
            }
        }
        out
    }
}

/// Whether a piece index occurs in a list.
fn id_in(list: &Vec<usize>, x: usize) -> (r: bool)
    ensures
        r == list@.contains(x),
{
    let mut i: usize = 0;
    while i < list.len()
        invariant
            i <= list@.len(),
            forall|t: int| 0 <= t < i ==> (#[trigger] list@[t]) != x,
        decreases list@.len() - i,
    {
        if list[i] == x {
            return true;
        }
        i += 1;
    }
    false
}

/// A piece index outside the disallowed set occurs in the list.
pub open spec fn has_allowed(list: Seq<usize>, disallowed: Seq<usize>) -> bool {
    exists|k: int| 0 <= k < list.len() && !disallowed.contains(#[trigger] list[k])
}

/// Two positions of the list (counting multiplicity) hold indices outside
/// the disallowed set.
pub open spec fn has_two_allowed(list: Seq<usize>, disallowed: Seq<usize>) -> bool {
    exists|k1: int, k2: int|
        0 <= k1 < k2 < list.len() && !disallowed.contains(#[trigger] list[k1]) && !disallowed.contains(
            #[trigger] list[k2],
        )
}

/// The batch's tail (the next piece dispensed) instantiates a catalog
/// entry outside the disallowed set.
pub open spec fn tail_allowed(r: Seq<Piece>, disallowed: Seq<usize>, data: Seq<PieceType>) -> bool {
    exists|t: usize|
        t < data.len() && !disallowed.contains(t) && #[trigger] piece_matches_type(
            r.last(),
            data[t as int],
        )
}

/// Every piece of the batch instantiates some catalog entry from the
/// disallowed set.
pub open spec fn batch_all_disallowed(r: Seq<Piece>, disallowed: Seq<usize>, data: Seq<PieceType>) -> bool {
    forall|i: int|
        0 <= i < r.len() ==> exists|t: usize|
            #[trigger] disallowed.contains(t) && t < data.len() && piece_matches_type(
                #[trigger] r[i],
                data[t as int],
            )
}

/// A value occurring at two positions occurs at least twice in the
/// multiset.
proof fn lemma_two_indices_count(s: Seq<usize>, i: int, j: int)
    requires
        0 <= i < j < s.len(),
        s[i] == s[j],
    ensures
        s.to_multiset().count(s[i]) >= 2,
{
    broadcast use vstd::seq_lib::group_to_multiset_ensures;
    broadcast use vstd::multiset::group_multiset_axioms;

    let a = s[i];
    assert(s.remove(j).to_multiset() =~= s.to_multiset().remove(a));
    assert(s.remove(j)[i] == a);
    assert(s.remove(j).contains(a));
    assert(s.remove(j).to_multiset().count(a) > 0);
}

/// When an allowed index exists below `j`, the backward scan finds one.
proof fn lemma_last_allowed_finds(list: Seq<usize>, disallowed: Seq<usize>, j: int)
    requires
        0 <= j <= list.len(),
        exists|k: int| 0 <= k < j && !disallowed.contains(#[trigger] list[k]),
    ensures
        ({
            let r = last_allowed(list, disallowed, j);
            r is Some && 0 <= r->0 < j && !disallowed.contains(list[r->0])
        }),
    decreases j,
{
    if disallowed.contains(list[j - 1]) {
        let k = choose|k: int| 0 <= k < j && !disallowed.contains(#[trigger] list[k]);
        assert(k != j - 1);
        assert(0 <= k < j - 1 && !disallowed.contains(list[k]));
        lemma_last_allowed_finds(list, disallowed, j - 1);
    }
}

/// The highest index below `j` whose entry is not in the disallowed set.
pub open spec fn last_allowed(list: Seq<usize>, disallowed: Seq<usize>, j: int) -> Option<int>
    decreases j,
{
    if j <= 0 {
        Option::None
    } else if !disallowed.contains(list[j - 1]) {
        Option::Some(j - 1)
    } else {
        last_allowed(list, disallowed, j - 1)
    }
}

proof fn lemma_last_allowed_found(list: Seq<usize>, disallowed: Seq<usize>, j: int, i: int)
    requires
        0 <= i < j <= list.len(),
        !disallowed.contains(list[i]),
        forall|t: int| i < t < j ==> disallowed.contains(#[trigger] list[t]),
    ensures
        last_allowed(list, disallowed, j) == Some(i),
    decreases j,
{
    if j - 1 > i {
        lemma_last_allowed_found(list, disallowed, j - 1, i);
    }
}

proof fn lemma_last_allowed_none(list: Seq<usize>, disallowed: Seq<usize>, j: int)
    requires
        j <= list.len(),
        forall|t: int| 0 <= t < j ==> disallowed.contains(#[trigger] list[t]),
    ensures
        last_allowed(list, disallowed, j) is None,
    decreases j,
{
    if j > 0 {
        lemma_last_allowed_none(list, disallowed, j - 1);
    }
}

/// If the next piece to be dispensed (the batch's tail) is disallowed, the
/// batch is scanned backward for the first allowed piece, which is swapped
/// into the tail position.  The batch's multiset of pieces is unchanged.
pub fn fix_starting_piece(list: &mut Vec<usize>, disallowed: &Vec<usize>)
    requires
        old(list)@.len() > 0,
    ensures
        final(list)@.len() == old(list)@.len(),
        final(list)@.to_multiset() == old(list)@.to_multiset(),
        forall|i: int| 0 <= i < final(list)@.len() ==> old(list)@.contains(#[trigger] final(list)@[i]),
        !disallowed@.contains(old(list)@.last()) ==> final(list)@ == old(list)@,
        disallowed@.contains(old(list)@.last()) ==> final(list)@ == (match last_allowed(
            old(list)@,
            disallowed@,
            old(list)@.len() - 1,
        ) {
            Option::Some(k) => old(list)@.update(k, old(list)@.last()).update(
                old(list)@.len() - 1,
                old(list)@[k],
            ),
            Option::None => old(list)@,
        }),
{
    broadcast use vstd::seq_lib::group_to_multiset_ensures;
    broadcast use vstd::multiset::group_multiset_axioms;

    let len = list.len();
    let last = list[len - 1];
    if !id_in(disallowed, last) {
        return ;
    }
    let mut i: usize = len - 1;
    while i > 0
        invariant
            i < len,
            len == list@.len(),
            list@ == old(list)@,
            forall|t: int| i <= t < len ==> disallowed@.contains(#[trigger] list@[t]),
        decreases i,
    {
        i -= 1;
        if !id_in(disallowed, list[i]) {
            proof {
                lemma_last_allowed_found(list@, disallowed@, len - 1, i as int);
            }
            let ghost pre = list@;
            let a = list[i];
            let b = list[len - 1];
            list[i] = b;
            list[len - 1] = a;
            proof {
                assert(list@ =~= pre.update(i as int, pre[len - 1]).update(len - 1, pre[i as int]));
                lemma_swap_multiset(pre, i as int, len - 1);
                assert(list@.last() == pre[i as int]);
                assert forall|t: int| 0 <= t < list@.len() implies old(list)@.contains(
                    #[trigger] list@[t],
                ) by {
                    if t == i as int {
                        assert(list@[t] == old(list)@[len - 1]);
                    } else if t == len - 1 {
                        assert(list@[t] == old(list)@[i as int]);
                    } else {
                        assert(list@[t] == old(list)@[t]);
                    }
                }
            }
            return ;
        }
    }
    proof {
        lemma_last_allowed_none(list@, disallowed@, len - 1);
        assert forall|t: int| 0 <= t < list@.len() implies old(list)@.contains(
            #[trigger] list@[t],
        ) by {
        }
    }
}

/// Instantiates a fresh piece for each catalog index in the batch.
pub fn create_pieces(piece_ids: &Vec<usize>, piece_data: &Vec<PieceType>) -> (r: Vec<Piece>)
    requires
        forall|k: int| 0 <= k < piece_ids@.len() ==> (#[trigger] piece_ids@[k]) < piece_data@.len(),
    ensures
        r@.len() == piece_ids@.len(),
        forall|i: int|
            0 <= i < r@.len() ==> piece_matches_type(
                #[trigger] r@[i],
                piece_data@[piece_ids@[i] as int],
            ),
{
    let mut pieces: Vec<Piece> = Vec::new();
    let mut i: usize = 0;
    while i < piece_ids.len()
        invariant
            i <= piece_ids@.len(),
            pieces@.len() == i,
            forall|k: int|
                0 <= k < piece_ids@.len() ==> (#[trigger] piece_ids@[k]) < piece_data@.len(),
            forall|t: int|
                0 <= t < i ==> piece_matches_type(
                    #[trigger] pieces@[t],
                    piece_data@[piece_ids@[t] as int],
                ),
        decreases piece_ids@.len() - i,
    {
        let id = piece_ids[i];
        let entry = &piece_data[id];
        let shape: PieceShape = [
            copy_cells(&entry.shape[0]),
            copy_cells(&entry.shape[1]),
            copy_cells(&entry.shape[2]),
            copy_cells(&entry.shape[3]),
        ];
        let p = Piece::new(shape, entry.color, entry.kick_table, entry.spin_bonus);
        proof {
            assert(piece_matches_type(p, piece_data@[piece_ids@[i as int] as int]));
        }
        pieces.push(p);
        i += 1;
    }
    pieces
}

/// Element-wise copy of one rotation state's cell list.
fn copy_cells(src: &Vec<(i8, i8)>) -> (r: Vec<(i8, i8)>)
    ensures
        r@ == src@,
{
    let mut out: Vec<(i8, i8)> = Vec::new();
    let mut i: usize = 0;
    while i < src.len()
        invariant
            i <= src@.len(),
            out@ == src@.take(i as int),
        decreases src@.len() - i,
    {
        out.push(src[i]);
        proof {
            assert(src@.take(i as int).push(src@[i as int]) =~= src@.take(i as int + 1));
        }
        i += 1;
    }
    proof {
        assert(src@.take(src@.len() as int) =~= src@);
    }
    out
}

} // verus!
