//! Ruleset and game-mode configuration: end conditions, score multipliers,
//! per-level rule modifiers, and the one-time validation that makes in-play
//! rule application infallible.
//!
//! Rulesets referenced by name in configuration files are resolved to
//! indices into a ruleset catalog before the core sees them.

use vstd::prelude::*;

verus! {

use crate::game::Stats;
use crate::piece::{PieceType, shape_wf};
use crate::randomizer::RandomizerStyle;

/// Threshold against which a `Stats` snapshot is compared; `Endless` is
/// never satisfied.
#[derive(Clone, Copy, PartialEq, Eq, Structural, Debug)]
pub enum EndCondition {
    /// Minutes and seconds of accumulated play time.
    Time(u32, u32),
    Score(u32),
    Lines(u32),
    Pieces(u32),
    Endless,
}

impl EndCondition {
    /// What it means for a stats snapshot to satisfy the condition.
    pub open spec fn satisfied(self, stats: Stats) -> bool {
        match self {
            EndCondition::Time(min, sec) => stats.time >= (min * 60 + sec) * 1_000_000,
            EndCondition::Score(points) => stats.score >= points,
            EndCondition::Lines(lines) => stats.lines_cleared >= lines,
            EndCondition::Pieces(pieces) => stats.pieces_placed >= pieces,
            EndCondition::Endless => false,
        }
    }

    /// A condition that is satisfied by fresh all-zero stats would loop a
    /// level-up step forever; validation rejects it.
    pub open spec fn nontrivial(self) -> bool {
        match self {
            EndCondition::Time(min, sec) => min >= 1 || sec >= 1,
            EndCondition::Score(points) => points >= 1,
            EndCondition::Lines(lines) => lines >= 1,
            EndCondition::Pieces(pieces) => pieces >= 1,
            EndCondition::Endless => true,
        }
    }

    pub fn check(&self, stats: &Stats) -> (r: bool)
        ensures
            r == self.satisfied(*stats),
    {
        match self {
            EndCondition::Time(min, sec) => {
                let microseconds = (*min as u128 * 60 + *sec as u128) * 1_000_000;
                stats.time >= microseconds
            },
            EndCondition::Score(points) => stats.score >= *points,
            EndCondition::Lines(lines) => stats.lines_cleared >= *lines,
            EndCondition::Pieces(pieces) => stats.pieces_placed >= *pieces,
            EndCondition::Endless => false,
        }
    }
}

/// What a game mode is played for; display-level data.
#[derive(Clone, Copy, PartialEq, Eq, Structural, Debug)]
pub enum Goal {
    Time,
    Score,
    Lines,
}

/// A statistic a game mode chooses to display; display-level data.
#[derive(Clone, Copy, PartialEq, Eq, Structural, Debug)]
pub enum GameStat {
    Score,
    Time,
    Lines,
    Pieces,
    Level,
    PiecesPerSecond,
}

/// One rule change applied on a level-up.  `LoadRuleset` carries an index
/// into the ruleset catalog.
#[derive(Clone, PartialEq, Eq, Debug)]
pub enum RulesetModifier {
    LoadRuleset(usize),
    SetCondition(EndCondition),
    SetScoreMultiplier(ScoreMultiplier),
    SetGravity(u128),
    SetMatrixSize(usize, usize),
    SetPieceList(Vec<usize>),
    AddPiece(usize),
    RemovePiece(usize),
    SetLockDelay(u128),
    SetPreviewCount(usize),
    CanHold(bool),
    ShowGhostPiece(bool),
    ChangeRandomizer(RandomizerStyle),
    ClearMatrix,
    End,
}

/// Structural command a modifier hands back to the orchestrator, which
/// performs the actual queue and board mutations.
#[derive(Clone, Copy, PartialEq, Eq, Structural, Debug)]
pub enum Command {
    RegeneratePieces,
    ResizeMatrix,
    ClearMatrix,
    End,
}

/// How clear points scale.
#[derive(Clone, Copy, PartialEq, Eq, Structural, Debug)]
pub enum ScoreMultiplier {
    /// Multiply by the current level.
    Level,
    /// Multiply by a fixed constant.
    Special(u32),
}

impl ScoreMultiplier {
    /// The mathematically exact product, saturated at the `u32` ceiling.
    pub open spec fn applied(self, points: int, level: int) -> int {
        let raw = match self {
            ScoreMultiplier::Level => points * level,
            ScoreMultiplier::Special(x) => points * x,
        };
        if raw > 0xffff_ffff {
            0xffff_ffff
        } else {
            raw
        }
    }

    pub fn apply(&self, points: u32, level: usize) -> (r: u32)
        ensures
            r == self.applied(points as int, level as int),
    {
        let factor: u128 = match self {
            ScoreMultiplier::Level => level as u128,
            ScoreMultiplier::Special(x) => *x as u128,
        };
        proof {
            assert(points as int * factor as int <= u128::MAX as int) by (nonlinear_arith)
                requires
                    points as int <= 0xffff_ffff,
                    factor as int <= 0xffff_ffff_ffff_ffff_ffff_ffff,
            ;
        }
        let raw = points as u128 * factor;
        if raw > 0xffff_ffff {
            0xffff_ffffu32
        } else {
            raw as u32
        }
    }
}

/// The mutable rule parameters in effect during play.
pub struct Ruleset {
    pub level_up_condition: EndCondition,
    pub score_multiplier: ScoreMultiplier,
    pub matrix_height: usize,
    pub matrix_width: usize,
    pub gravity: u128,
    pub lock_delay: u128,
    pub preview_count: usize,
    pub hold_enabled: bool,
    pub ghost_piece_enabled: bool,
    pub piece_list: Vec<usize>,
    pub cannot_start_with: Option<Vec<usize>>,
    pub starting_randomizer: Option<RandomizerStyle>,
    pub randomizer: RandomizerStyle,
}

/// The mathematical model of a ruleset: the same record with sequence
/// views in place of vectors.
pub struct RulesetModel {
    pub level_up_condition: EndCondition,
    pub score_multiplier: ScoreMultiplier,
    pub matrix_height: int,
    pub matrix_width: int,
    pub gravity: int,
    pub lock_delay: int,
    pub preview_count: int,
    pub hold_enabled: bool,
    pub ghost_piece_enabled: bool,
    pub piece_list: Seq<usize>,
    pub cannot_start_with: Option<Seq<usize>>,
    pub starting_randomizer: Option<RandomizerStyle>,
    pub randomizer: RandomizerStyle,
}

impl View for Ruleset {
    type V = RulesetModel;

    open spec fn view(&self) -> RulesetModel {
        RulesetModel {
            level_up_condition: self.level_up_condition,
            score_multiplier: self.score_multiplier,
            matrix_height: self.matrix_height as int,
            matrix_width: self.matrix_width as int,
            gravity: self.gravity as int,
            lock_delay: self.lock_delay as int,
            preview_count: self.preview_count as int,
            hold_enabled: self.hold_enabled,
            ghost_piece_enabled: self.ghost_piece_enabled,
            piece_list: self.piece_list@,
            cannot_start_with: match self.cannot_start_with {
                Option::Some(v) => Option::Some(v@),
                Option::None => Option::None,
            },
            starting_randomizer: self.starting_randomizer,
            randomizer: self.randomizer,
        }
    }
}

/// A ruleset the core can run without faulting: a non-degenerate level-up
/// condition, a non-empty piece list naming only catalog entries, and board
/// dimensions that fit the position arithmetic, every catalog shape, and
/// every procedurally generated shape (which is at most four cells wide).
pub open spec fn ruleset_ok(r: RulesetModel, data: Seq<PieceType>) -> bool {
    &&& r.level_up_condition.nontrivial()
    &&& r.piece_list.len() > 0
    &&& forall|k: int| 0 <= k < r.piece_list.len() ==> (#[trigger] r.piece_list[k]) < data.len()
    &&& 1 <= r.matrix_width < 0x7fff_0000
    &&& 1 <= r.matrix_height
    &&& r.matrix_height + crate::OFFSCREEN_ROWS < 0x7fff_0000
    &&& forall|t: int|
        0 <= t < data.len() ==> crate::piece::cells_max_x((#[trigger] data[t]).shape@[0]@)
            - crate::piece::cells_min_x(data[t].shape@[0]@) + 1 <= r.matrix_width
            && crate::piece::cells_max_y(data[t].shape@[0]@) < r.matrix_height
            + crate::OFFSCREEN_ROWS
    &&& r.matrix_width >= 4
}

/// The ruleset produced by one modifier.  `LoadRuleset` replaces the whole
/// record from the catalog; the others change one field.
pub open spec fn apply_modifier_spec(
    r: RulesetModel,
    m: RulesetModifier,
    rulesets: Seq<RulesetModel>,
) -> RulesetModel {
    match m {
        RulesetModifier::LoadRuleset(i) => rulesets[i as int],
        RulesetModifier::SetCondition(x) => RulesetModel { level_up_condition: x, ..r },
        RulesetModifier::SetScoreMultiplier(x) => RulesetModel { score_multiplier: x, ..r },
        RulesetModifier::SetGravity(x) => RulesetModel { gravity: x as int, ..r },
        RulesetModifier::SetMatrixSize(x, y) => RulesetModel {
            matrix_width: x as int,
            matrix_height: y as int,
            ..r
        },
        RulesetModifier::SetPieceList(list) => RulesetModel { piece_list: list@, ..r },
        RulesetModifier::AddPiece(p) => RulesetModel { piece_list: r.piece_list.push(p), ..r },
        RulesetModifier::RemovePiece(p) => {
            if r.piece_list.contains(p) {
                RulesetModel {
                    piece_list: remove_id_spec(r.piece_list, p),
                    ..r
                }
            } else {
                r
            }
        },
        RulesetModifier::SetLockDelay(x) => RulesetModel { lock_delay: x as int, ..r },
        RulesetModifier::SetPreviewCount(x) => RulesetModel { preview_count: x as int, ..r },
        RulesetModifier::CanHold(x) => RulesetModel { hold_enabled: x, ..r },
        RulesetModifier::ShowGhostPiece(x) => RulesetModel { ghost_piece_enabled: x, ..r },
        RulesetModifier::ChangeRandomizer(style) => RulesetModel { randomizer: style, ..r },
        RulesetModifier::ClearMatrix => r,
        RulesetModifier::End => r,
    }
}

/// The piece list after removing the first occurrence of `p` by swapping
/// the last element into its slot.
pub open spec fn remove_id_spec(list: Seq<usize>, p: usize) -> Seq<usize> {
    match list.index_of_first(p) {
        Option::Some(i) => list.update(i, list.last()).drop_last(),
        Option::None => list,
    }
}

/// The structural commands one modifier hands back.
pub open spec fn modifier_commands(r: RulesetModel, m: RulesetModifier) -> Seq<Command> {
    match m {
        RulesetModifier::LoadRuleset(_) => seq![Command::RegeneratePieces, Command::ResizeMatrix],
        RulesetModifier::SetMatrixSize(_, _) => seq![Command::ResizeMatrix],
        RulesetModifier::SetPieceList(_) => seq![Command::RegeneratePieces],
        RulesetModifier::AddPiece(_) => seq![Command::RegeneratePieces],
        RulesetModifier::RemovePiece(p) => {
            if r.piece_list.contains(p) {
                seq![Command::RegeneratePieces]
            } else {
                Seq::empty()
            }
        },
        RulesetModifier::ChangeRandomizer(_) => seq![Command::RegeneratePieces],
        RulesetModifier::ClearMatrix => seq![Command::ClearMatrix],
        RulesetModifier::End => seq![Command::End],
        _ => Seq::empty(),
    }
}

/// The ruleset after an ordered batch of modifiers.
pub open spec fn apply_batch(
    r: RulesetModel,
    mods: Seq<RulesetModifier>,
    rulesets: Seq<RulesetModel>,
) -> RulesetModel
    decreases mods.len(),
{
    if mods.len() == 0 {
        r
    } else {
        apply_batch(apply_modifier_spec(r, mods[0], rulesets), mods.drop_first(), rulesets)
    }
}

/// All structural commands of an ordered batch, in order.
pub open spec fn batch_commands(
    r: RulesetModel,
    mods: Seq<RulesetModifier>,
    rulesets: Seq<RulesetModel>,
) -> Seq<Command>
    decreases mods.len(),
{
    if mods.len() == 0 {
        Seq::empty()
    } else {
        modifier_commands(r, mods[0]) + batch_commands(
            apply_modifier_spec(r, mods[0], rulesets),
            mods.drop_first(),
            rulesets,
        )
    }
}

/// Immutable per-session description: end condition, display choices, the
/// ordered per-level modifier batches, and the initial ruleset's index in
/// the ruleset catalog.
pub struct GameMode {
    pub end_condition: EndCondition,
    pub goal: Goal,
    pub displayed_stats: Vec<GameStat>,
    pub level_list: Vec<Vec<RulesetModifier>>,
    pub initial_ruleset: usize,
}

impl GameMode {
    /// The per-level modifier batches as sequences.
    pub open spec fn levels(self) -> Seq<Seq<RulesetModifier>> {
        self.level_list@.map_values(|v: Vec<RulesetModifier>| v@)
    }
}

/// The modifier batch applied when the given level is reached.  Level 1 is
/// the starting level and has no batch; level `l` applies batch `l - 2`.
pub open spec fn level_batch(levels: Seq<Seq<RulesetModifier>>, level: int) -> Seq<RulesetModifier> {
    if 2 <= level && level - 2 < levels.len() {
        levels[level - 2]
    } else {
        Seq::empty()
    }
}

/// The ruleset in effect at a given level: the initial ruleset with every
/// batch up to that level applied in order.
pub open spec fn ruleset_at_level(
    initial: RulesetModel,
    levels: Seq<Seq<RulesetModifier>>,
    rulesets: Seq<RulesetModel>,
    level: int,
) -> RulesetModel
    decreases level,
{
    if level <= 1 {
        initial
    } else {
        apply_batch(
            ruleset_at_level(initial, levels, rulesets, level - 1),
            level_batch(levels, level),
            rulesets,
        )
    }
}

/// Every `LoadRuleset` in the batch names a catalog entry.
pub open spec fn batch_loads_ok(mods: Seq<RulesetModifier>, n: int) -> bool {
    forall|j: int|
        0 <= j < mods.len() ==> ((#[trigger] mods[j]) matches RulesetModifier::LoadRuleset(i)
            ==> i < n)
}

/// Every `LoadRuleset` in every batch names a catalog entry.
pub open spec fn levels_loads_ok(levels: Seq<Seq<RulesetModifier>>, n: int) -> bool {
    forall|l: int| 0 <= l < levels.len() ==> batch_loads_ok(#[trigger] levels[l], n)
}

/// A game mode the core can run: its initial ruleset exists, every
/// modifier reference resolves, the level list fits level arithmetic, and
/// the ruleset reached at every level is one the core can run.
pub open spec fn gamemode_ok(gm: GameMode, rulesets: Seq<RulesetModel>, data: Seq<PieceType>) -> bool {
    &&& gm.initial_ruleset < rulesets.len()
    &&& gm.level_list@.len() < 0x7fff_ffff
    &&& levels_loads_ok(gm.levels(), rulesets.len() as int)
    &&& forall|l: int|
        l >= 1 ==> ruleset_ok(
            #[trigger] ruleset_at_level(
                rulesets[gm.initial_ruleset as int],
                gm.levels(),
                rulesets,
                l,
            ),
            data,
        )
}

proof fn lemma_apply_batch_push(
    r: RulesetModel,
    mods: Seq<RulesetModifier>,
    m: RulesetModifier,
    rulesets: Seq<RulesetModel>,
)
    ensures
        apply_batch(r, mods.push(m), rulesets) == apply_modifier_spec(
            apply_batch(r, mods, rulesets),
            m,
            rulesets,
        ),
        batch_commands(r, mods.push(m), rulesets) == batch_commands(r, mods, rulesets)
            + modifier_commands(apply_batch(r, mods, rulesets), m),
    decreases mods.len(),
{
    if mods.len() == 0 {
        let empty = Seq::<RulesetModifier>::empty();
        assert(apply_batch(r, mods, rulesets) == r);
        assert(mods.push(m)[0] == m);
        assert(mods.push(m).drop_first() =~= empty);
        assert(apply_batch(r, mods.push(m), rulesets) == apply_batch(
            apply_modifier_spec(r, m, rulesets),
            mods.push(m).drop_first(),
            rulesets,
        ));
        assert(apply_batch(apply_modifier_spec(r, m, rulesets), empty, rulesets)
            == apply_modifier_spec(r, m, rulesets));
        assert(batch_commands(r, mods, rulesets) =~= Seq::<Command>::empty());
        assert(batch_commands(r, mods.push(m), rulesets) == modifier_commands(r, m)
            + batch_commands(
            apply_modifier_spec(r, m, rulesets),
            mods.push(m).drop_first(),
            rulesets,
        ));
        assert(batch_commands(apply_modifier_spec(r, m, rulesets), empty, rulesets)
            =~= Seq::<Command>::empty());
        assert(batch_commands(r, mods.push(m), rulesets) =~= modifier_commands(r, m));
        assert(batch_commands(r, mods, rulesets) + modifier_commands(r, m) =~= modifier_commands(
            r,
            m,
        ));
    } else {
        assert(mods.push(m)[0] == mods[0]);
        assert(mods.push(m).drop_first() =~= mods.drop_first().push(m));
        lemma_apply_batch_push(
            apply_modifier_spec(r, mods[0], rulesets),
            mods.drop_first(),
            m,
            rulesets,
        );
        assert(batch_commands(r, mods.push(m), rulesets) =~= batch_commands(r, mods, rulesets)
            + modifier_commands(apply_batch(r, mods, rulesets), m));
    }
}

/// Beyond the last configured batch the ruleset no longer changes.
pub proof fn lemma_ruleset_at_level_stable(
    initial: RulesetModel,
    levels: Seq<Seq<RulesetModifier>>,
    rulesets: Seq<RulesetModel>,
    level: int,
)
    requires
        level >= levels.len() + 1,
        level >= 1,
    ensures
        ruleset_at_level(initial, levels, rulesets, level) == ruleset_at_level(
            initial,
            levels,
            rulesets,
            levels.len() as int + 1,
        ),
    decreases level,
{
    let stable = levels.len() as int + 1;
    if level > stable {
        assert(level_batch(levels, level) =~= Seq::<RulesetModifier>::empty());
        lemma_ruleset_at_level_stable(initial, levels, rulesets, level - 1);
    }
}

impl GameMode {
    /// Applies the ordered modifier batch for the freshly reached level to
    /// the ruleset and collects the structural commands the orchestrator
    /// must act on.  The batch is read as a set: the orchestrator only
    /// tests membership, so a repeated command carries no extra weight.
    pub fn level_up(&self, ruleset: &mut Ruleset, level: usize, rulesets: &Vec<Ruleset>) -> (r: Vec<
        Command,
    >)
        requires
            level >= 2,
            batch_loads_ok(level_batch(self.levels(), level as int), rulesets@.len() as int),
        ensures
            final(ruleset)@ == apply_batch(
                old(ruleset)@,
                level_batch(self.levels(), level as int),
                ruleset_models(rulesets@),
            ),
            r@ == batch_commands(
                old(ruleset)@,
                level_batch(self.levels(), level as int),
                ruleset_models(rulesets@),
            ),
            forall|c: Command|
                #[trigger] r@.contains(c) <==> batch_commands(
                    old(ruleset)@,
                    level_batch(self.levels(), level as int),
                    ruleset_models(rulesets@),
                ).contains(c),
    {
        let mut commands: Vec<Command> = Vec::new();
        let ghost models = ruleset_models(rulesets@);
        let ghost batch = level_batch(self.levels(), level as int);
        if level - 2 < self.level_list.len() {
            let mods = &self.level_list[level - 2];
            proof {
                assert(self.levels()[level - 2] == mods@);
                assert(batch == mods@);
            }
            let mut j: usize = 0;
            while j < mods.len()
                invariant
                    j <= mods@.len(),
                    batch == mods@,
                    models == ruleset_models(rulesets@),
                    batch_loads_ok(batch, rulesets@.len() as int),
                    ruleset@ == apply_batch(old(ruleset)@, batch.take(j as int), models),
                    commands@ == batch_commands(old(ruleset)@, batch.take(j as int), models),
                decreases mods@.len() - j,
            {
                let modifier = &mods[j];
                proof {
                    assert(batch[j as int] == mods@[j as int]);
                    assert(batch.take(j as int).push(batch[j as int]) =~= batch.take(j as int + 1));
                    lemma_apply_batch_push(
                        old(ruleset)@,
                        batch.take(j as int),
                        batch[j as int],
                        models,
                    );
                }
                let step = ruleset.apply_modifier(modifier, rulesets);
                match step {
                    Option::Some(mut new_commands) => {
                        let ghost pre_cmds = commands@;
                        let ghost stepc = new_commands@;
                        commands.append(&mut new_commands);
                        proof {
                            assert(commands@ =~= pre_cmds + stepc);
                        }
                    },
                    Option::None => {
                        proof {
                            assert(commands@ =~= commands@ + Seq::<Command>::empty());
                        }
                    },
                }
                j += 1;
            }
            proof {
                assert(batch.take(batch.len() as int) =~= batch);
            }
        } else {
            proof {
                assert(batch =~= Seq::<RulesetModifier>::empty());
            }
        }
        commands
    }
}

/// The models of a ruleset catalog.
pub open spec fn ruleset_models(rulesets: Seq<Ruleset>) -> Seq<RulesetModel> {
    rulesets.map_values(|r: Ruleset| r@)
}

/// Every piece's kick table resolves in the kick-data catalog and every
/// shape is well formed.
pub open spec fn catalog_ok(data: Seq<PieceType>, kick_len: int) -> bool {
    forall|t: int|
        0 <= t < data.len() ==> (#[trigger] data[t]).kick_table < kick_len && shape_wf(
            data[t].shape,
        )
}

/// A configuration fault found by one-time validation; play never starts on
/// a configuration that carries one.
#[derive(Clone, Copy, PartialEq, Eq, Structural, Debug)]
pub enum ValidationError {
    /// A catalog entry names a kick table that the kick data does not hold,
    /// or has a malformed shape.
    BadCatalogEntry { piece: usize },
    /// A ruleset's piece list names a piece the catalog does not hold.
    UnknownPiece { piece: usize },
    /// A ruleset reached at some level has a level-up condition that fresh
    /// stats already satisfy, or no pieces, or a board its pieces cannot
    /// fit.
    BadLevelRuleset { level: usize },
    /// A modifier names a ruleset index outside the ruleset catalog.
    BadRulesetIndex { level: usize },
    /// The wall-kick catalog is empty; at least one table is needed.
    EmptyKickData,
}

impl ValidationError {
    /// A short human-readable account of the fault.
    pub fn description(&self) -> &'static str {
        match self {
            ValidationError::BadCatalogEntry { .. } => "piece catalog entry has a missing kick table or a malformed shape",
            ValidationError::UnknownPiece { .. } => "piece list entry is not defined in the piece catalog",
            ValidationError::BadLevelRuleset { .. } => "a reachable ruleset is degenerate for its board or level-up rule",
            ValidationError::BadRulesetIndex { .. } => "a modifier names a ruleset that does not exist",
            ValidationError::EmptyKickData => "the wall-kick table catalog is empty",
        }
    }
}

/// Checks that every kick table named by the piece catalog exists, that
/// every catalog shape is well formed, and that every piece-list entry
/// resolves in the catalog.
pub fn validate_data(
    piece_data: &Vec<PieceType>,
    kick_data: &Vec<crate::piece::KickData>,
    piece_list: &Vec<usize>,
) -> (r: Result<(), ValidationError>)
    ensures
        r is Ok <==> catalog_ok(piece_data@, kick_data@.len() as int) && (forall|k: int|
            0 <= k < piece_list@.len() ==> (#[trigger] piece_list@[k]) < piece_data@.len()),
        r matches Err(ValidationError::BadCatalogEntry { piece }) ==> piece < piece_data@.len()
            && !(piece_data@[piece as int].kick_table < kick_data@.len() && shape_wf(
            piece_data@[piece as int].shape,
        )),
        r matches Err(ValidationError::UnknownPiece { piece }) ==> piece_list@.contains(piece)
            && piece >= piece_data@.len(),
{
    let mut t: usize = 0;
    while t < piece_data.len()
        invariant
            t <= piece_data@.len(),
            forall|u: int|
                0 <= u < t ==> (#[trigger] piece_data@[u]).kick_table < kick_data@.len()
                    && shape_wf(piece_data@[u].shape),
        decreases piece_data@.len() - t,
    {
        let entry = &piece_data[t];
        if entry.kick_table >= kick_data.len() {
            return Err(ValidationError::BadCatalogEntry { piece: t });
        }
        let mut rot: usize = 0;
        while rot < 4
            invariant
                rot <= 4,
                t < piece_data@.len(),
                *entry == piece_data@[t as int],
                forall|q: int|
                    0 <= q < rot ==> (#[trigger] piece_data@[t as int].shape@[q])@.len() > 0
                        && crate::piece::cells_nonneg(piece_data@[t as int].shape@[q]@),
            decreases 4 - rot,
        {
            let cells = &entry.shape[rot];
            if cells.len() == 0 {
                proof {
                    assert(piece_data@[t as int].shape@[rot as int]@.len() == 0);
                    assert(!shape_wf(piece_data@[t as int].shape));
                }
                return Err(ValidationError::BadCatalogEntry { piece: t });
            }
            let mut c: usize = 0;
            while c < cells.len()
                invariant
                    c <= cells@.len(),
                    t < piece_data@.len(),
                    rot < 4,
                    cells@ == piece_data@[t as int].shape@[rot as int]@,
                    forall|w: int|
                        0 <= w < c ==> (#[trigger] cells@[w]).0 >= 0 && cells@[w].1 >= 0,
                decreases cells@.len() - c,
            {
                let (x, y) = cells[c];
                if x < 0 || y < 0 {
                    proof {
                        assert(!crate::piece::cells_nonneg(piece_data@[t as int].shape@[rot as int]@));
                        assert(!shape_wf(piece_data@[t as int].shape));
                    }
                    return Err(ValidationError::BadCatalogEntry { piece: t });
                }
                c += 1;
            }
            rot += 1;
        }
        proof {
            assert(shape_wf(piece_data@[t as int].shape));
        }
        t += 1;
    }
    let mut k: usize = 0;
    while k < piece_list.len()
        invariant
            k <= piece_list@.len(),
            forall|u: int| 0 <= u < k ==> (#[trigger] piece_list@[u]) < piece_data@.len(),
        decreases piece_list@.len() - k,
    {
        let id = piece_list[k];
        if id >= piece_data.len() {
            return Err(ValidationError::UnknownPiece { piece: id });
        }
        k += 1;
    }
    Ok(())
}

/// Field-by-field copy of a ruleset record.
pub fn clone_ruleset(src: &Ruleset) -> (r: Ruleset)
    ensures
        r@ == src@,
{
    Ruleset {
        level_up_condition: src.level_up_condition,
        score_multiplier: src.score_multiplier,
        matrix_height: src.matrix_height,
        matrix_width: src.matrix_width,
        gravity: src.gravity,
        lock_delay: src.lock_delay,
        preview_count: src.preview_count,
        hold_enabled: src.hold_enabled,
        ghost_piece_enabled: src.ghost_piece_enabled,
        piece_list: crate::randomizer::copy_ids(&src.piece_list),
        cannot_start_with: match &src.cannot_start_with {
            Option::Some(v) => Option::Some(crate::randomizer::copy_ids(v)),
            Option::None => Option::None,
        },
        starting_randomizer: src.starting_randomizer,
        randomizer: src.randomizer,
    }
}

impl Ruleset {
    /// Applies one modifier, returning the structural commands it hands
    /// back for the orchestrator to act on; `None` when the change was a
    /// plain scalar mutation.  Runtime lookups are infallible because the
    /// game mode was validated up front.
    pub fn apply_modifier(
        &mut self,
        modifier: &RulesetModifier,
        rulesets: &Vec<Ruleset>,
    ) -> (r: Option<Vec<Command>>)
        requires
            *modifier matches RulesetModifier::LoadRuleset(i) ==> i < rulesets@.len(),
        ensures
            final(self)@ == apply_modifier_spec(
                old(self)@,
                *modifier,
                ruleset_models(rulesets@),
            ),
            match r {
                Option::Some(c) => c@ == modifier_commands(old(self)@, *modifier) && c@.len() > 0,
                Option::None => modifier_commands(old(self)@, *modifier).len() == 0,
            },
    {
        match modifier {
            RulesetModifier::LoadRuleset(ruleset_index) => {
                *self = clone_ruleset(&rulesets[*ruleset_index]);
                proof {
                    assert(ruleset_models(rulesets@)[*ruleset_index as int] == rulesets@[*ruleset_index as int]@);
                }
                let mut commands: Vec<Command> = Vec::new();
                commands.push(Command::RegeneratePieces);
                commands.push(Command::ResizeMatrix);
                proof {
                    assert(commands@ =~= seq![Command::RegeneratePieces, Command::ResizeMatrix]);
                }
                Some(commands)
            },
            RulesetModifier::SetCondition(x) => {
                self.level_up_condition = *x;
                None
            },
            RulesetModifier::SetScoreMultiplier(x) => {
                self.score_multiplier = *x;
                None
            },
            RulesetModifier::SetGravity(x) => {
                self.gravity = *x;
                None
            },
            RulesetModifier::SetMatrixSize(x, y) => {
                self.matrix_width = *x;
                self.matrix_height = *y;
                let mut commands: Vec<Command> = Vec::new();
                commands.push(Command::ResizeMatrix);
                proof {
                    assert(commands@ =~= seq![Command::ResizeMatrix]);
                }
                Some(commands)
            },
            RulesetModifier::SetPieceList(list) => {
                self.piece_list = crate::randomizer::copy_ids(list);
                let mut commands: Vec<Command> = Vec::new();
                commands.push(Command::RegeneratePieces);
                proof {
                    assert(commands@ =~= seq![Command::RegeneratePieces]);
                }
                Some(commands)
            },
            RulesetModifier::AddPiece(piece_id) => {
                self.piece_list.push(*piece_id);
                let mut commands: Vec<Command> = Vec::new();
                commands.push(Command::RegeneratePieces);
                proof {
                    assert(commands@ =~= seq![Command::RegeneratePieces]);
                }
                Some(commands)
            },
            RulesetModifier::RemovePiece(piece_id) => {
                let mut i: usize = 0;
                let len = self.piece_list.len();
                while i < len
                    invariant
                        i <= len,
                        len == self.piece_list@.len(),
                        *self == *old(self),
                        *modifier == RulesetModifier::RemovePiece(*piece_id),
                        forall|t: int| 0 <= t < i ==> (#[trigger] self.piece_list@[t]) != piece_id,
                    decreases len - i,
                {
                    if self.piece_list[i] == *piece_id {
                        proof {
                            assert(self.piece_list@[i as int] == *piece_id);
                            assert(old(self).piece_list@.contains(*piece_id));
                            self.piece_list@.index_of_first_ensures(*piece_id);
                            match self.piece_list@.index_of_first(*piece_id) {
                                Option::Some(idx) => {
                                    assert(self.piece_list@[idx] == *piece_id);
                                    assert(idx <= i as int);
                                    assert(idx >= i as int);
                                },
                                Option::None => {
                                    assert(false);
                                },
                            }
                            assert(self.piece_list@.index_of_first(*piece_id) == Some(i as int));
                        }
                        let ghost pre = self.piece_list@;
                        self.piece_list.swap_remove(i);
                        proof {
                            assert(self.piece_list@ == remove_id_spec(pre, *piece_id));
                            assert(self@ == apply_modifier_spec(
                                old(self)@,
                                *modifier,
                                ruleset_models(rulesets@),
                            ));
                        }
                        let mut commands: Vec<Command> = Vec::new();
                        commands.push(Command::RegeneratePieces);
                        proof {
                            assert(commands@ =~= seq![Command::RegeneratePieces]);
                        }
                        return Some(commands);
                    }
                    i += 1;
                }
                proof {
                    assert(!old(self).piece_list@.contains(*piece_id));
                }
                None
            },
            RulesetModifier::SetLockDelay(x) => {
                self.lock_delay = *x;
                None
            },
            RulesetModifier::SetPreviewCount(x) => {
                self.preview_count = *x;
                None
            },
            RulesetModifier::CanHold(x) => {
                self.hold_enabled = *x;
                None
            },
            RulesetModifier::ShowGhostPiece(x) => {
                self.ghost_piece_enabled = *x;
                None
            },
            RulesetModifier::ChangeRandomizer(style) => {
                self.randomizer = *style;
                let mut commands: Vec<Command> = Vec::new();
                commands.push(Command::RegeneratePieces);
                proof {
                    assert(commands@ =~= seq![Command::RegeneratePieces]);
                }
                Some(commands)
            },
            RulesetModifier::ClearMatrix => {
                let mut commands: Vec<Command> = Vec::new();
                commands.push(Command::ClearMatrix);
                proof {
                    assert(commands@ =~= seq![Command::ClearMatrix]);
                }
                Some(commands)
            },
            RulesetModifier::End => {
                let mut commands: Vec<Command> = Vec::new();
                commands.push(Command::End);
                proof {
                    assert(commands@ =~= seq![Command::End]);
                }
                Some(commands)
            },
        }
    }
}

/// Whether a level-up condition is non-degenerate.
fn condition_nontrivial(c: &EndCondition) -> (r: bool)
    ensures
        r == c.nontrivial(),
{
    match c {
        EndCondition::Time(min, sec) => *min >= 1 || *sec >= 1,
        EndCondition::Score(points) => *points >= 1,
        EndCondition::Lines(lines) => *lines >= 1,
        EndCondition::Pieces(pieces) => *pieces >= 1,
        EndCondition::Endless => true,
    }
}

impl Ruleset {
    /// Checks one ruleset against the piece catalog: a non-degenerate
    /// level-up condition, a non-empty piece list naming only catalog
    /// entries, and board dimensions every shape fits.  The `level` tag
    /// names the level the ruleset is reached at in any reported fault.
    pub fn validate(&self, piece_data: &Vec<PieceType>, level: usize) -> (r: Result<
        (),
        ValidationError,
    >)
        requires
            forall|t: int| 0 <= t < piece_data@.len() ==> shape_wf((#[trigger] piece_data@[t]).shape),
        ensures
            r is Ok <==> ruleset_ok(self@, piece_data@),
    {
        if !condition_nontrivial(&self.level_up_condition) {
            return Err(ValidationError::BadLevelRuleset { level });
        }
        if self.piece_list.len() == 0 {
            return Err(ValidationError::BadLevelRuleset { level });
        }
        let mut k: usize = 0;
        while k < self.piece_list.len()
            invariant
                k <= self.piece_list@.len(),
                forall|u: int| 0 <= u < k ==> (#[trigger] self.piece_list@[u]) < piece_data@.len(),
            decreases self.piece_list@.len() - k,
        {
            if self.piece_list[k] >= piece_data.len() {
                return Err(ValidationError::UnknownPiece { piece: self.piece_list[k] });
            }
            k += 1;
        }
        if self.matrix_width < 4 || self.matrix_width >= 0x7fff_0000 {
            return Err(ValidationError::BadLevelRuleset { level });
        }
        if self.matrix_height < 1 || self.matrix_height >= 0x7fff_0000 - crate::OFFSCREEN_ROWS {
            return Err(ValidationError::BadLevelRuleset { level });
        }
        let mut t: usize = 0;
        while t < piece_data.len()
            invariant
                t <= piece_data@.len(),
                forall|q: int|
                    0 <= q < piece_data@.len() ==> shape_wf((#[trigger] piece_data@[q]).shape),
                self.matrix_height + crate::OFFSCREEN_ROWS < 0x7fff_0000,
                forall|u: int|
                    0 <= u < t ==> crate::piece::cells_max_x((#[trigger] piece_data@[u]).shape@[0]@)
                        - crate::piece::cells_min_x(piece_data@[u].shape@[0]@) + 1
                        <= self.matrix_width as int && crate::piece::cells_max_y(
                        piece_data@[u].shape@[0]@,
                    ) < self.matrix_height as int + crate::OFFSCREEN_ROWS,
            decreases piece_data@.len() - t,
        {
            let entry = &piece_data[t];
            proof {
                crate::piece::lemma_cells_extremes_within(piece_data@[t as int].shape@[0]@, 128);
            }
            let (w, h) = crate::piece::shape_dimensions(&entry.shape[0]);
            let (_, top) = crate::piece::shape_top_left(&entry.shape[0]);
            if w > self.matrix_width {
                return Err(ValidationError::BadLevelRuleset { level });
            }
            let max_y = top as i64 + h as i64 - 1;
            if max_y >= self.matrix_height as i64 + crate::OFFSCREEN_ROWS as i64 {
                return Err(ValidationError::BadLevelRuleset { level });
            }
            t += 1;
        }
        Ok(())
    }
}

impl GameMode {
    /// One-time validation: the initial ruleset and every modifier
    /// reference must resolve, and the ruleset reached at every level must
    /// be one the core can run (the level-up batches are simulated in
    /// order).  A game whose mode passes never faults on rule application.
    pub fn validate(&self, rulesets: &Vec<Ruleset>, piece_data: &Vec<PieceType>) -> (r: Result<
        (),
        ValidationError,
    >)
        requires
            forall|t: int| 0 <= t < piece_data@.len() ==> shape_wf((#[trigger] piece_data@[t]).shape),
        ensures
            r is Ok <==> gamemode_ok(*self, ruleset_models(rulesets@), piece_data@),
    {
        let ghost models = ruleset_models(rulesets@);
        let ghost levels = self.levels();
        if self.initial_ruleset >= rulesets.len() {
            return Err(ValidationError::BadRulesetIndex { level: 1 });
        }
        if self.level_list.len() >= 0x7fff_ffff {
            return Err(ValidationError::BadRulesetIndex { level: 1 });
        }
        let mut l: usize = 0;
        while l < self.level_list.len()
            invariant
                l <= self.level_list@.len(),
                self.level_list@.len() < 0x7fff_ffff,
                levels == self.levels(),
                forall|u: int|
                    0 <= u < l ==> batch_loads_ok(#[trigger] levels[u], rulesets@.len() as int),
            decreases self.level_list@.len() - l,
        {
            let batch = &self.level_list[l];
            let mut j: usize = 0;
            while j < batch.len()
                invariant
                    j <= batch@.len(),
                    l < self.level_list@.len(),
                    self.level_list@.len() < 0x7fff_ffff,
                    levels == self.levels(),
                    batch@ == levels[l as int],
                    forall|w: int|
                        0 <= w < j ==> ((#[trigger] batch@[w])
                            matches RulesetModifier::LoadRuleset(i) ==> i < rulesets@.len()),
                decreases batch@.len() - j,
            {
                match &batch[j] {
                    RulesetModifier::LoadRuleset(i) => {
                        if *i >= rulesets.len() {
                            return Err(ValidationError::BadRulesetIndex { level: l + 2 });
                        }
                    },
                    _ => {},
                }
                j += 1;
            }
            l += 1;
        }
        proof {
            assert(levels_loads_ok(levels, rulesets@.len() as int));
        }
        let ghost initial = models[self.initial_ruleset as int];
        let mut current = clone_ruleset(&rulesets[self.initial_ruleset]);
        proof {
            assert(models[self.initial_ruleset as int] == rulesets@[self.initial_ruleset as int]@);
            assert(current@ == ruleset_at_level(initial, levels, models, 1));
        }
        match current.validate(piece_data, 1) {
            Result::Err(e) => {
                return Err(e);
            },
            Result::Ok(()) => {},
        }
        let mut lv: usize = 2;
        while lv - 2 < self.level_list.len()
            invariant
                2 <= lv,
                lv - 2 <= self.level_list@.len(),
                self.level_list@.len() < 0x7fff_ffff,
                levels == self.levels(),
                models == ruleset_models(rulesets@),
                initial == models[self.initial_ruleset as int],
                self.initial_ruleset < rulesets@.len(),
                levels_loads_ok(levels, rulesets@.len() as int),
                forall|t: int|
                    0 <= t < piece_data@.len() ==> shape_wf((#[trigger] piece_data@[t]).shape),
                current@ == ruleset_at_level(initial, levels, models, lv - 1),
                forall|u: int|
                    1 <= u < lv ==> ruleset_ok(
                        #[trigger] ruleset_at_level(initial, levels, models, u),
                        piece_data@,
                    ),
            decreases self.level_list@.len() - (lv - 2),
        {
            proof {
                assert(batch_loads_ok(level_batch(levels, lv as int), rulesets@.len() as int));
            }
            let _commands = self.level_up(&mut current, lv, rulesets);
            proof {
                assert(current@ == ruleset_at_level(initial, levels, models, lv as int));
            }
            match current.validate(piece_data, lv) {
                Result::Err(e) => {
                    return Err(e);
                },
                Result::Ok(()) => {},
            }
            lv += 1;
        }
        proof {
            assert forall|u: int| u >= 1 implies ruleset_ok(
                #[trigger] ruleset_at_level(initial, levels, models, u),
                piece_data@,
            ) by {
                if u >= levels.len() + 1 {
                    lemma_ruleset_at_level_stable(initial, levels, models, u);
                    assert(ruleset_at_level(initial, levels, models, levels.len() as int + 1)
                        == ruleset_at_level(initial, levels, models, lv - 1));
                }
            }
        }
        Ok(())
    }
}

} // verus!
