use blockfall::configuration::{
    EndCondition, GameMode, Goal, Ruleset, RulesetModifier, ScoreMultiplier, ValidationError,
};
use blockfall::game::{Config, Game, Stats};
use blockfall::input::InputState;
use blockfall::piece::{KickData, PieceColor, PieceShape, PieceType};
use blockfall::randomizer::RandomizerStyle;

/// Horizontal bar at rotations 0/2, vertical at 1/3.
fn bar_shape() -> PieceShape {
    [
        vec![(0i8, 0i8), (1, 0), (2, 0), (3, 0)],
        vec![(0, 0), (0, 1), (0, 2), (0, 3)],
        vec![(0, 0), (1, 0), (2, 0), (3, 0)],
        vec![(0, 0), (0, 1), (0, 2), (0, 3)],
    ]
}

/// A two-cell horizontal domino in every rotation state.
fn domino_shape() -> PieceShape {
    [
        vec![(0i8, 0i8), (1, 0)],
        vec![(0, 0), (1, 0)],
        vec![(0, 0), (1, 0)],
        vec![(0, 0), (1, 0)],
    ]
}

fn no_kick_table() -> KickData {
    [
        [vec![], vec![], vec![]],
        [vec![], vec![], vec![]],
        [vec![], vec![], vec![]],
        [vec![], vec![], vec![]],
    ]
}

fn catalog(shape: PieceShape, entries: usize) -> Vec<PieceType> {
    let mut data = Vec::new();
    for _ in 0..entries {
        data.push(PieceType {
            shape: [
                shape[0].clone(),
                shape[1].clone(),
                shape[2].clone(),
                shape[3].clone(),
            ],
            color: PieceColor::Cyan,
            kick_table: 0,
            spin_bonus: false,
        });
    }
    data
}

fn base_ruleset(entries: usize) -> Ruleset {
    Ruleset {
        level_up_condition: EndCondition::Lines(1000),
        score_multiplier: ScoreMultiplier::Level,
        matrix_height: 20,
        matrix_width: 10,
        gravity: u128::MAX,
        lock_delay: u128::MAX,
        preview_count: 3,
        hold_enabled: true,
        ghost_piece_enabled: true,
        piece_list: (0..entries).collect(),
        cannot_start_with: None,
        starting_randomizer: None,
        randomizer: RandomizerStyle::NBag,
    }
}

fn base_gamemode() -> GameMode {
    GameMode {
        end_condition: EndCondition::Endless,
        goal: Goal::Lines,
        displayed_stats: Vec::new(),
        level_list: Vec::new(),
        initial_ruleset: 0,
    }
}

fn new_game(shape: PieceShape, entries: usize) -> Game {
    Game::new(
        base_gamemode(),
        vec![base_ruleset(entries)],
        catalog(shape, entries),
        vec![no_kick_table()],
        Config { das: 100, arr: 10 },
    )
    .expect("configuration must validate")
}

fn occupied(m: &Vec<Vec<PieceColor>>) -> usize {
    let mut n = 0;
    for row in m.iter() {
        for c in row.iter() {
            if *c != PieceColor::Empty {
                n += 1;
            }
        }
    }
    n
}

/// Hard-drops the active piece at the given column via one update tick.
fn drop_at(game: &mut Game, col: i32) {
    game.piece.position.col = col;
    game.piece.update_ghost(&game.matrix);
    let mut input = InputState::new();
    input.hard_drop = true;
    game.update(&mut input, 0);
    assert!(!input.hard_drop);
}

#[test]
fn single_row_clear_at_level_one_scores_exactly_100() {
    // Five two-cell dominoes fill the bottom visible row of a 10-wide
    // board: one non-bonus single-row clear with the "Level" multiplier at
    // level 1 is worth exactly 100 points.
    let mut game = new_game(domino_shape(), 7);
    for k in 0..5 {
        drop_at(&mut game, (2 * k) as i32);
    }
    assert_eq!(game.stats.lines_cleared, 1);
    assert_eq!(game.stats.score, 100);
    assert_eq!(game.stats.pieces_placed, 5);
    assert!(!game.game_over);
    assert_eq!(occupied(&game.matrix), 0);
}

#[test]
fn end_to_end_vertical_bars_fill_the_well() {
    // Ten vertical bars across a 10-wide board fill the bottom four rows:
    // one four-row ("fancy") clear, worth 100 * 2^3 = 800 at level 1.
    let mut game = new_game(bar_shape(), 7);
    for col in 0..10 {
        // Rotate the freshly spawned bar to vertical...
        let mut input = InputState::new();
        input.rotate_cw = true;
        game.update(&mut input, 0);
        assert!(!input.rotate_cw);
        assert_eq!(game.piece.rotation, 1);
        // ...then hard-drop it into its own column.
        drop_at(&mut game, col);
    }
    assert_eq!(game.stats.lines_cleared, 4);
    assert_eq!(game.stats.score, 800);
    assert_eq!(game.stats.pieces_placed, 10);
    assert_eq!(occupied(&game.matrix), 0);
}

#[test]
fn update_score_single_rows() {
    let mut game = new_game(domino_shape(), 7);
    game.update_score(1, false);
    assert_eq!(game.stats.score, 100);
    game.update_score(2, false);
    assert_eq!(game.stats.score, 300);
    game.update_score(3, false);
    assert_eq!(game.stats.score, 700);
}

#[test]
fn back_to_back_fancy_clears_carry_a_half_bonus() {
    let mut game = new_game(domino_shape(), 7);
    // First four-row clear: fancy, but nothing fancy preceded it.
    game.update_score(4, false);
    assert_eq!(game.stats.score, 800);
    // Second four-row clear immediately after a fancy one: 800 + 50%.
    game.update_score(4, false);
    assert_eq!(game.stats.score, 800 + 1200);
}

#[test]
fn bonus_assisted_clears_use_the_raised_exponent() {
    let mut game = new_game(domino_shape(), 7);
    // A spin-bonus single-row clear: 100 * 2^2 = 400.
    game.update_score(1, true);
    assert_eq!(game.stats.score, 400);
}

#[test]
fn special_multiplier_scales_points() {
    let mut game = new_game(domino_shape(), 7);
    game.ruleset.score_multiplier = ScoreMultiplier::Special(3);
    game.update_score(1, false);
    assert_eq!(game.stats.score, 300);
}

#[test]
fn end_condition_checks_thresholds() {
    let stats = Stats {
        score: 500,
        time: 90_000_000,
        lines_cleared: 10,
        pieces_placed: 25,
    };
    assert!(EndCondition::Score(500).check(&stats));
    assert!(!EndCondition::Score(501).check(&stats));
    assert!(EndCondition::Lines(10).check(&stats));
    assert!(!EndCondition::Lines(11).check(&stats));
    assert!(EndCondition::Pieces(25).check(&stats));
    assert!(EndCondition::Time(1, 30).check(&stats));
    assert!(!EndCondition::Time(1, 31).check(&stats));
    assert!(!EndCondition::Endless.check(&stats));
}

#[test]
fn finished_game_ignores_updates() {
    let mut game = new_game(domino_shape(), 7);
    game.game_over = true;
    let before_time = game.stats.time;
    let mut input = InputState::new();
    input.hard_drop = true;
    game.update(&mut input, 1000);
    assert_eq!(game.stats.time, before_time);
    assert!(input.hard_drop);
}

#[test]
fn hold_swaps_and_is_consumed_until_placement() {
    let mut game = new_game(domino_shape(), 7);
    assert!(game.held.is_none());
    let mut input = InputState::new();
    input.hold = true;
    game.update(&mut input, 0);
    assert!(!input.hold);
    assert!(game.held.is_some());
    assert!(!game.can_hold);
}

#[test]
fn validation_rejects_degenerate_level_up_condition() {
    let mut ruleset = base_ruleset(7);
    ruleset.level_up_condition = EndCondition::Lines(0);
    let r = Game::new(
        base_gamemode(),
        vec![ruleset],
        catalog(domino_shape(), 7),
        vec![no_kick_table()],
        Config { das: 100, arr: 10 },
    );
    assert_eq!(r.err(), Some(ValidationError::BadLevelRuleset { level: 1 }));
}

#[test]
fn validation_rejects_unknown_piece() {
    let mut ruleset = base_ruleset(7);
    ruleset.piece_list.push(42);
    let r = Game::new(
        base_gamemode(),
        vec![ruleset],
        catalog(domino_shape(), 7),
        vec![no_kick_table()],
        Config { das: 100, arr: 10 },
    );
    assert_eq!(r.err(), Some(ValidationError::UnknownPiece { piece: 42 }));
}

#[test]
fn validation_rejects_missing_kick_table() {
    let mut data = catalog(domino_shape(), 2);
    data[1].kick_table = 9;
    let r = Game::new(
        base_gamemode(),
        vec![base_ruleset(2)],
        data,
        vec![no_kick_table()],
        Config { das: 100, arr: 10 },
    );
    assert_eq!(r.err(), Some(ValidationError::BadCatalogEntry { piece: 1 }));
}

#[test]
fn validation_rejects_empty_kick_catalog() {
    let r = Game::new(
        base_gamemode(),
        vec![base_ruleset(2)],
        catalog(domino_shape(), 2),
        Vec::new(),
        Config { das: 100, arr: 10 },
    );
    assert_eq!(r.err(), Some(ValidationError::EmptyKickData));
}

#[test]
fn validation_rejects_bad_initial_ruleset_index() {
    let mut gamemode = base_gamemode();
    gamemode.initial_ruleset = 3;
    let r = Game::new(
        gamemode,
        vec![base_ruleset(2)],
        catalog(domino_shape(), 2),
        vec![no_kick_table()],
        Config { das: 100, arr: 10 },
    );
    assert_eq!(r.err(), Some(ValidationError::BadRulesetIndex { level: 1 }));
}

#[test]
fn preview_slice_has_the_configured_length() {
    let game = new_game(domino_shape(), 7);
    assert_eq!(game.get_preview_pieces().len(), 3);
}

#[test]
fn level_up_applies_the_new_levels_modifiers() {
    let mut ruleset = base_ruleset(7);
    ruleset.level_up_condition = EndCondition::Lines(1);
    let mut gamemode = base_gamemode();
    gamemode.level_list = vec![vec![
        RulesetModifier::SetGravity(123),
        RulesetModifier::SetPreviewCount(5),
    ]];
    let mut game = Game::new(
        gamemode,
        vec![ruleset],
        catalog(domino_shape(), 7),
        vec![no_kick_table()],
        Config { das: 100, arr: 10 },
    )
    .expect("configuration must validate");
    for k in 0..5 {
        drop_at(&mut game, (2 * k) as i32);
    }
    // The clear was scored at level 1, then the level-up batch applied.
    assert_eq!(game.stats.score, 100);
    assert_eq!(game.level, 2);
    assert_eq!(game.ruleset.gravity, 123);
    assert_eq!(game.ruleset.preview_count, 5);
    assert_eq!(game.level_stats.lines_cleared, 0);
    assert!(game.piece_queue.len() >= 5);
}

#[test]
fn stats_rebase_keeps_surplus_progress() {
    let prev = Stats {
        score: 70,
        time: 5,
        lines_cleared: 7,
        pieces_placed: 9,
    };
    let rebased = Stats::next_level(&prev, &EndCondition::Lines(3));
    assert_eq!(rebased.lines_cleared, 4);
    assert_eq!(rebased.score, 0);
    assert_eq!(rebased.time, 0);
    assert_eq!(rebased.pieces_placed, 0);
}

#[test]
fn grounded_piece_locks_when_the_lock_delay_runs_out() {
    let mut ruleset = base_ruleset(7);
    ruleset.lock_delay = 1000;
    let mut game = Game::new(
        base_gamemode(),
        vec![ruleset],
        catalog(domino_shape(), 7),
        vec![no_kick_table()],
        Config { das: 100, arr: 10 },
    )
    .expect("configuration must validate");
    // An instant drop snaps to the floor but stays controllable.
    let mut input = InputState::new();
    input.instant_drop = true;
    game.update(&mut input, 0);
    assert!(!input.instant_drop);
    assert_eq!(game.stats.pieces_placed, 0);
    // Once the accumulated lock delay runs out, the grounded piece locks.
    game.update(&mut input, 1000);
    assert_eq!(game.stats.pieces_placed, 1);
    assert!(game.can_hold);
}

#[test]
fn gravity_steps_one_row_per_whole_interval() {
    let mut ruleset = base_ruleset(7);
    ruleset.gravity = 1000;
    let mut game = Game::new(
        base_gamemode(),
        vec![ruleset],
        catalog(domino_shape(), 7),
        vec![no_kick_table()],
        Config { das: 100, arr: 10 },
    )
    .expect("configuration must validate");
    let start_row = game.piece.position.row;
    let mut input = InputState::new();
    // 3500 microseconds hold three whole 1000-microsecond intervals.
    game.update(&mut input, 3500);
    assert_eq!(game.piece.position.row, start_row + 3);
    // Soft drop quarters the interval to 250 and clamps the banked timer
    // down to it: 250 + 1000 elapsed holds four whole intervals.
    let mid_row = game.piece.position.row;
    input.soft_drop = true;
    game.update(&mut input, 1000);
    assert_eq!(game.piece.position.row, mid_row + 4);
}

#[test]
fn held_direction_auto_repeats_after_the_das_delay() {
    // das 100 ms, arr 10 ms (the core runs on microseconds).
    let mut game = new_game(domino_shape(), 7);
    // The domino spawns centered at columns 4..6.
    assert_eq!(game.piece.position.col, 4);
    let mut input = InputState::new();
    input.right = true;
    // A fresh direction moves one cell immediately and arms the DAS timer.
    game.update(&mut input, 0);
    assert_eq!(game.piece.position.col, 5);
    // Holding through the full delay converts the tick's time into
    // auto-repeat steps; the wall stops the run at columns 8..10.
    game.update(&mut input, 100_000);
    assert_eq!(game.piece.position.col, 8);
    assert_eq!(game.arr_leftover, 0);
}
