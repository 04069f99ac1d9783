use blockfall::piece::{PieceColor, PieceType};
use blockfall::randomizer::{Randomizer, RandomizerStyle, fix_starting_piece};

fn counts(ids: &[usize], n: usize) -> Vec<usize> {
    let mut c = vec![0usize; n];
    for id in ids.iter() {
        c[*id] += 1;
    }
    c
}

#[test]
fn n_bag_is_a_permutation_every_time() {
    let r = Randomizer::new(vec![0, 1, 2, 3, 4, 5, 6], RandomizerStyle::NBag);
    for _ in 0..50 {
        let bag = r.n_bag();
        assert_eq!(bag.len(), 7);
        // Each piece name exactly once per bag.
        assert_eq!(counts(&bag, 7), vec![1, 1, 1, 1, 1, 1, 1]);
    }
}

#[test]
fn n_bag_long_run_frequency_is_uniform() {
    let r = Randomizer::new(vec![0, 1, 2, 3, 4], RandomizerStyle::NBag);
    let mut totals = vec![0usize; 5];
    for _ in 0..200 {
        for id in r.n_bag().iter() {
            totals[*id] += 1;
        }
    }
    // Exactly once per bag makes the long-run frequency exactly uniform.
    assert_eq!(totals, vec![200, 200, 200, 200, 200]);
}

#[test]
fn double_n_bag_holds_each_piece_twice() {
    let r = Randomizer::new(vec![0, 1, 2], RandomizerStyle::DoubleNBag);
    let bag = r.double_n_bag();
    assert_eq!(bag.len(), 6);
    assert_eq!(counts(&bag, 3), vec![2, 2, 2]);
}

#[test]
fn minus_1_bag_never_excludes_the_same_piece_twice_in_a_row() {
    let mut r = Randomizer::new(vec![0, 1, 2, 3, 4, 5, 6], RandomizerStyle::Minus1Bag);
    let mut prev_excluded: Option<usize> = None;
    for _ in 0..100 {
        let bag = r.minus_1_bag();
        assert_eq!(bag.len(), 6);
        let c = counts(&bag, 7);
        let mut excluded = None;
        for (id, k) in c.iter().enumerate() {
            match *k {
                0 => {
                    assert!(excluded.is_none());
                    excluded = Some(id);
                },
                1 => {},
                _ => panic!("a piece appeared twice in a minus-one bag"),
            }
        }
        let excluded = excluded.expect("exactly one piece must be excluded");
        if let Some(p) = prev_excluded {
            assert_ne!(excluded, p);
        }
        prev_excluded = Some(excluded);
    }
}

#[test]
fn full_random_draws_only_from_the_list() {
    let r = Randomizer::new(vec![3, 5, 9], RandomizerStyle::FullRandom);
    for _ in 0..20 {
        let bag = r.full_random();
        assert_eq!(bag.len(), 10);
        for id in bag.iter() {
            assert!(*id == 3 || *id == 5 || *id == 9);
        }
    }
}

#[test]
fn classic_remembers_its_last_piece() {
    let mut r = Randomizer::new(vec![0, 1, 2, 3], RandomizerStyle::Classic);
    for _ in 0..20 {
        let bag = r.classic();
        assert_eq!(bag.len(), 10);
        assert_eq!(r.remembered_piece, Some(bag[9]));
    }
}

#[test]
fn streak_repeats_one_piece_between_two_and_five_times() {
    let r = Randomizer::new(vec![0, 1, 2], RandomizerStyle::Streak);
    for _ in 0..50 {
        let bag = r.streak();
        assert!(bag.len() >= 2 && bag.len() < 6);
        for id in bag.iter() {
            assert_eq!(*id, bag[0]);
        }
        assert!(bag[0] < 3);
    }
}

#[test]
fn chaos_pieces_are_fresh_well_formed_shapes() {
    let r = Randomizer::new(vec![0], RandomizerStyle::Chaos);
    let pieces = r.chaos(0);
    assert_eq!(pieces.len(), 10);
    for p in pieces.iter() {
        assert_eq!(p.kick_table, 0);
        assert!(!p.spin_bonus);
        for rot in 0..4 {
            let cells = &p.shape[rot];
            assert!(!cells.is_empty());
            for (x, y) in cells.iter() {
                assert!(*x >= 0 && *x < 4);
                assert!(*y >= 0 && *y < 4);
            }
        }
    }
}

#[test]
fn fix_starting_piece_swaps_a_disallowed_tail() {
    // The tail (the next piece to spawn) is disallowed; the scan from the
    // back finds index 2 allowed and swaps it in.
    let mut list = vec![0, 7, 3, 9, 5];
    let disallowed = vec![5, 9];
    fix_starting_piece(&mut list, &disallowed);
    assert_eq!(list.len(), 5);
    let tail = *list.last().unwrap();
    assert!(!disallowed.contains(&tail));
    let mut sorted = list.clone();
    sorted.sort();
    assert_eq!(sorted, vec![0, 3, 5, 7, 9]);
}

#[test]
fn fix_starting_piece_leaves_an_allowed_tail_alone() {
    let mut list = vec![5, 9, 0];
    let disallowed = vec![5, 9];
    fix_starting_piece(&mut list, &disallowed);
    assert_eq!(list, vec![5, 9, 0]);
}

#[test]
fn generate_pieces_instantiates_catalog_entries() {
    let data = vec![
        PieceType {
            shape: [
                vec![(0i8, 0i8), (1, 0)],
                vec![(0, 0), (0, 1)],
                vec![(0, 0), (1, 0)],
                vec![(0, 0), (0, 1)],
            ],
            color: PieceColor::Red,
            kick_table: 0,
            spin_bonus: false,
        },
    ];
    let mut r = Randomizer::new(vec![0], RandomizerStyle::NBag);
    let pieces = r.generate_pieces(&None, &data, 0);
    assert_eq!(pieces.len(), 1);
    assert_eq!(pieces[0].color, PieceColor::Red);
    assert_eq!(pieces[0].shape[0], vec![(0, 0), (1, 0)]);
}

#[test]
fn shuffling_actually_varies_the_order() {
    // Two hundred seven-piece bags virtually never all come out in the
    // same order; a draw that ignored its random source would.
    let r = Randomizer::new(vec![0, 1, 2, 3, 4, 5, 6], RandomizerStyle::NBag);
    let first = r.n_bag();
    let mut saw_different = false;
    for _ in 0..200 {
        if r.n_bag() != first {
            saw_different = true;
            break;
        }
    }
    assert!(saw_different);
}
