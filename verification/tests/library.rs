use keiri::anchor::{anchor_layer_work, build_upper_score_cache, dense_next_anchor_key, ANCHOR_VALUE_COUNT};
use keiri::candidates::{
    action_tie_key, bytes_lt, candidate_hold_masks, canonical_hold_masks, exact_candidate_actions,
    mask_for_faces, mask_for_one_each, push_unique_mask,
};
use keiri::cli::{
    default_agent_for_ruleset, default_anchor_table_path, parse_agent, parse_anchor_builder,
    parse_bool_option, parse_category, parse_depths, parse_threads, CliAgent,
};
use keiri::distribution::{build_distributions, distribution_for_count, factorial, multinomial_weight};
use keiri::simulation::{evaluate_games, play_action, roll_faces_for_action, simulate_game, Player};
use keiri::table_build::{dense_batch_size, validate_endgame_slice};
use keiri::table_file::{
    checksum64, decode_anchor_table, encode_anchor_table, read_u32, read_u64, ruleset_byte,
    ruleset_from_byte,
};
use keiri::{
    Action, AnchorBuildOptions, AnchorBuildStrategy, AnchorKey, AnchorYahtzeeState, Category, Dice,
    GameState, KeiriError, OracleKey, Rng64, Rules, Ruleset, ScoreSheet,
};

fn dice(values: [u8; 5]) -> Dice {
    Dice::new(values).unwrap()
}

#[test]
fn generator_is_deterministic_and_never_stuck_at_zero() {
    let mut a = Rng64::new(42);
    let mut b = Rng64::new(42);
    assert_eq!(a.next_u64(), 6255019084209693600);
    assert_eq!(b.next_u64(), 6255019084209693600);
    let mut zero = Rng64::new(0);
    let mut one = Rng64::new(1);
    assert_eq!(zero.next_u64(), one.next_u64());
    for _ in 0..1000 {
        let face = zero.next_die();
        assert!((1..=6).contains(&face));
    }
}

#[test]
fn rolled_faces_follow_the_generator_and_skip_held_dice() {
    let mut rng = Rng64::new(42);
    let faces = roll_faces_for_action(&mut rng, &GameState::new(), 0).unwrap();
    assert_eq!(faces, vec![1, 3, 3, 2, 3]);

    let state = GameState::from_parts(Some(dice([1, 2, 3, 4, 5])), 1, ScoreSheet::new()).unwrap();
    let mut rng = Rng64::new(42);
    let faces = roll_faces_for_action(&mut rng, &state, 0b00111).unwrap();
    assert_eq!(faces, vec![1, 3]);

    let mut rng = Rng64::new(7);
    let before = rng;
    assert_eq!(
        roll_faces_for_action(&mut rng, &state, 32),
        Err(KeiriError::InvalidHoldMask(32))
    );
    assert_eq!(rng, before);
}

#[test]
fn checksum_is_fnv1a_over_both_parts() {
    assert_eq!(checksum64(&[], &[]), 0xcbf29ce484222325);
    assert_eq!(checksum64(b"a", &[]), 0xaf63dc4c8601ec8c);
    assert_eq!(checksum64(&[], b"a"), 0xaf63dc4c8601ec8c);
    assert_eq!(checksum64(b"ke", b"iri"), checksum64(b"keiri", &[]));
}

#[test]
fn little_endian_reads_advance_the_offset() {
    let bytes = [1u8, 0, 0, 0, 2, 0, 0, 0, 0, 0, 0, 0];
    let mut offset = 0;
    assert_eq!(read_u32(&bytes, &mut offset), Ok(1));
    assert_eq!(offset, 4);
    assert_eq!(read_u64(&bytes, &mut offset), Ok(2));
    assert_eq!(offset, 12);
    assert!(matches!(read_u32(&bytes, &mut offset), Err(KeiriError::InvalidAnchorTable(_))));
    assert_eq!(offset, 12);
}

#[test]
fn ruleset_bytes_round_trip() {
    for ruleset in [Ruleset::HasbroStrict, Ruleset::BuddyBoardGames] {
        assert_eq!(ruleset_from_byte(ruleset_byte(ruleset)), Some(ruleset));
    }
    assert_eq!(ruleset_byte(Ruleset::HasbroStrict), 1);
    assert_eq!(ruleset_from_byte(0), None);
    assert_eq!(ruleset_from_byte(3), None);
}

#[test]
fn exact_table_round_trips_serialized_values_and_rejects_tampering() {
    let mut values = vec![0u8; ANCHOR_VALUE_COUNT * 8];
    values[0] = 7;
    values[ANCHOR_VALUE_COUNT * 8 - 1] = 9;
    let bytes = encode_anchor_table(Ruleset::BuddyBoardGames, &values);
    assert_eq!(&bytes[..8], b"KEIRIAT1");
    assert_eq!(bytes.len(), 42 + values.len());
    let (ruleset, decoded) = decode_anchor_table(&bytes).unwrap();
    assert_eq!(ruleset, Ruleset::BuddyBoardGames);
    assert_eq!(decoded, values);

    let mut tampered = bytes.clone();
    let last = tampered.len() - 1;
    tampered[last] ^= 0x01;
    assert!(matches!(decode_anchor_table(&tampered), Err(KeiriError::InvalidAnchorTable(_))));

    let mut checksum_changed = bytes.clone();
    checksum_changed[37] ^= 0x80;
    assert!(matches!(decode_anchor_table(&checksum_changed), Err(KeiriError::InvalidAnchorTable(_))));

    let mut stale_version = bytes.clone();
    stale_version[8..12].copy_from_slice(&1u32.to_le_bytes());
    assert!(matches!(decode_anchor_table(&stale_version), Err(KeiriError::InvalidAnchorTable(_))));

    assert!(matches!(decode_anchor_table(&bytes[..41]), Err(KeiriError::InvalidAnchorTable(_))));
    let short = encode_anchor_table(Ruleset::HasbroStrict, &[0u8; 16]);
    assert!(matches!(decode_anchor_table(&short), Err(KeiriError::InvalidAnchorTable(_))));
}

#[test]
fn command_line_values_parse() {
    assert_eq!(parse_depths("1,3,1"), Ok(vec![1, 3]));
    assert_eq!(parse_depths("2"), Ok(vec![2]));
    assert_eq!(parse_depths("4"), Err(KeiriError::InvalidRollCount(4)));
    assert!(matches!(parse_depths("1,x"), Err(KeiriError::ParseError(_))));
    assert!(matches!(parse_depths(""), Err(KeiriError::ParseError(_))));

    assert_eq!(parse_bool_option("verbose", "yes"), Ok(true));
    assert_eq!(parse_bool_option("verbose", "0"), Ok(false));
    assert_eq!(
        parse_bool_option("verbose", "maybe"),
        Err(KeiriError::ParseError("invalid verbose boolean `maybe`".to_string()))
    );

    assert_eq!(parse_threads("auto"), Ok(None));
    assert_eq!(parse_threads("4"), Ok(Some(4)));
    assert!(matches!(parse_threads("0"), Err(KeiriError::ParseError(_))));
    assert!(matches!(parse_threads("-1"), Err(KeiriError::ParseError(_))));

    assert_eq!(parse_anchor_builder("dense"), Ok(AnchorBuildStrategy::Dense));
    assert_eq!(parse_anchor_builder("recursive"), Ok(AnchorBuildStrategy::Recursive));
    assert!(parse_anchor_builder("fast").is_err());

    assert_eq!(parse_agent("best"), Ok(CliAgent::Auto));
    assert_eq!(parse_agent("table"), Ok(CliAgent::ExactTable));
    assert_eq!(parse_agent("hybrid-v2"), Ok(CliAgent::Hybrid));
    assert_eq!(parse_agent("heuristic").unwrap().as_cli_value(), "heuristic");
    assert!(parse_agent("optimal").is_err());
    assert_eq!(default_agent_for_ruleset(Ruleset::BuddyBoardGames), CliAgent::Auto);
    assert_eq!(
        default_anchor_table_path(Ruleset::BuddyBoardGames),
        "target/keiri_tables/bbg-anchor-v1.bin"
    );
    assert_eq!(parse_category("Full House"), Ok(Category::FullHouse));
    assert!(matches!(parse_category("bogus"), Err(KeiriError::ParseError(_))));
}

#[test]
fn build_settings_and_batches() {
    let options = AnchorBuildOptions::default();
    assert_eq!(options.threads, None);
    assert_eq!(options.strategy, AnchorBuildStrategy::Dense);
    assert_eq!(options.thread_count(8), 8);
    assert_eq!(options.thread_count(0), 1);
    let fixed = AnchorBuildOptions { threads: Some(3), strategy: AnchorBuildStrategy::Recursive };
    assert_eq!(fixed.thread_count(8), 3);

    assert_eq!(dense_batch_size(10000, 4), 1250);
    assert_eq!(dense_batch_size(100000, 1), 2048);
    assert_eq!(dense_batch_size(0, 4), 1);
    assert_eq!(dense_batch_size(5, 0), 3);
}

#[test]
fn canonical_hold_masks_keep_each_set_of_dice_once() {
    assert_eq!(canonical_hold_masks(dice([6, 6, 6, 6, 6])), vec![0, 1, 3, 7, 15, 31]);
    assert_eq!(canonical_hold_masks(dice([1, 2, 3, 4, 5])).len(), 32);
    assert_eq!(
        canonical_hold_masks(dice([1, 1, 2, 2, 6])),
        vec![0, 1, 3, 7, 15, 31, 23, 19, 5, 13, 29, 21, 17, 4, 12, 28, 20, 16]
    );
    assert!(bytes_lt(&[1, 2], &[1, 3]));
    assert!(bytes_lt(&[1], &[1, 0]));
    assert!(!bytes_lt(&[2], &[1, 9]));
}

#[test]
fn exact_candidates_score_then_reroll() {
    let start = GameState::new();
    assert_eq!(
        exact_candidate_actions(Ruleset::HasbroStrict, &start),
        vec![Action::Roll { hold_mask: 0 }]
    );

    let state = GameState::from_parts(Some(dice([6, 6, 6, 6, 6])), 1, ScoreSheet::new()).unwrap();
    let actions = exact_candidate_actions(Ruleset::HasbroStrict, &state);
    assert_eq!(actions.len(), 13 + 6);
    assert_eq!(actions[0], Action::Score { category: Category::Ones });
    assert_eq!(actions[13], Action::Roll { hold_mask: 0 });
    assert_eq!(actions[18], Action::Roll { hold_mask: 31 });

    let last = GameState::from_parts(Some(dice([6, 6, 6, 6, 6])), 3, ScoreSheet::new()).unwrap();
    assert_eq!(exact_candidate_actions(Ruleset::HasbroStrict, &last).len(), 13);

    assert_eq!(
        action_tie_key(&state, Action::Score { category: Category::Chance }),
        (0, vec![12], 0)
    );
    assert_eq!(
        action_tie_key(&state, Action::Roll { hold_mask: 3 }),
        (1, vec![6, 6], 3)
    );
    assert_eq!(action_tie_key(&start, Action::Roll { hold_mask: 3 }), (1, vec![], 3));
}

#[test]
fn heuristic_hold_masks_follow_faces_runs_and_singles() {
    assert_eq!(candidate_hold_masks(dice([1, 2, 3, 4, 5])), vec![0, 31, 1, 2, 4, 8, 16, 15, 30, 28]);
    assert_eq!(
        candidate_hold_masks(dice([2, 2, 3, 5, 6])),
        vec![0, 31, 3, 4, 8, 16, 5, 13, 28, 29, 24, 1, 2]
    );
    assert_eq!(mask_for_faces(&[1, 2, 2, 5, 6], &[2]), 6);
    assert_eq!(mask_for_one_each(&[1, 2, 2, 3, 4], &[1, 2, 3, 4]), 27);
    let mut masks = vec![1, 2];
    push_unique_mask(&mut masks, 2);
    push_unique_mask(&mut masks, 3);
    assert_eq!(masks, vec![1, 2, 3]);
}

#[test]
fn roll_outcomes_cover_every_ordered_roll() {
    let all = build_distributions();
    assert_eq!(all.len(), 6);
    let expected_lengths = [1usize, 6, 21, 56, 126, 252];
    for (count, outcomes) in all.iter().enumerate() {
        assert_eq!(outcomes.len(), expected_lengths[count]);
        let weight_sum: u32 = outcomes.iter().map(|(_, weight)| *weight).sum();
        assert_eq!(weight_sum, 6u32.pow(count as u32));
    }
    let two = distribution_for_count(2);
    assert_eq!(two[0], (vec![6, 6], 1));
    assert_eq!(two[1], (vec![5, 6], 2));
    assert_eq!(two[20], (vec![1, 1], 1));
    assert_eq!(factorial(0), 1);
    assert_eq!(factorial(5), 120);
    assert_eq!(factorial(12), 479001600);
    assert_eq!(multinomial_weight(5, &[0, 2, 2, 1, 0, 0, 0]), 30);
}

#[test]
fn full_layer_has_one_key_per_subtotal_and_yahtzee_score() {
    let cache = build_upper_score_cache();
    let work = anchor_layer_work(0, &cache);
    assert_eq!(work.len(), 128);
    for window in work.windows(2) {
        assert!(window[0].0.index() < window[1].0.index());
    }
    for (key, sheet) in &work {
        assert_eq!(key.filled_mask, 8191);
        assert_ne!(key.yahtzee_state, AnchorYahtzeeState::Open);
        assert_eq!(AnchorKey::from_sheet(sheet), *key);
    }
}

#[test]
fn oracle_key_reads_the_state() {
    let mut sheet = ScoreSheet::new();
    sheet.fill_raw(Category::Sixes, 30).unwrap();
    sheet.fill_raw(Category::Fives, 25).unwrap();
    sheet.fill_raw(Category::Fours, 20).unwrap();
    sheet.fill_raw(Category::Yahtzee, 50).unwrap();
    let state = GameState::from_parts(Some(dice([1, 2, 3, 4, 5])), 2, sheet).unwrap();
    let key = OracleKey::from_state(&state);
    assert_eq!(key.dice, Some(dice([1, 2, 3, 4, 5])));
    assert_eq!(key.rolls_used, 2);
    assert_eq!(key.filled_mask, (1 << 3) | (1 << 4) | (1 << 5) | (1 << 11));
    assert_eq!(key.upper_subtotal_capped, 63);
    assert!(key.yahtzee_scored_50);
}

#[test]
fn rolling_keeps_held_dice() {
    let state = GameState::from_parts(Some(dice([2, 2, 5, 6, 6])), 1, ScoreSheet::new()).unwrap();
    let next = Rules::apply_roll(&state, 0b11000, &[1, 2, 3]).unwrap();
    assert_eq!(next.dice().unwrap().values(), [1, 2, 3, 6, 6]);
    assert_eq!(next.rolls_used(), 2);
}

#[test]
fn zeroed_yahtzee_allows_every_open_category() {
    let mut sheet = ScoreSheet::new();
    sheet.fill_raw(Category::Yahtzee, 0).unwrap();
    let legal = Rules::legal_score_categories(&sheet, dice([3, 3, 3, 3, 3]));
    assert_eq!(legal.len(), 12);
    let result = Rules::score(Category::FullHouse, dice([3, 3, 3, 3, 3]), &sheet);
    assert_eq!(result.yahtzee_bonus, 0);
    assert_eq!(result.base_score, 0);
}

#[test]
fn dense_tables_cover_every_roll() {
    let tables = keiri::dense::DenseTurnTables::new().unwrap();
    assert_eq!(tables.dice.len(), 252);
    assert_eq!(tables.holds.len(), 252);
    let first: u32 = tables.dice.iter().map(|state| state.first_roll_weight).sum();
    assert_eq!(first, 7776);
    for (id, state) in tables.dice.iter().enumerate() {
        assert_eq!(state.dice.canonical_index(), id);
        for transition in &tables.holds[id] {
            let total: u32 = transition.outcomes.iter().map(|(_, weight)| *weight).sum();
            assert_eq!(total, transition.denominator);
        }
    }
    let yahtzee = &tables.dice[251];
    assert_eq!(yahtzee.dice.values(), [6, 6, 6, 6, 6]);
    assert_eq!(yahtzee.base_scores[Category::FullHouse.index()], 0);
    assert_eq!(yahtzee.joker_scores[Category::FullHouse.index()], 25);
    assert_eq!(tables.holds[251].len(), 6);

    let mut sheet = ScoreSheet::new();
    sheet.fill_raw(Category::Yahtzee, 50).unwrap();
    sheet.fill_raw(Category::Sixes, 30).unwrap();
    let result = tables.score_result(Ruleset::HasbroStrict, &sheet, 251, Category::FullHouse);
    assert_eq!(result, Rules::score(Category::FullHouse, dice([6, 6, 6, 6, 6]), &sheet));
    assert_eq!(result.total_delta, 125);
}

#[test]
fn playing_actions_follows_the_rules_and_the_generator() {
    let mut rng = Rng64::new(42);
    let start = GameState::new();
    assert_eq!(
        play_action(Ruleset::HasbroStrict, &mut rng, &start, None).unwrap_err(),
        KeiriError::TerminalState
    );
    assert_eq!(
        play_action(
            Ruleset::HasbroStrict,
            &mut rng,
            &start,
            Some(Action::Score { category: Category::Chance })
        )
        .unwrap_err(),
        KeiriError::MissingDice
    );
    let rolled = play_action(Ruleset::HasbroStrict, &mut rng, &start, Some(Action::Roll { hold_mask: 0 }))
        .unwrap();
    assert_eq!(rolled.rolled, vec![1, 3, 3, 2, 3]);
    assert_eq!(rolled.state.dice().unwrap().values(), [1, 2, 3, 3, 3]);
    assert_eq!(rolled.result, None);
    let scored = play_action(
        Ruleset::HasbroStrict,
        &mut rng,
        &rolled.state,
        Some(Action::Score { category: Category::Threes }),
    )
    .unwrap();
    assert_eq!(scored.result.unwrap().base_score, 9);
    assert_eq!(scored.state.sheet().score(Category::Threes), Some(9));
    assert_eq!(scored.state.dice(), None);
}

#[test]
fn endgame_slices_need_one_open_category_and_valid_depths() {
    let mut sheet = ScoreSheet::new();
    for category in Category::ALL {
        if category != Category::Chance {
            sheet.fill_raw(category, 0).unwrap();
        }
    }
    assert_eq!(validate_endgame_slice(&sheet, &[1, 2, 3]), Ok(()));
    assert_eq!(validate_endgame_slice(&sheet, &[2, 0, 4]), Err(KeiriError::InvalidRollCount(0)));
    assert!(matches!(validate_endgame_slice(&sheet, &[]), Err(KeiriError::InvalidTableSlice(_))));
    assert_eq!(
        validate_endgame_slice(&ScoreSheet::new(), &[1]),
        Err(KeiriError::InvalidTableSlice(
            "endgame table slices require exactly one open category; found 13".to_string()
        ))
    );
}

#[test]
fn errors_read_as_messages() {
    assert_eq!(KeiriError::InvalidDie(9).to_text(), "invalid die value 9; expected 1..=6");
    assert_eq!(KeiriError::InvalidDiceCount(3).to_text(), "invalid dice count 3; expected 5");
    assert_eq!(
        KeiriError::CategoryAlreadyFilled(Category::FullHouse).to_text(),
        "full-house is already filled"
    );
    assert_eq!(
        KeiriError::InvalidRecordedScore { category: Category::Twos, score: 3 }.to_text(),
        "3 is not a valid recorded score for twos"
    );
    assert_eq!(KeiriError::ParseError("bad".to_string()).to_text(), "bad");
    assert_eq!(KeiriError::TerminalState.to_text(), "the game is already terminal");
}

#[test]
fn sheet_limits_leave_room_for_a_score() {
    let mut sheet = ScoreSheet::new();
    assert!(sheet.is_within_limits());
    // 653 bonuses total 65300 and leave room for 185 more points; 654 do not.
    sheet.set_yahtzee_bonus_count(653);
    assert!(sheet.is_within_limits());
    sheet.set_yahtzee_bonus_count(654);
    assert!(!sheet.is_within_limits());
}

#[test]
fn compact_text_reads_back_the_state() {
    let mut sheet = ScoreSheet::new();
    sheet.fill_raw(Category::Ones, 3).unwrap();
    sheet.fill_raw(Category::ThreeKind, 17).unwrap();
    sheet.fill_raw(Category::SmallStraight, 30).unwrap();
    sheet.fill_raw(Category::Yahtzee, 50).unwrap();
    sheet.set_yahtzee_bonus_count(2);
    let state = GameState::from_parts(Some(dice([6, 2, 2, 6, 5])), 2, sheet).unwrap();
    let text = state.to_compact();
    assert_eq!(
        text,
        "dice=2,2,5,6,6 rolls=2 scores=ones:3,three-kind:17,small-straight:30,yahtzee:50 yahtzee_bonus=2"
    );
    assert_eq!(GameState::parse_compact(&text).unwrap(), state);

    let fresh = GameState::new();
    assert_eq!(fresh.to_compact(), "dice=none rolls=0");
    assert_eq!(GameState::parse_compact(&fresh.to_compact()).unwrap(), fresh);
}

#[test]
fn printed_names_read_back() {
    for category in Category::ALL {
        assert_eq!(Category::from_name(category.name()), Some(category));
    }
    for ruleset in [Ruleset::HasbroStrict, Ruleset::BuddyBoardGames] {
        assert_eq!(Ruleset::from_name(ruleset.name()), Some(ruleset));
    }
}

#[test]
fn white_space_beyond_ascii_separates_and_trims() {
    let state = GameState::parse_compact("dice=1,2,3,4,5\u{a0}rolls=1\u{3000}scores=ones:3").unwrap();
    assert_eq!(state.dice(), Some(dice([1, 2, 3, 4, 5])));
    assert_eq!(state.rolls_used(), 1);
    assert_eq!(state.sheet().score(Category::Ones), Some(3));

    assert_eq!(Dice::parse("6,\u{2003}1 ,2,\u{85}3,4").unwrap().values(), [1, 2, 3, 4, 6]);
    assert!(Dice::parse("6,1,2,3,4\u{200b}").is_err());

    let tokens = ["dice=1,1,1,1,1\u{2028}", "rolls=3"];
    let state = GameState::parse_compact_tokens(&tokens).unwrap();
    assert_eq!(state.rolls_used(), 3);
}

#[test]
fn next_key_is_the_key_of_the_scored_sheet() {
    let mut before = ScoreSheet::new();
    before.fill_raw(Category::Sixes, 24).unwrap();
    before.fill_raw(Category::Fives, 20).unwrap();
    for (category, score) in [(Category::Fours, 16), (Category::Yahtzee, 50), (Category::Yahtzee, 0), (Category::Chance, 22)] {
        let mut after = before.clone();
        after.fill_raw(category, score).unwrap();
        assert_eq!(dense_next_anchor_key(&before, category, score), AnchorKey::from_sheet(&after));
    }
    let key = dense_next_anchor_key(&before, Category::Fours, 16);
    assert_eq!(key.upper_subtotal_capped, 60);
    assert_eq!(key.yahtzee_state, AnchorYahtzeeState::Open);
}

#[test]
fn every_listed_action_is_accepted() {
    let mut sheet = ScoreSheet::new();
    sheet.fill_raw(Category::Yahtzee, 50).unwrap();
    sheet.fill_raw(Category::Threes, 9).unwrap();
    let state = GameState::from_parts(Some(dice([3, 3, 3, 3, 3])), 2, sheet).unwrap();
    for ruleset in [Ruleset::HasbroStrict, Ruleset::BuddyBoardGames] {
        let actions = Rules::legal_actions_with_ruleset(ruleset, &state);
        assert!(!actions.is_empty());
        for action in actions {
            match action {
                Action::Roll { hold_mask } => {
                    let rerolled = 5 - (0..5).filter(|i| hold_mask & (1 << i) != 0).count();
                    let faces = vec![4u8; rerolled];
                    assert!(Rules::apply_roll(&state, hold_mask, &faces).is_ok());
                }
                Action::Score { category } => {
                    assert!(Rules::apply_score_with_ruleset(ruleset, &state, category).is_ok());
                }
            }
        }
    }
}

struct LastListedAction(Ruleset);

impl Player for LastListedAction {
    fn select_action(&mut self, state: &GameState) -> Option<Action> {
        Rules::legal_actions_with_ruleset(self.0, state).last().copied()
    }
}

struct RollsForever;

impl Player for RollsForever {
    fn select_action(&mut self, _state: &GameState) -> Option<Action> {
        Some(Action::Roll { hold_mask: 0 })
    }
}

struct Passes;

impl Player for Passes {
    fn select_action(&mut self, _state: &GameState) -> Option<Action> {
        None
    }
}

#[test]
fn simulated_games_are_replayable_and_complete() {
    let play = |seed: u64| {
        let mut rng = Rng64::new(seed);
        simulate_game(seed, &mut rng, Ruleset::HasbroStrict, &mut LastListedAction(Ruleset::HasbroStrict), true)
            .unwrap()
    };
    let first = play(42);
    let second = play(42);
    assert_eq!(first, second);
    assert_eq!(first.seed, 42);
    assert_eq!(first.turn_count, 13);
    assert!(first.final_score <= 1575);
    assert_eq!(first.turn_log.len(), 26);
    assert!(first.turn_log[0].starts_with("turn 1: dice=none rolls=0 -> roll hold_mask=00000; rolled="));
    assert!(first.turn_log[1].starts_with("turn 1: score chance; delta="));
    assert_ne!(play(1).turn_log, play(2).turn_log);

    let mut rng = Rng64::new(7);
    let quiet = simulate_game(7, &mut rng, Ruleset::BuddyBoardGames, &mut LastListedAction(Ruleset::BuddyBoardGames), false)
        .unwrap();
    assert!(quiet.turn_log.is_empty());
}

#[test]
fn a_simulated_game_draws_its_dice_from_the_generator() {
    // One roll of all five dice per turn: 65 draws in a finished game.
    let mut rng = Rng64::new(42);
    simulate_game(42, &mut rng, Ruleset::HasbroStrict, &mut LastListedAction(Ruleset::HasbroStrict), false)
        .unwrap();
    let mut expected = Rng64::new(42);
    for _ in 0..65 {
        expected.next_u64();
    }
    assert_eq!(rng, expected);

    // A player that never acts draws nothing.
    let mut rng = Rng64::new(9);
    assert!(simulate_game(9, &mut rng, Ruleset::HasbroStrict, &mut Passes, false).is_err());
    assert_eq!(rng, Rng64::new(9));
}

#[test]
fn simulated_games_stop_at_the_first_unplayable_action() {
    let mut rng = Rng64::new(3);
    assert_eq!(
        simulate_game(3, &mut rng, Ruleset::HasbroStrict, &mut RollsForever, false),
        Err(KeiriError::NoRollsRemaining)
    );
    let mut rng = Rng64::new(3);
    assert_eq!(
        simulate_game(3, &mut rng, Ruleset::HasbroStrict, &mut Passes, false),
        Err(KeiriError::TerminalState)
    );
}

#[test]
fn reader_errors_quote_what_they_could_not_read() {
    assert_eq!(
        GameState::parse_compact("dice=1,2,3,4,5 rolls=x"),
        Err(KeiriError::ParseError("invalid rolls value `x`".to_string()))
    );
    assert_eq!(
        GameState::parse_compact("scores=ones:3,sevens:1"),
        Err(KeiriError::ParseError("unknown category `sevens`".to_string()))
    );
    assert_eq!(
        Dice::parse("1,2,x ,4,5"),
        Err(KeiriError::ParseError("invalid die value `x`".to_string()))
    );
    assert_eq!(
        keiri::BuddyBoardGamesSnapshot::parse_compact("state=STARTED me=0 turn=1 dice=1,2,3,4,5 rows=0:3:1"),
        Err(KeiriError::InvalidBuddyBoardGamesSnapshot("not this player's turn: me=0 turn=1".to_string()))
    );
    assert_eq!(
        keiri::BuddyBoardGamesSnapshot::parse_compact("me=0 turn=0 colour=red"),
        Err(KeiriError::ParseError("unknown BuddyBoardGames key `colour`".to_string()))
    );
    assert_eq!(
        decode_anchor_table(&[0u8; 10]),
        Err(KeiriError::InvalidAnchorTable("anchor table is too short".to_string()))
    );
    assert_eq!(
        parse_agent("genius"),
        Err(KeiriError::ParseError("unknown agent `genius`".to_string()))
    );
}

#[test]
fn dice_text_reads_back() {
    for values in [[1, 1, 1, 1, 1], [6, 5, 4, 3, 2], [2, 6, 2, 6, 5]] {
        let d = dice(values);
        assert_eq!(Dice::parse(&d.to_text()), Ok(d));
    }
    assert_eq!(dice([6, 5, 4, 3, 2]).to_text(), "2,3,4,5,6");
}

#[test]
fn anchor_index_is_computed_for_every_key() {
    let inside = AnchorKey { filled_mask: 8191, upper_subtotal_capped: 63, yahtzee_state: AnchorYahtzeeState::Fifty };
    assert_eq!(inside.index(), 1572863);
    let past = AnchorKey { filled_mask: 8192, upper_subtotal_capped: 0, yahtzee_state: AnchorYahtzeeState::Open };
    assert_eq!(past.index(), 1572864);
    let widest = AnchorKey { filled_mask: u16::MAX, upper_subtotal_capped: u8::MAX, yahtzee_state: AnchorYahtzeeState::Zero };
    assert_eq!(widest.index(), (65535 * 64 + 255) * 3 + 1);
}

#[test]
fn the_best_valid_sheet_totals_1575() {
    let mut sheet = ScoreSheet::new();
    let best = [
        (Category::Ones, 5),
        (Category::Twos, 10),
        (Category::Threes, 15),
        (Category::Fours, 20),
        (Category::Fives, 25),
        (Category::Sixes, 30),
        (Category::ThreeKind, 30),
        (Category::FourKind, 30),
        (Category::FullHouse, 25),
        (Category::SmallStraight, 30),
        (Category::LargeStraight, 40),
        (Category::Yahtzee, 50),
        (Category::Chance, 30),
    ];
    for (c, v) in best {
        assert!(Rules::is_valid_recorded_score(c, v));
        sheet.fill_raw(c, v).unwrap();
    }
    sheet.set_yahtzee_bonus_count(12);
    assert_eq!(sheet.total_score(), 1575);
}

#[test]
fn reroll_distribution_weights_match_outcome_counts() {
    for dice_count in 0..=5 {
        let weight_sum: u32 = distribution_for_count(dice_count)
            .iter()
            .map(|(_, weight)| *weight)
            .sum();
        assert_eq!(weight_sum, 6u32.pow(dice_count as u32));
    }
}

#[test]
fn twos_accepts_every_even_score_up_to_12() {
    for score in [0u16, 2, 4, 6, 8, 10, 12] {
        assert!(Rules::is_valid_recorded_score(Category::Twos, score));
    }
    assert!(!Rules::is_valid_recorded_score(Category::Twos, 3));
    assert!(!Rules::is_valid_recorded_score(Category::Twos, 14));
    assert!(!Rules::is_valid_recorded_score(Category::FullHouse, 20));
    assert!(!Rules::is_valid_recorded_score(Category::Yahtzee, 49));
    let state = GameState::parse_compact("dice=none rolls=0 scores=twos:12").unwrap();
    assert_eq!(state.sheet().score(Category::Twos), Some(12));
    let mut sheet = ScoreSheet::new();
    assert!(sheet.fill_validated(Category::Twos, 12).is_ok());
    assert!(sheet.fill_validated(Category::Threes, 16).is_err());
}

#[test]
fn table_header_faults_name_what_was_expected() {
    let short = encode_anchor_table(Ruleset::HasbroStrict, &[0u8; 16]);
    assert_eq!(
        decode_anchor_table(&short),
        Err(KeiriError::InvalidAnchorTable(
            "anchor table value count mismatch; expected 1572864, found 2".to_string()
        ))
    );
    let mut reordered = short.clone();
    reordered[13 + 4] = 9;
    assert_eq!(
        decode_anchor_table(&reordered),
        Err(KeiriError::InvalidAnchorTable(
            "category order mismatch at 4; expected 4, found 9".to_string()
        ))
    );
    let mut miscounted = short.clone();
    miscounted[26..34].copy_from_slice(&(ANCHOR_VALUE_COUNT as u64).to_le_bytes());
    assert_eq!(
        decode_anchor_table(&miscounted),
        Err(KeiriError::InvalidAnchorTable(
            "anchor table length mismatch; expected 12582954, found 58".to_string()
        ))
    );
}

#[test]
fn a_natural_yahtzee_scores_50_and_is_no_full_house() {
    let five_threes = dice([3, 3, 3, 3, 3]);
    let empty = ScoreSheet::new();
    assert_eq!(Rules::score(Category::Yahtzee, five_threes, &empty).base_score, 50);
    assert_eq!(Rules::score(Category::FullHouse, five_threes, &empty).base_score, 0);
    assert_eq!(Rules::score(Category::Yahtzee, dice([3, 3, 3, 3, 4]), &empty).base_score, 0);
}

#[test]
fn an_evaluation_plays_one_game_per_seed_and_tallies_them() {
    let mut player = LastListedAction(Ruleset::HasbroStrict);
    let tally = evaluate_games(3, 11, Ruleset::HasbroStrict, &mut player).unwrap();
    let mut seeds = Rng64::new(11);
    let mut expected_scores = Vec::new();
    let mut upper = 0;
    let mut yahtzee = 0;
    for _ in 0..3 {
        let game_seed = seeds.next_u64();
        let mut rng = Rng64::new(game_seed);
        let report =
            simulate_game(game_seed, &mut rng, Ruleset::HasbroStrict, &mut LastListedAction(Ruleset::HasbroStrict), false)
                .unwrap();
        expected_scores.push(report.final_score);
        upper += usize::from(report.upper_bonus);
        yahtzee += usize::from(report.yahtzee_bonus_count > 0);
    }
    assert_eq!(tally.scores, expected_scores);
    assert_eq!(tally.upper_bonus_count, upper);
    assert_eq!(tally.yahtzee_bonus_games, yahtzee);

    assert!(evaluate_games(0, 11, Ruleset::HasbroStrict, &mut Passes).unwrap().scores.is_empty());
    assert!(matches!(
        evaluate_games(2, 11, Ruleset::HasbroStrict, &mut Passes),
        Err(KeiriError::TerminalState)
    ));
}
