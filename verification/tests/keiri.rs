use keiri::candidates::uses_oracle_for;
use keiri::compact::push_mask_bits;
use keiri::table_build::validate_endgame_slice;
use keiri::{
    bbg_category_to_client_row, bbg_client_row_to_category, Action, BuddyBoardGamesSnapshot, Category, Dice,
    GameState, Rules, Ruleset, ScoreSheet,
};

fn dice(values: [u8; 5]) -> Dice {
    Dice::new(values).unwrap()
}

fn sheet_filled_except(open: Category) -> ScoreSheet {
    let mut sheet = ScoreSheet::new();
    for category in Category::ALL {
        if category != open {
            let score = if category == Category::Yahtzee { 50 } else { 0 };
            sheet.fill_raw(category, score).unwrap();
        }
    }
    sheet
}

#[test]
fn scoring_examples_cover_all_categories() {
    let sheet = ScoreSheet::new();
    assert_eq!(Rules::score(Category::Ones, dice([1, 1, 3, 4, 6]), &sheet).base_score, 2);
    assert_eq!(Rules::score(Category::Twos, dice([2, 2, 2, 4, 6]), &sheet).base_score, 6);
    assert_eq!(Rules::score(Category::Threes, dice([3, 3, 3, 4, 6]), &sheet).base_score, 9);
    assert_eq!(Rules::score(Category::Fours, dice([4, 4, 4, 4, 6]), &sheet).base_score, 16);
    assert_eq!(Rules::score(Category::Fives, dice([5, 5, 1, 2, 3]), &sheet).base_score, 10);
    assert_eq!(Rules::score(Category::Sixes, dice([6, 6, 6, 1, 2]), &sheet).base_score, 18);
    assert_eq!(Rules::score(Category::ThreeKind, dice([2, 2, 2, 4, 6]), &sheet).base_score, 16);
    assert_eq!(Rules::score(Category::FourKind, dice([4, 4, 4, 4, 6]), &sheet).base_score, 22);
    assert_eq!(Rules::score(Category::FullHouse, dice([2, 2, 3, 3, 3]), &sheet).base_score, 25);
    assert_eq!(Rules::score(Category::SmallStraight, dice([1, 2, 3, 4, 6]), &sheet).base_score, 30);
    assert_eq!(Rules::score(Category::LargeStraight, dice([2, 3, 4, 5, 6]), &sheet).base_score, 40);
    assert_eq!(Rules::score(Category::Yahtzee, dice([6, 6, 6, 6, 6]), &sheet).base_score, 50);
    assert_eq!(Rules::score(Category::Chance, dice([1, 2, 3, 4, 6]), &sheet).base_score, 16);
}

#[test]
fn upper_bonus_is_awarded_when_threshold_is_crossed() {
    let mut sheet = ScoreSheet::new();
    sheet.fill_raw(Category::Ones, 3).unwrap();
    sheet.fill_raw(Category::Twos, 6).unwrap();
    sheet.fill_raw(Category::Threes, 9).unwrap();
    sheet.fill_raw(Category::Fours, 12).unwrap();
    sheet.fill_raw(Category::Fives, 15).unwrap();

    let result = Rules::score(Category::Sixes, dice([6, 6, 6, 6, 6]), &sheet);
    assert_eq!(result.base_score, 30);
    assert_eq!(result.upper_bonus, 35);
    assert_eq!(result.total_delta, 65);
}

#[test]
fn joker_forces_matching_upper_category_when_open() {
    let mut sheet = ScoreSheet::new();
    sheet.fill_raw(Category::Yahtzee, 50).unwrap();
    let legal = Rules::legal_score_categories(&sheet, dice([6, 6, 6, 6, 6]));
    assert_eq!(legal, vec![Category::Sixes]);
}

#[test]
fn joker_allows_lower_categories_when_matching_upper_is_filled() {
    let mut sheet = ScoreSheet::new();
    sheet.fill_raw(Category::Yahtzee, 50).unwrap();
    sheet.fill_raw(Category::Sixes, 30).unwrap();

    let legal = Rules::legal_score_categories(&sheet, dice([6, 6, 6, 6, 6]));
    assert!(legal.contains(&Category::FullHouse));
    assert!(legal.contains(&Category::SmallStraight));
    assert!(!legal.contains(&Category::Ones));

    let result = Rules::score(Category::LargeStraight, dice([6, 6, 6, 6, 6]), &sheet);
    assert_eq!(result.base_score, 40);
    assert_eq!(result.yahtzee_bonus, 100);
}

#[test]
fn zeroed_yahtzee_does_not_enable_joker() {
    let mut sheet = ScoreSheet::new();
    sheet.fill_raw(Category::Yahtzee, 0).unwrap();

    let legal = Rules::legal_score_categories(&sheet, dice([6, 6, 6, 6, 6]));
    assert!(legal.contains(&Category::Sixes));
    assert!(legal.contains(&Category::Chance));
    assert_eq!(
        Rules::score(Category::FullHouse, dice([6, 6, 6, 6, 6]), &sheet).base_score,
        0
    );
}

#[test]
fn buddyboardgames_variant_allows_zeroed_yahtzee_wildcard() {
    let mut sheet = ScoreSheet::new();
    sheet.fill_raw(Category::Yahtzee, 0).unwrap();

    let legal = Rules::legal_score_categories_with_ruleset(
        Ruleset::BuddyBoardGames,
        &sheet,
        dice([6, 6, 6, 6, 6]),
    );
    assert_eq!(legal, sheet.remaining_categories());
    assert_eq!(
        Rules::score_with_ruleset(
            Ruleset::BuddyBoardGames,
            Category::FullHouse,
            dice([6, 6, 6, 6, 6]),
            &sheet,
        )
        .base_score,
        0
    );

    sheet.fill_raw(Category::Sixes, 0).unwrap();
    let result = Rules::score_with_ruleset(
        Ruleset::BuddyBoardGames,
        Category::FullHouse,
        dice([6, 6, 6, 6, 6]),
        &sheet,
    );
    assert_eq!(result.base_score, 25);
    assert_eq!(result.yahtzee_bonus, 0);
}

#[test]
fn joker_falls_back_to_upper_categories_when_lower_section_is_full() {
    let mut sheet = ScoreSheet::new();
    for category in Category::LOWER {
        let score = if category == Category::Yahtzee { 50 } else { 0 };
        sheet.fill_raw(category, score).unwrap();
    }
    sheet.fill_raw(Category::Sixes, 30).unwrap();

    let legal = Rules::legal_score_categories(&sheet, dice([6, 6, 6, 6, 6]));
    assert_eq!(
        legal,
        vec![
            Category::Ones,
            Category::Twos,
            Category::Threes,
            Category::Fours,
            Category::Fives
        ]
    );
}

#[test]
fn action_generation_respects_turn_phase() {
    let start = GameState::new();
    assert_eq!(
        Rules::legal_actions(&start),
        vec![Action::Roll { hold_mask: 0 }]
    );

    let rolled = GameState::from_parts(Some(dice([1, 2, 3, 4, 5])), 2, ScoreSheet::new()).unwrap();
    let actions = Rules::legal_actions(&rolled);
    assert_eq!(
        actions
            .iter()
            .filter(|action| matches!(action, Action::Roll { .. }))
            .count(),
        32
    );
    assert_eq!(
        actions
            .iter()
            .filter(|action| matches!(action, Action::Score { .. }))
            .count(),
        13
    );

    let final_roll =
        GameState::from_parts(Some(dice([1, 2, 3, 4, 5])), 3, ScoreSheet::new()).unwrap();
    assert!(
        Rules::legal_actions(&final_roll)
            .iter()
            .all(|action| matches!(action, Action::Score { .. }))
    );
}

#[test]
fn compact_state_parser_builds_reusable_game_state() {
    let state = GameState::parse_compact(
        "dice=6,5,4,3,2 rolls=2 scores=ones:3,twos:6,full-house:25 yahtzee_bonus=1",
    )
    .unwrap();

    assert_eq!(state.dice().unwrap().values(), [2, 3, 4, 5, 6]);
    assert_eq!(state.rolls_used(), 2);
    assert_eq!(state.sheet().score(Category::Ones), Some(3));
    assert_eq!(state.sheet().score(Category::Twos), Some(6));
    assert_eq!(state.sheet().score(Category::FullHouse), Some(25));
    assert_eq!(state.sheet().yahtzee_bonus_count(), 1);
}

#[test]
fn compact_state_parser_rejects_impossible_recorded_scores() {
    assert!(GameState::parse_compact("dice=1,2,3,4,5 rolls=1 scores=twos:3").is_err());
    assert!(GameState::parse_compact("dice=1,2,3,4,5 rolls=1 scores=full-house:20").is_err());
    assert!(GameState::parse_compact("dice=1,2,3,4,5 rolls=1 scores=yahtzee:49").is_err());
}

#[test]
fn canonical_dice_enumeration_has_all_sorted_outcomes() {
    let dice = Dice::all_canonical();
    assert_eq!(dice.len(), 252);
    assert_eq!(dice.first().unwrap().values(), [1, 1, 1, 1, 1]);
    assert_eq!(dice.last().unwrap().values(), [6, 6, 6, 6, 6]);
    assert!(
        dice.iter()
            .all(|dice| dice.values().windows(2).all(|pair| pair[0] <= pair[1]))
    );
}

#[test]
fn scoring_is_bounded_for_all_ordered_rolls() {
    let sheet = ScoreSheet::new();
    for a in 1..=6 {
        for b in 1..=6 {
            for c in 1..=6 {
                for d in 1..=6 {
                    for e in 1..=6 {
                        let dice = dice([a, b, c, d, e]);
                        for category in Category::ALL {
                            let score = Rules::score(category, dice, &sheet).base_score;
                            assert!(
                                score <= Rules::max_base_score(category),
                                "{:?} scored {} for {:?}",
                                category,
                                score,
                                dice
                            );
                        }
                    }
                }
            }
        }
    }
}

#[test]
fn score_transition_preserves_sheet_invariants() {
    let state = GameState::from_parts(Some(dice([1, 2, 3, 4, 5])), 3, ScoreSheet::new()).unwrap();
    let before_total = state.sheet().total_score();
    let before_filled = state.sheet().filled_count();

    let next = Rules::apply_score(&state, Category::LargeStraight).unwrap();

    assert_eq!(next.sheet().filled_count(), before_filled + 1);
    assert!(next.sheet().is_filled(Category::LargeStraight));
    assert!(next.sheet().total_score() >= before_total);
    assert_eq!(next.dice(), None);
    assert_eq!(next.rolls_used(), 0);
}

#[test]
fn transition_rejects_invalid_rolls_and_scores() {
    let state = GameState::from_parts(Some(dice([1, 2, 3, 4, 5])), 3, ScoreSheet::new()).unwrap();
    assert!(Rules::apply_roll(&state, 0, &[1, 2, 3, 4, 5]).is_err());

    let mut sheet = ScoreSheet::new();
    sheet.fill_raw(Category::Chance, 20).unwrap();
    let state = GameState::from_parts(Some(dice([1, 2, 3, 4, 5])), 1, sheet).unwrap();
    assert!(Rules::apply_score(&state, Category::Chance).is_err());
}

#[test]
fn dice_permutation_does_not_affect_scoring() {
    let sheet = ScoreSheet::new();
    let a = dice([2, 3, 2, 3, 3]);
    let b = dice([3, 2, 3, 2, 3]);

    for category in Category::ALL {
        assert_eq!(
            Rules::score(category, a, &sheet).base_score,
            Rules::score(category, b, &sheet).base_score
        );
    }
}

#[test]
fn sheet_helper_fills_all_but_one() {
    let sheet = sheet_filled_except(Category::Chance);
    assert_eq!(sheet.remaining_categories(), vec![Category::Chance]);
}

#[test]
fn buddyboardgames_row_mapping_round_trips_selectable_categories() {
    for category in Category::ALL {
        let row = bbg_category_to_client_row(category).unwrap();
        assert_eq!(bbg_client_row_to_category(row), Some(category));
    }
    assert_eq!(bbg_client_row_to_category(6), None);
    assert_eq!(bbg_client_row_to_category(14), None);
}

#[test]
fn buddyboardgames_snapshot_rejects_unsafe_or_malformed_states() {
    let rows = "rows=0:3:1,1:6:1";
    let base = format!(
        "state=STARTED me=0 turn=0 spectator=false pending=false dice=1,2,3,4,5 selected=0,0,0,0,0 rolls=2 {rows}"
    );
    assert!(BuddyBoardGamesSnapshot::parse_compact(&base).is_ok());

    assert!(BuddyBoardGamesSnapshot::parse_compact(&base.replace("turn=0", "turn=1")).is_err());
    assert!(
        BuddyBoardGamesSnapshot::parse_compact(&base.replace("spectator=false", "spectator=true"))
            .is_err()
    );
    assert!(
        BuddyBoardGamesSnapshot::parse_compact(&base.replace("pending=false", "pending=true"))
            .is_err()
    );
    assert!(BuddyBoardGamesSnapshot::parse_compact(
        "state=STARTED me=0 turn=0 spectator=false pending=false dice=1,2,3 selected=0,0,0,0,0 rolls=2 rows=0:3:1"
    )
    .is_err());
}

#[test]
fn buddyboardgames_snapshot_normalizes_yahtzee_bonus_row_total() {
    let snapshot = BuddyBoardGamesSnapshot::parse_compact(
        "state=STARTED me=0 turn=0 spectator=false pending=false dice=1,1,1,1,1 selected=0,0,0,0,0 rolls=0 rows=12:150:1,0:3:1",
    )
    .unwrap();

    let state = snapshot.to_game_state().unwrap();

    assert_eq!(state.sheet().score(Category::Yahtzee), Some(50));
    assert_eq!(state.sheet().yahtzee_bonus_count(), 1);
}

fn mask_text(mask: u8) -> String {
    let mut out = String::new();
    push_mask_bits(&mut out, mask);
    out
}

#[test]
fn buddyboardgames_advice_maps_actions_to_site_selectors() {
    let snapshot = BuddyBoardGamesSnapshot::parse_compact(
        "state=STARTED me=0 turn=0 spectator=false pending=false dice=1,2,3,4,5 selected=0,0,0,0,0 rolls=3 rows=0:3:1,1:6:1,2:9:1,3:12:1,4:15:1,5:18:1,7:20:1,8:0:1,9:25:1,10:30:1,11:40:1,12:0:1",
    )
    .unwrap();

    let planned = snapshot
        .plan_move(Action::Score {
            category: Category::Chance,
        })
        .unwrap();
    assert_eq!(
        planned.action,
        Action::Score {
            category: Category::Chance
        }
    );
    assert_eq!(planned.client_row, Some(13));
    assert_eq!(planned.selector, "#player-0-scoreboard-row-13");
}

#[test]
fn buddyboardgames_roll_advice_maps_canonical_hold_to_page_dice() {
    let snapshot = BuddyBoardGamesSnapshot::parse_compact(
        "state=STARTED me=0 turn=0 spectator=false pending=false dice=6,2,2,6,5 selected=0,0,0,0,0 rolls=1 rows=0:0:0",
    )
    .unwrap();

    let planned = snapshot.plan_move(Action::Roll { hold_mask: 0b00101 }).unwrap();

    assert_eq!(snapshot.dice.values(), [2, 2, 5, 6, 6]);
    assert_eq!(snapshot.page_dice, [6, 2, 2, 6, 5]);
    assert_eq!(planned.hold_mask, Some(0b00101));
    assert_eq!(planned.page_hold_mask, Some(0b10010));
    assert_eq!(planned.toggle_dice, vec![1, 4]);

    assert_eq!(mask_text(planned.hold_mask.unwrap()), "00101");
    assert_eq!(mask_text(planned.page_hold_mask.unwrap()), "10010");
}

#[test]
fn buddyboardgames_roll_advice_prefers_selected_matching_duplicates() {
    let snapshot = BuddyBoardGamesSnapshot::parse_compact(
        "state=STARTED me=0 turn=0 spectator=false pending=false dice=6,2,2,6,5 selected=0,0,1,0,1 rolls=1 rows=0:0:0",
    )
    .unwrap();

    let planned = snapshot.plan_move(Action::Roll { hold_mask: 0b00101 }).unwrap();

    assert_eq!(planned.hold_mask, Some(0b00101));
    assert_eq!(planned.page_hold_mask, Some(0b10100));
    assert!(planned.toggle_dice.is_empty());
}

#[test]
fn buddyboardgames_roll_advice_uses_earliest_unselected_duplicate() {
    let snapshot = BuddyBoardGamesSnapshot::parse_compact(
        "state=STARTED me=0 turn=0 spectator=false pending=false dice=6,2,2,6,5 selected=0,0,0,0,0 rolls=1 rows=0:0:0",
    )
    .unwrap();

    let planned = snapshot.plan_move(Action::Roll { hold_mask: 0b00001 }).unwrap();

    assert_eq!(planned.hold_mask, Some(0b00001));
    assert_eq!(planned.page_hold_mask, Some(0b00010));
    assert_eq!(planned.toggle_dice, vec![1]);
}

#[test]
fn endgame_table_builder_rejects_unbounded_slices() {
    assert!(validate_endgame_slice(&ScoreSheet::new(), &[3]).is_err());

    let sheet = sheet_filled_except(Category::Chance);
    assert!(validate_endgame_slice(&sheet, &[]).is_err());
    assert!(validate_endgame_slice(&sheet, &[0]).is_err());
}

#[test]
fn hybrid_agent_uses_oracle_at_configured_endgame_threshold() {
    let mut sheet = ScoreSheet::new();
    for category in Category::ALL {
        if category != Category::Chance {
            sheet.fill_raw(category, 0).unwrap();
        }
    }
    let state = GameState::from_parts(Some(dice([1, 2, 3, 4, 6])), 3, sheet).unwrap();

    assert!(uses_oracle_for(2, &state));
}
