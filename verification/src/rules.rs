//! Scoring, Joker rules, legal actions and the two state transitions.
use crate::category::{category_at, Category, Ruleset};
use crate::dice::{face_count, kept_spec, seq_sum, sorted_faces, all_faces, first_non_face, Dice};
use crate::sheet::ScoreSheet;
use crate::state::{Action, GameState};
use crate::{KeiriError, UPPER_BONUS, UPPER_BONUS_THRESHOLD, YAHTZEE_BONUS};
use vstd::prelude::*;

verus! {

/// The highest score a category can record.
pub open spec fn max_base(c: Category) -> int {
    match c {
        Category::Ones => 5,
        Category::Twos => 10,
        Category::Threes => 15,
        Category::Fours => 20,
        Category::Fives => 25,
        Category::Sixes => 30,
        Category::ThreeKind | Category::FourKind | Category::Chance => 30,
        Category::FullHouse => 25,
        Category::SmallStraight => 30,
        Category::LargeStraight => 40,
        Category::Yahtzee => 50,
    }
}

/// Whether a category can hold `score`: upper categories hold multiples of
/// their face up to five of them (twos up to 12), three and four of a kind
/// and chance hold any sum of five dice, the fixed-score categories hold
/// their score or 0.
pub open spec fn valid_recorded(c: Category, score: int) -> bool {
    match c {
        Category::Twos => 0 <= score <= 12 && score % 2 == 0,
        Category::FullHouse => score == 0 || score == 25,
        Category::SmallStraight => score == 0 || score == 30,
        Category::LargeStraight => score == 0 || score == 40,
        Category::Yahtzee => score == 0 || score == 50,
        _ => 0 <= score <= max_base(c) && score % (if c.upper() {
            c.face()
        } else {
            1
        }) == 0,
    }
}

/// How many dice show `f`.
pub open spec fn cnt(d: Seq<u8>, f: u8) -> nat {
    face_count(d, f)
}

pub open spec fn has_kind(d: Seq<u8>, k: nat) -> bool {
    cnt(d, 1) >= k || cnt(d, 2) >= k || cnt(d, 3) >= k || cnt(d, 4) >= k || cnt(d, 5) >= k
        || cnt(d, 6) >= k
}

pub open spec fn some_count_is(d: Seq<u8>, k: nat) -> bool {
    cnt(d, 1) == k || cnt(d, 2) == k || cnt(d, 3) == k || cnt(d, 4) == k || cnt(d, 5) == k
        || cnt(d, 6) == k
}

pub open spec fn shows(d: Seq<u8>, f: u8) -> bool {
    cnt(d, f) > 0
}

pub open spec fn small_straight(d: Seq<u8>) -> bool {
    (shows(d, 1) && shows(d, 2) && shows(d, 3) && shows(d, 4)) || (shows(d, 2) && shows(d, 3)
        && shows(d, 4) && shows(d, 5)) || (shows(d, 3) && shows(d, 4) && shows(d, 5) && shows(
        d,
        6,
    ))
}

pub open spec fn large_straight(d: Seq<u8>) -> bool {
    (cnt(d, 1) == 1 && cnt(d, 2) == 1 && cnt(d, 3) == 1 && cnt(d, 4) == 1 && cnt(d, 5) == 1) || (
    cnt(d, 2) == 1 && cnt(d, 3) == 1 && cnt(d, 4) == 1 && cnt(d, 5) == 1 && cnt(d, 6) == 1)
}

/// All five dice show one face (the dice are sorted).
pub open spec fn yahtzee(d: Seq<u8>) -> bool {
    d[0] == d[4]
}

/// The score of dice `d` in category `c`; under Joker rules full house and
/// the straights score their fixed values.
pub open spec fn base_spec(c: Category, d: Seq<u8>, joker: bool) -> nat {
    if joker && c == Category::FullHouse {
        25
    } else if joker && c == Category::SmallStraight {
        30
    } else if joker && c == Category::LargeStraight {
        40
    } else {
        match c {
            Category::ThreeKind => if has_kind(d, 3) {
                seq_sum(d)
            } else {
                0
            },
            Category::FourKind => if has_kind(d, 4) {
                seq_sum(d)
            } else {
                0
            },
            Category::FullHouse => if some_count_is(d, 3) && some_count_is(d, 2) {
                25
            } else {
                0
            },
            Category::SmallStraight => if small_straight(d) {
                30
            } else {
                0
            },
            Category::LargeStraight => if large_straight(d) {
                40
            } else {
                0
            },
            Category::Yahtzee => if yahtzee(d) {
                50
            } else {
                0
            },
            Category::Chance => seq_sum(d),
            _ => cnt(d, c.face() as u8) * (c.face() as nat),
        }
    }
}

/// The upper category matching the face of the first die.
pub open spec fn matching_upper(d: Seq<u8>) -> Category {
    category_at(d[0] - 1)
}

/// Whether the Joker scores apply to dice `d` on `sheet`.
pub open spec fn joker_spec(ruleset: Ruleset, d: Seq<u8>, sheet: ScoreSheet) -> bool {
    yahtzee(d) && match ruleset {
        Ruleset::HasbroStrict => sheet.fifty() && sheet.filled(matching_upper(d)),
        Ruleset::BuddyBoardGames => sheet.filled(Category::Yahtzee) && sheet.filled(
            matching_upper(d),
        ),
    }
}

/// Whether the Hasbro Joker order restricts which categories may be scored.
pub open spec fn forced_joker(ruleset: Ruleset, d: Seq<u8>, sheet: ScoreSheet) -> bool {
    ruleset == Ruleset::HasbroStrict && yahtzee(d) && sheet.fifty()
}

/// Whether scoring dice `d` earns a Yahtzee bonus.
pub open spec fn earns_bonus(d: Seq<u8>, sheet: ScoreSheet) -> bool {
    yahtzee(d) && sheet.fifty()
}

/// The categories that may be scored with dice `d`.
pub open spec fn legal_spec(ruleset: Ruleset, d: Seq<u8>, sheet: ScoreSheet) -> Seq<Category> {
    if !forced_joker(ruleset, d, sheet) {
        sheet.open_categories()
    } else if !sheet.filled(matching_upper(d)) {
        seq![matching_upper(d)]
    } else if sheet.open_between(6, 13).len() > 0 {
        sheet.open_between(6, 13)
    } else {
        sheet.open_between(0, 6)
    }
}

/// Whether scoring `category` in `state` is accepted and earns a Yahtzee
/// bonus, which adds one to the sheet's bonus count.
pub open spec fn score_earns_bonus(ruleset: Ruleset, state: GameState, category: Category) -> bool {
    &&& !state.terminal()
    &&& state.dice_of() matches Some(d)
    &&& !state.sheet_of().filled(category)
    &&& legal_spec(ruleset, d@, state.sheet_of()).contains(category)
    &&& earns_bonus(d@, state.sheet_of())
}

/// The upper bonus earned by scoring `base` in `c`.
pub open spec fn upper_bonus_spec(c: Category, base: nat, sheet: ScoreSheet) -> nat {
    if c.upper() && sheet.upper_sum() < 63 && sheet.upper_sum() + base >= 63 {
        35
    } else {
        0
    }
}

/// The result of scoring dice `d` in `c`.
pub open spec fn score_spec(ruleset: Ruleset, c: Category, d: Seq<u8>, sheet: ScoreSheet) -> ScoreResult {
    let base = base_spec(c, d, joker_spec(ruleset, d, sheet));
    let bonus: nat = if earns_bonus(d, sheet) {
        100
    } else {
        0
    };
    let upper = upper_bonus_spec(c, base, sheet);
    ScoreResult {
        category: c,
        base_score: base as u16,
        yahtzee_bonus: bonus as u16,
        upper_bonus: upper as u16,
        total_delta: (base + bonus + upper) as u16,
    }
}

/// The points that scoring a category adds, split by source.
#[derive(Debug, Clone, Copy, PartialEq, Eq, Structural)]
pub struct ScoreResult {
    pub category: Category,
    pub base_score: u16,
    pub yahtzee_bonus: u16,
    pub upper_bonus: u16,
    pub total_delta: u16,
}

/// The rules of solitaire Yahtzee.
pub struct Rules;

impl Rules {
    /// The highest score a category can record.
    pub fn max_base_score(category: Category) -> (r: u16)
        ensures
            r == max_base(category),
    {
        match category {
            Category::Ones => 5,
            Category::Twos => 10,
            Category::Threes => 15,
            Category::Fours => 20,
            Category::Fives => 25,
            Category::Sixes => 30,
            Category::ThreeKind | Category::FourKind | Category::Chance => 30,
            Category::FullHouse => 25,
            Category::SmallStraight => 30,
            Category::LargeStraight => 40,
            Category::Yahtzee => 50,
        }
    }

    /// Whether `score` is a score that `category` can hold.
    pub fn is_valid_recorded_score(category: Category, score: u16) -> (r: bool)
        ensures
            r == valid_recorded(category, score as int),
    {
        match category {
            Category::Ones => score <= Self::max_base_score(category),
            Category::Twos => score <= 12 && score % 2 == 0,
            Category::Threes => score <= Self::max_base_score(category) && score % 3 == 0,
            Category::Fours => score <= Self::max_base_score(category) && score % 4 == 0,
            Category::Fives => score <= Self::max_base_score(category) && score % 5 == 0,
            Category::Sixes => score <= Self::max_base_score(category) && score % 6 == 0,
            Category::ThreeKind | Category::FourKind | Category::Chance => {
                score <= Self::max_base_score(category)
            },
            Category::FullHouse => score == 0 || score == 25,
            Category::SmallStraight => score == 0 || score == 30,
            Category::LargeStraight => score == 0 || score == 40,
            Category::Yahtzee => score == 0 || score == 50,
        }
    }

    /// Scores `dice` in `category` under Hasbro rules.
    pub fn score(category: Category, dice: Dice, sheet: &ScoreSheet) -> (r: ScoreResult)
        requires
            sheet.upper_sum() <= u16::MAX,
        ensures
            r == score_spec(Ruleset::HasbroStrict, category, dice@, *sheet),
    {
        Self::score_with_ruleset(Ruleset::HasbroStrict, category, dice, sheet)
    }

    /// Scores `dice` in `category`: the category's score (with Joker scores
    /// where they apply), a Yahtzee bonus for an extra Yahtzee after a 50,
    /// and the upper bonus when this score crosses the threshold.
    pub fn score_with_ruleset(
        ruleset: Ruleset,
        category: Category,
        dice: Dice,
        sheet: &ScoreSheet,
    ) -> (r: ScoreResult)
        requires
            sheet.upper_sum() <= u16::MAX,
        ensures
            r == score_spec(ruleset, category, dice@, *sheet),
            r.base_score <= max_base(category),
    {
        let yahtzee_bonus = if Self::earns_yahtzee_bonus(dice, sheet) {
            YAHTZEE_BONUS
        } else {
            0
        };
        let joker = Self::joker_active_with_ruleset(ruleset, dice, sheet);
        let base_score = Self::base_score(category, dice, joker);
        let upper_before = sheet.upper_subtotal();
        let upper_bonus = if category.is_upper() && upper_before < UPPER_BONUS_THRESHOLD
            && upper_before + base_score >= UPPER_BONUS_THRESHOLD {
            UPPER_BONUS
        } else {
            0
        };
        ScoreResult {
            category,
            base_score,
            yahtzee_bonus,
            upper_bonus,
            total_delta: base_score + yahtzee_bonus + upper_bonus,
        }
    }

    /// Whether Hasbro Joker scores apply.
    pub fn joker_active(dice: Dice, sheet: &ScoreSheet) -> (r: bool)
        ensures
            r == joker_spec(Ruleset::HasbroStrict, dice@, *sheet),
    {
        Self::joker_active_with_ruleset(Ruleset::HasbroStrict, dice, sheet)
    }

    /// Whether Joker scores apply: a Yahtzee whose upper category is filled,
    /// after a 50 in the Yahtzee box (Hasbro) or after any Yahtzee box entry
    /// (BuddyBoardGames).
    pub fn joker_active_with_ruleset(ruleset: Ruleset, dice: Dice, sheet: &ScoreSheet) -> (r:
        bool)
        ensures
            r == joker_spec(ruleset, dice@, *sheet),
    {
        proof {
            use_type_invariant(dice);
        }
        if !dice.is_yahtzee() {
            return false;
        }
        let face = match dice.yahtzee_face() {
            Some(f) => f,
            None => return false,
        };
        let matching = match Category::upper_for_face(face) {
            Some(c) => c,
            None => return false,
        };
        match ruleset {
            Ruleset::HasbroStrict => sheet.yahtzee_scored_50() && sheet.is_filled(matching),
            Ruleset::BuddyBoardGames => sheet.is_filled(Category::Yahtzee) && sheet.is_filled(
                matching,
            ),
        }
    }

    fn forced_joker_active_with_ruleset(ruleset: Ruleset, dice: Dice, sheet: &ScoreSheet) -> (r:
        bool)
        ensures
            r == forced_joker(ruleset, dice@, *sheet),
    {
        match ruleset {
            Ruleset::HasbroStrict => dice.is_yahtzee() && sheet.yahtzee_scored_50(),
            Ruleset::BuddyBoardGames => false,
        }
    }

    fn earns_yahtzee_bonus(dice: Dice, sheet: &ScoreSheet) -> (r: bool)
        ensures
            r == earns_bonus(dice@, *sheet),
    {
        dice.is_yahtzee() && sheet.yahtzee_scored_50()
    }

    fn base_score(category: Category, dice: Dice, joker_active: bool) -> (r: u16)
        ensures
            r == base_spec(category, dice@, joker_active),
            r <= max_base(category),
    {
        proof {
            use_type_invariant(dice);
            crate::dice::lemma_face_count_le_len(dice@, category.face() as u8);
        }
        if joker_active {
            match category {
                Category::FullHouse => return 25,
                Category::SmallStraight => return 30,
                Category::LargeStraight => return 40,
                _ => {},
            }
        }
        let counts = dice.counts();
        match category {
            Category::Ones | Category::Twos | Category::Threes | Category::Fours | Category::Fives
            | Category::Sixes => {
                let face: u8 = (category.index() + 1) as u8;
                let n = counts[face as usize] as u16;
                assert(n <= 5);
                assert(n * face <= 5 * face) by (nonlinear_arith)
                    requires
                        n <= 5,
                ;
                n * face as u16
            },
            Category::ThreeKind => {
                if counts[1] >= 3 || counts[2] >= 3 || counts[3] >= 3 || counts[4] >= 3 || counts[5]
                    >= 3 || counts[6] >= 3 {
                    dice.sum()
                } else {
                    0
                }
            },
            Category::FourKind => {
                if counts[1] >= 4 || counts[2] >= 4 || counts[3] >= 4 || counts[4] >= 4 || counts[5]
                    >= 4 || counts[6] >= 4 {
                    dice.sum()
                } else {
                    0
                }
            },
            Category::FullHouse => {
                let three = counts[1] == 3 || counts[2] == 3 || counts[3] == 3 || counts[4] == 3
                    || counts[5] == 3 || counts[6] == 3;
                let two = counts[1] == 2 || counts[2] == 2 || counts[3] == 2 || counts[4] == 2
                    || counts[5] == 2 || counts[6] == 2;
                if three && two {
                    25
                } else {
                    0
                }
            },
            Category::SmallStraight => {
                let h1 = counts[1] > 0;
                let h2 = counts[2] > 0;
                let h3 = counts[3] > 0;
                let h4 = counts[4] > 0;
                let h5 = counts[5] > 0;
                let h6 = counts[6] > 0;
                if (h1 && h2 && h3 && h4) || (h2 && h3 && h4 && h5) || (h3 && h4 && h5 && h6) {
                    30
                } else {
                    0
                }
            },
            Category::LargeStraight => {
                if (counts[1] == 1 && counts[2] == 1 && counts[3] == 1 && counts[4] == 1
                    && counts[5] == 1) || (counts[2] == 1 && counts[3] == 1 && counts[4] == 1
                    && counts[5] == 1 && counts[6] == 1) {
                    40
                } else {
                    0
                }
            },
            Category::Yahtzee => {
                if dice.is_yahtzee() {
                    50
                } else {
                    0
                }
            },
            Category::Chance => dice.sum(),
        }
    }
}


/// Every roll action: one per five-bit hold mask.
pub open spec fn all_rolls() -> Seq<Action> {
    Seq::new(32, |i: int| Action::Roll { hold_mask: i as u8 })
}

/// The legal actions in `state`.
pub open spec fn actions_spec(ruleset: Ruleset, state: GameState) -> Seq<Action> {
    if state.terminal() {
        Seq::empty()
    } else {
        match state.dice_of() {
            None => seq![Action::Roll { hold_mask: 0 }],
            Some(d) => (if state.rolls() < 3 {
                all_rolls()
            } else {
                Seq::empty()
            }) + legal_spec(ruleset, d@, state.sheet_of()).map_values(
                |c: Category| Action::Score { category: c },
            ),
        }
    }
}

/// The sheet after scoring `c` with the given result.
pub open spec fn scored_sheet(before: ScoreSheet, after: ScoreSheet, c: Category, result: ScoreResult) -> bool {
    &&& after.score_of(c) == Some(result.base_score)
    &&& forall|o: Category| o != c ==> #[trigger] after.score_of(o) == before.score_of(o)
    &&& after.bonus_count() == before.bonus_count() + if result.yahtzee_bonus > 0 {
        1int
    } else {
        0int
    }
}

/// The dice values after a roll: the held dice followed by the new faces.
pub open spec fn roll_faces(state: GameState, hold_mask: u8, rolled: Seq<u8>) -> Seq<u8> {
    match state.dice_of() {
        None => rolled,
        Some(d) => kept_spec(d@, hold_mask, 5) + rolled,
    }
}

impl Rules {
    /// The categories that may be scored under Hasbro rules.
    pub fn legal_score_categories(sheet: &ScoreSheet, dice: Dice) -> (r: Vec<Category>)
        ensures
            r@ == legal_spec(Ruleset::HasbroStrict, dice@, *sheet),
    {
        Self::legal_score_categories_with_ruleset(Ruleset::HasbroStrict, sheet, dice)
    }

    /// The categories that may be scored: every open category, except that
    /// under Hasbro rules an extra Yahtzee after a 50 must go in its upper
    /// category if open, else in an open lower category, else in an open
    /// upper category.
    pub fn legal_score_categories_with_ruleset(
        ruleset: Ruleset,
        sheet: &ScoreSheet,
        dice: Dice,
    ) -> (r: Vec<Category>)
        ensures
            r@ == legal_spec(ruleset, dice@, *sheet),
    {
        proof {
            use_type_invariant(dice);
        }
        if ruleset == Ruleset::BuddyBoardGames {
            return sheet.remaining_categories();
        }
        if !Self::forced_joker_active_with_ruleset(ruleset, dice, sheet) {
            return sheet.remaining_categories();
        }
        let face = dice.values()[0];
        let matching = Category::at((face - 1) as usize);
        if !sheet.is_filled(matching) {
            return vec![matching];
        }
        let lower = open_between(sheet, 6, 13);
        if lower.len() > 0 {
            return lower;
        }
        open_between(sheet, 0, 6)
    }

    /// The legal actions under Hasbro rules.
    pub fn legal_actions(state: &GameState) -> (r: Vec<Action>)
        ensures
            r@ == actions_spec(Ruleset::HasbroStrict, *state),
    {
        Self::legal_actions_with_ruleset(Ruleset::HasbroStrict, state)
    }

    /// The legal actions: none once the game is over; the opening roll at the
    /// start of a turn; otherwise every hold mask while rolls remain,
    /// followed by every legal category.
    pub fn legal_actions_with_ruleset(ruleset: Ruleset, state: &GameState) -> (r: Vec<Action>)
        ensures
            r@ == actions_spec(ruleset, *state),
    {
        if state.is_terminal() {
            return Vec::new();
        }
        let mut actions: Vec<Action> = Vec::new();
        match state.dice() {
            None => {
                actions.push(Action::Roll { hold_mask: 0 });
            },
            Some(dice) => {
                if state.rolls_used() < 3 {
                    let mut m: u8 = 0;
                    while m < 32
                        invariant
                            m <= 32,
                            actions@ == all_rolls().take(m as int),
                        decreases 32 - m,
                    {
                        actions.push(Action::Roll { hold_mask: m });
                        m += 1;
                        assert(actions@ =~= all_rolls().take(m as int));
                    }
                    assert(all_rolls().take(32) =~= all_rolls());
                }
                let ghost prefix = actions@;
                let cats = Self::legal_score_categories_with_ruleset(ruleset, state.sheet(), dice);
                let ghost mapped = cats@.map_values(|c: Category| Action::Score { category: c });
                let mut i: usize = 0;
                while i < cats.len()
                    invariant
                        i <= cats@.len(),
                        mapped == cats@.map_values(|c: Category| Action::Score { category: c }),
                        actions@ == prefix + mapped.take(i as int),
                    decreases cats.len() - i,
                {
                    actions.push(Action::Score { category: cats[i] });
                    i += 1;
                    assert(actions@ =~= prefix + mapped.take(i as int));
                }
                assert(mapped.take(cats@.len() as int) =~= mapped);
            },
        }
        actions
    }

    /// Scores `category` under Hasbro rules.
    pub fn apply_score(state: &GameState, category: Category) -> (r: Result<GameState, KeiriError>)
        requires
            state.sheet_of().upper_sum() <= u16::MAX,
            score_earns_bonus(Ruleset::HasbroStrict, *state, category) ==> state.sheet_of().bonus_count()
                < u16::MAX,
        ensures
            Self::apply_score_post(Ruleset::HasbroStrict, *state, category, r),
    {
        Self::apply_score_with_ruleset(Ruleset::HasbroStrict, state, category)
    }

    /// What scoring `category` in `state` yields.
    pub open spec fn apply_score_post(
        ruleset: Ruleset,
        state: GameState,
        category: Category,
        r: Result<GameState, KeiriError>,
    ) -> bool {
        if state.terminal() {
            r == Err::<GameState, KeiriError>(KeiriError::TerminalState)
        } else {
            match state.dice_of() {
                None => r == Err::<GameState, KeiriError>(KeiriError::MissingDice),
                Some(d) => if state.sheet_of().filled(category) {
                    r == Err::<GameState, KeiriError>(KeiriError::CategoryAlreadyFilled(category))
                } else if !legal_spec(ruleset, d@, state.sheet_of()).contains(category) {
                    r == Err::<GameState, KeiriError>(KeiriError::CategoryNotLegal(category))
                } else {
                    &&& r is Ok
                    &&& r->Ok_0.dice_of() is None
                    &&& r->Ok_0.rolls() == 0
                    &&& scored_sheet(
                        state.sheet_of(),
                        r->Ok_0.sheet_of(),
                        category,
                        score_spec(ruleset, category, d@, state.sheet_of()),
                    )
                },
            }
        }
    }

    /// Scores `category` with the current dice and ends the turn.
    pub fn apply_score_with_ruleset(
        ruleset: Ruleset,
        state: &GameState,
        category: Category,
    ) -> (r: Result<GameState, KeiriError>)
        requires
            state.sheet_of().upper_sum() <= u16::MAX,
            score_earns_bonus(ruleset, *state, category) ==> state.sheet_of().bonus_count() < u16::MAX,
        ensures
            Self::apply_score_post(ruleset, *state, category, r),
    {
        if state.is_terminal() {
            return Err(KeiriError::TerminalState);
        }
        let dice = match state.dice() {
            Some(d) => d,
            None => return Err(KeiriError::MissingDice),
        };
        if state.sheet().is_filled(category) {
            return Err(KeiriError::CategoryAlreadyFilled(category));
        }
        let legal = Self::legal_score_categories_with_ruleset(ruleset, state.sheet(), dice);
        if !contains_category(&legal, category) {
            return Err(KeiriError::CategoryNotLegal(category));
        }
        let result = Self::score_with_ruleset(ruleset, category, dice, state.sheet());
        let mut sheet = state.sheet().clone();
        let filled = sheet.fill_raw(category, result.base_score);
        if filled.is_err() {
            return Err(KeiriError::CategoryAlreadyFilled(category));
        }
        if result.yahtzee_bonus > 0 {
            sheet.add_yahtzee_bonus();
        }
        GameState::from_parts(None, 0, sheet)
    }

    /// Rolls the dice not held: `rolled_faces` are the new faces, as many as
    /// dice are rerolled.
    /// What rolling with `hold_mask` and fresh faces `rolled` gives:
    /// the first failing turn check, a wrong number of faces or a value that
    /// is no face, or the held dice and the fresh faces, sorted, with one
    /// more roll used.
    pub open spec fn apply_roll_post(
        state: GameState,
        hold_mask: u8,
        rolled: Seq<u8>,
        r: Result<GameState, KeiriError>,
    ) -> bool {
        &&& state.terminal() ==> r == Err::<GameState, KeiriError>(KeiriError::TerminalState)
        &&& !state.terminal() && hold_mask >= 32 ==> r == Err::<GameState, KeiriError>(
            KeiriError::InvalidHoldMask(hold_mask),
        )
        &&& !state.terminal() && hold_mask < 32 && state.dice_of() is None && hold_mask != 0 ==> r
            == Err::<GameState, KeiriError>(KeiriError::DiceAlreadyRolled)
        &&& !state.terminal() && hold_mask < 32 && state.dice_of() is Some && state.rolls() >= 3 ==> r
            == Err::<GameState, KeiriError>(KeiriError::NoRollsRemaining)
        &&& Self::roll_allowed(state, hold_mask) ==> {
            let faces = roll_faces(state, hold_mask, rolled);
            if faces.len() != 5 {
                r == Err::<GameState, KeiriError>(KeiriError::InvalidDiceCount(rolled.len() as usize))
            } else if !all_faces(faces) {
                r == Err::<GameState, KeiriError>(KeiriError::InvalidDie(faces[first_non_face(faces)]))
            } else {
                &&& r is Ok
                &&& r->Ok_0.dice_of() is Some
                &&& r->Ok_0.dice_of()->0@ == sorted_faces(faces)
                &&& r->Ok_0.rolls() == state.rolls() + 1
                &&& r->Ok_0.sheet_of() == state.sheet_of()
            }
        }
    }

    /// Rolls the dice not held: `rolled_faces` are the new faces, as many as
    /// dice are rerolled.
    pub fn apply_roll(state: &GameState, hold_mask: u8, rolled_faces: &[u8]) -> (r: Result<
        GameState,
        KeiriError,
    >)
        ensures
            Self::apply_roll_post(*state, hold_mask, rolled_faces@, r),
    {
        if state.is_terminal() {
            return Err(KeiriError::TerminalState);
        }
        match validate_hold_mask(hold_mask) {
            Ok(()) => {},
            Err(e) => return Err(e),
        }
        let mut next_faces: Vec<u8> = match state.dice() {
            None => {
                if hold_mask != 0 {
                    return Err(KeiriError::DiceAlreadyRolled);
                }
                Vec::new()
            },
            Some(dice) => {
                if state.rolls_used() >= 3 {
                    return Err(KeiriError::NoRollsRemaining);
                }
                proof {
                    use_type_invariant(dice);
                    crate::dice::lemma_kept_len(dice@, hold_mask, 5);
                }
                match dice.kept_by_mask(hold_mask) {
                    Ok(kept) => kept,
                    Err(e) => return Err(e),
                }
            },
        };
        let expected = 5 - next_faces.len();
        if rolled_faces.len() != expected {
            return Err(KeiriError::InvalidDiceCount(rolled_faces.len()));
        }
        let ghost kept = next_faces@;
        let mut i: usize = 0;
        while i < rolled_faces.len()
            invariant
                i <= rolled_faces@.len(),
                next_faces@ == kept + rolled_faces@.take(i as int),
            decreases rolled_faces.len() - i,
        {
            next_faces.push(rolled_faces[i]);
            i += 1;
            assert(next_faces@ =~= kept + rolled_faces@.take(i as int));
        }
        assert(rolled_faces@.take(rolled_faces@.len() as int) =~= rolled_faces@);
        let dice = match Dice::from_slice(next_faces.as_slice()) {
            Ok(d) => d,
            Err(e) => return Err(e),
        };
        let rolls = state.rolls_used() + 1;
        GameState::from_parts(Some(dice), rolls, state.sheet().clone())
    }

    /// Whether a roll with `hold_mask` passes the turn checks.
    pub open spec fn roll_allowed(state: GameState, hold_mask: u8) -> bool {
        &&& !state.terminal()
        &&& hold_mask < 32
        &&& match state.dice_of() {
            None => hold_mask == 0,
            Some(_) => state.rolls() < 3,
        }
    }
}

/// Whether `cats` contains `c`.
fn contains_category(cats: &Vec<Category>, c: Category) -> (r: bool)
    ensures
        r == cats@.contains(c),
{
    let mut i: usize = 0;
    while i < cats.len()
        invariant
            i <= cats@.len(),
            forall|j: int| 0 <= j < i ==> cats@[j] != c,
        decreases cats.len() - i,
    {
        if cats[i] == c {
            return true;
        }
        i += 1;
    }
    false
}

/// The open categories at positions `lo..hi`.
fn open_between(sheet: &ScoreSheet, lo: usize, hi: usize) -> (r: Vec<Category>)
    requires
        lo <= hi <= 13,
    ensures
        r@ == sheet.open_between(lo as int, hi as int),
{
    let mut out: Vec<Category> = Vec::new();
    let mut i = lo;
    while i < hi
        invariant
            lo <= i <= hi <= 13,
            out@ == sheet.open_between(lo as int, i as int),
        decreases hi - i,
    {
        let c = Category::at(i);
        if !sheet.is_filled(c) {
            out.push(c);
        }
        i += 1;
    }
    out
}

/// Accepts a hold mask of at most five bits.
pub fn validate_hold_mask(mask: u8) -> (r: Result<(), KeiriError>)
    ensures
        mask < 32 ==> r is Ok,
        mask >= 32 ==> r == Err::<(), KeiriError>(KeiriError::InvalidHoldMask(mask)),
{
    if mask >= 32 {
        Err(KeiriError::InvalidHoldMask(mask))
    } else {
        Ok(())
    }
}

} // verus!
