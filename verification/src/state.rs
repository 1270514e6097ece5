//! A game in progress: the current dice, the rolls used this turn and the
//! score sheet; and the actions a player can take.
use crate::category::Category;
use crate::dice::Dice;
use crate::sheet::ScoreSheet;
use crate::KeiriError;
use vstd::prelude::*;

verus! {

/// A solitaire Yahtzee game between two actions.
#[derive(Debug, PartialEq, Eq, Hash)]
pub struct GameState {
    dice: Option<Dice>,
    rolls_used: u8,
    sheet: ScoreSheet,
}

impl GameState {
    pub closed spec fn dice_of(self) -> Option<Dice> {
        self.dice
    }

    pub closed spec fn rolls(self) -> u8 {
        self.rolls_used
    }

    pub closed spec fn sheet_of(self) -> ScoreSheet {
        self.sheet
    }

    /// At most three rolls per turn, and dice exactly when a roll was made.
    #[verifier::type_invariant]
    pub open spec fn inv(self) -> bool {
        &&& self.rolls() <= 3
        &&& (self.dice_of() is None <==> self.rolls() == 0)
    }

    /// Whether every category is filled.
    pub open spec fn terminal(self) -> bool {
        self.sheet_of().filled_total() == 13
    }

    /// Two states with the same dice, rolls and sheet are the same state.
    pub proof fn lemma_ext(a: GameState, b: GameState)
        requires
            a.dice_of() == b.dice_of(),
            a.rolls() == b.rolls(),
            a.sheet_of() == b.sheet_of(),
        ensures
            a == b,
    {
    }

    /// The start of a game: no dice, no rolls, an empty sheet.
    pub fn new() -> (r: Self)
        ensures
            r.dice_of() is None,
            r.rolls() == 0,
            forall|c: Category| #[trigger] r.sheet_of().score_of(c) is None,
            r.sheet_of().bonus_count() == 0,
    {
        GameState { dice: None, rolls_used: 0, sheet: ScoreSheet::new() }
    }

    /// A state from its parts, if they fit together: at most three rolls, and
    /// dice exactly when at least one roll was made.
    pub fn from_parts(dice: Option<Dice>, rolls_used: u8, sheet: ScoreSheet) -> (r: Result<
        Self,
        KeiriError,
    >)
        ensures
            (rolls_used <= 3 && (dice is None <==> rolls_used == 0)) ==> r is Ok
                && r->Ok_0.dice_of() == dice && r->Ok_0.rolls() == rolls_used
                && r->Ok_0.sheet_of() == sheet,
            !(rolls_used <= 3 && (dice is None <==> rolls_used == 0)) ==> r == Err::<
                GameState,
                KeiriError,
            >(KeiriError::InvalidRollCount(rolls_used)),
    {
        if rolls_used > 3 {
            return Err(KeiriError::InvalidRollCount(rolls_used));
        }
        if dice.is_none() && rolls_used != 0 {
            return Err(KeiriError::InvalidRollCount(rolls_used));
        }
        if dice.is_some() && rolls_used == 0 {
            return Err(KeiriError::InvalidRollCount(rolls_used));
        }
        Ok(GameState { dice, rolls_used, sheet })
    }

    pub fn dice(&self) -> (r: Option<Dice>)
        ensures
            r == self.dice_of(),
    {
        self.dice
    }

    pub fn rolls_used(&self) -> (r: u8)
        ensures
            r == self.rolls(),
            r <= 3,
            (r == 0 <==> self.dice_of() is None),
    {
        proof {
            use_type_invariant(self);
        }
        self.rolls_used
    }

    pub fn sheet(&self) -> (r: &ScoreSheet)
        ensures
            *r == self.sheet_of(),
    {
        &self.sheet
    }

    /// Whether the game is over.
    pub fn is_terminal(&self) -> (r: bool)
        ensures
            r == self.terminal(),
    {
        self.sheet.is_complete()
    }
}

impl Clone for GameState {
    fn clone(&self) -> (r: Self)
        ensures
            r == *self,
    {
        proof {
            use_type_invariant(self);
        }
        GameState { dice: self.dice, rolls_used: self.rolls_used, sheet: self.sheet.clone() }
    }
}

impl Default for GameState {
    fn default() -> (r: Self)
        ensures
            r.dice_of() is None,
            r.rolls() == 0,
            forall|c: Category| #[trigger] r.sheet_of().score_of(c) is None,
            r.sheet_of().bonus_count() == 0,
    {
        Self::new()
    }
}

/// What a player does next: roll the dice not held, or score a category.
#[derive(Debug, Clone, Copy, PartialEq, Eq, Hash, Structural)]
pub enum Action {
    /// Reroll the dice whose bit is clear in `hold_mask` (or roll all five at
    /// the start of a turn).
    Roll { hold_mask: u8 },
    /// Record the current dice in `category`.
    Score { category: Category },
}

} // verus!
