//! Solitaire Yahtzee rules, state transitions, compact state text, the
//! exact-table key space and the BuddyBoardGames adapter, with contracts.
use vstd::prelude::*;

pub mod text;
pub mod category;
pub mod dice;
pub mod sheet;
pub mod rules;
pub mod state;
pub mod laws;
pub mod compact;
pub mod bbg;
pub mod anchor;
pub mod table_file;
pub mod simulation;
pub mod table_build;
pub mod cli;
pub mod candidates;
pub mod distribution;
pub mod dense;

pub use anchor::{AnchorKey, AnchorYahtzeeState};
pub use bbg::{
    bbg_category_to_client_row, bbg_client_row_to_category, BuddyBoardGamesMove, BuddyBoardGamesRow,
    BuddyBoardGamesSnapshot,
};
pub use candidates::{DecisionSource, OracleKey};
pub use category::{Category, Ruleset};
pub use dice::Dice;
pub use rules::{Rules, ScoreResult};
pub use sheet::ScoreSheet;
pub use simulation::{Rng64, SimulationReport};
pub use state::{Action, GameState};
pub use table_build::{AnchorBuildOptions, AnchorBuildProgress, AnchorBuildStrategy};

verus! {

/// Number of dice rolled in a turn.
pub const DICE_COUNT: usize = 5;

/// Points for each Yahtzee after a first one scored as 50.
pub const YAHTZEE_BONUS: u16 = 100;

/// Points for reaching the upper-section threshold.
pub const UPPER_BONUS: u16 = 35;

/// Upper-section subtotal that earns the upper bonus.
pub const UPPER_BONUS_THRESHOLD: u16 = 63;

/// Why an operation of the library was refused.
#[derive(Debug, Clone, PartialEq, Eq)]
pub enum KeiriError {
    InvalidDie(u8),
    InvalidDiceCount(usize),
    InvalidHoldMask(u8),
    InvalidRollCount(u8),
    MissingDice,
    DiceAlreadyRolled,
    NoRollsRemaining,
    CategoryAlreadyFilled(Category),
    CategoryNotLegal(Category),
    InvalidRecordedScore { category: Category, score: u16 },
    InvalidBuddyBoardGamesSnapshot(String),
    InvalidTableSlice(String),
    InvalidAnchorTable(String),
    MissingAnchorValue(String),
    TerminalState,
    ParseError(String),
}

/// The failure of a text reader, as the error it reports: `Syntax` for a
/// `ParseError` with its message, `Snapshot` for an
/// `InvalidBuddyBoardGamesSnapshot` with its message, the others for the
/// variant of the same name.
pub enum ParseFault {
    Syntax(Seq<char>),
    Die(u8),
    DiceCount(usize),
    RollCount(u8),
    AlreadyFilled(Category),
    BadRecord(Category, u16),
    Snapshot(Seq<char>),
}

/// Whether error `e` is the error that fault `f` describes.
pub open spec fn fault_matches(e: KeiriError, f: ParseFault) -> bool {
    match f {
        ParseFault::Syntax(m) => e is ParseError && e->ParseError_0@ == m,
        ParseFault::Die(v) => e == KeiriError::InvalidDie(v),
        ParseFault::DiceCount(n) => e == KeiriError::InvalidDiceCount(n),
        ParseFault::RollCount(n) => e == KeiriError::InvalidRollCount(n),
        ParseFault::AlreadyFilled(c) => e == KeiriError::CategoryAlreadyFilled(c),
        ParseFault::BadRecord(c, v) => e == KeiriError::InvalidRecordedScore { category: c, score: v },
        ParseFault::Snapshot(m) => e is InvalidBuddyBoardGamesSnapshot && e->InvalidBuddyBoardGamesSnapshot_0@ == m,
    }
}

/// The message `prefix`, the bytes `detail` as text, `suffix`.
pub open spec fn quoted(prefix: Seq<char>, detail: Seq<u8>, suffix: Seq<char>) -> Seq<char> {
    prefix + crate::text::lossy_text(detail) + suffix
}

/// The text under which an error is reported.
pub open spec fn error_text(e: KeiriError) -> Seq<char> {
    match e {
        KeiriError::InvalidDie(v) => "invalid die value "@ + text::decimal_chars(v as nat) + "; expected 1..=6"@,
        KeiriError::InvalidDiceCount(n) => "invalid dice count "@ + text::decimal_chars(n as nat) + "; expected 5"@,
        KeiriError::InvalidHoldMask(m) => "invalid hold mask "@ + text::decimal_chars(m as nat)
            + "; expected a five-bit mask"@,
        KeiriError::InvalidRollCount(n) => "invalid roll count "@ + text::decimal_chars(n as nat) + "; expected 0..=3"@,
        KeiriError::MissingDice => "the state has no dice to score"@,
        KeiriError::DiceAlreadyRolled => "starting a turn cannot hold existing dice"@,
        KeiriError::NoRollsRemaining => "no rolls remain in this turn"@,
        KeiriError::CategoryAlreadyFilled(c) => c.name_spec() + " is already filled"@,
        KeiriError::CategoryNotLegal(c) => c.name_spec() + " is not legal in this state"@,
        KeiriError::InvalidRecordedScore { category, score } => text::decimal_chars(score as nat)
            + " is not a valid recorded score for "@ + category.name_spec(),
        KeiriError::InvalidBuddyBoardGamesSnapshot(m) => m@,
        KeiriError::InvalidTableSlice(m) => m@,
        KeiriError::InvalidAnchorTable(m) => m@,
        KeiriError::MissingAnchorValue(m) => m@,
        KeiriError::TerminalState => "the game is already terminal"@,
        KeiriError::ParseError(m) => m@,
    }
}

impl KeiriError {
    /// The text under which the error is reported.
    pub fn to_text(&self) -> (r: String)
        ensures
            r@ == error_text(*self),
    {
        let mut out = String::new();
        match self {
            KeiriError::InvalidDie(v) => {
                text::push_str(&mut out, "invalid die value ");
                text::push_decimal(&mut out, *v as u64);
                text::push_str(&mut out, "; expected 1..=6");
            },
            KeiriError::InvalidDiceCount(n) => {
                text::push_str(&mut out, "invalid dice count ");
                text::push_decimal(&mut out, *n as u64);
                text::push_str(&mut out, "; expected 5");
            },
            KeiriError::InvalidHoldMask(m) => {
                text::push_str(&mut out, "invalid hold mask ");
                text::push_decimal(&mut out, *m as u64);
                text::push_str(&mut out, "; expected a five-bit mask");
            },
            KeiriError::InvalidRollCount(n) => {
                text::push_str(&mut out, "invalid roll count ");
                text::push_decimal(&mut out, *n as u64);
                text::push_str(&mut out, "; expected 0..=3");
            },
            KeiriError::MissingDice => text::push_str(&mut out, "the state has no dice to score"),
            KeiriError::DiceAlreadyRolled => text::push_str(&mut out, "starting a turn cannot hold existing dice"),
            KeiriError::NoRollsRemaining => text::push_str(&mut out, "no rolls remain in this turn"),
            KeiriError::CategoryAlreadyFilled(c) => {
                text::push_str(&mut out, c.name());
                text::push_str(&mut out, " is already filled");
            },
            KeiriError::CategoryNotLegal(c) => {
                text::push_str(&mut out, c.name());
                text::push_str(&mut out, " is not legal in this state");
            },
            KeiriError::InvalidRecordedScore { category, score } => {
                text::push_decimal(&mut out, *score as u64);
                text::push_str(&mut out, " is not a valid recorded score for ");
                text::push_str(&mut out, category.name());
            },
            KeiriError::InvalidBuddyBoardGamesSnapshot(m) => text::push_str(&mut out, m.as_str()),
            KeiriError::InvalidTableSlice(m) => text::push_str(&mut out, m.as_str()),
            KeiriError::InvalidAnchorTable(m) => text::push_str(&mut out, m.as_str()),
            KeiriError::MissingAnchorValue(m) => text::push_str(&mut out, m.as_str()),
            KeiriError::TerminalState => text::push_str(&mut out, "the game is already terminal"),
            KeiriError::ParseError(m) => text::push_str(&mut out, m.as_str()),
        }
        out
    }
}

} // verus!
