//! The random source of simulated games and the faces it rolls.
use crate::dice::kept_spec;
use crate::category::{Category, Ruleset};
use crate::rules::{
    joker_spec, max_base, score_earns_bonus, score_spec, validate_hold_mask, Rules, ScoreResult,
};
use crate::sheet::ScoreSheet;
use crate::text::{decimal_chars, push_decimal, push_str};
use crate::state::{Action, GameState};
use crate::compact::{action_text, compact_text};
use crate::KeiriError;
use vstd::prelude::*;

verus! {

/// One xorshift step of the generator's state.
pub open spec fn xorshift(x: u64) -> u64 {
    let a = x ^ (x >> 12u64);
    let b = a ^ (a << 25u64);
    b ^ (b >> 27u64)
}

/// The state after `n` steps from `x`.
pub open spec fn xorshift_iter(x: u64, n: nat) -> u64
    decreases n,
{
    if n == 0 {
        x
    } else {
        xorshift(xorshift_iter(x, (n - 1) as nat))
    }
}

/// Stepping `a` times and then `b` times is stepping `a + b` times.
proof fn lemma_xorshift_iter_add(x: u64, a: nat, b: nat)
    ensures
        xorshift_iter(xorshift_iter(x, a), b) == xorshift_iter(x, a + b),
    decreases b,
{
    if b > 0 {
        lemma_xorshift_iter_add(x, a, (b - 1) as nat);
    }
}

/// The number the generator hands out when its state becomes `x`.
pub open spec fn scramble(x: u64) -> u64 {
    x.wrapping_mul(0x2545F4914F6CDD1Du64)
}

/// The die face the generator hands out when its state becomes `x`.
pub open spec fn die_from(x: u64) -> u8 {
    (scramble(x) % 6 + 1) as u8
}

/// A xorshift64* generator; its state is never zero.
#[derive(Debug, Clone, Copy, PartialEq, Eq, Structural)]
pub struct Rng64 {
    state: u64,
}

proof fn lemma_xorshift_nonzero(x: u64)
    requires
        x != 0,
    ensures
        xorshift(x) != 0,
{
    assert(x != 0 ==> {
        let a = x ^ (x >> 12u64);
        let b = a ^ (a << 25u64);
        b ^ (b >> 27u64) != 0
    }) by (bit_vector);
}

impl Rng64 {
    #[verifier::type_invariant]
    spec fn state_nonzero(self) -> bool {
        self.state != 0
    }

    /// The generator's state.
    pub closed spec fn state_of(self) -> u64 {
        self.state
    }

    /// A generator seeded with `seed`, or with 1 for a zero seed.
    pub fn new(seed: u64) -> (r: Self)
        ensures
            r.state_of() == if seed == 0 {
                1
            } else {
                seed
            },
            r.state_of() != 0,
    {
        Rng64 { state: if seed > 1 { seed } else { 1 } }
    }

    /// Advances the state one xorshift step and returns it scrambled.
    pub fn next_u64(&mut self) -> (r: u64)
        ensures
            final(self).state_of() == xorshift(old(self).state_of()),
            final(self).state_of() != 0,
            r == scramble(final(self).state_of()),
    {
        proof {
            use_type_invariant(&*self);
            lemma_xorshift_nonzero(self.state);
        }
        let mut x = self.state;
        x ^= x >> 12;
        x ^= x << 25;
        x ^= x >> 27;
        self.state = x;
        x.wrapping_mul(0x2545F4914F6CDD1D)
    }

    /// Advances the state one step and returns a die face from 1 to 6.
    pub fn next_die(&mut self) -> (r: u8)
        ensures
            final(self).state_of() == xorshift(old(self).state_of()),
            r == die_from(final(self).state_of()),
            1 <= r <= 6,
    {
        ((self.next_u64() % 6) as u8) + 1
    }
}

/// Number of dice that stay on the table when `state` rolls holding `mask`.
pub open spec fn kept_count(state: GameState, mask: u8) -> nat {
    match state.dice_of() {
        Some(d) => kept_spec(d@, mask, 5).len(),
        None => 0,
    }
}

/// Fresh faces for the dice that `hold_mask` rerolls in `state`: one die
/// from `rng` for each die not kept; an `InvalidHoldMask` error, with `rng`
/// untouched, for a mask of more than five bits.
pub fn roll_faces_for_action(rng: &mut Rng64, state: &GameState, hold_mask: u8) -> (r: Result<
    Vec<u8>,
    KeiriError,
>)
    ensures
        hold_mask >= 32 ==> r == Err::<Vec<u8>, KeiriError>(KeiriError::InvalidHoldMask(hold_mask))
            && *final(rng) == *old(rng),
        hold_mask < 32 ==> {
            let n = (5 - kept_count(*state, hold_mask)) as nat;
            &&& r is Ok
            &&& r->Ok_0@.len() == n
            &&& forall|i: int|
                0 <= i < n ==> #[trigger] r->Ok_0@[i] == die_from(xorshift_iter(old(rng).state_of(), (i + 1) as nat))
            &&& final(rng).state_of() == xorshift_iter(old(rng).state_of(), n)
        },
{
    match validate_hold_mask(hold_mask) {
        Ok(()) => {},
        Err(e) => return Err(e),
    }
    let kept: usize = match state.dice() {
        Some(dice) => {
            proof {
                use_type_invariant(dice);
                crate::dice::lemma_kept_len(dice@, hold_mask, 5);
            }
            match dice.kept_by_mask(hold_mask) {
                Ok(k) => k.len(),
                Err(e) => return Err(e),
            }
        },
        None => 0,
    };
    let count = 5 - kept;
    let ghost start = rng.state_of();
    let mut faces: Vec<u8> = Vec::new();
    let mut i: usize = 0;
    while i < count
        invariant
            i <= count,
            faces@.len() == i,
            rng.state_of() == xorshift_iter(start, i as nat),
            forall|j: int| 0 <= j < i ==> #[trigger] faces@[j] == die_from(xorshift_iter(start, (j + 1) as nat)),
        decreases count - i,
    {
        let face = rng.next_die();
        faces.push(face);
        i += 1;
    }
    Ok(faces)
}

/// The faces the generator hands out in its next `n` steps from state `x`.
pub open spec fn faces_from(x: u64, n: nat) -> Seq<u8> {
    Seq::new(n, |i: int| die_from(xorshift_iter(x, (i + 1) as nat)))
}

/// What playing one action did: the state after it, the faces rolled (for a
/// roll) and the points scored (for a score, which ends the turn).
#[derive(Debug)]
pub struct PlayOutcome {
    pub state: GameState,
    pub rolled: Vec<u8>,
    pub result: Option<ScoreResult>,
}

/// The state a play led to, or its error.
pub open spec fn outcome_state(r: Result<PlayOutcome, KeiriError>) -> Result<GameState, KeiriError> {
    match r {
        Ok(o) => Ok(o.state),
        Err(e) => Err(e),
    }
}

/// What playing `action` in `state` with the generator at `g` gives: the
/// generator's state `g2` afterwards and the next state or the error.  A
/// roll draws one face for each die it does not keep; a score draws none.
pub open spec fn play_post(
    ruleset: Ruleset,
    state: GameState,
    g: u64,
    action: Option<Action>,
    g2: u64,
    r: Result<GameState, KeiriError>,
) -> bool {
    match action {
        None => r == Err::<GameState, KeiriError>(KeiriError::TerminalState) && g2 == g,
        Some(Action::Roll { hold_mask }) => if hold_mask >= 32 {
            r == Err::<GameState, KeiriError>(KeiriError::InvalidHoldMask(hold_mask)) && g2 == g
        } else {
            let n = (5 - kept_count(state, hold_mask)) as nat;
            &&& g2 == xorshift_iter(g, n)
            &&& Rules::apply_roll_post(state, hold_mask, faces_from(g, n), r)
        },
        Some(Action::Score { category }) => {
            &&& g2 == g
            &&& match state.dice_of() {
                None => r == Err::<GameState, KeiriError>(KeiriError::MissingDice),
                Some(_) => Rules::apply_score_post(ruleset, state, category, r),
            }
        },
    }
}

/// Whether `s` is the state a game starts from: no dice, no roll used, an
/// empty sheet.
pub open spec fn fresh_state(s: GameState) -> bool {
    &&& s.dice_of() is None
    &&& s.rolls() == 0
    &&& forall|c: Category| #[trigger] s.sheet_of().score_of(c) is None
    &&& s.sheet_of().bonus_count() == 0
}

/// Whether `states` and `gens` are the states and generator states of a
/// game with `ruleset` that starts fresh with the generator at `start` and
/// plays `actions` one after another, each from a state that is not yet
/// terminal.
pub open spec fn played_game(
    ruleset: Ruleset,
    start: u64,
    states: Seq<GameState>,
    gens: Seq<u64>,
    actions: Seq<Option<Action>>,
) -> bool {
    &&& states.len() == actions.len() + 1
    &&& gens.len() == states.len()
    &&& fresh_state(states[0])
    &&& gens[0] == start
    &&& forall|i: int| 0 <= i < actions.len() ==> #[trigger] step_played(ruleset, states, gens, actions, i)
}

/// Whether the `i`-th action of a game was played from a state that was not
/// yet terminal and led to the next state and generator state.
pub open spec fn step_played(
    ruleset: Ruleset,
    states: Seq<GameState>,
    gens: Seq<u64>,
    actions: Seq<Option<Action>>,
    i: int,
) -> bool {
    &&& !states[i].terminal()
    &&& play_post(ruleset, states[i], gens[i], actions[i], gens[i + 1], Ok(states[i + 1]))
}

/// A game played so far, extended by one more accepted action.
proof fn lemma_played_push(
    ruleset: Ruleset,
    start: u64,
    states: Seq<GameState>,
    gens: Seq<u64>,
    actions: Seq<Option<Action>>,
    a: Option<Action>,
    g2: u64,
    next: GameState,
)
    requires
        played_game(ruleset, start, states, gens, actions),
        !states.last().terminal(),
        play_post(ruleset, states.last(), gens.last(), a, g2, Ok(next)),
    ensures
        played_game(ruleset, start, states.push(next), gens.push(g2), actions.push(a)),
{
    let s2 = states.push(next);
    let g3 = gens.push(g2);
    let a2 = actions.push(a);
    assert forall|i: int| 0 <= i < a2.len() implies #[trigger] step_played(ruleset, s2, g3, a2, i) by {
        if i < actions.len() {
            assert(step_played(ruleset, states, gens, actions, i));
            assert(s2[i] == states[i] && g3[i] == gens[i] && a2[i] == actions[i]);
            assert(s2[i + 1] == states[i + 1] && g3[i + 1] == gens[i + 1]);
        } else {
            assert(s2[i] == states.last() && g3[i] == gens.last() && a2[i] == a);
        }
    }
    assert(s2[0] == states[0]);
}

/// Plays the action an agent chose in a simulated game: a roll takes fresh
/// faces from `rng` for the dice not held; a score records the dice.  No
/// action at all is an error, as is scoring without dice.
pub fn play_action(ruleset: Ruleset, rng: &mut Rng64, state: &GameState, action: Option<Action>) -> (r: Result<
    PlayOutcome,
    KeiriError,
>)
    requires
        state.sheet_of().upper_sum() <= u16::MAX,
        action matches Some(Action::Score { category }) ==> (score_earns_bonus(ruleset, *state, category)
            ==> state.sheet_of().bonus_count() < u16::MAX),
    ensures
        play_post(ruleset, *state, old(rng).state_of(), action, final(rng).state_of(), outcome_state(r)),
        match action {
            None => r == Err::<PlayOutcome, KeiriError>(KeiriError::TerminalState) && *final(rng) == *old(rng),
            Some(Action::Roll { hold_mask }) => if hold_mask >= 32 {
                r == Err::<PlayOutcome, KeiriError>(KeiriError::InvalidHoldMask(hold_mask)) && *final(rng)
                    == *old(rng)
            } else {
                let n = (5 - kept_count(*state, hold_mask)) as nat;
                let faces = faces_from(old(rng).state_of(), n);
                &&& final(rng).state_of() == xorshift_iter(old(rng).state_of(), n)
                &&& Rules::apply_roll_post(*state, hold_mask, faces, outcome_state(r))
                &&& r is Ok ==> r->Ok_0.rolled@ == faces && r->Ok_0.result is None
            },
            Some(Action::Score { category }) => {
                &&& *final(rng) == *old(rng)
                &&& match state.dice_of() {
                    None => r == Err::<PlayOutcome, KeiriError>(KeiriError::MissingDice),
                    Some(d) => {
                        &&& Rules::apply_score_post(ruleset, *state, category, outcome_state(r))
                        &&& r is Ok ==> r->Ok_0.result == Some(score_spec(ruleset, category, d@, state.sheet_of()))
                            && r->Ok_0.rolled@.len() == 0
                    },
                }
            },
        },
{
    match action {
        None => Err(KeiriError::TerminalState),
        Some(Action::Roll { hold_mask }) => {
            let rolled = match roll_faces_for_action(rng, state, hold_mask) {
                Ok(f) => f,
                Err(e) => return Err(e),
            };
            assert(rolled@ == faces_from(old(rng).state_of(), rolled@.len()));
            match Rules::apply_roll(state, hold_mask, rolled.as_slice()) {
                Ok(next) => Ok(PlayOutcome { state: next, rolled, result: None }),
                Err(e) => Err(e),
            }
        },
        Some(Action::Score { category }) => {
            let dice = match state.dice() {
                Some(d) => d,
                None => return Err(KeiriError::MissingDice),
            };
            let result = Rules::score_with_ruleset(ruleset, category, dice, state.sheet());
            match Rules::apply_score_with_ruleset(ruleset, state, category) {
                Ok(next) => Ok(PlayOutcome { state: next, rolled: Vec::new(), result: Some(result) }),
                Err(e) => Err(e),
            }
        },
    }
}

/// The outcome of one simulated game.
#[derive(Debug, Clone, PartialEq)]
pub struct SimulationReport {
    pub final_score: u16,
    pub seed: u64,
    pub turn_count: u8,
    pub upper_bonus: bool,
    pub yahtzee_bonus_count: u16,
    pub turn_log: Vec<String>,
}

/// A player of simulated games: it picks the next action in a state, or
/// none when it has nothing to play.
pub trait Player {
    fn select_action(&mut self, state: &GameState) -> Option<Action>;
}

/// Faces written in decimal and separated by commas.
pub open spec fn faces_text(s: Seq<u8>) -> Seq<char>
    decreases s.len(),
{
    if s.len() == 0 {
        Seq::empty()
    } else if s.len() == 1 {
        decimal_chars(s[0] as nat)
    } else {
        faces_text(s.drop_last()) + ","@ + decimal_chars(s.last() as nat)
    }
}

/// Appends the faces separated by commas.
fn push_faces(out: &mut String, faces: &Vec<u8>)
    ensures
        final(out)@ == old(out)@ + faces_text(faces@),
{
    let ghost start = out@;
    let mut i: usize = 0;
    while i < faces.len()
        invariant
            i <= faces@.len(),
            out@ == start + faces_text(faces@.take(i as int)),
        decreases faces.len() - i,
    {
        assert(faces@.take(i as int + 1).drop_last() =~= faces@.take(i as int));
        if i > 0 {
            push_str(out, ",");
        }
        push_decimal(out, faces[i] as u64);
        i += 1;
        assert(out@ =~= start + faces_text(faces@.take(i as int)));
    }
    assert(faces@.take(faces@.len() as int) =~= faces@);
}

/// `turn n: ` opening a line of the turn log.
fn turn_line(turn: u8) -> (r: String)
    ensures
        r@ == "turn "@ + decimal_chars(turn as nat) + ": "@,
{
    let mut line = String::new();
    push_str(&mut line, "turn ");
    push_decimal(&mut line, turn as u64);
    push_str(&mut line, ": ");
    line
}

/// Whether `line` is a line of turn `k` of a game's log: it opens with
/// `turn k: `.
pub open spec fn logged_in_turn(line: Seq<char>, k: nat) -> bool {
    &&& 1 <= k <= 13
    &&& ("turn "@ + decimal_chars(k) + ": "@).is_prefix_of(line)
}

/// A line of the latest turn `k` keeps the log in turn order.
proof fn lemma_log_push(log: Seq<String>, turns: Seq<nat>, line: String, k: nat)
    requires
        log_follows_turns(log, turns),
        forall|i: int| 0 <= i < turns.len() ==> turns[i] <= k,
        logged_in_turn(line@, k),
    ensures
        log_follows_turns(log.push(line), turns.push(k)),
        forall|i: int| 0 <= i < turns.push(k).len() ==> turns.push(k)[i] <= k,
{
    let l2 = log.push(line);
    let t2 = turns.push(k);
    assert forall|i: int| 0 <= i < l2.len() implies #[trigger] logged_in_turn(l2[i]@, t2[i]) by {
        if i < log.len() {
            assert(l2[i] == log[i] && t2[i] == turns[i]);
        }
    }
    assert forall|i: int, j: int| 0 <= i < j < l2.len() implies #[trigger] t2[i] <= #[trigger] t2[j] by {
        if j < log.len() {
            assert(t2[i] == turns[i] && t2[j] == turns[j]);
        } else {
            assert(t2[i] == turns[i]);
        }
    }
}

/// Whether the lines of `log` belong, in order, to the turns `turns`.
pub open spec fn log_follows_turns(log: Seq<String>, turns: Seq<nat>) -> bool {
    &&& turns.len() == log.len()
    &&& forall|i: int| 0 <= i < log.len() ==> #[trigger] logged_in_turn(log[i]@, turns[i])
    &&& forall|i: int, j: int| 0 <= i < j < log.len() ==> #[trigger] turns[i] <= #[trigger] turns[j]
}

/// The log line of a score in turn `turn`: the category, what the score
/// added to the total, and the total after it.
pub open spec fn score_line(turn: nat, c: Category, delta: nat, total: nat) -> Seq<char> {
    "turn "@ + decimal_chars(turn) + ": "@ + "score "@ + c.name_spec() + "; delta="@ + decimal_chars(delta)
        + "; total="@ + decimal_chars(total)
}

/// The log line of a roll in turn `turn`: the state before it, the roll
/// and the faces it drew.
pub open spec fn roll_line(turn: nat, before: GameState, a: Action, faces: Seq<u8>) -> Seq<char> {
    "turn "@ + decimal_chars(turn) + ": "@ + compact_text(before) + " -> "@ + action_text(a) + "; rolled="@
        + faces_text(faces)
}

/// Whether `line` is a right log line for the `i`-th action of a game: for
/// a roll, the line names its turn, the state before it, the roll and the
/// faces drawn from the generator; for a score, its turn and category, as
/// delta the rise of the sheet total over that action and the total after
/// it.
pub open spec fn line_ok(
    line: Seq<char>,
    states: Seq<GameState>,
    gens: Seq<u64>,
    actions: Seq<Option<Action>>,
    i: int,
) -> bool {
    &&& actions[i] matches Some(Action::Roll { hold_mask }) ==> line == roll_line(
        states[i].sheet_of().filled_total() + 1,
        states[i],
        Action::Roll { hold_mask },
        faces_from(gens[i], (5 - kept_count(states[i], hold_mask)) as nat),
    )
    &&& actions[i] matches Some(Action::Score { category }) ==> line == score_line(
        states[i].sheet_of().filled_total() + 1,
        category,
        (states[i + 1].sheet_of().total() - states[i].sheet_of().total()) as nat,
        states[i + 1].sheet_of().total(),
    )
}

/// Whether `log` has one line for each action of a game, each right for
/// its action.
pub open spec fn log_matches(log: Seq<String>, states: Seq<GameState>, gens: Seq<u64>, actions: Seq<Option<Action>>) -> bool {
    &&& log.len() == actions.len()
    &&& forall|i: int| 0 <= i < log.len() ==> #[trigger] line_ok(log[i]@, states, gens, actions, i)
}

/// The lines of a log stay right when the game goes on.
proof fn lemma_line_ok_extend(
    log: Seq<String>,
    states: Seq<GameState>,
    gens: Seq<u64>,
    actions: Seq<Option<Action>>,
    next: GameState,
    g: u64,
    a: Option<Action>,
)
    requires
        log_matches(log, states, gens, actions),
        states.len() == actions.len() + 1,
        gens.len() == states.len(),
    ensures
        forall|i: int| 0 <= i < log.len() ==> #[trigger] line_ok(log[i]@, states.push(next), gens.push(g), actions.push(a), i),
{
    assert forall|i: int| 0 <= i < log.len() implies #[trigger] line_ok(log[i]@, states.push(next), gens.push(g), actions.push(a), i) by {
        assert(line_ok(log[i]@, states, gens, actions, i));
        assert(states.push(next)[i] == states[i] && states.push(next)[i + 1] == states[i + 1]);
        assert(gens.push(g)[i] == gens[i]);
        assert(actions.push(a)[i] == actions[i]);
    }
}

/// A log one line short of the actions, completed by a right line.
proof fn lemma_log_close(
    log: Seq<String>,
    states: Seq<GameState>,
    gens: Seq<u64>,
    actions: Seq<Option<Action>>,
    line: String,
)
    requires
        log.len() + 1 == actions.len(),
        forall|i: int| 0 <= i < log.len() ==> #[trigger] line_ok(log[i]@, states, gens, actions, i),
        line_ok(line@, states, gens, actions, log.len() as int),
    ensures
        log_matches(log.push(line), states, gens, actions),
{
    assert forall|i: int| 0 <= i < log.len() + 1 implies #[trigger] line_ok(log.push(line)[i]@, states, gens, actions, i) by {
        if i < log.len() {
            assert(log.push(line)[i] == log[i]);
        }
    }
}

/// Whether `rep` reports a game with `ruleset` played to the end from a
/// fresh state with the generator at `start`, leaving it at `end`: the
/// final score, the upper bonus and the Yahtzee bonuses of its last sheet.
pub open spec fn reports_game(ruleset: Ruleset, start: u64, end: u64, verbose: bool, rep: SimulationReport) -> bool {
    exists|states: Seq<GameState>, gens: Seq<u64>, actions: Seq<Option<Action>>|
        #[trigger] played_game(ruleset, start, states, gens, actions) && {
            let last = states.last().sheet_of();
            &&& states.last().terminal()
            &&& last.game_bounded()
            &&& gens.last() == end
            &&& rep.final_score == last.total()
            &&& rep.upper_bonus == (last.upper_sum() >= 63)
            &&& rep.yahtzee_bonus_count == last.bonus_count()
            &&& verbose ==> log_matches(rep.turn_log@, states, gens, actions)
        }
}

/// Whether a game with `ruleset` played from a fresh state with the
/// generator at `start` reached a state that is not terminal where one more
/// action failed with `e`, leaving the generator at `end`.
pub open spec fn fails_game(ruleset: Ruleset, start: u64, end: u64, e: KeiriError) -> bool {
    exists|states: Seq<GameState>, gens: Seq<u64>, actions: Seq<Option<Action>>, a: Option<Action>|
        #![trigger played_game(ruleset, start, states, gens, actions), play_post(ruleset, states.last(), gens.last(), a, end, Err(e))]
        {
            &&& played_game(ruleset, start, states, gens, actions)
            &&& !states.last().terminal()
            &&& play_post(ruleset, states.last(), gens.last(), a, end, Err(e))
        }
}

/// Plays a game from the start: the player picks each action and `rng`
/// rolls the dice, until every category is filled.  The first action that
/// cannot be played ends the game with its error; a player with nothing to
/// play ends it with `TerminalState`.  With `verbose`, the report logs each
/// roll and each score.
pub fn simulate_game<P: Player>(seed: u64, rng: &mut Rng64, ruleset: Ruleset, player: &mut P, verbose: bool) -> (r:
    Result<SimulationReport, KeiriError>)
    ensures
        exists|n: nat|
            #![trigger xorshift_iter(old(rng).state_of(), n)]
            {
                &&& final(rng).state_of() == xorshift_iter(old(rng).state_of(), n)
                &&& r is Ok ==> 65 <= n <= 195
            },
        r is Ok ==> {
            let rep = r->Ok_0;
            &&& rep.seed == seed
            &&& rep.turn_count == 13
            &&& rep.final_score <= 1575
            &&& !verbose ==> rep.turn_log@.len() == 0
            &&& verbose ==> 26 <= rep.turn_log@.len() <= 52
            &&& exists|turns: Seq<nat>| #[trigger] log_follows_turns(rep.turn_log@, turns)
        },
        r is Ok ==> reports_game(ruleset, old(rng).state_of(), final(rng).state_of(), verbose, r->Ok_0),
        r is Err ==> fails_game(ruleset, old(rng).state_of(), final(rng).state_of(), r->Err_0),
{
    let mut state = GameState::new();
    let mut turn_count: u8 = 0;
    let mut turn_log: Vec<String> = Vec::new();
    let ghost start = rng.state_of();
    let ghost mut steps: nat = 0;
    let ghost mut turns: Seq<nat> = Seq::empty();
    let ghost mut states: Seq<GameState> = seq![state];
    let ghost mut gens: Seq<u64> = seq![rng.state_of()];
    let ghost mut actions: Seq<Option<Action>> = Seq::empty();
    proof {
        state.sheet_of().lemma_empty_counts(13);
    }
    while !state.is_terminal()
        invariant
            start == old(rng).state_of(),
            rng.state_of() == xorshift_iter(start, steps),
            5 * turn_count <= steps <= 15 * turn_count,
            state.sheet_of().game_bounded(),
            turn_count == state.sheet_of().filled_total(),
            state.dice_of() is None,
            state.rolls() == 0,
            !verbose ==> turn_log@.len() == 0,
            verbose ==> 2 * turn_count <= turn_log@.len() <= 4 * turn_count,
            log_follows_turns(turn_log@, turns),
            verbose ==> log_matches(turn_log@, states, gens, actions),
            forall|i: int| 0 <= i < turns.len() ==> turns[i] <= turn_count,
            played_game(ruleset, start, states, gens, actions),
            states.last() == state,
            gens.last() == rng.state_of(),
        decreases 13 - state.sheet_of().filled_total(),
    {
        proof {
            state.sheet_of().lemma_game_bounded_within_limits();
        }
        turn_count += 1;
        let ghost turn_start = steps;
        let ghost log_start = turn_log@.len();
        loop
            invariant_except_break
                state.sheet_of().filled_total() + 1 == turn_count,
                state.dice_of() is None ==> steps == turn_start && state.rolls() == 0,
                state.dice_of() is Some ==> turn_start + 5 <= steps <= turn_start + 5 * state.rolls()
                    && state.rolls() <= 3,
                verbose ==> turn_log@.len() == log_start + state.rolls(),
            invariant
                start == old(rng).state_of(),
                rng.state_of() == xorshift_iter(start, steps),
                5 * (turn_count - 1) <= turn_start <= 15 * (turn_count - 1),
                state.sheet_of().game_bounded(),
                1 <= turn_count <= 13,
                !verbose ==> turn_log@.len() == 0,
                verbose ==> 2 * (turn_count - 1) <= log_start <= 4 * (turn_count - 1),
                log_follows_turns(turn_log@, turns),
                verbose ==> log_matches(turn_log@, states, gens, actions),
                forall|i: int| 0 <= i < turns.len() ==> turns[i] <= turn_count,
                played_game(ruleset, start, states, gens, actions),
                states.last() == state,
                gens.last() == rng.state_of(),
            ensures
                5 * turn_count <= steps <= 15 * turn_count,
                state.sheet_of().game_bounded(),
                state.sheet_of().filled_total() == turn_count,
                state.dice_of() is None,
                state.rolls() == 0,
                !verbose ==> turn_log@.len() == 0,
                verbose ==> 2 * turn_count <= turn_log@.len() <= 4 * turn_count,
                log_follows_turns(turn_log@, turns),
                verbose ==> log_matches(turn_log@, states, gens, actions),
                forall|i: int| 0 <= i < turns.len() ==> turns[i] <= turn_count,
                played_game(ruleset, start, states, gens, actions),
                states.last() == state,
                gens.last() == rng.state_of(),
            decreases 3 - state.rolls(),
        {
            proof {
                use_type_invariant(&state);
                state.sheet_of().lemma_game_bounded_within_limits();
                state.sheet_of().lemma_within_limits();
            }
            let action = player.select_action(&state);
            let previous = if verbose {
                state.to_compact()
            } else {
                String::new()
            };
            let current_dice = state.dice();
            let ghost before_state = state;
            let ghost gen_before = rng.state_of();
            let played = play_action(ruleset, rng, &state, action);
            proof {
                if let Some(Action::Roll { hold_mask }) = action {
                    if hold_mask < 32 {
                        if let Some(d) = current_dice {
                            use_type_invariant(&d);
                            crate::dice::lemma_kept_len(d@, hold_mask, 5);
                        }
                        let n = (5 - kept_count(state, hold_mask)) as nat;
                        lemma_xorshift_iter_add(start, steps, n);
                        steps = steps + n;
                    }
                }
            }
            let outcome = match played {
                Ok(o) => o,
                Err(e) => {
                    assert(rng.state_of() == xorshift_iter(start, steps));
                    assert(play_post(ruleset, states.last(), gens.last(), action, rng.state_of(), Err(e)));
                    assert(played_game(ruleset, start, states, gens, actions));
                    return Err(e);
                },
            };
            proof {
                if verbose {
                    lemma_line_ok_extend(turn_log@, states, gens, actions, outcome.state, rng.state_of(), action);
                }
                lemma_played_push(ruleset, start, states, gens, actions, action, rng.state_of(), outcome.state);
                states = states.push(outcome.state);
                gens = gens.push(rng.state_of());
                actions = actions.push(action);
            }
            match action {
                Some(Action::Score { category }) => {
                    if let Some(d) = current_dice {
                        proof {
                            use_type_invariant(&d);
                            crate::laws::law_scoring_adds_total_delta(
                                ruleset,
                                d,
                                state.sheet_of(),
                                outcome.state.sheet_of(),
                                category,
                            );
                            let j = joker_spec(ruleset, d@, state.sheet_of());
                            crate::laws::law_score_at_most_max(category, d, j);
                            let after = outcome.state.sheet_of();
                            if state.sheet_of().fifty() {
                                state.sheet_of().lemma_filled_counts(Category::Yahtzee, 13);
                            }
                            assert forall|c: Category| #[trigger] after.score_of(c) is Some implies after.score_of(
                                c,
                            )->0 <= max_base(c) by {
                                if c != category {
                                    assert(after.score_of(c) == state.sheet_of().score_of(c));
                                }
                            }
                        }
                    }
                    state = outcome.state;
                    if verbose {
                        proof {
                            state.sheet_of().lemma_game_bounded_within_limits();
                        }
                        let delta: u16 = match outcome.result {
                            Some(res) => res.total_delta,
                            None => 0,
                        };
                        let mut line = turn_line(turn_count);
                        let ghost head = line@;
                        push_str(&mut line, "score ");
                        push_str(&mut line, category.name());
                        push_str(&mut line, "; delta=");
                        push_decimal(&mut line, delta as u64);
                        push_str(&mut line, "; total=");
                        push_decimal(&mut line, state.sheet().total_score() as u64);
                        proof {
                            assert(line@.subrange(0, head.len() as int) =~= head);
                            lemma_log_push(turn_log@, turns, line, turn_count as nat);
                            turns = turns.push(turn_count as nat);
                            let k = (actions.len() - 1) as int;
                            assert(states[k] == before_state && states[k + 1] == state);
                            assert(line@ =~= score_line(
                                states[k].sheet_of().filled_total() + 1,
                                category,
                                (states[k + 1].sheet_of().total() - states[k].sheet_of().total()) as nat,
                                states[k + 1].sheet_of().total(),
                            ));
                            lemma_log_close(turn_log@, states, gens, actions, line);
                        }
                        turn_log.push(line);
                    }
                    break;
                },
                _ => {
                    state = outcome.state;
                    if verbose {
                        let mut line = turn_line(turn_count);
                        let ghost head = line@;
                        push_str(&mut line, previous.as_str());
                        push_str(&mut line, " -> ");
                        let shown = match action {
                            Some(a) => a.to_text(),
                            None => String::new(),
                        };
                        push_str(&mut line, shown.as_str());
                        push_str(&mut line, "; rolled=");
                        push_faces(&mut line, &outcome.rolled);
                        proof {
                            assert(line@.subrange(0, head.len() as int) =~= head);
                            lemma_log_push(turn_log@, turns, line, turn_count as nat);
                            turns = turns.push(turn_count as nat);
                            let k = (actions.len() - 1) as int;
                            assert(states[k] == before_state && gens[k] == gen_before);
                            if let Some(Action::Roll { hold_mask }) = action {
                                assert(line@ =~= roll_line(
                                    states[k].sheet_of().filled_total() + 1,
                                    states[k],
                                    Action::Roll { hold_mask },
                                    faces_from(gens[k], (5 - kept_count(states[k], hold_mask)) as nat),
                                ));
                            }
                            lemma_log_close(turn_log@, states, gens, actions, line);
                        }
                        turn_log.push(line);
                    }
                },
            }
        }
    }
    proof {
        state.sheet_of().lemma_game_bounded_within_limits();
        state.sheet_of().lemma_within_limits();
    }
    let sheet = state.sheet();
    let report = SimulationReport {
        final_score: sheet.total_score(),
        seed,
        turn_count,
        upper_bonus: sheet.has_upper_bonus(),
        yahtzee_bonus_count: sheet.yahtzee_bonus_count(),
        turn_log,
    };
    assert(log_follows_turns(report.turn_log@, turns));
    assert(played_game(ruleset, start, states, gens, actions));
    Ok(report)
}

/// The generator state a seed starts from: the seed, or 1 for 0.
pub open spec fn seed_state(seed: u64) -> u64 {
    if seed == 0 {
        1
    } else {
        seed
    }
}

/// The seed of game `i` of a run seeded with `seed`: the `i`-th number that
/// a generator seeded with `seed` hands out, counting from 0.
pub open spec fn game_seed(seed: u64, i: nat) -> u64 {
    scramble(xorshift_iter(seed_state(seed), i + 1))
}

/// Whether `rep` reports a whole game with `ruleset` played with the
/// generator seeded with `s`.
pub open spec fn game_reported(ruleset: Ruleset, s: u64, rep: SimulationReport) -> bool {
    &&& rep.seed == s
    &&& rep.turn_count == 13
    &&& exists|end: u64| #[trigger] reports_game(ruleset, seed_state(s), end, false, rep)
}

/// Number of reports that earned the upper bonus.
pub open spec fn upper_bonus_games(reps: Seq<SimulationReport>) -> nat
    decreases reps.len(),
{
    if reps.len() == 0 {
        0
    } else {
        upper_bonus_games(reps.drop_last()) + if reps.last().upper_bonus {
            1nat
        } else {
            0nat
        }
    }
}

/// Number of reports with at least one Yahtzee bonus.
pub open spec fn yahtzee_bonus_games(reps: Seq<SimulationReport>) -> nat
    decreases reps.len(),
{
    if reps.len() == 0 {
        0
    } else {
        yahtzee_bonus_games(reps.drop_last()) + if reps.last().yahtzee_bonus_count > 0 {
            1nat
        } else {
            0nat
        }
    }
}

/// The final scores of a run of games, how many earned the upper bonus and
/// how many earned a Yahtzee bonus.
pub struct EvaluationTally {
    pub scores: Vec<u16>,
    pub upper_bonus_count: usize,
    pub yahtzee_bonus_games: usize,
}

/// Whether `t` tallies the reports `reps`, in order.
pub open spec fn tallies(t: EvaluationTally, reps: Seq<SimulationReport>) -> bool {
    &&& t.scores@ == reps.map_values(|rep: SimulationReport| rep.final_score)
    &&& t.upper_bonus_count == upper_bonus_games(reps)
    &&& t.yahtzee_bonus_games == yahtzee_bonus_games(reps)
}

impl EvaluationTally {
    /// The tally of no games.
    pub fn new() -> (r: Self)
        ensures
            tallies(r, Seq::empty()),
    {
        let r = EvaluationTally { scores: Vec::new(), upper_bonus_count: 0, yahtzee_bonus_games: 0 };
        assert(r.scores@ =~= Seq::<SimulationReport>::empty().map_values(|rep: SimulationReport| rep.final_score));
        r
    }

    /// Adds one game's report to the tally.
    pub fn record(&mut self, report: &SimulationReport)
        requires
            old(self).upper_bonus_count < usize::MAX,
            old(self).yahtzee_bonus_games < usize::MAX,
        ensures
            final(self).scores@ == old(self).scores@.push(report.final_score),
            final(self).upper_bonus_count == old(self).upper_bonus_count + if report.upper_bonus {
                1int
            } else {
                0int
            },
            final(self).yahtzee_bonus_games == old(self).yahtzee_bonus_games + if report.yahtzee_bonus_count > 0 {
                1int
            } else {
                0int
            },
    {
        self.scores.push(report.final_score);
        if report.upper_bonus {
            self.upper_bonus_count += 1;
        }
        if report.yahtzee_bonus_count > 0 {
            self.yahtzee_bonus_games += 1;
        }
    }
}

/// A tally that gained one report tallies the reports with it appended.
proof fn lemma_tallies_push(before: EvaluationTally, after: EvaluationTally, reps: Seq<SimulationReport>, rep: SimulationReport)
    requires
        tallies(before, reps),
        after.scores@ == before.scores@.push(rep.final_score),
        after.upper_bonus_count == before.upper_bonus_count + if rep.upper_bonus {
            1int
        } else {
            0int
        },
        after.yahtzee_bonus_games == before.yahtzee_bonus_games + if rep.yahtzee_bonus_count > 0 {
            1int
        } else {
            0int
        },
    ensures
        tallies(after, reps.push(rep)),
{
    let r2 = reps.push(rep);
    assert(r2.drop_last() =~= reps);
    assert(after.scores@ =~= r2.map_values(|x: SimulationReport| x.final_score));
}

/// Plays `games` games with `player`, game `i` with the generator seeded by
/// the `i`-th number that a generator seeded with `seed` hands out, and
/// tallies their reports.  The first game that fails ends the run with its
/// error.
pub fn evaluate_games<P: Player>(games: usize, seed: u64, ruleset: Ruleset, player: &mut P) -> (r: Result<
    EvaluationTally,
    KeiriError,
>)
    ensures
        match r {
            Ok(t) => exists|reps: Seq<SimulationReport>|
                #[trigger] tallies(t, reps) && reps.len() == games && forall|i: int|
                    0 <= i < games ==> #[trigger] game_reported(ruleset, game_seed(seed, i as nat), reps[i]),
            Err(e) => exists|i: nat, end: u64|
                i < games && #[trigger] fails_game(ruleset, seed_state(game_seed(seed, i)), end, e),
        },
{
    let mut seeds = Rng64::new(seed);
    let mut tally = EvaluationTally::new();
    let ghost mut reps: Seq<SimulationReport> = Seq::empty();
    let mut i: usize = 0;
    while i < games
        invariant
            i <= games,
            seeds.state_of() == xorshift_iter(seed_state(seed), i as nat),
            tallies(tally, reps),
            reps.len() == i,
            tally.upper_bonus_count <= i,
            tally.yahtzee_bonus_games <= i,
            forall|j: int| 0 <= j < i ==> #[trigger] game_reported(ruleset, game_seed(seed, j as nat), reps[j]),
        decreases games - i,
    {
        let this_seed = seeds.next_u64();
        assert(this_seed == game_seed(seed, i as nat));
        let mut rng = Rng64::new(this_seed);
        let report = match simulate_game(this_seed, &mut rng, ruleset, player, false) {
            Ok(rep) => rep,
            Err(e) => {
                let ghost k: nat = i as nat;
                assert(k < games && fails_game(ruleset, seed_state(game_seed(seed, k)), rng.state_of(), e));
                return Err(e);
            },
        };
        let ghost before = tally;
        tally.record(&report);
        proof {
            lemma_tallies_push(before, tally, reps, report);
            assert(reports_game(ruleset, seed_state(this_seed), rng.state_of(), false, report));
            let old_reps = reps;
            reps = reps.push(report);
            assert forall|j: int| 0 <= j < i + 1 implies #[trigger] game_reported(
                ruleset,
                game_seed(seed, j as nat),
                reps[j],
            ) by {
                if j < i {
                    assert(reps[j] == old_reps[j]);
                }
            }
        }
        i += 1;
    }
    assert(tallies(tally, reps) && reps.len() == games);
    let r: Result<EvaluationTally, KeiriError> = Ok(tally);
    assert(r->Ok_0 == tally);
    assert(tallies(r->Ok_0, reps));
    r
}

} // verus!
