//! The actions a solver weighs in a state, the key by which ties between
//! equally good actions are broken, and the key under which a solver caches
//! the value of a state.
use crate::category::Ruleset;
use crate::dice::{kept_spec, Dice};
use crate::rules::{legal_spec, Rules};
use crate::state::{Action, GameState};
use vstd::prelude::*;

verus! {

/// Which solver produced a decision.
#[derive(Debug, Clone, Copy, PartialEq, Eq, Structural)]
pub enum DecisionSource {
    RecursiveOracle,
    ExactTable,
    Heuristic,
}

/// What the value of a state depends on: the dice, the rolls made, which
/// categories are filled, the capped upper subtotal and whether the Yahtzee
/// box holds 50.
#[derive(Debug, Clone, Copy, PartialEq, Eq, Hash)]
pub struct OracleKey {
    pub dice: Option<Dice>,
    pub rolls_used: u8,
    pub filled_mask: u16,
    pub upper_subtotal_capped: u8,
    pub yahtzee_scored_50: bool,
}

impl OracleKey {
    /// The key of `state`.
    pub fn from_state(state: &GameState) -> (r: Self)
        requires
            state.sheet_of().upper_sum() <= u16::MAX,
        ensures
            r.dice == state.dice_of(),
            r.rolls_used == state.rolls(),
            r.filled_mask < 8192,
            forall|i: int|
                0 <= i < 13 ==> (#[trigger] crate::sheet::mask_bit(r.filled_mask, i) <==> state.sheet_of().filled(
                    crate::category::category_at(i),
                )),
            r.upper_subtotal_capped == if state.sheet_of().upper_sum() >= 63 {
                63
            } else {
                state.sheet_of().upper_sum()
            },
            r.yahtzee_scored_50 == state.sheet_of().fifty(),
    {
        let sheet = state.sheet();
        OracleKey {
            dice: state.dice(),
            rolls_used: state.rolls_used(),
            filled_mask: sheet.filled_mask(),
            upper_subtotal_capped: sheet.upper_subtotal_capped(),
            yahtzee_scored_50: sheet.yahtzee_scored_50(),
        }
    }
}

/// Whether a state with dice is within the last `oracle_endgame` open
/// categories, where the hybrid agent hands over to the exact solver.
pub fn uses_oracle_for(oracle_endgame: usize, state: &GameState) -> (r: bool)
    ensures
        r == (state.dice_of() is Some && oracle_endgame > 0 && state.sheet_of().open_categories().len()
            <= oracle_endgame),
{
    state.dice().is_some() && oracle_endgame > 0 && state.sheet().remaining_categories().len() <= oracle_endgame
}

// ---------------------------------------------------------------------------
// Lexicographic order of byte sequences
// ---------------------------------------------------------------------------

/// Lexicographic order of byte sequences, a proper prefix first (the order
/// of `Vec<u8>`).
pub open spec fn seq_lt(a: Seq<u8>, b: Seq<u8>) -> bool
    decreases a.len(),
{
    if a.len() == 0 {
        b.len() > 0
    } else if b.len() == 0 {
        false
    } else if a[0] != b[0] {
        a[0] < b[0]
    } else {
        seq_lt(a.drop_first(), b.drop_first())
    }
}

proof fn lemma_lt_irreflexive(a: Seq<u8>)
    ensures
        !seq_lt(a, a),
    decreases a.len(),
{
    if a.len() > 0 {
        lemma_lt_irreflexive(a.drop_first());
    }
}

proof fn lemma_lt_trans(a: Seq<u8>, b: Seq<u8>, c: Seq<u8>)
    requires
        seq_lt(a, b),
        seq_lt(b, c),
    ensures
        seq_lt(a, c),
    decreases a.len(),
{
    if a.len() > 0 && b.len() > 0 && c.len() > 0 && a[0] == b[0] && b[0] == c[0] {
        lemma_lt_trans(a.drop_first(), b.drop_first(), c.drop_first());
    }
}

proof fn lemma_lt_total(a: Seq<u8>, b: Seq<u8>)
    requires
        a != b,
    ensures
        seq_lt(a, b) || seq_lt(b, a),
    decreases a.len(),
{
    if a.len() == 0 {
        if b.len() == 0 {
            assert(a =~= b);
        }
    } else if b.len() > 0 && a[0] == b[0] {
        if a.drop_first() == b.drop_first() {
            assert(a == seq![a[0]] + a.drop_first());
            assert(b == seq![b[0]] + b.drop_first());
        }
        lemma_lt_total(a.drop_first(), b.drop_first());
    }
}

proof fn lemma_lt_skip(a: Seq<u8>, b: Seq<u8>, i: int)
    requires
        0 <= i < a.len(),
        i < b.len(),
        a[i] == b[i],
    ensures
        seq_lt(a.skip(i), b.skip(i)) == seq_lt(a.skip(i + 1), b.skip(i + 1)),
{
    assert(a.skip(i).drop_first() == a.skip(i + 1));
    assert(b.skip(i).drop_first() == b.skip(i + 1));
}

/// Whether `a` comes before `b` in lexicographic order.
pub fn bytes_lt(a: &[u8], b: &[u8]) -> (r: bool)
    ensures
        r == seq_lt(a@, b@),
{
    let mut i: usize = 0;
    assert(a@.skip(0) == a@);
    assert(b@.skip(0) == b@);
    while i < a.len() && i < b.len()
        invariant
            i <= a@.len(),
            i <= b@.len(),
            seq_lt(a@, b@) == seq_lt(a@.skip(i as int), b@.skip(i as int)),
        decreases a@.len() - i,
    {
        if a[i] != b[i] {
            return a[i] < b[i];
        }
        proof {
            lemma_lt_skip(a@, b@, i as int);
        }
        i += 1;
    }
    i < b.len()
}

// ---------------------------------------------------------------------------
// Hold masks that keep different dice
// ---------------------------------------------------------------------------

/// The dice kept by `mask`.
#[verifier::opaque]
pub open spec fn kept_of(d: Dice, mask: u8) -> Seq<u8> {
    kept_spec(d@, mask, 5)
}

/// Whether `mask` is the smallest five-bit mask that keeps its dice.
pub open spec fn is_canonical_mask(d: Dice, mask: u8) -> bool {
    &&& mask < 32
    &&& forall|m: u8| m < mask ==> kept_of(d, m) != kept_of(d, mask)
}

/// Whether the masks `ms` keep dice in strictly increasing order.
#[verifier::opaque]
pub open spec fn sorted_by_kept(d: Dice, ms: Seq<u8>) -> bool {
    forall|a: int, b: int| 0 <= a < b < ms.len() ==> seq_lt(kept_of(d, #[trigger] ms[a]), kept_of(d, #[trigger] ms[b]))
}

/// Whether one of the masks `ms` keeps the dice `k`.
pub open spec fn has_key(d: Dice, ms: Seq<u8>, k: Seq<u8>) -> bool {
    exists|j: int| 0 <= j < ms.len() && #[trigger] kept_of(d, ms[j]) == k
}

/// Whether the masks `ms` keep every set of dice that a mask below `n` keeps.
#[verifier::opaque]
pub open spec fn covers(d: Dice, ms: Seq<u8>, n: int) -> bool {
    forall|m: u8| m < n ==> #[trigger] has_key(d, ms, kept_of(d, m))
}

/// Whether the masks `ms` are all below `n` and each the smallest mask that
/// keeps its dice.
#[verifier::opaque]
pub open spec fn canonical_below(d: Dice, ms: Seq<u8>, n: int) -> bool {
    forall|j: int| 0 <= j < ms.len() ==> #[trigger] ms[j] < n && is_canonical_mask(d, ms[j])
}

/// Whether `ms` holds the smallest mask for each different set of kept
/// dice, ordered by the dice they keep.
pub open spec fn canonical_list(d: Dice, ms: Seq<u8>) -> bool {
    &&& canonical_below(d, ms, 32)
    &&& sorted_by_kept(d, ms)
    &&& covers(d, ms, 32)
}

proof fn lemma_insert_sorted(d: Dice, ms: Seq<u8>, pos: int, m: u8)
    requires
        0 <= pos <= ms.len(),
        sorted_by_kept(d, ms),
        forall|j: int| 0 <= j < pos ==> seq_lt(kept_of(d, #[trigger] ms[j]), kept_of(d, m)),
        pos < ms.len() ==> seq_lt(kept_of(d, m), kept_of(d, ms[pos])),
    ensures
        sorted_by_kept(d, ms.insert(pos, m)),
        forall|j: int| 0 <= j < ms.len() ==> kept_of(d, #[trigger] ms[j]) != kept_of(d, m),
{
    reveal(sorted_by_kept);
    let ns = ms.insert(pos, m);
    let km = kept_of(d, m);
    lemma_lt_irreflexive(km);
    assert forall|j: int| 0 <= j < ms.len() implies kept_of(d, #[trigger] ms[j]) != km by {
        if j > pos {
            lemma_lt_trans(km, kept_of(d, ms[pos]), kept_of(d, ms[j]));
        }
    }
    assert forall|a: int, b: int| 0 <= a < b < ns.len() implies seq_lt(kept_of(d, #[trigger] ns[a]), kept_of(d, #[trigger] ns[b])) by {
        if a < pos && b == pos {
            assert(ns[a] == ms[a]);
        } else if a == pos && b > pos {
            assert(ns[b] == ms[b - 1]);
            if b - 1 > pos {
                lemma_lt_trans(km, kept_of(d, ms[pos]), kept_of(d, ms[b - 1]));
            }
        } else if a < pos && b > pos {
            assert(ns[a] == ms[a]);
            assert(ns[b] == ms[b - 1]);
            if b - 1 > pos {
                lemma_lt_trans(km, kept_of(d, ms[pos]), kept_of(d, ms[b - 1]));
            }
            lemma_lt_trans(kept_of(d, ms[a]), km, kept_of(d, ms[b - 1]));
        } else if a > pos {
            assert(ns[a] == ms[a - 1]);
            assert(ns[b] == ms[b - 1]);
        } else {
            assert(ns[a] == ms[a]);
            assert(ns[b] == ms[b]);
        }
    }
}

proof fn lemma_insert_covers(d: Dice, ms: Seq<u8>, pos: int, m: u8)
    requires
        0 <= pos <= ms.len(),
        covers(d, ms, m as int),
    ensures
        covers(d, ms.insert(pos, m), m + 1),
{
    let ns = ms.insert(pos, m);
    assert(covers(d, ns, m + 1)) by {
        reveal(covers);
        assert forall|m2: u8| m2 < m + 1 implies #[trigger] has_key(d, ns, kept_of(d, m2)) by {
            if m2 == m {
                assert(ns[pos] == m);
                assert(kept_of(d, ns[pos]) == kept_of(d, m2));
            } else {
                assert(has_key(d, ms, kept_of(d, m2)));
                let j = choose|j: int| 0 <= j < ms.len() && #[trigger] kept_of(d, ms[j]) == kept_of(d, m2);
                if j < pos {
                    assert(ns[j] == ms[j]);
                    assert(kept_of(d, ns[j]) == kept_of(d, m2));
                } else {
                    assert(ns[j + 1] == ms[j]);
                    assert(kept_of(d, ns[j + 1]) == kept_of(d, m2));
                }
            }
        }
    }
}

proof fn lemma_insert_canonical(d: Dice, ms: Seq<u8>, pos: int, m: u8)
    requires
        m < 32,
        0 <= pos <= ms.len(),
        covers(d, ms, m as int),
        canonical_below(d, ms, m as int),
        forall|j: int| 0 <= j < ms.len() ==> kept_of(d, #[trigger] ms[j]) != kept_of(d, m),
    ensures
        canonical_below(d, ms.insert(pos, m), m + 1),
{
    reveal(covers);
    reveal(canonical_below);
    let ns = ms.insert(pos, m);
    assert forall|m2: u8| m2 < m implies kept_of(d, m2) != kept_of(d, m) by {
        assert(has_key(d, ms, kept_of(d, m2)));
        let j = choose|j: int| 0 <= j < ms.len() && #[trigger] kept_of(d, ms[j]) == kept_of(d, m2);
        assert(kept_of(d, ms[j]) != kept_of(d, m));
    }
    assert forall|j: int| 0 <= j < ns.len() implies #[trigger] ns[j] < m + 1 && is_canonical_mask(d, ns[j]) by {
        if j < pos {
            assert(ns[j] == ms[j]);
        } else if j > pos {
            assert(ns[j] == ms[j - 1]);
        }
    }
}

proof fn lemma_found_mask(d: Dice, ms: Seq<u8>, j: int, m: u8)
    requires
        0 <= j < ms.len(),
        kept_of(d, ms[j]) == kept_of(d, m),
        covers(d, ms, m as int),
        canonical_below(d, ms, m as int),
    ensures
        covers(d, ms, m + 1),
        canonical_below(d, ms, m + 1),
{
    assert(covers(d, ms, m + 1)) by {
        reveal(covers);
        assert forall|m2: u8| m2 < m + 1 implies #[trigger] has_key(d, ms, kept_of(d, m2)) by {
            if m2 == m {
                assert(kept_of(d, ms[j]) == kept_of(d, m2));
            }
        }
    }
    assert(canonical_below(d, ms, m + 1)) by {
        reveal(canonical_below);
        assert forall|i: int| 0 <= i < ms.len() implies #[trigger] ms[i] < m + 1 && is_canonical_mask(d, ms[i]) by {
            assert(ms[i] < m);
        }
    }
}

/// One hold mask for each different set of dice that can be kept: the
/// smallest such mask, in the lexicographic order of the kept dice.
pub fn canonical_hold_masks(dice: Dice) -> (r: Vec<u8>)
    ensures
        canonical_list(dice, r@),
{
    let mut keys: Vec<Vec<u8>> = Vec::new();
    let mut masks: Vec<u8> = Vec::new();
    let mut m: u8 = 0;
    proof {
        reveal(canonical_below);
        reveal(sorted_by_kept);
        reveal(covers);
    }
    while m < 32
        invariant
            m <= 32,
            keys@.len() == masks@.len(),
            forall|j: int| 0 <= j < masks@.len() ==> (#[trigger] keys@[j])@ == kept_of(dice, masks@[j]),
            canonical_below(dice, masks@, m as int),
            sorted_by_kept(dice, masks@),
            covers(dice, masks@, m as int),
        decreases 32 - m,
    {
        let k = match dice.kept_by_mask(m) {
            Ok(k) => k,
            Err(_) => Vec::new(),
        };
        assert(k@ == kept_of(dice, m)) by {
            reveal(kept_of);
        }
        let mut found = false;
        let mut stop = false;
        let mut pos: usize = 0;
        while pos < keys.len() && !found && !stop
            invariant
                pos <= keys@.len(),
                keys@.len() == masks@.len(),
                k@ == kept_of(dice, m),
                forall|j: int| 0 <= j < masks@.len() ==> (#[trigger] keys@[j])@ == kept_of(dice, masks@[j]),
                found ==> pos < keys@.len() && keys@[pos as int]@ == k@,
                stop ==> !found && pos < keys@.len() && seq_lt(k@, keys@[pos as int]@),
                forall|j: int| 0 <= j < pos ==> seq_lt((#[trigger] keys@[j])@, k@),
            decreases keys@.len() - pos + (if found || stop {
                0int
            } else {
                1int
            }),
        {
            if crate::text::bytes_eq(keys[pos].as_slice(), k.as_slice()) {
                found = true;
            } else if bytes_lt(k.as_slice(), keys[pos].as_slice()) {
                stop = true;
            } else {
                proof {
                    lemma_lt_total(keys@[pos as int]@, k@);
                }
                pos += 1;
            }
        }
        if !found {
            let ghost old_masks = masks@;
            let ghost old_keys = keys@;
            proof {
                assert forall|j: int| 0 <= j < pos implies seq_lt(kept_of(dice, #[trigger] old_masks[j]), kept_of(dice, m)) by {
                    assert(old_keys[j]@ == kept_of(dice, old_masks[j]));
                }
                if pos < old_masks.len() {
                    assert(stop);
                    assert(old_keys[pos as int]@ == kept_of(dice, old_masks[pos as int]));
                }
                lemma_insert_sorted(dice, old_masks, pos as int, m);
                lemma_insert_covers(dice, old_masks, pos as int, m);
                lemma_insert_canonical(dice, old_masks, pos as int, m);
            }
            keys.insert(pos, k);
            masks.insert(pos, m);
            proof {
                assert forall|j: int| 0 <= j < masks@.len() implies (#[trigger] keys@[j])@ == kept_of(dice, masks@[j]) by {
                    if j < pos {
                        assert(keys@[j] == old_keys[j]);
                        assert(masks@[j] == old_masks[j]);
                    } else if j > pos {
                        assert(keys@[j] == old_keys[j - 1]);
                        assert(masks@[j] == old_masks[j - 1]);
                    }
                }
            }
        } else {
            proof {
                lemma_found_mask(dice, masks@, pos as int, m);
            }
        }
        m += 1;
    }
    masks
}

/// The hold masks of a run of roll actions.
pub open spec fn roll_masks(actions: Seq<Action>) -> Seq<u8> {
    Seq::new(actions.len(), |i: int| actions[i]->hold_mask)
}

/// The actions an exact solver weighs in `state`: a first roll at the start
/// of a turn; otherwise scoring in each category the rules allow, then,
/// while a roll is left, one reroll for each different set of dice that can
/// be kept.
pub fn exact_candidate_actions(ruleset: Ruleset, state: &GameState) -> (r: Vec<Action>)
    ensures
        state.dice_of() is None ==> r@ == seq![(Action::Roll { hold_mask: 0 })],
        state.dice_of() is Some ==> {
            let d = state.dice_of()->0;
            let legal = legal_spec(ruleset, d@, state.sheet_of());
            &&& r@.len() >= legal.len()
            &&& forall|i: int| 0 <= i < legal.len() ==> #[trigger] r@[i] == (Action::Score { category: legal[i] })
            &&& forall|i: int| legal.len() <= i < r@.len() ==> #[trigger] r@[i] is Roll
            &&& state.rolls() < 3 ==> canonical_list(d, roll_masks(r@.skip(legal.len() as int)))
            &&& state.rolls() >= 3 ==> r@.len() == legal.len()
        },
{
    let mut actions: Vec<Action> = Vec::new();
    let dice = match state.dice() {
        None => {
            actions.push(Action::Roll { hold_mask: 0 });
            return actions;
        },
        Some(d) => d,
    };
    let legal = Rules::legal_score_categories_with_ruleset(ruleset, state.sheet(), dice);
    let mut i: usize = 0;
    while i < legal.len()
        invariant
            i <= legal@.len(),
            actions@.len() == i,
            forall|j: int| 0 <= j < i ==> #[trigger] actions@[j] == (Action::Score { category: legal@[j] }),
        decreases legal@.len() - i,
    {
        actions.push(Action::Score { category: legal[i] });
        i += 1;
    }
    if state.rolls_used() < 3 {
        let masks = canonical_hold_masks(dice);
        let mut k: usize = 0;
        while k < masks.len()
            invariant
                k <= masks@.len(),
                actions@.len() == legal@.len() + k,
                forall|j: int| 0 <= j < legal@.len() ==> #[trigger] actions@[j] == (Action::Score { category: legal@[j] }),
                forall|j: int| 0 <= j < k ==> #[trigger] actions@[legal@.len() + j] == (Action::Roll { hold_mask: masks@[j] }),
            decreases masks@.len() - k,
        {
            actions.push(Action::Roll { hold_mask: masks[k] });
            k += 1;
        }
        let ghost l = legal@.len() as int;
        assert forall|i: int| l <= i < actions@.len() implies #[trigger] actions@[i] is Roll by {
            assert(actions@[l + (i - l)] == (Action::Roll { hold_mask: masks@[i - l] }));
        }
        assert forall|j: int| 0 <= j < masks@.len() implies #[trigger] roll_masks(actions@.skip(l))[j] == masks@[j] by {
            assert(actions@[l + j] == (Action::Roll { hold_mask: masks@[j] }));
            assert(actions@.skip(l)[j] == actions@[l + j]);
        }
        assert(roll_masks(actions@.skip(l)) =~= masks@);
    }
    actions
}

/// The key by which ties between equally good actions are broken: scoring
/// before rerolling, categories by position, rerolls by the dice they keep
/// and then by mask.
pub fn action_tie_key(state: &GameState, action: Action) -> (r: (u8, Vec<u8>, u8))
    ensures
        match action {
            Action::Score { category } => r.0 == 0 && r.1@ == seq![category.idx() as u8] && r.2 == 0,
            Action::Roll { hold_mask } => {
                &&& r.0 == 1
                &&& r.2 == hold_mask
                &&& r.1@ == match state.dice_of() {
                    Some(d) => if hold_mask < 32 {
                        kept_spec(d@, hold_mask, 5)
                    } else {
                        Seq::empty()
                    },
                    None => Seq::empty(),
                }
            },
        },
{
    match action {
        Action::Score { category } => (0, vec![category.index() as u8], 0),
        Action::Roll { hold_mask } => {
            let kept = match state.dice() {
                Some(dice) => match dice.kept_by_mask(hold_mask) {
                    Ok(k) => k,
                    Err(_) => Vec::new(),
                },
                None => Vec::new(),
            };
            (1, kept, hold_mask)
        },
    }
}

// ---------------------------------------------------------------------------
// Hold masks a heuristic player tries
// ---------------------------------------------------------------------------

/// The mask of the positions below `n` whose die is one of `faces`.
pub open spec fn faces_mask(v: Seq<u8>, faces: Seq<u8>, n: int) -> u8
    decreases n,
{
    if n <= 0 {
        0
    } else if faces.contains(v[n - 1]) {
        faces_mask(v, faces, n - 1) | (1u8 << ((n - 1) as u8))
    } else {
        faces_mask(v, faces, n - 1)
    }
}

/// The mask of the positions below `n` whose die is one of `faces` and
/// shows that face for the first time.
pub open spec fn one_each_mask(v: Seq<u8>, faces: Seq<u8>, n: int) -> u8
    decreases n,
{
    if n <= 0 {
        0
    } else if faces.contains(v[n - 1]) && !v.take(n - 1).contains(v[n - 1]) {
        one_each_mask(v, faces, n - 1) | (1u8 << ((n - 1) as u8))
    } else {
        one_each_mask(v, faces, n - 1)
    }
}

/// The mask of the positions below `n` whose die shows 5 or more.
pub open spec fn high_mask(v: Seq<u8>, n: int) -> u8
    decreases n,
{
    if n <= 0 {
        0
    } else if v[n - 1] >= 5 {
        high_mask(v, n - 1) | (1u8 << ((n - 1) as u8))
    } else {
        high_mask(v, n - 1)
    }
}

/// `ms` with `m` appended unless it is there already.
pub open spec fn push_unique(ms: Seq<u8>, m: u8) -> Seq<u8> {
    if ms.contains(m) {
        ms
    } else {
        ms.push(m)
    }
}

/// `acc` with each of `list` appended in turn unless it is there already.
pub open spec fn fold_unique(acc: Seq<u8>, list: Seq<u8>) -> Seq<u8>
    decreases list.len(),
{
    if list.len() == 0 {
        acc
    } else {
        push_unique(fold_unique(acc, list.drop_last()), list.last())
    }
}

/// The masks a heuristic player tries after keeping nothing and keeping
/// everything: each face on its own, one die of each face of the four- and
/// five-long straights, the fives and sixes, and each single die.
pub open spec fn hold_proposals(v: Seq<u8>) -> Seq<u8> {
    seq![
        faces_mask(v, seq![1u8], 5),
        faces_mask(v, seq![2u8], 5),
        faces_mask(v, seq![3u8], 5),
        faces_mask(v, seq![4u8], 5),
        faces_mask(v, seq![5u8], 5),
        faces_mask(v, seq![6u8], 5),
        one_each_mask(v, seq![1u8, 2u8, 3u8, 4u8], 5),
        one_each_mask(v, seq![2u8, 3u8, 4u8, 5u8], 5),
        one_each_mask(v, seq![3u8, 4u8, 5u8, 6u8], 5),
        one_each_mask(v, seq![1u8, 2u8, 3u8, 4u8, 5u8], 5),
        one_each_mask(v, seq![2u8, 3u8, 4u8, 5u8, 6u8], 5),
        high_mask(v, 5),
        1u8,
        2u8,
        4u8,
        8u8,
        16u8,
    ]
}

/// Whether `s` holds `x`.
pub fn slice_contains(s: &[u8], x: u8) -> (r: bool)
    ensures
        r == s@.contains(x),
{
    let mut i: usize = 0;
    while i < s.len()
        invariant
            i <= s@.len(),
            forall|j: int| 0 <= j < i ==> s@[j] != x,
        decreases s@.len() - i,
    {
        if s[i] == x {
            return true;
        }
        i += 1;
    }
    false
}

/// Appends `mask` unless `masks` holds it already.
pub fn push_unique_mask(masks: &mut Vec<u8>, mask: u8)
    ensures
        final(masks)@ == push_unique(old(masks)@, mask),
{
    if !slice_contains(masks.as_slice(), mask) {
        masks.push(mask);
    }
}

/// The mask of the dice showing one of `faces`.
pub fn mask_for_faces(values: &[u8; 5], faces: &[u8]) -> (r: u8)
    ensures
        r == faces_mask(values@, faces@, 5),
{
    let mut mask: u8 = 0;
    let mut i: u8 = 0;
    while i < 5
        invariant
            i <= 5,
            mask == faces_mask(values@, faces@, i as int),
        decreases 5 - i,
    {
        if slice_contains(faces, values[i as usize]) {
            mask = mask | (1u8 << i);
        }
        i += 1;
    }
    mask
}

/// The mask of one die of each of `faces` that shows, the first of each.
pub fn mask_for_one_each(values: &[u8; 5], faces: &[u8]) -> (r: u8)
    ensures
        r == one_each_mask(values@, faces@, 5),
{
    let mut used: Vec<u8> = Vec::new();
    let mut mask: u8 = 0;
    let mut i: u8 = 0;
    while i < 5
        invariant
            i <= 5,
            mask == one_each_mask(values@, faces@, i as int),
            forall|x: u8| #[trigger] used@.contains(x) <==> (faces@.contains(x) && values@.take(i as int).contains(x)),
        decreases 5 - i,
    {
        let value = values[i as usize];
        let ghost before = used@;
        assert(values@.take(i as int + 1) == values@.take(i as int).push(value));
        let fresh = slice_contains(faces, value) && !slice_contains(used.as_slice(), value);
        assert(fresh == (faces@.contains(value) && !values@.take(i as int).contains(value)));
        if fresh {
            used.push(value);
            mask = mask | (1u8 << i);
        }
        proof {
            assert forall|x: u8| #[trigger] used@.contains(x) <==> (faces@.contains(x) && values@.take(i as int + 1).contains(x)) by {
                if fresh {
                    assert(used@ == before.push(value));
                    if x != value {
                        if before.contains(x) {
                            let j = choose|j: int| 0 <= j < before.len() && #[trigger] before[j] == x;
                            assert(used@[j] == x);
                        }
                        if used@.contains(x) {
                            let j = choose|j: int| 0 <= j < used@.len() && #[trigger] used@[j] == x;
                            assert(j < before.len());
                            assert(before[j] == x);
                        }
                    } else {
                        assert(used@[used@.len() - 1] == value);
                    }
                }
                if values@.take(i as int + 1).contains(x) && x != value {
                    let j = choose|j: int| 0 <= j < i + 1 && #[trigger] values@.take(i as int + 1)[j] == x;
                    assert(values@.take(i as int)[j] == x);
                }
                if values@.take(i as int).contains(x) {
                    let j = choose|j: int| 0 <= j < i && #[trigger] values@.take(i as int)[j] == x;
                    assert(values@.take(i as int + 1)[j] == x);
                }
                assert(values@.take(i as int + 1)[i as int] == value);
            }
        }
        i += 1;
    }
    mask
}

/// The hold masks a heuristic player tries, each once, in the order of
/// `hold_proposals` after keeping nothing and keeping everything.
pub fn candidate_hold_masks(dice: Dice) -> (r: Vec<u8>)
    ensures
        r@ == fold_unique(seq![0u8, 31u8], hold_proposals(dice@)),
{
    let values = dice.values();
    let mut props: Vec<u8> = Vec::new();
    let mut face: u8 = 1;
    while face <= 6
        invariant
            1 <= face <= 7,
            values@ == dice@,
            props@.len() == face - 1,
            forall|j: int| 0 <= j < face - 1 ==> #[trigger] props@[j] == faces_mask(values@, seq![(j + 1) as u8], 5),
        decreases 7 - face,
    {
        let f = vec![face];
        assert(f@ == seq![face]);
        let m = mask_for_faces(&values, f.as_slice());
        props.push(m);
        assert(seq![face] == seq![((face - 1) + 1) as u8]);
        assert(props@[face - 1] == faces_mask(values@, seq![((face - 1) + 1) as u8], 5));
        face += 1;
    }
    let r1 = vec![1u8, 2u8, 3u8, 4u8];
    props.push(mask_for_one_each(&values, r1.as_slice()));
    let r2 = vec![2u8, 3u8, 4u8, 5u8];
    props.push(mask_for_one_each(&values, r2.as_slice()));
    let r3 = vec![3u8, 4u8, 5u8, 6u8];
    props.push(mask_for_one_each(&values, r3.as_slice()));
    let r4 = vec![1u8, 2u8, 3u8, 4u8, 5u8];
    props.push(mask_for_one_each(&values, r4.as_slice()));
    let r5 = vec![2u8, 3u8, 4u8, 5u8, 6u8];
    props.push(mask_for_one_each(&values, r5.as_slice()));
    let mut high: u8 = 0;
    let mut i: u8 = 0;
    while i < 5
        invariant
            i <= 5,
            high == high_mask(values@, i as int),
        decreases 5 - i,
    {
        if values[i as usize] >= 5 {
            high = high | (1u8 << i);
        }
        i += 1;
    }
    props.push(high);
    let mut index: u8 = 0;
    while index < 5
        invariant
            index <= 5,
            props@.len() == 12 + index,
            forall|j: int| 0 <= j < 12 ==> #[trigger] props@[j] == hold_proposals(dice@)[j],
            forall|j: int| 12 <= j < 12 + index ==> #[trigger] props@[j] == (1u8 << ((j - 12) as u8)),
        decreases 5 - index,
    {
        props.push(1u8 << index);
        index += 1;
    }
    proof {
        assert((1u8 << 0u8) == 1u8 && (1u8 << 1u8) == 2u8 && (1u8 << 2u8) == 4u8 && (1u8 << 3u8) == 8u8 && (1u8
            << 4u8) == 16u8) by (bit_vector);
        assert(props@[12] == (1u8 << 0u8));
        assert(props@[13] == (1u8 << 1u8));
        assert(props@[14] == (1u8 << 2u8));
        assert(props@[15] == (1u8 << 3u8));
        assert(props@[16] == (1u8 << 4u8));
        assert(props@ =~= hold_proposals(dice@));
    }
    let mut masks: Vec<u8> = vec![0u8, 31u8];
    let mut k: usize = 0;
    while k < props.len()
        invariant
            k <= props@.len(),
            masks@ == fold_unique(seq![0u8, 31u8], props@.take(k as int)),
        decreases props@.len() - k,
    {
        assert(props@.take(k as int + 1).drop_last() == props@.take(k as int));
        push_unique_mask(&mut masks, props[k]);
        k += 1;
    }
    assert(props@.take(props@.len() as int) == props@);
    masks
}

} // verus!
