//! The turn tables of the exact-table builder: for each of the 252 sorted
//! dice, its first-roll weight and its scores, and for each different hold
//! the dice a reroll can lead to with their weights.
use crate::candidates::{canonical_hold_masks, canonical_list};
use crate::category::{category_at, Category, Ruleset};
use crate::dice::{all_faces, canonical_at, kept_spec, later_count, sorted_faces, Dice};
use crate::distribution::{build_distributions, distribution_ok, multinomial, multinomial_weight, pow_nat, sum_weights};
use crate::rules::{base_spec, score_spec, Rules, ScoreResult};
use crate::sheet::ScoreSheet;
use crate::{KeiriError, UPPER_BONUS, UPPER_BONUS_THRESHOLD, YAHTZEE_BONUS};
use vstd::prelude::*;

verus! {

/// One sorted set of dice: how many ordered first rolls show it, and what
/// it scores in each category without and with Joker scores.
pub struct DenseDiceState {
    pub dice: Dice,
    pub first_roll_weight: u32,
    pub base_scores: [u16; 13],
    pub joker_scores: [u16; 13],
}

/// The outcomes of rerolling the dice that `hold_mask` does not keep: the
/// position of each resulting set of dice and the number of ordered rolls
/// that lead to it, out of `denominator`.
pub struct DenseHoldTransition {
    pub hold_mask: u8,
    pub denominator: u32,
    pub outcomes: Vec<(usize, u32)>,
}

/// The tables of all sorted dice and their holds, by position in
/// `Dice::all_canonical`.
pub struct DenseTurnTables {
    pub dice: Vec<DenseDiceState>,
    pub holds: Vec<Vec<DenseHoldTransition>>,
}

/// Whether `st` describes the `k`-th sorted dice.
pub open spec fn dice_state_ok(k: int, st: DenseDiceState) -> bool {
    &&& st.dice@ == canonical_at(k as nat)
    &&& st.first_roll_weight == multinomial(st.dice@)
    &&& forall|i: int|
        0 <= i < 13 ==> #[trigger] st.base_scores@[i] == base_spec(category_at(i), st.dice@, false)
            && st.joker_scores@[i] == base_spec(category_at(i), st.dice@, true)
}

/// Whether `h` lists the outcomes of rerolling the dice of `d` that its
/// mask does not keep: the roll outcomes of that many dice, in their order,
/// each as the position of the dice it leads to and its weight.
pub open spec fn transition_ok(d: Dice, h: DenseHoldTransition) -> bool {
    let kept = kept_spec(d@, h.hold_mask, 5);
    let n = (5 - kept.len()) as nat;
    &&& h.hold_mask < 32
    &&& h.denominator == six_pow(n)
    &&& outcome_weight_total(h.outcomes@) == h.denominator
    &&& exists|outcomes: Seq<(Vec<u8>, u32)>|
        distribution_ok(n, outcomes) && #[trigger] outcomes_follow(h.outcomes@, kept, outcomes)
}

/// The sum of the weights of a transition's outcomes.
pub open spec fn outcome_weight_total(o: Seq<(usize, u32)>) -> nat
    decreases o.len(),
{
    if o.len() == 0 {
        0
    } else {
        outcome_weight_total(o.drop_last()) + o.last().1 as nat
    }
}

/// Outcomes that follow a distribution carry its weights.
proof fn lemma_follow_weights(o: Seq<(usize, u32)>, kept: Seq<u8>, dist: Seq<(Vec<u8>, u32)>)
    requires
        outcomes_follow(o, kept, dist),
    ensures
        outcome_weight_total(o) == sum_weights(dist),
    decreases o.len(),
{
    if o.len() > 0 {
        let o1 = o.drop_last();
        let d1 = dist.drop_last();
        assert(outcomes_follow(o1, kept, d1)) by {
            assert forall|j: int| 0 <= j < d1.len() implies (#[trigger] o1[j]).0 == 251 - later_count(
                sorted_faces(kept + d1[j].0@),
            ) && o1[j].1 == d1[j].1 by {
                assert(o1[j] == o[j]);
                assert(d1[j] == dist[j]);
            }
        }
        lemma_follow_weights(o1, kept, d1);
        assert(o.last() == o[o.len() - 1]);
    }
}

proof fn lemma_six_pow(n: nat)
    ensures
        six_pow(n) == pow_nat(6, n),
    decreases n,
{
    if n > 0 {
        lemma_six_pow((n - 1) as nat);
    }
}

/// The hold masks of a list of transitions.
pub open spec fn transition_masks(hs: Seq<DenseHoldTransition>) -> Seq<u8> {
    Seq::new(hs.len(), |i: int| hs[i].hold_mask)
}

/// Whether the tables describe every sorted dice and, for each, one
/// transition per different set of kept dice.
pub open spec fn tables_ok(t: DenseTurnTables) -> bool {
    &&& t.dice@.len() == 252
    &&& t.holds@.len() == 252
    &&& forall|k: int| 0 <= k < 252 ==> dice_state_ok(k, #[trigger] t.dice@[k])
    &&& forall|k: int|
        0 <= k < 252 ==> canonical_list(t.dice@[k].dice, transition_masks((#[trigger] t.holds@[k])@))
    &&& forall|k: int, h: int|
        0 <= k < 252 && 0 <= h < t.holds@[k]@.len() ==> transition_ok(t.dice@[k].dice, #[trigger] t.holds@[k]@[h])
}

/// `6^n`.
pub open spec fn six_pow(n: nat) -> nat
    decreases n,
{
    if n == 0 {
        1
    } else {
        6 * six_pow((n - 1) as nat)
    }
}

/// `6^n`, computed.
pub fn pow6(n: usize) -> (r: u32)
    requires
        n <= 5,
    ensures
        r == six_pow(n as nat),
{
    let mut r: u32 = 1;
    let mut i: usize = 0;
    while i < n
        invariant
            i <= n,
            n <= 5,
            r == six_pow(i as nat),
            r == if i == 0 {
                1u32
            } else if i == 1 {
                6
            } else if i == 2 {
                36
            } else if i == 3 {
                216
            } else if i == 4 {
                1296
            } else {
                7776
            },
        decreases n - i,
    {
        assert(six_pow((i + 1) as nat) == 6 * six_pow(i as nat));
        r = r * 6;
        i += 1;
    }
    r
}

/// The scores of `d` in every category, without Joker scores and with them.
fn category_scores(d: Dice) -> (r: ([u16; 13], [u16; 13]))
    ensures
        forall|i: int|
            0 <= i < 13 ==> #[trigger] r.0@[i] == base_spec(category_at(i), d@, false) && r.1@[i] == base_spec(
                category_at(i),
                d@,
                true,
            ),
{
    proof {
        use_type_invariant(d);
    }
    let empty = ScoreSheet::new();
    proof {
        lemma_empty_points(empty, 6);
    }
    let mut base_scores = [0u16; 13];
    let mut joker_scores = [0u16; 13];
    let mut i: usize = 0;
    while i < 13
        invariant
            i <= 13,
            d.inv(),
            forall|c: Category| #[trigger] empty.score_of(c) is None,
            empty.upper_sum() == 0,
            forall|j: int| 0 <= j < i ==> #[trigger] base_scores@[j] == base_spec(category_at(j), d@, false),
            forall|j: int| 0 <= j < i ==> #[trigger] joker_scores@[j] == base_spec(category_at(j), d@, true),
        decreases 13 - i,
    {
        let category = Category::at(i);
        let base = Rules::score_with_ruleset(Ruleset::HasbroStrict, category, d, &empty).base_score;
        proof {
            crate::laws::law_score_at_most_max(category, d, false);
            assert(!empty.fifty());
            assert(base == base_spec(category, d@, false));
        }
        let ghost before_base = base_scores@;
        let ghost before_joker = joker_scores@;
        base_scores[i] = base;
        joker_scores[i] = match category {
            Category::FullHouse => 25,
            Category::SmallStraight => 30,
            Category::LargeStraight => 40,
            _ => base,
        };
        proof {
            assert(joker_scores@[i as int] == base_spec(category, d@, true));
            assert forall|j: int| 0 <= j < i + 1 implies #[trigger] base_scores@[j] == base_spec(category_at(j), d@, false) by {
                if j < i {
                    assert(base_scores@[j] == before_base[j]);
                }
            }
            assert forall|j: int| 0 <= j < i + 1 implies #[trigger] joker_scores@[j] == base_spec(category_at(j), d@, true) by {
                if j < i {
                    assert(joker_scores@[j] == before_joker[j]);
                }
            }
        }
        i += 1;
    }
    (base_scores, joker_scores)
}

proof fn lemma_empty_points(s: ScoreSheet, n: int)
    requires
        0 <= n <= 13,
        forall|c: Category| #[trigger] s.score_of(c) is None,
    ensures
        s.points_upto(n) == 0,
    decreases n,
{
    if n > 0 {
        lemma_empty_points(s, n - 1);
        assert(s.score_of(category_at(n - 1)) is None);
    }
}

/// Whether the outcomes `o` of a transition follow the roll outcomes `dist`
/// after keeping `kept`.
pub open spec fn outcomes_follow(o: Seq<(usize, u32)>, kept: Seq<u8>, dist: Seq<(Vec<u8>, u32)>) -> bool {
    &&& o.len() == dist.len()
    &&& forall|j: int|
        0 <= j < dist.len() ==> (#[trigger] o[j]).0 == 251 - later_count(sorted_faces(kept + dist[j].0@)) && o[j].1
            == dist[j].1
}

/// The table entry of `current`, the `k`-th sorted dice.
fn dice_state(k: usize, current: Dice) -> (r: DenseDiceState)
    requires
        current@ == canonical_at(k as nat),
    ensures
        dice_state_ok(k as int, r),
        r.dice == current,
{
    let counts = current.counts();
    proof {
        use_type_invariant(current);
        crate::dice::lemma_face_counts_total(current@);
        lemma_counts_total(current@, counts@);
        crate::distribution::lemma_count_fact_prod(current@, counts@, 6);
    }
    let weight = multinomial_weight(5, &counts);
    let (base_scores, joker_scores) = category_scores(current);
    DenseDiceState { dice: current, first_roll_weight: weight, base_scores, joker_scores }
}

/// The reroll outcomes of `current` when `mask` holds its dice.
fn hold_transition(current: Dice, mask: u8, distributions: &Vec<Vec<(Vec<u8>, u32)>>) -> (r: DenseHoldTransition)
    requires
        mask < 32,
        current.inv(),
        distributions@.len() == 6,
        forall|n: int| 0 <= n < 6 ==> distribution_ok(n as nat, (#[trigger] distributions@[n])@),
        forall|n: int| 0 <= n < 6 ==> sum_weights((#[trigger] distributions@[n])@) == pow_nat(6, n as nat),
    ensures
        transition_ok(current, r),
        r.hold_mask == mask,
{
    proof {
        crate::dice::lemma_kept_len(current@, mask, 5);
    }
    let kept = match current.kept_by_mask(mask) {
        Ok(k) => k,
        Err(_) => Vec::new(),
    };
    let rerolled = 5 - kept.len();
    let denominator = pow6(rerolled);
    let dist = &distributions[rerolled];
    let mut outcomes: Vec<(usize, u32)> = Vec::new();
    let mut j: usize = 0;
    while j < dist.len()
        invariant
            j <= dist@.len(),
            rerolled <= 5,
            kept@.len() + rerolled == 5,
            all_faces(kept@),
            distribution_ok(rerolled as nat, dist@),
            outcomes@.len() == j,
            forall|i: int|
                0 <= i < j ==> (#[trigger] outcomes@[i]).0 == 251 - later_count(sorted_faces(kept@ + dist@[i].0@))
                    && outcomes@[i].1 == dist@[i].1,
        decreases dist@.len() - j,
    {
        let rolled = &dist[j].0;
        let weight = dist[j].1;
        assert(crate::distribution::outcome_ok(rerolled as nat, dist@[j as int]));
        let mut faces = kept.clone();
        let mut extra = rolled.clone();
        faces.append(&mut extra);
        proof {
            assert(faces@ == kept@ + rolled@) by {
                assert(faces@ =~= kept@ + rolled@);
            }
            assert forall|i: int| 0 <= i < faces@.len() implies crate::dice::is_face(#[trigger] faces@[i]) by {
                if i < kept@.len() {
                    assert(faces@[i] == kept@[i]);
                } else {
                    assert(faces@[i] == rolled@[i - kept@.len()]);
                }
            }
        }
        let next = match Dice::from_slice(faces.as_slice()) {
            Ok(d) => d,
            Err(_) => current,
        };
        let id = next.canonical_index();
        let ghost old_outcomes = outcomes@;
        outcomes.push((id, weight));
        proof {
            assert forall|i: int| 0 <= i < j + 1 implies (#[trigger] outcomes@[i]).0 == 251 - later_count(
                sorted_faces(kept@ + dist@[i].0@),
            ) && outcomes@[i].1 == dist@[i].1 by {
                if i < j {
                    assert(outcomes@[i] == old_outcomes[i]);
                }
            }
        }
        j += 1;
    }
    let transition = DenseHoldTransition { hold_mask: mask, denominator, outcomes };
    proof {
        assert(outcomes_follow(transition.outcomes@, kept@, dist@));
        assert(kept@ == kept_spec(current@, mask, 5));
        lemma_follow_weights(transition.outcomes@, kept@, dist@);
        lemma_six_pow(rerolled as nat);
        assert(sum_weights(dist@) == pow_nat(6, rerolled as nat));
    }
    transition
}

impl DenseTurnTables {
    /// The tables of all 252 sorted dice.
    ///
    /// No map from dice to positions or to first-roll weights is kept: the
    /// position of a set of sorted dice is computed by `canonical_index`
    /// (its rank among all sorted dice) and its first-roll weight by the
    /// multinomial formula, both proved equal to what such a map would hold,
    /// so each lookup is a proved computation rather than a search.
    pub fn new() -> (r: Result<Self, KeiriError>)
        ensures
            r is Ok && tables_ok(r->Ok_0),
    {
        let canonical = Dice::all_canonical();
        let distributions = build_distributions();
        let mut dice: Vec<DenseDiceState> = Vec::new();
        let mut holds: Vec<Vec<DenseHoldTransition>> = Vec::new();
        let mut k: usize = 0;
        while k < 252
            invariant
                k <= 252,
                canonical@.len() == 252,
                forall|j: int| 0 <= j < 252 ==> (#[trigger] canonical@[j])@ == canonical_at(j as nat),
                distributions@.len() == 6,
                forall|n: int| 0 <= n < 6 ==> distribution_ok(n as nat, (#[trigger] distributions@[n])@),
                forall|n: int| 0 <= n < 6 ==> sum_weights((#[trigger] distributions@[n])@) == pow_nat(6, n as nat),
                dice@.len() == k,
                holds@.len() == k,
                forall|j: int| 0 <= j < k ==> dice_state_ok(j, #[trigger] dice@[j]),
                forall|j: int| 0 <= j < k ==> canonical_list(dice@[j].dice, transition_masks((#[trigger] holds@[j])@)),
                forall|j: int, h: int|
                    0 <= j < k && 0 <= h < holds@[j]@.len() ==> transition_ok(dice@[j].dice, #[trigger] holds@[j]@[h]),
            decreases 252 - k,
        {
            let current = canonical[k];
            proof {
                use_type_invariant(current);
            }
            let state = dice_state(k, current);
            let ghost old_dice = dice@;
            dice.push(state);
            proof {
                assert forall|j: int| 0 <= j < k + 1 implies dice_state_ok(j, #[trigger] dice@[j]) by {
                    if j < k {
                        assert(dice@[j] == old_dice[j]);
                    }
                }
            }
            let masks = canonical_hold_masks(current);
            let mut transitions: Vec<DenseHoldTransition> = Vec::new();
            let mut h: usize = 0;
            while h < masks.len()
                invariant
                    h <= masks@.len(),
                    transitions@.len() == h,
                    distributions@.len() == 6,
                    forall|n: int| 0 <= n < 6 ==> distribution_ok(n as nat, (#[trigger] distributions@[n])@),
                    forall|n: int| 0 <= n < 6 ==> sum_weights((#[trigger] distributions@[n])@) == pow_nat(6, n as nat),
                    current.inv(),
                    forall|i: int| 0 <= i < h ==> (#[trigger] transitions@[i]).hold_mask == masks@[i],
                    forall|i: int| 0 <= i < h ==> transition_ok(current, #[trigger] transitions@[i]),
                    canonical_list(current, masks@),
                decreases masks@.len() - h,
            {
                let mask = masks[h];
                proof {
                    reveal(crate::candidates::canonical_below);
                    assert(crate::candidates::is_canonical_mask(current, masks@[h as int]));
                }
                let transition = hold_transition(current, mask, &distributions);
                let ghost old_transitions = transitions@;
                transitions.push(transition);
                proof {
                    assert forall|i: int| 0 <= i < h + 1 implies transition_ok(current, #[trigger] transitions@[i]) by {
                        if i < h {
                            assert(transitions@[i] == old_transitions[i]);
                        }
                    }
                    assert forall|i: int| 0 <= i < h + 1 implies (#[trigger] transitions@[i]).hold_mask == masks@[i] by {
                        if i < h {
                            assert(transitions@[i] == old_transitions[i]);
                        }
                    }
                }
                h += 1;
            }
            proof {
                assert(transition_masks(transitions@) =~= masks@);
            }
            holds.push(transitions);
            k += 1;
        }
        Ok(DenseTurnTables { dice, holds })
    }

    /// What scoring the `dice_id`-th sorted dice in `category` adds to
    /// `sheet`, read from the tables.
    pub fn score_result(&self, ruleset: Ruleset, sheet: &ScoreSheet, dice_id: usize, category: Category) -> (r:
        ScoreResult)
        requires
            tables_ok(*self),
            dice_id < 252,
            sheet.upper_sum() <= u16::MAX - 50,
        ensures
            r == score_spec(ruleset, category, self.dice@[dice_id as int].dice@, *sheet),
    {
        let state = &self.dice[dice_id];
        proof {
            assert(dice_state_ok(dice_id as int, self.dice@[dice_id as int]));
            crate::category::lemma_category_index_roundtrip(category, category.idx());
            use_type_invariant(state.dice);
            crate::laws::law_score_at_most_max(category, state.dice, true);
            crate::laws::law_score_at_most_max(category, state.dice, false);
        }
        let joker_active = crate::anchor::dense_joker_active_with_ruleset(ruleset, state.dice, sheet);
        let index = category.index();
        proof {
            assert(category_at(index as int) == category);
            assert(state.base_scores@[index as int] == base_spec(category, state.dice@, false));
            assert(state.joker_scores@[index as int] == base_spec(category, state.dice@, true));
            assert(crate::rules::max_base(category) <= 50);
        }
        let base_score = if joker_active {
            state.joker_scores[index]
        } else {
            state.base_scores[index]
        };
        assert(base_score <= 50);
        let yahtzee_bonus = if state.dice.is_yahtzee() && sheet.yahtzee_scored_50() {
            YAHTZEE_BONUS
        } else {
            0
        };
        let upper_before = sheet.upper_subtotal();
        let upper_bonus = if category.is_upper() && upper_before < UPPER_BONUS_THRESHOLD && upper_before + base_score
            >= UPPER_BONUS_THRESHOLD {
            UPPER_BONUS
        } else {
            0
        };
        ScoreResult {
            category,
            base_score,
            yahtzee_bonus,
            upper_bonus,
            total_delta: base_score + yahtzee_bonus + upper_bonus,
        }
    }
}

proof fn lemma_counts_total(d: Seq<u8>, c: Seq<u8>)
    requires
        c.len() == 7,
        forall|f: int| 0 <= f < 7 ==> #[trigger] c[f] == crate::dice::face_count(d, f as u8),
        crate::dice::at_most(d, 5) + crate::dice::face_count(d, 6) == d.len(),
    ensures
        crate::distribution::prefix_total(c, 6) == d.len(),
{
    assert(c[1] == crate::dice::face_count(d, 1));
    assert(c[2] == crate::dice::face_count(d, 2));
    assert(c[3] == crate::dice::face_count(d, 3));
    assert(c[4] == crate::dice::face_count(d, 4));
    assert(c[5] == crate::dice::face_count(d, 5));
    assert(c[6] == crate::dice::face_count(d, 6));
    reveal_with_fuel(crate::distribution::prefix_total, 7);
}

} // verus!
