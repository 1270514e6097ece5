//! The key space of the exact table: which categories are filled, the upper
//! subtotal capped at the bonus threshold, and the state of the Yahtzee box;
//! and a representative score sheet for every reachable key.
use crate::category::{category_at, Category, Ruleset};
use crate::dice::Dice;
use crate::rules::{joker_spec, legal_spec, valid_recorded, Rules};
use crate::sheet::{lemma_bits_determine, lemma_or_bit, lemma_zero_mask, mask_bit, ScoreSheet};
use vstd::prelude::*;

verus! {

/// What the Yahtzee box holds, as far as the future of a game depends on it.
#[derive(Debug, Clone, Copy, PartialEq, Eq, Hash, Structural)]
pub enum AnchorYahtzeeState {
    Open,
    Zero,
    Fifty,
}

pub open spec fn ystate_num(s: AnchorYahtzeeState) -> nat {
    match s {
        AnchorYahtzeeState::Open => 0,
        AnchorYahtzeeState::Zero => 1,
        AnchorYahtzeeState::Fifty => 2,
    }
}

impl AnchorYahtzeeState {
    pub fn to_u8(self) -> (r: u8)
        ensures
            r == ystate_num(self),
    {
        match self {
            AnchorYahtzeeState::Open => 0,
            AnchorYahtzeeState::Zero => 1,
            AnchorYahtzeeState::Fifty => 2,
        }
    }

    pub fn from_u8(value: u8) -> (r: Option<Self>)
        ensures
            value < 3 ==> r is Some && ystate_num(r->0) == value,
            value >= 3 ==> r is None,
    {
        match value {
            0 => Some(AnchorYahtzeeState::Open),
            1 => Some(AnchorYahtzeeState::Zero),
            2 => Some(AnchorYahtzeeState::Fifty),
            _ => None,
        }
    }

    /// The name under which the state is printed.
    pub fn name(self) -> (r: &'static str)
        ensures
            r@ == match self {
                AnchorYahtzeeState::Open => "open"@,
                AnchorYahtzeeState::Zero => "zero"@,
                AnchorYahtzeeState::Fifty => "fifty"@,
            },
    {
        match self {
            AnchorYahtzeeState::Open => "open",
            AnchorYahtzeeState::Zero => "zero",
            AnchorYahtzeeState::Fifty => "fifty",
        }
    }
}

/// The Yahtzee-box state of a sheet whose Yahtzee box is open, 0 or 50.
pub open spec fn ystate_of(sheet: ScoreSheet) -> AnchorYahtzeeState {
    match sheet.score_of(Category::Yahtzee) {
        None => AnchorYahtzeeState::Open,
        Some(v) => if v == 50 {
            AnchorYahtzeeState::Fifty
        } else {
            AnchorYahtzeeState::Zero
        },
    }
}

/// A start-of-turn key of the exact table.
#[derive(Debug, Clone, Copy, PartialEq, Eq, Hash, Structural)]
pub struct AnchorKey {
    pub filled_mask: u16,
    pub upper_subtotal_capped: u8,
    pub yahtzee_state: AnchorYahtzeeState,
}

/// Number of masks, capped subtotals and Yahtzee-box states.
pub const ANCHOR_MASK_COUNT: usize = 8192;
pub const ANCHOR_UPPER_COUNT: usize = 64;
pub const ANCHOR_YAHTZEE_STATE_COUNT: usize = 3;
/// Number of entries of the exact table.
pub const ANCHOR_VALUE_COUNT: usize = 1572864;

/// Whether `k` is the key of `sheet`: bit `i` of the mask set exactly when
/// category `i` is filled, the upper subtotal capped at 63, and the
/// Yahtzee-box state.
pub open spec fn is_key_of(k: AnchorKey, sheet: ScoreSheet) -> bool {
    &&& k.filled_mask < 8192
    &&& forall|i: int| 0 <= i < 13 ==> (#[trigger] mask_bit(k.filled_mask, i) <==> sheet.filled(category_at(i)))
    &&& k.upper_subtotal_capped == if sheet.upper_sum() >= 63 {
        63
    } else {
        sheet.upper_sum()
    }
    &&& k.yahtzee_state == ystate_of(sheet)
}

/// The position of a key in the exact table.
pub open spec fn key_index(k: AnchorKey) -> nat {
    ((k.filled_mask as nat) * 64 + (k.upper_subtotal_capped as nat)) * 3 + ystate_num(
        k.yahtzee_state,
    )
}

impl AnchorKey {
    /// The key of a sheet: its filled categories, its upper subtotal capped
    /// at 63 and the state of its Yahtzee box.
    pub fn from_sheet(sheet: &ScoreSheet) -> (r: Self)
        requires
            sheet.upper_sum() <= u16::MAX,
        ensures
            is_key_of(r, *sheet),
    {
        let yahtzee_state = match sheet.score(Category::Yahtzee) {
            None => AnchorYahtzeeState::Open,
            Some(v) => if v == 50 {
                AnchorYahtzeeState::Fifty
            } else {
                AnchorYahtzeeState::Zero
            },
        };
        AnchorKey {
            filled_mask: sheet.filled_mask(),
            upper_subtotal_capped: sheet.upper_subtotal_capped(),
            yahtzee_state,
        }
    }

    /// The position of the key in the exact table; within the table for a
    /// key of thirteen category bits and a capped subtotal below 64.
    pub fn index(self) -> (r: usize)
        ensures
            r == key_index(self),
            self.filled_mask < 8192 && self.upper_subtotal_capped < 64 ==> r < ANCHOR_VALUE_COUNT,
    {
        assert(ystate_num(self.yahtzee_state) < 3);
        ((self.filled_mask as usize) * 64 + (self.upper_subtotal_capped as usize)) * 3
            + (self.yahtzee_state.to_u8() as usize)
    }

    /// Whether the key has `category` filled.
    pub fn has_category(self, category: Category) -> (r: bool)
        ensures
            r == mask_bit(self.filled_mask, category.idx()),
    {
        (self.filled_mask >> (category.index() as u16)) & 1 == 1
    }
}

/// Distinct keys of the table's range have distinct positions.
pub proof fn law_key_index_injective(a: AnchorKey, b: AnchorKey)
    requires
        a.filled_mask < 8192,
        a.upper_subtotal_capped < 64,
        b.filled_mask < 8192,
        b.upper_subtotal_capped < 64,
        key_index(a) == key_index(b),
    ensures
        a == b,
{
    let ya = ystate_num(a.yahtzee_state);
    let yb = ystate_num(b.yahtzee_state);
    let ua = a.upper_subtotal_capped as nat;
    let ub = b.upper_subtotal_capped as nat;
    let ma = a.filled_mask as nat;
    let mb = b.filled_mask as nat;
    assert(ya == yb && ua == ub && ma == mb) by (nonlinear_arith)
        requires
            ((ma * 64 + ua) * 3 + ya) == ((mb * 64 + ub) * 3 + yb),
            ya < 3,
            yb < 3,
            ua < 64,
            ub < 64,
    ;
    assert(a.yahtzee_state == b.yahtzee_state);
}

// ---------------------------------------------------------------------------
// Upper scores for a capped subtotal
// ---------------------------------------------------------------------------

/// Whether bit `i` of a six-bit upper mask is set.
pub open spec fn ubit(mask: u8, i: int) -> bool {
    (mask >> (i as u8)) & 1u8 == 1u8
}

/// Whether the subtotal `cur` meets a capped target: at least 63 for 63,
/// exactly the target below it.
pub open spec fn meets_target(target: u8, cur: int) -> bool {
    if target == 63 {
        cur >= 63
    } else {
        cur == target
    }
}

/// Whether upper categories `i..6`, those set in `mask` each scoring 0 to 5
/// times their face and the others 0, can bring `cur` to the target.
pub open spec fn completable(mask: u8, target: u8, i: int, cur: int) -> bool
    decreases 6 - i,
{
    if i >= 6 {
        meets_target(target, cur)
    } else if !ubit(mask, i) {
        completable(mask, target, i + 1, cur)
    } else {
        let f = i + 1;
        completable(mask, target, i + 1, cur) || completable(mask, target, i + 1, cur + f)
            || completable(mask, target, i + 1, cur + 2 * f) || completable(
            mask,
            target,
            i + 1,
            cur + 3 * f,
        ) || completable(mask, target, i + 1, cur + 4 * f) || completable(
            mask,
            target,
            i + 1,
            cur + 5 * f,
        )
    }
}

/// Sum of `s[i..6]`.
pub open spec fn sum_from(s: Seq<u16>, i: int) -> int
    decreases 6 - i,
{
    if i >= 6 {
        0
    } else {
        s[i] + sum_from(s, i + 1)
    }
}

/// Whether `s[i..6]` are upper scores for `mask` that bring `cur` to the
/// target.
pub open spec fn assignment_from(mask: u8, target: u8, i: int, cur: int, s: Seq<u16>) -> bool {
    &&& forall|j: int|
        i <= j < 6 ==> if ubit(mask, j) {
            (#[trigger] s[j]) <= 5 * (j + 1) && s[j] % ((j + 1) as u16) == 0
        } else {
            s[j] == 0
        }
    &&& meets_target(target, cur + sum_from(s, i))
}

/// Whether each upper score of `s[i..6]` uses the fewest dice of its face
/// that still let the later categories reach the target.
pub open spec fn fewest_from(mask: u8, target: u8, i: int, cur: int, s: Seq<u16>) -> bool
    decreases 6 - i,
{
    if i >= 6 {
        true
    } else {
        &&& ubit(mask, i) ==> forall|c: int|
            0 <= c && c * (i + 1) < s[i] ==> !#[trigger] tried(mask, target, i, cur, c)
        &&& fewest_from(mask, target, i + 1, cur + s[i], s)
    }
}

proof fn lemma_sum_from_frame(a: Seq<u16>, b: Seq<u16>, i: int)
    requires
        a.len() == 6,
        b.len() == 6,
        0 <= i <= 6,
        forall|j: int| i <= j < 6 ==> a[j] == b[j],
    ensures
        sum_from(a, i) == sum_from(b, i),
    decreases 6 - i,
{
    if i < 6 {
        lemma_sum_from_frame(a, b, i + 1);
    }
}

/// The highest upper subtotal of the categories before position `i`.
pub open spec fn max_before(i: int) -> int {
    if i <= 0 {
        0
    } else if i == 1 {
        5
    } else if i == 2 {
        15
    } else if i == 3 {
        30
    } else if i == 4 {
        50
    } else if i == 5 {
        75
    } else {
        105
    }
}

/// Whether scoring `c` times the face of category `i` can be completed.
pub open spec fn tried(mask: u8, target: u8, i: int, cur: int, c: int) -> bool {
    completable(mask, target, i + 1, cur + c * (i + 1))
}

proof fn lemma_tried_completes(mask: u8, target: u8, i: int, cur: int, c: int)
    requires
        0 <= i < 6,
        0 <= c <= 5,
        ubit(mask, i),
        tried(mask, target, i, cur, c),
    ensures
        completable(mask, target, i, cur),
{
    let f = i + 1;
    if c == 0 {
        assert(c * f == 0 * f) by (nonlinear_arith)
            requires
                c == 0,
        ;
    } else if c == 1 {
        assert(c * f == 1 * f) by (nonlinear_arith)
            requires
                c == 1,
        ;
    } else if c == 2 {
        assert(c * f == 2 * f) by (nonlinear_arith)
            requires
                c == 2,
        ;
    } else if c == 3 {
        assert(c * f == 3 * f) by (nonlinear_arith)
            requires
                c == 3,
        ;
    } else if c == 4 {
        assert(c * f == 4 * f) by (nonlinear_arith)
            requires
                c == 4,
        ;
    } else {
        assert(c * f == 5 * f) by (nonlinear_arith)
            requires
                c == 5,
        ;
    }
}

fn walk(index: usize, mask: u8, target: u8, scores: &mut [u16; 6], current: u16) -> (r: bool)
    requires
        index <= 6,
        current <= max_before(index as int),
    ensures
        r == completable(mask, target, index as int, current as int),
        r ==> assignment_from(mask, target, index as int, current as int, final(scores)@),
        r ==> fewest_from(mask, target, index as int, current as int, final(scores)@),
        forall|j: int| 0 <= j < index ==> final(scores)@[j] == old(scores)@[j],
    decreases 6 - index,
{
    if index == 6 {
        if target == 63 {
            return current >= 63;
        } else {
            return current == target as u16;
        }
    }
    if (mask >> (index as u8)) & 1 != 1 {
        scores[index] = 0;
        let ghost mid = scores@;
        let r = walk(index + 1, mask, target, scores, current);
        proof {
            if r {
                lemma_sum_from_frame(scores@, scores@, index as int);
                assert(scores@[index as int] == 0);
            }
        }
        return r;
    }
    let face = (index + 1) as u16;
    let mut count: u16 = 0;
    while count <= 5
        invariant
            index < 6,
            face == index + 1,
            count <= 6,
            current <= max_before(index as int),
            ubit(mask, index as int),
            forall|c: int| 0 <= c < count ==> !#[trigger] tried(mask, target, index as int, current as int, c),
            forall|j: int| 0 <= j < index ==> scores@[j] == old(scores)@[j],
        decreases 6 - count,
    {
        assert(count * face <= 5 * face) by (nonlinear_arith)
            requires
                count <= 5,
        ;
        let score = count * face;
        scores[index] = score;
        let found = walk(index + 1, mask, target, scores, current + score);
        assert(found == tried(mask, target, index as int, current as int, count as int));
        if found {
            proof {
                lemma_tried_completes(mask, target, index as int, current as int, count as int);
                assert(scores@[index as int] == score);
                assert forall|c: int| 0 <= c && c * face < scores@[index as int] implies !#[trigger] tried(
                    mask,
                    target,
                    index as int,
                    current as int,
                    c,
                ) by {
                    assert(c < count) by (nonlinear_arith)
                        requires
                            c * face < count * face,
                            face > 0,
                            c >= 0,
                    ;
                }
                assert(fewest_from(mask, target, index as int, current as int, scores@));
            }
            proof {
                assert(scores@[index as int] == score);
                assert(score % face == 0) by (nonlinear_arith)
                    requires
                        score == count * face,
                        face > 0,
                ;
                assert(score <= 5 * face) by (nonlinear_arith)
                    requires
                        score == count * face,
                        count <= 5,
                ;
            }
            return true;
        }
        count += 1;
    }
    assert(!tried(mask, target, index as int, current as int, 0));
    assert(!tried(mask, target, index as int, current as int, 1));
    assert(!tried(mask, target, index as int, current as int, 2));
    assert(!tried(mask, target, index as int, current as int, 3));
    assert(!tried(mask, target, index as int, current as int, 4));
    assert(!tried(mask, target, index as int, current as int, 5));
    assert(!completable(mask, target, index as int, current as int));
    false
}

/// Upper scores for the categories of a six-bit `upper_mask` whose sum meets
/// the capped subtotal.
pub fn find_upper_scores(upper_mask: u8, subtotal_capped: u8) -> (r: Option<[u16; 6]>)
    ensures
        r is None <==> !completable(upper_mask, subtotal_capped, 0, 0),
        r is Some ==> assignment_from(upper_mask, subtotal_capped, 0, 0, r->0@),
        r is Some ==> fewest_from(upper_mask, subtotal_capped, 0, 0, r->0@),
{
    let mut scores: [u16; 6] = [0; 6];
    if walk(0, upper_mask, subtotal_capped, &mut scores, 0) {
        Some(scores)
    } else {
        None
    }
}


/// A sheet has exactly one key.
pub proof fn law_key_of_unique(a: AnchorKey, b: AnchorKey, sheet: ScoreSheet)
    requires
        is_key_of(a, sheet),
        is_key_of(b, sheet),
    ensures
        a == b,
{
    lemma_bits_determine(a.filled_mask, b.filled_mask);
}

// ---------------------------------------------------------------------------
// Category masks
// ---------------------------------------------------------------------------

/// The mask with only the bit of `category`.
pub fn category_bit(category: Category) -> (r: u16)
    ensures
        forall|j: int| 0 <= j < 16 ==> #[trigger] mask_bit(r, j) == (j == category.idx()),
        r < 8192,
{
    let i = category.index() as u16;
    proof {
        lemma_or_bit(0u16, i);
        lemma_zero_mask();
        assert((0u16 | (1u16 << i)) == (1u16 << i)) by (bit_vector);
        assert((1u16 << i) < 8192) by (bit_vector)
            requires
                i < 13,
        ;
    }
    1u16 << i
}

/// The mask of the given categories.
pub fn category_mask(categories: &[Category]) -> (r: u16)
    ensures
        forall|j: int| 0 <= j < 16 ==> #[trigger] mask_bit(r, j) == (j < 13 && categories@.contains(category_at(j))),
{
    let mut mask: u16 = 0;
    let mut k: usize = 0;
    proof {
        lemma_zero_mask();
    }
    while k < categories.len()
        invariant
            k <= categories@.len(),
            forall|j: int| 0 <= j < 16 ==> #[trigger] mask_bit(mask, j) == (j < 13 && categories@.take(k as int).contains(category_at(j))),
        decreases categories.len() - k,
    {
        let c = categories[k];
        let b = category_bit(c);
        proof {
            lemma_or_bit(mask, c.idx() as u16);
            assert((mask | b) == (mask | (1u16 << (c.idx() as u16)))) by {
                lemma_bits_eq_shift(b, c.idx() as u16);
            }
        }
        let ghost prev = mask;
        mask = mask | b;
        proof {
            assert forall|j: int| 0 <= j < 16 implies #[trigger] mask_bit(mask, j) == (j < 13 && categories@.take(k as int + 1).contains(category_at(j))) by {
                assert(categories@.take(k as int + 1) =~= categories@.take(k as int).push(c));
                crate::category::lemma_category_index_roundtrip(c, j);
                if j < 13 && category_at(j) == c {
                    assert(categories@.take(k as int + 1)[k as int] == c);
                }
                if categories@.take(k as int + 1).contains(category_at(j)) && !categories@.take(k as int).contains(category_at(j)) {
                    let w = choose|w: int| 0 <= w < k + 1 && #[trigger] categories@.take(k as int + 1)[w] == category_at(j);
                    if w < k {
                        assert(categories@.take(k as int)[w] == category_at(j));
                    }
                }
            }
        }
        k += 1;
    }
    assert(categories@.take(categories@.len() as int) =~= categories@);
    mask
}

/// The only bit of `b` is bit `i`, so `b` is `1 << i`.
proof fn lemma_bits_eq_shift(b: u16, i: u16)
    requires
        i < 13,
        forall|j: int| 0 <= j < 16 ==> #[trigger] mask_bit(b, j) == (j == i),
    ensures
        b == 1u16 << i,
{
    lemma_or_bit(0u16, i);
    lemma_zero_mask();
    assert((0u16 | (1u16 << i)) == (1u16 << i)) by (bit_vector);
    assert((1u16 << i) < 8192) by (bit_vector)
        requires
            i < 13,
    ;
    assert(mask_bit(b, 13) == mask_bit(1u16 << i, 13));
    assert(mask_bit(b, 14) == mask_bit(1u16 << i, 14));
    assert(mask_bit(b, 15) == mask_bit(1u16 << i, 15));
    assert(b < 8192) by (bit_vector)
        requires
            (b >> 13u16) & 1u16 != 1u16,
            (b >> 14u16) & 1u16 != 1u16,
            (b >> 15u16) & 1u16 != 1u16,
    ;
    lemma_bits_determine(b, 1u16 << i);
}

/// The mask of the open categories of a sheet.
pub fn remaining_category_mask(sheet: &ScoreSheet) -> (r: u16)
    ensures
        forall|j: int| 0 <= j < 16 ==> #[trigger] mask_bit(r, j) == (j < 13 && !sheet.filled(category_at(j))),
{
    let mut mask: u16 = 0;
    let mut i: usize = 0;
    proof {
        lemma_zero_mask();
    }
    while i < 13
        invariant
            i <= 13,
            forall|j: int| 0 <= j < 16 ==> #[trigger] mask_bit(mask, j) == (j < i && !sheet.filled(category_at(j))),
        decreases 13 - i,
    {
        let c = Category::at(i);
        if !sheet.is_filled(c) {
            let b = category_bit(c);
            proof {
                lemma_or_bit(mask, i as u16);
                lemma_bits_eq_shift(b, i as u16);
            }
            mask = mask | b;
        }
        i += 1;
    }
    mask
}

/// The legal categories for dice on a sheet, as a mask.
pub fn dense_legal_category_mask(ruleset: Ruleset, sheet: &ScoreSheet, dice: Dice) -> (r: u16)
    ensures
        forall|j: int| 0 <= j < 13 ==> #[trigger] mask_bit(r, j) == legal_spec(ruleset, dice@, *sheet).contains(category_at(j)),
{
    let legal = Rules::legal_score_categories_with_ruleset(ruleset, sheet, dice);
    category_mask(legal.as_slice())
}

/// Whether Joker scores apply.
pub fn dense_joker_active_with_ruleset(ruleset: Ruleset, dice: Dice, sheet: &ScoreSheet) -> (r: bool)
    ensures
        r == joker_spec(ruleset, dice@, *sheet),
{
    Rules::joker_active_with_ruleset(ruleset, dice, sheet)
}

/// Whether `k` is the key of `sheet` once `base` is scored in `category`:
/// that category filled besides the filled ones, the upper subtotal grown by
/// an upper score and capped at 63, and the Yahtzee box as scored.
pub open spec fn next_key_ok(sheet: ScoreSheet, category: Category, base: u16, k: AnchorKey) -> bool {
    &&& k.filled_mask < 8192
    &&& forall|i: int|
        0 <= i < 13 ==> (#[trigger] mask_bit(k.filled_mask, i) <==> (sheet.filled(category_at(i)) || i
            == category.idx()))
    &&& k.upper_subtotal_capped == {
        let u = sheet.upper_sum() + if category.upper() {
            base as nat
        } else {
            0
        };
        if u >= 63 {
            63
        } else {
            u
        }
    }
    &&& k.yahtzee_state == if category == Category::Yahtzee {
        if base == 50 {
            AnchorYahtzeeState::Fifty
        } else {
            AnchorYahtzeeState::Zero
        }
    } else {
        ystate_of(sheet)
    }
}

/// The key after scoring `base` in the open `category`.
pub fn dense_next_anchor_key(sheet: &ScoreSheet, category: Category, base_score: u16) -> (r: AnchorKey)
    requires
        sheet.upper_sum() + base_score <= u16::MAX,
    ensures
        next_key_ok(*sheet, category, base_score, r),
{
    let current = AnchorKey::from_sheet(sheet);
    let yahtzee_state = if category == Category::Yahtzee {
        if base_score == 50 {
            AnchorYahtzeeState::Fifty
        } else {
            AnchorYahtzeeState::Zero
        }
    } else {
        current.yahtzee_state
    };
    let upper_subtotal_capped = if category.is_upper() {
        let u = sheet.upper_subtotal() + base_score;
        if u >= 63 {
            63
        } else {
            u as u8
        }
    } else {
        current.upper_subtotal_capped
    };
    let b = category_bit(category);
    proof {
        lemma_or_bit(current.filled_mask, category.idx() as u16);
        lemma_bits_eq_shift(b, category.idx() as u16);
        let m = current.filled_mask;
        let i = category.idx() as u16;
        assert((m | (1u16 << i)) < 8192) by (bit_vector)
            requires
                m < 8192,
                i < 13,
        ;
    }
    AnchorKey { filled_mask: current.filled_mask | b, upper_subtotal_capped, yahtzee_state }
}

// ---------------------------------------------------------------------------
// A sheet for every reachable key
// ---------------------------------------------------------------------------

/// Whether a cache entry for upper mask `m` and capped subtotal `t` is right.
pub open spec fn entry_ok(m: u8, t: u8, e: Option<[u16; 6]>) -> bool {
    &&& (e is None <==> !completable(m, t, 0, 0))
    &&& (e is Some ==> assignment_from(m, t, 0, 0, e->0@))
}

/// Whether `cache[m][t]` holds upper scores for every six-bit mask `m` and
/// capped subtotal `t`.
pub open spec fn cache_ok(cache: Seq<Vec<Option<[u16; 6]>>>) -> bool {
    &&& cache.len() == 64
    &&& forall|m: int| 0 <= m < 64 ==> (#[trigger] cache[m])@.len() == 64
    &&& forall|m: int, t: int|
        0 <= m < 64 && 0 <= t < 64 ==> entry_ok(m as u8, t as u8, #[trigger] cache[m]@[t])
}

/// Upper scores for every six-bit mask and capped subtotal.
pub fn build_upper_score_cache() -> (r: Vec<Vec<Option<[u16; 6]>>>)
    ensures
        cache_ok(r@),
{
    let mut cache: Vec<Vec<Option<[u16; 6]>>> = Vec::new();
    let mut m: usize = 0;
    while m < 64
        invariant
            m <= 64,
            cache@.len() == m,
            forall|a: int| 0 <= a < m ==> (#[trigger] cache@[a])@.len() == 64,
            forall|a: int, t: int|
                0 <= a < m && 0 <= t < 64 ==> entry_ok(a as u8, t as u8, #[trigger] cache@[a]@[t]),
        decreases 64 - m,
    {
        let mut row: Vec<Option<[u16; 6]>> = Vec::new();
        let mut t: usize = 0;
        while t < 64
            invariant
                t <= 64,
                m < 64,
                row@.len() == t,
                forall|b: int| 0 <= b < t ==> entry_ok(m as u8, b as u8, #[trigger] row@[b]),
            decreases 64 - t,
        {
            row.push(find_upper_scores(m as u8, t as u8));
            t += 1;
        }
        cache.push(row);
        m += 1;
    }
    cache
}

/// The six upper bits of a mask, as a six-bit mask.
pub open spec fn upper_bits(m: u16) -> u8 {
    (m & 63u16) as u8
}

proof fn lemma_upper_bits(m: u16)
    ensures
        upper_bits(m) < 64,
        forall|i: int| 0 <= i < 6 ==> #[trigger] ubit(upper_bits(m), i) == mask_bit(m, i),
{
    assert((m & 63u16) < 64) by (bit_vector);
    assert forall|i: int| 0 <= i < 6 implies #[trigger] ubit(upper_bits(m), i) == mask_bit(m, i) by {
        let ii = i as u8;
        let jj = i as u16;
        assert(((((m & 63u16) as u8) >> ii) & 1u8 == 1u8) == ((m >> jj) & 1u16 == 1u16)) by (bit_vector)
            requires
                ii < 6,
                jj == ii as u16,
        ;
    }
}

/// Whether a key's Yahtzee-box state agrees with its mask.
pub open spec fn key_consistent(k: AnchorKey) -> bool {
    if mask_bit(k.filled_mask, 11) {
        k.yahtzee_state != AnchorYahtzeeState::Open
    } else {
        k.yahtzee_state == AnchorYahtzeeState::Open
    }
}

/// Whether some score sheet has key `k`.
pub open spec fn key_reachable(k: AnchorKey) -> bool {
    &&& k.upper_subtotal_capped < 64
    &&& key_consistent(k)
    &&& completable(upper_bits(k.filled_mask), k.upper_subtotal_capped, 0, 0)
}

/// Whether `s` is a representative sheet of key `k`: the key's categories
/// filled, lower categories with 0 except a Yahtzee box as the key says,
/// upper categories with scores they can hold that meet the capped
/// subtotal, and no bonus.
pub open spec fn anchor_sheet(k: AnchorKey, s: ScoreSheet) -> bool {
    &&& forall|i: int| 0 <= i < 13 ==> (#[trigger] s.filled(category_at(i)) <==> mask_bit(k.filled_mask, i))
    &&& forall|i: int|
        6 <= i < 13 && i != 11 && #[trigger] s.filled(category_at(i)) ==> s.score_of(category_at(i))
            == Some(0u16)
    &&& s.filled(Category::Yahtzee) ==> s.score_of(Category::Yahtzee) == Some(
        if k.yahtzee_state == AnchorYahtzeeState::Fifty {
            50u16
        } else {
            0u16
        },
    )
    &&& forall|i: int|
        0 <= i < 6 && #[trigger] s.filled(category_at(i)) ==> valid_recorded(category_at(i), s.points(category_at(i)) as int)
    &&& meets_target(k.upper_subtotal_capped, s.upper_sum() as int)
    &&& s.bonus_count() == 0
}

proof fn lemma_upper_sum_prefix(sheet: ScoreSheet, sc: Seq<u16>, n: int)
    requires
        0 <= n <= 6,
        sc.len() == 6,
        forall|i: int| 0 <= i < 6 ==> #[trigger] sheet.points(category_at(i)) == sc[i],
    ensures
        sheet.points_upto(n) + sum_from(sc, n) == sum_from(sc, 0),
    decreases n,
{
    if n > 0 {
        lemma_upper_sum_prefix(sheet, sc, n - 1);
        assert(sheet.points(category_at(n - 1)) == sc[n - 1]);
    }
}

/// A representative score sheet for `key`, if some sheet has that key.
pub fn sheet_for_anchor_key(key: AnchorKey, cache: &Vec<Vec<Option<[u16; 6]>>>) -> (r: Option<
    ScoreSheet,
>)
    requires
        cache_ok(cache@),
    ensures
        r is Some <==> key_reachable(key),
        r is Some ==> anchor_sheet(key, r->0),
{
    if key.upper_subtotal_capped >= 64 {
        return None;
    }
    let yahtzee_filled = key.has_category(Category::Yahtzee);
    let consistent = match key.yahtzee_state {
        AnchorYahtzeeState::Open => !yahtzee_filled,
        _ => yahtzee_filled,
    };
    if !consistent {
        return None;
    }
    let upper_mask = (key.filled_mask & 63) as u8;
    proof {
        lemma_upper_bits(key.filled_mask);
    }
    let scores = match cache[upper_mask as usize][key.upper_subtotal_capped as usize] {
        Some(s) => s,
        None => return None,
    };
    assert(assignment_from(upper_mask, key.upper_subtotal_capped, 0, 0, scores@));
    let mut sheet = ScoreSheet::new();
    let mut i: usize = 0;
    while i < 13
        invariant
            i <= 13,
            key.upper_subtotal_capped < 64,
            key_consistent(key),
            upper_mask == upper_bits(key.filled_mask),
            forall|j: int| 0 <= j < 6 ==> #[trigger] ubit(upper_mask, j) == mask_bit(key.filled_mask, j),
            assignment_from(upper_mask, key.upper_subtotal_capped, 0, 0, scores@),
            sheet.bonus_count() == 0,
            forall|j: int| 0 <= j < 13 ==> (#[trigger] sheet.filled(category_at(j)) <==> (j < i && mask_bit(key.filled_mask, j))),
            forall|j: int| 0 <= j < 6 && j < i ==> #[trigger] sheet.points(category_at(j)) == scores@[j],
            forall|j: int| 6 <= j < 13 && j != 11 && #[trigger] sheet.filled(category_at(j)) ==> sheet.score_of(category_at(j)) == Some(0u16),
            sheet.filled(Category::Yahtzee) ==> sheet.score_of(Category::Yahtzee) == Some(
                if key.yahtzee_state == AnchorYahtzeeState::Fifty {
                    50u16
                } else {
                    0u16
                },
            ),
        decreases 13 - i,
    {
        let c = Category::at(i);
        proof {
            crate::category::lemma_category_index_roundtrip(c, i as int);
        }
        let ghost prev = sheet;
        let has = key.has_category(c);
        if has {
            let score: u16 = if i < 6 {
                scores[i]
            } else if i == 11 {
                match key.yahtzee_state {
                    AnchorYahtzeeState::Fifty => 50,
                    _ => 0,
                }
            } else {
                0
            };
            let _ = sheet.fill_raw(c, score);
            proof {
                assert(sheet.score_of(c) == Some(score));
            }
        }
        proof {
            assert forall|j: int| 0 <= j < 13 && j != i implies #[trigger] sheet.score_of(category_at(j)) == prev.score_of(category_at(j)) by {
                crate::category::lemma_category_index_roundtrip(c, j);
                assert(category_at(j) != c);
            }
            assert(sheet.filled(c) == has);
            assert(category_at(i as int) == c);
            assert(has == mask_bit(key.filled_mask, i as int));
            assert forall|j: int| 0 <= j < 13 implies (#[trigger] sheet.filled(category_at(j)) <==> (j < i + 1
                && mask_bit(key.filled_mask, j))) by {
                if j != i {
                    assert(sheet.score_of(category_at(j)) == prev.score_of(category_at(j)));
                    assert(prev.filled(category_at(j)) <==> (j < i && mask_bit(key.filled_mask, j)));
                }
            }
            assert forall|j: int| 6 <= j < 13 && j != 11 && #[trigger] sheet.filled(category_at(j)) implies sheet.score_of(
                category_at(j),
            ) == Some(0u16) by {
                if j != i {
                    assert(sheet.score_of(category_at(j)) == prev.score_of(category_at(j)));
                    assert(prev.filled(category_at(j)));
                }
            }
            if i < 6 {
                if !mask_bit(key.filled_mask, i as int) {
                    assert(!ubit(upper_mask, i as int));
                    assert(scores@[i as int] == 0);
                    assert(!sheet.filled(c));
                    assert(sheet.points(category_at(i as int)) == 0);
                } else {
                    assert(sheet.points(category_at(i as int)) == scores@[i as int]);
                }
            }
            assert forall|j: int| 0 <= j < 6 && j < i + 1 implies #[trigger] sheet.points(category_at(j))
                == scores@[j] by {
                if j != i {
                    assert(sheet.score_of(category_at(j)) == prev.score_of(category_at(j)));
                    assert(prev.points(category_at(j)) == scores@[j]);
                }
            }
        }
        i += 1;
    }
    proof {
        assert forall|j: int| 0 <= j < 6 implies #[trigger] sheet.points(category_at(j)) == scores@[j] by {}
        lemma_upper_sum_prefix(sheet, scores@, 6);
        assert forall|j: int| 0 <= j < 6 && #[trigger] sheet.filled(category_at(j)) implies valid_recorded(
            category_at(j),
            sheet.points(category_at(j)) as int,
        ) by {
            assert(ubit(upper_mask, j));
            assert(scores@[j] <= 5 * (j + 1));
        }
    }
    Some(sheet)
}

/// The representative sheet of a key has that key.
pub proof fn law_anchor_sheet_has_its_key(k: AnchorKey, s: ScoreSheet)
    requires
        k.filled_mask < 8192,
        key_reachable(k),
        anchor_sheet(k, s),
    ensures
        is_key_of(k, s),
{
    crate::category::lemma_category_index_roundtrip(Category::Yahtzee, 11);
    assert(s.filled(category_at(11)) == mask_bit(k.filled_mask, 11));
}

// ---------------------------------------------------------------------------
// The keys of a layer
// ---------------------------------------------------------------------------

/// Number of the low `n` bits of `m` that are set.
pub open spec fn bits_below(m: u16, n: int) -> nat
    decreases n,
{
    if n <= 0 {
        0
    } else {
        bits_below(m, n - 1) + if mask_bit(m, n - 1) {
            1nat
        } else {
            0nat
        }
    }
}

/// Number of categories a thirteen-bit mask marks filled.
pub fn mask_filled_count(m: u16) -> (r: usize)
    ensures
        r == bits_below(m, 13),
        r <= 13,
{
    let mut count: usize = 0;
    let mut i: u16 = 0;
    while i < 13
        invariant
            i <= 13,
            count == bits_below(m, i as int),
            count <= i,
        decreases 13 - i,
    {
        if (m >> i) & 1 == 1 {
            count += 1;
        }
        i += 1;
    }
    count
}

/// Whether key `k` belongs to the layer with `open_count` open categories:
/// in the table's range, with that many bits of its mask clear, and held by
/// some score sheet.
pub open spec fn in_layer(k: AnchorKey, open_count: nat) -> bool {
    &&& k.filled_mask < 8192
    &&& k.upper_subtotal_capped < 64
    &&& bits_below(k.filled_mask, 13) + open_count == 13
    &&& key_reachable(k)
}

/// The keys of the layer with `open_count` open categories, each with its
/// representative sheet, in increasing table position.
pub fn anchor_layer_work(open_count: usize, cache: &Vec<Vec<Option<[u16; 6]>>>) -> (r: Vec<
    (AnchorKey, ScoreSheet),
>)
    requires
        open_count <= 13,
        cache_ok(cache@),
    ensures
        forall|j: int|
            0 <= j < r.len() ==> in_layer(#[trigger] r@[j].0, open_count as nat) && anchor_sheet(
                r@[j].0,
                r@[j].1,
            ),
        forall|a: int, b: int| 0 <= a < b < r.len() ==> key_index(#[trigger] r@[a].0) < key_index(#[trigger] r@[b].0),
        forall|k: AnchorKey| #[trigger] in_layer(k, open_count as nat) ==> exists|j: int| 0 <= j < r.len() && r@[j].0 == k,
{
    let filled_count = 13 - open_count;
    let mut work: Vec<(AnchorKey, ScoreSheet)> = Vec::new();
    let mut mask: u16 = 0;
    while mask < 8192
        invariant
            mask <= 8192,
            open_count <= 13,
            filled_count + open_count == 13,
            cache_ok(cache@),
            forall|j: int|
                0 <= j < work.len() ==> in_layer(#[trigger] work@[j].0, open_count as nat) && anchor_sheet(
                    work@[j].0,
                    work@[j].1,
                ) && key_index(work@[j].0) < mask as int * 192,
            forall|a: int, b: int|
                0 <= a < b < work.len() ==> key_index(#[trigger] work@[a].0) < key_index(#[trigger] work@[b].0),
            forall|k: AnchorKey|
                #[trigger] in_layer(k, open_count as nat) && key_index(k) < mask as int * 192 ==> exists|j: int|
                    0 <= j < work.len() && work@[j].0 == k,
        decreases 8192 - mask,
    {
        if mask_filled_count(mask) == filled_count {
            let mut upper: u8 = 0;
            while upper < 64
                invariant
                    mask < 8192,
                    upper <= 64,
                    open_count <= 13,
                    filled_count + open_count == 13,
                    bits_below(mask, 13) == filled_count,
                    cache_ok(cache@),
                    forall|j: int|
                        0 <= j < work.len() ==> in_layer(#[trigger] work@[j].0, open_count as nat)
                            && anchor_sheet(work@[j].0, work@[j].1) && key_index(work@[j].0) < mask as int
                            * 192 + upper as int * 3,
                    forall|a: int, b: int|
                        0 <= a < b < work.len() ==> key_index(#[trigger] work@[a].0) < key_index(
                            #[trigger] work@[b].0,
                        ),
                    forall|k: AnchorKey|
                        #[trigger] in_layer(k, open_count as nat) && key_index(k) < mask as int * 192
                            + upper as int * 3 ==> exists|j: int| 0 <= j < work.len() && work@[j].0 == k,
                decreases 64 - upper,
            {
                let mut y: u8 = 0;
                while y < 3
                    invariant
                        mask < 8192,
                        upper < 64,
                        y <= 3,
                        open_count <= 13,
                        bits_below(mask, 13) + open_count == 13,
                        cache_ok(cache@),
                        forall|j: int|
                            0 <= j < work.len() ==> in_layer(#[trigger] work@[j].0, open_count as nat)
                                && anchor_sheet(work@[j].0, work@[j].1) && key_index(work@[j].0) < mask as int
                                * 192 + upper as int * 3 + y as int,
                        forall|a: int, b: int|
                            0 <= a < b < work.len() ==> key_index(#[trigger] work@[a].0) < key_index(
                                #[trigger] work@[b].0,
                            ),
                        forall|k: AnchorKey|
                            #[trigger] in_layer(k, open_count as nat) && key_index(k) < mask as int * 192
                                + upper as int * 3 + y as int ==> exists|j: int|
                                0 <= j < work.len() && work@[j].0 == k,
                    decreases 3 - y,
                {
                    let state = match AnchorYahtzeeState::from_u8(y) {
                        Some(s) => s,
                        None => AnchorYahtzeeState::Open,
                    };
                    let key = AnchorKey { filled_mask: mask, upper_subtotal_capped: upper, yahtzee_state: state };
                    let ghost pos = mask as int * 192 + upper as int * 3 + y as int;
                    assert(key_index(key) == pos);
                    let ghost before = work@;
                    match sheet_for_anchor_key(key, cache) {
                        Some(sheet) => {
                            work.push((key, sheet));
                        },
                        None => {},
                    }
                    proof {
                        assert forall|k: AnchorKey|
                            #[trigger] in_layer(k, open_count as nat) && key_index(k) < pos + 1 implies exists|j: int|
                            0 <= j < work.len() && work@[j].0 == k by {
                            if key_index(k) < pos {
                                let j = choose|j: int| 0 <= j < before.len() && before[j].0 == k;
                                assert(work@[j] == before[j]);
                            } else {
                                law_key_index_injective(k, key);
                                assert(work@[work.len() - 1].0 == k);
                            }
                        }
                    }
                    y += 1;
                }
                upper += 1;
            }
        } else {
            proof {
                assert forall|k: AnchorKey|
                    #[trigger] in_layer(k, open_count as nat) && key_index(k) < (mask as int + 1) * 192 implies exists|j: int|
                    0 <= j < work.len() && work@[j].0 == k by {
                    if key_index(k) >= mask as int * 192 {
                        assert(k.filled_mask == mask) by (nonlinear_arith)
                            requires
                                key_index(k) == ((k.filled_mask as nat) * 64 + (k.upper_subtotal_capped as nat)) * 3
                                    + ystate_num(k.yahtzee_state),
                                ystate_num(k.yahtzee_state) < 3,
                                k.upper_subtotal_capped < 64,
                                mask as int * 192 <= key_index(k) < (mask as int + 1) * 192,
                        ;
                    }
                }
            }
        }
        mask += 1;
    }
    work
}
} // verus!
