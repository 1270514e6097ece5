//! The score sheet: what each category recorded, and the bonuses.
use crate::category::{category_at, Category};
use crate::rules::{valid_recorded, Rules};
use crate::{KeiriError, UPPER_BONUS, UPPER_BONUS_THRESHOLD, YAHTZEE_BONUS};
use vstd::arithmetic::power2::{lemma2_to64, lemma_pow2_unfold, pow2};
use vstd::bits::{lemma_u16_pow2_no_overflow, lemma_u16_shl_is_mul};
use vstd::prelude::*;

verus! {

/// The recorded scores of a game and the number of Yahtzee bonuses earned.
#[derive(Debug, PartialEq, Eq, Hash)]
pub struct ScoreSheet {
    scores: [Option<u16>; 13],
    yahtzee_bonus_count: u16,
}

impl ScoreSheet {
    /// What the sheet records for category `c`.
    pub closed spec fn score_of(self, c: Category) -> Option<u16> {
        self.scores@[c.idx()]
    }

    /// The number of Yahtzee bonuses the sheet records.
    pub closed spec fn bonus_count(self) -> u16 {
        self.yahtzee_bonus_count
    }

    /// The recorded scores in sheet order.
    pub open spec fn score_model(self) -> Seq<Option<u16>> {
        Seq::new(13, |i: int| self.score_of(category_at(i)))
    }

    pub open spec fn filled(self, c: Category) -> bool {
        self.score_of(c) is Some
    }

    /// The recorded score of `c`, or 0 while it is open.
    pub open spec fn points(self, c: Category) -> nat {
        match self.score_of(c) {
            Some(v) => v as nat,
            None => 0,
        }
    }

    /// Number of filled categories among the first `n` in sheet order.
    pub open spec fn filled_upto(self, n: int) -> nat
        decreases n,
    {
        if n <= 0 {
            0
        } else {
            self.filled_upto(n - 1) + if self.filled(category_at(n - 1)) {
                1nat
            } else {
                0nat
            }
        }
    }

    /// Sum of the recorded scores among the first `n` categories.
    pub open spec fn points_upto(self, n: int) -> nat
        decreases n,
    {
        if n <= 0 {
            0
        } else {
            self.points_upto(n - 1) + self.points(category_at(n - 1))
        }
    }

    pub open spec fn filled_total(self) -> nat {
        self.filled_upto(13)
    }

    /// Sum of the upper-section scores.
    pub open spec fn upper_sum(self) -> nat {
        self.points_upto(6)
    }

    /// Sum of all recorded scores.
    pub open spec fn points_sum(self) -> nat {
        self.points_upto(13)
    }

    pub open spec fn upper_bonus_points(self) -> nat {
        if self.upper_sum() >= UPPER_BONUS_THRESHOLD {
            UPPER_BONUS as nat
        } else {
            0
        }
    }

    /// The final score of the sheet: recorded scores plus both bonuses.
    pub open spec fn total(self) -> nat {
        self.points_sum() + self.upper_bonus_points() + (self.bonus_count() as nat) * 100
    }

    /// Whether the Yahtzee box holds 50.
    pub open spec fn fifty(self) -> bool {
        self.score_of(Category::Yahtzee) == Some(50u16)
    }

    /// Two sheets that agree on every category and on the bonus count are
    /// the same sheet.
    pub proof fn lemma_ext(a: ScoreSheet, b: ScoreSheet)
        requires
            forall|c: Category| #[trigger] a.score_of(c) == b.score_of(c),
            a.bonus_count() == b.bonus_count(),
        ensures
            a == b,
    {
        assert forall|i: int| 0 <= i < 13 implies a.scores@[i] == b.scores@[i] by {
            assert(a.score_of(category_at(i)) == b.score_of(category_at(i)));
        }
        assert(a.scores@ =~= b.scores@);
        assert(a.scores == b.scores);
    }

    /// A sheet with every category open and no bonus.
    pub fn new() -> (r: Self)
        ensures
            forall|c: Category| #[trigger] r.score_of(c) is None,
            r.bonus_count() == 0,
    {
        ScoreSheet { scores: [None; 13], yahtzee_bonus_count: 0 }
    }

    /// The recorded scores in sheet order.
    pub fn scores(&self) -> (r: &[Option<u16>; 13])
        ensures
            forall|i: int| 0 <= i < 13 ==> #[trigger] r@[i] == self.score_of(category_at(i)),
    {
        &self.scores
    }

    /// What the sheet records for `category`.
    pub fn score(&self, category: Category) -> (r: Option<u16>)
        ensures
            r == self.score_of(category),
    {
        self.scores[category.index()]
    }

    /// The filled categories in sheet order with their scores.
    pub fn filled_scores(&self) -> (r: Vec<(Category, u16)>)
        ensures
            r@ == self.filled_list(13),
    {
        let mut out: Vec<(Category, u16)> = Vec::new();
        let mut i: usize = 0;
        while i < 13
            invariant
                i <= 13,
                out@ == self.filled_list(i as int),
            decreases 13 - i,
        {
            let c = Category::at(i);
            match self.scores[i] {
                Some(v) => out.push((c, v)),
                None => {},
            }
            i += 1;
        }
        out
    }

    /// The filled categories among the first `n`, with their scores.
    pub open spec fn filled_list(self, n: int) -> Seq<(Category, u16)>
        decreases n,
    {
        if n <= 0 {
            Seq::empty()
        } else {
            match self.score_of(category_at(n - 1)) {
                Some(v) => self.filled_list(n - 1).push((category_at(n - 1), v)),
                None => self.filled_list(n - 1),
            }
        }
    }

    /// Records `score` in an open category without checking it.
    pub fn fill_raw(&mut self, category: Category, score: u16) -> (r: Result<(), KeiriError>)
        ensures
            old(self).filled(category) ==> r == Err::<(), KeiriError>(
                KeiriError::CategoryAlreadyFilled(category),
            ) && *final(self) == *old(self),
            !old(self).filled(category) ==> r is Ok && final(self).score_of(category) == Some(score),
            forall|c: Category|
                c != category ==> #[trigger] final(self).score_of(c) == old(self).score_of(c),
            final(self).bonus_count() == old(self).bonus_count(),
    {
        if self.is_filled(category) {
            return Err(KeiriError::CategoryAlreadyFilled(category));
        }
        self.scores[category.index()] = Some(score);
        Ok(())
    }

    /// Records `score` in an open category if it is a score the category can
    /// hold.
    pub fn fill_validated(&mut self, category: Category, score: u16) -> (r: Result<
        (),
        KeiriError,
    >)
        ensures
            !valid_recorded(category, score as int) ==> r == Err::<(), KeiriError>(
                KeiriError::InvalidRecordedScore { category, score },
            ) && *final(self) == *old(self),
            valid_recorded(category, score as int) && old(self).filled(category) ==> r == Err::<
                (),
                KeiriError,
            >(KeiriError::CategoryAlreadyFilled(category)) && *final(self) == *old(self),
            valid_recorded(category, score as int) && !old(self).filled(category) ==> r is Ok
                && final(self).score_of(category) == Some(score),
            forall|c: Category|
                c != category ==> #[trigger] final(self).score_of(c) == old(self).score_of(c),
            final(self).bonus_count() == old(self).bonus_count(),
    {
        if !Rules::is_valid_recorded_score(category, score) {
            return Err(KeiriError::InvalidRecordedScore { category, score });
        }
        self.fill_raw(category, score)
    }

    pub fn set_yahtzee_bonus_count(&mut self, count: u16)
        ensures
            final(self).bonus_count() == count,
            forall|c: Category| #[trigger] final(self).score_of(c) == old(self).score_of(c),
    {
        self.yahtzee_bonus_count = count;
    }

    pub fn add_yahtzee_bonus(&mut self)
        requires
            old(self).bonus_count() < u16::MAX,
        ensures
            final(self).bonus_count() == old(self).bonus_count() + 1,
            forall|c: Category| #[trigger] final(self).score_of(c) == old(self).score_of(c),
    {
        self.yahtzee_bonus_count = self.yahtzee_bonus_count + 1;
    }

    pub fn yahtzee_bonus_count(&self) -> (r: u16)
        ensures
            r == self.bonus_count(),
    {
        self.yahtzee_bonus_count
    }

    pub fn is_filled(&self, category: Category) -> (r: bool)
        ensures
            r == self.filled(category),
    {
        self.scores[category.index()].is_some()
    }

    /// Number of filled categories.
    pub fn filled_count(&self) -> (r: usize)
        ensures
            r == self.filled_total(),
            r <= 13,
    {
        let mut n: usize = 0;
        let mut i: usize = 0;
        while i < 13
            invariant
                i <= 13,
                n == self.filled_upto(i as int),
                n <= i,
            decreases 13 - i,
        {
            if self.scores[i].is_some() {
                n += 1;
            }
            i += 1;
        }
        n
    }

    /// Bit `i` of the result is set exactly when category `i` is filled.
    pub fn filled_mask(&self) -> (r: u16)
        ensures
            r < 8192,
            forall|i: int| 0 <= i < 13 ==> (#[trigger] mask_bit(r, i) <==> self.filled(category_at(i))),
    {
        let mut mask: u16 = 0;
        let mut i: usize = 0;
        proof {
            lemma2_to64();
        }
        while i < 13
            invariant
                i <= 13,
                mask < pow2(i as nat),
                forall|j: int| 0 <= j < i ==> (#[trigger] mask_bit(mask, j) <==> self.filled(category_at(j))),
            decreases 13 - i,
        {
            proof {
                crate::category::lemma_category_index_roundtrip(Category::Ones, i as int);
                lemma_set_bit(mask, i as u16);
                lemma_pow2_unfold(i as nat + 1);
                lemma2_to64();
            }
            let ghost prev = mask;
            if self.scores[i].is_some() {
                mask = mask | (1u16 << (i as u16));
            }
            assert forall|j: int| 0 <= j < i + 1 implies (#[trigger] mask_bit(mask, j)
                <==> self.filled(category_at(j))) by {
                if j < i {
                    assert(mask_bit(prev, j) <==> self.filled(category_at(j)));
                } else {
                    assert(self.filled(category_at(j)) == self.scores@[i as int] is Some);
                }
            }
            i += 1;
        }
        mask
    }

    /// The open categories in sheet order.
    pub fn remaining_categories(&self) -> (r: Vec<Category>)
        ensures
            r@ == self.open_between(0, 13),
    {
        let mut out: Vec<Category> = Vec::new();
        let mut i: usize = 0;
        while i < 13
            invariant
                i <= 13,
                out@ == self.open_between(0, i as int),
            decreases 13 - i,
        {
            if self.scores[i].is_none() {
                out.push(Category::at(i));
            }
            i += 1;
        }
        out
    }

    /// The open categories at positions `lo..n`, in sheet order.
    pub open spec fn open_between(self, lo: int, n: int) -> Seq<Category>
        decreases n - lo,
    {
        if n <= lo {
            Seq::empty()
        } else if self.filled(category_at(n - 1)) {
            self.open_between(lo, n - 1)
        } else {
            self.open_between(lo, n - 1).push(category_at(n - 1))
        }
    }

    /// The open categories, in sheet order.
    pub open spec fn open_categories(self) -> Seq<Category> {
        self.open_between(0, 13)
    }

    /// Whether every category is filled.
    pub fn is_complete(&self) -> (r: bool)
        ensures
            r == (self.filled_total() == 13),
    {
        self.filled_count() == 13
    }

    /// Sum of the upper-section scores.
    pub fn upper_subtotal(&self) -> (r: u16)
        requires
            self.upper_sum() <= u16::MAX,
        ensures
            r == self.upper_sum(),
    {
        let mut total: u16 = 0;
        let mut i: usize = 0;
        while i < 6
            invariant
                i <= 6,
                total == self.points_upto(i as int),
                self.upper_sum() <= u16::MAX,
            decreases 6 - i,
        {
            proof {
                self.lemma_points_monotone(i as int + 1, 6);
            }
            match self.scores[i] {
                Some(v) => total = total + v,
                None => {},
            }
            i += 1;
        }
        total
    }

    /// Whether one more score fits the score counters: the final score
    /// stays at least 185 points (the most one score adds: 50, a Yahtzee
    /// bonus of 100 and the upper bonus of 35) below the largest `u16`.
    pub open spec fn within_limits(self) -> bool {
        self.total() + 185 <= u16::MAX
    }

    /// Whether the sheet is within limits.
    pub fn is_within_limits(&self) -> (r: bool)
        ensures
            r == self.within_limits(),
    {
        let mut sum: u64 = 0;
        let mut upper: u64 = 0;
        let mut i: usize = 0;
        while i < 13
            invariant
                i <= 13,
                sum == self.points_upto(i as int),
                sum <= i * 65535,
                i >= 6 ==> upper == self.points_upto(6),
            decreases 13 - i,
        {
            proof {
                crate::category::lemma_category_index_roundtrip(Category::Ones, i as int);
            }
            match self.scores[i] {
                Some(v) => sum = sum + v as u64,
                None => {},
            }
            if i == 5 {
                upper = sum;
            }
            i += 1;
        }
        let bonus: u64 = if upper >= 63 {
            35
        } else {
            0
        };
        let total = sum + bonus + (self.yahtzee_bonus_count as u64) * 100;
        total + 185 <= 65535
    }

    /// A sheet within limits meets the bounds of the sums and bonus counts
    /// that scoring needs.
    pub proof fn lemma_within_limits(self)
        requires
            self.within_limits(),
        ensures
            self.upper_sum() + 185 <= u16::MAX,
            self.bonus_count() * 100 + 100 <= u16::MAX,
            self.total() <= u16::MAX,
    {
        self.lemma_points_monotone(6, 13);
    }

    /// Whether every recorded score is at most its category's maximum and
    /// no more bonuses were earned than categories filled: true of every
    /// sheet a game can reach.
    pub open spec fn game_bounded(self) -> bool {
        &&& forall|c: Category| #[trigger] self.score_of(c) is Some ==> self.score_of(c)->0 <= crate::rules::max_base(c)
        &&& self.bonus_count() == 0 || self.bonus_count() < self.filled_total()
    }

    /// With every recorded score at most its category's maximum, the first
    /// `n` categories sum to at most their maxima.
    pub(crate) proof fn lemma_points_bounded(self, n: int)
        requires
            0 <= n <= 13,
            forall|c: Category| #[trigger] self.score_of(c) is Some ==> self.score_of(c)->0 <= crate::rules::max_base(c),
        ensures
            self.points_upto(n) <= max_points_upto(n),
            self.filled_upto(n) <= n,
        decreases n,
    {
        if n > 0 {
            self.lemma_points_bounded(n - 1);
            let c = category_at(n - 1);
            assert(self.score_of(c) is Some ==> self.score_of(c)->0 <= crate::rules::max_base(c));
        }
    }

    /// A sheet with every category open has none filled.
    pub proof fn lemma_empty_counts(self, n: int)
        requires
            0 <= n,
            forall|c: Category| #[trigger] self.score_of(c) is None,
        ensures
            self.filled_upto(n) == 0,
        decreases n,
    {
        if n > 0 {
            self.lemma_empty_counts(n - 1);
            assert(self.score_of(category_at(n - 1)) is None);
        }
    }

    /// A filled category counts among the filled ones.
    pub proof fn lemma_filled_counts(self, c: Category, n: int)
        requires
            c.idx() < n <= 13,
            self.filled(c),
        ensures
            self.filled_upto(n) >= 1,
        decreases n,
    {
        crate::category::lemma_category_index_roundtrip(c, n - 1);
        if c.idx() < n - 1 {
            self.lemma_filled_counts(c, n - 1);
        }
    }

    /// A sheet a game can reach is within limits, and its final score is at
    /// most 1575: every category at its maximum, the upper bonus and twelve
    /// Yahtzee bonuses.
    pub proof fn lemma_game_bounded_within_limits(self)
        requires
            self.game_bounded(),
        ensures
            self.within_limits(),
            self.filled_total() <= 13,
            self.total() <= 1575,
    {
        self.lemma_points_bounded(13);
        self.lemma_points_monotone(6, 13);
        reveal_with_fuel(max_points_upto, 14);
        assert(max_points_upto(13) == 340);
    }

    /// Partial sums of scores grow with the number of categories summed.
    pub proof fn lemma_points_monotone(self, a: int, b: int)
        requires
            0 <= a <= b,
        ensures
            self.points_upto(a) <= self.points_upto(b),
        decreases b - a,
    {
        if a < b {
            self.lemma_points_monotone(a, b - 1);
        }
    }

    /// The upper subtotal, capped at the bonus threshold.
    pub fn upper_subtotal_capped(&self) -> (r: u8)
        requires
            self.upper_sum() <= u16::MAX,
        ensures
            r == if self.upper_sum() >= 63 {
                63
            } else {
                self.upper_sum()
            },
    {
        let s = self.upper_subtotal();
        if s >= UPPER_BONUS_THRESHOLD {
            63
        } else {
            s as u8
        }
    }

    /// Whether the upper subtotal reaches the bonus threshold.
    pub fn has_upper_bonus(&self) -> (r: bool)
        requires
            self.upper_sum() <= u16::MAX,
        ensures
            r == (self.upper_sum() >= 63),
    {
        self.upper_subtotal() >= UPPER_BONUS_THRESHOLD
    }

    pub fn upper_bonus_score(&self) -> (r: u16)
        requires
            self.upper_sum() <= u16::MAX,
        ensures
            r == self.upper_bonus_points(),
    {
        if self.has_upper_bonus() {
            UPPER_BONUS
        } else {
            0
        }
    }

    /// Points from Yahtzee bonuses.
    pub fn yahtzee_bonus_score(&self) -> (r: u16)
        requires
            self.bonus_count() * 100 <= u16::MAX,
        ensures
            r == self.bonus_count() * 100,
    {
        self.yahtzee_bonus_count * YAHTZEE_BONUS
    }

    /// Whether the Yahtzee box holds 50.
    pub fn yahtzee_scored_50(&self) -> (r: bool)
        ensures
            r == self.fifty(),
    {
        match self.scores[11] {
            Some(v) => v == 50,
            None => false,
        }
    }

    /// Recorded scores plus the upper bonus and the Yahtzee bonuses.
    pub fn total_score(&self) -> (r: u16)
        requires
            self.total() <= u16::MAX,
        ensures
            r == self.total(),
    {
        proof {
            self.lemma_points_monotone(6, 13);
        }
        let mut sum: u16 = 0;
        let mut i: usize = 0;
        while i < 13
            invariant
                i <= 13,
                sum == self.points_upto(i as int),
                self.points_sum() <= u16::MAX,
            decreases 13 - i,
        {
            proof {
                self.lemma_points_monotone(i as int + 1, 13);
            }
            match self.scores[i] {
                Some(v) => sum = sum + v,
                None => {},
            }
            i += 1;
        }
        sum + self.upper_bonus_score() + self.yahtzee_bonus_score()
    }
}

impl Clone for ScoreSheet {
    fn clone(&self) -> (r: Self)
        ensures
            r == *self,
    {
        ScoreSheet { scores: self.scores, yahtzee_bonus_count: self.yahtzee_bonus_count }
    }
}

impl Default for ScoreSheet {
    fn default() -> (r: Self)
        ensures
            forall|c: Category| #[trigger] r.score_of(c) is None,
            r.bonus_count() == 0,
    {
        Self::new()
    }
}

/// The highest sum the first `n` categories can record.
pub open spec fn max_points_upto(n: int) -> int
    decreases n,
{
    if n <= 0 {
        0
    } else {
        max_points_upto(n - 1) + crate::rules::max_base(category_at(n - 1))
    }
}

/// Whether bit `i` of `m` is set.
pub open spec fn mask_bit(m: u16, i: int) -> bool {
    (m >> (i as u16)) & 1u16 == 1u16
}

/// Setting bit `i` of a mask below `2^i` sets that bit, keeps the lower
/// ones and stays below `2^(i+1)`.
proof fn lemma_set_bit(m: u16, i: u16)
    requires
        i < 13,
        m < pow2(i as nat),
    ensures
        mask_bit(m | (1u16 << i), i as int),
        forall|j: int| 0 <= j < i ==> mask_bit(m | (1u16 << i), j) == mask_bit(m, j),
        (m | (1u16 << i)) < pow2((i + 1) as nat),
        !mask_bit(m, i as int),
{
    lemma_u16_pow2_no_overflow(i as nat);
    lemma_u16_shl_is_mul(1u16, i);
    lemma_pow2_unfold(i as nat + 1);
    let b = 1u16 << i;
    assert(m < b);
    assert(((m | b) >> i) & 1u16 == 1u16) by (bit_vector)
        requires
            i < 13,
            b == 1u16 << i,
            m < b,
    ;
    assert((m >> i) & 1u16 != 1u16) by (bit_vector)
        requires
            i < 13,
            b == 1u16 << i,
            m < b,
    ;
    assert((m | b) < 2 * b) by (bit_vector)
        requires
            i < 13,
            b == 1u16 << i,
            m < b,
    ;
    assert forall|j: int| 0 <= j < i implies mask_bit(m | b, j) == mask_bit(m, j) by {
        let jj = j as u16;
        assert(((m | b) >> jj) & 1u16 == (m >> jj) & 1u16) by (bit_vector)
            requires
                i < 13,
                b == 1u16 << i,
                jj < i,
        ;
    }
}


/// Setting bit `i` sets that bit and leaves the others.
pub proof fn lemma_or_bit(m: u16, i: u16)
    requires
        i < 16,
    ensures
        mask_bit(m | (1u16 << i), i as int),
        forall|j: int| 0 <= j < 16 && j != i ==> #[trigger] mask_bit(m | (1u16 << i), j) == mask_bit(m, j),
{
    assert(((m | (1u16 << i)) >> i) & 1u16 == 1u16) by (bit_vector)
        requires
            i < 16,
    ;
    assert forall|j: int| 0 <= j < 16 && j != i implies #[trigger] mask_bit(m | (1u16 << i), j) == mask_bit(m, j) by {
        let jj = j as u16;
        assert(((m | (1u16 << i)) >> jj) & 1u16 == (m >> jj) & 1u16) by (bit_vector)
            requires
                i < 16,
                jj < 16,
                jj != i,
        ;
    }
}

/// The bits of a conjunction of masks are the conjunctions of their bits.
pub proof fn lemma_and_bits(a: u16, b: u16)
    ensures
        forall|j: int| 0 <= j < 16 ==> #[trigger] mask_bit(a & b, j) == (mask_bit(a, j) && mask_bit(b, j)),
{
    assert forall|j: int| 0 <= j < 16 implies #[trigger] mask_bit(a & b, j) == (mask_bit(a, j) && mask_bit(b, j)) by {
        let jj = j as u16;
        assert((((a & b) >> jj) & 1u16 == 1u16) == (((a >> jj) & 1u16 == 1u16) && ((b >> jj) & 1u16
            == 1u16))) by (bit_vector)
            requires
                jj < 16,
        ;
    }
}

/// A mask below `2^13` is determined by its thirteen bits.
pub proof fn lemma_bits_determine(a: u16, b: u16)
    requires
        a < 8192,
        b < 8192,
        forall|j: int| 0 <= j < 13 ==> #[trigger] mask_bit(a, j) == mask_bit(b, j),
    ensures
        a == b,
{
    assert(mask_bit(a, 0) == mask_bit(b, 0));
    assert(mask_bit(a, 1) == mask_bit(b, 1));
    assert(mask_bit(a, 2) == mask_bit(b, 2));
    assert(mask_bit(a, 3) == mask_bit(b, 3));
    assert(mask_bit(a, 4) == mask_bit(b, 4));
    assert(mask_bit(a, 5) == mask_bit(b, 5));
    assert(mask_bit(a, 6) == mask_bit(b, 6));
    assert(mask_bit(a, 7) == mask_bit(b, 7));
    assert(mask_bit(a, 8) == mask_bit(b, 8));
    assert(mask_bit(a, 9) == mask_bit(b, 9));
    assert(mask_bit(a, 10) == mask_bit(b, 10));
    assert(mask_bit(a, 11) == mask_bit(b, 11));
    assert(mask_bit(a, 12) == mask_bit(b, 12));
    assert(a == b) by (bit_vector)
        requires
            a < 8192,
            b < 8192,
            ((a >> 0u16) & 1u16 == 1u16) == ((b >> 0u16) & 1u16 == 1u16),
            ((a >> 1u16) & 1u16 == 1u16) == ((b >> 1u16) & 1u16 == 1u16),
            ((a >> 2u16) & 1u16 == 1u16) == ((b >> 2u16) & 1u16 == 1u16),
            ((a >> 3u16) & 1u16 == 1u16) == ((b >> 3u16) & 1u16 == 1u16),
            ((a >> 4u16) & 1u16 == 1u16) == ((b >> 4u16) & 1u16 == 1u16),
            ((a >> 5u16) & 1u16 == 1u16) == ((b >> 5u16) & 1u16 == 1u16),
            ((a >> 6u16) & 1u16 == 1u16) == ((b >> 6u16) & 1u16 == 1u16),
            ((a >> 7u16) & 1u16 == 1u16) == ((b >> 7u16) & 1u16 == 1u16),
            ((a >> 8u16) & 1u16 == 1u16) == ((b >> 8u16) & 1u16 == 1u16),
            ((a >> 9u16) & 1u16 == 1u16) == ((b >> 9u16) & 1u16 == 1u16),
            ((a >> 10u16) & 1u16 == 1u16) == ((b >> 10u16) & 1u16 == 1u16),
            ((a >> 11u16) & 1u16 == 1u16) == ((b >> 11u16) & 1u16 == 1u16),
            ((a >> 12u16) & 1u16 == 1u16) == ((b >> 12u16) & 1u16 == 1u16),
    ;
}
/// The empty mask has no bit set.
pub proof fn lemma_zero_mask()
    ensures
        forall|j: int| 0 <= j < 16 ==> !#[trigger] mask_bit(0u16, j),
{
    assert forall|j: int| 0 <= j < 16 implies !#[trigger] mask_bit(0u16, j) by {
        let jj = j as u16;
        assert((0u16 >> jj) & 1u16 == 0u16) by (bit_vector);
    }
}

} // verus!
