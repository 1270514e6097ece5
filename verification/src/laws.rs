//! Properties that hold across the rules, the sheet and the transitions.
use crate::anchor::{is_key_of, next_key_ok, AnchorKey};
use crate::category::{category_at, Category, Ruleset};
use crate::dice::{all_faces, face_count, lemma_face_count_le_len, lemma_sum_bound, seq_sum, Dice};
use crate::rules::{
    actions_spec, all_rolls, base_spec, cnt, earns_bonus, forced_joker, joker_spec, legal_spec, matching_upper,
    max_base, roll_faces, score_spec, scored_sheet, some_count_is, valid_recorded, yahtzee, Rules,
};
use crate::state::{Action, GameState};
use crate::sheet::{mask_bit, max_points_upto, ScoreSheet};
use crate::compact::records_valid;
use vstd::arithmetic::div_mod::lemma_mod_multiples_basic;
use vstd::prelude::*;

verus! {

/// Points above the dice's maximum that twos may record: 2 for a 12.
pub open spec fn twos_excess(sheet: ScoreSheet) -> nat {
    if sheet.points(Category::Twos) > 10 {
        (sheet.points(Category::Twos) - 10) as nat
    } else {
        0
    }
}

/// With valid records, the first `n` categories sum to at most their
/// maxima, plus the excess of twos once twos is among them.
proof fn lemma_valid_points_bounded(sheet: ScoreSheet, n: int)
    requires
        0 <= n <= 13,
        records_valid(sheet),
    ensures
        sheet.points_upto(n) <= max_points_upto(n) + if n >= 2 {
            twos_excess(sheet)
        } else {
            0
        },
    decreases n,
{
    if n > 0 {
        lemma_valid_points_bounded(sheet, n - 1);
        let c = category_at(n - 1);
        if sheet.score_of(c) is Some {
            assert(valid_recorded(c, sheet.score_of(c)->Some_0 as int));
        }
    }
}

/// A sheet whose recorded scores are all ones their categories can hold,
/// with at most twelve Yahtzee bonuses, totals at most 1577; at most 1575
/// (every category at its maximum, the upper bonus and twelve bonuses of
/// 100) unless twos records 12, the one valid record above what dice give.
pub proof fn law_valid_records_total_bounded(sheet: ScoreSheet)
    requires
        records_valid(sheet),
        sheet.bonus_count() <= 12,
    ensures
        sheet.total() <= 1577,
        sheet.points(Category::Twos) <= 10 ==> sheet.total() <= 1575,
{
    if sheet.score_of(Category::Twos) is Some {
        assert(valid_recorded(Category::Twos, sheet.score_of(Category::Twos)->Some_0 as int));
    }
    lemma_valid_points_bounded(sheet, 13);
    reveal_with_fuel(max_points_upto, 14);
    assert(max_points_upto(13) == 340);
}

/// Three of a kind scores the sum of the five dice when some face shows at
/// least three times and 0 when none does; four of a kind likewise with at
/// least four.  Joker scores do not change either.
pub proof fn law_kind_scoring(d: Dice, joker: bool)
    requires
        d.inv(),
    ensures
        base_spec(Category::ThreeKind, d@, joker) == if exists|f: u8| 1 <= f <= 6 && #[trigger] face_count(d@, f) >= 3 {
            seq_sum(d@)
        } else {
            0
        },
        base_spec(Category::FourKind, d@, joker) == if exists|f: u8| 1 <= f <= 6 && #[trigger] face_count(d@, f) >= 4 {
            seq_sum(d@)
        } else {
            0
        },
{
    if exists|f: u8| 1 <= f <= 6 && #[trigger] face_count(d@, f) >= 3 {
        let f = choose|f: u8| 1 <= f <= 6 && #[trigger] face_count(d@, f) >= 3;
        assert(cnt(d@, f) >= 3);
    }
    if exists|f: u8| 1 <= f <= 6 && #[trigger] face_count(d@, f) >= 4 {
        let f = choose|f: u8| 1 <= f <= 6 && #[trigger] face_count(d@, f) >= 4;
        assert(cnt(d@, f) >= 4);
    }
    assert(cnt(d@, 1) == face_count(d@, 1) && cnt(d@, 2) == face_count(d@, 2) && cnt(d@, 3) == face_count(d@, 3));
    assert(cnt(d@, 4) == face_count(d@, 4) && cnt(d@, 5) == face_count(d@, 5) && cnt(d@, 6) == face_count(d@, 6));
}

/// The rest of the scoring table, for five dice: an upper category scores
/// its face times the number of dice showing it; chance scores the sum of
/// the dice; with Joker scores the full house scores 25 and the straights
/// 30 and 40; otherwise the full house scores 25 exactly when one face
/// shows three times and another twice, the small straight 30 exactly when
/// the dice show 1 to 4, 2 to 5 or 3 to 6, and the large straight 40
/// exactly when they show 1 to 5 or 2 to 6, and each scores 0 otherwise.
pub proof fn law_scoring_table(c: Category, d: Dice, joker: bool)
    requires
        d.inv(),
    ensures
        c.upper() ==> base_spec(c, d@, joker) == face_count(d@, c.face() as u8) * c.face(),
        c == Category::Chance ==> base_spec(c, d@, joker) == seq_sum(d@),
        joker ==> base_spec(Category::FullHouse, d@, joker) == 25 && base_spec(Category::SmallStraight, d@, joker)
            == 30 && base_spec(Category::LargeStraight, d@, joker) == 40,
        base_spec(Category::FullHouse, d@, false) == if exists|f: u8, g: u8|
            1 <= f <= 6 && 1 <= g <= 6 && #[trigger] face_count(d@, f) == 3 && #[trigger] face_count(d@, g) == 2 {
            25nat
        } else {
            0nat
        },
        base_spec(Category::SmallStraight, d@, false) == if shows_run(d@, 1, 4) || shows_run(d@, 2, 5) || shows_run(
            d@,
            3,
            6,
        ) {
            30nat
        } else {
            0nat
        },
        base_spec(Category::LargeStraight, d@, false) == if shows_run(d@, 1, 5) || shows_run(d@, 2, 6) {
            40nat
        } else {
            0nat
        },
{
    let s = d@;
    crate::dice::lemma_face_counts_total(s);
    assert(cnt(s, 1) == face_count(s, 1) && cnt(s, 2) == face_count(s, 2) && cnt(s, 3) == face_count(s, 3));
    assert(cnt(s, 4) == face_count(s, 4) && cnt(s, 5) == face_count(s, 5) && cnt(s, 6) == face_count(s, 6));
    assert(shows_run(s, 1, 4) == (face_count(s, 1) > 0 && face_count(s, 2) > 0 && face_count(s, 3) > 0
        && face_count(s, 4) > 0));
    assert(shows_run(s, 2, 5) == (face_count(s, 2) > 0 && face_count(s, 3) > 0 && face_count(s, 4) > 0
        && face_count(s, 5) > 0));
    assert(shows_run(s, 3, 6) == (face_count(s, 3) > 0 && face_count(s, 4) > 0 && face_count(s, 5) > 0
        && face_count(s, 6) > 0));
    assert(shows_run(s, 1, 5) == (shows_run(s, 1, 4) && face_count(s, 5) > 0));
    assert(shows_run(s, 2, 6) == (shows_run(s, 2, 5) && face_count(s, 6) > 0));
    if exists|f: u8, g: u8|
        1 <= f <= 6 && 1 <= g <= 6 && #[trigger] face_count(s, f) == 3 && #[trigger] face_count(s, g) == 2 {
        let (f, g) = choose|f: u8, g: u8|
            1 <= f <= 6 && 1 <= g <= 6 && #[trigger] face_count(s, f) == 3 && #[trigger] face_count(s, g) == 2;
        assert(cnt(s, f) == 3 && cnt(s, g) == 2);
    }
}

/// Whether the dice show every face from `lo` to `hi`.
pub open spec fn shows_run(d: Seq<u8>, lo: u8, hi: u8) -> bool {
    forall|f: u8| lo <= f <= hi ==> #[trigger] face_count(d, f) > 0
}

/// The bonuses of a score: 100 when all five dice match and the Yahtzee box
/// already holds 50; 35 when an upper score lifts the upper subtotal from
/// below 63 to at least 63; and the points a score adds are its category
/// score plus both bonuses.
pub proof fn law_score_bonuses(ruleset: Ruleset, c: Category, d: Dice, sheet: ScoreSheet)
    requires
        d.inv(),
    ensures
        score_spec(ruleset, c, d@, sheet).yahtzee_bonus == if (forall|i: int, j: int|
            0 <= i < 5 && 0 <= j < 5 ==> #[trigger] d@[i] == #[trigger] d@[j]) && sheet.score_of(Category::Yahtzee)
            == Some(50u16) {
            100u16
        } else {
            0u16
        },
        score_spec(ruleset, c, d@, sheet).upper_bonus == if c.upper() && sheet.upper_sum() < 63 && sheet.upper_sum()
            + score_spec(ruleset, c, d@, sheet).base_score >= 63 {
            35u16
        } else {
            0u16
        },
        score_spec(ruleset, c, d@, sheet).total_delta == score_spec(ruleset, c, d@, sheet).base_score + score_spec(
            ruleset,
            c,
            d@,
            sheet,
        ).yahtzee_bonus + score_spec(ruleset, c, d@, sheet).upper_bonus,
{
    let j = joker_spec(ruleset, d@, sheet);
    law_score_at_most_max(c, d, j);
    law_yahtzee_scoring(d, j);
    let s = d@;
    if yahtzee(s) {
        assert forall|i: int, k: int| 0 <= i < 5 && 0 <= k < 5 implies #[trigger] s[i] == #[trigger] s[k] by {
            assert(s[0] <= s[i] <= s[4]);
            assert(s[0] <= s[k] <= s[4]);
        }
    } else {
        assert(!(s[0] == s[4]));
    }
}

/// Yahtzee scores 50 exactly when all five dice match, and 0 otherwise;
/// without Joker scores, such a natural Yahtzee is no full house.
pub proof fn law_yahtzee_scoring(d: Dice, joker: bool)
    requires
        d.inv(),
    ensures
        base_spec(Category::Yahtzee, d@, joker) == if forall|i: int, j: int|
            0 <= i < 5 && 0 <= j < 5 ==> #[trigger] d@[i] == #[trigger] d@[j] {
            50nat
        } else {
            0nat
        },
        yahtzee(d@) ==> base_spec(Category::FullHouse, d@, false) == 0,
{
    let s = d@;
    if yahtzee(s) {
        assert forall|i: int, j: int| 0 <= i < 5 && 0 <= j < 5 implies #[trigger] s[i] == #[trigger] s[j] by {
            assert(s[0] <= s[i] <= s[4]);
            assert(s[0] <= s[j] <= s[4]);
        }
        let v = s[0];
        assert(s =~= seq![v, v, v, v, v]);
        reveal_with_fuel(face_count, 6);
        assert forall|f: u8| #[trigger] cnt(s, f) == if f == v { 5nat } else { 0nat } by {
            assert(s.drop_last() =~= seq![v, v, v, v]);
            assert(s.drop_last().drop_last() =~= seq![v, v, v]);
            assert(s.drop_last().drop_last().drop_last() =~= seq![v, v]);
            assert(s.drop_last().drop_last().drop_last().drop_last() =~= seq![v]);
            assert(s.drop_last().drop_last().drop_last().drop_last().drop_last() =~= Seq::<u8>::empty());
        }
        assert(!some_count_is(s, 3)) by {
            assert(cnt(s, 1) != 3 && cnt(s, 2) != 3 && cnt(s, 3) != 3);
            assert(cnt(s, 4) != 3 && cnt(s, 5) != 3 && cnt(s, 6) != 3);
        }
    } else {
        assert(!(s[0] == s[4]));
    }
}

/// No category ever scores more than its maximum, whatever the dice and
/// whether Joker scores apply.
pub proof fn law_score_at_most_max(c: Category, d: Dice, joker: bool)
    requires
        d.inv(),
    ensures
        base_spec(c, d@, joker) <= max_base(c),
{
    lemma_sum_bound(d@);
    lemma_face_count_le_len(d@, c.face() as u8);
    let n = cnt(d@, c.face() as u8);
    assert(n * (c.face() as nat) <= 5 * (c.face() as nat)) by (nonlinear_arith)
        requires
            n <= 5,
    ;
}

/// Every score the rules award is a score the sheet accepts as recorded.
pub proof fn law_score_is_valid_record(c: Category, d: Dice, joker: bool)
    requires
        d.inv(),
    ensures
        valid_recorded(c, base_spec(c, d@, joker) as int),
{
    law_score_at_most_max(c, d, joker);
    if c.upper() {
        let n = cnt(d@, c.face() as u8);
        lemma_mod_multiples_basic(n as int, c.face());
    }
}

/// Sums over the first `n` categories after one open category `c` was
/// filled with `base`.
proof fn lemma_points_after_fill(before: ScoreSheet, after: ScoreSheet, c: Category, base: nat, n: int)
    requires
        0 <= n <= 13,
        before.score_of(c) is None,
        after.score_of(c) == Some(base as u16),
        base <= u16::MAX,
        forall|o: Category| o != c ==> #[trigger] after.score_of(o) == before.score_of(o),
    ensures
        after.points_upto(n) == before.points_upto(n) + if c.idx() < n {
            base
        } else {
            0
        },
        after.filled_upto(n) == before.filled_upto(n) + if c.idx() < n {
            1nat
        } else {
            0nat
        },
    decreases n,
{
    if n > 0 {
        lemma_points_after_fill(before, after, c, base, n - 1);
        let o = category_at(n - 1);
        crate::category::lemma_category_index_roundtrip(c, n - 1);
        if o != c {
            assert(after.score_of(o) == before.score_of(o));
        }
    }
}

/// Scoring a category fills exactly that category, and the sheet's final
/// score grows by exactly the reported total: the category's score, the
/// Yahtzee bonus and the upper bonus if this score crossed the threshold.
pub proof fn law_scoring_adds_total_delta(
    ruleset: Ruleset,
    d: Dice,
    before: ScoreSheet,
    after: ScoreSheet,
    c: Category,
)
    requires
        d.inv(),
        !before.filled(c),
        scored_sheet(before, after, c, score_spec(ruleset, c, d@, before)),
    ensures
        after.total() == before.total() + score_spec(ruleset, c, d@, before).total_delta,
        after.filled_total() == before.filled_total() + 1,
        after.filled(c),
{
    let base = base_spec(c, d@, joker_spec(ruleset, d@, before));
    law_score_at_most_max(c, d, joker_spec(ruleset, d@, before));
    lemma_points_after_fill(before, after, c, base, 13);
    lemma_points_after_fill(before, after, c, base, 6);
}

/// Scoring can only raise the final score.
pub proof fn law_scoring_never_lowers_total(
    ruleset: Ruleset,
    d: Dice,
    before: ScoreSheet,
    after: ScoreSheet,
    c: Category,
)
    requires
        d.inv(),
        !before.filled(c),
        scored_sheet(before, after, c, score_spec(ruleset, c, d@, before)),
    ensures
        after.total() >= before.total(),
{
    law_scoring_adds_total_delta(ruleset, d, before, after, c);
}

proof fn lemma_open_between(s: ScoreSheet, lo: int, n: int)
    requires
        0 <= lo <= n <= 13,
    ensures
        forall|i: int|
            0 <= i < s.open_between(lo, n).len() ==> !s.filled(#[trigger] s.open_between(lo, n)[i]),
        forall|k: int| lo <= k < n && !s.filled(category_at(k)) ==> s.open_between(lo, n).len() > 0,
    decreases n - lo,
{
    if n > lo {
        lemma_open_between(s, lo, n - 1);
        let p = s.open_between(lo, n - 1);
        if !s.filled(category_at(n - 1)) {
            assert forall|i: int| 0 <= i < p.push(category_at(n - 1)).len() implies !s.filled(
                #[trigger] p.push(category_at(n - 1))[i],
            ) by {
                if i < p.len() {
                    assert(p.push(category_at(n - 1))[i] == p[i]);
                }
            }
        }
    }
}

proof fn lemma_some_open(s: ScoreSheet, n: int)
    requires
        0 <= n <= 13,
        s.filled_upto(n) < n,
    ensures
        exists|k: int| 0 <= k < n && !s.filled(#[trigger] category_at(k)),
    decreases n,
{
    if n > 0 {
        if s.filled(category_at(n - 1)) {
            lemma_some_open(s, n - 1);
        } else {
            assert(!s.filled(category_at(n - 1)));
        }
    }
}

/// While the sheet has an open category, the rules allow scoring in at
/// least one category, and only in open categories.
pub proof fn law_legal_categories_are_open(ruleset: Ruleset, d: Dice, sheet: ScoreSheet)
    requires
        d.inv(),
        sheet.filled_total() < 13,
    ensures
        legal_spec(ruleset, d@, sheet).len() > 0,
        forall|i: int|
            0 <= i < legal_spec(ruleset, d@, sheet).len() ==> !sheet.filled(
                #[trigger] legal_spec(ruleset, d@, sheet)[i],
            ),
{
    lemma_some_open(sheet, 13);
    let k = choose|k: int| 0 <= k < 13 && !sheet.filled(#[trigger] category_at(k));
    lemma_open_between(sheet, 0, 13);
    lemma_open_between(sheet, 6, 13);
    lemma_open_between(sheet, 0, 6);
    if forced_joker(ruleset, d@, sheet) && sheet.filled(matching_upper(d@)) && sheet.open_between(6, 13).len()
        == 0 {
        assert(k < 6);
    }
}

/// Under Hasbro rules a Yahtzee box scored 0 gives no bonus and no Joker:
/// a later Yahtzee may go in any open category and scores as usual there.
pub proof fn law_zeroed_yahtzee_scores_normally(d: Dice, sheet: ScoreSheet, c: Category)
    requires
        d.inv(),
        sheet.score_of(Category::Yahtzee) == Some(0u16),
    ensures
        !earns_bonus(d@, sheet),
        !joker_spec(Ruleset::HasbroStrict, d@, sheet),
        legal_spec(Ruleset::HasbroStrict, d@, sheet) == sheet.open_categories(),
        score_spec(Ruleset::HasbroStrict, c, d@, sheet).yahtzee_bonus == 0,
        score_spec(Ruleset::HasbroStrict, c, d@, sheet).base_score == base_spec(c, d@, false),
{
    law_score_at_most_max(c, d, false);
}

/// A Yahtzee bonus of 100 is earned exactly when the dice are a Yahtzee and
/// the Yahtzee box already holds 50, under either ruleset.
pub proof fn law_yahtzee_bonus_needs_fifty(ruleset: Ruleset, c: Category, d: Dice, sheet: ScoreSheet)
    ensures
        score_spec(ruleset, c, d@, sheet).yahtzee_bonus == if yahtzee(d@) && sheet.fifty() {
            100u16
        } else {
            0u16
        },
{
}

/// A roll keeps the held dice: every face shows on the new dice as often as
/// on the held dice and the fresh faces together.
pub proof fn law_roll_keeps_held_dice(state: GameState, hold_mask: u8, rolled: Seq<u8>, next: Seq<u8>)
    requires
        all_faces(roll_faces(state, hold_mask, rolled)),
        next == crate::dice::sorted_faces(roll_faces(state, hold_mask, rolled)),
    ensures
        forall|f: u8|
            #[trigger] face_count(next, f) == face_count(rolled, f) + match state.dice_of() {
                Some(d) => face_count(crate::dice::kept_spec(d@, hold_mask, 5), f),
                None => 0,
            },
{
    let faces = roll_faces(state, hold_mask, rolled);
    crate::dice::lemma_sorted_faces(faces);
    assert forall|f: u8|
        #[trigger] face_count(next, f) == face_count(rolled, f) + match state.dice_of() {
            Some(d) => face_count(crate::dice::kept_spec(d@, hold_mask, 5), f),
            None => 0,
        } by {
        match state.dice_of() {
            Some(d) => {
                crate::distribution::lemma_face_count_concat(crate::dice::kept_spec(d@, hold_mask, 5), rolled, f);
            },
            None => {},
        }
    }
}

/// Five equal dice show their face five times and no other face.
proof fn lemma_yahtzee_counts(d: Dice, f: u8)
    requires
        d.inv(),
        yahtzee(d@),
    ensures
        cnt(d@, f) == if f == d@[0] {
            5nat
        } else {
            0nat
        },
{
    reveal_with_fuel(face_count, 6);
    assert(d@[0] <= d@[1] && d@[1] <= d@[2] && d@[2] <= d@[3] && d@[3] <= d@[4]);
    assert(d@.drop_last().drop_last().drop_last().drop_last().drop_last().len() == 0);
}

/// Under BuddyBoardGames rules a roll may be scored in any open category,
/// Yahtzee or not.
pub proof fn law_buddyboardgames_free_choice(d: Dice, sheet: ScoreSheet)
    ensures
        legal_spec(Ruleset::BuddyBoardGames, d@, sheet) == sheet.open_categories(),
{
}

/// Under BuddyBoardGames rules a Yahtzee scores full house and the straights
/// at their fixed values exactly when both the Yahtzee row and the matching
/// upper row are filled, and 0 there otherwise; with the Yahtzee row scored
/// 0 it still does so, but earns no Yahtzee bonus.
pub proof fn law_buddyboardgames_joker(d: Dice, sheet: ScoreSheet, c: Category)
    requires
        d.inv(),
        yahtzee(d@),
    ensures
        score_spec(Ruleset::BuddyBoardGames, Category::FullHouse, d@, sheet).base_score == if sheet.filled(
            Category::Yahtzee,
        ) && sheet.filled(matching_upper(d@)) {
            25u16
        } else {
            0u16
        },
        score_spec(Ruleset::BuddyBoardGames, Category::SmallStraight, d@, sheet).base_score == if sheet.filled(
            Category::Yahtzee,
        ) && sheet.filled(matching_upper(d@)) {
            30u16
        } else {
            0u16
        },
        score_spec(Ruleset::BuddyBoardGames, Category::LargeStraight, d@, sheet).base_score == if sheet.filled(
            Category::Yahtzee,
        ) && sheet.filled(matching_upper(d@)) {
            40u16
        } else {
            0u16
        },
        sheet.score_of(Category::Yahtzee) == Some(0u16) ==> score_spec(
            Ruleset::BuddyBoardGames,
            c,
            d@,
            sheet,
        ).yahtzee_bonus == 0,
{
    lemma_yahtzee_counts(d, 1);
    lemma_yahtzee_counts(d, 2);
    lemma_yahtzee_counts(d, 3);
    lemma_yahtzee_counts(d, 4);
    lemma_yahtzee_counts(d, 5);
    lemma_yahtzee_counts(d, 6);
    assert(crate::dice::is_face(d@[0]));
}

/// The key the exact-table builder computes for a scored category is the key
/// of the sheet after that score.
pub proof fn law_next_key_is_key_of_scored_sheet(
    before: ScoreSheet,
    after: ScoreSheet,
    c: Category,
    base: u16,
    k: AnchorKey,
)
    requires
        before.score_of(c) is None,
        after.score_of(c) == Some(base),
        forall|o: Category| o != c ==> #[trigger] after.score_of(o) == before.score_of(o),
        next_key_ok(before, c, base, k),
    ensures
        is_key_of(k, after),
{
    lemma_points_after_fill(before, after, c, base as nat, 6);
    crate::category::lemma_category_index_roundtrip(c, 0);
    assert forall|i: int| 0 <= i < 13 implies (#[trigger] mask_bit(k.filled_mask, i) <==> after.filled(
        category_at(i),
    )) by {
        crate::category::lemma_category_index_roundtrip(c, i);
        if category_at(i) != c {
            assert(after.score_of(category_at(i)) == before.score_of(category_at(i)));
        }
    }
    if c != Category::Yahtzee {
        assert(after.score_of(Category::Yahtzee) == before.score_of(Category::Yahtzee));
    }
    assert(c.upper() <==> c.idx() < 6);
}

proof fn lemma_filled_upto_bound(s: ScoreSheet, n: int)
    requires
        0 <= n,
    ensures
        s.filled_upto(n) <= n,
    decreases n,
{
    if n > 0 {
        lemma_filled_upto_bound(s, n - 1);
    }
}

/// The actions the rules list are exactly the ones a state accepts: a roll
/// whose hold passes the turn checks, or a score in a legal category (which
/// is open) of a state that has dice.
pub proof fn law_legal_actions_are_accepted(ruleset: Ruleset, state: GameState, a: Action)
    requires
        state.dice_of() matches Some(d) ==> d.inv(),
    ensures
        actions_spec(ruleset, state).contains(a) <==> match a {
            Action::Roll { hold_mask } => Rules::roll_allowed(state, hold_mask),
            Action::Score { category } => !state.terminal() && state.dice_of() is Some && legal_spec(
                ruleset,
                state.dice_of()->0@,
                state.sheet_of(),
            ).contains(category),
        },
        actions_spec(ruleset, state).contains(a) && a is Score ==> !state.sheet_of().filled(a->category),
{
    let acts = actions_spec(ruleset, state);
    if !state.terminal() {
        match state.dice_of() {
            None => {
                assert(acts =~= seq![Action::Roll { hold_mask: 0 }]);
                if acts.contains(a) {
                    assert(a == acts[0]);
                }
                if a == (Action::Roll { hold_mask: 0 }) {
                    assert(acts[0] == a);
                }
            },
            Some(d) => {
                let rolls: Seq<Action> = if state.rolls() < 3 {
                    all_rolls()
                } else {
                    Seq::empty()
                };
                let legal = legal_spec(ruleset, d@, state.sheet_of());
                let scores = legal.map_values(|c: Category| Action::Score { category: c });
                assert(acts == rolls + scores);
                match a {
                    Action::Roll { hold_mask } => {
                        if acts.contains(a) {
                            let j = choose|j: int| 0 <= j < acts.len() && acts[j] == a;
                            if j >= rolls.len() {
                                assert(acts[j] == scores[j - rolls.len()]);
                            }
                        }
                        if Rules::roll_allowed(state, hold_mask) {
                            assert(acts[hold_mask as int] == rolls[hold_mask as int]);
                        }
                    },
                    Action::Score { category } => {
                        if acts.contains(a) {
                            let j = choose|j: int| 0 <= j < acts.len() && acts[j] == a;
                            if j < rolls.len() {
                                assert(acts[j] == rolls[j]);
                            } else {
                                assert(acts[j] == scores[j - rolls.len()]);
                                assert(legal[j - rolls.len()] == category);
                            }
                        }
                        if legal.contains(category) {
                            let k = choose|k: int| 0 <= k < legal.len() && legal[k] == category;
                            assert(acts[rolls.len() + k] == scores[k]);
                        }
                        if acts.contains(a) {
                            lemma_filled_upto_bound(state.sheet_of(), 13);
                            law_legal_categories_are_open(ruleset, d, state.sheet_of());
                            let k = choose|k: int| 0 <= k < legal.len() && legal[k] == category;
                            assert(!state.sheet_of().filled(legal[k]));
                        }
                    },
                }
            },
        }
    } else {
        assert(acts =~= Seq::<Action>::empty());
    }
}

} // verus!
