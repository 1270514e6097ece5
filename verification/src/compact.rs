//! The compact state text: `dice=1,2,3,4,5 rolls=2 scores=ones:3,twos:6
//! yahtzee_bonus=1`, written from a state and read back.
use crate::category::{
    category_at, category_for_normalized, lemma_name_bytes, lemma_name_normalizes, lemma_name_plain, name_bytes,
    Category,
};
use crate::dice::{dice_text, dice_text_spec, lemma_dice_text_reads, Dice};
use crate::rules::valid_recorded;
use crate::sheet::ScoreSheet;
use crate::state::{Action, GameState};
use crate::text::{
    ascii_bytes, is_space, lacks, lemma_ascii_concat, lemma_decimal_bounded, lemma_decimal_plain,
    lemma_decimal_reads, lemma_encode_ascii, lemma_literal_bytes, lemma_spaceless_concat, lemma_split_append,
    lemma_split_once_at, lemma_split_single, lemma_words_append, lemma_words_space, spaceless,
    lemma_ascii_bytes_small, lemma_spaces_mapped_ascii, map_wide_spaces, spaces_mapped,
    bytes_eq, message, decimal_chars, is_word, normalize_spec, parse_bounded, parse_bounded_spec,
    push_decimal, push_str, split_bytes, split_once, split_once_spec, split_spec,
    split_words, trim, trim_spec, words_spec,
};
use crate::{fault_matches, quoted, KeiriError, ParseFault};
use vstd::prelude::*;
use vstd::string::StringSliceAdditionalSpecFns;
use vstd::utf8::{encode_utf8, is_ascii_chars};

verus! {

// ---------------------------------------------------------------------------
// Writing
// ---------------------------------------------------------------------------

/// `name:score` for one filled category.
pub open spec fn entry_text(e: (Category, u16)) -> Seq<char> {
    e.0.name_spec() + ":"@ + decimal_chars(e.1 as nat)
}

/// Filled categories joined by commas.
pub open spec fn entries_text(list: Seq<(Category, u16)>) -> Seq<char>
    decreases list.len(),
{
    if list.len() == 0 {
        Seq::empty()
    } else if list.len() == 1 {
        entry_text(list[0])
    } else {
        entries_text(list.drop_last()) + ","@ + entry_text(list.last())
    }
}

/// The compact text of a state.
pub open spec fn compact_text(st: GameState) -> Seq<char> {
    let list = st.sheet_of().filled_list(13);
    let bonus = st.sheet_of().bonus_count();
    "dice="@ + (match st.dice_of() {
        Some(d) => dice_text(d@),
        None => "none"@,
    }) + " rolls="@ + decimal_chars(st.rolls() as nat) + (if list.len() > 0 {
        " scores="@ + entries_text(list)
    } else {
        Seq::empty()
    }) + (if bonus > 0 {
        " yahtzee_bonus="@ + decimal_chars(bonus as nat)
    } else {
        Seq::empty()
    })
}

impl GameState {
    /// The state as compact text.
    pub fn to_compact(&self) -> (r: String)
        ensures
            r@ == compact_text(*self),
    {
        let mut out = String::new();
        push_str(&mut out, "dice=");
        match self.dice() {
            Some(d) => {
                let t = d.to_text();
                push_str(&mut out, t.as_str());
            },
            None => push_str(&mut out, "none"),
        }
        push_str(&mut out, " rolls=");
        push_decimal(&mut out, self.rolls_used() as u64);
        let list = self.sheet().filled_scores();
        if list.len() > 0 {
            push_str(&mut out, " scores=");
            let ghost start = out@;
            let mut i: usize = 0;
            while i < list.len()
                invariant
                    i <= list@.len(),
                    out@ == start + entries_text(list@.take(i as int)),
                decreases list.len() - i,
            {
                assert(list@.take(i as int + 1).drop_last() =~= list@.take(i as int));
                if i > 0 {
                    push_str(&mut out, ",");
                }
                let (c, v) = list[i];
                push_str(&mut out, c.name());
                push_str(&mut out, ":");
                push_decimal(&mut out, v as u64);
                i += 1;
                assert(out@ =~= start + entries_text(list@.take(i as int)));
            }
            assert(list@.take(list@.len() as int) =~= list@);
        }
        let bonus = self.sheet().yahtzee_bonus_count();
        if bonus > 0 {
            push_str(&mut out, " yahtzee_bonus=");
            push_decimal(&mut out, bonus as u64);
        }
        out
    }
}

/// The five bits of a hold mask, highest first.
pub open spec fn mask_bits_text(m: u8) -> Seq<char> {
    seq![
        if (m / 16) % 2 == 1 { '1' } else { '0' },
        if (m / 8) % 2 == 1 { '1' } else { '0' },
        if (m / 4) % 2 == 1 { '1' } else { '0' },
        if (m / 2) % 2 == 1 { '1' } else { '0' },
        if m % 2 == 1 { '1' } else { '0' },
    ]
}

/// How an action is written: `roll hold_mask=00101` or `score chance`.
pub open spec fn action_text(a: Action) -> Seq<char> {
    match a {
        Action::Roll { hold_mask } => "roll hold_mask="@ + mask_bits_text(hold_mask),
        Action::Score { category } => "score "@ + category.name_spec(),
    }
}

/// Appends `1` or `0`.
fn push_bit(out: &mut String, b: bool)
    ensures
        final(out)@ == old(out)@ + seq![if b { '1' } else { '0' }],
{
    proof {
        reveal_strlit("0");
        reveal_strlit("1");
    }
    if b {
        out.append("1");
    } else {
        out.append("0");
    }
}

/// Appends the five low bits of `m`, highest first.
pub fn push_mask_bits(out: &mut String, m: u8)
    ensures
        final(out)@ == old(out)@ + mask_bits_text(m),
{
    push_bit(out, (m / 16) % 2 == 1);
    push_bit(out, (m / 8) % 2 == 1);
    push_bit(out, (m / 4) % 2 == 1);
    push_bit(out, (m / 2) % 2 == 1);
    push_bit(out, m % 2 == 1);
    assert(final(out)@ =~= old(out)@ + mask_bits_text(m));
}

impl Action {
    /// The action as text.
    pub fn to_text(&self) -> (r: String)
        ensures
            match *self {
                Action::Roll { hold_mask } => hold_mask < 32 ==> r@ == action_text(*self),
                Action::Score { .. } => r@ == action_text(*self),
            },
    {
        let mut out = String::new();
        match *self {
            Action::Roll { hold_mask } => {
                push_str(&mut out, "roll hold_mask=");
                if hold_mask < 32 {
                    push_mask_bits(&mut out, hold_mask);
                } else {
                    push_decimal(&mut out, hold_mask as u64);
                }
            },
            Action::Score { category } => {
                push_str(&mut out, "score ");
                push_str(&mut out, category.name());
            },
        }
        out
    }
}

// ---------------------------------------------------------------------------
// Reading
// ---------------------------------------------------------------------------

/// What the tokens read so far describe.
pub struct CompactModel {
    pub dice: Option<Seq<u8>>,
    pub rolls: Option<u8>,
    pub scores: Seq<Option<u16>>,
    pub bonus: u16,
}

pub open spec fn empty_model() -> CompactModel {
    CompactModel {
        dice: None,
        rolls: None,
        scores: Seq::new(13, |i: int| None::<u16>),
        bonus: 0,
    }
}

/// Reading one `category:score` entry into the recorded scores.
pub open spec fn entry_step(scores: Seq<Option<u16>>, entry: Seq<u8>) -> Result<
    Seq<Option<u16>>,
    ParseFault,
> {
    match split_once_spec(entry, 58) {
        None => Err(ParseFault::Syntax(quoted("score entry `"@, entry, "` must be category:score"@))),
        Some((name, num)) => match category_for_normalized(normalize_spec(name)) {
            None => Err(ParseFault::Syntax(quoted("unknown category `"@, name, "`"@))),
            Some(c) => match parse_bounded_spec(num, 65535) {
                None => Err(ParseFault::Syntax(quoted("invalid score `"@, num, "`"@))),
                Some(v) => if !valid_recorded(c, v as int) {
                    Err(ParseFault::BadRecord(c, v as u16))
                } else if scores[c.idx()] is Some {
                    Err(ParseFault::AlreadyFilled(c))
                } else {
                    Ok(scores.update(c.idx(), Some(v as u16)))
                },
            },
        },
    }
}

/// Reading a list of entries, first to last; the first failure stops it.
pub open spec fn entries_spec(scores: Seq<Option<u16>>, entries: Seq<Seq<u8>>) -> Result<
    Seq<Option<u16>>,
    ParseFault,
>
    decreases entries.len(),
{
    if entries.len() == 0 {
        Ok(scores)
    } else {
        match entries_spec(scores, entries.drop_last()) {
            Ok(s) => entry_step(s, entries.last()),
            Err(f) => Err(f),
        }
    }
}

/// Reading the value of `scores=`: nothing for blank text, else the
/// comma-separated entries.
pub open spec fn scores_value_spec(scores: Seq<Option<u16>>, value: Seq<u8>) -> Result<
    Seq<Option<u16>>,
    ParseFault,
> {
    if trim_spec(value).len() == 0 {
        Ok(scores)
    } else {
        entries_spec(scores, split_spec(value, 44))
    }
}

/// Reading one `key=value` token.
pub open spec fn token_step(m: CompactModel, tok: Seq<u8>) -> Result<CompactModel, ParseFault> {
    match split_once_spec(tok, 61) {
        None => Err(ParseFault::Syntax(quoted("state token `"@, tok, "` must be key=value"@))),
        Some((key, value)) => if is_word(key, "dice") {
            if is_word(value, "-") || is_word(value, "none") || is_word(value, "None") {
                Ok(CompactModel { dice: None, ..m })
            } else {
                match dice_text_spec(value) {
                    Ok(d) => Ok(CompactModel { dice: Some(d), ..m }),
                    Err(f) => Err(f),
                }
            }
        } else if is_word(key, "rolls") {
            match parse_bounded_spec(value, 255) {
                Some(v) => Ok(CompactModel { rolls: Some(v as u8), ..m }),
                None => Err(ParseFault::Syntax(quoted("invalid rolls value `"@, value, "`"@))),
            }
        } else if is_word(key, "scores") {
            match scores_value_spec(m.scores, value) {
                Ok(s) => Ok(CompactModel { scores: s, ..m }),
                Err(f) => Err(f),
            }
        } else if is_word(key, "yahtzee_bonus") {
            match parse_bounded_spec(value, 65535) {
                Some(v) => Ok(CompactModel { bonus: v as u16, ..m }),
                None => Err(ParseFault::Syntax(quoted("invalid yahtzee_bonus value `"@, value, "`"@))),
            }
        } else {
            Err(ParseFault::Syntax(quoted("unknown state key `"@, key, "`"@)))
        },
    }
}

/// Reading all tokens, first to last.
pub open spec fn tokens_spec(toks: Seq<Seq<u8>>) -> Result<CompactModel, ParseFault>
    decreases toks.len(),
{
    if toks.len() == 0 {
        Ok(empty_model())
    } else {
        match tokens_spec(toks.drop_last()) {
            Ok(m) => token_step(m, toks.last()),
            Err(f) => Err(f),
        }
    }
}

/// The rolls a model stands for: as given, else 1 with dice and 0 without.
pub open spec fn model_rolls(m: CompactModel) -> u8 {
    match m.rolls {
        Some(r) => r,
        None => if m.dice is Some {
            1
        } else {
            0
        },
    }
}

/// What reading compact tokens gives.
pub open spec fn compact_spec(toks: Seq<Seq<u8>>) -> Result<CompactModel, ParseFault> {
    match tokens_spec(toks) {
        Err(f) => Err(f),
        Ok(m) => {
            let r = model_rolls(m);
            if r <= 3 && (m.dice is None <==> r == 0) {
                Ok(m)
            } else {
                Err(ParseFault::RollCount(r))
            }
        },
    }
}

/// Whether the state `st` is the one a model describes.
pub open spec fn state_matches(st: GameState, m: CompactModel) -> bool {
    &&& match (st.dice_of(), m.dice) {
        (Some(d), Some(v)) => d@ == v,
        (None, None) => true,
        _ => false,
    }
    &&& st.rolls() == model_rolls(m)
    &&& forall|i: int|
        0 <= i < 13 ==> #[trigger] st.sheet_of().score_of(category_at(i)) == m.scores[i]
    &&& st.sheet_of().bonus_count() == m.bonus
}

/// Whether a read state is the outcome described.
pub open spec fn state_outcome(r: Result<GameState, KeiriError>, o: Result<CompactModel, ParseFault>) -> bool {
    match (r, o) {
        (Ok(st), Ok(m)) => state_matches(st, m),
        (Err(e), Err(f)) => fault_matches(e, f),
        _ => false,
    }
}

/// The recorded scores of a sheet that differs from `before` only in `c`.
pub proof fn lemma_model_after_fill(before: ScoreSheet, after: ScoreSheet, c: Category, v: u16)
    requires
        after.score_of(c) == Some(v),
        forall|o: Category| o != c ==> #[trigger] after.score_of(o) == before.score_of(o),
    ensures
        after.score_model() == before.score_model().update(c.idx(), Some(v)),
{
    assert forall|i: int| 0 <= i < 13 implies after.score_model()[i] == before.score_model().update(
        c.idx(),
        Some(v),
    )[i] by {
        crate::category::lemma_category_index_roundtrip(c, i);
        if i != c.idx() {
            assert(category_at(i) != c);
            assert(after.score_of(category_at(i)) == before.score_of(category_at(i)));
        }
    }
    assert(after.score_model() =~= before.score_model().update(c.idx(), Some(v)));
}

/// Reads one `category:score` entry into `sheet`.
fn read_entry(entry: &[u8], sheet: &mut ScoreSheet) -> (r: Result<(), KeiriError>)
    ensures
        match entry_step(old(sheet).score_model(), entry@) {
            Ok(s) => r is Ok && final(sheet).score_model() == s,
            Err(f) => r is Err && fault_matches(r->Err_0, f),
        },
        final(sheet).bonus_count() == old(sheet).bonus_count(),
{
    let (name, num) = match split_once(entry, 58) {
        Some(p) => p,
        None => return Err(
            KeiriError::ParseError(message("score entry `", entry, "` must be category:score")),
        ),
    };
    let category = match Category::from_bytes(name.as_slice()) {
        Some(c) => c,
        None => return Err(
            KeiriError::ParseError(message("unknown category `", name.as_slice(), "`")),
        ),
    };
    let score = match parse_bounded(num.as_slice(), 65535) {
        Some(v) => v as u16,
        None => return Err(KeiriError::ParseError(message("invalid score `", num.as_slice(), "`"))),
    };
    proof {
        crate::category::lemma_category_index_roundtrip(category, 0);
        assert(old(sheet).score_model()[category.idx()] == old(sheet).score_of(category));
    }
    let result = sheet.fill_validated(category, score);
    proof {
        if result is Ok {
            lemma_model_after_fill(*old(sheet), *sheet, category, score);
        }
    }
    result
}

proof fn lemma_entries_err(scores: Seq<Option<u16>>, entries: Seq<Seq<u8>>, n: int)
    requires
        0 < n <= entries.len(),
        entries_spec(scores, entries.take(n)) is Err,
    ensures
        entries_spec(scores, entries) == entries_spec(scores, entries.take(n)),
    decreases entries.len() - n,
{
    if n < entries.len() {
        assert(entries.take(n + 1).drop_last() =~= entries.take(n));
        lemma_entries_err(scores, entries, n + 1);
    } else {
        assert(entries.take(n) =~= entries);
    }
}

/// Reads the value of a `scores=` token into `sheet`.
fn read_scores(value: &[u8], sheet: &mut ScoreSheet) -> (r: Result<(), KeiriError>)
    ensures
        match scores_value_spec(old(sheet).score_model(), value@) {
            Ok(s) => r is Ok && final(sheet).score_model() == s,
            Err(f) => r is Err && fault_matches(r->Err_0, f),
        },
        final(sheet).bonus_count() == old(sheet).bonus_count(),
{
    let ghost scores = old(sheet).score_model();
    let trimmed = trim(value);
    if trimmed.len() == 0 {
        return Ok(());
    }
    let entries = split_bytes(value, 44);
    let ghost sp = split_spec(value@, 44);
    let mut i: usize = 0;
    while i < entries.len()
        invariant
            i <= entries@.len() == sp.len(),
            sp == split_spec(value@, 44),
            scores == old(sheet).score_model(),
            trim_spec(value@).len() != 0,
            forall|k: int| 0 <= k < entries@.len() ==> (#[trigger] entries@[k])@ == sp[k],
            entries_spec(scores, sp.take(i as int)) == Ok::<Seq<Option<u16>>, ParseFault>(
                sheet.score_model(),
            ),
            sheet.bonus_count() == old(sheet).bonus_count(),
        decreases entries.len() - i,
    {
        assert(sp.take(i as int + 1).drop_last() =~= sp.take(i as int));
        let r = read_entry(entries[i].as_slice(), sheet);
        if r.is_err() {
            proof {
                lemma_entries_err(scores, sp, i as int + 1);
            }
            return r;
        }
        i += 1;
    }
    assert(sp.take(sp.len() as int) =~= sp);
    Ok(())
}

proof fn lemma_tokens_err(toks: Seq<Seq<u8>>, n: int)
    requires
        0 < n <= toks.len(),
        tokens_spec(toks.take(n)) is Err,
    ensures
        tokens_spec(toks) == tokens_spec(toks.take(n)),
    decreases toks.len() - n,
{
    if n < toks.len() {
        assert(toks.take(n + 1).drop_last() =~= toks.take(n));
        lemma_tokens_err(toks, n + 1);
    } else {
        assert(toks.take(n) =~= toks);
    }
}

/// Whether the parts read so far are those of a model.
pub open spec fn parts_match(
    dice: Option<Dice>,
    rolls: Option<u8>,
    sheet: ScoreSheet,
    m: CompactModel,
) -> bool {
    &&& match (dice, m.dice) {
        (Some(d), Some(v)) => d@ == v,
        (None, None) => true,
        _ => false,
    }
    &&& rolls == m.rolls
    &&& sheet.score_model() == m.scores
    &&& sheet.bonus_count() == m.bonus
}

/// Reads a state from `key=value` tokens.
#[verifier::spinoff_prover]
#[verifier::rlimit(50)]
pub fn read_compact_tokens(tokens: &Vec<Vec<u8>>) -> (r: Result<GameState, KeiriError>)
    ensures
        state_outcome(r, compact_spec(tokens@.map_values(|t: Vec<u8>| t@))),
{
    let ghost toks = tokens@.map_values(|t: Vec<u8>| t@);
    let mut dice: Option<Dice> = None;
    let mut rolls: Option<u8> = None;
    let mut sheet = ScoreSheet::new();
    proof {
        assert(sheet.score_model() =~= empty_model().scores);
    }
    let mut i: usize = 0;
    while i < tokens.len()
        invariant
            i <= tokens@.len() == toks.len(),
            toks == tokens@.map_values(|t: Vec<u8>| t@),
            tokens_spec(toks.take(i as int)) is Ok,
            parts_match(dice, rolls, sheet, tokens_spec(toks.take(i as int))->Ok_0),
        decreases tokens.len() - i,
    {
        assert(toks.take(i as int + 1).drop_last() =~= toks.take(i as int));
        let ghost m = tokens_spec(toks.take(i as int))->Ok_0;
        let token = tokens[i].as_slice();
        assert(token@ == toks[i as int]);
        let (key, value) = match split_once(token, 61) {
            Some(p) => p,
            None => {
                proof {
                    lemma_tokens_err(toks, i as int + 1);
                }
                return Err(
                    KeiriError::ParseError(message("state token `", token, "` must be key=value")),
                );
            },
        };
        let key = key.as_slice();
        let value = value.as_slice();
        if bytes_eq(key, "dice".as_bytes()) {
            if bytes_eq(value, "-".as_bytes()) || bytes_eq(value, "none".as_bytes()) || bytes_eq(
                value,
                "None".as_bytes(),
            ) {
                dice = None;
            } else {
                match Dice::parse_bytes(value) {
                    Ok(d) => {
                        dice = Some(d);
                    },
                    Err(e) => {
                        proof {
                            lemma_tokens_err(toks, i as int + 1);
                        }
                        return Err(e);
                    },
                }
            }
        } else if bytes_eq(key, "rolls".as_bytes()) {
            match parse_bounded(value, 255) {
                Some(v) => {
                    rolls = Some(v as u8);
                },
                None => {
                    proof {
                        lemma_tokens_err(toks, i as int + 1);
                    }
                    return Err(
                        KeiriError::ParseError(message("invalid rolls value `", value, "`")),
                    );
                },
            }
        } else if bytes_eq(key, "scores".as_bytes()) {
            let r = read_scores(value, &mut sheet);
            if r.is_err() {
                proof {
                    lemma_tokens_err(toks, i as int + 1);
                }
                return Err(
                    match r {
                        Err(e) => e,
                        Ok(_) => KeiriError::TerminalState,
                    },
                );
            }
        } else if bytes_eq(key, "yahtzee_bonus".as_bytes()) {
            match parse_bounded(value, 65535) {
                Some(v) => {
                    sheet.set_yahtzee_bonus_count(v as u16);
                    proof {
                        assert(sheet.score_model() =~= m.scores);
                    }
                },
                None => {
                    proof {
                        lemma_tokens_err(toks, i as int + 1);
                    }
                    return Err(
                        KeiriError::ParseError(message("invalid yahtzee_bonus value `", value, "`")),
                    );
                },
            }
        } else {
            proof {
                lemma_tokens_err(toks, i as int + 1);
            }
            return Err(KeiriError::ParseError(message("unknown state key `", key, "`")));
        }
        i += 1;
    }
    assert(toks.take(toks.len() as int) =~= toks);
    let rolls = match rolls {
        Some(r) => r,
        None => if dice.is_some() {
            1
        } else {
            0
        },
    };
    let r = GameState::from_parts(dice, rolls, sheet);
    proof {
        if r is Ok {
            let st = r->Ok_0;
            assert forall|i: int| 0 <= i < 13 implies #[trigger] st.sheet_of().score_of(category_at(i))
                == tokens_spec(toks)->Ok_0.scores[i] by {
                assert(st.sheet_of().score_model()[i] == st.sheet_of().score_of(category_at(i)));
            }
        }
    }
    r
}

/// Each token's bytes, with white space beyond ASCII as single spaces.
pub(crate) fn token_bytes(tokens: &[&str]) -> (r: Vec<Vec<u8>>)
    ensures
        r@.map_values(|t: Vec<u8>| t@) == tokens@.map_values(|t: &str| spaces_mapped(t.spec_bytes())),
{
    let mut out: Vec<Vec<u8>> = Vec::new();
    let mut i: usize = 0;
    while i < tokens.len()
        invariant
            i <= tokens@.len(),
            out@.len() == i,
            forall|j: int| 0 <= j < i ==> (#[trigger] out@[j])@ == spaces_mapped(tokens@[j].spec_bytes()),
        decreases tokens.len() - i,
    {
        let v = map_wide_spaces(tokens[i].as_bytes());
        out.push(v);
        i += 1;
    }
    assert(out@.map_values(|t: Vec<u8>| t@) =~= tokens@.map_values(|t: &str| spaces_mapped(t.spec_bytes())));
    out
}

impl GameState {
    /// Reads a state from compact text: white-space separated `key=value`
    /// tokens with keys `dice`, `rolls`, `scores` and `yahtzee_bonus`.
    pub fn parse_compact(input: &str) -> (r: Result<Self, KeiriError>)
        ensures
            state_outcome(r, compact_spec(words_spec(spaces_mapped(input.spec_bytes())))),
    {
        let mapped = map_wide_spaces(input.as_bytes());
        let words = split_words(mapped.as_slice());
        assert(words@.map_values(|t: Vec<u8>| t@) =~= words_spec(spaces_mapped(input.spec_bytes())));
        read_compact_tokens(&words)
    }

    /// Reads a state from `key=value` tokens.
    pub fn parse_compact_tokens(tokens: &[&str]) -> (r: Result<Self, KeiriError>)
        ensures
            state_outcome(r, compact_spec(tokens@.map_values(|t: &str| spaces_mapped(t.spec_bytes())))),
    {
        let words = token_bytes(tokens);
        read_compact_tokens(&words)
    }
}

/// Whether the token `tok` has the key `key`.
pub open spec fn names_key(tok: Seq<u8>, key: &str) -> bool {
    match split_once_spec(tok, 61) {
        Some((k, _)) => is_word(k, key),
        None => false,
    }
}

/// Tokens that name no roll count leave the read roll count unset.
proof fn lemma_no_rolls_token(toks: Seq<Seq<u8>>)
    requires
        tokens_spec(toks) is Ok,
        forall|i: int| 0 <= i < toks.len() ==> !#[trigger] names_key(toks[i], "rolls"),
    ensures
        tokens_spec(toks)->Ok_0.rolls is None,
    decreases toks.len(),
{
    if toks.len() > 0 {
        let init = toks.drop_last();
        assert forall|i: int| 0 <= i < init.len() implies !#[trigger] names_key(init[i], "rolls") by {
            assert(init[i] == toks[i]);
        }
        lemma_no_rolls_token(init);
        assert(!names_key(toks[toks.len() - 1], "rolls"));
    }
}

/// Compact text that names no `rolls=` count reads as a state that has used
/// one roll when the text gives dice and none when it gives no dice.
pub proof fn law_compact_default_rolls(toks: Seq<Seq<u8>>, st: GameState)
    requires
        state_outcome(Ok(st), compact_spec(toks)),
        forall|i: int| 0 <= i < toks.len() ==> !#[trigger] names_key(toks[i], "rolls"),
    ensures
        st.rolls() == if st.dice_of() is Some {
            1u8
        } else {
            0u8
        },
{
    lemma_no_rolls_token(toks);
}

// ---------------------------------------------------------------------------
// Reading back what was written
// ---------------------------------------------------------------------------

/// Whether every recorded score is one its category can hold.
pub open spec fn records_valid(sheet: ScoreSheet) -> bool {
    forall|c: Category|
        #[trigger] sheet.score_of(c) is Some ==> valid_recorded(c, sheet.score_of(c)->Some_0 as int)
}

proof fn lemma_dice_prefix_chars()
    ensures
        is_ascii_chars("dice="@),
        ascii_bytes("dice="@) == seq![100u8, 105u8, 99u8, 101u8, 61u8],
{
    reveal_strlit("dice=");
    assert(ascii_bytes("dice="@) =~= seq![100u8, 105u8, 99u8, 101u8, 61u8]);
}

proof fn lemma_rolls_prefix_chars()
    ensures
        is_ascii_chars(" rolls="@),
        ascii_bytes(" rolls="@) == seq![32u8, 114u8, 111u8, 108u8, 108u8, 115u8, 61u8],
{
    reveal_strlit(" rolls=");
    assert(ascii_bytes(" rolls="@) =~= seq![32u8, 114u8, 111u8, 108u8, 108u8, 115u8, 61u8]);
}

proof fn lemma_scores_prefix_chars()
    ensures
        is_ascii_chars(" scores="@),
        ascii_bytes(" scores="@) == seq![32u8, 115u8, 99u8, 111u8, 114u8, 101u8, 115u8, 61u8],
{
    reveal_strlit(" scores=");
    assert(ascii_bytes(" scores="@) =~= seq![32u8, 115u8, 99u8, 111u8, 114u8, 101u8, 115u8, 61u8]);
}

proof fn lemma_bonus_prefix_chars()
    ensures
        is_ascii_chars(" yahtzee_bonus="@),
        ascii_bytes(" yahtzee_bonus="@) == seq![32u8, 121u8, 97u8, 104u8, 116u8, 122u8, 101u8, 101u8, 95u8, 98u8, 111u8, 110u8, 117u8, 115u8, 61u8],
{
    reveal_strlit(" yahtzee_bonus=");
    assert(ascii_bytes(" yahtzee_bonus="@) =~= seq![32u8, 121u8, 97u8, 104u8, 116u8, 122u8, 101u8, 101u8, 95u8, 98u8, 111u8, 110u8, 117u8, 115u8, 61u8]);
}

proof fn lemma_none_text_chars()
    ensures
        is_ascii_chars("none"@),
        ascii_bytes("none"@) == seq![110u8, 111u8, 110u8, 101u8],
{
    reveal_strlit("none");
    assert(ascii_bytes("none"@) =~= seq![110u8, 111u8, 110u8, 101u8]);
}

proof fn lemma_dice_word()
    ensures
        "dice".spec_bytes() == seq![100u8, 105u8, 99u8, 101u8],
{
    reveal_strlit("dice");
    lemma_literal_bytes("dice");
    assert(ascii_bytes("dice"@) =~= seq![100u8, 105u8, 99u8, 101u8]);
}

proof fn lemma_rolls_word()
    ensures
        "rolls".spec_bytes() == seq![114u8, 111u8, 108u8, 108u8, 115u8],
{
    reveal_strlit("rolls");
    lemma_literal_bytes("rolls");
    assert(ascii_bytes("rolls"@) =~= seq![114u8, 111u8, 108u8, 108u8, 115u8]);
}

proof fn lemma_scores_word()
    ensures
        "scores".spec_bytes() == seq![115u8, 99u8, 111u8, 114u8, 101u8, 115u8],
{
    reveal_strlit("scores");
    lemma_literal_bytes("scores");
    assert(ascii_bytes("scores"@) =~= seq![115u8, 99u8, 111u8, 114u8, 101u8, 115u8]);
}

proof fn lemma_yahtzee_bonus_word()
    ensures
        "yahtzee_bonus".spec_bytes() == seq![121u8, 97u8, 104u8, 116u8, 122u8, 101u8, 101u8, 95u8, 98u8, 111u8, 110u8, 117u8, 115u8],
{
    reveal_strlit("yahtzee_bonus");
    lemma_literal_bytes("yahtzee_bonus");
    assert(ascii_bytes("yahtzee_bonus"@) =~= seq![121u8, 97u8, 104u8, 116u8, 122u8, 101u8, 101u8, 95u8, 98u8, 111u8, 110u8, 117u8, 115u8]);
}

proof fn lemma_none_word()
    ensures
        "none".spec_bytes() == seq![110u8, 111u8, 110u8, 101u8],
{
    reveal_strlit("none");
    lemma_literal_bytes("none");
    assert(ascii_bytes("none"@) =~= seq![110u8, 111u8, 110u8, 101u8]);
}

proof fn lemma_short_words()
    ensures
        "-".spec_bytes().len() == 1,
        "None".spec_bytes().len() == 4,
{
    reveal_strlit("-");
    reveal_strlit("None");
    lemma_literal_bytes("-");
    lemma_literal_bytes("None");
}

/// The bytes of one written `name:score` entry.
pub open spec fn entry_bytes(e: (Category, u16)) -> Seq<u8> {
    name_bytes(e.0).push(58u8) + ascii_bytes(decimal_chars(e.1 as nat))
}

/// The written entries, one piece each.
pub open spec fn entry_pieces(list: Seq<(Category, u16)>) -> Seq<Seq<u8>> {
    Seq::new(list.len(), |i: int| entry_bytes(list[i]))
}

proof fn lemma_colon_chars()
    ensures
        is_ascii_chars(":"@),
        ascii_bytes(":"@) == seq![58u8],
{
    reveal_strlit(":");
    assert(ascii_bytes(":"@) =~= seq![58u8]);
}

proof fn lemma_comma_chars()
    ensures
        is_ascii_chars(","@),
        ascii_bytes(","@) == seq![44u8],
{
    reveal_strlit(",");
    assert(ascii_bytes(","@) =~= seq![44u8]);
}

/// A written entry is ASCII, its bytes are `entry_bytes`, and it has no
/// white space or commas.
proof fn lemma_entry_text(e: (Category, u16))
    ensures
        is_ascii_chars(entry_text(e)),
        ascii_bytes(entry_text(e)) == entry_bytes(e),
        spaceless(entry_bytes(e)),
        lacks(entry_bytes(e), 44),
        entry_bytes(e).len() > 0,
        !is_space(entry_bytes(e)[0]),
        !is_space(entry_bytes(e).last()),
{
    lemma_name_bytes(e.0);
    lemma_name_plain(e.0);
    lemma_decimal_reads(e.1 as nat);
    lemma_decimal_plain(e.1 as nat);
    lemma_colon_chars();
    let n = e.0.name_spec();
    let d = decimal_chars(e.1 as nat);
    lemma_ascii_concat(n, ":"@);
    lemma_ascii_concat(n + ":"@, d);
    let nb = name_bytes(e.0);
    let db = ascii_bytes(d);
    let b = entry_bytes(e);
    assert(ascii_bytes(entry_text(e)) =~= b);
    assert forall|i: int| 0 <= i < b.len() implies !is_space(#[trigger] b[i]) && b[i] != 44 by {
        if i < nb.len() {
            assert(b[i] == nb[i]);
        } else if i > nb.len() {
            assert(b[i] == db[i - nb.len() - 1]);
        }
    }
    assert(b[0] == nb[0]);
    assert(b.last() == db.last());
}

/// Written entries are ASCII, split at commas into the entries, and have no
/// white space.
proof fn lemma_entries_text(list: Seq<(Category, u16)>)
    requires
        list.len() > 0,
    ensures
        is_ascii_chars(entries_text(list)),
        split_spec(ascii_bytes(entries_text(list)), 44) == entry_pieces(list),
        spaceless(ascii_bytes(entries_text(list))),
        ascii_bytes(entries_text(list)).len() > 0,
        !is_space(ascii_bytes(entries_text(list))[0]),
        !is_space(ascii_bytes(entries_text(list)).last()),
    decreases list.len(),
{
    let t = entries_text(list);
    let b = ascii_bytes(t);
    lemma_entry_text(list.last());
    let eb = entry_bytes(list.last());
    if list.len() == 1 {
        assert(list.last() == list[0]);
        lemma_split_single(eb, 44);
        assert(entry_pieces(list) =~= seq![eb]);
    } else {
        let l1 = list.drop_last();
        lemma_entries_text(l1);
        let t1 = entries_text(l1);
        let b1 = ascii_bytes(t1);
        lemma_comma_chars();
        lemma_ascii_concat(t1, ","@);
        lemma_ascii_concat(t1 + ","@, entry_text(list.last()));
        assert(b =~= b1.push(44u8) + eb);
        lemma_split_append(b1, 44, eb);
        assert(entry_pieces(list) =~= entry_pieces(l1).push(eb));
        assert forall|i: int| 0 <= i < b.len() implies !is_space(#[trigger] b[i]) by {
            if i < b1.len() {
                assert(b[i] == b1[i]);
            } else if i > b1.len() {
                assert(b[i] == eb[i - b1.len() - 1]);
            }
        }
        assert(b[0] == b1[0]);
        assert(b.last() == eb.last());
    }
}

/// The recorded scores of the first `n` categories, the others open.
pub open spec fn scores_upto(sheet: ScoreSheet, n: int) -> Seq<Option<u16>> {
    Seq::new(13, |i: int| if i < n { sheet.score_of(category_at(i)) } else { None })
}

/// Reading the written entries of the first `n` categories records their
/// scores.
proof fn lemma_entries_read(sheet: ScoreSheet, n: int)
    requires
        0 <= n <= 13,
        records_valid(sheet),
    ensures
        entries_spec(empty_model().scores, entry_pieces(sheet.filled_list(n))) == Ok::<
            Seq<Option<u16>>,
            ParseFault,
        >(scores_upto(sheet, n)),
    decreases n,
{
    if n == 0 {
        assert(entry_pieces(sheet.filled_list(0)) =~= Seq::<Seq<u8>>::empty());
        assert(scores_upto(sheet, 0) =~= empty_model().scores);
    } else {
        lemma_entries_read(sheet, n - 1);
        let c = category_at(n - 1);
        crate::category::lemma_category_index_roundtrip(c, n - 1);
        let l1 = sheet.filled_list(n - 1);
        match sheet.score_of(c) {
            Some(v) => {
                let list = sheet.filled_list(n);
                assert(list == l1.push((c, v)));
                let x = entry_bytes((c, v));
                assert(entry_pieces(list) =~= entry_pieces(l1).push(x));
                assert(entry_pieces(list).drop_last() =~= entry_pieces(l1));
                lemma_name_plain(c);
                lemma_split_once_at(name_bytes(c), 58, ascii_bytes(decimal_chars(v as nat)));
                lemma_name_normalizes(c);
                lemma_decimal_bounded(v as nat, 65535);
                assert(valid_recorded(c, v as int));
                assert(scores_upto(sheet, n - 1)[c.idx()] is None);
                assert(scores_upto(sheet, n) =~= scores_upto(sheet, n - 1).update(n - 1, Some(v)));
            },
            None => {
                assert(scores_upto(sheet, n) =~= scores_upto(sheet, n - 1));
            },
        }
    }
}

/// The bytes of the dice value a state is written with.
spec fn dice_value_bytes(st: GameState) -> Seq<u8> {
    match st.dice_of() {
        Some(d) => ascii_bytes(dice_text(d@)),
        None => seq![110u8, 111u8, 110u8, 101u8],
    }
}

spec fn dice_token(st: GameState) -> Seq<u8> {
    seq![100u8, 105u8, 99u8, 101u8, 61u8] + dice_value_bytes(st)
}

spec fn rolls_token(st: GameState) -> Seq<u8> {
    seq![114u8, 111u8, 108u8, 108u8, 115u8, 61u8] + ascii_bytes(decimal_chars(st.rolls() as nat))
}

spec fn scores_token(st: GameState) -> Seq<u8> {
    seq![115u8, 99u8, 111u8, 114u8, 101u8, 115u8, 61u8] + ascii_bytes(entries_text(st.sheet_of().filled_list(13)))
}

spec fn bonus_token(st: GameState) -> Seq<u8> {
    seq![121u8, 97u8, 104u8, 116u8, 122u8, 101u8, 101u8, 95u8, 98u8, 111u8, 110u8, 117u8, 115u8, 61u8]
        + ascii_bytes(decimal_chars(st.sheet_of().bonus_count() as nat))
}

/// The tokens of the compact text of a state.
spec fn compact_tokens(st: GameState) -> Seq<Seq<u8>> {
    let two = seq![dice_token(st), rolls_token(st)];
    let three = if st.sheet_of().filled_list(13).len() > 0 {
        two.push(scores_token(st))
    } else {
        two
    };
    if st.sheet_of().bonus_count() > 0 {
        three.push(bonus_token(st))
    } else {
        three
    }
}

/// The compact text of a state, as bytes, joined from its tokens.
spec fn compact_bytes(st: GameState) -> Seq<u8> {
    let two = dice_token(st).push(32u8) + rolls_token(st);
    let three = if st.sheet_of().filled_list(13).len() > 0 {
        two.push(32u8) + scores_token(st)
    } else {
        two
    };
    if st.sheet_of().bonus_count() > 0 {
        three.push(32u8) + bonus_token(st)
    } else {
        three
    }
}

/// Each token is non-empty and has no white space.
proof fn lemma_tokens_plain(st: GameState)
    requires
        st.dice_of() matches Some(d) ==> d.inv(),
    ensures
        spaceless(dice_token(st)),
        spaceless(rolls_token(st)),
        spaceless(scores_token(st)),
        spaceless(bonus_token(st)),
        dice_token(st).len() > 0,
        rolls_token(st).len() > 0,
        scores_token(st).len() > 0,
        bonus_token(st).len() > 0,
{
    match st.dice_of() {
        Some(d) => lemma_dice_text_reads(d@),
        None => {},
    }
    lemma_spaceless_concat(seq![100u8, 105u8, 99u8, 101u8, 61u8], dice_value_bytes(st));
    lemma_decimal_plain(st.rolls() as nat);
    lemma_spaceless_concat(
        seq![114u8, 111u8, 108u8, 108u8, 115u8, 61u8],
        ascii_bytes(decimal_chars(st.rolls() as nat)),
    );
    let list = st.sheet_of().filled_list(13);
    if list.len() > 0 {
        lemma_entries_text(list);
    } else {
        assert(entries_text(list) =~= Seq::<char>::empty());
        assert(ascii_bytes(entries_text(list)) =~= Seq::<u8>::empty());
    }
    lemma_spaceless_concat(
        seq![115u8, 99u8, 111u8, 114u8, 101u8, 115u8, 61u8],
        ascii_bytes(entries_text(list)),
    );
    lemma_decimal_plain(st.sheet_of().bonus_count() as nat);
    lemma_spaceless_concat(
        seq![121u8, 97u8, 104u8, 116u8, 122u8, 101u8, 101u8, 95u8, 98u8, 111u8, 110u8, 117u8, 115u8, 61u8],
        ascii_bytes(decimal_chars(st.sheet_of().bonus_count() as nat)),
    );
}

/// The compact text of a state is ASCII, and its bytes are its tokens
/// joined by spaces.
#[verifier::spinoff_prover]
#[verifier::rlimit(40)]
proof fn lemma_compact_bytes(st: GameState)
    requires
        st.dice_of() matches Some(d) ==> d.inv(),
    ensures
        encode_utf8(compact_text(st)) == compact_bytes(st),
        spaces_mapped(compact_bytes(st)) == compact_bytes(st),
{
    let list = st.sheet_of().filled_list(13);
    let bonus = st.sheet_of().bonus_count();
    lemma_dice_prefix_chars();
    lemma_rolls_prefix_chars();
    lemma_scores_prefix_chars();
    lemma_bonus_prefix_chars();
    lemma_none_text_chars();
    let x: Seq<char> = match st.dice_of() {
        Some(d) => dice_text(d@),
        None => "none"@,
    };
    match st.dice_of() {
        Some(d) => lemma_dice_text_reads(d@),
        None => {},
    }
    let rt = decimal_chars(st.rolls() as nat);
    lemma_decimal_reads(st.rolls() as nat);
    let c1 = "dice="@ + x;
    lemma_ascii_concat("dice="@, x);
    assert(ascii_bytes(c1) =~= dice_token(st));
    let c2a = c1 + " rolls="@;
    lemma_ascii_concat(c1, " rolls="@);
    let c2 = c2a + rt;
    lemma_ascii_concat(c2a, rt);
    let two = dice_token(st).push(32u8) + rolls_token(st);
    assert(ascii_bytes(c2) =~= two);
    let sc: Seq<char> = if list.len() > 0 {
        " scores="@ + entries_text(list)
    } else {
        Seq::empty()
    };
    if list.len() > 0 {
        lemma_entries_text(list);
        lemma_ascii_concat(" scores="@, entries_text(list));
    } else {
        assert(ascii_bytes(sc) =~= Seq::<u8>::empty());
    }
    let c3 = c2 + sc;
    lemma_ascii_concat(c2, sc);
    let three = if list.len() > 0 {
        two.push(32u8) + scores_token(st)
    } else {
        two
    };
    assert(ascii_bytes(c3) =~= three);
    let bt = decimal_chars(bonus as nat);
    lemma_decimal_reads(bonus as nat);
    let yc: Seq<char> = if bonus > 0 {
        " yahtzee_bonus="@ + bt
    } else {
        Seq::empty()
    };
    if bonus > 0 {
        lemma_ascii_concat(" yahtzee_bonus="@, bt);
    } else {
        assert(ascii_bytes(yc) =~= Seq::<u8>::empty());
    }
    let c4 = c3 + yc;
    lemma_ascii_concat(c3, yc);
    assert(ascii_bytes(c4) =~= compact_bytes(st));
    assert(compact_text(st) == c4);
    lemma_encode_ascii(c4);
    lemma_ascii_bytes_small(c4);
    lemma_spaces_mapped_ascii(ascii_bytes(c4));
}

/// The words of the compact text are its tokens.
proof fn lemma_compact_words(st: GameState)
    requires
        st.dice_of() matches Some(d) ==> d.inv(),
    ensures
        words_spec(compact_bytes(st)) == compact_tokens(st),
{
    lemma_tokens_plain(st);
    let d = dice_token(st);
    assert(Seq::<u8>::empty() + d =~= d);
    lemma_words_append(Seq::<u8>::empty(), d);
    assert(words_spec(Seq::<u8>::empty()) == Seq::<Seq<u8>>::empty());
    assert(Seq::<Seq<u8>>::empty().push(d) =~= seq![d]);
    lemma_words_space(d);
    lemma_words_append(d.push(32u8), rolls_token(st));
    assert(seq![d].push(rolls_token(st)) =~= seq![d, rolls_token(st)]);
    let two = d.push(32u8) + rolls_token(st);
    let list = st.sheet_of().filled_list(13);
    let three = if list.len() > 0 {
        two.push(32u8) + scores_token(st)
    } else {
        two
    };
    if list.len() > 0 {
        lemma_words_space(two);
        lemma_words_append(two.push(32u8), scores_token(st));
    }
    if st.sheet_of().bonus_count() > 0 {
        lemma_words_space(three);
        lemma_words_append(three.push(32u8), bonus_token(st));
    }
}

spec fn first_model(st: GameState) -> CompactModel {
    CompactModel {
        dice: match st.dice_of() {
            Some(d) => Some(d@),
            None => None,
        },
        ..empty_model()
    }
}

proof fn lemma_dice_step(st: GameState)
    requires
        st.dice_of() matches Some(d) ==> d.inv(),
    ensures
        token_step(empty_model(), dice_token(st)) == Ok::<CompactModel, ParseFault>(first_model(st)),
{
    lemma_dice_word();
    lemma_none_word();
    lemma_short_words();
    let v = dice_value_bytes(st);
    assert(dice_token(st) =~= seq![100u8, 105u8, 99u8, 101u8].push(61u8) + v);
    lemma_split_once_at(seq![100u8, 105u8, 99u8, 101u8], 61, v);
    match st.dice_of() {
        Some(d) => {
            lemma_dice_text_reads(d@);
            assert(v.len() == 9);
        },
        None => {},
    }
}

proof fn lemma_rolls_step(st: GameState, m: CompactModel)
    ensures
        token_step(m, rolls_token(st)) == Ok::<CompactModel, ParseFault>(
            CompactModel { rolls: Some(st.rolls()), ..m },
        ),
{
    lemma_dice_word();
    lemma_rolls_word();
    let v = ascii_bytes(decimal_chars(st.rolls() as nat));
    assert(rolls_token(st) =~= seq![114u8, 111u8, 108u8, 108u8, 115u8].push(61u8) + v);
    lemma_split_once_at(seq![114u8, 111u8, 108u8, 108u8, 115u8], 61, v);
    lemma_decimal_bounded(st.rolls() as nat, 255);
}

proof fn lemma_scores_step(st: GameState, m: CompactModel)
    requires
        m.scores == empty_model().scores,
        records_valid(st.sheet_of()),
        st.sheet_of().filled_list(13).len() > 0,
    ensures
        token_step(m, scores_token(st)) == Ok::<CompactModel, ParseFault>(
            CompactModel { scores: scores_upto(st.sheet_of(), 13), ..m },
        ),
{
    lemma_dice_word();
    lemma_rolls_word();
    lemma_scores_word();
    let list = st.sheet_of().filled_list(13);
    let v = ascii_bytes(entries_text(list));
    assert(scores_token(st) =~= seq![115u8, 99u8, 111u8, 114u8, 101u8, 115u8].push(61u8) + v);
    lemma_split_once_at(seq![115u8, 99u8, 111u8, 114u8, 101u8, 115u8], 61, v);
    lemma_entries_text(list);
    crate::text::lemma_trim_unchanged(v);
    lemma_entries_read(st.sheet_of(), 13);
}

proof fn lemma_bonus_step(st: GameState, m: CompactModel)
    ensures
        token_step(m, bonus_token(st)) == Ok::<CompactModel, ParseFault>(
            CompactModel { bonus: st.sheet_of().bonus_count(), ..m },
        ),
{
    lemma_dice_word();
    lemma_rolls_word();
    lemma_scores_word();
    lemma_yahtzee_bonus_word();
    let v = ascii_bytes(decimal_chars(st.sheet_of().bonus_count() as nat));
    assert(bonus_token(st) =~= seq![121u8, 97u8, 104u8, 116u8, 122u8, 101u8, 101u8, 95u8, 98u8, 111u8, 110u8, 117u8, 115u8].push(61u8) + v);
    lemma_split_once_at(seq![121u8, 97u8, 104u8, 116u8, 122u8, 101u8, 101u8, 95u8, 98u8, 111u8, 110u8, 117u8, 115u8], 61, v);
    lemma_decimal_bounded(st.sheet_of().bonus_count() as nat, 65535);
}

/// The model that reading the compact text of a state gives.
spec fn final_model(st: GameState) -> CompactModel {
    CompactModel {
        dice: first_model(st).dice,
        rolls: Some(st.rolls()),
        scores: scores_upto(st.sheet_of(), 13),
        bonus: st.sheet_of().bonus_count(),
    }
}

#[verifier::spinoff_prover]
#[verifier::rlimit(40)]
proof fn lemma_two_tokens(st: GameState)
    requires
        st.dice_of() matches Some(d) ==> d.inv(),
    ensures
        tokens_spec(seq![dice_token(st), rolls_token(st)]) == Ok::<CompactModel, ParseFault>(
            CompactModel { rolls: Some(st.rolls()), ..first_model(st) },
        ),
{
    lemma_dice_step(st);
    lemma_rolls_step(st, first_model(st));
    let t1 = seq![dice_token(st)];
    let t2 = seq![dice_token(st), rolls_token(st)];
    assert(t1.drop_last() =~= Seq::<Seq<u8>>::empty());
    assert(tokens_spec(Seq::<Seq<u8>>::empty()) == Ok::<CompactModel, ParseFault>(empty_model()));
    assert(tokens_spec(t1) == Ok::<CompactModel, ParseFault>(first_model(st)));
    assert(t2.drop_last() =~= t1);
    assert(t2.last() == rolls_token(st));
}

proof fn lemma_tokens_read(st: GameState)
    requires
        st.dice_of() matches Some(d) ==> d.inv(),
        records_valid(st.sheet_of()),
    ensures
        tokens_spec(compact_tokens(st)) == Ok::<CompactModel, ParseFault>(final_model(st)),
{
    let sheet = st.sheet_of();
    let list = sheet.filled_list(13);
    let bonus = sheet.bonus_count();
    lemma_two_tokens(st);
    let m2 = CompactModel { rolls: Some(st.rolls()), ..first_model(st) };
    let t2 = seq![dice_token(st), rolls_token(st)];
    lemma_entries_read(sheet, 13);
    let m3 = CompactModel { scores: scores_upto(sheet, 13), ..m2 };
    let t3 = if list.len() > 0 {
        t2.push(scores_token(st))
    } else {
        t2
    };
    if list.len() > 0 {
        lemma_scores_step(st, m2);
        assert(t3.drop_last() =~= t2);
    } else {
        assert(entry_pieces(list) =~= Seq::<Seq<u8>>::empty());
        assert(m3 == m2);
    }
    assert(tokens_spec(t3) == Ok::<CompactModel, ParseFault>(m3));
    if bonus > 0 {
        lemma_bonus_step(st, m3);
        assert(t3.push(bonus_token(st)).drop_last() =~= t3);
    } else {
        assert(m3 == final_model(st));
    }
}

/// Reading the compact text of a state gives the state back: the same
/// dice, the same rolls, every recorded score and the bonus count.  The
/// recorded scores must be ones their categories can hold, as the reader
/// refuses any other.
pub proof fn law_compact_round_trip(st: GameState)
    requires
        st.inv(),
        st.dice_of() matches Some(d) ==> d.inv(),
        records_valid(st.sheet_of()),
    ensures
        compact_spec(words_spec(spaces_mapped(encode_utf8(compact_text(st))))) is Ok,
        state_matches(st, compact_spec(words_spec(spaces_mapped(encode_utf8(compact_text(st)))))->Ok_0),
{
    lemma_compact_bytes(st);
    lemma_compact_words(st);
    lemma_tokens_read(st);
    let m = final_model(st);
    assert(model_rolls(m) == st.rolls());
    assert(compact_spec(words_spec(spaces_mapped(encode_utf8(compact_text(st))))) == Ok::<CompactModel, ParseFault>(m));
    assert forall|i: int| 0 <= i < 13 implies #[trigger] st.sheet_of().score_of(category_at(i)) == m.scores[i] by {}
}

} // verus!
