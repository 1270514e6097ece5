//! The BuddyBoardGames adapter: the page snapshot text, its checks, the
//! game state it stands for, and where a chosen action is clicked.
use crate::category::{category_at, Category};
use crate::dice::{all_faces, die_fault, die_values_spec, first_non_face, parse_values, sorted_faces, Dice};
use crate::rules::valid_recorded;
use crate::sheet::ScoreSheet;
use crate::state::{Action, GameState};
use crate::text::{
    map_wide_spaces, spaces_mapped,
    bytes_eq, lossy_text, message, decimal_chars, is_word, parse_bounded, parse_bounded_spec, push_decimal, push_str,
    slice_to_vec, split_bytes, split_once, split_once_spec, split_spec, split_words,
    text_from_bytes, trim, trim_spec, words_spec,
};
use crate::{fault_matches, quoted, KeiriError, ParseFault};
use vstd::prelude::*;
use vstd::string::{StringExecFns, StringSliceAdditionalSpecFns};
use vstd::utf8::{decode_utf8, valid_utf8};

verus! {

// ---------------------------------------------------------------------------
// Score rows
// ---------------------------------------------------------------------------

/// The category shown on a page score row (row 6 is the upper subtotal).
pub open spec fn row_category(row: usize) -> Option<Category> {
    if row <= 5 {
        Some(category_at(row as int))
    } else if 7 <= row <= 13 {
        Some(category_at(row - 1))
    } else {
        None
    }
}

/// The page score row of a category.
pub open spec fn category_row(c: Category) -> usize {
    if c.idx() <= 5 {
        c.idx() as usize
    } else {
        (c.idx() + 1) as usize
    }
}

/// The category shown on a page score row.
pub fn bbg_client_row_to_category(row: usize) -> (r: Option<Category>)
    ensures
        r == row_category(row),
{
    if row <= 5 {
        Some(Category::at(row))
    } else if 7 <= row && row <= 13 {
        Some(Category::at(row - 1))
    } else {
        None
    }
}

/// The page score row of a category.
pub fn bbg_category_to_client_row(category: Category) -> (r: Option<usize>)
    ensures
        r == Some(category_row(category)),
{
    let i = category.index();
    if i <= 5 {
        Some(i)
    } else {
        Some(i + 1)
    }
}

/// Every category has a page row, and that row shows the category.
pub proof fn law_row_mapping_round_trips(c: Category)
    ensures
        row_category(category_row(c)) == Some(c),
{
    crate::category::lemma_category_index_roundtrip(c, 0);
}

/// Page rows follow the sheet order and skip row 6, the upper subtotal: a
/// category earlier on the sheet has an earlier row, every row from 0 to
/// 13 but 6 shows a category and no other row does, and a row shows a
/// category exactly when it is that category's row.
pub proof fn law_rows_follow_sheet_order(a: Category, b: Category, row: usize)
    ensures
        a.idx() < b.idx() <==> category_row(a) < category_row(b),
        category_row(a) <= 13 && category_row(a) != 6,
        row <= 13 && row != 6 <==> row_category(row) is Some,
        row_category(row) == Some(a) <==> row == category_row(a),
{
    crate::category::lemma_category_index_roundtrip(a, row as int);
    crate::category::lemma_category_index_roundtrip(b, row as int - 1);
    if row_category(row) == Some(a) {
        if row <= 5 {
            assert(category_at(row as int).idx() == row);
        } else {
            assert(category_at(row - 1).idx() == row - 1);
        }
    }
}

/// One score row as the page shows it.
#[derive(Debug, Clone, PartialEq, Eq)]
pub struct BuddyBoardGamesRow {
    pub client_row: usize,
    pub value: u16,
    pub selected: bool,
}

/// A snapshot of the page during a game.
#[derive(Debug, Clone, PartialEq, Eq)]
pub struct BuddyBoardGamesSnapshot {
    pub game_state: String,
    pub me_idx: usize,
    pub turn_idx: usize,
    pub is_spectator: bool,
    pub roll_pending: bool,
    pub rolls_used: u8,
    /// The dice, sorted.
    pub dice: Dice,
    /// The dice in the order the page shows them.
    pub page_dice: [u8; 5],
    /// Which page dice are held.
    pub selected_dice: [bool; 5],
    pub rows: Vec<BuddyBoardGamesRow>,
}

// ---------------------------------------------------------------------------
// Reading the snapshot text
// ---------------------------------------------------------------------------

/// A boolean field: `true`, `1`, `yes` or `false`, `0`, `no`.
pub open spec fn bool_spec(v: Seq<u8>) -> Option<bool> {
    if is_word(v, "true") || is_word(v, "1") || is_word(v, "yes") {
        Some(true)
    } else if is_word(v, "false") || is_word(v, "0") || is_word(v, "no") {
        Some(false)
    } else {
        None
    }
}

pub fn parse_bool_field(v: &[u8]) -> (r: Option<bool>)
    ensures
        r == bool_spec(v@),
{
    if bytes_eq(v, "true".as_bytes()) || bytes_eq(v, "1".as_bytes()) || bytes_eq(
        v,
        "yes".as_bytes(),
    ) {
        Some(true)
    } else if bytes_eq(v, "false".as_bytes()) || bytes_eq(v, "0".as_bytes()) || bytes_eq(
        v,
        "no".as_bytes(),
    ) {
        Some(false)
    } else {
        None
    }
}

/// Booleans read from comma-separated pieces, or the first piece that is
/// none.
pub open spec fn bools_of(pieces: Seq<Seq<u8>>) -> Result<Seq<bool>, Seq<u8>>
    decreases pieces.len(),
{
    if pieces.len() == 0 {
        Ok(Seq::empty())
    } else {
        match bools_of(pieces.drop_last()) {
            Err(p) => Err(p),
            Ok(bs) => match bool_spec(pieces.last()) {
                Some(b) => Ok(bs.push(b)),
                None => Err(pieces.last()),
            },
        }
    }
}

/// The held flags of the five page dice.
pub open spec fn selected_spec(v: Seq<u8>) -> Result<Seq<bool>, ParseFault> {
    match bools_of(split_spec(v, 44)) {
        Err(p) => Err(ParseFault::Syntax(quoted("invalid selected die boolean `"@, p, "`"@))),
        Ok(bs) => if bs.len() != 5 {
            Err(ParseFault::DiceCount(bs.len() as usize))
        } else {
            Ok(bs)
        },
    }
}

proof fn lemma_bools_err(pieces: Seq<Seq<u8>>, n: int)
    requires
        0 < n <= pieces.len(),
        bools_of(pieces.take(n)) is Err,
    ensures
        bools_of(pieces) == bools_of(pieces.take(n)),
    decreases pieces.len() - n,
{
    if n < pieces.len() {
        assert(pieces.take(n + 1).drop_last() =~= pieces.take(n));
        lemma_bools_err(pieces, n + 1);
    } else {
        assert(pieces.take(n) =~= pieces);
    }
}

fn parse_selected(v: &[u8]) -> (r: Result<[bool; 5], KeiriError>)
    ensures
        match selected_spec(v@) {
            Ok(bs) => r is Ok && r->Ok_0@ == bs,
            Err(f) => r is Err && fault_matches(r->Err_0, f),
        },
{
    let pieces = split_bytes(v, 44);
    let ghost sp = split_spec(v@, 44);
    let mut out: Vec<bool> = Vec::new();
    let mut i: usize = 0;
    while i < pieces.len()
        invariant
            i <= pieces@.len() == sp.len(),
            sp == split_spec(v@, 44),
            forall|k: int| 0 <= k < pieces@.len() ==> (#[trigger] pieces@[k])@ == sp[k],
            bools_of(sp.take(i as int)) == Ok::<Seq<bool>, Seq<u8>>(out@),
        decreases pieces.len() - i,
    {
        assert(sp.take(i as int + 1).drop_last() =~= sp.take(i as int));
        match parse_bool_field(pieces[i].as_slice()) {
            Some(b) => out.push(b),
            None => {
                proof {
                    assert(sp.take(i as int + 1).last() == pieces@[i as int]@);
                    lemma_bools_err(sp, i as int + 1);
                }
                return Err(
                    KeiriError::ParseError(
                        message("invalid selected die boolean `", pieces[i].as_slice(), "`"),
                    ),
                );
            },
        }
        i += 1;
    }
    assert(sp.take(sp.len() as int) =~= sp);
    if out.len() != 5 {
        return Err(KeiriError::InvalidDiceCount(out.len()));
    }
    let arr = [out[0], out[1], out[2], out[3], out[4]];
    assert(arr@ =~= out@);
    Ok(arr)
}

/// One `row:value:selected` entry.
pub open spec fn row_spec(entry: Seq<u8>) -> Option<(usize, u16, bool)> {
    let f = split_spec(entry, 58);
    if f.len() != 3 {
        None
    } else {
        match (
            parse_bounded_spec(f[0], usize::MAX as nat),
            parse_bounded_spec(f[1], 65535),
            bool_spec(f[2]),
        ) {
            (Some(row), Some(value), Some(sel)) => Some((row as usize, value as u16, sel)),
            _ => None,
        }
    }
}

/// Rows read from comma-separated entries, or the first entry that is no
/// row.
pub open spec fn rows_of(pieces: Seq<Seq<u8>>) -> Result<Seq<(usize, u16, bool)>, Seq<u8>>
    decreases pieces.len(),
{
    if pieces.len() == 0 {
        Ok(Seq::empty())
    } else {
        match rows_of(pieces.drop_last()) {
            Err(p) => Err(p),
            Ok(rs) => match row_spec(pieces.last()) {
                Some(r) => Ok(rs.push(r)),
                None => Err(pieces.last()),
            },
        }
    }
}

/// The score rows: none for blank text, else comma-separated entries; or
/// the first entry that is no row.
pub open spec fn rows_spec(v: Seq<u8>) -> Result<Seq<(usize, u16, bool)>, Seq<u8>> {
    if trim_spec(v).len() == 0 {
        Ok(Seq::empty())
    } else {
        rows_of(split_spec(v, 44))
    }
}

/// The failure of an entry that is no `row:value:selected` row.
pub open spec fn row_fault(p: Seq<u8>) -> ParseFault {
    ParseFault::Syntax(quoted("BuddyBoardGames row `"@, p, "` must be row:value:selected"@))
}

proof fn lemma_rows_err(pieces: Seq<Seq<u8>>, n: int)
    requires
        0 < n <= pieces.len(),
        rows_of(pieces.take(n)) is Err,
    ensures
        rows_of(pieces) == rows_of(pieces.take(n)),
    decreases pieces.len() - n,
{
    if n < pieces.len() {
        assert(pieces.take(n + 1).drop_last() =~= pieces.take(n));
        lemma_rows_err(pieces, n + 1);
    } else {
        assert(pieces.take(n) =~= pieces);
    }
}

/// The model of a page row.
pub open spec fn row_model(r: BuddyBoardGamesRow) -> (usize, u16, bool) {
    (r.client_row, r.value, r.selected)
}

fn parse_row(entry: &[u8]) -> (r: Option<BuddyBoardGamesRow>)
    ensures
        match row_spec(entry@) {
            Some(m) => r is Some && row_model(r->0) == m,
            None => r is None,
        },
{
    let fields = split_bytes(entry, 58);
    if fields.len() != 3 {
        return None;
    }
    let row = match parse_bounded(fields[0].as_slice(), usize::MAX as u64) {
        Some(v) => v as usize,
        None => return None,
    };
    let value = match parse_bounded(fields[1].as_slice(), 65535) {
        Some(v) => v as u16,
        None => return None,
    };
    let selected = match parse_bool_field(fields[2].as_slice()) {
        Some(b) => b,
        None => return None,
    };
    Some(BuddyBoardGamesRow { client_row: row, value, selected })
}

fn parse_rows(v: &[u8]) -> (r: Result<Vec<BuddyBoardGamesRow>, KeiriError>)
    ensures
        match rows_spec(v@) {
            Ok(rs) => r is Ok && r->Ok_0@.map_values(|x: BuddyBoardGamesRow| row_model(x)) == rs,
            Err(p) => r is Err && fault_matches(r->Err_0, row_fault(p)),
        },
{
    let mut out: Vec<BuddyBoardGamesRow> = Vec::new();
    let trimmed = trim(v);
    if trimmed.len() == 0 {
        assert(out@.map_values(|x: BuddyBoardGamesRow| row_model(x)) =~= Seq::empty());
        return Ok(out);
    }
    let pieces = split_bytes(v, 44);
    let ghost sp = split_spec(v@, 44);
    let mut i: usize = 0;
    assert(sp.take(0) =~= Seq::<Seq<u8>>::empty());
    assert(out@.map_values(|x: BuddyBoardGamesRow| row_model(x)) =~= Seq::<(usize, u16, bool)>::empty());
    while i < pieces.len()
        invariant
            i <= pieces@.len() == sp.len(),
            sp == split_spec(v@, 44),
            trim_spec(v@).len() != 0,
            forall|k: int| 0 <= k < pieces@.len() ==> (#[trigger] pieces@[k])@ == sp[k],
            rows_of(sp.take(i as int)) == Ok::<Seq<(usize, u16, bool)>, Seq<u8>>(
                out@.map_values(|x: BuddyBoardGamesRow| row_model(x)),
            ),
        decreases pieces.len() - i,
    {
        assert(sp.take(i as int + 1).drop_last() =~= sp.take(i as int));
        match parse_row(pieces[i].as_slice()) {
            Some(row) => {
                out.push(row);
                assert(out@.map_values(|x: BuddyBoardGamesRow| row_model(x)) =~= rows_of(
                    sp.take(i as int + 1),
                )->Ok_0);
            },
            None => {
                proof {
                    assert(sp.take(i as int + 1).last() == pieces@[i as int]@);
                    lemma_rows_err(sp, i as int + 1);
                }
                return Err(
                    KeiriError::ParseError(
                        message(
                            "BuddyBoardGames row `",
                            pieces[i].as_slice(),
                            "` must be row:value:selected",
                        ),
                    ),
                );
            },
        }
        i += 1;
    }
    assert(sp.take(sp.len() as int) =~= sp);
    Ok(out)
}

/// What the snapshot tokens read so far describe.
pub struct SnapshotModel {
    pub state: Option<Seq<u8>>,
    pub me: Option<usize>,
    pub turn: Option<usize>,
    pub spectator: bool,
    pub pending: bool,
    pub rolls: Option<u8>,
    pub dice: Option<Seq<u8>>,
    pub selected: Option<Seq<bool>>,
    pub rows: Option<Seq<(usize, u16, bool)>>,
}

pub open spec fn empty_snapshot() -> SnapshotModel {
    SnapshotModel {
        state: None,
        me: None,
        turn: None,
        spectator: false,
        pending: false,
        rolls: None,
        dice: None,
        selected: None,
        rows: None,
    }
}

/// The page dice read from text, in page order.
pub open spec fn page_dice_spec(v: Seq<u8>) -> Result<Seq<u8>, ParseFault> {
    match die_values_spec(v) {
        Err(p) => Err(die_fault(p)),
        Ok(vals) => if vals.len() != 5 {
            Err(ParseFault::DiceCount(vals.len() as usize))
        } else if !all_faces(vals) {
            Err(ParseFault::Die(vals[first_non_face(vals)]))
        } else {
            Ok(vals)
        },
    }
}

/// Reading one snapshot token.
pub open spec fn snapshot_step(m: SnapshotModel, tok: Seq<u8>) -> Result<SnapshotModel, ParseFault> {
    match split_once_spec(tok, 61) {
        None => Err(ParseFault::Syntax(quoted("BuddyBoardGames token `"@, tok, "` must be key=value"@))),
        Some((k, v)) => if is_word(k, "state") || is_word(k, "game_state") {
            Ok(SnapshotModel { state: Some(v), ..m })
        } else if is_word(k, "me") || is_word(k, "me_idx") {
            match parse_bounded_spec(v, usize::MAX as nat) {
                Some(n) => Ok(SnapshotModel { me: Some(n as usize), ..m }),
                None => Err(ParseFault::Syntax(quoted("invalid me value `"@, v, "`"@))),
            }
        } else if is_word(k, "turn") || is_word(k, "turn_idx") {
            match parse_bounded_spec(v, usize::MAX as nat) {
                Some(n) => Ok(SnapshotModel { turn: Some(n as usize), ..m }),
                None => Err(ParseFault::Syntax(quoted("invalid turn value `"@, v, "`"@))),
            }
        } else if is_word(k, "spectator") {
            match bool_spec(v) {
                Some(b) => Ok(SnapshotModel { spectator: b, ..m }),
                None => Err(ParseFault::Syntax(quoted("invalid spectator boolean `"@, v, "`"@))),
            }
        } else if is_word(k, "pending") || is_word(k, "roll_pending") {
            match bool_spec(v) {
                Some(b) => Ok(SnapshotModel { pending: b, ..m }),
                None => Err(ParseFault::Syntax(quoted("invalid pending boolean `"@, v, "`"@))),
            }
        } else if is_word(k, "rolls") {
            match parse_bounded_spec(v, 255) {
                Some(n) => Ok(SnapshotModel { rolls: Some(n as u8), ..m }),
                None => Err(ParseFault::Syntax(quoted("invalid rolls value `"@, v, "`"@))),
            }
        } else if is_word(k, "dice") {
            match page_dice_spec(v) {
                Ok(d) => Ok(SnapshotModel { dice: Some(d), ..m }),
                Err(f) => Err(f),
            }
        } else if is_word(k, "selected") || is_word(k, "held") {
            match selected_spec(v) {
                Ok(s) => Ok(SnapshotModel { selected: Some(s), ..m }),
                Err(f) => Err(f),
            }
        } else if is_word(k, "rows") {
            match rows_spec(v) {
                Ok(rs) => Ok(SnapshotModel { rows: Some(rs), ..m }),
                Err(p) => Err(row_fault(p)),
            }
        } else {
            Err(ParseFault::Syntax(quoted("unknown BuddyBoardGames key `"@, k, "`"@)))
        },
    }
}

pub open spec fn snapshot_tokens_spec(toks: Seq<Seq<u8>>) -> Result<SnapshotModel, ParseFault>
    decreases toks.len(),
{
    if toks.len() == 0 {
        Ok(empty_snapshot())
    } else {
        match snapshot_tokens_spec(toks.drop_last()) {
            Ok(m) => snapshot_step(m, toks.last()),
            Err(f) => Err(f),
        }
    }
}

/// The turn checks: the game is running, this player is seated and on turn,
/// no roll is in flight, and the sheet is shown.
pub open spec fn turn_ok(state_started: bool, spectator: bool, me: usize, turn: usize, pending: bool, rows: nat) -> bool {
    state_started && !spectator && me == turn && !pending && rows > 0
}

/// The message of the first turn check that fails, if one does; `shown` is
/// the game state as the message quotes it.
pub open spec fn turn_message(
    state_started: bool,
    shown: Seq<char>,
    spectator: bool,
    me: usize,
    turn: usize,
    pending: bool,
    rows: nat,
) -> Option<Seq<char>> {
    if !state_started {
        Some("BuddyBoardGames state must be STARTED; found "@ + shown)
    } else if spectator {
        Some("cannot autoplay as a spectator"@)
    } else if me != turn {
        Some("not this player's turn: me="@ + decimal_chars(me as nat) + " turn="@ + decimal_chars(turn as nat))
    } else if pending {
        Some("roll animation or update is pending"@)
    } else if rows == 0 {
        Some("missing score rows"@)
    } else {
        None
    }
}

/// What reading snapshot text gives: the model of a complete snapshot that
/// passes the turn checks, or the failure.
pub open spec fn snapshot_spec(toks: Seq<Seq<u8>>) -> Result<SnapshotModel, ParseFault> {
    match snapshot_tokens_spec(toks) {
        Err(f) => Err(f),
        Ok(m) => if m.me is None {
            Err(ParseFault::Snapshot("missing me index"@))
        } else if m.turn is None {
            Err(ParseFault::Snapshot("missing turn index"@))
        } else if m.dice is None {
            Err(ParseFault::Snapshot("missing dice"@))
        } else if m.rows is None {
            Err(ParseFault::Snapshot("missing rows"@))
        } else {
            match turn_message(
                match m.state {
                    Some(s) => is_word(s, "STARTED"),
                    None => true,
                },
                match m.state {
                    Some(s) => lossy_text(s),
                    None => Seq::empty(),
                },
                m.spectator,
                m.me->0,
                m.turn->0,
                m.pending,
                m.rows->0.len(),
            ) {
                Some(msg) => Err(ParseFault::Snapshot(msg)),
                None => Ok(m),
            }
        },
    }
}

/// Whether a snapshot is the one a model describes.
pub open spec fn snapshot_matches(s: BuddyBoardGamesSnapshot, m: SnapshotModel) -> bool {
    &&& (match m.state {
        Some(b) => s.game_state@ == lossy_text(b) && (valid_utf8(b) ==> s.game_state@ == decode_utf8(b)),
        None => s.game_state@ == "STARTED"@,
    })
    &&& s.game_state@ == "STARTED"@
    &&& Some(s.me_idx) == m.me
    &&& Some(s.turn_idx) == m.turn
    &&& s.is_spectator == m.spectator
    &&& s.roll_pending == m.pending
    &&& s.rolls_used == (match m.rolls {
        Some(r) => r,
        None => 0,
    })
    &&& Some(s.page_dice@) == m.dice
    &&& s.dice@ == sorted_faces(s.page_dice@)
    &&& s.selected_dice@ == (match m.selected {
        Some(b) => b,
        None => seq![false, false, false, false, false],
    })
    &&& Some(s.rows@.map_values(|x: BuddyBoardGamesRow| row_model(x))) == m.rows
}

pub open spec fn snapshot_outcome(
    r: Result<BuddyBoardGamesSnapshot, KeiriError>,
    o: Result<SnapshotModel, ParseFault>,
) -> bool {
    match (r, o) {
        (Ok(s), Ok(m)) => snapshot_matches(s, m),
        (Err(e), Err(f)) => fault_matches(e, f),
        _ => false,
    }
}

/// A message that is just the literal `text`.
fn plain(text: &str) -> (r: String)
    ensures
        r@ == text@,
{
    let mut msg = String::new();
    push_str(&mut msg, text);
    msg
}

proof fn lemma_snapshot_err(toks: Seq<Seq<u8>>, n: int)
    requires
        0 < n <= toks.len(),
        snapshot_tokens_spec(toks.take(n)) is Err,
    ensures
        snapshot_tokens_spec(toks) == snapshot_tokens_spec(toks.take(n)),
    decreases toks.len() - n,
{
    if n < toks.len() {
        assert(toks.take(n + 1).drop_last() =~= toks.take(n));
        lemma_snapshot_err(toks, n + 1);
    } else {
        assert(toks.take(n) =~= toks);
    }
}

/// Whether the fields read so far are those of a model.
pub open spec fn fields_match(
    state: Option<Vec<u8>>,
    me: Option<usize>,
    turn: Option<usize>,
    spectator: bool,
    pending: bool,
    rolls: Option<u8>,
    dice: Option<[u8; 5]>,
    selected: Option<[bool; 5]>,
    rows: Option<Vec<BuddyBoardGamesRow>>,
    m: SnapshotModel,
) -> bool {
    &&& match (state, m.state) {
        (Some(a), Some(b)) => a@ == b,
        (None, None) => true,
        _ => false,
    }
    &&& me == m.me
    &&& turn == m.turn
    &&& spectator == m.spectator
    &&& pending == m.pending
    &&& rolls == m.rolls
    &&& match (dice, m.dice) {
        (Some(a), Some(b)) => a@ == b,
        (None, None) => true,
        _ => false,
    }
    &&& match (selected, m.selected) {
        (Some(a), Some(b)) => a@ == b,
        (None, None) => true,
        _ => false,
    }
    &&& match (rows, m.rows) {
        (Some(a), Some(b)) => a@.map_values(|x: BuddyBoardGamesRow| row_model(x)) == b,
        (None, None) => true,
        _ => false,
    }
}

/// Reads a snapshot from `key=value` tokens given as bytes.
#[verifier::spinoff_prover]
#[verifier::rlimit(50)]
pub fn read_snapshot_tokens(tokens: &Vec<Vec<u8>>) -> (r: Result<BuddyBoardGamesSnapshot, KeiriError>)
    ensures
        snapshot_outcome(r, snapshot_spec(tokens@.map_values(|t: Vec<u8>| t@))),
{
    let ghost toks = tokens@.map_values(|t: Vec<u8>| t@);
    let mut state: Option<Vec<u8>> = None;
    let mut me: Option<usize> = None;
    let mut turn: Option<usize> = None;
    let mut spectator = false;
    let mut pending = false;
    let mut rolls: Option<u8> = None;
    let mut dice: Option<[u8; 5]> = None;
    let mut selected: Option<[bool; 5]> = None;
    let mut rows: Option<Vec<BuddyBoardGamesRow>> = None;
    let mut i: usize = 0;
    while i < tokens.len()
        invariant
            i <= tokens@.len() == toks.len(),
            toks == tokens@.map_values(|t: Vec<u8>| t@),
            snapshot_tokens_spec(toks.take(i as int)) is Ok,
            match snapshot_tokens_spec(toks.take(i as int))->Ok_0.dice {
                Some(d) => all_faces(d) && d.len() == 5,
                None => true,
            },
            fields_match(
                state,
                me,
                turn,
                spectator,
                pending,
                rolls,
                dice,
                selected,
                rows,
                snapshot_tokens_spec(toks.take(i as int))->Ok_0,
            ),
        decreases tokens.len() - i,
    {
        assert(toks.take(i as int + 1).drop_last() =~= toks.take(i as int));
        let token = tokens[i].as_slice();
        assert(token@ == toks[i as int]);
        let (key, value) = match split_once(token, 61) {
            Some(p) => p,
            None => {
                proof {
                    lemma_snapshot_err(toks, i as int + 1);
                }
                return Err(
                    KeiriError::ParseError(
                        message("BuddyBoardGames token `", token, "` must be key=value"),
                    ),
                );
            },
        };
        let k = key.as_slice();
        let v = value.as_slice();
        if bytes_eq(k, "state".as_bytes()) || bytes_eq(k, "game_state".as_bytes()) {
            state = Some(slice_to_vec(v, 0, v.len()));
            assert(state->0@ =~= v@);
        } else if bytes_eq(k, "me".as_bytes()) || bytes_eq(k, "me_idx".as_bytes()) {
            match parse_bounded(v, usize::MAX as u64) {
                Some(n) => me = Some(n as usize),
                None => {
                    proof {
                        lemma_snapshot_err(toks, i as int + 1);
                    }
                    return Err(KeiriError::ParseError(message("invalid me value `", v, "`")));
                },
            }
        } else if bytes_eq(k, "turn".as_bytes()) || bytes_eq(k, "turn_idx".as_bytes()) {
            match parse_bounded(v, usize::MAX as u64) {
                Some(n) => turn = Some(n as usize),
                None => {
                    proof {
                        lemma_snapshot_err(toks, i as int + 1);
                    }
                    return Err(KeiriError::ParseError(message("invalid turn value `", v, "`")));
                },
            }
        } else if bytes_eq(k, "spectator".as_bytes()) {
            match parse_bool_field(v) {
                Some(b) => spectator = b,
                None => {
                    proof {
                        lemma_snapshot_err(toks, i as int + 1);
                    }
                    return Err(
                        KeiriError::ParseError(message("invalid spectator boolean `", v, "`")),
                    );
                },
            }
        } else if bytes_eq(k, "pending".as_bytes()) || bytes_eq(k, "roll_pending".as_bytes()) {
            match parse_bool_field(v) {
                Some(b) => pending = b,
                None => {
                    proof {
                        lemma_snapshot_err(toks, i as int + 1);
                    }
                    return Err(
                        KeiriError::ParseError(message("invalid pending boolean `", v, "`")),
                    );
                },
            }
        } else if bytes_eq(k, "rolls".as_bytes()) {
            match parse_bounded(v, 255) {
                Some(n) => rolls = Some(n as u8),
                None => {
                    proof {
                        lemma_snapshot_err(toks, i as int + 1);
                    }
                    return Err(KeiriError::ParseError(message("invalid rolls value `", v, "`")));
                },
            }
        } else if bytes_eq(k, "dice".as_bytes()) {
            let vals = match parse_values(v) {
                Ok(x) => x,
                Err(e) => {
                    proof {
                        lemma_snapshot_err(toks, i as int + 1);
                    }
                    return Err(e);
                },
            };
            match Dice::from_slice(vals.as_slice()) {
                Ok(_) => {
                    let arr = [vals[0], vals[1], vals[2], vals[3], vals[4]];
                    assert(arr@ =~= vals@);
                    dice = Some(arr);
                },
                Err(e) => {
                    proof {
                        lemma_snapshot_err(toks, i as int + 1);
                    }
                    return Err(e);
                },
            }
        } else if bytes_eq(k, "selected".as_bytes()) || bytes_eq(k, "held".as_bytes()) {
            match parse_selected(v) {
                Ok(s) => selected = Some(s),
                Err(e) => {
                    proof {
                        lemma_snapshot_err(toks, i as int + 1);
                    }
                    return Err(e);
                },
            }
        } else if bytes_eq(k, "rows".as_bytes()) {
            match parse_rows(v) {
                Ok(rs) => rows = Some(rs),
                Err(e) => {
                    proof {
                        lemma_snapshot_err(toks, i as int + 1);
                    }
                    return Err(e);
                },
            }
        } else {
            proof {
                lemma_snapshot_err(toks, i as int + 1);
            }
            return Err(
                KeiriError::ParseError(message("unknown BuddyBoardGames key `", k, "`")),
            );
        }
        i += 1;
    }
    assert(toks.take(toks.len() as int) =~= toks);
    let me = match me {
        Some(x) => x,
        None => return Err(KeiriError::InvalidBuddyBoardGamesSnapshot(plain("missing me index"))),
    };
    let turn = match turn {
        Some(x) => x,
        None => return Err(
            KeiriError::InvalidBuddyBoardGamesSnapshot(plain("missing turn index")),
        ),
    };
    let page_dice = match dice {
        Some(x) => x,
        None => return Err(KeiriError::InvalidBuddyBoardGamesSnapshot(plain("missing dice"))),
    };
    let rows = match rows {
        Some(x) => x,
        None => return Err(KeiriError::InvalidBuddyBoardGamesSnapshot(plain("missing rows"))),
    };
    match &state {
        Some(s) => {
            if !bytes_eq(s.as_slice(), "STARTED".as_bytes()) {
                let mut msg = plain("BuddyBoardGames state must be STARTED; found ");
                let shown = text_from_bytes(s.as_slice());
                push_str(&mut msg, shown.as_str());
                return Err(KeiriError::InvalidBuddyBoardGamesSnapshot(msg));
            }
        },
        None => {},
    }
    if spectator {
        return Err(
            KeiriError::InvalidBuddyBoardGamesSnapshot(plain("cannot autoplay as a spectator")),
        );
    }
    if me != turn {
        let mut msg = plain("not this player's turn: me=");
        push_decimal(&mut msg, me as u64);
        push_str(&mut msg, " turn=");
        push_decimal(&mut msg, turn as u64);
        return Err(KeiriError::InvalidBuddyBoardGamesSnapshot(msg));
    }
    if pending {
        return Err(
            KeiriError::InvalidBuddyBoardGamesSnapshot(plain("roll animation or update is pending")),
        );
    }
    if rows.len() == 0 {
        return Err(KeiriError::InvalidBuddyBoardGamesSnapshot(plain("missing score rows")));
    }
    let sorted = match Dice::new(page_dice) {
        Ok(d) => d,
        Err(e) => return Err(e),
    };
    let game_state = match &state {
        Some(s) => {
            proof {
                vstd::utf8::encode_utf8_valid_utf8("STARTED"@);
                vstd::utf8::encode_utf8_decode_utf8("STARTED"@);
            }
            text_from_bytes(s.as_slice())
        },
        None => String::from_str("STARTED"),
    };
    let selected_dice = match selected {
        Some(s) => s,
        None => [false; 5],
    };
    assert(selected_dice@ == (match tokens_model_selected(snapshot_tokens_spec(toks)->Ok_0) {
        Some(b) => b,
        None => seq![false, false, false, false, false],
    }));
    Ok(BuddyBoardGamesSnapshot {
        game_state,
        me_idx: me,
        turn_idx: turn,
        is_spectator: spectator,
        roll_pending: pending,
        rolls_used: match rolls {
            Some(r) => r,
            None => 0,
        },
        dice: sorted,
        page_dice,
        selected_dice,
        rows,
    })
}

pub open spec fn tokens_model_selected(m: SnapshotModel) -> Option<Seq<bool>> {
    m.selected
}


// ---------------------------------------------------------------------------
// The snapshot as a game state
// ---------------------------------------------------------------------------

/// The recorded scores and Yahtzee bonus count a sheet model holds.
pub struct SheetModel {
    pub scores: Seq<Option<u16>>,
    pub bonus: u16,
}

/// Whether a Yahtzee row shows a 50 plus whole Yahtzee bonuses.
pub open spec fn yahtzee_total_with_bonus(v: u16) -> bool {
    v > 50 && (v - 50) % 100 == 0
}

/// Recording one page row: selected rows of a category are recorded, and a
/// Yahtzee row that shows 50 plus bonuses records 50 and the bonus count.
pub open spec fn row_step(m: SheetModel, row: (usize, u16, bool)) -> Result<SheetModel, ParseFault> {
    if !row.2 {
        Ok(m)
    } else {
        match row_category(row.0) {
            None => Ok(m),
            Some(c) => {
                let (score, bonus) = if c == Category::Yahtzee && yahtzee_total_with_bonus(row.1) {
                    (50u16, Some(((row.1 - 50) / 100) as u16))
                } else {
                    (row.1, None::<u16>)
                };
                if !valid_recorded(c, score as int) {
                    Err(ParseFault::BadRecord(c, score))
                } else if m.scores[c.idx()] is Some {
                    Err(ParseFault::AlreadyFilled(c))
                } else {
                    Ok(
                        SheetModel {
                            scores: m.scores.update(c.idx(), Some(score)),
                            bonus: match bonus {
                                Some(b) => b,
                                None => m.bonus,
                            },
                        },
                    )
                }
            },
        }
    }
}

pub open spec fn rows_sheet_spec(rows: Seq<(usize, u16, bool)>) -> Result<SheetModel, ParseFault>
    decreases rows.len(),
{
    if rows.len() == 0 {
        Ok(SheetModel { scores: Seq::new(13, |i: int| None::<u16>), bonus: 0 })
    } else {
        match rows_sheet_spec(rows.drop_last()) {
            Ok(m) => row_step(m, rows.last()),
            Err(f) => Err(f),
        }
    }
}

proof fn lemma_rows_sheet_err(rows: Seq<(usize, u16, bool)>, n: int)
    requires
        0 < n <= rows.len(),
        rows_sheet_spec(rows.take(n)) is Err,
    ensures
        rows_sheet_spec(rows) == rows_sheet_spec(rows.take(n)),
    decreases rows.len() - n,
{
    if n < rows.len() {
        assert(rows.take(n + 1).drop_last() =~= rows.take(n));
        lemma_rows_sheet_err(rows, n + 1);
    } else {
        assert(rows.take(n) =~= rows);
    }
}

/// Whether the snapshot passes the turn checks.
pub open spec fn snapshot_turn_ok(s: BuddyBoardGamesSnapshot) -> bool {
    turn_ok(s.game_state@ == "STARTED"@, s.is_spectator, s.me_idx, s.turn_idx, s.roll_pending, s.rows@.len())
}

/// The message of the first turn check the snapshot fails, if any.
pub open spec fn snapshot_turn_message(s: BuddyBoardGamesSnapshot) -> Option<Seq<char>> {
    turn_message(
        s.game_state@ == "STARTED"@,
        s.game_state@,
        s.is_spectator,
        s.me_idx,
        s.turn_idx,
        s.roll_pending,
        s.rows@.len(),
    )
}

/// The held flags as a five-bit mask.
pub open spec fn selected_mask(s: Seq<bool>) -> u8 {
    ((if s[0] { 1int } else { 0 }) + (if s[1] { 2int } else { 0 }) + (if s[2] { 4int } else { 0 })
        + (if s[3] { 8int } else { 0 }) + (if s[4] { 16int } else { 0 })) as u8
}

impl BuddyBoardGamesSnapshot {
    /// Reads a snapshot from white-space separated `key=value` tokens and
    /// checks that it is this player's turn.
    pub fn parse_compact(input: &str) -> (r: Result<Self, KeiriError>)
        ensures
            snapshot_outcome(r, snapshot_spec(words_spec(spaces_mapped(input.spec_bytes())))),
    {
        let mapped = map_wide_spaces(input.as_bytes());
        let words = split_words(mapped.as_slice());
        assert(words@.map_values(|t: Vec<u8>| t@) =~= words_spec(spaces_mapped(input.spec_bytes())));
        read_snapshot_tokens(&words)
    }

    /// Reads a snapshot from `key=value` tokens.
    pub fn parse_compact_tokens(tokens: &[&str]) -> (r: Result<Self, KeiriError>)
        ensures
            snapshot_outcome(r, snapshot_spec(tokens@.map_values(|t: &str| spaces_mapped(t.spec_bytes())))),
    {
        let words = crate::compact::token_bytes(tokens);
        read_snapshot_tokens(&words)
    }

    /// Checks that the game is running, this player is seated and on turn,
    /// no roll is in flight, and the score rows are shown.
    pub fn validate_turn(&self) -> (r: Result<(), KeiriError>)
        ensures
            r is Ok <==> snapshot_turn_ok(*self),
            match snapshot_turn_message(*self) {
                None => r is Ok,
                Some(m) => r is Err && fault_matches(r->Err_0, ParseFault::Snapshot(m)),
            },
    {
        let started = String::from_str("STARTED");
        if self.game_state != started {
            let mut msg = plain("BuddyBoardGames state must be STARTED; found ");
            push_str(&mut msg, self.game_state.as_str());
            return Err(KeiriError::InvalidBuddyBoardGamesSnapshot(msg));
        }
        if self.is_spectator {
            return Err(
                KeiriError::InvalidBuddyBoardGamesSnapshot(plain("cannot autoplay as a spectator")),
            );
        }
        if self.me_idx != self.turn_idx {
            let mut msg = plain("not this player's turn: me=");
            push_decimal(&mut msg, self.me_idx as u64);
            push_str(&mut msg, " turn=");
            push_decimal(&mut msg, self.turn_idx as u64);
            return Err(KeiriError::InvalidBuddyBoardGamesSnapshot(msg));
        }
        if self.roll_pending {
            return Err(
                KeiriError::InvalidBuddyBoardGamesSnapshot(
                    plain("roll animation or update is pending"),
                ),
            );
        }
        if self.rows.len() == 0 {
            return Err(KeiriError::InvalidBuddyBoardGamesSnapshot(plain("missing score rows")));
        }
        Ok(())
    }

    /// The game state the page shows: the selected rows recorded on a sheet,
    /// and the dice once at least one roll was made.
    pub fn to_game_state(&self) -> (r: Result<GameState, KeiriError>)
        ensures
            !snapshot_turn_ok(*self) ==> r is Err && fault_matches(
                r->Err_0,
                ParseFault::Snapshot(snapshot_turn_message(*self)->0),
            ),
            snapshot_turn_ok(*self) ==> match rows_sheet_spec(
                self.rows@.map_values(|x: BuddyBoardGamesRow| row_model(x)),
            ) {
                Err(f) => r is Err && fault_matches(r->Err_0, f),
                Ok(m) => if self.rolls_used > 3 {
                    r == Err::<GameState, KeiriError>(KeiriError::InvalidRollCount(self.rolls_used))
                } else {
                    &&& r is Ok
                    &&& r->Ok_0.sheet_of().score_model() == m.scores
                    &&& r->Ok_0.sheet_of().bonus_count() == m.bonus
                    &&& r->Ok_0.rolls() == self.rolls_used
                    &&& r->Ok_0.dice_of() == if self.rolls_used > 0 {
                        Some(self.dice)
                    } else {
                        None
                    }
                },
            },
    {
        match self.validate_turn() {
            Ok(()) => {},
            Err(e) => return Err(e),
        }
        let ghost rows = self.rows@.map_values(|x: BuddyBoardGamesRow| row_model(x));
        let mut sheet = ScoreSheet::new();
        proof {
            assert(sheet.score_model() =~= Seq::new(13, |i: int| None::<u16>));
        }
        let mut i: usize = 0;
        while i < self.rows.len()
            invariant
                i <= self.rows@.len() == rows.len(),
                snapshot_turn_ok(*self),
                rows == self.rows@.map_values(|x: BuddyBoardGamesRow| row_model(x)),
                rows_sheet_spec(rows.take(i as int)) is Ok,
                rows_sheet_spec(rows.take(i as int))->Ok_0.scores == sheet.score_model(),
                rows_sheet_spec(rows.take(i as int))->Ok_0.bonus == sheet.bonus_count(),
            decreases self.rows.len() - i,
        {
            assert(rows.take(i as int + 1).drop_last() =~= rows.take(i as int));
            let row = &self.rows[i];
            assert(row_model(*row) == rows[i as int]);
            if row.selected {
                match bbg_client_row_to_category(row.client_row) {
                    Some(category) => {
                        let normalize = category == Category::Yahtzee && row.value > 50 && (
                        row.value - 50) % 100 == 0;
                        let score: u16 = if normalize {
                            50
                        } else {
                            row.value
                        };
                        proof {
                            crate::category::lemma_category_index_roundtrip(category, 0);
                            assert(sheet.score_model()[category.idx()] == sheet.score_of(category));
                        }
                        let ghost before = sheet;
                        let r = sheet.fill_validated(category, score);
                        if r.is_err() {
                            proof {
                                lemma_rows_sheet_err(rows, i as int + 1);
                            }
                            return Err(
                                match r {
                                    Err(e) => e,
                                    Ok(_) => KeiriError::TerminalState,
                                },
                            );
                        }
                        proof {
                            crate::compact::lemma_model_after_fill(before, sheet, category, score);
                        }
                        if normalize {
                            sheet.set_yahtzee_bonus_count((row.value - 50) / 100);
                            proof {
                                assert(sheet.score_model() =~= rows_sheet_spec(
                                    rows.take(i as int + 1),
                                )->Ok_0.scores);
                            }
                        }
                    },
                    None => {},
                }
            }
            i += 1;
        }
        assert(rows.take(rows.len() as int) =~= rows);
        let dice = if self.rolls_used > 0 {
            Some(self.dice)
        } else {
            None
        };
        GameState::from_parts(dice, self.rolls_used, sheet)
    }

    /// The held page dice as a five-bit mask.
    pub fn current_hold_mask(&self) -> (r: u8)
        ensures
            r == selected_mask(self.selected_dice@),
            r < 32,
    {
        let s = self.selected_dice;
        let mut mask: u8 = 0;
        if s[0] {
            mask = mask + 1;
        }
        if s[1] {
            mask = mask + 2;
        }
        if s[2] {
            mask = mask + 4;
        }
        if s[3] {
            mask = mask + 8;
        }
        if s[4] {
            mask = mask + 16;
        }
        mask
    }
}

// ---------------------------------------------------------------------------
// Where an action is clicked
// ---------------------------------------------------------------------------

/// Number of page positions below `n` that show `f` and whose held flag is `h`.
pub open spec fn count_pos(pd: Seq<u8>, sel: Seq<bool>, f: u8, h: bool, n: int) -> nat
    decreases n,
{
    if n <= 0 {
        0
    } else {
        count_pos(pd, sel, f, h, n - 1) + if pd[n - 1] == f && sel[n - 1] == h {
            1nat
        } else {
            0nat
        }
    }
}

/// The place of page position `p` among the positions showing the same face:
/// held ones first, then the others, each in page order.
pub open spec fn page_rank(pd: Seq<u8>, sel: Seq<bool>, p: int) -> nat {
    if sel[p] {
        count_pos(pd, sel, pd[p], true, p)
    } else {
        count_pos(pd, sel, pd[p], true, 5) + count_pos(pd, sel, pd[p], false, p)
    }
}

/// Whether page position `p` is held after the move: for each face, as many
/// page dice are held as `kept` holds of that face, taken in rank order.
pub open spec fn page_held(pd: Seq<u8>, sel: Seq<bool>, kept: Seq<u8>, p: int) -> bool {
    page_rank(pd, sel, p) < crate::dice::face_count(kept, pd[p])
}

/// The page positions to hold, as a five-bit mask.
pub open spec fn page_mask(pd: Seq<u8>, sel: Seq<bool>, kept: Seq<u8>) -> u8 {
    ((if page_held(pd, sel, kept, 0) { 1int } else { 0 }) + (if page_held(pd, sel, kept, 1) {
        2int
    } else {
        0
    }) + (if page_held(pd, sel, kept, 2) { 4int } else { 0 }) + (if page_held(pd, sel, kept, 3) {
        8int
    } else {
        0
    }) + (if page_held(pd, sel, kept, 4) { 16int } else { 0 })) as u8
}

/// The page positions below `n` whose held flag must change.
pub open spec fn toggles(pd: Seq<u8>, sel: Seq<bool>, kept: Seq<u8>, n: int) -> Seq<usize>
    decreases n,
{
    if n <= 0 {
        Seq::empty()
    } else if sel[n - 1] != page_held(pd, sel, kept, n - 1) {
        toggles(pd, sel, kept, n - 1).push((n - 1) as usize)
    } else {
        toggles(pd, sel, kept, n - 1)
    }
}

/// Where to click on the page for an action.
#[derive(Debug, Clone, PartialEq, Eq)]
pub struct BuddyBoardGamesMove {
    pub action: Action,
    pub category: Option<Category>,
    pub client_row: Option<usize>,
    /// The held dice, by position among the sorted dice.
    pub hold_mask: Option<u8>,
    /// The held dice, by position on the page.
    pub page_hold_mask: Option<u8>,
    /// The page dice to click to change which are held.
    pub toggle_dice: Vec<usize>,
    pub selector: String,
}

fn count_pos_exec(pd: &[u8; 5], sel: &[bool; 5], f: u8, h: bool, n: usize) -> (r: u8)
    requires
        n <= 5,
    ensures
        r == count_pos(pd@, sel@, f, h, n as int),
        r <= n,
{
    let mut c: u8 = 0;
    let mut q: usize = 0;
    while q < n
        invariant
            q <= n <= 5,
            c == count_pos(pd@, sel@, f, h, q as int),
            c <= q,
        decreases n - q,
    {
        if pd[q] == f && sel[q] == h {
            c += 1;
        }
        q += 1;
    }
    c
}

fn count_face(kept: &Vec<u8>, f: u8) -> (r: usize)
    ensures
        r == crate::dice::face_count(kept@, f),
{
    let mut c: usize = 0;
    let mut i: usize = 0;
    while i < kept.len()
        invariant
            i <= kept@.len(),
            c == crate::dice::face_count(kept@.take(i as int), f),
            c <= i,
        decreases kept.len() - i,
    {
        assert(kept@.take(i as int + 1).drop_last() =~= kept@.take(i as int));
        if kept[i] == f {
            c += 1;
        }
        i += 1;
    }
    assert(kept@.take(kept@.len() as int) =~= kept@);
    c
}

fn page_held_exec(pd: &[u8; 5], sel: &[bool; 5], kept: &Vec<u8>, p: usize) -> (r: bool)
    requires
        p < 5,
    ensures
        r == page_held(pd@, sel@, kept@, p as int),
{
    let f = pd[p];
    let rank: u8 = if sel[p] {
        count_pos_exec(pd, sel, f, true, p)
    } else {
        count_pos_exec(pd, sel, f, true, 5) + count_pos_exec(pd, sel, f, false, p)
    };
    (rank as usize) < count_face(kept, f)
}

/// The selector of the score row `row` of player `me`.
pub open spec fn row_selector(me: usize, row: usize) -> Seq<char> {
    "#player-"@ + decimal_chars(me as nat) + "-scoreboard-row-"@ + decimal_chars(row as nat)
}

impl BuddyBoardGamesSnapshot {
    /// Where to click for `action`: the roll button after toggling the page
    /// dice that must change, or the score row of the category.
    pub fn plan_move(&self, action: Action) -> (r: Result<BuddyBoardGamesMove, KeiriError>)
        ensures
            match action {
                Action::Roll { hold_mask } => if hold_mask >= 32 {
                    r == Err::<BuddyBoardGamesMove, KeiriError>(
                        KeiriError::InvalidHoldMask(hold_mask),
                    )
                } else {
                    let kept = crate::dice::kept_spec(self.dice@, hold_mask, 5);
                    &&& r is Ok
                    &&& r->Ok_0.action == action
                    &&& r->Ok_0.category is None
                    &&& r->Ok_0.client_row is None
                    &&& r->Ok_0.hold_mask == Some(hold_mask)
                    &&& r->Ok_0.page_hold_mask == Some(
                        page_mask(self.page_dice@, self.selected_dice@, kept),
                    )
                    &&& r->Ok_0.toggle_dice@ == toggles(
                        self.page_dice@,
                        self.selected_dice@,
                        kept,
                        5,
                    )
                    &&& r->Ok_0.selector@ == "#roll-dice"@
                },
                Action::Score { category } => {
                    &&& r is Ok
                    &&& r->Ok_0.action == action
                    &&& r->Ok_0.category == Some(category)
                    &&& r->Ok_0.client_row == Some(category_row(category))
                    &&& r->Ok_0.hold_mask is None
                    &&& r->Ok_0.page_hold_mask is None
                    &&& r->Ok_0.toggle_dice@.len() == 0
                    &&& r->Ok_0.selector@ == row_selector(self.me_idx, category_row(category))
                },
            },
    {
        match action {
            Action::Roll { hold_mask } => {
                let kept = match self.dice.kept_by_mask(hold_mask) {
                    Ok(k) => k,
                    Err(e) => return Err(e),
                };
                let pd = &self.page_dice;
                let sel = &self.selected_dice;
                let mut page: u8 = 0;
                if page_held_exec(pd, sel, &kept, 0) {
                    page = page + 1;
                }
                if page_held_exec(pd, sel, &kept, 1) {
                    page = page + 2;
                }
                if page_held_exec(pd, sel, &kept, 2) {
                    page = page + 4;
                }
                if page_held_exec(pd, sel, &kept, 3) {
                    page = page + 8;
                }
                if page_held_exec(pd, sel, &kept, 4) {
                    page = page + 16;
                }
                let mut toggle: Vec<usize> = Vec::new();
                let mut p: usize = 0;
                while p < 5
                    invariant
                        p <= 5,
                        toggle@ == toggles(pd@, sel@, kept@, p as int),
                    decreases 5 - p,
                {
                    if sel[p] != page_held_exec(pd, sel, &kept, p) {
                        toggle.push(p);
                    }
                    p += 1;
                }
                let selector = plain("#roll-dice");
                Ok(
                    BuddyBoardGamesMove {
                        action,
                        category: None,
                        client_row: None,
                        hold_mask: Some(hold_mask),
                        page_hold_mask: Some(page),
                        toggle_dice: toggle,
                        selector,
                    },
                )
            },
            Action::Score { category } => {
                let row = match bbg_category_to_client_row(category) {
                    Some(x) => x,
                    None => 0,
                };
                let mut selector = plain("#player-");
                push_decimal(&mut selector, self.me_idx as u64);
                push_str(&mut selector, "-scoreboard-row-");
                push_decimal(&mut selector, row as u64);
                Ok(
                    BuddyBoardGamesMove {
                        action,
                        category: Some(category),
                        client_row: Some(row),
                        hold_mask: None,
                        page_hold_mask: None,
                        toggle_dice: Vec::new(),
                        selector,
                    },
                )
            },
        }
    }
}
} // verus!
