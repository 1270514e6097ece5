//! Five dice kept in sorted order.
use crate::text::{
    ascii_bytes, decimal_chars, lacks, lemma_ascii_concat, lemma_decimal_bounded, lemma_decimal_plain,
    lemma_ascii_bytes_small, lemma_decimal_reads, lemma_encode_ascii, lemma_spaces_mapped_ascii, lemma_split_append,
    lemma_split_single, lemma_trim_unchanged, map_wide_spaces,
    parse_bounded, spaces_mapped,
    parse_bounded_spec, push_decimal, push_str, spaceless, split_bytes, split_spec, text_from_bytes, trim,
    trim_spec,
};
use crate::{fault_matches, quoted, KeiriError, ParseFault};
use vstd::prelude::*;
use vstd::string::StringSliceAdditionalSpecFns;
use vstd::utf8::{encode_utf8, is_ascii_chars};

verus! {

/// A die face.
pub open spec fn is_face(b: u8) -> bool {
    1 <= b <= 6
}

/// How often `f` occurs in `s`.
pub open spec fn face_count(s: Seq<u8>, f: u8) -> nat
    decreases s.len(),
{
    if s.len() == 0 {
        0
    } else {
        face_count(s.drop_last(), f) + if s.last() == f {
            1nat
        } else {
            0nat
        }
    }
}

/// Sum of the values in `s`.
pub open spec fn seq_sum(s: Seq<u8>) -> nat
    decreases s.len(),
{
    if s.len() == 0 {
        0
    } else {
        seq_sum(s.drop_last()) + s.last() as nat
    }
}

pub open spec fn all_faces(s: Seq<u8>) -> bool {
    forall|i: int| 0 <= i < s.len() ==> is_face(#[trigger] s[i])
}

pub open spec fn sorted(s: Seq<u8>) -> bool {
    forall|i: int, j: int| 0 <= i <= j < s.len() ==> s[i] <= s[j]
}

/// Number of values of `s` that are at most `f`.
pub open spec fn at_most(s: Seq<u8>, f: u8) -> nat {
    face_count(s, 1) + (if f >= 2 { face_count(s, 2) } else { 0 }) + (if f >= 3 {
        face_count(s, 3)
    } else {
        0
    }) + (if f >= 4 { face_count(s, 4) } else { 0 }) + (if f >= 5 {
        face_count(s, 5)
    } else {
        0
    })
}

/// The face at position `i` when the values of `s` are sorted.
pub open spec fn sorted_face_at(s: Seq<u8>, i: int) -> u8 {
    if i < at_most(s, 1) {
        1
    } else if i < at_most(s, 2) {
        2
    } else if i < at_most(s, 3) {
        3
    } else if i < at_most(s, 4) {
        4
    } else if i < at_most(s, 5) {
        5
    } else {
        6
    }
}

/// The values of `s` in ascending order (for a sequence of faces).
pub open spec fn sorted_faces(s: Seq<u8>) -> Seq<u8> {
    Seq::new(s.len(), |i: int| sorted_face_at(s, i))
}

/// Position of the first value of `s` that is not a face, or -1.
pub open spec fn first_non_face(s: Seq<u8>) -> int
    decreases s.len(),
{
    if s.len() == 0 {
        -1
    } else {
        let p = first_non_face(s.drop_last());
        if p >= 0 {
            p
        } else if !is_face(s.last()) {
            s.len() - 1
        } else {
            -1
        }
    }
}

pub proof fn lemma_first_non_face(s: Seq<u8>)
    ensures
        -1 <= first_non_face(s) < s.len(),
        first_non_face(s) < 0 <==> all_faces(s),
        first_non_face(s) >= 0 ==> !is_face(s[first_non_face(s)]),
    decreases s.len(),
{
    if s.len() > 0 {
        lemma_first_non_face(s.drop_last());
        if first_non_face(s.drop_last()) < 0 && is_face(s.last()) {
            assert forall|i: int| 0 <= i < s.len() implies is_face(#[trigger] s[i]) by {
                if i < s.len() - 1 {
                    assert(s.drop_last()[i] == s[i]);
                }
            }
        }
        if first_non_face(s.drop_last()) >= 0 {
            assert(s.drop_last()[first_non_face(s.drop_last())] == s[first_non_face(s)]);
        }
        if all_faces(s) {
            assert(all_faces(s.drop_last())) by {
                assert forall|i: int| 0 <= i < s.len() - 1 implies is_face(
                    #[trigger] s.drop_last()[i],
                ) by {
                    assert(s.drop_last()[i] == s[i]);
                }
            }
        }
    }
}

/// The counts of the faces of a sequence of faces add up to its length.
pub proof fn lemma_face_counts_total(s: Seq<u8>)
    requires
        all_faces(s),
    ensures
        at_most(s, 5) + face_count(s, 6) == s.len(),
        face_count(s, 0) == 0,
    decreases s.len(),
{
    if s.len() > 0 {
        assert(all_faces(s.drop_last())) by {
            assert forall|i: int| 0 <= i < s.len() - 1 implies is_face(
                #[trigger] s.drop_last()[i],
            ) by {
                assert(s.drop_last()[i] == s[i]);
            }
        }
        lemma_face_counts_total(s.drop_last());
        assert(is_face(s[s.len() - 1]));
    }
}

/// A count of one face never exceeds the length.
pub proof fn lemma_face_count_le_len(s: Seq<u8>, f: u8)
    ensures
        face_count(s, f) <= s.len(),
    decreases s.len(),
{
    if s.len() > 0 {
        lemma_face_count_le_len(s.drop_last(), f);
    }
}

/// Counting faces agrees with the multiset of the values.
pub proof fn lemma_face_count_multiset(s: Seq<u8>, f: u8)
    ensures
        face_count(s, f) == s.to_multiset().count(f),
    decreases s.len(),
{
    broadcast use vstd::seq_lib::group_to_multiset_ensures;

    if s.len() == 0 {
        assert(s.to_multiset() =~= vstd::multiset::Multiset::empty());
    } else {
        lemma_face_count_multiset(s.drop_last(), f);
        assert(s.drop_last().push(s.last()) =~= s);
    }
}

/// The sorted arrangement of a sequence of faces is sorted, consists of
/// faces, and counts every face as often as the sequence does.
pub proof fn lemma_sorted_faces(s: Seq<u8>)
    requires
        all_faces(s),
    ensures
        sorted(sorted_faces(s)),
        all_faces(sorted_faces(s)),
        forall|f: u8| #[trigger] face_count(sorted_faces(s), f) == face_count(s, f),
{
    lemma_face_counts_total(s);
    let t = sorted_faces(s);
    assert forall|f: u8| #[trigger] face_count(t, f) == face_count(s, f) by {
        lemma_sorted_count_prefix(s, t.len() as int, f);
        assert(t.take(t.len() as int) =~= t);
        if !is_face(f) {
            lemma_face_count_non_face(s, f);
        }
    }
}

/// A value that is not a face never occurs among faces.
pub proof fn lemma_face_count_non_face(s: Seq<u8>, f: u8)
    requires
        all_faces(s),
        !is_face(f),
    ensures
        face_count(s, f) == 0,
    decreases s.len(),
{
    if s.len() > 0 {
        assert(all_faces(s.drop_last())) by {
            assert forall|i: int| 0 <= i < s.len() - 1 implies is_face(
                #[trigger] s.drop_last()[i],
            ) by {
                assert(s.drop_last()[i] == s[i]);
            }
        }
        lemma_face_count_non_face(s.drop_last(), f);
        assert(is_face(s[s.len() - 1]));
    }
}

/// Counting a face over a prefix of the sorted arrangement.
proof fn lemma_sorted_count_prefix(s: Seq<u8>, n: int, f: u8)
    requires
        all_faces(s),
        0 <= n <= s.len(),
        at_most(s, 5) + face_count(s, 6) == s.len(),
    ensures
        face_count(sorted_faces(s).take(n), f) == (if f == 1 {
            min_nat(n, at_most(s, 1))
        } else if 2 <= f <= 6 {
            (min_nat(n, at_most_upto(s, f)) - min_nat(n, at_most_upto(s, (f - 1) as u8))) as nat
        } else {
            0
        }),
    decreases n,
{
    let t = sorted_faces(s);
    if n > 0 {
        lemma_sorted_count_prefix(s, n - 1, f);
        assert(t.take(n).drop_last() =~= t.take(n - 1));
    } else {
        assert(t.take(0) =~= Seq::<u8>::empty());
    }
    if f == 6 {
        assert(at_most_upto(s, 6) == s.len());
    }
}

pub open spec fn min_nat(a: int, b: nat) -> nat {
    if a < 0 {
        0
    } else if a <= b {
        a as nat
    } else {
        b
    }
}

/// Number of values of `s` that are at most `f`, counting sixes too.
pub open spec fn at_most_upto(s: Seq<u8>, f: u8) -> nat {
    if f >= 6 {
        at_most(s, 5) + face_count(s, 6)
    } else {
        at_most(s, f)
    }
}

/// Five dice, always stored in ascending order.
#[derive(Debug, Clone, Copy, PartialEq, Eq, Hash)]
pub struct Dice {
    values: [u8; 5],
}

impl View for Dice {
    type V = Seq<u8>;

    closed spec fn view(&self) -> Seq<u8> {
        self.values@
    }
}

impl Dice {
    /// Every `Dice` holds five faces in ascending order.
    #[verifier::type_invariant]
    pub open spec fn inv(self) -> bool {
        self@.len() == 5 && all_faces(self@) && sorted(self@)
    }

    /// Sorts five values into dice; the first value outside 1..=6 is refused.
    pub fn new(values: [u8; 5]) -> (r: Result<Self, KeiriError>)
        ensures
            match r {
                Ok(d) => all_faces(values@) && d@ == sorted_faces(values@),
                Err(e) => !all_faces(values@) && e == KeiriError::InvalidDie(
                    values@[first_non_face(values@)],
                ),
            },
    {
        proof {
            lemma_first_non_face(values@);
        }
        let mut i: usize = 0;
        while i < 5
            invariant
                i <= 5,
                first_non_face(values@.take(i as int)) < 0,
            decreases 5 - i,
        {
            assert(values@.take(i as int + 1).drop_last() =~= values@.take(i as int));
            if values[i] < 1 || values[i] > 6 {
                proof {
                    lemma_first_non_face_prefix(values@, i as int + 1);
                }
                return Err(KeiriError::InvalidDie(values[i]));
            }
            i += 1;
        }
        assert(values@.take(5) =~= values@);
        let counts = count_faces(&values);
        let c1 = counts[1] as usize;
        let c2 = c1 + counts[2] as usize;
        let c3 = c2 + counts[3] as usize;
        let c4 = c3 + counts[4] as usize;
        let c5 = c4 + counts[5] as usize;
        let mut out: [u8; 5] = [0; 5];
        let mut k: usize = 0;
        while k < 5
            invariant
                k <= 5,
                c1 == at_most(values@, 1),
                c2 == at_most(values@, 2),
                c3 == at_most(values@, 3),
                c4 == at_most(values@, 4),
                c5 == at_most(values@, 5),
                forall|j: int| 0 <= j < k ==> out@[j] == sorted_face_at(values@, j),
            decreases 5 - k,
        {
            let f: u8 = if k < c1 {
                1
            } else if k < c2 {
                2
            } else if k < c3 {
                3
            } else if k < c4 {
                4
            } else if k < c5 {
                5
            } else {
                6
            };
            out[k] = f;
            k += 1;
        }
        proof {
            lemma_sorted_faces(values@);
            assert(out@ =~= sorted_faces(values@));
        }
        Ok(Dice { values: out })
    }

    /// Dice from a slice of exactly five values.
    pub fn from_slice(values: &[u8]) -> (r: Result<Self, KeiriError>)
        ensures
            values@.len() != 5 ==> r == Err::<Dice, KeiriError>(
                KeiriError::InvalidDiceCount(values@.len() as usize),
            ),
            values@.len() == 5 ==> match r {
                Ok(d) => all_faces(values@) && d@ == sorted_faces(values@),
                Err(e) => !all_faces(values@) && e == KeiriError::InvalidDie(
                    values@[first_non_face(values@)],
                ),
            },
    {
        if values.len() != 5 {
            return Err(KeiriError::InvalidDiceCount(values.len()));
        }
        let array: [u8; 5] = [values[0], values[1], values[2], values[3], values[4]];
        assert(array@ =~= values@);
        Self::new(array)
    }

    /// Reads comma-separated die values such as `1,2,3,4,5`.
    pub fn parse(input: &str) -> (r: Result<Self, KeiriError>)
        ensures
            dice_outcome(r, dice_text_spec(spaces_mapped(input.spec_bytes()))),
    {
        let mapped = map_wide_spaces(input.as_bytes());
        Self::parse_bytes(mapped.as_slice())
    }

    /// Reads comma-separated die values from bytes.
    pub fn parse_bytes(input: &[u8]) -> (r: Result<Self, KeiriError>)
        ensures
            dice_outcome(r, dice_text_spec(input@)),
    {
        let vals = match parse_values(input) {
            Ok(v) => v,
            Err(e) => return Err(e),
        };
        Self::from_slice(vals.as_slice())
    }

    /// The dice in ascending order.
    pub fn values(self) -> (r: [u8; 5])
        ensures
            r@ == self@,
    {
        self.values
    }

    /// Every sorted combination of five faces, from `1,1,1,1,1` to
    /// `6,6,6,6,6`, each followed by the next one in lexicographic order.
    pub fn all_canonical() -> (r: Vec<Dice>)
        ensures
            r@.len() == 252,
            r@[0]@ == seq![1u8, 1, 1, 1, 1],
            r@.last()@ == seq![6u8, 6, 6, 6, 6],
            forall|k: int| 0 <= k < r@.len() - 1 ==> (#[trigger] r@[k + 1])@ == next_sorted(r@[k]@),
            forall|k: int| 0 <= k < r@.len() ==> (#[trigger] r@[k])@ == canonical_at(k as nat),
    {
        let mut out: Vec<Dice> = Vec::new();
        let mut cur: [u8; 5] = [1, 1, 1, 1, 1];
        assert(cur@ =~= seq![1u8, 1, 1, 1, 1]);
        out.push(Dice { values: cur });
        while !(cur[0] == 6 && cur[1] == 6 && cur[2] == 6 && cur[3] == 6 && cur[4] == 6)
            invariant
                out@.len() > 0,
                out@.len() <= 252,
                out@.len() + later_count(cur@) == 252,
                out@[0]@ == seq![1u8, 1, 1, 1, 1],
                out@.last()@ == cur@,
                all_faces(cur@),
                sorted(cur@),
                forall|k: int| 0 <= k < out@.len() - 1 ==> (#[trigger] out@[k + 1])@ == next_sorted(out@[k]@),
                forall|k: int| 0 <= k < out@.len() ==> (#[trigger] out@[k])@ == canonical_at(k as nat),
            decreases 9331 - weight(cur@),
        {
            let ghost prev = cur@;
            let ghost len = out@.len();
            if cur[4] < 6 {
                cur[4] = cur[4] + 1;
            } else if cur[3] < 6 {
                let v = cur[3] + 1;
                cur[3] = v;
                cur[4] = v;
            } else if cur[2] < 6 {
                let v = cur[2] + 1;
                cur[2] = v;
                cur[3] = v;
                cur[4] = v;
            } else if cur[1] < 6 {
                let v = cur[1] + 1;
                cur[1] = v;
                cur[2] = v;
                cur[3] = v;
                cur[4] = v;
            } else {
                let v = cur[0] + 1;
                cur = [v, v, v, v, v];
            }
            assert(cur@ =~= next_sorted(prev));
            assert(later_count(cur@) == later_count(prev) - 1);
            assert(weight(cur@) > weight(prev));
            assert(weight(cur@) <= 9330);
            out.push(Dice { values: cur });
            assert(out@[len - 1]@ == prev);
            assert(canonical_at(len as nat) == next_sorted(canonical_at((len - 1) as nat)));
        }
        assert(cur@ =~= seq![6u8, 6, 6, 6, 6]);
        assert(later_count(cur@) == 0);
        out
    }

    /// The position of the dice in `all_canonical`.
    pub fn canonical_index(self) -> (r: usize)
        ensures
            r < 252,
            r == 251 - later_count(self@),
            canonical_at(r as nat) == self@,
    {
        proof {
            use_type_invariant(self);
            lemma_canonical_complete(self@);
        }
        let v = self.values;
        let later = sorted_tails_count(5, v[0] + 1) + sorted_tails_count(4, v[1] + 1) + sorted_tails_count(3, v[2] + 1)
            + sorted_tails_count(2, v[3] + 1) + sorted_tails_count(1, v[4] + 1);
        251 - later
    }

    /// Sum of the dice.
    pub fn sum(self) -> (r: u16)
        ensures
            r == seq_sum(self@),
            r <= 30,
    {
        proof {
            use_type_invariant(self);
            lemma_sum_bound(self.values@);
        }
        let v = self.values;
        proof {
            lemma_seq_sum_five(v@);
        }
        v[0] as u16 + v[1] as u16 + v[2] as u16 + v[3] as u16 + v[4] as u16
    }

    /// How often each face shows; position 0 is always zero.
    pub fn counts(self) -> (r: [u8; 7])
        ensures
            forall|f: int| 0 <= f < 7 ==> #[trigger] r@[f] == face_count(self@, f as u8),
            r@[0] == 0,
    {
        proof {
            use_type_invariant(self);
            lemma_face_counts_total(self.values@);
        }
        count_faces(&self.values)
    }

    /// Whether all five dice show the same face.
    pub fn is_yahtzee(self) -> (r: bool)
        ensures
            r == (self@[0] == self@[4]),
    {
        self.values[0] == self.values[4]
    }

    /// The face of a Yahtzee.
    pub fn yahtzee_face(self) -> (r: Option<u8>)
        ensures
            self@[0] == self@[4] ==> r == Some(self@[0]),
            self@[0] != self@[4] ==> r is None,
    {
        if self.is_yahtzee() {
            Some(self.values[0])
        } else {
            None
        }
    }

    /// The dice whose positions are set in the five-bit `mask`, in order.
    pub fn kept_by_mask(self, mask: u8) -> (r: Result<Vec<u8>, KeiriError>)
        ensures
            mask >= 32 ==> r == Err::<Vec<u8>, KeiriError>(KeiriError::InvalidHoldMask(mask)),
            mask < 32 ==> r is Ok && r->Ok_0@ == kept_spec(self@, mask, 5),
    {
        if mask >= 32 {
            return Err(KeiriError::InvalidHoldMask(mask));
        }
        Ok(kept_values(&self.values, mask))
    }

    /// The dice written as `1,2,3,4,5`.
    pub fn to_text(self) -> (r: String)
        ensures
            r@ == dice_text(self@),
    {
        let mut out = String::new();
        let mut i: usize = 0;
        while i < 5
            invariant
                i <= 5,
                self.values@ == self@,
                out@ == dice_text_prefix(self@, i as int),
            decreases 5 - i,
        {
            if i > 0 {
                push_str(&mut out, ",");
            }
            push_decimal(&mut out, self.values[i] as u64);
            i += 1;
        }
        out
    }
}

/// Dice text: the values separated by commas.
pub open spec fn dice_text(s: Seq<u8>) -> Seq<char> {
    dice_text_prefix(s, 5)
}

pub open spec fn dice_text_prefix(s: Seq<u8>, n: int) -> Seq<char>
    decreases n,
{
    if n <= 0 {
        Seq::empty()
    } else if n == 1 {
        decimal_chars(s[0] as nat)
    } else {
        dice_text_prefix(s, n - 1) + ","@ + decimal_chars(s[n - 1] as nat)
    }
}

/// Whether bit `i` of `mask` is set.
pub open spec fn bit_set(mask: u8, i: int) -> bool {
    (mask >> (i as u8)) & 1u8 == 1u8
}

/// The values at the positions below `n` whose bit is set in `mask`.
pub open spec fn kept_spec(s: Seq<u8>, mask: u8, n: int) -> Seq<u8>
    decreases n,
{
    if n <= 0 {
        Seq::empty()
    } else if bit_set(mask, n - 1) {
        kept_spec(s, mask, n - 1).push(s[n - 1])
    } else {
        kept_spec(s, mask, n - 1)
    }
}

pub proof fn lemma_kept_len(s: Seq<u8>, mask: u8, n: int)
    requires
        0 <= n <= s.len(),
        all_faces(s),
    ensures
        kept_spec(s, mask, n).len() <= n,
        all_faces(kept_spec(s, mask, n)),
    decreases n,
{
    if n > 0 {
        lemma_kept_len(s, mask, n - 1);
        let k = kept_spec(s, mask, n);
        let k0 = kept_spec(s, mask, n - 1);
        assert forall|j: int| 0 <= j < k.len() implies is_face(#[trigger] k[j]) by {
            if j < k0.len() {
                assert(k[j] == k0[j]);
            } else {
                assert(k[j] == s[n - 1]);
            }
        }
    }
}

fn kept_values(values: &[u8; 5], mask: u8) -> (r: Vec<u8>)
    ensures
        r@ == kept_spec(values@, mask, 5),
{
    let mut out: Vec<u8> = Vec::new();
    let mut i: usize = 0;
    while i < 5
        invariant
            i <= 5,
            out@ == kept_spec(values@, mask, i as int),
        decreases 5 - i,
    {
        if (mask >> (i as u8)) & 1u8 == 1u8 {
            out.push(values[i]);
        }
        i += 1;
    }
    out
}

fn count_faces(values: &[u8; 5]) -> (r: [u8; 7])
    ensures
        forall|f: int| 0 <= f < 7 ==> #[trigger] r@[f] == face_count(values@, f as u8),
{
    let mut counts: [u8; 7] = [0; 7];
    let mut i: usize = 0;
    while i < 5
        invariant
            i <= 5,
            forall|f: int| 0 <= f < 7 ==> #[trigger] counts@[f] == face_count(values@.take(i as int), f as u8),
        decreases 5 - i,
    {
        assert(values@.take(i as int + 1).drop_last() =~= values@.take(i as int));
        proof {
            assert forall|f: int| 0 <= f < 7 implies #[trigger] face_count(values@.take(i as int), f as u8) <= i by {
                lemma_face_count_le_len(values@.take(i as int), f as u8);
            }
        }
        let v = values[i];
        if v < 7 {
            counts[v as usize] = counts[v as usize] + 1;
        }
        i += 1;
    }
    assert(values@.take(5) =~= values@);
    counts
}

proof fn lemma_first_non_face_prefix(s: Seq<u8>, n: int)
    requires
        0 < n <= s.len(),
        first_non_face(s.take(n - 1)) < 0,
        !is_face(s[n - 1]),
    ensures
        first_non_face(s) == n - 1,
{
    assert(s.take(n).drop_last() =~= s.take(n - 1));
    assert(first_non_face(s.take(n)) == n - 1);
    lemma_first_non_face_extends(s, n);
}

/// A value that is not a face in a prefix stays the first one.
proof fn lemma_first_non_face_extends(s: Seq<u8>, n: int)
    requires
        0 <= n <= s.len(),
        first_non_face(s.take(n)) >= 0,
    ensures
        first_non_face(s) == first_non_face(s.take(n)),
    decreases s.len(),
{
    if n == s.len() {
        assert(s.take(n) =~= s);
    } else {
        let t = s.drop_last();
        assert(t.take(n) =~= s.take(n));
        lemma_first_non_face_extends(t, n);
    }
}

/// The sum of five values written out.
pub proof fn lemma_seq_sum_five(w: Seq<u8>)
    requires
        w.len() == 5,
    ensures
        seq_sum(w) == w[0] + w[1] + w[2] + w[3] + w[4],
{
    reveal_with_fuel(seq_sum, 6);
    assert(w.drop_last().drop_last().drop_last().drop_last().drop_last() =~= Seq::<u8>::empty());
}

pub proof fn lemma_sum_bound(s: Seq<u8>)
    requires
        all_faces(s),
    ensures
        seq_sum(s) <= 6 * s.len(),
    decreases s.len(),
{
    if s.len() > 0 {
        assert(all_faces(s.drop_last())) by {
            assert forall|i: int| 0 <= i < s.len() - 1 implies is_face(
                #[trigger] s.drop_last()[i],
            ) by {
                assert(s.drop_last()[i] == s[i]);
            }
        }
        lemma_sum_bound(s.drop_last());
        assert(is_face(s[s.len() - 1]));
    }
}

/// Reads comma-separated numbers from 0 to 255, each with optional white
/// space around it, in the order given.
pub fn parse_values(input: &[u8]) -> (r: Result<Vec<u8>, KeiriError>)
    ensures
        match die_values_spec(input@) {
            Err(p) => r is Err && fault_matches(r->Err_0, die_fault(p)),
            Ok(vals) => r is Ok && r->Ok_0@ == vals,
        },
{
    let pieces = split_bytes(input, 44);
    let ghost sp = split_spec(input@, 44);
    let mut vals: Vec<u8> = Vec::new();
    let mut i: usize = 0;
    while i < pieces.len()
        invariant
            i <= pieces@.len() == sp.len(),
            forall|k: int| 0 <= k < pieces@.len() ==> (#[trigger] pieces@[k])@ == sp[k],
            die_values_of(sp.take(i as int)) == Ok::<Seq<u8>, Seq<u8>>(vals@),
            sp == split_spec(input@, 44),
        decreases pieces.len() - i,
    {
        assert(sp.take(i as int + 1).drop_last() =~= sp.take(i as int));
        let part = trim(pieces[i].as_slice());
        match parse_bounded(part.as_slice(), 255) {
            Some(v) => {
                vals.push(v as u8);
            },
            None => {
                proof {
                    assert(sp.take(i as int + 1).last() == sp[i as int]);
                    assert(die_values_of(sp.take(i as int + 1)) == Err::<Seq<u8>, Seq<u8>>(part@));
                    lemma_die_values_err(sp, i as int + 1);
                }
                let mut msg = String::new();
                push_str(&mut msg, "invalid die value `");
                let shown = text_from_bytes(part.as_slice());
                push_str(&mut msg, shown.as_str());
                push_str(&mut msg, "`");
                return Err(KeiriError::ParseError(msg));
            },
        }
        i += 1;
    }
    assert(sp.take(sp.len() as int) =~= sp);
    Ok(vals)
}

/// What reading dice text gives: the sorted dice, or the failure.
pub open spec fn dice_text_spec(s: Seq<u8>) -> Result<Seq<u8>, ParseFault> {
    match die_values_spec(s) {
        Err(p) => Err(die_fault(p)),
        Ok(vals) => if vals.len() != 5 {
            Err(ParseFault::DiceCount(vals.len() as usize))
        } else if !all_faces(vals) {
            Err(ParseFault::Die(vals[first_non_face(vals)]))
        } else {
            Ok(sorted_faces(vals))
        },
    }
}

/// Whether a dice result is the outcome described.
pub open spec fn dice_outcome(r: Result<Dice, KeiriError>, o: Result<Seq<u8>, ParseFault>) -> bool {
    match (r, o) {
        (Ok(d), Ok(v)) => d@ == v,
        (Err(e), Err(f)) => fault_matches(e, f),
        _ => false,
    }
}

/// The values read from comma-separated pieces, if every piece reads as a
/// number from 0 to 255 once surrounding white space is trimmed; else the
/// first piece, trimmed, that does not.
pub open spec fn die_values_of(pieces: Seq<Seq<u8>>) -> Result<Seq<u8>, Seq<u8>>
    decreases pieces.len(),
{
    if pieces.len() == 0 {
        Ok(Seq::empty())
    } else {
        match die_values_of(pieces.drop_last()) {
            Err(p) => Err(p),
            Ok(vals) => match parse_bounded_spec(trim_spec(pieces.last()), 255) {
                Some(v) => Ok(vals.push(v as u8)),
                None => Err(trim_spec(pieces.last())),
            },
        }
    }
}

/// The values that comma-separated die text lists.
pub open spec fn die_values_spec(s: Seq<u8>) -> Result<Seq<u8>, Seq<u8>> {
    die_values_of(split_spec(s, 44))
}

/// The failure of a die value `p` that is no number from 0 to 255.
pub open spec fn die_fault(p: Seq<u8>) -> ParseFault {
    ParseFault::Syntax(quoted("invalid die value `"@, p, "`"@))
}

proof fn lemma_die_values_err(pieces: Seq<Seq<u8>>, n: int)
    requires
        0 < n <= pieces.len(),
        die_values_of(pieces.take(n)) is Err,
    ensures
        die_values_of(pieces) == die_values_of(pieces.take(n)),
    decreases pieces.len() - n,
{
    if n < pieces.len() {
        assert(pieces.take(n + 1).drop_last() =~= pieces.take(n));
        lemma_die_values_err(pieces, n + 1);
    } else {
        assert(pieces.take(n) =~= pieces);
    }
}

/// The next sorted combination of faces in lexicographic order.
pub open spec fn next_sorted(d: Seq<u8>) -> Seq<u8> {
    if d[4] < 6 {
        d.update(4, (d[4] + 1) as u8)
    } else if d[3] < 6 {
        seq![d[0], d[1], d[2], (d[3] + 1) as u8, (d[3] + 1) as u8]
    } else if d[2] < 6 {
        seq![d[0], d[1], (d[2] + 1) as u8, (d[2] + 1) as u8, (d[2] + 1) as u8]
    } else if d[1] < 6 {
        seq![d[0], (d[1] + 1) as u8, (d[1] + 1) as u8, (d[1] + 1) as u8, (d[1] + 1) as u8]
    } else {
        seq![(d[0] + 1) as u8, (d[0] + 1) as u8, (d[0] + 1) as u8, (d[0] + 1) as u8, (d[0] + 1) as u8]
    }
}

/// Number of sorted sequences of `m` faces, each at least `v` (for `m`
/// from 1 to 5 and `v` from 2 to 7).
pub open spec fn sorted_tails(m: int, v: int) -> int {
    if m == 1 {
        7 - v
    } else if m == 2 {
        if v == 2 { 15 } else if v == 3 { 10 } else if v == 4 { 6 } else if v == 5 { 3 } else if v == 6 { 1 } else { 0 }
    } else if m == 3 {
        if v == 2 { 35 } else if v == 3 { 20 } else if v == 4 { 10 } else if v == 5 { 4 } else if v == 6 { 1 } else { 0 }
    } else if m == 4 {
        if v == 2 { 70 } else if v == 3 { 35 } else if v == 4 { 15 } else if v == 5 { 5 } else if v == 6 { 1 } else { 0 }
    } else {
        if v == 2 { 126 } else if v == 3 { 56 } else if v == 4 { 21 } else if v == 5 { 6 } else if v == 6 { 1 } else { 0 }
    }
}

/// `sorted_tails(m, v)`, computed.
pub fn sorted_tails_count(m: u8, v: u8) -> (r: usize)
    requires
        1 <= m <= 5,
        2 <= v <= 7,
    ensures
        r == sorted_tails(m as int, v as int),
        r <= 126,
{
    let row: [usize; 6] = if m == 1 {
        [5, 4, 3, 2, 1, 0]
    } else if m == 2 {
        [15, 10, 6, 3, 1, 0]
    } else if m == 3 {
        [35, 20, 10, 4, 1, 0]
    } else if m == 4 {
        [70, 35, 15, 5, 1, 0]
    } else {
        [126, 56, 21, 6, 1, 0]
    };
    row[(v - 2) as usize]
}

/// Number of sorted five-face sequences that come after `d` in
/// lexicographic order.
pub open spec fn later_count(d: Seq<u8>) -> int {
    sorted_tails(5, d[0] + 1) + sorted_tails(4, d[1] + 1) + sorted_tails(3, d[2] + 1) + sorted_tails(2, d[3] + 1)
        + sorted_tails(1, d[4] + 1)
}

/// The `k`-th sorted combination of five faces, counting from `1,1,1,1,1`.
pub open spec fn canonical_at(k: nat) -> Seq<u8>
    decreases k,
{
    if k == 0 {
        seq![1u8, 1, 1, 1, 1]
    } else {
        next_sorted(canonical_at((k - 1) as nat))
    }
}

/// Whether `d` is five sorted faces.
pub open spec fn sorted_five(d: Seq<u8>) -> bool {
    d.len() == 5 && all_faces(d) && sorted(d)
}

/// `d` after `m` steps of `next_sorted`.
pub open spec fn after_steps(d: Seq<u8>, m: nat) -> Seq<u8>
    decreases m,
{
    if m == 0 {
        d
    } else {
        after_steps(next_sorted(d), (m - 1) as nat)
    }
}

proof fn lemma_next_sorted_step(d: Seq<u8>)
    requires
        sorted_five(d),
        d != seq![6u8, 6, 6, 6, 6],
    ensures
        sorted_five(next_sorted(d)),
        later_count(next_sorted(d)) == later_count(d) - 1,
{
    if d[0] == 6 && d[1] == 6 && d[2] == 6 && d[3] == 6 && d[4] == 6 {
        assert(d =~= seq![6u8, 6, 6, 6, 6]);
    }
}

proof fn lemma_later_count_range(d: Seq<u8>)
    requires
        sorted_five(d),
    ensures
        0 <= later_count(d) <= 251,
        later_count(d) == 0 <==> d == seq![6u8, 6, 6, 6, 6],
{
    if later_count(d) == 0 {
        assert(d =~= seq![6u8, 6, 6, 6, 6]);
    }
}

proof fn lemma_canonical_at(k: nat)
    requires
        k <= 251,
    ensures
        sorted_five(canonical_at(k)),
        later_count(canonical_at(k)) == 251 - k,
    decreases k,
{
    if k > 0 {
        lemma_canonical_at((k - 1) as nat);
        lemma_later_count_range(canonical_at((k - 1) as nat));
        lemma_next_sorted_step(canonical_at((k - 1) as nat));
    }
}

proof fn lemma_walk_to_last(d: Seq<u8>)
    requires
        sorted_five(d),
    ensures
        after_steps(d, later_count(d) as nat) == seq![6u8, 6, 6, 6, 6],
    decreases later_count(d),
{
    lemma_later_count_range(d);
    if later_count(d) > 0 {
        lemma_next_sorted_step(d);
        lemma_walk_to_last(next_sorted(d));
    }
}

#[verifier::spinoff_prover]
#[verifier::rlimit(40)]
proof fn lemma_next_sorted_injective(a: Seq<u8>, b: Seq<u8>)
    requires
        sorted_five(a),
        sorted_five(b),
        a != seq![6u8, 6, 6, 6, 6],
        b != seq![6u8, 6, 6, 6, 6],
        next_sorted(a) == next_sorted(b),
    ensures
        a == b,
{
    let na = next_sorted(a);
    assert(na[0] == next_sorted(b)[0] && na[1] == next_sorted(b)[1] && na[2] == next_sorted(b)[2] && na[3]
        == next_sorted(b)[3] && na[4] == next_sorted(b)[4]);
    if a[0] == 6 && a[1] == 6 && a[2] == 6 && a[3] == 6 && a[4] == 6 {
        assert(a =~= seq![6u8, 6, 6, 6, 6]);
    }
    if b[0] == 6 && b[1] == 6 && b[2] == 6 && b[3] == 6 && b[4] == 6 {
        assert(b =~= seq![6u8, 6, 6, 6, 6]);
    }
    assert(a[0] <= a[1] && a[1] <= a[2] && a[2] <= a[3] && a[3] <= a[4]);
    assert(b[0] <= b[1] && b[1] <= b[2] && b[2] <= b[3] && b[3] <= b[4]);
    assert(1 <= a[0] && a[4] <= 6 && 1 <= b[0] && b[4] <= 6);
    assert(a[0] == b[0] && a[1] == b[1] && a[2] == b[2] && a[3] == b[3] && a[4] == b[4]);
    assert(a =~= b);
}

proof fn lemma_walk_injective(a: Seq<u8>, b: Seq<u8>, m: nat)
    requires
        sorted_five(a),
        sorted_five(b),
        later_count(a) == m,
        later_count(b) == m,
        after_steps(a, m) == after_steps(b, m),
    ensures
        a == b,
    decreases m,
{
    if m > 0 {
        lemma_later_count_range(a);
        lemma_later_count_range(b);
        lemma_next_sorted_step(a);
        lemma_next_sorted_step(b);
        lemma_walk_injective(next_sorted(a), next_sorted(b), (m - 1) as nat);
        lemma_next_sorted_injective(a, b);
    } else {
    }
}

/// Every five sorted faces come in the enumeration, at position 251 minus
/// the number of combinations after them.
pub proof fn lemma_canonical_complete(d: Seq<u8>)
    requires
        sorted_five(d),
    ensures
        0 <= later_count(d) <= 251,
        canonical_at((251 - later_count(d)) as nat) == d,
{
    lemma_later_count_range(d);
    let k = (251 - later_count(d)) as nat;
    lemma_canonical_at(k);
    lemma_walk_to_last(d);
    lemma_walk_to_last(canonical_at(k));
    lemma_walk_injective(canonical_at(k), d, later_count(d) as nat);
}

/// Positional weight of five dice read as a base-six number.
pub open spec fn weight(d: Seq<u8>) -> int {
    d[0] * 1296 + d[1] * 216 + d[2] * 36 + d[3] * 6 + d[4]
}

/// Five faces already in ascending order are their own sorted arrangement.
#[verifier::spinoff_prover]
#[verifier::rlimit(40)]
pub proof fn lemma_sorted_faces_fixed(s: Seq<u8>)
    requires
        s.len() == 5,
        all_faces(s),
        sorted(s),
    ensures
        sorted_faces(s) == s,
{
    reveal_with_fuel(face_count, 6);
    assert(s[0] <= s[1] && s[1] <= s[2] && s[2] <= s[3] && s[3] <= s[4]);
    assert(is_face(s[0]) && is_face(s[4]));
    assert(s.drop_last().drop_last().drop_last().drop_last().drop_last().len() == 0);
    assert(sorted_faces(s) =~= s);
}

/// The first `n` dice written with commas read back as those dice.
proof fn lemma_dice_prefix_reads(s: Seq<u8>, n: int)
    requires
        1 <= n <= 5,
        s.len() == 5,
        all_faces(s),
    ensures
        is_ascii_chars(dice_text_prefix(s, n)),
        ascii_bytes(dice_text_prefix(s, n)).len() == 2 * n - 1,
        spaceless(ascii_bytes(dice_text_prefix(s, n))),
        lacks(ascii_bytes(dice_text_prefix(s, n)), 61),
        die_values_of(split_spec(ascii_bytes(dice_text_prefix(s, n)), 44)) == Ok::<Seq<u8>, Seq<u8>>(s.take(n)),
    decreases n,
{
    let f = s[n - 1];
    assert(is_face(f));
    lemma_decimal_reads(f as nat);
    lemma_decimal_plain(f as nat);
    lemma_decimal_bounded(f as nat, 255);
    let d = ascii_bytes(decimal_chars(f as nat));
    lemma_trim_unchanged(d);
    if n == 1 {
        lemma_split_single(d, 44);
        assert(seq![d].drop_last() =~= Seq::<Seq<u8>>::empty());
        assert(die_values_of(Seq::<Seq<u8>>::empty()) == Ok::<Seq<u8>, Seq<u8>>(Seq::<u8>::empty()));
        assert(parse_bounded_spec(trim_spec(d), 255) == Some(f as nat));
        assert(Seq::<u8>::empty().push(f) =~= s.take(1));
        assert(die_values_of(seq![d]) == Ok::<Seq<u8>, Seq<u8>>(s.take(1)));
    } else {
        lemma_dice_prefix_reads(s, n - 1);
        let t1 = dice_text_prefix(s, n - 1);
        let b1 = ascii_bytes(t1);
        reveal_strlit(",");
        lemma_ascii_concat(t1, ","@);
        lemma_ascii_concat(t1 + ","@, decimal_chars(f as nat));
        let b = ascii_bytes(dice_text_prefix(s, n));
        assert(ascii_bytes(","@) =~= seq![44u8]);
        assert(b =~= b1.push(44u8) + d);
        lemma_split_append(b1, 44, d);
        let pieces = split_spec(b, 44);
        assert(pieces.drop_last() =~= split_spec(b1, 44));
        assert(pieces.last() == d);
        assert(s.take(n - 1).push(f) =~= s.take(n));
        assert(die_values_of(pieces) == Ok::<Seq<u8>, Seq<u8>>(s.take(n)));
        assert forall|i: int| 0 <= i < b.len() implies !crate::text::is_space(#[trigger] b[i]) && b[i] != 61 by {
            if i < b1.len() {
                assert(b[i] == b1[i]);
            } else if i > b1.len() {
                assert(b[i] == d[i - b1.len() - 1]);
            }
        }
    }
}

/// Dice written as text read back as the same dice.
pub proof fn lemma_dice_text_reads(s: Seq<u8>)
    requires
        s.len() == 5,
        all_faces(s),
        sorted(s),
    ensures
        is_ascii_chars(dice_text(s)),
        ascii_bytes(dice_text(s)).len() == 9,
        spaceless(ascii_bytes(dice_text(s))),
        lacks(ascii_bytes(dice_text(s)), 61),
        dice_text_spec(ascii_bytes(dice_text(s))) == Ok::<Seq<u8>, ParseFault>(s),
{
    lemma_dice_prefix_reads(s, 5);
    assert(s.take(5) =~= s);
    lemma_sorted_faces_fixed(s);
}

/// Dice written as text read back as the same dice.
pub proof fn law_dice_text_round_trip(d: Dice)
    requires
        d.inv(),
    ensures
        dice_text_spec(spaces_mapped(encode_utf8(dice_text(d@)))) == Ok::<Seq<u8>, ParseFault>(d@),
{
    lemma_dice_text_reads(d@);
    lemma_encode_ascii(dice_text(d@));
    lemma_ascii_bytes_small(dice_text(d@));
    lemma_spaces_mapped_ascii(ascii_bytes(dice_text(d@)));
}

/// Reordering the same five values gives the same dice.
pub proof fn law_dice_order_irrelevant(a: [u8; 5], b: [u8; 5])
    requires
        a@.to_multiset() == b@.to_multiset(),
    ensures
        sorted_faces(a@) == sorted_faces(b@),
        all_faces(a@) <==> all_faces(b@),
{
    assert forall|f: u8| face_count(a@, f) == face_count(b@, f) by {
        lemma_face_count_multiset(a@, f);
        lemma_face_count_multiset(b@, f);
    }
    assert(sorted_faces(a@) =~= sorted_faces(b@));
    assert(all_faces(a@) <==> all_faces(b@)) by {
        broadcast use vstd::seq_lib::group_to_multiset_ensures;

        if all_faces(a@) {
            assert forall|i: int| 0 <= i < 5 implies is_face(#[trigger] b@[i]) by {
                assert(b@.contains(b@[i]));
                assert(a@.to_multiset().count(b@[i]) > 0);
                assert(a@.contains(b@[i]));
            }
        }
        if all_faces(b@) {
            assert forall|i: int| 0 <= i < 5 implies is_face(#[trigger] a@[i]) by {
                assert(a@.contains(a@[i]));
                assert(b@.to_multiset().count(a@[i]) > 0);
                assert(b@.contains(a@[i]));
            }
        }
    }
}

} // verus!
