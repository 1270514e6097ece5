//! Byte-level text handling shared by the compact state format, the
//! BuddyBoardGames snapshot format and the command-line options: splitting,
//! decimal numbers, name normalisation and building output text.
use vstd::prelude::*;
use vstd::string::{StringExecFns, StringSliceAdditionalSpecFns};
use vstd::utf8::{decode_utf8, encode_utf8, is_ascii_chars, is_ascii_chars_encode_utf8, valid_utf8};

verus! {

// ---------------------------------------------------------------------------
// Characters
// ---------------------------------------------------------------------------

/// ASCII letters and digits.
pub open spec fn is_ascii_alnum(b: u8) -> bool {
    (48u8 <= b <= 57u8) || (97u8 <= b <= 122u8) || (65u8 <= b <= 90u8)
}

/// ASCII lower-casing of one byte.
pub open spec fn ascii_lower(b: u8) -> u8 {
    if 65u8 <= b <= 90u8 {
        (b + 32) as u8
    } else {
        b
    }
}

/// The ASCII white-space bytes (tab, line feed, vertical tab, form feed,
/// carriage return and space).
pub open spec fn is_space(b: u8) -> bool {
    (9 <= b <= 13) || b == 32
}

pub open spec fn is_digit(b: u8) -> bool {
    48u8 <= b <= 57u8
}

pub fn is_space_byte(b: u8) -> (r: bool)
    ensures
        r == is_space(b),
{
    (9 <= b && b <= 13) || b == 32
}

// ---------------------------------------------------------------------------
// Equality and normalisation
// ---------------------------------------------------------------------------

/// Byte-wise equality of two slices.
pub fn bytes_eq(a: &[u8], b: &[u8]) -> (r: bool)
    ensures
        r == (a@ == b@),
{
    if a.len() != b.len() {
        return false;
    }
    let mut i: usize = 0;
    while i < a.len()
        invariant
            i <= a.len(),
            a.len() == b.len(),
            forall|j: int| 0 <= j < i ==> a@[j] == b@[j],
        decreases a.len() - i,
    {
        if a[i] != b[i] {
            return false;
        }
        i += 1;
    }
    assert(a@ =~= b@);
    true
}

/// Whether `s` equals the bytes of the literal `lit`.
pub open spec fn is_word(s: Seq<u8>, lit: &str) -> bool {
    s == lit.spec_bytes()
}

/// A name with everything but ASCII letters and digits dropped and the
/// letters lower-cased.  Bytes of multi-byte characters are never ASCII
/// letters or digits, so working on bytes drops exactly the characters that
/// are not ASCII alphanumeric.
pub open spec fn normalize_spec(s: Seq<u8>) -> Seq<u8>
    decreases s.len(),
{
    if s.len() == 0 {
        Seq::empty()
    } else {
        let rest = normalize_spec(s.drop_last());
        if is_ascii_alnum(s.last()) {
            rest.push(ascii_lower(s.last()))
        } else {
            rest
        }
    }
}

pub fn normalize_name(s: &[u8]) -> (r: Vec<u8>)
    ensures
        r@ == normalize_spec(s@),
{
    let mut out: Vec<u8> = Vec::new();
    let mut i: usize = 0;
    while i < s.len()
        invariant
            i <= s.len(),
            out@ == normalize_spec(s@.take(i as int)),
        decreases s.len() - i,
    {
        assert(s@.take(i as int + 1).drop_last() =~= s@.take(i as int));
        let b = s[i];
        if (48u8 <= b && b <= 57u8) || (97u8 <= b && b <= 122u8) || (65u8 <= b && b <= 90u8) {
            let lower = if 65u8 <= b && b <= 90u8 {
                b + 32
            } else {
                b
            };
            out.push(lower);
        }
        i += 1;
    }
    assert(s@.take(s.len() as int) =~= s@);
    out
}

// ---------------------------------------------------------------------------
// Splitting
// ---------------------------------------------------------------------------

/// The pieces of `s` between occurrences of the byte `d`, as `str::split`
/// with a single-character pattern yields them: always at least one piece,
/// and empty pieces where delimiters meet.
pub open spec fn split_spec(s: Seq<u8>, d: u8) -> Seq<Seq<u8>>
    decreases s.len(),
{
    if s.len() == 0 {
        seq![Seq::empty()]
    } else {
        let p = split_spec(s.drop_last(), d);
        if s.last() == d {
            p.push(Seq::empty())
        } else {
            p.update(p.len() - 1, p.last().push(s.last()))
        }
    }
}

pub proof fn lemma_split_nonempty(s: Seq<u8>, d: u8)
    ensures
        split_spec(s, d).len() >= 1,
    decreases s.len(),
{
    if s.len() > 0 {
        lemma_split_nonempty(s.drop_last(), d);
    }
}

/// Splits `s` at every occurrence of `d`.
pub fn split_bytes(s: &[u8], d: u8) -> (r: Vec<Vec<u8>>)
    ensures
        r@.len() == split_spec(s@, d).len(),
        forall|k: int| 0 <= k < r@.len() ==> (#[trigger] r@[k])@ == split_spec(s@, d)[k],
{
    let mut pieces: Vec<Vec<u8>> = Vec::new();
    let mut cur: Vec<u8> = Vec::new();
    let mut i: usize = 0;
    while i < s.len()
        invariant
            i <= s.len(),
            split_spec(s@.take(i as int), d).len() == pieces@.len() + 1,
            forall|k: int|
                0 <= k < pieces@.len() ==> (#[trigger] pieces@[k])@ == split_spec(
                    s@.take(i as int),
                    d,
                )[k],
            cur@ == split_spec(s@.take(i as int), d).last(),
        decreases s.len() - i,
    {
        assert(s@.take(i as int + 1).drop_last() =~= s@.take(i as int));
        let b = s[i];
        if b == d {
            let done = cur;
            pieces.push(done);
            cur = Vec::new();
        } else {
            cur.push(b);
        }
        i += 1;
    }
    assert(s@.take(s.len() as int) =~= s@);
    pieces.push(cur);
    pieces
}

/// The length of the white-space character beyond ASCII that starts at
/// `s[i]` in UTF-8 (U+0085, U+00A0, U+1680, U+2000 to U+200A, U+2028,
/// U+2029, U+202F, U+205F or U+3000), or 0 where none does.
pub open spec fn wide_space_len(s: Seq<u8>, i: int) -> int {
    if i + 1 < s.len() && s[i] == 0xC2u8 && (s[i + 1] == 0x85u8 || s[i + 1] == 0xA0u8) {
        2
    } else if i + 2 < s.len() && ((s[i] == 0xE1u8 && s[i + 1] == 0x9Au8 && s[i + 2] == 0x80u8) || (s[i]
        == 0xE2u8 && s[i + 1] == 0x80u8 && ((0x80u8 <= s[i + 2] <= 0x8Au8) || s[i + 2] == 0xA8u8 || s[i + 2]
        == 0xA9u8 || s[i + 2] == 0xAFu8)) || (s[i] == 0xE2u8 && s[i + 1] == 0x81u8 && s[i + 2] == 0x9Fu8) || (
    s[i] == 0xE3u8 && s[i + 1] == 0x80u8 && s[i + 2] == 0x80u8)) {
        3
    } else {
        0
    }
}

/// `s` with every white-space character beyond ASCII replaced by one space,
/// so that the ASCII white space of the result is the white space of the
/// text in the sense of `char::is_whitespace`.
pub open spec fn spaces_mapped(s: Seq<u8>) -> Seq<u8>
    decreases s.len(),
{
    if s.len() == 0 {
        s
    } else {
        let w = wide_space_len(s, 0);
        if w > 0 {
            seq![32u8] + spaces_mapped(s.skip(w))
        } else {
            seq![s[0]] + spaces_mapped(s.skip(1))
        }
    }
}

/// Replaces each white-space character beyond ASCII by one space.
pub fn map_wide_spaces(s: &[u8]) -> (r: Vec<u8>)
    ensures
        r@ == spaces_mapped(s@),
{
    let mut out: Vec<u8> = Vec::new();
    let mut i: usize = 0;
    assert(s@.skip(0) =~= s@);
    while i < s.len()
        invariant
            i <= s@.len(),
            out@ + spaces_mapped(s@.skip(i as int)) == spaces_mapped(s@),
        decreases s.len() - i,
    {
        let ghost rest = s@.skip(i as int);
        let b = s[i];
        let n = s.len();
        let w: usize = if n - i > 1 && b == 0xC2 && (s[i + 1] == 0x85 || s[i + 1] == 0xA0) {
            2
        } else if n - i > 2 && ((b == 0xE1 && s[i + 1] == 0x9A && s[i + 2] == 0x80) || (b == 0xE2 && s[i + 1]
            == 0x80 && ((0x80 <= s[i + 2] && s[i + 2] <= 0x8A) || s[i + 2] == 0xA8 || s[i + 2] == 0xA9
            || s[i + 2] == 0xAF)) || (b == 0xE2 && s[i + 1] == 0x81 && s[i + 2] == 0x9F) || (b == 0xE3
            && s[i + 1] == 0x80 && s[i + 2] == 0x80)) {
            3
        } else {
            0
        };
        assert(rest.len() > 0);
        assert(rest[0] == b);
        assert(w == wide_space_len(rest, 0)) by {
            if i + 1 < n {
                assert(rest[1] == s@[i + 1]);
            }
            if i + 2 < n {
                assert(rest[2] == s@[i + 2]);
            }
        }
        if w > 0 {
            out.push(32u8);
            assert(rest.skip(w as int) =~= s@.skip(i + w));
            assert(out@ + spaces_mapped(s@.skip(i + w)) =~= (out@.drop_last() + spaces_mapped(rest)));
            i = i + w;
        } else {
            out.push(b);
            assert(rest.skip(1) =~= s@.skip(i + 1));
            assert(out@ + spaces_mapped(s@.skip(i + 1)) =~= (out@.drop_last() + spaces_mapped(rest)));
            i = i + 1;
        }
    }
    assert(s@.skip(i as int) =~= Seq::<u8>::empty());
    assert(out@ + Seq::<u8>::empty() =~= out@);
    out
}

/// Text of ASCII bytes has no white space beyond ASCII.
pub proof fn lemma_spaces_mapped_ascii(s: Seq<u8>)
    requires
        forall|i: int| 0 <= i < s.len() ==> #[trigger] s[i] < 128,
    ensures
        spaces_mapped(s) == s,
    decreases s.len(),
{
    if s.len() > 0 {
        let t = s.skip(1);
        assert forall|i: int| 0 <= i < t.len() implies #[trigger] t[i] < 128 by {
            assert(t[i] == s[i + 1]);
        }
        lemma_spaces_mapped_ascii(t);
        assert(seq![s[0]] + t =~= s);
    }
}

/// ASCII text has only bytes below 128.
pub proof fn lemma_ascii_bytes_small(t: Seq<char>)
    requires
        is_ascii_chars(t),
    ensures
        forall|i: int| 0 <= i < ascii_bytes(t).len() ==> #[trigger] ascii_bytes(t)[i] < 128,
{
    assert forall|i: int| 0 <= i < ascii_bytes(t).len() implies #[trigger] ascii_bytes(t)[i] < 128 by {
        assert('\0' <= t[i] <= '\u{7f}');
    }
}

/// The white-space separated words of `s`, as `str::split_whitespace`
/// yields them for ASCII white space.
pub open spec fn words_spec(s: Seq<u8>) -> Seq<Seq<u8>>
    decreases s.len(),
{
    if s.len() == 0 {
        Seq::empty()
    } else {
        let p = words_spec(s.drop_last());
        if is_space(s.last()) {
            p
        } else if s.len() >= 2 && !is_space(s[s.len() - 2]) {
            p.update(p.len() - 1, p.last().push(s.last()))
        } else {
            p.push(seq![s.last()])
        }
    }
}

/// Splits `s` into its white-space separated words.
pub fn split_words(s: &[u8]) -> (r: Vec<Vec<u8>>)
    ensures
        r@.len() == words_spec(s@).len(),
        forall|k: int| 0 <= k < r@.len() ==> (#[trigger] r@[k])@ == words_spec(s@)[k],
{
    let mut words: Vec<Vec<u8>> = Vec::new();
    let mut cur: Vec<u8> = Vec::new();
    let mut i: usize = 0;
    while i < s.len()
        invariant
            i <= s.len(),
            cur@.len() == 0 ==> words@.len() == words_spec(s@.take(i as int)).len(),
            cur@.len() > 0 ==> words@.len() + 1 == words_spec(s@.take(i as int)).len(),
            cur@.len() > 0 ==> cur@ == words_spec(s@.take(i as int)).last(),
            cur@.len() > 0 <==> (i > 0 && !is_space(s@[i - 1])),
            forall|k: int|
                0 <= k < words@.len() ==> (#[trigger] words@[k])@ == words_spec(
                    s@.take(i as int),
                )[k],
        decreases s.len() - i,
    {
        let ghost pre = s@.take(i as int);
        let ghost post = s@.take(i as int + 1);
        assert(post.drop_last() =~= pre);
        let b = s[i];
        if is_space_byte(b) {
            if cur.len() > 0 {
                let done = cur;
                words.push(done);
                cur = Vec::new();
            }
        } else {
            if cur.len() > 0 {
                assert(post[post.len() - 2] == s@[i - 1]);
            }
            cur.push(b);
            assert(cur@ =~= words_spec(post).last());
        }
        i += 1;
    }
    assert(s@.take(s.len() as int) =~= s@);
    if cur.len() > 0 {
        words.push(cur);
    }
    words
}

/// Index of the first occurrence of `d` in `s`, or -1.
pub open spec fn first_index(s: Seq<u8>, d: u8) -> int
    decreases s.len(),
{
    if s.len() == 0 {
        -1
    } else {
        let p = first_index(s.drop_last(), d);
        if p >= 0 {
            p
        } else if s.last() == d {
            s.len() - 1
        } else {
            -1
        }
    }
}

pub proof fn lemma_first_index_bounds(s: Seq<u8>, d: u8)
    ensures
        -1 <= first_index(s, d) < s.len(),
        first_index(s, d) >= 0 ==> s[first_index(s, d)] == d,
        forall|j: int| 0 <= j < s.len() && (first_index(s, d) < 0 || j < first_index(s, d)) ==> s[j] != d,
    decreases s.len(),
{
    if s.len() > 0 {
        lemma_first_index_bounds(s.drop_last(), d);
        assert forall|j: int|
            0 <= j < s.len() && (first_index(s, d) < 0 || j < first_index(s, d)) implies s[j] != d by {
            if j < s.len() - 1 {
                assert(s.drop_last()[j] == s[j]);
            }
        }
    }
}

/// `str::split_once` with a single byte: the text before and after the first
/// occurrence of `d`.
pub open spec fn split_once_spec(s: Seq<u8>, d: u8) -> Option<(Seq<u8>, Seq<u8>)> {
    let i = first_index(s, d);
    if i < 0 {
        None
    } else {
        Some((s.take(i), s.skip(i + 1)))
    }
}

pub fn split_once(s: &[u8], d: u8) -> (r: Option<(Vec<u8>, Vec<u8>)>)
    ensures
        match r {
            None => split_once_spec(s@, d) is None,
            Some((a, b)) => split_once_spec(s@, d) == Some((a@, b@)),
        },
{
    proof {
        lemma_first_index_bounds(s@, d);
    }
    let mut i: usize = 0;
    while i < s.len()
        invariant
            i <= s.len(),
            forall|j: int| 0 <= j < i ==> s@[j] != d,
            -1 <= first_index(s@, d) < s@.len(),
            first_index(s@, d) >= 0 ==> s@[first_index(s@, d)] == d,
            forall|j: int| 0 <= j < s@.len() && (first_index(s@, d) < 0 || j < first_index(s@, d)) ==> s@[j] != d,
        decreases s.len() - i,
    {
        if s[i] == d {
            assert(first_index(s@, d) == i);
            let left = slice_to_vec(s, 0, i);
            let right = slice_to_vec(s, i + 1, s.len());
            assert(left@ =~= s@.take(i as int));
            assert(right@ =~= s@.skip(i as int + 1));
            return Some((left, right));
        }
        i += 1;
    }
    assert(first_index(s@, d) < 0);
    None
}

/// Copies `s[start..end]` into a new vector.
pub fn slice_to_vec(s: &[u8], start: usize, end: usize) -> (r: Vec<u8>)
    requires
        start <= end <= s@.len(),
    ensures
        r@ == s@.subrange(start as int, end as int),
{
    let mut out: Vec<u8> = Vec::new();
    let mut i = start;
    while i < end
        invariant
            start <= i <= end <= s@.len(),
            out@ == s@.subrange(start as int, i as int),
        decreases end - i,
    {
        out.push(s[i]);
        i += 1;
        assert(out@ =~= s@.subrange(start as int, i as int));
    }
    out
}

/// `str::trim` for ASCII white space.
pub open spec fn trim_spec(s: Seq<u8>) -> Seq<u8>
    decreases s.len(),
{
    if s.len() == 0 {
        s
    } else if is_space(s[0]) {
        trim_spec(s.drop_first())
    } else if is_space(s.last()) {
        trim_spec(s.drop_last())
    } else {
        s
    }
}

pub fn trim(s: &[u8]) -> (r: Vec<u8>)
    ensures
        r@ == trim_spec(s@),
{
    let mut start: usize = 0;
    let mut end: usize = s.len();
    assert(s@.subrange(0, s@.len() as int) =~= s@);
    while start < end && is_space_byte(s[start])
        invariant
            start <= end == s@.len(),
            trim_spec(s@) == trim_spec(s@.subrange(start as int, end as int)),
        decreases end - start,
    {
        assert(s@.subrange(start as int, end as int).drop_first() =~= s@.subrange(
            start as int + 1,
            end as int,
        ));
        start += 1;
    }
    while start < end && is_space_byte(s[end - 1])
        invariant
            start <= end <= s@.len(),
            start < end ==> !is_space(s@[start as int]),
            trim_spec(s@) == trim_spec(s@.subrange(start as int, end as int)),
        decreases end - start,
    {
        let ghost sub = s@.subrange(start as int, end as int);
        assert(sub.drop_last() =~= s@.subrange(start as int, end as int - 1));
        assert(sub[0] == s@[start as int]);
        end -= 1;
    }
    let ghost sub = s@.subrange(start as int, end as int);
    if start < end {
        assert(sub[0] == s@[start as int]);
        assert(sub.last() == s@[end - 1]);
    }
    slice_to_vec(s, start, end)
}

// ---------------------------------------------------------------------------
// Decimal numbers
// ---------------------------------------------------------------------------

/// Value of a run of decimal digits.
pub open spec fn digits_value(s: Seq<u8>) -> nat
    decreases s.len(),
{
    if s.len() == 0 {
        0
    } else {
        digits_value(s.drop_last()) * 10 + (s.last() - 48u8) as nat
    }
}

pub open spec fn all_digits(s: Seq<u8>) -> bool {
    forall|i: int| 0 <= i < s.len() ==> is_digit(#[trigger] s[i])
}

/// The number that the standard library's unsigned `from_str` reads from
/// `s` when it has no upper limit: an optional `+`, then one or more
/// decimal digits and nothing else.
pub open spec fn unsigned_spec(s: Seq<u8>) -> Option<nat> {
    let d = if s.len() > 0 && s[0] == 43u8 {
        s.drop_first()
    } else {
        s
    };
    if d.len() > 0 && all_digits(d) {
        Some(digits_value(d))
    } else {
        None
    }
}

/// The value of `s` read as an unsigned number no greater than `max`, as
/// `u8::from_str`, `u16::from_str`, `usize::from_str` and `u64::from_str`
/// read it.
pub open spec fn parse_bounded_spec(s: Seq<u8>, max: nat) -> Option<nat> {
    match unsigned_spec(s) {
        Some(v) => if v <= max {
            Some(v)
        } else {
            None
        },
        None => None,
    }
}

proof fn lemma_digits_value_monotone(s: Seq<u8>, i: int)
    requires
        0 <= i <= s.len(),
        all_digits(s),
    ensures
        digits_value(s.take(i)) <= digits_value(s),
    decreases s.len() - i,
{
    if i < s.len() {
        lemma_digits_value_monotone(s, i + 1);
        assert(s.take(i + 1).drop_last() =~= s.take(i));
    } else {
        assert(s.take(i) =~= s);
    }
}

/// Reads an unsigned decimal number of at most `max`.
pub fn parse_bounded(s: &[u8], max: u64) -> (r: Option<u64>)
    ensures
        match r {
            Some(v) => parse_bounded_spec(s@, max as nat) == Some(v as nat),
            None => parse_bounded_spec(s@, max as nat) is None,
        },
{
    let start: usize = if s.len() > 0 && s[0] == 43u8 {
        1
    } else {
        0
    };
    let ghost d = if s@.len() > 0 && s@[0] == 43u8 {
        s@.drop_first()
    } else {
        s@
    };
    assert(d =~= s@.skip(start as int));
    if start >= s.len() {
        return None;
    }
    let mut acc: u64 = 0;
    let mut i = start;
    while i < s.len()
        invariant
            start <= i <= s@.len(),
            d == s@.skip(start as int),
            d == (if s@.len() > 0 && s@[0] == 43u8 {
                s@.drop_first()
            } else {
                s@
            }),
            start < s@.len(),
            forall|j: int| start <= j < i ==> is_digit(#[trigger] s@[j]),
            acc as nat == digits_value(d.take(i - start)),
            acc <= max,
        decreases s.len() - i,
    {
        let b = s[i];
        if b < 48u8 || b > 57u8 {
            assert(d[i - start] == s@[i as int]);
            assert(!all_digits(d));
            assert(unsigned_spec(s@) is None);
            return None;
        }
        let digit = (b - 48u8) as u64;
        assert(d.take(i - start + 1).drop_last() =~= d.take(i - start));
        if digit > max || acc > (max - digit) / 10 {
            proof {
                assert(acc * 10 + digit > max) by (nonlinear_arith)
                    requires digit > max || acc > (max - digit) / 10, digit <= 9;
                if all_digits(d) {
                    lemma_digits_value_monotone(d, i - start + 1);
                    assert(digits_value(d.take(i - start + 1)) == acc * 10 + digit);
                    assert(unsigned_spec(s@) == Some(digits_value(d)));
                }
            }
            return None;
        }
        assert(acc * 10 + digit <= max) by (nonlinear_arith)
            requires acc <= (max - digit) / 10, digit <= max;
        acc = acc * 10 + digit;
        i += 1;
    }
    assert(d.take(i - start) =~= d);
    assert(all_digits(d));
    Some(acc)
}

// ---------------------------------------------------------------------------
// Building text
// ---------------------------------------------------------------------------

pub open spec fn digit_char(d: nat) -> char {
    if d == 0 {
        '0'
    } else if d == 1 {
        '1'
    } else if d == 2 {
        '2'
    } else if d == 3 {
        '3'
    } else if d == 4 {
        '4'
    } else if d == 5 {
        '5'
    } else if d == 6 {
        '6'
    } else if d == 7 {
        '7'
    } else if d == 8 {
        '8'
    } else {
        '9'
    }
}

/// The decimal spelling of `n`, without leading zeros.
pub open spec fn decimal_chars(n: nat) -> Seq<char>
    decreases n,
{
    if n < 10 {
        seq![digit_char(n)]
    } else {
        decimal_chars(n / 10).push(digit_char(n % 10))
    }
}

fn digit_str(d: u64) -> (r: &'static str)
    requires
        d < 10,
    ensures
        r@ == seq![digit_char(d as nat)],
{
    proof {
        reveal_strlit("0");
        reveal_strlit("1");
        reveal_strlit("2");
        reveal_strlit("3");
        reveal_strlit("4");
        reveal_strlit("5");
        reveal_strlit("6");
        reveal_strlit("7");
        reveal_strlit("8");
        reveal_strlit("9");
    }
    if d == 0 {
        "0"
    } else if d == 1 {
        "1"
    } else if d == 2 {
        "2"
    } else if d == 3 {
        "3"
    } else if d == 4 {
        "4"
    } else if d == 5 {
        "5"
    } else if d == 6 {
        "6"
    } else if d == 7 {
        "7"
    } else if d == 8 {
        "8"
    } else {
        "9"
    }
}

/// Appends the decimal spelling of `n` to `out`.
pub fn push_decimal(out: &mut String, n: u64)
    ensures
        final(out)@ == old(out)@ + decimal_chars(n as nat),
    decreases n,
{
    if n < 10 {
        out.append(digit_str(n));
    } else {
        push_decimal(out, n / 10);
        out.append(digit_str(n % 10));
    }
}

/// Appends the literal `s` to `out`.
pub fn push_str(out: &mut String, s: &str)
    ensures
        final(out)@ == old(out)@ + s@,
{
    out.append(s);
}

// ---------------------------------------------------------------------------
// Reading back written text
// ---------------------------------------------------------------------------

/// The bytes of ASCII characters, one byte per character.
pub open spec fn ascii_bytes(t: Seq<char>) -> Seq<u8> {
    Seq::new(t.len(), |i: int| t[i] as u8)
}

/// Whether no byte of `s` is white space.
pub open spec fn spaceless(s: Seq<u8>) -> bool {
    forall|i: int| 0 <= i < s.len() ==> !is_space(#[trigger] s[i])
}

/// Whether the byte `d` does not occur in `s`.
pub open spec fn lacks(s: Seq<u8>, d: u8) -> bool {
    forall|i: int| 0 <= i < s.len() ==> #[trigger] s[i] != d
}

pub proof fn lemma_ascii_concat(a: Seq<char>, b: Seq<char>)
    ensures
        ascii_bytes(a + b) == ascii_bytes(a) + ascii_bytes(b),
        is_ascii_chars(a) && is_ascii_chars(b) ==> is_ascii_chars(a + b),
{
    assert(ascii_bytes(a + b) =~= ascii_bytes(a) + ascii_bytes(b));
    if is_ascii_chars(a) && is_ascii_chars(b) {
        assert forall|i: int| 0 <= i < (a + b).len() implies '\0' <= #[trigger] (a + b)[i] <= '\u{7f}' by {
            if i < a.len() {
                assert((a + b)[i] == a[i]);
            } else {
                assert((a + b)[i] == b[i - a.len()]);
            }
        }
    }
}

/// The UTF-8 encoding of ASCII text is its bytes.
pub proof fn lemma_encode_ascii(t: Seq<char>)
    requires
        is_ascii_chars(t),
    ensures
        encode_utf8(t) == ascii_bytes(t),
{
    is_ascii_chars_encode_utf8(t);
    assert(encode_utf8(t) =~= ascii_bytes(t));
}

/// The bytes of an ASCII literal.
pub proof fn lemma_literal_bytes(lit: &str)
    requires
        is_ascii_chars(lit@),
    ensures
        lit.spec_bytes() == ascii_bytes(lit@),
{
    lemma_encode_ascii(lit@);
}

/// A word without white space stands alone among the words of a text that
/// ends in white space (or is empty) before it.
pub proof fn lemma_words_append(p: Seq<u8>, w: Seq<u8>)
    requires
        w.len() > 0,
        spaceless(w),
        p.len() == 0 || is_space(p.last()),
    ensures
        words_spec(p + w) == words_spec(p).push(w),
    decreases w.len(),
{
    let s = p + w;
    if w.len() == 1 {
        assert(s.drop_last() =~= p);
        assert(s.last() == w[0]);
        if s.len() >= 2 {
            assert(s[s.len() - 2] == p.last());
        }
        assert(seq![s.last()] =~= w);
    } else {
        let w1 = w.drop_last();
        assert(spaceless(w1));
        lemma_words_append(p, w1);
        assert(s.drop_last() =~= p + w1);
        assert(s[s.len() - 2] == w1.last());
        assert(w1.push(w.last()) =~= w);
        assert(words_spec(s) =~= words_spec(p).push(w));
    }
}

pub proof fn lemma_spaceless_concat(a: Seq<u8>, b: Seq<u8>)
    requires
        spaceless(a),
        spaceless(b),
    ensures
        spaceless(a + b),
{
    assert forall|i: int| 0 <= i < (a + b).len() implies !is_space(#[trigger] (a + b)[i]) by {
        if i < a.len() {
            assert((a + b)[i] == a[i]);
        } else {
            assert((a + b)[i] == b[i - a.len()]);
        }
    }
}

/// White space at the end adds no word.
pub proof fn lemma_words_space(p: Seq<u8>)
    ensures
        words_spec(p.push(32u8)) == words_spec(p),
{
    assert(p.push(32u8).drop_last() =~= p);
}

/// The pieces of `p`, a delimiter and a piece without it.
pub proof fn lemma_split_append(p: Seq<u8>, d: u8, w: Seq<u8>)
    requires
        lacks(w, d),
    ensures
        split_spec(p.push(d) + w, d) == split_spec(p, d).push(w),
    decreases w.len(),
{
    let s = p.push(d) + w;
    if w.len() == 0 {
        assert(s =~= p.push(d));
        assert(s.drop_last() =~= p);
        assert(w =~= Seq::<u8>::empty());
    } else {
        let w1 = w.drop_last();
        assert(lacks(w1, d));
        assert(s.last() == w.last());
        assert(w.last() != d);
        lemma_split_append(p, d, w1);
        assert(s.drop_last() =~= p.push(d) + w1);
        assert(w1.push(w.last()) =~= w);
        assert(split_spec(s, d) =~= split_spec(p, d).push(w));
    }
}

/// Text without the delimiter is one piece.
pub proof fn lemma_split_single(w: Seq<u8>, d: u8)
    requires
        lacks(w, d),
    ensures
        split_spec(w, d) == seq![w],
    decreases w.len(),
{
    if w.len() == 0 {
        assert(w =~= Seq::<u8>::empty());
    } else {
        let w1 = w.drop_last();
        assert(lacks(w1, d));
        assert(w.last() != d);
        lemma_split_single(w1, d);
        assert(w1.push(w.last()) =~= w);
        assert(split_spec(w, d) =~= seq![w]);
    }
}

proof fn lemma_first_index_absent(k: Seq<u8>, d: u8)
    requires
        lacks(k, d),
    ensures
        first_index(k, d) == -1,
    decreases k.len(),
{
    if k.len() > 0 {
        assert(lacks(k.drop_last(), d));
        lemma_first_index_absent(k.drop_last(), d);
    }
}

/// Splitting at the first delimiter of `k`, the delimiter, `v`.
pub proof fn lemma_split_once_at(k: Seq<u8>, d: u8, v: Seq<u8>)
    requires
        lacks(k, d),
    ensures
        split_once_spec(k.push(d) + v, d) == Some((k, v)),
{
    let s = k.push(d) + v;
    lemma_first_index_at(k, d, v);
    assert(s.take(k.len() as int) =~= k);
    assert(s.skip(k.len() as int + 1) =~= v);
}

proof fn lemma_first_index_at(k: Seq<u8>, d: u8, v: Seq<u8>)
    requires
        lacks(k, d),
    ensures
        first_index(k.push(d) + v, d) == k.len(),
    decreases v.len(),
{
    let s = k.push(d) + v;
    if v.len() == 0 {
        assert(s =~= k.push(d));
        assert(s.drop_last() =~= k);
        lemma_first_index_absent(k, d);
    } else {
        lemma_first_index_at(k, d, v.drop_last());
        assert(s.drop_last() =~= k.push(d) + v.drop_last());
    }
}

/// Text that neither starts nor ends with white space is its own trim.
pub proof fn lemma_trim_unchanged(s: Seq<u8>)
    requires
        s.len() > 0,
        !is_space(s[0]),
        !is_space(s.last()),
    ensures
        trim_spec(s) == s,
{
}

/// Whether every byte of `s` is a lower-case ASCII letter or a digit.
pub open spec fn lower_alnum(s: Seq<u8>) -> bool {
    forall|i: int| 0 <= i < s.len() ==> (97 <= #[trigger] s[i] <= 122) || (48 <= s[i] <= 57)
}

/// Lower-case letters and digits are kept as they are.
pub proof fn lemma_normalize_plain(s: Seq<u8>)
    requires
        lower_alnum(s),
    ensures
        normalize_spec(s) == s,
    decreases s.len(),
{
    if s.len() > 0 {
        let s1 = s.drop_last();
        assert(lower_alnum(s1));
        lemma_normalize_plain(s1);
        assert(s1.push(s.last()) =~= s);
    }
}

/// Normalising text piece by piece.
pub proof fn lemma_normalize_concat(a: Seq<u8>, b: Seq<u8>)
    ensures
        normalize_spec(a + b) == normalize_spec(a) + normalize_spec(b),
    decreases b.len(),
{
    if b.len() == 0 {
        assert(a + b =~= a);
        assert(normalize_spec(a) + normalize_spec(b) =~= normalize_spec(a));
    } else {
        let b1 = b.drop_last();
        lemma_normalize_concat(a, b1);
        assert((a + b).drop_last() =~= a + b1);
        assert((a + b).last() == b.last());
        if is_ascii_alnum(b.last()) {
            assert(normalize_spec(a + b) =~= normalize_spec(a) + normalize_spec(b));
        }
    }
}

/// A hyphen between two plain words is dropped.
pub proof fn lemma_normalize_hyphen(a: Seq<u8>, b: Seq<u8>)
    requires
        lower_alnum(a),
        lower_alnum(b),
    ensures
        normalize_spec(a.push(45u8) + b) == a + b,
{
    lemma_normalize_plain(a);
    lemma_normalize_plain(b);
    lemma_normalize_concat(a.push(45u8), b);
    assert(a.push(45u8).drop_last() =~= a);
}

/// The decimal spelling of a number is ASCII digits that read back as it.
pub proof fn lemma_decimal_reads(n: nat)
    ensures
        is_ascii_chars(decimal_chars(n)),
        ascii_bytes(decimal_chars(n)).len() > 0,
        all_digits(ascii_bytes(decimal_chars(n))),
        unsigned_spec(ascii_bytes(decimal_chars(n))) == Some(n),
        n < 10 ==> ascii_bytes(decimal_chars(n)) == seq![(48 + n) as u8],
    decreases n,
{
    let t = decimal_chars(n);
    let b = ascii_bytes(t);
    if n < 10 {
        assert(digit_char(n) as u8 == 48 + n);
        assert(b =~= seq![(48 + n) as u8]);
        assert(b.drop_last() =~= Seq::<u8>::empty());
        assert(digits_value(b.drop_last()) == 0);
        assert(b.last() == 48 + n);
        assert(digits_value(b) == n);
    } else {
        lemma_decimal_reads(n / 10);
        let t1 = decimal_chars(n / 10);
        let b1 = ascii_bytes(t1);
        let m = n % 10;
        assert(digit_char(m) as u8 == 48 + m);
        assert(b =~= b1.push((48 + m) as u8));
        assert(b.drop_last() =~= b1);
        assert forall|i: int| 0 <= i < t.len() implies '\0' <= #[trigger] t[i] <= '\u{7f}' by {
            if i < t1.len() {
                assert(t[i] == t1[i]);
            }
        }
        assert forall|i: int| 0 <= i < b.len() implies is_digit(#[trigger] b[i]) by {
            if i < b1.len() {
                assert(b[i] == b1[i]);
            }
        }
        assert(b[0] == b1[0]);
        assert(is_digit(b1[0]));
        assert(digits_value(b1) == n / 10);
        assert(digits_value(b) == digits_value(b1) * 10 + m);
        assert(digits_value(b) == n);
    }
    assert(b[0] != 43u8);
    assert(all_digits(b));
}

/// The decimal spelling of a number no greater than `max` reads back as it.
pub proof fn lemma_decimal_bounded(n: nat, max: nat)
    requires
        n <= max,
    ensures
        parse_bounded_spec(ascii_bytes(decimal_chars(n)), max) == Some(n),
{
    lemma_decimal_reads(n);
}

/// The decimal spelling of a number has no white space and none of the
/// separators `,`, `:` and `=`.
pub proof fn lemma_decimal_plain(n: nat)
    ensures
        spaceless(ascii_bytes(decimal_chars(n))),
        lacks(ascii_bytes(decimal_chars(n)), 44),
        lacks(ascii_bytes(decimal_chars(n)), 58),
        lacks(ascii_bytes(decimal_chars(n)), 61),
{
    lemma_decimal_reads(n);
    let b = ascii_bytes(decimal_chars(n));
    assert forall|i: int| 0 <= i < b.len() implies !is_space(#[trigger] b[i]) && b[i] != 44 && b[i] != 58 && b[i] != 61 by {
        assert(is_digit(b[i]));
    }
}

/// The text `prefix`, then the bytes `detail` read as text, then `suffix`.
pub fn message(prefix: &str, detail: &[u8], suffix: &str) -> (r: String)
    ensures
        r@ == prefix@ + lossy_text(detail@) + suffix@,
{
    let mut msg = String::new();
    push_str(&mut msg, prefix);
    let shown = text_from_bytes(detail);
    push_str(&mut msg, shown.as_str());
    push_str(&mut msg, suffix);
    msg
}

/// What `String::from_utf8_lossy` makes of the bytes `b`.
pub uninterp spec fn lossy_text(b: Seq<u8>) -> Seq<char>;

/// Text made from the bytes `b`: their characters where they are valid UTF-8.
///
/// Calls `String::from_utf8_lossy`.  Its result depends on the bytes alone,
/// and the standard library documents it as the same text for valid UTF-8
/// input.  What it makes of invalid input (replacement characters) is left
/// unstated beyond being `lossy_text` of the bytes.
#[verifier::external_body]
pub fn text_from_bytes(b: &[u8]) -> (r: String)
    ensures
        r@ == lossy_text(b@),
        valid_utf8(b@) ==> r@ == decode_utf8(b@),
{
    String::from_utf8_lossy(b).into_owned()
}

} // verus!
