//! The byte layout of a saved exact table.
//!
//! A table is a header (the format's magic bytes, its version, the ruleset,
//! the category order and the number of values), an FNV-1a checksum of the
//! header followed by the value bytes, and then eight bytes per value.  The
//! values themselves are floating point; this module frames and checks
//! their bytes and leaves their meaning to the caller.
use crate::anchor::ANCHOR_VALUE_COUNT;
use crate::category::Ruleset;
use crate::text::{decimal_chars, push_decimal, push_str};
use crate::KeiriError;
use vstd::bytes::{
    lemma_auto_spec_u32_to_from_le_bytes, lemma_auto_spec_u64_to_from_le_bytes, spec_u32_from_le_bytes,
    spec_u32_to_le_bytes, spec_u64_from_le_bytes, spec_u64_to_le_bytes, u32_from_le_bytes, u32_to_le_bytes,
    u64_from_le_bytes, u64_to_le_bytes,
};
use vstd::slice::{slice_subrange, slice_to_vec};
use vstd::arithmetic::div_mod::{lemma_mod_multiples_vanish, lemma_mul_mod_noop_left, lemma_small_mod};
use vstd::prelude::*;

verus! {

/// Version of the layout written and accepted.
pub const ANCHOR_TABLE_VERSION: u32 = 2;

/// Length of the header: magic, version, ruleset, category order, count.
pub const TABLE_HEADER_LEN: usize = 34;

/// Length of the header and the checksum that follows it.
pub const TABLE_PREFIX_LEN: usize = 42;

/// Offset basis of 64-bit FNV-1a.
pub const FNV_OFFSET: u64 = 0xcbf29ce484222325;

/// Prime of 64-bit FNV-1a.
pub const FNV_PRIME: u64 = 0x100000001b3;

/// The magic bytes `KEIRIAT1` that open a table.
pub open spec fn table_magic() -> Seq<u8> {
    seq![75u8, 69u8, 73u8, 82u8, 73u8, 65u8, 84u8, 49u8]
}

/// The byte that names a ruleset in a table.
pub open spec fn ruleset_num(r: Ruleset) -> u8 {
    match r {
        Ruleset::HasbroStrict => 1,
        Ruleset::BuddyBoardGames => 2,
    }
}

/// The category order of the header: the index of each category in turn.
pub open spec fn category_order() -> Seq<u8> {
    Seq::new(13, |i: int| i as u8)
}

/// One step of FNV-1a.
pub open spec fn fnv_step(h: u64, b: u8) -> u64 {
    (h ^ (b as u64)).wrapping_mul(FNV_PRIME)
}

/// FNV-1a of `s` continued from the hash `h`.
pub open spec fn fnv_from(h: u64, s: Seq<u8>) -> u64
    decreases s.len(),
{
    if s.len() == 0 {
        h
    } else {
        fnv_step(fnv_from(h, s.drop_last()), s.last())
    }
}

/// The 64-bit FNV-1a hash of `s`.
pub open spec fn fnv1a(s: Seq<u8>) -> u64 {
    fnv_from(FNV_OFFSET, s)
}

/// The header of a table of `count` values for ruleset `r`.
pub open spec fn table_header(r: Ruleset, count: u64) -> Seq<u8> {
    table_magic() + spec_u32_to_le_bytes(ANCHOR_TABLE_VERSION) + seq![ruleset_num(r)] + category_order()
        + spec_u64_to_le_bytes(count)
}

/// The bytes of a table for ruleset `r` whose values are encoded in `values`.
pub open spec fn table_image(r: Ruleset, values: Seq<u8>) -> Seq<u8> {
    let header = table_header(r, (values.len() / 8) as u64);
    header + spec_u64_to_le_bytes(fnv1a(header + values)) + values
}

/// Whether `b` is a table that loads: long enough, with the magic bytes,
/// the version, a known ruleset, the category order, the full number of
/// values, the matching length and the matching checksum.
pub open spec fn table_ok(b: Seq<u8>) -> bool {
    &&& b.len() >= TABLE_PREFIX_LEN
    &&& b.subrange(0, 8) == table_magic()
    &&& spec_u32_from_le_bytes(b.subrange(8, 12)) == ANCHOR_TABLE_VERSION
    &&& (b[12] == 1 || b[12] == 2)
    &&& forall|i: int| 0 <= i < 13 ==> #[trigger] b[13 + i] == i
    &&& spec_u64_from_le_bytes(b.subrange(26, 34)) == ANCHOR_VALUE_COUNT
    &&& b.len() == TABLE_PREFIX_LEN + 8 * ANCHOR_VALUE_COUNT
    &&& spec_u64_from_le_bytes(b.subrange(34, 42)) == fnv1a(
        b.subrange(0, TABLE_HEADER_LEN as int) + b.subrange(TABLE_PREFIX_LEN as int, b.len() as int),
    )
}

/// The byte that names `ruleset` in a table.
pub fn ruleset_byte(ruleset: Ruleset) -> (r: u8)
    ensures
        r == ruleset_num(ruleset),
{
    match ruleset {
        Ruleset::HasbroStrict => 1,
        Ruleset::BuddyBoardGames => 2,
    }
}

/// The ruleset a table byte names, if any.
pub fn ruleset_from_byte(value: u8) -> (r: Option<Ruleset>)
    ensures
        r is Some <==> (value == 1 || value == 2),
        r is Some ==> ruleset_num(r->0) == value,
{
    match value {
        1 => Some(Ruleset::HasbroStrict),
        2 => Some(Ruleset::BuddyBoardGames),
        _ => None,
    }
}

proof fn lemma_fnv_concat(h: u64, a: Seq<u8>, b: Seq<u8>)
    ensures
        fnv_from(h, a + b) == fnv_from(fnv_from(h, a), b),
    decreases b.len(),
{
    if b.len() > 0 {
        assert((a + b).drop_last() == a + b.drop_last());
        lemma_fnv_concat(h, a, b.drop_last());
    } else {
        assert(a + b == a);
    }
}

/// FNV-1a of `bytes` continued from the hash `h`.
pub fn fnv_extend(h: u64, bytes: &[u8]) -> (r: u64)
    ensures
        r == fnv_from(h, bytes@),
{
    let mut hash = h;
    let mut i: usize = 0;
    while i < bytes.len()
        invariant
            i <= bytes@.len(),
            hash == fnv_from(h, bytes@.take(i as int)),
        decreases bytes@.len() - i,
    {
        assert(bytes@.take(i as int + 1).drop_last() == bytes@.take(i as int));
        hash = (hash ^ (bytes[i] as u64)).wrapping_mul(FNV_PRIME);
        i += 1;
    }
    assert(bytes@.take(bytes@.len() as int) == bytes@);
    hash
}

/// The 64-bit FNV-1a hash of `head` followed by `tail`.
pub fn checksum64(head: &[u8], tail: &[u8]) -> (r: u64)
    ensures
        r == fnv1a(head@ + tail@),
{
    let h = fnv_extend(FNV_OFFSET, head);
    proof {
        lemma_fnv_concat(FNV_OFFSET, head@, tail@);
    }
    fnv_extend(h, tail)
}

/// The four bytes at `*offset`, read as a little-endian number, after which
/// `*offset` moves past them; an error, and `*offset` unchanged, where the
/// bytes end first.
pub fn read_u32(bytes: &[u8], offset: &mut usize) -> (r: Result<u32, KeiriError>)
    requires
        *old(offset) <= usize::MAX - 4,
    ensures
        r is Ok <==> *old(offset) + 4 <= bytes@.len(),
        r is Ok ==> r->Ok_0 == spec_u32_from_le_bytes(bytes@.subrange(*old(offset) as int, *old(offset) + 4))
            && *final(offset) == *old(offset) + 4,
        r is Err ==> r->Err_0 is InvalidAnchorTable && r->Err_0->InvalidAnchorTable_0@
            == "anchor table ended while reading u32"@ && *final(offset) == *old(offset),
{
    let start = *offset;
    let end = start + 4;
    if end > bytes.len() {
        return Err(KeiriError::InvalidAnchorTable(String::from_str("anchor table ended while reading u32")));
    }
    *offset = end;
    Ok(u32_from_le_bytes(slice_subrange(bytes, start, end)))
}

/// The eight bytes at `*offset`, read as a little-endian number, after
/// which `*offset` moves past them; an error, and `*offset` unchanged, where
/// the bytes end first.
pub fn read_u64(bytes: &[u8], offset: &mut usize) -> (r: Result<u64, KeiriError>)
    requires
        *old(offset) <= usize::MAX - 8,
    ensures
        r is Ok <==> *old(offset) + 8 <= bytes@.len(),
        r is Ok ==> r->Ok_0 == spec_u64_from_le_bytes(bytes@.subrange(*old(offset) as int, *old(offset) + 8))
            && *final(offset) == *old(offset) + 8,
        r is Err ==> r->Err_0 is InvalidAnchorTable && r->Err_0->InvalidAnchorTable_0@
            == "anchor table ended while reading u64"@ && *final(offset) == *old(offset),
{
    let start = *offset;
    let end = start + 8;
    if end > bytes.len() {
        return Err(KeiriError::InvalidAnchorTable(String::from_str("anchor table ended while reading u64")));
    }
    *offset = end;
    Ok(u64_from_le_bytes(slice_subrange(bytes, start, end)))
}

/// An `InvalidAnchorTable` error whose message is `prefix` and then `n`.
fn table_error(prefix: &str, n: u64) -> (r: KeiriError)
    ensures
        r is InvalidAnchorTable && r->InvalidAnchorTable_0@ == prefix@ + decimal_chars(n as nat),
{
    let mut msg = String::new();
    push_str(&mut msg, prefix);
    push_decimal(&mut msg, n);
    KeiriError::InvalidAnchorTable(msg)
}

/// An `InvalidAnchorTable` error whose message is `prefix`, `a`, `middle`
/// and `b`.
fn table_error_pair(prefix: &str, a: u64, middle: &str, b: u64) -> (r: KeiriError)
    ensures
        r is InvalidAnchorTable && r->InvalidAnchorTable_0@ == prefix@ + decimal_chars(a as nat) + middle@
            + decimal_chars(b as nat),
{
    let mut msg = String::new();
    push_str(&mut msg, prefix);
    push_decimal(&mut msg, a);
    push_str(&mut msg, middle);
    push_decimal(&mut msg, b);
    KeiriError::InvalidAnchorTable(msg)
}

/// The first position from `i` on where the category order of `b` breaks,
/// or 13.
pub open spec fn order_break(b: Seq<u8>, i: int) -> int
    decreases 13 - i,
{
    if i >= 13 {
        13
    } else if b[13 + i] != i {
        i
    } else {
        order_break(b, i + 1)
    }
}

/// The message of the first check that `b` fails as a table, if any: its
/// length, the magic bytes, the version, the ruleset, the category order,
/// the number of values, the total length and the checksum, in that order.
pub open spec fn table_fault(b: Seq<u8>) -> Option<Seq<char>> {
    if b.len() < TABLE_PREFIX_LEN {
        Some("anchor table is too short"@)
    } else if b.subrange(0, 8) != table_magic() {
        Some("anchor table has an unknown magic header"@)
    } else if spec_u32_from_le_bytes(b.subrange(8, 12)) != ANCHOR_TABLE_VERSION {
        Some(
            "unsupported anchor table version "@ + decimal_chars(spec_u32_from_le_bytes(b.subrange(8, 12)) as nat),
        )
    } else if !(b[12] == 1 || b[12] == 2) {
        Some("unknown ruleset id "@ + decimal_chars(b[12] as nat))
    } else if order_break(b, 0) < 13 {
        Some(
            "category order mismatch at "@ + decimal_chars(order_break(b, 0) as nat) + "; expected "@
                + decimal_chars(order_break(b, 0) as nat) + ", found "@ + decimal_chars(
                b[13 + order_break(b, 0)] as nat,
            ),
        )
    } else if spec_u64_from_le_bytes(b.subrange(26, 34)) != ANCHOR_VALUE_COUNT {
        Some(
            "anchor table value count mismatch; expected "@ + decimal_chars(ANCHOR_VALUE_COUNT as nat)
                + ", found "@ + decimal_chars(spec_u64_from_le_bytes(b.subrange(26, 34)) as nat),
        )
    } else if b.len() != TABLE_PREFIX_LEN + 8 * ANCHOR_VALUE_COUNT {
        Some(
            "anchor table length mismatch; expected "@ + decimal_chars(
                (TABLE_PREFIX_LEN + 8 * ANCHOR_VALUE_COUNT) as nat,
            ) + ", found "@ + decimal_chars(b.len()),
        )
    } else if spec_u64_from_le_bytes(b.subrange(34, 42)) != fnv1a(
        b.subrange(0, TABLE_HEADER_LEN as int) + b.subrange(TABLE_PREFIX_LEN as int, b.len() as int),
    ) {
        Some("anchor table checksum mismatch"@)
    } else {
        None
    }
}

proof fn lemma_order_break(b: Seq<u8>, i: int)
    requires
        0 <= i <= 13,
        b.len() >= 26,
    ensures
        i <= order_break(b, i) <= 13,
        order_break(b, i) < 13 ==> b[13 + order_break(b, i)] != order_break(b, i),
        forall|j: int| i <= j < order_break(b, i) ==> #[trigger] b[13 + j] == j,
    decreases 13 - i,
{
    if i < 13 && b[13 + i] == i {
        lemma_order_break(b, i + 1);
    }
}

/// The bytes of a table for `ruleset` whose values are encoded, eight bytes
/// each, in `values`.
pub fn encode_anchor_table(ruleset: Ruleset, values: &[u8]) -> (r: Vec<u8>)
    requires
        values@.len() % 8 == 0,
    ensures
        r@ == table_image(ruleset, values@),
{
    let mut header: Vec<u8> = vec![75u8, 69u8, 73u8, 82u8, 73u8, 65u8, 84u8, 49u8];
    let mut version = u32_to_le_bytes(ANCHOR_TABLE_VERSION);
    header.append(&mut version);
    header.push(ruleset_byte(ruleset));
    let mut i: u8 = 0;
    while i < 13
        invariant
            i <= 13,
            header@ == table_magic() + spec_u32_to_le_bytes(ANCHOR_TABLE_VERSION) + seq![ruleset_num(ruleset)]
                + category_order().take(i as int),
        decreases 13 - i,
    {
        assert(category_order().take(i as int + 1) == category_order().take(i as int).push(i));
        header.push(i);
        i += 1;
    }
    assert(category_order().take(13) == category_order());
    let count = (values.len() / 8) as u64;
    let mut count_bytes = u64_to_le_bytes(count);
    header.append(&mut count_bytes);
    assert(header@ == table_header(ruleset, (values@.len() / 8) as u64));
    let checksum = checksum64(header.as_slice(), values);
    let mut bytes = header;
    let mut checksum_bytes = u64_to_le_bytes(checksum);
    bytes.append(&mut checksum_bytes);
    let mut value_bytes = slice_to_vec(values);
    bytes.append(&mut value_bytes);
    bytes
}

/// The ruleset of a table and its value bytes, where `bytes` is a table that
/// loads; an `InvalidAnchorTable` error naming the first fault otherwise.
pub fn decode_anchor_table(bytes: &[u8]) -> (r: Result<(Ruleset, Vec<u8>), KeiriError>)
    ensures
        r is Ok <==> table_ok(bytes@),
        r is Ok ==> ruleset_num(r->Ok_0.0) == bytes@[12] && r->Ok_0.1@ == bytes@.subrange(
            TABLE_PREFIX_LEN as int,
            bytes@.len() as int,
        ),
        match table_fault(bytes@) {
            None => r is Ok,
            Some(m) => r is Err && r->Err_0 is InvalidAnchorTable && r->Err_0->InvalidAnchorTable_0@ == m,
        },
{
    if bytes.len() < TABLE_PREFIX_LEN {
        return Err(KeiriError::InvalidAnchorTable(String::from_str("anchor table is too short")));
    }
    let magic: Vec<u8> = vec![75u8, 69u8, 73u8, 82u8, 73u8, 65u8, 84u8, 49u8];
    let mut k: usize = 0;
    while k < 8
        invariant
            k <= 8,
            bytes@.len() >= TABLE_PREFIX_LEN,
            magic@ == table_magic(),
            forall|j: int| 0 <= j < k ==> bytes@[j] == #[trigger] table_magic()[j],
        decreases 8 - k,
    {
        if bytes[k] != magic[k] {
            return Err(
                KeiriError::InvalidAnchorTable(String::from_str("anchor table has an unknown magic header")),
            );
        }
        k += 1;
    }
    assert(bytes@.subrange(0, 8) == table_magic());
    let mut offset: usize = 8;
    let version = match read_u32(bytes, &mut offset) {
        Ok(v) => v,
        Err(e) => return Err(e),
    };
    if version != ANCHOR_TABLE_VERSION {
        return Err(table_error("unsupported anchor table version ", version as u64));
    }
    let ruleset = match ruleset_from_byte(bytes[offset]) {
        Some(r) => r,
        None => return Err(table_error("unknown ruleset id ", bytes[offset] as u64)),
    };
    offset += 1;
    proof {
        lemma_order_break(bytes@, 0);
    }
    let mut i: u8 = 0;
    while i < 13
        invariant
            i <= 13,
            offset == 13 + i,
            bytes@.len() >= TABLE_PREFIX_LEN,
            bytes@.subrange(0, 8) == table_magic(),
            spec_u32_from_le_bytes(bytes@.subrange(8, 12)) == ANCHOR_TABLE_VERSION,
            bytes@[12] == 1 || bytes@[12] == 2,
            forall|j: int| 0 <= j < i ==> #[trigger] bytes@[13 + j] == j,
        decreases 13 - i,
    {
        let actual = bytes[offset];
        if actual != i {
            proof {
                lemma_order_break(bytes@, 0);
                assert(order_break(bytes@, 0) == i);
            }
            let mut msg = String::new();
            push_str(&mut msg, "category order mismatch at ");
            push_decimal(&mut msg, i as u64);
            push_str(&mut msg, "; expected ");
            push_decimal(&mut msg, i as u64);
            push_str(&mut msg, ", found ");
            push_decimal(&mut msg, actual as u64);
            return Err(KeiriError::InvalidAnchorTable(msg));
        }
        offset += 1;
        i += 1;
    }
    proof {
        lemma_order_break(bytes@, 0);
        assert(order_break(bytes@, 0) == 13);
    }
    let value_count = match read_u64(bytes, &mut offset) {
        Ok(v) => v,
        Err(e) => return Err(e),
    };
    if value_count != ANCHOR_VALUE_COUNT as u64 {
        return Err(
            table_error_pair(
                "anchor table value count mismatch; expected ",
                ANCHOR_VALUE_COUNT as u64,
                ", found ",
                value_count,
            ),
        );
    }
    let stored_checksum = match read_u64(bytes, &mut offset) {
        Ok(v) => v,
        Err(e) => return Err(e),
    };
    if bytes.len() != TABLE_PREFIX_LEN + 8 * ANCHOR_VALUE_COUNT {
        return Err(
            table_error_pair(
                "anchor table length mismatch; expected ",
                (TABLE_PREFIX_LEN + 8 * ANCHOR_VALUE_COUNT) as u64,
                ", found ",
                bytes.len() as u64,
            ),
        );
    }
    let computed = checksum64(
        slice_subrange(bytes, 0, TABLE_HEADER_LEN),
        slice_subrange(bytes, TABLE_PREFIX_LEN, bytes.len()),
    );
    if stored_checksum != computed {
        return Err(KeiriError::InvalidAnchorTable(String::from_str("anchor table checksum mismatch")));
    }
    let values = slice_to_vec(slice_subrange(bytes, TABLE_PREFIX_LEN, bytes.len()));
    Ok((ruleset, values))
}

/// A table written for a ruleset with the full number of values loads, and
/// gives back that ruleset and those value bytes.
pub proof fn law_table_round_trip(r: Ruleset, values: Seq<u8>)
    requires
        values.len() == 8 * ANCHOR_VALUE_COUNT,
    ensures
        table_ok(table_image(r, values)),
        table_image(r, values)[12] == ruleset_num(r),
        table_image(r, values).subrange(TABLE_PREFIX_LEN as int, table_image(r, values).len() as int)
            == values,
{
    lemma_auto_spec_u32_to_from_le_bytes();
    lemma_auto_spec_u64_to_from_le_bytes();
    let count = (values.len() / 8) as u64;
    let header = table_header(r, count);
    let b = table_image(r, values);
    assert(count == ANCHOR_VALUE_COUNT);
    assert(header.len() == 34);
    assert(b.subrange(0, 8) == table_magic());
    assert(b.subrange(8, 12) == spec_u32_to_le_bytes(ANCHOR_TABLE_VERSION));
    assert(b.subrange(26, 34) == spec_u64_to_le_bytes(count));
    assert(b.subrange(0, 34) == header);
    assert(b.subrange(34, 42) == spec_u64_to_le_bytes(fnv1a(header + values)));
    assert(b.subrange(42, b.len() as int) == values);
    assert forall|i: int| 0 <= i < 13 implies #[trigger] b[13 + i] == i by {
        assert(b[13 + i] == header[13 + i]);
        assert(header[13 + i] == category_order()[i]);
    }
}

/// Inverse of the FNV prime modulo 2^64.
spec fn fnv_prime_inverse() -> int {
    0xce965057aff6957b
}

/// Multiplying by the FNV prime modulo 2^64 is undone by multiplying by its
/// inverse.
proof fn lemma_prime_mul_undone(x: u64)
    ensures
        ((x * FNV_PRIME) % 0x1_0000_0000_0000_0000int) * fnv_prime_inverse() % 0x1_0000_0000_0000_0000int
            == x,
{
    let m: int = 0x1_0000_0000_0000_0000int;
    let p: int = FNV_PRIME as int;
    let q: int = fnv_prime_inverse();
    let xi: int = x as int;
    lemma_mul_mod_noop_left(xi * p, q, m);
    assert(xi * p * q == m * (xi * 887285111055) + xi) by (nonlinear_arith)
        requires
            p == 0x100000001b3,
            q == 0xce965057aff6957b,
            m == 0x1_0000_0000_0000_0000int,
    ;
    lemma_mod_multiples_vanish(xi * 887285111055, xi, m);
    lemma_small_mod(x as nat, m as nat);
}

/// One FNV-1a step tells apart two hashes fed the same byte.
proof fn lemma_step_keeps_hashes_apart(x: u64, y: u64, b: u8)
    requires
        fnv_step(x, b) == fnv_step(y, b),
    ensures
        x == y,
{
    lemma_prime_mul_undone(x ^ (b as u64));
    lemma_prime_mul_undone(y ^ (b as u64));
    assert((x ^ (b as u64)) == (y ^ (b as u64)) ==> x == y) by (bit_vector);
}

/// One FNV-1a step from one hash tells apart two bytes.
proof fn lemma_step_keeps_bytes_apart(h: u64, a: u8, b: u8)
    requires
        fnv_step(h, a) == fnv_step(h, b),
    ensures
        a == b,
{
    lemma_prime_mul_undone(h ^ (a as u64));
    lemma_prime_mul_undone(h ^ (b as u64));
    assert((h ^ (a as u64)) == (h ^ (b as u64)) ==> a == b) by (bit_vector);
}

/// FNV-1a tells apart two texts of one length that differ in exactly one
/// byte.
proof fn lemma_fnv_one_change(h: u64, a: Seq<u8>, b: Seq<u8>, j: int)
    requires
        a.len() == b.len(),
        0 <= j < a.len(),
        a[j] != b[j],
        forall|i: int| 0 <= i < a.len() && i != j ==> a[i] == b[i],
    ensures
        fnv_from(h, a) != fnv_from(h, b),
    decreases a.len(),
{
    let a1 = a.drop_last();
    let b1 = b.drop_last();
    if j == a.len() - 1 {
        assert(a1 =~= b1);
        if fnv_from(h, a) == fnv_from(h, b) {
            lemma_step_keeps_bytes_apart(fnv_from(h, a1), a.last(), b.last());
        }
    } else {
        lemma_fnv_one_change(h, a1, b1, j);
        assert(a.last() == b.last());
        if fnv_from(h, a) == fnv_from(h, b) {
            lemma_step_keeps_hashes_apart(fnv_from(h, a1), fnv_from(h, b1), a.last());
        }
    }
}

/// A table that loads no longer loads once any one of its bytes is
/// changed: a change in the checksum leaves it unequal to the checksum of
/// the rest, and a change elsewhere changes that checksum.
pub proof fn law_table_detects_one_changed_byte(b: Seq<u8>, c: Seq<u8>, k: int)
    requires
        table_ok(b),
        c.len() == b.len(),
        0 <= k < b.len(),
        c[k] != b[k],
        forall|i: int| 0 <= i < b.len() && i != k ==> c[i] == b[i],
    ensures
        !table_ok(c),
{
    lemma_auto_spec_u64_to_from_le_bytes();
    let n = b.len() as int;
    let cb = b.subrange(0, 34) + b.subrange(42, n);
    let cc = c.subrange(0, 34) + c.subrange(42, n);
    let sb = b.subrange(34, 42);
    let sc = c.subrange(34, 42);
    if 34 <= k < 42 {
        assert(cb =~= cc);
        assert(sb[k - 34] != sc[k - 34]);
        if spec_u64_from_le_bytes(sb) == spec_u64_from_le_bytes(sc) {
            assert(spec_u64_to_le_bytes(spec_u64_from_le_bytes(sb)) == sb);
            assert(spec_u64_to_le_bytes(spec_u64_from_le_bytes(sc)) == sc);
        }
    } else {
        assert(sb =~= sc);
        let j = if k < 34 {
            k
        } else {
            k - 8
        };
        assert(cb[j] == b[k]);
        assert(cc[j] == c[k]);
        assert forall|i: int| 0 <= i < cb.len() && i != j implies cb[i] == cc[i] by {
            if i < 34 {
                assert(cb[i] == b[i] && cc[i] == c[i]);
            } else {
                assert(cb[i] == b[i + 8] && cc[i] == c[i + 8]);
            }
        }
        lemma_fnv_one_change(FNV_OFFSET, cb, cc, j);
    }
}

} // verus!
