//! The outcomes of rolling some dice at once: every sorted set of faces
//! with the number of ordered rolls that show it.
use crate::dice::{all_faces, face_count, sorted};
use vstd::prelude::*;

verus! {

/// `n!`.
pub open spec fn fact(n: nat) -> nat
    decreases n,
{
    if n == 0 {
        1
    } else {
        n * fact((n - 1) as nat)
    }
}

/// `c[1] + ... + c[k]` of a count array indexed by face.
pub open spec fn prefix_total(c: Seq<u8>, k: int) -> nat
    decreases k,
{
    if k <= 0 {
        0
    } else {
        prefix_total(c, k - 1) + c[k] as nat
    }
}

/// `c[k] + ... + c[6]` of a count array indexed by face.
pub open spec fn suffix_total(c: Seq<u8>, k: int) -> nat
    decreases 7 - k,
{
    if k >= 7 {
        0
    } else {
        c[k] as nat + suffix_total(c, k + 1)
    }
}

/// `c[1]! * ... * c[k]!`.
pub open spec fn fact_prod(c: Seq<u8>, k: int) -> nat
    decreases k,
{
    if k <= 0 {
        1
    } else {
        fact_prod(c, k - 1) * fact(c[k] as nat)
    }
}

/// The product of `f!` over the counts of faces 1 to `k` in `v`.
pub open spec fn count_fact_prod(v: Seq<u8>, k: int) -> nat
    decreases k,
{
    if k <= 0 {
        1
    } else {
        count_fact_prod(v, k - 1) * fact(face_count(v, k as u8))
    }
}

/// Number of ordered rolls that show the faces of `v`: the multinomial
/// coefficient of its face counts.
pub open spec fn multinomial(v: Seq<u8>) -> nat {
    fact(v.len()) / count_fact_prod(v, 6)
}

/// `c[1]` ones, then `c[2]` twos, up to `c[k]` of face `k`.
pub open spec fn values_for(c: Seq<u8>, k: int) -> Seq<u8>
    decreases k,
{
    if k <= 0 {
        Seq::empty()
    } else {
        values_for(c, k - 1) + Seq::new(c[k] as nat, |i: int| k as u8)
    }
}

/// Whether `v` shows face `f` exactly `c[f]` times for each face.
pub open spec fn has_counts(v: Seq<u8>, c: Seq<u8>) -> bool {
    forall|f: int| 1 <= f <= 6 ==> #[trigger] face_count(v, f as u8) == c[f]
}

/// Whether `v` shows fewer ones than `w`, or as many ones and fewer twos,
/// and so on.
pub open spec fn counts_before(v: Seq<u8>, w: Seq<u8>) -> bool {
    exists|f: int|
        1 <= f <= 6 && (forall|g: int| 1 <= g < f ==> #[trigger] face_count(v, g as u8) == face_count(w, g as u8))
            && #[trigger] face_count(v, f as u8) < face_count(w, f as u8)
}

/// Whether `e` is an outcome of rolling `n` dice: `n` sorted faces and the
/// number of ordered rolls that show them.
pub open spec fn outcome_ok(n: nat, e: (Vec<u8>, u32)) -> bool {
    &&& e.0@.len() == n
    &&& sorted(e.0@)
    &&& all_faces(e.0@)
    &&& e.1 == multinomial(e.0@)
}

/// Whether `r` lists the outcomes of rolling `n` dice: each sorted set of
/// faces once, ordered by the number of ones, then of twos, and so on.
pub open spec fn distribution_ok(n: nat, r: Seq<(Vec<u8>, u32)>) -> bool {
    &&& forall|j: int| 0 <= j < r.len() ==> outcome_ok(n, #[trigger] r[j])
    &&& forall|a: int, b: int| 0 <= a < b < r.len() ==> counts_before((#[trigger] r[a]).0@, (#[trigger] r[b]).0@)
    &&& forall|c: Seq<u8>|
        c.len() == 7 && #[trigger] prefix_total(c, 6) == n ==> exists|j: int| 0 <= j < r.len() && has_counts(r[j].0@, c)
}

// ---------------------------------------------------------------------------
// Facts about factorials and face counts
// ---------------------------------------------------------------------------

proof fn lemma_fact_pos(n: nat)
    ensures
        fact(n) >= 1,
    decreases n,
{
    if n > 0 {
        lemma_fact_pos((n - 1) as nat);
        assert(n * fact((n - 1) as nat) >= 1) by (nonlinear_arith)
            requires
                n >= 1,
                fact((n - 1) as nat) >= 1,
        ;
    }
}

proof fn lemma_fact_monotone(a: nat, b: nat)
    requires
        a <= b,
    ensures
        fact(a) <= fact(b),
    decreases b,
{
    if a < b {
        lemma_fact_monotone(a, (b - 1) as nat);
        lemma_fact_pos((b - 1) as nat);
        assert(fact((b - 1) as nat) <= b * fact((b - 1) as nat)) by (nonlinear_arith)
            requires
                b >= 1,
        ;
    }
}

proof fn lemma_fact_split(a: nat, b: nat)
    ensures
        fact(a) * fact(b) <= fact(a + b),
    decreases b,
{
    if b > 0 {
        let b1 = (b - 1) as nat;
        lemma_fact_split(a, b1);
        lemma_fact_pos(a);
        assert(fact(a) * fact(b) == fact(a) * fact(b1) * b) by (nonlinear_arith)
            requires
                fact(b) == b * fact(b1),
        ;
        assert(fact(a + b) == (a + b) * fact((a + b - 1) as nat));
        assert((a + b - 1) as nat == a + b1);
        assert(fact(a) * fact(b1) * b <= fact(a + b)) by (nonlinear_arith)
            requires
                fact(a) * fact(b1) <= fact(a + b1),
                b <= a + b,
                fact(a + b) == (a + b) * fact(a + b1),
        ;
    } else {
        assert(fact(0nat) == 1);
    }
}

proof fn lemma_fact_twelve()
    ensures
        fact(12) == 479001600,
{
    reveal_with_fuel(fact, 13);
}

proof fn lemma_fact_prod_bound(c: Seq<u8>, k: int)
    requires
        0 <= k,
    ensures
        fact_prod(c, k) <= fact(prefix_total(c, k)),
        fact_prod(c, k) >= 1,
    decreases k,
{
    if k > 0 {
        lemma_fact_prod_bound(c, k - 1);
        lemma_fact_split(prefix_total(c, k - 1), c[k] as nat);
        lemma_fact_pos(c[k] as nat);
        assert(fact_prod(c, k - 1) * fact(c[k] as nat) <= fact(prefix_total(c, k - 1)) * fact(c[k] as nat))
            by (nonlinear_arith)
            requires
                fact_prod(c, k - 1) <= fact(prefix_total(c, k - 1)),
        ;
        assert(fact_prod(c, k - 1) * fact(c[k] as nat) >= 1) by (nonlinear_arith)
            requires
                fact_prod(c, k - 1) >= 1,
                fact(c[k] as nat) >= 1,
        ;
    }
}

pub proof fn lemma_face_count_concat(a: Seq<u8>, b: Seq<u8>, f: u8)
    ensures
        face_count(a + b, f) == face_count(a, f) + face_count(b, f),
    decreases b.len(),
{
    if b.len() == 0 {
        assert(a + b == a);
    } else {
        assert((a + b).drop_last() == a + b.drop_last());
        lemma_face_count_concat(a, b.drop_last(), f);
    }
}

proof fn lemma_face_count_repeat(n: nat, k: u8, f: u8)
    ensures
        face_count(Seq::new(n, |i: int| k), f) == if f == k {
            n
        } else {
            0
        },
    decreases n,
{
    if n > 0 {
        assert(Seq::new(n, |i: int| k).drop_last() == Seq::new((n - 1) as nat, |i: int| k));
        lemma_face_count_repeat((n - 1) as nat, k, f);
    }
}

proof fn lemma_values_for(c: Seq<u8>, k: int)
    requires
        0 <= k <= 6,
        c.len() == 7,
    ensures
        values_for(c, k).len() == prefix_total(c, k),
        forall|f: u8| #[trigger] face_count(values_for(c, k), f) == if 1 <= f <= k {
            c[f as int] as nat
        } else {
            0
        },
        sorted(values_for(c, k)),
        forall|i: int| 0 <= i < values_for(c, k).len() ==> 1 <= #[trigger] values_for(c, k)[i] <= k,
    decreases k,
{
    if k > 0 {
        lemma_values_for(c, k - 1);
        let a = values_for(c, k - 1);
        let b = Seq::new(c[k] as nat, |i: int| k as u8);
        assert forall|f: u8| #[trigger] face_count(values_for(c, k), f) == if 1 <= f <= k {
            c[f as int] as nat
        } else {
            0
        } by {
            lemma_face_count_concat(a, b, f);
            lemma_face_count_repeat(c[k] as nat, k as u8, f);
        }
        let v = values_for(c, k);
        assert forall|i: int| 0 <= i < v.len() implies 1 <= #[trigger] v[i] <= k by {
            if i < a.len() {
                assert(v[i] == a[i]);
            } else {
                assert(v[i] == b[i - a.len()]);
            }
        }
        assert forall|i: int, j: int| 0 <= i <= j < v.len() implies v[i] <= v[j] by {
            if j < a.len() {
                assert(v[i] == a[i]);
                assert(v[j] == a[j]);
            } else if i < a.len() {
                assert(v[i] == a[i]);
                assert(v[j] == k);
            } else {
                assert(v[i] == k);
                assert(v[j] == k);
            }
        }
    }
}

pub proof fn lemma_count_fact_prod(v: Seq<u8>, c: Seq<u8>, k: int)
    requires
        0 <= k <= 6,
        forall|f: int| 1 <= f <= 6 ==> #[trigger] face_count(v, f as u8) == c[f],
    ensures
        count_fact_prod(v, k) == fact_prod(c, k),
    decreases k,
{
    if k > 0 {
        lemma_count_fact_prod(v, c, k - 1);
        assert(face_count(v, k as u8) == c[k]);
    }
}

proof fn lemma_suffix_prefix(c: Seq<u8>, k: int)
    requires
        1 <= k <= 7,
    ensures
        prefix_total(c, k - 1) + suffix_total(c, k) == prefix_total(c, 6),
    decreases 7 - k,
{
    if k < 7 {
        lemma_suffix_prefix(c, k + 1);
    }
}

// ---------------------------------------------------------------------------
// Counting ordered rolls
// ---------------------------------------------------------------------------

/// `b^e`.
pub open spec fn pow_nat(b: nat, e: nat) -> nat
    decreases e,
{
    if e == 0 {
        1
    } else {
        b * pow_nat(b, (e - 1) as nat)
    }
}

/// The binomial coefficient `n` choose `k`, by Pascal's rule.
pub open spec fn binom(n: nat, k: int) -> nat
    decreases n,
{
    if k < 0 {
        0
    } else if k == 0 {
        1
    } else if n == 0 {
        0
    } else {
        binom((n - 1) as nat, k - 1) + binom((n - 1) as nat, k)
    }
}

/// The sum of the weights of a list of outcomes.
pub open spec fn sum_weights(r: Seq<(Vec<u8>, u32)>) -> nat
    decreases r.len(),
{
    if r.len() == 0 {
        0
    } else {
        sum_weights(r.drop_last()) + r.last().1 as nat
    }
}

/// `binom(n, c) * x^(n - c)` summed over `c` below `k`.
pub open spec fn binom_sum(n: nat, x: nat, k: int) -> nat
    decreases k,
{
    if k <= 0 {
        0
    } else {
        binom_sum(n, x, k - 1) + binom(n, k - 1) * pow_nat(x, (n - (k - 1)) as nat)
    }
}

/// The product of the binomial coefficients that split the dice counted
/// by `c[1..=k]` face by face.
pub open spec fn split_count(c: Seq<u8>, k: int) -> nat
    decreases k,
{
    if k <= 0 {
        1
    } else {
        split_count(c, k - 1) * binom(prefix_total(c, k), c[k] as int)
    }
}

proof fn lemma_binom_beyond(n: nat, k: int)
    requires
        k > n,
    ensures
        binom(n, k) == 0,
    decreases n,
{
    if n > 0 {
        lemma_binom_beyond((n - 1) as nat, k - 1);
        lemma_binom_beyond((n - 1) as nat, k);
    }
}

proof fn lemma_binom_all(n: nat)
    ensures
        binom(n, n as int) == 1,
    decreases n,
{
    if n > 0 {
        lemma_binom_all((n - 1) as nat);
        lemma_binom_beyond((n - 1) as nat, n as int);
    }
}

proof fn lemma_binom_fact(n: nat, k: nat)
    requires
        k <= n,
    ensures
        binom(n, k as int) * fact(k) * fact((n - k) as nat) == fact(n),
    decreases n,
{
    if k == 0 {
        assert(fact(0nat) == 1);
        assert(binom(n, 0) == 1);
        assert((n - k) as nat == n);
        assert(binom(n, k as int) * fact(k) * fact((n - k) as nat) == fact(n));
    } else if k == n {
        lemma_binom_all(n);
        assert(fact(0nat) == 1);
        assert((n - k) as nat == 0);
        assert(binom(n, k as int) * fact(k) * fact((n - k) as nat) == fact(n));
    } else {
        let n1 = (n - 1) as nat;
        lemma_binom_fact(n1, (k - 1) as nat);
        lemma_binom_fact(n1, k);
        let a = binom(n1, k - 1);
        let b = binom(n1, k as int);
        assert(binom(n, k as int) == a + b);
        assert(fact(k) == k * fact((k - 1) as nat));
        assert(fact((n - k) as nat) == (n - k) * fact((n1 - k) as nat));
        assert(fact(n) == n * fact(n1));
        assert((n1 - (k - 1)) as nat == (n - k) as nat);
        let fk = fact(k);
        let fk1 = fact((k - 1) as nat);
        let fnk = fact((n - k) as nat);
        let fnk1 = fact((n1 - k) as nat);
        let fn1 = fact(n1);
        let fnn = fact(n);
        let kk = k as int;
        let nk = (n - k) as int;
        assert(a * fk * fnk == kk * fn1) by (nonlinear_arith)
            requires
                fk == kk * fk1,
                a * fk1 * fnk == fn1,
        ;
        assert(b * fk * fnk == nk * fn1) by (nonlinear_arith)
            requires
                fnk == nk * fnk1,
                b * fk * fnk1 == fn1,
        ;
        assert((a + b) * fk * fnk == a * fk * fnk + b * fk * fnk) by (nonlinear_arith);
        assert(kk * fn1 + nk * fn1 == (kk + nk) * fn1) by (nonlinear_arith);
        assert(fnn == (kk + nk) * fn1);
        assert(binom(n, k as int) * fact(k) * fact((n - k) as nat) == fact(n));
    }
}

proof fn lemma_binom_sum_step(n: nat, x: nat, k: int)
    requires
        n >= 1,
        0 <= k <= n + 1,
    ensures
        binom_sum(n, x, k) == x * binom_sum((n - 1) as nat, x, k) + binom_sum((n - 1) as nat, x, k - 1),
    decreases k,
{
    let n1 = (n - 1) as nat;
    if k > 0 {
        lemma_binom_sum_step(n, x, k - 1);
        let c = k - 1;
        let t = binom(n, c) * pow_nat(x, (n - c) as nat);
        let t1 = binom(n1, c) * pow_nat(x, (n1 - c) as nat);
        let t0 = binom(n1, c - 1) * pow_nat(x, (n1 - (c - 1)) as nat);
        assert(binom_sum(n, x, k) == binom_sum(n, x, k - 1) + t);
        assert(binom_sum(n1, x, k) == binom_sum(n1, x, k - 1) + t1);
        if c >= 1 {
            assert(binom_sum(n1, x, k - 1) == binom_sum(n1, x, k - 2) + t0);
            assert((n1 - (c - 1)) as nat == (n - c) as nat);
        } else {
            assert(binom_sum(n1, x, k - 1) == 0);
            assert(binom_sum(n1, x, k - 2) == 0);
            assert(binom(n1, c - 1) == 0);
            assert(t0 == 0) by (nonlinear_arith)
                requires
                    binom(n1, c - 1) == 0,
                    t0 == binom(n1, c - 1) * pow_nat(x, (n1 - (c - 1)) as nat),
            ;
        }
        assert(binom(n, c) == binom(n1, c - 1) + binom(n1, c));
        if c <= n1 {
            assert(pow_nat(x, (n - c) as nat) == x * pow_nat(x, (n1 - c) as nat));
            assert(t == x * t1 + t0) by (nonlinear_arith)
                requires
                    t == binom(n, c) * pow_nat(x, (n - c) as nat),
                    t1 == binom(n1, c) * pow_nat(x, (n1 - c) as nat),
                    t0 == binom(n1, c - 1) * pow_nat(x, (n1 - (c - 1)) as nat),
                    binom(n, c) == binom(n1, c - 1) + binom(n1, c),
                    pow_nat(x, (n - c) as nat) == x * pow_nat(x, (n1 - c) as nat),
                    c >= 1 ==> (n1 - (c - 1)) as nat == (n - c) as nat,
                    c == 0 ==> t0 == 0,
            ;
        } else {
            lemma_binom_beyond(n1, c);
            assert(c == n);
            assert((n1 - (c - 1)) as nat == (n - c) as nat);
            assert(t == x * t1 + t0) by (nonlinear_arith)
                requires
                    t == binom(n, c) * pow_nat(x, (n - c) as nat),
                    t1 == binom(n1, c) * pow_nat(x, (n1 - c) as nat),
                    t0 == binom(n1, c - 1) * pow_nat(x, (n1 - (c - 1)) as nat),
                    binom(n, c) == binom(n1, c - 1) + binom(n1, c),
                    binom(n1, c) == 0,
                    (n1 - (c - 1)) as nat == (n - c) as nat,
            ;
        }
        assert(binom_sum(n, x, k) == x * binom_sum(n1, x, k) + binom_sum(n1, x, k - 1)) by (nonlinear_arith)
            requires
                binom_sum(n, x, k - 1) == x * binom_sum(n1, x, k - 1) + binom_sum(n1, x, k - 2),
                binom_sum(n, x, k) == binom_sum(n, x, k - 1) + t,
                binom_sum(n1, x, k) == binom_sum(n1, x, k - 1) + t1,
                binom_sum(n1, x, k - 1) == binom_sum(n1, x, k - 2) + t0,
                t == x * t1 + t0,
        ;
    } else {
        assert(binom_sum(n1, x, k) == 0);
        assert(x * binom_sum(n1, x, k) == 0) by (nonlinear_arith)
            requires
                binom_sum(n1, x, k) == 0,
        ;
    }
}

/// The binomial theorem: `binom(n, c) * x^(n - c)` summed over every `c`
/// is `(x + 1)^n`.
pub proof fn lemma_binomial_theorem(n: nat, x: nat)
    ensures
        binom_sum(n, x, n as int + 1) == pow_nat(x + 1, n),
    decreases n,
{
    if n == 0 {
        assert(binom_sum(0, x, 1) == binom_sum(0, x, 0) + binom(0, 0) * pow_nat(x, 0));
        assert(binom_sum(0, x, 0) == 0);
        assert(pow_nat(x, 0) == 1);
        assert(pow_nat(x + 1, 0) == 1);
        assert(binom(0, 0) == 1);
        assert(binom(0, 0) * pow_nat(x, 0) == 1) by (nonlinear_arith)
            requires
                binom(0, 0) == 1,
                pow_nat(x, 0) == 1,
        ;
        assert(binom_sum(n, x, n as int + 1) == pow_nat(x + 1, n));
    } else {
        let n1 = (n - 1) as nat;
        lemma_binomial_theorem(n1, x);
        lemma_binom_sum_step(n, x, n as int + 1);
        lemma_binom_beyond(n1, n as int);
        assert(binom_sum(n1, x, n as int + 1) == binom_sum(n1, x, n as int) + binom(n1, n as int) * pow_nat(x, (n1 - n) as nat));
        assert(binom(n1, n as int) * pow_nat(x, (n1 - n) as nat) == 0) by (nonlinear_arith)
            requires
                binom(n1, n as int) == 0,
        ;
        assert(binom_sum(n, x, n as int + 1) == pow_nat(x + 1, n)) by (nonlinear_arith)
            requires
                binom_sum(n, x, n as int + 1) == x * binom_sum(n1, x, n as int + 1) + binom_sum(n1, x, n as int),
                binom_sum(n1, x, n as int + 1) == binom_sum(n1, x, n as int),
                binom_sum(n1, x, n as int) == pow_nat(x + 1, n1),
                pow_nat(x + 1, n) == (x + 1) * pow_nat(x + 1, n1),
        ;
    }
}

/// The factorial of a number of dice is the product of the factorials of
/// the dice of each face times the ways of splitting them among the faces.
proof fn lemma_split_count(c: Seq<u8>, k: int)
    requires
        0 <= k <= 6,
        c.len() == 7,
    ensures
        fact(prefix_total(c, k)) == fact_prod(c, k) * split_count(c, k),
    decreases k,
{
    if k == 0 {
        assert(fact(0nat) == 1);
        assert(fact_prod(c, 0) * split_count(c, 0) == 1) by (nonlinear_arith)
            requires
                fact_prod(c, 0) == 1,
                split_count(c, 0) == 1,
        ;
    } else {
        lemma_split_count(c, k - 1);
        let p = prefix_total(c, k - 1);
        let q = c[k] as nat;
        lemma_binom_fact(p + q, q);
        assert((p + q - q) as nat == p);
        let b = binom(p + q, q as int);
        assert(prefix_total(c, k) == p + q);
        assert(fact_prod(c, k) == fact_prod(c, k - 1) * fact(q));
        assert(split_count(c, k) == split_count(c, k - 1) * b);
        assert(fact(p + q) == fact_prod(c, k) * split_count(c, k)) by (nonlinear_arith)
            requires
                b * fact(q) * fact(p) == fact(p + q),
                fact(p) == fact_prod(c, k - 1) * split_count(c, k - 1),
                fact_prod(c, k) == fact_prod(c, k - 1) * fact(q),
                split_count(c, k) == split_count(c, k - 1) * b,
        ;
    }
}

// ---------------------------------------------------------------------------
// Computing the outcomes
// ---------------------------------------------------------------------------

/// `value!`.
pub fn factorial(value: usize) -> (r: u32)
    requires
        value <= 12,
    ensures
        r == fact(value as nat),
{
    let mut acc: u32 = 1;
    let mut i: u32 = 1;
    proof {
        lemma_fact_twelve();
    }
    while i as usize <= value
        invariant
            1 <= i <= 13,
            i <= value + 1,
            value <= 12,
            acc == fact((i - 1) as nat),
            fact(12) == 479001600,
        decreases value + 1 - i,
    {
        proof {
            lemma_fact_monotone(i as nat, 12);
            assert(fact(i as nat) == i * fact((i - 1) as nat));
        }
        acc = acc * i;
        i += 1;
    }
    acc
}

/// The number of ordered rolls of `total` dice that show face `f`
/// `counts[f]` times: `total!` over the product of the `counts[f]!`.
pub fn multinomial_weight(total: usize, counts: &[u8; 7]) -> (r: u32)
    requires
        total <= 12,
        prefix_total(counts@, 6) <= 12,
    ensures
        r == fact(total as nat) / fact_prod(counts@, 6),
{
    let mut den: u32 = 1;
    let mut f: usize = 1;
    proof {
        lemma_fact_twelve();
    }
    while f <= 6
        invariant
            1 <= f <= 7,
            den == fact_prod(counts@, f - 1),
            prefix_total(counts@, 6) <= 12,
            fact(12) == 479001600,
        decreases 7 - f,
    {
        proof {
            lemma_fact_prod_bound(counts@, f as int);
            lemma_suffix_prefix(counts@, f as int + 1);
            lemma_fact_monotone(prefix_total(counts@, f as int), 12);
            lemma_suffix_prefix(counts@, f as int);
        }
        let c = counts[f] as usize;
        assert(c <= 12);
        den = den * factorial(c);
        f += 1;
    }
    proof {
        lemma_fact_prod_bound(counts@, 6);
    }
    factorial(total) / den
}

proof fn lemma_fact_prod_frame(a: Seq<u8>, b: Seq<u8>, k: int)
    requires
        forall|g: int| 1 <= g <= k ==> a[g] == b[g],
    ensures
        fact_prod(a, k) == fact_prod(b, k),
    decreases k,
{
    if k > 0 {
        lemma_fact_prod_frame(a, b, k - 1);
    }
}

proof fn lemma_weight_step(bs: int, p: nat, r: nat, c: nat, t: nat, x: nat, prev: int)
    requires
        c <= r,
        bs * (p * fact(c)) * fact((r - c) as nat) == t * pow_nat(x, (r - c) as nat),
        prev * p * fact(r) == t * binom_sum(r, x, c as int),
    ensures
        (prev + bs) * p * fact(r) == t * binom_sum(r, x, c as int + 1),
{
    lemma_binom_fact(r, c);
    let b = binom(r, c as int);
    let w = pow_nat(x, (r - c) as nat);
    let fc = fact(c);
    let frc = fact((r - c) as nat);
    let fr = fact(r);
    let s0 = binom_sum(r, x, c as int);
    let s1 = binom_sum(r, x, c as int + 1);
    assert(s1 == s0 + b * w);
    assert(bs * p * fr == b * (bs * (p * fc) * frc)) by (nonlinear_arith)
        requires
            b * fc * frc == fr,
    ;
    assert(bs * p * fr == t * (b * w)) by (nonlinear_arith)
        requires
            bs * p * fr == b * (bs * (p * fc) * frc),
            bs * (p * fc) * frc == t * w,
    ;
    assert((prev + bs) * p * fr == prev * p * fr + bs * p * fr) by (nonlinear_arith);
    assert(t * s0 + t * (b * w) == t * (s0 + b * w)) by (nonlinear_arith);
}

/// Appends the outcomes whose counts of faces below `face` are those of
/// `counts` and whose other dice number `remaining`.
fn walk(face: u8, remaining: usize, counts: &mut [u8; 7], output: &mut Vec<(Vec<u8>, u32)>, total: usize)
    requires
        1 <= face <= 7,
        total <= 12,
        prefix_total(old(counts)@, face - 1) + remaining == total,
        forall|g: int| face <= g < 7 ==> old(counts)@[g] == 0,
    ensures
        final(counts)@ == old(counts)@,
        final(output)@.len() >= old(output)@.len(),
        final(output)@.take(old(output)@.len() as int) == old(output)@,
        forall|j: int|
            old(output)@.len() <= j < final(output)@.len() ==> outcome_ok(total as nat, #[trigger] final(output)@[j])
                && forall|g: int| 1 <= g < face ==> #[trigger] face_count(final(output)@[j].0@, g as u8) == old(counts)@[g],
        forall|a: int, b: int|
            old(output)@.len() <= a < b < final(output)@.len() ==> counts_before(
                (#[trigger] final(output)@[a]).0@,
                (#[trigger] final(output)@[b]).0@,
            ),
        forall|c: Seq<u8>|
            c.len() == 7 && (forall|g: int| 1 <= g < face ==> c[g] == old(counts)@[g]) && #[trigger] suffix_total(c, face as int)
                == remaining ==> exists|j: int|
                old(output)@.len() <= j < final(output)@.len() && has_counts(final(output)@[j].0@, c),
        (sum_weights(final(output)@) - sum_weights(old(output)@)) * fact_prod(old(counts)@, face - 1) * fact(
            remaining as nat,
        ) == fact(total as nat) * pow_nat((7 - face) as nat, remaining as nat),
    decreases 7 - face,
{
    let ghost o = old(output)@;
    let ghost c0 = old(counts)@;
    if face == 7 {
        if remaining == 0 {
            let mut values: Vec<u8> = Vec::new();
            let mut v: u8 = 1;
            while v <= 6
                invariant
                    1 <= v <= 7,
                    counts@ == c0,
                    values@ == values_for(c0, v - 1),
                decreases 7 - v,
            {
                let n = counts[v as usize];
                let mut i: u8 = 0;
                while i < n
                    invariant
                        i <= n,
                        n == c0[v as int],
                        1 <= v <= 6,
                        counts@ == c0,
                        values@ == values_for(c0, v - 1) + Seq::new(i as nat, |k: int| v),
                    decreases n - i,
                {
                    values.push(v);
                    i += 1;
                    assert(values@ == values_for(c0, v - 1) + Seq::new(i as nat, |k: int| v));
                }
                assert(values_for(c0, v as int) == values_for(c0, v - 1) + Seq::new(c0[v as int] as nat, |k: int| v));
                v += 1;
            }
            proof {
                lemma_values_for(c0, 6);
                lemma_fact_prod_bound(c0, 0);
                assert forall|f: int| 1 <= f <= 6 implies #[trigger] face_count(values@, f as u8) == c0[f] by {
                    assert(face_count(values@, f as u8) == c0[(f as u8) as int]);
                }
                lemma_count_fact_prod(values@, c0, 6);
                assert(prefix_total(c0, 6) == total);
            }
            let weight = multinomial_weight(total, counts);
            proof {
                lemma_split_count(c0, 6);
                lemma_fact_prod_bound(c0, 6);
                vstd::arithmetic::div_mod::lemma_div_multiples_vanish(split_count(c0, 6) as int, fact_prod(c0, 6) as int);
                assert(weight == split_count(c0, 6));
            }
            output.push((values, weight));
            proof {
                assert(output@.drop_last() == o);
                assert(sum_weights(output@) == sum_weights(o) + weight);
                assert(fact(0nat) == 1);
                assert(pow_nat(0nat, 0nat) == 1);
                assert(weight * fact_prod(c0, 6) * fact(0nat) == fact(total as nat) * pow_nat(0nat, 0nat)) by (nonlinear_arith)
                    requires
                        fact(total as nat) == fact_prod(c0, 6) * split_count(c0, 6),
                        weight == split_count(c0, 6),
                        fact(0nat) == 1,
                        pow_nat(0nat, 0nat) == 1,
                ;
                let e = output@[o.len() as int];
                assert(outcome_ok(total as nat, e));
                assert forall|c: Seq<u8>|
                    c.len() == 7 && (forall|g: int| 1 <= g < 7 ==> c[g] == c0[g]) && #[trigger] suffix_total(c, 7)
                        == remaining implies exists|j: int| o.len() <= j < output@.len() && has_counts(output@[j].0@, c) by {
                    assert(has_counts(output@[o.len() as int].0@, c));
                }
                assert(output@.take(o.len() as int) == o);
            }
        } else {
            proof {
                assert(output@.take(o.len() as int) == o);
                assert(pow_nat(0nat, remaining as nat) == 0 * pow_nat(0nat, (remaining - 1) as nat));
                assert(fact(total as nat) * pow_nat(0nat, remaining as nat) == 0) by (nonlinear_arith)
                    requires
                        pow_nat(0nat, remaining as nat) == 0 * pow_nat(0nat, (remaining - 1) as nat),
                ;
                assert((sum_weights(output@) - sum_weights(o)) * fact_prod(c0, 6) * fact(remaining as nat) == 0) by (nonlinear_arith)
                    requires
                        sum_weights(output@) - sum_weights(o) == 0,
                ;
            }
        }
        return;
    }
    let mut count: usize = 0;
    let ghost p = fact_prod(c0, face - 1);
    let ghost x = (6 - face) as nat;
    proof {
        assert(output@.take(o.len() as int) == o);
        assert(binom_sum(remaining as nat, x, 0) == 0);
        assert((sum_weights(output@) - sum_weights(o)) * p * fact(remaining as nat) == 0) by (nonlinear_arith)
            requires
                sum_weights(output@) - sum_weights(o) == 0,
        ;
        assert(fact(total as nat) * binom_sum(remaining as nat, x, 0) == 0) by (nonlinear_arith)
            requires
                binom_sum(remaining as nat, x, 0) == 0,
        ;
    }
    while count <= remaining
        invariant
            p == fact_prod(c0, face - 1),
            x == (6 - face) as nat,
            (sum_weights(output@) - sum_weights(o)) * p * fact(remaining as nat) == fact(total as nat) * binom_sum(
                remaining as nat,
                x,
                count as int,
            ),
            1 <= face <= 6,
            count <= remaining + 1,
            total <= 12,
            prefix_total(c0, face - 1) + remaining == total,
            forall|g: int| face <= g < 7 ==> c0[g] == 0,
            counts@.len() == 7,
            forall|g: int| 0 <= g < 7 && g != face ==> counts@[g] == c0[g],
            output@.len() >= o.len(),
            output@.take(o.len() as int) == o,
            forall|j: int|
                o.len() <= j < output@.len() ==> outcome_ok(total as nat, #[trigger] output@[j]) && (forall|g: int|
                    1 <= g < face ==> #[trigger] face_count(output@[j].0@, g as u8) == c0[g]) && face_count(
                    output@[j].0@,
                    face,
                ) < count,
            forall|a: int, b: int|
                o.len() <= a < b < output@.len() ==> counts_before((#[trigger] output@[a]).0@, (#[trigger] output@[b]).0@),
            forall|c: Seq<u8>|
                c.len() == 7 && (forall|g: int| 1 <= g < face ==> c[g] == c0[g]) && #[trigger] suffix_total(c, face as int)
                    == remaining && c[face as int] < count ==> exists|j: int|
                    o.len() <= j < output@.len() && has_counts(output@[j].0@, c),
        decreases remaining + 1 - count,
    {
        let ghost pre = counts@;
        counts[face as usize] = count as u8;
        assert(counts@ == pre.update(face as int, count as u8));
        assert forall|g: int| face + 1 <= g < 7 implies counts@[g] == 0 by {
            assert(pre[g] == c0[g]);
        }
        let ghost before = output@;
        let ghost cs = counts@;
        proof {
            assert(prefix_total(cs, face as int) == prefix_total(c0, face - 1) + count) by {
                assert forall|g: int| 1 <= g < face implies cs[g] == c0[g] by {}
                lemma_prefix_frame(cs, c0, face - 1);
            }
        }
        walk(face + 1, remaining - count, counts, output, total);
        proof {
            lemma_fact_prod_frame(cs, c0, face - 1);
            assert(fact_prod(cs, face as int) == p * fact(count as nat));
            assert((7 - (face + 1)) as nat == x);
            lemma_weight_step(
                sum_weights(output@) - sum_weights(before),
                p,
                remaining as nat,
                count as nat,
                fact(total as nat),
                x,
                sum_weights(before) - sum_weights(o),
            );
            assert(output@.take(before.len() as int) == before);
            assert forall|j: int| o.len() <= j < before.len() implies output@[j] == before[j] by {
                assert(output@.take(before.len() as int)[j] == before[j]);
            }
            assert(output@.take(o.len() as int) == o) by {
                assert forall|j: int| 0 <= j < o.len() implies output@[j] == o[j] by {
                    assert(output@.take(before.len() as int)[j] == before[j]);
                    assert(before.take(o.len() as int)[j] == o[j]);
                }
            }
            assert forall|j: int| o.len() <= j < output@.len() implies outcome_ok(total as nat, #[trigger] output@[j]) && (forall|g: int|
                1 <= g < face ==> #[trigger] face_count(output@[j].0@, g as u8) == c0[g]) && face_count(
                output@[j].0@,
                face,
            ) < count + 1 by {
                if j < before.len() {
                    assert(output@[j] == before[j]);
                    assert(face_count(before[j].0@, face) < count);
                } else {
                    assert(face_count(output@[j].0@, (face as int) as u8) == cs[face as int]);
                    assert(face_count(output@[j].0@, face) == cs[face as int]);
                    assert forall|g: int| 1 <= g < face implies #[trigger] face_count(output@[j].0@, g as u8) == c0[g] by {
                        assert(face_count(output@[j].0@, g as u8) == cs[g]);
                    }
                }
            }
            assert forall|a: int, b: int| o.len() <= a < b < output@.len() implies counts_before(
                (#[trigger] output@[a]).0@,
                (#[trigger] output@[b]).0@,
            ) by {
                if b < before.len() {
                    assert(output@[a] == before[a]);
                    assert(output@[b] == before[b]);
                } else if a < before.len() {
                    let va = output@[a].0@;
                    let vb = output@[b].0@;
                    assert(output@[a] == before[a]);
                    assert(face_count(vb, (face as int) as u8) == cs[face as int]);
                    assert(face_count(vb, face) == count);
                    assert(face_count(va, face) < count);
                    assert forall|g: int| 1 <= g < face implies #[trigger] face_count(va, g as u8) == face_count(vb, g as u8) by {
                        assert(face_count(vb, g as u8) == cs[g]);
                    }
                    assert(face_count(va, face as int as u8) < face_count(vb, face as int as u8));
                }
            }
            assert forall|c: Seq<u8>|
                c.len() == 7 && (forall|g: int| 1 <= g < face ==> c[g] == c0[g]) && #[trigger] suffix_total(c, face as int)
                    == remaining && c[face as int] < count + 1 implies exists|j: int|
                o.len() <= j < output@.len() && has_counts(output@[j].0@, c) by {
                if c[face as int] < count {
                    let j = choose|j: int| o.len() <= j < before.len() && has_counts(before[j].0@, c);
                    assert(output@[j] == before[j]);
                } else {
                    assert(forall|g: int| 1 <= g < face + 1 ==> c[g] == cs[g]);
                    assert(suffix_total(c, face + 1) == remaining - count);
                }
            }
        }
        count += 1;
    }
    counts[face as usize] = 0;
    proof {
        lemma_binomial_theorem(remaining as nat, x);
        assert(x + 1 == (7 - face) as nat);
        assert(count == remaining + 1);
        assert(counts@ == c0);
        assert forall|c: Seq<u8>|
            c.len() == 7 && (forall|g: int| 1 <= g < face ==> c[g] == c0[g]) && #[trigger] suffix_total(c, face as int)
                == remaining implies exists|j: int| o.len() <= j < output@.len() && has_counts(output@[j].0@, c) by {
            assert(c[face as int] < count);
        }
    }
}

proof fn lemma_prefix_frame(a: Seq<u8>, b: Seq<u8>, k: int)
    requires
        forall|g: int| 1 <= g <= k ==> a[g] == b[g],
    ensures
        prefix_total(a, k) == prefix_total(b, k),
    decreases k,
{
    if k > 0 {
        lemma_prefix_frame(a, b, k - 1);
    }
}

/// The outcomes of rolling `dice_count` dice: each sorted set of faces once,
/// with the number of ordered rolls that show it, ordered by the number of
/// ones, then of twos, and so on.
pub fn distribution_for_count(dice_count: usize) -> (r: Vec<(Vec<u8>, u32)>)
    requires
        dice_count <= 12,
    ensures
        distribution_ok(dice_count as nat, r@),
        sum_weights(r@) == pow_nat(6, dice_count as nat),
{
    let mut output: Vec<(Vec<u8>, u32)> = Vec::new();
    let mut counts: [u8; 7] = [0; 7];
    walk(1, dice_count, &mut counts, &mut output, dice_count);
    proof {
        let o: Seq<(Vec<u8>, u32)> = Seq::empty();
        assert(sum_weights(o) == 0);
        lemma_fact_pos(dice_count as nat);
        let s = sum_weights(output@) as int;
        let f = fact(dice_count as nat) as int;
        let w = pow_nat(6, dice_count as nat) as int;
        assert(s * f == f * w) by (nonlinear_arith)
            requires
                (s - 0) * 1 * f == f * w,
        ;
        assert(s == w) by (nonlinear_arith)
            requires
                s * f == f * w,
                f >= 1,
        ;
        assert forall|c: Seq<u8>| c.len() == 7 && #[trigger] prefix_total(c, 6) == dice_count implies exists|j: int|
            0 <= j < output@.len() && has_counts(output@[j].0@, c) by {
            lemma_suffix_prefix(c, 1);
            assert(suffix_total(c, 1) == dice_count);
        }
    }
    output
}

/// The outcomes of rolling 0 to 5 dice, indexed by the number of dice.
pub fn build_distributions() -> (r: Vec<Vec<(Vec<u8>, u32)>>)
    ensures
        r@.len() == 6,
        forall|n: int| 0 <= n < 6 ==> distribution_ok(n as nat, (#[trigger] r@[n])@),
        forall|n: int| 0 <= n < 6 ==> sum_weights((#[trigger] r@[n])@) == pow_nat(6, n as nat),
{
    let mut all: Vec<Vec<(Vec<u8>, u32)>> = Vec::new();
    let mut n: usize = 0;
    while n <= 5
        invariant
            n <= 6,
            all@.len() == n,
            forall|k: int| 0 <= k < n ==> distribution_ok(k as nat, (#[trigger] all@[k])@),
            forall|k: int| 0 <= k < n ==> sum_weights((#[trigger] all@[k])@) == pow_nat(6, k as nat),
        decreases 6 - n,
    {
        all.push(distribution_for_count(n));
        n += 1;
    }
    all
}

} // verus!
