use vstd::prelude::*;

use crate::config::MAX_GROUP_SIZE;

use vstd::arithmetic::div_mod::{lemma_div_denominator, lemma_mod_breakdown, lemma_small_mod};

verus! {

/// Codes of a `g`-element group rewritten for an `m`-element group.
pub open spec fn reordered(code: u64, g: u64, m: u64) -> int {
    code % g + m * (code / g)
}

/// Rewrites each code `c` of a `g`-element group as the code of the same swap
/// in an `m`-element group, `c % g + m * (c / g)`.
pub fn convert_order(seq: &Vec<u64>, g: u64, m: u64) -> (r: Vec<u64>)
    requires
        0 < g <= m <= MAX_GROUP_SIZE,
        forall|i: int| 0 <= i < seq.len() ==> #[trigger] seq[i] < g * g,
    ensures
        r.len() == seq.len(),
        forall|i: int| 0 <= i < seq.len() ==> r[i] == reordered(#[trigger] seq[i], g, m),
        forall|i: int| 0 <= i < r.len() ==> #[trigger] r[i] < m * m,
{
    let mut r: Vec<u64> = Vec::new();
    let mut i: usize = 0;
    while i < seq.len()
        invariant
            i <= seq.len(),
            0 < g <= m <= MAX_GROUP_SIZE,
            forall|k: int| 0 <= k < seq.len() ==> #[trigger] seq[k] < g * g,
            r.len() == i,
            forall|k: int| 0 <= k < i ==> r[k] == reordered(#[trigger] seq[k], g, m),
            forall|k: int| 0 <= k < i ==> #[trigger] r[k] < m * m,
        decreases seq.len() - i,
    {
        let c = seq[i];
        assert(c % g + m * (c / g) < m * m) by (nonlinear_arith)
            requires
                c < g * g,
                0 < g <= m,
        {
            assert(c / g < g);
            assert(c / g <= g - 1);
            assert(m * (c / g) <= m * (g - 1));
            assert(c % g < g);
        }
        assert(m * m <= 2147483648 * 2147483648) by (nonlinear_arith)
            requires
                m <= 2147483648,
        ;
        r.push(c % g + m * (c / g));
        i = i + 1;
    }
    r
}

/// Each code `c` written as the two indices `c / m` and `c % m`.
pub open spec fn split_indices(s: Seq<u64>, m: u64) -> Seq<u64> {
    Seq::new(
        2 * s.len(),
        |k: int|
            if k % 2 == 0 {
                s[k / 2] / m
            } else {
                s[k / 2] % m
            },
    )
}

/// Pairs of indices `x, y` joined back into the codes `x * m + y`.
pub open spec fn join_indices(p: Seq<u64>, m: u64) -> Seq<u64> {
    Seq::new(p.len() / 2, |i: int| (p[2 * i] * m + p[2 * i + 1]) as u64)
}

/// Flattens each code `c` into the two indices `c / m, c % m`.
pub fn convert_to_separate_indices(seq: &Vec<u64>, m: u64) -> (r: Vec<u64>)
    requires
        m > 0,
    ensures
        r@ == split_indices(seq@, m),
{
    let mut r: Vec<u64> = Vec::new();
    let mut i: usize = 0;
    while i < seq.len()
        invariant
            i <= seq.len(),
            m > 0,
            r.len() == 2 * i,
            forall|k: int|
                0 <= k < 2 * i ==> #[trigger] r[k] == (if k % 2 == 0 {
                    seq[k / 2] / m
                } else {
                    seq[k / 2] % m
                }),
        decreases seq.len() - i,
    {
        let c = seq[i];
        r.push(c / m);
        r.push(c % m);
        i = i + 1;
    }
    assert(r@ =~= split_indices(seq@, m));
    r
}

/// Splitting codes into index pairs and joining them back gives the codes again.
pub proof fn lemma_split_join(s: Seq<u64>, m: u64)
    requires
        m > 0,
    ensures
        join_indices(split_indices(s, m), m) == s,
{
    let p = split_indices(s, m);
    assert forall|i: int| 0 <= i < s.len() implies #[trigger] join_indices(p, m)[i] == s[i] by {
        assert(p[2 * i] == s[i] / m);
        assert(p[2 * i + 1] == s[i] % m);
        let c = s[i] as int;
        let n = m as int;
        assert((c / n) * n + c % n == c) by (nonlinear_arith)
            requires
                n > 0,
        ;
    }
    assert(join_indices(p, m) =~= s);
}

pub open spec fn two_pow(d: nat) -> nat
    decreases d,
{
    if d == 0 {
        1
    } else {
        2 * two_pow((d - 1) as nat)
    }
}

/// The least `d` with `n <= 2^d`: the number of binary digits that every
/// index below `n` fits in.
pub open spec fn ceil_log2(n: nat) -> nat
    decreases n,
{
    if n <= 1 {
        0
    } else {
        1 + ceil_log2(((n + 1) / 2) as nat)
    }
}

pub proof fn lemma_ceil_log2_bounds(n: nat)
    ensures
        n <= two_pow(ceil_log2(n)),
        ceil_log2(n) <= n,
        n >= 2 ==> two_pow((ceil_log2(n) - 1) as nat) < n,
    decreases n,
{
    if n > 1 {
        lemma_ceil_log2_bounds(((n + 1) / 2) as nat);
    }
}

/// Number of binary digits needed for the indices below `size`.
pub fn digits_needed(size: u64) -> (d: u64)
    ensures
        d == ceil_log2(size as nat),
{
    proof {
        lemma_ceil_log2_bounds(size as nat);
    }
    let mut v: u64 = size;
    let mut d: u64 = 0;
    while v > 1
        invariant
            d + ceil_log2(v as nat) == ceil_log2(size as nat),
            ceil_log2(size as nat) <= size,
        decreases v,
    {
        d = d + 1;
        v = v / 2 + v % 2;
    }
    d
}

/// Digit `j` of `x` in base two.
pub open spec fn bit_of(x: nat, j: nat) -> nat {
    (x / two_pow(j)) % 2
}

/// The low `d` binary digits of `x`, least significant first.
pub open spec fn bits_le(x: nat, d: nat) -> Seq<u64> {
    Seq::new(d, |j: int| bit_of(x, j as nat) as u64)
}

/// Each value of `s` replaced by its low `d` binary digits.
pub open spec fn binary_digits(s: Seq<u64>, d: nat) -> Seq<u64>
    decreases s.len(),
{
    if s.len() == 0 {
        Seq::empty()
    } else {
        binary_digits(s.drop_last(), d) + bits_le(s.last() as nat, d)
    }
}

/// The number that little-endian binary digits `b` stand for.
pub open spec fn decode_bits(b: Seq<u64>) -> nat
    decreases b.len(),
{
    if b.len() == 0 {
        0
    } else {
        (decode_bits(b.drop_last()) + b.last() * two_pow((b.len() - 1) as nat)) as nat
    }
}

proof fn lemma_two_pow_positive(d: nat)
    ensures
        two_pow(d) > 0,
    decreases d,
{
    if d > 0 {
        lemma_two_pow_positive((d - 1) as nat);
    }
}

proof fn lemma_decode_low_bits(x: nat, d: nat)
    ensures
        decode_bits(bits_le(x, d)) == x % two_pow(d),
    decreases d,
{
    if d > 0 {
        let e = (d - 1) as nat;
        lemma_decode_low_bits(x, e);
        assert(bits_le(x, d).drop_last() =~= bits_le(x, e));
        lemma_two_pow_positive(e);
        lemma_mod_breakdown(x as int, two_pow(e) as int, 2);
        assert(two_pow(d) == two_pow(e) * 2);
        let b = bits_le(x, d);
        assert(b.last() == bit_of(x, e));
        assert(b.last() * two_pow(e) == two_pow(e) * bit_of(x, e)) by (nonlinear_arith)
            requires
                b.last() == bit_of(x, e),
        ;
    } else {
        assert(bits_le(x, d) =~= Seq::<u64>::empty());
        assert(x % 1 == 0);
    }
}

/// Decoding the `d` little-endian binary digits of `x` gives `x` back
/// whenever `x` fits in `d` digits.
pub proof fn lemma_bits_round_trip(x: nat, d: nat)
    requires
        x < two_pow(d),
    ensures
        decode_bits(bits_le(x, d)) == x,
{
    lemma_decode_low_bits(x, d);
    lemma_small_mod(x, two_pow(d));
}

/// Every index below `size` survives binary expansion with
/// `digits_needed(size)` digits.
pub proof fn lemma_binary_round_trip(size: nat, x: nat)
    requires
        x < size,
    ensures
        decode_bits(bits_le(x, ceil_log2(size))) == x,
{
    lemma_ceil_log2_bounds(size);
    lemma_bits_round_trip(x, ceil_log2(size));
}

/// Replaces each value by its `digits_needed(size)` low binary digits, least
/// significant first.
pub fn convert_binary(seq: &Vec<u64>, size: u64) -> (r: Vec<u64>)
    ensures
        r@ == binary_digits(seq@, ceil_log2(size as nat)),
{
    let d = digits_needed(size);
    let mut r: Vec<u64> = Vec::new();
    let mut i: usize = 0;
    assert(seq@.take(0) =~= Seq::<u64>::empty());
    while i < seq.len()
        invariant
            i <= seq.len(),
            d == ceil_log2(size as nat),
            r@ == binary_digits(seq@.take(i as int), d as nat),
        decreases seq.len() - i,
    {
        let ghost done = r@;
        let mut x: u64 = seq[i];
        let mut j: u64 = 0;
        assert(bits_le(seq[i as int] as nat, 0) =~= Seq::<u64>::empty());
        assert(done + bits_le(seq[i as int] as nat, 0) =~= done);
        while j < d
            invariant
                j <= d,
                r@ == done + bits_le(seq[i as int] as nat, j as nat),
                x == seq[i as int] as nat / two_pow(j as nat),
            decreases d - j,
        {
            proof {
                lemma_two_pow_positive(j as nat);
                lemma_div_denominator(seq[i as int] as int, two_pow(j as nat) as int, 2);
                assert(two_pow((j + 1) as nat) == two_pow(j as nat) * 2);
            }
            r.push(x % 2);
            x = x / 2;
            j = j + 1;
            assert(bits_le(seq[i as int] as nat, j as nat) =~= bits_le(
                seq[i as int] as nat,
                (j - 1) as nat,
            ).push(bit_of(seq[i as int] as nat, (j - 1) as nat) as u64));
        }
        assert(seq@.take(i + 1).drop_last() =~= seq@.take(i as int));
        i = i + 1;
    }
    assert(seq@.take(seq.len() as int) =~= seq@);
    r
}

} // verus!
