use vstd::prelude::*;

use crate::config::MAX_GROUP_SIZE;

verus! {

/// Smallest part, and window, size.
pub const MIN_WINDOW_SIZE: u64 = 3;

/// The total `sum (k + 3) * p[k]` of the multiplicities `p`, where `p[k]`
/// counts the parts of size `k + 3`.
pub open spec fn weighted_sum(p: Seq<u64>) -> nat
    decreases p.len(),
{
    if p.len() == 0 {
        0
    } else {
        (weighted_sum(p.drop_last()) + (p.len() - 1 + MIN_WINDOW_SIZE) * p.last()) as nat
    }
}

/// The parts that the multiplicities `p` stand for, smallest first.
pub open spec fn partition_sizes(p: Seq<u64>) -> Seq<u64>
    decreases p.len(),
{
    if p.len() == 0 {
        Seq::empty()
    } else {
        partition_sizes(p.drop_last()) + Seq::new(
            p.last() as nat,
            |j: int| (p.len() - 1 + MIN_WINDOW_SIZE) as u64,
        )
    }
}

pub open spec fn seq_sum(s: Seq<u64>) -> nat
    decreases s.len(),
{
    if s.len() == 0 {
        0
    } else {
        (seq_sum(s.drop_last()) + s.last()) as nat
    }
}

proof fn lemma_weighted_sum_prefix(p: Seq<u64>, k: int)
    requires
        0 <= k <= p.len(),
    ensures
        weighted_sum(p.take(k)) <= weighted_sum(p),
    decreases p.len(),
{
    if k < p.len() {
        assert(p.drop_last().take(k) =~= p.take(k));
        lemma_weighted_sum_prefix(p.drop_last(), k);
    } else {
        assert(p.take(k) =~= p);
    }
}

/// The part at `k` weighs no more than the whole.
proof fn lemma_weighted_sum_term(p: Seq<u64>, k: int)
    requires
        0 <= k < p.len(),
    ensures
        (k + MIN_WINDOW_SIZE) * p[k] <= weighted_sum(p),
{
    lemma_weighted_sum_prefix(p, k + 1);
    assert(p.take(k + 1).drop_last() =~= p.take(k));
}

/// Whether the multiplicities `sample` make a partition of `g`.
pub fn is_partition_of(sample: &Vec<u64>, g: u64) -> (r: bool)
    requires
        g <= MAX_GROUP_SIZE,
    ensures
        r == (weighted_sum(sample@) == g),
{
    let mut acc: u64 = 0;
    let mut i: usize = 0;
    assert(sample@.take(0) =~= Seq::<u64>::empty());
    while i < sample.len()
        invariant
            i <= sample.len(),
            g <= MAX_GROUP_SIZE,
            acc <= g,
            acc == weighted_sum(sample@.take(i as int)),
        decreases sample.len() - i,
    {
        let c = sample[i];
        assert(sample@.take(i + 1).drop_last() =~= sample@.take(i as int));
        assert(weighted_sum(sample@.take(i + 1)) == weighted_sum(sample@.take(i as int)) + (i
            + MIN_WINDOW_SIZE) * c);
        if c > 0 {
            if i as u64 >= g {
                proof {
                    lemma_weighted_sum_term(sample@, i as int);
                    assert((i + MIN_WINDOW_SIZE) * c >= i + MIN_WINDOW_SIZE) by (nonlinear_arith)
                        requires
                            c > 0,
                    ;
                }
                return false;
            }
            let part = i as u64 + MIN_WINDOW_SIZE;
            let room = g - acc;
            if c > room / part {
                proof {
                    lemma_weighted_sum_prefix(sample@, i + 1);
                    assert(part * c > room) by (nonlinear_arith)
                        requires
                            c > room / part,
                            part > 0,
                    ;
                }
                return false;
            }
            assert(part * c <= room) by (nonlinear_arith)
                requires
                    c <= room / part,
                    part > 0,
            ;
            assert(part * c == (i + MIN_WINDOW_SIZE) * c);
            acc = acc + part * c;
        } else {
            assert((i + MIN_WINDOW_SIZE) * c == 0) by (nonlinear_arith)
                requires
                    c == 0,
            ;
        }
        i = i + 1;
    }
    assert(sample@.take(sample.len() as int) =~= sample@);
    acc == g
}

/// The window sizes that an accepted partition stands for: `p[k]` windows of
/// size `k + 3` for each `k`.
pub fn partition_window_sizes(p: &Vec<u64>, g: u64) -> (r: Vec<u64>)
    requires
        weighted_sum(p@) == g,
        g <= MAX_GROUP_SIZE,
    ensures
        r@ == partition_sizes(p@),
        forall|j: int| 0 <= j < r.len() ==> MIN_WINDOW_SIZE <= #[trigger] r[j] <= g,
{
    let mut r: Vec<u64> = Vec::new();
    let mut k: usize = 0;
    assert(p@.take(0) =~= Seq::<u64>::empty());
    while k < p.len()
        invariant
            k <= p.len(),
            weighted_sum(p@) == g,
            g <= MAX_GROUP_SIZE,
            r@ == partition_sizes(p@.take(k as int)),
            forall|t: int| 0 <= t < r.len() ==> MIN_WINDOW_SIZE <= #[trigger] r[t] <= g,
        decreases p.len() - k,
    {
        let c = p[k];
        let ghost done = r@;
        assert(p@.take(k + 1).drop_last() =~= p@.take(k as int));
        if c > 0 {
            proof {
                lemma_weighted_sum_term(p@, k as int);
                assert(k + MIN_WINDOW_SIZE <= g) by (nonlinear_arith)
                    requires
                        (k + MIN_WINDOW_SIZE) * c <= g,
                        c > 0,
                ;
            }
            let size = k as u64 + MIN_WINDOW_SIZE;
            let mut j: u64 = 0;
            while j < c
                invariant
                    j <= c,
                    r@ == done + Seq::new(j as nat, |t: int| size),
                    MIN_WINDOW_SIZE <= size <= g,
                    forall|t: int| 0 <= t < r.len() ==> MIN_WINDOW_SIZE <= #[trigger] r[t] <= g,
                decreases c - j,
            {
                r.push(size);
                j = j + 1;
                assert(r@ =~= done + Seq::new(j as nat, |t: int| size));
            }
        }
        assert(r@ =~= partition_sizes(p@.take(k + 1)));
        k = k + 1;
    }
    assert(p@.take(p.len() as int) =~= p@);
    r
}

/// A partition of a positive number has at least one part.
pub proof fn lemma_sizes_nonempty(p: Seq<u64>)
    requires
        weighted_sum(p) > 0,
    ensures
        partition_sizes(p).len() > 0,
    decreases p.len(),
{
    if p.last() == 0 {
        assert((p.len() - 1 + MIN_WINDOW_SIZE) * p.last() == 0) by (nonlinear_arith)
            requires
                p.last() == 0,
        ;
        lemma_sizes_nonempty(p.drop_last());
    }
}

proof fn lemma_sum_concat(a: Seq<u64>, b: Seq<u64>)
    ensures
        seq_sum(a + b) == seq_sum(a) + seq_sum(b),
    decreases b.len(),
{
    if b.len() == 0 {
        assert(a + b =~= a);
    } else {
        assert((a + b).drop_last() =~= a + b.drop_last());
        lemma_sum_concat(a, b.drop_last());
    }
}

proof fn lemma_sum_constant(n: nat, v: u64)
    ensures
        seq_sum(Seq::new(n, |j: int| v)) == n * v,
    decreases n,
{
    let s = Seq::new(n, |j: int| v);
    if n > 0 {
        assert(s.drop_last() =~= Seq::new((n - 1) as nat, |j: int| v));
        lemma_sum_constant((n - 1) as nat, v);
        assert(s.last() == v);
        assert(seq_sum(s) == seq_sum(s.drop_last()) + v);
        assert(n * v == (n - 1) * v + v) by (nonlinear_arith)
            requires
                n > 0,
        ;
    } else {
        assert(seq_sum(s) == 0);
    }
}

/// The parts of a partition are all at least three, and they add up to the
/// weighted sum of the multiplicities; for an accepted sample, to the group
/// order.
pub proof fn lemma_partition_parts(p: Seq<u64>)
    requires
        p.len() <= MAX_GROUP_SIZE,
    ensures
        seq_sum(partition_sizes(p)) == weighted_sum(p),
        forall|j: int|
            0 <= j < partition_sizes(p).len() ==> #[trigger] partition_sizes(p)[j] >= MIN_WINDOW_SIZE,
    decreases p.len(),
{
    if p.len() > 0 {
        let size = (p.len() - 1 + MIN_WINDOW_SIZE) as u64;
        let block = Seq::new(p.last() as nat, |j: int| size);
        lemma_partition_parts(p.drop_last());
        lemma_sum_concat(partition_sizes(p.drop_last()), block);
        lemma_sum_constant(p.last() as nat, size);
        assert(size == p.len() - 1 + MIN_WINDOW_SIZE);
        assert(p.last() * size == size * p.last()) by (nonlinear_arith);
        let whole = partition_sizes(p);
        assert forall|j: int| 0 <= j < whole.len() implies #[trigger] whole[j] >= MIN_WINDOW_SIZE by {
            if j >= partition_sizes(p.drop_last()).len() {
                assert(whole[j] == size);
            } else {
                assert(whole[j] == partition_sizes(p.drop_last())[j]);
            }
        }
    }
}

} // verus!
