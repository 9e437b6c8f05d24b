use vstd::prelude::*;

use crate::config::{Encoding, MAX_GROUP_SIZE};
use crate::permutation::identity_perm;
use crate::random::{choose_window, draw_below, shuffle_values};
use rand::rngs::ThreadRng;

verus! {

/// A window `(shift, size)` fits in a group of order `m`.
pub open spec fn window_fits(w: (u64, u64), m: u64) -> bool {
    w.1 > 0 && w.0 + w.1 <= m
}

/// A code moved into the window `w` of a group of order `m`.
pub open spec fn shifted(code: u64, w: (u64, u64), m: u64, enc: Encoding) -> int {
    if enc == Encoding::Elementary {
        w.0 + code % w.1
    } else {
        code + w.0 * (m + 1)
    }
}

/// `out` is `code` moved into one of `windows`.
pub open spec fn shifted_into_some(code: u64, out: u64, windows: Seq<(u64, u64)>, m: u64, enc: Encoding) -> bool {
    exists|w: (u64, u64)| #[trigger] windows.contains(w) && out == shifted(code, w, m, enc)
}

/// Moves one code into the window `w`: `shift + code % size` for elementary
/// codes, `code + shift * (m + 1)` for the others.
pub fn shift_code(code: u64, w: (u64, u64), m: u64, enc: Encoding) -> (r: u64)
    requires
        window_fits(w, m),
        m <= MAX_GROUP_SIZE,
        code < m * m,
    ensures
        r == shifted(code, w, m, enc),
        enc == Encoding::Elementary ==> r < m,
{
    match enc {
        Encoding::Elementary => w.0 + code % w.1,
        _ => {
            assert(w.0 * (m + 1) <= 2147483648 * 2147483649) by (nonlinear_arith)
                requires
                    w.0 < m <= 2147483648,
            ;
            assert(m * m <= 2147483648 * 2147483648) by (nonlinear_arith)
                requires
                    m <= 2147483648,
            ;
            code + w.0 * (m + 1)
        },
    }
}

/// Moves each code into a window picked at random from `windows`.
pub fn shift_sequence(seq: &Vec<u64>, windows: &Vec<(u64, u64)>, m: u64, enc: Encoding, rng: &mut ThreadRng) -> (r: Vec<u64>)
    requires
        windows.len() > 0,
        forall|k: int| 0 <= k < windows.len() ==> window_fits(#[trigger] windows[k], m),
        m <= MAX_GROUP_SIZE,
        forall|i: int| 0 <= i < seq.len() ==> #[trigger] seq[i] < m * m,
    ensures
        r.len() == seq.len(),
        forall|i: int|
            0 <= i < seq.len() ==> shifted_into_some(seq[i], #[trigger] r[i], windows@, m, enc),
{
    let mut r: Vec<u64> = Vec::new();
    let mut i: usize = 0;
    while i < seq.len()
        invariant
            i <= seq.len(),
            r.len() == i,
            windows.len() > 0,
            forall|k: int| 0 <= k < windows.len() ==> window_fits(#[trigger] windows[k], m),
            m <= MAX_GROUP_SIZE,
            forall|k: int| 0 <= k < seq.len() ==> #[trigger] seq[k] < m * m,
            forall|k: int|
                0 <= k < i ==> shifted_into_some(seq[k], #[trigger] r[k], windows@, m, enc),
        decreases seq.len() - i,
    {
        let w = choose_window(rng, windows);
        let ghost k = choose|k: int| 0 <= k < windows.len() && windows@[k] == w;
        assert(window_fits(windows[k], m));
        let c = shift_code(seq[i], w, m, enc);
        r.push(c);
        assert(windows@.contains(w) && r[i as int] == shifted(seq[i as int], w, m, enc));
        i = i + 1;
    }
    r
}

/// `labels` renames every index below `m` to an index below `m`, bijectively.
pub open spec fn is_relabelling(labels: Seq<u64>, m: u64) -> bool {
    labels.to_multiset() == identity_perm(m as nat).to_multiset()
}

/// A code `x * m + y` renamed to `labels[x] * m + labels[y]`.
pub open spec fn relabelled(code: u64, labels: Seq<u64>, m: u64) -> int {
    labels[(code / m) as int] * m + labels[(code % m) as int]
}

/// A relabelling drawn at random: the indices `0..m` in shuffled order.
pub fn draw_relabelling(m: u64, rng: &mut ThreadRng) -> (r: Vec<u64>)
    ensures
        r.len() == m,
        is_relabelling(r@, m),
        forall|k: int| 0 <= k < r.len() ==> #[trigger] r[k] < m,
{
    let mut labels: Vec<u64> = Vec::new();
    let mut i: u64 = 0;
    while i < m
        invariant
            i <= m,
            labels@ == Seq::new(i as nat, |k: int| k as u64),
        decreases m - i,
    {
        labels.push(i);
        i = i + 1;
    }
    assert(labels@ =~= identity_perm(m as nat));
    let ghost before = labels@;
    shuffle_values(rng, &mut labels);
    proof {
        broadcast use vstd::seq_lib::group_to_multiset_ensures;

        assert(labels@.len() == labels@.to_multiset().len());
        assert(before.len() == before.to_multiset().len());

        assert forall|k: int| 0 <= k < labels.len() implies #[trigger] labels[k] < m by {
            assert(labels@.contains(labels@[k]));
            assert(labels@.to_multiset().count(labels@[k]) > 0);
            assert(before.contains(labels@[k]));
        }
    }
    labels
}

/// Renames both indices of every code through `labels`.
pub fn relabel_with(seq: &Vec<u64>, labels: &Vec<u64>, m: u64) -> (r: Vec<u64>)
    requires
        0 < m <= MAX_GROUP_SIZE,
        labels.len() == m,
        forall|k: int| 0 <= k < labels.len() ==> #[trigger] labels[k] < m,
        forall|i: int| 0 <= i < seq.len() ==> #[trigger] seq[i] < m * m,
    ensures
        r.len() == seq.len(),
        forall|i: int| 0 <= i < seq.len() ==> r[i] == relabelled(#[trigger] seq[i], labels@, m),
        forall|i: int| 0 <= i < r.len() ==> #[trigger] r[i] < m * m,
{
    let mut r: Vec<u64> = Vec::new();
    let mut i: usize = 0;
    while i < seq.len()
        invariant
            i <= seq.len(),
            r.len() == i,
            0 < m <= MAX_GROUP_SIZE,
            labels.len() == m,
            forall|k: int| 0 <= k < labels.len() ==> #[trigger] labels[k] < m,
            forall|k: int| 0 <= k < seq.len() ==> #[trigger] seq[k] < m * m,
            forall|k: int| 0 <= k < i ==> r[k] == relabelled(#[trigger] seq[k], labels@, m),
            forall|k: int| 0 <= k < i ==> #[trigger] r[k] < m * m,
        decreases seq.len() - i,
    {
        let c = seq[i];
        let x = c / m;
        let y = c % m;
        assert(x < m) by (nonlinear_arith)
            requires
                c < m * m,
                x == c / m,
                m > 0,
        ;
        let nx = labels[x as usize];
        let ny = labels[y as usize];
        assert(nx * m + ny < m * m) by (nonlinear_arith)
            requires
                nx < m,
                ny < m,
        {
            assert(nx * m <= (m - 1) * m);
        }
        assert(m * m <= 2147483648 * 2147483648) by (nonlinear_arith)
            requires
                m <= 2147483648,
        ;
        r.push(nx * m + ny);
        i = i + 1;
    }
    r
}

/// Renames the indices of every code through one relabelling drawn at random.
pub fn relabel_sequence(seq: &Vec<u64>, m: u64, rng: &mut ThreadRng) -> (r: Vec<u64>)
    requires
        0 < m <= MAX_GROUP_SIZE,
        forall|i: int| 0 <= i < seq.len() ==> #[trigger] seq[i] < m * m,
    ensures
        r.len() == seq.len(),
        exists|labels: Seq<u64>|
            #[trigger] is_relabelling(labels, m) && forall|i: int|
                0 <= i < seq.len() ==> r[i] == relabelled(#[trigger] seq[i], labels, m),
        forall|i: int| 0 <= i < r.len() ==> #[trigger] r[i] < m * m,
{
    let labels = draw_relabelling(m, rng);
    let r = relabel_with(seq, &labels, m);
    assert(is_relabelling(labels@, m));
    r
}

} // verus!
