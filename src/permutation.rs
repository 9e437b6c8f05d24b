use vstd::prelude::*;

use crate::config::Encoding;

verus! {

/// The identity map on `n` positions.
pub open spec fn identity_perm(n: nat) -> Seq<u64> {
    Seq::new(n, |i: int| i as u64)
}

/// The two positions that a nonzero code swaps on `size` positions.
pub open spec fn swap_pair(code: u64, size: u64, enc: Encoding) -> (int, int) {
    if enc == Encoding::Elementary {
        (code as int, code - 1)
    } else {
        ((code / size) as int, (code % size) as int)
    }
}

/// Code `0` is a no-op; any other code must name two positions below `size`.
pub open spec fn code_in_range(code: u64, size: u64, enc: Encoding) -> bool {
    code == 0 || (size > 0 && 0 <= swap_pair(code, size, enc).0 < size && 0
        <= swap_pair(code, size, enc).1 < size)
}

pub open spec fn all_in_range(codes: Seq<u64>, size: u64, enc: Encoding) -> bool {
    forall|i: int| 0 <= i < codes.len() ==> code_in_range(#[trigger] codes[i], size, enc)
}

pub open spec fn swap_at(p: Seq<u64>, x: int, y: int) -> Seq<u64> {
    p.update(x, p[y]).update(y, p[x])
}

/// The effect of one code on a permutation.
pub open spec fn apply_code(p: Seq<u64>, code: u64, size: u64, enc: Encoding) -> Seq<u64> {
    if code == 0 {
        p
    } else {
        swap_at(p, swap_pair(code, size, enc).0, swap_pair(code, size, enc).1)
    }
}

/// The permutation obtained by applying `codes` from left to right to the
/// identity on `size` positions.
pub open spec fn composed(codes: Seq<u64>, size: u64, enc: Encoding) -> Seq<u64>
    decreases codes.len(),
{
    if codes.len() == 0 {
        identity_perm(size as nat)
    } else {
        apply_code(composed(codes.drop_last(), size, enc), codes.last(), size, enc)
    }
}

/// A code that names a position outside the permutation.
#[derive(Clone, Copy, Debug, PartialEq, Eq, Structural)]
pub enum EncodingError {
    OutOfRangeCode { position: usize, code: u64 },
}

/// Composes `codes` into a permutation of `size` positions, or reports the
/// first code that names a position outside it.
pub fn compose(codes: &Vec<u64>, size: u64, enc: Encoding) -> (r: Result<Vec<u64>, EncodingError>)
    ensures
        r is Ok <==> all_in_range(codes@, size, enc),
        r matches Ok(p) ==> p@ == composed(codes@, size, enc) && p.len() == size,
        r matches Err(EncodingError::OutOfRangeCode { position, code }) ==> {
            &&& position < codes.len()
            &&& codes[position as int] == code
            &&& !code_in_range(code, size, enc)
            &&& all_in_range(codes@.take(position as int), size, enc)
        },
{
    let mut perm: Vec<u64> = Vec::new();
    let mut i: u64 = 0;
    while i < size
        invariant
            i <= size,
            perm@ == Seq::new(i as nat, |k: int| k as u64),
        decreases size - i,
    {
        perm.push(i);
        i = i + 1;
    }
    assert(perm@ =~= identity_perm(size as nat));
    assert(codes@.take(0) =~= Seq::<u64>::empty());
    let mut idx: usize = 0;
    while idx < codes.len()
        invariant
            idx <= codes.len(),
            perm@.len() == size,
            perm@ == composed(codes@.take(idx as int), size, enc),
            all_in_range(codes@.take(idx as int), size, enc),
        decreases codes.len() - idx,
    {
        let code = codes[idx];
        let ghost before = perm@;
        assert(codes@.take(idx + 1).drop_last() =~= codes@.take(idx as int));
        assert(codes@.take(idx + 1).last() == code);
        if code != 0 {
            let x: u64;
            let y: u64;
            match enc {
                Encoding::Elementary => {
                    if code >= size {
                        return Err(EncodingError::OutOfRangeCode { position: idx, code });
                    }
                    x = code;
                    y = code - 1;
                },
                _ => {
                    if size == 0 || code / size >= size {
                        return Err(EncodingError::OutOfRangeCode { position: idx, code });
                    }
                    x = code / size;
                    y = code % size;
                },
            }
            assert(x == swap_pair(code, size, enc).0 && y == swap_pair(code, size, enc).1);
            assert(x < perm.len() && y < perm.len());
            let a = perm[x as usize];
            let b = perm[y as usize];
            perm.set(x as usize, b);
            perm.set(y as usize, a);
            assert(perm@ =~= apply_code(before, code, size, enc));
        }
        assert(all_in_range(codes@.take(idx + 1), size, enc)) by {
            assert forall|j: int| 0 <= j < idx + 1 implies code_in_range(
                #[trigger] codes@.take(idx + 1)[j],
                size,
                enc,
            ) by {
                if j < idx {
                    assert(codes@.take(idx + 1)[j] == codes@.take(idx as int)[j]);
                }
            }
        }
        assert(perm@ =~= composed(codes@.take(idx + 1), size, enc));
        idx = idx + 1;
    }
    assert(codes@.take(codes.len() as int) =~= codes@);
    Ok(perm)
}

/// `codes` applied from left to right to the permutation `p`.
pub open spec fn applied(p: Seq<u64>, codes: Seq<u64>, size: u64, enc: Encoding) -> Seq<u64>
    decreases codes.len(),
{
    if codes.len() == 0 {
        p
    } else {
        apply_code(applied(p, codes.drop_last(), size, enc), codes.last(), size, enc)
    }
}

proof fn lemma_composed_is_applied(codes: Seq<u64>, size: u64, enc: Encoding)
    ensures
        composed(codes, size, enc) == applied(identity_perm(size as nat), codes, size, enc),
    decreases codes.len(),
{
    if codes.len() > 0 {
        lemma_composed_is_applied(codes.drop_last(), size, enc);
    }
}

proof fn lemma_applied_concat(p: Seq<u64>, a: Seq<u64>, b: Seq<u64>, size: u64, enc: Encoding)
    ensures
        applied(p, a + b, size, enc) == applied(applied(p, a, size, enc), b, size, enc),
    decreases b.len(),
{
    if b.len() == 0 {
        assert(a + b =~= a);
    } else {
        assert((a + b).drop_last() =~= a + b.drop_last());
        assert((a + b).last() == b.last());
        lemma_applied_concat(p, a, b.drop_last(), size, enc);
    }
}

/// A code applied twice undoes itself.
proof fn lemma_code_twice(p: Seq<u64>, code: u64, size: u64, enc: Encoding)
    requires
        p.len() == size,
        code_in_range(code, size, enc),
    ensures
        apply_code(apply_code(p, code, size, enc), code, size, enc) == p,
{
    if code != 0 {
        let (x, y) = swap_pair(code, size, enc);
        assert(swap_at(swap_at(p, x, y), x, y) =~= p);
    }
}

proof fn lemma_prefix_in_range(codes: Seq<u64>, size: u64, enc: Encoding)
    requires
        all_in_range(codes, size, enc),
        codes.len() > 0,
    ensures
        all_in_range(codes.drop_last(), size, enc),
        code_in_range(codes.last(), size, enc),
{
    assert forall|i: int| 0 <= i < codes.len() - 1 implies code_in_range(
        #[trigger] codes.drop_last()[i],
        size,
        enc,
    ) by {
        assert(codes.drop_last()[i] == codes[i]);
    }
    assert(code_in_range(codes[codes.len() - 1], size, enc));
}

proof fn lemma_applied_len(p: Seq<u64>, codes: Seq<u64>, size: u64, enc: Encoding)
    requires
        p.len() == size,
        all_in_range(codes, size, enc),
    ensures
        applied(p, codes, size, enc).len() == size,
    decreases codes.len(),
{
    if codes.len() > 0 {
        lemma_prefix_in_range(codes, size, enc);
        lemma_applied_len(p, codes.drop_last(), size, enc);
    }
}

proof fn lemma_applied_and_back(p: Seq<u64>, codes: Seq<u64>, size: u64, enc: Encoding)
    requires
        p.len() == size,
        all_in_range(codes, size, enc),
    ensures
        applied(p, codes + codes.reverse(), size, enc) == p,
    decreases codes.len(),
{
    if codes.len() > 0 {
        let rest = codes.drop_last();
        let x = codes.last();
        let twice = seq![x, x];
        lemma_prefix_in_range(codes, size, enc);
        assert(codes + codes.reverse() =~= (rest + twice) + rest.reverse());
        assert(twice.drop_last() =~= seq![x]);
        assert(seq![x].drop_last() =~= Seq::<u64>::empty());
        let q = applied(p, rest, size, enc);
        lemma_applied_concat(p, rest + twice, rest.reverse(), size, enc);
        lemma_applied_concat(p, rest, twice, size, enc);
        lemma_applied_len(p, rest, size, enc);
        lemma_code_twice(q, x, size, enc);
        assert(twice.last() == x);
        let once = seq![x];
        assert(once.len() == 1 && once.last() == x);
        assert(once.drop_last() =~= Seq::<u64>::empty());
        assert(applied(q, once.drop_last(), size, enc) == q);
        assert(applied(q, once, size, enc) == apply_code(q, x, size, enc));
        assert(twice.drop_last() =~= once);
        assert(applied(q, twice, size, enc) == q);
        lemma_applied_concat(p, rest, rest.reverse(), size, enc);
        lemma_applied_and_back(p, rest, size, enc);
    } else {
        assert(codes + codes.reverse() =~= Seq::<u64>::empty());
    }
}

/// Codes followed by the same codes in reverse order compose to the identity:
/// each swap is its own inverse.
pub proof fn lemma_compose_with_reverse(codes: Seq<u64>, size: u64, enc: Encoding)
    requires
        all_in_range(codes, size, enc),
    ensures
        composed(codes + codes.reverse(), size, enc) == identity_perm(size as nat),
{
    lemma_composed_is_applied(codes + codes.reverse(), size, enc);
    lemma_applied_and_back(identity_perm(size as nat), codes, size, enc);
}

/// Codes that are all `0` compose to the identity.
pub proof fn lemma_zero_codes_identity(codes: Seq<u64>, size: u64, enc: Encoding)
    requires
        forall|i: int| 0 <= i < codes.len() ==> #[trigger] codes[i] == 0,
    ensures
        composed(codes, size, enc) == identity_perm(size as nat),
    decreases codes.len(),
{
    if codes.len() > 0 {
        assert(codes[codes.len() - 1] == 0);
        lemma_zero_codes_identity(codes.drop_last(), size, enc);
    }
}

/// Whether every position of `perm` maps to itself.
pub fn is_identity(perm: &Vec<u64>) -> (r: bool)
    ensures
        r == (perm@ == identity_perm(perm.len() as nat)),
{
    let mut i: usize = 0;
    while i < perm.len()
        invariant
            i <= perm.len(),
            forall|k: int| 0 <= k < i ==> perm@[k] == k,
        decreases perm.len() - i,
    {
        if perm[i] != i as u64 {
            assert(perm@[i as int] != identity_perm(perm.len() as nat)[i as int]);
            return false;
        }
        i = i + 1;
    }
    assert(perm@ =~= identity_perm(perm.len() as nat));
    true
}

} // verus!
