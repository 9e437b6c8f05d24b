use vstd::prelude::*;

use rand::rngs::ThreadRng;

use crate::config::{breaks, Config, ConfigError, Encoding, Window, MAX_GROUP_SIZE};
use crate::encoding::{
    binary_digits, ceil_log2, convert_binary, convert_order, convert_to_separate_indices,
    reordered, split_indices,
};
use crate::partition::{lemma_sizes_nonempty, partition_sizes, partition_window_sizes, weighted_sum};
use crate::permutation::{
    all_in_range, code_in_range, compose, composed, identity_perm, is_identity,
    lemma_zero_codes_identity,
};
use crate::random::draw_below;
use crate::scaling::{
    is_relabelling, relabel_sequence, relabelled, shift_sequence, shifted_into_some, window_fits,
};

verus! {

/// What a valid configuration guarantees about its numbers.
pub proof fn lemma_valid_config(c: Config)
    requires
        c.is_valid(),
    ensures
        0 < c.group_size <= c.effective() <= MAX_GROUP_SIZE,
        c.worker_count > 0,
        c.identities_needed <= c.dataset_size,
        c.identities_needed % c.worker_count == 0,
        c.scaling ==> c.identities_needed == 0,
        c.window != Window::Unconfined ==> c.encoding == Encoding::Elementary && !c.relabeling,
        c.relabeling ==> c.encoding != Encoding::Elementary,
        c.window matches Window::Fixed { count } ==> 0 < count <= c.group_size && c.group_size
            % count == 0,
{
    assert(!breaks(c, ConfigError::GroupSizeOutOfRange));
    assert(!breaks(c, ConfigError::MaxGroupSizeOutOfRange));
    assert(!breaks(c, ConfigError::GroupLargerThanMax));
    assert(!breaks(c, ConfigError::NoWorkers));
    assert(!breaks(c, ConfigError::QuotaExceedsDataset));
    assert(!breaks(c, ConfigError::WorkersDoNotDivideQuota));
    assert(!breaks(c, ConfigError::ScalingWithIdentities));
    assert(!breaks(c, ConfigError::WindowWithRelabeling));
    assert(!breaks(c, ConfigError::RelabelingWithElementary));
    assert(!breaks(c, ConfigError::WindowCountDoesNotDivide));
    assert(!breaks(c, ConfigError::WindowNeedsElementary));
    if let Window::Fixed { count } = c.window {
        if count > c.group_size {
            assert(c.group_size % count == c.group_size) by (nonlinear_arith)
                requires
                    0 < c.group_size < count,
            ;
        }
    }
}

/// Codes are drawn from `0..code_bound(c)`.
pub open spec fn code_bound(c: Config) -> int {
    if c.encoding == Encoding::Elementary {
        c.group_size as int
    } else {
        c.group_size * c.group_size
    }
}

/// A code below `m * m` names two indices below `m`.
proof fn lemma_code_in_range(code: u64, m: u64, enc: Encoding)
    requires
        0 < m,
        enc == Encoding::Elementary ==> code < m,
        enc != Encoding::Elementary ==> code < m * m,
    ensures
        code_in_range(code, m, enc),
{
    if enc != Encoding::Elementary {
        assert(code / m < m) by (nonlinear_arith)
            requires
                code < m * m,
                0 < m,
        ;
    }
}

/// Draws `max_length` codes, each uniformly from `0..code_bound(c)`.
pub fn generate_random_sequence(c: &Config, rng: &mut ThreadRng) -> (r: Vec<u64>)
    requires
        c.is_valid(),
    ensures
        r.len() == c.max_length,
        forall|i: int| 0 <= i < r.len() ==> #[trigger] r[i] < code_bound(*c),
{
    proof {
        lemma_valid_config(*c);
        assert(c.group_size * c.group_size <= 2147483648 * 2147483648 && c.group_size * c.group_size > 0)
            by (nonlinear_arith)
            requires
                0 < c.group_size <= 2147483648,
        ;
    }
    let bound = match c.encoding {
        Encoding::Elementary => c.group_size,
        _ => c.group_size * c.group_size,
    };
    let mut r: Vec<u64> = Vec::new();
    let mut i: u64 = 0;
    while i < c.max_length
        invariant
            i <= c.max_length,
            r.len() == i,
            bound == code_bound(*c),
            bound > 0,
            forall|k: int| 0 <= k < r.len() ==> #[trigger] r[k] < code_bound(*c),
        decreases c.max_length - i,
    {
        r.push(draw_below(rng, bound));
        i = i + 1;
    }
    r
}

/// The window sizes of one example: none, `count` windows of size
/// `group_size / count`, or the parts of the partition `p`.
pub open spec fn window_sizes_of(c: Config, p: Seq<u64>) -> Seq<u64> {
    match c.window {
        Window::Unconfined => Seq::empty(),
        Window::Fixed { count } => Seq::new(count as nat, |i: int| c.group_size / count),
        Window::Partition => partition_sizes(p),
    }
}

/// Lays out the window sizes of one example; `partition` is read only for
/// partition windows, and must then be a partition of the group order.
pub fn window_sizes(c: &Config, partition: &Vec<u64>) -> (r: Vec<u64>)
    requires
        c.is_valid(),
        c.window == Window::Partition ==> weighted_sum(partition@) == c.group_size,
    ensures
        r@ == window_sizes_of(*c, partition@),
        forall|j: int| 0 <= j < r.len() ==> 0 < #[trigger] r[j] <= c.group_size,
        c.window != Window::Unconfined ==> r.len() > 0,
{
    proof {
        lemma_valid_config(*c);
    }
    match c.window {
        Window::Unconfined => Vec::new(),
        Window::Fixed { count } => {
            let size = c.group_size / count;
            proof {
                assert(0 < size <= c.group_size) by (nonlinear_arith)
                    requires
                        0 < count <= c.group_size,
                        size == c.group_size / count,
                ;
            }
            let mut r: Vec<u64> = Vec::new();
            let mut i: u64 = 0;
            while i < count
                invariant
                    i <= count,
                    0 < size <= c.group_size,
                    r@ == Seq::new(i as nat, |k: int| size),
                decreases count - i,
            {
                r.push(size);
                i = i + 1;
                assert(r@ =~= Seq::new(i as nat, |k: int| size));
            }
            assert(r@ =~= window_sizes_of(*c, partition@));
            r
        },
        Window::Partition => {
            let r = partition_window_sizes(partition, c.group_size);
            proof {
                lemma_sizes_nonempty(partition@);
            }
            r
        },
    }
}

/// Gives each window size a shift drawn uniformly from the positions where
/// the window fits inside the effective order.
pub fn draw_windows(c: &Config, sizes: &Vec<u64>, rng: &mut ThreadRng) -> (r: Vec<(u64, u64)>)
    requires
        c.is_valid(),
        forall|j: int| 0 <= j < sizes.len() ==> 0 < #[trigger] sizes[j] <= c.group_size,
    ensures
        r.len() == sizes.len(),
        forall|j: int| 0 <= j < r.len() ==> (#[trigger] r[j]).1 == sizes[j],
        forall|j: int| 0 <= j < r.len() ==> window_fits(#[trigger] r[j], c.effective()),
{
    proof {
        lemma_valid_config(*c);
    }
    let m = c.effective_size();
    let mut r: Vec<(u64, u64)> = Vec::new();
    let mut i: usize = 0;
    while i < sizes.len()
        invariant
            i <= sizes.len(),
            r.len() == i,
            m == c.effective(),
            0 < c.group_size <= m,
            forall|j: int| 0 <= j < sizes.len() ==> 0 < #[trigger] sizes[j] <= c.group_size,
            forall|j: int| 0 <= j < r.len() ==> (#[trigger] r[j]).1 == sizes[j],
            forall|j: int| 0 <= j < r.len() ==> window_fits(#[trigger] r[j], m),
        decreases sizes.len() - i,
    {
        let size = sizes[i];
        let shift = draw_below(rng, m - size + 1);
        r.push((shift, size));
        i = i + 1;
    }
    r
}

/// Every code of `s` fits the effective order of `c`: below it for
/// elementary codes, below its square for the others.
pub open spec fn fits_effective(c: Config, s: Seq<u64>) -> bool {
    forall|i: int|
        0 <= i < s.len() ==> if c.encoding == Encoding::Elementary {
            #[trigger] s[i] < c.effective()
        } else {
            s[i] < c.effective() * c.effective()
        }
}

proof fn lemma_fits_in_range(c: Config, s: Seq<u64>)
    requires
        c.is_valid(),
        fits_effective(c, s),
    ensures
        all_in_range(s, c.effective(), c.encoding),
{
    lemma_valid_config(c);
    assert forall|i: int| 0 <= i < s.len() implies code_in_range(
        #[trigger] s[i],
        c.effective(),
        c.encoding,
    ) by {
        lemma_code_in_range(s[i], c.effective(), c.encoding);
    }
}

/// `r` is what the scaling stages can make of `seq` with the windows
/// `windows`: order conversion for non-elementary codes, then a shift of each
/// code into one of the windows when windows are in use, then one relabelling
/// of every code when asked.
pub open spec fn scaled(c: Config, seq: Seq<u64>, windows: Seq<(u64, u64)>, r: Seq<u64>) -> bool {
    &&& r.len() == seq.len()
    &&& fits_effective(c, r)
    &&& (c.window == Window::Unconfined && !c.relabeling && c.encoding == Encoding::Elementary
        ==> r == seq)
    &&& (c.window == Window::Unconfined && !c.relabeling && c.encoding != Encoding::Elementary
        ==> forall|i: int|
        0 <= i < seq.len() ==> r[i] == reordered(#[trigger] seq[i], c.group_size, c.max_group_size))
    &&& (c.window != Window::Unconfined ==> forall|i: int|
        0 <= i < seq.len() ==> shifted_into_some(seq[i], #[trigger] r[i], windows, c.effective(), c.encoding))
    &&& (c.relabeling ==> exists|labels: Seq<u64>|
        #[trigger] is_relabelling(labels, c.effective()) && forall|i: int|
            0 <= i < seq.len() ==> r[i] == relabelled(
                reordered(#[trigger] seq[i], c.group_size, c.max_group_size) as u64,
                labels,
                c.effective(),
            ))
}

/// The scaling stages, in order: order conversion for non-elementary codes,
/// then the window shift when windows are in use, then relabeling when asked.
pub fn scale_sequence(c: &Config, seq: &Vec<u64>, windows: &Vec<(u64, u64)>, rng: &mut ThreadRng) -> (r: Vec<u64>)
    requires
        c.is_valid(),
        c.scaling,
        forall|i: int| 0 <= i < seq.len() ==> #[trigger] seq[i] < code_bound(*c),
        forall|j: int| 0 <= j < windows.len() ==> window_fits(#[trigger] windows[j], c.effective()),
        c.window != Window::Unconfined ==> windows.len() > 0,
    ensures
        scaled(*c, seq@, windows@, r@),
{
    proof {
        lemma_valid_config(*c);
    }
    let m = c.effective_size();
    let g = c.group_size;
    let mut s = match c.encoding {
        Encoding::Elementary => seq.clone(),
        _ => convert_order(seq, g, m),
    };
    proof {
        if c.encoding == Encoding::Elementary {
            assert(s@ =~= seq@);
        }
        assert forall|i: int| 0 <= i < s.len() implies #[trigger] s[i] < m * m by {
            if c.encoding == Encoding::Elementary {
                assert(s[i] == seq[i]);
                assert(g <= m * m) by (nonlinear_arith)
                    requires
                        0 < g <= m,
                ;
            }
        }
    }
    assert(fits_effective(*c, s@));
    let ghost converted = s@;
    if !matches!(c.window, Window::Unconfined) {
        s = shift_sequence(&s, windows, m, c.encoding, rng);
        assert(converted =~= seq@);
    }
    if c.relabeling {
        s = relabel_sequence(&s, m, rng);
        proof {
            let labels = choose|labels: Seq<u64>|
                #[trigger] is_relabelling(labels, m) && forall|i: int|
                    0 <= i < converted.len() ==> s[i] == relabelled(
                        #[trigger] converted[i],
                        labels,
                        m,
                    );
            assert forall|i: int| 0 <= i < seq.len() implies s[i] == relabelled(
                reordered(#[trigger] seq[i], c.group_size, c.max_group_size) as u64,
                labels,
                m,
            ) by {
                assert(converted[i] == reordered(seq[i], c.group_size, c.max_group_size));
            }
        }
    }
    s
}

/// The training record of the codes `s`: the codes themselves, their index
/// pairs, or the binary digits of their index pairs.
pub open spec fn encoded(c: Config, s: Seq<u64>) -> Seq<u64> {
    match c.encoding {
        Encoding::Hybrid => split_indices(s, c.effective()),
        Encoding::Binary => binary_digits(
            split_indices(s, c.effective()),
            ceil_log2(c.effective() as nat),
        ),
        _ => s,
    }
}

/// Writes the codes in the form that the encoding records them.
pub fn encode_record(c: &Config, codes: &Vec<u64>) -> (r: Vec<u64>)
    requires
        c.is_valid(),
    ensures
        r@ == encoded(*c, codes@),
{
    proof {
        lemma_valid_config(*c);
    }
    match c.encoding {
        Encoding::Hybrid => convert_to_separate_indices(codes, c.effective_size()),
        Encoding::Binary => {
            let pairs = convert_to_separate_indices(codes, c.effective_size());
            convert_binary(&pairs, c.effective_size())
        },
        _ => {
            let r = codes.clone();
            assert(r@ =~= codes@);
            r
        },
    }
}

/// One generated example: the codes that were composed, the record written
/// out for them, and, when scaling or sampling identities, their permutation.
#[derive(Debug)]
pub struct Example {
    pub codes: Vec<u64>,
    pub record: Vec<u64>,
    pub permutation: Option<Vec<u64>>,
}

/// `ex` is consistent with the configuration `c`: its record encodes its
/// codes, and its permutation, if any, is their composition.
pub open spec fn example_of(c: Config, ex: Example) -> bool {
    &&& ex.codes.len() == c.max_length
    &&& all_in_range(ex.codes@, c.effective(), c.encoding)
    &&& ex.record@ == encoded(c, ex.codes@)
    &&& (ex.permutation matches Some(p) ==> p@ == composed(ex.codes@, c.effective(), c.encoding))
}

/// Composes codes already known to be in range.
fn compose_valid(c: &Config, codes: &Vec<u64>) -> (r: Vec<u64>)
    requires
        all_in_range(codes@, c.effective(), c.encoding),
    ensures
        r@ == composed(codes@, c.effective(), c.encoding),
        r.len() == c.effective(),
{
    match compose(codes, c.effective_size(), c.encoding) {
        Ok(p) => p,
        Err(_) => {
            assert(false);
            Vec::new()
        },
    }
}

/// `raw` is a possible draw of `generate_random_sequence`.
pub open spec fn drawn(c: Config, raw: Seq<u64>) -> bool {
    &&& raw.len() == c.max_length
    &&& forall|i: int| 0 <= i < raw.len() ==> #[trigger] raw[i] < code_bound(c)
}

/// `windows` gives each of `sizes` a shift at which it fits in the effective
/// order.
pub open spec fn windows_for(c: Config, sizes: Seq<u64>, windows: Seq<(u64, u64)>) -> bool {
    &&& windows.len() == sizes.len()
    &&& forall|j: int| 0 <= j < windows.len() ==> (#[trigger] windows[j]).1 == sizes[j]
    &&& forall|j: int| 0 <= j < windows.len() ==> window_fits(#[trigger] windows[j], c.effective())
}

/// Generates one example for the general part of the dataset: a random
/// sequence, put through the scaling stages when scaling, and recorded in the
/// configured encoding. `partition` is read only for partition windows.
pub fn generate_example(c: &Config, partition: &Vec<u64>, rng: &mut ThreadRng) -> (r: Example)
    requires
        c.is_valid(),
        c.window == Window::Partition ==> weighted_sum(partition@) == c.group_size,
    ensures
        example_of(*c, r),
        r.permutation is Some <==> c.scaling,
        !c.scaling ==> drawn(*c, r.codes@),
        c.scaling ==> exists|raw: Seq<u64>, windows: Seq<(u64, u64)>|
            #[trigger] scaled(*c, raw, windows, r.codes@) && drawn(*c, raw) && windows_for(
                *c,
                window_sizes_of(*c, partition@),
                windows,
            ),
{
    proof {
        lemma_valid_config(*c);
    }
    let raw = generate_random_sequence(c, rng);
    if c.scaling {
        let sizes = window_sizes(c, partition);
        let windows = draw_windows(c, &sizes, rng);
        let codes = scale_sequence(c, &raw, &windows, rng);
        proof {
            lemma_fits_in_range(*c, codes@);
            assert(scaled(*c, raw@, windows@, codes@) && drawn(*c, raw@) && windows_for(
                *c,
                window_sizes_of(*c, partition@),
                windows@,
            ));
        }
        let record = encode_record(c, &codes);
        let perm = compose_valid(c, &codes);
        Example { codes, record, permutation: Some(perm) }
    } else {
        proof {
            assert forall|i: int| 0 <= i < raw.len() implies code_in_range(
                #[trigger] raw[i],
                c.effective(),
                c.encoding,
            ) by {
                lemma_code_in_range(raw[i], c.effective(), c.encoding);
            }
        }
        let record = encode_record(c, &raw);
        Example { codes: raw, record, permutation: None }
    }
}

/// An example whose codes compose to the identity.
pub open spec fn is_identity_example(c: Config, ex: Example) -> bool {
    &&& example_of(c, ex)
    &&& ex.permutation matches Some(p) && p@ == identity_perm(c.effective() as nat)
}

/// Every draw composes to the identity: there are no codes to draw, or `0` is
/// the only code.
pub open spec fn identity_certain(c: Config) -> bool {
    c.max_length == 0 || code_bound(c) == 1
}

proof fn lemma_identity_certain(c: Config, raw: Seq<u64>)
    requires
        identity_certain(c),
        drawn(c, raw),
    ensures
        composed(raw, c.effective(), c.encoding) == identity_perm(c.effective() as nat),
{
    lemma_zero_codes_identity(raw, c.effective(), c.encoding);
}

/// Keeps a drawn sequence as an identity example exactly when its codes
/// compose to the identity.
pub fn identity_example(c: &Config, raw: Vec<u64>) -> (r: Option<Example>)
    requires
        c.is_valid(),
        drawn(*c, raw@),
    ensures
        r is Some <==> composed(raw@, c.effective(), c.encoding) == identity_perm(
            c.effective() as nat,
        ),
        r matches Some(ex) ==> ex.codes@ == raw@ && is_identity_example(*c, ex),
{
    proof {
        lemma_valid_config(*c);
        assert forall|i: int| 0 <= i < raw.len() implies code_in_range(
            #[trigger] raw[i],
            c.effective(),
            c.encoding,
        ) by {
            if c.encoding != Encoding::Elementary {
                assert(raw[i] < c.effective() * c.effective()) by (nonlinear_arith)
                    requires
                        raw[i] < c.group_size * c.group_size,
                        0 < c.group_size <= c.effective(),
                ;
            }
            lemma_code_in_range(raw[i], c.effective(), c.encoding);
        }
    }
    let perm = compose_valid(c, &raw);
    if is_identity(&perm) {
        let record = encode_record(c, &raw);
        Some(Example { codes: raw, record, permutation: Some(perm) })
    } else {
        None
    }
}

/// One worker's share of the identity sampling: draws raw sequences until
/// `count` of them compose to the identity or `max_attempts` draws have been
/// made. Returns those found, in the order they were drawn, and the number of
/// draws made.
pub fn sample_identities(c: &Config, count: u64, max_attempts: u64, rng: &mut ThreadRng) -> (r: (Vec<Example>, u64))
    requires
        c.is_valid(),
    ensures
        r.1 <= max_attempts,
        r.0.len() <= count,
        r.0.len() <= r.1,
        r.0.len() == count || r.1 == max_attempts,
        identity_certain(*c) ==> r.0.len() == if count < max_attempts {
            count
        } else {
            max_attempts
        },
        forall|k: int| 0 <= k < r.0.len() ==> is_identity_example(*c, #[trigger] r.0[k]),
{
    let mut found: Vec<Example> = Vec::new();
    let mut attempts: u64 = 0;
    while attempts < max_attempts && (found.len() as u64) < count
        invariant
            attempts <= max_attempts,
            found.len() <= count,
            found.len() <= attempts,
            c.is_valid(),
            identity_certain(*c) ==> found.len() == attempts,
            forall|k: int| 0 <= k < found.len() ==> is_identity_example(*c, #[trigger] found[k]),
        decreases max_attempts - attempts,
    {
        let raw = generate_random_sequence(c, rng);
        proof {
            if identity_certain(*c) {
                lemma_identity_certain(*c, raw@);
            }
        }
        if let Some(ex) = identity_example(c, raw) {
            found.push(ex);
        }
        attempts = attempts + 1;
    }
    (found, attempts)
}

} // verus!
