use vstd::prelude::*;

use crate::encoding::{ceil_log2, digits_needed};

verus! {

/// Largest group order accepted: the machine limit at which every code of a
/// group, below `m * m`, and every shifted code, below `2 * m * m + m`, still
/// fit in `u64`.
pub const MAX_GROUP_SIZE: u64 = 2147483648;

/// How a transposition code names the two positions it swaps.
#[derive(Clone, Copy, Debug, PartialEq, Eq, Structural)]
pub enum Encoding {
    /// Code `c` swaps the neighbours `c` and `c - 1`.
    Elementary,
    /// Code `c` swaps `c / n` and `c % n`.
    General,
    /// As `General`, written out as the two indices.
    Hybrid,
    /// As `Hybrid`, with each index written as little-endian bits.
    Binary,
}

/// How the windows that confine each swap are laid out.
#[derive(Clone, Copy, Debug, PartialEq, Eq, Structural)]
pub enum Window {
    /// No windows: swaps range over the whole group.
    Unconfined,
    /// `count` windows of equal size tiling the group.
    Fixed { count: u64 },
    /// Windows sized by a random partition of the group order.
    Partition,
}

/// The settings of one generation run. `identities_needed` is the number of
/// examples that must compose to the identity, the rounded product of the
/// dataset size and the identity proportion.
#[derive(Clone, Copy, Debug)]
pub struct Config {
    pub group_size: u64,
    pub max_group_size: u64,
    pub max_length: u64,
    pub encoding: Encoding,
    pub scaling: bool,
    pub window: Window,
    pub relabeling: bool,
    pub dataset_size: u64,
    pub identities_needed: u64,
    pub worker_count: u64,
}

/// A combination of settings that no run can use.
#[derive(Clone, Copy, Debug, PartialEq, Eq, Structural)]
pub enum ConfigError {
    /// The group order is zero or above `MAX_GROUP_SIZE`.
    GroupSizeOutOfRange,
    /// Scaling asks for a future order that is zero or above `MAX_GROUP_SIZE`.
    MaxGroupSizeOutOfRange,
    /// Scaling asks for a future order below the group order.
    GroupLargerThanMax,
    /// No worker to sample identities.
    NoWorkers,
    /// More identity examples than examples in all.
    QuotaExceedsDataset,
    /// The identity quota cannot be split evenly between the workers.
    WorkersDoNotDivideQuota,
    /// Scaling runs make no identity examples.
    ScalingWithIdentities,
    /// Windows and relabeling cannot be combined.
    WindowWithRelabeling,
    /// Relabeling needs codes that name two arbitrary indices.
    RelabelingWithElementary,
    /// A fixed window count must be positive and divide the group order.
    WindowCountDoesNotDivide,
    /// Windows need elementary codes.
    WindowNeedsElementary,
}

/// Whether `c` breaks the rule that `e` reports.
pub open spec fn breaks(c: Config, e: ConfigError) -> bool {
    match e {
        ConfigError::GroupSizeOutOfRange => c.group_size == 0 || c.group_size > MAX_GROUP_SIZE,
        ConfigError::MaxGroupSizeOutOfRange => c.scaling && (c.max_group_size == 0
            || c.max_group_size > MAX_GROUP_SIZE),
        ConfigError::GroupLargerThanMax => c.scaling && c.group_size > c.max_group_size,
        ConfigError::NoWorkers => c.worker_count == 0,
        ConfigError::QuotaExceedsDataset => c.identities_needed > c.dataset_size,
        ConfigError::WorkersDoNotDivideQuota => c.worker_count > 0 && c.identities_needed
            % c.worker_count != 0,
        ConfigError::ScalingWithIdentities => c.scaling && c.identities_needed > 0,
        ConfigError::WindowWithRelabeling => c.window != Window::Unconfined && c.relabeling,
        ConfigError::RelabelingWithElementary => c.relabeling && c.encoding
            == Encoding::Elementary,
        ConfigError::WindowCountDoesNotDivide => match c.window {
            Window::Fixed { count } => count == 0 || c.group_size % count != 0,
            _ => false,
        },
        ConfigError::WindowNeedsElementary => c.window != Window::Unconfined && c.encoding
            != Encoding::Elementary,
    }
}

/// The order in which the rules are checked.
pub open spec fn rule_rank(e: ConfigError) -> nat {
    match e {
        ConfigError::GroupSizeOutOfRange => 0,
        ConfigError::MaxGroupSizeOutOfRange => 1,
        ConfigError::GroupLargerThanMax => 2,
        ConfigError::NoWorkers => 3,
        ConfigError::QuotaExceedsDataset => 4,
        ConfigError::WorkersDoNotDivideQuota => 5,
        ConfigError::ScalingWithIdentities => 6,
        ConfigError::WindowWithRelabeling => 7,
        ConfigError::RelabelingWithElementary => 8,
        ConfigError::WindowCountDoesNotDivide => 9,
        ConfigError::WindowNeedsElementary => 10,
    }
}

impl Config {
    /// The settings break none of the rules of `ConfigError`.
    pub open spec fn is_valid(self) -> bool {
        forall|e: ConfigError| !#[trigger] breaks(self, e)
    }

    /// The order that swap indices are decoded in: the future order when
    /// scaling, the group order otherwise.
    pub open spec fn effective(self) -> u64 {
        if self.scaling {
            self.max_group_size
        } else {
            self.group_size
        }
    }

    pub fn effective_size(&self) -> (r: u64)
        ensures
            r == self.effective(),
    {
        if self.scaling {
            self.max_group_size
        } else {
            self.group_size
        }
    }

    /// Binary digits needed for each index below the effective order.
    pub fn digits(&self) -> (r: u64)
        ensures
            r == ceil_log2(self.effective() as nat),
    {
        digits_needed(self.effective_size())
    }

    /// Identity examples that each worker must produce.
    pub fn identity_share(&self) -> (r: u64)
        requires
            self.worker_count > 0,
        ensures
            r == self.identities_needed / self.worker_count,
    {
        self.identities_needed / self.worker_count
    }

    /// Checks the settings against every rule, reporting the first broken one.
    pub fn validate(&self) -> (r: Result<(), ConfigError>)
        ensures
            r is Ok <==> self.is_valid(),
            r matches Err(e) ==> breaks(*self, e),
            r matches Err(e) ==> forall|f: ConfigError|
                rule_rank(f) < rule_rank(e) ==> !#[trigger] breaks(*self, f),
    {
        let c = *self;
        let e = if c.group_size == 0 || c.group_size > MAX_GROUP_SIZE {
            ConfigError::GroupSizeOutOfRange
        } else if c.scaling && (c.max_group_size == 0 || c.max_group_size > MAX_GROUP_SIZE) {
            ConfigError::MaxGroupSizeOutOfRange
        } else if c.scaling && c.group_size > c.max_group_size {
            ConfigError::GroupLargerThanMax
        } else if c.worker_count == 0 {
            ConfigError::NoWorkers
        } else if c.identities_needed > c.dataset_size {
            ConfigError::QuotaExceedsDataset
        } else if c.identities_needed % c.worker_count != 0 {
            ConfigError::WorkersDoNotDivideQuota
        } else if c.scaling && c.identities_needed > 0 {
            ConfigError::ScalingWithIdentities
        } else if !matches!(c.window, Window::Unconfined) && c.relabeling {
            ConfigError::WindowWithRelabeling
        } else if c.relabeling && matches!(c.encoding, Encoding::Elementary) {
            ConfigError::RelabelingWithElementary
        } else if match c.window {
            Window::Fixed { count } => count == 0 || c.group_size % count != 0,
            _ => false,
        } {
            ConfigError::WindowCountDoesNotDivide
        } else if !matches!(c.window, Window::Unconfined) && !matches!(
            c.encoding,
            Encoding::Elementary
        ) {
            ConfigError::WindowNeedsElementary
        } else {
            assert forall|e: ConfigError| !#[trigger] breaks(c, e) by {
                match e {
                    ConfigError::WindowCountDoesNotDivide => {},
                    _ => {},
                }
            }
            return Ok(());
        };
        assert(breaks(c, e));
        Err(e)
    }
}

} // verus!
