use perm_data_gen::config::{Config, ConfigError, Encoding, Window};

fn base() -> Config {
    Config {
        group_size: 5,
        max_group_size: 0,
        max_length: 10,
        encoding: Encoding::Elementary,
        scaling: false,
        window: Window::Unconfined,
        relabeling: false,
        dataset_size: 100,
        identities_needed: 40,
        worker_count: 4,
    }
}

#[test]
fn valid_configuration_passes() {
    assert_eq!(base().validate(), Ok(()));
    let c = Config {
        scaling: true,
        max_group_size: 12,
        identities_needed: 0,
        window: Window::Fixed { count: 5 },
        ..base()
    };
    assert_eq!(c.validate(), Ok(()));
}

#[test]
fn each_rule_is_reported() {
    let cases = [
        (Config { group_size: 0, ..base() }, ConfigError::GroupSizeOutOfRange),
        (Config { group_size: 2147483649, ..base() }, ConfigError::GroupSizeOutOfRange),
        (
            Config { scaling: true, identities_needed: 0, ..base() },
            ConfigError::MaxGroupSizeOutOfRange,
        ),
        (
            Config { scaling: true, max_group_size: 4, identities_needed: 0, ..base() },
            ConfigError::GroupLargerThanMax,
        ),
        (Config { worker_count: 0, ..base() }, ConfigError::NoWorkers),
        (Config { identities_needed: 104, ..base() }, ConfigError::QuotaExceedsDataset),
        (Config { identities_needed: 42, ..base() }, ConfigError::WorkersDoNotDivideQuota),
        (
            Config { scaling: true, max_group_size: 8, ..base() },
            ConfigError::ScalingWithIdentities,
        ),
        (
            Config { window: Window::Partition, relabeling: true, ..base() },
            ConfigError::WindowWithRelabeling,
        ),
        (Config { relabeling: true, ..base() }, ConfigError::RelabelingWithElementary),
        (
            Config { window: Window::Fixed { count: 2 }, ..base() },
            ConfigError::WindowCountDoesNotDivide,
        ),
        (
            Config { window: Window::Fixed { count: 0 }, ..base() },
            ConfigError::WindowCountDoesNotDivide,
        ),
        (
            Config { window: Window::Partition, encoding: Encoding::General, ..base() },
            ConfigError::WindowNeedsElementary,
        ),
    ];
    for (c, e) in cases {
        assert_eq!(c.validate(), Err(e));
    }
}

#[test]
fn derived_sizes() {
    let c = base();
    assert_eq!(c.effective_size(), 5);
    assert_eq!(c.digits(), 3);
    assert_eq!(c.identity_share(), 10);
    let c = Config { scaling: true, max_group_size: 17, ..base() };
    assert_eq!(c.effective_size(), 17);
    assert_eq!(c.digits(), 5);
}
