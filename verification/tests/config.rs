use netsim::config::{ConfigError, DurationRange, Fate, SimulatedNetworkConfig, RATE_SCALE};
use netsim::network::SimulatedNetwork;
use netsim::random::RandomSource;

fn config(drop: u32, short: u32, long: u32) -> SimulatedNetworkConfig {
    SimulatedNetworkConfig {
        drop_rate: drop,
        short_delay_rate: short,
        long_delay_rate: long,
        short_delay_range: DurationRange { start: 1_000_000, end: 5_000_000 },
        long_delay_range: DurationRange { start: 50_000_000, end: 200_000_000 },
    }
}

#[test]
fn rates_may_sum_to_exactly_one() {
    assert_eq!(config(RATE_SCALE, 0, 0).validate(), Ok(()));
    assert_eq!(config(250_000, 250_000, 500_000).validate(), Ok(()));
    assert_eq!(config(0, 0, 0).validate(), Ok(()));
}

#[test]
fn rates_above_one_are_rejected() {
    assert_eq!(config(RATE_SCALE + 1, 0, 0).validate(), Err(ConfigError::RatesExceedOne));
    assert_eq!(config(500_000, 500_000, 1).validate(), Err(ConfigError::RatesExceedOne));
    assert_eq!(config(u32::MAX, u32::MAX, u32::MAX).validate(), Err(ConfigError::RatesExceedOne));
    assert!(matches!(
        SimulatedNetwork::new(config(400_000, 400_000, 400_000), RandomSource::new(0)),
        Err(ConfigError::RatesExceedOne)
    ));
}

#[test]
fn empty_delay_ranges_are_rejected() {
    let mut short = config(0, 0, 0);
    short.short_delay_range = DurationRange { start: 7, end: 7 };
    assert_eq!(short.validate(), Err(ConfigError::EmptyShortDelayRange));
    let mut long = config(0, 0, 0);
    long.long_delay_range = DurationRange { start: 9, end: 3 };
    assert_eq!(long.validate(), Err(ConfigError::EmptyLongDelayRange));
    assert!(matches!(SimulatedNetwork::new(long, RandomSource::new(0)), Err(ConfigError::EmptyLongDelayRange)));
    let mut both = config(RATE_SCALE, 1, 0);
    both.short_delay_range = DurationRange { start: 1, end: 0 };
    assert_eq!(both.validate(), Err(ConfigError::RatesExceedOne));
}

#[test]
fn reliable_configuration_is_valid() {
    let reliable = SimulatedNetworkConfig::reliable();
    assert_eq!(reliable.validate(), Ok(()));
    assert_eq!(reliable.drop_rate + reliable.short_delay_rate + reliable.long_delay_rate, 0);
    let network = SimulatedNetwork::new(reliable, RandomSource::new(3)).unwrap();
    assert_eq!(network.config(), reliable);
}

#[test]
fn classify_partitions_the_samples_in_order() {
    let c = config(100_000, 200_000, 300_000);
    assert_eq!(c.classify(0), Fate::Drop);
    assert_eq!(c.classify(99_999), Fate::Drop);
    assert_eq!(c.classify(100_000), Fate::ShortDelay);
    assert_eq!(c.classify(299_999), Fate::ShortDelay);
    assert_eq!(c.classify(300_000), Fate::LongDelay);
    assert_eq!(c.classify(599_999), Fate::LongDelay);
    assert_eq!(c.classify(600_000), Fate::Immediate);
    assert_eq!(c.classify(RATE_SCALE - 1), Fate::Immediate);
}

#[test]
fn classify_with_zero_rates_is_always_immediate() {
    let c = config(0, 0, 0);
    assert_eq!(c.classify(0), Fate::Immediate);
    assert_eq!(c.classify(RATE_SCALE - 1), Fate::Immediate);
    let only_long = config(0, 0, 10);
    assert_eq!(only_long.classify(0), Fate::LongDelay);
    assert_eq!(only_long.classify(9), Fate::LongDelay);
    assert_eq!(only_long.classify(10), Fate::Immediate);
}

#[test]
fn classify_counts_each_fate_by_its_rate() {
    let c = config(3, 5, 7);
    let mut counts = [0u32; 4];
    for sample in 0..1000u32 {
        match c.classify(sample) {
            Fate::Drop => counts[0] += 1,
            Fate::ShortDelay => counts[1] += 1,
            Fate::LongDelay => counts[2] += 1,
            Fate::Immediate => counts[3] += 1,
        }
    }
    assert_eq!(counts, [3, 5, 7, 985]);
}
