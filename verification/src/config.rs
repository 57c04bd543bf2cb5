//! Fault-injection settings and the partition of a sample into a fate.

use vstd::prelude::*;

verus! {

/// The scale of the rates: a rate of `RATE_SCALE` is certainty.
pub const RATE_SCALE: u32 = 1_000_000;

/// A half-open interval of durations, in nanoseconds.
#[derive(Debug, Clone, Copy, PartialEq, Eq, Structural)]
pub struct DurationRange {
    pub start: u64,
    pub end: u64,
}

impl DurationRange {
    /// Whether the range holds no duration.
    pub open spec fn is_empty(self) -> bool {
        self.start >= self.end
    }

    /// Whether `nanos` lies in the range.
    pub open spec fn contains(self, nanos: u64) -> bool {
        self.start <= nanos < self.end
    }
}

/// The probabilities, in millionths, with which a packet is dropped or
/// delayed, and the ranges from which a delay is drawn.
#[derive(Debug, Clone, Copy, PartialEq, Eq, Structural)]
pub struct SimulatedNetworkConfig {
    pub drop_rate: u32,
    pub short_delay_rate: u32,
    pub long_delay_rate: u32,
    pub short_delay_range: DurationRange,
    pub long_delay_range: DurationRange,
}

/// Why a configuration is rejected.
#[derive(Debug, Clone, Copy, PartialEq, Eq, Structural)]
pub enum ConfigError {
    /// The three rates together exceed certainty.
    RatesExceedOne,
    /// The range of short delays holds no duration.
    EmptyShortDelayRange,
    /// The range of long delays holds no duration.
    EmptyLongDelayRange,
}

/// What fault injection does with one packet.
#[derive(Debug, Clone, Copy, PartialEq, Eq, Structural)]
pub enum Fate {
    Drop,
    ShortDelay,
    LongDelay,
    Immediate,
}

impl SimulatedNetworkConfig {
    /// The sum of the three rates.
    pub open spec fn total_rate(self) -> int {
        self.drop_rate + self.short_delay_rate + self.long_delay_rate
    }

    /// The rates sum to at most certainty and both delay ranges hold a
    /// duration.
    pub open spec fn valid(self) -> bool {
        &&& self.total_rate() <= RATE_SCALE
        &&& !self.short_delay_range.is_empty()
        &&& !self.long_delay_range.is_empty()
    }

    /// The first fault that the configuration has, if it has one.
    pub open spec fn fault(self) -> Option<ConfigError> {
        if self.total_rate() > RATE_SCALE {
            Some(ConfigError::RatesExceedOne)
        } else if self.short_delay_range.is_empty() {
            Some(ConfigError::EmptyShortDelayRange)
        } else if self.long_delay_range.is_empty() {
            Some(ConfigError::EmptyLongDelayRange)
        } else {
            None
        }
    }

    /// The fate of the packet whose sample is `sample`: the samples below
    /// the drop rate are dropped, the next `short_delay_rate` samples are
    /// delayed shortly, the next `long_delay_rate` samples are delayed long,
    /// and the rest are delivered at once.
    pub open spec fn fate(self, sample: u32) -> Fate {
        if sample < self.drop_rate {
            Fate::Drop
        } else if sample < self.drop_rate + self.short_delay_rate {
            Fate::ShortDelay
        } else if sample < self.total_rate() {
            Fate::LongDelay
        } else {
            Fate::Immediate
        }
    }

    /// The range from which the delay of a delayed packet is drawn.
    pub open spec fn delay_range(self, fate: Fate) -> DurationRange {
        if fate == Fate::LongDelay {
            self.long_delay_range
        } else {
            self.short_delay_range
        }
    }

    /// A configuration that never drops and never delays.
    pub fn reliable() -> (config: SimulatedNetworkConfig)
        ensures
            config.valid(),
            config.total_rate() == 0,
    {
        SimulatedNetworkConfig {
            drop_rate: 0,
            short_delay_rate: 0,
            long_delay_rate: 0,
            short_delay_range: DurationRange { start: 0, end: 1 },
            long_delay_range: DurationRange { start: 0, end: 1 },
        }
    }

    /// Checks the configuration and names its first fault.
    pub fn validate(&self) -> (checked: Result<(), ConfigError>)
        ensures
            checked is Ok <==> self.valid(),
            checked == match self.fault() {
                Some(error) => Err::<(), ConfigError>(error),
                None => Ok::<(), ConfigError>(()),
            },
    {
        let total: u64 = self.drop_rate as u64 + self.short_delay_rate as u64
            + self.long_delay_rate as u64;
        if total > RATE_SCALE as u64 {
            Err(ConfigError::RatesExceedOne)
        } else if self.short_delay_range.start >= self.short_delay_range.end {
            Err(ConfigError::EmptyShortDelayRange)
        } else if self.long_delay_range.start >= self.long_delay_range.end {
            Err(ConfigError::EmptyLongDelayRange)
        } else {
            Ok(())
        }
    }

    /// Partitions `sample` by subtracting the rates from it in turn.
    pub fn classify(&self, sample: u32) -> (fate: Fate)
        ensures
            fate == self.fate(sample),
    {
        let mut rest: u32 = sample;
        if rest < self.drop_rate {
            return Fate::Drop;
        }
        rest = rest - self.drop_rate;
        if rest < self.short_delay_rate {
            return Fate::ShortDelay;
        }
        rest = rest - self.short_delay_rate;
        if rest < self.long_delay_rate {
            return Fate::LongDelay;
        }
        Fate::Immediate
    }
}

} // verus!
