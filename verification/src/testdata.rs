//! Configuration of generated sensor datasets: the industry verticals and
//! their scenarios, the timing of the samples, and the anomalies injected
//! into them. Floating-point parameters are held as the bit patterns of
//! their `f64`.

use vstd::prelude::*;

verus! {

/// Industry type.
#[derive(Debug, Clone, Copy, PartialEq, Eq, Structural)]
pub enum Industry {
    Agriculture,
    Satellite,
    Manufacturing,
    SmartCity,
    Logistics,
    Energy,
}

/// The identifier of an industry.
pub open spec fn industry_id(i: Industry) -> Seq<char> {
    match i {
        Industry::Agriculture => "agriculture"@,
        Industry::Satellite => "satellite"@,
        Industry::Manufacturing => "manufacturing"@,
        Industry::SmartCity => "smart_city"@,
        Industry::Logistics => "logistics"@,
        Industry::Energy => "energy"@,
    }
}

/// The display name of an industry.
pub open spec fn industry_display_name(i: Industry) -> Seq<char> {
    match i {
        Industry::Agriculture => "Agriculture (AgTech)"@,
        Industry::Satellite => "Satellite IoT"@,
        Industry::Manufacturing => "Manufacturing (IIoT)"@,
        Industry::SmartCity => "Smart City"@,
        Industry::Logistics => "Logistics (Cold Chain)"@,
        Industry::Energy => "Energy (Smart Grid)"@,
    }
}

impl Industry {
    /// Get industry name as string.
    pub fn as_str(&self) -> (r: &'static str)
        ensures
            r@ == industry_id(*self),
    {
        match self {
            Industry::Agriculture => "agriculture",
            Industry::Satellite => "satellite",
            Industry::Manufacturing => "manufacturing",
            Industry::SmartCity => "smart_city",
            Industry::Logistics => "logistics",
            Industry::Energy => "energy",
        }
    }

    /// Get display name.
    pub fn display_name(&self) -> (r: &'static str)
        ensures
            r@ == industry_display_name(*self),
    {
        match self {
            Industry::Agriculture => "Agriculture (AgTech)",
            Industry::Satellite => "Satellite IoT",
            Industry::Manufacturing => "Manufacturing (IIoT)",
            Industry::SmartCity => "Smart City",
            Industry::Logistics => "Logistics (Cold Chain)",
            Industry::Energy => "Energy (Smart Grid)",
        }
    }
}

/// Agricultural scenario types.
#[derive(Debug, Clone, Copy, PartialEq, Eq, Structural)]
pub enum AgriculturalScenario {
    /// Normal farm operation.
    Normal,
    /// Drought conditions (soil moisture decline).
    Drought,
    /// Sensor failure (stuck soil moisture).
    SensorFailure,
    /// Irrigation cycle with multiple events.
    IrrigationCycle,
    /// Frost event (sudden temperature drop).
    FrostEvent,
}

/// Energy/Grid scenario types.
#[derive(Debug, Clone, Copy, PartialEq, Eq, Structural)]
pub enum EnergyScenario {
    /// Normal 24-hour grid operation.
    Normal,
    /// Industrial load profile.
    IndustrialLoad,
    /// Phase imbalance event.
    PhaseImbalance,
    /// Harmonic distortion event.
    HarmonicEvent,
    /// Power factor degradation.
    PowerFactorDrop,
    /// Frequency deviation.
    FrequencyDeviation,
}

/// Logistics scenario types.
#[derive(Debug, Clone, Copy, PartialEq, Eq, Structural)]
pub enum LogisticsScenario {
    /// Normal delivery route.
    NormalRoute,
    /// Multi-stop delivery with door events.
    MultiStop,
    /// Cold chain breach (temperature above 8 degrees Celsius).
    ColdChainBreach,
    /// Refrigeration unit failure.
    RefrigerationFailure,
    /// Route deviation.
    RouteDeviation,
    /// Fuel theft event.
    FuelTheft,
}

/// Manufacturing scenario types.
#[derive(Debug, Clone, Copy, PartialEq, Eq, Structural)]
pub enum ManufacturingScenario {
    /// Normal shift operation with machine cycles.
    NormalShift,
    /// Single machine cycle (startup, run, shutdown).
    MachineCycle,
    /// Bearing wear developing.
    BearingFailure,
    /// Pressure leak event.
    LeakEvent,
    /// Motor overheating.
    MotorOverheat,
}

/// Satellite IoT scenario types.
#[derive(Debug, Clone, Copy, PartialEq, Eq, Structural)]
pub enum SatelliteScenario {
    /// Normal stationary device operation.
    Stationary,
    /// Moving asset tracking.
    MovingAsset,
    /// Battery critical condition.
    BatteryCritical,
    /// Signal loss event.
    SignalLoss,
    /// GPS drift anomaly.
    GpsDrift,
}

/// Smart City scenario types.
#[derive(Debug, Clone, Copy, PartialEq, Eq, Structural)]
pub enum SmartCityScenario {
    /// Normal weekday traffic patterns.
    Weekday,
    /// Weekend traffic patterns (flatter, later peaks).
    Weekend,
    /// Traffic accident event.
    Accident,
    /// Festival/event with elevated counts.
    Festival,
    /// Pollution event uncorrelated with traffic.
    PollutionEvent,
}

/// Generator configuration.
#[derive(Debug, Clone, Copy, PartialEq, Eq)]
pub struct GeneratorConfig {
    /// Start timestamp in milliseconds.
    pub start_time_ms: u64,
    /// Interval between samples in milliseconds.
    pub sample_interval_ms: u64,
    /// Number of samples to generate.
    pub num_samples: usize,
    /// Random seed for reproducibility.
    pub seed: Option<u64>,
}

/// Start of the default generation window: 2024-02-01 00:00:00 UTC, in
/// milliseconds.
pub const DEFAULT_START_TIME_MS: u64 = 1706745600000;

impl Default for GeneratorConfig {
    /// One hour of samples a minute apart from the default start, unseeded.
    fn default() -> (r: Self)
        ensures
            r.start_time_ms == DEFAULT_START_TIME_MS,
            r.sample_interval_ms == 60_000,
            r.num_samples == 60,
            r.seed is None,
    {
        GeneratorConfig { start_time_ms: DEFAULT_START_TIME_MS, sample_interval_ms: 60_000, num_samples: 60, seed: None }
    }
}

impl GeneratorConfig {
    /// The whole span covered from the first sample to the last, in
    /// milliseconds.
    pub open spec fn spec_duration_ms(&self) -> int {
        self.sample_interval_ms * (if self.num_samples > 0 {
            self.num_samples - 1
        } else {
            0
        })
    }

    /// Create a new generator config with the defaults.
    pub fn new() -> (r: Self)
        ensures
            r.start_time_ms == DEFAULT_START_TIME_MS,
            r.sample_interval_ms == 60_000,
            r.num_samples == 60,
            r.seed is None,
    {
        Self::default()
    }

    /// Set start timestamp.
    pub fn with_start_time(self, timestamp_ms: u64) -> (r: Self)
        ensures
            r == (GeneratorConfig { start_time_ms: timestamp_ms, ..self }),
    {
        GeneratorConfig { start_time_ms: timestamp_ms, ..self }
    }

    /// Set sample interval.
    pub fn with_sample_interval_ms(self, interval_ms: u64) -> (r: Self)
        ensures
            r == (GeneratorConfig { sample_interval_ms: interval_ms, ..self }),
    {
        GeneratorConfig { sample_interval_ms: interval_ms, ..self }
    }

    /// Set sample interval in seconds.
    pub fn with_sample_interval_secs(self, secs: u64) -> (r: Self)
        requires
            secs * 1000 <= u64::MAX,
        ensures
            r == (GeneratorConfig { sample_interval_ms: (secs * 1000) as u64, ..self }),
    {
        GeneratorConfig { sample_interval_ms: secs * 1000, ..self }
    }

    /// Set number of samples.
    pub fn with_num_samples(self, n: usize) -> (r: Self)
        ensures
            r == (GeneratorConfig { num_samples: n, ..self }),
    {
        GeneratorConfig { num_samples: n, ..self }
    }

    /// Set random seed.
    pub fn with_seed(self, seed: u64) -> (r: Self)
        ensures
            r == (GeneratorConfig { seed: Some(seed), ..self }),
    {
        GeneratorConfig { seed: Some(seed), ..self }
    }

    /// Total duration in milliseconds: the interval times one less than the
    /// number of samples.
    pub fn duration_ms(&self) -> (r: u64)
        requires
            self.spec_duration_ms() <= u64::MAX,
        ensures
            r == self.spec_duration_ms(),
    {
        let gaps: u64 = if self.num_samples > 0 {
            (self.num_samples - 1) as u64
        } else {
            0
        };
        proof {
            assert(self.sample_interval_ms * gaps == self.spec_duration_ms());
        }
        self.sample_interval_ms * gaps
    }

    /// Timestamp of the last sample.
    pub fn end_time_ms(&self) -> (r: u64)
        requires
            self.start_time_ms + self.spec_duration_ms() <= u64::MAX,
        ensures
            r == self.start_time_ms + self.spec_duration_ms(),
    {
        proof {
            assert(0 <= self.spec_duration_ms()) by (nonlinear_arith)
                requires
                    self.spec_duration_ms() == self.sample_interval_ms * (if self.num_samples > 0 {
                        self.num_samples - 1
                    } else {
                        0
                    }),
            ;
        }
        self.start_time_ms + self.duration_ms()
    }
}

/// Type of anomaly to inject. Floating-point parameters are held as the
/// bit patterns of their `f64`.
#[derive(Debug, Clone, Copy, PartialEq, Eq, Structural)]
pub enum AnomalyType {
    /// Sensor value stuck at last reading.
    Stuck,
    /// Sudden spike in value, by a magnitude relative to the normal range.
    Spike { magnitude_bits: u64 },
    /// Gradual drift away from normal, at a rate per sample.
    Drift { rate_per_sample_bits: u64 },
    /// Value becomes independent noise around a center.
    Decorrelate { noise_std_bits: u64, center_bits: u64 },
    /// Complete dropout (missing values).
    Dropout,
    /// Oscillation with unusual frequency (in Hz).
    Oscillation { amplitude_bits: u64, frequency_hz_bits: u64 },
    /// Bias shift (constant offset added).
    BiasShift { offset_bits: u64 },
    /// Noise increase by a factor.
    NoiseIncrease { factor_bits: u64 },
    /// Sensor clipping at min/max.
    Clipping { min_bits: u64, max_bits: u64 },
    /// Intermittent failure with a probability per sample.
    Intermittent { failure_prob_bits: u64 },
}

/// The detection event that an anomaly of type `t` is expected to raise.
pub open spec fn expected_event_name(t: AnomalyType) -> Seq<char> {
    match t {
        AnomalyType::Stuck | AnomalyType::Decorrelate { .. } | AnomalyType::Clipping { .. } => "STRUCTURE_BREAK"@,
        AnomalyType::Spike { .. } | AnomalyType::NoiseIncrease { .. } => "PAYLOAD_ENTROPY_SPIKE"@,
        AnomalyType::Drift { .. } | AnomalyType::Oscillation { .. } | AnomalyType::BiasShift { .. } => "COMPLEXITY_SURGE"@,
        AnomalyType::Dropout | AnomalyType::Intermittent { .. } => "REDUNDANCY_DROP"@,
    }
}

impl AnomalyType {
    /// Create a stuck sensor anomaly.
    pub fn stuck() -> (r: Self)
        ensures
            r == AnomalyType::Stuck,
    {
        AnomalyType::Stuck
    }

    /// Create a spike anomaly.
    pub fn spike(magnitude_bits: u64) -> (r: Self)
        ensures
            r == (AnomalyType::Spike { magnitude_bits }),
    {
        AnomalyType::Spike { magnitude_bits }
    }

    /// Create a drift anomaly.
    pub fn drift(rate_per_sample_bits: u64) -> (r: Self)
        ensures
            r == (AnomalyType::Drift { rate_per_sample_bits }),
    {
        AnomalyType::Drift { rate_per_sample_bits }
    }

    /// Create a decorrelation anomaly.
    pub fn decorrelate(center_bits: u64, noise_std_bits: u64) -> (r: Self)
        ensures
            r == (AnomalyType::Decorrelate { noise_std_bits, center_bits }),
    {
        AnomalyType::Decorrelate { noise_std_bits, center_bits }
    }

    /// Get expected detection event type.
    pub fn expected_event(&self) -> (r: &'static str)
        ensures
            r@ == expected_event_name(*self),
    {
        match self {
            AnomalyType::Stuck => "STRUCTURE_BREAK",
            AnomalyType::Spike { .. } => "PAYLOAD_ENTROPY_SPIKE",
            AnomalyType::Drift { .. } => "COMPLEXITY_SURGE",
            AnomalyType::Decorrelate { .. } => "STRUCTURE_BREAK",
            AnomalyType::Dropout => "REDUNDANCY_DROP",
            AnomalyType::Oscillation { .. } => "COMPLEXITY_SURGE",
            AnomalyType::BiasShift { .. } => "COMPLEXITY_SURGE",
            AnomalyType::NoiseIncrease { .. } => "PAYLOAD_ENTROPY_SPIKE",
            AnomalyType::Clipping { .. } => "STRUCTURE_BREAK",
            AnomalyType::Intermittent { .. } => "REDUNDANCY_DROP",
        }
    }
}

/// Anomaly injection configuration.
#[derive(Debug, Clone, Copy, PartialEq, Eq, Structural)]
pub struct AnomalyConfig {
    /// Type of anomaly to inject.
    pub anomaly_type: AnomalyType,
    /// Sample index when anomaly starts.
    pub start_sample: usize,
    /// Duration in samples (None = until end).
    pub duration_samples: Option<usize>,
}

impl AnomalyConfig {
    /// Whether the anomaly is active at sample `sample_idx`: from its start
    /// on, and before its end when it has a duration.
    pub open spec fn spec_is_active(&self, sample_idx: int) -> bool {
        sample_idx >= self.start_sample && match self.duration_samples {
            Some(d) => sample_idx < self.start_sample + d,
            None => true,
        }
    }

    /// Create a new anomaly configuration, lasting until the end.
    pub fn new(anomaly_type: AnomalyType, start_sample: usize) -> (r: Self)
        ensures
            r == (AnomalyConfig { anomaly_type, start_sample, duration_samples: None }),
    {
        AnomalyConfig { anomaly_type, start_sample, duration_samples: None }
    }

    /// Set duration in samples.
    pub fn with_duration(self, samples: usize) -> (r: Self)
        ensures
            r == (AnomalyConfig { duration_samples: Some(samples), ..self }),
    {
        AnomalyConfig { duration_samples: Some(samples), ..self }
    }

    /// Check if anomaly is active at given sample index.
    pub fn is_active(&self, sample_idx: usize) -> (r: bool)
        ensures
            r == self.spec_is_active(sample_idx as int),
    {
        if sample_idx < self.start_sample {
            return false;
        }
        match self.duration_samples {
            Some(duration) => sample_idx - self.start_sample < duration,
            None => true,
        }
    }

    /// Samples since the anomaly started (zero before it starts).
    pub fn samples_since_start(&self, sample_idx: usize) -> (r: usize)
        ensures
            r == (if sample_idx >= self.start_sample {
                sample_idx - self.start_sample
            } else {
                0
            }),
    {
        if sample_idx >= self.start_sample {
            sample_idx - self.start_sample
        } else {
            0
        }
    }
}

} // verus!
