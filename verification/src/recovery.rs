//! Recovery mechanisms: the circuit breaker state machine and graceful
//! degradation levels.

use vstd::prelude::*;

use std::time::{Duration, Instant};

use crate::clock::{duration_as_millis, instant_elapsed, instant_now};

verus! {

/// Circuit breaker states.
#[derive(Debug, Clone, Copy, PartialEq, Eq, Structural, Default)]
pub enum CircuitState {
    /// Normal operation - requests are allowed
    #[default]
    Closed,
    /// Failing - rejecting requests
    Open,
    /// Testing if recovery is possible
    HalfOpen,
}

impl CircuitState {
    /// Check if requests should be allowed.
    pub fn allows_requests(&self) -> (r: bool)
        ensures
            r == (*self != CircuitState::Open),
    {
        match self {
            CircuitState::Closed | CircuitState::HalfOpen => true,
            CircuitState::Open => false,
        }
    }
}

/// Configuration of the circuit breaker.
#[derive(Debug, Clone)]
pub struct CircuitConfig {
    /// Number of failures before opening the circuit
    pub failure_threshold: u32,
    /// Number of successes in half-open state to close the circuit
    pub success_threshold: u32,
    /// Time before attempting recovery, in milliseconds
    pub recovery_timeout_ms: u64,
}

impl Default for CircuitConfig {
    fn default() -> (r: Self)
        ensures
            r.failure_threshold == 5,
            r.success_threshold == 3,
            r.recovery_timeout_ms == 30_000,
    {
        CircuitConfig { failure_threshold: 5, success_threshold: 3, recovery_timeout_ms: 30_000 }
    }
}

/// Circuit breaker for fault tolerance: when failures reach the
/// threshold the circuit opens and rejects requests until the recovery
/// timeout lets a half-open trial through.
#[derive(Debug)]
pub struct CircuitBreaker {
    state: CircuitState,
    failure_count: u32,
    success_count: u32,
    last_failure: Option<Instant>,
    config: CircuitConfig,
}

impl CircuitBreaker {
    /// The current state.
    pub closed spec fn spec_state(&self) -> CircuitState {
        self.state
    }

    /// The failures counted in the closed state.
    pub closed spec fn spec_failure_count(&self) -> u32 {
        self.failure_count
    }

    /// The successes counted in the half-open state.
    pub closed spec fn spec_success_count(&self) -> u32 {
        self.success_count
    }

    /// Whether a failure time is recorded.
    pub closed spec fn spec_has_last_failure(&self) -> bool {
        self.last_failure.is_some()
    }

    /// The configuration.
    pub closed spec fn spec_config(&self) -> CircuitConfig {
        self.config
    }

    /// The counters stay below their thresholds (or at zero), so counting
    /// never overflows.
    pub open spec fn wf(&self) -> bool {
        &&& (self.spec_state() == CircuitState::Closed ==> self.spec_failure_count()
            < self.spec_config().failure_threshold || self.spec_failure_count() == 0)
        &&& (self.spec_state() == CircuitState::HalfOpen ==> self.spec_success_count()
            < self.spec_config().success_threshold || self.spec_success_count() == 0)
    }

    /// Create a new circuit breaker with the default configuration.
    pub fn new() -> (r: Self)
        ensures
            r.wf(),
            r.spec_state() == CircuitState::Closed,
            r.spec_failure_count() == 0,
            r.spec_success_count() == 0,
            !r.spec_has_last_failure(),
            r.spec_config().failure_threshold == 5,
            r.spec_config().success_threshold == 3,
    {
        CircuitBreaker {
            state: CircuitState::Closed,
            failure_count: 0,
            success_count: 0,
            last_failure: None,
            config: CircuitConfig::default(),
        }
    }

    /// Create a circuit breaker with a custom configuration.
    pub fn with_config(config: CircuitConfig) -> (r: Self)
        ensures
            r.wf(),
            r.spec_state() == CircuitState::Closed,
            r.spec_failure_count() == 0,
            r.spec_success_count() == 0,
            !r.spec_has_last_failure(),
            r.spec_config() == config,
    {
        CircuitBreaker { state: CircuitState::Closed, failure_count: 0, success_count: 0, last_failure: None, config }
    }

    /// Decide whether a request may proceed, given whether the recovery
    /// timeout has elapsed since the last failure: closed and half-open
    /// allow; open moves to half-open (successes reset) and allows only
    /// once the timeout has elapsed after a recorded failure.
    pub fn should_allow_after(&mut self, timeout_elapsed: bool) -> (r: bool)
        requires
            old(self).wf(),
        ensures
            final(self).wf(),
            final(self).spec_config() == old(self).spec_config(),
            final(self).spec_failure_count() == old(self).spec_failure_count(),
            final(self).spec_has_last_failure() == old(self).spec_has_last_failure(),
            old(self).spec_state() == CircuitState::Closed ==> r && final(self).spec_state() == CircuitState::Closed
                && final(self).spec_success_count() == old(self).spec_success_count(),
            old(self).spec_state() == CircuitState::HalfOpen ==> r && final(self).spec_state()
                == CircuitState::HalfOpen && final(self).spec_success_count() == old(self).spec_success_count(),
            old(self).spec_state() == CircuitState::Open ==> {
                if timeout_elapsed && old(self).spec_has_last_failure() {
                    r && final(self).spec_state() == CircuitState::HalfOpen && final(self).spec_success_count()
                        == 0
                } else {
                    !r && final(self).spec_state() == CircuitState::Open && final(self).spec_success_count()
                        == old(self).spec_success_count()
                }
            },
    {
        match self.state {
            CircuitState::Closed => true,
            CircuitState::Open => {
                if self.last_failure.is_some() && timeout_elapsed {
                    self.state = CircuitState::HalfOpen;
                    self.success_count = 0;
                    return true;
                }
                false
            },
            CircuitState::HalfOpen => true,
        }
    }

    /// Check whether a request should be allowed, moving from open to
    /// half-open once the recovery timeout has elapsed since the last
    /// failure (read from the clock).
    pub fn should_allow(&mut self) -> (r: bool)
        requires
            old(self).wf(),
        ensures
            final(self).wf(),
            final(self).spec_config() == old(self).spec_config(),
            final(self).spec_failure_count() == old(self).spec_failure_count(),
            final(self).spec_has_last_failure() == old(self).spec_has_last_failure(),
            old(self).spec_state() != CircuitState::Open ==> r && final(self).spec_state() == old(
                self,
            ).spec_state() && final(self).spec_success_count() == old(self).spec_success_count(),
            old(self).spec_state() == CircuitState::Open && !old(self).spec_has_last_failure() ==> !r
                && final(self).spec_state() == CircuitState::Open,
            old(self).spec_state() == CircuitState::Open ==> (r <==> final(self).spec_state()
                == CircuitState::HalfOpen),
            r && old(self).spec_state() == CircuitState::Open ==> final(self).spec_success_count() == 0,
            old(self).spec_state() == CircuitState::Open && old(self).spec_has_last_failure()
                && old(self).spec_config().recovery_timeout_ms == 0 ==> r,
    {
        let elapsed = match &self.last_failure {
            Some(t) => {
                let since = instant_elapsed(t);
                let ms = duration_as_millis(&since);
                let ms: u64 = if ms > u64::MAX as u128 {
                    u64::MAX
                } else {
                    ms as u64
                };
                self.timeout_elapsed(ms)
            },
            None => false,
        };
        self.should_allow_after(elapsed)
    }

    /// Whether `elapsed_ms` milliseconds since the last failure reach the
    /// recovery timeout.
    pub fn timeout_elapsed(&self, elapsed_ms: u64) -> (r: bool)
        ensures
            r == (elapsed_ms >= self.spec_config().recovery_timeout_ms),
    {
        elapsed_ms >= self.config.recovery_timeout_ms
    }

    /// Record a successful operation: in the closed state the failure count
    /// resets; in the half-open state successes are counted and the circuit
    /// closes (failures reset) once they reach the threshold.
    pub fn record_success(&mut self)
        requires
            old(self).wf(),
        ensures
            final(self).wf(),
            final(self).spec_config() == old(self).spec_config(),
            final(self).spec_has_last_failure() == old(self).spec_has_last_failure(),
            old(self).spec_state() == CircuitState::Closed ==> final(self).spec_state() == CircuitState::Closed
                && final(self).spec_failure_count() == 0 && final(self).spec_success_count() == old(
                self,
            ).spec_success_count(),
            old(self).spec_state() == CircuitState::HalfOpen ==> {
                let n = old(self).spec_success_count() + 1;
                &&& final(self).spec_success_count() == n
                &&& if n >= old(self).spec_config().success_threshold {
                    final(self).spec_state() == CircuitState::Closed && final(self).spec_failure_count() == 0
                } else {
                    final(self).spec_state() == CircuitState::HalfOpen && final(self).spec_failure_count()
                        == old(self).spec_failure_count()
                }
            },
            old(self).spec_state() == CircuitState::Open ==> final(self).spec_state() == CircuitState::Open
                && final(self).spec_failure_count() == old(self).spec_failure_count()
                && final(self).spec_success_count() == old(self).spec_success_count(),
    {
        match self.state {
            CircuitState::Closed => {
                self.failure_count = 0;
            },
            CircuitState::HalfOpen => {
                self.success_count = self.success_count + 1;
                if self.success_count >= self.config.success_threshold {
                    self.state = CircuitState::Closed;
                    self.failure_count = 0;
                }
            },
            CircuitState::Open => {},
        }
    }

    /// Record a failed operation (its time is recorded): in the closed
    /// state failures are counted and the circuit opens once they reach the
    /// threshold; in the half-open state the circuit opens at once.
    pub fn record_failure(&mut self)
        requires
            old(self).wf(),
        ensures
            final(self).wf(),
            final(self).spec_config() == old(self).spec_config(),
            final(self).spec_has_last_failure(),
            final(self).spec_success_count() == old(self).spec_success_count(),
            old(self).spec_state() == CircuitState::Closed ==> {
                let n = old(self).spec_failure_count() + 1;
                &&& final(self).spec_failure_count() == n
                &&& final(self).spec_state() == if n >= old(self).spec_config().failure_threshold {
                    CircuitState::Open
                } else {
                    CircuitState::Closed
                }
            },
            old(self).spec_state() != CircuitState::Closed ==> final(self).spec_state() == CircuitState::Open
                && final(self).spec_failure_count() == old(self).spec_failure_count(),
    {
        self.last_failure = Some(instant_now());
        match self.state {
            CircuitState::Closed => {
                self.failure_count = self.failure_count + 1;
                if self.failure_count >= self.config.failure_threshold {
                    self.state = CircuitState::Open;
                }
            },
            CircuitState::HalfOpen => {
                self.state = CircuitState::Open;
            },
            CircuitState::Open => {},
        }
    }

    /// Get the current circuit state.
    pub fn state(&self) -> (r: CircuitState)
        ensures
            r == self.spec_state(),
    {
        self.state
    }

    /// Get the current failure count.
    pub fn failure_count(&self) -> (r: u32)
        ensures
            r == self.spec_failure_count(),
    {
        self.failure_count
    }

    /// Get the current success count (in the half-open state).
    pub fn success_count(&self) -> (r: u32)
        ensures
            r == self.spec_success_count(),
    {
        self.success_count
    }

    /// Get the time since the last failure, read from the clock; none if
    /// no failure was recorded.
    pub fn time_since_last_failure(&self) -> (r: Option<Duration>)
        ensures
            r.is_some() == self.spec_has_last_failure(),
    {
        match &self.last_failure {
            Some(t) => Some(instant_elapsed(t)),
            None => None,
        }
    }

    /// Reset the circuit breaker to its initial state.
    pub fn reset(&mut self)
        ensures
            final(self).wf(),
            final(self).spec_state() == CircuitState::Closed,
            final(self).spec_failure_count() == 0,
            final(self).spec_success_count() == 0,
            !final(self).spec_has_last_failure(),
            final(self).spec_config() == old(self).spec_config(),
    {
        self.state = CircuitState::Closed;
        self.failure_count = 0;
        self.success_count = 0;
        self.last_failure = None;
    }

    /// Force the circuit open (the time is recorded as a failure).
    pub fn force_open(&mut self)
        requires
            old(self).wf(),
        ensures
            final(self).wf(),
            final(self).spec_state() == CircuitState::Open,
            final(self).spec_has_last_failure(),
            final(self).spec_failure_count() == old(self).spec_failure_count(),
            final(self).spec_success_count() == old(self).spec_success_count(),
            final(self).spec_config() == old(self).spec_config(),
    {
        self.state = CircuitState::Open;
        self.last_failure = Some(instant_now());
    }

    /// Force the circuit closed, resetting both counts.
    pub fn force_closed(&mut self)
        ensures
            final(self).wf(),
            final(self).spec_state() == CircuitState::Closed,
            final(self).spec_failure_count() == 0,
            final(self).spec_success_count() == 0,
            final(self).spec_has_last_failure() == old(self).spec_has_last_failure(),
            final(self).spec_config() == old(self).spec_config(),
    {
        self.state = CircuitState::Closed;
        self.failure_count = 0;
        self.success_count = 0;
    }
}

impl Default for CircuitBreaker {
    fn default() -> (r: Self)
        ensures
            r.wf(),
            r.spec_state() == CircuitState::Closed,
            r.spec_failure_count() == 0,
            r.spec_success_count() == 0,
            !r.spec_has_last_failure(),
    {
        Self::new()
    }
}

/// The closed state counts failures one by one: from a closed breaker with
/// no failure counted, `k` recorded failures, each below the threshold,
/// leave it closed with `k` failures, and one more reaching the threshold
/// opens it.
pub proof fn lemma_failures_open_circuit(threshold: u32, k: u32)
    requires
        1 <= threshold,
        k < threshold,
    ensures
        (k + 1 < threshold ==> circuit_after_failures(threshold, (k + 1) as nat) == CircuitState::Closed),
        (k + 1 == threshold ==> circuit_after_failures(threshold, (k + 1) as nat) == CircuitState::Open),
    decreases k,
{
    if k > 0 {
        lemma_failures_open_circuit(threshold, (k - 1) as u32);
        assert(circuit_after_failures(threshold, k as nat) == CircuitState::Closed);
    } else {
        assert(circuit_after_failures(threshold, 0) == CircuitState::Closed);
    }
}

/// The state of a closed breaker with no failure counted after `k`
/// recorded failures, as `record_failure` moves it.
pub open spec fn circuit_after_failures(threshold: u32, k: nat) -> CircuitState
    decreases k,
{
    if k == 0 {
        CircuitState::Closed
    } else {
        match circuit_after_failures(threshold, (k - 1) as nat) {
            CircuitState::Closed => if k >= threshold {
                CircuitState::Open
            } else {
                CircuitState::Closed
            },
            _ => CircuitState::Open,
        }
    }
}

/// Result of a retried operation with metrics.
#[derive(Debug, Clone)]
pub struct RetryResult<T> {
    /// The result value
    pub value: T,
    /// Number of attempts made
    pub attempts: u32,
    /// Total time spent retrying
    pub total_duration: Duration,
}

/// Graceful degradation level.
#[derive(Debug, Clone, Copy, PartialEq, Eq, Structural, PartialOrd, Ord, Default)]
pub enum DegradationLevel {
    /// Normal operation
    #[default]
    Normal,
    /// Light degradation - non-essential features disabled
    Light,
    /// Moderate degradation - some features disabled
    Moderate,
    /// Heavy degradation - only essential features
    Heavy,
    /// Emergency - minimal operation
    Emergency,
}

impl DegradationLevel {
    /// The place of a level in the order Normal < Light < Moderate < Heavy
    /// < Emergency.
    pub open spec fn rank(self) -> nat {
        match self {
            DegradationLevel::Normal => 0,
            DegradationLevel::Light => 1,
            DegradationLevel::Moderate => 2,
            DegradationLevel::Heavy => 3,
            DegradationLevel::Emergency => 4,
        }
    }

    /// The level of a rank (ranks above 4 are Emergency).
    pub open spec fn of_rank(r: nat) -> DegradationLevel {
        if r == 0 {
            DegradationLevel::Normal
        } else if r == 1 {
            DegradationLevel::Light
        } else if r == 2 {
            DegradationLevel::Moderate
        } else if r == 3 {
            DegradationLevel::Heavy
        } else {
            DegradationLevel::Emergency
        }
    }

    fn rank_of(&self) -> (r: u8)
        ensures
            r == self.rank(),
    {
        match self {
            DegradationLevel::Normal => 0,
            DegradationLevel::Light => 1,
            DegradationLevel::Moderate => 2,
            DegradationLevel::Heavy => 3,
            DegradationLevel::Emergency => 4,
        }
    }

    /// Check if features at the given level should be disabled: they are
    /// when this level is at or above it.
    pub fn should_disable(&self, feature_level: DegradationLevel) -> (r: bool)
        ensures
            r == (self.rank() >= feature_level.rank()),
    {
        self.rank_of() >= feature_level.rank_of()
    }

    /// Get the next degradation level (Emergency stays Emergency).
    pub fn escalate(&self) -> (r: Self)
        ensures
            r == Self::of_rank(self.rank() + 1),
    {
        match self {
            DegradationLevel::Normal => DegradationLevel::Light,
            DegradationLevel::Light => DegradationLevel::Moderate,
            DegradationLevel::Moderate => DegradationLevel::Heavy,
            DegradationLevel::Heavy => DegradationLevel::Emergency,
            DegradationLevel::Emergency => DegradationLevel::Emergency,
        }
    }

    /// Get the previous degradation level (Normal stays Normal).
    pub fn de_escalate(&self) -> (r: Self)
        ensures
            r == Self::of_rank(if self.rank() == 0 {
                0
            } else {
                (self.rank() - 1) as nat
            }),
    {
        match self {
            DegradationLevel::Normal => DegradationLevel::Normal,
            DegradationLevel::Light => DegradationLevel::Normal,
            DegradationLevel::Moderate => DegradationLevel::Light,
            DegradationLevel::Heavy => DegradationLevel::Moderate,
            DegradationLevel::Emergency => DegradationLevel::Heavy,
        }
    }
}

/// Escalating then de-escalating returns to the level one started from,
/// below Emergency; de-escalating then escalating does, above Normal.
/// Escalation never lowers the level, and a level disables exactly the
/// features at or below it.
pub proof fn lemma_degradation_steps(l: DegradationLevel, f: DegradationLevel)
    ensures
        l != DegradationLevel::Emergency ==> {
            let up = DegradationLevel::of_rank(l.rank() + 1);
            DegradationLevel::of_rank((up.rank() - 1) as nat) == l
        },
        l != DegradationLevel::Normal ==> {
            let down = DegradationLevel::of_rank((l.rank() - 1) as nat);
            DegradationLevel::of_rank(down.rank() + 1) == l
        },
        DegradationLevel::of_rank(l.rank() + 1).rank() >= l.rank(),
        DegradationLevel::of_rank(l.rank()) == l,
        l.rank() >= f.rank() <==> (l == f || DegradationLevel::of_rank(f.rank() + 1).rank() <= l.rank()),
{
}

} // verus!
