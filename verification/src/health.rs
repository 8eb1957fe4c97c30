//! Health monitoring: per-component health checks and the system status
//! that they add up to.

use vstd::prelude::*;

use std::time::{Duration, Instant};

use crate::clock::{duration_from_secs, instant_now};
use crate::text::{decimal, push_decimal};

verus! {

broadcast use vstd::string::group_string_axioms;

/// Health status of a component.
#[derive(Debug, Clone, Copy, PartialEq, Eq, Structural, Default)]
pub enum HealthStatus {
    /// Component is healthy
    Healthy,
    /// Component is degraded but functional
    Degraded,
    /// Component is unhealthy
    Unhealthy,
    /// Component status is unknown
    #[default]
    Unknown,
}

impl HealthStatus {
    /// Check if the status is operational (healthy or degraded).
    pub fn is_ok(&self) -> (r: bool)
        ensures
            r == (*self == HealthStatus::Healthy || *self == HealthStatus::Degraded),
    {
        match self {
            HealthStatus::Healthy | HealthStatus::Degraded => true,
            _ => false,
        }
    }

    /// Check if the status is healthy.
    pub fn is_healthy(&self) -> (r: bool)
        ensures
            r == (*self == HealthStatus::Healthy),
    {
        match self {
            HealthStatus::Healthy => true,
            _ => false,
        }
    }

    /// The name of the status as `{:?}` prints it.
    pub fn name(&self) -> (r: &'static str)
        ensures
            r@ == status_name(*self),
    {
        match self {
            HealthStatus::Healthy => "Healthy",
            HealthStatus::Degraded => "Degraded",
            HealthStatus::Unhealthy => "Unhealthy",
            HealthStatus::Unknown => "Unknown",
        }
    }
}

/// The name of a status as `{:?}` prints it.
pub open spec fn status_name(s: HealthStatus) -> Seq<char> {
    match s {
        HealthStatus::Healthy => "Healthy"@,
        HealthStatus::Degraded => "Degraded"@,
        HealthStatus::Unhealthy => "Unhealthy"@,
        HealthStatus::Unknown => "Unknown"@,
    }
}

/// Health check result.
#[derive(Debug, Clone)]
pub struct HealthCheck {
    /// Component name
    pub component: String,
    /// Status
    pub status: HealthStatus,
    /// Last check time
    pub last_check: Instant,
    /// Details message
    pub message: String,
    /// Response time of the check, in whole milliseconds
    pub latency_ms: u64,
}

/// The report line of one check: status, component, message and latency.
pub open spec fn check_line(c: HealthCheck) -> Seq<char> {
    "["@ + status_name(c.status) + "] "@ + c.component@ + " - "@ + c.message@ + " ("@ + decimal(c.latency_ms as nat)
        + "ms)\n"@
}

/// The report lines of the checks of `cs`, in order.
pub open spec fn check_lines(cs: Seq<HealthCheck>) -> Seq<char>
    decreases cs.len(),
{
    if cs.len() == 0 {
        Seq::empty()
    } else {
        check_lines(cs.drop_last()) + check_line(cs.last())
    }
}

/// A health report: the status line, a blank line, then one line per check.
pub open spec fn report_text(status: HealthStatus, cs: Seq<HealthCheck>) -> Seq<char> {
    "System Status: "@ + status_name(status) + "\n\n"@ + check_lines(cs)
}

impl HealthCheck {
    /// Create a healthy check result, with message "OK".
    pub fn healthy(component: &str) -> (r: Self)
        ensures
            r.component@ == component@,
            r.status == HealthStatus::Healthy,
            r.message@ == "OK"@,
            r.latency_ms == 0,
    {
        HealthCheck {
            component: component.to_string(),
            status: HealthStatus::Healthy,
            last_check: instant_now(),
            message: "OK".to_string(),
            latency_ms: 0,
        }
    }

    /// Create an unhealthy check result.
    pub fn unhealthy(component: &str, message: &str) -> (r: Self)
        ensures
            r.component@ == component@,
            r.status == HealthStatus::Unhealthy,
            r.message@ == message@,
            r.latency_ms == 0,
    {
        HealthCheck {
            component: component.to_string(),
            status: HealthStatus::Unhealthy,
            last_check: instant_now(),
            message: message.to_string(),
            latency_ms: 0,
        }
    }

    /// Create a degraded check result.
    pub fn degraded(component: &str, message: &str) -> (r: Self)
        ensures
            r.component@ == component@,
            r.status == HealthStatus::Degraded,
            r.message@ == message@,
            r.latency_ms == 0,
    {
        HealthCheck {
            component: component.to_string(),
            status: HealthStatus::Degraded,
            last_check: instant_now(),
            message: message.to_string(),
            latency_ms: 0,
        }
    }

    /// Set the latency of this check, in milliseconds.
    pub fn with_latency(self, latency_ms: u64) -> (r: Self)
        ensures
            r == (HealthCheck { latency_ms, ..self }),
    {
        let mut s = self;
        s.latency_ms = latency_ms;
        s
    }

    /// Set the message of this check.
    pub fn with_message(self, message: &str) -> (r: Self)
        ensures
            r.message@ == message@,
            r.component == self.component,
            r.status == self.status,
            r.last_check == self.last_check,
            r.latency_ms == self.latency_ms,
    {
        let mut s = self;
        s.message = message.to_string();
        s
    }
}

/// Health configuration thresholds.
#[derive(Debug, Clone)]
pub struct HealthConfig {
    /// Max latency before degraded (ms)
    pub degraded_latency_ms: u64,
    /// Max latency before unhealthy (ms)
    pub unhealthy_latency_ms: u64,
    /// Max queue depth before degraded
    pub degraded_queue_depth: usize,
    /// Max queue depth before unhealthy
    pub unhealthy_queue_depth: usize,
    /// Max memory before degraded (bytes)
    pub degraded_memory_bytes: usize,
    /// Max memory before unhealthy (bytes)
    pub unhealthy_memory_bytes: usize,
    /// Check interval
    pub check_interval: Duration,
}

impl Default for HealthConfig {
    fn default() -> (r: Self)
        ensures
            r.degraded_latency_ms == 100,
            r.unhealthy_latency_ms == 1000,
            r.degraded_queue_depth == 1000,
            r.unhealthy_queue_depth == 10000,
            r.degraded_memory_bytes == 10_000_000,
            r.unhealthy_memory_bytes == 100_000_000,
    {
        HealthConfig {
            degraded_latency_ms: 100,
            unhealthy_latency_ms: 1000,
            degraded_queue_depth: 1000,
            unhealthy_queue_depth: 10000,
            degraded_memory_bytes: 10_000_000,
            unhealthy_memory_bytes: 100_000_000,
            check_interval: duration_from_secs(10),
        }
    }
}

/// Whether some check of `s` has status `st`.
pub open spec fn has_status(s: Seq<HealthCheck>, st: HealthStatus) -> bool {
    exists|i: int| 0 <= i < s.len() && s[i].status == st
}

/// The system status that checks add up to: unknown with no check,
/// unhealthy if one is unhealthy, else degraded if one is degraded, else
/// healthy.
pub open spec fn aggregate_status(s: Seq<HealthCheck>) -> HealthStatus {
    if s.len() == 0 {
        HealthStatus::Unknown
    } else if has_status(s, HealthStatus::Unhealthy) {
        HealthStatus::Unhealthy
    } else if has_status(s, HealthStatus::Degraded) {
        HealthStatus::Degraded
    } else {
        HealthStatus::Healthy
    }
}

/// The number of checks of `s` with status `st`.
pub open spec fn count_status(s: Seq<HealthCheck>, st: HealthStatus) -> nat
    decreases s.len(),
{
    if s.len() == 0 {
        0
    } else {
        count_status(s.drop_last(), st) + if s.last().status == st {
            1nat
        } else {
            0nat
        }
    }
}

/// The checks of `s` for components other than `name`, in order.
pub open spec fn without_component(s: Seq<HealthCheck>, name: Seq<char>) -> Seq<HealthCheck>
    decreases s.len(),
{
    if s.len() == 0 {
        Seq::empty()
    } else {
        (if s[0].component@ == name {
            Seq::empty()
        } else {
            seq![s[0]]
        }) + without_component(s.subrange(1, s.len() as int), name)
    }
}

/// No two checks of `s` are for the same component.
pub open spec fn components_unique(s: Seq<HealthCheck>) -> bool {
    forall|i: int, j: int| 0 <= i < j < s.len() ==> s[i].component@ != s[j].component@
}

/// Health monitor for the system.
#[derive(Debug)]
pub struct HealthMonitor {
    /// Component health checks
    checks: Vec<HealthCheck>,
    /// Degradation thresholds
    config: HealthConfig,
    /// Current system status
    system_status: HealthStatus,
}

impl HealthMonitor {
    /// The checks held, in the order they were added.
    pub closed spec fn spec_checks(&self) -> Seq<HealthCheck> {
        self.checks@
    }

    /// The configuration.
    pub closed spec fn spec_config(&self) -> HealthConfig {
        self.config
    }

    /// The system status.
    pub closed spec fn spec_status(&self) -> HealthStatus {
        self.system_status
    }

    /// One check per component, and the system status is what the checks
    /// add up to.
    pub open spec fn wf(&self) -> bool {
        &&& components_unique(self.spec_checks())
        &&& self.spec_status() == aggregate_status(self.spec_checks())
    }

    /// Create a new health monitor.
    pub fn new() -> (r: Self)
        ensures
            r.wf(),
            r.spec_checks() == Seq::<HealthCheck>::empty(),
            r.spec_status() == HealthStatus::Unknown,
    {
        HealthMonitor { checks: Vec::new(), config: HealthConfig::default(), system_status: HealthStatus::Unknown }
    }

    /// Create a health monitor with a custom configuration.
    pub fn with_config(config: HealthConfig) -> (r: Self)
        ensures
            r.wf(),
            r.spec_checks() == Seq::<HealthCheck>::empty(),
            r.spec_status() == HealthStatus::Unknown,
            r.spec_config() == config,
    {
        HealthMonitor { checks: Vec::new(), config, system_status: HealthStatus::Unknown }
    }

    /// Add a health check result, replacing any earlier check of the same
    /// component.
    pub fn add_check(&mut self, check: HealthCheck)
        requires
            old(self).wf(),
        ensures
            final(self).wf(),
            final(self).spec_checks() == without_component(old(self).spec_checks(), check.component@).push(
                check,
            ),
            final(self).spec_config() == old(self).spec_config(),
    {
        let name = check.component.clone();
        let ghost orig = self.checks@;
        let mut rest: Vec<HealthCheck> = Vec::new();
        std::mem::swap(&mut rest, &mut self.checks);
        let mut kept: Vec<HealthCheck> = Vec::new();
        while rest.len() > 0
            invariant
                name@ == check.component@,
                kept@ + without_component(rest@, name@) == without_component(orig, name@),
                components_unique(orig),
                forall|i: int| 0 <= i < kept@.len() ==> #[trigger] kept@[i].component@ != name@,
                forall|i: int| 0 <= i < kept@.len() ==> orig.contains(#[trigger] kept@[i]),
                forall|i: int| 0 <= i < rest@.len() ==> orig.contains(#[trigger] rest@[i]),
            decreases rest@.len(),
        {
            let ghost before = rest@;
            let c = rest.remove(0);
            assert(rest@ =~= before.subrange(1, before.len() as int));
            assert(orig.contains(before[0]));
            if c.component == name {
            } else {
                kept.push(c);
            }
            assert(kept@ + without_component(rest@, name@) =~= without_component(orig, name@));
        }
        assert(without_component(rest@, name@) =~= Seq::<HealthCheck>::empty());
        assert(kept@ =~= without_component(orig, name@));
        proof {
            lemma_without_component_facts(orig, name@);
        }
        kept.push(check);
        self.checks = kept;
        self.update_system_status();
    }

    /// Recompute the system status from the checks.
    fn update_system_status(&mut self)
        ensures
            final(self).spec_checks() == old(self).spec_checks(),
            final(self).spec_config() == old(self).spec_config(),
            final(self).spec_status() == aggregate_status(old(self).spec_checks()),
    {
        let n = self.checks.len();
        if n == 0 {
            self.system_status = HealthStatus::Unknown;
            return;
        }
        let mut unhealthy = false;
        let mut degraded = false;
        let mut i: usize = 0;
        while i < n
            invariant
                n == self.checks@.len(),
                i <= n,
                unhealthy == exists|k: int| 0 <= k < i && self.checks@[k].status == HealthStatus::Unhealthy,
                degraded == exists|k: int| 0 <= k < i && self.checks@[k].status == HealthStatus::Degraded,
            decreases n - i,
        {
            if self.checks[i].status == HealthStatus::Unhealthy {
                unhealthy = true;
            }
            if self.checks[i].status == HealthStatus::Degraded {
                degraded = true;
            }
            i = i + 1;
        }
        self.system_status = if unhealthy {
            HealthStatus::Unhealthy
        } else if degraded {
            HealthStatus::Degraded
        } else {
            HealthStatus::Healthy
        };
    }

    /// Get the current system status.
    pub fn status(&self) -> (r: HealthStatus)
        ensures
            r == self.spec_status(),
    {
        self.system_status
    }

    /// Get all checks.
    pub fn checks(&self) -> (r: &[HealthCheck])
        ensures
            r@ == self.spec_checks(),
    {
        self.checks.as_slice()
    }

    /// Get the configuration.
    pub fn config(&self) -> (r: &HealthConfig)
        ensures
            *r == self.spec_config(),
    {
        &self.config
    }

    /// Clear all checks.
    pub fn clear(&mut self)
        ensures
            final(self).wf(),
            final(self).spec_checks() == Seq::<HealthCheck>::empty(),
            final(self).spec_status() == HealthStatus::Unknown,
            final(self).spec_config() == old(self).spec_config(),
    {
        self.checks.clear();
        self.system_status = HealthStatus::Unknown;
    }

    /// Get the check of a specific component.
    pub fn get_check(&self, component: &str) -> (r: Option<&HealthCheck>)
        ensures
            match r {
                Some(c) => exists|i: int|
                    0 <= i < self.spec_checks().len() && self.spec_checks()[i] == *c && c.component@
                        == component@ && forall|j: int|
                        0 <= j < i ==> self.spec_checks()[j].component@ != component@,
                None => forall|i: int|
                    0 <= i < self.spec_checks().len() ==> self.spec_checks()[i].component@ != component@,
            },
    {
        let name = component.to_string();
        let n = self.checks.len();
        let mut i: usize = 0;
        while i < n
            invariant
                n == self.checks@.len(),
                i <= n,
                name@ == component@,
                forall|j: int| 0 <= j < i ==> self.checks@[j].component@ != component@,
            decreases n - i,
        {
            if self.checks[i].component == name {
                return Some(&self.checks[i]);
            }
            i = i + 1;
        }
        None
    }

    /// Generate a health report: the system status, then one line per
    /// check with status, component, message and latency in milliseconds.
    pub fn report(&self) -> (r: String)
        ensures
            r@ == report_text(self.spec_status(), self.spec_checks()),
    {
        let mut report = String::new();
        report.append("System Status: ");
        report.append(self.system_status.name());
        report.append("\n\n");
        let n = self.checks.len();
        let mut i: usize = 0;
        assert(self.checks@.take(0) =~= Seq::<HealthCheck>::empty());
        while i < n
            invariant
                n == self.checks@.len(),
                i <= n,
                report@ == report_text(self.system_status, self.checks@.take(i as int)),
            decreases n - i,
        {
            let check = &self.checks[i];
            report.append("[");
            report.append(check.status.name());
            report.append("] ");
            report.append(check.component.as_str());
            report.append(" - ");
            report.append(check.message.as_str());
            report.append(" (");
            push_decimal(&mut report, check.latency_ms);
            report.append("ms)\n");
            proof {
                assert(self.checks@.take(i + 1).drop_last() =~= self.checks@.take(i as int));
                assert(report@ =~= report_text(self.system_status, self.checks@.take(i + 1)));
            }
            i = i + 1;
        }
        assert(self.checks@.take(n as int) =~= self.checks@);
        report
    }

    /// Check if the system is operational.
    pub fn is_operational(&self) -> (r: bool)
        ensures
            r == (self.spec_status() == HealthStatus::Healthy || self.spec_status() == HealthStatus::Degraded),
    {
        self.system_status.is_ok()
    }

    /// Number of checks with a given status.
    fn count(&self, st: HealthStatus) -> (r: usize)
        ensures
            r == count_status(self.spec_checks(), st),
    {
        let n = self.checks.len();
        let mut c: usize = 0;
        let mut i: usize = 0;
        while i < n
            invariant
                n == self.checks@.len(),
                i <= n,
                c == count_status(self.checks@.subrange(0, i as int), st),
                c <= i,
            decreases n - i,
        {
            proof {
                let t = self.checks@.subrange(0, i + 1);
                assert(t.drop_last() =~= self.checks@.subrange(0, i as int));
            }
            if self.checks[i].status == st {
                c = c + 1;
            }
            i = i + 1;
        }
        assert(self.checks@.subrange(0, n as int) =~= self.checks@);
        c
    }

    /// Get the count of healthy components.
    pub fn healthy_count(&self) -> (r: usize)
        ensures
            r == count_status(self.spec_checks(), HealthStatus::Healthy),
    {
        self.count(HealthStatus::Healthy)
    }

    /// Get the count of degraded components.
    pub fn degraded_count(&self) -> (r: usize)
        ensures
            r == count_status(self.spec_checks(), HealthStatus::Degraded),
    {
        self.count(HealthStatus::Degraded)
    }

    /// Get the count of unhealthy components.
    pub fn unhealthy_count(&self) -> (r: usize)
        ensures
            r == count_status(self.spec_checks(), HealthStatus::Unhealthy),
    {
        self.count(HealthStatus::Unhealthy)
    }
}

/// Removing a component's checks keeps only checks of other components,
/// each from the original sequence, keeps them distinct, and drops exactly
/// the checks of that component.
pub proof fn lemma_without_component_facts(s: Seq<HealthCheck>, name: Seq<char>)
    ensures
        forall|i: int|
            0 <= i < without_component(s, name).len() ==> #[trigger] without_component(s, name)[i].component@
                != name,
        forall|i: int|
            0 <= i < without_component(s, name).len() ==> s.contains(#[trigger] without_component(s, name)[i]),
        components_unique(s) ==> components_unique(without_component(s, name)),
        forall|c: HealthCheck| s.contains(c) && c.component@ != name ==> without_component(s, name).contains(c),
    decreases s.len(),
{
    if s.len() > 0 {
        let t = s.subrange(1, s.len() as int);
        lemma_without_component_facts(t, name);
        let w = without_component(s, name);
        let wt = without_component(t, name);
        let head: Seq<HealthCheck> = if s[0].component@ == name {
            Seq::empty()
        } else {
            seq![s[0]]
        };
        assert(w == head + wt);
        assert forall|i: int| 0 <= i < w.len() implies s.contains(#[trigger] w[i]) by {
            if i < head.len() {
                assert(w[i] == s[0]);
            } else {
                assert(w[i] == wt[i - head.len()]);
                assert(t.contains(wt[i - head.len()]));
                let k = choose|k: int| 0 <= k < t.len() && t[k] == wt[i - head.len()];
                assert(s[k + 1] == t[k]);
            }
        }
        assert forall|i: int| 0 <= i < w.len() implies #[trigger] w[i].component@ != name by {
            if i >= head.len() {
                assert(w[i] == wt[i - head.len()]);
            }
        }
        if components_unique(s) {
            assert(components_unique(t)) by {
                assert forall|i: int, j: int| 0 <= i < j < t.len() implies t[i].component@ != t[j].component@ by {
                    assert(t[i] == s[i + 1]);
                    assert(t[j] == s[j + 1]);
                }
            }
            assert forall|i: int, j: int| 0 <= i < j < w.len() implies w[i].component@ != w[j].component@ by {
                if i < head.len() {
                    assert(w[i] == s[0]);
                    assert(w[j] == wt[j - 1]);
                    assert(t.contains(wt[j - 1]));
                    let k = choose|k: int| 0 <= k < t.len() && t[k] == wt[j - 1];
                    assert(s[k + 1] == t[k]);
                } else {
                    assert(w[i] == wt[i - head.len()]);
                    assert(w[j] == wt[j - head.len()]);
                }
            }
        }
        assert forall|c: HealthCheck| s.contains(c) && c.component@ != name implies w.contains(c) by {
            let k = choose|k: int| 0 <= k < s.len() && s[k] == c;
            if k == 0 {
                assert(w[0] == c);
            } else {
                assert(t[k - 1] == c);
                assert(t.contains(c));
                assert(wt.contains(c));
                let m = choose|m: int| 0 <= m < wt.len() && wt[m] == c;
                assert(w[m + head.len()] == c);
            }
        }
    }
}

/// Adding a check keeps one check per component: the new check is last,
/// every other component keeps its check, and the status is what the new
/// checks add up to.
pub proof fn lemma_add_check_keeps_others(s: Seq<HealthCheck>, check: HealthCheck, c: HealthCheck)
    requires
        s.contains(c),
        c.component@ != check.component@,
    ensures
        without_component(s, check.component@).push(check).contains(c),
        without_component(s, check.component@).push(check).last() == check,
{
    lemma_without_component_facts(s, check.component@);
    let w = without_component(s, check.component@);
    let k = choose|k: int| 0 <= k < w.len() && w[k] == c;
    assert(w.push(check)[k] == c);
}

/// Trait for components that can be health-checked.
pub trait HealthCheckable {
    /// Perform a health check.
    fn health_check(&self) -> HealthCheck;
}

/// An unhealthy component makes the whole system unhealthy, whatever the
/// other checks say; with no unhealthy one, a degraded component makes it
/// degraded; with checks all healthy it is healthy; with none, unknown. A
/// monitor is operational exactly when no check is unhealthy and it holds
/// at least one check.
pub proof fn lemma_system_status(m: HealthMonitor)
    requires
        m.wf(),
    ensures
        (exists|i: int| 0 <= i < m.spec_checks().len() && m.spec_checks()[i].status == HealthStatus::Unhealthy)
            ==> m.spec_status() == HealthStatus::Unhealthy,
        (forall|i: int| 0 <= i < m.spec_checks().len() ==> m.spec_checks()[i].status != HealthStatus::Unhealthy)
            && (exists|i: int| 0 <= i < m.spec_checks().len() && m.spec_checks()[i].status == HealthStatus::Degraded)
            ==> m.spec_status() == HealthStatus::Degraded,
        m.spec_checks().len() > 0 && (forall|i: int|
            0 <= i < m.spec_checks().len() ==> m.spec_checks()[i].status == HealthStatus::Healthy) ==> m.spec_status()
            == HealthStatus::Healthy,
        m.spec_checks().len() == 0 ==> m.spec_status() == HealthStatus::Unknown,
        (m.spec_status() == HealthStatus::Healthy || m.spec_status() == HealthStatus::Degraded) <==> (
        m.spec_checks().len() > 0 && forall|i: int|
            0 <= i < m.spec_checks().len() ==> m.spec_checks()[i].status != HealthStatus::Unhealthy),
{
    let s = m.spec_checks();
    if s.len() > 0 && (forall|i: int| 0 <= i < s.len() ==> s[i].status == HealthStatus::Healthy) {
        assert(!has_status(s, HealthStatus::Unhealthy)) by {
            if has_status(s, HealthStatus::Unhealthy) {
                let i = choose|i: int| 0 <= i < s.len() && s[i].status == HealthStatus::Unhealthy;
                assert(s[i].status == HealthStatus::Healthy);
            }
        }
        assert(!has_status(s, HealthStatus::Degraded)) by {
            if has_status(s, HealthStatus::Degraded) {
                let i = choose|i: int| 0 <= i < s.len() && s[i].status == HealthStatus::Degraded;
                assert(s[i].status == HealthStatus::Healthy);
            }
        }
    }
}

} // verus!
