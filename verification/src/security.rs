//! Security: configuration, audit events with their filter and an
//! in-memory audit log, and certificate fingerprint validation.

use vstd::prelude::*;

use std::collections::HashMap;
use crate::clock::unix_now_secs;
use crate::text::{decimal, push_decimal};

verus! {

broadcast use {vstd::string::group_string_axioms, vstd::std_specs::hash::group_hash_axioms};

/// Security configuration.
#[derive(Debug, Clone)]
pub struct SecurityConfig {
    /// Enable TLS/DTLS
    pub tls_enabled: bool,
    /// Require client certificates (mTLS)
    pub mtls_required: bool,
    /// Allowed certificate fingerprints (if mTLS)
    pub allowed_fingerprints: Vec<String>,
    /// Enable audit logging
    pub audit_enabled: bool,
    /// Rate limit (messages per second per emitter)
    pub rate_limit: Option<u32>,
    /// Rate limit burst size
    pub rate_burst: Option<u32>,
}

impl SecurityConfig {
    /// Everything off, no fingerprint, no rate limit.
    pub open spec fn is_default_config(&self) -> bool {
        &&& !self.tls_enabled
        &&& !self.mtls_required
        &&& self.allowed_fingerprints@.len() == 0
        &&& !self.audit_enabled
        &&& self.rate_limit is None
        &&& self.rate_burst is None
    }

    /// Create a new default configuration.
    pub fn new() -> (r: Self)
        ensures
            r.is_default_config(),
    {
        Self::default()
    }

    /// A secure configuration: TLS, mTLS and audit on, 1000 messages per
    /// second with bursts of 100.
    pub fn secure() -> (r: Self)
        ensures
            r.tls_enabled,
            r.mtls_required,
            r.allowed_fingerprints@.len() == 0,
            r.audit_enabled,
            r.rate_limit == Some(1000u32),
            r.rate_burst == Some(100u32),
    {
        SecurityConfig {
            tls_enabled: true,
            mtls_required: true,
            allowed_fingerprints: Vec::new(),
            audit_enabled: true,
            rate_limit: Some(1000),
            rate_burst: Some(100),
        }
    }

    /// A configuration with rate limiting only.
    pub fn with_rate_limit(rate: u32, burst: u32) -> (r: Self)
        ensures
            !r.tls_enabled,
            !r.mtls_required,
            r.allowed_fingerprints@.len() == 0,
            !r.audit_enabled,
            r.rate_limit == Some(rate),
            r.rate_burst == Some(burst),
    {
        let mut s = Self::default();
        s.rate_limit = Some(rate);
        s.rate_burst = Some(burst);
        s
    }

    /// A configuration with audit logging only.
    pub fn with_audit() -> (r: Self)
        ensures
            !r.tls_enabled,
            !r.mtls_required,
            r.allowed_fingerprints@.len() == 0,
            r.audit_enabled,
            r.rate_limit is None,
            r.rate_burst is None,
    {
        let mut s = Self::default();
        s.audit_enabled = true;
        s
    }

    /// Add an allowed certificate fingerprint at the end of the list.
    pub fn allow_fingerprint(self, fingerprint: &str) -> (r: Self)
        ensures
            r.allowed_fingerprints@.len() == self.allowed_fingerprints@.len() + 1,
            r.allowed_fingerprints@.drop_last() == self.allowed_fingerprints@,
            r.allowed_fingerprints@.last()@ == fingerprint@,
            r.tls_enabled == self.tls_enabled,
            r.mtls_required == self.mtls_required,
            r.audit_enabled == self.audit_enabled,
            r.rate_limit == self.rate_limit,
            r.rate_burst == self.rate_burst,
    {
        let mut s = self;
        s.allowed_fingerprints.push(fingerprint.to_string());
        assert(s.allowed_fingerprints@.drop_last() =~= self.allowed_fingerprints@);
        s
    }
}

impl Default for SecurityConfig {
    fn default() -> (r: Self)
        ensures
            r.is_default_config(),
    {
        SecurityConfig {
            tls_enabled: false,
            mtls_required: false,
            allowed_fingerprints: Vec::new(),
            audit_enabled: false,
            rate_limit: None,
            rate_burst: None,
        }
    }
}

/// Audit event types.
#[derive(Debug, Clone, Copy, PartialEq, Eq, Structural, Hash)]
pub enum AuditEventType {
    /// New connection established
    ConnectionEstablished,
    /// Connection closed
    ConnectionClosed,
    /// Authentication succeeded
    AuthSuccess,
    /// Authentication failed
    AuthFailure,
    /// Message received
    MessageReceived,
    /// Message sent
    MessageSent,
    /// Rate limit exceeded
    RateLimitExceeded,
    /// Anomaly detected
    AnomalyDetected,
    /// Context sync operation
    ContextSync,
    /// Error occurred
    Error,
    /// Configuration changed
    ConfigChanged,
    /// Emitter registered
    EmitterRegistered,
    /// Emitter removed
    EmitterRemoved,
}

/// The text of an event type, as it appears in log lines.
pub open spec fn event_type_text(t: AuditEventType) -> Seq<char> {
    match t {
        AuditEventType::ConnectionEstablished => "CONNECTION_ESTABLISHED"@,
        AuditEventType::ConnectionClosed => "CONNECTION_CLOSED"@,
        AuditEventType::AuthSuccess => "AUTH_SUCCESS"@,
        AuditEventType::AuthFailure => "AUTH_FAILURE"@,
        AuditEventType::MessageReceived => "MESSAGE_RECEIVED"@,
        AuditEventType::MessageSent => "MESSAGE_SENT"@,
        AuditEventType::RateLimitExceeded => "RATE_LIMIT_EXCEEDED"@,
        AuditEventType::AnomalyDetected => "ANOMALY_DETECTED"@,
        AuditEventType::ContextSync => "CONTEXT_SYNC"@,
        AuditEventType::Error => "ERROR"@,
        AuditEventType::ConfigChanged => "CONFIG_CHANGED"@,
        AuditEventType::EmitterRegistered => "EMITTER_REGISTERED"@,
        AuditEventType::EmitterRemoved => "EMITTER_REMOVED"@,
    }
}

impl AuditEventType {
    /// The text of this event type, as it appears in log lines.
    pub fn as_str(&self) -> (r: &'static str)
        ensures
            r@ == event_type_text(*self),
    {
        match self {
            AuditEventType::ConnectionEstablished => "CONNECTION_ESTABLISHED",
            AuditEventType::ConnectionClosed => "CONNECTION_CLOSED",
            AuditEventType::AuthSuccess => "AUTH_SUCCESS",
            AuditEventType::AuthFailure => "AUTH_FAILURE",
            AuditEventType::MessageReceived => "MESSAGE_RECEIVED",
            AuditEventType::MessageSent => "MESSAGE_SENT",
            AuditEventType::RateLimitExceeded => "RATE_LIMIT_EXCEEDED",
            AuditEventType::AnomalyDetected => "ANOMALY_DETECTED",
            AuditEventType::ContextSync => "CONTEXT_SYNC",
            AuditEventType::Error => "ERROR",
            AuditEventType::ConfigChanged => "CONFIG_CHANGED",
            AuditEventType::EmitterRegistered => "EMITTER_REGISTERED",
            AuditEventType::EmitterRemoved => "EMITTER_REMOVED",
        }
    }
}

/// Severity levels of audit events.
#[derive(Debug, Clone, Copy, PartialEq, Eq, Structural, PartialOrd, Ord)]
pub enum Severity {
    /// Informational event
    Info,
    /// Low importance
    Low,
    /// Medium importance
    Medium,
    /// High importance
    High,
    /// Critical event
    Critical,
}

/// The severity of a level: 1 Info up to 5 Critical, levels above 5 are
/// Critical and 0 is Info.
pub open spec fn severity_of_level(value: u8) -> Severity {
    if value == 2 {
        Severity::Low
    } else if value == 3 {
        Severity::Medium
    } else if value == 4 {
        Severity::High
    } else if value >= 5 {
        Severity::Critical
    } else {
        Severity::Info
    }
}

/// The text of a severity as `{:?}` prints it.
pub open spec fn severity_text(s: Severity) -> Seq<char> {
    match s {
        Severity::Info => "Info"@,
        Severity::Low => "Low"@,
        Severity::Medium => "Medium"@,
        Severity::High => "High"@,
        Severity::Critical => "Critical"@,
    }
}

impl Severity {
    /// The level of a severity, 1 (Info) to 5 (Critical).
    pub open spec fn level(self) -> u8 {
        match self {
            Severity::Info => 1,
            Severity::Low => 2,
            Severity::Medium => 3,
            Severity::High => 4,
            Severity::Critical => 5,
        }
    }

    /// The level of this severity.
    pub fn to_level(&self) -> (r: u8)
        ensures
            r == self.level(),
    {
        match self {
            Severity::Info => 1,
            Severity::Low => 2,
            Severity::Medium => 3,
            Severity::High => 4,
            Severity::Critical => 5,
        }
    }

    /// The text of this severity as `{:?}` prints it.
    pub fn name(&self) -> (r: &'static str)
        ensures
            r@ == severity_text(*self),
    {
        match self {
            Severity::Info => "Info",
            Severity::Low => "Low",
            Severity::Medium => "Medium",
            Severity::High => "High",
            Severity::Critical => "Critical",
        }
    }
}

impl From<u8> for Severity {
    fn from(value: u8) -> (r: Self) {
        match value {
            2 => Severity::Low,
            3 => Severity::Medium,
            4 => Severity::High,
            0 | 1 => Severity::Info,
            _ => Severity::Critical,
        }
    }
}

impl vstd::std_specs::convert::FromSpecImpl<u8> for Severity {
    open spec fn obeys_from_spec() -> bool {
        true
    }

    open spec fn from_spec(value: u8) -> Severity {
        severity_of_level(value)
    }
}

/// Levels and severities correspond: each severity's level gives it back.
pub proof fn lemma_severity_levels(s: Severity)
    ensures
        severity_of_level(s.level()) == s,
        1 <= s.level() <= 5,
{
}

/// Audit event.
#[derive(Debug, Clone)]
pub struct AuditEvent {
    /// Timestamp (Unix epoch seconds)
    pub timestamp: u64,
    /// Event type
    pub event_type: AuditEventType,
    /// Emitter ID (if applicable)
    pub emitter_id: Option<u32>,
    /// Additional details
    pub details: String,
    /// Severity level
    pub severity: Severity,
}

/// The log line of an event: timestamp, severity, type, emitter if any,
/// details.
pub open spec fn log_line(e: AuditEvent) -> Seq<char> {
    "["@ + decimal(e.timestamp as nat) + "] "@ + severity_text(e.severity) + " "@ + event_type_text(e.event_type)
        + match e.emitter_id {
        Some(id) => " emitter="@ + decimal(id as nat),
        None => Seq::empty(),
    } + " - "@ + e.details@
}

impl AuditEvent {
    /// Create a new audit event stamped with the current Unix time.
    pub fn new(event_type: AuditEventType, details: &str) -> (r: Self)
        ensures
            r.event_type == event_type,
            r.emitter_id is None,
            r.details@ == details@,
            r.severity == Severity::Info,
    {
        AuditEvent {
            timestamp: unix_now_secs(),
            event_type,
            emitter_id: None,
            details: details.to_string(),
            severity: Severity::Info,
        }
    }

    /// Create an audit event with a specific timestamp.
    pub fn with_timestamp(event_type: AuditEventType, details: &str, timestamp: u64) -> (r: Self)
        ensures
            r.timestamp == timestamp,
            r.event_type == event_type,
            r.emitter_id is None,
            r.details@ == details@,
            r.severity == Severity::Info,
    {
        AuditEvent { timestamp, event_type, emitter_id: None, details: details.to_string(), severity: Severity::Info }
    }

    /// Set the emitter ID.
    pub fn with_emitter(self, emitter_id: u32) -> (r: Self)
        ensures
            r == (AuditEvent { emitter_id: Some(emitter_id), ..self }),
    {
        let mut s = self;
        s.emitter_id = Some(emitter_id);
        s
    }

    /// Set the severity level.
    pub fn with_severity(self, severity: Severity) -> (r: Self)
        ensures
            r == (AuditEvent { severity, ..self }),
    {
        let mut s = self;
        s.severity = severity;
        s
    }

    /// Set the severity from a level clamped to 1..=5.
    pub fn with_severity_level(self, level: u8) -> (r: Self)
        ensures
            r == (AuditEvent {
                severity: severity_of_level(if level < 1 {
                    1u8
                } else if level > 5 {
                    5u8
                } else {
                    level
                }),
                ..self
            }),
    {
        let clamped: u8 = if level < 1 {
            1
        } else if level > 5 {
            5
        } else {
            level
        };
        let mut s = self;
        s.severity = Severity::from(clamped);
        s
    }

    /// Format as a log line.
    pub fn to_log_line(&self) -> (r: String)
        ensures
            r@ == log_line(*self),
    {
        let mut line = String::new();
        line.append("[");
        push_decimal(&mut line, self.timestamp);
        line.append("] ");
        line.append(self.severity.name());
        line.append(" ");
        line.append(self.event_type.as_str());
        let ghost before = line@;
        match self.emitter_id {
            Some(id) => {
                line.append(" emitter=");
                push_decimal(&mut line, id as u64);
            },
            None => {},
        }
        line.append(" - ");
        line.append(self.details.as_str());
        assert(line@ =~= log_line(*self));
        line
    }

    /// A copy of this event.
    pub fn duplicate(&self) -> (r: Self)
        ensures
            r == *self,
    {
        AuditEvent {
            timestamp: self.timestamp,
            event_type: self.event_type,
            emitter_id: self.emitter_id,
            details: self.details.clone(),
            severity: self.severity,
        }
    }
}

/// Audit logger.
pub trait AuditLogger {
    /// The event this logger was last handed, if any.
    spec fn last_logged(&self) -> Option<AuditEvent>;

    /// Whether no event handed to this logger waits to be written out.
    spec fn is_flushed(&self) -> bool;

    /// Log an audit event.
    fn log(&mut self, event: AuditEvent)
        ensures
            final(self).last_logged() == Some(event),
    ;

    /// Flush pending logs.
    fn flush(&mut self)
        ensures
            final(self).is_flushed(),
            final(self).last_logged() == old(self).last_logged(),
    ;

    /// Get the events matching a filter (none unless the logger keeps
    /// events).
    fn query(&self, filter: &AuditFilter) -> (r: Vec<AuditEvent>)
        default_ensures
            r@ == Seq::<AuditEvent>::empty(),
    {
        Vec::new()
    }
}

/// Filter for querying audit events.
#[derive(Debug, Clone, Copy)]
pub struct AuditFilter {
    /// Filter by event type
    pub event_type: Option<AuditEventType>,
    /// Filter by emitter ID
    pub emitter_id: Option<u32>,
    /// Filter by minimum severity
    pub min_severity: Option<Severity>,
    /// Filter by time range (start)
    pub from_timestamp: Option<u64>,
    /// Filter by time range (end)
    pub to_timestamp: Option<u64>,
}

impl AuditFilter {
    /// Whether an event passes every condition the filter sets.
    pub open spec fn spec_matches(self, e: AuditEvent) -> bool {
        &&& (self.event_type matches Some(t) ==> e.event_type == t)
        &&& (self.emitter_id matches Some(id) ==> e.emitter_id == Some(id))
        &&& (self.min_severity matches Some(m) ==> e.severity.level() >= m.level())
        &&& (self.from_timestamp matches Some(f) ==> e.timestamp >= f)
        &&& (self.to_timestamp matches Some(t) ==> e.timestamp <= t)
    }

    /// Check if an event matches this filter.
    pub fn matches(&self, event: &AuditEvent) -> (r: bool)
        ensures
            r == self.spec_matches(*event),
    {
        if let Some(et) = self.event_type {
            if event.event_type != et {
                return false;
            }
        }
        if let Some(eid) = self.emitter_id {
            match event.emitter_id {
                Some(x) => {
                    if x != eid {
                        return false;
                    }
                },
                None => {
                    return false;
                },
            }
        }
        if let Some(min_sev) = self.min_severity {
            if event.severity.to_level() < min_sev.to_level() {
                return false;
            }
        }
        if let Some(from) = self.from_timestamp {
            if event.timestamp < from {
                return false;
            }
        }
        if let Some(to) = self.to_timestamp {
            if event.timestamp > to {
                return false;
            }
        }
        true
    }
}

impl Default for AuditFilter {
    fn default() -> (r: Self)
        ensures
            r.event_type is None,
            r.emitter_id is None,
            r.min_severity is None,
            r.from_timestamp is None,
            r.to_timestamp is None,
    {
        AuditFilter { event_type: None, emitter_id: None, min_severity: None, from_timestamp: None, to_timestamp: None }
    }
}

/// A filter that matches every event.
pub proof fn lemma_empty_filter_matches_all(f: AuditFilter, e: AuditEvent)
    requires
        f.event_type is None,
        f.emitter_id is None,
        f.min_severity is None,
        f.from_timestamp is None,
        f.to_timestamp is None,
    ensures
        f.spec_matches(e),
{
}

/// The events of `s` for which `keep` holds, in order.
pub open spec fn select_events(s: Seq<AuditEvent>, keep: spec_fn(AuditEvent) -> bool) -> Seq<AuditEvent>
    decreases s.len(),
{
    if s.len() == 0 {
        Seq::empty()
    } else {
        select_events(s.drop_last(), keep) + if keep(s.last()) {
            seq![s.last()]
        } else {
            Seq::empty()
        }
    }
}

/// The events a log of capacity `max` holds after logging `e`: the oldest
/// is dropped first when the log is full.
pub open spec fn after_log(events: Seq<AuditEvent>, max: nat, e: AuditEvent) -> Seq<AuditEvent> {
    if events.len() >= max {
        events.subrange(1, events.len() as int).push(e)
    } else {
        events.push(e)
    }
}

/// Simple in-memory audit logger, keeping the most recent events up to a
/// capacity.
#[derive(Debug)]
pub struct MemoryAuditLogger {
    events: Vec<AuditEvent>,
    max_events: usize,
}

impl MemoryAuditLogger {
    #[verifier::type_invariant]
    spec fn within_capacity(self) -> bool {
        0 < self.max_events && self.events@.len() <= self.max_events
    }

    /// The events held, oldest first.
    pub closed spec fn spec_events(&self) -> Seq<AuditEvent> {
        self.events@
    }

    /// The capacity.
    pub closed spec fn spec_max_events(&self) -> nat {
        self.max_events as nat
    }

    /// Create a memory logger with the given capacity.
    pub fn new(max_events: usize) -> (r: Self)
        requires
            max_events > 0,
        ensures
            r.spec_events() == Seq::<AuditEvent>::empty(),
            r.spec_max_events() == max_events,
            r.last_logged() is None,
    {
        MemoryAuditLogger { events: Vec::new(), max_events }
    }

    /// The events selected by a predicate, copied.
    fn select(&self, Ghost(keep): Ghost<spec_fn(AuditEvent) -> bool>, filter: &AuditFilter, mode: u8, key_type: AuditEventType, key_emitter: u32) -> (r: Vec<AuditEvent>)
        requires
            forall|e: AuditEvent|
                #[trigger] keep(e) == (if mode == 0 {
                    filter.spec_matches(e)
                } else if mode == 1 {
                    e.event_type == key_type
                } else {
                    e.emitter_id == Some(key_emitter)
                }),
        ensures
            r@ == select_events(self.spec_events(), keep),
    {
        let n = self.events.len();
        let mut r: Vec<AuditEvent> = Vec::new();
        let mut i: usize = 0;
        while i < n
            invariant
                n == self.events@.len(),
                i <= n,
                r@ == select_events(self.events@.subrange(0, i as int), keep),
                forall|e: AuditEvent|
                    #[trigger] keep(e) == (if mode == 0 {
                        filter.spec_matches(e)
                    } else if mode == 1 {
                        e.event_type == key_type
                    } else {
                        e.emitter_id == Some(key_emitter)
                    }),
            decreases n - i,
        {
            let e = &self.events[i];
            let take = if mode == 0 {
                filter.matches(e)
            } else if mode == 1 {
                e.event_type == key_type
            } else {
                e.emitter_id == Some(key_emitter)
            };
            proof {
                let t = self.events@.subrange(0, i + 1);
                assert(t.drop_last() =~= self.events@.subrange(0, i as int));
                assert(t.last() == self.events@[i as int]);
                assert(take == keep(self.events@[i as int]));
            }
            if take {
                r.push(e.duplicate());
            }
            i = i + 1;
        }
        assert(self.events@.subrange(0, n as int) =~= self.events@);
        r
    }

    /// Get all stored events, oldest first.
    pub fn events(&self) -> (r: Vec<AuditEvent>)
        ensures
            r@ == self.spec_events(),
    {
        let n = self.events.len();
        let mut r: Vec<AuditEvent> = Vec::new();
        let mut i: usize = 0;
        while i < n
            invariant
                n == self.events@.len(),
                i <= n,
                r@ == self.events@.subrange(0, i as int),
            decreases n - i,
        {
            r.push(self.events[i].duplicate());
            i = i + 1;
            assert(r@ =~= self.events@.subrange(0, i as int));
        }
        assert(self.events@.subrange(0, n as int) =~= self.events@);
        r
    }

    /// Get the event count.
    pub fn len(&self) -> (r: usize)
        ensures
            r == self.spec_events().len(),
    {
        self.events.len()
    }

    /// Check if empty.
    pub fn is_empty(&self) -> (r: bool)
        ensures
            r == (self.spec_events().len() == 0),
    {
        self.events.len() == 0
    }

    /// Clear all events.
    pub fn clear(&mut self)
        ensures
            final(self).spec_events() == Seq::<AuditEvent>::empty(),
            final(self).spec_max_events() == old(self).spec_max_events(),
    {
        proof {
            use_type_invariant(&*self);
        }
        self.events = Vec::new();
    }

    /// Get the events of a type, oldest first.
    pub fn events_by_type(&self, event_type: AuditEventType) -> (r: Vec<AuditEvent>)
        ensures
            r@ == select_events(self.spec_events(), |e: AuditEvent| e.event_type == event_type),
    {
        let f = AuditFilter::default();
        let ghost keep = |e: AuditEvent| e.event_type == event_type;
        self.select(Ghost(keep), &f, 1, event_type, 0)
    }

    /// Get the events of an emitter, oldest first.
    pub fn events_by_emitter(&self, emitter_id: u32) -> (r: Vec<AuditEvent>)
        ensures
            r@ == select_events(self.spec_events(), |e: AuditEvent| e.emitter_id == Some(emitter_id)),
    {
        let f = AuditFilter::default();
        let ghost keep = |e: AuditEvent| e.emitter_id == Some(emitter_id);
        self.select(Ghost(keep), &f, 2, AuditEventType::Error, emitter_id)
    }
}

impl Default for MemoryAuditLogger {
    fn default() -> (r: Self)
        ensures
            r.spec_events() == Seq::<AuditEvent>::empty(),
            r.spec_max_events() == 10000,
    {
        Self::new(10000)
    }
}

impl AuditLogger for MemoryAuditLogger {
    /// The newest event kept.
    closed spec fn last_logged(&self) -> Option<AuditEvent> {
        if self.events@.len() == 0 {
            None
        } else {
            Some(self.events@.last())
        }
    }

    /// A memory logger writes nothing out, so nothing ever waits.
    closed spec fn is_flushed(&self) -> bool {
        true
    }

    /// Log an event, dropping the oldest one first when the log is full.
    fn log(&mut self, event: AuditEvent)
        ensures
            final(self).spec_events() == after_log(old(self).spec_events(), old(self).spec_max_events(), event),
            final(self).spec_max_events() == old(self).spec_max_events(),
    {
        proof {
            use_type_invariant(&*self);
        }
        let mut events: Vec<AuditEvent> = Vec::new();
        std::mem::swap(&mut events, &mut self.events);
        if events.len() >= self.max_events {
            events.remove(0);
        }
        events.push(event);
        self.events = events;
        assert(self.events@ =~= after_log(old(self).spec_events(), old(self).spec_max_events(), event));
    }

    /// Nothing to flush for a memory logger.
    fn flush(&mut self) {
    }

    /// The events matching the filter, oldest first.
    fn query(&self, filter: &AuditFilter) -> (r: Vec<AuditEvent>)
        ensures
            r@ == select_events(self.spec_events(), |e: AuditEvent| filter.spec_matches(e)),
    {
        let ghost keep = |e: AuditEvent| filter.spec_matches(e);
        self.select(Ghost(keep), filter, 0, AuditEventType::Error, 0)
    }
}

/// The newest `max` events of `es` (all of them when there are fewer).
pub open spec fn newest(es: Seq<AuditEvent>, max: nat) -> Seq<AuditEvent> {
    if es.len() <= max {
        es
    } else {
        es.subrange(es.len() - max, es.len() as int)
    }
}

/// A memory log keeps the newest events logged: if it holds the newest
/// `max` events of those logged so far, after logging one more it holds
/// the newest `max` of those, in logging order. From an empty log, after
/// logging `e_1 .. e_n` it holds the last `min(n, max)` of them.
pub proof fn lemma_log_keeps_newest(es: Seq<AuditEvent>, max: nat, e: AuditEvent)
    requires
        max > 0,
    ensures
        after_log(newest(es, max), max, e) == newest(es.push(e), max),
{
    let t = es.push(e);
    if es.len() < max {
        assert(newest(es, max) == es);
    } else {
        let held = newest(es, max);
        assert(held.len() == max);
        assert(after_log(held, max, e) =~= t.subrange(t.len() - max, t.len() as int));
    }
}

/// A log never holds more events than its capacity, and logging keeps the
/// newest event last.
pub proof fn lemma_log_bounded(events: Seq<AuditEvent>, max: nat, e: AuditEvent)
    requires
        0 < max,
        events.len() <= max,
    ensures
        after_log(events, max, e).len() <= max,
        after_log(events, max, e).last() == e,
        events.len() < max ==> after_log(events, max, e).len() == events.len() + 1,
{
}

/// Certificate validation result.
#[derive(Debug, Clone, Copy, PartialEq, Eq, Structural)]
pub enum CertValidation {
    /// Certificate is valid
    Valid,
    /// Certificate has expired
    Expired,
    /// Certificate is not yet valid
    NotYetValid,
    /// Invalid signature
    InvalidSignature,
    /// Unknown certificate issuer
    UnknownIssuer,
    /// Certificate has been revoked
    Revoked,
    /// Fingerprint not in allowed list
    FingerprintMismatch,
    /// Self-signed certificate (may be allowed)
    SelfSigned,
}

/// The text of a validation result.
pub open spec fn cert_validation_text(v: CertValidation) -> Seq<char> {
    match v {
        CertValidation::Valid => "Valid"@,
        CertValidation::Expired => "Certificate expired"@,
        CertValidation::NotYetValid => "Certificate not yet valid"@,
        CertValidation::InvalidSignature => "Invalid signature"@,
        CertValidation::UnknownIssuer => "Unknown issuer"@,
        CertValidation::Revoked => "Certificate revoked"@,
        CertValidation::FingerprintMismatch => "Fingerprint mismatch"@,
        CertValidation::SelfSigned => "Self-signed certificate"@,
    }
}

impl CertValidation {
    /// The text of this validation result.
    pub fn as_str(&self) -> (r: &'static str)
        ensures
            r@ == cert_validation_text(*self),
    {
        match self {
            CertValidation::Valid => "Valid",
            CertValidation::Expired => "Certificate expired",
            CertValidation::NotYetValid => "Certificate not yet valid",
            CertValidation::InvalidSignature => "Invalid signature",
            CertValidation::UnknownIssuer => "Unknown issuer",
            CertValidation::Revoked => "Certificate revoked",
            CertValidation::FingerprintMismatch => "Fingerprint mismatch",
            CertValidation::SelfSigned => "Self-signed certificate",
        }
    }
}

/// Validate a certificate fingerprint against an allowed list: valid when
/// the list is empty or holds the fingerprint, else a mismatch.
pub fn validate_fingerprint(fingerprint: &str, allowed: &[String]) -> (r: CertValidation)
    ensures
        r == (if allowed@.len() == 0 || exists|i: int| 0 <= i < allowed@.len() && allowed@[i]@ == fingerprint@ {
            CertValidation::Valid
        } else {
            CertValidation::FingerprintMismatch
        }),
{
    if allowed.len() == 0 {
        return CertValidation::Valid;
    }
    let wanted = fingerprint.to_string();
    let n = allowed.len();
    let mut i: usize = 0;
    while i < n
        invariant
            n == allowed@.len(),
            i <= n,
            wanted@ == fingerprint@,
            forall|j: int| 0 <= j < i ==> allowed@[j]@ != fingerprint@,
        decreases n - i,
    {
        if allowed[i] == wanted {
            return CertValidation::Valid;
        }
        i = i + 1;
    }
    CertValidation::FingerprintMismatch
}

/// Tokens after `elapsed` seconds at `rate` tokens per second, from
/// `tokens`, capped at `burst`.
pub open spec fn refilled(tokens: u64, elapsed: u64, rate: u32, burst: u32) -> u64 {
    if tokens + elapsed * rate < burst {
        (tokens + elapsed * rate) as u64
    } else {
        burst as u64
    }
}

/// `a - b`, or 0 when `b` is larger.
pub open spec fn saturating_diff(a: u64, b: u64) -> u64 {
    if a >= b {
        (a - b) as u64
    } else {
        0
    }
}

/// A rate limiter, by value.
#[verifier::ext_equal]
pub struct RateLimiterView {
    pub rate: u32,
    pub burst: u32,
    /// Tokens per emitter
    pub tokens: Map<u32, u64>,
    /// Last refill time per emitter (in seconds)
    pub last_update: Map<u32, u64>,
}

/// The tokens an emitter holds at `now` before a request: its stored
/// tokens (a full bucket for a new emitter) refilled for the seconds since
/// its last refill.
pub open spec fn tokens_at(v: RateLimiterView, emitter_id: u32, now_secs: u64) -> u64 {
    let tokens = if v.tokens.contains_key(emitter_id) { v.tokens[emitter_id] } else { v.burst as u64 };
    let last = if v.last_update.contains_key(emitter_id) { v.last_update[emitter_id] } else { now_secs };
    let elapsed = saturating_diff(now_secs, last);
    if elapsed > 0 {
        refilled(tokens, elapsed, v.rate, v.burst)
    } else {
        tokens
    }
}

/// The refill time an emitter keeps after a request at `now`.
pub open spec fn refill_time(v: RateLimiterView, emitter_id: u32, now_secs: u64) -> u64 {
    let last = if v.last_update.contains_key(emitter_id) { v.last_update[emitter_id] } else { now_secs };
    if saturating_diff(now_secs, last) > 0 {
        now_secs
    } else {
        last
    }
}

/// A request at `now` refills an emitter once: if its refill time is not
/// past `now`, the refill time it keeps is `now`, so whatever tokens it is
/// left with are exactly what a second request at the same `now` sees (no
/// second refill). Hence at one time an emitter is allowed at most as many
/// requests as it held tokens at the first of them.
pub proof fn lemma_refill_once_per_time(v: RateLimiterView, emitter_id: u32, now_secs: u64, left: u64)
    requires
        v.last_update.contains_key(emitter_id) ==> v.last_update[emitter_id] <= now_secs,
    ensures
        ({
            let w = RateLimiterView {
                tokens: v.tokens.insert(emitter_id, left),
                last_update: v.last_update.insert(emitter_id, refill_time(v, emitter_id, now_secs)),
                ..v
            };
            &&& w.last_update[emitter_id] == now_secs
            &&& tokens_at(w, emitter_id, now_secs) == left
        }),
{
}

/// Rate limiter using the token bucket algorithm. Tokens are whole: the
/// bucket starts full, gains `rate` tokens per elapsed second up to `burst`
/// and loses one per allowed request.
#[derive(Debug)]
pub struct RateLimiter {
    /// Tokens per second
    rate: u32,
    /// Maximum burst size
    burst: u32,
    /// Current tokens per emitter
    tokens: HashMap<u32, u64>,
    /// Last update time per emitter (in seconds)
    last_update: HashMap<u32, u64>,
}

impl View for RateLimiter {
    type V = RateLimiterView;

    closed spec fn view(&self) -> RateLimiterView {
        RateLimiterView { rate: self.rate, burst: self.burst, tokens: self.tokens@, last_update: self.last_update@ }
    }
}

impl RateLimiter {
    /// Every emitter's tokens are at most the burst, and the emitters with
    /// tokens are those with a refill time.
    pub closed spec fn wf(&self) -> bool {
        &&& self.tokens@.dom() == self.last_update@.dom()
        &&& forall|id: u32| #[trigger] self.tokens@.contains_key(id) ==> self.tokens@[id] <= self.burst
    }

    /// Create a new rate limiter allowing `rate` requests per second with
    /// bursts of up to `burst`.
    pub fn new(rate: u32, burst: u32) -> (r: Self)
        ensures
            r.wf(),
            r@ == (RateLimiterView { rate, burst, tokens: Map::empty(), last_update: Map::empty() }),
    {
        RateLimiter { rate, burst, tokens: HashMap::new(), last_update: HashMap::new() }
    }

    /// The tokens of `emitter_id` at `now_secs`, before a request.
    fn available(&self, emitter_id: u32, now_secs: u64) -> (r: u64)
        requires
            self.wf(),
        ensures
            r == tokens_at(self@, emitter_id, now_secs),
            r <= self@.burst,
    {
        let tokens: u64 = match self.tokens.get(&emitter_id) {
            Some(t) => *t,
            None => self.burst as u64,
        };
        let last: u64 = match self.last_update.get(&emitter_id) {
            Some(t) => *t,
            None => now_secs,
        };
        let elapsed = now_secs.saturating_sub(last);
        if elapsed > 0 {
            let e = elapsed as u128;
            let r = self.rate as u128;
            assert(e * r <= 0xFFFF_FFFF_FFFF_FFFFu128 * 0xFFFF_FFFFu128) by (nonlinear_arith)
                requires
                    e <= 0xFFFF_FFFF_FFFF_FFFFu128,
                    r <= 0xFFFF_FFFFu128,
            ;
            let total: u128 = tokens as u128 + e * r;
            if total < self.burst as u128 {
                total as u64
            } else {
                self.burst as u64
            }
        } else {
            tokens
        }
    }

    /// Check if a request is allowed for an emitter; an allowed request
    /// consumes a token.
    pub fn check(&mut self, emitter_id: u32, now_secs: u64) -> (allowed: bool)
        requires
            old(self).wf(),
        ensures
            final(self).wf(),
            allowed == (tokens_at(old(self)@, emitter_id, now_secs) >= 1),
            final(self)@ == (RateLimiterView {
                tokens: old(self)@.tokens.insert(
                    emitter_id,
                    if allowed {
                        (tokens_at(old(self)@, emitter_id, now_secs) - 1) as u64
                    } else {
                        tokens_at(old(self)@, emitter_id, now_secs)
                    },
                ),
                last_update: old(self)@.last_update.insert(emitter_id, refill_time(old(self)@, emitter_id, now_secs)),
                ..old(self)@
            }),
            (old(self)@.last_update.contains_key(emitter_id) ==> old(self)@.last_update[emitter_id] <= now_secs)
                ==> final(self)@.last_update[emitter_id] == now_secs,
            (old(self)@.last_update.contains_key(emitter_id) ==> old(self)@.last_update[emitter_id] <= now_secs)
                ==> tokens_at(final(self)@, emitter_id, now_secs) == final(self)@.tokens[emitter_id],
    {
        let tokens = self.available(emitter_id, now_secs);
        let last: u64 = match self.last_update.get(&emitter_id) {
            Some(t) => *t,
            None => now_secs,
        };
        let last = if now_secs.saturating_sub(last) > 0 {
            now_secs
        } else {
            last
        };
        let allowed = tokens >= 1;
        let left = if allowed {
            tokens - 1
        } else {
            tokens
        };
        self.tokens.insert(emitter_id, left);
        self.last_update.insert(emitter_id, last);
        proof {
            assert(self.tokens@.dom() =~= self.last_update@.dom());
        }
        allowed
    }

    /// Whether a request would be allowed now, without consuming a token.
    pub fn would_allow(&self, emitter_id: u32, now_secs: u64) -> (r: bool)
        requires
            self.wf(),
        ensures
            r == (tokens_at(self@, emitter_id, now_secs) >= 1),
    {
        self.available(emitter_id, now_secs) >= 1
    }

    /// The tokens an emitter holds (a full bucket for an unknown one).
    pub fn remaining(&self, emitter_id: u32) -> (r: u64)
        ensures
            r == (if self@.tokens.contains_key(emitter_id) { self@.tokens[emitter_id] } else { self@.burst as u64 }),
    {
        match self.tokens.get(&emitter_id) {
            Some(t) => *t,
            None => self.burst as u64,
        }
    }

    /// Forget an emitter.
    pub fn reset(&mut self, emitter_id: u32)
        requires
            old(self).wf(),
        ensures
            final(self).wf(),
            final(self)@ == (RateLimiterView {
                tokens: old(self)@.tokens.remove(emitter_id),
                last_update: old(self)@.last_update.remove(emitter_id),
                ..old(self)@
            }),
    {
        self.tokens.remove(&emitter_id);
        self.last_update.remove(&emitter_id);
        proof {
            assert(self.tokens@.dom() =~= self.last_update@.dom());
        }
    }

    /// Forget every emitter.
    pub fn reset_all(&mut self)
        ensures
            final(self).wf(),
            final(self)@ == (RateLimiterView { tokens: Map::empty(), last_update: Map::empty(), ..old(self)@ }),
    {
        self.tokens.clear();
        self.last_update.clear();
        proof {
            assert(self.tokens@.dom() =~= self.last_update@.dom());
        }
    }

    /// Number of emitters tracked.
    pub fn tracked_count(&self) -> (r: usize)
        ensures
            r == self@.tokens.len(),
    {
        self.tokens.len()
    }
}

/// The rate limiter that a configuration asks for: `rate` requests per
/// second with the configured burst (a tenth of the rate by default), at
/// least 1.
pub open spec fn configured_limiter(config: SecurityConfig) -> Option<(u32, u32)> {
    match config.rate_limit {
        None => None,
        Some(rate) => {
            let burst = match config.rate_burst {
                Some(b) => b,
                None => (rate / 10) as u32,
            };
            Some((rate, if burst < 1 { 1u32 } else { burst }))
        },
    }
}

/// Security context for a session: its configuration, the rate limiter it
/// asks for and an optional audit logger.
pub struct SecurityContext {
    /// Security configuration
    pub config: SecurityConfig,
    /// Rate limiter (if enabled)
    pub rate_limiter: Option<RateLimiter>,
    /// Audit logger (if enabled)
    audit_logger: Option<Box<dyn AuditLogger>>,
}

impl SecurityContext {
    /// The configuration.
    pub closed spec fn spec_config(&self) -> SecurityConfig {
        self.config
    }

    /// The rate limiter.
    pub closed spec fn spec_rate_limiter(&self) -> Option<RateLimiter> {
        self.rate_limiter
    }

    /// Whether an audit logger is attached.
    pub closed spec fn has_audit_logger(&self) -> bool {
        self.audit_logger is Some
    }

    /// The event the attached audit logger was last handed, if any.
    pub closed spec fn spec_last_audited(&self) -> Option<AuditEvent> {
        match &self.audit_logger {
            Some(logger) => logger.last_logged(),
            None => None,
        }
    }

    /// Whether the attached audit logger, if any, has nothing waiting to be
    /// written out.
    pub closed spec fn spec_audit_flushed(&self) -> bool {
        match &self.audit_logger {
            Some(logger) => logger.is_flushed(),
            None => true,
        }
    }

    /// Create a new security context from configuration, without audit
    /// logger.
    pub fn new(config: SecurityConfig) -> (r: Self)
        ensures
            r.spec_config() == config,
            !r.has_audit_logger(),
            match configured_limiter(config) {
                None => r.spec_rate_limiter() is None,
                Some((rate, burst)) => r.spec_rate_limiter() matches Some(l) && l.wf() && l@ == (RateLimiterView {
                    rate,
                    burst,
                    tokens: Map::empty(),
                    last_update: Map::empty(),
                }),
            },
    {
        let rate_limiter = match config.rate_limit {
            None => None,
            Some(rate) => {
                let burst = match config.rate_burst {
                    Some(b) => b,
                    None => rate / 10,
                };
                let burst = if burst < 1 {
                    1
                } else {
                    burst
                };
                Some(RateLimiter::new(rate, burst))
            },
        };
        SecurityContext { config, rate_limiter, audit_logger: None }
    }

    /// Attach an audit logger.
    pub fn with_audit_logger(self, logger: Box<dyn AuditLogger>) -> (r: Self)
        ensures
            r.spec_config() == self.spec_config(),
            r.spec_rate_limiter() == self.spec_rate_limiter(),
            r.has_audit_logger(),
    {
        SecurityContext { config: self.config, rate_limiter: self.rate_limiter, audit_logger: Some(logger) }
    }

    /// Attach a memory audit logger of the given capacity.
    pub fn with_memory_audit(self, max_events: usize) -> (r: Self)
        requires
            max_events > 0,
        ensures
            r.spec_config() == self.spec_config(),
            r.spec_rate_limiter() == self.spec_rate_limiter(),
            r.has_audit_logger(),
    {
        self.with_audit_logger(Box::new(MemoryAuditLogger::new(max_events)))
    }

    /// Log an audit event when auditing is enabled and a logger is
    /// attached.
    pub fn audit(&mut self, event: AuditEvent)
        ensures
            final(self).spec_config() == old(self).spec_config(),
            final(self).spec_rate_limiter() == old(self).spec_rate_limiter(),
            final(self).has_audit_logger() == old(self).has_audit_logger(),
            old(self).spec_config().audit_enabled && old(self).has_audit_logger()
                ==> final(self).spec_last_audited() == Some(event),
            !(old(self).spec_config().audit_enabled && old(self).has_audit_logger()) ==> *final(self) == *old(self),
    {
        if self.config.audit_enabled {
            if let Some(logger) = &mut self.audit_logger {
                logger.log(event);
            }
        }
    }

    /// Check the rate limit of an emitter: always allowed without a rate
    /// limiter.
    pub fn check_rate_limit(&mut self, emitter_id: u32, now_secs: u64) -> (allowed: bool)
        requires
            old(self).spec_rate_limiter() matches Some(l) ==> l.wf(),
        ensures
            final(self).spec_config() == old(self).spec_config(),
            final(self).has_audit_logger() == old(self).has_audit_logger(),
            match old(self).spec_rate_limiter() {
                None => allowed && final(self).spec_rate_limiter() is None,
                Some(l) => final(self).spec_rate_limiter() matches Some(l2) && l2.wf() && allowed == (tokens_at(
                    l@,
                    emitter_id,
                    now_secs,
                ) >= 1) && l2@ == (RateLimiterView {
                    tokens: l@.tokens.insert(
                        emitter_id,
                        if allowed {
                            (tokens_at(l@, emitter_id, now_secs) - 1) as u64
                        } else {
                            tokens_at(l@, emitter_id, now_secs)
                        },
                    ),
                    last_update: l@.last_update.insert(emitter_id, refill_time(l@, emitter_id, now_secs)),
                    ..l@
                }),
            },
    {
        match &mut self.rate_limiter {
            Some(limiter) => limiter.check(emitter_id, now_secs),
            None => true,
        }
    }

    /// Validate a certificate fingerprint: valid when mTLS is not required,
    /// else checked against the allowed fingerprints.
    pub fn validate_cert(&self, fingerprint: &str) -> (r: CertValidation)
        ensures
            !self.spec_config().mtls_required ==> r == CertValidation::Valid,
            self.spec_config().mtls_required ==> r == (if self.spec_config().allowed_fingerprints@.len() == 0 || exists|i: int|
                0 <= i < self.spec_config().allowed_fingerprints@.len() && self.spec_config().allowed_fingerprints@[i]@
                    == fingerprint@ {
                CertValidation::Valid
            } else {
                CertValidation::FingerprintMismatch
            }),
    {
        if !self.config.mtls_required {
            return CertValidation::Valid;
        }
        validate_fingerprint(fingerprint, self.config.allowed_fingerprints.as_slice())
    }

    /// Flush the audit logger, if any.
    pub fn flush(&mut self)
        ensures
            final(self).spec_config() == old(self).spec_config(),
            final(self).spec_rate_limiter() == old(self).spec_rate_limiter(),
            final(self).has_audit_logger() == old(self).has_audit_logger(),
            final(self).spec_audit_flushed(),
            final(self).spec_last_audited() == old(self).spec_last_audited(),
    {
        if let Some(logger) = &mut self.audit_logger {
            logger.flush();
        }
    }
}

impl Default for SecurityContext {
    fn default() -> (r: Self)
        ensures
            r.spec_config().is_default_config(),
            r.spec_rate_limiter() is None,
            !r.has_audit_logger(),
    {
        Self::new(SecurityConfig::default())
    }
}

} // verus!
