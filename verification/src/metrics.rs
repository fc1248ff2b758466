//! Runtime counters and their snapshots.
use std::time::Duration;
use vstd::prelude::*;

use crate::logging::LogLevel;

verus! {

/// Saturating increment of a counter.
pub open spec fn bump(c: u64, by: int) -> u64 {
    if c + by > u64::MAX {
        u64::MAX
    } else {
        (c + by) as u64
    }
}

/// Counters of a runtime: events dispatched, renders, zones rendered and zone updates.
/// All counters saturate at `u64::MAX`.
#[derive(Debug, Clone)]
pub struct RuntimeMetrics {
    events: u64,
    renders: u64,
    dirty_zones: u64,
    zone_updates: u64,
}

/// A point-in-time copy of the counters with the runtime's uptime.
#[derive(Debug, Clone)]
pub struct MetricSnapshot {
    pub uptime_ms: u64,
    pub events: u64,
    pub renders: u64,
    pub dirty_zones: u64,
    pub zone_updates: u64,
}

/// Whole milliseconds of `d`: a call of `Duration::as_millis`. Nothing is stated of
/// the result, as Verus sees no contents of a `Duration`.
#[verifier::external_body]
fn duration_millis(d: Duration) -> u128 {
    d.as_millis()
}

impl RuntimeMetrics {
    pub closed spec fn events(&self) -> u64 {
        self.events
    }

    pub closed spec fn renders(&self) -> u64 {
        self.renders
    }

    pub closed spec fn dirty_zones(&self) -> u64 {
        self.dirty_zones
    }

    pub closed spec fn zone_updates(&self) -> u64 {
        self.zone_updates
    }

    /// All counters at zero.
    pub fn new() -> (r: Self)
        ensures
            r.events() == 0 && r.renders() == 0 && r.dirty_zones() == 0 && r.zone_updates() == 0,
    {
        RuntimeMetrics { events: 0, renders: 0, dirty_zones: 0, zone_updates: 0 }
    }

    /// Counts one dispatched event.
    pub fn record_event(&mut self)
        ensures
            final(self).events() == bump(old(self).events(), 1),
            final(self).renders() == old(self).renders(),
            final(self).dirty_zones() == old(self).dirty_zones(),
            final(self).zone_updates() == old(self).zone_updates(),
    {
        self.events = self.events.saturating_add(1);
    }

    /// Counts one render that flushed `dirty_count` zones.
    pub fn record_render(&mut self, dirty_count: usize)
        ensures
            final(self).renders() == bump(old(self).renders(), 1),
            final(self).dirty_zones() == bump(old(self).dirty_zones(), dirty_count as int),
            final(self).events() == old(self).events(),
            final(self).zone_updates() == old(self).zone_updates(),
    {
        self.renders = self.renders.saturating_add(1);
        self.dirty_zones = self.dirty_zones.saturating_add(dirty_count as u64);
    }

    /// Counts `count` zone content updates.
    pub fn record_zone_updates(&mut self, count: usize)
        ensures
            final(self).zone_updates() == bump(old(self).zone_updates(), count as int),
            final(self).events() == old(self).events(),
            final(self).renders() == old(self).renders(),
            final(self).dirty_zones() == old(self).dirty_zones(),
    {
        if count > 0 {
            self.zone_updates = self.zone_updates.saturating_add(count as u64);
        }
    }

    /// The counters with an uptime of `uptime_ms` milliseconds (kept to its low 64 bits).
    pub fn snapshot_millis(&self, uptime_ms: u128) -> (r: MetricSnapshot)
        ensures
            r.uptime_ms == uptime_ms as u64,
            r.events == self.events(),
            r.renders == self.renders(),
            r.dirty_zones == self.dirty_zones(),
            r.zone_updates == self.zone_updates(),
    {
        MetricSnapshot {
            uptime_ms: #[verifier::truncate] (uptime_ms as u64),
            events: self.events,
            renders: self.renders,
            dirty_zones: self.dirty_zones,
            zone_updates: self.zone_updates,
        }
    }

    /// The counters with the given uptime, in whole milliseconds.
    pub fn snapshot(&self, uptime: Duration) -> (r: MetricSnapshot)
        ensures
            r.events == self.events(),
            r.renders == self.renders(),
            r.dirty_zones == self.dirty_zones(),
            r.zone_updates == self.zone_updates(),
    {
        let ms = duration_millis(uptime);
        self.snapshot_millis(ms)
    }
}

/// A snapshot's fields as logged: name and value, uptime first, then the counters.
pub open spec fn snapshot_fields(s: MetricSnapshot) -> Seq<(Seq<char>, u64)> {
    seq![
        ("uptime_ms"@, s.uptime_ms),
        ("events"@, s.events),
        ("renders"@, s.renders),
        ("dirty_zones"@, s.dirty_zones),
        ("zone_updates"@, s.zone_updates),
    ]
}

impl MetricSnapshot {
    /// The snapshot's fields, by name, in the order they are logged.
    pub fn as_fields(&self) -> (r: Vec<(&'static str, u64)>)
        ensures
            r@.map_values(|p: (&'static str, u64)| (p.0@, p.1)) == snapshot_fields(*self),
    {
        let mut r: Vec<(&'static str, u64)> = Vec::new();
        r.push(("uptime_ms", self.uptime_ms));
        r.push(("events", self.events));
        r.push(("renders", self.renders));
        r.push(("dirty_zones", self.dirty_zones));
        r.push(("zone_updates", self.zone_updates));
        assert(r@.map_values(|p: (&'static str, u64)| (p.0@, p.1)) =~= snapshot_fields(*self));
        r
    }

    /// The log record a snapshot becomes: level, message and fields.
    pub fn log_record(&self) -> (r: (LogLevel, &'static str, Vec<(&'static str, u64)>))
        ensures
            r.0 == LogLevel::Info,
            r.1@ == "runtime_metrics"@,
            r.2@.map_values(|p: (&'static str, u64)| (p.0@, p.1)) == snapshot_fields(*self),
    {
        (LogLevel::Info, "runtime_metrics", self.as_fields())
    }
}

impl Default for RuntimeMetrics {
    fn default() -> (r: Self)
        ensures
            r.events() == 0 && r.renders() == 0 && r.dirty_zones() == 0 && r.zone_updates() == 0,
    {
        RuntimeMetrics::new()
    }
}

} // verus!
