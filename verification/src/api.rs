//! Query parameters and status answers of the HTTP API, and the server uptime clock.

use vstd::prelude::*;
use crate::clock::{instant_now, secs_since};

verus! {

/// Query of `/api/readings`.
#[derive(Debug, Clone, Copy, PartialEq, Eq, Structural)]
pub struct ReadingsQuery {
    pub sensor: Option<i64>,
    pub from: Option<i64>,
    pub to: Option<i64>,
}

/// Query of `/api/sensors` and `/api/events`.
#[derive(Debug, Clone, Copy, PartialEq, Eq, Structural)]
pub struct CityQuery {
    pub city: Option<i64>,
    pub from: Option<i64>,
}

/// Answer of `/api/status`.
#[derive(Debug, Clone, Copy, PartialEq, Eq, Structural)]
pub struct StatusResponse {
    pub uptime_secs: u64,
    pub cities: usize,
    pub sensors: i64,
    pub readings: i64,
    pub last_poll: Option<i64>,
}

/// When the server started, by the monotonic clock, once it is known.
#[derive(Debug, Clone, Copy)]
pub struct StartClock {
    pub start: Option<std::time::Instant>,
}

impl ReadingsQuery {
    /// `(sensor, from, to)` with the defaults filled in: sensor 0, from 0, to `i64::MAX`.
    pub fn bounds(&self) -> (r: (i64, i64, i64))
        ensures
            r.0 == (match self.sensor { Some(v) => v, None => 0 }),
            r.1 == (match self.from { Some(v) => v, None => 0 }),
            r.2 == (match self.to { Some(v) => v, None => i64::MAX }),
    {
        (
            match self.sensor { Some(v) => v, None => 0 },
            match self.from { Some(v) => v, None => 0 },
            match self.to { Some(v) => v, None => 9223372036854775807 },
        )
    }
}

impl CityQuery {
    /// `(city, from)` for the events query, with the defaults filled in: city 0, from 0.
    pub fn event_bounds(&self) -> (r: (i64, i64))
        ensures
            r.0 == (match self.city { Some(v) => v, None => 0 }),
            r.1 == (match self.from { Some(v) => v, None => 0 }),
    {
        (match self.city { Some(v) => v, None => 0 }, match self.from { Some(v) => v, None => 0 })
    }
}

impl StatusResponse {
    /// Status from the uptime and the store's counters; a counter that could not be read
    /// counts as empty (0 cities, 0 sensors, 0 readings, no last poll).
    pub fn from_parts(
        uptime_secs: u64,
        cities: Option<usize>,
        sensors: Option<i64>,
        readings: Option<i64>,
        last_poll: Option<Option<i64>>,
    ) -> (r: Self)
        ensures
            r.uptime_secs == uptime_secs,
            r.cities == (match cities { Some(v) => v, None => 0 }),
            r.sensors == (match sensors { Some(v) => v, None => 0 }),
            r.readings == (match readings { Some(v) => v, None => 0 }),
            r.last_poll == (match last_poll { Some(v) => v, None => None }),
    {
        StatusResponse {
            uptime_secs,
            cities: match cities { Some(v) => v, None => 0 },
            sensors: match sensors { Some(v) => v, None => 0 },
            readings: match readings { Some(v) => v, None => 0 },
            last_poll: match last_poll { Some(v) => v, None => None },
        }
    }
}

/// The clock after being started at `now`: the first start is kept.
pub open spec fn spec_started_at(c: StartClock, now: std::time::Instant) -> StartClock {
    match c.start {
        Some(_) => c,
        None => StartClock { start: Some(now) },
    }
}

impl StartClock {
    /// A clock that has not been started.
    pub fn new() -> (r: Self)
        ensures
            r.start is None,
    {
        StartClock { start: None }
    }

    /// Records `now` as the start, unless a start is already recorded.
    pub fn start_at(&mut self, now: std::time::Instant)
        ensures
            *final(self) == spec_started_at(*old(self), now),
    {
        if self.start.is_none() {
            self.start = Some(now);
        }
    }
}

/// Records the current reading of the monotonic clock as the server start; later calls keep
/// the first start.
pub fn init_start_time(clock: &mut StartClock)
    ensures
        exists|now: std::time::Instant| *final(clock) == #[trigger] spec_started_at(*old(clock), now),
        old(clock).start is Some ==> *final(clock) == *old(clock),
        old(clock).start is None ==> final(clock).start is Some,
{
    let now = instant_now();
    clock.start_at(now);
}

/// Whole seconds the server has been up by the monotonic clock; 0 before the start is known.
pub fn uptime_secs(clock: &StartClock) -> (r: u64)
    ensures
        clock.start is None ==> r == 0,
{
    match &clock.start {
        Some(t) => secs_since(t),
        None => 0,
    }
}

/// Starting is idempotent: a second start, at whatever time, changes nothing, and the first
/// start of a fresh clock is the time it was given.
pub proof fn law_start_once(c: StartClock, t1: std::time::Instant, t2: std::time::Instant)
    ensures
        spec_started_at(spec_started_at(c, t1), t2) == spec_started_at(c, t1),
        c.start is None ==> spec_started_at(c, t1).start == Some(t1),
{
}

} // verus!
