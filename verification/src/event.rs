//! Telling real pollution events from sensor noise by counting agreeing sensors.

use vstd::prelude::*;

verus! {

/// How widely an anomaly is confirmed across sensors.
#[derive(Debug, Clone, Copy, PartialEq, Eq, Structural)]
pub enum EventType {
    /// No significant anomaly.
    Normal,
    /// Single sensor spike: likely noise.
    Noise,
    /// Two or more sensors confirm: a real event.
    Event,
    /// More than half of the sensors affected: widespread pollution.
    Widespread,
}

/// Pollution source classes told apart by the PM10/PM2.5 fingerprint.
#[derive(Debug, Clone, Copy, PartialEq, Eq, Structural)]
pub enum SourceCategory {
    /// PM10/PM2.5 > 4: dust or sand storm, volcanic ash.
    DustStorm,
    /// PM10/PM2.5 2.5-4: construction sites, unpaved roads.
    ConstructionDust,
    /// Several sources mixed.
    MixedUrban,
    /// Vehicle exhaust, heating, industrial combustion.
    Combustion,
    /// Wildfire smoke, industrial fumes.
    Smoke,
    /// Background, clean air.
    Clean,
    /// Slightly elevated, typical urban background.
    UrbanBackground,
}

/// Counting of anomalous sensors among all sensors read.
#[derive(Debug, PartialEq, Eq)]
pub struct AnomalyTally {
    /// Total sensors analysed.
    pub total_sensors: usize,
    /// Number of anomalous sensors.
    pub anomaly_count: usize,
    /// Classification.
    pub event_type: EventType,
    /// Anomalous sensor ids, in reading order.
    pub anomaly_sensor_ids: Vec<u64>,
}

/// Classification of `count` anomalous sensors out of `total`.
pub open spec fn spec_event_type(count: int, total: int) -> EventType {
    if count == 0 {
        EventType::Normal
    } else if count == 1 {
        EventType::Noise
    } else if 2 * count > total {
        EventType::Widespread
    } else {
        EventType::Event
    }
}

/// Ids of the readings flagged anomalous, in order.
pub open spec fn spec_anomaly_ids(flags: Seq<(u64, bool)>) -> Seq<u64>
    decreases flags.len(),
{
    if flags.len() == 0 {
        Seq::empty()
    } else {
        let init = spec_anomaly_ids(flags.drop_last());
        if flags.last().1 {
            init.push(flags.last().0)
        } else {
            init
        }
    }
}

/// Whether an analysis of this type is worth storing.
pub open spec fn spec_is_reportable(t: EventType) -> bool {
    t == EventType::Event || t == EventType::Widespread
}

/// Which pollution channel fired ("both", "pm25", "pm10" or "none").
pub open spec fn spec_trigger_channel(pm25: bool, pm10: bool) -> Seq<char> {
    if pm25 && pm10 {
        "both"@
    } else if pm25 {
        "pm25"@
    } else if pm10 {
        "pm10"@
    } else {
        "none"@
    }
}

/// Classifies `count` anomalous sensors out of `total` sensors.
pub fn event_type_for(count: usize, total: usize) -> (t: EventType)
    ensures
        t == spec_event_type(count as int, total as int),
{
    if count == 0 {
        EventType::Normal
    } else if count == 1 {
        EventType::Noise
    } else if count > total / 2 {
        EventType::Widespread
    } else {
        EventType::Event
    }
}

proof fn lemma_anomaly_ids_len(flags: Seq<(u64, bool)>)
    ensures
        spec_anomaly_ids(flags).len() <= flags.len(),
    decreases flags.len(),
{
    if flags.len() > 0 {
        lemma_anomaly_ids_len(flags.drop_last());
    }
}

/// Counts the readings flagged anomalous (`(sensor id, anomalous)` per reading) and classifies them.
pub fn tally_anomalies(flags: &Vec<(u64, bool)>) -> (r: AnomalyTally)
    ensures
        r.total_sensors == flags@.len(),
        r.anomaly_sensor_ids@ == spec_anomaly_ids(flags@),
        r.anomaly_count == r.anomaly_sensor_ids@.len(),
        r.event_type == spec_event_type(r.anomaly_count as int, flags@.len() as int),
{
    let mut ids: Vec<u64> = Vec::new();
    for i in 0..flags.len()
        invariant
            ids@ == spec_anomaly_ids(flags@.take(i as int)),
    {
        assert(flags@.take(i + 1).drop_last() == flags@.take(i as int));
        let (id, bad) = flags[i];
        if bad {
            ids.push(id);
        }
    }
    assert(flags@.take(flags.len() as int) == flags@);
    proof {
        lemma_anomaly_ids_len(flags@);
    }
    let count = ids.len();
    let t = event_type_for(count, flags.len());
    AnomalyTally { total_sensors: flags.len(), anomaly_count: count, event_type: t, anomaly_sensor_ids: ids }
}

/// Whether an analysis of this type is stored: only confirmed or widespread events are.
pub fn is_reportable(t: EventType) -> (r: bool)
    ensures
        r == spec_is_reportable(t),
{
    match t {
        EventType::Event | EventType::Widespread => true,
        _ => false,
    }
}

/// Names the channel that fired, from whether PM2.5 and PM10 are each anomalous.
pub fn trigger_channel(pm25: bool, pm10: bool) -> (r: &'static str)
    ensures
        r@ == spec_trigger_channel(pm25, pm10),
{
    match (pm25, pm10) {
        (true, true) => "both",
        (true, false) => "pm25",
        (false, true) => "pm10",
        (false, false) => "none",
    }
}

/// An outlier on a single sensor is noise; two or more agreeing sensors make an event, which is
/// widespread exactly when more than half of the sensors agree.
pub proof fn law_one_sensor_is_noise(count: int, total: int)
    requires
        0 <= count <= total,
    ensures
        count == 0 <==> spec_event_type(count, total) == EventType::Normal,
        count == 1 <==> spec_event_type(count, total) == EventType::Noise,
        count >= 2 ==> spec_is_reportable(spec_event_type(count, total)),
        spec_event_type(count, total) == EventType::Widespread <==> (count >= 2 && 2 * count > total),
{
}

} // verus!
