//! Payloads pushed by ESP8266/ESP32 sensor boards (Sensor.Community JSON layout).

use vstd::prelude::*;
use crate::text::{chars_of, parse_i64, spec_parse_i64};

verus! {

/// Single measured value of a pushed payload.
pub struct SensorDataValue {
    /// Value type: SDS_P1 (PM10), SDS_P2 (PM2.5), BME280_temperature, ...
    pub value_type: String,
    /// Numeric value, as text.
    pub value: String,
}

/// Push payload of a sensor board.
pub struct PushPayload {
    pub sensordatavalues: Vec<SensorDataValue>,
    pub esp8266id: Option<String>,
    pub software_version: Option<String>,
}

/// Answer to an accepted push.
#[derive(Debug, PartialEq, Eq)]
pub struct PushResponse {
    pub status: &'static str,
    pub sensor_id: i64,
}

/// Quantity a pushed value measures.
#[derive(Debug, Clone, Copy, PartialEq, Eq, Structural)]
pub enum ValueKind {
    Pm10,
    Pm25,
    Temperature,
    Humidity,
    Pressure,
}

/// The raw texts of the measurements found in a payload, by quantity.
#[derive(Debug, PartialEq, Eq)]
pub struct PushFields {
    /// Sensor id (0 when absent or not a number).
    pub sensor_id: i64,
    pub pm25: Option<String>,
    pub pm10: Option<String>,
    pub temperature: Option<String>,
    pub humidity: Option<String>,
    pub pressure: Option<String>,
}

/// Text held by an optional string.
pub open spec fn opt_text(o: Option<String>) -> Option<Seq<char>> {
    match o {
        Some(s) => Some(s@),
        None => None,
    }
}

/// Quantity named by a value type, if it is one the board reports.
pub open spec fn spec_value_kind(t: Seq<char>) -> Option<ValueKind> {
    if t == "SDS_P1"@ || t == "P1"@ {
        Some(ValueKind::Pm10)
    } else if t == "SDS_P2"@ || t == "P2"@ {
        Some(ValueKind::Pm25)
    } else if t == "BME280_temperature"@ || t == "temperature"@ {
        Some(ValueKind::Temperature)
    } else if t == "BME280_humidity"@ || t == "humidity"@ {
        Some(ValueKind::Humidity)
    } else if t == "BME280_pressure"@ || t == "pressure"@ {
        Some(ValueKind::Pressure)
    } else {
        None
    }
}

/// The value text of the last entry measuring `kind` (later entries override earlier ones).
pub open spec fn spec_last_value(values: Seq<(Seq<char>, Seq<char>)>, kind: ValueKind) -> Option<Seq<char>>
    decreases values.len(),
{
    if values.len() == 0 {
        None
    } else if spec_value_kind(values.last().0) == Some(kind) {
        Some(values.last().1)
    } else {
        spec_last_value(values.drop_last(), kind)
    }
}

/// `(value type, value)` texts of the entries of a payload.
pub open spec fn payload_entries(p: &PushPayload) -> Seq<(Seq<char>, Seq<char>)> {
    p.sensordatavalues@.map_values(|v: SensorDataValue| (v.value_type@, v.value@))
}

/// Sensor id of a payload: its board id read as an `i64`, or 0.
pub open spec fn spec_sensor_id(p: &PushPayload) -> i64 {
    match p.esp8266id {
        Some(id) => match spec_parse_i64(id@) {
            Some(v) => v,
            None => 0,
        },
        None => 0,
    }
}

fn text_eq(a: &Vec<char>, b: &str) -> (r: bool)
    ensures
        r == (a@ == b@),
{
    let bv = chars_of(b);
    if a.len() != bv.len() {
        return false;
    }
    for i in 0..a.len()
        invariant
            a.len() == bv.len(),
            bv@ == b@,
            forall|j: int| 0 <= j < i ==> a@[j] == bv@[j],
    {
        if a[i] != bv[i] {
            return false;
        }
    }
    assert(a@ == bv@);
    true
}

/// Quantity named by a value type; `None` for types the board reports but nobody reads.
pub fn value_kind(value_type: &str) -> (r: Option<ValueKind>)
    ensures
        r == spec_value_kind(value_type@),
{
    let t = chars_of(value_type);
    if text_eq(&t, "SDS_P1") || text_eq(&t, "P1") {
        Some(ValueKind::Pm10)
    } else if text_eq(&t, "SDS_P2") || text_eq(&t, "P2") {
        Some(ValueKind::Pm25)
    } else if text_eq(&t, "BME280_temperature") || text_eq(&t, "temperature") {
        Some(ValueKind::Temperature)
    } else if text_eq(&t, "BME280_humidity") || text_eq(&t, "humidity") {
        Some(ValueKind::Humidity)
    } else if text_eq(&t, "BME280_pressure") || text_eq(&t, "pressure") {
        Some(ValueKind::Pressure)
    } else {
        None
    }
}

fn copy_text(s: &String) -> (r: String)
    ensures
        r@ == s@,
{
    s.clone()
}

/// Reads the sensor id and, per quantity, the value text of the last entry measuring it.
pub fn parse_push(payload: &PushPayload) -> (r: PushFields)
    ensures
        r.sensor_id == spec_sensor_id(payload),
        opt_text(r.pm25) == spec_last_value(payload_entries(payload), ValueKind::Pm25),
        opt_text(r.pm10) == spec_last_value(payload_entries(payload), ValueKind::Pm10),
        opt_text(r.temperature) == spec_last_value(payload_entries(payload), ValueKind::Temperature),
        opt_text(r.humidity) == spec_last_value(payload_entries(payload), ValueKind::Humidity),
        opt_text(r.pressure) == spec_last_value(payload_entries(payload), ValueKind::Pressure),
{
    let sensor_id: i64 = match &payload.esp8266id {
        Some(id) => match parse_i64(&chars_of(id.as_str())) {
            Some(v) => v,
            None => 0,
        },
        None => 0,
    };
    let mut pm25: Option<String> = None;
    let mut pm10: Option<String> = None;
    let mut temperature: Option<String> = None;
    let mut humidity: Option<String> = None;
    let mut pressure: Option<String> = None;
    let ghost entries = payload_entries(payload);
    let values = &payload.sensordatavalues;
    for i in 0..values.len()
        invariant
            entries == payload_entries(payload),
            values == &payload.sensordatavalues,
            opt_text(pm25) == spec_last_value(entries.take(i as int), ValueKind::Pm25),
            opt_text(pm10) == spec_last_value(entries.take(i as int), ValueKind::Pm10),
            opt_text(temperature) == spec_last_value(entries.take(i as int), ValueKind::Temperature),
            opt_text(humidity) == spec_last_value(entries.take(i as int), ValueKind::Humidity),
            opt_text(pressure) == spec_last_value(entries.take(i as int), ValueKind::Pressure),
    {
        let v = &values[i];
        assert(entries.take(i + 1).drop_last() == entries.take(i as int));
        assert(entries.take(i + 1).last() == (v.value_type@, v.value@));
        match value_kind(v.value_type.as_str()) {
            Some(ValueKind::Pm10) => pm10 = Some(copy_text(&v.value)),
            Some(ValueKind::Pm25) => pm25 = Some(copy_text(&v.value)),
            Some(ValueKind::Temperature) => temperature = Some(copy_text(&v.value)),
            Some(ValueKind::Humidity) => humidity = Some(copy_text(&v.value)),
            Some(ValueKind::Pressure) => pressure = Some(copy_text(&v.value)),
            None => {},
        }
    }
    assert(entries.take(values.len() as int) == entries);
    PushFields { sensor_id, pm25, pm10, temperature, humidity, pressure }
}

/// Answer to a push from sensor `sensor_id`: refused (`None`) when the id is 0, accepted otherwise.
pub fn push_response(sensor_id: i64) -> (r: Option<PushResponse>)
    ensures
        r is None <==> sensor_id == 0,
        r matches Some(resp) ==> resp.status@ == "ok"@ && resp.sensor_id == sensor_id,
{
    if sensor_id == 0 {
        None
    } else {
        Some(PushResponse { status: "ok", sensor_id })
    }
}

/// A later entry measuring the same quantity overrides an earlier one, and entries of other
/// quantities never change what is read for a quantity.
pub proof fn law_last_entry_wins(
    values: Seq<(Seq<char>, Seq<char>)>,
    extra: (Seq<char>, Seq<char>),
    kind: ValueKind,
)
    ensures
        spec_value_kind(extra.0) == Some(kind) ==> spec_last_value(values.push(extra), kind) == Some(extra.1),
        spec_value_kind(extra.0) != Some(kind) ==> spec_last_value(values.push(extra), kind)
            == spec_last_value(values, kind),
{
    assert(values.push(extra).drop_last() == values);
}

/// Both spellings a board uses name the quantity, and no other value type does: "SDS_P1" and
/// "P1" are PM10, "SDS_P2" and "P2" are PM2.5, "BME280_temperature" and "temperature" are the
/// temperature, "BME280_humidity" and "humidity" the humidity, "BME280_pressure" and "pressure"
/// the pressure.
pub proof fn law_value_kinds(t: Seq<char>)
    ensures
        spec_value_kind(t) == Some(ValueKind::Pm10) <==> (t == "SDS_P1"@ || t == "P1"@),
        spec_value_kind(t) == Some(ValueKind::Pm25) <==> (t == "SDS_P2"@ || t == "P2"@),
        spec_value_kind(t) == Some(ValueKind::Temperature)
            <==> (t == "BME280_temperature"@ || t == "temperature"@),
        spec_value_kind(t) == Some(ValueKind::Humidity)
            <==> (t == "BME280_humidity"@ || t == "humidity"@),
        spec_value_kind(t) == Some(ValueKind::Pressure)
            <==> (t == "BME280_pressure"@ || t == "pressure"@),
{
    reveal_strlit("SDS_P1");
    reveal_strlit("P1");
    reveal_strlit("SDS_P2");
    reveal_strlit("P2");
    reveal_strlit("BME280_temperature");
    reveal_strlit("temperature");
    reveal_strlit("BME280_humidity");
    reveal_strlit("humidity");
    reveal_strlit("BME280_pressure");
    reveal_strlit("pressure");
    assert("SDS_P1"@[5] == '1' && "SDS_P2"@[5] == '2' && "P1"@[1] == '1' && "P2"@[1] == '2');
    assert("temperature"@.len() == 11 && "humidity"@.len() == 8 && "pressure"@.len() == 8);
    assert("humidity"@[0] == 'h' && "pressure"@[0] == 'p');
    assert("BME280_temperature"@.len() == 18 && "BME280_humidity"@.len() == 15);
    assert("BME280_pressure"@.len() == 15 && "BME280_humidity"@[7] == 'h');
    assert("BME280_pressure"@[7] == 'p' && "SDS_P1"@.len() == 6 && "P1"@.len() == 2);
}

/// What a payload reads for a quantity is the value of its last entry measuring it, whichever of
/// the two spellings that entry uses: appending `(t, v)` makes `v` the reading of the quantity
/// `t` names.
pub proof fn law_entry_read(values: Seq<(Seq<char>, Seq<char>)>, t: Seq<char>, v: Seq<char>)
    ensures
        (t == "SDS_P1"@ || t == "P1"@) ==> spec_last_value(values.push((t, v)), ValueKind::Pm10) == Some(v),
        (t == "SDS_P2"@ || t == "P2"@) ==> spec_last_value(values.push((t, v)), ValueKind::Pm25) == Some(v),
        (t == "BME280_temperature"@ || t == "temperature"@)
            ==> spec_last_value(values.push((t, v)), ValueKind::Temperature) == Some(v),
        (t == "BME280_humidity"@ || t == "humidity"@)
            ==> spec_last_value(values.push((t, v)), ValueKind::Humidity) == Some(v),
        (t == "BME280_pressure"@ || t == "pressure"@)
            ==> spec_last_value(values.push((t, v)), ValueKind::Pressure) == Some(v),
{
    law_value_kinds(t);
    assert(values.push((t, v)).last() == (t, v));
}

} // verus!
