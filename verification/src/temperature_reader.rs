//! The reading source's computing half: turning the raw bytes read from
//! each configured sensor into a batch of readings.
//!
//! Reading the sensor files themselves is I/O and happens outside this
//! crate; what is verified here is everything after the bytes arrive: the
//! decimal parse of a raw value in thousandths of a degree, its scaling to
//! hundredths, and the per-sensor failure handling — a failed sensor is
//! excluded from the batch, never aborting the whole read cycle.

use crate::temperature_recorder::{temps_view, Temperature, TemperatureModel};
use vstd::prelude::*;

verus! {

/// ASCII whitespace, as trimmed from the end of a raw sensor value.
pub open spec fn is_ws(b: u8) -> bool {
    b == 32 || b == 10 || b == 13 || b == 9
}

/// The bytes with trailing ASCII whitespace removed.
pub open spec fn trim_end_ws(s: Seq<u8>) -> Seq<u8>
    decreases s.len(),
{
    if s.len() > 0 && is_ws(s.last()) {
        trim_end_ws(s.drop_last())
    } else {
        s
    }
}

/// Every byte is an ASCII decimal digit.
pub open spec fn all_digits(s: Seq<u8>) -> bool {
    forall|i: int| 0 <= i < s.len() ==> 48 <= #[trigger] s[i] <= 57
}

/// The numeric value of a sequence of ASCII decimal digits.
pub open spec fn digits_value(s: Seq<u8>) -> int
    decreases s.len(),
{
    if s.len() == 0 {
        0
    } else {
        digits_value(s.drop_last()) * 10 + (s.last() - 48)
    }
}

/// The integer denoted by the bytes: an optional ASCII sign followed by at
/// least one decimal digit, and nothing else.
pub open spec fn parsed_decimal(s: Seq<u8>) -> Option<int> {
    if s.len() > 0 && (s[0] == 43 || s[0] == 45) {
        let ds = s.skip(1);
        if ds.len() > 0 && all_digits(ds) {
            if s[0] == 45 {
                Some(-digits_value(ds))
            } else {
                Some(digits_value(ds))
            }
        } else {
            None
        }
    } else if s.len() > 0 && all_digits(s) {
        Some(digits_value(s))
    } else {
        None
    }
}

/// What a raw sensor file denotes: its trailing whitespace is ignored, the
/// rest must be a signed decimal integer.
pub open spec fn parsed_sensor_value(bytes: Seq<u8>) -> Option<int> {
    parsed_decimal(trim_end_ws(bytes))
}

/// Scaling a raw value in thousandths of a degree to hundredths, rounded
/// to the nearest (half away from zero).
pub open spec fn centi_of_milli(m: int) -> int {
    if m >= 0 {
        (m + 5) / 10
    } else {
        -((-m + 5) / 10)
    }
}

/// The value of a digit sequence is non-negative.
proof fn lemma_digits_value_nonneg(s: Seq<u8>)
    requires
        all_digits(s),
    ensures
        digits_value(s) >= 0,
    decreases s.len(),
{
    if s.len() > 0 {
        assert(forall|i: int| 0 <= i < s.drop_last().len() ==> 48 <= #[trigger] s.drop_last()[i] <= 57);
        lemma_digits_value_nonneg(s.drop_last());
    }
}

/// A digit sequence is worth at least any of its prefixes.
proof fn lemma_digits_value_mono(s: Seq<u8>, i: int)
    requires
        all_digits(s),
        0 <= i <= s.len(),
    ensures
        digits_value(s) >= digits_value(s.take(i)),
    decreases s.len() - i,
{
    if i < s.len() {
        lemma_digits_value_mono(s, i + 1);
        assert(s.take(i + 1).drop_last() =~= s.take(i));
        assert(forall|j: int| 0 <= j < s.take(i).len() ==> 48 <= #[trigger] s.take(i)[j] <= 57);
        lemma_digits_value_nonneg(s.take(i));
        assert(digits_value(s.take(i + 1)) == digits_value(s.take(i)) * 10 + (s[i] - 48));
    } else {
        assert(s.take(i) =~= s);
    }
}

/// Matches `is_ws` at runtime.
fn is_ascii_ws(b: u8) -> (r: bool)
    ensures
        r == is_ws(b),
{
    b == 32 || b == 10 || b == 13 || b == 9
}

/// Parses a raw sensor value: trailing ASCII whitespace ignored, the rest
/// an optional sign and decimal digits. Returns the denoted value exactly
/// when it fits a 32-bit signed integer, and nothing otherwise — malformed
/// bytes, an empty value, or one out of range.
#[verifier::rlimit(50)]
pub fn parse_sensor_value(content: &Vec<u8>) -> (r: Option<i64>)
    ensures
        parsed_sensor_value(content@) is None ==> r is None,
        parsed_sensor_value(content@) matches Some(v) ==> ((-2147483648 <= v <= 2147483647
            ==> r == Some(v as i64)) && (!(-2147483648 <= v <= 2147483647) ==> r is None)),
{
    let mut end: usize = content.len();
    proof {
        assert(content@.take(end as int) =~= content@);
    }
    while end > 0 && is_ascii_ws(content[end - 1])
        invariant
            end <= content@.len(),
            trim_end_ws(content@) == trim_end_ws(content@.take(end as int)),
        decreases end,
    {
        proof {
            assert(content@.take(end as int).last() == content@[end - 1]);
            assert(content@.take(end as int).drop_last() =~= content@.take(end - 1));
        }
        end -= 1;
    }
    let ghost t = trim_end_ws(content@);
    proof {
        assert(t == content@.take(end as int));
    }
    let mut start: usize = 0;
    let mut neg = false;
    if end > 0 && (content[0] == 43 || content[0] == 45) {
        neg = content[0] == 45;
        start = 1;
    }
    if start == end {
        return None;
    }
    let ghost ds = t.skip(start as int);
    let mut mag: i64 = 0;
    let mut k: usize = start;
    while k < end
        invariant
            start <= k <= end <= content@.len(),
            start < end,
            start == 0 || start == 1,
            start == 1 ==> t.len() > 0 && (t[0] == 43 || t[0] == 45),
            start == 0 ==> (t.len() == 0 || !(t[0] == 43 || t[0] == 45)),
            neg <==> (start == 1 && t[0] == 45),
            t == trim_end_ws(content@),
            t == content@.take(end as int),
            ds == t.skip(start as int),
            forall|j: int| 0 <= j < k - start ==> 48 <= #[trigger] ds[j] <= 57,
            0 <= mag <= 21474836489,
            mag as int == digits_value(ds.take(k - start)),
        decreases end - k,
    {
        let b = content[k];
        proof {
            assert(ds[k - start] == content@[k as int]);
        }
        if b < 48 || b > 57 {
            proof {
                assert(!(48 <= ds[k - start] <= 57));
                assert(!all_digits(ds));
                if start == 1 {
                    assert(ds =~= t.skip(1));
                } else {
                    assert(ds =~= t);
                }
                assert(parsed_decimal(t) is None);
            }
            return None;
        }
        if mag > 2147483648 {
            proof {
                if all_digits(ds) {
                    lemma_digits_value_mono(ds, k - start);
                    assert(digits_value(ds) > 2147483647);
                    if start == 1 {
                        assert(ds =~= t.skip(1));
                    } else {
                        assert(ds =~= t);
                    }
                } else {
                    if start == 1 {
                        assert(ds =~= t.skip(1));
                    } else {
                        assert(ds =~= t);
                    }
                }
                assert(parsed_decimal(t) matches Some(v) ==> !(-2147483648 <= v <= 2147483647));
            }
            return None;
        }
        mag = mag * 10 + (b - 48) as i64;
        proof {
            assert(ds.take(k - start + 1).drop_last() =~= ds.take(k - start));
            assert(ds.take(k - start + 1).last() == ds[k - start]);
        }
        k += 1;
    }
    proof {
        assert(ds.take(end - start) =~= ds);
        assert(mag as int == digits_value(ds));
        assert(all_digits(ds));
        if start == 1 {
            assert(ds =~= t.skip(1));
        } else {
            assert(ds =~= t);
        }
    }
    if neg {
        if mag > 2147483648 {
            return None;
        }
        Some(-mag)
    } else {
        if mag > 2147483647 {
            return None;
        }
        Some(mag)
    }
}

/// Scales a raw sensor value in thousandths of a degree to hundredths,
/// rounding half away from zero.
pub fn sensor_value_to_centi(milli: i64) -> (r: i64)
    requires
        -2147483648 <= milli <= 2147483647,
    ensures
        r as int == centi_of_milli(milli as int),
{
    if milli >= 0 {
        (milli + 5) / 10
    } else {
        -((-milli + 5) / 10)
    }
}

/// Mathematical value of one configured sensor: its name and the path of
/// the source it is read from.
#[verifier::ext_equal]
pub ghost struct SensorModel {
    pub name: Seq<char>,
    pub path: Seq<char>,
}

/// One configured sensor: a name and the path of its raw value source.
#[derive(Debug)]
pub struct Sensor {
    name: String,
    path: String,
}

impl View for Sensor {
    type V = SensorModel;

    closed spec fn view(&self) -> SensorModel {
        SensorModel { name: self.name@, path: self.path@ }
    }
}

impl Clone for Sensor {
    fn clone(&self) -> (r: Self)
        ensures
            r@ == self@,
    {
        Sensor { name: self.name.clone(), path: self.path.clone() }
    }
}

impl Sensor {
    pub fn new(name: String, path: String) -> (r: Self)
        ensures
            r@.name == name@,
            r@.path == path@,
    {
        Sensor { name, path }
    }

    pub fn name(&self) -> (r: String)
        ensures
            r@ == self@.name,
    {
        self.name.clone()
    }

    pub fn path(&self) -> (r: String)
        ensures
            r@ == self@.path,
    {
        self.path.clone()
    }
}

/// The values of a sequence of sensors.
pub open spec fn sensors_view(ss: Seq<Sensor>) -> Seq<SensorModel> {
    ss.map_values(|s: Sensor| s@)
}

/// The named list of sensors read on each cycle.
#[derive(Debug)]
pub struct SensorConfig {
    sensors: Vec<Sensor>,
}

impl View for SensorConfig {
    type V = Seq<SensorModel>;

    closed spec fn view(&self) -> Seq<SensorModel> {
        sensors_view(self.sensors@)
    }
}

impl SensorConfig {
    pub fn new(sensors: Vec<Sensor>) -> (r: Self)
        ensures
            r@ == sensors_view(sensors@),
    {
        SensorConfig { sensors }
    }

    pub fn sensors(&self) -> (r: &Vec<Sensor>)
        ensures
            sensors_view(r@) == self@,
    {
        &self.sensors
    }
}

/// Failure of a read cycle or of one sensor within it. Sensor-level
/// failures are logged by the caller and excluded from the batch, never
/// surfaced further.
#[derive(Debug)]
pub enum TemperatureReaderError {
    ConfigRead,
    ConfigParse,
    SensorRead(Sensor),
    SensorParse(Sensor),
}

/// The reading one sensor contributes: its parsed, scaled value under its
/// name — or nothing, when its source could not be read, its bytes do not
/// denote a value, or the value is out of range.
pub open spec fn sensor_reading(s: SensorModel, content: Option<Seq<u8>>) -> Option<
    TemperatureModel,
> {
    match content {
        Some(bytes) => match parsed_sensor_value(bytes) {
            Some(v) => if -2147483648 <= v <= 2147483647 {
                Some(TemperatureModel { name: s.name, value_centi: centi_of_milli(v) })
            } else {
                None
            },
            None => None,
        },
        None => None,
    }
}

/// The batch a read cycle produces: each sensor's reading in sensor order,
/// failed sensors excluded.
pub open spec fn collected(sensors: Seq<SensorModel>, contents: Seq<Option<Seq<u8>>>) -> Seq<
    TemperatureModel,
>
    decreases sensors.len(),
{
    if sensors.len() == 0 || contents.len() == 0 {
        Seq::<TemperatureModel>::empty()
    } else {
        collected(sensors.drop_last(), contents.drop_last()) + match sensor_reading(
            sensors.last(),
            contents.last(),
        ) {
            Some(t) => seq![t],
            None => Seq::<TemperatureModel>::empty(),
        }
    }
}

/// The sensors a read cycle failed on, in sensor order.
pub open spec fn failed_sensors(sensors: Seq<SensorModel>, contents: Seq<Option<Seq<u8>>>) -> Seq<
    SensorModel,
>
    decreases sensors.len(),
{
    if sensors.len() == 0 || contents.len() == 0 {
        Seq::<SensorModel>::empty()
    } else {
        failed_sensors(sensors.drop_last(), contents.drop_last()) + match sensor_reading(
            sensors.last(),
            contents.last(),
        ) {
            Some(t) => Seq::<SensorModel>::empty(),
            None => seq![sensors.last()],
        }
    }
}

/// Every collected reading carries the name of one of the sensors.
proof fn lemma_collected_names(sensors: Seq<SensorModel>, contents: Seq<Option<Seq<u8>>>)
    ensures
        forall|k: int|
            0 <= k < collected(sensors, contents).len() ==> exists|j: int|
                0 <= j < sensors.len() && #[trigger] collected(sensors, contents)[k].name
                    == sensors[j].name,
    decreases sensors.len(),
{
    if sensors.len() > 0 && contents.len() > 0 {
        let dl = collected(sensors.drop_last(), contents.drop_last());
        lemma_collected_names(sensors.drop_last(), contents.drop_last());
        let c = collected(sensors, contents);
        assert forall|k: int| 0 <= k < c.len() implies exists|j: int|
            0 <= j < sensors.len() && #[trigger] c[k].name == sensors[j].name by {
            if k < dl.len() {
                let j = choose|j: int|
                    0 <= j < sensors.drop_last().len() && #[trigger] dl[k].name == sensors.drop_last()[j].name;
                assert(c[k].name == sensors[j].name);
            } else {
                assert(c[k].name == sensors[sensors.len() - 1].name);
            }
        }
    }
}

/// The per-batch uniqueness invariant holds of what a read cycle
/// collects: when no sensor name occurs twice in the configured list, no
/// name occurs twice in the batch.
pub proof fn lemma_collected_distinct(sensors: Seq<SensorModel>, contents: Seq<Option<Seq<u8>>>)
    requires
        forall|i: int, j: int|
            0 <= i < j < sensors.len() ==> #[trigger] sensors[i].name != #[trigger] sensors[j].name,
    ensures
        crate::temperature_recorder::distinct_sensor_names(collected(sensors, contents)),
    decreases sensors.len(),
{
    if sensors.len() > 0 && contents.len() > 0 {
        lemma_collected_distinct(sensors.drop_last(), contents.drop_last());
        lemma_collected_names(sensors.drop_last(), contents.drop_last());
        let dl = collected(sensors.drop_last(), contents.drop_last());
        let c = collected(sensors, contents);
        assert forall|p: int, q: int| 0 <= p < q < c.len() implies c[p].name != c[q].name by {
            if q < dl.len() {
                assert(dl[p].name != dl[q].name);
            } else {
                let j = choose|j: int|
                    0 <= j < sensors.drop_last().len() && #[trigger] dl[p].name
                        == sensors.drop_last()[j].name;
                assert(sensors[j].name != sensors[sensors.len() - 1].name);
            }
        }
    }
}

/// The raw bytes each sensor's source yielded, or nothing where reading
/// it failed.
pub open spec fn contents_view(cs: Seq<Option<Vec<u8>>>) -> Seq<Option<Seq<u8>>> {
    cs.map_values(
        |c: Option<Vec<u8>>|
            match c {
                Some(v) => Some(v@),
                None => None,
            },
    )
}

/// The reading source's computing half. The raw acquisition happens
/// outside and hands in one optional byte vector per configured sensor.
pub struct TemperatureReader;

impl TemperatureReader {
    pub fn new() -> (r: Self) {
        Self {  }
    }

    /// One read cycle's collection step: pairs each sensor with the bytes
    /// read from its source and returns the parsed readings in sensor
    /// order together with the sensors that failed — a failed sensor is
    /// excluded, never aborting the cycle.
    pub fn collect_temperatures(
        &self,
        sensors: &Vec<Sensor>,
        contents: &Vec<Option<Vec<u8>>>,
    ) -> (r: (Vec<Temperature>, Vec<Sensor>))
        requires
            sensors@.len() == contents@.len(),
        ensures
            temps_view(r.0@) == collected(sensors_view(sensors@), contents_view(contents@)),
            sensors_view(r.1@) == failed_sensors(sensors_view(sensors@), contents_view(contents@)),
    {
        let ghost sv = sensors_view(sensors@);
        let ghost cv = contents_view(contents@);
        let mut temps: Vec<Temperature> = Vec::new();
        let mut failed: Vec<Sensor> = Vec::new();
        let mut i: usize = 0;
        while i < sensors.len()
            invariant
                i <= sensors@.len(),
                sensors@.len() == contents@.len(),
                sv == sensors_view(sensors@),
                cv == contents_view(contents@),
                temps_view(temps@) == collected(sv.take(i as int), cv.take(i as int)),
                sensors_view(failed@) == failed_sensors(sv.take(i as int), cv.take(i as int)),
            decreases sensors@.len() - i,
        {
            proof {
                assert(sv.take(i + 1).drop_last() =~= sv.take(i as int));
                assert(cv.take(i + 1).drop_last() =~= cv.take(i as int));
                assert(sv.take(i + 1).last() == sv[i as int]);
                assert(cv.take(i + 1).last() == cv[i as int]);
            }
            let mut ok = false;
            match &contents[i] {
                Some(bytes) => {
                    match parse_sensor_value(bytes) {
                        Some(milli) => {
                            let centi = sensor_value_to_centi(milli);
                            let t = Temperature::new(sensors[i].name(), centi);
                            let ghost prev = temps@;
                            proof {
                                assert(sensor_reading(sv[i as int], cv[i as int])
                                    == Some(t@));
                            }
                            temps.push(t);
                            proof {
                                crate::temperature_recorder::lemma_temps_view_push(prev, t);
                                assert(collected(sv.take(i + 1), cv.take(i + 1)) =~= collected(
                                    sv.take(i as int),
                                    cv.take(i as int),
                                ).push(t@));
                            }
                            ok = true;
                        },
                        None => {
                        },
                    }
                },
                None => {
                },
            }
            if !ok {
                proof {
                    assert(sensor_reading(sv[i as int], cv[i as int]) is None);
                }
                let f = sensors[i].clone();
                let ghost prevf = failed@;
                failed.push(f);
                proof {
                    assert(sensors_view(failed@) =~= sensors_view(prevf).push(f@));
                    assert(failed_sensors(sv.take(i + 1), cv.take(i + 1)) =~= failed_sensors(
                        sv.take(i as int),
                        cv.take(i as int),
                    ).push(sv[i as int]));
                }
            } else {
                proof {
                    assert(collected(sv.take(i + 1), cv.take(i + 1)) == collected(
                        sv.take(i as int),
                        cv.take(i as int),
                    ) + match sensor_reading(sv[i as int], cv[i as int]) {
                        Some(t) => seq![t],
                        None => Seq::<TemperatureModel>::empty(),
                    });
                    assert(failed_sensors(sv.take(i + 1), cv.take(i + 1)) =~= failed_sensors(
                        sv.take(i as int),
                        cv.take(i as int),
                    ));
                }
            }
            i += 1;
        }
        proof {
            assert(sv.take(sv.len() as int) =~= sv);
            assert(cv.take(cv.len() as int) =~= cv);
        }
        (temps, failed)
    }
}

} // verus!
