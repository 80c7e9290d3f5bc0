//! Shared data model: the recorder configuration, a single sensor reading,
//! and a batch of readings captured at one instant.
//!
//! A temperature value is held in hundredths of a degree (`value_centi`),
//! which is exactly the two-decimal precision at which readings are
//! persisted and rendered.

use vstd::prelude::*;
use vstd::string::*;

verus! {

/// The recording configuration: how often a sample is taken, and how many
/// days of readings are kept before the retention sweep removes them.
#[derive(Clone, Copy, Debug, PartialEq, Eq, Structural)]
pub struct RecorderConfig {
    pub interval_seconds: u32,
    pub keep_days: u64,
}

impl RecorderConfig {
    /// A configuration is valid when both the sampling interval and the
    /// retention horizon are positive.
    pub open spec fn valid(self) -> bool {
        self.interval_seconds >= 1 && self.keep_days >= 1
    }

    pub fn new(interval_seconds: u32, keep_days: u64) -> (r: Self)
        ensures
            r.interval_seconds == interval_seconds,
            r.keep_days == keep_days,
    {
        Self { interval_seconds, keep_days }
    }

    /// Runtime check matching `valid`, for callers that receive a
    /// configuration from outside.
    pub fn is_valid(&self) -> (r: bool)
        ensures
            r == self.valid(),
    {
        self.interval_seconds >= 1 && self.keep_days >= 1
    }
}

/// Mathematical value of one reading: the sensor's name and the temperature
/// in hundredths of a degree.
#[verifier::ext_equal]
pub ghost struct TemperatureModel {
    pub name: Seq<char>,
    pub value_centi: int,
}

/// One sensor reading: a sensor name and a temperature in hundredths of a
/// degree. Immutable once stored.
#[derive(Debug)]
pub struct Temperature {
    name: String,
    value_centi: i64,
}

/// The values of a sequence of readings.
pub open spec fn temps_view(ts: Seq<Temperature>) -> Seq<TemperatureModel> {
    ts.map_values(|t: Temperature| t@)
}

/// No sensor name occurs twice in the sequence.
pub open spec fn distinct_sensor_names(ts: Seq<TemperatureModel>) -> bool {
    forall|i: int, j: int| 0 <= i < j < ts.len() ==> ts[i].name != ts[j].name
}

impl View for Temperature {
    type V = TemperatureModel;

    closed spec fn view(&self) -> TemperatureModel {
        TemperatureModel { name: self.name@, value_centi: self.value_centi as int }
    }
}

impl Clone for Temperature {
    fn clone(&self) -> (r: Self)
        ensures
            r@ == self@,
    {
        Temperature { name: self.name.clone(), value_centi: self.value_centi }
    }
}

/// The decimal character for one digit.
pub open spec fn digit_char(d: int) -> char {
    if d == 0 {
        '0'
    } else if d == 1 {
        '1'
    } else if d == 2 {
        '2'
    } else if d == 3 {
        '3'
    } else if d == 4 {
        '4'
    } else if d == 5 {
        '5'
    } else if d == 6 {
        '6'
    } else if d == 7 {
        '7'
    } else if d == 8 {
        '8'
    } else {
        '9'
    }
}

/// Decimal digits of a non-negative integer, most significant first,
/// without leading zeros (a single `'0'` for zero).
pub open spec fn decimal_digits(n: int) -> Seq<char>
    decreases n,
{
    if n < 10 {
        seq![digit_char(n)]
    } else {
        decimal_digits(n / 10).push(digit_char(n % 10))
    }
}

/// Magnitude of a value in hundredths.
pub open spec fn abs_int(v: int) -> int {
    if v < 0 {
        -v
    } else {
        v
    }
}

/// Rendering of a value held in hundredths as a decimal number with exactly
/// two digits after the point, e.g. `5500 -> "55.00"` and `-5 -> "-0.05"`.
pub open spec fn decimal_centi_repr(v: int) -> Seq<char> {
    let a = abs_int(v);
    (if v < 0 {
        seq!['-']
    } else {
        Seq::<char>::empty()
    }) + decimal_digits(a / 100) + seq!['.'] + seq![digit_char((a / 10) % 10), digit_char(a % 10)]
}

/// Appends the character of one decimal digit.
fn append_digit(s: &mut String, d: u64)
    requires
        d < 10,
    ensures
        final(s)@ == old(s)@ + seq![digit_char(d as int)],
{
    if d == 0 {
        proof {
            reveal_strlit("0");
        }
        s.append("0");
        assert(s@ =~= old(s)@ + seq![digit_char(d as int)]);
    } else if d == 1 {
        proof {
            reveal_strlit("1");
        }
        s.append("1");
        assert(s@ =~= old(s)@ + seq![digit_char(d as int)]);
    } else if d == 2 {
        proof {
            reveal_strlit("2");
        }
        s.append("2");
        assert(s@ =~= old(s)@ + seq![digit_char(d as int)]);
    } else if d == 3 {
        proof {
            reveal_strlit("3");
        }
        s.append("3");
        assert(s@ =~= old(s)@ + seq![digit_char(d as int)]);
    } else if d == 4 {
        proof {
            reveal_strlit("4");
        }
        s.append("4");
        assert(s@ =~= old(s)@ + seq![digit_char(d as int)]);
    } else if d == 5 {
        proof {
            reveal_strlit("5");
        }
        s.append("5");
        assert(s@ =~= old(s)@ + seq![digit_char(d as int)]);
    } else if d == 6 {
        proof {
            reveal_strlit("6");
        }
        s.append("6");
        assert(s@ =~= old(s)@ + seq![digit_char(d as int)]);
    } else if d == 7 {
        proof {
            reveal_strlit("7");
        }
        s.append("7");
        assert(s@ =~= old(s)@ + seq![digit_char(d as int)]);
    } else if d == 8 {
        proof {
            reveal_strlit("8");
        }
        s.append("8");
        assert(s@ =~= old(s)@ + seq![digit_char(d as int)]);
    } else {
        proof {
            reveal_strlit("9");
        }
        s.append("9");
        assert(s@ =~= old(s)@ + seq![digit_char(d as int)]);
    }
}

/// Appends the decimal digits of `n`, most significant first.
fn append_decimal_digits(s: &mut String, n: u64)
    ensures
        final(s)@ == old(s)@ + decimal_digits(n as int),
    decreases n,
{
    if n >= 10 {
        append_decimal_digits(s, n / 10);
        append_digit(s, n % 10);
        assert(s@ =~= old(s)@ + decimal_digits(n as int));
    } else {
        append_digit(s, n);
    }
}

impl Temperature {
    pub fn new(name: String, value_centi: i64) -> (r: Self)
        ensures
            r@.name == name@,
            r@.value_centi == value_centi as int,
    {
        Self { name, value_centi }
    }

    pub fn name(&self) -> (r: String)
        ensures
            r@ == self@.name,
    {
        self.name.clone()
    }

    pub fn value_centi(&self) -> (r: i64)
        ensures
            r as int == self@.value_centi,
    {
        self.value_centi
    }

    /// The value rendered with exactly two digits after the decimal point.
    pub fn value_rounded_as_string(&self) -> (r: String)
        ensures
            r@ == decimal_centi_repr(self@.value_centi),
    {
        let v = self.value_centi;
        let mut s = String::new();
        let a: u64;
        if v < 0 {
            proof {
                reveal_strlit("-");
            }
            s.append("-");
            a = (-(v as i128)) as u64;
            assert(s@ =~= seq!['-']);
            assert(a as int == abs_int(v as int));
        } else {
            a = v as u64;
        }
        append_decimal_digits(&mut s, a / 100);
        proof {
            reveal_strlit(".");
        }
        s.append(".");
        append_digit(&mut s, (a / 10) % 10);
        append_digit(&mut s, a % 10);
        assert(s@ =~= decimal_centi_repr(self.value_centi as int));
        s
    }
}

/// Mathematical value of one batch: the capture timestamp and the readings
/// taken at that instant.
#[verifier::ext_equal]
pub ghost struct BatchModel {
    pub date: int,
    pub temperatures: Seq<TemperatureModel>,
}

/// All readings captured at one scheduler tick, sharing one capture
/// timestamp in milliseconds since the epoch.
#[derive(Debug)]
pub struct TemperaturesByTime {
    date: u64,
    temperatures: Vec<Temperature>,
}

impl View for TemperaturesByTime {
    type V = BatchModel;

    closed spec fn view(&self) -> BatchModel {
        BatchModel { date: self.date as int, temperatures: temps_view(self.temperatures@) }
    }
}

impl TemperaturesByTime {
    pub fn new(date: u64, temperatures: Vec<Temperature>) -> (r: Self)
        ensures
            r@.date == date as int,
            r@.temperatures == temps_view(temperatures@),
    {
        Self { date, temperatures }
    }

    pub fn date(&self) -> (r: u64)
        ensures
            r as int == self@.date,
    {
        self.date
    }

    pub fn temperatures(&self) -> (r: Vec<Temperature>)
        ensures
            temps_view(r@) == self@.temperatures,
    {
        let mut out: Vec<Temperature> = Vec::new();
        let mut i: usize = 0;
        while i < self.temperatures.len()
            invariant
                i <= self.temperatures.len(),
                out@.len() == i,
                temps_view(out@) == temps_view(self.temperatures@).take(i as int),
            decreases self.temperatures.len() - i,
        {
            let t = self.temperatures[i].clone();
            out.push(t);
            proof {
                let tv = temps_view(self.temperatures@);
                assert(out@.len() == i + 1);
                assert forall|k: int| 0 <= k < i + 1 implies temps_view(out@)[k] == tv.take(
                    i + 1,
                )[k] by {
                    if k < i {
                        assert(temps_view(out@)[k] == tv.take(i as int)[k]);
                    } else {
                        assert(out@[k] == t);
                        assert(temps_view(out@)[k] == t@);
                    }
                }
                assert(temps_view(out@) =~= tv.take(i + 1));
            }
            i += 1;
        }
        assert(temps_view(out@) =~~= temps_view(self.temperatures@));
        out
    }

    /// How many readings the batch holds.
    pub fn len(&self) -> (r: usize)
        ensures
            r == self@.temperatures.len(),
    {
        self.temperatures.len()
    }
}

/// The value of a sequence of readings extends pointwise.
pub proof fn lemma_temps_view_push(s: Seq<Temperature>, t: Temperature)
    ensures
        temps_view(s.push(t)) == temps_view(s).push(t@),
{
    assert(temps_view(s.push(t)) =~= temps_view(s).push(t@));
}

/// Runtime check matching `distinct_sensor_names`, for callers that receive
/// readings from outside.
pub fn has_distinct_names(ts: &Vec<Temperature>) -> (r: bool)
    ensures
        r == distinct_sensor_names(temps_view(ts@)),
{
    let mut i: usize = 0;
    while i < ts.len()
        invariant
            i <= ts.len(),
            forall|p: int, q: int|
                0 <= p < q < ts@.len() && p < i ==> temps_view(ts@)[p].name != temps_view(
                    ts@,
                )[q].name,
        decreases ts.len() - i,
    {
        let mut j: usize = i + 1;
        while j < ts.len()
            invariant
                i < j <= ts.len(),
                forall|q: int| i < q < j ==> temps_view(ts@)[i as int].name != temps_view(ts@)[q].name,
            decreases ts.len() - j,
        {
            if ts[i].name.eq(&ts[j].name) {
                proof {
                    assert(temps_view(ts@)[i as int].name == temps_view(ts@)[j as int].name);
                }
                return false;
            }
            j += 1;
        }
        i += 1;
    }
    true
}

} // verus!
