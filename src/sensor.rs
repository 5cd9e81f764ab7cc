use vstd::prelude::*;
use crate::text::{all_digits, digits_checked, digits_value, find_char, i64_limit, scan_for};

verus! {

/// Width of the interval that simulated readings are drawn from: ten degrees.
pub const DEBUG_SPAN: i64 = 10_000_000;

/// How many times the hardware file is read before a sensor counts as unavailable.
pub const MAX_READ_ATTEMPTS: u32 = 5;

/// Why a single reading failed.
#[derive(Clone, Copy, Debug, PartialEq, Eq, Structural)]
pub enum SensorError {
    /// The reading never became valid within the allowed attempts, or the
    /// hardware file could not be read.
    SensorUnavailable,
    /// The hardware text did not have the expected layout or value.
    MalformedSensorData,
}

/// Defines a sensor.
///
/// A sensor has a device id, a friendly name and an optional calibration
/// offset in micro-degrees Fahrenheit, added after unit conversion.
pub struct Sensor {
    pub id: String,
    pub name: String,
    pub calibration: Option<i64>,
    pub debug: bool,
}

/// One entry of a snapshot: the sensor's id and name, and its temperature in
/// micro-degrees Fahrenheit or why it could not be read.
pub struct Value {
    pub id: String,
    pub name: String,
    pub value: Result<i128, SensorError>,
}

impl View for Sensor {
    type V = (Seq<char>, Seq<char>, Option<i64>, bool);

    open spec fn view(&self) -> Self::V {
        (self.id@, self.name@, self.calibration, self.debug)
    }
}

/// Calibration offset of a sensor, zero when absent.
pub open spec fn offset_of(calibration: Option<i64>) -> int {
    match calibration {
        Some(c) => c as int,
        None => 0,
    }
}

/// Micro-degrees Fahrenheit for milli-degrees Celsius: `(mC / 1000) * 9/5 + 32`.
pub open spec fn fahrenheit_micro(milli_c: int) -> int {
    milli_c * 1800 + 32_000_000
}

pub open spec fn first_line_end(t: Seq<char>) -> int {
    scan_for(t, '\n', 0)
}

/// The hardware's validity marker: line 1 ends in `YES`.
pub open spec fn is_ready(t: Seq<char>) -> bool {
    let e = first_line_end(t);
    e >= 3 && t.subrange(e - 3, e) == seq!['Y', 'E', 'S']
}

pub open spec fn second_line(t: Seq<char>) -> Seq<char> {
    let e = first_line_end(t);
    t.subrange(e + 1, scan_for(t, '\n', e + 1))
}

pub open spec fn marker_at(l: Seq<char>, i: int) -> bool {
    0 <= i && i + 1 < l.len() && l[i] == 't' && l[i + 1] == '='
}

/// Index of the first `t=` at or after `i`, or `l.len()` when there is none.
pub open spec fn find_marker(l: Seq<char>, i: int) -> int
    decreases l.len() - i,
{
    if i + 1 >= l.len() {
        l.len() as int
    } else if marker_at(l, i) {
        i
    } else {
        find_marker(l, i + 1)
    }
}

/// An integer: an optional `-` and one or more digits, whose magnitude fits an `i64`.
pub open spec fn parse_int(v: Seq<char>) -> Option<int> {
    let s: int = if v.len() > 0 && v[0] == '-' {
        1
    } else {
        0
    };
    let d = v.subrange(s, v.len() as int);
    if d.len() > 0 && all_digits(d) && digits_value(d) <= i64_limit() {
        Some(
            if s == 1 {
                -digits_value(d)
            } else {
                digits_value(d)
            },
        )
    } else {
        None
    }
}

/// The temperature in milli-degrees Celsius that hardware text reports.
///
/// Not valid yet (line 1 does not end in `YES`): unavailable. No line 2, or
/// line 2 without exactly one `t=`, or not an integer after it: malformed.
pub open spec fn sensor_data(t: Seq<char>) -> Result<int, SensorError> {
    if !is_ready(t) {
        Err(SensorError::SensorUnavailable)
    } else if first_line_end(t) >= t.len() {
        Err(SensorError::MalformedSensorData)
    } else {
        let l = second_line(t);
        let p = find_marker(l, 0);
        if p >= l.len() || find_marker(l, p + 2) < l.len() {
            Err(SensorError::MalformedSensorData)
        } else {
            match parse_int(l.subrange(p + 2, l.len() as int)) {
                Some(v) => Ok(v),
                None => Err(SensorError::MalformedSensorData),
            }
        }
    }
}

fn find_marker_from(l: &str, i: usize) -> (r: usize)
    requires
        i <= l@.len(),
    ensures
        r == find_marker(l@, i as int),
        r <= l@.len(),
        r < l@.len() ==> marker_at(l@, r as int),
{
    let n = l.unicode_len();
    let mut j = i;
    while n > 0 && j < n - 1 && !(l.get_char(j) == 't' && l.get_char(j + 1) == '=')
        invariant
            i <= j <= n == l@.len(),
            find_marker(l@, i as int) == find_marker(l@, j as int),
        decreases n - j,
    {
        j = j + 1;
    }
    if n > 0 && j < n - 1 {
        j
    } else {
        n
    }
}

fn parse_int_text(v: &str) -> (r: Option<i64>)
    ensures
        r matches Some(x) ==> parse_int(v@) == Some(x as int),
        r is None ==> parse_int(v@) is None,
{
    let n = v.unicode_len();
    let s: usize = if n > 0 && v.get_char(0) == '-' {
        1
    } else {
        0
    };
    if s == n {
        return None;
    }
    match digits_checked(v, s, n) {
        Some(d) => if s == 1 {
            Some(-(d as i64))
        } else {
            Some(d as i64)
        },
        None => None,
    }
}

/// Parse hardware text into milli-degrees Celsius.
pub fn parse_sensor_data(text: &str) -> (r: Result<i64, SensorError>)
    ensures
        match r {
            Ok(v) => sensor_data(text@) == Ok::<int, SensorError>(v as int),
            Err(e) => sensor_data(text@) == Err::<int, SensorError>(e),
        },
{
    let n = text.unicode_len();
    let e = find_char(text, '\n', 0);
    let ready = e >= 3 && text.get_char(e - 3) == 'Y' && text.get_char(e - 2) == 'E'
        && text.get_char(e - 1) == 'S';
    if !ready {
        assert(e >= 3 ==> text@.subrange(e - 3, e as int) != seq!['Y', 'E', 'S']) by {
            if e >= 3 && text@.subrange(e - 3, e as int) == seq!['Y', 'E', 'S'] {
                assert(text@.subrange(e - 3, e as int)[0] == text@[e - 3]);
                assert(text@.subrange(e - 3, e as int)[1] == text@[e - 2]);
                assert(text@.subrange(e - 3, e as int)[2] == text@[e - 1]);
            }
        }
        return Err(SensorError::SensorUnavailable);
    }
    assert(text@.subrange(e - 3, e as int) =~= seq!['Y', 'E', 'S']);
    if e >= n {
        return Err(SensorError::MalformedSensorData);
    }
    let e2 = find_char(text, '\n', e + 1);
    let line = text.substring_char(e + 1, e2);
    let m = line.unicode_len();
    let p = find_marker_from(line, 0);
    if p >= m {
        return Err(SensorError::MalformedSensorData);
    }
    let q = find_marker_from(line, p + 2);
    if q < m {
        return Err(SensorError::MalformedSensorData);
    }
    let rest = line.substring_char(p + 2, m);
    match parse_int_text(rest) {
        Some(v) => Ok(v),
        None => Err(SensorError::MalformedSensorData),
    }
}

/// What to do after one read of the hardware file.
#[derive(Clone, Copy, Debug, PartialEq, Eq, Structural)]
pub enum ReadStep {
    /// The reading is not valid yet: read the file again.
    Retry,
    /// The read is over: milli-degrees Celsius.
    Reading(i64),
    /// The read is over, and failed.
    Failed(SensorError),
}

/// The decision after read number `attempt` (counting from 0) of the hardware
/// file, given its text (`None` when it could not be read).
pub open spec fn read_step_spec(attempt: int, data: Option<Seq<char>>) -> ReadStep {
    match data {
        None => ReadStep::Failed(SensorError::SensorUnavailable),
        Some(t) => match sensor_data(t) {
            Ok(v) => ReadStep::Reading(v as i64),
            Err(SensorError::SensorUnavailable) => if attempt + 1 < MAX_READ_ATTEMPTS {
                ReadStep::Retry
            } else {
                ReadStep::Failed(SensorError::SensorUnavailable)
            },
            Err(e) => ReadStep::Failed(e),
        },
    }
}

/// Decide what follows read number `attempt` of a hardware file. The retry is
/// bounded: from attempt `MAX_READ_ATTEMPTS - 1` on, the answer is never `Retry`.
pub fn read_step(attempt: u32, data: &Option<String>) -> (r: ReadStep)
    ensures
        r == read_step_spec(attempt as int, match data {
            Some(t) => Some(t@),
            None => None,
        }),
        attempt + 1 >= MAX_READ_ATTEMPTS ==> !(r is Retry),
        r matches ReadStep::Reading(v) ==> data matches Some(t) && sensor_data(t@) == Ok::<
            int,
            SensorError,
        >(v as int),
{
    match data {
        None => ReadStep::Failed(SensorError::SensorUnavailable),
        Some(t) => match parse_sensor_data(t.as_str()) {
            Ok(v) => ReadStep::Reading(v),
            Err(SensorError::SensorUnavailable) => if attempt < MAX_READ_ATTEMPTS - 1 {
                ReadStep::Retry
            } else {
                ReadStep::Failed(SensorError::SensorUnavailable)
            },
            Err(e) => ReadStep::Failed(e),
        },
    }
}

/// Relies on rand's `thread_rng` and `Rng::gen_range`, which rand documents
/// as a uniform draw from `[low, high)` that panics when `low >= high`.
#[verifier::external_body]
fn random_in(low: i64, high: i64) -> (r: i64)
    requires
        low < high,
    ensures
        low <= r < high,
{
    rand::Rng::gen_range(&mut rand::thread_rng(), low, high)
}

impl Sensor {
    /// Creates a new sensor.
    pub fn new(id: &str, name: &str, calibration: Option<i64>, debug: bool) -> (r: Sensor)
        ensures
            r@ == (id@, name@, calibration, debug),
    {
        Sensor { id: String::from_str(id), name: String::from_str(name), calibration, debug }
    }

    pub open spec fn offset(&self) -> int {
        offset_of(self.calibration)
    }

    /// The calibrated temperature, in micro-degrees Fahrenheit, for a raw
    /// hardware value in milli-degrees Celsius.
    pub fn calibrate(&self, milli_c: i64) -> (r: i128)
        ensures
            r == fahrenheit_micro(milli_c as int) + self.offset(),
    {
        let cal: i128 = match self.calibration {
            Some(c) => c as i128,
            None => 0,
        };
        milli_c as i128 * 1800 + 32_000_000 + cal
    }

    /// A simulated temperature: `draw` micro-degrees plus the calibration.
    pub fn debug_reading(&self, draw: i64) -> (r: i128)
        ensures
            r == draw + self.offset(),
    {
        let cal: i128 = match self.calibration {
            Some(c) => c as i128,
            None => 0,
        };
        draw as i128 + cal
    }

    /// Get the current temperature of a sensor, in micro-degrees Fahrenheit.
    ///
    /// A debug sensor draws a value from `[0, 10)` degrees and adds its
    /// calibration; `hardware` is not looked at. Any other sensor converts
    /// the outcome of reading its hardware file.
    pub fn get_temperature(&self, hardware: Result<i64, SensorError>) -> (r: Result<i128, SensorError>)
        ensures
            self.debug ==> (r matches Ok(v) && self.offset() <= v < self.offset() + DEBUG_SPAN),
            !self.debug ==> match hardware {
                Ok(m) => r == Ok::<i128, SensorError>((fahrenheit_micro(m as int) + self.offset()) as i128),
                Err(e) => r == Err::<i128, SensorError>(e),
            },
    {
        if self.debug {
            Ok(self.debug_reading(random_in(0, DEBUG_SPAN)))
        } else {
            match hardware {
                Ok(m) => Ok(self.calibrate(m)),
                Err(e) => Err(e),
            }
        }
    }

    pub fn clone(&self) -> (r: Sensor)
        ensures
            r@ == self@,
    {
        Sensor {
            id: self.id.clone(),
            name: self.name.clone(),
            calibration: self.calibration,
            debug: self.debug,
        }
    }
}

impl Value {
    pub fn new(id: &String, name: &String, value: Result<i128, SensorError>) -> (r: Value)
        ensures
            r.id@ == id@,
            r.name@ == name@,
            r.value == value,
    {
        Value { id: id.clone(), name: name.clone(), value }
    }
}

/// Get a snapshot of all sensors: one entry per sensor, in order, each with
/// the sensor's id and name. `hardware[i]` is the outcome of reading the
/// hardware file of `sensors[i]` (ignored for a debug sensor).
pub fn get_all_temp(sensors: &Vec<Sensor>, hardware: &Vec<Result<i64, SensorError>>) -> (r: Vec<Value>)
    requires
        hardware.len() == sensors.len(),
    ensures
        r.len() == sensors.len(),
        forall|i: int|
            0 <= i < r.len() ==> {
                &&& (#[trigger] r[i]).id@ == sensors[i].id@
                &&& r[i].name@ == sensors[i].name@
                &&& sensors[i].debug ==> (r[i].value matches Ok(v) && sensors[i].offset() <= v
                    < sensors[i].offset() + DEBUG_SPAN)
                &&& !sensors[i].debug ==> match hardware[i] {
                    Ok(m) => r[i].value == Ok::<i128, SensorError>(
                        (fahrenheit_micro(m as int) + sensors[i].offset()) as i128,
                    ),
                    Err(e) => r[i].value == Err::<i128, SensorError>(e),
                }
            },
{
    let mut values: Vec<Value> = Vec::new();
    let mut k: usize = 0;
    while k < sensors.len()
        invariant
            k <= sensors.len() == hardware.len(),
            values.len() == k,
            forall|i: int|
                0 <= i < k ==> {
                    &&& (#[trigger] values[i]).id@ == sensors[i].id@
                    &&& values[i].name@ == sensors[i].name@
                    &&& sensors[i].debug ==> (values[i].value matches Ok(v) && sensors[i].offset()
                        <= v < sensors[i].offset() + DEBUG_SPAN)
                    &&& !sensors[i].debug ==> match hardware[i] {
                        Ok(m) => values[i].value == Ok::<i128, SensorError>(
                            (fahrenheit_micro(m as int) + sensors[i].offset()) as i128,
                        ),
                        Err(e) => values[i].value == Err::<i128, SensorError>(e),
                    }
                },
        decreases sensors.len() - k,
    {
        let s = &sensors[k];
        let t = s.get_temperature(hardware[k]);
        values.push(Value::new(&s.id, &s.name, t));
        k = k + 1;
    }
    values
}

/// Hardware text whose reading is valid but whose second line has no `t=`
/// is malformed data: an error, and no further read is asked for.
pub proof fn lemma_missing_marker_malformed(t: Seq<char>, attempt: int)
    requires
        is_ready(t),
        find_marker(second_line(t), 0) >= second_line(t).len(),
    ensures
        sensor_data(t) == Err::<int, SensorError>(SensorError::MalformedSensorData),
        read_step_spec(attempt, Some(t)) == ReadStep::Failed(SensorError::MalformedSensorData),
{
}

} // verus!
