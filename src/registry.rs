use vstd::prelude::*;
use crate::sensor::Sensor;
use crate::common::is_digit;
use crate::text::{
    all_digits, digits_checked, digits_value, find_char, find_non_digit, i64_limit,
    lemma_all_digits_take, lemma_pow10_mono, pow10, scan_for, skip_digits, trim, trim_text,
};

verus! {

/// Why a set of configuration rows gives no registry. Each is fatal at startup.
#[derive(Clone, Copy, Debug, PartialEq, Eq, Structural)]
pub enum ConfigError {
    /// No row defines a sensor.
    NoSensors,
    /// A sensor row's value has no `,` between id and calibration.
    MalformedRow,
    /// A sensor row's calibration is not a decimal number.
    InvalidCalibration,
}

/// Number of characters of a sign at `i` in `v`.
pub open spec fn sign_at(v: Seq<char>, i: int) -> int {
    if 0 <= i < v.len() && (v[i] == '-' || v[i] == '+') {
        1
    } else {
        0
    }
}

/// The exponent that follows the digits of a decimal number, which end at
/// `e`: none (zero), or `e`/`E`, an optional sign and digits.
pub open spec fn exponent_of(v: Seq<char>, e: int) -> Option<int> {
    if e == v.len() {
        Some(0)
    } else if v[e] == 'e' || v[e] == 'E' {
        let s = sign_at(v, e + 1);
        let ds = v.subrange(e + 1 + s, v.len() as int);
        if ds.len() > 0 && all_digits(ds) && digits_value(ds) <= i64_limit() {
            Some(
                if s == 1 && v[e + 1] == '-' {
                    -digits_value(ds)
                } else {
                    digits_value(ds)
                },
            )
        } else {
            None
        }
    } else {
        None
    }
}

/// The digits `d` times `10^k`, truncated to a whole number.
pub open spec fn scaled(d: Seq<char>, k: int) -> int {
    if k >= 0 {
        digits_value(d) * pow10(k as nat)
    } else if -k < d.len() {
        digits_value(d.take(d.len() + k))
    } else {
        0
    }
}

/// A decimal number in millionths, truncated toward zero.
///
/// The text is an optional sign, digits with an optional point (one side of
/// the point may be empty, not both), and an optional exponent `e`/`E` with
/// an optional sign and digits. Decimals past the sixth are dropped. The
/// number is held in an `i64` of millionths, so a value whose magnitude does
/// not fit there, and an exponent whose magnitude does not fit an `i64`, are
/// not accepted; nor are `inf` and `nan`, which have no fixed-point value.
pub open spec fn parse_decimal(v: Seq<char>) -> Option<int> {
    let st = sign_at(v, 0);
    let sign: int = if st == 1 && v[0] == '-' {
        -1
    } else {
        1
    };
    let w_end = skip_digits(v, st);
    let has_dot = w_end < v.len() && v[w_end] == '.';
    let f_start = if has_dot {
        w_end + 1
    } else {
        w_end
    };
    let f_end = if has_dot {
        skip_digits(v, f_start)
    } else {
        f_start
    };
    let whole = v.subrange(st, w_end);
    let frac = v.subrange(f_start, f_end);
    if whole.len() + frac.len() == 0 {
        None
    } else {
        match exponent_of(v, f_end) {
            None => None,
            Some(x) => {
                let m = scaled(whole + frac, x + 6 - frac.len());
                if m <= i64_limit() {
                    Some(sign * m)
                } else {
                    None
                }
            },
        }
    }
}

fn parse_exponent(v: &str, e: usize) -> (r: Option<i128>)
    requires
        e <= v@.len(),
    ensures
        r matches Some(x) ==> exponent_of(v@, e as int) == Some(x as int),
        r matches Some(x) ==> -i64_limit() <= x <= i64_limit(),
        r is None ==> exponent_of(v@, e as int) is None,
{
    let n = v.unicode_len();
    if e == n {
        return Some(0);
    }
    let c = v.get_char(e);
    if c != 'e' && c != 'E' {
        return None;
    }
    let s: usize = if e + 1 < n && (v.get_char(e + 1) == '-' || v.get_char(e + 1) == '+') {
        1
    } else {
        0
    };
    if e + 1 + s == n {
        return None;
    }
    match digits_checked(v, e + 1 + s, n) {
        Some(x) => if s == 1 && v.get_char(e + 1) == '-' {
            Some(-(x as i128))
        } else {
            Some(x as i128)
        },
        None => None,
    }
}

/// `m * 10^k` when it fits an `i64`.
fn scale_up(m: u64, k: i128) -> (r: Option<u64>)
    requires
        m as int <= i64_limit(),
        k >= 0,
    ensures
        r is Some <==> m * pow10(k as nat) <= i64_limit(),
        r matches Some(x) ==> x as int == m * pow10(k as nat),
{
    if m == 0 {
        assert(m * pow10(k as nat) == 0);
        return Some(0);
    }
    let mut acc: u64 = m;
    let mut i: i128 = 0;
    assert(pow10(0) == 1);
    while i < k
        invariant
            0 <= i <= k,
            m > 0,
            acc as int == m * pow10(i as nat),
            acc as int <= i64_limit(),
        decreases k - i,
    {
        let wide = acc as u128 * 10;
        assert(pow10((i + 1) as nat) == 10 * pow10(i as nat));
        assert(m * pow10((i + 1) as nat) == 10 * (m * pow10(i as nat))) by (nonlinear_arith)
            requires
                pow10((i + 1) as nat) == 10 * pow10(i as nat),
        ;
        if wide > i64::MAX as u128 {
            proof {
                lemma_pow10_mono((i + 1) as nat, k as nat);
                let a = pow10((i + 1) as nat);
                let b = pow10(k as nat);
                let mm = m as int;
                assert(mm * a <= mm * b) by (nonlinear_arith)
                    requires
                        a <= b,
                        mm > 0,
                ;
            }
            return None;
        }
        acc = wide as u64;
        i = i + 1;
    }
    Some(acc)
}

/// `scaled(d, k)` for the digits `d`, when it fits an `i64`.
fn scale_digits(d: &str, k: i128) -> (r: Option<u64>)
    requires
        all_digits(d@),
    ensures
        r is Some <==> scaled(d@, k as int) <= i64_limit(),
        r matches Some(x) ==> x as int == scaled(d@, k as int),
{
    let dn = d.unicode_len();
    if k >= 0 {
        assert(d@.subrange(0, dn as int) =~= d@);
        match digits_checked(d, 0, dn) {
            Some(m) => scale_up(m, k),
            None => {
                proof {
                    lemma_pow10_mono(0, k as nat);
                    let dv = digits_value(d@);
                    let p = pow10(k as nat);
                    assert(dv * p >= dv) by (nonlinear_arith)
                        requires
                            dv > i64_limit(),
                            p >= 1,
                    ;
                }
                None
            },
        }
    } else if k + dn as i128 > 0 {
        let keep = (dn as i128 + k) as usize;
        assert(d@.subrange(0, keep as int) =~= d@.take(keep as int));
        proof {
            lemma_all_digits_take(d@, keep as int);
        }
        digits_checked(d, 0, keep)
    } else {
        Some(0)
    }
}

/// Parse a calibration into millionths of a degree.
pub fn parse_calibration(v: &str) -> (r: Option<i64>)
    ensures
        r matches Some(x) ==> parse_decimal(v@) == Some(x as int),
        r is None ==> parse_decimal(v@) is None,
{
    let n = v.unicode_len();
    let st: usize = if n > 0 && (v.get_char(0) == '-' || v.get_char(0) == '+') {
        1
    } else {
        0
    };
    let neg = st == 1 && v.get_char(0) == '-';
    let w_end = find_non_digit(v, st);
    let has_dot = w_end < n && v.get_char(w_end) == '.';
    let f_start = if has_dot {
        w_end + 1
    } else {
        w_end
    };
    let f_end = if has_dot {
        find_non_digit(v, f_start)
    } else {
        assert(v@.subrange(f_start as int, f_start as int) =~= Seq::<char>::empty());
        f_start
    };
    if w_end - st == 0 && f_end - f_start == 0 {
        return None;
    }
    let exp = match parse_exponent(v, f_end) {
        Some(x) => x,
        None => return None,
    };
    let mut digits = String::from_str(v.substring_char(st, w_end));
    digits.append(v.substring_char(f_start, f_end));
    let ghost d = v@.subrange(st as int, w_end as int) + v@.subrange(f_start as int, f_end as int);
    assert(digits@ == d);
    assert(all_digits(d)) by {
        assert forall|k: int| 0 <= k < d.len() implies is_digit(#[trigger] d[k]) by {
            if k < w_end - st {
                assert(d[k] == v@.subrange(st as int, w_end as int)[k]);
            } else {
                assert(d[k] == v@.subrange(f_start as int, f_end as int)[k - (w_end - st)]);
            }
        }
    }
    let k: i128 = exp + 6 - (f_end - f_start) as i128;
    let ghost whole = v@.subrange(st as int, w_end as int);
    let ghost frac = v@.subrange(f_start as int, f_end as int);
    assert(sign_at(v@, 0) == st as int);
    assert(skip_digits(v@, st as int) == w_end as int);
    assert(whole + frac == d);
    assert(exponent_of(v@, f_end as int) == Some(exp as int));
    let mag = match scale_digits(digits.as_str(), k) {
        Some(m) => m,
        None => {
            assert(parse_decimal(v@) is None);
            return None;
        },
    };
    let ghost sign: int = if neg {
        -1
    } else {
        1
    };
    assert(parse_decimal(v@) == Some(sign * (mag as int)));
    assert(sign * (mag as int) == if neg {
        -(mag as int)
    } else {
        mag as int
    }) by (nonlinear_arith)
        requires
            sign == (if neg {
                -1int
            } else {
                1int
            }),
    ;
    if neg {
        Some(-(mag as i64))
    } else {
        Some(mag as i64)
    }
}

/// The key prefix that marks a configuration row as a sensor definition.
pub open spec fn sensor_prefix() -> Seq<char> {
    seq!['s', 'e', 'n', 's', 'o', 'r', '_']
}

pub open spec fn is_sensor_key(key: Seq<char>) -> bool {
    key.len() >= 7 && key.subrange(0, 7) == sensor_prefix()
}

/// The sensor that row `sensor_<name>` -> `<id>, <calibration>` defines. The
/// calibration is the field after the first comma; any later fields are ignored.
pub open spec fn row_sensor(key: Seq<char>, value: Seq<char>, debug: bool) -> Result<
    (Seq<char>, Seq<char>, Option<i64>, bool),
    ConfigError,
> {
    let c = scan_for(value, ',', 0);
    if c >= value.len() {
        Err(ConfigError::MalformedRow)
    } else {
        match parse_decimal(trim(value.subrange(c + 1, scan_for(value, ',', c + 1)))) {
            None => Err(ConfigError::InvalidCalibration),
            Some(cal) => Ok(
                (
                    trim(value.subrange(0, c)),
                    trim(key.subrange(7, key.len() as int)),
                    Some(cal as i64),
                    debug,
                ),
            ),
        }
    }
}

/// The sensors that `rows` define, in order, or the first row's error.
pub open spec fn sensors_of(rows: Seq<[String; 2]>, debug: bool) -> Result<
    Seq<(Seq<char>, Seq<char>, Option<i64>, bool)>,
    ConfigError,
>
    decreases rows.len(),
{
    if rows.len() == 0 {
        Ok(seq![])
    } else {
        match sensors_of(rows.drop_last(), debug) {
            Err(e) => Err(e),
            Ok(acc) => {
                let row = rows.last();
                if !is_sensor_key(row[0]@) {
                    Ok(acc)
                } else {
                    match row_sensor(row[0]@, row[1]@, debug) {
                        Err(e) => Err(e),
                        Ok(s) => Ok(acc.push(s)),
                    }
                }
            },
        }
    }
}

/// The registry that `rows` give: their sensors, unless there are none.
pub open spec fn registry_of(rows: Seq<[String; 2]>, debug: bool) -> Result<
    Seq<(Seq<char>, Seq<char>, Option<i64>, bool)>,
    ConfigError,
> {
    match sensors_of(rows, debug) {
        Ok(s) => if s.len() == 0 {
            Err(ConfigError::NoSensors)
        } else {
            Ok(s)
        },
        Err(e) => Err(e),
    }
}

pub open spec fn views(sensors: Seq<Sensor>) -> Seq<(Seq<char>, Seq<char>, Option<i64>, bool)> {
    sensors.map_values(|s: Sensor| s@)
}

fn has_sensor_prefix(key: &str) -> (r: bool)
    ensures
        r == is_sensor_key(key@),
{
    let n = key.unicode_len();
    if n < 7 {
        return false;
    }
    let head = key.substring_char(0, 7);
    let r = head.get_char(0) == 's' && head.get_char(1) == 'e' && head.get_char(2) == 'n'
        && head.get_char(3) == 's' && head.get_char(4) == 'o' && head.get_char(5) == 'r'
        && head.get_char(6) == '_';
    proof {
        if r {
            assert(head@ =~= sensor_prefix());
        } else if head@ == sensor_prefix() {
            assert(head@[0] == 's' && head@[1] == 'e' && head@[2] == 'n' && head@[3] == 's'
                && head@[4] == 'o' && head@[5] == 'r' && head@[6] == '_');
        }
    }
    r
}

fn sensor_from_row(key: &str, value: &str, debug: bool) -> (r: Result<Sensor, ConfigError>)
    requires
        is_sensor_key(key@),
    ensures
        match r {
            Ok(s) => row_sensor(key@, value@, debug) == Ok::<
                (Seq<char>, Seq<char>, Option<i64>, bool),
                ConfigError,
            >(s@),
            Err(e) => row_sensor(key@, value@, debug) == Err::<
                (Seq<char>, Seq<char>, Option<i64>, bool),
                ConfigError,
            >(e),
        },
{
    let n = value.unicode_len();
    let c = find_char(value, ',', 0);
    if c >= n {
        return Err(ConfigError::MalformedRow);
    }
    let c2 = find_char(value, ',', c + 1);
    let cal_text = trim_text(value.substring_char(c + 1, c2));
    let cal = match parse_calibration(cal_text.as_str()) {
        Some(x) => x,
        None => return Err(ConfigError::InvalidCalibration),
    };
    let id = trim_text(value.substring_char(0, c));
    let name = trim_text(key.substring_char(7, key.unicode_len()));
    Ok(Sensor { id, name, calibration: Some(cal), debug })
}

proof fn lemma_error_persists(rows: Seq<[String; 2]>, k: nat, debug: bool)
    requires
        k <= rows.len(),
        sensors_of(rows.subrange(0, k as int), debug) is Err,
    ensures
        sensors_of(rows, debug) == sensors_of(rows.subrange(0, k as int), debug),
    decreases rows.len() - k,
{
    if k < rows.len() {
        let next = rows.subrange(0, k + 1 as int);
        assert(next.drop_last() =~= rows.subrange(0, k as int));
        lemma_error_persists(rows, (k + 1) as nat, debug);
    } else {
        assert(rows.subrange(0, k as int) =~= rows);
    }
}

/// Get all the sensors defined in the configuration rows, in order.
///
/// A row is a sensor iff its key starts with `sensor_`; the rest of the key,
/// trimmed, is the sensor's name. Its value is `<id>, <calibration>`: the id
/// is the text before the first comma, the calibration the text between it
/// and the next comma (or the end), each trimmed; later fields are ignored.
/// No sensor at all is an error.
pub fn get_sensors(data: &Vec<[String; 2]>, debug: bool) -> (r: Result<Vec<Sensor>, ConfigError>)
    ensures
        match r {
            Ok(v) => registry_of(data@, debug) == Ok::<
                Seq<(Seq<char>, Seq<char>, Option<i64>, bool)>,
                ConfigError,
            >(views(v@)),
            Err(e) => registry_of(data@, debug) == Err::<
                Seq<(Seq<char>, Seq<char>, Option<i64>, bool)>,
                ConfigError,
            >(e),
        },
{
    let mut sensors: Vec<Sensor> = Vec::new();
    let mut k: usize = 0;
    assert(data@.subrange(0, 0) =~= Seq::<[String; 2]>::empty());
    assert(views(sensors@) =~= Seq::<(Seq<char>, Seq<char>, Option<i64>, bool)>::empty());
    while k < data.len()
        invariant
            k <= data.len(),
            sensors_of(data@.subrange(0, k as int), debug) == Ok::<
                Seq<(Seq<char>, Seq<char>, Option<i64>, bool)>,
                ConfigError,
            >(views(sensors@)),
        decreases data.len() - k,
    {
        let row = &data[k];
        let ghost prev = sensors@;
        let ghost pre = data@.subrange(0, k as int);
        assert(data@.subrange(0, k + 1).drop_last() =~= pre);
        assert(data@.subrange(0, k + 1).last() == data@[k as int]);
        if has_sensor_prefix(row[0].as_str()) {
            match sensor_from_row(row[0].as_str(), row[1].as_str(), debug) {
                Ok(s) => {
                    sensors.push(s);
                    assert(views(sensors@) =~= views(prev).push(sensors@.last()@));
                },
                Err(e) => {
                    proof {
                        lemma_error_persists(data@, (k + 1) as nat, debug);
                    }
                    return Err(e);
                },
            }
        }
        k = k + 1;
    }
    assert(data@.subrange(0, k as int) =~= data@);
    if sensors.len() == 0 {
        Err(ConfigError::NoSensors)
    } else {
        Ok(sensors)
    }
}

/// Rows none of which is a sensor definition give no registry: the
/// configuration is rejected with `NoSensors`.
pub proof fn lemma_no_sensor_rows_rejected(rows: Seq<[String; 2]>, debug: bool)
    requires
        forall|i: int| 0 <= i < rows.len() ==> !is_sensor_key((#[trigger] rows[i])[0]@),
    ensures
        registry_of(rows, debug) == Err::<Seq<(Seq<char>, Seq<char>, Option<i64>, bool)>, ConfigError>(
            ConfigError::NoSensors,
        ),
{
    lemma_no_sensor_rows_empty(rows, debug);
}

proof fn lemma_no_sensor_rows_empty(rows: Seq<[String; 2]>, debug: bool)
    requires
        forall|i: int| 0 <= i < rows.len() ==> !is_sensor_key((#[trigger] rows[i])[0]@),
    ensures
        sensors_of(rows, debug) == Ok::<Seq<(Seq<char>, Seq<char>, Option<i64>, bool)>, ConfigError>(
            seq![],
        ),
    decreases rows.len(),
{
    if rows.len() > 0 {
        let init = rows.drop_last();
        assert forall|i: int| 0 <= i < init.len() implies !is_sensor_key((#[trigger] init[i])[0]@) by {
            assert(init[i] == rows[i]);
        }
        lemma_no_sensor_rows_empty(init, debug);
        assert(!is_sensor_key(rows[rows.len() - 1][0]@));
    }
}

/// The rows whose key marks a sensor definition, in order.
pub open spec fn sensor_rows(rows: Seq<[String; 2]>) -> Seq<[String; 2]> {
    rows.filter(|r: [String; 2]| is_sensor_key(r[0]@))
}

/// Sensor rows become descriptors one for one, in declaration order: the
/// `i`-th descriptor of a registry is the one that the `i`-th row with a
/// `sensor_` key defines, and other rows contribute nothing. When there is
/// at least one sensor row and each of them is well-formed, the registry is
/// built.
pub proof fn lemma_registry_in_row_order(rows: Seq<[String; 2]>, debug: bool)
    ensures
        (sensor_rows(rows).len() > 0 && forall|i: int|
            0 <= i < sensor_rows(rows).len() ==> (row_sensor(
                (#[trigger] sensor_rows(rows)[i])[0]@,
                sensor_rows(rows)[i][1]@,
                debug,
            ) is Ok)) ==> registry_of(rows, debug) is Ok,
        registry_of(rows, debug) matches Ok(v) ==> {
            &&& v.len() == sensor_rows(rows).len()
            &&& forall|i: int|
                0 <= i < v.len() ==> row_sensor(
                    (#[trigger] sensor_rows(rows)[i])[0]@,
                    sensor_rows(rows)[i][1]@,
                    debug,
                ) == Ok::<(Seq<char>, Seq<char>, Option<i64>, bool), ConfigError>(v[i])
        },
{
    lemma_sensors_in_row_order(rows, debug);
}

proof fn lemma_sensors_in_row_order(rows: Seq<[String; 2]>, debug: bool)
    ensures
        (forall|i: int|
            0 <= i < sensor_rows(rows).len() ==> (row_sensor(
                (#[trigger] sensor_rows(rows)[i])[0]@,
                sensor_rows(rows)[i][1]@,
                debug,
            ) is Ok)) ==> sensors_of(rows, debug) is Ok,
        sensors_of(rows, debug) matches Ok(v) ==> {
            &&& v.len() == sensor_rows(rows).len()
            &&& forall|i: int|
                0 <= i < v.len() ==> row_sensor(
                    (#[trigger] sensor_rows(rows)[i])[0]@,
                    sensor_rows(rows)[i][1]@,
                    debug,
                ) == Ok::<(Seq<char>, Seq<char>, Option<i64>, bool), ConfigError>(v[i])
        },
    decreases rows.len(),
{
    reveal(Seq::filter);
    if rows.len() > 0 {
        let init = rows.drop_last();
        lemma_sensors_in_row_order(init, debug);
        assert(sensor_rows(rows) == if is_sensor_key(rows.last()[0]@) {
            sensor_rows(init).push(rows.last())
        } else {
            sensor_rows(init)
        });
        if forall|i: int|
            0 <= i < sensor_rows(rows).len() ==> (row_sensor(
                (#[trigger] sensor_rows(rows)[i])[0]@,
                sensor_rows(rows)[i][1]@,
                debug,
            ) is Ok) {
            assert forall|i: int|
                0 <= i < sensor_rows(init).len() implies (row_sensor(
                (#[trigger] sensor_rows(init)[i])[0]@,
                sensor_rows(init)[i][1]@,
                debug,
            ) is Ok) by {
                assert(sensor_rows(rows)[i] == sensor_rows(init)[i]);
            }
            if is_sensor_key(rows.last()[0]@) {
                let k = sensor_rows(rows).len() - 1;
                assert(sensor_rows(rows)[k] == rows.last());
            }
        }
        if let Ok(v) = sensors_of(rows, debug) {
            if is_sensor_key(rows.last()[0]@) {
                assert(sensors_of(init, debug) is Ok);
                let acc = sensors_of(init, debug)->Ok_0;
                assert(v.drop_last() =~= acc);
                assert forall|i: int| 0 <= i < v.len() implies row_sensor(
                    (#[trigger] sensor_rows(rows)[i])[0]@,
                    sensor_rows(rows)[i][1]@,
                    debug,
                ) == Ok::<(Seq<char>, Seq<char>, Option<i64>, bool), ConfigError>(v[i]) by {
                    if i < acc.len() {
                        assert(sensor_rows(rows)[i] == sensor_rows(init)[i]);
                        assert(v[i] == acc[i]);
                    }
                }
            }
        }
    }
}

} // verus!
