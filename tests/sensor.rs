use sensor_interface::sensor::{
    get_all_temp, parse_sensor_data, read_step, ReadStep, Sensor, SensorError, Value,
    MAX_READ_ATTEMPTS,
};

const HW_OK: &str = "72 01 4b 46 7f ff 0e 10 57 : crc=57 YES\n72 01 4b 46 7f ff 0e 10 57 t=23500\n";

fn degrees(micro: i128) -> f64 {
    micro as f64 / 1_000_000.0
}

#[test]
fn test_get_temperature_1() {
    let sensor = Sensor::new("", "Water", None, true);
    let number: f64 = degrees(sensor.get_temperature(Err(SensorError::SensorUnavailable)).unwrap());
    assert!(number >= 0.0 && number < 10.0);
}

#[test]
fn test_get_temperature_cal() {
    let sensor = Sensor::new("", "Water", Some(10_000_000), true);
    let number: f64 = degrees(sensor.get_temperature(Err(SensorError::SensorUnavailable)).unwrap());
    assert!(number >= 10.0 && number < 20.0);
}

#[test]
fn debug_readings_stay_in_calibrated_range() {
    let sensor = Sensor::new("28-01", "Air", Some(-2_500_000), true);
    let mut seen = Vec::new();
    for _ in 0..200 {
        let v = sensor.get_temperature(Ok(0)).unwrap();
        assert!(v >= -2_500_000 && v < 7_500_000);
        seen.push(v);
    }
    assert!(seen.iter().any(|v| *v != seen[0]));
}

#[test]
fn hardware_text_parses_to_fahrenheit() {
    assert_eq!(parse_sensor_data(HW_OK), Ok(23500));
    let plain = Sensor::new("28-01", "Water", None, false);
    let v = plain.get_temperature(parse_sensor_data(HW_OK)).unwrap();
    assert_eq!(v, 74_300_000);
    assert!((degrees(v) - 74.3).abs() < 1e-6);
    let calibrated = Sensor::new("28-01", "Water", Some(5_000_000), false);
    let v = calibrated.get_temperature(parse_sensor_data(HW_OK)).unwrap();
    assert!((degrees(v) - 79.3).abs() < 1e-6);
}

#[test]
fn negative_and_zero_celsius() {
    let s = Sensor::new("x", "y", None, false);
    assert_eq!(s.calibrate(0), 32_000_000);
    assert_eq!(s.calibrate(-40_000), -40_000_000);
    assert_eq!(parse_sensor_data("aa YES\nbb t=-1250"), Ok(-1250));
}

#[test]
fn wide_integer_values() {
    assert_eq!(parse_sensor_data("aa YES\nbb t=1234567890123456789"), Ok(1234567890123456789));
    assert_eq!(parse_sensor_data("aa YES\nbb t=-9223372036854775807"), Ok(-9223372036854775807));
    assert_eq!(
        parse_sensor_data("aa YES\nbb t=9223372036854775808"),
        Err(SensorError::MalformedSensorData)
    );
    assert_eq!(parse_sensor_data("aa YES\nbb t=-"), Err(SensorError::MalformedSensorData));
}

#[test]
fn debug_reading_adds_calibration() {
    let s = Sensor::new("x", "y", Some(2_000_000), true);
    assert_eq!(s.debug_reading(3_500_000), 5_500_000);
    assert_eq!(Sensor::new("x", "y", None, true).debug_reading(7), 7);
}

#[test]
fn missing_marker_is_malformed() {
    assert_eq!(
        parse_sensor_data("aa YES\n72 01 4b 46 23500"),
        Err(SensorError::MalformedSensorData)
    );
    assert_eq!(parse_sensor_data("aa YES"), Err(SensorError::MalformedSensorData));
    let text = Some("aa YES\n72 01 4b 46 23500".to_string());
    assert_eq!(read_step(0, &text), ReadStep::Failed(SensorError::MalformedSensorData));
}

#[test]
fn non_numeric_value_is_malformed() {
    assert_eq!(parse_sensor_data("aa YES\nbb t=23.5"), Err(SensorError::MalformedSensorData));
    assert_eq!(parse_sensor_data("aa YES\nbb t="), Err(SensorError::MalformedSensorData));
    assert_eq!(parse_sensor_data("aa YES\nt=1 t=2"), Err(SensorError::MalformedSensorData));
}

#[test]
fn not_ready_is_retried_then_unavailable() {
    let text = Some("72 01 4b 46 : crc=00 NO\n72 01 t=23500\n".to_string());
    assert_eq!(parse_sensor_data(text.as_ref().unwrap()), Err(SensorError::SensorUnavailable));
    assert_eq!(read_step(0, &text), ReadStep::Retry);
    assert_eq!(read_step(MAX_READ_ATTEMPTS - 2, &text), ReadStep::Retry);
    assert_eq!(
        read_step(MAX_READ_ATTEMPTS - 1, &text),
        ReadStep::Failed(SensorError::SensorUnavailable)
    );
    assert_eq!(read_step(0, &None), ReadStep::Failed(SensorError::SensorUnavailable));
    assert_eq!(read_step(0, &Some(HW_OK.to_string())), ReadStep::Reading(23500));
}

#[test]
fn snapshot_keeps_order_and_errors() {
    let sensors = vec![
        Sensor::new("a1", "Water", None, false),
        Sensor::new("b2", "Air", Some(1_000_000), false),
        Sensor::new("c3", "Sim", None, true),
    ];
    let hw = vec![Ok(23500), Err(SensorError::MalformedSensorData), Err(SensorError::SensorUnavailable)];
    let snap: Vec<Value> = get_all_temp(&sensors, &hw);
    assert_eq!(snap.len(), 3);
    assert_eq!(snap[0].id, "a1");
    assert_eq!(snap[0].name, "Water");
    assert_eq!(snap[0].value, Ok(74_300_000));
    assert_eq!(snap[1].id, "b2");
    assert_eq!(snap[1].name, "Air");
    assert_eq!(snap[1].value, Err(SensorError::MalformedSensorData));
    assert_eq!(snap[2].id, "c3");
    let v = snap[2].value.unwrap();
    assert!(v >= 0 && v < 10_000_000);
}

#[test]
fn clone_keeps_fields() {
    let s = Sensor::new("28-01", "Water", Some(3), true);
    let c = s.clone();
    assert_eq!(c.id, "28-01");
    assert_eq!(c.name, "Water");
    assert_eq!(c.calibration, Some(3));
    assert!(c.debug);
}
