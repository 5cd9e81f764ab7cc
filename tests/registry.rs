use sensor_interface::registry::{get_sensors, parse_calibration, ConfigError};

fn row(k: &str, v: &str) -> [String; 2] {
    [k.to_string(), v.to_string()]
}

#[test]
fn one_sensor_row() {
    let rows = vec![row("sensor_Water", "000016,5.0")];
    let s = get_sensors(&rows, false).unwrap();
    assert_eq!(s.len(), 1);
    assert_eq!(s[0].id, "000016");
    assert_eq!(s[0].name, "Water");
    assert_eq!(s[0].calibration, Some(5_000_000));
    assert!(!s[0].debug);
}

#[test]
fn declaration_order_kept() {
    let rows = vec![
        row("ip", "0.0.0.0"),
        row("sensor_Water", " 000016 , 5.0 "),
        row("port", "8080"),
        row("sensor_ Air ", "28-0000abc,-1.25"),
        row("sensor_Soil", "28-1,0"),
    ];
    let s = get_sensors(&rows, true).unwrap();
    assert_eq!(s.len(), 3);
    assert_eq!((s[0].id.as_str(), s[0].name.as_str()), ("000016", "Water"));
    assert_eq!((s[1].id.as_str(), s[1].name.as_str()), ("28-0000abc", "Air"));
    assert_eq!((s[2].id.as_str(), s[2].name.as_str()), ("28-1", "Soil"));
    assert_eq!(s[1].calibration, Some(-1_250_000));
    assert_eq!(s[2].calibration, Some(0));
    assert!(s.iter().all(|x| x.debug));
}

#[test]
fn no_sensor_rows_rejected() {
    let rows = vec![row("ip", "0.0.0.0"), row("port", "80")];
    assert!(matches!(get_sensors(&rows, false), Err(ConfigError::NoSensors)));
    assert!(matches!(get_sensors(&Vec::new(), false), Err(ConfigError::NoSensors)));
}

#[test]
fn bad_calibration_rejected() {
    let rows = vec![row("sensor_Water", "000016,five")];
    assert!(matches!(get_sensors(&rows, false), Err(ConfigError::InvalidCalibration)));
    let rows = vec![row("sensor_Water", "000016,")];
    assert!(matches!(get_sensors(&rows, false), Err(ConfigError::InvalidCalibration)));
}

#[test]
fn missing_comma_rejected() {
    let rows = vec![row("sensor_Water", "000016")];
    assert!(matches!(get_sensors(&rows, false), Err(ConfigError::MalformedRow)));
}

#[test]
fn calibration_forms() {
    assert_eq!(parse_calibration("5.0"), Some(5_000_000));
    assert_eq!(parse_calibration("+2"), Some(2_000_000));
    assert_eq!(parse_calibration("-0.000001"), Some(-1));
    assert_eq!(parse_calibration("12.5"), Some(12_500_000));
    assert_eq!(parse_calibration("5."), Some(5_000_000));
    assert_eq!(parse_calibration(".5"), Some(500_000));
    assert_eq!(parse_calibration("-.25"), Some(-250_000));
    assert_eq!(parse_calibration("1e3"), Some(1_000_000_000));
    assert_eq!(parse_calibration("2.5E-1"), Some(250_000));
    assert_eq!(parse_calibration("1.5e+2"), Some(150_000_000));
    assert_eq!(parse_calibration("0e999"), Some(0));
    assert_eq!(parse_calibration("1e-7"), Some(0));
    assert_eq!(parse_calibration("0.1234567"), Some(123_456));
    assert_eq!(parse_calibration("-1.2345678"), Some(-1_234_567));
    assert_eq!(parse_calibration("9223372036854.775807"), Some(i64::MAX));
    assert_eq!(parse_calibration("-9223372036854.775807"), Some(-i64::MAX));
}

#[test]
fn calibration_rejections() {
    assert_eq!(parse_calibration("."), None);
    assert_eq!(parse_calibration(""), None);
    assert_eq!(parse_calibration("-"), None);
    assert_eq!(parse_calibration("1e"), None);
    assert_eq!(parse_calibration("1e+"), None);
    assert_eq!(parse_calibration("e5"), None);
    assert_eq!(parse_calibration("1.2.3"), None);
    assert_eq!(parse_calibration("abc"), None);
    assert_eq!(parse_calibration("inf"), None);
    assert_eq!(parse_calibration("NaN"), None);
    assert_eq!(parse_calibration("1e20"), None);
    assert_eq!(parse_calibration("9223372036854.775808"), None);
}

#[test]
fn looser_number_forms_accepted_in_rows() {
    let rows = vec![row("sensor_A", "1,5."), row("sensor_B", "2, 1e3 "), row("sensor_C", "3,.5")];
    let s = get_sensors(&rows, false).unwrap();
    assert_eq!(s.len(), 3);
    assert_eq!(s[0].calibration, Some(5_000_000));
    assert_eq!(s[1].calibration, Some(1_000_000_000));
    assert_eq!(s[2].calibration, Some(500_000));
}

#[test]
fn later_fields_ignored() {
    let rows = vec![row("sensor_A", "1,5.0,3"), row("sensor_B", " 2 , -1.5 , extra, more")];
    let s = get_sensors(&rows, false).unwrap();
    assert_eq!(s.len(), 2);
    assert_eq!((s[0].id.as_str(), s[0].name.as_str()), ("1", "A"));
    assert_eq!(s[0].calibration, Some(5_000_000));
    assert_eq!((s[1].id.as_str(), s[1].name.as_str()), ("2", "B"));
    assert_eq!(s[1].calibration, Some(-1_500_000));
    let rows = vec![row("sensor_A", "1,,5.0")];
    assert!(matches!(get_sensors(&rows, false), Err(ConfigError::InvalidCalibration)));
}
