use sensor_interface::logging::{format_log_line, micro_to_text, LoggerAction, LoggerTask};
use sensor_interface::sensor::{get_all_temp, Sensor, SensorError};

#[test]
fn log_line_rendering() {
    let sensors = vec![
        Sensor::new("a1", "Water", None, false),
        Sensor::new("b2", "Air", None, false),
    ];
    let snap = get_all_temp(&sensors, &vec![Ok(23500), Err(SensorError::SensorUnavailable)]);
    assert_eq!(format_log_line(1700000000, &snap), "1700000000,74.300000,unavailable\n");
    assert_eq!(format_log_line(5, &Vec::new()), "5\n");
}

#[test]
fn micro_text_forms() {
    assert_eq!(micro_to_text(74_300_000), "74.300000");
    assert_eq!(micro_to_text(-1), "-0.000001");
    assert_eq!(micro_to_text(0), "0.000000");
    assert_eq!(micro_to_text(i128::MIN), "-170141183460469231731687303715884.105728");
}

#[test]
fn k_cycles_append_k_lines() {
    let sensors = vec![Sensor::new("s", "Sim", Some(1_000_000), true)];
    let mut task = LoggerTask::new();
    let mut log = String::new();
    let k = 7;
    for i in 0..k {
        assert_eq!(task.next(false), LoggerAction::Append);
        let snap = get_all_temp(&sensors, &vec![Err(SensorError::SensorUnavailable)]);
        let before = log.clone();
        log.push_str(&format_log_line(i as u64, &snap));
        assert!(log.starts_with(&before));
    }
    assert_eq!(task.cycles, k);
    assert_eq!(log.matches('\n').count(), k as usize);
    assert!(log.ends_with('\n'));
    assert_eq!(task.next(true), LoggerAction::Stop);
    assert_eq!(task.next(false), LoggerAction::Stop);
    assert_eq!(task.cycles, k);
}
