use boiler_watch::temperature_recorder::{RecorderConfig, Temperature, TemperaturesByTime};

#[test]
fn renders_two_decimals_exactly() {
    assert_eq!(Temperature::new("t".to_string(), 5500).value_rounded_as_string(), "55.00");
    assert_eq!(Temperature::new("t".to_string(), 1234).value_rounded_as_string(), "12.34");
    assert_eq!(Temperature::new("t".to_string(), 0).value_rounded_as_string(), "0.00");
    assert_eq!(Temperature::new("t".to_string(), 7).value_rounded_as_string(), "0.07");
    assert_eq!(Temperature::new("t".to_string(), -5).value_rounded_as_string(), "-0.05");
    assert_eq!(Temperature::new("t".to_string(), -10000).value_rounded_as_string(), "-100.00");
    assert_eq!(Temperature::new("t".to_string(), 100).value_rounded_as_string(), "1.00");
}

#[test]
fn reading_keeps_name_and_value() {
    let t = Temperature::new("boiler".to_string(), 5512);
    assert_eq!(t.name(), "boiler");
    assert_eq!(t.value_centi(), 5512);
}

#[test]
fn batch_keeps_timestamp_and_order() {
    let temps = vec![
        Temperature::new("a".to_string(), 1),
        Temperature::new("b".to_string(), 2),
    ];
    let batch = TemperaturesByTime::new(42, temps);
    assert_eq!(batch.date(), 42);
    assert_eq!(batch.len(), 2);
    let out = batch.temperatures();
    assert_eq!(out[0].name(), "a");
    assert_eq!(out[1].name(), "b");
}

#[test]
fn config_validity_requires_positive_values() {
    assert!(RecorderConfig::new(15, 30).is_valid());
    assert!(!RecorderConfig::new(0, 30).is_valid());
    assert!(!RecorderConfig::new(15, 0).is_valid());
}
