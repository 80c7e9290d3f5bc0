use boiler_watch::temperature_reader::{parse_sensor_value, sensor_value_to_centi, Sensor, SensorConfig, TemperatureReader};
use boiler_watch::temperature_recorder::{has_distinct_names, Temperature};

#[test]
fn parses_a_plain_sensor_file() {
    assert_eq!(parse_sensor_value(&b"55000\n".to_vec()), Some(55000));
    assert_eq!(parse_sensor_value(&b"0".to_vec()), Some(0));
    assert_eq!(parse_sensor_value(&b"12345 \r\n".to_vec()), Some(12345));
}

#[test]
fn parses_signed_values() {
    assert_eq!(parse_sensor_value(&b"-1234\n".to_vec()), Some(-1234));
    assert_eq!(parse_sensor_value(&b"+42".to_vec()), Some(42));
}

#[test]
fn rejects_malformed_sensor_files() {
    assert_eq!(parse_sensor_value(&b"".to_vec()), None);
    assert_eq!(parse_sensor_value(&b"\n".to_vec()), None);
    assert_eq!(parse_sensor_value(&b"abc".to_vec()), None);
    assert_eq!(parse_sensor_value(&b"12a4".to_vec()), None);
    assert_eq!(parse_sensor_value(&b"-".to_vec()), None);
    assert_eq!(parse_sensor_value(&b" 12".to_vec()), None);
}

#[test]
fn respects_the_32_bit_value_range() {
    assert_eq!(parse_sensor_value(&b"2147483647".to_vec()), Some(2147483647));
    assert_eq!(parse_sensor_value(&b"2147483648".to_vec()), None);
    assert_eq!(parse_sensor_value(&b"-2147483648".to_vec()), Some(-2147483648));
    assert_eq!(parse_sensor_value(&b"-2147483649".to_vec()), None);
    assert_eq!(parse_sensor_value(&b"99999999999999999999".to_vec()), None);
}

#[test]
fn scales_thousandths_to_hundredths_rounding_half_away() {
    assert_eq!(sensor_value_to_centi(55000), 5500);
    assert_eq!(sensor_value_to_centi(12344), 1234);
    assert_eq!(sensor_value_to_centi(12345), 1235);
    assert_eq!(sensor_value_to_centi(-12345), -1235);
    assert_eq!(sensor_value_to_centi(-12344), -1234);
    assert_eq!(sensor_value_to_centi(4), 0);
    assert_eq!(sensor_value_to_centi(5), 1);
}

#[test]
fn failed_sensor_is_excluded_not_fatal() {
    let sensors = vec![
        Sensor::new("boiler".to_string(), "/sys/boiler".to_string()),
        Sensor::new("outside".to_string(), "/sys/outside".to_string()),
    ];
    let contents: Vec<Option<Vec<u8>>> = vec![Some(b"55000\n".to_vec()), None];
    let reader = TemperatureReader::new();
    let (temps, failed) = reader.collect_temperatures(&sensors, &contents);
    assert_eq!(temps.len(), 1);
    assert_eq!(temps[0].name(), "boiler");
    assert_eq!(temps[0].value_centi(), 5500);
    assert_eq!(failed.len(), 1);
    assert_eq!(failed[0].name(), "outside");
}

#[test]
fn unparsable_sensor_is_excluded_too() {
    let sensors = vec![
        Sensor::new("boiler".to_string(), "/sys/boiler".to_string()),
        Sensor::new("attic".to_string(), "/sys/attic".to_string()),
    ];
    let contents: Vec<Option<Vec<u8>>> = vec![Some(b"not a number".to_vec()), Some(b"-12340".to_vec())];
    let reader = TemperatureReader::new();
    let (temps, failed) = reader.collect_temperatures(&sensors, &contents);
    assert_eq!(temps.len(), 1);
    assert_eq!(temps[0].name(), "attic");
    assert_eq!(temps[0].value_centi(), -1234);
    assert_eq!(failed.len(), 1);
    assert_eq!(failed[0].name(), "boiler");
}

#[test]
fn sensor_config_keeps_its_sensors() {
    let sensors = vec![Sensor::new("boiler".to_string(), "/sys/boiler".to_string())];
    let config = SensorConfig::new(sensors);
    assert_eq!(config.sensors().len(), 1);
    assert_eq!(config.sensors()[0].name(), "boiler");
    assert_eq!(config.sensors()[0].path(), "/sys/boiler");
}

#[test]
fn distinct_name_check_matches_contents() {
    let distinct = vec![
        Temperature::new("boiler".to_string(), 5500),
        Temperature::new("outside".to_string(), -125),
    ];
    assert!(has_distinct_names(&distinct));
    let duplicated = vec![
        Temperature::new("boiler".to_string(), 5500),
        Temperature::new("boiler".to_string(), 5600),
    ];
    assert!(!has_distinct_names(&duplicated));
}
