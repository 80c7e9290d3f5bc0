use boiler_watch::database::Database;
use boiler_watch::temperature_recorder::{RecorderConfig, Temperature, TemperaturesByTime};

fn batch(date: u64, readings: &[(&str, i64)]) -> TemperaturesByTime {
    let mut temps: Vec<Temperature> = Vec::new();
    for (name, centi) in readings {
        temps.push(Temperature::new(name.to_string(), *centi));
    }
    TemperaturesByTime::new(date, temps)
}

#[test]
fn fresh_store_returns_default_config() {
    let db = Database::new().unwrap();
    let config = db.load_recorder_config().unwrap();
    assert_eq!(config.interval_seconds, 15);
    assert_eq!(config.keep_days, 30);
}

#[test]
fn config_round_trips_through_save_and_load() {
    let mut db = Database::new().unwrap();
    let saved = db.save_recorder_config(RecorderConfig::new(60, 7)).unwrap();
    assert_eq!(saved.interval_seconds, 60);
    assert_eq!(saved.keep_days, 7);
    let loaded = db.load_recorder_config().unwrap();
    assert_eq!(loaded.interval_seconds, 60);
    assert_eq!(loaded.keep_days, 7);
}

#[test]
fn from_saved_seeds_default_only_when_config_missing() {
    let db = Database::from_saved(None, Vec::new());
    let config = db.load_recorder_config().unwrap();
    assert_eq!(config.interval_seconds, 15);
    assert_eq!(config.keep_days, 30);

    let db = Database::from_saved(Some(RecorderConfig::new(5, 2)), Vec::new());
    let config = db.load_recorder_config().unwrap();
    assert_eq!(config.interval_seconds, 5);
    assert_eq!(config.keep_days, 2);
}

#[test]
fn latest_batch_matches_saved_batch() {
    let mut db = Database::new().unwrap();
    db.save_temperatures(batch(1000, &[("boiler", 5500)])).unwrap();
    let last = db.load_last_temperature().unwrap().unwrap();
    assert_eq!(last.date(), 1000);
    let temps = last.temperatures();
    assert_eq!(temps.len(), 1);
    assert_eq!(temps[0].name(), "boiler");
    assert_eq!(temps[0].value_centi(), 5500);
    assert_eq!(temps[0].value_rounded_as_string(), "55.00");
}

#[test]
fn latest_batch_is_the_newest_of_several() {
    let mut db = Database::new().unwrap();
    db.save_temperatures(batch(1000, &[("boiler", 5500), ("outside", -125)])).unwrap();
    db.save_temperatures(batch(2000, &[("boiler", 5625)])).unwrap();
    let last = db.load_last_temperature().unwrap().unwrap();
    assert_eq!(last.date(), 2000);
    let temps = last.temperatures();
    assert_eq!(temps.len(), 1);
    assert_eq!(temps[0].name(), "boiler");
    assert_eq!(temps[0].value_centi(), 5625);
}

#[test]
fn latest_batch_of_empty_store_is_none() {
    let db = Database::new().unwrap();
    assert!(db.load_last_temperature().unwrap().is_none());
}

#[test]
fn batches_since_come_in_ascending_time_order() {
    let mut db = Database::new().unwrap();
    db.save_temperatures(batch(3000, &[("boiler", 5700)])).unwrap();
    db.save_temperatures(batch(1000, &[("boiler", 5500)])).unwrap();
    db.save_temperatures(batch(2000, &[("boiler", 5600)])).unwrap();
    let batches = db.load_temperatures_since(1500).unwrap();
    assert_eq!(batches.len(), 2);
    assert_eq!(batches[0].date(), 2000);
    assert_eq!(batches[1].date(), 3000);
    assert_eq!(batches[0].temperatures()[0].value_centi(), 5600);
    assert_eq!(batches[1].temperatures()[0].value_centi(), 5700);
}

#[test]
fn batches_since_groups_readings_of_one_timestamp() {
    let mut db = Database::new().unwrap();
    db.save_temperatures(batch(1000, &[("boiler", 5500), ("outside", -125)])).unwrap();
    let batches = db.load_temperatures_since(0).unwrap();
    assert_eq!(batches.len(), 1);
    let temps = batches[0].temperatures();
    assert_eq!(temps.len(), 2);
    assert_eq!(temps[0].name(), "boiler");
    assert_eq!(temps[1].name(), "outside");
    assert_eq!(temps[1].value_rounded_as_string(), "-1.25");
}

#[test]
fn batches_since_is_empty_beyond_newest_timestamp() {
    let mut db = Database::new().unwrap();
    db.save_temperatures(batch(1000, &[("boiler", 5500)])).unwrap();
    let batches = db.load_temperatures_since(1001).unwrap();
    assert!(batches.is_empty());
    let empty = Database::new().unwrap().load_temperatures_since(0).unwrap();
    assert!(empty.is_empty());
}

#[test]
fn prune_deletes_exactly_the_rows_older_than_the_cutoff() {
    let mut db = Database::new().unwrap();
    db.save_temperatures(batch(7999, &[("boiler", 5500)])).unwrap();
    db.save_temperatures(batch(8000, &[("boiler", 5600)])).unwrap();
    db.save_temperatures(batch(9000, &[("boiler", 5700)])).unwrap();
    let removed = db.prune_older_than(10000, 2000);
    assert_eq!(removed, 1);
    let batches = db.load_temperatures_since(0).unwrap();
    assert_eq!(batches.len(), 2);
    assert_eq!(batches[0].date(), 8000);
    assert_eq!(batches[1].date(), 9000);
}

#[test]
fn prune_with_nothing_to_delete_returns_zero() {
    let mut db = Database::new().unwrap();
    db.save_temperatures(batch(5000, &[("boiler", 5500)])).unwrap();
    assert_eq!(db.prune_older_than(6000, 2000), 0);
    assert_eq!(db.load_temperatures_since(0).unwrap().len(), 1);
}

#[test]
fn delete_old_temperatures_uses_the_stored_horizon() {
    let mut db = Database::new().unwrap();
    db.save_recorder_config(RecorderConfig::new(15, 1)).unwrap();
    let day_millis: u64 = 86_400_000;
    db.save_temperatures(batch(0, &[("boiler", 5500)])).unwrap();
    db.save_temperatures(batch(day_millis, &[("boiler", 5600)])).unwrap();
    let removed = db.delete_old_temperatures(2 * day_millis).unwrap();
    assert_eq!(removed, 1);
    let last = db.load_last_temperature().unwrap().unwrap();
    assert_eq!(last.date(), day_millis);
}
