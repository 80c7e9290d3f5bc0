use boiler_watch::database::Database;
use boiler_watch::recorder_scheduler::{apply_config_change, run_tick, RecorderScheduler};
use boiler_watch::temperature_recorder::{RecorderConfig, Temperature};

#[test]
fn scheduler_starts_stopped_and_stop_is_idempotent() {
    let mut scheduler = RecorderScheduler::new();
    assert!(scheduler.active_cadence().is_none());
    scheduler.stop();
    assert!(scheduler.active_cadence().is_none());
}

#[test]
fn start_arms_one_cadence_at_the_configured_interval() {
    let mut scheduler = RecorderScheduler::new();
    scheduler.start(&RecorderConfig::new(15, 30)).unwrap();
    let cadence = scheduler.active_cadence().unwrap();
    assert_eq!(cadence.interval_seconds, 15);
    scheduler.stop();
    assert!(scheduler.active_cadence().is_none());
}

#[test]
fn stop_then_start_leaves_exactly_one_cadence() {
    let mut scheduler = RecorderScheduler::new();
    scheduler.start(&RecorderConfig::new(15, 30)).unwrap();
    scheduler.stop();
    scheduler.start(&RecorderConfig::new(60, 30)).unwrap();
    let cadence = scheduler.active_cadence().unwrap();
    assert_eq!(cadence.interval_seconds, 60);
}

#[test]
fn restart_without_stop_replaces_the_cadence() {
    let mut scheduler = RecorderScheduler::new();
    scheduler.start(&RecorderConfig::new(15, 30)).unwrap();
    scheduler.start(&RecorderConfig::new(5, 30)).unwrap();
    let cadence = scheduler.active_cadence().unwrap();
    assert_eq!(cadence.interval_seconds, 5);
}

#[test]
fn config_change_saves_then_restarts() {
    let mut db = Database::new().unwrap();
    let mut scheduler = RecorderScheduler::new();
    scheduler.start(&db.load_recorder_config().unwrap()).unwrap();
    let new_config = RecorderConfig::new(120, 14);
    let saved = apply_config_change(&mut db, &mut scheduler, new_config).unwrap();
    assert_eq!(saved.interval_seconds, 120);
    let loaded = db.load_recorder_config().unwrap();
    assert_eq!(loaded.interval_seconds, 120);
    assert_eq!(loaded.keep_days, 14);
    assert_eq!(scheduler.active_cadence().unwrap().interval_seconds, 120);
}

#[test]
fn tick_writes_the_batch_and_prunes() {
    let mut db = Database::new().unwrap();
    db.save_recorder_config(RecorderConfig::new(15, 1)).unwrap();
    let day_millis: u64 = 86_400_000;
    let old = vec![Temperature::new("boiler".to_string(), 5400)];
    let report = run_tick(&mut db, 0, Some(old));
    assert!(report.batch_written);
    assert!(report.prune_result.is_ok());

    let fresh = vec![Temperature::new("boiler".to_string(), 5500)];
    let report = run_tick(&mut db, 2 * day_millis, Some(fresh));
    assert!(report.batch_written);
    assert_eq!(report.prune_result.unwrap(), 1);
    let batches = db.load_temperatures_since(0).unwrap();
    assert_eq!(batches.len(), 1);
    assert_eq!(batches[0].date(), 2 * day_millis);
}

#[test]
fn tick_without_readings_writes_nothing_but_still_prunes() {
    let mut db = Database::new().unwrap();
    db.save_recorder_config(RecorderConfig::new(15, 1)).unwrap();
    let day_millis: u64 = 86_400_000;
    run_tick(&mut db, 0, Some(vec![Temperature::new("boiler".to_string(), 5400)]));
    let report = run_tick(&mut db, 3 * day_millis, None);
    assert!(!report.batch_written);
    assert_eq!(report.prune_result.unwrap(), 1);
    assert!(db.load_last_temperature().unwrap().is_none());
}
