//! Core of a temperature recording service: a retention store for timestamped
//! sensor readings and their recording configuration, the state machine of
//! the scheduler that drives periodic sampling, and the computing half of
//! the reading source.
//!
//! Time is measured in integer milliseconds since the epoch throughout; a
//! temperature value is held in hundredths of a degree, the precision at
//! which readings are persisted.

pub mod database;
pub mod recorder_scheduler;
pub mod temperature_reader;
pub mod temperature_recorder;

pub use database::{Database, DatabaseAccessError, DatabaseInitError, TemperatureRow};
pub use recorder_scheduler::{RecorderScheduler, RecorderSchedulerError, TickReport};
pub use temperature_reader::{Sensor, SensorConfig, TemperatureReader, TemperatureReaderError};
pub use temperature_recorder::{RecorderConfig, Temperature, TemperaturesByTime};
