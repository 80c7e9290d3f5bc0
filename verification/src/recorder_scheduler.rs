//! The recording scheduler: the state machine that owns the sampling
//! cadence, and the work of one tick.
//!
//! The background timer itself runs outside this crate; what is verified
//! here is the lifecycle the timer must follow — `Stopped` and `Running`
//! with never more than one armed cadence — and what one tick does to the
//! store. The caller arms a real timer exactly when `start` hands it a new
//! cadence, and disarms it on `stop`, so the model's single `active`
//! cadence mirrors the single live timer.

use crate::database::{
    horizon_millis_of_days, pruned, saved_config, spec_cutoff, with_batch, Database,
    DatabaseAccessError, DatabaseInitError, DatabaseModel,
};
use crate::temperature_recorder::{
    distinct_sensor_names, temps_view, BatchModel, RecorderConfig, Temperature, TemperatureModel,
    TemperaturesByTime,
};
use vstd::prelude::*;

verus! {

/// Mathematical value of one armed cadence: its firing interval and the
/// generation in which it was armed.
#[verifier::ext_equal]
pub ghost struct CadenceModel {
    pub interval_seconds: int,
    pub generation: int,
}

/// A token for one armed cadence. The caller keeps it beside the real
/// timer handle it armed; a token is never reused across restarts.
pub struct Cadence {
    pub interval_seconds: u32,
    pub generation: Ghost<int>,
}

impl View for Cadence {
    type V = CadenceModel;

    open spec fn view(&self) -> CadenceModel {
        CadenceModel {
            interval_seconds: self.interval_seconds as int,
            generation: self.generation@,
        }
    }
}

/// Mathematical value of the scheduler: the active cadence, if any, and
/// how many times a cadence has ever been armed.
#[verifier::ext_equal]
pub ghost struct SchedulerModel {
    pub active: Option<CadenceModel>,
    pub generation: int,
}

/// The scheduler after `stop`: no cadence is active.
pub open spec fn stopped(s: SchedulerModel) -> SchedulerModel {
    SchedulerModel { active: None, generation: s.generation }
}

/// The scheduler after `start`: a cadence of a fresh generation, firing at
/// the configured interval, is the only active one.
pub open spec fn started(s: SchedulerModel, config: RecorderConfig) -> SchedulerModel {
    SchedulerModel {
        active: Some(
            CadenceModel {
                interval_seconds: config.interval_seconds as int,
                generation: s.generation + 1,
            },
        ),
        generation: s.generation + 1,
    }
}

/// How many cadences are active: never more than one, by construction.
pub open spec fn active_cadences(s: SchedulerModel) -> nat {
    if s.active is Some {
        1nat
    } else {
        0nat
    }
}

/// `c` is an active cadence of `s`.
pub open spec fn cadence_active(s: SchedulerModel, c: CadenceModel) -> bool {
    s.active == Some(c)
}

/// A well-formed scheduler: the active cadence, if any, was armed in the
/// current generation.
pub open spec fn scheduler_wf(s: SchedulerModel) -> bool {
    s.active matches Some(c) ==> c.generation == s.generation
}

/// Failure to bring the cadence up; recoverable at the call site.
#[derive(Debug)]
pub enum RecorderSchedulerError {
    Database(DatabaseInitError),
    Date,
}

/// The scheduler. `Stopped` initially; `start` arms a cadence after
/// stopping any existing one, `stop` disarms synchronously.
pub struct RecorderScheduler {
    thread: Option<Cadence>,
    generation: Ghost<int>,
}

impl View for RecorderScheduler {
    type V = SchedulerModel;

    closed spec fn view(&self) -> SchedulerModel {
        SchedulerModel {
            active: match self.thread {
                Some(c) => Some(c@),
                None => None,
            },
            generation: self.generation@,
        }
    }
}

impl RecorderScheduler {
    /// A scheduler in its initial `Stopped` state.
    pub fn new() -> (r: Self)
        ensures
            r@ == (SchedulerModel { active: None, generation: 0 }),
    {
        Self { thread: None, generation: Ghost(0) }
    }

    /// Arms the cadence for `config`. Any cadence active before is stopped
    /// first: afterwards the newly armed cadence is the only active one.
    pub fn start(&mut self, config: &RecorderConfig) -> (r: Result<(), RecorderSchedulerError>)
        requires
            config.valid(),
        ensures
            final(self)@ == started(old(self)@, *config),
            scheduler_wf(final(self)@),
            r is Ok,
    {
        let ghost g = self.generation@ + 1;
        self.thread = Some(Cadence { interval_seconds: config.interval_seconds, generation: Ghost(g) });
        self.generation = Ghost(g);
        Ok(())
    }

    /// Disarms the cadence. A no-op when already `Stopped`; afterwards no
    /// cadence is active, so no further tick can run.
    pub fn stop(&mut self)
        ensures
            final(self)@ == stopped(old(self)@),
            scheduler_wf(final(self)@),
    {
        self.thread = None;
    }

    /// The active cadence's token, for the caller pairing it with a real
    /// timer handle.
    pub fn active_cadence(&self) -> (r: Option<Cadence>)
        ensures
            match r {
                Some(c) => self@.active == Some(c@),
                None => self@.active is None,
            },
    {
        match &self.thread {
            Some(c) => Some(
                Cadence { interval_seconds: c.interval_seconds, generation: c.generation },
            ),
            None => None,
        }
    }
}

/// Two cadences active at once are the same cadence: overlapping cadences
/// cannot exist.
pub proof fn lemma_single_active_cadence(s: SchedulerModel, c1: CadenceModel, c2: CadenceModel)
    requires
        cadence_active(s, c1),
        cadence_active(s, c2),
    ensures
        c1 == c2,
{
}

/// Stop-then-start law: after `stop()` followed by `start(config)` exactly
/// one cadence is active — the newly armed one — and the cadence that was
/// active before is no longer active.
pub proof fn lemma_stop_start_single_cadence(
    s: SchedulerModel,
    config: RecorderConfig,
    c_old: CadenceModel,
)
    requires
        scheduler_wf(s),
        cadence_active(s, c_old),
    ensures
        active_cadences(started(stopped(s), config)) == 1,
        !cadence_active(started(stopped(s), config), c_old),
        cadence_active(
            started(stopped(s), config),
            CadenceModel {
                interval_seconds: config.interval_seconds as int,
                generation: s.generation + 1,
            },
        ),
{
}

/// The readings a tick obtained, if any, as mathematical values.
pub open spec fn readings_view(r: Option<Vec<Temperature>>) -> Option<Seq<TemperatureModel>> {
    match r {
        Some(v) => Some(temps_view(v@)),
        None => None,
    }
}

/// The store after the write step of a tick: the batch is appended when
/// the reading source produced one, and the store is untouched when the
/// source failed outright.
pub open spec fn tick_saved(
    db: DatabaseModel,
    date: int,
    readings: Option<Seq<TemperatureModel>>,
) -> DatabaseModel {
    match readings {
        Some(ts) => with_batch(db, BatchModel { date, temperatures: ts }),
        None => db,
    }
}

/// The store after the sweep step of a tick: pruned with the stored
/// configuration's horizon, or untouched when no configuration row exists.
pub open spec fn tick_pruned(db: DatabaseModel, now: int) -> DatabaseModel {
    match db.config {
        Some(c) => pruned(db, spec_cutoff(now, horizon_millis_of_days(c.keep_days as int))),
        None => db,
    }
}

/// The store after one whole tick: write, then sweep.
pub open spec fn after_tick(
    db: DatabaseModel,
    date: int,
    readings: Option<Seq<TemperatureModel>>,
) -> DatabaseModel {
    tick_pruned(tick_saved(db, date, readings), date)
}

/// What one tick reported: whether a batch was written, and what the
/// retention sweep returned.
#[derive(Clone, Copy, Debug)]
pub struct TickReport {
    pub batch_written: bool,
    pub prune_result: Result<usize, DatabaseAccessError>,
}

/// One tick of the cadence, at the single captured timestamp `date`
/// (milliseconds): writes the batch the reading source produced — sensor
/// failures were already excluded, a total source failure means no write —
/// then runs the retention sweep regardless, with `date` as its `now`.
pub fn run_tick(db: &mut Database, date: u64, readings: Option<Vec<Temperature>>) -> (report:
    TickReport)
    requires
        readings matches Some(ts) ==> distinct_sensor_names(temps_view(ts@)),
    ensures
        final(db)@ == after_tick(old(db)@, date as int, readings_view(readings)),
        report.batch_written == readings is Some,
        old(db)@.config matches Some(c) ==> report.prune_result is Ok,
        old(db)@.config is None ==> report.prune_result == Err::<usize, DatabaseAccessError>(
            DatabaseAccessError::NoConfigFound,
        ),
{
    let batch_written: bool;
    match readings {
        Some(ts) => {
            let batch = TemperaturesByTime::new(date, ts);
            let _saved = db.save_temperatures(batch);
            batch_written = true;
        },
        None => {
            batch_written = false;
        },
    }
    let prune_result = db.delete_old_temperatures(date);
    TickReport { batch_written, prune_result }
}

/// The configuration gateway: persists the new configuration through the
/// store, then stops the current cadence and arms a new one at the new
/// interval. Afterwards the newly armed cadence is the only active one.
pub fn apply_config_change(
    db: &mut Database,
    scheduler: &mut RecorderScheduler,
    config: RecorderConfig,
) -> (r: Result<RecorderConfig, DatabaseAccessError>)
    requires
        config.valid(),
    ensures
        final(db)@ == saved_config(old(db)@, config),
        final(scheduler)@ == started(stopped(old(scheduler)@), config),
        scheduler_wf(final(scheduler)@),
        r == Ok::<RecorderConfig, DatabaseAccessError>(config),
{
    let saved = match db.save_recorder_config(config) {
        Ok(c) => c,
        Err(e) => {
            return Err(e);
        },
    };
    scheduler.stop();
    let _started = scheduler.start(&config);
    Ok(saved)
}

} // verus!
