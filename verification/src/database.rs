//! The retention store: configuration and timestamped readings, with
//! batch insert, time-ranged and latest-time queries, and age-based
//! deletion.
//!
//! The store's state is modelled by [`DatabaseModel`]: an optional
//! configuration row and a sequence of stored rows in insertion order.
//! Every operation's contract is stated against that model.

use crate::temperature_recorder::{
    distinct_sensor_names, temps_view, BatchModel, RecorderConfig, Temperature, TemperatureModel,
    TemperaturesByTime,
};
use vstd::prelude::*;
use vstd::seq_lib::*;

verus! {

/// Mathematical value of one stored row: a capture timestamp and one
/// reading.
#[verifier::ext_equal]
pub ghost struct RowModel {
    pub date: int,
    pub temperature: TemperatureModel,
}

/// One stored reading together with the capture timestamp of its batch.
#[derive(Debug)]
pub struct TemperatureRow {
    pub date: u64,
    pub temperature: Temperature,
}

impl View for TemperatureRow {
    type V = RowModel;

    open spec fn view(&self) -> RowModel {
        RowModel { date: self.date as int, temperature: self.temperature@ }
    }
}

impl Clone for TemperatureRow {
    fn clone(&self) -> (r: Self)
        ensures
            r@ == self@,
    {
        TemperatureRow { date: self.date, temperature: self.temperature.clone() }
    }
}

/// The values of a sequence of stored rows.
pub open spec fn rows_view(rows: Seq<TemperatureRow>) -> Seq<RowModel> {
    rows.map_values(|r: TemperatureRow| r@)
}

/// Mathematical value of the whole store.
#[verifier::ext_equal]
pub ghost struct DatabaseModel {
    pub config: Option<RecorderConfig>,
    pub rows: Seq<RowModel>,
}

/// Failure while bringing the store up. Fatal to process startup.
#[derive(Clone, Copy, Debug, PartialEq, Eq, Structural)]
pub enum DatabaseInitError {
    Open,
    CreateDatabases,
    InsertDefaultState,
}

/// Failure of a single store operation, surfaced to the caller as a typed
/// error.
#[derive(Clone, Copy, Debug, PartialEq, Eq, Structural)]
pub enum DatabaseAccessError {
    Read,
    Write,
    Delete,
    NoConfigFound,
}

/// The configuration seeded into a fresh store: sample every 15 seconds,
/// keep 30 days of readings.
pub open spec fn default_config() -> RecorderConfig {
    RecorderConfig { interval_seconds: 15, keep_days: 30 }
}

/// Some stored row carries this capture timestamp.
pub open spec fn has_date(rows: Seq<RowModel>, date: int) -> bool {
    exists|i: int| 0 <= i < rows.len() && rows[i].date == date
}

/// The readings stored under one capture timestamp, in insertion order.
pub open spec fn rows_at(rows: Seq<RowModel>, date: int) -> Seq<TemperatureModel> {
    rows.filter(|r: RowModel| r.date == date).map_values(|r: RowModel| r.temperature)
}

/// The rows that survive a retention sweep with the given cutoff: exactly
/// those at least as new as the cutoff, in their original order.
pub open spec fn kept_rows(rows: Seq<RowModel>, cutoff: int) -> Seq<RowModel> {
    rows.filter(|r: RowModel| r.date >= cutoff)
}

/// The deletion cutoff for a sweep at `now` with the given horizon, clamped
/// at zero since stored timestamps are non-negative.
pub open spec fn spec_cutoff(now: int, horizon: int) -> int {
    if now >= horizon {
        now - horizon
    } else {
        0
    }
}

/// A retention horizon of whole days, in milliseconds.
pub open spec fn horizon_millis_of_days(days: int) -> int {
    days * 86400000
}

/// The rows a batch adds to the store: one per reading, all sharing the
/// batch's capture timestamp.
pub open spec fn batch_rows(b: BatchModel) -> Seq<RowModel> {
    b.temperatures.map_values(|t: TemperatureModel| RowModel { date: b.date, temperature: t })
}

/// The store after a configuration replace: the old configuration row is
/// gone, the new one is the only one; readings are untouched.
pub open spec fn saved_config(db: DatabaseModel, config: RecorderConfig) -> DatabaseModel {
    DatabaseModel { config: Some(config), rows: db.rows }
}

/// What loading the configuration returns, as a function of the store.
pub open spec fn loaded_config(db: DatabaseModel) -> Result<RecorderConfig, DatabaseAccessError> {
    match db.config {
        Some(c) => Ok(c),
        None => Err(DatabaseAccessError::NoConfigFound),
    }
}

/// The store after a batch insert: the new rows follow the old ones.
pub open spec fn with_batch(db: DatabaseModel, b: BatchModel) -> DatabaseModel {
    DatabaseModel { config: db.config, rows: db.rows + batch_rows(b) }
}

/// The store after a retention sweep with the given cutoff.
pub open spec fn pruned(db: DatabaseModel, cutoff: int) -> DatabaseModel {
    DatabaseModel { config: db.config, rows: kept_rows(db.rows, cutoff) }
}

/// `batches` is exactly the grouping of the rows with capture timestamp at
/// least `since`: strictly ascending timestamps, each batch holding the
/// readings stored under its timestamp, one batch for every such timestamp.
pub open spec fn batches_represent_since(
    rows: Seq<RowModel>,
    since: int,
    batches: Seq<BatchModel>,
) -> bool {
    &&& forall|p: int, q: int|
        0 <= p < q < batches.len() ==> #[trigger] batches[p].date < #[trigger] batches[q].date
    &&& forall|k: int|
        0 <= k < batches.len() ==> since <= #[trigger] batches[k].date && has_date(
            rows,
            batches[k].date,
        )
    &&& forall|k: int|
        0 <= k < batches.len() ==> #[trigger] batches[k].temperatures == rows_at(
            rows,
            batches[k].date,
        )
    &&& forall|j: int|
        0 <= j < rows.len() && since <= #[trigger] rows[j].date ==> exists|k: int|
            0 <= k < batches.len() && #[trigger] batches[k].date == rows[j].date
}

/// The values of a sequence of batches.
pub open spec fn batches_view(bs: Seq<TemperaturesByTime>) -> Seq<BatchModel> {
    bs.map_values(|b: TemperaturesByTime| b@)
}

/// The value of a sequence of rows extends pointwise.
proof fn lemma_rows_view_push(s: Seq<TemperatureRow>, r: TemperatureRow)
    ensures
        rows_view(s.push(r)) == rows_view(s).push(r@),
{
    assert(rows_view(s.push(r)) =~= rows_view(s).push(r@));
}

/// Appending a row either extends or leaves the filtered rows, depending on
/// whether the row survives the cutoff.
proof fn lemma_kept_rows_push(s: Seq<RowModel>, r: RowModel, cutoff: int)
    ensures
        r.date >= cutoff ==> kept_rows(s.push(r), cutoff) == kept_rows(s, cutoff).push(r),
        r.date < cutoff ==> kept_rows(s.push(r), cutoff) == kept_rows(s, cutoff),
{
    reveal(Seq::filter);
    assert(s.push(r).drop_last() =~= s);
    assert(s.push(r).last() == r);
}

/// Appending a row extends the readings under its timestamp and leaves
/// every other timestamp's readings unchanged.
proof fn lemma_rows_at_push(s: Seq<RowModel>, r: RowModel, date: int)
    ensures
        r.date == date ==> rows_at(s.push(r), date) == rows_at(s, date).push(r.temperature),
        r.date != date ==> rows_at(s.push(r), date) == rows_at(s, date),
{
    reveal(Seq::filter);
    assert(s.push(r).drop_last() =~= s);
    assert(s.push(r).last() == r);
    let pred = |x: RowModel| x.date == date;
    if pred(r) {
        assert(s.push(r).filter(pred) == s.filter(pred).push(r));
        assert(rows_at(s.push(r), date) =~= rows_at(s, date).push(r.temperature));
    }
}

/// No readings are stored under a timestamp that no row carries.
proof fn lemma_rows_at_absent(s: Seq<RowModel>, date: int)
    requires
        forall|j: int| 0 <= j < s.len() ==> #[trigger] s[j].date != date,
    ensures
        rows_at(s, date) == Seq::<TemperatureModel>::empty(),
    decreases s.len(),
{
    reveal(Seq::filter);
    if s.len() > 0 {
        lemma_rows_at_absent(s.drop_last(), date);
        assert(rows_at(s, date) =~= Seq::<TemperatureModel>::empty());
    }
}

/// The store: one optional configuration row and the stored readings in
/// insertion order.
pub struct Database {
    config: Option<RecorderConfig>,
    rows: Vec<TemperatureRow>,
}

impl View for Database {
    type V = DatabaseModel;

    closed spec fn view(&self) -> DatabaseModel {
        DatabaseModel { config: self.config, rows: rows_view(self.rows@) }
    }
}

impl Database {
    /// A fresh store: empty, seeded with the default configuration.
    pub fn new() -> (r: Result<Database, DatabaseInitError>)
        ensures
            r matches Ok(db) && db@ == (DatabaseModel {
                config: Some(default_config()),
                rows: Seq::<RowModel>::empty(),
            }),
    {
        let db = Database {
            config: Some(RecorderConfig::new(15, 30)),
            rows: Vec::new(),
        };
        assert(db@.rows =~= Seq::<RowModel>::empty());
        assert(db@ =~= DatabaseModel {
            config: Some(default_config()),
            rows: Seq::<RowModel>::empty(),
        });
        Ok(db)
    }

    /// A store rebuilt from persisted state. The default configuration is
    /// seeded only when no configuration row was found.
    pub fn from_saved(config: Option<RecorderConfig>, rows: Vec<TemperatureRow>) -> (db: Database)
        ensures
            db@.rows == rows_view(rows@),
            config matches Some(c) ==> db@.config == Some(c),
            config is None ==> db@.config == Some(default_config()),
    {
        let seeded = match config {
            Some(c) => Some(c),
            None => Some(RecorderConfig::new(15, 30)),
        };
        Database { config: seeded, rows }
    }

    /// The stored rows in insertion order, for a caller persisting the
    /// store's state elsewhere.
    pub fn rows(&self) -> (r: &Vec<TemperatureRow>)
        ensures
            rows_view(r@) == self@.rows,
    {
        &self.rows
    }

    /// The configuration row, or `NoConfigFound` when none exists (possible
    /// mid-replace; surfaced, never silently defaulted).
    pub fn load_recorder_config(&self) -> (r: Result<RecorderConfig, DatabaseAccessError>)
        ensures
            r == loaded_config(self@),
    {
        match &self.config {
            Some(c) => Ok(*c),
            None => Err(DatabaseAccessError::NoConfigFound),
        }
    }

    /// Replaces the configuration wholesale and returns the persisted value
    /// unchanged. Readings are untouched.
    pub fn save_recorder_config(&mut self, config: RecorderConfig) -> (r: Result<
        RecorderConfig,
        DatabaseAccessError,
    >)
        requires
            config.valid(),
        ensures
            final(self)@ == saved_config(old(self)@, config),
            r == Ok::<RecorderConfig, DatabaseAccessError>(config),
    {
        self.config = Some(config);
        Ok(config)
    }

    /// Inserts one row per reading of the batch, all sharing the batch's
    /// capture timestamp, after every row already stored.
    pub fn save_temperatures(&mut self, temperatures_by_time: TemperaturesByTime) -> (r: Result<
        (),
        DatabaseAccessError,
    >)
        requires
            distinct_sensor_names(temperatures_by_time@.temperatures),
        ensures
            final(self)@ == with_batch(old(self)@, temperatures_by_time@),
            r == Ok::<(), DatabaseAccessError>(()),
    {
        let ghost b: BatchModel = temperatures_by_time@;
        let date = temperatures_by_time.date();
        let temperatures = temperatures_by_time.temperatures();
        let mut i: usize = 0;
        while i < temperatures.len()
            invariant
                i <= temperatures.len(),
                temps_view(temperatures@) == b.temperatures,
                date as int == b.date,
                self.config == old(self).config,
                rows_view(self.rows@) == rows_view(old(self).rows@) + batch_rows(b).take(i as int),
            decreases temperatures.len() - i,
        {
            let row = TemperatureRow { date, temperature: temperatures[i].clone() };
            let ghost prev = self.rows@;
            proof {
                assert(row@ == batch_rows(b)[i as int]);
            }
            self.rows.push(row);
            proof {
                lemma_rows_view_push(prev, row);
                assert(batch_rows(b).take(i + 1) =~= batch_rows(b).take(i as int).push(
                    batch_rows(b)[i as int],
                ));
                assert((rows_view(old(self).rows@) + batch_rows(b).take(i as int)).push(row@)
                    =~= rows_view(old(self).rows@) + batch_rows(b).take(i + 1));
            }
            i += 1;
        }
        assert(rows_view(self.rows@) =~= rows_view(old(self).rows@) + batch_rows(b));
        assert(final(self)@ =~= with_batch(old(self)@, b));
        Ok(())
    }

    /// Deletes every stored reading strictly older than `now - horizon`
    /// (both in milliseconds), keeping the rest in their order. Returns how
    /// many rows were removed; never errors when there is nothing to delete.
    pub fn prune_older_than(&mut self, now_millis: u64, horizon_millis: u64) -> (count: usize)
        ensures
            final(self)@ == pruned(old(self)@, spec_cutoff(now_millis as int, horizon_millis as int)),
            count == old(self)@.rows.len() - final(self)@.rows.len(),
    {
        let cutoff = now_millis.saturating_sub(horizon_millis);
        let ghost c: int = spec_cutoff(now_millis as int, horizon_millis as int);
        proof {
            assert(cutoff as int == c);
        }
        let mut kept: Vec<TemperatureRow> = Vec::new();
        let mut i: usize = 0;
        while i < self.rows.len()
            invariant
                i <= self.rows.len(),
                kept@.len() <= i,
                self.config == old(self).config,
                self.rows@ == old(self).rows@,
                cutoff as int == c,
                rows_view(kept@) == kept_rows(rows_view(self.rows@).take(i as int), c),
            decreases self.rows.len() - i,
        {
            proof {
                let rv = rows_view(self.rows@);
                assert(rv.take(i + 1) =~= rv.take(i as int).push(rv[i as int]));
                lemma_kept_rows_push(rv.take(i as int), rv[i as int], c);
                broadcast use vstd::prelude::Seq::lemma_filter_len;

            }
            if self.rows[i].date >= cutoff {
                let row = self.rows[i].clone();
                let ghost prev = kept@;
                kept.push(row);
                proof {
                    lemma_rows_view_push(prev, row);
                    assert(rows_view(kept@) == kept_rows(rows_view(self.rows@).take(i + 1), c));
                }
            } else {
                assert(rows_view(kept@) == kept_rows(rows_view(self.rows@).take(i + 1), c));
            }
            i += 1;
        }
        assert(rows_view(self.rows@).take(self.rows@.len() as int) =~= rows_view(self.rows@));
        let count = self.rows.len() - kept.len();
        self.rows = kept;
        assert(final(self)@ =~= pruned(old(self)@, c));
        count
    }

    /// The retention sweep of the original cadence: reads the stored
    /// configuration and deletes every reading older than its horizon of
    /// `keep_days` whole days before `now_millis`. Fails with
    /// `NoConfigFound` when no configuration row exists, leaving the store
    /// unchanged.
    pub fn delete_old_temperatures(&mut self, now_millis: u64) -> (r: Result<
        usize,
        DatabaseAccessError,
    >)
        ensures
            old(self)@.config is None ==> final(self)@ == old(self)@ && r == Err::<
                usize,
                DatabaseAccessError,
            >(DatabaseAccessError::NoConfigFound),
            old(self)@.config matches Some(c) ==> final(self)@ == pruned(
                old(self)@,
                spec_cutoff(now_millis as int, horizon_millis_of_days(c.keep_days as int)),
            ) && r == Ok::<usize, DatabaseAccessError>(
                (old(self)@.rows.len() - final(self)@.rows.len()) as usize,
            ),
    {
        let config = match self.load_recorder_config() {
            Ok(c) => c,
            Err(e) => {
                return Err(e);
            },
        };
        let horizon = match config.keep_days.checked_mul(86_400_000) {
            Some(h) => h,
            None => u64::MAX,
        };
        proof {
            assert(spec_cutoff(now_millis as int, horizon as int) == spec_cutoff(
                now_millis as int,
                horizon_millis_of_days(config.keep_days as int),
            ));
        }
        let count = self.prune_older_than(now_millis, horizon);
        Ok(count)
    }

    /// The readings stored under one capture timestamp, in insertion order.
    fn temperatures_at(&self, date: u64) -> (temps: Vec<Temperature>)
        ensures
            temps_view(temps@) == rows_at(self@.rows, date as int),
    {
        let mut temps: Vec<Temperature> = Vec::new();
        let mut i: usize = 0;
        while i < self.rows.len()
            invariant
                i <= self.rows.len(),
                temps_view(temps@) == rows_at(rows_view(self.rows@).take(i as int), date as int),
            decreases self.rows.len() - i,
        {
            proof {
                let rv = rows_view(self.rows@);
                assert(rv.take(i + 1) =~= rv.take(i as int).push(rv[i as int]));
                lemma_rows_at_push(rv.take(i as int), rv[i as int], date as int);
            }
            if self.rows[i].date == date {
                let t = self.rows[i].temperature.clone();
                let ghost prev = temps@;
                temps.push(t);
                proof {
                    crate::temperature_recorder::lemma_temps_view_push(prev, t);
                    assert(temps_view(temps@) == rows_at(
                        rows_view(self.rows@).take(i + 1),
                        date as int,
                    ));
                }
            } else {
                assert(temps_view(temps@) == rows_at(
                    rows_view(self.rows@).take(i + 1),
                    date as int,
                ));
            }
            i += 1;
        }
        proof {
            assert(rows_view(self.rows@).take(self.rows@.len() as int) =~= rows_view(self.rows@));
        }
        temps
    }

    /// The distinct capture timestamps at least `since`, in strictly
    /// ascending order.
    fn load_dates_distinct_since(&self, since: u64) -> (dates: Vec<u64>)
        ensures
            forall|p: int, q: int|
                0 <= p < q < dates@.len() ==> #[trigger] dates@[p] < #[trigger] dates@[q],
            forall|k: int|
                0 <= k < dates@.len() ==> since <= #[trigger] dates@[k] && has_date(
                    self@.rows,
                    dates@[k] as int,
                ),
            forall|j: int|
                0 <= j < self@.rows.len() && since as int <= #[trigger] self@.rows[j].date
                    ==> date_in(dates@, self@.rows[j].date),
    {
        let mut dates: Vec<u64> = Vec::new();
        let mut i: usize = 0;
        while i < self.rows.len()
            invariant
                i <= self.rows.len(),
                forall|p: int, q: int|
                    0 <= p < q < dates@.len() ==> #[trigger] dates@[p] < #[trigger] dates@[q],
                forall|k: int|
                    0 <= k < dates@.len() ==> since <= #[trigger] dates@[k] && has_date(
                        rows_view(self.rows@),
                        dates@[k] as int,
                    ),
                forall|j: int|
                    0 <= j < i && since as int <= #[trigger] rows_view(self.rows@)[j].date
                        ==> date_in(dates@, rows_view(self.rows@)[j].date),
            decreases self.rows.len() - i,
        {
            let d = self.rows[i].date;
            proof {
                assert(rows_view(self.rows@)[i as int].date == d as int);
            }
            if d >= since {
                let mut j: usize = 0;
                while j < dates.len() && dates[j] < d
                    invariant
                        j <= dates@.len(),
                        forall|k: int| 0 <= k < j ==> #[trigger] dates@[k] < d,
                    decreases dates@.len() - j,
                {
                    j += 1;
                }
                if j == dates.len() {
                    let ghost prev = dates@;
                    dates.push(d);
                    proof {
                        assert(dates@ =~= prev.take(prev.len() as int) + seq![d] + prev.skip(
                            prev.len() as int,
                        ));
                        lemma_dates_extended(
                            rows_view(self.rows@),
                            prev,
                            dates@,
                            d,
                            since,
                            i as int,
                            prev.len() as int,
                        );
                    }
                } else if dates[j] > d {
                    let ghost prev = dates@;
                    dates.insert(j, d);
                    proof {
                        assert(dates@ =~= prev.take(j as int) + seq![d] + prev.skip(j as int));
                        lemma_dates_extended(
                            rows_view(self.rows@),
                            prev,
                            dates@,
                            d,
                            since,
                            i as int,
                            j as int,
                        );
                    }
                } else {
                    proof {
                        assert(dates@[j as int] as int == rows_view(self.rows@)[i as int].date);
                        assert(date_in(dates@, rows_view(self.rows@)[i as int].date));
                    }
                }
            }
            i += 1;
        }
        dates
    }
}

impl Database {
    /// The most recent capture timestamp, or nothing when the store holds
    /// no readings.
    fn load_youngest_date_of_temperatures(&self) -> (r: Option<u64>)
        ensures
            r is None <==> self@.rows.len() == 0,
            r matches Some(m) ==> has_date(self@.rows, m as int) && (forall|j: int|
                0 <= j < self@.rows.len() ==> #[trigger] self@.rows[j].date <= m as int),
    {
        if self.rows.len() == 0 {
            return None;
        }
        let mut max: u64 = self.rows[0].date;
        proof {
            assert(rows_view(self.rows@)[0].date == max as int);
        }
        let mut i: usize = 1;
        while i < self.rows.len()
            invariant
                1 <= i <= self.rows@.len(),
                has_date(rows_view(self.rows@), max as int),
                forall|j: int| 0 <= j < i ==> #[trigger] rows_view(self.rows@)[j].date <= max as int,
            decreases self.rows@.len() - i,
        {
            if self.rows[i].date > max {
                max = self.rows[i].date;
                proof {
                    assert(rows_view(self.rows@)[i as int].date == max as int);
                }
            }
            i += 1;
        }
        Some(max)
    }

    /// The batch with the most recent capture timestamp, holding every
    /// reading stored under it; nothing when the store is empty.
    pub fn load_last_temperature(&self) -> (r: Result<
        Option<TemperaturesByTime>,
        DatabaseAccessError,
    >)
        ensures
            self@.rows.len() == 0 ==> (r matches Ok(o) && o is None),
            self@.rows.len() != 0 ==> (r matches Ok(Some(b)) && has_date(self@.rows, b@.date)
                && (forall|j: int|
                0 <= j < self@.rows.len() ==> #[trigger] self@.rows[j].date <= b@.date)
                && b@.temperatures == rows_at(self@.rows, b@.date)),
    {
        match self.load_youngest_date_of_temperatures() {
            None => Ok(None),
            Some(date_max) => {
                let temps = self.temperatures_at(date_max);
                Ok(Some(TemperaturesByTime::new(date_max, temps)))
            },
        }
    }

    /// Every batch with capture timestamp at least `since`, in strictly
    /// ascending timestamp order; an empty sequence, not an error, when
    /// nothing matches.
    pub fn load_temperatures_since(&self, since: u64) -> (r: Result<
        Vec<TemperaturesByTime>,
        DatabaseAccessError,
    >)
        ensures
            r matches Ok(batches) && batches_represent_since(
                self@.rows,
                since as int,
                batches_view(batches@),
            ),
    {
        let dates = self.load_dates_distinct_since(since);
        let mut batches: Vec<TemperaturesByTime> = Vec::new();
        let mut k: usize = 0;
        while k < dates.len()
            invariant
                k <= dates@.len(),
                batches@.len() == k,
                forall|p: int, q: int|
                    0 <= p < q < dates@.len() ==> #[trigger] dates@[p] < #[trigger] dates@[q],
                forall|kk: int|
                    0 <= kk < dates@.len() ==> since <= #[trigger] dates@[kk] && has_date(
                        self@.rows,
                        dates@[kk] as int,
                    ),
                forall|j: int|
                    0 <= j < self@.rows.len() && since as int <= #[trigger] self@.rows[j].date
                        ==> date_in(dates@, self@.rows[j].date),
                forall|p: int|
                    0 <= p < k ==> #[trigger] batches_view(batches@)[p].date == dates@[p] as int,
                forall|p: int|
                    0 <= p < k ==> #[trigger] batches_view(batches@)[p].temperatures == rows_at(
                        self@.rows,
                        dates@[p] as int,
                    ),
            decreases dates@.len() - k,
        {
            let date = dates[k];
            let temps = self.temperatures_at(date);
            let b = TemperaturesByTime::new(date, temps);
            let ghost prev = batches@;
            batches.push(b);
            proof {
                lemma_batches_view_push(prev, b);
            }
            k += 1;
        }
        proof {
            let bv = batches_view(batches@);
            assert(bv.len() == dates@.len());
            assert forall|p: int, q: int| 0 <= p < q < bv.len() implies #[trigger] bv[p].date
                < #[trigger] bv[q].date by {
                assert(dates@[p] < dates@[q]);
            }
            assert forall|kk: int| 0 <= kk < bv.len() implies since as int <= #[trigger] bv[kk].date
                && has_date(self@.rows, bv[kk].date) by {
                assert(bv[kk].date == dates@[kk] as int);
            }
            assert forall|kk: int| 0 <= kk < bv.len() implies #[trigger] bv[kk].temperatures
                == rows_at(self@.rows, bv[kk].date) by {
                assert(bv[kk].date == dates@[kk] as int);
            }
            assert forall|j: int|
                0 <= j < self@.rows.len() && since as int <= #[trigger] self@.rows[j].date
                implies exists|kk: int|
                    0 <= kk < bv.len() && #[trigger] bv[kk].date == self@.rows[j].date by {
                let kk = choose|kk: int|
                    0 <= kk < dates@.len() && (#[trigger] dates@[kk]) as int == self@.rows[j].date;
                assert(bv[kk].date == self@.rows[j].date);
            }
        }
        Ok(batches)
    }
}

/// The value of a sequence of batches extends pointwise.
proof fn lemma_batches_view_push(s: Seq<TemperaturesByTime>, b: TemperaturesByTime)
    ensures
        batches_view(s.push(b)) == batches_view(s).push(b@),
{
    assert(batches_view(s.push(b)) =~= batches_view(s).push(b@));
}

/// The deletion cutoff of a retention sweep at `now_millis` with a horizon
/// of `keep_days` whole days, converted at this boundary: a reading is
/// kept exactly when its capture timestamp is at least this value.
pub fn retention_cutoff_millis(now_millis: u64, keep_days: u64) -> (r: u64)
    ensures
        r as int == spec_cutoff(now_millis as int, horizon_millis_of_days(keep_days as int)),
{
    let horizon = match keep_days.checked_mul(86_400_000) {
        Some(h) => h,
        None => u64::MAX,
    };
    now_millis.saturating_sub(horizon)
}

/// `date_in(dates, d)`: some listed timestamp equals `d`.
pub open spec fn date_in(dates: Seq<u64>, date: int) -> bool {
    exists|k: int| 0 <= k < dates.len() && (#[trigger] dates[k]) as int == date
}

/// The listed timestamps are strictly ascending.
pub open spec fn strictly_ascending(dates: Seq<u64>) -> bool {
    forall|p: int, q: int| 0 <= p < q < dates.len() ==> #[trigger] dates[p] < #[trigger] dates[q]
}

/// Every listed timestamp is at least `since` and is carried by some row.
spec fn dates_sound(rv: Seq<RowModel>, since: int, dates: Seq<u64>) -> bool {
    forall|k: int|
        0 <= k < dates.len() ==> since <= #[trigger] dates[k] as int && has_date(
            rv,
            dates[k] as int,
        )
}

/// Every row among the first `i` with timestamp at least `since` has its
/// timestamp listed.
spec fn dates_complete_upto(rv: Seq<RowModel>, since: int, dates: Seq<u64>, i: int) -> bool {
    forall|j: int|
        0 <= j < i && since <= #[trigger] rv[j].date ==> date_in(dates, rv[j].date)
}

/// Inserting row `i`'s timestamp at its ordered position keeps the date
/// list strictly ascending, sound and complete one row further.
proof fn lemma_dates_extended(
    rv: Seq<RowModel>,
    prev: Seq<u64>,
    new: Seq<u64>,
    d: u64,
    since: u64,
    i: int,
    pos: int,
)
    requires
        0 <= i < rv.len(),
        rv[i].date == d as int,
        since <= d,
        0 <= pos <= prev.len(),
        new == prev.take(pos) + seq![d] + prev.skip(pos),
        forall|k: int| 0 <= k < pos ==> #[trigger] prev[k] < d,
        pos < prev.len() ==> prev[pos] > d,
        strictly_ascending(prev),
        dates_sound(rv, since as int, prev),
        dates_complete_upto(rv, since as int, prev, i),
    ensures
        strictly_ascending(new),
        dates_sound(rv, since as int, new),
        dates_complete_upto(rv, since as int, new, i + 1),
{
    assert(new.len() == prev.len() + 1);
    assert forall|k: int| 0 <= k < new.len() implies new[k] == (if k < pos {
        prev[k]
    } else if k == pos {
        d
    } else {
        prev[k - 1]
    }) by {}
    assert forall|p: int, q: int| 0 <= p < q < new.len() implies #[trigger] new[p]
        < #[trigger] new[q] by {
        if q < pos {
            assert(prev[p] < prev[q]);
        } else if q == pos {
            assert(prev[p] < d);
        } else if p == pos {
            assert(pos < prev.len());
            if q - 1 > pos {
                assert(prev[pos] < prev[q - 1]);
            }
        } else if p < pos {
            assert(pos < prev.len());
            assert(prev[p] < d);
            if q - 1 > pos {
                assert(prev[pos] < prev[q - 1]);
            }
        } else {
            assert(prev[p - 1] < prev[q - 1]);
        }
    }
    assert forall|k: int| 0 <= k < new.len() implies since as int <= #[trigger] new[k] as int
        && has_date(rv, new[k] as int) by {
        if k == pos {
            assert(rv[i].date == d as int);
            assert(has_date(rv, d as int));
        }
    }
    assert forall|j: int| 0 <= j < i + 1 && since as int <= #[trigger] rv[j].date implies date_in(
        new,
        rv[j].date,
    ) by {
        if j == i {
            assert(new[pos] as int == rv[j].date);
        } else {
            let k = choose|k: int|
                0 <= k < prev.len() && (#[trigger] prev[k]) as int == rv[j].date;
            if k < pos {
                assert(new[k] as int == rv[j].date);
            } else {
                assert(new[k + 1] as int == rv[j].date);
            }
        }
    }
}

/// The retention sweep keeps exactly the rows at least as new as the
/// cutoff: every such row survives, and every surviving row is that new.
proof fn lemma_kept_rows_membership(rows: Seq<RowModel>, cutoff: int)
    ensures
        forall|j: int|
            0 <= j < rows.len() && (#[trigger] rows[j]).date >= cutoff ==> kept_rows(
                rows,
                cutoff,
            ).contains(rows[j]),
        forall|k: int|
            0 <= k < kept_rows(rows, cutoff).len() ==> (#[trigger] kept_rows(rows, cutoff)[k]).date
                >= cutoff,
    decreases rows.len(),
{
    reveal(Seq::filter);
    if rows.len() > 0 {
        let dl = rows.drop_last();
        let last = rows.last();
        lemma_kept_rows_membership(dl, cutoff);
        let kr = kept_rows(rows, cutoff);
        let kdl = kept_rows(dl, cutoff);
        assert forall|j: int|
            0 <= j < rows.len() && (#[trigger] rows[j]).date >= cutoff implies kr.contains(
            rows[j],
        ) by {
            if j < rows.len() - 1 {
                assert(dl[j] == rows[j]);
                assert(kdl.contains(rows[j]));
                let idx = choose|i: int| 0 <= i < kdl.len() && kdl[i] == rows[j];
                assert(kr[idx] == rows[j]);
            } else {
                assert(rows[j] == last);
                assert(kr[kr.len() - 1] == last);
            }
        }
        assert forall|k: int| 0 <= k < kr.len() implies (#[trigger] kr[k]).date >= cutoff by {
            if last.date >= cutoff {
                if k < kr.len() - 1 {
                    assert(kr[k] == kdl[k]);
                } else {
                    assert(kr[k] == last);
                }
            } else {
                assert(kr[k] == kdl[k]);
            }
        }
    }
}

/// Retention law: a sweep at `now` with horizon `h` never deletes a
/// reading with capture timestamp at least `now - h`, and keeps nothing
/// strictly older than that.
pub proof fn lemma_prune_retention(rows: Seq<RowModel>, now: int, horizon: int)
    requires
        forall|j: int| 0 <= j < rows.len() ==> (#[trigger] rows[j]).date >= 0,
    ensures
        forall|j: int|
            0 <= j < rows.len() && (#[trigger] rows[j]).date >= now - horizon ==> kept_rows(
                rows,
                spec_cutoff(now, horizon),
            ).contains(rows[j]),
        forall|k: int|
            0 <= k < kept_rows(rows, spec_cutoff(now, horizon)).len() ==> (#[trigger] kept_rows(
                rows,
                spec_cutoff(now, horizon),
            )[k]).date >= now - horizon,
{
    lemma_kept_rows_membership(rows, spec_cutoff(now, horizon));
}

/// Splitting a query over concatenated rows.
proof fn lemma_rows_at_concat(a: Seq<RowModel>, b: Seq<RowModel>, date: int)
    ensures
        rows_at(a + b, date) == rows_at(a, date) + rows_at(b, date),
    decreases b.len(),
{
    reveal(Seq::filter);
    if b.len() == 0 {
        assert(a + b =~= a);
        assert(rows_at(b, date) =~= Seq::<TemperatureModel>::empty());
        assert(rows_at(a + b, date) =~= rows_at(a, date) + rows_at(b, date));
    } else {
        let dl = b.drop_last();
        let last = b.last();
        lemma_rows_at_concat(a, dl, date);
        assert(a + b =~= (a + dl).push(last));
        lemma_rows_at_push(a + dl, last, date);
        assert(b =~= dl.push(last));
        lemma_rows_at_push(dl, last, date);
        assert(rows_at(a + b, date) =~= rows_at(a, date) + rows_at(b, date));
    }
}

/// Under a timestamp carried by every row, the query returns every
/// reading, in order.
proof fn lemma_rows_at_all(s: Seq<RowModel>, date: int)
    requires
        forall|j: int| 0 <= j < s.len() ==> (#[trigger] s[j]).date == date,
    ensures
        rows_at(s, date) == s.map_values(|r: RowModel| r.temperature),
    decreases s.len(),
{
    reveal(Seq::filter);
    if s.len() > 0 {
        lemma_rows_at_all(s.drop_last(), date);
        lemma_rows_at_push(s.drop_last(), s.last(), date);
        assert(s =~= s.drop_last().push(s.last()));
        assert(rows_at(s, date) =~= s.map_values(|r: RowModel| r.temperature));
    } else {
        assert(rows_at(s, date) =~= s.map_values(|r: RowModel| r.temperature));
    }
}

/// Round-trip law: replacing the configuration and then loading it returns
/// exactly the values saved, for every valid configuration and store state.
pub proof fn lemma_config_round_trip(db: DatabaseModel, config: RecorderConfig)
    requires
        config.valid(),
    ensures
        loaded_config(saved_config(db, config)) == Ok::<RecorderConfig, DatabaseAccessError>(
            config,
        ),
{
}

/// Latest-batch law: after inserting a batch whose capture timestamp is
/// newer than every stored row, that timestamp is the maximum in the store
/// and the readings under it are exactly the batch's readings.
pub proof fn lemma_latest_batch_after_save(db: DatabaseModel, b: BatchModel)
    requires
        forall|j: int| 0 <= j < db.rows.len() ==> (#[trigger] db.rows[j]).date < b.date,
    ensures
        b.temperatures.len() > 0 ==> has_date(with_batch(db, b).rows, b.date),
        forall|j: int|
            0 <= j < with_batch(db, b).rows.len() ==> (#[trigger] with_batch(db, b).rows[j]).date
                <= b.date,
        rows_at(with_batch(db, b).rows, b.date) == b.temperatures,
{
    let rows = with_batch(db, b).rows;
    assert(rows == db.rows + batch_rows(b));
    lemma_rows_at_concat(db.rows, batch_rows(b), b.date);
    assert forall|j: int| 0 <= j < db.rows.len() implies (#[trigger] db.rows[j]).date != b.date by {
        assert(db.rows[j].date < b.date);
    }
    lemma_rows_at_absent(db.rows, b.date);
    assert forall|j: int| 0 <= j < batch_rows(b).len() implies (#[trigger] batch_rows(b)[j]).date
        == b.date by {}
    lemma_rows_at_all(batch_rows(b), b.date);
    assert(batch_rows(b).map_values(|r: RowModel| r.temperature) =~= b.temperatures);
    assert(rows_at(rows, b.date) =~= b.temperatures);
    if b.temperatures.len() > 0 {
        assert(rows[db.rows.len() as int] == batch_rows(b)[0]);
        assert(rows[db.rows.len() as int].date == b.date);
    }
}

/// Empty-range law: when `since` is newer than every stored row, the
/// ranged query yields no batches.
pub proof fn lemma_batches_since_empty(rows: Seq<RowModel>, since: int, batches: Seq<BatchModel>)
    requires
        batches_represent_since(rows, since, batches),
        forall|j: int| 0 <= j < rows.len() ==> (#[trigger] rows[j]).date < since,
    ensures
        batches.len() == 0,
{
    if batches.len() > 0 {
        assert(since <= batches[0].date && has_date(rows, batches[0].date));
        let i = choose|i: int| 0 <= i < rows.len() && rows[i].date == batches[0].date;
        assert(rows[i].date < since);
        assert(false);
    }
}

} // verus!
