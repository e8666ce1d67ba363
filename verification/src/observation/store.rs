//! The observation store: an embedded key-value file with the statistics and the event log.
use vstd::prelude::*;
use vstd::string::*;

use crate::binary64::F64;
use crate::error::{invalid, Error, Result};
use crate::now_unix_ms;
use crate::observation::aggregate::{AggregateRow, DEFAULT_ALPHA, DEFAULT_RESERVOIR};
use crate::observation::event::DecisionEvent;

verus! {

/// `redb::Database`, an open database; what it holds is named below.
#[verifier::external_type_specification]
#[verifier::external_body]
pub struct ExDatabase(redb::Database);

/// The committed rows of the table `table` of `db`, whose keys are texts and whose values are
/// bytes; empty where there is no such table.
pub uninterp spec fn text_rows(db: redb::Database, table: Seq<char>) -> Map<Seq<char>, Seq<u8>>;

/// The committed rows of the table `table` of `db`, whose keys are numbers and whose values are
/// bytes; empty where there is no such table.
pub uninterp spec fn numbered_rows(db: redb::Database, table: Seq<char>) -> Map<u64, Seq<u8>>;

/// The names of the committed tables of `db`, of either sort.
pub uninterp spec fn table_names(db: redb::Database) -> Set<Seq<char>>;

/// The path that `db` was made with.
pub uninterp spec fn path_of(db: redb::Database) -> Seq<char>;

/// Calls `redb::Database::create`, which opens the database file at `path` or makes one.  What
/// it holds depends on the disk, so nothing is stated of it.
#[verifier::external_body]
fn create(path: &str) -> (r: std::result::Result<redb::Database, redb::Error>)
    ensures
        r matches Ok(db) ==> path_of(db) == path@,
{
    Ok(redb::Database::create(path)?)
}

/// Calls `redb::WriteTransaction::open_table` for the two tables in one transaction, which
/// makes them where they do not exist, and commits.  When that succeeds, the two tables are
/// there beside those that were, and no row has changed.  Of a failed call nothing is stated but
/// that the database is still the one at its path.
#[verifier::external_body]
fn make_tables(db: &mut redb::Database, texts: &str, numbers: &str) -> (r: std::result::Result<
    (),
    redb::Error,
>)
    requires
        texts@.len() > 0,
        numbers@.len() > 0,
    ensures
        path_of(*final(db)) == path_of(*old(db)),
        r is Ok ==> table_names(*final(db)) == table_names(*old(db)).insert(texts@).insert(
            numbers@,
        ),
        r is Ok ==> forall|t: Seq<char>| #[trigger]
            text_rows(*final(db), t) == text_rows(*old(db), t),
        r is Ok ==> forall|t: Seq<char>| #[trigger]
            numbered_rows(*final(db), t) == numbered_rows(*old(db), t),
{
    let txn = db.begin_write()?;
    txn.open_table(redb::TableDefinition::<&str, &[u8]>::new(texts))?;
    txn.open_table(redb::TableDefinition::<u64, &[u8]>::new(numbers))?;
    txn.commit()?;
    Ok(())
}

/// Calls `redb::ReadOnlyTable::get` in a read transaction of its own, which returns the value
/// that the last commit left under the key.  Where there is no such table it fails.
#[verifier::external_body]
fn get_text(db: &redb::Database, table: &str, key: &str) -> (r: std::result::Result<
    Option<Vec<u8>>,
    redb::Error,
>)
    requires
        table@.len() > 0,
    ensures
        match r {
            Ok(Some(v)) => text_rows(*db, table@).contains_key(key@) && v@ == text_rows(
                *db,
                table@,
            )[key@],
            Ok(None) => !text_rows(*db, table@).contains_key(key@),
            Err(_) => true,
        },
        r is Ok ==> table_names(*db).contains(table@),
{
    let txn = db.begin_read()?;
    let rows = txn.open_table(redb::TableDefinition::<&str, &[u8]>::new(table))?;
    let found = rows.get(key)?;
    Ok(found.map(|guard| guard.value().to_vec()))
}

/// Calls `redb::Table::insert` in a write transaction of its own and commits: the key has the
/// value, replacing what it had, and nothing else has changed, except that the table is made where
/// it did not exist.  Of a failed call, which may or may not have reached the disk, nothing is
/// stated but that the database is still the one at its path.
#[verifier::external_body]
fn put_text(db: &mut redb::Database, table: &str, key: &str, value: &[u8]) -> (r:
    std::result::Result<(), redb::Error>)
    requires
        table@.len() > 0,
    ensures
        path_of(*final(db)) == path_of(*old(db)),
        r is Ok ==> table_names(*final(db)) == table_names(*old(db)).insert(table@),
        r is Ok ==> text_rows(*final(db), table@) == text_rows(*old(db), table@).insert(
            key@,
            value@,
        ),
        r is Ok ==> forall|t: Seq<char>|
            t != table@ ==> #[trigger] text_rows(*final(db), t) == text_rows(*old(db), t),
        r is Ok ==> forall|t: Seq<char>| #[trigger]
            numbered_rows(*final(db), t) == numbered_rows(*old(db), t),
{
    let txn = db.begin_write()?;
    txn.open_table(redb::TableDefinition::<&str, &[u8]>::new(table))?.insert(key, value)?;
    txn.commit()?;
    Ok(())
}

/// Calls `redb::Table::insert` on a table with numbers for keys, as `put_text` does on one with
/// texts.
#[verifier::external_body]
fn put_numbered(db: &mut redb::Database, table: &str, key: u64, value: &[u8]) -> (r:
    std::result::Result<(), redb::Error>)
    requires
        table@.len() > 0,
    ensures
        path_of(*final(db)) == path_of(*old(db)),
        r is Ok ==> table_names(*final(db)) == table_names(*old(db)).insert(table@),
        r is Ok ==> numbered_rows(*final(db), table@) == numbered_rows(*old(db), table@).insert(
            key,
            value@,
        ),
        r is Ok ==> forall|t: Seq<char>|
            t != table@ ==> #[trigger] numbered_rows(*final(db), t) == numbered_rows(*old(db), t),
        r is Ok ==> forall|t: Seq<char>| #[trigger]
            text_rows(*final(db), t) == text_rows(*old(db), t),
{
    let txn = db.begin_write()?;
    txn.open_table(redb::TableDefinition::<u64, &[u8]>::new(table))?.insert(key, value)?;
    txn.commit()?;
    Ok(())
}

/// Calls `redb::ReadableTableMetadata::len` in a read transaction of its own, which returns the
/// number of rows that the last commit left.  Where there is no such table it fails.
#[verifier::external_body]
fn count_numbered(db: &redb::Database, table: &str) -> (r: std::result::Result<u64, redb::Error>)
    requires
        table@.len() > 0,
    ensures
        r matches Ok(n) ==> numbered_rows(*db, table@).dom().finite() && n == numbered_rows(
            *db,
            table@,
        ).len(),
        r is Ok ==> table_names(*db).contains(table@),
{
    let txn = db.begin_read()?;
    let rows = txn.open_table(redb::TableDefinition::<u64, &[u8]>::new(table))?;
    Ok(redb::ReadableTableMetadata::len(&rows)?)
}

/// Calls `redb::ReadableTable::last` in a read transaction of its own, which returns the row with
/// the greatest key that the last commit left.  Where there is no such table it fails.
#[verifier::external_body]
fn greatest_number(db: &redb::Database, table: &str) -> (r: std::result::Result<
    Option<u64>,
    redb::Error,
>)
    requires
        table@.len() > 0,
    ensures
        match r {
            Ok(Some(k)) => numbered_rows(*db, table@).contains_key(k) && forall|j: u64| #[trigger]
                numbered_rows(*db, table@).contains_key(j) ==> j <= k,
            Ok(None) => forall|j: u64| ! #[trigger] numbered_rows(*db, table@).contains_key(j),
            Err(_) => true,
        },
        r is Ok ==> table_names(*db).contains(table@),
{
    let txn = db.begin_read()?;
    let rows = txn.open_table(redb::TableDefinition::<u64, &[u8]>::new(table))?;
    let found = redb::ReadableTable::last(&rows)?;
    Ok(found.map(|row| row.0.value()))
}

/// The row of `bucket` among the stored `rows`: the empty one where there is none, and `None`
/// where the stored bytes are no row.
pub open spec fn stored(rows: Map<Seq<char>, Seq<u8>>, bucket: Seq<char>) -> Option<
    crate::observation::aggregate::RowView,
> {
    if rows.contains_key(bucket) {
        crate::observation::aggregate::RowView::decoded(rows[bucket])
    } else {
        Some(crate::observation::aggregate::RowView::empty())
    }
}

/// The rows after the sample `x` for `bucket` at the time `now`.
pub open spec fn after_sample(
    rows: Map<Seq<char>, Seq<u8>>,
    bucket: Seq<char>,
    x: F64,
    now: u64,
) -> Map<Seq<char>, Seq<u8>> {
    rows.insert(
        bucket,
        stored(rows, bucket)->0.with_sample(
            x,
            F64 { bits: DEFAULT_ALPHA },
            DEFAULT_RESERVOIR as nat,
            now,
        ).encoded(),
    )
}

/// The rows after a deadline of `bucket` that was met or missed.
pub open spec fn after_deadline(
    rows: Map<Seq<char>, Seq<u8>>,
    bucket: Seq<char>,
    met: bool,
) -> Map<Seq<char>, Seq<u8>> {
    rows.insert(bucket, stored(rows, bucket)->0.with_deadline(met).encoded())
}

/// `bucket` has room for one more sample: its row can be read, and its count is not at the limit.
pub open spec fn takes_sample(rows: Map<Seq<char>, Seq<u8>>, bucket: Seq<char>) -> bool {
    stored(rows, bucket) matches Some(row) && row.sample_count < u64::MAX
}

/// `bucket` has room for one more deadline.
pub open spec fn takes_deadline(
    rows: Map<Seq<char>, Seq<u8>>,
    bucket: Seq<char>,
    met: bool,
) -> bool {
    stored(rows, bucket) matches Some(row) && row.deadline_total < u64::MAX && (met
        ==> row.deadline_ok < u64::MAX)
}

/// The row that was fetched: the empty one for none, `None` for bytes that are no row.
pub fn row_of(fetched: Option<Vec<u8>>) -> (r: Option<AggregateRow>)
    ensures
        match (
            match fetched {
                Some(bytes) => crate::observation::aggregate::RowView::decoded(bytes@),
                None => Some(crate::observation::aggregate::RowView::empty()),
            },
            r,
        ) {
            (Some(view), Some(row)) => row@ == view,
            (None, None) => true,
            _ => false,
        },
{
    match fetched {
        Some(bytes) => AggregateRow::from_bytes(&bytes),
        None => Some(AggregateRow::default()),
    }
}

/// Two tables in one file: the statistics of each bucket, and the log of decisions.
///
/// A bucket is named by a text such as `move/sim/268435456/cpu-lo/io-lo/gpu-lo`.
pub struct ObservationStore {
    db: redb::Database,
}

impl ObservationStore {
    /// The stored statistics, by bucket.
    pub closed spec fn rows(&self) -> Map<Seq<char>, Seq<u8>> {
        text_rows(self.db, "observations"@)
    }

    /// The stored events, by decision.
    pub closed spec fn events(&self) -> Map<u64, Seq<u8>> {
        numbered_rows(self.db, "events"@)
    }

    /// The tables of the file, by name.  A table can be read once it is among them.
    pub closed spec fn tables(&self) -> Set<Seq<char>> {
        table_names(self.db)
    }

    /// The path that the store was opened at.
    pub closed spec fn path(&self) -> Seq<char> {
        path_of(self.db)
    }

    /// Opens the store at `path`, or makes one.  Both its tables are there, be it without rows.
    pub fn open(path: &str) -> (r: Result<ObservationStore>)
        ensures
            r matches Ok(store) ==> {
                &&& store.path() == path@
                &&& store.tables().contains("observations"@)
                &&& store.tables().contains("events"@)
            },
            r matches Err(e) ==> e is Store,
    {
        match create(path) {
            Ok(db) => {
                let mut store = ObservationStore { db };
                match store.init() {
                    Ok(()) => Ok(store),
                    Err(e) => Err(e),
                }
            },
            Err(e) => Err(Error::from(e)),
        }
    }

    /// Makes the tables that are not there yet.
    fn init(&mut self) -> (r: Result<()>)
        ensures
            final(self).path() == old(self).path(),
            r is Ok ==> final(self).tables() == old(self).tables().insert("observations"@).insert(
                "events"@,
            ),
            r is Ok ==> final(self).rows() == old(self).rows(),
            r is Ok ==> final(self).events() == old(self).events(),
            r matches Err(e) ==> e is Store,
    {
        proof {
            reveal_strlit("observations");
            reveal_strlit("events");
        }
        match make_tables(&mut self.db, "observations", "events") {
            Ok(()) => Ok(()),
            Err(e) => Err(Error::from(e)),
        }
    }

    /// Records one completion time, in ms, for a bucket.
    ///
    /// A bucket whose stored bytes are no row, or whose count is at its limit, is refused.
    pub fn record(&mut self, bucket: &str, duration_ms: F64) -> (r: Result<()>)
        ensures
            final(self).path() == old(self).path(),
            r is Ok ==> final(self).tables() == old(self).tables(),
            r is Ok ==> takes_sample(old(self).rows(), bucket@),
            r is Ok ==> exists|now: u64|
                final(self).rows() == #[trigger] after_sample(
                    old(self).rows(),
                    bucket@,
                    duration_ms,
                    now,
                ),
            r is Ok ==> final(self).events() == old(self).events(),
            r matches Err(e) ==> e is Store || e is Invalid,
            r matches Err(Error::Invalid(_)) ==> !takes_sample(old(self).rows(), bucket@)
                && *final(self) == *old(self),
    {
        proof {
            reveal_strlit("observations");
            reveal_strlit("events");
        }
        let fetched = match get_text(&self.db, "observations", bucket) {
            Ok(f) => f,
            Err(e) => return Err(Error::from(e)),
        };
        match row_of(fetched) {
            Some(mut row) => {
                if row.sample_count == u64::MAX {
                    return Err(invalid("sample count at its limit"));
                }
                let now = now_unix_ms();
                row.push_at(duration_ms, F64 { bits: DEFAULT_ALPHA }, DEFAULT_RESERVOIR, now);
                let bytes = row.as_bytes();
                match put_text(&mut self.db, "observations", bucket, &bytes) {
                    Ok(()) => {
                        assert(self.rows() == after_sample(
                            old(self).rows(),
                            bucket@,
                            duration_ms,
                            now,
                        ));
                        Ok(())
                    },
                    Err(e) => Err(Error::from(e)),
                }
            },
            None => Err(invalid("stored row cannot be read")),
        }
    }

    /// Records whether a deadline was met, for a bucket.
    ///
    /// A bucket whose stored bytes are no row, or whose count is at its limit, is refused.
    pub fn record_deadline(&mut self, bucket: &str, met: bool) -> (r: Result<()>)
        ensures
            final(self).path() == old(self).path(),
            r is Ok ==> final(self).tables() == old(self).tables(),
            r is Ok ==> takes_deadline(old(self).rows(), bucket@, met),
            r is Ok ==> final(self).rows() == after_deadline(old(self).rows(), bucket@, met),
            r is Ok ==> final(self).events() == old(self).events(),
            r matches Err(e) ==> e is Store || e is Invalid,
            r matches Err(Error::Invalid(_)) ==> !takes_deadline(old(self).rows(), bucket@, met)
                && *final(self) == *old(self),
    {
        proof {
            reveal_strlit("observations");
            reveal_strlit("events");
        }
        let fetched = match get_text(&self.db, "observations", bucket) {
            Ok(f) => f,
            Err(e) => return Err(Error::from(e)),
        };
        match row_of(fetched) {
            Some(mut row) => {
                if row.deadline_total == u64::MAX || (met && row.deadline_ok == u64::MAX) {
                    return Err(invalid("deadline count at its limit"));
                }
                row.record_deadline(met);
                let bytes = row.as_bytes();
                match put_text(&mut self.db, "observations", bucket, &bytes) {
                    Ok(()) => Ok(()),
                    Err(e) => Err(Error::from(e)),
                }
            },
            None => Err(invalid("stored row cannot be read")),
        }
    }

    /// The statistics of a bucket; `None` if nothing was recorded for it.
    pub fn aggregate(&self, bucket: &str) -> (r: Result<Option<AggregateRow>>)
        ensures
            match r {
                Ok(Some(row)) => self.rows().contains_key(bucket@) && stored(self.rows(), bucket@)
                    == Some(row@),
                Ok(None) => !self.rows().contains_key(bucket@),
                Err(Error::Invalid(_)) => stored(self.rows(), bucket@) is None,
                Err(e) => e is Store,
            },
            r is Ok ==> self.tables().contains("observations"@),
    {
        proof {
            reveal_strlit("observations");
        }
        match get_text(&self.db, "observations", bucket) {
            Ok(Some(bytes)) => match AggregateRow::from_bytes(&bytes) {
                Some(row) => Ok(Some(row)),
                None => Err(invalid("stored row cannot be read")),
            },
            Ok(None) => Ok(None),
            Err(e) => Err(Error::from(e)),
        }
    }

    /// Writes an event to the log, under its decision's id.
    pub fn log_event(&mut self, event: DecisionEvent) -> (r: Result<()>)
        ensures
            final(self).path() == old(self).path(),
            r is Ok ==> final(self).tables() == old(self).tables().insert("events"@),
            r is Ok ==> final(self).events() == old(self).events().insert(
                event.decision_id,
                event@.encoded(),
            ),
            r is Ok ==> final(self).rows() == old(self).rows(),
            r matches Err(e) ==> e is Store,
    {
        proof {
            reveal_strlit("observations");
            reveal_strlit("events");
        }
        let bytes = event.as_bytes();
        match put_numbered(&mut self.db, "events", event.decision_id, &bytes) {
            Ok(()) => Ok(()),
            Err(e) => Err(Error::from(e)),
        }
    }

    /// The number of events in the log.
    pub fn event_count(&self) -> (r: Result<u64>)
        ensures
            match r {
                Ok(n) => self.events().dom().finite() && n == self.events().len(),
                Err(e) => e is Store,
            },
            r is Ok ==> self.tables().contains("events"@),
    {
        proof {
            reveal_strlit("events");
        }
        match count_numbered(&self.db, "events") {
            Ok(n) => Ok(n),
            Err(e) => Err(Error::from(e)),
        }
    }

    /// The greatest id in the log; `None` if the log is empty.
    pub fn last_event_id(&self) -> (r: Result<Option<u64>>)
        ensures
            match r {
                Ok(Some(k)) => self.events().contains_key(k) && forall|j: u64| #[trigger]
                    self.events().contains_key(j) ==> j <= k,
                Ok(None) => forall|j: u64| ! #[trigger] self.events().contains_key(j),
                Err(e) => e is Store,
            },
            r is Ok ==> self.tables().contains("events"@),
    {
        proof {
            reveal_strlit("events");
        }
        match greatest_number(&self.db, "events") {
            Ok(k) => Ok(k),
            Err(e) => Err(Error::from(e)),
        }
    }
}

/// A stored row never has more samples than its length field can say.
proof fn lemma_stored_length(rows: Map<Seq<char>, Seq<u8>>, bucket: Seq<char>)
    ensures
        stored(rows, bucket) matches Some(row) ==> row.samples.len() <= u64::MAX,
{
    reveal(crate::observation::codec::read_vec_f64);
}

/// A recorded sample is in its bucket's row when that is read next, and no other bucket changes.
pub proof fn sample_is_read_back(
    rows: Map<Seq<char>, Seq<u8>>,
    bucket: Seq<char>,
    x: F64,
    now: u64,
    other: Seq<char>,
)
    requires
        takes_sample(rows, bucket),
        other != bucket,
    ensures
        stored(after_sample(rows, bucket, x, now), bucket) == Some(
            stored(rows, bucket)->0.with_sample(
                x,
                F64 { bits: DEFAULT_ALPHA },
                DEFAULT_RESERVOIR as nat,
                now,
            ),
        ),
        stored(after_sample(rows, bucket, x, now), other) == stored(rows, other),
{
    let row = stored(rows, bucket)->0.with_sample(
        x,
        F64 { bits: DEFAULT_ALPHA },
        DEFAULT_RESERVOIR as nat,
        now,
    );
    lemma_stored_length(rows, bucket);
    crate::observation::aggregate::row_round_trip(row, Seq::empty());
    assert(row.encoded() + Seq::<u8>::empty() =~= row.encoded());
}

/// A recorded deadline is in its bucket's row when that is read next, and no other bucket
/// changes.
pub proof fn deadline_is_read_back(
    rows: Map<Seq<char>, Seq<u8>>,
    bucket: Seq<char>,
    met: bool,
    other: Seq<char>,
)
    requires
        takes_deadline(rows, bucket, met),
        other != bucket,
    ensures
        stored(after_deadline(rows, bucket, met), bucket) == Some(
            stored(rows, bucket)->0.with_deadline(met),
        ),
        stored(after_deadline(rows, bucket, met), other) == stored(rows, other),
{
    let row = stored(rows, bucket)->0.with_deadline(met);
    lemma_stored_length(rows, bucket);
    crate::observation::aggregate::row_round_trip(row, Seq::empty());
    assert(row.encoded() + Seq::<u8>::empty() =~= row.encoded());
}

/// A sample leaves it open whether its bucket takes a deadline.
pub proof fn samples_leave_deadlines(
    rows: Map<Seq<char>, Seq<u8>>,
    bucket: Seq<char>,
    x: F64,
    now: u64,
    met: bool,
)
    requires
        takes_sample(rows, bucket),
    ensures
        takes_deadline(after_sample(rows, bucket, x, now), bucket, met) == takes_deadline(
            rows,
            bucket,
            met,
        ),
{
    let other = bucket.push('/');
    assert(other.len() != bucket.len());
    sample_is_read_back(rows, bucket, x, now, other);
}

/// There are only so many ids.
proof fn lemma_ids_are_finite(ids: Set<u64>, bound: nat)
    requires
        forall|k: u64| #[trigger] ids.contains(k) ==> k < bound,
    ensures
        ids.finite(),
    decreases bound,
{
    if bound == 0 {
        assert(ids =~= Set::empty());
    } else if bound <= 0x1_0000_0000_0000_0000 {
        let last = (bound - 1) as u64;
        lemma_ids_are_finite(ids.remove(last), (bound - 1) as nat);
        assert(ids.subset_of(ids.remove(last).insert(last)));
        vstd::set_lib::lemma_set_subset_finite(ids.remove(last).insert(last), ids);
    } else {
        lemma_ids_are_finite(ids, (bound - 1) as nat);
    }
}

/// Logging an event under a new id makes the log one longer; under a used id it replaces that
/// event.
pub proof fn log_grows_by_new_ids(events: Map<u64, Seq<u8>>, id: u64, bytes: Seq<u8>)
    ensures
        events.dom().finite(),
        events.insert(id, bytes).len() == if events.contains_key(id) {
            events.len()
        } else {
            events.len() + 1
        },
        events.insert(id, bytes)[id] == bytes,
{
    lemma_ids_are_finite(events.dom(), 0x1_0000_0000_0000_0000);
}

/// A logged event is the event that was logged when it is read, and no other event changes.
pub proof fn event_is_read_back(
    events: Map<u64, Seq<u8>>,
    e: crate::observation::event::EventView,
    other: u64,
)
    requires
        vstd::utf8::encode_utf8(e.resource_snapshot).len() <= u64::MAX,
        vstd::utf8::encode_utf8(e.chosen_action).len() <= u64::MAX,
        e.predicted_costs_ms.len() <= u64::MAX,
        other != e.decision_id,
    ensures
        crate::observation::event::EventView::decoded(
            events.insert(e.decision_id, e.encoded())[e.decision_id],
        ) == Some(e),
        events.insert(e.decision_id, e.encoded()).contains_key(other) == events.contains_key(other),
        events.insert(e.decision_id, e.encoded())[other] == events[other],
{
    crate::observation::event::event_round_trip(e, Seq::empty());
    assert(e.encoded() + Seq::<u8>::empty() =~= e.encoded());
}

/// A recorded sample enters its row with the weight of a tenth, beside at most 8192 retained ones;
/// in a bucket that has none it is the first.
pub proof fn samples_are_smoothed_by_a_tenth(
    rows: Map<Seq<char>, Seq<u8>>,
    bucket: Seq<char>,
    x: F64,
    now: u64,
)
    requires
        takes_sample(rows, bucket),
    ensures
        stored(after_sample(rows, bucket, x, now), bucket) == Some(
            stored(rows, bucket)->0.with_sample(
                x,
                F64 { bits: 0x3FB9_9999_9999_999A },
                8192,
                now,
            ),
        ),
        !rows.contains_key(bucket) ==> (stored(
            after_sample(rows, bucket, x, now),
            bucket,
        ) matches Some(row) && row.sample_count == 1 && row.ewma_mean == x),
        after_sample(rows, bucket, x, now).contains_key(bucket),
{
    let other = bucket.push('/');
    assert(other.len() != bucket.len());
    sample_is_read_back(rows, bucket, x, now, other);
}

} // verus!
