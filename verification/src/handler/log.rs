//! The `log` command: checks a new record against the calendar and the log.

use vstd::prelude::*;
use crate::cli::log::{Arguments, model_half_day, model_mode, model_record_type};
use crate::date::Date;
use crate::error::Error;
use crate::handler::day::{category, category_of};
use crate::handler::records::{Records, holds_key, is_latest, latest_is_active, on_date, with_key, record_views};
use crate::model::{Category, HalfDay, Key, Mode, Record, RecordView, description_view};
use crate::time::{is_local_date_of, local_date, now_nanos, timestamp_in_range};

verus! {

/// The key for a date, whole or for one half.
pub open spec fn key_on(date: Date, half: Option<HalfDay>) -> Key {
    match half {
        None => Key::FullDay(date),
        Some(h) => Key::HalfDay { date, half: h },
    }
}

/// `r` is a record that the arguments describe: its fields come from them, and
/// its date is the one given or else `today`.
pub open spec fn fits_arguments(r: RecordView, args: Arguments, today: Date) -> bool {
    &&& r.mode == model_mode(args.mode)
    &&& r.record_type == model_record_type(args.record_type)
    &&& r.description == description_view(args.description)
    &&& r.key == key_on(r.key.date_value(), model_half_day(args.half_day))
    &&& match args.date {
        Some(d) => r.key.date_value() == d,
        None => r.key.date_value() == today,
    }
    &&& timestamp_in_range(r.created)
}

/// Whether logging `record` on top of `recs` is allowed, and if not, why:
/// bank holidays and weekends are refused; on a workday a record may create
/// an entry only where the log holds none, and append or delete only where it
/// holds one.
pub open spec fn log_result(recs: Seq<RecordView>, record: RecordView) -> Result<(), Error> {
    let date = record.key.date_value();
    match category_of(date@) {
        Category::BankHoliday => Err(Error::IsBankHoliday(date)),
        Category::Weekend(day) => Err(Error::IsWeekend(date, day)),
        Category::Workday => {
            let held = holds_key(recs, record.key);
            if held && record.mode == Mode::Create {
                Err(Error::RecordExistsForDate(date))
            } else if !held && record.mode == Mode::Append {
                Err(Error::NoRecordToAppend(date))
            } else if !held && record.mode == Mode::Delete {
                Err(Error::NoRecordToDelete(date))
            } else {
                Ok(())
            }
        },
    }
}

/// A random (version 4) UUID from the uuid crate, as a number. Claims only the
/// version and variant bits that `Uuid::new_v4` sets.
#[verifier::external_body]
fn new_record_id() -> (id: u128)
    ensures
        id & 0x0000_0000_0000_f000_c000_0000_0000_0000 == 0x0000_0000_0000_4000_8000_0000_0000_0000,
{
    uuid::Uuid::new_v4().as_u128()
}

/// The record that the arguments describe, with the given id and creation
/// time, dated `today` unless the arguments give a date.
pub fn record_from(args: &Arguments, id: u128, created: i128, today: &Date) -> (r: Record)
    requires
        timestamp_in_range(created as int),
    ensures
        r@.id == id,
        r@.created == created,
        fits_arguments(r@, *args, *today),
{
    let date: Date = match args.date() {
        Some(d) => *d,
        None => *today,
    };
    let key = match args.half_day() {
        None => Key::FullDay(date),
        Some(half) => Key::HalfDay { date, half },
    };
    let description = match args.description() {
        Some(d) => Some(d.clone()),
        None => None,
    };
    Record::new(id, created, args.mode(), args.record_type(), key, description)
}

/// Checks `record` against the calendar and against the log.
pub fn check(records: &Records, record: &Record) -> (res: Result<(), Error>)
    ensures
        res == log_result(records@, record@),
{
    let key = record.key();
    let date = key.date();
    match category(&date) {
        Category::BankHoliday => Err(Error::IsBankHoliday(date)),
        Category::Weekend(day) => Err(Error::IsWeekend(date, day)),
        Category::Workday => {
            let held = records.contains(&key);
            match (held, record.mode()) {
                (true, Mode::Create) => Err(Error::RecordExistsForDate(date)),
                (false, Mode::Append) => Err(Error::NoRecordToAppend(date)),
                (false, Mode::Delete) => Err(Error::NoRecordToDelete(date)),
                _ => Ok(()),
            }
        },
    }
}

/// Logs with a given id, creation time and date of today: the record to add
/// to the log, or the reason it may not be added.
pub fn log_with(args: &Arguments, records: Vec<Record>, id: u128, created: i128, today: &Date) -> (res: Result<Record, Error>)
    requires
        timestamp_in_range(created as int),
    ensures
        match res {
            Ok(r) => r@.id == id && r@.created == created && fits_arguments(r@, *args, *today)
                && log_result(record_views(records@), r@) is Ok,
            Err(e) => exists|r: RecordView| r.id == id && r.created == created && fits_arguments(r, *args, *today)
                && log_result(record_views(records@), r) == Err::<(), Error>(e),
        },
{
    let records = Records::new(records);
    let record = record_from(args, id, created, today);
    match check(&records, &record) {
        Ok(()) => Ok(record),
        Err(e) => Err(e),
    }
}

/// The `log` command: the record to add to the log, made now with a fresh
/// random id and dated today (the date of its creation in the system's time
/// zone) unless the arguments give a date, or the reason it may not be added.
pub fn log(args: &Arguments, records: Vec<Record>) -> (res: Result<Record, Error>)
    ensures
        match res {
            Ok(r) => exists|today: Date| today@.is_valid() && is_local_date_of(today@, r@.created)
                && #[trigger] fits_arguments(r@, *args, today) && log_result(record_views(records@), r@) is Ok,
            Err(e) => exists|r: RecordView, today: Date| today@.is_valid() && is_local_date_of(today@, r.created)
                && #[trigger] fits_arguments(r, *args, today) && log_result(record_views(records@), r) == Err::<(), Error>(e),
        },
{
    let created = now_nanos();
    let id = new_record_id();
    let today = local_date(created);
    log_with(args, records, id, created, &today)
}

/// A record made after every record of the log is the latest of any selection it belongs to.
proof fn lemma_newest_is_latest(recs: Seq<RecordView>, r: RecordView, pred: spec_fn(RecordView) -> bool)
    requires
        forall|i: int| 0 <= i < recs.len() ==> #[trigger] recs[i].created < r.created,
        pred(r),
    ensures
        is_latest(recs.push(r), pred, recs.len() as int),
{
    let all = recs.push(r);
    assert forall|j: int| 0 <= j < all.len() && #[trigger] pred(all[j]) implies all[j].created < all[recs.len() as int].created
        || (all[j].created == all[recs.len() as int].created && j <= recs.len()) by {
        if j < recs.len() {
            assert(all[j] == recs[j]);
        }
    }
}

/// Only one record is the latest of a selection.
proof fn lemma_latest_unique(recs: Seq<RecordView>, pred: spec_fn(RecordView) -> bool, i: int, j: int)
    requires
        is_latest(recs, pred, i),
        is_latest(recs, pred, j),
    ensures
        i == j,
{
}

/// Once a record that creates or appends is logged after every other record,
/// the log holds its key.
pub proof fn lemma_logged_key_is_held(recs: Seq<RecordView>, r: RecordView)
    requires
        forall|i: int| 0 <= i < recs.len() ==> #[trigger] recs[i].created < r.created,
        r.mode != Mode::Delete,
    ensures
        holds_key(recs.push(r), r.key),
{
    let all = recs.push(r);
    let n = recs.len() as int;
    match r.key {
        Key::FullDay(_) => {
            lemma_newest_is_latest(recs, r, on_date(r.key));
            assert(is_latest(all, on_date(r.key), n) && all[n].mode != Mode::Delete);
        },
        Key::HalfDay { .. } => {
            lemma_newest_is_latest(recs, r, with_key(r.key));
            assert(is_latest(all, with_key(r.key), n) && all[n].mode != Mode::Delete);
        },
    }
}

/// Once a record that deletes a full day is logged after every other record,
/// the log no longer holds that day.
pub proof fn lemma_deleted_day_is_free(recs: Seq<RecordView>, r: RecordView)
    requires
        forall|i: int| 0 <= i < recs.len() ==> #[trigger] recs[i].created < r.created,
        r.mode == Mode::Delete,
        r.key is FullDay,
    ensures
        !holds_key(recs.push(r), r.key),
{
    let all = recs.push(r);
    let n = recs.len() as int;
    lemma_newest_is_latest(recs, r, on_date(r.key));
    assert forall|i: int| #[trigger] is_latest(all, on_date(r.key), i) implies all[i].mode == Mode::Delete by {
        lemma_latest_unique(all, on_date(r.key), i, n);
    }
}

/// A half day is no longer held through its own records once a record that
/// deletes it is logged after every other record.
pub proof fn lemma_deleted_half_day_is_free(recs: Seq<RecordView>, r: RecordView)
    requires
        forall|i: int| 0 <= i < recs.len() ==> #[trigger] recs[i].created < r.created,
        r.mode == Mode::Delete,
        r.key is HalfDay,
    ensures
        !latest_is_active(recs.push(r), with_key(r.key)),
{
    let all = recs.push(r);
    let n = recs.len() as int;
    lemma_newest_is_latest(recs, r, with_key(r.key));
    assert forall|i: int| #[trigger] is_latest(all, with_key(r.key), i) implies all[i].mode == Mode::Delete by {
        lemma_latest_unique(all, with_key(r.key), i, n);
    }
}

/// Creating the same day twice is refused: after a record that creates a key
/// is logged (after every other record), another record that creates the
/// same key is refused because the key is held.
pub proof fn lemma_create_twice_refused(recs: Seq<RecordView>, first: RecordView, second: RecordView)
    requires
        forall|i: int| 0 <= i < recs.len() ==> #[trigger] recs[i].created < first.created,
        first.mode == Mode::Create,
        second.mode == Mode::Create,
        second.key == first.key,
        log_result(recs, first) is Ok,
    ensures
        log_result(recs.push(first), second) == Err::<(), Error>(Error::RecordExistsForDate(first.key.date_value())),
{
    lemma_logged_key_is_held(recs, first);
}

/// A record that creates an entry on a workday is refused exactly when the
/// log holds its key, and then as an existing record for its date; in
/// particular the other half of a day whose one half is logged can be created.
pub proof fn lemma_create_refused_exactly_when_held(recs: Seq<RecordView>, r: RecordView)
    requires
        r.mode == Mode::Create,
        category_of(r.key.date_view()) == Category::Workday,
    ensures
        log_result(recs, r) is Err <==> holds_key(recs, r.key),
        log_result(recs, r) is Err ==> log_result(recs, r) == Err::<(), Error>(Error::RecordExistsForDate(r.key.date_value())),
{
}

/// A half day may be created on a workday when no record in the log is for
/// that same half nor for the whole day.
pub proof fn lemma_free_half_day_can_be_created(recs: Seq<RecordView>, r: RecordView)
    requires
        r.mode == Mode::Create,
        r.key is HalfDay,
        category_of(r.key.date_view()) == Category::Workday,
        forall|i: int| 0 <= i < recs.len() ==> recs[i].key != r.key
            && !(recs[i].key is FullDay && recs[i].key.date_view() == r.key.date_view()),
    ensures
        log_result(recs, r) is Ok,
{
    if latest_is_active(recs, crate::handler::records::full_day_on_date(r.key)) {
        let i = choose|i: int| #[trigger] is_latest(recs, crate::handler::records::full_day_on_date(r.key), i)
            && recs[i].mode != Mode::Delete;
    }
    if latest_is_active(recs, with_key(r.key)) {
        let i = choose|i: int| #[trigger] is_latest(recs, with_key(r.key), i) && recs[i].mode != Mode::Delete;
    }
}

} // verus!
