//! The `summary` command: attendance month by month.

use std::collections::HashMap;
use vstd::prelude::*;
use crate::date::{Date, DateView, days_in_month, month_index, month_length, month_start};
use crate::handler::day::{category, category_of};
use crate::handler::records::{is_latest, record_views, with_key};
use crate::sorting::{is_stable_order, sorts_before, stable_order};
use crate::cli::summary::Arguments;
use crate::time::local_today;
use crate::model::{Category, Key, Mode, Record, RecordType, RecordView, Summary, lemma_key_rank_injective};

verus! {

/// The first days of the `n` months up to the one of `today`, latest first;
/// fewer where jiff's date range or its spans (at most 239976 months) end.
pub open spec fn last_months(n: int, today: DateView) -> Seq<DateView> {
    let available = (today.year + 9999) * 12 + today.month;
    let count = if n < available { n } else { available };
    let count = if count < 239977 { count } else { 239977 };
    Seq::new(count as nat, |k: int| month_start(month_index(today) - k))
}

/// What a date weighs, in half days, towards the working days of a summary:
/// two, unless some record that is not an office day falls on it, in which
/// case the last such record decides: one for a half day, none for a full day.
pub open spec fn day_weight(recs: Seq<RecordView>, d: DateView) -> int
    decreases recs.len(),
{
    if recs.len() == 0 {
        2
    } else {
        let r = recs.last();
        if r.record_type != RecordType::Office && r.key.date_view() == d {
            if r.key.is_half_day() { 1 } else { 0 }
        } else {
            day_weight(recs.drop_last(), d)
        }
    }
}

/// The half days of work from day `day` of the month to its end: the weights
/// of the workdays among them.
pub open spec fn workday_halves_from(recs: Seq<RecordView>, year: int, month: int, day: int) -> int
    decreases month_length(year, month) + 1 - day,
{
    if day < 1 || day > month_length(year, month) {
        0
    } else {
        let d = DateView { year, month, day };
        (if category_of(d) == Category::Workday { day_weight(recs, d) } else { 0 })
            + workday_halves_from(recs, year, month, day + 1)
    }
}

/// How many of the records are office days.
pub open spec fn office_count(recs: Seq<RecordView>) -> int
    decreases recs.len(),
{
    if recs.len() == 0 {
        0
    } else {
        office_count(recs.drop_last()) + if recs.last().record_type == RecordType::Office { 1int } else { 0 }
    }
}

/// Office days over working days, in thousandths, rounded half up:
/// office / (halves / 2) * 1000.
pub open spec fn attendance_of(office: int, halves: int) -> Option<int> {
    if halves == 0 {
        None
    } else {
        Some((4000 * office + halves) / (2 * halves))
    }
}

/// `s` summarises `recs` for the month from `start` to its end.
pub open spec fn summarises(s: Summary, start: DateView, recs: Seq<RecordView>) -> bool {
    let halves = workday_halves_from(recs, start.year, start.month, start.day);
    &&& s.month@ == start
    &&& s.office_days == office_count(recs)
    &&& s.workday_halves == halves
    &&& match s.attendance_thousandths {
        Some(a) => attendance_of(office_count(recs), halves) == Some(a as int),
        None => attendance_of(office_count(recs), halves) is None,
    }
}

/// The first days of the last `n` months, latest first (see [`last_months`]).
pub fn last_n_months(n: usize, today: &Date) -> (res: Vec<Date>)
    ensures
        res@.map_values(|d: Date| d@) == last_months(n as int, today@),
{
    let mut year = today.year();
    let mut month = today.month();
    let ghost start = month_index(today@);
    let mut res: Vec<Date> = Vec::new();
    let mut k: usize = 0;
    while k < n && k < 239977 && year >= -9999
        invariant
            start == month_index(today@),
            -10000 <= year <= 9999,
            1 <= month <= 12,
            k <= 239977,
            year * 12 + month - 1 == start - k,
            year >= -9999 ==> k <= (today@.year + 9999) * 12 + today@.month - 1,
            year < -9999 ==> k == (today@.year + 9999) * 12 + today@.month,
            k <= n,
            res@.len() == k,
            forall|j: int| 0 <= j < k ==> (#[trigger] res@[j])@ == month_start(start - j),
        decreases n - k,
    {
        let d = Date::new(year, month, 1).unwrap();
        proof {
            assert(month_start(start - k) == DateView { year: year as int, month: month as int, day: 1 });
        }
        res.push(d);
        if month == 1 {
            year = year - 1;
            month = 12;
        } else {
            month = month - 1;
        }
        k = k + 1;
    }
    proof {
        assert(res@.map_values(|d: Date| d@) =~= last_months(n as int, today@));
    }
    res
}

/// Whether the record falls in one of the months (given by their first days).
pub fn record_in_months(record: &Record, months: &Vec<Date>) -> (b: bool)
    ensures
        b == months@.map_values(|d: Date| d@).contains(record@.key.date_view().first_of_month()),
{
    let month = record.key().date().first_of_month();
    let ghost views = months@.map_values(|d: Date| d@);
    let mut i: usize = 0;
    while i < months.len()
        invariant
            i <= months@.len(),
            views == months@.map_values(|d: Date| d@),
            month@ == record@.key.date_view().first_of_month(),
            forall|j: int| 0 <= j < i ==> views[j] != month@,
        decreases months@.len() - i,
    {
        proof { crate::date::lemma_date_view_injective(months@[i as int], month); }
        if months[i] == month {
            proof { assert(views[i as int] == month@); }
            return true;
        }
        i = i + 1;
    }
    false
}

/// The dates (by rank) on which a record that is not an office day falls,
/// each with the weight in half days that the last such record leaves it:
/// one for a half day, none for a full day.
pub open spec fn excluded_days(recs: Seq<RecordView>) -> Map<u64, u64>
    decreases recs.len(),
{
    if recs.len() == 0 {
        Map::empty()
    } else {
        let earlier = excluded_days(recs.drop_last());
        let r = recs.last();
        if r.record_type != RecordType::Office {
            earlier.insert(r.key.date_view().rank() as u64, if r.key.is_half_day() { 1 } else { 0 })
        } else {
            earlier
        }
    }
}

/// A date's weight is the one its rank maps to among the excluded days, or
/// two when it maps to none.
proof fn lemma_excluded_days(recs: Seq<RecordView>, d: Date)
    ensures
        excluded_days(recs).contains_key(d@.rank() as u64) ==> excluded_days(recs)[d@.rank() as u64] == day_weight(recs, d@),
        !excluded_days(recs).contains_key(d@.rank() as u64) ==> day_weight(recs, d@) == 2,
        0 <= day_weight(recs, d@) <= 2,
    decreases recs.len(),
{
    if recs.len() > 0 {
        lemma_excluded_days(recs.drop_last(), d);
        let r = recs.last();
        crate::date::lemma_date_bounds(d);
        crate::date::lemma_date_bounds(r.key.date_value());
        crate::date::lemma_rank_bounds(d@);
        crate::date::lemma_rank_bounds(r.key.date_view());
        if r.key.date_view().rank() == d@.rank() {
            crate::date::lemma_rank_injective(r.key.date_view(), d@);
        }
    }
}

/// The excluded days of the records (see [`excluded_days`]), collected into
/// a hash map keyed by the dates' ranks.
fn excluded_days_of(records: &Vec<Record>) -> (m: HashMap<u64, u64>)
    ensures
        m@ == excluded_days(record_views(records@)),
{
    broadcast use vstd::std_specs::hash::group_hash_axioms;
    let ghost recs = record_views(records@);
    let mut excluded: HashMap<u64, u64> = HashMap::new();
    let n = records.len();
    for i in 0..n
        invariant
            n == records@.len(),
            recs == record_views(records@),
            excluded@ == excluded_days(recs.take(i as int)),
    {
        proof { assert(recs.take(i + 1).drop_last() =~= recs.take(i as int)); }
        let r = &records[i];
        if r.record_type() != RecordType::Office {
            let key = r.key();
            let weight: u64 = if key.half_day() { 1 } else { 0 };
            excluded.insert(key.date().rank(), weight);
        }
    }
    proof { assert(recs.take(n as int) =~= recs); }
    excluded
}

/// Summarises the records for the month from `month` to its end.
pub fn summarise_month(month: &Date, records: &Vec<Record>) -> (s: Summary)
    ensures
        summarises(s, month@, record_views(records@)),
{
    broadcast use vstd::std_specs::hash::group_hash_axioms;
    let ghost recs = record_views(records@);
    let excluded = excluded_days_of(records);
    let year = month.year();
    let m = month.month();
    let last = days_in_month(year, m);
    let first = month.day();
    let mut halves: u64 = 0;
    let mut day: i8 = first;
    while day <= last
        invariant
            recs == record_views(records@),
            year as int == month@.year,
            m as int == month@.month,
            1 <= m <= 12,
            crate::date::year_in_range(year as int),
            last as int == month_length(year as int, m as int),
            28 <= last <= 31,
            first as int == month@.day,
            1 <= first <= day <= last + 1,
            halves <= 2 * (day - first),
            excluded@ == excluded_days(recs),
            halves + workday_halves_from(recs, year as int, m as int, day as int)
                == workday_halves_from(recs, year as int, m as int, first as int),
        decreases last + 1 - day,
    {
        let date = Date::new(year, m, day).unwrap();
        if category(&date) == Category::Workday {
            proof { lemma_excluded_days(recs, date); }
            let weight: u64 = match excluded.get(&date.rank()) {
                Some(w) => *w,
                None => 2,
            };
            halves = halves + weight;
        }
        day = day + 1;
    }
    let mut office: u64 = 0;
    let mut i: usize = 0;
    while i < records.len()
        invariant
            recs == record_views(records@),
            i <= records@.len(),
            office <= i,
            office as int == office_count(recs.take(i as int)),
        decreases records@.len() - i,
    {
        proof { assert(recs.take(i + 1).drop_last() =~= recs.take(i as int)); }
        if records[i].record_type() == RecordType::Office {
            office = office + 1;
        }
        i = i + 1;
    }
    proof { assert(recs.take(records@.len() as int) =~= recs); }
    let attendance = if halves == 0 {
        None
    } else {
        Some((4000 * (office as u128) + halves as u128) / (2 * halves as u128))
    };
    Summary { month: *month, office_days: office, workday_halves: halves, attendance_thousandths: attendance }
}

/// Record `i` falls in one of the months (given by their first days).
pub open spec fn in_months(recs: Seq<RecordView>, months: Seq<DateView>, i: int) -> bool {
    &&& 0 <= i < recs.len()
    &&& months.contains(recs[i].key.date_view().first_of_month())
}

/// Record `i` is the current state of its key within the months: it falls in
/// them, it is the latest record with its key, and it does not delete.
pub open spec fn is_current(recs: Seq<RecordView>, months: Seq<DateView>, i: int) -> bool {
    &&& in_months(recs, months, i)
    &&& is_latest(recs, with_key(recs[i].key), i)
    &&& recs[i].mode != Mode::Delete
}

/// `d` lists the current records of the months, one per key, in key order.
pub open spec fn is_current_positions(recs: Seq<RecordView>, months: Seq<DateView>, d: Seq<int>) -> bool {
    &&& forall|k: int| 0 <= k < d.len() ==> is_current(recs, months, #[trigger] d[k])
    &&& forall|k: int, l: int| 0 <= k < l < d.len() ==> recs[d[k]].key.sort_rank() < recs[d[l]].key.sort_rank()
    &&& forall|i: int| #[trigger] is_current(recs, months, i) ==> d.contains(i)
}

/// The positions of the current records of the months (see [`is_current_positions`]):
/// the records in the months are stably sorted by key and creation time, and
/// the last of each key is kept unless it deletes.
pub fn current_positions(records: &Vec<Record>, months: &Vec<Date>) -> (res: Vec<usize>)
    ensures
        is_current_positions(record_views(records@), months@.map_values(|d: Date| d@), res@.map_values(|i: usize| i as int)),
{
    let ghost recs = record_views(records@);
    let ghost ms = months@.map_values(|d: Date| d@);
    let n = records.len();
    let mut positions: Vec<usize> = Vec::new();
    let mut keys: Vec<(u64, i128)> = Vec::new();
    for i in 0..n
        invariant
            n == records@.len(),
            recs == record_views(records@),
            ms == months@.map_values(|d: Date| d@),
            positions@.len() == keys@.len(),
            forall|k: int| 0 <= k < positions@.len() ==> #[trigger] positions@[k] < i,
            forall|k: int, l: int| 0 <= k < l < positions@.len() ==> positions@[k] < positions@[l],
            forall|k: int| 0 <= k < positions@.len() ==> in_months(recs, ms, #[trigger] positions@[k] as int),
            forall|k: int| 0 <= k < positions@.len() ==> (#[trigger] keys@[k]).0 as int == recs[positions@[k] as int].key.sort_rank()
                && keys@[k].1 as int == recs[positions@[k] as int].created,
            forall|j: int| 0 <= j < i && in_months(recs, ms, j) ==> #[trigger] positions@.contains(j as usize),
    {
        let r = &records[i];
        let ghost old_positions = positions@;
        if record_in_months(r, months) {
            positions.push(i);
            keys.push((r.key().rank(), r.created()));
        }
        proof {
            assert forall|j: int| 0 <= j < i + 1 && in_months(recs, ms, j) implies #[trigger] positions@.contains(j as usize) by {
                if j == i {
                    assert(positions@[positions@.len() - 1] == i);
                } else {
                    assert(old_positions.contains(j as usize));
                    let k = choose|k: int| 0 <= k < old_positions.len() && old_positions[k] == j as usize;
                    assert(positions@[k] == j as usize);
                }
            }
        }
    }
    let order = stable_order(&keys);
    let len = order.len();
    let mut out: Vec<usize> = Vec::new();
    let ghost mut qs: Seq<int> = Seq::empty();
    for q in 0..len
        invariant
            len == order@.len(),
            len == keys@.len(),
            n == records@.len(),
            recs == record_views(records@),
            ms == months@.map_values(|d: Date| d@),
            positions@.len() == keys@.len(),
            forall|k: int, l: int| 0 <= k < l < positions@.len() ==> positions@[k] < positions@[l],
            forall|k: int| 0 <= k < positions@.len() ==> #[trigger] positions@[k] < n,
            forall|k: int| 0 <= k < positions@.len() ==> in_months(recs, ms, #[trigger] positions@[k] as int),
            forall|k: int| 0 <= k < positions@.len() ==> (#[trigger] keys@[k]).0 as int == recs[positions@[k] as int].key.sort_rank()
                && keys@[k].1 as int == recs[positions@[k] as int].created,
            forall|j: int| 0 <= j < n && in_months(recs, ms, j) ==> #[trigger] positions@.contains(j as usize),
            is_stable_order(keys@, order@),
            out@.len() == qs.len(),
            forall|k: int| 0 <= k < qs.len() ==> 0 <= #[trigger] qs[k] < q,
            forall|k: int, l: int| 0 <= k < l < qs.len() ==> qs[k] < qs[l],
            forall|k: int| 0 <= k < qs.len() ==> out@[k] == positions@[order@[#[trigger] qs[k]] as int],
            forall|k: int| 0 <= k < qs.len() ==> is_current(recs, ms, #[trigger] out@[k] as int),
            forall|k: int| 0 <= k < qs.len() ==> #[trigger] qs[k] + 1 == len || keys@[order@[qs[k] + 1] as int].0 != keys@[order@[qs[k]] as int].0,
            forall|r: int| 0 <= r < q && is_current(recs, ms, positions@[#[trigger] order@[r] as int] as int) ==> qs.contains(r),
    {
        let k = order[q];
        let last_of_key = q + 1 == len || keys[order[q + 1]].0 != keys[k].0;
        let i = positions[k];
        let ghost this_is_current = is_current(recs, ms, i as int);
        proof {
            let key = recs[i as int].key;
            if last_of_key {
                // Every other record with this key sorts before it.
                assert forall|j: int| 0 <= j < recs.len() && #[trigger] (with_key(key))(recs[j]) implies recs[j].created < recs[i as int].created
                    || (recs[j].created == recs[i as int].created && j <= i) by {
                    assert(in_months(recs, ms, j));
                    assert(positions@.contains(j as usize));
                    let kj = choose|kj: int| 0 <= kj < positions@.len() && positions@[kj] == j as usize;
                    assert(order@.contains(kj as usize));
                    let qj = choose|qj: int| 0 <= qj < order@.len() && order@[qj] == kj as usize;
                    if qj < q {
                        assert(sorts_before(keys@[order@[qj] as int], order@[qj] as int, keys@[order@[q as int] as int], order@[q as int] as int));
                        if kj > k as int {
                            assert(positions@[k as int] < positions@[kj]);
                        }
                    } else if qj > q {
                        assert(sorts_before(keys@[order@[q as int] as int], order@[q as int] as int, keys@[order@[q + 1] as int], order@[q + 1] as int));
                        if qj > q + 1 {
                            assert(sorts_before(keys@[order@[q + 1] as int], order@[q + 1] as int, keys@[order@[qj] as int], order@[qj] as int));
                        }
                    }
                }
            } else {
                // The next record in the order has the same key and was made later.
                let k2 = order@[q + 1] as int;
                let j = positions@[k2] as int;
                assert(sorts_before(keys@[order@[q as int] as int], order@[q as int] as int, keys@[order@[q + 1] as int], order@[q + 1] as int));
                lemma_key_rank_injective(recs[j].key, key);
                if recs[j].created == recs[i as int].created {
                    assert(positions@[k as int] < positions@[k2]);
                }
                assert((with_key(key))(recs[j]));
                assert(!is_latest(recs, with_key(key), i as int));
            }
        }
        if last_of_key && records[i].mode() != Mode::Delete {
            out.push(i);
            proof {
                let old_qs = qs;
                qs = qs.push(q as int);
                assert forall|r: int| 0 <= r < q + 1 && is_current(recs, ms, positions@[#[trigger] order@[r] as int] as int) implies qs.contains(r) by {
                    if r < q {
                        let kk = choose|kk: int| 0 <= kk < old_qs.len() && old_qs[kk] == r;
                        assert(qs[kk] == r);
                    } else {
                        assert(qs[qs.len() - 1] == r);
                    }
                }
            }
        } else {
            proof {
                assert forall|r: int| 0 <= r < q + 1 && is_current(recs, ms, positions@[#[trigger] order@[r] as int] as int) implies qs.contains(r) by {
                    if r == q {
                        assert(!this_is_current);
                    }
                }
            }
        }
    }
    proof {
        let d = out@.map_values(|i: usize| i as int);
        assert forall|k: int| 0 <= k < d.len() implies is_current(recs, ms, #[trigger] d[k]) by {
            assert(d[k] == out@[k] as int);
        }
        assert forall|k: int, l: int| 0 <= k < l < d.len() implies recs[d[k]].key.sort_rank() < recs[d[l]].key.sort_rank() by {
            let (qk, ql) = (qs[k], qs[l]);
            assert(qk + 1 != len);
            assert(sorts_before(keys@[order@[qk] as int], order@[qk] as int, keys@[order@[qk + 1] as int], order@[qk + 1] as int));
            if qk + 1 < ql {
                assert(sorts_before(keys@[order@[qk + 1] as int], order@[qk + 1] as int, keys@[order@[ql] as int], order@[ql] as int));
            }
        }
        assert forall|i: int| #[trigger] is_current(recs, ms, i) implies d.contains(i) by {
            assert(positions@.contains(i as usize));
            let ki = choose|ki: int| 0 <= ki < positions@.len() && positions@[ki] == i as usize;
            assert(order@.contains(ki as usize));
            let r = choose|r: int| 0 <= r < order@.len() && order@[r] == ki as usize;
            assert(qs.contains(r));
            let kk = choose|kk: int| 0 <= kk < qs.len() && qs[kk] == r;
            assert(d[kk] == i);
        }
    }
    out
}

/// The records grouped into runs of consecutive records in the same month,
/// each run with the first day of its month.
pub open spec fn month_chunks(recs: Seq<RecordView>) -> Seq<(DateView, Seq<RecordView>)>
    decreases recs.len(),
{
    if recs.len() == 0 {
        Seq::empty()
    } else {
        let earlier = month_chunks(recs.drop_last());
        let r = recs.last();
        let m = r.key.date_view().first_of_month();
        if earlier.len() > 0 && earlier.last().0 == m {
            earlier.update(earlier.len() - 1, (m, earlier.last().1.push(r)))
        } else {
            earlier.push((m, seq![r]))
        }
    }
}

/// `res` summarises each run of records in the same month, in order.
pub open spec fn summarises_chunks(res: Seq<Summary>, recs: Seq<RecordView>) -> bool {
    let chunks = month_chunks(recs);
    &&& res.len() == chunks.len()
    &&& forall|k: int| 0 <= k < res.len() ==> summarises(#[trigger] res[k], chunks[k].0, chunks[k].1)
}

/// Summarises each run of consecutive records that fall in the same month.
pub fn summarise(records: Vec<Record>) -> (res: Vec<Summary>)
    ensures
        summarises_chunks(res@, record_views(records@)),
{
    let ghost recs = record_views(records@);
    let mut out: Vec<Summary> = Vec::new();
    let mut current: Vec<Record> = Vec::new();
    let mut current_month: Option<Date> = None;
    let n = records.len();
    for i in 0..n
        invariant
            n == records@.len(),
            recs == record_views(records@),
            ({
                let chunks = month_chunks(recs.take(i as int));
                &&& i == 0 ==> chunks.len() == 0 && current_month is None && out@.len() == 0
                &&& i > 0 ==> {
                    &&& chunks.len() == out@.len() + 1
                    &&& current_month matches Some(m) && m@ == chunks.last().0
                    &&& record_views(current@) == chunks.last().1
                }
                &&& forall|k: int| 0 <= k < out@.len() ==> summarises(#[trigger] out@[k], chunks[k].0, chunks[k].1)
            }),
    {
        let r = records[i].duplicate();
        let month = r.key().date().first_of_month();
        let ghost prev = month_chunks(recs.take(i as int));
        let ghost t = recs.take(i + 1);
        proof {
            assert(t.drop_last() =~= recs.take(i as int));
            assert(t.last() == r@);
            assert(month_chunks(t) == if prev.len() > 0 && prev.last().0 == month@ {
                prev.update(prev.len() - 1, (month@, prev.last().1.push(r@)))
            } else {
                prev.push((month@, seq![r@]))
            });
        }
        let same = match current_month {
            Some(m) => {
                proof { crate::date::lemma_date_view_injective(m, month); }
                m == month
            },
            None => false,
        };
        let ghost old_out = out@;
        proof {
            assert(same == (prev.len() > 0 && prev.last().0 == month@));
            assert(old_out.len() + 1 == prev.len() || (i == 0 && prev.len() == 0 && old_out.len() == 0));
        }
        if same {
            current.push(r);
            proof {
                assert(record_views(current@) =~= prev.last().1.push(r@));
            }
        } else {
            match current_month {
                Some(m) => {
                    let s = summarise_month(&m, &current);
                    out.push(s);
                },
                None => {},
            }
            current = Vec::new();
            current.push(r);
            current_month = Some(month);
            proof {
                assert(record_views(current@) =~= seq![r@]);
            }
        }
        proof {
            let chunks = month_chunks(t);
            assert forall|k: int| 0 <= k < out@.len() implies summarises(#[trigger] out@[k], chunks[k].0, chunks[k].1) by {
                assert(chunks[k] == prev[k]);
                if k < old_out.len() {
                    assert(out@[k] == old_out[k]);
                }
            }
        }
    }
    proof {
        assert(recs.take(n as int) =~= recs);
    }
    let ghost chunks = month_chunks(recs);
    let ghost old_out = out@;
    match current_month {
        Some(m) => {
            let s = summarise_month(&m, &current);
            out.push(s);
        },
        None => {},
    }
    proof {
        assert forall|k: int| 0 <= k < out@.len() implies summarises(#[trigger] out@[k], chunks[k].0, chunks[k].1) by {
            if k < old_out.len() {
                assert(out@[k] == old_out[k]);
            }
        }
    }
    out
}

/// The months, in their order, that are not among `present`.
pub open spec fn missing_months(months: Seq<DateView>, present: Seq<DateView>) -> Seq<DateView>
    decreases months.len(),
{
    if months.len() == 0 {
        Seq::empty()
    } else {
        let rest = missing_months(months.drop_last(), present);
        if present.contains(months.last()) { rest } else { rest.push(months.last()) }
    }
}

pub open spec fn chunk_months(chunks: Seq<(DateView, Seq<RecordView>)>) -> Seq<DateView> {
    chunks.map_values(|c: (DateView, Seq<RecordView>)| c.0)
}

/// `p` orders positions of `months` latest month first, keeping the order of
/// equal months.
pub open spec fn is_latest_month_first(months: Seq<DateView>, p: Seq<int>) -> bool {
    &&& p.len() == months.len()
    &&& forall|k: int| 0 <= k < p.len() ==> 0 <= #[trigger] p[k] < months.len()
    &&& forall|i: int| 0 <= i < months.len() ==> #[trigger] p.contains(i)
    &&& forall|k: int, l: int| 0 <= k < l < p.len() ==> months[p[k]].rank() > months[p[l]].rank()
        || (months[p[k]].rank() == months[p[l]].rank() && p[k] < p[l])
}

/// Summary `s` is item `i`: the `i`-th run of current records, or after the runs,
/// an empty summary of a month that has none.
pub open spec fn is_item(s: Summary, chunks: Seq<(DateView, Seq<RecordView>)>, missing: Seq<DateView>, i: int) -> bool {
    if i < chunks.len() {
        summarises(s, chunks[i].0, chunks[i].1)
    } else {
        summarises(s, missing[i - chunks.len()], Seq::empty())
    }
}

/// `d` lists the current records of the months, and `p` orders the summaries
/// that `res` holds: one per run of current records in the same month, then an
/// empty one per month without a run.
pub open spec fn is_summary_with(res: Seq<Summary>, recs: Seq<RecordView>, months: Seq<DateView>, d: Seq<int>, p: Seq<int>) -> bool {
    let chunks = month_chunks(d.map_values(|i: int| recs[i]));
    let missing = missing_months(months, chunk_months(chunks));
    &&& is_current_positions(recs, months, d)
    &&& is_latest_month_first(chunk_months(chunks) + missing, p)
    &&& res.len() == p.len()
    &&& forall|k: int| 0 <= k < res.len() ==> is_item(#[trigger] res[k], chunks, missing, p[k])
}

/// `res` is the summary of the records over the months: the current records of
/// those months (one per key, in key order) are summarised run by run of the
/// same month, each month without a run gets an empty summary, and all are
/// listed latest month first, stably.
pub open spec fn is_summary_of(res: Seq<Summary>, recs: Seq<RecordView>, months: Seq<DateView>) -> bool {
    exists|d: Seq<int>, p: Seq<int>| #[trigger] is_summary_with(res, recs, months, d, p)
}

/// The number of months that the arguments ask for: one unless given.
pub open spec fn months_asked(args: Arguments) -> int {
    match args.months {
        Some(n) => n as int,
        None => 1,
    }
}

/// Summarises the months up to `today`'s (see [`is_summary_of`]).
pub fn summary_on(args: &Arguments, records: Vec<Record>, today: &Date) -> (res: Vec<Summary>)
    ensures
        is_summary_of(res@, record_views(records@), last_months(months_asked(*args), today@)),
{
    let ghost recs = record_views(records@);
    let number_of_months = match args.months() {
        Some(n) => n,
        None => 1,
    };
    let months = last_n_months(number_of_months, today);
    let ghost ms = months@.map_values(|d: Date| d@);
    let positions = current_positions(&records, &months);
    let ghost d = positions@.map_values(|i: usize| i as int);
    let mut current: Vec<Record> = Vec::new();
    for k in 0..positions.len()
        invariant
            d == positions@.map_values(|i: usize| i as int),
            recs == record_views(records@),
            is_current_positions(recs, ms, d),
            current@.len() == k,
            forall|l: int| 0 <= l < k ==> (#[trigger] current@[l])@ == recs[d[l]],
    {
        let i = positions[k];
        proof { assert(is_current(recs, ms, d[k as int])); }
        current.push(records[i].duplicate());
    }
    let ghost dd = d.map_values(|i: int| recs[i]);
    proof { assert(record_views(current@) =~= dd); }
    let mut summaries = summarise(current);
    let ghost chunks = month_chunks(dd);
    let ghost present = chunk_months(chunks);
    let ghost summary_count = summaries@.len();
    let mut empties: Vec<Summary> = Vec::new();
    for j in 0..months.len()
        invariant
            ms == months@.map_values(|d: Date| d@),
            summarises_chunks(summaries@, dd),
            chunks == month_chunks(dd),
            present == chunk_months(chunks),
            empties@.len() == missing_months(ms.take(j as int), present).len(),
            forall|l: int| 0 <= l < empties@.len() ==> summarises(#[trigger] empties@[l], missing_months(ms.take(j as int), present)[l], Seq::empty()),
    {
        let month = months[j];
        let mut found = false;
        let mut l: usize = 0;
        while l < summaries.len()
            invariant
                l <= summaries@.len(),
                summarises_chunks(summaries@, dd),
                chunks == month_chunks(dd),
                present == chunk_months(chunks),
                month@ == ms[j as int],
                found <==> exists|x: int| 0 <= x < l && present[x] == month@,
            decreases summaries@.len() - l,
        {
            let m = summaries[l].month;
            proof {
                crate::date::lemma_date_view_injective(m, month);
                assert(summarises(summaries@[l as int], chunks[l as int].0, chunks[l as int].1));
                assert(present[l as int] == chunks[l as int].0);
                assert(m@ == present[l as int]);
            }
            let ghost old_found = found;
            if m == month {
                found = true;
            }
            proof {
                if found {
                    if !old_found {
                        assert(present[l as int] == month@);
                    }
                } else {
                    assert forall|x: int| 0 <= x < l + 1 implies present[x] != month@ by {
                        if x < l {
                            assert(!(exists|y: int| 0 <= y < l && present[y] == month@));
                        }
                    }
                }
            }
            l = l + 1;
        }
        let ghost before = missing_months(ms.take(j as int), present);
        proof {
            assert(ms.take(j + 1).drop_last() =~= ms.take(j as int));
            assert(ms.take(j + 1).last() == ms[j as int]);
            if found {
                let x = choose|x: int| 0 <= x < summaries@.len() && present[x] == month@;
                assert(present.contains(month@));
            } else {
                assert(!present.contains(month@)) by {
                    if present.contains(month@) {
                        let x = choose|x: int| 0 <= x < present.len() && present[x] == month@;
                    }
                }
            }
        }
        if !found {
            let empty: Vec<Record> = Vec::new();
            proof { assert(record_views(empty@) =~= Seq::<RecordView>::empty()); }
            empties.push(summarise_month(&month, &empty));
        }
        proof {
            let after = missing_months(ms.take(j + 1), present);
            assert forall|l: int| 0 <= l < empties@.len() implies summarises(#[trigger] empties@[l], after[l], Seq::empty()) by {
                if l < before.len() {
                    assert(after[l] == before[l]);
                }
            }
        }
    }
    proof { assert(ms.take(months@.len() as int) =~= ms); }
    let ghost missing = missing_months(ms, present);
    let ghost all_months = present + missing;
    let mut all = summaries;
    let mut empties_moved = empties;
    all.append(&mut empties_moved);
    let total = all.len();
    let mut keys: Vec<(u64, i128)> = Vec::new();
    for k in 0..total
        invariant
            total == all@.len(),
            all@.len() == all_months.len(),
            forall|x: int| 0 <= x < total ==> (#[trigger] all@[x]).month@ == all_months[x],
            keys@.len() == k,
            forall|x: int| 0 <= x < k ==> (#[trigger] keys@[x]).0 == 0 && keys@[x].1 as int == -all_months[x].rank(),
    {
        let rank = all[k].month.rank();
        keys.push((0, -(rank as i128)));
    }
    let order = stable_order(&keys);
    let mut res: Vec<Summary> = Vec::new();
    for k in 0..total
        invariant
            total == all@.len(),
            is_stable_order(keys@, order@),
            keys@.len() == total,
            res@.len() == k,
            forall|x: int| 0 <= x < k ==> #[trigger] res@[x] == all@[order@[x] as int],
    {
        res.push(all[order[k]]);
    }
    proof {
        let p = order@.map_values(|i: usize| i as int);
        assert forall|k: int| 0 <= k < res@.len() implies is_item(#[trigger] res@[k], chunks, missing, p[k]) by {
            let i = p[k];
            if i < chunks.len() {
                assert(all@[i] == summaries@[i]);
            } else {
                assert(all@[i] == empties@[i - chunks.len()]);
            }
        }
        assert forall|i: int| 0 <= i < all_months.len() implies #[trigger] p.contains(i) by {
            assert(order@.contains(i as usize));
            let q = choose|q: int| 0 <= q < order@.len() && order@[q] == i as usize;
            assert(p[q] == i);
        }
        assert forall|k: int, l: int| 0 <= k < l < p.len() implies all_months[p[k]].rank() > all_months[p[l]].rank()
            || (all_months[p[k]].rank() == all_months[p[l]].rank() && p[k] < p[l]) by {
            assert(sorts_before(keys@[order@[k] as int], order@[k] as int, keys@[order@[l] as int], order@[l] as int));
        }
        assert(is_latest_month_first(all_months, p));
        assert(is_summary_with(res@, recs, ms, d, p));
    }
    res
}

/// Summarises the months up to today's, today being the system's local date.
pub fn summary(args: &Arguments, records: Vec<Record>) -> (res: Vec<Summary>)
    ensures
        exists|today: Date| today@.is_valid() && is_summary_of(res@, record_views(records@), #[trigger] last_months(months_asked(*args), today@)),
{
    let today = local_today();
    summary_on(args, records, &today)
}

proof fn lemma_missing_months(months: Seq<DateView>, present: Seq<DateView>, m: DateView)
    ensures
        missing_months(months, present).contains(m) <==> (months.contains(m) && !present.contains(m)),
    decreases months.len(),
{
    if months.len() > 0 {
        let rest = months.drop_last();
        lemma_missing_months(rest, present, m);
        let missing = missing_months(months, present);
        if months.contains(m) && !present.contains(m) {
            let k = choose|k: int| 0 <= k < months.len() && months[k] == m;
            if k < rest.len() {
                assert(rest[k] == m);
            }
            if missing_months(rest, present).contains(m) {
                let x = choose|x: int| 0 <= x < missing_months(rest, present).len() && missing_months(rest, present)[x] == m;
                assert(missing[x] == m);
            } else {
                assert(missing[missing.len() - 1] == m);
            }
        }
        if missing.contains(m) {
            let x = choose|x: int| 0 <= x < missing.len() && missing[x] == m;
            if x < missing_months(rest, present).len() {
                assert(missing_months(rest, present)[x] == m);
                let k = choose|k: int| 0 <= k < rest.len() && rest[k] == m;
                assert(months[k] == m);
            } else {
                assert(months[months.len() - 1] == m);
            }
        }
    }
}

/// Every run's month is the month of one of its records.
proof fn lemma_chunk_months(recs: Seq<RecordView>, c: int)
    requires
        0 <= c < month_chunks(recs).len(),
    ensures
        exists|i: int| 0 <= i < recs.len() && #[trigger] recs[i].key.date_view().first_of_month() == month_chunks(recs)[c].0,
    decreases recs.len(),
{
    let earlier = month_chunks(recs.drop_last());
    let chunks = month_chunks(recs);
    let m = recs.last().key.date_view().first_of_month();
    if c < earlier.len() && chunks[c].0 == earlier[c].0 {
        lemma_chunk_months(recs.drop_last(), c);
        let i = choose|i: int| 0 <= i < recs.drop_last().len() && #[trigger] recs.drop_last()[i].key.date_view().first_of_month() == earlier[c].0;
        assert(recs[i] == recs.drop_last()[i]);
    } else {
        assert(chunks[c].0 == m);
        assert(recs[recs.len() - 1] == recs.last());
    }
}

/// The summaries cover exactly the months asked for, latest month first: each
/// month has a summary, every summary is of one of the months, and no
/// summary's month is later than the one before it.
pub proof fn lemma_summary_months(res: Seq<Summary>, recs: Seq<RecordView>, months: Seq<DateView>)
    requires
        is_summary_of(res, recs, months),
    ensures
        forall|m: DateView| months.contains(m) ==> exists|k: int| 0 <= k < res.len() && (#[trigger] res[k]).month@ == m,
        forall|k: int| 0 <= k < res.len() ==> months.contains((#[trigger] res[k]).month@),
        forall|k: int, l: int| 0 <= k < l < res.len() ==> res[k].month@.rank() >= res[l].month@.rank(),
{
    let (d, p) = choose|d: Seq<int>, p: Seq<int>| #[trigger] is_summary_with(res, recs, months, d, p);
    let dd = d.map_values(|i: int| recs[i]);
    let chunks = month_chunks(dd);
    let present = chunk_months(chunks);
    let missing = missing_months(months, present);
    let all = present + missing;
    assert forall|k: int| 0 <= k < res.len() implies (#[trigger] res[k]).month@ == all[p[k]] by {
        assert(is_item(res[k], chunks, missing, p[k]));
        if p[k] < chunks.len() {
            assert(present[p[k]] == chunks[p[k]].0);
        }
    }
    assert forall|m: DateView| months.contains(m) implies exists|k: int| 0 <= k < res.len() && (#[trigger] res[k]).month@ == m by {
        lemma_missing_months(months, present, m);
        let x = if present.contains(m) {
            choose|x: int| 0 <= x < present.len() && present[x] == m
        } else {
            let y = choose|y: int| 0 <= y < missing.len() && missing[y] == m;
            present.len() + y
        };
        assert(all[x] == m);
        assert(p.contains(x));
        let k = choose|k: int| 0 <= k < p.len() && p[k] == x;
        assert(res[k].month@ == m);
    }
    assert forall|k: int| 0 <= k < res.len() implies months.contains((#[trigger] res[k]).month@) by {
        let x = p[k];
        if x < present.len() {
            lemma_chunk_months(dd, x);
            let i = choose|i: int| 0 <= i < dd.len() && #[trigger] dd[i].key.date_view().first_of_month() == chunks[x].0;
            assert(is_current(recs, months, d[i]));
            assert(dd[i] == recs[d[i]]);
        } else {
            assert(missing.contains(missing[x - present.len()]));
            lemma_missing_months(months, present, missing[x - present.len()]);
        }
    }
}


/// Two sequences that hold the same elements, each strictly ordered by the
/// same asymmetric relation, agree at every position both have.
proof fn lemma_sorted_agree<A>(s1: Seq<A>, s2: Seq<A>, lt: spec_fn(A, A) -> bool, k: int)
    requires
        forall|a: int, b: int| 0 <= a < b < s1.len() ==> lt(s1[a], s1[b]),
        forall|a: int, b: int| 0 <= a < b < s2.len() ==> lt(s2[a], s2[b]),
        forall|x: A| s1.contains(x) <==> s2.contains(x),
        forall|x: A, y: A| #[trigger] lt(x, y) ==> !lt(y, x),
        0 <= k < s1.len(),
        k < s2.len(),
    ensures
        s1[k] == s2[k],
    decreases k,
{
    assert forall|j: int| 0 <= j < k implies s1[j] == s2[j] by {
        lemma_sorted_agree(s1, s2, lt, j);
    }
    let (x, y) = (s1[k], s2[k]);
    if x != y {
        assert(s1.contains(x));
        assert(s2.contains(x));
        let j = choose|j: int| 0 <= j < s2.len() && s2[j] == x;
        assert(s2.contains(y));
        assert(s1.contains(y));
        let i = choose|i: int| 0 <= i < s1.len() && s1[i] == y;
        if j < k {
            assert(s1[j] == x);
            assert(lt(s1[j], s1[k]));
        } else if i < k {
            assert(s2[i] == y);
            assert(lt(s2[i], s2[k]));
        } else {
            assert(lt(s2[k], s2[j]));
            assert(lt(s1[k], s1[i]));
        }
    }
}

/// Two sequences that hold the same elements, each strictly ordered by the
/// same asymmetric relation, are the same.
proof fn lemma_sorted_unique<A>(s1: Seq<A>, s2: Seq<A>, lt: spec_fn(A, A) -> bool)
    requires
        forall|a: int, b: int| 0 <= a < b < s1.len() ==> lt(s1[a], s1[b]),
        forall|a: int, b: int| 0 <= a < b < s2.len() ==> lt(s2[a], s2[b]),
        forall|x: A| s1.contains(x) <==> s2.contains(x),
        forall|x: A, y: A| #[trigger] lt(x, y) ==> !lt(y, x),
    ensures
        s1 == s2,
{
    assert forall|k: int| 0 <= k < s1.len() && k < s2.len() implies s1[k] == s2[k] by {
        lemma_sorted_agree(s1, s2, lt, k);
    }
    if s1.len() < s2.len() {
        let n = s1.len() as int;
        assert(s2.contains(s2[n]));
        let i = choose|i: int| 0 <= i < s1.len() && s1[i] == s2[n];
        assert(lt(s2[i], s2[n]));
    } else if s2.len() < s1.len() {
        let n = s2.len() as int;
        assert(s1.contains(s1[n]));
        let i = choose|i: int| 0 <= i < s2.len() && s2[i] == s1[n];
        assert(lt(s1[i], s1[n]));
    }
    assert(s1 =~= s2);
}

/// The current records of the months, in key order, are fixed by the log.
proof fn lemma_current_positions_unique(recs: Seq<RecordView>, months: Seq<DateView>, d1: Seq<int>, d2: Seq<int>)
    requires
        is_current_positions(recs, months, d1),
        is_current_positions(recs, months, d2),
    ensures
        d1 == d2,
{
    let lt = |i: int, j: int| recs[i].key.sort_rank() < recs[j].key.sort_rank();
    assert forall|x: int| d1.contains(x) <==> d2.contains(x) by {
        if d1.contains(x) {
            let k = choose|k: int| 0 <= k < d1.len() && d1[k] == x;
            assert(is_current(recs, months, d1[k]));
        }
        if d2.contains(x) {
            let k = choose|k: int| 0 <= k < d2.len() && d2[k] == x;
            assert(is_current(recs, months, d2[k]));
        }
    }
    lemma_sorted_unique(d1, d2, lt);
}

/// The order of the summaries, latest month first, is fixed by their months.
proof fn lemma_latest_month_first_unique(months: Seq<DateView>, p1: Seq<int>, p2: Seq<int>)
    requires
        is_latest_month_first(months, p1),
        is_latest_month_first(months, p2),
    ensures
        p1 == p2,
{
    let lt = |i: int, j: int| months[i].rank() > months[j].rank() || (months[i].rank() == months[j].rank() && i < j);
    assert forall|x: int| p1.contains(x) <==> p2.contains(x) by {
        if p1.contains(x) {
            let k = choose|k: int| 0 <= k < p1.len() && p1[k] == x;
            assert(0 <= p1[k] < months.len());
        }
        if p2.contains(x) {
            let k = choose|k: int| 0 <= k < p2.len() && p2[k] == x;
            assert(0 <= p2[k] < months.len());
        }
    }
    lemma_sorted_unique(p1, p2, lt);
}

/// A summary of a month's records is fixed by the month and the records.
proof fn lemma_summarises_unique(s1: Summary, s2: Summary, start: DateView, recs: Seq<RecordView>)
    requires
        summarises(s1, start, recs),
        summarises(s2, start, recs),
    ensures
        s1 == s2,
{
    crate::date::lemma_date_view_injective(s1.month, s2.month);
}

/// The summaries of a log over some months are fixed by the log and the
/// months: two results that both summarise them are the same.
pub proof fn lemma_summary_unique(res1: Seq<Summary>, res2: Seq<Summary>, recs: Seq<RecordView>, months: Seq<DateView>)
    requires
        is_summary_of(res1, recs, months),
        is_summary_of(res2, recs, months),
    ensures
        res1 == res2,
{
    let (d1, p1) = choose|d: Seq<int>, p: Seq<int>| #[trigger] is_summary_with(res1, recs, months, d, p);
    let (d2, p2) = choose|d: Seq<int>, p: Seq<int>| #[trigger] is_summary_with(res2, recs, months, d, p);
    lemma_current_positions_unique(recs, months, d1, d2);
    let chunks = month_chunks(d1.map_values(|i: int| recs[i]));
    let missing = missing_months(months, chunk_months(chunks));
    lemma_latest_month_first_unique(chunk_months(chunks) + missing, p1, p2);
    assert forall|k: int| 0 <= k < res1.len() implies res1[k] == res2[k] by {
        assert(is_item(res1[k], chunks, missing, p1[k]));
        assert(is_item(res2[k], chunks, missing, p1[k]));
        if p1[k] < chunks.len() {
            lemma_summarises_unique(res1[k], res2[k], chunks[p1[k]].0, chunks[p1[k]].1);
        } else {
            lemma_summarises_unique(res1[k], res2[k], missing[p1[k] - chunks.len()], Seq::empty());
        }
    }
    assert(res1 =~= res2);
}

/// A later date lies in the same month or a later one.
proof fn lemma_month_rank_monotone(a: DateView, b: DateView)
    requires
        a.fits_machine(),
        b.fits_machine(),
        a.rank() <= b.rank(),
    ensures
        a.first_of_month().rank() <= b.first_of_month().rank(),
{
    crate::date::lemma_rank_chronological(b, a);
    crate::date::lemma_rank_chronological(b.first_of_month(), a.first_of_month());
}

/// Records whose months never go back form runs of strictly later months,
/// the last run being the last record's month.
proof fn lemma_chunks_increasing(recs: Seq<RecordView>)
    requires
        forall|i: int, j: int| 0 <= i < j < recs.len() ==>
            recs[i].key.date_view().first_of_month().rank() <= recs[j].key.date_view().first_of_month().rank(),
    ensures
        forall|a: int, b: int| 0 <= a < b < month_chunks(recs).len() ==>
            month_chunks(recs)[a].0.rank() < month_chunks(recs)[b].0.rank(),
        month_chunks(recs).len() > 0 ==> month_chunks(recs).last().0 == recs.last().key.date_view().first_of_month(),
        month_chunks(recs).len() > 0 <==> recs.len() > 0,
    decreases recs.len(),
{
    if recs.len() > 0 {
        let rest = recs.drop_last();
        assert forall|i: int, j: int| 0 <= i < j < rest.len() implies
            rest[i].key.date_view().first_of_month().rank() <= rest[j].key.date_view().first_of_month().rank() by {
            assert(rest[i] == recs[i] && rest[j] == recs[j]);
        }
        lemma_chunks_increasing(rest);
        let earlier = month_chunks(rest);
        let r = recs.last();
        let m = r.key.date_view().first_of_month();
        if earlier.len() > 0 {
            let prev = rest.last().key.date_view().first_of_month();
            assert(rest.last() == recs[recs.len() - 2]);
            assert(prev.rank() <= m.rank());
            if prev != m {
                crate::date::lemma_date_bounds(rest.last().key.date_value());
                crate::date::lemma_date_bounds(r.key.date_value());
                if prev.rank() == m.rank() {
                    crate::date::lemma_rank_injective(prev, m);
                }
            }
        }
    }
}

/// The months missing from `present` keep the strict order of `months`.
proof fn lemma_missing_decreasing(months: Seq<DateView>, present: Seq<DateView>)
    requires
        forall|a: int, b: int| 0 <= a < b < months.len() ==> months[a].rank() > months[b].rank(),
    ensures
        forall|a: int, b: int| 0 <= a < b < missing_months(months, present).len() ==>
            missing_months(months, present)[a].rank() > missing_months(months, present)[b].rank(),
    decreases months.len(),
{
    if months.len() > 0 {
        let rest = months.drop_last();
        lemma_missing_decreasing(rest, present);
        let earlier = missing_months(rest, present);
        assert forall|a: int| 0 <= a < earlier.len() implies earlier[a].rank() > months.last().rank() by {
            lemma_missing_months(rest, present, earlier[a]);
            assert(earlier.contains(earlier[a]));
            let k = choose|k: int| 0 <= k < rest.len() && rest[k] == earlier[a];
            assert(months[k] == rest[k]);
        }
    }
}

/// Later month indices start later months.
proof fn lemma_month_start_rank(i: int, j: int)
    requires
        j < i,
    ensures
        month_start(j).rank() < month_start(i).rank(),
{
    assert(j / 12 < i / 12 || (j / 12 == i / 12 && j % 12 < i % 12)) by (nonlinear_arith)
        requires
            j < i,
    ;
}

/// The months up to a valid date's, latest first: dates jiff can hold, each
/// earlier than the one before, the first being that date's month.
proof fn lemma_last_months(n: int, today: DateView)
    requires
        0 <= n,
        today.is_valid(),
    ensures
        forall|k: int| 0 <= k < last_months(n, today).len() ==> (#[trigger] last_months(n, today)[k]).fits_machine(),
        forall|a: int, b: int| 0 <= a < b < last_months(n, today).len() ==>
            last_months(n, today)[a].rank() > last_months(n, today)[b].rank(),
        n >= 1 ==> last_months(n, today).len() >= 1 && last_months(n, today)[0] == today.first_of_month(),
        n == 1 ==> last_months(n, today).len() == 1,
{
    let ms = last_months(n, today);
    let idx = month_index(today);
    assert forall|k: int| 0 <= k < ms.len() implies (#[trigger] ms[k]).fits_machine() by {
        let i = idx - k;
        assert(ms[k] == month_start(i));
        let available = (today.year + 9999) * 12 + today.month;
        let count = if n < available { n } else { available };
        let count = if count < 239977 { count } else { 239977 };
        assert(ms.len() == count);
        assert(k < available);
        assert(-9999 * 12 <= i <= 9999 * 12 + 11);
        assert(-9999 <= i / 12 <= 9999 && 0 <= i % 12 < 12) by (nonlinear_arith)
            requires
                -9999 * 12 <= i <= 9999 * 12 + 11,
        ;
    }
    assert forall|a: int, b: int| 0 <= a < b < ms.len() implies ms[a].rank() > ms[b].rank() by {
        lemma_month_start_rank(idx - a, idx - b);
    }
    if n >= 1 {
        assert(ms[0] == month_start(idx));
        assert(idx / 12 == today.year && idx % 12 == today.month - 1) by (nonlinear_arith)
            requires
                idx == today.year * 12 + today.month - 1,
                1 <= today.month <= 12,
        ;
    }
}

/// One summary per month asked for, in the order of the months, latest
/// first: the summaries of a log over the last months up to a valid date are
/// exactly as many as those months, and the `k`-th is of the `k`-th month.
pub proof fn lemma_one_summary_per_month(res: Seq<Summary>, recs: Seq<RecordView>, n: int, today: DateView)
    requires
        0 <= n,
        today.is_valid(),
        is_summary_of(res, recs, last_months(n, today)),
    ensures
        res.len() == last_months(n, today).len(),
        forall|k: int| 0 <= k < res.len() ==> (#[trigger] res[k]).month@ == last_months(n, today)[k],
{
    let months = last_months(n, today);
    lemma_last_months(n, today);
    lemma_summary_months(res, recs, months);
    let (d, p) = choose|d: Seq<int>, p: Seq<int>| #[trigger] is_summary_with(res, recs, months, d, p);
    let dd = d.map_values(|i: int| recs[i]);
    let chunks = month_chunks(dd);
    let present = chunk_months(chunks);
    let missing = missing_months(months, present);
    let all = present + missing;
    assert forall|i: int, j: int| 0 <= i < j < dd.len() implies
        dd[i].key.date_view().first_of_month().rank() <= dd[j].key.date_view().first_of_month().rank() by {
        assert(recs[d[i]].key.sort_rank() < recs[d[j]].key.sort_rank());
        crate::model::lemma_key_rank_by_date(dd[i].key, dd[j].key);
        crate::date::lemma_date_bounds(dd[i].key.date_value());
        crate::date::lemma_date_bounds(dd[j].key.date_value());
        lemma_month_rank_monotone(dd[i].key.date_view(), dd[j].key.date_view());
    }
    lemma_chunks_increasing(dd);
    lemma_missing_decreasing(months, present);
    assert forall|x: int| 0 <= x < all.len() implies (#[trigger] all[x]).fits_machine() by {
        if x < present.len() {
            lemma_chunk_months(dd, x);
            let i = choose|i: int| 0 <= i < dd.len() && #[trigger] dd[i].key.date_view().first_of_month() == chunks[x].0;
            crate::date::lemma_date_bounds(dd[i].key.date_value());
        } else {
            let y = all[x];
            assert(missing.contains(y));
            lemma_missing_months(months, present, y);
            let k = choose|k: int| 0 <= k < months.len() && months[k] == y;
        }
    }
    assert forall|a: int, b: int| 0 <= a < b < all.len() implies all[a] != all[b] by {
        if b < present.len() {
            assert(chunks[a].0.rank() < chunks[b].0.rank());
        } else if a >= present.len() {
            assert(missing[a - present.len()].rank() > missing[b - present.len()].rank());
        } else {
            assert(missing.contains(all[b]));
            lemma_missing_months(months, present, all[b]);
            assert(present[a] == all[a]);
        }
    }
    assert forall|k: int| 0 <= k < res.len() implies (#[trigger] res[k]).month@ == all[p[k]] by {
        assert(is_item(res[k], chunks, missing, p[k]));
        if p[k] < chunks.len() {
            assert(present[p[k]] == chunks[p[k]].0);
        }
    }
    let rm = res.map_values(|s: Summary| s.month@);
    assert forall|k: int, l: int| 0 <= k < l < rm.len() implies rm[k].rank() > rm[l].rank() by {
        assert(rm[k] == res[k].month@ && rm[l] == res[l].month@);
        let (x, y) = (p[k], p[l]);
        if all[x].rank() == all[y].rank() {
            crate::date::lemma_rank_injective(all[x], all[y]);
            if x < y {
                assert(all[x] != all[y]);
            }
        }
    }
    assert forall|m: DateView| rm.contains(m) <==> months.contains(m) by {
        if rm.contains(m) {
            let k = choose|k: int| 0 <= k < rm.len() && rm[k] == m;
            assert(months.contains(res[k].month@));
        }
        if months.contains(m) {
            let k = choose|k: int| 0 <= k < res.len() && (#[trigger] res[k]).month@ == m;
            assert(rm[k] == m);
        }
    }
    lemma_sorted_unique(rm, months, |a: DateView, b: DateView| a.rank() > b.rank());
    assert forall|k: int| 0 <= k < res.len() implies (#[trigger] res[k]).month@ == months[k] by {
        assert(rm[k] == res[k].month@);
    }
}

/// Asking for no number of months is asking for one: the summaries are the
/// same, and there is one, of the month of the date they are made on.
pub proof fn lemma_one_month_by_default(
    unset: Arguments,
    one: Arguments,
    recs: Seq<RecordView>,
    today: DateView,
    res_unset: Seq<Summary>,
    res_one: Seq<Summary>,
)
    requires
        unset.months is None,
        one.months == Some(1usize),
        today.is_valid(),
        is_summary_of(res_unset, recs, last_months(months_asked(unset), today)),
        is_summary_of(res_one, recs, last_months(months_asked(one), today)),
    ensures
        res_unset == res_one,
        res_unset.len() == 1,
        res_unset[0].month@ == today.first_of_month(),
{
    lemma_summary_unique(res_unset, res_one, recs, last_months(1, today));
    lemma_last_months(1, today);
    lemma_one_summary_per_month(res_unset, recs, 1, today);
}

/// The records whose key is not `key`, in their order.
pub open spec fn without_key(recs: Seq<RecordView>, key: Key) -> Seq<RecordView> {
    recs.filter(|r: RecordView| r.key != key)
}

/// Record `v` is a current record of the months in the log.
pub open spec fn is_current_view(recs: Seq<RecordView>, months: Seq<DateView>, v: RecordView) -> bool {
    exists|i: int| #[trigger] is_current(recs, months, i) && recs[i] == v
}

/// The latest record of a log with one more record at its end.
proof fn lemma_latest_push(t: Seq<RecordView>, x: RecordView, pred: spec_fn(RecordView) -> bool, i: int)
    ensures
        is_latest(t.push(x), pred, i) <==> (
            (i == t.len() && pred(x) && forall|j: int| 0 <= j < t.len() && #[trigger] pred(t[j]) ==> t[j].created <= x.created)
            || (is_latest(t, pred, i) && (pred(x) ==> x.created < t[i].created))),
{
    let s = t.push(x);
    assert forall|j: int| 0 <= j < t.len() implies #[trigger] s[j] == t[j] by {}
    assert(s[t.len() as int] == x);
    if is_latest(s, pred, i) && i == t.len() {
        assert forall|j: int| 0 <= j < t.len() && #[trigger] pred(t[j]) implies t[j].created <= x.created by {
            assert(pred(s[j]));
        }
    }
    if is_latest(s, pred, i) && i < t.len() {
        assert(s[i] == t[i]);
        assert forall|j: int| 0 <= j < t.len() && #[trigger] pred(t[j]) implies t[j].created < t[i].created
            || (t[j].created == t[i].created && j <= i) by {
            assert(pred(s[j]));
        }
        if pred(x) {
            assert(pred(s[t.len() as int]));
        }
    }
    if i == t.len() && pred(x) && forall|j: int| 0 <= j < t.len() && #[trigger] pred(t[j]) ==> t[j].created <= x.created {
        assert forall|j: int| 0 <= j < s.len() && #[trigger] pred(s[j]) implies s[j].created < s[i].created
            || (s[j].created == s[i].created && j <= i) by {
            if j < t.len() {
                assert(pred(t[j]));
            }
        }
    }
    if is_latest(t, pred, i) && (pred(x) ==> x.created < t[i].created) {
        assert forall|j: int| 0 <= j < s.len() && #[trigger] pred(s[j]) implies s[j].created < s[i].created
            || (s[j].created == s[i].created && j <= i) by {
            if j < t.len() {
                assert(pred(t[j]));
            }
        }
    }
}

/// Taking the records of one key out of a log leaves every other key's
/// latest record as it was.
proof fn lemma_latest_without_key(s: Seq<RecordView>, key: Key, v: RecordView)
    requires
        v.key != key,
    ensures
        (exists|i: int| #[trigger] is_latest(s, with_key(v.key), i) && s[i] == v)
            <==> (exists|j: int| #[trigger] is_latest(without_key(s, key), with_key(v.key), j) && without_key(s, key)[j] == v),
    decreases s.len(),
{
    let g = |r: RecordView| r.key != key;
    let wk = with_key(v.key);
    if s.len() == 0 {
        reveal(Seq::filter);
        assert(without_key(s, key).len() == 0);
    } else {
        let t = s.drop_last();
        let x = s.last();
        assert(s =~= t.push(x));
        t.lemma_filter_push(x, g);
        lemma_latest_without_key(t, key, v);
        let ft = without_key(t, key);
        let fs = without_key(s, key);
        assert(fs == if g(x) { ft.push(x) } else { ft });
        // Both logs hold the same records of `v`'s key.
        assert forall|r: RecordView| wk(r) implies (t.contains(r) <==> ft.contains(r)) by {
            if t.contains(r) {
                let k = choose|k: int| 0 <= k < t.len() && t[k] == r;
                t.lemma_filter_contains(g, k);
            }
            if ft.contains(r) {
                t.lemma_filter_contains_rev(g, r);
            }
        }
        let all_before_t = forall|j: int| 0 <= j < t.len() && #[trigger] wk(t[j]) ==> t[j].created <= x.created;
        let all_before_ft = forall|j: int| 0 <= j < ft.len() && #[trigger] wk(ft[j]) ==> ft[j].created <= x.created;
        if wk(x) {
            assert(all_before_t <==> all_before_ft) by {
                if all_before_t {
                    assert forall|j: int| 0 <= j < ft.len() && #[trigger] wk(ft[j]) implies ft[j].created <= x.created by {
                        assert(ft.contains(ft[j]));
                        let k = choose|k: int| 0 <= k < t.len() && t[k] == ft[j];
                        assert(wk(t[k]));
                    }
                }
                if all_before_ft {
                    assert forall|j: int| 0 <= j < t.len() && #[trigger] wk(t[j]) implies t[j].created <= x.created by {
                        assert(t.contains(t[j]));
                        let k = choose|k: int| 0 <= k < ft.len() && ft[k] == t[j];
                        assert(wk(ft[k]));
                    }
                }
            }
        }
        if exists|i: int| #[trigger] is_latest(s, wk, i) && s[i] == v {
            let i = choose|i: int| #[trigger] is_latest(s, wk, i) && s[i] == v;
            lemma_latest_push(t, x, wk, i);
            if i == t.len() {
                let j = ft.len() as int;
                lemma_latest_push(ft, x, wk, j);
                assert(fs[j] == x);
                assert(is_latest(fs, wk, j) && fs[j] == v);
            } else {
                assert(t[i] == s[i]);
                assert(exists|i2: int| #[trigger] is_latest(t, wk, i2) && t[i2] == v);
                let j = choose|j: int| #[trigger] is_latest(ft, wk, j) && ft[j] == v;
                if g(x) {
                    lemma_latest_push(ft, x, wk, j);
                    assert(fs[j] == ft[j]);
                    assert(is_latest(fs, wk, j) && fs[j] == v);
                } else {
                    assert(is_latest(fs, wk, j) && fs[j] == v);
                }
            }
        }
        if exists|j: int| #[trigger] is_latest(fs, wk, j) && fs[j] == v {
            let j = choose|j: int| #[trigger] is_latest(fs, wk, j) && fs[j] == v;
            if g(x) {
                lemma_latest_push(ft, x, wk, j);
                if j == ft.len() {
                    let i = t.len() as int;
                    lemma_latest_push(t, x, wk, i);
                    assert(s[i] == x);
                    assert(is_latest(s, wk, i) && s[i] == v);
                } else {
                    assert(fs[j] == ft[j]);
                    assert(exists|j2: int| #[trigger] is_latest(ft, wk, j2) && ft[j2] == v);
                    let i = choose|i: int| #[trigger] is_latest(t, wk, i) && t[i] == v;
                    lemma_latest_push(t, x, wk, i);
                    assert(s[i] == t[i]);
                    assert(is_latest(s, wk, i) && s[i] == v);
                }
            } else {
                assert(exists|j2: int| #[trigger] is_latest(ft, wk, j2) && ft[j2] == v);
                let i = choose|i: int| #[trigger] is_latest(t, wk, i) && t[i] == v;
                lemma_latest_push(t, x, wk, i);
                assert(s[i] == t[i]);
                assert(is_latest(s, wk, i) && s[i] == v);
            }
        }
    }
}

/// The records at the positions `d`, in order.
pub open spec fn views_at(recs: Seq<RecordView>, d: Seq<int>) -> Seq<RecordView> {
    d.map_values(|i: int| recs[i])
}

/// The current records at positions that list them in key order are in
/// strict key order and are exactly the current records.
proof fn lemma_current_views_sorted(recs: Seq<RecordView>, months: Seq<DateView>, d: Seq<int>)
    requires
        is_current_positions(recs, months, d),
    ensures
        forall|k: int, l: int| 0 <= k < l < d.len() ==>
            (#[trigger] views_at(recs, d)[k]).key.sort_rank() < (#[trigger] views_at(recs, d)[l]).key.sort_rank(),
        forall|v: RecordView| views_at(recs, d).contains(v) <==> is_current_view(recs, months, v),
{
    let dd = views_at(recs, d);
    assert forall|v: RecordView| dd.contains(v) <==> is_current_view(recs, months, v) by {
        if dd.contains(v) {
            let k = choose|k: int| 0 <= k < dd.len() && dd[k] == v;
            assert(is_current(recs, months, d[k]));
        }
        if is_current_view(recs, months, v) {
            let i = choose|i: int| #[trigger] is_current(recs, months, i) && recs[i] == v;
            assert(d.contains(i));
            let k = choose|k: int| 0 <= k < d.len() && d[k] == i;
            assert(dd[k] == v);
        }
    }
}

/// Two logs with the same current records over some months have the same
/// summaries of those months.
proof fn lemma_summary_by_current(
    res1: Seq<Summary>,
    recs1: Seq<RecordView>,
    res2: Seq<Summary>,
    recs2: Seq<RecordView>,
    months: Seq<DateView>,
)
    requires
        is_summary_of(res1, recs1, months),
        is_summary_of(res2, recs2, months),
        forall|v: RecordView| is_current_view(recs1, months, v) <==> is_current_view(recs2, months, v),
    ensures
        res1 == res2,
{
    let (d1, p1) = choose|d: Seq<int>, p: Seq<int>| #[trigger] is_summary_with(res1, recs1, months, d, p);
    let (d2, p2) = choose|d: Seq<int>, p: Seq<int>| #[trigger] is_summary_with(res2, recs2, months, d, p);
    let dd1 = views_at(recs1, d1);
    let dd2 = views_at(recs2, d2);
    lemma_current_views_sorted(recs1, months, d1);
    lemma_current_views_sorted(recs2, months, d2);
    assert forall|v: RecordView| dd1.contains(v) <==> dd2.contains(v) by {
        assert(dd1.contains(v) <==> is_current_view(recs1, months, v));
        assert(dd2.contains(v) <==> is_current_view(recs2, months, v));
        assert(is_current_view(recs1, months, v) <==> is_current_view(recs2, months, v));
    }
    lemma_sorted_unique(dd1, dd2, |a: RecordView, b: RecordView| a.key.sort_rank() < b.key.sort_rank());
    let chunks = month_chunks(dd1);
    let missing = missing_months(months, chunk_months(chunks));
    lemma_latest_month_first_unique(chunk_months(chunks) + missing, p1, p2);
    assert forall|k: int| 0 <= k < res1.len() implies res1[k] == res2[k] by {
        assert(is_item(res1[k], chunks, missing, p1[k]));
        assert(is_item(res2[k], chunks, missing, p1[k]));
        if p1[k] < chunks.len() {
            lemma_summarises_unique(res1[k], res2[k], chunks[p1[k]].0, chunks[p1[k]].1);
        } else {
            lemma_summarises_unique(res1[k], res2[k], missing[p1[k] - chunks.len()], Seq::empty());
        }
    }
    assert(res1 =~= res2);
}

/// Deleting a key is removing it: a log to which a record deleting a key is
/// added, made after every record of that key, gives the same summaries as
/// the log without that key's records.
pub proof fn lemma_deleted_key_is_removed(
    recs: Seq<RecordView>,
    del: RecordView,
    months: Seq<DateView>,
    res_deleted: Seq<Summary>,
    res_removed: Seq<Summary>,
)
    requires
        del.mode == Mode::Delete,
        forall|i: int| 0 <= i < recs.len() && recs[i].key == del.key ==> #[trigger] recs[i].created < del.created,
        is_summary_of(res_deleted, recs.push(del), months),
        is_summary_of(res_removed, without_key(recs, del.key), months),
    ensures
        res_deleted == res_removed,
{
    let a = recs.push(del);
    let b = without_key(recs, del.key);
    let n = recs.len() as int;
    let g = |r: RecordView| r.key != del.key;
    assert forall|v: RecordView| is_current_view(a, months, v) <==> is_current_view(b, months, v) by {
        let wk = with_key(v.key);
        if is_current_view(a, months, v) {
            let i = choose|i: int| #[trigger] is_current(a, months, i) && a[i] == v;
            assert(i != n);
            assert(a[i] == recs[i]);
            if v.key == del.key {
                assert(wk(a[n]));
                assert(recs[i].created < del.created);
            }
            lemma_latest_push(recs, del, wk, i);
            lemma_latest_without_key(recs, del.key, v);
            assert(exists|i2: int| #[trigger] is_latest(recs, wk, i2) && recs[i2] == v);
            let j = choose|j: int| #[trigger] is_latest(b, wk, j) && b[j] == v;
            assert(is_current(b, months, j));
        }
        if is_current_view(b, months, v) {
            let j = choose|j: int| #[trigger] is_current(b, months, j) && b[j] == v;
            recs.lemma_filter_pred(g, j);
            lemma_latest_without_key(recs, del.key, v);
            assert(exists|j2: int| #[trigger] is_latest(b, wk, j2) && b[j2] == v);
            let i = choose|i: int| #[trigger] is_latest(recs, wk, i) && recs[i] == v;
            lemma_latest_push(recs, del, wk, i);
            assert(a[i] == recs[i]);
            assert(is_current(a, months, i));
        }
    }
    lemma_summary_by_current(res_deleted, a, res_removed, b, months);
}

/// The office days of a month are its Office records: a summary counts
/// exactly the records whose type is Office, and records of every other type
/// (working from home, leave, sickness, other) add nothing to it.
pub proof fn lemma_office_days_are_office_records(s: Summary, start: DateView, recs: Seq<RecordView>)
    requires
        summarises(s, start, recs),
    ensures
        s.office_days == recs.filter(|r: RecordView| r.record_type == RecordType::Office).len(),
        (forall|i: int| 0 <= i < recs.len() ==> recs[i].record_type != RecordType::Office) ==> s.office_days == 0,
{
    lemma_office_count_is_filter(recs);
}

proof fn lemma_office_count_is_filter(recs: Seq<RecordView>)
    ensures
        office_count(recs) == recs.filter(|r: RecordView| r.record_type == RecordType::Office).len(),
        (forall|i: int| 0 <= i < recs.len() ==> recs[i].record_type != RecordType::Office) ==> office_count(recs) == 0,
    decreases recs.len(),
{
    reveal(Seq::filter);
    if recs.len() > 0 {
        let rest = recs.drop_last();
        lemma_office_count_is_filter(rest);
        if forall|i: int| 0 <= i < recs.len() ==> recs[i].record_type != RecordType::Office {
            assert forall|i: int| 0 <= i < rest.len() implies rest[i].record_type != RecordType::Office by {
                assert(rest[i] == recs[i]);
            }
            assert(recs[recs.len() - 1] == recs.last());
        }
    }
}

/// A working day counts in full (two halves) unless a record that is not an
/// office day falls on it; when one does, the day counts less than in full.
pub proof fn lemma_day_weight_bounds(recs: Seq<RecordView>, d: DateView)
    ensures
        0 <= day_weight(recs, d) <= 2,
        (forall|i: int| 0 <= i < recs.len() ==> recs[i].record_type == RecordType::Office || recs[i].key.date_view() != d)
            ==> day_weight(recs, d) == 2,
        (exists|i: int| 0 <= i < recs.len() && recs[i].record_type != RecordType::Office && recs[i].key.date_view() == d)
            ==> day_weight(recs, d) < 2,
    decreases recs.len(),
{
    if recs.len() > 0 {
        let rest = recs.drop_last();
        lemma_day_weight_bounds(rest, d);
        assert forall|i: int| 0 <= i < rest.len() implies rest[i] == recs[i] by {}
        if exists|i: int| 0 <= i < recs.len() && recs[i].record_type != RecordType::Office && recs[i].key.date_view() == d {
            let i = choose|i: int| 0 <= i < recs.len() && recs[i].record_type != RecordType::Office && recs[i].key.date_view() == d;
            if i < rest.len() {
                assert(rest[i] == recs[i]);
            } else {
                assert(recs[i] == recs.last());
            }
        }
        if forall|i: int| 0 <= i < recs.len() ==> recs[i].record_type == RecordType::Office || recs[i].key.date_view() != d {
            assert(recs[recs.len() - 1] == recs.last());
        }
    }
}

} // verus!
