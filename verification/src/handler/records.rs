//! The log as a whole: which days (or half days) currently hold a record.

use vstd::prelude::*;
use crate::model::{HalfDay, Key, Mode, Record, RecordView};
use crate::sorting::{sorts_before, stable_order};

verus! {

pub open spec fn record_views(records: Seq<Record>) -> Seq<RecordView> {
    records.map_values(|r: Record| r@)
}

/// Record `i` satisfies `pred`, and every other record that does was created
/// earlier, or at the same instant and earlier in the log.
pub open spec fn is_latest(recs: Seq<RecordView>, pred: spec_fn(RecordView) -> bool, i: int) -> bool {
    &&& 0 <= i < recs.len()
    &&& pred(recs[i])
    &&& forall|j: int|
        0 <= j < recs.len() && #[trigger] pred(recs[j]) ==> recs[j].created < recs[i].created
            || (recs[j].created == recs[i].created && j <= i)
}

/// Some record satisfies `pred`, and the latest of them does not delete.
pub open spec fn latest_is_active(recs: Seq<RecordView>, pred: spec_fn(RecordView) -> bool) -> bool {
    exists|i: int| #[trigger] is_latest(recs, pred, i) && recs[i].mode != Mode::Delete
}

pub open spec fn on_date(key: Key) -> spec_fn(RecordView) -> bool {
    |r: RecordView| r.key.date_view() == key.date_view()
}

pub open spec fn full_day_on_date(key: Key) -> spec_fn(RecordView) -> bool {
    |r: RecordView| r.key.date_view() == key.date_view() && !r.key.is_half_day()
}

pub open spec fn with_key(key: Key) -> spec_fn(RecordView) -> bool {
    |r: RecordView| r.key == key
}

/// The log holds an entry for `key`. A full day is taken when the latest record
/// on that date (for either half or the whole day) is not a deletion. A half day
/// is taken when the latest full-day record on its date is not a deletion, or
/// else when the latest record for that very half is not.
pub open spec fn holds_key(recs: Seq<RecordView>, key: Key) -> bool {
    match key {
        Key::FullDay(_) => latest_is_active(recs, on_date(key)),
        Key::HalfDay { .. } => latest_is_active(recs, full_day_on_date(key))
            || latest_is_active(recs, with_key(key)),
    }
}

/// The records of a log, in the order they were written.
pub struct Records {
    records: Vec<Record>,
}

impl View for Records {
    type V = Seq<RecordView>;

    closed spec fn view(&self) -> Seq<RecordView> {
        record_views(self.records@)
    }
}

/// A selection of records, as used by [`Records::contains`].
enum Filter {
    OnDate(Key),
    FullDayOnDate(Key),
    WithKey(Key),
}

impl Filter {
    spec fn pred(self) -> spec_fn(RecordView) -> bool {
        match self {
            Filter::OnDate(k) => on_date(k),
            Filter::FullDayOnDate(k) => full_day_on_date(k),
            Filter::WithKey(k) => with_key(k),
        }
    }

    fn test(&self, r: &Record) -> (b: bool)
        ensures
            b == (self.pred())(r@),
    {
        let key = r.key();
        match self {
            Filter::OnDate(k) => {
                let (a, b) = (key.date(), k.date());
                proof { crate::date::lemma_date_view_injective(a, b); }
                a == b
            },
            Filter::FullDayOnDate(k) => {
                let (a, b) = (key.date(), k.date());
                proof { crate::date::lemma_date_view_injective(a, b); }
                a == b && !key.half_day()
            },
            Filter::WithKey(k) => key == *k,
        }
    }
}

impl Records {
    pub fn new(records: Vec<Record>) -> (res: Records)
        ensures
            res@ == record_views(records@),
    {
        Records { records }
    }

    /// Whether the log holds an entry for `key` (see [`holds_key`]).
    pub fn contains(&self, key: &Key) -> (b: bool)
        ensures
            b == holds_key(self@, *key),
    {
        match *key {
            Key::FullDay(_) => self.contains_with_predicate(&Filter::OnDate(*key)),
            Key::HalfDay { .. } => {
                if self.contains_with_predicate(&Filter::FullDayOnDate(*key)) {
                    return true;
                }
                self.contains_with_predicate(&Filter::WithKey(*key))
            },
        }
    }

    fn contains_with_predicate(&self, filter: &Filter) -> (b: bool)
        ensures
            b == latest_is_active(self@, filter.pred()),
    {
        let latest = self.latest_matching(filter);
        match latest {
            Some(i) => {
                let b = self.records[i].mode() != Mode::Delete;
                proof {
                    if !b {
                        assert forall|j: int| #[trigger] is_latest(self@, filter.pred(), j)
                            implies self@[j].mode == Mode::Delete by {
                            assert(j == i);
                        }
                    }
                }
                b
            },
            None => false,
        }
    }

    /// The position of the latest record that `filter` selects, by stably
    /// sorting the selected records on their creation time and taking the last.
    fn latest_matching(&self, filter: &Filter) -> (res: Option<usize>)
        ensures
            res matches Some(i) ==> is_latest(self@, filter.pred(), i as int),
            res is None ==> forall|j: int| 0 <= j < self@.len() ==> !(filter.pred())(#[trigger] self@[j]),
    {
        let ghost pred = filter.pred();
        let ghost recs = self@;
        let n = self.records.len();
        let mut positions: Vec<usize> = Vec::new();
        let mut keys: Vec<(u64, i128)> = Vec::new();
        for i in 0..n
            invariant
                n == self.records@.len(),
                recs == self@,
                recs.len() == n,
                pred == filter.pred(),
                positions@.len() == keys@.len(),
                forall|k: int| 0 <= k < positions@.len() ==> #[trigger] positions@[k] < i,
                forall|k: int, l: int| 0 <= k < l < positions@.len() ==> positions@[k] < positions@[l],
                forall|k: int| 0 <= k < positions@.len() ==> pred(recs[#[trigger] positions@[k] as int]),
                forall|k: int| 0 <= k < positions@.len() ==> (#[trigger] keys@[k]).0 == 0 && keys@[k].1 as int == recs[positions@[k] as int].created,
                forall|j: int| 0 <= j < i && pred(#[trigger] recs[j]) ==> positions@.contains(j as usize),
        {
            let r = &self.records[i];
            let ghost old_positions = positions@;
            if filter.test(r) {
                positions.push(i);
                keys.push((0, r.created()));
            }
            proof {
                assert forall|j: int| 0 <= j < i + 1 && pred(#[trigger] recs[j]) implies positions@.contains(j as usize) by {
                    if j == i {
                        assert(positions@[positions@.len() - 1] == i);
                    } else {
                        assert(old_positions.contains(j as usize));
                        let k = choose|k: int| 0 <= k < old_positions.len() && old_positions[k] == j as usize;
                        assert(positions@[k] == j as usize);
                    }
                }
            }
        }
        let order = stable_order(&keys);
        if order.len() == 0 {
            proof {
                assert forall|j: int| 0 <= j < recs.len() implies !pred(#[trigger] recs[j]) by {
                    if pred(recs[j]) {
                        assert(positions@.contains(j as usize));
                    }
                }
            }
            return None;
        }
        let last = order[order.len() - 1];
        let p = positions[last];
        proof {
            assert forall|j: int| 0 <= j < recs.len() && #[trigger] pred(recs[j]) implies recs[j].created < recs[p as int].created
                || (recs[j].created == recs[p as int].created && j <= p) by {
                assert(positions@.contains(j as usize));
                let k = choose|k: int| 0 <= k < positions@.len() && positions@[k] == j as usize;
                assert(order@.contains(k as usize));
                let q = choose|q: int| 0 <= q < order@.len() && order@[q] == k as usize;
                if q < order@.len() - 1 {
                    assert(sorts_before(keys@[order@[q] as int], order@[q] as int, keys@[order@[order@.len() - 1] as int], order@[order@.len() - 1] as int));
                    assert(keys@[k].1 as int == recs[j].created);
                    assert(keys@[last as int].1 as int == recs[p as int].created);
                    if k > last as int {
                        assert(positions@[last as int] < positions@[k]);
                    }
                }
            }
        }
        Some(p)
    }
}

} // verus!
