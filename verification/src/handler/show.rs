//! The `show` command: the latest records of the log.

use vstd::prelude::*;
use crate::cli::show::Arguments;
use crate::date::Date;
use crate::handler::records::record_views;
use crate::model::{Record, RecordView};
use crate::sorting::{sorts_before, stable_order};

verus! {

/// Record `i` is shown before record `j`: it was created later, or at the same
/// instant and comes earlier in the log.
pub open spec fn shown_before(recs: Seq<RecordView>, i: int, j: int) -> bool {
    ||| recs[i].created > recs[j].created
    ||| recs[i].created == recs[j].created && i < j
}

/// Record `i` is one that the date (if any) asks for.
pub open spec fn is_selected(recs: Seq<RecordView>, date: Option<Date>, i: int) -> bool {
    &&& 0 <= i < recs.len()
    &&& match date {
        None => true,
        Some(d) => recs[i].key.date_view() == d@,
    }
}

/// `p` lists the positions of the records to show: selected records, latest
/// first, at most `top` of them, and no selected record left out unless `top`
/// were shown and it comes after all of them.
pub open spec fn is_show_selection(recs: Seq<RecordView>, date: Option<Date>, top: int, p: Seq<int>) -> bool {
    &&& p.len() <= top
    &&& forall|k: int| 0 <= k < p.len() ==> is_selected(recs, date, #[trigger] p[k])
    &&& forall|k: int, l: int| 0 <= k < l < p.len() ==> shown_before(recs, p[k], p[l])
    &&& forall|j: int|
        #[trigger] is_selected(recs, date, j) && !p.contains(j) ==> p.len() == top && forall|k: int|
            0 <= k < p.len() ==> shown_before(recs, #[trigger] p[k], j)
}

/// The positions of the records that the `show` command prints, in order.
pub fn show_positions(args: &Arguments, records: &Vec<Record>) -> (res: Vec<usize>)
    ensures
        is_show_selection(record_views(records@), args.date, args.top as int, res@.map_values(|i: usize| i as int)),
{
    let ghost recs = record_views(records@);
    let n = records.len();
    let mut keys: Vec<(u64, i128)> = Vec::new();
    for i in 0..n
        invariant
            n == records@.len(),
            recs == record_views(records@),
            keys@.len() == i,
            forall|k: int| 0 <= k < i ==> (#[trigger] keys@[k]).0 == 0 && keys@[k].1 as int == -1 - recs[k].created,
    {
        let created = records[i].created();
        keys.push((0, -1 - created));
    }
    let order = stable_order(&keys);
    let top = args.top();
    let mut out: Vec<usize> = Vec::new();
    let ghost mut qs: Seq<int> = Seq::empty();
    let mut q: usize = 0;
    while q < n && out.len() < top
        invariant
            n == records@.len(),
            recs == record_views(records@),
            recs.len() == n,
            keys@.len() == n,
            forall|k: int| 0 <= k < n ==> (#[trigger] keys@[k]).0 == 0 && keys@[k].1 as int == -1 - recs[k].created,
            crate::sorting::is_stable_order(keys@, order@),
            top == args.top,
            q <= n,
            out@.len() <= top,
            qs.len() == out@.len(),
            forall|k: int| 0 <= k < qs.len() ==> 0 <= #[trigger] qs[k] < q,
            forall|k: int, l: int| 0 <= k < l < qs.len() ==> qs[k] < qs[l],
            forall|k: int| 0 <= k < qs.len() ==> out@[k] == order@[#[trigger] qs[k]],
            forall|k: int| 0 <= k < out@.len() ==> is_selected(recs, args.date, #[trigger] out@[k] as int),
            forall|r: int| 0 <= r < q && is_selected(recs, args.date, #[trigger] order@[r] as int) ==> qs.contains(r),
        decreases n - q,
    {
        let i = order[q];
        let wanted = match args.date() {
            None => true,
            Some(d) => {
                let k = records[i].key().date();
                proof { crate::date::lemma_date_view_injective(k, *d); }
                k == *d
            },
        };
        if wanted {
            out.push(i);
            proof {
                let old_qs = qs;
                qs = qs.push(q as int);
                assert forall|r: int| 0 <= r < q + 1 && is_selected(recs, args.date, #[trigger] order@[r] as int) implies qs.contains(r) by {
                    if r < q {
                        let k = choose|k: int| 0 <= k < old_qs.len() && old_qs[k] == r;
                        assert(qs[k] == r);
                    } else {
                        assert(qs[qs.len() - 1] == r);
                    }
                }
            }
        } else {
            proof {
                assert forall|r: int| 0 <= r < q + 1 && is_selected(recs, args.date, #[trigger] order@[r] as int) implies qs.contains(r) by {
                }
            }
        }
        q = q + 1;
    }
    proof {
        let p = out@.map_values(|i: usize| i as int);
        assert forall|k: int| 0 <= k < p.len() implies is_selected(recs, args.date, #[trigger] p[k]) by {
            assert(p[k] == out@[k] as int);
        }
        assert forall|k: int, l: int| 0 <= k < l < p.len() implies shown_before(recs, p[k], p[l]) by {
            assert(sorts_before(keys@[order@[qs[k]] as int], order@[qs[k]] as int, keys@[order@[qs[l]] as int], order@[qs[l]] as int));
        }
        assert forall|j: int| #[trigger] is_selected(recs, args.date, j) && !p.contains(j) implies p.len() == top
            && forall|k: int| 0 <= k < p.len() ==> shown_before(recs, #[trigger] p[k], j) by {
            assert(order@.contains(j as usize));
            let r = choose|r: int| 0 <= r < order@.len() && order@[r] == j as usize;
            if r < q {
                assert(qs.contains(r));
                let k = choose|k: int| 0 <= k < qs.len() && qs[k] == r;
                assert(p[k] == j);
            }
            assert forall|k: int| 0 <= k < p.len() implies shown_before(recs, #[trigger] p[k], j) by {
                assert(sorts_before(keys@[order@[qs[k]] as int], order@[qs[k]] as int, keys@[order@[r] as int], order@[r] as int));
            }
        }
    }
    out
}

/// The records that the `show` command prints, in order (see [`show_positions`]).
pub fn show(args: &Arguments, records: &Vec<Record>) -> (res: Vec<Record>)
    ensures
        exists|p: Seq<int>| {
            &&& is_show_selection(record_views(records@), args.date, args.top as int, p)
            &&& record_views(res@) == p.map_values(|i: int| records@[i]@)
        },
{
    let positions = show_positions(args, records);
    let ghost p = positions@.map_values(|i: usize| i as int);
    let mut out: Vec<Record> = Vec::new();
    for k in 0..positions.len()
        invariant
            p == positions@.map_values(|i: usize| i as int),
            is_show_selection(record_views(records@), args.date, args.top as int, p),
            out@.len() == k,
            forall|l: int| 0 <= l < k ==> (#[trigger] out@[l])@ == records@[p[l]]@,
    {
        let i = positions[k];
        proof { assert(is_selected(record_views(records@), args.date, p[k as int])); }
        out.push(records[i].duplicate());
    }
    proof {
        assert(record_views(out@) =~= p.map_values(|i: int| records@[i]@));
    }
    out
}

} // verus!
