//! The tracker API's logic: query validation, response bodies, resampling
//! of snapshot series and the API-key rule. The HTTP routes themselves are
//! served by the application around this library.

pub mod auth;
pub mod event;
pub mod monthly;

use vstd::prelude::*;
use crate::sort::{indexed_sort, last_of_each_slot, last_of_slot, orders_triples, position_kept, key_lt};
use crate::storage::TopPoint;

verus! {

/// The resampling interval at or below which series are served as stored.
pub const RAW_INTERVAL_MS: i64 = 60_000;

/// The bucket of `time` for `interval`: `time / interval` rounded towards
/// zero, as Rust's `/` on `i64` computes it.
pub open spec fn time_bucket(time: int, interval: int) -> int {
    if time >= 0 {
        time / interval
    } else {
        -((-time) / interval)
    }
}

/// `time / interval` on `i64`, for an interval above the raw one.
pub(crate) fn bucket_of(time: i64, interval: i64) -> (r: i64)
    requires
        interval > RAW_INTERVAL_MS,
    ensures
        r as int == time_bucket(time as int, interval as int),
{
    if time >= 0 {
        time / interval
    } else {
        let m: u64 = ((-(time + 1)) as u64) + 1;
        let q: u64 = m / (interval as u64);
        proof {
            vstd::arithmetic::div_mod::lemma_div_is_ordered_by_denominator(m as int, 2, interval as int);
            assert(m as int == -(time as int));
        }
        -(q as i64)
    }
}

/// The slot of a top point: its user and its time bucket.
pub open spec fn point_slot(p: TopPoint, interval: i64) -> (i64, int) {
    (p.uid, time_bucket(p.time as int, interval as int))
}

/// Position `i` holds the last point of its user and bucket.
pub open spec fn last_point_of_slot(points: Seq<TopPoint>, i: int, interval: i64) -> bool {
    &&& 0 <= i < points.len()
    &&& forall|j: int|
        #![trigger points[j]]
        i < j < points.len() ==> point_slot(points[j], interval) != point_slot(points[i], interval)
}

/// `a` comes before `b` in a resampled series: by time, then user, then
/// bucket.
pub open spec fn point_before(a: TopPoint, b: TopPoint, interval: i64) -> bool {
    ||| a.time < b.time
    ||| a.time == b.time && a.uid < b.uid
    ||| a.time == b.time && a.uid == b.uid && time_bucket(a.time as int, interval as int)
        < time_bucket(b.time as int, interval as int)
}

/// `p` is the last point of its user and bucket in `points`.
pub open spec fn is_last_point(points: Seq<TopPoint>, p: TopPoint, interval: i64) -> bool {
    exists|i: int| #[trigger] last_point_of_slot(points, i, interval) && points[i] == p
}

/// `out` resamples `points` to `interval`: it holds the last point of each
/// user and bucket, each once, ordered by time, then user, then bucket.
pub open spec fn resampled_points(points: Seq<TopPoint>, out: Seq<TopPoint>, interval: i64) -> bool {
    &&& forall|k: int| 0 <= k < out.len() ==> #[trigger] is_last_point(points, out[k], interval)
    &&& forall|i: int| #[trigger] last_point_of_slot(points, i, interval) ==> out.contains(points[i])
    &&& forall|k: int, l: int|
        #![trigger out[k], out[l]]
        0 <= k < l < out.len() ==> point_before(out[k], out[l], interval)
}

/// The slots of `points`: each point's user and time bucket.
pub open spec fn point_slots_are(points: Seq<TopPoint>, slots: Seq<(i64, i64)>, interval: i64) -> bool {
    &&& slots.len() == points.len()
    &&& forall|k: int|
        0 <= k < slots.len() ==> (#[trigger] slots[k]).0 == points[k].uid && slots[k].1 as int
            == time_bucket(points[k].time as int, interval as int)
}

proof fn lemma_point_slots(points: Seq<TopPoint>, slots: Seq<(i64, i64)>, interval: i64)
    requires
        point_slots_are(points, slots, interval),
    ensures
        forall|x: int| #[trigger] last_of_slot(slots, x) <==> last_point_of_slot(points, x, interval),
{
    assert forall|x: int| #[trigger] last_of_slot(slots, x) <==> last_point_of_slot(points, x, interval) by {
        if 0 <= x < slots.len() {
            if last_of_slot(slots, x) {
                assert forall|j: int| #![trigger points[j]] x < j < points.len() implies point_slot(points[j], interval) != point_slot(points[x], interval) by {
                    assert(slots[j] != slots[x]);
                }
            }
            if last_point_of_slot(points, x, interval) {
                assert forall|j: int| #![trigger slots[j]] x < j < slots.len() implies slots[j] != slots[x] by {
                    assert(point_slot(points[j], interval) != point_slot(points[x], interval));
                }
            }
        }
    }
}

/// What `resample_points` establishes about its selection and ordering.
pub open spec fn point_selection(
    points: Seq<TopPoint>,
    slots: Seq<(i64, i64)>,
    chosen: Seq<usize>,
    triples: Seq<(i64, i64, i64)>,
    order: Seq<(i64, i64, i64, usize)>,
    out: Seq<TopPoint>,
    interval: i64,
) -> bool {
    &&& point_slots_are(points, slots, interval)
    &&& points.len() <= usize::MAX
    &&& forall|k: int| 0 <= k < chosen.len() ==> last_of_slot(slots, #[trigger] chosen[k] as int)
    &&& forall|i: int| #[trigger] last_of_slot(slots, i) ==> chosen.contains(i as usize)
    &&& chosen.no_duplicates()
    &&& triples.len() == chosen.len()
    &&& forall|x: int|
        0 <= x < triples.len() ==> #[trigger] triples[x] == (
            points[chosen[x] as int].time,
            points[chosen[x] as int].uid,
            slots[chosen[x] as int].1,
        )
    &&& orders_triples(triples, order)
    &&& out.len() == order.len()
    &&& forall|x: int| 0 <= x < out.len() ==> #[trigger] out[x] == points[chosen[order[x].3 as int] as int]
}

proof fn lemma_selected_are_last(
    points: Seq<TopPoint>,
    slots: Seq<(i64, i64)>,
    chosen: Seq<usize>,
    triples: Seq<(i64, i64, i64)>,
    order: Seq<(i64, i64, i64, usize)>,
    out: Seq<TopPoint>,
    interval: i64,
)
    requires
        point_selection(points, slots, chosen, triples, order, out, interval),
    ensures
        forall|x: int| 0 <= x < out.len() ==> #[trigger] is_last_point(points, out[x], interval),
{
    lemma_point_slots(points, slots, interval);
    assert forall|x: int| 0 <= x < out.len() implies #[trigger] is_last_point(points, out[x], interval) by {
        let i = chosen[order[x].3 as int] as int;
        assert(last_of_slot(slots, i));
        assert(last_point_of_slot(points, i, interval));
    }
}

proof fn lemma_last_are_selected(
    points: Seq<TopPoint>,
    slots: Seq<(i64, i64)>,
    chosen: Seq<usize>,
    triples: Seq<(i64, i64, i64)>,
    order: Seq<(i64, i64, i64, usize)>,
    out: Seq<TopPoint>,
    interval: i64,
)
    requires
        point_selection(points, slots, chosen, triples, order, out, interval),
    ensures
        forall|i: int| #[trigger] last_point_of_slot(points, i, interval) ==> out.contains(points[i]),
{
    lemma_point_slots(points, slots, interval);
    assert forall|i: int| #[trigger] last_point_of_slot(points, i, interval) implies out.contains(points[i]) by {
        assert(last_of_slot(slots, i));
        assert(chosen.contains(i as usize));
        let c = choose|c: int| 0 <= c < chosen.len() && chosen[c] == i as usize;
        assert(position_kept(order, c));
        let x = choose|x: int| 0 <= x < order.len() && (#[trigger] order[x]).3 == c;
        assert(out[x] == points[chosen[order[x].3 as int] as int]);
        assert(out[x] == points[i]);
    }
}

proof fn lemma_selected_in_order(
    points: Seq<TopPoint>,
    slots: Seq<(i64, i64)>,
    chosen: Seq<usize>,
    triples: Seq<(i64, i64, i64)>,
    order: Seq<(i64, i64, i64, usize)>,
    out: Seq<TopPoint>,
    interval: i64,
)
    requires
        point_selection(points, slots, chosen, triples, order, out, interval),
    ensures
        forall|x: int, y: int|
            #![trigger out[x], out[y]]
            0 <= x < y < out.len() ==> point_before(out[x], out[y], interval),
{
    assert forall|x: int, y: int|
        #![trigger out[x], out[y]]
        0 <= x < y < out.len() implies point_before(out[x], out[y], interval) by {
        let a = order[x].3 as int;
        let b = order[y].3 as int;
        assert(key_lt(order[x], order[y]));
        assert(order[x] == (triples[a].0, triples[a].1, triples[a].2, order[x].3));
        assert(order[y] == (triples[b].0, triples[b].1, triples[b].2, order[y].3));
        let ia = chosen[a] as int;
        let ib = chosen[b] as int;
        assert(ia != ib);
        assert(last_of_slot(slots, ia));
        assert(last_of_slot(slots, ib));
        if ia < ib {
            assert(slots[ib] != slots[ia]);
        } else {
            assert(slots[ia] != slots[ib]);
        }
        assert(out[x] == points[ia]);
        assert(out[y] == points[ib]);
    }
}

/// `out` is `points` as served at `interval`: unchanged at a minute or
/// less, else resampled.
pub open spec fn served_points(points: Seq<TopPoint>, out: Seq<TopPoint>, interval: i64) -> bool {
    if interval <= RAW_INTERVAL_MS {
        out == points
    } else {
        resampled_points(points, out, interval)
    }
}

/// Resamples per-minute points to `interval_ms` buckets, keeping the last
/// point of each uid and bucket, matching Bestdori's `interval` semantics.
/// At an interval of a minute or less the points are served as they are.
pub fn resample_points(points: &Vec<TopPoint>, interval_ms: i64) -> (r: Vec<TopPoint>)
    ensures
        interval_ms <= RAW_INTERVAL_MS ==> r@ == points@,
        interval_ms > RAW_INTERVAL_MS ==> resampled_points(points@, r@, interval_ms),
{
    let n = points.len();
    if interval_ms <= RAW_INTERVAL_MS {
        let mut copy: Vec<TopPoint> = Vec::new();
        let mut i: usize = 0;
        while i < n
            invariant
                0 <= i <= n,
                n == points@.len(),
                copy@ == points@.subrange(0, i as int),
            decreases n - i,
        {
            copy.push(points[i]);
            i = i + 1;
            assert(copy@ =~= points@.subrange(0, i as int));
        }
        assert(points@.subrange(0, n as int) =~= points@);
        return copy;
    }
    let mut slots: Vec<(i64, i64)> = Vec::new();
    let mut i: usize = 0;
    while i < n
        invariant
            0 <= i <= n,
            n == points@.len(),
            interval_ms > RAW_INTERVAL_MS,
            slots@.len() == i,
            forall|k: int|
                0 <= k < i ==> (#[trigger] slots@[k]).0 == points@[k].uid && slots@[k].1 as int
                    == time_bucket(points@[k].time as int, interval_ms as int),
        decreases n - i,
    {
        let b = bucket_of(points[i].time, interval_ms);
        slots.push((points[i].uid, b));
        i = i + 1;
    }
    assert(point_slots_are(points@, slots@, interval_ms));
    let chosen = last_of_each_slot(&slots);
    let mut triples: Vec<(i64, i64, i64)> = Vec::new();
    let mut m: usize = 0;
    while m < chosen.len()
        invariant
            0 <= m <= chosen@.len(),
            point_slots_are(points@, slots@, interval_ms),
            forall|k: int| 0 <= k < chosen@.len() ==> last_of_slot(slots@, #[trigger] chosen@[k] as int),
            triples@.len() == m,
            forall|k: int|
                0 <= k < m ==> #[trigger] triples@[k] == (
                    points@[chosen@[k] as int].time,
                    points@[chosen@[k] as int].uid,
                    slots@[chosen@[k] as int].1,
                ),
        decreases chosen.len() - m,
    {
        let c = chosen[m];
        assert(last_of_slot(slots@, chosen@[m as int] as int));
        triples.push((points[c].time, points[c].uid, slots[c].1));
        m = m + 1;
    }
    let order = indexed_sort(&triples);
    let mut out: Vec<TopPoint> = Vec::new();
    let mut k: usize = 0;
    while k < order.len()
        invariant
            0 <= k <= order@.len(),
            point_slots_are(points@, slots@, interval_ms),
            orders_triples(triples@, order@),
            triples@.len() == chosen@.len(),
            forall|x: int| 0 <= x < chosen@.len() ==> last_of_slot(slots@, #[trigger] chosen@[x] as int),
            out@.len() == k,
            forall|x: int|
                0 <= x < k ==> #[trigger] out@[x] == points@[chosen@[order@[x].3 as int] as int],
        decreases order.len() - k,
    {
        let c = chosen[order[k].3];
        assert(last_of_slot(slots@, chosen@[order@[k as int].3 as int] as int));
        out.push(points[c]);
        k = k + 1;
    }
    proof {
        assert(point_selection(points@, slots@, chosen@, triples@, order@, out@, interval_ms));
        lemma_selected_are_last(points@, slots@, chosen@, triples@, order@, out@, interval_ms);
        lemma_last_are_selected(points@, slots@, chosen@, triples@, order@, out@, interval_ms);
        lemma_selected_in_order(points@, slots@, chosen@, triples@, order@, out@, interval_ms);
    }
    out
}

// ---------------------------------------------------------------------------
// Resampling twice
// ---------------------------------------------------------------------------

/// `points` increase strictly in the resampled order.
pub open spec fn points_in_order(points: Seq<TopPoint>, interval: i64) -> bool {
    forall|k: int, l: int|
        #![trigger points[k], points[l]]
        0 <= k < l < points.len() ==> point_before(points[k], points[l], interval)
}

/// Two series in strictly increasing order that hold the same points are
/// the same series.
proof fn lemma_ordered_points_unique(a: Seq<TopPoint>, b: Seq<TopPoint>, interval: i64)
    requires
        points_in_order(a, interval),
        points_in_order(b, interval),
        forall|k: int| 0 <= k < a.len() ==> b.contains(#[trigger] a[k]),
        forall|k: int| 0 <= k < b.len() ==> a.contains(#[trigger] b[k]),
    ensures
        a == b,
    decreases a.len(),
{
    if a.len() == 0 {
        if b.len() > 0 {
            assert(a.contains(b[0]));
        }
        assert(a =~= b);
    } else {
        assert(b.contains(a[0]));
        assert(b.len() > 0);
        assert(a.contains(b[0]));
        let j = choose|j: int| 0 <= j < a.len() && a[j] == b[0];
        let m = choose|m: int| 0 <= m < b.len() && b[m] == a[0];
        if j > 0 {
            assert(point_before(a[0], a[j], interval));
            if m > 0 {
                assert(point_before(b[0], b[m], interval));
            }
            assert(false);
        }
        assert(a[0] == b[0]);
        let ta = a.drop_first();
        let tb = b.drop_first();
        assert forall|k: int| 0 <= k < ta.len() implies tb.contains(#[trigger] ta[k]) by {
            assert(ta[k] == a[k + 1]);
            assert(point_before(a[0], a[k + 1], interval));
            assert(b.contains(a[k + 1]));
            let x = choose|x: int| 0 <= x < b.len() && b[x] == a[k + 1];
            assert(x != 0);
            assert(tb[x - 1] == b[x]);
        }
        assert forall|k: int| 0 <= k < tb.len() implies ta.contains(#[trigger] tb[k]) by {
            assert(tb[k] == b[k + 1]);
            assert(point_before(b[0], b[k + 1], interval));
            assert(a.contains(b[k + 1]));
            let x = choose|x: int| 0 <= x < a.len() && a[x] == b[k + 1];
            assert(x != 0);
            assert(ta[x - 1] == a[x]);
        }
        assert(points_in_order(ta, interval)) by {
            assert forall|k: int, l: int|
                #![trigger ta[k], ta[l]]
                0 <= k < l < ta.len() implies point_before(ta[k], ta[l], interval) by {
                assert(ta[k] == a[k + 1]);
                assert(ta[l] == a[l + 1]);
            }
        }
        assert(points_in_order(tb, interval)) by {
            assert forall|k: int, l: int|
                #![trigger tb[k], tb[l]]
                0 <= k < l < tb.len() implies point_before(tb[k], tb[l], interval) by {
                assert(tb[k] == b[k + 1]);
                assert(tb[l] == b[l + 1]);
            }
        }
        lemma_ordered_points_unique(ta, tb, interval);
        assert(a =~= seq![a[0]] + ta);
        assert(b =~= seq![b[0]] + tb);
    }
}

/// Every point of a resampled series is the last of its user and bucket
/// in that series.
proof fn lemma_resampled_points_all_last(points: Seq<TopPoint>, once: Seq<TopPoint>, interval: i64)
    requires
        resampled_points(points, once, interval),
    ensures
        forall|k: int| 0 <= k < once.len() ==> #[trigger] last_point_of_slot(once, k, interval),
{
    assert forall|k: int| 0 <= k < once.len() implies #[trigger] last_point_of_slot(once, k, interval) by {
        assert forall|l: int| #![trigger once[l]] k < l < once.len() implies point_slot(once[l], interval)
            != point_slot(once[k], interval) by {
            assert(is_last_point(points, once[k], interval));
            assert(is_last_point(points, once[l], interval));
            let ik = choose|i: int| #[trigger] last_point_of_slot(points, i, interval) && points[i] == once[k];
            let il = choose|i: int| #[trigger] last_point_of_slot(points, i, interval) && points[i] == once[l];
            assert(point_before(once[k], once[l], interval));
            if point_slot(once[l], interval) == point_slot(once[k], interval) {
                if ik < il {
                    assert(point_slot(points[il], interval) != point_slot(points[ik], interval));
                } else if il < ik {
                    assert(point_slot(points[ik], interval) != point_slot(points[il], interval));
                }
            }
        }
    }
}

/// Resampling is idempotent: a resampled series resamples to itself.
pub proof fn law_resample_points_idempotent(
    points: Seq<TopPoint>,
    once: Seq<TopPoint>,
    twice: Seq<TopPoint>,
    interval: i64,
)
    requires
        resampled_points(points, once, interval),
        resampled_points(once, twice, interval),
    ensures
        twice == once,
{
    lemma_resampled_points_all_last(points, once, interval);
    assert forall|k: int| 0 <= k < twice.len() implies once.contains(#[trigger] twice[k]) by {
        assert(is_last_point(once, twice[k], interval));
        let i = choose|i: int| #[trigger] last_point_of_slot(once, i, interval) && once[i] == twice[k];
    }
    assert forall|k: int| 0 <= k < once.len() implies twice.contains(#[trigger] once[k]) by {
        assert(last_point_of_slot(once, k, interval));
    }
    assert(points_in_order(once, interval));
    assert(points_in_order(twice, interval));
    lemma_ordered_points_unique(twice, once, interval);
}

} // verus!
