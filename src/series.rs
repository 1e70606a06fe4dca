//! The time-series engine: appending a data point, and reading a bounded,
//! time-ordered page of them without splitting a second's group of points.
use crate::error::{StoreError, UserRequestError};
use crate::ids::{MetricId, MetricInternalId};
use crate::keys::{lex_le, lex_lt};
use crate::schema::{
    lemma_point_key_le, lemma_point_key_order, lemma_point_rank_order, point_key, point_le, point_lt, point_rank,
    DataPoint, DataPointMetadata, DataPointRecord, DataPointValue, Ts,
};
use crate::store::{
    metrics_at, metrics_get, metrics_in, points_at, points_in, points_last_in, points_put,
    snapshot_metrics_get, snapshot_points_first_in, unchanged_except, StoreTable,
};
use redb_bincode::{ReadTransaction, WriteTransaction};
use vstd::prelude::*;

verus! {

/// Most data points one query returns, but for the rest of a second's group.
pub const MAX_DATA_POINTS_LIMIT: usize = 1000;

/// Query naming a metric.
#[derive(Debug, Clone, Copy)]
pub struct MetricGetPayload {
    pub metric_id: MetricId,
}

/// The stored data points, keyed by stored key.
pub type PointMap = Map<Seq<u8>, (u32, Seq<char>)>;

/// The data point key of metric `iid`, second `ts`, position `idx`.
pub open spec fn pt(iid: u64, ts: u64, idx: u64) -> DataPoint {
    DataPoint { metric_internal_id: MetricInternalId(iid), ts: Ts(ts), idx }
}

pub open spec fn has_point(m: PointMap, p: DataPoint) -> bool {
    m.contains_key(point_key(p))
}

/// `idx` is where the next point of metric `iid` in second `ts` goes: one
/// past the highest position stored for that second, or 0 for the first.
pub open spec fn is_next_idx(m: PointMap, iid: u64, ts: u64, idx: u64) -> bool {
    &&& forall|i: u64| #[trigger] has_point(m, pt(iid, ts, i)) ==> i < idx
    &&& (idx == 0 || has_point(m, pt(iid, ts, (idx - 1) as u64)))
}

/// `p` is stored and lies in `[lo, hi)`.
pub open spec fn in_scan(m: PointMap, lo: DataPoint, hi: DataPoint, p: DataPoint) -> bool {
    has_point(m, p) && point_le(lo, p) && point_lt(p, hi)
}

/// `r` is the page that a query over `[lo, hi)` with `limit` returns: the
/// stored keys of the range in ascending order, from the first on, and past
/// `limit` only while they continue the last second's group. It stops at the
/// first key left out, which starts a new second (its position is 0).
pub open spec fn is_page(m: PointMap, lo: DataPoint, hi: DataPoint, limit: nat, r: Seq<DataPoint>) -> bool {
    &&& forall|i: int| 0 <= i < r.len() ==> in_scan(m, lo, hi, #[trigger] r[i])
    &&& forall|i: int, j: int| 0 <= i < j < r.len() ==> point_lt(#[trigger] r[i], #[trigger] r[j])
    &&& forall|i: int| 0 <= i < r.len() && i >= limit ==> (#[trigger] r[i]).idx != 0
    &&& forall|p: DataPoint|
        #![trigger in_scan(m, lo, hi, p)]
        in_scan(m, lo, hi, p) && !r.contains(p) ==> r.len() >= limit && forall|i: int|
            0 <= i < r.len() ==> point_lt(#[trigger] r[i], p)
    &&& forall|p: DataPoint|
        #![trigger in_scan(m, lo, hi, p)]
        in_scan(m, lo, hi, p) && !r.contains(p) && (forall|q: DataPoint|
            in_scan(m, lo, hi, q) && point_lt(q, p) ==> r.contains(q)) ==> p.idx == 0
}

/// First key of a query of metric `iid` from `start` (from the beginning where
/// absent).
pub open spec fn scan_lo(iid: u64, start: Option<Ts>) -> DataPoint {
    match start {
        Some(s) => pt(iid, s.0, 0),
        None => pt(iid, 0, 0),
    }
}

/// First key past a query of metric `iid` up to `end`; where absent, the first
/// key of the next internal id, so that no other metric is ever read.
pub open spec fn scan_hi(iid: u64, end: Option<Ts>) -> DataPoint {
    match end {
        Some(e) => pt(iid, e.0, 0),
        None => pt((iid + 1) as u64, 0, 0),
    }
}

pub open spec fn keys_of(r: Seq<(DataPoint, DataPointRecord)>) -> Seq<DataPoint> {
    r.map_values(|e: (DataPoint, DataPointRecord)| e.0)
}

/// Each returned record is what is stored under its key.
pub open spec fn records_match(m: PointMap, r: Seq<(DataPoint, DataPointRecord)>) -> bool {
    forall|i: int|
        0 <= i < r.len() ==> m[point_key((#[trigger] r[i]).0)] == (r[i].1.value.0, r[i].1.metadata.view())
            && r[i].1.metadata.wf()
}

/// Appends a data point to metric `metric_id` at second `now`, in the next
/// free position of that second, and returns `now`.
pub fn post_in(
    tx: &mut WriteTransaction,
    metric_id: &MetricId,
    value: DataPointValue,
    metadata: &DataPointMetadata,
    now: Ts,
) -> (r: Result<Ts, StoreError>)
    requires
        metadata.wf(),
    ensures
        r matches Ok(ts) ==> {
            let iid = metrics_in(*old(tx))[metric_id.bytes@].2;
            &&& ts == now
            &&& metrics_in(*old(tx)).contains_key(metric_id.bytes@)
            &&& exists|idx: u64|
                is_next_idx(points_in(*old(tx)), iid, now.0, idx) && points_in(*final(tx))
                    == points_in(*old(tx)).insert(
                    point_key(pt(iid, now.0, idx)),
                    (value.0, metadata.view()),
                )
            &&& unchanged_except(StoreTable::Points, *old(tx), *final(tx))
        },
        r matches Err(StoreError::User(e)) ==> e is MetricNotFound && !metrics_in(
            *old(tx),
        ).contains_key(metric_id.bytes@),
        r matches Err(StoreError::Exhausted) ==> metrics_in(*old(tx)).contains_key(metric_id.bytes@)
            && has_point(points_in(*old(tx)), pt(metrics_in(*old(tx))[metric_id.bytes@].2, now.0, u64::MAX)),
        (r matches Err(StoreError::User(_)) || r matches Err(StoreError::Exhausted)) ==> *final(tx) == *old(tx),
{
    let found = match metrics_get(tx, &metric_id.bytes) {
        Ok(o) => o,
        Err(f) => return Err(StoreError::from_fault(f)),
    };
    let rec = match found {
        None => return Err(StoreError::User(UserRequestError::MetricNotFound(*metric_id))),
        Some(v) => v,
    };
    let iid = rec.2;
    let ghost m = points_in(*tx);
    let lo_p = DataPoint { metric_internal_id: MetricInternalId(iid), ts: now, idx: 0 };
    let hi_p = DataPoint { metric_internal_id: MetricInternalId(iid), ts: now, idx: u64::MAX };
    let lo = lo_p.to_key();
    let hi = hi_p.to_key();
    let last = match points_last_in(tx, &lo, &hi) {
        Ok(o) => o,
        Err(f) => return Err(StoreError::from_fault(f)),
    };
    let idx: u64 = match last {
        None => {
            proof {
                assert forall|i: u64| #[trigger] has_point(m, pt(iid, now.0, i)) implies i < 0 by {
                    lemma_point_key_order(lo_p, pt(iid, now.0, i));
                    lemma_point_key_order(pt(iid, now.0, i), hi_p);
                    assert(point_le(lo_p, pt(iid, now.0, i)));
                    assert(point_le(pt(iid, now.0, i), hi_p));
                    assert(lex_le(lo@, point_key(pt(iid, now.0, i))));
                    assert(lex_le(point_key(pt(iid, now.0, i)), hi@));
                    assert(m.contains_key(point_key(pt(iid, now.0, i))));
                }
            }
            0
        },
        Some(k) => {
            let p = DataPoint::from_key(&k);
            proof {
                lemma_point_key_order(lo_p, p);
                lemma_point_key_order(p, hi_p);
                assert(p.metric_internal_id.0 == iid && p.ts == now);
                assert forall|i: u64| #[trigger] has_point(m, pt(iid, now.0, i)) implies i <= p.idx by {
                    let q = pt(iid, now.0, i);
                    lemma_point_key_le(lo_p, q);
                    lemma_point_key_le(q, hi_p);
                    lemma_point_key_le(q, p);
                    assert(lex_le(lo@, point_key(q)));
                    assert(lex_le(point_key(q), hi@));
                    assert(m.contains_key(point_key(q)));
                    assert(lex_le(point_key(q), k@));
                }
                assert(pt(iid, now.0, p.idx) == p);
            }
            if p.idx == u64::MAX {
                return Err(StoreError::Exhausted);
            }
            p.idx + 1
        },
    };
    assert(is_next_idx(m, iid, now.0, idx));
    let key_p = DataPoint { metric_internal_id: MetricInternalId(iid), ts: now, idx };
    let key = key_p.to_key();
    match points_put(tx, &key, value.0, metadata.text()) {
        Ok(()) => {},
        Err(f) => return Err(StoreError::from_fault(f)),
    }
    assert(key_p == pt(iid, now.0, idx));
    assert(is_next_idx(m, iid, now.0, idx) && points_in(*tx) == m.insert(
        point_key(pt(iid, now.0, idx)),
        (value.0, metadata.view()),
    ));
    assert(metrics_in(*old(tx))[metric_id.bytes@].2 == iid);
    assert(m == points_in(*old(tx)));
    assert(unchanged_except(StoreTable::Points, *old(tx), *tx));
    Ok(now)
}

/// Whether `a` comes before `b`.
fn points_ordered(a: &DataPoint, b: &DataPoint) -> (r: bool)
    ensures
        r == point_lt(*a, *b),
{
    a.metric_internal_id.0 < b.metric_internal_id.0 || (a.metric_internal_id.0
        == b.metric_internal_id.0 && (a.ts.0 < b.ts.0 || (a.ts.0 == b.ts.0 && a.idx < b.idx)))
}

/// The key right after `p`.
fn successor(p: DataPoint) -> (r: DataPoint)
    requires
        !(p.metric_internal_id.0 == u64::MAX && p.ts.0 == u64::MAX && p.idx == u64::MAX),
    ensures
        point_rank(r) == point_rank(p) + 1,
{
    if p.idx < u64::MAX {
        DataPoint { idx: p.idx + 1, ..p }
    } else if p.ts.0 < u64::MAX {
        DataPoint { metric_internal_id: p.metric_internal_id, ts: Ts(p.ts.0 + 1), idx: 0 }
    } else {
        DataPoint { metric_internal_id: MetricInternalId(p.metric_internal_id.0 + 1), ts: Ts(0), idx: 0 }
    }
}

/// Reads the page of points of `[lo, hi)` (see `is_page`) from a snapshot.
pub fn scan_page(rtx: &ReadTransaction, lo: DataPoint, hi: DataPoint, limit: usize) -> (r: Result<Vec<(DataPoint, DataPointRecord)>, StoreError>)
    ensures
        r matches Ok(v) ==> is_page(points_at(*rtx), lo, hi, limit as nat, keys_of(v@))
            && records_match(points_at(*rtx), v@),
        r matches Err(e) ==> e is Storage || e is Corrupt,
{
    let ghost m = points_at(*rtx);
    let hi_key = hi.to_key();
    let mut out: Vec<(DataPoint, DataPointRecord)> = Vec::new();
    let mut cur = lo;
    if points_ordered(&hi, &lo) {
        cur = hi;
    }
    loop
        invariant
            m == points_at(*rtx),
            point_rank(cur) <= point_rank(hi),
            point_le(lo, cur) || cur == hi,
            hi_key@ == point_key(hi),
            forall|i: int| 0 <= i < out.len() ==> in_scan(m, lo, hi, #[trigger] keys_of(out@)[i]) && point_lt(keys_of(out@)[i], cur),
            forall|i: int, j: int| 0 <= i < j < out.len() ==> point_lt(#[trigger] keys_of(out@)[i], #[trigger] keys_of(out@)[j]),
            forall|i: int| 0 <= i < out.len() && i >= limit ==> (#[trigger] keys_of(out@)[i]).idx != 0,
            forall|p: DataPoint| #[trigger] in_scan(m, lo, hi, p) && point_lt(p, cur) ==> keys_of(out@).contains(p),
            records_match(m, out@),
        ensures
            is_page(m, lo, hi, limit as nat, keys_of(out@)),
            records_match(m, out@),
        decreases point_rank(hi) - point_rank(cur),
    {
        let ghost keys = keys_of(out@);
        let cur_key = cur.to_key();
        let found = match snapshot_points_first_in(rtx, &cur_key, &hi_key) {
            Ok(o) => o,
            Err(f) => return Err(StoreError::from_fault(f)),
        };
        match found {
            None => {
                proof {
                    assert forall|p: DataPoint| #[trigger] in_scan(m, lo, hi, p) implies point_lt(p, cur) by {
                        lemma_point_key_le(cur, p);
                        lemma_point_key_le(p, hi);
                        if !point_lt(p, cur) {
                            assert(lex_le(cur_key@, point_key(p)));
                            assert(lex_lt(point_key(p), hi_key@));
                            assert(m.contains_key(point_key(p)));
                        }
                    }
                }
                break;
            },
            Some(e) => {
                let p = DataPoint::from_key(&e.0);
                proof {
                    lemma_point_key_le(cur, p);
                    lemma_point_key_le(p, hi);
                    lemma_point_rank_order(p, hi);
                    lemma_point_rank_order(cur, p);
                    assert(points_at(*rtx).contains_key(e.0@));
                    assert(point_key(p) == e.0@);
                    assert(point_le(cur, p));
                    assert(point_lt(p, hi));
                    assert(has_point(m, p));
                    assert(point_le(lo, p));
                    assert(in_scan(m, lo, hi, p));
                    assert forall|q: DataPoint| #[trigger] in_scan(m, lo, hi, q) && !point_lt(q, cur) implies point_le(p, q) by {
                        lemma_point_key_le(cur, q);
                        lemma_point_key_le(q, hi);
                        lemma_point_key_le(p, q);
                        assert(lex_le(cur_key@, point_key(q)));
                        assert(lex_lt(point_key(q), hi_key@));
                        assert(m.contains_key(point_key(q)));
                        assert(lex_le(e.0@, point_key(q)));
                    }
                    assert(!keys.contains(p)) by {
                        if keys.contains(p) {
                            let i = choose|i: int| 0 <= i < keys.len() && keys[i] == p;
                            assert(point_lt(keys[i], cur));
                        }
                    }
                }
                if out.len() >= limit && p.idx == 0 {
                    proof {
                        assert forall|q: DataPoint| #[trigger] in_scan(m, lo, hi, q) && !keys.contains(q) implies keys.len() >= limit && forall|i: int| 0 <= i < keys.len() ==> point_lt(#[trigger] keys[i], q) by {
                            assert(!point_lt(q, cur));
                            assert(point_le(p, q));
                        }
                        assert forall|q: DataPoint| #[trigger] in_scan(m, lo, hi, q) && !keys.contains(q) && (forall|q2: DataPoint| in_scan(m, lo, hi, q2) && point_lt(q2, q) ==> keys.contains(q2)) implies q.idx == 0 by {
                            assert(point_le(p, q));
                            if point_lt(p, q) {
                                assert(keys.contains(p));
                            }
                        }
                    }
                    break;
                }
                let metadata = match DataPointMetadata::try_new(e.2.as_str()) {
                    Ok(md) => md,
                    Err(_) => return Err(StoreError::Corrupt),
                };
                let rec = DataPointRecord { value: DataPointValue(e.1), metadata };
                out.push((p, rec));
                proof {
                    assert(keys_of(out@) =~= keys.push(p));
                    assert(point_rank(p) < point_rank(hi));
                }
                let ghost prev = cur;
                cur = successor(p);
                proof {
                    lemma_point_rank_order(p, cur);
                    lemma_point_rank_order(cur, hi);
                    assert(keys_of(out@)[keys.len() as int] == p);
                    assert forall|q: DataPoint| #[trigger] in_scan(m, lo, hi, q) && point_lt(q, cur) implies keys_of(out@).contains(q) by {
                        lemma_point_rank_order(q, p);
                        lemma_point_rank_order(q, cur);
                        lemma_point_rank_order(q, prev);
                        if point_lt(q, prev) {
                            assert(keys.contains(q));
                            let i = choose|i: int| 0 <= i < keys.len() && keys[i] == q;
                            assert(keys_of(out@)[i] == q);
                        } else {
                            assert(point_le(p, q));
                            assert(q == p);
                        }
                    }
                    assert forall|i: int| 0 <= i < out.len() implies point_lt(#[trigger] keys_of(out@)[i], cur) by {
                        if i < keys.len() {
                            assert(keys_of(out@)[i] == keys[i]);
                            lemma_point_rank_order(keys[i], prev);
                            lemma_point_rank_order(keys[i], cur);
                        }
                    }
                }
            },
        }
    }
    Ok(out)
}

/// Reads the points of metric `metric_id` from second `start` (inclusive,
/// from the beginning where absent) to second `end` (exclusive, to the last
/// where absent), as one page of at most `limit` points but for the rest of
/// the last second's group.
pub fn query_points_in(
    rtx: &ReadTransaction,
    metric_id: &MetricId,
    start: Option<Ts>,
    end: Option<Ts>,
    limit: usize,
) -> (r: Result<Vec<(DataPoint, DataPointRecord)>, StoreError>)
    ensures
        r matches Ok(v) ==> {
            let iid = metrics_at(*rtx)[metric_id.bytes@].2;
            &&& metrics_at(*rtx).contains_key(metric_id.bytes@)
            &&& (end is None ==> iid < u64::MAX)
            &&& is_page(points_at(*rtx), scan_lo(iid, start), scan_hi(iid, end), limit as nat, keys_of(v@))
            &&& records_match(points_at(*rtx), v@)
        },
        r matches Err(StoreError::User(e)) ==> e is MetricNotFound && !metrics_at(*rtx).contains_key(
            metric_id.bytes@,
        ),
        r matches Err(StoreError::Exhausted) ==> end is None && metrics_at(*rtx).contains_key(metric_id.bytes@)
            && metrics_at(*rtx)[metric_id.bytes@].2 == u64::MAX,
{
    let found = match snapshot_metrics_get(rtx, &metric_id.bytes) {
        Ok(o) => o,
        Err(f) => return Err(StoreError::from_fault(f)),
    };
    let rec = match found {
        None => return Err(StoreError::User(UserRequestError::MetricNotFound(*metric_id))),
        Some(v) => v,
    };
    let iid = rec.2;
    let lo = match start {
        Some(s) => DataPoint { metric_internal_id: MetricInternalId(iid), ts: s, idx: 0 },
        None => DataPoint { metric_internal_id: MetricInternalId(iid), ts: Ts(0), idx: 0 },
    };
    let hi = match end {
        Some(e) => DataPoint { metric_internal_id: MetricInternalId(iid), ts: e, idx: 0 },
        None => {
            if iid == u64::MAX {
                return Err(StoreError::Exhausted);
            }
            DataPoint { metric_internal_id: MetricInternalId(iid + 1), ts: Ts(0), idx: 0 }
        },
    };
    assert(lo == scan_lo(iid, start));
    assert(hi == scan_hi(iid, end));
    scan_page(rtx, lo, hi, limit)
}

} // verus!
