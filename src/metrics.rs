//! Creating metrics: a random public id, and the next internal id.
use crate::error::StoreError;
use crate::ids::{AccountId, MetricId, MetricInternalId};
use crate::keys::{
    be_value, lemma_be_bytes_len, lemma_lex_is_numeric, lemma_pow256_values, lemma_value_of_bytes, lex_le,
};
use crate::schema::{
    internal_id_key, lemma_point_key_is_rank, lemma_point_key_order, lemma_point_of_key, point_key,
    point_of_key, DataPoint, MetricRecord, Ts,
};
use crate::series::{has_point, PointMap};
use crate::store::{
    accounts_in, metrics_at, metrics_in, metrics_put, metrics_rev_in, metrics_rev_last,
    metrics_rev_put, points_in, snapshot_metrics_get, token_rev_in, tokens_in, version_in,
};
use redb_bincode::{ReadTransaction, WriteTransaction};
use vstd::prelude::*;

verus! {

/// `id` is the internal id the next metric gets: one past the largest
/// assigned, or 0 for the first.
pub open spec fn is_next_internal_id(rev: Map<Seq<u8>, Seq<u8>>, id: u64) -> bool {
    &&& forall|k: Seq<u8>| #[trigger] rev.contains_key(k) && k.len() == 8 ==> be_value(k) < id
    &&& (id == 0 || rev.contains_key(internal_id_key(MetricInternalId((id - 1) as u64))))
}

/// Every stored data point belongs to an internal id that has been assigned.
pub open spec fn points_belong(points: PointMap, rev: Map<Seq<u8>, Seq<u8>>) -> bool {
    forall|k: Seq<u8>|
        #[trigger] points.contains_key(k) && k.len() == 24 ==> rev.contains_key(
            internal_id_key(point_of_key(k).metric_internal_id),
        )
}

/// Creates metric `metric_id` of account `owner` at second `now`, with the
/// next internal id, which it returns.
pub fn create_metric_in(tx: &mut WriteTransaction, owner: &AccountId, metric_id: &MetricId, now: Ts) -> (r: Result<MetricInternalId, StoreError>)
    ensures
        r matches Ok(id) ==> {
            &&& is_next_internal_id(metrics_rev_in(*old(tx)), id.0)
            &&& metrics_in(*final(tx)) == metrics_in(*old(tx)).insert(
                metric_id.bytes@,
                (now.0, owner.bytes@, id.0),
            )
            &&& metrics_rev_in(*final(tx)) == metrics_rev_in(*old(tx)).insert(internal_id_key(id), metric_id.bytes@)
            &&& accounts_in(*final(tx)) == accounts_in(*old(tx))
            &&& tokens_in(*final(tx)) == tokens_in(*old(tx))
            &&& token_rev_in(*final(tx)) == token_rev_in(*old(tx))
            &&& points_in(*final(tx)) == points_in(*old(tx))
            &&& version_in(*final(tx)) == version_in(*old(tx))
        },
        r matches Ok(id) ==> (points_belong(points_in(*old(tx)), metrics_rev_in(*old(tx))) ==> forall|p: DataPoint|
            #[trigger] has_point(points_in(*final(tx)), p) ==> p.metric_internal_id != id),
        r matches Err(StoreError::Exhausted) ==> metrics_rev_in(*old(tx)).contains_key(
            internal_id_key(MetricInternalId(u64::MAX)),
        ) && *final(tx) == *old(tx),
        r matches Err(e) ==> !(e is User),
{
    let last = match metrics_rev_last(tx) {
        Ok(o) => o,
        Err(f) => return Err(StoreError::from_fault(f)),
    };
    let ghost rev = metrics_rev_in(*tx);
    let id = match last {
        None => MetricInternalId(0),
        Some(k) => {
            let prev = MetricInternalId::from_key(&k);
            proof {
                assert forall|k2: Seq<u8>| #[trigger] rev.contains_key(k2) && k2.len() == 8 implies be_value(k2) <= prev.0 by {
                    assert(lex_le(k2, k@));
                    lemma_lex_is_numeric(k2, k@);
                }
            }
            if prev.0 == u64::MAX {
                return Err(StoreError::Exhausted);
            }
            let next = prev.next();
            assert(MetricInternalId((next.0 - 1) as u64) == prev);
            next
        },
    };
    assert(is_next_internal_id(rev, id.0));
    proof {
        let points = points_in(*tx);
        if points_belong(points, rev) {
            assert forall|p: DataPoint| #[trigger] has_point(points, p) implies p.metric_internal_id != id by {
                let k = point_key(p);
                lemma_point_key_is_rank(p);
                lemma_point_of_key(k);
                lemma_point_key_order(point_of_key(k), p);
                assert(points.contains_key(k) && k.len() == 24);
                if p.metric_internal_id == id {
                    lemma_pow256_values();
                    lemma_be_bytes_len(id.0 as nat, 8);
                    lemma_value_of_bytes(id.0 as nat, 8);
                    assert(rev.contains_key(internal_id_key(id)));
                }
            }
        }
    }
    match metrics_put(tx, &metric_id.bytes, (now.0, owner.bytes, id.0)) {
        Ok(()) => {},
        Err(f) => return Err(StoreError::from_fault(f)),
    }
    let key = id.to_key();
    match metrics_rev_put(tx, &key, &metric_id.bytes) {
        Ok(()) => {},
        Err(f) => return Err(StoreError::from_fault(f)),
    }
    Ok(id)
}

/// Stored form of a metric record.
pub open spec fn metric_value(r: MetricRecord) -> (u64, Seq<u8>, u64) {
    (r.created.0, r.account_id.bytes@, r.internal_id.0)
}

/// Looks a metric up in a snapshot.
pub fn find_metric_in(rtx: &ReadTransaction, metric_id: &MetricId) -> (r: Result<Option<MetricRecord>, StoreError>)
    ensures
        r matches Ok(o) ==> match o {
            Some(rec) => metrics_at(*rtx).contains_key(metric_id.bytes@) && metrics_at(*rtx)[metric_id.bytes@]
                == metric_value(rec),
            None => !metrics_at(*rtx).contains_key(metric_id.bytes@),
        },
        r matches Err(e) ==> !(e is User),
{
    match snapshot_metrics_get(rtx, &metric_id.bytes) {
        Ok(None) => Ok(None),
        Ok(Some(v)) => Ok(
            Some(
                MetricRecord {
                    created: Ts(v.0),
                    account_id: AccountId { bytes: v.1 },
                    internal_id: MetricInternalId(v.2),
                },
            ),
        ),
        Err(f) => Err(StoreError::from_fault(f)),
    }
}

} // verus!
