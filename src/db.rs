//! The store handle: opening with the schema-version gate, and each
//! operation as one transaction that commits only when it succeeds.
//!
//! The store's contents live on disk and are not modelled across
//! transactions, so the methods here state only what holds whatever the
//! store held: which requests are refused, and with which error. What each
//! operation reads and writes is specified, over the tables as one
//! transaction sees them, by the function it hands its transaction to:
//! `create_account_in`, `issue_token_in`, `authenticate_in`,
//! `create_metric_in`, `find_metric_in`, `post_in`, `query_points_in` and
//! `ensure_root_account_in`. A transaction that is not committed is dropped,
//! which discards its writes.
use crate::accounts::{authenticate_in, create_account_in, issue_token_in};
use crate::auth::{may_create_token, root_account_bytes};
use crate::bootstrap::ensure_root_account_in;
use crate::error::{StoreError, UserRequestError};
use crate::ids::{AccessToken, AccessTokenType, AccountId, MetricId};
use crate::metrics::{create_metric_in, find_metric_in};
use crate::schema::{point_key, AccessTokenRecord, MetricRecord, DataPoint, DataPointMetadata, DataPointRecord, DataPointValue, Ts};
use crate::series::{is_page, post_in, query_points_in, scan_hi, scan_lo, keys_of, PointMap, MAX_DATA_POINTS_LIMIT};
use crate::store::{
    begin_read, begin_write, commit, open_account_tables, open_series_tables, version_get, version_in, version_put,
    unchanged_except, StoreTable, points_at, metrics_at,
};
use redb_bincode::WriteTransaction;
use vstd::prelude::*;

verus! {

/// Schema version this code writes and reads.
pub const DB_VER: u64 = 0;

/// Checks the stored schema version: a fresh store gets `DB_VER`; a store
/// of a newer version is refused; an older or equal one is kept as it is.
pub fn handle_db_ver_migrations(tx: &mut WriteTransaction) -> (r: Result<(), StoreError>)
    ensures
        r is Ok ==> match version_in(*old(tx)) {
            None => version_in(*final(tx)) == Some(DB_VER) && unchanged_except(StoreTable::Version, *old(tx), *final(tx)),
            Some(v) => v <= DB_VER && *final(tx) == *old(tx),
        },
        r matches Err(StoreError::VersionTooNew { found }) ==> version_in(*old(tx)) == Some(found) && found > DB_VER,
        (version_in(*old(tx)) matches Some(v) && v > DB_VER) ==> r is Err,
        r matches Err(e) ==> !(e is User),
{
    let cur = match version_get(tx) {
        Ok(v) => v,
        Err(f) => return Err(StoreError::from_fault(f)),
    };
    match cur {
        None => match version_put(tx, DB_VER) {
            Ok(()) => Ok(()),
            Err(f) => Err(StoreError::from_fault(f)),
        },
        Some(v) => {
            if DB_VER < v {
                Err(StoreError::VersionTooNew { found: v })
            } else {
                Ok(())
            }
        },
    }
}

/// Commits `tx` if `r` succeeded; drops it, which aborts it, if not.
fn finish<T>(tx: WriteTransaction, r: Result<T, StoreError>) -> (out: Result<T, StoreError>)
    ensures
        r is Err ==> out == r,
        out is Ok ==> out == r,
        out matches Err(StoreError::User(e)) ==> r matches Err(StoreError::User(e2)) && e == e2,
{
    match r {
        Ok(v) => match commit(tx) {
            Ok(()) => Ok(v),
            Err(f) => Err(StoreError::from_fault(f)),
        },
        Err(e) => Err(e),
    }
}

/// A token resolved from a request: what it grants.
#[derive(Debug, Clone, Copy)]
pub struct Auth(pub AccessTokenRecord);

/// The shared store handle.
pub struct Store {
    db: redb_bincode::Database,
}

impl Store {
    /// Takes an opened store: creates every table that is missing and runs
    /// the schema-version gate, in one transaction.
    pub fn init(db: redb_bincode::Database) -> (r: Result<Store, StoreError>)
        ensures
            r matches Err(e) ==> !(e is User),
    {
        let mut tx = match begin_write(&db) {
            Ok(tx) => tx,
            Err(f) => return Err(StoreError::from_fault(f)),
        };
        match open_account_tables(&tx) {
            Ok(()) => {},
            Err(f) => return Err(StoreError::from_fault(f)),
        }
        match open_series_tables(&tx) {
            Ok(()) => {},
            Err(f) => return Err(StoreError::from_fault(f)),
        }
        let r = handle_db_ver_migrations(&mut tx);
        match finish(tx, r) {
            Ok(()) => Ok(Store { db }),
            Err(e) => Err(e),
        }
    }

    /// Resolves a bearer token in its transport form.
    pub fn authenticate(&self, bearer: &str) -> (r: Result<Auth, StoreError>)
        ensures
            r matches Err(StoreError::User(e)) ==> e is MalformedAuthorizationToken || e is InvalidAuthorizationToken,
    {
        let rtx = match begin_read(&self.db) {
            Ok(t) => t,
            Err(f) => return Err(StoreError::from_fault(f)),
        };
        match authenticate_in(&rtx, bearer) {
            Ok(rec) => Ok(Auth(rec)),
            Err(e) => Err(e),
        }
    }

    /// Creates an account and its first admin token; only a root token may.
    pub fn create_account(&self, auth: &Auth) -> (r: Result<(AccountId, AccessToken), StoreError>)
        ensures
            !(auth.0.token_type is Root) ==> r matches Err(StoreError::User(UserRequestError::Unauthorized)),
            r is Ok ==> auth.0.token_type is Root,
            r matches Ok(v) ==> v.0.bytes@ != root_account_bytes(),
            r matches Err(StoreError::User(e)) ==> e is Unauthorized,
    {
        match auth.0.ensure_can_create_accounts() {
            Ok(()) => {},
            Err(e) => return Err(StoreError::User(e)),
        }
        let account_id = AccountId::generate();
        let admin_token = AccessToken::generate();
        let mut tx = match begin_write(&self.db) {
            Ok(tx) => tx,
            Err(f) => return Err(StoreError::from_fault(f)),
        };
        let r = create_account_in(&mut tx, &account_id, &admin_token, Ts::now());
        match finish(tx, r) {
            Ok(()) => Ok((account_id, admin_token)),
            Err(e) => Err(e),
        }
    }

    /// Issues a new token of tier `token_type` for `account_id`; refused
    /// unless `may_create_token` holds, before any transaction is opened.
    pub fn create_token(&self, auth: &Auth, account_id: &AccountId, token_type: AccessTokenType) -> (r: Result<AccessToken, StoreError>)
        ensures
            r is Ok ==> may_create_token(auth.0, account_id.bytes@, token_type),
            !may_create_token(auth.0, account_id.bytes@, token_type) ==> r matches Err(StoreError::User(_)),
            r matches Err(StoreError::User(e)) ==> !may_create_token(auth.0, account_id.bytes@, token_type)
                && (e is Unauthorized || e is RootAccountCantBeUsed),
    {
        match auth.0.ensure_can_create_tokens(account_id, token_type) {
            Ok(()) => {},
            Err(e) => return Err(StoreError::User(e)),
        }
        let token = AccessToken::generate();
        let mut tx = match begin_write(&self.db) {
            Ok(tx) => tx,
            Err(f) => return Err(StoreError::from_fault(f)),
        };
        let r = issue_token_in(&mut tx, account_id, token_type, &token, Ts::now());
        match finish(tx, r) {
            Ok(()) => Ok(token),
            Err(e) => Err(e),
        }
    }

    /// Creates a metric owned by the token's account; any valid token may.
    pub fn create_metric(&self, auth: &Auth) -> (r: Result<MetricId, StoreError>)
        ensures
            r matches Err(e) ==> !(e is User),
    {
        let metric_id = MetricId::generate();
        let mut tx = match begin_write(&self.db) {
            Ok(tx) => tx,
            Err(f) => return Err(StoreError::from_fault(f)),
        };
        let r = create_metric_in(&mut tx, &auth.0.account_id, &metric_id, Ts::now());
        match finish(tx, r) {
            Ok(_) => Ok(metric_id),
            Err(e) => Err(e),
        }
    }

    /// The record of a metric, if it exists.
    pub fn find_metric(&self, metric_id: &MetricId) -> (r: Result<Option<MetricRecord>, StoreError>)
        ensures
            r matches Err(e) ==> !(e is User),
    {
        let rtx = match begin_read(&self.db) {
            Ok(t) => t,
            Err(f) => return Err(StoreError::from_fault(f)),
        };
        find_metric_in(&rtx, metric_id)
    }

    /// Appends a data point stamped with second `now`; returns `now`.
    pub fn post_data_point_at(&self, metric_id: &MetricId, value: DataPointValue, metadata: &DataPointMetadata, now: Ts) -> (r: Result<Ts, StoreError>)
        requires
            metadata.wf(),
        ensures
            r matches Ok(ts) ==> ts == now,
            r matches Err(StoreError::User(e)) ==> e is MetricNotFound,
    {
        let mut tx = match begin_write(&self.db) {
            Ok(tx) => tx,
            Err(f) => return Err(StoreError::from_fault(f)),
        };
        let r = post_in(&mut tx, metric_id, value, metadata, now);
        finish(tx, r)
    }

    /// Appends a data point stamped with the current second, which it returns.
    pub fn post_data_point(&self, metric_id: &MetricId, value: DataPointValue, metadata: &DataPointMetadata) -> (r: Result<Ts, StoreError>)
        requires
            metadata.wf(),
        ensures
            r matches Err(StoreError::User(e)) ==> e is MetricNotFound,
    {
        self.post_data_point_at(metric_id, value, metadata, Ts::now())
    }

    /// Runs the root bootstrap with the configured token, in one transaction
    /// (see `ensure_root_account_in`).
    pub fn ensure_root_account(&self, token: &AccessToken) -> (r: Result<(), StoreError>)
        ensures
            r matches Err(e) ==> !(e is User),
    {
        let mut tx = match begin_write(&self.db) {
            Ok(tx) => tx,
            Err(f) => return Err(StoreError::from_fault(f)),
        };
        let r = ensure_root_account_in(&mut tx, token, Ts::now());
        finish(tx, r)
    }

    /// `query_range_limited` with the page size `MAX_DATA_POINTS_LIMIT`.
    pub fn query_range(&self, metric_id: &MetricId, start: Option<Ts>, end: Option<Ts>) -> (r: Result<Vec<(Ts, DataPointRecord)>, StoreError>)
        ensures
            r matches Ok(v) ==> exists|m: PointMap, iid: u64, ks: Seq<DataPoint>|
                #![trigger is_page(m, scan_lo(iid, start), scan_hi(iid, end), MAX_DATA_POINTS_LIMIT as nat, ks)]
                is_page(m, scan_lo(iid, start), scan_hi(iid, end), MAX_DATA_POINTS_LIMIT as nat, ks)
                && ks.len() == v@.len()
                && forall|i: int| 0 <= i < ks.len() ==> (#[trigger] ks[i]).ts == v@[i].0
                    && m[point_key(ks[i])] == (v@[i].1.value.0, v@[i].1.metadata.view()),
            r matches Err(StoreError::User(e)) ==> e is MetricNotFound,
    {
        self.query_range_limited(metric_id, start, end, MAX_DATA_POINTS_LIMIT)
    }

    /// Reads points of a metric from `start` (inclusive) to `end`
    /// (exclusive) as one page (see `is_page`) of at most `limit` points but
    /// for the rest of the last second's group, as `(second, record)` pairs
    /// in ascending order.
    pub fn query_range_limited(&self, metric_id: &MetricId, start: Option<Ts>, end: Option<Ts>, limit: usize) -> (r: Result<Vec<(Ts, DataPointRecord)>, StoreError>)
        ensures
            r matches Ok(v) ==> exists|m: PointMap, iid: u64, ks: Seq<DataPoint>|
                #![trigger is_page(m, scan_lo(iid, start), scan_hi(iid, end), limit as nat, ks)]
                is_page(m, scan_lo(iid, start), scan_hi(iid, end), limit as nat, ks)
                && ks.len() == v@.len()
                && forall|i: int| 0 <= i < ks.len() ==> (#[trigger] ks[i]).ts == v@[i].0
                    && m[point_key(ks[i])] == (v@[i].1.value.0, v@[i].1.metadata.view()),
            r matches Err(StoreError::User(e)) ==> e is MetricNotFound,
    {
        let rtx = match begin_read(&self.db) {
            Ok(t) => t,
            Err(f) => return Err(StoreError::from_fault(f)),
        };
        let points = match query_points_in(&rtx, metric_id, start, end, limit) {
            Ok(p) => p,
            Err(e) => return Err(e),
        };
        let ghost ks = keys_of(points@);
        let mut out: Vec<(Ts, DataPointRecord)> = Vec::new();
        let mut i: usize = 0;
        while i < points.len()
            invariant
                i <= points@.len(),
                out@.len() == i,
                forall|j: int| 0 <= j < i ==> (#[trigger] out@[j]).0 == points@[j].0.ts
                    && out@[j].1.value == points@[j].1.value
                    && out@[j].1.metadata.view() == points@[j].1.metadata.view(),
            decreases points@.len() - i,
        {
            let e = &points[i];
            let rec = DataPointRecord { value: e.1.value, metadata: e.1.metadata.duplicate() };
            out.push((e.0.ts, rec));
            i = i + 1;
        }
        proof {
            let m = points_at(rtx);
            let iid = metrics_at(rtx)[metric_id.bytes@].2;
            assert(is_page(m, scan_lo(iid, start), scan_hi(iid, end), limit as nat, ks));
            assert(ks.len() == out@.len());
            assert forall|i: int| 0 <= i < ks.len() implies (#[trigger] ks[i]).ts == out@[i].0
                && m[point_key(ks[i])] == (out@[i].1.value.0, out@[i].1.metadata.view()) by {
                assert(ks[i] == points@[i].0);
            }
        }
        Ok(out)
    }
}

} // verus!
