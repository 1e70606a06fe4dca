//! The embedded store: redb-bincode transactions and tables, seen through the
//! contents of each table. Every key that is scanned by range is a byte array
//! laid out in `schema`, so the store's byte order is the order proved there.
use redb_bincode::redb::ReadableTable;
use redb_bincode::{AccessGuard, Database, ReadTransaction, TableDefinition, WriteTransaction};
use vstd::prelude::*;
use crate::keys::{lex_le, lex_lt};

verus! {

#[verifier::external_type_specification]
#[verifier::external_body]
pub struct ExDatabase(redb_bincode::Database);

#[verifier::external_type_specification]
#[verifier::external_body]
pub struct ExWriteTransaction(redb_bincode::WriteTransaction);

#[verifier::external_type_specification]
#[verifier::external_body]
pub struct ExReadTransaction(redb_bincode::ReadTransaction);

// Table definitions: name and key and value types of each table.
type AccountsTable = TableDefinition<'static, [u8; 16], u64>;
type TokensTable = TableDefinition<'static, [u8; 32], (u64, [u8; 16], u8)>;
type TokenRevTable = TableDefinition<'static, [u8; 48], ()>;
type MetricsTable = TableDefinition<'static, [u8; 16], (u64, [u8; 16], u64)>;
type MetricsRevTable = TableDefinition<'static, [u8; 8], [u8; 16]>;
type PointsTable = TableDefinition<'static, [u8; 24], (u32, String)>;
type VersionTable = TableDefinition<'static, (), u64>;

/// A failed store call: the storage layer failed, or a stored value did not
/// decode.
#[derive(Debug, Clone, Copy, PartialEq, Eq, Structural)]
pub enum DbFault {
    Storage,
    Corrupt,
}

/// Accounts as a write transaction sees them: account id -> creation second.
pub uninterp spec fn accounts_in(tx: WriteTransaction) -> Map<Seq<u8>, u64>;

/// Tokens as a write transaction sees them: token -> (creation second,
/// account id, tier code).
pub uninterp spec fn tokens_in(tx: WriteTransaction) -> Map<Seq<u8>, (u64, Seq<u8>, u8)>;

/// Reverse token index as a write transaction sees it: account id ++ token.
pub uninterp spec fn token_rev_in(tx: WriteTransaction) -> Set<Seq<u8>>;

/// Metrics as a write transaction sees them: metric id -> (creation second,
/// account id, internal id).
pub uninterp spec fn metrics_in(tx: WriteTransaction) -> Map<Seq<u8>, (u64, Seq<u8>, u64)>;

/// Internal id -> metric id, as a write transaction sees it.
pub uninterp spec fn metrics_rev_in(tx: WriteTransaction) -> Map<Seq<u8>, Seq<u8>>;

/// Data points as a write transaction sees them: key -> (value bits, metadata).
pub uninterp spec fn points_in(tx: WriteTransaction) -> Map<Seq<u8>, (u32, Seq<char>)>;

/// The schema version record as a write transaction sees it.
pub uninterp spec fn version_in(tx: WriteTransaction) -> Option<u64>;

/// Tokens in a read transaction's snapshot.
pub uninterp spec fn tokens_at(tx: ReadTransaction) -> Map<Seq<u8>, (u64, Seq<u8>, u8)>;

/// Metrics in a read transaction's snapshot.
pub uninterp spec fn metrics_at(tx: ReadTransaction) -> Map<Seq<u8>, (u64, Seq<u8>, u64)>;

/// Data points in a read transaction's snapshot.
pub uninterp spec fn points_at(tx: ReadTransaction) -> Map<Seq<u8>, (u32, Seq<char>)>;

/// The tables of the store.
pub enum StoreTable {
    Accounts,
    Tokens,
    TokenRev,
    Metrics,
    MetricsRev,
    Points,
    Version,
}

/// Every table but `t` holds the same in `a` and `b`.
pub open spec fn unchanged_except(t: StoreTable, a: WriteTransaction, b: WriteTransaction) -> bool {
    &&& (t is Accounts || accounts_in(a) == accounts_in(b))
    &&& (t is Tokens || tokens_in(a) == tokens_in(b))
    &&& (t is TokenRev || token_rev_in(a) == token_rev_in(b))
    &&& (t is Metrics || metrics_in(a) == metrics_in(b))
    &&& (t is MetricsRev || metrics_rev_in(a) == metrics_rev_in(b))
    &&& (t is Points || points_in(a) == points_in(b))
    &&& (t is Version || version_in(a) == version_in(b))
}

/// The tables of metrics, data points and the version hold the same in `a`
/// and `b`.
pub open spec fn series_unchanged(a: WriteTransaction, b: WriteTransaction) -> bool {
    &&& metrics_in(a) == metrics_in(b)
    &&& metrics_rev_in(a) == metrics_rev_in(b)
    &&& points_in(a) == points_in(b)
    &&& version_in(a) == version_in(b)
}

/// Relies on `redb_bincode::Database::begin_write`.
#[verifier::external_body]
pub fn begin_write(db: &Database) -> (r: Result<WriteTransaction, DbFault>) {
    db.begin_write().map_err(|_| DbFault::Storage)
}

/// Relies on `redb_bincode::Database::begin_read`.
#[verifier::external_body]
pub fn begin_read(db: &Database) -> (r: Result<ReadTransaction, DbFault>) {
    db.begin_read().map_err(|_| DbFault::Storage)
}

/// Relies on `redb_bincode::WriteTransaction::commit`.
#[verifier::external_body]
pub fn commit(tx: WriteTransaction) -> (r: Result<(), DbFault>) {
    tx.commit().map_err(|_| DbFault::Storage)
}

/// Relies on `WriteTransaction::open_table`, which creates a missing table
/// empty and leaves an existing one as it is: the account and token tables.
#[verifier::external_body]
pub fn open_account_tables(tx: &WriteTransaction) -> (r: Result<(), DbFault>) {
    let a = tx.open_table(&AccountsTable::new("accounts")).is_ok();
    let b = tx.open_table(&TokensTable::new("access_tokens")).is_ok();
    let c = tx.open_table(&TokenRevTable::new("access_tokens_rev")).is_ok();
    let d = tx.open_table(&VersionTable::new("db-ver")).is_ok();
    if a && b && c && d { Ok(()) } else { Err(DbFault::Storage) }
}

/// Relies on `WriteTransaction::open_table`, as `open_account_tables`: the
/// metric and data point tables.
#[verifier::external_body]
pub fn open_series_tables(tx: &WriteTransaction) -> (r: Result<(), DbFault>) {
    let a = tx.open_table(&MetricsTable::new("metrics")).is_ok();
    let b = tx.open_table(&MetricsRevTable::new("metrics_rev")).is_ok();
    let c = tx.open_table(&PointsTable::new("data_points")).is_ok();
    if a && b && c { Ok(()) } else { Err(DbFault::Storage) }
}

/// Relies on `Table::first` of the version table, which holds at most one
/// entry, read through `as_raw`: only the value is decoded.
#[verifier::external_body]
pub fn version_get(tx: &WriteTransaction) -> (r: Result<Option<u64>, DbFault>)
    ensures
        r matches Ok(v) ==> v == version_in(*tx),
{
    let t = tx.open_table(&VersionTable::new("db-ver")).map_err(|_| DbFault::Storage)?;
    let found = t.as_raw().first().map_err(|_| DbFault::Storage)?;
    let r = match found {
        None => Ok(None),
        Some((_, v)) => AccessGuard::<u64>::from(v).value_try().map(Some).map_err(|_| DbFault::Corrupt),
    };
    r
}

/// Relies on `Table::insert` of the version table.
#[verifier::external_body]
pub fn version_put(tx: &mut WriteTransaction, v: u64) -> (r: Result<(), DbFault>)
    ensures
        r is Ok ==> version_in(*final(tx)) == Some(v) && unchanged_except(
            StoreTable::Version,
            *old(tx),
            *final(tx),
        ),
{
    let mut t = tx.open_table(&VersionTable::new("db-ver")).map_err(|_| DbFault::Storage)?;
    t.insert(&(), &v).map_err(|_| DbFault::Storage)?;
    Ok(())
}

/// Relies on `Table::insert` of the accounts table.
#[verifier::external_body]
pub fn accounts_put(tx: &mut WriteTransaction, id: &[u8; 16], created: u64) -> (r: Result<(), DbFault>)
    ensures
        r is Ok ==> accounts_in(*final(tx)) == accounts_in(*old(tx)).insert(id@, created)
            && unchanged_except(StoreTable::Accounts, *old(tx), *final(tx)),
{
    let mut t = tx.open_table(&AccountsTable::new("accounts")).map_err(|_| DbFault::Storage)?;
    t.insert(id, &created).map_err(|_| DbFault::Storage)?;
    Ok(())
}

/// Relies on `Table::get` of the tokens table.
#[verifier::external_body]
pub fn tokens_get(tx: &WriteTransaction, token: &[u8; 32]) -> (r: Result<Option<(u64, [u8; 16], u8)>, DbFault>)
    ensures
        r matches Ok(o) ==> match o {
            Some(v) => tokens_in(*tx).contains_key(token@) && tokens_in(*tx)[token@] == (v.0, v.1@, v.2),
            None => !tokens_in(*tx).contains_key(token@),
        },
{
    let t = tx.open_table(&TokensTable::new("access_tokens")).map_err(|_| DbFault::Storage)?;
    let found = t.get(token).map_err(|_| DbFault::Storage)?;
    let r = match found {
        None => Ok(None),
        Some(v) => v.value_try().map(Some).map_err(|_| DbFault::Corrupt),
    };
    r
}

/// Relies on `Table::insert` of the tokens table.
#[verifier::external_body]
pub fn tokens_put(tx: &mut WriteTransaction, token: &[u8; 32], v: (u64, [u8; 16], u8)) -> (r: Result<(), DbFault>)
    ensures
        r is Ok ==> tokens_in(*final(tx)) == tokens_in(*old(tx)).insert(token@, (v.0, v.1@, v.2))
            && unchanged_except(StoreTable::Tokens, *old(tx), *final(tx)),
{
    let mut t = tx.open_table(&TokensTable::new("access_tokens")).map_err(|_| DbFault::Storage)?;
    t.insert(token, &v).map_err(|_| DbFault::Storage)?;
    Ok(())
}

/// Relies on `Table::remove` of the tokens table; a missing key is no error.
#[verifier::external_body]
pub fn tokens_delete(tx: &mut WriteTransaction, token: &[u8; 32]) -> (r: Result<(), DbFault>)
    ensures
        r is Ok ==> tokens_in(*final(tx)) == tokens_in(*old(tx)).remove(token@)
            && unchanged_except(StoreTable::Tokens, *old(tx), *final(tx)),
{
    let mut t = tx.open_table(&TokensTable::new("access_tokens")).map_err(|_| DbFault::Storage)?;
    t.remove(token).map_err(|_| DbFault::Storage)?;
    Ok(())
}

/// Relies on `Table::insert` of the reverse token index.
#[verifier::external_body]
pub fn token_rev_put(tx: &mut WriteTransaction, key: &[u8; 48]) -> (r: Result<(), DbFault>)
    ensures
        r is Ok ==> token_rev_in(*final(tx)) == token_rev_in(*old(tx)).insert(key@)
            && unchanged_except(StoreTable::TokenRev, *old(tx), *final(tx)),
{
    let mut t = tx.open_table(&TokenRevTable::new("access_tokens_rev")).map_err(|_| DbFault::Storage)?;
    t.insert(key, &()).map_err(|_| DbFault::Storage)?;
    Ok(())
}

/// Relies on `Table::remove` of the reverse token index.
#[verifier::external_body]
pub fn token_rev_delete(tx: &mut WriteTransaction, key: &[u8; 48]) -> (r: Result<(), DbFault>)
    ensures
        r is Ok ==> token_rev_in(*final(tx)) == token_rev_in(*old(tx)).remove(key@)
            && unchanged_except(StoreTable::TokenRev, *old(tx), *final(tx)),
{
    let mut t = tx.open_table(&TokenRevTable::new("access_tokens_rev")).map_err(|_| DbFault::Storage)?;
    t.remove(key).map_err(|_| DbFault::Storage)?;
    Ok(())
}

/// Relies on `Table::range` over `lo..=hi` and the first item it yields: the
/// table orders keys by their bytes (`Lexicographical`), and a byte array is
/// encoded as its bytes alone. Keys are read raw (`as_raw`), so a stored key
/// of another length is an error, not a panic.
#[verifier::external_body]
pub fn token_rev_first_in(tx: &WriteTransaction, lo: &[u8; 48], hi: &[u8; 48]) -> (r: Result<Option<[u8; 48]>, DbFault>)
    ensures
        r matches Ok(o) ==> match o {
            Some(k) => token_rev_in(*tx).contains(k@) && lex_le(lo@, k@) && lex_le(k@, hi@)
                && forall|k2: Seq<u8>| token_rev_in(*tx).contains(k2) && lex_le(lo@, k2) && lex_le(k2, hi@) ==> lex_le(k@, k2),
            None => forall|k2: Seq<u8>| token_rev_in(*tx).contains(k2) ==> !(lex_le(lo@, k2) && lex_le(k2, hi@)),
        },
{
    let t = tx.open_table(&TokenRevTable::new("access_tokens_rev")).map_err(|_| DbFault::Storage)?;
    let found = t.as_raw().range::<&[u8]>(&lo[..]..=&hi[..]).map_err(|_| DbFault::Storage)?.next();
    let r = match found {
        None => Ok(None),
        Some(item) => <[u8; 48]>::try_from(item.map_err(|_| DbFault::Storage)?.0.value()).map(Some).map_err(|_| DbFault::Corrupt),
    };
    r
}

/// Relies on `Table::get` of the metrics table.
#[verifier::external_body]
pub fn metrics_get(tx: &WriteTransaction, id: &[u8; 16]) -> (r: Result<Option<(u64, [u8; 16], u64)>, DbFault>)
    ensures
        r matches Ok(o) ==> match o {
            Some(v) => metrics_in(*tx).contains_key(id@) && metrics_in(*tx)[id@] == (v.0, v.1@, v.2),
            None => !metrics_in(*tx).contains_key(id@),
        },
{
    let t = tx.open_table(&MetricsTable::new("metrics")).map_err(|_| DbFault::Storage)?;
    let found = t.get(id).map_err(|_| DbFault::Storage)?;
    let r = match found {
        None => Ok(None),
        Some(v) => v.value_try().map(Some).map_err(|_| DbFault::Corrupt),
    };
    r
}

/// Relies on `Table::insert` of the metrics table.
#[verifier::external_body]
pub fn metrics_put(tx: &mut WriteTransaction, id: &[u8; 16], v: (u64, [u8; 16], u64)) -> (r: Result<(), DbFault>)
    ensures
        r is Ok ==> metrics_in(*final(tx)) == metrics_in(*old(tx)).insert(id@, (v.0, v.1@, v.2))
            && unchanged_except(StoreTable::Metrics, *old(tx), *final(tx)),
{
    let mut t = tx.open_table(&MetricsTable::new("metrics")).map_err(|_| DbFault::Storage)?;
    t.insert(id, &v).map_err(|_| DbFault::Storage)?;
    Ok(())
}

/// Relies on `Table::last` of the internal-id table, in byte order of keys;
/// the key is read raw (`as_raw`).
#[verifier::external_body]
pub fn metrics_rev_last(tx: &WriteTransaction) -> (r: Result<Option<[u8; 8]>, DbFault>)
    ensures
        r matches Ok(o) ==> match o {
            Some(k) => metrics_rev_in(*tx).contains_key(k@)
                && forall|k2: Seq<u8>| metrics_rev_in(*tx).contains_key(k2) ==> lex_le(k2, k@),
            None => metrics_rev_in(*tx).dom().is_empty(),
        },
{
    let t = tx.open_table(&MetricsRevTable::new("metrics_rev")).map_err(|_| DbFault::Storage)?;
    let found = t.as_raw().last().map_err(|_| DbFault::Storage)?;
    let r = match found {
        None => Ok(None),
        Some((k, _)) => <[u8; 8]>::try_from(k.value()).map(Some).map_err(|_| DbFault::Corrupt),
    };
    r
}

/// Relies on `Table::insert` of the internal-id table.
#[verifier::external_body]
pub fn metrics_rev_put(tx: &mut WriteTransaction, key: &[u8; 8], id: &[u8; 16]) -> (r: Result<(), DbFault>)
    ensures
        r is Ok ==> metrics_rev_in(*final(tx)) == metrics_rev_in(*old(tx)).insert(key@, id@)
            && unchanged_except(StoreTable::MetricsRev, *old(tx), *final(tx)),
{
    let mut t = tx.open_table(&MetricsRevTable::new("metrics_rev")).map_err(|_| DbFault::Storage)?;
    t.insert(key, id).map_err(|_| DbFault::Storage)?;
    Ok(())
}

/// Relies on `Table::range` over `lo..=hi` and the last item it yields, in
/// byte order of keys; the key is read raw (`as_raw`).
#[verifier::external_body]
pub fn points_last_in(tx: &WriteTransaction, lo: &[u8; 24], hi: &[u8; 24]) -> (r: Result<Option<[u8; 24]>, DbFault>)
    ensures
        r matches Ok(o) ==> match o {
            Some(k) => points_in(*tx).contains_key(k@) && lex_le(lo@, k@) && lex_le(k@, hi@)
                && forall|k2: Seq<u8>| points_in(*tx).contains_key(k2) && lex_le(lo@, k2) && lex_le(k2, hi@) ==> lex_le(k2, k@),
            None => forall|k2: Seq<u8>| points_in(*tx).contains_key(k2) ==> !(lex_le(lo@, k2) && lex_le(k2, hi@)),
        },
{
    let t = tx.open_table(&PointsTable::new("data_points")).map_err(|_| DbFault::Storage)?;
    let found = t.as_raw().range::<&[u8]>(&lo[..]..=&hi[..]).map_err(|_| DbFault::Storage)?.next_back();
    let r = match found {
        None => Ok(None),
        Some(item) => <[u8; 24]>::try_from(item.map_err(|_| DbFault::Storage)?.0.value()).map(Some).map_err(|_| DbFault::Corrupt),
    };
    r
}

/// Relies on `Table::insert` of the data point table.
#[verifier::external_body]
pub fn points_put(tx: &mut WriteTransaction, key: &[u8; 24], value: u32, metadata: &String) -> (r: Result<(), DbFault>)
    ensures
        r is Ok ==> points_in(*final(tx)) == points_in(*old(tx)).insert(key@, (value, metadata@))
            && unchanged_except(StoreTable::Points, *old(tx), *final(tx)),
{
    let mut t = tx.open_table(&PointsTable::new("data_points")).map_err(|_| DbFault::Storage)?;
    t.insert(key, &(value, metadata.clone())).map_err(|_| DbFault::Storage)?;
    Ok(())
}

/// Relies on `ReadOnlyTable::get` of the tokens table.
#[verifier::external_body]
pub fn snapshot_tokens_get(tx: &ReadTransaction, token: &[u8; 32]) -> (r: Result<Option<(u64, [u8; 16], u8)>, DbFault>)
    ensures
        r matches Ok(o) ==> match o {
            Some(v) => tokens_at(*tx).contains_key(token@) && tokens_at(*tx)[token@] == (v.0, v.1@, v.2),
            None => !tokens_at(*tx).contains_key(token@),
        },
{
    let t = tx.open_table(&TokensTable::new("access_tokens")).map_err(|_| DbFault::Storage)?;
    let found = t.get(token).map_err(|_| DbFault::Storage)?;
    let r = match found {
        None => Ok(None),
        Some(v) => v.value_try().map(Some).map_err(|_| DbFault::Corrupt),
    };
    r
}

/// Relies on `ReadOnlyTable::get` of the metrics table.
#[verifier::external_body]
pub fn snapshot_metrics_get(tx: &ReadTransaction, id: &[u8; 16]) -> (r: Result<Option<(u64, [u8; 16], u64)>, DbFault>)
    ensures
        r matches Ok(o) ==> match o {
            Some(v) => metrics_at(*tx).contains_key(id@) && metrics_at(*tx)[id@] == (v.0, v.1@, v.2),
            None => !metrics_at(*tx).contains_key(id@),
        },
{
    let t = tx.open_table(&MetricsTable::new("metrics")).map_err(|_| DbFault::Storage)?;
    let found = t.get(id).map_err(|_| DbFault::Storage)?;
    let r = match found {
        None => Ok(None),
        Some(v) => v.value_try().map(Some).map_err(|_| DbFault::Corrupt),
    };
    r
}

/// Relies on `ReadOnlyTable::range` over `lo..hi` and the first item it
/// yields, in byte order of keys; the key is read raw (`as_raw`), the value
/// decoded with `AccessGuard::value_try`.
#[verifier::external_body]
pub fn snapshot_points_first_in(tx: &ReadTransaction, lo: &[u8; 24], hi: &[u8; 24]) -> (r: Result<Option<([u8; 24], u32, String)>, DbFault>)
    ensures
        r matches Ok(o) ==> match o {
            Some(e) => points_at(*tx).contains_key(e.0@) && points_at(*tx)[e.0@] == (e.1, e.2@)
                && lex_le(lo@, e.0@) && lex_lt(e.0@, hi@)
                && forall|k2: Seq<u8>| points_at(*tx).contains_key(k2) && lex_le(lo@, k2) && lex_lt(k2, hi@) ==> lex_le(e.0@, k2),
            None => forall|k2: Seq<u8>| points_at(*tx).contains_key(k2) ==> !(lex_le(lo@, k2) && lex_lt(k2, hi@)),
        },
{
    let t = tx.open_table(&PointsTable::new("data_points")).map_err(|_| DbFault::Storage)?;
    let found = t.as_raw().range::<&[u8]>(&lo[..]..&hi[..]).map_err(|_| DbFault::Storage)?.next();
    let r = match found {
        None => Ok(None),
        Some(item) => {
            let (k, v) = item.map_err(|_| DbFault::Storage)?;
            let key = <[u8; 24]>::try_from(k.value()).map_err(|_| DbFault::Corrupt)?;
            let (value, metadata) = AccessGuard::<(u32, String)>::from(v).value_try().map_err(|_| DbFault::Corrupt)?;
            Ok(Some((key, value, metadata)))
        },
    };
    r
}

} // verus!
