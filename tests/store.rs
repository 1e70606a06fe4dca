use perfitd::accounts::{code_of_type, token_record_of};
use perfitd::db::{Auth, Store};
use perfitd::error::{StoreError, UserRequestError};
use perfitd::ids::{AccessToken, AccessTokenType, AccountId, MetricId};
use perfitd::schema::{AccessTokenRecord, DataPointMetadata, DataPointValue, Ts};
use perfitd::series::MAX_DATA_POINTS_LIMIT;
use redb_bincode::redb;

fn memory_db() -> redb_bincode::Database {
    let db = redb::Database::builder()
        .create_with_backend(redb::backends::InMemoryBackend::new())
        .expect("in-memory database");
    redb_bincode::Database::from(db)
}

fn root_token() -> AccessToken {
    AccessToken::from_bytes([7u8; 32])
}

/// A store bootstrapped with `root_token()`, and the root's credentials.
fn setup() -> (Store, Auth) {
    let store = Store::init(memory_db()).expect("init");
    store.ensure_root_account(&root_token()).expect("bootstrap");
    let auth = store.authenticate(&root_token().to_text()).expect("root auth");
    (store, auth)
}

fn value(v: f32) -> DataPointValue {
    DataPointValue::from_bits(v.to_bits())
}

fn no_metadata() -> DataPointMetadata {
    DataPointMetadata::empty()
}

fn new_metric(store: &Store, root: &Auth) -> (Auth, MetricId) {
    let (_account, admin) = store.create_account(root).expect("account");
    let auth = store.authenticate(&admin.to_text()).expect("admin auth");
    let metric = store.create_metric(&auth).expect("metric");
    (auth, metric)
}

#[test]
fn bootstrap_gives_a_root_token() {
    let (_store, auth) = setup();
    assert_eq!(auth.0.token_type, AccessTokenType::Root);
    assert!(auth.0.account_id.same(&AccountId::root()));
}

#[test]
fn bootstrap_twice_with_same_token_keeps_it() {
    let (store, _) = setup();
    store.ensure_root_account(&root_token()).expect("second bootstrap");
    let auth = store.authenticate(&root_token().to_text()).expect("still valid");
    assert_eq!(auth.0.token_type, AccessTokenType::Root);
}

#[test]
fn bootstrap_with_new_token_revokes_old() {
    let (store, _) = setup();
    let new_token = AccessToken::from_bytes([9u8; 32]);
    store.ensure_root_account(&new_token).expect("rotation");
    let old = store.authenticate(&root_token().to_text());
    assert!(matches!(old, Err(StoreError::User(UserRequestError::InvalidAuthorizationToken))));
    let new = store.authenticate(&new_token.to_text()).expect("new token");
    assert_eq!(new.0.token_type, AccessTokenType::Root);
}

#[test]
fn malformed_and_unknown_tokens_are_refused() {
    let (store, _) = setup();
    let bad = store.authenticate("not base64 !!");
    assert!(matches!(bad, Err(StoreError::User(UserRequestError::MalformedAuthorizationToken))));
    let short = store.authenticate("AAAA");
    assert!(matches!(short, Err(StoreError::User(UserRequestError::MalformedAuthorizationToken))));
    let unknown = AccessToken::from_bytes([1u8; 32]);
    let r = store.authenticate(&unknown.to_text());
    assert!(matches!(r, Err(StoreError::User(UserRequestError::InvalidAuthorizationToken))));
}

#[test]
fn only_root_creates_accounts() {
    let (store, root) = setup();
    let (_account, admin) = store.create_account(&root).expect("account");
    let admin_auth = store.authenticate(&admin.to_text()).expect("admin");
    assert_eq!(admin_auth.0.token_type, AccessTokenType::Admin);
    let r = store.create_account(&admin_auth);
    assert!(matches!(r, Err(StoreError::User(UserRequestError::Unauthorized))));
}

#[test]
fn admin_issues_tokens_for_own_account_only() {
    let (store, root) = setup();
    let (account_a, admin_a) = store.create_account(&root).expect("a");
    let (account_b, _admin_b) = store.create_account(&root).expect("b");
    let auth_a = store.authenticate(&admin_a.to_text()).expect("auth a");
    let post = store.create_token(&auth_a, &account_a, AccessTokenType::Post).expect("post token");
    let post_auth = store.authenticate(&post.to_text()).expect("post auth");
    assert_eq!(post_auth.0.token_type, AccessTokenType::Post);
    assert!(post_auth.0.account_id.same(&account_a));
    let other = store.create_token(&auth_a, &account_b, AccessTokenType::Post);
    assert!(matches!(other, Err(StoreError::User(UserRequestError::Unauthorized))));
}

#[test]
fn root_tier_is_never_issued() {
    let (store, root) = setup();
    let (account, admin) = store.create_account(&root).expect("account");
    let auth = store.authenticate(&admin.to_text()).expect("admin");
    let r = store.create_token(&auth, &account, AccessTokenType::Root);
    assert!(matches!(r, Err(StoreError::User(UserRequestError::Unauthorized))));
    let r = store.create_token(&root, &AccountId::root(), AccessTokenType::Root);
    assert!(matches!(r, Err(StoreError::User(UserRequestError::Unauthorized))));
}

#[test]
fn root_account_cannot_issue_tokens() {
    let (store, root) = setup();
    let r = store.create_token(&root, &AccountId::root(), AccessTokenType::Admin);
    assert!(matches!(r, Err(StoreError::User(UserRequestError::RootAccountCantBeUsed))));
}

#[test]
fn post_token_cannot_issue_tokens() {
    let record = AccessTokenRecord {
        created: Ts::zero(),
        account_id: AccountId::from_bytes([3u8; 16]),
        token_type: AccessTokenType::Post,
    };
    let r = record.ensure_can_create_tokens(&AccountId::from_bytes([3u8; 16]), AccessTokenType::Post);
    assert!(matches!(r, Err(UserRequestError::Unauthorized)));
    let admin = AccessTokenRecord { token_type: AccessTokenType::Admin, ..record };
    assert!(admin.ensure_can_create_tokens(&AccountId::from_bytes([3u8; 16]), AccessTokenType::Admin).is_ok());
    assert!(admin.ensure_can_create_accounts().is_err());
}

#[test]
fn two_points_in_one_second_share_a_page_of_one() {
    let (store, root) = setup();
    let (_auth, m1) = new_metric(&store, &root);
    let t = Ts::from_absolute_secs(1_700_000_000);
    let r1 = store.post_data_point_at(&m1, value(11.0), &no_metadata(), t).expect("post 1");
    let r2 = store.post_data_point_at(&m1, value(12.0), &no_metadata(), t).expect("post 2");
    assert_eq!(r1.to_absolute_secs(), 1_700_000_000);
    assert_eq!(r2.to_absolute_secs(), 1_700_000_000);
    let page = store.query_range_limited(&m1, None, None, 1).expect("query");
    assert_eq!(page.len(), 2);
    assert_eq!(page[0].0.to_absolute_secs(), 1_700_000_000);
    assert_eq!(page[1].0.to_absolute_secs(), 1_700_000_000);
    assert_eq!(f32::from_bits(page[0].1.value.to_bits()), 11.0);
    assert_eq!(f32::from_bits(page[1].1.value.to_bits()), 12.0);
}

#[test]
fn post_then_query_ends_with_posted_value() {
    let (store, root) = setup();
    let (_auth, m) = new_metric(&store, &root);
    store.post_data_point_at(&m, value(1.5), &no_metadata(), Ts::from_absolute_secs(10)).expect("a");
    store.post_data_point_at(&m, value(2.5), &no_metadata(), Ts::from_absolute_secs(20)).expect("b");
    let ts = store.post_data_point(&m, value(3.25), &no_metadata()).expect("now");
    let page = store.query_range(&m, None, None).expect("query");
    assert_eq!(page.len(), 3);
    let last = page.last().unwrap();
    assert_eq!(f32::from_bits(last.1.value.to_bits()), 3.25);
    assert_eq!(last.0.to_absolute_secs(), ts.to_absolute_secs());
}

#[test]
fn empty_metric_gives_empty_page() {
    let (store, root) = setup();
    let (_auth, m) = new_metric(&store, &root);
    let page = store.query_range(&m, None, None).expect("query");
    assert!(page.is_empty());
}

#[test]
fn unknown_metric_is_not_found() {
    let (store, _root) = setup();
    let m = MetricId::from_bytes([5u8; 16]);
    let r = store.query_range(&m, None, None);
    assert!(matches!(r, Err(StoreError::User(UserRequestError::MetricNotFound(_)))));
    let r = store.post_data_point_at(&m, value(1.0), &no_metadata(), Ts::from_absolute_secs(1));
    assert!(matches!(r, Err(StoreError::User(UserRequestError::MetricNotFound(_)))));
}

#[test]
fn adjacent_metrics_never_mix() {
    let (store, root) = setup();
    let (auth, m1) = new_metric(&store, &root);
    let m2 = store.create_metric(&auth).expect("second metric");
    for s in [5u64, 6, 7] {
        store.post_data_point_at(&m1, value(1.0), &no_metadata(), Ts::from_absolute_secs(s)).expect("m1");
        store.post_data_point_at(&m2, value(2.0), &no_metadata(), Ts::from_absolute_secs(s)).expect("m2");
    }
    let p1 = store.query_range(&m1, None, None).expect("q1");
    let p2 = store.query_range(&m2, None, None).expect("q2");
    assert_eq!(p1.len(), 3);
    assert_eq!(p2.len(), 3);
    assert!(p1.iter().all(|(_, r)| f32::from_bits(r.value.to_bits()) == 1.0));
    assert!(p2.iter().all(|(_, r)| f32::from_bits(r.value.to_bits()) == 2.0));
}

#[test]
fn page_limit_stops_only_at_a_new_second() {
    let (store, root) = setup();
    let (_auth, m) = new_metric(&store, &root);
    for _ in 0..3 {
        store.post_data_point_at(&m, value(1.0), &no_metadata(), Ts::from_absolute_secs(100)).expect("t100");
    }
    for _ in 0..2 {
        store.post_data_point_at(&m, value(2.0), &no_metadata(), Ts::from_absolute_secs(200)).expect("t200");
    }
    assert_eq!(store.query_range_limited(&m, None, None, 0).expect("q0").len(), 0);
    assert_eq!(store.query_range_limited(&m, None, None, 1).expect("q1").len(), 3);
    assert_eq!(store.query_range_limited(&m, None, None, 2).expect("q2").len(), 3);
    assert_eq!(store.query_range_limited(&m, None, None, 3).expect("q3").len(), 3);
    assert_eq!(store.query_range_limited(&m, None, None, 4).expect("q4").len(), 5);
    assert_eq!(MAX_DATA_POINTS_LIMIT, 1000);
}

#[test]
fn time_bounds_select_seconds() {
    let (store, root) = setup();
    let (_auth, m) = new_metric(&store, &root);
    for s in [10u64, 20, 30] {
        store.post_data_point_at(&m, value(s as f32), &no_metadata(), Ts::from_absolute_secs(s)).expect("post");
    }
    let mid = store
        .query_range(&m, Some(Ts::from_absolute_secs(15)), Some(Ts::from_absolute_secs(30)))
        .expect("mid");
    assert_eq!(mid.len(), 1);
    assert_eq!(mid[0].0.to_absolute_secs(), 20);
    let from = store.query_range(&m, Some(Ts::from_absolute_secs(20)), None).expect("from");
    assert_eq!(from.len(), 2);
    let reversed = store
        .query_range(&m, Some(Ts::from_absolute_secs(30)), Some(Ts::from_absolute_secs(10)))
        .expect("reversed");
    assert!(reversed.is_empty());
    let outside = store.query_range(&m, Some(Ts::from_absolute_secs(40)), None).expect("outside");
    assert!(outside.is_empty());
}

#[test]
fn metadata_is_kept() {
    let (store, root) = setup();
    let (_auth, m) = new_metric(&store, &root);
    let md = DataPointMetadata::try_new("commit abc").expect("short");
    store.post_data_point_at(&m, value(4.0), &md, Ts::from_absolute_secs(3)).expect("post");
    let page = store.query_range(&m, None, None).expect("query");
    assert_eq!(page[0].1.metadata.as_str(), "commit abc");
    assert!(!page[0].1.metadata.is_empty());
}

#[test]
fn newer_schema_version_is_refused() {
    let raw = memory_db();
    {
        let tx = raw.begin_write().expect("tx");
        {
            let mut t = tx
                .open_table(&redb_bincode::TableDefinition::<(), u64>::new("db-ver"))
                .expect("table");
            t.insert(&(), &5u64).expect("insert");
        }
        tx.commit().expect("commit");
    }
    let r = Store::init(raw);
    assert!(matches!(r, Err(StoreError::VersionTooNew { found: 5 })));
}

#[test]
fn token_codes_round_trip() {
    for t in [AccessTokenType::Root, AccessTokenType::Admin, AccessTokenType::Post] {
        let rec = token_record_of((9, [2u8; 16], code_of_type(t))).expect("known code");
        assert_eq!(rec.token_type, t);
        assert_eq!(rec.created.to_absolute_secs(), 9);
    }
    assert!(token_record_of((9, [2u8; 16], 3)).is_none());
}

#[test]
fn foreign_key_layout_is_corrupt_not_a_panic() {
    let raw = memory_db();
    {
        let tx = raw.begin_write().expect("tx");
        {
            let mut t = tx
                .open_table(&redb_bincode::TableDefinition::<u64, [u8; 16]>::new("metrics_rev"))
                .expect("table");
            t.insert(&5u64, &[0u8; 16]).expect("insert");
        }
        tx.commit().expect("commit");
    }
    let store = Store::init(raw).expect("init");
    store.ensure_root_account(&root_token()).expect("bootstrap");
    let root = store.authenticate(&root_token().to_text()).expect("root");
    let r = store.create_metric(&root);
    assert!(matches!(r, Err(StoreError::Corrupt)));
}
