use perfitd::error::UserRequestError;
use perfitd::ids::{AccessToken, AccessTokenType, AccountId, IdParseError, MetricId, MetricInternalId};
use perfitd::schema::{token_of_rev_key, token_rev_key_of, DataPoint, DataPointMetadata, Ts};

fn point(iid: u64, ts: u64, idx: u64) -> DataPoint {
    DataPoint { metric_internal_id: MetricInternalId(iid), ts: Ts::from_absolute_secs(ts), idx }
}

#[test]
fn point_key_is_big_endian() {
    let k = point(1, 2, 0x0102).to_key();
    let mut expected = [0u8; 24];
    expected[7] = 1;
    expected[15] = 2;
    expected[22] = 1;
    expected[23] = 2;
    assert_eq!(k, expected);
}

#[test]
fn point_key_order_is_tuple_order() {
    let points = [
        point(0, 0, 0),
        point(0, 0, 1),
        point(0, 0, 256),
        point(0, 1, 0),
        point(0, u64::MAX, u64::MAX),
        point(1, 0, 0),
        point(1, 255, 3),
        point(2, 0, 0),
        point(u64::MAX, 0, 0),
    ];
    for w in points.windows(2) {
        assert!(w[0].to_key() < w[1].to_key());
    }
}

#[test]
fn point_key_round_trips() {
    let p = point(77, 1_700_000_000, 3);
    let q = DataPoint::from_key(&p.to_key());
    assert_eq!(p, q);
}

#[test]
fn internal_id_key_round_trips() {
    let id = MetricInternalId(0xdead_beef);
    assert_eq!(MetricInternalId::from_key(&id.to_key()), id);
    assert_eq!(id.next(), MetricInternalId(0xdead_bef0));
}

#[test]
fn reverse_key_holds_account_then_token() {
    let account = AccountId::from_bytes([1u8; 16]);
    let token = AccessToken::from_bytes([2u8; 32]);
    let k = token_rev_key_of(&account, &token);
    assert_eq!(&k[..16], &[1u8; 16]);
    assert_eq!(&k[16..], &[2u8; 32]);
    assert!(token_of_rev_key(&k).same(&token));
}

#[test]
fn token_text_round_trips() {
    let mut bytes = [0u8; 32];
    for (i, b) in bytes.iter_mut().enumerate() {
        *b = (i * 7) as u8;
    }
    let t = AccessToken::from_bytes(bytes);
    let text = t.to_text();
    assert_eq!(text.len(), 43);
    assert!(!text.contains('='));
    let back = AccessToken::parse(&text).expect("parse");
    assert!(back.same(&t));
}

#[test]
fn token_text_is_url_safe_base64() {
    let t = AccessToken::from_bytes([0xfbu8; 32]);
    let text = t.to_text();
    assert!(text.starts_with("-_v7"));
    assert!(!text.contains('+') && !text.contains('/'));
}

#[test]
fn ids_parse_their_text() {
    let id = MetricId::from_bytes([0u8; 16]);
    assert_eq!(id.to_text(), "AAAAAAAAAAAAAAAAAAAAAA");
    let back = MetricId::parse("AAAAAAAAAAAAAAAAAAAAAA").expect("parse");
    assert!(back.same(&id));
    let account = AccountId::parse(&AccountId::from_bytes([5u8; 16]).to_text()).expect("account");
    assert_eq!(account.bytes, [5u8; 16]);
}

#[test]
fn bad_id_text_is_refused() {
    assert_eq!(MetricId::parse("a+b/").err(), Some(IdParseError::InvalidEncoding));
    assert_eq!(MetricId::parse("AAAA").err(), Some(IdParseError::WrongLength));
    assert_eq!(AccessToken::parse("AAAAAAAAAAAAAAAAAAAAAA").err(), Some(IdParseError::WrongLength));
}

#[test]
fn generated_account_id_is_never_root() {
    for _ in 0..16 {
        let id = AccountId::generate();
        assert!(!id.same(&AccountId::root()));
        assert_eq!(id.bytes[6] & 0xf0, 0x40);
    }
}

#[test]
fn generated_ids_differ() {
    let a = AccessToken::generate();
    let b = AccessToken::generate();
    assert!(!a.same(&b));
    let m = MetricId::generate();
    let n = MetricId::generate();
    assert!(!m.same(&n));
}

#[test]
fn token_type_names() {
    assert_eq!(AccessTokenType::from_name("root"), Some(AccessTokenType::Root));
    assert_eq!(AccessTokenType::from_name("admin"), Some(AccessTokenType::Admin));
    assert_eq!(AccessTokenType::from_name("post"), Some(AccessTokenType::Post));
    assert_eq!(AccessTokenType::from_name("Root"), None);
    assert_eq!(AccessTokenType::from_name(""), None);
}

#[test]
fn metadata_limit_is_256_bytes() {
    let ok = "x".repeat(256);
    assert!(DataPointMetadata::try_new(&ok).is_ok());
    let long = "x".repeat(257);
    assert!(DataPointMetadata::try_new(&long).is_err());
}

#[test]
fn metadata_limit_counts_utf8_bytes() {
    let ok = "é".repeat(128);
    assert!(DataPointMetadata::try_new(&ok).is_ok());
    let long = "é".repeat(129);
    assert!(DataPointMetadata::try_new(&long).is_err());
}

#[test]
fn metadata_empty() {
    assert!(DataPointMetadata::empty().is_empty());
    assert!(DataPointMetadata::try_new("").expect("empty").is_empty());
}

#[test]
fn ts_helpers() {
    let t = Ts::from_absolute_secs(41);
    assert_eq!(t.inc().to_absolute_secs(), 42);
    assert_eq!(Ts::zero().to_absolute_secs(), 0);
    assert!(Ts::now().to_absolute_secs() > 1_600_000_000);
}

#[test]
fn error_status_codes() {
    assert_eq!(UserRequestError::Unauthorized.status_code(), 401);
    assert_eq!(UserRequestError::InvalidAuthorizationToken.status_code(), 401);
    assert_eq!(UserRequestError::MalformedAuthorizationToken.status_code(), 401);
    assert_eq!(UserRequestError::MissingAuthorizationToken.status_code(), 401);
    assert_eq!(
        UserRequestError::MalformedAuthorizationToken.message(),
        UserRequestError::InvalidAuthorizationToken.message()
    );
    assert_eq!(UserRequestError::FormatNotSupported.status_code(), 404);
    assert_eq!(UserRequestError::RootAccountCantBeUsed.status_code(), 400);
    assert_eq!(UserRequestError::MetadataTooLong.to_response().message, "Metadata too long");
}
