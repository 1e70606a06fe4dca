//! Accounts and tokens: resolving a bearer token, creating accounts, issuing
//! tokens. Forward and reverse token entries are always written together.
use crate::error::{StoreError, UserRequestError};
use crate::ids::{parsed_bytes, AccessToken, AccessTokenType, AccountId};
use crate::schema::{token_rev_key, token_rev_key_of, AccessTokenRecord, Ts};
use crate::store::{
    accounts_in, accounts_put, snapshot_tokens_get, token_rev_in, token_rev_put, tokens_at,
    tokens_in, tokens_put, series_unchanged,
};
use redb_bincode::{ReadTransaction, WriteTransaction};
use vstd::prelude::*;

verus! {

/// Body of a request for a new token.
#[derive(Debug, Clone, Copy)]
pub struct TokenNewOpts {
    pub token_type: AccessTokenType,
    pub account_id: AccountId,
}

/// Stored code of a token tier.
pub open spec fn type_code(t: AccessTokenType) -> u8 {
    match t {
        AccessTokenType::Root => 0,
        AccessTokenType::Admin => 1,
        AccessTokenType::Post => 2,
    }
}

/// Stored form of a token record.
pub open spec fn token_value(r: AccessTokenRecord) -> (u64, Seq<u8>, u8) {
    (r.created.0, r.account_id.bytes@, type_code(r.token_type))
}

pub fn code_of_type(t: AccessTokenType) -> (r: u8)
    ensures
        r == type_code(t),
{
    match t {
        AccessTokenType::Root => 0,
        AccessTokenType::Admin => 1,
        AccessTokenType::Post => 2,
    }
}

/// The record stored as `v`; `None` where its tier code is unknown.
pub fn token_record_of(v: (u64, [u8; 16], u8)) -> (r: Option<AccessTokenRecord>)
    ensures
        match r {
            Some(rec) => token_value(rec) == (v.0, v.1@, v.2),
            None => v.2 > 2,
        },
{
    let token_type = if v.2 == 0 {
        AccessTokenType::Root
    } else if v.2 == 1 {
        AccessTokenType::Admin
    } else if v.2 == 2 {
        AccessTokenType::Post
    } else {
        return None;
    };
    Some(AccessTokenRecord { created: Ts(v.0), account_id: AccountId { bytes: v.1 }, token_type })
}

/// Looks a token up in a snapshot; an unknown token is `InvalidAuthorizationToken`.
pub fn resolve_token(rtx: &ReadTransaction, token: &AccessToken) -> (r: Result<AccessTokenRecord, StoreError>)
    ensures
        r matches Ok(rec) ==> tokens_at(*rtx).contains_key(token.bytes@) && tokens_at(*rtx)[token.bytes@]
            == token_value(rec),
        r matches Err(StoreError::User(e)) ==> e is InvalidAuthorizationToken && !tokens_at(
            *rtx,
        ).contains_key(token.bytes@),
{
    let found = match snapshot_tokens_get(rtx, &token.bytes) {
        Ok(o) => o,
        Err(f) => return Err(StoreError::from_fault(f)),
    };
    match found {
        None => Err(StoreError::User(UserRequestError::InvalidAuthorizationToken)),
        Some(v) => match token_record_of(v) {
            Some(rec) => Ok(rec),
            None => Err(StoreError::Corrupt),
        },
    }
}

/// Resolves a bearer token in its transport form: text that is not a token
/// is `MalformedAuthorizationToken`, an unknown token
/// `InvalidAuthorizationToken`.
pub fn authenticate_in(rtx: &ReadTransaction, bearer: &str) -> (r: Result<AccessTokenRecord, StoreError>)
    ensures
        r matches Ok(rec) ==> exists|t: Seq<u8>|
            parsed_bytes(bearer@, 32) == Ok::<Seq<u8>, crate::ids::IdParseError>(t) && tokens_at(*rtx).contains_key(t)
                && tokens_at(*rtx)[t] == token_value(rec),
        r matches Err(StoreError::User(e)) ==> (e is MalformedAuthorizationToken && parsed_bytes(bearer@, 32) is Err)
            || (e is InvalidAuthorizationToken && exists|t: Seq<u8>|
            parsed_bytes(bearer@, 32) == Ok::<Seq<u8>, crate::ids::IdParseError>(t) && !tokens_at(*rtx).contains_key(t)),
        parsed_bytes(bearer@, 32) is Err ==> r matches Err(StoreError::User(UserRequestError::MalformedAuthorizationToken)),
{
    let token = match AccessToken::parse(bearer) {
        Ok(t) => t,
        Err(_) => return Err(StoreError::User(UserRequestError::MalformedAuthorizationToken)),
    };
    resolve_token(rtx, &token)
}

/// Stores a token for `account`: the record and its reverse-index entry.
pub fn issue_token_in(
    tx: &mut WriteTransaction,
    account: &AccountId,
    token_type: AccessTokenType,
    token: &AccessToken,
    now: Ts,
) -> (r: Result<(), StoreError>)
    ensures
        r is Ok ==> {
            &&& tokens_in(*final(tx)) == tokens_in(*old(tx)).insert(
                token.bytes@,
                (now.0, account.bytes@, type_code(token_type)),
            )
            &&& token_rev_in(*final(tx)) == token_rev_in(*old(tx)).insert(
                token_rev_key(account.bytes@, token.bytes@),
            )
            &&& accounts_in(*final(tx)) == accounts_in(*old(tx))
            &&& series_unchanged(*old(tx), *final(tx))
        },
        r matches Err(e) ==> !(e is User),
{
    let v = (now.0, account.bytes, code_of_type(token_type));
    match tokens_put(tx, &token.bytes, v) {
        Ok(()) => {},
        Err(f) => return Err(StoreError::from_fault(f)),
    }
    let rev = token_rev_key_of(account, token);
    match token_rev_put(tx, &rev) {
        Ok(()) => {},
        Err(f) => return Err(StoreError::from_fault(f)),
    }
    Ok(())
}

/// Creates account `account` at second `now`, with `admin_token` as its
/// first admin token.
pub fn create_account_in(
    tx: &mut WriteTransaction,
    account: &AccountId,
    admin_token: &AccessToken,
    now: Ts,
) -> (r: Result<(), StoreError>)
    ensures
        r is Ok ==> {
            &&& accounts_in(*final(tx)) == accounts_in(*old(tx)).insert(account.bytes@, now.0)
            &&& tokens_in(*final(tx)) == tokens_in(*old(tx)).insert(
                admin_token.bytes@,
                (now.0, account.bytes@, type_code(AccessTokenType::Admin)),
            )
            &&& token_rev_in(*final(tx)) == token_rev_in(*old(tx)).insert(
                token_rev_key(account.bytes@, admin_token.bytes@),
            )
            &&& series_unchanged(*old(tx), *final(tx))
        },
        r matches Err(e) ==> !(e is User),
{
    match accounts_put(tx, &account.bytes, now.0) {
        Ok(()) => {},
        Err(f) => return Err(StoreError::from_fault(f)),
    }
    issue_token_in(tx, account, AccessTokenType::Admin, admin_token, now)
}

} // verus!
