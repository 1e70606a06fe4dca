//! Access control: which token may do what.
use crate::error::UserRequestError;
use crate::ids::{AccessTokenType, AccountId};
use crate::schema::AccessTokenRecord;
use vstd::prelude::*;

verus! {

/// The reserved id of the root account: sixteen zero bytes.
pub open spec fn root_account_bytes() -> Seq<u8> {
    Seq::new(16, |i: int| 0u8)
}

/// Whether a token may create a token of tier `ty` for the account `account`:
/// only an admin token of that very account, never for the root account, and
/// never a root token.
pub open spec fn may_create_token(auth: AccessTokenRecord, account: Seq<u8>, ty: AccessTokenType) -> bool {
    &&& !(ty is Root)
    &&& auth.account_id.bytes@ != root_account_bytes()
    &&& auth.token_type is Admin
    &&& auth.account_id.bytes@ == account
}

impl AccessTokenRecord {
    /// Refuses unless this token may create a token of tier `token_type` for
    /// `account_id` (see `may_create_token`). A root tier is refused as
    /// `Unauthorized`, a token of the root account as `RootAccountCantBeUsed`,
    /// anything else that is refused as `Unauthorized`.
    pub fn ensure_can_create_tokens(&self, account_id: &AccountId, token_type: AccessTokenType) -> (r: Result<(), UserRequestError>)
        ensures
            r is Ok <==> may_create_token(*self, account_id.bytes@, token_type),
            r matches Err(e) ==> if !(token_type is Root) && self.account_id.bytes@ == root_account_bytes() {
                e is RootAccountCantBeUsed
            } else {
                e is Unauthorized
            },
    {
        if token_type == AccessTokenType::Root {
            return Err(UserRequestError::Unauthorized);
        }
        if self.account_id.same(&AccountId::root()) {
            return Err(UserRequestError::RootAccountCantBeUsed);
        }
        if self.token_type == AccessTokenType::Admin && self.account_id.same(account_id) {
            return Ok(());
        }
        Err(UserRequestError::Unauthorized)
    }

    /// Refuses unless this is a root token.
    pub fn ensure_can_create_accounts(&self) -> (r: Result<(), UserRequestError>)
        ensures
            r is Ok <==> self.token_type is Root,
            r matches Err(e) ==> e is Unauthorized,
    {
        if self.token_type == AccessTokenType::Root {
            Ok(())
        } else {
            Err(UserRequestError::Unauthorized)
        }
    }
}

} // verus!
