//! Root bootstrap: make sure the root account exists and that the configured
//! token is its one root token, revoking any earlier root token.
use crate::auth::root_account_bytes;
use crate::error::StoreError;
use crate::ids::{AccessToken, AccessTokenType, AccountId};
use crate::keys::{be_value, lemma_lex_is_numeric, lex_le, lex_lt};
use crate::accounts::{code_of_type, type_code};
use crate::schema::{token_of_rev_key, token_rev_key, token_rev_key_of, Ts};
use crate::store::{
    accounts_in, accounts_put, series_unchanged, token_rev_delete, token_rev_first_in, token_rev_in,
    token_rev_put, tokens_delete, tokens_get, tokens_in, tokens_put,
};
use redb_bincode::WriteTransaction;
use vstd::prelude::*;

verus! {

pub open spec fn zeros(n: nat) -> Seq<u8> {
    Seq::new(n, |i: int| 0u8)
}

pub open spec fn ones(n: nat) -> Seq<u8> {
    Seq::new(n, |i: int| 0xffu8)
}

/// First reverse-index key of the root account.
pub open spec fn root_rev_lo() -> Seq<u8> {
    root_account_bytes() + zeros(32)
}

/// Last reverse-index key of the root account.
pub open spec fn root_rev_hi() -> Seq<u8> {
    root_account_bytes() + ones(32)
}

/// `k` lies in the root account's range of the reverse index.
pub open spec fn in_root_range(k: Seq<u8>) -> bool {
    lex_le(root_rev_lo(), k) && lex_le(k, root_rev_hi())
}

/// The reverse index lists token `t` in the root account's range.
pub open spec fn listed_for_root(rev: Set<Seq<u8>>, t: Seq<u8>) -> bool {
    exists|k: Seq<u8>| #[trigger] rev.contains(k) && k.len() == 48 && in_root_range(k) && k.subrange(16, 48) == t
}

/// Tokens after a bootstrap with token `t` at second `now`: unchanged where
/// `t` is known already; else every token listed for the root account is
/// gone and `t` is the root account's root token.
pub open spec fn bootstrap_tokens(
    tokens: Map<Seq<u8>, (u64, Seq<u8>, u8)>,
    rev: Set<Seq<u8>>,
    t: Seq<u8>,
    now: u64,
) -> Map<Seq<u8>, (u64, Seq<u8>, u8)> {
    if tokens.contains_key(t) {
        tokens
    } else {
        tokens.remove_keys(Set::new(|x: Seq<u8>| listed_for_root(rev, x))).insert(
            t,
            (now, root_account_bytes(), type_code(AccessTokenType::Root)),
        )
    }
}

/// Reverse index after a bootstrap with token `t`: the root account's range
/// holds `t` alone, unless `t` was known already.
pub open spec fn bootstrap_rev(tokens: Map<Seq<u8>, (u64, Seq<u8>, u8)>, rev: Set<Seq<u8>>, t: Seq<u8>) -> Set<Seq<u8>> {
    if tokens.contains_key(t) {
        rev
    } else {
        rev.filter(|k: Seq<u8>| !in_root_range(k)).insert(token_rev_key(root_account_bytes(), t))
    }
}

pub proof fn lemma_lex_common_prefix(p: Seq<u8>, a: Seq<u8>, b: Seq<u8>)
    ensures
        lex_lt(p + a, p + b) == lex_lt(a, b),
        (p + a == p + b) == (a == b),
    decreases p.len(),
{
    if p.len() == 0 {
        assert(p + a =~= a);
        assert(p + b =~= b);
    } else {
        assert((p + a).drop_first() =~= p.drop_first() + a);
        assert((p + b).drop_first() =~= p.drop_first() + b);
        lemma_lex_common_prefix(p.drop_first(), a, b);
        assert((p + a)[0] == p[0] && (p + b)[0] == p[0]);
        if a == b {
            assert(p + a =~= p + b);
        }
        if p + a == p + b {
            assert(a =~= (p + a).subrange(p.len() as int, (p + a).len() as int));
            assert(b =~= (p + b).subrange(p.len() as int, (p + b).len() as int));
        }
    }
}

proof fn lemma_zeros_le(t: Seq<u8>)
    ensures
        lex_le(zeros(t.len()), t),
    decreases t.len(),
{
    if t.len() > 0 {
        assert(zeros(t.len()).drop_first() =~= zeros((t.len() - 1) as nat));
        lemma_zeros_le(t.drop_first());
        if t[0] == 0 && zeros((t.len() - 1) as nat) == t.drop_first() {
            assert forall|i: int| 0 <= i < t.len() implies zeros(t.len())[i] == t[i] by {
                if i > 0 {
                    assert(t[i] == t.drop_first()[i - 1]);
                }
            }
            assert(zeros(t.len()) =~= t);
        }
    } else {
        assert(zeros(t.len()) =~= t);
    }
}

proof fn lemma_le_ones(t: Seq<u8>)
    ensures
        lex_le(t, ones(t.len())),
    decreases t.len(),
{
    if t.len() > 0 {
        assert(ones(t.len()).drop_first() =~= ones((t.len() - 1) as nat));
        lemma_le_ones(t.drop_first());
        if t[0] == 0xff && ones((t.len() - 1) as nat) == t.drop_first() {
            assert forall|i: int| 0 <= i < t.len() implies ones(t.len())[i] == t[i] by {
                if i > 0 {
                    assert(t[i] == t.drop_first()[i - 1]);
                }
            }
            assert(ones(t.len()) =~= t);
        }
    } else {
        assert(ones(t.len()) =~= t);
    }
}

/// Every reverse-index key of the root account lies in the root range.
pub proof fn lemma_root_key_in_range(t: Seq<u8>)
    requires
        t.len() == 32,
    ensures
        in_root_range(token_rev_key(root_account_bytes(), t)),
        token_rev_key(root_account_bytes(), t).len() == 48,
        token_rev_key(root_account_bytes(), t).subrange(16, 48) == t,
{
    let p = root_account_bytes();
    lemma_zeros_le(t);
    lemma_le_ones(t);
    lemma_lex_common_prefix(p, zeros(32), t);
    lemma_lex_common_prefix(p, t, ones(32));
    assert((p + t).subrange(16, 48) =~= t);
}

proof fn lemma_lex_concat(a1: Seq<u8>, a2: Seq<u8>, b1: Seq<u8>, b2: Seq<u8>)
    requires
        a1.len() == b1.len(),
    ensures
        lex_lt(a1 + a2, b1 + b2) == (lex_lt(a1, b1) || (a1 == b1 && lex_lt(a2, b2))),
    decreases a1.len(),
{
    if a1.len() == 0 {
        assert(a1 + a2 =~= a2);
        assert(b1 + b2 =~= b2);
        assert(a1 =~= b1);
    } else {
        assert((a1 + a2).drop_first() =~= a1.drop_first() + a2);
        assert((b1 + b2).drop_first() =~= b1.drop_first() + b2);
        assert((a1 + a2)[0] == a1[0] && (b1 + b2)[0] == b1[0]);
        lemma_lex_concat(a1.drop_first(), a2, b1.drop_first(), b2);
        if a1[0] == b1[0] {
            if a1.drop_first() == b1.drop_first() {
                assert forall|i: int| 0 <= i < a1.len() implies a1[i] == b1[i] by {
                    if i > 0 {
                        assert(a1[i] == a1.drop_first()[i - 1]);
                        assert(b1[i] == b1.drop_first()[i - 1]);
                    }
                }
                assert(a1 =~= b1);
            }
            if a1 == b1 {
                assert(a1.drop_first() =~= b1.drop_first());
            }
        }
    }
}

proof fn lemma_nothing_below_zeros(p: Seq<u8>)
    ensures
        !lex_lt(p, zeros(p.len())),
    decreases p.len(),
{
    if p.len() > 0 {
        assert(zeros(p.len()).drop_first() =~= zeros((p.len() - 1) as nat));
        lemma_nothing_below_zeros(p.drop_first());
    }
}

/// The root range of the reverse index holds exactly the root account's
/// entries: a 48-byte key lies in it if and only if it starts with the
/// root account's id.
pub proof fn lemma_root_range_exact(k: Seq<u8>)
    requires
        k.len() == 48,
    ensures
        in_root_range(k) == (k.subrange(0, 16) == root_account_bytes()),
{
    let p = k.subrange(0, 16);
    let t = k.subrange(16, 48);
    assert(k =~= p + t);
    if p == root_account_bytes() {
        lemma_root_key_in_range(t);
        assert(k == token_rev_key(root_account_bytes(), t));
    } else {
        lemma_lex_concat(p, t, root_account_bytes(), ones(32));
        lemma_nothing_below_zeros(p);
        assert(root_account_bytes() =~= zeros(16));
        assert(!lex_lt(p, root_account_bytes()));
        assert(!lex_lt(k, root_rev_hi()));
        assert(root_rev_hi().subrange(0, 16) =~= root_account_bytes());
        assert(k != root_rev_hi());
    }
}

/// A token is listed for the root account exactly when the reverse index
/// holds the root account's entry for it.
pub proof fn lemma_listed_for_root(rev: Set<Seq<u8>>, t: Seq<u8>)
    requires
        t.len() == 32,
    ensures
        listed_for_root(rev, t) == rev.contains(token_rev_key(root_account_bytes(), t)),
{
    let key = token_rev_key(root_account_bytes(), t);
    lemma_root_key_in_range(t);
    if listed_for_root(rev, t) {
        let k = choose|k: Seq<u8>| #[trigger] rev.contains(k) && k.len() == 48 && in_root_range(k) && k.subrange(16, 48) == t;
        lemma_root_range_exact(k);
        assert(k =~= k.subrange(0, 16) + k.subrange(16, 48));
        assert(k == key);
    }
    if rev.contains(key) {
        assert(rev.contains(key) && key.len() == 48 && in_root_range(key) && key.subrange(16, 48) == t);
    }
}

fn root_range_bounds() -> (r: ([u8; 48], [u8; 48]))
    ensures
        r.0@ == root_rev_lo(),
        r.1@ == root_rev_hi(),
{
    let lo = [0u8; 48];
    let mut hi = [0u8; 48];
    let mut i: usize = 16;
    while i < 48
        invariant
            16 <= i <= 48,
            hi@.len() == 48,
            forall|j: int| 0 <= j < 16 ==> hi@[j] == 0,
            forall|j: int| 16 <= j < i ==> hi@[j] == 0xff,
        decreases 48 - i,
    {
        hi[i] = 0xff;
        i = i + 1;
    }
    assert(lo@ =~= root_rev_lo());
    assert(hi@ =~= root_rev_hi());
    (lo, hi)
}

/// Runs the root bootstrap with `token` at second `now` (see
/// `bootstrap_tokens` and `bootstrap_rev`); the root account is written with
/// creation second `now` every time.
pub fn ensure_root_account_in(tx: &mut WriteTransaction, token: &AccessToken, now: Ts) -> (r: Result<(), StoreError>)
    ensures
        r is Ok ==> {
            &&& accounts_in(*final(tx)) == accounts_in(*old(tx)).insert(root_account_bytes(), now.0)
            &&& tokens_in(*final(tx)) == bootstrap_tokens(tokens_in(*old(tx)), token_rev_in(*old(tx)), token.bytes@, now.0)
            &&& token_rev_in(*final(tx)) == bootstrap_rev(tokens_in(*old(tx)), token_rev_in(*old(tx)), token.bytes@)
            &&& series_unchanged(*old(tx), *final(tx))
        },
        r matches Err(e) ==> !(e is User),
{
    let ghost tokens0 = tokens_in(*tx);
    let ghost rev0 = token_rev_in(*tx);
    let ghost tx0 = *tx;
    let root = AccountId::root();
    match accounts_put(tx, &root.bytes, now.0) {
        Ok(()) => {},
        Err(f) => return Err(StoreError::from_fault(f)),
    }
    let known = match tokens_get(tx, &token.bytes) {
        Ok(o) => o,
        Err(f) => return Err(StoreError::from_fault(f)),
    };
    if known.is_some() {
        return Ok(());
    }
    let ghost accounts1 = accounts_in(*tx);
    let (lo, hi) = root_range_bounds();
    let ghost mut removed: Set<Seq<u8>> = Set::empty();
    let ghost mut gone: Set<Seq<u8>> = Set::empty();
    let ghost mut floor: int = -1;
    proof {
        assert(tokens0.remove_keys(gone) =~= tokens0);
        assert(rev0.difference(removed) =~= rev0);
        lemma_lex_is_numeric(hi@, hi@);
    }
    loop
        invariant
            lo@ == root_rev_lo(),
            hi@ == root_rev_hi(),
            tokens_in(*tx) == tokens0.remove_keys(gone),
            token_rev_in(*tx) == rev0.difference(removed),
            accounts_in(*tx) == accounts1,
            series_unchanged(tx0, *tx),
            forall|k: Seq<u8>| #[trigger] removed.contains(k) ==> rev0.contains(k) && k.len() == 48 && in_root_range(k),
            forall|x: Seq<u8>| #[trigger] gone.contains(x) <==> exists|k: Seq<u8>| #[trigger] removed.contains(k) && k.subrange(16, 48) == x,
            forall|k: Seq<u8>| #[trigger] token_rev_in(*tx).contains(k) && k.len() == 48 && in_root_range(k) ==> floor < be_value(k),
            floor < be_value(hi@) + 1,
            !tokens0.contains_key(token.bytes@),
        ensures
            tokens_in(*tx) == tokens0.remove_keys(gone),
            token_rev_in(*tx) == rev0.difference(removed),
            accounts_in(*tx) == accounts1,
            series_unchanged(tx0, *tx),
            forall|k: Seq<u8>| #[trigger] removed.contains(k) ==> rev0.contains(k) && k.len() == 48 && in_root_range(k),
            forall|x: Seq<u8>| #[trigger] gone.contains(x) <==> exists|k: Seq<u8>| #[trigger] removed.contains(k) && k.subrange(16, 48) == x,
            forall|k: Seq<u8>| #[trigger] token_rev_in(*tx).contains(k) ==> !in_root_range(k),
        decreases be_value(hi@) - floor,
    {
        let first = match token_rev_first_in(tx, &lo, &hi) {
            Ok(o) => o,
            Err(f) => return Err(StoreError::from_fault(f)),
        };
        match first {
            None => break,
            Some(k) => {
                let old_token = token_of_rev_key(&k);
                let ghost rev_before = token_rev_in(*tx);
                proof {
                    lemma_lex_is_numeric(k@, hi@);
                    assert(floor < be_value(k@));
                    assert forall|k2: Seq<u8>| #[trigger] rev_before.contains(k2) && k2.len() == 48 && in_root_range(k2) && k2 != k@ implies be_value(k@) < be_value(k2) by {
                        assert(lex_le(k@, k2));
                        lemma_lex_is_numeric(k@, k2);
                    }
                }
                match token_rev_delete(tx, &k) {
                    Ok(()) => {},
                    Err(f) => return Err(StoreError::from_fault(f)),
                }
                match tokens_delete(tx, &old_token.bytes) {
                    Ok(()) => {},
                    Err(f) => return Err(StoreError::from_fault(f)),
                }
                proof {
                    let old_removed = removed;
                    let old_gone = gone;
                    removed = removed.insert(k@);
                    gone = gone.insert(k@.subrange(16, 48));
                    floor = be_value(k@) as int;
                    assert(token_rev_in(*tx) =~= rev0.difference(removed));
                    assert(tokens_in(*tx) =~= tokens0.remove_keys(gone));
                    assert forall|x: Seq<u8>| #[trigger] gone.contains(x) <==> exists|k2: Seq<u8>| #[trigger] removed.contains(k2) && k2.subrange(16, 48) == x by {
                        if x == k@.subrange(16, 48) {
                            assert(removed.contains(k@));
                        }
                        if gone.contains(x) && x != k@.subrange(16, 48) {
                            assert(old_gone.contains(x));
                            let k2 = choose|k2: Seq<u8>| #[trigger] old_removed.contains(k2) && k2.subrange(16, 48) == x;
                            assert(removed.contains(k2));
                        }
                        if exists|k2: Seq<u8>| #[trigger] removed.contains(k2) && k2.subrange(16, 48) == x {
                            let k2 = choose|k2: Seq<u8>| #[trigger] removed.contains(k2) && k2.subrange(16, 48) == x;
                            if k2 != k@ {
                                assert(old_removed.contains(k2));
                            }
                        }
                    }
                }
            },
        }
    }
    proof {
        assert forall|x: Seq<u8>| gone.contains(x) <==> listed_for_root(rev0, x) by {
            if listed_for_root(rev0, x) {
                let k = choose|k: Seq<u8>| #[trigger] rev0.contains(k) && k.len() == 48 && in_root_range(k) && k.subrange(16, 48) == x;
                assert(!token_rev_in(*tx).contains(k));
                assert(removed.contains(k));
            }
            if gone.contains(x) {
                let k = choose|k: Seq<u8>| #[trigger] removed.contains(k) && k.subrange(16, 48) == x;
                assert(rev0.contains(k));
            }
        }
        assert(gone =~= Set::new(|x: Seq<u8>| listed_for_root(rev0, x)));
        let kept = rev0.filter(|k: Seq<u8>| !in_root_range(k));
        assert forall|k: Seq<u8>| #[trigger] rev0.difference(removed).contains(k) <==> kept.contains(k) by {
            if rev0.contains(k) && in_root_range(k) && !removed.contains(k) {
                assert(token_rev_in(*tx).contains(k));
            }
        }
        assert(rev0.difference(removed) =~= rev0.filter(|k: Seq<u8>| !in_root_range(k)));
    }
    let v = (now.0, root.bytes, code_of_type(AccessTokenType::Root));
    match tokens_put(tx, &token.bytes, v) {
        Ok(()) => {},
        Err(f) => return Err(StoreError::from_fault(f)),
    }
    let rev_key = token_rev_key_of(&root, token);
    match token_rev_put(tx, &rev_key) {
        Ok(()) => {},
        Err(f) => return Err(StoreError::from_fault(f)),
    }
    Ok(())
}

} // verus!
