//! Properties that relate several operations, proved over the models that
//! the operations' contracts use.
use crate::auth::{may_create_token, root_account_bytes};
use crate::bootstrap::{
    bootstrap_rev, bootstrap_tokens, lemma_listed_for_root, lemma_root_key_in_range, lemma_root_range_exact,
};
use crate::ids::AccessTokenType;
use crate::schema::{point_key, point_lt, AccessTokenRecord, DataPoint};
use crate::schema::token_rev_key;
use crate::series::{has_point, in_scan, is_next_idx, is_page, pt, scan_hi, scan_lo, PointMap};
use vstd::prelude::*;

verus! {

/// A root token can never be created through token creation, whatever the
/// caller's privilege.
pub proof fn lemma_root_tokens_never_minted(auth: AccessTokenRecord, account: Seq<u8>)
    ensures
        !may_create_token(auth, account, AccessTokenType::Root),
{
}

/// An admin token can never create a token for an account other than its own.
pub proof fn lemma_admin_only_for_own_account(auth: AccessTokenRecord, account: Seq<u8>, ty: AccessTokenType)
    requires
        auth.account_id.bytes@ != account,
    ensures
        !may_create_token(auth, account, ty),
{
}

/// A query of one metric never returns a point of another metric, even of
/// the next internal id at overlapping seconds.
pub proof fn lemma_query_stays_in_metric(m: PointMap, iid: u64, start: Option<crate::schema::Ts>, end: Option<crate::schema::Ts>, limit: nat, r: Seq<DataPoint>)
    requires
        is_page(m, scan_lo(iid, start), scan_hi(iid, end), limit, r),
        end is None ==> iid < u64::MAX,
    ensures
        forall|i: int| 0 <= i < r.len() ==> (#[trigger] r[i]).metric_internal_id.0 == iid,
{
    assert forall|i: int| 0 <= i < r.len() implies (#[trigger] r[i]).metric_internal_id.0 == iid by {
        assert(in_scan(m, scan_lo(iid, start), scan_hi(iid, end), r[i]));
    }
}

/// The next position of a second is unique.
pub proof fn lemma_next_idx_unique(m: PointMap, iid: u64, ts: u64, a: u64, b: u64)
    requires
        is_next_idx(m, iid, ts, a),
        is_next_idx(m, iid, ts, b),
    ensures
        a == b,
{
    if a < b {
        assert(has_point(m, pt(iid, ts, (b - 1) as u64)));
    } else if b < a {
        assert(has_point(m, pt(iid, ts, (a - 1) as u64)));
    }
}

/// Posting in one second takes positions one after another: a second with
/// no point gives position 0, and after a point is stored at the next
/// position `idx`, the next one is `idx + 1`. So N points posted in one
/// second get positions 0 to N-1, in the order they were posted.
pub proof fn lemma_same_second_positions(m: PointMap, iid: u64, ts: u64, idx: u64, v: (u32, Seq<char>))
    requires
        is_next_idx(m, iid, ts, idx),
        idx < u64::MAX,
    ensures
        is_next_idx(m.insert(point_key(pt(iid, ts, idx)), v), iid, ts, (idx + 1) as u64),
        (forall|i: u64| !has_point(m, #[trigger] pt(iid, ts, i))) ==> idx == 0,
{
    let m2 = m.insert(point_key(pt(iid, ts, idx)), v);
    assert forall|i: u64| #[trigger] has_point(m2, pt(iid, ts, i)) implies i < idx + 1 by {
        if point_key(pt(iid, ts, i)) != point_key(pt(iid, ts, idx)) {
            assert(has_point(m, pt(iid, ts, i)));
        } else {
            crate::schema::lemma_point_key_order(pt(iid, ts, i), pt(iid, ts, idx));
        }
    }
    assert(pt(iid, ts, ((idx + 1) - 1) as u64) == pt(iid, ts, idx));
    if idx > 0 {
        assert(has_point(m, pt(iid, ts, (idx - 1) as u64)));
    }
}

proof fn lemma_posts_prefix(
    ms: Seq<PointMap>,
    idxs: Seq<u64>,
    vals: Seq<(u32, Seq<char>)>,
    iid: u64,
    ts: u64,
    n: int,
)
    requires
        ms.len() == idxs.len() + 1,
        vals.len() == idxs.len(),
        idxs.len() <= u64::MAX,
        0 <= n <= idxs.len(),
        forall|j: u64| !has_point(ms[0], #[trigger] pt(iid, ts, j)),
        forall|i: int|
            0 <= i < idxs.len() ==> is_next_idx(ms[i], iid, ts, #[trigger] idxs[i]) && ms[i + 1]
                == ms[i].insert(point_key(pt(iid, ts, idxs[i])), vals[i]),
    ensures
        forall|i: int| 0 <= i < n ==> #[trigger] idxs[i] == i,
        forall|j: u64| #[trigger] has_point(ms[n], pt(iid, ts, j)) <==> j < n,
    decreases n,
{
    if n > 0 {
        lemma_posts_prefix(ms, idxs, vals, iid, ts, n - 1);
        let m = ms[n - 1];
        assert(is_next_idx(m, iid, ts, (n - 1) as u64)) by {
            if n - 1 > 0 {
                assert(has_point(m, pt(iid, ts, (n - 2) as u64)));
            }
        }
        assert(is_next_idx(m, iid, ts, idxs[n - 1]));
        lemma_next_idx_unique(m, iid, ts, idxs[n - 1], (n - 1) as u64);
        assert(ms[n] == m.insert(point_key(pt(iid, ts, idxs[n - 1])), vals[n - 1]));
        assert forall|j: u64| #[trigger] has_point(ms[n], pt(iid, ts, j)) <==> j < n by {
            crate::schema::lemma_point_key_order(pt(iid, ts, j), pt(iid, ts, idxs[n - 1]));
            assert(has_point(m, pt(iid, ts, j)) == (j < n - 1));
        }
    }
}

/// N points posted to one metric within one second, into a second that held
/// none, take positions 0 to N-1 in the order they were posted, and the
/// second then holds exactly those positions. `ms[i]` is the data before the
/// i-th post, `idxs[i]` the position that post took (see `post_in`).
pub proof fn lemma_posts_in_one_second(
    ms: Seq<PointMap>,
    idxs: Seq<u64>,
    vals: Seq<(u32, Seq<char>)>,
    iid: u64,
    ts: u64,
)
    requires
        ms.len() == idxs.len() + 1,
        vals.len() == idxs.len(),
        idxs.len() <= u64::MAX,
        forall|j: u64| !has_point(ms[0], #[trigger] pt(iid, ts, j)),
        forall|i: int|
            0 <= i < idxs.len() ==> is_next_idx(ms[i], iid, ts, #[trigger] idxs[i]) && ms[i + 1]
                == ms[i].insert(point_key(pt(iid, ts, idxs[i])), vals[i]),
    ensures
        forall|i: int| 0 <= i < idxs.len() ==> #[trigger] idxs[i] == i,
        forall|j: u64| #[trigger] has_point(ms.last(), pt(iid, ts, j)) <==> j < idxs.len(),
{
    lemma_posts_prefix(ms, idxs, vals, iid, ts, idxs.len() as int);
}

/// A page never splits a second's group: every stored point of the range
/// that shares the metric and second of the page's last point is on the page.
pub proof fn lemma_page_keeps_groups(m: PointMap, lo: DataPoint, hi: DataPoint, limit: nat, r: Seq<DataPoint>, p: DataPoint)
    requires
        is_page(m, lo, hi, limit, r),
        r.len() > 0,
        in_scan(m, lo, hi, p),
        p.metric_internal_id == r.last().metric_internal_id,
        p.ts == r.last().ts,
    ensures
        r.contains(p),
    decreases p.idx,
{
    if !r.contains(p) {
        assert(point_lt(r[r.len() - 1], p));
        if forall|q: DataPoint| in_scan(m, lo, hi, q) && point_lt(q, p) ==> r.contains(q) {
            assert(p.idx == 0);
        } else {
            let q = choose|q: DataPoint| in_scan(m, lo, hi, q) && point_lt(q, p) && !r.contains(q);
            assert(point_lt(r[r.len() - 1], q));
            lemma_page_keeps_groups(m, lo, hi, limit, r, q);
        }
    }
}

/// After a post, a query of the whole metric whose page is not full ends
/// with the posted point, provided no stored point of the metric was stamped
/// after the post's second.
pub proof fn lemma_post_then_query_ends_with_it(
    m: PointMap,
    iid: u64,
    now: u64,
    idx: u64,
    v: (u32, Seq<char>),
    limit: nat,
    r: Seq<DataPoint>,
)
    requires
        is_next_idx(m, iid, now, idx),
        iid < u64::MAX,
        forall|p: DataPoint| #[trigger] has_point(m, p) && p.metric_internal_id.0 == iid ==> p.ts.0 <= now,
        is_page(m.insert(point_key(pt(iid, now, idx)), v), scan_lo(iid, None), scan_hi(iid, None), limit, r),
        r.len() < limit,
    ensures
        r.len() > 0,
        r.last() == pt(iid, now, idx),
{
    let m2 = m.insert(point_key(pt(iid, now, idx)), v);
    let lo = scan_lo(iid, None);
    let hi = scan_hi(iid, None);
    let k = pt(iid, now, idx);
    assert(in_scan(m2, lo, hi, k));
    assert(r.contains(k));
    let last = r.last();
    assert(in_scan(m2, lo, hi, r[r.len() - 1]));
    if last != k {
        let i = choose|i: int| 0 <= i < r.len() && r[i] == k;
        assert(point_lt(r[i], r[r.len() - 1]));
        crate::schema::lemma_point_key_order(last, k);
        assert(has_point(m, last));
        assert(last.ts.0 <= now);
        assert(has_point(m, pt(iid, now, last.idx)));
    }
}

/// Running the bootstrap again with the same token changes no token and no
/// reverse-index entry; after a bootstrap that set a new token `t`, the
/// reverse index holds exactly one entry of the root account, `t`'s, and
/// still does after the second run.
pub proof fn lemma_bootstrap_idempotent(
    tokens: Map<Seq<u8>, (u64, Seq<u8>, u8)>,
    rev: Set<Seq<u8>>,
    t: Seq<u8>,
    now1: u64,
    now2: u64,
)
    requires
        t.len() == 32,
    ensures
        ({
            let t1 = bootstrap_tokens(tokens, rev, t, now1);
            let r1 = bootstrap_rev(tokens, rev, t);
            &&& bootstrap_tokens(t1, r1, t, now2) == t1
            &&& bootstrap_rev(t1, r1, t) == r1
            &&& !tokens.contains_key(t) ==> forall|k: Seq<u8>|
                k.len() == 48 && #[trigger] k.subrange(0, 16) == root_account_bytes() ==> (r1.contains(k)
                    <==> k == token_rev_key(root_account_bytes(), t))
        }),
{
    lemma_root_key_in_range(t);
    let r1 = bootstrap_rev(tokens, rev, t);
    if !tokens.contains_key(t) {
        assert forall|k: Seq<u8>|
            k.len() == 48 && #[trigger] k.subrange(0, 16) == root_account_bytes() implies (r1.contains(k)
                <==> k == token_rev_key(root_account_bytes(), t)) by {
            lemma_root_range_exact(k);
        }
    }
}

/// Running the bootstrap with a new token `t2` after one with `t1` revokes
/// `t1`, provided `t2` was not a known token already.
pub proof fn lemma_bootstrap_rotation_revokes(
    tokens: Map<Seq<u8>, (u64, Seq<u8>, u8)>,
    rev: Set<Seq<u8>>,
    t1: Seq<u8>,
    t2: Seq<u8>,
    now1: u64,
    now2: u64,
)
    requires
        t1.len() == 32,
        t1 != t2,
        tokens.contains_key(t1) ==> rev.contains(token_rev_key(root_account_bytes(), t1)),
        !bootstrap_tokens(tokens, rev, t1, now1).contains_key(t2),
    ensures
        !bootstrap_tokens(
            bootstrap_tokens(tokens, rev, t1, now1),
            bootstrap_rev(tokens, rev, t1),
            t2,
            now2,
        ).contains_key(t1),
{
    let r1 = bootstrap_rev(tokens, rev, t1);
    let k = token_rev_key(root_account_bytes(), t1);
    lemma_root_key_in_range(t1);
    assert(r1.contains(k));
    lemma_listed_for_root(r1, t1);
}

} // verus!
