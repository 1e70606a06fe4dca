//! Records kept in the store and the byte layout of every ordered key.
use crate::ids::{AccessToken, AccessTokenType, AccountId, MetricInternalId};
use crate::keys::{
    be_bytes, be_value, lex_le, lemma_be_bytes_len, lemma_be_concat, lemma_be_order, lemma_be_value_bound,
    lemma_bytes_of_value, lemma_pow256_values, lex_lt, pow256, read_be_u64, write_be_u64,
};
use vstd::prelude::*;
use vstd::string::StringSliceAdditionalSpecFns;
use vstd::utf8::encode_utf8;

verus! {

/// Relies on `SystemTime::elapsed` on `UNIX_EPOCH`: whole seconds since the
/// epoch, `None` where the clock reads earlier. Nothing is promised of the
/// value.
#[verifier::external_body]
fn unix_time_secs() -> Option<u64> {
    std::time::UNIX_EPOCH.elapsed().ok().map(|d| d.as_secs())
}

/// A timestamp, in whole seconds since the Unix epoch.
#[derive(Debug, Clone, Copy, PartialEq, Eq, Structural)]
pub struct Ts(pub u64);

impl Ts {
    pub fn zero() -> (r: Ts)
        ensures
            r.0 == 0,
    {
        Ts(0)
    }

    /// The current wall-clock second; the epoch itself where the clock reads
    /// earlier than the epoch.
    pub fn now() -> Ts {
        match unix_time_secs() {
            Some(secs) => Ts(secs),
            None => Ts(0),
        }
    }

    pub fn from_absolute_secs(secs: u64) -> (r: Ts)
        ensures
            r.0 == secs,
    {
        Ts(secs)
    }

    pub fn to_absolute_secs(self) -> (r: u64)
        ensures
            r == self.0,
    {
        self.0
    }

    /// The next second.
    pub fn inc(self) -> (r: Ts)
        requires
            self.0 < u64::MAX,
        ensures
            r.0 == self.0 + 1,
    {
        Ts(self.0 + 1)
    }
}

/// Key of one data point: metric, second, and the position of the point
/// among those that share that metric and second.
#[derive(Debug, Clone, Copy, PartialEq, Eq, Structural)]
pub struct DataPoint {
    pub metric_internal_id: MetricInternalId,
    pub ts: Ts,
    pub idx: u64,
}

/// Order of data point keys: by metric, then second, then position.
pub open spec fn point_lt(a: DataPoint, b: DataPoint) -> bool {
    a.metric_internal_id.0 < b.metric_internal_id.0 || (a.metric_internal_id.0
        == b.metric_internal_id.0 && (a.ts.0 < b.ts.0 || (a.ts.0 == b.ts.0 && a.idx < b.idx)))
}

pub open spec fn point_le(a: DataPoint, b: DataPoint) -> bool {
    point_lt(a, b) || a == b
}

/// Stored form of a data point key: three fixed-width big-endian numbers.
pub open spec fn point_key(p: DataPoint) -> Seq<u8> {
    be_bytes(p.metric_internal_id.0 as nat, 8) + be_bytes(p.ts.0 as nat, 8) + be_bytes(
        p.idx as nat,
        8,
    )
}

/// Position of a key in the order of all keys, as a single number.
pub open spec fn point_rank(p: DataPoint) -> int {
    p.metric_internal_id.0 as int * 0x1_0000_0000_0000_0000_0000_0000_0000_0000 + p.ts.0 as int
        * 0x1_0000_0000_0000_0000 + p.idx as int
}

/// The data point key whose stored form a byte string is.
pub open spec fn point_of_key(k: Seq<u8>) -> DataPoint {
    DataPoint {
        metric_internal_id: MetricInternalId(be_value(k.subrange(0, 8)) as u64),
        ts: Ts(be_value(k.subrange(8, 16)) as u64),
        idx: be_value(k.subrange(16, 24)) as u64,
    }
}

pub proof fn lemma_point_rank_order(a: DataPoint, b: DataPoint)
    ensures
        point_lt(a, b) == (point_rank(a) < point_rank(b)),
        (a == b) == (point_rank(a) == point_rank(b)),
{
}

/// The stored form of a key is the 24-byte big-endian form of its rank.
pub proof fn lemma_point_key_is_rank(p: DataPoint)
    ensures
        point_key(p) == be_bytes(point_rank(p) as nat, 24),
        point_rank(p) < pow256(24),
        point_key(p).len() == 24,
{
    let a = p.metric_internal_id.0 as nat;
    let t = p.ts.0 as nat;
    let i = p.idx as nat;
    lemma_pow256_values();
    lemma_be_concat(a, t, 8, 8);
    lemma_be_concat(a * pow256(8) + t, i, 16, 8);
    reveal_with_fuel(pow256, 25);
    lemma_be_bytes_len(a, 8);
    lemma_be_bytes_len(t, 8);
    lemma_be_bytes_len(i, 8);
}

/// The order of stored keys, byte by byte, is the order of data point keys:
/// a range scan over stored keys visits points by metric, second and position.
pub proof fn lemma_point_key_order(a: DataPoint, b: DataPoint)
    ensures
        lex_lt(point_key(a), point_key(b)) == point_lt(a, b),
        (point_key(a) == point_key(b)) == (a == b),
{
    lemma_point_key_is_rank(a);
    lemma_point_key_is_rank(b);
    lemma_be_order(point_rank(a) as nat, point_rank(b) as nat, 24);
    lemma_point_rank_order(a, b);
}

/// `lemma_point_key_order`, for `<=`.
pub proof fn lemma_point_key_le(a: DataPoint, b: DataPoint)
    ensures
        lex_le(point_key(a), point_key(b)) == point_le(a, b),
        lex_lt(point_key(a), point_key(b)) == point_lt(a, b),
{
    lemma_point_key_order(a, b);
}

/// Every 24-byte string is the stored form of exactly one key.
pub proof fn lemma_point_of_key(k: Seq<u8>)
    requires
        k.len() == 24,
    ensures
        point_key(point_of_key(k)) == k,
{
    let k0 = k.subrange(0, 8);
    let k1 = k.subrange(8, 16);
    let k2 = k.subrange(16, 24);
    lemma_be_value_bound(k0);
    lemma_be_value_bound(k1);
    lemma_be_value_bound(k2);
    lemma_pow256_values();
    lemma_bytes_of_value(k0);
    lemma_bytes_of_value(k1);
    lemma_bytes_of_value(k2);
    assert(k =~= k0 + k1 + k2);
}

impl DataPoint {
    /// The stored form of the key.
    pub fn to_key(&self) -> (r: [u8; 24])
        ensures
            r@ == point_key(*self),
    {
        let mut buf = [0u8; 24];
        write_be_u64(&mut buf, 0, self.metric_internal_id.0);
        write_be_u64(&mut buf, 8, self.ts.0);
        write_be_u64(&mut buf, 16, self.idx);
        proof {
            lemma_be_bytes_len(self.metric_internal_id.0 as nat, 8);
            lemma_be_bytes_len(self.ts.0 as nat, 8);
            lemma_be_bytes_len(self.idx as nat, 8);
            assert(buf@ =~= point_key(*self));
        }
        buf
    }

    /// The key whose stored form `k` is.
    pub fn from_key(k: &[u8; 24]) -> (r: DataPoint)
        ensures
            r == point_of_key(k@),
            point_key(r) == k@,
    {
        proof {
            lemma_point_of_key(k@);
            lemma_be_value_bound(k@.subrange(0, 8));
            lemma_be_value_bound(k@.subrange(8, 16));
            lemma_be_value_bound(k@.subrange(16, 24));
            lemma_pow256_values();
        }
        DataPoint {
            metric_internal_id: MetricInternalId(read_be_u64(k, 0)),
            ts: Ts(read_be_u64(k, 8)),
            idx: read_be_u64(k, 16),
        }
    }
}

/// Stored form of an internal id: eight big-endian bytes, so that the last
/// stored key is the largest id.
pub open spec fn internal_id_key(id: MetricInternalId) -> Seq<u8> {
    be_bytes(id.0 as nat, 8)
}

impl MetricInternalId {
    pub fn to_key(&self) -> (r: [u8; 8])
        ensures
            r@ == internal_id_key(*self),
    {
        let mut buf = [0u8; 8];
        write_be_u64(&mut buf, 0, self.0);
        proof {
            lemma_be_bytes_len(self.0 as nat, 8);
            assert(buf@ =~= internal_id_key(*self));
        }
        buf
    }

    pub fn from_key(k: &[u8; 8]) -> (r: MetricInternalId)
        ensures
            internal_id_key(r) == k@,
            r.0 == be_value(k@),
    {
        proof {
            assert(k@.subrange(0, 8) =~= k@);
            lemma_be_value_bound(k@);
            lemma_pow256_values();
            lemma_bytes_of_value(k@);
        }
        MetricInternalId(read_be_u64(k, 0))
    }
}

/// Stored form of a reverse-index entry: the account's 16 bytes, then the
/// token's 32, so that one account's tokens form one range.
pub open spec fn token_rev_key(account: Seq<u8>, token: Seq<u8>) -> Seq<u8> {
    account + token
}

/// Builds the reverse-index key of a token.
pub fn token_rev_key_of(account: &AccountId, token: &AccessToken) -> (r: [u8; 48])
    ensures
        r@ == token_rev_key(account.bytes@, token.bytes@),
{
    let mut buf = [0u8; 48];
    let mut i: usize = 0;
    while i < 48
        invariant
            i <= 48,
            buf@.len() == 48,
            forall|j: int| 0 <= j < i && j < 16 ==> buf@[j] == account.bytes@[j],
            forall|j: int| 16 <= j < i ==> buf@[j] == token.bytes@[j - 16],
        decreases 48 - i,
    {
        if i < 16 {
            buf[i] = account.bytes[i];
        } else {
            buf[i] = token.bytes[i - 16];
        }
        i = i + 1;
    }
    assert(buf@ =~= token_rev_key(account.bytes@, token.bytes@));
    buf
}

/// The token part of a reverse-index key.
pub fn token_of_rev_key(k: &[u8; 48]) -> (r: AccessToken)
    ensures
        r.bytes@ == k@.subrange(16, 48),
{
    let mut buf = [0u8; 32];
    let mut i: usize = 0;
    while i < 32
        invariant
            i <= 32,
            buf@.len() == 32,
            forall|j: int| 0 <= j < i ==> buf@[j] == k@[j + 16],
        decreases 32 - i,
    {
        buf[i] = k[i + 16];
        i = i + 1;
    }
    assert(buf@ =~= k@.subrange(16, 48));
    AccessToken { bytes: buf }
}

/// When a record was made.
#[derive(Debug, Clone, Copy)]
pub struct AccountRecord {
    pub created: Ts,
}

/// What a token grants: its tier, for which account.
#[derive(Debug, Clone, Copy)]
pub struct AccessTokenRecord {
    pub created: Ts,
    pub account_id: AccountId,
    pub token_type: AccessTokenType,
}

/// A metric: its owner and its internal id.
#[derive(Debug, Clone, Copy)]
pub struct MetricRecord {
    pub created: Ts,
    pub account_id: AccountId,
    pub internal_id: MetricInternalId,
}

/// Value of a data point: the bit pattern of a 32-bit float, kept as it
/// was given.
#[derive(Debug, Clone, Copy, PartialEq, Eq, Structural)]
pub struct DataPointValue(pub u32);

impl DataPointValue {
    pub fn from_bits(bits: u32) -> (r: DataPointValue)
        ensures
            r.0 == bits,
    {
        DataPointValue(bits)
    }

    pub fn to_bits(self) -> (r: u32)
        ensures
            r == self.0,
    {
        self.0
    }
}

/// Largest metadata, in bytes of UTF-8.
pub const METADATA_MAX_LEN: usize = 256;

/// The metadata was longer than `METADATA_MAX_LEN` bytes.
#[derive(Debug, Clone, Copy, PartialEq, Eq, Structural)]
pub struct MetadataTooLong;

/// Metadata attached to a data point: text of at most 256 bytes.
#[derive(Debug, Clone)]
pub struct DataPointMetadata {
    text: String,
}

impl DataPointMetadata {
    pub closed spec fn view(&self) -> Seq<char> {
        self.text@
    }

    /// The metadata holds at most `METADATA_MAX_LEN` bytes.
    pub closed spec fn wf(&self) -> bool {
        encode_utf8(self.text@).len() <= METADATA_MAX_LEN
    }

    /// Empty metadata.
    pub fn empty() -> (r: DataPointMetadata)
        ensures
            r.view().len() == 0,
            r.wf(),
    {
        let text = String::new();
        proof {
            reveal_with_fuel(encode_utf8, 2);
        }
        DataPointMetadata { text }
    }

    /// Takes the text if it holds at most `METADATA_MAX_LEN` bytes.
    pub fn try_new(s: &str) -> (r: Result<DataPointMetadata, MetadataTooLong>)
        ensures
            match r {
                Ok(m) => s.spec_bytes().len() <= METADATA_MAX_LEN && m.view() == s@ && m.wf(),
                Err(_) => s.spec_bytes().len() > METADATA_MAX_LEN,
            },
    {
        if s.as_bytes().len() > METADATA_MAX_LEN {
            return Err(MetadataTooLong);
        }
        let text = s.to_owned();
        Ok(DataPointMetadata { text })
    }

    pub fn is_empty(&self) -> (r: bool)
        ensures
            r == (self.view().len() == 0),
    {
        self.text.as_str().is_empty()
    }

    /// A copy of the metadata.
    pub fn duplicate(&self) -> (r: DataPointMetadata)
        ensures
            r.view() == self.view(),
            r.wf() == self.wf(),
    {
        DataPointMetadata { text: self.text.clone() }
    }

    pub fn text(&self) -> (r: &String)
        ensures
            r@ == self.view(),
    {
        &self.text
    }

    pub fn as_str(&self) -> (r: &str)
        ensures
            r@ == self.view(),
    {
        self.text.as_str()
    }
}

/// A data point's value and metadata.
#[derive(Debug, Clone)]
pub struct DataPointRecord {
    pub value: DataPointValue,
    pub metadata: DataPointMetadata,
}

} // verus!
