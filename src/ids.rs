//! Identifiers: random public ids and tokens, their URL-safe base64 text form,
//! and the sequential internal id of a metric.
use base64::Engine;
use rand::RngCore;
use vstd::string::StringSliceAdditionalSpecFns;
use vstd::prelude::*;

verus! {

/// What the URL-safe, unpadded base64 engine writes for a byte string.
pub uninterp spec fn base64_url_of(b: Seq<u8>) -> Seq<char>;

/// What the URL-safe, unpadded base64 engine reads from a text: the bytes, or
/// `None` where the text is not valid in that alphabet and padding.
pub uninterp spec fn base64_url_decoded(s: Seq<char>) -> Option<Seq<u8>>;

/// Relies on `base64::Engine::encode` with `URL_SAFE_NO_PAD`: the result is a
/// function of the bytes, and decoding it with the same engine gives them back.
#[verifier::external_body]
fn encode_base64_url(b: &[u8]) -> (r: String)
    ensures
        r@ == base64_url_of(b@),
        base64_url_decoded(r@) == Some(b@),
{
    base64::engine::general_purpose::URL_SAFE_NO_PAD.encode(b)
}

/// Relies on `base64::Engine::decode` with `URL_SAFE_NO_PAD`; its error is
/// dropped, as callers only tell valid text from invalid.
#[verifier::external_body]
fn decode_base64_url(s: &str) -> (r: Option<Vec<u8>>)
    ensures
        match r {
            Some(v) => base64_url_decoded(s@) == Some(v@),
            None => base64_url_decoded(s@).is_none(),
        },
{
    base64::engine::general_purpose::URL_SAFE_NO_PAD.decode(s).ok()
}

/// Relies on `uuid::Uuid::new_v4` (random, from the operating system's
/// generator) and `Uuid::into_bytes` (big-endian): the version nibble is 4
/// and the variant bits are `10`, whatever the random part.
#[verifier::external_body]
fn random_uuid_bytes() -> (r: [u8; 16])
    ensures
        r@[6] & 0xf0u8 == 0x40u8,
        r@[8] & 0xc0u8 == 0x80u8,
{
    uuid::Uuid::new_v4().into_bytes()
}

/// Relies on `rand::thread_rng().fill_bytes`, which overwrites every byte
/// with output of a cryptographically secure generator. Nothing is promised
/// of the value.
#[verifier::external_body]
fn random_bytes_32(buf: &mut [u8; 32]) {
    rand::thread_rng().fill_bytes(buf)
}

/// Why a text is not an identifier or a token.
#[derive(Debug, Clone, Copy, PartialEq, Eq, Structural)]
pub enum IdParseError {
    /// Not URL-safe unpadded base64.
    InvalidEncoding,
    /// Decodes to the wrong number of bytes.
    WrongLength,
}

/// Whether two byte arrays hold the same bytes.
pub fn bytes_eq<const N: usize>(a: &[u8; N], b: &[u8; N]) -> (r: bool)
    ensures
        r == (a@ == b@),
{
    let mut i: usize = 0;
    while i < N
        invariant
            i <= N,
            a@.len() == N,
            b@.len() == N,
            forall|j: int| 0 <= j < i ==> a@[j] == b@[j],
        decreases N - i,
    {
        if a[i] != b[i] {
            return false;
        }
        i = i + 1;
    }
    assert(a@ =~= b@);
    true
}

/// Copies a byte string of exactly `N` bytes into an array.
fn to_array<const N: usize>(v: &Vec<u8>) -> (r: Option<[u8; N]>)
    ensures
        match r {
            Some(a) => v@.len() == N && a@ == v@,
            None => v@.len() != N,
        },
{
    if v.len() != N {
        return None;
    }
    let mut a = [0u8; N];
    let mut i: usize = 0;
    while i < N
        invariant
            i <= N,
            v@.len() == N,
            a@.len() == N,
            forall|j: int| 0 <= j < i ==> a@[j] == v@[j],
        decreases N - i,
    {
        a[i] = v[i];
        i = i + 1;
    }
    assert(a@ =~= v@);
    Some(a)
}

/// The array of `N` bytes that a text stands for, if any.
pub open spec fn parsed_bytes(s: Seq<char>, n: nat) -> Result<Seq<u8>, IdParseError> {
    match base64_url_decoded(s) {
        None => Err(IdParseError::InvalidEncoding),
        Some(b) => if b.len() == n {
            Ok(b)
        } else {
            Err(IdParseError::WrongLength)
        },
    }
}

fn parse_array<const N: usize>(s: &str) -> (r: Result<[u8; N], IdParseError>)
    ensures
        match r {
            Ok(a) => parsed_bytes(s@, N as nat) == Ok::<Seq<u8>, IdParseError>(a@),
            Err(e) => parsed_bytes(s@, N as nat) == Err::<Seq<u8>, IdParseError>(e),
        },
{
    match decode_base64_url(s) {
        None => Err(IdParseError::InvalidEncoding),
        Some(v) => match to_array::<N>(&v) {
            Some(a) => Ok(a),
            None => Err(IdParseError::WrongLength),
        },
    }
}

/// Public identifier of an account: 128 random bits.
#[derive(Debug, Clone, Copy)]
pub struct AccountId {
    pub bytes: [u8; 16],
}

/// Public identifier of a metric: 128 random bits.
#[derive(Debug, Clone, Copy)]
pub struct MetricId {
    pub bytes: [u8; 16],
}

/// A bearer credential: 256 random bits.
#[derive(Debug, Clone, Copy)]
pub struct AccessToken {
    pub bytes: [u8; 32],
}

impl AccountId {
    /// The reserved all-zero id of the root account.
    pub fn root() -> (r: Self)
        ensures
            r.bytes@ == Seq::new(16, |i: int| 0u8),
    {
        let r = AccountId { bytes: [0u8; 16] };
        assert(r.bytes@ =~= Seq::new(16, |i: int| 0u8));
        r
    }

    /// A fresh random id; never the root account's.
    pub fn generate() -> (r: Self)
        ensures
            r.bytes@ != Seq::new(16, |i: int| 0u8),
    {
        let bytes = random_uuid_bytes();
        proof {
            let b = bytes@[6];
            assert(b & 0xf0u8 == 0x40u8 ==> b != 0u8) by (bit_vector);
            assert(bytes@[6] != Seq::new(16, |i: int| 0u8)[6]);
        }
        AccountId { bytes }
    }

    pub fn from_bytes(bytes: [u8; 16]) -> (r: Self)
        ensures
            r.bytes == bytes,
    {
        AccountId { bytes }
    }

    /// Whether both ids are the same.
    pub fn same(&self, other: &Self) -> (r: bool)
        ensures
            r == (self.bytes@ == other.bytes@),
    {
        bytes_eq(&self.bytes, &other.bytes)
    }

    /// The URL-safe unpadded base64 text of the id.
    pub fn to_text(&self) -> (r: String)
        ensures
            r@ == base64_url_of(self.bytes@),
            base64_url_decoded(r@) == Some(self.bytes@),
    {
        encode_base64_url(&self.bytes)
    }

    /// Reads an id from its base64 text.
    pub fn parse(s: &str) -> (r: Result<Self, IdParseError>)
        ensures
            match r {
                Ok(id) => parsed_bytes(s@, 16) == Ok::<Seq<u8>, IdParseError>(id.bytes@),
                Err(e) => parsed_bytes(s@, 16) == Err::<Seq<u8>, IdParseError>(e),
            },
    {
        match parse_array::<16>(s) {
            Ok(bytes) => Ok(AccountId { bytes }),
            Err(e) => Err(e),
        }
    }
}

impl MetricId {
    /// A fresh random id.
    pub fn generate() -> Self {
        MetricId { bytes: random_uuid_bytes() }
    }

    pub fn from_bytes(bytes: [u8; 16]) -> (r: Self)
        ensures
            r.bytes == bytes,
    {
        MetricId { bytes }
    }

    /// Whether both ids are the same.
    pub fn same(&self, other: &Self) -> (r: bool)
        ensures
            r == (self.bytes@ == other.bytes@),
    {
        bytes_eq(&self.bytes, &other.bytes)
    }

    /// The URL-safe unpadded base64 text of the id.
    pub fn to_text(&self) -> (r: String)
        ensures
            r@ == base64_url_of(self.bytes@),
            base64_url_decoded(r@) == Some(self.bytes@),
    {
        encode_base64_url(&self.bytes)
    }

    /// Reads an id from its base64 text.
    pub fn parse(s: &str) -> (r: Result<Self, IdParseError>)
        ensures
            match r {
                Ok(id) => parsed_bytes(s@, 16) == Ok::<Seq<u8>, IdParseError>(id.bytes@),
                Err(e) => parsed_bytes(s@, 16) == Err::<Seq<u8>, IdParseError>(e),
            },
    {
        match parse_array::<16>(s) {
            Ok(bytes) => Ok(MetricId { bytes }),
            Err(e) => Err(e),
        }
    }
}

impl AccessToken {
    /// A fresh random token.
    pub fn generate() -> Self {
        let mut bytes = [0u8; 32];
        random_bytes_32(&mut bytes);
        AccessToken { bytes }
    }

    pub fn from_bytes(bytes: [u8; 32]) -> (r: Self)
        ensures
            r.bytes == bytes,
    {
        AccessToken { bytes }
    }

    /// Whether both tokens are the same.
    pub fn same(&self, other: &Self) -> (r: bool)
        ensures
            r == (self.bytes@ == other.bytes@),
    {
        bytes_eq(&self.bytes, &other.bytes)
    }

    /// The transport form of the token: URL-safe unpadded base64.
    pub fn to_text(&self) -> (r: String)
        ensures
            r@ == base64_url_of(self.bytes@),
            base64_url_decoded(r@) == Some(self.bytes@),
    {
        encode_base64_url(&self.bytes)
    }

    /// Reads a token from its transport form: the text must decode to
    /// exactly 32 bytes.
    pub fn parse(s: &str) -> (r: Result<Self, IdParseError>)
        ensures
            match r {
                Ok(t) => parsed_bytes(s@, 32) == Ok::<Seq<u8>, IdParseError>(t.bytes@),
                Err(e) => parsed_bytes(s@, 32) == Err::<Seq<u8>, IdParseError>(e),
            },
    {
        match parse_array::<32>(s) {
            Ok(bytes) => Ok(AccessToken { bytes }),
            Err(e) => Err(e),
        }
    }
}

/// Compact sequential identifier of a metric, used only inside storage keys.
#[derive(Debug, Clone, Copy, PartialEq, Eq, Structural, Default)]
pub struct MetricInternalId(pub u64);

impl MetricInternalId {
    /// The identifier that follows this one.
    pub fn next(self) -> (r: Self)
        requires
            self.0 < u64::MAX,
        ensures
            r.0 == self.0 + 1,
    {
        MetricInternalId(self.0 + 1)
    }
}

/// Privilege tier of an access token.
#[derive(Debug, Clone, Copy, PartialEq, Eq, Structural)]
pub enum AccessTokenType {
    Root,
    Admin,
    Post,
}

impl AccessTokenType {
    /// The name of each tier, as clients write it (its UTF-8 bytes).
    pub open spec fn spec_name(self) -> Seq<u8> {
        match self {
            AccessTokenType::Root => seq![0x72u8, 0x6f, 0x6f, 0x74],
            AccessTokenType::Admin => seq![0x61u8, 0x64, 0x6d, 0x69, 0x6e],
            AccessTokenType::Post => seq![0x70u8, 0x6f, 0x73, 0x74],
        }
    }

    /// Reads a tier from its name: `root`, `admin` or `post`.
    pub fn from_name(s: &str) -> (r: Option<Self>)
        ensures
            match r {
                Some(t) => t.spec_name() == s.spec_bytes(),
                None => forall|t: AccessTokenType| t.spec_name() != s.spec_bytes(),
            },
    {
        let c = s.as_bytes();
        if c.len() == 4 && c[0] == 0x72 && c[1] == 0x6f && c[2] == 0x6f && c[3] == 0x74 {
            assert(c@ =~= seq![0x72u8, 0x6f, 0x6f, 0x74]);
            Some(AccessTokenType::Root)
        } else if c.len() == 5 && c[0] == 0x61 && c[1] == 0x64 && c[2] == 0x6d && c[3] == 0x69
            && c[4] == 0x6e {
            assert(c@ =~= seq![0x61u8, 0x64, 0x6d, 0x69, 0x6e]);
            Some(AccessTokenType::Admin)
        } else if c.len() == 4 && c[0] == 0x70 && c[1] == 0x6f && c[2] == 0x73 && c[3] == 0x74 {
            assert(c@ =~= seq![0x70u8, 0x6f, 0x73, 0x74]);
            Some(AccessTokenType::Post)
        } else {
            assert forall|t: AccessTokenType| t.spec_name() != s.spec_bytes() by {
                if t.spec_name() == s.spec_bytes() {
                    assert(c@[0] == t.spec_name()[0]);
                    assert(c@[1] == t.spec_name()[1]);
                    assert(c@[2] == t.spec_name()[2]);
                    assert(c@[3] == t.spec_name()[3]);
                }
            }
            None
        }
    }
}

} // verus!
