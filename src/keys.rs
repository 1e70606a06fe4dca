//! Fixed-width big-endian byte layout of storage keys, and the proof that
//! byte-wise lexicographic order of encoded keys is the order of the values
//! they encode.
use vstd::arithmetic::div_mod::{lemma_fundamental_div_mod, lemma_fundamental_div_mod_converse};
use vstd::prelude::*;

verus! {

/// 256 to the power `n`.
pub open spec fn pow256(n: nat) -> nat
    decreases n,
{
    if n == 0 {
        1
    } else {
        256 * pow256((n - 1) as nat)
    }
}

/// The `n`-byte big-endian representation of `x` (modulo 256^n).
pub open spec fn be_bytes(x: nat, n: nat) -> Seq<u8>
    decreases n,
{
    if n == 0 {
        Seq::empty()
    } else {
        be_bytes(x / 256, (n - 1) as nat).push((x % 256) as u8)
    }
}

/// The number a big-endian byte string stands for.
pub open spec fn be_value(s: Seq<u8>) -> nat
    decreases s.len(),
{
    if s.len() == 0 {
        0
    } else {
        (be_value(s.drop_last()) * 256 + s.last()) as nat
    }
}

/// Byte-wise lexicographic order, the order of `<` on byte slices.
pub open spec fn lex_lt(a: Seq<u8>, b: Seq<u8>) -> bool
    decreases a.len(),
{
    if a.len() == 0 {
        b.len() > 0
    } else if b.len() == 0 {
        false
    } else if a[0] != b[0] {
        a[0] < b[0]
    } else {
        lex_lt(a.drop_first(), b.drop_first())
    }
}

pub open spec fn lex_le(a: Seq<u8>, b: Seq<u8>) -> bool {
    lex_lt(a, b) || a == b
}

pub proof fn lemma_pow256_pos(n: nat)
    ensures
        pow256(n) > 0,
    decreases n,
{
    if n > 0 {
        lemma_pow256_pos((n - 1) as nat);
    }
}

pub proof fn lemma_pow256_mono(m: nat, n: nat)
    requires
        m <= n,
    ensures
        pow256(m) <= pow256(n),
    decreases n,
{
    if m < n {
        lemma_pow256_mono(m, (n - 1) as nat);
        lemma_pow256_pos((n - 1) as nat);
    }
}

pub proof fn lemma_pow256_values()
    ensures
        pow256(8) == 0x1_0000_0000_0000_0000,
        pow256(16) == 0x1_0000_0000_0000_0000_0000_0000_0000_0000,
{
    reveal_with_fuel(pow256, 17);
}

proof fn lemma_div256(x: nat)
    ensures
        x == 256 * (x / 256) + x % 256,
        x % 256 < 256,
        x / 256 <= x,
{
    lemma_fundamental_div_mod(x as int, 256);
}

pub proof fn lemma_be_bytes_len(x: nat, n: nat)
    ensures
        be_bytes(x, n).len() == n,
    decreases n,
{
    if n > 0 {
        lemma_be_bytes_len(x / 256, (n - 1) as nat);
    }
}

pub proof fn lemma_be_value_bound(s: Seq<u8>)
    ensures
        be_value(s) < pow256(s.len()),
    decreases s.len(),
{
    if s.len() > 0 {
        lemma_be_value_bound(s.drop_last());
    }
}

/// Reading back the bytes of a number that fits gives the number.
pub proof fn lemma_value_of_bytes(x: nat, n: nat)
    requires
        x < pow256(n),
    ensures
        be_value(be_bytes(x, n)) == x,
    decreases n,
{
    if n > 0 {
        lemma_div256(x);
        lemma_value_of_bytes(x / 256, (n - 1) as nat);
        let b = be_bytes(x, n);
        assert(b.drop_last() =~= be_bytes(x / 256, (n - 1) as nat));
    }
}

/// Writing out the number of a byte string gives the byte string.
pub proof fn lemma_bytes_of_value(s: Seq<u8>)
    ensures
        be_bytes(be_value(s), s.len()) == s,
    decreases s.len(),
{
    if s.len() > 0 {
        let d = s.drop_last();
        lemma_bytes_of_value(d);
        let v = be_value(s);
        lemma_fundamental_div_mod_converse(v as int, 256, be_value(d) as int, s.last() as int);
        assert(be_bytes(v, s.len()) =~= s);
    }
}

proof fn lemma_lex_push(a: Seq<u8>, b: Seq<u8>, x: u8, y: u8)
    requires
        a.len() == b.len(),
    ensures
        lex_lt(a.push(x), b.push(y)) == (lex_lt(a, b) || (a == b && x < y)),
    decreases a.len(),
{
    if a.len() == 0 {
        assert(a =~= b);
        assert(a.push(x).drop_first() =~= Seq::<u8>::empty());
        assert(b.push(y).drop_first() =~= Seq::<u8>::empty());
        assert(!lex_lt(Seq::<u8>::empty(), Seq::<u8>::empty()));
        assert(a.push(x)[0] == x && b.push(y)[0] == y);
    } else {
        assert(a.push(x)[0] == a[0] && b.push(y)[0] == b[0]);
        assert(a.push(x).drop_first() =~= a.drop_first().push(x));
        assert(b.push(y).drop_first() =~= b.drop_first().push(y));
        lemma_lex_push(a.drop_first(), b.drop_first(), x, y);
        if a[0] == b[0] {
            if a.drop_first() == b.drop_first() {
                assert forall|i: int| 0 <= i < a.len() implies a[i] == b[i] by {
                    if i > 0 {
                        assert(a[i] == a.drop_first()[i - 1]);
                        assert(b[i] == b.drop_first()[i - 1]);
                    }
                }
                assert(a =~= b);
            }
            if a == b {
                assert(a.drop_first() =~= b.drop_first());
            }
        }
    }
}

/// On numbers that fit in `n` bytes, byte order of the big-endian form is
/// numeric order, and equal forms come from equal numbers.
pub proof fn lemma_be_order(x: nat, y: nat, n: nat)
    requires
        x < pow256(n),
        y < pow256(n),
    ensures
        lex_lt(be_bytes(x, n), be_bytes(y, n)) == (x < y),
        (be_bytes(x, n) == be_bytes(y, n)) == (x == y),
    decreases n,
{
    if n == 0 {
        assert(be_bytes(x, n) =~= be_bytes(y, n));
    } else {
        let m = (n - 1) as nat;
        lemma_div256(x);
        lemma_div256(y);
        lemma_be_order(x / 256, y / 256, m);
        lemma_be_bytes_len(x / 256, m);
        lemma_be_bytes_len(y / 256, m);
        lemma_lex_push(be_bytes(x / 256, m), be_bytes(y / 256, m), (x % 256) as u8, (y % 256) as u8);
        lemma_value_of_bytes(x, n);
        lemma_value_of_bytes(y, n);
    }
}

/// Any two byte strings of one length are ordered as the numbers they stand for.
pub proof fn lemma_lex_is_numeric(a: Seq<u8>, b: Seq<u8>)
    requires
        a.len() == b.len(),
    ensures
        lex_lt(a, b) == (be_value(a) < be_value(b)),
{
    lemma_bytes_of_value(a);
    lemma_bytes_of_value(b);
    lemma_be_value_bound(a);
    lemma_be_value_bound(b);
    lemma_be_order(be_value(a), be_value(b), a.len());
}

/// Splitting a big-endian form: high part then low part.
pub proof fn lemma_be_concat(a: nat, b: nat, n: nat, m: nat)
    requires
        b < pow256(m),
    ensures
        be_bytes(a * pow256(m) + b, n + m) == be_bytes(a, n) + be_bytes(b, m),
    decreases m,
{
    if m == 0 {
        assert(be_bytes(a, n) + be_bytes(b, m) =~= be_bytes(a, n));
    } else {
        let pm = pow256((m - 1) as nat);
        lemma_div256(b);
        lemma_be_concat(a, b / 256, n, (m - 1) as nat);
        let x = a * pow256(m) + b;
        assert(a * pow256(m) == 256 * (a * pm)) by (nonlinear_arith)
            requires
                pow256(m) == 256 * pm,
        ;
        lemma_fundamental_div_mod_converse(x as int, 256, (a * pm + b / 256) as int, (b % 256) as int);
        assert(be_bytes(x, n + m) =~= be_bytes(a, n) + be_bytes(b, m));
    }
}

/// Writes the eight big-endian bytes of `x` at `off`.
pub fn write_be_u64<const N: usize>(buf: &mut [u8; N], off: usize, x: u64)
    requires
        off + 8 <= N,
    ensures
        final(buf)@ == old(buf)@.subrange(0, off as int) + be_bytes(x as nat, 8) + old(
            buf,
        )@.subrange(off + 8, N as int),
{
    let mut v: u64 = x;
    let mut i: usize = 8;
    while i > 0
        invariant
            i <= 8,
            off + 8 <= N,
            buf@.len() == N,
            be_bytes(x as nat, 8) == be_bytes(v as nat, i as nat) + buf@.subrange(
                off + i,
                off + 8,
            ),
            buf@.subrange(0, off as int) == old(buf)@.subrange(0, off as int),
            buf@.subrange(off + 8, N as int) == old(buf)@.subrange(off + 8, N as int),
        decreases i,
    {
        let ghost before = buf@;
        let ghost vb = v as nat;
        buf[off + i - 1] = (v % 256) as u8;
        v = v / 256;
        i = i - 1;
        assert(buf@.subrange(off + i, off + 8) =~= seq![(vb % 256) as u8] + before.subrange(
            off + i + 1,
            off + 8,
        ));
        assert(be_bytes(vb, (i + 1) as nat) == be_bytes(v as nat, i as nat).push(
            (vb % 256) as u8,
        ));
        assert(be_bytes(v as nat, i as nat).push((vb % 256) as u8) + before.subrange(
            off + i + 1,
            off + 8,
        ) =~= be_bytes(v as nat, i as nat) + buf@.subrange(off + i, off + 8));
        assert(buf@.subrange(0, off as int) =~= before.subrange(0, off as int));
        assert(buf@.subrange(off + 8, N as int) =~= before.subrange(off + 8, N as int));
    }
    assert(be_bytes(v as nat, 0) =~= Seq::<u8>::empty());
    assert(buf@ =~= buf@.subrange(0, off as int) + buf@.subrange(off as int, off + 8)
        + buf@.subrange(off + 8, N as int));
    assert(be_bytes(x as nat, 8) =~= buf@.subrange(off as int, off + 8));
}

/// Reads the number whose eight big-endian bytes stand at `off`.
pub fn read_be_u64<const N: usize>(buf: &[u8; N], off: usize) -> (r: u64)
    requires
        off + 8 <= N,
    ensures
        r == be_value(buf@.subrange(off as int, off + 8)),
{
    let mut v: u64 = 0;
    let mut i: usize = 0;
    proof {
        lemma_pow256_values();
        assert(buf@.subrange(off as int, off as int) =~= Seq::<u8>::empty());
    }
    while i < 8
        invariant
            i <= 8,
            off + 8 <= N,
            buf@.len() == N,
            v == be_value(buf@.subrange(off as int, off + i)),
            pow256(8) == 0x1_0000_0000_0000_0000,
        decreases 8 - i,
    {
        proof {
            lemma_be_value_bound(buf@.subrange(off as int, off + i));
            lemma_pow256_mono(i as nat, 7);
            reveal_with_fuel(pow256, 8);
            assert(buf@.subrange(off as int, off + i + 1).drop_last() =~= buf@.subrange(
                off as int,
                off + i,
            ));
        }
        v = v * 256 + buf[off + i] as u64;
        i = i + 1;
    }
    v
}

} // verus!
