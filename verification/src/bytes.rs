//! Big-endian integer encodings and small byte-sequence utilities shared by
//! the SCT list parser, the SCT record codec, and the signed-struct builder.

use vstd::prelude::*;
use vstd::arithmetic::div_mod::*;

verus! {

/// Big-endian integer value of a byte sequence.
pub open spec fn be_val(b: Seq<u8>) -> nat
    decreases b.len(),
{
    if b.len() == 0 {
        0
    } else {
        (be_val(b.drop_last()) * 256 + b.last()) as nat
    }
}

/// The `len`-byte big-endian encoding of `n` (reduced mod 256^len).
pub open spec fn be_bytes(n: nat, len: nat) -> Seq<u8>
    decreases len,
{
    if len == 0 {
        Seq::empty()
    } else {
        be_bytes(n / 256, (len - 1) as nat).push((n % 256) as u8)
    }
}

/// 256^k, the number of values a k-byte big-endian field can hold.
pub open spec fn pow256(k: nat) -> nat
    decreases k,
{
    if k == 0 {
        1
    } else {
        256 * pow256((k - 1) as nat)
    }
}

pub proof fn lemma_be_bytes_len(n: nat, len: nat)
    ensures
        be_bytes(n, len).len() == len,
    decreases len,
{
    if len > 0 {
        lemma_be_bytes_len(n / 256, (len - 1) as nat);
    }
}

pub proof fn lemma_be_val_bound(b: Seq<u8>)
    ensures
        be_val(b) < pow256(b.len()),
    decreases b.len(),
{
    if b.len() > 0 {
        lemma_be_val_bound(b.drop_last());
    }
}

pub proof fn lemma_pow256_monotonic(i: nat, j: nat)
    requires
        i <= j,
    ensures
        pow256(i) <= pow256(j),
    decreases j,
{
    if i < j {
        lemma_pow256_monotonic(i, (j - 1) as nat);
    }
}

/// Encoding then decoding is the identity on values that fit the field.
pub proof fn lemma_be_bytes_val(n: nat, len: nat)
    requires
        n < pow256(len),
    ensures
        be_val(be_bytes(n, len)) == n,
    decreases len,
{
    if len > 0 {
        let q = n / 256;
        let r = n % 256;
        lemma_fundamental_div_mod(n as int, 256);
        assert(q < pow256((len - 1) as nat)) by {
            if q >= pow256((len - 1) as nat) {
                assert(256 * q >= 256 * pow256((len - 1) as nat));
            }
        }
        lemma_be_bytes_val(q, (len - 1) as nat);
        lemma_be_bytes_len(q, (len - 1) as nat);
        let enc = be_bytes(n, len);
        assert(enc.drop_last() =~= be_bytes(q, (len - 1) as nat));
    }
}

/// Decoding then re-encoding reproduces the original bytes.
pub proof fn lemma_be_val_bytes(b: Seq<u8>)
    ensures
        be_bytes(be_val(b), b.len()) == b,
    decreases b.len(),
{
    if b.len() > 0 {
        let d = b.drop_last();
        let n = be_val(b);
        lemma_fundamental_div_mod_converse(n as int, 256, be_val(d) as int, b.last() as int);
        lemma_be_val_bytes(d);
        assert(be_bytes(n, b.len()) =~= b);
    }
}

/// Reads `len` bytes starting at `at` as a big-endian integer.
pub fn read_be(b: &[u8], at: usize, len: usize) -> (r: u64)
    requires
        len <= 8,
        at + len <= b@.len(),
    ensures
        r as nat == be_val(b@.subrange(at as int, at + len)),
{
    let n = b.len();
    let mut acc: u64 = 0;
    let mut i: usize = 0;
    while i < len
        invariant
            i <= len,
            len <= 8,
            at + len <= n,
            n == b@.len(),
            acc as nat == be_val(b@.subrange(at as int, at + i)),
            (acc as nat) < pow256(i as nat),
        decreases len - i,
    {
        proof {
            lemma_pow256_monotonic(i as nat, 7);
            reveal_with_fuel(pow256, 9);
            assert(pow256(7) == 0x100000000000000);
            assert(b@.subrange(at as int, at + i + 1).drop_last() =~= b@.subrange(
                at as int,
                at + i,
            ));
        }
        acc = acc * 256 + (b[at + i] as u64);
        i = i + 1;
    }
    acc
}

/// Reads the two-byte big-endian length prefix starting at `at`.
pub fn read_be16(b: &[u8], at: usize) -> (r: usize)
    requires
        at + 2 <= b@.len(),
    ensures
        r as nat == be_val(b@.subrange(at as int, at + 2)),
        r < 0x10000,
{
    proof {
        let s2 = b@.subrange(at as int, at + 2);
        let s1 = b@.subrange(at as int, at + 1);
        let s0 = b@.subrange(at as int, at as int);
        assert(s2.drop_last() =~= s1);
        assert(s1.drop_last() =~= s0);
        assert(be_val(s0) == 0);
        assert(be_val(s1) == b@[at as int]);
        assert(be_val(s2) == b@[at as int] * 256 + b@[at + 1]);
    }
    let hi = b[at] as usize;
    let lo = b[at + 1] as usize;
    hi * 256 + lo
}

/// Appends the `len`-byte big-endian encoding of `n`.
pub fn push_be(out: &mut Vec<u8>, n: u64, len: usize)
    requires
        len <= 8,
    ensures
        final(out)@ == old(out)@ + be_bytes(n as nat, len as nat),
    decreases len,
{
    if len == 0 {
        assert(final(out)@ =~= old(out)@ + be_bytes(n as nat, 0));
    } else {
        push_be(out, n / 256, len - 1);
        out.push((n % 256) as u8);
        assert(final(out)@ =~= old(out)@ + be_bytes(n as nat, len as nat));
    }
}

/// Appends a copy of `b`.
pub fn push_bytes(out: &mut Vec<u8>, b: &[u8])
    ensures
        final(out)@ == old(out)@ + b@,
{
    let mut i: usize = 0;
    while i < b.len()
        invariant
            i <= b@.len(),
            out@ == old(out)@ + b@.take(i as int),
        decreases b@.len() - i,
    {
        out.push(b[i]);
        proof {
            assert(old(out)@ + b@.take(i + 1) =~= (old(out)@ + b@.take(i as int)).push(
                b@[i as int],
            ));
        }
        i = i + 1;
    }
    proof {
        assert(b@.take(b@.len() as int) =~= b@);
    }
}

/// Byte-for-byte equality of two slices.
pub fn bytes_eq(a: &[u8], b: &[u8]) -> (r: bool)
    ensures
        r == (a@ == b@),
{
    if a.len() != b.len() {
        return false;
    }
    let mut i: usize = 0;
    while i < a.len()
        invariant
            i <= a@.len(),
            a@.len() == b@.len(),
            forall|k: int| 0 <= k < i ==> a@[k] == b@[k],
        decreases a@.len() - i,
    {
        if a[i] != b[i] {
            return false;
        }
        i = i + 1;
    }
    proof {
        assert(a@ =~= b@);
    }
    true
}

} // verus!
