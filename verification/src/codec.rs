//! Little-endian byte encoding of unsigned values.
//!
//! Syscalls copy fixed-layout records into user memory byte by byte; these
//! are the helpers that lay an unsigned value out in little-endian order
//! and read one back.

use vstd::prelude::*;
use vstd::arithmetic::div_mod::lemma_div_denominator;

verus! {

/// `256^n`.
pub open spec fn pow256(n: nat) -> nat
    decreases n,
{
    if n == 0 {
        1
    } else {
        256 * pow256((n - 1) as nat)
    }
}

/// Byte `i` of the little-endian encoding of `v` in `n` bytes.
pub open spec fn le_bytes(v: nat, n: nat) -> Seq<u8> {
    Seq::new(n, |i: int| ((v / pow256(i as nat)) % 256) as u8)
}

/// The value a little-endian byte string denotes.
pub open spec fn le_val(s: Seq<u8>) -> nat
    decreases s.len(),
{
    if s.len() == 0 {
        0
    } else {
        s[0] as nat + 256 * le_val(s.subrange(1, s.len() as int))
    }
}

/// `256^n` is positive.
pub proof fn lemma_pow256_pos(n: nat)
    ensures
        pow256(n) >= 1,
    decreases n,
{
    if n > 0 {
        lemma_pow256_pos((n - 1) as nat);
    }
}

/// `256^n` grows with `n`.
pub proof fn lemma_pow256_increases(a: nat, b: nat)
    requires
        a <= b,
    ensures
        pow256(a) <= pow256(b),
    decreases b,
{
    if a < b {
        lemma_pow256_increases(a, (b - 1) as nat);
        lemma_pow256_pos((b - 1) as nat);
    }
}

/// A string of `n` bytes denotes a value below `256^n`.
pub proof fn lemma_le_val_bound(s: Seq<u8>)
    ensures
        le_val(s) < pow256(s.len()),
    decreases s.len(),
{
    if s.len() == 0 {
    } else {
        lemma_le_val_bound(s.subrange(1, s.len() as int));
    }
}

/// Lays `v` out in `n` little-endian bytes; bytes beyond the value's
/// magnitude are zero, and a value too large for `n` bytes loses its high
/// part, exactly as the specification `le_bytes` says.
#[verifier::loop_isolation(false)]
pub fn usize_to_le_bytes(v: usize, n: usize) -> (r: Vec<u8>)
    ensures
        r@ == le_bytes(v as nat, n as nat),
{
    proof {
        assert(pow256(0) == 1);
        assert(v as nat / 1 == v as nat);
    }
    let mut out: Vec<u8> = Vec::new();
    let mut x: usize = v;
    let mut j: usize = 0;
    while j < n
        invariant
            j <= n,
            out@.len() == j,
            x as nat == v as nat / pow256(j as nat),
            forall|k: int|
                0 <= k < j ==> out@[k] == ((v as nat / pow256(k as nat)) % 256) as u8,
        decreases n - j,
    {
        out.push((x % 256) as u8);
        proof {
            lemma_pow256_pos(j as nat);
            lemma_div_denominator(v as int, pow256(j as nat) as int, 256);
            assert(pow256(j as nat) as int * 256 == pow256((j + 1) as nat)) by {
                assert(pow256((j + 1) as nat) == 256 * pow256(j as nat));
            }
        }
        x = x / 256;
        j = j + 1;
    }
    proof {
        assert(out@ =~= le_bytes(v as nat, n as nat));
    }
    out
}

/// Reads back a value from at most eight little-endian bytes.
#[verifier::loop_isolation(false)]
pub fn le_bytes_to_u64(bytes: &Vec<u8>) -> (r: u64)
    requires
        bytes@.len() <= 8,
    ensures
        r as nat == le_val(bytes@),
{
    proof {
        assert(pow256(0) == 1);
        assert(pow256(1) == 256);
        assert(pow256(2) == 0x1_0000);
        assert(pow256(3) == 0x100_0000);
        assert(pow256(4) == 0x1_0000_0000);
        assert(pow256(5) == 0x100_0000_0000);
        assert(pow256(6) == 0x1_0000_0000_0000);
        assert(pow256(7) == 0x100_0000_0000_0000);
        assert(pow256(8) == 0x1_0000_0000_0000_0000);
    }
    let n = bytes.len();
    let mut acc: u64 = 0;
    let mut j: usize = n;
    while j > 0
        invariant
            j <= n,
            n == bytes@.len(),
            n <= 8,
            acc as nat == le_val(bytes@.subrange(j as int, n as int)),
            (acc as nat) < pow256((n - j) as nat),
        decreases j,
    {
        j = j - 1;
        proof {
            let tail = bytes@.subrange(j as int, n as int);
            assert(tail[0] == bytes@[j as int]);
            assert(tail.subrange(1, tail.len() as int) =~= bytes@.subrange(
                j as int + 1,
                n as int,
            ));
            lemma_le_val_bound(bytes@.subrange(j as int + 1, n as int));
            lemma_pow256_increases((n - j) as nat, 8);
            assert(pow256((n - j) as nat) == 256 * pow256((n - j - 1) as nat));
            assert((acc as nat) < pow256((n - j - 1) as nat));
            assert(acc as nat * 256 + 255 < pow256((n - j) as nat));
        }
        acc = acc * 256 + (bytes[j] as u64);
    }
    proof {
        assert(bytes@.subrange(0, n as int) =~= bytes@);
    }
    acc
}

} // verus!
