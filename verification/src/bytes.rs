//! Little-endian integer reads from byte buffers.

use vstd::prelude::*;

verus! {

/// `256^n`.
pub open spec fn pow256(n: nat) -> nat
    decreases n,
{
    if n == 0 {
        1
    } else {
        256 * pow256((n - 1) as nat)
    }
}

/// The unsigned integer whose little-endian encoding is `s`.
pub open spec fn le_value(s: Seq<u8>) -> nat
    decreases s.len(),
{
    if s.len() == 0 {
        0
    } else {
        s[0] as nat + 256 * le_value(s.drop_first())
    }
}

/// The little-endian integer stored in `b[off .. off + n]`.
pub open spec fn le_at(b: Seq<u8>, off: int, n: int) -> nat {
    le_value(b.subrange(off, off + n))
}

pub proof fn lemma_le_value_bound(s: Seq<u8>)
    ensures
        le_value(s) < pow256(s.len()),
    decreases s.len(),
{
    if s.len() > 0 {
        lemma_le_value_bound(s.drop_first());
    }
}

proof fn lemma_pow256_values()
    ensures
        pow256(1) == 0x100,
        pow256(2) == 0x1_0000,
        pow256(4) == 0x1_0000_0000,
        pow256(8) == 0x1_0000_0000_0000_0000,
{
    reveal_with_fuel(pow256, 9);
}

/// Reads the `n`-byte little-endian integer at `b[off..]`.
pub fn read_le(b: &[u8], off: usize, n: usize) -> (v: u64)
    requires
        n <= 8,
        off + n <= b@.len(),
    ensures
        v as nat == le_at(b@, off as int, n as int),
{
    let len = b.len();
    let mut v: u64 = 0;
    let mut k: usize = n;
    proof {
        lemma_pow256_values();
    }
    while k > 0
        invariant
            n <= 8,
            off + n <= b@.len(),
            len == b@.len(),
            k <= n,
            v as nat == le_value(b@.subrange(off + k, off + n)),
            (v as nat) < pow256((n - k) as nat),
            pow256(8) == 0x1_0000_0000_0000_0000,
        decreases k,
    {
        let ghost old_k = k;
        k = k - 1;
        let ghost s = b@.subrange(off + k, off + n);
        assert(s.drop_first() =~= b@.subrange(off + old_k, off + n));
        assert(pow256((n - k) as nat) == 256 * pow256((n - old_k) as nat));
        proof {
            lemma_pow_mono((n - k) as nat, 8);
        }
        v = (b[off + k] as u64) + 256 * v;
    }
    v
}

pub proof fn lemma_pow_mono(a: nat, b: nat)
    requires
        a <= b,
    ensures
        pow256(a) <= pow256(b),
    decreases b,
{
    if a < b {
        lemma_pow_mono(a, (b - 1) as nat);
    }
}

/// Reads a little-endian `u16` at `*offset` and advances the offset past it.
pub fn read_le_u16(offset: &mut usize, b: &[u8]) -> (v: u16)
    requires
        *old(offset) + 2 <= b@.len(),
    ensures
        v as nat == le_at(b@, *old(offset) as int, 2),
        *final(offset) == *old(offset) + 2,
{
    let off = *offset;
    let _len = b.len();
    let r = read_le(b, off, 2);
    proof {
        lemma_le_value_bound(b@.subrange(off as int, off + 2));
        lemma_pow256_values();
    }
    *offset = off + 2;
    r as u16
}

/// Reads a little-endian `u32` at `*offset` and advances the offset past it.
pub fn read_le_u32(offset: &mut usize, b: &[u8]) -> (v: u32)
    requires
        *old(offset) + 4 <= b@.len(),
    ensures
        v as nat == le_at(b@, *old(offset) as int, 4),
        *final(offset) == *old(offset) + 4,
{
    let off = *offset;
    let _len = b.len();
    let r = read_le(b, off, 4);
    proof {
        lemma_le_value_bound(b@.subrange(off as int, off + 4));
        lemma_pow256_values();
    }
    *offset = off + 4;
    r as u32
}

/// Reads a little-endian `u64` at `*offset` and advances the offset past it.
pub fn read_le_u64(offset: &mut usize, b: &[u8]) -> (v: u64)
    requires
        *old(offset) + 8 <= b@.len(),
    ensures
        v as nat == le_at(b@, *old(offset) as int, 8),
        *final(offset) == *old(offset) + 8,
{
    let off = *offset;
    let _len = b.len();
    let r = read_le(b, off, 8);
    *offset = off + 8;
    r
}

} // verus!
