//! Symbol counts from the SysV and GNU hash tables.

use vstd::prelude::*;
use crate::bytes::{le_at, read_le_u32, read_le_u64};
use crate::elf::symbol::{Container, Context};
use crate::error::{OsoLoaderError, Rslt};
use crate::text::message_with_number;

verus! {

/// Machine number of the Digital Alpha, whose SysV hash table uses 8-byte words.
pub const EM_FAKE_ALPHA: u16 = 41;
/// Machine number of IBM S/390, whose SysV hash table uses 8-byte words.
pub const EM_S390: u16 = 22;

/// The little-endian `u32` at `b[off]`.
pub open spec fn word(b: Seq<u8>, off: int) -> nat {
    le_at(b, off, 4)
}

/// Size of a bloom filter word.
pub open spec fn bloom_word_size(ctx: Context) -> nat {
    if ctx.container == Container::Big { 8 } else { 4 }
}

/// Offset of the bucket array of the GNU hash table at `o`.
pub open spec fn buckets_start(b: Seq<u8>, o: int, ctx: Context) -> int {
    o + 16 + word(b, o + 8) * bloom_word_size(ctx)
}

/// The largest of the first `n` buckets starting at `start` (0 when `n` is 0).
pub open spec fn max_bucket(b: Seq<u8>, start: int, n: nat) -> nat
    decreases n,
{
    if n == 0 {
        0
    } else {
        let m = max_bucket(b, start, (n - 1) as nat);
        let c = word(b, start + 4 * (n - 1));
        if m < c { c } else { m }
    }
}

/// Offset of the chain word of the symbol with the largest bucket value.
pub open spec fn chain_start(b: Seq<u8>, o: int, ctx: Context) -> int {
    let bs = buckets_start(b, o, ctx);
    let bc = word(b, o);
    bs + 4 * bc + 4 * (max_bucket(b, bs, bc) - word(b, o + 4))
}

/// Chain word `j` after `start` is the first with its low bit set.
pub open spec fn chain_ends_at(b: Seq<u8>, start: int, j: int) -> bool {
    &&& 0 <= j
    &&& word(b, start + 4 * j) % 2 == 1
    &&& forall|k: int| 0 <= k < j ==> #[trigger] word(b, start + 4 * k) % 2 == 0
}

/// The GNU hash table at `o` names an empty bucket count, symbol offset or bloom size.
pub open spec fn gnu_hash_degenerate(b: Seq<u8>, o: int) -> bool {
    word(b, o) == 0 || word(b, o + 4) == 0 || word(b, o + 8) == 0
}

/// `gnu_hash_len` is defined on the table at `o`: its header, buckets and the
/// chain it walks lie within `b`, and the chain ends.
pub open spec fn gnu_hash_defined(b: Seq<u8>, o: int, ctx: Context) -> bool {
    &&& 0 <= o
    &&& o + 12 <= b.len()
    &&& !gnu_hash_degenerate(b, o) ==> {
        let bs = buckets_start(b, o, ctx);
        let bc = word(b, o);
        &&& bs + 4 * bc <= b.len()
        &&& max_bucket(b, bs, bc) >= word(b, o + 4) ==> exists|j: int|
            chain_ends_at(b, chain_start(b, o, ctx), j) && chain_start(b, o, ctx) + 4 * j + 4
                <= b.len() && max_bucket(b, bs, bc) + j + 1 <= usize::MAX
    }
}

/// A hash chain ends at one place only, so the symbol count that
/// `gnu_hash_len` reports through `chain_ends_at` is determined by the table.
pub proof fn lemma_chain_end_unique(b: Seq<u8>, start: int, j1: int, j2: int)
    requires
        chain_ends_at(b, start, j1),
        chain_ends_at(b, start, j2),
    ensures
        j1 == j2,
{
    if j1 < j2 {
        assert(word(b, start + 4 * j1) % 2 == 0);
    } else if j2 < j1 {
        assert(word(b, start + 4 * j2) % 2 == 0);
    }
}

/// Number of symbols covered by the GNU hash table at `offset`: one past the
/// last symbol of the chain of the largest bucket.
pub fn gnu_hash_len(binary: &Vec<u8>, offset: usize, context: &Context) -> (r: Rslt<usize>)
    requires
        gnu_hash_defined(binary@, offset as int, *context),
    ensures
        gnu_hash_degenerate(binary@, offset as int) ==> r matches Err(OsoLoaderError::EfiParse(_)),
        !gnu_hash_degenerate(binary@, offset as int) ==> {
            let bs = buckets_start(binary@, offset as int, *context);
            let m = max_bucket(binary@, bs, word(binary@, offset as int));
            if m < word(binary@, offset as int + 4) {
                r == Ok::<usize, OsoLoaderError>(0)
            } else {
                r matches Ok(n) && chain_ends_at(
                    binary@,
                    chain_start(binary@, offset as int, *context),
                    n - m - 1,
                )
            }
        },
{
    let len = binary.len();
    let mut cursor = offset;
    let o = offset;
    let buckets_count = read_le_u32(&mut cursor, binary.as_slice()) as usize;
    let min_chain = read_le_u32(&mut cursor, binary.as_slice()) as usize;
    let bloom_size = read_le_u32(&mut cursor, binary.as_slice()) as usize;
    if buckets_count == 0 || min_chain == 0 || bloom_size == 0 {
        return Err(
            OsoLoaderError::EfiParse(message_with_number("invalid gnu hash at ", o as u64)),
        );
    }
    let word_size: usize = if context.container == Container::Big {
        8
    } else {
        4
    };
    let buckets_offset = cursor + 4 + bloom_size * word_size;
    let ghost bs = buckets_start(binary@, o as int, *context);
    assert(buckets_offset == bs);
    let mut max_chain: usize = 0;
    let mut bucket: usize = 0;
    while bucket < buckets_count
        invariant
            bucket <= buckets_count,
            len == binary@.len(),
            buckets_offset == bs,
            bs + 4 * buckets_count <= binary@.len(),
            max_chain == max_bucket(binary@, bs, bucket as nat),
        decreases buckets_count - bucket,
    {
        let mut at = buckets_offset + bucket * 4;
        let chain = read_le_u32(&mut at, binary.as_slice()) as usize;
        if max_chain < chain {
            max_chain = chain;
        }
        bucket = bucket + 1;
    }
    if max_chain < min_chain {
        return Ok(0);
    }
    let ghost start = chain_start(binary@, o as int, *context);
    let ghost m = max_chain as int;
    let ghost jw = choose|j: int|
        chain_ends_at(binary@, start, j) && start + 4 * j + 4 <= binary@.len() && m + j + 1
            <= usize::MAX;
    let mut chain_offset = buckets_offset + buckets_count * 4 + (max_chain - min_chain) * 4;
    assert(chain_offset == start);
    let ghost mut j: int = 0;
    loop
        invariant
            0 <= j <= jw,
            o == offset,
            start == chain_start(binary@, o as int, *context),
            m >= word(binary@, o as int + 4),
            !gnu_hash_degenerate(binary@, o as int),
            m == max_bucket(binary@, bs, word(binary@, o as int)),
            bs == buckets_start(binary@, o as int, *context),
            m + jw + 1 <= usize::MAX,
            chain_ends_at(binary@, start, jw),
            start + 4 * jw + 4 <= binary@.len(),
            len == binary@.len(),
            chain_offset == start + 4 * j,
            max_chain == m + j,
            forall|k: int| 0 <= k < j ==> #[trigger] word(binary@, start + 4 * k) % 2 == 0,
        decreases jw - j,
    {
        let hash = read_le_u32(&mut chain_offset, binary.as_slice());
        assert(hash & 1 != 0 <==> hash % 2 == 1) by (bit_vector);
        proof {
            if j == jw {
                assert(hash % 2 == 1);
            }
        }
        max_chain = max_chain + 1;
        if hash & 1 != 0 {
            proof {
                if j < jw {
                    assert(word(binary@, start + 4 * j) % 2 == 0);
                }
            }
            assert(chain_ends_at(binary@, start, j));
            assert(max_chain - m - 1 == j);
            return Ok(max_chain);
        }
        proof {
            j = j + 1;
        }
    }
}

/// Number of symbols covered by the SysV hash table at `offset`: its chain count,
/// which is an 8-byte word on 64-bit Alpha and S/390 objects and a 4-byte word otherwise.
pub fn hash_len(binary: &Vec<u8>, offset: usize, machine: u16, context: &Context) -> (r: Rslt<usize>)
    requires
        ({
            let o = if offset + 4 <= usize::MAX { offset + 4 } else { usize::MAX as int };
            let n = if (machine == EM_FAKE_ALPHA || machine == EM_S390) && context.container
                == Container::Big { 8int } else { 4int };
            o + n <= binary@.len()
        }),
    ensures
        ({
            let o = if offset + 4 <= usize::MAX { offset + 4 } else { usize::MAX as int };
            let n = if (machine == EM_FAKE_ALPHA || machine == EM_S390) && context.container
                == Container::Big { 8int } else { 4int };
            r == Ok::<usize, OsoLoaderError>(le_at(binary@, o, n) as usize)
        }),
{
    let mut offset = offset.saturating_add(4);
    let nchain = if (machine == EM_FAKE_ALPHA || machine == EM_S390) && context.container
        == Container::Big {
        read_le_u64(&mut offset, binary.as_slice()) as usize
    } else {
        read_le_u32(&mut offset, binary.as_slice()) as usize
    };
    Ok(nchain)
}

} // verus!
