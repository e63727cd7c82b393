//! Sizes that the LZ4 block format fixes.

use vstd::prelude::*;

verus! {

/// The longest input that one LZ4 block can hold.
pub const LZ4_MAX_INPUT_SIZE: usize = 0x7E00_0000;

/// The largest size that liblz4's block functions can be given: sizes reach
/// them as C integers of 32 bits.
pub const MAX_INT_SIZE: usize = 0x7FFF_FFFF;

/// The bytes that one LZ4 encoder stream occupies: a hash table of 16 KiB and
/// a tail of 32 bytes.
pub const LZ4_STREAM_SIZE: usize = 16416;

/// The most bytes that a block of `n` input bytes can take: an incompressible
/// input costs one extra byte in 255, and a margin of 16.
///
/// 0 stands for an input that no block can hold.
pub open spec fn block_bound(n: nat) -> nat {
    if n <= LZ4_MAX_INPUT_SIZE {
        n + n / 255 + 16
    } else {
        0
    }
}

/// `lzzzz::lz4::max_compressed_size`, on the sizes that one block can hold:
/// `n + n / 255 + 16`.
///
/// Beyond those sizes the function's own multiplication and addition may
/// overflow, so they are left out.
pub assume_specification[ lzzzz::lz4::max_compressed_size ](original_size: usize) -> (bound: usize)
    requires
        original_size <= LZ4_MAX_INPUT_SIZE,
    ensures
        bound == block_bound(original_size as nat),
;

/// The worst-case size of a block that holds `size` bytes of input, or 0 when
/// no block can hold them.
pub fn compress_bound(size: usize) -> (bound: usize)
    ensures
        bound == block_bound(size as nat),
{
    if size <= LZ4_MAX_INPUT_SIZE {
        lzzzz::lz4::max_compressed_size(size)
    } else {
        0
    }
}

/// The bytes of encoder state that a codec with a dictionary accounts for.
pub fn block_stream_size() -> (size: usize)
    ensures
        size == LZ4_STREAM_SIZE,
{
    LZ4_STREAM_SIZE
}

/// The worst case leaves room for the input and more, and grows with it.
pub proof fn law_block_bound_grows(n: nat, m: nat)
    requires
        n <= m <= LZ4_MAX_INPUT_SIZE,
    ensures
        n + 16 <= block_bound(n) <= block_bound(m) <= MAX_INT_SIZE,
{
}

} // verus!
