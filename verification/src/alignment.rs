//! Sizes and addresses moved up to multiples, and numbers packed into words.

use crate::math::{F32Bits, Mat4};
use vstd::arithmetic::power2::{
    lemma2_to64, lemma_pow2_pos, lemma_pow2_strictly_increases, pow2,
};
use vstd::bits::{lemma_u32_low_bits_mask_is_mod, low_bits_mask};
use vstd::prelude::*;

verus! {

/// The device wants scratch memory to start at multiples of this.
pub const SCRATCH_ALIGNMENT: u64 = 256;

/// The lowest bits of `size + align - 1` cleared, as many as `align - 1` has.
pub open spec fn aligned(size: u32, align: u32) -> u32 {
    ((size + align - 1) as u32) & !((align - 1) as u32)
}

/// Moves a size up to a multiple of `align`, for an `align` that is a power of two.
pub fn align_up(size: u32, align: u32) -> (out: u32)
    requires
        align > 0,
        size + align - 1 <= u32::MAX,
    ensures
        out == aligned(size, align),
{
    (size + (align - 1)) & !(align - 1)
}

/// Clearing bits takes off what they are worth.
proof fn lemma_clear_bits(x: u32, mask: u32)
    ensures
        x & !mask == x - (x & mask),
        x & mask <= x,
{
    assert(x & mask <= x) by (bit_vector);
    assert(x & !mask == x - (x & mask)) by (bit_vector);
}

/// For a power of two, `aligned` is the least multiple of it that is not below the size.
pub proof fn law_aligned_is_the_next_multiple(size: u32, exponent: nat)
    requires
        exponent < 32,
        size + pow2(exponent) - 1 <= u32::MAX,
    ensures
        aligned(size, pow2(exponent) as u32) as nat % pow2(exponent) == 0,
        size <= aligned(size, pow2(exponent) as u32) < size + pow2(exponent),
{
    lemma_pow2_pos(exponent);
    lemma_pow2_strictly_increases(exponent, 32);
    lemma2_to64();
    let align = pow2(exponent) as u32;
    let x = (size + align - 1) as u32;
    let mask = (align - 1) as u32;
    assert(low_bits_mask(exponent) == mask);
    lemma_u32_low_bits_mask_is_mod(x, exponent);
    lemma_clear_bits(x, mask);
    let r = x as int % align as int;
    assert(aligned(size, align) == x - r);
    assert((x - r) % (align as int) == 0) by (nonlinear_arith)
        requires
            r == x as int % align as int,
            align > 0,
    ;
}

/// Where scratch memory starts within a buffer at `raw`: the next multiple of the alignment.
pub open spec fn scratch_start(raw: u64) -> int {
    ((raw + 255) / 256) * 256
}

/// Moves an address up to where scratch memory may start.
pub fn scratch_address(raw: u64) -> (out: u64)
    requires
        raw + SCRATCH_ALIGNMENT - 1 <= u64::MAX,
    ensures
        out == scratch_start(raw),
{
    let x: u64 = raw + (SCRATCH_ALIGNMENT - 1);
    let out: u64 = x & !(SCRATCH_ALIGNMENT - 1);
    proof {
        assert(x & !((256u64 - 1) as u64) == (x / 256) * 256) by (bit_vector);
    }
    out
}

/// The size of a buffer that has room for scratch memory wherever it starts.
pub fn scratch_buffer_size(build: u64, update: u64) -> (out: u64)
    requires
        build + SCRATCH_ALIGNMENT <= u64::MAX,
        update + SCRATCH_ALIGNMENT <= u64::MAX,
    ensures
        out == if build >= update {
            build + SCRATCH_ALIGNMENT
        } else {
            update + SCRATCH_ALIGNMENT
        },
{
    let needed: u64 = if build >= update {
        build
    } else {
        update
    };
    needed + SCRATCH_ALIGNMENT
}

/// Scratch memory of either kind lies within its buffer, wherever the buffer is.
pub proof fn law_scratch_memory_fits(raw: u64, build: u64, update: u64, size: u64)
    requires
        build + SCRATCH_ALIGNMENT <= u64::MAX,
        update + SCRATCH_ALIGNMENT <= u64::MAX,
        size == if build >= update {
            build + SCRATCH_ALIGNMENT
        } else {
            update + SCRATCH_ALIGNMENT
        },
    ensures
        scratch_start(raw) % SCRATCH_ALIGNMENT as int == 0,
        raw <= scratch_start(raw),
        scratch_start(raw) + build <= raw + size,
        scratch_start(raw) + update <= raw + size,
{
}

/// The number of an instance in the lower 24 bits and its mask above them.
pub fn pack_custom_index_and_mask(custom_index: u32, mask: u8) -> (out: u32)
    ensures
        out as int == custom_index as int % 0x100_0000 + mask as int * 0x100_0000,
{
    let out: u32 = (custom_index & 0x00FF_FFFF) | ((mask as u32) << 24);
    proof {
        let m = mask as u32;
        assert(((custom_index & 0x00FF_FFFF) | (m << 24)) == custom_index % 0x100_0000 + m
            * 0x100_0000) by (bit_vector)
            requires
                m <= 0xFF,
        ;
    }
    out
}

/// The place of an instance's shaders in the lower 24 bits and the lowest eight bits of its flags
/// above them.
pub fn pack_sbt_offset_and_flags(sbt_offset: u32, flags: u32) -> (out: u32)
    ensures
        out as int == sbt_offset as int % 0x100_0000 + (flags as int % 0x100) * 0x100_0000,
{
    let out: u32 = (sbt_offset & 0x00FF_FFFF) | (flags << 24);
    proof {
        let low = flags % 0x100;
        assert(((sbt_offset & 0x00FF_FFFF) | (flags << 24)) == sbt_offset % 0x100_0000 + low
            * 0x100_0000) by (bit_vector)
            requires
                low == flags % 0x100,
        ;
    }
    out
}

/// Two words are the same only if their numbers and masks are, as far as they are held.
pub proof fn law_packed_words_are_told_apart(index1: u32, mask1: u8, index2: u32, mask2: u8)
    requires
        index1 < 0x100_0000,
        index2 < 0x100_0000,
        index1 as int % 0x100_0000 + mask1 as int * 0x100_0000 == index2 as int % 0x100_0000
            + mask2 as int * 0x100_0000,
    ensures
        index1 == index2,
        mask1 == mask2,
{
}

/// The upper three rows of a matrix, one after the other, as the device takes a transform.
pub fn mat4_to_vk_transform(m: &Mat4) -> (out: [[F32Bits; 4]; 3])
    ensures
        out@[0]@ == seq![m.x.x, m.y.x, m.z.x, m.w.x],
        out@[1]@ == seq![m.x.y, m.y.y, m.z.y, m.w.y],
        out@[2]@ == seq![m.x.z, m.y.z, m.z.z, m.w.z],
{
    let first: [F32Bits; 4] = [m.x.x, m.y.x, m.z.x, m.w.x];
    let second: [F32Bits; 4] = [m.x.y, m.y.y, m.z.y, m.w.y];
    let third: [F32Bits; 4] = [m.x.z, m.y.z, m.z.z, m.w.z];
    proof {
        assert(first@ =~= seq![m.x.x, m.y.x, m.z.x, m.w.x]);
        assert(second@ =~= seq![m.x.y, m.y.y, m.z.y, m.w.y]);
        assert(third@ =~= seq![m.x.z, m.y.z, m.z.z, m.w.z]);
    }
    [first, second, third]
}

/// Scratch memory starts at the first multiple of 256 that is not below its buffer.
pub proof fn law_scratch_memory_starts_as_early_as_it_may(raw: u64)
    ensures
        SCRATCH_ALIGNMENT == 256,
        scratch_start(raw) % 256 == 0,
        raw <= scratch_start(raw) < raw + 256,
{
}

} // verus!
