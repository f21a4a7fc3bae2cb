//! Packed pointer/length word convention.
//!
//! The externally callable entry point may return only one machine word,
//! yet must describe a variable-length output buffer. The convention packs
//! the buffer's address into the low 32 bits and its length into the high
//! 32 bits of a 64-bit word; it is defined only for addresses and lengths
//! that individually fit in 32 bits.

use vstd::prelude::*;

verus! {

/// One side of the 32-bit split: 2^32.
pub open spec fn word_base() -> nat {
    0x1_0000_0000
}

/// Packs a buffer address and length into a single 64-bit word: address
/// in the low 32 bits, length in the high 32 bits.
pub fn pack(addr: u64, len: u64) -> (r: u64)
    requires
        addr < word_base(),
        len < word_base(),
    ensures
        r == addr + len * word_base(),
{
    proof {
        assert(addr + (len << 32) == addr + len * 0x1_0000_0000 && addr + len * 0x1_0000_0000
            <= u64::MAX) by (bit_vector)
            requires
                addr < 0x1_0000_0000u64 && len < 0x1_0000_0000u64,
        ;
    }
    addr + (len << 32)
}

/// Splits a packed word back into its (address, length) pair.
pub fn unpack(word: u64) -> (r: (u64, u64))
    ensures
        r.0 == word % (word_base() as u64),
        r.1 == word / (word_base() as u64),
{
    proof {
        assert((word & 0xffff_ffff) == word % 0x1_0000_0000u64 && (word >> 32) == word
            / 0x1_0000_0000u64) by (bit_vector);
    }
    (word & 0xffff_ffff, word >> 32)
}

/// Law: for an address and a length that each fit in 32 bits, unpacking
/// the packed word recovers exactly the pair that was packed.
pub proof fn lemma_pack_unpack(addr: u64, len: u64)
    requires
        addr < word_base(),
        len < word_base(),
    ensures
        (addr + len * word_base()) % (word_base() as int) == addr,
        (addr + len * word_base()) / (word_base() as int) == len,
{
    assert((addr + len * 0x1_0000_0000) % 0x1_0000_0000 == addr && (addr + len * 0x1_0000_0000)
        / 0x1_0000_0000 == len) by (nonlinear_arith)
        requires
            addr < 0x1_0000_0000u64 && len < 0x1_0000_0000u64,
    ;
}

} // verus!
