//! Source spans: which file, and which byte range of it, a term came from.

use vstd::prelude::*;

verus! {

/// Width in bits of each of the two offset fields of a packed span.
pub const OFFSET_BITS: u64 = 20;

/// Largest offset that a packed span keeps without loss.
pub const OFFSET_MASK: u64 = 0xFFFFF;

/// A source span: a file identifier and a half-open range of offsets.
#[derive(Clone, Copy, Debug, PartialEq, Eq)]
pub struct Src {
    pub ini: u64,
    pub end: u64,
    pub fid: u64,
}

/// The 64-bit word that stands for a span: the file identifier above bit 40,
/// then the start offset in 20 bits, then the end offset in 20 bits. A field
/// that is too wide is truncated: an offset keeps its low 20 bits, the file
/// identifier its low 24, and no field reaches into its neighbour.
pub open spec fn pack(fid: u64, ini: u64, end: u64) -> u64 {
    (fid << 40) | ((ini & 0xFFFFF) << 20) | (end & 0xFFFFF)
}

/// The file identifier held by a packed span.
pub open spec fn unpack_fid(word: u64) -> u64 {
    word >> 40
}

/// The start offset held by a packed span.
pub open spec fn unpack_ini(word: u64) -> u64 {
    (word >> 20) & 0xFFFFF
}

/// The end offset held by a packed span.
pub open spec fn unpack_end(word: u64) -> u64 {
    word & 0xFFFFF
}

impl Src {
    /// True when the span survives packing: both offsets fit in 20 bits and
    /// the file identifier in the remaining 24.
    pub open spec fn packable(&self) -> bool {
        self.fid < 0x100_0000 && self.ini <= OFFSET_MASK && self.end <= OFFSET_MASK
    }

    /// Builds a span from a file identifier and its two offsets.
    pub fn new(fid: u64, ini: u64, end: u64) -> (src: Self)
        ensures
            src.fid == fid,
            src.ini == ini,
            src.end == end,
    {
        Src { ini, end, fid }
    }

    /// Packs the span into one word.
    pub fn to_u64(&self) -> (word: u64)
        ensures
            word == pack(self.fid, self.ini, self.end),
    {
        (self.fid << 40) | ((self.ini & 0xFFFFF) << 20) | (self.end & 0xFFFFF)
    }

    /// Reads a span back from a packed word.
    pub fn from_u64(src: u64) -> (span: Self)
        ensures
            span.fid == unpack_fid(src),
            span.ini == unpack_ini(src),
            span.end == unpack_end(src),
            span.packable(),
    {
        let fid: u64 = src >> 40;
        let ini: u64 = (src >> 20) & 0xFFFFF;
        let end: u64 = src & 0xFFFFF;
        assert((src >> 40) < 0x100_0000) by (bit_vector);
        assert(((src >> 20) & 0xFFFFF) <= 0xFFFFF) by (bit_vector);
        assert((src & 0xFFFFF) <= 0xFFFFF) by (bit_vector);
        Src { ini, end, fid }
    }
}

/// Packing then unpacking gives back the three fields, provided the offsets
/// fit in 20 bits and the file identifier in 24.
pub proof fn lemma_pack_round_trip(fid: u64, ini: u64, end: u64)
    requires
        fid < 0x100_0000,
        ini <= 0xFFFFF,
        end <= 0xFFFFF,
    ensures
        unpack_fid(pack(fid, ini, end)) == fid,
        unpack_ini(pack(fid, ini, end)) == ini,
        unpack_end(pack(fid, ini, end)) == end,
{
    assert((((fid << 40) | ((ini & 0xFFFFF) << 20) | (end & 0xFFFFF)) >> 40) == fid) by (bit_vector)
        requires
            fid < 0x100_0000,
            ini <= 0xFFFFF,
            end <= 0xFFFFF,
    ;
    assert(((((fid << 40) | ((ini & 0xFFFFF) << 20) | (end & 0xFFFFF)) >> 20) & 0xFFFFF) == ini)
        by (bit_vector)
        requires
            fid < 0x100_0000,
            ini <= 0xFFFFF,
            end <= 0xFFFFF,
    ;
    assert((((fid << 40) | ((ini & 0xFFFFF) << 20) | (end & 0xFFFFF)) & 0xFFFFF) == end)
        by (bit_vector)
        requires
            fid < 0x100_0000,
            ini <= 0xFFFFF,
            end <= 0xFFFFF,
    ;
}

/// Unpacking then packing gives back the word: every 64-bit word is the
/// packed form of exactly the span read from it.
pub proof fn lemma_unpack_round_trip(word: u64)
    ensures
        pack(unpack_fid(word), unpack_ini(word), unpack_end(word)) == word,
{
    assert((((word >> 40) << 40) | ((((word >> 20) & 0xFFFFF) & 0xFFFFF) << 20) | ((word & 0xFFFFF)
        & 0xFFFFF)) == word) by (bit_vector);
}

/// Packing truncates and nothing else: whatever the three fields are,
/// unpacking gives the low 24 bits of the file identifier and the low 20
/// bits of each offset.
pub proof fn lemma_pack_truncates(fid: u64, ini: u64, end: u64)
    ensures
        unpack_fid(pack(fid, ini, end)) == fid & 0xFF_FFFF,
        unpack_ini(pack(fid, ini, end)) == ini & 0xFFFFF,
        unpack_end(pack(fid, ini, end)) == end & 0xFFFFF,
{
    assert((((fid << 40) | ((ini & 0xFFFFF) << 20) | (end & 0xFFFFF)) >> 40) == fid & 0xFF_FFFF)
        by (bit_vector);
    assert(((((fid << 40) | ((ini & 0xFFFFF) << 20) | (end & 0xFFFFF)) >> 20) & 0xFFFFF) == ini
        & 0xFFFFF) by (bit_vector);
    assert((((fid << 40) | ((ini & 0xFFFFF) << 20) | (end & 0xFFFFF)) & 0xFFFFF) == end & 0xFFFFF)
        by (bit_vector);
}

} // verus!
