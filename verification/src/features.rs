//! A fixed-width bitset of well-known ISA extensions.

use vstd::prelude::*;

verus! {

/// A set of CPU features, one bit per extension. The x86 extensions and
/// the Arm ones use distinct bits; AES, SHA and CRC32 acceleration share
/// one flag each across architectures.
#[derive(Debug, Clone, Copy, PartialEq, Eq, Hash, Structural)]
pub struct CpuFeatures {
    bits: u32,
}

impl CpuFeatures {
    /// MMX support.
    pub const MMX: u32 = 0x00000001;

    /// SSE support.
    pub const SSE: u32 = 0x00000002;

    /// SSE2 support.
    pub const SSE2: u32 = 0x00000004;

    /// SSE3 support.
    pub const SSE3: u32 = 0x00000008;

    /// SSSE3 support.
    pub const SSSE3: u32 = 0x00000010;

    /// SSE4.1 support.
    pub const SSE4_1: u32 = 0x00000020;

    /// SSE4.2 support.
    pub const SSE4_2: u32 = 0x00000040;

    /// FMA3 support.
    pub const FMA3: u32 = 0x00000080;

    /// AVX support.
    pub const AVX: u32 = 0x00000100;

    /// AVX2 support.
    pub const AVX2: u32 = 0x00000200;

    /// AVX-512 Foundation support.
    pub const AVX512F: u32 = 0x00000400;

    /// AVX-512 Byte and Word support.
    pub const AVX512BW: u32 = 0x00000800;

    /// AVX-512 Conflict Detection support.
    pub const AVX512CD: u32 = 0x00001000;

    /// AVX-512 Doubleword and Quadword support.
    pub const AVX512DQ: u32 = 0x00002000;

    /// AVX-512 Vector Length support.
    pub const AVX512VL: u32 = 0x00004000;

    /// AES hardware acceleration.
    pub const AES: u32 = 0x00008000;

    /// SHA hardware acceleration.
    pub const SHA: u32 = 0x00010000;

    /// CRC32 hardware acceleration.
    pub const CRC32: u32 = 0x00020000;

    /// NEON (Advanced SIMD) support.
    pub const NEON: u32 = 0x00040000;

    /// SVE (Scalable Vector Extension) support.
    pub const SVE: u32 = 0x00080000;

    /// The raw flag word.
    pub closed spec fn spec_bits(self) -> u32 {
        self.bits
    }

    /// Whether every flag of `flags` is set.
    pub open spec fn has_all(self, flags: u32) -> bool {
        self.spec_bits() & flags == flags
    }

    /// The feature set with no flag set.
    pub fn empty() -> (r: CpuFeatures)
        ensures
            r.spec_bits() == 0u32,
    {
        CpuFeatures { bits: 0 }
    }

    /// The feature set with exactly the given flags set.
    pub fn from_bits(bits: u32) -> (r: CpuFeatures)
        ensures
            r.spec_bits() == bits,
    {
        CpuFeatures { bits }
    }

    /// The raw flag word.
    pub fn bits(&self) -> (r: u32)
        ensures
            r == self.spec_bits(),
    {
        self.bits
    }

    /// Whether every flag of `flags` is set.
    pub fn contains(&self, flags: u32) -> (r: bool)
        ensures
            r == self.has_all(flags),
    {
        self.bits & flags == flags
    }

    /// Sets all the given flags.
    pub fn insert(&mut self, flags: u32)
        ensures
            final(self).spec_bits() == old(self).spec_bits() | flags,
    {
        self.bits = self.bits | flags;
    }

    /// Whether no flag is set.
    pub fn is_empty(&self) -> (r: bool)
        ensures
            r == (self.spec_bits() == 0u32),
    {
        self.bits == 0
    }
}

impl Default for CpuFeatures {
    /// The default feature set is empty.
    fn default() -> (r: CpuFeatures)
        ensures
            r.spec_bits() == 0u32,
    {
        CpuFeatures::empty()
    }
}

} // verus!
