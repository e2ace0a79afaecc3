//! Instruction-level CPU identification on 64-bit x86: the vendor
//! string, the brand string, and the feature leaves, read through the
//! outside cpuid-query crate and mapped onto the library's model. What
//! the hardware reports is machine-dependent, so the trusted contracts
//! promise nothing of the raw answers; the mapping from the answers to
//! the feature bitset is verified for every possible answer.

use vstd::prelude::*;
use vstd::string::StringSliceAdditionalSpecFns;
use vstd::utf8::encode_utf8;

use crate::features::CpuFeatures;
use crate::parse::{bytes_eq, lossy_string, trim};
use crate::vendor::Vendor;

verus! {

/// Declares raw_cpuid::VendorInfo, the twelve-byte vendor string of
/// leaf 0, so that it can be carried through signatures; its content is
/// read only through its text accessor.
#[verifier::external_type_specification]
#[verifier::external_body]
pub struct ExVendorInfo(raw_cpuid::VendorInfo);

/// Declares raw_cpuid::FeatureInfo, the leaf 1 answers, read only
/// through its per-capability accessors.
#[verifier::external_type_specification]
#[verifier::external_body]
pub struct ExFeatureInfo(raw_cpuid::FeatureInfo);

/// Declares raw_cpuid::ExtendedFeatures, the leaf 7 answers, read only
/// through its per-capability accessors.
#[verifier::external_type_specification]
#[verifier::external_body]
pub struct ExExtendedFeatures(raw_cpuid::ExtendedFeatures);

/// Declares raw_cpuid::ProcessorBrandString, the brand-string leaves,
/// read only through its text accessor.
#[verifier::external_type_specification]
#[verifier::external_body]
pub struct ExProcessorBrandString(raw_cpuid::ProcessorBrandString);

/// Relies on raw_cpuid::CpuId::new and get_vendor_info: leaf 0, the
/// vendor string, when the machine exposes it.
#[verifier::external_body]
fn cpuid_vendor_info() -> Option<raw_cpuid::VendorInfo> {
    raw_cpuid::CpuId::new().get_vendor_info()
}

/// Relies on raw_cpuid::CpuId::new and get_feature_info: leaf 1, when
/// the machine exposes it.
#[verifier::external_body]
fn cpuid_feature_info() -> Option<raw_cpuid::FeatureInfo> {
    raw_cpuid::CpuId::new().get_feature_info()
}

/// Relies on raw_cpuid::CpuId::new and get_extended_feature_info: leaf
/// 7 sub-leaf 0, when the machine exposes it.
#[verifier::external_body]
fn cpuid_extended_feature_info() -> Option<raw_cpuid::ExtendedFeatures> {
    raw_cpuid::CpuId::new().get_extended_feature_info()
}

/// Relies on raw_cpuid::CpuId::new and get_processor_brand_string: the
/// extended brand-string leaves, when the machine exposes them.
#[verifier::external_body]
fn cpuid_brand_string() -> Option<raw_cpuid::ProcessorBrandString> {
    raw_cpuid::CpuId::new().get_processor_brand_string()
}

/// Relies on raw_cpuid::VendorInfo::as_str: the twelve-byte vendor
/// string as text.
#[verifier::external_body]
fn vendor_info_string(v: &raw_cpuid::VendorInfo) -> String {
    v.as_str().to_string()
}

/// Relies on raw_cpuid::ProcessorBrandString::as_str: the brand string
/// as text.
#[verifier::external_body]
fn brand_string_string(b: &raw_cpuid::ProcessorBrandString) -> String {
    b.as_str().to_string()
}

/// Relies on raw_cpuid::FeatureInfo::has_mmx.
#[verifier::external_body]
fn fi_has_mmx(f: &raw_cpuid::FeatureInfo) -> bool {
    f.has_mmx()
}

/// Relies on raw_cpuid::FeatureInfo::has_sse.
#[verifier::external_body]
fn fi_has_sse(f: &raw_cpuid::FeatureInfo) -> bool {
    f.has_sse()
}

/// Relies on raw_cpuid::FeatureInfo::has_sse2.
#[verifier::external_body]
fn fi_has_sse2(f: &raw_cpuid::FeatureInfo) -> bool {
    f.has_sse2()
}

/// Relies on raw_cpuid::FeatureInfo::has_sse3.
#[verifier::external_body]
fn fi_has_sse3(f: &raw_cpuid::FeatureInfo) -> bool {
    f.has_sse3()
}

/// Relies on raw_cpuid::FeatureInfo::has_ssse3.
#[verifier::external_body]
fn fi_has_ssse3(f: &raw_cpuid::FeatureInfo) -> bool {
    f.has_ssse3()
}

/// Relies on raw_cpuid::FeatureInfo::has_sse41.
#[verifier::external_body]
fn fi_has_sse41(f: &raw_cpuid::FeatureInfo) -> bool {
    f.has_sse41()
}

/// Relies on raw_cpuid::FeatureInfo::has_sse42.
#[verifier::external_body]
fn fi_has_sse42(f: &raw_cpuid::FeatureInfo) -> bool {
    f.has_sse42()
}

/// Relies on raw_cpuid::FeatureInfo::has_fma.
#[verifier::external_body]
fn fi_has_fma(f: &raw_cpuid::FeatureInfo) -> bool {
    f.has_fma()
}

/// Relies on raw_cpuid::FeatureInfo::has_avx.
#[verifier::external_body]
fn fi_has_avx(f: &raw_cpuid::FeatureInfo) -> bool {
    f.has_avx()
}

/// Relies on raw_cpuid::FeatureInfo::has_aesni.
#[verifier::external_body]
fn fi_has_aesni(f: &raw_cpuid::FeatureInfo) -> bool {
    f.has_aesni()
}

/// Relies on raw_cpuid::ExtendedFeatures::has_sha.
#[verifier::external_body]
fn ef_has_sha(f: &raw_cpuid::ExtendedFeatures) -> bool {
    f.has_sha()
}

/// Relies on raw_cpuid::ExtendedFeatures::has_avx2.
#[verifier::external_body]
fn ef_has_avx2(f: &raw_cpuid::ExtendedFeatures) -> bool {
    f.has_avx2()
}

/// Relies on raw_cpuid::ExtendedFeatures::has_avx512f.
#[verifier::external_body]
fn ef_has_avx512f(f: &raw_cpuid::ExtendedFeatures) -> bool {
    f.has_avx512f()
}

/// Relies on raw_cpuid::ExtendedFeatures::has_avx512bw.
#[verifier::external_body]
fn ef_has_avx512bw(f: &raw_cpuid::ExtendedFeatures) -> bool {
    f.has_avx512bw()
}

/// Relies on raw_cpuid::ExtendedFeatures::has_avx512cd.
#[verifier::external_body]
fn ef_has_avx512cd(f: &raw_cpuid::ExtendedFeatures) -> bool {
    f.has_avx512cd()
}

/// Relies on raw_cpuid::ExtendedFeatures::has_avx512dq.
#[verifier::external_body]
fn ef_has_avx512dq(f: &raw_cpuid::ExtendedFeatures) -> bool {
    f.has_avx512dq()
}

/// Relies on raw_cpuid::ExtendedFeatures::has_avx512vl.
#[verifier::external_body]
fn ef_has_avx512vl(f: &raw_cpuid::ExtendedFeatures) -> bool {
    f.has_avx512vl()
}

/// The feature word the basic-leaf answers denote, one flag per
/// reported capability; exact for every combination of answers.
pub fn cpuid_feature_bits(
    mmx: bool,
    sse: bool,
    sse2: bool,
    sse3: bool,
    ssse3: bool,
    sse41: bool,
    sse42: bool,
    fma: bool,
    avx: bool,
    aes: bool,
) -> (r: u32)
    ensures
        (r & CpuFeatures::MMX == CpuFeatures::MMX) == mmx,
        (r & CpuFeatures::SSE == CpuFeatures::SSE) == sse,
        (r & CpuFeatures::SSE2 == CpuFeatures::SSE2) == sse2,
        (r & CpuFeatures::SSE3 == CpuFeatures::SSE3) == sse3,
        (r & CpuFeatures::SSSE3 == CpuFeatures::SSSE3) == ssse3,
        (r & CpuFeatures::SSE4_1 == CpuFeatures::SSE4_1) == sse41,
        (r & CpuFeatures::SSE4_2 == CpuFeatures::SSE4_2) == sse42,
        (r & CpuFeatures::FMA3 == CpuFeatures::FMA3) == fma,
        (r & CpuFeatures::AVX == CpuFeatures::AVX) == avx,
        (r & CpuFeatures::AES == CpuFeatures::AES) == aes,
        r & 0x3FFFFu32 == r,
{
    let r: u32 = (if mmx {
        CpuFeatures::MMX
    } else {
        0u32
    }) | (if sse {
        CpuFeatures::SSE
    } else {
        0u32
    }) | (if sse2 {
        CpuFeatures::SSE2
    } else {
        0u32
    }) | (if sse3 {
        CpuFeatures::SSE3
    } else {
        0u32
    }) | (if ssse3 {
        CpuFeatures::SSSE3
    } else {
        0u32
    }) | (if sse41 {
        CpuFeatures::SSE4_1
    } else {
        0u32
    }) | (if sse42 {
        CpuFeatures::SSE4_2
    } else {
        0u32
    }) | (if fma {
        CpuFeatures::FMA3
    } else {
        0u32
    }) | (if avx {
        CpuFeatures::AVX
    } else {
        0u32
    }) | (if aes {
        CpuFeatures::AES
    } else {
        0u32
    });
    proof {
        assert((r & 0x1u32 == 0x1u32) == mmx && (r & 0x2u32 == 0x2u32) == sse && (r & 0x4u32
            == 0x4u32) == sse2 && (r & 0x8u32 == 0x8u32) == sse3 && (r & 0x10u32 == 0x10u32)
            == ssse3 && (r & 0x20u32 == 0x20u32) == sse41 && (r & 0x40u32 == 0x40u32) == sse42 && (
        r & 0x80u32 == 0x80u32) == fma && (r & 0x100u32 == 0x100u32) == avx && (r & 0x8000u32
            == 0x8000u32) == aes && r & 0x3FFFFu32 == r) by (bit_vector)
            requires
                r == (if mmx {
                    0x1u32
                } else {
                    0u32
                }) | (if sse {
                    0x2u32
                } else {
                    0u32
                }) | (if sse2 {
                    0x4u32
                } else {
                    0u32
                }) | (if sse3 {
                    0x8u32
                } else {
                    0u32
                }) | (if ssse3 {
                    0x10u32
                } else {
                    0u32
                }) | (if sse41 {
                    0x20u32
                } else {
                    0u32
                }) | (if sse42 {
                    0x40u32
                } else {
                    0u32
                }) | (if fma {
                    0x80u32
                } else {
                    0u32
                }) | (if avx {
                    0x100u32
                } else {
                    0u32
                }) | (if aes {
                    0x8000u32
                } else {
                    0u32
                }),
        ;
    }
    r
}

/// The feature word the extended-leaf answers denote.
pub fn cpuid_extended_feature_bits(
    sha: bool,
    avx2: bool,
    avx512f: bool,
    avx512bw: bool,
    avx512cd: bool,
    avx512dq: bool,
    avx512vl: bool,
) -> (r: u32)
    ensures
        (r & CpuFeatures::SHA == CpuFeatures::SHA) == sha,
        (r & CpuFeatures::AVX2 == CpuFeatures::AVX2) == avx2,
        (r & CpuFeatures::AVX512F == CpuFeatures::AVX512F) == avx512f,
        (r & CpuFeatures::AVX512BW == CpuFeatures::AVX512BW) == avx512bw,
        (r & CpuFeatures::AVX512CD == CpuFeatures::AVX512CD) == avx512cd,
        (r & CpuFeatures::AVX512DQ == CpuFeatures::AVX512DQ) == avx512dq,
        (r & CpuFeatures::AVX512VL == CpuFeatures::AVX512VL) == avx512vl,
        r & 0x3FFFFu32 == r,
{
    let r: u32 = (if sha {
        CpuFeatures::SHA
    } else {
        0u32
    }) | (if avx2 {
        CpuFeatures::AVX2
    } else {
        0u32
    }) | (if avx512f {
        CpuFeatures::AVX512F
    } else {
        0u32
    }) | (if avx512bw {
        CpuFeatures::AVX512BW
    } else {
        0u32
    }) | (if avx512cd {
        CpuFeatures::AVX512CD
    } else {
        0u32
    }) | (if avx512dq {
        CpuFeatures::AVX512DQ
    } else {
        0u32
    }) | (if avx512vl {
        CpuFeatures::AVX512VL
    } else {
        0u32
    });
    proof {
        assert((r & 0x10000u32 == 0x10000u32) == sha && (r & 0x200u32 == 0x200u32) == avx2 && (r
            & 0x400u32 == 0x400u32) == avx512f && (r & 0x800u32 == 0x800u32) == avx512bw && (r
            & 0x1000u32 == 0x1000u32) == avx512cd && (r & 0x2000u32 == 0x2000u32) == avx512dq && (
        r & 0x4000u32 == 0x4000u32) == avx512vl && r & 0x3FFFFu32 == r) by (bit_vector)
            requires
                r == (if sha {
                    0x10000u32
                } else {
                    0u32
                }) | (if avx2 {
                    0x200u32
                } else {
                    0u32
                }) | (if avx512f {
                    0x400u32
                } else {
                    0u32
                }) | (if avx512bw {
                    0x800u32
                } else {
                    0u32
                }) | (if avx512cd {
                    0x1000u32
                } else {
                    0u32
                }) | (if avx512dq {
                    0x2000u32
                } else {
                    0u32
                }) | (if avx512vl {
                    0x4000u32
                } else {
                    0u32
                }),
        ;
    }
    r
}

/// Queries the machine's feature leaves and folds the answers into the
/// feature set. The answers are the hardware's; whatever they are,
/// detection only ever adds flags, never clears one, and only the
/// x86 flags can be added.
pub fn detect_features_via_cpuid(features: &mut CpuFeatures)
    ensures
        final(features).spec_bits() & old(features).spec_bits() == old(features).spec_bits(),
        final(features).spec_bits() & !0x3FFFFu32 == old(features).spec_bits() & !0x3FFFFu32,
{
    let mut add: u32 = 0;
    proof {
        assert(0u32 & 0x3FFFFu32 == 0u32) by (bit_vector);
    }
    match cpuid_feature_info() {
        Some(fi) => {
            let b = cpuid_feature_bits(
                fi_has_mmx(&fi),
                fi_has_sse(&fi),
                fi_has_sse2(&fi),
                fi_has_sse3(&fi),
                fi_has_ssse3(&fi),
                fi_has_sse41(&fi),
                fi_has_sse42(&fi),
                fi_has_fma(&fi),
                fi_has_avx(&fi),
                fi_has_aesni(&fi),
            );
            proof {
                let a0 = add;
                assert((a0 & 0x3FFFFu32 == a0 && b & 0x3FFFFu32 == b) ==> (a0 | b) & 0x3FFFFu32
                    == (a0 | b)) by (bit_vector);
            }
            add = add | b;
        },
        None => {},
    }
    match cpuid_extended_feature_info() {
        Some(ef) => {
            let b = cpuid_extended_feature_bits(
                ef_has_sha(&ef),
                ef_has_avx2(&ef),
                ef_has_avx512f(&ef),
                ef_has_avx512bw(&ef),
                ef_has_avx512cd(&ef),
                ef_has_avx512dq(&ef),
                ef_has_avx512vl(&ef),
            );
            proof {
                let a0 = add;
                assert((a0 & 0x3FFFFu32 == a0 && b & 0x3FFFFu32 == b) ==> (a0 | b) & 0x3FFFFu32
                    == (a0 | b)) by (bit_vector);
            }
            add = add | b;
        },
        None => {},
    }
    let ghost before = features.spec_bits();
    features.insert(add);
    proof {
        let after = features.spec_bits();
        let a1 = add;
        assert((before | a1) & before == before) by (bit_vector);
        assert(a1 & 0x3FFFFu32 == a1 ==> (before | a1) & !0x3FFFFu32 == before & !0x3FFFFu32)
            by (bit_vector);
    }
}

/// The vendor an x86 vendor string denotes: the two documented
/// identifiers, and `Other` holding the raw string for the rest.
pub fn vendor_from_cpuid_string(s: String) -> (r: Vendor)
    ensures
        r == (if encode_utf8(s@) == "GenuineIntel".spec_bytes() {
            Vendor::Intel
        } else if encode_utf8(s@) == "AuthenticAMD".spec_bytes() {
            Vendor::Amd
        } else {
            Vendor::Other(s)
        }),
{
    if bytes_eq(s.as_str().as_bytes(), "GenuineIntel".as_bytes()) {
        Vendor::Intel
    } else if bytes_eq(s.as_str().as_bytes(), "AuthenticAMD".as_bytes()) {
        Vendor::Amd
    } else {
        Vendor::Other(s)
    }
}

/// Queries the machine's identification leaves: the vendor from the
/// vendor string, the trimmed brand string as the model name, and the
/// feature set. The answers are the hardware's; whatever they are, the
/// vendor is never reported as an Arm or Apple part on this path, and
/// the feature set holds x86 flags only.
pub fn detect_via_cpuid() -> (r: (Vendor, String, CpuFeatures))
    ensures
        !(r.0 is Arm) && !(r.0 is Apple),
        r.2.spec_bits() & !0x3FFFFu32 == 0u32,
{
    let vendor = match cpuid_vendor_info() {
        Some(vi) => vendor_from_cpuid_string(vendor_info_string(&vi)),
        None => Vendor::Unknown,
    };
    let model_name = match cpuid_brand_string() {
        Some(bs) => {
            let s = brand_string_string(&bs);
            lossy_string(trim(s.as_str().as_bytes()))
        },
        None => "Unknown".to_owned(),
    };
    let mut features = CpuFeatures::empty();
    detect_features_via_cpuid(&mut features);
    proof {
        assert(0u32 & !0x3FFFFu32 == 0u32) by (bit_vector);
    }
    (vendor, model_name, features)
}

} // verus!
