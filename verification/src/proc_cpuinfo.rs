//! Parsing of the first processor block of `/proc/cpuinfo`: the vendor
//! identifier, the Arm implementer code, the model name, and the
//! feature flags line, plus the token table that turns a flags line
//! into the feature bitset.

use vstd::prelude::*;
use vstd::string::StringSliceAdditionalSpecFns;

use crate::features::CpuFeatures;
use crate::parse::{bytes_eq, find_byte, lower_bytes, to_lower, trim, trimmed};
use crate::vendor::Vendor;

verus! {

/// The value a key/value line carries for the given key: the line must
/// hold exactly one colon, and its key part must trim to `key`.
pub open spec fn line_value(line: Seq<u8>, key: Seq<u8>) -> Option<Seq<u8>> {
    let p = find_byte(line, 58);
    if 0 <= p < line.len() && find_byte(line.subrange(p + 1, line.len() as int), 58) < 0
        && trimmed(line.take(p)) == key {
        Some(trimmed(line.subrange(p + 1, line.len() as int)))
    } else {
        None
    }
}

/// The first value carried by any line for either of two keys.
pub open spec fn first_value(lines: Seq<Seq<u8>>, k1: Seq<u8>, k2: Seq<u8>) -> Option<Seq<u8>>
    decreases lines.len(),
{
    if lines.len() == 0 {
        None
    } else if line_value(lines[0], k1) is Some {
        line_value(lines[0], k1)
    } else if line_value(lines[0], k2) is Some {
        line_value(lines[0], k2)
    } else {
        first_value(lines.drop_first(), k1, k2)
    }
}

/// The lines of the first block of the text: the newline-separated
/// lines up to but not including the first line that is blank after
/// trimming; a final fragment without a newline counts as a line.
pub open spec fn spec_first_block(text: Seq<u8>) -> Seq<Seq<u8>>
    decreases text.len(),
{
    let k = find_byte(text, 10);
    if !(0 <= k < text.len()) {
        if trimmed(text).len() > 0 {
            seq![text]
        } else {
            Seq::empty()
        }
    } else {
        let line = text.subrange(0, k);
        if trimmed(line).len() == 0 {
            Seq::empty()
        } else {
            seq![line] + spec_first_block(text.subrange(k + 1, text.len() as int))
        }
    }
}

/// Splits text into lines at newlines, keeping exactly the lines before
/// the first line that is blank after trimming; the final fragment
/// without a newline counts as a line.
pub fn first_block_lines(text: &[u8]) -> (r: Vec<Vec<u8>>)
    ensures
        r@.map_values(|l: Vec<u8>| l@) == spec_first_block(text@),
        forall|k: int| 0 <= k < r@.len() ==> trimmed((#[trigger] r@[k])@).len() > 0,
{
    let mut r: Vec<Vec<u8>> = Vec::new();
    let mut start: usize = 0;
    let n = text.len();
    proof {
        assert(text@.subrange(0, n as int) =~= text@);
    }
    loop
        invariant
            start <= n,
            n == text@.len(),
            spec_first_block(text@) == r@.map_values(|l: Vec<u8>| l@) + spec_first_block(
                text@.subrange(start as int, n as int),
            ),
            forall|k: int| 0 <= k < r@.len() ==> trimmed((#[trigger] r@[k])@).len() > 0,
        decreases n - start + 1,
    {
        let rest = crate::parse::slice_range(text, start, n);
        let ghost rests = rest@;
        proof {
            crate::parse::lemma_find_byte(rests, 10);
        }
        match crate::parse::find_byte_at(rest, 10) {
            Some(k) => {
                let line = crate::parse::slice_range(rest, 0, k);
                let t = trim(line);
                if t.len() == 0 {
                    proof {
                        assert(spec_first_block(rests) =~= Seq::<Seq<u8>>::empty());
                        assert(r@.map_values(|l: Vec<u8>| l@) + spec_first_block(rests)
                            =~= r@.map_values(|l: Vec<u8>| l@));
                    }
                    return r;
                }
                let mut owned: Vec<u8> = Vec::new();
                let ln = line.len();
                for i in 0..ln
                    invariant
                        ln == line@.len(),
                        owned@ == line@.take(i as int),
                {
                    owned.push(line[i]);
                    proof {
                        assert(line@.take(i as int + 1) == line@.take(i as int).push(
                            line@[i as int],
                        ));
                    }
                }
                proof {
                    assert(line@.take(ln as int) == line@);
                }
                let ghost pre = r@;
                r.push(owned);
                proof {
                    assert(r@.map_values(|l: Vec<u8>| l@) =~= pre.map_values(|l: Vec<u8>| l@).push(
                        line@,
                    ));
                    assert(rests.subrange(k as int + 1, rests.len() as int) =~= text@.subrange(
                        start as int + k as int + 1,
                        n as int,
                    ));
                    assert(spec_first_block(rests) == seq![line@] + spec_first_block(
                        text@.subrange(start as int + k as int + 1, n as int),
                    ));
                    assert(pre.map_values(|l: Vec<u8>| l@) + (seq![line@] + spec_first_block(
                        text@.subrange(start as int + k as int + 1, n as int),
                    )) =~= r@.map_values(|l: Vec<u8>| l@) + spec_first_block(
                        text@.subrange(start as int + k as int + 1, n as int),
                    ));
                }
                start = start + k + 1;
            },
            None => {
                let t = trim(rest);
                if t.len() > 0 {
                    let mut owned: Vec<u8> = Vec::new();
                    let ln = rest.len();
                    for i in 0..ln
                        invariant
                            ln == rest@.len(),
                            owned@ == rest@.take(i as int),
                    {
                        owned.push(rest[i]);
                        proof {
                            assert(rest@.take(i as int + 1) == rest@.take(i as int).push(
                                rest@[i as int],
                            ));
                        }
                    }
                    proof {
                        assert(rest@.take(ln as int) == rest@);
                    }
                    let ghost pre = r@;
                    r.push(owned);
                    proof {
                        assert(spec_first_block(rests) =~= seq![rests]);
                        assert(r@.map_values(|l: Vec<u8>| l@) =~= pre.map_values(
                            |l: Vec<u8>| l@,
                        ).push(rests));
                        assert(pre.map_values(|l: Vec<u8>| l@) + seq![rests] =~= r@.map_values(
                            |l: Vec<u8>| l@,
                        ));
                        assert(r@.map_values(|l: Vec<u8>| l@) + spec_first_block(
                            rests.subrange(rests.len() as int, rests.len() as int),
                        ) =~= r@.map_values(|l: Vec<u8>| l@));
                    }
                } else {
                    proof {
                        assert(spec_first_block(rests) =~= Seq::<Seq<u8>>::empty());
                        assert(r@.map_values(|l: Vec<u8>| l@) + spec_first_block(rests)
                            =~= r@.map_values(|l: Vec<u8>| l@));
                    }
                }
                proof {
                    if trimmed(rests).len() > 0 {
                        assert(spec_first_block(text@) =~= r@.map_values(|l: Vec<u8>| l@));
                    } else {
                        assert(spec_first_block(text@) =~= r@.map_values(|l: Vec<u8>| l@));
                    }
                }
                return r;
            },
        }
    }
}

/// Extracts the trimmed value of the first line carrying either key.
pub fn extract_field(lines: &Vec<Vec<u8>>, key1: &[u8], key2: &[u8]) -> (r: Option<Vec<u8>>)
    ensures
        r matches Some(v) ==> first_value(lines@.map_values(|l: Vec<u8>| l@), key1@, key2@)
            == Some(v@),
        r is None ==> first_value(lines@.map_values(|l: Vec<u8>| l@), key1@, key2@) is None,
{
    let ghost views = lines@.map_values(|l: Vec<u8>| l@);
    let n = lines.len();
    proof {
        assert(views.subrange(0, n as int) =~= views);
    }
    for k in 0..n
        invariant
            n == lines@.len(),
            views == lines@.map_values(|l: Vec<u8>| l@),
            first_value(views, key1@, key2@) == first_value(
                views.subrange(k as int, n as int),
                key1@,
                key2@,
            ),
    {
        let ghost rest = views.subrange(k as int, n as int);
        proof {
            assert(rest[0] == views[k as int]);
            assert(rest.drop_first() =~= views.subrange(k as int + 1, n as int));
        }
        let line: &Vec<u8> = &lines[k];
        match line_field(line.as_slice(), key1) {
            Some(v) => {
                return Some(v);
            },
            None => {},
        }
        match line_field(line.as_slice(), key2) {
            Some(v) => {
                return Some(v);
            },
            None => {},
        }
    }
    proof {
        assert(views.subrange(n as int, n as int) =~= Seq::<Seq<u8>>::empty());
    }
    None
}

/// Extracts the trimmed value of one key/value line, requiring exactly
/// one colon and the given trimmed key.
fn line_field(line: &[u8], key: &[u8]) -> (r: Option<Vec<u8>>)
    ensures
        r matches Some(v) ==> line_value(line@, key@) == Some(v@),
        r is None ==> line_value(line@, key@) is None,
{
    let line_len = line.len();
    match crate::parse::find_byte_at(line, 58) {
        Some(p) => {
            let after = crate::parse::slice_range(line, p + 1, line_len);
            proof {
                assert(after@ == line@.subrange(p as int + 1, line@.len() as int));
            }
            match crate::parse::find_byte_at(after, 58) {
                Some(q) => {
                    proof {
                        assert(find_byte(line@.subrange(p as int + 1, line@.len() as int), 58)
                            >= 0);
                    }
                    None
                },
                None => {
                    let key_part = crate::parse::slice_range(line, 0, p);
                    proof {
                        assert(key_part@ =~= line@.take(p as int));
                    }
                    let kt = trim(key_part);
                    if bytes_eq(kt, key) {
                        let vt = trim(after);
                        let mut owned: Vec<u8> = Vec::new();
                        let ln = vt.len();
                        for i in 0..ln
                            invariant
                                ln == vt@.len(),
                                owned@ == vt@.take(i as int),
                            {
                            owned.push(vt[i]);
                            proof {
                                assert(vt@.take(i as int + 1) == vt@.take(i as int).push(
                                    vt@[i as int],
                                ));
                            }
                        }
                        proof {
                            assert(vt@.take(ln as int) == vt@);
                        }
                        Some(owned)
                    } else {
                        None
                    }
                },
            }
        },
        None => None,
    }
}

/// The feature flags one whitespace-separated token sets: the known
/// x86 tokens, including the kernel's historic aliases, and the known
/// Arm tokens; an unrecognised token sets nothing.
#[verifier::opaque]
pub open spec fn spec_token_flags(t: Seq<u8>) -> u32 {
    if t == "mmx".spec_bytes() {
        CpuFeatures::MMX
    } else if t == "sse".spec_bytes() {
        CpuFeatures::SSE
    } else if t == "sse2".spec_bytes() {
        CpuFeatures::SSE2
    } else if t == "pni".spec_bytes() {
        CpuFeatures::SSE3
    } else if t == "ssse3".spec_bytes() {
        CpuFeatures::SSSE3
    } else if t == "sse4_1".spec_bytes() {
        CpuFeatures::SSE4_1
    } else if t == "sse4_2".spec_bytes() {
        CpuFeatures::SSE4_2
    } else if t == "fma".spec_bytes() {
        CpuFeatures::FMA3
    } else if t == "avx".spec_bytes() {
        CpuFeatures::AVX
    } else if t == "avx2".spec_bytes() {
        CpuFeatures::AVX2
    } else if t == "avx512f".spec_bytes() {
        CpuFeatures::AVX512F
    } else if t == "avx512bw".spec_bytes() {
        CpuFeatures::AVX512BW
    } else if t == "avx512cd".spec_bytes() {
        CpuFeatures::AVX512CD
    } else if t == "avx512dq".spec_bytes() {
        CpuFeatures::AVX512DQ
    } else if t == "avx512vl".spec_bytes() {
        CpuFeatures::AVX512VL
    } else if t == "aes".spec_bytes() {
        CpuFeatures::AES
    } else if t == "sha_ni".spec_bytes() || t == "sha1".spec_bytes() || t
        == "sha2".spec_bytes() || t == "sha256".spec_bytes() || t == "sha512".spec_bytes() || t
        == "sha3".spec_bytes() {
        CpuFeatures::SHA
    } else if t == "crc32".spec_bytes() {
        CpuFeatures::CRC32
    } else if t == "asimd".spec_bytes() || t == "neon".spec_bytes() || t == "fp".spec_bytes() {
        CpuFeatures::NEON
    } else if t == "sve".spec_bytes() {
        CpuFeatures::SVE
    } else {
        0u32
    }
}

/// The flags one token sets.
fn token_flags(t: &[u8]) -> (r: u32)
    ensures
        r == spec_token_flags(t@),
{
    proof {
        reveal(spec_token_flags);
    }
    if bytes_eq(t, "mmx".as_bytes()) {
        CpuFeatures::MMX
    } else if bytes_eq(t, "sse".as_bytes()) {
        CpuFeatures::SSE
    } else if bytes_eq(t, "sse2".as_bytes()) {
        CpuFeatures::SSE2
    } else if bytes_eq(t, "pni".as_bytes()) {
        CpuFeatures::SSE3
    } else if bytes_eq(t, "ssse3".as_bytes()) {
        CpuFeatures::SSSE3
    } else if bytes_eq(t, "sse4_1".as_bytes()) {
        CpuFeatures::SSE4_1
    } else if bytes_eq(t, "sse4_2".as_bytes()) {
        CpuFeatures::SSE4_2
    } else if bytes_eq(t, "fma".as_bytes()) {
        CpuFeatures::FMA3
    } else if bytes_eq(t, "avx".as_bytes()) {
        CpuFeatures::AVX
    } else if bytes_eq(t, "avx2".as_bytes()) {
        CpuFeatures::AVX2
    } else if bytes_eq(t, "avx512f".as_bytes()) {
        CpuFeatures::AVX512F
    } else if bytes_eq(t, "avx512bw".as_bytes()) {
        CpuFeatures::AVX512BW
    } else if bytes_eq(t, "avx512cd".as_bytes()) {
        CpuFeatures::AVX512CD
    } else if bytes_eq(t, "avx512dq".as_bytes()) {
        CpuFeatures::AVX512DQ
    } else if bytes_eq(t, "avx512vl".as_bytes()) {
        CpuFeatures::AVX512VL
    } else if bytes_eq(t, "aes".as_bytes()) {
        CpuFeatures::AES
    } else if bytes_eq(t, "sha_ni".as_bytes()) || bytes_eq(t, "sha1".as_bytes()) || bytes_eq(
        t,
        "sha2".as_bytes(),
    ) || bytes_eq(t, "sha256".as_bytes()) || bytes_eq(t, "sha512".as_bytes()) || bytes_eq(
        t,
        "sha3".as_bytes(),
    ) {
        CpuFeatures::SHA
    } else if bytes_eq(t, "crc32".as_bytes()) {
        CpuFeatures::CRC32
    } else if bytes_eq(t, "asimd".as_bytes()) || bytes_eq(t, "neon".as_bytes()) || bytes_eq(
        t,
        "fp".as_bytes(),
    ) {
        CpuFeatures::NEON
    } else if bytes_eq(t, "sve".as_bytes()) {
        CpuFeatures::SVE
    } else {
        0u32
    }
}

/// The vendor the identifier strings denote: the documented
/// `vendor_id` values, then the documented Arm implementer codes, and
/// `Other` holding the raw identifier when neither table matches. A
/// missing `vendor_id` makes the vendor unknown.
pub fn parse_vendor_from_string(
    vendor_id: Option<&Vec<u8>>,
    cpu_implementer: Option<&Vec<u8>>,
) -> (r: Vendor)
    ensures
        vendor_id is None ==> r is Unknown,
        vendor_id matches Some(v) ==> ({
            if v@ == "GenuineIntel".spec_bytes() {
                r is Intel
            } else if v@ == "AuthenticAMD".spec_bytes() {
                r is Amd
            } else if v@ == "Apple".spec_bytes() {
                r is Apple
            } else {
                match cpu_implementer {
                    None => r is Other,
                    Some(imp) => {
                        if imp@ == "0x41".spec_bytes() {
                            r is Arm
                        } else if imp@ == "0x61".spec_bytes() {
                            r is Apple
                        } else if imp@ == "0x42".spec_bytes() {
                            r matches Vendor::Other(s) && s@ == "Broadcom"@
                        } else if imp@ == "0x43".spec_bytes() {
                            r matches Vendor::Other(s) && s@ == "Cavium"@
                        } else if imp@ == "0x44".spec_bytes() {
                            r matches Vendor::Other(s) && s@ == "DEC"@
                        } else if imp@ == "0x4e".spec_bytes() {
                            r matches Vendor::Other(s) && s@ == "Nvidia"@
                        } else if imp@ == "0x51".spec_bytes() {
                            r matches Vendor::Other(s) && s@ == "Qualcomm"@
                        } else if imp@ == "0x56".spec_bytes() {
                            r matches Vendor::Other(s) && s@ == "Marvell"@
                        } else {
                            r is Other
                        }
                    },
                }
            }
        }),
{
    match vendor_id {
        None => Vendor::Unknown,
        Some(v) => {
            if bytes_eq(v.as_slice(), "GenuineIntel".as_bytes()) {
                Vendor::Intel
            } else if bytes_eq(v.as_slice(), "AuthenticAMD".as_bytes()) {
                Vendor::Amd
            } else if bytes_eq(v.as_slice(), "Apple".as_bytes()) {
                Vendor::Apple
            } else {
                match cpu_implementer {
                    None => Vendor::Other(crate::parse::lossy_string(v.as_slice())),
                    Some(imp) => {
                        if bytes_eq(imp.as_slice(), "0x41".as_bytes()) {
                            Vendor::Arm
                        } else if bytes_eq(imp.as_slice(), "0x61".as_bytes()) {
                            Vendor::Apple
                        } else if bytes_eq(imp.as_slice(), "0x42".as_bytes()) {
                            Vendor::Other("Broadcom".to_owned())
                        } else if bytes_eq(imp.as_slice(), "0x43".as_bytes()) {
                            Vendor::Other("Cavium".to_owned())
                        } else if bytes_eq(imp.as_slice(), "0x44".as_bytes()) {
                            Vendor::Other("DEC".to_owned())
                        } else if bytes_eq(imp.as_slice(), "0x4e".as_bytes()) {
                            Vendor::Other("Nvidia".to_owned())
                        } else if bytes_eq(imp.as_slice(), "0x51".as_bytes()) {
                            Vendor::Other("Qualcomm".to_owned())
                        } else if bytes_eq(imp.as_slice(), "0x56".as_bytes()) {
                            Vendor::Other("Marvell".to_owned())
                        } else {
                            Vendor::Other(crate::parse::lossy_string(imp.as_slice()))
                        }
                    },
                }
            }
        },
    }
}

/// The feature flags a whole flags line sets: the union over its
/// space-separated tokens, each folded to lower case.
pub open spec fn spec_flags_line(s: Seq<u8>) -> u32
    decreases s.len(),
{
    let k = find_byte(s, 32);
    if !(0 <= k < s.len()) {
        spec_token_flags(lower_bytes(trimmed(s)))
    } else {
        spec_token_flags(lower_bytes(trimmed(s.subrange(0, k)))) | spec_flags_line(
            s.subrange(k + 1, s.len() as int),
        )
    }
}

/// The feature flags a whole flags line sets.
pub fn flags_line_features(line: &[u8]) -> (r: u32)
    ensures
        r == spec_flags_line(line@),
{
    let ghost whole = line@;
    let mut bits: u32 = 0;
    let mut start: usize = 0;
    let n = line.len();
    proof {
        assert(whole.subrange(0, n as int) =~= whole);
        let x = spec_flags_line(whole);
        assert(0u32 | x == x) by (bit_vector);
    }
    loop
        invariant
            start <= n,
            n == line@.len(),
            whole == line@,
            spec_flags_line(whole) == bits | spec_flags_line(
                whole.subrange(start as int, n as int),
            ),
        decreases n - start,
    {
        let rest = crate::parse::slice_range(line, start, n);
        let ghost rests = rest@;
        proof {
            crate::parse::lemma_find_byte(rests, 32);
        }
        match crate::parse::find_byte_at(rest, 32) {
            Some(k) => {
                let seg = crate::parse::slice_range(rest, 0, k);
                let lowered = to_lower(trim(seg));
                let f = token_flags(lowered.as_slice());
                proof {
                    assert(rests.subrange(0, k as int) == seg@);
                    assert(spec_flags_line(rests) == (spec_token_flags(
                        lower_bytes(trimmed(seg@)),
                    ) | spec_flags_line(rests.subrange(k as int + 1, rests.len() as int))));
                    assert(rests.subrange(k as int + 1, rests.len() as int) =~= whole.subrange(
                        start as int + k as int + 1,
                        n as int,
                    ));
                    let x = spec_flags_line(whole.subrange(start as int + k as int + 1, n as int));
                    assert((bits | (f | x)) == ((bits | f) | x)) by (bit_vector);
                }
                bits = bits | f;
                start = start + k + 1;
            },
            None => {
                let lowered = to_lower(trim(rest));
                let f = token_flags(lowered.as_slice());
                proof {
                    assert(spec_flags_line(rests) == spec_token_flags(
                        lower_bytes(trimmed(rests)),
                    ));
                }
                return bits | f;
            },
        }
    }
}

} // verus!
