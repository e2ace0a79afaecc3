use gdt_cpus::CoreType;
use gdt_cpus::Error;
use gdt_cpus::Vendor;
use gdt_cpus::linux::parse_core_type;
use gdt_cpus::parse::parse_cache_size;
use gdt_cpus::parse::parse_cpu_list;
use gdt_cpus::parse::parse_u64;
use gdt_cpus::parse::parse_usize;
use gdt_cpus::proc_cpuinfo::extract_field;
use gdt_cpus::proc_cpuinfo::first_block_lines;
use gdt_cpus::proc_cpuinfo::flags_line_features;
use gdt_cpus::proc_cpuinfo::parse_vendor_from_string;
use gdt_cpus::CpuFeatures;

#[test]
fn cpu_list_accepts_single_id() {
    let ids = parse_cpu_list(b"0").unwrap();
    assert_eq!(ids, vec![0]);
}

#[test]
fn cpu_list_accepts_comma_separated_ids() {
    let ids = parse_cpu_list(b"0,2,4").unwrap();
    assert_eq!(ids, vec![0, 2, 4]);
}

#[test]
fn cpu_list_accepts_range() {
    let ids = parse_cpu_list(b"0-3").unwrap();
    assert_eq!(ids, vec![0, 1, 2, 3]);
}

#[test]
fn cpu_list_accepts_mixed_ranges_and_ids() {
    let ids = parse_cpu_list(b"0-1,4,6-7").unwrap();
    assert_eq!(ids, vec![0, 1, 4, 6, 7]);
}

#[test]
fn cpu_list_accepts_trailing_newline() {
    let ids = parse_cpu_list(b"0-3,6,8-11\n").unwrap();
    assert_eq!(ids, vec![0, 1, 2, 3, 6, 8, 9, 10, 11]);
}

#[test]
fn cpu_list_rejects_reversed_range() {
    assert!(matches!(parse_cpu_list(b"1-0"), Err(Error::Detection(_))));
}

#[test]
fn cpu_list_rejects_non_numeric() {
    assert!(matches!(parse_cpu_list(b"a"), Err(Error::Detection(_))));
}

#[test]
fn cpu_list_rejects_empty() {
    assert!(matches!(parse_cpu_list(b""), Err(Error::Detection(_))));
}

#[test]
fn cache_size_with_k_suffix() {
    assert_eq!(parse_cache_size(b"512K"), Some(524288));
}

#[test]
fn cache_size_without_suffix_is_bytes() {
    assert_eq!(parse_cache_size(b"32"), Some(32));
}

#[test]
fn cache_size_small_k_values() {
    assert_eq!(parse_cache_size(b"32K"), Some(32768));
    assert_eq!(parse_cache_size(b"32k"), Some(32768));
}

#[test]
fn cache_size_rejects_garbage() {
    assert_eq!(parse_cache_size(b"K"), None);
    assert_eq!(parse_cache_size(b""), None);
    assert_eq!(parse_cache_size(b"12x"), None);
}

#[test]
fn decimal_parsers_handle_bounds() {
    assert_eq!(parse_usize(b"0"), Some(0));
    assert_eq!(parse_usize(b"18446744073709551615"), Some(usize::MAX));
    assert_eq!(parse_usize(b"18446744073709551616"), None);
    assert_eq!(parse_u64(b"007"), Some(7));
    assert_eq!(parse_u64(b""), None);
}

#[test]
fn core_type_values() {
    assert_eq!(parse_core_type(Some(&b"performance\n".to_vec())), CoreType::Performance);
    assert_eq!(parse_core_type(Some(&b"Performance".to_vec())), CoreType::Performance);
    assert_eq!(parse_core_type(Some(&b"0".to_vec())), CoreType::Performance);
    assert_eq!(parse_core_type(Some(&b"efficiency".to_vec())), CoreType::Efficiency);
    assert_eq!(parse_core_type(Some(&b"1".to_vec())), CoreType::Efficiency);
    assert_eq!(parse_core_type(Some(&b"exotic".to_vec())), CoreType::Unknown);
    assert_eq!(parse_core_type(None), CoreType::Unknown);
}

#[test]
fn vendor_table_from_vendor_id() {
    assert_eq!(parse_vendor_from_string(Some(&b"GenuineIntel".to_vec()), None), Vendor::Intel);
    assert_eq!(parse_vendor_from_string(Some(&b"AuthenticAMD".to_vec()), None), Vendor::Amd);
    assert_eq!(parse_vendor_from_string(Some(&b"Apple".to_vec()), None), Vendor::Apple);
    assert_eq!(parse_vendor_from_string(None, None), Vendor::Unknown);
}

#[test]
fn vendor_table_from_implementer() {
    let other = b"weird".to_vec();
    assert_eq!(
        parse_vendor_from_string(Some(&other), Some(&b"0x41".to_vec())),
        Vendor::Arm
    );
    assert_eq!(
        parse_vendor_from_string(Some(&other), Some(&b"0x61".to_vec())),
        Vendor::Apple
    );
    assert_eq!(
        parse_vendor_from_string(Some(&other), Some(&b"0x42".to_vec())),
        Vendor::Other("Broadcom".to_string())
    );
    assert_eq!(
        parse_vendor_from_string(Some(&other), Some(&b"0x4e".to_vec())),
        Vendor::Other("Nvidia".to_string())
    );
    assert_eq!(
        parse_vendor_from_string(Some(&other), Some(&b"0x51".to_vec())),
        Vendor::Other("Qualcomm".to_string())
    );
    assert_eq!(
        parse_vendor_from_string(Some(&other), Some(&b"0xff".to_vec())),
        Vendor::Other("0xff".to_string())
    );
}

#[test]
fn flags_line_sets_feature_bits() {
    let bits = flags_line_features(b"fpu mmx sse sse2 pni avx2 sha_ni");
    let f = CpuFeatures::from_bits(bits);
    assert!(f.contains(CpuFeatures::MMX));
    assert!(f.contains(CpuFeatures::SSE));
    assert!(f.contains(CpuFeatures::SSE2));
    assert!(f.contains(CpuFeatures::SSE3));
    assert!(f.contains(CpuFeatures::AVX2));
    assert!(f.contains(CpuFeatures::SHA));
    assert!(!f.contains(CpuFeatures::AVX));
}

#[test]
fn arm_flags_line_sets_feature_bits() {
    let bits = flags_line_features(b"fp asimd aes sha2 crc32 sve");
    let f = CpuFeatures::from_bits(bits);
    assert!(f.contains(CpuFeatures::NEON));
    assert!(f.contains(CpuFeatures::AES));
    assert!(f.contains(CpuFeatures::SHA));
    assert!(f.contains(CpuFeatures::CRC32));
    assert!(f.contains(CpuFeatures::SVE));
}

#[test]
fn cpuinfo_first_block_fields() {
    let text = b"processor\t: 0\nvendor_id\t: GenuineIntel\nmodel name\t: Test CPU 3000\nflags\t\t: fpu avx2\n\nprocessor\t: 1\nvendor_id\t: SomethingElse\n";
    let lines = first_block_lines(text);
    let vid = extract_field(&lines, b"vendor_id", b"vendor_id").unwrap();
    assert_eq!(vid, b"GenuineIntel".to_vec());
    let model = extract_field(&lines, b"model name", b"Processor").unwrap();
    assert_eq!(model, b"Test CPU 3000".to_vec());
    let flags = extract_field(&lines, b"flags", b"Features").unwrap();
    assert_eq!(flags, b"fpu avx2".to_vec());
    assert!(extract_field(&lines, b"missing key", b"missing key").is_none());
}
