use gdt_cpus::CacheInfo;
use gdt_cpus::CacheLevel;
use gdt_cpus::CacheType;
use gdt_cpus::CpuFeatures;

#[test]
fn cache_level_from_raw_numbers() {
    assert_eq!(CacheLevel::from(1), CacheLevel::L1);
    assert_eq!(CacheLevel::from(2), CacheLevel::L2);
    assert_eq!(CacheLevel::from(3), CacheLevel::L3);
    assert_eq!(CacheLevel::from(4), CacheLevel::L4);
    assert_eq!(CacheLevel::from(9), CacheLevel::Unknown);
}

#[test]
fn cache_type_from_raw_numbers() {
    assert_eq!(CacheType::from(0), CacheType::Unified);
    assert_eq!(CacheType::from(1), CacheType::Instruction);
    assert_eq!(CacheType::from(2), CacheType::Data);
    assert_eq!(CacheType::from(3), CacheType::Trace);
    assert_eq!(CacheType::from(7), CacheType::Unknown);
}

#[test]
fn feature_set_operations() {
    let mut f = CpuFeatures::empty();
    assert!(f.is_empty());
    f.insert(CpuFeatures::AVX2);
    f.insert(CpuFeatures::SHA);
    assert!(f.contains(CpuFeatures::AVX2));
    assert!(f.contains(CpuFeatures::SHA));
    assert!(f.contains(CpuFeatures::AVX2 | CpuFeatures::SHA));
    assert!(!f.contains(CpuFeatures::MMX));
    assert!(!f.is_empty());
    assert_eq!(CpuFeatures::default(), CpuFeatures::empty());
    assert_eq!(f.bits(), CpuFeatures::AVX2 | CpuFeatures::SHA);
}

#[test]
fn cache_info_is_a_plain_value() {
    let c = CacheInfo {
        level: CacheLevel::L2,
        cache_type: CacheType::Unified,
        size_bytes: 1048576,
        line_size_bytes: 64,
    };
    let d = c;
    assert_eq!(c, d);
    assert_eq!(d.size_bytes, 1048576);
}
