use gdt_cpus::CacheType;
use gdt_cpus::CoreType;
use gdt_cpus::CpuFeatures;
use gdt_cpus::Vendor;
use gdt_cpus::linux::CacheIndexRaw;
use gdt_cpus::linux::LinuxSnapshot;
use gdt_cpus::linux::LpRecord;
use gdt_cpus::linux::LpTopologyRaw;
use gdt_cpus::macos::MacSnapshot;
use gdt_cpus::macos::PerfLevelCaches;
use gdt_cpus::windows::GroupMaskRec;
use gdt_cpus::windows::SlpiRecord;
use gdt_cpus::windows::WindowsSnapshot;

fn num(v: usize) -> Option<Vec<u8>> {
    Some(v.to_string().into_bytes())
}

fn linux_lp(
    lp_id: usize,
    package: usize,
    core: usize,
    core_type: Option<&str>,
    caches: Vec<CacheIndexRaw>,
) -> LpRecord {
    LpRecord {
        lp_id,
        topology: Some(LpTopologyRaw {
            package_id: num(package),
            core_id: num(core),
            core_type: core_type.map(|s| s.as_bytes().to_vec()),
            caches,
        }),
    }
}

fn cache_raw(level: &str, kind: &str, size: &str, line: &str) -> CacheIndexRaw {
    CacheIndexRaw {
        level: Some(level.as_bytes().to_vec()),
        kind: Some(kind.as_bytes().to_vec()),
        size: Some(size.as_bytes().to_vec()),
        line_size: Some(line.as_bytes().to_vec()),
    }
}

#[test]
fn linux_single_socket_four_cores_two_threads_intel() {
    let mut lps = Vec::new();
    for lp in 0..8usize {
        let caches = vec![
            cache_raw("1", "Instruction", "32K", "64"),
            cache_raw("1", "Data", "48K", "64"),
            cache_raw("2", "Unified", "1024K", "64"),
            cache_raw("3", "Unified", "16384K", "64"),
        ];
        lps.push(linux_lp(lp, 0, lp / 2, None, caches));
    }
    let snapshot = LinuxSnapshot {
        online: b"0-7\n".to_vec(),
        lps,
        cpuinfo: Vec::new(),
        cpuid_vendor: Vendor::Intel,
        cpuid_model_name: "Test Processor".to_string(),
        cpuid_features: CpuFeatures::from_bits(CpuFeatures::AVX2),
    };
    let info = gdt_cpus::linux::detect_cpu_info(&snapshot).unwrap();

    assert_eq!(info.total_sockets, 1);
    assert_eq!(info.sockets.len(), 1);
    assert_eq!(info.total_physical_cores, 4);
    assert_eq!(info.total_logical_processors, 8);
    assert_eq!(info.total_performance_cores, 4);
    assert_eq!(info.total_efficiency_cores, 0);
    assert!(!info.is_hybrid());
    assert!(info.features.contains(CpuFeatures::AVX2));
    assert_eq!(info.vendor, Vendor::Intel);

    let cores = &info.sockets[0].cores;
    assert_eq!(cores.len(), 4);
    for (k, core) in cores.iter().enumerate() {
        assert_eq!(core.id, k);
        assert_eq!(core.socket_id, 0);
        assert_eq!(core.core_type, CoreType::Performance);
        assert_eq!(core.logical_processor_ids, vec![2 * k, 2 * k + 1]);
        assert_eq!(core.l1_instruction_cache.unwrap().size_bytes, 32768);
        assert_eq!(core.l1_data_cache.unwrap().size_bytes, 49152);
        assert_eq!(core.l2_cache.unwrap().size_bytes, 1048576);
    }
    let l3 = info.sockets[0].l3_cache.unwrap();
    assert_eq!(l3.size_bytes, 16384 * 1024);
    assert_eq!(l3.line_size_bytes, 64);
}

#[test]
fn linux_hybrid_six_performance_eight_efficiency() {
    let mut lps = Vec::new();
    // six performance cores with two threads each: processors 0 through 11
    for lp in 0..12usize {
        lps.push(linux_lp(lp, 0, lp / 2, Some("performance"), Vec::new()));
    }
    // eight efficiency cores with one thread each: processors 12 through 19
    for lp in 12..20usize {
        lps.push(linux_lp(lp, 0, 6 + (lp - 12), Some("efficiency"), Vec::new()));
    }
    let snapshot = LinuxSnapshot {
        online: b"0-19".to_vec(),
        lps,
        cpuinfo: Vec::new(),
        cpuid_vendor: Vendor::Intel,
        cpuid_model_name: "Hybrid Test Processor".to_string(),
        cpuid_features: CpuFeatures::empty(),
    };
    let info = gdt_cpus::linux::detect_cpu_info(&snapshot).unwrap();

    assert_eq!(info.total_performance_cores, 6);
    assert_eq!(info.total_efficiency_cores, 8);
    assert_eq!(info.total_logical_processors, 20);
    assert_eq!(info.total_physical_cores, 14);
    assert!(info.is_hybrid());

    let perf_mask = info.performance_core_mask();
    let eff_mask = info.efficiency_core_mask();
    assert_eq!(perf_mask.count(), 12);
    assert_eq!(eff_mask.count(), 8);
    assert!(perf_mask.contains(0));
    assert!(eff_mask.contains(12));
    assert!(perf_mask.intersection(&eff_mask).is_empty());
    assert_eq!(info.all_cores_mask().count(), 20);
}

#[test]
fn linux_rejects_malformed_online_list() {
    let snapshot = LinuxSnapshot {
        online: b"1-0".to_vec(),
        lps: Vec::new(),
        cpuinfo: Vec::new(),
        cpuid_vendor: Vendor::Unknown,
        cpuid_model_name: "Unknown".to_string(),
        cpuid_features: CpuFeatures::empty(),
    };
    assert!(matches!(
        gdt_cpus::linux::detect_cpu_info(&snapshot),
        Err(gdt_cpus::Error::Detection(_))
    ));
}

#[test]
fn linux_cpuinfo_fallback_fills_identification() {
    let cpuinfo = b"processor\t: 0\nvendor_id\t: GenuineIntel\nmodel name\t: Fallback CPU\nflags\t\t: mmx sse avx2\n\n".to_vec();
    let snapshot = LinuxSnapshot {
        online: b"0".to_vec(),
        lps: vec![linux_lp(0, 0, 0, None, Vec::new())],
        cpuinfo,
        cpuid_vendor: Vendor::Unknown,
        cpuid_model_name: "Unknown".to_string(),
        cpuid_features: CpuFeatures::empty(),
    };
    let info = gdt_cpus::linux::detect_cpu_info(&snapshot).unwrap();
    assert_eq!(info.vendor, Vendor::Intel);
    assert_eq!(info.model_name, "Fallback CPU");
    assert!(info.features.contains(CpuFeatures::MMX));
    assert!(info.features.contains(CpuFeatures::SSE));
    assert!(info.features.contains(CpuFeatures::AVX2));
}

#[test]
fn windows_two_sockets_eight_cores_each() {
    let mut records = Vec::new();
    // two packages of sixteen logical processors each, in one group
    records.push(SlpiRecord::Package {
        masks: vec![GroupMaskRec { group: 0, mask: 0xFFFF }],
    });
    records.push(SlpiRecord::Package {
        masks: vec![GroupMaskRec { group: 0, mask: 0xFFFF_0000 }],
    });
    for core in 0..16u32 {
        let mask = 0b11u64 << (2 * core);
        records.push(SlpiRecord::Core {
            efficiency_class: 0,
            masks: vec![GroupMaskRec { group: 0, mask }],
        });
        records.push(SlpiRecord::Cache {
            level: 1,
            kind: CacheType::Instruction,
            size_bytes: 32768,
            line_size_bytes: 64,
            group: 0,
            mask,
        });
        records.push(SlpiRecord::Cache {
            level: 1,
            kind: CacheType::Data,
            size_bytes: 49152,
            line_size_bytes: 64,
            group: 0,
            mask,
        });
        records.push(SlpiRecord::Cache {
            level: 2,
            kind: CacheType::Unified,
            size_bytes: 2097152,
            line_size_bytes: 64,
            group: 0,
            mask,
        });
    }
    records.push(SlpiRecord::Cache {
        level: 3,
        kind: CacheType::Unified,
        size_bytes: 33554432,
        line_size_bytes: 64,
        group: 0,
        mask: 0xFFFF,
    });
    records.push(SlpiRecord::Cache {
        level: 3,
        kind: CacheType::Unified,
        size_bytes: 33554432,
        line_size_bytes: 64,
        group: 0,
        mask: 0xFFFF_0000,
    });

    let snapshot = WindowsSnapshot {
        records,
        cpuid_vendor: Vendor::Intel,
        cpuid_model_name: "Two Socket Test".to_string(),
        cpuid_features: CpuFeatures::empty(),
        registry_name: None,
        registry_identifier: None,
        registry_vendor: None,
    };
    let info = gdt_cpus::windows::detect_cpu_info(&snapshot).unwrap();

    assert_eq!(info.sockets.len(), 2);
    assert_eq!(info.total_physical_cores, 16);
    assert_eq!(info.total_logical_processors, 32);
    for (k, socket) in info.sockets.iter().enumerate() {
        assert_eq!(socket.id, k);
        assert_eq!(socket.cores.len(), 8);
        assert!(socket.l3_cache.is_some());
        for core in &socket.cores {
            assert_eq!(core.socket_id, k);
            assert!(core.l1_instruction_cache.is_some());
            assert!(core.l1_data_cache.is_some());
            assert!(core.l2_cache.is_some());
            assert_eq!(core.logical_processor_ids.len(), 2);
        }
    }
    // every core reported class zero, so the distinction is meaningless
    assert_eq!(info.total_performance_cores, 16);
    assert_eq!(info.total_efficiency_cores, 0);
}

#[test]
fn macos_m1_pro_eight_performance_two_efficiency() {
    let snapshot = MacSnapshot {
        packages: Some(1),
        physical_cpu: Some(10),
        logical_cpu: Some(10),
        cache_line_size: Some(128),
        perf_level0_physical: Some(8),
        perf_level1_physical: Some(2),
        perf_level0_caches: PerfLevelCaches {
            l1i_size: Some(196608),
            l1d_size: Some(131072),
            l2_size: Some(12582912),
            cpus_per_l2: Some(4),
        },
        perf_level1_caches: PerfLevelCaches {
            l1i_size: Some(131072),
            l1d_size: Some(65536),
            l2_size: Some(4194304),
            cpus_per_l2: Some(2),
        },
        l1i_total: None,
        l1d_total: None,
        l2_total: None,
        l3_total: None,
        brand_string: Some("Apple M1 Pro".to_string()),
        vendor_string: Some("Apple".to_string()),
        feat_neon: true,
        feat_aes: true,
        feat_sha: true,
        feat_crc32: true,
        feat_sme: false,
        cpuid_vendor: Vendor::Unknown,
        cpuid_model_name: "Unknown".to_string(),
        cpuid_features: CpuFeatures::empty(),
    };
    let info = gdt_cpus::macos::detect_cpu_info(&snapshot).unwrap();

    assert_eq!(info.vendor, Vendor::Apple);
    assert_eq!(info.model_name, "Apple M1 Pro");
    assert_eq!(info.sockets.len(), 1);
    assert_eq!(info.total_physical_cores, 10);
    assert_eq!(info.total_logical_processors, 10);
    assert_eq!(info.total_performance_cores, 8);
    assert_eq!(info.total_efficiency_cores, 2);
    assert!(info.is_hybrid());
    assert!(info.features.contains(CpuFeatures::NEON));
    assert!(info.sockets[0].l3_cache.is_none());
    let cores = &info.sockets[0].cores;
    assert_eq!(cores.len(), 10);
    for (k, core) in cores.iter().enumerate() {
        assert_eq!(core.logical_processor_ids.len(), 1);
        if k < 8 {
            assert_eq!(core.core_type, CoreType::Performance);
            assert_eq!(core.l2_cache.unwrap().size_bytes, 12582912);
        } else {
            assert_eq!(core.core_type, CoreType::Efficiency);
            assert_eq!(core.l2_cache.unwrap().size_bytes, 4194304);
        }
    }
    // pinning is never honoured on Apple Silicon
    let pin = gdt_cpus::pin_thread_plan(
        gdt_cpus::Platform::MacOs,
        gdt_cpus::Arch::Aarch64,
        3,
        1024,
    );
    assert!(matches!(pin, Err(gdt_cpus::Error::Unsupported(_))));
}

#[test]
fn macos_reports_detection_error_without_physical_cores() {
    let snapshot = MacSnapshot {
        packages: Some(1),
        physical_cpu: Some(0),
        logical_cpu: Some(0),
        cache_line_size: None,
        perf_level0_physical: None,
        perf_level1_physical: None,
        perf_level0_caches: PerfLevelCaches {
            l1i_size: None,
            l1d_size: None,
            l2_size: None,
            cpus_per_l2: None,
        },
        perf_level1_caches: PerfLevelCaches {
            l1i_size: None,
            l1d_size: None,
            l2_size: None,
            cpus_per_l2: None,
        },
        l1i_total: None,
        l1d_total: None,
        l2_total: None,
        l3_total: None,
        brand_string: None,
        vendor_string: None,
        feat_neon: false,
        feat_aes: false,
        feat_sha: false,
        feat_crc32: false,
        feat_sme: false,
        cpuid_vendor: Vendor::Unknown,
        cpuid_model_name: "Unknown".to_string(),
        cpuid_features: CpuFeatures::empty(),
    };
    assert!(matches!(
        gdt_cpus::macos::detect_cpu_info(&snapshot),
        Err(gdt_cpus::Error::Detection(_))
    ));
}

#[test]
fn logical_processor_ids_flatten_in_order() {
    let mut lps = Vec::new();
    for lp in 0..4usize {
        lps.push(linux_lp(lp, 0, lp / 2, None, Vec::new()));
    }
    let snapshot = LinuxSnapshot {
        online: b"0-3".to_vec(),
        lps,
        cpuinfo: Vec::new(),
        cpuid_vendor: Vendor::Amd,
        cpuid_model_name: "Flat Test".to_string(),
        cpuid_features: CpuFeatures::empty(),
    };
    let info = gdt_cpus::linux::detect_cpu_info(&snapshot).unwrap();
    assert_eq!(info.logical_processor_ids(), vec![0, 1, 2, 3]);
    assert_eq!(info.num_physical_cores(), 2);
    assert_eq!(info.num_logical_cores(), 4);
    assert_eq!(info.num_performance_cores(), 2);
    assert_eq!(info.num_efficiency_cores(), 0);
    assert_eq!(
        info.cores_by_type_mask(CoreType::Efficiency).count(),
        0
    );
}

#[test]
fn macos_uneven_thread_distribution_keeps_every_core_populated() {
    let snapshot = MacSnapshot {
        packages: Some(1),
        physical_cpu: Some(3),
        logical_cpu: Some(4),
        cache_line_size: Some(64),
        perf_level0_physical: None,
        perf_level1_physical: None,
        perf_level0_caches: PerfLevelCaches {
            l1i_size: None,
            l1d_size: None,
            l2_size: None,
            cpus_per_l2: None,
        },
        perf_level1_caches: PerfLevelCaches {
            l1i_size: None,
            l1d_size: None,
            l2_size: None,
            cpus_per_l2: None,
        },
        l1i_total: Some(98304),
        l1d_total: Some(98304),
        l2_total: Some(786432),
        l3_total: Some(8388608),
        brand_string: Some("Intel Test Processor".to_string()),
        vendor_string: Some("GenuineIntel".to_string()),
        feat_neon: false,
        feat_aes: false,
        feat_sha: false,
        feat_crc32: false,
        feat_sme: false,
        cpuid_vendor: Vendor::Intel,
        cpuid_model_name: "Intel Test Processor".to_string(),
        cpuid_features: CpuFeatures::from_bits(CpuFeatures::SSE2),
    };
    let info = gdt_cpus::macos::detect_cpu_info(&snapshot).unwrap();
    assert_eq!(info.total_physical_cores, 3);
    assert_eq!(info.total_logical_processors, 4);
    let cores = &info.sockets[0].cores;
    assert_eq!(cores[0].logical_processor_ids, vec![0, 1]);
    assert_eq!(cores[1].logical_processor_ids, vec![2]);
    assert_eq!(cores[2].logical_processor_ids, vec![3]);
    // no performance levels reported: all cores count as performance
    assert_eq!(info.total_performance_cores, 3);
    assert_eq!(info.total_efficiency_cores, 0);
    // the machine-wide level-one and level-two sizes split per core
    assert_eq!(cores[0].l1_data_cache.unwrap().size_bytes, 32768);
    assert_eq!(cores[0].l2_cache.unwrap().size_bytes, 262144);
    assert_eq!(info.sockets[0].l3_cache.unwrap().size_bytes, 8388608);
}

#[test]
fn linux_drops_processors_without_topology_files() {
    let mut lps = vec![
        linux_lp(0, 0, 0, None, Vec::new()),
        linux_lp(1, 0, 0, None, Vec::new()),
    ];
    lps.push(LpRecord { lp_id: 2, topology: None });
    let snapshot = LinuxSnapshot {
        online: b"0-2".to_vec(),
        lps,
        cpuinfo: Vec::new(),
        cpuid_vendor: Vendor::Amd,
        cpuid_model_name: "Partial Test".to_string(),
        cpuid_features: CpuFeatures::empty(),
    };
    let info = gdt_cpus::linux::detect_cpu_info(&snapshot).unwrap();
    assert_eq!(info.total_physical_cores, 1);
    assert_eq!(info.total_logical_processors, 2);
    assert_eq!(info.sockets[0].cores[0].logical_processor_ids, vec![0, 1]);
}

#[test]
fn linux_unified_level_one_cache_fills_both_slots() {
    let caches = vec![cache_raw("1", "Unified", "64K", "64")];
    let snapshot = LinuxSnapshot {
        online: b"0".to_vec(),
        lps: vec![linux_lp(0, 0, 0, None, caches)],
        cpuinfo: Vec::new(),
        cpuid_vendor: Vendor::Intel,
        cpuid_model_name: "Unified Cache Test".to_string(),
        cpuid_features: CpuFeatures::empty(),
    };
    let info = gdt_cpus::linux::detect_cpu_info(&snapshot).unwrap();
    let core = &info.sockets[0].cores[0];
    assert_eq!(core.l1_instruction_cache.unwrap().size_bytes, 65536);
    assert_eq!(core.l1_data_cache.unwrap().size_bytes, 65536);
    assert!(core.l2_cache.is_none());
}

#[test]
fn linux_first_cache_wins_and_zero_sizes_are_discarded() {
    let caches = vec![
        cache_raw("2", "Unified", "0", "64"),
        cache_raw("2", "Unified", "512K", "64"),
        cache_raw("2", "Unified", "1024K", "64"),
    ];
    let snapshot = LinuxSnapshot {
        online: b"0".to_vec(),
        lps: vec![linux_lp(0, 0, 0, None, caches)],
        cpuinfo: Vec::new(),
        cpuid_vendor: Vendor::Intel,
        cpuid_model_name: "Cache Priority Test".to_string(),
        cpuid_features: CpuFeatures::empty(),
    };
    let info = gdt_cpus::linux::detect_cpu_info(&snapshot).unwrap();
    let core = &info.sockets[0].cores[0];
    // the zero-sized entry is discarded, the first valid entry wins
    assert_eq!(core.l2_cache.unwrap().size_bytes, 524288);
}

#[test]
fn windows_duplicate_core_records_are_realised_once() {
    let core_mask = GroupMaskRec { group: 0, mask: 0b11 };
    let records = vec![
        SlpiRecord::Package { masks: vec![GroupMaskRec { group: 0, mask: 0b11 }] },
        SlpiRecord::Core { efficiency_class: 1, masks: vec![core_mask] },
        SlpiRecord::Core { efficiency_class: 1, masks: vec![core_mask] },
    ];
    let snapshot = WindowsSnapshot {
        records,
        cpuid_vendor: Vendor::Intel,
        cpuid_model_name: "Duplicate Record Test".to_string(),
        cpuid_features: CpuFeatures::empty(),
        registry_name: None,
        registry_identifier: None,
        registry_vendor: None,
    };
    let info = gdt_cpus::windows::detect_cpu_info(&snapshot).unwrap();
    assert_eq!(info.total_physical_cores, 1);
    assert_eq!(info.total_logical_processors, 2);
}

#[test]
fn windows_hybrid_classes_follow_the_documented_convention() {
    // one core with a non-zero class and one with zero: the zero-class
    // core is the efficiency core
    let records = vec![
        SlpiRecord::Package { masks: vec![GroupMaskRec { group: 0, mask: 0b1111 }] },
        SlpiRecord::Core {
            efficiency_class: 1,
            masks: vec![GroupMaskRec { group: 0, mask: 0b0011 }],
        },
        SlpiRecord::Core {
            efficiency_class: 0,
            masks: vec![GroupMaskRec { group: 0, mask: 0b1100 }],
        },
    ];
    let snapshot = WindowsSnapshot {
        records,
        cpuid_vendor: Vendor::Intel,
        cpuid_model_name: "Hybrid Convention Test".to_string(),
        cpuid_features: CpuFeatures::empty(),
        registry_name: None,
        registry_identifier: None,
        registry_vendor: None,
    };
    let info = gdt_cpus::windows::detect_cpu_info(&snapshot).unwrap();
    assert_eq!(info.total_performance_cores, 1);
    assert_eq!(info.total_efficiency_cores, 1);
    assert!(info.is_hybrid());
    assert_eq!(info.sockets[0].cores[0].core_type, CoreType::Performance);
    assert_eq!(info.sockets[0].cores[1].core_type, CoreType::Efficiency);
}

#[test]
fn windows_registry_fallback_fills_identification() {
    let records = vec![
        SlpiRecord::Package { masks: vec![GroupMaskRec { group: 0, mask: 0b1 }] },
        SlpiRecord::Core {
            efficiency_class: 0,
            masks: vec![GroupMaskRec { group: 0, mask: 0b1 }],
        },
    ];
    let snapshot = WindowsSnapshot {
        records,
        cpuid_vendor: Vendor::Unknown,
        cpuid_model_name: "Unknown".to_string(),
        cpuid_features: CpuFeatures::empty(),
        registry_name: Some(b"Registry Test Processor".to_vec()),
        registry_identifier: Some(b"ARMv8 (64-bit) Family 8".to_vec()),
        registry_vendor: None,
    };
    let info = gdt_cpus::windows::detect_cpu_info(&snapshot).unwrap();
    assert_eq!(info.model_name, "Registry Test Processor");
    assert_eq!(info.vendor, Vendor::Arm);
}

#[test]
fn macos_fallback_fills_only_missing_fields() {
    // the instruction-level query knew the vendor and the features but
    // not the model name: the fallback must fill the name without
    // discarding the features already found
    let snapshot = MacSnapshot {
        packages: Some(1),
        physical_cpu: Some(2),
        logical_cpu: Some(4),
        cache_line_size: Some(64),
        perf_level0_physical: None,
        perf_level1_physical: None,
        perf_level0_caches: PerfLevelCaches {
            l1i_size: None,
            l1d_size: None,
            l2_size: None,
            cpus_per_l2: None,
        },
        perf_level1_caches: PerfLevelCaches {
            l1i_size: None,
            l1d_size: None,
            l2_size: None,
            cpus_per_l2: None,
        },
        l1i_total: None,
        l1d_total: None,
        l2_total: None,
        l3_total: None,
        brand_string: Some("Intel Fallback Test".to_string()),
        vendor_string: Some("GenuineIntel".to_string()),
        feat_neon: false,
        feat_aes: false,
        feat_sha: false,
        feat_crc32: false,
        feat_sme: false,
        cpuid_vendor: Vendor::Intel,
        cpuid_model_name: "Unknown".to_string(),
        cpuid_features: CpuFeatures::from_bits(CpuFeatures::AVX2 | CpuFeatures::SSE2),
    };
    let info = gdt_cpus::macos::detect_cpu_info(&snapshot).unwrap();
    assert_eq!(info.vendor, Vendor::Intel);
    assert_eq!(info.model_name, "Intel Fallback Test");
    assert!(info.features.contains(CpuFeatures::AVX2));
    assert!(info.features.contains(CpuFeatures::SSE2));
}
