use gdt_cpus::AffinityMask;
use gdt_cpus::Arch;
use gdt_cpus::Error;
use gdt_cpus::PlacementAction;
use gdt_cpus::Platform;
use gdt_cpus::SchedulingPolicy;
use gdt_cpus::SysCallOutcome;
use gdt_cpus::ThreadPriority;
use gdt_cpus::pin_thread_plan;
use gdt_cpus::thread_affinity_plan;

const EPERM: i32 = 1;
const ESRCH: i32 = 3;
const EINVAL: i32 = 22;

#[test]
fn empty_mask_fails_affinity_on_every_platform() {
    let empty = AffinityMask::empty();
    let lps: Vec<usize> = vec![0, 1, 2, 3];
    for platform in [Platform::Linux, Platform::Windows, Platform::MacOs] {
        let r = thread_affinity_plan(platform, &empty, &lps, 1024);
        assert!(matches!(r, Err(Error::Affinity(_))));
    }
}

#[test]
fn macos_mask_affinity_is_unsupported() {
    let mask = AffinityMask::from_cores(&[0, 1]);
    let lps: Vec<usize> = vec![0, 1, 2, 3];
    let r = thread_affinity_plan(Platform::MacOs, &mask, &lps, 1024);
    assert!(matches!(r, Err(Error::Unsupported(_))));
}

#[test]
fn linux_mask_affinity_maps_indices_to_os_ids() {
    let mask = AffinityMask::from_cores(&[0, 2]);
    let lps: Vec<usize> = vec![10, 11, 12, 13];
    let r = thread_affinity_plan(Platform::Linux, &mask, &lps, 1024).unwrap();
    match r {
        PlacementAction::LinuxCpuSet { cpus } => assert_eq!(cpus, vec![10, 12]),
        _ => panic!("expected a CPU-set action"),
    }
}

#[test]
fn linux_mask_affinity_rejects_mask_with_no_valid_index() {
    let mask = AffinityMask::from_cores(&[9]);
    let lps: Vec<usize> = vec![10, 11];
    let r = thread_affinity_plan(Platform::Linux, &mask, &lps, 1024);
    assert!(matches!(r, Err(Error::Affinity(_))));
}

#[test]
fn windows_mask_affinity_uses_low_word() {
    let mask = AffinityMask::from_cores(&[0, 1, 5]);
    let lps: Vec<usize> = vec![0, 1, 2, 3, 4, 5];
    let r = thread_affinity_plan(Platform::Windows, &mask, &lps, 1024).unwrap();
    match r {
        PlacementAction::WindowsAffinityMask { mask } => assert_eq!(mask, 0b100011),
        _ => panic!("expected a raw-mask action"),
    }
    let high = AffinityMask::from_cores(&[70]);
    let r = thread_affinity_plan(Platform::Windows, &high, &lps, 1024);
    assert!(matches!(r, Err(Error::Affinity(_))));
}

#[test]
fn macos_aarch64_pin_is_unsupported_for_any_id() {
    for id in [0usize, 5, 63, 64, 1000] {
        let r = pin_thread_plan(Platform::MacOs, Arch::Aarch64, id, 1024);
        assert!(matches!(r, Err(Error::Unsupported(_))));
    }
}

#[test]
fn windows_pin_caps_at_sixty_four_processors() {
    let r = pin_thread_plan(Platform::Windows, Arch::X86_64, 63, 1024).unwrap();
    match r {
        PlacementAction::WindowsAffinityMask { mask } => assert_eq!(mask, 1u64 << 63),
        _ => panic!("expected a raw-mask action"),
    }
    let r = pin_thread_plan(Platform::Windows, Arch::X86_64, 64, 1024);
    assert!(matches!(r, Err(Error::InvalidCoreId(64))));
}

#[test]
fn linux_pin_builds_single_cpu_set() {
    let r = pin_thread_plan(Platform::Linux, Arch::X86_64, 2, 1024).unwrap();
    match r {
        PlacementAction::LinuxCpuSet { cpus } => assert_eq!(cpus, vec![2]),
        _ => panic!("expected a CPU-set action"),
    }
    let r = pin_thread_plan(Platform::Linux, Arch::X86_64, 5000, 1024);
    assert!(matches!(r, Err(Error::InvalidCoreId(5000))));
}

#[test]
fn macos_x86_pin_uses_affinity_tag() {
    let r = pin_thread_plan(Platform::MacOs, Arch::X86_64, 3, 1024).unwrap();
    match r {
        PlacementAction::MacAffinityTag { tag } => assert_eq!(tag, 4),
        _ => panic!("expected an affinity-tag action"),
    }
}

#[test]
fn rt_refusal_degrades_to_default_policy() {
    // the scheduler refuses the round-robin policy, the nice-0 retry
    // succeeds: the call reports success
    let r = gdt_cpus::rt_final_result(
        99,
        EPERM,
        "SCHED_RR was refused".to_string(),
        Some(SysCallOutcome::Success),
    );
    assert!(r.is_ok());
}

#[test]
fn rt_refusal_with_failed_retry_reports_permission_denied() {
    // both attempts are refused: the permission error carries the
    // original real-time attempt's text, not the retry's
    let r = gdt_cpus::rt_final_result(
        99,
        EPERM,
        "SCHED_RR was refused".to_string(),
        Some(SysCallOutcome::Fail { errno: EPERM }),
    );
    match r {
        Err(Error::PermissionDenied(msg)) => assert_eq!(msg, "SCHED_RR was refused"),
        other => panic!("expected a permission error, got {:?}", other),
    }
}

#[test]
fn rt_outcomes_map_to_error_kinds() {
    let text = || "SCHED_RR failed".to_string();
    assert!(gdt_cpus::rt_final_result(97, 0, text(), None).is_ok());
    assert!(matches!(
        gdt_cpus::rt_final_result(97, EINVAL, text(), None),
        Err(Error::InvalidParameter(_))
    ));
    assert!(matches!(
        gdt_cpus::rt_final_result(97, ESRCH, text(), None),
        Err(Error::NotFound(_))
    ));
    assert!(matches!(
        gdt_cpus::rt_final_result(97, 99, text(), None),
        Err(Error::SystemCall(_))
    ));
}

#[test]
fn negative_nice_refusal_retries_at_zero() {
    assert!(gdt_cpus::nice_needs_fallback(-5, SysCallOutcome::Fail { errno: EPERM }));
    assert!(!gdt_cpus::nice_needs_fallback(10, SysCallOutcome::Fail { errno: EPERM }));
    assert!(!gdt_cpus::nice_needs_fallback(-5, SysCallOutcome::Success));

    let ok = gdt_cpus::nice_final_result(
        -5,
        SysCallOutcome::Fail { errno: EPERM },
        Some(SysCallOutcome::Success),
    );
    assert!(ok.is_ok());
    let denied = gdt_cpus::nice_final_result(
        -5,
        SysCallOutcome::Fail { errno: EPERM },
        Some(SysCallOutcome::Fail { errno: EPERM }),
    );
    assert!(matches!(denied, Err(Error::PermissionDenied(_))));
}

#[test]
fn nice_outcomes_map_to_error_kinds() {
    assert!(gdt_cpus::nice_final_result(0, SysCallOutcome::Success, None).is_ok());
    assert!(matches!(
        gdt_cpus::nice_final_result(19, SysCallOutcome::Fail { errno: EPERM }, None),
        Err(Error::PermissionDenied(_))
    ));
    assert!(matches!(
        gdt_cpus::nice_final_result(0, SysCallOutcome::Fail { errno: ESRCH }, None),
        Err(Error::NotFound(_))
    ));
    assert!(matches!(
        gdt_cpus::nice_final_result(0, SysCallOutcome::Fail { errno: EINVAL }, None),
        Err(Error::InvalidParameter(_))
    ));
    assert!(matches!(
        gdt_cpus::nice_final_result(0, SysCallOutcome::Fail { errno: 77 }, None),
        Err(Error::SystemCall(_))
    ));
}

#[test]
fn priority_policy_tables_match_the_documented_mapping() {
    assert_eq!(
        SchedulingPolicy::default_for(Platform::Linux, ThreadPriority::Normal),
        SchedulingPolicy::Nice { value: 0 }
    );
    assert_eq!(
        SchedulingPolicy::default_for(Platform::Linux, ThreadPriority::Background),
        SchedulingPolicy::Nice { value: 19 }
    );
    assert_eq!(
        SchedulingPolicy::default_for(Platform::Linux, ThreadPriority::AboveNormal),
        SchedulingPolicy::Nice { value: -5 }
    );
    assert_eq!(
        SchedulingPolicy::default_for(Platform::Linux, ThreadPriority::Highest),
        SchedulingPolicy::Realtime { priority: 97 }
    );
    assert_eq!(
        SchedulingPolicy::default_for(Platform::Linux, ThreadPriority::TimeCritical),
        SchedulingPolicy::Realtime { priority: 99 }
    );
    assert_eq!(
        SchedulingPolicy::default_for(Platform::Windows, ThreadPriority::TimeCritical),
        SchedulingPolicy::WindowsPriority { value: 15 }
    );
    assert_eq!(
        SchedulingPolicy::default_for(Platform::Windows, ThreadPriority::Background),
        SchedulingPolicy::WindowsPriority { value: -15 }
    );
    assert_eq!(
        SchedulingPolicy::default_for(Platform::MacOs, ThreadPriority::Highest),
        SchedulingPolicy::Realtime { priority: 43 }
    );
    assert_eq!(
        SchedulingPolicy::default_for(Platform::MacOs, ThreadPriority::Normal),
        SchedulingPolicy::Qos { class: 0x19, relative_priority: 0 }
    );

    let table = SchedulingPolicy::default_mappings(Platform::Linux);
    assert_eq!(table.len(), 7);
    assert_eq!(
        table[ThreadPriority::Normal.index()],
        SchedulingPolicy::default_for(Platform::Linux, ThreadPriority::Normal)
    );
}

#[test]
fn rt_priority_is_clamped_to_the_reported_range() {
    assert_eq!(gdt_cpus::clamp_rt_priority(99, 1, 47), 47);
    assert_eq!(gdt_cpus::clamp_rt_priority(0, 1, 47), 1);
    assert_eq!(gdt_cpus::clamp_rt_priority(43, 1, 47), 43);
}

#[test]
fn default_priority_is_normal() {
    assert_eq!(ThreadPriority::default(), ThreadPriority::Normal);
    assert!(ThreadPriority::Background < ThreadPriority::TimeCritical);
}
