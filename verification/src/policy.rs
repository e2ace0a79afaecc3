//! Thread placement policy: the per-platform mapping of the seven
//! priority levels onto scheduling surfaces, and the decision rules the
//! runtime follows when the OS refuses a request — notably the
//! documented Linux degradation from a real-time policy to the default
//! policy at nice 0.

use vstd::prelude::*;

use crate::error::Error;
use crate::priority::ThreadPriority;

verus! {

/// `errno` for an operation refused for lack of privileges.
pub const EPERM: i32 = 1;

/// `errno` for a thread or process that does not exist.
pub const ESRCH: i32 = 3;

/// `errno` for an invalid argument.
pub const EINVAL: i32 = 22;

/// The operating systems the library distinguishes.
#[derive(Debug, Clone, Copy, PartialEq, Eq, Hash, Structural)]
pub enum Platform {
    /// Linux.
    Linux,
    /// Windows.
    Windows,
    /// macOS.
    MacOs,
}

/// The instruction-set architectures the library distinguishes.
#[derive(Debug, Clone, Copy, PartialEq, Eq, Hash, Structural)]
pub enum Arch {
    /// 64-bit x86.
    X86_64,
    /// 64-bit Arm.
    Aarch64,
}

/// How one priority level is realised on one platform.
#[derive(Debug, Clone, Copy, PartialEq, Eq, Hash, Structural)]
pub enum SchedulingPolicy {
    /// Linux default scheduling with the given nice value.
    Nice {
        /// The nice value, minus twenty (highest) to nineteen (lowest).
        value: i32,
    },
    /// A round-robin real-time policy with an absolute priority.
    Realtime {
        /// The absolute priority before clamping to the platform range.
        priority: i32,
    },
    /// A macOS quality-of-service class.
    Qos {
        /// The raw QoS class constant.
        class: u32,
        /// The relative priority within the class.
        relative_priority: i32,
    },
    /// A Windows thread priority constant.
    WindowsPriority {
        /// The raw priority value handed to the OS.
        value: i32,
    },
}

/// The raw macOS QoS class for background work.
pub const QOS_CLASS_BACKGROUND: u32 = 0x09;

/// The raw macOS QoS class for utility work.
pub const QOS_CLASS_UTILITY: u32 = 0x11;

/// The raw macOS default QoS class.
pub const QOS_CLASS_DEFAULT: u32 = 0x15;

/// The raw macOS QoS class for user-initiated work.
pub const QOS_CLASS_USER_INITIATED: u32 = 0x19;

/// The raw macOS QoS class for user-interactive work.
pub const QOS_CLASS_USER_INTERACTIVE: u32 = 0x21;

/// The policy a priority level maps to on Linux: nice values for the
/// ordinary levels, round-robin real time for the top two.
pub open spec fn spec_linux_policy(p: ThreadPriority) -> SchedulingPolicy {
    match p {
        ThreadPriority::Background => SchedulingPolicy::Nice { value: 19 },
        ThreadPriority::Lowest => SchedulingPolicy::Nice { value: 15 },
        ThreadPriority::BelowNormal => SchedulingPolicy::Nice { value: 10 },
        ThreadPriority::Normal => SchedulingPolicy::Nice { value: 0 },
        ThreadPriority::AboveNormal => SchedulingPolicy::Nice { value: -5i32 },
        ThreadPriority::Highest => SchedulingPolicy::Realtime { priority: 97 },
        ThreadPriority::TimeCritical => SchedulingPolicy::Realtime { priority: 99 },
    }
}

/// The policy a priority level maps to on Windows: the documented
/// thread priority constants, idle through time critical.
pub open spec fn spec_windows_policy(p: ThreadPriority) -> SchedulingPolicy {
    match p {
        ThreadPriority::Background => SchedulingPolicy::WindowsPriority { value: -15i32 },
        ThreadPriority::Lowest => SchedulingPolicy::WindowsPriority { value: -2i32 },
        ThreadPriority::BelowNormal => SchedulingPolicy::WindowsPriority { value: -1i32 },
        ThreadPriority::Normal => SchedulingPolicy::WindowsPriority { value: 0 },
        ThreadPriority::AboveNormal => SchedulingPolicy::WindowsPriority { value: 1 },
        ThreadPriority::Highest => SchedulingPolicy::WindowsPriority { value: 2 },
        ThreadPriority::TimeCritical => SchedulingPolicy::WindowsPriority { value: 15 },
    }
}

/// The policy a priority level maps to on macOS: QoS classes for the
/// ordinary levels, round-robin real time for the top two.
pub open spec fn spec_macos_policy(p: ThreadPriority) -> SchedulingPolicy {
    match p {
        ThreadPriority::Background => SchedulingPolicy::Qos {
            class: QOS_CLASS_BACKGROUND,
            relative_priority: 0,
        },
        ThreadPriority::Lowest => SchedulingPolicy::Qos {
            class: QOS_CLASS_UTILITY,
            relative_priority: 0,
        },
        ThreadPriority::BelowNormal => SchedulingPolicy::Qos {
            class: QOS_CLASS_DEFAULT,
            relative_priority: 0,
        },
        ThreadPriority::Normal => SchedulingPolicy::Qos {
            class: QOS_CLASS_USER_INITIATED,
            relative_priority: 0,
        },
        ThreadPriority::AboveNormal => SchedulingPolicy::Qos {
            class: QOS_CLASS_USER_INTERACTIVE,
            relative_priority: 0,
        },
        ThreadPriority::Highest => SchedulingPolicy::Realtime { priority: 43 },
        ThreadPriority::TimeCritical => SchedulingPolicy::Realtime { priority: 47 },
    }
}

/// The policy a priority level maps to on the given platform.
pub open spec fn spec_policy_for(platform: Platform, p: ThreadPriority) -> SchedulingPolicy {
    match platform {
        Platform::Linux => spec_linux_policy(p),
        Platform::Windows => spec_windows_policy(p),
        Platform::MacOs => spec_macos_policy(p),
    }
}

impl SchedulingPolicy {
    /// The policy the given platform uses for the given level.
    pub fn default_for(platform: Platform, priority: ThreadPriority) -> (r: SchedulingPolicy)
        ensures
            r == spec_policy_for(platform, priority),
    {
        match platform {
            Platform::Linux => match priority {
                ThreadPriority::Background => SchedulingPolicy::Nice { value: 19 },
                ThreadPriority::Lowest => SchedulingPolicy::Nice { value: 15 },
                ThreadPriority::BelowNormal => SchedulingPolicy::Nice { value: 10 },
                ThreadPriority::Normal => SchedulingPolicy::Nice { value: 0 },
                ThreadPriority::AboveNormal => SchedulingPolicy::Nice { value: -5 },
                ThreadPriority::Highest => SchedulingPolicy::Realtime { priority: 97 },
                ThreadPriority::TimeCritical => SchedulingPolicy::Realtime { priority: 99 },
            },
            Platform::Windows => match priority {
                ThreadPriority::Background => SchedulingPolicy::WindowsPriority { value: -15 },
                ThreadPriority::Lowest => SchedulingPolicy::WindowsPriority { value: -2 },
                ThreadPriority::BelowNormal => SchedulingPolicy::WindowsPriority { value: -1 },
                ThreadPriority::Normal => SchedulingPolicy::WindowsPriority { value: 0 },
                ThreadPriority::AboveNormal => SchedulingPolicy::WindowsPriority { value: 1 },
                ThreadPriority::Highest => SchedulingPolicy::WindowsPriority { value: 2 },
                ThreadPriority::TimeCritical => SchedulingPolicy::WindowsPriority { value: 15 },
            },
            Platform::MacOs => match priority {
                ThreadPriority::Background => SchedulingPolicy::Qos {
                    class: QOS_CLASS_BACKGROUND,
                    relative_priority: 0,
                },
                ThreadPriority::Lowest => SchedulingPolicy::Qos {
                    class: QOS_CLASS_UTILITY,
                    relative_priority: 0,
                },
                ThreadPriority::BelowNormal => SchedulingPolicy::Qos {
                    class: QOS_CLASS_DEFAULT,
                    relative_priority: 0,
                },
                ThreadPriority::Normal => SchedulingPolicy::Qos {
                    class: QOS_CLASS_USER_INITIATED,
                    relative_priority: 0,
                },
                ThreadPriority::AboveNormal => SchedulingPolicy::Qos {
                    class: QOS_CLASS_USER_INTERACTIVE,
                    relative_priority: 0,
                },
                ThreadPriority::Highest => SchedulingPolicy::Realtime { priority: 43 },
                ThreadPriority::TimeCritical => SchedulingPolicy::Realtime { priority: 47 },
            },
        }
    }

    /// The seven policies of a platform, indexed by priority level,
    /// lowest first.
    pub fn default_mappings(platform: Platform) -> (r: Vec<SchedulingPolicy>)
        ensures
            r@.len() == 7,
            forall|p: ThreadPriority| r@[p.spec_index()] == spec_policy_for(platform, p),
    {
        let mut r: Vec<SchedulingPolicy> = Vec::new();
        r.push(SchedulingPolicy::default_for(platform, ThreadPriority::Background));
        r.push(SchedulingPolicy::default_for(platform, ThreadPriority::Lowest));
        r.push(SchedulingPolicy::default_for(platform, ThreadPriority::BelowNormal));
        r.push(SchedulingPolicy::default_for(platform, ThreadPriority::Normal));
        r.push(SchedulingPolicy::default_for(platform, ThreadPriority::AboveNormal));
        r.push(SchedulingPolicy::default_for(platform, ThreadPriority::Highest));
        r.push(SchedulingPolicy::default_for(platform, ThreadPriority::TimeCritical));
        r
    }
}

/// Clamps a requested real-time priority into the range the platform
/// reported for the round-robin policy.
pub fn clamp_rt_priority(priority: i32, rt_min: i32, rt_max: i32) -> (r: i32)
    requires
        rt_min <= rt_max,
    ensures
        r == if priority < rt_min {
            rt_min
        } else if priority > rt_max {
            rt_max
        } else {
            priority
        },
        rt_min <= r <= rt_max,
{
    if priority < rt_min {
        rt_min
    } else if priority > rt_max {
        rt_max
    } else {
        priority
    }
}

/// What one scheduling system call came back with.
#[derive(Debug, Clone, Copy, PartialEq, Eq, Hash, Structural)]
pub enum SysCallOutcome {
    /// The call succeeded.
    Success,
    /// The call failed and set the given `errno`.
    Fail {
        /// The `errno` the call set.
        errno: i32,
    },
}

/// Whether a failed attempt to set a nice value must be retried at
/// nice 0: only a permission refusal of a negative (privileged) value
/// is, as documented for the Linux backend.
pub fn nice_needs_fallback(nice_value: i32, outcome: SysCallOutcome) -> (r: bool)
    ensures
        r == (outcome == (SysCallOutcome::Fail { errno: EPERM }) && nice_value < 0),
{
    match outcome {
        SysCallOutcome::Success => false,
        SysCallOutcome::Fail { errno } => errno == EPERM && nice_value < 0,
    }
}

/// The result the Linux backend reports after trying to set a nice
/// value, given the first call's outcome and, where the documented
/// nice-0 retry applied, the retry's outcome. A permission refusal of
/// a negative value succeeds when the retry succeeded and otherwise
/// propagates the original refusal; every other failure maps to its
/// error kind directly.
pub fn nice_final_result(
    nice_value: i32,
    first: SysCallOutcome,
    fallback: Option<SysCallOutcome>,
) -> (r: Result<(), Error>)
    ensures
        first is Success ==> r is Ok,
        (first == (SysCallOutcome::Fail { errno: EPERM }) && nice_value < 0) ==> (match fallback {
            Some(SysCallOutcome::Success) => r is Ok,
            _ => r matches Err(e) && e is PermissionDenied,
        }),
        (first == (SysCallOutcome::Fail { errno: EPERM }) && nice_value >= 0) ==> (r matches Err(e)
            && e is PermissionDenied),
        (first matches SysCallOutcome::Fail { errno } && errno == ESRCH) ==> (r matches Err(e)
            && e is NotFound),
        (first matches SysCallOutcome::Fail { errno } && errno == EINVAL) ==> (r matches Err(e)
            && e is InvalidParameter),
        (first matches SysCallOutcome::Fail { errno } && errno != EPERM && errno != ESRCH && errno
            != EINVAL) ==> (r matches Err(e) && e is SystemCall),
{
    match first {
        SysCallOutcome::Success => Ok(()),
        SysCallOutcome::Fail { errno } => {
            if errno == EPERM {
                if nice_value < 0 {
                    match fallback {
                        Some(SysCallOutcome::Success) => Ok(()),
                        _ => Err(
                            Error::PermissionDenied(
                                "setting a negative nice value needs CAP_SYS_NICE".to_owned(),
                            ),
                        ),
                    }
                } else {
                    Err(
                        Error::PermissionDenied(
                            "setting the nice value was refused".to_owned(),
                        ),
                    )
                }
            } else if errno == ESRCH {
                Err(Error::NotFound("no thread with the current thread id".to_owned()))
            } else if errno == EINVAL {
                Err(Error::InvalidParameter("invalid nice value".to_owned()))
            } else {
                Err(Error::SystemCall("setpriority failed".to_owned()))
            }
        },
    }
}

/// The result the Linux backend reports after trying to enter the
/// round-robin real-time policy, given the scheduler call's returned
/// error code (zero on success), the text of that error, and, where
/// the documented degradation to nice 0 applied, the retry's outcome.
/// A permission refusal degrades to plain scheduling at nice 0 and
/// reports success when that retry succeeded; if the retry also failed,
/// a permission error carrying the original real-time attempt's text
/// propagates, never the retry's.
pub fn rt_final_result(
    rt_priority: i32,
    set_result: i32,
    rt_error_text: String,
    fallback: Option<SysCallOutcome>,
) -> (r: Result<(), Error>)
    ensures
        set_result == 0 ==> r is Ok,
        set_result == EPERM ==> (match fallback {
            Some(SysCallOutcome::Success) => r is Ok,
            _ => r matches Err(e) && e matches Error::PermissionDenied(m) && m == rt_error_text,
        }),
        set_result == EINVAL ==> (r matches Err(e) && e is InvalidParameter),
        set_result == ESRCH ==> (r matches Err(e) && e is NotFound),
        (set_result != 0 && set_result != EPERM && set_result != EINVAL && set_result != ESRCH)
            ==> (r matches Err(e) && e is SystemCall),
{
    if set_result == 0 {
        Ok(())
    } else if set_result == EPERM {
        match fallback {
            Some(SysCallOutcome::Success) => Ok(()),
            _ => Err(Error::PermissionDenied(rt_error_text)),
        }
    } else if set_result == EINVAL {
        Err(Error::InvalidParameter("invalid real-time scheduling parameters".to_owned()))
    } else if set_result == ESRCH {
        Err(Error::NotFound("no thread with the current thread id".to_owned()))
    } else {
        Err(Error::SystemCall("pthread_setschedparam failed".to_owned()))
    }
}

} // verus!
