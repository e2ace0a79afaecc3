//! Cross-platform CPU topology model: verified affinity masks with set
//! algebra, a canonical sockets/cores/logical-processors structure with
//! proved invariants, platform parsers and assemblers, and thread
//! placement policy decisions.

use vstd::prelude::*;

pub mod affinity;
mod cache;
mod core_info;
pub mod cpuid;
mod error;
mod features;
pub mod info;
pub mod linux;
pub mod macos;
pub mod mask;
pub mod parse;
mod policy;
mod priority;
pub mod proc_cpuinfo;
mod socket_info;
pub mod topology;
mod vendor;
pub mod windows;

pub use affinity::PlacementAction;
pub use affinity::pin_thread_plan;
pub use affinity::thread_affinity_plan;
pub use cache::CacheInfo;
pub use cache::CacheLevel;
pub use cache::CacheType;
pub use core_info::CoreInfo;
pub use core_info::CoreType;
pub use error::Error;
pub use features::CpuFeatures;
pub use info::CpuInfo;
pub use mask::AffinityMask;
pub use policy::Arch;
pub use policy::Platform;
pub use policy::SchedulingPolicy;
pub use policy::SysCallOutcome;
pub use policy::clamp_rt_priority;
pub use policy::nice_final_result;
pub use policy::nice_needs_fallback;
pub use policy::rt_final_result;
pub use priority::ThreadPriority;
pub use socket_info::SocketInfo;
pub use topology::CoreSeed;
pub use vendor::Vendor;
