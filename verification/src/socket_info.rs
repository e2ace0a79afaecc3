//! One CPU socket: its cores and the cache shared at socket level.

use vstd::prelude::*;

use crate::cache::CacheInfo;
use crate::core_info::CoreInfo;

verus! {

/// One physical CPU package.
#[derive(Debug, Clone)]
pub struct SocketInfo {
    /// The socket's identifier.
    pub id: usize,
    /// The physical cores of this socket, in ascending `id` order.
    pub cores: Vec<CoreInfo>,
    /// The socket-level L3 cache, if detected.
    pub l3_cache: Option<CacheInfo>,
}

impl SocketInfo {
    /// A socket holds at least one well-formed core, every contained
    /// core carries this socket's `id`, and a kept L3 has positive sizes.
    pub open spec fn wf(self) -> bool {
        &&& self.cores@.len() > 0
        &&& forall|c: int| 0 <= c < self.cores@.len() ==> (#[trigger] self.cores@[c]).wf()
        &&& forall|c: int|
            0 <= c < self.cores@.len() ==> (#[trigger] self.cores@[c]).socket_id == self.id
        &&& (self.l3_cache matches Some(c) ==> c.valid())
    }
}

} // verus!
