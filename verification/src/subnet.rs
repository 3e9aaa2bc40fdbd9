//! The overlay subnet and the deterministic smallest-free-slot address
//! allocator.

use vstd::prelude::*;
use crate::errors::WireSyncError;

verus! {

/// The coordinator's subnet configuration.
///
/// Host addresses run from `base + 1` to `base + last_offset`; `base`
/// itself is the network address and whatever follows `last_offset` (for a
/// real subnet, the broadcast address) is never assigned.
#[derive(Debug)]
pub struct ServerConfig {
    /// Network address of the overlay subnet, as a 32-bit value.
    pub base: u32,
    /// Highest assignable host offset; 254 for a /24 subnet.
    pub last_offset: u32,
}

/// A usable subnet configuration: at least one assignable host address,
/// and the whole host range representable.
pub open spec fn cfg_wf(c: ServerConfig) -> bool {
    &&& 1 <= c.last_offset
    &&& c.last_offset < 0xFFFFFFFF
    &&& c.base + c.last_offset <= u32::MAX
}

impl ServerConfig {
    /// Builds a subnet configuration, rejecting one whose host range is
    /// empty or not representable.
    pub fn new(base: u32, last_offset: u32) -> (r: Result<ServerConfig, WireSyncError>)
        ensures
            match r {
                Ok(c) => c.base == base && c.last_offset == last_offset && cfg_wf(c),
                Err(e) => e == WireSyncError::ValidationError && !cfg_wf(
                    ServerConfig { base, last_offset },
                ),
            },
    {
        if last_offset >= 1 && last_offset < 0xFFFFFFFF && base <= u32::MAX - last_offset {
            Ok(ServerConfig { base, last_offset })
        } else {
            Err(WireSyncError::ValidationError)
        }
    }

    /// The conventional /24 subnet with network address `o0.o1.o2.0` and
    /// host offsets 1 through 254.
    pub fn subnet_24(o0: u8, o1: u8, o2: u8) -> (r: ServerConfig)
        ensures
            r.base == o0 as int * 0x1000000 + o1 as int * 0x10000 + o2 as int * 256,
            r.last_offset == 254,
            cfg_wf(r),
    {
        let base: u32 = (o0 as u32) * 0x1000000 + (o1 as u32) * 0x10000 + (o2 as u32) * 256;
        ServerConfig { base, last_offset: 254 }
    }
}

/// Decides whether an address is already in use.
pub fn addr_used(used: &Vec<u32>, a: u32) -> (r: bool)
    ensures
        r == used@.contains(a),
{
    let mut i: usize = 0;
    while i < used.len()
        invariant
            i <= used@.len(),
            forall|j: int| 0 <= j < i ==> used@[j] != a,
        decreases used@.len() - i,
    {
        if used[i] == a {
            return true;
        }
        i = i + 1;
    }
    false
}

/// Assigns the smallest free host address of the subnet.
///
/// Returns `base + o` for the minimum offset `o` in `1 ..= last_offset`
/// whose address is not in `used`, and `AddressSpaceExhausted` when every
/// offset is taken.  The smallest-free-slot rule makes allocation
/// deterministic and lets a deleted peer's address be reused.
pub fn get_next_ip(used: &Vec<u32>, cfg: &ServerConfig) -> (r: Result<u32, WireSyncError>)
    requires
        cfg_wf(*cfg),
    ensures
        match r {
            Ok(a) => {
                &&& cfg.base < a <= cfg.base + cfg.last_offset
                &&& !used@.contains(a)
                &&& forall|o: int|
                    1 <= o < a - cfg.base ==> #[trigger] used@.contains((cfg.base + o) as u32)
            },
            Err(e) => {
                &&& e == WireSyncError::AddressSpaceExhausted
                &&& forall|o: int|
                    1 <= o <= cfg.last_offset ==> #[trigger] used@.contains((cfg.base + o) as u32)
            },
        },
{
    let mut o: u32 = 1;
    while o <= cfg.last_offset
        invariant
            cfg_wf(*cfg),
            1 <= o <= cfg.last_offset + 1,
            forall|o2: int| 1 <= o2 < o ==> #[trigger] used@.contains((cfg.base + o2) as u32),
        decreases cfg.last_offset + 1 - o,
    {
        let a = cfg.base + o;
        if !addr_used(used, a) {
            return Ok(a);
        }
        o = o + 1;
    }
    Err(WireSyncError::AddressSpaceExhausted)
}

/// The allocator is deterministic: any two addresses that both satisfy
/// the smallest-free-slot characterization for the same used set are the
/// same address.
pub proof fn lemma_allocator_deterministic(used: Seq<u32>, cfg: ServerConfig, a1: u32, a2: u32)
    requires
        cfg_wf(cfg),
        cfg.base < a1 <= cfg.base + cfg.last_offset,
        !used.contains(a1),
        forall|o: int| 1 <= o < a1 - cfg.base ==> #[trigger] used.contains((cfg.base + o) as u32),
        cfg.base < a2 <= cfg.base + cfg.last_offset,
        !used.contains(a2),
        forall|o: int| 1 <= o < a2 - cfg.base ==> #[trigger] used.contains((cfg.base + o) as u32),
    ensures
        a1 == a2,
{
    if a1 < a2 {
        assert(used.contains((cfg.base + (a1 - cfg.base)) as u32));
        assert((cfg.base + (a1 - cfg.base)) as u32 == a1);
    }
    if a2 < a1 {
        assert(used.contains((cfg.base + (a2 - cfg.base)) as u32));
        assert((cfg.base + (a2 - cfg.base)) as u32 == a2);
    }
}

} // verus!
