//! Flag bits: the high byte of a render feature.

use vstd::prelude::*;

verus! {

/// `bridge=yes|viaduct|aqueduct`.
pub const BRIDGE: u16 = 0x0100;

/// `tunnel=yes|building_passage`.
pub const TUNNEL: u16 = 0x0200;

/// `intermittent=yes`.
pub const INTERMITTENT: u16 = 0x0400;

/// `construction=*` other than empty or `no`.
pub const CONSTRUCTION: u16 = 0x0800;

/// `oneway=yes|-1`.
pub const ONEWAY: u16 = 0x1000;

/// Whether any bit of `flag` is set in `feature`.
pub open spec fn is_set(feature: u16, flag: u16) -> bool {
    feature & flag != 0
}

/// Tests whether a flag is set in a render feature.
#[inline]
pub fn has(feature: u16, flag: u16) -> (set: bool)
    ensures
        set == is_set(feature, flag),
{
    (feature & flag) != 0
}

} // verus!
