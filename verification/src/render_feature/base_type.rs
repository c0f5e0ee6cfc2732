//! Base categories: the low byte of a render feature.

use vstd::prelude::*;

verus! {

/// Unclassified.
pub const DEFAULT: u16 = 0;

/// Motorway, trunk, primary.
pub const HIGHWAY_MAJOR: u16 = 1;

/// Secondary, tertiary.
pub const HIGHWAY_MINOR: u16 = 2;

/// Residential, unclassified, service.
pub const HIGHWAY_ROAD: u16 = 3;

/// Footway, path, pedestrian, cycleway.
pub const HIGHWAY_PATH: u16 = 4;

/// Steps.
pub const HIGHWAY_STEPS: u16 = 5;

/// Heavy rail.
pub const RAILWAY_MAIN: u16 = 20;

/// Light rail, subway, tram.
pub const RAILWAY_LIGHT: u16 = 21;

/// River.
pub const WATERWAY_RIVER: u16 = 30;

/// Stream.
pub const WATERWAY_STREAM: u16 = 31;

/// Canal, drain, ditch.
pub const WATERWAY_CANAL: u16 = 32;

/// Building.
pub const BUILDING: u16 = 40;

/// Wood, scrub.
pub const NATURAL_WOOD: u16 = 50;

/// Standing water, coastline.
pub const NATURAL_WATER: u16 = 51;

/// Grassland, heath.
pub const NATURAL_GRASS: u16 = 52;

/// Land use.
pub const LANDUSE: u16 = 60;

/// Administrative boundary.
pub const BOUNDARY: u16 = 70;

/// The base category of a feature: its low byte.
pub open spec fn base_of(feature: u16) -> u16 {
    feature & 0xFF
}

/// Extracts the base category from a render feature.
#[inline]
pub fn extract(feature: u16) -> (base: u16)
    ensures
        base == base_of(feature),
        base < 256,
{
    assert(feature & 0xFF < 256) by (bit_vector);
    feature & 0xFF
}

} // verus!
