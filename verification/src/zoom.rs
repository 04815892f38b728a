//! How far the result maps are zoomed in.

use vstd::prelude::*;

use crate::bits::F64Bits;

verus! {

/// Half a kilometre.
pub const HALF_KM: u64 = 0x3fe0_0000_0000_0000;

/// 2 km.
pub const KM_2: u64 = 0x4000_0000_0000_0000;

/// 8 km.
pub const KM_8: u64 = 0x4020_0000_0000_0000;

/// 20 km.
pub const KM_20: u64 = 0x4034_0000_0000_0000;

/// 80 km.
pub const KM_80: u64 = 0x4054_0000_0000_0000;

/// 250 km.
pub const KM_250: u64 = 0x406f_4000_0000_0000;

/// 700 km.
pub const KM_700: u64 = 0x4085_e000_0000_0000;

/// 2000 km.
pub const KM_2000: u64 = 0x409f_4000_0000_0000;

/// 5000 km.
pub const KM_5000: u64 = 0x40b3_8800_0000_0000;

/// The height in pixels that the points may take on the map of one guess: 260.
pub const GUESS_MAP_EFFECTIVE_H: u64 = 0x4070_4000_0000_0000;

/// The height in pixels that the points may take on the map of all guesses: 420.
pub const ROUND_MAP_EFFECTIVE_H: u64 = 0x407a_4000_0000_0000;

/// The largest zoom of the map of one guess.
pub const GUESS_MAP_MAX_ZOOM: u8 = 15;

/// The largest zoom of the map of all guesses.
pub const ROUND_MAP_MAX_ZOOM: u8 = 11;

/// Whether a distance is at most `limit` kilometres.
pub open spec fn within(dist: F64Bits, limit: u64) -> bool {
    dist.le(&F64Bits { bits: limit })
}

/// The largest zoom that still shows enough around a guess that is `dist`
/// kilometres off.
pub open spec fn zoom_cap(dist: F64Bits) -> u8 {
    if within(dist, HALF_KM) {
        15
    } else if within(dist, KM_2) {
        14
    } else if within(dist, KM_8) {
        13
    } else if within(dist, KM_20) {
        12
    } else if within(dist, KM_80) {
        10
    } else if within(dist, KM_250) {
        8
    } else if within(dist, KM_700) {
        7
    } else if within(dist, KM_2000) {
        6
    } else if within(dist, KM_5000) {
        5
    } else {
        4
    }
}

/// The largest zoom that still shows enough around a guess that is `dist`
/// kilometres off.
pub fn distance_cap(dist: F64Bits) -> (r: u8)
    ensures
        r == zoom_cap(dist),
        dist.le(&F64Bits { bits: 0x3fe0_0000_0000_0000 }) ==> r == 15,
        !dist.le(&F64Bits { bits: 0x3fe0_0000_0000_0000 }) && dist.le(&F64Bits { bits: 0x4000_0000_0000_0000 }) ==> r == 14,
        !dist.le(&F64Bits { bits: 0x4000_0000_0000_0000 }) && dist.le(&F64Bits { bits: 0x4020_0000_0000_0000 }) ==> r == 13,
        !dist.le(&F64Bits { bits: 0x4020_0000_0000_0000 }) && dist.le(&F64Bits { bits: 0x4034_0000_0000_0000 }) ==> r == 12,
        !dist.le(&F64Bits { bits: 0x4034_0000_0000_0000 }) && dist.le(&F64Bits { bits: 0x4054_0000_0000_0000 }) ==> r == 10,
        !dist.le(&F64Bits { bits: 0x4054_0000_0000_0000 }) && dist.le(&F64Bits { bits: 0x406f_4000_0000_0000 }) ==> r == 8,
        !dist.le(&F64Bits { bits: 0x406f_4000_0000_0000 }) && dist.le(&F64Bits { bits: 0x4085_e000_0000_0000 }) ==> r == 7,
        !dist.le(&F64Bits { bits: 0x4085_e000_0000_0000 }) && dist.le(&F64Bits { bits: 0x409f_4000_0000_0000 }) ==> r == 6,
        !dist.le(&F64Bits { bits: 0x409f_4000_0000_0000 }) && dist.le(&F64Bits { bits: 0x40b3_8800_0000_0000 }) ==> r == 5,
        !dist.le(&F64Bits { bits: 0x40b3_8800_0000_0000 }) ==> r == 4,
{
    if dist.at_most(&F64Bits { bits: HALF_KM }) {
        15
    } else if dist.at_most(&F64Bits { bits: KM_2 }) {
        14
    } else if dist.at_most(&F64Bits { bits: KM_8 }) {
        13
    } else if dist.at_most(&F64Bits { bits: KM_20 }) {
        12
    } else if dist.at_most(&F64Bits { bits: KM_80 }) {
        10
    } else if dist.at_most(&F64Bits { bits: KM_250 }) {
        8
    } else if dist.at_most(&F64Bits { bits: KM_700 }) {
        7
    } else if dist.at_most(&F64Bits { bits: KM_2000 }) {
        6
    } else if dist.at_most(&F64Bits { bits: KM_5000 }) {
        5
    } else {
        4
    }
}

/// Whether `z` is the largest zoom at which the span, given for each zoom from 0
/// on, is at most `limit`; 0 where it never is.
pub open spec fn is_largest_fit(spans: Seq<F64Bits>, limit: u64, z: int) -> bool {
    &&& forall|k: int| z < k < spans.len() ==> !within(#[trigger] spans[k], limit)
    &&& z == 0 || (0 < z < spans.len() && within(spans[z], limit))
}

/// The largest zoom at which the points fit into the height.
pub fn fitting_zoom(spans: &Vec<F64Bits>, limit: u64) -> (z: u8)
    requires
        spans@.len() <= 256,
    ensures
        is_largest_fit(spans@, limit, z as int),
{
    let mut k: usize = spans.len();
    while k > 1
        invariant
            k <= spans@.len() <= 256,
            forall|j: int| k <= j < spans@.len() ==> !within(#[trigger] spans@[j], limit),
        decreases k,
    {
        if spans[k - 1].at_most(&F64Bits { bits: limit }) {
            return (k - 1) as u8;
        }
        k = k - 1;
    }
    0
}

/// The smaller of two zooms.
pub open spec fn smaller(a: u8, b: u8) -> u8 {
    if a < b {
        a
    } else {
        b
    }
}

fn smaller_of(a: u8, b: u8) -> (r: u8)
    ensures
        r == smaller(a, b),
{
    if a < b {
        a
    } else {
        b
    }
}

/// The zoom of the map of one guess: both points fit in width and height, and the
/// distance does not look larger than it is. `lon_zoom` is the largest zoom at
/// which they fit in width.
pub fn guess_map_zoom(lon_zoom: u8, spans: &Vec<F64Bits>, dist: F64Bits) -> (zoom: u8)
    requires
        spans@.len() == GUESS_MAP_MAX_ZOOM + 1,
    ensures
        exists|z: u8|
            #[trigger] is_largest_fit(spans@, GUESS_MAP_EFFECTIVE_H, z as int) && zoom == smaller(
                smaller(lon_zoom, z),
                zoom_cap(dist),
            ),
        zoom <= lon_zoom,
        zoom <= zoom_cap(dist),
        zoom <= 15,
        forall|z: int|
            zoom < z <= lon_zoom && z <= zoom_cap(dist) && z < 16 ==> !(#[trigger] spans@[z]).le(
                &F64Bits { bits: 0x4070_4000_0000_0000 },
            ),
        zoom == lon_zoom || zoom == zoom_cap(dist) || zoom == 0 || spans@[zoom as int].le(
            &F64Bits { bits: 0x4070_4000_0000_0000 },
        ),
{
    let z: u8 = fitting_zoom(spans, GUESS_MAP_EFFECTIVE_H);
    smaller_of(smaller_of(lon_zoom, z), distance_cap(dist))
}

/// The zoom of the map of all guesses: all points fit in width and height.
pub fn round_map_zoom(lon_zoom: u8, spans: &Vec<F64Bits>) -> (zoom: u8)
    requires
        spans@.len() == ROUND_MAP_MAX_ZOOM + 1,
    ensures
        exists|z: u8|
            #[trigger] is_largest_fit(spans@, ROUND_MAP_EFFECTIVE_H, z as int) && zoom == smaller(
                lon_zoom,
                z,
            ),
        zoom <= lon_zoom,
        zoom <= 11,
        forall|z: int|
            zoom < z <= lon_zoom && z < 12 ==> !(#[trigger] spans@[z]).le(
                &F64Bits { bits: 0x407a_4000_0000_0000 },
            ),
        zoom == lon_zoom || zoom == 0 || spans@[zoom as int].le(
            &F64Bits { bits: 0x407a_4000_0000_0000 },
        ),
{
    let z: u8 = fitting_zoom(spans, ROUND_MAP_EFFECTIVE_H);
    smaller_of(lon_zoom, z)
}

/// There is only one largest fitting zoom.
pub proof fn law_fitting_zoom_is_unique(spans: Seq<F64Bits>, limit: u64, a: int, b: int)
    requires
        is_largest_fit(spans, limit, a),
        is_largest_fit(spans, limit, b),
    ensures
        a == b,
{
    if a < b {
        assert(!within(spans[b], limit));
    }
    if b < a {
        assert(!within(spans[a], limit));
    }
}

/// A guess that is farther off is never shown at a larger zoom cap.
pub proof fn law_zoom_cap_falls_with_distance(near: F64Bits, far: F64Bits)
    requires
        near.le(&far),
    ensures
        zoom_cap(far) <= zoom_cap(near),
{
}

} // verus!
