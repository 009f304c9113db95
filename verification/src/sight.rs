//! The visibility rule: when a ray cast from one point towards another counts
//! as reaching it unobstructed.

use vstd::prelude::*;

verus! {

/// What was measured along the ray from one relay point towards another.
///
/// A hit time is how far along the ray the first contact with a body lies, in
/// any whole-number scale that keeps the order of the measured times; `None`
/// means that the ray never meets the body.
#[derive(Clone, Copy, Debug)]
pub struct Sighting {
    /// First contact of the ray with the planet.
    pub earth_toi: Option<u64>,
    /// First contact of the ray with the small guard sphere around the target.
    pub guard_toi: Option<u64>,
    /// Straight-line distance between the two points, in whole kilometres.
    pub distance: i32,
}

/// The ray reaches the target unobstructed: it never meets the planet, or it
/// meets the guard sphere around the target strictly before the planet.
pub open spec fn sight_is_clear(earth_toi: Option<u64>, guard_toi: Option<u64>) -> bool {
    match earth_toi {
        None => true,
        Some(earth) => match guard_toi {
            Some(guard) => guard < earth,
            None => false,
        },
    }
}

impl Sighting {
    /// Whether this sighting joins its two points in the network.
    pub open spec fn clear(self) -> bool {
        sight_is_clear(self.earth_toi, self.guard_toi)
    }
}

/// Decides visibility from the two hit times of one ray.
pub fn has_line_of_sight(earth_toi: Option<u64>, guard_toi: Option<u64>) -> (visible: bool)
    ensures
        visible == sight_is_clear(earth_toi, guard_toi),
        earth_toi is None ==> visible,
        earth_toi is Some && guard_toi is None ==> !visible,
{
    match earth_toi {
        None => true,
        Some(earth) => match guard_toi {
            Some(guard) => guard < earth,
            None => false,
        },
    }
}

} // verus!
