//! The library's only contact with the random number generator: a single
//! specification for drawing a raw value. Nothing is promised of the draw;
//! every function that consumes one is verified for all possible values.

use vstd::prelude::*;

verus! {

/// Relies on rand::random: draws a value of type T from the standard
/// distribution. The result depends on the generator's state, so nothing is
/// stated of it; callers must hold for every outcome.
pub assume_specification<T>[ rand::random::<T> ]() -> (r: T)
    where
        rand::distributions::Standard: rand::distributions::Distribution<T>,
;

} // verus!
