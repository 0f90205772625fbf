use vstd::prelude::*;

verus! {

/// Relies on `nannou::rand::random_range`: a value drawn from `[min, max)`,
/// with the bounds swapped first when `min > max`. It panics on an empty
/// range, so `min == max` is excluded.
#[verifier::external_body]
pub(crate) fn random_range_i32(min: i32, max: i32) -> (r: i32)
    requires
        min != max,
    ensures
        min < max ==> min <= r < max,
        max < min ==> max <= r < min,
{
    nannou::rand::random_range(min, max)
}

} // verus!
