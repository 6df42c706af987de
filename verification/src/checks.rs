//! Concrete check functions are collaborators of the engine: it only consumes
//! their pass/fail result. The length-bound check is provided here because
//! container and text fields are routinely bound by it, and because its
//! result is a plain function of the measured length.

use vstd::prelude::*;

verus! {

/// Whether a measured length satisfies the configured bounds: with `equal`
/// set, the length must match it exactly; otherwise it must be at least `min`
/// and at most `max`, each bound checked only when set.
pub open spec fn spec_length_valid(
    length: u64,
    min: Option<u64>,
    max: Option<u64>,
    equal: Option<u64>,
) -> bool {
    match equal {
        Some(e) => length == e,
        None => {
            &&& match min {
                Some(m) => length >= m,
                None => true,
            }
            &&& match max {
                Some(m) => length <= m,
                None => true,
            }
        },
    }
}

/// Checks a measured length against the configured bounds, exactly as
/// [`spec_length_valid`] describes.
pub fn validate_length(length: u64, min: Option<u64>, max: Option<u64>, equal: Option<u64>) -> (r:
    bool)
    ensures
        r == spec_length_valid(length, min, max, equal),
{
    match equal {
        Some(e) => length == e,
        None => {
            let min_ok = match min {
                Some(m) => length >= m,
                None => true,
            };
            let max_ok = match max {
                Some(m) => length <= m,
                None => true,
            };
            min_ok && max_ok
        },
    }
}

} // verus!
