pub mod bytes;
pub mod lit;
pub mod model;
pub mod store;
pub mod laws;
pub mod trusted;
pub mod imp;
pub mod json;
pub mod paths;

use vstd::prelude::*;

verus! {

/// Milli-units (thousandths of a kilogram) below which an imported weight is
/// rejected.
pub const MIN_WEIGHT_MILLI: u64 = 20_000;

/// Milli-units above which an imported weight is rejected.
pub const MAX_WEIGHT_MILLI: u64 = 300_000;

/// True when a weight, expressed in thousandths of a kilogram, is accepted by
/// bulk import.
pub open spec fn weight_in_bounds(w: u64) -> bool {
    MIN_WEIGHT_MILLI <= w <= MAX_WEIGHT_MILLI
}

/// Import-side weight validation: accepts exactly the closed interval from
/// 20 kg to 300 kg, expressed in thousandths of a kilogram.
pub fn weight_valid(w: u64) -> (r: bool)
    ensures
        r == weight_in_bounds(w),
{
    MIN_WEIGHT_MILLI <= w && w <= MAX_WEIGHT_MILLI
}

} // verus!
