use vstd::prelude::*;

pub mod jdn;
pub mod jdn_laws;
pub mod table;
pub mod bikram;
pub mod astro;
pub mod laws;

verus! {

/// Number of the first Bikram Sambat year covered by the month-length table.
pub const BS_START_YEAR: i32 = 2000;

/// Integer Julian Day Number of the day Bikram Sambat 2000-01-01 began
/// (14 April 1943 in the proleptic Gregorian calendar); the astronomical
/// Julian Date of that day's midnight is this value minus one half.
pub const BS_EPOCH_JDN: i64 = 2430829;

} // verus!
