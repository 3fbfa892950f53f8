//! The 2019 collection.

use vstd::prelude::*;

use crate::days::{get_days, well_formed_2019};
use crate::year::AdventOfCodeYear;

verus! {

/// The year 2019 with its solved days.
pub fn get_2019_solutions() -> (r: AdventOfCodeYear)
    ensures
        r.year == 2019,
        well_formed_2019(r.days@),
{
    AdventOfCodeYear { year: 2019, days: get_days() }
}

} // verus!
