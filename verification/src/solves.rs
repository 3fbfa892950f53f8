//! Every year the library solves.

use vstd::prelude::*;

use crate::days::well_formed_2019;
use crate::y2019::get_2019_solutions;
use crate::year::AdventOfCodeYear;

verus! {

/// All the years, oldest first.
pub fn get_years() -> (r: Vec<AdventOfCodeYear>)
    ensures
        r@.len() == 1,
        r@[0].year == 2019,
        well_formed_2019(r@[0].days@),
{
    let mut years: Vec<AdventOfCodeYear> = Vec::new();
    years.push(get_2019_solutions());
    years
}

} // verus!
