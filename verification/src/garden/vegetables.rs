//! The one public item of the nested module.

use vstd::prelude::*;

verus! {

/// A vegetable with no data of its own.
#[derive(Debug)]
pub struct Asparagus {}

} // verus!
