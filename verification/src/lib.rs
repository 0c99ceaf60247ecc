pub mod closures;
pub mod collections;
pub mod concepts;
pub mod garden;
pub mod generics;
pub mod lifetimes;
pub mod matching;
pub mod minigrep;
pub mod ownership;
pub mod records;
pub mod restaurant;
pub mod shapes;
pub mod summaries;
pub mod testing;
pub mod validation;
pub mod text;

use vstd::prelude::*;

verus! {

} // verus!
