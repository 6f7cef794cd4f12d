//! The data model and control decisions of a terminal dashboard of market
//! prices: rolling price histories, the refresh of every tracked symbol, the
//! scroll window, the merged event stream, and the reading of quote records.

use vstd::prelude::*;

pub mod dashboard;
pub mod decimal;
pub mod event;
pub mod history;
pub mod quote;

verus! {

} // verus!
