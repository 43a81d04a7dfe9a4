//! The chips: a zero test, two carry accumulators and a lookup-based range
//! check, with the numeric helpers they share.

pub mod add_carry_v2;
pub mod is_zero;
pub mod overflow_check;
pub mod overflow_check_v2;
pub mod utils;
