//! Whole assignment passes: the initial state, one step for each value of a
//! sequence, and the final state tied to public inputs; and a row of the
//! lookup chip by itself.

pub mod add_carry_v2;
pub mod overflow_check;
pub mod overflow_check_v2;
