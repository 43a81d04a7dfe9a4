//! Constraint descriptions and witness assignment for bounded-width
//! accumulation with carry propagation and overflow detection over the
//! Pallas base field.
//!
//! A circuit is described once, by registering columns, selectors, gates and
//! lookups in a [`circuit::ConstraintSystem`], and frozen into a
//! [`circuit::Description`]. An assignment pass then fills a
//! [`layouter::Layouter`] row by row, and [`dev::verify`] evaluates every
//! constraint of the description against the filled register file.
//!
//! [`chips`] holds the zero test, the two carry accumulators and the
//! lookup-based range check; [`circuits`] runs an accumulator over a whole
//! sequence of values. Field arithmetic is that of `halo2_proofs::pasta::Fp`,
//! reached through [`field::Felt`].

pub mod chips;
pub mod circuit;
pub mod circuits;
pub mod dev;
pub mod field;
pub mod layouter;
