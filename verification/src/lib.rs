//! Verification of arithmetic circuits.
//!
//! A circuit is a tree of template instances. Each instance has signals,
//! rank-1 constraints over a prime field, and annotations: assumptions on
//! its inputs and properties claimed of its outputs. For every instance
//! three obligations are posed to an SMT solver over the integers:
//!
//! - the tags of the outputs follow from the tags of the inputs;
//! - the postconditions follow from the preconditions;
//! - the outputs are a function of the inputs (weak safety).
//!
//! The way there: bounds are propagated from the annotations and the
//! constraints to the signals (`bounds`, `annotation_bounds`,
//! `propagation`); annotations are read as terms and formulas
//! (`translation`); constraints modulo the prime become integer equations
//! with a quotient of bounded range (`encoding`); the formulas of an
//! obligation are put together (`obligation`, `verification`) and handed to
//! the solver (`solver`); and the tree is verified from the leaves up, each
//! class of instances once, the components of a node being opened up where
//! a summary of them does not do (`tree`, `report`). What the encodings and
//! the bounds mean is proved in `encoding_laws` and `propagation_laws`.

// Numbers and the field.
pub mod bigint;
pub mod field;
pub mod interval;

// The data of a circuit.
pub mod expression;
pub mod specification_data;
pub mod constraint;
pub mod summary;
pub mod config;
pub mod dag;
pub mod tree;

// Bound propagation.
pub mod bounds;
pub mod annotation_bounds;
pub mod propagation;
pub mod propagation_laws;

// Obligations and the solver.
pub mod smt;
pub mod translation;
pub mod encoding;
pub mod encoding_laws;
pub mod obligation;
pub mod solver;
pub mod verdict;
pub mod verification;

// The run.
pub mod clock;
pub mod report;
pub mod structure;
