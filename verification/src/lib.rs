//! A STARK proving engine: given an execution trace and the polynomial
//! constraints of an algebraic intermediate representation, it produces a
//! transcript-bound, non-interactive proof that the trace satisfies the
//! constraints.
//!
//! The layers, leaves first: prime-field arithmetic (`field`), univariate
//! polynomials with interpolation and evaluation (`poly`), multiplicative
//! subgroup domains (`domain`), trace matrices (`matrix`), Merkle commitments
//! (`merkle`), the Fiat-Shamir transcript (`transcript`), multivariate
//! constraint polynomials (`multivariate`), the memory table of the brainfuck
//! AIR (`memory_table`), the FRI low-degree test (`fri`), and the prover
//! orchestrator (`prover`).

pub mod domain;
pub mod field;
pub mod fri;
pub mod memory_table;
pub mod merkle;
pub mod multivariate;
pub mod poly;
pub mod prover;
pub mod transcript;
pub mod utils;

pub use field::Fe;
pub use memory_table::MemoryTable;
pub use multivariate::Multivariate;
pub use poly::Poly;
pub use prover::{Air, Proof, ProofOptions, Prover, ProvingError, Trace, TraceInfo};
pub use utils::Matrix;
