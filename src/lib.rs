//! Fair card-exchange pairings: the constraint model handed to an
//! integer-programming backend, the check and decoding of its answer into
//! directed pairings, the per-participant activity index, and the matrix
//! picture of the result.

pub mod decode;
pub mod feasibility;
pub mod index;
pub mod laws;
pub mod model;
pub mod render;
pub mod shorthand;

pub use decode::decode_solution;
pub use feasibility::selection_satisfies;
pub use index::{index_pairings, ActivityIndex};
pub use model::{
    build_pairing_model, ConstraintKind, LinearConstraint, PairingError, PairingModel, Term,
};
pub use render::{visualize_solution_matrix, Canvas, Rgb};
pub use shorthand::parse_shorthand_args;
