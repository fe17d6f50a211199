//! A statically typed client layer over an approximate-nearest-neighbor
//! vector index.
//!
//! The crate offers a dimension- and metric-checked facade ([`HighLevel`])
//! for inserting, retrieving, searching, and managing vectors keyed by
//! 64-bit identifiers. Vector scalars are carried as fixed-layout bit
//! patterns (see [`VectorType`]); distances are fixed-point integers so
//! that every ordering and bookkeeping claim can be verified.

use vstd::prelude::*;

pub mod scalar;
pub mod f16_precision;
pub mod metric;
pub mod engine;
pub mod highlevel;
pub mod batch_insert;
pub mod codec;
pub mod laws;

pub use scalar::VectorType;
pub use scalar::F16;
pub use scalar::BF16;
pub use metric::MetricType;
pub use highlevel::HighLevel;
pub use highlevel::Matches;
pub use highlevel::ResultElement;

verus! {

/// 64-bit caller-chosen identifier under which vectors are stored.
pub type Key = u64;

/// A distance reported by the index.
///
/// Builtin metrics report fixed-point values in which [`DISTANCE_ONE`]
/// stands for 1.0; custom metrics may use any encoding whose integer
/// order is the intended distance order.
pub type Distance = i64;

/// Fixed-point scale of a single scalar value: [`VectorType::to_int`]
/// reports a scalar multiplied by this constant.
pub const SCALAR_SCALE: i64 = 65536;

/// Fixed-point representation of 1.0 in a reported distance: the square
/// of [`SCALAR_SCALE`], since builtin metrics multiply two scalars.
pub const DISTANCE_ONE: i64 = 0x1_0000_0000;

/// Every scalar value reported by [`VectorType::to_int`] lies within
/// `[-SCALAR_VALUE_BOUND, SCALAR_VALUE_BOUND]`.
pub const SCALAR_VALUE_BOUND: i64 = 0x1_0000_0000;

/// Largest vector dimension the index accepts; keeps every distance
/// accumulation far away from overflow.
pub const MAX_DIMENSIONS: usize = 1048576;

/// The binary layout chosen for the scalars of indexed vectors.
#[derive(Clone, Copy, PartialEq, Eq, Structural, Debug)]
pub enum ScalarKind {
    /// IEEE 754 half-precision, carried as 16-bit patterns.
    F16,
    /// bfloat16, carried as 16-bit patterns.
    BF16,
    /// Signed 8-bit integers.
    I8,
}

/// The distance metric bound to an index.
#[derive(Clone, Copy, PartialEq, Eq, Structural, Debug)]
pub enum MetricKind {
    /// Inner-product distance.
    IP,
    /// Squared Euclidean distance.
    L2sq,
    /// Cosine distance.
    Cos,
    /// Pearson correlation distance (no builtin kernel).
    Pearson,
    /// Haversine distance (no builtin kernel).
    Haversine,
    /// Divergence distance (no builtin kernel).
    Divergence,
    /// Hamming distance: the number of differing positions.
    Hamming,
    /// Tanimoto distance (no builtin kernel).
    Tanimoto,
    /// Sorensen distance (no builtin kernel).
    Sorensen,
    /// No builtin kind: a custom metric function must be supplied.
    Unknown,
}

/// Value struct fixing the shape of an index at construction time.
#[derive(Clone, Copy, PartialEq, Eq, Structural, Debug)]
pub struct IndexOptions {
    /// Number of scalars in every stored vector.
    pub dimensions: usize,
    /// The metric kind bound to the index.
    pub metric: MetricKind,
    /// The scalar layout of stored vectors.
    pub quantization: ScalarKind,
    /// Maximum node degree in the underlying similarity graph.
    pub connectivity: usize,
    /// Candidate-list breadth while inserting.
    pub expansion_add: usize,
    /// Candidate-list breadth while searching.
    pub expansion_search: usize,
    /// Whether one key may map to several vectors.
    pub multi: bool,
}

impl Default for IndexOptions {
    /// All-zero options with cosine metric and half-precision scalars.
    fn default() -> (r: Self)
        ensures
            r.dimensions == 0,
            r.metric == MetricKind::Cos,
            r.quantization == ScalarKind::F16,
            r.connectivity == 0,
            r.expansion_add == 0,
            r.expansion_search == 0,
            !r.multi,
    {
        IndexOptions {
            dimensions: 0,
            metric: MetricKind::Cos,
            quantization: ScalarKind::F16,
            connectivity: 0,
            expansion_add: 0,
            expansion_search: 0,
            multi: false,
        }
    }
}

/// The single error kind of the library: an index operation was rejected,
/// with a diagnostic message.
#[derive(Clone, Copy, Debug)]
pub struct Error {
    /// Diagnostic text describing the rejected operation.
    pub message: &'static str,
}

impl Error {
    /// Builds an error carrying the given diagnostic message.
    pub fn new(message: &'static str) -> (r: Error)
        ensures
            r.message == message,
    {
        Error { message }
    }
}

} // verus!
