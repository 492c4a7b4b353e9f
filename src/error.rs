use vstd::prelude::*;

verus! {

/// The ways in which building, encoding, training or predicting can fail.
#[derive(Debug, PartialEq, Eq)]
pub enum ModelError {
    /// Bad construction parameters: no classes, duplicate labels, a class
    /// count that disagrees with the roster, a learning rate that is not
    /// positive, or sizes beyond what the fixed-point range supports.
    InvalidModelConfig,
    /// A raw pixel grid whose length is not the configured pixel count.
    MalformedSample { expected: usize, actual: usize },
    /// A feature vector whose length is not the model's feature length.
    DimensionMismatch { expected: usize, actual: usize },
    /// A sample label that has no class row in the model.
    UnknownClass { label: String },
    /// A model without any class row.
    EmptyModel,
}

} // verus!
