//! A linear multi-class classifier (Adaline, trained with the LMS rule) for
//! fixed-size binary pixel glyphs, in fixed-point integer arithmetic.
//!
//! Real quantities (weights, activations, errors) are held as integers in
//! units of `1 / ONE`; squared errors are in units of `1 / ONE^2`.
pub mod adaline_nn;
pub mod convergence;
pub mod error;
pub mod glyph;
pub mod sample;
pub mod trainer;
