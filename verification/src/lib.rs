//! Singular value decomposition of dense real matrices, with the part of the
//! work that concerns shapes, signs and ordering verified.
//!
//! Every real number is carried as the 64 bits of its IEEE 754 binary64
//! encoding. Arithmetic on those numbers is left to a numeric kernel outside
//! this library; what the library decides is which matrices may be handed to
//! the kernel, how long the kernel may iterate, whether what the kernel
//! returned is usable, and the canonical form of the result: singular values
//! without sign, in descending order, with the columns of `U` and the rows of
//! `Vᵗ` moved along.

pub mod binary64;
pub mod matrix;
pub mod vector;
pub mod order;
pub mod svd;
pub mod exact;

pub use matrix::Matrix;
pub use svd::{can_reconstruct, decompose, diagonal, normalize, perform_svd, prepare};
pub use svd::{Factors, Plan, SvdError};
pub use vector::Vector;
