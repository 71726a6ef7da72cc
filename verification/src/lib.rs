//! A dense, row-major, generic two-dimensional container with verified
//! index arithmetic and structural edits.
//!
//! * [`grid`] is the mathematical model: a shape and a flat sequence of
//!   cells, the operations on it, and the laws that relate them.
//! * [`matrix`] is the executable container, specified against the model.
//! * [`col_iter`], [`stride`] and [`weave`] carry column iteration and the
//!   column edits.
//! * [`render`] gives the debug text of a matrix.
//! * [`myvec`] is a growable sequence with a cursor of its own.
//! * [`pointer_extension`] counts the values between two addresses.

pub mod col_iter;
pub mod grid;
pub mod matrix;
pub mod myvec;
pub mod pointer_extension;
pub mod render;
pub mod stride;
pub mod weave;
