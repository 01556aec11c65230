//! Random binary trees over labelled leaves, with branch lengths, rendered
//! in the Newick text format.
//!
//! Branch lengths are fixed-point numbers counted in ten-thousandths, so a
//! weight of `12345` stands for `1.2345`.
use vstd::prelude::*;

pub mod text;
pub mod labels;
pub mod sampling;
pub mod tree;
pub mod builder;
pub mod ultrametric;
pub mod newick;
pub mod generator;
