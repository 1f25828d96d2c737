//! Verified core of a NURBS surface kernel: knot-span search, binomial
//! coefficients for the rational derivative formula, grid tessellation
//! topology, and parsing of the `key = value` configuration and command line.

pub mod binomial;
pub mod cli;
pub mod config;
pub mod decimal;
pub mod interpolation;
pub mod knots;
pub mod mesh;
pub mod text;
