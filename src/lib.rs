//! Integer core of a Bayesian two-arm trial monitor: exact binomial
//! coefficients, the observed-data model with its conjugate update, and the
//! refinement schedule of the adaptive trapezoidal integrator.
pub mod combinatorics;
pub mod quadrature;
pub mod trial;
