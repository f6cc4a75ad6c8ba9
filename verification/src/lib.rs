//! Core routines of a linear time-invariant (LTI) system toolbox.
//!
//! Transfer functions are represented by real coefficient vectors, highest
//! order first. The numerically exact parts of the toolbox live here and are
//! verified: Pascal's triangle and binomial expansions, polynomial
//! convolution and aligned addition over integer coefficients, the integer
//! basis polynomials of the bilinear (Tustin) transform, the synthetic input
//! profiles of the time-domain simulator, and the Butterworth pole angles as
//! rational multiples of pi. The floating-point pipeline that consumes these
//! results (evaluation, eigenvalue root solving, Bode data, simulation)
//! stays outside the verified library.

pub mod bilinear;
pub mod butterworth;
pub mod pascal;
pub mod poly;
pub mod response;
pub mod sums;
