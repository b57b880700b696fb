//! The operations as plain functions on cryptograms, fixed to the curve
//! E-521 and to the security parameter 512.

pub mod shake_functions;
