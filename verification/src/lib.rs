//! Structural core of the SIP distortion convention (Shupe et al., ADASS XIV, 2005):
//! the layout of the bivariate polynomial coefficients, the terms that the
//! polynomial and its two partial derivatives are made of, and the
//! bookkeeping of a SIP transformation and of its inverse.
//!
//! The coefficient values are carried as a type parameter: the library never
//! reads them, it only says which coefficient goes with which monomial.
pub mod coeff;
pub mod sip;
