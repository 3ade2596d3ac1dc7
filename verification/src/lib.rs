//! Verified core of a SOAP power spectrum calculator.
//!
//! The power spectrum combines pairs of spherical-expansion blocks into
//! rotationally-invariant descriptors. The modules here hold the verified
//! combination engine: key/label bookkeeping, the selection planner that
//! derives the minimal spherical-expansion request from a requested output,
//! the sample-correspondence mapper, and the index-resolution step that
//! prepares every array access of the numeric kernel. Floating-point
//! evaluation itself happens outside the verified core, driven entirely by
//! the plans produced here.

pub mod blocks;
pub mod combine;
mod errors;
pub mod keys;
pub mod labels;
pub mod laws;
pub mod mapper;
pub mod planner;
pub mod power_spectrum;
pub mod system;

pub use errors::Error;
