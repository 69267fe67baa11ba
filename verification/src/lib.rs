//! Forensic byte sampling: strided window extraction from a byte buffer,
//! a sweep engine that drives it over one or many parameter tuples, and
//! signature-based classification of each sampled window.

pub mod classify;
pub mod sampler;
pub mod sweep;
