//! Verified core of an FMCW radar cube demo: peak detection on a radar cube,
//! the order keys that stand for its magnitudes, and the re-ordering of FFT
//! bins that turns cube coordinates into centred angle and Doppler bins.
pub mod cube;
pub mod order_key;
pub mod radar;
pub mod spectrum;
