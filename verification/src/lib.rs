//! Binary texture synthesis by simulated annealing over 4x4 block statistics.
//!
//! A reference image is summarized as a frequency histogram over all 65536
//! possible 4x4 binary pixel blocks. A candidate binary canvas is then
//! repeatedly perturbed with pixel-flip noise and kept whenever the exact
//! L1 divergence between its block histogram and the reference histogram
//! strictly decreases.

pub mod access;
pub mod anneal;
pub mod canvas;
pub mod codec;
pub mod energy;
pub mod histogram;
