//! A vectorscope core: stereo samples become a glowing X/Y trace.
//!
//! Captured samples are handed over in batches ([`queue`], [`sampler`]),
//! consecutive screen points are joined by straight segments ([`line`],
//! [`plot`]) in a grid of 8-bit intensities that fades a little every frame
//! ([`persistence`]), and the grid is turned into RGBA pixels through a fixed
//! colour ramp ([`color`]).
pub mod color;
pub mod grid;
pub mod line;
pub mod persistence;
pub mod plot;
pub mod queue;
pub mod sampler;
