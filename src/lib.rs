//! A sample-accurate event scheduler and mixer: pattern strings become timed events, timed
//! event tracks are merged, a tick engine decides when events are dispatched and when
//! instruments are sampled, and the samples of a frame are combined into one signed 32-bit
//! value per channel.

pub mod clip;
pub mod engine;
pub mod export;
pub mod instrument;
pub mod merge;
pub mod note;
pub mod parse;
pub mod sample;
pub mod sampler;
