//! Delay-line filter engine of a reverberation effect.
//!
//! A stream of audio arrives in blocks of any size, one channel at a time.
//! Two stateful filters, a feedback comb ([`Comb`]) and an allpass
//! ([`AllPass`]), keep a bounded trailing history per channel
//! ([`DelayHistory`]), so that what they emit depends on the stream alone
//! and never on how it was cut into blocks. A fixed network of four combs
//! and two allpasses ([`Reverb`]) turns them into a reverberator.
//!
//! Each filter has a mathematical state ([`CombState`], [`AllPassState`],
//! [`NetworkState`]) that says what it answers to a block and what state
//! that leaves it in; the executable filters are proved against it, and the
//! laws of the engine (chunk invariance, channel isolation, bounded memory,
//! silence, stability) are proved of it.
//!
//! The engine is generic over the arithmetic of its samples, see
//! [`Sample`]; [`Fixed`] is a fixed-point sample that ships with it.

pub mod allpass;
pub mod comb;
pub mod error;
pub mod fixed;
pub mod history;
pub mod reverb;
pub mod sample;
pub mod stream;
pub mod window;

pub use allpass::{AllPass, AllPassState};
pub use comb::{Comb, CombState};
pub use error::FilterError;
pub use fixed::Fixed;
pub use history::DelayHistory;
pub use reverb::{NetworkState, Reverb};
pub use sample::Sample;
pub use stream::Streaming;
