//! What a filter refuses.

use vstd::prelude::*;

verus! {

/// The reasons for which a filter rejects a configuration or a call.
#[derive(Clone, Copy, Debug, PartialEq, Eq, Structural)]
pub enum FilterError {
    /// A delay of zero samples was asked for.
    ZeroDelay,
    /// The gain is not in the half-open range from zero to one.
    GainOutOfRange,
    /// A channel was named before every channel below it had been used.
    ChannelGap,
}

} // verus!
