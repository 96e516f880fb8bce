//! Trailing windows of a signal, as plain sequences.
//!
//! A filter that feeds a signal back after `delay` samples never needs more
//! than the last `delay` samples of it. The functions here say what that
//! window is and what a look-back into it yields; the lemmas say that
//! cutting the window early loses nothing.

use vstd::prelude::*;

verus! {

/// The last `n` entries of `s`, or all of `s` when it has no more than `n`.
pub open spec fn trailing<S>(s: Seq<S>, n: nat) -> Seq<S> {
    if s.len() <= n {
        s
    } else {
        s.subrange(s.len() - n, s.len() as int)
    }
}

/// The entry that lies `delay` places before the end of `past`, where
/// `past` is everything the signal has held so far. `None` while the signal
/// is younger than `delay`.
pub open spec fn delayed<S>(past: Seq<S>, delay: nat) -> Option<S> {
    if delay > past.len() {
        None
    } else {
        Some(past[past.len() - delay])
    }
}

/// Cutting a window before more signal arrives gives the same window as
/// cutting once at the end.
pub proof fn lemma_trailing_concat<S>(s: Seq<S>, t: Seq<S>, n: nat)
    ensures
        trailing(trailing(s, n) + t, n) == trailing(s + t, n),
{
    assert(trailing(trailing(s, n) + t, n) =~= trailing(s + t, n));
}

/// A look-back of `delay` places sees the same entry through a window of at
/// least `delay` entries as through the whole signal.
pub proof fn lemma_delayed_through_window<S>(s: Seq<S>, t: Seq<S>, n: nat, delay: nat)
    requires
        1 <= delay <= n,
    ensures
        delayed(trailing(s, n) + t, delay) == delayed(s + t, delay),
{
}

} // verus!
