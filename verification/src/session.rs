//! The indexing-readiness signal of a protocol session.
//!
//! While a code-intelligence server builds its index it reports progress
//! through `$/progress` notifications. The session watches for an `end`
//! phase on one of the known indexing tokens and resolves a one-shot
//! signal the first time it sees one; later matching notifications are
//! no-ops.

use vstd::prelude::*;

use crate::chars::str_eq;

verus! {

/// Whether a progress token is one of the known indexing token names.
pub open spec fn is_indexing_token(token: Seq<char>) -> bool {
    token == "rustAnalyzer/Indexing"@ || token == "rustAnalyzer/cachePriming"@
}

/// Whether observing a notification fires the signal: only an `end` phase
/// of a known indexing token, and only while the signal has not fired yet.
pub open spec fn signal_fires(fired: bool, token: Seq<char>, is_end: bool) -> bool {
    !fired && is_end && is_indexing_token(token)
}

/// The signal state after observing a notification.
pub open spec fn signal_after(fired: bool, token: Seq<char>, is_end: bool) -> bool {
    fired || signal_fires(fired, token, is_end)
}

/// The one-shot indexing signal: set at most once over a session's life.
pub struct IndexingSignal {
    fired: bool,
}

impl IndexingSignal {
    /// Whether the signal has fired.
    pub closed spec fn has_fired(&self) -> bool {
        self.fired
    }

    /// A fresh, unfired signal.
    pub fn new() -> (s: Self)
        ensures
            !s.has_fired(),
    {
        IndexingSignal { fired: false }
    }

    /// Observe one progress notification: its token name and whether its
    /// phase is `end`. Returns whether the indexing signal fires now; it
    /// fires on the first recognized notification and never again.
    pub fn observe(&mut self, token: &str, is_end: bool) -> (fire: bool)
        ensures
            fire == signal_fires(old(self).has_fired(), token@, is_end),
            final (self).has_fired() == signal_after(old(self).has_fired(), token@, is_end),
    {
        if self.fired || !is_end {
            return false;
        }
        let known = str_eq(token, "rustAnalyzer/Indexing") || str_eq(
            token,
            "rustAnalyzer/cachePriming",
        );
        if known {
            self.fired = true;
            true
        } else {
            false
        }
    }
}

/// The signal is one-shot: after a recognized indexing-end notification
/// fires it, no later notification fires it again, whatever token it
/// carries, while the signal stays resolved.
pub proof fn lemma_signal_one_shot(t1: Seq<char>, e1: bool, t2: Seq<char>, e2: bool)
    requires
        signal_fires(false, t1, e1),
    ensures
        signal_after(false, t1, e1),
        !signal_fires(signal_after(false, t1, e1), t2, e2),
        signal_after(signal_after(false, t1, e1), t2, e2),
{
}

} // verus!
