//! Loading progress shown while the map and the weapon load.
use vstd::prelude::*;

verus! {

/// Percent of loading done, and the error that stopped it, if any.
pub struct LoadingProgress {
    pub percent: u8,
    pub error: Option<String>,
}

impl Default for LoadingProgress {
    fn default() -> (p: Self)
        ensures
            p.percent == 0,
            p.error is None,
    {
        LoadingProgress { percent: 0, error: None }
    }
}

/// The percent shown after reporting `reported`: progress never goes back and
/// never passes 100.
pub open spec fn advanced(current: u8, reported: u8) -> u8 {
    let capped = if reported < 100 {
        reported
    } else {
        100u8
    };
    if current < capped {
        capped
    } else {
        current
    }
}

impl LoadingProgress {
    /// Report that loading reached `percent`.
    pub fn advance(&mut self, percent: u8)
        ensures
            final(self).percent == advanced(old(self).percent, percent),
            final(self).error == old(self).error,
    {
        let capped = if percent < 100 {
            percent
        } else {
            100
        };
        if self.percent < capped {
            self.percent = capped;
        }
    }
}

/// Progress is monotone and bounded: reporting never lowers the percent, and
/// from at most 100 it stays at most 100.
pub proof fn lemma_progress_monotone(current: u8, reported: u8)
    ensures
        advanced(current, reported) >= current,
        current <= 100 ==> advanced(current, reported) <= 100,
        advanced(current, reported) >= (if reported < 100 {
            reported
        } else {
            100
        }),
{
}

} // verus!
