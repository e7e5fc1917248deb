//! The bookkeeping of a progress display that follows an iteration.

use vstd::prelude::*;
use crate::widget::ProgressBar;

verus! {

/// The total an iterator announces through its size hint: its length when the
/// lower and upper bounds agree, else unknown.
pub open spec fn spec_total_from_hint(lower: usize, upper: Option<usize>) -> Option<usize> {
    match upper {
        Some(u) => if lower == u {
            Some(u)
        } else {
            None
        },
        None => None,
    }
}

/// How far an iteration has come and how long it is, when known.
#[derive(Debug, Clone, Copy, PartialEq, Eq, Structural)]
pub struct ProgressState {
    /// The number of items yielded so far.
    pub current: usize,
    /// The number of items in all, when the iterator announces it.
    pub total: Option<usize>,
}

impl ProgressState {
    /// The state before the first item of an iterator whose size hint is
    /// `(lower, upper)`.
    pub fn from_size_hint(lower: usize, upper: Option<usize>) -> (s: ProgressState)
        ensures
            s.current == 0,
            s.total == spec_total_from_hint(lower, upper),
    {
        let total = match upper {
            Some(u) => if lower == u {
                Some(u)
            } else {
                None
            },
            None => None,
        };
        ProgressState { current: 0, total }
    }

    /// Counts one more item.
    pub fn advance(&mut self)
        requires
            old(self).current < usize::MAX,
        ensures
            final(self).current == old(self).current + 1,
            final(self).total == old(self).total,
    {
        self.current = self.current + 1;
    }

    /// The bar showing the progress so far.
    pub fn bar(&self) -> (b: ProgressBar)
        ensures
            b.spec_current() == self.current,
            b.spec_total() == self.total,
    {
        ProgressBar::new(self.current, self.total)
    }

    /// The bar shown once the iteration is over, however it ended: complete when
    /// the total is known, else at the count reached.
    pub fn final_bar(&self) -> (b: ProgressBar)
        ensures
            b.spec_current() == (match self.total {
                Some(t) => t,
                None => self.current,
            }),
            b.spec_total() == self.total,
    {
        let done = match self.total {
            Some(t) => t,
            None => self.current,
        };
        ProgressBar::new(done, self.total)
    }
}

} // verus!
