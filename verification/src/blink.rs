//! Cursor-blink state machine.
//!
//! While enabled and not paused, the cursor toggles between shown and
//! hidden on a fixed interval. Pausing forces the cursor visible and
//! schedules a resume. Timer wake-ups carry the epoch current when
//! they were scheduled; a wake-up whose epoch no longer matches is
//! stale and must not change the state.

use vstd::prelude::*;

verus! {

/// Show/hide toggle for the text cursor, driven by timer wake-ups
/// that the host schedules.
///
/// A method that schedules a wake-up returns the epoch token the
/// timer must hand back; the host calls `blink` or `resume` with it
/// when the interval elapses.
pub struct BlinkManager {
    /// Blink toggles are ignored while not enabled.
    pub enabled: bool,
    /// While paused the cursor stays visible.
    pub paused: bool,
    /// Whether the cursor is currently drawn.
    pub show: bool,
    /// Current epoch; wake-ups scheduled under an older epoch are stale.
    pub epoch: usize,
}

impl BlinkManager {
    pub fn new() -> (r: Self)
        ensures
            !r.enabled,
            !r.paused,
            !r.show,
            r.epoch == 0,
    {
        Self { enabled: false, paused: false, show: false, epoch: 0 }
    }

    /// Whether the cursor should be drawn now.
    pub fn show(&self) -> (r: bool)
        ensures
            r == self.show,
    {
        self.show
    }

    pub fn next_epoch(&mut self) -> (r: usize)
        requires
            old(self).epoch < usize::MAX,
        ensures
            final(self).epoch == old(self).epoch + 1,
            r == final(self).epoch,
            final(self).enabled == old(self).enabled,
            final(self).paused == old(self).paused,
            final(self).show == old(self).show,
    {
        self.epoch = self.epoch + 1;
        self.epoch
    }

    /// Timer wake-up for a blink interval scheduled under `epoch`.
    /// A fresh wake-up while enabled and not paused toggles the
    /// cursor and schedules the next toggle, returning its epoch
    /// token; a stale one changes nothing.
    pub fn blink(&mut self, epoch: usize) -> (r: Option<usize>)
        requires
            old(self).epoch < usize::MAX,
        ensures
            (epoch == old(self).epoch && old(self).enabled && !old(self).paused) ==> {
                &&& final(self).show == !old(self).show
                &&& final(self).epoch == old(self).epoch + 1
                &&& r == Some(final(self).epoch)
            },
            !(epoch == old(self).epoch && old(self).enabled && !old(self).paused) ==> {
                &&& *final(self) == *old(self)
                &&& r is None
            },
            final(self).enabled == old(self).enabled,
            final(self).paused == old(self).paused,
    {
        if epoch == self.epoch && self.enabled && !self.paused {
            self.show = !self.show;
            let next = self.next_epoch();
            Some(next)
        } else {
            None
        }
    }

    /// Start blinking on focus: the cursor begins hidden and the
    /// first toggle is scheduled at once (under the current epoch).
    /// Enabling an already-enabled manager changes nothing.
    pub fn enable(&mut self) -> (r: Option<usize>)
        requires
            old(self).epoch < usize::MAX,
        ensures
            old(self).enabled ==> *final(self) == *old(self) && r is None,
            !old(self).enabled ==> {
                &&& final(self).enabled
                &&& final(self).paused == old(self).paused
                &&& (!old(self).paused ==> final(self).show && final(self).epoch == old(self).epoch + 1
                        && r == Some(final(self).epoch))
                &&& (old(self).paused ==> !final(self).show && final(self).epoch == old(self).epoch
                        && r is None)
            },
    {
        if self.enabled {
            return None;
        }

        self.enabled = true;
        self.show = false;
        self.blink(self.epoch)
    }

    /// Stop blinking and hide the cursor (focus lost).
    pub fn disable(&mut self)
        ensures
            !final(self).show,
            !final(self).enabled,
            final(self).paused == old(self).paused,
            final(self).epoch == old(self).epoch,
    {
        self.show = false;
        self.enabled = false;
    }

    /// Force the cursor visible right after activity (a move or an
    /// edit) and schedule a resume one interval later; the returned
    /// epoch token invalidates any earlier pending wake-up.
    pub fn pause(&mut self) -> (r: usize)
        requires
            old(self).epoch < usize::MAX,
        ensures
            final(self).show,
            final(self).paused,
            final(self).enabled == old(self).enabled,
            final(self).epoch == old(self).epoch + 1,
            r == final(self).epoch,
    {
        if !self.show {
            self.show = true;
        }

        self.paused = true;

        self.next_epoch()
    }

    /// Timer wake-up for the resume scheduled by `pause`. A fresh
    /// wake-up unpauses and resumes blinking; a stale one changes
    /// nothing.
    pub fn resume(&mut self, epoch: usize) -> (r: Option<usize>)
        requires
            old(self).epoch < usize::MAX,
        ensures
            epoch != old(self).epoch ==> *final(self) == *old(self) && r is None,
            epoch == old(self).epoch ==> {
                &&& !final(self).paused
                &&& final(self).enabled == old(self).enabled
                &&& (old(self).enabled ==> final(self).show == !old(self).show
                        && final(self).epoch == old(self).epoch + 1 && r == Some(final(self).epoch))
                &&& (!old(self).enabled ==> final(self).show == old(self).show
                        && final(self).epoch == old(self).epoch && r is None)
            },
    {
        if self.epoch == epoch {
            self.paused = false;
            self.blink(epoch)
        } else {
            None
        }
    }
}

} // verus!
