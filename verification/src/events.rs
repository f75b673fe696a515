//! Events that are taken in together, before the display is drawn again.

use vstd::prelude::*;

verus! {

/// What a batch of events asks for.
#[derive(Debug, Clone, Copy, PartialEq, Eq, Structural)]
pub struct EventBatch {
    /// Whether the log may have grown since it was last looked at.
    pub unsynced: bool,
    /// Whether what is shown has changed.
    pub changed: bool,
    /// Whether a key or a new size has been taken in.
    pub handled: bool,
}

impl EventBatch {
    /// Whether the display has to be drawn again.
    pub open spec fn redraw(self) -> bool {
        self.changed || self.handled
    }

    /// An empty batch.
    pub fn new() -> (r: Self)
        ensures
            r == (EventBatch { unsynced: false, changed: false, handled: false }),
    {
        EventBatch { unsynced: false, changed: false, handled: false }
    }

    /// The log may have grown; `changed` tells whether what is shown beside it has changed.
    pub fn log_may_have_grown(&mut self, changed: bool)
        ensures
            *final(self) == (EventBatch {
                unsynced: true,
                changed: old(self).changed || changed,
                ..*old(self)
            }),
    {
        self.unsynced = true;
        self.changed = self.changed || changed;
    }

    /// Whether the log has to be looked at: before a key or a new size is taken in, and at
    /// the end.
    pub fn sync_due(&self) -> (r: bool)
        ensures
            r == self.unsynced,
    {
        self.unsynced
    }

    /// The log has been looked at; `changed` tells whether that brought anything.
    pub fn synced(&mut self, changed: bool)
        ensures
            *final(self) == (EventBatch {
                unsynced: false,
                changed: old(self).changed || changed,
                ..*old(self)
            }),
    {
        self.unsynced = false;
        self.changed = self.changed || changed;
    }

    /// A key or a new size has been taken in.
    pub fn event_handled(&mut self)
        ensures
            *final(self) == (EventBatch { handled: true, ..*old(self) }),
    {
        self.handled = true;
    }

    /// Whether the display has to be drawn again.
    pub fn redraw_due(&self) -> (r: bool)
        ensures
            r == self.redraw(),
    {
        self.changed || self.handled
    }
}

} // verus!
