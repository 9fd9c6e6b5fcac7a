//! The acquisition session around the external scan device.
//!
//! The device runs as an independent unit of work that ends in exactly
//! one terminal event: success with the acquired bytes, or failure (a
//! dismissed dialog and a device fault both resolve to failure, so the
//! caller never waits forever).  While the work is outstanding, a
//! fixed-interval tick drives a bounded, wrapping progress value whose
//! only meaning is liveness.

use vstd::prelude::*;

verus! {

/// One full sweep of the progress indicator, in ticks.
pub const SCAN_PROGRESS_LIMIT: u32 = 50;

/// The state of one acquisition session.
pub struct ScanSession {
    pub scanning: bool,
    pub progress: u32,
    pub acquired: Option<Vec<u8>>,
}

/// The progress value never leaves the indicator's range.
pub open spec fn scan_wf(s: ScanSession) -> bool {
    s.progress <= SCAN_PROGRESS_LIMIT
}

impl ScanSession {
    /// No acquisition outstanding, nothing acquired.
    pub fn new() -> (s: ScanSession)
        ensures
            scan_wf(s),
            !s.scanning,
            s.progress == 0,
            s.acquired is None,
    {
        ScanSession { scanning: false, progress: 0, acquired: None }
    }

    /// Dispatches the acquisition: the session is outstanding and the
    /// indicator restarts.
    pub fn start(&mut self)
        ensures
            scan_wf(*final(self)),
            final(self).scanning,
            final(self).progress == 0,
            final(self).acquired is None,
    {
        self.scanning = true;
        self.progress = 0;
        self.acquired = None;
    }

    /// One periodic tick: while the session is outstanding the indicator
    /// advances and wraps; otherwise nothing changes.
    pub fn on_tick(&mut self)
        requires
            scan_wf(*old(self)),
        ensures
            scan_wf(*final(self)),
            final(self).scanning == old(self).scanning,
            final(self).acquired == old(self).acquired,
            old(self).scanning ==> final(self).progress == (if old(self).progress
                >= SCAN_PROGRESS_LIMIT {
                0u32
            } else {
                (old(self).progress + 1) as u32
            }),
            !old(self).scanning ==> final(self).progress == old(self).progress,
    {
        if self.scanning {
            if self.progress >= SCAN_PROGRESS_LIMIT {
                self.progress = 0;
            } else {
                self.progress = self.progress + 1;
            }
        }
    }

    /// The terminal success event: the session resolves with the
    /// acquired image bytes and the indicator shows completion.
    pub fn on_acquired(&mut self, bytes: Vec<u8>)
        ensures
            scan_wf(*final(self)),
            !final(self).scanning,
            final(self).progress == SCAN_PROGRESS_LIMIT,
            final(self).acquired == Some(bytes),
    {
        self.scanning = false;
        self.progress = SCAN_PROGRESS_LIMIT;
        self.acquired = Some(bytes);
    }

    /// The terminal failure event — a device fault or a dismissed dialog.
    /// The session resolves with nothing acquired; the caller is never
    /// left waiting.
    pub fn on_failed(&mut self)
        ensures
            scan_wf(*final(self)),
            !final(self).scanning,
            final(self).progress == 0,
            final(self).acquired is None,
    {
        self.scanning = false;
        self.progress = 0;
        self.acquired = None;
    }
}

} // verus!
