//! The records that the front end exchanges about calculators and transfers,
//! and the rule by which progress reports are thinned out.

use vstd::prelude::*;

verus! {

/// Where a device sits on the bus.
#[derive(Copy, Clone, Eq, PartialEq, Debug, Hash, Structural)]
pub struct DevId {
    pub bus_number: u8,
    pub address: u8,
}

/// The two callbacks of a pending request of the front end.
#[derive(Debug)]
pub struct Promise {
    pub callback: String,
    pub error: String,
}

/// A device that has appeared.
#[derive(Debug)]
pub struct AddDevice {
    pub dev: DevId,
    pub name: String,
    pub is_cx_ii: bool,
    pub needs_drivers: bool,
}

/// How far a transfer has come.
#[derive(Copy, Clone, Eq, PartialEq, Debug, Structural)]
pub struct ProgressUpdate {
    pub dev: DevId,
    pub remaining: usize,
    pub total: usize,
}

/// One entry of a directory listing.
#[derive(Debug)]
pub struct FileInfo {
    pub path: String,
    pub is_dir: bool,
    pub date: u64,
    pub size: u64,
}

/// An error as the text that the front end shows.
#[derive(Debug)]
pub struct SerializedError(pub String);

/// The number of progress callbacks from one report to the next.
pub const REPORT_EVERY: u8 = 6;

/// Thins out the progress callbacks of one transfer.
#[derive(Debug)]
pub struct ProgressSender {
    dev: DevId,
    total: usize,
    i: u8,
}

impl ProgressSender {
    pub closed spec fn dev(&self) -> DevId {
        self.dev
    }

    pub closed spec fn total(&self) -> usize {
        self.total
    }

    /// The number of callbacks since the last report that went out on the
    /// count alone; 0 before the first callback.
    pub closed spec fn since_report(&self) -> u8 {
        self.i
    }

    pub open spec fn wf(&self) -> bool {
        self.since_report() <= REPORT_EVERY
    }

    /// Takes one callback with the amount that remains. A report goes out on
    /// the first callback and on every sixth after it, and whenever nothing
    /// remains; a report for that reason does not restart the count.
    pub fn send(&mut self, remaining: usize) -> (report: Option<ProgressUpdate>)
        requires
            old(self).wf(),
        ensures
            final(self).wf(),
            final(self).dev() == old(self).dev(),
            final(self).total() == old(self).total(),
            final(self).since_report() == old(self).since_report() % REPORT_EVERY + 1,
            report == (if old(self).since_report() % REPORT_EVERY == 0 || remaining == 0 {
                Some(ProgressUpdate { dev: old(self).dev(), remaining, total: old(self).total() })
            } else {
                None
            }),
    {
        if self.i > 5 {
            self.i = 0;
        }
        let report = if self.i == 0 || remaining == 0 {
            Some(ProgressUpdate { dev: self.dev, remaining, total: self.total })
        } else {
            None
        };
        self.i = self.i + 1;
        report
    }
}

/// Starts the reports of a transfer of `total` bytes to or from `dev`.
pub fn progress_sender(dev: DevId, total: usize) -> (sender: ProgressSender)
    ensures
        sender.wf(),
        sender.dev() == dev,
        sender.total() == total,
        sender.since_report() == 0,
{
    ProgressSender { dev, total, i: 0 }
}

} // verus!
