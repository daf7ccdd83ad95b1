//! Byte progress of long copies (backup export and import): bytes are
//! counted as they are written, and a report is due every 64 KiB and once
//! the total is reached.
use vstd::prelude::*;

verus! {

/// A report is due after at least this many bytes since the last one.
pub const THROTTLE_BYTES: u64 = 64 * 1024;

/// Counts written bytes and decides when progress is reported.
pub struct ProgressCounter {
    written: u64,
    total: u64,
    last_reported: u64,
}

impl ProgressCounter {
    #[verifier::type_invariant]
    spec fn inv(self) -> bool {
        self.last_reported <= self.written
    }

    /// Bytes written so far.
    pub closed spec fn written_spec(self) -> u64 {
        self.written
    }

    /// The byte count at the last report (0 before the first).
    pub closed spec fn last_reported_spec(self) -> u64 {
        self.last_reported
    }

    /// The number of bytes expected in all.
    pub closed spec fn total_spec(self) -> u64 {
        self.total
    }

    /// A counter at zero expecting `total` bytes.
    pub fn new(total: u64) -> (r: Self)
        ensures
            r.written_spec() == 0,
            r.last_reported_spec() == 0,
            r.total_spec() == total,
    {
        ProgressCounter { written: 0, total, last_reported: 0 }
    }

    /// Bytes written so far.
    pub fn written(&self) -> (r: u64)
        ensures
            r == self.written_spec(),
    {
        self.written
    }

    /// The number of bytes expected in all.
    pub fn total(&self) -> (r: u64)
        ensures
            r == self.total_spec(),
    {
        self.total
    }

    /// Counts `n` more bytes; returns the byte count to report when at least
    /// 64 KiB were written since the last report or the total is reached.
    pub fn advance(&mut self, n: u64) -> (report: Option<u64>)
        requires
            old(self).written_spec() + n <= u64::MAX,
        ensures
            final(self).written_spec() == old(self).written_spec() + n,
            final(self).total_spec() == old(self).total_spec(),
            report == (if final(self).written_spec() - old(self).last_reported_spec() >= THROTTLE_BYTES
                || final(self).written_spec() >= old(self).total_spec() {
                Some(final(self).written_spec())
            } else {
                None::<u64>
            }),
            final(self).last_reported_spec() == (match report {
                Some(c) => c,
                None => old(self).last_reported_spec(),
            }),
            // reports never go backwards, and reaching the total is always reported
            final(self).last_reported_spec() >= old(self).last_reported_spec(),
            final(self).written_spec() >= old(self).total_spec() ==> report == Some(
                final(self).written_spec(),
            ),
    {
        proof {
            use_type_invariant(&*self);
        }
        let current = self.written + n;
        self.written = current;
        if current - self.last_reported >= THROTTLE_BYTES || current >= self.total {
            self.last_reported = current;
            Some(current)
        } else {
            None
        }
    }
}

} // verus!
