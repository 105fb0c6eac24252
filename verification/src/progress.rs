//! The progress channel: the one progress record of a transfer, which its
//! worker writes and its consumer reads.
//!
//! A channel is changed by its operations alone, and each of them works on
//! the whole record, so a reader never sees half of a change. What a channel
//! holds is consistent at all times: no more files are counted as done than
//! the total, and an outcome is there only while no transfer runs. Where a
//! worker and a consumer share a channel, they hold it behind one lock and
//! take the lock once for each operation.
use vstd::prelude::*;
use crate::models::{outcome_view, BackupProgress, BackupProgressView};

verus! {

/// The progress record of a transfer, kept consistent.
pub struct ProgressChannel {
    record: BackupProgress,
}

impl View for ProgressChannel {
    type V = BackupProgressView;

    /// What the channel holds.
    closed spec fn view(&self) -> BackupProgressView {
        self.record@
    }
}

impl ProgressChannel {
    /// What a channel holds is consistent.
    #[verifier::type_invariant]
    spec fn holds_consistent(self) -> bool {
        self.record@.consistent()
    }

    /// A channel on which nothing has happened yet: it holds the idle record.
    pub fn new() -> (channel: ProgressChannel)
        ensures
            channel@ == BackupProgressView::idle(),
    {
        ProgressChannel { record: BackupProgress::default() }
    }

    /// A copy of the whole record that the channel holds, taken at once.
    pub fn read(&self) -> (record: BackupProgress)
        ensures
            record@ == self@,
            record@.consistent(),
    {
        proof {
            use_type_invariant(self);
        }
        self.record.snapshot()
    }

    /// Begins a transfer, unless one runs: the record is reset and marked as
    /// running. Says whether the transfer was begun; where it was not, nothing
    /// changes.
    pub fn start(&mut self) -> (begun: bool)
        ensures
            begun == !old(self)@.is_running,
            begun ==> final(self)@ == BackupProgressView::started(),
            !begun ==> final(self)@ == old(self)@,
    {
        let begun = !self.record.is_running;
        if begun {
            let mut record = self.record.snapshot();
            record.start();
            self.record = record;
        }
        begun
    }

    /// Sets the number of files that the transfer will write, and the number
    /// of those taken up to none.
    pub fn set_total(&mut self, total: usize)
        ensures
            final(self)@ == (BackupProgressView {
                total: total as nat,
                current: 0,
                ..old(self)@
            }),
    {
        proof {
            use_type_invariant(&*self);
        }
        let mut record = self.record.snapshot();
        record.current = 0;
        record.set_total(total);
        self.record = record;
    }

    /// Names the file that the transfer takes up, and counts it, unless as
    /// many files as the total are counted already.
    pub fn record_file(&mut self, name: String)
        ensures
            final(self)@ == (BackupProgressView {
                current: if old(self)@.current < old(self)@.total {
                    old(self)@.current + 1
                } else {
                    old(self)@.current
                },
                current_file: name@,
                ..old(self)@
            }),
    {
        proof {
            use_type_invariant(&*self);
        }
        let mut record = self.record.snapshot();
        if record.current < record.total {
            record.record_file(name);
        } else {
            record.current_file = name;
        }
        self.record = record;
    }

    /// Ends the transfer with its outcome.
    pub fn finish(&mut self, outcome: Result<String, String>)
        ensures
            final(self)@ == (BackupProgressView {
                is_running: false,
                result: outcome_view(Some(outcome)),
                ..old(self)@
            }),
    {
        proof {
            use_type_invariant(&*self);
        }
        let mut record = self.record.snapshot();
        record.finish(outcome);
        self.record = record;
    }

    /// Hands out the outcome of a finished transfer and clears it, so that it
    /// is read once. While a transfer runs there is none, and nothing changes.
    pub fn take_result(&mut self) -> (outcome: Option<Result<String, String>>)
        ensures
            outcome_view(outcome) == old(self)@.result,
            final(self)@ == (BackupProgressView { result: None, ..old(self)@ }),
    {
        proof {
            use_type_invariant(&*self);
        }
        let mut record = self.record.snapshot();
        let outcome = record.take_result();
        self.record = record;
        outcome
    }
}

} // verus!
