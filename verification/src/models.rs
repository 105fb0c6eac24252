//! The records that the inventory and the transfer engine hand to their
//! callers, and the progress record of a running transfer.
use vstd::prelude::*;

verus! {

/// One world directory, as an inventory found it.
#[derive(Debug, Clone, PartialEq, Eq)]
pub struct WorldInfo {
    pub name: String,
    pub path: String,
    pub size: u64,
    pub last_played: Option<String>,
}

/// What a `WorldInfo` says.
pub struct WorldInfoView {
    pub name: Seq<char>,
    pub path: Seq<char>,
    pub size: nat,
    pub last_played: Option<Seq<char>>,
}

/// One backup file of a world.
#[derive(Debug, Clone, PartialEq, Eq)]
pub struct BackupInfo {
    pub name: String,
    pub path: String,
    pub size: u64,
}

/// What a `BackupInfo` says.
pub struct BackupInfoView {
    pub name: Seq<char>,
    pub path: Seq<char>,
    pub size: nat,
}

/// The newest log file of a world, with its text.
#[derive(Debug, Clone, PartialEq, Eq)]
pub struct LogInfo {
    pub name: String,
    pub path: String,
    pub content: String,
}

/// What a `LogInfo` says.
pub struct LogInfoView {
    pub name: Seq<char>,
    pub path: Seq<char>,
    pub content: Seq<char>,
}

/// The state of a transfer, as its worker reports it and its consumer reads
/// it.
#[derive(Debug, Clone, PartialEq, Eq)]
pub struct BackupProgress {
    pub current: usize,
    pub total: usize,
    pub current_file: String,
    pub is_running: bool,
    pub result: Option<Result<String, String>>,
}

/// What a `BackupProgress` says.
pub struct BackupProgressView {
    pub current: nat,
    pub total: nat,
    pub current_file: Seq<char>,
    pub is_running: bool,
    pub result: Option<Result<Seq<char>, Seq<char>>>,
}

/// What an optional text says.
pub open spec fn text_option_view(text: Option<String>) -> Option<Seq<char>> {
    match text {
        Some(t) => Some(t@),
        None => None,
    }
}

/// What the outcome of a transfer says: the path of the archive, or the
/// reason of the failure.
pub open spec fn outcome_view(
    outcome: Option<Result<String, String>>,
) -> Option<Result<Seq<char>, Seq<char>>> {
    match outcome {
        Some(Ok(path)) => Some(Ok(path@)),
        Some(Err(reason)) => Some(Err(reason@)),
        None => None,
    }
}

impl View for WorldInfo {
    type V = WorldInfoView;

    open spec fn view(&self) -> WorldInfoView {
        WorldInfoView {
            name: self.name@,
            path: self.path@,
            size: self.size as nat,
            last_played: text_option_view(self.last_played),
        }
    }
}

impl DeepView for WorldInfo {
    type V = WorldInfoView;

    open spec fn deep_view(&self) -> WorldInfoView {
        self.view()
    }
}

impl DeepView for BackupInfo {
    type V = BackupInfoView;

    open spec fn deep_view(&self) -> BackupInfoView {
        self.view()
    }
}

impl View for BackupInfo {
    type V = BackupInfoView;

    open spec fn view(&self) -> BackupInfoView {
        BackupInfoView { name: self.name@, path: self.path@, size: self.size as nat }
    }
}

impl View for LogInfo {
    type V = LogInfoView;

    open spec fn view(&self) -> LogInfoView {
        LogInfoView { name: self.name@, path: self.path@, content: self.content@ }
    }
}

impl View for BackupProgress {
    type V = BackupProgressView;

    open spec fn view(&self) -> BackupProgressView {
        BackupProgressView {
            current: self.current as nat,
            total: self.total as nat,
            current_file: self.current_file@,
            is_running: self.is_running,
            result: outcome_view(self.result),
        }
    }
}

impl BackupProgressView {
    /// The state before any transfer: nothing counted, nothing running, no
    /// outcome.
    pub open spec fn idle() -> BackupProgressView {
        BackupProgressView {
            current: 0,
            total: 0,
            current_file: Seq::<char>::empty(),
            is_running: false,
            result: None,
        }
    }

    /// The state in which a transfer begins.
    pub open spec fn started() -> BackupProgressView {
        BackupProgressView { is_running: true, ..Self::idle() }
    }

    /// No more files are counted as done than there are, and an outcome is
    /// there only when no transfer runs.
    pub open spec fn consistent(self) -> bool {
        &&& self.current <= self.total
        &&& self.result is Some ==> !self.is_running
    }
}

/// Each step in the life of a progress record leaves it consistent: the
/// start of a transfer, a file taken up while files are left to take up, the
/// end of the transfer, and the reading of its outcome.
pub proof fn lemma_record_stays_consistent(
    before: BackupProgressView,
    name: Seq<char>,
    outcome: Result<Seq<char>, Seq<char>>,
)
    requires
        before.consistent(),
    ensures
        BackupProgressView::idle().consistent(),
        BackupProgressView::started().consistent(),
        before.current < before.total ==> (BackupProgressView {
            current: before.current + 1,
            current_file: name,
            ..before
        }).consistent(),
        (BackupProgressView { is_running: false, result: Some(outcome), ..before }).consistent(),
        (BackupProgressView { result: None, ..before }).consistent(),
{
}

impl Default for BackupProgress {
    fn default() -> (progress: BackupProgress)
        ensures
            progress@ == BackupProgressView::idle(),
    {
        BackupProgress {
            current: 0,
            total: 0,
            current_file: String::new(),
            is_running: false,
            result: None,
        }
    }
}

impl BackupProgress {
    /// Resets the record for a transfer that is about to begin.
    pub fn start(&mut self)
        ensures
            final(self)@ == BackupProgressView::started(),
    {
        self.is_running = true;
        self.current = 0;
        self.total = 0;
        self.current_file = String::new();
        self.result = None;
    }

    /// Sets the number of files that the transfer will write.
    pub fn set_total(&mut self, total: usize)
        ensures
            final(self)@ == (BackupProgressView { total: total as nat, ..old(self)@ }),
    {
        self.total = total;
    }

    /// Counts one more file as taken up, and names it.
    pub fn record_file(&mut self, name: String)
        requires
            old(self).current < old(self).total,
        ensures
            final(self)@ == (BackupProgressView {
                current: old(self)@.current + 1,
                current_file: name@,
                ..old(self)@
            }),
    {
        self.current = self.current + 1;
        self.current_file = name;
    }

    /// Ends the transfer with its outcome.
    pub fn finish(&mut self, outcome: Result<String, String>)
        ensures
            final(self)@ == (BackupProgressView {
                is_running: false,
                result: outcome_view(Some(outcome)),
                ..old(self)@
            }),
    {
        self.is_running = false;
        self.result = Some(outcome);
    }

    /// Hands out the outcome of a finished transfer and clears it, so that it
    /// is read once. While a transfer runs nothing is handed out and nothing
    /// changes.
    pub fn take_result(&mut self) -> (outcome: Option<Result<String, String>>)
        ensures
            old(self).is_running ==> outcome is None && final(self)@ == old(self)@,
            !old(self).is_running ==> outcome_view(outcome) == old(self)@.result && final(self)@
                == (BackupProgressView { result: None, ..old(self)@ }),
    {
        if self.is_running {
            return None;
        }
        let mut outcome: Option<Result<String, String>> = None;
        std::mem::swap(&mut self.result, &mut outcome);
        outcome
    }

    /// A copy of the whole record, taken at once.
    pub fn snapshot(&self) -> (copy: BackupProgress)
        ensures
            copy@ == self@,
    {
        let result = match &self.result {
            Some(Ok(path)) => Some(Ok(path.clone())),
            Some(Err(reason)) => Some(Err(reason.clone())),
            None => None,
        };
        BackupProgress {
            current: self.current,
            total: self.total,
            current_file: self.current_file.clone(),
            is_running: self.is_running,
            result,
        }
    }
}

} // verus!
