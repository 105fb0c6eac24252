//! The transfer engine: which entries of a world directory go into its
//! archive and under which names, and which entries of an archive are written
//! back, and where.
//!
//! The engine decides; it touches no file. Its caller walks the directory or
//! reads the archive's table of entries, hands the listing over, and carries
//! out the steps that come back, in their order.
use vstd::prelude::*;
use vstd::string::*;
use crate::models::BackupProgressView;
use crate::progress::ProgressChannel;
use crate::text::{chars_end_with, chars_of, ends_with, str_equal};

verus! {

/// What an entry of a directory tree is.
#[derive(Debug, Clone, Copy, PartialEq, Eq, Structural)]
pub enum EntryKind {
    File,
    Directory,
    Other,
}

/// One entry that a walk of a directory tree met: where it lies below the
/// root of the walk, one name per level (none for the root itself), what it
/// is, and its size in bytes where that could be read.
#[derive(Debug, Clone, PartialEq, Eq)]
pub struct WalkEntry {
    pub relative: Vec<String>,
    pub kind: EntryKind,
    pub size: Option<u64>,
}

/// What a `WalkEntry` says.
pub struct WalkEntryView {
    pub relative: Seq<Seq<char>>,
    pub kind: EntryKind,
    pub size: Option<u64>,
}

/// One item of a walk: an entry, or the failure to read one, with its reason.
#[derive(Debug, Clone, PartialEq, Eq)]
pub enum WalkItem {
    Entry(WalkEntry),
    Failed(String),
}

/// What a `WalkItem` says.
pub enum WalkItemView {
    Entry(WalkEntryView),
    Failed(Seq<char>),
}

/// One step of writing an archive. `index` is the place of the entry in the
/// listing that the plan was made from.
#[derive(Debug, Clone, PartialEq, Eq)]
pub enum BackupStep {
    /// Write the file's bytes as the archive entry `name`.
    AddFile { index: usize, name: String },
    /// Write the directory entry `name`.
    AddDirectory { index: usize, name: String },
    /// Give up: the walk failed here, for this reason.
    Fail { reason: String },
}

/// What a `BackupStep` says.
pub enum BackupStepView {
    AddFile { index: nat, name: Seq<char> },
    AddDirectory { index: nat, name: Seq<char> },
    Fail { reason: Seq<char> },
}

impl DeepView for WalkEntry {
    type V = WalkEntryView;

    open spec fn deep_view(&self) -> WalkEntryView {
        WalkEntryView { relative: self.relative.deep_view(), kind: self.kind, size: self.size }
    }
}

impl DeepView for WalkItem {
    type V = WalkItemView;

    open spec fn deep_view(&self) -> WalkItemView {
        match self {
            WalkItem::Entry(entry) => WalkItemView::Entry(entry.deep_view()),
            WalkItem::Failed(reason) => WalkItemView::Failed(reason@),
        }
    }
}

impl DeepView for BackupStep {
    type V = BackupStepView;

    open spec fn deep_view(&self) -> BackupStepView {
        match self {
            BackupStep::AddFile { index, name } => BackupStepView::AddFile {
                index: *index as nat,
                name: name@,
            },
            BackupStep::AddDirectory { index, name } => BackupStepView::AddDirectory {
                index: *index as nat,
                name: name@,
            },
            BackupStep::Fail { reason } => BackupStepView::Fail { reason: reason@ },
        }
    }
}

/// An entry is left out of the archive when a level of its path is named
/// `logs` and logs are not wanted, or is named `backup` and backups are not
/// wanted. A directory so named is left out with everything below it.
pub open spec fn excluded(
    relative: Seq<Seq<char>>,
    include_logs: bool,
    include_backups: bool,
) -> bool {
    ||| !include_logs && relative.contains("logs"@)
    ||| !include_backups && relative.contains("backup"@)
}

/// The levels of a path written as one name, with a slash between them.
pub open spec fn joined(segments: Seq<Seq<char>>) -> Seq<char>
    decreases segments.len(),
{
    if segments.len() == 0 {
        Seq::<char>::empty()
    } else if segments.len() == 1 {
        segments[0]
    } else {
        joined(segments.drop_last()) + seq!['/'] + segments.last()
    }
}

/// What the archive writer does with the item at place `index` of a listing:
/// a failed read ends the transfer; an excluded entry, the root itself and
/// whatever is neither file nor directory are passed over; a file is written
/// under its path, a directory under its path with a slash at the end.
pub open spec fn step_for(
    item: WalkItemView,
    index: nat,
    include_logs: bool,
    include_backups: bool,
) -> Option<BackupStepView> {
    match item {
        WalkItemView::Failed(reason) => Some(BackupStepView::Fail { reason }),
        WalkItemView::Entry(entry) => {
            if excluded(entry.relative, include_logs, include_backups) || entry.relative.len()
                == 0 {
                None
            } else {
                match entry.kind {
                    EntryKind::File => Some(
                        BackupStepView::AddFile { index, name: joined(entry.relative) },
                    ),
                    EntryKind::Directory => Some(
                        BackupStepView::AddDirectory {
                            index,
                            name: joined(entry.relative) + seq!['/'],
                        },
                    ),
                    EntryKind::Other => None,
                }
            }
        },
    }
}

/// The item is a file that the archive takes.
pub open spec fn is_included_file(
    item: WalkItemView,
    include_logs: bool,
    include_backups: bool,
) -> bool {
    step_for(item, 0, include_logs, include_backups) matches Some(BackupStepView::AddFile { .. })
}

/// How many files of the listing the archive takes. Failed reads are passed
/// over here: the number is known before the first byte is written.
pub open spec fn included_file_count(
    listing: Seq<WalkItemView>,
    include_logs: bool,
    include_backups: bool,
) -> nat
    decreases listing.len(),
{
    if listing.len() == 0 {
        0
    } else {
        let before = included_file_count(listing.drop_last(), include_logs, include_backups);
        if is_included_file(listing.last(), include_logs, include_backups) {
            before + 1
        } else {
            before
        }
    }
}

/// The plan ends in a failure.
pub open spec fn failed(plan: Seq<BackupStepView>) -> bool {
    plan.len() > 0 && plan.last() is Fail
}

/// How many files the plan writes.
pub open spec fn files_in(plan: Seq<BackupStepView>) -> nat
    decreases plan.len(),
{
    if plan.len() == 0 {
        0
    } else {
        if plan.last() is AddFile {
            files_in(plan.drop_last()) + 1
        } else {
            files_in(plan.drop_last())
        }
    }
}

/// The steps that write the archive of a listing: the step of each item in
/// the order of the listing, up to and with the first failure.
pub open spec fn planned(
    listing: Seq<WalkItemView>,
    include_logs: bool,
    include_backups: bool,
) -> Seq<BackupStepView>
    decreases listing.len(),
{
    if listing.len() == 0 {
        Seq::<BackupStepView>::empty()
    } else {
        let before = planned(listing.drop_last(), include_logs, include_backups);
        if failed(before) {
            before
        } else {
            match step_for(
                listing.last(),
                (listing.len() - 1) as nat,
                include_logs,
                include_backups,
            ) {
                Some(step) => before.push(step),
                None => before,
            }
        }
    }
}

/// Whether a level of the path bears the name `name`.
fn has_segment(relative: &Vec<String>, name: &str) -> (found: bool)
    ensures
        found == relative.deep_view().contains(name@),
{
    let mut i: usize = 0;
    while i < relative.len()
        invariant
            i <= relative.len(),
            forall|k: int| 0 <= k < i ==> relative.deep_view()[k] != name@,
        decreases relative.len() - i,
    {
        if str_equal(relative[i].as_str(), name) {
            assert(relative.deep_view()[i as int] == name@);
            return true;
        }
        i += 1;
    }
    false
}

/// Whether the entry at `relative` is left out of the archive.
pub fn should_exclude(
    relative: &Vec<String>,
    include_logs: bool,
    include_backups: bool,
) -> (out: bool)
    ensures
        out == excluded(relative.deep_view(), include_logs, include_backups),
{
    let logs_out = !include_logs && has_segment(relative, "logs");
    let backups_out = !include_backups && has_segment(relative, "backup");
    logs_out || backups_out
}

/// The name of the archive entry for the path `relative`.
pub fn entry_name(relative: &Vec<String>) -> (name: String)
    ensures
        name@ == joined(relative.deep_view()),
{
    let mut name = String::new();
    let mut i: usize = 0;
    let ghost segments = relative.deep_view();
    while i < relative.len()
        invariant
            i <= relative.len(),
            segments == relative.deep_view(),
            name@ == joined(segments.take(i as int)),
        decreases relative.len() - i,
    {
        if i > 0 {
            name.append("/");
        }
        name.append(relative[i].as_str());
        proof {
            reveal_strlit("/");
            assert(segments.take(i + 1).drop_last() =~= segments.take(i as int));
            assert(segments.take(i + 1).last() == segments[i as int]);
            assert(name@ =~= joined(segments.take(i + 1)));
        }
        i += 1;
    }
    assert(segments.take(relative.len() as int) =~= segments);
    name
}

/// The step of the archive writer for one item of a listing, or none where
/// the item is passed over.
pub fn backup_step(
    item: &WalkItem,
    index: usize,
    include_logs: bool,
    include_backups: bool,
) -> (step: Option<BackupStep>)
    ensures
        step.deep_view() == step_for(
            item.deep_view(),
            index as nat,
            include_logs,
            include_backups,
        ),
{
    match item {
        WalkItem::Failed(reason) => Some(BackupStep::Fail { reason: reason.clone() }),
        WalkItem::Entry(entry) => {
            if should_exclude(&entry.relative, include_logs, include_backups)
                || entry.relative.len() == 0 {
                None
            } else {
                match entry.kind {
                    EntryKind::File => Some(
                        BackupStep::AddFile { index, name: entry_name(&entry.relative) },
                    ),
                    EntryKind::Directory => {
                        let mut name = entry_name(&entry.relative);
                        name.append("/");
                        proof {
                            reveal_strlit("/");
                            assert(name@ =~= joined(entry.relative.deep_view()) + seq!['/']);
                        }
                        Some(BackupStep::AddDirectory { index, name })
                    },
                    EntryKind::Other => None,
                }
            }
        },
    }
}

/// The place in the listing of the entry that a step writes, where it
/// writes one.
pub open spec fn source_of(step: BackupStepView) -> Option<nat> {
    match step {
        BackupStepView::AddFile { index, .. } => Some(index),
        BackupStepView::AddDirectory { index, .. } => Some(index),
        BackupStepView::Fail { .. } => None,
    }
}

/// A plan writes nothing that is left out: each step that writes names an
/// entry of the listing that lies below the root and is not excluded, and is
/// the step of that entry; and a failure is the last step of its plan.
pub proof fn lemma_plan_leaves_out_excluded(
    listing: Seq<WalkItemView>,
    include_logs: bool,
    include_backups: bool,
    k: int,
)
    requires
        0 <= k < planned(listing, include_logs, include_backups).len(),
    ensures
        match source_of(planned(listing, include_logs, include_backups)[k]) {
            Some(index) => {
                &&& index < listing.len()
                &&& listing[index as int] is Entry
                &&& !excluded(listing[index as int]->Entry_0.relative, include_logs, include_backups)
                &&& listing[index as int]->Entry_0.relative.len() > 0
                &&& step_for(listing[index as int], index, include_logs, include_backups) == Some(
                    planned(listing, include_logs, include_backups)[k],
                )
            },
            None => k == planned(listing, include_logs, include_backups).len() - 1,
        },
    decreases listing.len(),
{
    if listing.len() > 0 {
        let before = planned(listing.drop_last(), include_logs, include_backups);
        if k < before.len() {
            lemma_plan_leaves_out_excluded(listing.drop_last(), include_logs, include_backups, k);
        }
    }
}

/// The number of files written rises, or stays, from one step of a plan to
/// the next.
pub proof fn lemma_files_written_rise(plan: Seq<BackupStepView>, earlier: int, later: int)
    requires
        0 <= earlier <= later <= plan.len(),
    ensures
        files_in(plan.take(earlier)) <= files_in(plan.take(later)),
    decreases later - earlier,
{
    if earlier < later {
        assert(plan.take(later).drop_last() =~= plan.take(later - 1));
        lemma_files_written_rise(plan, earlier, later - 1);
    }
}

/// While a plan is carried out, the number of files taken up never falls
/// and never passes the number that the listing counts; and where the plan
/// meets no failure, it ends at that number.
pub proof fn lemma_completed_rises_to_total(
    listing: Seq<WalkItemView>,
    include_logs: bool,
    include_backups: bool,
    earlier: int,
    later: int,
)
    requires
        0 <= earlier <= later <= planned(listing, include_logs, include_backups).len(),
    ensures
        files_in(planned(listing, include_logs, include_backups).take(earlier)) <= files_in(
            planned(listing, include_logs, include_backups).take(later),
        ),
        files_in(planned(listing, include_logs, include_backups).take(later))
            <= included_file_count(listing, include_logs, include_backups),
        !failed(planned(listing, include_logs, include_backups)) ==> files_in(
            planned(listing, include_logs, include_backups).take(
                planned(listing, include_logs, include_backups).len() as int,
            ),
        ) == included_file_count(listing, include_logs, include_backups),
{
    let plan = planned(listing, include_logs, include_backups);
    lemma_files_written_rise(plan, earlier, later);
    lemma_files_written_rise(plan, later, plan.len() as int);
    lemma_plan_writes_counted_files(listing, include_logs, include_backups);
    assert(plan.take(plan.len() as int) =~= plan);
}

/// A plan never writes more files than its listing counts, and one that meets
/// no failure writes them all.
pub proof fn lemma_plan_writes_counted_files(
    listing: Seq<WalkItemView>,
    include_logs: bool,
    include_backups: bool,
)
    ensures
        files_in(planned(listing, include_logs, include_backups)) <= included_file_count(
            listing,
            include_logs,
            include_backups,
        ),
        !failed(planned(listing, include_logs, include_backups)) ==> files_in(
            planned(listing, include_logs, include_backups),
        ) == included_file_count(listing, include_logs, include_backups),
    decreases listing.len(),
{
    if listing.len() > 0 {
        let before = planned(listing.drop_last(), include_logs, include_backups);
        lemma_plan_writes_counted_files(listing.drop_last(), include_logs, include_backups);
        if !failed(before) {
            match step_for(
                listing.last(),
                (listing.len() - 1) as nat,
                include_logs,
                include_backups,
            ) {
                Some(step) => {
                    assert(before.push(step).drop_last() =~= before);
                },
                None => {},
            }
        }
    }
}

/// Whether the item is a file that the archive takes.
fn takes_file(item: &WalkItem, include_logs: bool, include_backups: bool) -> (taken: bool)
    ensures
        taken == is_included_file(item.deep_view(), include_logs, include_backups),
{
    match item {
        WalkItem::Failed(_) => false,
        WalkItem::Entry(entry) => {
            matches!(entry.kind, EntryKind::File) && entry.relative.len() > 0 && !should_exclude(
                &entry.relative,
                include_logs,
                include_backups,
            )
        },
    }
}

/// How many files of a listing the archive takes.
pub fn count_included_files(
    listing: &Vec<WalkItem>,
    include_logs: bool,
    include_backups: bool,
) -> (count: usize)
    ensures
        count == included_file_count(listing.deep_view(), include_logs, include_backups),
{
    let ghost items = listing.deep_view();
    let mut count: usize = 0;
    let mut i: usize = 0;
    while i < listing.len()
        invariant
            i <= listing.len(),
            items == listing.deep_view(),
            count <= i,
            count == included_file_count(items.take(i as int), include_logs, include_backups),
        decreases listing.len() - i,
    {
        proof {
            assert(items.take(i + 1).drop_last() =~= items.take(i as int));
            assert(items.take(i + 1).last() == listing[i as int].deep_view());
        }
        if takes_file(&listing[i], include_logs, include_backups) {
            count = count + 1;
        }
        i += 1;
    }
    assert(items.take(listing.len() as int) =~= items);
    count
}

/// The steps that write the archive of a listing, in their order.
pub fn plan_backup(
    listing: &Vec<WalkItem>,
    include_logs: bool,
    include_backups: bool,
) -> (steps: Vec<BackupStep>)
    ensures
        steps.deep_view() == planned(listing.deep_view(), include_logs, include_backups),
{
    let ghost items = listing.deep_view();
    let mut steps: Vec<BackupStep> = Vec::new();
    let mut i: usize = 0;
    assert(steps.deep_view() =~= planned(items.take(0), include_logs, include_backups));
    while i < listing.len()
        invariant_except_break
            !failed(steps.deep_view()),
        invariant
            i <= listing.len(),
            items == listing.deep_view(),
            steps.deep_view() == planned(items.take(i as int), include_logs, include_backups),
        ensures
            i < listing.len() ==> failed(steps.deep_view()),
        decreases listing.len() - i,
    {
        let step = backup_step(&listing[i], i, include_logs, include_backups);
        proof {
            assert(items.take(i + 1).drop_last() =~= items.take(i as int));
            assert(items.take(i + 1).last() == listing[i as int].deep_view());
        }
        i += 1;
        match step {
            Some(step) => {
                let ghost before = steps.deep_view();
                let stop = matches!(&step, BackupStep::Fail { .. });
                steps.push(step);
                assert(steps.deep_view() =~= before.push(step.deep_view()));
                if stop {
                    break ;
                }
            },
            None => {},
        }
    }
    proof {
        lemma_failed_plan_is_final(items, include_logs, include_backups, i as int);
    }
    steps
}

/// Once a plan has met a failure, the items that follow add nothing to it.
proof fn lemma_failed_plan_is_final(
    listing: Seq<WalkItemView>,
    include_logs: bool,
    include_backups: bool,
    upto: int,
)
    requires
        0 <= upto <= listing.len(),
        upto < listing.len() ==> failed(planned(listing.take(upto), include_logs, include_backups)),
    ensures
        planned(listing, include_logs, include_backups) == planned(
            listing.take(upto),
            include_logs,
            include_backups,
        ),
    decreases listing.len() - upto,
{
    if upto == listing.len() {
        assert(listing.take(upto) =~= listing);
    } else {
        assert(listing.take(upto + 1).drop_last() =~= listing.take(upto));
        lemma_failed_plan_is_final(listing, include_logs, include_backups, upto + 1);
    }
}

/// Plans the writing of a world's archive from two walks of the world
/// directory. From the first, `counted`, comes the number of files to write,
/// which is set on the progress channel before a byte is written; from the
/// second, `walked`, come the steps to take, in their order.
///
/// Where the two walks found the same, the plan writes no more files than
/// were counted, and all of them where it meets no failure.
pub fn backup_world_to_path_with_progress(
    counted: &Vec<WalkItem>,
    walked: &Vec<WalkItem>,
    include_logs: bool,
    include_backups: bool,
    progress: &mut ProgressChannel,
) -> (steps: Vec<BackupStep>)
    ensures
        steps.deep_view() == planned(walked.deep_view(), include_logs, include_backups),
        final(progress)@ == (BackupProgressView {
            total: included_file_count(counted.deep_view(), include_logs, include_backups),
            current: 0,
            ..old(progress)@
        }),
        counted.deep_view() == walked.deep_view() ==> files_in(steps.deep_view())
            <= final(progress)@.total,
        counted.deep_view() == walked.deep_view() && !failed(steps.deep_view())
            ==> files_in(steps.deep_view()) == final(progress)@.total,
{
    let total = count_included_files(counted, include_logs, include_backups);
    progress.set_total(total);
    let steps = plan_backup(walked, include_logs, include_backups);
    proof {
        lemma_plan_writes_counted_files(walked.deep_view(), include_logs, include_backups);
    }
    steps
}

/// One level of the path that an archive entry asks to be written to.
#[derive(Debug, Clone, PartialEq, Eq)]
pub enum PathPart {
    /// The mark of a drive or of a network share.
    Prefix,
    /// The root of the file system.
    Root,
    /// The directory itself.
    Current,
    /// The directory above.
    Parent,
    /// A name.
    Normal(String),
}

/// What a `PathPart` says.
pub enum PathPartView {
    Prefix,
    Root,
    Current,
    Parent,
    Normal(Seq<char>),
}

/// One entry of an archive's table: its name as the archive has it and, where
/// the archive reader found the name to lie inside the place of extraction,
/// the path it stands for; or the failure to read the entry, with its reason.
#[derive(Debug, Clone, PartialEq, Eq)]
pub enum ArchiveItem {
    Entry { name: String, enclosed: Option<Vec<PathPart>> },
    Failed(String),
}

/// What an `ArchiveItem` says.
pub enum ArchiveItemView {
    Entry { name: Seq<char>, enclosed: Option<Seq<PathPartView>> },
    Failed(Seq<char>),
}

/// One step of writing an archive back. `index` is the place of the entry in
/// the archive's table; `target` lies below the world directory.
#[derive(Debug, Clone, PartialEq, Eq)]
pub enum ImportStep {
    /// Make the directory `target`, with those above it.
    CreateDirectory { index: usize, target: Vec<PathPart> },
    /// Make the directories above `target` where they are missing, and write
    /// the entry's bytes to `target`.
    WriteFile { index: usize, target: Vec<PathPart> },
    /// Give up: the archive could not be read here, for this reason.
    Fail { reason: String },
}

/// What an `ImportStep` says.
pub enum ImportStepView {
    CreateDirectory { index: nat, target: Seq<PathPartView> },
    WriteFile { index: nat, target: Seq<PathPartView> },
    Fail { reason: Seq<char> },
}

impl DeepView for PathPart {
    type V = PathPartView;

    open spec fn deep_view(&self) -> PathPartView {
        match self {
            PathPart::Prefix => PathPartView::Prefix,
            PathPart::Root => PathPartView::Root,
            PathPart::Current => PathPartView::Current,
            PathPart::Parent => PathPartView::Parent,
            PathPart::Normal(name) => PathPartView::Normal(name@),
        }
    }
}

impl DeepView for ArchiveItem {
    type V = ArchiveItemView;

    open spec fn deep_view(&self) -> ArchiveItemView {
        match self {
            ArchiveItem::Entry { name, enclosed } => ArchiveItemView::Entry {
                name: name@,
                enclosed: enclosed.deep_view(),
            },
            ArchiveItem::Failed(reason) => ArchiveItemView::Failed(reason@),
        }
    }
}

impl DeepView for ImportStep {
    type V = ImportStepView;

    open spec fn deep_view(&self) -> ImportStepView {
        match self {
            ImportStep::CreateDirectory { index, target } => ImportStepView::CreateDirectory {
                index: *index as nat,
                target: target.deep_view(),
            },
            ImportStep::WriteFile { index, target } => ImportStepView::WriteFile {
                index: *index as nat,
                target: target.deep_view(),
            },
            ImportStep::Fail { reason } => ImportStepView::Fail { reason: reason@ },
        }
    }
}

/// How many levels below its start a path ends: a name goes one down, the
/// directory above one up.
pub open spec fn depth(parts: Seq<PathPartView>) -> int
    decreases parts.len(),
{
    if parts.len() == 0 {
        0
    } else {
        depth(parts.drop_last()) + match parts.last() {
            PathPartView::Normal(_) => 1int,
            PathPartView::Parent => -1int,
            _ => 0int,
        }
    }
}

/// The name of one level of a path, and of nothing else: it is not empty, it
/// is neither `.` nor `..`, and no slash and no backslash stands in it.
pub open spec fn is_plain_name(name: Seq<char>) -> bool {
    &&& name.len() > 0
    &&& name != seq!['.']
    &&& name != seq!['.', '.']
    &&& !name.contains('/')
    &&& !name.contains('\\')
}

/// What a part of a path may be, if the path is to stay inside the directory
/// it starts from: no root and no drive, and a name only where it is the
/// name of one level.
pub open spec fn stays_level(part: PathPartView) -> bool {
    match part {
        PathPartView::Prefix => false,
        PathPartView::Root => false,
        PathPartView::Normal(name) => is_plain_name(name),
        _ => true,
    }
}

/// The path stays inside the directory it starts from: it names no root and
/// no drive, each of its names is the name of one level, and at no level has
/// it gone up further than it went down.
pub open spec fn confined(parts: Seq<PathPartView>) -> bool {
    &&& forall|k: int| 0 <= k < parts.len() ==> stays_level(#[trigger] parts[k])
    &&& forall|k: int| 0 <= k <= parts.len() ==> depth(#[trigger] parts.take(k)) >= 0
}

/// An archive entry whose name ends in a slash stands for a directory.
pub open spec fn is_directory_name(name: Seq<char>) -> bool {
    ends_with(name, seq!['/'])
}

/// What the importer does with the entry at place `index` of an archive's
/// table: a failed read ends the import; an entry without a path inside the
/// place of extraction, or with one that does not stay inside it, is passed
/// over; of the others a directory is made and a file is written.
pub open spec fn import_step_for(item: ArchiveItemView, index: nat) -> Option<ImportStepView> {
    match item {
        ArchiveItemView::Failed(reason) => Some(ImportStepView::Fail { reason }),
        ArchiveItemView::Entry { name, enclosed } => match enclosed {
            None => None,
            Some(target) => if !confined(target) {
                None
            } else if is_directory_name(name) {
                Some(ImportStepView::CreateDirectory { index, target })
            } else {
                Some(ImportStepView::WriteFile { index, target })
            },
        },
    }
}

/// The import plan ends in a failure.
pub open spec fn import_failed(plan: Seq<ImportStepView>) -> bool {
    plan.len() > 0 && plan.last() is Fail
}

/// The steps that write an archive back: the step of each entry in the order
/// of the archive's table, up to and with the first failure.
pub open spec fn import_planned(entries: Seq<ArchiveItemView>) -> Seq<ImportStepView>
    decreases entries.len(),
{
    if entries.len() == 0 {
        Seq::<ImportStepView>::empty()
    } else {
        let before = import_planned(entries.drop_last());
        if import_failed(before) {
            before
        } else {
            match import_step_for(entries.last(), (entries.len() - 1) as nat) {
                Some(step) => before.push(step),
                None => before,
            }
        }
    }
}

/// The place that a step writes to, where it writes.
pub open spec fn written_target(step: ImportStepView) -> Option<Seq<PathPartView>> {
    match step {
        ImportStepView::CreateDirectory { target, .. } => Some(target),
        ImportStepView::WriteFile { target, .. } => Some(target),
        ImportStepView::Fail { .. } => None,
    }
}

/// Whether the name is the name of one level of a path.
pub fn is_plain(name: &str) -> (plain: bool)
    ensures
        plain == is_plain_name(name@),
{
    let chars = chars_of(name);
    if chars.len() == 0 {
        return false;
    }
    if chars.len() == 1 && chars[0] == '.' {
        assert(name@ =~= seq!['.']);
        return false;
    }
    if chars.len() == 2 && chars[0] == '.' && chars[1] == '.' {
        assert(name@ =~= seq!['.', '.']);
        return false;
    }
    assert(name@ != seq!['.']) by {
        if name@ == seq!['.'] {
            assert(seq!['.'].len() == 1 && seq!['.'][0] == '.');
        }
    }
    assert(name@ != seq!['.', '.']) by {
        if name@ == seq!['.', '.'] {
            assert(seq!['.', '.'].len() == 2 && seq!['.', '.'][0] == '.' && seq!['.', '.'][1]
                == '.');
        }
    }
    let mut i: usize = 0;
    while i < chars.len()
        invariant
            i <= chars.len(),
            chars@ == name@,
            forall|k: int| 0 <= k < i ==> chars@[k] != '/' && chars@[k] != '\\',
        decreases chars.len() - i,
    {
        if chars[i] == '/' || chars[i] == '\\' {
            assert(name@.contains(chars@[i as int]));
            return false;
        }
        i += 1;
    }
    true
}

/// Whether the path stays inside the directory it starts from.
pub fn is_confined(parts: &Vec<PathPart>) -> (inside: bool)
    ensures
        inside == confined(parts.deep_view()),
{
    let ghost path = parts.deep_view();
    let mut level: usize = 0;
    let mut i: usize = 0;
    assert(path.take(0) =~= Seq::<PathPartView>::empty());
    while i < parts.len()
        invariant
            i <= parts.len(),
            path == parts.deep_view(),
            level == depth(path.take(i as int)),
            level <= i,
            forall|k: int| 0 <= k < i ==> stays_level(#[trigger] path[k]),
            forall|k: int| 0 <= k <= i ==> depth(#[trigger] path.take(k)) >= 0,
        decreases parts.len() - i,
    {
        proof {
            assert(path.take(i + 1).drop_last() =~= path.take(i as int));
            assert(path.take(i + 1).last() == path[i as int]);
            assert(path[i as int] == parts[i as int].deep_view());
        }
        match &parts[i] {
            PathPart::Prefix => {
                assert(!stays_level(path[i as int]));
                return false;
            },
            PathPart::Root => {
                assert(!stays_level(path[i as int]));
                return false;
            },
            PathPart::Current => {},
            PathPart::Parent => {
                if level == 0 {
                    assert(depth(path.take(i + 1)) < 0);
                    return false;
                }
                level = level - 1;
            },
            PathPart::Normal(name) => {
                if !is_plain(name.as_str()) {
                    assert(!stays_level(path[i as int]));
                    return false;
                }
                level = level + 1;
            },
        }
        i += 1;
    }
    true
}

/// A copy of a path.
fn copy_parts(parts: &Vec<PathPart>) -> (copy: Vec<PathPart>)
    ensures
        copy.deep_view() == parts.deep_view(),
{
    let mut copy: Vec<PathPart> = Vec::new();
    let mut i: usize = 0;
    while i < parts.len()
        invariant
            i <= parts.len(),
            copy.deep_view() == parts.deep_view().take(i as int),
        decreases parts.len() - i,
    {
        let ghost before = copy.deep_view();
        let part = match &parts[i] {
            PathPart::Prefix => PathPart::Prefix,
            PathPart::Root => PathPart::Root,
            PathPart::Current => PathPart::Current,
            PathPart::Parent => PathPart::Parent,
            PathPart::Normal(name) => PathPart::Normal(name.clone()),
        };
        copy.push(part);
        assert(copy.deep_view() =~= before.push(parts[i as int].deep_view()));
        assert(copy.deep_view() =~= parts.deep_view().take(i + 1));
        i += 1;
    }
    assert(parts.deep_view().take(parts.len() as int) =~= parts.deep_view());
    copy
}

/// Whether the name of an archive entry stands for a directory.
pub fn names_directory(name: &str) -> (directory: bool)
    ensures
        directory == is_directory_name(name@),
{
    let chars = chars_of(name);
    let slash = chars_of("/");
    proof {
        reveal_strlit("/");
        assert(slash@ =~= seq!['/']);
    }
    chars_end_with(&chars, &slash)
}

/// The step of the importer for one entry of an archive's table, or none
/// where the entry is passed over.
pub fn import_step(item: &ArchiveItem, index: usize) -> (step: Option<ImportStep>)
    ensures
        step.deep_view() == import_step_for(item.deep_view(), index as nat),
{
    match item {
        ArchiveItem::Failed(reason) => Some(ImportStep::Fail { reason: reason.clone() }),
        ArchiveItem::Entry { name, enclosed } => match enclosed {
            None => None,
            Some(target) => {
                if !is_confined(target) {
                    None
                } else if names_directory(name.as_str()) {
                    Some(ImportStep::CreateDirectory { index, target: copy_parts(target) })
                } else {
                    Some(ImportStep::WriteFile { index, target: copy_parts(target) })
                }
            },
        },
    }
}

/// Whatever an archive's table holds, no step of its import plan writes
/// outside the world directory: every place that a step makes or writes to
/// stays inside it. Such a place names no root and no drive; each of its
/// names is the name of one level, without a slash or backslash in it and
/// neither `.` nor `..`; and at no level has it gone up further than it went
/// down.
pub proof fn lemma_import_stays_inside(entries: Seq<ArchiveItemView>, k: int)
    requires
        0 <= k < import_planned(entries).len(),
    ensures
        written_target(import_planned(entries)[k]) matches Some(target) ==> confined(target),
    decreases entries.len(),
{
    if entries.len() > 0 {
        let before = import_planned(entries.drop_last());
        if k < before.len() {
            lemma_import_stays_inside(entries.drop_last(), k);
        }
    }
}

/// Plans the writing back of an archive from its table of entries.
pub fn import_world(entries: &Vec<ArchiveItem>) -> (plan: Vec<ImportStep>)
    ensures
        plan.deep_view() == import_planned(entries.deep_view()),
        forall|k: int|
            0 <= k < plan.len() ==> (written_target(#[trigger] plan.deep_view()[k]) matches Some(
                target,
            ) ==> confined(target)),
{
    let ghost items = entries.deep_view();
    let mut plan: Vec<ImportStep> = Vec::new();
    let mut i: usize = 0;
    assert(plan.deep_view() =~= import_planned(items.take(0)));
    while i < entries.len()
        invariant_except_break
            !import_failed(plan.deep_view()),
        invariant
            i <= entries.len(),
            items == entries.deep_view(),
            plan.deep_view() == import_planned(items.take(i as int)),
        ensures
            i < entries.len() ==> import_failed(plan.deep_view()),
        decreases entries.len() - i,
    {
        let step = import_step(&entries[i], i);
        proof {
            assert(items.take(i + 1).drop_last() =~= items.take(i as int));
            assert(items.take(i + 1).last() == items[i as int]);
            assert(items[i as int] == entries[i as int].deep_view());
        }
        i += 1;
        match step {
            Some(step) => {
                let ghost before = plan.deep_view();
                let stop = matches!(&step, ImportStep::Fail { .. });
                plan.push(step);
                assert(plan.deep_view() =~= before.push(step.deep_view()));
                if stop {
                    break ;
                }
            },
            None => {},
        }
    }
    proof {
        lemma_failed_import_plan_is_final(items, i as int);
        assert forall|k: int| 0 <= k < plan.len() implies (written_target(
            #[trigger] plan.deep_view()[k],
        ) matches Some(target) ==> confined(target)) by {
            lemma_import_stays_inside(items, k);
        }
    }
    plan
}

/// Once an import plan has met a failure, the entries that follow add
/// nothing to it.
proof fn lemma_failed_import_plan_is_final(entries: Seq<ArchiveItemView>, upto: int)
    requires
        0 <= upto <= entries.len(),
        upto < entries.len() ==> import_failed(import_planned(entries.take(upto))),
    ensures
        import_planned(entries) == import_planned(entries.take(upto)),
    decreases entries.len() - upto,
{
    if upto == entries.len() {
        assert(entries.take(upto) =~= entries);
    } else {
        assert(entries.take(upto + 1).drop_last() =~= entries.take(upto));
        lemma_failed_import_plan_is_final(entries, upto + 1);
    }
}

/// The platforms that the engine tells apart.
#[derive(Debug, Clone, Copy, PartialEq, Eq, Structural)]
pub enum Platform {
    Windows,
    MacOs,
    Other,
}

/// Why the directory of the worlds could not be named.
#[derive(Debug, Clone, Copy, PartialEq, Eq, Structural)]
pub enum PlatformError {
    /// The variable that names the directory of application data is not set.
    EnvironmentVariableMissing,
    /// The user's home directory is not known.
    HomeDirectoryUnavailable,
    /// The platform keeps no worlds.
    UnsupportedPlatform,
}

/// The character that the platform writes between the levels of a path.
pub open spec fn separator(platform: Platform) -> char {
    if platform is Windows {
        '\\'
    } else {
        '/'
    }
}

/// The characters that the platform reads as a break between levels.
pub open spec fn is_separator(platform: Platform, c: char) -> bool {
    c == '/' || (platform is Windows && c == '\\')
}

/// The path of `name` inside the directory `parent`: the two with a separator
/// between them, which is left out where `parent` is empty or ends in one.
pub open spec fn child_path(
    platform: Platform,
    parent: Seq<char>,
    name: Seq<char>,
) -> Seq<char> {
    if parent.len() == 0 || is_separator(platform, parent.last()) {
        parent + name
    } else {
        parent.push(separator(platform)) + name
    }
}

/// Where the worlds lie below the user's own directory `base`: the directory
/// of application data on Windows, the home directory on macOS.
pub open spec fn worlds_root(platform: Platform, base: Seq<char>) -> Seq<char> {
    let start = if platform is MacOs {
        child_path(platform, child_path(platform, base, "Library"@), "Application Support"@)
    } else {
        base
    };
    child_path(
        platform,
        child_path(platform, child_path(platform, start, "Hytale"@), "UserData"@),
        "Saves"@,
    )
}

/// The directory of the worlds, or why there is none.
pub open spec fn resolved_worlds_root(
    platform: Platform,
    base: Option<Seq<char>>,
) -> Result<Seq<char>, PlatformError> {
    match platform {
        Platform::Other => Err(PlatformError::UnsupportedPlatform),
        Platform::Windows => match base {
            Some(base) => Ok(worlds_root(platform, base)),
            None => Err(PlatformError::EnvironmentVariableMissing),
        },
        Platform::MacOs => match base {
            Some(base) => Ok(worlds_root(platform, base)),
            None => Err(PlatformError::HomeDirectoryUnavailable),
        },
    }
}

/// What a resolved path says.
pub open spec fn path_result_view(
    result: Result<String, PlatformError>,
) -> Result<Seq<char>, PlatformError> {
    match result {
        Ok(path) => Ok(path@),
        Err(error) => Err(error),
    }
}

/// The path of `name` inside the directory `parent`.
pub fn join_path(platform: Platform, parent: &str, name: &str) -> (path: String)
    ensures
        path@ == child_path(platform, parent@, name@),
{
    let chars = chars_of(parent);
    let mut path = String::from_str(parent);
    let bare = if chars.len() == 0 {
        true
    } else {
        let last: char = chars[chars.len() - 1];
        last == '/' || (matches!(platform, Platform::Windows) && last == '\\')
    };
    if !bare {
        proof {
            reveal_strlit("\\");
            reveal_strlit("/");
        }
        if matches!(platform, Platform::Windows) {
            path.append("\\");
        } else {
            path.append("/");
        }
        assert(path@ =~= parent@.push(separator(platform)));
    }
    path.append(name);
    path
}

/// Names the directory in which the worlds lie. `base` is the user's own
/// directory as the platform gives it, if it does: the directory of
/// application data on Windows, the home directory on macOS.
pub fn get_hytale_worlds_path(
    platform: Platform,
    base: Option<&str>,
) -> (root: Result<String, PlatformError>)
    ensures
        path_result_view(root) == resolved_worlds_root(
            platform,
            match base {
                Some(base) => Some(base@),
                None => None,
            },
        ),
{
    match platform {
        Platform::Other => Err(PlatformError::UnsupportedPlatform),
        Platform::Windows => match base {
            Some(base) => {
                let game = join_path(platform, base, "Hytale");
                let data = join_path(platform, game.as_str(), "UserData");
                Ok(join_path(platform, data.as_str(), "Saves"))
            },
            None => Err(PlatformError::EnvironmentVariableMissing),
        },
        Platform::MacOs => match base {
            Some(base) => {
                let library = join_path(platform, base, "Library");
                let support = join_path(platform, library.as_str(), "Application Support");
                let game = join_path(platform, support.as_str(), "Hytale");
                let data = join_path(platform, game.as_str(), "UserData");
                Ok(join_path(platform, data.as_str(), "Saves"))
            },
            None => Err(PlatformError::HomeDirectoryUnavailable),
        },
    }
}

/// Each level of the path is the name of one level.
pub open spec fn plain_segments(relative: Seq<Seq<char>>) -> bool {
    forall|k: int| 0 <= k < relative.len() ==> is_plain_name(#[trigger] relative[k])
}

/// The archive name of a path of names ends in the last character of its
/// last name.
proof fn lemma_joined_ends_in_last_segment(relative: Seq<Seq<char>>)
    requires
        relative.len() > 0,
        relative.last().len() > 0,
    ensures
        joined(relative).len() > 0,
        joined(relative).last() == relative.last().last(),
{
}

/// What the writer calls a directory the importer reads as one, and what it
/// calls a file the importer reads as a file: of the names that the writer
/// gives to entries whose levels are names, those of directories end in a
/// slash and those of files do not.
pub proof fn lemma_names_tell_kinds(
    entry: WalkEntryView,
    index: nat,
    include_logs: bool,
    include_backups: bool,
)
    requires
        plain_segments(entry.relative),
    ensures
        match step_for(WalkItemView::Entry(entry), index, include_logs, include_backups) {
            Some(BackupStepView::AddFile { name, .. }) => !is_directory_name(name),
            Some(BackupStepView::AddDirectory { name, .. }) => is_directory_name(name),
            _ => true,
        },
{
    if entry.relative.len() > 0 {
        let path = joined(entry.relative);
        lemma_joined_ends_in_last_segment(entry.relative);
        let last = entry.relative.last();
        assert(last.contains(last.last()));
        if is_directory_name(path) {
            assert(path.subrange(path.len() - 1, path.len() as int)[0] == path.last());
        }
        let dir = path + seq!['/'];
        assert(dir.subrange(dir.len() - 1, dir.len() as int) =~= seq!['/']);
    }
}

/// A path of names, as the levels that an archive reader finds in it.
pub open spec fn normal_parts(relative: Seq<Seq<char>>) -> Seq<PathPartView> {
    relative.map_values(|name: Seq<char>| PathPartView::Normal(name))
}

/// A path of names ends as many levels down as it has names.
proof fn lemma_names_go_down(relative: Seq<Seq<char>>, k: int)
    requires
        0 <= k <= relative.len(),
    ensures
        depth(normal_parts(relative).take(k)) == k,
    decreases k,
{
    if k > 0 {
        assert(normal_parts(relative).take(k).drop_last() =~= normal_parts(relative).take(k - 1));
        lemma_names_go_down(relative, k - 1);
    }
}

/// What the writer writes comes back where it was: an entry whose levels
/// are names is written under a name which, read as those levels, the
/// importer takes up again at the same path below the world directory, a file
/// as a file and a directory as a directory.
pub proof fn lemma_written_entries_come_back(
    entry: WalkEntryView,
    index: nat,
    include_logs: bool,
    include_backups: bool,
    place: nat,
)
    requires
        plain_segments(entry.relative),
    ensures
        match step_for(WalkItemView::Entry(entry), index, include_logs, include_backups) {
            Some(BackupStepView::AddFile { name, .. }) => import_step_for(
                ArchiveItemView::Entry { name, enclosed: Some(normal_parts(entry.relative)) },
                place,
            ) == Some(
                ImportStepView::WriteFile { index: place, target: normal_parts(entry.relative) },
            ),
            Some(BackupStepView::AddDirectory { name, .. }) => import_step_for(
                ArchiveItemView::Entry { name, enclosed: Some(normal_parts(entry.relative)) },
                place,
            ) == Some(
                ImportStepView::CreateDirectory {
                    index: place,
                    target: normal_parts(entry.relative),
                },
            ),
            _ => true,
        },
{
    lemma_names_tell_kinds(entry, index, include_logs, include_backups);
    let parts = normal_parts(entry.relative);
    assert forall|k: int| 0 <= k <= parts.len() implies depth(#[trigger] parts.take(k)) >= 0 by {
        lemma_names_go_down(entry.relative, k);
    }
}

} // verus!
