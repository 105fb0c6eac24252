//! The state of the application's window and the decisions that the window
//! takes: which worlds it lists, what it proposes as the name of a new
//! archive, and which world an archive is taken to hold.
use vstd::prelude::*;
use vstd::string::*;
use crate::backup::{WalkItem, WalkItemView};
use crate::models::{WorldInfo, WorldInfoView};
use crate::text::{
    append_fixed_digits,
    chars_end_with,
    chars_have_stamp_shape,
    chars_of,
    ends_with,
    fits_stamp_place,
    fixed_digits,
    has_stamp_shape,
    lemma_fixed_digits_are_digits,
    lemma_fixed_digits_len,
};
use crate::utils::{
    directory_size_fits,
    get_directory_size,
    get_last_played,
    last_played_of,
    total_size,
    DirEntry,
    DirEntryView,
};

verus! {

/// What was found at one entry of the directory of the worlds: its name,
/// where the name is text, its path, whether it is a directory, a walk of it
/// and a listing of its `logs` directory (an empty one where it has none).
#[derive(Debug, Clone, PartialEq, Eq)]
pub struct WorldListing {
    pub name: Option<String>,
    pub path: String,
    pub is_dir: bool,
    pub files: Vec<WalkItem>,
    pub logs: Vec<DirEntry>,
}

/// What a `WorldListing` says.
pub struct WorldListingView {
    pub name: Option<Seq<char>>,
    pub path: Seq<char>,
    pub is_dir: bool,
    pub files: Seq<WalkItemView>,
    pub logs: Seq<DirEntryView>,
}

impl DeepView for WorldListing {
    type V = WorldListingView;

    open spec fn deep_view(&self) -> WorldListingView {
        WorldListingView {
            name: self.name.deep_view(),
            path: self.path@,
            is_dir: self.is_dir,
            files: self.files.deep_view(),
            logs: self.logs.deep_view(),
        }
    }
}

/// A moment, by the calendar and the clock.
#[derive(Debug, Clone, Copy, PartialEq, Eq, Structural)]
pub struct Timestamp {
    pub year: u32,
    pub month: u32,
    pub day: u32,
    pub hour: u32,
    pub minute: u32,
    pub second: u32,
}

/// A transfer that the window asks for: the world, the name proposed for its
/// archive, and the two choices as they stood when it was asked for.
#[derive(Debug, Clone, PartialEq, Eq)]
pub struct BackupRequest {
    pub world_name: String,
    pub world_path: String,
    pub file_name: String,
    pub include_logs: bool,
    pub include_backups: bool,
}

/// What a `BackupRequest` says.
pub struct BackupRequestView {
    pub world_name: Seq<char>,
    pub world_path: Seq<char>,
    pub file_name: Seq<char>,
    pub include_logs: bool,
    pub include_backups: bool,
}

impl View for BackupRequest {
    type V = BackupRequestView;

    open spec fn view(&self) -> BackupRequestView {
        BackupRequestView {
            world_name: self.world_name@,
            world_path: self.world_path@,
            file_name: self.file_name@,
            include_logs: self.include_logs,
            include_backups: self.include_backups,
        }
    }
}

/// The state of the window.
pub struct HytaleBackupApp {
    pub status_message: String,
    pub worlds: Vec<WorldInfo>,
    pub selected_world: Option<usize>,
    pub selected_tab: usize,
    pub include_logs: bool,
    pub include_backups: bool,
    pub pending_delete_backup: Option<String>,
    pub pending_import: Option<(String, String)>,
}

/// The world that an entry of the directory of the worlds stands for: the
/// entry is a directory and its name is text.
pub open spec fn world_of(listing: WorldListingView) -> Option<WorldInfoView> {
    match listing.name {
        Some(name) => if listing.is_dir {
            Some(
                WorldInfoView {
                    name,
                    path: listing.path,
                    size: total_size(listing.files),
                    last_played: last_played_of(listing.logs),
                },
            )
        } else {
            None
        },
        None => None,
    }
}

/// The worlds of a listing, in the order of the listing.
pub open spec fn worlds_in(listings: Seq<WorldListingView>) -> Seq<WorldInfoView>
    decreases listings.len(),
{
    if listings.len() == 0 {
        Seq::<WorldInfoView>::empty()
    } else {
        match world_of(listings.last()) {
            Some(world) => worlds_in(listings.drop_last()).push(world),
            None => worlds_in(listings.drop_last()),
        }
    }
}

/// The worlds that the window lists: those of the listing of the directory
/// of the worlds, and none where that directory is not there or cannot be
/// read.
pub open spec fn worlds_of(root: Option<Seq<WorldListingView>>) -> Seq<WorldInfoView> {
    match root {
        Some(listings) => worlds_in(listings),
        None => Seq::<WorldInfoView>::empty(),
    }
}

/// The size of each entry of the listing is a number that a `u64` holds.
pub open spec fn sizes_fit(root: Option<Seq<WorldListingView>>) -> bool {
    match root {
        Some(listings) => forall|k: int|
            0 <= k < listings.len() ==> total_size((#[trigger] listings[k]).files) <= u64::MAX,
        None => true,
    }
}

/// What a listing of the directory of the worlds says.
pub open spec fn root_view(root: Option<Vec<WorldListing>>) -> Option<Seq<WorldListingView>> {
    match root {
        Some(listings) => Some(listings.deep_view()),
        None => None,
    }
}

/// A moment as the name of an archive bears it: year, month, day, hour,
/// minute and second, the last four digits of the year and the last two of
/// each of the others, hyphens between them and an underscore between day
/// and hour.
pub open spec fn stamp_text(stamp: Timestamp) -> Seq<char> {
    fixed_digits(stamp.year as nat, 4) + seq!['-']
        + fixed_digits(stamp.month as nat, 2) + seq!['-']
        + fixed_digits(stamp.day as nat, 2) + seq!['_']
        + fixed_digits(stamp.hour as nat, 2) + seq!['-']
        + fixed_digits(stamp.minute as nat, 2) + seq!['-']
        + fixed_digits(stamp.second as nat, 2)
}

/// The name of an archive without its ending: the world's name, an
/// underscore, and the moment.
pub open spec fn archive_stem(world: Seq<char>, stamp: Timestamp) -> Seq<char> {
    world + seq!['_'] + stamp_text(stamp)
}

/// The name proposed for the archive of a world.
pub open spec fn archive_file_name(world: Seq<char>, stamp: Timestamp) -> Seq<char> {
    archive_stem(world, stamp) + ".zip"@
}

/// The name of an archive file: it ends in `.zip`, and something stands
/// before that.
pub open spec fn is_archive_name(file_name: Seq<char>) -> bool {
    file_name.len() > 4 && ends_with(file_name, ".zip"@)
}

/// The name ends in what the name proposed for an archive ends in: after
/// something else, an underscore and a moment written as
/// `dddd-dd-dd_dd-dd-dd`.
pub open spec fn ends_in_stamp(stem: Seq<char>) -> bool {
    &&& stem.len() > 20
    &&& stem[stem.len() - 20] == '_'
    &&& has_stamp_shape(stem.subrange(stem.len() - 19, stem.len() as int))
}

/// The world that an archive is taken to hold, from the name of the archive
/// without its ending: where the name ends in an underscore and a moment,
/// what stands before the underscore; else the whole name.
pub open spec fn world_name_of(stem: Seq<char>) -> Seq<char> {
    if ends_in_stamp(stem) {
        stem.take(stem.len() - 20)
    } else {
        stem
    }
}

/// The world taken from a name is never without a name, unless the name
/// itself is empty.
pub proof fn lemma_world_name_is_not_empty(stem: Seq<char>)
    requires
        stem.len() > 0,
    ensures
        world_name_of(stem).len() > 0,
{
}

/// A moment is written as `dddd-dd-dd_dd-dd-dd`.
pub proof fn lemma_stamp_text_shape(stamp: Timestamp)
    ensures
        has_stamp_shape(stamp_text(stamp)),
{
    let text = stamp_text(stamp);
    lemma_stamp_text_len(stamp);
    lemma_fixed_digits_are_digits(stamp.year as nat, 4, 0);
    lemma_fixed_digits_are_digits(stamp.year as nat, 4, 1);
    lemma_fixed_digits_are_digits(stamp.year as nat, 4, 2);
    lemma_fixed_digits_are_digits(stamp.year as nat, 4, 3);
    lemma_fixed_digits_are_digits(stamp.month as nat, 2, 0);
    lemma_fixed_digits_are_digits(stamp.month as nat, 2, 1);
    lemma_fixed_digits_are_digits(stamp.day as nat, 2, 0);
    lemma_fixed_digits_are_digits(stamp.day as nat, 2, 1);
    lemma_fixed_digits_are_digits(stamp.hour as nat, 2, 0);
    lemma_fixed_digits_are_digits(stamp.hour as nat, 2, 1);
    lemma_fixed_digits_are_digits(stamp.minute as nat, 2, 0);
    lemma_fixed_digits_are_digits(stamp.minute as nat, 2, 1);
    lemma_fixed_digits_are_digits(stamp.second as nat, 2, 0);
    lemma_fixed_digits_are_digits(stamp.second as nat, 2, 1);
    assert forall|place: int| 0 <= place < 19 implies fits_stamp_place(
        place,
        #[trigger] text[place],
    ) by {
        if place < 4 {
            assert(text[place] == fixed_digits(stamp.year as nat, 4)[place]);
        } else if 5 <= place < 7 {
            assert(text[place] == fixed_digits(stamp.month as nat, 2)[place - 5]);
        } else if 8 <= place < 10 {
            assert(text[place] == fixed_digits(stamp.day as nat, 2)[place - 8]);
        } else if 11 <= place < 13 {
            assert(text[place] == fixed_digits(stamp.hour as nat, 2)[place - 11]);
        } else if 14 <= place < 16 {
            assert(text[place] == fixed_digits(stamp.minute as nat, 2)[place - 14]);
        } else if 17 <= place {
            assert(text[place] == fixed_digits(stamp.second as nat, 2)[place - 17]);
        }
    }
}

/// A moment is written with nineteen characters.
pub proof fn lemma_stamp_text_len(stamp: Timestamp)
    ensures
        stamp_text(stamp).len() == 19,
{
    lemma_fixed_digits_len(stamp.year as nat, 4);
    lemma_fixed_digits_len(stamp.month as nat, 2);
    lemma_fixed_digits_len(stamp.day as nat, 2);
    lemma_fixed_digits_len(stamp.hour as nat, 2);
    lemma_fixed_digits_len(stamp.minute as nat, 2);
    lemma_fixed_digits_len(stamp.second as nat, 2);
}

/// The name proposed for an archive leads back to its world: whatever the
/// world is called, if it has a name at all, and whatever the moment, the
/// proposed name is that of an archive file, and the world taken from it is
/// the world it was made for.
pub proof fn lemma_archive_name_leads_back(world: Seq<char>, stamp: Timestamp)
    requires
        world.len() > 0,
    ensures
        is_archive_name(archive_file_name(world, stamp)),
        archive_file_name(world, stamp).take(archive_file_name(world, stamp).len() - 4)
            == archive_stem(world, stamp),
        world_name_of(archive_stem(world, stamp)) == world,
{
    lemma_stamp_text_len(stamp);
    reveal_strlit(".zip");
    let stem = archive_stem(world, stamp);
    let name = archive_file_name(world, stamp);
    assert(name.subrange(name.len() - 4, name.len() as int) =~= ".zip"@);
    assert(name.take(name.len() - 4) =~= stem);
    lemma_stamp_text_shape(stamp);
    assert(stem[stem.len() - 20] == '_');
    assert(stem.subrange(stem.len() - 19, stem.len() as int) =~= stamp_text(stamp));
    assert(stem.take(stem.len() - 20) =~= world);
}

/// Writes a moment as the name of an archive bears it.
fn append_stamp(out: &mut String, stamp: &Timestamp)
    ensures
        final(out)@ == old(out)@ + stamp_text(*stamp),
{
    proof {
        reveal_strlit("-");
        reveal_strlit("_");
    }
    append_fixed_digits(out, stamp.year as u64, 4);
    out.append("-");
    append_fixed_digits(out, stamp.month as u64, 2);
    out.append("-");
    append_fixed_digits(out, stamp.day as u64, 2);
    out.append("_");
    append_fixed_digits(out, stamp.hour as u64, 2);
    out.append("-");
    append_fixed_digits(out, stamp.minute as u64, 2);
    out.append("-");
    append_fixed_digits(out, stamp.second as u64, 2);
    assert(out@ =~= old(out)@ + stamp_text(*stamp));
}

/// The name proposed for the archive of the world `world`, made at `stamp`.
pub fn default_archive_name(world: &str, stamp: &Timestamp) -> (name: String)
    ensures
        name@ == archive_file_name(world@, *stamp),
{
    let mut name = String::from_str(world);
    name.append("_");
    append_stamp(&mut name, stamp);
    name.append(".zip");
    proof {
        reveal_strlit("_");
        assert(name@ =~= archive_file_name(world@, *stamp));
    }
    name
}

/// Whether the name is that of an archive file.
pub fn is_archive_file(file_name: &str) -> (archive: bool)
    ensures
        archive == is_archive_name(file_name@),
{
    let chars = chars_of(file_name);
    chars.len() > 4 && chars_end_with(&chars, &chars_of(".zip"))
}

/// The world that an archive is taken to hold, from the name of the archive
/// without its ending.
pub fn world_name_from_stem(stem: &str) -> (world: String)
    ensures
        world@ == world_name_of(stem@),
{
    let chars = chars_of(stem);
    let len = chars.len();
    if len > 20 && chars[len - 20] == '_' && chars_have_stamp_shape(&chars, len - 19) {
        assert(stem@.subrange(0, len - 20) =~= stem@.take(len - 20));
        String::from_str(stem.substring_char(0, len - 20))
    } else {
        String::from_str(stem)
    }
}

/// Whether the size of each entry of the listing is a number that a `u64`
/// holds.
pub fn listing_sizes_fit(root: &Option<Vec<WorldListing>>) -> (fit: bool)
    ensures
        fit == sizes_fit(root_view(*root)),
{
    match root {
        None => true,
        Some(listings) => {
            let mut i: usize = 0;
            while i < listings.len()
                invariant
                    i <= listings.len(),
                    root_view(*root) == Some(listings.deep_view()),
                    forall|k: int|
                        0 <= k < i ==> total_size((#[trigger] listings.deep_view()[k]).files)
                            <= u64::MAX,
                decreases listings.len() - i,
            {
                assert(listings.deep_view()[i as int] == listings[i as int].deep_view());
                if !directory_size_fits(&listings[i].files) {
                    assert(total_size(listings.deep_view()[i as int].files) > u64::MAX);
                    return false;
                }
                i += 1;
            }
            true
        },
    }
}

impl HytaleBackupApp {
    /// The world that is chosen, if one is, is one of the list.
    pub open spec fn well_formed(&self) -> bool {
        match self.selected_world {
            Some(at) => at < self.worlds.len(),
            None => true,
        }
    }

    /// The window as it opens: the worlds of the listing, none of them
    /// chosen, the first tab, logs and backups both wanted, and nothing to
    /// confirm.
    pub fn new(root: &Option<Vec<WorldListing>>) -> (app: HytaleBackupApp)
        requires
            sizes_fit(root_view(*root)),
        ensures
            app.status_message@ == Seq::<char>::empty(),
            app.worlds.deep_view() == worlds_of(root_view(*root)),
            app.selected_world is None,
            app.selected_tab == 0,
            app.include_logs,
            app.include_backups,
            app.pending_delete_backup is None,
            app.pending_import is None,
            app.well_formed(),
    {
        let worlds = Self::load_worlds(root);
        HytaleBackupApp {
            status_message: String::new(),
            worlds,
            selected_world: None,
            selected_tab: 0,
            include_logs: true,
            include_backups: true,
            pending_delete_backup: None,
            pending_import: None,
        }
    }

    /// The worlds of a listing of the directory of the worlds; `None` stands
    /// for a directory that is not there or cannot be read.
    pub fn load_worlds(root: &Option<Vec<WorldListing>>) -> (worlds: Vec<WorldInfo>)
        requires
            sizes_fit(root_view(*root)),
        ensures
            worlds.deep_view() == worlds_of(root_view(*root)),
    {
        let mut worlds: Vec<WorldInfo> = Vec::new();
        match root {
            None => {
                assert(worlds.deep_view() =~= Seq::<WorldInfoView>::empty());
            },
            Some(listings) => {
                let ghost items = listings.deep_view();
                let mut i: usize = 0;
                assert(worlds.deep_view() =~= worlds_in(items.take(0)));
                while i < listings.len()
                    invariant
                        i <= listings.len(),
                        items == listings.deep_view(),
                        sizes_fit(Some(items)),
                        worlds.deep_view() == worlds_in(items.take(i as int)),
                    decreases listings.len() - i,
                {
                    proof {
                        assert(items.take(i + 1).drop_last() =~= items.take(i as int));
                        assert(items.take(i + 1).last() == listings[i as int].deep_view());
                        assert(items[i as int] == listings[i as int].deep_view());
                    }
                    let listing = &listings[i];
                    match &listing.name {
                        Some(name) => {
                            if listing.is_dir {
                                let ghost before = worlds.deep_view();
                                let world = WorldInfo {
                                    name: name.clone(),
                                    path: listing.path.clone(),
                                    size: get_directory_size(&listing.files),
                                    last_played: get_last_played(&listing.logs),
                                };
                                worlds.push(world);
                                assert(worlds.deep_view() =~= before.push(world.deep_view()));
                            }
                        },
                        None => {},
                    }
                    i += 1;
                }
                assert(items.take(listings.len() as int) =~= items);
            },
        }
        worlds
    }

    /// Lists the worlds anew and drops the choice of a world.
    pub fn refresh_worlds(&mut self, root: &Option<Vec<WorldListing>>)
        requires
            sizes_fit(root_view(*root)),
        ensures
            final(self).worlds.deep_view() == worlds_of(root_view(*root)),
            final(self).selected_world is None,
            final(self).well_formed(),
            final(self).status_message == old(self).status_message,
            final(self).selected_tab == old(self).selected_tab,
            final(self).include_logs == old(self).include_logs,
            final(self).include_backups == old(self).include_backups,
            final(self).pending_delete_backup == old(self).pending_delete_backup,
            final(self).pending_import == old(self).pending_import,
    {
        self.worlds = Self::load_worlds(root);
        self.selected_world = None;
    }

    /// The transfer that the window asks for at `stamp`: that of the chosen
    /// world, with the two choices as they stand; none where no world of the
    /// list is chosen.
    pub fn start_backup(&self, stamp: &Timestamp) -> (request: Option<BackupRequest>)
        ensures
            match self.selected_world {
                Some(at) if at < self.worlds.len() => request is Some && request->0@ == (
                BackupRequestView {
                    world_name: self.worlds[at as int]@.name,
                    world_path: self.worlds[at as int]@.path,
                    file_name: archive_file_name(self.worlds[at as int]@.name, *stamp),
                    include_logs: self.include_logs,
                    include_backups: self.include_backups,
                }),
                _ => request is None,
            },
    {
        match self.selected_world {
            Some(at) => {
                if at < self.worlds.len() {
                    let world = &self.worlds[at];
                    Some(
                        BackupRequest {
                            world_name: world.name.clone(),
                            world_path: world.path.clone(),
                            file_name: default_archive_name(world.name.as_str(), stamp),
                            include_logs: self.include_logs,
                            include_backups: self.include_backups,
                        },
                    )
                } else {
                    None
                }
            },
            None => None,
        }
    }

    /// Takes up the file that was picked for import, at `path` and by the
    /// name `file_name`: an archive file waits to be confirmed, with the
    /// world that it is taken to hold; any other file is turned down and
    /// changes nothing. Says whether the file was taken up.
    pub fn handle_import_button(&mut self, path: String, file_name: &str) -> (taken: bool)
        ensures
            taken == is_archive_name(file_name@),
            taken ==> final(self).pending_import is Some && (final(self).pending_import->0).0@
                == path@ && (final(self).pending_import->0).1@ == world_name_of(
                file_name@.take(file_name@.len() - 4),
            ),
            taken ==> (final(self).pending_import->0).1@.len() > 0,
            !taken ==> final(self).pending_import == old(self).pending_import,
            old(self).well_formed() ==> final(self).well_formed(),
            final(self).worlds == old(self).worlds,
            final(self).selected_world == old(self).selected_world,
            final(self).status_message == old(self).status_message,
            final(self).selected_tab == old(self).selected_tab,
            final(self).include_logs == old(self).include_logs,
            final(self).include_backups == old(self).include_backups,
            final(self).pending_delete_backup == old(self).pending_delete_backup,
    {
        if !is_archive_file(file_name) {
            return false;
        }
        let chars = chars_of(file_name);
        let stem = file_name.substring_char(0, chars.len() - 4);
        assert(stem@ =~= file_name@.take(file_name@.len() - 4));
        let world = world_name_from_stem(stem);
        self.pending_import = Some((path, world));
        true
    }
}

} // verus!
