//! The inventory of a world directory: sizes and how they are written, the
//! time a world was last played, its backups and its newest log.
use vstd::prelude::*;
use vstd::string::*;
use crate::backup::{EntryKind, WalkItem, WalkItemView};
use crate::models::{BackupInfo, BackupInfoView, LogInfo, LogInfoView};
use crate::text::{
    append_decimal,
    append_fixed_digits,
    chars_end_with,
    chars_have_stamp_shape,
    chars_lex_less,
    chars_of,
    chars_start_with,
    decimal,
    ends_with,
    fits_stamp_place,
    fixed_digits,
    has_stamp_shape,
    is_digit,
    lemma_lex_less_irreflexive,
    lemma_lex_less_total,
    lemma_lex_less_transitive,
    lex_less,
    starts_with,
};

verus! {

/// The bytes in a kilobyte.
pub const KB: u64 = 1024;

/// The bytes in a megabyte.
pub const MB: u64 = 1048576;

/// The bytes in a gigabyte.
pub const GB: u64 = 1073741824;

/// `value / unit`, rounded to the nearest whole number, and to the even one
/// of the two where both are equally near.
pub open spec fn nearest_even(value: nat, unit: nat) -> nat {
    let whole = value / unit;
    let rest = value % unit;
    if 2 * rest > unit || (2 * rest == unit && whole % 2 == 1) {
        whole + 1
    } else {
        whole
    }
}

/// The distance between neighbouring numbers of 53 significant bits, at the
/// height of `bytes`: one below two to the 53rd, and twice as much each time
/// the height doubles.
pub open spec fn spacing(bytes: nat) -> nat
    decreases bytes,
{
    if bytes < 0x20_0000_0000_0000 {
        1
    } else {
        2 * spacing(bytes / 2)
    }
}

/// A size as it is measured: with 53 significant bits. Smaller sizes are
/// exact; a larger one is the nearest number of 53 bits, and the even one of
/// the two where both are equally near.
pub open spec fn measured(bytes: nat) -> nat {
    nearest_even(bytes, spacing(bytes)) * spacing(bytes)
}

/// A size in hundredths of `unit`, rounded to the nearest, and to the even
/// one of the two where both are equally near.
pub open spec fn hundredths(bytes: nat, unit: nat) -> nat {
    nearest_even(measured(bytes) * 100, unit)
}

/// A number of hundredths, written with two decimal places.
pub open spec fn two_places(hundredths: nat) -> Seq<char> {
    decimal(hundredths / 100) + seq!['.'] + fixed_digits(hundredths % 100, 2)
}

/// How a size is written: in the largest of the units B, KB, MB and GB that
/// it reaches, each 1024 of the one before; in bytes as a whole number, else
/// with two decimal places.
pub open spec fn size_text(bytes: nat) -> Seq<char> {
    if bytes >= GB {
        two_places(hundredths(bytes, GB as nat)) + " GB"@
    } else if bytes >= MB {
        two_places(hundredths(bytes, MB as nat)) + " MB"@
    } else if bytes >= KB {
        two_places(hundredths(bytes, KB as nat)) + " KB"@
    } else {
        decimal(bytes) + " B"@
    }
}

/// The distance between neighbouring numbers of 53 significant bits, at the
/// height of `bytes`.
fn spacing_of(bytes: u64) -> (step: u64)
    ensures
        step == spacing(bytes as nat),
        1 <= step < 4096,
{
    let mut step: u64 = 1;
    let mut height: u64 = bytes;
    while height >= 0x20_0000_0000_0000
        invariant
            1 <= step < 4096,
            step * height <= bytes,
            spacing(bytes as nat) == step * spacing(height as nat),
        decreases height,
    {
        assert(step < 2048) by (nonlinear_arith)
            requires
                step * height <= bytes,
                height >= 0x20_0000_0000_0000,
                bytes <= 0xffff_ffff_ffff_ffff,
        ;
        assert((step * 2) * (height / 2) <= step * height) by (nonlinear_arith)
            requires
                step >= 1,
                height >= 0,
        ;
        assert(step * (2 * spacing((height / 2) as nat)) == (step * 2) * spacing(
            (height / 2) as nat,
        )) by (nonlinear_arith);
        step = step * 2;
        height = height / 2;
    }
    assert(spacing(height as nat) == 1);
    assert(step * 1 == step);
    step
}

/// `value / unit`, rounded to the nearest whole number, ties to the even.
fn round_nearest_even(value: u128, unit: u128) -> (rounded: u128)
    requires
        0 < unit <= 0x4000_0000,
        value < 0x1_0000_0000_0000_0000_0000,
    ensures
        rounded == nearest_even(value as nat, unit as nat),
        rounded <= value / unit + 1,
{
    let whole: u128 = value / unit;
    let rest: u128 = value % unit;
    if 2 * rest > unit || (2 * rest == unit && whole % 2 == 1) {
        whole + 1
    } else {
        whole
    }
}

/// Writes a size in hundredths of `unit`, with two decimal places.
fn append_scaled(out: &mut String, bytes: u64, unit: u64)
    requires
        unit == KB || unit == MB || unit == GB,
    ensures
        final(out)@ == old(out)@ + two_places(hundredths(bytes as nat, unit as nat)),
{
    let step = spacing_of(bytes);
    let steps = round_nearest_even(bytes as u128, step as u128);
    assert(steps * step <= 0x1_0000_0000_0000_1000) by (nonlinear_arith)
        requires
            steps <= (bytes as u128) / (step as u128) + 1,
            1 <= step < 4096,
            bytes <= 0xffff_ffff_ffff_ffff,
    ;
    let size: u128 = steps * (step as u128);
    let parts = round_nearest_even(size * 100, unit as u128);
    assert(parts < 0xffff_ffff_ffff_ffff) by {
        let scaled: int = size * 100;
        let divisor: int = unit as int;
        assert(scaled / divisor <= scaled / 1024) by (nonlinear_arith)
            requires
                divisor >= 1024,
                scaled >= 0,
        ;
    }
    let parts: u64 = parts as u64;
    append_decimal(out, parts / 100);
    out.append(".");
    append_fixed_digits(out, parts % 100, 2);
    proof {
        reveal_strlit(".");
        assert(out@ =~= old(out)@ + two_places(hundredths(bytes as nat, unit as nat)));
    }
}

/// Writes a size for a reader: `"1023 B"`, `"1.50 KB"`.
pub fn format_size(bytes: u64) -> (text: String)
    ensures
        text@ == size_text(bytes as nat),
{
    let mut text = String::new();
    if bytes >= GB {
        append_scaled(&mut text, bytes, GB);
        text.append(" GB");
    } else if bytes >= MB {
        append_scaled(&mut text, bytes, MB);
        text.append(" MB");
    } else if bytes >= KB {
        append_scaled(&mut text, bytes, KB);
        text.append(" KB");
    } else {
        append_decimal(&mut text, bytes);
        text.append(" B");
    }
    assert(text@ =~= size_text(bytes as nat));
    text
}

/// How far a text runs before its first hyphen.
pub open spec fn language_len(locale: Seq<char>) -> nat
    decreases locale.len(),
{
    if locale.len() == 0 || locale[0] == '-' {
        0
    } else {
        1 + language_len(locale.drop_first())
    }
}

/// The language of a locale: what stands before its first hyphen, and all of
/// it where it has none. Without a locale the language is English.
pub open spec fn language_of(locale: Option<Seq<char>>) -> Seq<char> {
    match locale {
        Some(locale) => locale.take(language_len(locale) as int),
        None => "en"@,
    }
}

/// The language code of the system's locale, `"de"` for `"de-DE"`.
pub fn detect_system_locale(locale: Option<&str>) -> (language: String)
    ensures
        language@ == language_of(
            match locale {
                Some(locale) => Some(locale@),
                None => None,
            },
        ),
{
    match locale {
        None => String::from_str("en"),
        Some(locale) => {
            let chars = chars_of(locale);
            let mut i: usize = 0;
            assert(chars@.skip(0) =~= chars@);
            while i < chars.len() && chars[i] != '-'
                invariant
                    i <= chars.len(),
                    language_len(chars@) == i + language_len(chars@.skip(i as int)),
                decreases chars.len() - i,
            {
                assert(chars@.skip(i as int).drop_first() =~= chars@.skip(i + 1));
                i += 1;
            }
            assert(language_len(chars@.skip(i as int)) == 0);
            assert(locale@.subrange(0, i as int) =~= locale@.take(i as int));
            String::from_str(locale.substring_char(0, i))
        },
    }
}

/// One entry of a directory, as a listing of the directory gives it: its
/// name, where the name is text, its path, whether it is a regular file, and
/// its size in bytes where that could be read.
#[derive(Debug, Clone, PartialEq, Eq)]
pub struct DirEntry {
    pub name: Option<String>,
    pub path: String,
    pub is_file: bool,
    pub size: Option<u64>,
}

/// What a `DirEntry` says.
pub struct DirEntryView {
    pub name: Option<Seq<char>>,
    pub path: Seq<char>,
    pub is_file: bool,
    pub size: Option<u64>,
}

impl DeepView for DirEntry {
    type V = DirEntryView;

    open spec fn deep_view(&self) -> DirEntryView {
        DirEntryView {
            name: self.name.deep_view(),
            path: self.path@,
            is_file: self.is_file,
            size: self.size,
        }
    }
}

/// What an item of a walk adds to the size of the directory: the size of a
/// regular file where it could be read, and nothing else.
pub open spec fn counted_size(item: WalkItemView) -> nat {
    match item {
        WalkItemView::Entry(entry) => match entry.size {
            Some(size) => if entry.kind is File {
                size as nat
            } else {
                0
            },
            None => 0,
        },
        WalkItemView::Failed(_) => 0,
    }
}

/// The size of a directory: the sizes of the regular files of its walk, added
/// up.
pub open spec fn total_size(listing: Seq<WalkItemView>) -> nat
    decreases listing.len(),
{
    if listing.len() == 0 {
        0
    } else {
        total_size(listing.drop_last()) + counted_size(listing.last())
    }
}

/// The sum over the beginning of a listing is no more than the sum over all
/// of it.
proof fn lemma_total_size_grows(listing: Seq<WalkItemView>, upto: int)
    requires
        0 <= upto <= listing.len(),
    ensures
        total_size(listing.take(upto)) <= total_size(listing),
    decreases listing.len() - upto,
{
    if upto == listing.len() {
        assert(listing.take(upto) =~= listing);
    } else {
        assert(listing.take(upto + 1).drop_last() =~= listing.take(upto));
        lemma_total_size_grows(listing, upto + 1);
    }
}

/// The size of a directory, or none where the sum is more than a `u64`
/// holds.
fn sum_sizes(listing: &Vec<WalkItem>) -> (sum: Option<u64>)
    ensures
        match sum {
            Some(sum) => sum == total_size(listing.deep_view()),
            None => total_size(listing.deep_view()) > u64::MAX,
        },
{
    let ghost items = listing.deep_view();
    let mut sum: u64 = 0;
    let mut i: usize = 0;
    assert(items.take(0) =~= Seq::<WalkItemView>::empty());
    while i < listing.len()
        invariant
            i <= listing.len(),
            items == listing.deep_view(),
            sum == total_size(items.take(i as int)),
        decreases listing.len() - i,
    {
        proof {
            assert(items.take(i + 1).drop_last() =~= items.take(i as int));
            assert(items.take(i + 1).last() == listing[i as int].deep_view());
            lemma_total_size_grows(items, i + 1);
        }
        match &listing[i] {
            WalkItem::Entry(entry) => {
                if matches!(entry.kind, EntryKind::File) {
                    match entry.size {
                        Some(size) => {
                            if size > u64::MAX - sum {
                                return None;
                            }
                            sum = sum + size;
                        },
                        None => {},
                    }
                }
            },
            WalkItem::Failed(_) => {},
        }
        i += 1;
    }
    assert(items.take(listing.len() as int) =~= items);
    Some(sum)
}

/// Whether the size of the directory is a number that a `u64` holds.
pub fn directory_size_fits(listing: &Vec<WalkItem>) -> (fits: bool)
    ensures
        fits == (total_size(listing.deep_view()) <= u64::MAX),
{
    sum_sizes(listing).is_some()
}

/// The size of a directory in bytes, from a walk of it.
pub fn get_directory_size(listing: &Vec<WalkItem>) -> (size: u64)
    requires
        total_size(listing.deep_view()) <= u64::MAX,
    ensures
        size == total_size(listing.deep_view()),
{
    match sum_sizes(listing) {
        Some(size) => size,
        None => 0,
    }
}

/// The name of a log file: it ends in `.log`, and something stands before
/// that.
pub open spec fn is_log_name(name: Seq<char>) -> bool {
    name.len() > 4 && ends_with(name, ".log"@)
}

/// The name of the entry, where the entry is a log file.
pub open spec fn log_name(entry: DirEntryView) -> Option<Seq<char>> {
    match entry.name {
        Some(name) => if entry.is_file && is_log_name(name) {
            Some(name)
        } else {
            None
        },
        None => None,
    }
}

/// The listing holds a log file.
pub open spec fn has_log(entries: Seq<DirEntryView>) -> bool {
    exists|k: int| 0 <= k < entries.len() && log_name(#[trigger] entries[k]) is Some
}

/// The entry at place `at` is the newest log file of the listing: no log
/// file has a name that comes after its name, and none before it in the
/// listing has the same name. The names begin with the time, so the last by
/// name is the newest.
pub open spec fn is_latest_log(entries: Seq<DirEntryView>, at: int) -> bool {
    &&& 0 <= at < entries.len()
    &&& log_name(entries[at]) is Some
    &&& forall|k: int|
        0 <= k < entries.len() && log_name(#[trigger] entries[k]) is Some ==> !lex_less(
            log_name(entries[at])->0,
            log_name(entries[k])->0,
        )
    &&& forall|k: int|
        0 <= k < at && log_name(#[trigger] entries[k]) is Some ==> log_name(entries[k])->0
            != log_name(entries[at])->0
}

/// A listing has one newest log file at most.
pub proof fn lemma_latest_log_is_unique(entries: Seq<DirEntryView>, first: int, second: int)
    requires
        is_latest_log(entries, first),
        is_latest_log(entries, second),
    ensures
        first == second,
{
    lemma_lex_less_total(
        log_name(entries[first])->0,
        log_name(entries[second])->0,
    );
}

/// The place of the newest log file in a listing, if it holds a log file.
pub open spec fn latest_log_of(entries: Seq<DirEntryView>) -> Option<int> {
    if exists|at: int| is_latest_log(entries, at) {
        Some(choose|at: int| is_latest_log(entries, at))
    } else {
        None
    }
}

/// Whether the entry is a log file.
fn is_log_file(entry: &DirEntry) -> (log: bool)
    ensures
        log == (log_name(entry.deep_view()) is Some),
{
    match &entry.name {
        Some(name) => {
            let chars = chars_of(name.as_str());
            entry.is_file && chars.len() > 4 && chars_end_with(&chars, &chars_of(".log"))
        },
        None => false,
    }
}

/// The characters of the entry's name.
fn name_chars(entry: &DirEntry) -> (chars: Vec<char>)
    requires
        entry.name is Some,
    ensures
        chars@ == entry.deep_view().name->0,
{
    match &entry.name {
        Some(name) => chars_of(name.as_str()),
        None => Vec::new(),
    }
}

/// The entry at place `at` is the newest log file among the first `upto`
/// entries of the listing.
spec fn is_latest_among(entries: Seq<DirEntryView>, upto: int, at: int) -> bool {
    &&& 0 <= at < upto <= entries.len()
    &&& log_name(entries[at]) is Some
    &&& forall|k: int|
        0 <= k < upto && log_name(#[trigger] entries[k]) is Some ==> !lex_less(
            log_name(entries[at])->0,
            log_name(entries[k])->0,
        )
    &&& forall|k: int|
        0 <= k < at && log_name(#[trigger] entries[k]) is Some ==> log_name(entries[k])->0
            != log_name(entries[at])->0
}

/// A log file whose name comes after that of the newest so far is the newest
/// from then on.
proof fn lemma_later_name_takes_over(entries: Seq<DirEntryView>, held: int, next: int)
    requires
        is_latest_among(entries, next, held),
        next < entries.len(),
        log_name(entries[next]) is Some,
        lex_less(log_name(entries[held])->0, log_name(entries[next])->0),
    ensures
        is_latest_among(entries, next + 1, next),
{
    let name = log_name(entries[next])->0;
    let before = log_name(entries[held])->0;
    lemma_lex_less_irreflexive(name);
    assert forall|k: int|
        0 <= k < next && log_name(#[trigger] entries[k]) is Some implies !lex_less(
        name,
        log_name(entries[k])->0,
    ) && log_name(entries[k])->0 != name by {
        if lex_less(name, log_name(entries[k])->0) {
            lemma_lex_less_transitive(before, name, log_name(entries[k])->0);
        }
    }
}

/// Among the first entries of a listing that hold a log file, one is the
/// newest.
proof fn lemma_latest_among_exists(entries: Seq<DirEntryView>, upto: int)
    requires
        0 <= upto <= entries.len(),
        exists|k: int| 0 <= k < upto && log_name(#[trigger] entries[k]) is Some,
    ensures
        exists|at: int| is_latest_among(entries, upto, at),
    decreases upto,
{
    let last = upto - 1;
    if exists|k: int| 0 <= k < last && log_name(#[trigger] entries[k]) is Some {
        lemma_latest_among_exists(entries, last);
        let held = choose|at: int| is_latest_among(entries, last, at);
        if log_name(entries[last]) is Some && lex_less(
            log_name(entries[held])->0,
            log_name(entries[last])->0,
        ) {
            lemma_later_name_takes_over(entries, held, last);
        } else {
            assert(is_latest_among(entries, upto, held));
        }
    } else {
        lemma_lex_less_irreflexive(log_name(entries[last])->0);
        assert(is_latest_among(entries, upto, last));
    }
}

/// The greatest name wins: a listing that holds a log file has a newest log
/// file, no log file of the listing has a name that comes after the name of
/// that one, and the time the world was last played is the time in that
/// name.
pub proof fn lemma_greatest_log_name_wins(entries: Seq<DirEntryView>, k: int)
    requires
        0 <= k < entries.len(),
        log_name(entries[k]) is Some,
    ensures
        latest_log_of(entries) is Some,
        is_latest_log(entries, latest_log_of(entries)->0),
        !lex_less(
            log_name(entries[latest_log_of(entries)->0])->0,
            log_name(entries[k])->0,
        ),
        last_played_of(entries) == played_text(
            log_name(entries[latest_log_of(entries)->0])->0,
        ),
{
    lemma_latest_among_exists(entries, entries.len() as int);
    let at = choose|at: int| is_latest_among(entries, entries.len() as int, at);
    assert(is_latest_log(entries, at));
}

/// The place of the newest log file in a listing of a world's `logs`
/// directory, or none where the listing holds no log file.
pub fn latest_log(entries: &Vec<DirEntry>) -> (latest: Option<usize>)
    ensures
        match latest {
            Some(at) => latest_log_of(entries.deep_view()) == Some(at as int) && is_latest_log(
                entries.deep_view(),
                at as int,
            ),
            None => latest_log_of(entries.deep_view()) is None && !has_log(entries.deep_view()),
        },
{
    let ghost items = entries.deep_view();
    let mut best: Option<usize> = None;
    let mut i: usize = 0;
    while i < entries.len()
        invariant
            i <= entries.len(),
            items == entries.deep_view(),
            match best {
                Some(at) => is_latest_among(items, i as int, at as int),
                None => forall|k: int| 0 <= k < i ==> log_name(#[trigger] items[k]) is None,
            },
        decreases entries.len() - i,
    {
        assert(items[i as int] == entries[i as int].deep_view());
        if is_log_file(&entries[i]) {
            match best {
                Some(at) => {
                    assert(items[at as int] == entries[at as int].deep_view());
                    let held = name_chars(&entries[at]);
                    let name = name_chars(&entries[i]);
                    if chars_lex_less(&held, &name) {
                        proof {
                            lemma_later_name_takes_over(items, at as int, i as int);
                        }
                        best = Some(i);
                    }
                },
                None => {
                    proof {
                        lemma_lex_less_irreflexive(log_name(items[i as int])->0);
                    }
                    best = Some(i);
                },
            }
        }
        i += 1;
    }
    proof {
        match best {
            Some(at) => {
                assert(is_latest_log(items, at as int));
                lemma_latest_log_is_unique(
                    items,
                    choose|other: int| is_latest_log(items, other),
                    at as int,
                );
            },
            None => {},
        }
    }
    best
}

/// A time of day with colons where the name of a log file has hyphens.
pub open spec fn with_colons(text: Seq<char>) -> Seq<char> {
    text.map_values(
        |c: char|
            if c == '-' {
                ':'
            } else {
                c
            },
    )
}

/// The time that the name of a log file begins with, as it is shown. A name
/// bears a time where its first nineteen characters are a moment written as
/// `dddd-dd-dd_dd-dd-dd`; the time is shown as `dddd-dd-dd dd:dd:dd`: the
/// date as it stands, a space, and the time of day with colons for its
/// hyphens. Any other name bears no time.
pub open spec fn played_text(name: Seq<char>) -> Option<Seq<char>> {
    if name.len() >= 19 && has_stamp_shape(name.subrange(0, 19)) {
        Some(name.subrange(0, 10) + seq![' '] + with_colons(name.subrange(11, 19)))
    } else {
        None
    }
}

/// What stands at a place of a time shown as `dddd-dd-dd dd:dd:dd`: hyphens
/// in the date, a space after it, colons in the time of day, and a digit at
/// every other place.
pub open spec fn fits_time_place(place: int, c: char) -> bool {
    if place == 4 || place == 7 {
        c == '-'
    } else if place == 10 {
        c == ' '
    } else if place == 13 || place == 16 {
        c == ':'
    } else {
        is_digit(c)
    }
}

/// The text is a time shown as `dddd-dd-dd dd:dd:dd`.
pub open spec fn has_time_shape(text: Seq<char>) -> bool {
    &&& text.len() == 19
    &&& forall|place: int| 0 <= place < 19 ==> fits_time_place(place, #[trigger] text[place])
}

/// A name bears a time exactly where it begins with a moment, and the time
/// that it bears is a time as it is shown.
pub proof fn lemma_played_text_is_a_time(name: Seq<char>)
    ensures
        played_text(name) is Some <==> name.len() >= 19 && has_stamp_shape(name.subrange(0, 19)),
        played_text(name) matches Some(time) ==> has_time_shape(time),
{
    if played_text(name) is Some {
        let stamp = name.subrange(0, 19);
        let time = played_text(name)->0;
        assert forall|place: int| 0 <= place < 19 implies fits_time_place(
            place,
            #[trigger] time[place],
        ) by {
            assert(fits_stamp_place(place, stamp[place]));
            if place < 10 {
                assert(time[place] == name[place]);
            } else if place > 10 {
                assert(time[place] == with_colons(name.subrange(11, 19))[place - 11]);
            }
        }
    }
}

/// When a world was last played: the time in the name of its newest log
/// file, if it has a log file and that name bears a time.
pub open spec fn last_played_of(entries: Seq<DirEntryView>) -> Option<Seq<char>> {
    match latest_log_of(entries) {
        Some(at) => played_text(entries[at].name->0),
        None => None,
    }
}

/// The time in the name of a log file, as it is shown.
fn played_time(name: &str) -> (time: Option<String>)
    ensures
        time.deep_view() == played_text(name@),
{
    let chars = chars_of(name);
    if !chars_have_stamp_shape(&chars, 0) {
        return None;
    }
    let mut time = String::from_str(name.substring_char(0, 10));
    time.append(" ");
    let ghost start = time@;
    let ghost day = name@.subrange(11, 19);
    proof {
        reveal_strlit(" ");
        reveal_strlit(":");
        assert(start =~= name@.subrange(0, 10) + seq![' ']);
    }
    let mut i: usize = 11;
    while i < 19
        invariant
            11 <= i <= 19,
            chars@ == name@,
            chars.len() >= 19,
            day == name@.subrange(11, 19),
            time@ == start + with_colons(day).take(i - 11),
        decreases 19 - i,
    {
        let ghost before = time@;
        if chars[i] == '-' {
            time.append(":");
        } else {
            time.append(name.substring_char(i, i + 1));
        }
        proof {
            reveal_strlit(":");
            assert(day[i - 11] == name@[i as int]);
            assert(chars@[i as int] == name@[i as int]);
            assert(name@.subrange(i as int, i + 1) =~= seq![name@[i as int]]);
            assert(time@ =~= before.push(with_colons(day)[i - 11]));
            assert(with_colons(day).take(i + 1 - 11) =~= with_colons(day).take(i - 11).push(
                with_colons(day)[i - 11],
            ));
        }
        i += 1;
    }
    assert(with_colons(day).take(8) =~= with_colons(day));
    Some(time)
}

/// When a world was last played, from a listing of its `logs` directory (an
/// empty one where the world has none): the time in the name of its newest
/// log file.
pub fn get_last_played(entries: &Vec<DirEntry>) -> (played: Option<String>)
    ensures
        played.deep_view() == last_played_of(entries.deep_view()),
{
    match latest_log(entries) {
        Some(at) => {
            assert(entries.deep_view()[at as int] == entries[at as int].deep_view());
            match &entries[at].name {
                Some(name) => played_time(name.as_str()),
                None => None,
            }
        },
        None => None,
    }
}

/// What stands in place of the text of a log file that could not be read.
pub open spec fn unreadable_log_text() -> Seq<char> {
    "Could not read log file"@
}

/// The newest log file of a world, from a listing of its `logs` directory (an
/// empty one where the world has none) and the text of the file at
/// `latest_log(entries)`, where that could be read.
pub fn get_latest_log(entries: &Vec<DirEntry>, content: Option<String>) -> (log: Option<LogInfo>)
    ensures
        match latest_log_of(entries.deep_view()) {
            Some(at) => log is Some && log->0@ == (LogInfoView {
                name: entries.deep_view()[at].name->0,
                path: entries.deep_view()[at].path,
                content: match content {
                    Some(text) => text@,
                    None => unreadable_log_text(),
                },
            }),
            None => log is None,
        },
{
    match latest_log(entries) {
        Some(at) => {
            assert(entries.deep_view()[at as int] == entries[at as int].deep_view());
            let content = match content {
                Some(text) => text,
                None => String::from_str("Could not read log file"),
            };
            match &entries[at].name {
                Some(name) => Some(
                    LogInfo { name: name.clone(), path: entries[at].path.clone(), content },
                ),
                None => None,
            }
        },
        None => None,
    }
}

/// The name of a file that the system keeps for itself.
pub open spec fn is_housekeeping_name(name: Seq<char>) -> bool {
    ||| starts_with(name, ".DS_Store"@)
    ||| starts_with(name, "Thumbs.db"@)
    ||| starts_with(name, "desktop.ini"@)
    ||| starts_with(name, "._"@)
}

/// The backup that an entry of a world's `backup` directory stands for: the
/// entry is a regular file, its name is text and not one that the system
/// keeps for itself, and its size could be read.
pub open spec fn backup_of(entry: DirEntryView) -> Option<BackupInfoView> {
    match (entry.name, entry.size) {
        (Some(name), Some(size)) => if entry.is_file && !is_housekeeping_name(name) {
            Some(BackupInfoView { name, path: entry.path, size: size as nat })
        } else {
            None
        },
        _ => None,
    }
}

/// The backups of a listing, in the order of the listing.
pub open spec fn backups_of(entries: Seq<DirEntryView>) -> Seq<BackupInfoView>
    decreases entries.len(),
{
    if entries.len() == 0 {
        Seq::<BackupInfoView>::empty()
    } else {
        match backup_of(entries.last()) {
            Some(backup) => backups_of(entries.drop_last()).push(backup),
            None => backups_of(entries.drop_last()),
        }
    }
}

/// Whether the name is one that the system keeps for itself.
fn is_housekeeping(name: &str) -> (kept: bool)
    ensures
        kept == is_housekeeping_name(name@),
{
    let chars = chars_of(name);
    chars_start_with(&chars, &chars_of(".DS_Store")) || chars_start_with(
        &chars,
        &chars_of("Thumbs.db"),
    ) || chars_start_with(&chars, &chars_of("desktop.ini")) || chars_start_with(
        &chars,
        &chars_of("._"),
    )
}

/// The backup files of a world, from a listing of its `backup` directory (an
/// empty one where the world has none).
pub fn get_world_backups(entries: &Vec<DirEntry>) -> (backups: Vec<BackupInfo>)
    ensures
        backups.deep_view() == backups_of(entries.deep_view()),
{
    let ghost items = entries.deep_view();
    let mut backups: Vec<BackupInfo> = Vec::new();
    let mut i: usize = 0;
    assert(backups.deep_view() =~= backups_of(items.take(0)));
    while i < entries.len()
        invariant
            i <= entries.len(),
            items == entries.deep_view(),
            backups.deep_view() == backups_of(items.take(i as int)),
        decreases entries.len() - i,
    {
        proof {
            assert(items.take(i + 1).drop_last() =~= items.take(i as int));
            assert(items.take(i + 1).last() == entries[i as int].deep_view());
        }
        let entry = &entries[i];
        match (&entry.name, entry.size) {
            (Some(name), Some(size)) => {
                if entry.is_file && !is_housekeeping(name.as_str()) {
                    let ghost before = backups.deep_view();
                    let backup = BackupInfo { name: name.clone(), path: entry.path.clone(), size };
                    backups.push(backup);
                    assert(backups.deep_view() =~= before.push(backup.deep_view()));
                }
            },
            _ => {},
        }
        i += 1;
    }
    assert(items.take(entries.len() as int) =~= items);
    backups
}

} // verus!
