use hytale_backup::backup::{
    backup_step, backup_world_to_path_with_progress, count_included_files, entry_name,
    plan_backup, should_exclude, BackupStep, EntryKind, WalkEntry, WalkItem,
};
use hytale_backup::models::BackupProgress;
use hytale_backup::progress::ProgressChannel;

fn path(levels: &[&str]) -> Vec<String> {
    levels.iter().map(|level| level.to_string()).collect()
}

fn file(levels: &[&str]) -> WalkItem {
    WalkItem::Entry(WalkEntry { relative: path(levels), kind: EntryKind::File, size: Some(1) })
}

fn dir(levels: &[&str]) -> WalkItem {
    WalkItem::Entry(WalkEntry { relative: path(levels), kind: EntryKind::Directory, size: None })
}

fn other(levels: &[&str]) -> WalkItem {
    WalkItem::Entry(WalkEntry { relative: path(levels), kind: EntryKind::Other, size: None })
}

fn add_file(index: usize, name: &str) -> BackupStep {
    BackupStep::AddFile { index, name: name.to_string() }
}

fn add_dir(index: usize, name: &str) -> BackupStep {
    BackupStep::AddDirectory { index, name: name.to_string() }
}

fn plan(
    listing: &Vec<WalkItem>,
    include_logs: bool,
    include_backups: bool,
    progress: &mut ProgressChannel,
) -> (Vec<BackupStep>, BackupProgress) {
    let steps = backup_world_to_path_with_progress(
        listing,
        listing,
        include_logs,
        include_backups,
        progress,
    );
    (steps, progress.read())
}

fn record(progress: &mut ProgressChannel, name: &str) -> BackupProgress {
    progress.record_file(name.to_string());
    progress.read()
}

fn world() -> Vec<WalkItem> {
    vec![
        dir(&[]),
        dir(&["backup"]),
        file(&["backup", "y.zip"]),
        file(&["data.bin"]),
        dir(&["logs"]),
        file(&["logs", "x.log"]),
    ]
}

#[test]
fn without_logs_and_backups_only_the_data_file_is_written() {
    let mut progress = ProgressChannel::new();
    let (steps, left) = plan(&world(), false, false, &mut progress);
    assert_eq!(steps, vec![add_file(3, "data.bin")]);
    assert_eq!(left.total, 1);
    assert_eq!(left.current, 0);
    assert_eq!(progress.read().total, 1);
}

#[test]
fn with_logs_and_backups_everything_below_the_root_is_written() {
    let mut progress = ProgressChannel::new();
    let (steps, left) = plan(&world(), true, true, &mut progress);
    assert_eq!(
        steps,
        vec![
            add_dir(1, "backup/"),
            add_file(2, "backup/y.zip"),
            add_file(3, "data.bin"),
            add_dir(4, "logs/"),
            add_file(5, "logs/x.log"),
        ]
    );
    assert_eq!(left.total, 3);
}

#[test]
fn each_choice_stands_for_itself() {
    let mut progress = ProgressChannel::new();
    let (steps, left) = plan(&world(), true, false, &mut progress);
    assert_eq!(
        steps,
        vec![add_file(3, "data.bin"), add_dir(4, "logs/"), add_file(5, "logs/x.log")]
    );
    assert_eq!(left.total, 2);
    let (steps, left) = plan(&world(), false, true, &mut progress);
    assert_eq!(
        steps,
        vec![add_dir(1, "backup/"), add_file(2, "backup/y.zip"), add_file(3, "data.bin")]
    );
    assert_eq!(left.total, 2);
}

#[test]
fn a_level_named_logs_excludes_at_any_depth() {
    assert!(should_exclude(&path(&["logs"]), false, true));
    assert!(should_exclude(&path(&["logs", "x.log"]), false, true));
    assert!(should_exclude(&path(&["sub", "logs"]), false, true));
    assert!(should_exclude(&path(&["sub", "logs", "deep", "x"]), false, true));
    assert!(!should_exclude(&path(&["sub", "logs"]), true, false));
    assert!(!should_exclude(&path(&["logs.txt"]), false, false));
    assert!(!should_exclude(&path(&["mylogs", "x"]), false, false));
    assert!(!should_exclude(&path(&["Logs"]), false, false));
    assert!(should_exclude(&path(&["backup"]), true, false));
    assert!(should_exclude(&path(&["a", "backup", "b"]), true, false));
    assert!(!should_exclude(&path(&["backups"]), false, false));
    assert!(!should_exclude(&path(&[]), false, false));
    assert!(!should_exclude(&path(&["logs", "backup"]), true, true));
}

#[test]
fn entry_names_put_slashes_between_the_levels() {
    assert_eq!(entry_name(&path(&[])), "");
    assert_eq!(entry_name(&path(&["a.txt"])), "a.txt");
    assert_eq!(entry_name(&path(&["sub", "b.txt"])), "sub/b.txt");
    assert_eq!(entry_name(&path(&["a", "b", "c", "d"])), "a/b/c/d");
    assert_eq!(entry_name(&path(&["wörld", "日本"])), "wörld/日本");
}

#[test]
fn one_step_for_each_kind_of_item() {
    assert_eq!(backup_step(&file(&["a", "b"]), 7, true, true), Some(add_file(7, "a/b")));
    assert_eq!(backup_step(&dir(&["a", "b"]), 8, true, true), Some(add_dir(8, "a/b/")));
    assert_eq!(backup_step(&other(&["a", "b"]), 9, true, true), None);
    assert_eq!(backup_step(&dir(&[]), 0, true, true), None);
    assert_eq!(backup_step(&file(&[]), 0, true, true), None);
    assert_eq!(backup_step(&file(&["logs", "x"]), 1, false, true), None);
    assert_eq!(
        backup_step(&WalkItem::Failed("denied".to_string()), 3, true, true),
        Some(BackupStep::Fail { reason: "denied".to_string() })
    );
}

#[test]
fn a_failed_read_ends_the_plan_but_not_the_count() {
    let listing = vec![
        dir(&[]),
        file(&["a"]),
        WalkItem::Failed("permission denied".to_string()),
        file(&["b"]),
        WalkItem::Failed("again".to_string()),
        file(&["c"]),
    ];
    let mut progress = ProgressChannel::new();
    let (steps, left) = plan(&listing, true, true, &mut progress);
    assert_eq!(
        steps,
        vec![add_file(1, "a"), BackupStep::Fail { reason: "permission denied".to_string() }]
    );
    assert_eq!(left.total, 3);
}

#[test]
fn an_empty_listing_gives_an_empty_plan() {
    let mut progress = ProgressChannel::new();
    let (steps, left) = plan(&Vec::new(), true, true, &mut progress);
    assert!(steps.is_empty());
    assert_eq!(left.total, 0);
}

#[test]
fn the_count_of_finished_files_rises_to_the_total() {
    let mut progress = ProgressChannel::new();
    assert!(progress.start());
    let (steps, left) = plan(&world(), true, true, &mut progress);
    let mut seen = vec![left.current];
    for step in &steps {
        if let BackupStep::AddFile { name, .. } = step {
            let now = record(&mut progress, name);
            assert_eq!(&now.current_file, name);
            assert!(now.current <= now.total);
            seen.push(now.current);
        }
    }
    assert_eq!(seen, vec![0, 1, 2, 3]);
    assert!(seen.windows(2).all(|pair| pair[0] <= pair[1]));
    assert_eq!(*seen.last().unwrap(), left.total);
}

#[test]
fn excluded_directories_leave_no_trace() {
    let listing = vec![
        dir(&[]),
        dir(&["sub"]),
        dir(&["sub", "logs"]),
        file(&["sub", "logs", "x.log"]),
        dir(&["sub", "backup"]),
        file(&["sub", "keep.txt"]),
    ];
    let mut progress = ProgressChannel::new();
    let (steps, left) = plan(&listing, false, false, &mut progress);
    assert_eq!(steps, vec![add_dir(1, "sub/"), add_file(5, "sub/keep.txt")]);
    assert_eq!(left.total, 1);
}

#[test]
fn the_count_comes_from_the_first_walk_and_the_steps_from_the_second() {
    let first = vec![dir(&[]), file(&["a"]), file(&["b"]), file(&["logs", "x.log"])];
    let second = vec![dir(&[]), file(&["a"]), dir(&["new"]), file(&["new", "c"])];
    let mut progress = ProgressChannel::new();
    let steps =
        backup_world_to_path_with_progress(&first, &second, false, true, &mut progress);
    let left = progress.read();
    assert_eq!(left.total, 2);
    assert_eq!(steps, vec![add_file(1, "a"), add_dir(2, "new/"), add_file(3, "new/c")]);
    assert_eq!(count_included_files(&first, false, true), 2);
    assert_eq!(count_included_files(&first, true, true), 3);
    assert_eq!(count_included_files(&second, false, false), 2);
    assert_eq!(count_included_files(&Vec::new(), false, false), 0);
    assert_eq!(plan_backup(&second, false, false), steps);
    assert_eq!(plan_backup(&first, false, false), vec![add_file(1, "a"), add_file(2, "b")]);
}

#[test]
fn a_walk_that_grew_does_not_push_the_count_past_the_total() {
    let first = vec![dir(&[]), file(&["a"])];
    let second = vec![dir(&[]), file(&["a"]), file(&["b"])];
    let mut progress = ProgressChannel::new();
    progress.start();
    let steps =
        backup_world_to_path_with_progress(&first, &second, true, true, &mut progress);
    let left = progress.read();
    assert_eq!(left.total, 1);
    let mut last = left;
    for step in &steps {
        if let BackupStep::AddFile { name, .. } = step {
            let now = record(&mut progress, name);
            assert!(now.current >= last.current);
            assert!(now.current <= now.total);
            last = now;
        }
    }
    assert_eq!((last.current, last.total, last.current_file.as_str()), (1, 1, "b"));
}
