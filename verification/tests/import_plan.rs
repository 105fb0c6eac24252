use hytale_backup::backup::{
    backup_world_to_path_with_progress, import_step, import_world, is_confined, is_plain,
    names_directory,
    ArchiveItem, BackupStep, EntryKind, ImportStep, PathPart, WalkEntry, WalkItem,
};
use hytale_backup::progress::ProgressChannel;
use std::io::{Cursor, Read, Write};
use std::path::{Component, PathBuf};

fn normal(name: &str) -> PathPart {
    PathPart::Normal(name.to_string())
}

fn parts_of(path: &PathBuf) -> Vec<PathPart> {
    path.components()
        .map(|component| match component {
            Component::Prefix(_) => PathPart::Prefix,
            Component::RootDir => PathPart::Root,
            Component::CurDir => PathPart::Current,
            Component::ParentDir => PathPart::Parent,
            Component::Normal(name) => PathPart::Normal(name.to_string_lossy().into_owned()),
        })
        .collect()
}

fn entry(name: &str, enclosed: Option<Vec<PathPart>>) -> ArchiveItem {
    ArchiveItem::Entry { name: name.to_string(), enclosed }
}

#[test]
fn an_entry_that_climbs_out_is_never_written() {
    let climbing = vec![PathPart::Parent, PathPart::Parent, normal("evil.txt")];
    assert_eq!(import_step(&entry("../../evil.txt", None), 0), None);
    assert_eq!(import_step(&entry("../../evil.txt", Some(climbing.clone())), 0), None);
    let plan = import_world(&vec![
        entry("../../evil.txt", None),
        entry("../../evil.txt", Some(climbing)),
        entry("/etc/passwd", Some(vec![PathPart::Root, normal("etc"), normal("passwd")])),
        entry("C:\\x", Some(vec![PathPart::Prefix, normal("x")])),
        entry(
            "a/../../b",
            Some(vec![normal("a"), PathPart::Parent, PathPart::Parent, normal("b")]),
        ),
        entry("ok.txt", Some(vec![normal("ok.txt")])),
    ]);
    assert_eq!(plan, vec![ImportStep::WriteFile { index: 5, target: vec![normal("ok.txt")] }]);
}

#[test]
fn a_name_that_is_more_than_one_level_is_never_written() {
    for name in [
        "../../evil.txt", "..", ".", "", "a/b", "/etc", "a\\b", "..\\evil", "a/", "\\", "/",
    ] {
        assert!(!is_plain(name), "{:?}", name);
        assert!(!is_confined(&vec![normal(name)]), "{:?}", name);
        assert!(!is_confined(&vec![normal("a"), normal(name), normal("b")]), "{:?}", name);
        assert_eq!(import_step(&entry("x", Some(vec![normal(name)])), 0), None, "{:?}", name);
        assert_eq!(
            import_world(&vec![entry("d/", Some(vec![normal("d"), normal(name)]))]),
            Vec::new()
        );
    }
    for name in ["a", "a.txt", "...", ".hidden", "a..b", "..a", "wörld 日本", " ", "a:b"] {
        assert!(is_plain(name), "{:?}", name);
        assert!(is_confined(&vec![normal(name)]), "{:?}", name);
    }
}

#[test]
fn confinement_counts_the_levels() {
    assert!(is_confined(&vec![]));
    assert!(is_confined(&vec![normal("a")]));
    assert!(is_confined(&vec![normal("a"), PathPart::Parent]));
    assert!(is_confined(&vec![normal("a"), PathPart::Parent, normal("b")]));
    assert!(is_confined(&vec![PathPart::Current, normal("a"), PathPart::Current]));
    assert!(!is_confined(&vec![PathPart::Parent]));
    assert!(!is_confined(&vec![PathPart::Current, PathPart::Parent]));
    assert!(!is_confined(&vec![normal("a"), PathPart::Parent, PathPart::Parent, normal("b")]));
    assert!(!is_confined(&vec![PathPart::Parent, normal("a"), normal("b")]));
    assert!(!is_confined(&vec![PathPart::Root]));
    assert!(!is_confined(&vec![normal("a"), PathPart::Root]));
    assert!(!is_confined(&vec![PathPart::Prefix, normal("a")]));
}

#[test]
fn names_that_end_in_a_slash_are_directories() {
    assert!(names_directory("sub/"));
    assert!(names_directory("/"));
    assert!(names_directory("a/b/c/"));
    assert!(!names_directory("sub"));
    assert!(!names_directory(""));
    assert!(!names_directory("a/b"));
    assert!(!names_directory("a\\"));
    assert_eq!(
        import_step(&entry("sub/", Some(vec![normal("sub")])), 4),
        Some(ImportStep::CreateDirectory { index: 4, target: vec![normal("sub")] })
    );
    assert_eq!(
        import_step(&entry("sub/b.txt", Some(vec![normal("sub"), normal("b.txt")])), 5),
        Some(ImportStep::WriteFile { index: 5, target: vec![normal("sub"), normal("b.txt")] })
    );
}

#[test]
fn a_failed_read_ends_the_import() {
    let plan = import_world(&vec![
        entry("a", Some(vec![normal("a")])),
        ArchiveItem::Failed("bad header".to_string()),
        entry("b", Some(vec![normal("b")])),
    ]);
    assert_eq!(
        plan,
        vec![
            ImportStep::WriteFile { index: 0, target: vec![normal("a")] },
            ImportStep::Fail { reason: "bad header".to_string() },
        ]
    );
    assert_eq!(
        import_step(&ArchiveItem::Failed("x".to_string()), 9),
        Some(ImportStep::Fail { reason: "x".to_string() })
    );
    assert!(import_world(&Vec::new()).is_empty());
}

fn table_of(bytes: Vec<u8>) -> (Vec<ArchiveItem>, Vec<Vec<u8>>) {
    let mut archive = zip::ZipArchive::new(Cursor::new(bytes)).unwrap();
    let mut table = Vec::new();
    let mut contents = Vec::new();
    for index in 0..archive.len() {
        let mut file = archive.by_index(index).unwrap();
        let enclosed = file.enclosed_name().map(|path| parts_of(&path));
        table.push(ArchiveItem::Entry { name: file.name().to_string(), enclosed });
        let mut content = Vec::new();
        file.read_to_end(&mut content).unwrap();
        contents.push(content);
    }
    (table, contents)
}

#[test]
fn what_is_written_comes_back_under_the_same_paths() {
    let sources: Vec<(WalkItem, &[u8])> = vec![
        (
            WalkItem::Entry(WalkEntry {
                relative: vec![],
                kind: EntryKind::Directory,
                size: None,
            }),
            b"",
        ),
        (
            WalkItem::Entry(WalkEntry {
                relative: vec!["a.txt".to_string()],
                kind: EntryKind::File,
                size: Some(5),
            }),
            b"alpha",
        ),
        (
            WalkItem::Entry(WalkEntry {
                relative: vec!["sub".to_string()],
                kind: EntryKind::Directory,
                size: None,
            }),
            b"",
        ),
        (
            WalkItem::Entry(WalkEntry {
                relative: vec!["sub".to_string(), "b.txt".to_string()],
                kind: EntryKind::File,
                size: Some(4),
            }),
            b"beta",
        ),
    ];
    let listing: Vec<WalkItem> = sources.iter().map(|(item, _)| item.clone()).collect();
    let mut progress = ProgressChannel::new();
    let steps =
        backup_world_to_path_with_progress(&listing, &listing, false, false, &mut progress);
    assert_eq!(progress.read().total, 2);

    let options = zip::write::SimpleFileOptions::default()
        .compression_method(zip::CompressionMethod::Deflated);
    let mut writer = zip::ZipWriter::new(Cursor::new(Vec::new()));
    for step in &steps {
        match step {
            BackupStep::AddFile { index, name } => {
                writer.start_file(name.clone(), options).unwrap();
                writer.write_all(sources[*index].1).unwrap();
            }
            BackupStep::AddDirectory { name, .. } => {
                writer.add_directory(name.clone(), options).unwrap();
            }
            BackupStep::Fail { reason } => panic!("{}", reason),
        }
    }
    let bytes = writer.finish().unwrap().into_inner();

    let (table, contents) = table_of(bytes);
    let plan = import_world(&table);
    let mut written: Vec<(Vec<PathPart>, Vec<u8>)> = Vec::new();
    let mut made: Vec<Vec<PathPart>> = Vec::new();
    for step in plan {
        match step {
            ImportStep::WriteFile { index, target } => {
                assert!(is_confined(&target));
                written.push((target, contents[index].clone()));
            }
            ImportStep::CreateDirectory { target, .. } => {
                assert!(is_confined(&target));
                made.push(target);
            }
            ImportStep::Fail { reason } => panic!("{}", reason),
        }
    }
    assert_eq!(
        written,
        vec![
            (vec![normal("a.txt")], b"alpha".to_vec()),
            (vec![normal("sub"), normal("b.txt")], b"beta".to_vec()),
        ]
    );
    assert_eq!(made, vec![vec![normal("sub")]]);
}

#[test]
fn an_archive_with_a_climbing_entry_writes_only_what_stays_inside() {
    let options = zip::write::SimpleFileOptions::default()
        .compression_method(zip::CompressionMethod::Deflated);
    let mut writer = zip::ZipWriter::new(Cursor::new(Vec::new()));
    writer.start_file("../../evil.txt", options).unwrap();
    writer.write_all(b"evil").unwrap();
    writer.start_file("good.txt", options).unwrap();
    writer.write_all(b"good").unwrap();
    let bytes = writer.finish().unwrap().into_inner();
    let (table, _) = table_of(bytes);
    assert_eq!(table.len(), 2);
    let plan = import_world(&table);
    assert_eq!(plan, vec![ImportStep::WriteFile { index: 1, target: vec![normal("good.txt")] }]);
}
