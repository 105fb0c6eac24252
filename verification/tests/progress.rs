use hytale_backup::models::BackupProgress;
use hytale_backup::progress::ProgressChannel;

fn idle() -> BackupProgress {
    BackupProgress {
        current: 0,
        total: 0,
        current_file: String::new(),
        is_running: false,
        result: None,
    }
}

#[test]
fn a_record_begins_idle() {
    assert_eq!(BackupProgress::default(), idle());
    assert_eq!(ProgressChannel::new().read(), idle());
}

#[test]
fn a_record_goes_through_a_transfer() {
    let mut record = BackupProgress {
        current: 9,
        total: 9,
        current_file: "old".to_string(),
        is_running: false,
        result: Some(Ok("before".to_string())),
    };
    record.start();
    assert_eq!(record, BackupProgress { is_running: true, ..idle() });
    record.set_total(2);
    assert_eq!(record, BackupProgress { is_running: true, total: 2, ..idle() });
    record.record_file("a.txt".to_string());
    assert_eq!((record.current, record.current_file.as_str()), (1, "a.txt"));
    assert_eq!(record.snapshot(), record);
    assert_eq!(record.take_result(), None);
    record.record_file("sub/b.txt".to_string());
    assert_eq!((record.current, record.current_file.as_str()), (2, "sub/b.txt"));
    record.finish(Ok("/tmp/w.zip".to_string()));
    assert_eq!(
        record,
        BackupProgress {
            current: 2,
            total: 2,
            current_file: "sub/b.txt".to_string(),
            is_running: false,
            result: Some(Ok("/tmp/w.zip".to_string())),
        }
    );
    assert_eq!(record.take_result(), Some(Ok("/tmp/w.zip".to_string())));
    assert_eq!(record.result, None);
    assert_eq!(record.take_result(), None);
    assert_eq!(record.current, 2);
}

#[test]
fn a_failure_is_an_outcome_too() {
    let mut record = BackupProgress::default();
    record.start();
    record.finish(Err("disk full".to_string()));
    assert!(!record.is_running);
    assert_eq!(record.take_result(), Some(Err("disk full".to_string())));
    assert_eq!(record.take_result(), None);
}

#[test]
fn the_channel_keeps_one_transfer_at_a_time() {
    let mut channel = ProgressChannel::new();
    assert!(channel.start());
    assert_eq!(channel.read(), BackupProgress { is_running: true, ..idle() });
    channel.set_total(1);
    channel.record_file("a".to_string());
    let before = channel.read();
    assert!(!channel.start());
    assert_eq!(channel.read(), before);
    assert_eq!((before.current, before.total, before.is_running), (1, 1, true));
    channel.finish(Ok("done".to_string()));
    assert!(channel.start());
    assert_eq!(channel.read(), BackupProgress { is_running: true, ..idle() });
}

#[test]
fn the_channel_never_counts_more_files_than_the_total() {
    let mut channel = ProgressChannel::new();
    channel.start();
    channel.set_total(2);
    assert_eq!((channel.read().current, channel.read().total), (0, 2));
    channel.record_file("a".to_string());
    assert_eq!((channel.read().current, channel.read().current_file.as_str()), (1, "a"));
    channel.record_file("b".to_string());
    assert_eq!((channel.read().current, channel.read().current_file.as_str()), (2, "b"));
    channel.record_file("c".to_string());
    let left = channel.read();
    assert_eq!((left.current, left.total, left.current_file.as_str()), (2, 2, "c"));
    channel.set_total(1);
    let left = channel.read();
    assert_eq!((left.current, left.total, left.current_file.as_str()), (0, 1, "c"));
    assert!(left.is_running);
}

#[test]
fn the_outcome_is_read_once() {
    let mut channel = ProgressChannel::new();
    channel.start();
    let before = channel.read();
    assert_eq!(channel.take_result(), None);
    assert_eq!(channel.read(), before);
    channel.finish(Err("no space".to_string()));
    let left = channel.read();
    assert!(!left.is_running);
    assert_eq!(left.result, Some(Err("no space".to_string())));
    assert_eq!(channel.take_result(), Some(Err("no space".to_string())));
    assert_eq!(channel.read(), BackupProgress { result: None, ..left });
    assert_eq!(channel.take_result(), None);
    assert_eq!(channel.read().result, None);
}

#[test]
fn reading_copies_what_the_channel_holds() {
    let mut channel = ProgressChannel::new();
    assert_eq!(channel.read(), idle());
    assert_eq!(channel.read(), channel.read());
    channel.start();
    channel.set_total(3);
    channel.record_file("x".to_string());
    let seen = channel.read();
    assert_eq!(
        seen,
        BackupProgress {
            current: 1,
            total: 3,
            current_file: "x".to_string(),
            is_running: true,
            result: None,
        }
    );
    channel.finish(Ok("/tmp/w.zip".to_string()));
    assert_eq!(
        channel.read(),
        BackupProgress { is_running: false, result: Some(Ok("/tmp/w.zip".to_string())), ..seen }
    );
}

#[test]
fn the_channel_is_shared_behind_a_lock() {
    let channel = std::sync::Arc::new(std::sync::Mutex::new(ProgressChannel::new()));
    let worker = std::sync::Arc::clone(&channel);
    worker.lock().unwrap().start();
    worker.lock().unwrap().set_total(3);
    worker.lock().unwrap().record_file("x".to_string());
    let seen = channel.lock().unwrap().read();
    assert_eq!((seen.current, seen.total, seen.is_running), (1, 3, true));
}
