use bmc_persistency::codec::{decode_u128, encode_u128};
use bmc_persistency::commit::commit_plan;
use bmc_persistency::blob::{parse_blob, serialize_records};
use bmc_persistency::{
    ApplicationPersistency, BootMode, CommitStep, DebounceState, DiskState, KeySpec, MonitorAction,
    MonitorEvent, PersistencyBuilder, PersistencyError, PersistencyStore, Record,
    WRITE_BACK_TIMEOUT_MS,
};

fn record(name: &str, value: Vec<u8>) -> Record {
    Record { name: name.as_bytes().to_vec(), value }
}

fn key_u128(name: &str, default: u128) -> KeySpec {
    KeySpec { name: name.as_bytes().to_vec(), default: encode_u128(default), min_len: 16 }
}

fn key_bytes(name: &str, default: Vec<u8>) -> KeySpec {
    KeySpec { name: name.as_bytes().to_vec(), default, min_len: 0 }
}

fn new_file() -> DiskState {
    DiskState { target: Some(Vec::new()), staged: None }
}

fn reopen(keys: &Vec<KeySpec>, disk: &DiskState) -> ApplicationPersistency {
    ApplicationPersistency::new(keys, disk.target.as_ref().unwrap(), None).unwrap()
}

#[test]
fn file_write_on_drop() {
    let keys_with_default = vec![key_u128("test", 123u128)];
    let mut disk = new_file();

    let mut persistency =
        ApplicationPersistency::new(&keys_with_default, disk.target.as_ref().unwrap(), None)
            .unwrap();
    persistency.set_u128("test", 777u128, 0).unwrap();
    disk.apply_all(&persistency.close());
    drop(persistency);

    let persistency = reopen(&keys_with_default, &disk);
    assert_eq!(persistency.store().get_u128("test"), Ok(777u128));
}

#[test]
fn persistency_monitor_test() {
    let keys_with_default = vec![key_u128("test", 123u128)];
    let mut disk = new_file();

    let mut persistency = ApplicationPersistency::new(
        &keys_with_default,
        disk.target.as_ref().unwrap(),
        Some(200),
    )
    .unwrap();

    disk.apply_all(&persistency.context.sync_all());

    let mut now: u64 = 0;
    for n in 0..6u128 {
        now += 100;
        // the writer's clock check between changes falls short of the deadline
        assert_eq!(persistency.filesystem_writer(now), Ok(MonitorAction::Wait));
        persistency.set_u128("test", n, now).unwrap();
        assert_eq!(persistency.filesystem_writer(now), Ok(MonitorAction::Wait));
    }

    let keys_with_default = vec![key_u128("test", 1u128)];
    let persistency2 = reopen(&keys_with_default, &disk);

    // the writer did not commit during the updates: the file still holds the
    // value committed before them
    assert_eq!(persistency2.store().get_u128("test"), Ok(123u128));
}

#[test]
fn debounced_writer_commits_once_after_quiet_period() {
    let keys = vec![key_u128("test", 123u128)];
    let mut disk = new_file();
    let mut p = ApplicationPersistency::new(&keys, disk.target.as_ref().unwrap(), Some(200)).unwrap();
    let mut commits = 0;
    let mut now: u64 = 0;
    for n in 0..6u128 {
        now += 100;
        p.set_u128("test", n, now).unwrap();
        if p.filesystem_writer(now) == Ok(MonitorAction::Commit) {
            commits += 1;
        }
    }
    assert_eq!(p.monitor, DebounceState::Pending { deadline: 800 });
    assert_eq!(p.filesystem_writer(799), Ok(MonitorAction::Wait));
    assert_eq!(p.filesystem_writer(800), Ok(MonitorAction::Commit));
    commits += 1;
    disk.apply_all(&p.context.commit_to_file());
    assert_eq!(commits, 1);
    assert_eq!(p.monitor, DebounceState::Idle);
    assert_eq!(p.filesystem_writer(5000), Ok(MonitorAction::Wait));
    assert_eq!(reopen(&keys, &disk).store().get_u128("test"), Ok(5u128));
}

#[test]
fn writer_without_timeout_never_commits() {
    let keys = vec![key_u128("test", 1u128)];
    let mut p = ApplicationPersistency::new(&keys, &[], None).unwrap();
    p.set_u128("test", 2, 10).unwrap();
    assert_eq!(p.filesystem_writer(1_000_000), Ok(MonitorAction::Wait));
}

#[test]
fn debounce_deadline_overflow() {
    let s = DebounceState::Idle;
    assert_eq!(
        s.next(MonitorEvent::StoreChange { stamp: u64::MAX - 5 }, 10),
        Err(PersistencyError::TimeOverflow)
    );
    assert_eq!(
        s.next(MonitorEvent::StoreChange { stamp: 5 }, 10),
        Ok((DebounceState::Pending { deadline: 15 }, MonitorAction::Wait))
    );
    assert_eq!(DebounceState::Pending { deadline: 15 }.deadline(), Some(15));
    assert_eq!(DebounceState::Idle.deadline(), None);
}

#[test]
fn u128_round_trip() {
    for v in [0u128, 1, 123, 777, u128::MAX, 1u128 << 100] {
        let b = encode_u128(v);
        assert_eq!(b.len(), 16);
        assert_eq!(decode_u128(&b), Some(v));
    }
    let mut expected = vec![0u8; 16];
    expected[0] = 0x15;
    expected[1] = 0x03;
    assert_eq!(encode_u128(789), expected);
    assert_eq!(decode_u128(&[1, 2, 3]), None);
}

#[test]
fn blob_round_trip_and_format() {
    let records = vec![record("a", vec![1, 2]), record("bc", vec![])];
    let blob = serialize_records(&records);
    assert_eq!(blob, vec![1, 0, 0, 0, b'a', 2, 0, 0, 0, 1, 2, 2, 0, 0, 0, b'b', b'c', 0, 0, 0, 0]);
    let parsed = parse_blob(&blob).unwrap();
    assert_eq!(parsed.len(), 2);
    assert_eq!(parsed[0].name, b"a".to_vec());
    assert_eq!(parsed[0].value, vec![1, 2]);
    assert_eq!(parsed[1].name, b"bc".to_vec());
    assert_eq!(parsed[1].value, Vec::<u8>::new());
    assert!(parse_blob(&blob[..blob.len() - 1]).is_none());
    assert!(parse_blob(&[]).unwrap().is_empty());
}

#[test]
fn unreadable_file_is_an_error() {
    let keys = vec![key_u128("test", 1)];
    assert!(matches!(
        PersistencyStore::new(&keys, &[7, 0, 0]),
        Err(PersistencyError::DeserializeError)
    ));
}

#[test]
fn missing_key_takes_default() {
    let file = serialize_records(&vec![record("a", encode_u128(42))]);
    let keys = vec![key_u128("a", 1), key_u128("b", 2)];
    let store = PersistencyStore::new(&keys, &file).unwrap();
    assert_eq!(store.get_u128("a"), Ok(42));
    assert_eq!(store.get_u128("b"), Ok(2));
}

#[test]
fn unknown_key_and_bad_value() {
    let keys = vec![key_bytes("short", vec![1, 2, 3])];
    let mut store = PersistencyStore::new(&keys, &[]).unwrap();
    assert_eq!(store.get_u128("nope"), Err(PersistencyError::KeyNotFound));
    assert_eq!(store.get("nope"), Err(PersistencyError::KeyNotFound));
    assert_eq!(store.set_u128("nope", 1, 1), Err(PersistencyError::KeyNotFound));
    assert_eq!(store.signal.generation, 0);
    assert_eq!(store.get_u128("short"), Err(PersistencyError::DeserializeError));
    assert_eq!(store.get("short"), Ok(vec![1, 2, 3]));
    store.set("short", vec![9], 44).unwrap();
    assert_eq!(store.get("short"), Ok(vec![9]));
    assert_eq!(store.signal.generation, 1);
    assert_eq!(store.signal.stamp, 44);
}

#[test]
fn change_signal_coalesces() {
    let keys = vec![key_bytes("k", vec![0])];
    let mut store = PersistencyStore::new(&keys, &[]).unwrap();
    let mut w = store.signal.watch();
    assert!(!store.signal.has_changed(&w));
    store.set("k", vec![1], 10).unwrap();
    store.set("k", vec![2], 20).unwrap();
    assert!(store.signal.has_changed(&w));
    assert_eq!(store.signal.borrow_and_update(&mut w), 20);
    assert!(!store.signal.has_changed(&w));
}

#[test]
fn builder_last_registration_wins() {
    let b = PersistencyBuilder::new()
        .register_key("x", vec![1], 0)
        .register_key("y", vec![2], 1)
        .register_key("x", vec![3], 1);
    assert_eq!(b.keys.len(), 2);
    assert_eq!(b.keys[0].name, b"x".to_vec());
    assert_eq!(b.keys[0].default, vec![3]);
    assert_eq!(b.keys[0].min_len, 1);
    let p = b.build(&[]).unwrap();
    assert_eq!(p.write_timeout, Some(WRITE_BACK_TIMEOUT_MS));
    assert_eq!(p.store().get("x"), Ok(vec![3]));
    assert_eq!(p.store().get("y"), Ok(vec![2]));
}

#[test]
fn interrupted_commit_keeps_old_file() {
    let old = vec![1u8, 2, 3];
    let plan = commit_plan(&[9, 9], true);
    assert_eq!(plan.len(), 3);
    let mut disk = DiskState { target: Some(old.clone()), staged: None };
    disk.apply(&plan[0]);
    assert_eq!(disk.target, Some(old.clone()));
    assert_eq!(disk.staged, Some(vec![9, 9]));
    disk.apply(&plan[1]);
    assert_eq!(disk.target, Some(vec![9, 9]));
    assert_eq!(disk.staged, None);
    disk.apply(&plan[2]);
    assert_eq!(disk.target, Some(vec![9, 9]));
    assert!(matches!(plan[2], CommitStep::SyncTarget));
    let mut untouched = DiskState { target: Some(old.clone()), staged: None };
    untouched.apply(&CommitStep::RenameStaged);
    assert_eq!(untouched.target, Some(old));
}

#[test]
fn flushing_twice_gives_identical_file() {
    let keys = vec![key_u128("test", 5), key_bytes("other", vec![4, 4])];
    let p = ApplicationPersistency::new(&keys, &[], None).unwrap();
    let mut disk = new_file();
    disk.apply_all(&p.context.sync_all());
    let first = disk.target.clone();
    disk.apply_all(&p.context.sync_all());
    assert_eq!(disk.target, first);
    assert_eq!(disk.staged, None);
    assert_eq!(first.unwrap(), p.store().serialize_all());
}

#[test]
fn boot_mode_from_sub_minor() {
    assert_eq!(BootMode::from_sub_minor(0), BootMode::Maskrom);
    assert_eq!(BootMode::from_sub_minor(2), BootMode::Maskrom);
    assert_eq!(BootMode::from_sub_minor(1), BootMode::Loader);
    assert_eq!(BootMode::from_sub_minor(255), BootMode::Loader);
}

#[test]
fn undecodable_value_takes_default_others_kept() {
    let file = serialize_records(&vec![
        record("a", vec![1, 2, 3]),
        record("b", encode_u128(42)),
    ]);
    let keys = vec![key_u128("a", 7), key_u128("b", 8)];
    let store = PersistencyStore::new(&keys, &file).unwrap();
    assert_eq!(store.get_u128("a"), Ok(7));
    assert_eq!(store.get_u128("b"), Ok(42));
}

#[test]
fn records_before_a_framing_break_are_kept() {
    let mut file = serialize_records(&vec![record("a", encode_u128(42)), record("b", encode_u128(43))]);
    file.truncate(file.len() - 3);
    let keys = vec![key_u128("a", 7), key_u128("b", 8)];
    let store = PersistencyStore::new(&keys, &file).unwrap();
    assert_eq!(store.get_u128("a"), Ok(42));
    assert_eq!(store.get_u128("b"), Ok(8));
}

#[test]
fn register_u128_sets_width() {
    let b = PersistencyBuilder::new().register_u128("test", 123);
    assert_eq!(b.keys[0].default, encode_u128(123));
    assert_eq!(b.keys[0].min_len, 16);
    let p = b.build(&[]).unwrap();
    assert_eq!(p.store().get_u128("test"), Ok(123));
    assert_eq!(p.watcher.seen, p.store().signal.generation);
}
