//! The store, driven against a disk in memory.

use minisnap::listing::{Entry, Listing};
use minisnap::task::{CreateAction, CreateTask, Envelope, StepOutcome};
use minisnap::{
    join_result, Codec, CodecError, ErrorPath, JsonCodec, MiniSnapError, PersistFailure, Result,
    RmpCodec, SnapStore,
};
use std::collections::BTreeMap;
use std::io::{Error, ErrorKind};
use std::path::{Path, PathBuf};
use std::sync::atomic::{AtomicU64, Ordering};
use std::sync::{Arc, Mutex};

#[derive(Clone, Debug, PartialEq)]
struct TestState {
    counter: u64,
    message: String,
}

fn state(counter: u64, message: &str) -> TestState {
    TestState { counter, message: message.to_string() }
}

fn to_json(envelope: &Envelope<TestState>) -> Vec<u8> {
    let mut inner = serde_json::Map::new();
    inner.insert("counter".to_string(), envelope.state.counter.into());
    inner.insert("message".to_string(), envelope.state.message.clone().into());
    let mut outer = serde_json::Map::new();
    outer.insert("seq".to_string(), envelope.seq.into());
    outer.insert("state".to_string(), inner.into());
    serde_json::to_vec_pretty(&serde_json::Value::Object(outer)).unwrap()
}

fn from_json(bytes: &[u8]) -> Result<Envelope<TestState>> {
    let value: serde_json::Value = serde_json::from_slice(bytes)?;
    Ok(Envelope {
        seq: value["seq"].as_u64().unwrap(),
        state: state(
            value["state"]["counter"].as_u64().unwrap(),
            value["state"]["message"].as_str().unwrap(),
        ),
    })
}

fn entry(dir: &Path, name: &[u8]) -> Entry {
    let text = String::from_utf8(name.to_vec()).unwrap();
    Entry { name: name.to_vec(), path: dir.join(text) }
}

/// A listing of the given names in the directory `dir`.
fn listing(dir: &str, names: &[&str]) -> Listing {
    Ok(names.iter().map(|name| Ok(entry(Path::new(dir), name.as_bytes()))).collect())
}

fn is_at(path: &ErrorPath, expected: &str) -> bool {
    matches!(path, ErrorPath::Of(path) if path == Path::new(expected))
}

/// The files of one directory, by name.
#[derive(Clone, Default, Debug, PartialEq)]
struct Disk {
    dir: Option<PathBuf>,
    files: BTreeMap<Vec<u8>, Vec<u8>>,
    opened: usize,
}

impl Disk {
    fn listing(&self) -> Listing {
        match &self.dir {
            Some(dir) => Ok(self.files.keys().map(|name| Ok(entry(dir, name))).collect()),
            None => Err(Error::from(ErrorKind::NotFound)),
        }
    }

    fn backward_listing(&self) -> Listing {
        let mut entries = self.listing()?;
        entries.reverse();
        Ok(entries)
    }

    fn name_of(&self, path: &Path) -> Vec<u8> {
        assert_eq!(path.parent(), self.dir.as_deref());
        path.file_name().unwrap().to_str().unwrap().as_bytes().to_vec()
    }

    fn read(&self, path: &Path) -> std::result::Result<Vec<u8>, Error> {
        match self.files.get(&self.name_of(path)) {
            Some(bytes) => Ok(bytes.clone()),
            None => Err(Error::from(ErrorKind::NotFound)),
        }
    }
}

/// Does the next step of the task; `temp` is its temporary file.
fn step<C: Codec + Send + Sync + 'static>(
    disk: &mut Disk,
    task: &mut CreateTask<C, TestState>,
    temp: &mut Vec<u8>,
) -> Result<bool> {
    match task.action() {
        None => return Ok(false),
        Some(CreateAction::CreateDir { dir }) => disk.dir = Some(dir.clone()),
        Some(CreateAction::OpenTemp { dir }) => {
            assert_eq!(disk.dir.as_ref(), Some(dir));
            disk.opened += 1;
            *temp = format!(".tmp{}", disk.opened).into_bytes();
            disk.files.insert(temp.clone(), Vec::new());
        }
        Some(CreateAction::Encode { envelope }) => {
            disk.files.insert(temp.clone(), to_json(envelope));
        }
        Some(CreateAction::SyncTemp) => {}
        Some(CreateAction::Persist { dir, name }) => {
            assert_eq!(disk.dir.as_ref(), Some(dir));
            let bytes = disk.files.remove(temp).unwrap();
            disk.files.insert(name.to_vec(), bytes);
        }
        Some(CreateAction::SyncDir { dir }) => assert_eq!(disk.dir.as_ref(), Some(dir)),
    }
    task.resume(StepOutcome::Done)?;
    Ok(true)
}

fn create<C: Codec + Send + Sync + 'static>(
    disk: &mut Disk,
    store: &SnapStore<C>,
    state: TestState,
    seq: u64,
) -> Result<()> {
    let mut task = store.create(state, seq);
    let mut temp = Vec::new();
    while step(disk, &mut task, &mut temp)? {}
    Ok(())
}

fn restore<C: Codec + Send + Sync + 'static>(
    disk: &Disk,
    store: &SnapStore<C>,
) -> Result<(TestState, u64)> {
    let task = store.restore(disk.listing())?;
    let decoded = disk.read(task.path()).map(|bytes| from_json(&bytes));
    task.finish(decoded)
}

#[test]
fn test_create_and_restore_success() {
    let mut disk = Disk::default();
    let store = SnapStore::new(PathBuf::from("/tmp/snaps"), JsonCodec);

    let state = state(100, "hello");

    create(&mut disk, &store, state.clone(), 42).unwrap();

    let (restored, seq) = restore(&disk, &store).unwrap();
    assert_eq!(restored, state);
    assert_eq!(seq, 42);
}

#[test]
fn test_restore_latest_snapshot_use_highest_seq() {
    let mut disk = Disk::default();
    let store = SnapStore::new(PathBuf::from("/tmp/snaps"), JsonCodec);

    create(&mut disk, &store, state(1, "first"), 10).unwrap();

    let second = state(2, "second");
    create(&mut disk, &store, second.clone(), 20).unwrap();

    let (restored, seq) = restore(&disk, &store).unwrap();
    assert_eq!(restored, second);
    assert_eq!(seq, 20);
}

#[test]
fn a_state_is_restored_with_its_sequence_number() {
    let mut disk = Disk::default();
    let store = SnapStore::new(PathBuf::from("snaps"), JsonCodec);
    assert!(restore(&disk, &store).is_err());
    create(&mut disk, &store, state(42, ""), 10).unwrap();
    assert_eq!(restore(&disk, &store).unwrap(), (state(42, ""), 10));
}

#[test]
fn the_order_of_the_listing_does_not_matter() {
    let store = SnapStore::new(PathBuf::from("/a"), JsonCodec);
    let names = ["snapshot_3", "snapshot_20.json", "snapshot_100"];
    for order in [[0, 1, 2], [0, 2, 1], [1, 0, 2], [1, 2, 0], [2, 0, 1], [2, 1, 0]] {
        let shuffled: Vec<&str> = order.iter().map(|&i: &usize| names[i]).collect();
        let latest = store.latest_snapshot(listing("/a", &shuffled)).unwrap();
        assert_eq!(latest, Path::new("/a/snapshot_100"));
    }
}

fn check_restored(disk: &Disk, store: &SnapStore<JsonCodec>, n: u64) {
    let latest = store.latest_snapshot(disk.listing()).unwrap();
    let name = String::from_utf8(disk.name_of(&latest)).unwrap();
    assert!(name.contains(&format!("{n:020}")));

    let (restored, seq) = restore(disk, store).unwrap();
    assert_eq!(seq, n);
    assert_eq!(restored.message, format!("concurrent-{n}"));
}

#[test]
fn test_restore_after_concurrent_creates_single_thread() {
    let n = 42;
    let mut disk = Disk::default();
    let store = SnapStore::new(PathBuf::from("/tmp/snaps"), JsonCodec);

    let mut tasks: Vec<(CreateTask<JsonCodec, TestState>, Vec<u8>)> = (0..=n)
        .map(|seq| (store.create(state(seq, &format!("concurrent-{seq}")), seq), Vec::new()))
        .collect();
    let mut busy = true;
    while busy {
        busy = false;
        for (task, temp) in tasks.iter_mut() {
            busy |= step(&mut disk, task, temp).unwrap();
        }
    }

    check_restored(&disk, &store, n);
}

#[test]
fn test_restore_after_concurrent_creates_multi_thread() {
    let n = 42;
    let runtime = tokio::runtime::Builder::new_multi_thread().worker_threads(8).build().unwrap();
    let disk = Arc::new(Mutex::new(Disk::default()));
    let store = SnapStore::new(PathBuf::from("/tmp/snaps"), JsonCodec);

    let handles: Vec<_> = (0..=n)
        .map(|seq| {
            let disk = Arc::clone(&disk);
            let store = store.clone();
            runtime.spawn(async move {
                let mut task = store.create(state(seq, &format!("concurrent-{seq}")), seq);
                let mut temp = Vec::new();
                loop {
                    let more = step(&mut disk.lock().unwrap(), &mut task, &mut temp)?;
                    if !more {
                        return Ok::<(), MiniSnapError>(());
                    }
                    tokio::task::yield_now().await;
                }
            })
        })
        .collect();
    for handle in handles {
        join_result(runtime.block_on(handle)).unwrap();
    }

    check_restored(&disk.lock().unwrap(), &store, n);
}

#[test]
fn create_asks_for_its_steps_in_order() {
    let store = SnapStore::new(PathBuf::from("/data/"), JsonCodec);
    let mut task = store.create(7u8, 3);
    assert!(matches!(task.action(), Some(CreateAction::CreateDir { dir }) if dir == Path::new("/data/")));
    task.resume(StepOutcome::Done).unwrap();
    assert!(matches!(task.action(), Some(CreateAction::OpenTemp { dir }) if dir == Path::new("/data/")));
    task.resume(StepOutcome::Done).unwrap();
    assert!(matches!(
        task.action(),
        Some(CreateAction::Encode { envelope }) if envelope.seq == 3 && envelope.state == 7
    ));
    task.resume(StepOutcome::Done).unwrap();
    assert!(matches!(task.action(), Some(CreateAction::SyncTemp)));
    task.resume(StepOutcome::Done).unwrap();
    assert!(matches!(
        task.action(),
        Some(CreateAction::Persist { dir, name })
            if dir == Path::new("/data/") && name == b"snapshot_00000000000000000003.json"
    ));
    task.resume(StepOutcome::Done).unwrap();
    assert!(matches!(task.action(), Some(CreateAction::SyncDir { dir }) if dir == Path::new("/data/")));
    task.resume(StepOutcome::Done).unwrap();
    assert!(task.action().is_none());
}

#[test]
fn a_codec_without_extension_adds_none() {
    let store = SnapStore::new(PathBuf::from("snaps"), RmpCodec);
    let mut task = store.create((), u64::MAX);
    for _ in 0..4 {
        task.resume(StepOutcome::Done).unwrap();
    }
    assert!(matches!(
        task.action(),
        Some(CreateAction::Persist { dir, name })
            if dir == Path::new("snaps") && name == b"snapshot_18446744073709551615"
    ));
}

struct TarCodec;

impl Codec for TarCodec {
    fn ext(&self) -> &str {
        "tar.gz"
    }
}

#[test]
fn a_snapshot_with_a_dotted_extension_is_restored() {
    let mut disk = Disk::default();
    let store = SnapStore::new(PathBuf::from("d"), TarCodec);
    create(&mut disk, &store, state(5, ""), 7).unwrap();
    assert!(disk.files.contains_key(&b"snapshot_00000000000000000007.tar.gz"[..]));
    assert_eq!(restore(&disk, &store).unwrap(), (state(5, ""), 7));
    create(&mut disk, &store, state(6, ""), 8).unwrap();
    assert_eq!(restore(&disk, &store).unwrap(), (state(6, ""), 8));
}

/// A codec whose extension follows a counter.
struct CountingCodec {
    encoded: Arc<AtomicU64>,
}

impl Codec for CountingCodec {
    fn ext(&self) -> &str {
        match self.encoded.load(Ordering::SeqCst) {
            0 => "none",
            1 => "one",
            _ => "more",
        }
    }
}

#[test]
fn the_extension_is_the_one_after_encoding() {
    let encoded = Arc::new(AtomicU64::new(0));
    let store = SnapStore::new(PathBuf::from("d"), CountingCodec { encoded: encoded.clone() });
    let mut task = store.create((), 7);
    task.resume(StepOutcome::Done).unwrap();
    task.resume(StepOutcome::Done).unwrap();
    assert!(matches!(task.action(), Some(CreateAction::Encode { .. })));
    encoded.store(1, Ordering::SeqCst);
    task.resume(StepOutcome::Done).unwrap();
    encoded.store(2, Ordering::SeqCst);
    task.resume(StepOutcome::Done).unwrap();
    assert!(matches!(
        task.action(),
        Some(CreateAction::Persist { name, .. }) if name == b"snapshot_00000000000000000007.one"
    ));
}

struct PlainCodec;

impl Codec for PlainCodec {}

#[test]
fn a_codec_that_names_no_extension_has_none() {
    let mut disk = Disk::default();
    let store = SnapStore::new(PathBuf::from("d"), PlainCodec);
    create(&mut disk, &store, state(5, ""), 7).unwrap();
    assert!(disk.files.contains_key(&b"snapshot_00000000000000000007"[..]));
    assert_eq!(restore(&disk, &store).unwrap(), (state(5, ""), 7));
}

#[test]
fn an_io_failure_has_an_unknown_path() {
    let store = SnapStore::new(PathBuf::from("/data"), JsonCodec);
    let mut task = store.create((), 1);
    let err = task.resume(StepOutcome::Io(Error::from(ErrorKind::PermissionDenied))).unwrap_err();
    match err {
        MiniSnapError::Io { source, path } => {
            assert_eq!(source.kind(), ErrorKind::PermissionDenied);
            assert!(matches!(path, ErrorPath::Text("<unknown>")));
        }
        other => panic!("{other:?}"),
    }
    assert!(task.action().is_none());
}

#[test]
fn a_codec_failure_is_handed_on() {
    let store = SnapStore::new(PathBuf::from("/data"), JsonCodec);
    let mut task = store.create((), 1);
    task.resume(StepOutcome::Done).unwrap();
    task.resume(StepOutcome::Done).unwrap();
    let cause = serde_json::from_slice::<u8>(b"x").unwrap_err();
    let err = task.resume(StepOutcome::Encode(MiniSnapError::from(cause))).unwrap_err();
    assert!(matches!(err, MiniSnapError::Codec { source: CodecError::Json(_) }));
    assert!(task.action().is_none());
}

#[test]
fn a_failed_rename_names_the_temporary_file() {
    let store = SnapStore::new(PathBuf::from("/data"), JsonCodec);
    let mut task = store.create((), 1);
    for _ in 0..4 {
        task.resume(StepOutcome::Done).unwrap();
    }
    let failure = PersistFailure {
        error: Error::from(ErrorKind::AlreadyExists),
        file: PathBuf::from("/data/.tmpAbCdEf"),
    };
    match task.resume(StepOutcome::Persist(failure)).unwrap_err() {
        MiniSnapError::Io { source, path } => {
            assert_eq!(source.kind(), ErrorKind::AlreadyExists);
            assert!(is_at(&path, "/data/.tmpAbCdEf"));
        }
        other => panic!("{other:?}"),
    }
    assert!(task.action().is_none());
}

#[test]
fn a_reader_sees_the_old_snapshots_until_the_rename() {
    let mut disk = Disk::default();
    let store = SnapStore::new(PathBuf::from("/tmp/snaps"), JsonCodec);
    create(&mut disk, &store, state(1, "old"), 1).unwrap();

    let mut task = store.create(state(2, "new"), 2);
    let mut temp = Vec::new();
    for _ in 0..4 {
        assert_eq!(restore(&disk, &store).unwrap(), (state(1, "old"), 1));
        assert!(step(&mut disk, &mut task, &mut temp).unwrap());
    }
    assert_eq!(restore(&disk, &store).unwrap(), (state(1, "old"), 1));
    assert!(step(&mut disk, &mut task, &mut temp).unwrap());
    assert_eq!(restore(&disk, &store).unwrap(), (state(2, "new"), 2));
    assert!(step(&mut disk, &mut task, &mut temp).unwrap());
    assert_eq!(restore(&disk, &store).unwrap(), (state(2, "new"), 2));
    assert!(!step(&mut disk, &mut task, &mut temp).unwrap());
}

#[test]
fn a_reader_keeps_the_old_snapshot_if_the_new_number_is_lower() {
    let mut disk = Disk::default();
    let store = SnapStore::new(PathBuf::from("/tmp/snaps"), JsonCodec);
    create(&mut disk, &store, state(5, "old"), 5).unwrap();

    let mut task = store.create(state(2, "new"), 2);
    let mut temp = Vec::new();
    while step(&mut disk, &mut task, &mut temp).unwrap() {
        assert_eq!(restore(&disk, &store).unwrap(), (state(5, "old"), 5));
    }
    assert_eq!(disk.files.len(), 2);
}

#[test]
fn a_reader_finds_the_replaced_snapshot_after_the_rename() {
    let mut disk = Disk::default();
    let store = SnapStore::new(PathBuf::from("/tmp/snaps"), JsonCodec);
    create(&mut disk, &store, state(1, "old"), 5).unwrap();

    let mut task = store.create(state(2, "new"), 5);
    let mut temp = Vec::new();
    for _ in 0..4 {
        assert!(step(&mut disk, &mut task, &mut temp).unwrap());
        assert_eq!(restore(&disk, &store).unwrap(), (state(1, "old"), 5));
    }
    assert!(step(&mut disk, &mut task, &mut temp).unwrap());
    assert_eq!(restore(&disk, &store).unwrap(), (state(2, "new"), 5));
}

#[test]
fn restoring_twice_gives_the_same_and_changes_nothing() {
    let mut disk = Disk::default();
    let store = SnapStore::new(PathBuf::from("/tmp/snaps"), JsonCodec);
    for seq in [3, 11, 7] {
        create(&mut disk, &store, state(seq, "s"), seq).unwrap();
    }
    let before = disk.clone();
    let first = restore(&disk, &store).unwrap();
    assert_eq!(restore(&disk, &store).unwrap(), first);
    assert_eq!(first, (state(11, "s"), 11));
    assert_eq!(disk, before);

    let forward = store.restore(disk.listing()).unwrap();
    let backward = store.restore(disk.backward_listing()).unwrap();
    assert_eq!(forward.path(), backward.path());
}

#[test]
fn a_failed_create_leaves_restoring_as_it_was() {
    for seq in [1, 5, 9] {
        for done in 0..5 {
            let mut disk = Disk::default();
            let store = SnapStore::new(PathBuf::from("/tmp/snaps"), JsonCodec);
            create(&mut disk, &store, state(5, "old"), 5).unwrap();

            let mut task = store.create(state(0, "new"), seq);
            let mut temp = Vec::new();
            for _ in 0..done {
                assert!(step(&mut disk, &mut task, &mut temp).unwrap());
            }
            task.resume(StepOutcome::Io(Error::from(ErrorKind::StorageFull))).unwrap_err();
            disk.files.remove(&temp);
            assert!(!step(&mut disk, &mut task, &mut temp).unwrap());
            assert_eq!(restore(&disk, &store).unwrap(), (state(5, "old"), 5));
        }
    }
}

#[test]
fn both_ways_of_asking_for_the_latest_snapshot_agree() {
    let mut disk = Disk::default();
    let dir = PathBuf::from("/tmp/snaps");
    let store = SnapStore::new(dir.clone(), JsonCodec);

    let a = store.latest_snapshot(disk.listing()).unwrap_err();
    let b = store.latest_snapshot_sync(&dir, disk.listing()).unwrap_err();
    assert!(matches!(a, MiniSnapError::Io { path, .. } if is_at(&path, "/tmp/snaps")));
    assert!(matches!(b, MiniSnapError::Io { path, .. } if is_at(&path, "/tmp/snaps")));

    disk.dir = Some(dir.clone());
    let a = store.latest_snapshot(disk.listing()).unwrap_err();
    let b = store.latest_snapshot_sync(&dir, disk.listing()).unwrap_err();
    assert!(matches!((a, b), (MiniSnapError::NotFound, MiniSnapError::NotFound)));

    for seq in [4, 12, 8] {
        create(&mut disk, &store, state(seq, ""), seq).unwrap();
    }
    let a = store.latest_snapshot(disk.listing()).unwrap();
    let b = store.latest_snapshot_sync(&dir, disk.backward_listing()).unwrap();
    assert_eq!(a, b);
    assert_eq!(a, Path::new("/tmp/snaps/snapshot_00000000000000000012.json"));
}

#[test]
fn of_several_writes_with_the_highest_number_one_is_restored_whole() {
    let mut disk = Disk::default();
    let store = SnapStore::new(PathBuf::from("/tmp/snaps"), JsonCodec);
    let mut tasks: Vec<(CreateTask<JsonCodec, TestState>, Vec<u8>)> = (0..4)
        .map(|i| (store.create(state(i, &format!("writer-{i}")), 6), Vec::new()))
        .collect();
    let mut busy = true;
    while busy {
        busy = false;
        for (task, temp) in tasks.iter_mut() {
            busy |= step(&mut disk, task, temp).unwrap();
        }
    }
    let (restored, seq) = restore(&disk, &store).unwrap();
    assert_eq!(seq, 6);
    assert!(restored.counter < 4);
    assert_eq!(restored.message, format!("writer-{}", restored.counter));
    assert_eq!(disk.files.len(), 1);
}

#[test]
fn storing_the_same_sequence_number_again_replaces_the_snapshot() {
    let mut disk = Disk::default();
    let store = SnapStore::new(PathBuf::from("/tmp/snaps"), JsonCodec);
    create(&mut disk, &store, state(1, "first"), 5).unwrap();
    create(&mut disk, &store, state(2, "again"), 5).unwrap();
    assert_eq!(disk.files.len(), 1);
    assert_eq!(restore(&disk, &store).unwrap(), (state(2, "again"), 5));
}

#[test]
fn a_lower_sequence_number_is_not_the_latest() {
    let mut disk = Disk::default();
    let store = SnapStore::new(PathBuf::from("/tmp/snaps"), JsonCodec);
    create(&mut disk, &store, state(1, "nine"), 9).unwrap();
    create(&mut disk, &store, state(2, "ten"), 10).unwrap();
    create(&mut disk, &store, state(3, "eight"), 8).unwrap();
    assert_eq!(restore(&disk, &store).unwrap(), (state(2, "ten"), 10));
}

#[test]
fn an_empty_directory_has_no_snapshot() {
    let store = SnapStore::new(PathBuf::from("/tmp/snaps"), JsonCodec);
    assert!(matches!(store.restore(Ok(Vec::new())), Err(MiniSnapError::NotFound)));
    assert!(matches!(store.latest_snapshot(Ok(Vec::new())), Err(MiniSnapError::NotFound)));
    let others = listing("/tmp/snaps", &[".tmp01", "snapshot_", "notes.json"]);
    assert!(matches!(store.restore(others), Err(MiniSnapError::NotFound)));
}

#[test]
fn a_directory_that_cannot_be_read_is_named() {
    let store = SnapStore::new(PathBuf::from("/tmp/snaps"), JsonCodec);
    let missing = || Err(Error::from(ErrorKind::NotFound));
    match store.latest_snapshot_sync(&PathBuf::from("/elsewhere"), missing()).unwrap_err() {
        MiniSnapError::Io { source, path } => {
            assert_eq!(source.kind(), ErrorKind::NotFound);
            assert!(is_at(&path, "/elsewhere"));
        }
        other => panic!("{other:?}"),
    }
    match store.restore(missing()).unwrap_err() {
        MiniSnapError::Io { path, .. } => assert!(is_at(&path, "/tmp/snaps")),
        other => panic!("{other:?}"),
    }
}

#[test]
fn entries_that_cannot_be_read_are_passed_over() {
    let store = SnapStore::new(PathBuf::from("/tmp/snaps"), JsonCodec);
    let entries = vec![
        Err(Error::from(ErrorKind::PermissionDenied)),
        Ok(entry(Path::new("/a"), b"snapshot_00000000000000000007.json")),
        Err(Error::from(ErrorKind::PermissionDenied)),
    ];
    let latest = store.latest_snapshot_sync(&PathBuf::from("/a"), Ok(entries)).unwrap();
    assert_eq!(latest, Path::new("/a/snapshot_00000000000000000007.json"));
}

#[test]
fn of_equal_sequence_numbers_the_last_entry_counts() {
    let store = SnapStore::new(PathBuf::from("/a"), JsonCodec);
    let names = ["snapshot_5", "snapshot_05.json", "snapshot_4"];
    let latest = store.latest_snapshot(listing("/a", &names));
    assert_eq!(latest.unwrap(), Path::new("/a/snapshot_05.json"));
    let names = ["snapshot_05.json", "snapshot_5", "snapshot_4"];
    let latest = store.latest_snapshot(listing("/a", &names));
    assert_eq!(latest.unwrap(), Path::new("/a/snapshot_5"));
}

#[test]
fn restore_reports_why_a_file_could_not_be_opened_or_decoded() {
    let store = SnapStore::new(PathBuf::from("/a"), JsonCodec);
    let entries = || listing("/a", &["snapshot_1.json"]);

    let task = store.restore(entries()).unwrap();
    assert_eq!(task.path(), Path::new("/a/snapshot_1.json"));
    match task.finish::<u8>(Err(Error::from(ErrorKind::NotFound))).unwrap_err() {
        MiniSnapError::Io { source, path } => {
            assert_eq!(source.kind(), ErrorKind::NotFound);
            assert!(is_at(&path, "/a/snapshot_1.json"));
        }
        other => panic!("{other:?}"),
    }

    let task = store.restore(entries()).unwrap();
    let decoded = from_json(b"{");
    assert!(matches!(
        task.finish(Ok(decoded)),
        Err(MiniSnapError::Codec { source: CodecError::Json(_) })
    ));
}

#[test]
fn message_pack_snapshots_are_restored() {
    let store: SnapStore<RmpCodec> = SnapStore::new_default(PathBuf::from("/a"));
    let mut task = store.create((3u32, "three".to_string()), 9);
    task.resume(StepOutcome::Done).unwrap();
    task.resume(StepOutcome::Done).unwrap();
    let bytes = match task.action() {
        Some(CreateAction::Encode { envelope }) => {
            rmp_serde::to_vec(&(envelope.seq, &envelope.state)).unwrap()
        }
        other => panic!("{other:?}"),
    };
    let task = store.restore(listing("/a", &["snapshot_00000000000000000009"])).unwrap();
    let (seq, state): (u64, (u32, String)) = rmp_serde::from_slice(&bytes).unwrap();
    let restored = task.finish(Ok(Ok(Envelope { seq, state }))).unwrap();
    assert_eq!(restored, ((3, "three".to_string()), 9));
}

#[test]
fn a_clone_is_the_same_store() {
    let store: SnapStore<JsonCodec> = SnapStore::new_default(PathBuf::from("/x/y"));
    assert_eq!(store.dir(), Path::new("/x/y"));
    assert_eq!(store.clone().dir(), Path::new("/x/y"));
}

#[test]
fn errors_are_converted() {
    let err = MiniSnapError::io(Error::from(ErrorKind::Other), PathBuf::from("p"));
    assert!(matches!(err, MiniSnapError::Io { path, .. } if is_at(&path, "p")));

    let err = MiniSnapError::from(Error::from(ErrorKind::Other));
    assert!(matches!(err, MiniSnapError::Io { path: ErrorPath::Text("<unknown>"), .. }));

    let cause = rmp_serde::encode::Error::Syntax("bad".to_string());
    let err = MiniSnapError::from(cause);
    assert!(matches!(err, MiniSnapError::Codec { source: CodecError::RmpEncode(_) }));

    let cause = rmp_serde::from_slice::<u64>(&[0xc1]).unwrap_err();
    let err = MiniSnapError::from(cause);
    assert!(matches!(err, MiniSnapError::Codec { source: CodecError::RmpDecode(_) }));

    let source = CodecError::Other(Error::other("bad"));
    assert!(matches!(
        MiniSnapError::Codec { source },
        MiniSnapError::Codec { source: CodecError::Other(_) }
    ));
}

#[test]
fn work_that_was_cut_short_is_an_error_of_the_runtime() {
    let runtime = tokio::runtime::Builder::new_current_thread().build().unwrap();
    let handle = runtime.spawn(std::future::pending::<Result<u8>>());
    handle.abort();
    let outcome = runtime.block_on(handle);
    assert!(matches!(join_result(outcome), Err(MiniSnapError::TokioError { .. })));

    assert_eq!(join_result(Ok(Ok(5))).unwrap(), 5);
    assert!(matches!(join_result::<u8>(Ok(Err(MiniSnapError::NotFound))), Err(MiniSnapError::NotFound)));
}
