//! What storing snapshots does to the files of a directory.
//!
//! The files of the directory are a map from names to contents. Each stage of
//! a [`CreateTask`](crate::task::CreateTask) changes that map as
//! [`after_step`] says. A reader that looks while a step is under way, or after
//! it failed, sees what [`may_be_seen`] says, and after a crash of the machine
//! the directory holds what [`may_survive`] says. The laws state what follows
//! for the snapshots among the files.

use crate::codec;
use crate::codec::Codec;
use crate::error::MiniSnapError;
use crate::listing;
use crate::listing::Listing;
use crate::name;
use crate::path::DOT;
use crate::store;
use crate::task::{CreateStage, CreateView, Envelope};
use std::path::PathBuf;
use vstd::prelude::*;

verus! {

/// The files of a directory: their names and contents.
pub type Files = Map<Seq<u8>, Seq<u8>>;

/// One snapshot on its way to the disk.
pub struct Write {
    /// The name of the snapshot file.
    pub name: Seq<u8>,
    /// The name of the temporary file in which it is prepared.
    pub temp: Seq<u8>,
    /// The encoded envelope.
    pub bytes: Seq<u8>,
}

/// The name of a snapshot file.
pub open spec fn is_snapshot(name: Seq<u8>, ext: Seq<u8>) -> bool {
    name::snapshot_seq(name, ext) is Some
}

/// The name of a hidden file.
pub open spec fn is_hidden(name: Seq<u8>) -> bool {
    name.len() > 0 && name[0] == DOT
}

/// The snapshots among the files.
pub open spec fn snapshots(files: Files, ext: Seq<u8>) -> Files {
    files.filter_keys(|name: Seq<u8>| is_snapshot(name, ext))
}

/// The files after the step that `stage` asks for was done.
pub open spec fn after_step(stage: CreateStage, files: Files, w: Write) -> Files {
    match stage {
        CreateStage::OpenTemp => files.insert(w.temp, Seq::empty()),
        CreateStage::Encode => files.insert(w.temp, w.bytes),
        CreateStage::Persist => files.remove(w.temp).insert(w.name, files[w.temp]),
        _ => files,
    }
}

/// What may be seen while the step that `stage` asks for is under way, or
/// after it failed: the temporary file may hold anything or be gone, and a
/// renaming has taken place or not.
pub open spec fn may_be_seen(stage: CreateStage, files: Files, w: Write, seen: Files) -> bool {
    ||| seen.remove(w.temp) == files.remove(w.temp)
    ||| stage == CreateStage::Persist && seen == after_step(stage, files, w)
}

/// The files when a task that found the files `start` has got to `stage`.
pub open spec fn files_at(stage: CreateStage, start: Files, w: Write) -> Files {
    match stage {
        CreateStage::MakeDir | CreateStage::OpenTemp | CreateStage::Failed => start,
        CreateStage::Encode => start.insert(w.temp, Seq::empty()),
        CreateStage::SyncTemp | CreateStage::Persist => start.insert(w.temp, w.bytes),
        CreateStage::SyncDir | CreateStage::Done => start.remove(w.temp).insert(w.name, w.bytes),
    }
}

/// The snapshot has its final name.
pub open spec fn is_visible(stage: CreateStage) -> bool {
    stage == CreateStage::SyncDir || stage == CreateStage::Done
}

/// The temporary file is complete.
pub open spec fn is_prepared(stage: CreateStage) -> bool {
    stage == CreateStage::SyncTemp || stage == CreateStage::Persist
}

/// Both directories hold the file `n`, with the same contents, or neither does.
pub open spec fn agree(a: Files, b: Files, n: Seq<u8>) -> bool {
    &&& a.contains_key(n) == b.contains_key(n)
    &&& a.contains_key(n) ==> a[n] == b[n]
}

/// Directories that agree on every snapshot hold the same snapshots.
proof fn lemma_same_snapshots(a: Files, b: Files, ext: Seq<u8>)
    requires
        forall|n: Seq<u8>| is_snapshot(n, ext) ==> #[trigger] agree(a, b, n),
    ensures
        snapshots(a, ext) == snapshots(b, ext),
{
    assert forall|n: Seq<u8>| agree(snapshots(a, ext), snapshots(b, ext), n) by {
        assert(is_snapshot(n, ext) ==> agree(a, b, n));
    }
    assert forall|n: Seq<u8>| #[trigger] snapshots(a, ext).dom().contains(n) == snapshots(
        b,
        ext,
    ).dom().contains(n) by {
        assert(agree(snapshots(a, ext), snapshots(b, ext), n));
    }
    assert forall|n: Seq<u8>| #[trigger] snapshots(a, ext).dom().contains(n) implies snapshots(
        a,
        ext,
    )[n] == snapshots(b, ext)[n] by {
        assert(agree(snapshots(a, ext), snapshots(b, ext), n));
    }
    assert(snapshots(a, ext) =~= snapshots(b, ext));
}

/// A hidden file makes no difference to the snapshots.
proof fn lemma_same_but_for_hidden(a: Files, b: Files, hidden: Seq<u8>, ext: Seq<u8>)
    requires
        is_hidden(hidden),
        a.remove(hidden) == b.remove(hidden),
    ensures
        snapshots(a, ext) == snapshots(b, ext),
{
    name::law_hidden_file_is_no_snapshot(hidden, ext);
    assert forall|n: Seq<u8>| is_snapshot(n, ext) implies #[trigger] agree(a, b, n) by {
        assert(n != hidden);
        assert(a.contains_key(n) == a.remove(hidden).contains_key(n));
        assert(b.contains_key(n) == b.remove(hidden).contains_key(n));
        if a.contains_key(n) {
            assert(a[n] == a.remove(hidden)[n]);
            assert(b[n] == b.remove(hidden)[n]);
        }
    }
    lemma_same_snapshots(a, b, ext);
}

/// [`files_at`] follows the steps: each stage finds what the one before left.
pub proof fn law_files_follow_the_steps(stage: CreateStage, start: Files, w: Write)
    ensures
        stage != CreateStage::Failed ==> files_at(stage.next(), start, w) == after_step(
            stage,
            files_at(stage, start, w),
            w,
        ),
{
    let x = files_at(stage, start, w);
    assert(files_at(stage.next(), start, w) =~= after_step(stage, x, w)
        || stage == CreateStage::Failed);
}

/// A reader sees the old snapshots or the new ones, never anything in between.
///
/// Whenever the directory is looked at while a snapshot is stored, and
/// wherever storing it fails, the snapshots are those from before or
/// those with the new one, complete, among them. They are those from before
/// as long as the temporary file was not renamed, and the new ones once it was.
pub proof fn law_create_is_atomic(
    stage: CreateStage,
    start: Files,
    w: Write,
    seen: Files,
    ext: Seq<u8>,
)
    requires
        is_hidden(w.temp),
        stage != CreateStage::Failed,
        may_be_seen(stage, files_at(stage, start, w), w, seen),
    ensures
        snapshots(seen, ext) == snapshots(start, ext) || snapshots(seen, ext) == snapshots(
            start.insert(w.name, w.bytes),
            ext,
        ),
        !is_visible(stage) && stage != CreateStage::Persist ==> snapshots(seen, ext) == snapshots(
            start,
            ext,
        ),
        is_visible(stage) ==> snapshots(seen, ext) == snapshots(start.insert(w.name, w.bytes), ext),
{
    name::law_hidden_file_is_no_snapshot(w.temp, ext);
    let files = files_at(stage, start, w);
    let renamed = start.insert(w.name, w.bytes);
    if seen.remove(w.temp) == files.remove(w.temp) {
        lemma_same_but_for_hidden(seen, files, w.temp, ext);
    }
    let target = if is_visible(stage) {
        renamed
    } else {
        start
    };
    assert forall|n: Seq<u8>| is_snapshot(n, ext) implies #[trigger] agree(files, target, n) by {}
    if is_visible(stage) {
        lemma_same_snapshots(files, renamed, ext);
    } else {
        lemma_same_snapshots(files, start, ext);
        if stage == CreateStage::Persist {
            let after = after_step(stage, files, w);
            assert forall|n: Seq<u8>| is_snapshot(n, ext) implies #[trigger] agree(
                after,
                renamed,
                n,
            ) by {}
            lemma_same_snapshots(after, renamed, ext);
        }
    }
}

/// The files after the step that `stage` asks for failed and the temporary
/// file, if there is one, was deleted.
pub open spec fn after_failure(stage: CreateStage, start: Files, w: Write) -> Files {
    files_at(stage, start, w).remove(w.temp)
}

/// A snapshot that could not be stored changes nothing: the snapshots are
/// those from before. If all that failed was making its name durable, the new
/// snapshot stays.
pub proof fn law_failed_create_changes_nothing(
    stage: CreateStage,
    start: Files,
    w: Write,
    ext: Seq<u8>,
)
    requires
        is_hidden(w.temp),
        stage != CreateStage::Failed,
    ensures
        !is_visible(stage) ==> snapshots(after_failure(stage, start, w), ext) == snapshots(
            start,
            ext,
        ),
        is_visible(stage) ==> snapshots(after_failure(stage, start, w), ext) == snapshots(
            start.insert(w.name, w.bytes),
            ext,
        ),
{
    let seen = after_failure(stage, start, w);
    if is_visible(stage) {
        assert(seen.remove(w.temp) =~= start.insert(w.name, w.bytes).remove(w.temp));
        lemma_same_but_for_hidden(seen, start.insert(w.name, w.bytes), w.temp, ext);
    } else {
        assert(seen.remove(w.temp) =~= start.remove(w.temp));
        lemma_same_but_for_hidden(seen, start, w.temp, ext);
    }
}

/// The contents of the temporary file were made durable before this stage.
pub open spec fn contents_are_durable(stage: CreateStage) -> bool {
    match stage {
        CreateStage::Persist | CreateStage::SyncDir | CreateStage::Done => true,
        _ => false,
    }
}

/// The final name was made durable before this stage.
///
/// This takes a step [`CreateStage::SyncDir`] that makes the entries of the
/// directory durable. Where a system has no such operation, and whoever drives
/// the task reports the step as done without it, the name may still be lost.
pub open spec fn name_is_durable(stage: CreateStage) -> bool {
    stage == CreateStage::Done
}

/// The temporary file may have been renamed at this stage.
pub open spec fn may_be_renamed(stage: CreateStage) -> bool {
    stage == CreateStage::Persist || is_visible(stage)
}

/// What is durable follows the steps: the contents are from the moment that the
/// temporary file was synced, and the name is from the moment that the
/// directory was.
pub proof fn law_durability_follows_the_steps(stage: CreateStage)
    requires
        stage != CreateStage::Failed,
    ensures
        !contents_are_durable(CreateStage::MakeDir),
        !name_is_durable(CreateStage::MakeDir),
        contents_are_durable(stage.next()) <==> contents_are_durable(stage) || stage
            == CreateStage::SyncTemp,
        name_is_durable(stage.next()) <==> name_is_durable(stage) || stage == CreateStage::SyncDir,
        may_be_renamed(stage) ==> contents_are_durable(stage),
{
}

/// What the directory may hold after a crash of the machine when a task that
/// found the files `start` has got to `stage`.
///
/// The temporary file may hold anything or be gone. A renaming may be lost
/// unless the name was made durable, and what the renamed file holds may be
/// lost unless the contents were.
pub open spec fn may_survive(stage: CreateStage, start: Files, w: Write, seen: Files) -> bool {
    ||| !name_is_durable(stage) && seen.remove(w.temp) == start.remove(w.temp)
    ||| may_be_renamed(stage) && exists|contents: Seq<u8>|
        (contents_are_durable(stage) ==> contents == w.bytes) && seen.remove(w.temp)
            == #[trigger] start.insert(w.name, contents).remove(w.temp)
}

/// A crash leaves the old snapshots or the new ones, never anything in
/// between: nothing gets the name of a snapshot before it is durable. When the
/// task is done, it leaves the new ones.
///
/// What holds of a task that is done rests on a directory that was really
/// synced, as [`name_is_durable`] says. Without that, a crash after the task may
/// leave the old snapshots, as it may before.
pub proof fn law_create_survives_a_crash(
    stage: CreateStage,
    start: Files,
    w: Write,
    seen: Files,
    ext: Seq<u8>,
)
    requires
        is_hidden(w.temp),
        may_survive(stage, start, w, seen),
    ensures
        snapshots(seen, ext) == snapshots(start, ext) || snapshots(seen, ext) == snapshots(
            start.insert(w.name, w.bytes),
            ext,
        ),
        stage == CreateStage::Done ==> snapshots(seen, ext) == snapshots(
            start.insert(w.name, w.bytes),
            ext,
        ),
{
    if !name_is_durable(stage) && seen.remove(w.temp) == start.remove(w.temp) {
        lemma_same_but_for_hidden(seen, start, w.temp, ext);
    } else {
        lemma_same_but_for_hidden(seen, start.insert(w.name, w.bytes), w.temp, ext);
    }
}

/// The files and the stages of several tasks that take turns: `turns` says
/// which of them does its next step, turn by turn.
pub open spec fn run(ws: Seq<Write>, start: Files, turns: Seq<int>) -> (Files, Seq<CreateStage>)
    decreases turns.len(),
{
    if turns.len() == 0 {
        (start, Seq::new(ws.len(), |i: int| CreateStage::MakeDir))
    } else {
        let (files, stages) = run(ws, start, turns.drop_last());
        let i = turns.last();
        (after_step(stages[i], files, ws[i]), stages.update(i, stages[i].next()))
    }
}

/// Each write has a hidden temporary file of its own and stores a snapshot.
pub open spec fn independent(ws: Seq<Write>, ext: Seq<u8>) -> bool {
    &&& forall|i: int|
        0 <= i < ws.len() ==> is_hidden(#[trigger] ws[i].temp) && is_snapshot(ws[i].name, ext)
    &&& forall|i: int, j: int|
        0 <= i < j < ws.len() ==> #[trigger] ws[i].temp != #[trigger] ws[j].temp
}

/// The `i`-th write has stored its snapshot under the name `n`.
pub open spec fn stored_by(ws: Seq<Write>, stages: Seq<CreateStage>, i: int, n: Seq<u8>) -> bool {
    0 <= i < ws.len() && is_visible(stages[i]) && ws[i].name == n
}

/// Under the name `n` stands what it held at the start, if no write has stored
/// it, and else all that one of the writes has stored there.
pub open spec fn is_whole(
    ws: Seq<Write>,
    start: Files,
    files: Files,
    stages: Seq<CreateStage>,
    n: Seq<u8>,
) -> bool {
    if exists|i: int| stored_by(ws, stages, i, n) {
        files.contains_key(n) && exists|i: int| #[trigger]
            stored_by(ws, stages, i, n) && files[n] == ws[i].bytes
    } else {
        agree(files, start, n)
    }
}

/// The temporary files of the writes that are about to be renamed are complete.
spec fn temps_are_ready(ws: Seq<Write>, files: Files, stages: Seq<CreateStage>) -> bool {
    forall|i: int|
        0 <= i < ws.len() && is_prepared(#[trigger] stages[i]) ==> files.contains_key(ws[i].temp)
            && files[ws[i].temp] == ws[i].bytes
}

/// However the steps of several tasks follow each other, a snapshot is always
/// whole: it is what it was at the start, or what one of them has stored.
pub proof fn law_concurrent_creates(
    ws: Seq<Write>,
    start: Files,
    turns: Seq<int>,
    n: Seq<u8>,
    ext: Seq<u8>,
)
    requires
        independent(ws, ext),
        forall|t: int| 0 <= t < turns.len() ==> 0 <= #[trigger] turns[t] < ws.len(),
        is_snapshot(n, ext),
    ensures
        is_whole(ws, start, run(ws, start, turns).0, run(ws, start, turns).1, n),
{
    lemma_concurrent_creates(ws, start, turns, ext);
}

proof fn lemma_concurrent_creates(ws: Seq<Write>, start: Files, turns: Seq<int>, ext: Seq<u8>)
    requires
        independent(ws, ext),
        forall|t: int| 0 <= t < turns.len() ==> 0 <= #[trigger] turns[t] < ws.len(),
    ensures
        run(ws, start, turns).1.len() == ws.len(),
        temps_are_ready(ws, run(ws, start, turns).0, run(ws, start, turns).1),
        forall|n: Seq<u8>|
            is_snapshot(n, ext) ==> #[trigger] is_whole(
                ws,
                start,
                run(ws, start, turns).0,
                run(ws, start, turns).1,
                n,
            ),
    decreases turns.len(),
{
    if turns.len() > 0 {
        let before = turns.drop_last();
        assert forall|t: int| 0 <= t < before.len() implies 0 <= #[trigger] before[t]
            < ws.len() by {
            assert(before[t] == turns[t]);
        }
        lemma_concurrent_creates(ws, start, before, ext);
        let (files, stages) = run(ws, start, before);
        lemma_turn(ws, start, files, stages, turns.last(), ext);
    }
}

proof fn lemma_turn(
    ws: Seq<Write>,
    start: Files,
    files: Files,
    stages: Seq<CreateStage>,
    i: int,
    ext: Seq<u8>,
)
    requires
        independent(ws, ext),
        0 <= i < ws.len(),
        stages.len() == ws.len(),
        temps_are_ready(ws, files, stages),
        forall|n: Seq<u8>| is_snapshot(n, ext) ==> #[trigger] is_whole(ws, start, files, stages, n),
    ensures
        temps_are_ready(
            ws,
            after_step(stages[i], files, ws[i]),
            stages.update(i, stages[i].next()),
        ),
        forall|n: Seq<u8>|
            is_snapshot(n, ext) ==> #[trigger] is_whole(
                ws,
                start,
                after_step(stages[i], files, ws[i]),
                stages.update(i, stages[i].next()),
                n,
            ),
{
    let files2 = after_step(stages[i], files, ws[i]);
    let stages2 = stages.update(i, stages[i].next());
    name::law_hidden_file_is_no_snapshot(ws[i].temp, ext);
    assert forall|j: int| 0 <= j < ws.len() && is_prepared(#[trigger] stages2[j]) implies files2.contains_key(
        ws[j].temp,
    ) && files2[ws[j].temp] == ws[j].bytes by {
        name::law_hidden_file_is_no_snapshot(ws[j].temp, ext);
        if j != i {
            assert(stages[j] == stages2[j]);
            assert(ws[i].temp != ws[j].temp);
        } else {
            assert(stages[i] == CreateStage::Encode || is_prepared(stages[i]));
        }
    }
    assert forall|n: Seq<u8>| is_snapshot(n, ext) implies #[trigger] is_whole(
        ws,
        start,
        files2,
        stages2,
        n,
    ) by {
        assert(is_whole(ws, start, files, stages, n));
        assert(n != ws[i].temp);
        if stages[i] == CreateStage::Persist && ws[i].name == n {
            assert(is_prepared(stages[i]));
            assert(stored_by(ws, stages2, i, n) && files2[n] == ws[i].bytes);
        } else {
            assert(agree(files2, files, n));
            assert forall|j: int| stored_by(ws, stages2, j, n) == stored_by(
                ws,
                stages,
                j,
                n,
            ) by {}
            if exists|j: int| stored_by(ws, stages, j, n) {
                let j = choose|j: int| #[trigger]
                    stored_by(ws, stages, j, n) && files[n] == ws[j].bytes;
                assert(stored_by(ws, stages2, j, n));
            } else {
                assert(!exists|j: int| stored_by(ws, stages2, j, n));
            }
        }
    }
}

/// The listing names every file of the directory, and no other. The file `n`
/// stands at the path `at(n)`.
pub open spec fn lists(listing: Listing, files: Files, at: spec_fn(Seq<u8>) -> PathBuf) -> bool {
    match listing {
        Ok(entries) => {
            let names = listing::entry_names(entries@);
            &&& forall|n: Seq<u8>| #[trigger]
                files.contains_key(n) ==> exists|i: int|
                    0 <= i < names.len() && #[trigger] names[i] == Some(n)
            &&& forall|i: int|
                0 <= i < names.len() && #[trigger] names[i] is Some ==> files.contains_key(
                    names[i]->0,
                ) && entries@[i]->Ok_0.path == at(names[i]->0)
        },
        Err(_) => false,
    }
}

/// The path `found` is what the store selects from the listing, and all that
/// it can select.
pub open spec fn selects_only(
    dir: PathBuf,
    ext: Seq<u8>,
    listing: Listing,
    found: PathBuf,
) -> bool {
    &&& listing::selects(ext, listing, found)
    &&& forall|other: PathBuf| #[trigger] listing::selects(ext, listing, other) ==> other == found
    &&& forall|err: MiniSnapError| !#[trigger] listing::refuses(dir, ext, listing, err)
}

/// `n` is a snapshot in the directory, and all others have lower numbers.
pub open spec fn is_highest(files: Files, ext: Seq<u8>, n: Seq<u8>) -> bool {
    &&& files.contains_key(n)
    &&& is_snapshot(n, ext)
    &&& forall|m: Seq<u8>| #[trigger]
        files.contains_key(m) && is_snapshot(m, ext) && m != n ==> name::snapshot_seq(m, ext)->0
            < name::snapshot_seq(n, ext)->0
}

/// The directory holds no snapshot, or one whose number is above all others.
///
/// Of two files with the same number, such as `snapshot_7` and `snapshot_07`,
/// the order of the listing decides.
pub open spec fn is_clear(files: Files, ext: Seq<u8>) -> bool {
    (exists|m: Seq<u8>| #[trigger] files.contains_key(m) && is_snapshot(m, ext)) ==> exists|
        n: Seq<u8>,
    | #[trigger] is_highest(files, ext, n)
}

/// A directory in which no two snapshots have the same number is clear.
pub proof fn law_distinct_numbers_are_clear(files: Files, ext: Seq<u8>)
    requires
        forall|m: Seq<u8>, n: Seq<u8>| #[trigger]
            files.contains_key(m) && is_snapshot(m, ext) && #[trigger] files.contains_key(n)
                && is_snapshot(n, ext) && name::snapshot_seq(m, ext) == name::snapshot_seq(n, ext)
                ==> m == n,
    ensures
        is_clear(files, ext),
{
    if exists|m: Seq<u8>| #[trigger] files.contains_key(m) && is_snapshot(m, ext) {
        let m = choose|m: Seq<u8>| #[trigger] files.contains_key(m) && is_snapshot(m, ext);
        lemma_highest_exists(files, ext, m);
    }
}

proof fn lemma_highest_exists(files: Files, ext: Seq<u8>, m: Seq<u8>)
    requires
        forall|m: Seq<u8>, n: Seq<u8>| #[trigger]
            files.contains_key(m) && is_snapshot(m, ext) && #[trigger] files.contains_key(n)
                && is_snapshot(n, ext) && name::snapshot_seq(m, ext) == name::snapshot_seq(n, ext)
                ==> m == n,
        files.contains_key(m),
        is_snapshot(m, ext),
    ensures
        exists|n: Seq<u8>| #[trigger] is_highest(files, ext, n),
    decreases u64::MAX - name::snapshot_seq(m, ext)->0,
{
    if !is_highest(files, ext, m) {
        let other = choose|other: Seq<u8>| #[trigger]
            files.contains_key(other) && is_snapshot(other, ext) && other != m
                && name::snapshot_seq(other, ext)->0 >= name::snapshot_seq(m, ext)->0;
        lemma_highest_exists(files, ext, other);
    }
}

/// A snapshot whose sequence number is above all others is the one that is
/// selected, in whatever order the files are listed.
pub proof fn law_highest_is_selected(
    dir: PathBuf,
    ext: Seq<u8>,
    listing: Listing,
    files: Files,
    at: spec_fn(Seq<u8>) -> PathBuf,
    n: Seq<u8>,
)
    requires
        lists(listing, files, at),
        is_highest(files, ext, n),
    ensures
        selects_only(dir, ext, listing, at(n)),
{
    let entries = listing->Ok_0@;
    let names = listing::entry_names(entries);
    let k = choose|i: int| 0 <= i < names.len() && #[trigger] names[i] == Some(n);
    assert(listing::entry_seq(names, ext, k) is Some);
    listing::law_latest_exists(names, ext);
    assert(!listing::no_snapshot(names, ext));
    let best = choose|i: int| listing::is_latest(names, ext, i);
    assert forall|i: int| listing::is_latest(names, ext, i) implies names[i] == Some(n) by {
        assert(listing::entry_seq(names, ext, i) is Some);
        assert(files.contains_key(names[i]->0));
    }
    assert(listing::is_latest(names, ext, best));
    assert(entries[best]->Ok_0.path == at(n));
    assert(listing::selects(ext, listing, at(n)));
}

/// Directories with the same snapshots agree on each of them.
proof fn lemma_agree_on_snapshot(a: Files, b: Files, n: Seq<u8>, ext: Seq<u8>)
    requires
        snapshots(a, ext) == snapshots(b, ext),
        is_snapshot(n, ext),
    ensures
        agree(a, b, n),
{
    assert(snapshots(a, ext).contains_key(n) == a.contains_key(n));
    assert(snapshots(b, ext).contains_key(n) == b.contains_key(n));
    if a.contains_key(n) {
        assert(snapshots(a, ext)[n] == a[n]);
        assert(snapshots(b, ext)[n] == b[n]);
    }
}

/// Directories with the same snapshots have the same highest one.
proof fn lemma_same_highest(a: Files, b: Files, ext: Seq<u8>, n: Seq<u8>)
    requires
        snapshots(a, ext) == snapshots(b, ext),
        is_highest(a, ext, n),
    ensures
        is_highest(b, ext, n),
        a[n] == b[n],
{
    lemma_agree_on_snapshot(a, b, n, ext);
    assert forall|m: Seq<u8>| #[trigger]
        b.contains_key(m) && is_snapshot(m, ext) && m != n implies name::snapshot_seq(m, ext)->0
        < name::snapshot_seq(n, ext)->0 by {
        lemma_agree_on_snapshot(a, b, m, ext);
        assert(a.contains_key(m));
    }
}

/// A listing of a directory without snapshots gives the error `NotFound` and
/// nothing else.
proof fn lemma_nothing_selected(
    dir: PathBuf,
    ext: Seq<u8>,
    listing: Listing,
    files: Files,
    at: spec_fn(Seq<u8>) -> PathBuf,
)
    requires
        lists(listing, files, at),
        forall|m: Seq<u8>| #[trigger] files.contains_key(m) ==> !is_snapshot(m, ext),
    ensures
        forall|found: PathBuf| !#[trigger] listing::selects(ext, listing, found),
        forall|err: MiniSnapError| #[trigger]
            listing::refuses(dir, ext, listing, err) <==> err is NotFound,
{
    let names = listing::entry_names(listing->Ok_0@);
    assert forall|i: int| 0 <= i < names.len() implies #[trigger] listing::entry_seq(
        names,
        ext,
        i,
    ) is None by {
        if names[i] is Some {
            assert(files.contains_key(names[i]->0));
        }
    }
    assert(listing::no_snapshot(names, ext));
    listing::law_latest_exists(names, ext);
}

/// Where the latest snapshot stands: the same in both directories, with the
/// same contents.
pub open spec fn stands_in_both(
    a: Files,
    b: Files,
    ext: Seq<u8>,
    at: spec_fn(Seq<u8>) -> PathBuf,
    found: PathBuf,
) -> bool {
    exists|n: Seq<u8>| #[trigger]
        is_highest(a, ext, n) && is_highest(b, ext, n) && found == at(n) && a[n] == b[n]
}

/// The codec always gives the extension `ext`.
pub open spec fn always_gives<C: Codec>(codec: C, ext: Seq<u8>) -> bool {
    forall|other: Seq<u8>| #[trigger] codec::gives_ext(codec, other) ==> other == ext
}

/// Two readings of the directory `dir` are answered alike: with one and the
/// same path, or with errors that tell the same.
pub open spec fn answers_agree<C: Codec>(
    codec: C,
    dir: PathBuf,
    la: Listing,
    lb: Listing,
) -> bool {
    &&& forall|a: PathBuf, b: PathBuf|
        #![trigger store::selected(codec, la, a), store::selected(codec, lb, b)]
        store::selected(codec, la, a) && store::selected(codec, lb, b) ==> a == b
    &&& forall|a: PathBuf, err: MiniSnapError|
        #![trigger store::selected(codec, la, a), store::refused(codec, dir, lb, err)]
        !(store::selected(codec, la, a) && store::refused(codec, dir, lb, err))
    &&& forall|err: MiniSnapError, b: PathBuf|
        #![trigger store::refused(codec, dir, la, err), store::selected(codec, lb, b)]
        !(store::refused(codec, dir, la, err) && store::selected(codec, lb, b))
    &&& forall|e: MiniSnapError, f: MiniSnapError|
        #![trigger store::refused(codec, dir, la, e), store::refused(codec, dir, lb, f)]
        store::refused(codec, dir, la, e) && store::refused(codec, dir, lb, f) ==> e.tells_as(f)
}

/// What is restored depends on the snapshots alone.
///
/// From directories with the same snapshots the store selects the same path, at
/// which the same contents stand, or gives the same error. Neither the order in
/// which the files are listed nor the other files make a difference.
pub proof fn law_same_snapshots_same_answer<C: Codec>(
    codec: C,
    ext: Seq<u8>,
    dir: PathBuf,
    at: spec_fn(Seq<u8>) -> PathBuf,
    a: Files,
    b: Files,
    la: Listing,
    lb: Listing,
)
    requires
        always_gives(codec, ext),
        snapshots(a, ext) == snapshots(b, ext),
        is_clear(a, ext),
        lists(la, a, at),
        lists(lb, b, at),
    ensures
        answers_agree(codec, dir, la, lb),
        forall|found: PathBuf| #[trigger]
            store::selected(codec, la, found) ==> store::selected(codec, lb, found)
                && stands_in_both(a, b, ext, at, found),
        forall|err: MiniSnapError| #[trigger]
            store::refused(codec, dir, la, err) ==> store::refused(codec, dir, lb, err),
{
    if exists|n: Seq<u8>| #[trigger] is_highest(a, ext, n) {
        let n = choose|n: Seq<u8>| #[trigger] is_highest(a, ext, n);
        lemma_same_highest(a, b, ext, n);
        law_highest_is_selected(dir, ext, la, a, at, n);
        law_highest_is_selected(dir, ext, lb, b, at, n);
        assert(stands_in_both(a, b, ext, at, at(n)));
    } else {
        assert forall|m: Seq<u8>| #[trigger] b.contains_key(m) implies !is_snapshot(m, ext) by {
            if is_snapshot(m, ext) {
                lemma_agree_on_snapshot(a, b, m, ext);
                assert(a.contains_key(m));
            }
        }
        lemma_nothing_selected(dir, ext, la, a, at);
        lemma_nothing_selected(dir, ext, lb, b, at);
    }
}

/// Restoring again, with nothing stored in between, gives the same.
///
/// Two listings of the same files, in whatever order, make the store select
/// the same path, or give the same error. Restoring asks for a listing and for
/// one file to be read, so that the files stay what they were.
pub proof fn law_restoring_twice_gives_the_same<C: Codec>(
    codec: C,
    ext: Seq<u8>,
    dir: PathBuf,
    at: spec_fn(Seq<u8>) -> PathBuf,
    files: Files,
    la: Listing,
    lb: Listing,
)
    requires
        always_gives(codec, ext),
        is_clear(files, ext),
        lists(la, files, at),
        lists(lb, files, at),
    ensures
        answers_agree(codec, dir, la, lb),
        forall|found: PathBuf| #[trigger]
            store::selected(codec, la, found) <==> store::selected(codec, lb, found),
        forall|err: MiniSnapError| #[trigger]
            store::refused(codec, dir, la, err) <==> store::refused(codec, dir, lb, err),
{
    law_same_snapshots_same_answer(codec, ext, dir, at, files, files, la, lb);
    law_same_snapshots_same_answer(codec, ext, dir, at, files, files, lb, la);
}

/// A snapshot that could not be stored leaves restoring as it was.
///
/// If a step before the directory was to be synced fails, the store selects
/// from what is left behind the path that it selected before, at which the
/// same contents stand, or gives the error that it gave before, whatever the
/// sequence number that was to be stored.
pub proof fn law_restore_after_failed_create<C: Codec>(
    codec: C,
    ext: Seq<u8>,
    dir: PathBuf,
    at: spec_fn(Seq<u8>) -> PathBuf,
    stage: CreateStage,
    start: Files,
    w: Write,
    before: Listing,
    after: Listing,
)
    requires
        always_gives(codec, ext),
        is_clear(start, ext),
        is_hidden(w.temp),
        stage != CreateStage::Failed,
        !is_visible(stage),
        lists(before, start, at),
        lists(after, after_failure(stage, start, w), at),
    ensures
        answers_agree(codec, dir, before, after),
        forall|found: PathBuf| #[trigger]
            store::selected(codec, before, found) ==> store::selected(codec, after, found)
                && stands_in_both(start, after_failure(stage, start, w), ext, at, found),
        forall|found: PathBuf|
            selects_only(dir, ext, before, found) ==> #[trigger] selects_only(
                dir,
                ext,
                after,
                found,
            ),
        forall|err: MiniSnapError| #[trigger]
            store::refused(codec, dir, before, err) ==> store::refused(codec, dir, after, err),
{
    let left = after_failure(stage, start, w);
    law_failed_create_changes_nothing(stage, start, w, ext);
    law_same_snapshots_same_answer(codec, ext, dir, at, start, left, before, after);
    if exists|n: Seq<u8>| #[trigger] is_highest(start, ext, n) {
        let n = choose|n: Seq<u8>| #[trigger] is_highest(start, ext, n);
        lemma_same_highest(start, left, ext, n);
        law_highest_is_selected(dir, ext, before, start, at, n);
        law_highest_is_selected(dir, ext, after, left, at, n);
    } else {
        lemma_nothing_selected(dir, ext, before, start, at);
    }
}

/// Both ways of asking for the latest snapshot of a store give the same.
///
/// [`SnapStore::latest_snapshot`](crate::SnapStore::latest_snapshot) answers as
/// [`SnapStore::latest_snapshot_sync`](crate::SnapStore::latest_snapshot_sync)
/// does on the directory of the store: with the same path, or with errors that
/// tell the same. That holds if they are given the same listing, two listings
/// of the same files, or a directory that neither could read.
pub proof fn law_latest_snapshot_agrees<C: Codec>(
    codec: C,
    ext: Seq<u8>,
    dir: PathBuf,
    at: spec_fn(Seq<u8>) -> PathBuf,
    files: Files,
    la: Listing,
    lb: Listing,
)
    requires
        always_gives(codec, ext),
        ({
            ||| la == lb
            ||| is_clear(files, ext) && lists(la, files, at) && lists(lb, files, at)
            ||| la is Err && lb is Err
        }),
    ensures
        answers_agree(codec, dir, la, lb),
{
    if la == lb {
        assert forall|a: PathBuf, b: PathBuf, err: MiniSnapError| #[trigger]
            listing::selects(ext, la, a) implies (#[trigger] listing::selects(ext, la, b) ==> a
            == b) && !#[trigger] listing::refuses(dir, ext, la, err) by {
            listing::law_listing_decides(dir, ext, la, a, b, err);
        }
    } else if la is Ok {
        law_same_snapshots_same_answer(codec, ext, dir, at, files, files, la, lb);
    }
}

/// The temporary file has been renamed in what is seen.
pub open spec fn is_renamed(stage: CreateStage, start: Files, w: Write, seen: Files) -> bool {
    ||| is_visible(stage)
    ||| stage == CreateStage::Persist && seen == after_step(stage, files_at(stage, start, w), w)
}

/// The file `n` is selected from the listing, and holds `contents`.
pub open spec fn finds(
    dir: PathBuf,
    ext: Seq<u8>,
    listing: Listing,
    at: spec_fn(Seq<u8>) -> PathBuf,
    seen: Files,
    n: Seq<u8>,
    contents: Seq<u8>,
) -> bool {
    selects_only(dir, ext, listing, at(n)) && seen[n] == contents
}

/// A reader that comes while a snapshot is stored finds the latest snapshot
/// from before, as it was, or the new one, complete.
///
/// It finds the new one once the temporary file is renamed, if it replaces the
/// latest or has a higher number. It finds the one from before until then, and
/// always if the new number is lower. Of two files with the same number, the
/// order of the listing decides.
pub proof fn law_reader_finds_old_or_new(
    dir: PathBuf,
    ext: Seq<u8>,
    stage: CreateStage,
    start: Files,
    w: Write,
    latest: Seq<u8>,
    seen: Files,
    listing: Listing,
    at: spec_fn(Seq<u8>) -> PathBuf,
)
    requires
        is_hidden(w.temp),
        is_snapshot(w.name, ext),
        stage != CreateStage::Failed,
        is_highest(start, ext, latest),
        w.name == latest || name::snapshot_seq(w.name, ext) != name::snapshot_seq(latest, ext),
        may_be_seen(stage, files_at(stage, start, w), w, seen),
        lists(listing, seen, at),
    ensures
        ({
            ||| finds(dir, ext, listing, at, seen, latest, start[latest])
            ||| finds(dir, ext, listing, at, seen, w.name, w.bytes)
        }),
        is_renamed(stage, start, w, seen) && (w.name == latest || name::snapshot_seq(
            w.name,
            ext,
        )->0 > name::snapshot_seq(latest, ext)->0) ==> finds(
            dir,
            ext,
            listing,
            at,
            seen,
            w.name,
            w.bytes,
        ),
        !is_renamed(stage, start, w, seen) ==> finds(
            dir,
            ext,
            listing,
            at,
            seen,
            latest,
            start[latest],
        ),
        name::snapshot_seq(w.name, ext)->0 < name::snapshot_seq(latest, ext)->0 ==> finds(
            dir,
            ext,
            listing,
            at,
            seen,
            latest,
            start[latest],
        ),
{
    law_create_is_atomic(stage, start, w, seen, ext);
    let renamed = start.insert(w.name, w.bytes);
    if is_renamed(stage, start, w, seen) {
        if !is_visible(stage) {
            name::law_hidden_file_is_no_snapshot(w.temp, ext);
            assert forall|n: Seq<u8>| is_snapshot(n, ext) implies #[trigger] agree(
                seen,
                renamed,
                n,
            ) by {}
            lemma_same_snapshots(seen, renamed, ext);
        }
        let top = if w.name == latest || name::snapshot_seq(w.name, ext)->0 > name::snapshot_seq(
            latest,
            ext,
        )->0 {
            w.name
        } else {
            latest
        };
        assert forall|m: Seq<u8>| #[trigger]
            renamed.contains_key(m) && is_snapshot(m, ext) && m != top implies name::snapshot_seq(
            m,
            ext,
        )->0 < name::snapshot_seq(top, ext)->0 by {
            if m != w.name {
                assert(start.contains_key(m));
            }
        }
        assert(is_highest(renamed, ext, top));
        lemma_same_highest(renamed, seen, ext, top);
        law_highest_is_selected(dir, ext, listing, seen, at, top);
    } else {
        let files = files_at(stage, start, w);
        lemma_same_but_for_hidden(seen, files, w.temp, ext);
        assert(files.remove(w.temp) =~= start.remove(w.temp));
        lemma_same_but_for_hidden(files, start, w.temp, ext);
        lemma_same_highest(start, seen, ext, latest);
        law_highest_is_selected(dir, ext, listing, seen, at, latest);
    }
}

/// A store finds what the extension of its codec makes it find, if the codec
/// always gives the same one.
pub proof fn law_store_follows_its_codec<C: Codec>(
    codec: C,
    dir: PathBuf,
    ext: Seq<u8>,
    listing: Listing,
    found: PathBuf,
)
    requires
        always_gives(codec, ext),
        selects_only(dir, ext, listing, found),
    ensures
        forall|other: PathBuf| #[trigger]
            store::selected(codec, listing, other) ==> other == found,
        forall|err: MiniSnapError| !#[trigger] store::refused(codec, dir, listing, err),
{
}

/// A task stores its snapshot under the name that the extension of the codec
/// gives it, if the codec always gives the same one.
pub proof fn law_task_follows_its_codec<C: Codec, S>(view: CreateView<C, S>, ext: Seq<u8>)
    requires
        always_gives(view.codec, ext),
        crate::task::is_named(view),
    ensures
        view.name == name::snapshot_name(view.envelope.seq, ext),
{
}

/// What was stored is what is restored.
///
/// Once a snapshot is stored whose sequence number is above those of the other
/// snapshots in the directory, the store selects its file, and a codec that
/// reads back what it wrote decodes that file to the state and the sequence
/// number that were stored.
pub proof fn law_restore_after_create<S>(
    dir: PathBuf,
    ext: Seq<u8>,
    envelope: Envelope<S>,
    encode: spec_fn(Envelope<S>) -> Seq<u8>,
    decode: spec_fn(Seq<u8>) -> Option<Envelope<S>>,
    temp: Seq<u8>,
    start: Files,
    listing: Listing,
    at: spec_fn(Seq<u8>) -> PathBuf,
)
    requires
        decode(encode(envelope)) == Some(envelope),
        is_hidden(temp),
        forall|m: Seq<u8>| #[trigger]
            start.contains_key(m) && is_snapshot(m, ext) && m != name::snapshot_name(envelope.seq, ext)
                ==> name::snapshot_seq(m, ext)->0 < envelope.seq,
        lists(
            listing,
            files_at(
                CreateStage::Done,
                start,
                Write {
                    name: name::snapshot_name(envelope.seq, ext),
                    temp,
                    bytes: encode(envelope),
                },
            ),
            at,
        ),
    ensures
        selects_only(dir, ext, listing, at(name::snapshot_name(envelope.seq, ext))),
        decode(
            files_at(
                CreateStage::Done,
                start,
                Write {
                    name: name::snapshot_name(envelope.seq, ext),
                    temp,
                    bytes: encode(envelope),
                },
            )[name::snapshot_name(envelope.seq, ext)],
        ) == Some(envelope),
{
    let n = name::snapshot_name(envelope.seq, ext);
    let files = files_at(
        CreateStage::Done,
        start,
        Write { name: n, temp, bytes: encode(envelope) },
    );
    name::law_name_round_trip(envelope.seq, ext);
    assert forall|m: Seq<u8>| #[trigger]
        files.contains_key(m) && is_snapshot(m, ext) && m != n implies name::snapshot_seq(m, ext)->0
        < name::snapshot_seq(n, ext)->0 by {
        assert(start.contains_key(m));
    }
    law_highest_is_selected(dir, ext, listing, files, at, n);
}

/// The writes of several envelopes.
pub open spec fn writes<S>(
    envelopes: Seq<Envelope<S>>,
    ext: Seq<u8>,
    encode: spec_fn(Envelope<S>) -> Seq<u8>,
    temps: Seq<Seq<u8>>,
) -> Seq<Write> {
    Seq::new(
        envelopes.len(),
        |i: int|
            Write {
                name: name::snapshot_name(envelopes[i].seq, ext),
                temp: temps[i],
                bytes: encode(envelopes[i]),
            },
    )
}

/// Of several snapshots that are stored at the same time, the one with the
/// highest sequence number is restored once it is stored, however their steps
/// follow each other and however far the others have got.
///
/// If several have the highest number, one of those that are stored is
/// restored, whole.
pub proof fn law_restore_after_concurrent_creates<S>(
    dir: PathBuf,
    ext: Seq<u8>,
    envelopes: Seq<Envelope<S>>,
    encode: spec_fn(Envelope<S>) -> Seq<u8>,
    decode: spec_fn(Seq<u8>) -> Option<Envelope<S>>,
    temps: Seq<Seq<u8>>,
    start: Files,
    turns: Seq<int>,
    k: int,
    listing: Listing,
    at: spec_fn(Seq<u8>) -> PathBuf,
)
    requires
        temps.len() == envelopes.len(),
        forall|i: int| 0 <= i < temps.len() ==> is_hidden(#[trigger] temps[i]),
        temps.no_duplicates(),
        forall|t: int| 0 <= t < turns.len() ==> 0 <= #[trigger] turns[t] < envelopes.len(),
        0 <= k < envelopes.len(),
        forall|i: int| 0 <= i < envelopes.len() ==> #[trigger] envelopes[i].seq <= envelopes[k].seq,
        forall|m: Seq<u8>| #[trigger]
            start.contains_key(m) && is_snapshot(m, ext) && m != name::snapshot_name(
                envelopes[k].seq,
                ext,
            ) ==> name::snapshot_seq(m, ext)->0 < envelopes[k].seq,
        is_visible(run(writes(envelopes, ext, encode, temps), start, turns).1[k]),
        forall|i: int|
            0 <= i < envelopes.len() && (#[trigger] envelopes[i]).seq == envelopes[k].seq ==> decode(
                encode(envelopes[i]),
            ) == Some(envelopes[i]),
        lists(listing, run(writes(envelopes, ext, encode, temps), start, turns).0, at),
    ensures
        selects_only(dir, ext, listing, at(name::snapshot_name(envelopes[k].seq, ext))),
        exists|j: int|
            {
                &&& 0 <= j < envelopes.len()
                &&& (#[trigger] envelopes[j]).seq == envelopes[k].seq
                &&& is_visible(run(writes(envelopes, ext, encode, temps), start, turns).1[j])
                &&& decode(
                    run(writes(envelopes, ext, encode, temps), start, turns).0[name::snapshot_name(
                        envelopes[k].seq,
                        ext,
                    )],
                ) == Some(envelopes[j])
            },
{
    let ws = writes(envelopes, ext, encode, temps);
    let n = name::snapshot_name(envelopes[k].seq, ext);
    let (files, stages) = run(ws, start, turns);
    assert forall|i: int| 0 <= i < ws.len() implies is_hidden(#[trigger] ws[i].temp) && is_snapshot(
        ws[i].name,
        ext,
    ) by {
        assert(is_hidden(temps[i]));
        name::law_name_round_trip(envelopes[i].seq, ext);
    }
    assert forall|i: int, j: int| 0 <= i < j < ws.len() implies #[trigger] ws[i].temp
        != #[trigger] ws[j].temp by {
        assert(temps[i] != temps[j]);
    }
    lemma_concurrent_creates(ws, start, turns, ext);
    name::law_name_round_trip(envelopes[k].seq, ext);
    assert(is_whole(ws, start, files, stages, n));
    assert(stored_by(ws, stages, k, n));
    let by = choose|i: int| #[trigger] stored_by(ws, stages, i, n) && files[n] == ws[i].bytes;
    assert(envelopes[by].seq == envelopes[k].seq) by {
        name::law_name_round_trip(envelopes[by].seq, ext);
        assert(ws[by].name == n);
    }
    assert(decode(files[n]) == Some(envelopes[by]));
    assert forall|m: Seq<u8>| #[trigger]
        files.contains_key(m) && is_snapshot(m, ext) && m != n implies name::snapshot_seq(m, ext)->0
        < name::snapshot_seq(n, ext)->0 by {
        assert(is_whole(ws, start, files, stages, m));
        if exists|i: int| stored_by(ws, stages, i, m) {
            let i = choose|i: int| stored_by(ws, stages, i, m);
            assert(ws[i].name == m);
            name::law_name_round_trip(envelopes[i].seq, ext);
            assert(envelopes[i].seq != envelopes[k].seq);
        } else {
            assert(start.contains_key(m));
        }
    }
    law_highest_is_selected(dir, ext, listing, files, at, n);
}

} // verus!
