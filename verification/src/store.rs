//! The snapshot store.

use crate::codec;
use crate::codec::Codec;
use crate::error::{ErrorPath, MiniSnapError, Result};
use crate::listing;
use crate::listing::{latest_in, Entry, Listing};
use crate::name;
use crate::name::snapshot_file_name;
use crate::task::{CreateStage, CreateTask, CreateView, Envelope, RestoreTask};
use std::path::PathBuf;
use std::sync::Arc;
use vstd::prelude::*;

verus! {

/// `found` is the path of the latest snapshot in the listing, as the codec
/// names its snapshots.
pub open spec fn selected<C: Codec>(codec: C, listing: Listing, found: PathBuf) -> bool {
    exists|ext: Seq<u8>| #[trigger]
        codec::gives_ext(codec, ext) && listing::selects(ext, listing, found)
}

/// `err` tells why there is no latest snapshot in the directory `dir`, as the
/// codec names its snapshots.
pub open spec fn refused<C: Codec>(
    codec: C,
    dir: PathBuf,
    listing: Listing,
    err: MiniSnapError,
) -> bool {
    exists|ext: Seq<u8>| #[trigger]
        codec::gives_ext(codec, ext) && listing::refuses(dir, ext, listing, err)
}

/// A store keeps the directory and the codec that it was made with, and so does
/// each handle to it and each task that it starts. A task starts with the state
/// and the sequence number that it was given, and with no step done.
pub proof fn law_store_keeps_what_it_was_given<C, S>(
    dir: PathBuf,
    codec: C,
    store: SnapStore<C>,
    handle: SnapStore<C>,
    at: &PathBuf,
    by: &C,
    state: S,
    seq: u64,
    task: CreateTask<C, S>,
) where C: Codec + Send + Sync + 'static
    requires
        call_ensures(SnapStore::<C>::new, (dir, codec), store),
        call_ensures(SnapStore::<C>::clone, (&store,), handle),
        call_ensures(SnapStore::<C>::dir, (&handle,), at),
        call_ensures(SnapStore::<C>::codec, (&handle,), by),
        call_ensures(SnapStore::<C>::create::<S>, (&handle, state, seq), task),
    ensures
        *at == dir,
        *by == codec,
        task@.dir == dir,
        task@.codec == codec,
        task@.envelope.seq == seq,
        task@.envelope.state == state,
        task@.stage is MakeDir,
{
}

/// What a store answers is decided by an extension that its codec gives when it
/// is asked, in bytes, and by nothing else of the codec.
pub proof fn law_codec_decides_by_its_extension<C: Codec>(
    codec: C,
    dir: PathBuf,
    listing: Listing,
    found: PathBuf,
    err: MiniSnapError,
)
    ensures
        selected(codec, listing, found) <==> exists|s: &str| #[trigger]
            call_ensures(C::ext, (&codec,), s) && listing::selects(
                vstd::utf8::encode_utf8(s@),
                listing,
                found,
            ),
        refused(codec, dir, listing, err) <==> exists|s: &str| #[trigger]
            call_ensures(C::ext, (&codec,), s) && listing::refuses(
                dir,
                vstd::utf8::encode_utf8(s@),
                listing,
                err,
            ),
{
    assert forall|s: &str| #[trigger] call_ensures(C::ext, (&codec,), s) implies codec::gives_ext(
        codec,
        vstd::utf8::encode_utf8(s@),
    ) by {}
}

/// The latest snapshot of a store has the highest number of all entries,
/// whichever way it is asked for.
///
/// If the codec always gives the extension `ext` and the `i`-th entry is a
/// snapshot, each way gives the path of an entry whose number is at least as
/// high.
pub proof fn law_latest_is_above_every_entry<C>(
    store: &SnapStore<C>,
    dir: &PathBuf,
    ext: Seq<u8>,
    entries: Vec<std::result::Result<Entry, std::io::Error>>,
    i: int,
    latest: Result<PathBuf>,
    latest_sync: Result<PathBuf>,
    restoring: Result<RestoreTask>,
) where C: Codec + Send + Sync + 'static
    requires
        forall|s: &str| #[trigger]
            call_ensures(C::ext, (&store.spec_codec(),), s) ==> vstd::utf8::encode_utf8(s@) == ext,
        call_ensures(SnapStore::<C>::latest_snapshot, (store, Ok(entries)), latest),
        call_ensures(SnapStore::<C>::latest_snapshot_sync, (store, dir, Ok(entries)), latest_sync),
        call_ensures(SnapStore::<C>::restore, (store, Ok(entries)), restoring),
        0 <= i < entries@.len(),
        entries@[i] is Ok,
        name::snapshot_seq(entries@[i]->Ok_0.name@, ext) is Some,
    ensures
        latest is Ok,
        latest_sync is Ok,
        restoring is Ok,
        latest_sync->Ok_0 == latest->Ok_0,
        restoring->Ok_0@ == latest->Ok_0,
        exists|j: int|
            {
                &&& 0 <= j < entries@.len()
                &&& #[trigger] entries@[j] is Ok
                &&& entries@[j]->Ok_0.path == latest->Ok_0
                &&& name::snapshot_seq(entries@[j]->Ok_0.name@, ext) is Some
                &&& name::snapshot_seq(entries@[j]->Ok_0.name@, ext)->0 >= name::snapshot_seq(
                    entries@[i]->Ok_0.name@,
                    ext,
                )->0
            },
{
    let listing: Listing = Ok(entries);
    let codec = store.spec_codec();
    assert forall|found: PathBuf| #[trigger] selected(codec, listing, found) implies listing::selects(
        ext,
        listing,
        found,
    ) by {}
    assert forall|at: PathBuf, err: MiniSnapError| !#[trigger] refused(codec, at, listing, err) by {
        listing::law_refused_has_no_snapshot(at, ext, listing, err);
    }
    let found = latest->Ok_0;
    listing::law_selected_has_the_highest_number(ext, listing, found);
    listing::law_listing_decides(
        *dir,
        ext,
        listing,
        found,
        latest_sync->Ok_0,
        MiniSnapError::NotFound,
    );
    listing::law_listing_decides(
        *dir,
        ext,
        listing,
        found,
        restoring->Ok_0@,
        MiniSnapError::NotFound,
    );
}

/// A store that finds nothing says why, whichever way it is asked: the directory
/// could not be read, or none of its entries is a snapshot.
pub proof fn law_nothing_found_is_explained<C>(
    store: &SnapStore<C>,
    dir: &PathBuf,
    ext: Seq<u8>,
    listing: Listing,
    latest: Result<PathBuf>,
    latest_sync: Result<PathBuf>,
    restoring: Result<RestoreTask>,
) where C: Codec + Send + Sync + 'static
    requires
        forall|s: &str| #[trigger]
            call_ensures(C::ext, (&store.spec_codec(),), s) ==> vstd::utf8::encode_utf8(s@) == ext,
        call_ensures(SnapStore::<C>::latest_snapshot, (store, listing), latest),
        call_ensures(SnapStore::<C>::latest_snapshot_sync, (store, dir, listing), latest_sync),
        call_ensures(SnapStore::<C>::restore, (store, listing), restoring),
    ensures
        match listing {
            Err(cause) => {
                &&& latest == Err::<PathBuf, MiniSnapError>(
                    MiniSnapError::Io { source: cause, path: ErrorPath::Of(store.spec_dir()) },
                )
                &&& latest_sync == Err::<PathBuf, MiniSnapError>(
                    MiniSnapError::Io { source: cause, path: ErrorPath::Of(*dir) },
                )
                &&& restoring == Err::<RestoreTask, MiniSnapError>(
                    MiniSnapError::Io { source: cause, path: ErrorPath::Of(store.spec_dir()) },
                )
            },
            Ok(entries) => (forall|i: int|
                0 <= i < entries@.len() && #[trigger] entries@[i] is Ok ==> name::snapshot_seq(
                    entries@[i]->Ok_0.name@,
                    ext,
                ) is None) ==> {
                &&& latest == Err::<PathBuf, MiniSnapError>(MiniSnapError::NotFound)
                &&& latest_sync == Err::<PathBuf, MiniSnapError>(MiniSnapError::NotFound)
                &&& restoring == Err::<RestoreTask, MiniSnapError>(MiniSnapError::NotFound)
            },
        },
{
    let codec = store.spec_codec();
    assert forall|found: PathBuf| #[trigger] selected(codec, listing, found) implies listing::selects(
        ext,
        listing,
        found,
    ) by {}
    if let Ok(entries) = listing {
        if forall|i: int|
            0 <= i < entries@.len() && #[trigger] entries@[i] is Ok ==> name::snapshot_seq(
                entries@[i]->Ok_0.name@,
                ext,
            ) is None {
            assert forall|found: PathBuf| !#[trigger] selected(codec, listing, found) by {
                listing::law_selected_has_the_highest_number(ext, listing, found);
            }
        }
    }
}

/// Manages snapshot storage in a dedicated directory.
///
/// Snapshots are written as numbered files. The latest available snapshot is
/// selected by sequence number during restore.
#[derive(Debug)]
pub struct SnapStore<C> {
    inner: Arc<SnapStoreInner<C>>,
}

impl<C> SnapStore<C> {
    /// The directory of the store.
    pub closed spec fn spec_dir(&self) -> PathBuf {
        self.inner.dir
    }

    /// The codec of the store.
    pub closed spec fn spec_codec(&self) -> C {
        self.inner.codec
    }
}

impl<C> Clone for SnapStore<C> {
    /// Another handle to the same store.
    fn clone(&self) -> (res: Self)
        ensures
            res == *self,
    {
        SnapStore { inner: Arc::clone(&self.inner) }
    }
}

impl<C> SnapStore<C> where C: Codec + Send + Sync + 'static {
    /// Creates a new `SnapStore` that operates in the given directory.
    ///
    /// The directory **does not need to exist**: it will be created on first
    /// write.
    pub fn new(dir: PathBuf, codec: C) -> (res: Self)
        ensures
            res.spec_dir() == dir,
            res.spec_codec() == codec,
    {
        SnapStore { inner: Arc::new(SnapStoreInner::new(dir, codec)) }
    }

    /// Creates a new `SnapStore` using the codec's default value.
    ///
    /// This is convenient when the codec has a sensible `Default`
    /// implementation, such as `JsonCodec`.
    pub fn new_default(dir: PathBuf) -> (res: Self) where C: Default
        ensures
            res.spec_dir() == dir,
            call_ensures(C::default, (), res.spec_codec()),
    {
        Self::new(dir, C::default())
    }

    /// Starts to store a snapshot of the given state and sequence number.
    ///
    /// The task says step by step what has to be done: the snapshot is written
    /// to a temporary file, which is made durable and then renamed.
    pub fn create<S>(&self, state: S, seq: u64) -> (res: CreateTask<C, S>)
        ensures
            res@ == (CreateView {
                dir: self.spec_dir(),
                codec: self.spec_codec(),
                envelope: Envelope { seq, state },
                name: Seq::empty(),
                stage: CreateStage::MakeDir,
            }),
    {
        SnapStoreInner::create(Arc::clone(&self.inner), state, seq)
    }

    /// Starts to restore the latest snapshot and its sequence number, given
    /// what reading the directory of the store gave.
    pub fn restore(&self, listing: Listing) -> (res: Result<RestoreTask>)
        ensures
            match res {
                Ok(task) => selected(self.spec_codec(), listing, task@),
                Err(err) => refused(self.spec_codec(), self.spec_dir(), listing, err),
            },
    {
        self.inner.restore(listing)
    }

    /// Returns the latest snapshot file path from a directory, given what
    /// reading it gave.
    ///
    /// This helper is useful for testing and direct inspection of snapshot
    /// files.
    pub fn latest_snapshot_sync(&self, dir: &PathBuf, listing: Listing) -> (res: Result<PathBuf>)
        ensures
            match res {
                Ok(found) => selected(self.spec_codec(), listing, found),
                Err(err) => refused(self.spec_codec(), *dir, listing, err),
            },
    {
        self.inner.latest_snapshot_sync(dir, listing)
    }

    /// Returns the latest snapshot file path from the store directory, given
    /// what reading it gave.
    pub fn latest_snapshot(&self, listing: Listing) -> (res: Result<PathBuf>)
        ensures
            match res {
                Ok(found) => selected(self.spec_codec(), listing, found),
                Err(err) => refused(self.spec_codec(), self.spec_dir(), listing, err),
            },
    {
        self.inner.latest_snapshot(listing)
    }

    /// Returns the codec that encodes and decodes the snapshots.
    pub fn codec(&self) -> (res: &C)
        ensures
            *res == self.spec_codec(),
    {
        &self.inner.codec
    }

    /// Returns the directory used for snapshot storage.
    pub fn dir(&self) -> (res: &PathBuf)
        ensures
            *res == self.spec_dir(),
    {
        &self.inner.dir
    }
}

/// What the handles to a store share.
#[derive(Debug)]
pub(crate) struct SnapStoreInner<C> {
    pub(crate) dir: PathBuf,
    pub(crate) codec: C,
}

impl<C> SnapStoreInner<C> where C: Codec + Send + Sync + 'static {
    fn new(dir: PathBuf, codec: C) -> (res: Self)
        ensures
            res.dir == dir,
            res.codec == codec,
    {
        SnapStoreInner { dir, codec }
    }

    fn create<S>(this: Arc<Self>, state: S, seq: u64) -> (res: CreateTask<C, S>)
        ensures
            res@ == (CreateView {
                dir: this.dir,
                codec: this.codec,
                envelope: Envelope { seq, state },
                name: Seq::empty(),
                stage: CreateStage::MakeDir,
            }),
    {
        CreateTask::new(this, Envelope { seq, state })
    }

    fn restore(&self, listing: Listing) -> (res: Result<RestoreTask>)
        ensures
            match res {
                Ok(task) => selected(self.codec, listing, task@),
                Err(err) => refused(self.codec, self.dir, listing, err),
            },
    {
        match self.latest_snapshot_sync(&self.dir, listing) {
            Ok(path) => Ok(RestoreTask::new(path)),
            Err(err) => Err(err),
        }
    }

    /// Where the snapshot with the given sequence number is stored: the
    /// directory, and the name of the file in it.
    pub(crate) fn snapshot_path(&self, seq: u64) -> (res: (&PathBuf, Vec<u8>))
        requires
            codec::is_file_extension(self.codec),
        ensures
            *res.0 == self.dir,
            exists|ext: Seq<u8>| #[trigger]
                codec::gives_ext(self.codec, ext) && res.1@ == name::snapshot_name(seq, ext),
    {
        let mut ext = self.codec.ext();
        assert(codec::gives_ext(self.codec, vstd::utf8::encode_utf8(ext@)));
        if !ext.as_bytes().is_empty() {
            ext = self.codec.ext();
            assert(codec::gives_ext(self.codec, vstd::utf8::encode_utf8(ext@)));
        }
        (&self.dir, snapshot_file_name(seq, ext.as_bytes()))
    }

    fn latest_snapshot_sync(&self, dir: &PathBuf, listing: Listing) -> (res: Result<PathBuf>)
        ensures
            match res {
                Ok(found) => selected(self.codec, listing, found),
                Err(err) => refused(self.codec, *dir, listing, err),
            },
    {
        let ext = self.codec.ext();
        assert(codec::gives_ext(self.codec, vstd::utf8::encode_utf8(ext@)));
        latest_in(dir, ext.as_bytes(), listing)
    }

    fn latest_snapshot(&self, listing: Listing) -> (res: Result<PathBuf>)
        ensures
            match res {
                Ok(found) => selected(self.codec, listing, found),
                Err(err) => refused(self.codec, self.dir, listing, err),
            },
    {
        self.latest_snapshot_sync(&self.dir, listing)
    }
}

} // verus!
