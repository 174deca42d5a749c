//! Storing and restoring a snapshot, step by step.
//!
//! A task says what has to be done next and is told how that went. Whoever
//! drives it does the work on the disk.

use crate::codec;
use crate::codec::Codec;
use crate::error::{ErrorPath, MiniSnapError, PersistFailure, Result, UNKNOWN_PATH};
use crate::name;
use crate::store::SnapStoreInner;
use std::path::PathBuf;
use std::sync::Arc;
use vstd::prelude::*;

verus! {

/// What a snapshot file holds: the state and its sequence number.
#[derive(Debug)]
pub struct Envelope<S> {
    /// Logical sequence number (e.g., last applied WAL index).
    pub seq: u64,
    /// The state.
    pub state: S,
}

/// How far storing a snapshot has got: what is to be done next.
#[derive(Debug, Clone, Copy, PartialEq, Eq, Structural)]
pub enum CreateStage {
    /// Create the directory.
    MakeDir,
    /// Open a temporary file in the directory.
    OpenTemp,
    /// Write the encoded envelope to the temporary file.
    Encode,
    /// Make the contents of the temporary file durable.
    SyncTemp,
    /// Give the temporary file its final name.
    Persist,
    /// Make the new name durable.
    SyncDir,
    /// Nothing: the snapshot is stored.
    Done,
    /// Nothing: a step failed.
    Failed,
}

impl CreateStage {
    /// The stage after this one, if what it asks for succeeds.
    pub open spec fn next(self) -> CreateStage {
        match self {
            CreateStage::MakeDir => CreateStage::OpenTemp,
            CreateStage::OpenTemp => CreateStage::Encode,
            CreateStage::Encode => CreateStage::SyncTemp,
            CreateStage::SyncTemp => CreateStage::Persist,
            CreateStage::Persist => CreateStage::SyncDir,
            CreateStage::SyncDir => CreateStage::Done,
            CreateStage::Done => CreateStage::Done,
            CreateStage::Failed => CreateStage::Failed,
        }
    }

    /// Nothing is left to be done.
    pub open spec fn is_over(self) -> bool {
        self == CreateStage::Done || self == CreateStage::Failed
    }
}

/// What has to be done next to store a snapshot.
#[derive(Debug)]
pub enum CreateAction<'a, S> {
    /// Create the directory, and those above it, where they are missing.
    CreateDir {
        /// The directory.
        dir: &'a PathBuf,
    },
    /// Open a new temporary file, under a name that is not in use.
    OpenTemp {
        /// The directory in which to open it.
        dir: &'a PathBuf,
    },
    /// Encode the envelope into the temporary file.
    Encode {
        /// What to encode.
        envelope: &'a Envelope<S>,
    },
    /// Make the contents of the temporary file durable.
    SyncTemp,
    /// Rename the temporary file, replacing a file of that name.
    Persist {
        /// The directory in which it stays.
        dir: &'a PathBuf,
        /// Its final name there.
        name: &'a [u8],
    },
    /// Make the entries of the directory durable.
    SyncDir {
        /// The directory.
        dir: &'a PathBuf,
    },
}

/// How a step went.
#[derive(Debug)]
pub enum StepOutcome {
    /// It was done.
    Done,
    /// An I/O operation failed.
    Io(std::io::Error),
    /// The codec failed.
    Encode(MiniSnapError),
    /// The temporary file kept its name.
    Persist(PersistFailure),
}

impl StepOutcome {
    /// `err` is the error that a step with this outcome ends in.
    pub open spec fn fails_with(self, err: MiniSnapError) -> bool {
        match self {
            StepOutcome::Done => false,
            StepOutcome::Io(cause) => err == (MiniSnapError::Io {
                source: cause,
                path: ErrorPath::Text(UNKNOWN_PATH),
            }),
            StepOutcome::Encode(cause) => err == cause,
            StepOutcome::Persist(failure) => err == (MiniSnapError::Io {
                source: failure.error,
                path: ErrorPath::Of(failure.file),
            }),
        }
    }
}

/// What is to be stored, where, and how far that has got.
pub struct CreateView<C, S> {
    /// The directory of the snapshots.
    pub dir: PathBuf,
    /// The codec that encodes the snapshot and names its extension.
    pub codec: C,
    /// What the snapshot holds.
    pub envelope: Envelope<S>,
    /// The name of the snapshot file: none before the envelope is encoded.
    pub name: Seq<u8>,
    /// What is to be done next.
    pub stage: CreateStage,
}

/// A snapshot that is being stored.
#[derive(Debug)]
pub struct CreateTask<C, S> {
    inner: Arc<SnapStoreInner<C>>,
    envelope: Envelope<S>,
    name: Vec<u8>,
    stage: CreateStage,
}

impl<C, S> View for CreateTask<C, S> {
    type V = CreateView<C, S>;

    closed spec fn view(&self) -> CreateView<C, S> {
        CreateView {
            dir: self.inner.dir,
            codec: self.inner.codec,
            envelope: self.envelope,
            name: self.name@,
            stage: self.stage,
        }
    }
}

impl<C, S> CreateTask<C, S> where C: Codec + Send + Sync + 'static {
    /// Starts to store `envelope` in a store.
    pub(crate) fn new(inner: Arc<SnapStoreInner<C>>, envelope: Envelope<S>) -> (res: Self)
        ensures
            res@ == (CreateView {
                dir: inner.dir,
                codec: inner.codec,
                envelope,
                name: Seq::empty(),
                stage: CreateStage::MakeDir,
            }),
    {
        CreateTask { inner, envelope, name: Vec::new(), stage: CreateStage::MakeDir }
    }

    /// What has to be done next, or `None` when the task is over.
    pub fn action(&self) -> (res: Option<CreateAction<'_, S>>)
        ensures
            match self@.stage {
                CreateStage::MakeDir => res matches Some(CreateAction::CreateDir { dir }) && *dir
                    == self@.dir,
                CreateStage::OpenTemp => res matches Some(CreateAction::OpenTemp { dir }) && *dir
                    == self@.dir,
                CreateStage::Encode => res matches Some(CreateAction::Encode { envelope })
                    && *envelope == self@.envelope,
                CreateStage::SyncTemp => res matches Some(CreateAction::SyncTemp),
                CreateStage::Persist => res matches Some(CreateAction::Persist { dir, name })
                    && *dir == self@.dir && name@ == self@.name,
                CreateStage::SyncDir => res matches Some(CreateAction::SyncDir { dir }) && *dir
                    == self@.dir,
                CreateStage::Done => res is None,
                CreateStage::Failed => res is None,
            },
    {
        let dir = &self.inner.dir;
        match self.stage {
            CreateStage::MakeDir => Some(CreateAction::CreateDir { dir }),
            CreateStage::OpenTemp => Some(CreateAction::OpenTemp { dir }),
            CreateStage::Encode => Some(CreateAction::Encode { envelope: &self.envelope }),
            CreateStage::SyncTemp => Some(CreateAction::SyncTemp),
            CreateStage::Persist => Some(
                CreateAction::Persist { dir, name: self.name.as_slice() },
            ),
            CreateStage::SyncDir => Some(CreateAction::SyncDir { dir }),
            CreateStage::Done => None,
            CreateStage::Failed => None,
        }
    }

    /// Takes note of how the step went that [`CreateTask::action`] asked for.
    ///
    /// The first step that fails ends the task, with the error that it returns.
    /// Once the envelope is encoded, the codec is asked for its extension and
    /// the snapshot gets its name. The extension must not hold a path separator.
    pub fn resume(&mut self, outcome: StepOutcome) -> (res: Result<()>)
        requires
            !old(self)@.stage.is_over(),
            old(self)@.stage == CreateStage::Encode && outcome is Done
                ==> codec::is_file_extension(old(self)@.codec),
        ensures
            final(self)@.dir == old(self)@.dir,
            final(self)@.codec == old(self)@.codec,
            final(self)@.envelope == old(self)@.envelope,
            match res {
                Ok(_) => outcome is Done && final(self)@.stage == old(self)@.stage.next(),
                Err(err) => outcome.fails_with(err) && final(self)@.stage == CreateStage::Failed,
            },
            if old(self)@.stage == CreateStage::Encode && outcome is Done {
                is_named(final(self)@)
            } else {
                final(self)@.name == old(self)@.name
            },
            res is Ok <==> outcome is Done,
            match outcome {
                StepOutcome::Done => true,
                StepOutcome::Io(cause) => res matches Err(
                    MiniSnapError::Io { source, path: ErrorPath::Text(text) },
                ) && source == cause && text@ == "<unknown>"@,
                StepOutcome::Encode(cause) => res == Err::<(), MiniSnapError>(cause),
                StepOutcome::Persist(failure) => res == Err::<(), MiniSnapError>(
                    MiniSnapError::Io {
                        source: failure.error,
                        path: ErrorPath::Of(failure.file),
                    },
                ),
            },
            outcome is Done ==> match old(self)@.stage {
                CreateStage::MakeDir => final(self)@.stage is OpenTemp,
                CreateStage::OpenTemp => final(self)@.stage is Encode,
                CreateStage::Encode => final(self)@.stage is SyncTemp,
                CreateStage::SyncTemp => final(self)@.stage is Persist,
                CreateStage::Persist => final(self)@.stage is SyncDir,
                CreateStage::SyncDir => final(self)@.stage is Done,
                _ => false,
            },
            outcome !is Done ==> final(self)@.stage is Failed,
            old(self)@.stage is Encode && outcome is Done ==> exists|s: &str| #[trigger]
                call_ensures(C::ext, (&old(self)@.codec,), s) && final(self)@.name
                    == name::snapshot_name(old(self)@.envelope.seq, vstd::utf8::encode_utf8(s@)),
    {
        let err = match outcome {
            StepOutcome::Done => {
                self.stage = match self.stage {
                    CreateStage::MakeDir => CreateStage::OpenTemp,
                    CreateStage::OpenTemp => CreateStage::Encode,
                    CreateStage::Encode => {
                        self.name = self.inner.snapshot_path(self.envelope.seq).1;
                        CreateStage::SyncTemp
                    },
                    CreateStage::SyncTemp => CreateStage::Persist,
                    CreateStage::Persist => CreateStage::SyncDir,
                    CreateStage::SyncDir => CreateStage::Done,
                    CreateStage::Done => CreateStage::Done,
                    CreateStage::Failed => CreateStage::Failed,
                };
                return Ok(());
            },
            StepOutcome::Io(cause) => MiniSnapError::from(cause),
            StepOutcome::Encode(cause) => cause,
            StepOutcome::Persist(failure) => MiniSnapError::from(failure),
        };
        self.stage = CreateStage::Failed;
        Err(err)
    }
}

/// A step that was done ends no task: no error comes of it. A step that was not
/// done ends it with one error, which holds what went wrong and where.
pub proof fn law_only_a_failed_step_fails(outcome: StepOutcome, err: MiniSnapError)
    ensures
        outcome is Done ==> !outcome.fails_with(err),
        outcome matches StepOutcome::Io(cause) ==> (outcome.fails_with(err) ==> (err matches
            MiniSnapError::Io { source, path: ErrorPath::Text(text) } && source == cause && text@
            == "<unknown>"@)),
        outcome matches StepOutcome::Encode(cause) ==> (outcome.fails_with(err) <==> err == cause),
        outcome matches StepOutcome::Persist(failure) ==> (outcome.fails_with(err) <==> (err matches
            MiniSnapError::Io { source, path: ErrorPath::Of(file) } && source == failure.error
            && file == failure.file)),
{
}

/// Six steps, each of them done, take a task from its start to its end, in this
/// order: the directory, the temporary file, its contents, their durability,
/// the name, its durability. Nothing but an end is over, and an end stays one.
pub proof fn law_six_steps_in_order(stage: CreateStage)
    ensures
        CreateStage::MakeDir.next() is OpenTemp,
        CreateStage::MakeDir.next().next() is Encode,
        CreateStage::MakeDir.next().next().next() is SyncTemp,
        CreateStage::MakeDir.next().next().next().next() is Persist,
        CreateStage::MakeDir.next().next().next().next().next() is SyncDir,
        CreateStage::MakeDir.next().next().next().next().next().next() is Done,
        stage.is_over() <==> stage is Done || stage is Failed,
        stage.is_over() <==> stage.next() == stage,
{
}

/// The name of a snapshot holds its sequence number and an extension that its
/// codec gives when it is asked, in bytes and as a whole.
pub proof fn law_name_follows_number_and_codec<C: Codec, S>(view: CreateView<C, S>)
    ensures
        is_named(view) <==> exists|s: &str| #[trigger]
            call_ensures(C::ext, (&view.codec,), s) && view.name == name::snapshot_name(
                view.envelope.seq,
                vstd::utf8::encode_utf8(s@),
            ),
{
    assert forall|s: &str| #[trigger] call_ensures(
        C::ext,
        (&view.codec,),
        s,
    ) implies codec::gives_ext(view.codec, vstd::utf8::encode_utf8(s@)) by {}
}

/// What a task asks for is over when its stage is, and only then.
pub proof fn law_task_asks_until_it_is_over<C, S>(
    task: &CreateTask<C, S>,
    res: Option<CreateAction<'_, S>>,
) where C: Codec + Send + Sync + 'static
    requires
        call_ensures(CreateTask::<C, S>::action, (task,), res),
    ensures
        res is None <==> task@.stage is Done || task@.stage is Failed,
        res matches Some(CreateAction::Encode { envelope }) ==> *envelope == task@.envelope,
        res matches Some(CreateAction::Persist { dir, name }) ==> *dir == task@.dir && name@
            == task@.name,
{
}

/// Whatever is restored is what was decoded, with its own sequence number, and
/// whatever went wrong is handed on.
pub proof fn law_restored_is_what_was_decoded<S>(
    task: RestoreTask,
    decoded: std::result::Result<Result<Envelope<S>>, std::io::Error>,
    res: Result<(S, u64)>,
)
    requires
        call_ensures(RestoreTask::finish::<S>, (task, decoded), res),
    ensures
        res is Ok <==> decoded is Ok && decoded->Ok_0 is Ok,
        res is Ok ==> res->Ok_0.0 == decoded->Ok_0->Ok_0.state && res->Ok_0.1
            == decoded->Ok_0->Ok_0.seq,
        decoded is Ok && decoded->Ok_0 is Err ==> res->Err_0 == decoded->Ok_0->Err_0,
        decoded is Err ==> (res->Err_0 matches MiniSnapError::Io { source, path: ErrorPath::Of(path) }
            && source == decoded->Err_0 && path == task@),
{
}

/// A step that was done always lets the task go on, and a step that was not
/// always ends it with an error, whatever is stored and wherever the task is.
pub proof fn law_done_steps_let_the_task_go_on<C, S>(outcome: StepOutcome)
    where C: Codec + Send + Sync + 'static
    ensures
        forall|task: &mut CreateTask<C, S>, res: Result<()>| #[trigger]
            call_ensures(CreateTask::<C, S>::resume, (task, outcome), res) ==> (res is Ok
                <==> outcome is Done) && (res is Ok <==> !(final(task)@.stage is Failed)),
        forall|task: &mut CreateTask<C, S>, res: Result<()>| #[trigger]
            call_ensures(CreateTask::<C, S>::resume, (task, outcome), res) ==> {
                &&& final(task)@.dir == (*task)@.dir
                &&& final(task)@.codec == (*task)@.codec
                &&& final(task)@.envelope == (*task)@.envelope
            },
{
}

/// The snapshot has the name that its sequence number and its codec give it.
pub open spec fn is_named<C: Codec, S>(task: CreateView<C, S>) -> bool {
    exists|ext: Seq<u8>| #[trigger]
        codec::gives_ext(task.codec, ext) && task.name == name::snapshot_name(
            task.envelope.seq,
            ext,
        )
}

/// A snapshot that is being restored: its file is to be opened and decoded.
#[derive(Debug)]
pub struct RestoreTask {
    path: PathBuf,
}

impl View for RestoreTask {
    type V = PathBuf;

    closed spec fn view(&self) -> PathBuf {
        self.path
    }
}

impl RestoreTask {
    /// Starts to restore the snapshot in the file `path`.
    pub(crate) fn new(path: PathBuf) -> (res: Self)
        ensures
            res@ == path,
    {
        RestoreTask { path }
    }

    /// The file to be opened and decoded.
    pub fn path(&self) -> (res: &PathBuf)
        ensures
            *res == self@,
    {
        &self.path
    }

    /// The state and its sequence number, given what decoding the file gave,
    /// or the error that kept the file from being opened.
    pub fn finish<S>(
        self,
        decoded: std::result::Result<Result<Envelope<S>>, std::io::Error>,
    ) -> (res: Result<(S, u64)>)
        ensures
            match decoded {
                Ok(Ok(envelope)) => res == Ok::<(S, u64), MiniSnapError>(
                    (envelope.state, envelope.seq),
                ),
                Ok(Err(err)) => res == Err::<(S, u64), MiniSnapError>(err),
                Err(cause) => res == Err::<(S, u64), MiniSnapError>(
                    MiniSnapError::Io { source: cause, path: ErrorPath::Of(self@) },
                ),
            },
    {
        match decoded {
            Ok(Ok(envelope)) => Ok((envelope.state, envelope.seq)),
            Ok(Err(err)) => Err(err),
            Err(cause) => Err(MiniSnapError::io(cause, self.path)),
        }
    }
}

} // verus!
