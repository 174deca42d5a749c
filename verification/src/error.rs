//! What can go wrong when snapshots are stored and restored.

use std::path::PathBuf;
use vstd::prelude::*;
use vstd::std_specs::convert::{FromSpec, FromSpecImpl};

verus! {

/// `std::io::Error`, carried through as it is: nothing is claimed of what is
/// inside.
#[verifier::external_type_specification]
#[verifier::external_body]
pub struct ExIoError(std::io::Error);

/// `std::path::PathBuf`, carried through as it is: how a path is written depends
/// on the system, and nothing is claimed of what is inside.
#[verifier::external_type_specification]
#[verifier::external_body]
pub struct ExPathBuf(std::path::PathBuf);

/// `<std::path::PathBuf as Clone>::clone` gives a duplicate: the same path.
pub assume_specification[ <std::path::PathBuf as Clone>::clone ](
    source: &std::path::PathBuf,
) -> (res: std::path::PathBuf)
    ensures
        res == *source,
;

/// `tokio::task::JoinError`, carried through as it is: nothing is claimed of
/// what is inside.
#[verifier::external_type_specification]
#[verifier::external_body]
pub struct ExJoinError(tokio::task::JoinError);

/// `serde_json::Error`, carried through as it is: nothing is claimed of what
/// is inside.
#[verifier::external_type_specification]
#[verifier::external_body]
pub struct ExJsonError(serde_json::Error);

/// `rmp_serde::encode::Error`, carried through as it is: nothing is claimed of
/// what is inside.
#[verifier::external_type_specification]
#[verifier::external_body]
pub struct ExRmpEncodeError(rmp_serde::encode::Error);

/// `rmp_serde::decode::Error`, carried through as it is: nothing is claimed of
/// what is inside.
#[verifier::external_type_specification]
#[verifier::external_body]
pub struct ExRmpDecodeError(rmp_serde::decode::Error);

/// A specialized `Result` type for `minisnap` operations.
pub type Result<T> = std::result::Result<T, MiniSnapError>;

/// What stands in the place of a path when nothing says which file it was.
pub const UNKNOWN_PATH: &'static str = "<unknown>";

/// What a codec reported.
#[derive(Debug)]
pub enum CodecError {
    /// JSON could not be written or read.
    Json(serde_json::Error),
    /// MessagePack could not be written.
    RmpEncode(rmp_serde::encode::Error),
    /// MessagePack could not be read.
    RmpDecode(rmp_serde::decode::Error),
    /// Another codec failed. `std::io::Error::other` holds any error.
    Other(std::io::Error),
}

/// Where an I/O operation failed.
#[derive(Debug)]
pub enum ErrorPath {
    /// At this file or directory.
    Of(PathBuf),
    /// At the path that this text spells, whatever the system.
    Text(&'static str),
}

/// Errors returned by `minisnap` operations.
///
/// This type wraps I/O, codec, and snapshot discovery failures.
#[derive(Debug)]
#[allow(inconsistent_fields)]
pub enum MiniSnapError {
    /// An I/O operation on `path` failed.
    Io {
        /// What the operating system reported.
        source: std::io::Error,
        /// The file or directory.
        path: ErrorPath,
    },
    /// The snapshot could not be encoded or decoded.
    Codec {
        /// What the codec reported.
        source: CodecError,
    },
    /// There is no snapshot.
    NotFound,
    /// The task that does the work did not run to its end.
    TokioError {
        /// What the runtime reported.
        source: tokio::task::JoinError,
    },
}

/// A temporary file that could not be given its final name.
#[derive(Debug)]
pub struct PersistFailure {
    /// What the operating system reported.
    pub error: std::io::Error,
    /// The path of the temporary file.
    pub file: PathBuf,
}

impl MiniSnapError {
    /// Two errors tell the same: there is no snapshot, or the same path failed.
    pub open spec fn tells_as(self, other: MiniSnapError) -> bool {
        match (self, other) {
            (MiniSnapError::NotFound, MiniSnapError::NotFound) => true,
            (MiniSnapError::Io { path: a, .. }, MiniSnapError::Io { path: b, .. }) => a == b,
            _ => false,
        }
    }

    /// Convert an I/O error into a `MiniSnapError` with path context.
    pub fn io(err: std::io::Error, path: PathBuf) -> (res: Self)
        ensures
            res == (MiniSnapError::Io { source: err, path: ErrorPath::Of(path) }),
    {
        MiniSnapError::Io { source: err, path: ErrorPath::Of(path) }
    }
}

impl From<std::io::Error> for MiniSnapError {
    /// An I/O error of which the path is not known.
    fn from(err: std::io::Error) -> (res: Self)
        ensures
            res matches MiniSnapError::Io { source, path: ErrorPath::Text(text) } && source == err
                && text@ == "<unknown>"@,
    {
        MiniSnapError::Io { source: err, path: ErrorPath::Text(UNKNOWN_PATH) }
    }
}

impl FromSpecImpl<std::io::Error> for MiniSnapError {
    open spec fn obeys_from_spec() -> bool {
        true
    }

    open spec fn from_spec(err: std::io::Error) -> Self {
        MiniSnapError::Io { source: err, path: ErrorPath::Text(UNKNOWN_PATH) }
    }
}

impl From<PersistFailure> for MiniSnapError {
    /// An I/O error on the temporary file.
    fn from(err: PersistFailure) -> (res: Self)
        ensures
            res matches MiniSnapError::Io { source, path: ErrorPath::Of(file) } && source
                == err.error && file == err.file,
    {
        MiniSnapError::io(err.error, err.file)
    }
}

impl FromSpecImpl<PersistFailure> for MiniSnapError {
    open spec fn obeys_from_spec() -> bool {
        true
    }

    open spec fn from_spec(err: PersistFailure) -> Self {
        MiniSnapError::Io { source: err.error, path: ErrorPath::Of(err.file) }
    }
}

impl From<tokio::task::JoinError> for MiniSnapError {
    fn from(err: tokio::task::JoinError) -> (res: Self)
        ensures
            res matches MiniSnapError::TokioError { source } && source == err,
    {
        MiniSnapError::TokioError { source: err }
    }
}

impl FromSpecImpl<tokio::task::JoinError> for MiniSnapError {
    open spec fn obeys_from_spec() -> bool {
        true
    }

    open spec fn from_spec(err: tokio::task::JoinError) -> Self {
        MiniSnapError::TokioError { source: err }
    }
}

/// Errors are kept when they are converted, each under the variant that is for
/// its kind: I/O errors with the path of the temporary file where one is known,
/// and with the text `<unknown>` where none is.
pub proof fn law_conversions_keep_the_error(
    io: std::io::Error,
    failure: PersistFailure,
    join: tokio::task::JoinError,
)
    ensures
        <MiniSnapError as FromSpec<std::io::Error>>::obeys_from_spec(),
        <MiniSnapError as FromSpec<PersistFailure>>::obeys_from_spec(),
        <MiniSnapError as FromSpec<tokio::task::JoinError>>::obeys_from_spec(),
        <MiniSnapError as FromSpec<std::io::Error>>::from_spec(io) matches MiniSnapError::Io {
            source,
            path: ErrorPath::Text(text),
        } && source == io && text@ == "<unknown>"@,
        <MiniSnapError as FromSpec<PersistFailure>>::from_spec(failure) matches MiniSnapError::Io {
            source,
            path: ErrorPath::Of(file),
        } && source == failure.error && file == failure.file,
        <MiniSnapError as FromSpec<tokio::task::JoinError>>::from_spec(
            join,
        ) matches MiniSnapError::TokioError { source } && source == join,
{
}

/// Work that ran to its end gives its own result, and nothing else does.
pub proof fn law_join_hands_the_result_on<T>(
    outcome: std::result::Result<Result<T>, tokio::task::JoinError>,
    res: Result<T>,
)
    requires
        call_ensures(join_result::<T>, (outcome,), res),
    ensures
        outcome is Ok ==> res == outcome->Ok_0,
        outcome is Err ==> (res->Err_0 matches MiniSnapError::TokioError { source } && source
            == outcome->Err_0) && res is Err,
{
}

/// What became of work that ran as a task of its own: the result of the work,
/// or the failure of the task.
pub fn join_result<T>(
    outcome: std::result::Result<Result<T>, tokio::task::JoinError>,
) -> (res: Result<T>)
    ensures
        match outcome {
            Ok(inner) => res == inner,
            Err(err) => res == Err::<T, MiniSnapError>(MiniSnapError::TokioError { source: err }),
        },
{
    match outcome {
        Ok(inner) => inner,
        Err(err) => Err(MiniSnapError::from(err)),
    }
}

} // verus!
