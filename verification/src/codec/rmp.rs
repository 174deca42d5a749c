//! MessagePack codec.

use crate::codec;
use crate::codec::Codec;
use crate::error::{CodecError, MiniSnapError};
use vstd::prelude::*;
use vstd::std_specs::convert::{FromSpec, FromSpecImpl};

verus! {

/// MessagePack codec using `rmp-serde`.
#[derive(Debug, Clone, Copy)]
pub struct RmpCodec;

impl Default for RmpCodec {
    fn default() -> (res: Self)
        ensures
            res == RmpCodec,
    {
        RmpCodec
    }
}

impl Codec for RmpCodec {
    fn ext(&self) -> (res: &'static str)
        ensures
            res@ == ""@,
    {
        ""
    }
}

/// MessagePack snapshots have no extension.
pub proof fn law_rmp_extension()
    ensures
        forall|ext: Seq<u8>| #[trigger]
            codec::gives_ext(RmpCodec, ext) ==> ext == Seq::<u8>::empty(),
        codec::is_file_extension(RmpCodec),
{
    reveal_strlit("");
}

impl From<rmp_serde::encode::Error> for MiniSnapError {
    fn from(err: rmp_serde::encode::Error) -> (res: Self)
        ensures
            res matches MiniSnapError::Codec { source: CodecError::RmpEncode(cause) } && cause == err,
    {
        MiniSnapError::Codec { source: CodecError::RmpEncode(err) }
    }
}

impl FromSpecImpl<rmp_serde::encode::Error> for MiniSnapError {
    open spec fn obeys_from_spec() -> bool {
        true
    }

    open spec fn from_spec(err: rmp_serde::encode::Error) -> Self {
        MiniSnapError::Codec { source: CodecError::RmpEncode(err) }
    }
}

impl From<rmp_serde::decode::Error> for MiniSnapError {
    fn from(err: rmp_serde::decode::Error) -> (res: Self)
        ensures
            res matches MiniSnapError::Codec { source: CodecError::RmpDecode(cause) } && cause == err,
    {
        MiniSnapError::Codec { source: CodecError::RmpDecode(err) }
    }
}

impl FromSpecImpl<rmp_serde::decode::Error> for MiniSnapError {
    open spec fn obeys_from_spec() -> bool {
        true
    }

    open spec fn from_spec(err: rmp_serde::decode::Error) -> Self {
        MiniSnapError::Codec { source: CodecError::RmpDecode(err) }
    }
}

/// What `rmp-serde` reports is kept, as an error of the codec.
pub proof fn law_rmp_errors_are_kept(enc: rmp_serde::encode::Error, dec: rmp_serde::decode::Error)
    ensures
        <MiniSnapError as FromSpec<rmp_serde::encode::Error>>::obeys_from_spec(),
        <MiniSnapError as FromSpec<rmp_serde::encode::Error>>::from_spec(enc) matches MiniSnapError::Codec {
            source: CodecError::RmpEncode(cause),
        } && cause == enc,
        <MiniSnapError as FromSpec<rmp_serde::decode::Error>>::obeys_from_spec(),
        <MiniSnapError as FromSpec<rmp_serde::decode::Error>>::from_spec(dec) matches MiniSnapError::Codec {
            source: CodecError::RmpDecode(cause),
        } && cause == dec,
{
}

} // verus!
