//! JSON codec.

use crate::codec;
use crate::codec::Codec;
use crate::error::{CodecError, MiniSnapError};
use vstd::prelude::*;
use vstd::std_specs::convert::{FromSpec, FromSpecImpl};

verus! {

/// JSON codec using `serde_json`.
#[derive(Debug, Clone, Copy)]
pub struct JsonCodec;

impl Default for JsonCodec {
    fn default() -> (res: Self)
        ensures
            res == JsonCodec,
    {
        JsonCodec
    }
}

impl Codec for JsonCodec {
    fn ext(&self) -> (res: &'static str)
        ensures
            res@ == "json"@,
    {
        "json"
    }
}

/// The extension of JSON snapshots is `json`.
pub proof fn law_json_extension()
    ensures
        forall|ext: Seq<u8>| #[trigger]
            codec::gives_ext(JsonCodec, ext) ==> ext == seq![
                'j' as u8,
                's' as u8,
                'o' as u8,
                'n' as u8,
            ],
        codec::is_file_extension(JsonCodec),
{
    reveal_strlit("json");
    let chars = "json"@;
    assert(vstd::utf8::is_ascii_chars(chars));
    vstd::utf8::is_ascii_chars_encode_utf8(chars);
    assert(vstd::utf8::encode_utf8(chars) =~= seq!['j' as u8, 's' as u8, 'o' as u8, 'n' as u8]);
}

impl From<serde_json::Error> for MiniSnapError {
    fn from(err: serde_json::Error) -> (res: Self)
        ensures
            res matches MiniSnapError::Codec { source: CodecError::Json(cause) } && cause == err,
    {
        MiniSnapError::Codec { source: CodecError::Json(err) }
    }
}

impl FromSpecImpl<serde_json::Error> for MiniSnapError {
    open spec fn obeys_from_spec() -> bool {
        true
    }

    open spec fn from_spec(err: serde_json::Error) -> Self {
        MiniSnapError::Codec { source: CodecError::Json(err) }
    }
}

/// What `serde_json` reports is kept, as an error of the codec.
pub proof fn law_json_error_is_kept(err: serde_json::Error)
    ensures
        <MiniSnapError as FromSpec<serde_json::Error>>::obeys_from_spec(),
        <MiniSnapError as FromSpec<serde_json::Error>>::from_spec(err) matches MiniSnapError::Codec {
            source: CodecError::Json(cause),
        } && cause == err,
{
}

} // verus!
