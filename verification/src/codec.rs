//! Codecs for snapshot files.

use vstd::prelude::*;

pub mod json;
pub mod rmp;

verus! {

/// A codec used to serialize and deserialize snapshot envelopes.
///
/// The codec controls the file extension used for each snapshot file and how
/// state is encoded on disk.
pub trait Codec {
    /// Optional file extension for snapshot files, without the dot.
    ///
    /// When empty, snapshot files are stored without an explicit extension.
    fn ext(&self) -> (res: &str)
        default_ensures
            res@ == ""@,
    {
        ""
    }
}

/// `ext` is, in bytes, an extension that the codec may give.
pub open spec fn gives_ext<C: Codec>(codec: C, ext: Seq<u8>) -> bool {
    exists|s: &str| #[trigger]
        call_ensures(C::ext, (&codec,), s) && ext == vstd::utf8::encode_utf8(s@)
}

/// What the codec gives can stand in the name of a file: it holds no separator.
///
/// Some systems have other separators besides the slash. There, whoever drives a
/// task keeps those out too.
pub open spec fn is_file_extension<C: Codec>(codec: C) -> bool {
    forall|ext: Seq<u8>| #[trigger]
        gives_ext(codec, ext) ==> !ext.contains(crate::path::SEPARATOR)
}

/// An extension is what the codec answers when it is asked, in UTF-8, no more
/// and no less. It can stand in a file name if no answer holds a slash.
pub proof fn law_extension_is_what_the_codec_answers<C: Codec>(codec: C, ext: Seq<u8>)
    ensures
        gives_ext(codec, ext) <==> exists|s: &str| #[trigger]
            call_ensures(C::ext, (&codec,), s) && vstd::utf8::encode_utf8(s@) == ext,
        is_file_extension(codec) <==> forall|s: &str| #[trigger]
            call_ensures(C::ext, (&codec,), s) ==> !vstd::utf8::encode_utf8(s@).contains(0x2f),
{
    assert forall|s: &str| #[trigger] call_ensures(C::ext, (&codec,), s) implies gives_ext(
        codec,
        vstd::utf8::encode_utf8(s@),
    ) by {}
}

} // verus!
