//! Names of snapshot files and sequence numbers.

use minisnap::decimal::{parse_u64, zero_padded};
use minisnap::name::{sequence_number, snapshot_file_name};
use minisnap::path::file_stem;
use minisnap::{Codec, JsonCodec, RmpCodec};

#[test]
fn names_have_twenty_digits() {
    assert_eq!(snapshot_file_name(42, b"json"), b"snapshot_00000000000000000042.json");
    assert_eq!(snapshot_file_name(0, b""), b"snapshot_00000000000000000000");
    assert_eq!(snapshot_file_name(u64::MAX, b"bin"), b"snapshot_18446744073709551615.bin");
}

#[test]
fn names_are_read_back() {
    for seq in [0, 1, 9, 10, 42, 99, 1 << 32, u64::MAX - 1, u64::MAX] {
        for ext in ["", "json", "x", "tar-gz", "tar.gz", "."] {
            let name = snapshot_file_name(seq, ext.as_bytes());
            assert_eq!(sequence_number(&name, ext.as_bytes()), Some(seq));
        }
    }
}

#[test]
fn a_dotted_extension_is_taken_off_as_a_whole() {
    for ext in ["tar.gz", ".", "a.", ".b", "1.2.3", ".."] {
        let name = snapshot_file_name(42, ext.as_bytes());
        assert_eq!(sequence_number(&name, ext.as_bytes()), Some(42));
    }
    assert_eq!(sequence_number(b"snapshot_7.tar.gz", b"tar.gz"), Some(7));
    assert_eq!(sequence_number(b"snapshot_7.json", b"tar.gz"), Some(7));
    assert_eq!(sequence_number(b"snapshot_7", b"tar.gz"), Some(7));
    assert_eq!(sequence_number(b"snapshot_7.tar.gz.bak", b"tar.gz"), None);
    assert_eq!(sequence_number(b"snapshot_7.tar.xz", b"tar.gz"), None);
    assert_eq!(sequence_number(b".tar.gz", b"tar.gz"), None);
    assert_eq!(sequence_number(b".snapshot_7.tar.gz", b"tar.gz"), None);
    assert_eq!(sequence_number(b"snapshot_7.tar.gz", b"json"), None);
    assert_eq!(sequence_number(b"snapshot_7.tar.gz", b"gz"), None);
}

#[test]
fn plain_extensions_read_names_alike() {
    let names: [&[u8]; 4] =
        [b"snapshot_5", b"snapshot_5.json", b"snapshot_5.json.bak", b"snapshot_x.json"];
    for name in names {
        let expected = sequence_number(name, b"");
        for ext in ["json", "bak", "bin"] {
            assert_eq!(sequence_number(name, ext.as_bytes()), expected);
        }
    }
}

#[test]
fn names_are_text_and_join_like_the_standard_library_builds_them() {
    for dir in ["", "/", "a", "a/", "a/b", "."] {
        for ext in ["", "json", "tar.gz", "\u{e9}t\u{e9}"] {
            let name = String::from_utf8(snapshot_file_name(42, ext.as_bytes())).unwrap();
            let mut expected = std::path::Path::new(dir).join(format!("snapshot_{:020}", 42));
            if !ext.is_empty() {
                expected.set_extension(ext);
            }
            assert_eq!(std::path::Path::new(dir).join(name), expected);
        }
    }
}

#[test]
fn names_sort_like_their_numbers() {
    let seqs = [0, 1, 9, 10, 11, 99, 100, 12345, u64::MAX - 1, u64::MAX];
    for pair in seqs.windows(2) {
        assert!(snapshot_file_name(pair[0], b"json") < snapshot_file_name(pair[1], b"json"));
    }
}

#[test]
fn other_spellings_of_a_number_are_read() {
    assert_eq!(sequence_number(b"snapshot_7", b"json"), Some(7));
    assert_eq!(sequence_number(b"snapshot_+7.json", b"json"), Some(7));
    assert_eq!(sequence_number(b"snapshot_0000000000000000000000007", b"json"), Some(7));
    assert_eq!(sequence_number(b"snapshot_7.", b"json"), Some(7));
    assert_eq!(sequence_number(b"snapshot_7.\xff\xfe", b"json"), Some(7));
}

#[test]
fn other_files_are_no_snapshots() {
    let names: [&[u8]; 14] = [
        b"",
        b".",
        b"..",
        b"snapshot_",
        b"snapshot_.json",
        b"snapshot_x",
        b"snapshot_-1",
        b"snapshot_+",
        b"snapshot_1.json.bak",
        b"snapshot_18446744073709551616",
        b"Snapshot_1",
        b".snapshot_1",
        b".tmpAbCdEf",
        b"snapshot_1\xff",
    ];
    for name in names {
        assert_eq!(sequence_number(name, b"json"), None);
    }
}

#[test]
fn numbers_are_padded_and_parsed() {
    assert_eq!(zero_padded(1203), b"00000000000000001203");
    assert_eq!(parse_u64(b"18446744073709551615"), Some(u64::MAX));
    assert_eq!(parse_u64(b"18446744073709551616"), None);
    assert_eq!(parse_u64(b"99999999999999999999999"), None);
    assert_eq!(parse_u64(b""), None);
    assert_eq!(parse_u64(b"+"), None);
    assert_eq!(parse_u64(b"++1"), None);
    assert_eq!(parse_u64(b"1 "), None);
    assert_eq!(parse_u64(b"+0012"), Some(12));
}

#[test]
fn parsing_agrees_with_the_standard_library() {
    for text in ["0", "00", "1", "+1", "-1", "+", "", " 1", "1_000", "18446744073709551615",
        "+18446744073709551615", "18446744073709551616", "28446744073709551615", "1e3"]
    {
        assert_eq!(parse_u64(text.as_bytes()), text.parse::<u64>().ok());
    }
    for n in [0u64, 5, 10, 4096, u64::MAX] {
        assert_eq!(zero_padded(n), format!("{n:020}").into_bytes());
    }
}

#[test]
fn stems_agree_with_the_standard_library() {
    for name in ["x", "x.y", "x.y.z", ".x", ".x.y", "x.", "x..", "...", "snapshot_1.json"] {
        let expected = std::path::Path::new(name).file_stem().unwrap();
        assert_eq!(file_stem(name.as_bytes()), expected.to_str().unwrap().as_bytes());
    }
}

struct Plain;

impl Codec for Plain {}

#[test]
fn codecs_name_their_extensions() {
    assert_eq!(JsonCodec.ext(), "json");
    assert_eq!(RmpCodec.ext(), "");
    assert_eq!(Plain.ext(), "");
}
