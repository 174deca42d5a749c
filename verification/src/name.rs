//! Names of snapshot files.
//!
//! A snapshot with sequence number 42 is stored as
//! `snapshot_00000000000000000042`, followed by a dot and the codec's
//! extension if it has one. The sequence number is read back from the name
//! and the extension alone.

use crate::decimal;
use crate::decimal::{parse_u64, zero_padded, SEQ_WIDTH};
use crate::path;
use crate::path::{file_stem, DOT};
use vstd::arithmetic::power;
use vstd::prelude::*;
use vstd::slice::slice_subrange;

verus! {

/// What the name of every snapshot file starts with.
pub const SNAPSHOT_PREFIX: &'static str = "snapshot_";

/// The bytes of [`SNAPSHOT_PREFIX`].
pub open spec fn prefix() -> Seq<u8> {
    vstd::utf8::encode_utf8(SNAPSHOT_PREFIX@)
}

/// The name of the snapshot with the given sequence number, as a codec with
/// the given extension stores it.
pub open spec fn snapshot_name(seq: u64, ext: Seq<u8>) -> Seq<u8> {
    let base = prefix() + decimal::padded(seq as nat, SEQ_WIDTH as nat);
    if ext.len() == 0 {
        base
    } else {
        base.push(DOT) + ext
    }
}

/// `name` is something, a dot, and `ext`.
pub open spec fn has_extension(name: Seq<u8>, ext: Seq<u8>) -> bool {
    &&& name.len() > ext.len() + 1
    &&& name[name.len() - ext.len() - 1] == DOT
    &&& ext.is_suffix_of(name)
}

/// The part of a file name that holds the sequence number.
///
/// An extension with dots in it is taken off as a whole. Otherwise the name
/// ends before its last dot, whatever follows, so that the files of another
/// codec count too.
pub open spec fn base(name: Seq<u8>, ext: Seq<u8>) -> Seq<u8> {
    if ext.contains(DOT) && has_extension(name, ext) {
        name.take(name.len() - ext.len() - 1)
    } else {
        path::stem(name)
    }
}

/// The sequence number in the name of a snapshot file, or `None` for any other
/// file, as a codec with the given extension reads it.
pub open spec fn snapshot_seq(name: Seq<u8>, ext: Seq<u8>) -> Option<u64> {
    let s = base(name, ext);
    if prefix().is_prefix_of(s) {
        decimal::parsed(s.skip(prefix().len() as int))
    } else {
        None
    }
}

/// What the prefix is made of.
pub proof fn lemma_prefix()
    ensures
        prefix().len() == 9,
        forall|i: int| 0 <= i < 9 ==> #[trigger] prefix()[i] != DOT,
        forall|i: int| 0 <= i < 9 ==> #[trigger] prefix()[i] != path::SEPARATOR,
{
    reveal_strlit("snapshot_");
    let chars = SNAPSHOT_PREFIX@;
    assert(vstd::utf8::is_ascii_chars(chars));
    vstd::utf8::is_ascii_chars_encode_utf8(chars);
    assert forall|i: int| 0 <= i < 9 implies #[trigger] prefix()[i] != DOT && prefix()[i]
        != path::SEPARATOR by {
        assert(prefix()[i] == chars[i] as u8);
    }
}

/// A digit is neither a dot nor a separator.
proof fn lemma_base_bytes(seq: u64)
    ensures
        snapshot_name(seq, Seq::empty()).len() == 9 + SEQ_WIDTH,
        !snapshot_name(seq, Seq::empty()).contains(DOT),
        !snapshot_name(seq, Seq::empty()).contains(path::SEPARATOR),
{
    lemma_prefix();
    decimal::lemma_padded_value(seq as nat, SEQ_WIDTH as nat);
    let digits = decimal::padded(seq as nat, SEQ_WIDTH as nat);
    let base = snapshot_name(seq, Seq::empty());
    assert forall|i: int| 0 <= i < base.len() implies #[trigger] base[i] != DOT && base[i]
        != path::SEPARATOR by {
        if i >= 9 {
            assert(decimal::is_digit(digits[i - 9]));
        }
    }
}

/// The sequence number survives being written into a file name and read back.
pub proof fn law_name_round_trip(seq: u64, ext: Seq<u8>)
    ensures
        snapshot_seq(snapshot_name(seq, ext), ext) == Some(seq),
{
    lemma_prefix();
    lemma_base_bytes(seq);
    decimal::lemma_parse_padded(seq);
    let digits = decimal::padded(seq as nat, SEQ_WIDTH as nat);
    let front = snapshot_name(seq, Seq::empty());
    let name = snapshot_name(seq, ext);
    assert(front =~= prefix() + digits);
    assert(front.subrange(0, 9) =~= prefix());
    assert(front.skip(9) =~= digits);
    if ext.len() == 0 {
        path::lemma_stem_without_dot(name);
    } else if !ext.contains(DOT) {
        path::lemma_stem_before_dot(front, ext);
    } else {
        assert(name.subrange(name.len() - ext.len(), name.len() as int) =~= ext);
        assert(name.take(name.len() - ext.len() - 1) =~= front);
    }
}

/// Codecs whose extensions hold no dot read every file name alike, by what
/// stands before its last dot.
pub proof fn law_plain_extensions_read_alike(name: Seq<u8>, ext: Seq<u8>)
    requires
        !ext.contains(DOT),
    ensures
        base(name, ext) == path::stem(name),
        snapshot_seq(name, ext) == snapshot_seq(name, Seq::empty()),
{
}

/// Different sequence numbers are stored under different names.
pub proof fn law_names_are_distinct(m: u64, n: u64, ext: Seq<u8>)
    requires
        m != n,
    ensures
        snapshot_name(m, ext) != snapshot_name(n, ext),
{
    if m < n {
        law_name_order(m, n, ext);
    } else {
        law_name_order(n, m, ext);
    }
}

/// Names sort by their bytes as their sequence numbers do.
pub proof fn law_name_order(m: u64, n: u64, ext: Seq<u8>)
    requires
        m < n,
    ensures
        decimal::precedes(snapshot_name(m, ext), snapshot_name(n, ext)),
{
    decimal::lemma_u64_fits(n);
    decimal::lemma_padded_order(m as nat, n as nat, SEQ_WIDTH as nat);
    let a = decimal::padded(m as nat, SEQ_WIDTH as nat);
    let b = decimal::padded(n as nat, SEQ_WIDTH as nat);
    let k = choose|k: int| #[trigger] decimal::differ_first_at(a, b, k) && a[k] < b[k];
    let x = snapshot_name(m, ext);
    let y = snapshot_name(n, ext);
    let at = prefix().len() + k;
    assert forall|j: int| 0 <= j < at implies x[j] == y[j] by {
        if j >= prefix().len() {
            assert(a[j - prefix().len()] == b[j - prefix().len()]);
        }
    }
    assert(decimal::differ_first_at(x, y, at) && x[at] < y[at]);
}

/// A hidden file is never taken for a snapshot. The temporary files in which
/// snapshots are prepared are hidden files.
pub proof fn law_hidden_file_is_no_snapshot(name: Seq<u8>, ext: Seq<u8>)
    requires
        name.len() > 0,
        name[0] == DOT,
    ensures
        snapshot_seq(name, ext) is None,
{
    lemma_prefix();
    name.index_of_last_ensures(DOT);
    let s = base(name, ext);
    if prefix().is_prefix_of(s) {
        assert(s.subrange(0, 9)[0] == prefix()[0]);
    }
}

/// The name of a snapshot is a single path component: no separator occurs in
/// it, if none occurs in the extension.
pub proof fn law_name_is_one_component(seq: u64, ext: Seq<u8>)
    requires
        !ext.contains(path::SEPARATOR),
    ensures
        !snapshot_name(seq, ext).contains(path::SEPARATOR),
{
    lemma_base_bytes(seq);
    let base = snapshot_name(seq, Seq::empty());
    let name = snapshot_name(seq, ext);
    assert forall|i: int| 0 <= i < name.len() implies name[i] != path::SEPARATOR by {
        if i < base.len() {
            assert(base[i] == name[i]);
        } else if i > base.len() {
            assert(ext[i - base.len() - 1] == name[i]);
        }
    }
}

/// The name of a snapshot is text: UTF-8, as the extension is.
pub proof fn law_name_is_text(seq: u64, ext: Seq<u8>)
    requires
        vstd::utf8::valid_utf8(ext),
    ensures
        vstd::utf8::valid_utf8(snapshot_name(seq, ext)),
{
    decimal::lemma_padded_value(seq as nat, SEQ_WIDTH as nat);
    let digits = decimal::padded(seq as nat, SEQ_WIDTH as nat);
    lemma_ascii_is_text(digits);
    lemma_ascii_is_text(seq![DOT]);
    vstd::utf8::encode_utf8_valid_utf8(SNAPSHOT_PREFIX@);
    let base = prefix() + digits;
    vstd::utf8::valid_utf8_concat(prefix(), digits);
    vstd::utf8::valid_utf8_concat(base, seq![DOT]);
    vstd::utf8::valid_utf8_concat(base + seq![DOT], ext);
    assert(base + seq![DOT] =~= base.push(DOT));
}

/// ASCII is UTF-8.
proof fn lemma_ascii_is_text(bytes: Seq<u8>)
    requires
        forall|i: int| 0 <= i < bytes.len() ==> #[trigger] bytes[i] < 0x80,
    ensures
        vstd::utf8::valid_utf8(bytes),
{
    let chars = Seq::new(bytes.len(), |i: int| bytes[i] as char);
    assert forall|i: int| 0 <= i < chars.len() implies '\0' <= #[trigger] chars[i]
        <= '\u{7f}' by {
        assert(bytes[i] < 0x80);
    }
    vstd::utf8::is_ascii_chars_encode_utf8(chars);
    assert forall|i: int| 0 <= i < bytes.len() implies vstd::utf8::encode_utf8(chars)[i]
        == bytes[i] by {
        assert(chars[i] as u8 == bytes[i]);
    }
    assert(vstd::utf8::encode_utf8(chars) =~= bytes);
    vstd::utf8::encode_utf8_valid_utf8(chars);
}

/// The prefix, byte by byte.
proof fn lemma_prefix_bytes()
    ensures
        prefix() == seq![0x73u8, 0x6e, 0x61, 0x70, 0x73, 0x68, 0x6f, 0x74, 0x5f],
{
    reveal_strlit("snapshot_");
    let chars = SNAPSHOT_PREFIX@;
    assert(vstd::utf8::is_ascii_chars(chars));
    vstd::utf8::is_ascii_chars_encode_utf8(chars);
    assert forall|i: int| 0 <= i < 9 implies prefix()[i] == chars[i] as u8 by {}
    assert(prefix() =~= seq![0x73u8, 0x6e, 0x61, 0x70, 0x73, 0x68, 0x6f, 0x74, 0x5f]);
}

/// What a name is made of, byte by byte.
proof fn lemma_name_bytes(seq: u64, ext: Seq<u8>)
    ensures
        snapshot_name(seq, ext).len() == 29 + if ext.len() == 0 {
            0
        } else {
            1 + ext.len()
        },
        snapshot_name(seq, ext).take(9) == seq![
            0x73u8,
            0x6e,
            0x61,
            0x70,
            0x73,
            0x68,
            0x6f,
            0x74,
            0x5f,
        ],
        forall|i: int|
            9 <= i < 29 ==> #[trigger] snapshot_name(seq, ext)[i] == 0x30 + (seq as int
                / power::pow(10, (28 - i) as nat)) % 10,
        ext.len() > 0 ==> snapshot_name(seq, ext)[29] == 0x2e && snapshot_name(seq, ext).skip(30)
            == ext,
{
    lemma_prefix_bytes();
    decimal::lemma_padded_digits(seq as nat, SEQ_WIDTH as nat);
    let digits = decimal::padded(seq as nat, SEQ_WIDTH as nat);
    let name = snapshot_name(seq, ext);
    assert(name.take(9) =~= prefix());
    assert forall|i: int| 9 <= i < 29 implies #[trigger] name[i] == 0x30 + (seq as int
        / power::pow(10, (28 - i) as nat)) % 10 by {
        assert(name[i] == digits[i - 9]);
    }
    if ext.len() > 0 {
        assert(name.skip(30) =~= ext);
    }
}

/// A name is `snapshot_`, the sequence number in twenty decimal digits, and, if
/// the extension is not empty, a dot and the whole extension.
pub proof fn law_name_spells_number_and_extension(seq: u64, ext: &[u8], res: Vec<u8>)
    requires
        call_ensures(snapshot_file_name, (seq, ext), res),
    ensures
        res@.len() == 29 + if ext@.len() == 0 {
            0
        } else {
            1 + ext@.len()
        },
        res@.take(9) == seq![0x73u8, 0x6e, 0x61, 0x70, 0x73, 0x68, 0x6f, 0x74, 0x5f],
        forall|i: int|
            9 <= i < 29 ==> #[trigger] res@[i] == 0x30 + (seq as int / power::pow(
                10,
                (28 - i) as nat,
            )) % 10,
        ext@.len() > 0 ==> res@[29] == 0x2e && res@.skip(30) == ext@,
{
}

/// Names with different extensions are different, whatever their numbers.
pub proof fn law_extensions_keep_names_apart(m: u64, n: u64, a: Seq<u8>, b: Seq<u8>)
    requires
        snapshot_name(m, a) == snapshot_name(n, b),
    ensures
        m == n,
        a == b,
{
    lemma_name_bytes(m, a);
    lemma_name_bytes(n, b);
    if m != n {
        law_names_are_distinct(m, n, a);
    }
}

/// Which names are read as snapshots, and with which number.
///
/// A name has the number `v` if it is `snapshot_`, then `v` in decimal, and
/// then nothing, or a dot and an extension without dots, or a dot and the
/// codec's own extension. No other name has a number.
pub proof fn law_snapshots_are_told_by_their_names(name: &[u8], ext: &[u8], v: u64, res: Option<u64>)
    requires
        call_ensures(sequence_number, (name, ext), res),
    ensures
        res == Some(v) <==> exists|k: int|
            {
                &&& 9 <= k <= name@.len()
                &&& name@.take(9) == seq![0x73u8, 0x6e, 0x61, 0x70, 0x73, 0x68, 0x6f, 0x74, 0x5f]
                &&& decimal::parsed(#[trigger] name@.subrange(9, k)) == Some(v)
                &&& k == name@.len() || (name@[k] == 0x2e && (!name@.skip(k + 1).contains(0x2e) || (
                ext@.contains(0x2e) && name@.skip(k + 1) == ext@)))
            },
{
    lemma_prefix_bytes();
    let s = name@;
    let x = ext@;
    s.index_of_last_ensures(DOT);
    let p = seq![0x73u8, 0x6e, 0x61, 0x70, 0x73, 0x68, 0x6f, 0x74, 0x5f];
    let b = base(s, x);
    if res == Some(v) {
        let k = b.len() as int;
        assert(b =~= s.take(k));
        assert(b.subrange(0, 9) =~= s.take(9));
        assert(b.skip(9) =~= s.subrange(9, k));
        if x.contains(DOT) && has_extension(s, x) {
            assert(s.skip(k + 1) =~= x);
        } else if k < s.len() {
            let rest = s.skip(k + 1);
            if rest.contains(0x2e) {
                let j = choose|j: int| 0 <= j < rest.len() && rest[j] == 0x2e;
                assert(s[k + 1 + j] == 0x2e);
            }
        }
    }
    if exists|k: int|
        {
            &&& 9 <= k <= s.len()
            &&& s.take(9) == p
            &&& decimal::parsed(#[trigger] s.subrange(9, k)) == Some(v)
            &&& k == s.len() || (s[k] == 0x2e && (!s.skip(k + 1).contains(0x2e) || (x.contains(0x2e)
                && s.skip(k + 1) == x)))
        } {
        let k = choose|k: int|
            {
                &&& 9 <= k <= s.len()
                &&& s.take(9) == p
                &&& decimal::parsed(#[trigger] s.subrange(9, k)) == Some(v)
                &&& k == s.len() || (s[k] == 0x2e && (!s.skip(k + 1).contains(0x2e) || (x.contains(
                    0x2e,
                ) && s.skip(k + 1) == x)))
            };
        let d = s.subrange(9, k);
        let front = s.take(k);
        assert(front.take(9) =~= s.take(9));
        assert(front.skip(9) =~= d);
        lemma_no_dot(front, d);
        if k == s.len() {
            assert(front =~= s);
            path::lemma_stem_without_dot(s);
            if x.contains(DOT) && has_extension(s, x) {
                assert(s[s.len() - x.len() - 1] == DOT);
            }
            assert(b =~= front);
        } else {
            let back = s.skip(k + 1);
            assert(s =~= front.push(DOT) + back);
            if !back.contains(0x2e) {
                path::lemma_stem_before_dot(front, back);
                if x.contains(DOT) && has_extension(s, x) {
                    let j = choose|j: int| 0 <= j < x.len() && x[j] == DOT;
                    let at = s.len() - x.len() - 1;
                    assert(s.subrange(s.len() - x.len(), s.len() as int)[j] == DOT);
                    assert(s[at + 1 + j] == DOT);
                    assert(s[at] == DOT);
                    if at < k {
                        assert(front[at] == DOT);
                    } else {
                        assert(back[at + j - k] == DOT);
                    }
                }
                assert(b =~= front);
            } else {
                assert(s.subrange(s.len() - x.len(), s.len() as int) =~= x);
                assert(has_extension(s, x));
                assert(b =~= front);
            }
        }
        assert(front.subrange(0, 9) =~= s.take(9));
    }
}

/// No dot stands in a prefix and a number.
proof fn lemma_no_dot(front: Seq<u8>, d: Seq<u8>)
    requires
        front.len() >= 9,
        front.take(9) == seq![0x73u8, 0x6e, 0x61, 0x70, 0x73, 0x68, 0x6f, 0x74, 0x5f],
        d == front.skip(9),
        decimal::parsed(d) is Some,
    ensures
        !front.contains(DOT),
{
    assert forall|i: int| 0 <= i < front.len() implies #[trigger] front[i] != DOT by {
        if i < 9 {
            assert(front[i] == front.take(9)[i]);
        } else {
            let j = i - 9;
            assert(front[i] == d[j]);
            let u = decimal::unsigned_part(d);
            if !(j == 0 && d[0] == '+' as u8) {
                assert(decimal::is_digit(u[j - (d.len() - u.len())]));
            }
        }
    }
}

/// A name with two dots is no snapshot for a codec whose extension has none: a
/// copy such as `snapshot_00000000000000000007.json.bak` does not count.
pub proof fn law_second_dot_is_no_snapshot(
    name: &[u8],
    ext: &[u8],
    i: int,
    j: int,
    res: Option<u64>,
)
    requires
        call_ensures(sequence_number, (name, ext), res),
        !ext@.contains(0x2e),
        0 <= i < j < name@.len(),
        name@[i] == 0x2e,
        name@[j] == 0x2e,
    ensures
        res is None,
{
    if let Some(v) = res {
        let s = name@;
        law_snapshots_are_told_by_their_names(name, ext, v, res);
        let k = choose|k: int|
            {
                &&& 9 <= k <= s.len()
                &&& s.take(9) == seq![0x73u8, 0x6e, 0x61, 0x70, 0x73, 0x68, 0x6f, 0x74, 0x5f]
                &&& decimal::parsed(#[trigger] s.subrange(9, k)) == Some(v)
                &&& k == s.len() || (s[k] == 0x2e && (!s.skip(k + 1).contains(0x2e) || (
                ext@.contains(0x2e) && s.skip(k + 1) == ext@)))
            };
        let front = s.take(k);
        assert(front.take(9) =~= s.take(9));
        assert(front.skip(9) =~= s.subrange(9, k));
        lemma_no_dot(front, s.subrange(9, k));
        if i < k {
            assert(front[i] == DOT);
        } else {
            assert(s.skip(k + 1)[j - k - 1] == 0x2e);
        }
    }
}

/// A byte that is no digit, before the first dot of a name and behind
/// `snapshot_`, makes the name no snapshot, unless it is a plus sign in front.
/// So does a name that does not start with `snapshot_`.
pub proof fn law_strange_names_are_no_snapshots(name: &[u8], ext: &[u8], i: int, res: Option<u64>)
    requires
        call_ensures(sequence_number, (name, ext), res),
    ensures
        name@.len() < 10 ==> res is None,
        name@.take(9) != seq![0x73u8, 0x6e, 0x61, 0x70, 0x73, 0x68, 0x6f, 0x74, 0x5f] ==> res is None,
        9 <= i < name@.len() && !name@.take(i + 1).contains(0x2e) && !(0x30 <= name@[i] <= 0x39) && !(
        i == 9 && name@[9] == 0x2b) ==> res is None,
{
    if let Some(v) = res {
        let s = name@;
        law_snapshots_are_told_by_their_names(name, ext, v, res);
        let k = choose|k: int|
            {
                &&& 9 <= k <= s.len()
                &&& s.take(9) == seq![0x73u8, 0x6e, 0x61, 0x70, 0x73, 0x68, 0x6f, 0x74, 0x5f]
                &&& decimal::parsed(#[trigger] s.subrange(9, k)) == Some(v)
                &&& k == s.len() || (s[k] == 0x2e && (!s.skip(k + 1).contains(0x2e) || (
                ext@.contains(0x2e) && s.skip(k + 1) == ext@)))
            };
        let d = s.subrange(9, k);
        decimal::lemma_other_bytes(d);
        if 9 <= i < s.len() && !s.take(i + 1).contains(0x2e) {
            if k <= i {
                assert(s.take(i + 1)[k] == 0x2e);
            }
            assert(d[i - 9] == s[i]);
        }
    }
}

/// Writes the name of a snapshot file.
pub fn snapshot_file_name(seq: u64, ext: &[u8]) -> (res: Vec<u8>)
    ensures
        res@ == snapshot_name(seq, ext@),
        res@.len() == 29 + if ext@.len() == 0 {
            0
        } else {
            1 + ext@.len()
        },
        res@.take(9) == seq![0x73u8, 0x6e, 0x61, 0x70, 0x73, 0x68, 0x6f, 0x74, 0x5f],
        forall|i: int|
            9 <= i < 29 ==> #[trigger] res@[i] == 0x30 + (seq as int / power::pow(
                10,
                (28 - i) as nat,
            )) % 10,
        ext@.len() > 0 ==> res@[29] == 0x2e && res@.skip(30) == ext@,
{
    proof {
        lemma_name_bytes(seq, ext@);
    }
    let mut name: Vec<u8> = Vec::new();
    name.extend_from_slice(SNAPSHOT_PREFIX.as_bytes());
    assert(name@ =~= prefix());
    let digits = zero_padded(seq);
    name.extend_from_slice(digits.as_slice());
    let ghost base = prefix() + decimal::padded(seq as nat, SEQ_WIDTH as nat);
    assert(name@ =~= base);
    if ext.len() > 0 {
        name.push(DOT);
        name.extend_from_slice(ext);
        assert(name@ =~= base.push(DOT) + ext@);
    }
    name
}

/// Whether `bytes` starts with `front`.
fn starts_with(bytes: &[u8], front: &[u8]) -> (res: bool)
    ensures
        res == front@.is_prefix_of(bytes@),
{
    if bytes.len() < front.len() {
        return false;
    }
    let mut i: usize = 0;
    while i < front.len()
        invariant
            i <= front@.len() <= bytes@.len(),
            forall|j: int| 0 <= j < i ==> bytes@[j] == front@[j],
        decreases front@.len() - i,
    {
        if bytes[i] != front[i] {
            assert(bytes@.subrange(0, front@.len() as int)[i as int] != front@[i as int]);
            return false;
        }
        i = i + 1;
    }
    assert(bytes@.subrange(0, front@.len() as int) =~= front@);
    true
}

/// Whether a dot occurs in `bytes`.
fn contains_dot(bytes: &[u8]) -> (res: bool)
    ensures
        res == bytes@.contains(DOT),
{
    let mut i: usize = 0;
    while i < bytes.len()
        invariant
            i <= bytes@.len(),
            forall|j: int| 0 <= j < i ==> bytes@[j] != DOT,
        decreases bytes@.len() - i,
    {
        if bytes[i] == DOT {
            assert(bytes@[i as int] == DOT);
            return true;
        }
        i = i + 1;
    }
    false
}

/// The part of a file name that holds the sequence number.
fn base_name<'a>(name: &'a [u8], ext: &[u8]) -> (res: &'a [u8])
    ensures
        res@ == base(name@, ext@),
{
    if contains_dot(ext) && name.len() > ext.len() && name.len() - ext.len() > 1 {
        let at: usize = name.len() - ext.len() - 1;
        let back = slice_subrange(name, at + 1, name.len());
        if name[at] == DOT && starts_with(back, ext) {
            assert(back@.subrange(0, ext@.len() as int) =~= back@);
            return slice_subrange(name, 0, at);
        }
        assert(back@.subrange(0, ext@.len() as int) =~= back@);
    }
    file_stem(name)
}

/// Reads the sequence number from the name of a snapshot file, for a codec
/// with the given extension.
///
/// Gives `None` for a file that is not a snapshot.
pub fn sequence_number(name: &[u8], ext: &[u8]) -> (res: Option<u64>)
    ensures
        res == snapshot_seq(name@, ext@),
{
    let s = base_name(name, ext);
    let front = SNAPSHOT_PREFIX.as_bytes();
    if !starts_with(s, front) {
        return None;
    }
    let digits = slice_subrange(s, front.len(), s.len());
    assert(digits@ =~= s@.skip(prefix().len() as int));
    parse_u64(digits)
}

} // verus!
