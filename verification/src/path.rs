//! File names as byte strings: the last components of paths.
//!
//! A byte that is an ASCII character stands for it, whatever encodes the others.

use vstd::prelude::*;
use vstd::slice::slice_subrange;

verus! {

/// What separates the components of a path, on every system.
pub const SEPARATOR: u8 = 0x2f;

/// What separates a file name from its extension.
pub const DOT: u8 = 0x2e;

/// The file name without its extension: what stands before the last dot.
///
/// A name without a dot, or whose only dot is its first byte, has no
/// extension.
pub open spec fn stem(name: Seq<u8>) -> Seq<u8> {
    match name.index_of_last(DOT) {
        Some(k) if k > 0 => name.take(k),
        _ => name,
    }
}

/// The last dot of a name that is `front`, a dot, and then no other dot.
pub proof fn lemma_stem_before_dot(front: Seq<u8>, back: Seq<u8>)
    requires
        front.len() > 0,
        !back.contains(DOT),
    ensures
        stem(front.push(DOT) + back) == front,
{
    let name = front.push(DOT) + back;
    name.index_of_last_ensures(DOT);
    assert(name[front.len() as int] == DOT);
    let k = name.index_of_last(DOT)->0;
    assert(k >= front.len());
    if k > front.len() {
        assert(back[k - front.len() - 1] == DOT);
    }
    assert(name.take(k) =~= front);
}

/// A name without a dot is its own stem.
pub proof fn lemma_stem_without_dot(name: Seq<u8>)
    requires
        !name.contains(DOT),
    ensures
        stem(name) == name,
{
    name.index_of_last_ensures(DOT);
}

/// The stem of a name ends before its last dot, unless that is its first byte:
/// then, and if there is no dot, it is the whole name.
pub proof fn law_stem_ends_before_the_last_dot(name: &[u8], k: int, res: &[u8])
    requires
        call_ensures(file_stem, (name,), res),
    ensures
        0 < k < name@.len() && name@[k] == 0x2e && !name@.skip(k + 1).contains(0x2e) ==> res@
            == name@.take(k),
        name@.len() > 0 && !name@.skip(1).contains(0x2e) ==> res@ == name@,
        name@.len() == 0 ==> res@.len() == 0,
{
    let s = name@;
    s.index_of_last_ensures(DOT);
    if 0 < k < s.len() && s[k] == 0x2e && !s.skip(k + 1).contains(0x2e) {
        let at = s.index_of_last(DOT)->0;
        if at > k {
            assert(s.skip(k + 1)[at - k - 1] == 0x2e);
        }
    }
    if s.len() > 0 && !s.skip(1).contains(0x2e) {
        if let Some(at) = s.index_of_last(DOT) {
            if at > 0 {
                assert(s.skip(1)[at - 1] == 0x2e);
            }
        }
    }
}

/// The file name without its extension.
pub fn file_stem(name: &[u8]) -> (res: &[u8])
    ensures
        res@ == stem(name@),
{
    proof {
        name@.index_of_last_ensures(DOT);
    }
    let mut k: usize = name.len();
    while k > 1
        invariant
            k <= name@.len(),
            forall|j: int| k <= j < name@.len() ==> name@[j] != DOT,
            match name@.index_of_last(DOT) {
                Some(index) => {
                    &&& 0 <= index < name@.len()
                    &&& name@[index] == DOT
                    &&& forall|j: int| index < j < name@.len() ==> name@[j] != DOT
                },
                None => !name@.contains(DOT),
            },
        decreases k,
    {
        if name[k - 1] == DOT {
            assert(name@.index_of_last(DOT) == Some(k - 1));
            return slice_subrange(name, 0, k - 1);
        }
        k = k - 1;
    }
    name
}

} // verus!
