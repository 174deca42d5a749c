//! Which entry of a directory is the latest snapshot.
//!
//! `ext` is the extension of the codec that reads the names.

use crate::error::{ErrorPath, MiniSnapError, Result};
use crate::name;
use crate::name::sequence_number;
use std::path::PathBuf;
use vstd::prelude::*;

verus! {

/// An entry of a directory.
#[derive(Debug)]
pub struct Entry {
    /// Its name in the directory.
    pub name: Vec<u8>,
    /// Its path, the directory included.
    pub path: PathBuf,
}

/// What reading a directory gives: its entries, with an error in the place of
/// each one that could not be read, or the error that kept the directory from
/// being read at all.
pub type Listing = std::result::Result<
    Vec<std::result::Result<Entry, std::io::Error>>,
    std::io::Error,
>;

/// The names of the entries, with `None` in the place of each entry that could
/// not be read.
pub open spec fn entry_names(
    entries: Seq<std::result::Result<Entry, std::io::Error>>,
) -> Seq<Option<Seq<u8>>> {
    Seq::new(
        entries.len(),
        |i: int|
            match entries[i] {
                Ok(entry) => Some(entry.name@),
                Err(_) => None,
            },
    )
}

/// The sequence number of the snapshot that the `i`-th entry is, if it is one.
pub open spec fn entry_seq(names: Seq<Option<Seq<u8>>>, ext: Seq<u8>, i: int) -> Option<u64> {
    match names[i] {
        Some(name) => name::snapshot_seq(name, ext),
        None => None,
    }
}

/// The `i`-th entry is a snapshot, none has a higher sequence number, and none
/// that comes later in the listing has the same one.
pub open spec fn is_latest(names: Seq<Option<Seq<u8>>>, ext: Seq<u8>, i: int) -> bool {
    &&& 0 <= i < names.len()
    &&& entry_seq(names, ext, i) is Some
    &&& forall|j: int|
        0 <= j < names.len() && #[trigger] entry_seq(names, ext, j) is Some ==> {
            ||| entry_seq(names, ext, j)->0 < entry_seq(names, ext, i)->0
            ||| entry_seq(names, ext, j)->0 == entry_seq(names, ext, i)->0 && j <= i
        }
}

/// No entry is a snapshot.
pub open spec fn no_snapshot(names: Seq<Option<Seq<u8>>>, ext: Seq<u8>) -> bool {
    forall|i: int| 0 <= i < names.len() ==> #[trigger] entry_seq(names, ext, i) is None
}

/// `found` is the path of the latest snapshot in the listing.
pub open spec fn selects(ext: Seq<u8>, listing: Listing, found: PathBuf) -> bool {
    match listing {
        Ok(entries) => exists|i: int| #[trigger]
            is_latest(entry_names(entries@), ext, i) && found == entries@[i]->Ok_0.path,
        Err(_) => false,
    }
}

/// `err` tells why there is no latest snapshot in the directory `dir`: it
/// could not be read, or holds none.
pub open spec fn refuses(dir: PathBuf, ext: Seq<u8>, listing: Listing, err: MiniSnapError) -> bool {
    match listing {
        Ok(entries) => err is NotFound && no_snapshot(entry_names(entries@), ext),
        Err(cause) => err == (MiniSnapError::Io { source: cause, path: ErrorPath::Of(dir) }),
    }
}

/// There is at most one latest snapshot.
pub proof fn law_latest_is_unique(names: Seq<Option<Seq<u8>>>, ext: Seq<u8>, i: int, j: int)
    requires
        is_latest(names, ext, i),
        is_latest(names, ext, j),
    ensures
        i == j,
{
}

/// There is a latest snapshot whenever there is a snapshot.
pub proof fn law_latest_exists(names: Seq<Option<Seq<u8>>>, ext: Seq<u8>)
    ensures
        no_snapshot(names, ext) <==> !exists|i: int| is_latest(names, ext, i),
    decreases names.len(),
{
    if names.len() > 0 {
        let last = names.len() - 1;
        let front = names.drop_last();
        law_latest_exists(front, ext);
        assert forall|j: int| 0 <= j < last implies #[trigger] entry_seq(names, ext, j) == entry_seq(
            front,
            ext,
            j,
        ) by {}
        if exists|i: int| is_latest(front, ext, i) {
            let i = choose|i: int| is_latest(front, ext, i);
            if entry_seq(names, ext, last) is Some && entry_seq(names, ext, last)->0 >= entry_seq(
                names,
                ext,
                i,
            )->0 {
                assert forall|j: int|
                    0 <= j < names.len() && #[trigger] entry_seq(names, ext, j) is Some implies {
                    ||| entry_seq(names, ext, j)->0 < entry_seq(names, ext, last)->0
                    ||| entry_seq(names, ext, j)->0 == entry_seq(names, ext, last)->0 && j <= last
                } by {
                    if j < last {
                        assert(entry_seq(front, ext, j) is Some);
                    }
                }
                assert(is_latest(names, ext, last));
            } else {
                assert forall|j: int|
                    0 <= j < names.len() && #[trigger] entry_seq(names, ext, j) is Some implies {
                    ||| entry_seq(names, ext, j)->0 < entry_seq(names, ext, i)->0
                    ||| entry_seq(names, ext, j)->0 == entry_seq(names, ext, i)->0 && j <= i
                } by {
                    if j < last {
                        assert(entry_seq(front, ext, j) is Some);
                    }
                }
                assert(is_latest(names, ext, i));
            }
        } else {
            assert forall|j: int| 0 <= j < last implies #[trigger] entry_seq(names, ext, j) is None by {
                assert(entry_seq(front, ext, j) is None);
            }
            if entry_seq(names, ext, last) is Some {
                assert(is_latest(names, ext, last));
            }
        }
    }
}

/// A listing decides: it gives one path or an error, never two paths, and never
/// a path and an error.
pub proof fn law_listing_decides(
    dir: PathBuf,
    ext: Seq<u8>,
    listing: Listing,
    a: PathBuf,
    b: PathBuf,
    err: MiniSnapError,
)
    requires
        selects(ext, listing, a),
    ensures
        selects(ext, listing, b) ==> a == b,
        !refuses(dir, ext, listing, err),
{
    let entries = listing->Ok_0@;
    let names = entry_names(entries);
    let i = choose|i: int| #[trigger]
        is_latest(names, ext, i) && a == entries[i]->Ok_0.path;
    assert(entry_seq(names, ext, i) is Some);
    if selects(ext, listing, b) {
        let j = choose|j: int| #[trigger]
            is_latest(names, ext, j) && b == entries[j]->Ok_0.path;
        law_latest_is_unique(names, ext, i, j);
    }
}

/// The names stand for the entries, one for one: that of each entry that could
/// be read, in its place.
pub proof fn law_every_entry_is_named(
    entries: Seq<std::result::Result<Entry, std::io::Error>>,
    i: int,
)
    ensures
        entry_names(entries).len() == entries.len(),
        0 <= i < entries.len() && entries[i] is Ok ==> entry_names(entries)[i] == Some(
            entries[i]->Ok_0.name@,
        ),
        0 <= i < entries.len() && entries[i] is Err ==> entry_names(entries)[i] is None,
{
}

/// A path is selected exactly if it is that of an entry with the highest
/// sequence number of all entries, and of the last one among those.
pub proof fn law_selected_has_the_highest_number(ext: Seq<u8>, listing: Listing, found: PathBuf)
    ensures
        selects(ext, listing, found) <==> match listing {
            Ok(entries) => exists|j: int|
                    {
                        &&& 0 <= j < entries@.len()
                        &&& #[trigger] entries@[j] is Ok
                        &&& entries@[j]->Ok_0.path == found
                        &&& name::snapshot_seq(entries@[j]->Ok_0.name@, ext) is Some
                        &&& forall|i: int|
                            0 <= i < entries@.len() && #[trigger] entries@[i] is Ok
                                && name::snapshot_seq(entries@[i]->Ok_0.name@, ext) is Some ==> {
                                let a = name::snapshot_seq(entries@[i]->Ok_0.name@, ext)->0;
                                let b = name::snapshot_seq(entries@[j]->Ok_0.name@, ext)->0;
                                a < b || a == b && i <= j
                            }
                    },
            Err(_) => false,
        },
{
    if let Ok(entries) = listing {
        let names = entry_names(entries@);
        assert forall|i: int| 0 <= i < entries@.len() && #[trigger] entries@[i] is Ok implies entry_seq(
            names,
            ext,
            i,
        ) == name::snapshot_seq(entries@[i]->Ok_0.name@, ext) by {}
        assert forall|i: int|
            0 <= i < names.len() && #[trigger] entry_seq(names, ext, i) is Some implies entries@[i]
            is Ok by {}
        if selects(ext, listing, found) {
            let j = choose|j: int| #[trigger]
                is_latest(names, ext, j) && found == entries@[j]->Ok_0.path;
            assert(entries@[j] is Ok);
            assert forall|i: int|
                0 <= i < entries@.len() && #[trigger] entries@[i] is Ok && name::snapshot_seq(
                    entries@[i]->Ok_0.name@,
                    ext,
                ) is Some implies {
                let a = name::snapshot_seq(entries@[i]->Ok_0.name@, ext)->0;
                let b = name::snapshot_seq(entries@[j]->Ok_0.name@, ext)->0;
                a < b || a == b && i <= j
            } by {
                assert(entry_seq(names, ext, i) is Some);
            }
        }
        assert forall|j: int|
            {
                &&& 0 <= j < entries@.len()
                &&& #[trigger] entries@[j] is Ok
                &&& entries@[j]->Ok_0.path == found
                &&& name::snapshot_seq(entries@[j]->Ok_0.name@, ext) is Some
                &&& forall|i: int|
                    0 <= i < entries@.len() && #[trigger] entries@[i] is Ok && name::snapshot_seq(
                        entries@[i]->Ok_0.name@,
                        ext,
                    ) is Some ==> {
                        let a = name::snapshot_seq(entries@[i]->Ok_0.name@, ext)->0;
                        let b = name::snapshot_seq(entries@[j]->Ok_0.name@, ext)->0;
                        a < b || a == b && i <= j
                    }
            } implies selects(ext, listing, found) by {
            assert forall|i: int|
                0 <= i < names.len() && #[trigger] entry_seq(names, ext, i) is Some implies {
                ||| entry_seq(names, ext, i)->0 < entry_seq(names, ext, j)->0
                ||| entry_seq(names, ext, i)->0 == entry_seq(names, ext, j)->0 && i <= j
            } by {
                assert(entries@[i] is Ok);
            }
            assert(is_latest(names, ext, j));
        }
    }
}

/// A directory is refused exactly if it could not be read, with what the
/// operating system reported and its path, or if no entry is a snapshot.
pub proof fn law_refused_has_no_snapshot(
    dir: PathBuf,
    ext: Seq<u8>,
    listing: Listing,
    err: MiniSnapError,
)
    ensures
        refuses(dir, ext, listing, err) <==> match listing {
            Ok(entries) => err is NotFound && forall|i: int|
                0 <= i < entries@.len() && #[trigger] entries@[i] is Ok ==> name::snapshot_seq(
                    entries@[i]->Ok_0.name@,
                    ext,
                ) is None,
            Err(cause) => err == (MiniSnapError::Io { source: cause, path: ErrorPath::Of(dir) }),
        },
{
    if let Ok(entries) = listing {
        let names = entry_names(entries@);
        assert forall|i: int| 0 <= i < entries@.len() && #[trigger] entries@[i] is Ok implies entry_seq(
            names,
            ext,
            i,
        ) == name::snapshot_seq(entries@[i]->Ok_0.name@, ext) by {}
        assert forall|i: int|
            0 <= i < names.len() && #[trigger] entry_seq(names, ext, i) is Some implies entries@[i]
            is Ok by {}
    }
}

/// Any snapshot among the entries makes the answer a path, of an entry whose
/// number is at least as high, wherever in the listing they stand.
pub proof fn law_no_entry_is_passed_over(
    dir: &PathBuf,
    ext: &[u8],
    entries: Vec<std::result::Result<Entry, std::io::Error>>,
    i: int,
    res: Result<PathBuf>,
)
    requires
        call_ensures(latest_in, (dir, ext, Ok(entries)), res),
        0 <= i < entries@.len(),
        entries@[i] is Ok,
        name::snapshot_seq(entries@[i]->Ok_0.name@, ext@) is Some,
    ensures
        res is Ok,
        exists|j: int|
            {
                &&& 0 <= j < entries@.len()
                &&& #[trigger] entries@[j] is Ok
                &&& entries@[j]->Ok_0.path == res->Ok_0
                &&& name::snapshot_seq(entries@[j]->Ok_0.name@, ext@) is Some
                &&& name::snapshot_seq(entries@[j]->Ok_0.name@, ext@)->0 >= name::snapshot_seq(
                    entries@[i]->Ok_0.name@,
                    ext@,
                )->0
            },
{
    let listing: Listing = Ok(entries);
    match res {
        Ok(found) => {
            law_selected_has_the_highest_number(ext@, listing, found);
        },
        Err(err) => {
            law_refused_has_no_snapshot(*dir, ext@, listing, err);
        },
    }
}

/// The path of the latest snapshot in the directory `dir`, given what reading
/// it gave and the extension of the codec.
///
/// Entries that could not be read are passed over.
pub fn latest_in(dir: &PathBuf, ext: &[u8], listing: Listing) -> (res: Result<PathBuf>)
    ensures
        match res {
            Ok(found) => selects(ext@, listing, found),
            Err(err) => refuses(*dir, ext@, listing, err),
        },
        match (listing, res) {
            (Ok(entries), Ok(found)) => exists|j: int|
                    {
                        &&& 0 <= j < entries@.len()
                        &&& #[trigger] entries@[j] is Ok
                        &&& entries@[j]->Ok_0.path == found
                        &&& name::snapshot_seq(entries@[j]->Ok_0.name@, ext@) is Some
                        &&& forall|i: int|
                            0 <= i < entries@.len() && #[trigger] entries@[i] is Ok
                                && name::snapshot_seq(entries@[i]->Ok_0.name@, ext@) is Some ==> {
                                let a = name::snapshot_seq(entries@[i]->Ok_0.name@, ext@)->0;
                                let b = name::snapshot_seq(entries@[j]->Ok_0.name@, ext@)->0;
                                a < b || a == b && i <= j
                            }
                    },
            (Ok(entries), Err(err)) => err is NotFound && forall|i: int|
                0 <= i < entries@.len() && #[trigger] entries@[i] is Ok ==> name::snapshot_seq(
                    entries@[i]->Ok_0.name@,
                    ext@,
                ) is None,
            (Err(cause), Ok(_)) => false,
            (Err(cause), Err(err)) => err == (MiniSnapError::Io {
                source: cause,
                path: ErrorPath::Of(*dir),
            }),
        },
{
    let ghost given = listing;
    let mut entries = match listing {
        Ok(entries) => entries,
        Err(err) => {
            return Err(MiniSnapError::io(err, dir.clone()));
        },
    };
    let ghost names = entry_names(entries@);
    let mut best: Option<(u64, usize)> = None;
    let mut i: usize = 0;
    while i < entries.len()
        invariant
            i <= entries@.len(),
            names == entry_names(entries@),
            match best {
                Some((seq, k)) => {
                    &&& k < i
                    &&& entry_seq(names, ext@, k as int) == Some(seq)
                    &&& forall|j: int|
                        0 <= j < i && #[trigger] entry_seq(names, ext@, j) is Some ==> {
                            ||| entry_seq(names, ext@, j)->0 < seq
                            ||| entry_seq(names, ext@, j)->0 == seq && j <= k
                        }
                },
                None => forall|j: int| 0 <= j < i ==> #[trigger] entry_seq(names, ext@, j) is None,
            },
        decreases entries@.len() - i,
    {
        if let Ok(entry) = &entries[i] {
            if let Some(seq) = sequence_number(entry.name.as_slice(), ext) {
                assert(entry_seq(names, ext@, i as int) == Some(seq));
                match best {
                    Some((highest, _)) if seq < highest => {},
                    _ => {
                        best = Some((seq, i));
                    },
                }
            }
        }
        i = i + 1;
    }
    match best {
        Some((_, k)) => {
            assert(is_latest(names, ext@, k as int));
            match entries.swap_remove(k) {
                Ok(entry) => {
                    assert(selects(ext@, given, entry.path));
                    proof {
                        law_selected_has_the_highest_number(ext@, given, entry.path);
                    }
                    Ok(entry.path)
                },
                Err(_) => Err(MiniSnapError::NotFound),
            }
        },
        None => {
            assert(no_snapshot(names, ext@));
            proof {
                law_refused_has_no_snapshot(*dir, ext@, given, MiniSnapError::NotFound);
            }
            Err(MiniSnapError::NotFound)
        },
    }
}

} // verus!
