//! Choosing the most recently modified file of a directory.

use vstd::prelude::*;

verus! {

/// One entry of a directory listing.
pub struct Listed {
    /// The entry's path.
    pub path: String,
    /// Whether the entry is a regular file.
    pub is_file: bool,
    /// When the entry was last modified, in nanoseconds since the Unix
    /// epoch. It is read only where `is_file` holds.
    pub modified: i128,
}

/// Whether entry `at` is the one to select: a regular file that no regular
/// file is newer than, and the last in the listing of those that are as new.
pub open spec fn is_most_recent(entries: Seq<Listed>, at: int) -> bool {
    &&& 0 <= at < entries.len()
    &&& entries[at].is_file
    &&& forall|j: int|
        0 <= j < entries.len() && (#[trigger] entries[j]).is_file ==> entries[j].modified
            <= entries[at].modified
    &&& forall|j: int|
        at < j < entries.len() && (#[trigger] entries[j]).is_file ==> entries[j].modified
            < entries[at].modified
}

/// Whether the listing holds no regular file.
pub open spec fn no_files(entries: Seq<Listed>) -> bool {
    forall|j: int| 0 <= j < entries.len() ==> !(#[trigger] entries[j]).is_file
}

/// The position of the most recently modified regular file, if the listing
/// has a regular file.
pub fn most_recent_index(entries: &Vec<Listed>) -> (found: Option<usize>)
    ensures
        match found {
            Some(at) => is_most_recent(entries@, at as int),
            None => no_files(entries@),
        },
{
    let mut found: Option<usize> = None;
    let mut i: usize = 0;
    while i < entries.len()
        invariant
            i <= entries.len(),
            match found {
                Some(at) => at < i && is_most_recent(entries@.take(i as int), at as int),
                None => no_files(entries@.take(i as int)),
            },
        decreases entries.len() - i,
    {
        let ghost before = entries@.take(i as int);
        let ghost after = entries@.take(i + 1);
        assert forall|j: int| 0 <= j < i implies after[j] == before[j] by {}
        assert(after[i as int] == entries@[i as int]);
        if entries[i].is_file {
            let newer = match found {
                Some(at) => entries[at].modified <= entries[i].modified,
                None => true,
            };
            if newer {
                found = Some(i);
            }
        }
        i = i + 1;
        proof {
            match found {
                Some(at) => {
                    assert(is_most_recent(after, at as int));
                },
                None => {
                    assert(no_files(after));
                },
            }
        }
    }
    assert(entries@.take(i as int) =~= entries@);
    found
}

/// The path of the most recently modified regular file, if the listing has
/// a regular file.
pub fn most_recent_file(entries: &Vec<Listed>) -> (found: Option<String>)
    ensures
        match found {
            Some(path) => exists|at: int|
                is_most_recent(entries@, at) && path@ == (#[trigger] entries@[at]).path@,
            None => no_files(entries@),
        },
{
    match most_recent_index(entries) {
        Some(at) => Some(entries[at].path.clone()),
        None => None,
    }
}

/// At most one entry is the most recent.
pub proof fn lemma_most_recent_unique(entries: Seq<Listed>, first: int, second: int)
    requires
        is_most_recent(entries, first),
        is_most_recent(entries, second),
    ensures
        first == second,
{
    if first < second {
        assert(entries[second].is_file);
    } else if second < first {
        assert(entries[first].is_file);
    }
}

/// Where the regular files' modification times are distinct, the entry
/// selected is the one file that is strictly newer than every other.
pub proof fn lemma_most_recent_is_newest(entries: Seq<Listed>, at: int)
    requires
        is_most_recent(entries, at),
        forall|i: int, j: int|
            0 <= i < j < entries.len() && (#[trigger] entries[i]).is_file && (
            #[trigger] entries[j]).is_file ==> entries[i].modified != entries[j].modified,
    ensures
        forall|j: int|
            0 <= j < entries.len() && j != at && (#[trigger] entries[j]).is_file
                ==> entries[j].modified < entries[at].modified,
{
    assert forall|j: int|
        0 <= j < entries.len() && j != at && (#[trigger] entries[j]).is_file implies entries[j].modified
        < entries[at].modified by {
        assert(entries[at].is_file);
        if j < at {
            assert(entries[j].modified != entries[at].modified);
        }
    }
}

/// A regular file that is newer than every regular file of a listing is
/// the one selected once it is added, wherever in the listing it comes.
pub proof fn lemma_newer_file_is_selected(entries: Seq<Listed>, at: int, added: Listed)
    requires
        0 <= at <= entries.len(),
        added.is_file,
        forall|j: int|
            0 <= j < entries.len() && (#[trigger] entries[j]).is_file ==> entries[j].modified
                < added.modified,
    ensures
        is_most_recent(entries.insert(at, added), at),
{
    let grown = entries.insert(at, added);
    assert(grown.len() == entries.len() + 1);
    assert(grown[at] == added);
    assert forall|j: int| 0 <= j < grown.len() && j != at && (#[trigger] grown[j]).is_file implies grown[j].modified
        < added.modified by {
        if j < at {
            assert(grown[j] == entries[j]);
        } else {
            assert(grown[j] == entries[j - 1]);
        }
    }
}

} // verus!
