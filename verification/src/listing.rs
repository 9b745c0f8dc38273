//! Directory listings as plain values, and the choices made on them:
//! which children of the root are clips, and where a clip keeps its
//! segments.

use vstd::prelude::*;
use crate::error::ExportError;
use crate::text::has_prefix;

verus! {

/// What a directory entry is.
#[derive(Clone, Copy, Debug, PartialEq, Eq, Structural)]
pub enum EntryKind {
    /// A regular file.
    File,
    /// A directory.
    Directory,
    /// Anything else.
    Other,
}

/// One child of a directory.
#[derive(Clone, Debug)]
pub struct DirEntry {
    /// The entry's name within its directory. Where the name is not valid
    /// Unicode, this is the name with U+FFFD in place of what is not.
    pub name: String,
    /// Whether the entry's name is valid Unicode, so that `name` is the
    /// name itself.
    pub unicode: bool,
    /// What the entry is.
    pub kind: EntryKind,
}

/// The entry is a directory.
pub open spec fn is_dir(e: DirEntry) -> bool {
    e.kind == EntryKind::Directory
}

/// The entry is a directory whose name is valid Unicode and starts with
/// `bg_`.
pub open spec fn is_segment_dir(e: DirEntry) -> bool {
    is_dir(e) && e.unicode && "bg_"@.is_prefix_of(e.name@)
}

/// The name of an entry.
pub open spec fn entry_name(e: DirEntry) -> Seq<char> {
    e.name@
}

/// The names of the directories of a listing, in listing order.
pub open spec fn directory_names(entries: Seq<DirEntry>) -> Seq<Seq<char>> {
    entries.filter(|e: DirEntry| is_dir(e)).map_values(|e: DirEntry| entry_name(e))
}

/// The index of the first directory named `bg_*` in a listing.
pub open spec fn first_segment_dir(entries: Seq<DirEntry>) -> Option<int>
    decreases entries.len(),
{
    if entries.len() == 0 {
        None
    } else if is_segment_dir(entries[0]) {
        Some(0)
    } else {
        match first_segment_dir(entries.drop_first()) {
            Some(i) => Some(i + 1),
            None => None,
        }
    }
}

/// The name of the segment directory of a clip whose `video` directory
/// lists as `video`, `None` standing for a clip without that directory: the
/// name of the first directory named `bg_*`.
pub open spec fn segment_dir_name(video: Option<Seq<DirEntry>>) -> Option<Seq<char>> {
    match video {
        Some(entries) => match first_segment_dir(entries) {
            Some(i) => Some(entry_name(entries[i])),
            None => None,
        },
        None => None,
    }
}

/// The entries of a listing that is there.
pub open spec fn listed(video: Option<Vec<DirEntry>>) -> Option<Seq<DirEntry>> {
    match video {
        Some(entries) => Some(entries@),
        None => None,
    }
}

/// `first_segment_dir` is the least index of a directory named `bg_*`, and
/// `None` exactly where the listing holds no such directory.
pub proof fn lemma_first_segment_dir(entries: Seq<DirEntry>)
    ensures
        match first_segment_dir(entries) {
            Some(i) => 0 <= i < entries.len() && is_segment_dir(entries[i]) && forall|j: int|
                0 <= j < i ==> !is_segment_dir(#[trigger] entries[j]),
            None => forall|j: int| 0 <= j < entries.len() ==> !is_segment_dir(#[trigger] entries[j]),
        },
    decreases entries.len(),
{
    if entries.len() > 0 && !is_segment_dir(entries[0]) {
        let rest = entries.drop_first();
        lemma_first_segment_dir(rest);
        match first_segment_dir(rest) {
            Some(i) => {
                assert(rest[i] == entries[i + 1]);
                assert forall|j: int| 0 <= j < i + 1 implies !is_segment_dir(
                    #[trigger] entries[j],
                ) by {
                    if j > 0 {
                        assert(rest[j - 1] == entries[j]);
                    }
                }
            },
            None => {
                assert forall|j: int| 0 <= j < entries.len() implies !is_segment_dir(
                    #[trigger] entries[j],
                ) by {
                    if j > 0 {
                        assert(rest[j - 1] == entries[j]);
                    }
                }
            },
        }
    }
}

/// The names of the directories among the children of the root, in listing
/// order: the candidate clips. A directory whose name is not valid Unicode
/// is listed too, under the name that its entry gives.
pub fn clip_directories(entries: &Vec<DirEntry>) -> (out: Vec<String>)
    ensures
        out.deep_view() == directory_names(entries@),
{
    let mut out: Vec<String> = Vec::new();
    let n: usize = entries.len();
    let mut i: usize = 0;
    assert(entries@.take(0) =~= Seq::<DirEntry>::empty());
    proof {
        reveal(Seq::filter);
    }
    assert(out.deep_view() =~= directory_names(entries@.take(0)));
    while i < n
        invariant
            i <= n,
            n == entries.len(),
            out.deep_view() == directory_names(entries@.take(i as int)),
        decreases n - i,
    {
        let ghost before = out.deep_view();
        let ghost head = entries@.take(i as int);
        let e: &DirEntry = &entries[i];
        proof {
            assert(entries@.take(i + 1) =~= head.push(*e));
            head.lemma_filter_push(*e, |e: DirEntry| is_dir(e));
        }
        if e.kind == EntryKind::Directory {
            out.push(e.name.clone());
            assert(out.deep_view() =~= before.push(e.name@));
        }
        assert(out.deep_view() =~= directory_names(entries@.take(i + 1)));
        i += 1;
    }
    assert(entries@.take(n as int) =~= entries@);
    out
}

/// Finds where a clip keeps its segments: the first child of the clip's
/// `video` directory that is itself a directory named `bg_*`. `video` is the
/// listing of that directory, or `None` where the clip has no such
/// directory. Only the children themselves are looked at.
pub fn locate_segment_dir(video: &Option<Vec<DirEntry>>) -> (found: Option<String>)
    ensures
        match found {
            Some(name) => segment_dir_name(listed(*video)) == Some(name@),
            None => segment_dir_name(listed(*video)) is None,
        },
{
    match video {
        None => None,
        Some(entries) => {
            let n: usize = entries.len();
            let mut i: usize = 0;
            assert(entries@.skip(0) =~= entries@);
            while i < n
                invariant
                    i <= n,
                    n == entries.len(),
                    video == Some(*entries),
                    first_segment_dir(entries@) == match first_segment_dir(entries@.skip(i as int)) {
                        Some(k) => Some(k + i),
                        None => None,
                    },
                decreases n - i,
            {
                let e: &DirEntry = &entries[i];
                let ghost rest = entries@.skip(i as int);
                assert(rest[0] == *e);
                assert(rest.drop_first() =~= entries@.skip(i + 1));
                if e.kind == EntryKind::Directory && e.unicode {
                    if has_prefix(e.name.as_str(), "bg_") {
                        assert(is_segment_dir(rest[0]));
                        assert(first_segment_dir(rest) == Some(0int));
                        return Some(e.name.clone());
                    }
                }
                i += 1;
            }
            None
        },
    }
}

/// What the locator's answer means for the clip: a segment directory to go
/// on with, or segments that were not found, which skips the clip.
pub open spec fn located(found: Option<String>) -> Result<String, ExportError> {
    match found {
        Some(name) => Ok(name),
        None => Err(ExportError::SegmentsNotFound),
    }
}

/// Turns the locator's answer into the outcome of the locating step.
pub fn require_segment_dir(found: Option<String>) -> (outcome: Result<String, ExportError>)
    ensures
        outcome == located(found),
{
    match found {
        Some(name) => Ok(name),
        None => Err(ExportError::SegmentsNotFound),
    }
}

} // verus!
